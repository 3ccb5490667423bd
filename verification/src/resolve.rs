//! The binding resolver: builds the argument table, rewrites placeholder
//! tokens to one-based positional indices, and validates completeness.
//!
//! In positional mode every argument must be unnamed; they pass straight
//! through in declaration order and the template text is left untouched.
//! In named mode every argument must resolve to a name; the table maps each
//! name to its value in first-seen order, every placeholder is rewritten to
//! `$` followed by its entry's one-based index, and after the walk every
//! entry must have been referenced by at least one placeholder.

use indexmap::IndexMap;
use vstd::prelude::*;

use crate::error::{Error, ErrorV};
use crate::parse::{args_view, Arg, ArgType, ArgTypeV, ArgV};
use crate::table::{
    table_entries, table_index_of, table_insert, table_lacks_key, table_len, table_new,
    table_values,
};
use crate::text::{chars_of, push_char, sub_string};
use crate::tokens::{mode_positional, tokens_positional, toks_view, SqlToken};
use vstd::pervasive::VecAdditionalExecFns;

verus! {

// ---------------------------------------------------------------------------
// spec: the positional branch
// ---------------------------------------------------------------------------

/// The explicit name of the first `Named` argument at or after `i`, if any.
pub open spec fn first_named_from(args: Seq<ArgV>, i: int) -> Option<Seq<char>>
    decreases args.len() - i,
{
    if !(0 <= i < args.len()) {
        None
    } else {
        match args[i].typ {
            ArgTypeV::Named(n) => Some(n),
            ArgTypeV::Unnamed(_) => first_named_from(args, i + 1),
        }
    }
}

/// The value expressions of the arguments, in declaration order.
pub open spec fn vals_of(args: Seq<ArgV>) -> Seq<Seq<char>> {
    args.map_values(|a: ArgV| a.val)
}

// ---------------------------------------------------------------------------
// spec: the argument table
// ---------------------------------------------------------------------------

/// The binding name an argument must produce in named mode: its explicit
/// name, else its inferred one, else a `MissingArgumentName` failure.
pub open spec fn name_of_arg(a: ArgV) -> Result<Seq<char>, ErrorV> {
    match a.typ {
        ArgTypeV::Named(n) => Ok(n),
        ArgTypeV::Unnamed(o) => match o {
            Some(n) => Ok(n),
            None => Err(ErrorV::MissingArgumentName(a.val)),
        },
    }
}

/// Index of the first entry with key `n` at or after `i`; the length when
/// there is none.
pub open spec fn key_index_from(tab: Seq<(Seq<char>, Seq<char>)>, n: Seq<char>, i: int) -> int
    decreases tab.len() - i,
{
    if !(0 <= i < tab.len()) {
        tab.len() as int
    } else if tab[i].0 == n {
        i
    } else {
        key_index_from(tab, n, i + 1)
    }
}

/// Index of the entry with key `n` (keys are unique in a built table).
pub open spec fn key_index(tab: Seq<(Seq<char>, Seq<char>)>, n: Seq<char>) -> int {
    key_index_from(tab, n, 0)
}

/// Whether some entry has key `n`.
pub open spec fn has_key(tab: Seq<(Seq<char>, Seq<char>)>, n: Seq<char>) -> bool {
    key_index(tab, n) < tab.len()
}

/// All entry keys are distinct.
pub open spec fn keys_unique(tab: Seq<(Seq<char>, Seq<char>)>) -> bool {
    forall|k1: int, k2: int|
        0 <= k1 < k2 < tab.len() ==> (#[trigger] tab[k1]).0 != (#[trigger] tab[k2]).0
}

pub proof fn lemma_key_index_from_bounds(tab: Seq<(Seq<char>, Seq<char>)>, n: Seq<char>, i: int)
    requires
        0 <= i <= tab.len(),
    ensures
        i <= key_index_from(tab, n, i) <= tab.len(),
        key_index_from(tab, n, i) < tab.len() ==> tab[key_index_from(tab, n, i)].0 == n,
        forall|m: int| i <= m < key_index_from(tab, n, i) ==> (#[trigger] tab[m]).0 != n,
    decreases tab.len() - i,
{
    if 0 <= i < tab.len() && tab[i].0 != n {
        lemma_key_index_from_bounds(tab, n, i + 1);
    }
}

/// In a table with unique keys, `key_index` finds exactly the entry that
/// holds the key.
pub proof fn lemma_key_index_unique(tab: Seq<(Seq<char>, Seq<char>)>, n: Seq<char>, k: int)
    requires
        keys_unique(tab),
        0 <= k < tab.len(),
        tab[k].0 == n,
    ensures
        key_index(tab, n) == k,
{
    lemma_key_index_from_bounds(tab, n, 0);
    let f = key_index(tab, n);
    if f < k {
        assert(tab[f].0 == n);
        assert(false);
    }
}

/// A key that no entry holds has no index.
pub proof fn lemma_key_index_absent(tab: Seq<(Seq<char>, Seq<char>)>, n: Seq<char>)
    requires
        table_lacks_key(tab, n),
    ensures
        !has_key(tab, n),
{
    lemma_key_index_from_bounds(tab, n, 0);
}

/// The table that `args[i..]` builds on top of `acc`: each argument's name
/// resolved and inserted in first-seen order; a second insertion under an
/// existing name fails `DuplicateArgumentName`.
pub open spec fn table_from(args: Seq<ArgV>, i: int, acc: Seq<(Seq<char>, Seq<char>)>) -> Result<
    Seq<(Seq<char>, Seq<char>)>,
    ErrorV,
>
    decreases args.len() - i,
{
    if !(0 <= i < args.len()) {
        Ok(acc)
    } else {
        match name_of_arg(args[i]) {
            Ok(n) => {
                if has_key(acc, n) {
                    Err(ErrorV::DuplicateArgumentName(n))
                } else {
                    table_from(args, i + 1, acc.push((n, args[i].val)))
                }
            },
            Err(e) => Err(e),
        }
    }
}

/// The argument table of a named-mode invocation.
pub open spec fn table_spec(args: Seq<ArgV>) -> Result<Seq<(Seq<char>, Seq<char>)>, ErrorV> {
    table_from(args, 0, Seq::empty())
}

// ---------------------------------------------------------------------------
// spec: the token walk
// ---------------------------------------------------------------------------

/// The name a placeholder token references: its text after the `$` marker.
pub open spec fn ph_name(text: Seq<char>) -> Seq<char> {
    if text.len() < 1 {
        Seq::empty()
    } else {
        text.subrange(1, text.len() as int)
    }
}

/// The name of the first placeholder in `toks[i..]` that the table does not
/// bind, if any.
pub open spec fn first_unknown_from(
    toks: Seq<(bool, Seq<char>)>,
    tab: Seq<(Seq<char>, Seq<char>)>,
    i: int,
) -> Option<Seq<char>>
    decreases toks.len() - i,
{
    if !(0 <= i < toks.len()) {
        None
    } else if toks[i].0 && !has_key(tab, ph_name(toks[i].1)) {
        Some(ph_name(toks[i].1))
    } else {
        first_unknown_from(toks, tab, i + 1)
    }
}

pub open spec fn digit_char_of(d: nat) -> char {
    if d == 0 {
        '0'
    } else if d == 1 {
        '1'
    } else if d == 2 {
        '2'
    } else if d == 3 {
        '3'
    } else if d == 4 {
        '4'
    } else if d == 5 {
        '5'
    } else if d == 6 {
        '6'
    } else if d == 7 {
        '7'
    } else if d == 8 {
        '8'
    } else {
        '9'
    }
}

/// The decimal digits of `n`, most significant first.
pub open spec fn dec_digits(n: nat) -> Seq<char>
    decreases n,
{
    if n < 10 {
        seq![digit_char_of(n)]
    } else {
        dec_digits(n / 10).push(digit_char_of(n % 10))
    }
}

/// A placeholder rewritten to `$` and its entry's one-based index.
pub open spec fn rewritten_ph(idx: int) -> Seq<char> {
    seq!['$'] + dec_digits((idx + 1) as nat)
}

/// The output text of one token: placeholders are rewritten, everything
/// else is preserved as it stands.
pub open spec fn rewritten_token(tab: Seq<(Seq<char>, Seq<char>)>, t: (bool, Seq<char>)) -> Seq<
    char,
> {
    if t.0 {
        rewritten_ph(key_index(tab, ph_name(t.1)))
    } else {
        t.1
    }
}

/// The rewritten token texts from `i` on, concatenated in token order.
pub open spec fn rewritten_sql_from(
    toks: Seq<(bool, Seq<char>)>,
    tab: Seq<(Seq<char>, Seq<char>)>,
    i: int,
) -> Seq<char>
    decreases toks.len() - i,
{
    if !(0 <= i < toks.len()) {
        Seq::empty()
    } else {
        rewritten_token(tab, toks[i]) + rewritten_sql_from(toks, tab, i + 1)
    }
}

/// Whether some placeholder among `toks[..bound]` references entry `k`.
pub open spec fn entry_used_upto(
    toks: Seq<(bool, Seq<char>)>,
    tab: Seq<(Seq<char>, Seq<char>)>,
    k: int,
    bound: int,
) -> bool {
    exists|j: int| 0 <= j < bound && (#[trigger] toks[j]).0 && ph_name(toks[j].1) == tab[k].0
}

/// Whether some placeholder references entry `k`.
pub open spec fn entry_used(
    toks: Seq<(bool, Seq<char>)>,
    tab: Seq<(Seq<char>, Seq<char>)>,
    k: int,
) -> bool {
    entry_used_upto(toks, tab, k, toks.len() as int)
}

/// The keys of the entries from `k` on that no placeholder references, in
/// table order.
pub open spec fn unused_from(
    toks: Seq<(bool, Seq<char>)>,
    tab: Seq<(Seq<char>, Seq<char>)>,
    k: int,
) -> Seq<Seq<char>>
    decreases tab.len() - k,
{
    if !(0 <= k < tab.len()) {
        Seq::empty()
    } else if entry_used(toks, tab, k) {
        unused_from(toks, tab, k + 1)
    } else {
        seq![tab[k].0] + unused_from(toks, tab, k + 1)
    }
}

// ---------------------------------------------------------------------------
// spec: resolution
// ---------------------------------------------------------------------------

/// Resolution of a named-mode template: build the table, refuse the first
/// unbound placeholder, then collect every entry never referenced; on
/// success, the rewritten text and the values in first-seen order.
pub open spec fn resolve_named_spec(toks: Seq<(bool, Seq<char>)>, args: Seq<ArgV>) -> Result<
    (Seq<char>, Seq<Seq<char>>),
    ErrorV,
> {
    match table_spec(args) {
        Ok(tab) => match first_unknown_from(toks, tab, 0) {
            Some(n) => Err(ErrorV::UnknownArgument(n)),
            None => {
                let unused = unused_from(toks, tab, 0);
                if unused.len() > 0 {
                    Err(ErrorV::UnusedArgument(unused))
                } else {
                    Ok(
                        (
                            rewritten_sql_from(toks, tab, 0),
                            tab.map_values(|e: (Seq<char>, Seq<char>)| e.1),
                        ),
                    )
                }
            },
        },
        Err(e) => Err(e),
    }
}

/// What binding resolution yields for a template — its text and its token
/// sequence — and its normalized arguments. In positional mode the text
/// passes through untouched and the values keep declaration order; in named
/// mode the template is rewritten as [`resolve_named_spec`] says.
pub open spec fn resolve_spec(
    sql: Seq<char>,
    toks: Seq<(bool, Seq<char>)>,
    args: Seq<ArgV>,
) -> Result<(Seq<char>, Seq<Seq<char>>), ErrorV> {
    if tokens_positional(toks) {
        match first_named_from(args, 0) {
            Some(n) => Err(ErrorV::NamedArgInPositionalQuery(n)),
            None => Ok((sql, vals_of(args))),
        }
    } else {
        resolve_named_spec(toks, args)
    }
}

// ---------------------------------------------------------------------------
// exec
// ---------------------------------------------------------------------------

fn digit_char_exec(d: usize) -> (c: char)
    requires
        d < 10,
    ensures
        c == digit_char_of(d as nat),
{
    if d == 0 {
        '0'
    } else if d == 1 {
        '1'
    } else if d == 2 {
        '2'
    } else if d == 3 {
        '3'
    } else if d == 4 {
        '4'
    } else if d == 5 {
        '5'
    } else if d == 6 {
        '6'
    } else if d == 7 {
        '7'
    } else if d == 8 {
        '8'
    } else {
        '9'
    }
}

/// The decimal digits of `n`.
pub(crate) fn usize_dec(n: usize) -> (r: String)
    ensures
        r@ == dec_digits(n as nat),
    decreases n,
{
    if n < 10 {
        let mut s = String::new();
        push_char(&mut s, digit_char_exec(n));
        proof {
            assert(s@ =~= seq![digit_char_of(n as nat)]);
        }
        s
    } else {
        let mut s = usize_dec(n / 10);
        push_char(&mut s, digit_char_exec(n % 10));
        s
    }
}

/// Resolves the template against its arguments: decides the mode from the
/// token sequence, validates the arguments, and yields the final SQL text
/// and the ordered value expressions.
pub fn resolve(sql: String, tokens: &Vec<SqlToken>, args: &Vec<Arg>) -> (r: Result<
    (String, Vec<String>),
    Error,
>)
    ensures
        match r {
            Ok(p) => resolve_spec(sql@, toks_view(tokens@), args_view(args@)) == Ok::<
                (Seq<char>, Seq<Seq<char>>),
                ErrorV,
            >((p.0@, p.1@.map_values(|v: String| v@))),
            Err(e) => resolve_spec(sql@, toks_view(tokens@), args_view(args@)) == Err::<
                (Seq<char>, Seq<Seq<char>>),
                ErrorV,
            >(e@),
        },
{
    let ghost argsv = args_view(args@);
    let ghost toksv = toks_view(tokens@);
    if mode_positional(tokens) {
        let mut i: usize = 0;
        while i < args.len()
            invariant
                i <= args@.len(),
                argsv == args_view(args@),
                toksv == toks_view(tokens@),
                tokens_positional(toksv),
                first_named_from(argsv, 0) == first_named_from(argsv, i as int),
            decreases args@.len() - i,
        {
            match &args[i].typ {
                ArgType::Named(n) => {
                    proof {
                        assert(argsv[i as int].typ == ArgTypeV::Named(n@));
                    }
                    return Err(Error::NamedArgInPositionalQuery(n.clone()));
                },
                ArgType::Unnamed(_) => {},
            }
            i = i + 1;
        }
        proof {
            assert(first_named_from(argsv, 0) is None);
        }
        let mut vals: Vec<String> = Vec::new();
        let mut k: usize = 0;
        while k < args.len()
            invariant
                k <= args@.len(),
                argsv == args_view(args@),
                toksv == toks_view(tokens@),
                tokens_positional(toksv),
                first_named_from(argsv, 0) is None,
                vals@.map_values(|v: String| v@) == vals_of(argsv).subrange(0, k as int),
            decreases args@.len() - k,
        {
            let ghost vals_before = vals@;
            vals.push(args[k].val.clone());
            proof {
                assert(vals@.map_values(|v: String| v@) =~= vals_before.map_values(
                    |v: String| v@,
                ).push(argsv[k as int].val));
                assert(vals@.map_values(|v: String| v@) =~= vals_of(argsv).subrange(0, k + 1));
            }
            k = k + 1;
        }
        proof {
            assert(vals@.map_values(|v: String| v@) =~= vals_of(argsv));
        }
        Ok((sql, vals))
    } else {
        // build the table, keeping the keys beside it for the unused report
        let mut tab: IndexMap<String, String> = table_new();
        let mut keys: Vec<String> = Vec::new();
        let mut i: usize = 0;
        while i < args.len()
            invariant
                i <= args@.len(),
                argsv == args_view(args@),
                toksv == toks_view(tokens@),
                !tokens_positional(toksv),
                keys_unique(table_entries(tab)),
                keys@.len() == table_entries(tab).len(),
                keys@.map_values(|n: String| n@) == table_entries(tab).map_values(
                    |e: (Seq<char>, Seq<char>)| e.0,
                ),
                table_spec(argsv) == table_from(argsv, i as int, table_entries(tab)),
            decreases args@.len() - i,
        {
            let name: String = match &args[i].typ {
                ArgType::Named(n) => n.clone(),
                ArgType::Unnamed(o) => match o {
                    Some(n) => n.clone(),
                    None => {
                        proof {
                            assert(name_of_arg(argsv[i as int]) == Err::<Seq<char>, ErrorV>(
                                ErrorV::MissingArgumentName(args@[i as int].val@),
                            ));
                        }
                        return Err(Error::MissingArgumentName(args[i].val.clone()));
                    },
                },
            };
            proof {
                assert(name_of_arg(argsv[i as int]) == Ok::<Seq<char>, ErrorV>(name@));
            }
            match table_index_of(&tab, &name) {
                Some(dup) => {
                    proof {
                        lemma_key_index_unique(table_entries(tab), name@, dup as int);
                    }
                    return Err(Error::DuplicateArgumentName(name));
                },
                None => {
                    proof {
                        lemma_key_index_absent(table_entries(tab), name@);
                    }
                    let ghost entries_before = table_entries(tab);
                    let ghost keysv_before = keys@.map_values(|n2: String| n2@);
                    let ghost namev = name@;
                    keys.push(name.clone());
                    table_insert(&mut tab, name, args[i].val.clone());
                    proof {
                        assert(keys@.map_values(|n2: String| n2@) =~= keysv_before.push(namev));
                        assert(table_entries(tab) == entries_before.push(
                            (namev, argsv[i as int].val),
                        ));
                        assert(keys@.map_values(|n2: String| n2@) =~= table_entries(tab).map_values(
                            |e: (Seq<char>, Seq<char>)| e.0,
                        ));
                    }
                },
            }
            i = i + 1;
        }
        let ghost tabv = table_entries(tab);
        proof {
            assert(table_spec(argsv) == Ok::<Seq<(Seq<char>, Seq<char>)>, ErrorV>(tabv));
        }
        // walk the tokens, rewriting placeholders and marking entries used
        let n = table_len(&tab);
        let mut used: Vec<bool> = vec![false; n];
        let mut out_sql = String::new();
        let mut t: usize = 0;
        while t < tokens.len()
            invariant
                t <= tokens@.len(),
                toksv == toks_view(tokens@),
                !tokens_positional(toksv),
                argsv == args_view(args@),
                table_spec(argsv) == Ok::<Seq<(Seq<char>, Seq<char>)>, ErrorV>(tabv),
                tabv == table_entries(tab),
                keys_unique(tabv),
                n == tabv.len(),
                used@.len() == n,
                forall|k: int|
                    0 <= k < n ==> used@[k] == entry_used_upto(toksv, tabv, k, t as int),
                first_unknown_from(toksv, tabv, 0) == first_unknown_from(toksv, tabv, t as int),
                rewritten_sql_from(toksv, tabv, 0) == out_sql@ + rewritten_sql_from(
                    toksv,
                    tabv,
                    t as int,
                ),
            decreases tokens@.len() - t,
        {
            let ghost used_before = used@;
            let ghost out_before = out_sql@;
            if tokens[t].placeholder {
                let cs = chars_of(tokens[t].text.as_str());
                let nm: String = if cs.len() == 0 {
                    String::new()
                } else {
                    sub_string(&cs, 1, cs.len())
                };
                proof {
                    assert(nm@ == ph_name(toksv[t as int].1));
                }
                match table_index_of(&tab, &nm) {
                    None => {
                        proof {
                            lemma_key_index_absent(tabv, nm@);
                        }
                        return Err(Error::UnknownArgument(nm));
                    },
                    Some(k) => {
                        proof {
                            lemma_key_index_unique(tabv, nm@, k as int);
                        }
                        used.set(k, true);
                        let digits = usize_dec(k + 1);
                        push_char(&mut out_sql, '$');
                        out_sql.append(digits.as_str());
                        proof {
                            assert(out_sql@ =~= out_before + rewritten_token(
                                tabv,
                                toksv[t as int],
                            ));
                            assert(forall|m: int|
                                0 <= m < n && m != k ==> used@[m] == used_before[m]);
                            assert(forall|m: int|
                                0 <= m < n ==> used@[m] == entry_used_upto(
                                    toksv,
                                    tabv,
                                    m,
                                    t + 1,
                                )) by {
                                assert(toksv[t as int].0 && ph_name(toksv[t as int].1)
                                    == tabv[k as int].0);
                                assert(forall|m: int|
                                    0 <= m < n && m != k && entry_used_upto(toksv, tabv, m, t + 1)
                                        ==> entry_used_upto(toksv, tabv, m, t as int));
                            }
                            assert(out_sql@ + rewritten_sql_from(toksv, tabv, t + 1)
                                =~= out_before + rewritten_sql_from(toksv, tabv, t as int));
                        }
                    },
                }
            } else {
                out_sql.append(tokens[t].text.as_str());
                proof {
                    assert(out_sql@ =~= out_before + rewritten_token(tabv, toksv[t as int]));
                    assert(forall|m: int|
                        0 <= m < n ==> used@[m] == entry_used_upto(toksv, tabv, m, t + 1)) by {
                        assert(!toksv[t as int].0);
                        assert(forall|m: int|
                            0 <= m < n && entry_used_upto(toksv, tabv, m, t + 1)
                                ==> entry_used_upto(toksv, tabv, m, t as int));
                    }
                    assert(out_sql@ + rewritten_sql_from(toksv, tabv, t + 1) =~= out_before
                        + rewritten_sql_from(toksv, tabv, t as int));
                }
            }
            t = t + 1;
        }
        proof {
            assert(rewritten_sql_from(toksv, tabv, 0) =~= out_sql@ + Seq::<char>::empty());
            assert(out_sql@ =~= rewritten_sql_from(toksv, tabv, 0));
        }
        // report every entry never referenced, in table order
        let mut unused: Vec<String> = Vec::new();
        let mut k: usize = 0;
        proof {
            assert(unused@.map_values(|s2: String| s2@) + unused_from(toksv, tabv, 0)
                =~= unused_from(toksv, tabv, 0));
        }
        while k < n
            invariant
                k <= n,
                toksv == toks_view(tokens@),
                !tokens_positional(toksv),
                argsv == args_view(args@),
                table_spec(argsv) == Ok::<Seq<(Seq<char>, Seq<char>)>, ErrorV>(tabv),
                first_unknown_from(toksv, tabv, 0) is None,
                n == tabv.len(),
                used@.len() == n,
                keys@.len() == n,
                keys@.map_values(|s2: String| s2@) == tabv.map_values(
                    |e: (Seq<char>, Seq<char>)| e.0,
                ),
                forall|m: int| 0 <= m < n ==> used@[m] == entry_used(toksv, tabv, m),
                unused_from(toksv, tabv, 0) == unused@.map_values(|s2: String| s2@)
                    + unused_from(toksv, tabv, k as int),
            decreases n - k,
        {
            let ghost unused_before = unused@;
            if !used[k] {
                unused.push(keys[k].clone());
                proof {
                    assert(keys@.map_values(|s2: String| s2@)[k as int] == tabv.map_values(
                        |e: (Seq<char>, Seq<char>)| e.0,
                    )[k as int]);
                    assert(keys@[k as int]@ == tabv[k as int].0);
                    assert(unused@.map_values(|s2: String| s2@) =~= unused_before.map_values(
                        |s2: String| s2@,
                    ).push(tabv[k as int].0));
                    assert(unused@.map_values(|s2: String| s2@) + unused_from(toksv, tabv, k + 1)
                        =~= unused_before.map_values(|s2: String| s2@) + (seq![tabv[k as int].0]
                        + unused_from(toksv, tabv, k + 1)));
                }
            }
            k = k + 1;
        }
        proof {
            assert(unused_from(toksv, tabv, 0) =~= unused@.map_values(|s2: String| s2@));
        }
        if unused.len() > 0 {
            return Err(Error::UnusedArgument(unused));
        }
        // the values, in first-seen order
        let vals = table_values(tab);
        Ok((out_sql, vals))
    }
}

} // verus!
