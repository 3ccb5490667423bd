//! Laws of the binding resolver, stated and proved over the resolution
//! specification.

use vstd::prelude::*;

use crate::error::ErrorV;
use crate::parse::{child_arg_spec, expand_raw_spec, ArgV, RawArgV, RawChildV};
use crate::resolve::{
    entry_used, first_named_from, first_unknown_from, has_key, key_index, key_index_from,
    lemma_key_index_from_bounds, ph_name, resolve_named_spec, resolve_spec, table_spec,
    unused_from, vals_of,
};
use crate::tokens::tokens_positional;

verus! {

/// The value bound under key `n`.
pub open spec fn value_at(tab: Seq<(Seq<char>, Seq<char>)>, n: Seq<char>) -> Seq<char> {
    tab[key_index(tab, n)].1
}

proof fn lemma_first_named_none(args: Seq<ArgV>, i: int)
    requires
        0 <= i,
        forall|k: int| 0 <= k < args.len() ==> (#[trigger] args[k]).typ is Unnamed,
    ensures
        first_named_from(args, i) is None,
    decreases args.len() - i,
{
    if i < args.len() {
        lemma_first_named_none(args, i + 1);
    }
}

/// For an all-positional template whose arguments are all unnamed,
/// resolution succeeds, the output SQL equals the input text verbatim, and
/// the bound values keep declaration order.
pub proof fn lemma_positional_passthrough(
    sql: Seq<char>,
    toks: Seq<(bool, Seq<char>)>,
    args: Seq<ArgV>,
)
    requires
        tokens_positional(toks),
        forall|k: int| 0 <= k < args.len() ==> (#[trigger] args[k]).typ is Unnamed,
    ensures
        resolve_spec(sql, toks, args) == Ok::<(Seq<char>, Seq<Seq<char>>), ErrorV>(
            (sql, vals_of(args)),
        ),
{
    lemma_first_named_none(args, 0);
}

/// Splat expansion is deterministic and order-preserving: expanding a splat
/// always succeeds and yields exactly one candidate per child, in source
/// order, each carrying that child's name and reconstructed value — so
/// re-expanding identical input yields identical child order and names.
pub proof fn lemma_splat_expansion(parent: Seq<char>, children: Seq<RawChildV>)
    ensures
        expand_raw_spec(RawArgV::Splat { parent, children }) == Ok::<Seq<ArgV>, ErrorV>(
            children.map_values(|c: RawChildV| child_arg_spec(parent, c)),
        ),
        forall|k: int|
            0 <= k < children.len() ==> children.map_values(
                |c: RawChildV| child_arg_spec(parent, c),
            )[k] == child_arg_spec(parent, children[k]),
{
}

proof fn lemma_first_unknown_agree(
    toks: Seq<(bool, Seq<char>)>,
    tab1: Seq<(Seq<char>, Seq<char>)>,
    tab2: Seq<(Seq<char>, Seq<char>)>,
    i: int,
)
    requires
        forall|n: Seq<char>| has_key(tab1, n) <==> has_key(tab2, n),
    ensures
        first_unknown_from(toks, tab1, i) == first_unknown_from(toks, tab2, i),
    decreases toks.len() - i,
{
    if 0 <= i < toks.len() {
        lemma_first_unknown_agree(toks, tab1, tab2, i + 1);
    }
}

proof fn lemma_unused_empty_iff(
    toks: Seq<(bool, Seq<char>)>,
    tab: Seq<(Seq<char>, Seq<char>)>,
    k: int,
)
    requires
        0 <= k,
    ensures
        (unused_from(toks, tab, k).len() == 0) <==> (forall|m: int|
            k <= m < tab.len() ==> entry_used(toks, tab, m)),
    decreases tab.len() - k,
{
    if k < tab.len() {
        lemma_unused_empty_iff(toks, tab, k + 1);
        if entry_used(toks, tab, k) {
            assert((unused_from(toks, tab, k).len() == 0) <==> (forall|m: int|
                k <= m < tab.len() ==> entry_used(toks, tab, m))) by {
                if forall|m: int| k + 1 <= m < tab.len() ==> entry_used(toks, tab, m) {
                    assert(forall|m: int| k <= m < tab.len() ==> entry_used(toks, tab, m));
                }
            }
        } else {
            assert(unused_from(toks, tab, k).len() > 0);
        }
    }
}

proof fn lemma_has_key_at(tab: Seq<(Seq<char>, Seq<char>)>, k: int)
    requires
        0 <= k < tab.len(),
    ensures
        has_key(tab, tab[k].0),
        tab[key_index(tab, tab[k].0)].0 == tab[k].0,
{
    lemma_key_index_from_bounds(tab, tab[k].0, 0);
    if key_index(tab, tab[k].0) == tab.len() {
        assert(tab[k].0 != tab[k].0);
    }
}

proof fn lemma_all_used_transfer(
    toks: Seq<(bool, Seq<char>)>,
    ta: Seq<(Seq<char>, Seq<char>)>,
    tb: Seq<(Seq<char>, Seq<char>)>,
)
    requires
        forall|n: Seq<char>| has_key(ta, n) <==> has_key(tb, n),
        forall|m: int| 0 <= m < ta.len() ==> entry_used(toks, ta, m),
    ensures
        forall|m: int| 0 <= m < tb.len() ==> entry_used(toks, tb, m),
{
    assert forall|m: int| 0 <= m < tb.len() implies entry_used(toks, tb, m) by {
        let n = tb[m].0;
        lemma_has_key_at(tb, m);
        assert(has_key(ta, n));
        let k = key_index(ta, n);
        lemma_key_index_from_bounds(ta, n, 0);
        assert(entry_used(toks, ta, k));
        let j = choose|j: int|
            0 <= j < toks.len() && (#[trigger] toks[j]).0 && ph_name(toks[j].1) == ta[k].0;
        assert(0 <= j < toks.len() && toks[j].0 && ph_name(toks[j].1) == tb[m].0);
    }
}

proof fn lemma_no_unknown_all_bound(
    toks: Seq<(bool, Seq<char>)>,
    tab: Seq<(Seq<char>, Seq<char>)>,
    i: int,
)
    requires
        0 <= i,
        first_unknown_from(toks, tab, i) is None,
    ensures
        forall|j: int|
            i <= j < toks.len() && (#[trigger] toks[j]).0 ==> has_key(tab, ph_name(toks[j].1)),
    decreases toks.len() - i,
{
    if i < toks.len() {
        lemma_no_unknown_all_bound(toks, tab, i + 1);
    }
}

/// For a named template, two argument lists that bind the same names to the
/// same values — the same named arguments, in any declaration order —
/// resolve alike: one succeeds exactly when the other does, and although
/// each invocation numbers the placeholders by its own table order, the
/// value bound to each placeholder's name is the same on both sides.
pub proof fn lemma_named_reorder_invariant(
    toks: Seq<(bool, Seq<char>)>,
    args1: Seq<ArgV>,
    args2: Seq<ArgV>,
    tab1: Seq<(Seq<char>, Seq<char>)>,
    tab2: Seq<(Seq<char>, Seq<char>)>,
)
    requires
        table_spec(args1) == Ok::<Seq<(Seq<char>, Seq<char>)>, ErrorV>(tab1),
        table_spec(args2) == Ok::<Seq<(Seq<char>, Seq<char>)>, ErrorV>(tab2),
        forall|n: Seq<char>| has_key(tab1, n) <==> has_key(tab2, n),
        forall|n: Seq<char>| has_key(tab1, n) ==> value_at(tab1, n) == value_at(tab2, n),
    ensures
        resolve_named_spec(toks, args1) is Ok <==> resolve_named_spec(toks, args2) is Ok,
        forall|i: int|
            0 <= i < toks.len() && (#[trigger] toks[i]).0 ==> match (
                resolve_named_spec(toks, args1),
                resolve_named_spec(toks, args2),
            ) {
                (Ok(r1), Ok(r2)) => r1.1[key_index(tab1, ph_name(toks[i].1))] == r2.1[key_index(
                    tab2,
                    ph_name(toks[i].1),
                )],
                _ => true,
            },
{
    lemma_first_unknown_agree(toks, tab1, tab2, 0);
    lemma_unused_empty_iff(toks, tab1, 0);
    lemma_unused_empty_iff(toks, tab2, 0);
    if first_unknown_from(toks, tab1, 0) is None {
        if unused_from(toks, tab1, 0).len() == 0 {
            lemma_all_used_transfer(toks, tab1, tab2);
        }
        if unused_from(toks, tab2, 0).len() == 0 {
            lemma_all_used_transfer(toks, tab2, tab1);
        }
    }
    match (resolve_named_spec(toks, args1), resolve_named_spec(toks, args2)) {
        (Ok(r1), Ok(r2)) => {
            lemma_no_unknown_all_bound(toks, tab1, 0);
            assert forall|i: int|
                0 <= i < toks.len() && (#[trigger] toks[i]).0 implies r1.1[key_index(
                tab1,
                ph_name(toks[i].1),
            )] == r2.1[key_index(tab2, ph_name(toks[i].1))] by {
                let n = ph_name(toks[i].1);
                assert(has_key(tab1, n));
                lemma_key_index_from_bounds(tab1, n, 0);
                lemma_key_index_from_bounds(tab2, n, 0);
                assert(r1.1 == tab1.map_values(|e: (Seq<char>, Seq<char>)| e.1));
                assert(r2.1 == tab2.map_values(|e: (Seq<char>, Seq<char>)| e.1));
                assert(r1.1[key_index(tab1, n)] == value_at(tab1, n));
                assert(r2.1[key_index(tab2, n)] == value_at(tab2, n));
            }
        },
        _ => {},
    }
}

} // verus!
