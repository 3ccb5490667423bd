//! The argument expression parser and normalizer.
//!
//! The call-site argument list follows this grammar (whitespace between
//! tokens is free):
//!
//! ```text
//! argument_list := argument (',' argument)* ','?
//! argument      := splat | single
//! single        := path_expr | cast_expr | assign_expr | other_expr
//! splat         := '..' expr ('{' | '[') child (',' child)* ','? ('}' | ']')
//! child         := [ident '=']? '.' accessor ('.' accessor)* ['as' type]
//! accessor      := integer_literal | ident | ident '(' args ')'
//!                | ident '::' '<' ... '>' '(' args ')'
//! ```
//!
//! Value expressions are opaque text; the parser finds their extent with the
//! bracket-and-literal scanner and only classifies their top-level shape:
//! a bare identifier names itself, `name = expr` names explicitly, a cast
//! propagates the inferred name of its inner expression, and everything else
//! is unnamed. A splat expands into one candidate per child, in source
//! order.

use vstd::prelude::*;

use crate::error::{Error, ErrorV};
use crate::text::{
    chars_of, ident_char, ident_end, ident_end_spec, ident_range, is_as_kw_at, is_digit_char,
    is_ident, is_ident_char, is_ident_start_char, scan, scan_spec, skip_ws, skip_ws_spec,
    sub_string, trim_range, trimmed, ScanStops,
};

verus! {

// ---------------------------------------------------------------------------
// data model
// ---------------------------------------------------------------------------

/// Ghost mirror of [`ArgType`].
pub enum ArgTypeV {
    Unnamed(Option<Seq<char>>),
    Named(Seq<char>),
}

/// How one call-site argument supplies (or fails to supply) a binding name.
pub enum ArgType {
    /// No explicit name; an inferred name, when the value expression is a
    /// bare identifier (possibly under `&`, `*`, `?` or `.await` inside a
    /// cast), rides along as `Some(name)`.
    Unnamed(Option<String>),
    /// An explicit `name = expr` binding.
    Named(String),
}

impl View for ArgType {
    type V = ArgTypeV;

    open spec fn view(&self) -> ArgTypeV {
        match self {
            ArgType::Unnamed(o) => ArgTypeV::Unnamed(
                match o {
                    Some(n) => Some(n@),
                    None => None,
                },
            ),
            ArgType::Named(n) => ArgTypeV::Named(n@),
        }
    }
}

/// Ghost mirror of [`Arg`].
pub struct ArgV {
    pub typ: ArgTypeV,
    pub val: Seq<char>,
}

/// One normalized argument: its naming and its opaque value expression.
pub struct Arg {
    pub typ: ArgType,
    pub val: String,
}

impl View for Arg {
    type V = ArgV;

    open spec fn view(&self) -> ArgV {
        ArgV { typ: self.typ@, val: self.val@ }
    }
}

/// The views of an argument vector, in order.
pub open spec fn args_view(s: Seq<Arg>) -> Seq<ArgV> {
    s.map_values(|a: Arg| a@)
}

/// Ghost mirror of [`Accessor`].
pub enum AccessorV {
    Field(Seq<char>),
    Index(Seq<char>),
    Method(Seq<char>),
}

/// One step of a splat child's access path.
pub enum Accessor {
    /// A named field access: `.name`.
    Field(String),
    /// A tuple-index access: `.0`.
    Index(String),
    /// A method call, `.name(args)` or `.name::<T>(args)`; the text spans
    /// the whole call.
    Method(String),
}

impl View for Accessor {
    type V = AccessorV;

    open spec fn view(&self) -> AccessorV {
        match self {
            Accessor::Field(s) => AccessorV::Field(s@),
            Accessor::Index(s) => AccessorV::Index(s@),
            Accessor::Method(s) => AccessorV::Method(s@),
        }
    }
}

/// Ghost mirror of [`RawChild`].
pub struct RawChildV {
    pub rename: Option<Seq<char>>,
    pub accessors: Seq<AccessorV>,
    pub cast: Option<Seq<char>>,
}

/// One destructured member of a splat: an optional explicit rename, the
/// access path, and an optional cast.
pub struct RawChild {
    pub rename: Option<String>,
    pub accessors: Vec<Accessor>,
    pub cast: Option<String>,
}

impl View for RawChild {
    type V = RawChildV;

    open spec fn view(&self) -> RawChildV {
        RawChildV {
            rename: match &self.rename {
                Some(n) => Some(n@),
                None => None,
            },
            accessors: self.accessors@.map_values(|a: Accessor| a@),
            cast: match &self.cast {
                Some(t) => Some(t@),
                None => None,
            },
        }
    }
}

/// Ghost mirror of [`RawArg`].
pub enum RawArgV {
    Single(Seq<char>),
    Splat { parent: Seq<char>, children: Seq<RawChildV> },
}

/// One parsed call-site argument, before normalization.
pub enum RawArg {
    /// A single value expression, still to be classified.
    Single(String),
    /// A destructuring splat: `..parent{child, ...}`. The parent expression
    /// is stored trimmed.
    Splat { parent: String, children: Vec<RawChild> },
}

impl View for RawArg {
    type V = RawArgV;

    open spec fn view(&self) -> RawArgV {
        match self {
            RawArg::Single(e) => RawArgV::Single(e@),
            RawArg::Splat { parent, children } => RawArgV::Splat {
                parent: parent@,
                children: children@.map_values(|c: RawChild| c@),
            },
        }
    }
}

/// The views of a raw-argument vector, in order.
pub open spec fn raws_view(s: Seq<RawArg>) -> Seq<RawArgV> {
    s.map_values(|r: RawArg| r@)
}

// ---------------------------------------------------------------------------
// name inference
// ---------------------------------------------------------------------------

/// The identifier a value expression contributes as inferred name when it
/// stands inside a cast: a bare identifier, stripped of leading `&`, `mut`
/// and `*` and of trailing `?` and `.await`.
pub open spec fn deep_name_spec(s: Seq<char>) -> Option<Seq<char>>
    decreases s.len(),
{
    let t = trimmed(s);
    if t.len() > s.len() {
        // trimming never grows; this keeps the recursion measure decreasing
        None
    } else if is_ident(t) {
        Some(t)
    } else if t.len() > 0 && (t[0] == '&' || t[0] == '*') {
        deep_name_spec(t.subrange(1, t.len() as int))
    } else if t.len() >= 4 && t[0] == 'm' && t[1] == 'u' && t[2] == 't' && !is_ident_char(t[3]) {
        deep_name_spec(t.subrange(3, t.len() as int))
    } else if t.len() > 0 && t[t.len() - 1] == '?' {
        deep_name_spec(t.subrange(0, t.len() - 1))
    } else if t.len() >= 6 && t[t.len() - 6] == '.' && t[t.len() - 5] == 'a' && t[t.len() - 4]
        == 'w' && t[t.len() - 3] == 'a' && t[t.len() - 2] == 'i' && t[t.len() - 1] == 't' {
        deep_name_spec(t.subrange(0, t.len() - 6))
    } else {
        None
    }
}

/// Inferred name of `s[lo..hi]` under the cast rule.
pub fn deep_name(s: &Vec<char>, lo: usize, hi: usize) -> (r: Option<String>)
    requires
        lo <= hi <= s@.len(),
    ensures
        match r {
            Some(n) => deep_name_spec(s@.subrange(lo as int, hi as int)) == Some(n@),
            None => deep_name_spec(s@.subrange(lo as int, hi as int)) is None,
        },
    decreases hi - lo,
{
    let ghost piece = s@.subrange(lo as int, hi as int);
    let (a, b) = trim_range(s, lo, hi);
    let ghost t = trimmed(piece);
    proof {
        assert(t == s@.subrange(a as int, b as int));
        assert(t.len() == b - a <= hi - lo);
    }
    if ident_range(s, a, b) {
        return Some(sub_string(s, a, b));
    }
    if b - a > 0 && (s[a] == '&' || s[a] == '*') {
        proof {
            assert(t.subrange(1, t.len() as int) =~= s@.subrange(a + 1, b as int));
        }
        return deep_name(s, a + 1, b);
    }
    if b - a >= 4 && s[a] == 'm' && s[a + 1] == 'u' && s[a + 2] == 't' && !ident_char(s[a + 3]) {
        proof {
            assert(t[1] == s@[a + 1] && t[2] == s@[a + 2] && t[3] == s@[a + 3]);
            assert(t.subrange(3, t.len() as int) =~= s@.subrange(a + 3, b as int));
        }
        return deep_name(s, a + 3, b);
    }
    if b - a > 0 && s[b - 1] == '?' {
        proof {
            assert(t[t.len() - 1] == s@[b - 1]);
            assert(t.subrange(0, t.len() - 1) =~= s@.subrange(a as int, b - 1));
        }
        return deep_name(s, a, b - 1);
    }
    if b - a >= 6 && s[b - 6] == '.' && s[b - 5] == 'a' && s[b - 4] == 'w' && s[b - 3] == 'a'
        && s[b - 2] == 'i' && s[b - 1] == 't' {
        proof {
            assert(t[t.len() - 6] == s@[b - 6] && t[t.len() - 5] == s@[b - 5]);
            assert(t[t.len() - 4] == s@[b - 4] && t[t.len() - 3] == s@[b - 3]);
            assert(t[t.len() - 2] == s@[b - 2] && t[t.len() - 1] == s@[b - 1]);
            assert(t.subrange(0, t.len() - 6) =~= s@.subrange(a as int, b - 6));
        }
        return deep_name(s, a, b - 6);
    }
    proof {
        if t.len() >= 4 {
            assert(t[0] == s@[a as int] && t[1] == s@[a + 1] && t[2] == s@[a + 2] && t[3] == s@[a
                + 3]);
        } else if t.len() > 0 {
            assert(t[0] == s@[a as int]);
        }
        if t.len() >= 6 {
            assert(t[t.len() - 6] == s@[b - 6] && t[t.len() - 5] == s@[b - 5]);
            assert(t[t.len() - 4] == s@[b - 4] && t[t.len() - 3] == s@[b - 3]);
            assert(t[t.len() - 2] == s@[b - 2]);
        }
        if t.len() > 0 {
            assert(t[t.len() - 1] == s@[b - 1]);
        }
    }
    None
}

// ---------------------------------------------------------------------------
// classification of single arguments
// ---------------------------------------------------------------------------

/// Scanner stops for finding a top-level assignment `=`.
pub open spec fn eq_stops() -> ScanStops {
    ScanStops { comma: false, open_delim: false, assign_eq: true, as_kw: false }
}

/// Scanner stops for finding a top-level `as` keyword.
pub open spec fn as_stops() -> ScanStops {
    ScanStops { comma: false, open_delim: false, assign_eq: false, as_kw: true }
}

/// Position of the top-level assignment `=` of `e`, or its length.
pub open spec fn find_assign_eq_spec(e: Seq<char>) -> int {
    scan_spec(e, 0, e.len() as int, 0, 0, eq_stops())
}

/// Position of the last top-level `as` keyword at or after `i`, if any.
pub open spec fn find_last_as_spec(e: Seq<char>, i: int) -> Option<int>
    decreases e.len() - i,
{
    let j = scan_spec(e, i, e.len() as int, 0, 0, as_stops());
    if j < i || j >= e.len() {
        // the scanner never moves backwards; the dead first case keeps the
        // recursion measure visibly decreasing
        None
    } else if e[j] == 'a' {
        match find_last_as_spec(e, j + 1) {
            Some(k) => Some(k),
            None => Some(j),
        }
    } else {
        None
    }
}

/// What one single (non-splat) argument denotes:
/// - `name = expr` binds `expr` under the explicit name, which must be a
///   plain identifier (else `InvalidArgumentName`);
/// - `expr as Type` passes unnamed, inferring a name from the inner
///   expression when it is a bare identifier;
/// - a bare identifier passes unnamed and infers itself as name;
/// - anything else passes unnamed with no inferred name.
pub open spec fn classify_single_spec(e: Seq<char>) -> Result<ArgV, ErrorV> {
    let j = find_assign_eq_spec(e);
    if 0 <= j < e.len() && e[j] == '=' {
        let left = trimmed(e.subrange(0, j));
        let right = trimmed(e.subrange(j + 1, e.len() as int));
        if is_ident(left) {
            Ok(ArgV { typ: ArgTypeV::Named(left), val: right })
        } else {
            Err(ErrorV::InvalidArgumentName(left))
        }
    } else {
        let t = trimmed(e);
        match find_last_as_spec(e, 0) {
            Some(k) => Ok(
                ArgV { typ: ArgTypeV::Unnamed(deep_name_spec(e.subrange(0, k))), val: t },
            ),
            None => {
                if is_ident(t) {
                    Ok(ArgV { typ: ArgTypeV::Unnamed(Some(t)), val: t })
                } else {
                    Ok(ArgV { typ: ArgTypeV::Unnamed(None), val: t })
                }
            },
        }
    }
}

fn find_last_as(e: &Vec<char>, i: usize) -> (r: Option<usize>)
    requires
        i <= e@.len(),
    ensures
        match r {
            Some(k) => find_last_as_spec(e@, i as int) == Some(k as int) && i <= k < e@.len(),
            None => find_last_as_spec(e@, i as int) is None,
        },
    decreases e@.len() - i,
{
    let stops = ScanStops { comma: false, open_delim: false, assign_eq: false, as_kw: true };
    proof {
        assert(stops == as_stops());
    }
    let j = scan(e, i, e.len(), stops);
    if j >= e.len() {
        None
    } else if e[j] == 'a' {
        match find_last_as(e, j + 1) {
            Some(k) => Some(k),
            None => Some(j),
        }
    } else {
        None
    }
}

/// Classifies one single argument, held whole in `e`.
pub fn classify_single(e: &Vec<char>) -> (r: Result<Arg, Error>)
    ensures
        match r {
            Ok(a) => classify_single_spec(e@) == Ok::<ArgV, ErrorV>(a@),
            Err(err) => classify_single_spec(e@) == Err::<ArgV, ErrorV>(err@),
        },
{
    let stops = ScanStops { comma: false, open_delim: false, assign_eq: true, as_kw: false };
    proof {
        assert(stops == eq_stops());
    }
    let j = scan(e, 0, e.len(), stops);
    if j < e.len() && e[j] == '=' {
        let (la, lb) = trim_range(e, 0, j);
        if ident_range(e, la, lb) {
            let (ra, rb) = trim_range(e, j + 1, e.len());
            return Ok(
                Arg { typ: ArgType::Named(sub_string(e, la, lb)), val: sub_string(e, ra, rb) },
            );
        }
        return Err(Error::InvalidArgumentName(sub_string(e, la, lb)));
    }
    let (ta, tb) = trim_range(e, 0, e.len());
    proof {
        assert(e@.subrange(0, e@.len() as int) =~= e@);
    }
    match find_last_as(e, 0) {
        Some(k) => {
            let name = deep_name(e, 0, k);
            Ok(Arg { typ: ArgType::Unnamed(name), val: sub_string(e, ta, tb) })
        },
        None => {
            if ident_range(e, ta, tb) {
                Ok(
                    Arg {
                        typ: ArgType::Unnamed(Some(sub_string(e, ta, tb))),
                        val: sub_string(e, ta, tb),
                    },
                )
            } else {
                Ok(Arg { typ: ArgType::Unnamed(None), val: sub_string(e, ta, tb) })
            }
        },
    }
}

} // verus!

verus! {

// ---------------------------------------------------------------------------
// splat expansion and normalization
// ---------------------------------------------------------------------------

/// The source text of one accessor.
pub open spec fn accessor_text(a: AccessorV) -> Seq<char> {
    match a {
        AccessorV::Field(s) => s,
        AccessorV::Index(s) => s,
        AccessorV::Method(s) => s,
    }
}

/// `.a0.a1...` — the access path from `i` on, each accessor after a dot.
pub open spec fn join_accessors(acc: Seq<AccessorV>, i: int) -> Seq<char>
    decreases acc.len() - i,
{
    if !(0 <= i < acc.len()) {
        Seq::empty()
    } else {
        seq!['.'] + accessor_text(acc[i]) + join_accessors(acc, i + 1)
    }
}

/// The reconstructed value expression of one splat child: the parent, the
/// access path, and the optional cast, forwarded verbatim.
pub open spec fn child_value_spec(parent: Seq<char>, c: RawChildV) -> Seq<char> {
    let base = parent + join_accessors(c.accessors, 0);
    match c.cast {
        Some(t) => base + seq![' ', 'a', 's', ' '] + t,
        None => base,
    }
}

/// How one splat child is named: an explicit rename wins; else a path of
/// exactly one plain field accessor infers that field's name; else unnamed.
pub open spec fn child_type_spec(c: RawChildV) -> ArgTypeV {
    match c.rename {
        Some(n) => ArgTypeV::Named(n),
        None => {
            if c.accessors.len() == 1 && c.accessors[0] is Field {
                ArgTypeV::Unnamed(Some(accessor_text(c.accessors[0])))
            } else {
                ArgTypeV::Unnamed(None)
            }
        },
    }
}

/// The bound-argument candidate one splat child produces.
pub open spec fn child_arg_spec(parent: Seq<char>, c: RawChildV) -> ArgV {
    ArgV { typ: child_type_spec(c), val: child_value_spec(parent, c) }
}

/// What one raw argument contributes to the normalized list: a single
/// argument is classified; a splat expands into one candidate per child,
/// in source order.
pub open spec fn expand_raw_spec(r: RawArgV) -> Result<Seq<ArgV>, ErrorV> {
    match r {
        RawArgV::Single(e) => match classify_single_spec(e) {
            Ok(a) => Ok(seq![a]),
            Err(er) => Err(er),
        },
        RawArgV::Splat { parent, children } => Ok(
            children.map_values(|c: RawChildV| child_arg_spec(parent, c)),
        ),
    }
}

/// The normalized candidates contributed by `raws[i..]`; the first
/// classification error wins.
pub open spec fn normalize_from(raws: Seq<RawArgV>, i: int) -> Result<Seq<ArgV>, ErrorV>
    decreases raws.len() - i,
{
    if !(0 <= i < raws.len()) {
        Ok(Seq::empty())
    } else {
        match expand_raw_spec(raws[i]) {
            Ok(head) => match normalize_from(raws, i + 1) {
                Ok(tail) => Ok(head + tail),
                Err(e) => Err(e),
            },
            Err(e) => Err(e),
        }
    }
}

/// Flattens the parsed argument list into one ordered sequence of
/// candidates.
pub open spec fn normalize_spec(raws: Seq<RawArgV>) -> Result<Seq<ArgV>, ErrorV> {
    normalize_from(raws, 0)
}

fn child_value(parent: &String, c: &RawChild) -> (r: String)
    ensures
        r@ == child_value_spec(parent@, c@),
{
    let mut v = parent.clone();
    let mut i: usize = 0;
    while i < c.accessors.len()
        invariant
            i <= c.accessors@.len(),
            v@ + join_accessors(c@.accessors, i as int) == parent@ + join_accessors(
                c@.accessors,
                0,
            ),
        decreases c.accessors@.len() - i,
    {
        let ghost prev = v@;
        crate::text::push_char(&mut v, '.');
        match &c.accessors[i] {
            Accessor::Field(s) => v.append(s.as_str()),
            Accessor::Index(s) => v.append(s.as_str()),
            Accessor::Method(s) => v.append(s.as_str()),
        }
        proof {
            assert(v@ =~= prev + seq!['.'] + accessor_text(c@.accessors[i as int]));
            assert(v@ + join_accessors(c@.accessors, i + 1) =~= prev + join_accessors(
                c@.accessors,
                i as int,
            ));
        }
        i = i + 1;
    }
    proof {
        assert(v@ =~= parent@ + join_accessors(c@.accessors, 0));
    }
    match &c.cast {
        Some(t) => {
            let ghost base = v@;
            v.append(" as ");
            v.append(t.as_str());
            proof {
                reveal_strlit(" as ");
                assert(v@ =~= base + seq![' ', 'a', 's', ' '] + t@);
            }
            v
        },
        None => v,
    }
}

/// The bound-argument candidate of one splat child.
fn child_arg(parent: &String, c: &RawChild) -> (r: Arg)
    ensures
        r@ == child_arg_spec(parent@, c@),
{
    let val = child_value(parent, c);
    let typ = match &c.rename {
        Some(n) => ArgType::Named(n.clone()),
        None => {
            if c.accessors.len() == 1 {
                match &c.accessors[0] {
                    Accessor::Field(f) => ArgType::Unnamed(Some(f.clone())),
                    Accessor::Index(_) => ArgType::Unnamed(None),
                    Accessor::Method(_) => ArgType::Unnamed(None),
                }
            } else {
                ArgType::Unnamed(None)
            }
        },
    };
    Arg { typ, val }
}

/// Flattens the parsed argument list: each single argument is classified,
/// each splat expands into one candidate per child, in source order.
pub fn normalize(raws: &Vec<RawArg>) -> (r: Result<Vec<Arg>, Error>)
    ensures
        match r {
            Ok(args) => normalize_spec(raws_view(raws@)) == Ok::<Seq<ArgV>, ErrorV>(
                args_view(args@),
            ),
            Err(e) => normalize_spec(raws_view(raws@)) == Err::<Seq<ArgV>, ErrorV>(e@),
        },
{
    let ghost rv = raws_view(raws@);
    let mut out: Vec<Arg> = Vec::new();
    let mut i: usize = 0;
    while i < raws.len()
        invariant
            i <= raws@.len(),
            rv == raws_view(raws@),
            match normalize_from(rv, i as int) {
                Ok(tail) => normalize_spec(rv) == Ok::<Seq<ArgV>, ErrorV>(args_view(out@) + tail),
                Err(e) => normalize_spec(rv) == Err::<Seq<ArgV>, ErrorV>(e),
            },
        decreases raws@.len() - i,
    {
        let ghost out_entry = args_view(out@);
        match &raws[i] {
            RawArg::Single(e) => {
                let cs = chars_of(e.as_str());
                match classify_single(&cs) {
                    Ok(a) => {
                        out.push(a);
                        proof {
                            assert(args_view(out@) =~= out_entry + seq![a@]);
                            match normalize_from(rv, i + 1) {
                                Ok(tail) => {
                                    assert(args_view(out@) + tail =~= out_entry + (seq![a@]
                                        + tail));
                                },
                                Err(_) => {},
                            }
                        }
                    },
                    Err(err) => {
                        return Err(err);
                    },
                }
            },
            RawArg::Splat { parent, children } => {
                let ghost cv = children@.map_values(|c: RawChild| c@);
                let mut j: usize = 0;
                while j < children.len()
                    invariant
                        j <= children@.len(),
                        cv == children@.map_values(|c: RawChild| c@),
                        args_view(out@) == out_entry + cv.subrange(0, j as int).map_values(
                            |c: RawChildV| child_arg_spec(parent@, c),
                        ),
                    decreases children@.len() - j,
                {
                    let a = child_arg(parent, &children[j]);
                    let ghost out_before = out@;
                    out.push(a);
                    proof {
                        assert(cv[j as int] == children@[j as int]@);
                        assert(a@ == child_arg_spec(parent@, cv[j as int]));
                        assert(args_view(out@) =~= args_view(out_before).push(a@));
                        assert(args_view(out@) =~= out_entry + cv.subrange(0, j as int).map_values(
                            |c: RawChildV| child_arg_spec(parent@, c),
                        ).push(a@));
                        assert(cv.subrange(0, j + 1).map_values(
                            |c: RawChildV| child_arg_spec(parent@, c),
                        ) =~= cv.subrange(0, j as int).map_values(
                            |c: RawChildV| child_arg_spec(parent@, c),
                        ).push(child_arg_spec(parent@, cv[j as int])));
                        assert(args_view(out@) =~= out_entry + cv.subrange(0, j + 1).map_values(
                            |c: RawChildV| child_arg_spec(parent@, c),
                        ));
                    }
                    j = j + 1;
                }
                proof {
                    assert(cv.subrange(0, cv.len() as int) =~= cv);
                    let head = cv.map_values(|c: RawChildV| child_arg_spec(parent@, c));
                    assert(args_view(out@) =~= out_entry + head);
                    assert(expand_raw_spec(rv[i as int]) == Ok::<Seq<ArgV>, ErrorV>(head));
                    match normalize_from(rv, i + 1) {
                        Ok(tail) => {
                            assert(args_view(out@) + tail =~= out_entry + (head + tail));
                        },
                        Err(_) => {},
                    }
                }
            },
        }
        i = i + 1;
    }
    proof {
        assert(args_view(out@) + Seq::<ArgV>::empty() =~= args_view(out@));
    }
    Ok(out)
}

} // verus!

verus! {

// ---------------------------------------------------------------------------
// the argument-list parser
// ---------------------------------------------------------------------------

/// Scanner stops for splitting at top-level commas.
pub open spec fn comma_stops() -> ScanStops {
    ScanStops { comma: true, open_delim: false, assign_eq: false, as_kw: false }
}

/// Scanner stops for a splat's parent: the body opener or a stray comma.
pub open spec fn splat_stops() -> ScanStops {
    ScanStops { comma: true, open_delim: true, assign_eq: false, as_kw: false }
}

/// Scanner stops for finding a matching closer only.
pub open spec fn closer_stops() -> ScanStops {
    ScanStops { comma: false, open_delim: false, assign_eq: false, as_kw: false }
}

/// Position just after the `>` matching the `<` at `i` (counting only angle
/// brackets), or `end` if there is none.
pub open spec fn angle_scan_spec(s: Seq<char>, i: int, end: int, depth: int) -> int
    decreases end - i,
{
    if !(0 <= i < end) {
        end
    } else if s[i] == '<' {
        angle_scan_spec(s, i + 1, end, depth + 1)
    } else if s[i] == '>' {
        if depth <= 1 {
            i + 1
        } else {
            angle_scan_spec(s, i + 1, end, depth - 1)
        }
    } else {
        angle_scan_spec(s, i + 1, end, depth)
    }
}

fn angle_scan(s: &Vec<char>, start: usize, end: usize) -> (j: usize)
    requires
        start <= end <= s@.len(),
    ensures
        j == angle_scan_spec(s@, start as int, end as int, 0),
        start <= j <= end,
{
    let mut i: usize = start;
    let mut depth: usize = 0;
    while i < end
        invariant
            start <= i <= end <= s@.len(),
            depth <= i,
            angle_scan_spec(s@, start as int, end as int, 0) == angle_scan_spec(
                s@,
                i as int,
                end as int,
                depth as int,
            ),
        decreases end - i,
    {
        let c = s[i];
        if c == '<' {
            depth = depth + 1;
            i = i + 1;
        } else if c == '>' {
            if depth <= 1 {
                return i + 1;
            }
            depth = depth - 1;
            i = i + 1;
        } else {
            i = i + 1;
        }
    }
    end
}

/// One accessor starting at `i` (just after its dot, whitespace skipped):
/// a tuple index, a plain field, or a method call (with optional turbofish,
/// which then requires the parentheses). Yields the accessor and the
/// position just after it.
pub open spec fn parse_accessor_spec(s: Seq<char>, i: int, end: int) -> Result<
    (AccessorV, int),
    ErrorV,
> {
    if !(0 <= i < end) {
        Err(ErrorV::SyntaxError(i))
    } else if is_digit_char(s[i]) {
        let e2 = ident_end_spec(s, i, end);
        Ok((AccessorV::Index(s.subrange(i, e2)), e2))
    } else if is_ident_start_char(s[i]) {
        let ie = ident_end_spec(s, i, end);
        let w = skip_ws_spec(s, ie, end);
        if w + 1 < end && s[w] == ':' && s[w + 1] == ':' {
            let w2 = skip_ws_spec(s, w + 2, end);
            if w2 < end && s[w2] == '<' {
                let g = angle_scan_spec(s, w2, end, 0);
                let w3 = skip_ws_spec(s, g, end);
                if w3 < end && s[w3] == '(' {
                    let c = scan_spec(s, w3 + 1, end, 0, 0, closer_stops());
                    if i <= c < end && s[c] == ')' {
                        Ok((AccessorV::Method(s.subrange(i, c + 1)), c + 1))
                    } else {
                        Err(ErrorV::SyntaxError(c))
                    }
                } else {
                    Err(ErrorV::SyntaxError(w3))
                }
            } else {
                Err(ErrorV::SyntaxError(w2))
            }
        } else if w < end && s[w] == '(' {
            let c = scan_spec(s, w + 1, end, 0, 0, closer_stops());
            if i <= c < end && s[c] == ')' {
                Ok((AccessorV::Method(s.subrange(i, c + 1)), c + 1))
            } else {
                Err(ErrorV::SyntaxError(c))
            }
        } else {
            Ok((AccessorV::Field(s.subrange(i, ie)), ie))
        }
    } else {
        Err(ErrorV::SyntaxError(i))
    }
}

fn parse_accessor(s: &Vec<char>, i: usize, end: usize) -> (r: Result<(Accessor, usize), Error>)
    requires
        i <= end <= s@.len(),
    ensures
        match r {
            Ok(p) => parse_accessor_spec(s@, i as int, end as int) == Ok::<(AccessorV, int), ErrorV>(
                (p.0@, p.1 as int),
            ) && i < p.1 <= end,
            Err(e) => parse_accessor_spec(s@, i as int, end as int) == Err::<
                (AccessorV, int),
                ErrorV,
            >(e@),
        },
{
    if i >= end {
        return Err(Error::SyntaxError(i));
    }
    if digit_char_local(s[i]) {
        let e2 = ident_end(s, i, end);
        proof {
            crate::text::lemma_ident_end_bounds(s@, i + 1, end as int);
        }
        return Ok((Accessor::Index(sub_string(s, i, e2)), e2));
    }
    if ident_start_char_local(s[i]) {
        let ie = ident_end(s, i, end);
        proof {
            crate::text::lemma_ident_end_bounds(s@, i + 1, end as int);
        }
        let w = skip_ws(s, ie, end);
        if end - w > 1 && s[w] == ':' && s[w + 1] == ':' {
            let w2 = skip_ws(s, w + 2, end);
            if w2 < end && s[w2] == '<' {
                let g = angle_scan(s, w2, end);
                let w3 = skip_ws(s, g, end);
                if w3 < end && s[w3] == '(' {
                    let stops = ScanStops {
                        comma: false,
                        open_delim: false,
                        assign_eq: false,
                        as_kw: false,
                    };
                    proof {
                        assert(stops == closer_stops());
                    }
                    let c = scan(s, w3 + 1, end, stops);
                    if c < end && s[c] == ')' {
                        return Ok((Accessor::Method(sub_string(s, i, c + 1)), c + 1));
                    }
                    return Err(Error::SyntaxError(c));
                }
                return Err(Error::SyntaxError(w3));
            }
            return Err(Error::SyntaxError(w2));
        }
        if w < end && s[w] == '(' {
            let stops = ScanStops { comma: false, open_delim: false, assign_eq: false, as_kw: false };
            proof {
                assert(stops == closer_stops());
            }
            let c = scan(s, w + 1, end, stops);
            if c < end && s[c] == ')' {
                return Ok((Accessor::Method(sub_string(s, i, c + 1)), c + 1));
            }
            return Err(Error::SyntaxError(c));
        }
        return Ok((Accessor::Field(sub_string(s, i, ie)), ie));
    }
    Err(Error::SyntaxError(i))
}

fn digit_char_local(c: char) -> (r: bool)
    ensures
        r == is_digit_char(c),
{
    '0' <= c && c <= '9'
}

fn ident_start_char_local(c: char) -> (r: bool)
    ensures
        r == is_ident_start_char(c),
{
    ('a' <= c && c <= 'z') || ('A' <= c && c <= 'Z') || c == '_'
}

/// The nonempty dot-separated access path whose first dot stands at `i`.
/// Yields the accessors and the position just after the last one.
pub open spec fn parse_accessors_spec(s: Seq<char>, i: int, end: int) -> Result<
    (Seq<AccessorV>, int),
    ErrorV,
>
    decreases end - i,
{
    if !(0 <= i < end) {
        Err(ErrorV::SyntaxError(i))
    } else {
        let a = skip_ws_spec(s, i + 1, end);
        if a < i + 1 || a > end {
            // skipping spaces never moves backwards; the dead case keeps the
            // recursion measure visibly decreasing
            Err(ErrorV::SyntaxError(a))
        } else {
            match parse_accessor_spec(s, a, end) {
                Ok((acc, j)) => {
                    if j < a || j > end {
                        Err(ErrorV::SyntaxError(j))
                    } else {
                        let w = skip_ws_spec(s, j, end);
                        if w < j || w > end {
                            Err(ErrorV::SyntaxError(w))
                        } else if w < end && s[w] == '.' {
                            match parse_accessors_spec(s, w, end) {
                                Ok((rest, k)) => Ok((seq![acc] + rest, k)),
                                Err(e) => Err(e),
                            }
                        } else {
                            Ok((seq![acc], j))
                        }
                    }
                },
                Err(e) => Err(e),
            }
        }
    }
}

/// The views of an accessor vector, in order.
pub open spec fn accs_view(s: Seq<Accessor>) -> Seq<AccessorV> {
    s.map_values(|a: Accessor| a@)
}

fn parse_accessors(s: &Vec<char>, i: usize, end: usize) -> (r: Result<(Vec<Accessor>, usize), Error>)
    requires
        i < end <= s@.len(),
    ensures
        match r {
            Ok(p) => parse_accessors_spec(s@, i as int, end as int) == Ok::<
                (Seq<AccessorV>, int),
                ErrorV,
            >((accs_view(p.0@), p.1 as int)) && i < p.1 <= end,
            Err(e) => parse_accessors_spec(s@, i as int, end as int) == Err::<
                (Seq<AccessorV>, int),
                ErrorV,
            >(e@),
        },
{
    let mut out: Vec<Accessor> = Vec::new();
    let mut cur: usize = i;
    proof {
        match parse_accessors_spec(s@, i as int, end as int) {
            Ok(p) => {
                assert(accs_view(out@) + p.0 =~= p.0);
            },
            Err(_) => {},
        }
    }
    loop
        invariant
            i <= cur < end <= s@.len(),
            match parse_accessors_spec(s@, cur as int, end as int) {
                Ok(p) => parse_accessors_spec(s@, i as int, end as int) == Ok::<
                    (Seq<AccessorV>, int),
                    ErrorV,
                >((accs_view(out@) + p.0, p.1)),
                Err(e) => parse_accessors_spec(s@, i as int, end as int) == Err::<
                    (Seq<AccessorV>, int),
                    ErrorV,
                >(e),
            },
        decreases end - cur,
    {
        let a = skip_ws(s, cur + 1, end);
        match parse_accessor(s, a, end) {
            Ok((acc, j)) => {
                let ghost accv = acc@;
                let ghost out_before = out@;
                out.push(acc);
                proof {
                    assert(accs_view(out@) =~= accs_view(out_before).push(accv));
                }
                let w = skip_ws(s, j, end);
                if w < end && s[w] == '.' {
                    proof {
                        match parse_accessors_spec(s@, w as int, end as int) {
                            Ok(p) => {
                                assert(accs_view(out@) + p.0 =~= accs_view(out_before) + (seq![
                                    accv,
                                ] + p.0));
                            },
                            Err(_) => {},
                        }
                    }
                    cur = w;
                } else {
                    proof {
                        assert(accs_view(out@) =~= accs_view(out_before) + seq![accv]);
                    }
                    return Ok((out, j));
                }
            },
            Err(e) => {
                return Err(e);
            },
        }
    }
}

} // verus!

verus! {

/// View of an optional string.
pub open spec fn opt_str_view(o: Option<String>) -> Option<Seq<char>> {
    match o {
        Some(n) => Some(n@),
        None => None,
    }
}

/// The views of a child vector, in order.
pub open spec fn childs_view(s: Seq<RawChild>) -> Seq<RawChildV> {
    s.map_values(|c: RawChild| c@)
}

/// The access path and optional cast of a child whose first dot stands at
/// `d`; yields the child (under the given rename) and the position after it.
pub open spec fn parse_child_tail_spec(
    s: Seq<char>,
    d: int,
    end: int,
    rename: Option<Seq<char>>,
) -> Result<(RawChildV, int), ErrorV> {
    if !(0 <= d < end) || s[d] != '.' {
        Err(ErrorV::SyntaxError(d))
    } else {
        match parse_accessors_spec(s, d, end) {
            Ok((accs, j)) => {
                if j < d || j > end {
                    Err(ErrorV::SyntaxError(j))
                } else {
                    let w = skip_ws_spec(s, j, end);
                    if w < j || w > end {
                        Err(ErrorV::SyntaxError(w))
                    } else if w < end && is_as_kw_at(s, w, end) {
                        let ce = scan_spec(s, w + 2, end, 0, 0, comma_stops());
                        if ce < w + 2 || ce > end {
                            Err(ErrorV::SyntaxError(ce))
                        } else {
                            let t = trimmed(s.subrange(w + 2, ce));
                            if t.len() == 0 {
                                Err(ErrorV::SyntaxError(w))
                            } else {
                                Ok((RawChildV { rename, accessors: accs, cast: Some(t) }, ce))
                            }
                        }
                    } else {
                        Ok((RawChildV { rename, accessors: accs, cast: None }, w))
                    }
                }
            },
            Err(e) => Err(e),
        }
    }
}

/// One splat child starting at `i` (whitespace already skipped): an optional
/// `ident =` rename — an identifier there commits to one — then the access
/// path and optional cast.
pub open spec fn parse_child_spec(s: Seq<char>, i: int, end: int) -> Result<
    (RawChildV, int),
    ErrorV,
> {
    if !(0 <= i < end) {
        Err(ErrorV::SyntaxError(i))
    } else if is_ident_start_char(s[i]) {
        let ie = ident_end_spec(s, i, end);
        let w = skip_ws_spec(s, ie, end);
        if w < end && s[w] == '=' && !(w + 1 < end && (s[w + 1] == '=' || s[w + 1] == '>')) {
            let d = skip_ws_spec(s, w + 1, end);
            parse_child_tail_spec(s, d, end, Some(s.subrange(i, ie)))
        } else {
            Err(ErrorV::SyntaxError(w))
        }
    } else {
        parse_child_tail_spec(s, i, end, None)
    }
}

/// The children of a splat body `s[i..end]`: comma-separated, a trailing
/// comma allowed.
pub open spec fn parse_children_spec(s: Seq<char>, i: int, end: int) -> Result<
    Seq<RawChildV>,
    ErrorV,
>
    decreases end - i,
{
    if !(0 <= i <= end) {
        Err(ErrorV::SyntaxError(i))
    } else {
        let a = skip_ws_spec(s, i, end);
        if a < i || a > end {
            // skipping spaces never moves backwards; the dead case keeps the
            // recursion measure visibly decreasing
            Err(ErrorV::SyntaxError(a))
        } else if a >= end {
            Ok(Seq::empty())
        } else {
            match parse_child_spec(s, a, end) {
                Ok((child, j)) => {
                    if j <= a || j > end {
                        Err(ErrorV::SyntaxError(j))
                    } else {
                        let w = skip_ws_spec(s, j, end);
                        if w < j || w > end {
                            Err(ErrorV::SyntaxError(w))
                        } else if w >= end {
                            Ok(seq![child])
                        } else if s[w] == ',' {
                            match parse_children_spec(s, w + 1, end) {
                                Ok(rest) => Ok(seq![child] + rest),
                                Err(e) => Err(e),
                            }
                        } else {
                            Err(ErrorV::SyntaxError(w))
                        }
                    }
                },
                Err(e) => Err(e),
            }
        }
    }
}

fn as_kw_at(s: &Vec<char>, w: usize, end: usize) -> (r: bool)
    requires
        w < end <= s@.len(),
    ensures
        r == is_as_kw_at(s@, w as int, end as int),
{
    end - w > 1 && s[w] == 'a' && s[w + 1] == 's' && (w == 0 || !ident_char(s[w - 1])) && (end - w
        <= 2 || !ident_char(s[w + 2]))
}

fn parse_child_tail(s: &Vec<char>, d: usize, end: usize, rename: Option<String>) -> (r: Result<
    (RawChild, usize),
    Error,
>)
    requires
        d <= end <= s@.len(),
    ensures
        match r {
            Ok(p) => parse_child_tail_spec(s@, d as int, end as int, opt_str_view(rename))
                == Ok::<(RawChildV, int), ErrorV>((p.0@, p.1 as int)) && d < p.1 <= end,
            Err(e) => parse_child_tail_spec(s@, d as int, end as int, opt_str_view(rename))
                == Err::<(RawChildV, int), ErrorV>(e@),
        },
{
    if d >= end {
        return Err(Error::SyntaxError(d));
    }
    if s[d] != '.' {
        return Err(Error::SyntaxError(d));
    }
    match parse_accessors(s, d, end) {
        Ok((accs, j)) => {
            let w = skip_ws(s, j, end);
            if w < end && as_kw_at(s, w, end) {
                let stops = ScanStops {
                    comma: true,
                    open_delim: false,
                    assign_eq: false,
                    as_kw: false,
                };
                proof {
                    assert(stops == comma_stops());
                }
                let ce = scan(s, w + 2, end, stops);
                let (ta, tb) = trim_range(s, w + 2, ce);
                if tb == ta {
                    return Err(Error::SyntaxError(w));
                }
                let cast = sub_string(s, ta, tb);
                Ok((RawChild { rename, accessors: accs, cast: Some(cast) }, ce))
            } else {
                Ok((RawChild { rename, accessors: accs, cast: None }, w))
            }
        },
        Err(e) => Err(e),
    }
}

fn parse_child(s: &Vec<char>, i: usize, end: usize) -> (r: Result<(RawChild, usize), Error>)
    requires
        i < end <= s@.len(),
    ensures
        match r {
            Ok(p) => parse_child_spec(s@, i as int, end as int) == Ok::<(RawChildV, int), ErrorV>(
                (p.0@, p.1 as int),
            ) && i < p.1 <= end,
            Err(e) => parse_child_spec(s@, i as int, end as int) == Err::<
                (RawChildV, int),
                ErrorV,
            >(e@),
        },
{
    if ident_start_char_local(s[i]) {
        let ie = ident_end(s, i, end);
        let w = skip_ws(s, ie, end);
        if w < end && s[w] == '=' && !(end - w > 1 && (s[w + 1] == '=' || s[w + 1] == '>')) {
            let name = sub_string(s, i, ie);
            let d = skip_ws(s, w + 1, end);
            parse_child_tail(s, d, end, Some(name))
        } else {
            Err(Error::SyntaxError(w))
        }
    } else {
        parse_child_tail(s, i, end, None)
    }
}

fn parse_children(s: &Vec<char>, start: usize, end: usize) -> (r: Result<Vec<RawChild>, Error>)
    requires
        start <= end <= s@.len(),
    ensures
        match r {
            Ok(cs) => parse_children_spec(s@, start as int, end as int) == Ok::<
                Seq<RawChildV>,
                ErrorV,
            >(childs_view(cs@)),
            Err(e) => parse_children_spec(s@, start as int, end as int) == Err::<
                Seq<RawChildV>,
                ErrorV,
            >(e@),
        },
{
    let mut out: Vec<RawChild> = Vec::new();
    let mut i: usize = start;
    proof {
        match parse_children_spec(s@, start as int, end as int) {
            Ok(rest) => {
                assert(childs_view(out@) + rest =~= rest);
            },
            Err(_) => {},
        }
    }
    loop
        invariant
            start <= i <= end <= s@.len(),
            match parse_children_spec(s@, i as int, end as int) {
                Ok(rest) => parse_children_spec(s@, start as int, end as int) == Ok::<
                    Seq<RawChildV>,
                    ErrorV,
                >(childs_view(out@) + rest),
                Err(e) => parse_children_spec(s@, start as int, end as int) == Err::<
                    Seq<RawChildV>,
                    ErrorV,
                >(e),
            },
        decreases end - i,
    {
        let a = skip_ws(s, i, end);
        if a >= end {
            proof {
                assert(childs_view(out@) + Seq::<RawChildV>::empty() =~= childs_view(out@));
            }
            return Ok(out);
        }
        match parse_child(s, a, end) {
            Ok((child, j)) => {
                let ghost childv = child@;
                let ghost out_before = out@;
                out.push(child);
                proof {
                    assert(childs_view(out@) =~= childs_view(out_before).push(childv));
                }
                let w = skip_ws(s, j, end);
                if w >= end {
                    proof {
                        assert(childs_view(out@) =~= childs_view(out_before) + seq![childv]);
                    }
                    return Ok(out);
                }
                if s[w] == ',' {
                    proof {
                        match parse_children_spec(s@, w + 1, end as int) {
                            Ok(rest) => {
                                assert(childs_view(out@) + rest =~= childs_view(out_before) + (seq![
                                    childv,
                                ] + rest));
                            },
                            Err(_) => {},
                        }
                    }
                    i = w + 1;
                } else {
                    return Err(Error::SyntaxError(w));
                }
            },
            Err(e) => {
                return Err(e);
            },
        }
    }
}

/// The call-site argument list in `s[i..end]`: single expressions and
/// splats, comma-separated, a trailing comma allowed.
pub open spec fn parse_args_spec(s: Seq<char>, i: int, end: int) -> Result<Seq<RawArgV>, ErrorV>
    decreases end - i,
{
    if !(0 <= i <= end) {
        Err(ErrorV::SyntaxError(i))
    } else {
        let a = skip_ws_spec(s, i, end);
        if a < i || a > end {
            // skipping spaces never moves backwards; the dead case keeps the
            // recursion measure visibly decreasing
            Err(ErrorV::SyntaxError(a))
        } else if a >= end {
            Ok(Seq::empty())
        } else if a + 1 < end && s[a] == '.' && s[a + 1] == '.' {
            let p = scan_spec(s, a + 2, end, 0, 0, splat_stops());
            if p < a + 2 || p > end {
                Err(ErrorV::SyntaxError(p))
            } else if p >= end || !(s[p] == '{' || s[p] == '[') {
                Err(ErrorV::SyntaxError(p))
            } else {
                let parent = trimmed(s.subrange(a + 2, p));
                if parent.len() == 0 {
                    Err(ErrorV::SyntaxError(a))
                } else {
                    let close = scan_spec(s, p + 1, end, 0, 0, closer_stops());
                    if close < p + 1 || close >= end {
                        Err(ErrorV::SyntaxError(close))
                    } else if (s[p] == '{' && s[close] != '}') || (s[p] == '[' && s[close]
                        != ']') {
                        Err(ErrorV::SyntaxError(close))
                    } else {
                        match parse_children_spec(s, p + 1, close) {
                            Ok(children) => {
                                let q = skip_ws_spec(s, close + 1, end);
                                if q < close + 1 || q > end {
                                    Err(ErrorV::SyntaxError(q))
                                } else if q >= end {
                                    Ok(seq![RawArgV::Splat { parent, children }])
                                } else if s[q] == ',' {
                                    match parse_args_spec(s, q + 1, end) {
                                        Ok(rest) => Ok(
                                            seq![RawArgV::Splat { parent, children }] + rest,
                                        ),
                                        Err(e) => Err(e),
                                    }
                                } else {
                                    Err(ErrorV::SyntaxError(q))
                                }
                            },
                            Err(e) => Err(e),
                        }
                    }
                }
            }
        } else {
            let stops = ScanStops { comma: true, open_delim: false, assign_eq: false, as_kw: false };
            let j = scan_spec(s, a, end, 0, 0, stops);
            if j <= a || j > end {
                Err(ErrorV::SyntaxError(j))
            } else if j < end && s[j] != ',' {
                Err(ErrorV::SyntaxError(j))
            } else {
                let piece = s.subrange(a, j);
                if j >= end {
                    Ok(seq![RawArgV::Single(piece)])
                } else {
                    match parse_args_spec(s, j + 1, end) {
                        Ok(rest) => Ok(seq![RawArgV::Single(piece)] + rest),
                        Err(e) => Err(e),
                    }
                }
            }
        }
    }
}

/// Parses the call-site argument list in `s[start..end]`.
pub fn parse_args(s: &Vec<char>, start: usize, end: usize) -> (r: Result<Vec<RawArg>, Error>)
    requires
        start <= end <= s@.len(),
    ensures
        match r {
            Ok(raws) => parse_args_spec(s@, start as int, end as int) == Ok::<
                Seq<RawArgV>,
                ErrorV,
            >(raws_view(raws@)),
            Err(e) => parse_args_spec(s@, start as int, end as int) == Err::<
                Seq<RawArgV>,
                ErrorV,
            >(e@),
        },
{
    let mut out: Vec<RawArg> = Vec::new();
    let mut i: usize = start;
    proof {
        match parse_args_spec(s@, start as int, end as int) {
            Ok(rest) => {
                assert(raws_view(out@) + rest =~= rest);
            },
            Err(_) => {},
        }
    }
    loop
        invariant
            start <= i <= end <= s@.len(),
            match parse_args_spec(s@, i as int, end as int) {
                Ok(rest) => parse_args_spec(s@, start as int, end as int) == Ok::<
                    Seq<RawArgV>,
                    ErrorV,
                >(raws_view(out@) + rest),
                Err(e) => parse_args_spec(s@, start as int, end as int) == Err::<
                    Seq<RawArgV>,
                    ErrorV,
                >(e),
            },
        decreases end - i,
    {
        let a = skip_ws(s, i, end);
        if a >= end {
            proof {
                assert(raws_view(out@) + Seq::<RawArgV>::empty() =~= raws_view(out@));
            }
            return Ok(out);
        }
        if end - a > 1 && s[a] == '.' && s[a + 1] == '.' {
            let stops = ScanStops { comma: true, open_delim: true, assign_eq: false, as_kw: false };
            proof {
                assert(stops == splat_stops());
            }
            let p = scan(s, a + 2, end, stops);
            if p >= end {
                return Err(Error::SyntaxError(p));
            }
            let open = s[p];
            if !(open == '{' || open == '[') {
                return Err(Error::SyntaxError(p));
            }
            let (pa, pb) = trim_range(s, a + 2, p);
            if pb == pa {
                return Err(Error::SyntaxError(a));
            }
            let parent = sub_string(s, pa, pb);
            let cstops = ScanStops {
                comma: false,
                open_delim: false,
                assign_eq: false,
                as_kw: false,
            };
            proof {
                assert(cstops == closer_stops());
            }
            let close = scan(s, p + 1, end, cstops);
            if close >= end {
                return Err(Error::SyntaxError(close));
            }
            let closec = s[close];
            if (open == '{' && closec != '}') || (open == '[' && closec != ']') {
                return Err(Error::SyntaxError(close));
            }
            match parse_children(s, p + 1, close) {
                Ok(children) => {
                    let ra = RawArg::Splat { parent, children };
                    let ghost rav = ra@;
                    let q = skip_ws(s, close + 1, end);
                    let ghost out_before = out@;
                    out.push(ra);
                    proof {
                        assert(raws_view(out@) =~= raws_view(out_before).push(rav));
                    }
                    if q >= end {
                        proof {
                            assert(raws_view(out@) =~= raws_view(out_before) + seq![rav]);
                        }
                        return Ok(out);
                    }
                    if s[q] == ',' {
                        proof {
                            match parse_args_spec(s@, q + 1, end as int) {
                                Ok(rest) => {
                                    assert(raws_view(out@) + rest =~= raws_view(out_before) + (seq![
                                        rav,
                                    ] + rest));
                                },
                                Err(_) => {},
                            }
                        }
                        i = q + 1;
                    } else {
                        return Err(Error::SyntaxError(q));
                    }
                },
                Err(e) => {
                    return Err(e);
                },
            }
        } else {
            let stops = ScanStops { comma: true, open_delim: false, assign_eq: false, as_kw: false };
            let j = scan(s, a, end, stops);
            if j == a {
                return Err(Error::SyntaxError(a));
            }
            if j < end && s[j] != ',' {
                return Err(Error::SyntaxError(j));
            }
            let ra = RawArg::Single(sub_string(s, a, j));
            let ghost rav = ra@;
            let ghost out_before = out@;
            out.push(ra);
            proof {
                assert(raws_view(out@) =~= raws_view(out_before).push(rav));
            }
            if j >= end {
                proof {
                    assert(raws_view(out@) =~= raws_view(out_before) + seq![rav]);
                }
                return Ok(out);
            }
            proof {
                match parse_args_spec(s@, j + 1, end as int) {
                    Ok(rest) => {
                        assert(raws_view(out@) + rest =~= raws_view(out_before) + (seq![rav]
                            + rest));
                    },
                    Err(_) => {},
                }
            }
            i = j + 1;
        }
    }
}

} // verus!

verus! {

// ---------------------------------------------------------------------------
// the query call
// ---------------------------------------------------------------------------

/// Ghost mirror of [`QueryInput`].
pub struct QueryInputV {
    pub as_type: Option<Seq<char>>,
    pub sql: Seq<char>,
    pub args: Seq<ArgV>,
}

/// One parsed invocation: the optional target type, the SQL template (or,
/// for a file variant, the file path it was written with), and the
/// normalized arguments.
pub struct QueryInput {
    pub as_type: Option<String>,
    pub sql: String,
    pub args: Vec<Arg>,
}

impl View for QueryInput {
    type V = QueryInputV;

    open spec fn view(&self) -> QueryInputV {
        QueryInputV {
            as_type: match &self.as_type {
                Some(t) => Some(t@),
                None => None,
            },
            sql: self.sql@,
            args: args_view(self.args@),
        }
    }
}

/// Which call variant is being expanded: whether the template is read from
/// a file, and whether a target type leads the argument list.
pub struct QueryVariant {
    pub file: bool,
    pub as_type: bool,
}

/// The optional leading target type (for the typed-record variants),
/// followed by its comma; yields the type text and the position of the
/// template literal.
pub open spec fn type_prefix_spec(with_type: bool, s: Seq<char>) -> Result<
    (Option<Seq<char>>, int),
    ErrorV,
> {
    let end = s.len() as int;
    let i0 = skip_ws_spec(s, 0, end);
    if !with_type {
        Ok((None, i0))
    } else {
        let j = scan_spec(s, i0, end, 0, 0, comma_stops());
        if j < i0 || j > end {
            Err(ErrorV::SyntaxError(j))
        } else if j >= end || s[j] != ',' {
            Err(ErrorV::SyntaxError(j))
        } else {
            let t = trimmed(s.subrange(i0, j));
            if t.len() == 0 {
                Err(ErrorV::SyntaxError(i0))
            } else {
                Ok((Some(t), skip_ws_spec(s, j + 1, end)))
            }
        }
    }
}

/// One whole invocation: `[Type ,] "template" [, argument ...]`, with the
/// arguments normalized into bound-argument candidates.
pub open spec fn parse_query_spec(with_type: bool, s: Seq<char>) -> Result<QueryInputV, ErrorV> {
    let end = s.len() as int;
    match type_prefix_spec(with_type, s) {
        Ok((as_type, i)) => {
            if i < 0 || i > end {
                Err(ErrorV::SyntaxError(i))
            } else {
                match crate::text::string_lit_spec(s, i, end) {
                    Some((sql, j)) => {
                        if j < i || j > end {
                            Err(ErrorV::SyntaxError(j))
                        } else {
                            let w = skip_ws_spec(s, j, end);
                            if w >= end {
                                Ok(QueryInputV { as_type, sql, args: Seq::empty() })
                            } else if s[w] == ',' {
                                match parse_args_spec(s, w + 1, end) {
                                    Ok(raws) => match normalize_spec(raws) {
                                        Ok(args) => Ok(QueryInputV { as_type, sql, args }),
                                        Err(e) => Err(e),
                                    },
                                    Err(e) => Err(e),
                                }
                            } else {
                                Err(ErrorV::SyntaxError(w))
                            }
                        }
                    },
                    None => Err(ErrorV::SyntaxError(i)),
                }
            }
        },
        Err(e) => Err(e),
    }
}

impl QueryVariant {
    /// Parses one invocation text: the optional leading type (when this
    /// variant takes one), the template string literal, and the argument
    /// list, normalized. For a file variant the literal's value is the
    /// template's path; reading the file is the caller's business.
    pub fn parse_query(&self, input: &str) -> (r: Result<QueryInput, Error>)
        ensures
            match r {
                Ok(q) => parse_query_spec(self.as_type, input@) == Ok::<QueryInputV, ErrorV>(q@),
                Err(e) => parse_query_spec(self.as_type, input@) == Err::<QueryInputV, ErrorV>(
                    e@,
                ),
            },
    {
        let s = chars_of(input);
        let end = s.len();
        let i0 = skip_ws(&s, 0, end);
        let mut as_type: Option<String> = None;
        let mut i: usize = i0;
        if self.as_type {
            let stops = ScanStops { comma: true, open_delim: false, assign_eq: false, as_kw: false };
            proof {
                assert(stops == comma_stops());
            }
            let j = scan(&s, i0, end, stops);
            if j >= end {
                return Err(Error::SyntaxError(j));
            }
            if s[j] != ',' {
                return Err(Error::SyntaxError(j));
            }
            let (ta, tb) = trim_range(&s, i0, j);
            if tb == ta {
                return Err(Error::SyntaxError(i0));
            }
            as_type = Some(sub_string(&s, ta, tb));
            i = skip_ws(&s, j + 1, end);
        }
        match crate::text::parse_string_lit(&s, i, end) {
            Some((sql, j)) => {
                let w = skip_ws(&s, j, end);
                if w >= end {
                    let args: Vec<Arg> = Vec::new();
                    proof {
                        assert(args_view(args@) =~= Seq::<ArgV>::empty());
                    }
                    return Ok(QueryInput { as_type, sql, args });
                }
                if s[w] == ',' {
                    match parse_args(&s, w + 1, end) {
                        Ok(raws) => match normalize(&raws) {
                            Ok(args) => Ok(QueryInput { as_type, sql, args }),
                            Err(e) => Err(e),
                        },
                        Err(e) => Err(e),
                    }
                } else {
                    Err(Error::SyntaxError(w))
                }
            },
            None => Err(Error::SyntaxError(i)),
        }
    }
}

} // verus!
