//! Character-level scanning for the argument-binding language.
//!
//! The argument list is examined as a sequence of characters. Value
//! expressions are opaque: the scanner only tracks enough structure to find
//! where an expression ends — bracket depth, string and character literals —
//! and where the binding operators (`,`, `=`, `as`, `..`, `.`) stand at the
//! top level of an expression.

use vstd::prelude::*;

verus! {

// ---------------------------------------------------------------------------
// character classes
// ---------------------------------------------------------------------------

/// ASCII whitespace accepted between tokens of the argument language.
pub open spec fn is_space_char(c: char) -> bool {
    c == ' ' || c == '\t' || c == '\n' || c == '\r'
}

pub open spec fn is_digit_char(c: char) -> bool {
    '0' <= c && c <= '9'
}

/// First character of an identifier (ASCII letters and underscore).
pub open spec fn is_ident_start_char(c: char) -> bool {
    ('a' <= c && c <= 'z') || ('A' <= c && c <= 'Z') || c == '_'
}

pub open spec fn is_ident_char(c: char) -> bool {
    is_ident_start_char(c) || is_digit_char(c)
}

/// A plain identifier: nonempty, a letter or underscore, then letters,
/// digits or underscores.
pub open spec fn is_ident(s: Seq<char>) -> bool {
    &&& s.len() > 0
    &&& is_ident_start_char(s[0])
    &&& forall|k: int| 1 <= k < s.len() ==> is_ident_char(#[trigger] s[k])
}

pub fn space_char(c: char) -> (r: bool)
    ensures
        r == is_space_char(c),
{
    c == ' ' || c == '\t' || c == '\n' || c == '\r'
}

pub fn digit_char(c: char) -> (r: bool)
    ensures
        r == is_digit_char(c),
{
    '0' <= c && c <= '9'
}

pub fn ident_start_char(c: char) -> (r: bool)
    ensures
        r == is_ident_start_char(c),
{
    ('a' <= c && c <= 'z') || ('A' <= c && c <= 'Z') || c == '_'
}

pub fn ident_char(c: char) -> (r: bool)
    ensures
        r == is_ident_char(c),
{
    ident_start_char(c) || digit_char(c)
}

// ---------------------------------------------------------------------------
// strings and character vectors
// ---------------------------------------------------------------------------

/// Appends one character to a `String`.
///
/// Relies on `String::push`: it appends exactly the given character.
#[verifier::external_body]
pub(crate) fn push_char(s: &mut String, c: char)
    ensures
        final(s)@ == old(s)@.push(c),
{
    s.push(c);
}

/// The characters of a string slice, in order.
pub fn chars_of(s: &str) -> (r: Vec<char>)
    ensures
        r@ == s@,
{
    let n = s.unicode_len();
    let mut v: Vec<char> = Vec::new();
    let mut i: usize = 0;
    while i < n
        invariant
            i <= n,
            n == s@.len(),
            v@ == s@.subrange(0, i as int),
        decreases n - i,
    {
        v.push(s.get_char(i));
        i = i + 1;
    }
    proof {
        assert(v@ =~= s@);
    }
    v
}

/// A `String` holding the characters `s[lo..hi]`.
pub fn sub_string(s: &Vec<char>, lo: usize, hi: usize) -> (r: String)
    requires
        lo <= hi <= s@.len(),
    ensures
        r@ == s@.subrange(lo as int, hi as int),
{
    let mut out = String::new();
    let mut i: usize = lo;
    while i < hi
        invariant
            lo <= i <= hi <= s@.len(),
            out@ == s@.subrange(lo as int, i as int),
        decreases hi - i,
    {
        push_char(&mut out, s[i]);
        proof {
            assert(out@ =~= s@.subrange(lo as int, i + 1));
        }
        i = i + 1;
    }
    proof {
        assert(out@ =~= s@.subrange(lo as int, hi as int));
    }
    out
}

// ---------------------------------------------------------------------------
// whitespace
// ---------------------------------------------------------------------------

/// First position at or after `i` (up to `end`) holding a non-space
/// character.
pub open spec fn skip_ws_spec(s: Seq<char>, i: int, end: int) -> int
    decreases end - i,
{
    if 0 <= i < end && is_space_char(s[i]) {
        skip_ws_spec(s, i + 1, end)
    } else {
        i
    }
}

pub fn skip_ws(s: &Vec<char>, i: usize, end: usize) -> (j: usize)
    requires
        i <= end <= s@.len(),
    ensures
        j == skip_ws_spec(s@, i as int, end as int),
        i <= j <= end,
{
    let mut k: usize = i;
    while k < end && space_char(s[k])
        invariant
            i <= k <= end <= s@.len(),
            skip_ws_spec(s@, i as int, end as int) == skip_ws_spec(s@, k as int, end as int),
        decreases end - k,
    {
        k = k + 1;
    }
    k
}

/// Last position `j` in `[lo, hi]` such that `s[j-1]` down to `s[lo]` are
/// trailing spaces of `s[lo..hi]` — i.e. `s[lo..j]` has no trailing space.
pub open spec fn rskip_ws_spec(s: Seq<char>, lo: int, j: int) -> int
    decreases j,
{
    if lo < j && 0 <= j - 1 < s.len() && is_space_char(s[j - 1]) {
        rskip_ws_spec(s, lo, j - 1)
    } else {
        j
    }
}

pub fn rskip_ws(s: &Vec<char>, lo: usize, j: usize) -> (r: usize)
    requires
        lo <= j <= s@.len(),
    ensures
        r == rskip_ws_spec(s@, lo as int, j as int),
        lo <= r <= j,
{
    let mut k: usize = j;
    while lo < k && space_char(s[k - 1])
        invariant
            lo <= k <= j <= s@.len(),
            rskip_ws_spec(s@, lo as int, j as int) == rskip_ws_spec(s@, lo as int, k as int),
        decreases k,
    {
        k = k - 1;
    }
    k
}

/// `s` with leading and trailing spaces removed.
pub open spec fn trimmed(s: Seq<char>) -> Seq<char> {
    let lo = skip_ws_spec(s, 0, s.len() as int);
    let hi = rskip_ws_spec(s, lo, s.len() as int);
    s.subrange(lo, hi)
}

/// The trimmed copy of `s[lo..hi]`.
pub fn trim_range(s: &Vec<char>, lo: usize, hi: usize) -> (r: (usize, usize))
    requires
        lo <= hi <= s@.len(),
    ensures
        lo <= r.0 <= r.1 <= hi,
        s@.subrange(r.0 as int, r.1 as int) == trimmed(s@.subrange(lo as int, hi as int)),
{
    let a = skip_ws(s, lo, hi);
    let b = rskip_ws(s, a, hi);
    proof {
        let piece = s@.subrange(lo as int, hi as int);
        lemma_skip_ws_shift(s@, lo as int, lo as int, hi as int);
        let pa = skip_ws_spec(piece, 0, piece.len() as int);
        assert(a - lo == pa);
        lemma_rskip_ws_shift(s@, lo as int, a as int, hi as int, hi as int);
        let pb = rskip_ws_spec(piece, pa, piece.len() as int);
        assert(b - lo == pb);
        assert(s@.subrange(a as int, b as int) =~= piece.subrange(pa, pb));
    }
    (a, b)
}

/// Skipping spaces in `s[lo..hi]` looks the same from the containing
/// sequence and from the extracted piece.
proof fn lemma_skip_ws_shift(s: Seq<char>, lo: int, i: int, hi: int)
    requires
        0 <= lo <= i <= hi <= s.len(),
    ensures
        skip_ws_spec(s, i, hi) - lo == skip_ws_spec(s.subrange(lo, hi), i - lo, hi - lo),
        i <= skip_ws_spec(s, i, hi) <= hi,
    decreases hi - i,
{
    if i < hi && is_space_char(s[i]) {
        lemma_skip_ws_shift(s, lo, i + 1, hi);
    }
}

proof fn lemma_rskip_ws_shift(s: Seq<char>, lo: int, a: int, j: int, hi: int)
    requires
        0 <= lo <= a <= j <= hi <= s.len(),
    ensures
        rskip_ws_spec(s, a, j) - lo == rskip_ws_spec(s.subrange(lo, hi), a - lo, j - lo),
        a <= rskip_ws_spec(s, a, j) <= j,
    decreases j,
{
    if a < j && is_space_char(s[j - 1]) {
        assert(s.subrange(lo, hi)[j - 1 - lo] == s[j - 1]);
        lemma_rskip_ws_shift(s, lo, a, j - 1, hi);
    }
}

// ---------------------------------------------------------------------------
// identifiers
// ---------------------------------------------------------------------------

/// Whether `s[lo..hi]` is a plain identifier.
pub fn ident_range(s: &Vec<char>, lo: usize, hi: usize) -> (r: bool)
    requires
        lo <= hi <= s@.len(),
    ensures
        r == is_ident(s@.subrange(lo as int, hi as int)),
{
    if lo == hi {
        return false;
    }
    if !ident_start_char(s[lo]) {
        return false;
    }
    let mut k: usize = lo + 1;
    while k < hi
        invariant
            lo + 1 <= k <= hi <= s@.len(),
            forall|m: int| lo + 1 <= m < k ==> is_ident_char(#[trigger] s@[m]),
        decreases hi - k,
    {
        if !ident_char(s[k]) {
            proof {
                let piece = s@.subrange(lo as int, hi as int);
                assert(piece[k - lo] == s@[k as int]);
            }
            return false;
        }
        k = k + 1;
    }
    proof {
        let piece = s@.subrange(lo as int, hi as int);
        assert(forall|m: int| 1 <= m < piece.len() ==> is_ident_char(#[trigger] piece[m])) by {
            assert(forall|m: int| 1 <= m < piece.len() ==> piece[m] == s@[m + lo]);
        }
    }
    true
}

/// End of the identifier-character run starting at `i`.
pub open spec fn ident_end_spec(s: Seq<char>, i: int, end: int) -> int
    decreases end - i,
{
    if 0 <= i < end && is_ident_char(s[i]) {
        ident_end_spec(s, i + 1, end)
    } else {
        i
    }
}

pub proof fn lemma_ident_end_bounds(s: Seq<char>, i: int, end: int)
    requires
        0 <= i <= end,
    ensures
        i <= ident_end_spec(s, i, end) <= end,
    decreases end - i,
{
    if 0 <= i < end && is_ident_char(s[i]) {
        lemma_ident_end_bounds(s, i + 1, end);
    }
}

pub fn ident_end(s: &Vec<char>, i: usize, end: usize) -> (j: usize)
    requires
        i <= end <= s@.len(),
    ensures
        j == ident_end_spec(s@, i as int, end as int),
        i <= j <= end,
{
    let mut k: usize = i;
    while k < end && ident_char(s[k])
        invariant
            i <= k <= end <= s@.len(),
            ident_end_spec(s@, i as int, end as int) == ident_end_spec(s@, k as int, end as int),
        decreases end - k,
    {
        k = k + 1;
    }
    k
}

} // verus!

verus! {

// ---------------------------------------------------------------------------
// the expression scanner
// ---------------------------------------------------------------------------

/// Which top-level characters end a scan, besides an unmatched closing
/// bracket (which always does).
#[derive(Clone, Copy)]
pub struct ScanStops {
    /// Stop at `,`.
    pub comma: bool,
    /// Stop at an opening `{` or `[` (the body of a splat).
    pub open_delim: bool,
    /// Stop at a bare `=` (an assignment, not part of `==`, `<=`, `=>`, ...).
    pub assign_eq: bool,
    /// Stop at the keyword `as`.
    pub as_kw: bool,
}

/// Characters that turn a following `=` into part of a longer operator
/// (`==`, `<=`, `+=`, `..=`, ...).
pub open spec fn is_eq_prefix_char(c: char) -> bool {
    c == '=' || c == '!' || c == '<' || c == '>' || c == '+' || c == '-' || c == '*' || c == '/'
        || c == '%' || c == '&' || c == '|' || c == '^' || c == '.'
}

/// A bare assignment `=` at `i`: not preceded by an operator character and
/// not followed by `=` or `>`.
pub open spec fn is_assign_eq_at(s: Seq<char>, i: int, end: int) -> bool {
    &&& s[i] == '='
    &&& !(i > 0 && is_eq_prefix_char(s[i - 1]))
    &&& !(i + 1 < end && (s[i + 1] == '=' || s[i + 1] == '>'))
}

/// The keyword `as` at `i`, delimited by non-identifier characters.
pub open spec fn is_as_kw_at(s: Seq<char>, i: int, end: int) -> bool {
    &&& i + 1 < end
    &&& s[i] == 'a'
    &&& s[i + 1] == 's'
    &&& (i == 0 || !is_ident_char(s[i - 1]))
    &&& (i + 2 >= end || !is_ident_char(s[i + 2]))
}

/// Where a character literal (or lone lifetime quote) starting at `i` ends:
/// `'x'`, `'\x'`, or just the quote itself.
pub open spec fn char_lit_end(s: Seq<char>, i: int, end: int) -> int {
    if i + 3 < end && s[i + 1] == '\\' && s[i + 3] == '\'' {
        i + 4
    } else if i + 2 < end && s[i + 1] != '\\' && s[i + 2] == '\'' {
        i + 3
    } else {
        i + 1
    }
}

/// Position of the first stopping character at bracket depth zero, skipping
/// string and character literals; `end` if there is none. `mode` is the
/// string-literal state: 0 outside, 1 inside `"..."`, 2 right after a
/// backslash inside.
pub open spec fn scan_spec(s: Seq<char>, i: int, end: int, depth: int, mode: int, st: ScanStops) -> int
    decreases end - i,
{
    if !(0 <= i < end) {
        end
    } else if mode == 2 {
        scan_spec(s, i + 1, end, depth, 1, st)
    } else if mode == 1 {
        if s[i] == '\\' {
            scan_spec(s, i + 1, end, depth, 2, st)
        } else if s[i] == '"' {
            scan_spec(s, i + 1, end, depth, 0, st)
        } else {
            scan_spec(s, i + 1, end, depth, 1, st)
        }
    } else {
        let c = s[i];
        if c == '"' {
            scan_spec(s, i + 1, end, depth, 1, st)
        } else if c == '\'' {
            scan_spec(s, char_lit_end(s, i, end), end, depth, 0, st)
        } else if c == '(' {
            scan_spec(s, i + 1, end, depth + 1, 0, st)
        } else if c == '[' || c == '{' {
            if depth == 0 && st.open_delim {
                i
            } else {
                scan_spec(s, i + 1, end, depth + 1, 0, st)
            }
        } else if c == ')' || c == ']' || c == '}' {
            if depth == 0 {
                i
            } else {
                scan_spec(s, i + 1, end, depth - 1, 0, st)
            }
        } else if depth == 0 && st.comma && c == ',' {
            i
        } else if depth == 0 && st.assign_eq && is_assign_eq_at(s, i, end) {
            i
        } else if depth == 0 && st.as_kw && is_as_kw_at(s, i, end) {
            i
        } else {
            scan_spec(s, i + 1, end, depth, 0, st)
        }
    }
}

pub proof fn lemma_scan_bounds(s: Seq<char>, i: int, end: int, depth: int, mode: int, st: ScanStops)
    requires
        0 <= i <= end,
    ensures
        i <= scan_spec(s, i, end, depth, mode, st) <= end,
    decreases end - i,
{
    if 0 <= i < end {
        if mode == 2 {
            lemma_scan_bounds(s, i + 1, end, depth, 1, st);
        } else if mode == 1 {
            if s[i] == '\\' {
                lemma_scan_bounds(s, i + 1, end, depth, 2, st);
            } else if s[i] == '"' {
                lemma_scan_bounds(s, i + 1, end, depth, 0, st);
            } else {
                lemma_scan_bounds(s, i + 1, end, depth, 1, st);
            }
        } else {
            let c = s[i];
            if c == '"' {
                lemma_scan_bounds(s, i + 1, end, depth, 1, st);
            } else if c == '\'' {
                lemma_scan_bounds(s, char_lit_end(s, i, end), end, depth, 0, st);
            } else if c == '(' {
                lemma_scan_bounds(s, i + 1, end, depth + 1, 0, st);
            } else if c == '[' || c == '{' {
                if !(depth == 0 && st.open_delim) {
                    lemma_scan_bounds(s, i + 1, end, depth + 1, 0, st);
                }
            } else if c == ')' || c == ']' || c == '}' {
                if depth != 0 {
                    lemma_scan_bounds(s, i + 1, end, depth - 1, 0, st);
                }
            } else if depth == 0 && st.comma && c == ',' {
            } else if depth == 0 && st.assign_eq && is_assign_eq_at(s, i, end) {
            } else if depth == 0 && st.as_kw && is_as_kw_at(s, i, end) {
            } else {
                lemma_scan_bounds(s, i + 1, end, depth, 0, st);
            }
        }
    }
}

pub fn eq_prefix_char(c: char) -> (r: bool)
    ensures
        r == is_eq_prefix_char(c),
{
    c == '=' || c == '!' || c == '<' || c == '>' || c == '+' || c == '-' || c == '*' || c == '/'
        || c == '%' || c == '&' || c == '|' || c == '^' || c == '.'
}

/// Scans `s[start..end]` from outside any literal at depth zero.
pub fn scan(s: &Vec<char>, start: usize, end: usize, st: ScanStops) -> (j: usize)
    requires
        start <= end <= s@.len(),
    ensures
        j == scan_spec(s@, start as int, end as int, 0, 0, st),
        start <= j <= end,
{
    let mut i: usize = start;
    let mut depth: usize = 0;
    let mut mode: u8 = 0;
    while i < end
        invariant
            start <= i <= end <= s@.len(),
            depth <= i,
            mode == 0 || mode == 1 || mode == 2,
            scan_spec(s@, start as int, end as int, 0, 0, st) == scan_spec(
                s@,
                i as int,
                end as int,
                depth as int,
                mode as int,
                st,
            ),
        decreases end - i,
    {
        let c = s[i];
        if mode == 2 {
            mode = 1;
            i = i + 1;
        } else if mode == 1 {
            if c == '\\' {
                mode = 2;
            } else if c == '"' {
                mode = 0;
            }
            i = i + 1;
        } else if c == '"' {
            mode = 1;
            i = i + 1;
        } else if c == '\'' {
            if end - i > 3 && s[i + 1] == '\\' && s[i + 3] == '\'' {
                i = i + 4;
            } else if end - i > 2 && s[i + 1] != '\\' && s[i + 2] == '\'' {
                i = i + 3;
            } else {
                i = i + 1;
            }
        } else if c == '(' {
            depth = depth + 1;
            i = i + 1;
        } else if c == '[' || c == '{' {
            if depth == 0 && st.open_delim {
                return i;
            }
            depth = depth + 1;
            i = i + 1;
        } else if c == ')' || c == ']' || c == '}' {
            if depth == 0 {
                return i;
            }
            depth = depth - 1;
            i = i + 1;
        } else if depth == 0 && st.comma && c == ',' {
            return i;
        } else if depth == 0 && st.assign_eq && c == '='
            && !(i > 0 && eq_prefix_char(s[i - 1]))
            && !(end - i > 1 && (s[i + 1] == '=' || s[i + 1] == '>')) {
            return i;
        } else if depth == 0 && st.as_kw && c == 'a' && end - i > 1 && s[i + 1] == 's'
            && (i == 0 || !ident_char(s[i - 1]))
            && (end - i <= 2 || !ident_char(s[i + 2])) {
            return i;
        } else {
            i = i + 1;
        }
    }
    i
}

} // verus!

verus! {

// ---------------------------------------------------------------------------
// string literals
// ---------------------------------------------------------------------------

/// The character denoted by `\c` in a plain string literal, if the escape is
/// supported.
pub open spec fn unescaped_char(c: char) -> Option<char> {
    if c == 'n' {
        Some('\n')
    } else if c == 't' {
        Some('\t')
    } else if c == 'r' {
        Some('\r')
    } else if c == '0' {
        Some('\0')
    } else if c == '\\' {
        Some('\\')
    } else if c == '"' {
        Some('"')
    } else if c == '\'' {
        Some('\'')
    } else {
        None
    }
}

pub fn unescape_char(c: char) -> (r: Option<char>)
    ensures
        r == unescaped_char(c),
{
    if c == 'n' {
        Some('\n')
    } else if c == 't' {
        Some('\t')
    } else if c == 'r' {
        Some('\r')
    } else if c == '0' {
        Some('\0')
    } else if c == '\\' {
        Some('\\')
    } else if c == '"' {
        Some('"')
    } else if c == '\'' {
        Some('\'')
    } else {
        None
    }
}

/// Value and end position of a plain string-literal body starting at `i`
/// (just after the opening quote), given the value accumulated so far;
/// `None` on an unterminated literal or an unsupported escape.
pub open spec fn str_body_spec(s: Seq<char>, i: int, end: int, acc: Seq<char>) -> Option<(Seq<char>, int)>
    decreases end - i,
{
    if !(0 <= i < end) {
        None
    } else if s[i] == '"' {
        Some((acc, i + 1))
    } else if s[i] == '\\' {
        if i + 1 < end {
            match unescaped_char(s[i + 1]) {
                Some(c) => str_body_spec(s, i + 2, end, acc.push(c)),
                None => None,
            }
        } else {
            None
        }
    } else {
        str_body_spec(s, i + 1, end, acc.push(s[i]))
    }
}

/// `n` hash marks starting at `i`.
pub open spec fn hashes_at(s: Seq<char>, i: int, n: int, end: int) -> bool {
    &&& i + n <= end
    &&& forall|k: int| i <= k < i + n ==> s[k] == '#'
}

/// Value and end position of a raw string-literal body (`n` hashes) starting
/// at `i`, just after the opening quote.
pub open spec fn raw_body_spec(s: Seq<char>, i: int, end: int, n: int, acc: Seq<char>) -> Option<(Seq<char>, int)>
    decreases end - i,
{
    if !(0 <= i < end) {
        None
    } else if s[i] == '"' && hashes_at(s, i + 1, n, end) {
        Some((acc, i + 1 + n))
    } else {
        raw_body_spec(s, i + 1, end, n, acc.push(s[i]))
    }
}

/// End of the run of `#` characters starting at `i`.
pub open spec fn hash_end_spec(s: Seq<char>, i: int, end: int) -> int
    decreases end - i,
{
    if 0 <= i < end && s[i] == '#' {
        hash_end_spec(s, i + 1, end)
    } else {
        i
    }
}

/// Value and end position of the string literal starting at `i`: either a
/// plain literal `"..."` with backslash escapes, or a raw literal
/// `r"..."` / `r#"..."#` (any number of hashes) taken verbatim.
pub open spec fn string_lit_spec(s: Seq<char>, i: int, end: int) -> Option<(Seq<char>, int)> {
    if !(0 <= i < end) {
        None
    } else if s[i] == '"' {
        str_body_spec(s, i + 1, end, Seq::empty())
    } else if s[i] == 'r' {
        let h = hash_end_spec(s, i + 1, end);
        if h < end && s[h] == '"' {
            raw_body_spec(s, h + 1, end, h - (i + 1), Seq::empty())
        } else {
            None
        }
    } else {
        None
    }
}

pub proof fn lemma_str_body_bounds(s: Seq<char>, i: int, end: int, acc: Seq<char>)
    requires
        0 <= i <= end,
    ensures
        str_body_spec(s, i, end, acc) matches Some(p) ==> i < p.1 <= end,
    decreases end - i,
{
    if 0 <= i < end && s[i] != '"' {
        if s[i] == '\\' {
            if i + 1 < end && unescaped_char(s[i + 1]) is Some {
                lemma_str_body_bounds(s, i + 2, end, acc.push(unescaped_char(s[i + 1]).unwrap()));
            }
        } else {
            lemma_str_body_bounds(s, i + 1, end, acc.push(s[i]));
        }
    }
}

pub proof fn lemma_raw_body_bounds(s: Seq<char>, i: int, end: int, n: int, acc: Seq<char>)
    requires
        0 <= i <= end,
        0 <= n,
    ensures
        raw_body_spec(s, i, end, n, acc) matches Some(p) ==> i < p.1 <= end,
    decreases end - i,
{
    if 0 <= i < end && !(s[i] == '"' && hashes_at(s, i + 1, n, end)) {
        lemma_raw_body_bounds(s, i + 1, end, n, acc.push(s[i]));
    }
}

/// Parses the string literal starting at `i`; returns its value and the
/// position just after it.
pub fn parse_string_lit(s: &Vec<char>, i: usize, end: usize) -> (r: Option<(String, usize)>)
    requires
        i <= end <= s@.len(),
    ensures
        match r {
            Some(p) => {
                &&& string_lit_spec(s@, i as int, end as int) == Some((p.0@, p.1 as int))
                &&& i < p.1 <= end
            },
            None => string_lit_spec(s@, i as int, end as int) is None,
        },
{
    if i >= end {
        return None;
    }
    if s[i] == '"' {
        let body = parse_str_body(s, i + 1, end);
        proof {
            lemma_str_body_bounds(s@, i + 1, end as int, Seq::empty());
        }
        return body;
    }
    if s[i] == 'r' {
        let h = hash_end(s, i + 1, end);
        if h < end && s[h] == '"' {
            let n = h - (i + 1);
            let body = parse_raw_body(s, h + 1, end, n);
            proof {
                lemma_raw_body_bounds(s@, h + 1, end as int, n as int, Seq::empty());
            }
            return body;
        }
        return None;
    }
    None
}

fn hash_end(s: &Vec<char>, i: usize, end: usize) -> (j: usize)
    requires
        i <= end <= s@.len(),
    ensures
        j == hash_end_spec(s@, i as int, end as int),
        i <= j <= end,
{
    let mut k: usize = i;
    while k < end && s[k] == '#'
        invariant
            i <= k <= end <= s@.len(),
            hash_end_spec(s@, i as int, end as int) == hash_end_spec(s@, k as int, end as int),
        decreases end - k,
    {
        k = k + 1;
    }
    k
}

fn parse_str_body(s: &Vec<char>, start: usize, end: usize) -> (r: Option<(String, usize)>)
    requires
        start <= end <= s@.len(),
    ensures
        match r {
            Some(p) => str_body_spec(s@, start as int, end as int, Seq::empty()) == Some((
                p.0@,
                p.1 as int,
            )),
            None => str_body_spec(s@, start as int, end as int, Seq::empty()) is None,
        },
{
    let mut out = String::new();
    let mut k: usize = start;
    while k < end
        invariant
            start <= k <= end <= s@.len(),
            str_body_spec(s@, start as int, end as int, Seq::empty()) == str_body_spec(
                s@,
                k as int,
                end as int,
                out@,
            ),
        decreases end - k,
    {
        let c = s[k];
        if c == '"' {
            return Some((out, k + 1));
        } else if c == '\\' {
            if end - k > 1 {
                match unescape_char(s[k + 1]) {
                    Some(u) => {
                        push_char(&mut out, u);
                        k = k + 2;
                    },
                    None => {
                        return None;
                    },
                }
            } else {
                return None;
            }
        } else {
            push_char(&mut out, c);
            k = k + 1;
        }
    }
    None
}

fn parse_raw_body(s: &Vec<char>, start: usize, end: usize, n: usize) -> (r: Option<(String, usize)>)
    requires
        start <= end <= s@.len(),
    ensures
        match r {
            Some(p) => raw_body_spec(s@, start as int, end as int, n as int, Seq::empty()) == Some(
                (p.0@, p.1 as int),
            ),
            None => raw_body_spec(s@, start as int, end as int, n as int, Seq::empty()) is None,
        },
{
    let mut out = String::new();
    let mut k: usize = start;
    while k < end
        invariant
            start <= k <= end <= s@.len(),
            raw_body_spec(s@, start as int, end as int, n as int, Seq::empty())
                == raw_body_spec(s@, k as int, end as int, n as int, out@),
        decreases end - k,
    {
        let c = s[k];
        if c == '"' && check_hashes(s, k + 1, n, end) {
            return Some((out, k + 1 + n));
        }
        push_char(&mut out, c);
        k = k + 1;
    }
    None
}

fn check_hashes(s: &Vec<char>, i: usize, n: usize, end: usize) -> (r: bool)
    requires
        i <= end <= s@.len(),
    ensures
        r == hashes_at(s@, i as int, n as int, end as int),
{
    if end - i < n {
        return false;
    }
    let mut k: usize = 0;
    while k < n
        invariant
            k <= n,
            i + n <= end <= s@.len(),
            forall|m: int| i <= m < i + k ==> s@[m] == '#',
        decreases n - k,
    {
        if s[i + k] != '#' {
            return false;
        }
        k = k + 1;
    }
    true
}

// ---------------------------------------------------------------------------
// escaping for emitted string literals
// ---------------------------------------------------------------------------

/// How one character is written inside an emitted plain string literal.
pub open spec fn escaped_char(c: char) -> Seq<char> {
    if c == '"' {
        seq!['\\', '"']
    } else if c == '\\' {
        seq!['\\', '\\']
    } else if c == '\n' {
        seq!['\\', 'n']
    } else if c == '\r' {
        seq!['\\', 'r']
    } else if c == '\t' {
        seq!['\\', 't']
    } else if c == '\0' {
        seq!['\\', '0']
    } else {
        seq![c]
    }
}

pub open spec fn escaped_from(s: Seq<char>, i: int) -> Seq<char>
    decreases s.len() - i,
{
    if !(0 <= i < s.len()) {
        Seq::empty()
    } else {
        escaped_char(s[i]) + escaped_from(s, i + 1)
    }
}

/// `s` written as the body of a plain string literal.
pub open spec fn escaped(s: Seq<char>) -> Seq<char> {
    escaped_from(s, 0)
}

/// Escapes `s` for embedding between double quotes in emitted source text.
pub fn escape_string_literal(s: &str) -> (r: String)
    ensures
        r@ == escaped(s@),
{
    let cs = chars_of(s);
    let mut out = String::new();
    let mut i: usize = 0;
    while i < cs.len()
        invariant
            i <= cs@.len(),
            cs@ == s@,
            escaped(s@) == out@ + escaped_from(s@, i as int),
        decreases cs@.len() - i,
    {
        let c = cs[i];
        let ghost prev = out@;
        if c == '"' {
            push_char(&mut out, '\\');
            push_char(&mut out, '"');
        } else if c == '\\' {
            push_char(&mut out, '\\');
            push_char(&mut out, '\\');
        } else if c == '\n' {
            push_char(&mut out, '\\');
            push_char(&mut out, 'n');
        } else if c == '\r' {
            push_char(&mut out, '\\');
            push_char(&mut out, 'r');
        } else if c == '\t' {
            push_char(&mut out, '\\');
            push_char(&mut out, 't');
        } else if c == '\0' {
            push_char(&mut out, '\\');
            push_char(&mut out, '0');
        } else {
            push_char(&mut out, c);
        }
        proof {
            assert(out@ =~= prev + escaped_char(s@[i as int]));
            assert(out@ + escaped_from(s@, i + 1) =~= prev + escaped_from(s@, i as int));
        }
        i = i + 1;
    }
    proof {
        assert(escaped(s@) =~= out@);
    }
    out
}

} // verus!

verus! {

proof fn lemma_unescape_escaped(s: Seq<char>, i: int, pos: int, acc: Seq<char>, w: Seq<char>)
    requires
        0 <= i <= s.len(),
        0 <= pos <= w.len(),
        w.subrange(pos, w.len() as int) == escaped_from(s, i) + seq!['"'],
    ensures
        str_body_spec(w, pos, w.len() as int, acc) == Some((acc + s.subrange(i, s.len() as int), w.len() as int)),
    decreases s.len() - i,
{
    let tail = w.subrange(pos, w.len() as int);
    if i == s.len() {
        assert(tail =~= seq!['"']);
        assert(w[pos] == tail[0]);
        assert(pos + 1 == w.len());
        assert(acc + s.subrange(i, s.len() as int) =~= acc);
    } else {
        let c = s[i];
        let e = escaped_char(c);
        assert(escaped_from(s, i) == e + escaped_from(s, i + 1));
        assert(tail.len() == e.len() + escaped_from(s, i + 1).len() + 1);
        assert(forall|m: int| 0 <= m < tail.len() ==> tail[m] == w[pos + m]);
        assert(forall|m: int|
            e.len() <= m < tail.len() - 1 ==> #[trigger] tail[m] == escaped_from(s, i + 1)[m
                - e.len()]);
        assert(tail[tail.len() - 1] == '"');
        if c == '"' || c == '\\' || c == '\n' || c == '\r' || c == '\t' || c == '\0' {
            assert(e.len() == 2 && e[0] == '\\');
            assert(w[pos] == tail[0] && w[pos + 1] == tail[1]);
            assert(w[pos] == '\\');
            assert(unescaped_char(w[pos + 1]) == Some(c));
            assert forall|m: int|
                0 <= m < w.len() - (pos + 2) implies #[trigger] w.subrange(
                pos + 2,
                w.len() as int,
            )[m] == (escaped_from(s, i + 1) + seq!['"'])[m] by {
                assert(w.subrange(pos + 2, w.len() as int)[m] == w[pos + 2 + m]);
                assert(tail[m + 2] == w[pos + (m + 2)]);
                assert(tail[m + 2] == (escaped_from(s, i) + seq!['"'])[m + 2]);
            }
            assert(w.subrange(pos + 2, w.len() as int) =~= escaped_from(s, i + 1) + seq!['"']);
            lemma_unescape_escaped(s, i + 1, pos + 2, acc.push(c), w);
            assert(acc.push(c) + s.subrange(i + 1, s.len() as int) =~= acc + s.subrange(
                i,
                s.len() as int,
            ));
        } else {
            assert(e =~= seq![c]);
            assert(w[pos] == tail[0]);
            assert(w[pos] == c && c != '"' && c != '\\');
            assert forall|m: int|
                0 <= m < w.len() - (pos + 1) implies #[trigger] w.subrange(
                pos + 1,
                w.len() as int,
            )[m] == (escaped_from(s, i + 1) + seq!['"'])[m] by {
                assert(w.subrange(pos + 1, w.len() as int)[m] == w[pos + 1 + m]);
                assert(tail[m + 1] == w[pos + (m + 1)]);
                assert(tail[m + 1] == (escaped_from(s, i) + seq!['"'])[m + 1]);
            }
            assert(w.subrange(pos + 1, w.len() as int) =~= escaped_from(s, i + 1) + seq!['"']);
            lemma_unescape_escaped(s, i + 1, pos + 1, acc.push(c), w);
            assert(acc.push(c) + s.subrange(i + 1, s.len() as int) =~= acc + s.subrange(
                i,
                s.len() as int,
            ));
        }
    }
}

/// Escaping a text and reading it back as a plain string literal yields the
/// text unchanged: a string literal the emitter writes means, character for
/// character, exactly the text that was escaped into it.
pub proof fn lemma_escaped_literal_round_trip(s: Seq<char>)
    ensures
        string_lit_spec(
            seq!['"'] + escaped(s) + seq!['"'],
            0,
            escaped(s).len() + 2 as int,
        ) == Some((s, escaped(s).len() + 2 as int)),
{
    let w = seq!['"'] + escaped(s) + seq!['"'];
    assert(w.len() == escaped(s).len() + 2);
    assert(w[0] == '"');
    assert(w.subrange(1, w.len() as int) =~= escaped_from(s, 0) + seq!['"']);
    lemma_unescape_escaped(s, 0, 1, Seq::empty(), w);
    assert(Seq::empty() + s.subrange(0, s.len() as int) =~= s);
}

} // verus!
