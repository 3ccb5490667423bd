//! Validation of externally stored template paths.
//!
//! A template file is named by a relative path with a nonempty parent
//! segment, resolved against a project-root environment value by the caller
//! that performs the read. Absolute paths are rejected outright — they would
//! only work on the current machine — and so is a bare file name, which
//! would have to be resolved against the current file's directory.

use vstd::prelude::*;

verus! {

/// A separator stands somewhere before a later non-separator character, so
/// the path has a nonempty parent segment before its final component.
pub open spec fn has_parent_sep(p: Seq<char>) -> bool {
    exists|i: int, j: int| 0 <= i < j < p.len() && p[i] == '/' && p[j] != '/'
}

/// An acceptable template path: nonempty, relative, with a parent segment.
pub open spec fn path_acceptable(p: Seq<char>) -> bool {
    &&& p.len() > 0
    &&& p[0] != '/'
    &&& has_parent_sep(p)
}

/// Checks that a template path is relative and carries a parent segment;
/// an `Err` holds the diagnostic for the offending shape.
pub fn check_relative_path(path: &str) -> (r: Result<(), String>)
    ensures
        r is Ok <==> path_acceptable(path@),
        match r {
            Ok(_) => true,
            Err(m) => {
                if path@.len() > 0 && path@[0] == '/' {
                    m@ == "absolute paths will only work on the current machine"@
                } else {
                    m@
                        == "paths relative to the current file's directory are not currently supported"@
                }
            },
        },
{
    let cs = crate::text::chars_of(path);
    if cs.len() == 0 {
        return Err(
            "paths relative to the current file's directory are not currently supported".to_owned(),
        );
    }
    if cs[0] == '/' {
        return Err("absolute paths will only work on the current machine".to_owned());
    }
    let mut seen_slash = false;
    let mut i: usize = 0;
    while i < cs.len()
        invariant
            i <= cs@.len(),
            cs@ == path@,
            cs@.len() > 0,
            cs@[0] != '/',
            seen_slash == exists|m: int| 0 <= m < i && cs@[m] == '/',
            forall|a: int, b: int|
                0 <= a < b < i ==> !((#[trigger] cs@[a]) == '/' && (#[trigger] cs@[b]) != '/'),
        decreases cs@.len() - i,
    {
        if cs[i] == '/' {
            proof {
                assert(cs@[i as int] == '/');
            }
            seen_slash = true;
        } else {
            if seen_slash {
                proof {
                    let m = choose|m: int| 0 <= m < i && cs@[m] == '/';
                    assert(0 <= m < i < cs@.len() && cs@[m] == '/' && cs@[i as int] != '/');
                }
                return Ok(());
            }
        }
        i = i + 1;
    }
    proof {
        assert(!has_parent_sep(path@));
    }
    Err("paths relative to the current file's directory are not currently supported".to_owned())
}

} // verus!
