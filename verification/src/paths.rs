//! Deterministic, safe mapping of archive entry paths into the target root.
//!
//! Every entry of an archive maps to exactly one path under the target root;
//! a path that could escape the root — an absolute path, or one with a `..`
//! segment — is rejected outright.

use vstd::prelude::*;

verus! {

/// A `..` path segment starts at position `i` of `s`: two dots delimited by
/// the string ends or by `/` separators.
pub open spec fn dotdot_segment_at(s: Seq<char>, i: int) -> bool {
    &&& 0 <= i
    &&& i + 2 <= s.len()
    &&& s[i] == '.'
    &&& s[i + 1] == '.'
    &&& (i == 0 || s[i - 1] == '/')
    &&& (i + 2 == s.len() || s[i + 2] == '/')
}

/// A safe relative path: non-empty, not absolute, and free of `..` segments.
/// Only such paths may be written under the target root.
pub open spec fn is_safe_rel_path(s: Seq<char>) -> bool {
    &&& s.len() > 0
    &&& s[0] != '/'
    &&& forall|i: int| !dotdot_segment_at(s, i)
}

/// Decides `is_safe_rel_path` for an entry path.
pub fn check_safe_rel_path(p: &str) -> (r: bool)
    ensures
        r == is_safe_rel_path(p@),
{
    let n = p.unicode_len();
    if n == 0 {
        return false;
    }
    if p.get_char(0) == '/' {
        return false;
    }
    let mut i: usize = 0;
    while i < n
        invariant
            n == p@.len(),
            i <= n,
            p@.len() > 0,
            p@[0] != '/',
            forall|j: int| j < i ==> !dotdot_segment_at(p@, j),
        decreases n - i,
    {
        if n >= 2 && i <= n - 2 && p.get_char(i) == '.' && p.get_char(i + 1) == '.'
            && (i == 0 || p.get_char(i - 1) == '/')
            && (i + 2 == n || p.get_char(i + 2) == '/') {
            assert(dotdot_segment_at(p@, i as int));
            return false;
        }
        assert(!dotdot_segment_at(p@, i as int));
        i = i + 1;
    }
    assert forall|j: int| !dotdot_segment_at(p@, j) by {
        if 0 <= j < n {
            assert(!dotdot_segment_at(p@, j));
        }
    }
    true
}

} // verus!
