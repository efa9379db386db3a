//! Texts as sequences of characters: where one occurs inside another.

use vstd::prelude::*;

verus! {

/// `needle` stands in `haystack` at position `at`.
pub open spec fn occurs_at(needle: Seq<char>, haystack: Seq<char>, at: int) -> bool {
    &&& 0 <= at
    &&& at + needle.len() <= haystack.len()
    &&& haystack.subrange(at, at + needle.len()) == needle
}

/// `needle` is a contiguous part of `haystack`.
pub open spec fn is_substring(needle: Seq<char>, haystack: Seq<char>) -> bool {
    exists|at: int| occurs_at(needle, haystack, at)
}

/// Whether `needle` stands in `haystack` at position `at`. A position from
/// which `needle` would reach past the end of `haystack` holds nothing.
pub fn matches_at(needle: &[char], haystack: &[char], at: usize) -> (found: bool)
    ensures
        found == occurs_at(needle@, haystack@, at as int),
{
    let end: usize = haystack.len();
    if needle.len() > end || at > end - needle.len() {
        return false;
    }
    let mut k: usize = 0;
    while k < needle.len()
        invariant
            k <= needle@.len(),
            at + needle@.len() <= haystack@.len() == end,
            forall|j: int| 0 <= j < k ==> haystack@[at + j] == needle@[j],
        decreases needle@.len() - k,
    {
        if haystack[at + k] != needle[k] {
            proof {
                let part = haystack@.subrange(at as int, at + needle@.len());
                assert(part[k as int] == haystack@[at + k]);
            }
            return false;
        }
        k += 1;
    }
    proof {
        assert(haystack@.subrange(at as int, at + needle@.len()) =~= needle@);
    }
    true
}

/// Whether `needle` occurs anywhere in `haystack`.
pub fn occurs_in(needle: &[char], haystack: &[char]) -> (found: bool)
    ensures
        found == is_substring(needle@, haystack@),
{
    if needle.len() > haystack.len() {
        return false;
    }
    let last: usize = haystack.len() - needle.len();
    let mut at: usize = 0;
    while at < last
        invariant
            last == haystack@.len() - needle@.len(),
            at <= last,
            forall|j: int| 0 <= j < at ==> !occurs_at(needle@, haystack@, j),
        decreases last - at,
    {
        if matches_at(needle, haystack, at) {
            return true;
        }
        at += 1;
    }
    matches_at(needle, haystack, last)
}

} // verus!
