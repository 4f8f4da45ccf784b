//! Substrings and suffixes of text.
//!
//! Text is compared character by character, as it stands: no case folding
//! and no normalisation.

use vstd::prelude::*;

verus! {

/// `needle` stands in `haystack` at position `at`.
pub open spec fn occurs_at(needle: Seq<char>, haystack: Seq<char>, at: int) -> bool {
    &&& 0 <= at
    &&& at + needle.len() <= haystack.len()
    &&& haystack.subrange(at, at + needle.len()) == needle
}

/// `needle` is a contiguous part of `haystack`.
pub open spec fn is_substring(needle: Seq<char>, haystack: Seq<char>) -> bool {
    exists|at: int| occurs_at(needle, haystack, at)
}

/// `text` ends with `suffix`.
pub open spec fn is_suffix(suffix: Seq<char>, text: Seq<char>) -> bool {
    occurs_at(suffix, text, text.len() - suffix.len())
}

/// The characters of a string.
pub fn chars_of(text: &str) -> (chars: Vec<char>)
    ensures
        chars@ == text@,
{
    let mut chars: Vec<char> = Vec::new();
    for c in it: text.chars()
        invariant
            it.seq() == text@,
            chars@ == it.seq().take(it.index()),
    {
        chars.push(c);
    }
    assert(chars@ =~= text@);
    chars
}

/// Compares `needle` with the part of `haystack` that starts at `at`.
fn occurs_at_in(needle: &Vec<char>, haystack: &Vec<char>, at: usize) -> (found: bool)
    requires
        at + needle.len() <= haystack.len(),
    ensures
        found == occurs_at(needle@, haystack@, at as int),
{
    let ghost part = haystack@.subrange(at as int, at + needle.len());
    let mut i: usize = 0;
    while i < needle.len()
        invariant
            i <= needle.len(),
            at + needle.len() <= haystack.len(),
            part == haystack@.subrange(at as int, at + needle.len()),
            forall|k: int| 0 <= k < i ==> part[k] == needle[k],
        decreases needle.len() - i,
    {
        if haystack[at + i] != needle[i] {
            assert(part[i as int] != needle[i as int]);
            return false;
        }
        i += 1;
    }
    assert(part =~= needle@);
    true
}

/// Looks for `needle` in `haystack`, position by position.
pub fn find_in(needle: &Vec<char>, haystack: &Vec<char>) -> (found: bool)
    ensures
        found == is_substring(needle@, haystack@),
{
    if needle.len() > haystack.len() {
        return false;
    }
    let last: usize = haystack.len() - needle.len();
    let mut at: usize = 0;
    while at < last
        invariant
            at <= last,
            last == haystack.len() - needle.len(),
            forall|k: int| 0 <= k < at ==> !occurs_at(needle@, haystack@, k),
        decreases last - at,
    {
        if occurs_at_in(needle, haystack, at) {
            return true;
        }
        at += 1;
    }
    occurs_at_in(needle, haystack, last)
}

/// Whether `needle` is a contiguous part of `haystack`.
pub fn contains(haystack: &str, needle: &str) -> (found: bool)
    ensures
        found == is_substring(needle@, haystack@),
{
    let needle_chars: Vec<char> = chars_of(needle);
    let haystack_chars: Vec<char> = chars_of(haystack);
    find_in(&needle_chars, &haystack_chars)
}

/// Whether `text` ends with `suffix`.
pub fn ends_with(text: &str, suffix: &str) -> (found: bool)
    ensures
        found == is_suffix(suffix@, text@),
{
    let suffix_chars: Vec<char> = chars_of(suffix);
    let text_chars: Vec<char> = chars_of(text);
    if suffix_chars.len() > text_chars.len() {
        return false;
    }
    occurs_at_in(&suffix_chars, &text_chars, text_chars.len() - suffix_chars.len())
}

} // verus!
