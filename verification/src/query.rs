//! The query: the terms that a path has to hold.

use crate::mode::{dir_filter, is_directory, FileStat};
use crate::text::{chars_of, find_in, is_substring};
use vstd::prelude::*;

verus! {

/// Every one of `terms` is a contiguous part of `path`, wherever and in
/// whatever order. No terms: every path matches.
pub open spec fn matches_all(path: Seq<char>, terms: Seq<String>) -> bool {
    forall|i: int| 0 <= i < terms.len() ==> is_substring((#[trigger] terms[i])@, path)
}

/// Whether every one of `substrings` is a contiguous part of `filename`.
pub fn contains_all_substrings(filename: &str, substrings: &Vec<String>) -> (all: bool)
    ensures
        all == matches_all(filename@, substrings@),
{
    let haystack: Vec<char> = chars_of(filename);
    let mut i: usize = 0;
    while i < substrings.len()
        invariant
            i <= substrings.len(),
            haystack@ == filename@,
            forall|k: int| 0 <= k < i ==> is_substring((#[trigger] substrings[k])@, filename@),
        decreases substrings.len() - i,
    {
        let needle: Vec<char> = chars_of(substrings[i].as_str());
        if !find_in(&needle, &haystack) {
            return false;
        }
        i += 1;
    }
    true
}

/// The terms as they are matched: where the first term names an existing
/// directory, the canonical path of that directory stands in its place.
pub open spec fn anchored(
    terms: Seq<String>,
    canonical: Option<String>,
    probe: Option<FileStat>,
) -> Seq<String> {
    if terms.len() > 0 && canonical is Some && is_directory(probe) {
        terms.update(0, canonical->0)
    } else {
        terms
    }
}

/// Puts the canonical path of the first term in its place, where the term
/// resolved to one and a lookup of that path found a directory. A first term
/// that resolves to anything else, or to nothing, stays a plain substring.
pub fn anchor_first_term(
    substrings: &mut Vec<String>,
    canonical: Option<String>,
    probe: &Option<FileStat>,
)
    ensures
        final(substrings)@ == anchored(old(substrings)@, canonical, *probe),
{
    if substrings.len() > 0 && dir_filter(probe) {
        match canonical {
            Some(path) => {
                substrings.set(0, path);
            },
            None => {},
        }
    }
}

} // verus!
