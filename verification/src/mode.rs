//! What the caller looks for, and the tests that a path has to stand for it.
//!
//! The tests read what a metadata lookup reported about the path. The lookup
//! itself is the caller's: it hands in `Some` of what it found, or `None`
//! where the lookup failed, and a test that reads a failed lookup fails.

use crate::text::{contains, ends_with, is_substring, is_suffix};
use vstd::prelude::*;

verus! {

/// A regular file of this many bytes or more is too long to edit, unless its
/// name exempts it.
pub const EDITABLE_FILE_MAX_SIZE_CRITERION: u64 = 10000;

/// The kind of path that the caller looks for.
#[derive(Clone, Copy, PartialEq, Eq, Structural, Debug)]
pub enum SearchType {
    /// A directory.
    Directory,
    /// A regular file.
    File,
    /// A regular file that can be written and is short enough to edit.
    Editable,
    /// Anything that exists.
    Other,
}

/// What a metadata lookup reported about a path.
#[derive(Clone, Copy, PartialEq, Eq, Structural, Debug)]
pub struct FileStat {
    /// The path is a directory.
    pub is_dir: bool,
    /// The path is a regular file.
    pub is_file: bool,
    /// The path may not be written.
    pub readonly: bool,
    /// Size in bytes.
    pub len: u64,
}

/// The search type that the name of the invocation asks for: the first of
/// "dir", "file" and "editable" that the name contains decides.
pub open spec fn mode_of(name: Seq<char>) -> SearchType {
    if is_substring("dir"@, name) {
        SearchType::Directory
    } else if is_substring("file"@, name) {
        SearchType::File
    } else if is_substring("editable"@, name) {
        SearchType::Editable
    } else {
        SearchType::Other
    }
}

/// The path's name exempts it from the size limit of editable files.
pub open spec fn has_exempt_suffix(path: Seq<char>) -> bool {
    is_suffix(".py"@, path) || is_suffix("rc"@, path) || is_suffix("installed"@, path)
}

/// The lookup found a directory.
pub open spec fn is_directory(probe: Option<FileStat>) -> bool {
    probe matches Some(stat) && stat.is_dir
}

/// The lookup found a regular file.
pub open spec fn is_regular_file(probe: Option<FileStat>) -> bool {
    probe matches Some(stat) && stat.is_file
}

/// The lookup found a regular file that can be written and that is short
/// enough, or exempt by its name.
pub open spec fn is_editable(path: Seq<char>, probe: Option<FileStat>) -> bool {
    probe matches Some(stat) && stat.is_file && !stat.readonly && (stat.len
        < EDITABLE_FILE_MAX_SIZE_CRITERION || has_exempt_suffix(path))
}

/// The test that a path stands before it becomes a candidate.
pub open spec fn passes_pre_filter(mode: SearchType, path: Seq<char>, probe: Option<FileStat>) -> bool {
    match mode {
        SearchType::Directory => true,
        SearchType::File => is_regular_file(probe),
        SearchType::Editable => is_editable(path, probe),
        SearchType::Other => true,
    }
}

/// The test that the best candidate stands before it is chosen.
pub open spec fn passes_post_filter(mode: SearchType, path: Seq<char>, probe: Option<FileStat>) -> bool {
    match mode {
        SearchType::Directory => is_directory(probe),
        SearchType::File => true,
        SearchType::Editable => true,
        SearchType::Other => probe is Some,
    }
}

/// Derives the search type from the name that the program was called by.
pub fn resolve_mode(called_by_name: &str) -> (mode: SearchType)
    ensures
        mode == mode_of(called_by_name@),
{
    if contains(called_by_name, "dir") {
        SearchType::Directory
    } else if contains(called_by_name, "file") {
        SearchType::File
    } else if contains(called_by_name, "editable") {
        SearchType::Editable
    } else {
        SearchType::Other
    }
}

/// Whether the lookup found a directory.
pub fn dir_filter(probe: &Option<FileStat>) -> (pass: bool)
    ensures
        pass == is_directory(*probe),
{
    match probe {
        Some(dir) => dir.is_dir,
        None => false,
    }
}

/// Whether the lookup found a regular file.
pub fn file_filter(probe: &Option<FileStat>) -> (pass: bool)
    ensures
        pass == is_regular_file(*probe),
{
    match probe {
        Some(file) => file.is_file,
        None => false,
    }
}

/// Whether the lookup found a file to edit: a regular file that can be
/// written and is shorter than the limit, or exempt from it by its name.
pub fn editable_filter(filename: &str, probe: &Option<FileStat>) -> (pass: bool)
    ensures
        pass == is_editable(filename@, *probe),
{
    match probe {
        Some(md) => md.is_file && !md.readonly && (md.len < EDITABLE_FILE_MAX_SIZE_CRITERION
            || exceptionally_long(filename)),
        None => false,
    }
}

/// Whether a file of this name may be edited however long it is: source
/// files and some configuration files run long.
pub fn exceptionally_long(filename: &str) -> (exempt: bool)
    ensures
        exempt == has_exempt_suffix(filename@),
{
    ends_with(filename, ".py") || ends_with(filename, "rc") || ends_with(filename, "installed")
}

impl SearchType {
    /// Whether the test before admission reads the lookup at all. Where it
    /// does not, every path stands that test and the lookup can be spared.
    pub fn probes_before_admission(&self) -> (needed: bool)
        ensures
            needed == (*self == SearchType::File || *self == SearchType::Editable),
            !needed ==> forall|path: Seq<char>, probe: Option<FileStat>| #[trigger]
                passes_pre_filter(*self, path, probe),
    {
        match self {
            SearchType::File => true,
            SearchType::Editable => true,
            _ => false,
        }
    }

    /// Whether the test before the choice reads the lookup at all. Where it
    /// does not, every candidate stands that test and the lookup can be
    /// spared.
    pub fn probes_before_choice(&self) -> (needed: bool)
        ensures
            needed == (*self == SearchType::Directory || *self == SearchType::Other),
            !needed ==> forall|path: Seq<char>, probe: Option<FileStat>| #[trigger]
                passes_post_filter(*self, path, probe),
    {
        match self {
            SearchType::Directory => true,
            SearchType::Other => true,
            _ => false,
        }
    }
}

/// Test of a path before it becomes a candidate.
pub fn pre_filter(mode: SearchType, filename: &str, probe: &Option<FileStat>) -> (pass: bool)
    ensures
        pass == passes_pre_filter(mode, filename@, *probe),
{
    match mode {
        SearchType::Directory => true,
        SearchType::File => file_filter(probe),
        SearchType::Editable => editable_filter(filename, probe),
        SearchType::Other => true,
    }
}

/// Test of the best candidate before it is chosen.
pub fn post_filter(mode: SearchType, filename: &str, probe: &Option<FileStat>) -> (pass: bool)
    ensures
        pass == passes_post_filter(mode, filename@, *probe),
{
    match mode {
        SearchType::Directory => dir_filter(probe),
        SearchType::File => true,
        SearchType::Editable => true,
        SearchType::Other => probe.is_some(),
    }
}

/// A regular file that can be written and whose name exempts it is
/// editable, whatever its size.
pub proof fn lemma_exempt_suffix_lifts_size_limit(path: Seq<char>, stat: FileStat)
    requires
        stat.is_file,
        !stat.readonly,
        has_exempt_suffix(path),
    ensures
        passes_pre_filter(SearchType::Editable, path, Some(stat)),
{
}

/// A path whose lookup failed is never chosen: whatever is looked for, one of
/// the two tests reads the lookup, and fails.
pub proof fn lemma_failed_lookup_never_passes(mode: SearchType, path: Seq<char>)
    ensures
        !(passes_pre_filter(mode, path, None) && passes_post_filter(mode, path, None)),
{
}

} // verus!
