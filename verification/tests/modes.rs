use frecency_select::mode::{
    dir_filter, editable_filter, exceptionally_long, file_filter, post_filter, pre_filter,
    resolve_mode, FileStat, SearchType, EDITABLE_FILE_MAX_SIZE_CRITERION,
};

fn a_dir() -> Option<FileStat> {
    Some(FileStat { is_dir: true, is_file: false, readonly: false, len: 4096 })
}

fn a_file(len: u64) -> Option<FileStat> {
    Some(FileStat { is_dir: false, is_file: true, readonly: false, len })
}

fn a_locked_file(len: u64) -> Option<FileStat> {
    Some(FileStat { is_dir: false, is_file: true, readonly: true, len })
}

fn a_socket() -> Option<FileStat> {
    Some(FileStat { is_dir: false, is_file: false, readonly: false, len: 0 })
}

#[test]
fn mode_by_the_name_of_the_invocation() {
    assert_eq!(resolve_mode("/usr/bin/fasd_dir"), SearchType::Directory);
    assert_eq!(resolve_mode("fasd_file"), SearchType::File);
    assert_eq!(resolve_mode("fasd_editable"), SearchType::Editable);
    assert_eq!(resolve_mode("fasd"), SearchType::Other);
    assert_eq!(resolve_mode(""), SearchType::Other);
}

#[test]
fn the_first_name_that_matches_decides_the_mode() {
    assert_eq!(resolve_mode("file_dir"), SearchType::Directory);
    assert_eq!(resolve_mode("editable_dir"), SearchType::Directory);
    assert_eq!(resolve_mode("editable_file"), SearchType::File);
    assert_eq!(resolve_mode("/home/dirk/bin/editable"), SearchType::Directory);
}

#[test]
fn mode_names_are_case_sensitive() {
    assert_eq!(resolve_mode("DIR"), SearchType::Other);
    assert_eq!(resolve_mode("File"), SearchType::Other);
}

#[test]
fn directory_test() {
    assert!(dir_filter(&a_dir()));
    assert!(!dir_filter(&a_file(1)));
    assert!(!dir_filter(&a_socket()));
    assert!(!dir_filter(&None));
}

#[test]
fn regular_file_test() {
    assert!(file_filter(&a_file(1)));
    assert!(file_filter(&a_locked_file(1)));
    assert!(!file_filter(&a_dir()));
    assert!(!file_filter(&a_socket()));
    assert!(!file_filter(&None));
}

#[test]
fn size_limit_of_editable_files() {
    assert_eq!(EDITABLE_FILE_MAX_SIZE_CRITERION, 10000);
    assert!(editable_filter("/a/notes.txt", &a_file(0)));
    assert!(editable_filter("/a/notes.txt", &a_file(9999)));
    assert!(!editable_filter("/a/notes.txt", &a_file(10000)));
    assert!(!editable_filter("/a/notes.txt", &a_file(50000)));
}

#[test]
fn editable_files_are_regular_and_writable() {
    assert!(!editable_filter("/a/notes.txt", &a_locked_file(10)));
    assert!(!editable_filter("/a/notes", &a_dir()));
    assert!(!editable_filter("/a/notes", &a_socket()));
    assert!(!editable_filter("/a/notes.txt", &None));
    assert!(!editable_filter("/a/main.py", &None));
}

#[test]
fn a_long_python_file_is_still_editable() {
    assert!(editable_filter("/a/main.py", &a_file(50000)));
    assert!(pre_filter(SearchType::Editable, "/a/main.py", &a_file(50000)));
    assert!(!pre_filter(SearchType::Editable, "/a/main.py", &a_locked_file(50000)));
    assert!(!pre_filter(SearchType::Editable, "/a/main.pl", &a_file(50000)));
}

#[test]
fn names_that_lift_the_size_limit() {
    assert!(exceptionally_long("setup.py"));
    assert!(exceptionally_long("/home/guru/.bashrc"));
    assert!(exceptionally_long("rc"));
    assert!(exceptionally_long("/var/lib/pkg/installed"));
    assert!(!exceptionally_long("setup.pyc"));
    assert!(!exceptionally_long("/home/guru/.bashrc.bak"));
    assert!(!exceptionally_long("installed.log"));
    assert!(!exceptionally_long(""));
    assert!(!exceptionally_long("py"));
}

#[test]
fn exempt_names_lift_only_the_size_limit() {
    assert!(editable_filter("/home/guru/.vimrc", &a_file(1_000_000)));
    assert!(editable_filter("/var/lib/pkg/installed", &a_file(1_000_000)));
    assert!(!editable_filter("/home/guru/.vimrc", &a_locked_file(1_000_000)));
    assert!(!editable_filter("/home/guru/.vimrc", &a_dir()));
}

#[test]
fn tests_before_admission_by_mode() {
    assert!(pre_filter(SearchType::Directory, "/a", &None));
    assert!(pre_filter(SearchType::Directory, "/a", &a_file(1)));
    assert!(pre_filter(SearchType::Other, "/a", &None));
    assert!(pre_filter(SearchType::File, "/a", &a_file(1)));
    assert!(!pre_filter(SearchType::File, "/a", &a_dir()));
    assert!(!pre_filter(SearchType::File, "/a", &None));
    assert!(pre_filter(SearchType::Editable, "/a", &a_file(1)));
    assert!(!pre_filter(SearchType::Editable, "/a", &a_file(20000)));
}

#[test]
fn tests_before_the_choice_by_mode() {
    assert!(post_filter(SearchType::Directory, "/a", &a_dir()));
    assert!(!post_filter(SearchType::Directory, "/a", &a_file(1)));
    assert!(!post_filter(SearchType::Directory, "/a", &None));
    assert!(post_filter(SearchType::File, "/a", &None));
    assert!(post_filter(SearchType::Editable, "/a", &None));
    assert!(post_filter(SearchType::Other, "/a", &a_socket()));
    assert!(post_filter(SearchType::Other, "/a", &a_dir()));
    assert!(!post_filter(SearchType::Other, "/a", &None));
}

#[test]
fn which_test_reads_the_lookup() {
    assert!(!SearchType::Directory.probes_before_admission());
    assert!(SearchType::File.probes_before_admission());
    assert!(SearchType::Editable.probes_before_admission());
    assert!(!SearchType::Other.probes_before_admission());
    assert!(SearchType::Directory.probes_before_choice());
    assert!(!SearchType::File.probes_before_choice());
    assert!(!SearchType::Editable.probes_before_choice());
    assert!(SearchType::Other.probes_before_choice());
}
