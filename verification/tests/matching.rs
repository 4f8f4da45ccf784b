use frecency_select::query::contains_all_substrings;
use frecency_select::text::{chars_of, contains, ends_with, find_in};

fn terms(list: &[&str]) -> Vec<String> {
    list.iter().map(|t| String::from(*t)).collect()
}

#[test]
fn chars_of_a_string() {
    assert_eq!(chars_of(""), Vec::<char>::new());
    assert_eq!(chars_of("a/b"), vec!['a', '/', 'b']);
    assert_eq!(chars_of("é€"), vec!['é', '€']);
}

#[test]
fn substring_found_at_start_middle_and_end() {
    assert!(contains("/home/guru/notes.txt", "/home"));
    assert!(contains("/home/guru/notes.txt", "guru"));
    assert!(contains("/home/guru/notes.txt", ".txt"));
    assert!(contains("/home/guru/notes.txt", "/home/guru/notes.txt"));
}

#[test]
fn substring_not_found() {
    assert!(!contains("/home/guru/notes.txt", "gurus"));
    assert!(!contains("abc", "abcd"));
    assert!(!contains("", "a"));
    assert!(!contains("aab", "aba"));
}

#[test]
fn the_empty_string_is_in_every_string() {
    assert!(contains("abc", ""));
    assert!(contains("", ""));
}

#[test]
fn matching_is_case_sensitive() {
    assert!(!contains("/home/Guru", "guru"));
    assert!(contains("/home/Guru", "Guru"));
}

#[test]
fn substring_after_a_false_start() {
    assert!(contains("aaab", "aab"));
    assert!(contains("abababc", "abc"));
}

#[test]
fn substring_of_text_beyond_ascii() {
    assert!(contains("/home/é€/x", "€/x"));
    assert!(!contains("/tmp/é/x", "e"));
    assert!(!contains("/tmp/é/x", "é/y"));
}

#[test]
fn search_agrees_with_the_standard_library() {
    let words = ["", "a", "b", "ab", "ba", "aa", "aab", "aba", "abab", "bab", "abc", "é", "aé"];
    for hay in words {
        for needle in words {
            assert_eq!(contains(hay, needle), hay.contains(needle));
            assert_eq!(ends_with(hay, needle), hay.ends_with(needle));
            assert_eq!(find_in(&chars_of(needle), &chars_of(hay)), hay.contains(needle));
        }
    }
}

#[test]
fn suffix_found_and_not_found() {
    assert!(ends_with("main.py", ".py"));
    assert!(ends_with(".py", ".py"));
    assert!(!ends_with("py", ".py"));
    assert!(!ends_with("main.pyc", ".py"));
    assert!(ends_with("anything", ""));
}

#[test]
fn every_term_has_to_occur() {
    assert!(contains_all_substrings("/home/guru/src/main.rs", &terms(&["guru", "main"])));
    assert!(!contains_all_substrings("/home/guru/src/main.rs", &terms(&["guru", "lib"])));
    assert!(!contains_all_substrings("/home/guru/src/main.rs", &terms(&["lib", "guru"])));
}

#[test]
fn terms_match_in_any_order_and_may_repeat() {
    assert!(contains_all_substrings("/home/guru/src/main.rs", &terms(&["main", "guru"])));
    assert!(contains_all_substrings("/home/guru/src/main.rs", &terms(&["src", "src", "src"])));
    assert!(contains_all_substrings("/home/guru/src/main.rs", &terms(&["guru/src", "src/main"])));
}

#[test]
fn no_terms_match_every_path() {
    assert!(contains_all_substrings("/home/guru", &terms(&[])));
    assert!(contains_all_substrings("", &terms(&[])));
}
