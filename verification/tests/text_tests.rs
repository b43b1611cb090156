use bunnyhop::text::{chars_of, contains, matches_at, same_text, starts_with};

#[test]
fn chars_of_keeps_every_character() {
    assert_eq!(chars_of(""), Vec::<char>::new());
    assert_eq!(chars_of("a/b"), vec!['a', '/', 'b']);
    assert_eq!(chars_of("\u{e9}\u{1F407}"), vec!['\u{e9}', '\u{1F407}']);
}

#[test]
fn same_text_compares_all_characters() {
    assert!(same_text("", ""));
    assert!(same_text("add", "add"));
    assert!(!same_text("add", "Add"));
    assert!(!same_text("add", "ad"));
    assert!(!same_text("ad", "add"));
}

#[test]
fn starts_with_is_a_prefix_test() {
    assert!(starts_with("/a/b", "/a"));
    assert!(starts_with("/a/b", "/a/b"));
    assert!(starts_with("/a/b", ""));
    assert!(starts_with("/a/bc", "/a/b"));
    assert!(!starts_with("/a", "/a/b"));
    assert!(!starts_with("/a/b", "a"));
}

#[test]
fn contains_finds_runs_anywhere() {
    assert!(contains("proj-old", "proj"));
    assert!(contains("old-proj", "proj"));
    assert!(contains("my-proj-old", "proj"));
    assert!(contains("proj", "proj"));
    assert!(contains("proj", ""));
    assert!(contains("", ""));
    assert!(!contains("proj", "Proj"));
    assert!(!contains("pro", "proj"));
    assert!(!contains("p-r-o-j", "proj"));
    assert!(contains("aab", "ab"));
}

#[test]
fn matches_at_checks_one_offset() {
    let text = chars_of("abcabc");
    let pat = chars_of("bc");
    assert!(matches_at(&text, &pat, 1));
    assert!(matches_at(&text, &pat, 4));
    assert!(!matches_at(&text, &pat, 0));
    assert!(!matches_at(&text, &pat, 3));
}
