use chat_core::text::repr_string;
use chat_core::text::text_contains_phrase;
use chat_core::text::truncate;
use chat_core::text::truncate_default;

#[test]
fn truncate_keeps_short_text() {
    assert_eq!(truncate("hello", 10), "hello");
}

#[test]
fn truncate_cuts_with_ellipsis() {
    assert_eq!(truncate("abcdefghij", 5), "ab...");
}

#[test]
fn truncate_tiny_limit_has_no_ellipsis() {
    assert_eq!(truncate("abcdefghij", 2), "ab");
}

#[test]
fn truncate_limit_three_has_no_ellipsis() {
    assert_eq!(truncate("abcdefghij", 3), "abc");
}

#[test]
fn truncate_exact_fit_is_unchanged() {
    assert_eq!(truncate("abcde", 5), "abcde");
}

#[test]
fn truncate_empty_text() {
    assert_eq!(truncate("", 5), "");
}

#[test]
fn truncate_default_keeps_short_text() {
    assert_eq!(truncate_default("short message"), "short message");
}

#[test]
fn truncate_default_cuts_long_text() {
    let long = "x".repeat(2000);
    let cut = truncate_default(&long);
    assert_eq!(cut.chars().count(), 1700);
    assert!(cut.ends_with("..."));
}

#[test]
fn contains_phrase_is_case_insensitive() {
    assert!(text_contains_phrase("Hello World", "hello"));
    assert!(text_contains_phrase("hello world", "WORLD"));
}

#[test]
fn contains_phrase_spanning_words() {
    assert!(text_contains_phrase("ABC DEF", "c d"));
}

#[test]
fn contains_phrase_absent() {
    assert!(!text_contains_phrase("Hello World", "bye"));
}

#[test]
fn contains_empty_phrase() {
    assert!(text_contains_phrase("anything", ""));
}

#[test]
fn repr_string_quotes_plain_text() {
    assert_eq!(repr_string("abc"), "\"abc\"");
}

#[test]
fn repr_string_escapes_specials() {
    assert_eq!(repr_string("a\"b\\c\nd"), "\"a\\\"b\\\\c\\nd\"");
}

#[test]
fn repr_string_empty() {
    assert_eq!(repr_string(""), "\"\"");
}
