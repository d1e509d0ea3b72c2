use betcode_daemon::text::{decimal_string, same_text, truncate_str};

#[test]
fn truncate_str_handles_multibyte_utf8() {
    assert_eq!(truncate_str("hello world", 5), "hello...");
    assert_eq!(truncate_str("short", 10), "short");
    assert_eq!(truncate_str("café latte", 4), "caf...");
    assert_eq!(truncate_str("", 5), "");
    assert_eq!(truncate_str("abc", 3), "abc");
}

#[test]
fn truncate_str_never_splits_a_character() {
    // "é" takes two bytes: a limit of 1 keeps nothing of it.
    assert_eq!(truncate_str("é", 1), "...");
    assert_eq!(truncate_str("日本語", 6), "日本...");
}

#[test]
fn decimal_string_writes_numbers() {
    assert_eq!(decimal_string(0), "0");
    assert_eq!(decimal_string(7), "7");
    assert_eq!(decimal_string(404), "404");
    assert_eq!(decimal_string(u64::MAX), "18446744073709551615");
}

#[test]
fn same_text_compares_characters() {
    assert!(same_text("abc", "abc"));
    assert!(!same_text("abc", "abd"));
    assert!(!same_text("", "a"));
}
