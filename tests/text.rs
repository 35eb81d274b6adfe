use rshell::text::{decimal_text, dedup_texts, pad_text, sort_texts, split_text, starts_with, text_eq, text_less_eq};

#[test]
fn sorts_by_code_point() {
    let v: Vec<String> = ["b", "a", "B", "ab", "", "é", "a"].iter().map(|s| s.to_string()).collect();
    let mut expected = v.clone();
    expected.sort();
    assert_eq!(sort_texts(&v), expected);
}

#[test]
fn comparisons() {
    assert!(text_less_eq("a", "ab"));
    assert!(!text_less_eq("ab", "a"));
    assert!(text_less_eq("", ""));
    assert!(text_eq("héllo", "héllo"));
    assert!(!text_eq("hello", "hell"));
    assert!(starts_with("srv.txt", "sr"));
    assert!(starts_with("sr", ""));
    assert!(!starts_with("s", "sr"));
}

#[test]
fn splits_and_numbers() {
    assert_eq!(split_text("a:b::c", ':'), vec!["a", "b", "", "c"]);
    assert_eq!(split_text("", ':'), vec![""]);
    assert_eq!(decimal_text(0), "0");
    assert_eq!(decimal_text(1234567), "1234567");
    assert_eq!(pad_text("42", 5), "   42");
    assert_eq!(pad_text("123456", 5), "123456");
}

#[test]
fn dedup_keeps_each_run_once() {
    let v: Vec<String> = ["a", "a", "b", "c", "c", "c", "a"].iter().map(|s| s.to_string()).collect();
    assert_eq!(dedup_texts(&v), vec!["a", "b", "c", "a"]);
    assert!(dedup_texts(&Vec::new()).is_empty());
}
