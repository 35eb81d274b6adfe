use rshell::history::HistoryLog;

#[test]
fn listing_is_numbered_in_insertion_order() {
    let mut h = HistoryLog::new();
    h.record("ls".to_string());
    h.record("cd src".to_string());
    h.record("echo hi".to_string());
    assert_eq!(h.len(), 3);
    assert_eq!(
        h.listing(),
        vec!["    1  ls".to_string(), "    2  cd src".to_string(), "    3  echo hi".to_string()]
    );
}

#[test]
fn k_entries_give_k_lines() {
    let mut h = HistoryLog::new();
    for i in 0..12 {
        h.record(format!("cmd{}", i));
    }
    let l = h.listing();
    assert_eq!(l.len(), 12);
    assert_eq!(l[9], "   10  cmd9");
    assert_eq!(l[11], "   12  cmd11");
}

#[test]
fn wide_numbers_are_not_cut() {
    let mut h = HistoryLog::new();
    for _ in 0..100000 {
        h.record("x".to_string());
    }
    let l = h.listing();
    assert_eq!(l[99999], "100000  x");
    assert_eq!(l[9999], "10000  x");
}

#[test]
fn empty_history_lists_nothing() {
    assert!(HistoryLog::new().listing().is_empty());
    assert_eq!(HistoryLog::from_text("").len(), 0);
}

#[test]
fn loads_lines_of_history_file() {
    let h = HistoryLog::from_text("ls\r\ncd src\n\necho a\r");
    assert_eq!(
        h.entries(),
        &vec!["ls".to_string(), "cd src".to_string(), "".to_string(), "echo a\r".to_string()]
    );
    let h2 = HistoryLog::from_text("pwd\nls\n");
    assert_eq!(h2.entries(), &vec!["pwd".to_string(), "ls".to_string()]);
}
