use rshell::editor::{EditAction, KeyEvent, LineEditor};

fn type_text(e: &mut LineEditor, s: &str) {
    for c in s.chars() {
        assert_eq!(e.handle_key(KeyEvent::Char(c)), EditAction::Echo(c));
    }
}

fn redraw(erase: usize, text: &str) -> EditAction {
    EditAction::Redraw { erase, text: text.to_string() }
}

#[test]
fn typing_and_submitting() {
    let mut e = LineEditor::new();
    type_text(&mut e, "ls -l");
    assert_eq!(e.buffer(), "ls -l");
    assert_eq!(e.handle_key(KeyEvent::Enter), EditAction::Submit("ls -l".to_string()));
    assert_eq!(e.buffer(), "");
    type_text(&mut e, "pwd");
    assert_eq!(e.handle_key(KeyEvent::Char('\n')), EditAction::Submit("pwd".to_string()));
}

#[test]
fn backspace_removes_last_character() {
    let mut e = LineEditor::new();
    assert_eq!(e.handle_key(KeyEvent::Backspace), EditAction::Nothing);
    type_text(&mut e, "cdx");
    assert_eq!(e.handle_key(KeyEvent::Backspace), EditAction::EraseLast);
    assert_eq!(e.buffer(), "cd");
}

#[test]
fn interrupt_terminates() {
    let mut e = LineEditor::new();
    type_text(&mut e, "abc");
    assert_eq!(e.handle_key(KeyEvent::Interrupt), EditAction::Terminate);
}

#[test]
fn tab_cycles_through_all_candidates_and_wraps() {
    let mut e = LineEditor::new();
    type_text(&mut e, "sr");
    assert_eq!(e.handle_key(KeyEvent::Char('\t')), EditAction::NeedCandidates);
    let cands = vec!["src/".to_string(), "srv.txt".to_string(), "srx".to_string()];
    assert_eq!(e.supply_candidates(cands), redraw(2, "src/"));
    assert_eq!(e.handle_key(KeyEvent::Char('\t')), redraw(4, "srv.txt"));
    assert_eq!(e.handle_key(KeyEvent::Char('\t')), redraw(7, "srx"));
    assert_eq!(e.handle_key(KeyEvent::Char('\t')), redraw(3, "src/"));
    assert_eq!(e.buffer(), "src/");
}

#[test]
fn tab_with_single_candidate_repeats_it() {
    let mut e = LineEditor::new();
    type_text(&mut e, "ca");
    assert_eq!(e.handle_key(KeyEvent::Char('\t')), EditAction::NeedCandidates);
    assert_eq!(e.supply_candidates(vec!["cat".to_string()]), redraw(2, "cat"));
    assert_eq!(e.handle_key(KeyEvent::Char('\t')), redraw(3, "cat"));
}

#[test]
fn tab_without_candidates_keeps_buffer() {
    let mut e = LineEditor::new();
    type_text(&mut e, "zz");
    assert_eq!(e.handle_key(KeyEvent::Char('\t')), EditAction::NeedCandidates);
    assert_eq!(e.supply_candidates(Vec::new()), EditAction::Nothing);
    assert_eq!(e.buffer(), "zz");
    assert!(!e.has_candidates());
}

#[test]
fn typing_clears_completion() {
    let mut e = LineEditor::new();
    type_text(&mut e, "s");
    e.handle_key(KeyEvent::Char('\t'));
    e.supply_candidates(vec!["src/".to_string(), "srv".to_string()]);
    assert!(e.has_candidates());
    type_text(&mut e, "m");
    assert!(!e.has_candidates());
    assert_eq!(e.buffer(), "src/m");
    assert_eq!(e.handle_key(KeyEvent::Char('\t')), EditAction::NeedCandidates);
}
