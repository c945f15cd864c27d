use dbase_sql::repl::{ReplAction, ReplEvent, ReplState};
use dbase_sql::split::split_statements;

#[test]
fn two_lines_one_dispatch() {
    // two physical lines form one statement; exactly one dispatch happens,
    // of the concatenated text
    let mut s = ReplState::new();
    let a = s.on_event(ReplEvent::Line("SELECT 1".to_string()));
    assert!(matches!(a, ReplAction::KeepReading));
    let a = s.on_event(ReplEvent::Line("WHERE x=1;".to_string()));
    match a {
        ReplAction::Dispatch(text) => {
            assert_eq!(text, "SELECT 1 WHERE x=1; ");
            assert_eq!(split_statements(&text), vec!["SELECT 1 WHERE x=1".to_string()]);
        }
        _ => panic!("expected a dispatch"),
    }
}

#[test]
fn single_complete_line_dispatches_at_once() {
    let mut s = ReplState::new();
    let a = s.on_event(ReplEvent::Line("SELECT 1;".to_string()));
    match a {
        ReplAction::Dispatch(text) => assert_eq!(text, "SELECT 1; "),
        _ => panic!("expected a dispatch"),
    }
}

#[test]
fn trailing_whitespace_does_not_hide_the_semicolon() {
    let mut s = ReplState::new();
    let a = s.on_event(ReplEvent::Line("SELECT 1;  \t".to_string()));
    assert!(matches!(a, ReplAction::Dispatch(_)));
}

#[test]
fn buffer_cleared_after_dispatch() {
    let mut s = ReplState::new();
    s.on_event(ReplEvent::Line("SELECT 1;".to_string()));
    let a = s.on_event(ReplEvent::Line("SELECT 2;".to_string()));
    match a {
        ReplAction::Dispatch(text) => assert_eq!(text, "SELECT 2; "),
        _ => panic!("expected a dispatch"),
    }
}

#[test]
fn interrupt_closes_and_discards_the_buffer() {
    let mut s = ReplState::new();
    assert!(matches!(
        s.on_event(ReplEvent::Line("SELECT".to_string())),
        ReplAction::KeepReading
    ));
    assert!(matches!(s.on_event(ReplEvent::Interrupted), ReplAction::Close));
    // the discarded text is gone: the next complete line dispatches alone
    let a = s.on_event(ReplEvent::Line("1;".to_string()));
    match a {
        ReplAction::Dispatch(text) => assert_eq!(text, "1; "),
        _ => panic!("expected a dispatch"),
    }
}

#[test]
fn end_of_input_closes() {
    let mut s = ReplState::new();
    assert!(matches!(s.on_event(ReplEvent::EndOfInput), ReplAction::Close));
}

#[test]
fn semicolon_only_inside_buffer_does_not_dispatch() {
    // the buffer must end with ';' after trimming; one in the middle is not
    // enough
    let mut s = ReplState::new();
    let a = s.on_event(ReplEvent::Line("SELECT 1; SELECT".to_string()));
    assert!(matches!(a, ReplAction::KeepReading));
}
