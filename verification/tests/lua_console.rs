use ce_gtk::lua_console::{
    append_transcript, CommandHistory, HistoryKey, HISTORY_BYTES_LIMIT, HISTORY_LIMIT,
    TRANSCRIPT_LIMIT,
};

fn recall_text(history: &CommandHistory, cursor: usize, key: HistoryKey) -> (usize, Option<String>) {
    history.recall(cursor, key)
}

#[test]
fn blank_commands_do_not_run_or_enter_the_history() {
    let mut history = CommandHistory::new();
    assert!(!history.remember(""));
    assert!(!history.remember(" \t\n"));
    assert_eq!(history.len(), 0);
}

#[test]
fn a_repeated_command_is_kept_once() {
    let mut history = CommandHistory::new();
    assert!(history.remember("print(1)"));
    assert!(history.remember("print(1)"));
    assert_eq!(history.len(), 1);
    assert!(history.remember("print(2)"));
    assert!(history.remember("print(1)"));
    assert_eq!(history.len(), 3);
}

#[test]
fn the_history_keeps_the_newest_hundred_commands() {
    let mut history = CommandHistory::new();
    for i in 0..(HISTORY_LIMIT + 5) {
        assert!(history.remember(&format!("x = {i}")));
    }
    assert_eq!(history.len(), HISTORY_LIMIT);
    assert_eq!(recall_text(&history, HISTORY_LIMIT, HistoryKey::Up).1.unwrap(), "x = 104");
    assert_eq!(recall_text(&history, 1, HistoryKey::Up).1.unwrap(), "x = 5");
}

#[test]
fn the_history_keeps_within_its_byte_bound() {
    let mut history = CommandHistory::new();
    let half = "a".repeat(HISTORY_BYTES_LIMIT / 2);
    assert!(history.remember(&half));
    assert!(history.remember(&format!("{half}b")));
    assert_eq!(history.len(), 1);
    assert_eq!(recall_text(&history, 1, HistoryKey::Up).1.unwrap(), format!("{half}b"));
    let too_long = "é".repeat(HISTORY_BYTES_LIMIT / 2 + 1);
    assert!(history.remember(&too_long));
    assert_eq!(history.len(), 1);
}

#[test]
fn keys_walk_the_history() {
    let mut history = CommandHistory::new();
    history.remember("one");
    history.remember("two");
    assert_eq!(recall_text(&history, 2, HistoryKey::Up), (1, Some("two".to_owned())));
    assert_eq!(recall_text(&history, 1, HistoryKey::Up), (0, Some("one".to_owned())));
    assert_eq!(recall_text(&history, 0, HistoryKey::Up), (0, None));
    assert_eq!(recall_text(&history, 0, HistoryKey::Down), (1, Some("two".to_owned())));
    assert_eq!(recall_text(&history, 1, HistoryKey::Down), (2, Some(String::new())));
    assert_eq!(recall_text(&history, 0, HistoryKey::Escape), (2, Some(String::new())));
}

#[test]
fn transcript_puts_each_message_on_its_own_line() {
    let mut transcript = String::new();
    append_transcript(&mut transcript, "> print(1)");
    append_transcript(&mut transcript, "");
    append_transcript(&mut transcript, "1");
    assert_eq!(transcript, "> print(1)\n1");
}

#[test]
fn transcript_drops_its_oldest_characters() {
    let mut transcript = "x".repeat(TRANSCRIPT_LIMIT);
    append_transcript(&mut transcript, "tail");
    assert_eq!(transcript.chars().count(), TRANSCRIPT_LIMIT);
    assert!(transcript.ends_with("x\ntail"));
    let mut wide = String::new();
    append_transcript(&mut wide, &"ü".repeat(TRANSCRIPT_LIMIT + 3));
    assert_eq!(wide.chars().count(), TRANSCRIPT_LIMIT);
}
