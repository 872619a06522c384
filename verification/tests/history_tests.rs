use vshell::chars::split_lines;
use vshell::history::{History, HistoryEntry};

fn loaded_ab_then_c() -> History {
    let mut h = History::new();
    h.load_saved(&vec!["a".to_string(), "b".to_string()]);
    h.record("c".to_string());
    h
}

#[test]
fn history_record_appends_one_new() {
    let mut h = History::new();
    h.record("c".to_string());
    assert_eq!(h.len(), 1);
    assert!(matches!(&h.entries[0], HistoryEntry::New(t) if t == "c"));
}

#[test]
fn history_loaded_lines_are_saved() {
    let h = loaded_ab_then_c();
    assert_eq!(h.len(), 3);
    assert!(matches!(&h.entries[0], HistoryEntry::Saved(t) if t == "a"));
    assert!(matches!(&h.entries[1], HistoryEntry::Saved(t) if t == "b"));
    assert!(matches!(&h.entries[2], HistoryEntry::New(t) if t == "c"));
}

#[test]
fn history_display_is_one_based() {
    let h = loaded_ab_then_c();
    let lines = h.last_lines(3);
    assert_eq!(
        lines,
        vec![
            "    1  a".to_string(),
            "    2  b".to_string(),
            "    3  c".to_string(),
        ]
    );
}

#[test]
fn history_last_n_keeps_true_positions() {
    let h = loaded_ab_then_c();
    let lines = h.last_lines(2);
    assert_eq!(lines, vec!["    2  b".to_string(), "    3  c".to_string()]);
}

#[test]
fn history_numbers_align_past_nine() {
    let mut h = History::new();
    let mut i: usize = 0;
    while i < 12 {
        h.record(format!("cmd{}", i));
        i += 1;
    }
    let lines = h.last_lines(12);
    assert_eq!(lines[8], "    9  cmd8");
    assert_eq!(lines[9], "    10  cmd9");
    assert_eq!(lines[11], "    12  cmd11");
}

#[test]
fn history_promote_new_returns_unsaved_texts() {
    let mut h = loaded_ab_then_c();
    let lines = h.promote_new();
    assert_eq!(lines, vec!["c".to_string()]);
    for e in &h.entries {
        assert!(matches!(e, HistoryEntry::Saved(_)));
    }
}

#[test]
fn history_promote_new_is_idempotent() {
    let mut h = loaded_ab_then_c();
    let first = h.promote_new();
    assert_eq!(first.len(), 1);
    let second = h.promote_new();
    assert!(second.is_empty());
    assert_eq!(h.len(), 3);
}

#[test]
fn history_write_out_is_newline_terminated() {
    let h = loaded_ab_then_c();
    assert_eq!(h.write_out(), "a\nb\nc\n");
}

#[test]
fn history_write_then_load_round_trip() {
    let h = loaded_ab_then_c();
    let file_text = h.write_out();
    let mut fresh = History::new();
    fresh.load_saved(&split_lines(file_text.as_str()));
    assert_eq!(fresh.len(), 3);
    assert_eq!(fresh.texts(), h.texts());
    for e in &fresh.entries {
        assert!(matches!(e, HistoryEntry::Saved(_)));
    }
}

#[test]
fn history_texts_keep_order() {
    let h = loaded_ab_then_c();
    assert_eq!(
        h.texts(),
        vec!["a".to_string(), "b".to_string(), "c".to_string()]
    );
}
