use video_transcoder::ledger::{parse_ledger, render_entry, split_lines_exec};

#[test]
fn absent_ledger_reads_as_empty() {
    let ledger = parse_ledger(None);
    assert_eq!(ledger.len(), 0);
    assert!(!ledger.contains("anything"));
}

#[test]
fn rendered_entries_round_trip_in_any_order() {
    // Whatever order concurrent appenders land their whole lines in, every
    // identifier is read back, each from its own line.
    let one = format!(
        "{}{}{}",
        render_entry("alpha"),
        render_entry("beta"),
        render_entry("gamma")
    );
    let two = format!(
        "{}{}{}",
        render_entry("gamma"),
        render_entry("alpha"),
        render_entry("beta")
    );
    for text in [one, two] {
        let ledger = parse_ledger(Some(&text));
        assert_eq!(ledger.len(), 3);
        assert!(ledger.contains("alpha"));
        assert!(ledger.contains("beta"));
        assert!(ledger.contains("gamma"));
        assert!(!ledger.contains("delta"));
    }
}

#[test]
fn render_entry_appends_one_newline() {
    assert_eq!(render_entry("test_video"), "test_video\n");
}

#[test]
fn ledger_membership_is_exact() {
    let text = "Movie\n";
    let ledger = parse_ledger(Some(text));
    assert!(ledger.contains("Movie"));
    assert!(!ledger.contains("movie"));
    assert!(!ledger.contains("Movi"));
}

#[test]
fn split_lines_handles_crlf_and_trailing_newline() {
    let lines = split_lines_exec("a\r\nb\nc");
    assert_eq!(lines, vec!["a".to_string(), "b".to_string(), "c".to_string()]);
    let lines = split_lines_exec("a\nb\n");
    assert_eq!(lines, vec!["a".to_string(), "b".to_string()]);
    let lines = split_lines_exec("");
    assert!(lines.is_empty());
    let lines = split_lines_exec("a\n\nb");
    assert_eq!(lines, vec!["a".to_string(), "".to_string(), "b".to_string()]);
}
