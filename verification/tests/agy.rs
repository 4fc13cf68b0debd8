use openab::agy_log::extract_agy_error_message;
use openab::log_scan::{
    detect_swallowed_agy_error, is_agy_log, read_log_tail, snapshot_agy_logs, LogEntry,
    MAX_LOG_SCAN_BYTES,
};
use openab::narration::{filter_narration, is_narration, is_silent, join_parts};
use openab::protobuf::{extract_text_from_step_payload, read_varint};
use openab::streaming::StreamingState;

const QUOTA_LOG: &str = "\
I0707 08:34:18.847769  84 http_helpers.go:208] URL: .../streamGenerateContent?alt=sse\n\
I0707 08:34:20.615268  84 log.go:398] RESOURCE_EXHAUSTED (code 429): Individual quota reached. Please upgrade your subscription to increase your limits. Resets in 40h52m50s.: RESOURCE_EXHAUSTED (code 429): Individual quota reached. Please upgrade your subscription to increase your limits. Resets in 40h52m50s.\n\
E0707 08:34:23.910604  84 log.go:398] agent executor error: model unreachable: RESOURCE_EXHAUSTED (code 429): Individual quota reached. Please upgrade your subscription to increase your limits. Resets in 40h52m46s.: RESOURCE_EXHAUSTED (code 429): Individual quota reached. Please upgrade your subscription to increase your limits. Resets in 40h52m46s.\n";

/// A log directory in memory.
struct LogDir {
    files: Vec<(String, Vec<u8>, i128)>,
}

impl LogDir {
    fn new() -> Self {
        LogDir { files: vec![] }
    }

    fn write(&mut self, name: &str, content: &str, modified: i128) {
        self.files
            .push((name.to_string(), content.as_bytes().to_vec(), modified));
    }

    fn append(&mut self, name: &str, content: &str, modified: i128) {
        for file in self.files.iter_mut() {
            if file.0 == name {
                file.1.extend_from_slice(content.as_bytes());
                file.2 = modified;
            }
        }
    }

    fn entries(&self) -> Vec<LogEntry> {
        self.files
            .iter()
            .map(|(name, bytes, modified)| LogEntry {
                name: Some(name.clone()),
                size: Some(bytes.len() as u64),
                modified: Some(*modified),
            })
            .collect()
    }

    /// Searches the logs that grew since the directory looked like `before`.
    fn detect(&self, before: &Vec<LogEntry>) -> Option<String> {
        let snapshot = snapshot_agy_logs(before);
        let mut scan = detect_swallowed_agy_error(&self.entries(), &snapshot);
        while let Some(log) = scan.pending() {
            let bytes = &self.files[log.entry].1;
            let start = read_log_tail(log.offset, bytes.len() as u64) as usize;
            scan.absorb(bytes.get(start..));
        }
        scan.into_found()
    }
}

#[test]
fn test_extract_text_from_step_payload_field20_field1() {
    let mut inner = Vec::new();
    inner.push(0x0A);
    inner.push(0x05);
    inner.extend_from_slice(b"hello");
    let mut blob = Vec::new();
    blob.push(0x08);
    blob.push(0x0F);
    blob.push(0xA2);
    blob.push(0x01);
    blob.push(inner.len() as u8);
    blob.extend_from_slice(&inner);
    assert_eq!(
        extract_text_from_step_payload(&blob),
        Some("hello".to_string())
    );
}

#[test]
fn test_extract_text_returns_none_without_field20() {
    let blob = vec![0x08, 0x03];
    assert_eq!(extract_text_from_step_payload(&blob), None);
}

#[test]
fn test_read_varint() {
    assert_eq!(read_varint(&[0x05]), Some((5, 1)));
    assert_eq!(read_varint(&[0xAC, 0x02]), Some((300, 2)));
    assert_eq!(read_varint(&[]), None);
}

#[test]
fn test_is_narration_true() {
    assert!(is_narration("I will fetch the latest commits."));
    assert!(is_narration(
        "I will fetch the latest commits.\nI will check the diff."
    ));
}

#[test]
fn test_is_narration_false() {
    assert!(!is_narration("Here is the result."));
    assert!(!is_narration(
        "I will fetch the commits.\nHere is the result."
    ));
    assert!(!is_narration(""));
}

#[test]
fn leading_narration_is_dropped() {
    let parts = vec![
        "I will fetch the latest commits.\nI will check the diff.".to_string(),
        "I will read the file.".to_string(),
        "The fix is confirmed! ✅".to_string(),
    ];
    assert_eq!(filter_narration(&parts), "The fix is confirmed! ✅");
}

#[test]
fn test_filter_narration_single_part_unchanged() {
    let parts = vec!["I will do something.".to_string()];
    assert_eq!(filter_narration(&parts), "I will do something.");
}

#[test]
fn test_extract_agy_error_message_dewraps_quota_error() {
    let msg = extract_agy_error_message(QUOTA_LOG).expect("should detect quota error");
    // Anchors on the most specific terminal error.
    assert!(msg.starts_with("agent executor error:"), "got: {msg}");
    // Human-readable cause is preserved.
    assert!(msg.contains("Individual quota reached"), "got: {msg}");
    assert!(msg.contains("Resets in 40h52m46s"), "got: {msg}");
    // glog's self-wrapped duplicate tail is removed.
    assert!(!msg.contains(".: "), "duplicate tail not stripped: {msg}");
}

#[test]
fn test_extract_agy_error_message_none_for_clean_log() {
    let clean = "I0707 08:34:15.727406  84 printmode.go:225] Print mode: silent auth succeeded\n\
                 I0707 08:34:15.871543  84 server.go:825] Created conversation abc\n";
    assert_eq!(extract_agy_error_message(clean), None);
}

#[test]
fn test_extract_agy_error_message_truncates_on_char_boundary() {
    // Anchor followed by >500 bytes of 2-byte chars so the 500th byte lands
    // mid-char; truncate must snap back to a boundary rather than panic.
    let line = format!(
        "E0707 08:34:23.910604  84 log.go:398] RESOURCE_EXHAUSTED {}",
        "é".repeat(400)
    );
    let msg = extract_agy_error_message(&line).expect("should detect anchored error");
    assert!(msg.starts_with("RESOURCE_EXHAUSTED"), "got: {msg}");
    assert!(msg.len() <= 500, "not capped: {} bytes", msg.len());
    // Result is valid UTF-8 (would have panicked in truncate otherwise).
    assert!(std::str::from_utf8(msg.as_bytes()).is_ok());
}

#[test]
fn test_detect_swallowed_agy_error_reads_new_turn_log() {
    let mut dir = LogDir::new();
    dir.write("cli-20260707_083407.log", QUOTA_LOG, 1);

    let detected = dir.detect(&vec![]);
    assert!(detected.is_some(), "should detect error in fresh log");
    assert!(detected.unwrap().contains("Individual quota reached"));
}

#[test]
fn test_detect_swallowed_agy_error_none_when_no_logs() {
    let dir = LogDir::new();
    assert_eq!(dir.detect(&vec![]), None);
}

#[test]
fn test_detect_swallowed_agy_error_ignores_pre_existing_error() {
    // A log that already contained an error BEFORE this turn, then had only
    // benign lines appended during the turn, must not be surfaced.
    let mut dir = LogDir::new();
    dir.write("cli-20260707_083407.log", QUOTA_LOG, 1);
    let before = dir.entries();
    dir.append(
        "cli-20260707_083407.log",
        "I0707 09:00:00.000000  84 server.go:825] turn ok\n",
        2,
    );
    assert_eq!(
        dir.detect(&before),
        None,
        "pre-existing error before the snapshot offset must not be surfaced"
    );
}

#[test]
fn test_detect_swallowed_agy_error_reads_only_appended_bytes() {
    // Log started clean; this turn appended the quota error. Snapshot offset
    // skips the clean prefix, and detection surfaces the appended error.
    let mut dir = LogDir::new();
    dir.write(
        "cli-20260707_083407.log",
        "I0707 08:00:00.000000  84 server.go:825] Created conversation abc\n",
        1,
    );
    let before = dir.entries();
    dir.append("cli-20260707_083407.log", QUOTA_LOG, 2);

    let detected = dir.detect(&before);
    assert!(detected.is_some(), "should detect error appended this turn");
    assert!(detected.unwrap().contains("Individual quota reached"));
}

#[test]
fn message_of_quota_error_is_exact() {
    assert_eq!(
        extract_agy_error_message(QUOTA_LOG).as_deref(),
        Some(
            "agent executor error: model unreachable: RESOURCE_EXHAUSTED (code 429): Individual \
             quota reached. Please upgrade your subscription to increase your limits. Resets in \
             40h52m46s."
        )
    );
}

#[test]
fn most_specific_anchor_wins() {
    let log = "agent executor error: one\nmodel unreachable: two\nRESOURCE_EXHAUSTED three";
    assert_eq!(
        extract_agy_error_message(log).as_deref(),
        Some("agent executor error: one")
    );
    let log = "model unreachable: two\nRESOURCE_EXHAUSTED three";
    assert_eq!(
        extract_agy_error_message(log).as_deref(),
        Some("model unreachable: two")
    );
    assert_eq!(
        extract_agy_error_message("x RESOURCE_EXHAUSTED three  \r\n").as_deref(),
        Some("RESOURCE_EXHAUSTED three")
    );
}

#[test]
fn last_failure_counts() {
    let log = "model unreachable: first\nfine\nmodel unreachable: second\nfine\n";
    assert_eq!(
        extract_agy_error_message(log).as_deref(),
        Some("model unreachable: second")
    );
}

#[test]
fn long_message_is_clipped_at_500_bytes() {
    let line = format!("RESOURCE_EXHAUSTED{}", "x".repeat(600));
    let msg = extract_agy_error_message(&line).unwrap();
    assert_eq!(msg, format!("RESOURCE_EXHAUSTED{}", "x".repeat(482)));
    // 19 bytes and 240 two-byte characters: one more would not fit.
    let line = format!("RESOURCE_EXHAUSTED {}", "é".repeat(400));
    let msg = extract_agy_error_message(&line).unwrap();
    assert_eq!(msg.len(), 499);
    assert_eq!(msg, format!("RESOURCE_EXHAUSTED {}", "é".repeat(240)));
}

#[test]
fn log_names() {
    assert!(is_agy_log("cli-1.log"));
    assert!(is_agy_log("cli-.log"));
    assert!(!is_agy_log("cli-1.txt"));
    assert!(!is_agy_log("xcli-1.log"));
    assert!(!is_agy_log(""));
}

#[test]
fn newest_log_is_searched_first() {
    let mut dir = LogDir::new();
    dir.write("cli-a.log", "model unreachable: old\n", 1);
    dir.write("cli-b.log", "model unreachable: new\n", 3);
    dir.write("cli-c.log", "model unreachable: middle\n", 2);
    assert_eq!(
        dir.detect(&vec![]).as_deref(),
        Some("model unreachable: new")
    );
}

#[test]
fn logs_of_one_time_keep_their_order() {
    let mut dir = LogDir::new();
    dir.write("cli-a.log", "fine\n", 5);
    dir.write("cli-b.log", "model unreachable: b\n", 5);
    dir.write("cli-c.log", "model unreachable: c\n", 5);
    assert_eq!(dir.detect(&vec![]).as_deref(), Some("model unreachable: b"));
}

#[test]
fn only_three_logs_are_searched() {
    let mut dir = LogDir::new();
    dir.write("cli-a.log", "model unreachable: old\n", 1);
    dir.write("cli-b.log", "fine\n", 2);
    dir.write("cli-c.log", "fine\n", 3);
    dir.write("cli-d.log", "fine\n", 4);
    assert_eq!(dir.detect(&vec![]), None);
}

#[test]
fn unreadable_entries_are_passed_over() {
    let entries = vec![
        LogEntry {
            name: None,
            size: Some(1),
            modified: Some(1),
        },
        LogEntry {
            name: Some("cli-a.log".to_string()),
            size: None,
            modified: Some(1),
        },
        LogEntry {
            name: Some("cli-b.log".to_string()),
            size: Some(1),
            modified: None,
        },
        LogEntry {
            name: Some("notes.txt".to_string()),
            size: Some(1),
            modified: Some(1),
        },
    ];
    let nothing = snapshot_agy_logs(&vec![]);
    assert!(detect_swallowed_agy_error(&entries, &nothing)
        .pending()
        .is_none());
}

#[test]
fn unreadable_log_does_not_end_the_search() {
    let mut dir = LogDir::new();
    dir.write("cli-a.log", "x", 2);
    dir.write("cli-b.log", "x", 1);
    let nothing = snapshot_agy_logs(&vec![]);
    let mut scan = detect_swallowed_agy_error(&dir.entries(), &nothing);
    assert_eq!(scan.pending().map(|c| c.entry), Some(0));
    scan.absorb(None);
    assert_eq!(scan.pending().map(|c| c.entry), Some(1));
    scan.absorb_text(Some("model unreachable: b"));
    assert!(scan.pending().is_none());
    assert_eq!(scan.into_found().as_deref(), Some("model unreachable: b"));
}

#[test]
fn unchanged_logs_are_not_read() {
    let mut dir = LogDir::new();
    dir.write("cli-a.log", QUOTA_LOG, 1);
    dir.write("cli-b.log", QUOTA_LOG, 2);
    let before = dir.entries();
    let snapshot = snapshot_agy_logs(&before);
    assert!(detect_swallowed_agy_error(&dir.entries(), &snapshot)
        .pending()
        .is_none());
}

#[test]
fn invalid_bytes_are_replaced() {
    let mut dir = LogDir::new();
    dir.write("cli-a.log", "", 1);
    dir.files[0].1 = b"\xFFmodel unreachable: x\xFFy\n".to_vec();
    assert_eq!(
        dir.detect(&vec![]).as_deref(),
        Some("model unreachable: x\u{FFFD}y")
    );
}

/// The message in a log that consists of the bytes.
fn message_in(bytes: &[u8]) -> Option<String> {
    let mut dir = LogDir::new();
    dir.write("cli-a.log", "", 1);
    dir.files[0].1 = bytes.to_vec();
    dir.detect(&vec![])
}

#[test]
fn cut_character_hides_nothing() {
    for c in ["é", "€", "😀"] {
        let whole = format!("{c}model unreachable: ż\nfine\n");
        for cut in 0..=c.len() {
            assert_eq!(
                message_in(&whole.as_bytes()[cut..]).as_deref(),
                Some("model unreachable: ż"),
                "{c} cut at {cut}"
            );
        }
        let clean = format!("{c}fine\n");
        assert_eq!(message_in(&clean.as_bytes()[1..]), None);
    }
}

#[test]
fn error_is_found_behind_any_bytes() {
    for front in [&b"\xE2\x82"[..], b"\xF0\x9F\x98", b"\xFF\xFE", b"\xC3\n\x80"] {
        let mut bytes = front.to_vec();
        bytes.extend_from_slice(QUOTA_LOG.as_bytes());
        assert_eq!(
            message_in(&bytes),
            extract_agy_error_message(QUOTA_LOG),
            "{front:?}"
        );
        // The bytes in front and the valid ones are decoded apart.
        let text = format!("{}{}", String::from_utf8_lossy(front), QUOTA_LOG);
        assert_eq!(String::from_utf8_lossy(&bytes), text);
    }
}

#[test]
fn tail_of_a_log() {
    assert_eq!(read_log_tail(10, 100), 10);
    assert_eq!(read_log_tail(0, MAX_LOG_SCAN_BYTES), 0);
    assert_eq!(read_log_tail(0, MAX_LOG_SCAN_BYTES + 1), 1);
    assert_eq!(
        read_log_tail(MAX_LOG_SCAN_BYTES, 3 * MAX_LOG_SCAN_BYTES),
        2 * MAX_LOG_SCAN_BYTES
    );
    assert_eq!(read_log_tail(200, 100), 200);
}

#[test]
fn narration_edges() {
    assert!(is_narration("  I will look.\n\n  I will see.  \n"));
    assert!(!is_narration("I will"));
    assert!(!is_narration("I willingly help."));
    assert!(!is_narration(" \n "));
    assert!(!is_narration("i will look."));
}

#[test]
fn narration_behind_the_answer_stays() {
    let parts = vec![
        "I will look.".to_string(),
        "Done.".to_string(),
        "I will wait.".to_string(),
    ];
    assert_eq!(filter_narration(&parts), "Done.\nI will wait.");
    assert_eq!(join_parts(&parts), "I will look.\nDone.\nI will wait.");
    assert_eq!(filter_narration(&[]), "");
    let only = vec!["I will look.".to_string(), "I will see.".to_string()];
    assert_eq!(filter_narration(&only), "I will see.");
}

#[test]
fn varint_edges() {
    let max = [0xFF, 0xFF, 0xFF, 0xFF, 0xFF, 0xFF, 0xFF, 0xFF, 0xFF, 0x01];
    assert_eq!(read_varint(&max), Some((u64::MAX, 10)));
    let large = [0xFF, 0xFF, 0xFF, 0xFF, 0xFF, 0xFF, 0xFF, 0xFF, 0xFF, 0x02];
    assert_eq!(read_varint(&large), None);
    let long = [0x80, 0x80, 0x80, 0x80, 0x80, 0x80, 0x80, 0x80, 0x80, 0x80, 0x00];
    assert_eq!(read_varint(&long), None);
    assert_eq!(read_varint(&[0x80]), None);
    assert_eq!(read_varint(&[0x80, 0x01, 0x07]), Some((128, 2)));
}

/// A field that holds bytes.
fn field(number: usize, content: &[u8]) -> Vec<u8> {
    let mut out = Vec::new();
    for n in [number * 8 + 2, content.len()] {
        let mut n = n;
        while n >= 128 {
            out.push((n % 128) as u8 | 0x80);
            n /= 128;
        }
        out.push(n as u8);
    }
    out.extend_from_slice(content);
    out
}

#[test]
fn step_text_is_read_back() {
    let text = "żółw ".repeat(200);
    let mut inner = field(1, text.as_bytes());
    inner.extend_from_slice(&field(2, b"other"));
    let mut payload = field(3, b"before");
    payload.extend_from_slice(&field(20, &inner));
    payload.extend_from_slice(&field(20, &field(1, b"second")));
    assert_eq!(
        extract_text_from_step_payload(&payload).as_deref(),
        Some(text.as_str())
    );
}

#[test]
fn other_wire_types_are_passed_over() {
    let mut payload = vec![0x09, 1, 2, 3, 4, 5, 6, 7, 8];
    payload.extend_from_slice(&[0x15, 1, 2, 3, 4]);
    payload.extend_from_slice(&[0x18, 0xAC, 0x02]);
    payload.extend_from_slice(&field(20, &field(1, b"x")));
    assert_eq!(
        extract_text_from_step_payload(&payload).as_deref(),
        Some("x")
    );
}

#[test]
fn malformed_payloads_have_no_text() {
    // Cut short.
    let whole = field(20, &field(1, b"hello"));
    assert_eq!(
        extract_text_from_step_payload(&whole[..whole.len() - 1]),
        None
    );
    // A wire type that does not exist.
    assert_eq!(extract_text_from_step_payload(&[0x0B, 0x00]), None);
    // No field 1 inside.
    assert_eq!(extract_text_from_step_payload(&field(20, &field(2, b"x"))), None);
    // Not UTF-8.
    assert_eq!(
        extract_text_from_step_payload(&field(20, &field(1, b"\xFF"))),
        None
    );
    assert_eq!(extract_text_from_step_payload(&[]), None);
}

#[test]
fn growing_text_is_shown_once() {
    let mut state = StreamingState::new(Some("conv".to_string()), -1);
    assert!(!state.had_updates());
    assert_eq!(state.emit(1, "hello").as_deref(), Some("hello"));
    assert_eq!(state.emit(1, "hello"), None);
    assert_eq!(state.emit(1, "hello world").as_deref(), Some(" world"));
    assert_eq!(state.emit(3, "żó").as_deref(), Some("żó"));
    assert_eq!(state.emit(3, "żółw").as_deref(), Some("łw"));
    assert_eq!(state.emit(2, "late").as_deref(), Some("late"));
    assert_eq!(state.emit(4, ""), None);
    assert_eq!(state.last_step_idx(), 3);
    assert!(state.had_updates());
}

#[test]
fn earlier_steps_are_not_shown() {
    let mut state = StreamingState::new(None, 5);
    assert_eq!(state.emit(5, "old"), None);
    assert_eq!(state.emit(4, "older"), None);
    assert!(!state.had_updates());
    assert_eq!(state.last_step_idx(), 5);
}

#[test]
fn turn_is_bound_to_the_new_conversation() {
    let names = |list: &[&str]| -> Vec<String> { list.iter().map(|s| s.to_string()).collect() };
    let mut state = StreamingState::new(None, -1);
    state.bind(&names(&["a", "b"]), &names(&["b", "a"]));
    assert_eq!(state.conversation_id(), None);
    state.bind(&names(&["a", "c", "d"]), &names(&["b", "a"]));
    assert_eq!(state.conversation_id(), Some("c"));
    state.bind(&names(&["e"]), &names(&[]));
    assert_eq!(state.conversation_id(), Some("c"));
}

#[test]
fn sign_for_silence() {
    assert!(is_silent("<silent />"));
    assert!(!is_silent("<silent /> "));
    assert!(!is_silent("<silent/>"));
    assert!(!is_silent(""));
}
