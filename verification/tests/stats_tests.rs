use strip_ansi::{SeqAction, SeqKind, Stats};

#[test]
fn stats_counts_plain_and_sequences() {
    let s = Stats::from_bytes(b"\x1b[31mhi there\x1b[0m\n");
    assert_eq!(s.bytes_in, 18);
    assert_eq!(s.bytes_out, 9);
    assert_eq!(s.plain_bytes, 9);
    assert_eq!(s.lines, 1);
    assert_eq!(s.words, 2);
    assert_eq!(s.chars, 9);
    assert_eq!(s.sequences, 2);
    assert_eq!(s.seq_bytes, 9);
    assert_eq!(s.by_kind[0].count, 2);
    assert_eq!(s.by_kind[0].bytes, 9);
    assert!(s.threats.is_empty());
}

#[test]
fn stats_json_exact() {
    let s = Stats::from_bytes(b"\x1b[31mhi there\x1b[0m\n");
    assert_eq!(
        s.to_json(),
        "{\"bytes_in\":18,\"bytes_out\":9,\"lines\":1,\"words\":2,\"chars\":9,\"sequences\":2,\"seq_bytes\":9,\"plain_bytes\":9,\"by_kind\":{\"csi_sgr\":{\"count\":2,\"bytes\":9}},\"threats\":[]}"
    );
}

#[test]
fn stats_threat_hit() {
    let s = Stats::from_bytes(b"a\x1b[21tb");
    assert_eq!(s.threats.len(), 1);
    assert_eq!(s.threats[0].threat_type, "csi_21t");
    assert_eq!(s.threats[0].kind, SeqKind::CsiQuery);
    assert_eq!(s.threats[0].offset, 1);
    assert_eq!(s.threats[0].len, 5);
    assert_eq!(
        s.to_json(),
        "{\"bytes_in\":7,\"bytes_out\":2,\"lines\":0,\"words\":1,\"chars\":2,\"sequences\":1,\"seq_bytes\":5,\"plain_bytes\":2,\"by_kind\":{\"csi_query\":{\"count\":1,\"bytes\":5}},\"threats\":[{\"type\":\"csi_21t\",\"kind\":\"csi_query\",\"offset\":1,\"len\":5}]}"
    );
}

#[test]
fn stats_utf8_chars_and_words() {
    let s = Stats::from_bytes("é x\ty".as_bytes());
    assert_eq!(s.chars, 5);
    assert_eq!(s.words, 3);
    assert_eq!(s.bytes_out, 6);
}

#[test]
fn stats_record_by_hand() {
    let mut s = Stats::new();
    s.record(b'a', SeqAction::Emit, SeqKind::Unknown);
    s.record(0x1B, SeqAction::StartSeq, SeqKind::Unknown);
    s.record(b'=', SeqAction::EndSeq, SeqKind::Fe);
    assert_eq!(s.bytes_in, 3);
    assert_eq!(s.sequences, 1);
    assert_eq!(s.seq_bytes, 2);
    assert_eq!(s.by_kind[15].count, 1);
    let d = Stats::default();
    assert_eq!(d.bytes_in, 0);
}

#[test]
fn stats_dcs_threat_and_clipboard() {
    let s = Stats::from_bytes(b"\x1bP$qm\x1b\\\x1b]52;c;YQ==\x07");
    let types: Vec<&str> = s.threats.iter().map(|t| t.threat_type).collect();
    assert_eq!(types, vec!["dcs_decrqss", "osc_clipboard"]);
    assert_eq!(s.threats[1].offset, 7);
}

#[test]
fn whole_sequence_counted_once_with_its_bytes() {
    let s = Stats::from_bytes(b"ab\x1b[31mcd");
    assert_eq!(s.sequences, 1);
    assert_eq!(s.seq_bytes, 5);
    assert_eq!(s.bytes_in, 9);
}
