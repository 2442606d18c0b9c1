use strip_ansi::{ClassifyingParser, OscType, ParamState, SeqAction, SeqGroup, SeqKind, SgrContent};
/// Feed a complete byte sequence through the parser and return the
/// final `SeqAction` along with the parser state after the last byte.
fn feed_all(p: &mut ClassifyingParser, bytes: &[u8]) -> SeqAction {
    let mut last = SeqAction::Emit;
    for &b in bytes {
        last = p.feed(b);
    }
    last
}

// ── Single-param CSI ────────────────────────────────────────────

#[test]
fn single_param_first_param_equals_param_value() {
    // ESC [ 5 m  →  first_param == 5, param_value == 5
    let mut p = ClassifyingParser::new();
    let action = feed_all(&mut p, b"\x1b[5m");
    assert_eq!(action, SeqAction::EndSeq);
    assert_eq!(p.first_param(), 5);
    assert_eq!(p.param_value(), 5);
}

#[test]
fn single_param_zero() {
    // ESC [ 0 m  →  first_param == 0
    let mut p = ClassifyingParser::new();
    let action = feed_all(&mut p, b"\x1b[0m");
    assert_eq!(action, SeqAction::EndSeq);
    assert_eq!(p.first_param(), 0);
}

#[test]
fn single_param_no_digits() {
    // ESC [ m  (no digits, implicit 0)  →  first_param == 0
    let mut p = ClassifyingParser::new();
    let action = feed_all(&mut p, b"\x1b[m");
    assert_eq!(action, SeqAction::EndSeq);
    assert_eq!(p.first_param(), 0);
}

// ── Multi-digit accumulation ────────────────────────────────────

#[test]
fn multi_digit_param_accumulates_correctly() {
    // ESC [ 3 8 m  →  param_value == 38
    let mut p = ClassifyingParser::new();
    let action = feed_all(&mut p, b"\x1b[38m");
    assert_eq!(action, SeqAction::EndSeq);
    assert_eq!(p.first_param(), 38);
    assert_eq!(p.param_value(), 38);
}

#[test]
fn three_digit_param() {
    // ESC [ 1 0 7 m  →  first_param == 107
    let mut p = ClassifyingParser::new();
    let action = feed_all(&mut p, b"\x1b[107m");
    assert_eq!(action, SeqAction::EndSeq);
    assert_eq!(p.first_param(), 107);
}

// ── Multi-param CSI ─────────────────────────────────────────────

#[test]
fn multi_param_first_param_captured_at_semicolon() {
    // ESC [ 3 8 ; 5 ; 2 0 0 m  →  first_param == 38, param_value == 200
    let mut p = ClassifyingParser::new();
    let action = feed_all(&mut p, b"\x1b[38;5;200m");
    assert_eq!(action, SeqAction::EndSeq);
    assert_eq!(p.first_param(), 38);
    assert_eq!(p.param_value(), 200);
}

#[test]
fn multi_param_first_param_zero() {
    // ESC [ 0 ; 1 m  →  first_param == 0 (not confused with "not set")
    let mut p = ClassifyingParser::new();
    let action = feed_all(&mut p, b"\x1b[0;1m");
    assert_eq!(action, SeqAction::EndSeq);
    assert_eq!(p.first_param(), 0);
    assert_eq!(p.param_value(), 1);
}

#[test]
fn multi_param_second_semicolon_does_not_overwrite_first_param() {
    // ESC [ 1 ; 2 ; 3 m  →  first_param == 1 (not 2)
    let mut p = ClassifyingParser::new();
    let action = feed_all(&mut p, b"\x1b[1;2;3m");
    assert_eq!(action, SeqAction::EndSeq);
    assert_eq!(p.first_param(), 1);
    assert_eq!(p.param_value(), 3);
}

// ── Overflow saturation ─────────────────────────────────────────

#[test]
fn param_value_saturates_at_u16_max() {
    // Feed a number larger than u16::MAX (65535): "99999"
    let mut p = ClassifyingParser::new();
    let action = feed_all(&mut p, b"\x1b[99999m");
    assert_eq!(action, SeqAction::EndSeq);
    assert_eq!(p.param_value(), u16::MAX);
    assert_eq!(p.first_param(), u16::MAX);
}

#[test]
fn param_value_does_not_wrap() {
    // 65536 would wrap to 0 without saturation; must stay at u16::MAX
    let mut p = ClassifyingParser::new();
    let action = feed_all(&mut p, b"\x1b[65536m");
    assert_eq!(action, SeqAction::EndSeq);
    assert_eq!(p.param_value(), u16::MAX);
}

// ── CAN/SUB abort reset ─────────────────────────────────────────

#[test]
fn can_abort_resets_accumulator() {
    // Start a CSI sequence, then send CAN (0x18) to abort.
    // After abort, all accumulator fields must be reset.
    let mut p = ClassifyingParser::new();
    // Feed ESC [ 3 8 (partial CSI)
    p.feed(0x1B);
    p.feed(b'[');
    p.feed(b'3');
    p.feed(b'8');
    // CAN aborts the sequence
    let action = p.feed(0x18);
    assert_eq!(action, SeqAction::Emit);
    assert_eq!(p.param_value(), 0);
    assert_eq!(p.param_state(), ParamState::Inactive);
    assert_eq!(p.first_param(), 0);
}

#[test]
fn sub_abort_resets_accumulator() {
    // SUB (0x1A) also aborts.
    let mut p = ClassifyingParser::new();
    p.feed(0x1B);
    p.feed(b'[');
    p.feed(b'5');
    let action = p.feed(0x1A);
    assert_eq!(action, SeqAction::Emit);
    assert_eq!(p.param_value(), 0);
    assert_eq!(p.param_state(), ParamState::Inactive);
    assert_eq!(p.first_param(), 0);
}

#[test]
fn after_can_abort_next_sequence_starts_clean() {
    // After a CAN abort, the next CSI sequence should accumulate fresh.
    let mut p = ClassifyingParser::new();
    // Partial sequence aborted by CAN
    p.feed(0x1B);
    p.feed(b'[');
    p.feed(b'9');
    p.feed(b'9');
    p.feed(0x18); // CAN
    // New sequence
    let action = feed_all(&mut p, b"\x1b[42m");
    assert_eq!(action, SeqAction::EndSeq);
    assert_eq!(p.first_param(), 42);
    assert_eq!(p.param_value(), 42);
}

// ── Non-CSI sequences ───────────────────────────────────────────

#[test]
fn osc_sequence_param_state_stays_inactive() {
    // OSC sequences should not activate the param accumulator.
    let mut p = ClassifyingParser::new();
    // ESC ] 0 ; title BEL
    let action = feed_all(&mut p, b"\x1b]0;title\x07");
    assert_eq!(action, SeqAction::EndSeq);
    assert_eq!(p.param_state(), ParamState::Inactive);
}

#[test]
fn fe_sequence_param_state_stays_inactive() {
    // Fe sequences (ESC + single byte) should not activate accumulator.
    let mut p = ClassifyingParser::new();
    let action = feed_all(&mut p, b"\x1b=");
    assert_eq!(action, SeqAction::EndSeq);
    assert_eq!(p.param_state(), ParamState::Inactive);
}

// ── StartSeq reset ──────────────────────────────────────────────

#[test]
fn start_seq_resets_accumulator_from_previous_sequence() {
    // After a complete CSI sequence, starting a new one resets fields.
    let mut p = ClassifyingParser::new();
    feed_all(&mut p, b"\x1b[38;5;200m");
    assert_eq!(p.first_param(), 38);
    // Start a new sequence — ESC resets everything
    p.feed(0x1B);
    assert_eq!(p.param_value(), 0);
    assert_eq!(p.param_state(), ParamState::Inactive);
    assert_eq!(p.first_param(), 0);
}

// ── SGR content: pure basic ─────────────────────────────────────

#[test]
fn sgr_basic_bold() {
    // ESC [ 1 m  →  BASIC
    let mut p = ClassifyingParser::new();
    feed_all(&mut p, b"\x1b[1m");
    assert_eq!(p.sgr_content(), SgrContent::basic());
}

#[test]
fn sgr_basic_reset() {
    // ESC [ 0 m  →  BASIC (0 is in 0-29 range)
    let mut p = ClassifyingParser::new();
    feed_all(&mut p, b"\x1b[0m");
    assert_eq!(p.sgr_content(), SgrContent::basic());
}

#[test]
fn sgr_basic_fg_default() {
    // ESC [ 3 9 m  →  BASIC (39 = default fg)
    let mut p = ClassifyingParser::new();
    feed_all(&mut p, b"\x1b[39m");
    assert_eq!(p.sgr_content(), SgrContent::basic());
}

#[test]
fn sgr_basic_bg_default() {
    // ESC [ 4 9 m  →  BASIC (49 = default bg)
    let mut p = ClassifyingParser::new();
    feed_all(&mut p, b"\x1b[49m");
    assert_eq!(p.sgr_content(), SgrContent::basic());
}

#[test]
fn sgr_basic_bright_fg() {
    // ESC [ 9 1 m  →  BASIC (90-97 range)
    let mut p = ClassifyingParser::new();
    feed_all(&mut p, b"\x1b[91m");
    assert_eq!(p.sgr_content(), SgrContent::basic());
}

#[test]
fn sgr_basic_bright_bg() {
    // ESC [ 1 0 3 m  →  BASIC (100-107 range)
    let mut p = ClassifyingParser::new();
    feed_all(&mut p, b"\x1b[103m");
    assert_eq!(p.sgr_content(), SgrContent::basic());
}

#[test]
fn sgr_basic_multiple_params() {
    // ESC [ 1 ; 4 ; 2 9 m  →  BASIC (all in 0-29)
    let mut p = ClassifyingParser::new();
    feed_all(&mut p, b"\x1b[1;4;29m");
    assert_eq!(p.sgr_content(), SgrContent::basic());
}

// ── SGR content: pure extended ──────────────────────────────────

#[test]
fn sgr_extended_fg() {
    // ESC [ 3 8 ; 5 ; 2 0 0 m  →  EXTENDED
    let mut p = ClassifyingParser::new();
    feed_all(&mut p, b"\x1b[38;5;200m");
    assert_eq!(p.sgr_content(), SgrContent::extended());
}

#[test]
fn sgr_extended_bg() {
    // ESC [ 4 8 ; 5 ; 1 0 0 m  →  EXTENDED
    let mut p = ClassifyingParser::new();
    feed_all(&mut p, b"\x1b[48;5;100m");
    assert_eq!(p.sgr_content(), SgrContent::extended());
}

// ── SGR content: pure truecolor ─────────────────────────────────

#[test]
fn sgr_truecolor_fg() {
    // ESC [ 3 8 ; 2 ; 2 5 5 ; 0 ; 0 m  →  TRUECOLOR
    let mut p = ClassifyingParser::new();
    feed_all(&mut p, b"\x1b[38;2;255;0;0m");
    assert_eq!(p.sgr_content(), SgrContent::truecolor());
}

#[test]
fn sgr_truecolor_bg() {
    // ESC [ 4 8 ; 2 ; 0 ; 1 2 8 ; 2 5 5 m  →  TRUECOLOR
    let mut p = ClassifyingParser::new();
    feed_all(&mut p, b"\x1b[48;2;0;128;255m");
    assert_eq!(p.sgr_content(), SgrContent::truecolor());
}

// ── SGR content: mixed sequences ────────────────────────────────

#[test]
fn sgr_mixed_basic_and_truecolor() {
    // ESC [ 1 ; 3 8 ; 2 ; 2 5 5 ; 0 ; 0 ; 4 m  →  BASIC | TRUECOLOR
    // (bold=1 and underline=4 are basic; RGB color is truecolor)
    let mut p = ClassifyingParser::new();
    feed_all(&mut p, b"\x1b[1;38;2;255;0;0;4m");
    assert_eq!(
        p.sgr_content(),
        SgrContent::basic() | SgrContent::truecolor()
    );
}

#[test]
fn sgr_mixed_basic_and_extended() {
    // ESC [ 1 ; 3 8 ; 5 ; 2 0 0 m  →  BASIC | EXTENDED
    let mut p = ClassifyingParser::new();
    feed_all(&mut p, b"\x1b[1;38;5;200m");
    assert_eq!(
        p.sgr_content(),
        SgrContent::basic() | SgrContent::extended()
    );
}

#[test]
fn sgr_mixed_all_three() {
    // ESC [ 1 ; 3 8 ; 5 ; 1 0 0 ; 4 8 ; 2 ; 0 ; 0 ; 2 5 5 m
    // → BASIC | EXTENDED | TRUECOLOR
    let mut p = ClassifyingParser::new();
    feed_all(&mut p, b"\x1b[1;38;5;100;48;2;0;0;255m");
    assert_eq!(
        p.sgr_content(),
        SgrContent::basic() | SgrContent::extended() | SgrContent::truecolor()
    );
}

#[test]
fn sgr_38_alone_sets_no_bit() {
    // ESC [ 3 8 m  →  38 alone (no mode) → no bit set (malformed)
    // 38 transitions to AwaitMode; final byte finalizes with no mode seen
    // AwaitMode + non-{2,5} → recover to Normal, no bit set
    let mut p = ClassifyingParser::new();
    feed_all(&mut p, b"\x1b[38m");
    assert_eq!(p.sgr_content(), SgrContent::empty());
}

// ── SGR content: malformed recovery ─────────────────────────────

#[test]
fn sgr_malformed_38_no_mode() {
    // ESC [ 3 8 ; m  →  38 then empty param → AwaitMode sees 0 → recover
    let mut p = ClassifyingParser::new();
    feed_all(&mut p, b"\x1b[38;m");
    assert_eq!(p.sgr_content(), SgrContent::empty());
    assert_eq!(p.param_state(), ParamState::Normal);
}

#[test]
fn sgr_malformed_38_5_no_index() {
    // ESC [ 3 8 ; 5 ; m  →  EXTENDED set, Skip1 → Normal on empty param
    let mut p = ClassifyingParser::new();
    feed_all(&mut p, b"\x1b[38;5;m");
    assert_eq!(p.sgr_content(), SgrContent::extended());
    assert_eq!(p.param_state(), ParamState::Normal);
}

#[test]
fn sgr_malformed_48_2_no_rgb() {
    // ESC [ 4 8 ; 2 ; m  →  TRUECOLOR set, Skip3 → Skip2 on empty param
    // then final byte finalizes remaining skips
    let mut p = ClassifyingParser::new();
    feed_all(&mut p, b"\x1b[48;2;m");
    assert_eq!(p.sgr_content(), SgrContent::truecolor());
}

#[test]
fn sgr_trailing_semicolon() {
    // ESC [ 1 ; m  →  BASIC (1 is basic), trailing ; has empty param (0)
    // 0 is in 0-29 range → BASIC again (OR is idempotent)
    let mut p = ClassifyingParser::new();
    feed_all(&mut p, b"\x1b[1;m");
    assert_eq!(p.sgr_content(), SgrContent::basic());
}

#[test]
fn sgr_can_abort_resets_sgr_content() {
    // Partial SGR sequence aborted by CAN → sgr_content reset to empty
    let mut p = ClassifyingParser::new();
    p.feed(0x1B);
    p.feed(b'[');
    p.feed(b'1');
    p.feed(0x18); // CAN
    assert_eq!(p.sgr_content(), SgrContent::empty());
}

#[test]
fn sgr_content_resets_on_new_sequence() {
    // After a complete SGR sequence, starting a new one resets sgr_content.
    let mut p = ClassifyingParser::new();
    feed_all(&mut p, b"\x1b[1m");
    assert_eq!(p.sgr_content(), SgrContent::basic());
    // Start a new sequence
    p.feed(0x1B);
    assert_eq!(p.sgr_content(), SgrContent::empty());
}

#[test]
fn sgr_non_sgr_csi_has_empty_content() {
    // Non-SGR CSI (e.g. cursor up ESC[1A) — the param accumulator runs
    // but sgr_content is only meaningful for CsiSgr sequences.
    // The kind should be CsiCursor, not CsiSgr.
    let mut p = ClassifyingParser::new();
    feed_all(&mut p, b"\x1b[1A");
    assert_eq!(p.current_kind(), SeqKind::CsiCursor);
    // sgr_content is not meaningful for non-SGR sequences;
    // the important invariant is that kind != CsiSgr.
}

// ── OSC type mapping ────────────────────────────────────────────

/// Helper: build an OSC sequence with a given numeric first param.
fn osc_seq(n: u16) -> Vec<u8> {
    let mut seq = vec![0x1B, b']'];
    seq.extend_from_slice(n.to_string().as_bytes());
    seq.push(b';');
    seq.push(0x07); // BEL terminator
    seq
}

/// Helper: build an OSC sequence terminated by ST (ESC \).
fn osc_seq_st(n: u16) -> Vec<u8> {
    let mut seq = vec![0x1B, b']'];
    seq.extend_from_slice(n.to_string().as_bytes());
    seq.push(b';');
    seq.push(0x1B);
    seq.push(b'\\');
    seq
}

#[test]
fn osc_0_maps_to_title() {
    let mut p = ClassifyingParser::new();
    let action = feed_all(&mut p, &osc_seq(0));
    assert_eq!(action, SeqAction::EndSeq);
    assert_eq!(p.osc_type(), OscType::Title);
    assert_eq!(p.osc_number(), 0);
}

#[test]
fn osc_1_maps_to_title() {
    let mut p = ClassifyingParser::new();
    feed_all(&mut p, &osc_seq(1));
    assert_eq!(p.osc_type(), OscType::Title);
    assert_eq!(p.osc_number(), 1);
}

#[test]
fn osc_2_maps_to_title() {
    let mut p = ClassifyingParser::new();
    feed_all(&mut p, &osc_seq(2));
    assert_eq!(p.osc_type(), OscType::Title);
    assert_eq!(p.osc_number(), 2);
}

#[test]
fn osc_7_maps_to_working_dir() {
    let mut p = ClassifyingParser::new();
    feed_all(&mut p, &osc_seq(7));
    assert_eq!(p.osc_type(), OscType::WorkingDir);
    assert_eq!(p.osc_number(), 7);
}

#[test]
fn osc_8_maps_to_hyperlink() {
    let mut p = ClassifyingParser::new();
    feed_all(&mut p, &osc_seq(8));
    assert_eq!(p.osc_type(), OscType::Hyperlink);
    assert_eq!(p.osc_number(), 8);
}

#[test]
fn osc_9_maps_to_notify() {
    let mut p = ClassifyingParser::new();
    feed_all(&mut p, &osc_seq(9));
    assert_eq!(p.osc_type(), OscType::Notify);
    assert_eq!(p.osc_number(), 9);
}

#[test]
fn osc_52_maps_to_clipboard() {
    let mut p = ClassifyingParser::new();
    feed_all(&mut p, &osc_seq(52));
    assert_eq!(p.osc_type(), OscType::Clipboard);
    assert_eq!(p.osc_number(), 52);
}

#[test]
fn osc_133_maps_to_shell_integ() {
    let mut p = ClassifyingParser::new();
    feed_all(&mut p, &osc_seq(133));
    assert_eq!(p.osc_type(), OscType::ShellInteg);
    assert_eq!(p.osc_number(), 133);
}

#[test]
fn osc_777_maps_to_notify() {
    let mut p = ClassifyingParser::new();
    feed_all(&mut p, &osc_seq(777));
    assert_eq!(p.osc_type(), OscType::Notify);
    assert_eq!(p.osc_number(), 777);
}

#[test]
fn osc_1337_maps_to_iterm2() {
    let mut p = ClassifyingParser::new();
    feed_all(&mut p, &osc_seq(1337));
    assert_eq!(p.osc_type(), OscType::ITerm2);
    assert_eq!(p.osc_number(), 1337);
}

#[test]
fn osc_50_maps_to_other() {
    let mut p = ClassifyingParser::new();
    feed_all(&mut p, &osc_seq(50));
    assert_eq!(p.osc_type(), OscType::Other);
    assert_eq!(p.osc_number(), 50);
}

#[test]
fn osc_999_maps_to_other() {
    let mut p = ClassifyingParser::new();
    feed_all(&mut p, &osc_seq(999));
    assert_eq!(p.osc_type(), OscType::Other);
    assert_eq!(p.osc_number(), 999);
}

// ── OSC raw number preserved for Other ──────────────────────────

#[test]
fn osc_other_raw_number_preserved_50() {
    // OSC 50 → OscType::Other, osc_number == 50
    let mut p = ClassifyingParser::new();
    feed_all(&mut p, &osc_seq(50));
    assert_eq!(p.osc_type(), OscType::Other);
    assert_eq!(p.osc_number(), 50);
}

#[test]
fn osc_other_raw_number_preserved_st_terminator() {
    // OSC 50 terminated by ST (ESC \) → same result
    let mut p = ClassifyingParser::new();
    feed_all(&mut p, &osc_seq_st(50));
    assert_eq!(p.osc_type(), OscType::Other);
    assert_eq!(p.osc_number(), 50);
}

#[test]
fn osc_type_resets_on_new_sequence() {
    // After an OSC sequence, starting a new one resets osc_type.
    let mut p = ClassifyingParser::new();
    feed_all(&mut p, &osc_seq(8));
    assert_eq!(p.osc_type(), OscType::Hyperlink);
    // Start a new sequence
    p.feed(0x1B);
    assert_eq!(p.osc_type(), OscType::Unknown);
    assert_eq!(p.osc_number(), 0);
}

#[test]
fn osc_can_abort_resets_osc_fields() {
    // Partial OSC sequence aborted by CAN → osc_type/osc_number reset
    let mut p = ClassifyingParser::new();
    p.feed(0x1B);
    p.feed(b']');
    p.feed(b'8');
    p.feed(0x18); // CAN
    assert_eq!(p.osc_type(), OscType::Unknown);
    assert_eq!(p.osc_number(), 0);
}

#[test]
fn osc_no_semicolon_finalized_at_terminator() {
    // OSC with no semicolon (just a number + BEL) → finalized at EndSeq
    let mut seq = vec![0x1B, b']'];
    seq.extend_from_slice(b"8");
    seq.push(0x07); // BEL with no semicolon
    let mut p = ClassifyingParser::new();
    let action = feed_all(&mut p, &seq);
    assert_eq!(action, SeqAction::EndSeq);
    assert_eq!(p.osc_type(), OscType::Hyperlink);
    assert_eq!(p.osc_number(), 8);
}

// ── CsiQuery sub-kind ───────────────────────────────────────────

#[test]
fn csi_21t_classifies_as_csi_query() {
    // ESC [ 2 1 t  →  CsiQuery (title report, CVE-2003-0063)
    let mut p = ClassifyingParser::new();
    let action = feed_all(&mut p, b"\x1b[21t");
    assert_eq!(action, SeqAction::EndSeq);
    assert_eq!(p.current_kind(), SeqKind::CsiQuery);
    assert_eq!(p.first_param(), 21);
}

#[test]
fn csi_8_40_132t_classifies_as_csi_window() {
    // ESC [ 8 ; 4 0 ; 1 3 2 t  →  CsiWindow (resize, benign)
    // first_param=8, NOT 21, so must be CsiWindow
    let mut p = ClassifyingParser::new();
    let action = feed_all(&mut p, b"\x1b[8;40;132t");
    assert_eq!(action, SeqAction::EndSeq);
    assert_eq!(p.current_kind(), SeqKind::CsiWindow);
    assert_eq!(p.first_param(), 8);
}

#[test]
fn csi_0t_classifies_as_csi_window() {
    // ESC [ 0 t  →  CsiWindow (first_param=0, not 21)
    let mut p = ClassifyingParser::new();
    let action = feed_all(&mut p, b"\x1b[0t");
    assert_eq!(action, SeqAction::EndSeq);
    assert_eq!(p.current_kind(), SeqKind::CsiWindow);
    assert_eq!(p.first_param(), 0);
}

#[test]
fn csi_6n_classifies_as_csi_query() {
    // ESC [ 6 n  →  CsiQuery (cursor position report, echoback vector)
    let mut p = ClassifyingParser::new();
    let action = feed_all(&mut p, b"\x1b[6n");
    assert_eq!(action, SeqAction::EndSeq);
    assert_eq!(p.current_kind(), SeqKind::CsiQuery);
    assert_eq!(p.first_param(), 6);
}

#[test]
fn csi_5n_classifies_as_csi_device_status() {
    // ESC [ 5 n  →  CsiDeviceStatus (device status report, benign)
    let mut p = ClassifyingParser::new();
    let action = feed_all(&mut p, b"\x1b[5n");
    assert_eq!(action, SeqAction::EndSeq);
    assert_eq!(p.current_kind(), SeqKind::CsiDeviceStatus);
    assert_eq!(p.first_param(), 5);
}

#[test]
fn csi_query_group_is_csi() {
    // CsiQuery must map to SeqGroup::Csi
    assert_eq!(SeqKind::CsiQuery.group(), SeqGroup::Csi);
}

// ── DCS query detection ─────────────────────────────────────────

#[test]
fn dcs_dollar_q_sets_dcs_is_query() {
    // ESC P $ q <data> ESC \  →  DECRQSS, dcs_is_query = true
    let mut p = ClassifyingParser::new();
    let action = feed_all(&mut p, b"\x1bP$qm\x1b\\");
    assert_eq!(action, SeqAction::EndSeq);
    assert_eq!(p.current_kind(), SeqKind::Dcs);
    assert!(p.dcs_is_query());
}

#[test]
fn dcs_dollar_q_detail_has_dcs_is_query() {
    // Verify SeqDetail.dcs_is_query is populated from the classifier.
    let mut p = ClassifyingParser::new();
    feed_all(&mut p, b"\x1bP$qm\x1b\\");
    let d = p.detail();
    assert!(d.dcs_is_query);
    assert_eq!(d.kind, SeqKind::Dcs);
}

#[test]
fn dcs_other_body_not_query() {
    // ESC P 0 ; 1 | data ESC \  →  DCS with other body, dcs_is_query = false
    let mut p = ClassifyingParser::new();
    let action = feed_all(&mut p, b"\x1bP0;1|data\x1b\\");
    assert_eq!(action, SeqAction::EndSeq);
    assert_eq!(p.current_kind(), SeqKind::Dcs);
    assert!(!p.dcs_is_query());
}

#[test]
fn dcs_dollar_x_not_query() {
    // ESC P $ x <data> ESC \  →  $ then x (not q), dcs_is_query = false
    let mut p = ClassifyingParser::new();
    let action = feed_all(&mut p, b"\x1bP$x\x1b\\");
    assert_eq!(action, SeqAction::EndSeq);
    assert_eq!(p.current_kind(), SeqKind::Dcs);
    assert!(!p.dcs_is_query());
}

#[test]
fn dcs_empty_body_not_query() {
    // ESC P ESC \  →  empty DCS body, dcs_is_query = false
    let mut p = ClassifyingParser::new();
    let action = feed_all(&mut p, b"\x1bP\x1b\\");
    assert_eq!(action, SeqAction::EndSeq);
    assert_eq!(p.current_kind(), SeqKind::Dcs);
    assert!(!p.dcs_is_query());
}

#[test]
fn dcs_is_query_resets_on_new_sequence() {
    // After a DECRQSS, starting a new sequence resets dcs_is_query.
    let mut p = ClassifyingParser::new();
    feed_all(&mut p, b"\x1bP$qm\x1b\\");
    assert!(p.dcs_is_query());
    // Start a new sequence — ESC resets everything.
    p.feed(0x1B);
    assert!(!p.dcs_is_query());
}

#[test]
fn dcs_is_query_resets_on_can_abort() {
    // Partial DCS $q aborted by CAN → dcs_is_query reset.
    let mut p = ClassifyingParser::new();
    p.feed(0x1B);
    p.feed(b'P');
    p.feed(b'$');
    p.feed(b'q');
    assert!(p.dcs_is_query());
    // CAN aborts the sequence.
    p.feed(0x18);
    assert!(!p.dcs_is_query());
}

#[test]
fn dcs_is_query_resets_on_sub_abort() {
    // Partial DCS $q aborted by SUB → dcs_is_query reset.
    let mut p = ClassifyingParser::new();
    p.feed(0x1B);
    p.feed(b'P');
    p.feed(b'$');
    p.feed(b'q');
    assert!(p.dcs_is_query());
    // SUB aborts the sequence.
    p.feed(0x1A);
    assert!(!p.dcs_is_query());
}

#[test]
fn dcs_q_without_dollar_not_query() {
    // ESC P q <data> ESC \  →  first body byte is q (not $), dcs_is_query = false
    let mut p = ClassifyingParser::new();
    let action = feed_all(&mut p, b"\x1bPq\x1b\\");
    assert_eq!(action, SeqAction::EndSeq);
    assert!(!p.dcs_is_query());
}

// ── Compile-time size assertion (P7) ────────────────────────────

#[test]
fn classifying_parser_size_le_12_bytes() {
    assert!(
        core::mem::size_of::<ClassifyingParser>() <= 12,
        "ClassifyingParser must be ≤ 12 bytes, got {}",
        core::mem::size_of::<ClassifyingParser>()
    );
}

#[test]
fn dcs_query_detected_only_for_dollar_q() {
    for (body, query) in [(&b"$qm"[..], true), (b"", false), (b"q", false), (b"$x", false), (b"0;1|data", false), (b"$q", true)] {
        let mut p = ClassifyingParser::new();
        let mut last = SeqAction::Emit;
        let mut bytes = b"\x1bP".to_vec();
        bytes.extend_from_slice(body);
        bytes.extend_from_slice(b"\x1b\\");
        for b in bytes {
            last = p.feed(b);
        }
        assert_eq!(last, SeqAction::EndSeq);
        assert_eq!(p.current_kind(), SeqKind::Dcs);
        assert_eq!(p.dcs_is_query(), query, "body {body:?}");
    }
}

#[test]
fn csi_kind_from_final_byte_and_first_param() {
    for (seq, kind) in [
        (&b"\x1b[21t"[..], SeqKind::CsiQuery),
        (b"\x1b[8;40;132t", SeqKind::CsiWindow),
        (b"\x1b[6n", SeqKind::CsiQuery),
        (b"\x1b[5n", SeqKind::CsiDeviceStatus),
        (b"\x1b[2J", SeqKind::CsiErase),
        (b"\x1b[?25h", SeqKind::CsiMode),
        (b"\x1b[1;31m", SeqKind::CsiSgr),
        (b"\x1b[3z", SeqKind::CsiOther),
    ] {
        let mut p = ClassifyingParser::new();
        let mut last = SeqAction::Emit;
        for &b in seq {
            last = p.feed(b);
        }
        assert_eq!(last, SeqAction::EndSeq);
        assert_eq!(p.current_kind(), kind, "{seq:?}");
    }
}
