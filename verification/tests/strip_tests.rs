use std::borrow::Cow;

use strip_ansi::{
    contains_ansi, strip, strip_ansi_bytes, strip_ansi_escapes, strip_in_place, strip_into,
    strip_str, try_strip_str, Action, Parser, State, StripStream,
};

fn stream_all(chunks: &[&[u8]]) -> Vec<u8> {
    let mut s = StripStream::new();
    let mut out = Vec::new();
    for c in chunks {
        s.push(c, &mut out);
    }
    s.finish();
    out
}

#[test]
fn strip_removes_sgr() {
    assert_eq!(strip(b"\x1b[31mhello\x1b[0m").as_ref(), b"hello");
}

#[test]
fn strip_clean_input_borrowed() {
    let input = b"plain text";
    assert!(matches!(strip(input), Cow::Borrowed(_)));
    assert_eq!(strip(input).as_ref(), input);
}

#[test]
fn strip_osc_with_bel_and_st() {
    assert_eq!(strip(b"a\x1b]0;title\x07b").as_ref(), b"ab");
    assert_eq!(strip(b"a\x1b]8;;http://x\x1b\\link\x1b]8;;\x1b\\b").as_ref(), b"alinkb");
}

#[test]
fn strip_dcs_and_strings() {
    assert_eq!(strip(b"x\x1bP$qm\x1b\\y").as_ref(), b"xy");
    assert_eq!(strip(b"x\x1b_apc\x1b\\y").as_ref(), b"xy");
    assert_eq!(strip(b"x\x1b^pm\x1b\\y").as_ref(), b"xy");
    assert_eq!(strip(b"x\x1bXsos\x1b\\y").as_ref(), b"xy");
}

#[test]
fn strip_ss2_ss3_fe() {
    assert_eq!(strip(b"a\x1bNxb").as_ref(), b"ab");
    assert_eq!(strip(b"a\x1bOPb").as_ref(), b"ab");
    assert_eq!(strip(b"a\x1b=b").as_ref(), b"ab");
}

#[test]
fn strip_can_sub_abort_sequence() {
    // CAN and SUB abort the sequence and are dropped themselves.
    assert_eq!(strip(b"a\x1b[31\x18b").as_ref(), b"ab");
    assert_eq!(strip(b"a\x1b]0;t\x1ab").as_ref(), b"ab");
    // Outside a sequence they are content.
    assert_eq!(strip(b"a\x18b").as_ref(), b"a\x18b");
}

#[test]
fn strip_trailing_incomplete_sequence_dropped() {
    assert_eq!(strip(b"abc\x1b[3").as_ref(), b"abc");
    assert_eq!(strip(b"abc\x1b").as_ref(), b"abc");
}

#[test]
fn strip_is_idempotent_on_example() {
    let once = strip(b"\x1b[1mbold\x1b[0m and \x1b]2;t\x07plain").into_owned();
    let twice = strip(&once).into_owned();
    assert_eq!(once, twice);
    assert_eq!(once, b"bold and plain");
}

#[test]
fn strip_str_works() {
    assert_eq!(strip_str("\x1b[32mgreen\x1b[0m"), "green");
    assert!(matches!(strip_str("clean"), Cow::Borrowed("clean")));
    assert_eq!(try_strip_str("\x1b[1mé\x1b[0m").as_deref(), Some("é"));
}

#[test]
fn strip_into_appends() {
    let mut out = b"pre:".to_vec();
    strip_into(b"\x1b[1mx\x1b[0my", &mut out);
    assert_eq!(out, b"pre:xy");
}

#[test]
fn strip_in_place_shrinks() {
    let mut buf = b"\x1b[31mred\x1b[0m!".to_vec();
    let n = strip_in_place(&mut buf);
    assert_eq!(n, 4);
    assert_eq!(buf, b"red!");
}

#[test]
fn contains_ansi_detects() {
    assert!(contains_ansi(b"a\x1b[0mb"));
    assert!(!contains_ansi(b"plain"));
}

#[test]
fn drop_in_replacements() {
    assert_eq!(strip_ansi_bytes(b"\x1b[4mu\x1b[0m").as_ref(), b"u");
    assert_eq!(strip_ansi_escapes(b"\x1b[4mu\x1b[0m"), b"u".to_vec());
}

#[test]
fn stream_matches_whole_across_splits() {
    let input: &[u8] = b"one\x1b[38;5;200mtwo\x1b]0;t\x07three\x1bP$qm\x1b\\four";
    let whole = strip(input).into_owned();
    for split in 0..=input.len() {
        let (a, b) = input.split_at(split);
        assert_eq!(stream_all(&[a, b]), whole, "split at {split}");
    }
}

#[test]
fn stream_slices_yield_content() {
    let mut s = StripStream::new();
    let mut slices = s.strip_slices(b"ab\x1b[1mcd");
    let mut got = Vec::new();
    while let Some(x) = slices.next() {
        got.push(x.to_vec());
    }
    assert_eq!(got, vec![b"ab".to_vec(), b"cd".to_vec()]);
    assert!(s.is_ground());
}

#[test]
fn stream_state_carries_over() {
    let mut s = StripStream::new();
    let mut out = Vec::new();
    s.push(b"x\x1b[3", &mut out);
    assert!(!s.is_ground());
    s.push(b"1my", &mut out);
    assert!(s.is_ground());
    assert_eq!(out, b"xy");
    s.push(b"\x1b", &mut out);
    s.reset();
    assert!(s.is_ground());
}

#[test]
fn parser_feed_actions() {
    let mut p = Parser::new();
    assert_eq!(p.feed(b'a'), Action::Emit);
    assert_eq!(p.feed(0x1B), Action::Skip);
    assert_eq!(p.state(), State::EscapeStart);
    assert_eq!(p.feed(b'['), Action::Skip);
    assert_eq!(p.state(), State::CsiParam);
    assert_eq!(p.feed(b'm'), Action::Skip);
    assert!(p.is_ground());
    p.feed(0x1B);
    p.reset();
    assert!(p.is_ground());
}

#[test]
fn strip_str_borrows_exactly_when_strip_does() {
    for input in ["clean", "ab\x1b[31m", "\x1b[31mab", "a\x1b[1mb", "\x1b[1m\x1b[2mab", "\x1b[1ma\x1b[2m"] {
        let bytes_borrowed = matches!(strip(input.as_bytes()), Cow::Borrowed(_));
        let str_borrowed = matches!(strip_str(input), Cow::Borrowed(_));
        assert_eq!(bytes_borrowed, str_borrowed, "for {input:?}");
    }
    assert!(matches!(strip_str("ab\x1b[31m"), Cow::Borrowed("ab")));
    assert!(matches!(strip_str("\x1b[31mab"), Cow::Borrowed("ab")));
    assert!(matches!(strip_str("a\x1b[1mb"), Cow::Owned(_)));
    assert!(matches!(try_strip_str("\x1b[1ma"), Some(Cow::Borrowed("a"))));
}

#[test]
fn stream_in_many_chunks_matches_whole() {
    let data: &[u8] = b"a\x1b[3\x1b]0;ti\x07tle\x1b[1;2mb\x1bPq\x1b\\c";
    for split in [1usize, 2, 3, 5, 7] {
        let chunks: Vec<&[u8]> = data.chunks(split).collect();
        assert_eq!(stream_all(&chunks), strip(data).to_vec(), "chunk size {split}");
    }
}

#[test]
fn strip_str_drops_split_character() {
    let r = strip_str("\x1b\u{e9}x");
    assert!(matches!(r, Cow::Owned(_)));
    assert_eq!(r, "x");
    assert_eq!(strip_str("a\x1b\u{e9}b"), "ab");
}

#[test]
fn strip_str_valid_result_is_exact() {
    let r = strip_str("\x1b[1m\u{e9}t\u{e9}\x1b[0m");
    assert_eq!(r, "\u{e9}t\u{e9}");
    assert!(matches!(strip_str("plain \u{e9}"), Cow::Borrowed("plain \u{e9}")));
}

#[test]
fn stream_slices_after_split_escape() {
    let mut s = StripStream::new();
    let mut out = Vec::new();
    s.push(b"x\x1b[3", &mut out);
    let mut slices = s.strip_slices(b"1my\x1b[0mz");
    let mut got = Vec::new();
    while let Some(x) = slices.next() {
        got.push(x.to_vec());
    }
    assert_eq!(got, vec![b"y".to_vec(), b"z".to_vec()]);
}
