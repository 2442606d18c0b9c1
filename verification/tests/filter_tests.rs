use std::borrow::Cow;

use strip_ansi::{
    filter_strip, filter_strip_into, filter_strip_str, try_filter_strip_str, FilterConfig,
    FilterStream, OscType, SeqGroup, SeqKind, SgrContent, TerminalPreset,
};

const MIXED: &[u8] = b"a\x1b[31mred\x1b[0m\x1b]0;title\x07\x1b]52;c;YQ==\x07\x1b[21t\x1b[2Jz";

fn stream_all(config: &FilterConfig, chunks: &[&[u8]]) -> Vec<u8> {
    let mut s = FilterStream::new();
    let mut out = Vec::new();
    for c in chunks {
        s.push(c, config, &mut out);
    }
    s.finish();
    out
}

#[test]
fn strip_all_config_strips_everything() {
    let c = FilterConfig::strip_all();
    assert!(c.is_strip_all());
    assert_eq!(filter_strip(MIXED, &c).as_ref(), b"aredz");
}

#[test]
fn pass_all_config_keeps_everything() {
    let c = FilterConfig::pass_all();
    assert!(c.is_pass_all());
    assert!(matches!(filter_strip(MIXED, &c), Cow::Borrowed(_)));
    for k in [SeqKind::CsiSgr, SeqKind::Osc, SeqKind::Dcs, SeqKind::Unknown] {
        assert!(!c.should_strip(k));
    }
}

#[test]
fn sub_kind_preserves_only_that_kind() {
    let c = FilterConfig::strip_all().no_strip_kind(SeqKind::CsiSgr);
    assert_eq!(filter_strip(MIXED, &c).as_ref(), b"a\x1b[31mred\x1b[0mz");
    assert!(c.should_strip(SeqKind::CsiCursor));
}

#[test]
fn group_preserves_all_kinds_of_group() {
    let c = FilterConfig::strip_all().no_strip_group(SeqGroup::Osc);
    assert_eq!(filter_strip(MIXED, &c).as_ref(), b"ared\x1b]0;title\x07\x1b]52;c;YQ==\x07z");
}

#[test]
fn osc_type_filter() {
    let c = FilterConfig::strip_all().no_strip_group(SeqGroup::Osc).no_strip_osc_type(OscType::Title);
    assert_eq!(filter_strip(MIXED, &c).as_ref(), b"ared\x1b]0;title\x07z");
}

#[test]
fn sgr_mask_filter() {
    let c = FilterConfig::strip_all()
        .no_strip_kind(SeqKind::CsiSgr)
        .with_sgr_mask(SgrContent::truecolor());
    let input = b"\x1b[1mb\x1b[38;2;1;2;3mt";
    assert_eq!(filter_strip(input, &c).as_ref(), b"b\x1b[38;2;1;2;3mt");
}

#[test]
fn sanitize_preset_strips_echoback_vectors() {
    let c = TerminalPreset::Sanitize.to_filter_config();
    assert_eq!(filter_strip(MIXED, &c).as_ref(), b"a\x1b[31mred\x1b[0m\x1b]0;title\x07\x1b[2Jz");
}

#[test]
fn filter_into_and_str() {
    let c = TerminalPreset::Color.to_filter_config();
    let mut out = b">".to_vec();
    filter_strip_into(MIXED, &c, &mut out);
    assert_eq!(out, b">a\x1b[31mred\x1b[0mz");
    assert_eq!(filter_strip_str("\x1b[1mé\x1b]0;t\x07", &c), "\x1b[1mé");
    assert_eq!(try_filter_strip_str("x", &c).as_deref(), Some("x"));
}

#[test]
fn stream_first_chunk_matches_stateless() {
    let c = TerminalPreset::Color.to_filter_config();
    assert_eq!(stream_all(&c, &[MIXED]), filter_strip(MIXED, &c).into_owned());
}

#[test]
fn stream_strips_sequence_split_across_chunks() {
    let c = TerminalPreset::Color.to_filter_config();
    // The SGR spans the boundary: it cannot be yielded whole, so it is stripped.
    assert_eq!(stream_all(&c, &[b"a\x1b[3", b"1mb\x1b[1mc"]), b"ab\x1b[1mc");
}

#[test]
fn stream_slices_and_state() {
    let c = TerminalPreset::Color.to_filter_config();
    let mut s = FilterStream::new();
    let mut slices = s.filter_slices(b"x\x1b[1my", &c);
    let mut got = Vec::new();
    while let Some(piece) = slices.next() {
        got.push(piece.to_vec());
    }
    assert_eq!(got, vec![b"x".to_vec(), b"\x1b[1m".to_vec(), b"y".to_vec()]);
    assert!(s.is_ground());
    s.reset();
    assert!(s.is_ground());
}

#[test]
fn preset_names_and_aliases() {
    assert_eq!(TerminalPreset::from_name("PIPE"), Some(TerminalPreset::Dumb));
    assert_eq!(TerminalPreset::from_name("pager"), Some(TerminalPreset::Color));
    assert_eq!(TerminalPreset::from_name("screen"), Some(TerminalPreset::Tmux));
    assert_eq!(TerminalPreset::from_name("Safe"), Some(TerminalPreset::Sanitize));
    assert_eq!(TerminalPreset::from_name("modern"), Some(TerminalPreset::Full));
    assert_eq!(TerminalPreset::from_name("bogus"), None);
    assert_eq!(TerminalPreset::Vt100.name(), "vt100");
    assert!(TerminalPreset::Xterm.requires_unsafe());
    assert!(TerminalPreset::Full.requires_unsafe());
    assert!(!TerminalPreset::Sanitize.requires_unsafe());
}

#[test]
fn preset_gradient() {
    assert!(TerminalPreset::Dumb.to_filter_config().is_strip_all());
    assert!(TerminalPreset::Full.to_filter_config().is_pass_all());
    let vt = TerminalPreset::Vt100.to_filter_config();
    assert!(!vt.should_strip(SeqKind::CsiCursor));
    assert!(vt.should_strip(SeqKind::CsiScroll));
    let tmux = TerminalPreset::Tmux.to_filter_config();
    assert!(!tmux.should_strip(SeqKind::CsiScroll));
    assert!(tmux.should_strip(SeqKind::Osc));
    let xterm = TerminalPreset::Xterm.to_filter_config();
    assert!(!xterm.should_strip(SeqKind::Osc));
    assert!(xterm.should_strip(SeqKind::Dcs));
}

#[test]
fn filter_stream_split_between_sequences_matches_whole() {
    let c = FilterConfig::strip_all().no_strip_kind(SeqKind::CsiSgr);
    let whole: &[u8] = b"a\x1b[31mb\x1b]0;t\x07c\x1b[0md";
    let mut one = FilterStream::new();
    let mut out_whole = Vec::new();
    one.push(whole, &c, &mut out_whole);
    let (a, b) = whole.split_at(7);
    let mut two = FilterStream::new();
    let mut out_split = Vec::new();
    two.push(a, &c, &mut out_split);
    assert!(two.is_ground());
    two.push(b, &c, &mut out_split);
    assert_eq!(out_split, out_whole);
    assert_eq!(out_whole, b"a\x1b[31mbc\x1b[0md".to_vec());
}

#[test]
fn filter_strip_str_drops_split_character() {
    let cfg = FilterConfig::strip_all();
    let r = filter_strip_str("\x1b\u{e9}x", &cfg);
    assert!(matches!(r, Cow::Owned(_)));
    assert_eq!(r, "x");
    assert_eq!(filter_strip_str("a\x1b\u{e9}b", &cfg), "ab");
}

#[test]
fn stripping_filtered_output_equals_stripping_input() {
    let configs = [
        FilterConfig::strip_all(),
        FilterConfig::pass_all(),
        TerminalPreset::Sanitize.to_filter_config(),
        TerminalPreset::Xterm.to_filter_config(),
    ];
    for cfg in configs.iter() {
        let filtered = filter_strip(MIXED, cfg);
        assert_eq!(strip_ansi::strip(&filtered).as_ref(), strip_ansi::strip(MIXED).as_ref());
    }
}

#[test]
fn filter_slices_split_around_stripped_sequences() {
    let c = TerminalPreset::Color.to_filter_config();
    let mut s = FilterStream::new();
    let mut slices = s.filter_slices(b"ab\x1b[2Jcd\x1b[31me", &c);
    let mut got = Vec::new();
    while let Some(piece) = slices.next() {
        got.push(piece.to_vec());
    }
    assert_eq!(
        got,
        vec![b"ab".to_vec(), b"cd".to_vec(), b"\x1b[31m".to_vec(), b"e".to_vec()]
    );
    assert!(s.is_ground());
}
