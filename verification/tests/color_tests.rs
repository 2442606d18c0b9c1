use strip_ansi::detect::{
    choose_preset, choose_preset_untrusted, is_dumb_term, sgr_mask_for_level, sgr_mask_untrusted,
};
use strip_ansi::downgrade::{
    basic_color, cube_to_rgb, grey_index_to_value, nearest_16, nearest_256, nearest_axis,
    nearest_basic, nearest_greyscale, ColorDepth,
};
use strip_ansi::sgr_rewrite::rewrite_sgr_params;
use strip_ansi::{SgrContent, TerminalPreset, TransformConfig, TransformSlice, TransformStream};

#[test]
fn axis_thresholds() {
    assert_eq!(nearest_axis(0), 0);
    assert_eq!(nearest_axis(47), 0);
    assert_eq!(nearest_axis(48), 1);
    assert_eq!(nearest_axis(114), 1);
    assert_eq!(nearest_axis(115), 2);
    assert_eq!(nearest_axis(235), 5);
    assert_eq!(nearest_axis(255), 5);
}

#[test]
fn cube_and_grey_values() {
    assert_eq!(cube_to_rgb(16), (0, 0, 0));
    assert_eq!(cube_to_rgb(231), (255, 255, 255));
    assert_eq!(cube_to_rgb(196), (255, 0, 0));
    assert_eq!(grey_index_to_value(232), 8);
    assert_eq!(grey_index_to_value(255), 238);
    assert_eq!(basic_color(9), (255, 0, 0));
}

#[test]
fn nearest_palette_entries() {
    assert_eq!(nearest_256(255, 0, 0), 196);
    assert_eq!(nearest_256(128, 128, 128), 244);
    assert_eq!(nearest_256(0, 0, 0), 16);
    assert_eq!(nearest_16(5), 5);
    assert_eq!(nearest_16(196), 9);
    assert_eq!(nearest_16(244), 8);
    assert_eq!(nearest_basic(250, 250, 250), 15);
    assert_eq!(nearest_greyscale(255, 255, 255), 255);
    assert_eq!(nearest_greyscale(0, 0, 0), 232);
    assert_eq!(nearest_greyscale(255, 0, 0), 237);
}

#[test]
fn rewrite_truecolor_to_each_depth() {
    let seq = b"\x1b[38;2;255;0;0m";
    assert_eq!(rewrite_sgr_params(seq, ColorDepth::Truecolor), seq.to_vec());
    assert_eq!(rewrite_sgr_params(seq, ColorDepth::Color256), b"\x1b[38;5;196m".to_vec());
    assert_eq!(rewrite_sgr_params(seq, ColorDepth::Color16), b"\x1b[91m".to_vec());
    assert_eq!(rewrite_sgr_params(seq, ColorDepth::Greyscale), b"\x1b[38;5;237m".to_vec());
    assert_eq!(rewrite_sgr_params(seq, ColorDepth::Mono), b"\x1b[m".to_vec());
}

#[test]
fn rewrite_keeps_styles_and_drops_colors_in_mono() {
    assert_eq!(rewrite_sgr_params(b"\x1b[1;31;38;5;100;4m", ColorDepth::Mono), b"\x1b[1;4m".to_vec());
}

#[test]
fn rewrite_background_and_basic() {
    assert_eq!(rewrite_sgr_params(b"\x1b[48;5;196m", ColorDepth::Color16), b"\x1b[101m".to_vec());
    assert_eq!(rewrite_sgr_params(b"\x1b[31m", ColorDepth::Greyscale), b"\x1b[38;5;234m".to_vec());
    assert_eq!(rewrite_sgr_params(b"\x1b[31m", ColorDepth::Color256), b"\x1b[31m".to_vec());
}

#[test]
fn rewrite_malformed_passes_through() {
    assert_eq!(rewrite_sgr_params(b"\x1b[38;2;1m", ColorDepth::Color256), b"\x1b[38;2;1m".to_vec());
    assert_eq!(rewrite_sgr_params(b"\x1b[m", ColorDepth::Color256), b"\x1b[m".to_vec());
    // Components above 255 are clamped.
    assert_eq!(rewrite_sgr_params(b"\x1b[38;2;999;0;0m", ColorDepth::Color256), b"\x1b[38;5;196m".to_vec());
}

fn transform_all(depth: ColorDepth, chunks: &[&[u8]]) -> Vec<u8> {
    let cfg = TransformConfig::new(depth);
    let mut s = TransformStream::new();
    let mut out = Vec::new();
    for c in chunks {
        s.push(c, &cfg, &mut out);
    }
    s.finish();
    out
}

#[test]
fn transform_stream_rewrites_colors() {
    let out = transform_all(ColorDepth::Color256, &[b"a\x1b[38;2;255;0;0mb\x1b[1mc\x1b[2Jd"]);
    assert_eq!(out, b"a\x1b[38;5;196mb\x1b[1mc\x1b[2Jd".to_vec());
}

#[test]
fn transform_truecolor_passes_through() {
    let input: &[u8] = b"a\x1b[38;2;1;2;3mb";
    assert_eq!(transform_all(ColorDepth::Truecolor, &[input]), input.to_vec());
    assert!(TransformConfig::new(ColorDepth::Truecolor).is_passthrough());
    assert!(!TransformConfig::new(ColorDepth::Mono).is_passthrough());
}

#[test]
fn transform_split_sequence_is_stripped() {
    let out = transform_all(ColorDepth::Color16, &[b"x\x1b[38;5;", b"196my"]);
    assert_eq!(out, b"xy".to_vec());
}

#[test]
fn transform_slices_owned_and_borrowed() {
    let cfg = TransformConfig::new(ColorDepth::Color16);
    let mut s = TransformStream::new();
    let mut slices = s.transform_slices(b"p\x1b[38;5;196mq", &cfg);
    let mut kinds = Vec::new();
    let mut bytes = Vec::new();
    while let Some(sl) = slices.next() {
        kinds.push(matches!(sl, TransformSlice::Owned(_)));
        bytes.extend_from_slice(sl.as_bytes());
    }
    assert_eq!(kinds, vec![false, true, false]);
    assert_eq!(bytes, b"p\x1b[91mq".to_vec());
    assert!(s.is_ground());
}

#[test]
fn transform_can_abort_dropped() {
    assert_eq!(transform_all(ColorDepth::Color256, &[b"a\x1b[38;2\x18b"]), b"ab".to_vec());
}

#[test]
fn preset_choice_caps_at_sanitize() {
    assert_eq!(choose_preset(true, false, false, true), TerminalPreset::Sanitize);
    assert_eq!(choose_preset(false, false, false, true), TerminalPreset::Dumb);
    assert_eq!(choose_preset(true, true, false, true), TerminalPreset::Dumb);
    assert_eq!(choose_preset(true, false, true, true), TerminalPreset::Dumb);
    assert_eq!(choose_preset(true, false, false, false), TerminalPreset::Dumb);
}

#[test]
fn untrusted_preset_reads_term_only() {
    assert!(is_dumb_term(Some("dumb")));
    assert!(!is_dumb_term(Some("dumb2")));
    assert!(!is_dumb_term(None));
    assert_eq!(choose_preset_untrusted(true, Some("xterm-256color"), false), TerminalPreset::Sanitize);
    assert_eq!(choose_preset_untrusted(true, Some(""), false), TerminalPreset::Dumb);
    assert_eq!(choose_preset_untrusted(true, None, false), TerminalPreset::Dumb);
    assert_eq!(choose_preset_untrusted(true, Some("dumb"), false), TerminalPreset::Dumb);
    assert_eq!(choose_preset_untrusted(true, Some("xterm"), true), TerminalPreset::Dumb);
}

#[test]
fn sgr_masks() {
    let basic = SgrContent::basic();
    let ext = SgrContent::extended();
    let tc = SgrContent::truecolor();
    assert_eq!(sgr_mask_for_level(false, false), basic);
    assert_eq!(sgr_mask_for_level(true, false), basic.union(ext));
    assert_eq!(sgr_mask_for_level(true, true), basic.union(ext).union(tc));
    assert_eq!(sgr_mask_untrusted(Some("xterm-256color")), Some(basic.union(ext)));
    assert_eq!(sgr_mask_untrusted(Some("xterm-color")), Some(basic));
    assert_eq!(sgr_mask_untrusted(Some("256color")), Some(basic.union(ext)));
    assert_eq!(sgr_mask_untrusted(Some("dumb")), None);
    assert_eq!(sgr_mask_untrusted(Some("")), None);
    assert_eq!(sgr_mask_untrusted(None), None);
}

#[test]
fn transform_stream_split_between_sequences_matches_whole() {
    let config = TransformConfig::new(ColorDepth::Color16);
    let whole: &[u8] = b"x\x1b[38;5;196my\x1b[48;2;0;0;255mz";
    let mut one = TransformStream::new();
    let mut out_whole = Vec::new();
    one.push(whole, &config, &mut out_whole);
    let (a, b) = whole.split_at(13);
    let mut two = TransformStream::new();
    let mut out_split = Vec::new();
    two.push(a, &config, &mut out_split);
    assert!(two.is_ground());
    two.push(b, &config, &mut out_split);
    assert_eq!(out_split, out_whole);
}

#[test]
fn rewrite_returns_input_when_nothing_needs_rewriting() {
    assert_eq!(rewrite_sgr_params(b"\x1b[01m", ColorDepth::Color256), b"\x1b[01m".to_vec());
    assert_eq!(rewrite_sgr_params(b"\x1b[1;031m", ColorDepth::Color16), b"\x1b[1;031m".to_vec());
    assert_eq!(rewrite_sgr_params(b"\x1b[38;5;0196m", ColorDepth::Color256), b"\x1b[38;5;0196m".to_vec());
    assert_eq!(rewrite_sgr_params(b"\x1b[m", ColorDepth::Mono), b"\x1b[m".to_vec());
    // Something to rewrite: the whole sequence is emitted again.
    assert_eq!(rewrite_sgr_params(b"\x1b[01;38;5;196m", ColorDepth::Color16), b"\x1b[1;91m".to_vec());
}

#[test]
fn transform_slices_lends_unchanged_sequences() {
    let cfg = TransformConfig::new(ColorDepth::Color16);
    let mut s = TransformStream::new();
    let input: &[u8] = b"a\x1b[2Jb";
    let mut slices = s.transform_slices(input, &cfg);
    let mut got: Vec<(bool, Vec<u8>)> = Vec::new();
    while let Some(sl) = slices.next() {
        let borrowed = matches!(sl, TransformSlice::Borrowed(_));
        got.push((borrowed, sl.as_bytes().to_vec()));
    }
    assert_eq!(
        got,
        vec![(true, b"a".to_vec()), (true, b"\x1b[2J".to_vec()), (true, b"b".to_vec())]
    );
    assert!(s.is_ground());
}

#[test]
fn transform_slices_merge_content_and_split_sequences() {
    let cfg = TransformConfig::new(ColorDepth::Color256);
    let mut s = TransformStream::new();
    let mut slices = s.transform_slices(b"ab\x1b[2J\x1b[1m\x1b[38;2;255;0;0mcd", &cfg);
    let mut got: Vec<(bool, Vec<u8>)> = Vec::new();
    while let Some(sl) = slices.next() {
        let borrowed = matches!(sl, TransformSlice::Borrowed(_));
        got.push((borrowed, sl.as_bytes().to_vec()));
    }
    assert_eq!(
        got,
        vec![
            (true, b"ab".to_vec()),
            (true, b"\x1b[2J".to_vec()),
            (false, b"\x1b[1m".to_vec()),
            (false, b"\x1b[38;5;196m".to_vec()),
            (true, b"cd".to_vec()),
        ]
    );
}

#[test]
fn transform_slices_truecolor_lends_rest_whole() {
    let cfg = TransformConfig::new(ColorDepth::Truecolor);
    let mut s = TransformStream::new();
    let mut slices = s.transform_slices(b"x\x1b[38;2;1;2;3my", &cfg);
    let first = slices.next().unwrap();
    assert!(matches!(first, TransformSlice::Borrowed(_)));
    assert_eq!(first.as_bytes(), b"x\x1b[38;2;1;2;3my");
    assert!(slices.next().is_none());
}
