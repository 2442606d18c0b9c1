use strip_ansi::unicode_map::{CharMappingSet, Direction, RangeMapping, UnicodeMap};
use strip_ansi::unicode_toml::{
    convert_mapping_file, convert_pair, convert_range, parse_direction, parse_hex_char,
    parse_hex_cp, parse_hex_seq, trim, MappingFile, MetadataToml, PairToml, RangeToml,
};

fn range(a: &str, b: &str, t: &str) -> RangeToml {
    RangeToml { from_start: a.to_string(), from_end: b.to_string(), to_start: t.to_string() }
}

fn pair(from: &str, to: Option<&str>, to_seq: Option<&str>) -> PairToml {
    PairToml {
        from: from.to_string(),
        to: to.map(|s| s.to_string()),
        to_seq: to_seq.map(|s| s.to_string()),
    }
}

fn file(direction: &str, ranges: Vec<RangeToml>, pairs: Vec<PairToml>) -> MappingFile {
    MappingFile {
        metadata: MetadataToml {
            set_type: "custom_set".to_string(),
            description: "a custom set".to_string(),
            direction: direction.to_string(),
            tags: vec!["security".to_string()],
        },
        ranges,
        pairs,
    }
}

#[test]
fn trim_removes_unicode_white_space() {
    assert_eq!(trim("  FF01\t\n"), "FF01");
    assert_eq!(trim("\u{3000}41\u{a0}"), "41");
    assert_eq!(trim("   "), "");
    assert_eq!(trim(""), "");
    assert_eq!(trim("a b"), "a b");
}

#[test]
fn hex_cp_reads_both_cases_and_plus() {
    assert_eq!(parse_hex_cp("FF01"), Ok(0xFF01));
    assert_eq!(parse_hex_cp("ff01"), Ok(0xFF01));
    assert_eq!(parse_hex_cp(" +41 "), Ok(0x41));
    assert_eq!(parse_hex_cp("FFFFFFFF"), Ok(u32::MAX));
    assert_eq!(parse_hex_cp("0000000041"), Ok(0x41));
}

#[test]
fn hex_cp_errors_match_the_integer_reader() {
    assert_eq!(
        parse_hex_cp(""),
        Err("invalid hex codepoint \"\": cannot parse integer from empty string".to_string())
    );
    assert_eq!(
        parse_hex_cp("+"),
        Err("invalid hex codepoint \"+\": invalid digit found in string".to_string())
    );
    assert_eq!(
        parse_hex_cp("zz"),
        Err("invalid hex codepoint \"zz\": invalid digit found in string".to_string())
    );
    assert_eq!(
        parse_hex_cp("100000000"),
        Err("invalid hex codepoint \"100000000\": number too large to fit in target type".to_string())
    );
    assert_eq!(
        parse_hex_cp("-41"),
        Err("invalid hex codepoint \"-41\": invalid digit found in string".to_string())
    );
    // The first failure decides: an overflow before a bad digit.
    let e = u32::from_str_radix("FFFFFFFFFz", 16).unwrap_err();
    assert_eq!(
        parse_hex_cp("FFFFFFFFFz"),
        Err(format!("invalid hex codepoint \"FFFFFFFFFz\": {e}"))
    );
}

#[test]
fn hex_cp_agrees_with_from_str_radix() {
    for s in ["0", "41", " 10FFFF", "+", "++1", "1_0", "fffffffff", "g", "\u{3000}7f", "+ff"] {
        let expected = u32::from_str_radix(s.trim(), 16)
            .map_err(|e| format!("invalid hex codepoint {s:?}: {e}"));
        assert_eq!(parse_hex_cp(s), expected, "for {s:?}");
    }
}

#[test]
fn hex_char_refuses_surrogates_and_large_values() {
    assert_eq!(parse_hex_char("1F600"), Ok('\u{1F600}'));
    assert_eq!(
        parse_hex_char("D800"),
        Err("invalid Unicode codepoint: U+D800".to_string())
    );
    assert_eq!(
        parse_hex_char("110000"),
        Err("invalid Unicode codepoint: U+110000".to_string())
    );
}

#[test]
fn hex_seq_reads_words_in_order() {
    assert_eq!(parse_hex_seq("66  69\t6C"), Ok(vec!['f', 'i', 'l']));
    assert_eq!(parse_hex_seq("   "), Ok(vec![]));
    assert_eq!(
        parse_hex_seq("66 xx 69"),
        Err("invalid hex codepoint \"xx\": invalid digit found in string".to_string())
    );
}

#[test]
fn direction_names() {
    assert_eq!(parse_direction("narrowing"), Ok(Direction::Narrowing));
    assert_eq!(parse_direction("widening"), Ok(Direction::Widening));
    assert_eq!(parse_direction("neutral"), Ok(Direction::Neutral));
    assert_eq!(
        parse_direction("Neutral"),
        Err("invalid direction \"Neutral\": expected narrowing, widening, or neutral".to_string())
    );
}

#[test]
fn range_conversion_computes_offset() {
    let r = convert_range(&range("FF01", "FF5E", "0021")).unwrap();
    assert_eq!(r, RangeMapping { from_start: 0xFF01, from_end: 0xFF5E, offset: 0x21 - 0xFF01 });
}

#[test]
fn range_conversion_errors() {
    assert_eq!(
        convert_range(&range("0041", "0040", "0061")),
        Err("range from_end (0040) < from_start (0041)".to_string())
    );
    assert_eq!(
        convert_range(&range("41", "41", "D800")),
        Err("range target end U+D800 is not a valid Unicode codepoint".to_string())
    );
    assert_eq!(
        convert_range(&range("41", "5A", "10FFFF")),
        Err("range target end U+110018 is not a valid Unicode codepoint".to_string())
    );
    assert_eq!(
        convert_range(&range("41", "x", "61")),
        Err("invalid hex codepoint \"x\": invalid digit found in string".to_string())
    );
}

#[test]
fn pair_conversion_cases() {
    let p = convert_pair(&pair("FB01", None, Some("66 69"))).unwrap();
    assert_eq!(p.from, '\u{FB01}');
    assert_eq!(p.target, vec!['f', 'i']);
    let q = convert_pair(&pair("24B6", Some("41"), None)).unwrap();
    assert_eq!(q.target, vec!['A']);
    assert_eq!(
        convert_pair(&pair("41", Some("42"), Some("43"))).unwrap_err(),
        "pair for U+0041: specify `to` or `to_seq`, not both"
    );
    assert_eq!(
        convert_pair(&pair("41", None, None)).unwrap_err(),
        "pair for U+0041: missing `to` or `to_seq`"
    );
    assert_eq!(
        convert_pair(&pair("1F600", None, Some("  "))).unwrap_err(),
        "pair for U+1F600: target sequence is empty"
    );
}

#[test]
fn mapping_file_converts_to_a_set() {
    let f = file("narrowing", vec![range("FF21", "FF3A", "41")], vec![pair("FB01", None, Some("66 69"))]);
    let set: CharMappingSet = convert_mapping_file(f, "custom.toml").unwrap();
    assert_eq!(set.set_type, "custom_set");
    assert_eq!(set.description, "a custom set");
    assert_eq!(set.direction, Direction::Narrowing);
    assert_eq!(set.tags, vec!["security".to_string()]);
    assert_eq!(set.ranges.len(), 1);
    assert_eq!(set.ranges[0].offset, 0x41 - 0xFF21);
    assert_eq!(set.pairs[0].target, vec!['f', 'i']);
}

#[test]
fn mapping_file_reports_the_first_bad_entry() {
    let f = file("neutral", vec![range("41", "5A", "61"), range("5A", "41", "61")], vec![]);
    assert_eq!(
        convert_mapping_file(f, "m.toml").unwrap_err(),
        "m.toml: ranges[1]: range from_end (0041) < from_start (005A)"
    );
    let g = file("neutral", vec![], vec![pair("41", Some("42"), None), pair("zz", Some("42"), None)]);
    assert_eq!(
        convert_mapping_file(g, "m.toml").unwrap_err(),
        "m.toml: pairs[1]: invalid hex codepoint \"zz\": invalid digit found in string"
    );
    let h = file("sideways", vec![range("5A", "41", "61")], vec![]);
    assert!(convert_mapping_file(h, "m.toml").unwrap_err().starts_with("invalid direction"));
}

#[test]
fn load_and_merge_refuses_a_loaded_type() {
    let mut map = UnicodeMap::builtin();
    let f = file("neutral", vec![], vec![pair("2603", Some("2A"), None)]);
    let set = convert_mapping_file(f, "snow.toml").unwrap();
    assert_eq!(map.load_and_merge(set.clone()), Ok(()));
    assert_eq!(map.lookup_char('\u{2603}'), Some('*'));
    let n = map.set_count();
    assert_eq!(
        map.load_and_merge(set),
        Err("distill-ansi: --unicode-map: rejecting duplicate type \"custom_set\" (already loaded)".to_string())
    );
    assert_eq!(map.set_count(), n);
}
