use strip_ansi::distill::{
    distill_line, normalize_content, parse_depth, plan_unicode_map, resolve_remove_builtins,
    resolve_tag, MapStep,
};
use strip_ansi::downgrade::ColorDepth;
use strip_ansi::unicode_map::{CharMappingSet, Direction, PairMapping, RangeMapping, UnicodeMap};

fn custom_set(name: &str, pairs: Vec<(char, &str)>, ranges: Vec<RangeMapping>) -> CharMappingSet {
    CharMappingSet {
        set_type: name.to_string(),
        description: "custom".to_string(),
        direction: Direction::Neutral,
        tags: vec![],
        ranges,
        pairs: pairs
            .into_iter()
            .map(|(from, to)| PairMapping { from, target: to.chars().collect() })
            .collect(),
    }
}

#[test]
fn builtin_lookups() {
    let m = UnicodeMap::builtin();
    assert_eq!(m.set_count(), 5);
    assert_eq!(m.lookup_char('\u{FF21}'), Some('A'));
    assert_eq!(m.lookup_char('\u{1D400}'), Some('A'));
    assert_eq!(m.lookup_char('\u{1D433}'), Some('z'));
    assert_eq!(m.lookup_char('\u{24CF}'), Some('Z'));
    assert_eq!(m.lookup_char('\u{00B2}'), Some('2'));
    assert_eq!(m.lookup_char('\u{FFE6}'), Some('\u{20A9}'));
    assert_eq!(m.lookup_char('a'), None);
    // Multi-char target: no single replacement.
    assert_eq!(m.lookup_char('\u{FB01}'), None);
    let mut out = Vec::new();
    assert!(m.lookup_into('\u{FB01}', &mut out));
    assert_eq!(out, vec!['f', 'i']);
    assert!(!m.lookup_into('q', &mut out));
    assert_eq!(out, vec!['f', 'i']);
}

#[test]
fn builtin_set_names() {
    let m = UnicodeMap::builtin();
    let names: Vec<&str> = m.sets().iter().map(|s| s.set_type.as_str()).collect();
    assert_eq!(
        names,
        vec!["fullwidth_ascii", "math_latin_bold", "latin_ligatures", "enclosed_circled_letters", "superscript_subscript"]
    );
}

#[test]
fn merge_rejects_duplicate_and_adds_new() {
    let mut m = UnicodeMap::builtin();
    let dup = custom_set("fullwidth_ascii", vec![('x', "y")], vec![]);
    assert_eq!(m.merge_set(dup), Err("fullwidth_ascii".to_string()));
    assert_eq!(m.set_count(), 5);
    assert_eq!(m.lookup_char('x'), None);
    let new = custom_set("custom", vec![('\u{3042}', "a"), ('\u{3044}', "i")], vec![]);
    assert_eq!(m.merge_set(new), Ok(()));
    assert_eq!(m.set_count(), 6);
    assert_eq!(m.lookup_char('\u{3044}'), Some('i'));
    assert_eq!(m.lookup_char('\u{FF21}'), Some('A'));
}

#[test]
fn first_set_wins_for_pairs() {
    let a = custom_set("a", vec![('\u{E000}', "1")], vec![]);
    let b = custom_set("b", vec![('\u{E000}', "2")], vec![]);
    let m = UnicodeMap::from_sets(vec![a, b]);
    assert_eq!(m.lookup_char('\u{E000}'), Some('1'));
}

#[test]
fn range_checked_before_pairs() {
    let a = custom_set("pairs", vec![('\u{E001}', "p")], vec![]);
    let b = custom_set(
        "ranges",
        vec![],
        vec![RangeMapping { from_start: 0xE000, from_end: 0xE00F, offset: -0xE000 + 0x41 }],
    );
    let m = UnicodeMap::from_sets(vec![a, b]);
    assert_eq!(m.lookup_char('\u{E001}'), Some('B'));
}

#[test]
fn range_to_invalid_scalar_maps_nothing() {
    let s = custom_set(
        "bad",
        vec![],
        vec![RangeMapping { from_start: 0xE000, from_end: 0xE000, offset: 0xD800 - 0xE000 }],
    );
    let m = UnicodeMap::from_sets(vec![s]);
    assert_eq!(m.lookup_char('\u{E000}'), None);
    let mut out = Vec::new();
    assert!(!m.lookup_into('\u{E000}', &mut out));
}

#[test]
fn remove_set_rebuilds() {
    let mut m = UnicodeMap::builtin();
    assert!(m.remove_set("latin_ligatures"));
    assert!(!m.remove_set("latin_ligatures"));
    assert_eq!(m.set_count(), 4);
    let mut out = Vec::new();
    assert!(!m.lookup_into('\u{FB01}', &mut out));
    assert_eq!(m.lookup_char('\u{FF21}'), Some('A'));
    assert_eq!(UnicodeMap::from_sets(vec![]).set_count(), 0);
}

#[test]
fn normalize_fullwidth() {
    let m = UnicodeMap::builtin();
    assert_eq!(normalize_content("\u{FF28}\u{FF45}llo".as_bytes(), &m), b"Hello".to_vec());
    assert_eq!(normalize_content("\u{FB01}le".as_bytes(), &m), b"file".to_vec());
    assert_eq!(normalize_content(b"plain ascii", &m), b"plain ascii".to_vec());
    // Unmapped non-ASCII stays.
    assert_eq!(normalize_content("caf\u{e9}".as_bytes(), &m), "caf\u{e9}".as_bytes().to_vec());
    // Invalid UTF-8 passes through.
    assert_eq!(normalize_content(b"\xEF\xBC", &m), b"\xEF\xBC".to_vec());
}

#[test]
fn depth_names() {
    assert_eq!(parse_depth("256"), Some(ColorDepth::Color256));
    assert_eq!(parse_depth("GRAY"), Some(ColorDepth::Greyscale));
    assert_eq!(parse_depth("24bit"), Some(ColorDepth::Truecolor));
    assert_eq!(parse_depth("Monochrome"), Some(ColorDepth::Mono));
    assert_eq!(parse_depth("16color"), Some(ColorDepth::Color16));
    assert_eq!(parse_depth("bogus"), None);
}

#[test]
fn tags_resolve() {
    assert_eq!(resolve_tag("@math"), vec!["math-latin", "math-greek"]);
    assert_eq!(resolve_tag("@widening"), vec!["halfwidth-katakana", "halfwidth-hangul"]);
    assert_eq!(resolve_tag("@narrowing").len(), 9);
    assert_eq!(resolve_tag("@all").len(), 11);
    assert_eq!(resolve_tag("@korean"), vec!["enclosed-cjk", "halfwidth-hangul", "cjk-compat-ideographs"]);
    assert!(resolve_tag("@bogus").is_empty());
}

#[test]
fn builtin_removals() {
    assert_eq!(resolve_remove_builtins("@security"), vec!["fullwidth_ascii", "math_latin_bold", "latin_ligatures"]);
    assert_eq!(resolve_remove_builtins("@ascii-normalize").len(), 5);
    assert_eq!(resolve_remove_builtins("math-latin-bold"), vec!["math_latin_bold"]);
    assert!(resolve_remove_builtins("nope").is_empty());
}

#[test]
fn plan_orders_steps_and_names() {
    let add: Vec<String> = ["@math", "custom/x.toml", "math-latin", "@bogus", "zzz"].iter().map(|s| s.to_string()).collect();
    let remove: Vec<String> = vec!["math-greek".to_string(), "@security".to_string()];
    let plan = plan_unicode_map(&add, &remove);
    assert_eq!(plan.steps, vec![MapStep::LoadFile(1), MapStep::UnknownTag(3)]);
    assert_eq!(plan.shipped, vec!["math-latin".to_string()]);
    assert_eq!(plan.remove_builtins, vec!["fullwidth_ascii", "math_latin_bold", "latin_ligatures"]);
}

#[test]
fn distill_line_combines() {
    let m = UnicodeMap::builtin();
    let line = "\x1b[38;2;255;0;0m\u{FF21}\x1b[0m\n".as_bytes();
    assert_eq!(distill_line(line, ColorDepth::Color256, true, Some(&m)), b"\x1b[38;5;196mA\x1b[0m\n".to_vec());
    assert_eq!(distill_line(line, ColorDepth::Truecolor, true, None), line.to_vec());
    // `31` alone carries no classified color content, so it is not rewritten.
    assert_eq!(distill_line(b"x\x1b[31m", ColorDepth::Mono, true, None), b"x\x1b[31m".to_vec());
    assert_eq!(distill_line(b"x\x1b[1;31m", ColorDepth::Mono, true, None), b"x\x1b[1m".to_vec());
}

#[test]
fn lookup_targets_and_merge_visibility() {
    let m = UnicodeMap::builtin();
    let mut out = Vec::new();
    assert!(m.lookup_into('\u{FB03}', &mut out));
    assert_eq!(out, vec!['f', 'f', 'i']);
    let mut none = vec!['q'];
    assert!(!m.lookup_into('x', &mut none));
    assert_eq!(none, vec!['q']);
    let mut one = Vec::new();
    assert!(m.lookup_into('\u{FF21}', &mut one));
    assert_eq!(Some(one[0]), m.lookup_char('\u{FF21}'));
    let mut m2 = UnicodeMap::builtin();
    let n = m2.set_count();
    assert!(m2.merge_set(custom_set("snow", vec![('\u{2603}', "*")], vec![])).is_ok());
    assert_eq!(m2.set_count(), n + 1);
    let mut v = Vec::new();
    assert!(m2.lookup_into('\u{2603}', &mut v));
    assert_eq!(v, vec!['*']);
}
