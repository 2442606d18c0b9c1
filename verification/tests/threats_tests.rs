use std::io::Write;

use strip_ansi::options::{add_stripped, build_filter_config, head_cut, read_len, NoStripFlags, PresetError};
use strip_ansi::threats::{format_threat, is_threat, lookup_cve, LineTracker, ThreatReport, ThreatScanner};
use strip_ansi::{Args, FilterConfig, OscType, SeqDetail, SeqKind, SgrContent, StripWriter, TerminalPreset, ThreatDb};

#[test]
fn readme_threat_line() {
    let r = ThreatReport {
        threat_type: "csi_21t".to_string(),
        line: 12,
        pos: 3,
        offset: 142,
        len: 5,
        cve: Some("CVE-2003-0063".to_string()),
        reference: Some("https://nvd.nist.gov/vuln/detail/CVE-2003-0063".to_string()),
    };
    assert_eq!(
        format_threat(&r),
        "[strip-ansi:threat] type=csi_21t line=12 pos=3 offset=142 len=5 cve=CVE-2003-0063 ref=https://nvd.nist.gov/vuln/detail/CVE-2003-0063"
    );
}

#[test]
fn threat_line_without_cve() {
    let r = ThreatReport {
        threat_type: "csi_6n".to_string(),
        line: 1,
        pos: 1,
        offset: 0,
        len: 4,
        cve: None,
        reference: None,
    };
    assert_eq!(format_threat(&r), "[strip-ansi:threat] type=csi_6n line=1 pos=1 offset=0 len=4");
}

#[test]
fn cve_lookup() {
    assert_eq!(
        lookup_cve("osc_50"),
        (Some("CVE-2022-45063"), Some("https://nvd.nist.gov/vuln/detail/CVE-2022-45063"))
    );
    assert_eq!(lookup_cve("osc_clipboard"), (None, None));
}

#[test]
fn is_threat_patterns() {
    let mut d = SeqDetail {
        kind: SeqKind::Osc,
        sgr_content: SgrContent::empty(),
        osc_type: OscType::Clipboard,
        osc_number: 52,
        first_param: 0,
        dcs_is_query: false,
    };
    assert_eq!(is_threat(&d), Some("osc_clipboard"));
    d.osc_number = 50;
    assert_eq!(is_threat(&d), Some("osc_50"));
    d.kind = SeqKind::CsiSgr;
    assert_eq!(is_threat(&d), None);
}

#[test]
fn line_tracker_counts() {
    let mut t = LineTracker::new();
    for &b in b"ab\nc" {
        t.advance(b);
    }
    assert_eq!((t.line, t.pos), (2, 2));
}

#[test]
fn scanner_reports_position() {
    let mut s = ThreatScanner::new();
    let reports = s.scan_chunk(b"ab\n\x1b[21tX", None);
    assert_eq!(reports.len(), 1);
    let r = &reports[0];
    assert_eq!(r.threat_type, "csi_21t");
    assert_eq!((r.line, r.pos, r.offset, r.len), (2, 1, 3, 5));
    assert_eq!(r.cve.as_deref(), Some("CVE-2003-0063"));
    assert_eq!(s.offset(), 9);
}

#[test]
fn scanner_across_chunks_and_db() {
    let db = ThreatDb::builtin();
    let mut s = ThreatScanner::new();
    let mut all = s.scan_chunk(b"x\x1b]52;c;", Some(&db));
    all.extend(s.scan_chunk(b"YQ==\x07\x1b[6n", Some(&db)));
    let types: Vec<&str> = all.iter().map(|r| r.threat_type.as_str()).collect();
    assert_eq!(types, vec!["osc_clipboard", "csi_6n"]);
    assert_eq!(all[0].offset, 1);
    assert_eq!(all[0].len, 12);
    assert!(all[0].cve.is_none());
}

#[test]
fn scanner_ignores_safe_sequences() {
    let mut s = ThreatScanner::new();
    assert!(s.scan_chunk(b"\x1b[31mred\x1b[0m\x1b]0;title\x07", None).is_empty());
}

#[test]
fn build_config_presets_and_gate() {
    let flags = NoStripFlags::default();
    assert!(matches!(
        build_filter_config(Some("xterm"), false, FilterConfig::strip_all(), &flags),
        Err(PresetError::Unsafe(TerminalPreset::Xterm))
    ));
    assert!(matches!(
        build_filter_config(Some("nope"), true, FilterConfig::strip_all(), &flags),
        Err(PresetError::Unknown)
    ));
    let full = build_filter_config(Some("FULL"), true, FilterConfig::strip_all(), &flags).unwrap();
    assert!(full.is_pass_all());
    let color = build_filter_config(Some("color"), false, FilterConfig::pass_all(), &flags).unwrap();
    assert!(!color.should_strip(SeqKind::CsiSgr));
    assert!(color.should_strip(SeqKind::Osc));
}

#[test]
fn build_config_overlays_flags() {
    let mut flags = NoStripFlags::default();
    flags.osc = true;
    flags.csi_cursor = true;
    let c = build_filter_config(None, false, FilterConfig::strip_all(), &flags).unwrap();
    assert!(!c.should_strip(SeqKind::Osc));
    assert!(!c.should_strip(SeqKind::CsiCursor));
    assert!(c.should_strip(SeqKind::CsiSgr));
    let c2 = build_filter_config(None, false, FilterConfig::strip_all(), &NoStripFlags::default()).unwrap();
    assert!(c2.is_strip_all());
}

#[test]
fn args_give_their_no_strip_flags() {
    let args = Args { no_strip_osc: true, no_strip_csi_sgr: true, ..Args::default() };
    let flags = args.no_strip_flags();
    assert!(flags.osc && flags.csi_sgr);
    assert!(!flags.csi && !flags.dcs && !flags.csi_cursor);
    let c = build_filter_config(None, false, FilterConfig::strip_all(), &flags).unwrap();
    assert!(!c.should_strip(SeqKind::Osc));
    assert!(!c.should_strip(SeqKind::CsiSgr));
    assert!(c.should_strip(SeqKind::CsiCursor));
}

#[test]
fn head_cut_lines() {
    assert_eq!(head_cut(b"a\nb\nc", 2), (4, 0));
    assert_eq!(head_cut(b"abc", 1), (3, 1));
    assert_eq!(head_cut(b"a\n", 0), (0, 0));
    assert_eq!(head_cut(b"\n\n\n", 5), (3, 2));
    assert_eq!(head_cut(b"", 3), (0, 3));
}

#[test]
fn strip_writer_strips() {
    fn write_through(w: &mut StripWriter<Vec<u8>>, data: &[u8]) {
        let mut slices = w.strip_slices(data);
        let mut parts: Vec<&[u8]> = Vec::new();
        while let Some(s) = slices.next() {
            parts.push(s);
        }
        for p in parts {
            w.get_mut().write_all(p).unwrap();
        }
    }
    let mut writer = StripWriter::new(Vec::new());
    write_through(&mut writer, b"\x1b[31mhel");
    write_through(&mut writer, b"lo\x1b[0");
    write_through(&mut writer, b"m!");
    assert_eq!(writer.get_ref().len(), 6);
    assert_eq!(writer.into_inner(), b"hello!");
    let w = StripWriter::new(Vec::<u8>::new());
    assert!(w.into_inner().is_empty());
}

#[test]
fn builtin_db_and_builtin_scan_agree() {
    let input: &[u8] = b"a\x1bP$qm\x1b\\b\x1bP1|x\x1b\\\x1b]50;?\x07\x1b]52;c;?\x07\x1b[21t\x1b[6n\x1b[5n\x1b]0;t\x07";
    let db = ThreatDb::builtin();
    let with_db = ThreatScanner::new().scan_chunk(input, Some(&db));
    let without = ThreatScanner::new().scan_chunk(input, None);
    assert_eq!(with_db.len(), 6);
    assert_eq!(with_db.len(), without.len());
    for (a, b) in with_db.iter().zip(without.iter()) {
        assert_eq!(a.threat_type, b.threat_type);
        assert_eq!(a.cve, b.cve);
        assert_eq!(a.reference, b.reference);
        assert_eq!((a.line, a.pos, a.offset, a.len), (b.line, b.pos, b.offset, b.len));
    }
}

#[test]
fn detected_presets_strip_every_threat() {
    let input: &[u8] = b"\x1bP$qm\x1b\\\x1b]50;?\x07\x1b]52;c;?\x07\x1b[21t\x1b[6n";
    for p in [TerminalPreset::Dumb, TerminalPreset::Sanitize] {
        let c = p.to_filter_config();
        assert_eq!(strip_ansi::filter_strip(input, &c).as_ref(), b"");
    }
    // A user-chosen preset below sanitize may still keep some: tmux keeps CSI.
    let tmux = TerminalPreset::Tmux.to_filter_config();
    assert_eq!(strip_ansi::filter_strip(b"\x1b[21t", &tmux).as_ref(), b"\x1b[21t");
}

#[test]
fn preset_names_all_parse() {
    let names = TerminalPreset::all_names();
    assert_eq!(names.len(), 13);
    for n in &names {
        assert!(TerminalPreset::from_name(n).is_some(), "{n}");
    }
    assert_eq!(names[0], "dumb");
    assert_eq!(names[12], "modern");
}

#[test]
fn read_budget_and_stripped_count() {
    assert_eq!(read_len(None, 0, 32768), 32768);
    assert_eq!(read_len(Some(100), 0, 32768), 100);
    assert_eq!(read_len(Some(100), 60, 32768), 40);
    assert_eq!(read_len(Some(100), 100, 32768), 0);
    assert_eq!(read_len(Some(100), 150, 32768), 0);
    assert_eq!(read_len(Some(10), 0, 4), 4);
    assert_eq!(add_stripped(5, 10, 7), Some(8));
    assert_eq!(add_stripped(5, 10, 11), None);
    assert_eq!(add_stripped(u64::MAX, 10, 9), None);
}
