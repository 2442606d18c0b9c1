use strip_ansi::{OscType, SeqDetail, SeqKind, SgrContent, ThreatDb, ThreatEntry, ThreatMatch};

fn make_detail(kind: SeqKind) -> SeqDetail {
    SeqDetail {
        kind,
        sgr_content: SgrContent::empty(),
        osc_type: OscType::Unknown,
        osc_number: 0,
        first_param: 0,
        dcs_is_query: false,
    }
}

// ── 11.5.10: builtin DB matches all known patterns ──────────

#[test]
fn builtin_matches_dcs_decrqss() {
    let db = ThreatDb::builtin();
    let mut d = make_detail(SeqKind::Dcs);
    d.dcs_is_query = true;
    let entry = db.classify(&d).expect("should match dcs_decrqss");
    assert_eq!(entry.threat_type, "dcs_decrqss");
    assert_eq!(entry.cve.as_deref(), Some("CVE-2008-2383"));
}

#[test]
fn builtin_matches_dcs_other() {
    let db = ThreatDb::builtin();
    let d = make_detail(SeqKind::Dcs);
    let entry = db.classify(&d).expect("should match dcs_other");
    assert_eq!(entry.threat_type, "dcs_other");
    assert!(entry.cve.is_none());
}

#[test]
fn builtin_matches_osc_50() {
    let db = ThreatDb::builtin();
    let mut d = make_detail(SeqKind::Osc);
    d.osc_number = 50;
    let entry = db.classify(&d).expect("should match osc_50");
    assert_eq!(entry.threat_type, "osc_50");
    assert_eq!(entry.cve.as_deref(), Some("CVE-2022-45063"));
}

#[test]
fn builtin_matches_osc_clipboard() {
    let db = ThreatDb::builtin();
    let mut d = make_detail(SeqKind::Osc);
    d.osc_number = 52;
    d.osc_type = OscType::Clipboard;
    let entry = db.classify(&d).expect("should match osc_clipboard");
    assert_eq!(entry.threat_type, "osc_clipboard");
}

#[test]
fn builtin_matches_csi_21t() {
    let db = ThreatDb::builtin();
    let mut d = make_detail(SeqKind::CsiQuery);
    d.first_param = 21;
    let entry = db.classify(&d).expect("should match csi_21t");
    assert_eq!(entry.threat_type, "csi_21t");
    assert_eq!(entry.cve.as_deref(), Some("CVE-2003-0063"));
}

#[test]
fn builtin_matches_csi_6n() {
    let db = ThreatDb::builtin();
    let mut d = make_detail(SeqKind::CsiQuery);
    d.first_param = 6;
    let entry = db.classify(&d).expect("should match csi_6n");
    assert_eq!(entry.threat_type, "csi_6n");
}

#[test]
fn builtin_no_match_for_sgr() {
    let db = ThreatDb::builtin();
    let d = make_detail(SeqKind::CsiSgr);
    assert!(db.classify(&d).is_none());
}

#[test]
fn builtin_has_6_entries() {
    let db = ThreatDb::builtin();
    assert_eq!(db.len(), 6);
}

fn external_entry(threat_type: &str, kind: &str, osc_number: Option<u16>) -> ThreatEntry {
    ThreatEntry {
        threat_type: threat_type.to_string(),
        match_pattern: ThreatMatch {
            kind: kind.to_string(),
            osc_number,
            first_param: None,
            dcs_is_query: None,
        },
        cve: Some("CVE-2024-99999".to_string()),
        description: "Custom threat".to_string(),
        reference: Some("https://example.com/advisory".to_string()),
    }
}

#[test]
fn external_duplicate_type_rejected() {
    let mut db = ThreatDb::builtin();
    let rejected = db.merge_external(vec![external_entry("osc_50", "Osc", Some(50))]);
    // Still exactly 6 entries: the built-in is immutable.
    assert_eq!(db.len(), 6);
    assert_eq!(rejected, vec!["osc_50".to_string()]);
    let mut d = make_detail(SeqKind::Osc);
    d.osc_number = 50;
    let entry = db.classify(&d).expect("should match osc_50");
    assert_eq!(entry.cve.as_deref(), Some("CVE-2022-45063"));
}

#[test]
fn external_adds_new_entry() {
    let mut db = ThreatDb::builtin();
    let rejected = db.merge_external(vec![external_entry("custom_osc_999", "Osc", Some(999))]);
    assert!(rejected.is_empty());
    assert_eq!(db.len(), 7);
    let mut d = make_detail(SeqKind::Osc);
    d.osc_number = 999;
    let entry = db.classify(&d).expect("should match custom_osc_999");
    assert_eq!(entry.threat_type, "custom_osc_999");
    assert_eq!(entry.cve.as_deref(), Some("CVE-2024-99999"));
    assert_eq!(entry.reference.as_deref(), Some("https://example.com/advisory"));
}

#[test]
fn external_empty_list_returns_builtins() {
    let mut db = ThreatDb::builtin();
    let rejected = db.merge_external(Vec::new());
    assert!(rejected.is_empty());
    assert_eq!(db.len(), 6);
}

#[test]
fn external_duplicates_within_list_rejected() {
    let mut db = ThreatDb::builtin();
    let rejected = db.merge_external(vec![
        external_entry("custom_a", "Osc", Some(990)),
        external_entry("custom_a", "Osc", Some(991)),
    ]);
    assert_eq!(db.len(), 7);
    assert_eq!(rejected, vec!["custom_a".to_string()]);
}

#[test]
fn external_unknown_kind_never_matches() {
    let mut db = ThreatDb::builtin();
    db.merge_external(vec![external_entry("custom_bogus", "NotAKind", None)]);
    for kind in [SeqKind::Osc, SeqKind::CsiSgr, SeqKind::Unknown, SeqKind::Fe] {
        let d = make_detail(kind);
        if let Some(e) = db.classify(&d) {
            assert_ne!(e.threat_type, "custom_bogus");
        }
    }
}

#[test]
fn builtin_entries_in_order() {
    let db = ThreatDb::builtin();
    let types: Vec<&str> = db.entries().iter().map(|e| e.threat_type.as_str()).collect();
    assert_eq!(types, vec!["dcs_decrqss", "dcs_other", "osc_50", "osc_clipboard", "csi_21t", "csi_6n"]);
    assert!(!db.is_empty());
}

#[test]
fn clone_keeps_classification() {
    let db = ThreatDb::builtin().clone();
    let mut d = make_detail(SeqKind::CsiQuery);
    d.first_param = 21;
    assert_eq!(db.classify(&d).map(|e| e.threat_type.as_str()), Some("csi_21t"));
}
