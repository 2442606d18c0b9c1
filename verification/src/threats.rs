//! Echoback threat scanning: finds the sequences that make a terminal
//! answer back (DECRQSS, font and title queries, clipboard access, ...)
//! and reports where they are.

use vstd::prelude::*;
use vstd::string::StringExecFns;

use crate::classifier::{
    classifier_inv, classify_step, initial_classifier_state, law_classifier_inv_initial,
    law_classifier_inv_preserved, spec_osc_type, ClassifierState, ClassifyingParser, SeqAction,
    SeqDetail, SeqKind,
};
use crate::decimal::{append_decimal, ascii_text, decimal};
use crate::filter::detail_of;
use crate::stats::{classify_threat, spec_classify_threat};
use crate::text::str_eq;
use crate::threat_db::{
    builtin_spec, first_match, law_kind_name_roundtrip, opt_str, pattern_matches, spec_kind_name,
    ThreatDb,
};

verus! {

// ── Line tracking ───────────────────────────────────────────────────
/// Line and column (both 1-based) of the next byte of a stream.
#[derive(Copy, Clone, Debug, PartialEq, Eq, Structural)]
pub struct LineTracker {
    pub line: u64,
    pub pos: u64,
}

/// Advancing past one byte: a newline starts the next line.
pub open spec fn spec_advance(t: LineTracker, byte: u8) -> LineTracker {
    if byte == 0x0A {
        LineTracker { line: (t.line + 1) as u64, pos: 1 }
    } else {
        LineTracker { line: t.line, pos: (t.pos + 1) as u64 }
    }
}

impl LineTracker {
    /// At the start of a stream: line 1, column 1.
    pub fn new() -> (t: Self)
        ensures
            t == (LineTracker { line: 1, pos: 1 }),
    {
        LineTracker { line: 1, pos: 1 }
    }

    /// Advance past one byte.
    pub fn advance(&mut self, byte: u8)
        requires
            old(self).line < u64::MAX,
            old(self).pos < u64::MAX,
        ensures
            *final(self) == spec_advance(*old(self), byte),
    {
        if byte == 0x0A {
            self.line += 1;
            self.pos = 1;
        } else {
            self.pos += 1;
        }
    }
}

// ── Reports ─────────────────────────────────────────────────────────
/// A detected threat with its place in the stream.
#[derive(Clone, Debug)]
pub struct ThreatReport {
    pub threat_type: String,
    /// Line of the sequence's first byte (1-based).
    pub line: u64,
    /// Column of the sequence's first byte (1-based).
    pub pos: u64,
    /// Offset of the sequence's first byte.
    pub offset: u64,
    /// Length of the sequence in bytes.
    pub len: u64,
    pub cve: Option<String>,
    pub reference: Option<String>,
}

/// A report with its strings as character sequences.
pub struct ReportView {
    pub threat_type: Seq<char>,
    pub line: u64,
    pub pos: u64,
    pub offset: u64,
    pub len: u64,
    pub cve: Option<Seq<char>>,
    pub reference: Option<Seq<char>>,
}

impl View for ThreatReport {
    type V = ReportView;

    open spec fn view(&self) -> ReportView {
        ReportView {
            threat_type: self.threat_type@,
            line: self.line,
            pos: self.pos,
            offset: self.offset,
            len: self.len,
            cve: opt_str(self.cve),
            reference: opt_str(self.reference),
        }
    }
}

/// The CVE and reference of a built-in threat type, when one is known.
pub open spec fn spec_lookup_cve(t: Seq<char>) -> (Option<Seq<char>>, Option<Seq<char>>) {
    if t == "dcs_decrqss"@ {
        (Some("CVE-2008-2383"@), Some("https://nvd.nist.gov/vuln/detail/CVE-2008-2383"@))
    } else if t == "osc_50"@ {
        (Some("CVE-2022-45063"@), Some("https://nvd.nist.gov/vuln/detail/CVE-2022-45063"@))
    } else if t == "csi_21t"@ {
        (Some("CVE-2003-0063"@), Some("https://nvd.nist.gov/vuln/detail/CVE-2003-0063"@))
    } else {
        (None, None)
    }
}

/// Look up the CVE and reference URI of a built-in threat type; both `None`
/// when no CVE is known.
pub fn lookup_cve(threat_type: &str) -> (r: (Option<&'static str>, Option<&'static str>))
    ensures
        (match r.0 {
            Some(c) => Some(c@),
            None => None,
        }) == spec_lookup_cve(threat_type@).0,
        (match r.1 {
            Some(u) => Some(u@),
            None => None,
        }) == spec_lookup_cve(threat_type@).1,
{
    if str_eq(threat_type, "dcs_decrqss") {
        (Some("CVE-2008-2383"), Some("https://nvd.nist.gov/vuln/detail/CVE-2008-2383"))
    } else if str_eq(threat_type, "osc_50") {
        (Some("CVE-2022-45063"), Some("https://nvd.nist.gov/vuln/detail/CVE-2022-45063"))
    } else if str_eq(threat_type, "csi_21t") {
        (Some("CVE-2003-0063"), Some("https://nvd.nist.gov/vuln/detail/CVE-2003-0063"))
    } else {
        (None, None)
    }
}

/// The built-in threat type of a finished sequence, if it is an echoback
/// vector.
pub fn is_threat(detail: &SeqDetail) -> (t: Option<&'static str>)
    ensures
        t == spec_classify_threat(*detail),
{
    classify_threat(detail)
}

/// A report as one line of text:
/// `[strip-ansi:threat] type=X line=N pos=N offset=N len=N [cve=X] [ref=URI]`.
pub open spec fn spec_format_threat(r: ReportView) -> Seq<char> {
    "[strip-ansi:threat] type="@ + r.threat_type + " line="@ + ascii_text(decimal(r.line as nat))
        + " pos="@ + ascii_text(decimal(r.pos as nat)) + " offset="@ + ascii_text(
        decimal(r.offset as nat),
    ) + " len="@ + ascii_text(decimal(r.len as nat)) + match r.cve {
        Some(c) => " cve="@ + c,
        None => Seq::empty(),
    } + match r.reference {
        Some(u) => " ref="@ + u,
        None => Seq::empty(),
    }
}

/// Format a threat as a structured key=value line.
pub fn format_threat(info: &ThreatReport) -> (s: String)
    ensures
        s@ == spec_format_threat(info@),
{
    let mut s = String::new();
    s.append("[strip-ansi:threat] type=");
    s.append(info.threat_type.as_str());
    s.append(" line=");
    append_decimal(&mut s, info.line);
    s.append(" pos=");
    append_decimal(&mut s, info.pos);
    s.append(" offset=");
    append_decimal(&mut s, info.offset);
    s.append(" len=");
    append_decimal(&mut s, info.len);
    let ghost head = s@;
    match &info.cve {
        Some(c) => {
            s.append(" cve=");
            s.append(c.as_str());
        },
        None => {
            assert(s@ =~= head + Seq::<char>::empty());
        },
    }
    let ghost head2 = s@;
    match &info.reference {
        Some(u) => {
            s.append(" ref=");
            s.append(u.as_str());
        },
        None => {
            assert(s@ =~= head2 + Seq::<char>::empty());
        },
    }
    s
}

// ── Scanner ─────────────────────────────────────────────────────────
/// The abstract state of a [`ThreatScanner`].
pub struct ScanModel {
    pub cp: ClassifierState,
    /// Offset of the next byte.
    pub offset: u64,
    /// Offset, line and column where the current sequence started.
    pub start_offset: u64,
    pub start_line: u64,
    pub start_pos: u64,
    /// Line and column of the next byte.
    pub at: LineTracker,
}

/// The scanner at the start of a stream.
pub open spec fn initial_scan_model() -> ScanModel {
    ScanModel {
        cp: initial_classifier_state(),
        offset: 0,
        start_offset: 0,
        start_line: 1,
        start_pos: 1,
        at: LineTracker { line: 1, pos: 1 },
    }
}

/// The positions are consistent and the classifier invariant holds.
pub open spec fn scan_wf(s: ScanModel) -> bool {
    &&& s.start_offset <= s.offset
    &&& 1 <= s.at.line <= s.offset + 1
    &&& 1 <= s.at.pos <= s.offset + 1
    &&& classifier_inv(s.cp)
}

/// The threat type, CVE and reference a finished sequence is reported
/// with: the first matching database entry when a database is given (and
/// nothing when none matches), else the built-in classification.
pub open spec fn spec_threat_of(d: SeqDetail, db: Option<Seq<crate::threat_db::ThreatEntry>>) -> Option<(Seq<char>, Option<Seq<char>>, Option<Seq<char>>)> {
    match db {
        Some(es) => match first_match(es, d) {
            Some(i) => Some((es[i].threat_type@, opt_str(es[i].cve), opt_str(es[i].reference))),
            None => None,
        },
        None => match spec_classify_threat(d) {
            Some(t) => Some((t@, spec_lookup_cve(t@).0, spec_lookup_cve(t@).1)),
            None => None,
        },
    }
}

/// Scanning one byte: the next state and the report, if the byte ends a
/// threat sequence. A report spans from the sequence's first byte to this
/// one.
pub open spec fn scan_step(s: ScanModel, b: u8, db: Option<Seq<crate::threat_db::ThreatEntry>>) -> (ScanModel, Option<ReportView>) {
    let (m, act) = classify_step(s.cp, b);
    let s1 = if act == SeqAction::StartSeq {
        ScanModel { start_offset: s.offset, start_line: s.at.line, start_pos: s.at.pos, ..s }
    } else {
        s
    };
    let report = if act == SeqAction::EndSeq {
        match spec_threat_of(detail_of(m), db) {
            Some((t, c, u)) => Some(
                ReportView {
                    threat_type: t,
                    line: s1.start_line,
                    pos: s1.start_pos,
                    offset: s1.start_offset,
                    len: (s1.offset - s1.start_offset + 1) as u64,
                    cve: c,
                    reference: u,
                },
            ),
            None => None,
        }
    } else {
        None
    };
    (ScanModel { cp: m, offset: (s.offset + 1) as u64, at: spec_advance(s.at, b), ..s1 }, report)
}

/// Scans a stream byte by byte for echoback threats.
pub struct ThreatScanner {
    cp: ClassifyingParser,
    byte_offset: u64,
    seq_start_offset: u64,
    seq_start_line: u64,
    seq_start_pos: u64,
    tracker: LineTracker,
}

impl View for ThreatScanner {
    type V = ScanModel;

    closed spec fn view(&self) -> ScanModel {
        ScanModel {
            cp: self.cp@,
            offset: self.byte_offset,
            start_offset: self.seq_start_offset,
            start_line: self.seq_start_line,
            start_pos: self.seq_start_pos,
            at: self.tracker,
        }
    }
}

/// The view of an optional string database.
pub open spec fn db_entries(db: Option<&ThreatDb>) -> Option<Seq<crate::threat_db::ThreatEntry>> {
    match db {
        Some(d) => Some(d.spec_entries()),
        None => None,
    }
}

/// A copy of an optional string.
fn copy_opt(o: &Option<String>) -> (r: Option<String>)
    ensures
        opt_str(r) == opt_str(*o),
{
    match o {
        Some(s) => Some(s.clone()),
        None => None,
    }
}

/// An owned optional string from an optional static string.
fn own_opt(o: Option<&'static str>) -> (r: Option<String>)
    ensures
        opt_str(r) == match o {
            Some(s) => Some(s@),
            None => None,
        },
{
    match o {
        Some(s) => Some(s.to_owned()),
        None => None,
    }
}

impl ThreatScanner {
    /// A scanner at the start of a stream.
    pub fn new() -> (s: Self)
        ensures
            s@ == initial_scan_model(),
            scan_wf(s@),
    {
        proof {
            law_classifier_inv_initial();
        }
        ThreatScanner {
            cp: ClassifyingParser::new(),
            byte_offset: 0,
            seq_start_offset: 0,
            seq_start_line: 1,
            seq_start_pos: 1,
            tracker: LineTracker::new(),
        }
    }

    /// Offset of the next byte.
    pub fn offset(&self) -> (o: u64)
        ensures
            o == self@.offset,
    {
        self.byte_offset
    }

    /// Scan one byte against `db` (or the built-in patterns when there is
    /// no database); returns the report when the byte ends a threat.
    pub fn scan_byte(&mut self, b: u8, db: Option<&ThreatDb>) -> (r: Option<ThreatReport>)
        requires
            scan_wf(old(self)@),
            old(self)@.offset < u64::MAX - 1,
        ensures
            final(self)@ == scan_step(old(self)@, b, db_entries(db)).0,
            match (r, scan_step(old(self)@, b, db_entries(db)).1) {
                (Some(x), Some(v)) => x@ == v,
                (None, None) => true,
                _ => false,
            },
            scan_wf(final(self)@),
    {
        proof {
            law_classifier_inv_preserved(self.cp@, b);
        }
        let action = self.cp.feed(b);
        let mut report: Option<ThreatReport> = None;
        match action {
            SeqAction::StartSeq => {
                self.seq_start_offset = self.byte_offset;
                self.seq_start_line = self.tracker.line;
                self.seq_start_pos = self.tracker.pos;
            },
            SeqAction::EndSeq => {
                let detail = self.cp.detail();
                proof {
                    assert(detail == detail_of(self.cp@));
                }
                let len = self.byte_offset - self.seq_start_offset + 1;
                match db {
                    Some(d) => {
                        match d.classify(&detail) {
                            Some(entry) => {
                                report = Some(
                                    ThreatReport {
                                        threat_type: entry.threat_type.clone(),
                                        line: self.seq_start_line,
                                        pos: self.seq_start_pos,
                                        offset: self.seq_start_offset,
                                        len,
                                        cve: copy_opt(&entry.cve),
                                        reference: copy_opt(&entry.reference),
                                    },
                                );
                            },
                            None => {},
                        }
                    },
                    None => {
                        // No database: the built-in patterns.
                        match is_threat(&detail) {
                            Some(threat_type) => {
                                let (cve, reference) = lookup_cve(threat_type);
                                report = Some(
                                    ThreatReport {
                                        threat_type: threat_type.to_owned(),
                                        line: self.seq_start_line,
                                        pos: self.seq_start_pos,
                                        offset: self.seq_start_offset,
                                        len,
                                        cve: own_opt(cve),
                                        reference: own_opt(reference),
                                    },
                                );
                            },
                            None => {},
                        }
                    },
                }
            },
            _ => {},
        }
        self.tracker.advance(b);
        self.byte_offset += 1;
        report
    }

    /// Scan a chunk; returns the reports of the threats that end in it.
    pub fn scan_chunk(&mut self, bytes: &[u8], db: Option<&ThreatDb>) -> (reports: Vec<ThreatReport>)
        requires
            scan_wf(old(self)@),
            old(self)@.offset + bytes@.len() < u64::MAX - 1,
        ensures
            final(self)@ == scan_run(old(self)@, bytes@, db_entries(db)).0,
            reports@.map_values(|x: ThreatReport| x@) == scan_run(old(self)@, bytes@, db_entries(db)).1,
            scan_wf(final(self)@),
    {
        let ghost s0 = self@;
        let ghost dbv = db_entries(db);
        let mut reports: Vec<ThreatReport> = Vec::new();
        let n = bytes.len();
        let mut i: usize = 0;
        proof {
            assert(bytes@.take(0) =~= Seq::<u8>::empty());
            assert(reports@.map_values(|x: ThreatReport| x@) =~= Seq::<ReportView>::empty());
        }
        while i < n
            invariant
                n == bytes@.len(),
                i <= n,
                dbv == db_entries(db),
                self@ == scan_run(s0, bytes@.take(i as int), dbv).0,
                reports@.map_values(|x: ThreatReport| x@) == scan_run(s0, bytes@.take(i as int), dbv).1,
                scan_wf(self@),
                self@.offset == s0.offset + i,
                s0.offset + n < u64::MAX - 1,
            decreases n - i,
        {
            let b = bytes[i];
            proof {
                assert(bytes@.take(i + 1).drop_last() =~= bytes@.take(i as int));
                assert(bytes@.take(i + 1).last() == b);
            }
            let ghost before = reports@;
            match self.scan_byte(b, db) {
                Some(r) => {
                    reports.push(r);
                    proof {
                        assert(reports@.map_values(|x: ThreatReport| x@) =~= before.map_values(
                            |x: ThreatReport| x@,
                        ).push(r@));
                    }
                },
                None => {},
            }
            i += 1;
        }
        proof {
            assert(bytes@.take(n as int) =~= bytes@);
        }
        reports
    }
}

/// Scanning a stretch of bytes: the final state and the reports, in order.
pub open spec fn scan_run(s: ScanModel, input: Seq<u8>, db: Option<Seq<crate::threat_db::ThreatEntry>>) -> (ScanModel, Seq<ReportView>)
    decreases input.len(),
{
    if input.len() == 0 {
        (s, Seq::empty())
    } else {
        let (mid, reps) = scan_run(s, input.drop_last(), db);
        let (next, r) = scan_step(mid, input.last(), db);
        (
            next,
            match r {
                Some(v) => reps.push(v),
                None => reps,
            },
        )
    }
}

/// Every report spans bytes already scanned: it starts at or after the
/// sequence start and ends at the byte just scanned.
pub proof fn law_report_ends_at_byte(s: ScanModel, b: u8, db: Option<Seq<crate::threat_db::ThreatEntry>>)
    requires
        scan_wf(s),
        s.offset < u64::MAX - 1,
    ensures
        scan_step(s, b, db).1 matches Some(v) ==> v.offset + v.len == s.offset + 1 && v.len >= 1,
{
}

/// Scanning with the built-in threat database finds the same threats, with
/// the same CVE and reference, as scanning with no database at all.
/// (A detail's OSC type is the one its number maps to.)
pub proof fn law_builtin_db_scans_like_builtin(es: Seq<crate::threat_db::ThreatEntry>, d: SeqDetail)
    requires
        builtin_spec(es),
        d.osc_type == spec_osc_type(d.osc_number),
    ensures
        spec_threat_of(d, Some(es)) == spec_threat_of(d, None),
{
    law_kind_name_roundtrip(SeqKind::Dcs);
    law_kind_name_roundtrip(SeqKind::Osc);
    law_kind_name_roundtrip(SeqKind::CsiQuery);
    reveal_strlit("Dcs");
    reveal_strlit("Osc");
    reveal_strlit("CsiQuery");
    reveal_strlit("dcs_decrqss");
    reveal_strlit("dcs_other");
    reveal_strlit("osc_50");
    reveal_strlit("osc_clipboard");
    reveal_strlit("csi_21t");
    reveal_strlit("csi_6n");
    assert("dcs_other"@.len() != "dcs_decrqss"@.len());
    assert("dcs_other"@.len() != "osc_50"@.len());
    assert("dcs_other"@.len() != "csi_21t"@.len());
    assert("osc_clipboard"@.len() != "dcs_decrqss"@.len());
    assert("osc_clipboard"@.len() != "osc_50"@.len());
    assert("osc_clipboard"@.len() != "csi_21t"@.len());
    assert("osc_50"@.len() != "dcs_decrqss"@.len());
    assert("csi_21t"@.len() != "dcs_decrqss"@.len());
    assert("csi_21t"@.len() != "osc_50"@.len());
    assert("csi_6n"@.len() != "dcs_decrqss"@.len());
    assert("csi_6n"@[0] != "osc_50"@[0]);
    assert("csi_6n"@.len() != "csi_21t"@.len());
    assert(spec_kind_name(SeqKind::Dcs) == "Dcs"@);
    assert(spec_kind_name(SeqKind::Osc) == "Osc"@);
    assert(spec_kind_name(SeqKind::CsiQuery) == "CsiQuery"@);
    let witness: int = if d.kind == SeqKind::Dcs {
        if d.dcs_is_query { 0 } else { 1 }
    } else if d.kind == SeqKind::Osc {
        if d.osc_number == 50 { 2 } else { 3 }
    } else if d.kind == SeqKind::CsiQuery {
        if d.first_param == 21 { 4 } else { 5 }
    } else {
        6
    };
    assert forall|j: int| 0 <= j < 6 && j != witness implies !pattern_matches(#[trigger] es[j].match_pattern, d) by {}
    if witness < 6 && pattern_matches(es[witness].match_pattern, d) {
        assert(exists|i: int| 0 <= i < es.len() && pattern_matches(es[i].match_pattern, d));
        let i = first_match(es, d)->0;
        assert(i == witness);
    } else {
        assert(!exists|i: int| 0 <= i < es.len() && pattern_matches(es[i].match_pattern, d));
    }
}

} // verus!
