//! Metrics collected over a stream: raw `u64` counts, no percentages.
//!
//! Collection rides on [`ClassifyingParser`]: a few increments at each
//! sequence end and one per content byte.

use vstd::prelude::*;
use vstd::string::StringExecFns;

use crate::classifier::{
    classify_step, initial_classifier_state, ClassifierState, ClassifyingParser, OscType,
    SeqAction, SeqDetail, SeqKind,
};
use crate::decimal::{append_decimal, ascii_text, decimal};
use crate::filter::detail_of;

verus! {

/// Number of [`SeqKind`] variants.
pub const NUM_KINDS: usize = 18;

/// Per-kind count: how many sequences and how many bytes.
#[derive(Clone, Copy, Debug, Default)]
pub struct KindCount {
    pub count: u64,
    pub bytes: u64,
}

/// A detected threat.
#[derive(Clone, Copy, Debug)]
pub struct ThreatHit {
    /// Threat type name (e.g. `"osc_50"`).
    pub threat_type: &'static str,
    pub kind: SeqKind,
    /// Offset of the sequence's first byte.
    pub offset: u64,
    /// Length of the sequence in bytes.
    pub len: u64,
}

/// Raw stream metrics. All counts are `u64`.
#[derive(Clone, Debug)]
pub struct Stats {
    pub bytes_in: u64,
    pub bytes_out: u64,
    pub lines: u64,
    pub words: u64,
    pub chars: u64,
    pub sequences: u64,
    pub seq_bytes: u64,
    pub plain_bytes: u64,
    /// Per-kind counts, indexed by [`kind_index`].
    pub by_kind: [KindCount; NUM_KINDS],
    pub threats: Vec<ThreatHit>,
    /// Bytes of the sequence in progress.
    pub seq_len: u64,
    /// Offset where the sequence in progress started.
    pub seq_start_offset: u64,
    /// Whether the last content byte was part of a word.
    pub in_word: bool,
}

/// The abstract value of a [`Stats`].
pub struct StatsState {
    pub bytes_in: u64,
    pub bytes_out: u64,
    pub lines: u64,
    pub words: u64,
    pub chars: u64,
    pub sequences: u64,
    pub seq_bytes: u64,
    pub plain_bytes: u64,
    pub by_kind: Seq<KindCount>,
    pub threats: Seq<ThreatHit>,
    pub seq_len: u64,
    pub seq_start_offset: u64,
    pub in_word: bool,
}

impl View for Stats {
    type V = StatsState;

    open spec fn view(&self) -> StatsState {
        StatsState {
            bytes_in: self.bytes_in,
            bytes_out: self.bytes_out,
            lines: self.lines,
            words: self.words,
            chars: self.chars,
            sequences: self.sequences,
            seq_bytes: self.seq_bytes,
            plain_bytes: self.plain_bytes,
            by_kind: self.by_kind@,
            threats: self.threats@,
            seq_len: self.seq_len,
            seq_start_offset: self.seq_start_offset,
            in_word: self.in_word,
        }
    }
}

/// The index of a kind in the per-kind table.
pub open spec fn spec_kind_index(k: SeqKind) -> int {
    match k {
        SeqKind::CsiSgr => 0,
        SeqKind::CsiCursor => 1,
        SeqKind::CsiErase => 2,
        SeqKind::CsiScroll => 3,
        SeqKind::CsiMode => 4,
        SeqKind::CsiDeviceStatus => 5,
        SeqKind::CsiWindow => 6,
        SeqKind::CsiOther => 7,
        SeqKind::Osc => 8,
        SeqKind::Dcs => 9,
        SeqKind::Apc => 10,
        SeqKind::Pm => 11,
        SeqKind::Sos => 12,
        SeqKind::Ss2 => 13,
        SeqKind::Ss3 => 14,
        SeqKind::Fe => 15,
        SeqKind::Unknown => 16,
        SeqKind::CsiQuery => 17,
    }
}

/// The index of a kind in the per-kind table.
pub fn kind_index(k: SeqKind) -> (i: usize)
    ensures
        i == spec_kind_index(k),
        i < NUM_KINDS,
{
    match k {
        SeqKind::CsiSgr => 0,
        SeqKind::CsiCursor => 1,
        SeqKind::CsiErase => 2,
        SeqKind::CsiScroll => 3,
        SeqKind::CsiMode => 4,
        SeqKind::CsiDeviceStatus => 5,
        SeqKind::CsiWindow => 6,
        SeqKind::CsiOther => 7,
        SeqKind::Osc => 8,
        SeqKind::Dcs => 9,
        SeqKind::Apc => 10,
        SeqKind::Pm => 11,
        SeqKind::Sos => 12,
        SeqKind::Ss2 => 13,
        SeqKind::Ss3 => 14,
        SeqKind::Fe => 15,
        SeqKind::Unknown => 16,
        SeqKind::CsiQuery => 17,
    }
}

/// The name of a kind in the JSON output.
pub open spec fn spec_stat_kind_name(k: SeqKind) -> Seq<char> {
    match k {
        SeqKind::CsiSgr => "csi_sgr"@,
        SeqKind::CsiCursor => "csi_cursor"@,
        SeqKind::CsiErase => "csi_erase"@,
        SeqKind::CsiScroll => "csi_scroll"@,
        SeqKind::CsiMode => "csi_mode"@,
        SeqKind::CsiDeviceStatus => "csi_device_status"@,
        SeqKind::CsiWindow => "csi_window"@,
        SeqKind::CsiOther => "csi_other"@,
        SeqKind::Osc => "osc"@,
        SeqKind::Dcs => "dcs"@,
        SeqKind::Apc => "apc"@,
        SeqKind::Pm => "pm"@,
        SeqKind::Sos => "sos"@,
        SeqKind::Ss2 => "ss2"@,
        SeqKind::Ss3 => "ss3"@,
        SeqKind::Fe => "fe"@,
        SeqKind::Unknown => "unknown"@,
        SeqKind::CsiQuery => "csi_query"@,
    }
}

/// The kind whose table index is `i`.
pub open spec fn kind_at(i: int) -> SeqKind {
    if i == 0 {
        SeqKind::CsiSgr
    } else if i == 1 {
        SeqKind::CsiCursor
    } else if i == 2 {
        SeqKind::CsiErase
    } else if i == 3 {
        SeqKind::CsiScroll
    } else if i == 4 {
        SeqKind::CsiMode
    } else if i == 5 {
        SeqKind::CsiDeviceStatus
    } else if i == 6 {
        SeqKind::CsiWindow
    } else if i == 7 {
        SeqKind::CsiOther
    } else if i == 8 {
        SeqKind::Osc
    } else if i == 9 {
        SeqKind::Dcs
    } else if i == 10 {
        SeqKind::Apc
    } else if i == 11 {
        SeqKind::Pm
    } else if i == 12 {
        SeqKind::Sos
    } else if i == 13 {
        SeqKind::Ss2
    } else if i == 14 {
        SeqKind::Ss3
    } else if i == 15 {
        SeqKind::Fe
    } else if i == 16 {
        SeqKind::Unknown
    } else {
        SeqKind::CsiQuery
    }
}

/// The JSON name of a kind.
fn stat_kind_name(k: SeqKind) -> (n: &'static str)
    ensures
        n@ == spec_stat_kind_name(k),
{
    match k {
        SeqKind::CsiSgr => "csi_sgr",
        SeqKind::CsiCursor => "csi_cursor",
        SeqKind::CsiErase => "csi_erase",
        SeqKind::CsiScroll => "csi_scroll",
        SeqKind::CsiMode => "csi_mode",
        SeqKind::CsiDeviceStatus => "csi_device_status",
        SeqKind::CsiWindow => "csi_window",
        SeqKind::CsiOther => "csi_other",
        SeqKind::Osc => "osc",
        SeqKind::Dcs => "dcs",
        SeqKind::Apc => "apc",
        SeqKind::Pm => "pm",
        SeqKind::Sos => "sos",
        SeqKind::Ss2 => "ss2",
        SeqKind::Ss3 => "ss3",
        SeqKind::Fe => "fe",
        SeqKind::Unknown => "unknown",
        SeqKind::CsiQuery => "csi_query",
    }
}

/// ASCII whitespace as counted by the word count.
pub open spec fn is_ws(b: u8) -> bool {
    b == 0x20 || b == 0x09 || b == 0x0A || b == 0x0D || b == 0x0B || b == 0x0C
}

/// Whether `b` starts a UTF-8 character (is not a continuation byte).
pub open spec fn starts_char(b: u8) -> bool {
    b & 0xC0 != 0x80
}

/// Fresh metrics: everything zero.
pub open spec fn initial_stats() -> StatsState {
    StatsState {
        bytes_in: 0,
        bytes_out: 0,
        lines: 0,
        words: 0,
        chars: 0,
        sequences: 0,
        seq_bytes: 0,
        plain_bytes: 0,
        by_kind: Seq::new(NUM_KINDS as nat, |i: int| KindCount { count: 0, bytes: 0 }),
        threats: Seq::empty(),
        seq_len: 0,
        seq_start_offset: 0,
        in_word: false,
    }
}

/// The counts are consistent: no count exceeds what the bytes seen allow.
pub open spec fn stats_wf(s: StatsState) -> bool {
    &&& s.by_kind.len() == NUM_KINDS
    &&& s.bytes_out <= s.bytes_in
    &&& s.plain_bytes <= s.bytes_in
    &&& s.lines <= s.bytes_in
    &&& s.words <= s.bytes_in
    &&& s.chars <= s.bytes_in
    &&& s.seq_bytes + s.seq_len <= s.bytes_in
    &&& s.sequences <= s.seq_bytes
    &&& s.seq_start_offset <= s.bytes_in
    &&& forall|i: int|
        0 <= i < NUM_KINDS ==> (#[trigger] s.by_kind[i]).count <= s.sequences && s.by_kind[i].bytes
            <= s.seq_bytes
}

/// Recording one classified byte.
pub open spec fn spec_record(s: StatsState, byte: u8, action: SeqAction, kind: SeqKind) -> StatsState {
    let s1 = StatsState { bytes_in: (s.bytes_in + 1) as u64, ..s };
    match action {
        SeqAction::Emit => {
            let ws = is_ws(byte);
            StatsState {
                bytes_out: (s.bytes_out + 1) as u64,
                plain_bytes: (s.plain_bytes + 1) as u64,
                lines: if byte == 0x0A {
                    (s.lines + 1) as u64
                } else {
                    s.lines
                },
                words: if !ws && !s.in_word {
                    (s.words + 1) as u64
                } else {
                    s.words
                },
                in_word: !ws,
                chars: if starts_char(byte) {
                    (s.chars + 1) as u64
                } else {
                    s.chars
                },
                ..s1
            }
        },
        SeqAction::StartSeq => StatsState { seq_len: 1, seq_start_offset: s.bytes_in, ..s1 },
        SeqAction::InSeq => StatsState { seq_len: (s.seq_len + 1) as u64, ..s1 },
        SeqAction::EndSeq => {
            let l = (s.seq_len + 1) as u64;
            let i = spec_kind_index(kind);
            StatsState {
                seq_len: 0,
                sequences: (s.sequences + 1) as u64,
                seq_bytes: (s.seq_bytes + l) as u64,
                by_kind: s.by_kind.update(
                    i,
                    KindCount {
                        count: (s.by_kind[i].count + 1) as u64,
                        bytes: (s.by_kind[i].bytes + l) as u64,
                    },
                ),
                ..s1
            }
        },
    }
}

/// The built-in threat type of a finished sequence, if it is one.
pub open spec fn spec_classify_threat(d: SeqDetail) -> Option<&'static str> {
    match d.kind {
        SeqKind::Dcs => if d.dcs_is_query {
            Some("dcs_decrqss")
        } else {
            Some("dcs_other")
        },
        SeqKind::Osc => if d.osc_number == 50 {
            Some("osc_50")
        } else if d.osc_type == OscType::Clipboard {
            Some("osc_clipboard")
        } else {
            None
        },
        SeqKind::CsiQuery => if d.first_param == 21 {
            Some("csi_21t")
        } else if d.first_param == 6 {
            Some("csi_6n")
        } else {
            None
        },
        _ => None,
    }
}

/// The built-in threat type of a finished sequence, if it is one.
pub fn classify_threat(detail: &SeqDetail) -> (t: Option<&'static str>)
    ensures
        t == spec_classify_threat(*detail),
{
    match detail.kind {
        SeqKind::Dcs => {
            if detail.dcs_is_query {
                Some("dcs_decrqss")
            } else {
                Some("dcs_other")
            }
        },
        SeqKind::Osc => {
            if detail.osc_number == 50 {
                Some("osc_50")
            } else if detail.osc_type == OscType::Clipboard {
                Some("osc_clipboard")
            } else {
                None
            }
        },
        SeqKind::CsiQuery => {
            if detail.first_param == 21 {
                Some("csi_21t")
            } else if detail.first_param == 6 {
                Some("csi_6n")
            } else {
                None
            }
        },
        _ => None,
    }
}

/// Checking a finished sequence for threats: a hit is appended, spanning
/// from the sequence's start to the last byte seen.
pub open spec fn spec_check_threat(s: StatsState, d: SeqDetail) -> StatsState {
    match spec_classify_threat(d) {
        Some(t) => StatsState {
            threats: s.threats.push(
                ThreatHit {
                    threat_type: t,
                    kind: d.kind,
                    offset: s.seq_start_offset,
                    len: (s.bytes_in - s.seq_start_offset) as u64,
                },
            ),
            ..s
        },
        None => s,
    }
}

/// The classifier state and the metrics after analysing `input`.
pub open spec fn analyze(input: Seq<u8>) -> (ClassifierState, StatsState)
    decreases input.len(),
{
    if input.len() == 0 {
        (initial_classifier_state(), initial_stats())
    } else {
        let (c, s) = analyze(input.drop_last());
        let b = input.last();
        let (c2, a) = classify_step(c, b);
        let s2 = spec_record(s, b, a, c2.kind);
        let s3 = if a == SeqAction::EndSeq {
            spec_check_threat(s2, detail_of(c2))
        } else {
            s2
        };
        (c2, s3)
    }
}

/// Recording keeps the counts consistent.
proof fn lemma_record_wf(s: StatsState, byte: u8, action: SeqAction, kind: SeqKind)
    requires
        stats_wf(s),
        s.bytes_in < u64::MAX,
    ensures
        stats_wf(spec_record(s, byte, action, kind)),
{
    let t = spec_record(s, byte, action, kind);
    if action == SeqAction::EndSeq {
        let i = spec_kind_index(kind);
        assert forall|j: int| 0 <= j < NUM_KINDS implies (#[trigger] t.by_kind[j]).count
            <= t.sequences && t.by_kind[j].bytes <= t.seq_bytes by {
            if j != i {
                assert(t.by_kind[j] == s.by_kind[j]);
            }
        }
    }
}

/// The metrics after `analyze` are consistent and count every byte.
proof fn lemma_analyze_wf(input: Seq<u8>)
    requires
        input.len() <= u64::MAX,
    ensures
        stats_wf(analyze(input).1),
        analyze(input).1.bytes_in == input.len(),
    decreases input.len(),
{
    if input.len() > 0 {
        lemma_analyze_wf(input.drop_last());
        let (c, s) = analyze(input.drop_last());
        let (c2, a) = classify_step(c, input.last());
        lemma_record_wf(s, input.last(), a, c2.kind);
    }
}

// ── JSON ────────────────────────────────────────────────────────────

/// `{"count":C,"bytes":B}` under the kind's name.
pub open spec fn kind_json(k: SeqKind, kc: KindCount) -> Seq<char> {
    "\""@ + spec_stat_kind_name(k) + "\":{\"count\":"@ + ascii_text(decimal(kc.count as nat))
        + ",\"bytes\":"@ + ascii_text(decimal(kc.bytes as nat)) + "}"@
}

/// The entries of the first `n` kinds that have a nonzero count or byte
/// total, separated by commas.
pub open spec fn kinds_json(bk: Seq<KindCount>, n: int) -> Seq<char>
    decreases n,
{
    if n <= 0 {
        Seq::empty()
    } else {
        let prev = kinds_json(bk, n - 1);
        let kc = bk[n - 1];
        if kc.count == 0 && kc.bytes == 0 {
            prev
        } else if prev.len() == 0 {
            kind_json(kind_at(n - 1), kc)
        } else {
            prev + ","@ + kind_json(kind_at(n - 1), kc)
        }
    }
}

/// One threat as a JSON object.
pub open spec fn threat_json(t: ThreatHit) -> Seq<char> {
    "{\"type\":\""@ + t.threat_type@ + "\",\"kind\":\""@ + spec_stat_kind_name(t.kind)
        + "\",\"offset\":"@ + ascii_text(decimal(t.offset as nat)) + ",\"len\":"@ + ascii_text(
        decimal(t.len as nat),
    ) + "}"@
}

/// The first `n` threats as JSON objects separated by commas.
pub open spec fn threats_json(ts: Seq<ThreatHit>, n: int) -> Seq<char>
    decreases n,
{
    if n <= 0 {
        Seq::empty()
    } else if n == 1 {
        threat_json(ts[0])
    } else {
        threats_json(ts, n - 1) + ","@ + threat_json(ts[n - 1])
    }
}

/// The whole JSON document.
pub open spec fn stats_json(s: StatsState) -> Seq<char> {
    "{\"bytes_in\":"@ + ascii_text(decimal(s.bytes_in as nat)) + ",\"bytes_out\":"@ + ascii_text(
        decimal(s.bytes_out as nat),
    ) + ",\"lines\":"@ + ascii_text(decimal(s.lines as nat)) + ",\"words\":"@ + ascii_text(
        decimal(s.words as nat),
    ) + ",\"chars\":"@ + ascii_text(decimal(s.chars as nat)) + ",\"sequences\":"@ + ascii_text(
        decimal(s.sequences as nat),
    ) + ",\"seq_bytes\":"@ + ascii_text(decimal(s.seq_bytes as nat)) + ",\"plain_bytes\":"@
        + ascii_text(decimal(s.plain_bytes as nat)) + ",\"by_kind\":{"@ + kinds_json(
        s.by_kind,
        NUM_KINDS as int,
    ) + "},\"threats\":["@ + threats_json(s.threats, s.threats.len() as int) + "]}"@
}

impl Stats {
    /// Fresh metrics: all counts zero.
    pub fn new() -> (s: Self)
        ensures
            s@ == initial_stats(),
            stats_wf(s@),
    {
        let s = Stats {
            bytes_in: 0,
            bytes_out: 0,
            lines: 0,
            words: 0,
            chars: 0,
            sequences: 0,
            seq_bytes: 0,
            plain_bytes: 0,
            by_kind: [KindCount { count: 0, bytes: 0 };NUM_KINDS],
            threats: Vec::new(),
            seq_len: 0,
            seq_start_offset: 0,
            in_word: false,
        };
        proof {
            assert(s.by_kind@ =~= initial_stats().by_kind);
        }
        s
    }

    /// Record one classified action from [`ClassifyingParser::feed`].
    pub fn record(&mut self, byte: u8, action: SeqAction, kind: SeqKind)
        requires
            stats_wf(old(self)@),
            old(self).bytes_in < u64::MAX,
        ensures
            final(self)@ == spec_record(old(self)@, byte, action, kind),
            stats_wf(final(self)@),
    {
        proof {
            lemma_record_wf(self@, byte, action, kind);
        }
        let ghost s0 = self@;
        self.bytes_in += 1;
        match action {
            SeqAction::Emit => {
                self.bytes_out += 1;
                self.plain_bytes += 1;
                if byte == 0x0A {
                    self.lines += 1;
                }
                let is_ws = byte == 0x20 || byte == 0x09 || byte == 0x0A || byte == 0x0D
                    || byte == 0x0B || byte == 0x0C;
                if !is_ws {
                    if !self.in_word {
                        self.words += 1;
                    }
                    self.in_word = true;
                } else {
                    self.in_word = false;
                }
                if byte & 0xC0 != 0x80 {
                    self.chars += 1;
                }
            },
            SeqAction::StartSeq => {
                self.seq_len = 1;
                self.seq_start_offset = self.bytes_in - 1;
            },
            SeqAction::InSeq => {
                self.seq_len += 1;
            },
            SeqAction::EndSeq => {
                self.seq_len += 1;
                self.sequences += 1;
                self.seq_bytes += self.seq_len;
                let idx = kind_index(kind);
                let mut kc = self.by_kind[idx];
                kc.count = kc.count + 1;
                kc.bytes = kc.bytes + self.seq_len;
                self.by_kind[idx] = kc;
                self.seq_len = 0;
            },
        }
        proof {
            assert(self@.by_kind =~= spec_record(s0, byte, action, kind).by_kind);
        }
    }

    /// Check a finished sequence for threats. Call on `EndSeq` after
    /// [`Stats::record`].
    pub fn check_threat(&mut self, detail: &SeqDetail)
        requires
            stats_wf(old(self)@),
        ensures
            final(self)@ == spec_check_threat(old(self)@, *detail),
            stats_wf(final(self)@),
    {
        if let Some(threat_type) = classify_threat(detail) {
            self.threats.push(
                ThreatHit {
                    threat_type,
                    kind: detail.kind,
                    offset: self.seq_start_offset,
                    len: self.bytes_in - self.seq_start_offset,
                },
            );
        }
    }

    /// Analyze a complete byte slice, with threat detection.
    pub fn from_bytes(input: &[u8]) -> (s: Self)
        ensures
            s@ == analyze(input@).1,
    {
        let mut stats = Self::new();
        let mut cp = ClassifyingParser::new();
        let n = input.len();
        let mut i: usize = 0;
        proof {
            assert(input@.take(0) =~= Seq::<u8>::empty());
        }
        while i < n
            invariant
                n == input@.len(),
                i <= n,
                (cp@, stats@) == analyze(input@.take(i as int)),
                stats_wf(stats@),
                stats.bytes_in == i,
            decreases n - i,
        {
            proof {
                assert(input@.take(i as int + 1).drop_last() =~= input@.take(i as int));
            }
            let b = input[i];
            let action = cp.feed(b);
            let kind = cp.current_kind();
            stats.record(b, action, kind);
            if action == SeqAction::EndSeq {
                let d = cp.detail();
                proof {
                    assert(d == detail_of(cp@));
                }
                stats.check_threat(&d);
            }
            i += 1;
        }
        proof {
            assert(input@.take(n as int) =~= input@);
        }
        stats
    }

    /// Serialize to JSON.
    pub fn to_json(&self) -> (j: String)
        requires
            stats_wf(self@),
        ensures
            j@ == stats_json(self@),
    {
        let mut s = String::new();
        s.append("{\"bytes_in\":");
        append_decimal(&mut s, self.bytes_in);
        s.append(",\"bytes_out\":");
        append_decimal(&mut s, self.bytes_out);
        s.append(",\"lines\":");
        append_decimal(&mut s, self.lines);
        s.append(",\"words\":");
        append_decimal(&mut s, self.words);
        s.append(",\"chars\":");
        append_decimal(&mut s, self.chars);
        s.append(",\"sequences\":");
        append_decimal(&mut s, self.sequences);
        s.append(",\"seq_bytes\":");
        append_decimal(&mut s, self.seq_bytes);
        s.append(",\"plain_bytes\":");
        append_decimal(&mut s, self.plain_bytes);
        s.append(",\"by_kind\":{");
        let ghost head = s@;
        let mut first = true;
        let mut i: usize = 0;
        while i < NUM_KINDS
            invariant
                i <= NUM_KINDS,
                self.by_kind@.len() == NUM_KINDS,
                s@ == head + kinds_json(self.by_kind@, i as int),
                first == (kinds_json(self.by_kind@, i as int).len() == 0),
            decreases NUM_KINDS - i,
        {
            let kc = self.by_kind[i];
            if !(kc.count == 0 && kc.bytes == 0) {
                if !first {
                    s.append(",");
                }
                first = false;
                s.append("\"");
                s.append(stat_kind_name(kind_of_index(i)));
                s.append("\":{\"count\":");
                append_decimal(&mut s, kc.count);
                s.append(",\"bytes\":");
                append_decimal(&mut s, kc.bytes);
                s.append("}");
                proof {
                    lemma_kind_json_nonempty(kind_at(i as int), kc);
                }
            }
            i += 1;
        }
        s.append("},\"threats\":[");
        let ghost head2 = s@;
        let nt = self.threats.len();
        let mut k: usize = 0;
        while k < nt
            invariant
                k <= nt,
                nt == self.threats@.len(),
                s@ == head2 + threats_json(self.threats@, k as int),
            decreases nt - k,
        {
            if k > 0 {
                s.append(",");
            }
            let t = self.threats[k];
            s.append("{\"type\":\"");
            s.append(t.threat_type);
            s.append("\",\"kind\":\"");
            s.append(stat_kind_name(t.kind));
            s.append("\",\"offset\":");
            append_decimal(&mut s, t.offset);
            s.append(",\"len\":");
            append_decimal(&mut s, t.len);
            s.append("}");
            k += 1;
        }
        s.append("]}");
        s
    }
}

/// A kind's JSON entry is never empty.
proof fn lemma_kind_json_nonempty(k: SeqKind, kc: KindCount)
    ensures
        kind_json(k, kc).len() > 0,
{
    reveal_strlit("}");
}

/// The kind at table index `i`.
fn kind_of_index(i: usize) -> (k: SeqKind)
    requires
        i < NUM_KINDS,
    ensures
        k == kind_at(i as int),
{
    if i == 0 {
        SeqKind::CsiSgr
    } else if i == 1 {
        SeqKind::CsiCursor
    } else if i == 2 {
        SeqKind::CsiErase
    } else if i == 3 {
        SeqKind::CsiScroll
    } else if i == 4 {
        SeqKind::CsiMode
    } else if i == 5 {
        SeqKind::CsiDeviceStatus
    } else if i == 6 {
        SeqKind::CsiWindow
    } else if i == 7 {
        SeqKind::CsiOther
    } else if i == 8 {
        SeqKind::Osc
    } else if i == 9 {
        SeqKind::Dcs
    } else if i == 10 {
        SeqKind::Apc
    } else if i == 11 {
        SeqKind::Pm
    } else if i == 12 {
        SeqKind::Sos
    } else if i == 13 {
        SeqKind::Ss2
    } else if i == 14 {
        SeqKind::Ss3
    } else if i == 15 {
        SeqKind::Fe
    } else if i == 16 {
        SeqKind::Unknown
    } else {
        SeqKind::CsiQuery
    }
}

/// Every kind sits at its own table index.
pub proof fn law_kind_index_roundtrip(k: SeqKind)
    ensures
        kind_at(spec_kind_index(k)) == k,
        0 <= spec_kind_index(k) < NUM_KINDS,
{
}

impl Default for Stats {
    fn default() -> (s: Self)
        ensures
            s@ == initial_stats(),
    {
        Self::new()
    }
}

/// The statistics after recording each `(byte, action, kind)` in turn.
pub open spec fn record_run(s: StatsState, ev: Seq<(u8, SeqAction, SeqKind)>) -> StatsState
    decreases ev.len(),
{
    if ev.len() == 0 {
        s
    } else {
        let p = record_run(s, ev.drop_last());
        spec_record(p, ev.last().0, ev.last().1, ev.last().2)
    }
}

/// Whether `ev` is one whole sequence as the classifier reports it: a
/// start, continuation bytes, and an end.
pub open spec fn is_whole_sequence(ev: Seq<(u8, SeqAction, SeqKind)>) -> bool {
    &&& ev.len() >= 2
    &&& ev[0].1 == SeqAction::StartSeq
    &&& forall|i: int| 1 <= i < ev.len() - 1 ==> (#[trigger] ev[i]).1 == SeqAction::InSeq
    &&& ev[ev.len() - 1].1 == SeqAction::EndSeq
}

proof fn lemma_open_sequence(s: StatsState, ev: Seq<(u8, SeqAction, SeqKind)>)
    requires
        ev.len() >= 1,
        ev[0].1 == SeqAction::StartSeq,
        forall|i: int| 1 <= i < ev.len() ==> (#[trigger] ev[i]).1 == SeqAction::InSeq,
        s.bytes_in + ev.len() <= u64::MAX,
    ensures
        ({
            let r = record_run(s, ev);
            &&& r.seq_len == ev.len()
            &&& r.bytes_in == s.bytes_in + ev.len()
            &&& r.sequences == s.sequences
            &&& r.seq_bytes == s.seq_bytes
            &&& r.by_kind == s.by_kind
        }),
    decreases ev.len(),
{
    if ev.len() == 1 {
        assert(ev.drop_last() =~= Seq::<(u8, SeqAction, SeqKind)>::empty());
        assert(ev.last() == ev[0]);
        assert(record_run(s, ev.drop_last()) == s);
        assert(record_run(s, ev) == spec_record(s, ev[0].0, ev[0].1, ev[0].2));
    } else {
        let init = ev.drop_last();
        assert(init[0] == ev[0]);
        assert forall|i: int| 1 <= i < init.len() implies (#[trigger] init[i]).1 == SeqAction::InSeq by {
            assert(init[i] == ev[i]);
        }
        lemma_open_sequence(s, init);
        assert(ev.last() == ev[ev.len() - 1]);
        let p = record_run(s, init);
        assert(record_run(s, ev) == spec_record(p, ev.last().0, ev.last().1, ev.last().2));
    }
}

/// Recording one whole sequence of `n` bytes counts it once, under its
/// kind, with its `n` bytes (when no counter overflows).
pub proof fn law_record_whole_sequence(s: StatsState, ev: Seq<(u8, SeqAction, SeqKind)>)
    requires
        is_whole_sequence(ev),
        s.by_kind.len() == NUM_KINDS,
        s.bytes_in + ev.len() <= u64::MAX,
        s.sequences < u64::MAX,
        s.seq_bytes + ev.len() <= u64::MAX,
        s.by_kind[spec_kind_index(ev[ev.len() - 1].2)].count < u64::MAX,
        s.by_kind[spec_kind_index(ev[ev.len() - 1].2)].bytes + ev.len() <= u64::MAX,
    ensures
        ({
            let r = record_run(s, ev);
            let k = spec_kind_index(ev[ev.len() - 1].2);
            &&& r.bytes_in == s.bytes_in + ev.len()
            &&& r.sequences == s.sequences + 1
            &&& r.seq_bytes == s.seq_bytes + ev.len()
            &&& r.by_kind == s.by_kind.update(
                k,
                KindCount {
                    count: (s.by_kind[k].count + 1) as u64,
                    bytes: (s.by_kind[k].bytes + ev.len()) as u64,
                },
            )
            &&& r.seq_len == 0
        }),
{
    let init = ev.drop_last();
    assert(init[0] == ev[0]);
    assert forall|i: int| 1 <= i < init.len() implies (#[trigger] init[i]).1 == SeqAction::InSeq by {
        assert(init[i] == ev[i]);
    }
    lemma_open_sequence(s, init);
    law_kind_index_roundtrip(ev[ev.len() - 1].2);
    assert(ev.last() == ev[ev.len() - 1]);
}

} // verus!
