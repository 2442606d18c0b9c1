//! Sequence classifier for ANSI escape sequences.
//!
//! Wraps [`Parser`] to track sequence boundaries and identify the
//! [`SeqKind`] of each escape sequence without changing the underlying
//! state machine. Zero heap allocations.

use vstd::prelude::*;

use crate::parser::{Action, ESC, Parser, State, is_abort_byte, step};

verus! {

// ── SgrContent ──────────────────────────────────────────────────────
/// Bitfield describing which SGR color depths a sequence contains.
///
/// This is a set membership type, not a ranking. A single SGR sequence
/// can set several bits (e.g. `1;38;2;255;0;0;4m` yields
/// `BASIC | TRUECOLOR`).
#[derive(Copy, Clone, Debug, PartialEq, Eq, Hash, Default, Structural)]
#[non_exhaustive]
pub struct SgrContent(pub u8);

impl SgrContent {
    /// Basic SGR params: 0–29, 39, 49, 90–97, 100–107.
    pub fn basic() -> (r: Self)
        ensures
            r.0 == 1,
    {
        SgrContent(1)
    }

    /// Extended 256-color: `38;5;N` or `48;5;N`.
    pub fn extended() -> (r: Self)
        ensures
            r.0 == 2,
    {
        SgrContent(2)
    }

    /// Truecolor RGB: `38;2;R;G;B` or `48;2;R;G;B`.
    pub fn truecolor() -> (r: Self)
        ensures
            r.0 == 4,
    {
        SgrContent(4)
    }

    /// Returns an empty (no bits set) `SgrContent`.
    pub fn empty() -> (r: Self)
        ensures
            r.0 == 0,
    {
        SgrContent(0)
    }

    /// Returns `true` if no bits are set.
    pub fn is_empty(self) -> (r: bool)
        ensures
            r == (self.0 == 0),
    {
        self.0 == 0
    }

    /// Returns `true` if `other`'s bits are all set in `self`.
    pub fn contains(self, other: Self) -> (r: bool)
        ensures
            r == (self.0 & other.0 == other.0),
    {
        (self.0 & other.0) == other.0
    }

    /// Bitwise OR — accumulate bits from another `SgrContent`.
    pub fn union(self, other: Self) -> (r: Self)
        ensures
            r.0 == self.0 | other.0,
    {
        SgrContent(self.0 | other.0)
    }
}

impl core::ops::BitOr for SgrContent {
    type Output = Self;

    fn bitor(self, rhs: Self) -> (r: Self) {
        SgrContent(self.0 | rhs.0)
    }
}

impl vstd::std_specs::ops::BitOrSpecImpl for SgrContent {
    open spec fn obeys_bitor_spec() -> bool {
        true
    }

    open spec fn bitor_req(self, rhs: Self) -> bool {
        true
    }

    open spec fn bitor_spec(self, rhs: Self) -> Self {
        SgrContent(self.0 | rhs.0)
    }
}

// ── OscType ─────────────────────────────────────────────────────────
/// OSC sequence sub-type, classified by the first numeric parameter.
#[derive(Copy, Clone, Debug, PartialEq, Eq, Hash, Default, Structural)]
#[non_exhaustive]
pub enum OscType {
    /// Unknown — not yet classified (initial state).
    #[default]
    Unknown,
    /// Title — OSC 0, 1, or 2 (icon name / window title).
    Title,
    /// WorkingDir — OSC 7 (current working directory).
    WorkingDir,
    /// Hyperlink — OSC 8.
    Hyperlink,
    /// Notify — OSC 9 or 777.
    Notify,
    /// Clipboard — OSC 52.
    Clipboard,
    /// ShellInteg — OSC 133 (shell integration / semantic prompts).
    ShellInteg,
    /// ITerm2 — OSC 1337 (iTerm2 proprietary).
    ITerm2,
    /// Other — any OSC number not listed above.
    Other,
}

/// The OSC type of a raw OSC number.
pub open spec fn spec_osc_type(n: u16) -> OscType {
    if n == 0 || n == 1 || n == 2 {
        OscType::Title
    } else if n == 7 {
        OscType::WorkingDir
    } else if n == 8 {
        OscType::Hyperlink
    } else if n == 9 || n == 777 {
        OscType::Notify
    } else if n == 52 {
        OscType::Clipboard
    } else if n == 133 {
        OscType::ShellInteg
    } else if n == 1337 {
        OscType::ITerm2
    } else {
        OscType::Other
    }
}

/// Map a raw OSC number to an [`OscType`] variant.
pub fn map_osc_number(n: u16) -> (t: OscType)
    ensures
        t == spec_osc_type(n),
{
    match n {
        0 | 1 | 2 => OscType::Title,
        7 => OscType::WorkingDir,
        8 => OscType::Hyperlink,
        9 | 777 => OscType::Notify,
        52 => OscType::Clipboard,
        133 => OscType::ShellInteg,
        1337 => OscType::ITerm2,
        _ => OscType::Other,
    }
}

// ── SeqGroup / SeqKind ──────────────────────────────────────────────
/// Top-level escape sequence groups; each maps to one bit of a
/// `FilterConfig`'s preserved set.
#[derive(Copy, Clone, Debug, PartialEq, Eq, Hash, Structural)]
pub enum SeqGroup {
    /// CSI — Control Sequence Introducer (`ESC [`)
    Csi,
    /// OSC — Operating System Command (`ESC ]`)
    Osc,
    /// DCS — Device Control String (`ESC P`)
    Dcs,
    /// APC — Application Program Command (`ESC _`)
    Apc,
    /// PM — Privacy Message (`ESC ^`)
    Pm,
    /// SOS — Start of String (`ESC X`)
    Sos,
    /// SS2 — Single Shift Two (`ESC N`)
    Ss2,
    /// SS3 — Single Shift Three (`ESC O`)
    Ss3,
    /// Fe — Other escape sequences
    Fe,
}

/// Specific escape sequence type, including CSI sub-groups.
#[derive(Copy, Clone, Debug, PartialEq, Eq, Hash, Structural)]
pub enum SeqKind {
    /// `m` — Select Graphic Rendition
    CsiSgr,
    /// `A`..`H`, `f` — cursor movement
    CsiCursor,
    /// `J`, `K` — erase in display/line
    CsiErase,
    /// `S`, `T` — scroll up/down
    CsiScroll,
    /// `h`, `l` — set/reset mode
    CsiMode,
    /// `n`, `c` — device status report
    CsiDeviceStatus,
    /// `t` — window manipulation
    CsiWindow,
    /// Any other CSI final byte
    CsiOther,
    /// `t` with first param 21 or `n` with first param 6 — echoback queries
    CsiQuery,
    /// OSC — Operating System Command
    Osc,
    /// DCS — Device Control String
    Dcs,
    /// APC — Application Program Command
    Apc,
    /// PM — Privacy Message
    Pm,
    /// SOS — Start of String
    Sos,
    /// SS2 — Single Shift Two
    Ss2,
    /// SS3 — Single Shift Three
    Ss3,
    /// Fe — Other escape sequences
    Fe,
    /// Unknown or malformed sequence
    Unknown,
}

/// The parent group of a kind.
pub open spec fn spec_group(k: SeqKind) -> SeqGroup {
    match k {
        SeqKind::CsiSgr | SeqKind::CsiCursor | SeqKind::CsiErase | SeqKind::CsiScroll
        | SeqKind::CsiMode | SeqKind::CsiDeviceStatus | SeqKind::CsiWindow | SeqKind::CsiQuery
        | SeqKind::CsiOther => SeqGroup::Csi,
        SeqKind::Osc => SeqGroup::Osc,
        SeqKind::Dcs => SeqGroup::Dcs,
        SeqKind::Apc => SeqGroup::Apc,
        SeqKind::Pm => SeqGroup::Pm,
        SeqKind::Sos => SeqGroup::Sos,
        SeqKind::Ss2 => SeqGroup::Ss2,
        SeqKind::Ss3 => SeqGroup::Ss3,
        SeqKind::Fe | SeqKind::Unknown => SeqGroup::Fe,
    }
}

impl SeqKind {
    /// Returns the parent [`SeqGroup`] for this kind (`Unknown` falls in
    /// `Fe`, the most conservative group).
    pub fn group(self) -> (g: SeqGroup)
        ensures
            g == spec_group(self),
    {
        match self {
            Self::CsiSgr | Self::CsiCursor | Self::CsiErase | Self::CsiScroll | Self::CsiMode
            | Self::CsiDeviceStatus | Self::CsiWindow | Self::CsiQuery | Self::CsiOther =>
                SeqGroup::Csi,
            Self::Osc => SeqGroup::Osc,
            Self::Dcs => SeqGroup::Dcs,
            Self::Apc => SeqGroup::Apc,
            Self::Pm => SeqGroup::Pm,
            Self::Sos => SeqGroup::Sos,
            Self::Ss2 => SeqGroup::Ss2,
            Self::Ss3 => SeqGroup::Ss3,
            Self::Fe => SeqGroup::Fe,
            Self::Unknown => SeqGroup::Fe,
        }
    }
}

/// Snapshot of all classifier outputs at [`SeqAction::EndSeq`].
#[derive(Copy, Clone, Debug, PartialEq, Eq, Structural)]
pub struct SeqDetail {
    /// The classified sequence kind.
    pub kind: SeqKind,
    /// SGR content bitfield (non-empty only for [`SeqKind::CsiSgr`]).
    pub sgr_content: SgrContent,
    /// OSC sub-type (non-Unknown only for [`SeqKind::Osc`]).
    pub osc_type: OscType,
    /// Raw OSC number (first numeric param; 0 for non-OSC sequences).
    pub osc_number: u16,
    /// First CSI parameter value (0 for non-CSI or no params).
    pub first_param: u16,
    /// Whether this DCS sequence is a DECRQSS query (`ESC P $ q`).
    pub dcs_is_query: bool,
}

/// Action returned by [`ClassifyingParser::feed`].
#[derive(Copy, Clone, Debug, PartialEq, Eq, Structural)]
pub enum SeqAction {
    /// Content byte — emit it.
    Emit,
    /// ESC byte entering a new sequence.
    StartSeq,
    /// Body byte inside a sequence.
    InSeq,
    /// Final byte — sequence complete.
    EndSeq,
}

/// State of the CSI parameter accumulator.
#[derive(Copy, Clone, Debug, PartialEq, Eq, Structural)]
pub enum ParamState {
    /// Accumulator is inactive (non-CSI sequence or ground state).
    Inactive,
    /// Accumulating a CSI parameter digit.
    Normal,
    /// Awaiting a mode sub-parameter (after 38 or 48).
    AwaitMode,
    /// Skipping 1 sub-parameter.
    Skip1,
    /// Skipping 2 sub-parameters.
    Skip2,
    /// Skipping 3 sub-parameters.
    Skip3,
}

// ── Classifier model ────────────────────────────────────────────────
/// The abstract state of a [`ClassifyingParser`]: the packed flag byte of
/// the implementation appears here as separate booleans and a phase.
#[derive(Copy, Clone, Debug, PartialEq, Eq, Structural)]
pub struct ClassifierState {
    /// State of the inner [`Parser`].
    pub parser: State,
    /// Kind of the current (or last finished) sequence.
    pub kind: SeqKind,
    /// Inside a sequence.
    pub in_seq: bool,
    /// A `;` was seen in the current CSI sequence.
    pub seen_semicolon: bool,
    /// The OSC number of the current sequence is final.
    pub osc_finalized: bool,
    /// Digits of an OSC number are being accumulated.
    pub osc_accumulating: bool,
    /// The current DCS sequence is a DECRQSS query.
    pub dcs_is_query: bool,
    /// DCS body inspection phase (0 = introducer, 1 = expect `$`,
    /// 2 = expect `q`, 3 = done).
    pub dcs_phase: u8,
    /// Accumulated SGR content bits.
    pub sgr_content: u8,
    /// Shared digit accumulator.
    pub param_value: u16,
    /// CSI parameter accumulator state.
    pub param_state: ParamState,
    /// OSC type of the current OSC sequence.
    pub osc_type: OscType,
    /// First parameter of the current CSI sequence.
    pub first_param: u16,
    /// Raw OSC number of the current OSC sequence.
    pub osc_number: u16,
}

/// `v * 10 + d`, saturating at `u16::MAX`.
pub open spec fn sat_digit(v: u16, d: u8) -> u16 {
    if v * 10 + d > 0xFFFF {
        0xFFFFu16
    } else {
        (v * 10 + d) as u16
    }
}

/// The introducer byte after ESC selects the kind.
pub open spec fn intro_kind(b: u8) -> SeqKind {
    if b == 0x5B {
        SeqKind::CsiOther
    } else if b == 0x5D {
        SeqKind::Osc
    } else if b == 0x50 {
        SeqKind::Dcs
    } else if b == 0x58 {
        SeqKind::Sos
    } else if b == 0x5E {
        SeqKind::Pm
    } else if b == 0x5F {
        SeqKind::Apc
    } else if b == 0x4E {
        SeqKind::Ss2
    } else if b == 0x4F {
        SeqKind::Ss3
    } else if 0x20 <= b <= 0x7E {
        SeqKind::Fe
    } else {
        SeqKind::Unknown
    }
}

/// The CSI final byte (with the first parameter) selects the sub-kind.
pub open spec fn csi_final_kind(b: u8, first_param: u16) -> SeqKind {
    if b == 0x6D {
        SeqKind::CsiSgr
    } else if (0x41 <= b <= 0x48) || b == 0x66 {
        SeqKind::CsiCursor
    } else if b == 0x4A || b == 0x4B {
        SeqKind::CsiErase
    } else if b == 0x53 || b == 0x54 {
        SeqKind::CsiScroll
    } else if b == 0x68 || b == 0x6C {
        SeqKind::CsiMode
    } else if b == 0x6E {
        if first_param == 6 {
            SeqKind::CsiQuery
        } else {
            SeqKind::CsiDeviceStatus
        }
    } else if b == 0x63 {
        SeqKind::CsiDeviceStatus
    } else if b == 0x74 {
        if first_param == 21 {
            SeqKind::CsiQuery
        } else {
            SeqKind::CsiWindow
        }
    } else {
        SeqKind::CsiOther
    }
}

/// SGR parameters that set basic colors or styles.
pub open spec fn sgr_basic_param(v: u16) -> bool {
    v <= 29 || v == 39 || v == 49 || (90 <= v <= 97) || (100 <= v <= 107)
}

/// All per-sequence accumulators cleared.
pub open spec fn cleared(m: ClassifierState) -> ClassifierState {
    ClassifierState {
        sgr_content: 0,
        param_value: 0,
        param_state: ParamState::Inactive,
        first_param: 0,
        osc_type: OscType::Unknown,
        osc_number: 0,
        ..m
    }
}

/// All flags cleared, with `in_seq` as given.
pub open spec fn with_flags_reset(m: ClassifierState, in_seq: bool) -> ClassifierState {
    ClassifierState {
        in_seq,
        seen_semicolon: false,
        osc_finalized: false,
        osc_accumulating: false,
        dcs_is_query: false,
        dcs_phase: 0,
        ..m
    }
}

/// Classify the introducer, once per sequence.
pub open spec fn classify_intro(m: ClassifierState, b: u8) -> ClassifierState {
    if m.kind != SeqKind::Unknown {
        m
    } else {
        ClassifierState { kind: intro_kind(b), ..m }
    }
}

/// Refine a CSI kind by its final byte.
pub open spec fn classify_final(m: ClassifierState, b: u8) -> ClassifierState {
    if m.kind != SeqKind::CsiOther {
        m
    } else {
        ClassifierState { kind: csi_final_kind(b, m.first_param), ..m }
    }
}

/// Finalize the OSC number from the accumulator.
pub open spec fn finalize_osc(m: ClassifierState) -> ClassifierState {
    ClassifierState {
        osc_number: m.param_value,
        osc_type: spec_osc_type(m.param_value),
        osc_finalized: true,
        osc_accumulating: false,
        ..m
    }
}

/// Finalize one SGR parameter: advance the SGR state machine and record
/// which color depths the sequence uses.
pub open spec fn finalize_sgr(m: ClassifierState) -> ClassifierState {
    let v = m.param_value;
    match m.param_state {
        ParamState::Normal => if v == 38 || v == 48 {
            ClassifierState { param_state: ParamState::AwaitMode, ..m }
        } else if sgr_basic_param(v) {
            ClassifierState { sgr_content: m.sgr_content | 1u8, ..m }
        } else {
            m
        },
        ParamState::AwaitMode => if v == 5 {
            ClassifierState {
                sgr_content: m.sgr_content | 2u8,
                param_state: ParamState::Skip1,
                ..m
            }
        } else if v == 2 {
            ClassifierState {
                sgr_content: m.sgr_content | 4u8,
                param_state: ParamState::Skip3,
                ..m
            }
        } else {
            ClassifierState { param_state: ParamState::Normal, ..m }
        },
        ParamState::Skip3 => ClassifierState { param_state: ParamState::Skip2, ..m },
        ParamState::Skip2 => ClassifierState { param_state: ParamState::Skip1, ..m },
        ParamState::Skip1 => ClassifierState { param_state: ParamState::Normal, ..m },
        ParamState::Inactive => m,
    }
}

/// The DCS body inspection step that detects `$ q` (DECRQSS).
pub open spec fn dcs_inspect(m: ClassifierState, b: u8) -> ClassifierState {
    if m.dcs_phase == 0 {
        ClassifierState { dcs_phase: 1, ..m }
    } else if m.dcs_phase == 1 {
        ClassifierState { dcs_phase: if b == 0x24 { 2 } else { 3 }, ..m }
    } else if m.dcs_phase == 2 {
        ClassifierState { dcs_phase: 3, dcs_is_query: m.dcs_is_query || b == 0x71, ..m }
    } else {
        m
    }
}

/// Parameter accumulation for a body byte (CSI params, OSC number, DCS
/// query detection).
pub open spec fn accumulate(m0: ClassifierState, b: u8) -> ClassifierState {
    let m = if m0.param_state == ParamState::Inactive && m0.kind == SeqKind::CsiOther {
        ClassifierState { param_state: ParamState::Normal, ..m0 }
    } else {
        m0
    };
    if m.kind == SeqKind::Osc && !m.osc_finalized && !m.osc_accumulating {
        // The introducer byte is not part of the OSC number.
        ClassifierState { osc_accumulating: true, ..m }
    } else if m.osc_accumulating {
        if 0x30 <= b <= 0x39 {
            ClassifierState { param_value: sat_digit(m.param_value, (b - 0x30) as u8), ..m }
        } else {
            finalize_osc(m)
        }
    } else if m.kind == SeqKind::Dcs {
        dcs_inspect(m, b)
    } else if m.param_state == ParamState::Inactive {
        m
    } else if 0x30 <= b <= 0x39 {
        ClassifierState { param_value: sat_digit(m.param_value, (b - 0x30) as u8), ..m }
    } else if b == 0x3B {
        let m2 = if !m.seen_semicolon {
            ClassifierState { first_param: m.param_value, seen_semicolon: true, ..m }
        } else {
            m
        };
        ClassifierState { param_value: 0, ..finalize_sgr(m2) }
    } else {
        m
    }
}

/// Bookkeeping at the final byte of a sequence.
pub open spec fn end_sequence(m1: ClassifierState, b: u8) -> ClassifierState {
    let m2 = if m1.kind == SeqKind::Unknown {
        classify_intro(m1, b)
    } else {
        m1
    };
    let m3 = if m2.param_state == ParamState::Normal && !m2.seen_semicolon {
        ClassifierState { first_param: m2.param_value, ..m2 }
    } else {
        m2
    };
    let m4 = if m3.param_state != ParamState::Inactive {
        finalize_sgr(m3)
    } else {
        m3
    };
    let m5 = if m4.kind == SeqKind::Osc && !m4.osc_finalized {
        finalize_osc(m4)
    } else {
        m4
    };
    ClassifierState { in_seq: false, ..classify_final(m5, b) }
}

/// The transition function of the classifier: next state and action.
pub open spec fn classify_step(m: ClassifierState, b: u8) -> (ClassifierState, SeqAction) {
    let prev_ground = m.parser == State::Ground;
    let (np, act) = step(m.parser, b);
    let now_ground = np == State::Ground;
    let m1 = ClassifierState { parser: np, ..m };
    if prev_ground && act == Action::Emit && now_ground {
        (ClassifierState { in_seq: false, ..m1 }, SeqAction::Emit)
    } else if prev_ground && act == Action::Skip && !now_ground {
        (
            cleared(with_flags_reset(ClassifierState { kind: SeqKind::Unknown, ..m1 }, true)),
            SeqAction::StartSeq,
        )
    } else if !prev_ground && act == Action::Skip && !now_ground {
        (accumulate(classify_intro(m1, b), b), SeqAction::InSeq)
    } else if !prev_ground && act == Action::Skip && now_ground {
        if is_abort_byte(b) && !(m.kind == SeqKind::Ss2 || m.kind == SeqKind::Ss3) {
            (cleared(with_flags_reset(m1, false)), SeqAction::Emit)
        } else {
            (end_sequence(m1, b), SeqAction::EndSeq)
        }
    } else if !prev_ground && act == Action::Emit {
        (cleared(with_flags_reset(m1, !now_ground)), SeqAction::Emit)
    } else {
        (ClassifierState { in_seq: false, ..m1 }, SeqAction::Emit)
    }
}

/// The classifier's state in the ground state with nothing recorded.
pub open spec fn initial_classifier_state() -> ClassifierState {
    ClassifierState {
        parser: State::Ground,
        kind: SeqKind::Unknown,
        in_seq: false,
        seen_semicolon: false,
        osc_finalized: false,
        osc_accumulating: false,
        dcs_is_query: false,
        dcs_phase: 0,
        sgr_content: 0,
        param_value: 0,
        param_state: ParamState::Inactive,
        osc_type: OscType::Unknown,
        first_param: 0,
        osc_number: 0,
    }
}

// ── ClassifyingParser ───────────────────────────────────────────────
/// Flag bit: inside a sequence.
const FLAG_IN_SEQ: u8 = 0b0000_0001;

/// Flag bit: a `;` was seen.
const FLAG_SEEN_SEMICOLON: u8 = 0b0000_0010;

/// Flag bit: the OSC number is final.
const FLAG_OSC_NUMBER_FINALIZED: u8 = 0b0000_0100;

/// Flag bit: accumulating OSC number digits.
const FLAG_OSC_ACCUMULATING: u8 = 0b0000_1000;

/// Flag bit: DCS DECRQSS query.
const FLAG_DCS_IS_QUERY: u8 = 0b0001_0000;

/// Mask of the 2-bit DCS body inspection phase (bits 5-6).
const DCS_PHASE_MASK: u8 = 0b0110_0000;

/// Shift of the DCS body inspection phase.
const DCS_PHASE_SHIFT: u8 = 5;

/// The boolean of one flag bit in a packed flag byte.
pub open spec fn flag_set(flags: u8, mask: u8) -> bool {
    flags & mask != 0
}

/// The model of a packed flag byte, over a state whose other fields are kept.
pub open spec fn with_packed_flags(m: ClassifierState, flags: u8) -> ClassifierState {
    ClassifierState {
        in_seq: flag_set(flags, 1),
        seen_semicolon: flag_set(flags, 2),
        osc_finalized: flag_set(flags, 4),
        osc_accumulating: flag_set(flags, 8),
        dcs_is_query: flag_set(flags, 16),
        dcs_phase: (flags & 0x60u8) >> 5u8,
        ..m
    }
}

/// Flag masks of single boolean flags.
pub open spec fn is_flag_mask(mask: u8) -> bool {
    mask == 1 || mask == 2 || mask == 4 || mask == 8 || mask == 16
}

/// A state with one boolean flag (given by its mask) replaced.
pub open spec fn with_flag(m: ClassifierState, mask: u8, v: bool) -> ClassifierState {
    if mask == 1 {
        ClassifierState { in_seq: v, ..m }
    } else if mask == 2 {
        ClassifierState { seen_semicolon: v, ..m }
    } else if mask == 4 {
        ClassifierState { osc_finalized: v, ..m }
    } else if mask == 8 {
        ClassifierState { osc_accumulating: v, ..m }
    } else {
        ClassifierState { dcs_is_query: v, ..m }
    }
}

proof fn lemma_set_flag_bits(f: u8, mask: u8, v: bool)
    requires
        is_flag_mask(mask),
    ensures
        ({
            let g = if v { f | mask } else { f & !mask };
            &&& (g & 1 != 0) == (if mask == 1 { v } else { f & 1 != 0 })
            &&& (g & 2 != 0) == (if mask == 2 { v } else { f & 2 != 0 })
            &&& (g & 4 != 0) == (if mask == 4 { v } else { f & 4 != 0 })
            &&& (g & 8 != 0) == (if mask == 8 { v } else { f & 8 != 0 })
            &&& (g & 16 != 0) == (if mask == 16 { v } else { f & 16 != 0 })
            &&& (g & 0x60) >> 5 == (f & 0x60) >> 5
        }),
{
    if v {
        assert(mask == 1 || mask == 2 || mask == 4 || mask == 8 || mask == 16 ==> {
            let g = f | mask;
            &&& (g & 1 != 0) == (if mask == 1 { true } else { f & 1 != 0 })
            &&& (g & 2 != 0) == (if mask == 2 { true } else { f & 2 != 0 })
            &&& (g & 4 != 0) == (if mask == 4 { true } else { f & 4 != 0 })
            &&& (g & 8 != 0) == (if mask == 8 { true } else { f & 8 != 0 })
            &&& (g & 16 != 0) == (if mask == 16 { true } else { f & 16 != 0 })
            &&& (g & 0x60) >> 5 == (f & 0x60) >> 5
        }) by (bit_vector);
    } else {
        assert(mask == 1 || mask == 2 || mask == 4 || mask == 8 || mask == 16 ==> {
            let g = f & !mask;
            &&& (g & 1 != 0) == (if mask == 1 { false } else { f & 1 != 0 })
            &&& (g & 2 != 0) == (if mask == 2 { false } else { f & 2 != 0 })
            &&& (g & 4 != 0) == (if mask == 4 { false } else { f & 4 != 0 })
            &&& (g & 8 != 0) == (if mask == 8 { false } else { f & 8 != 0 })
            &&& (g & 16 != 0) == (if mask == 16 { false } else { f & 16 != 0 })
            &&& (g & 0x60) >> 5 == (f & 0x60) >> 5
        }) by (bit_vector);
    }
}

proof fn lemma_set_phase_bits(f: u8, phase: u8)
    requires
        phase <= 3,
    ensures
        ({
            let g = (f & !0x60u8) | (phase << 5u8);
            &&& (g & 1 != 0) == (f & 1 != 0)
            &&& (g & 2 != 0) == (f & 2 != 0)
            &&& (g & 4 != 0) == (f & 4 != 0)
            &&& (g & 8 != 0) == (f & 8 != 0)
            &&& (g & 16 != 0) == (f & 16 != 0)
            &&& (g & 0x60) >> 5 == phase
        }),
{
    assert(phase <= 3 ==> {
        let g = (f & !0x60u8) | (phase << 5u8);
        &&& (g & 1 != 0) == (f & 1 != 0)
        &&& (g & 2 != 0) == (f & 2 != 0)
        &&& (g & 4 != 0) == (f & 4 != 0)
        &&& (g & 8 != 0) == (f & 8 != 0)
        &&& (g & 16 != 0) == (f & 16 != 0)
        &&& (g & 0x60) >> 5 == phase
    }) by (bit_vector);
}

proof fn lemma_const_flags()
    ensures
        !flag_set(0, 1) && !flag_set(0, 2) && !flag_set(0, 4) && !flag_set(0, 8) && !flag_set(
            0,
            16,
        ) && (0u8 & 0x60u8) >> 5u8 == 0,
        flag_set(1, 1) && !flag_set(1, 2) && !flag_set(1, 4) && !flag_set(1, 8) && !flag_set(
            1,
            16,
        ) && (1u8 & 0x60u8) >> 5u8 == 0,
{
    assert(0u8 & 1u8 == 0 && 0u8 & 2u8 == 0 && 0u8 & 4u8 == 0 && 0u8 & 8u8 == 0 && 0u8 & 16u8
        == 0 && (0u8 & 0x60u8) >> 5u8 == 0) by (bit_vector);
    assert(1u8 & 1u8 != 0 && 1u8 & 2u8 == 0 && 1u8 & 4u8 == 0 && 1u8 & 8u8 == 0 && 1u8 & 16u8
        == 0 && (1u8 & 0x60u8) >> 5u8 == 0) by (bit_vector);
}

proof fn lemma_phase_bound(f: u8)
    ensures
        (f & 0x60u8) >> 5u8 <= 3,
{
    assert((f & 0x60u8) >> 5u8 <= 3) by (bit_vector);
}

/// Wraps [`Parser`] to track sequence type at boundaries.
///
/// Zero heap allocations; 12 bytes. Boolean flags are packed into one byte:
/// bit 0 `in_seq`, bit 1 `seen_semicolon`, bit 2 `osc_number_finalized`,
/// bit 3 `osc_accumulating`, bit 4 `dcs_is_query`, bits 5-6 DCS phase.
#[derive(Copy, Clone, Debug, PartialEq, Eq, Structural)]
pub struct ClassifyingParser {
    parser: Parser,
    kind: SeqKind,
    flags: u8,
    sgr_content: SgrContent,
    param_value: u16,
    param_state: ParamState,
    osc_type: OscType,
    first_param: u16,
    osc_number: u16,
}

impl View for ClassifyingParser {
    type V = ClassifierState;

    closed spec fn view(&self) -> ClassifierState {
        with_packed_flags(
            ClassifierState {
                parser: self.parser@,
                kind: self.kind,
                in_seq: false,
                seen_semicolon: false,
                osc_finalized: false,
                osc_accumulating: false,
                dcs_is_query: false,
                dcs_phase: 0,
                sgr_content: self.sgr_content.0,
                param_value: self.param_value,
                param_state: self.param_state,
                osc_type: self.osc_type,
                first_param: self.first_param,
                osc_number: self.osc_number,
            },
            self.flags,
        )
    }
}

impl ClassifyingParser {
    /// Create a new classifying parser in the ground state.
    pub fn new() -> (p: Self)
        ensures
            p@ == initial_classifier_state(),
    {
        proof {
            lemma_const_flags();
        }
        ClassifyingParser {
            parser: Parser::new(),
            kind: SeqKind::Unknown,
            flags: 0,
            sgr_content: SgrContent::empty(),
            param_value: 0,
            param_state: ParamState::Inactive,
            osc_type: OscType::Unknown,
            first_param: 0,
            osc_number: 0,
        }
    }

    /// Reset the parser to the ground state.
    pub fn reset(&mut self)
        ensures
            final(self)@ == initial_classifier_state(),
    {
        proof {
            lemma_const_flags();
        }
        self.parser.reset();
        self.kind = SeqKind::Unknown;
        self.flags = 0;
        self.sgr_content = SgrContent::empty();
        self.param_value = 0;
        self.param_state = ParamState::Inactive;
        self.osc_type = OscType::Unknown;
        self.first_param = 0;
        self.osc_number = 0;
    }

    /// Returns `true` if the inner parser is in the ground state.
    pub fn is_ground(&self) -> (b: bool)
        ensures
            b == (self@.parser == State::Ground),
    {
        self.parser.is_ground()
    }

    /// Returns the current sequence kind.
    pub fn current_kind(&self) -> (k: SeqKind)
        ensures
            k == self@.kind,
    {
        self.kind
    }

    /// Returns the current accumulated parameter value.
    pub fn param_value(&self) -> (v: u16)
        ensures
            v == self@.param_value,
    {
        self.param_value
    }

    /// Returns the current parameter accumulator state.
    pub fn param_state(&self) -> (s: ParamState)
        ensures
            s == self@.param_state,
    {
        self.param_state
    }

    /// Returns the first parameter of the current CSI sequence.
    pub fn first_param(&self) -> (v: u16)
        ensures
            v == self@.first_param,
    {
        self.first_param
    }

    /// Returns the accumulated SGR content bitfield for the current sequence.
    pub fn sgr_content(&self) -> (c: SgrContent)
        ensures
            c.0 == self@.sgr_content,
    {
        self.sgr_content
    }

    /// Returns the OSC type for the current OSC sequence.
    pub fn osc_type(&self) -> (t: OscType)
        ensures
            t == self@.osc_type,
    {
        self.osc_type
    }

    /// Returns the raw OSC number for the current OSC sequence.
    pub fn osc_number(&self) -> (n: u16)
        ensures
            n == self@.osc_number,
    {
        self.osc_number
    }

    /// Returns `true` if the current DCS sequence is a DECRQSS query
    /// (`ESC P $ q`).
    pub fn dcs_is_query(&self) -> (b: bool)
        ensures
            b == self@.dcs_is_query,
    {
        (self.flags & FLAG_DCS_IS_QUERY) != 0
    }

    /// Reads one boolean flag.
    fn flag(&self, mask: u8) -> (b: bool)
        requires
            is_flag_mask(mask),
        ensures
            b == (with_flag(self@, mask, true) == self@),
    {
        (self.flags & mask) != 0
    }

    /// Sets or clears one boolean flag.
    fn set_flag(&mut self, mask: u8, v: bool)
        requires
            is_flag_mask(mask),
        ensures
            final(self)@ == with_flag(old(self)@, mask, v),
    {
        proof {
            lemma_set_flag_bits(self.flags, mask, v);
        }
        if v {
            self.flags = self.flags | mask;
        } else {
            self.flags = self.flags & !mask;
        }
    }

    /// Returns the 2-bit DCS body inspection phase (0–3).
    fn dcs_phase(&self) -> (p: u8)
        ensures
            p == self@.dcs_phase,
            p <= 3,
    {
        proof {
            lemma_phase_bound(self.flags);
        }
        (self.flags & DCS_PHASE_MASK) >> DCS_PHASE_SHIFT
    }

    /// Sets the 2-bit DCS body inspection phase (0–3).
    fn set_dcs_phase(&mut self, phase: u8)
        requires
            phase <= 3,
        ensures
            final(self)@ == (ClassifierState { dcs_phase: phase, ..old(self)@ }),
    {
        proof {
            lemma_set_phase_bits(self.flags, phase);
        }
        self.flags = (self.flags & !DCS_PHASE_MASK) | (phase << DCS_PHASE_SHIFT);
    }

    /// Snapshot all classifier outputs into a [`SeqDetail`].
    pub fn detail(&self) -> (d: SeqDetail)
        ensures
            d.kind == self@.kind,
            d.sgr_content.0 == self@.sgr_content,
            d.osc_type == self@.osc_type,
            d.osc_number == self@.osc_number,
            d.first_param == self@.first_param,
            d.dcs_is_query == self@.dcs_is_query,
    {
        SeqDetail {
            kind: self.kind,
            sgr_content: self.sgr_content,
            osc_type: self.osc_type,
            osc_number: self.osc_number,
            first_param: self.first_param,
            dcs_is_query: self.dcs_is_query(),
        }
    }

    /// Clears all per-sequence accumulators.
    fn clear_accumulators(&mut self)
        ensures
            final(self)@ == cleared(old(self)@),
    {
        self.sgr_content = SgrContent::empty();
        self.param_value = 0;
        self.param_state = ParamState::Inactive;
        self.first_param = 0;
        self.osc_type = OscType::Unknown;
        self.osc_number = 0;
    }

    /// Replaces all flags: everything cleared, `in_seq` as given.
    fn reset_flags(&mut self, in_seq: bool)
        ensures
            final(self)@ == with_flags_reset(old(self)@, in_seq),
    {
        proof {
            lemma_const_flags();
        }
        self.flags = if in_seq { FLAG_IN_SEQ } else { 0 };
    }
}

impl ClassifyingParser {
    /// Feed a single byte through the classifying parser.
    ///
    /// Returns a [`SeqAction`] indicating the role of the byte. The inner
    /// [`Parser`] is always advanced.
    #[verifier::spinoff_prover]
    #[verifier::rlimit(40)]
    pub fn feed(&mut self, byte: u8) -> (a: SeqAction)
        ensures
            (final(self)@, a) == classify_step(old(self)@, byte),
    {
        let prev_ground = self.parser.is_ground();
        let action = self.parser.feed(byte);
        let now_ground = self.parser.is_ground();
        // Content byte while in ground state.
        if prev_ground && action == Action::Emit && now_ground {
            self.set_flag(FLAG_IN_SEQ, false);
            return SeqAction::Emit;
        }
        // ESC byte leaving ground: start of a new sequence.
        if prev_ground && action == Action::Skip && !now_ground {
            self.kind = SeqKind::Unknown;
            self.reset_flags(true);
            // Reset all accumulator fields on StartSeq.
            self.clear_accumulators();
            return SeqAction::StartSeq;
        }
        // Body byte inside sequence (still not ground).
        if !prev_ground && action == Action::Skip && !now_ground {
            self.classify_if_introducer(byte);
            self.accumulate_param(byte);
            return SeqAction::InSeq;
        }
        // Final byte: sequence complete, parser returns to ground.
        if !prev_ground && action == Action::Skip && now_ground {
            // CAN / SUB abort the sequence: treat as Emit and reset all
            // accumulator fields. SS2/SS3 legitimately consume any next byte
            // (including CAN/SUB) as the single character byte.
            if (byte == 0x18 || byte == 0x1A) && !matches!(self.kind, SeqKind::Ss2 | SeqKind::Ss3) {
                self.clear_accumulators();
                self.reset_flags(false);
                return SeqAction::Emit;
            }
            // For Fe sequences the introducer is the final byte.
            if self.kind == SeqKind::Unknown {
                self.classify_if_introducer(byte);
            }
            // Single-param case: no `;` was seen, capture first_param now.
            if self.param_state == ParamState::Normal && !self.flag(FLAG_SEEN_SEMICOLON) {
                self.first_param = self.param_value;
            }
            // The final byte terminates the last SGR parameter.
            if self.param_state != ParamState::Inactive {
                self.finalize_sgr_param();
            }
            // Finalize the OSC number if no `;` came before the terminator.
            if self.kind == SeqKind::Osc && !self.flag(FLAG_OSC_NUMBER_FINALIZED) {
                self.finalize_osc_number();
            }
            self.classify_csi_final(byte);
            self.set_flag(FLAG_IN_SEQ, false);
            return SeqAction::EndSeq;
        }
        // Content byte emitted while inside a sequence.
        if !prev_ground && action == Action::Emit {
            self.clear_accumulators();
            self.reset_flags(!now_ground);
            return SeqAction::Emit;
        }
        // Fallback: treat as content.
        self.set_flag(FLAG_IN_SEQ, false);
        SeqAction::Emit
    }

    /// Accumulate CSI parameter bytes, OSC number digits, or inspect the
    /// DCS body for a DECRQSS query.
    #[verifier::spinoff_prover]
    #[verifier::rlimit(50)]
    fn accumulate_param(&mut self, byte: u8)
        ensures
            final(self)@ == accumulate(old(self)@, byte),
    {
        // Activate on the first body byte of a CSI sequence.
        if self.param_state == ParamState::Inactive && self.kind == SeqKind::CsiOther {
            self.param_state = ParamState::Normal;
        }
        // Activate OSC accumulation on the first body byte of an OSC sequence.
        if self.kind == SeqKind::Osc && !self.flag(FLAG_OSC_NUMBER_FINALIZED) && !self.flag(
            FLAG_OSC_ACCUMULATING,
        ) {
            // The introducer byte is not part of the OSC number.
            self.set_flag(FLAG_OSC_ACCUMULATING, true);
            return;
        }
        // OSC number accumulation path.
        if self.flag(FLAG_OSC_ACCUMULATING) {
            match byte {
                0x30..=0x39 => {
                    self.param_value = saturating_digit(self.param_value, byte - 0x30);
                },
                // Semicolon or any other byte: finalize with what we have.
                _ => {
                    self.finalize_osc_number();
                },
            }
            return;
        }
        // DCS body inspection: detect the DECRQSS `$q` pattern.
        if self.kind == SeqKind::Dcs {
            let phase = self.dcs_phase();
            match phase {
                0 => {
                    // Skip the introducer byte ('P').
                    self.set_dcs_phase(1);
                },
                1 => {
                    if byte == 0x24 {
                        self.set_dcs_phase(2);
                    } else {
                        self.set_dcs_phase(3);
                    }
                },
                2 => {
                    if byte == 0x71 {
                        self.set_flag(FLAG_DCS_IS_QUERY, true);
                    }
                    self.set_dcs_phase(3);
                },
                _ => {},
            }
            return;
        }
        if self.param_state == ParamState::Inactive {
            return;
        }
        match byte {
            0x30..=0x39 => {
                self.param_value = saturating_digit(self.param_value, byte - 0x30);
            },
            0x3B => {
                // Capture first_param on the first semicolon.
                if !self.flag(FLAG_SEEN_SEMICOLON) {
                    self.first_param = self.param_value;
                    self.set_flag(FLAG_SEEN_SEMICOLON, true);
                }
                self.finalize_sgr_param();
                self.param_value = 0;
            },
            _ => {},
        }
    }

    /// Finalize the OSC number from `param_value`.
    fn finalize_osc_number(&mut self)
        ensures
            final(self)@ == finalize_osc(old(self)@),
    {
        self.osc_number = self.param_value;
        self.osc_type = map_osc_number(self.osc_number);
        self.set_flag(FLAG_OSC_NUMBER_FINALIZED, true);
        self.set_flag(FLAG_OSC_ACCUMULATING, false);
    }

    /// Finalize the current SGR parameter value and update the SGR state.
    fn finalize_sgr_param(&mut self)
        ensures
            final(self)@ == finalize_sgr(old(self)@),
    {
        let v = self.param_value;
        match self.param_state {
            ParamState::Normal => {
                match v {
                    // Transition to AwaitMode — do NOT set any bit yet.
                    38 | 48 => {
                        self.param_state = ParamState::AwaitMode;
                    },
                    // Basic SGR ranges: set BASIC bit, stay Normal.
                    0..=29 | 39 | 49 | 90..=97 | 100..=107 => {
                        self.sgr_content = self.sgr_content.union(SgrContent::basic());
                    },
                    // Unknown param: stay Normal, ignore.
                    _ => {},
                }
            },
            ParamState::AwaitMode => {
                match v {
                    // 38;5;N or 48;5;N — EXTENDED, skip 1 param.
                    5 => {
                        self.sgr_content = self.sgr_content.union(SgrContent::extended());
                        self.param_state = ParamState::Skip1;
                    },
                    // 38;2;R;G;B or 48;2;R;G;B — TRUECOLOR, skip 3 params.
                    2 => {
                        self.sgr_content = self.sgr_content.union(SgrContent::truecolor());
                        self.param_state = ParamState::Skip3;
                    },
                    // Malformed: recover to Normal, no bit set.
                    _ => {
                        self.param_state = ParamState::Normal;
                    },
                }
            },
            ParamState::Skip3 => {
                self.param_state = ParamState::Skip2;
            },
            ParamState::Skip2 => {
                self.param_state = ParamState::Skip1;
            },
            ParamState::Skip1 => {
                self.param_state = ParamState::Normal;
            },
            ParamState::Inactive => {},
        }
    }

    /// Classify the introducer byte, once per sequence (`kind == Unknown`).
    fn classify_if_introducer(&mut self, byte: u8)
        ensures
            final(self)@ == classify_intro(old(self)@, byte),
    {
        if self.kind != SeqKind::Unknown {
            return;
        }
        self.kind = match byte {
            0x5B => SeqKind::CsiOther,
            0x5D => SeqKind::Osc,
            0x50 => SeqKind::Dcs,
            0x58 => SeqKind::Sos,
            0x5E => SeqKind::Pm,
            0x5F => SeqKind::Apc,
            0x4E => SeqKind::Ss2,
            0x4F => SeqKind::Ss3,
            0x20..=0x7E => SeqKind::Fe,
            _ => SeqKind::Unknown,
        };
    }

    /// Refine a CSI kind by its final byte (only when `kind == CsiOther`).
    fn classify_csi_final(&mut self, byte: u8)
        ensures
            final(self)@ == classify_final(old(self)@, byte),
    {
        if self.kind != SeqKind::CsiOther {
            return;
        }
        self.kind = match byte {
            0x6D => SeqKind::CsiSgr,
            0x41..=0x48 | 0x66 => SeqKind::CsiCursor,
            0x4A | 0x4B => SeqKind::CsiErase,
            0x53 | 0x54 => SeqKind::CsiScroll,
            0x68 | 0x6C => SeqKind::CsiMode,
            0x6E => {
                // CSI 6n: cursor position report (echoback vector).
                if self.first_param == 6 {
                    SeqKind::CsiQuery
                } else {
                    SeqKind::CsiDeviceStatus
                }
            },
            0x63 => SeqKind::CsiDeviceStatus,
            0x74 => {
                // CSI 21t: title report (CVE-2003-0063, echoback vector).
                if self.first_param == 21 {
                    SeqKind::CsiQuery
                } else {
                    SeqKind::CsiWindow
                }
            },
            _ => SeqKind::CsiOther,
        };
    }
}

impl Default for ClassifyingParser {
    fn default() -> (p: Self)
        ensures
            p@ == initial_classifier_state(),
    {
        Self::new()
    }
}

/// The classifier runs the stripping state machine unchanged: its inner
/// parser takes exactly the [`Parser`] transition on every byte.
pub proof fn law_classifier_tracks_parser(m: ClassifierState, b: u8)
    ensures
        classify_step(m, b).0.parser == step(m.parser, b).0,
{
}

/// A byte is reported as content exactly when the parser emits it, or when
/// it is a CAN/SUB that aborts a sequence (other than the one-byte SS2/SS3
/// payload).
pub proof fn law_classifier_emit(m: ClassifierState, b: u8)
    ensures
        (classify_step(m, b).1 == SeqAction::Emit) == (step(m.parser, b).1 == Action::Emit || (
        m.parser != State::Ground && step(m.parser, b).0 == State::Ground && is_abort_byte(b)
            && !(m.kind == SeqKind::Ss2 || m.kind == SeqKind::Ss3))),
{
    crate::parser::lemma_emit_only_from_ground(m.parser, b);
}

/// `StartSeq` is reported exactly for an ESC seen in the ground state, and
/// it clears everything recorded about the previous sequence.
pub proof fn law_start_resets(m: ClassifierState, b: u8)
    ensures
        (classify_step(m, b).1 == SeqAction::StartSeq) == (m.parser == State::Ground && b
            == crate::parser::ESC),
        classify_step(m, b).1 == SeqAction::StartSeq ==> ({
            let n = classify_step(m, b).0;
            &&& n.kind == SeqKind::Unknown
            &&& n.sgr_content == 0 && n.param_value == 0 && n.first_param == 0
            &&& n.param_state == ParamState::Inactive
            &&& n.osc_type == OscType::Unknown && n.osc_number == 0
            &&& !n.dcs_is_query && n.in_seq
        }),
{
}

/// Invariant: the classifier is inside a sequence exactly when its parser
/// is away from the ground state, and the DCS phase stays in `0..=3`.
pub open spec fn classifier_inv(m: ClassifierState) -> bool {
    m.in_seq == (m.parser != State::Ground) && m.dcs_phase <= 3
}

/// Every step keeps [`classifier_inv`].
pub proof fn law_classifier_inv_preserved(m: ClassifierState, b: u8)
    requires
        classifier_inv(m),
    ensures
        classifier_inv(classify_step(m, b).0),
{
}

/// The initial state satisfies [`classifier_inv`].
pub proof fn law_classifier_inv_initial()
    ensures
        classifier_inv(initial_classifier_state()),
{
}

/// `v * 10 + d`, saturating at `u16::MAX`.
pub(crate) fn saturating_digit(v: u16, d: u8) -> (r: u16)
    requires
        d <= 9,
    ensures
        r == sat_digit(v, d),
{
    if v > 6553 {
        u16::MAX
    } else {
        let t = v * 10;
        t.saturating_add(d as u16)
    }
}

// ── Whole-sequence laws ─────────────────────────────────────────────
/// The classifier state after feeding `t` from `m`.
pub open spec fn classify_run(m: ClassifierState, t: Seq<u8>) -> ClassifierState
    decreases t.len(),
{
    if t.len() == 0 {
        m
    } else {
        classify_step(classify_run(m, t.drop_last()), t.last()).0
    }
}

/// The DECRQSS detection a DCS body gives: the phase reached and whether
/// it starts with `$ q`.
pub open spec fn dcs_body_phase(body: Seq<u8>) -> (u8, bool) {
    if body.len() == 0 {
        (1, false)
    } else if body.len() == 1 {
        (if body[0] == 0x24 { 2u8 } else { 3u8 }, false)
    } else {
        (3, body[0] == 0x24 && body[1] == 0x71)
    }
}

proof fn lemma_dcs_body(m: ClassifierState, body: Seq<u8>)
    requires
        m.parser == State::Ground,
        forall|i: int| 0 <= i < body.len() ==> (#[trigger] body[i]) != ESC && !is_abort_byte(body[i]),
    ensures
        ({
            let s = classify_run(m, seq![ESC, 0x50u8] + body);
            &&& s.parser == State::DcsEntry || s.parser == State::DcsParam || s.parser
                == State::DcsPassthrough
            &&& s.kind == SeqKind::Dcs
            &&& !s.osc_accumulating
            &&& s.param_state == ParamState::Inactive
            &&& (s.dcs_phase, s.dcs_is_query) == dcs_body_phase(body)
        }),
    decreases body.len(),
{
    let pre = seq![ESC, 0x50u8];
    if body.len() == 0 {
        assert(pre + body =~= pre);
        assert(pre.drop_last() =~= seq![ESC]);
        assert(seq![ESC].drop_last() =~= Seq::<u8>::empty());
        assert(classify_run(m, Seq::<u8>::empty()) == m);
        assert(classify_run(m, seq![ESC]) == classify_step(m, ESC).0);
        assert(classify_run(m, pre) == classify_step(classify_run(m, seq![ESC]), 0x50u8).0);
    } else {
        let init = body.drop_last();
        assert forall|i: int| 0 <= i < init.len() implies (#[trigger] init[i]) != ESC && !is_abort_byte(init[i]) by {
            assert(init[i] == body[i]);
        }
        lemma_dcs_body(m, init);
        assert((pre + body).drop_last() =~= pre + init);
        assert((pre + body).last() == body.last());
        assert(classify_run(m, pre + body) == classify_step(classify_run(m, pre + init), body.last()).0);
        assert(body.last() == body[body.len() - 1]);
        if body.len() == 1 {
            assert(body[0] == body.last());
        } else if body.len() == 2 {
            assert(init[0] == body[0]);
            assert(body[1] == body.last());
        } else {
            assert(init[0] == body[0] && init[1] == body[1]);
        }
    }
}

/// A DCS sequence `ESC P body ESC \` (the body holding no ESC, CAN or SUB)
/// ends at the `\`, is classified `Dcs`, and is a DECRQSS query exactly
/// when its body starts with `$ q`.
pub proof fn law_dcs_query(m: ClassifierState, body: Seq<u8>)
    requires
        m.parser == State::Ground,
        forall|i: int| 0 <= i < body.len() ==> (#[trigger] body[i]) != ESC && !is_abort_byte(body[i]),
    ensures
        ({
            let s = classify_run(m, seq![ESC, 0x50u8] + body + seq![ESC]);
            let r = classify_step(s, 0x5C);
            &&& r.1 == SeqAction::EndSeq
            &&& r.0.kind == SeqKind::Dcs
            &&& r.0.dcs_is_query == (body.len() >= 2 && body[0] == 0x24 && body[1] == 0x71)
        }),
{
    lemma_dcs_body(m, body);
    let t = seq![ESC, 0x50u8] + body + seq![ESC];
    assert(t.drop_last() =~= seq![ESC, 0x50u8] + body);
    assert(t.last() == ESC);
}

#[verifier::spinoff_prover]
#[verifier::rlimit(60)]
proof fn lemma_csi_params(m: ClassifierState, params: Seq<u8>)
    requires
        m.parser == State::Ground,
        forall|i: int| 0 <= i < params.len() ==> 0x30 <= #[trigger] params[i] <= 0x3F,
    ensures
        ({
            let s = classify_run(m, seq![ESC, 0x5Bu8] + params);
            &&& s.parser == State::CsiParam
            &&& s.kind == SeqKind::CsiOther
            &&& !s.osc_accumulating
        }),
    decreases params.len(),
{
    let pre = seq![ESC, 0x5Bu8];
    if params.len() == 0 {
        assert(pre + params =~= pre);
        assert(pre.drop_last() =~= seq![ESC]);
        assert(seq![ESC].drop_last() =~= Seq::<u8>::empty());
        assert(classify_run(m, Seq::<u8>::empty()) == m);
        assert(classify_run(m, seq![ESC]) == classify_step(m, ESC).0);
        assert(classify_run(m, pre) == classify_step(classify_run(m, seq![ESC]), 0x5Bu8).0);
    } else {
        let init = params.drop_last();
        assert forall|i: int| 0 <= i < init.len() implies 0x30 <= #[trigger] init[i] <= 0x3F by {
            assert(init[i] == params[i]);
        }
        lemma_csi_params(m, init);
        assert((pre + params).drop_last() =~= pre + init);
        assert((pre + params).last() == params[params.len() - 1]);
        let prev = classify_run(m, pre + init);
        let b = params.last();
        assert(0x30 <= b <= 0x3F);
        assert(step(prev.parser, b) == (State::CsiParam, Action::Skip));
        assert(classify_step(prev, b).1 == SeqAction::InSeq);
        assert(classify_intro(ClassifierState { parser: State::CsiParam, ..prev }, b).kind == SeqKind::CsiOther);
        assert(classify_run(m, pre + params) == classify_step(prev, b).0);
    }
}

/// A CSI sequence `ESC [ params f` (parameter bytes in `0x30..=0x3F`, a
/// final byte `f` in `0x40..=0x7E`) ends at `f` and is classified by its
/// final byte and first parameter.
pub proof fn law_csi_kind(m: ClassifierState, params: Seq<u8>, f: u8)
    requires
        m.parser == State::Ground,
        forall|i: int| 0 <= i < params.len() ==> 0x30 <= #[trigger] params[i] <= 0x3F,
        0x40 <= f <= 0x7E,
    ensures
        ({
            let r = classify_step(classify_run(m, seq![ESC, 0x5Bu8] + params), f);
            &&& r.1 == SeqAction::EndSeq
            &&& r.0.kind == csi_final_kind(f, r.0.first_param)
        }),
{
    lemma_csi_params(m, params);
}

/// What each CSI final byte means: `A`-`H` and `f` move the cursor, `m`
/// sets graphic rendition, `J`/`K` erase, `S`/`T` scroll, `h`/`l` set
/// modes, `c` asks for device attributes, `n` asks for a status report (a
/// cursor position report, an echoback query, for first parameter 6), `t`
/// manipulates the window (a title report, an echoback query, for first
/// parameter 21); every other final byte is some other CSI sequence.
pub proof fn law_csi_final_kinds(m: ClassifierState, params: Seq<u8>, f: u8)
    requires
        m.parser == State::Ground,
        forall|i: int| 0 <= i < params.len() ==> 0x30 <= #[trigger] params[i] <= 0x3F,
        0x40 <= f <= 0x7E,
    ensures
        ({
            let r = classify_step(classify_run(m, seq![ESC, 0x5Bu8] + params), f);
            let k = r.0.kind;
            &&& r.1 == SeqAction::EndSeq
            &&& (('A' as u8 <= f <= 'H' as u8) || f == 'f' as u8) <==> k == SeqKind::CsiCursor
            &&& f == 'm' as u8 <==> k == SeqKind::CsiSgr
            &&& (f == 'J' as u8 || f == 'K' as u8) <==> k == SeqKind::CsiErase
            &&& (f == 'S' as u8 || f == 'T' as u8) <==> k == SeqKind::CsiScroll
            &&& (f == 'h' as u8 || f == 'l' as u8) <==> k == SeqKind::CsiMode
            &&& ((f == 'n' as u8 && r.0.first_param != 6) || f == 'c' as u8) <==> k
                == SeqKind::CsiDeviceStatus
            &&& (f == 't' as u8 && r.0.first_param != 21) <==> k == SeqKind::CsiWindow
            &&& ((f == 'n' as u8 && r.0.first_param == 6) || (f == 't' as u8 && r.0.first_param
                == 21)) <==> k == SeqKind::CsiQuery
            &&& k == SeqKind::CsiOther <==> !(('A' as u8 <= f <= 'H' as u8) || f == 'f' as u8
                || f == 'm' as u8 || f == 'J' as u8 || f == 'K' as u8 || f == 'S' as u8 || f
                == 'T' as u8 || f == 'h' as u8 || f == 'l' as u8 || f == 'n' as u8 || f == 'c' as u8
                || f == 't' as u8)
            &&& spec_group(k) == SeqGroup::Csi
        }),
{
    law_csi_kind(m, params, f);
}

/// What the byte after ESC introduces: `[` a CSI sequence (still open; its
/// final byte decides the kind), `]` OSC, `P` DCS, `X` SOS, `^` PM, `_` APC,
/// `N` SS2, `O` SS3; any other printable byte is a plain (Fe) escape.
pub proof fn law_escape_intro(m: ClassifierState, b: u8)
    requires
        m.parser == State::Ground,
        0x20 <= b <= 0x7E,
    ensures
        ({
            let k = classify_run(m, seq![ESC, b]).kind;
            &&& b == '[' as u8 ==> k == SeqKind::CsiOther
            &&& b == ']' as u8 ==> k == SeqKind::Osc
            &&& b == 'P' as u8 ==> k == SeqKind::Dcs
            &&& b == 'X' as u8 ==> k == SeqKind::Sos
            &&& b == '^' as u8 ==> k == SeqKind::Pm
            &&& b == '_' as u8 ==> k == SeqKind::Apc
            &&& b == 'N' as u8 ==> k == SeqKind::Ss2
            &&& b == 'O' as u8 ==> k == SeqKind::Ss3
            &&& !(b == '[' as u8 || b == ']' as u8 || b == 'P' as u8 || b == 'X' as u8 || b == '^' as u8
                || b == '_' as u8 || b == 'N' as u8 || b == 'O' as u8) ==> k == SeqKind::Fe
        }),
{
    assert(seq![ESC, b].drop_last() =~= seq![ESC]);
    assert(seq![ESC].drop_last() =~= Seq::<u8>::empty());
    assert(seq![ESC, b].last() == b);
    assert(classify_run(m, Seq::<u8>::empty()) == m);
    assert(classify_run(m, seq![ESC]) == classify_step(m, ESC).0);
}

/// How one finished SGR parameter marks the color depths a sequence uses:
/// the basic parameters (0-29, 39, 49, 90-97, 100-107) mark basic color;
/// `38`/`48` followed by `5` mark 256-color and skip the index; followed by
/// `2` mark truecolor and skip the three channels; the marks are only ever
/// added, and no other parameter adds one.
pub proof fn law_sgr_param_marks(m: ClassifierState)
    ensures
        ({
            let v = m.param_value;
            let n = finalize_sgr(m);
            let basic = v <= 29 || v == 39 || v == 49 || (90 <= v <= 97) || (100 <= v <= 107);
            &&& m.param_state == ParamState::Normal && basic ==> n.sgr_content == m.sgr_content | 1u8
                && n.param_state == ParamState::Normal
            &&& m.param_state == ParamState::Normal && (v == 38 || v == 48) ==> n.sgr_content
                == m.sgr_content && n.param_state == ParamState::AwaitMode
            &&& m.param_state == ParamState::AwaitMode && v == 5 ==> n.sgr_content == m.sgr_content
                | 2u8 && n.param_state == ParamState::Skip1
            &&& m.param_state == ParamState::AwaitMode && v == 2 ==> n.sgr_content == m.sgr_content
                | 4u8 && n.param_state == ParamState::Skip3
            &&& !(m.param_state == ParamState::Normal && basic) && !(m.param_state
                == ParamState::AwaitMode && (v == 5 || v == 2)) ==> n.sgr_content == m.sgr_content
        }),
{
}

} // verus!
