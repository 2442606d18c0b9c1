//! Filter configuration and stateless filter API for selective ANSI
//! escape sequence stripping.
//!
//! [`FilterConfig`] expresses a strip/preserve policy over sequence groups
//! ([`SeqGroup`]) and sub-kinds ([`SeqKind`]). The default mode strips all
//! escape sequences; builder methods selectively preserve groups or
//! individual sub-kinds.

use vstd::prelude::*;

use smallvec::SmallVec;

use std::borrow::Cow;

use vstd::string::StringSliceAdditionalSpecFns;
use vstd::utf8::{decode_utf8, encode_utf8, encode_utf8_decode_utf8, encode_utf8_valid_utf8, valid_utf8};

use crate::classifier::{
    ClassifierState, ClassifyingParser, OscType, SeqAction, SeqDetail, SeqGroup, SeqKind,
    SgrContent, classifier_inv, classify_step, initial_classifier_state, law_classifier_emit,
    law_classifier_inv_initial, law_classifier_inv_preserved, law_classifier_tracks_parser,
    spec_group,
};
use crate::parser::{Action, ESC, State, is_abort_byte, lemma_run_push, run_out, run_state, step};
use crate::scan::{append_range, append_slice, find_byte, next_esc};
use crate::strip::{
    decode_dropping, spec_strip, spec_strip_borrows, str_from_utf8, strip, string_from_utf8,
    text_dropping_split_chars,
};
use crate::stream::{concat_all, lemma_concat_push, lemma_views_push, slice_views};

verus! {

// ── Inline lists ────────────────────────────────────────────────────
/// An inline list of kinds, held in a `SmallVec<[SeqKind; 4]>`.
#[verifier::external_body]
#[derive(Debug)]
pub struct KindList {
    items: SmallVec<[SeqKind; 4]>,
}

/// An inline list of OSC types, held in a `SmallVec<[OscType; 2]>`.
#[verifier::external_body]
#[derive(Debug)]
pub struct OscList {
    items: SmallVec<[OscType; 2]>,
}

/// The kinds held by an inline kind list, in order.
pub uninterp spec fn kind_list_items(v: KindList) -> Seq<SeqKind>;

/// The OSC types held by an inline OSC type list, in order.
pub uninterp spec fn osc_list_items(v: OscList) -> Seq<OscType>;

/// An empty kind list, by `SmallVec::new`.
///
/// Trusted: `SmallVec::new` constructs an empty vector.
#[verifier::external_body]
fn kind_list_new() -> (v: KindList)
    ensures
        kind_list_items(v) == Seq::<SeqKind>::empty(),
{
    KindList { items: SmallVec::new() }
}

/// Membership in a kind list, by `contains` on the list's slice.
///
/// Trusted: `SmallVec` dereferences to the slice of its items in order, and
/// slice `contains` is membership under `SeqKind`'s derived (structural)
/// equality.
#[verifier::external_body]
fn kind_list_contains(v: &KindList, k: SeqKind) -> (r: bool)
    ensures
        r == kind_list_items(*v).contains(k),
{
    v.items.contains(&k)
}

/// Appends to a kind list, by `SmallVec::push`.
///
/// Trusted: `SmallVec::push` appends the item at the end (it panics only
/// when the length would overflow `usize`, which the `requires` excludes).
#[verifier::external_body]
fn kind_list_push(v: &mut KindList, k: SeqKind)
    requires
        kind_list_items(*old(v)).len() < usize::MAX,
    ensures
        kind_list_items(*final(v)) == kind_list_items(*old(v)).push(k),
{
    v.items.push(k)
}

/// An empty OSC type list, by `SmallVec::new`.
///
/// Trusted: `SmallVec::new` constructs an empty vector.
#[verifier::external_body]
fn osc_list_new() -> (v: OscList)
    ensures
        osc_list_items(v) == Seq::<OscType>::empty(),
{
    OscList { items: SmallVec::new() }
}

/// Membership in an OSC type list, by `contains` on the list's slice.
///
/// Trusted: `SmallVec` dereferences to the slice of its items in order, and
/// slice `contains` is membership under `OscType`'s derived (structural)
/// equality.
#[verifier::external_body]
fn osc_list_contains(v: &OscList, t: OscType) -> (r: bool)
    ensures
        r == osc_list_items(*v).contains(t),
{
    v.items.contains(&t)
}

/// Length of an OSC type list, by `SmallVec::len`.
///
/// Trusted: `SmallVec::len` is the number of items.
#[verifier::external_body]
fn osc_list_len(v: &OscList) -> (n: usize)
    ensures
        n == osc_list_items(*v).len(),
{
    v.items.len()
}

/// Appends to an OSC type list, by `SmallVec::push`.
///
/// Trusted: `SmallVec::push` appends the item at the end (it panics only
/// when the length would overflow `usize`, which the `requires` excludes).
#[verifier::external_body]
fn osc_list_push(v: &mut OscList, t: OscType)
    requires
        osc_list_items(*old(v)).len() < usize::MAX,
    ensures
        osc_list_items(*final(v)) == osc_list_items(*old(v)).push(t),
{
    v.items.push(t)
}

/// A copy of a kind list, by `SmallVec::clone`.
///
/// Trusted: cloning a `SmallVec` of `Copy` items yields the same items.
#[verifier::external_body]
fn kind_list_clone(v: &KindList) -> (r: KindList)
    ensures
        kind_list_items(r) == kind_list_items(*v),
{
    KindList { items: v.items.clone() }
}

/// A copy of an OSC type list, by `SmallVec::clone`.
///
/// Trusted: cloning a `SmallVec` of `Copy` items yields the same items.
#[verifier::external_body]
fn osc_list_clone(v: &OscList) -> (r: OscList)
    ensures
        osc_list_items(r) == osc_list_items(*v),
{
    OscList { items: v.items.clone() }
}

// ── FilterMode / FilterConfig ───────────────────────────────────────
/// Filtering mode for [`FilterConfig`].
#[derive(Copy, Clone, Debug, PartialEq, Eq, Structural)]
pub enum FilterMode {
    /// Strip all escape sequences (default).
    StripAll,
    /// Strip all except specified groups/sub-kinds.
    StripExcept,
}

/// The bit of a group in the preserved set.
pub open spec fn spec_group_bit(g: SeqGroup) -> u16 {
    match g {
        SeqGroup::Csi => 1,
        SeqGroup::Osc => 2,
        SeqGroup::Dcs => 4,
        SeqGroup::Apc => 8,
        SeqGroup::Pm => 16,
        SeqGroup::Sos => 32,
        SeqGroup::Ss2 => 64,
        SeqGroup::Ss3 => 128,
        SeqGroup::Fe => 256,
    }
}

/// The bit of a group in the preserved set.
fn group_bit(g: SeqGroup) -> (b: u16)
    ensures
        b == spec_group_bit(g),
{
    match g {
        SeqGroup::Csi => 1,
        SeqGroup::Osc => 2,
        SeqGroup::Dcs => 4,
        SeqGroup::Apc => 8,
        SeqGroup::Pm => 16,
        SeqGroup::Sos => 32,
        SeqGroup::Ss2 => 64,
        SeqGroup::Ss3 => 128,
        SeqGroup::Fe => 256,
    }
}

/// All group bits set (bits 0..8 inclusive).
pub const ALL_GROUPS: u16 = 0x01FF;

/// The abstract content of a [`FilterConfig`].
pub struct FilterModel {
    /// Filtering mode.
    pub mode: FilterMode,
    /// Bit set of preserved groups.
    pub preserved: u16,
    /// Individually preserved kinds.
    pub sub_preserved: Seq<SeqKind>,
    /// SGR content mask: a `CsiSgr` sequence with any of these bits is kept.
    pub sgr_mask: u8,
    /// OSC types to keep.
    pub osc_preserve: Seq<OscType>,
}

/// Whether the preserved bit set holds group `g`.
pub open spec fn preserves_group(preserved: u16, g: SeqGroup) -> bool {
    preserved & spec_group_bit(g) != 0
}

/// Whether a sequence of `kind` is stripped (kind-level decision).
pub open spec fn spec_should_strip(c: FilterModel, kind: SeqKind) -> bool {
    c.mode == FilterMode::StripAll || (!c.sub_preserved.contains(kind) && !preserves_group(
        c.preserved,
        spec_group(kind),
    ))
}

/// Whether a finished sequence is stripped, given its full detail.
pub open spec fn spec_should_strip_detail(c: FilterModel, d: SeqDetail) -> bool {
    if c.mode == FilterMode::StripAll {
        true
    } else if d.kind == SeqKind::CsiSgr && c.sgr_mask != 0 {
        d.sgr_content.0 & c.sgr_mask == 0
    } else if spec_group(d.kind) == SeqGroup::Osc && c.osc_preserve.len() > 0 {
        !c.osc_preserve.contains(d.osc_type)
    } else {
        spec_should_strip(c, d.kind)
    }
}

/// Whether the config strips everything.
pub open spec fn spec_is_strip_all(c: FilterModel) -> bool {
    c.mode == FilterMode::StripAll
}

/// Whether the config preserves every group.
pub open spec fn spec_is_pass_all(c: FilterModel) -> bool {
    c.mode == FilterMode::StripExcept && c.preserved == ALL_GROUPS
}

/// Configuration expressing which ANSI escape sequences to strip or
/// preserve.
///
/// Construct via [`strip_all()`](Self::strip_all) or
/// [`pass_all()`](Self::pass_all), then refine with builder methods.
#[derive(Debug)]
pub struct FilterConfig {
    mode: FilterMode,
    /// Bit-field of preserved [`SeqGroup`] values.
    preserved: u16,
    /// Sub-kind-level preservation overrides.
    sub_preserved: KindList,
    /// SGR content mask: preserve a CsiSgr sequence when
    /// `(detail.sgr_content & sgr_preserve_mask) != 0`; empty falls through
    /// to `should_strip(kind)`.
    sgr_preserve_mask: SgrContent,
    /// OSC types to preserve; empty falls through to `should_strip(kind)`.
    osc_preserve: OscList,
}

impl View for FilterConfig {
    type V = FilterModel;

    closed spec fn view(&self) -> FilterModel {
        FilterModel {
            mode: self.mode,
            preserved: self.preserved,
            sub_preserved: kind_list_items(self.sub_preserved),
            sgr_mask: self.sgr_preserve_mask.0,
            osc_preserve: osc_list_items(self.osc_preserve),
        }
    }
}

/// Every sequence kind.
pub open spec fn all_kinds() -> Set<SeqKind> {
    set![
        SeqKind::CsiSgr,
        SeqKind::CsiCursor,
        SeqKind::CsiErase,
        SeqKind::CsiScroll,
        SeqKind::CsiMode,
        SeqKind::CsiDeviceStatus,
        SeqKind::CsiWindow,
        SeqKind::CsiOther,
        SeqKind::CsiQuery,
        SeqKind::Osc,
        SeqKind::Dcs,
        SeqKind::Apc,
        SeqKind::Pm,
        SeqKind::Sos,
        SeqKind::Ss2,
        SeqKind::Ss3,
        SeqKind::Fe,
        SeqKind::Unknown,
    ]
}

/// Every OSC type.
pub open spec fn all_osc_types() -> Set<OscType> {
    set![
        OscType::Unknown,
        OscType::Title,
        OscType::WorkingDir,
        OscType::Hyperlink,
        OscType::Notify,
        OscType::Clipboard,
        OscType::ShellInteg,
        OscType::ITerm2,
        OscType::Other,
    ]
}

/// A list of distinct kinds has at most one entry per kind.
proof fn lemma_distinct_kinds_bounded(s: Seq<SeqKind>)
    requires
        s.no_duplicates(),
    ensures
        s.len() <= 18,
{
    broadcast use vstd::set::group_set_axioms;
    assert(all_kinds().len() <= 18);
    assert(s.to_set().subset_of(all_kinds())) by {
        assert forall|k: SeqKind| s.to_set().contains(k) implies all_kinds().contains(k) by {
            match k {
                _ => {},
            }
        }
    }
    s.unique_seq_to_set();
    vstd::set_lib::lemma_len_subset(s.to_set(), all_kinds());
}

/// A list of distinct OSC types has at most one entry per type.
proof fn lemma_distinct_osc_types_bounded(s: Seq<OscType>)
    requires
        s.no_duplicates(),
    ensures
        s.len() <= 9,
{
    broadcast use vstd::set::group_set_axioms;
    assert(all_osc_types().len() <= 9);
    assert(s.to_set().subset_of(all_osc_types())) by {
        assert forall|t: OscType| s.to_set().contains(t) implies all_osc_types().contains(t) by {
            match t {
                _ => {},
            }
        }
    }
    s.unique_seq_to_set();
    vstd::set_lib::lemma_len_subset(s.to_set(), all_osc_types());
}

pub(crate) proof fn lemma_or_bit(p: u16, m: u16, n: u16)
    ensures
        ((p | m) & n != 0) == (p & n != 0 || m & n != 0),
{
    assert(((p | m) & n != 0) == (p & n != 0 || m & n != 0)) by (bit_vector);
}

pub(crate) proof fn lemma_group_bits_distinct(g: SeqGroup, h: SeqGroup)
    ensures
        (spec_group_bit(g) & spec_group_bit(h) != 0) == (g == h),
{
    assert(1u16 & 2u16 == 0 && 1u16 & 4u16 == 0 && 1u16 & 8u16 == 0 && 1u16 & 16u16 == 0
        && 1u16 & 32u16 == 0 && 1u16 & 64u16 == 0 && 1u16 & 128u16 == 0 && 1u16 & 256u16 == 0
        && 2u16 & 1u16 == 0 && 2u16 & 4u16 == 0 && 2u16 & 8u16 == 0 && 2u16 & 16u16 == 0 && 2u16
        & 32u16 == 0 && 2u16 & 64u16 == 0 && 2u16 & 128u16 == 0 && 2u16 & 256u16 == 0 && 4u16
        & 1u16 == 0 && 4u16 & 2u16 == 0 && 4u16 & 8u16 == 0 && 4u16 & 16u16 == 0 && 4u16 & 32u16
        == 0 && 4u16 & 64u16 == 0 && 4u16 & 128u16 == 0 && 4u16 & 256u16 == 0 && 8u16 & 1u16
        == 0 && 8u16 & 2u16 == 0 && 8u16 & 4u16 == 0 && 8u16 & 16u16 == 0 && 8u16 & 32u16 == 0
        && 8u16 & 64u16 == 0 && 8u16 & 128u16 == 0 && 8u16 & 256u16 == 0 && 16u16 & 1u16 == 0
        && 16u16 & 2u16 == 0 && 16u16 & 4u16 == 0 && 16u16 & 8u16 == 0 && 16u16 & 32u16 == 0
        && 16u16 & 64u16 == 0 && 16u16 & 128u16 == 0 && 16u16 & 256u16 == 0 && 32u16 & 1u16
        == 0 && 32u16 & 2u16 == 0 && 32u16 & 4u16 == 0 && 32u16 & 8u16 == 0 && 32u16 & 16u16
        == 0 && 32u16 & 64u16 == 0 && 32u16 & 128u16 == 0 && 32u16 & 256u16 == 0 && 64u16
        & 1u16 == 0 && 64u16 & 2u16 == 0 && 64u16 & 4u16 == 0 && 64u16 & 8u16 == 0 && 64u16
        & 16u16 == 0 && 64u16 & 32u16 == 0 && 64u16 & 128u16 == 0 && 64u16 & 256u16 == 0
        && 128u16 & 1u16 == 0 && 128u16 & 2u16 == 0 && 128u16 & 4u16 == 0 && 128u16 & 8u16 == 0
        && 128u16 & 16u16 == 0 && 128u16 & 32u16 == 0 && 128u16 & 64u16 == 0 && 128u16 & 256u16
        == 0 && 256u16 & 1u16 == 0 && 256u16 & 2u16 == 0 && 256u16 & 4u16 == 0 && 256u16 & 8u16
        == 0 && 256u16 & 16u16 == 0 && 256u16 & 32u16 == 0 && 256u16 & 64u16 == 0 && 256u16
        & 128u16 == 0 && 1u16 & 1u16 != 0 && 2u16 & 2u16 != 0 && 4u16 & 4u16 != 0 && 8u16 & 8u16
        != 0 && 16u16 & 16u16 != 0 && 32u16 & 32u16 != 0 && 64u16 & 64u16 != 0 && 128u16
        & 128u16 != 0 && 256u16 & 256u16 != 0) by (bit_vector);
}

pub(crate) proof fn lemma_all_groups(g: SeqGroup)
    ensures
        preserves_group(ALL_GROUPS, g),
        !preserves_group(0, g),
{
    assert(0x1FFu16 & 1u16 != 0 && 0x1FFu16 & 2u16 != 0 && 0x1FFu16 & 4u16 != 0 && 0x1FFu16
        & 8u16 != 0 && 0x1FFu16 & 16u16 != 0 && 0x1FFu16 & 32u16 != 0 && 0x1FFu16 & 64u16 != 0
        && 0x1FFu16 & 128u16 != 0 && 0x1FFu16 & 256u16 != 0) by (bit_vector);
    assert(0u16 & 1u16 == 0 && 0u16 & 2u16 == 0 && 0u16 & 4u16 == 0 && 0u16 & 8u16 == 0 && 0u16
        & 16u16 == 0 && 0u16 & 32u16 == 0 && 0u16 & 64u16 == 0 && 0u16 & 128u16 == 0 && 0u16
        & 256u16 == 0) by (bit_vector);
}

impl FilterConfig {
    /// No kind and no OSC type is listed twice: the builders add each once.
    #[verifier::type_invariant]
    spec fn lists_distinct(&self) -> bool {
        &&& kind_list_items(self.sub_preserved).no_duplicates()
        &&& osc_list_items(self.osc_preserve).no_duplicates()
    }

    /// Create a config that strips all escape sequences.
    pub fn strip_all() -> (c: Self)
        ensures
            c@.mode == FilterMode::StripAll,
            c@.preserved == 0,
            c@.sub_preserved == Seq::<SeqKind>::empty(),
            c@.sgr_mask == 0,
            c@.osc_preserve == Seq::<OscType>::empty(),
    {
        FilterConfig {
            mode: FilterMode::StripAll,
            preserved: 0,
            sub_preserved: kind_list_new(),
            sgr_preserve_mask: SgrContent::empty(),
            osc_preserve: osc_list_new(),
        }
    }

    /// Create a config that preserves all escape sequences (strips nothing).
    pub fn pass_all() -> (c: Self)
        ensures
            c@.mode == FilterMode::StripExcept,
            c@.preserved == ALL_GROUPS,
            c@.sub_preserved == Seq::<SeqKind>::empty(),
            c@.sgr_mask == 0,
            c@.osc_preserve == Seq::<OscType>::empty(),
    {
        FilterConfig {
            mode: FilterMode::StripExcept,
            preserved: ALL_GROUPS,
            sub_preserved: kind_list_new(),
            sgr_preserve_mask: SgrContent::empty(),
            osc_preserve: osc_list_new(),
        }
    }

    /// Preserve an entire sequence group (e.g. all CSI sequences).
    ///
    /// Switches mode to [`FilterMode::StripExcept`] and sets the group bit.
    pub fn no_strip_group(self, group: SeqGroup) -> (c: Self)
        ensures
            c@.mode == FilterMode::StripExcept,
            c@.preserved == self@.preserved | spec_group_bit(group),
            forall|g: SeqGroup|
                preserves_group(c@.preserved, g) == (preserves_group(self@.preserved, g) || g
                    == group),
            c@.sub_preserved == self@.sub_preserved,
            c@.sgr_mask == self@.sgr_mask,
            c@.osc_preserve == self@.osc_preserve,
    {
        proof {
            use_type_invariant(&self);
        }
        let mut c = self;
        c.mode = FilterMode::StripExcept;
        c.preserved = c.preserved | group_bit(group);
        proof {
            assert forall|g: SeqGroup|
                preserves_group(c@.preserved, g) == (preserves_group(self@.preserved, g) || g
                    == group) by {
                lemma_or_bit(self@.preserved, spec_group_bit(group), spec_group_bit(g));
                lemma_group_bits_distinct(group, g);
            }
        }
        c
    }

    /// Preserve a specific sequence sub-kind (e.g. `CsiSgr` only).
    ///
    /// Switches mode to [`FilterMode::StripExcept`] and adds the kind to the
    /// sub-preserved list (once). Unlike [`no_strip_group`](Self::no_strip_group),
    /// this does NOT set the parent group bit.
    pub fn no_strip_kind(self, kind: SeqKind) -> (c: Self)
        ensures
            c@.mode == FilterMode::StripExcept,
            c@.preserved == self@.preserved,
            c@.sub_preserved == if self@.sub_preserved.contains(kind) {
                self@.sub_preserved
            } else {
                self@.sub_preserved.push(kind)
            },
            c@.sgr_mask == self@.sgr_mask,
            c@.osc_preserve == self@.osc_preserve,
    {
        proof {
            use_type_invariant(&self);
            lemma_distinct_kinds_bounded(self@.sub_preserved);
        }
        let FilterConfig { mode: _, preserved, mut sub_preserved, sgr_preserve_mask, osc_preserve } =
            self;
        if !kind_list_contains(&sub_preserved, kind) {
            let ghost before = kind_list_items(sub_preserved);
            kind_list_push(&mut sub_preserved, kind);
            proof {
                assert forall|i: int, j: int|
                    0 <= i < j < before.len() + 1 implies kind_list_items(sub_preserved)[i]
                    != kind_list_items(sub_preserved)[j] by {
                    if j == before.len() {
                        assert(before[i] != kind);
                    }
                }
            }
        }
        FilterConfig {
            mode: FilterMode::StripExcept,
            preserved,
            sub_preserved,
            sgr_preserve_mask,
            osc_preserve,
        }
    }

    /// Set the SGR content preserve mask: a `CsiSgr` sequence is preserved
    /// when it contains at least one of the requested color depths. The
    /// empty mask disables SGR-level filtering.
    pub fn with_sgr_mask(self, mask: SgrContent) -> (c: Self)
        ensures
            c@.mode == self@.mode,
            c@.preserved == self@.preserved,
            c@.sub_preserved == self@.sub_preserved,
            c@.sgr_mask == mask.0,
            c@.osc_preserve == self@.osc_preserve,
    {
        proof {
            use_type_invariant(&self);
        }
        let mut c = self;
        c.sgr_preserve_mask = mask;
        c
    }

    /// Preserve OSC sequences whose type is `osc_type` (added once to the
    /// OSC preserve list). Switches mode to [`FilterMode::StripExcept`].
    pub fn no_strip_osc_type(self, osc_type: OscType) -> (c: Self)
        ensures
            c@.mode == FilterMode::StripExcept,
            c@.preserved == self@.preserved,
            c@.sub_preserved == self@.sub_preserved,
            c@.sgr_mask == self@.sgr_mask,
            c@.osc_preserve == if self@.osc_preserve.contains(osc_type) {
                self@.osc_preserve
            } else {
                self@.osc_preserve.push(osc_type)
            },
    {
        proof {
            use_type_invariant(&self);
            lemma_distinct_osc_types_bounded(self@.osc_preserve);
        }
        let FilterConfig { mode: _, preserved, sub_preserved, sgr_preserve_mask, mut osc_preserve } =
            self;
        if !osc_list_contains(&osc_preserve, osc_type) {
            let ghost before = osc_list_items(osc_preserve);
            osc_list_push(&mut osc_preserve, osc_type);
            proof {
                assert forall|i: int, j: int|
                    0 <= i < j < before.len() + 1 implies osc_list_items(osc_preserve)[i]
                    != osc_list_items(osc_preserve)[j] by {
                    if j == before.len() {
                        assert(before[i] != osc_type);
                    }
                }
            }
        }
        let c = FilterConfig {
            mode: FilterMode::StripExcept,
            preserved,
            sub_preserved,
            sgr_preserve_mask,
            osc_preserve,
        };
        c
    }

    /// Returns `true` if `kind` should be stripped according to this config:
    /// always under `StripAll`; under `StripExcept` unless the kind is
    /// sub-preserved or its group is preserved.
    pub fn should_strip(&self, kind: SeqKind) -> (r: bool)
        ensures
            r == spec_should_strip(self@, kind),
    {
        if self.mode == FilterMode::StripAll {
            return true;
        }
        if kind_list_contains(&self.sub_preserved, kind) {
            return false;
        }
        if (self.preserved & group_bit(kind.group())) != 0 {
            return false;
        }
        true
    }

    /// Returns `true` when the config strips all sequences.
    pub fn is_strip_all(&self) -> (r: bool)
        ensures
            r == spec_is_strip_all(self@),
    {
        self.mode == FilterMode::StripAll
    }

    /// Returns `true` when the config preserves all sequence groups.
    pub fn is_pass_all(&self) -> (r: bool)
        ensures
            r == spec_is_pass_all(self@),
    {
        self.mode == FilterMode::StripExcept && self.preserved == ALL_GROUPS
    }

    /// Returns `true` when the SGR mask or the OSC preserve list is
    /// non-empty, so `should_strip_detail` may differ from `should_strip`.
    fn has_detail_filters(&self) -> (r: bool)
        ensures
            r == (self@.sgr_mask != 0 || self@.osc_preserve.len() > 0),
    {
        !self.sgr_preserve_mask.is_empty() || osc_list_len(&self.osc_preserve) != 0
    }

    /// Extended strip decision using the full [`SeqDetail`].
    pub fn should_strip_detail(&self, detail: &SeqDetail) -> (r: bool)
        ensures
            r == spec_should_strip_detail(self@, *detail),
    {
        if self.mode == FilterMode::StripAll {
            return true;
        }
        // SGR mask check (only when the mask is non-empty and kind is CsiSgr).
        if detail.kind == SeqKind::CsiSgr && !self.sgr_preserve_mask.is_empty() {
            return (detail.sgr_content.0 & self.sgr_preserve_mask.0) == 0;
        }
        // OSC preserve list check (only when the list is non-empty).
        if detail.kind.group() == SeqGroup::Osc && osc_list_len(&self.osc_preserve) != 0 {
            return !osc_list_contains(&self.osc_preserve, detail.osc_type);
        }
        // Fall through to the kind-level decision.
        self.should_strip(detail.kind)
    }
}

impl Clone for FilterConfig {
    fn clone(&self) -> (c: Self)
        ensures
            c@ == self@,
    {
        proof {
            use_type_invariant(self);
        }
        FilterConfig {
            mode: self.mode,
            preserved: self.preserved,
            sub_preserved: kind_list_clone(&self.sub_preserved),
            sgr_preserve_mask: self.sgr_preserve_mask,
            osc_preserve: osc_list_clone(&self.osc_preserve),
        }
    }
}

impl Default for FilterConfig {
    fn default() -> (c: Self)
        ensures
            c@.mode == FilterMode::StripAll,
            c@.preserved == 0,
            c@.sub_preserved == Seq::<SeqKind>::empty(),
            c@.sgr_mask == 0,
            c@.osc_preserve == Seq::<OscType>::empty(),
    {
        Self::strip_all()
    }
}

/// `pass_all()` preserves every kind and `strip_all()` strips every kind.
pub proof fn law_pass_all_and_strip_all(c: FilterModel, kind: SeqKind)
    ensures
        spec_is_pass_all(c) ==> !spec_should_strip(c, kind),
        spec_is_strip_all(c) ==> spec_should_strip(c, kind),
{
    lemma_all_groups(spec_group(kind));
}

// ── Stateless filter API ────────────────────────────────────────────
/// Progress of the filter over a byte stream: the classifier state and the
/// bytes of the sequence in progress.
pub struct FilterScan {
    /// Classifier state.
    pub cp: ClassifierState,
    /// Bytes of the sequence in progress (held back until its fate is known).
    pub buf: Seq<u8>,
}

/// The finished-sequence detail of a classifier state.
pub open spec fn detail_of(m: ClassifierState) -> SeqDetail {
    SeqDetail {
        kind: m.kind,
        sgr_content: SgrContent(m.sgr_content),
        osc_type: m.osc_type,
        osc_number: m.osc_number,
        first_param: m.first_param,
        dcs_is_query: m.dcs_is_query,
    }
}

/// One byte of filtering: the next progress and the bytes it outputs.
/// A sequence's bytes are held back until its final byte, then output whole
/// when the config preserves it. CAN/SUB that abort a sequence are dropped.
pub open spec fn filter_step(c: FilterModel, st: FilterScan, b: u8) -> (FilterScan, Seq<u8>) {
    let (m, act) = classify_step(st.cp, b);
    match act {
        SeqAction::StartSeq => (FilterScan { cp: m, buf: seq![b] }, Seq::empty()),
        SeqAction::InSeq => (FilterScan { cp: m, buf: st.buf.push(b) }, Seq::empty()),
        SeqAction::EndSeq => (
            FilterScan { cp: m, buf: Seq::empty() },
            if spec_should_strip_detail(c, detail_of(m)) {
                Seq::empty()
            } else {
                st.buf.push(b)
            },
        ),
        SeqAction::Emit => (
            FilterScan { cp: m, buf: Seq::empty() },
            if st.cp.in_seq && is_abort_byte(b) {
                Seq::empty()
            } else {
                seq![b]
            },
        ),
    }
}

/// Filtering `input` from progress `st`: the final progress and the output.
pub open spec fn filter_run(c: FilterModel, st: FilterScan, input: Seq<u8>) -> (FilterScan, Seq<u8>)
    decreases input.len(),
{
    if input.len() == 0 {
        (st, Seq::empty())
    } else {
        let prev = filter_run(c, st, input.drop_last());
        let next = filter_step(c, prev.0, input.last());
        (next.0, prev.1 + next.1)
    }
}

/// Progress at the start of a stream.
pub open spec fn initial_scan() -> FilterScan {
    FilterScan { cp: initial_classifier_state(), buf: Seq::empty() }
}

/// Per-sequence filtering of a whole input: incomplete trailing sequences
/// are dropped.
pub open spec fn spec_filter_core(c: FilterModel, input: Seq<u8>) -> Seq<u8> {
    filter_run(c, initial_scan(), input).1
}

/// What [`filter_strip`] yields: `strip` under a strip-all config, the input
/// itself under a pass-all config or when it has no ESC, and per-sequence
/// filtering otherwise.
pub open spec fn spec_filter_strip(c: FilterModel, input: Seq<u8>) -> Seq<u8> {
    if spec_is_strip_all(c) {
        spec_strip(input)
    } else if spec_is_pass_all(c) || !input.contains(ESC) {
        input
    } else {
        spec_filter_core(c, input)
    }
}

proof fn lemma_filter_run_push(c: FilterModel, st: FilterScan, t: Seq<u8>, x: u8)
    ensures
        filter_run(c, st, t.push(x)).0 == filter_step(c, filter_run(c, st, t).0, x).0,
        filter_run(c, st, t.push(x)).1 == filter_run(c, st, t).1 + filter_step(
            c,
            filter_run(c, st, t).0,
            x,
        ).1,
{
    assert(t.push(x).drop_last() =~= t);
}

proof fn lemma_filter_run_concat(c: FilterModel, st: FilterScan, a: Seq<u8>, b: Seq<u8>)
    ensures
        filter_run(c, st, a + b).0 == filter_run(c, filter_run(c, st, a).0, b).0,
        filter_run(c, st, a + b).1 == filter_run(c, st, a).1 + filter_run(
            c,
            filter_run(c, st, a).0,
            b,
        ).1,
    decreases b.len(),
{
    if b.len() == 0 {
        assert(a + b =~= a);
        assert(filter_run(c, st, a).1 + Seq::<u8>::empty() =~= filter_run(c, st, a).1);
    } else {
        let b0 = b.drop_last();
        lemma_filter_run_concat(c, st, a, b0);
        assert((a + b).drop_last() =~= a + b0);
        assert((a + b).last() == b.last());
        let m = filter_run(c, st, a).0;
        let step_out = filter_step(c, filter_run(c, m, b0).0, b.last()).1;
        assert(filter_run(c, st, a).1 + filter_run(c, m, b).1 =~= filter_run(c, st, a).1
            + filter_run(c, m, b0).1 + step_out);
    }
}

/// From the ground state outside any sequence, bytes without ESC pass
/// through and leave the progress unchanged.
proof fn lemma_filter_ground_stretch(c: FilterModel, st: FilterScan, t: Seq<u8>)
    requires
        st.cp.parser == State::Ground,
        !st.cp.in_seq,
        st.buf == Seq::<u8>::empty(),
        !t.contains(ESC),
    ensures
        filter_run(c, st, t).0 == st,
        filter_run(c, st, t).1 == t,
    decreases t.len(),
{
    if t.len() > 0 {
        let t0 = t.drop_last();
        assert(!t0.contains(ESC)) by {
            if t0.contains(ESC) {
                let k = choose|k: int| 0 <= k < t0.len() && t0[k] == ESC;
                assert(t[k] == ESC);
            }
        }
        assert(t.last() != ESC) by {
            assert(t[t.len() - 1] == t.last());
        }
        lemma_filter_ground_stretch(c, st, t0);
        assert(t0.push(t.last()) =~= t);
    }
}

/// Core filtering: appends the per-sequence filtering of `input` to `output`.
#[verifier::spinoff_prover]
#[verifier::rlimit(50)]
fn filter_strip_core(input: &[u8], config: &FilterConfig, output: &mut Vec<u8>)
    ensures
        final(output)@ == old(output)@ + spec_filter_core(config@, input@),
{
    let ghost c = config@;
    let len = input.len();
    let mut cp = ClassifyingParser::new();
    let mut seq_buf: Vec<u8> = Vec::new();
    let mut in_seq = false;
    let mut pos: usize = 0;
    proof {
        assert(input@.take(0) =~= Seq::<u8>::empty());
        assert(old(output)@ + Seq::<u8>::empty() =~= old(output)@);
        law_classifier_inv_initial();
    }
    while pos < len
        invariant
            len == input@.len(),
            pos <= len,
            c == config@,
            cp@ == filter_run(c, initial_scan(), input@.take(pos as int)).0.cp,
            seq_buf@ == filter_run(c, initial_scan(), input@.take(pos as int)).0.buf,
            output@ == old(output)@ + filter_run(c, initial_scan(), input@.take(pos as int)).1,
            in_seq == cp@.in_seq,
            classifier_inv(cp@),
            pos < len ==> cp@.parser == State::Ground,
            pos < len ==> seq_buf@ == Seq::<u8>::empty(),
        decreases len - pos,
    {
        // Bulk-copy content bytes up to the next ESC.
        let next = next_esc(input, pos);
        let ghost before = output@;
        append_range(output, input, pos, next);
        proof {
            let st = filter_run(c, initial_scan(), input@.take(pos as int)).0;
            lemma_filter_ground_stretch(c, st, input@.subrange(pos as int, next as int));
            lemma_filter_run_concat(
                c,
                initial_scan(),
                input@.take(pos as int),
                input@.subrange(pos as int, next as int),
            );
            assert(input@.take(pos as int) + input@.subrange(pos as int, next as int)
                =~= input@.take(next as int));
            assert(output@ =~= old(output)@ + filter_run(c, initial_scan(), input@.take(next as int)).1);
        }
        pos = next;
        let ghost entry = pos;
        // Process the escape sequence byte-by-byte until it ends.
        while pos < len
            invariant
                entry <= pos,
                len == input@.len(),
                pos <= len,
                c == config@,
                cp@ == filter_run(c, initial_scan(), input@.take(pos as int)).0.cp,
                seq_buf@ == filter_run(c, initial_scan(), input@.take(pos as int)).0.buf,
                output@ == old(output)@ + filter_run(c, initial_scan(), input@.take(pos as int)).1,
                in_seq == cp@.in_seq,
                classifier_inv(cp@),
            ensures
                entry < len ==> entry < pos,
                pos <= len,
                cp@ == filter_run(c, initial_scan(), input@.take(pos as int)).0.cp,
                seq_buf@ == filter_run(c, initial_scan(), input@.take(pos as int)).0.buf,
                output@ == old(output)@ + filter_run(c, initial_scan(), input@.take(pos as int)).1,
                in_seq == cp@.in_seq,
                classifier_inv(cp@),
                pos < len ==> cp@.parser == State::Ground,
                pos < len ==> seq_buf@ == Seq::<u8>::empty(),
            decreases len - pos,
        {
            let b = input[pos];
            let ghost st = filter_run(c, initial_scan(), input@.take(pos as int)).0;
            let ghost out0 = output@;
            proof {
                lemma_filter_run_push(c, initial_scan(), input@.take(pos as int), b);
                assert(input@.take(pos as int).push(b) =~= input@.take(pos + 1));
                law_classifier_inv_preserved(cp@, b);
                law_classifier_emit(cp@, b);
                crate::parser::lemma_emit_only_from_ground(cp@.parser, b);
            }
            let action = cp.feed(b);
            let mut ended = false;
            match action {
                SeqAction::StartSeq => {
                    in_seq = true;
                    seq_buf.clear();
                    seq_buf.push(b);
                    proof {
                        assert(seq_buf@ =~= seq![b]);
                        assert(output@ =~= out0 + Seq::<u8>::empty());
                    }
                },
                SeqAction::InSeq => {
                    seq_buf.push(b);
                    proof {
                        assert(output@ =~= out0 + Seq::<u8>::empty());
                    }
                },
                SeqAction::EndSeq => {
                    in_seq = false;
                    let strip_current = if config.has_detail_filters() {
                        let detail = cp.detail();
                        config.should_strip_detail(&detail)
                    } else {
                        config.should_strip(cp.current_kind())
                    };
                    proof {
                        assert(strip_current == spec_should_strip_detail(c, detail_of(cp@)));
                    }
                    if !strip_current {
                        append_slice(output, seq_buf.as_slice());
                        output.push(b);
                        proof {
                            assert(output@ =~= out0 + st.buf.push(b));
                        }
                    } else {
                        proof {
                            assert(output@ =~= out0 + Seq::<u8>::empty());
                        }
                    }
                    seq_buf.clear();
                    ended = true;
                },
                SeqAction::Emit => {
                    // CAN (0x18) / SUB (0x1A) bytes that abort a sequence are
                    // dropped, as `strip` does; elsewhere they are content.
                    if in_seq && (b == 0x18 || b == 0x1A) {
                        proof {
                            assert(output@ =~= out0 + Seq::<u8>::empty());
                        }
                    } else {
                        output.push(b);
                        proof {
                            assert(output@ =~= out0 + seq![b]);
                        }
                    }
                    in_seq = false;
                    seq_buf.clear();
                },
            }
            pos += 1;
            if ended {
                break;
            }
        }
    }
    assert(input@.take(len as int) =~= input@);
}

/// Whether [`filter_strip`] answers with a slice of its input: as
/// [`strip`] does under a strip-all config; otherwise under a pass-all
/// config or for input without ESC.
pub open spec fn spec_filter_borrows(c: FilterModel, input: Seq<u8>) -> bool {
    if spec_is_strip_all(c) {
        spec_strip_borrows(input)
    } else {
        spec_is_pass_all(c) || !input.contains(ESC)
    }
}

/// Strip ANSI escape sequences from a byte slice according to `config`.
///
/// Fast paths (zero allocation): strip-all delegates to [`strip`]; pass-all
/// and input without ESC return the input borrowed. Otherwise filters per
/// sequence with [`ClassifyingParser`].
pub fn filter_strip<'a>(input: &'a [u8], config: &FilterConfig) -> (r: Cow<'a, [u8]>)
    ensures
        r@ == spec_filter_strip(config@, input@),
        r is Borrowed <==> spec_filter_borrows(config@, input@),
{
    // Fast path: strip everything.
    if config.is_strip_all() {
        return strip(input);
    }
    // Fast path: preserve everything.
    if config.is_pass_all() {
        return Cow::Borrowed(input);
    }
    // Fast path: no ESC byte in input.
    if find_byte(ESC, input).is_none() {
        return Cow::Borrowed(input);
    }
    let mut output: Vec<u8> = Vec::with_capacity(input.len());
    filter_strip_core(input, config, &mut output);
    Cow::Owned(output)
}

/// Strip ANSI escape sequences from a byte slice according to `config`,
/// appending to `out` (which is not cleared first).
pub fn filter_strip_into(input: &[u8], config: &FilterConfig, out: &mut Vec<u8>)
    ensures
        final(out)@ == old(out)@ + spec_filter_strip(config@, input@),
{
    // Fast path: strip everything.
    if config.is_strip_all() {
        match strip(input) {
            Cow::Borrowed(b) => append_slice(out, b),
            Cow::Owned(v) => append_slice(out, v.as_slice()),
        }
        return;
    }
    // Fast path: preserve everything.
    if config.is_pass_all() {
        append_slice(out, input);
        return;
    }
    // Fast path: no ESC byte.
    if find_byte(ESC, input).is_none() {
        append_slice(out, input);
        return;
    }
    filter_strip_core(input, config, out);
}

/// Filtering a `&str` as its bytes, as characters.
pub open spec fn spec_filter_strip_str(c: FilterModel, input: Seq<char>) -> Seq<char> {
    decode_utf8(spec_filter_strip(c, encode_utf8(input)))
}

/// Fallible variant of [`filter_strip_str`]: `None` when the filtered
/// bytes are not valid UTF-8; borrowed exactly when [`filter_strip`]
/// borrows.
pub fn try_filter_strip_str<'a>(input: &'a str, config: &FilterConfig) -> (r: Option<Cow<'a, str>>)
    ensures
        r is Some <==> valid_utf8(spec_filter_strip(config@, input.spec_bytes())),
        r matches Some(s) ==> s@ == spec_filter_strip_str(config@, input@),
        r matches Some(s) ==> (s is Borrowed <==> spec_filter_borrows(config@, input.spec_bytes())),
{
    let bytes = input.as_bytes();
    proof {
        encode_utf8_decode_utf8(input@);
        encode_utf8_valid_utf8(input@);
    }
    match filter_strip(bytes, config) {
        Cow::Borrowed(b) => match str_from_utf8(b) {
            Some(t) => Some(Cow::Borrowed(t)),
            None => None,
        },
        Cow::Owned(v) => match string_from_utf8(v) {
            Some(t) => Some(Cow::Owned(t)),
            None => None,
        },
    }
}

/// What [`filter_strip_str`] returns: the text of the filtered bytes;
/// bytes left over from characters split by an escape sequence are
/// dropped.
pub open spec fn spec_filter_strip_str_any(c: FilterModel, input: Seq<char>, bytes: Seq<u8>) -> Seq<char> {
    if valid_utf8(spec_filter_strip(c, bytes)) {
        spec_filter_strip_str(c, input)
    } else {
        decode_dropping(spec_filter_strip(c, bytes), 0)
    }
}

/// Strip ANSI escape sequences from a UTF-8 string according to `config`.
///
/// Wraps [`filter_strip`]: borrowed exactly when it borrows and its bytes
/// are valid text. The result is always valid text: bytes left over from
/// characters split by an escape sequence are dropped.
pub fn filter_strip_str<'a>(input: &'a str, config: &FilterConfig) -> (r: Cow<'a, str>)
    ensures
        r@ == spec_filter_strip_str_any(config@, input@, input.spec_bytes()),
        r is Borrowed <==> (valid_utf8(spec_filter_strip(config@, input.spec_bytes()))
            && spec_filter_borrows(config@, input.spec_bytes())),
{
    match try_filter_strip_str(input, config) {
        Some(r) => r,
        None => {
            let filtered = filter_strip(input.as_bytes(), config);
            let text = match filtered {
                Cow::Borrowed(b) => text_dropping_split_chars(b),
                Cow::Owned(v) => text_dropping_split_chars(v.as_slice()),
            };
            Cow::Owned(text)
        },
    }
}

/// Per-sequence filtering only keeps or drops whole sequences: the output
/// so far strips to what the input so far strips to and leaves the parser
/// in the ground state, and the bytes held back are a sequence in progress.
proof fn lemma_filter_run_strips_alike(c: FilterModel, input: Seq<u8>)
    ensures
        ({
            let r = filter_run(c, initial_scan(), input);
            &&& r.0.cp.parser == run_state(State::Ground, input)
            &&& classifier_inv(r.0.cp)
            &&& run_state(State::Ground, r.1) == State::Ground
            &&& run_out(State::Ground, r.1) == run_out(State::Ground, input)
            &&& run_state(State::Ground, r.0.buf) == r.0.cp.parser
            &&& run_out(State::Ground, r.0.buf) == Seq::<u8>::empty()
        }),
    decreases input.len(),
{
    if input.len() == 0 {
        law_classifier_inv_initial();
    } else {
        let init = input.drop_last();
        let b = input.last();
        lemma_filter_run_strips_alike(c, init);
        let p = filter_run(c, initial_scan(), init);
        let st = p.0;
        let (m, act) = classify_step(st.cp, b);
        lemma_run_push(State::Ground, init, b);
        assert(init.push(b) =~= input);
        law_classifier_tracks_parser(st.cp, b);
        law_classifier_emit(st.cp, b);
        law_classifier_inv_preserved(st.cp, b);
        crate::parser::lemma_emit_only_from_ground(st.cp.parser, b);
        let x = filter_step(c, st, b).1;
        crate::parser::lemma_run_concat(State::Ground, p.1, x);
        lemma_run_push(State::Ground, st.buf, b);
        assert(Seq::<u8>::empty().push(b) =~= seq![b]);
        lemma_run_push(State::Ground, Seq::<u8>::empty(), b);
        assert(p.1 + Seq::<u8>::empty() =~= p.1);
        assert(Seq::<u8>::empty() + Seq::<u8>::empty() =~= Seq::<u8>::empty());
        assert(Seq::<u8>::empty() + seq![b] =~= seq![b]);
    }
}

/// Filtering never loses, adds or reorders content: stripping the filtered
/// output gives exactly what stripping the input gives.
pub proof fn law_filter_strip_keeps_content(c: FilterModel, input: Seq<u8>)
    ensures
        spec_strip(spec_filter_strip(c, input)) == spec_strip(input),
{
    if spec_is_strip_all(c) {
        crate::strip::law_strip_idempotent(input);
    } else if spec_is_pass_all(c) || !input.contains(ESC) {
    } else {
        lemma_filter_run_strips_alike(c, input);
    }
}

/// Under a strip-all config, per-sequence filtering removes exactly what
/// [`strip`] removes.
pub proof fn law_filter_core_strip_all_is_strip(c: FilterModel, input: Seq<u8>)
    requires
        spec_is_strip_all(c),
    ensures
        spec_filter_core(c, input) == spec_strip(input),
{
    lemma_filter_tracks_strip(c, input);
}

proof fn lemma_filter_tracks_strip(c: FilterModel, input: Seq<u8>)
    requires
        spec_is_strip_all(c),
    ensures
        filter_run(c, initial_scan(), input).0.cp.parser == run_state(State::Ground, input),
        classifier_inv(filter_run(c, initial_scan(), input).0.cp),
        filter_run(c, initial_scan(), input).1 == run_out(State::Ground, input),
    decreases input.len(),
{
    if input.len() == 0 {
        law_classifier_inv_initial();
    } else {
        let t = input.drop_last();
        let x = input.last();
        lemma_filter_tracks_strip(c, t);
        let st = filter_run(c, initial_scan(), t).0;
        law_classifier_tracks_parser(st.cp, x);
        law_classifier_emit(st.cp, x);
        law_classifier_inv_preserved(st.cp, x);
        crate::parser::lemma_emit_only_from_ground(st.cp.parser, x);
        crate::parser::lemma_run_push(State::Ground, t, x);
        assert(t.push(x) =~= input);
        let o = filter_step(c, st, x).1;
        let e = if step(st.cp.parser, x).1 == Action::Emit {
            seq![x]
        } else {
            Seq::<u8>::empty()
        };
        assert(o =~= e);
    }
}

// ── FilterStream ────────────────────────────────────────────────────
/// Feeding the classifier from a mid-sequence state until it is back in
/// ground: the state reached and the number of bytes consumed.
pub open spec fn drain(m: ClassifierState, t: Seq<u8>) -> (ClassifierState, int)
    decreases t.len(),
{
    if t.len() == 0 || m.parser == State::Ground {
        (m, 0)
    } else {
        let r = drain(classify_step(m, t[0]).0, t.drop_first());
        (r.0, r.1 + 1)
    }
}

/// What one chunk of a filter stream yields, from classifier state `m`, and
/// the classifier state after it. A sequence left open by the previous chunk
/// is always stripped; after that the chunk is filtered per sequence (or
/// passed through whole under a pass-all config); a sequence still open at
/// the chunk's end carries over.
pub open spec fn filter_chunk(c: FilterModel, m: ClassifierState, t: Seq<u8>) -> (ClassifierState, Seq<u8>) {
    let d = drain(m, t);
    let rest = t.skip(d.1);
    if spec_is_pass_all(c) {
        (d.0, rest)
    } else {
        let r = filter_run(c, FilterScan { cp: d.0, buf: Seq::empty() }, rest);
        (r.0.cp, r.1)
    }
}

// ── Slice boundaries ────────────────────────────────────────────────
/// Where a slice of a filtered chunk lies in the input.
pub enum FilterPiece {
    /// Content bytes `input[a..b]` (when everything is kept: all the rest
    /// of the chunk).
    Content(int, int),
    /// A whole preserved sequence `input[a..b]`.
    Sequence(int, int),
}

/// The input range of a slice.
pub open spec fn piece_range(p: FilterPiece) -> (int, int) {
    match p {
        FilterPiece::Content(a, b) => (a, b),
        FilterPiece::Sequence(a, b) => (a, b),
    }
}

/// Whether the last slice is content ending at `i`.
pub open spec fn ends_content_at(ps: Seq<FilterPiece>, i: int) -> bool {
    ps.len() > 0 && (ps.last() matches FilterPiece::Content(a, b) && b == i)
}

/// Content byte `i` added to the slices: it extends a content slice that
/// ends just before it, or starts a new one.
pub open spec fn add_content(ps: Seq<FilterPiece>, i: int) -> Seq<FilterPiece> {
    if ends_content_at(ps, i) {
        ps.drop_last().push(FilterPiece::Content(piece_range(ps.last()).0, i + 1))
    } else {
        ps.push(FilterPiece::Content(i, i + 1))
    }
}

/// The slices made from `input[start..j]`, filtered from progress `st0`.
#[verifier::opaque]
pub open spec fn filter_piece_run(c: FilterModel, st0: FilterScan, input: Seq<u8>, start: int, j: int) -> Seq<FilterPiece>
    decreases j - start,
{
    if j <= start {
        Seq::empty()
    } else {
        let ps = filter_piece_run(c, st0, input, start, j - 1);
        let st = filter_run(c, st0, input.subrange(start, j - 1)).0;
        let b = input[j - 1];
        let (m, act) = classify_step(st.cp, b);
        match act {
            SeqAction::Emit => if st.cp.in_seq && is_abort_byte(b) {
                ps
            } else {
                add_content(ps, j - 1)
            },
            SeqAction::EndSeq => if spec_should_strip_detail(c, detail_of(m)) {
                ps
            } else {
                ps.push(FilterPiece::Sequence(j - (st.buf.len() + 1), j))
            },
            _ => ps,
        }
    }
}

/// The slices a chunk is cut into: nothing for the end of a sequence left
/// open by the previous chunk; then, when everything is kept, the rest of
/// the chunk whole; otherwise each maximal run of content and each
/// preserved sequence, in order.
pub open spec fn filter_pieces(c: FilterModel, m: ClassifierState, input: Seq<u8>) -> Seq<FilterPiece> {
    let d = drain(m, input);
    if spec_is_pass_all(c) {
        if d.1 < input.len() {
            seq![FilterPiece::Content(d.1, input.len() as int)]
        } else {
            Seq::empty()
        }
    } else {
        filter_piece_run(c, FilterScan { cp: d.0, buf: Seq::empty() }, input, d.1, input.len() as int)
    }
}

/// Whether slices are, one by one, the input ranges the pieces describe.
pub open spec fn pieces_lie_in(ss: Seq<Seq<u8>>, ps: Seq<FilterPiece>, input: Seq<u8>) -> bool {
    &&& ss.len() == ps.len()
    &&& forall|i: int|
        0 <= i < ss.len() ==> {
            let (a, b) = piece_range(#[trigger] ps[i]);
            &&& 0 <= a < b <= input.len()
            &&& ss[i] == input.subrange(a, b)
        }
}

/// Whether the last slice, if any, ends by `j`.
pub open spec fn last_piece_ends_by(ps: Seq<FilterPiece>, j: int) -> bool {
    ps.len() > 0 ==> piece_range(ps.last()).1 <= j
}

proof fn lemma_filter_piece_run_empty(c: FilterModel, st0: FilterScan, input: Seq<u8>, start: int)
    ensures
        filter_piece_run(c, st0, input, start, start) == Seq::<FilterPiece>::empty(),
{
    reveal_with_fuel(filter_piece_run, 1);
}

/// The last slice made from `input[start..j]` ends by `j`.
proof fn lemma_filter_piece_run_last_end(c: FilterModel, st0: FilterScan, input: Seq<u8>, start: int, j: int)
    ensures
        last_piece_ends_by(filter_piece_run(c, st0, input, start, j), j),
    decreases j - start,
{
    reveal_with_fuel(filter_piece_run, 1);
    if j > start {
        lemma_filter_piece_run_last_end(c, st0, input, start, j - 1);
    }
}

/// What one more byte inside a sequence adds to the slices.
proof fn lemma_filter_piece_run_step(c: FilterModel, st0: FilterScan, input: Seq<u8>, start: int, j: int)
    requires
        0 <= start <= j < input.len(),
    ensures
        ({
            let ps = filter_piece_run(c, st0, input, start, j);
            let next = filter_piece_run(c, st0, input, start, j + 1);
            let st = filter_run(c, st0, input.subrange(start, j)).0;
            let b = input[j];
            let m = classify_step(st.cp, b).0;
            let act = classify_step(st.cp, b).1;
            &&& (act == SeqAction::StartSeq || act == SeqAction::InSeq) ==> next == ps
            &&& (act == SeqAction::Emit && st.cp.in_seq && is_abort_byte(b)) ==> next == ps
            &&& (act == SeqAction::EndSeq && spec_should_strip_detail(c, detail_of(m))) ==> next == ps
            &&& (act == SeqAction::EndSeq && !spec_should_strip_detail(c, detail_of(m))) ==> next
                == ps.push(FilterPiece::Sequence(j + 1 - (st.buf.len() + 1), j + 1))
        }),
{
    reveal_with_fuel(filter_piece_run, 1);
}

/// A run of content bytes after a slice that is not content ending where
/// the run starts makes one new content slice.
proof fn lemma_filter_piece_stretch(c: FilterModel, st0: FilterScan, input: Seq<u8>, start: int, pos: int, next: int)
    requires
        0 <= start <= pos < next <= input.len(),
        ({
            let st = filter_run(c, st0, input.subrange(start, pos)).0;
            &&& st.cp.parser == State::Ground
            &&& !st.cp.in_seq
            &&& st.buf == Seq::<u8>::empty()
        }),
        forall|k: int| pos <= k < next ==> input[k] != ESC,
        !ends_content_at(filter_piece_run(c, st0, input, start, pos), pos),
    ensures
        filter_piece_run(c, st0, input, start, next) == filter_piece_run(c, st0, input, start, pos).push(
            FilterPiece::Content(pos, next),
        ),
        filter_run(c, st0, input.subrange(start, next)).0 == filter_run(c, st0, input.subrange(start, pos)).0,
    decreases next - pos,
{
    reveal_with_fuel(filter_piece_run, 1);
    let ps0 = filter_piece_run(c, st0, input, start, pos);
    if next - 1 > pos {
        lemma_filter_piece_stretch(c, st0, input, start, pos, next - 1);
    }
    let st = filter_run(c, st0, input.subrange(start, next - 1)).0;
    let b = input[next - 1];
    assert(b != ESC);
    lemma_filter_run_push(c, st0, input.subrange(start, next - 1), b);
    assert(input.subrange(start, next - 1).push(b) =~= input.subrange(start, next));
    let ps = filter_piece_run(c, st0, input, start, next - 1);
    assert(classify_step(st.cp, b).1 == SeqAction::Emit);
    if next - 1 > pos {
        assert(ends_content_at(ps, next - 1));
        assert(ps.drop_last() =~= ps0);
        assert(add_content(ps, next - 1) =~= ps0.push(FilterPiece::Content(pos, next)));
    } else {
        assert(add_content(ps, next - 1) =~= ps0.push(FilterPiece::Content(pos, next)));
    }
}

/// Slices that lie where their pieces say stay so when one more of each is
/// added.
proof fn lemma_pieces_lie_in_push(ss: Seq<Seq<u8>>, ps: Seq<FilterPiece>, input: Seq<u8>, s: Seq<u8>, p: FilterPiece)
    requires
        pieces_lie_in(ss, ps, input),
        0 <= piece_range(p).0 < piece_range(p).1 <= input.len(),
        s == input.subrange(piece_range(p).0, piece_range(p).1),
    ensures
        pieces_lie_in(ss.push(s), ps.push(p), input),
{
    assert forall|i: int| 0 <= i < ss.push(s).len() implies {
        let (a, b) = piece_range(#[trigger] ps.push(p)[i]);
        &&& 0 <= a < b <= input.len()
        &&& ss.push(s)[i] == input.subrange(a, b)
    } by {
        if i < ss.len() {
            assert(ss.push(s)[i] == ss[i]);
            assert(ps.push(p)[i] == ps[i]);
        }
    }
}

pub(crate) proof fn lemma_drain_bound(m: ClassifierState, t: Seq<u8>)
    ensures
        0 <= drain(m, t).1 <= t.len(),
        drain(m, t).1 < t.len() ==> drain(m, t).0.parser == State::Ground,
        drain(m, t).1 == t.len() && t.len() > 0 ==> (drain(m, t).0.parser == State::Ground || m.parser != State::Ground),
    decreases t.len(),
{
    if t.len() > 0 && m.parser != State::Ground {
        lemma_drain_bound(classify_step(m, t[0]).0, t.drop_first());
    }
}

/// Whenever the classifier is between sequences, no sequence bytes are
/// held back.
proof fn lemma_ground_holds_nothing(c: FilterModel, st: FilterScan, t: Seq<u8>)
    requires
        st.cp.parser == State::Ground ==> st.buf == Seq::<u8>::empty(),
    ensures
        filter_run(c, st, t).0.cp.parser == State::Ground ==> filter_run(c, st, t).0.buf
            == Seq::<u8>::empty(),
    decreases t.len(),
{
    if t.len() > 0 {
        lemma_ground_holds_nothing(c, st, t.drop_last());
    }
}

/// Draining stops at the same point on a longer input once it has stopped
/// inside the shorter one, or reached the ground state at its end.
pub(crate) proof fn lemma_drain_prefix(m: ClassifierState, a: Seq<u8>, b: Seq<u8>)
    requires
        drain(m, a).1 < a.len() || drain(m, a).0.parser == State::Ground,
    ensures
        drain(m, a + b) == drain(m, a),
    decreases a.len(),
{
    if a.len() == 0 {
        assert(m.parser == State::Ground);
    } else if m.parser != State::Ground {
        assert((a + b)[0] == a[0]);
        assert((a + b).drop_first() =~= a.drop_first() + b);
        lemma_drain_prefix(classify_step(m, a[0]).0, a.drop_first(), b);
    }
}

/// Splitting the input of a filter stream where the first part leaves it
/// between sequences changes nothing: the two chunks give together what
/// the whole gives, and leave the stream in the same state.
pub proof fn law_filter_split_at_ground(c: FilterModel, m: ClassifierState, a: Seq<u8>, b: Seq<u8>)
    requires
        filter_chunk(c, m, a).0.parser == State::Ground,
    ensures
        filter_chunk(c, m, a + b).0 == filter_chunk(c, filter_chunk(c, m, a).0, b).0,
        filter_chunk(c, m, a + b).1 == filter_chunk(c, m, a).1 + filter_chunk(
            c,
            filter_chunk(c, m, a).0,
            b,
        ).1,
{
    let d = drain(m, a);
    lemma_drain_bound(m, a);
    let ma = filter_chunk(c, m, a).0;
    if d.1 == a.len() && d.0.parser != State::Ground {
        // Nothing of `a` is left after draining, so the state is the drained one.
        assert(a.skip(d.1) =~= Seq::<u8>::empty());
    }
    lemma_drain_prefix(m, a, b);
    assert((a + b).skip(d.1) =~= a.skip(d.1) + b);
    assert(drain(ma, b) == (ma, 0int));
    assert(b.skip(0) =~= b);
    if !spec_is_pass_all(c) {
        let st0 = FilterScan { cp: d.0, buf: Seq::empty() };
        lemma_filter_run_concat(c, st0, a.skip(d.1), b);
        lemma_ground_holds_nothing(c, st0, a.skip(d.1));
    }
}

/// Borrowed slices of one chunk (content and preserved sequences), in order.
pub struct FilterSlices<'a> {
    slices: Vec<&'a [u8]>,
    next: usize,
}

impl<'a> FilterSlices<'a> {
    /// The slices not yet handed out, as byte sequences.
    pub closed spec fn remaining(&self) -> Seq<Seq<u8>> {
        slice_views(self.slices@).skip(self.next as int)
    }

    /// No slice has been handed out yet.
    pub closed spec fn fresh(&self) -> bool {
        self.next == 0
    }

    /// Well-formedness: the cursor never passes the end.
    pub closed spec fn wf(&self) -> bool {
        self.next <= self.slices@.len()
    }

    /// Hands out the next slice, if any.
    pub fn next(&mut self) -> (r: Option<&'a [u8]>)
        requires
            old(self).wf(),
        ensures
            final(self).wf(),
            old(self).remaining().len() == 0 ==> r is None && final(self).remaining() == old(
                self,
            ).remaining(),
            old(self).remaining().len() > 0 ==> (r matches Some(s) && s@ == old(self).remaining()[0]
                && final(self).remaining() == old(self).remaining().drop_first()),
    {
        if self.next < self.slices.len() {
            let s = self.slices[self.next];
            proof {
                assert(slice_views(self.slices@).skip(self.next as int)[0] == s@);
                assert(slice_views(self.slices@).skip(self.next + 1) =~= slice_views(
                    self.slices@,
                ).skip(self.next as int).drop_first());
            }
            self.next = self.next + 1;
            Some(s)
        } else {
            None
        }
    }
}

/// Stateful streaming filter for chunked input with configurable sequence
/// preservation. The classifier state carries across chunk boundaries;
/// sequences spanning a boundary are always stripped.
#[derive(Copy, Clone, Debug, PartialEq, Eq, Structural)]
pub struct FilterStream {
    cp: ClassifyingParser,
}

impl View for FilterStream {
    type V = ClassifierState;

    closed spec fn view(&self) -> ClassifierState {
        self.cp@
    }
}

impl FilterStream {
    /// The classifier is inside a sequence exactly when its parser is away
    /// from the ground state.
    #[verifier::type_invariant]
    spec fn stream_inv(&self) -> bool {
        classifier_inv(self.cp@)
    }
}

impl FilterStream {
    /// Create a new streaming filter in the ground state.
    pub fn new() -> (s: Self)
        ensures
            s@ == initial_classifier_state(),
    {
        proof {
            law_classifier_inv_initial();
        }
        FilterStream { cp: ClassifyingParser::new() }
    }

    /// Reset the parser to ground state.
    pub fn reset(&mut self)
        ensures
            final(self)@ == initial_classifier_state(),
    {
        let mut cp = self.cp;
        cp.reset();
        proof {
            law_classifier_inv_initial();
        }
        self.cp = cp;
    }

    /// Discard any incomplete escape at stream end (same as reset).
    pub fn finish(&mut self)
        ensures
            final(self)@ == initial_classifier_state(),
    {
        self.reset();
    }

    /// Returns `true` if the parser is in the ground state.
    pub fn is_ground(&self) -> (b: bool)
        ensures
            b == (self@.parser == State::Ground),
    {
        self.cp.is_ground()
    }

    /// Filter a chunk, yielding borrowed slices of content and preserved
    /// sequence bytes.
    #[verifier::spinoff_prover]
    #[verifier::rlimit(80)]
    pub fn filter_slices<'a>(&mut self, input: &'a [u8], config: &'a FilterConfig) -> (r: FilterSlices<'a>)
        ensures
            r.wf(),
            r.fresh(),
            concat_all(r.remaining()) == filter_chunk(config@, old(self)@, input@).1,
            pieces_lie_in(r.remaining(), filter_pieces(config@, old(self)@, input@), input@),
            final(self)@ == filter_chunk(config@, old(self)@, input@).0,
            classifier_inv(final(self)@),
    {
        proof {
            use_type_invariant(&*self);
        }
        let mut cp = self.cp;
        let ghost c = config@;
        let ghost m0 = cp@;
        let len = input.len();
        let mut slices: Vec<&'a [u8]> = Vec::new();
        let mut pos: usize = 0;
        proof {
            assert(input@.skip(0) =~= input@);
            lemma_drain_bound(m0, input@);
        }
        // Phase 1: drain a sequence left open by the previous chunk.
        while pos < len && !cp.is_ground()
            invariant
                len == input@.len(),
                pos <= len,
                drain(m0, input@) == (drain(cp@, input@.skip(pos as int)).0, pos + drain(
                    cp@,
                    input@.skip(pos as int),
                ).1),
                classifier_inv(cp@),
            decreases len - pos,
        {
            let b = input[pos];
            proof {
                assert(input@.skip(pos as int)[0] == b);
                assert(input@.skip(pos as int).drop_first() =~= input@.skip(pos + 1));
                law_classifier_inv_preserved(cp@, b);
            }
            let action = cp.feed(b);
            pos += 1;
        }
        let ghost d = drain(m0, input@);
        proof {
            assert(d.0 == cp@ && d.1 == pos);
            assert(slice_views(slices@) =~= Seq::<Seq<u8>>::empty());
        }
        let ghost rest = input@.skip(pos as int);
        if config.is_pass_all() {
            // Preserve everything that follows.
            if pos < len {
                let slice = vstd::slice::slice_subrange(input, pos, len);
                proof {
                    lemma_views_push(slices@, slice);
                    lemma_concat_push(slice_views(slices@), slice@);
                    assert(slice@ =~= rest);
                    lemma_pieces_lie_in_push(
                        slice_views(slices@),
                        Seq::empty(),
                        input@,
                        slice@,
                        FilterPiece::Content(pos as int, len as int),
                    );
                    assert(Seq::<FilterPiece>::empty().push(FilterPiece::Content(pos as int, len as int))
                        =~= seq![FilterPiece::Content(pos as int, len as int)]);
                }
                slices.push(slice);
            } else {
                assert(rest =~= Seq::<u8>::empty());
            }
            proof {
                assert(slice_views(slices@).skip(0) =~= slice_views(slices@));
            }
            self.cp = cp;
            return FilterSlices { slices, next: 0 };
        }
        let ghost st0 = FilterScan { cp: cp@, buf: Seq::empty() };
        let ghost start = pos;
        let mut seq_start: usize = pos;
        let mut in_seq = !cp.is_ground();
        proof {
            assert(input@.subrange(start as int, pos as int) =~= Seq::<u8>::empty());
            lemma_drain_bound(m0, input@);
            lemma_filter_piece_run_empty(c, st0, input@, start as int);
        }
        // Phase 2: content runs and whole sequences of this chunk.
        while pos < len
            invariant
                len == input@.len(),
                start <= pos <= len,
                rest == input@.subrange(start as int, len as int),
                cp@ == filter_run(c, st0, input@.subrange(start as int, pos as int)).0.cp,
                start <= seq_start <= pos,
                filter_run(c, st0, input@.subrange(start as int, pos as int)).0.buf
                    == input@.subrange(seq_start as int, pos as int),
                concat_all(slice_views(slices@)) == filter_run(
                    c,
                    st0,
                    input@.subrange(start as int, pos as int),
                ).1,
                in_seq == cp@.in_seq,
                classifier_inv(cp@),
                pos < len ==> cp@.parser == State::Ground,
                pos < len ==> seq_start == pos,
                c == config@,
                !spec_is_pass_all(c),
                pieces_lie_in(
                    slice_views(slices@),
                    filter_piece_run(c, st0, input@, start as int, pos as int),
                    input@,
                ),
                pos < len ==> !ends_content_at(
                    filter_piece_run(c, st0, input@, start as int, pos as int),
                    pos as int,
                ),
            decreases len - pos,
        {
            let next = next_esc(input, pos);
            if next > pos {
                let slice = vstd::slice::slice_subrange(input, pos, next);
                proof {
                    let st = filter_run(c, st0, input@.subrange(start as int, pos as int)).0;
                    assert(input@.subrange(seq_start as int, pos as int) =~= Seq::<u8>::empty());
                    assert forall|k: int| pos <= k < next implies input@[k] != ESC by {
                        assert(input@.subrange(pos as int, next as int)[k - pos] == input@[k]);
                    }
                    lemma_filter_piece_stretch(c, st0, input@, start as int, pos as int, next as int);
                    lemma_pieces_lie_in_push(
                        slice_views(slices@),
                        filter_piece_run(c, st0, input@, start as int, pos as int),
                        input@,
                        slice@,
                        FilterPiece::Content(pos as int, next as int),
                    );
                    lemma_filter_ground_stretch(c, st, slice@);
                    lemma_filter_run_concat(c, st0, input@.subrange(start as int, pos as int), slice@);
                    assert(input@.subrange(start as int, pos as int) + slice@ =~= input@.subrange(
                        start as int,
                        next as int,
                    ));
                    lemma_views_push(slices@, slice);
                    lemma_concat_push(slice_views(slices@), slice@);
                    assert(input@.subrange(seq_start as int, pos as int) =~= Seq::<u8>::empty());
                    assert(input@.subrange(next as int, next as int) =~= Seq::<u8>::empty());
                }
                slices.push(slice);
                pos = next;
                seq_start = next;
            }
            let ghost entry = pos;
            proof {
                lemma_filter_piece_run_last_end(c, st0, input@, start as int, entry as int);
            }
            // The escape at `pos`: feed until it ends.
            while pos < len
                invariant_except_break
                    pos == entry && pos < len ==> cp@.parser == State::Ground,
                    pos > entry ==> cp@.parser != State::Ground,
                    pos > entry ==> filter_piece_run(c, st0, input@, start as int, pos as int)
                        == filter_piece_run(c, st0, input@, start as int, entry as int),
                invariant
                    entry <= pos,
                    entry < len ==> input@[entry as int] == ESC,
                    last_piece_ends_by(filter_piece_run(c, st0, input@, start as int, entry as int), entry as int),
                    pieces_lie_in(
                        slice_views(slices@),
                        filter_piece_run(c, st0, input@, start as int, pos as int),
                        input@,
                    ),
                    len == input@.len(),
                    start <= pos <= len,
                    cp@ == filter_run(c, st0, input@.subrange(start as int, pos as int)).0.cp,
                    start <= seq_start <= pos,
                    filter_run(c, st0, input@.subrange(start as int, pos as int)).0.buf
                        == input@.subrange(seq_start as int, pos as int),
                    concat_all(slice_views(slices@)) == filter_run(
                        c,
                        st0,
                        input@.subrange(start as int, pos as int),
                    ).1,
                    in_seq == cp@.in_seq,
                    classifier_inv(cp@),
                    c == config@,
                ensures
                    entry < len ==> entry < pos,
                    start <= pos <= len,
                    cp@ == filter_run(c, st0, input@.subrange(start as int, pos as int)).0.cp,
                    start <= seq_start <= pos,
                    filter_run(c, st0, input@.subrange(start as int, pos as int)).0.buf
                        == input@.subrange(seq_start as int, pos as int),
                    concat_all(slice_views(slices@)) == filter_run(
                        c,
                        st0,
                        input@.subrange(start as int, pos as int),
                    ).1,
                    in_seq == cp@.in_seq,
                    classifier_inv(cp@),
                    pos < len ==> cp@.parser == State::Ground,
                    pos < len ==> seq_start == pos,
                    pieces_lie_in(
                        slice_views(slices@),
                        filter_piece_run(c, st0, input@, start as int, pos as int),
                        input@,
                    ),
                    pos < len ==> !ends_content_at(
                        filter_piece_run(c, st0, input@, start as int, pos as int),
                        pos as int,
                    ),
                decreases len - pos,
            {
                let b = input[pos];
                let ghost st = filter_run(c, st0, input@.subrange(start as int, pos as int)).0;
                proof {
                    lemma_filter_run_push(c, st0, input@.subrange(start as int, pos as int), b);
                    assert(input@.subrange(start as int, pos as int).push(b) =~= input@.subrange(
                        start as int,
                        pos + 1,
                    ));
                    law_classifier_inv_preserved(cp@, b);
                    law_classifier_emit(cp@, b);
                    crate::classifier::law_start_resets(cp@, b);
                    lemma_filter_piece_run_step(c, st0, input@, start as int, pos as int);
                    crate::parser::lemma_emit_only_from_ground(cp@.parser, b);
                    assert(input@.subrange(seq_start as int, pos as int).push(b) =~= input@.subrange(
                        seq_start as int,
                        pos + 1,
                    ));
                    assert(input@.subrange(pos as int, pos + 1) =~= seq![b]);
                    assert(input@.subrange(pos + 1, pos + 1) =~= Seq::<u8>::empty());
                }
                let action = cp.feed(b);
                let mut ended = false;
                match action {
                    SeqAction::StartSeq => {
                        in_seq = true;
                        seq_start = pos;
                    },
                    SeqAction::InSeq => {},
                    SeqAction::EndSeq => {
                        in_seq = false;
                        let strip_current = if config.has_detail_filters() {
                            let detail = cp.detail();
                            config.should_strip_detail(&detail)
                        } else {
                            config.should_strip(cp.current_kind())
                        };
                        proof {
                            assert(strip_current == spec_should_strip_detail(c, detail_of(cp@)));
                        }
                        if !strip_current {
                            // Preserve: yield the full sequence.
                            let seq_slice = vstd::slice::slice_subrange(input, seq_start, pos + 1);
                            proof {
                                lemma_views_push(slices@, seq_slice);
                                lemma_concat_push(slice_views(slices@), seq_slice@);
                                lemma_pieces_lie_in_push(
                                    slice_views(slices@),
                                    filter_piece_run(c, st0, input@, start as int, pos as int),
                                    input@,
                                    seq_slice@,
                                    FilterPiece::Sequence(seq_start as int, pos + 1),
                                );
                            }
                            slices.push(seq_slice);
                        } else {
                            proof {
                                assert(concat_all(slice_views(slices@)) + Seq::<u8>::empty()
                                    =~= concat_all(slice_views(slices@)));
                            }
                        }
                        seq_start = pos + 1;
                        ended = true;
                    },
                    SeqAction::Emit => {
                        // CAN/SUB aborting a sequence are dropped. Content
                        // cannot come here: this loop starts at an ESC and
                        // stops when its sequence ends.
                        if in_seq && (b == 0x18 || b == 0x1A) {
                            proof {
                                assert(concat_all(slice_views(slices@)) + Seq::<u8>::empty()
                                    =~= concat_all(slice_views(slices@)));
                            }
                        } else {
                            let one = vstd::slice::slice_subrange(input, pos, pos + 1);
                            proof {
                                assert(false);
                            }
                            slices.push(one);
                        }
                        in_seq = false;
                        seq_start = pos + 1;
                        ended = true;
                    },
                }
                pos += 1;
                if ended {
                    break;
                }
            }
        }
        proof {
            assert(input@.subrange(start as int, len as int) =~= rest);
            assert(slice_views(slices@).skip(0) =~= slice_views(slices@));
        }
        self.cp = cp;
        FilterSlices { slices, next: 0 }
    }

    /// Filter a chunk, appending content and preserved sequence bytes to
    /// `out`.
    pub fn push(&mut self, input: &[u8], config: &FilterConfig, out: &mut Vec<u8>)
        ensures
            final(out)@ == old(out)@ + filter_chunk(config@, old(self)@, input@).1,
            final(self)@ == filter_chunk(config@, old(self)@, input@).0,
            classifier_inv(final(self)@),
    {
        let slices = self.filter_slices(input, config);
        let ghost views = slice_views(slices.slices@);
        proof {
            assert(views.skip(0) =~= views);
        }
        let mut i: usize = 0;
        while i < slices.slices.len()
            invariant
                i <= slices.slices@.len(),
                views == slice_views(slices.slices@),
                views.len() == slices.slices@.len(),
                concat_all(views) == filter_chunk(config@, old(self)@, input@).1,
                out@ == old(out)@ + concat_all(views.take(i as int)),
            decreases slices.slices@.len() - i,
        {
            let slice = slices.slices[i];
            proof {
                assert(views.take(i + 1) =~= views.take(i as int).push(slice@));
                lemma_concat_push(views.take(i as int), slice@);
            }
            append_slice(out, slice);
            i += 1;
        }
        proof {
            assert(views.take(i as int) =~= views);
        }
    }
}

impl Default for FilterStream {
    fn default() -> (s: Self)
        ensures
            s@ == initial_classifier_state(),
    {
        Self::new()
    }
}

/// A single chunk fed to a fresh filter stream yields exactly the stateless
/// per-sequence filtering of that chunk.
pub proof fn law_first_chunk_matches_stateless(c: FilterModel, t: Seq<u8>)
    requires
        !spec_is_pass_all(c),
    ensures
        filter_chunk(c, initial_classifier_state(), t).1 == spec_filter_core(c, t),
{
    assert(t.skip(0) =~= t);
    assert(FilterScan { cp: initial_classifier_state(), buf: Seq::empty() } == initial_scan());
}

} // verus!
