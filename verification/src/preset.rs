//! Terminal capability presets for [`FilterConfig`] construction.
//!
//! Each [`TerminalPreset`] maps to a [`FilterConfig`] that preserves the
//! escape sequences a given class of terminal can handle. Presets form a
//! gradient from `Dumb` (strip everything) to `Full` (preserve everything).
//! Standard names (`dumb`, `vt100`, `xterm`, `full`) and use-case aliases
//! (`pipe`, `ci`, `pager`, `modern`) resolve to the same presets.

use vstd::prelude::*;

use crate::classifier::{OscType, SeqDetail, SeqGroup, SeqKind, spec_group};
use crate::text::spells;
use crate::filter::{
    ALL_GROUPS, FilterConfig, FilterMode, FilterModel, spec_group_bit, spec_should_strip,
    spec_should_strip_detail,
};

verus! {

/// Named terminal capability presets.
#[derive(Copy, Clone, Debug, PartialEq, Eq, Hash, Structural)]
pub enum TerminalPreset {
    /// Strip all escape sequences (pipes, files, `TERM=dumb`). Alias: `pipe`.
    Dumb,
    /// Preserve SGR (colors and text styles) only. Aliases: `ci`, `pager`.
    Color,
    /// Preserve SGR, cursor movement, and erase sequences.
    Vt100,
    /// Preserve all CSI sequences and Fe escapes, but not OSC. Alias: `screen`.
    Tmux,
    /// Preserve safe CSI, safe OSC, and Fe sequences while stripping all
    /// known echoback vectors (CsiQuery, CsiDeviceStatus, OSC clipboard and
    /// other OSC, DCS, APC, PM, SOS, SS2, SS3). The auto-detect ceiling.
    /// Alias: `safe`.
    Sanitize,
    /// Preserve all CSI, OSC, and Fe sequences.
    Xterm,
    /// Preserve all escape sequences (strip nothing). Alias: `modern`.
    Full,
}

/// The filter model each preset stands for.
pub open spec fn preset_model(p: TerminalPreset) -> FilterModel {
    match p {
        TerminalPreset::Dumb => FilterModel {
            mode: FilterMode::StripAll,
            preserved: 0,
            sub_preserved: Seq::empty(),
            sgr_mask: 0,
            osc_preserve: Seq::empty(),
        },
        TerminalPreset::Color => FilterModel {
            mode: FilterMode::StripExcept,
            preserved: 0,
            sub_preserved: seq![SeqKind::CsiSgr],
            sgr_mask: 0,
            osc_preserve: Seq::empty(),
        },
        TerminalPreset::Vt100 => FilterModel {
            mode: FilterMode::StripExcept,
            preserved: 0,
            sub_preserved: seq![SeqKind::CsiSgr, SeqKind::CsiCursor, SeqKind::CsiErase],
            sgr_mask: 0,
            osc_preserve: Seq::empty(),
        },
        TerminalPreset::Tmux => FilterModel {
            mode: FilterMode::StripExcept,
            preserved: spec_group_bit(SeqGroup::Csi) | spec_group_bit(SeqGroup::Fe),
            sub_preserved: Seq::empty(),
            sgr_mask: 0,
            osc_preserve: Seq::empty(),
        },
        TerminalPreset::Sanitize => FilterModel {
            mode: FilterMode::StripExcept,
            preserved: spec_group_bit(SeqGroup::Fe),
            sub_preserved: seq![
                SeqKind::CsiSgr,
                SeqKind::CsiCursor,
                SeqKind::CsiErase,
                SeqKind::CsiScroll,
                SeqKind::CsiMode,
                SeqKind::CsiWindow,
                SeqKind::CsiOther,
            ],
            sgr_mask: 0,
            osc_preserve: seq![
                OscType::Title,
                OscType::Hyperlink,
                OscType::Notify,
                OscType::WorkingDir,
                OscType::ShellInteg,
            ],
        },
        TerminalPreset::Xterm => FilterModel {
            mode: FilterMode::StripExcept,
            preserved: (spec_group_bit(SeqGroup::Csi) | spec_group_bit(SeqGroup::Osc))
                | spec_group_bit(SeqGroup::Fe),
            sub_preserved: Seq::empty(),
            sgr_mask: 0,
            osc_preserve: Seq::empty(),
        },
        TerminalPreset::Full => FilterModel {
            mode: FilterMode::StripExcept,
            preserved: ALL_GROUPS,
            sub_preserved: Seq::empty(),
            sgr_mask: 0,
            osc_preserve: Seq::empty(),
        },
    }
}

/// Whether a filter model is the one of preset `p`.
pub open spec fn is_preset_model(c: FilterModel, p: TerminalPreset) -> bool {
    let q = preset_model(p);
    &&& c.mode == q.mode
    &&& c.preserved == q.preserved
    &&& c.sub_preserved == q.sub_preserved
    &&& c.sgr_mask == q.sgr_mask
    &&& c.osc_preserve == q.osc_preserve
}

/// ASCII lower case of one character (other characters unchanged).
pub open spec fn ascii_lower(c: char) -> char {
    if 'A' <= c && c <= 'Z' {
        ((c as u32) + 32) as char
    } else {
        c
    }
}

/// ASCII lower case of a string.
pub open spec fn ascii_lower_str(s: Seq<char>) -> Seq<char> {
    s.map_values(|c: char| ascii_lower(c))
}

/// The preset a lower-case name stands for.
pub open spec fn preset_of_lower_name(n: Seq<char>) -> Option<TerminalPreset> {
    if n == "dumb"@ || n == "pipe"@ {
        Some(TerminalPreset::Dumb)
    } else if n == "color"@ || n == "ci"@ || n == "pager"@ {
        Some(TerminalPreset::Color)
    } else if n == "vt100"@ {
        Some(TerminalPreset::Vt100)
    } else if n == "tmux"@ || n == "screen"@ {
        Some(TerminalPreset::Tmux)
    } else if n == "sanitize"@ || n == "safe"@ {
        Some(TerminalPreset::Sanitize)
    } else if n == "xterm"@ {
        Some(TerminalPreset::Xterm)
    } else if n == "full"@ || n == "modern"@ {
        Some(TerminalPreset::Full)
    } else {
        None
    }
}

/// The canonical name of a preset.
pub open spec fn spec_preset_name(p: TerminalPreset) -> Seq<char> {
    match p {
        TerminalPreset::Dumb => "dumb"@,
        TerminalPreset::Color => "color"@,
        TerminalPreset::Vt100 => "vt100"@,
        TerminalPreset::Tmux => "tmux"@,
        TerminalPreset::Sanitize => "sanitize"@,
        TerminalPreset::Xterm => "xterm"@,
        TerminalPreset::Full => "full"@,
    }
}

/// ASCII lower case of a string, by `str::to_ascii_lowercase`.
///
/// Trusted: per its documentation, `to_ascii_lowercase` maps `'A'..='Z'`
/// to `'a'..='z'` and leaves every other character unchanged.
#[verifier::external_body]
pub(crate) fn to_ascii_lowercase(s: &str) -> (r: String)
    ensures
        r@ == ascii_lower_str(s@),
{
    s.to_ascii_lowercase()
}

impl TerminalPreset {
    /// Convert this preset to a [`FilterConfig`].
    pub fn to_filter_config(self) -> (c: FilterConfig)
        ensures
            is_preset_model(c@, self),
    {
        match self {
            Self::Dumb => FilterConfig::strip_all(),
            Self::Color => {
                let c = FilterConfig::strip_all().no_strip_kind(SeqKind::CsiSgr);
                assert(c@.sub_preserved =~= preset_model(self).sub_preserved);
                c
            },
            Self::Vt100 => {
                let c = FilterConfig::strip_all().no_strip_kind(SeqKind::CsiSgr).no_strip_kind(
                    SeqKind::CsiCursor,
                ).no_strip_kind(SeqKind::CsiErase);
                assert(c@.sub_preserved =~= preset_model(self).sub_preserved);
                c
            },
            Self::Tmux => {
                let c = FilterConfig::strip_all().no_strip_group(SeqGroup::Csi).no_strip_group(
                    SeqGroup::Fe,
                );
                assert(0u16 | 1u16 == 1u16) by (bit_vector);
                c
            },
            Self::Sanitize => {
                let c = FilterConfig::strip_all().no_strip_kind(SeqKind::CsiSgr).no_strip_kind(
                    SeqKind::CsiCursor,
                ).no_strip_kind(SeqKind::CsiErase).no_strip_kind(SeqKind::CsiScroll).no_strip_kind(
                    SeqKind::CsiMode,
                ).no_strip_kind(SeqKind::CsiWindow).no_strip_kind(SeqKind::CsiOther);
                assert(c@.sub_preserved =~= preset_model(self).sub_preserved);
                assert(0u16 | 256u16 == 256u16) by (bit_vector);
                let c = c.no_strip_group(SeqGroup::Fe).no_strip_osc_type(
                    OscType::Title,
                ).no_strip_osc_type(OscType::Hyperlink).no_strip_osc_type(
                    OscType::Notify,
                ).no_strip_osc_type(OscType::WorkingDir).no_strip_osc_type(OscType::ShellInteg);
                assert(c@.osc_preserve =~= preset_model(self).osc_preserve);
                c
            },
            Self::Xterm => {
                let c = FilterConfig::strip_all().no_strip_group(SeqGroup::Csi).no_strip_group(
                    SeqGroup::Osc,
                ).no_strip_group(SeqGroup::Fe);
                assert(0u16 | 1u16 == 1u16) by (bit_vector);
                c
            },
            Self::Full => FilterConfig::pass_all(),
        }
    }

    /// Parse a preset name (ASCII case-insensitive), accepting both standard
    /// names and use-case aliases.
    pub fn from_name(name: &str) -> (r: Option<Self>)
        ensures
            r == preset_of_lower_name(ascii_lower_str(name@)),
    {
        let lower = to_ascii_lowercase(name);
        // Standard presets and use-case aliases.
        if spells(&lower, "dumb") || spells(&lower, "pipe") {
            Some(Self::Dumb)
        } else if spells(&lower, "color") || spells(&lower, "ci") || spells(&lower, "pager") {
            Some(Self::Color)
        } else if spells(&lower, "vt100") {
            Some(Self::Vt100)
        } else if spells(&lower, "tmux") || spells(&lower, "screen") {
            Some(Self::Tmux)
        } else if spells(&lower, "sanitize") || spells(&lower, "safe") {
            Some(Self::Sanitize)
        } else if spells(&lower, "xterm") {
            Some(Self::Xterm)
        } else if spells(&lower, "full") || spells(&lower, "modern") {
            Some(Self::Full)
        } else {
            None
        }
    }

    /// All valid preset names, aliases included, for help text: each one
    /// is accepted by [`from_name`](Self::from_name).
    pub fn all_names() -> (v: Vec<&'static str>)
        ensures
            v@.len() == 13,
            v@[0]@ == "dumb"@ && v@[1]@ == "pipe"@ && v@[2]@ == "color"@ && v@[3]@ == "ci"@
                && v@[4]@ == "pager"@ && v@[5]@ == "vt100"@ && v@[6]@ == "tmux"@ && v@[7]@
                == "screen"@ && v@[8]@ == "sanitize"@ && v@[9]@ == "safe"@ && v@[10]@ == "xterm"@
                && v@[11]@ == "full"@ && v@[12]@ == "modern"@,
            forall|i: int| 0 <= i < v@.len() ==> preset_of_lower_name(ascii_lower_str(#[trigger] v@[i]@)) is Some,
    {
        let mut v: Vec<&'static str> = Vec::new();
        v.push("dumb");
        v.push("pipe");
        v.push("color");
        v.push("ci");
        v.push("pager");
        v.push("vt100");
        v.push("tmux");
        v.push("screen");
        v.push("sanitize");
        v.push("safe");
        v.push("xterm");
        v.push("full");
        v.push("modern");
        proof {
            reveal_strlit("dumb");
            reveal_strlit("pipe");
            reveal_strlit("color");
            reveal_strlit("ci");
            reveal_strlit("pager");
            reveal_strlit("vt100");
            reveal_strlit("tmux");
            reveal_strlit("screen");
            reveal_strlit("sanitize");
            reveal_strlit("safe");
            reveal_strlit("xterm");
            reveal_strlit("full");
            reveal_strlit("modern");
            assert forall|i: int| 0 <= i < v@.len() implies preset_of_lower_name(ascii_lower_str(#[trigger] v@[i]@)) is Some by {
                assert(ascii_lower_str(v@[i]@) =~= v@[i]@);
            }
        }
        v
    }

    /// The canonical name for this preset.
    pub fn name(self) -> (n: &'static str)
        ensures
            n@ == spec_preset_name(self),
    {
        match self {
            Self::Dumb => "dumb",
            Self::Color => "color",
            Self::Vt100 => "vt100",
            Self::Tmux => "tmux",
            Self::Sanitize => "sanitize",
            Self::Xterm => "xterm",
            Self::Full => "full",
        }
    }

    /// Returns `true` for presets above `sanitize` that require `--unsafe`.
    pub fn requires_unsafe(self) -> (r: bool)
        ensures
            r == (self == TerminalPreset::Xterm || self == TerminalPreset::Full),
    {
        matches!(self, Self::Xterm | Self::Full)
    }
}

/// Every preset's canonical name parses back to that preset.
pub proof fn law_name_roundtrip(p: TerminalPreset)
    ensures
        preset_of_lower_name(ascii_lower_str(spec_preset_name(p))) == Some(p),
{
    reveal_strlit("dumb");
    reveal_strlit("pipe");
    reveal_strlit("color");
    reveal_strlit("ci");
    reveal_strlit("pager");
    reveal_strlit("vt100");
    reveal_strlit("tmux");
    reveal_strlit("screen");
    reveal_strlit("sanitize");
    reveal_strlit("safe");
    reveal_strlit("xterm");
    reveal_strlit("full");
    reveal_strlit("modern");
    let n = spec_preset_name(p);
    assert(ascii_lower_str(n) =~= n);
    assert("dumb"@[0] != "pipe"@[0]);
    assert("dumb"@.len() != "color"@.len());
    assert("dumb"@.len() != "ci"@.len());
    assert("dumb"@.len() != "pager"@.len());
    assert("dumb"@.len() != "vt100"@.len());
    assert("dumb"@[0] != "tmux"@[0]);
    assert("dumb"@.len() != "screen"@.len());
    assert("dumb"@.len() != "sanitize"@.len());
    assert("dumb"@[0] != "safe"@[0]);
    assert("dumb"@.len() != "xterm"@.len());
    assert("dumb"@[0] != "full"@[0]);
    assert("dumb"@.len() != "modern"@.len());
    assert("color"@.len() != "dumb"@.len());
    assert("color"@.len() != "pipe"@.len());
    assert("color"@.len() != "ci"@.len());
    assert("color"@[0] != "pager"@[0]);
    assert("color"@[0] != "vt100"@[0]);
    assert("color"@.len() != "tmux"@.len());
    assert("color"@.len() != "screen"@.len());
    assert("color"@.len() != "sanitize"@.len());
    assert("color"@.len() != "safe"@.len());
    assert("color"@[0] != "xterm"@[0]);
    assert("color"@.len() != "full"@.len());
    assert("color"@.len() != "modern"@.len());
    assert("vt100"@.len() != "dumb"@.len());
    assert("vt100"@.len() != "pipe"@.len());
    assert("vt100"@[0] != "color"@[0]);
    assert("vt100"@.len() != "ci"@.len());
    assert("vt100"@[0] != "pager"@[0]);
    assert("vt100"@.len() != "tmux"@.len());
    assert("vt100"@.len() != "screen"@.len());
    assert("vt100"@.len() != "sanitize"@.len());
    assert("vt100"@.len() != "safe"@.len());
    assert("vt100"@[0] != "xterm"@[0]);
    assert("vt100"@.len() != "full"@.len());
    assert("vt100"@.len() != "modern"@.len());
    assert("tmux"@[0] != "dumb"@[0]);
    assert("tmux"@[0] != "pipe"@[0]);
    assert("tmux"@.len() != "color"@.len());
    assert("tmux"@.len() != "ci"@.len());
    assert("tmux"@.len() != "pager"@.len());
    assert("tmux"@.len() != "vt100"@.len());
    assert("tmux"@.len() != "screen"@.len());
    assert("tmux"@.len() != "sanitize"@.len());
    assert("tmux"@[0] != "safe"@[0]);
    assert("tmux"@.len() != "xterm"@.len());
    assert("tmux"@[0] != "full"@[0]);
    assert("tmux"@.len() != "modern"@.len());
    assert("sanitize"@.len() != "dumb"@.len());
    assert("sanitize"@.len() != "pipe"@.len());
    assert("sanitize"@.len() != "color"@.len());
    assert("sanitize"@.len() != "ci"@.len());
    assert("sanitize"@.len() != "pager"@.len());
    assert("sanitize"@.len() != "vt100"@.len());
    assert("sanitize"@.len() != "tmux"@.len());
    assert("sanitize"@.len() != "screen"@.len());
    assert("sanitize"@.len() != "safe"@.len());
    assert("sanitize"@.len() != "xterm"@.len());
    assert("sanitize"@.len() != "full"@.len());
    assert("sanitize"@.len() != "modern"@.len());
    assert("xterm"@.len() != "dumb"@.len());
    assert("xterm"@.len() != "pipe"@.len());
    assert("xterm"@[0] != "color"@[0]);
    assert("xterm"@.len() != "ci"@.len());
    assert("xterm"@[0] != "pager"@[0]);
    assert("xterm"@[0] != "vt100"@[0]);
    assert("xterm"@.len() != "tmux"@.len());
    assert("xterm"@.len() != "screen"@.len());
    assert("xterm"@.len() != "sanitize"@.len());
    assert("xterm"@.len() != "safe"@.len());
    assert("xterm"@.len() != "full"@.len());
    assert("xterm"@.len() != "modern"@.len());
    assert("full"@[0] != "dumb"@[0]);
    assert("full"@[0] != "pipe"@[0]);
    assert("full"@.len() != "color"@.len());
    assert("full"@.len() != "ci"@.len());
    assert("full"@.len() != "pager"@.len());
    assert("full"@.len() != "vt100"@.len());
    assert("full"@[0] != "tmux"@[0]);
    assert("full"@.len() != "screen"@.len());
    assert("full"@.len() != "sanitize"@.len());
    assert("full"@[0] != "safe"@[0]);
    assert("full"@.len() != "xterm"@.len());
    assert("full"@.len() != "modern"@.len());
}

/// Only `xterm` and `full`, the presets that preserve echoback vectors such
/// as OSC 50 and CSI 21t, require `--unsafe`; `sanitize` and below do not.
pub proof fn law_unsafe_gate(p: TerminalPreset)
    ensures
        (p == TerminalPreset::Xterm || p == TerminalPreset::Full) == preserves_group_of(preset_model(p), SeqGroup::Osc, crate::filter::spec_group_bit(SeqGroup::Osc)),
{
    assert(0x1FFu16 & 2u16 != 0 && (1u16 | 2u16 | 256u16) & 2u16 != 0 && (1u16 | 256u16) & 2u16 == 0 && 256u16 & 2u16 == 0 && 0u16 & 2u16 == 0) by (bit_vector);
}

/// What each preset keeps and strips:
/// - `dumb` strips everything and `full` strips nothing;
/// - `color` keeps only SGR sequences;
/// - `vt100` keeps exactly SGR, cursor movement and erase sequences;
/// - `tmux` keeps every CSI sequence and every Fe (or unrecognised) escape;
/// - `xterm` keeps those and every OSC sequence as well;
/// - `sanitize` keeps SGR, cursor, erase, scroll, mode, window and other CSI
///   sequences, Fe and unrecognised escapes, and OSC titles, hyperlinks,
///   notifications, working directories and shell integration, and strips
///   the rest (status and echoback queries, other OSC, DCS, APC, PM, SOS,
///   SS2, SS3).
///
/// Apart from `sanitize`'s choice among OSC sequences, the decision depends
/// on the sequence's kind alone.
pub proof fn law_preset_strips(c: FilterModel, p: TerminalPreset, d: SeqDetail)
    requires
        is_preset_model(c, p),
    ensures
        ({
            let k = d.kind;
            let strip = spec_should_strip_detail(c, d);
            let csi = spec_group(k) == SeqGroup::Csi;
            let fe = k == SeqKind::Fe || k == SeqKind::Unknown;
            &&& !(p == TerminalPreset::Sanitize && k == SeqKind::Osc) ==> strip == spec_should_strip(c, k)
            &&& p == TerminalPreset::Dumb ==> strip
            &&& p == TerminalPreset::Full ==> !strip
            &&& p == TerminalPreset::Color ==> (strip <==> k != SeqKind::CsiSgr)
            &&& p == TerminalPreset::Vt100 ==> (strip <==> !(k == SeqKind::CsiSgr || k == SeqKind::CsiCursor
                || k == SeqKind::CsiErase))
            &&& p == TerminalPreset::Tmux ==> (strip <==> !(csi || fe))
            &&& p == TerminalPreset::Xterm ==> (strip <==> !(csi || fe || k == SeqKind::Osc))
            &&& p == TerminalPreset::Sanitize ==> (strip <==> !(k == SeqKind::CsiSgr || k == SeqKind::CsiCursor
                || k == SeqKind::CsiErase || k == SeqKind::CsiScroll || k == SeqKind::CsiMode || k
                == SeqKind::CsiWindow || k == SeqKind::CsiOther || fe || (k == SeqKind::Osc && (d.osc_type
                == OscType::Title || d.osc_type == OscType::Hyperlink || d.osc_type == OscType::Notify
                || d.osc_type == OscType::WorkingDir || d.osc_type == OscType::ShellInteg))))
        }),
{
    let k = d.kind;
    let g = spec_group(k);
    crate::filter::lemma_all_groups(g);
    crate::filter::lemma_group_bits_distinct(SeqGroup::Csi, g);
    crate::filter::lemma_group_bits_distinct(SeqGroup::Osc, g);
    crate::filter::lemma_group_bits_distinct(SeqGroup::Fe, g);
    crate::filter::lemma_or_bit(spec_group_bit(SeqGroup::Csi), spec_group_bit(SeqGroup::Fe), spec_group_bit(g));
    crate::filter::lemma_or_bit(spec_group_bit(SeqGroup::Csi), spec_group_bit(SeqGroup::Osc), spec_group_bit(g));
    crate::filter::lemma_or_bit(
        spec_group_bit(SeqGroup::Csi) | spec_group_bit(SeqGroup::Osc),
        spec_group_bit(SeqGroup::Fe),
        spec_group_bit(g),
    );
    let sp = c.sub_preserved;
    let op = c.osc_preserve;
    if p == TerminalPreset::Color {
        assert(sp[0] == SeqKind::CsiSgr);
    } else if p == TerminalPreset::Vt100 {
        assert(sp[0] == SeqKind::CsiSgr && sp[1] == SeqKind::CsiCursor && sp[2] == SeqKind::CsiErase);
    } else if p == TerminalPreset::Sanitize {
        assert(sp[0] == SeqKind::CsiSgr && sp[1] == SeqKind::CsiCursor && sp[2] == SeqKind::CsiErase
            && sp[3] == SeqKind::CsiScroll && sp[4] == SeqKind::CsiMode && sp[5] == SeqKind::CsiWindow
            && sp[6] == SeqKind::CsiOther);
        assert(op[0] == OscType::Title && op[1] == OscType::Hyperlink && op[2] == OscType::Notify
            && op[3] == OscType::WorkingDir && op[4] == OscType::ShellInteg);
    }
}

/// Whether a model keeps every sequence of a group by its group bit.
pub open spec fn preserves_group_of(c: FilterModel, g: SeqGroup, bit: u16) -> bool {
    c.mode == FilterMode::StripExcept && c.preserved & bit != 0
}

} // verus!
