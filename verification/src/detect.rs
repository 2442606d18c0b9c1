//! Terminal capability decisions: which preset and which SGR mask suit
//! an output, from what was observed of it (a terminal or not, `TERM`,
//! `NO_COLOR`, the color level). The observing itself is I/O and lies
//! outside the library.
//!
//! Detection never goes above [`Sanitize`](TerminalPreset::Sanitize).

use vstd::prelude::*;

use crate::classifier::{spec_osc_type, SeqDetail, SeqKind, SgrContent};
use crate::filter::spec_should_strip_detail;
use crate::stats::spec_classify_threat;
use crate::preset::{preset_model, TerminalPreset};
use crate::text::{chars_of, str_eq};

verus! {

/// The preset for an output: strip everything unless it is a terminal,
/// `TERM` is not `dumb`, `NO_COLOR` is unset and color is supported; then
/// `Sanitize`.
pub open spec fn spec_choose_preset(is_tty: bool, term_is_dumb: bool, no_color: bool, has_color: bool) -> TerminalPreset {
    if !is_tty || term_is_dumb || no_color || !has_color {
        TerminalPreset::Dumb
    } else {
        TerminalPreset::Sanitize
    }
}

/// The preset for an output, from what was observed of it.
pub fn choose_preset(is_tty: bool, term_is_dumb: bool, no_color: bool, has_color: bool) -> (p: TerminalPreset)
    ensures
        p == spec_choose_preset(is_tty, term_is_dumb, no_color, has_color),
        p != TerminalPreset::Xterm && p != TerminalPreset::Full,
{
    // Not a TTY: strip everything.
    if !is_tty {
        return TerminalPreset::Dumb;
    }
    // TERM=dumb: strip everything.
    if term_is_dumb {
        return TerminalPreset::Dumb;
    }
    // NO_COLOR (https://no-color.org).
    if no_color {
        return TerminalPreset::Dumb;
    }
    if !has_color {
        return TerminalPreset::Dumb;
    }
    // Capped at Sanitize.
    TerminalPreset::Sanitize
}

/// Whether `TERM` is literally `dumb`.
pub fn is_dumb_term(term: Option<&str>) -> (b: bool)
    ensures
        b == (term matches Some(t) && t@ == "dumb"@),
{
    match term {
        Some(t) => str_eq(t, "dumb"),
        None => false,
    }
}

/// The SGR mask of a color level: basic, plus 256-color, plus truecolor.
pub open spec fn spec_mask_for_level(has_256: bool, has_16m: bool) -> u8 {
    let m1: u8 = if has_256 { 0b011 } else { 0b001 };
    if has_16m {
        m1 | 0b100
    } else {
        m1
    }
}

/// The SGR mask for a detected color level.
pub fn sgr_mask_for_level(has_256: bool, has_16m: bool) -> (m: SgrContent)
    ensures
        m.0 == spec_mask_for_level(has_256, has_16m),
{
    let mut mask = SgrContent::basic();
    if has_256 {
        mask = mask.union(SgrContent::extended());
    }
    if has_16m {
        mask = mask.union(SgrContent::truecolor());
    }
    proof {
        assert(0b001u8 | 0b010u8 == 0b011u8) by (bit_vector);
    }
    mask
}

/// Whether `TERM` says the output has color, trusting nothing else: set,
/// not empty and not `dumb`.
pub open spec fn term_has_color(term: Option<Seq<char>>) -> bool {
    term matches Some(t) && t.len() > 0 && t != "dumb"@
}

/// The preset for an output when only `isatty` and `TERM` are trusted.
pub fn choose_preset_untrusted(is_tty: bool, term: Option<&str>, no_color: bool) -> (p: TerminalPreset)
    ensures
        p == spec_choose_preset(
            is_tty,
            term matches Some(t) && t@ == "dumb"@,
            no_color,
            term_has_color(
                match term {
                    Some(t) => Some(t@),
                    None => None,
                },
            ),
        ),
{
    let dumb = is_dumb_term(term);
    let has_color = match term {
        Some(t) => chars_of(t).len() > 0 && !str_eq(t, "dumb"),
        None => false,
    };
    choose_preset(is_tty, dumb, no_color, has_color)
}

/// Whether `s` ends with `suffix`.
pub open spec fn ends_with(s: Seq<char>, suffix: Seq<char>) -> bool {
    s.len() >= suffix.len() && s.subrange(s.len() - suffix.len(), s.len() as int) == suffix
}

/// The SGR mask from `TERM` alone: none for an unset, empty or `dumb`
/// `TERM`; basic and 256-color for a `256color` suffix; basic otherwise.
pub open spec fn spec_untrusted_mask(term: Option<Seq<char>>) -> Option<u8> {
    match term {
        None => None,
        Some(t) => if t.len() == 0 || t == "dumb"@ {
            None
        } else if ends_with(t, "256color"@) {
            Some(0b011u8)
        } else {
            Some(0b001u8)
        },
    }
}

/// Whether the characters of `s` end with those of `suffix`.
fn chars_end_with(s: &Vec<char>, suffix: &Vec<char>) -> (b: bool)
    ensures
        b == ends_with(s@, suffix@),
{
    if s.len() < suffix.len() {
        return false;
    }
    let off = s.len() - suffix.len();
    let mut i: usize = 0;
    while i < suffix.len()
        invariant
            s@.len() >= suffix@.len(),
            s@.len() <= usize::MAX,
            off == s@.len() - suffix@.len(),
            i <= suffix@.len(),
            forall|j: int| 0 <= j < i ==> s@[off + j] == suffix@[j],
        decreases suffix@.len() - i,
    {
        if s[off + i] != suffix[i] {
            proof {
                assert(s@.subrange(off as int, s@.len() as int)[i as int] != suffix@[i as int]);
            }
            return false;
        }
        i += 1;
    }
    proof {
        assert(s@.subrange(off as int, s@.len() as int) =~= suffix@);
    }
    true
}

/// The SGR mask from `TERM` alone, ignoring the variables an attacker can
/// set (`COLORTERM`, `TERM_PROGRAM`, ...).
pub fn sgr_mask_untrusted(term: Option<&str>) -> (m: Option<SgrContent>)
    ensures
        match term {
            None => m is None,
            Some(t) => match spec_untrusted_mask(Some(t@)) {
                None => m is None,
                Some(v) => m matches Some(c) && c.0 == v,
            },
        },
{
    let t = match term {
        Some(t) => t,
        None => return None,
    };
    let cs = chars_of(t);
    if cs.len() == 0 || str_eq(t, "dumb") {
        return None;
    }
    let suffix = chars_of("256color");
    if chars_end_with(&cs, &suffix) {
        proof {
            assert(0b001u8 | 0b010u8 == 0b011u8) by (bit_vector);
        }
        Some(SgrContent::basic().union(SgrContent::extended()))
    } else {
        // The "color" suffix and anything else: basic color.
        Some(SgrContent::basic())
    }
}

/// Whatever was observed of the output, the preset detection picks strips
/// every built-in echoback vector: DECRQSS and other DCS, OSC 50, OSC 52,
/// CSI 21t and CSI 6n. (A detail's OSC type is the one its number maps to.)
pub proof fn law_detected_preset_strips_threats(
    is_tty: bool,
    term_is_dumb: bool,
    no_color: bool,
    has_color: bool,
    d: SeqDetail,
)
    requires
        d.osc_type == spec_osc_type(d.osc_number),
        spec_classify_threat(d) is Some,
    ensures
        spec_should_strip_detail(
            preset_model(spec_choose_preset(is_tty, term_is_dumb, no_color, has_color)),
            d,
        ),
{
    let p = spec_choose_preset(is_tty, term_is_dumb, no_color, has_color);
    if p == TerminalPreset::Sanitize {
        let c = preset_model(p);
        assert(256u16 & 1u16 == 0 && 256u16 & 2u16 == 0 && 256u16 & 4u16 == 0) by (bit_vector);
        assert(c.preserved == 256u16);
        if d.kind == SeqKind::Osc {
            assert(!c.osc_preserve.contains(d.osc_type)) by {
                if c.osc_preserve.contains(d.osc_type) {
                    let i = choose|i: int| 0 <= i < c.osc_preserve.len() && c.osc_preserve[i] == d.osc_type;
                    assert(0 <= i < 5);
                }
            }
        } else if d.kind == SeqKind::CsiQuery {
            assert(!c.sub_preserved.contains(d.kind)) by {
                if c.sub_preserved.contains(d.kind) {
                    let i = choose|i: int| 0 <= i < c.sub_preserved.len() && c.sub_preserved[i] == d.kind;
                    assert(0 <= i < 7);
                }
            }
        }
    }
}

/// What `TERM` alone can unlock: nothing when it is unset, empty or `dumb`;
/// otherwise basic colors, plus 256 colors exactly when it ends with
/// `256color`, and never truecolor (which only an attacker-settable
/// variable could claim).
pub proof fn law_untrusted_mask(t: Seq<char>)
    ensures
        spec_untrusted_mask(None) is None,
        spec_untrusted_mask(Some(t)) is None <==> (t.len() == 0 || t == "dumb"@),
        spec_untrusted_mask(Some(t)) matches Some(v) ==> v & 4 == 0 && v & 1 != 0,
        (spec_untrusted_mask(Some(t)) matches Some(v) && v & 2 != 0) <==> (t.len() > 0 && t != "dumb"@
            && ends_with(t, "256color"@)),
{
    assert(0b011u8 & 4 == 0 && 0b011u8 & 1 != 0 && 0b011u8 & 2 != 0 && 0b001u8 & 4 == 0 && 0b001u8
        & 1 != 0 && 0b001u8 & 2 == 0) by (bit_vector);
}

} // verus!
