//! Decisions of the strip tool: the filter configuration its options ask
//! for, and how much of the output a line limit lets through.

use vstd::prelude::*;

use crate::classifier::{spec_group, SeqGroup, SeqKind};
use crate::filter::{spec_group_bit, spec_should_strip, FilterConfig, FilterMode, FilterModel};
use crate::preset::{ascii_lower_str, preset_model, preset_of_lower_name, TerminalPreset};
use crate::scan::find_byte;

verus! {

/// The `--no-strip-*` options: groups, then CSI sub-kinds, to preserve.
#[derive(Copy, Clone, Debug, Default)]
pub struct NoStripFlags {
    pub csi: bool,
    pub osc: bool,
    pub dcs: bool,
    pub apc: bool,
    pub pm: bool,
    pub sos: bool,
    pub ss2: bool,
    pub ss3: bool,
    pub fe: bool,
    pub csi_sgr: bool,
    pub csi_cursor: bool,
    pub csi_erase: bool,
    pub csi_scroll: bool,
    pub csi_mode: bool,
    pub csi_window: bool,
}

/// Why a `--preset` was refused.
#[derive(Copy, Clone, Debug, PartialEq, Eq, Structural)]
pub enum PresetError {
    /// The preset preserves dangerous sequences and `--unsafe` was not given.
    Unsafe(TerminalPreset),
    /// No preset has this name.
    Unknown,
}

/// Preserving group `g` (see [`FilterConfig::no_strip_group`]).
pub open spec fn model_no_strip_group(c: FilterModel, g: SeqGroup) -> FilterModel {
    FilterModel { mode: FilterMode::StripExcept, preserved: c.preserved | spec_group_bit(g), ..c }
}

/// Preserving kind `k` (see [`FilterConfig::no_strip_kind`]).
pub open spec fn model_no_strip_kind(c: FilterModel, k: SeqKind) -> FilterModel {
    FilterModel {
        mode: FilterMode::StripExcept,
        sub_preserved: if c.sub_preserved.contains(k) {
            c.sub_preserved
        } else {
            c.sub_preserved.push(k)
        },
        ..c
    }
}

/// `c` with group `g` preserved when `on`.
pub open spec fn group_if(c: FilterModel, on: bool, g: SeqGroup) -> FilterModel {
    if on {
        model_no_strip_group(c, g)
    } else {
        c
    }
}

/// `c` with kind `k` preserved when `on`.
pub open spec fn kind_if(c: FilterModel, on: bool, k: SeqKind) -> FilterModel {
    if on {
        model_no_strip_kind(c, k)
    } else {
        c
    }
}

/// The `--no-strip-*` options laid over `c`: the groups, then the sub-kinds.
pub open spec fn apply_flags(c: FilterModel, f: NoStripFlags) -> FilterModel {
    let c1 = group_if(c, f.csi, SeqGroup::Csi);
    let c2 = group_if(c1, f.osc, SeqGroup::Osc);
    let c3 = group_if(c2, f.dcs, SeqGroup::Dcs);
    let c4 = group_if(c3, f.apc, SeqGroup::Apc);
    let c5 = group_if(c4, f.pm, SeqGroup::Pm);
    let c6 = group_if(c5, f.sos, SeqGroup::Sos);
    let c7 = group_if(c6, f.ss2, SeqGroup::Ss2);
    let c8 = group_if(c7, f.ss3, SeqGroup::Ss3);
    let c9 = group_if(c8, f.fe, SeqGroup::Fe);
    let k1 = kind_if(c9, f.csi_sgr, SeqKind::CsiSgr);
    let k2 = kind_if(k1, f.csi_cursor, SeqKind::CsiCursor);
    let k3 = kind_if(k2, f.csi_erase, SeqKind::CsiErase);
    let k4 = kind_if(k3, f.csi_scroll, SeqKind::CsiScroll);
    let k5 = kind_if(k4, f.csi_mode, SeqKind::CsiMode);
    kind_if(k5, f.csi_window, SeqKind::CsiWindow)
}

/// The configuration the options ask for: an explicit preset (refused when
/// unknown, or when it preserves dangerous sequences without `--unsafe`),
/// else the fallback; then the `--no-strip-*` options on top.
pub open spec fn spec_build_filter_config(
    preset: Option<Seq<char>>,
    allow_unsafe: bool,
    fallback: FilterModel,
    f: NoStripFlags,
) -> Result<FilterModel, PresetError> {
    match preset {
        Some(n) => match preset_of_lower_name(ascii_lower_str(n)) {
            Some(p) => if (p == TerminalPreset::Xterm || p == TerminalPreset::Full) && !allow_unsafe {
                Err(PresetError::Unsafe(p))
            } else {
                Ok(apply_flags(preset_model(p), f))
            },
            None => Err(PresetError::Unknown),
        },
        None => Ok(apply_flags(fallback, f)),
    }
}

proof fn lemma_group_if_keeps(c: FilterModel, on: bool, g: SeqGroup, k: SeqKind)
    requires
        !spec_should_strip(c, k),
    ensures
        !spec_should_strip(group_if(c, on, g), k),
{
    if on {
        crate::filter::lemma_or_bit(c.preserved, spec_group_bit(g), spec_group_bit(spec_group(k)));
    }
}

proof fn lemma_kind_if_keeps(c: FilterModel, on: bool, j: SeqKind, k: SeqKind)
    requires
        !spec_should_strip(c, k),
    ensures
        !spec_should_strip(kind_if(c, on, j), k),
{
    if on && !c.sub_preserved.contains(j) && c.sub_preserved.contains(k) {
        let i = choose|i: int| 0 <= i < c.sub_preserved.len() && c.sub_preserved[i] == k;
        assert(c.sub_preserved.push(j)[i] == k);
    }
}

/// The `--no-strip-*` options only ever add preservation: a kind the base
/// configuration preserves stays preserved.
pub proof fn law_flags_only_preserve_more(c: FilterModel, f: NoStripFlags, k: SeqKind)
    requires
        !spec_should_strip(c, k),
    ensures
        !spec_should_strip(apply_flags(c, f), k),
{
    let c1 = group_if(c, f.csi, SeqGroup::Csi);
    lemma_group_if_keeps(c, f.csi, SeqGroup::Csi, k);
    let c2 = group_if(c1, f.osc, SeqGroup::Osc);
    lemma_group_if_keeps(c1, f.osc, SeqGroup::Osc, k);
    let c3 = group_if(c2, f.dcs, SeqGroup::Dcs);
    lemma_group_if_keeps(c2, f.dcs, SeqGroup::Dcs, k);
    let c4 = group_if(c3, f.apc, SeqGroup::Apc);
    lemma_group_if_keeps(c3, f.apc, SeqGroup::Apc, k);
    let c5 = group_if(c4, f.pm, SeqGroup::Pm);
    lemma_group_if_keeps(c4, f.pm, SeqGroup::Pm, k);
    let c6 = group_if(c5, f.sos, SeqGroup::Sos);
    lemma_group_if_keeps(c5, f.sos, SeqGroup::Sos, k);
    let c7 = group_if(c6, f.ss2, SeqGroup::Ss2);
    lemma_group_if_keeps(c6, f.ss2, SeqGroup::Ss2, k);
    let c8 = group_if(c7, f.ss3, SeqGroup::Ss3);
    lemma_group_if_keeps(c7, f.ss3, SeqGroup::Ss3, k);
    let c9 = group_if(c8, f.fe, SeqGroup::Fe);
    lemma_group_if_keeps(c8, f.fe, SeqGroup::Fe, k);
    let k1 = kind_if(c9, f.csi_sgr, SeqKind::CsiSgr);
    lemma_kind_if_keeps(c9, f.csi_sgr, SeqKind::CsiSgr, k);
    let k2 = kind_if(k1, f.csi_cursor, SeqKind::CsiCursor);
    lemma_kind_if_keeps(k1, f.csi_cursor, SeqKind::CsiCursor, k);
    let k3 = kind_if(k2, f.csi_erase, SeqKind::CsiErase);
    lemma_kind_if_keeps(k2, f.csi_erase, SeqKind::CsiErase, k);
    let k4 = kind_if(k3, f.csi_scroll, SeqKind::CsiScroll);
    lemma_kind_if_keeps(k3, f.csi_scroll, SeqKind::CsiScroll, k);
    let k5 = kind_if(k4, f.csi_mode, SeqKind::CsiMode);
    lemma_kind_if_keeps(k4, f.csi_mode, SeqKind::CsiMode, k);
    lemma_kind_if_keeps(k5, f.csi_window, SeqKind::CsiWindow, k);
}

/// Preserve group `g` when `on`.
fn group_when(c: FilterConfig, on: bool, g: SeqGroup) -> (r: FilterConfig)
    ensures
        r@ == group_if(c@, on, g),
{
    if on {
        c.no_strip_group(g)
    } else {
        c
    }
}

/// Preserve kind `k` when `on`.
fn kind_when(c: FilterConfig, on: bool, k: SeqKind) -> (r: FilterConfig)
    ensures
        r@ == kind_if(c@, on, k),
{
    if on {
        c.no_strip_kind(k)
    } else {
        c
    }
}

/// Lay the `--no-strip-*` options over `config`.
fn overlay_flags(config: FilterConfig, f: &NoStripFlags) -> (r: FilterConfig)
    ensures
        r@ == apply_flags(config@, *f),
{
    let c = group_when(config, f.csi, SeqGroup::Csi);
    let c = group_when(c, f.osc, SeqGroup::Osc);
    let c = group_when(c, f.dcs, SeqGroup::Dcs);
    let c = group_when(c, f.apc, SeqGroup::Apc);
    let c = group_when(c, f.pm, SeqGroup::Pm);
    let c = group_when(c, f.sos, SeqGroup::Sos);
    let c = group_when(c, f.ss2, SeqGroup::Ss2);
    let c = group_when(c, f.ss3, SeqGroup::Ss3);
    let c = group_when(c, f.fe, SeqGroup::Fe);
    // CSI sub-kinds.
    let c = kind_when(c, f.csi_sgr, SeqKind::CsiSgr);
    let c = kind_when(c, f.csi_cursor, SeqKind::CsiCursor);
    let c = kind_when(c, f.csi_erase, SeqKind::CsiErase);
    let c = kind_when(c, f.csi_scroll, SeqKind::CsiScroll);
    let c = kind_when(c, f.csi_mode, SeqKind::CsiMode);
    kind_when(c, f.csi_window, SeqKind::CsiWindow)
}

/// Build the filter configuration from the options: `--preset` (by name,
/// ASCII case-insensitive) wins over `fallback` (the detected or configured
/// base), and the `--no-strip-*` options are always laid over it.
pub fn build_filter_config(
    preset: Option<&str>,
    allow_unsafe: bool,
    fallback: FilterConfig,
    flags: &NoStripFlags,
) -> (r: Result<FilterConfig, PresetError>)
    ensures
        match (r, spec_build_filter_config(
            match preset {
                Some(n) => Some(n@),
                None => None,
            },
            allow_unsafe,
            fallback@,
            *flags,
        )) {
            (Ok(c), Ok(m)) => c@ == m,
            (Err(e), Err(f)) => e == f,
            _ => false,
        },
{
    let base = match preset {
        Some(name) => match TerminalPreset::from_name(name) {
            Some(p) => {
                // Presets above sanitize require --unsafe.
                if p.requires_unsafe() && !allow_unsafe {
                    return Err(PresetError::Unsafe(p));
                }
                let c = p.to_filter_config();
                proof {
                    assert(c@ == preset_model(p));
                }
                c
            },
            None => return Err(PresetError::Unknown),
        },
        None => fallback,
    };
    Ok(overlay_flags(base, flags))
}

// ── Line limit ──────────────────────────────────────────────────────
/// How much of `s` a limit of `remaining` more lines lets through, from
/// index `i` on: the end of the part written (just past the `remaining`-th
/// newline, or the end of `s` when it has fewer), and the lines left.
pub open spec fn head_cut_from(s: Seq<u8>, i: int, remaining: nat) -> (int, nat)
    decreases s.len() - i,
{
    if remaining == 0 || i < 0 || i >= s.len() {
        (i, remaining)
    } else if s[i] == 0x0A {
        head_cut_from(s, i + 1, (remaining - 1) as nat)
    } else {
        head_cut_from(s, i + 1, remaining)
    }
}

/// A stretch without newline changes nothing but the position.
proof fn lemma_head_cut_skip(s: Seq<u8>, i: int, j: int, remaining: nat)
    requires
        0 <= i <= j <= s.len(),
        remaining > 0,
        forall|k: int| i <= k < j ==> s[k] != 0x0A,
    ensures
        head_cut_from(s, i, remaining) == head_cut_from(s, j, remaining),
    decreases j - i,
{
    if i < j {
        lemma_head_cut_skip(s, i + 1, j, remaining);
    }
}

/// Split `slice` for a limit of `remaining` more lines: the length of the
/// prefix to write, and the lines left after it.
pub fn head_cut(slice: &[u8], remaining: usize) -> (r: (usize, usize))
    ensures
        r.0 == head_cut_from(slice@, 0, remaining as nat).0,
        r.1 == head_cut_from(slice@, 0, remaining as nat).1,
        r.0 <= slice@.len(),
{
    let mut offset: usize = 0;
    let mut rem = remaining;
    let len = slice.len();
    while rem > 0 && offset < len
        invariant
            offset <= len,
            len == slice@.len(),
            head_cut_from(slice@, 0, remaining as nat) == head_cut_from(slice@, offset as int, rem as nat),
        decreases len - offset,
    {
        let rest = vstd::slice::slice_subrange(slice, offset, len);
        match find_byte(0x0A, rest) {
            Some(pos) => {
                proof {
                    assert forall|k: int| offset <= k < offset + pos implies slice@[k] != 0x0A by {
                        assert(rest@[k - offset] == slice@[k]);
                    }
                    lemma_head_cut_skip(slice@, offset as int, offset + pos, rem as nat);
                    assert(rest@[pos as int] == slice@[offset + pos]);
                }
                offset = offset + pos + 1;
                rem -= 1;
            },
            None => {
                proof {
                    assert forall|k: int| offset <= k < len implies slice@[k] != 0x0A by {
                        assert(rest@[k - offset] == slice@[k]);
                    }
                    lemma_head_cut_skip(slice@, offset as int, len as int, rem as nat);
                }
                offset = len;
            },
        }
    }
    (offset, rem)
}

// ── Input budget ────────────────────────────────────────────────────
/// How many bytes the next read may take: at most `cap`, and no more than
/// what is left of `max_size` (no limit when `None`) after `consumed`
/// bytes; 0 means the budget is spent.
pub open spec fn spec_read_len(max_size: Option<u64>, consumed: u64, cap: usize) -> int {
    let limit: int = match max_size {
        Some(m) => m as int,
        None => u64::MAX as int,
    };
    let budget: int = if consumed >= limit {
        0
    } else {
        limit - consumed
    };
    if cap <= budget {
        cap as int
    } else {
        budget
    }
}

/// The length of the next read under `--max-size`.
pub fn read_len(max_size: Option<u64>, consumed: u64, cap: usize) -> (r: usize)
    ensures
        r == spec_read_len(max_size, consumed, cap),
{
    let limit: u64 = match max_size {
        Some(m) => m,
        None => u64::MAX,
    };
    let budget: u64 = if consumed >= limit {
        0
    } else {
        limit - consumed
    };
    if (cap as u64) <= budget {
        cap
    } else {
        budget as usize
    }
}

/// The stripped-byte count after a chunk of `chunk_len` bytes of which
/// `clean` bytes were content: `None` when `clean` exceeds the chunk or
/// the count would not fit in 64 bits.
pub fn add_stripped(total: u64, chunk_len: usize, clean: u64) -> (r: Option<u64>)
    ensures
        r == (if clean <= chunk_len && total + (chunk_len - clean) <= u64::MAX {
            Some((total + (chunk_len - clean)) as u64)
        } else {
            None::<u64>
        }),
{
    let n = chunk_len as u64;
    if clean > n {
        return None;
    }
    total.checked_add(n - clean)
}

} // verus!
