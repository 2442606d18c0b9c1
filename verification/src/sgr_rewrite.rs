//! SGR parameter parser and rewriter for color transforms.
//!
//! Parses the parameter bytes of a CSI SGR sequence (`ESC [ ... m`),
//! identifies color subsequences (`38;2;R;G;B`, `48;5;N`, `30`-`37`, ...)
//! and rewrites them for a target [`ColorDepth`]. Non-color parameters
//! (bold, italic, underline, ...) pass through unchanged.

use vstd::prelude::*;

use crate::classifier::{sat_digit, saturating_digit};
use crate::decimal::{decimal, push_decimal};
use crate::downgrade::{
    basic_color, basic_rgb, cube_to_rgb, grey_index_to_value, nearest_16, spec_nearest_16,
    nearest_256, nearest_greyscale, spec_cube_rgb, spec_grey_value, spec_nearest_256,
    spec_nearest_greyscale, ColorDepth,
};
use crate::scan::append_slice;

verus! {

/// A parsed SGR parameter.
#[derive(Copy, Clone, Debug, PartialEq, Eq, Structural)]
pub enum SgrParam {
    /// A plain numeric parameter (e.g. `1` for bold, `31` for red fg).
    Simple(u16),
    /// Foreground 256-color: `38;5;N`.
    Fg256(u8),
    /// Background 256-color: `48;5;N`.
    Bg256(u8),
    /// Foreground truecolor: `38;2;R;G;B`.
    FgRgb(u8, u8, u8),
    /// Background truecolor: `48;2;R;G;B`.
    BgRgb(u8, u8, u8),
}

// ── Splitting ───────────────────────────────────────────────────────

/// Scanning parameter bytes: the finished values, the value being
/// accumulated, and whether it has a digit. Bytes other than digits and
/// `;` are ignored.
pub open spec fn split_scan(bytes: Seq<u8>) -> (Seq<u16>, u16, bool)
    decreases bytes.len(),
{
    if bytes.len() == 0 {
        (Seq::empty(), 0, false)
    } else {
        let (done, acc, has_digit) = split_scan(bytes.drop_last());
        let b = bytes.last();
        if b == 0x3B {
            (done.push(if has_digit { acc } else { 0 }), 0, false)
        } else if 0x30 <= b <= 0x39 {
            (done, sat_digit(acc, (b - 0x30) as u8), true)
        } else {
            (done, acc, has_digit)
        }
    }
}

/// The `;`-separated numeric values of parameter bytes (an empty field is
/// 0; values saturate at `u16::MAX`). No bytes, no values.
pub open spec fn spec_split_params(bytes: Seq<u8>) -> Seq<u16> {
    if bytes.len() == 0 {
        Seq::empty()
    } else {
        let (done, acc, has_digit) = split_scan(bytes);
        done.push(if has_digit { acc } else { 0 })
    }
}

/// Split parameter bytes on `;` into numeric values.
fn split_params(bytes: &[u8]) -> (v: Vec<u16>)
    ensures
        v@ == spec_split_params(bytes@),
{
    let mut result: Vec<u16> = Vec::new();
    if bytes.len() == 0 {
        return result;
    }
    let mut acc: u16 = 0;
    let mut has_digit = false;
    let n = bytes.len();
    let mut i: usize = 0;
    proof {
        assert(bytes@.take(0) =~= Seq::<u8>::empty());
    }
    while i < n
        invariant
            n == bytes@.len(),
            i <= n,
            (result@, acc, has_digit) == split_scan(bytes@.take(i as int)),
        decreases n - i,
    {
        let b = bytes[i];
        proof {
            assert(bytes@.take(i + 1).drop_last() =~= bytes@.take(i as int));
        }
        if b == 0x3B {
            result.push(if has_digit { acc } else { 0 });
            acc = 0;
            has_digit = false;
        } else if 0x30 <= b && b <= 0x39 {
            acc = saturating_digit(acc, b - 0x30);
            has_digit = true;
        }
        i += 1;
    }
    proof {
        assert(bytes@.take(n as int) =~= bytes@);
    }
    result.push(if has_digit { acc } else { 0 });
    result
}

// ── Parsing ─────────────────────────────────────────────────────────

/// A value clamped to 255.
pub open spec fn clamp255(n: u16) -> u8 {
    if n > 255 {
        255
    } else {
        n as u8
    }
}

/// `n` clamped to 255.
fn clamp_255(n: u16) -> (r: u8)
    ensures
        r == clamp255(n),
{
    if n > 255 {
        255
    } else {
        n as u8
    }
}

/// The parameters of `nums[i..]`: `38;2;R;G;B` and `48;2;R;G;B` become
/// truecolor, `38;5;N` and `48;5;N` become 256-color (components clamped
/// to 255); a truncated color introducer and every other value stay plain.
pub open spec fn parse_from(nums: Seq<u16>, i: int) -> Seq<SgrParam>
    decreases nums.len() - i,
{
    if i < 0 || i >= nums.len() {
        Seq::empty()
    } else {
        let n = nums[i];
        let len = nums.len();
        if (n == 38 || n == 48) && i + 1 < len && nums[i + 1] == 2 && len - i > 4 {
            let (r, g, b) = (clamp255(nums[i + 2]), clamp255(nums[i + 3]), clamp255(nums[i + 4]));
            seq![if n == 38 { SgrParam::FgRgb(r, g, b) } else { SgrParam::BgRgb(r, g, b) }]
                + parse_from(nums, i + 5)
        } else if (n == 38 || n == 48) && i + 1 < len && nums[i + 1] == 5 && len - i > 2 {
            let v = clamp255(nums[i + 2]);
            seq![if n == 38 { SgrParam::Fg256(v) } else { SgrParam::Bg256(v) }] + parse_from(
                nums,
                i + 3,
            )
        } else {
            seq![SgrParam::Simple(n)] + parse_from(nums, i + 1)
        }
    }
}

/// The parameters of parameter bytes.
pub open spec fn spec_parse_params(bytes: Seq<u8>) -> Seq<SgrParam> {
    parse_from(spec_split_params(bytes), 0)
}

/// Parse semicolon-separated SGR parameters into structured form.
fn parse_params(bytes: &[u8]) -> (r: Vec<SgrParam>)
    ensures
        r@ == spec_parse_params(bytes@),
{
    let nums = split_params(bytes);
    let mut result: Vec<SgrParam> = Vec::new();
    let len = nums.len();
    let mut i: usize = 0;
    while i < len
        invariant
            len == nums@.len(),
            i <= len,
            result@ + parse_from(nums@, i as int) == parse_from(nums@, 0),
        decreases len - i,
    {
        let n = nums[i];
        let ghost before = result@;
        if (n == 38 || n == 48) && i + 1 < len && nums[i + 1] == 2 && len - i > 4 {
            let r = clamp_255(nums[i + 2]);
            let g = clamp_255(nums[i + 3]);
            let b = clamp_255(nums[i + 4]);
            result.push(if n == 38 { SgrParam::FgRgb(r, g, b) } else { SgrParam::BgRgb(r, g, b) });
            proof {
                assert(before.push(result@.last()) + parse_from(nums@, i + 5) =~= before + parse_from(
                    nums@,
                    i as int,
                ));
            }
            i += 5;
        } else if (n == 38 || n == 48) && i + 1 < len && nums[i + 1] == 5 && len - i > 2 {
            let v = clamp_255(nums[i + 2]);
            result.push(if n == 38 { SgrParam::Fg256(v) } else { SgrParam::Bg256(v) });
            proof {
                assert(before.push(result@.last()) + parse_from(nums@, i + 3) =~= before + parse_from(
                    nums@,
                    i as int,
                ));
            }
            i += 3;
        } else {
            result.push(SgrParam::Simple(n));
            proof {
                assert(before.push(result@.last()) + parse_from(nums@, i + 1) =~= before + parse_from(
                    nums@,
                    i as int,
                ));
            }
            i += 1;
        }
    }
    proof {
        assert(result@ + parse_from(nums@, i as int) =~= result@);
    }
    result
}

// ── Helpers ─────────────────────────────────────────────────────────

/// Whether a plain parameter sets a color.
pub open spec fn spec_is_color_param(code: u16) -> bool {
    (30 <= code <= 37) || code == 38 || code == 39 || (40 <= code <= 47) || code == 48 || code
        == 49 || (90 <= code <= 97) || (100 <= code <= 107)
}

fn is_color_param(code: u16) -> (b: bool)
    ensures
        b == spec_is_color_param(code),
{
    (30 <= code && code <= 37) || code == 38 || code == 39 || (40 <= code && code <= 47) || code
        == 48 || code == 49 || (90 <= code && code <= 97) || (100 <= code && code <= 107)
}

/// Whether a plain parameter is a basic foreground color.
pub open spec fn spec_is_fg_basic(code: u16) -> bool {
    (30 <= code <= 37) || (90 <= code <= 97)
}

fn is_fg_basic(code: u16) -> (b: bool)
    ensures
        b == spec_is_fg_basic(code),
{
    (30 <= code && code <= 37) || (90 <= code && code <= 97)
}

/// Whether a plain parameter is a basic background color.
pub open spec fn spec_is_bg_basic(code: u16) -> bool {
    (40 <= code <= 47) || (100 <= code <= 107)
}

fn is_bg_basic(code: u16) -> (b: bool)
    ensures
        b == spec_is_bg_basic(code),
{
    (40 <= code && code <= 47) || (100 <= code && code <= 107)
}

/// The RGB of a 256-color index: basic colors by the xterm defaults, cube
/// entries by the cube axes, ramp entries as greys.
pub open spec fn spec_idx_rgb(idx: u8) -> (u8, u8, u8) {
    if idx <= 15 {
        basic_rgb(idx as int)
    } else if idx <= 231 {
        spec_cube_rgb(idx)
    } else {
        (spec_grey_value(idx), spec_grey_value(idx), spec_grey_value(idx))
    }
}

/// Convert a 256-color index to RGB.
fn idx_to_rgb(idx: u8) -> (c: (u8, u8, u8))
    ensures
        c == spec_idx_rgb(idx),
{
    if idx <= 15 {
        basic_color(idx)
    } else if idx <= 231 {
        cube_to_rgb(idx)
    } else {
        let v = grey_index_to_value(idx);
        (v, v, v)
    }
}

/// The basic color index of a basic SGR color code (0 for other codes).
pub open spec fn spec_basic_code_idx(code: u16) -> u8 {
    if 30 <= code <= 37 {
        (code - 30) as u8
    } else if 40 <= code <= 47 {
        (code - 40) as u8
    } else if 90 <= code <= 97 {
        (code - 90 + 8) as u8
    } else if 100 <= code <= 107 {
        (code - 100 + 8) as u8
    } else {
        0
    }
}

/// Convert a basic SGR fg/bg code to RGB.
fn basic_to_rgb(code: u16) -> (c: (u8, u8, u8))
    ensures
        c == basic_rgb(spec_basic_code_idx(code) as int),
{
    let idx: u8 = if 30 <= code && code <= 37 {
        (code - 30) as u8
    } else if 40 <= code && code <= 47 {
        (code - 40) as u8
    } else if 90 <= code && code <= 97 {
        (code - 90 + 8) as u8
    } else if 100 <= code && code <= 107 {
        (code - 100 + 8) as u8
    } else {
        0
    };
    basic_color(idx)
}

/// The SGR foreground code of basic color `idx` (0-15).
pub open spec fn spec_basic_fg(idx: u8) -> u16 {
    if idx < 8 {
        (30 + idx) as u16
    } else {
        (90 + (idx - 8)) as u16
    }
}

fn basic_idx_to_fg(idx: u8) -> (c: u16)
    requires
        idx < 16,
    ensures
        c == spec_basic_fg(idx),
{
    if idx < 8 {
        30 + idx as u16
    } else {
        90 + (idx - 8) as u16
    }
}

/// The SGR background code of basic color `idx` (0-15).
pub open spec fn spec_basic_bg(idx: u8) -> u16 {
    if idx < 8 {
        (40 + idx) as u16
    } else {
        (100 + (idx - 8)) as u16
    }
}

fn basic_idx_to_bg(idx: u8) -> (c: u16)
    requires
        idx < 16,
    ensures
        c == spec_basic_bg(idx),
{
    if idx < 8 {
        40 + idx as u16
    } else {
        100 + (idx - 8) as u16
    }
}

// ── Rewriting ───────────────────────────────────────────────────────

/// The rewrite of one parameter for `target`:
/// - Mono drops every color parameter;
/// - Greyscale turns every color into the ramp entry of its luminance;
/// - Color16 turns truecolor and 256-color into the nearest basic color;
/// - Color256 turns truecolor into the nearest palette entry;
/// - everything else passes through.
pub open spec fn spec_rewrite_param(p: SgrParam, target: ColorDepth) -> Seq<SgrParam> {
    match (p, target) {
        (SgrParam::FgRgb(..), ColorDepth::Mono) | (SgrParam::BgRgb(..), ColorDepth::Mono)
        | (SgrParam::Fg256(_), ColorDepth::Mono) | (SgrParam::Bg256(_), ColorDepth::Mono) =>
            Seq::empty(),
        (SgrParam::Simple(code), ColorDepth::Mono) => if spec_is_color_param(code) {
            Seq::empty()
        } else {
            seq![p]
        },
        (SgrParam::FgRgb(r, g, b), ColorDepth::Greyscale) => seq![
            SgrParam::Fg256(spec_nearest_greyscale(r, g, b)),
        ],
        (SgrParam::BgRgb(r, g, b), ColorDepth::Greyscale) => seq![
            SgrParam::Bg256(spec_nearest_greyscale(r, g, b)),
        ],
        (SgrParam::Fg256(i), ColorDepth::Greyscale) => {
            let c = spec_idx_rgb(i);
            seq![SgrParam::Fg256(spec_nearest_greyscale(c.0, c.1, c.2))]
        },
        (SgrParam::Bg256(i), ColorDepth::Greyscale) => {
            let c = spec_idx_rgb(i);
            seq![SgrParam::Bg256(spec_nearest_greyscale(c.0, c.1, c.2))]
        },
        (SgrParam::Simple(code), ColorDepth::Greyscale) => {
            let c = basic_rgb(spec_basic_code_idx(code) as int);
            if spec_is_fg_basic(code) {
                seq![SgrParam::Fg256(spec_nearest_greyscale(c.0, c.1, c.2))]
            } else if spec_is_bg_basic(code) {
                seq![SgrParam::Bg256(spec_nearest_greyscale(c.0, c.1, c.2))]
            } else {
                seq![p]
            }
        },
        (SgrParam::FgRgb(r, g, b), ColorDepth::Color16) => seq![
            SgrParam::Simple(spec_basic_fg(spec_nearest_16(spec_nearest_256(r, g, b)))),
        ],
        (SgrParam::BgRgb(r, g, b), ColorDepth::Color16) => seq![
            SgrParam::Simple(spec_basic_bg(spec_nearest_16(spec_nearest_256(r, g, b)))),
        ],
        (SgrParam::Fg256(i), ColorDepth::Color16) => seq![
            SgrParam::Simple(spec_basic_fg(spec_nearest_16(i))),
        ],
        (SgrParam::Bg256(i), ColorDepth::Color16) => seq![
            SgrParam::Simple(spec_basic_bg(spec_nearest_16(i))),
        ],
        (SgrParam::FgRgb(r, g, b), ColorDepth::Color256) => seq![
            SgrParam::Fg256(spec_nearest_256(r, g, b)),
        ],
        (SgrParam::BgRgb(r, g, b), ColorDepth::Color256) => seq![
            SgrParam::Bg256(spec_nearest_256(r, g, b)),
        ],
        _ => seq![p],
    }
}

/// Rewrite one parameter for `target`.
fn rewrite_param(p: SgrParam, target: ColorDepth) -> (out: Vec<SgrParam>)
    ensures
        out@ == spec_rewrite_param(p, target),
{
    let mut out: Vec<SgrParam> = Vec::new();
    match (p, target) {
        (SgrParam::FgRgb(..), ColorDepth::Mono) | (SgrParam::BgRgb(..), ColorDepth::Mono)
        | (SgrParam::Fg256(_), ColorDepth::Mono) | (SgrParam::Bg256(_), ColorDepth::Mono) => {},
        (SgrParam::Simple(code), ColorDepth::Mono) => {
            if !is_color_param(code) {
                out.push(p);
            }
        },
        (SgrParam::FgRgb(r, g, b), ColorDepth::Greyscale) => {
            out.push(SgrParam::Fg256(nearest_greyscale(r, g, b)));
        },
        (SgrParam::BgRgb(r, g, b), ColorDepth::Greyscale) => {
            out.push(SgrParam::Bg256(nearest_greyscale(r, g, b)));
        },
        (SgrParam::Fg256(idx), ColorDepth::Greyscale) => {
            let (r, g, b) = idx_to_rgb(idx);
            out.push(SgrParam::Fg256(nearest_greyscale(r, g, b)));
        },
        (SgrParam::Bg256(idx), ColorDepth::Greyscale) => {
            let (r, g, b) = idx_to_rgb(idx);
            out.push(SgrParam::Bg256(nearest_greyscale(r, g, b)));
        },
        (SgrParam::Simple(code), ColorDepth::Greyscale) => {
            if is_fg_basic(code) {
                let (r, g, b) = basic_to_rgb(code);
                out.push(SgrParam::Fg256(nearest_greyscale(r, g, b)));
            } else if is_bg_basic(code) {
                let (r, g, b) = basic_to_rgb(code);
                out.push(SgrParam::Bg256(nearest_greyscale(r, g, b)));
            } else {
                out.push(p);
            }
        },
        (SgrParam::FgRgb(r, g, b), ColorDepth::Color16) => {
            let basic = nearest_16(nearest_256(r, g, b));
            out.push(SgrParam::Simple(basic_idx_to_fg(basic)));
        },
        (SgrParam::BgRgb(r, g, b), ColorDepth::Color16) => {
            let basic = nearest_16(nearest_256(r, g, b));
            out.push(SgrParam::Simple(basic_idx_to_bg(basic)));
        },
        (SgrParam::Fg256(idx), ColorDepth::Color16) => {
            let basic = nearest_16(idx);
            out.push(SgrParam::Simple(basic_idx_to_fg(basic)));
        },
        (SgrParam::Bg256(idx), ColorDepth::Color16) => {
            let basic = nearest_16(idx);
            out.push(SgrParam::Simple(basic_idx_to_bg(basic)));
        },
        (SgrParam::FgRgb(r, g, b), ColorDepth::Color256) => {
            out.push(SgrParam::Fg256(nearest_256(r, g, b)));
        },
        (SgrParam::BgRgb(r, g, b), ColorDepth::Color256) => {
            out.push(SgrParam::Bg256(nearest_256(r, g, b)));
        },
        _ => {
            out.push(p);
        },
    }
    out
}

/// The parameter-by-parameter rewrite of `ps`.
pub open spec fn spec_rewrite_all(ps: Seq<SgrParam>, target: ColorDepth) -> Seq<SgrParam>
    decreases ps.len(),
{
    if ps.len() == 0 {
        Seq::empty()
    } else {
        spec_rewrite_all(ps.drop_last(), target) + spec_rewrite_param(ps.last(), target)
    }
}

/// Rewrite parsed parameters for the target depth.
fn rewrite_params(params: &Vec<SgrParam>, target: ColorDepth) -> (out: Vec<SgrParam>)
    ensures
        out@ == spec_rewrite_all(params@, target),
{
    let mut out: Vec<SgrParam> = Vec::new();
    let n = params.len();
    let mut i: usize = 0;
    proof {
        assert(params@.take(0) =~= Seq::<SgrParam>::empty());
    }
    while i < n
        invariant
            n == params@.len(),
            i <= n,
            out@ == spec_rewrite_all(params@.take(i as int), target),
        decreases n - i,
    {
        let one = rewrite_param(params[i], target);
        let ghost before = out@;
        let mut j: usize = 0;
        while j < one.len()
            invariant
                j <= one@.len(),
                out@ == before + one@.take(j as int),
            decreases one@.len() - j,
        {
            out.push(one[j]);
            proof {
                assert(one@.take(j + 1) =~= one@.take(j as int).push(one@[j as int]));
            }
            j += 1;
        }
        proof {
            assert(one@.take(j as int) =~= one@);
            assert(params@.take(i + 1).drop_last() =~= params@.take(i as int));
            assert(params@.take(i + 1).last() == params@[i as int]);
        }
        i += 1;
    }
    proof {
        assert(params@.take(n as int) =~= params@);
    }
    out
}

// ── Emitting ────────────────────────────────────────────────────────

/// The bytes of one parameter.
pub open spec fn param_bytes(p: SgrParam) -> Seq<u8> {
    match p {
        SgrParam::Simple(n) => decimal(n as nat),
        SgrParam::Fg256(i) => seq![0x33u8, 0x38, 0x3B, 0x35, 0x3B] + decimal(i as nat),
        SgrParam::Bg256(i) => seq![0x34u8, 0x38, 0x3B, 0x35, 0x3B] + decimal(i as nat),
        SgrParam::FgRgb(r, g, b) => seq![0x33u8, 0x38, 0x3B, 0x32, 0x3B] + decimal(r as nat) + seq![
            0x3Bu8,
        ] + decimal(g as nat) + seq![0x3Bu8] + decimal(b as nat),
        SgrParam::BgRgb(r, g, b) => seq![0x34u8, 0x38, 0x3B, 0x32, 0x3B] + decimal(r as nat) + seq![
            0x3Bu8,
        ] + decimal(g as nat) + seq![0x3Bu8] + decimal(b as nat),
    }
}

/// The parameters' bytes joined by `;`.
pub open spec fn join_params(ps: Seq<SgrParam>) -> Seq<u8>
    decreases ps.len(),
{
    if ps.len() == 0 {
        Seq::empty()
    } else if ps.len() == 1 {
        param_bytes(ps[0])
    } else {
        join_params(ps.drop_last()) + seq![0x3Bu8] + param_bytes(ps.last())
    }
}

/// The complete SGR sequence of the parameters: `ESC [ params m`.
pub open spec fn spec_emit_sgr(ps: Seq<SgrParam>) -> Seq<u8> {
    seq![0x1Bu8, 0x5B] + join_params(ps) + seq![0x6Du8]
}

/// Appends one parameter's bytes.
fn push_param(out: &mut Vec<u8>, p: SgrParam)
    ensures
        final(out)@ == old(out)@ + param_bytes(p),
{
    let ghost o = out@;
    match p {
        SgrParam::Simple(n) => push_decimal(out, n as u64),
        SgrParam::Fg256(idx) => {
            out.push(0x33);
            out.push(0x38);
            out.push(0x3B);
            out.push(0x35);
            out.push(0x3B);
            push_decimal(out, idx as u64);
            proof {
                assert(out@ =~= o + param_bytes(p));
            }
        },
        SgrParam::Bg256(idx) => {
            out.push(0x34);
            out.push(0x38);
            out.push(0x3B);
            out.push(0x35);
            out.push(0x3B);
            push_decimal(out, idx as u64);
            proof {
                assert(out@ =~= o + param_bytes(p));
            }
        },
        SgrParam::FgRgb(r, g, b) => {
            out.push(0x33);
            out.push(0x38);
            out.push(0x3B);
            out.push(0x32);
            out.push(0x3B);
            push_decimal(out, r as u64);
            out.push(0x3B);
            push_decimal(out, g as u64);
            out.push(0x3B);
            push_decimal(out, b as u64);
            proof {
                assert(out@ =~= o + param_bytes(p));
            }
        },
        SgrParam::BgRgb(r, g, b) => {
            out.push(0x34);
            out.push(0x38);
            out.push(0x3B);
            out.push(0x32);
            out.push(0x3B);
            push_decimal(out, r as u64);
            out.push(0x3B);
            push_decimal(out, g as u64);
            out.push(0x3B);
            push_decimal(out, b as u64);
            proof {
                assert(out@ =~= o + param_bytes(p));
            }
        },
    }
}

/// Emit parameters as a complete SGR sequence.
fn emit_sgr(params: &Vec<SgrParam>) -> (out: Vec<u8>)
    ensures
        out@ == spec_emit_sgr(params@),
{
    let mut out: Vec<u8> = Vec::new();
    out.push(0x1B);
    out.push(0x5B);
    let n = params.len();
    let mut i: usize = 0;
    proof {
        assert(params@.take(0) =~= Seq::<SgrParam>::empty());
    }
    while i < n
        invariant
            n == params@.len(),
            i <= n,
            out@ == seq![0x1Bu8, 0x5B] + join_params(params@.take(i as int)),
        decreases n - i,
    {
        if i > 0 {
            out.push(0x3B);
        }
        push_param(&mut out, params[i]);
        proof {
            let t = params@.take(i + 1);
            assert(t.drop_last() =~= params@.take(i as int));
            assert(t.last() == params@[i as int]);
            if i == 0 {
                assert(t =~= seq![params@[0]]);
                assert(out@ =~= seq![0x1Bu8, 0x5B] + join_params(t));
            } else {
                assert(out@ =~= seq![0x1Bu8, 0x5B] + join_params(t));
            }
        }
        i += 1;
    }
    out.push(0x6D);
    proof {
        assert(params@.take(n as int) =~= params@);
    }
    out
}

/// The parameters of the complete SGR sequence `seq` (between `ESC [` and
/// the final byte).
pub open spec fn sgr_params_of(seq: Seq<u8>) -> Seq<SgrParam> {
    spec_parse_params(seq.subrange(2, seq.len() - 1))
}

/// The rewrite of the complete SGR sequence `seq` for `target`: `seq`
/// itself for truecolor or when rewriting leaves every parameter as it
/// is, otherwise the sequence emitted from the rewritten parameters.
pub open spec fn spec_rewrite_sgr(seq: Seq<u8>, target: ColorDepth) -> Seq<u8> {
    if target == ColorDepth::Truecolor || spec_rewrite_all(sgr_params_of(seq), target) == sgr_params_of(seq) {
        seq
    } else {
        spec_emit_sgr(spec_rewrite_all(sgr_params_of(seq), target))
    }
}

/// Whether two parameter lists are equal.
fn same_params(a: &Vec<SgrParam>, b: &Vec<SgrParam>) -> (r: bool)
    ensures
        r == (a@ == b@),
{
    if a.len() != b.len() {
        return false;
    }
    let mut i: usize = 0;
    while i < a.len()
        invariant
            a@.len() == b@.len(),
            i <= a@.len(),
            forall|j: int| 0 <= j < i ==> a@[j] == b@[j],
        decreases a@.len() - i,
    {
        if a[i] != b[i] {
            return false;
        }
        i += 1;
    }
    proof {
        assert(a@ =~= b@);
    }
    true
}

/// Rewrite the parameters of a complete CSI SGR sequence (`ESC [ params m`)
/// for the target color depth. Non-color parameters pass through unchanged.
/// When no rewriting is needed (truecolor, or every parameter is left as it
/// is) the result is a copy of the input.
pub fn rewrite_sgr_params(seq: &[u8], target: ColorDepth) -> (out: Vec<u8>)
    requires
        target == ColorDepth::Truecolor || seq@.len() >= 3,
    ensures
        out@ == spec_rewrite_sgr(seq@, target),
{
    if target == ColorDepth::Truecolor {
        let mut out: Vec<u8> = Vec::new();
        append_slice(&mut out, seq);
        return out;
    }
    let params_end = seq.len() - 1;
    let param_bytes = vstd::slice::slice_subrange(seq, 2, params_end);
    let params = parse_params(param_bytes);
    let rewritten = rewrite_params(&params, target);
    if same_params(&params, &rewritten) {
        let mut out: Vec<u8> = Vec::new();
        append_slice(&mut out, seq);
        return out;
    }
    emit_sgr(&rewritten)
}

/// Whether a parameter is representable at depth `target`: mono has no
/// color at all, greyscale only ramp entries (232-255), 16-color no
/// 256-color or truecolor, 256-color no truecolor.
pub open spec fn within_depth(p: SgrParam, target: ColorDepth) -> bool {
    match target {
        ColorDepth::Mono => p matches SgrParam::Simple(code) && !spec_is_color_param(code),
        ColorDepth::Greyscale => match p {
            SgrParam::Simple(code) => !spec_is_fg_basic(code) && !spec_is_bg_basic(code),
            SgrParam::Fg256(i) => i >= 232,
            SgrParam::Bg256(i) => i >= 232,
            _ => false,
        },
        ColorDepth::Color16 => p is Simple,
        ColorDepth::Color256 => !(p is FgRgb) && !(p is BgRgb),
        ColorDepth::Truecolor => true,
    }
}

/// Rewriting one parameter yields only parameters within the target depth.
proof fn lemma_rewrite_within_depth(p: SgrParam, target: ColorDepth)
    ensures
        forall|i: int|
            0 <= i < spec_rewrite_param(p, target).len() ==> within_depth(
                #[trigger] spec_rewrite_param(p, target)[i],
                target,
            ),
{
}

/// After rewriting for a target depth, every parameter is within that
/// depth: the rewrite never leaves a color the target cannot show.
pub proof fn law_rewrite_within_depth(ps: Seq<SgrParam>, target: ColorDepth)
    ensures
        forall|i: int|
            0 <= i < spec_rewrite_all(ps, target).len() ==> within_depth(
                #[trigger] spec_rewrite_all(ps, target)[i],
                target,
            ),
    decreases ps.len(),
{
    if ps.len() > 0 {
        let a = spec_rewrite_all(ps.drop_last(), target);
        let b = spec_rewrite_param(ps.last(), target);
        law_rewrite_within_depth(ps.drop_last(), target);
        lemma_rewrite_within_depth(ps.last(), target);
        assert forall|i: int| 0 <= i < (a + b).len() implies within_depth(#[trigger] (a + b)[i], target) by {
            if i < a.len() {
                assert((a + b)[i] == a[i]);
            } else {
                assert((a + b)[i] == b[i - a.len()]);
            }
        }
    }
}

/// A complete SGR sequence whose parameters are all within the target depth
/// (other than greyscale) is returned unchanged.
pub proof fn law_fitting_sequence_unchanged(seq: Seq<u8>, target: ColorDepth)
    requires
        target != ColorDepth::Greyscale,
        forall|i: int| 0 <= i < sgr_params_of(seq).len() ==> within_depth(#[trigger] sgr_params_of(seq)[i], target),
    ensures
        spec_rewrite_sgr(seq, target) == seq,
{
    lemma_rewrite_all_fitting(sgr_params_of(seq), target);
}

proof fn lemma_rewrite_all_fitting(ps: Seq<SgrParam>, target: ColorDepth)
    requires
        target != ColorDepth::Greyscale,
        forall|i: int| 0 <= i < ps.len() ==> within_depth(#[trigger] ps[i], target),
    ensures
        spec_rewrite_all(ps, target) == ps,
    decreases ps.len(),
{
    if ps.len() > 0 {
        let q = ps.drop_last();
        assert forall|i: int| 0 <= i < q.len() implies within_depth(#[trigger] q[i], target) by {
            assert(q[i] == ps[i]);
        }
        lemma_rewrite_all_fitting(q, target);
        assert(within_depth(ps[ps.len() - 1], target));
        law_rewrite_keeps_fitting(ps.last(), target);
        assert(q + seq![ps.last()] =~= ps);
    }
}

/// Parameters already within the target depth are left as they are.
pub proof fn law_rewrite_keeps_fitting(p: SgrParam, target: ColorDepth)
    requires
        within_depth(p, target),
        target != ColorDepth::Greyscale,
    ensures
        spec_rewrite_param(p, target) == seq![p],
{
}

/// Whether a parameter sets the foreground color (including `39`, the
/// default foreground, and a bare `38`).
pub open spec fn is_fg_color(p: SgrParam) -> bool {
    match p {
        SgrParam::Simple(code) => (30 <= code <= 39) || (90 <= code <= 97),
        SgrParam::Fg256(_) => true,
        SgrParam::FgRgb(..) => true,
        _ => false,
    }
}

/// Whether a parameter sets the background color (including `49`, the
/// default background, and a bare `48`).
pub open spec fn is_bg_color(p: SgrParam) -> bool {
    match p {
        SgrParam::Simple(code) => (40 <= code <= 49) || (100 <= code <= 107),
        SgrParam::Bg256(_) => true,
        SgrParam::BgRgb(..) => true,
        _ => false,
    }
}

/// Rewriting keeps every color on its layer: a foreground color becomes at
/// most one foreground color, a background color at most one background
/// color, and any other parameter (bold, underline, reset, ...) is kept as
/// it is. Only the monochrome target drops colors; every other target
/// keeps exactly one parameter for each.
pub proof fn law_rewrite_keeps_layer(p: SgrParam, target: ColorDepth)
    ensures
        spec_rewrite_param(p, target).len() <= 1,
        is_fg_color(p) ==> forall|i: int|
            0 <= i < spec_rewrite_param(p, target).len() ==> is_fg_color(
                #[trigger] spec_rewrite_param(p, target)[i],
            ),
        is_bg_color(p) ==> forall|i: int|
            0 <= i < spec_rewrite_param(p, target).len() ==> is_bg_color(
                #[trigger] spec_rewrite_param(p, target)[i],
            ),
        !is_fg_color(p) && !is_bg_color(p) ==> spec_rewrite_param(p, target) == seq![p],
        target != ColorDepth::Mono ==> spec_rewrite_param(p, target).len() == 1,
        target == ColorDepth::Mono && (is_fg_color(p) || is_bg_color(p)) ==> spec_rewrite_param(
            p,
            target,
        ).len() == 0,
{
    match p {
        SgrParam::Fg256(i) => {
            crate::downgrade::law_nearest_16_is_basic(i);
        },
        SgrParam::Bg256(i) => {
            crate::downgrade::law_nearest_16_is_basic(i);
        },
        SgrParam::FgRgb(r, g, b) => {
            crate::downgrade::law_nearest_16_is_basic(spec_nearest_256(r, g, b));
        },
        SgrParam::BgRgb(r, g, b) => {
            crate::downgrade::law_nearest_16_is_basic(spec_nearest_256(r, g, b));
        },
        _ => {},
    }
}

/// Rewriting a list of parameters keeps, in order, one rewritten parameter
/// per input parameter on the same layer (at every target but monochrome).
pub proof fn law_rewrite_all_keeps_layers(ps: Seq<SgrParam>, target: ColorDepth)
    requires
        target != ColorDepth::Mono,
    ensures
        spec_rewrite_all(ps, target).len() == ps.len(),
        forall|i: int|
            0 <= i < ps.len() ==> (is_fg_color(#[trigger] ps[i]) ==> is_fg_color(spec_rewrite_all(ps, target)[i]))
                && (is_bg_color(ps[i]) ==> is_bg_color(spec_rewrite_all(ps, target)[i])),
    decreases ps.len(),
{
    if ps.len() > 0 {
        let q = ps.drop_last();
        law_rewrite_all_keeps_layers(q, target);
        law_rewrite_keeps_layer(ps.last(), target);
        let a = spec_rewrite_all(q, target);
        let b = spec_rewrite_param(ps.last(), target);
        assert forall|i: int| 0 <= i < ps.len() implies (is_fg_color(#[trigger] ps[i]) ==> is_fg_color(
            spec_rewrite_all(ps, target)[i],
        )) && (is_bg_color(ps[i]) ==> is_bg_color(spec_rewrite_all(ps, target)[i])) by {
            if i < q.len() {
                assert(ps[i] == q[i]);
                assert((a + b)[i] == a[i]);
            } else {
                assert(ps[i] == ps.last());
                assert((a + b)[i] == b[0]);
            }
        }
    }
}

/// At 16 colors a 256-color index that is itself a basic color (0-15)
/// becomes the SGR code of that same basic color, on the same layer; and
/// basic SGR color codes pass through unchanged.
pub proof fn law_basic_colors_kept(i: u8, code: u16)
    ensures
        i < 16 ==> spec_rewrite_param(SgrParam::Fg256(i), ColorDepth::Color16).len() == 1 && (
        spec_rewrite_param(SgrParam::Fg256(i), ColorDepth::Color16)[0] matches SgrParam::Simple(c)
            && spec_is_fg_basic(c) && spec_basic_code_idx(c) == i),
        i < 16 ==> spec_rewrite_param(SgrParam::Bg256(i), ColorDepth::Color16).len() == 1 && (
        spec_rewrite_param(SgrParam::Bg256(i), ColorDepth::Color16)[0] matches SgrParam::Simple(c)
            && spec_is_bg_basic(c) && spec_basic_code_idx(c) == i),
        spec_is_fg_basic(code) || spec_is_bg_basic(code) ==> spec_rewrite_param(
            SgrParam::Simple(code),
            ColorDepth::Color16,
        ) == seq![SgrParam::Simple(code)],
{
    crate::downgrade::law_nearest_16_is_basic(i);
}

} // verus!
