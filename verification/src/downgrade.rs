//! Color depth reduction: truecolor to the 256-color palette, to the 16
//! basic colors, and to the greyscale ramp.

use vstd::prelude::*;

verus! {

/// Target color depth for downgrading.
#[derive(Copy, Clone, Debug, PartialEq, Eq, Hash, Structural)]
pub enum ColorDepth {
    /// Strip all color, keep styles.
    Mono,
    /// Map to the 24-shade greyscale ramp (232-255).
    Greyscale,
    /// Map to the basic 16 ANSI colors.
    Color16,
    /// Map to the 256-color palette.
    Color256,
    /// No downgrade (pass through).
    Truecolor,
}

/// The six axis values of the 6x6x6 color cube.
pub open spec fn axis(i: int) -> int {
    if i == 0 {
        0x00
    } else if i == 1 {
        0x5F
    } else if i == 2 {
        0x87
    } else if i == 3 {
        0xAF
    } else if i == 4 {
        0xD7
    } else {
        0xFF
    }
}

/// The value of cube axis `i` (0-5).
fn axis_value(i: u8) -> (v: u8)
    requires
        i < 6,
    ensures
        v == axis(i as int),
{
    match i {
        0 => 0x00,
        1 => 0x5F,
        2 => 0x87,
        3 => 0xAF,
        4 => 0xD7,
        _ => 0xFF,
    }
}

/// Xterm default RGB of basic ANSI color `i` (0-15).
pub open spec fn basic_rgb(i: int) -> (u8, u8, u8) {
    if i == 0 {
        (0, 0, 0)
    } else if i == 1 {
        (128, 0, 0)
    } else if i == 2 {
        (0, 128, 0)
    } else if i == 3 {
        (128, 128, 0)
    } else if i == 4 {
        (0, 0, 128)
    } else if i == 5 {
        (128, 0, 128)
    } else if i == 6 {
        (0, 128, 128)
    } else if i == 7 {
        (192, 192, 192)
    } else if i == 8 {
        (128, 128, 128)
    } else if i == 9 {
        (255, 0, 0)
    } else if i == 10 {
        (0, 255, 0)
    } else if i == 11 {
        (255, 255, 0)
    } else if i == 12 {
        (0, 0, 255)
    } else if i == 13 {
        (255, 0, 255)
    } else if i == 14 {
        (0, 255, 255)
    } else {
        (255, 255, 255)
    }
}

/// Xterm default RGB of basic ANSI color `i` (0-15).
pub fn basic_color(i: u8) -> (c: (u8, u8, u8))
    requires
        i < 16,
    ensures
        c == basic_rgb(i as int),
{
    match i {
        0 => (0, 0, 0),
        1 => (128, 0, 0),
        2 => (0, 128, 0),
        3 => (128, 128, 0),
        4 => (0, 0, 128),
        5 => (128, 0, 128),
        6 => (0, 128, 128),
        7 => (192, 192, 192),
        8 => (128, 128, 128),
        9 => (255, 0, 0),
        10 => (0, 255, 0),
        11 => (255, 255, 0),
        12 => (0, 0, 255),
        13 => (255, 0, 255),
        14 => (0, 255, 255),
        _ => (255, 255, 255),
    }
}

/// The cube axis index nearest to `v`: the thresholds are the midpoints
/// between adjacent axis values.
pub open spec fn spec_nearest_axis(v: u8) -> u8 {
    if v <= 47 {
        0
    } else if v <= 114 {
        1
    } else if v <= 154 {
        2
    } else if v <= 194 {
        3
    } else if v <= 234 {
        4
    } else {
        5
    }
}

/// Quantize a 0-255 value to the nearest 6x6x6 cube axis index (0-5).
pub fn nearest_axis(v: u8) -> (i: u8)
    ensures
        i == spec_nearest_axis(v),
        i < 6,
{
    if v <= 47 {
        0
    } else if v <= 114 {
        1
    } else if v <= 154 {
        2
    } else if v <= 194 {
        3
    } else if v <= 234 {
        4
    } else {
        5
    }
}

/// The RGB of 256-color cube entry `idx` (16-231).
pub open spec fn spec_cube_rgb(idx: u8) -> (u8, u8, u8) {
    let i = idx - 16;
    (axis(i / 36) as u8, axis((i % 36) / 6) as u8, axis(i % 6) as u8)
}

/// Convert a 256-color cube index (16-231) to its RGB components.
pub fn cube_to_rgb(idx: u8) -> (c: (u8, u8, u8))
    requires
        16 <= idx <= 231,
    ensures
        c == spec_cube_rgb(idx),
{
    let i = idx - 16;
    let r = axis_value(i / 36);
    let g = axis_value((i % 36) / 6);
    let b = axis_value(i % 6);
    (r, g, b)
}

/// The grey value of greyscale ramp entry `idx` (232-255).
pub open spec fn spec_grey_value(idx: u8) -> u8 {
    (8 + 10 * (idx - 232)) as u8
}

/// Convert a greyscale ramp index (232-255) to its grey value.
pub fn grey_index_to_value(idx: u8) -> (v: u8)
    requires
        232 <= idx,
    ensures
        v == spec_grey_value(idx),
{
    (8 + 10 * (idx as u16 - 232)) as u8
}

/// `x * x`.
pub open spec fn sq(x: int) -> int {
    x * x
}

/// Squared Euclidean distance between two RGB colors.
pub open spec fn dist2(r: int, g: int, b: int, r2: int, g2: int, b2: int) -> int {
    sq(r - r2) + sq(g - g2) + sq(b - b2)
}

/// The greyscale ramp step (0-23) for a grey level `y`: `(y - 3) / 10`
/// truncated toward zero, clamped to the ramp.
pub open spec fn ramp_step(y: int) -> int {
    if y < 3 {
        0
    } else if (y - 3) / 10 > 23 {
        23
    } else {
        (y - 3) / 10
    }
}

/// The nearest 256-color index of an RGB color: the nearest cube vertex,
/// unless the greyscale ramp entry at the channels' average is strictly
/// closer.
pub open spec fn spec_nearest_256(r: u8, g: u8, b: u8) -> u8 {
    let ri = spec_nearest_axis(r);
    let gi = spec_nearest_axis(g);
    let bi = spec_nearest_axis(b);
    let cube_idx = 16 + 36 * ri + 6 * gi + bi;
    let d_cube = dist2(r as int, g as int, b as int, axis(ri as int), axis(gi as int), axis(bi as int));
    let step = ramp_step((r + g + b) / 3);
    let gv = 8 + 10 * step;
    let d_grey = dist2(r as int, g as int, b as int, gv, gv, gv);
    if d_grey < d_cube {
        (232 + step) as u8
    } else {
        cube_idx as u8
    }
}

/// `x * x` for a channel difference.
fn sq_diff(a: u8, b: u8) -> (s: u32)
    ensures
        s == sq(a - b),
        s <= 65025,
{
    let d: u32 = if a >= b {
        (a - b) as u32
    } else {
        (b - a) as u32
    };
    assert(d * d <= 255 * 255) by (nonlinear_arith)
        requires
            d <= 255,
    ;
    assert(sq(a - b) == d * d) by (nonlinear_arith)
        requires
            d == a - b || d == b - a,
    ;
    d * d
}

/// Squared distance of two RGB colors.
fn distance2(r: u8, g: u8, b: u8, r2: u8, g2: u8, b2: u8) -> (d: u32)
    ensures
        d == dist2(r as int, g as int, b as int, r2 as int, g2 as int, b2 as int),
        d <= 3 * 65025,
{
    sq_diff(r, r2) + sq_diff(g, g2) + sq_diff(b, b2)
}

/// The ramp step of grey level `y`.
fn ramp_step_of(y: u32) -> (s: u8)
    requires
        y <= 255,
    ensures
        s == ramp_step(y as int),
        s <= 23,
{
    if y < 3 {
        0
    } else if (y - 3) / 10 > 23 {
        23
    } else {
        ((y - 3) / 10) as u8
    }
}

/// Map an RGB truecolor value to the nearest 256-color index (16-255).
///
/// Compares the nearest cube vertex and the nearest greyscale ramp entry
/// and returns whichever has the smaller squared Euclidean distance.
pub fn nearest_256(r: u8, g: u8, b: u8) -> (idx: u8)
    ensures
        idx == spec_nearest_256(r, g, b),
        16 <= idx,
{
    // Cube candidate.
    let ri = nearest_axis(r);
    let gi = nearest_axis(g);
    let bi = nearest_axis(b);
    let cube_idx = 16 + 36 * ri + 6 * gi + bi;
    let d_cube = distance2(r, g, b, axis_value(ri), axis_value(gi), axis_value(bi));
    // Greyscale candidate: simple average for ramp placement.
    let avg = (r as u32 + g as u32 + b as u32) / 3;
    let step = ramp_step_of(avg);
    let grey_idx = 232 + step;
    let gv = 8 + 10 * step;
    let d_grey = distance2(r, g, b, gv, gv, gv);
    if d_grey < d_cube {
        grey_idx
    } else {
        cube_idx
    }
}

/// Squared distance from `(r, g, b)` to basic color `j`.
pub open spec fn basic_dist(r: u8, g: u8, b: u8, j: int) -> int {
    dist2(
        r as int,
        g as int,
        b as int,
        basic_rgb(j).0 as int,
        basic_rgb(j).1 as int,
        basic_rgb(j).2 as int,
    )
}

/// Whether basic color `i` is the first of the 16 basic colors at minimal
/// squared distance from `(r, g, b)`.
pub open spec fn is_nearest_basic(r: u8, g: u8, b: u8, i: int) -> bool {
    &&& 0 <= i < 16
    &&& forall|j: int| 0 <= j < 16 ==> basic_dist(r, g, b, i) <= #[trigger] basic_dist(r, g, b, j)
    &&& forall|j: int| 0 <= j < i ==> basic_dist(r, g, b, i) < #[trigger] basic_dist(r, g, b, j)
}

/// Find the nearest basic color (0-15) by squared Euclidean distance; the
/// lowest index wins a tie.
pub fn nearest_basic(r: u8, g: u8, b: u8) -> (i: u8)
    ensures
        is_nearest_basic(r, g, b, i as int),
{
    let mut best: u8 = 0;
    let mut best_dist: u32 = u32::MAX;
    let mut i: u8 = 0;
    while i < 16
        invariant
            i <= 16,
            best < 16,
            i == 0 ==> best_dist == u32::MAX,
            i > 0 ==> best < i && best_dist == basic_dist(r, g, b, best as int),
            forall|j: int| 0 <= j < i ==> best_dist <= #[trigger] basic_dist(r, g, b, j),
            forall|j: int| 0 <= j < best ==> best_dist < #[trigger] basic_dist(r, g, b, j),
        decreases 16 - i,
    {
        let (br, bg, bb) = basic_color(i);
        let dd = distance2(r, g, b, br, bg, bb);
        if dd < best_dist {
            best_dist = dd;
            best = i;
        }
        i += 1;
    }
    best
}

/// The basic color nearest to 256-color index `idx`: itself below 16;
/// otherwise the basic color nearest to the cube or ramp entry's RGB.
pub open spec fn nearest_16_of(idx: u8, i: int) -> bool {
    if idx <= 15 {
        i == idx
    } else if idx <= 231 {
        is_nearest_basic(spec_cube_rgb(idx).0, spec_cube_rgb(idx).1, spec_cube_rgb(idx).2, i)
    } else {
        is_nearest_basic(spec_grey_value(idx), spec_grey_value(idx), spec_grey_value(idx), i)
    }
}

/// The nearest basic color of a 256-color index (it is unique: see
/// [`nearest_16_of`]).
pub open spec fn spec_nearest_16(idx: u8) -> u8 {
    choose|k: u8| nearest_16_of(idx, k as int)
}

/// There is only one first nearest basic color.
proof fn lemma_nearest_basic_unique(r: u8, g: u8, b: u8, i: int, j: int)
    requires
        is_nearest_basic(r, g, b, i),
        is_nearest_basic(r, g, b, j),
    ensures
        i == j,
{
    if i < j {
        assert(basic_dist(r, g, b, j) < basic_dist(r, g, b, i));
    }
    if j < i {
        assert(basic_dist(r, g, b, i) < basic_dist(r, g, b, j));
    }
}

/// Map a 256-color index to the nearest basic 16-color index.
pub fn nearest_16(idx: u8) -> (i: u8)
    ensures
        nearest_16_of(idx, i as int),
        i == spec_nearest_16(idx),
        i < 16,
{
    let i = nearest_16_inner(idx);
    proof {
        let k = spec_nearest_16(idx);
        assert(nearest_16_of(idx, k as int));
        if idx > 15 {
            if idx <= 231 {
                let c = spec_cube_rgb(idx);
                lemma_nearest_basic_unique(c.0, c.1, c.2, i as int, k as int);
            } else {
                let v = spec_grey_value(idx);
                lemma_nearest_basic_unique(v, v, v, i as int, k as int);
            }
        }
    }
    i
}

fn nearest_16_inner(idx: u8) -> (i: u8)
    ensures
        nearest_16_of(idx, i as int),
        i < 16,
{
    if idx <= 15 {
        idx
    } else if idx <= 231 {
        let (r, g, b) = cube_to_rgb(idx);
        nearest_basic(r, g, b)
    } else {
        let v = grey_index_to_value(idx);
        nearest_basic(v, v, v)
    }
}

/// The Rec. 709 luminance of an RGB color, rounded:
/// `(2126 R + 7152 G + 722 B + 5000) / 10000`.
pub open spec fn luminance(r: u8, g: u8, b: u8) -> int {
    (2126 * r + 7152 * g + 722 * b + 5000) / 10000
}

/// The greyscale ramp index (232-255) of an RGB color by luminance.
pub open spec fn spec_nearest_greyscale(r: u8, g: u8, b: u8) -> u8 {
    (232 + ramp_step(luminance(r, g, b))) as u8
}

/// Map an RGB truecolor value to the nearest greyscale ramp index
/// (232-255), using Rec. 709 luminance weighting.
pub fn nearest_greyscale(r: u8, g: u8, b: u8) -> (idx: u8)
    ensures
        idx == spec_nearest_greyscale(r, g, b),
        232 <= idx,
{
    let y = (2126 * r as u32 + 7152 * g as u32 + 722 * b as u32 + 5000) / 10000;
    assert(y <= 255) by (nonlinear_arith)
        requires
            y == (2126 * r as u32 + 7152 * g as u32 + 722 * b as u32 + 5000) / 10000,
            r <= 255,
            g <= 255,
            b <= 255,
    ;
    232 + ramp_step_of(y)
}

/// A larger grey level never gives an earlier ramp step.
proof fn lemma_ramp_step_mono(x: int, y: int)
    requires
        x <= y,
    ensures
        ramp_step(x) <= ramp_step(y),
{
    if x >= 3 {
        vstd::arithmetic::div_mod::lemma_div_is_ordered(x - 3, y - 3, 10);
    }
}

/// A larger weighted sum never gives a darker ramp entry.
proof fn lemma_greyscale_by_sum(r: u8, g: u8, b: u8, r2: u8, g2: u8, b2: u8)
    requires
        2126 * r + 7152 * g + 722 * b <= 2126 * r2 + 7152 * g2 + 722 * b2,
    ensures
        spec_nearest_greyscale(r, g, b) <= spec_nearest_greyscale(r2, g2, b2),
{
    vstd::arithmetic::div_mod::lemma_div_is_ordered(
        2126 * r + 7152 * g + 722 * b + 5000,
        2126 * r2 + 7152 * g2 + 722 * b2 + 5000,
        10000,
    );
    lemma_ramp_step_mono(luminance(r, g, b), luminance(r2, g2, b2));
    assert(luminance(r2, g2, b2) <= 255) by (nonlinear_arith)
        requires
            luminance(r2, g2, b2) == (2126 * r2 + 7152 * g2 + 722 * b2 + 5000) / 10000,
            r2 <= 255,
            g2 <= 255,
            b2 <= 255,
    ;
    assert(ramp_step(luminance(r2, g2, b2)) <= 23);
    assert(ramp_step(luminance(r, g, b)) >= 0);
}

/// The greyscale ramp entry of an RGB color weighs green most, then red,
/// then blue (Rec. 709): moving `d` of intensity from blue to red or from
/// red to green never darkens the result, and raising any channel never
/// darkens it either. So pure green is lighter than pure red, which is
/// lighter than pure blue.
pub proof fn law_greyscale_weights(r: u8, g: u8, b: u8, d: u8)
    ensures
        g + d <= 255 && r + d <= 255 ==> spec_nearest_greyscale((r + d) as u8, g, b)
            <= spec_nearest_greyscale(r, (g + d) as u8, b),
        r + d <= 255 && b + d <= 255 ==> spec_nearest_greyscale(r, g, (b + d) as u8)
            <= spec_nearest_greyscale((r + d) as u8, g, b),
        r + d <= 255 ==> spec_nearest_greyscale(r, g, b) <= spec_nearest_greyscale((r + d) as u8, g, b),
        g + d <= 255 ==> spec_nearest_greyscale(r, g, b) <= spec_nearest_greyscale(r, (g + d) as u8, b),
        b + d <= 255 ==> spec_nearest_greyscale(r, g, b) <= spec_nearest_greyscale(r, g, (b + d) as u8),
        spec_nearest_greyscale(0, 0, 255) < spec_nearest_greyscale(255, 0, 0) < spec_nearest_greyscale(
            0,
            255,
            0,
        ),
{
    if g + d <= 255 && r + d <= 255 {
        lemma_greyscale_by_sum((r + d) as u8, g, b, r, (g + d) as u8, b);
    }
    if r + d <= 255 && b + d <= 255 {
        lemma_greyscale_by_sum(r, g, (b + d) as u8, (r + d) as u8, g, b);
    }
    if r + d <= 255 {
        lemma_greyscale_by_sum(r, g, b, (r + d) as u8, g, b);
    }
    if g + d <= 255 {
        lemma_greyscale_by_sum(r, g, b, r, (g + d) as u8, b);
    }
    if b + d <= 255 {
        lemma_greyscale_by_sum(r, g, b, r, g, (b + d) as u8);
    }
    assert(luminance(0, 0, 255) == 18);
    assert(luminance(255, 0, 0) == 54);
    assert(luminance(0, 255, 0) == 182);
}

/// A neutral grey keeps its level: its luminance is the grey itself, so it
/// maps to the ramp entry whose grey value is within 5 of it (greys darker
/// than the ramp go to its first entry, lighter ones to its last).
pub proof fn law_greyscale_of_grey(v: u8)
    ensures
        3 <= v <= 243 ==> -5 <= spec_grey_value(spec_nearest_greyscale(v, v, v)) - v <= 5,
        v < 3 ==> spec_nearest_greyscale(v, v, v) == 232,
        v > 243 ==> spec_nearest_greyscale(v, v, v) == 255,
{
    assert(luminance(v, v, v) == v) by (nonlinear_arith)
        requires
            luminance(v, v, v) == (2126 * v + 7152 * v + 722 * v + 5000) / 10000,
            0 <= v <= 255,
    ;
    if 3 <= v <= 243 {
        let s = (v - 3) / 10;
        assert(0 <= s <= 24);
        assert(10 * s <= v - 3 < 10 * s + 10);
        let t = if s > 23 {
            23
        } else {
            s
        };
        assert(ramp_step(v as int) == t);
        assert(spec_grey_value((232 + t) as u8) == 8 + 10 * t);
    }
    if v > 243 {
        assert((v - 3) / 10 >= 24);
    }
}

/// Whether basic color `i` is the first nearest among the first `n`.
spec fn nearest_among(r: u8, g: u8, b: u8, i: int, n: int) -> bool {
    &&& 0 <= i < n
    &&& forall|j: int| 0 <= j < n ==> basic_dist(r, g, b, i) <= #[trigger] basic_dist(r, g, b, j)
    &&& forall|j: int| 0 <= j < i ==> basic_dist(r, g, b, i) < #[trigger] basic_dist(r, g, b, j)
}

/// Among the first `n` basic colors there is a first nearest one.
proof fn lemma_nearest_basic_prefix(r: u8, g: u8, b: u8, n: int)
    requires
        1 <= n <= 16,
    ensures
        exists|i: int| #[trigger] nearest_among(r, g, b, i, n),
    decreases n,
{
    if n == 1 {
        assert(nearest_among(r, g, b, 0, 1));
    } else {
        lemma_nearest_basic_prefix(r, g, b, n - 1);
        let i = choose|i: int| #[trigger] nearest_among(r, g, b, i, n - 1);
        if basic_dist(r, g, b, n - 1) < basic_dist(r, g, b, i) {
            assert(nearest_among(r, g, b, n - 1, n));
        } else {
            assert(nearest_among(r, g, b, i, n));
        }
    }
}

/// Every 256-color index has a basic color (0-15) nearest to it, and the
/// basic colors are their own nearest.
pub proof fn law_nearest_16_is_basic(idx: u8)
    ensures
        spec_nearest_16(idx) < 16,
        idx < 16 ==> spec_nearest_16(idx) == idx,
{
    let (r, g, b) = if idx <= 15 {
        (0u8, 0u8, 0u8)
    } else if idx <= 231 {
        spec_cube_rgb(idx)
    } else {
        (spec_grey_value(idx), spec_grey_value(idx), spec_grey_value(idx))
    };
    if idx <= 15 {
        assert(nearest_16_of(idx, idx as int));
    } else {
        lemma_nearest_basic_prefix(r, g, b, 16);
        let i = choose|i: int| #[trigger] nearest_among(r, g, b, i, 16);
        assert(is_nearest_basic(r, g, b, i));
        assert(nearest_16_of(idx, (i as u8) as int));
    }
}

/// Every cube axis value quantizes back to its own axis index.
pub proof fn law_axis_roundtrip(i: int)
    requires
        0 <= i < 6,
    ensures
        spec_nearest_axis(axis(i) as u8) == i,
{
}

/// A color that is exactly a cube vertex maps to that cube entry, and the
/// entry's RGB is the color again.
#[verifier::spinoff_prover]
pub proof fn law_cube_colors_fixed(i: int, j: int, k: int)
    requires
        0 <= i < 6,
        0 <= j < 6,
        0 <= k < 6,
    ensures
        spec_nearest_256(axis(i) as u8, axis(j) as u8, axis(k) as u8) == 16 + 36 * i + 6 * j + k,
        spec_cube_rgb((16 + 36 * i + 6 * j + k) as u8) == (axis(i) as u8, axis(j) as u8, axis(k) as u8),
{
    let r = axis(i) as u8;
    let g = axis(j) as u8;
    let b = axis(k) as u8;
    law_axis_roundtrip(i);
    law_axis_roundtrip(j);
    law_axis_roundtrip(k);
    let step = ramp_step((r + g + b) / 3);
    let gv = 8 + 10 * step;
    assert(sq(r - gv) >= 0) by (nonlinear_arith);
    assert(sq(g - gv) >= 0) by (nonlinear_arith);
    assert(sq(b - gv) >= 0) by (nonlinear_arith);
    assert(dist2(r as int, g as int, b as int, gv, gv, gv) >= 0);
    assert(0 <= axis(i) <= 255 && 0 <= axis(j) <= 255 && 0 <= axis(k) <= 255);
    assert(r as int == axis(i) && g as int == axis(j) && b as int == axis(k));
    assert(sq(0) == 0);
    assert(dist2(r as int, g as int, b as int, axis(i), axis(j), axis(k)) == 0);
    assert(16 + 36 * i + 6 * j + k <= 231);
    let c = 36 * i + 6 * j + k;
    assert(c / 36 == i && (c % 36) / 6 == j && c % 6 == k) by (nonlinear_arith)
        requires
            c == 36 * i + 6 * j + k,
            0 <= i < 6,
            0 <= j < 6,
            0 <= k < 6,
    ;
}

} // verus!
