//! Scanline rasterization onto a buffer of pixel writes.
//!
//! Each drawing operation appends the pixels it writes, in order, to a
//! `Vec<Pixel>` that stands for the drawing surface; a display layer replays
//! them. Later writes to the same position cover earlier ones.

use vstd::prelude::*;
use crate::fixed::{ONE, floor_div};
use crate::math::{Xyh, interp, interp_at, lerp, lerp_seq, lemma_lerp_between, tdiv, trunc_div, lemma_tdiv_between};

verus! {

/// An integer pixel coordinate.
#[derive(Clone, Copy, Debug, PartialEq, Eq, Structural)]
pub struct Point {
    pub x: i32,
    pub y: i32,
}

/// An RGB color with 8-bit channels.
#[derive(Clone, Copy, Debug, PartialEq, Eq, Structural)]
pub struct Color {
    pub r: u8,
    pub g: u8,
    pub b: u8,
}

/// One write of `color` at `pos`.
#[derive(Clone, Copy, Debug, PartialEq, Eq, Structural)]
pub struct Pixel {
    pub pos: Point,
    pub color: Color,
}

impl Point {
    pub fn new(x: i32, y: i32) -> (r: Point)
        ensures
            r == (Point { x, y }),
    {
        Point { x, y }
    }
}

impl Color {
    pub fn new(r: u8, g: u8, b: u8) -> (c: Color)
        ensures
            c == (Color { r, g, b }),
    {
        Color { r, g, b }
    }
}

pub open spec fn pixel(x: int, y: int, c: Color) -> Pixel {
    Pixel { pos: Point { x: x as i32, y: y as i32 }, color: c }
}

/// Writes one pixel.
pub fn put_color(canvas: &mut Vec<Pixel>, p: Point, c: Color)
    ensures
        final(canvas)@ == old(canvas)@.push(Pixel { pos: p, color: c }),
{
    canvas.push(Pixel { pos: p, color: c });
}

pub open spec fn abs(v: int) -> int {
    if v < 0 { -v } else { v }
}

/// Whether a line from `p0` to `p1` is stepped along x (its major axis).
pub open spec fn x_major(p0: Point, p1: Point) -> bool {
    abs(p1.x - p0.x) > abs(p1.y - p0.y)
}

/// The pixels of a line: one per step along the major axis, from the lower
/// end to the higher, with the minor coordinate interpolated.
pub open spec fn line_pixels(p0: Point, p1: Point, c: Color) -> Seq<Pixel> {
    if x_major(p0, p1) {
        let (a, b) = if p0.x > p1.x { (p1, p0) } else { (p0, p1) };
        let ys = lerp_seq(a.x as int, a.y as int, b.x as int, b.y as int);
        Seq::new(ys.len(), |k: int| pixel(a.x + k, ys[k] as int, c))
    } else {
        let (a, b) = if p0.y > p1.y { (p1, p0) } else { (p0, p1) };
        let xs = lerp_seq(a.y as int, a.x as int, b.y as int, b.x as int);
        Seq::new(xs.len(), |k: int| pixel(xs[k] as int, a.y + k, c))
    }
}

/// Draws a line from `p0` to `p1`.
pub fn draw_line(canvas: &mut Vec<Pixel>, p0: Point, p1: Point, c: Color)
    ensures
        final(canvas)@ == old(canvas)@ + line_pixels(p0, p1, c),
{
    let ghost start = canvas@;
    let dx: i64 = p1.x as i64 - p0.x as i64;
    let dy: i64 = p1.y as i64 - p0.y as i64;
    let adx: i64 = if dx < 0 { -dx } else { dx };
    let ady: i64 = if dy < 0 { -dy } else { dy };
    if adx > ady {
        let (a, b) = if p0.x > p1.x { (p1, p0) } else { (p0, p1) };
        let ys = lerp(a.x, a.y as i64, b.x, b.y as i64);
        let ghost want = line_pixels(p0, p1, c);
        let mut k: usize = 0;
        while k < ys.len()
            invariant
                0 <= k <= ys@.len(),
                ys@ == lerp_seq(a.x as int, a.y as int, b.x as int, b.y as int),
                a.x <= b.x,
                x_major(p0, p1),
                (a, b) == (if p0.x > p1.x { (p1, p0) } else { (p0, p1) }),
                want == line_pixels(p0, p1, c),
                want.len() == ys@.len(),
                canvas@ == start + want.take(k as int),
            decreases ys@.len() - k,
        {
            proof {
                lemma_lerp_between(a.x as int, a.y as int, b.x as int, b.y as int, k as int);
            }
            let y = ys[k] as i32;
            put_color(canvas, Point { x: (a.x as i64 + k as i64) as i32, y }, c);
            proof {
                assert(want[k as int] == Pixel { pos: Point { x: (a.x + k) as i32, y }, color: c });
                assert(want.take(k as int).push(want[k as int]) =~= want.take(k + 1));
                assert(canvas@ =~= start + want.take(k + 1));
            }
            k += 1;
        }
        assert(want.take(k as int) =~= want);
    } else {
        let (a, b) = if p0.y > p1.y { (p1, p0) } else { (p0, p1) };
        let xs = lerp(a.y, a.x as i64, b.y, b.x as i64);
        let ghost want = line_pixels(p0, p1, c);
        let mut k: usize = 0;
        while k < xs.len()
            invariant
                0 <= k <= xs@.len(),
                xs@ == lerp_seq(a.y as int, a.x as int, b.y as int, b.x as int),
                a.y <= b.y,
                !x_major(p0, p1),
                (a, b) == (if p0.y > p1.y { (p1, p0) } else { (p0, p1) }),
                want == line_pixels(p0, p1, c),
                want.len() == xs@.len(),
                canvas@ == start + want.take(k as int),
            decreases xs@.len() - k,
        {
            proof {
                lemma_lerp_between(a.y as int, a.x as int, b.y as int, b.x as int, k as int);
            }
            let x = xs[k] as i32;
            put_color(canvas, Point { x, y: (a.y as i64 + k as i64) as i32 }, c);
            proof {
                assert(want[k as int] == Pixel { pos: Point { x, y: (a.y + k) as i32 }, color: c });
                assert(want.take(k as int).push(want[k as int]) =~= want.take(k + 1));
                assert(canvas@ =~= start + want.take(k + 1));
            }
            k += 1;
        }
        assert(want.take(k as int) =~= want);
    }
}

pub open spec fn triangle_pixels(p0: Point, p1: Point, p2: Point, c: Color) -> Seq<Pixel> {
    line_pixels(p0, p1, c) + line_pixels(p0, p2, c) + line_pixels(p1, p2, c)
}

/// Draws the outline of a triangle: the lines `p0 p1`, `p0 p2` and `p1 p2`.
pub fn draw_triangle(canvas: &mut Vec<Pixel>, p0: Point, p1: Point, p2: Point, c: Color)
    ensures
        final(canvas)@ == old(canvas)@ + triangle_pixels(p0, p1, p2, c),
{
    let ghost start = canvas@;
    draw_line(canvas, p0, p1, c);
    draw_line(canvas, p0, p2, c);
    draw_line(canvas, p1, p2, c);
    assert(canvas@ =~= start + triangle_pixels(p0, p1, p2, c));
}

/// The three vertices ordered by ascending y through the compare-and-swap
/// steps (first, second), (first, third), (second, third). Each vertex keeps
/// the payload that travels with it.
pub open spec fn sort3<T>(a: (Point, T), b: (Point, T), c: (Point, T)) -> ((Point, T), (Point, T), (Point, T)) {
    let (a, b) = if b.0.y < a.0.y { (b, a) } else { (a, b) };
    let (a, c) = if c.0.y < a.0.y { (c, a) } else { (a, c) };
    let (b, c) = if c.0.y < b.0.y { (c, b) } else { (b, c) };
    (a, b, c)
}

fn sort_by_y<T>(a: (Point, T), b: (Point, T), c: (Point, T)) -> (r: ((Point, T), (Point, T), (Point, T)))
    ensures
        r == sort3(a, b, c),
        r.0.0.y <= r.1.0.y <= r.2.0.y,
{
    let (a, b) = if b.0.y < a.0.y { (b, a) } else { (a, b) };
    let (a, c) = if c.0.y < a.0.y { (c, a) } else { (a, c) };
    let (b, c) = if c.0.y < b.0.y { (c, b) } else { (b, c) };
    (a, b, c)
}

/// An attribute along the two short edges of a triangle sorted by y, one
/// value per scanline from `y0` to `y2`: the middle vertex appears once.
pub open spec fn chain(y0: int, v0: int, y1: int, v1: int, y2: int, v2: int) -> Seq<i64> {
    lerp_seq(y0, v0, y1, v1).drop_last() + lerp_seq(y1, v1, y2, v2)
}

fn edge_chain(y0: i32, v0: i64, y1: i32, v1: i64, y2: i32, v2: i64) -> (r: Vec<i64>)
    requires
        y0 <= y1 <= y2,
    ensures
        r@ == chain(y0 as int, v0 as int, y1 as int, v1 as int, y2 as int, v2 as int),
        r@.len() == y2 - y0 + 1,
{
    let mut first = lerp(y0, v0, y1, v1);
    first.pop();
    let mut second = lerp(y1, v1, y2, v2);
    first.append(&mut second);
    first
}

/// The pixels of one scanline `y`, from `xl` inclusive to `xr` exclusive;
/// `f(i, x)` gives the color at `x` on the scanline of index `i`.
pub open spec fn span(y: int, xl: int, xr: int, i: int, f: spec_fn(int, int) -> Color) -> Seq<Pixel> {
    Seq::new(if xl < xr { (xr - xl) as nat } else { 0 }, |k: int| pixel(xl + k, y, f(i, xl + k)))
}

/// The first `n` scanlines from `y0` down, the one of index `i` spanning
/// `left[i]` to `right[i]`.
pub open spec fn rows(y0: int, n: nat, left: Seq<i64>, right: Seq<i64>, f: spec_fn(int, int) -> Color) -> Seq<Pixel>
    decreases n,
{
    if n == 0 {
        Seq::empty()
    } else {
        rows(y0, (n - 1) as nat, left, right, f) + span(
            y0 + n - 1,
            left[n - 1] as int,
            right[n - 1] as int,
            n - 1,
            f,
        )
    }
}

/// A single color everywhere.
pub open spec fn flat(c: Color) -> spec_fn(int, int) -> Color {
    |i: int, x: int| c
}

/// One channel scaled by the intensity `h` (16.16 fixed point), rounded down
/// and clamped to the 8-bit range.
pub open spec fn shade_channel(c: u8, h: int) -> u8 {
    let v = (c as int * h) / (ONE as int);
    (if v < 0 {
        0
    } else if v > 255 {
        255
    } else {
        v
    }) as u8
}

pub open spec fn shade(base: Color, h: int) -> Color {
    Color { r: shade_channel(base.r, h), g: shade_channel(base.g, h), b: shade_channel(base.b, h) }
}

/// The base color scaled by an intensity interpolated across each scanline
/// from `hl[i]` at its left end to `hr[i]` at its right end.
pub open spec fn intensity(base: Color, left: Seq<i64>, right: Seq<i64>, hl: Seq<i64>, hr: Seq<i64>) -> spec_fn(int, int) -> Color {
    |i: int, x: int|
        shade(base, lerp_seq(left[i] as int, hl[i] as int, right[i] as int, hr[i] as int)[x - left[i]] as int)
}

/// The value at row `y` of the segment from `(y0, v0)` to `(y1, v1)`, as a
/// fraction (numerator, denominator); a flat segment holds `v0`.
pub open spec fn seg_frac(y0: int, v0: int, y1: int, v1: int, y: int) -> (int, int) {
    if y1 == y0 {
        (v0, 1)
    } else {
        (v0 * (y1 - y0) + (v1 - v0) * (y - y0), y1 - y0)
    }
}

/// A vertex attribute at scanline index `k` of a triangle sorted by y, as a
/// fraction: down the long edge when `long`, else down the two short edges.
pub open spec fn edge_frac(long: bool, ya: int, va: int, yb: int, vb: int, yc: int, vc: int, k: int) -> (int, int) {
    if long {
        seg_frac(ya, va, yc, vc, ya + k)
    } else if ya + k < yb {
        seg_frac(ya, va, yb, vb, ya + k)
    } else {
        seg_frac(yb, vb, yc, vc, ya + k)
    }
}

/// The exact value `l + (r - l) j / d` between two fractions, rounded down.
pub open spec fn blend(l: (int, int), r: (int, int), j: int, d: int) -> int {
    (l.0 * r.1 * (d - j) + r.0 * l.1 * j) / (l.1 * r.1 * d)
}

/// One channel at `x` on the scanline of index `i`: interpolated exactly down
/// the left and right edges, then across, and rounded once.
pub open spec fn blend_channel(
    long_left: bool,
    ya: int, va: u8, yb: int, vb: u8, yc: int, vc: u8,
    left: Seq<i64>,
    right: Seq<i64>,
    i: int,
    x: int,
) -> u8 {
    blend(
        edge_frac(long_left, ya, va as int, yb, vb as int, yc, vc as int, i),
        edge_frac(!long_left, ya, va as int, yb, vb as int, yc, vc as int, i),
        x - left[i],
        right[i] - left[i],
    ) as u8
}

/// Per-channel color interpolated from the colors `ca`, `cb`, `cc` of the
/// vertices at rows `ya <= yb <= yc`.
pub open spec fn gradient(
    long_left: bool,
    ya: int,
    yb: int,
    yc: int,
    ca: Color,
    cb: Color,
    cc: Color,
    left: Seq<i64>,
    right: Seq<i64>,
) -> spec_fn(int, int) -> Color {
    |i: int, x: int|
        Color {
            r: blend_channel(long_left, ya, ca.r, yb, cb.r, yc, cc.r, left, right, i, x),
            g: blend_channel(long_left, ya, ca.g, yb, cb.g, yc, cc.g, left, right, i, x),
            b: blend_channel(long_left, ya, ca.b, yb, cb.b, yc, cc.b, left, right, i, x),
        }
}

/// Every value of an interpolated sequence lies within any bounds that hold
/// both endpoint values.
proof fn lemma_lerp_within(x1: int, y1: int, x2: int, y2: int, lo: int, hi: int)
    requires
        lo <= y1 <= hi,
        lo <= y2 <= hi,
        i64::MIN <= lo,
        hi <= i64::MAX,
    ensures
        forall|i: int| 0 <= i < lerp_seq(x1, y1, x2, y2).len() ==> lo <= #[trigger] lerp_seq(x1, y1, x2, y2)[i] <= hi,
{
    assert forall|i: int| 0 <= i < lerp_seq(x1, y1, x2, y2).len() implies lo <= #[trigger] lerp_seq(x1, y1, x2, y2)[i] <= hi by {
        lemma_lerp_between(x1, y1, x2, y2, i);
    }
}

/// The same for the two chained short edges.
proof fn lemma_chain_within(y0: int, v0: int, y1: int, v1: int, y2: int, v2: int, lo: int, hi: int)
    requires
        lo <= v0 <= hi,
        lo <= v1 <= hi,
        lo <= v2 <= hi,
        i64::MIN <= lo,
        hi <= i64::MAX,
    ensures
        forall|i: int| 0 <= i < chain(y0, v0, y1, v1, y2, v2).len() ==> lo <= #[trigger] chain(y0, v0, y1, v1, y2, v2)[i] <= hi,
{
    lemma_lerp_within(y0, v0, y1, v1, lo, hi);
    lemma_lerp_within(y1, v1, y2, v2, lo, hi);
    let a = lerp_seq(y0, v0, y1, v1);
    let b = lerp_seq(y1, v1, y2, v2);
    assert forall|i: int| 0 <= i < chain(y0, v0, y1, v1, y2, v2).len() implies lo <= #[trigger] chain(y0, v0, y1, v1, y2, v2)[i] <= hi by {
        if i < a.len() - 1 {
            assert(chain(y0, v0, y1, v1, y2, v2)[i] == a[i]);
        } else {
            assert(chain(y0, v0, y1, v1, y2, v2)[i] == b[i - (a.len() - 1)]);
        }
    }
}

pub open spec fn in_i32(s: Seq<i64>) -> bool {
    forall|i: int| 0 <= i < s.len() ==> i32::MIN <= #[trigger] s[i] <= i32::MAX
}

/// What a scanline carries besides its two boundaries.
enum Shading {
    Flat(Color),
    Intensity { base: Color, hl: Vec<i64>, hr: Vec<i64> },
    Gradient { long_left: bool, ya: i32, yb: i32, yc: i32, ca: Color, cb: Color, cc: Color },
}

impl Shading {
    spec fn color_fn(&self, left: Seq<i64>, right: Seq<i64>) -> spec_fn(int, int) -> Color {
        match self {
            Shading::Flat(c) => flat(*c),
            Shading::Intensity { base, hl, hr } => intensity(*base, left, right, hl@, hr@),
            Shading::Gradient { long_left, ya, yb, yc, ca, cb, cc } => gradient(
                *long_left,
                *ya as int,
                *yb as int,
                *yc as int,
                *ca,
                *cb,
                *cc,
                left,
                right,
            ),
        }
    }

    /// Enough values for scanline indices below `n`.
    spec fn covers(&self, n: int) -> bool {
        match self {
            Shading::Flat(_) => true,
            Shading::Intensity { base, hl, hr } => hl@.len() >= n && hr@.len() >= n,
            Shading::Gradient { long_left, ya, yb, yc, ca, cb, cc } => *ya <= *yb <= *yc && n <= *yc - *ya,
        }
    }
}

/// `shade_channel` on machine integers.
fn shade_ch(c: u8, h: i64) -> (r: u8)
    ensures
        r == shade_channel(c, h as int),
{
    proof {
        assert(-0x100 * 0x8000_0000_0000_0000 <= c as int * h <= 0x100 * 0x8000_0000_0000_0000) by (nonlinear_arith)
            requires
                0 <= c <= 255,
                i64::MIN <= h <= i64::MAX,
        ;
    }
    let v = floor_div(c as i128 * h as i128, ONE as i128);
    if v < 0 {
        0
    } else if v > 255 {
        255
    } else {
        v as u8
    }
}

/// `seg_frac` on machine integers.
fn seg_frac_at(y0: i32, v0: u8, y1: i32, v1: u8, y: i64) -> (r: (i128, i128))
    requires
        y0 <= y <= y1,
    ensures
        (r.0 as int, r.1 as int) == seg_frac(y0 as int, v0 as int, y1 as int, v1 as int, y as int),
        0 < r.1 <= 0x1_0000_0000,
        0 <= r.0 <= 255 * r.1,
{
    if y1 == y0 {
        (v0 as i128, 1)
    } else {
        let d = y1 as i128 - y0 as i128;
        let t = y as i128 - y0 as i128;
        proof {
            assert(0 <= v0 * d + (v1 - v0) * t <= 255 * d) by (nonlinear_arith)
                requires
                    0 <= t <= d,
                    0 <= v0 <= 255,
                    0 <= v1 <= 255,
            ;
            assert(-0x100 * 0x1_0000_0000 <= (v1 - v0) * t <= 0x100 * 0x1_0000_0000) by (nonlinear_arith)
                requires
                    0 <= t <= 0x1_0000_0000,
                    -255 <= v1 - v0 <= 255,
            ;
            assert(0 <= v0 * d <= 0x100 * 0x1_0000_0000) by (nonlinear_arith)
                requires
                    0 <= d <= 0x1_0000_0000,
                    0 <= v0 <= 255,
            ;
        }
        (v0 as i128 * d + (v1 as i128 - v0 as i128) * t, d)
    }
}

/// `edge_frac` on machine integers.
fn edge_frac_at(long: bool, ya: i32, va: u8, yb: i32, vb: u8, yc: i32, vc: u8, k: i64) -> (r: (i128, i128))
    requires
        ya <= yb <= yc,
        0 <= k < yc - ya,
    ensures
        (r.0 as int, r.1 as int) == edge_frac(long, ya as int, va as int, yb as int, vb as int, yc as int, vc as int, k as int),
        0 < r.1 <= 0x1_0000_0000,
        0 <= r.0 <= 255 * r.1,
{
    let y = ya as i64 + k;
    if long {
        seg_frac_at(ya, va, yc, vc, y)
    } else if y < yb as i64 {
        seg_frac_at(ya, va, yb, vb, y)
    } else {
        seg_frac_at(yb, vb, yc, vc, y)
    }
}

/// `blend` on machine integers; the result is a channel value.
fn blend_at(l: (i128, i128), r: (i128, i128), j: i64, d: i64) -> (c: u8)
    requires
        0 < l.1 <= 0x1_0000_0000,
        0 < r.1 <= 0x1_0000_0000,
        0 <= l.0 <= 255 * l.1,
        0 <= r.0 <= 255 * r.1,
        0 <= j < d <= 0x1_0000_0000,
    ensures
        c == blend((l.0 as int, l.1 as int), (r.0 as int, r.1 as int), j as int, d as int),
{
    let (l0, l1, r0, r1) = (l.0, l.1, r.0, r.1);
    proof {
        assert(0 <= l0 * r1 <= 0x100 * 0x1_0000_0000 * 0x1_0000_0000) by (nonlinear_arith)
            requires
                0 <= l0 <= 255 * l1,
                0 < l1 <= 0x1_0000_0000,
                0 < r1 <= 0x1_0000_0000,
        ;
        assert(0 <= r0 * l1 <= 0x100 * 0x1_0000_0000 * 0x1_0000_0000) by (nonlinear_arith)
            requires
                0 <= r0 <= 255 * r1,
                0 < l1 <= 0x1_0000_0000,
                0 < r1 <= 0x1_0000_0000,
        ;
        assert(0 <= l0 * r1 * (d - j) <= 0x100 * 0x1_0000_0000 * 0x1_0000_0000 * 0x1_0000_0000) by (nonlinear_arith)
            requires
                0 <= l0 * r1 <= 0x100 * 0x1_0000_0000 * 0x1_0000_0000,
                0 < d - j <= 0x1_0000_0000,
        ;
        assert(0 <= r0 * l1 * j <= 0x100 * 0x1_0000_0000 * 0x1_0000_0000 * 0x1_0000_0000) by (nonlinear_arith)
            requires
                0 <= r0 * l1 <= 0x100 * 0x1_0000_0000 * 0x1_0000_0000,
                0 <= j <= 0x1_0000_0000,
        ;
        assert(0 < l1 * r1 <= 0x1_0000_0000 * 0x1_0000_0000) by (nonlinear_arith)
            requires
                0 < l1 <= 0x1_0000_0000,
                0 < r1 <= 0x1_0000_0000,
        ;
        assert(0 < l1 * r1 * d <= 0x1_0000_0000 * 0x1_0000_0000 * 0x1_0000_0000) by (nonlinear_arith)
            requires
                0 < l1 * r1 <= 0x1_0000_0000 * 0x1_0000_0000,
                0 < d <= 0x1_0000_0000,
        ;
    }
    let num = l0 * r1 * (d - j) as i128 + r0 * l1 * j as i128;
    let den = l1 * r1 * d as i128;
    proof {
        assert(num <= 255 * den) by (nonlinear_arith)
            requires
                0 <= l0 <= 255 * l1,
                0 <= r0 <= 255 * r1,
                0 < l1,
                0 < r1,
                0 <= j < d,
                num == l0 * r1 * (d - j) + r0 * l1 * j,
                den == l1 * r1 * d,
        ;
        vstd::arithmetic::div_mod::lemma_div_is_ordered(num as int, 255 * den, den as int);
        vstd::arithmetic::div_mod::lemma_div_multiples_vanish(255, den as int);
        assert(den * 255 == 255 * den) by (nonlinear_arith);
        vstd::arithmetic::div_mod::lemma_div_pos_is_pos(num as int, den as int);
    }
    (num / den) as u8
}

/// The color at `x` on the scanline of index `i`.
fn pixel_color(shading: &Shading, left: &Vec<i64>, right: &Vec<i64>, i: usize, x: i64) -> (r: Color)
    requires
        i < left@.len(),
        i < right@.len(),
        shading.covers(i + 1),
        in_i32(left@),
        in_i32(right@),
        left@[i as int] <= x < right@[i as int],
    ensures
        r == (shading.color_fn(left@, right@))(i as int, x as int),
{
    let xl = left[i];
    let xr = right[i];
    let k = x - xl;
    let d = xr - xl;
    match shading {
        Shading::Flat(c) => *c,
        Shading::Intensity { base, hl, hr } => {
            let h = interp_at(hl[i], hr[i], k, d);
            proof {
                assert(lerp_seq(xl as int, hl@[i as int] as int, xr as int, hr@[i as int] as int)[k as int] == h);
            }
            Color { r: shade_ch(base.r, h), g: shade_ch(base.g, h), b: shade_ch(base.b, h) }
        },
        Shading::Gradient { long_left, ya, yb, yc, ca, cb, cc } => {
            let (ll, ya, yb, yc) = (*long_left, *ya, *yb, *yc);
            let k = i as i64;
            let j = x - xl;
            Color {
                r: blend_at(edge_frac_at(ll, ya, ca.r, yb, cb.r, yc, cc.r, k), edge_frac_at(!ll, ya, ca.r, yb, cb.r, yc, cc.r, k), j, d),
                g: blend_at(edge_frac_at(ll, ya, ca.g, yb, cb.g, yc, cc.g, k), edge_frac_at(!ll, ya, ca.g, yb, cb.g, yc, cc.g, k), j, d),
                b: blend_at(edge_frac_at(ll, ya, ca.b, yb, cb.b, yc, cc.b, k), edge_frac_at(!ll, ya, ca.b, yb, cb.b, yc, cc.b, k), j, d),
            }
        },
    }
}

/// Fills `n` scanlines from `y0` down: the one of index `i` from `left[i]`
/// inclusive to `right[i]` exclusive.
fn fill_scanlines(canvas: &mut Vec<Pixel>, y0: i32, n: usize, left: &Vec<i64>, right: &Vec<i64>, shading: &Shading)
    requires
        left@.len() == n + 1,
        right@.len() == n + 1,
        y0 + n <= i32::MAX,
        in_i32(left@),
        in_i32(right@),
        shading.covers(n as int),
    ensures
        final(canvas)@ == old(canvas)@ + rows(y0 as int, n as nat, left@, right@, shading.color_fn(left@, right@)),
{
    let ghost start = canvas@;
    let ghost f = shading.color_fn(left@, right@);
    let mut i: usize = 0;
    while i < n
        invariant
            0 <= i <= n,
            left@.len() == n + 1,
            right@.len() == n + 1,
            y0 + n <= i32::MAX,
            in_i32(left@),
            in_i32(right@),
            shading.covers(n as int),
            f == shading.color_fn(left@, right@),
            canvas@ == start + rows(y0 as int, i as nat, left@, right@, f),
        decreases n - i,
    {
        let y: i32 = (y0 as i64 + i as i64) as i32;
        let xl = left[i];
        let xr = right[i];
        let ghost row = span(y as int, xl as int, xr as int, i as int, f);
        let ghost before = canvas@;
        let mut x: i64 = xl;
        while x < xr
            invariant
                0 <= i < n,
                left@.len() == n + 1,
                right@.len() == n + 1,
                in_i32(left@),
                in_i32(right@),
                shading.covers(n as int),
                f == shading.color_fn(left@, right@),
                xl == left@[i as int],
                xr == right@[i as int],
                xl <= x,
                xl < xr ==> x <= xr,
                xl >= xr ==> x == xl,
                row == span(y as int, xl as int, xr as int, i as int, f),
                canvas@ == before + row.take(x - xl),
            decreases xr - x,
        {
            let c = pixel_color(shading, left, right, i, x);
            put_color(canvas, Point { x: x as i32, y }, c);
            proof {
                assert(row[x - xl] == Pixel { pos: Point { x: x as i32, y }, color: c });
                assert(row.take(x - xl).push(row[x - xl]) =~= row.take(x - xl + 1));
                assert(canvas@ =~= before + row.take(x - xl + 1));
            }
            x = x + 1;
        }
        proof {
            assert(row.take(row.len() as int) =~= row);
            if xl < xr {
                assert(x == xr);
            } else {
                assert(row.len() == 0);
                assert(row.take(x - xl) =~= row);
            }
            assert(canvas@ =~= start + rows(y0 as int, (i + 1) as nat, left@, right@, f));
        }
        i = i + 1;
    }
}

/// Per-scanline 16.16 values truncated toward zero to whole pixels.
pub open spec fn to_pixels(s: Seq<i64>) -> Seq<i64> {
    Seq::new(s.len(), |i: int| tdiv(s[i] as int, ONE as int) as i64)
}

/// The x of the long edge (top vertex to bottom vertex) per scanline.
pub open spec fn x_long(a: Point, c: Point) -> Seq<i64> {
    to_pixels(lerp_seq(a.y as int, a.x * ONE, c.y as int, c.x * ONE))
}

/// The x of the two short edges (top to middle, middle to bottom) per scanline.
pub open spec fn x_short(a: Point, b: Point, c: Point) -> Seq<i64> {
    to_pixels(chain(a.y as int, a.x * ONE, b.y as int, b.x * ONE, c.y as int, c.x * ONE))
}

/// For a triangle sorted by y: whether the long edge bounds it on the left,
/// that is, whether the middle vertex lies strictly right of the long edge.
pub open spec fn left_is_long(a: Point, b: Point, c: Point) -> bool {
    (c.x - a.x) * (b.y - a.y) < (b.x - a.x) * (c.y - a.y)
}

/// Orders the long-edge and short-edge values of an attribute as (left, right).
pub open spec fn pick<T>(long_left: bool, long: T, short: T) -> (T, T) {
    if long_left { (long, short) } else { (short, long) }
}

/// The left and right boundary x per scanline of a triangle sorted by y.
pub open spec fn x_sides(a: Point, b: Point, c: Point) -> (Seq<i64>, Seq<i64>) {
    pick(left_is_long(a, b, c), x_long(a, c), x_short(a, b, c))
}

/// Truncates per-scanline 16.16 values to whole pixels.
fn pixels_of(v: &Vec<i64>) -> (r: Vec<i64>)
    requires
        forall|i: int| 0 <= i < v@.len() ==> i32::MIN * ONE <= #[trigger] v@[i] <= i32::MAX * ONE,
    ensures
        r@ == to_pixels(v@),
        in_i32(r@),
{
    let mut out: Vec<i64> = Vec::new();
    let mut i: usize = 0;
    while i < v.len()
        invariant
            0 <= i <= v@.len(),
            out@.len() == i,
            forall|j: int| 0 <= j < v@.len() ==> i32::MIN * ONE <= #[trigger] v@[j] <= i32::MAX * ONE,
            forall|j: int| 0 <= j < i ==> out@[j] == tdiv(v@[j] as int, ONE as int) as i64,
            forall|j: int| 0 <= j < i ==> i32::MIN <= #[trigger] out@[j] <= i32::MAX,
        decreases v@.len() - i,
    {
        proof {
            lemma_tdiv_between(v@[i as int] as int, ONE as int, i32::MIN as int, i32::MAX as int);
        }
        out.push(trunc_div(v[i] as i128, ONE as i128) as i64);
        i += 1;
    }
    assert(out@ =~= to_pixels(v@));
    out
}

/// Left and right boundary x per scanline of a triangle sorted by y, and
/// whether the long edge is the left one.
fn x_edges(a: Point, b: Point, c: Point) -> (r: (Vec<i64>, Vec<i64>, bool))
    requires
        a.y <= b.y <= c.y,
    ensures
        r.2 == left_is_long(a, b, c),
        (r.0@, r.1@) == x_sides(a, b, c),
        r.0@.len() == c.y - a.y + 1,
        r.1@.len() == c.y - a.y + 1,
        in_i32(r.0@),
        in_i32(r.1@),
{
    let (ax, bx, cx) = (a.x as i64 * ONE, b.x as i64 * ONE, c.x as i64 * ONE);
    let short_fx = edge_chain(a.y, ax, b.y, bx, c.y, cx);
    let long_fx = lerp(a.y, ax, c.y, cx);
    proof {
        let (lo, hi) = (i32::MIN * ONE, i32::MAX * ONE);
        lemma_lerp_within(a.y as int, ax as int, c.y as int, cx as int, lo, hi);
        lemma_chain_within(a.y as int, ax as int, b.y as int, bx as int, c.y as int, cx as int, lo, hi);
    }
    let short = pixels_of(&short_fx);
    let long = pixels_of(&long_fx);
    let (dxc, dyb) = (c.x as i128 - a.x as i128, b.y as i128 - a.y as i128);
    let (dxb, dyc) = (b.x as i128 - a.x as i128, c.y as i128 - a.y as i128);
    proof {
        assert(-0x2_0000_0000 * 0x2_0000_0000 <= dxc * dyb <= 0x2_0000_0000 * 0x2_0000_0000) by (nonlinear_arith)
            requires
                -0x2_0000_0000 <= dxc <= 0x2_0000_0000,
                -0x2_0000_0000 <= dyb <= 0x2_0000_0000,
        ;
        assert(-0x2_0000_0000 * 0x2_0000_0000 <= dxb * dyc <= 0x2_0000_0000 * 0x2_0000_0000) by (nonlinear_arith)
            requires
                -0x2_0000_0000 <= dxb <= 0x2_0000_0000,
                -0x2_0000_0000 <= dyc <= 0x2_0000_0000,
        ;
    }
    let long_left = dxc * dyb < dxb * dyc;
    if long_left {
        (long, short, long_left)
    } else {
        (short, long, long_left)
    }
}

/// The pixels of a filled triangle: its scanlines, then its outline.
pub open spec fn filled_pixels(p0: Point, p1: Point, p2: Point, outline: Color, fill: Color) -> Seq<Pixel> {
    let (a, b, c) = sort3((p0, ()), (p1, ()), (p2, ()));
    let (a, b, c) = (a.0, b.0, c.0);
    let (left, right) = x_sides(a, b, c);
    rows(a.y as int, (c.y - a.y) as nat, left, right, flat(fill)) + triangle_pixels(a, b, c, outline)
}

/// Fills a triangle with `fill`, then strokes its outline with `outline`.
/// The scanlines run from the top vertex's row to the row above the bottom
/// vertex (the bottom row is left to the outline), each from its left
/// boundary inclusive to its right boundary exclusive.
pub fn draw_filled_triangle(
    canvas: &mut Vec<Pixel>,
    p0: Point,
    p1: Point,
    p2: Point,
    outline_color: Color,
    fill_color: Color,
)
    ensures
        final(canvas)@ == old(canvas)@ + filled_pixels(p0, p1, p2, outline_color, fill_color),
{
    let ghost start = canvas@;
    let (a, b, c) = sort_by_y((p0, ()), (p1, ()), (p2, ()));
    let (p0, p1, p2) = (a.0, b.0, c.0);
    let (left, right, _) = x_edges(p0, p1, p2);
    let shading = Shading::Flat(fill_color);
    fill_scanlines(canvas, p0.y, (p2.y as i64 - p0.y as i64) as usize, &left, &right, &shading);
    let ghost mid = canvas@;
    draw_triangle(canvas, p0, p1, p2, outline_color);
    assert(canvas@ =~= start + filled_pixels(a.0, b.0, c.0, outline_color, fill_color)) by {
        assert(mid == start + rows(p0.y as int, (p2.y - p0.y) as nat, left@, right@, flat(fill_color)));
    }
}

pub open spec fn xy(v: Xyh) -> Point {
    Point { x: v.x, y: v.y }
}

/// The pixels of a shaded triangle: each scanline carries an intensity
/// interpolated down the edges from the vertices' intensities, then across.
pub open spec fn shaded_pixels(p0: Xyh, p1: Xyh, p2: Xyh, base: Color) -> Seq<Pixel> {
    let (a, b, c) = sort3((xy(p0), p0.h), (xy(p1), p1.h), (xy(p2), p2.h));
    let (pa, pb, pc) = (a.0, b.0, c.0);
    let (left, right) = x_sides(pa, pb, pc);
    let (hl, hr) = pick(
        left_is_long(pa, pb, pc),
        lerp_seq(pa.y as int, a.1 as int, pc.y as int, c.1 as int),
        chain(pa.y as int, a.1 as int, pb.y as int, b.1 as int, pc.y as int, c.1 as int),
    );
    rows(pa.y as int, (pc.y - pa.y) as nat, left, right, intensity(base, left, right, hl, hr))
}

/// Fills a triangle with `colorbase` scaled per pixel by an intensity
/// interpolated from the vertices' `h`.
pub fn draw_shaded_triangle(canvas: &mut Vec<Pixel>, p0: Xyh, p1: Xyh, p2: Xyh, colorbase: Color)
    ensures
        final(canvas)@ == old(canvas)@ + shaded_pixels(p0, p1, p2, colorbase),
{
    let ghost start = canvas@;
    let (a, b, c) = sort_by_y(
        (Point { x: p0.x, y: p0.y }, p0.h),
        (Point { x: p1.x, y: p1.y }, p1.h),
        (Point { x: p2.x, y: p2.y }, p2.h),
    );
    let (left, right, long_left) = x_edges(a.0, b.0, c.0);
    let short_h = edge_chain(a.0.y, a.1, b.0.y, b.1, c.0.y, c.1);
    let long_h = lerp(a.0.y, a.1, c.0.y, c.1);
    let (hl, hr) = if long_left {
        (long_h, short_h)
    } else {
        (short_h, long_h)
    };
    let ghost (hls, hrs) = (hl@, hr@);
    let shading = Shading::Intensity { base: colorbase, hl, hr };
    fill_scanlines(canvas, a.0.y, (c.0.y as i64 - a.0.y as i64) as usize, &left, &right, &shading);
    assert(canvas@ =~= start + shaded_pixels(p0, p1, p2, colorbase));
}

/// The pixels of a triangle with a color per vertex: each channel is
/// interpolated exactly down the edges, then across each scanline, and
/// rounded down once per pixel.
pub open spec fn multishade_pixels(p0: Point, p1: Point, p2: Point, c0: Color, c1: Color, c2: Color) -> Seq<Pixel> {
    let (a, b, c) = sort3((p0, c0), (p1, c1), (p2, c2));
    let (pa, pb, pc) = (a.0, b.0, c.0);
    let (left, right) = x_sides(pa, pb, pc);
    rows(
        pa.y as int,
        (pc.y - pa.y) as nat,
        left,
        right,
        gradient(left_is_long(pa, pb, pc), pa.y as int, pb.y as int, pc.y as int, a.1, b.1, c.1, left, right),
    )
}

/// Fills a triangle whose color is interpolated channel by channel from a
/// color at each vertex.
pub fn draw_multishade_triangle(
    canvas: &mut Vec<Pixel>,
    p0: Point,
    p1: Point,
    p2: Point,
    c0: Color,
    c1: Color,
    c2: Color,
)
    ensures
        final(canvas)@ == old(canvas)@ + multishade_pixels(p0, p1, p2, c0, c1, c2),
{
    let ghost start = canvas@;
    let (a, b, c) = sort_by_y((p0, c0), (p1, c1), (p2, c2));
    let (left, right, long_left) = x_edges(a.0, b.0, c.0);
    let (ya, yb, yc) = (a.0.y, b.0.y, c.0.y);
    let shading = Shading::Gradient { long_left, ya, yb, yc, ca: a.1, cb: b.1, cc: c.1 };
    fill_scanlines(canvas, ya, (yc as i64 - ya as i64) as usize, &left, &right, &shading);
    assert(canvas@ =~= start + multishade_pixels(p0, p1, p2, c0, c1, c2));
}

pub open spec fn dimmer(c: Color, base: Color) -> bool {
    c.r <= base.r && c.g <= base.g && c.b <= base.b
}

/// An intensity between zero and one never brightens a channel, and an
/// intensity of exactly one keeps it.
pub proof fn lemma_shade_channel(c: u8, h: int)
    ensures
        0 <= h <= ONE ==> shade_channel(c, h) <= c,
        h == ONE ==> shade_channel(c, h) == c,
{
    if 0 <= h <= ONE {
        assert(0 <= c as int * h <= c as int * ONE) by (nonlinear_arith)
            requires
                0 <= h <= ONE,
                0 <= c,
        ;
        vstd::arithmetic::div_mod::lemma_div_is_ordered(c as int * h, c as int * ONE, ONE as int);
        vstd::arithmetic::div_mod::lemma_div_pos_is_pos(c as int * h, ONE as int);
        vstd::arithmetic::div_mod::lemma_div_by_multiple(c as int, ONE as int);
    }
}

proof fn lemma_rows_dimmer(y0: int, n: nat, left: Seq<i64>, right: Seq<i64>, f: spec_fn(int, int) -> Color, base: Color)
    requires
        n <= left.len(),
        n <= right.len(),
        forall|i: int, x: int| 0 <= i < n && left[i] <= x < right[i] ==> dimmer(#[trigger] f(i, x), base),
    ensures
        forall|j: int| 0 <= j < rows(y0, n, left, right, f).len() ==> dimmer(#[trigger] rows(y0, n, left, right, f)[j].color, base),
    decreases n,
{
    if n > 0 {
        lemma_rows_dimmer(y0, (n - 1) as nat, left, right, f, base);
        let prev = rows(y0, (n - 1) as nat, left, right, f);
        let last = span(y0 + n - 1, left[n - 1] as int, right[n - 1] as int, n - 1, f);
        assert forall|j: int| 0 <= j < rows(y0, n, left, right, f).len() implies dimmer(#[trigger] rows(y0, n, left, right, f)[j].color, base) by {
            if j >= prev.len() {
                let k = j - prev.len();
                assert(rows(y0, n, left, right, f)[j] == last[k]);
                assert(f(n - 1, left[n - 1] + k) == last[k].color);
            } else {
                assert(rows(y0, n, left, right, f)[j] == prev[j]);
            }
        }
    }
}

/// Shading never exceeds the base color: when every vertex intensity lies
/// between zero and one, each channel of each pixel of a shaded triangle is
/// at most the base color's channel.
pub proof fn lemma_shaded_within_base(p0: Xyh, p1: Xyh, p2: Xyh, base: Color)
    requires
        0 <= p0.h <= ONE,
        0 <= p1.h <= ONE,
        0 <= p2.h <= ONE,
    ensures
        forall|j: int| 0 <= j < shaded_pixels(p0, p1, p2, base).len() ==> dimmer(#[trigger] shaded_pixels(p0, p1, p2, base)[j].color, base),
{
    let (a, b, c) = sort3((xy(p0), p0.h), (xy(p1), p1.h), (xy(p2), p2.h));
    let (pa, pb, pc) = (a.0, b.0, c.0);
    let (left, right) = x_sides(pa, pb, pc);
    let long_h = lerp_seq(pa.y as int, a.1 as int, pc.y as int, c.1 as int);
    let short_h = chain(pa.y as int, a.1 as int, pb.y as int, b.1 as int, pc.y as int, c.1 as int);
    let (hl, hr) = pick(left_is_long(pa, pb, pc), long_h, short_h);
    let f = intensity(base, left, right, hl, hr);
    let n = (pc.y - pa.y) as nat;
    lemma_lerp_within(pa.y as int, a.1 as int, pc.y as int, c.1 as int, 0, ONE as int);
    lemma_chain_within(pa.y as int, a.1 as int, pb.y as int, b.1 as int, pc.y as int, c.1 as int, 0, ONE as int);
    assert(long_h.len() == n + 1 && short_h.len() == n + 1);
    assert(x_long(pa, pc).len() == n + 1 && x_short(pa, pb, pc).len() == n + 1);
    assert forall|i: int, x: int| 0 <= i < n && left[i] <= x < right[i] implies dimmer(#[trigger] f(i, x), base) by {
        assert(0 <= hl[i] <= ONE && 0 <= hr[i] <= ONE);
        let seg = lerp_seq(left[i] as int, hl[i] as int, right[i] as int, hr[i] as int);
        lemma_lerp_within(left[i] as int, hl[i] as int, right[i] as int, hr[i] as int, 0, ONE as int);
        let h = seg[x - left[i]] as int;
        assert(0 <= h <= ONE);
        lemma_shade_channel(base.r, h);
        lemma_shade_channel(base.g, h);
        lemma_shade_channel(base.b, h);
    }
    lemma_rows_dimmer(pa.y as int, n, left, right, f, base);
}

/// Full intensity reproduces the base color: where a scanline's left end has
/// intensity one, the pixel written there has exactly the base color.
pub proof fn lemma_full_intensity(base: Color, left: Seq<i64>, right: Seq<i64>, hl: Seq<i64>, hr: Seq<i64>, i: int)
    requires
        0 <= i < left.len(),
        i < right.len(),
        i < hl.len(),
        i < hr.len(),
        left[i] < right[i],
        hl[i] == ONE,
    ensures
        (intensity(base, left, right, hl, hr))(i, left[i] as int) == base,
{
    let d = right[i] - left[i];
    crate::math::lemma_interp_bounds(ONE as int, hr[i] as int, 0, d);
    lemma_shade_channel(base.r, ONE as int);
    lemma_shade_channel(base.g, ONE as int);
    lemma_shade_channel(base.b, ONE as int);
}

} // verus!
