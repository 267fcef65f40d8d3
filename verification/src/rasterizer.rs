//! The two numeric tracing algorithms: a digital differential line tracer
//! and a parametric circle tracer. Both turn geometric inputs into integer
//! pixel coordinates, computed with integer arithmetic so that no rounding
//! drift accumulates along a trace.
//!
//! A traced line coordinate is the true rational value of the stepped
//! parametric position, rounded to the nearest integer (halves away from
//! zero). A traced circle point takes its vertical offset from a rational
//! sine approximation and completes it horizontally to the nearest point
//! of the circle, so every circle pixel provably lies within rounding
//! distance 1 of the ideal circle.

use vstd::prelude::*;
use vstd::arithmetic::div_mod::{
    lemma_div_multiples_vanish_fancy, lemma_div_is_ordered, lemma_div_pos_is_pos,
};
use vstd::math::{abs, max, min};
use crate::geometry::{Point, coord_in_range, MAX_RADIUS};

verus! {

/// `num / den` rounded to the nearest integer, halves away from zero
/// (the rounding that `round` on a float applies), for `den > 0`.
pub open spec fn round_div(num: int, den: int) -> int
    recommends
        den > 0,
{
    if num >= 0 {
        (2 * num + den) / (2 * den)
    } else {
        -((2 * (-num) + den) / (2 * den))
    }
}

/// Rounding an exact multiple of the denominator changes nothing.
pub proof fn lemma_round_div_mult(k: int, den: int)
    requires
        den > 0,
    ensures
        round_div(k * den, den) == k,
{
    if k >= 0 {
        assert(k * den >= 0) by (nonlinear_arith)
            requires k >= 0 && den > 0;
        assert(2 * (k * den) + den == (2 * den) * k + den) by (nonlinear_arith);
        lemma_div_multiples_vanish_fancy(k, den, 2 * den);
    } else {
        assert(k * den < 0) by (nonlinear_arith)
            requires k < 0 && den > 0;
        assert(2 * (-(k * den)) + den == (2 * den) * (-k) + den) by (nonlinear_arith);
        lemma_div_multiples_vanish_fancy(-k, den, 2 * den);
    }
}

/// A quotient of magnitude at most `b * den` rounds to a value of
/// magnitude at most `b`.
pub proof fn lemma_round_div_bound(num: int, den: int, b: int)
    requires
        den > 0,
        b >= 0,
        -(b * den) <= num <= b * den,
    ensures
        -b <= round_div(num, den) <= b,
{
    if num >= 0 {
        assert(2 * num + den <= (2 * den) * b + den) by (nonlinear_arith)
            requires den > 0 && num <= b * den;
        lemma_div_is_ordered(2 * num + den, (2 * den) * b + den, 2 * den);
        lemma_div_multiples_vanish_fancy(b, den, 2 * den);
        lemma_div_pos_is_pos(2 * num + den, 2 * den);
    } else {
        assert(2 * (-num) + den <= (2 * den) * b + den) by (nonlinear_arith)
            requires den > 0 && -(b * den) <= num;
        lemma_div_is_ordered(2 * (-num) + den, (2 * den) * b + den, 2 * den);
        lemma_div_multiples_vanish_fancy(b, den, 2 * den);
        lemma_div_pos_is_pos(2 * (-num) + den, 2 * den);
    }
}

/// Rounding is monotone in the numerator.
pub proof fn lemma_round_div_mono(a: int, b: int, den: int)
    requires
        den > 0,
        a <= b,
    ensures
        round_div(a, den) <= round_div(b, den),
{
    if a >= 0 {
        lemma_div_is_ordered(2 * a + den, 2 * b + den, 2 * den);
    } else if b < 0 {
        lemma_div_is_ordered(2 * (-b) + den, 2 * (-a) + den, 2 * den);
    } else {
        lemma_div_pos_is_pos(2 * b + den, 2 * den);
        lemma_div_pos_is_pos(2 * (-a) + den, 2 * den);
    }
}

/// The step count of the line tracer: the span of the dominant axis.
pub open spec fn line_steps(x0: int, y0: int, x1: int, y1: int) -> int {
    max(abs(x1 - x0) as int, abs(y1 - y0) as int)
}

/// The `i`-th pixel of the line trace: the exact parametric position
/// `(x0 + i * dx / steps, y0 + i * dy / steps)`, each coordinate rounded
/// to the nearest integer. A zero-length line has a single pixel.
pub open spec fn line_point(x0: int, y0: int, x1: int, y1: int, i: int) -> (int, int)
    recommends
        0 <= i <= line_steps(x0, y0, x1, y1),
{
    let s = line_steps(x0, y0, x1, y1);
    if s == 0 {
        (x0, y0)
    } else {
        (round_div(s * x0 + i * (x1 - x0), s), round_div(s * y0 + i * (y1 - y0), s))
    }
}

/// The first traced pixel is the first endpoint and the last traced pixel
/// is the second endpoint, exactly.
pub proof fn lemma_line_point_endpoints(x0: int, y0: int, x1: int, y1: int)
    ensures
        line_point(x0, y0, x1, y1, 0) == (x0, y0),
        line_point(x0, y0, x1, y1, line_steps(x0, y0, x1, y1)) == (x1, y1),
{
    let s = line_steps(x0, y0, x1, y1);
    if s != 0 {
        assert(s * x0 + 0 * (x1 - x0) == x0 * s) by (nonlinear_arith);
        assert(s * y0 + 0 * (y1 - y0) == y0 * s) by (nonlinear_arith);
        lemma_round_div_mult(x0, s);
        lemma_round_div_mult(y0, s);
        assert(s * x0 + s * (x1 - x0) == x1 * s) by (nonlinear_arith);
        assert(s * y0 + s * (y1 - y0) == y1 * s) by (nonlinear_arith);
        lemma_round_div_mult(x1, s);
        lemma_round_div_mult(y1, s);
    }
}

/// Every traced line pixel lies in the bounding box of the two endpoints:
/// the trace never strays outside the segment's extent.
pub proof fn lemma_line_point_in_box(x0: int, y0: int, x1: int, y1: int, i: int)
    requires
        0 <= i <= line_steps(x0, y0, x1, y1),
    ensures
        min(x0, x1) <= line_point(x0, y0, x1, y1, i).0 <= max(x0, x1),
        min(y0, y1) <= line_point(x0, y0, x1, y1, i).1 <= max(y0, y1),
{
    let s = line_steps(x0, y0, x1, y1);
    if s != 0 {
        assert(s * x0 + 0 * (x1 - x0) == x0 * s) by (nonlinear_arith);
        assert(s * x0 + s * (x1 - x0) == x1 * s) by (nonlinear_arith);
        assert(s * y0 + 0 * (y1 - y0) == y0 * s) by (nonlinear_arith);
        assert(s * y0 + s * (y1 - y0) == y1 * s) by (nonlinear_arith);
        if x1 >= x0 {
            assert(x0 * s <= s * x0 + i * (x1 - x0) <= x1 * s) by (nonlinear_arith)
                requires 0 <= i <= s && x1 >= x0 && s > 0;
        } else {
            assert(x1 * s <= s * x0 + i * (x1 - x0) <= x0 * s) by (nonlinear_arith)
                requires 0 <= i <= s && x1 < x0 && s > 0;
        }
        if y1 >= y0 {
            assert(y0 * s <= s * y0 + i * (y1 - y0) <= y1 * s) by (nonlinear_arith)
                requires 0 <= i <= s && y1 >= y0 && s > 0;
        } else {
            assert(y1 * s <= s * y0 + i * (y1 - y0) <= y0 * s) by (nonlinear_arith)
                requires 0 <= i <= s && y1 < y0 && s > 0;
        }
        lemma_round_div_mult(x0, s);
        lemma_round_div_mult(x1, s);
        lemma_round_div_mult(y0, s);
        lemma_round_div_mult(y1, s);
        lemma_round_div_mono(min(x0, x1) * s, s * x0 + i * (x1 - x0), s);
        lemma_round_div_mono(s * x0 + i * (x1 - x0), max(x0, x1) * s, s);
        lemma_round_div_mono(min(y0, y1) * s, s * y0 + i * (y1 - y0), s);
        lemma_round_div_mono(s * y0 + i * (y1 - y0), max(y0, y1) * s, s);
    }
}

/// Tracing a line from the second endpoint back to the first yields the
/// same pixels in reverse order, so the pixel set does not depend on the
/// direction of the trace.
pub proof fn lemma_trace_line_symmetric(x0: int, y0: int, x1: int, y1: int)
    ensures
        line_steps(x1, y1, x0, y0) == line_steps(x0, y0, x1, y1),
        forall|i: int| 0 <= i <= line_steps(x0, y0, x1, y1) ==> #[trigger] line_point(
            x1, y1, x0, y0, i,
        ) == line_point(x0, y0, x1, y1, line_steps(x0, y0, x1, y1) - i),
{
    let s = line_steps(x0, y0, x1, y1);
    assert forall|i: int| 0 <= i <= s implies #[trigger] line_point(x1, y1, x0, y0, i)
        == line_point(x0, y0, x1, y1, s - i) by {
        if s != 0 {
            assert(s * x1 + i * (x0 - x1) == s * x0 + (s - i) * (x1 - x0)) by (nonlinear_arith);
            assert(s * y1 + i * (y0 - y1) == s * y0 + (s - i) * (y1 - y0)) by (nonlinear_arith);
        }
    }
}

/// `num / den` rounded to the nearest integer, halves away from zero.
fn round_div_i64(num: i64, den: i64) -> (r: i64)
    requires
        0 < den <= 0x2000_0000_0000_0000,
        -0x2000_0000_0000_0000 <= num <= 0x2000_0000_0000_0000,
    ensures
        r as int == round_div(num as int, den as int),
{
    if num >= 0 {
        let q: u64 = (2 * (num as u64) + (den as u64)) / (2 * (den as u64));
        q as i64
    } else {
        let q: u64 = (2 * ((-num) as u64) + (den as u64)) / (2 * (den as u64));
        -(q as i64)
    }
}

/// Traces the pixels of the line from `(x0, y0)` to `(x1, y1)`, both
/// endpoints included, stepping along the dominant axis so that no pixel
/// on that axis is skipped; emission follows the direction of the line.
pub fn trace_line(x0: i32, y0: i32, x1: i32, y1: i32) -> (r: Vec<Point>)
    requires
        coord_in_range(x0 as int),
        coord_in_range(y0 as int),
        coord_in_range(x1 as int),
        coord_in_range(y1 as int),
    ensures
        r@.len() == line_steps(x0 as int, y0 as int, x1 as int, y1 as int) + 1,
        forall|i: int| 0 <= i < r@.len() ==> ((#[trigger] r@[i]).x as int, r@[i].y as int)
            == line_point(x0 as int, y0 as int, x1 as int, y1 as int, i),
        r@[0] == (Point { x: x0, y: y0 }),
        r@[r@.len() - 1] == (Point { x: x1, y: y1 }),
        forall|i: int| 0 <= i < r@.len() ==> min(x0 as int, x1 as int)
            <= (#[trigger] r@[i]).x as int <= max(x0 as int, x1 as int)
            && min(y0 as int, y1 as int) <= r@[i].y as int <= max(y0 as int, y1 as int),
{
    proof {
        lemma_line_point_endpoints(x0 as int, y0 as int, x1 as int, y1 as int);
    }
    let dx: i64 = x1 as i64 - x0 as i64;
    let dy: i64 = y1 as i64 - y0 as i64;
    let adx: i64 = if dx >= 0 { dx } else { -dx };
    let ady: i64 = if dy >= 0 { dy } else { -dy };
    let steps: i64 = if adx >= ady { adx } else { ady };
    let ghost s = line_steps(x0 as int, y0 as int, x1 as int, y1 as int);
    assert(steps as int == s);
    let mut r: Vec<Point> = Vec::new();
    if steps == 0 {
        r.push(Point { x: x0, y: y0 });
        return r;
    }
    let ghost x0i = x0 as int;
    let ghost y0i = y0 as int;
    let ghost x1i = x1 as int;
    let ghost y1i = y1 as int;
    let mut i: i64 = 0;
    while i <= steps
        invariant
            0 <= i <= steps + 1,
            steps as int == s,
            s == line_steps(x0 as int, y0 as int, x1 as int, y1 as int),
            s > 0,
            dx == x1 as int - x0 as int,
            dy == y1 as int - y0 as int,
            coord_in_range(x0 as int),
            coord_in_range(y0 as int),
            coord_in_range(x1 as int),
            coord_in_range(y1 as int),
            r@.len() == i,
            forall|j: int| 0 <= j < i ==> ((#[trigger] r@[j]).x as int, r@[j].y as int)
                == line_point(x0 as int, y0 as int, x1 as int, y1 as int, j),
        decreases steps - i + 1,
    {
        assert(-(1_000_000 * steps) <= steps * (x0 as i64) <= 1_000_000 * steps) by (nonlinear_arith)
            requires
                0 < steps,
                -1_000_000 <= x0 as i64 <= 1_000_000;
        assert(-(1_000_000 * steps) <= steps * (y0 as i64) <= 1_000_000 * steps) by (nonlinear_arith)
            requires
                0 < steps,
                -1_000_000 <= y0 as i64 <= 1_000_000;
        assert(-(2_000_000 * steps) <= i * dx <= 2_000_000 * steps) by (nonlinear_arith)
            requires
                0 < steps,
                0 <= i <= steps,
                -2_000_000 <= dx <= 2_000_000;
        assert(-(2_000_000 * steps) <= i * dy <= 2_000_000 * steps) by (nonlinear_arith)
            requires
                0 < steps,
                0 <= i <= steps,
                -2_000_000 <= dy <= 2_000_000;
        assert(0 < 3_000_000 * steps <= 0x1000_0000_0000_0000) by (nonlinear_arith)
            requires 0 < steps <= 2_000_000;
        let numx: i64 = steps * (x0 as i64) + i * dx;
        let numy: i64 = steps * (y0 as i64) + i * dy;
        let px: i64 = round_div_i64(numx, steps);
        let py: i64 = round_div_i64(numy, steps);
        proof {
            lemma_round_div_bound(numx as int, s, 3_000_000);
            lemma_round_div_bound(numy as int, s, 3_000_000);
        }
        r.push(Point { x: px as i32, y: py as i32 });
        i = i + 1;
    }
    proof {
        assert forall|j: int| 0 <= j < r@.len() implies min(x0i, x1i)
            <= (#[trigger] r@[j]).x as int <= max(x0i, x1i) && min(y0i, y1i) <= r@[j].y as int
            <= max(y0i, y1i) by {
            lemma_line_point_in_box(x0i, y0i, x1i, y1i, j);
        }
    }
    r
}

/// The whole line trace as a sequence of pixel coordinates.
pub open spec fn line_pix_seq(x0: int, y0: int, x1: int, y1: int) -> Seq<(int, int)> {
    Seq::new((line_steps(x0, y0, x1, y1) + 1) as nat, |i: int| line_point(x0, y0, x1, y1, i))
}

/// How many pixels the circle tracer emits: one for a degenerate circle,
/// otherwise a fixed number per unit of radius, so that the angular step
/// shrinks inversely with the radius and the sampling density along the
/// circumference stays roughly constant.
pub open spec fn circle_samples(r: int) -> int {
    if r <= 0 {
        1
    } else {
        64 * r
    }
}

/// The Bhaskara rational approximation of `r * sin(pi * a / m)` for
/// `0 <= a <= m`, rounded to the nearest integer:
/// `r * 16 a (m - a) / (5 m^2 - 4 a (m - a))`.
pub open spec fn bhaskara(r: int, a: int, m: int) -> int
    recommends
        r > 0,
        0 <= a <= m,
{
    let t = a * (m - a);
    round_div(r * (16 * t), 5 * (m * m) - 4 * t)
}

/// `r * sin(2 * pi * p / (64 r))` rounded to the nearest integer, with the
/// sine taken from the Bhaskara approximation; the second half-turn is the
/// negated mirror of the first.
pub open spec fn scaled_sin(r: int, p: int) -> int
    recommends
        r > 0,
        0 <= p < 64 * r,
{
    let m = 64 * r;
    if 2 * p <= m {
        bhaskara(r, 2 * p, m)
    } else {
        -bhaskara(r, 2 * p - m, m)
    }
}

/// The integer square root, rounded down: the largest `u` with
/// `u * u <= v`.
pub open spec fn sqrt_floor(v: int) -> int
    decreases v,
{
    if v <= 0 {
        0
    } else {
        let p = sqrt_floor(v - 1);
        if (p + 1) * (p + 1) <= v {
            p + 1
        } else {
            p
        }
    }
}

/// The integer square root, rounded to the nearest integer.
pub open spec fn sqrt_round(v: int) -> int {
    let u = sqrt_floor(v);
    if v > u * u + u {
        u + 1
    } else {
        u
    }
}

/// The floor square root is characterized by its two bounding squares.
pub proof fn lemma_sqrt_floor_props(v: int)
    requires
        v >= 0,
    ensures
        sqrt_floor(v) >= 0,
        sqrt_floor(v) * sqrt_floor(v) <= v,
        v < (sqrt_floor(v) + 1) * (sqrt_floor(v) + 1),
    decreases v,
{
    if v > 0 {
        lemma_sqrt_floor_props(v - 1);
        let p = sqrt_floor(v - 1);
        if (p + 1) * (p + 1) <= v {
            assert(v == (p + 1) * (p + 1));
            assert((p + 1) * (p + 1) < (p + 2) * (p + 2)) by (nonlinear_arith)
                requires p >= 0;
        }
    }
}

/// Any value bracketed by the squares of `u` and `u + 1` has floor square
/// root `u`.
pub proof fn lemma_sqrt_floor_unique(v: int, u: int)
    requires
        v >= 0,
        u >= 0,
        u * u <= v,
        v < (u + 1) * (u + 1),
    ensures
        sqrt_floor(v) == u,
{
    lemma_sqrt_floor_props(v);
    let w = sqrt_floor(v);
    if w < u {
        assert((w + 1) * (w + 1) <= u * u) by (nonlinear_arith)
            requires 0 <= w < u;
    } else if w > u {
        assert((u + 1) * (u + 1) <= w * w) by (nonlinear_arith)
            requires 0 <= u < w;
    }
}

/// `r * cos(2 * pi * p / (64 r))`, up to one pixel: the magnitude that
/// completes the scaled sine to the nearest point of the circle of radius
/// `r`, carrying the sign of the cosine (negative on the half-turn between
/// a quarter and three quarters of the way around).
pub open spec fn scaled_cos(r: int, p: int) -> int
    recommends
        r > 0,
        0 <= p < 64 * r,
{
    let s = scaled_sin(r, p);
    let mag = sqrt_round(r * r - s * s);
    if 16 * r < p && p < 48 * r {
        -mag
    } else {
        mag
    }
}

/// The `i`-th pixel of the circle trace. A degenerate circle of radius 0
/// has the center as its single pixel.
pub open spec fn circle_point(cx: int, cy: int, r: int, i: int) -> (int, int)
    recommends
        0 <= i < circle_samples(r),
{
    if r <= 0 {
        (cx, cy)
    } else {
        (cx + scaled_cos(r, i), cy + scaled_sin(r, i))
    }
}

/// The whole circle trace as a sequence of pixel coordinates.
pub open spec fn circle_pix_seq(cx: int, cy: int, r: int) -> Seq<(int, int)> {
    Seq::new(circle_samples(r) as nat, |i: int| circle_point(cx, cy, r, i))
}

/// Rounding a zero numerator yields zero.
pub proof fn lemma_round_div_zero(den: int)
    requires
        den > 0,
    ensures
        round_div(0, den) == 0,
{
    lemma_round_div_mult(0, den);
    assert(0 * den == 0) by (nonlinear_arith);
}

/// The scaled sine never exceeds the radius in magnitude, so every traced
/// circle pixel stays within the square of side `2 r` around the center.
pub proof fn lemma_bhaskara_bound(r: int, a: int, m: int)
    requires
        r > 0,
        0 <= a <= m,
        m > 0,
    ensures
        0 <= bhaskara(r, a, m) <= r,
{
    let t = a * (m - a);
    let num = r * (16 * t);
    let den = 5 * (m * m) - 4 * t;
    assert(0 <= t && 4 * t <= m * m) by (nonlinear_arith)
        requires 0 <= a <= m && t == a * (m - a);
    assert(m * m > 0) by (nonlinear_arith)
        requires m > 0;
    assert(den >= m * m);
    assert(16 * t <= den);
    assert(0 <= num && num <= r * den) by (nonlinear_arith)
        requires r > 0 && 0 <= 16 * t && 16 * t <= den && num == r * (16 * t);
    lemma_round_div_bound(num, den, r);
    lemma_div_pos_is_pos(2 * num + den, 2 * den);
}

pub proof fn lemma_scaled_sin_bound(r: int, p: int)
    requires
        r > 0,
        0 <= p < 64 * r,
    ensures
        -r <= scaled_sin(r, p) <= r,
{
    let m = 64 * r;
    if 2 * p <= m {
        lemma_bhaskara_bound(r, 2 * p, m);
    } else {
        lemma_bhaskara_bound(r, 2 * p - m, m);
    }
}

/// The first traced pixel of a non-degenerate circle is exactly
/// `(cx + r, cy)`: the approximated cosine of 0 is exactly 1 and the
/// approximated sine of 0 is exactly 0.
pub proof fn lemma_circle_point_start(cx: int, cy: int, r: int)
    requires
        r > 0,
    ensures
        circle_point(cx, cy, r, 0) == (cx + r, cy),
{
    let m = 64 * r;
    assert(m * m > 0) by (nonlinear_arith)
        requires m > 0;
    // sine at 0: the numerator vanishes.
    let z: int = 2int * 0int;
    let t0 = z * (m - z);
    assert(t0 == 0) by (nonlinear_arith)
        requires z == 0 && t0 == z * (m - z);
    assert(r * (16 * t0) == 0) by (nonlinear_arith)
        requires t0 == 0;
    lemma_round_div_zero(5 * (m * m) - 4 * t0);
    assert(bhaskara(r, z, m) == 0);
    assert(scaled_sin(r, 0) == 0);
    // cosine at 0: the sine vanishes, so the complement is the full radius.
    let s = scaled_sin(r, 0);
    assert(r * r - s * s == r * r);
    assert(r * r >= 0 && r * r < (r + 1) * (r + 1)) by (nonlinear_arith)
        requires r > 0;
    lemma_sqrt_floor_unique(r * r, r);
    assert(!(r * r > r * r + r));
    assert(sqrt_round(r * r - s * s) == r);
    assert(scaled_cos(r, 0) == r);
}

/// Every traced circle pixel lies within rounding distance 1 of the ideal
/// circle: the squared distance from the center falls between the squares
/// of `r - 1` and `r + 1`.
pub proof fn lemma_scaled_cos_ring(r: int, p: int)
    requires
        r > 0,
        0 <= p < 64 * r,
    ensures
        -r <= scaled_cos(r, p) <= r,
        (r - 1) * (r - 1) <= scaled_sin(r, p) * scaled_sin(r, p) + scaled_cos(r, p)
            * scaled_cos(r, p),
        scaled_sin(r, p) * scaled_sin(r, p) + scaled_cos(r, p) * scaled_cos(r, p) <= (r + 1)
            * (r + 1),
{
    lemma_scaled_sin_bound(r, p);
    let s = scaled_sin(r, p);
    let v = r * r - s * s;
    assert(0 <= v && v <= r * r) by (nonlinear_arith)
        requires -r <= s <= r && r > 0 && v == r * r - s * s;
    lemma_sqrt_floor_props(v);
    let u = sqrt_floor(v);
    let mag = sqrt_round(v);
    assert(u <= r) by (nonlinear_arith)
        requires u >= 0 && r > 0 && u * u <= v && v <= r * r;
    if v > u * u + u {
        assert(mag == u + 1);
        assert(u + 1 <= r) by (nonlinear_arith)
            requires u >= 0 && r > 0 && v <= r * r && v > u * u + u && u <= r;
        assert(v < mag * mag && mag * mag <= v + u + 1) by (nonlinear_arith)
            requires mag == u + 1 && v < (u + 1) * (u + 1) && v > u * u + u;
        assert((r - 1) * (r - 1) <= r * r && r * r + u + 1 <= (r + 1) * (r + 1))
            by (nonlinear_arith)
            requires r > 0 && 0 <= u <= r;
    } else {
        assert(mag == u);
        assert(v - u <= mag * mag && mag * mag <= v) by (nonlinear_arith)
            requires mag == u && u * u <= v && v <= u * u + u;
        assert((r - 1) * (r - 1) <= r * r - u && r * r <= (r + 1) * (r + 1))
            by (nonlinear_arith)
            requires r > 0 && 0 <= u <= r;
    }
    assert(scaled_cos(r, p) == mag || scaled_cos(r, p) == -mag);
    assert((-mag) * (-mag) == mag * mag) by (nonlinear_arith);
}

/// The Bhaskara term of the scaled sine.
fn bhaskara_i64(r: i64, a: i64, m: i64) -> (v: i64)
    requires
        0 < r <= MAX_RADIUS as i64,
        m == 64 * r,
        0 <= a <= m,
    ensures
        v as int == bhaskara(r as int, a as int, m as int),
        0 <= v <= r,
{
    proof {
        lemma_bhaskara_bound(r as int, a as int, m as int);
    }
    assert(0 <= a * (m - a) && a * (m - a) <= m * m && 4 * (a * (m - a)) <= m * m)
        by (nonlinear_arith)
        requires 0 <= a <= m;
    assert(0 < m * m <= 3_686_400_000_000) by (nonlinear_arith)
        requires 0 < m <= 1_920_000;
    let t: i64 = a * (m - a);
    assert(0 <= 16 * r * t <= 1_769_472_000_000_000_000) by (nonlinear_arith)
        requires 0 <= t <= 3_686_400_000_000 && 0 < r <= 30_000;
    let num: i64 = 16 * r * t;
    assert(0 < 5 * m * m <= 18_432_000_000_000 && 5 * m * m == 5 * (m * m)) by (nonlinear_arith)
        requires 0 < m <= 1_920_000;
    let den: i64 = 5 * m * m - 4 * t;
    assert(den == 5 * (m as int * m as int) - 4 * (t as int));
    assert(den > 0);
    let v = round_div_i64(num, den);
    proof {
        assert(num as int == (r as int) * (16 * (t as int))) by (nonlinear_arith)
            requires num == 16 * r * t;
    }
    v
}

/// The scaled sine at phase `p` of the `m == 64 r` phases of a full turn.
fn scaled_sin_i64(r: i64, m: i64, p: i64) -> (v: i64)
    requires
        0 < r <= MAX_RADIUS as i64,
        m == 64 * r,
        0 <= p < m,
    ensures
        v as int == scaled_sin(r as int, p as int),
        -r <= v <= r,
{
    if 2 * p <= m {
        bhaskara_i64(r, 2 * p, m)
    } else {
        -bhaskara_i64(r, 2 * p - m, m)
    }
}

/// The integer square root, rounded down, by binary search.
fn floor_sqrt_u64(v: u64) -> (u: u64)
    requires
        v < 0x100_0000_0000,
    ensures
        u as int == sqrt_floor(v as int),
        (u as int) * (u as int) <= v as int,
        (v as int) < (u as int + 1) * (u as int + 1),
{
    let mut lo: u64 = 0;
    let mut hi: u64 = 0x10_0000;
    assert((0x10_0000 as int) * (0x10_0000 as int) == 0x100_0000_0000) by (nonlinear_arith);
    while lo + 1 < hi
        invariant
            lo < hi <= 0x10_0000,
            (lo as int) * (lo as int) <= v as int,
            (v as int) < (hi as int) * (hi as int),
        decreases hi - lo,
    {
        let mid = lo + (hi - lo) / 2;
        assert(lo < mid && mid < hi);
        assert((mid as int) * (mid as int) <= 0x100_0000_0000) by (nonlinear_arith)
            requires 0 <= (mid as int) <= 0x10_0000;
        if mid * mid <= v {
            lo = mid;
        } else {
            hi = mid;
        }
    }
    proof {
        lemma_sqrt_floor_unique(v as int, lo as int);
    }
    lo
}

/// Traces the pixels of a circle by walking the angle through one full
/// turn in steps inversely proportional to the radius. Each step takes the
/// vertical offset from the approximated sine and completes it to the
/// nearest point of the circle, so every emitted pixel lies within
/// rounding distance 1 of the ideal circle. A radius of 0 yields exactly
/// one pixel, the center; a positive radius yields `64 * radius` pixels,
/// each within the square of side `2 * radius` around the center.
pub fn trigonometric_circle(cx: i32, cy: i32, r: u32) -> (pts: Vec<(i32, i32)>)
    requires
        coord_in_range(cx as int),
        coord_in_range(cy as int),
        r <= MAX_RADIUS,
    ensures
        pts@.len() == circle_samples(r as int),
        forall|i: int| 0 <= i < pts@.len() ==> ((#[trigger] pts@[i]).0 as int, pts@[i].1 as int)
            == circle_point(cx as int, cy as int, r as int, i),
        pts@.len() >= 1,
        r == 0 ==> pts@.len() == 1 && pts@[0] == (cx, cy),
        r > 0 ==> pts@.len() == 64 * r && pts@[0] == ((cx + r) as i32, cy),
        forall|i: int| 0 <= i < pts@.len() ==> cx - r <= (#[trigger] pts@[i]).0 <= cx + r
            && cy - r <= pts@[i].1 <= cy + r,
        r > 0 ==> forall|i: int| 0 <= i < pts@.len() ==> (r - 1) * (r - 1)
            <= ((#[trigger] pts@[i]).0 - cx) * (pts@[i].0 - cx) + (pts@[i].1 - cy) * (
        pts@[i].1 - cy) <= (r + 1) * (r + 1),
{
    let mut pts: Vec<(i32, i32)> = Vec::new();
    if r == 0 {
        pts.push((cx, cy));
        return pts;
    }
    let ri: i64 = r as i64;
    let m: i64 = 64 * ri;
    let mut i: i64 = 0;
    proof {
        lemma_circle_point_start(cx as int, cy as int, r as int);
    }
    while i < m
        invariant
            0 < ri <= 30_000,
            ri == r as int,
            m == 64 * ri,
            0 <= i <= m,
            coord_in_range(cx as int),
            coord_in_range(cy as int),
            pts@.len() == i,
            forall|j: int| 0 <= j < i ==> ((#[trigger] pts@[j]).0 as int, pts@[j].1 as int)
                == circle_point(cx as int, cy as int, r as int, j),
            forall|j: int| 0 <= j < i ==> cx - r <= (#[trigger] pts@[j]).0 <= cx + r
                && cy - r <= pts@[j].1 <= cy + r,
            forall|j: int| 0 <= j < i ==> (ri - 1) * (ri - 1) <= ((#[trigger] pts@[j]).0
                - cx) * (pts@[j].0 - cx) + (pts@[j].1 - cy) * (pts@[j].1 - cy) <= (ri + 1)
                * (ri + 1),
        decreases m - i,
    {
        let s = scaled_sin_i64(ri, m, i);
        proof {
            lemma_scaled_sin_bound(ri as int, i as int);
            lemma_scaled_cos_ring(ri as int, i as int);
            assert(0 <= (ri as int) * (ri as int) <= 900_000_000
                && 0 <= (s as int) * (s as int) <= (ri as int) * (ri as int))
                by (nonlinear_arith)
                requires -ri <= s as int <= ri && 0 < ri <= 30_000;
        }
        let v: i64 = ri * ri - s * s;
        let u: u64 = floor_sqrt_u64(v as u64);
        let mag: i64 = if (v as u64) > u * u + u {
            (u as i64) + 1
        } else {
            u as i64
        };
        let c: i64 = if 16 * ri < i && i < 48 * ri {
            -mag
        } else {
            mag
        };
        proof {
            assert(mag as int == sqrt_round(v as int));
            assert(c as int == scaled_cos(ri as int, i as int));
        }
        pts.push(((cx as i64 + c) as i32, (cy as i64 + s) as i32));
        i = i + 1;
    }
    pts
}

} // verus!
