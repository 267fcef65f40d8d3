//! Chaikin-style corner-cutting subdivision of an open polyline: one
//! non-destructive refinement pass that keeps both endpoints and replaces
//! every edge by two interpolated points at a quarter and three quarters
//! of the way along it.
//!
//! Coordinates live in a fixed-point integer plane (the caller picks the
//! scale); the quarter points are the exact rational values truncated
//! toward zero, so every emitted point stays between the endpoints of its
//! edge.

use vstd::prelude::*;
use vstd::arithmetic::div_mod::{
    lemma_div_pos_is_pos, lemma_div_nonincreasing, lemma_div_is_ordered,
    lemma_div_multiples_vanish, lemma_div_multiples_vanish_fancy, lemma_fundamental_div_mod,
};

verus! {

/// Largest coordinate magnitude the subdivision accepts; keeps the
/// interpolation arithmetic inside `i64`.
pub const SUB_MAX: i64 = 1_000_000_000_000_000;

/// A point of the subdivision plane, in fixed-point integer coordinates.
#[derive(Debug, Clone, Copy, PartialEq, Eq, Structural)]
pub struct Point {
    pub x: i64,
    pub y: i64,
}

impl Point {
    pub fn new(x: i64, y: i64) -> (r: Self)
        ensures
            r.x == x,
            r.y == y,
    {
        Self { x, y }
    }
}

/// True when a point is within the coordinate range the subdivision
/// accepts.
pub open spec fn sub_point_in_range(p: Point) -> bool {
    -SUB_MAX <= p.x <= SUB_MAX && -SUB_MAX <= p.y <= SUB_MAX
}

/// `d / 4` truncated toward zero.
pub open spec fn div4_trunc(d: int) -> int {
    if d >= 0 {
        d / 4
    } else {
        -((-d) / 4)
    }
}

/// The coordinate a quarter of the way from `a` to `b`.
pub open spec fn quarter_coord(a: int, b: int) -> int {
    a + div4_trunc(b - a)
}

/// The coordinate three quarters of the way from `a` to `b`.
pub open spec fn three_quarter_coord(a: int, b: int) -> int {
    a + div4_trunc(3 * (b - a))
}

/// The interpolated point at parameter 1/4 of the edge from `p1` to `p2`.
pub open spec fn point_q(p1: Point, p2: Point) -> Point {
    Point {
        x: quarter_coord(p1.x as int, p2.x as int) as i64,
        y: quarter_coord(p1.y as int, p2.y as int) as i64,
    }
}

/// The interpolated point at parameter 3/4 of the edge from `p1` to `p2`.
pub open spec fn point_r(p1: Point, p2: Point) -> Point {
    Point {
        x: three_quarter_coord(p1.x as int, p2.x as int) as i64,
        y: three_quarter_coord(p1.y as int, p2.y as int) as i64,
    }
}

/// One corner-cutting pass: the input unchanged when it has fewer than 3
/// points; otherwise the first point, the two interpolated points of each
/// of the `n - 1` edges in order, and the last point — `2 n` points in
/// all.
pub open spec fn chaikin_spec(s: Seq<Point>) -> Seq<Point> {
    if s.len() < 3 {
        s
    } else {
        Seq::new((2 * s.len()) as nat, |j: int|
            if j == 0 {
                s[0]
            } else if j == 2 * s.len() - 1 {
                s[s.len() - 1]
            } else if (j - 1) % 2 == 0 {
                point_q(s[(j - 1) / 2], s[(j - 1) / 2 + 1])
            } else {
                point_r(s[(j - 1) / 2], s[(j - 1) / 2 + 1])
            })
    }
}

/// Both truncated lerps stay between the two coordinates they
/// interpolate.
pub proof fn lemma_lerp_between(a: int, b: int)
    ensures
        a <= b ==> a <= quarter_coord(a, b) <= b && a <= three_quarter_coord(a, b) <= b,
        b <= a ==> b <= quarter_coord(a, b) <= a && b <= three_quarter_coord(a, b) <= a,
{
    let d = b - a;
    if d >= 0 {
        lemma_div_pos_is_pos(d, 4);
        lemma_div_nonincreasing(d, 4);
        lemma_div_pos_is_pos(3 * d, 4);
        assert(3 * d <= 4 * d);
        lemma_div_is_ordered(3 * d, 4 * d, 4);
        lemma_div_multiples_vanish(d, 4);
        assert((4 * d) / 4 == d);
    } else {
        lemma_div_pos_is_pos(-d, 4);
        lemma_div_nonincreasing(-d, 4);
        assert(-(3 * d) == 3 * (-d));
        lemma_div_pos_is_pos(3 * (-d), 4);
        assert(3 * (-d) <= 4 * (-d));
        lemma_div_is_ordered(3 * (-d), 4 * (-d), 4);
        lemma_div_multiples_vanish(-d, 4);
        assert((4 * (-d)) / 4 == -d);
    }
}

/// The coordinate a quarter of the way from `a` to `b`, truncated.
fn quarter_i64(a: i64, b: i64) -> (q: i64)
    requires
        -SUB_MAX <= a <= SUB_MAX,
        -SUB_MAX <= b <= SUB_MAX,
    ensures
        q as int == quarter_coord(a as int, b as int),
{
    proof {
        lemma_lerp_between(a as int, b as int);
    }
    let d: i64 = b - a;
    if d >= 0 {
        a + ((d as u64 / 4) as i64)
    } else {
        a - (((-d) as u64 / 4) as i64)
    }
}

/// The coordinate three quarters of the way from `a` to `b`, truncated.
fn three_quarter_i64(a: i64, b: i64) -> (q: i64)
    requires
        -SUB_MAX <= a <= SUB_MAX,
        -SUB_MAX <= b <= SUB_MAX,
    ensures
        q as int == three_quarter_coord(a as int, b as int),
{
    proof {
        lemma_lerp_between(a as int, b as int);
    }
    let d3: i64 = 3 * (b - a);
    if d3 >= 0 {
        a + ((d3 as u64 / 4) as i64)
    } else {
        a - (((-d3) as u64 / 4) as i64)
    }
}

/// One Chaikin refinement pass. An input of fewer than 3 points comes
/// back unchanged; otherwise the result holds exactly `2 n` points, the
/// first and last of which are the input's first and last, unchanged.
/// A pure function: the input vector is left as it was.
pub fn chaikin_algo(points: &Vec<Point>) -> (r: Vec<Point>)
    requires
        forall|i: int| 0 <= i < points@.len() ==> sub_point_in_range(#[trigger] points@[i]),
    ensures
        r@ == chaikin_spec(points@),
        points@.len() < 3 ==> r@ == points@,
        points@.len() >= 3 ==> r@.len() == 2 * points@.len(),
        r@.len() > 0 ==> r@[0] == points@[0] && r@[r@.len() - 1] == points@[points@.len() - 1],
{
    let n = points.len();
    let mut out: Vec<Point> = Vec::new();
    if n < 3 {
        let mut i: usize = 0;
        while i < n
            invariant
                0 <= i <= n,
                n == points@.len(),
                out@.len() == i,
                forall|j: int| 0 <= j < i ==> out@[j] == points@[j],
            decreases n - i,
        {
            out.push(points[i]);
            i = i + 1;
        }
        assert(out@ =~= points@);
        return out;
    }
    out.push(points[0]);
    let ghost cs = chaikin_spec(points@);
    assert(cs[0] == points@[0]);
    let mut i: usize = 0;
    while i < n - 1
        invariant
            0 <= i <= n - 1,
            3 <= n == points@.len(),
            cs == chaikin_spec(points@),
            cs.len() == 2 * n,
            forall|k: int| 0 <= k < points@.len() ==> sub_point_in_range(#[trigger] points@[k]),
            out@.len() == 1 + 2 * i,
            forall|j: int| 0 <= j < out@.len() ==> out@[j] == cs[j],
        decreases n - 1 - i,
    {
        let p1 = points[i];
        let p2 = points[i + 1];
        let q = Point { x: quarter_i64(p1.x, p2.x), y: quarter_i64(p1.y, p2.y) };
        let w = Point { x: three_quarter_i64(p1.x, p2.x), y: three_quarter_i64(p1.y, p2.y) };
        proof {
            lemma_div_multiples_vanish(i as int, 2);
            lemma_div_multiples_vanish_fancy(i as int, 1, 2);
            lemma_fundamental_div_mod(2 * i as int, 2);
            lemma_fundamental_div_mod(2 * i as int + 1, 2);
            assert(cs[1 + 2 * i as int] == point_q(points@[i as int], points@[i as int + 1]));
            assert(cs[2 + 2 * i as int] == point_r(points@[i as int], points@[i as int + 1]));
        }
        out.push(q);
        out.push(w);
        i = i + 1;
    }
    out.push(points[n - 1]);
    assert(out@ =~= cs);
    out
}

/// Corner cutting never escapes a bounding box of its input: every point
/// of the refined polyline lies within any axis-aligned box that contains
/// all input points, so repeated passes stay bounded by the original
/// points' extent.
pub proof fn lemma_chaikin_preserves_box(
    s: Seq<Point>,
    lo_x: int,
    hi_x: int,
    lo_y: int,
    hi_y: int,
)
    requires
        forall|i: int| 0 <= i < s.len() ==> lo_x <= (#[trigger] s[i]).x as int <= hi_x
            && lo_y <= s[i].y as int <= hi_y,
    ensures
        forall|j: int| 0 <= j < chaikin_spec(s).len() ==> lo_x
            <= (#[trigger] chaikin_spec(s)[j]).x as int <= hi_x
            && lo_y <= chaikin_spec(s)[j].y as int <= hi_y,
{
    let cs = chaikin_spec(s);
    if s.len() >= 3 {
        let n = s.len() as int;
        assert forall|j: int| 0 <= j < cs.len() implies lo_x <= (#[trigger] cs[j]).x as int <= hi_x
            && lo_y <= cs[j].y as int <= hi_y by {
            if j != 0 && j != 2 * n - 1 {
                let e = (j - 1) / 2;
                lemma_div_pos_is_pos(j - 1, 2);
                assert(j - 1 <= 2 * (n - 2) + 1);
                lemma_div_is_ordered(j - 1, 2 * (n - 2) + 1, 2);
                lemma_div_multiples_vanish_fancy(n - 2, 1, 2);
                assert(0 <= e < n - 1);
                let p1 = s[e];
                let p2 = s[e + 1];
                lemma_lerp_between(p1.x as int, p2.x as int);
                lemma_lerp_between(p1.y as int, p2.y as int);
            }
        }
    }
}

} // verus!
