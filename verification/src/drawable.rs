//! The drawable capability: every geometric shape renders itself onto any
//! pixel surface. A draw call picks one fresh random color and paints
//! every pixel of the shape's outline with it; its only observable effect
//! on the surface is that painting.

use vstd::prelude::*;
use vstd::arithmetic::div_mod::{
    lemma_div_multiples_vanish, lemma_div_multiples_vanish_fancy, lemma_fundamental_div_mod,
};
use raster::Color;
use crate::color::{random_color, color_is_bright};
use crate::geometry::{
    Point, Line, Circle, Rectangle, Triangle, Pentagon, Cube, coord_in_range, point_in_range,
    MAX_RADIUS,
};
use crate::rasterizer::{trace_line, trigonometric_circle, line_pix_seq, circle_pix_seq};
use crate::surface::{Displayable, paint, lemma_paint_concat};

verus! {

/// A shape that renders itself onto a surface.
pub trait Drawable {
    /// The pixel trace the shape paints, in emission order.
    spec fn outline(&self) -> Seq<(int, int)>;

    /// What the shape asks of its own geometry before drawing: coordinate
    /// ranges the tracers accept, and normalization where the shape
    /// promises it.
    spec fn draw_requires(&self) -> bool;

    /// Draws the shape: afterwards the surface holds its previous pixels
    /// overlaid with the shape's outline, all painted in one single
    /// (randomly chosen) color, bright on every channel and fully opaque;
    /// everything else is untouched.
    fn draw<T: Displayable>(&self, image: &mut T)
        requires
            old(image).wf(),
            self.draw_requires(),
        ensures
            final(image).wf(),
            final(image).spec_width() == old(image).spec_width(),
            final(image).spec_height() == old(image).spec_height(),
            exists|c: Color|
                color_is_bright(c) && final(image).pixels() == #[trigger] paint(
                    old(image).pixels(),
                    self.outline(),
                    c,
                    old(image).spec_width(),
                    old(image).spec_height(),
                ),
    ;
}

/// A sequence of traced points as pixel coordinates.
pub open spec fn points_seq(s: Seq<Point>) -> Seq<(int, int)> {
    s.map_values(|p: Point| (p.x as int, p.y as int))
}

/// A sequence of traced coordinate pairs as pixel coordinates.
pub open spec fn pairs_seq(s: Seq<(i32, i32)>) -> Seq<(int, int)> {
    s.map_values(|p: (i32, i32)| (p.0 as int, p.1 as int))
}

/// Writes every traced point to the surface in the given color.
fn paint_points<T: Displayable>(image: &mut T, pts: &Vec<Point>, color: &Color)
    requires
        old(image).wf(),
    ensures
        final(image).wf(),
        final(image).spec_width() == old(image).spec_width(),
        final(image).spec_height() == old(image).spec_height(),
        final(image).pixels() == paint(
            old(image).pixels(),
            points_seq(pts@),
            *color,
            old(image).spec_width(),
            old(image).spec_height(),
        ),
{
    let ghost m0 = old(image).pixels();
    let ghost sq = points_seq(pts@);
    let ghost w = old(image).spec_width();
    let ghost h = old(image).spec_height();
    assert(paint(m0, sq.take(0), *color, w, h) == m0) by {
        assert(sq.take(0).len() == 0);
    }
    let n = pts.len();
    let mut i: usize = 0;
    while i < n
        invariant
            0 <= i <= n,
            n == pts@.len(),
            sq == points_seq(pts@),
            sq.len() == n,
            image.wf(),
            image.spec_width() == w,
            image.spec_height() == h,
            image.pixels() == paint(m0, sq.take(i as int), *color, w, h),
        decreases n - i,
    {
        let p = pts[i];
        let c = color.clone();
        image.display(p.x, p.y, c);
        proof {
            assert(sq.take(i as int + 1).drop_last() =~= sq.take(i as int));
            assert(sq.take(i as int + 1).last() == sq[i as int]);
            assert(sq[i as int] == (p.x as int, p.y as int));
        }
        i = i + 1;
    }
    proof {
        assert(sq.take(n as int) =~= sq);
    }
}

/// Writes every traced coordinate pair to the surface in the given color.
fn paint_pairs<T: Displayable>(image: &mut T, pts: &Vec<(i32, i32)>, color: &Color)
    requires
        old(image).wf(),
    ensures
        final(image).wf(),
        final(image).spec_width() == old(image).spec_width(),
        final(image).spec_height() == old(image).spec_height(),
        final(image).pixels() == paint(
            old(image).pixels(),
            pairs_seq(pts@),
            *color,
            old(image).spec_width(),
            old(image).spec_height(),
        ),
{
    let ghost m0 = old(image).pixels();
    let ghost sq = pairs_seq(pts@);
    let ghost w = old(image).spec_width();
    let ghost h = old(image).spec_height();
    assert(paint(m0, sq.take(0), *color, w, h) == m0) by {
        assert(sq.take(0).len() == 0);
    }
    let n = pts.len();
    let mut i: usize = 0;
    while i < n
        invariant
            0 <= i <= n,
            n == pts@.len(),
            sq == pairs_seq(pts@),
            sq.len() == n,
            image.wf(),
            image.spec_width() == w,
            image.spec_height() == h,
            image.pixels() == paint(m0, sq.take(i as int), *color, w, h),
        decreases n - i,
    {
        let p = pts[i];
        let c = color.clone();
        image.display(p.0, p.1, c);
        proof {
            assert(sq.take(i as int + 1).drop_last() =~= sq.take(i as int));
            assert(sq.take(i as int + 1).last() == sq[i as int]);
            assert(sq[i as int] == (p.0 as int, p.1 as int));
        }
        i = i + 1;
    }
    proof {
        assert(sq.take(n as int) =~= sq);
    }
}

/// Traces the line from `(x0, y0)` to `(x1, y1)` and paints every traced
/// pixel in the given color.
fn draw_segment<T: Displayable>(
    image: &mut T,
    x0: i32,
    y0: i32,
    x1: i32,
    y1: i32,
    color: &Color,
)
    requires
        old(image).wf(),
        coord_in_range(x0 as int),
        coord_in_range(y0 as int),
        coord_in_range(x1 as int),
        coord_in_range(y1 as int),
    ensures
        final(image).wf(),
        final(image).spec_width() == old(image).spec_width(),
        final(image).spec_height() == old(image).spec_height(),
        final(image).pixels() == paint(
            old(image).pixels(),
            line_pix_seq(x0 as int, y0 as int, x1 as int, y1 as int),
            *color,
            old(image).spec_width(),
            old(image).spec_height(),
        ),
{
    let pts = trace_line(x0, y0, x1, y1);
    proof {
        assert(points_seq(pts@) =~= line_pix_seq(x0 as int, y0 as int, x1 as int, y1 as int));
    }
    paint_points(image, &pts, color);
}

/// The traced pixels of one line segment between two points.
pub open spec fn seg(a: Point, b: Point) -> Seq<(int, int)> {
    line_pix_seq(a.x as int, a.y as int, b.x as int, b.y as int)
}

/// The top and bottom border rows of a rectangle, interleaved the way the
/// border is written: for each column, first the top pixel, then the
/// bottom one.
pub open spec fn rect_rows_seq(x1: int, y1: int, x2: int, y2: int) -> Seq<(int, int)> {
    Seq::new((2 * (x2 - x1 + 1)) as nat, |i: int|
        if i % 2 == 0 {
            (x1 + i / 2, y1)
        } else {
            (x1 + i / 2, y2)
        })
}

/// The left and right border columns of a rectangle, interleaved the way
/// the border is written: for each row, first the left pixel, then the
/// right one.
pub open spec fn rect_cols_seq(x1: int, y1: int, x2: int, y2: int) -> Seq<(int, int)> {
    Seq::new((2 * (y2 - y1 + 1)) as nat, |i: int|
        if i % 2 == 0 {
            (x1, y1 + i / 2)
        } else {
            (x2, y1 + i / 2)
        })
}

/// The whole rectangle border: both full rows, then both full columns.
pub open spec fn rect_outline(x1: int, y1: int, x2: int, y2: int) -> Seq<(int, int)> {
    rect_rows_seq(x1, y1, x2, y2) + rect_cols_seq(x1, y1, x2, y2)
}

impl Drawable for Point {
    /// A point paints exactly its own pixel.
    open spec fn outline(&self) -> Seq<(int, int)> {
        seq![(self.x as int, self.y as int)]
    }

    open spec fn draw_requires(&self) -> bool {
        true
    }

    fn draw<T: Displayable>(&self, image: &mut T) {
        let color = random_color();
        let ghost m0 = old(image).pixels();
        let ghost w = old(image).spec_width();
        let ghost h = old(image).spec_height();
        image.display(self.x, self.y, color);
        proof {
            assert(self.outline().drop_last() =~= Seq::<(int, int)>::empty());
            assert(self.outline().last() == (self.x as int, self.y as int));
            assert(paint(m0, self.outline().drop_last(), color, w, h) == m0);
            assert(image.pixels() == paint(m0, self.outline(), color, w, h));
        }
    }
}

impl Drawable for Line {
    /// A line paints its traced pixels, from `point1` to `point2`.
    open spec fn outline(&self) -> Seq<(int, int)> {
        line_pix_seq(self.point1.x as int, self.point1.y as int, self.point2.x as int,
            self.point2.y as int)
    }

    open spec fn draw_requires(&self) -> bool {
        point_in_range(self.point1) && point_in_range(self.point2)
    }

    fn draw<T: Displayable>(&self, image: &mut T) {
        let color = random_color();
        draw_segment(image, self.point1.x, self.point1.y, self.point2.x, self.point2.y,
            &color);
        proof {
            assert(image.pixels() == paint(old(image).pixels(), self.outline(), color,
                old(image).spec_width(), old(image).spec_height()));
        }
    }
}

impl Drawable for Circle {
    /// A circle paints its traced circumference pixels.
    open spec fn outline(&self) -> Seq<(int, int)> {
        circle_pix_seq(self.center.x as int, self.center.y as int, self.radius as int)
    }

    open spec fn draw_requires(&self) -> bool {
        point_in_range(self.center) && self.radius <= MAX_RADIUS
    }

    fn draw<T: Displayable>(&self, image: &mut T) {
        let rgb = random_color();
        let circle_points = trigonometric_circle(self.center.x, self.center.y, self.radius);
        proof {
            assert(pairs_seq(circle_points@) =~= circle_pix_seq(self.center.x as int,
                self.center.y as int, self.radius as int));
        }
        paint_pairs(image, &circle_points, &rgb);
        proof {
            let cc = rgb;
            assert(image.pixels() == paint(old(image).pixels(), self.outline(), cc,
                old(image).spec_width(), old(image).spec_height()));
        }
    }
}

impl Drawable for Rectangle {
    /// A rectangle paints its border: the top and bottom rows in full,
    /// then the left and right columns in full.
    open spec fn outline(&self) -> Seq<(int, int)> {
        rect_outline(self.top_left.x as int, self.top_left.y as int,
            self.bottom_right.x as int, self.bottom_right.y as int)
    }

    /// The corners must be normalized, as the constructor leaves them.
    open spec fn draw_requires(&self) -> bool {
        point_in_range(self.top_left) && point_in_range(self.bottom_right)
            && self.top_left.x <= self.bottom_right.x && self.top_left.y <= self.bottom_right.y
    }

    fn draw<T: Displayable>(&self, image: &mut T) {
        let color = random_color();
        let x1 = self.top_left.x;
        let y1 = self.top_left.y;
        let x2 = self.bottom_right.x;
        let y2 = self.bottom_right.y;
        let ghost m0 = old(image).pixels();
        let ghost w = old(image).spec_width();
        let ghost h = old(image).spec_height();
        let ghost rows = rect_rows_seq(x1 as int, y1 as int, x2 as int, y2 as int);
        let ghost cols = rect_cols_seq(x1 as int, y1 as int, x2 as int, y2 as int);
        assert(paint(m0, rows.take(0), color, w, h) == m0) by {
            assert(rows.take(0).len() == 0);
        }
        let mut x = x1;
        while x <= x2
            invariant
                x1 <= x <= x2 + 1,
                x2 < 2_000_000,
                rows == rect_rows_seq(x1 as int, y1 as int, x2 as int, y2 as int),
                rows.len() == 2 * (x2 - x1 + 1),
                image.wf(),
                image.spec_width() == w,
                image.spec_height() == h,
                image.pixels() == paint(m0, rows.take(2 * (x - x1) as int), color, w, h),
            decreases x2 + 1 - x,
        {
            let ghost k = (x - x1) as int;
            proof {
                lemma_div_multiples_vanish(k, 2);
                lemma_div_multiples_vanish_fancy(k, 1, 2);
                lemma_fundamental_div_mod(2 * k, 2);
                lemma_fundamental_div_mod(2 * k + 1, 2);
            }
            let ca = color.clone();
            image.display(x, y1, ca);
            proof {
                assert(rows.take(2 * k + 1).drop_last() =~= rows.take(2 * k));
                assert(rows.take(2 * k + 1).last() == rows[2 * k]);
                assert(rows[2 * k] == (x as int, y1 as int));
                assert(image.pixels() == paint(m0, rows.take(2 * k + 1), color, w, h));
            }
            let cb = color.clone();
            image.display(x, y2, cb);
            proof {
                assert(rows.take(2 * k + 2).drop_last() =~= rows.take(2 * k + 1));
                assert(rows.take(2 * k + 2).last() == rows[2 * k + 1]);
                assert(rows[2 * k + 1] == (x as int, y2 as int));
                assert(image.pixels() == paint(m0, rows.take(2 * k + 2), color, w, h));
            }
            x = x + 1;
        }
        proof {
            assert(rows.take(2 * (x - x1) as int) =~= rows);
        }
        let ghost m1 = paint(m0, rows, color, w, h);
        assert(paint(m1, cols.take(0), color, w, h) == m1) by {
            assert(cols.take(0).len() == 0);
        }
        let mut y = y1;
        while y <= y2
            invariant
                y1 <= y <= y2 + 1,
                y2 < 2_000_000,
                cols == rect_cols_seq(x1 as int, y1 as int, x2 as int, y2 as int),
                cols.len() == 2 * (y2 - y1 + 1),
                image.wf(),
                image.spec_width() == w,
                image.spec_height() == h,
                image.pixels() == paint(m1, cols.take(2 * (y - y1) as int), color, w, h),
            decreases y2 + 1 - y,
        {
            let ghost k = (y - y1) as int;
            proof {
                lemma_div_multiples_vanish(k, 2);
                lemma_div_multiples_vanish_fancy(k, 1, 2);
                lemma_fundamental_div_mod(2 * k, 2);
                lemma_fundamental_div_mod(2 * k + 1, 2);
            }
            let ca = color.clone();
            image.display(x1, y, ca);
            proof {
                assert(cols.take(2 * k + 1).drop_last() =~= cols.take(2 * k));
                assert(cols.take(2 * k + 1).last() == cols[2 * k]);
                assert(cols[2 * k] == (x1 as int, y as int));
                assert(image.pixels() == paint(m1, cols.take(2 * k + 1), color, w, h));
            }
            let cb = color.clone();
            image.display(x2, y, cb);
            proof {
                assert(cols.take(2 * k + 2).drop_last() =~= cols.take(2 * k + 1));
                assert(cols.take(2 * k + 2).last() == cols[2 * k + 1]);
                assert(cols[2 * k + 1] == (x2 as int, y as int));
                assert(image.pixels() == paint(m1, cols.take(2 * k + 2), color, w, h));
            }
            y = y + 1;
        }
        proof {
            assert(cols.take(2 * (y - y1) as int) =~= cols);
            lemma_paint_concat(m0, rows, cols, color, w, h);
            assert(image.pixels() == paint(m0, self.outline(), color, w, h));
        }
    }
}

impl Drawable for Triangle {
    /// A triangle paints its three edges as a closed loop.
    open spec fn outline(&self) -> Seq<(int, int)> {
        seg(self.point1, self.point2) + seg(self.point2, self.point3) + seg(
            self.point3, self.point1)
    }

    open spec fn draw_requires(&self) -> bool {
        point_in_range(self.point1) && point_in_range(self.point2) && point_in_range(
            self.point3)
    }

    fn draw<T: Displayable>(&self, image: &mut T) {
        let color = random_color();
        let ghost m0 = old(image).pixels();
        let ghost w = old(image).spec_width();
        let ghost h = old(image).spec_height();
        draw_segment(image, self.point1.x, self.point1.y, self.point2.x, self.point2.y,
            &color);
        draw_segment(image, self.point2.x, self.point2.y, self.point3.x, self.point3.y,
            &color);
        draw_segment(image, self.point3.x, self.point3.y, self.point1.x, self.point1.y,
            &color);
        proof {
            let s12 = seg(self.point1, self.point2);
            let s23 = seg(self.point2, self.point3);
            let s31 = seg(self.point3, self.point1);
            lemma_paint_concat(m0, s12, s23, color, w, h);
            lemma_paint_concat(m0, s12 + s23, s31, color, w, h);
            assert(image.pixels() == paint(m0, self.outline(), color, w, h));
        }
    }
}

impl Drawable for Pentagon {
    /// A pentagon paints its five edges as a closed loop.
    open spec fn outline(&self) -> Seq<(int, int)> {
        seg(self.point1, self.point2) + seg(self.point2, self.point3) + seg(
            self.point3, self.point4) + seg(self.point4, self.point5) + seg(
            self.point5, self.point1)
    }

    open spec fn draw_requires(&self) -> bool {
        point_in_range(self.point1) && point_in_range(self.point2) && point_in_range(
            self.point3) && point_in_range(self.point4) && point_in_range(self.point5)
    }

    fn draw<T: Displayable>(&self, image: &mut T) {
        let color = random_color();
        let ghost m0 = old(image).pixels();
        let ghost w = old(image).spec_width();
        let ghost h = old(image).spec_height();
        draw_segment(image, self.point1.x, self.point1.y, self.point2.x, self.point2.y,
            &color);
        draw_segment(image, self.point2.x, self.point2.y, self.point3.x, self.point3.y,
            &color);
        draw_segment(image, self.point3.x, self.point3.y, self.point4.x, self.point4.y,
            &color);
        draw_segment(image, self.point4.x, self.point4.y, self.point5.x, self.point5.y,
            &color);
        draw_segment(image, self.point5.x, self.point5.y, self.point1.x, self.point1.y,
            &color);
        proof {
            let s1 = seg(self.point1, self.point2);
            let s2 = seg(self.point2, self.point3);
            let s3 = seg(self.point3, self.point4);
            let s4 = seg(self.point4, self.point5);
            let s5 = seg(self.point5, self.point1);
            lemma_paint_concat(m0, s1, s2, color, w, h);
            lemma_paint_concat(m0, s1 + s2, s3, color, w, h);
            lemma_paint_concat(m0, s1 + s2 + s3, s4, color, w, h);
            lemma_paint_concat(m0, s1 + s2 + s3 + s4, s5, color, w, h);
            assert(image.pixels() == paint(m0, self.outline(), color, w, h));
        }
    }
}

impl Drawable for Cube {
    /// A cube paints its front quad, its back quad, and the four edges
    /// connecting them.
    open spec fn outline(&self) -> Seq<(int, int)> {
        seg(self.point1, self.point2) + seg(self.point2, self.point3) + seg(
            self.point3, self.point4) + seg(self.point4, self.point1) + seg(
            self.point5, self.point6) + seg(self.point6, self.point7) + seg(
            self.point7, self.point8) + seg(self.point8, self.point5) + seg(
            self.point1, self.point5) + seg(self.point2, self.point6) + seg(
            self.point3, self.point7) + seg(self.point4, self.point8)
    }

    open spec fn draw_requires(&self) -> bool {
        point_in_range(self.point1) && point_in_range(self.point2) && point_in_range(
            self.point3) && point_in_range(self.point4) && point_in_range(self.point5)
            && point_in_range(self.point6) && point_in_range(self.point7) && point_in_range(
            self.point8)
    }

    fn draw<T: Displayable>(&self, image: &mut T) {
        let color = random_color();
        let ghost m0 = old(image).pixels();
        let ghost w = old(image).spec_width();
        let ghost h = old(image).spec_height();
        draw_segment(image, self.point1.x, self.point1.y, self.point2.x, self.point2.y,
            &color);
        draw_segment(image, self.point2.x, self.point2.y, self.point3.x, self.point3.y,
            &color);
        draw_segment(image, self.point3.x, self.point3.y, self.point4.x, self.point4.y,
            &color);
        draw_segment(image, self.point4.x, self.point4.y, self.point1.x, self.point1.y,
            &color);
        draw_segment(image, self.point5.x, self.point5.y, self.point6.x, self.point6.y,
            &color);
        draw_segment(image, self.point6.x, self.point6.y, self.point7.x, self.point7.y,
            &color);
        draw_segment(image, self.point7.x, self.point7.y, self.point8.x, self.point8.y,
            &color);
        draw_segment(image, self.point8.x, self.point8.y, self.point5.x, self.point5.y,
            &color);
        draw_segment(image, self.point1.x, self.point1.y, self.point5.x, self.point5.y,
            &color);
        draw_segment(image, self.point2.x, self.point2.y, self.point6.x, self.point6.y,
            &color);
        draw_segment(image, self.point3.x, self.point3.y, self.point7.x, self.point7.y,
            &color);
        draw_segment(image, self.point4.x, self.point4.y, self.point8.x, self.point8.y,
            &color);
        proof {
            let s1 = seg(self.point1, self.point2);
            let s2 = seg(self.point2, self.point3);
            let s3 = seg(self.point3, self.point4);
            let s4 = seg(self.point4, self.point1);
            let s5 = seg(self.point5, self.point6);
            let s6 = seg(self.point6, self.point7);
            let s7 = seg(self.point7, self.point8);
            let s8 = seg(self.point8, self.point5);
            let s9 = seg(self.point1, self.point5);
            let s10 = seg(self.point2, self.point6);
            let s11 = seg(self.point3, self.point7);
            let s12 = seg(self.point4, self.point8);
            lemma_paint_concat(m0, s1, s2, color, w, h);
            lemma_paint_concat(m0, s1 + s2, s3, color, w, h);
            lemma_paint_concat(m0, s1 + s2 + s3, s4, color, w, h);
            lemma_paint_concat(m0, s1 + s2 + s3 + s4, s5, color, w, h);
            lemma_paint_concat(m0, s1 + s2 + s3 + s4 + s5, s6, color, w, h);
            lemma_paint_concat(m0, s1 + s2 + s3 + s4 + s5 + s6, s7, color, w, h);
            lemma_paint_concat(m0, s1 + s2 + s3 + s4 + s5 + s6 + s7, s8, color, w, h);
            lemma_paint_concat(m0, s1 + s2 + s3 + s4 + s5 + s6 + s7 + s8, s9, color, w, h);
            lemma_paint_concat(m0, s1 + s2 + s3 + s4 + s5 + s6 + s7 + s8 + s9, s10, color, w,
                h);
            lemma_paint_concat(m0, s1 + s2 + s3 + s4 + s5 + s6 + s7 + s8 + s9 + s10, s11,
                color, w, h);
            lemma_paint_concat(m0, s1 + s2 + s3 + s4 + s5 + s6 + s7 + s8 + s9 + s10 + s11,
                s12, color, w, h);
            assert(image.pixels() == paint(m0, self.outline(), color, w, h));
        }
    }
}

} // verus!
