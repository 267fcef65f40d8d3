//! The pixel-surface capability: anything that accepts "set the pixel at
//! an integer coordinate to a color, silently dropping writes outside the
//! addressable range", together with a concrete in-memory canvas that
//! implements it.

use vstd::prelude::*;
use vstd::map::*;
use raster::Color;

verus! {

/// True when `(x, y)` is inside a `w` by `h` frame.
pub open spec fn in_frame(x: int, y: int, w: int, h: int) -> bool {
    0 <= x < w && 0 <= y < h
}

/// The pixels of a surface after the given trace has been painted in the
/// color `c`, in order: every in-frame coordinate of the trace takes the
/// color; every out-of-frame coordinate is dropped.
pub open spec fn paint(
    m: Map<(int, int), Color>,
    pts: Seq<(int, int)>,
    c: Color,
    w: int,
    h: int,
) -> Map<(int, int), Color>
    decreases pts.len(),
{
    if pts.len() == 0 {
        m
    } else {
        let prev = paint(m, pts.drop_last(), c, w, h);
        let p = pts.last();
        if in_frame(p.0, p.1, w, h) {
            prev.insert(p, c)
        } else {
            prev
        }
    }
}

/// Painting a concatenated trace paints the first part, then the second.
pub proof fn lemma_paint_concat(
    m: Map<(int, int), Color>,
    s1: Seq<(int, int)>,
    s2: Seq<(int, int)>,
    c: Color,
    w: int,
    h: int,
)
    ensures
        paint(m, s1 + s2, c, w, h) == paint(paint(m, s1, c, w, h), s2, c, w, h),
    decreases s2.len(),
{
    if s2.len() == 0 {
        assert(s1 + s2 =~= s1);
    } else {
        lemma_paint_concat(m, s1, s2.drop_last(), c, w, h);
        assert((s1 + s2).drop_last() =~= s1 + s2.drop_last());
        assert((s1 + s2).last() == s2.last());
    }
}

/// A trace that stays wholly outside the frame paints nothing: no write
/// reaches the surface's backing store.
pub proof fn lemma_paint_out_of_frame(
    m: Map<(int, int), Color>,
    pts: Seq<(int, int)>,
    c: Color,
    w: int,
    h: int,
)
    requires
        forall|i: int| 0 <= i < pts.len() ==> !in_frame(
            (#[trigger] pts[i]).0, pts[i].1, w, h,
        ),
    ensures
        paint(m, pts, c, w, h) == m,
    decreases pts.len(),
{
    if pts.len() > 0 {
        assert(pts.last() == pts[pts.len() - 1]);
        assert(forall|i: int| 0 <= i < pts.drop_last().len() ==> pts.drop_last()[i]
            == pts[i]);
        lemma_paint_out_of_frame(m, pts.drop_last(), c, w, h);
    }
}

/// An addressable pixel surface. The one operation writes a pixel; a
/// write outside the addressable range is a silent no-op, never an error,
/// which keeps the rasterizer free of bounds logic.
pub trait Displayable: Sized {
    /// Well-formedness of the surface's representation.
    spec fn wf(&self) -> bool;

    /// The addressable width.
    spec fn spec_width(&self) -> int;

    /// The addressable height.
    spec fn spec_height(&self) -> int;

    /// The pixels written so far: each in-frame coordinate that was ever
    /// written maps to the color last written there.
    spec fn pixels(&self) -> Map<(int, int), Color>;

    /// Writes one pixel, dropping an out-of-frame coordinate.
    fn display(&mut self, x: i32, y: i32, color: Color)
        requires
            old(self).wf(),
        ensures
            final(self).wf(),
            final(self).spec_width() == old(self).spec_width(),
            final(self).spec_height() == old(self).spec_height(),
            in_frame(x as int, y as int, old(self).spec_width(), old(self).spec_height())
                ==> final(self).pixels() == old(self).pixels().insert(
                (x as int, y as int), color),
            !in_frame(x as int, y as int, old(self).spec_width(), old(self).spec_height())
                ==> final(self).pixels() == old(self).pixels(),
    ;
}

/// Two distinct in-frame coordinates have distinct row-major indices.
proof fn lemma_row_major_ne(x1: int, y1: int, x2: int, y2: int, w: int)
    requires
        0 <= x1 < w,
        0 <= x2 < w,
        0 <= y1,
        0 <= y2,
        (x1, y1) != (x2, y2),
    ensures
        y1 * w + x1 != y2 * w + x2,
{
    if y1 == y2 {
        assert(x1 != x2);
    } else if y1 < y2 {
        assert(y1 * w + x1 < y2 * w + x2) by (nonlinear_arith)
            requires 0 <= x1 < w && 0 <= x2 && y1 < y2;
    } else {
        assert(y2 * w + x2 < y1 * w + x1) by (nonlinear_arith)
            requires 0 <= x2 < w && 0 <= x1 && y2 < y1;
    }
}

/// An in-frame coordinate's row-major index is within the buffer.
proof fn lemma_row_major_in_range(x: int, y: int, w: int, h: int)
    requires
        in_frame(x, y, w, h),
    ensures
        0 <= y * w + x < w * h,
{
    assert(0 <= y * w && y * w + w <= w * h) by (nonlinear_arith)
        requires 0 <= y < h && 0 < w;
}

/// Largest canvas side length; keeps every row-major index inside
/// `usize` on any machine.
pub const MAX_DIM: i32 = 32_767;

/// An in-memory pixel buffer: the canonical `Displayable` surface. Writes
/// inside the frame land in the backing store; writes outside it are
/// dropped.
pub struct Canvas {
    width: i32,
    height: i32,
    buf: Vec<Option<Color>>,
}

impl Canvas {
    /// The backing store holds one slot per addressable pixel, row-major.
    pub closed spec fn inv(&self) -> bool {
        0 <= self.width <= MAX_DIM && 0 <= self.height <= MAX_DIM && self.buf@.len()
            == self.width * self.height
    }

    /// A blank canvas: nothing written yet.
    pub fn new(width: i32, height: i32) -> (c: Canvas)
        requires
            0 <= width <= MAX_DIM,
            0 <= height <= MAX_DIM,
        ensures
            c.wf(),
            c.spec_width() == width,
            c.spec_height() == height,
            c.pixels() == Map::<(int, int), Color>::empty(),
    {
        assert(0 <= ((width as usize) as int) * ((height as usize) as int)
            <= 0x4000_0000) by (nonlinear_arith)
            requires
                0 <= ((width as usize) as int) < 0x8000,
                0 <= ((height as usize) as int) < 0x8000,
        ;
        let total: usize = (width as usize) * (height as usize);
        let mut buf: Vec<Option<Color>> = Vec::new();
        let mut k: usize = 0;
        while k < total
            invariant
                0 <= k <= total,
                buf@.len() == k,
                forall|j: int| 0 <= j < k ==> (#[trigger] buf@[j]) is None,
            decreases total - k,
        {
            buf.push(None);
            k = k + 1;
        }
        let c = Canvas { width, height, buf };
        proof {
            let w = width as int;
            let h = height as int;
            assert(c.buf@.len() == w * h);
            assert forall|k: (int, int)| !(#[trigger] c.pixels().dom().contains(k)) by {
                if in_frame(k.0, k.1, w, h) {
                    lemma_row_major_in_range(k.0, k.1, w, h);
                }
            }
            assert(c.pixels() =~= Map::<(int, int), Color>::empty());
        }
        c
    }

    /// The addressable width.
    pub fn width(&self) -> (w: i32)
        ensures
            w as int == self.spec_width(),
    {
        self.width
    }

    /// The addressable height.
    pub fn height(&self) -> (h: i32)
        ensures
            h as int == self.spec_height(),
    {
        self.height
    }

    /// The color written at `(x, y)`, or `None` when nothing was written
    /// there or the coordinate is out of frame.
    pub fn get_pixel(&self, x: i32, y: i32) -> (r: Option<Color>)
        requires
            self.wf(),
        ensures
            r == if self.pixels().dom().contains((x as int, y as int)) {
                Some(self.pixels()[(x as int, y as int)])
            } else {
                None::<Color>
            },
    {
        if x >= 0 && x < self.width && y >= 0 && y < self.height {
            proof {
                lemma_row_major_in_range(x as int, y as int, self.width as int,
                    self.height as int);
                assert(0 <= ((y as usize) as int) * ((self.width as usize) as int)
                    < 0x4000_0000) by (nonlinear_arith)
                    requires
                        0 <= ((y as usize) as int) < 0x8000,
                        0 <= ((self.width as usize) as int) < 0x8000,
                ;
            }
            let idx: usize = (y as usize) * (self.width as usize) + (x as usize);
            match &self.buf[idx] {
                Some(c) => Some(c.clone()),
                None => None,
            }
        } else {
            None
        }
    }
}

impl Displayable for Canvas {
    closed spec fn wf(&self) -> bool {
        self.inv()
    }

    closed spec fn spec_width(&self) -> int {
        self.width as int
    }

    closed spec fn spec_height(&self) -> int {
        self.height as int
    }

    closed spec fn pixels(&self) -> Map<(int, int), Color> {
        Map::new(
            |k: (int, int)|
                in_frame(k.0, k.1, self.width as int, self.height as int) && self.buf@[k.1
                    * (self.width as int) + k.0] is Some,
            |k: (int, int)| self.buf@[k.1 * (self.width as int) + k.0]->0,
        )
    }

    fn display(&mut self, x: i32, y: i32, color: Color) {
        if x >= 0 && x < self.width && y >= 0 && y < self.height {
            proof {
                lemma_row_major_in_range(x as int, y as int, self.width as int,
                    self.height as int);
                assert(0 <= ((y as usize) as int) * ((self.width as usize) as int)
                    < 0x4000_0000) by (nonlinear_arith)
                    requires
                        0 <= ((y as usize) as int) < 0x8000,
                        0 <= ((self.width as usize) as int) < 0x8000,
                ;
            }
            let idx: usize = (y as usize) * (self.width as usize) + (x as usize);
            self.buf.set(idx, Some(color));
            proof {
                let w = self.width as int;
                let h = self.height as int;
                assert forall|k: (int, int)|
                    in_frame(k.0, k.1, w, h) && k != (x as int, y as int) implies k.1 * w + k.0
                    != (y as int) * w + (x as int) && 0 <= k.1 * w + k.0 < w * h by {
                    lemma_row_major_ne(k.0, k.1, x as int, y as int, w);
                    lemma_row_major_in_range(k.0, k.1, w, h);
                }
                assert(self.pixels() =~= old(self).pixels().insert((x as int, y as int),
                    color));
            }
        } else {
            proof {
                assert(self.pixels() =~= old(self).pixels());
            }
        }
    }
}

} // verus!
