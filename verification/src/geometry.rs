//! Plain geometric value types: points, lines, circles, rectangles and the
//! fixed-arity polygons. Pure data; the drawing logic lives elsewhere.

use vstd::prelude::*;

verus! {

/// Coordinates accepted by the rasterizer; keeps every intermediate product
/// of the tracing arithmetic inside `i64`.
pub const MAX_COORD: i32 = 1_000_000;

/// Largest circle radius the tracer accepts; keeps the scaled trigonometric
/// arithmetic inside `i64`.
pub const MAX_RADIUS: u32 = 30_000;

/// A pixel-space point with integer coordinates.
#[derive(Debug, Clone, Copy, PartialEq, Eq, Structural)]
pub struct Point {
    pub x: i32,
    pub y: i32,
}

/// True when a point is within the coordinate range the rasterizer accepts.
pub open spec fn coord_in_range(v: int) -> bool {
    -(MAX_COORD as int) <= v <= MAX_COORD as int
}

pub open spec fn point_in_range(p: Point) -> bool {
    coord_in_range(p.x as int) && coord_in_range(p.y as int)
}

impl Point {
    pub fn new(x: i32, y: i32) -> (r: Self)
        ensures
            r.x == x,
            r.y == y,
    {
        Self { x, y }
    }

    /// A uniformly placed random point inside a `width` by `height` frame.
    pub fn random(width: i32, height: i32) -> (r: Self)
        requires
            0 < width,
            0 < height,
        ensures
            0 <= r.x < width,
            0 <= r.y < height,
    {
        let x = rand::random::<u32>() % (width as u32);
        let y = rand::random::<u32>() % (height as u32);
        Self { x: x as i32, y: y as i32 }
    }
}

/// An ordered pair of points; direction affects only the order in which the
/// tracer emits pixels, not the pixel set.
#[derive(Debug, Clone)]
pub struct Line {
    pub point1: Point,
    pub point2: Point,
}

impl Line {
    pub fn new(point1: Point, point2: Point) -> (r: Self)
        ensures
            r.point1 == point1,
            r.point2 == point2,
    {
        Self { point1, point2 }
    }

    /// A line between two random points inside a `width` by `height`
    /// frame.
    pub fn random(width: i32, height: i32) -> (r: Self)
        requires
            0 < width,
            0 < height,
        ensures
            0 <= r.point1.x < width,
            0 <= r.point1.y < height,
            0 <= r.point2.x < width,
            0 <= r.point2.y < height,
    {
        let point1 = Point::random(width, height);
        let point2 = Point::random(width, height);
        Self::new(point1, point2)
    }
}

/// A circle given by its center and a non-negative radius.
#[derive(Debug, Clone, Copy)]
pub struct Circle {
    pub center: Point,
    pub radius: u32,
}

impl Circle {
    /// A random circle: the center inside a `width` by `height` frame, the
    /// radius below a quarter of the width.
    pub fn random(width: i32, height: i32) -> (r: Circle)
        requires
            4 <= width,
            0 < height,
        ensures
            0 <= r.center.x < width,
            0 <= r.center.y < height,
            r.radius < (width as u32) / 4,
    {
        let center = Point {
            x: (rand::random::<u32>() % (width as u32)) as i32,
            y: (rand::random::<u32>() % (height as u32)) as i32,
        };
        let radius = rand::random::<u32>() % ((width as u32) / 4);
        Circle { center, radius }
    }
}

/// An axis-aligned rectangle, normalized so that `top_left` is the
/// componentwise minimum of the two construction corners.
pub struct Rectangle {
    pub top_left: Point,
    pub bottom_right: Point,
}

impl Rectangle {
    /// Normalizes two arbitrary corners: `top_left` takes the componentwise
    /// minimum, `bottom_right` the componentwise maximum.
    pub fn new(p1: &Point, p2: &Point) -> (r: Rectangle)
        ensures
            r.top_left.x == if p1.x <= p2.x { p1.x } else { p2.x },
            r.top_left.y == if p1.y <= p2.y { p1.y } else { p2.y },
            r.bottom_right.x == if p1.x >= p2.x { p1.x } else { p2.x },
            r.bottom_right.y == if p1.y >= p2.y { p1.y } else { p2.y },
            r.top_left.x <= r.bottom_right.x,
            r.top_left.y <= r.bottom_right.y,
    {
        Rectangle {
            top_left: Point {
                x: if p1.x <= p2.x { p1.x } else { p2.x },
                y: if p1.y <= p2.y { p1.y } else { p2.y },
            },
            bottom_right: Point {
                x: if p1.x >= p2.x { p1.x } else { p2.x },
                y: if p1.y >= p2.y { p1.y } else { p2.y },
            },
        }
    }
}

/// Three points drawn as a closed loop of line segments.
pub struct Triangle {
    pub point1: Point,
    pub point2: Point,
    pub point3: Point,
}

impl Triangle {
    pub fn new(point1: &Point, point2: &Point, point3: &Point) -> (r: Self)
        ensures
            r.point1 == *point1,
            r.point2 == *point2,
            r.point3 == *point3,
    {
        Self { point1: *point1, point2: *point2, point3: *point3 }
    }
}

/// Five points drawn as a closed loop of line segments.
pub struct Pentagon {
    pub point1: Point,
    pub point2: Point,
    pub point3: Point,
    pub point4: Point,
    pub point5: Point,
}

impl Pentagon {
    pub fn new(
        point1: &Point,
        point2: &Point,
        point3: &Point,
        point4: &Point,
        point5: &Point,
    ) -> (r: Self)
        ensures
            r.point1 == *point1,
            r.point2 == *point2,
            r.point3 == *point3,
            r.point4 == *point4,
            r.point5 == *point5,
    {
        Self {
            point1: *point1,
            point2: *point2,
            point3: *point3,
            point4: *point4,
            point5: *point5,
        }
    }
}

/// Eight points: a front quad (points 1-4) and a back quad (points 5-8),
/// drawn as the two quads plus the four connecting edges. Degenerate
/// geometry is accepted and draws degenerately.
pub struct Cube {
    pub point1: Point,
    pub point2: Point,
    pub point3: Point,
    pub point4: Point,
    pub point5: Point,
    pub point6: Point,
    pub point7: Point,
    pub point8: Point,
}

impl Cube {
    pub fn new(
        point1: &Point,
        point2: &Point,
        point3: &Point,
        point4: &Point,
        point5: &Point,
        point6: &Point,
        point7: &Point,
        point8: &Point,
    ) -> (r: Self)
        ensures
            r.point1 == *point1,
            r.point2 == *point2,
            r.point3 == *point3,
            r.point4 == *point4,
            r.point5 == *point5,
            r.point6 == *point6,
            r.point7 == *point7,
            r.point8 == *point8,
    {
        Self {
            point1: *point1,
            point2: *point2,
            point3: *point3,
            point4: *point4,
            point5: *point5,
            point6: *point6,
            point7: *point7,
            point8: *point8,
        }
    }
}

} // verus!
