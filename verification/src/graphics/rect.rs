//! Integer rectangles.
use vstd::prelude::*;

verus! {

/// A point with integer coordinates.
#[derive(Debug, Clone, Copy, PartialEq, Eq, Structural)]
pub struct Point2 {
    pub x: i32,
    pub y: i32,
}

impl Point2 {
    pub fn new(x: i32, y: i32) -> (r: Self)
        ensures
            r.x == x,
            r.y == y,
    {
        Point2 { x, y }
    }
}

/// A rectangle, with top-left corner at `min`, and bottom-right corner at `max`.
#[derive(Copy, Clone, Debug, PartialEq, Eq, Structural)]
pub struct Rect {
    pub min: Point2,
    pub max: Point2,
}

pub open spec fn min_i32(a: i32, b: i32) -> i32 {
    if a <= b { a } else { b }
}

pub open spec fn max_i32(a: i32, b: i32) -> i32 {
    if a >= b { a } else { b }
}

impl Rect {
    pub fn new(min: Point2, max: Point2) -> (r: Self)
        ensures
            r.min == min,
            r.max == max,
    {
        Rect { min: min, max: max }
    }

    pub fn width(&self) -> (r: i32)
        requires
            i32::MIN <= self.max.x - self.min.x <= i32::MAX,
        ensures
            r == self.max.x - self.min.x,
    {
        self.max.x - self.min.x
    }

    pub fn height(&self) -> (r: i32)
        requires
            i32::MIN <= self.max.y - self.min.y <= i32::MAX,
        ensures
            r == self.max.y - self.min.y,
    {
        self.max.y - self.min.y
    }

    /// The signed area: width times height.
    pub fn size(&self) -> (r: i32)
        requires
            i32::MIN <= self.max.x - self.min.x <= i32::MAX,
            i32::MIN <= self.max.y - self.min.y <= i32::MAX,
            i32::MIN <= (self.max.x - self.min.x) * (self.max.y - self.min.y) <= i32::MAX,
        ensures
            r == (self.max.x - self.min.x) * (self.max.y - self.min.y),
    {
        self.width() * self.height()
    }

    /// The intersection of the two rectangles: the larger of the minimum
    /// corners and the smaller of the maximum corners.
    pub fn overlap(&self, rhs: Self) -> (r: Self)
        ensures
            r.min.x == max_i32(self.min.x, rhs.min.x),
            r.min.y == max_i32(self.min.y, rhs.min.y),
            r.max.x == min_i32(self.max.x, rhs.max.x),
            r.max.y == min_i32(self.max.y, rhs.max.y),
    {
        let min_x = if self.min.x >= rhs.min.x { self.min.x } else { rhs.min.x };
        let min_y = if self.min.y >= rhs.min.y { self.min.y } else { rhs.min.y };
        let max_x = if self.max.x <= rhs.max.x { self.max.x } else { rhs.max.x };
        let max_y = if self.max.y <= rhs.max.y { self.max.y } else { rhs.max.y };
        Rect { min: Point2::new(min_x, min_y), max: Point2::new(max_x, max_y) }
    }
}

/// Overlapping is commutative, and a rectangle overlaps itself into itself.
pub proof fn law_overlap_commutes(a: Rect, b: Rect)
    ensures
        max_i32(a.min.x, b.min.x) == max_i32(b.min.x, a.min.x),
        max_i32(a.min.y, b.min.y) == max_i32(b.min.y, a.min.y),
        min_i32(a.max.x, b.max.x) == min_i32(b.max.x, a.max.x),
        min_i32(a.max.y, b.max.y) == min_i32(b.max.y, a.max.y),
        max_i32(a.min.x, a.min.x) == a.min.x && min_i32(a.max.y, a.max.y) == a.max.y,
{
}

} // verus!
