//! Axis-aligned rectangle used as a room's bounding box.

use vstd::prelude::*;

verus! {

/// A room's bounding box: `x2 == x1 + width`, `y2 == y1 + height`, with the
/// exclusive corner convention the carving logic relies on (carving fills
/// `(x1, x2]` x `(y1, y2]`, leaving a one-tile wall margin on the top and
/// left border).
#[derive(Clone, Copy, Debug)]
pub struct Rect {
    pub x1: i32,
    pub x2: i32,
    pub y1: i32,
    pub y2: i32,
}

impl Rect {
    /// The rectangle's invariant: both extents are non-empty.
    pub open spec fn wf(self) -> bool {
        self.x1 < self.x2 && self.y1 < self.y2
    }

    /// Closed-interval overlap test on both axes. Rectangles sharing only a
    /// boundary edge count as intersecting, which forces a gap between rooms.
    pub open spec fn intersects(self, other: Rect) -> bool {
        self.x1 <= other.x2 && self.x2 >= other.x1 && self.y1 <= other.y2 && self.y2 >= other.y1
    }

    /// The cells a room carve turns to floor: the top row `y1` and left
    /// column `x1` are excluded, the bottom/right bounds are included.
    pub open spec fn contains_interior(self, x: int, y: int) -> bool {
        self.x1 < x <= self.x2 && self.y1 < y <= self.y2
    }

    /// The integer midpoint (floor division).
    pub open spec fn center_spec(self) -> (int, int) {
        ((self.x1 + self.x2) / 2, (self.y1 + self.y2) / 2)
    }

    pub fn new(x: i32, y: i32, w: i32, h: i32) -> (r: Rect)
        requires
            0 < w,
            0 < h,
            x + w <= i32::MAX,
            y + h <= i32::MAX,
        ensures
            r.x1 == x,
            r.y1 == y,
            r.x2 == x + w,
            r.y2 == y + h,
            r.wf(),
    {
        Rect { x1: x, y1: y, x2: x + w, y2: y + h }
    }

    /// Checks to see if one rectangle intersects with another.
    pub fn does_intersect(&self, other: &Rect) -> (r: bool)
        ensures
            r == self.intersects(*other),
    {
        self.x1 <= other.x2 && self.x2 >= other.x1 && self.y1 <= other.y2 && self.y2 >= other.y1
    }

    /// Returns the center point of the rectangle as a tuple.
    pub fn center(&self) -> (c: (i32, i32))
        requires
            0 <= self.x1 + self.x2 <= i32::MAX,
            0 <= self.y1 + self.y2 <= i32::MAX,
        ensures
            c.0 == self.center_spec().0,
            c.1 == self.center_spec().1,
    {
        ((self.x1 + self.x2) / 2, (self.y1 + self.y2) / 2)
    }
}

/// Intersection is symmetric: the overlap test gives the same answer whichever
/// rectangle asks it.
pub proof fn lemma_intersect_symmetric(a: Rect, b: Rect)
    ensures
        a.intersects(b) == b.intersects(a),
{
}

/// A rectangle on the grid's quadrant that is at least two cells wide and
/// tall strictly contains its own center, so a carved room's center is one
/// of its floor cells and a corridor ending there meets the room.
pub proof fn lemma_center_in_interior(r: Rect)
    requires
        0 <= r.x1,
        0 <= r.y1,
        r.x1 + 2 <= r.x2,
        r.y1 + 2 <= r.y2,
    ensures
        r.contains_interior(r.center_spec().0, r.center_spec().1),
{
}

} // verus!
