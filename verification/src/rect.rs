//! Axis-aligned integer rectangle: construction, overlap test, centre point.

use vstd::prelude::*;

verus! {

/// An axis-aligned rectangle with corners `(x1, y1)` and `(x2, y2)`.
#[derive(Clone, Copy, PartialEq, Eq, Structural, Debug)]
pub struct Rect {
    pub x1: i32,
    pub y1: i32,
    pub x2: i32,
    pub y2: i32,
}

impl Rect {
    /// Standard axis-aligned overlap test between two rectangles.
    pub open spec fn spec_intersect(self, other: Rect) -> bool {
        self.x1 <= other.x2 && self.x2 >= other.x1 && self.y1 <= other.y2 && self.y2 >= other.y1
    }

    /// The integer midpoint of the rectangle, by floor division.
    pub open spec fn spec_center(self) -> (int, int) {
        ((self.x1 + self.x2) / 2, (self.y1 + self.y2) / 2)
    }

    /// True iff `(x, y)` lies in the carved interior of the rectangle:
    /// columns `x1 + 1 ..= x2` and rows `y1 + 1 ..= y2`.
    pub open spec fn spec_interior_contains(self, x: int, y: int) -> bool {
        self.x1 + 1 <= x <= self.x2 && self.y1 + 1 <= y <= self.y2
    }

    /// Builds the rectangle with top-left `(x, y)`, width `w` and height `h`.
    pub fn new(x: i32, y: i32, w: i32, h: i32) -> (r: Rect)
        requires
            x + w <= i32::MAX,
            y + h <= i32::MAX,
            i32::MIN <= x + w,
            i32::MIN <= y + h,
        ensures
            r.x1 == x,
            r.y1 == y,
            r.x2 == x + w,
            r.y2 == y + h,
    {
        Rect { x1: x, y1: y, x2: x + w, y2: y + h }
    }

    /// True iff `self` and `other` overlap (touching edges count as overlap).
    pub fn intersect(&self, other: &Rect) -> (r: bool)
        ensures
            r == self.spec_intersect(*other),
    {
        self.x1 <= other.x2 && self.x2 >= other.x1 && self.y1 <= other.y2 && self.y2 >= other.y1
    }

    /// The centre of a rectangle whose corners are at least two apart lies
    /// strictly between those corners on both axes.
    pub proof fn lemma_center_strictly_inside(self)
        requires
            0 <= self.x1,
            self.x1 + 2 <= self.x2,
            0 <= self.y1,
            self.y1 + 2 <= self.y2,
        ensures
            self.x1 + 1 <= self.spec_center().0 <= self.x2 - 1,
            self.y1 + 1 <= self.spec_center().1 <= self.y2 - 1,
    {
        assert((self.x1 + self.x2) / 2 >= self.x1 + 1 && (self.x1 + self.x2) / 2 <= self.x2 - 1)
            by (nonlinear_arith)
            requires
                0 <= self.x1,
                self.x1 + 2 <= self.x2,
        ;
        assert((self.y1 + self.y2) / 2 >= self.y1 + 1 && (self.y1 + self.y2) / 2 <= self.y2 - 1)
            by (nonlinear_arith)
            requires
                0 <= self.y1,
                self.y1 + 2 <= self.y2,
        ;
    }

    /// The centre of the rectangle, rounded down on both axes.
    pub fn center(&self) -> (c: (i32, i32))
        requires
            0 <= self.x1 + self.x2 <= i32::MAX,
            0 <= self.y1 + self.y2 <= i32::MAX,
        ensures
            c.0 == self.spec_center().0,
            c.1 == self.spec_center().1,
    {
        ((self.x1 + self.x2) / 2, (self.y1 + self.y2) / 2)
    }
}

} // verus!
