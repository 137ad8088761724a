//! Points and axis-aligned rectangles in grid units.

use vstd::prelude::*;

verus! {

/// A grid coordinate.
#[derive(Debug, Clone, Copy, PartialEq, Eq, Structural)]
pub struct Point {
    pub x: u32,
    pub y: u32,
}

/// The footprint of a room: its corner nearest the origin and its extent.
///
/// The cells of the room are those `(x, y)` with `self.x <= x < self.x + self.w`
/// and `self.y <= y < self.y + self.h`.
#[derive(Debug, Clone, Copy, PartialEq, Eq, Structural)]
pub struct Rect {
    pub x: u32,
    pub y: u32,
    pub w: u32,
    pub h: u32,
}

impl Rect {
    /// Whether the two rectangles overlap or touch. Rectangles that share only
    /// an edge or a corner count as intersecting, so two rooms that do not
    /// intersect are at least one unit apart along some axis.
    pub open spec fn intersects(self, other: Rect) -> bool {
        &&& self.x <= other.x + other.w
        &&& self.x + self.w >= other.x
        &&& self.y <= other.y + other.h
        &&& self.y + self.h >= other.y
    }

    /// Whether the cell `(x, y)` belongs to the rectangle.
    pub open spec fn contains(self, x: int, y: int) -> bool {
        &&& self.x <= x < self.x + self.w
        &&& self.y <= y < self.y + self.h
    }

    /// The column of the centre: the mean of the two vertical edges, rounded down.
    pub open spec fn center_x(self) -> int {
        (self.x + (self.x + self.w)) / 2
    }

    /// The row of the centre: the mean of the two horizontal edges, rounded down.
    pub open spec fn center_y(self) -> int {
        (self.y + (self.y + self.h)) / 2
    }

    /// Whether the centre can be written in grid coordinates.
    pub open spec fn has_center(self) -> bool {
        self.center_x() <= u32::MAX && self.center_y() <= u32::MAX
    }

    pub fn intersects_with(&self, rect: &Rect) -> (r: bool)
        ensures
            r == self.intersects(*rect),
    {
        (self.x as u64) <= rect.x as u64 + rect.w as u64
            && self.x as u64 + self.w as u64 >= rect.x as u64
            && (self.y as u64) <= rect.y as u64 + rect.h as u64
            && self.y as u64 + self.h as u64 >= rect.y as u64
    }

    pub fn center(&self) -> (p: Point)
        requires
            self.has_center(),
        ensures
            p.x == self.center_x(),
            p.y == self.center_y(),
    {
        let cx: u64 = (self.x as u64 + (self.x as u64 + self.w as u64)) / 2;
        let cy: u64 = (self.y as u64 + (self.y as u64 + self.h as u64)) / 2;
        Point { x: cx as u32, y: cy as u32 }
    }
}

/// Intersection does not depend on the order of the two rectangles.
pub proof fn lemma_intersects_symmetric(a: Rect, b: Rect)
    ensures
        a.intersects(b) == b.intersects(a),
{
}

/// Two rectangles that share a cell intersect.
pub proof fn lemma_shared_cell_intersects(a: Rect, b: Rect, x: int, y: int)
    requires
        a.contains(x, y),
        b.contains(x, y),
    ensures
        a.intersects(b),
{
}

} // verus!
