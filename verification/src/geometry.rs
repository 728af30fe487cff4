//! Integer grid coordinates.

use vstd::prelude::*;

verus! {

/// A position on the character grid.
#[derive(Clone, Copy, Debug, PartialEq, Eq, Structural)]
pub struct Point {
    pub x: i32,
    pub y: i32,
}

impl Point {
    pub fn new(x: i32, y: i32) -> (p: Point)
        ensures
            p == (Point { x, y }),
    {
        Point { x, y }
    }

    /// The point whose coordinates are the two members of `t`.
    pub fn from_tuple(t: (i32, i32)) -> (p: Point)
        ensures
            p == (Point { x: t.0, y: t.1 }),
    {
        Point { x: t.0, y: t.1 }
    }
}

/// A rectangle of grid cells: columns `x1..x2`, rows `y1..y2`.
#[derive(Clone, Copy, Debug, PartialEq, Eq, Structural)]
pub struct Rect {
    pub x1: i32,
    pub x2: i32,
    pub y1: i32,
    pub y2: i32,
}

impl Rect {
    /// The rectangle with the corners `(x1, y1)` and `(x2, y2)`.
    pub fn with_exact(x1: i32, y1: i32, x2: i32, y2: i32) -> (r: Rect)
        ensures
            r == (Rect { x1, x2, y1, y2 }),
    {
        Rect { x1, x2, y1, y2 }
    }

    /// Whether the cell `(x, y)` lies in the rectangle.
    pub open spec fn contains(self, x: int, y: int) -> bool {
        self.x1 <= x < self.x2 && self.y1 <= y < self.y2
    }
}

} // verus!
