//! Integer coordinates on the plane of the grid.

use vstd::prelude::*;

verus! {

/// A coordinate: `x` is the column, `y` the row. A point knows nothing of
/// any board; whether it lies on one is the board's question.
#[derive(PartialEq, Eq, Structural, Debug, Clone, Copy)]
pub struct Point {
    pub x: i32,
    pub y: i32,
}

impl Point {
    /// The sum of two points as a pair of unbounded integers.
    pub open spec fn sum(self, other: Point) -> (int, int) {
        (self.x + other.x, self.y + other.y)
    }

    /// Whether the sum of two points has coordinates that fit a `Point`.
    pub open spec fn can_add(self, other: Point) -> bool {
        &&& i32::MIN <= self.x + other.x <= i32::MAX
        &&& i32::MIN <= self.y + other.y <= i32::MAX
    }

    /// The point with the given coordinates.
    pub fn from(x: i32, y: i32) -> (p: Point)
        ensures
            p.x == x,
            p.y == y,
    {
        Point { x, y }
    }

    /// The point with the given indices as coordinates.
    pub fn from_usize(x: usize, y: usize) -> (p: Point)
        requires
            x <= i32::MAX,
            y <= i32::MAX,
        ensures
            p.x == x,
            p.y == y,
    {
        Point { x: x as i32, y: y as i32 }
    }

    /// The point moved by `other`, component by component.
    pub fn add(&self, other: Point) -> (p: Point)
        requires
            self.can_add(other),
        ensures
            (p.x as int, p.y as int) == self.sum(other),
    {
        Point { x: self.x + other.x, y: self.y + other.y }
    }

    /// Whether both coordinates agree.
    pub fn eq(&self, other: Point) -> (same: bool)
        ensures
            same == (*self == other),
            same == (self.x == other.x && self.y == other.y),
    {
        self.x == other.x && self.y == other.y
    }
}

/// Moving a point by the origin leaves it where it is, and the order of the
/// two points does not matter.
pub proof fn lemma_sum_laws(p: Point, q: Point)
    ensures
        p.sum(Point { x: 0, y: 0 }) == (p.x as int, p.y as int),
        p.sum(q) == q.sum(p),
{
}

} // verus!
