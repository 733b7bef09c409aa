//! Plain geometric values: fixed-point 2D/3D points and directed segments.

use vstd::prelude::*;

verus! {

/// One coordinate unit is 10^-6 millimetres; `UNIT` is 1.0 in fixed point.
pub const UNIT: i64 = 1_000_000;

/// Largest magnitude a model coordinate may have: 1000 mm in fixed point.
/// Keeping coordinates inside this bound keeps every intermediate product
/// of the geometry well inside `i128`.
pub const COORD_LIMIT: i64 = 1_000_000_000;

/// A 2D point in fixed-point coordinates.
#[derive(Debug, Clone, Copy, PartialEq, Eq, Structural)]
pub struct Point {
    pub x: i64,
    pub y: i64,
}

impl Point {
    /// Is the point inside the coordinate bound that the geometry accepts?
    pub open spec fn in_bounds(self) -> bool {
        -COORD_LIMIT <= self.x <= COORD_LIMIT && -COORD_LIMIT <= self.y <= COORD_LIMIT
    }

    pub fn new(x: i64, y: i64) -> (r: Point)
        ensures
            r == (Point { x, y }),
    {
        Point { x, y }
    }
}

/// A directed line segment from `p1` to `p2`.
#[derive(Debug, Clone, Copy, PartialEq, Eq, Structural)]
pub struct Segment {
    pub p1: Point,
    pub p2: Point,
}

impl Segment {
    pub fn new(p1: Point, p2: Point) -> (r: Segment)
        ensures
            r == (Segment { p1, p2 }),
    {
        Segment { p1, p2 }
    }
}

/// A 3D point as it comes out of a drawing, before plane normalization.
#[derive(Debug, Clone, Copy, PartialEq, Eq, Structural)]
pub struct Point3 {
    pub x: i64,
    pub y: i64,
    pub z: i64,
}

impl Point3 {
    /// Are all three coordinates inside the coordinate bound?
    pub open spec fn in_bounds(self) -> bool {
        &&& -COORD_LIMIT <= self.x <= COORD_LIMIT
        &&& -COORD_LIMIT <= self.y <= COORD_LIMIT
        &&& -COORD_LIMIT <= self.z <= COORD_LIMIT
    }
}

} // verus!
