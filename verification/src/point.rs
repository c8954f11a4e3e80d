//! Bound points: positions in world space. A point plus or minus a free
//! vector is a point; the difference of two points is a free vector;
//! points cannot be added to points.

use vstd::prelude::*;

use crate::fixed::fits64;
use crate::vec3::FreeVec3;

verus! {

/// A position in world space, with fixed-point coordinates.
#[derive(Clone, Copy, Debug, PartialEq, Eq, Structural)]
pub struct Point {
    pub x: i64,
    pub y: i64,
    pub z: i64,
}

/// All three coordinates are at most `b` in magnitude.
pub open spec fn point_bounded(p: Point, b: int) -> bool {
    crate::fixed::iabs(p.x as int) <= b && crate::fixed::iabs(p.y as int) <= b
        && crate::fixed::iabs(p.z as int) <= b
}

/// A point displaced by a free vector, at the spec level.
pub open spec fn point_plus(p: Point, v: FreeVec3) -> Point {
    Point { x: (p.x + v.x) as i64, y: (p.y + v.y) as i64, z: (p.z + v.z) as i64 }
}

/// A point displaced against a free vector, at the spec level.
pub open spec fn point_minus(p: Point, v: FreeVec3) -> Point {
    Point { x: (p.x - v.x) as i64, y: (p.y - v.y) as i64, z: (p.z - v.z) as i64 }
}

/// The displacement between two points: a free vector, at the spec
/// level.
pub open spec fn point_diff(p: Point, q: Point) -> FreeVec3 {
    FreeVec3 { x: (p.x - q.x) as i64, y: (p.y - q.y) as i64, z: (p.z - q.z) as i64 }
}

impl Point {
    /// Bundle three fixed-point coordinates into a point.
    pub fn new(x: i64, y: i64, z: i64) -> (r: Point)
        ensures
            r == (Point { x, y, z }),
    {
        Point { x, y, z }
    }

    /// Displace a point by a free vector.
    pub fn add(self, rhs: FreeVec3) -> (r: Point)
        requires
            fits64(self.x + rhs.x),
            fits64(self.y + rhs.y),
            fits64(self.z + rhs.z),
        ensures
            r.x as int == self.x + rhs.x,
            r.y as int == self.y + rhs.y,
            r.z as int == self.z + rhs.z,
            r == point_plus(self, rhs),
    {
        Point { x: self.x + rhs.x, y: self.y + rhs.y, z: self.z + rhs.z }
    }

    /// Displace a point by the opposite of a free vector.
    pub fn sub(self, rhs: FreeVec3) -> (r: Point)
        requires
            fits64(self.x - rhs.x),
            fits64(self.y - rhs.y),
            fits64(self.z - rhs.z),
        ensures
            r.x as int == self.x - rhs.x,
            r.y as int == self.y - rhs.y,
            r.z as int == self.z - rhs.z,
            r == point_minus(self, rhs),
    {
        Point { x: self.x - rhs.x, y: self.y - rhs.y, z: self.z - rhs.z }
    }

    /// The displacement from another point to this one: a free vector,
    /// not a point.
    pub fn sub_point(self, rhs: Point) -> (r: FreeVec3)
        requires
            fits64(self.x - rhs.x),
            fits64(self.y - rhs.y),
            fits64(self.z - rhs.z),
        ensures
            r.x as int == self.x - rhs.x,
            r.y as int == self.y - rhs.y,
            r.z as int == self.z - rhs.z,
            r == point_diff(self, rhs),
    {
        FreeVec3 { x: self.x - rhs.x, y: self.y - rhs.y, z: self.z - rhs.z }
    }
}

} // verus!
