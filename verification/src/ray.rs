//! Rays: an origin point plus a unit direction, with the position at a
//! given parametric distance.

use vstd::prelude::*;

use crate::fixed::{fmul, fx_mul, iabs, lemma_fmul_bound, SCALE};
use crate::point::{point_bounded, Point};
use crate::vec3::{lemma_unit_comp_bound, unit_wf, UnitVec3};

verus! {

/// Largest coordinate magnitude of scene geometry: sphere centers,
/// radii, and camera positions.
pub const COORD_LIM: i64 = 4_096_000_000_000;

/// Largest coordinate magnitude of a ray origin: scene geometry plus
/// the farthest accepted hit distance.
pub const ORIGIN_LIM: i64 = 24_576_000_000_000;

/// The far end of the intersection search window: hits beyond this
/// parametric distance are out of scene range.
pub const T_FAR: i64 = 16_384_000_000_000;

/// Largest parametric distance accepted by `Ray::at`.
pub const T_AT_LIM: i64 = 200_000_000_000_000;

/// An origin point and a unit direction; immutable once constructed.
#[derive(Clone, Copy, Debug, PartialEq, Eq, Structural)]
pub struct Ray {
    pub origin: Point,
    pub direction: UnitVec3,
}

/// Well-formedness of a ray: the origin is within ray range and the
/// direction is a unit vector.
pub open spec fn ray_wf(r: Ray) -> bool {
    point_bounded(r.origin, ORIGIN_LIM as int) && unit_wf(r.direction)
}

/// The position at parametric distance `t` along `r`, one coordinate
/// at a time.
pub open spec fn ray_at(r: Ray, t: int) -> (int, int, int) {
    (
        r.origin.x + fmul(r.direction.x as int, t),
        r.origin.y + fmul(r.direction.y as int, t),
        r.origin.z + fmul(r.direction.z as int, t),
    )
}

impl Ray {
    /// Bundle an origin and a unit direction into a ray.
    pub fn new(origin: &Point, direction: &UnitVec3) -> (r: Ray)
        ensures
            r.origin == *origin,
            r.direction == *direction,
    {
        Ray { origin: *origin, direction: *direction }
    }

    /// The position at parametric distance `t`.
    pub fn at(&self, t: i64) -> (p: Point)
        requires
            ray_wf(*self),
            iabs(t as int) <= T_AT_LIM as int,
        ensures
            p.x as int == ray_at(*self, t as int).0,
            p.y as int == ray_at(*self, t as int).1,
            p.z as int == ray_at(*self, t as int).2,
            point_bounded(p, ORIGIN_LIM as int + (T_AT_LIM as int) * 2),
    {
        proof {
            lemma_unit_comp_bound(self.direction);
            lemma_fmul_bound(self.direction.x as int, t as int, SCALE + 16, T_AT_LIM as int);
            lemma_fmul_bound(self.direction.y as int, t as int, SCALE + 16, T_AT_LIM as int);
            lemma_fmul_bound(self.direction.z as int, t as int, SCALE + 16, T_AT_LIM as int);
            assert(((SCALE + 16) * (T_AT_LIM as int)) / (SCALE as int) <= (T_AT_LIM as int) * 2)
                by (nonlinear_arith)
                requires
                    SCALE == 1_000_000_000,
                    T_AT_LIM == 200_000_000_000_000i64,
            ;
        }
        Point {
            x: self.origin.x + fx_mul(self.direction.x, t),
            y: self.origin.y + fx_mul(self.direction.y, t),
            z: self.origin.z + fx_mul(self.direction.z, t),
        }
    }
}

} // verus!
