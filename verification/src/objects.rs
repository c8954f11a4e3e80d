//! Intersectable geometry: hit records, spheres, and the composite
//! object list that keeps the closest valid hit.
//!
//! A hit record's normal-flip rule (the stored normal opposes the
//! incoming ray) is enforced at construction and never re-derived. The
//! sphere intersection solves the half-b quadratic and accepts the
//! nearest root strictly inside the search window; hits whose computed
//! point or outward normal falls outside ray range are rejected, which
//! cannot happen for scene geometry within `COORD_LIM`.

use vstd::prelude::*;

use crate::fixed::{fdiv, fits64, fmul, fsqrt, fx_div, fx_mul, fx_sqrt128, iabs, lemma_fmul_bound,
    lemma_sdiv_abs, SCALE};
use crate::material::{material_wf, Material};
use crate::point::{point_bounded, Point};
use crate::ray::{ray_at, ray_wf, Ray, COORD_LIM, ORIGIN_LIM, T_FAR};
use crate::vec3::{dot3, lemma_unit_comp_bound, lemma_unit_dot_self, raw_sq, unit_neg, unit_of,
    unit_wf, FreeVec3, UnitVec3, NORM_QMIN, NORM_VLIM};

verus! {

/// The record of a ray-surface intersection, constructed exclusively by
/// an object's intersection routine.
#[derive(Clone, Copy, Debug, PartialEq, Eq, Structural)]
pub struct HitRecord {
    /// The hit point.
    pub p: Point,
    /// The surface normal, oriented to oppose the incoming ray.
    pub normal: UnitVec3,
    /// The parametric distance of the hit along the ray.
    pub t: i64,
    /// Whether the ray approached from the side the outward normal
    /// points toward.
    pub front_face: bool,
    /// The material of the surface that was hit.
    pub material: Material,
}

/// Well-formedness of a hit record: the point is within ray range, the
/// normal is unit, and the material is well-formed.
pub open spec fn hit_rec_wf(h: HitRecord) -> bool {
    point_bounded(h.p, ORIGIN_LIM as int) && unit_wf(h.normal) && material_wf(h.material)
}

/// The hit record built from an outward normal: the stored normal is the
/// outward normal when the ray approaches from outside, and its opposite
/// otherwise.
pub open spec fn hit_record_spec(
    ray: Ray,
    p: Point,
    outward: UnitVec3,
    t: int,
    material: Material,
) -> HitRecord {
    let d = dot3(
        ray.direction.x as int,
        ray.direction.y as int,
        ray.direction.z as int,
        outward.x as int,
        outward.y as int,
        outward.z as int,
    );
    if d < 0 {
        HitRecord { p, normal: outward, t: t as i64, front_face: true, material }
    } else {
        HitRecord { p, normal: unit_neg(outward), t: t as i64, front_face: false, material }
    }
}

impl HitRecord {
    /// Build a hit record, orienting the normal against the incoming
    /// ray: the front face is the side the outward normal points toward.
    pub fn new(ray: &Ray, p: Point, outward_normal: UnitVec3, t: i64, material: Material) -> (rec:
        HitRecord)
        requires
            unit_wf(outward_normal),
            unit_wf(ray.direction),
        ensures
            rec == hit_record_spec(*ray, p, outward_normal, t as int, material),
            unit_wf(rec.normal),
    {
        proof {
            lemma_unit_comp_bound(outward_normal);
            lemma_unit_comp_bound(ray.direction);
        }
        let d: i64 = ray.direction.to_free().dot(&outward_normal.to_free());
        let front_face: bool = 0 > d;
        let normal: UnitVec3 = if front_face {
            outward_normal
        } else {
            outward_normal.neg()
        };
        HitRecord { p, normal, t, front_face, material }
    }
}

/// A sphere: a center, a radius, and the material of its surface.
#[derive(Clone, Copy, Debug, PartialEq, Eq, Structural)]
pub struct Sphere {
    pub center: Point,
    pub radius: i64,
    pub material: Material,
}

/// Well-formedness of a sphere: center and radius within scene range,
/// material well-formed. A nonpositive radius is accepted; such a
/// degenerate sphere simply never intersects.
pub open spec fn sphere_wf(s: Sphere) -> bool {
    point_bounded(s.center, COORD_LIM as int) && iabs(s.radius as int) <= COORD_LIM as int
        && material_wf(s.material)
}

/// The half-b quadratic of a ray against a sphere: the coefficient
/// triple `(a, half_b, c)` with `a` the squared direction length,
/// `half_b` the dot of the center offset with the direction, and `c`
/// the squared offset length less the squared radius.
pub open spec fn sphere_quadratic(s: Sphere, ray: Ray) -> (int, int, int) {
    let ocx = ray.origin.x - s.center.x;
    let ocy = ray.origin.y - s.center.y;
    let ocz = ray.origin.z - s.center.z;
    let dx = ray.direction.x as int;
    let dy = ray.direction.y as int;
    let dz = ray.direction.z as int;
    (
        dot3(dx, dy, dz, dx, dy, dz),
        dot3(ocx, ocy, ocz, dx, dy, dz),
        dot3(ocx, ocy, ocz, ocx, ocy, ocz) - fmul(s.radius as int, s.radius as int),
    )
}

/// The hit record a sphere produces at parametric distance `t`, if the
/// computed point and outward normal stay within ray range: the point
/// is the ray position at `t`, and the outward normal is the offset
/// from the center divided by the radius, normalized.
pub open spec fn sphere_hit_at(s: Sphere, ray: Ray, t: int) -> Option<HitRecord> {
    let p = ray_at(ray, t);
    if iabs(p.0) <= ORIGIN_LIM as int && iabs(p.1) <= ORIGIN_LIM as int && iabs(p.2)
        <= ORIGIN_LIM as int {
        let vx = fdiv(p.0 - s.center.x, s.radius as int);
        let vy = fdiv(p.1 - s.center.y, s.radius as int);
        let vz = fdiv(p.2 - s.center.z, s.radius as int);
        if fits64(vx) && fits64(vy) && fits64(vz) && iabs(vx) <= NORM_VLIM as int && iabs(vy)
            <= NORM_VLIM as int && iabs(vz) <= NORM_VLIM as int && raw_sq(vx, vy, vz)
            >= NORM_QMIN as int {
            let outward = unit_of(FreeVec3 { x: vx as i64, y: vy as i64, z: vz as i64 });
            Some(
                hit_record_spec(
                    ray,
                    Point { x: p.0 as i64, y: p.1 as i64, z: p.2 as i64 },
                    outward,
                    t,
                    s.material,
                ),
            )
        } else {
            None
        }
    } else {
        None
    }
}

/// The sphere intersection: no hit unless the radius and the
/// discriminant are positive, otherwise the first of the two roots, in
/// ascending order, strictly inside the window `(t_min, t_max)`.
pub open spec fn sphere_hit_spec(s: Sphere, ray: Ray, t_min: int, t_max: int) -> Option<
    HitRecord,
> {
    if s.radius <= 0 {
        None
    } else {
        let q = sphere_quadratic(s, ray);
        let disc = fmul(q.1, q.1) - fmul(q.0, q.2);
        if disc > 0 {
            let root = fsqrt(disc);
            let t1 = fdiv(-q.1 - root, q.0);
            let t2 = fdiv(-q.1 + root, q.0);
            if t_min < t1 && t1 < t_max {
                sphere_hit_at(s, ray, t1)
            } else if t_min < t2 && t2 < t_max {
                sphere_hit_at(s, ray, t2)
            } else {
                None
            }
        } else {
            None
        }
    }
}

impl Sphere {
    /// Bundle a center, a radius and a material into a sphere.
    pub fn new(center: Point, radius: i64, material: Material) -> (s: Sphere)
        ensures
            s == (Sphere { center, radius, material }),
    {
        Sphere { center, radius, material }
    }

    /// Intersect a ray with this sphere over the window
    /// `(t_min, t_max)`, returning the nearest valid hit.
    pub fn hit(&self, ray: &Ray, t_min: i64, t_max: i64) -> (r: Option<HitRecord>)
        requires
            sphere_wf(*self),
            ray_wf(*ray),
            0 <= t_min,
            t_max <= T_FAR,
        ensures
            r == sphere_hit_spec(*self, *ray, t_min as int, t_max as int),
            match r {
                Some(h) => hit_rec_wf(h) && t_min < h.t < t_max && h.material == self.material,
                None => true,
            },
    {
        if self.radius <= 0 {
            return None;
        }
        let oc: FreeVec3 = ray.origin.sub_point(self.center);
        proof {
            lemma_unit_comp_bound(ray.direction);
            lemma_unit_dot_self(ray.direction);
        }
        let a: i64 = ray.direction.length_squared();
        let half_b: i64 = oc.dot(&ray.direction.to_free());
        proof {
            let ocb = (ORIGIN_LIM + COORD_LIM) as int;
            lemma_fmul_bound(oc.x as int, ray.direction.x as int, ocb, SCALE + 16);
            lemma_fmul_bound(oc.y as int, ray.direction.y as int, ocb, SCALE + 16);
            lemma_fmul_bound(oc.z as int, ray.direction.z as int, ocb, SCALE + 16);
            assert((ocb * (SCALE + 16)) / (SCALE as int) <= 30_000_000_000_000int)
                by (nonlinear_arith)
                requires
                    ocb == (ORIGIN_LIM + COORD_LIM) as int,
                    ORIGIN_LIM == 24_576_000_000_000i64,
                    COORD_LIM == 4_096_000_000_000i64,
                    SCALE == 1_000_000_000,
            ;
            lemma_fmul_bound(oc.x as int, oc.x as int, ocb, ocb);
            lemma_fmul_bound(oc.y as int, oc.y as int, ocb, ocb);
            lemma_fmul_bound(oc.z as int, oc.z as int, ocb, ocb);
            assert((ocb * ocb) / (SCALE as int) <= 830_000_000_000_000_000int) by (nonlinear_arith)
                requires
                    ocb == (ORIGIN_LIM + COORD_LIM) as int,
                    ORIGIN_LIM == 24_576_000_000_000i64,
                    COORD_LIM == 4_096_000_000_000i64,
                    SCALE == 1_000_000_000,
            ;
            lemma_fmul_bound(self.radius as int, self.radius as int, COORD_LIM as int,
                COORD_LIM as int);
            assert(((COORD_LIM as int) * (COORD_LIM as int)) / (SCALE as int)
                <= 17_000_000_000_000_000int) by (nonlinear_arith)
                requires
                    COORD_LIM == 4_096_000_000_000i64,
                    SCALE == 1_000_000_000,
            ;
        }
        let c: i64 = oc.length_squared() - fx_mul(self.radius, self.radius);
        proof {
            lemma_fmul_bound(half_b as int, half_b as int, 90_000_000_000_000int,
                90_000_000_000_000int);
            assert((90_000_000_000_000int * 90_000_000_000_000int) / (SCALE as int)
                <= 8_100_000_000_000_000_000int) by (nonlinear_arith)
                requires
                    SCALE == 1_000_000_000,
            ;
            lemma_fmul_bound(a as int, c as int, (SCALE as int) + 32, 2_510_000_000_000_000_000int);
            assert((((SCALE as int) + 32) * 2_510_000_000_000_000_000int) / (SCALE as int)
                <= 2_600_000_000_000_000_000int) by (nonlinear_arith)
                requires
                    SCALE == 1_000_000_000,
            ;
        }
        let hb2: i64 = fx_mul(half_b, half_b);
        let ac: i64 = fx_mul(a, c);
        let disc: i128 = (hb2 as i128) - (ac as i128);
        if disc > 0 {
            let root: i64 = fx_sqrt128(disc);
            proof {
                lemma_root_div_fits(-(half_b as int) - (root as int), a as int);
                lemma_root_div_fits(-(half_b as int) + (root as int), a as int);
            }
            let t1: i64 = fx_div(-half_b - root, a);
            if t_min < t1 && t1 < t_max {
                return self.hit_at(ray, t1);
            }
            let t2: i64 = fx_div(-half_b + root, a);
            if t_min < t2 && t2 < t_max {
                return self.hit_at(ray, t2);
            }
            return None;
        }
        None
    }

    /// Build the hit record at an accepted root, rejecting the hit when
    /// the point or outward normal leaves ray range.
    fn hit_at(&self, ray: &Ray, t: i64) -> (r: Option<HitRecord>)
        requires
            sphere_wf(*self),
            ray_wf(*ray),
            self.radius > 0,
            0 < t <= T_FAR,
        ensures
            r == sphere_hit_at(*self, *ray, t as int),
            match r {
                Some(h) => hit_rec_wf(h) && h.t == t && h.material == self.material,
                None => true,
            },
    {
        let p: Point = ray.at(t);
        if p.x > ORIGIN_LIM || p.x < -ORIGIN_LIM || p.y > ORIGIN_LIM || p.y < -ORIGIN_LIM || p.z
            > ORIGIN_LIM || p.z < -ORIGIN_LIM {
            return None;
        }
        let wx: Option<i64> = crate::fixed::fx_div_checked(p.x - self.center.x, self.radius);
        let wy: Option<i64> = crate::fixed::fx_div_checked(p.y - self.center.y, self.radius);
        let wz: Option<i64> = crate::fixed::fx_div_checked(p.z - self.center.z, self.radius);
        let (vx, vy, vz): (i64, i64, i64) = match (wx, wy, wz) {
            (Some(vx), Some(vy), Some(vz)) => (vx, vy, vz),
            _ => {
                return None;
            },
        };
        if vx > NORM_VLIM || vx < -NORM_VLIM || vy > NORM_VLIM || vy < -NORM_VLIM || vz > NORM_VLIM
            || vz < -NORM_VLIM {
            return None;
        }
        proof {
            crate::fixed::lemma_abs_mul(vx as int, vx as int, NORM_VLIM as int, NORM_VLIM as int);
            crate::fixed::lemma_abs_mul(vy as int, vy as int, NORM_VLIM as int, NORM_VLIM as int);
            crate::fixed::lemma_abs_mul(vz as int, vz as int, NORM_VLIM as int, NORM_VLIM as int);
            crate::vec3::lemma_fmul_square_nonneg(vx as int);
            crate::vec3::lemma_fmul_square_nonneg(vy as int);
            crate::vec3::lemma_fmul_square_nonneg(vz as int);
        }
        let q: i128 = (vx as i128) * (vx as i128) + (vy as i128) * (vy as i128) + (vz as i128)
            * (vz as i128);
        if q < NORM_QMIN as i128 {
            return None;
        }
        let outward: UnitVec3 = FreeVec3::new(vx, vy, vz).to_unit();
        Some(HitRecord::new(ray, p, outward, t, self.material))
    }
}

/// An intersectable primitive: a closed variant set.
#[derive(Clone, Copy, Debug, PartialEq, Eq, Structural)]
pub enum Object {
    Sphere(Sphere),
}

/// Well-formedness of an object.
pub open spec fn object_wf(o: Object) -> bool {
    match o {
        Object::Sphere(s) => sphere_wf(s),
    }
}

/// The intersection of a ray with an object.
pub open spec fn object_hit_spec(o: Object, ray: Ray, t_min: int, t_max: int) -> Option<
    HitRecord,
> {
    match o {
        Object::Sphere(s) => sphere_hit_spec(s, ray, t_min, t_max),
    }
}

impl Object {
    /// Intersect a ray with this object over the window `(t_min, t_max)`.
    pub fn hit(&self, ray: &Ray, t_min: i64, t_max: i64) -> (r: Option<HitRecord>)
        requires
            object_wf(*self),
            ray_wf(*ray),
            0 <= t_min,
            t_max <= T_FAR,
        ensures
            r == object_hit_spec(*self, *ray, t_min as int, t_max as int),
            match r {
                Some(h) => hit_rec_wf(h) && t_min < h.t < t_max,
                None => true,
            },
    {
        match self {
            Object::Sphere(s) => s.hit(ray, t_min, t_max),
        }
    }
}

/// The linear scan over the members from index `i` on, keeping the
/// closest hit found so far: each member is queried over the window
/// shrunk to the best hit, so the scan returns the globally nearest
/// valid hit without sorting.
pub open spec fn list_hit_from(
    objs: Seq<Object>,
    i: int,
    ray: Ray,
    t_min: int,
    closest: int,
    best: Option<HitRecord>,
) -> Option<HitRecord>
    decreases objs.len() - i,
{
    if i < 0 || i >= objs.len() {
        best
    } else {
        match object_hit_spec(objs[i], ray, t_min, closest) {
            Some(h) => list_hit_from(objs, i + 1, ray, t_min, h.t as int, Some(h)),
            None => list_hit_from(objs, i + 1, ray, t_min, closest, best),
        }
    }
}

/// The intersection of a ray with a whole list of objects: the closest
/// valid hit over the window `(t_min, t_max)`, or none.
pub open spec fn list_hit_spec(objs: Seq<Object>, ray: Ray, t_min: int, t_max: int) -> Option<
    HitRecord,
> {
    list_hit_from(objs, 0, ray, t_min, t_max, None)
}

/// A polymorphic collection of objects exposing a single intersection
/// query; it has no geometry of its own.
pub struct ObjectList {
    pub objects: Vec<Object>,
}

/// Well-formedness of an object list: every member is well-formed.
pub open spec fn list_wf(l: ObjectList) -> bool {
    forall|i: int| 0 <= i < l.objects@.len() ==> object_wf(#[trigger] l.objects@[i])
}

impl ObjectList {
    /// An empty list.
    pub fn new() -> (l: ObjectList)
        ensures
            l.objects@ =~= Seq::<Object>::empty(),
            list_wf(l),
    {
        ObjectList { objects: Vec::new() }
    }

    /// Append an object to the list.
    pub fn add(&mut self, object: Object)
        ensures
            final(self).objects@ == old(self).objects@.push(object),
    {
        self.objects.push(object);
    }

    /// Intersect a ray with every member, keeping the closest valid hit
    /// by shrinking the search window as hits are found.
    pub fn hit(&self, ray: &Ray, t_min: i64, t_max: i64) -> (r: Option<HitRecord>)
        requires
            list_wf(*self),
            ray_wf(*ray),
            0 <= t_min,
            t_max <= T_FAR,
        ensures
            r == list_hit_spec(self.objects@, *ray, t_min as int, t_max as int),
            match r {
                Some(h) => hit_rec_wf(h) && t_min < h.t < t_max,
                None => true,
            },
    {
        let ghost objs = self.objects@;
        let mut closest_so_far: i64 = t_max;
        let mut closest_hit: Option<HitRecord> = None;
        let n: usize = self.objects.len();
        let mut i: usize = 0;
        while i < n
            invariant
                list_wf(*self),
                ray_wf(*ray),
                0 <= t_min,
                objs == self.objects@,
                n == objs.len(),
                0 <= i <= n,
                closest_so_far <= t_max <= T_FAR,
                list_hit_from(objs, i as int, *ray, t_min as int, closest_so_far as int,
                    closest_hit) == list_hit_spec(objs, *ray, t_min as int, t_max as int),
                match closest_hit {
                    Some(h) => hit_rec_wf(h) && t_min < h.t < t_max && h.t == closest_so_far,
                    None => closest_so_far == t_max,
                },
            decreases n - i,
        {
            let obj: &Object = &self.objects[i];
            if let Some(hit) = obj.hit(ray, t_min, closest_so_far) {
                closest_so_far = hit.t;
                closest_hit = Some(hit);
            }
            i = i + 1;
        }
        closest_hit
    }
}

/// A quotient of a root numerator by the squared direction length fits
/// in a fixed-point scalar.
proof fn lemma_root_div_fits(num: int, a: int)
    requires
        iabs(num) <= 250_000_000_000_000int,
        (SCALE as int) - 35 <= a <= (SCALE as int) + 32,
    ensures
        fits64(fdiv(num, a)),
        iabs(fdiv(num, a)) <= 260_000_000_000_000int,
        a != 0,
{
    let s = SCALE as int;
    crate::fixed::lemma_abs_mul(num, s, 250_000_000_000_000int, s);
    lemma_sdiv_abs(num * s, a);
    vstd::arithmetic::div_mod::lemma_div_is_ordered(iabs(num * s), 250_000_000_000_000int * s, a);
    assert((250_000_000_000_000int * s) / a <= 260_000_000_000_000int) by (nonlinear_arith)
        requires
            s == 1_000_000_000,
            s - 35 <= a <= s + 32,
    ;
}

} // verus!
