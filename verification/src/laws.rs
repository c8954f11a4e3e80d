//! The library's algebraic laws, stated and proved over the same spec
//! functions that the executable functions' contracts use.

use vstd::prelude::*;

use crate::fixed::{fdiv, fits64, fmul, is_sqrt_floor, lemma_fmul_neg, lemma_sdiv_mono_general,
    lemma_sqrt_floor_exists, sqrt_floor, SCALE};
use crate::material::Material;
use crate::objects::{hit_record_spec, list_hit_from, list_hit_spec, object_hit_spec,
    sphere_hit_at, sphere_hit_spec, sphere_quadratic, HitRecord, Object, Sphere};
use crate::point::{point_diff, point_minus, point_plus, Point};
use crate::ray::Ray;
use crate::vec3::{dot3, lemma_unit_comp_bound, lemma_unit_dot_self, raw_sq, unit_neg, unit_wf,
    FreeVec3, UnitVec3, UNIT_TOL};

verus! {

/// The unit-vector invariant, read as a statement about length: the
/// floor square root of the raw squared length of any well-formed unit
/// vector is within 17 raw units (17 billionths) of the fixed-point one.
pub proof fn lemma_unit_vector_length(u: UnitVec3, r: int)
    requires
        unit_wf(u),
        is_sqrt_floor(raw_sq(u.x as int, u.y as int, u.z as int), r),
    ensures
        (SCALE as int) - 17 <= r <= (SCALE as int) + 16,
{
    let s = SCALE as int;
    let q = raw_sq(u.x as int, u.y as int, u.z as int);
    assert(s - 17 <= r <= s + 16) by (nonlinear_arith)
        requires
            is_sqrt_floor(q, r),
            s * s - UNIT_TOL <= q <= s * s + UNIT_TOL,
            s == 1_000_000_000,
            UNIT_TOL == 32_000_000_000,
    ;
}

/// Point/vector algebra: displacing a point by a free vector and then
/// back yields the original point.
pub proof fn lemma_point_add_sub_cancel(p: Point, a: FreeVec3)
    requires
        fits64(p.x + a.x),
        fits64(p.y + a.y),
        fits64(p.z + a.z),
    ensures
        point_minus(point_plus(p, a), a) == p,
{
}

/// Point/vector algebra: the displacement between two points, applied to
/// the subtrahend, yields the original point.
pub proof fn lemma_point_diff_add_cancel(p: Point, q: Point)
    requires
        fits64(p.x - q.x),
        fits64(p.y - q.y),
        fits64(p.z - q.z),
    ensures
        point_plus(q, point_diff(p, q)) == p,
{
}

/// The normal-flip rule: the normal a hit record stores never points
/// with the incoming ray; their dot product is nonpositive.
pub proof fn lemma_hit_normal_opposes_ray(
    ray: Ray,
    p: Point,
    outward: UnitVec3,
    t: int,
    material: Material,
)
    requires
        unit_wf(outward),
    ensures
        ({
            let rec = hit_record_spec(ray, p, outward, t, material);
            dot3(
                rec.normal.x as int,
                rec.normal.y as int,
                rec.normal.z as int,
                ray.direction.x as int,
                ray.direction.y as int,
                ray.direction.z as int,
            ) <= 0
        }),
{
    let d = dot3(
        ray.direction.x as int,
        ray.direction.y as int,
        ray.direction.z as int,
        outward.x as int,
        outward.y as int,
        outward.z as int,
    );
    lemma_fmul_comm(ray.direction.x as int, outward.x as int);
    lemma_fmul_comm(ray.direction.y as int, outward.y as int);
    lemma_fmul_comm(ray.direction.z as int, outward.z as int);
    if d >= 0 {
        lemma_unit_comp_bound(outward);
        let n = unit_neg(outward);
        assert(n.x as int == -(outward.x as int));
        lemma_fmul_neg(outward.x as int, ray.direction.x as int);
        lemma_fmul_neg(outward.y as int, ray.direction.y as int);
        lemma_fmul_neg(outward.z as int, ray.direction.z as int);
    }
}

/// A fixed-point product does not depend on the order of its factors.
proof fn lemma_fmul_comm(a: int, b: int)
    ensures
        fmul(a, b) == fmul(b, a),
{
    assert(a * b == b * a) by (nonlinear_arith);
}

/// A sphere hit lies strictly inside the search window.
pub proof fn lemma_sphere_hit_t_range(s: Sphere, ray: Ray, t_min: int, t_max: int, h: HitRecord)
    requires
        sphere_hit_spec(s, ray, t_min, t_max) == Some(h),
        fits64(t_min),
        fits64(t_max),
    ensures
        t_min < h.t < t_max,
{
}

/// Shrinking the far end of the window past a known hit still returns
/// that hit: the accepted root does not change as long as it stays
/// strictly inside the window.
pub proof fn lemma_sphere_hit_window_shrink(
    s: Sphere,
    ray: Ray,
    t_min: int,
    t_max1: int,
    t_max2: int,
    h: HitRecord,
)
    requires
        unit_wf(ray.direction),
        sphere_hit_spec(s, ray, t_min, t_max1) == Some(h),
        (h.t as int) < t_max2 <= t_max1,
        fits64(t_min),
        fits64(t_max1),
        fits64(t_max2),
    ensures
        sphere_hit_spec(s, ray, t_min, t_max2) == Some(h),
{
    let q = sphere_quadratic(s, ray);
    let a = q.0;
    let hb = q.1;
    let disc = fmul(hb, hb) - fmul(a, q.2);
    lemma_unit_dot_self(ray.direction);
    assert(disc > 0);
    lemma_sqrt_floor_exists(disc * (SCALE as int));
    let root = sqrt_floor(disc * (SCALE as int));
    assert(root >= 0);
    let t1 = fdiv(-hb - root, a);
    let t2 = fdiv(-hb + root, a);
    assert(t1 <= t2) by {
        lemma_sdiv_mono_general((-hb - root) * (SCALE as int), (-hb + root) * (SCALE as int), a);
        assert((-hb - root) * (SCALE as int) <= (-hb + root) * (SCALE as int))
            by (nonlinear_arith)
            requires
                root >= 0,
                SCALE == 1_000_000_000,
        ;
    }
    if t_min < t1 && t1 < t_max1 {
        // The nearer root was accepted; it is also inside the narrow
        // window.
        assert(sphere_hit_at(s, ray, t1) == Some(h));
        assert(h.t as int == t1);
        assert(sphere_hit_spec(s, ray, t_min, t_max2) == Some(h));
    } else {
        // The farther root was accepted, so the nearer root lies at or
        // below the near end of the window, in both windows.
        assert(t_min < t2 && t2 < t_max1);
        assert(sphere_hit_at(s, ray, t2) == Some(h));
        assert(h.t as int == t2);
        assert(!(t_min < t1 && t1 < t_max2));
        assert(sphere_hit_spec(s, ray, t_min, t_max2) == Some(h));
    }
}

/// The accumulator invariant of the linear scan: the best hit so far,
/// if any, sits exactly at the current window end, which never grows.
pub open spec fn scan_inv(best: Option<HitRecord>, closest: int, t_min: int, t_max: int) -> bool {
    &&& closest <= t_max
    &&& fits64(closest)
    &&& match best {
        Some(b) => b.t as int == closest && t_min < closest,
        None => closest == t_max,
    }
}

/// Once the scan holds a best hit, the rest of the scan returns a hit
/// no farther than it.
proof fn lemma_scan_keeps_best(
    objs: Seq<Object>,
    j: int,
    ray: Ray,
    t_min: int,
    closest: int,
    best: HitRecord,
)
    requires
        0 <= j <= objs.len(),
        fits64(t_min),
        fits64(closest),
        best.t as int == closest,
    ensures
        list_hit_from(objs, j, ray, t_min, closest, Some(best)) is Some,
        (list_hit_from(objs, j, ray, t_min, closest, Some(best))->Some_0.t as int) <= closest,
    decreases objs.len() - j,
{
    if j < objs.len() {
        match object_hit_spec(objs[j], ray, t_min, closest) {
            Some(h) => {
                let Object::Sphere(s) = objs[j];
                lemma_sphere_hit_t_range(s, ray, t_min, closest, h);
                lemma_scan_keeps_best(objs, j + 1, ray, t_min, h.t as int, h);
            },
            None => {
                lemma_scan_keeps_best(objs, j + 1, ray, t_min, closest, best);
            },
        }
    }
}

/// The scan from index `j` on, with a sound accumulator, returns a hit
/// no farther than the hit any remaining member makes over the full
/// window.
proof fn lemma_scan_nearest(
    objs: Seq<Object>,
    j: int,
    ray: Ray,
    t_min: int,
    t_max: int,
    closest: int,
    best: Option<HitRecord>,
    i: int,
    hi: HitRecord,
)
    requires
        unit_wf(ray.direction),
        0 <= j <= i < objs.len(),
        fits64(t_min),
        fits64(t_max),
        scan_inv(best, closest, t_min, t_max),
        object_hit_spec(objs[i], ray, t_min, t_max) == Some(hi),
    ensures
        list_hit_from(objs, j, ray, t_min, closest, best) is Some,
        (list_hit_from(objs, j, ray, t_min, closest, best)->Some_0.t as int) <= hi.t as int,
    decreases objs.len() - j,
{
    let Object::Sphere(si) = objs[i];
    lemma_sphere_hit_t_range(si, ray, t_min, t_max, hi);
    if j == i {
        if (hi.t as int) < closest {
            lemma_sphere_hit_window_shrink(si, ray, t_min, t_max, closest, hi);
            assert(object_hit_spec(objs[j], ray, t_min, closest) == Some(hi));
            lemma_scan_keeps_best(objs, j + 1, ray, t_min, hi.t as int, hi);
        } else {
            // An earlier member already shrank the window at or below
            // this hit, so the best hit exists and is no farther.
            let b = best->Some_0;
            lemma_scan_keeps_best(objs, j, ray, t_min, closest, b);
        }
    } else {
        match object_hit_spec(objs[j], ray, t_min, closest) {
            Some(h) => {
                let Object::Sphere(s) = objs[j];
                lemma_sphere_hit_t_range(s, ray, t_min, closest, h);
                lemma_scan_nearest(objs, j + 1, ray, t_min, t_max, h.t as int, Some(h), i, hi);
            },
            None => {
                lemma_scan_nearest(objs, j + 1, ray, t_min, t_max, closest, best, i, hi);
            },
        }
    }
}

/// Nearest-hit selection, in general: whenever some member of the list
/// is hit over the window, the whole-list intersection returns a hit no
/// farther than that member's.
pub proof fn lemma_list_hit_nearest(
    objs: Seq<Object>,
    ray: Ray,
    t_min: int,
    t_max: int,
    i: int,
    hi: HitRecord,
)
    requires
        unit_wf(ray.direction),
        0 <= i < objs.len(),
        object_hit_spec(objs[i], ray, t_min, t_max) == Some(hi),
        fits64(t_min),
        fits64(t_max),
    ensures
        list_hit_spec(objs, ray, t_min, t_max) is Some,
        (list_hit_spec(objs, ray, t_min, t_max)->Some_0.t as int) <= hi.t as int,
{
    lemma_scan_nearest(objs, 0, ray, t_min, t_max, t_max, None, i, hi);
}

/// Nearest-hit selection: over two spheres that a ray both hits, the
/// list scan returns a hit no farther than either, so the closest
/// surface wins.
pub proof fn lemma_nearest_of_two(
    s0: Sphere,
    s1: Sphere,
    ray: Ray,
    t_min: int,
    t_max: int,
    h0: HitRecord,
    h1: HitRecord,
)
    requires
        unit_wf(ray.direction),
        sphere_hit_spec(s0, ray, t_min, t_max) == Some(h0),
        sphere_hit_spec(s1, ray, t_min, t_max) == Some(h1),
        fits64(t_min),
        fits64(t_max),
    ensures
        ({
            let objs = seq![Object::Sphere(s0), Object::Sphere(s1)];
            &&& list_hit_spec(objs, ray, t_min, t_max) is Some
            &&& (list_hit_spec(objs, ray, t_min, t_max)->Some_0.t as int) <= h0.t as int
            &&& (list_hit_spec(objs, ray, t_min, t_max)->Some_0.t as int) <= h1.t as int
        }),
{
    let objs = seq![Object::Sphere(s0), Object::Sphere(s1)];
    lemma_sphere_hit_t_range(s0, ray, t_min, t_max, h0);
    lemma_sphere_hit_t_range(s1, ray, t_min, t_max, h1);
    assert(objs[0] == Object::Sphere(s0));
    assert(objs[1] == Object::Sphere(s1));
    assert(list_hit_spec(objs, ray, t_min, t_max) == list_hit_from(objs, 0, ray, t_min, t_max,
        None::<HitRecord>));
    assert(object_hit_spec(objs[0], ray, t_min, t_max) == Some(h0));
    assert(list_hit_from(objs, 0, ray, t_min, t_max, None::<HitRecord>) == list_hit_from(objs, 1,
        ray, t_min, h0.t as int, Some(h0)));
    let q1 = object_hit_spec(objs[1], ray, t_min, h0.t as int);
    if (h1.t as int) < h0.t as int {
        lemma_sphere_hit_window_shrink(s1, ray, t_min, t_max, h0.t as int, h1);
        assert(q1 == Some(h1));
        assert(list_hit_from(objs, 1, ray, t_min, h0.t as int, Some(h0)) == list_hit_from(objs, 2,
            ray, t_min, h1.t as int, Some(h1)));
        assert(list_hit_from(objs, 2, ray, t_min, h1.t as int, Some(h1)) == Some(h1));
    } else {
        match q1 {
            Some(h1p) => {
                lemma_sphere_hit_t_range(s1, ray, t_min, h0.t as int, h1p);
                assert(list_hit_from(objs, 1, ray, t_min, h0.t as int, Some(h0))
                    == list_hit_from(objs, 2, ray, t_min, h1p.t as int, Some(h1p)));
                assert(list_hit_from(objs, 2, ray, t_min, h1p.t as int, Some(h1p)) == Some(h1p));
            },
            None => {
                assert(list_hit_from(objs, 1, ray, t_min, h0.t as int, Some(h0))
                    == list_hit_from(objs, 2, ray, t_min, h0.t as int, Some(h0)));
                assert(list_hit_from(objs, 2, ray, t_min, h0.t as int, Some(h0)) == Some(h0));
            },
        }
    }
}

} // verus!
