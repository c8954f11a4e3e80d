//! Free vectors and unit vectors over fixed-point scalars.
//!
//! A `FreeVec3` is a displacement or direction with no fixed origin; a
//! `UnitVec3` is a direction whose raw squared length is within
//! `UNIT_TOL` of the fixed-point one, produced only by normalization or
//! by unit-sphere sampling. Arithmetic that could break unit length
//! (addition, non-unit scaling) routes through `FreeVec3`.

use vstd::prelude::*;

use crate::fixed::{
    fdiv, fits64, fmul, fsqrt, fx_div, fx_mul, fx_sqrt, iabs, is_sqrt_floor, isqrt128,
    lemma_abs_mul, lemma_fmul_bound, lemma_sdiv_abs, lemma_sqrt_floor_unique, sdiv, sqrt_floor,
    SCALE,
};

verus! {

/// Largest component magnitude accepted by the dot and cross products.
pub const DOT_LIM: i64 = 50_000_000_000_000;

/// Tolerance on the raw squared length of a unit vector.
pub const UNIT_TOL: i64 = 32_000_000_000;

/// Least raw squared length a vector may have to be normalized.
pub const NORM_QMIN: i64 = 15_625_000_000_000_000;

/// Largest component magnitude accepted by normalization.
pub const NORM_VLIM: i64 = 1_000_000_000_000_000;

/// A displacement or direction with no fixed origin.
#[derive(Clone, Copy, Debug, PartialEq, Eq, Structural)]
pub struct FreeVec3 {
    pub x: i64,
    pub y: i64,
    pub z: i64,
}

/// A direction of fixed-point length one.
#[derive(Clone, Copy, Debug, PartialEq, Eq, Structural)]
pub struct UnitVec3 {
    pub x: i64,
    pub y: i64,
    pub z: i64,
}

/// All three components are at most `b` in magnitude.
pub open spec fn vec_bounded(v: FreeVec3, b: int) -> bool {
    iabs(v.x as int) <= b && iabs(v.y as int) <= b && iabs(v.z as int) <= b
}

/// Fixed-point dot product of two free vectors.
pub open spec fn dot_spec(a: FreeVec3, b: FreeVec3) -> int {
    fmul(a.x as int, b.x as int) + fmul(a.y as int, b.y as int) + fmul(a.z as int, b.z as int)
}

/// Fixed-point cross product of two free vectors.
pub open spec fn cross_spec(a: FreeVec3, b: FreeVec3) -> (int, int, int) {
    (
        fmul(a.y as int, b.z as int) - fmul(a.z as int, b.y as int),
        fmul(a.z as int, b.x as int) - fmul(a.x as int, b.z as int),
        fmul(a.x as int, b.y as int) - fmul(a.y as int, b.x as int),
    )
}

/// Raw squared length: the plain integer sum of squared raw components,
/// carrying eighteen fractional digits (no rescaling).
pub open spec fn raw_sq(x: int, y: int, z: int) -> int {
    x * x + y * y + z * z
}

/// Well-formedness of a unit vector: its raw squared length is within
/// `UNIT_TOL` of the raw square of the fixed-point one.
pub open spec fn unit_wf(u: UnitVec3) -> bool {
    (SCALE as int) * (SCALE as int) - UNIT_TOL <= raw_sq(u.x as int, u.y as int, u.z as int)
        <= (SCALE as int) * (SCALE as int) + UNIT_TOL
}

/// The components of the normalization of `v`: each raw component is
/// scaled by the fixed-point one and divided by the floor square root
/// of the raw squared length.
pub open spec fn unit_of_comps(v: FreeVec3) -> (int, int, int) {
    let r = sqrt_floor(raw_sq(v.x as int, v.y as int, v.z as int));
    (
        sdiv((v.x as int) * (SCALE as int), r),
        sdiv((v.y as int) * (SCALE as int), r),
        sdiv((v.z as int) * (SCALE as int), r),
    )
}

/// The normalization of `v` as a unit vector.
pub open spec fn unit_of(v: FreeVec3) -> UnitVec3 {
    UnitVec3 {
        x: unit_of_comps(v).0 as i64,
        y: unit_of_comps(v).1 as i64,
        z: unit_of_comps(v).2 as i64,
    }
}

/// A well-formed unit vector has components of magnitude at most
/// `SCALE + 16`.
pub proof fn lemma_unit_comp_bound(u: UnitVec3)
    requires
        unit_wf(u),
    ensures
        iabs(u.x as int) <= SCALE + 16,
        iabs(u.y as int) <= SCALE + 16,
        iabs(u.z as int) <= SCALE + 16,
{
    let s = SCALE as int;
    assert(iabs(u.x as int) <= s + 16 && iabs(u.y as int) <= s + 16 && iabs(u.z as int) <= s + 16)
        by (nonlinear_arith)
        requires
            raw_sq(u.x as int, u.y as int, u.z as int) <= s * s + UNIT_TOL,
            s == 1_000_000_000,
            UNIT_TOL == 32_000_000_000,
    ;
}

impl FreeVec3 {
    /// Bundle three fixed-point components into a free vector.
    pub fn new(x: i64, y: i64, z: i64) -> (r: FreeVec3)
        ensures
            r == (FreeVec3 { x, y, z }),
    {
        FreeVec3 { x, y, z }
    }

    /// Component-wise vector sum.
    pub fn add(self, rhs: FreeVec3) -> (r: FreeVec3)
        requires
            fits64(self.x + rhs.x),
            fits64(self.y + rhs.y),
            fits64(self.z + rhs.z),
        ensures
            r.x as int == self.x + rhs.x,
            r.y as int == self.y + rhs.y,
            r.z as int == self.z + rhs.z,
    {
        FreeVec3 { x: self.x + rhs.x, y: self.y + rhs.y, z: self.z + rhs.z }
    }

    /// Component-wise vector difference.
    pub fn sub(self, rhs: FreeVec3) -> (r: FreeVec3)
        requires
            fits64(self.x - rhs.x),
            fits64(self.y - rhs.y),
            fits64(self.z - rhs.z),
        ensures
            r.x as int == self.x - rhs.x,
            r.y as int == self.y - rhs.y,
            r.z as int == self.z - rhs.z,
    {
        FreeVec3 { x: self.x - rhs.x, y: self.y - rhs.y, z: self.z - rhs.z }
    }

    /// Negation.
    pub fn neg(self) -> (r: FreeVec3)
        requires
            self.x > i64::MIN,
            self.y > i64::MIN,
            self.z > i64::MIN,
        ensures
            r.x as int == -(self.x as int),
            r.y as int == -(self.y as int),
            r.z as int == -(self.z as int),
    {
        FreeVec3 { x: -self.x, y: -self.y, z: -self.z }
    }

    /// Scaling by a fixed-point scalar.
    pub fn mul(self, rhs: i64) -> (r: FreeVec3)
        requires
            fits64(fmul(self.x as int, rhs as int)),
            fits64(fmul(self.y as int, rhs as int)),
            fits64(fmul(self.z as int, rhs as int)),
        ensures
            r.x as int == fmul(self.x as int, rhs as int),
            r.y as int == fmul(self.y as int, rhs as int),
            r.z as int == fmul(self.z as int, rhs as int),
    {
        FreeVec3 { x: fx_mul(self.x, rhs), y: fx_mul(self.y, rhs), z: fx_mul(self.z, rhs) }
    }

    /// Division by a fixed-point scalar.
    pub fn div(self, rhs: i64) -> (r: FreeVec3)
        requires
            rhs != 0,
            fits64(fdiv(self.x as int, rhs as int)),
            fits64(fdiv(self.y as int, rhs as int)),
            fits64(fdiv(self.z as int, rhs as int)),
        ensures
            r.x as int == fdiv(self.x as int, rhs as int),
            r.y as int == fdiv(self.y as int, rhs as int),
            r.z as int == fdiv(self.z as int, rhs as int),
    {
        FreeVec3 { x: fx_div(self.x, rhs), y: fx_div(self.y, rhs), z: fx_div(self.z, rhs) }
    }

    /// Fixed-point dot product.
    pub fn dot(&self, other: &FreeVec3) -> (r: i64)
        requires
            vec_bounded(*self, DOT_LIM as int),
            vec_bounded(*other, DOT_LIM as int),
        ensures
            r as int == dot_spec(*self, *other),
            iabs(r as int) <= 3 * ((DOT_LIM as int) * (DOT_LIM as int)) / (SCALE as int),
    {
        proof {
            lemma_fmul_bound(self.x as int, other.x as int, DOT_LIM as int, DOT_LIM as int);
            lemma_fmul_bound(self.y as int, other.y as int, DOT_LIM as int, DOT_LIM as int);
            lemma_fmul_bound(self.z as int, other.z as int, DOT_LIM as int, DOT_LIM as int);
        }
        fx_mul(self.x, other.x) + fx_mul(self.y, other.y) + fx_mul(self.z, other.z)
    }

    /// Fixed-point cross product.
    pub fn cross(&self, other: &FreeVec3) -> (r: FreeVec3)
        requires
            vec_bounded(*self, DOT_LIM as int),
            vec_bounded(*other, DOT_LIM as int),
        ensures
            r.x as int == cross_spec(*self, *other).0,
            r.y as int == cross_spec(*self, *other).1,
            r.z as int == cross_spec(*self, *other).2,
    {
        proof {
            lemma_fmul_bound(self.y as int, other.z as int, DOT_LIM as int, DOT_LIM as int);
            lemma_fmul_bound(self.z as int, other.y as int, DOT_LIM as int, DOT_LIM as int);
            lemma_fmul_bound(self.z as int, other.x as int, DOT_LIM as int, DOT_LIM as int);
            lemma_fmul_bound(self.x as int, other.z as int, DOT_LIM as int, DOT_LIM as int);
            lemma_fmul_bound(self.x as int, other.y as int, DOT_LIM as int, DOT_LIM as int);
            lemma_fmul_bound(self.y as int, other.x as int, DOT_LIM as int, DOT_LIM as int);
        }
        FreeVec3 {
            x: fx_mul(self.y, other.z) - fx_mul(self.z, other.y),
            y: fx_mul(self.z, other.x) - fx_mul(self.x, other.z),
            z: fx_mul(self.x, other.y) - fx_mul(self.y, other.x),
        }
    }

    /// Fixed-point squared length.
    pub fn length_squared(&self) -> (r: i64)
        requires
            vec_bounded(*self, DOT_LIM as int),
        ensures
            r as int == dot_spec(*self, *self),
            r >= 0,
    {
        proof {
            lemma_fmul_square_nonneg(self.x as int);
            lemma_fmul_square_nonneg(self.y as int);
            lemma_fmul_square_nonneg(self.z as int);
        }
        self.dot(self)
    }

    /// Fixed-point length: the square root of the squared length.
    pub fn length(&self) -> (r: i64)
        requires
            vec_bounded(*self, DOT_LIM as int),
        ensures
            r as int == fsqrt(dot_spec(*self, *self)),
            r >= 0,
    {
        fx_sqrt(self.length_squared())
    }
}

/// A fixed-point square is nonnegative.
pub proof fn lemma_fmul_square_nonneg(a: int)
    ensures
        fmul(a, a) >= 0,
        iabs(a * a) == a * a,
{
    assert(a * a >= 0) by (nonlinear_arith);
}

impl UnitVec3 {
    /// The first component.
    pub fn x(&self) -> (r: i64)
        ensures
            r == self.x,
    {
        self.x
    }

    /// The second component.
    pub fn y(&self) -> (r: i64)
        ensures
            r == self.y,
    {
        self.y
    }

    /// The third component.
    pub fn z(&self) -> (r: i64)
        ensures
            r == self.z,
    {
        self.z
    }

    /// Forget unit length, yielding a free vector.
    pub fn to_free(self) -> (r: FreeVec3)
        ensures
            r.x == self.x && r.y == self.y && r.z == self.z,
    {
        FreeVec3 { x: self.x, y: self.y, z: self.z }
    }

    /// Negation; unit length is preserved exactly.
    pub fn neg(self) -> (r: UnitVec3)
        requires
            unit_wf(self),
        ensures
            r.x as int == -(self.x as int),
            r.y as int == -(self.y as int),
            r.z as int == -(self.z as int),
            unit_wf(r),
    {
        proof {
            lemma_unit_comp_bound(self);
            assert((-(self.x as int)) * (-(self.x as int)) == (self.x as int) * (self.x as int))
                by (nonlinear_arith);
            assert((-(self.y as int)) * (-(self.y as int)) == (self.y as int) * (self.y as int))
                by (nonlinear_arith);
            assert((-(self.z as int)) * (-(self.z as int)) == (self.z as int) * (self.z as int))
                by (nonlinear_arith);
        }
        UnitVec3 { x: -self.x, y: -self.y, z: -self.z }
    }

    /// Scaling by a fixed-point scalar yields a free vector, not a unit
    /// vector.
    pub fn mul(self, rhs: i64) -> (r: FreeVec3)
        requires
            unit_wf(self),
            iabs(rhs as int) <= 4_000_000_000_000_000_000,
        ensures
            r.x as int == fmul(self.x as int, rhs as int),
            r.y as int == fmul(self.y as int, rhs as int),
            r.z as int == fmul(self.z as int, rhs as int),
            vec_bounded(r, iabs(rhs as int) + iabs(rhs as int) / 50_000_000 + 2),
    {
        proof {
            lemma_unit_comp_bound(self);
            lemma_unit_mul_bound(self.x as int, rhs as int);
            lemma_unit_mul_bound(self.y as int, rhs as int);
            lemma_unit_mul_bound(self.z as int, rhs as int);
        }
        FreeVec3 { x: fx_mul(self.x, rhs), y: fx_mul(self.y, rhs), z: fx_mul(self.z, rhs) }
    }

    /// Fixed-point squared length.
    pub fn length_squared(&self) -> (r: i64)
        requires
            unit_wf(*self),
        ensures
            r as int == dot_spec(self.to_free_spec(), self.to_free_spec()),
            r >= 0,
    {
        proof {
            lemma_unit_comp_bound(*self);
        }
        self.to_free().length_squared()
    }

    /// The free-vector shadow of a unit vector, at the spec level.
    pub open spec fn to_free_spec(self) -> FreeVec3 {
        FreeVec3 { x: self.x, y: self.y, z: self.z }
    }
}

/// Truncating division loses less than one divisor unit: multiplying the
/// quotient back differs from the dividend by less than `d`.
pub proof fn lemma_sdiv_trunc(n: int, d: int)
    requires
        d >= 1,
    ensures
        iabs(sdiv(n, d) * d - n) < d,
{
    if n >= 0 {
        vstd::arithmetic::div_mod::lemma_fundamental_div_mod(n, d);
        vstd::arithmetic::div_mod::lemma_mod_bound(n, d);
        assert(sdiv(n, d) * d == d * (n / d)) by (nonlinear_arith)
            requires
                sdiv(n, d) == n / d,
        ;
    } else {
        let m = -n;
        vstd::arithmetic::div_mod::lemma_fundamental_div_mod(m, d);
        vstd::arithmetic::div_mod::lemma_mod_bound(m, d);
        assert(sdiv(n, d) * d == -(d * (m / d))) by (nonlinear_arith)
            requires
                sdiv(n, d) == -(m / d),
        ;
    }
}

/// Normalization yields a well-formed unit vector: if `r` is the floor
/// square root of the raw squared length `q`, and `q` is at least
/// `NORM_QMIN`, the rescaled components have raw squared length within
/// `UNIT_TOL` of the fixed-point one.
pub proof fn lemma_normalize_wf(vx: int, vy: int, vz: int, q: int, r: int)
    requires
        q == raw_sq(vx, vy, vz),
        q >= NORM_QMIN as int,
        is_sqrt_floor(q, r),
    ensures
        (SCALE as int) * (SCALE as int) - UNIT_TOL <= raw_sq(
            sdiv(vx * (SCALE as int), r),
            sdiv(vy * (SCALE as int), r),
            sdiv(vz * (SCALE as int), r),
        ) <= (SCALE as int) * (SCALE as int) + UNIT_TOL,
{
    let s = SCALE as int;
    // The root is at least an eighth of the fixed-point one.
    assert(r >= 125_000_000) by (nonlinear_arith)
        requires
            is_sqrt_floor(q, r),
            q >= 15_625_000_000_000_000,
    ;
    // Each component magnitude is at most the root.
    assert(iabs(vx) <= r && iabs(vy) <= r && iabs(vz) <= r) by (nonlinear_arith)
        requires
            q == raw_sq(vx, vy, vz),
            is_sqrt_floor(q, r),
    ;
    let ux = sdiv(vx * s, r);
    let uy = sdiv(vy * s, r);
    let uz = sdiv(vz * s, r);
    lemma_sdiv_trunc(vx * s, r);
    lemma_sdiv_trunc(vy * s, r);
    lemma_sdiv_trunc(vz * s, r);
    // Squares of the rescaled components track the exact squares to
    // within `r * (2 * r * s + r)` each.
    lemma_norm_comp_square(vx, ux, q, r);
    lemma_norm_comp_square(vy, uy, q, r);
    lemma_norm_comp_square(vz, uz, q, r);
    let bound = r * (2 * r * s + r);
    assert(iabs(raw_sq(ux * r, uy * r, uz * r) - s * s * q) <= 3 * bound) by {
        lemma_sq_scale(vx, s);
        lemma_sq_scale(vy, s);
        lemma_sq_scale(vz, s);
        lemma_distrib3(s * s, vx * vx, vy * vy, vz * vz);
    }
    // The squared root tracks `q` to within `2 * r`.
    assert(iabs(s * s * q - s * s * (r * r)) <= 2 * r * (s * s)) by (nonlinear_arith)
        requires
            is_sqrt_floor(q, r),
            s >= 1,
    ;
    // Combine, and divide out the positive factor `r * r`.
    assert(raw_sq(ux * r, uy * r, uz * r) == raw_sq(ux, uy, uz) * (r * r)) by {
        lemma_sq_scale(ux, r);
        lemma_sq_scale(uy, r);
        lemma_sq_scale(uz, r);
        lemma_distrib3(r * r, ux * ux, uy * uy, uz * uz);
        assert(raw_sq(ux, uy, uz) * (r * r) == (r * r) * (ux * ux + uy * uy + uz * uz))
            by (nonlinear_arith);
    }
    assert(iabs(raw_sq(ux, uy, uz) * (r * r) - (s * s) * (r * r)) <= 3 * bound + 2 * r * (s * s));
    assert(3 * bound + 2 * r * (s * s) <= UNIT_TOL * (r * r)) by (nonlinear_arith)
        requires
            bound == r * (2 * r * s + r),
            s == 1_000_000_000,
            UNIT_TOL == 32_000_000_000,
            r >= 125_000_000,
    ;
    assert(s * s - UNIT_TOL <= raw_sq(ux, uy, uz) <= s * s + UNIT_TOL) by (nonlinear_arith)
        requires
            iabs(raw_sq(ux, uy, uz) * (r * r) - (s * s) * (r * r)) <= UNIT_TOL * (r * r),
            r >= 1,
    ;
}

/// The square of a product is the product of the squares.
proof fn lemma_sq_scale(a: int, b: int)
    ensures
        (a * b) * (a * b) == (b * b) * (a * a),
{
    assert((a * b) * (a * b) == (b * b) * (a * a)) by (nonlinear_arith);
}

/// Multiplication distributes over a sum of three terms.
proof fn lemma_distrib3(k: int, a: int, b: int, c: int)
    ensures
        k * (a + b + c) == k * a + k * b + k * c,
{
    assert(k * (a + b + c) == k * a + k * b + k * c) by (nonlinear_arith);
}

/// One component of the normalization: the square of the rescaled
/// component, raised by the root, tracks the exact square.
proof fn lemma_norm_comp_square(v: int, u: int, q: int, r: int)
    requires
        is_sqrt_floor(q, r),
        r >= 1,
        iabs(v) <= r,
        u == sdiv(v * (SCALE as int), r),
        iabs(u * r - v * (SCALE as int)) < r,
    ensures
        iabs((u * r) * (u * r) - (v * (SCALE as int)) * (v * (SCALE as int))) <= r * (2 * r
            * (SCALE as int) + r),
{
    let s = SCALE as int;
    let w = u * r;
    let e = w - v * s;
    assert(w * w - (v * s) * (v * s) == e * (w + v * s)) by (nonlinear_arith)
        requires
            e == w - v * s,
    ;
    assert(iabs(w + v * s) <= 2 * r * s + r) by (nonlinear_arith)
        requires
            iabs(w - v * s) < r,
            iabs(v) <= r,
            s >= 1,
            r >= 1,
    ;
    lemma_abs_mul(e, w + v * s, r, 2 * r * s + r);
}

impl FreeVec3 {
    /// Normalize into a unit vector, dividing by the floor square root
    /// of the raw squared length.
    pub fn to_unit(self) -> (r: UnitVec3)
        requires
            vec_bounded(self, NORM_VLIM as int),
            raw_sq(self.x as int, self.y as int, self.z as int) >= NORM_QMIN as int,
        ensures
            r == unit_of(self),
            unit_wf(r),
    {
        proof {
            lemma_abs_mul(self.x as int, self.x as int, NORM_VLIM as int, NORM_VLIM as int);
            lemma_abs_mul(self.y as int, self.y as int, NORM_VLIM as int, NORM_VLIM as int);
            lemma_abs_mul(self.z as int, self.z as int, NORM_VLIM as int, NORM_VLIM as int);
            lemma_fmul_square_nonneg(self.x as int);
            lemma_fmul_square_nonneg(self.y as int);
            lemma_fmul_square_nonneg(self.z as int);
        }
        let xx: i128 = (self.x as i128) * (self.x as i128);
        let yy: i128 = (self.y as i128) * (self.y as i128);
        let zz: i128 = (self.z as i128) * (self.z as i128);
        let q: i128 = xx + yy + zz;
        let root: u64 = isqrt128(q as u128);
        proof {
            lemma_sqrt_floor_unique(q as int, root as int);
            assert(root as int <= 2_000_000_000_000_000int) by (nonlinear_arith)
                requires
                    (root as int) * (root as int) <= q as int,
                    q as int <= 3_000_000_000_000_000_000_000_000_000_000int,
                    root as int >= 0,
            ;
            assert(root >= 125_000_000) by (nonlinear_arith)
                requires
                    (q as int) < ((root as int) + 1) * ((root as int) + 1),
                    q as int >= 15_625_000_000_000_000,
            ;
        }
        let rt: i64 = root as i64;
        proof {
            lemma_norm_div_fits(self.x as int, rt as int, q as int);
            lemma_norm_div_fits(self.y as int, rt as int, q as int);
            lemma_norm_div_fits(self.z as int, rt as int, q as int);
        }
        let ux: i64 = fx_div(self.x, rt);
        let uy: i64 = fx_div(self.y, rt);
        let uz: i64 = fx_div(self.z, rt);
        proof {
            lemma_normalize_wf(self.x as int, self.y as int, self.z as int, q as int, rt as int);
        }
        UnitVec3 { x: ux, y: uy, z: uz }
    }
}

/// A component divided by the root of the raw squared length fits in a
/// fixed-point scalar: the quotient is at most the fixed-point one.
proof fn lemma_norm_div_fits(v: int, r: int, q: int)
    requires
        is_sqrt_floor(q, r),
        r >= 1,
        v * v <= q,
    ensures
        iabs(fdiv(v, r)) <= SCALE as int,
        fits64(fdiv(v, r)),
{
    let s = SCALE as int;
    assert(iabs(v) <= r) by (nonlinear_arith)
        requires
            is_sqrt_floor(q, r),
            v * v <= q,
    ;
    lemma_abs_mul(v, s, r, s);
    lemma_sdiv_abs(v * s, r);
    vstd::arithmetic::div_mod::lemma_div_is_ordered(iabs(v * s), r * s, r);
    vstd::arithmetic::div_mod::lemma_div_multiples_vanish(s, r);
}

/// Negation of a unit vector, at the spec level.
pub open spec fn unit_neg(u: UnitVec3) -> UnitVec3 {
    UnitVec3 {
        x: (-(u.x as int)) as i64,
        y: (-(u.y as int)) as i64,
        z: (-(u.z as int)) as i64,
    }
}

/// The fixed-point squared length of a well-formed unit vector is within
/// a few raw units of the fixed-point one.
pub proof fn lemma_unit_dot_self(u: UnitVec3)
    requires
        unit_wf(u),
    ensures
        (SCALE as int) - 35 <= dot3(
            u.x as int,
            u.y as int,
            u.z as int,
            u.x as int,
            u.y as int,
            u.z as int,
        ) <= (SCALE as int) + 32,
{
    let s = SCALE as int;
    let xx = (u.x as int) * (u.x as int);
    let yy = (u.y as int) * (u.y as int);
    let zz = (u.z as int) * (u.z as int);
    lemma_fmul_square_nonneg(u.x as int);
    lemma_fmul_square_nonneg(u.y as int);
    lemma_fmul_square_nonneg(u.z as int);
    vstd::arithmetic::div_mod::lemma_fundamental_div_mod(xx, s);
    vstd::arithmetic::div_mod::lemma_mod_bound(xx, s);
    vstd::arithmetic::div_mod::lemma_fundamental_div_mod(yy, s);
    vstd::arithmetic::div_mod::lemma_mod_bound(yy, s);
    vstd::arithmetic::div_mod::lemma_fundamental_div_mod(zz, s);
    vstd::arithmetic::div_mod::lemma_mod_bound(zz, s);
    vstd::arithmetic::div_mod::lemma_div_pos_is_pos(xx, s);
    vstd::arithmetic::div_mod::lemma_div_pos_is_pos(yy, s);
    vstd::arithmetic::div_mod::lemma_div_pos_is_pos(zz, s);
    let a = dot3(u.x as int, u.y as int, u.z as int, u.x as int, u.y as int, u.z as int);
    assert(s * a <= xx + yy + zz <= s * a + 3 * (s - 1)) by (nonlinear_arith)
        requires
            xx == s * (xx / s) + xx % s,
            yy == s * (yy / s) + yy % s,
            zz == s * (zz / s) + zz % s,
            0 <= xx % s < s,
            0 <= yy % s < s,
            0 <= zz % s < s,
            a == xx / s + yy / s + zz / s,
    ;
    assert(s - 35 <= a <= s + 32) by (nonlinear_arith)
        requires
            s * a <= xx + yy + zz <= s * a + 3 * (s - 1),
            s * s - UNIT_TOL <= xx + yy + zz <= s * s + UNIT_TOL,
            s == 1_000_000_000,
            UNIT_TOL == 32_000_000_000,
    ;
}

/// Normalize a direction vector if it is long enough to normalize;
/// otherwise fall back to the given unit direction.
pub open spec fn normalize_or(vx: int, vy: int, vz: int, fallback: UnitVec3) -> UnitVec3 {
    if raw_sq(vx, vy, vz) >= NORM_QMIN as int {
        unit_of(FreeVec3 { x: vx as i64, y: vy as i64, z: vz as i64 })
    } else {
        fallback
    }
}

/// Fixed-point dot product over bare component triples.
pub open spec fn dot3(ax: int, ay: int, az: int, bx: int, by: int, bz: int) -> int {
    fmul(ax, bx) + fmul(ay, by) + fmul(az, bz)
}

/// Membership in the open unit disk in the plane `z = 0`.
pub open spec fn in_unit_disk(v: FreeVec3) -> bool {
    v.z == 0 && raw_sq(v.x as int, v.y as int, 0) < (SCALE as int) * (SCALE as int) && iabs(
        v.x as int,
    ) <= SCALE as int && iabs(v.y as int) <= SCALE as int
}

impl FreeVec3 {
    /// Rejection-sample a point in the open unit disk (`z = 0`): draw
    /// both coordinates uniformly in `[-1, 1)` and retry until the
    /// point falls strictly inside the disk. After an improbable run of
    /// rejections the center of the disk is returned, so that the
    /// search provably terminates.
    pub fn random_in_unit_disk(rng: &mut rand::rngs::StdRng) -> (r: FreeVec3)
        ensures
            in_unit_disk(r),
    {
        let mut tries: u32 = 0;
        while tries < 64
            decreases 64 - tries,
        {
            let x: i64 = crate::rng::rand_fx_symmetric(rng);
            let y: i64 = crate::rng::rand_fx_symmetric(rng);
            proof {
                lemma_abs_mul(x as int, x as int, SCALE as int, SCALE as int);
                lemma_abs_mul(y as int, y as int, SCALE as int, SCALE as int);
                lemma_fmul_square_nonneg(x as int);
                lemma_fmul_square_nonneg(y as int);
            }
            let q: i64 = x * x + y * y;
            if q < SCALE * SCALE {
                return FreeVec3 { x, y, z: 0 };
            }
            tries = tries + 1;
        }
        FreeVec3 { x: 0, y: 0, z: 0 }
    }
}

impl UnitVec3 {
    /// Sample a direction on the unit sphere: rejection-sample a point
    /// in the unit ball, away from the center, and normalize it. After
    /// an improbable run of rejections a fixed axis direction is
    /// returned, so that the search provably terminates.
    pub fn random_unit_vector(rng: &mut rand::rngs::StdRng) -> (r: UnitVec3)
        ensures
            unit_wf(r),
    {
        let mut tries: u32 = 0;
        while tries < 64
            decreases 64 - tries,
        {
            let x: i64 = crate::rng::rand_fx_symmetric(rng);
            let y: i64 = crate::rng::rand_fx_symmetric(rng);
            let z: i64 = crate::rng::rand_fx_symmetric(rng);
            proof {
                lemma_abs_mul(x as int, x as int, SCALE as int, SCALE as int);
                lemma_abs_mul(y as int, y as int, SCALE as int, SCALE as int);
                lemma_abs_mul(z as int, z as int, SCALE as int, SCALE as int);
                lemma_fmul_square_nonneg(x as int);
                lemma_fmul_square_nonneg(y as int);
                lemma_fmul_square_nonneg(z as int);
            }
            let q: i64 = x * x + y * y + z * z;
            if NORM_QMIN <= q && q < SCALE * SCALE {
                return FreeVec3 { x, y, z }.to_unit();
            }
            tries = tries + 1;
        }
        proof {
            assert(raw_sq(SCALE as int, 0, 0) == (SCALE as int) * (SCALE as int))
                by (nonlinear_arith);
        }
        UnitVec3 { x: SCALE, y: 0, z: 0 }
    }
}

/// The mirror reflection of `v` about the surface normal `n`:
/// `v - 2 (v . n) n`, one component at a time.
pub open spec fn reflect_spec(v: UnitVec3, n: UnitVec3) -> (int, int, int) {
    let d = dot3(v.x as int, v.y as int, v.z as int, n.x as int, n.y as int, n.z as int);
    (
        v.x - 2 * fmul(n.x as int, d),
        v.y - 2 * fmul(n.y as int, d),
        v.z - 2 * fmul(n.z as int, d),
    )
}

/// Mirror reflection of a unit direction about a unit normal.
pub fn reflection(v: UnitVec3, n: UnitVec3) -> (r: FreeVec3)
    requires
        unit_wf(v),
        unit_wf(n),
    ensures
        r.x as int == reflect_spec(v, n).0,
        r.y as int == reflect_spec(v, n).1,
        r.z as int == reflect_spec(v, n).2,
        vec_bounded(r, 8_000_000_000int),
{
    proof {
        lemma_unit_comp_bound(v);
        lemma_unit_comp_bound(n);
    }
    let d: i64 = v.to_free().dot(&n.to_free());
    proof {
        lemma_fmul_bound(v.x as int, n.x as int, SCALE + 16, SCALE + 16);
        lemma_fmul_bound(v.y as int, n.y as int, SCALE + 16, SCALE + 16);
        lemma_fmul_bound(v.z as int, n.z as int, SCALE + 16, SCALE + 16);
        assert(((SCALE + 16) * (SCALE + 16)) / (SCALE as int) <= SCALE + 33) by (nonlinear_arith)
            requires
                SCALE == 1_000_000_000,
        ;
        lemma_fmul_bound(n.x as int, d as int, SCALE + 16, 3 * (SCALE as int) + 99);
        lemma_fmul_bound(n.y as int, d as int, SCALE + 16, 3 * (SCALE as int) + 99);
        lemma_fmul_bound(n.z as int, d as int, SCALE + 16, 3 * (SCALE as int) + 99);
        assert(((SCALE + 16) * (3 * (SCALE as int) + 99)) / (SCALE as int) <= 3 * (SCALE as int)
            + 200) by (nonlinear_arith)
            requires
                SCALE == 1_000_000_000,
        ;
    }
    FreeVec3 {
        x: v.x - 2 * fx_mul(n.x, d),
        y: v.y - 2 * fx_mul(n.y, d),
        z: v.z - 2 * fx_mul(n.z, d),
    }
}

/// Snell refraction of the unit direction `uv` at a surface with unit
/// normal `n` and refraction ratio `ratio`, decomposed into components
/// perpendicular and parallel to the normal. The parallel magnitude is
/// the square root of the absolute remainder, as in the reference
/// formula.
pub open spec fn refract_spec(uv: UnitVec3, n: UnitVec3, ratio: int) -> (int, int, int) {
    let c = dot3(
        -(uv.x as int),
        -(uv.y as int),
        -(uv.z as int),
        n.x as int,
        n.y as int,
        n.z as int,
    );
    let px = fmul(fmul(n.x as int, c) + uv.x, ratio);
    let py = fmul(fmul(n.y as int, c) + uv.y, ratio);
    let pz = fmul(fmul(n.z as int, c) + uv.z, ratio);
    let pl = dot3(px, py, pz, px, py, pz);
    let sq = fsqrt(iabs(SCALE - pl));
    (px + fmul(n.x as int, -sq), py + fmul(n.y as int, -sq), pz + fmul(n.z as int, -sq))
}

/// Snell refraction of a unit direction at a unit normal.
pub fn refraction(uv: UnitVec3, n: UnitVec3, etai_over_etat: i64) -> (r: FreeVec3)
    requires
        unit_wf(uv),
        unit_wf(n),
        0 < etai_over_etat <= 10_000_000_000int,
    ensures
        r.x as int == refract_spec(uv, n, etai_over_etat as int).0,
        r.y as int == refract_spec(uv, n, etai_over_etat as int).1,
        r.z as int == refract_spec(uv, n, etai_over_etat as int).2,
        vec_bounded(r, 150_000_000_000int),
{
    proof {
        lemma_unit_comp_bound(uv);
        lemma_unit_comp_bound(n);
    }
    let c: i64 = uv.neg().to_free().dot(&n.to_free());
    proof {
        lemma_fmul_bound(-(uv.x as int), n.x as int, SCALE + 16, SCALE + 16);
        lemma_fmul_bound(-(uv.y as int), n.y as int, SCALE + 16, SCALE + 16);
        lemma_fmul_bound(-(uv.z as int), n.z as int, SCALE + 16, SCALE + 16);
        assert(((SCALE + 16) * (SCALE + 16)) / (SCALE as int) <= SCALE + 33) by (nonlinear_arith)
            requires
                SCALE == 1_000_000_000,
        ;
        lemma_fmul_bound(n.x as int, c as int, SCALE + 16, 3 * (SCALE as int) + 99);
        lemma_fmul_bound(n.y as int, c as int, SCALE + 16, 3 * (SCALE as int) + 99);
        lemma_fmul_bound(n.z as int, c as int, SCALE + 16, 3 * (SCALE as int) + 99);
        assert(((SCALE + 16) * (3 * (SCALE as int) + 99)) / (SCALE as int) <= 3 * (SCALE as int)
            + 200) by (nonlinear_arith)
            requires
                SCALE == 1_000_000_000,
        ;
    }
    let tx: i64 = fx_mul(n.x, c) + uv.x;
    let ty: i64 = fx_mul(n.y, c) + uv.y;
    let tz: i64 = fx_mul(n.z, c) + uv.z;
    proof {
        let tb = 4 * (SCALE as int) + 216;
        lemma_fmul_bound(tx as int, etai_over_etat as int, tb, 10_000_000_000int);
        lemma_fmul_bound(ty as int, etai_over_etat as int, tb, 10_000_000_000int);
        lemma_fmul_bound(tz as int, etai_over_etat as int, tb, 10_000_000_000int);
        assert((tb * 10_000_000_000int) / (SCALE as int) <= 50_000_000_000int)
            by (nonlinear_arith)
            requires
                tb == 4 * (SCALE as int) + 216,
                SCALE == 1_000_000_000,
        ;
    }
    let perp = FreeVec3 {
        x: fx_mul(tx, etai_over_etat),
        y: fx_mul(ty, etai_over_etat),
        z: fx_mul(tz, etai_over_etat),
    };
    let pl: i64 = perp.length_squared();
    proof {
        let pb = 50_000_000_000int;
        lemma_fmul_bound(perp.x as int, perp.x as int, pb, pb);
        lemma_fmul_bound(perp.y as int, perp.y as int, pb, pb);
        lemma_fmul_bound(perp.z as int, perp.z as int, pb, pb);
        assert((pb * pb) / (SCALE as int) <= 2_600_000_000_000int) by (nonlinear_arith)
            requires
                pb == 50_000_000_000int,
                SCALE == 1_000_000_000,
        ;
    }
    let k: i64 = SCALE - pl;
    let ak: i64 = if k < 0 {
        -k
    } else {
        k
    };
    proof {
        assert(0 <= ak as int <= 8_000_000_000_000int);
    }
    let sq: i64 = fx_sqrt(ak);
    proof {
        assert(sq as int <= 90_000_000_000int) by (nonlinear_arith)
            requires
                (sq as int) * (sq as int) <= (ak as int) * (SCALE as int),
                0 <= ak as int <= 8_000_000_000_000int,
                sq as int >= 0,
        ;
        lemma_fmul_bound(n.x as int, -(sq as int), SCALE + 16, 90_000_000_000int);
        lemma_fmul_bound(n.y as int, -(sq as int), SCALE + 16, 90_000_000_000int);
        lemma_fmul_bound(n.z as int, -(sq as int), SCALE + 16, 90_000_000_000int);
        assert(((SCALE + 16) * 90_000_000_000int) / (SCALE as int) <= 91_000_000_000int)
            by (nonlinear_arith)
            requires
                SCALE == 1_000_000_000,
        ;
    }
    FreeVec3 {
        x: perp.x + fx_mul(n.x, -sq),
        y: perp.y + fx_mul(n.y, -sq),
        z: perp.z + fx_mul(n.z, -sq),
    }
}

/// A product of a near-unit component with a bounded scalar keeps the
/// scalar's magnitude, up to a part in fifty million and two raw units.
pub proof fn lemma_unit_mul_bound(c: int, s: int)
    requires
        iabs(c) <= SCALE + 16,
        iabs(s) <= 4_000_000_000_000_000_000,
    ensures
        iabs(fmul(c, s)) <= iabs(s) + iabs(s) / 50_000_000 + 2,
        fits64(fmul(c, s)),
{
    let sc = SCALE as int;
    let m = iabs(s);
    lemma_abs_mul(c, s, SCALE + 16, m);
    lemma_sdiv_abs(c * s, sc);
    vstd::arithmetic::div_mod::lemma_div_is_ordered(iabs(c * s), (SCALE + 16) * m, sc);
    assert((SCALE + 16) * m == 16 * m + m * sc) by (nonlinear_arith)
        requires
            sc == 1_000_000_000,
            SCALE == 1_000_000_000,
    ;
    vstd::arithmetic::div_mod::lemma_hoist_over_denominator(16 * m, m, sc as nat);
    assert((16 * m) / sc <= m / 50_000_000) by {
        assert(16 * m >= 0) by (nonlinear_arith)
            requires
                m >= 0,
        ;
        vstd::arithmetic::div_mod::lemma_div_denominator(16 * m, 16, 62_500_000);
        vstd::arithmetic::div_mod::lemma_div_multiples_vanish(m, 16);
        vstd::arithmetic::div_mod::lemma_div_is_ordered_by_denominator(m, 50_000_000, 62_500_000);
    }
}

} // verus!
