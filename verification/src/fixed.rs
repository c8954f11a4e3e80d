//! Signed fixed-point scalars: `i64` raw values carrying nine fractional
//! decimal digits. `SCALE` raw units make the real number 1.0. Products
//! and quotients are computed in 128-bit intermediates and truncated
//! toward zero, mirroring the spec functions `fmul` and `fdiv` exactly.

use vstd::prelude::*;

verus! {

/// Raw units per 1.0: all scalars carry nine fractional decimal digits.
pub const SCALE: i64 = 1_000_000_000;

/// Absolute value over the mathematical integers.
pub open spec fn iabs(n: int) -> int {
    if n >= 0 {
        n
    } else {
        -n
    }
}

/// Integer division truncating toward zero, the machine semantics of `/`.
pub open spec fn sdiv(n: int, d: int) -> int {
    if (n >= 0) == (d >= 0) {
        iabs(n) / iabs(d)
    } else {
        -(iabs(n) / iabs(d))
    }
}

/// Fixed-point product: the integer product rescaled, truncated toward zero.
pub open spec fn fmul(a: int, b: int) -> int {
    sdiv(a * b, SCALE as int)
}

/// Fixed-point quotient: the dividend raised by `SCALE`, truncated toward zero.
pub open spec fn fdiv(a: int, b: int) -> int {
    sdiv(a * (SCALE as int), b)
}

/// Whether a mathematical integer is representable as an `i64`.
pub open spec fn fits64(n: int) -> bool {
    i64::MIN <= n <= i64::MAX
}

/// Division truncating toward zero, computed on magnitudes so that the
/// result equals `sdiv` of the operands.
fn tdiv128(n: i128, d: i128) -> (q: i128)
    requires
        d != 0,
        n > i128::MIN,
        d > i128::MIN,
    ensures
        q as int == sdiv(n as int, d as int),
        iabs(q as int) <= iabs(n as int),
{
    let nn: u128 = if n < 0 {
        (-n) as u128
    } else {
        n as u128
    };
    let dd: u128 = if d < 0 {
        (-d) as u128
    } else {
        d as u128
    };
    let qq: u128 = nn / dd;
    proof {
        assert(nn as int == iabs(n as int));
        assert(dd as int == iabs(d as int));
        assert(qq as int == iabs(n as int) / iabs(d as int));
        assert(iabs(n as int) / iabs(d as int) <= iabs(n as int)) by {
            vstd::arithmetic::div_mod::lemma_div_is_ordered_by_denominator(
                iabs(n as int),
                1,
                iabs(d as int),
            );
            vstd::arithmetic::div_mod::lemma_div_by_self(1);
        }
    }
    if (n < 0) == (d < 0) {
        qq as i128
    } else {
        -(qq as i128)
    }
}

/// Plain integer division by a positive divisor, truncating toward zero;
/// exact per `sdiv`.
pub fn fx_div_int(n: i64, d: i64) -> (q: i64)
    requires
        d >= 1,
    ensures
        q as int == sdiv(n as int, d as int),
{
    let q: i128 = tdiv128(n as i128, d as i128);
    q as i64
}

/// Fixed-point multiplication; exact per `fmul`.
pub fn fx_mul(a: i64, b: i64) -> (r: i64)
    requires
        fits64(fmul(a as int, b as int)),
    ensures
        r as int == fmul(a as int, b as int),
{
    proof {
        lemma_abs_mul(a as int, b as int, 0x8000_0000_0000_0000int, 0x8000_0000_0000_0000int);
    }
    let p: i128 = (a as i128) * (b as i128);
    let q: i128 = tdiv128(p, SCALE as i128);
    q as i64
}

/// Fixed-point division; exact per `fdiv`.
pub fn fx_div(a: i64, b: i64) -> (r: i64)
    requires
        b != 0,
        fits64(fdiv(a as int, b as int)),
    ensures
        r as int == fdiv(a as int, b as int),
{
    proof {
        lemma_abs_mul(a as int, SCALE as int, 0x8000_0000_0000_0000int, SCALE as int);
    }
    let p: i128 = (a as i128) * (SCALE as i128);
    let q: i128 = tdiv128(p, b as i128);
    q as i64
}

/// Floor of the square root of a 128-bit integer, by bisection.
pub fn isqrt128(n: u128) -> (r: u64)
    ensures
        (r as int) * (r as int) <= n as int,
        (n as int) < ((r as int) + 1) * ((r as int) + 1),
{
    let mut lo: u128 = 0;
    let mut hi: u128 = 0x1_0000_0000_0000_0000;
    proof {
        assert((hi as int) * (hi as int) > u128::MAX as int) by (nonlinear_arith)
            requires
                hi == 0x1_0000_0000_0000_0000u128,
        ;
    }
    while hi - lo > 1
        invariant
            lo < hi <= 0x1_0000_0000_0000_0000,
            (lo as int) * (lo as int) <= n as int,
            (n as int) < (hi as int) * (hi as int),
        decreases hi - lo,
    {
        let mid: u128 = lo + (hi - lo) / 2;
        assert(lo < mid < hi);
        proof {
            assert((mid as int) * (mid as int) <= u128::MAX as int) by (nonlinear_arith)
                requires
                    mid < 0x1_0000_0000_0000_0000u128,
            ;
        }
        if mid * mid <= n {
            lo = mid;
        } else {
            hi = mid;
        }
    }
    lo as u64
}

/// A square-root floor witness: `r` is the floor of the square root of `n`.
pub open spec fn is_sqrt_floor(n: int, r: int) -> bool {
    r >= 0 && r * r <= n && n < (r + 1) * (r + 1)
}

/// The floor of the square root, as a spec-level function.
pub open spec fn sqrt_floor(n: int) -> int {
    choose|r: int| is_sqrt_floor(n, r)
}

/// The square-root floor witness is unique, so `sqrt_floor` agrees with it.
pub proof fn lemma_sqrt_floor_unique(n: int, r: int)
    requires
        is_sqrt_floor(n, r),
    ensures
        sqrt_floor(n) == r,
{
    assert(exists|q: int| is_sqrt_floor(n, q)) by {
        assert(is_sqrt_floor(n, r));
    }
    let c = sqrt_floor(n);
    assert(is_sqrt_floor(n, c));
    assert(c == r) by (nonlinear_arith)
        requires
            is_sqrt_floor(n, c),
            is_sqrt_floor(n, r),
    ;
}

/// Fixed-point square root of a nonnegative scalar.
pub open spec fn fsqrt(x: int) -> int {
    sqrt_floor(x * (SCALE as int))
}

/// Fixed-point square root; exact per `fsqrt`.
pub fn fx_sqrt(x: i64) -> (r: i64)
    requires
        x >= 0,
    ensures
        r as int == fsqrt(x as int),
        r >= 0,
        (r as int) * (r as int) <= (x as int) * (SCALE as int),
{
    proof {
        assert((x as int) * (SCALE as int) <= 0x7FFF_FFFF_FFFF_FFFFint * (SCALE as int))
            by (nonlinear_arith)
            requires
                0 <= x as int <= 0x7FFF_FFFF_FFFF_FFFFint,
        ;
    }
    let p: u128 = (x as u128) * (SCALE as u128);
    let s: u64 = isqrt128(p);
    proof {
        lemma_sqrt_floor_unique(p as int, s as int);
        assert(s as int <= i64::MAX as int) by (nonlinear_arith)
            requires
                (s as int) * (s as int) <= p as int,
                p as int <= 0x7FFF_FFFF_FFFF_FFFFint * (SCALE as int),
                s as int >= 0,
        ;
    }
    s as i64
}

/// Fixed-point square root of a wide nonnegative scalar; exact per
/// `fsqrt`.
pub fn fx_sqrt128(x: i128) -> (r: i64)
    requires
        0 <= x <= 20_000_000_000_000_000_000i128,
    ensures
        r as int == fsqrt(x as int),
        r >= 0,
        (r as int) * (r as int) <= (x as int) * (SCALE as int),
        r as int <= 150_000_000_000_000int,
{
    proof {
        assert((x as int) * (SCALE as int) <= 20_000_000_000_000_000_000int * (SCALE as int))
            by (nonlinear_arith)
            requires
                0 <= x as int <= 20_000_000_000_000_000_000int,
        ;
    }
    let p: u128 = (x as u128) * (SCALE as u128);
    let s: u64 = isqrt128(p);
    proof {
        lemma_sqrt_floor_unique(p as int, s as int);
        assert(s as int <= 150_000_000_000_000int) by (nonlinear_arith)
            requires
                (s as int) * (s as int) <= p as int,
                p as int <= 20_000_000_000_000_000_000int * (SCALE as int),
                s as int >= 0,
                SCALE == 1_000_000_000,
        ;
    }
    s as i64
}

/// Fixed-point division that reports instead of overflowing: `None`
/// exactly when the true quotient does not fit in a fixed-point scalar.
pub fn fx_div_checked(a: i64, b: i64) -> (r: Option<i64>)
    requires
        b != 0,
    ensures
        match r {
            Some(q) => q as int == fdiv(a as int, b as int) && fits64(fdiv(a as int, b as int)),
            None => !fits64(fdiv(a as int, b as int)),
        },
{
    proof {
        lemma_abs_mul(a as int, SCALE as int, 0x8000_0000_0000_0000int, SCALE as int);
    }
    let p: i128 = (a as i128) * (SCALE as i128);
    let q: i128 = tdiv128(p, b as i128);
    if q > i64::MAX as i128 || q < i64::MIN as i128 {
        None
    } else {
        Some(q as i64)
    }
}

/// Clamp a scalar into the inclusive range `[lo, hi]`.
pub open spec fn clamp_spec(x: int, lo: int, hi: int) -> int {
    if x < lo {
        lo
    } else if x > hi {
        hi
    } else {
        x
    }
}

/// Clamp a scalar into the inclusive range `[lo, hi]`.
pub fn clamp(x: i64, lo: i64, hi: i64) -> (r: i64)
    ensures
        r as int == clamp_spec(x as int, lo as int, hi as int),
{
    if x < lo {
        lo
    } else if x > hi {
        hi
    } else {
        x
    }
}

/// The magnitude of a truncating quotient is at most the magnitude of the
/// dividend divided by a positive divisor.
pub proof fn lemma_sdiv_abs(n: int, d: int)
    requires
        d >= 1,
    ensures
        iabs(sdiv(n, d)) == iabs(n) / d,
        iabs(sdiv(n, d)) <= iabs(n),
{
    vstd::arithmetic::div_mod::lemma_div_is_ordered_by_denominator(iabs(n), 1, d);
    vstd::arithmetic::div_mod::lemma_div_by_self(1);
}

/// Truncating division by a positive divisor is monotone on magnitudes.
pub proof fn lemma_sdiv_mono(a: int, b: int, d: int)
    requires
        d >= 1,
        0 <= a <= b,
    ensures
        0 <= sdiv(a, d) <= sdiv(b, d),
{
    vstd::arithmetic::div_mod::lemma_div_is_ordered(a, b, d);
    vstd::arithmetic::div_mod::lemma_div_pos_is_pos(a, d);
}

/// Truncating division by a positive divisor is monotone in the
/// dividend, whatever its sign.
pub proof fn lemma_sdiv_mono_general(a: int, b: int, d: int)
    requires
        d >= 1,
        a <= b,
    ensures
        sdiv(a, d) <= sdiv(b, d),
{
    if a >= 0 {
        lemma_sdiv_mono(a, b, d);
    } else if b < 0 {
        vstd::arithmetic::div_mod::lemma_div_is_ordered(-b, -a, d);
    } else {
        vstd::arithmetic::div_mod::lemma_div_pos_is_pos(-a, d);
        vstd::arithmetic::div_mod::lemma_div_pos_is_pos(b, d);
    }
}

/// Every nonnegative integer has a floor square root, so `sqrt_floor`
/// denotes one.
pub proof fn lemma_sqrt_floor_exists(n: int)
    requires
        n >= 0,
    ensures
        is_sqrt_floor(n, sqrt_floor(n)),
    decreases n,
{
    if n == 0 {
        assert(is_sqrt_floor(0, 0));
    } else {
        lemma_sqrt_floor_exists(n - 1);
        let c = sqrt_floor(n - 1);
        if n < (c + 1) * (c + 1) {
            assert(is_sqrt_floor(n, c));
        } else {
            assert(n == (c + 1) * (c + 1));
            assert(is_sqrt_floor(n, c + 1)) by (nonlinear_arith)
                requires
                    n == (c + 1) * (c + 1),
                    c >= 0,
            ;
        }
    }
    assert(exists|r: int| is_sqrt_floor(n, r));
}

/// Exact multiples cancel under truncating division.
pub proof fn lemma_sdiv_exact(k: int, d: int)
    requires
        d >= 1,
    ensures
        sdiv(k * d, d) == k,
{
    if k >= 0 {
        assert(k * d >= 0 && iabs(k * d) == d * k) by (nonlinear_arith)
            requires
                k >= 0,
                d >= 1,
        ;
        vstd::arithmetic::div_mod::lemma_div_multiples_vanish(k, d);
    } else {
        assert(k * d < 0 && iabs(k * d) == d * (-k)) by (nonlinear_arith)
            requires
                k < 0,
                d >= 1,
        ;
        vstd::arithmetic::div_mod::lemma_div_multiples_vanish(-k, d);
    }
}

/// Negating one factor negates a fixed-point product.
pub proof fn lemma_fmul_neg(a: int, b: int)
    ensures
        fmul(-a, b) == -fmul(a, b),
{
    assert((-a) * b == -(a * b)) by (nonlinear_arith);
}

/// Magnitude bound for a product: `|a| <= aa` and `|b| <= bb` give
/// `|a * b| <= aa * bb`.
pub proof fn lemma_abs_mul(a: int, b: int, aa: int, bb: int)
    requires
        iabs(a) <= aa,
        iabs(b) <= bb,
    ensures
        iabs(a * b) <= aa * bb,
{
    assert(iabs(a * b) <= aa * bb) by (nonlinear_arith)
        requires
            iabs(a) <= aa,
            iabs(b) <= bb,
    ;
}

/// Magnitude bound for a fixed-point product.
pub proof fn lemma_fmul_bound(a: int, b: int, aa: int, bb: int)
    requires
        iabs(a) <= aa,
        iabs(b) <= bb,
    ensures
        iabs(fmul(a, b)) <= (aa * bb) / (SCALE as int),
        iabs(fmul(a, b)) <= aa * bb,
{
    lemma_abs_mul(a, b, aa, bb);
    lemma_sdiv_abs(a * b, SCALE as int);
    vstd::arithmetic::div_mod::lemma_div_is_ordered(iabs(a * b), aa * bb, SCALE as int);
    vstd::arithmetic::div_mod::lemma_div_is_ordered_by_denominator(aa * bb, 1, SCALE as int);
    vstd::arithmetic::div_mod::lemma_div_by_self(1);
}

/// A fixed-point product of factors in `[0, SCALE]` stays in `[0, SCALE]`,
/// and is bounded by each factor.
pub proof fn lemma_fmul_unit_range(a: int, b: int)
    requires
        0 <= a <= SCALE as int,
        0 <= b <= SCALE as int,
    ensures
        0 <= fmul(a, b) <= a,
        fmul(a, b) <= b,
        fmul(a, b) <= SCALE as int,
{
    assert(a * b >= 0) by (nonlinear_arith)
        requires
            a >= 0,
            b >= 0,
    ;
    assert(a * b <= a * (SCALE as int)) by (nonlinear_arith)
        requires
            0 <= a,
            b <= SCALE as int,
    ;
    assert(a * b <= b * (SCALE as int)) by (nonlinear_arith)
        requires
            0 <= b,
            a <= SCALE as int,
    ;
    lemma_sdiv_mono(a * b, a * (SCALE as int), SCALE as int);
    lemma_sdiv_mono(a * b, b * (SCALE as int), SCALE as int);
    lemma_sdiv_exact(a, SCALE as int);
    lemma_sdiv_exact(b, SCALE as int);
}

/// Multiplying by `SCALE` (the fixed-point 1.0) is the identity.
pub proof fn lemma_fmul_one(a: int)
    ensures
        fmul(a, SCALE as int) == a,
        fmul(SCALE as int, a) == a,
{
    lemma_sdiv_exact(a, SCALE as int);
    assert(a * (SCALE as int) == (SCALE as int) * a) by (nonlinear_arith);
}

/// Multiplying by zero gives zero.
pub proof fn lemma_fmul_zero(a: int)
    ensures
        fmul(a, 0) == 0,
        fmul(0, a) == 0,
{
    assert(a * 0 == 0) by (nonlinear_arith);
    assert(0 * a == 0) by (nonlinear_arith);
    assert(iabs(0int) / (SCALE as int) == 0) by {
        vstd::arithmetic::div_mod::lemma_div_of0(SCALE as int);
    }
}

} // verus!
