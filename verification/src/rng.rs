//! The pseudo-random source: a seeded generator from the `rand` crate,
//! reached through trusted wrappers. Every draw is reduced to one
//! uniform fixed-point value in `[0, 1)`; everything built on top of it
//! is verified.

use vstd::prelude::*;

verus! {

#[verifier::external_type_specification]
#[verifier::external_body]
pub struct ExStdRng(rand::rngs::StdRng);

/// Relies on rand's `SeedableRng::seed_from_u64` for `StdRng`: builds a
/// generator whose stream is a function of the 64-bit seed alone.
#[verifier::external_body]
pub(crate) fn rng_from_seed(seed: u64) -> rand::rngs::StdRng {
    <rand::rngs::StdRng as rand::SeedableRng>::seed_from_u64(seed)
}

/// Relies on rand's `Rng::gen_range` over `0..SCALE`: returns a draw in
/// `[0, SCALE)`, that is, a fixed-point value in `[0, 1)`.
#[verifier::external_body]
pub(crate) fn rand_fx_unit(rng: &mut rand::rngs::StdRng) -> (r: i64)
    ensures
        0 <= r < crate::fixed::SCALE,
{
    rand::Rng::gen_range(rng, 0..crate::fixed::SCALE)
}

/// A uniform draw in `[-SCALE, SCALE)`: a fixed-point value in `[-1, 1)`,
/// derived from one unit draw.
pub(crate) fn rand_fx_symmetric(rng: &mut rand::rngs::StdRng) -> (r: i64)
    ensures
        -crate::fixed::SCALE <= r < crate::fixed::SCALE,
{
    let u: i64 = rand_fx_unit(rng);
    2 * u - crate::fixed::SCALE
}

} // verus!
