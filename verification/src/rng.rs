//! The spawner's randomness, drawn from macroquad's pseudo-random
//! generator. The draw itself is the one operation taken on trust; all
//! logic that consumes a draw is verified for every value the contract
//! admits.

use vstd::prelude::*;

verus! {

#[verifier::external_type_specification]
#[verifier::external_body]
pub struct ExRandGenerator(macroquad::rand::RandGenerator);

/// Relies on macroquad's `RandGenerator::gen_range::<i64>` (quad_rand):
/// it computes `low + (high - low) * u` truncated toward zero, with `u`
/// drawn in `[0, 1)` as an `f64` multiple of `2^-32`. For bounds within
/// two million and a positive `high`, every quantity involved is exact
/// enough in `f64` that the truncated result lies in `[low, high)`.
#[verifier::external_body]
pub(crate) fn gen_range_i64(rng: &macroquad::rand::RandGenerator, low: i64, high: i64) -> (r:
    i64)
    requires
        -2_000_000 <= low,
        low < high,
        high <= 2_000_000,
        1 <= high,
    ensures
        low <= r < high,
{
    rng.gen_range(low, high)
}

} // verus!
