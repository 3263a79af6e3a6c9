//! Trusted boundary to the ambient random source. The generator is agnostic
//! to the concrete algorithm; it only needs bounded uniform draws.

use vstd::prelude::*;

verus! {

#[verifier::external_type_specification]
#[verifier::external_body]
pub struct ExRandomNumberGenerator(rltk::RandomNumberGenerator);

/// Relies on rltk's `RandomNumberGenerator::range`: a draw inclusive of `lo`
/// and exclusive of `hi`. The call panics on an empty range, so the range
/// must be non-empty.
#[verifier::external_body]
pub(crate) fn rng_range(rng: &mut rltk::RandomNumberGenerator, lo: i32, hi: i32) -> (r: i32)
    requires
        lo < hi,
    ensures
        lo <= r < hi,
{
    rng.range(lo, hi)
}

/// Relies on rltk's `RandomNumberGenerator::roll_dice`: the sum of `n` dice
/// each drawn from `1..=die`, so the result lies between `n` and `n * die`.
/// The call adds one to `die` and sums the rolls, so both must stay clear of
/// the integer limit.
#[verifier::external_body]
pub(crate) fn rng_roll_dice(rng: &mut rltk::RandomNumberGenerator, n: i32, die: i32) -> (r: i32)
    requires
        1 <= n,
        1 <= die,
        die < i32::MAX,
        n * die <= i32::MAX,
    ensures
        n <= r <= n * die,
{
    rng.roll_dice(n, die)
}

} // verus!
