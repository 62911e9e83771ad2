//! Trusted boundary to the seeded random number generator of the rltk crate.
//! Every contract here states only what holds of every outcome of a draw;
//! nothing is assumed about which value comes back.

use vstd::prelude::*;

verus! {

/// rltk's xorshift-backed random number generator, opaque to verification.
#[verifier::external_type_specification]
#[verifier::external_body]
pub struct ExRandomNumberGenerator(rltk::RandomNumberGenerator);

/// Relies on rltk::RandomNumberGenerator::range: a uniform draw from
/// `[min, max)`, inclusive of `min` and exclusive of `max`. It panics on an
/// empty range, so `min < max` is required.
#[verifier::external_body]
pub(crate) fn rng_range(rng: &mut rltk::RandomNumberGenerator, min: i32, max: i32) -> (r: i32)
    requires
        min < max,
    ensures
        min <= r < max,
{
    rng.range(min, max)
}

/// Relies on rltk::RandomNumberGenerator::roll_dice: the sum of `n` dice
/// each drawn from `1 ..= die_type`. It computes `die_type + 1` and sums `n`
/// draws, so the bounds below keep its own arithmetic in range.
#[verifier::external_body]
pub(crate) fn rng_roll_dice(rng: &mut rltk::RandomNumberGenerator, n: i32, die_type: i32) -> (r:
    i32)
    requires
        1 <= n,
        1 <= die_type,
        die_type < i32::MAX,
        n * die_type <= i32::MAX,
    ensures
        n <= r <= n * die_type,
{
    rng.roll_dice(n, die_type)
}

/// Relies on rltk::RandomNumberGenerator::random_slice_entry: `None` exactly
/// on an empty slice, otherwise a clone of some element of the slice. It
/// rolls a die sized by the slice length, whose own arithmetic needs one
/// more than that length to fit in `i32`.
#[verifier::external_body]
pub(crate) fn rng_random_slice_entry(
    rng: &mut rltk::RandomNumberGenerator,
    lines: &Vec<String>,
) -> (r: Option<String>)
    requires
        lines@.len() < i32::MAX,
    ensures
        (r is Some) <==> lines@.len() > 0,
        r is Some ==> exists|k: int| 0 <= k < lines@.len() && r->0@ == #[trigger] lines@[k]@,
{
    match rng.random_slice_entry(lines.as_slice()) {
        Some(s) => Some(s.clone()),
        None => None,
    }
}

} // verus!
