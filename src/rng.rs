//! The seedable random source, used through a few draws.
use vstd::prelude::*;
use bracket_lib::random::RandomNumberGenerator;
use crate::geometry::Point;

verus! {

#[verifier::external_type_specification]
#[verifier::external_body]
pub struct ExRandomNumberGenerator(RandomNumberGenerator);

/// Relies on `RandomNumberGenerator::range`: a uniform draw from `min..max`,
/// which includes `min` and excludes `max` (it panics on an empty range).
#[verifier::external_body]
pub(crate) fn rng_range(rng: &mut RandomNumberGenerator, min: i32, max: i32) -> (r: i32)
    requires
        min < max,
    ensures
        min <= r < max,
{
    rng.range(min, max)
}

/// Relies on `RandomNumberGenerator::roll_dice`: the sum of `n` draws from
/// `1..=die_type`.
#[verifier::external_body]
pub(crate) fn rng_roll_dice(rng: &mut RandomNumberGenerator, n: i32, die_type: i32) -> (r: i32)
    requires
        1 <= n <= 16,
        1 <= die_type <= 1000,
    ensures
        n <= r <= n * die_type,
{
    rng.roll_dice(n, die_type)
}

/// Relies on `RandomNumberGenerator::random_slice_index`: `None` for an empty
/// slice, else an index into it. It rolls one die with as many faces as the
/// slice has items, so the length must stay below `i32::MAX`.
#[verifier::external_body]
pub(crate) fn rng_slice_index(rng: &mut RandomNumberGenerator, v: &Vec<Point>) -> (r: Option<usize>)
    requires
        v@.len() < i32::MAX,
    ensures
        r.is_none() == (v@.len() == 0),
        r.is_some() ==> r.unwrap() < v@.len(),
{
    rng.random_slice_index(v.as_slice())
}

} // verus!
