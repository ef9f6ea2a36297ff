use rltk::RandomNumberGenerator;
use vstd::prelude::*;

verus! {

/// The random number generator of the `rltk` crate.
#[verifier::external_type_specification]
#[verifier::external_body]
pub struct ExRandomNumberGenerator(RandomNumberGenerator);

/// A random number from `min` up to but not including `max`, through
/// `RandomNumberGenerator::range`, whose documentation promises that half-open
/// range; the call panics on an empty range, which `requires` leaves out.
#[verifier::external_body]
pub fn range(rng: &mut RandomNumberGenerator, min: i32, max: i32) -> (r: i32)
    requires
        min < max,
    ensures
        min <= r < max,
{
    rng.range(min, max)
}

/// Any `i32`, through `RandomNumberGenerator::rand`; nothing is stated of which.
#[verifier::external_body]
pub fn random_int(rng: &mut RandomNumberGenerator) -> i32 {
    rng.rand::<i32>()
}

} // verus!
