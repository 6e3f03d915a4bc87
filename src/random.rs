use vstd::prelude::*;
use rand::rngs::StdRng;
use rand::Rng;
use rand::SeedableRng;

verus! {

/// The simulator's random number generator, carried through opaquely.
#[verifier::external_type_specification]
#[verifier::external_body]
pub struct ExStdRng(StdRng);

/// Relies on `rand::SeedableRng::from_entropy` for `StdRng`: a generator
/// seeded from the operating system.
#[verifier::external_body]
pub(crate) fn new_rng() -> (r: StdRng) {
    StdRng::from_entropy()
}

/// Relies on `rand::Rng::gen_range` over `0..bound`: a value in the range;
/// the range must not be empty.
#[verifier::external_body]
pub(crate) fn random_below(rng: &mut StdRng, bound: usize) -> (r: usize)
    requires
        bound > 0,
    ensures
        r < bound,
{
    rng.gen_range(0..bound)
}

/// Relies on `rand::Rng::gen_ratio`: `true` with probability
/// `numerator / denominator`, always `false` for a zero numerator and always
/// `true` when both are equal; panics on a zero denominator or a numerator above it.
#[verifier::external_body]
pub(crate) fn random_ratio(rng: &mut StdRng, numerator: u32, denominator: u32) -> (r: bool)
    requires
        0 < denominator,
        numerator <= denominator,
    ensures
        numerator == 0 ==> !r,
        numerator == denominator ==> r,
{
    rng.gen_ratio(numerator, denominator)
}

} // verus!
