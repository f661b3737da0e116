use vstd::prelude::*;
use rand::Rng;
use rand::SeedableRng;
use rand::rngs::StdRng;

verus! {

#[verifier::external_type_specification]
#[verifier::external_body]
pub struct ExStdRng(rand::rngs::StdRng);

/// Relies on rand's `StdRng::seed_from_u64`: a pseudorandom source from a
/// fixed seed. Nothing is promised of the values it yields.
#[verifier::external_body]
pub fn rng_from_seed(seed: u64) -> StdRng {
    StdRng::seed_from_u64(seed)
}

/// Relies on rand's `Rng::gen_range` over `0..bound`: the result is below
/// the bound, whatever was drawn.
#[verifier::external_body]
pub fn rand_index_below(rng: &mut StdRng, bound: usize) -> (r: usize)
    requires
        bound >= 1,
    ensures
        r < bound,
{
    rng.gen_range(0..bound)
}

/// Relies on rand's `Rng::gen` for `u64`: one uniformly distributed machine
/// word. Nothing is promised of its value.
#[verifier::external_body]
pub fn rand_word(rng: &mut StdRng) -> u64 {
    rng.gen()
}

/// Relies on rand's `Rng::gen_ratio`: true with probability
/// `numerator / denominator`. Its source always returns true when the ratio
/// is one and always false when the numerator is zero; nothing else is
/// promised.
#[verifier::external_body]
pub fn coin(rng: &mut StdRng, numerator: u32, denominator: u32) -> (r: bool)
    requires
        denominator >= 1,
        numerator <= denominator,
    ensures
        numerator == denominator ==> r,
        numerator == 0 ==> !r,
{
    rng.gen_ratio(numerator, denominator)
}

} // verus!
