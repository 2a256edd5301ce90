//! The one source of randomness of the algorithm.
//!
//! Every random decision (the genes of the first population, the trials of the
//! selection, the trial and the site of a mutation) is drawn from a
//! `RandomSource` that the caller hands in, so a run can be repeated from
//! its seed.

use rand::rngs::StdRng;
use rand::Rng;
use rand::SeedableRng;
use vstd::prelude::*;

verus! {

/// The generator of the `rand` crate, `rand::rngs::StdRng`. Nothing is known
/// of its state.
#[verifier::external_type_specification]
#[verifier::external_body]
pub struct ExStdRng(StdRng);

/// A probability, written as a ratio of two integers.
#[derive(Clone, Copy, Debug, PartialEq, Eq, Structural)]
pub struct Probability {
    pub numerator: u32,
    pub denominator: u32,
}

impl Probability {
    /// The ratio lies between 0 and 1.
    pub open spec fn valid(self) -> bool {
        0 < self.denominator && self.numerator <= self.denominator
    }

    /// The event never happens.
    pub open spec fn never(self) -> bool {
        self.numerator == 0
    }

    /// The event always happens.
    pub open spec fn always(self) -> bool {
        self.numerator == self.denominator
    }

    /// The probability `numerator / denominator`, where that is one: the
    /// denominator is not zero and the numerator is not above it.
    pub fn new(numerator: u32, denominator: u32) -> (probability: Option<Probability>)
        ensures
            probability is Some <==> 0 < denominator && numerator <= denominator,
            probability matches Some(p) ==> p.numerator == numerator && p.denominator
                == denominator && p.valid(),
    {
        if denominator == 0 || numerator > denominator {
            None
        } else {
            Some(Probability { numerator, denominator })
        }
    }

    /// Tells whether the ratio lies between 0 and 1.
    pub fn is_valid(&self) -> (valid: bool)
        ensures
            valid == self.valid(),
    {
        0 < self.denominator && self.numerator <= self.denominator
    }
}

/// A pseudo-random generator, seeded by its owner.
pub struct RandomSource {
    generator: StdRng,
}

impl RandomSource {
    /// A source that gives the same draws whenever it is made from the same
    /// seed.
    pub fn from_seed(seed: u64) -> (source: RandomSource) {
        RandomSource { generator: seeded_generator(seed) }
    }
}

/// Calls `StdRng::seed_from_u64` (`rand_core::SeedableRng`), which expands the
/// seed and never fails. Nothing is claimed of the generator it returns.
#[verifier::external_body]
fn seeded_generator(seed: u64) -> (generator: StdRng) {
    StdRng::seed_from_u64(seed)
}

/// One Bernoulli trial: calls `rand::Rng::random_ratio`, which returns `true`
/// with probability `numerator / denominator`. It panics on a ratio that is
/// not between 0 and 1, so such a ratio is left out. Claimed of the outcome is
/// only what holds of every draw: a numerator of zero never succeeds, a
/// numerator equal to the denominator always does.
#[verifier::external_body]
pub(crate) fn probability(source: &mut RandomSource, p: Probability) -> (hit: bool)
    requires
        p.valid(),
    ensures
        p.never() ==> !hit,
        p.always() ==> hit,
{
    source.generator.random_ratio(p.numerator, p.denominator)
}

/// A position drawn uniformly: calls `rand::Rng::random_range` on `0..bound`,
/// which panics on an empty range, so a bound of zero is left out. Claimed of
/// the outcome is only that it lies below the bound.
#[verifier::external_body]
pub(crate) fn random_position(source: &mut RandomSource, bound: usize) -> (position: usize)
    requires
        0 < bound,
    ensures
        position < bound,
{
    source.generator.random_range(0..bound)
}

} // verus!
