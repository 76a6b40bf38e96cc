//! Trusted layer over the cryptographically secure random source.
//!
//! Randomness is an explicit capability: every operation that needs entropy
//! takes an `EntropySource` parameter, so tests can run deterministically
//! from a seed. The contracts state only what holds of every outcome, namely
//! the range of the sampled value.

use vstd::prelude::*;
use crate::bignum::Natural;

verus! {

/// Declares `rand::rngs::StdRng` to the verifier as an opaque type.
#[verifier::external_type_specification]
#[verifier::external_body]
pub struct ExStdRng(rand::rngs::StdRng);

/// A source of uniformly distributed big integers within a bounded range.
pub struct EntropySource {
    rng: rand::rngs::StdRng,
}

impl EntropySource {
    /// Relies on `rand::SeedableRng::seed_from_u64` for `StdRng`: a
    /// deterministic generator for reproducible runs.
    #[verifier::external_body]
    pub fn from_seed(seed: u64) -> (r: EntropySource) {
        EntropySource { rng: rand::SeedableRng::seed_from_u64(seed) }
    }

    /// Relies on `rand::SeedableRng::from_entropy` for `StdRng`: a generator
    /// seeded from the operating system's entropy source.
    #[verifier::external_body]
    pub fn from_entropy() -> (r: EntropySource) {
        EntropySource { rng: rand::SeedableRng::from_entropy() }
    }

    /// Relies on `num_bigint::RandBigInt::gen_biguint_below`: a uniform
    /// sample in `[0, bound)` (the callee aborts on a zero bound). Nothing
    /// more is promised of a random value.
    #[verifier::external_body]
    pub fn below(&mut self, bound: &Natural) -> (r: Natural)
        requires
            bound@ > 0,
        ensures
            r@ < bound@,
    {
        let raw = num_bigint::RandBigInt::gen_biguint_below(&mut self.rng, &bound.inner);
        Natural { inner: raw, value: Ghost(arbitrary()) }
    }

    /// Relies on `num_bigint::RandBigInt::gen_biguint_range`: a uniform
    /// sample in `[lo, hi)` (the callee aborts unless `lo < hi`). Nothing
    /// more is promised of a random value.
    #[verifier::external_body]
    pub fn in_range(&mut self, lo: &Natural, hi: &Natural) -> (r: Natural)
        requires
            lo@ < hi@,
        ensures
            lo@ <= r@ < hi@,
    {
        let raw = num_bigint::RandBigInt::gen_biguint_range(&mut self.rng, &lo.inner, &hi.inner);
        Natural { inner: raw, value: Ghost(arbitrary()) }
    }
}

} // verus!
