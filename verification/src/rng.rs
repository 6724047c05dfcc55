//! A deterministic pseudo-random source, seeded once per training run and
//! threaded explicitly through every operation that draws from it.

use vstd::prelude::*;
use rand::Rng;
use rand::SeedableRng;
use crate::fixed::SCALE;

verus! {

#[verifier::external_type_specification]
#[verifier::external_body]
pub struct ExXoshiro(rand_xoshiro::Xoshiro256PlusPlus);

/// A seeded pseudo-random generator. Nothing is assumed about the values it
/// yields beyond their range, so everything proved holds for every draw.
pub struct Prng {
    inner: rand_xoshiro::Xoshiro256PlusPlus,
}

impl Prng {
    /// Relies on rand_xoshiro's `Xoshiro256PlusPlus::seed_from_u64`: builds a
    /// generator deterministically from a 64-bit seed.
    #[verifier::external_body]
    pub fn from_seed(seed: u64) -> Prng {
        Prng { inner: rand_xoshiro::Xoshiro256PlusPlus::seed_from_u64(seed) }
    }

    /// Relies on rand's `Rng::gen_range` over `0..n`: the result lies in
    /// `[0, n)`; the call rejects only an empty range, which the
    /// precondition rules out.
    #[verifier::external_body]
    pub fn below(&mut self, n: usize) -> (r: usize)
        requires
            n >= 1,
        ensures
            r < n,
    {
        self.inner.gen_range(0..n)
    }

    /// A coin flip: true with probability `prob / SCALE` under a uniform draw.
    pub fn chance(&mut self, prob: i64) -> bool {
        let draw = self.below(SCALE as usize);
        (draw as i64) < prob
    }
}

} // verus!
