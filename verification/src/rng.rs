//! The injected source of randomness. A `RandomSource` wraps a seeded
//! `rand::rngs::StdRng`; the simulation draws only bounded uniform integers
//! from it, and builds its zero-mean mutation noise from twelve of them, so
//! every run is reproducible from the seed.

use vstd::prelude::*;

verus! {

#[verifier::external_type_specification]
#[verifier::external_body]
pub struct ExStdRng(rand::rngs::StdRng);

/// A deterministic stream of uniform random integers, owned by the caller
/// and passed explicitly wherever the simulation needs chance.
pub struct RandomSource {
    inner: rand::rngs::StdRng,
}

impl RandomSource {
    /// Relies on rand's `SeedableRng::seed_from_u64`: builds a generator
    /// whose stream is a fixed function of the seed.
    #[verifier::external_body]
    pub fn from_seed(seed: u64) -> RandomSource {
        RandomSource { inner: <rand::rngs::StdRng as rand::SeedableRng>::seed_from_u64(seed) }
    }

    /// Relies on rand's `Rng::gen_range` over `0..bound`: returns a value
    /// of the range, and panics only when the range is empty, which the
    /// precondition rules out. Nothing more is assumed of the draw.
    #[verifier::external_body]
    pub fn below(&mut self, bound: u64) -> (r: u64)
        requires
            bound >= 1,
        ensures
            r < bound,
    {
        rand::Rng::gen_range(&mut self.inner, 0..bound)
    }

    /// A zero-mean integer surrogate for Gaussian noise of standard
    /// deviation about `std`: the sum of twelve uniform draws on
    /// `[0, std]`, centred. Zero spread gives exactly zero noise.
    pub fn gauss_milli(&mut self, std: u32) -> (r: i64)
        requires
            std <= 100000,
        ensures
            -6 * (std as int) <= r <= 6 * (std as int),
            std == 0 ==> r == 0,
    {
        let mut sum: i64 = 0;
        let mut i: usize = 0;
        while i < 12
            invariant
                i <= 12,
                std <= 100000,
                0 <= sum <= 1200000,
                sum <= (i as int) * (std as int),
                std == 0 ==> sum == 0,
            decreases 12 - i,
        {
            let d: u64 = self.below(std as u64 + 1);
            proof {
                assert(((i as int) + 1) * (std as int) == (i as int) * (std as int) + (std as int))
                    by (nonlinear_arith);
                assert((i as int) * (std as int) <= 1100000) by (nonlinear_arith)
                    requires i <= 11, std <= 100000;
            }
            sum = sum + d as i64;
            i = i + 1;
        }
        sum - 6 * (std as i64)
    }
}

} // verus!
