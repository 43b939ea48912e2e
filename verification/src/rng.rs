//! A deterministic pseudo-random source.
//!
//! Construction (BVH axis choice, Perlin permutations) and integration
//! (diffuse sampling, reflectance draws, free-flight sampling) all draw from
//! one explicit generator that is passed down, so every draw is a pure
//! function of the seed and renders are reproducible per worker.

use vstd::prelude::*;

verus! {

use crate::fixed::FX_ONE;

/// The linear-congruential step that every draw advances the state by.
pub open spec fn rng_step(s: u64) -> u64 {
    (((s as int) * 6364136223846793005 + 1442695040888963407) % 0x1_0000_0000_0000_0000) as u64
}

/// The unit-interval draw read off a state: a fixed-point value in `[0, 1)`.
pub open spec fn rng_unit(s: u64) -> i64 {
    (s >> 48) as i64
}

pub struct Rng {
    pub state: u64,
}

impl Rng {
    pub fn new(seed: u64) -> (r: Rng)
        ensures
            r.state == seed,
    {
        Rng { state: seed }
    }

    /// Advance the state once and return it.
    pub fn next_state(&mut self) -> (r: u64)
        ensures
            final(self).state == rng_step(old(self).state),
            r == final(self).state,
    {
        let wide: u128 = (self.state as u128) * 6364136223846793005u128 + 1442695040888963407u128;
        proof {
            assert((self.state as int) * 6364136223846793005 <= 0xFFFF_FFFF_FFFF_FFFFu64 as int
                * 6364136223846793005) by (nonlinear_arith)
                requires
                    0 <= self.state as int <= 0xFFFF_FFFF_FFFF_FFFFu64 as int,
            ;
        }
        let ns = (wide % 0x1_0000_0000_0000_0000u128) as u64;
        self.state = ns;
        ns
    }

    /// A uniform fixed-point draw in `[0, 1)`.
    pub fn next_unit(&mut self) -> (r: i64)
        ensures
            final(self).state == rng_step(old(self).state),
            r == rng_unit(final(self).state),
            0 <= r < FX_ONE,
    {
        let s = self.next_state();
        let u = s >> 48;
        proof {
            assert(s >> 48 < 0x10000) by (bit_vector);
        }
        u as i64
    }

    /// A uniform draw below `n`.
    pub fn next_below(&mut self, n: u64) -> (r: u64)
        requires
            n > 0,
        ensures
            final(self).state == rng_step(old(self).state),
            r == rng_step(old(self).state) % n,
            r < n,
    {
        let s = self.next_state();
        s % n
    }
}

} // verus!
