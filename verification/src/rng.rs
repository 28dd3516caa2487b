//! Deterministic pseudo-random sequence for surface sampling.
//!
//! The generator is a linear congruential step over `u64`, passed around as
//! explicit state (one generator per call site or per worker) rather than a
//! process-wide mutable counter, so sampling stays reproducible and free of
//! shared-state contention.

use vstd::prelude::*;

verus! {

/// Multiplier of the linear congruential step.
pub const LCG_MUL: u64 = 1664525;

/// Increment of the linear congruential step.
pub const LCG_ADD: u64 = 1013904223;

/// The successor of `seed` in the pseudo-random sequence, before the
/// zero fix-up: `(seed * LCG_MUL + LCG_ADD) mod 2^64`.
pub open spec fn lcg_raw(seed: u64) -> int {
    (seed * LCG_MUL + LCG_ADD) % 0x1_0000_0000_0000_0000
}

/// The next state of the generator: the raw step, with zero mapped away so
/// that the state is never zero.
pub open spec fn lcg_spec(seed: u64) -> int {
    if lcg_raw(seed) == 0 {
        LCG_ADD as int
    } else {
        lcg_raw(seed)
    }
}

/// Explicit pseudo-random generator state.
pub struct Rng {
    /// Current state; never zero after a step.
    pub seed: u64,
}

impl Rng {
    /// A generator seeded deterministically.
    pub fn new(seed: u64) -> (r: Rng)
        ensures
            r.seed == seed,
    {
        Rng { seed }
    }

    /// Advances the generator one linear congruential step and returns the
    /// new state. The result is never zero.
    pub fn next_u64(&mut self) -> (r: u64)
        ensures
            r == lcg_spec(old(self).seed),
            final(self).seed == r,
            r != 0,
    {
        let prev = self.seed;
        let mut next = prev.wrapping_mul(LCG_MUL).wrapping_add(LCG_ADD);
        if next == 0 {
            next = LCG_ADD;
        }
        self.seed = next;
        next
    }
}

} // verus!
