//! Explicit pseudo-random state for sampling.
//!
//! Rendering draws jitter offsets, lens samples and scatter directions from a
//! seeded linear-congruential generator that is threaded through the sampling
//! code. Every draw is a pure function of the state, so a render with a fixed
//! seed is reproducible; contracts state the exact state transition and the
//! range of each draw.
use vstd::prelude::*;
use crate::fixed::SCALE;

verus! {

/// The linear-congruential state transition (Knuth's MMIX constants).
pub open spec fn next_state(s: u64) -> u64 {
    s.wrapping_mul(6364136223846793005).wrapping_add(1442695040888963407)
}

/// The fixed-point draw in `[0, SCALE)` taken from a state's upper bits.
pub open spec fn unit_draw(s: u64) -> int {
    ((s >> 24) & 0xffff) as int
}

#[derive(Clone, Copy, Debug)]
pub struct Rng {
    state: u64,
}

impl Rng {
    pub closed spec fn view(self) -> u64 {
        self.state
    }

    pub fn new(seed: u64) -> (r: Rng)
        ensures
            r@ == seed,
    {
        Rng { state: seed }
    }

    /// Draw a fixed-point scalar uniformly from `[0, 1)`, i.e. `[0, SCALE)`.
    pub fn next_unit(&mut self) -> (r: i64)
        ensures
            final(self)@ == next_state(old(self)@),
            r == unit_draw(final(self)@),
            0 <= r < SCALE,
    {
        let s: u64 = self.state.wrapping_mul(6364136223846793005).wrapping_add(
            1442695040888963407,
        );
        self.state = s;
        let bits: u64 = (s >> 24) & 0xffff;
        proof {
            assert((s >> 24) & 0xffff < 0x10000) by (bit_vector);
        }
        bits as i64
    }

    /// Draw a fixed-point scalar uniformly from `[-1, 1)` steps of `2/SCALE`.
    pub fn next_symmetric(&mut self) -> (r: i64)
        ensures
            final(self)@ == next_state(old(self)@),
            r == 2 * unit_draw(final(self)@) - SCALE,
            -SCALE <= r < SCALE,
    {
        let u: i64 = self.next_unit();
        2 * u - SCALE
    }

    /// Draw a jitter offset uniformly from `[-1/2, 1/2)`.
    pub fn next_offset(&mut self) -> (r: i64)
        ensures
            final(self)@ == next_state(old(self)@),
            r == unit_draw(final(self)@) - SCALE / 2,
            -SCALE / 2 <= r < SCALE / 2,
    {
        let u: i64 = self.next_unit();
        u - SCALE / 2
    }
}

} // verus!
