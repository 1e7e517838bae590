//! The deterministic random number generator.
//!
//! A PCG32 generator: 64-bit state, 32-bit output per draw, fully
//! deterministic from the seed.  The state can be captured and restored, so
//! a saved world resumes with exactly the random stream it would have seen.

use vstd::prelude::*;

use crate::types::RngSeed;

verus! {

/// The PCG multiplier constant.
pub const PCG_MULTIPLIER: u64 = 6364136223846793005;

/// The state transition of the PCG32 generator.
pub open spec fn pcg_next_state(state: u64, increment: u64) -> u64 {
    vstd::wrapping::u64_specs::wrapping_add(
        vstd::wrapping::u64_specs::wrapping_mul(state, PCG_MULTIPLIER),
        increment,
    )
}

/// A 32-bit right rotation.
pub open spec fn rotr32(x: u32, r: u32) -> u32 {
    let k = r % 32;
    if k == 0 {
        x
    } else {
        (x >> k) | (x << (32 - k)) as u32
    }
}

/// The XSH-RR output function of the PCG32 generator, applied to the state
/// before the transition.
pub open spec fn pcg_output(state: u64) -> u32 {
    let xorshifted = (((state >> 18) ^ state) >> 27) as u32;
    let rot = (state >> 59) as u32;
    rotr32(xorshifted, rot)
}

/// The increment a seed induces: the seed shifted left once, forced odd.
pub open spec fn pcg_increment(seed: u64) -> u64 {
    (seed << 1) | 1
}

/// The state the generator holds right after seeding: one warm-up draw
/// applied to the raw seed.
pub open spec fn pcg_seeded_state(seed: u64) -> u64 {
    pcg_next_state(seed, pcg_increment(seed))
}

/// PCG32 random number generator.
#[derive(Debug)]
pub struct Pcg32Rng {
    /// The seed this generator was created from.
    pub seed: RngSeed,
    /// Current internal state.
    pub state: u64,
    /// Stream increment, derived from the seed; always odd.
    pub increment: u64,
}

impl Pcg32Rng {
    /// Create a new PCG32 generator from a seed, with one warm-up draw.
    pub fn new(seed: RngSeed) -> (r: Pcg32Rng)
        ensures
            r.seed == seed,
            r.increment == pcg_increment(seed.0),
            r.state == pcg_seeded_state(seed.0),
    {
        let mut rng = Pcg32Rng { seed, state: 0, increment: (seed.0 << 1u64) | 1 };
        rng.state = rng.state.wrapping_add(seed.0);
        let _warmup = rng.next_u32();
        rng
    }

    /// The seed this generator was created from.
    pub fn seed(&self) -> (r: RngSeed)
        ensures
            r == self.seed,
    {
        self.seed
    }

    /// The current internal state, for checkpointing.
    pub fn state(&self) -> (r: u64)
        ensures
            r == self.state,
    {
        self.state
    }

    /// Restore a previously captured state.
    pub fn restore(&mut self, state: u64)
        ensures
            final(self).state == state,
            final(self).seed == old(self).seed,
            final(self).increment == old(self).increment,
    {
        self.state = state;
    }

    /// Advance the internal state by one step.
    fn advance(&mut self)
        ensures
            final(self).state == pcg_next_state(old(self).state, old(self).increment),
            final(self).seed == old(self).seed,
            final(self).increment == old(self).increment,
    {
        self.state = self.state.wrapping_mul(PCG_MULTIPLIER).wrapping_add(self.increment);
    }

    /// Draw 32 random bits and advance the state.
    pub fn next_u32(&mut self) -> (r: u32)
        ensures
            r == pcg_output(old(self).state),
            final(self).state == pcg_next_state(old(self).state, old(self).increment),
            final(self).seed == old(self).seed,
            final(self).increment == old(self).increment,
    {
        let old_state = self.state;
        self.advance();

        let xorshifted: u32 = (((old_state >> 18u64) ^ old_state) >> 27u64) as u32;
        let rot: u32 = (old_state >> 59u64) as u32;
        let k: u32 = rot % 32;
        if k == 0 {
            xorshifted
        } else {
            (xorshifted >> k) | (xorshifted << (32 - k))
        }
    }

    /// Draw 64 random bits: the first draw forms the high half, the second
    /// the low half.
    pub fn next_u64(&mut self) -> (r: u64)
        ensures
            ({
                let s1 = pcg_next_state(old(self).state, old(self).increment);
                let hi = pcg_output(old(self).state) as u64;
                let lo = pcg_output(s1) as u64;
                &&& r == (hi << 32) | lo
                &&& final(self).state == pcg_next_state(s1, old(self).increment)
            }),
            final(self).seed == old(self).seed,
            final(self).increment == old(self).increment,
    {
        let hi = self.next_u32() as u64;
        let lo = self.next_u32() as u64;
        (hi << 32u64) | lo
    }

    /// Draw once and report whether the top 24 output bits fall below the
    /// threshold: an event of probability `threshold / 2^24`.
    pub fn chance_in_2_24(&mut self, threshold: u32) -> (b: bool)
        ensures
            b == ((pcg_output(old(self).state) >> 8) < threshold),
            final(self).state == pcg_next_state(old(self).state, old(self).increment),
            final(self).seed == old(self).seed,
            final(self).increment == old(self).increment,
    {
        let x = self.next_u32();
        (x >> 8u32) < threshold
    }

    /// Draw an integer in `[min, max]` (inclusive); a degenerate range
    /// yields its lower bound without a draw.
    pub fn range_i32(&mut self, min: i32, max: i32) -> (r: i32)
        requires
            !(min == i32::MIN && max == i32::MAX),
        ensures
            min >= max ==> r == min && *final(self) == *old(self),
            min < max ==> ({
                let range = (max - min + 1) as u32;
                &&& r == min + pcg_output(old(self).state) % range
                &&& final(self).state == pcg_next_state(old(self).state, old(self).increment)
                &&& final(self).seed == old(self).seed
                &&& final(self).increment == old(self).increment
            }),
    {
        if min >= max {
            return min;
        }
        let range: u32 = ((max as i64) - (min as i64) + 1) as u32;
        let x = self.next_u32();
        let off = x % range;
        ((min as i64) + (off as i64)) as i32
    }

    /// Draw an integer in `[min, max]` (inclusive); a degenerate range
    /// yields its lower bound without a draw.
    pub fn range_u32(&mut self, min: u32, max: u32) -> (r: u32)
        requires
            !(min == 0 && max == u32::MAX),
        ensures
            min >= max ==> r == min && *final(self) == *old(self),
            min < max ==> ({
                let range = (max - min + 1) as u32;
                &&& r == min + pcg_output(old(self).state) % range
                &&& final(self).state == pcg_next_state(old(self).state, old(self).increment)
                &&& final(self).seed == old(self).seed
                &&& final(self).increment == old(self).increment
            }),
    {
        if min >= max {
            return min;
        }
        let range: u32 = max - min + 1;
        let x = self.next_u32();
        min + (x % range)
    }

    /// Pick an element of a slice by one draw; an empty slice yields
    /// nothing without a draw.
    pub fn pick<'a, T>(&mut self, slice: &'a [T]) -> (r: Option<&'a T>)
        ensures
            slice@.len() == 0 ==> r is None && *final(self) == *old(self),
            slice@.len() > 0 ==> ({
                let idx = (pcg_output(old(self).state) as int) % (slice@.len() as int);
                &&& match r {
                    Some(v) => *v == slice@[idx],
                    None => false,
                }
                &&& final(self).state == pcg_next_state(old(self).state, old(self).increment)
                &&& final(self).seed == old(self).seed
                &&& final(self).increment == old(self).increment
            }),
    {
        if slice.len() == 0 {
            None
        } else {
            let x = self.next_u32();
            let idx = (x as usize) % slice.len();
            Some(vstd::slice::slice_index_get(slice, idx))
        }
    }
}

} // verus!
