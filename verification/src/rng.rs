//! A deterministic pseudo-random stream, seeded from the process entropy.
//!
//! Each rendering worker owns one `Rng`; every draw is an exact function of
//! the stream state, so everything computed from it stays fully specified.

use vstd::prelude::*;
use crate::fixed::{smul, tdiv, SCALE};
use crate::fixed::lemma_mul_bound;
use crate::vec3::{bounded, Vec3, VMAX};

verus! {

/// Relies on rand::random (rand crate): draws one value of a type the
/// `Standard` distribution covers. Nothing is promised of the result.
pub assume_specification<T>[ rand::random::<T> ]() -> (r: T)
    where
        rand::distributions::Standard: rand::distributions::Distribution<T>,
;

/// A 64-bit linear-congruential generator with xorshifted output.
pub struct Rng {
    pub state: u64,
}

/// The successor state of the generator.
pub open spec fn next_state(s: u64) -> u64 {
    s.wrapping_mul(6364136223846793005u64).wrapping_add(1442695040888963407u64)
}

/// The output word drawn from a state.
pub open spec fn out_word(s: u64) -> u64 {
    (s >> 31) ^ s
}

impl Rng {
    /// A generator seeded with fresh process entropy.
    pub fn from_entropy() -> Rng {
        Rng { state: rand::random::<u64>() }
    }

    pub fn new(seed: u64) -> (r: Rng)
        ensures
            r.state == seed,
    {
        Rng { state: seed }
    }

    /// Draw one 64-bit word and advance the stream.
    pub fn next_u64(&mut self) -> (r: u64)
        ensures
            final(self).state == next_state(old(self).state),
            r == out_word(next_state(old(self).state)),
    {
        self.state = self.state.wrapping_mul(6364136223846793005).wrapping_add(1442695040888963407);
        (self.state >> 31) ^ self.state
    }

    /// A raw fixed-point value uniform over `[0, 1)`.
    pub fn unit(&mut self) -> (r: i64)
        ensures
            final(self).state == next_state(old(self).state),
            r == (out_word(next_state(old(self).state)) & 0xffff) as i64,
            0 <= r < SCALE,
    {
        let w = self.next_u64();
        proof {
            assert((w & 0xffff) < 0x10000) by (bit_vector);
        }
        (w & 0xffff) as i64
    }

    /// A raw fixed-point value uniform over `[min, max)` (up to truncation).
    #[verifier::rlimit(50)]
    pub fn range(&mut self, min: i64, max: i64) -> (r: i64)
        requires
            -VMAX <= min <= max <= VMAX,
        ensures
            min <= r <= max,
            r == min + smul((max - min) as int,
                (out_word(next_state(old(self).state)) & 0xffff) as int),
            final(self).state == next_state(old(self).state),
    {
        let u = self.unit();
        proof {
            let w = out_word(next_state(old(self).state));
            assert((w & 0xffff) < 0x10000) by (bit_vector);
            assert(u as int == (w & 0xffff) as int);
            lemma_mul_bound((max - min) as int, u as int, 2 * VMAX as int, SCALE as int);
            crate::fixed::lemma_smul_unit((max - min) as int, u as int);
        }
        let p: i128 = ((max - min) as i128) * (u as i128);
        let d = crate::fixed::div_i128(p, SCALE as i128);
        min + (d as i64)
    }

    /// A random vector with each component uniform over `[min, max)`.
    pub fn vec3(&mut self, min: i64, max: i64) -> (r: Vec3)
        requires
            -VMAX <= min <= max <= VMAX,
        ensures
            min <= r.x <= max,
            min <= r.y <= max,
            min <= r.z <= max,
            bounded(r, if -min >= max { -min as int } else { max as int }),
    {
        let x = self.range(min, max);
        let y = self.range(min, max);
        let z = self.range(min, max);
        Vec3 { x, y, z }
    }
}

} // verus!
