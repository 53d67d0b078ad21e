//! Seedable pseudorandom sampling.
//!
//! The renderer owns its generator so that a render is a deterministic
//! function of the seed: the state advances by a fixed odd increment and the
//! output is a bit-mixing hash of the new state (a splitmix-style generator).
//! Every step is proved equal to its spec-level counterpart, which is what
//! makes the round-trip determinism of the renderer provable.

use vstd::prelude::*;
use vstd::wrapping::u64_specs;
use crate::fixed;
use crate::fixed::SCALE;

verus! {

/// Pseudorandom generator state.
pub struct Rng {
    pub state: u64,
}

pub open spec fn next_state_s(st: u64) -> u64 {
    u64_specs::wrapping_add(st, 0x9E3779B97F4A7C15)
}

pub open spec fn mix_s(z0: u64) -> u64 {
    let z1 = u64_specs::wrapping_mul(z0 ^ (z0 >> 30u64), 0xBF58476D1CE4E5B9);
    let z2 = u64_specs::wrapping_mul(z1 ^ (z1 >> 27u64), 0x94D049BB133111EB);
    z2 ^ (z2 >> 31u64)
}

/// The word drawn by one step of the generator started in state `st`.
pub open spec fn next_value_s(st: u64) -> u64 {
    mix_s(next_state_s(st))
}

/// One fixed-point sample in `[0, 1)`: the low bits of the drawn word.
pub open spec fn random0_val(st: u64) -> i64 {
    (next_value_s(st) % (SCALE as u64)) as i64
}

/// One fixed-point sample in `[min, max)`: `min + (max - min) * sample`.
pub open spec fn random2_val(st: u64, min: i64, max: i64) -> int {
    fixed::qadd_s(
        min as int,
        fixed::qmul_s(fixed::qsub_s(max as int, min as int), random0_val(st) as int),
    )
}

impl Rng {
    pub fn new(seed: u64) -> (r: Rng)
        ensures
            r.state == seed,
    {
        Rng { state: seed }
    }

    pub fn next_u64(&mut self) -> (r: u64)
        ensures
            final(self).state == next_state_s(old(self).state),
            r == next_value_s(old(self).state),
    {
        self.state = self.state.wrapping_add(0x9E3779B97F4A7C15);
        let z0: u64 = self.state;
        let z1: u64 = (z0 ^ (z0 >> 30u64)).wrapping_mul(0xBF58476D1CE4E5B9);
        let z2: u64 = (z1 ^ (z1 >> 27u64)).wrapping_mul(0x94D049BB133111EB);
        z2 ^ (z2 >> 31u64)
    }
}

/// A sample uniform over the fixed-point values of `[0, 1)`.
pub fn random0(rng: &mut Rng) -> (r: i64)
    ensures
        r == random0_val(old(rng).state),
        final(rng).state == next_state_s(old(rng).state),
        0 <= r < SCALE,
{
    let n: u64 = rng.next_u64();
    (n % (SCALE as u64)) as i64
}

/// A sample in `[min, max)`, scaled from one `random0` draw.
pub fn random2(rng: &mut Rng, min: i64, max: i64) -> (r: i64)
    ensures
        r as int == random2_val(old(rng).state, min, max),
        final(rng).state == next_state_s(old(rng).state),
{
    let r0: i64 = random0(rng);
    fixed::qadd(min, fixed::qmul(fixed::qsub(max, min), r0))
}

} // verus!
