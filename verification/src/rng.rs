//! A small seeded linear congruential generator.
//!
//! All randomness used by the anomaly detector flows from one value of
//! [`SimpleRng`], so that two runs with the same seed draw the same numbers.

use vstd::prelude::*;

verus! {

/// Value that is mixed into the seed.
pub const SEED_MASK: u64 = 0x5DEECE66D;

/// Multiplier of the generator.
pub const LCG_MULTIPLIER: u64 = 6364136223846793005;

/// Increment of the generator.
pub const LCG_INCREMENT: u64 = 1442695040888963407;

/// The state that follows `state`: `state * multiplier + increment` modulo 2^64.
pub open spec fn lcg_step(state: u64) -> u64 {
    ((state as int * LCG_MULTIPLIER as int + LCG_INCREMENT as int) % 0x1_0000_0000_0000_0000) as u64
}

/// The state after `n` steps from `state`.
pub open spec fn lcg_steps(state: u64, n: nat) -> u64
    decreases n,
{
    if n == 0 {
        state
    } else {
        lcg_step(lcg_steps(state, (n - 1) as nat))
    }
}

/// The index that a draw of `raw` selects in `start..end`.
pub open spec fn pick_in_range(raw: u64, start: usize, end: usize) -> int {
    if start >= end {
        start as int
    } else {
        start + (raw as usize) as int % (end - start)
    }
}

/// Linear congruential generator with an explicit state.
#[derive(Debug, Clone)]
pub struct SimpleRng {
    pub state: u64,
}

impl SimpleRng {
    /// Starts a generator from `seed`.
    pub fn seed_from_u64(seed: u64) -> (rng: Self)
        ensures
            rng.state == seed ^ SEED_MASK,
    {
        SimpleRng { state: seed ^ SEED_MASK }
    }

    /// Advances the generator and returns the new state.
    pub fn next_u64(&mut self) -> (value: u64)
        ensures
            value == lcg_step(old(self).state),
            final(self).state == value,
    {
        let product: u64 = self.state.wrapping_mul(LCG_MULTIPLIER);
        let next: u64 = product.wrapping_add(LCG_INCREMENT);
        proof {
            lemma_wrapping_step(self.state, product, next);
        }
        self.state = next;
        next
    }

    /// Draws an index from `start..end`. An empty range draws nothing and
    /// returns `start` with the generator untouched.
    pub fn gen_range(&mut self, start: usize, end: usize) -> (index: usize)
        ensures
            start >= end ==> index == start && final(self).state == old(self).state,
            start < end ==> final(self).state == lcg_step(old(self).state),
            start < end ==> index == pick_in_range(lcg_step(old(self).state), start, end),
            start < end ==> start <= index < end,
    {
        if start >= end {
            return start;
        }
        let len: usize = end - start;
        let raw: u64 = self.next_u64();
        let offset: usize = (raw as usize) % len;
        start + offset
    }
}

proof fn lemma_wrapping_step(state: u64, product: u64, next: u64)
    requires
        product as int == (state as int * LCG_MULTIPLIER as int) % 0x1_0000_0000_0000_0000,
        next as int == (product as int + LCG_INCREMENT as int) % 0x1_0000_0000_0000_0000,
    ensures
        next == lcg_step(state),
{
    let m = 0x1_0000_0000_0000_0000int;
    let x = state as int * LCG_MULTIPLIER as int;
    vstd::arithmetic::div_mod::lemma_add_mod_noop(x, LCG_INCREMENT as int, m);
    vstd::arithmetic::div_mod::lemma_small_mod(LCG_INCREMENT as nat, m as nat);
    vstd::arithmetic::div_mod::lemma_mod_twice(x, m);
}

} // verus!
