//! The seedable pseudo-random source threaded through map generation,
//! spawning, and AI rolls.
//!
//! A fixed seed yields a fixed roll sequence, so an entire playthrough is
//! deterministic as long as the source is never reseeded mid-game.

use vstd::prelude::*;

verus! {

/// One xorshift step: the whole state transition of the generator.
pub open spec fn xorshift_step(s: u64) -> u64 {
    let a = s ^ (s << 13);
    let b = a ^ (a >> 7);
    b ^ (b << 17)
}

/// A deterministic pseudo-random number generator.
#[derive(Clone, Copy, Debug)]
pub struct Rng {
    state: u64,
}

impl Rng {
    /// The current internal state.
    pub closed spec fn spec_state(self) -> u64 {
        self.state
    }

    /// A generator seeded with `seed`; a zero seed is replaced by a fixed
    /// nonzero constant so the stream is never degenerate.
    pub fn seeded(seed: u64) -> (r: Rng)
        ensures
            r.spec_state() == if seed == 0 {
                0x9E3779B97F4A7C15u64
            } else {
                seed
            },
    {
        if seed == 0 {
            Rng { state: 0x9E3779B97F4A7C15 }
        } else {
            Rng { state: seed }
        }
    }

    /// Advance the state once and return it.
    fn next(&mut self) -> (r: u64)
        ensures
            final(self).spec_state() == xorshift_step(old(self).spec_state()),
            r == final(self).spec_state(),
    {
        let mut x = self.state;
        x = x ^ (x << 13);
        x = x ^ (x >> 7);
        x = x ^ (x << 17);
        self.state = x;
        x
    }

    /// A value in `[min_v, max_v)`.
    pub fn range(&mut self, min_v: i32, max_v: i32) -> (r: i32)
        requires
            min_v < max_v,
        ensures
            min_v <= r < max_v,
            final(self).spec_state() == xorshift_step(old(self).spec_state()),
    {
        let span = (max_v as i64 - min_v as i64) as u64;
        let off = self.next() % span;
        (min_v as i64 + off as i64) as i32
    }

    /// The sum of `n` rolls of a `die_type`-sided die, each in `[1, die_type]`.
    pub fn roll_dice(&mut self, n: i32, die_type: i32) -> (r: i32)
        requires
            1 <= n,
            1 <= die_type < i32::MAX,
            n * die_type <= i32::MAX,
        ensures
            n <= r <= n * die_type,
    {
        let mut total: i32 = 0;
        let mut i: i32 = 0;
        while i < n
            invariant
                0 <= i <= n,
                1 <= die_type < i32::MAX,
                n * die_type <= i32::MAX,
                i <= total <= i * die_type,
            decreases n - i,
        {
            proof {
                assert((i + 1) * die_type == i * die_type + die_type) by (nonlinear_arith);
                assert(i * die_type <= n * die_type) by (nonlinear_arith)
                    requires
                        0 <= i < n,
                        1 <= die_type,
                ;
                assert((i + 1) * die_type <= n * die_type) by (nonlinear_arith)
                    requires
                        0 <= i < n,
                        1 <= die_type,
                ;
            }
            let roll = self.range(1, die_type + 1);
            total = total + roll;
            i = i + 1;
        }
        total
    }
}

} // verus!
