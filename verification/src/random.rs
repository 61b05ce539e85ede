//! The uniform-random-index capability consumed by the sampler.
//!
//! Sampling needs nothing more than a source of indices below a bound, so the
//! source is modeled as plain data: either a fixed value (deterministic, for
//! tests and reproducible runs) or a xorshift pseudo-random generator seeded
//! by the caller. Every draw is fully determined by the source's state, which
//! lets callers' contracts pin down exactly which index each draw yields.

use vstd::prelude::*;

verus! {

/// One step of the xorshift64 generator.
pub open spec fn spec_xorshift(s: u64) -> u64 {
    let a = s ^ (s << 13);
    let b = a ^ (a >> 7);
    b ^ (b << 17)
}

/// A source of uniform random indices: given a bound `n >= 1`, a draw yields
/// an index in `[0, n)`.
///
/// `Fixed(k)` always yields `k % n` (so `Fixed(0)` always yields `0`), and
/// `Pseudo(s)` steps a xorshift64 state and yields the new state modulo `n`.
#[derive(Clone, Copy, Debug, PartialEq, Eq, Structural)]
pub enum RandomSource {
    Fixed(usize),
    Pseudo(u64),
}

impl RandomSource {
    /// The index that the next draw with bound `bound` yields.
    pub open spec fn spec_index(self, bound: int) -> int {
        match self {
            RandomSource::Fixed(k) => k as int % bound,
            RandomSource::Pseudo(s) => spec_xorshift(s) as int % bound,
        }
    }

    /// The state of the source after one draw.
    pub open spec fn spec_step(self) -> RandomSource {
        match self {
            RandomSource::Fixed(k) => RandomSource::Fixed(k),
            RandomSource::Pseudo(s) => RandomSource::Pseudo(spec_xorshift(s)),
        }
    }

    /// Draw one index in `[0, bound)` and advance the source.
    pub fn next_index(&mut self, bound: usize) -> (r: usize)
        requires
            bound >= 1,
        ensures
            r == old(self).spec_index(bound as int),
            r < bound,
            *final(self) == old(self).spec_step(),
    {
        match *self {
            RandomSource::Fixed(k) => k % bound,
            RandomSource::Pseudo(s) => {
                let a = s ^ (s << 13u64);
                let b = a ^ (a >> 7u64);
                let x = b ^ (b << 17u64);
                *self = RandomSource::Pseudo(x);
                let r = x % (bound as u64);
                r as usize
            },
        }
    }
}

} // verus!
