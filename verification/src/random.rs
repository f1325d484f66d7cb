//! The seeded random source of a run. A generator is no more than its state,
//! 64 bits that `fastrand` advances with each draw, so a run can be repeated
//! from its seed and two runs never share a source.

use vstd::prelude::*;

verus! {

/// What a `fastrand` generator in state `state` gives for a number below
/// `bound`: the state it is left in, and the number.
pub uninterp spec fn drawn_below(state: u64, bound: u64) -> (u64, u64);

/// What a `fastrand` generator in state `state` gives for a byte from `low`
/// to `high`, both included: the state it is left in, and the byte.
pub uninterp spec fn drawn_between(state: u64, low: u8, high: u8) -> (u64, u8);

/// `fastrand::Rng::u64` over the range `..bound`, on a generator made with
/// `with_seed(state)` and read back with `get_seed`. The draw depends on the
/// state and the bound alone and lies in the range; an empty range is left
/// out, since the call panics on it.
#[verifier::external_body]
fn draw_below(state: u64, bound: u64) -> (r: (u64, u64))
    requires
        bound > 0,
    ensures
        r == drawn_below(state, bound),
        r.1 < bound,
{
    let mut rng = fastrand::Rng::with_seed(state);
    let value = rng.u64(..bound);
    (rng.get_seed(), value)
}

/// `fastrand::Rng::u8` over the range `low..=high`, on a generator made with
/// `with_seed(state)` and read back with `get_seed`. The draw depends on the
/// state and the bounds alone and lies in the range; an empty range is left
/// out, since the call panics on it.
#[verifier::external_body]
fn draw_between(state: u64, low: u8, high: u8) -> (r: (u64, u8))
    requires
        low <= high,
    ensures
        r == drawn_between(state, low, high),
        low <= r.1 <= high,
{
    let mut rng = fastrand::Rng::with_seed(state);
    let value = rng.u8(low..=high);
    (rng.get_seed(), value)
}

/// A random source, known by its state.
#[derive(Clone, Copy, Debug, PartialEq, Eq, Structural)]
pub struct Generator {
    pub state: u64,
}

impl Generator {
    /// The generator that a run with seed `seed` starts from.
    pub fn with_seed(seed: u64) -> (r: Generator)
        ensures
            r.state == seed,
    {
        Generator { state: seed }
    }

    /// Draws a number below `bound` and moves on to the next state.
    pub fn below(&mut self, bound: usize) -> (r: usize)
        requires
            bound > 0,
        ensures
            r < bound,
            r == drawn_below(old(self).state, bound as u64).1,
            final(self).state == drawn_below(old(self).state, bound as u64).0,
    {
        let drawn = draw_below(self.state, bound as u64);
        self.state = drawn.0;
        drawn.1 as usize
    }

    /// Draws a byte from `low` to `high` and moves on to the next state.
    pub fn between(&mut self, low: u8, high: u8) -> (r: u8)
        requires
            low <= high,
        ensures
            low <= r <= high,
            r == drawn_between(old(self).state, low, high).1,
            final(self).state == drawn_between(old(self).state, low, high).0,
    {
        let drawn = draw_between(self.state, low, high);
        self.state = drawn.0;
        drawn.1
    }
}

} // verus!
