//! The trapezoidal (zero-delay) one-pole memory cell: the leaf primitive of
//! the state-variable filter.

use vstd::prelude::*;
use crate::fixed::{fx_add, fx_mul, qadd, qmul};

verus! {

/// One integrator step's output: `g*input + state`.
pub open spec fn integ_out(state: int, input: int, g: int) -> int {
    fx_add(fx_mul(g, input), state)
}

/// One integrator step's next state: `output + g*input`.
pub open spec fn integ_next(state: int, input: int, g: int) -> int {
    fx_add(integ_out(state, input, g), fx_mul(g, input))
}

/// A bilinear-consistent digital integrator: it stores its previous output
/// and advances without adding a sample of delay.
pub struct Integrator {
    /// The stored previous output.
    pub state: i64,
}

impl Integrator {
    /// A quiescent integrator.
    pub fn new() -> (r: Integrator)
        ensures
            r.state == 0,
    {
        Integrator { state: 0 }
    }

    /// The pre-update stored value, read by the enclosing feedback solve
    /// without advancing the integrator.
    pub fn previous_output(&self) -> (r: i64)
        ensures
            r == self.state,
    {
        self.state
    }

    /// Advances one sample: returns `g*input + state` and stores
    /// `output + g*input`.
    pub fn process(&mut self, input: i64, g: i64) -> (out: i64)
        ensures
            out as int == integ_out(old(self).state as int, input as int, g as int),
            final(self).state as int == integ_next(old(self).state as int, input as int, g as int),
    {
        let gi: i64 = qmul(g, input);
        let out: i64 = qadd(gi, self.state);
        self.state = qadd(out, gi);
        out
    }

    /// Zeroes the stored state.
    pub fn reset(&mut self)
        ensures
            final(self).state == 0,
    {
        self.state = 0;
    }
}

} // verus!
