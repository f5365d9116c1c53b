//! A strategy: a typed unit that composes steps over an input.

use vstd::prelude::*;

verus! {

/// A typed unit from `Input` to `Output` that composes and runs steps.
pub trait Strategy {
    /// The input the strategy consumes.
    type Input: ?Sized;

    /// The output the strategy produces.
    type Output;

    /// Whether a run on `input` may leave the strategy as `after` and give
    /// `output`.
    open spec fn achieves(&self, input: &Self::Input, after: &Self, output: &Self::Output) -> bool {
        true
    }

    /// Runs the strategy on a borrowed input.
    fn run(&mut self, input: &Self::Input) -> (output: Self::Output)
        ensures
            old(self).achieves(input, final(self), &output),
    ;
}

} // verus!
