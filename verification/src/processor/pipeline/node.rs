//! The pipeline node abstraction.

use vstd::prelude::*;

verus! {

/// A pipeline stage that transforms an input into an output.
pub trait Node<In, Out> {
    /// Whether the node can process an input in its current state.
    spec fn accepts(&self, input: In) -> bool;

    /// Processes one input.
    fn process(&mut self, input: In) -> Out
        requires
            old(self).accepts(input),
    ;
}

} // verus!
