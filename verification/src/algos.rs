//! Small algorithms behind one interface: an algorithm is handed its input,
//! works on it and keeps its output.

pub mod example_algo;
pub mod rpn_interpreter;

use vstd::prelude::*;

verus! {

/// An algorithm from inputs `I` to outputs `O` that keeps the input it was
/// last handed and the output it last produced.
pub trait Algo<I, O> {
    /// The inputs on which the algorithm is defined.
    spec fn accepts(input: &I) -> bool;

    /// The input that the algorithm holds is one on which it is defined.
    spec fn ready(&self) -> bool;

    /// Takes `input`, works on it and returns the output.
    fn run_algo(&mut self, input: I) -> O
        requires
            Self::accepts(&input),
    ;

    /// Works on the input that the algorithm holds and returns the output.
    fn implementation(&mut self) -> O
        requires
            old(self).ready(),
    ;
}

} // verus!
