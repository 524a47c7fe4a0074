//! Where a value stands, or would have to be put, in a sorted array.

use crate::algos::Algo;
use vstd::prelude::*;

verus! {

/// `array` is in ascending order.
pub open spec fn sorted(array: Seq<i32>) -> bool {
    forall|i: int, j: int| 0 <= i <= j < array.len() ==> array[i] <= array[j]
}

/// `index` is the first position of `array` whose element is not less than
/// `pos`, or the length of `array` where every element is less. In a sorted
/// array there is one such position: where `pos` stands first, or where it
/// would have to be put to keep the order.
pub open spec fn is_position_of(array: Seq<i32>, pos: i32, index: int) -> bool {
    &&& 0 <= index <= array.len()
    &&& forall|i: int| 0 <= i < index ==> array[i] < pos
    &&& forall|i: int| index <= i < array.len() ==> array[i] >= pos
}

/// A sorted array and the value to look for.
#[derive(Debug)]
pub struct Input {
    array: Vec<i32>,
    pos: i32,
}

impl Input {
    /// The array is sorted and short enough for a position in it to be an
    /// `i32`.
    #[verifier::type_invariant]
    spec fn well_formed(&self) -> bool {
        &&& sorted(self.array@)
        &&& self.array@.len() <= i32::MAX
    }

    /// The array to search.
    pub closed spec fn array(&self) -> Seq<i32> {
        self.array@
    }

    /// The value to look for.
    pub closed spec fn pos(&self) -> i32 {
        self.pos
    }

    /// The array `[1, 3, 5, 6]` and the value 5.
    pub fn new() -> (input: Self)
        ensures
            input.array() == seq![1i32, 3i32, 5i32, 6i32],
            input.pos() == 5,
    {
        let mut array: Vec<i32> = Vec::new();
        array.push(1);
        array.push(3);
        array.push(5);
        array.push(6);
        Input { array, pos: 5 }
    }
}

impl Default for Input {
    /// The empty array and the value 0.
    fn default() -> (input: Self)
        ensures
            input.array() == Seq::<i32>::empty(),
            input.pos() == 0,
    {
        Input { array: Vec::new(), pos: 0 }
    }
}

/// The position found.
#[derive(Debug, Clone, Copy)]
pub struct Output {
    pub solution: i32,
}

impl Default for Output {
    /// The position 0.
    fn default() -> (output: Self)
        ensures
            output.solution == 0,
    {
        Output { solution: 0 }
    }
}

/// The search for a value in a sorted array, with the input it was last
/// handed and the position it last found.
#[derive(Debug)]
pub struct ExampleAlgo {
    pub input: Input,
    pub output: Output,
}

impl Default for ExampleAlgo {
    /// The search that holds the empty array, the value 0 and the position 0.
    fn default() -> (algo: Self)
        ensures
            algo.input.array() == Seq::<i32>::empty(),
            algo.input.pos() == 0,
            algo.output.solution == 0,
    {
        ExampleAlgo { input: Input::default(), output: Output::default() }
    }
}

impl Algo<Input, Output> for ExampleAlgo {
    open spec fn accepts(input: &Input) -> bool {
        true
    }

    open spec fn ready(&self) -> bool {
        true
    }

    /// Keeps `input` and finds the position of its value in its array.
    fn run_algo(&mut self, input: Input) -> (output: Output)
        ensures
            final(self).input == input,
            final(self).output == output,
            is_position_of(input.array(), input.pos(), output.solution as int),
    {
        self.input = input;
        self.implementation()
    }

    /// Finds the position of the value in the array of the input that is
    /// held: the search halves the range in which the position lies until
    /// nothing of it is left.
    fn implementation(&mut self) -> (output: Output)
        ensures
            final(self).input == old(self).input,
            final(self).output == output,
            is_position_of(old(self).input.array(), old(self).input.pos(), output.solution as int),
    {
        proof {
            use_type_invariant(&self.input);
        }
        let pos = self.input.pos;
        let mut low: usize = 0;
        let mut high: usize = self.input.array.len();
        while low < high
            invariant
                low <= high <= self.input.array@.len(),
                self.input.array@.len() <= i32::MAX,
                sorted(self.input.array@),
                pos == self.input.pos,
                forall|i: int| 0 <= i < low ==> self.input.array@[i] < pos,
                forall|i: int| high <= i < self.input.array@.len() ==> self.input.array@[i] >= pos,
            decreases high - low,
        {
            let middle = low + (high - low) / 2;
            if self.input.array[middle] < pos {
                low = middle + 1;
            } else {
                high = middle;
            }
        }
        self.output.solution = low as i32;
        self.output
    }
}

/// A sorted array has one position for each value.
pub proof fn lemma_position_is_unique(array: Seq<i32>, pos: i32, first: int, second: int)
    requires
        is_position_of(array, pos, first),
        is_position_of(array, pos, second),
    ensures
        first == second,
{
    if first < second {
        assert(array[first] < pos);
    } else if second < first {
        assert(array[second] < pos);
    }
}

} // verus!
