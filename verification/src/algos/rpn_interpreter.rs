//! An interpreter for arithmetic expressions on 32-bit integers.
//!
//! An expression is read from left to right, one character after the other.
//! Decimal digits build the current number. An operator closes the current
//! number: `+` and `-` put it, or its negative, on a stack, `*` and `/`
//! combine it with the top of the stack. An opening bracket starts an
//! expression of its own, whose value becomes the current number; a closing
//! bracket, or the end of the text, ends an expression, whose value is the
//! sum of its stack. Any other character is passed over.
//!
//! The value of an expression is undefined where a number, a product, a
//! quotient or a sum does not fit in an `i32`, where a divisor is zero, and
//! where nothing follows an opening bracket.

use crate::algos::Algo;
use vstd::prelude::*;
use vstd::string::*;

verus! {

/// The operation under which a number goes on the stack.
#[derive(Debug, Clone, Copy)]
pub enum Operation {
    Add,
    Sub,
    Mul,
    Div,
}

/// The character `(`.
pub const OPEN: u8 = 40;

/// The character `)`.
pub const CLOSE: u8 = 41;

/// The character `+`.
pub const PLUS: u8 = 43;

/// The character `-`.
pub const MINUS: u8 = 45;

/// The character `*`.
pub const TIMES: u8 = 42;

/// The character `/`.
pub const OVER: u8 = 47;

/// The character `0`.
pub const ZERO: u8 = 48;

/// The character `9`.
pub const NINE: u8 = 57;

/// The operation that character `c` stands for, if it stands for one.
pub open spec fn operation_of(c: u8) -> Option<Operation> {
    if c == PLUS {
        Some(Operation::Add)
    } else if c == MINUS {
        Some(Operation::Sub)
    } else if c == TIMES {
        Some(Operation::Mul)
    } else if c == OVER {
        Some(Operation::Div)
    } else {
        None
    }
}

/// The stack after number `n` was put on it under operation `op`: `Add`
/// puts `n` on top, `Sub` its negative, `Mul` and `Div` replace the top by
/// its product or quotient with `n`. `None` where the new top is undefined.
pub open spec fn pushed(stack: Seq<i32>, op: Operation, n: i32) -> Option<Seq<i32>> {
    match op {
        Operation::Add => Some(stack.push(n)),
        Operation::Sub => match 0i32.checked_sub(n) {
            Some(negative) => Some(stack.push(negative)),
            None => None,
        },
        Operation::Mul => if stack.len() == 0 {
            None
        } else {
            match stack.last().checked_mul(n) {
                Some(product) => Some(stack.drop_last().push(product)),
                None => None,
            }
        },
        Operation::Div => if stack.len() == 0 {
            None
        } else {
            match stack.last().checked_div(n) {
                Some(quotient) => Some(stack.drop_last().push(quotient)),
                None => None,
            }
        },
    }
}

/// The sum of the numbers of `stack`, added up from the bottom. `None`
/// where a partial sum does not fit in an `i32`.
pub open spec fn sum(stack: Seq<i32>) -> Option<i32>
    decreases stack.len(),
{
    if stack.len() == 0 {
        Some(0i32)
    } else {
        match sum(stack.drop_last()) {
            Some(below) => below.checked_add(stack.last()),
            None => None,
        }
    }
}

/// The value of an expression that ends here: the current number goes on
/// the stack under the pending operation, and the stack is summed up.
pub open spec fn closed(stack: Seq<i32>, pending: Operation, current: i32) -> Option<i32> {
    match pushed(stack, pending, current) {
        Some(full) => sum(full),
        None => None,
    }
}

/// The number that `current` becomes when digit character `c` is appended.
pub open spec fn appended(current: i32, c: u8) -> Option<i32> {
    match current.checked_mul(10) {
        Some(shifted) => shifted.checked_add((c - ZERO) as i32),
        None => None,
    }
}

/// The reading of the expression in `text` from position `at` on, with
/// `current` the number read so far, `pending` the operation under which it
/// will go on the stack, and `stack` the numbers of this expression that
/// are already there. The result is the value of the expression and the
/// position where it ends: that of its closing bracket, or the last
/// position of the text.
pub open spec fn scan(
    text: Seq<u8>,
    at: int,
    current: i32,
    pending: Operation,
    stack: Seq<i32>,
) -> Option<(i32, int)>
    decreases text.len() - at,
{
    if at < 0 {
        None
    } else if at >= text.len() {
        match closed(stack, pending, current) {
            Some(value) => Some((value, text.len() - 1)),
            None => None,
        }
    } else if text[at] == OPEN {
        if at + 1 >= text.len() {
            None
        } else {
            match scan(text, at + 1, 0, Operation::Add, Seq::empty()) {
                Some((value, end)) => if end <= at || end >= text.len() {
                    None
                } else {
                    scan(text, end + 1, value, pending, stack)
                },
                None => None,
            }
        }
    } else if text[at] == CLOSE {
        match closed(stack, pending, current) {
            Some(value) => Some((value, at)),
            None => None,
        }
    } else if ZERO <= text[at] <= NINE {
        match appended(current, text[at]) {
            Some(number) => scan(text, at + 1, number, pending, stack),
            None => None,
        }
    } else {
        match operation_of(text[at]) {
            Some(next) => match pushed(stack, pending, current) {
                Some(longer) => scan(text, at + 1, 0, next, longer),
                None => None,
            },
            None => scan(text, at + 1, current, pending, stack),
        }
    }
}

/// The value of the expression `text` and the position where it ends.
/// `None` where the value is undefined, and for a text that is empty or
/// holds a character outside ASCII.
pub open spec fn meaning(text: &str) -> Option<(i32, int)> {
    if is_ascii(text) && text.spec_bytes().len() > 0 {
        scan(text.spec_bytes(), 0, 0, Operation::Add, Seq::empty())
    } else {
        None
    }
}

/// An expression ends inside the text, and not before the position where
/// its reading began. So the test that `scan` makes on the end of a
/// bracketed expression never fails.
pub proof fn lemma_scan_end(
    text: Seq<u8>,
    at: int,
    current: i32,
    pending: Operation,
    stack: Seq<i32>,
)
    requires
        0 <= at,
        text.len() > 0,
    ensures
        scan(text, at, current, pending, stack) matches Some((_, end)) ==> end < text.len() && (
        at < text.len() ==> at <= end),
    decreases text.len() - at,
{
    if at >= text.len() {
        // the text is used up: the expression ends at its last position
    } else if text[at] == OPEN {
        if at + 1 < text.len() {
            lemma_scan_end(text, at + 1, 0, Operation::Add, Seq::empty());
            match scan(text, at + 1, 0, Operation::Add, Seq::empty()) {
                Some((value, end)) => {
                    if at < end < text.len() {
                        lemma_scan_end(text, end + 1, value, pending, stack);
                    }
                },
                None => {},
            }
        }
    } else if text[at] == CLOSE {
    } else if ZERO <= text[at] <= NINE {
        match appended(current, text[at]) {
            Some(number) => {
                lemma_scan_end(text, at + 1, number, pending, stack);
            },
            None => {},
        }
    } else {
        match operation_of(text[at]) {
            Some(next) => match pushed(stack, pending, current) {
                Some(longer) => {
                    lemma_scan_end(text, at + 1, 0, next, longer);
                },
                None => {},
            },
            None => {
                lemma_scan_end(text, at + 1, current, pending, stack);
            },
        }
    }
}

/// Puts `n` on `stack` under `op`, and says whether the new top is defined.
fn push_to_stack(op: Operation, n: i32, stack: &mut Vec<i32>) -> (defined: bool)
    ensures
        (match pushed(old(stack)@, op, n) {
            Some(longer) => defined && final(stack)@ == longer,
            None => !defined,
        }),
{
    let top = match op {
        Operation::Add => Some(n),
        Operation::Sub => 0i32.checked_sub(n),
        Operation::Mul => match stack.pop() {
            Some(last) => last.checked_mul(n),
            None => None,
        },
        Operation::Div => match stack.pop() {
            Some(last) => last.checked_div(n),
            None => None,
        },
    };
    match top {
        Some(value) => {
            stack.push(value);
            true
        },
        None => false,
    }
}

/// The sum of the numbers of `stack`, if it is defined.
fn sum_of(stack: &Vec<i32>) -> (total: Option<i32>)
    ensures
        total == sum(stack@),
{
    let mut total: i32 = 0;
    let mut i: usize = 0;
    while i < stack.len()
        invariant
            i <= stack.len(),
            sum(stack@.take(i as int)) == Some(total),
        decreases stack.len() - i,
    {
        assert(stack@.take(i + 1).drop_last() =~= stack@.take(i as int));
        match total.checked_add(stack[i]) {
            Some(more) => {
                total = more;
            },
            None => {
                proof {
                    lemma_sum_of_prefix(stack@, i + 1);
                }
                return None;
            },
        }
        i += 1;
    }
    assert(stack@.take(stack.len() as int) =~= stack@);
    Some(total)
}

/// Where the sum of the first `n` numbers of a stack is undefined, so is
/// the sum of them all.
proof fn lemma_sum_of_prefix(stack: Seq<i32>, n: int)
    requires
        0 <= n <= stack.len(),
        sum(stack.take(n)) is None,
    ensures
        sum(stack) is None,
    decreases stack.len(),
{
    if n < stack.len() {
        assert(stack.drop_last().take(n) =~= stack.take(n));
        lemma_sum_of_prefix(stack.drop_last(), n);
    } else {
        assert(stack.take(n) =~= stack);
    }
}

/// Reads the expression that begins at position `start` of `text`.
fn scan_from(text: &[u8], start: usize) -> (result: Option<(i32, usize)>)
    requires
        start < text@.len(),
    ensures
        (match result {
            Some((value, end)) => start <= end < text@.len() && scan(
                text@,
                start as int,
                0,
                Operation::Add,
                Seq::empty(),
            ) == Some((value, end as int)),
            None => scan(text@, start as int, 0, Operation::Add, Seq::empty()) is None,
        }),
    decreases text@.len() - start,
{
    let ghost whole = scan(text@, start as int, 0, Operation::Add, Seq::empty());
    let mut current: i32 = 0;
    let mut pending = Operation::Add;
    let mut stack: Vec<i32> = Vec::new();
    let mut at: usize = start;
    while at < text.len()
        invariant
            start <= at <= text@.len(),
            start < text@.len(),
            whole == scan(text@, start as int, 0, Operation::Add, Seq::empty()),
            scan(text@, at as int, current, pending, stack@) == whole,
        decreases text@.len() - at,
    {
        let c = text[at];
        if c == OPEN {
            if at + 1 >= text.len() {
                return None;
            }
            match scan_from(text, at + 1) {
                Some((value, end)) => {
                    current = value;
                    at = end + 1;
                },
                None => {
                    return None;
                },
            }
        } else if c == CLOSE {
            if !push_to_stack(pending, current, &mut stack) {
                return None;
            }
            return match sum_of(&stack) {
                Some(value) => Some((value, at)),
                None => None,
            };
        } else if ZERO <= c && c <= NINE {
            let digit = (c - ZERO) as i32;
            match current.checked_mul(10) {
                Some(shifted) => match shifted.checked_add(digit) {
                    Some(number) => {
                        current = number;
                    },
                    None => {
                        return None;
                    },
                },
                None => {
                    return None;
                },
            }
            at += 1;
        } else if c == PLUS || c == MINUS || c == TIMES || c == OVER {
            if !push_to_stack(pending, current, &mut stack) {
                return None;
            }
            pending = if c == PLUS {
                Operation::Add
            } else if c == MINUS {
                Operation::Sub
            } else if c == TIMES {
                Operation::Mul
            } else {
                Operation::Div
            };
            current = 0;
            at += 1;
        } else {
            at += 1;
        }
    }
    if !push_to_stack(pending, current, &mut stack) {
        return None;
    }
    match sum_of(&stack) {
        Some(value) => Some((value, text.len() - 1)),
        None => None,
    }
}

/// The value of the expression `s` and the position where it ends, or
/// `None` where the expression has no value.
pub fn calculate(s: &str) -> (result: Option<(i32, usize)>)
    ensures
        (match result {
            Some((value, end)) => meaning(s) == Some((value, end as int)),
            None => meaning(s) is None,
        }),
{
    if !s.is_ascii() {
        return None;
    }
    let text = s.as_bytes();
    if text.len() == 0 {
        return None;
    }
    scan_from(text, 0)
}

/// An expression to interpret.
#[derive(Debug, Clone, Copy)]
pub struct Input<'a> {
    pub expression: &'a str,
}

impl<'a> Default for Input<'a> {
    /// The expression `1+2+3+4+5`.
    fn default() -> (input: Self)
        ensures
            input.expression@ == "1+2+3+4+5"@,
    {
        Input { expression: "1+2+3+4+5" }
    }
}

impl<'a> Input<'a> {
    /// The input that holds `expression`.
    pub fn new(expression: &'a str) -> (input: Self)
        ensures
            input.expression == expression,
    {
        Input { expression }
    }
}

/// The value of an expression.
#[derive(Debug, Clone, Copy)]
pub struct Output {
    pub _solution: i32,
}

impl Default for Output {
    /// The value 0.
    fn default() -> (output: Self)
        ensures
            output._solution == 0,
    {
        Output { _solution: 0 }
    }
}

/// The interpreter, with the expression it was last handed and the value
/// it last found.
#[derive(Debug)]
pub struct RpnInterpreter<'a> {
    pub input: Input<'a>,
    pub output: Output,
}

impl<'a> Default for RpnInterpreter<'a> {
    /// The interpreter that holds the expression `1+2+3+4+5` and the value 0.
    fn default() -> (algo: Self)
        ensures
            algo.input.expression@ == "1+2+3+4+5"@,
            algo.output._solution == 0,
    {
        RpnInterpreter { input: Input::default(), output: Output::default() }
    }
}

impl<'a> Algo<Input<'a>, Output> for RpnInterpreter<'a> {
    /// The expressions that have a value.
    open spec fn accepts(input: &Input<'a>) -> bool {
        meaning(input.expression) is Some
    }

    open spec fn ready(&self) -> bool {
        meaning(self.input.expression) is Some
    }

    /// Keeps `input` and finds the value of its expression.
    fn run_algo(&mut self, input: Input<'a>) -> (output: Output)
        ensures
            final(self).input == input,
            final(self).output == output,
            meaning(input.expression) matches Some((value, _)) && output._solution == value,
    {
        self.input = input;
        self.implementation()
    }

    /// Finds the value of the expression that is held.
    fn implementation(&mut self) -> (output: Output)
        ensures
            final(self).input == old(self).input,
            final(self).output == output,
            meaning(old(self).input.expression) matches Some((value, _)) && output._solution
                == value,
    {
        match calculate(self.input.expression) {
            Some((_solution, _)) => {
                self.output = Output { _solution };
            },
            None => {},
        }
        self.output
    }
}

} // verus!
