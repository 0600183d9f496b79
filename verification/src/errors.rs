//! The failure taxonomy: what can go wrong while reading a program text and
//! what can go wrong while running the instruction tree.

use vstd::prelude::*;

verus! {

/// A failure while turning program text into an instruction tree.
#[derive(Debug, Clone, Copy, PartialEq, Eq)]
pub enum ParseError {
    /// A `[` has no matching `]` before the end of the input.
    UnmatchedOpen,
    /// A `]` appears with no `[` still open.
    UnmatchedClose,
    /// A repeat-count digit run does not fit the count's integer width.
    InvalidCount,
}

/// A failure while evaluating an instruction tree against a tape.
#[derive(Debug, Clone, Copy, PartialEq, Eq)]
pub enum RuntimeError {
    /// An input instruction ran with no byte left in the input stream.
    InputExhausted,
    /// The cell under the cursor lies outside the tape's capacity.
    OutOfRange,
    /// The evaluator's loop-iteration budget ran out. The budget is 2^64 - 1
    /// passes per loop, so this stands in for a program that does not
    /// terminate rather than for anything a terminating program can reach.
    StepLimit,
}

/// Any failure of the whole pipeline, as the all-in-one evaluation entry
/// points report it.
#[derive(Debug, Clone, Copy, PartialEq, Eq)]
pub enum EvalError {
    /// The program text was rejected before anything ran.
    Syntax(ParseError),
    /// The program ran and failed.
    Runtime(RuntimeError),
}

} // verus!
