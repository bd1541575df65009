//! The ways in which building a report can fail.
use vstd::prelude::*;

verus! {

#[derive(Debug, Clone, Copy, PartialEq, Eq, Structural)]
pub enum FreeError {
    /// A statistics command could not be run or its output not read.
    ExternalCommandError,
    /// A number that a line must hold is missing, or too few swap figures.
    ParseError,
    /// A quantity would leave the range of `u64`: a subtraction that would go
    /// below zero, or a sum or product past the largest value.
    ArithmeticConsistencyError,
}

} // verus!
