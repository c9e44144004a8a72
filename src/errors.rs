//! The failures that the math reports to its callers.
use vstd::prelude::*;

verus! {

#[derive(Clone, Copy, Debug, PartialEq, Eq, Structural)]
pub enum ClmmError {
    /// Adding to the liquidity accumulator went past `u128::MAX`, or added nothing.
    Overflow,
    /// Removing from the liquidity accumulator went below zero.
    Underflow,
    /// A token amount does not fit in 64 bits.
    MaxTokenOverflow,
    /// A tick or price outside its range, or a tick outside the array asked for.
    InvalidTickRange,
    /// A zero divisor or a width overflow in the fixed-point arithmetic.
    ArithmeticPrecondition,
}

} // verus!
