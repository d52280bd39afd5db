//! The two fatal conditions of the arithmetic: everything else, including
//! overflow, wraps by design and is not an error.

use vstd::prelude::*;

verus! {

/// Division, integer or fixed-point, was asked for with the zero value as
/// divisor.
#[derive(Debug, PartialEq, Eq, Structural)]
pub struct DivisionByZero;

/// A square root was asked for of a negative value.
#[derive(Debug, PartialEq, Eq, Structural)]
pub struct NegativeOperand;

} // verus!
