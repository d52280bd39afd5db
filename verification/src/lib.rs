//! Emulation of 32-bit signed integer arithmetic, and a Q16.16 fixed-point
//! numeric type built on it, using only narrow limb operations: 8-bit limbs
//! for addition, subtraction and negation, and 4-bit nibbles for
//! multiplication and long division.

pub mod int32;
pub mod mul;
pub mod divide;
pub mod errors;
pub mod nibbles;
pub mod number;
pub mod sqrt;

pub use divide::div_u4;
pub use errors::DivisionByZero;
pub use errors::NegativeOperand;
pub use int32::Int32;
pub use number::Number;
