//! Resistor value codes in the IEC 60062 letter-and-digit notation (`4K7`,
//! `1R23`, `2M2`): a scanner that splits a code into a decimal literal and a
//! multiplier letter, the table of multiplier letters, and the choice and
//! rendering of a letter for a magnitude.
//!
//! The library works on text and integers only. Turning a decimal literal
//! into a binary floating-point number, dividing a magnitude by a power of
//! ten and printing the quotient are left to the caller.

pub mod decode;
pub mod encode;
pub mod error;
pub mod laws;
pub mod table;

pub use decode::{decode, parse, Decoded, Scanned};
pub use encode::{classify, render, Scale};
pub use error::ParseError;
pub use table::multiplier_exponent;
