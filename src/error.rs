use vstd::prelude::*;

verus! {

/// Why a resistor code could not be decoded.
#[derive(Debug, Clone, Copy, PartialEq, Eq, Structural)]
pub enum ParseError {
    /// The digits and decimal point that were scanned do not form a number:
    /// there is no digit among them.
    NumericLiteral,
    /// The multiplier letter is none of L, R, K, M, G, T (in either case).
    /// Carries the character as it was written.
    UnsupportedLetterCode(char),
}

} // verus!
