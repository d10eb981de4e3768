//! Failure taxonomy of the input decoder.

use vstd::prelude::*;

verus! {

/// Everything that can go wrong while decoding an input token. All
/// variants are detected synchronously; the decoder never panics and
/// never returns partially-built output.
#[derive(Debug, Clone, PartialEq, Eq)]
pub enum ParseError {
    /// The token does not match the input grammar at all.
    InvalidFormat,
    /// The unit suffix is not in the recognized vocabulary; carries the
    /// offending suffix.
    InvalidUnit(String),
    /// The digit string holds a character that is invalid under the
    /// resolved numeral system (for example `a` under decimal).
    RadixDigitError,
    /// The decoded magnitude, or the magnitude after unit scaling, does
    /// not fit in 64 bits.
    Overflow,
}

impl ParseError {
    /// A short description for presentation layers.
    pub fn message(&self) -> (r: String)
        ensures
            (*self is InvalidFormat ==> r@ == "input does not match the grammar"@),
            (*self matches ParseError::InvalidUnit(u) ==> r@ == "unrecognized unit suffix: "@
                + u@),
            (*self is RadixDigitError ==> r@
                == "digit invalid under the resolved numeral system"@),
            (*self is Overflow ==> r@ == "value does not fit in 64 bits"@),
    {
        match self {
            ParseError::InvalidFormat => String::from_str("input does not match the grammar"),
            ParseError::InvalidUnit(u) => {
                let mut m = String::from_str("unrecognized unit suffix: ");
                m.append(u.as_str());
                m
            },
            ParseError::RadixDigitError => String::from_str(
                "digit invalid under the resolved numeral system",
            ),
            ParseError::Overflow => String::from_str("value does not fit in 64 bits"),
        }
    }
}

} // verus!
