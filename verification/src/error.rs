//! The two error outcomes shared by every encoder and decoder.

use vstd::prelude::*;

verus! {

/// Error type for all codec operations.
#[derive(Debug, Copy, Clone, Eq, PartialEq, Structural)]
pub enum Error {
    /// The provided output buffer is too small to hold the result, or a
    /// length calculation would exceed the representable range.
    Overflow,
    /// The input is not valid for the given encoding: a character outside
    /// the alphabet and the ignore set, non-zero trailing bits, incorrect
    /// or missing padding, or (for hex) an odd number of digits.
    InvalidInput,
}

impl Error {
    /// A human-readable description of the error.
    pub fn message(&self) -> (r: &'static str)
        ensures
            *self is Overflow ==> r@ == "output buffer too small or calculation overflow"@,
            *self is InvalidInput ==> r@ == "invalid input for the given encoding"@,
    {
        match self {
            Error::Overflow => "output buffer too small or calculation overflow",
            Error::InvalidInput => "invalid input for the given encoding",
        }
    }
}

} // verus!
