//! The single failure the cipher can report.

use vstd::prelude::*;
use vstd::string::StringExecFns;
use crate::text::push_char;

verus! {

/// Why a character could not be enciphered.
#[derive(Debug, Clone, Copy, PartialEq, Eq, Structural)]
pub enum EnigmaError {
    /// The character is not one of the capital letters `A` to `Z`.
    InvalidChar(char),
}

/// The outcome of an operation that may reject a character.
pub type Result<T> = core::result::Result<T, EnigmaError>;

impl EnigmaError {
    /// The character that was refused.
    pub open spec fn refused(self) -> char {
        match self {
            EnigmaError::InvalidChar(c) => c,
        }
    }

    /// The error in words: a fixed phrase followed by the refused character.
    pub fn message(&self) -> (s: String)
        ensures
            s@ == "Cannot process character "@.push(self.refused()),
    {
        let mut s = String::from_str("Cannot process character ");
        match self {
            EnigmaError::InvalidChar(c) => push_char(&mut s, *c),
        }
        s
    }
}

} // verus!
