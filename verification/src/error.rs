//! The ways in which translating one instruction can fail.

use vstd::prelude::*;

verus! {

/// Why an instruction could not be translated. Each failure ends the run:
/// nothing is retried and nothing is replaced by a default.
#[derive(Debug, Clone, Copy, PartialEq, Eq, Structural)]
pub enum TranslateError {
    /// The first word of the line is no instruction keyword, or the line has
    /// no word at all.
    UnrecognizedOpcode,
    /// A `push` or `pop` names no known segment, or its index is missing, is
    /// no number, is negative or does not fit in 16 bits.
    MalformedOperand,
    /// A `pop` names the constant segment, which cannot be assigned to.
    InvalidPop,
    /// The fixed address of the constant or of the static segment was asked
    /// for: the first has none, the second is only known to the generator.
    ContextualAddressMisuse,
}

impl TranslateError {
    /// A short description for diagnostics.
    pub fn message(&self) -> (text: &'static str)
        ensures
            text@ == match *self {
                TranslateError::UnrecognizedOpcode => "unexpected token"@,
                TranslateError::MalformedOperand => "malformed operand"@,
                TranslateError::InvalidPop => "cannot pop constant"@,
                TranslateError::ContextualAddressMisuse => "segment has no fixed address"@,
            },
    {
        match self {
            TranslateError::UnrecognizedOpcode => "unexpected token",
            TranslateError::MalformedOperand => "malformed operand",
            TranslateError::InvalidPop => "cannot pop constant",
            TranslateError::ContextualAddressMisuse => "segment has no fixed address",
        }
    }
}

} // verus!
