//! The ways in which a conversion can fail.

use vstd::prelude::*;

verus! {

/// Why a value could not be converted.
#[derive(Clone, Copy, Debug, PartialEq, Eq, Structural)]
pub enum CodecError {
    /// A binary payload that was to be read as text is not valid UTF-8.
    InvalidUtf8,
    /// The text of a number attribute is not a numeric literal.
    InvalidNumber,
    /// An attribute value has none of its slots populated.
    EmptyAttribute,
    /// A value that was to become a field map is not an object.
    NotAnObject,
}

impl CodecError {
    /// A sentence that says what went wrong.
    pub fn message(&self) -> (text: &'static str)
        ensures
            text@ == self.spec_message(),
    {
        match self {
            CodecError::InvalidUtf8 => "binary attribute is not valid UTF-8",
            CodecError::InvalidNumber => "number attribute is not a numeric literal",
            CodecError::EmptyAttribute => "attribute value has no populated slot",
            CodecError::NotAnObject => "value is not an object",
        }
    }

    /// The sentence that `message` returns.
    pub open spec fn spec_message(&self) -> Seq<char> {
        match self {
            CodecError::InvalidUtf8 => "binary attribute is not valid UTF-8"@,
            CodecError::InvalidNumber => "number attribute is not a numeric literal"@,
            CodecError::EmptyAttribute => "attribute value has no populated slot"@,
            CodecError::NotAnObject => "value is not an object"@,
        }
    }
}

} // verus!
