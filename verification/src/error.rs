//! The errors of field parsing and of the occurrence search.

use vstd::prelude::*;

verus! {

/// Why a token could not be read as an unsigned decimal integer.
#[derive(Debug, Clone, Copy, PartialEq, Eq, Structural)]
pub enum IntErrorKind {
    /// The token is empty.
    Empty,
    /// The token holds a character that is not a decimal digit, or is a lone sign.
    InvalidDigit,
    /// The number does not fit in `usize`.
    PosOverflow,
}

/// The failures of field parsing and of the search.
#[derive(Debug, Clone, Copy, PartialEq, Eq, Structural)]
pub enum ParseError {
    /// A term is malformed, or a value lies outside the bounds of its field.
    InvalidValue,
    /// A range is malformed, runs backwards, or ends beyond the field's maximum.
    InvalidRange,
    /// A token that had to be an integer is not one.
    ParseIntError(IntErrorKind),
    /// No matching time exists within the search horizon.
    HorizonExceeded,
}

impl IntErrorKind {
    /// The text that describes this kind of failure.
    pub open spec fn message(self) -> Seq<char> {
        match self {
            IntErrorKind::Empty => "cannot parse integer from empty string"@,
            IntErrorKind::InvalidDigit => "invalid digit found in string"@,
            IntErrorKind::PosOverflow => "number too large to fit in target type"@,
        }
    }

    /// Renders the failure as text.
    pub fn to_string(&self) -> (s: String)
        ensures
            s@ == self.message(),
    {
        match self {
            IntErrorKind::Empty => "cannot parse integer from empty string".to_owned(),
            IntErrorKind::InvalidDigit => "invalid digit found in string".to_owned(),
            IntErrorKind::PosOverflow => "number too large to fit in target type".to_owned(),
        }
    }
}

impl ParseError {
    /// The text that describes this error.
    pub open spec fn message(self) -> Seq<char> {
        match self {
            ParseError::InvalidValue => "invalid value"@,
            ParseError::InvalidRange => "invalid range"@,
            ParseError::ParseIntError(kind) => kind.message(),
            ParseError::HorizonExceeded => "no occurrence within the search horizon"@,
        }
    }

    /// Renders the error as text.
    pub fn to_string(&self) -> (s: String)
        ensures
            s@ == self.message(),
    {
        match self {
            ParseError::InvalidValue => "invalid value".to_owned(),
            ParseError::InvalidRange => "invalid range".to_owned(),
            ParseError::ParseIntError(kind) => kind.to_string(),
            ParseError::HorizonExceeded => "no occurrence within the search horizon".to_owned(),
        }
    }
}

} // verus!
