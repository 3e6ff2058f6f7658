//! Parse errors: which part of the input was rejected.

use vstd::prelude::*;

verus! {

/// Why a string failed to parse. `Format` covers an unrecognized
/// discriminator or wrong token arity; the component errors name the
/// numeric field that failed; `InvalidDate` a syntactically well-formed
/// triple that is not a real calendar date; `NoMonth` a day given without
/// a month; `Timestamp` an unparsable timestamp.
#[derive(Clone, Copy, PartialEq, Eq, Structural, Debug)]
pub enum ParseError {
    Format,
    Year,
    Month,
    Day,
    Week,
    InvalidDate,
    NoMonth,
    Timestamp,
}

impl ParseError {
    /// A short description, in the spirit of the error context strings.
    pub fn message(&self) -> (r: &'static str)
    {
        match self {
            ParseError::Format => "invalid type, expected one of (y, ym, ymd, yw)",
            ParseError::Year => "Year Invalid",
            ParseError::Month => "Month Invalid",
            ParseError::Day => "Day Invalid",
            ParseError::Week => "Week Invalid",
            ParseError::InvalidDate => "invalid date",
            ParseError::NoMonth => "no month",
            ParseError::Timestamp => "Timestamp Invalid",
        }
    }
}

} // verus!
