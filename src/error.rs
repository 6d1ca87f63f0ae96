use vstd::prelude::*;
use crate::number::Decimal;

verus! {

/// Why a piece of duration text could not be read.
#[derive(Clone, Debug, PartialEq, Eq)]
pub enum Error {
    /// A number that is not a number.
    NaN,
    /// A character outside `[A-Za-z0-9.:]`.
    InvalidCharacter(char),
    /// A run of digits and dots that is no number, or a fraction where a
    /// whole number is needed.
    InvalidNumber(String),
    /// A word that names neither a unit nor a half of the day.
    InvalidUnit(String),
    /// A trailing number after milliseconds, which have no smaller unit.
    SmallerThanMilli(Decimal),
    /// Parts of different formats mixed together.
    ClashingFormats,
    /// More than two `:` in a time of day.
    TooManySeparators,
    /// Nothing usable.
    Empty,
    /// Parts in an order that no format allows.
    Unknown,
    /// A parenthesis without its partner.
    UnbalancedParens,
    /// An operator where a value belongs.
    InvalidOp(String),
    /// A value where an operator belongs.
    InvalidValue(String),
    /// Two sequences of durations multiplied together.
    MulDurations,
    /// A value too large for a duration.
    Overflow,
}

/// What an [`Error`] says, with its text as characters.
pub enum Failure {
    NaN,
    InvalidCharacter(char),
    InvalidNumber(Seq<char>),
    InvalidUnit(Seq<char>),
    SmallerThanMilli(Decimal),
    ClashingFormats,
    TooManySeparators,
    Empty,
    Unknown,
    UnbalancedParens,
    InvalidOp(Seq<char>),
    InvalidValue(Seq<char>),
    MulDurations,
    Overflow,
}

impl View for Error {
    type V = Failure;

    open spec fn view(&self) -> Failure {
        match self {
            Error::NaN => Failure::NaN,
            Error::InvalidCharacter(c) => Failure::InvalidCharacter(*c),
            Error::InvalidNumber(s) => Failure::InvalidNumber(s@),
            Error::InvalidUnit(s) => Failure::InvalidUnit(s@),
            Error::SmallerThanMilli(d) => Failure::SmallerThanMilli(*d),
            Error::ClashingFormats => Failure::ClashingFormats,
            Error::TooManySeparators => Failure::TooManySeparators,
            Error::Empty => Failure::Empty,
            Error::Unknown => Failure::Unknown,
            Error::UnbalancedParens => Failure::UnbalancedParens,
            Error::InvalidOp(s) => Failure::InvalidOp(s@),
            Error::InvalidValue(s) => Failure::InvalidValue(s@),
            Error::MulDurations => Failure::MulDurations,
            Error::Overflow => Failure::Overflow,
        }
    }
}

} // verus!
