//! Reading integers from text.

use std::num::IntErrorKind;
use vstd::prelude::*;

verus! {

/// Why a piece of text could not be read as an integer.
#[derive(Debug, Clone, Copy, PartialEq, Eq, Structural)]
pub enum NumberError {
    /// The text is empty.
    Empty,
    /// The text holds a character that cannot stand where it stands.
    InvalidDigit,
    /// The number is too large for the integer type.
    PosOverflow,
    /// The number is too small for the integer type.
    NegOverflow,
    /// The number is zero, which the integer type does not allow.
    Zero,
    /// A reason that this library has no name for.
    Unrecognized,
}

/// Whether `result` is the failure to read a number from no text at all.
pub open spec fn is_empty_failure(result: Result<i64, NumberError>) -> bool {
    result matches Err(error) && error == NumberError::Empty
}

/// What the standard library's parser for `i64` makes of `text`.
pub uninterp spec fn parsed_i64(text: Seq<char>) -> Result<i64, NumberError>;

/// Reads `text` as a decimal `i64` with `str::parse`. The result is what the
/// standard library's parser gives for these characters; of it this contract
/// claims only that the failure for no text at all, and for nothing else, is
/// `Empty`.
#[verifier::external_body]
pub(crate) fn parse_i64(text: &str) -> (result: Result<i64, NumberError>)
    ensures
        result == parsed_i64(text@),
        is_empty_failure(result) <==> text@.len() == 0,
{
    match text.parse::<i64>() {
        Ok(value) => Ok(value),
        Err(error) => Err(
            match error.kind() {
                IntErrorKind::Empty => NumberError::Empty,
                IntErrorKind::InvalidDigit => NumberError::InvalidDigit,
                IntErrorKind::PosOverflow => NumberError::PosOverflow,
                IntErrorKind::NegOverflow => NumberError::NegOverflow,
                IntErrorKind::Zero => NumberError::Zero,
                _ => NumberError::Unrecognized,
            },
        ),
    }
}

/// The words that explain `error` to the user.
pub open spec fn explanation(error: NumberError) -> Seq<char> {
    match error {
        NumberError::Empty => "is empty"@,
        NumberError::InvalidDigit => "is not a valid number"@,
        NumberError::PosOverflow => "is too large and overflowed"@,
        NumberError::NegOverflow => "is too small and overflowed"@,
        NumberError::Zero => "cannot be 0"@,
        NumberError::Unrecognized => "is not a valid number"@,
    }
}

/// The words that explain `error` to the user. No number is read from empty
/// text, so there is nothing to explain for it.
pub fn get_explanation_for(error: NumberError) -> (words: &'static str)
    requires
        error != NumberError::Empty,
    ensures
        words@ == explanation(error),
{
    match error {
        NumberError::Empty => "is empty",
        NumberError::InvalidDigit => "is not a valid number",
        NumberError::PosOverflow => "is too large and overflowed",
        NumberError::NegOverflow => "is too small and overflowed",
        NumberError::Zero => "cannot be 0",
        NumberError::Unrecognized => "is not a valid number",
    }
}

} // verus!
