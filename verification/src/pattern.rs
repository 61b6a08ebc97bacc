//! What a find command looks for: a run of bytes, or a piece of text.

use crate::number::{explanation, get_explanation_for, is_empty_failure, parse_i64, parsed_i64,
    NumberError};
use crate::text::{
    advice, advise, fails_advising, fails_naming, first_token, is_blank, lemma_advises,
    lemma_first_token, lemma_names, split_at_first_token, trim, trimmed,
};
use vstd::prelude::*;
use vstd::string::{StrSliceExecFns, StringExecFns};

verus! {

/// Whether `result` is the outcome `expected`: values compared by their
/// views, messages by their characters.
pub open spec fn reads_as<T: View>(result: Result<T, String>, expected: Result<T::V, Seq<char>>)
    -> bool {
    match expected {
        Ok(value) => result matches Ok(v) && v@ == value,
        Err(message) => result matches Err(m) && m@ == message,
    }
}

/// The byte that the token `raw`, which was read as `number`, stands for.
pub open spec fn byte_from_parts(raw: Seq<char>, number: Result<i64, NumberError>) -> Result<
    u8,
    Seq<char>,
> {
    match number {
        Err(error) => Err(
            "Invalid byte: '"@ + raw + "' "@ + explanation(error) + "."@ + advice(
                "help find bytes"@,
                "an explanation."@,
            ),
        ),
        Ok(value) => if 0 <= value <= 255 {
            Ok(value as u8)
        } else {
            Err(
                "Invalid byte: '"@ + raw + "' is not between 0 and 255."@ + advice(
                    "help find bytes"@,
                    "an explanation."@,
                ),
            )
        },
    }
}

/// The bytes that the tokens of `text` stand for, each a decimal number from
/// 0 to 255.
pub open spec fn bytes_of(text: Seq<char>) -> Result<Seq<u8>, Seq<char>>
    decreases text.len(),
    via bytes_of_decreases
{
    match first_token(text) {
        None => Ok(Seq::empty()),
        Some((raw, remainder)) => match byte_from_parts(raw, parsed_i64(raw)) {
            Err(message) => Err(message),
            Ok(byte) => match bytes_of(remainder) {
                Err(message) => Err(message),
                Ok(more) => Ok(seq![byte] + more),
            },
        },
    }
}

#[via_fn]
proof fn bytes_of_decreases(text: Seq<char>) {
    lemma_first_token(text);
}

/// The byte pattern that `text` stands for: at least one byte.
pub open spec fn byte_pattern_of(text: Seq<char>) -> Result<Seq<u8>, Seq<char>> {
    match bytes_of(text) {
        Err(message) => Err(message),
        Ok(bytes) => if bytes.len() == 0 {
            Err("Missing bytes to find."@ + advice("help find bytes"@, "an example."@))
        } else {
            Ok(bytes)
        },
    }
}

/// The text pattern that `text` stands for: what is left of it without the
/// whitespace around it, which must be something.
pub open spec fn string_pattern_of(text: Seq<char>) -> Result<Seq<char>, Seq<char>> {
    if is_blank(text) {
        Err("Missing text to find."@ + advice("help find string"@, "an example."@))
    } else {
        Ok(trim(text))
    }
}

/// Every complaint about a byte pattern names the token at fault, if there
/// is one, and advises a help command.
pub proof fn lemma_byte_complaints(text: Seq<char>)
    ensures
        fails_advising(bytes_of(text)),
        fails_advising(byte_pattern_of(text)),
        forall|raw: Seq<char>, number: Result<i64, NumberError>|
            fails_advising(#[trigger] byte_from_parts(raw, number)) && fails_naming(
                byte_from_parts(raw, number),
                raw,
            ),
    decreases text.len(),
{
    assert forall|raw: Seq<char>, number: Result<i64, NumberError>|
        fails_advising(#[trigger] byte_from_parts(raw, number)) && fails_naming(
            byte_from_parts(raw, number),
            raw,
        ) by {
        match number {
            Err(error) => {
                let after = "' "@ + explanation(error) + "."@ + advice(
                    "help find bytes"@,
                    "an explanation."@,
                );
                lemma_advises(
                    "Invalid byte: '"@ + raw + "' "@ + explanation(error) + "."@,
                    "help find bytes"@,
                    "an explanation."@,
                );
                lemma_names("Invalid byte: '"@, raw, after);
                assert(byte_from_parts(raw, number)->Err_0 =~= "Invalid byte: '"@ + raw + after);
            },
            Ok(value) => {
                let after = "' is not between 0 and 255."@ + advice(
                    "help find bytes"@,
                    "an explanation."@,
                );
                lemma_advises(
                    "Invalid byte: '"@ + raw + "' is not between 0 and 255."@,
                    "help find bytes"@,
                    "an explanation."@,
                );
                lemma_names("Invalid byte: '"@, raw, after);
                if !(0 <= value <= 255) {
                    assert(byte_from_parts(raw, number)->Err_0 =~= "Invalid byte: '"@ + raw
                        + after);
                }
            },
        }
    }
    lemma_advises("Missing bytes to find."@, "help find bytes"@, "an example."@);
    lemma_first_token(text);
    match first_token(text) {
        None => {},
        Some((raw, remainder)) => {
            lemma_byte_complaints(remainder);
        },
    }
}

/// The complaint about a missing text pattern advises a help command.
pub proof fn lemma_string_complaints(text: Seq<char>)
    ensures
        fails_advising(string_pattern_of(text)),
{
    lemma_advises("Missing text to find."@, "help find string"@, "an example."@);
}

/// The byte that the token `raw`, which was read as `number`, stands for.
pub fn byte_from_token(raw: &str, number: Result<i64, NumberError>) -> (result: Result<u8, String>)
    requires
        !is_empty_failure(number),
    ensures
        match byte_from_parts(raw@, number) {
            Ok(byte) => result matches Ok(b) && b == byte,
            Err(message) => result matches Err(m) && m@ == message,
        },
{
    match number {
        Err(error) => Err(
            advise(
                String::from_str("Invalid byte: '").concat(raw).concat("' ").concat(
                    get_explanation_for(error),
                ).concat("."),
                "help find bytes",
                "an explanation.",
            ),
        ),
        Ok(value) => if 0 <= value && value <= 255 {
            Ok(value as u8)
        } else {
            Err(
                advise(
                    String::from_str("Invalid byte: '").concat(raw).concat(
                        "' is not between 0 and 255.",
                    ),
                    "help find bytes",
                    "an explanation.",
                ),
            )
        },
    }
}

/// A run of bytes to look for.
#[derive(Debug, Clone, PartialEq, Eq)]
pub struct BytePattern {
    bytes: Vec<u8>,
}

impl View for BytePattern {
    type V = Seq<u8>;

    closed spec fn view(&self) -> Seq<u8> {
        self.bytes@
    }
}

impl BytePattern {
    /// The pattern of the bytes `bytes`.
    pub fn new(bytes: Vec<u8>) -> (pattern: BytePattern)
        ensures
            pattern@ == bytes@,
    {
        BytePattern { bytes }
    }

    /// The bytes to look for.
    pub fn bytes(&self) -> (bytes: &Vec<u8>)
        ensures
            bytes@ == self@,
    {
        &self.bytes
    }

    /// Reads a byte pattern: decimal numbers from 0 to 255, separated by
    /// whitespace.
    pub fn parse(text: &str) -> (result: Result<BytePattern, String>)
        ensures
            reads_as(result, byte_pattern_of(text@)),
    {
        let mut bytes: Vec<u8> = Vec::new();
        let mut rest = text;
        let ghost mut budget = text@.len();
        assert(Seq::<u8>::empty() + bytes@ =~= bytes@);
        loop
            invariant_except_break
                rest@.len() <= budget,
                bytes_of(text@) == match bytes_of(rest@) {
                    Ok(more) => Ok::<Seq<u8>, Seq<char>>(bytes@ + more),
                    Err(message) => Err(message),
                },
            ensures
                bytes_of(text@) == Ok::<Seq<u8>, Seq<char>>(bytes@),
            decreases budget,
        {
            proof {
                lemma_first_token(rest@);
            }
            let (raw, remainder) = match split_at_first_token(rest) {
                Some(parts) => parts,
                None => {
                    assert(bytes@ + Seq::<u8>::empty() =~= bytes@);
                    break ;
                },
            };
            let number = parse_i64(raw);
            let byte = match byte_from_token(raw, number) {
                Ok(byte) => byte,
                Err(message) => {
                    return Err(message);
                },
            };
            proof {
                if let Ok(more) = bytes_of(remainder@) {
                    assert(bytes@ + (seq![byte] + more) =~= bytes@.push(byte) + more);
                }
                budget = remainder@.len();
            }
            bytes.push(byte);
            rest = remainder;
        }
        if bytes.len() == 0 {
            Err(advise(String::from_str("Missing bytes to find."), "help find bytes", "an example."))
        } else {
            Ok(BytePattern { bytes })
        }
    }
}

/// A piece of text to look for.
#[derive(Debug, Clone, PartialEq, Eq)]
pub struct StringPattern {
    text: String,
}

impl View for StringPattern {
    type V = Seq<char>;

    closed spec fn view(&self) -> Seq<char> {
        self.text@
    }
}

impl StringPattern {
    /// The text to look for.
    pub fn text(&self) -> (text: &str)
        ensures
            text@ == self@,
    {
        self.text.as_str()
    }

    /// Reads a text pattern: the text without the whitespace around it.
    pub fn parse(text: &str) -> (result: Result<StringPattern, String>)
        ensures
            reads_as(result, string_pattern_of(text@)),
    {
        let inner = trimmed(text);
        if inner.unicode_len() == 0 {
            Err(
                advise(String::from_str("Missing text to find."), "help find string", "an example."),
            )
        } else {
            Ok(StringPattern { text: String::from_str(inner) })
        }
    }
}

} // verus!
