//! Errors of the JSON parser.

use vstd::prelude::*;

verus! {

/// What went wrong while parsing JSON.
#[derive(Debug, Clone, Copy, PartialEq, Eq, Structural)]
pub enum JsonErrorType {
    EofWhileParsingList,
    EofWhileParsingObject,
    EofWhileParsingString,
    EofWhileParsingValue,
    ExpectedColon,
    ExpectedListCommaOrEnd,
    ExpectedObjectCommaOrEnd,
    ExpectedSomeIdent,
    ExpectedSomeValue,
    InvalidEscape,
    InvalidNumber,
    NumberOutOfRange,
    InvalidUnicodeCodePoint,
    ControlCharacterWhileParsingString,
    KeyMustBeAString,
    LoneLeadingSurrogateInHexEscape,
    TrailingComma,
    TrailingCharacters,
    UnexpectedEndOfHexEscape,
    FloatExpectingInt,
}

/// A JSON syntax error and the byte index where it was found.
#[derive(Debug, Clone, Copy, PartialEq, Eq, Structural)]
pub struct JsonError {
    pub error_type: JsonErrorType,
    pub index: usize,
}

/// The kinds of JSON values, as reported by type errors.
#[derive(Debug, Clone, Copy, PartialEq, Eq, Structural)]
pub enum JsonType {
    Null,
    Bool,
    Int,
    Float,
    String,
    Array,
    Object,
}

/// What went wrong while iterating over JSON.
#[derive(Debug, Clone, Copy, PartialEq, Eq, Structural)]
pub enum JiterErrorType {
    /// The input is not well-formed JSON.
    JsonError(JsonErrorType),
    /// A value of one type was expected and another was found.
    WrongType { expected: JsonType, actual: JsonType },
}

/// An error of the JSON iterator and the byte index where it was found.
#[derive(Debug, Clone, Copy, PartialEq, Eq, Structural)]
pub struct JiterError {
    pub error_type: JiterErrorType,
    pub index: usize,
}

/// A syntax error at `index`.
pub fn json_error(error_type: JsonErrorType, index: usize) -> (r: JsonError)
    ensures
        r == (JsonError { error_type, index }),
{
    JsonError { error_type, index }
}

impl JiterError {
    /// A type error at `index`.
    pub fn wrong_type(expected: JsonType, actual: JsonType, index: usize) -> (r: JiterError)
        ensures
            r == (JiterError { error_type: JiterErrorType::WrongType { expected, actual }, index }),
    {
        JiterError { error_type: JiterErrorType::WrongType { expected, actual }, index }
    }

    /// The iterator error for a syntax error.
    pub fn from_json_error(e: JsonError) -> (r: JiterError)
        ensures
            r == (JiterError { error_type: JiterErrorType::JsonError(e.error_type), index: e.index }),
    {
        JiterError { error_type: JiterErrorType::JsonError(e.error_type), index: e.index }
    }
}

} // verus!
