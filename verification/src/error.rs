//! Errors, and the content-less kinds of values and events they report.

use std::str::Utf8Error;
use vstd::prelude::*;
use crate::cowstr::CowStr;

verus! {

#[verifier::external_type_specification]
#[verifier::external_body]
pub struct ExIoError(std::io::Error);

/// `std::io::Error::new(ErrorKind::UnexpectedEof, "eof")`. Nothing is stated
/// of the error it returns, its kind included: `io::Error` is opaque to the
/// verifier, and the library only carries it through.
#[verifier::external_body]
fn unexpected_eof_io_error() -> std::io::Error {
    std::io::Error::new(std::io::ErrorKind::UnexpectedEof, "eof")
}

/// A content-less variant of a value, used for reporting errors.
#[derive(Debug, Clone, Copy, PartialEq, Eq, Hash, Structural)]
pub enum ValueType {
    /// The value is `null`.
    Null,
    /// The value is `true` or `false`.
    Bool,
    /// The value fits in an `i64`.
    I64,
    /// The value fits in a `u64`.
    U64,
    /// The value has decimal places.
    Float,
    /// The value is a string.
    String,
    /// The value is a byte array.
    Bytes,
    /// The value is an array.
    Array,
    /// The value is a map (associating keys and values).
    Mapping,
}

/// A content-less variant of an event.
#[derive(Debug, Clone, Copy, PartialEq, Eq, Hash, Structural)]
pub enum EventType {
    I64,
    U64,
    Float,
    Str,
    Bytes,
    Bool,
    Null,
    MapStart,
    MapEnd,
    ArrayStart,
    ArrayEnd,
}

/// A grab-bag of errors that can occur when deserializing.
#[derive(Debug)]
pub enum MerdeError<'s> {
    /// We expected a certain type but got a different one.
    MismatchedType { expected: ValueType, found: ValueType },
    /// We expected an object to have a certain property, but it was missing.
    MissingProperty(CowStr<'s>),
    /// We tried to access an array index that was out of bounds.
    IndexOutOfBounds { index: usize, len: usize },
    /// We encountered a property that we didn't expect.
    UnknownProperty(CowStr<'s>),
    /// For example, we had a `u8` field but the value was bigger than `u8::MAX`.
    OutOfRange,
    /// A field was missing (but we don't know its name).
    MissingValue,
    /// A map key could not be converted to the key type.
    InvalidKey { key: CowStr<'s>, type_label: &'static str },
    /// While parsing a datetime, we got an error.
    InvalidDateTimeValue,
    /// The next event was not one of those expected.
    UnexpectedEvent { got: EventType, expected: Vec<EventType>, help: Option<String> },
    /// An I/O error occurred.
    Io(std::io::Error),
    /// Some bytes were not well-formed UTF-8.
    Utf8Error(Utf8Error),
    /// Error while parsing a string; the source and position are kept.
    StringParsingError {
        format: &'static str,
        source: CowStr<'s>,
        index: usize,
        message: String,
    },
    /// Error while parsing binary input.
    BinaryParsingError { format: &'static str, message: String },
    /// `put_back` was called twice without a `next` in between.
    PutBackCalledTwice,
}

impl<'s> MerdeError<'s> {
    /// The error for an input that ended too early.
    pub fn eof() -> (r: Self)
        ensures
            r is Io,
    {
        MerdeError::Io(unexpected_eof_io_error())
    }

    /// An `UnexpectedEvent` error with a single expected event type.
    pub fn unexpected(got: EventType, expected: EventType) -> (r: Self)
        ensures
            r matches MerdeError::UnexpectedEvent { got: g, expected: x, help: h }
                && g == got && x@ == seq![expected] && h is None,
    {
        let mut v: Vec<EventType> = Vec::new();
        v.push(expected);
        proof {
            assert(v@ =~= seq![expected]);
        }
        MerdeError::UnexpectedEvent { got, expected: v, help: None }
    }

    /// Turns the error into one that owns its strings.
    pub fn into_static(self) -> (r: MerdeError<'static>)
        ensures
            same_error(&self, &r),
    {
        match self {
            MerdeError::MismatchedType { expected, found } => MerdeError::MismatchedType {
                expected,
                found,
            },
            MerdeError::MissingProperty(p) => MerdeError::MissingProperty(p.into_static()),
            MerdeError::IndexOutOfBounds { index, len } => MerdeError::IndexOutOfBounds {
                index,
                len,
            },
            MerdeError::UnknownProperty(p) => MerdeError::UnknownProperty(p.into_static()),
            MerdeError::OutOfRange => MerdeError::OutOfRange,
            MerdeError::MissingValue => MerdeError::MissingValue,
            MerdeError::InvalidKey { key, type_label } => MerdeError::InvalidKey {
                key: key.into_static(),
                type_label,
            },
            MerdeError::InvalidDateTimeValue => MerdeError::InvalidDateTimeValue,
            MerdeError::UnexpectedEvent { got, expected, help } => MerdeError::UnexpectedEvent {
                got,
                expected,
                help,
            },
            MerdeError::Io(e) => MerdeError::Io(e),
            MerdeError::Utf8Error(e) => MerdeError::Utf8Error(e),
            MerdeError::StringParsingError { format, source, index, message } =>
                MerdeError::StringParsingError {
                format,
                source: source.into_static(),
                index,
                message,
            },
            MerdeError::BinaryParsingError { format, message } => MerdeError::BinaryParsingError {
                format,
                message,
            },
            MerdeError::PutBackCalledTwice => MerdeError::PutBackCalledTwice,
        }
    }
}

/// Two errors are the same error, up to the borrowing of their strings.
pub open spec fn same_error<'a, 'b>(a: &MerdeError<'a>, b: &MerdeError<'b>) -> bool {
    match (a, b) {
        (
            MerdeError::MismatchedType { expected: e1, found: f1 },
            MerdeError::MismatchedType { expected: e2, found: f2 },
        ) => e1 == e2 && f1 == f2,
        (MerdeError::MissingProperty(p1), MerdeError::MissingProperty(p2)) => p1@ == p2@,
        (
            MerdeError::IndexOutOfBounds { index: i1, len: l1 },
            MerdeError::IndexOutOfBounds { index: i2, len: l2 },
        ) => i1 == i2 && l1 == l2,
        (MerdeError::UnknownProperty(p1), MerdeError::UnknownProperty(p2)) => p1@ == p2@,
        (MerdeError::OutOfRange, MerdeError::OutOfRange) => true,
        (MerdeError::MissingValue, MerdeError::MissingValue) => true,
        (
            MerdeError::InvalidKey { key: k1, type_label: t1 },
            MerdeError::InvalidKey { key: k2, type_label: t2 },
        ) => k1@ == k2@ && t1 == t2,
        (MerdeError::InvalidDateTimeValue, MerdeError::InvalidDateTimeValue) => true,
        (
            MerdeError::UnexpectedEvent { got: g1, expected: x1, help: h1 },
            MerdeError::UnexpectedEvent { got: g2, expected: x2, help: h2 },
        ) => g1 == g2 && x1@ == x2@ && h1 == h2,
        (MerdeError::Io(e1), MerdeError::Io(e2)) => e1 == e2,
        (MerdeError::Utf8Error(e1), MerdeError::Utf8Error(e2)) => e1 == e2,
        (
            MerdeError::StringParsingError { format: f1, source: s1, index: i1, message: m1 },
            MerdeError::StringParsingError { format: f2, source: s2, index: i2, message: m2 },
        ) => f1 == f2 && s1@ == s2@ && i1 == i2 && m1 == m2,
        (
            MerdeError::BinaryParsingError { format: f1, message: m1 },
            MerdeError::BinaryParsingError { format: f2, message: m2 },
        ) => f1 == f2 && m1 == m2,
        (MerdeError::PutBackCalledTwice, MerdeError::PutBackCalledTwice) => true,
        _ => false,
    }
}

} // verus!
