//! The kinds of JSON values, the errors of deserializing JSON into types, and
//! deserializing from a value that is already parsed.

use vstd::prelude::*;
use vstd::std_specs::convert::FromSpecImpl;
use crate::cowstr::CowStr;
use crate::json::errors::JsonError;
use crate::value::{Value, ValueModel};

verus! {

/// A content-less variant of a JSON value, used for reporting errors.
#[derive(Debug, Clone, Copy, PartialEq, Eq, Hash, Structural)]
pub enum JsonFieldType {
    /// The JSON value is `null`.
    Null,
    /// The JSON value is `true` or `false`.
    Bool,
    /// The JSON value fits in an `i64`.
    Int,
    /// The JSON value has decimal places.
    Float,
    /// The JSON value is a string.
    String,
    /// The JSON value is an array.
    Array,
    /// The JSON value is an object. Keys must be strings.
    Object,
}

/// The JSON kind of a value; byte strings have none.
pub open spec fn json_kind(v: ValueModel) -> Option<JsonFieldType> {
    match v {
        ValueModel::Null => Some(JsonFieldType::Null),
        ValueModel::Bool(_) => Some(JsonFieldType::Bool),
        ValueModel::I64(_) | ValueModel::U64(_) => Some(JsonFieldType::Int),
        ValueModel::Float(_) => Some(JsonFieldType::Float),
        ValueModel::Str(_) => Some(JsonFieldType::String),
        ValueModel::Bytes(_) => None,
        ValueModel::Array(_) => Some(JsonFieldType::Array),
        ValueModel::Mapping(_) => Some(JsonFieldType::Object),
    }
}

impl JsonFieldType {
    /// The kind of a JSON value; a byte string is not one.
    pub fn for_json_value(value: &Value) -> (r: Option<JsonFieldType>)
        ensures
            r == json_kind(value@),
    {
        proof {
            crate::value::lemma_value_model(value);
        }
        match value {
            Value::Null => Some(JsonFieldType::Null),
            Value::Bool(_) => Some(JsonFieldType::Bool),
            Value::I64(_) => Some(JsonFieldType::Int),
            Value::U64(_) => Some(JsonFieldType::Int),
            Value::Float(_) => Some(JsonFieldType::Float),
            Value::Str(_) => Some(JsonFieldType::String),
            Value::Bytes(_) => None,
            Value::Array(_) => Some(JsonFieldType::Array),
            Value::Mapping(_) => Some(JsonFieldType::Object),
        }
    }
}

/// A grab-bag of errors that can occur when deserializing JSON.
#[derive(Debug)]
pub enum MerdeJsonError {
    /// We expected a certain type but got a different one.
    MismatchedType { expected: JsonFieldType, found: JsonFieldType },
    /// We expected an object to have a certain property, but it was missing.
    MissingProperty(CowStr<'static>),
    /// We tried to access an array index that was out of bounds.
    IndexOutOfBounds { index: usize, len: usize },
    /// We encountered a property that we didn't expect.
    UnknownProperty(String),
    /// We encountered an error in the underlying JSON parser.
    JsonError(JsonError),
    /// For example, we had a `u8` field but the JSON value was bigger than `u8::MAX`.
    OutOfRange,
    /// A field was missing (but we don't know its name).
    MissingValue,
    /// A map key could not be converted to the key type.
    InvalidKey,
    /// While parsing a datetime, we got an error.
    InvalidDateTimeValue,
    /// An I/O error occurred.
    Io(std::io::Error),
}

impl From<JsonError> for MerdeJsonError {
    fn from(e: JsonError) -> (r: Self) {
        MerdeJsonError::JsonError(e)
    }
}

impl FromSpecImpl<JsonError> for MerdeJsonError {
    open spec fn obeys_from_spec() -> bool {
        true
    }

    open spec fn from_spec(e: JsonError) -> Self {
        MerdeJsonError::JsonError(e)
    }
}

impl From<std::io::Error> for MerdeJsonError {
    fn from(e: std::io::Error) -> (r: Self) {
        MerdeJsonError::Io(e)
    }
}

impl FromSpecImpl<std::io::Error> for MerdeJsonError {
    open spec fn obeys_from_spec() -> bool {
        true
    }

    open spec fn from_spec(e: std::io::Error) -> Self {
        MerdeJsonError::Io(e)
    }
}

/// A JSON value that is only ever a string.
#[derive(Debug)]
pub enum JsonValue2<'src> {
    Str(CowStr<'src>),
}

/// Deserializing a type from a JSON value that may be missing.
pub trait JsonDeserialize2<'src>: Sized {
    /// Whether `r` is what deserializing `value` gives.
    spec fn deserializes_from2(value: Option<&JsonValue2<'src>>, r: Result<Self, MerdeJsonError>) -> bool;

    /// The value of the type that `value` stands for.
    fn json_deserialize(value: Option<&JsonValue2<'src>>) -> (r: Result<Self, MerdeJsonError>)
        ensures
            Self::deserializes_from2(value, r),
    ;
}

/// A string from a JSON value that may be missing: a missing value is an
/// error, a string is copied.
pub fn str_from_json_value2<'src>(value: Option<&JsonValue2<'src>>) -> (r: Result<CowStr<'src>, MerdeJsonError>)
    ensures
        value is None ==> (r matches Err(MerdeJsonError::MissingValue)),
        value matches Some(JsonValue2::Str(s)) ==> (r matches Ok(t) && t@ == s@),
{
    match value {
        None => Err(MerdeJsonError::MissingValue),
        Some(JsonValue2::Str(s)) => Ok(s.duplicate()),
    }
}

impl<'src> JsonDeserialize2<'src> for CowStr<'src> {
    /// A missing value is an error, a string is copied.
    open spec fn deserializes_from2(value: Option<&JsonValue2<'src>>, r: Result<Self, MerdeJsonError>) -> bool {
        &&& value is None ==> (r matches Err(MerdeJsonError::MissingValue))
        &&& (value matches Some(JsonValue2::Str(s)) ==> (r matches Ok(t) && t@ == s@))
    }

    fn json_deserialize(value: Option<&JsonValue2<'src>>) -> Result<Self, MerdeJsonError> {
        str_from_json_value2(value)
    }
}

/// Deserializing a type from a parsed value that may be missing.
pub trait JsonDeserialize3<'src>: Sized {
    /// Whether `r` is what deserializing `value` gives.
    spec fn deserializes_from3(value: Option<&Value<'src>>, r: Result<Self, MerdeJsonError>) -> bool;

    /// The value of the type that `value` stands for.
    fn json_deserialize(value: Option<&Value<'src>>) -> (r: Result<Self, MerdeJsonError>)
        ensures
            Self::deserializes_from3(value, r),
    ;
}

/// A string from a parsed value that may be missing: a missing value is an
/// error, a string is copied, and any other value is reported as a mismatch
/// with `Null` as the type found.
pub fn str_from_json_value3<'src>(value: Option<&Value<'src>>) -> (r: Result<CowStr<'src>, MerdeJsonError>)
    ensures
        value is None ==> (r matches Err(MerdeJsonError::MissingValue)),
        value matches Some(Value::Str(s)) ==> (r matches Ok(t) && t@ == s@),
        value matches Some(v) && !(v is Str) ==> (r matches Err(MerdeJsonError::MismatchedType { expected, found })
            && expected == JsonFieldType::String && found == JsonFieldType::Null),
{
    match value {
        None => Err(MerdeJsonError::MissingValue),
        Some(Value::Str(s)) => Ok(s.duplicate()),
        Some(_) => Err(MerdeJsonError::MismatchedType { expected: JsonFieldType::String, found: JsonFieldType::Null }),
    }
}

impl<'src> JsonDeserialize3<'src> for CowStr<'src> {
    /// A missing value is an error, a string is copied, and any other value
    /// is a mismatch with `Null` as the type found.
    open spec fn deserializes_from3(value: Option<&Value<'src>>, r: Result<Self, MerdeJsonError>) -> bool {
        &&& value is None ==> (r matches Err(MerdeJsonError::MissingValue))
        &&& (value matches Some(Value::Str(s)) ==> (r matches Ok(t) && t@ == s@))
        &&& (value matches Some(v) && !(v is Str) ==> (r matches Err(MerdeJsonError::MismatchedType { expected, found })
            && expected == JsonFieldType::String && found == JsonFieldType::Null))
    }

    fn json_deserialize(value: Option<&Value<'src>>) -> Result<Self, MerdeJsonError> {
        str_from_json_value3(value)
    }
}

} // verus!
