//! JSON: a parser of the format, a deserializer producing events, and a serializer.

pub mod errors;
pub mod parse;
pub mod number;
pub mod string;
pub mod jiter;
pub mod deserializer;
pub mod deserializer2;
pub mod serializer;
pub mod types;
pub mod roundtrip;
