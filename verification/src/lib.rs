//! A serialization framework with a JSON and a MessagePack format.

pub mod cowstr;

pub use cowstr::CowStr;
pub mod cowbytes;

pub use cowbytes::CowBytes;
pub mod error;

pub use error::{EventType, MerdeError, ValueType};
pub mod event;

pub use event::{ArrayStart, Event, MapStart};
pub mod msgpack;
pub mod value;
pub use value::{Array, Mapping, Value};
pub mod builder;
pub mod containers;
pub mod deserialize;
pub use deserialize::{DefaultDeserOpinions, DeserOpinions, FieldSlot};
pub mod lifetimes;
pub use lifetimes::{Fantome, IntoStatic, WithLifetime};
pub mod metastack;
pub use metastack::StackInfo;
pub mod time;
pub mod message;
pub mod scalars;
pub use time::Rfc3339;
pub mod json;
