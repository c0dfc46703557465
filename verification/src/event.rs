//! Events: the tokens that deserializers produce and serializers consume.

use vstd::prelude::*;
use vstd::std_specs::convert::FromSpecImpl;
use crate::cowbytes::CowBytes;
use crate::cowstr::CowStr;
use crate::error::{EventType, MerdeError};

verus! {

/// The start of an array, with the number of items when the format knows it.
#[derive(Debug, Clone, Copy, PartialEq, Eq)]
pub struct ArrayStart {
    pub size_hint: Option<usize>,
}

/// The start of a map, with the number of entries when the format knows it.
#[derive(Debug, Clone, Copy, PartialEq, Eq)]
pub struct MapStart {
    pub size_hint: Option<usize>,
}

/// One token of a document.
///
/// A floating-point number is carried by its IEEE-754 binary64 bit pattern.
#[derive(Debug, PartialEq)]
pub enum Event<'s> {
    I64(i64),
    U64(u64),
    F64(u64),
    Str(CowStr<'s>),
    Bytes(CowBytes<'s>),
    Bool(bool),
    Null,
    MapStart(MapStart),
    MapEnd,
    ArrayStart(ArrayStart),
    ArrayEnd,
}

/// What an event says, with its strings and bytes as plain sequences.
pub ghost enum EventModel {
    I64(i64),
    U64(u64),
    F64(u64),
    Str(Seq<char>),
    Bytes(Seq<u8>),
    Bool(bool),
    Null,
    MapStart(Option<usize>),
    MapEnd,
    ArrayStart(Option<usize>),
    ArrayEnd,
}

impl<'s> View for Event<'s> {
    type V = EventModel;

    open spec fn view(&self) -> EventModel {
        match self {
            Event::I64(x) => EventModel::I64(*x),
            Event::U64(x) => EventModel::U64(*x),
            Event::F64(x) => EventModel::F64(*x),
            Event::Str(s) => EventModel::Str(s@),
            Event::Bytes(b) => EventModel::Bytes(b@),
            Event::Bool(b) => EventModel::Bool(*b),
            Event::Null => EventModel::Null,
            Event::MapStart(m) => EventModel::MapStart(m.size_hint),
            Event::MapEnd => EventModel::MapEnd,
            Event::ArrayStart(a) => EventModel::ArrayStart(a.size_hint),
            Event::ArrayEnd => EventModel::ArrayEnd,
        }
    }
}

/// The kind of an event.
pub open spec fn event_type_of(ev: &Event) -> EventType {
    match ev {
        Event::I64(_) => EventType::I64,
        Event::U64(_) => EventType::U64,
        Event::F64(_) => EventType::Float,
        Event::Str(_) => EventType::Str,
        Event::Bytes(_) => EventType::Bytes,
        Event::Bool(_) => EventType::Bool,
        Event::Null => EventType::Null,
        Event::MapStart(_) => EventType::MapStart,
        Event::MapEnd => EventType::MapEnd,
        Event::ArrayStart(_) => EventType::ArrayStart,
        Event::ArrayEnd => EventType::ArrayEnd,
    }
}

/// The error returned when an event of kind `expected` was wanted and `ev` came.
pub open spec fn is_unexpected_error(err: MerdeError, ev: &Event, expected: EventType) -> bool {
    err matches MerdeError::UnexpectedEvent { got, expected: x, help }
        && got == event_type_of(ev) && x@ == seq![expected] && help is None
}

impl<'s> Event<'s> {
    /// The kind of this event.
    pub fn event_type(&self) -> (r: EventType)
        ensures
            r == event_type_of(self),
    {
        match self {
            Event::I64(_) => EventType::I64,
            Event::U64(_) => EventType::U64,
            Event::F64(_) => EventType::Float,
            Event::Str(_) => EventType::Str,
            Event::Bytes(_) => EventType::Bytes,
            Event::Bool(_) => EventType::Bool,
            Event::Null => EventType::Null,
            Event::MapStart(_) => EventType::MapStart,
            Event::MapEnd => EventType::MapEnd,
            Event::ArrayStart(_) => EventType::ArrayStart,
            Event::ArrayEnd => EventType::ArrayEnd,
        }
    }

    /// The integer of an `I64` event.
    pub fn into_i64(self) -> (r: Result<i64, MerdeError<'static>>)
        ensures
            self matches Event::I64(i) ==> r == Ok::<i64, MerdeError<'static>>(i),
            !(self is I64) ==> r is Err && is_unexpected_error(r->Err_0, &self, EventType::I64),
    {
        match self {
            Event::I64(i) => Ok(i),
            _ => Err(MerdeError::unexpected(self.event_type(), EventType::I64)),
        }
    }

    /// The integer of a `U64` event.
    pub fn into_u64(self) -> (r: Result<u64, MerdeError<'static>>)
        ensures
            self matches Event::U64(u) ==> r == Ok::<u64, MerdeError<'static>>(u),
            !(self is U64) ==> r is Err && is_unexpected_error(r->Err_0, &self, EventType::U64),
    {
        match self {
            Event::U64(u) => Ok(u),
            _ => Err(MerdeError::unexpected(self.event_type(), EventType::U64)),
        }
    }

    /// The bit pattern of an `F64` event.
    pub fn into_f64(self) -> (r: Result<u64, MerdeError<'static>>)
        ensures
            self matches Event::F64(f) ==> r == Ok::<u64, MerdeError<'static>>(f),
            !(self is F64) ==> r is Err && is_unexpected_error(r->Err_0, &self, EventType::Float),
    {
        match self {
            Event::F64(f) => Ok(f),
            _ => Err(MerdeError::unexpected(self.event_type(), EventType::Float)),
        }
    }

    /// The string of a `Str` event.
    pub fn into_str(self) -> (r: Result<CowStr<'s>, MerdeError<'static>>)
        ensures
            self matches Event::Str(s) ==> r == Ok::<CowStr<'s>, MerdeError<'static>>(s),
            !(self is Str) ==> r is Err && is_unexpected_error(r->Err_0, &self, EventType::Str),
    {
        match self {
            Event::Str(s) => Ok(s),
            _ => Err(MerdeError::unexpected(self.event_type(), EventType::Str)),
        }
    }

    /// The bytes of a `Bytes` event.
    pub fn into_bytes(self) -> (r: Result<CowBytes<'s>, MerdeError<'static>>)
        ensures
            self matches Event::Bytes(b) ==> r == Ok::<CowBytes<'s>, MerdeError<'static>>(b),
            !(self is Bytes) ==> r is Err && is_unexpected_error(r->Err_0, &self, EventType::Bytes),
    {
        match self {
            Event::Bytes(b) => Ok(b),
            _ => Err(MerdeError::unexpected(self.event_type(), EventType::Bytes)),
        }
    }

    /// The boolean of a `Bool` event.
    pub fn into_bool(self) -> (r: Result<bool, MerdeError<'static>>)
        ensures
            self matches Event::Bool(b) ==> r == Ok::<bool, MerdeError<'static>>(b),
            !(self is Bool) ==> r is Err && is_unexpected_error(r->Err_0, &self, EventType::Bool),
    {
        match self {
            Event::Bool(b) => Ok(b),
            _ => Err(MerdeError::unexpected(self.event_type(), EventType::Bool)),
        }
    }

    /// Succeeds on a `Null` event.
    pub fn into_null(self) -> (r: Result<(), MerdeError<'static>>)
        ensures
            self is Null ==> r is Ok,
            !(self is Null) ==> r is Err && is_unexpected_error(r->Err_0, &self, EventType::Null),
    {
        match self {
            Event::Null => Ok(()),
            _ => Err(MerdeError::unexpected(self.event_type(), EventType::Null)),
        }
    }

    /// The payload of a `MapStart` event.
    pub fn into_map_start(self) -> (r: Result<MapStart, MerdeError<'static>>)
        ensures
            self matches Event::MapStart(m) ==> r == Ok::<MapStart, MerdeError<'static>>(m),
            !(self is MapStart) ==> r is Err && is_unexpected_error(
                r->Err_0,
                &self,
                EventType::MapStart,
            ),
    {
        match self {
            Event::MapStart(m) => Ok(m),
            _ => Err(MerdeError::unexpected(self.event_type(), EventType::MapStart)),
        }
    }

    /// Succeeds on a `MapEnd` event.
    pub fn into_map_end(self) -> (r: Result<(), MerdeError<'static>>)
        ensures
            self is MapEnd ==> r is Ok,
            !(self is MapEnd) ==> r is Err && is_unexpected_error(r->Err_0, &self, EventType::MapEnd),
    {
        match self {
            Event::MapEnd => Ok(()),
            _ => Err(MerdeError::unexpected(self.event_type(), EventType::MapEnd)),
        }
    }

    /// The payload of an `ArrayStart` event.
    pub fn into_array_start(self) -> (r: Result<ArrayStart, MerdeError<'static>>)
        ensures
            self matches Event::ArrayStart(a) ==> r == Ok::<ArrayStart, MerdeError<'static>>(a),
            !(self is ArrayStart) ==> r is Err && is_unexpected_error(
                r->Err_0,
                &self,
                EventType::ArrayStart,
            ),
    {
        match self {
            Event::ArrayStart(a) => Ok(a),
            _ => Err(MerdeError::unexpected(self.event_type(), EventType::ArrayStart)),
        }
    }

    /// Succeeds on an `ArrayEnd` event.
    pub fn into_array_end(self) -> (r: Result<(), MerdeError<'static>>)
        ensures
            self is ArrayEnd ==> r is Ok,
            !(self is ArrayEnd) ==> r is Err && is_unexpected_error(
                r->Err_0,
                &self,
                EventType::ArrayEnd,
            ),
    {
        match self {
            Event::ArrayEnd => Ok(()),
            _ => Err(MerdeError::unexpected(self.event_type(), EventType::ArrayEnd)),
        }
    }

    /// Turns the event into one that owns its contents.
    pub fn into_static(self) -> (r: Event<'static>)
        ensures
            r@ == self@,
    {
        match self {
            Event::I64(v) => Event::I64(v),
            Event::U64(v) => Event::U64(v),
            Event::F64(v) => Event::F64(v),
            Event::Str(v) => Event::Str(v.into_static()),
            Event::Bytes(v) => Event::Bytes(v.into_static()),
            Event::Bool(v) => Event::Bool(v),
            Event::Null => Event::Null,
            Event::MapStart(v) => Event::MapStart(v),
            Event::MapEnd => Event::MapEnd,
            Event::ArrayStart(v) => Event::ArrayStart(v),
            Event::ArrayEnd => Event::ArrayEnd,
        }
    }
}

} // verus!

verus! {

impl<'s> From<i8> for Event<'s> {
    fn from(v: i8) -> (r: Self) {
        Event::I64(v as i64)
    }
}

impl<'s> FromSpecImpl<i8> for Event<'s> {
    open spec fn obeys_from_spec() -> bool {
        true
    }

    open spec fn from_spec(v: i8) -> Self {
        Event::I64(v as i64)
    }
}

impl<'s> From<i16> for Event<'s> {
    fn from(v: i16) -> (r: Self) {
        Event::I64(v as i64)
    }
}

impl<'s> FromSpecImpl<i16> for Event<'s> {
    open spec fn obeys_from_spec() -> bool {
        true
    }

    open spec fn from_spec(v: i16) -> Self {
        Event::I64(v as i64)
    }
}

impl<'s> From<i32> for Event<'s> {
    fn from(v: i32) -> (r: Self) {
        Event::I64(v as i64)
    }
}

impl<'s> FromSpecImpl<i32> for Event<'s> {
    open spec fn obeys_from_spec() -> bool {
        true
    }

    open spec fn from_spec(v: i32) -> Self {
        Event::I64(v as i64)
    }
}

impl<'s> From<isize> for Event<'s> {
    fn from(v: isize) -> (r: Self) {
        Event::I64(v as i64)
    }
}

impl<'s> FromSpecImpl<isize> for Event<'s> {
    open spec fn obeys_from_spec() -> bool {
        true
    }

    open spec fn from_spec(v: isize) -> Self {
        Event::I64(v as i64)
    }
}

impl<'s> From<i64> for Event<'s> {
    fn from(v: i64) -> (r: Self) {
        Event::I64(v)
    }
}

impl<'s> FromSpecImpl<i64> for Event<'s> {
    open spec fn obeys_from_spec() -> bool {
        true
    }

    open spec fn from_spec(v: i64) -> Self {
        Event::I64(v)
    }
}

impl<'s> From<u8> for Event<'s> {
    fn from(v: u8) -> (r: Self) {
        Event::U64(v as u64)
    }
}

impl<'s> FromSpecImpl<u8> for Event<'s> {
    open spec fn obeys_from_spec() -> bool {
        true
    }

    open spec fn from_spec(v: u8) -> Self {
        Event::U64(v as u64)
    }
}

impl<'s> From<u16> for Event<'s> {
    fn from(v: u16) -> (r: Self) {
        Event::U64(v as u64)
    }
}

impl<'s> FromSpecImpl<u16> for Event<'s> {
    open spec fn obeys_from_spec() -> bool {
        true
    }

    open spec fn from_spec(v: u16) -> Self {
        Event::U64(v as u64)
    }
}

impl<'s> From<u32> for Event<'s> {
    fn from(v: u32) -> (r: Self) {
        Event::U64(v as u64)
    }
}

impl<'s> FromSpecImpl<u32> for Event<'s> {
    open spec fn obeys_from_spec() -> bool {
        true
    }

    open spec fn from_spec(v: u32) -> Self {
        Event::U64(v as u64)
    }
}

impl<'s> From<usize> for Event<'s> {
    fn from(v: usize) -> (r: Self) {
        Event::U64(v as u64)
    }
}

impl<'s> FromSpecImpl<usize> for Event<'s> {
    open spec fn obeys_from_spec() -> bool {
        true
    }

    open spec fn from_spec(v: usize) -> Self {
        Event::U64(v as u64)
    }
}

impl<'s> From<u64> for Event<'s> {
    fn from(v: u64) -> (r: Self) {
        Event::U64(v)
    }
}

impl<'s> FromSpecImpl<u64> for Event<'s> {
    open spec fn obeys_from_spec() -> bool {
        true
    }

    open spec fn from_spec(v: u64) -> Self {
        Event::U64(v)
    }
}

impl<'s> From<bool> for Event<'s> {
    fn from(v: bool) -> (r: Self) {
        Event::Bool(v)
    }
}

impl<'s> FromSpecImpl<bool> for Event<'s> {
    open spec fn obeys_from_spec() -> bool {
        true
    }

    open spec fn from_spec(v: bool) -> Self {
        Event::Bool(v)
    }
}

impl<'s> From<&'s str> for Event<'s> {
    fn from(v: &'s str) -> (r: Self) {
        Event::Str(CowStr::Borrowed(v))
    }
}

impl<'s> FromSpecImpl<&'s str> for Event<'s> {
    open spec fn obeys_from_spec() -> bool {
        true
    }

    open spec fn from_spec(v: &'s str) -> Self {
        Event::Str(CowStr::Borrowed(v))
    }
}

impl<'s> From<String> for Event<'s> {
    fn from(v: String) -> (r: Self) {
        Event::Str(CowStr::Owned(v))
    }
}

impl<'s> FromSpecImpl<String> for Event<'s> {
    open spec fn obeys_from_spec() -> bool {
        true
    }

    open spec fn from_spec(v: String) -> Self {
        Event::Str(CowStr::Owned(v))
    }
}

impl<'s> From<CowStr<'s>> for Event<'s> {
    fn from(v: CowStr<'s>) -> (r: Self) {
        Event::Str(v)
    }
}

impl<'s> FromSpecImpl<CowStr<'s>> for Event<'s> {
    open spec fn obeys_from_spec() -> bool {
        true
    }

    open spec fn from_spec(v: CowStr<'s>) -> Self {
        Event::Str(v)
    }
}

impl<'s> From<&'s [u8]> for Event<'s> {
    fn from(v: &'s [u8]) -> (r: Self) {
        Event::Bytes(CowBytes::Borrowed(v))
    }
}

impl<'s> FromSpecImpl<&'s [u8]> for Event<'s> {
    open spec fn obeys_from_spec() -> bool {
        true
    }

    open spec fn from_spec(v: &'s [u8]) -> Self {
        Event::Bytes(CowBytes::Borrowed(v))
    }
}

impl<'s> From<Vec<u8>> for Event<'s> {
    fn from(v: Vec<u8>) -> (r: Self) {
        Event::Bytes(CowBytes::Owned(v))
    }
}

impl<'s> FromSpecImpl<Vec<u8>> for Event<'s> {
    open spec fn obeys_from_spec() -> bool {
        true
    }

    open spec fn from_spec(v: Vec<u8>) -> Self {
        Event::Bytes(CowBytes::Owned(v))
    }
}

impl<'s> From<CowBytes<'s>> for Event<'s> {
    fn from(v: CowBytes<'s>) -> (r: Self) {
        Event::Bytes(v)
    }
}

impl<'s> FromSpecImpl<CowBytes<'s>> for Event<'s> {
    open spec fn obeys_from_spec() -> bool {
        true
    }

    open spec fn from_spec(v: CowBytes<'s>) -> Self {
        Event::Bytes(v)
    }
}

} // verus!
