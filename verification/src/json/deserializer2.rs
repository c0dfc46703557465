//! A second JSON deserializer, with a simpler stack: it does not keep the
//! item it peeked at when an array starts, and it queues the first key of an
//! object as the event after the object's start. It then reads every item
//! of a container as if another item had come before it: a non-empty array
//! or object is reported as a syntax error where its first item or first
//! value starts, and an empty one is read as if the text after it went on
//! with it.

use vstd::prelude::*;
use vstd::string::StringSliceAdditionalSpecFns;
use crate::cowstr::CowStr;
use crate::event::{ArrayStart, Event, EventModel, MapStart};
use crate::json::deserializer::{token_is, JsonOutcome, JsonToken};
use crate::json::errors::{json_error, JiterError, JsonErrorType};
use crate::json::jiter::{jiter_err, Jiter};
use crate::json::number::spec_number_range;
use crate::json::parse::{
    peek_byte, peek_is_num, spec_array_first, spec_array_step, spec_consume_ident,
    spec_object_first, spec_object_step, spec_peek, Peek,
};
use crate::json::string::spec_string;

verus! {

/// What the deserializer expects next in the container it is in.
#[derive(Debug, Clone, Copy, PartialEq, Eq, Hash, Structural)]
pub enum StackItem {
    /// A key of an object, or its end.
    ObjectKey,
    /// The value of an object's key.
    ObjectValue,
    /// An item of an array, after a comma, or its end.
    Array,
}

/// What the deserializer knows.
pub ghost struct State {
    pub data: Seq<u8>,
    pub pos: int,
    pub allow_inf_nan: bool,
    pub stack: Seq<StackItem>,
    pub queue: Option<EventModel>,
}

/// A state without its position: what reading a value does not change.
pub open spec fn base(s: State) -> State {
    State { pos: 0, ..s }
}

/// Reading the value announced by `p` at `pos`: its outcome, and the state
/// after it (after an error, only the input is known to be unchanged).
#[verifier::opaque]
pub open spec fn spec_value(s: State, p: Peek, pos: int) -> (JsonOutcome, State) {
    let at = |o: JsonOutcome, end: int| (o, State { pos: end, ..s });
    let fail = |e: JiterError| (JsonOutcome::Error(e), s);
    if p == Peek::Null {
        match spec_consume_ident(s.data, pos, seq![117u8, 108, 108]) {
            Ok(end) => at(JsonOutcome::Event(EventModel::Null), end),
            Err(e) => fail(jiter_err(e)),
        }
    } else if p == Peek::True {
        match spec_consume_ident(s.data, pos, seq![114u8, 117, 101]) {
            Ok(end) => at(JsonOutcome::Event(EventModel::Bool(true)), end),
            Err(e) => fail(jiter_err(e)),
        }
    } else if p == Peek::False {
        match spec_consume_ident(s.data, pos, seq![97u8, 108, 115, 101]) {
            Ok(end) => at(JsonOutcome::Event(EventModel::Bool(false)), end),
            Err(e) => fail(jiter_err(e)),
        }
    } else if peek_is_num(p) {
        match spec_number_range(s.data, pos, peek_byte(p), s.allow_inf_nan) {
            Ok((is_int, end)) => at(JsonOutcome::Number { is_int, start: pos, end }, end),
            Err(e) => fail(jiter_err(e)),
        }
    } else if p == Peek::String {
        match spec_string(s.data, pos) {
            Ok((text, end)) => at(JsonOutcome::Event(EventModel::Str(text)), end),
            Err(e) => fail(jiter_err(e)),
        }
    } else if p == Peek::Array {
        match spec_array_first(s.data, pos + 1) {
            Ok((_, end)) => (
                JsonOutcome::Event(EventModel::ArrayStart(None)),
                State { pos: end, stack: s.stack.push(StackItem::Array), ..s },
            ),
            Err(e) => fail(jiter_err(e)),
        }
    } else if p == Peek::Object {
        match spec_object_first(s.data, pos + 1) {
            Ok((key, end)) => (
                JsonOutcome::Event(EventModel::MapStart(None)),
                State {
                    pos: end,
                    stack: s.stack.push(StackItem::ObjectKey),
                    queue: match key {
                        Some(k) => Some(EventModel::Str(k)),
                        None => None,
                    },
                    ..s
                },
            ),
            Err(e) => fail(jiter_err(e)),
        }
    } else {
        fail(jiter_err(crate::json::errors::JsonError { error_type: JsonErrorType::ExpectedSomeValue, index: pos as usize }))
    }
}

/// Reading the next value, peeking at it from the current position.
pub open spec fn spec_peeked_value(s: State) -> (JsonOutcome, State) {
    match spec_peek(s.data, s.pos) {
        Ok((p, at)) => spec_value(base(s), p, at),
        Err(e) => (JsonOutcome::Error(jiter_err(e)), s),
    }
}

/// One step of the deserializer: its outcome and the state after it.
pub open spec fn spec_pop(s: State) -> (JsonOutcome, State) {
    if s.queue is Some {
        (JsonOutcome::Event(s.queue->0), State { queue: None, ..s })
    } else if s.stack.len() == 0 {
        spec_peeked_value(s)
    } else {
        match s.stack.last() {
            StackItem::ObjectKey => match spec_object_step(s.data, s.pos) {
                Ok((Some(key), end)) => (
                    JsonOutcome::Event(EventModel::Str(key)),
                    State { pos: end, stack: s.stack.drop_last().push(StackItem::ObjectValue), ..s },
                ),
                Ok((None, end)) => (JsonOutcome::Event(EventModel::MapEnd), State { pos: end, stack: s.stack.drop_last(), ..s }),
                Err(e) => (JsonOutcome::Error(jiter_err(e)), s),
            },
            StackItem::ObjectValue => spec_peeked_value(s),
            StackItem::Array => match spec_array_step(s.data, s.pos) {
                Ok((Some(p), at)) => spec_value(base(s), p, at),
                Ok((None, end)) => (JsonOutcome::Event(EventModel::ArrayEnd), State { pos: end, stack: s.stack.drop_last(), ..s }),
                Err(e) => (JsonOutcome::Error(jiter_err(e)), s),
            },
        }
    }
}

/// A JSON deserializer with a simpler stack (see the module's documentation).
#[derive(Debug)]
pub struct JsonDeserializer<'s> {
    source: &'s str,
    jiter: Jiter<'s>,
    stack: Vec<StackItem>,
    queue: Option<Event<'s>>,
}

impl<'s> View for JsonDeserializer<'s> {
    type V = State;

    closed spec fn view(&self) -> State {
        State {
            data: self.jiter.data_view(),
            pos: self.jiter.index_view(),
            allow_inf_nan: self.jiter.allows_inf_nan(),
            stack: self.stack@,
            queue: match self.queue {
                Some(e) => Some(e@),
                None => None,
            },
        }
    }
}

impl<'s> JsonDeserializer<'s> {
    /// The deserializer is consistent: its iterator reads its source text.
    pub closed spec fn wf(&self) -> bool {
        &&& self.jiter.wf()
        &&& self.jiter.data_view() == self.source.spec_bytes()
    }

    /// A deserializer at the start of the JSON text `source`.
    pub fn new(source: &'s str) -> (r: Self)
        requires
            source.spec_bytes().len() < usize::MAX,
        ensures
            r.wf(),
            r@.data == source.spec_bytes(),
            r@.pos == 0,
            r@.stack.len() == 0,
            r@.queue is None,
            !r@.allow_inf_nan,
    {
        let jiter = Jiter::new(source.as_bytes());
        JsonDeserializer { source, jiter, stack: Vec::new(), queue: None }
    }

    /// The next step: an event, or a number whose text the caller converts.
    pub fn pop(&mut self) -> (r: Result<JsonToken<'s>, JiterError>)
        requires
            old(self).wf(),
        ensures
            final(self).wf(),
            final(self)@.data == old(self)@.data,
            final(self)@.allow_inf_nan == old(self)@.allow_inf_nan,
            token_is(r, spec_pop(old(self)@).0),
            r is Ok ==> final(self)@ == spec_pop(old(self)@).1,
    {
        if self.queue.is_some() {
            let ev = self.queue.take();
            return match ev {
                Some(e) => Ok(JsonToken::Event(e)),
                None => Ok(JsonToken::Event(Event::Null)),
            };
        }
        let n = self.stack.len();
        if n == 0 {
            return self.peeked_value();
        }
        match self.stack[n - 1] {
            StackItem::ObjectKey => match self.jiter.next_key() {
                Ok(Some(key)) => {
                    self.stack.set(n - 1, StackItem::ObjectValue);
                    proof {
                        assert(self.stack@ =~= old(self).stack@.drop_last().push(StackItem::ObjectValue));
                    }
                    Ok(JsonToken::Event(Event::Str(key)))
                },
                Ok(None) => {
                    self.stack.pop();
                    proof {
                        assert(self.stack@ =~= old(self).stack@.drop_last());
                    }
                    Ok(JsonToken::Event(Event::MapEnd))
                },
                Err(e) => Err(e),
            },
            StackItem::ObjectValue => self.peeked_value(),
            StackItem::Array => match self.jiter.array_step() {
                Ok(Some(p)) => self.read_value(p),
                Ok(None) => {
                    self.stack.pop();
                    proof {
                        assert(self.stack@ =~= old(self).stack@.drop_last());
                    }
                    Ok(JsonToken::Event(Event::ArrayEnd))
                },
                Err(e) => Err(e),
            },
        }
    }

    /// Peeks at the next value from the current position, and reads it.
    fn peeked_value(&mut self) -> (r: Result<JsonToken<'s>, JiterError>)
        requires
            old(self).wf(),
            old(self).queue is None,
        ensures
            final(self).wf(),
            final(self)@.data == old(self)@.data,
            final(self)@.allow_inf_nan == old(self)@.allow_inf_nan,
            token_is(r, spec_peeked_value(old(self)@).0),
            r is Ok ==> final(self)@ == spec_peeked_value(old(self)@).1,
    {
        match self.jiter.peek() {
            Ok(p) => {
                proof {
                    reveal(spec_value);
                }
                self.read_value(p)
            },
            Err(e) => Err(e),
        }
    }

    /// Reads the value announced by `peek`, at the current position.
    fn read_value(&mut self, peek: Peek) -> (r: Result<JsonToken<'s>, JiterError>)
        requires
            old(self).wf(),
            old(self).queue is None,
            old(self).jiter.index_view() < old(self).jiter.data_view().len(),
        ensures
            final(self).wf(),
            final(self)@.data == old(self)@.data,
            final(self)@.allow_inf_nan == old(self)@.allow_inf_nan,
            token_is(r, spec_value(base(old(self)@), peek, old(self)@.pos).0),
            r is Ok ==> final(self)@ == spec_value(base(old(self)@), peek, old(self)@.pos).1,
    {
        proof {
            reveal(spec_value);
        }
        if peek == Peek::Null {
            match self.jiter.known_null() {
                Ok(()) => Ok(JsonToken::Event(Event::Null)),
                Err(e) => Err(e),
            }
        } else if peek == Peek::True || peek == Peek::False {
            match self.jiter.known_bool(peek) {
                Ok(b) => Ok(JsonToken::Event(Event::Bool(b))),
                Err(e) => Err(e),
            }
        } else if peek.is_num() {
            match self.jiter.known_number(peek) {
                Ok(nr) => Ok(JsonToken::Number(nr)),
                Err(e) => Err(e),
            }
        } else if peek == Peek::String {
            match self.jiter.known_str() {
                Ok(s) => Ok(JsonToken::Event(Event::Str(s))),
                Err(e) => Err(e),
            }
        } else if peek == Peek::Array {
            match self.jiter.known_array() {
                Ok(_) => {
                    self.stack.push(StackItem::Array);
                    Ok(JsonToken::Event(Event::ArrayStart(ArrayStart { size_hint: None })))
                },
                Err(e) => Err(e),
            }
        } else if peek == Peek::Object {
            match self.jiter.known_object() {
                Ok(key) => {
                    self.stack.push(StackItem::ObjectKey);
                    match key {
                        Some(k) => {
                            self.queue = Some(Event::Str(k.into_static()));
                        },
                        None => {},
                    }
                    Ok(JsonToken::Event(Event::MapStart(MapStart { size_hint: None })))
                },
                Err(e) => Err(e),
            }
        } else {
            Err(JiterError::from_json_error(json_error(JsonErrorType::ExpectedSomeValue, self.jiter.current_index())))
        }
    }
}

} // verus!
