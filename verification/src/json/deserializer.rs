//! The JSON deserializer: turns JSON text into a stream of events.

use vstd::prelude::*;
use vstd::string::StringSliceAdditionalSpecFns;
use crate::cowstr::{str_from_utf8, CowStr};
use crate::error::MerdeError;
use crate::event::{ArrayStart, Event, EventModel, MapStart};
use crate::json::errors::{json_error, JiterError, JsonError, JsonErrorType};
use crate::json::jiter::{jiter_err, spec_wrong_type, Jiter};
use crate::json::number::{spec_number_range, NumberRange};
use crate::json::parse::{
    key_text, peek_byte, peek_is_num, peek_of, spec_array_first, spec_array_step,
    spec_consume_ident, spec_object_first, spec_object_step, spec_peek, ws_end, Peek,
};
use crate::json::string::{plain_string, spec_string, string_end};
use crate::json::errors::JsonType;

verus! {

/// What the deserializer still has to do for the containers it is inside of.
#[derive(Debug)]
pub enum StackItem<'s> {
    /// In an object, before a key (already read, or to be read).
    ObjectKey(Option<CowStr<'s>>),
    /// In an object, before a value.
    ObjectValue,
    /// In an empty object, before its end.
    ObjectEnd,
    /// In an array, before an item (already peeked at, or to be found).
    Array(Option<Peek>),
    /// In an empty array, before its end.
    ArrayEnd,
}

/// A stack item, with its key as plain text.
pub ghost enum StackModel {
    ObjectKey(Option<Seq<char>>),
    ObjectValue,
    ObjectEnd,
    Array(Option<Peek>),
    ArrayEnd,
}

impl<'s> View for StackItem<'s> {
    type V = StackModel;

    open spec fn view(&self) -> StackModel {
        match self {
            StackItem::ObjectKey(k) => StackModel::ObjectKey(key_text(*k)),
            StackItem::ObjectValue => StackModel::ObjectValue,
            StackItem::ObjectEnd => StackModel::ObjectEnd,
            StackItem::Array(p) => StackModel::Array(*p),
            StackItem::ArrayEnd => StackModel::ArrayEnd,
        }
    }
}

/// What the JSON deserializer knows.
pub ghost struct JsonState {
    pub data: Seq<u8>,
    pub pos: int,
    pub allow_inf_nan: bool,
    pub stack: Seq<StackModel>,
    pub pending: Option<EventModel>,
}

/// One step of the deserializer: an event, or a number whose extent in the
/// input is known and whose value the caller converts.
#[derive(Debug)]
pub enum JsonToken<'s> {
    Event(Event<'s>),
    Number(NumberRange),
}

/// A step's outcome, with strings as plain text.
pub ghost enum JsonOutcome {
    Event(EventModel),
    Number { is_int: bool, start: int, end: int },
    Error(JiterError),
}

/// The part of a state that does not change while reading: the input and
/// its options.
pub open spec fn input_of(s: JsonState) -> JsonState {
    JsonState { pos: 0, stack: Seq::empty(), pending: None, ..s }
}

/// The outcome of reading the value announced by `p` at `pos`, the position
/// after it, and the stack after it (items are pushed for arrays and objects).
#[verifier::opaque]
pub open spec fn spec_value(s: JsonState, p: Peek, pos: int, stack: Seq<StackModel>) -> (JsonOutcome, JsonState) {
    let at = |o: JsonOutcome, end: int, st: Seq<StackModel>| (o, JsonState { pos: end, stack: st, pending: None, ..s });
    let fail = |e: JiterError| (JsonOutcome::Error(e), s);
    if p == Peek::Null {
        match spec_consume_ident(s.data, pos, seq![117u8, 108, 108]) {
            Ok(end) => at(JsonOutcome::Event(EventModel::Null), end, stack),
            Err(e) => fail(jiter_err(e)),
        }
    } else if p == Peek::True {
        match spec_consume_ident(s.data, pos, seq![114u8, 117, 101]) {
            Ok(end) => at(JsonOutcome::Event(EventModel::Bool(true)), end, stack),
            Err(e) => fail(jiter_err(e)),
        }
    } else if p == Peek::False {
        match spec_consume_ident(s.data, pos, seq![97u8, 108, 115, 101]) {
            Ok(end) => at(JsonOutcome::Event(EventModel::Bool(false)), end, stack),
            Err(e) => fail(jiter_err(e)),
        }
    } else if peek_is_num(p) {
        match spec_number_range(s.data, pos, peek_byte(p), s.allow_inf_nan) {
            Ok((is_int, end)) => at(JsonOutcome::Number { is_int, start: pos, end }, end, stack),
            Err(e) => fail(jiter_err(e)),
        }
    } else if p == Peek::String {
        match spec_string(s.data, pos) {
            Ok((text, end)) => at(JsonOutcome::Event(EventModel::Str(text)), end, stack),
            Err(e) => fail(jiter_err(e)),
        }
    } else if p == Peek::Array {
        match spec_array_first(s.data, pos + 1) {
            Ok((Some(first), end)) => at(JsonOutcome::Event(EventModel::ArrayStart(None)), end, stack.push(StackModel::Array(Some(first)))),
            Ok((None, end)) => at(JsonOutcome::Event(EventModel::ArrayStart(None)), end, stack.push(StackModel::ArrayEnd)),
            Err(e) => fail(jiter_err(e)),
        }
    } else if p == Peek::Object {
        match spec_object_first(s.data, pos + 1) {
            Ok((Some(key), end)) => at(JsonOutcome::Event(EventModel::MapStart(None)), end, stack.push(StackModel::ObjectKey(Some(key)))),
            Ok((None, end)) => at(JsonOutcome::Event(EventModel::MapStart(None)), end, stack.push(StackModel::ObjectEnd)),
            Err(e) => fail(jiter_err(e)),
        }
    } else {
        fail(jiter_err(crate::json::errors::JsonError { error_type: JsonErrorType::ExpectedSomeValue, index: pos as usize }))
    }
}

/// The outcome of reading the next value, peeking at it from `pos`.
pub open spec fn spec_peeked_value(s: JsonState, pos: int, stack: Seq<StackModel>) -> (JsonOutcome, JsonState) {
    match spec_peek(s.data, pos) {
        Ok((p, at)) => spec_value(s, p, at, stack),
        Err(e) => (JsonOutcome::Error(jiter_err(e)), s),
    }
}

/// One step of the deserializer: its outcome and the state after it (after
/// an error, only the input is known to be unchanged).
pub open spec fn spec_json_next(s: JsonState) -> (JsonOutcome, JsonState) {
    if s.pending is Some {
        (JsonOutcome::Event(s.pending->0), JsonState { pending: None, ..s })
    } else if s.stack.len() == 0 {
        spec_peeked_value(input_of(s), s.pos, s.stack)
    } else {
        let rest = s.stack.drop_last();
        let done = |ev: EventModel, end: int, st: Seq<StackModel>| (JsonOutcome::Event(ev), JsonState { pos: end, stack: st, ..s });
        match s.stack.last() {
            StackModel::ObjectKey(Some(key)) => done(EventModel::Str(key), s.pos, rest.push(StackModel::ObjectValue)),
            StackModel::ObjectKey(None) => match spec_object_step(s.data, s.pos) {
                Ok((Some(key), end)) => done(EventModel::Str(key), end, rest.push(StackModel::ObjectValue)),
                Ok((None, end)) => done(EventModel::MapEnd, end, rest),
                Err(e) => (JsonOutcome::Error(jiter_err(e)), s),
            },
            StackModel::ObjectValue => spec_peeked_value(input_of(s), s.pos, rest.push(StackModel::ObjectKey(None))),
            StackModel::ObjectEnd => done(EventModel::MapEnd, s.pos, rest),
            StackModel::Array(Some(p)) => spec_value(input_of(s), p, s.pos, rest.push(StackModel::Array(None))),
            StackModel::Array(None) => match spec_array_step(s.data, s.pos) {
                Ok((Some(p), at)) => spec_value(input_of(s), p, at, rest.push(StackModel::Array(None))),
                Ok((None, end)) => done(EventModel::ArrayEnd, end, rest),
                Err(e) => (JsonOutcome::Error(jiter_err(e)), s),
            },
            StackModel::ArrayEnd => done(EventModel::ArrayEnd, s.pos, rest),
        }
    }
}

/// Whether a step's result is the given outcome.
pub open spec fn token_is<'s>(r: Result<JsonToken<'s>, JiterError>, o: JsonOutcome) -> bool {
    match o {
        JsonOutcome::Event(e) => r matches Ok(JsonToken::Event(ev)) && ev@ == e,
        JsonOutcome::Number { is_int, start, end } => r matches Ok(JsonToken::Number(nr)) && nr.is_int
            == is_int && nr.range.start == start && nr.range.end == end,
        JsonOutcome::Error(e) => r == Err::<JsonToken<'s>, JiterError>(e),
    }
}

/// Whether reading from `o + 1`, just after an object's `{`, gives the first
/// key `k` and its colon, and ends at `pos`.
pub open spec fn first_key_read(data: Seq<u8>, o: int, pos: int, k: Seq<char>) -> bool {
    spec_object_first(data, o + 1) == Ok::<(Option<Seq<char>>, int), JsonError>((Some(k), pos))
}

/// Whether `at` is where the first key `k` of an object starts, read from
/// the object's `{` up to its colon, which ends at `pos`.
pub open spec fn key_origin(data: Seq<u8>, pos: int, k: Seq<char>, at: int) -> bool {
    exists|o: int| #[trigger] first_key_read(data, o, pos, k) && at == ws_end(data, o + 1)
}

/// Whether a string read from the opening quote at `at` is borrowed from the
/// input exactly when its text there holds no escape.
pub open spec fn borrowed_as_read<'s>(data: Seq<u8>, c: CowStr<'s>, at: int) -> bool {
    c is Borrowed <==> plain_string(data, at, string_end(data, at))
}

/// The places from which the next step in state `s` reads the string it
/// gives: a value after whitespace, a peeked array item, an item or a key
/// after a comma, or the first key of an object read with the object's start.
pub open spec fn str_origin(s: JsonState, at: int) -> bool {
    if s.pending is Some {
        false
    } else if s.stack.len() == 0 {
        at == ws_end(s.data, s.pos)
    } else {
        match s.stack.last() {
            StackModel::ObjectValue => at == ws_end(s.data, s.pos),
            StackModel::Array(Some(_)) => at == s.pos,
            StackModel::Array(None) => at == ws_end(s.data, ws_end(s.data, s.pos) + 1),
            StackModel::ObjectKey(None) => at == ws_end(s.data, ws_end(s.data, s.pos) + 1),
            StackModel::ObjectKey(Some(k)) => key_origin(s.data, s.pos, k, at),
            _ => false,
        }
    }
}

proof fn lemma_first_key_origin(s: JsonState, k: Seq<char>, o: int)
    requires
        s.pending is None,
        s.stack.len() > 0,
        s.stack.last() == StackModel::ObjectKey(Some(k)),
        first_key_read(s.data, o, s.pos, k),
    ensures
        str_origin(s, ws_end(s.data, o + 1)),
{
    assert(key_origin(s.data, s.pos, k, ws_end(s.data, o + 1)));
}

/// A JSON deserializer.
#[derive(Debug)]
pub struct JsonDeserializer<'s> {
    source: &'s str,
    jiter: Jiter<'s>,
    stack: Vec<StackItem<'s>>,
    starter: Option<Event<'s>>,
}

/// The models of stack items.
pub open spec fn stack_view<'s>(items: Seq<StackItem<'s>>) -> Seq<StackModel> {
    items.map_values(|i: StackItem<'s>| i@)
}

impl<'s> View for JsonDeserializer<'s> {
    type V = JsonState;

    closed spec fn view(&self) -> JsonState {
        JsonState {
            data: self.jiter.data_view(),
            pos: self.jiter.index_view(),
            allow_inf_nan: self.jiter.allows_inf_nan(),
            stack: stack_view(self.stack@),
            pending: match self.starter {
                Some(e) => Some(e@),
                None => None,
            },
        }
    }
}

} // verus!

verus! {

impl<'s> JsonDeserializer<'s> {
    /// The deserializer is consistent: an array item that was peeked at is
    /// only ever on top of the stack, and the input is not over there; an
    /// object's first key, read with the object's start, is only ever on top
    /// of the stack, was read there, and is borrowed exactly when it holds no
    /// escape.
    pub closed spec fn wf(&self) -> bool {
        &&& self.jiter.wf()
        &&& self.jiter.data_view() == self.source.spec_bytes()
        &&& forall|i: int| 0 <= i < self.stack@.len() && (#[trigger] self.stack@[i] matches StackItem::Array(Some(_)))
            ==> i == self.stack@.len() - 1 && self.jiter.index_view() < self.jiter.data_view().len()
        &&& forall|i: int| 0 <= i < self.stack@.len() && (#[trigger] self.stack@[i] matches StackItem::ObjectKey(Some(_)))
            ==> i == self.stack@.len() - 1
        &&& self.stack@.len() > 0 ==> match self.stack@.last() {
            StackItem::ObjectKey(Some(k)) => exists|o: int|
                first_key_read(self.jiter.data_view(), o, self.jiter.index_view(), k@)
                && borrowed_as_read(self.jiter.data_view(), k, ws_end(self.jiter.data_view(), o + 1)),
            _ => true,
        }
    }

    /// A deserializer at the start of the JSON text `source`.
    pub fn new(source: &'s str) -> (r: Self)
        requires
            source.spec_bytes().len() < usize::MAX,
        ensures
            r.wf(),
            r@ == (JsonState {
                data: source.spec_bytes(),
                pos: 0,
                allow_inf_nan: false,
                stack: Seq::empty(),
                pending: None,
            }),
    {
        let jiter = Jiter::new(source.as_bytes());
        let r = JsonDeserializer { source, jiter, stack: Vec::new(), starter: None };
        proof {
            assert(stack_view(r.stack@) =~= Seq::<StackModel>::empty());
        }
        r
    }

    /// A deserializer at the start of the JSON text held in `bytes`; the
    /// bytes must be well-formed UTF-8.
    pub fn from_bytes(bytes: &'s [u8]) -> (r: Result<Self, MerdeError<'s>>)
        requires
            bytes@.len() < usize::MAX,
        ensures
            r is Ok <==> vstd::utf8::valid_utf8(bytes@),
            r matches Ok(d) ==> d.wf() && d@ == (JsonState {
                data: bytes@,
                pos: 0,
                allow_inf_nan: false,
                stack: Seq::empty(),
                pending: None,
            }),
            r matches Err(e) ==> e is Utf8Error,
    {
        match str_from_utf8(bytes) {
            Ok(s) => {
                proof {
                    vstd::utf8::decode_utf8_encode_utf8(bytes@);
                }
                Ok(JsonDeserializer::new(s))
            },
            Err(e) => Err(MerdeError::Utf8Error(e)),
        }
    }

    /// The JSON text.
    pub fn source(&self) -> (r: &'s str)
        requires
            self.wf(),
        ensures
            r.spec_bytes() == self@.data,
    {
        self.source
    }

    /// Puts an event back, to be returned by the next call to `next`; only
    /// one event can wait at a time.
    pub fn put_back(&mut self, event: Event<'s>) -> (r: Result<(), MerdeError<'s>>)
        requires
            old(self).wf(),
        ensures
            final(self).wf(),
            old(self)@.pending is None ==> r is Ok && final(self)@ == (JsonState { pending: Some(event@), ..old(self)@ }),
            old(self)@.pending is Some ==> (r matches Err(MerdeError::PutBackCalledTwice)) && final(self)@ == old(self)@,
    {
        if self.starter.is_some() {
            return Err(MerdeError::PutBackCalledTwice);
        }
        self.starter = Some(event);
        Ok(())
    }

    /// The next step: an event, or a number whose text the caller converts.
    #[verifier::rlimit(60)]
    pub fn next(&mut self) -> (r: Result<JsonToken<'s>, JiterError>)
        requires
            old(self).wf(),
        ensures
            final(self).wf(),
            final(self)@.data == old(self)@.data,
            final(self)@.allow_inf_nan == old(self)@.allow_inf_nan,
            token_is(r, spec_json_next(old(self)@).0),
            r is Ok ==> final(self)@ == spec_json_next(old(self)@).1,
            old(self)@.pending is None ==> (r matches Ok(JsonToken::Event(Event::Str(c))) ==> exists|at: int|
                str_origin(old(self)@, at) && borrowed_as_read(old(self)@.data, c, at)),
    {
        if self.starter.is_some() {
            let ev = self.starter.take();
            return match ev {
                Some(e) => Ok(JsonToken::Event(e)),
                None => Ok(JsonToken::Event(Event::Null)),
            };
        }
        let ghost st = self.stack@;
        let ghost rest = st.drop_last();
        proof {
            if st.len() > 0 {
                assert forall|i: int| 0 <= i < rest.len() implies !(#[trigger] rest[i] matches StackItem::Array(Some(_))) by {
                    assert(rest[i] == st[i]);
                }
                assert forall|i: int| 0 <= i < rest.len() implies !(#[trigger] rest[i] matches StackItem::ObjectKey(Some(_))) by {
                    assert(rest[i] == st[i]);
                }
            }
        }
        match self.stack.pop() {
            Some(StackItem::ObjectKey(Some(key))) => {
                self.stack.push(StackItem::ObjectValue);
                proof {
                    assert(stack_view(st).last() == StackModel::ObjectKey(Some(key@)));
                    assert(stack_view(self.stack@) =~= stack_view(st).drop_last().push(StackModel::ObjectValue));
                    let data = old(self)@.data;
                    assert(old(self).stack@.last() == StackItem::ObjectKey(Some(key)));
                    assert(exists|o: int| first_key_read(old(self).jiter.data_view(), o, old(self).jiter.index_view(), key@)
                        && borrowed_as_read(old(self).jiter.data_view(), key, ws_end(old(self).jiter.data_view(), o + 1)));
                    let o = choose|o: int| first_key_read(data, o, old(self)@.pos, key@)
                        && borrowed_as_read(data, key, ws_end(data, o + 1));
                    assert(old(self)@.stack.last() == StackModel::ObjectKey(Some(key@)));
                    lemma_first_key_origin(old(self)@, key@, o);
                }
                Ok(JsonToken::Event(Event::Str(key)))
            },
            Some(StackItem::ObjectKey(None)) => {
                proof {
                    assert(stack_view(st).last() == StackModel::ObjectKey(None));
                    assert(stack_view(rest) =~= stack_view(st).drop_last());
                }
                match self.jiter.next_key() {
                    Ok(Some(key)) => {
                        self.stack.push(StackItem::ObjectValue);
                        proof {
                            assert(stack_view(self.stack@) =~= stack_view(st).drop_last().push(StackModel::ObjectValue));
                            let data = old(self)@.data;
                            assert(str_origin(old(self)@, ws_end(data, ws_end(data, old(self)@.pos) + 1)));
                        }
                        Ok(JsonToken::Event(Event::Str(key)))
                    },
                    Ok(None) => Ok(JsonToken::Event(Event::MapEnd)),
                    Err(e) => Err(e),
                }
            },
            Some(StackItem::ObjectValue) => {
                self.stack.push(StackItem::ObjectKey(None));
                proof {
                    assert(stack_view(st).last() == StackModel::ObjectValue);
                    assert(stack_view(self.stack@) =~= stack_view(st).drop_last().push(StackModel::ObjectKey(None)));
                }
                let r = self.peeked_value();
                proof {
                    assert(str_origin(old(self)@, ws_end(old(self)@.data, old(self)@.pos)));
                }
                r
            },
            Some(StackItem::ObjectEnd) => {
                proof {
                    assert(stack_view(st).last() == StackModel::ObjectEnd);
                    assert(stack_view(self.stack@) =~= stack_view(st).drop_last());
                }
                Ok(JsonToken::Event(Event::MapEnd))
            },
            Some(StackItem::Array(Some(p))) => {
                self.stack.push(StackItem::Array(None));
                proof {
                    assert(stack_view(st).last() == StackModel::Array(Some(p)));
                    assert(stack_view(self.stack@) =~= stack_view(st).drop_last().push(StackModel::Array(None)));
                }
                let r = self.read_value(p);
                proof {
                    assert(str_origin(old(self)@, old(self)@.pos));
                }
                r
            },
            Some(StackItem::Array(None)) => {
                proof {
                    assert(stack_view(st).last() == StackModel::Array(None));
                    assert(stack_view(rest) =~= stack_view(st).drop_last());
                }
                match self.jiter.array_step() {
                    Ok(Some(p)) => {
                        self.stack.push(StackItem::Array(None));
                        proof {
                            assert(stack_view(self.stack@) =~= stack_view(st).drop_last().push(StackModel::Array(None)));
                        }
                        let r = self.read_value(p);
                        proof {
                            let data = old(self)@.data;
                            assert(str_origin(old(self)@, ws_end(data, ws_end(data, old(self)@.pos) + 1)));
                        }
                        r
                    },
                    Ok(None) => Ok(JsonToken::Event(Event::ArrayEnd)),
                    Err(e) => Err(e),
                }
            },
            Some(StackItem::ArrayEnd) => {
                proof {
                    assert(stack_view(st).last() == StackModel::ArrayEnd);
                    assert(stack_view(self.stack@) =~= stack_view(st).drop_last());
                }
                Ok(JsonToken::Event(Event::ArrayEnd))
            },
            None => {
                let r = self.peeked_value();
                proof {
                    assert(str_origin(old(self)@, ws_end(old(self)@.data, old(self)@.pos)));
                }
                r
            },
        }
    }

    /// Peeks at the next value from the current position, and reads it.
    fn peeked_value(&mut self) -> (r: Result<JsonToken<'s>, JiterError>)
        requires
            old(self).jiter.wf(),
            old(self).jiter.data_view() == old(self).source.spec_bytes(),
            old(self).starter is None,
            forall|i: int| 0 <= i < old(self).stack@.len() ==> !(#[trigger] old(self).stack@[i] matches StackItem::Array(Some(_))),
            forall|i: int| 0 <= i < old(self).stack@.len() ==> !(#[trigger] old(self).stack@[i] matches StackItem::ObjectKey(Some(_))),
        ensures
            final(self).wf(),
            final(self).starter is None,
            final(self)@.data == old(self)@.data,
            final(self)@.allow_inf_nan == old(self)@.allow_inf_nan,
            token_is(r, spec_peeked_value(input_of(old(self)@), old(self)@.pos, old(self)@.stack).0),
            r is Ok ==> final(self)@ == spec_peeked_value(input_of(old(self)@), old(self)@.pos, old(self)@.stack).1,
            r matches Ok(JsonToken::Event(Event::Str(c))) ==> borrowed_as_read(old(self)@.data, c, ws_end(old(self)@.data, old(self)@.pos)),
    {
        proof {
            reveal(spec_value);
        }
        match self.jiter.peek() {
            Ok(p) => self.read_value(p),
            Err(e) => Err(e),
        }
    }

    /// Reads the value announced by `peek`, at the current position.
    #[verifier::rlimit(40)]
    fn read_value(&mut self, peek: Peek) -> (r: Result<JsonToken<'s>, JiterError>)
        requires
            old(self).jiter.wf(),
            old(self).jiter.data_view() == old(self).source.spec_bytes(),
            old(self).starter is None,
            old(self).jiter.index_view() < old(self).jiter.data_view().len(),
            forall|i: int| 0 <= i < old(self).stack@.len() ==> !(#[trigger] old(self).stack@[i] matches StackItem::Array(Some(_))),
            forall|i: int| 0 <= i < old(self).stack@.len() ==> !(#[trigger] old(self).stack@[i] matches StackItem::ObjectKey(Some(_))),
        ensures
            r matches Ok(JsonToken::Event(Event::Str(c))) ==> borrowed_as_read(old(self)@.data, c, old(self)@.pos),
            final(self).wf(),
            final(self).starter is None,
            final(self)@.data == old(self)@.data,
            final(self)@.allow_inf_nan == old(self)@.allow_inf_nan,
            token_is(r, spec_value(input_of(old(self)@), peek, old(self)@.pos, old(self)@.stack).0),
            r is Ok ==> final(self)@ == spec_value(input_of(old(self)@), peek, old(self)@.pos, old(self)@.stack).1,
    {
        let ghost st = self.stack@;
        proof {
            reveal(spec_value);
            if st.len() > 0 {
                assert(!(st[st.len() - 1] matches StackItem::ObjectKey(Some(_))));
            }
        }
        if peek == Peek::Null {
            match self.jiter.known_null() {
                Ok(()) => Ok(JsonToken::Event(Event::Null)),
                Err(e) => Err(e),
            }
        } else if peek == Peek::True || peek == Peek::False {
            match self.jiter.known_bool(peek) {
                Ok(b) => Ok(JsonToken::Event(Event::Bool(b))),
                Err(e) => Err(e),
            }
        } else if peek.is_num() {
            match self.jiter.known_number(peek) {
                Ok(nr) => Ok(JsonToken::Number(nr)),
                Err(e) => Err(e),
            }
        } else if peek == Peek::String {
            match self.jiter.known_str() {
                Ok(s) => Ok(JsonToken::Event(Event::Str(s))),
                Err(e) => Err(e),
            }
        } else if peek == Peek::Array {
            match self.jiter.known_array() {
                Ok(Some(first)) => {
                    self.stack.push(StackItem::Array(Some(first)));
                    proof {
                        assert(stack_view(self.stack@) =~= stack_view(st).push(StackModel::Array(Some(first))));
                    }
                    Ok(JsonToken::Event(Event::ArrayStart(ArrayStart { size_hint: None })))
                },
                Ok(None) => {
                    self.stack.push(StackItem::ArrayEnd);
                    proof {
                        assert(stack_view(self.stack@) =~= stack_view(st).push(StackModel::ArrayEnd));
                    }
                    Ok(JsonToken::Event(Event::ArrayStart(ArrayStart { size_hint: None })))
                },
                Err(e) => Err(e),
            }
        } else if peek == Peek::Object {
            match self.jiter.known_object() {
                Ok(Some(key)) => {
                    self.stack.push(StackItem::ObjectKey(Some(key)));
                    proof {
                        assert(stack_view(self.stack@) =~= stack_view(st).push(StackModel::ObjectKey(Some(key@))));
                        let data = old(self)@.data;
                        let o = old(self)@.pos;
                        assert(first_key_read(data, o, self.jiter.index_view(), key@));
                        assert(borrowed_as_read(data, key, ws_end(data, o + 1)));
                        assert(self.stack@.last() == StackItem::ObjectKey(Some(key)));
                        assert forall|i: int| 0 <= i < self.stack@.len() && (#[trigger] self.stack@[i] matches StackItem::ObjectKey(Some(_)))
                            implies i == self.stack@.len() - 1 by {
                            if i < st.len() {
                                assert(self.stack@[i] == st[i]);
                            }
                        }
                    }
                    Ok(JsonToken::Event(Event::MapStart(MapStart { size_hint: None })))
                },
                Ok(None) => {
                    self.stack.push(StackItem::ObjectEnd);
                    proof {
                        assert(stack_view(self.stack@) =~= stack_view(st).push(StackModel::ObjectEnd));
                    }
                    Ok(JsonToken::Event(Event::MapStart(MapStart { size_hint: None })))
                },
                Err(e) => Err(e),
            }
        } else {
            Err(JiterError::from_json_error(json_error(JsonErrorType::ExpectedSomeValue, self.jiter.current_index())))
        }
    }
}

/// An event put back is the next event, and reading it leaves the
/// deserializer as it was before the event was put back.
pub proof fn law_put_back_then_next(s: JsonState, e: EventModel)
    requires
        s.pending is None,
    ensures
        spec_json_next(JsonState { pending: Some(e), ..s }) == (JsonOutcome::Event(e), s),
{
}

} // verus!
