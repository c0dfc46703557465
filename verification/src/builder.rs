//! Building values from events, one event at a time.

use vstd::prelude::*;
use crate::cowstr::CowStr;
use crate::error::{EventType, MerdeError};
use crate::event::{event_type_of, Event, EventModel};
use crate::value::{canonical_float, Array, Mapping, Value, ValueModel};

verus! {

/// The kind of an event, from its model.
pub open spec fn model_type(e: EventModel) -> EventType {
    match e {
        EventModel::I64(_) => EventType::I64,
        EventModel::U64(_) => EventType::U64,
        EventModel::F64(_) => EventType::Float,
        EventModel::Str(_) => EventType::Str,
        EventModel::Bytes(_) => EventType::Bytes,
        EventModel::Bool(_) => EventType::Bool,
        EventModel::Null => EventType::Null,
        EventModel::MapStart(_) => EventType::MapStart,
        EventModel::MapEnd => EventType::MapEnd,
        EventModel::ArrayStart(_) => EventType::ArrayStart,
        EventModel::ArrayEnd => EventType::ArrayEnd,
    }
}

/// The kinds of events that can start a value.
pub open spec fn value_start_types() -> Seq<EventType> {
    seq![
        EventType::I64,
        EventType::U64,
        EventType::Float,
        EventType::Str,
        EventType::Bytes,
        EventType::Bool,
        EventType::Null,
        EventType::MapStart,
        EventType::ArrayStart,
    ]
}

/// The value an event is by itself, if it is one.
pub open spec fn scalar_model(e: EventModel) -> Option<ValueModel> {
    match e {
        EventModel::I64(i) => Some(ValueModel::I64(i)),
        EventModel::U64(u) => Some(ValueModel::U64(u)),
        EventModel::F64(f) => Some(ValueModel::Float(canonical_float(f))),
        EventModel::Str(s) => Some(ValueModel::Str(s)),
        EventModel::Bytes(b) => Some(ValueModel::Bytes(b)),
        EventModel::Bool(b) => Some(ValueModel::Bool(b)),
        EventModel::Null => Some(ValueModel::Null),
        _ => None,
    }
}

/// A container being built: the items so far, or the entries so far and the
/// key whose value comes next.
pub ghost enum FrameModel {
    Array(Seq<ValueModel>),
    Mapping(Map<Seq<char>, ValueModel>, Option<Seq<char>>),
}

/// What feeding one event does.
pub ghost enum FeedOutcome {
    /// More events are needed; the containers being built.
    Pending(Seq<FrameModel>),
    /// The value is complete.
    Done(ValueModel),
    /// The event does not fit here: its kind, and the kinds that would have.
    Unexpected(EventType, Seq<EventType>),
}

/// A finished value goes into the container being built, or is the result.
pub open spec fn complete(st: Seq<FrameModel>, v: ValueModel) -> FeedOutcome {
    if st.len() == 0 {
        FeedOutcome::Done(v)
    } else {
        match st.last() {
            FrameModel::Array(items) => FeedOutcome::Pending(st.drop_last().push(FrameModel::Array(items.push(v)))),
            FrameModel::Mapping(m, Some(k)) => FeedOutcome::Pending(st.drop_last().push(FrameModel::Mapping(m.insert(k, v), None))),
            FrameModel::Mapping(m, None) => FeedOutcome::Pending(st),
        }
    }
}

/// An event where a value starts.
pub open spec fn start_value(st: Seq<FrameModel>, e: EventModel) -> FeedOutcome {
    match scalar_model(e) {
        Some(v) => complete(st, v),
        None => match e {
            EventModel::MapStart(_) => FeedOutcome::Pending(st.push(FrameModel::Mapping(Map::empty(), None))),
            EventModel::ArrayStart(_) => FeedOutcome::Pending(st.push(FrameModel::Array(Seq::empty()))),
            _ => FeedOutcome::Unexpected(model_type(e), value_start_types()),
        },
    }
}

/// What feeding the event `e` does to a builder in state `st`.
pub open spec fn spec_feed(st: Seq<FrameModel>, e: EventModel) -> FeedOutcome {
    if st.len() == 0 {
        start_value(st, e)
    } else {
        match st.last() {
            FrameModel::Array(items) => if e is ArrayEnd {
                complete(st.drop_last(), ValueModel::Array(items))
            } else {
                start_value(st, e)
            },
            FrameModel::Mapping(m, None) => match e {
                EventModel::MapEnd => complete(st.drop_last(), ValueModel::Mapping(m)),
                EventModel::Str(k) => FeedOutcome::Pending(st.drop_last().push(FrameModel::Mapping(m, Some(k)))),
                _ => FeedOutcome::Unexpected(model_type(e), seq![EventType::Str, EventType::MapEnd]),
            },
            FrameModel::Mapping(_, Some(_)) => start_value(st, e),
        }
    }
}

/// What a builder does with an outcome and the events after it: a finished
/// value is the result if no event follows, else the next events start anew.
pub open spec fn continue_with(o: FeedOutcome, rest: Seq<EventModel>) -> FeedOutcome
    decreases rest.len(), 1nat,
{
    match o {
        FeedOutcome::Pending(st) => feed_all(st, rest),
        FeedOutcome::Done(v) => if rest.len() == 0 {
            FeedOutcome::Done(v)
        } else {
            feed_all(Seq::empty(), rest)
        },
        FeedOutcome::Unexpected(..) => o,
    }
}

/// The outcome of feeding the events `evs`, one after the other, to a
/// builder in state `st`.
pub open spec fn feed_all(st: Seq<FrameModel>, evs: Seq<EventModel>) -> FeedOutcome
    decreases evs.len(), 0nat,
{
    if evs.len() == 0 {
        FeedOutcome::Pending(st)
    } else {
        continue_with(spec_feed(st, evs[0]), evs.drop_first())
    }
}

/// A container being built.
#[derive(Debug)]
pub enum Frame<'s> {
    Array(Array<'s>),
    Mapping(Mapping<'s>, Option<CowStr<'s>>),
}

impl<'s> View for Frame<'s> {
    type V = FrameModel;

    open spec fn view(&self) -> FrameModel {
        match self {
            Frame::Array(a) => FrameModel::Array(a@),
            Frame::Mapping(m, Some(k)) => FrameModel::Mapping(m@, Some(k@)),
            Frame::Mapping(m, None) => FrameModel::Mapping(m@, None),
        }
    }
}

/// Whether a frame waits for a value (an array item, or the value of a key).
pub open spec fn waits_for_value(f: FrameModel) -> bool {
    !(f matches FrameModel::Mapping(_, None))
}

/// A well-formed builder state: every container but the innermost one waits
/// for the value being built inside it.
pub open spec fn frames_wf(st: Seq<FrameModel>) -> bool {
    forall|i: int| 0 <= i < st.len() - 1 ==> waits_for_value(#[trigger] st[i])
}

/// Builds a value from the events that describe it, fed one at a time.
#[derive(Debug)]
pub struct ValueBuilder<'s> {
    stack: Vec<Frame<'s>>,
}

impl<'s> View for ValueBuilder<'s> {
    type V = Seq<FrameModel>;

    closed spec fn view(&self) -> Seq<FrameModel> {
        self.stack@.map_values(|f: Frame<'s>| f@)
    }
}

/// Whether a result of `feed` is the outcome `o`.
pub open spec fn feed_result_is<'s>(r: Result<Option<Value<'s>>, MerdeError<'s>>, o: FeedOutcome) -> bool {
    match o {
        FeedOutcome::Pending(_) => r matches Ok(None),
        FeedOutcome::Done(v) => r matches Ok(Some(x)) && x@ == v,
        FeedOutcome::Unexpected(got, exp) => r matches Err(MerdeError::UnexpectedEvent { got: g, expected: x, help: h })
            && g == got && x@ == exp && h is None,
    }
}

/// Whether `after` is the builder's state after the outcome `o` in state
/// `before`: an unexpected event changes nothing.
pub open spec fn feed_state_is(after: Seq<FrameModel>, before: Seq<FrameModel>, o: FeedOutcome) -> bool {
    match o {
        FeedOutcome::Pending(st) => after == st,
        FeedOutcome::Done(_) => after.len() == 0,
        FeedOutcome::Unexpected(..) => after == before,
    }
}

fn unexpected_error<'s>(got: EventType, list: &[EventType]) -> (r: MerdeError<'s>)
    ensures
        r matches MerdeError::UnexpectedEvent { got: g, expected: x, help: h } && g == got && x@ == list@ && h is None,
{
    let mut v: Vec<EventType> = Vec::new();
    let mut i: usize = 0;
    while i < list.len()
        invariant
            i <= list@.len(),
            v@ == list@.take(i as int),
        decreases list@.len() - i,
    {
        v.push(list[i]);
        i = i + 1;
        proof {
            assert(v@ =~= list@.take(i as int));
        }
    }
    proof {
        assert(list@.take(list@.len() as int) =~= list@);
    }
    MerdeError::UnexpectedEvent { got, expected: v, help: None }
}

impl<'s> ValueBuilder<'s> {
    /// The builder is consistent (see `frames_wf`).
    pub closed spec fn wf(&self) -> bool {
        frames_wf(self@)
    }

    /// A builder that waits for the first event of a value.
    pub fn new() -> (r: Self)
        ensures
            r@ == Seq::<FrameModel>::empty(),
            r.wf(),
    {
        let r = ValueBuilder { stack: Vec::new() };
        proof {
            assert(r@ =~= Seq::<FrameModel>::empty());
        }
        r
    }

    /// Whether no value is being built.
    pub fn is_idle(&self) -> (r: bool)
        ensures
            r == (self@.len() == 0),
    {
        self.stack.len() == 0
    }

    /// Puts a finished value where it belongs.
    fn complete(&mut self, v: Value<'s>) -> (r: Option<Value<'s>>)
        requires
            frames_wf(old(self)@),
            old(self)@.len() > 0 ==> waits_for_value(old(self)@.last()),
        ensures
            frames_wf(final(self)@),
            match complete(old(self)@, v@) {
                FeedOutcome::Pending(st) => r is None && final(self)@ == st,
                FeedOutcome::Done(m) => r matches Some(x) && x@ == m && final(self)@.len() == 0,
                _ => false,
            },
    {
        let ghost before = self.stack@;
        let top = self.stack.pop();
        proof {
            if before.len() > 0 {
                assert(self@ =~= old(self)@.drop_last());
                assert(before.last()@ == old(self)@.last());
            }
        }
        match top {
            None => Some(v),
            Some(Frame::Array(mut a)) => {
                a.push(v);
                self.stack.push(Frame::Array(a));
                proof {
                    assert(self@ =~= old(self)@.drop_last().push(FrameModel::Array(a@)));
                }
                None
            },
            Some(Frame::Mapping(mut m, Some(k))) => {
                let _ = m.insert(k, v);
                self.stack.push(Frame::Mapping(m, None));
                proof {
                    assert(self@ =~= old(self)@.drop_last().push(FrameModel::Mapping(m@, None)));
                }
                None
            },
            Some(Frame::Mapping(m, None)) => {
                self.stack.push(Frame::Mapping(m, None));
                proof {
                    assert(self@ =~= old(self)@);
                }
                None
            },
        }
    }

    /// Handles an event where a value starts.
    fn start_value(&mut self, ev: Event<'s>) -> (r: Result<Option<Value<'s>>, MerdeError<'s>>)
        requires
            frames_wf(old(self)@),
            old(self)@.len() > 0 ==> waits_for_value(old(self)@.last()),
        ensures
            frames_wf(final(self)@),
            feed_result_is(r, start_value(old(self)@, ev@)),
            feed_state_is(final(self)@, old(self)@, start_value(old(self)@, ev@)),
    {
        let t = ev.event_type();
        let ghost before = self.stack@;
        match ev {
            Event::I64(i) => {
                let v = Value::I64(i);
                proof { crate::value::lemma_value_model(&v); }
                Ok(self.complete(v))
            },
            Event::U64(u) => {
                let v = Value::U64(u);
                proof { crate::value::lemma_value_model(&v); }
                Ok(self.complete(v))
            },
            Event::F64(f) => {
                let v = Value::Float(f);
                proof { crate::value::lemma_value_model(&v); }
                Ok(self.complete(v))
            },
            Event::Str(s) => {
                let v = Value::Str(s);
                proof { crate::value::lemma_value_model(&v); }
                Ok(self.complete(v))
            },
            Event::Bytes(b) => {
                let v = Value::Bytes(b);
                proof { crate::value::lemma_value_model(&v); }
                Ok(self.complete(v))
            },
            Event::Bool(b) => {
                let v = Value::Bool(b);
                proof { crate::value::lemma_value_model(&v); }
                Ok(self.complete(v))
            },
            Event::Null => {
                let v = Value::Null;
                proof { crate::value::lemma_value_model(&v); }
                Ok(self.complete(v))
            },
            Event::MapStart(ms) => {
                let m = match ms.size_hint {
                    Some(n) => Mapping::with_capacity(n),
                    None => Mapping::new(),
                };
                self.stack.push(Frame::Mapping(m, None));
                proof {
                    assert(self@ =~= old(self)@.push(FrameModel::Mapping(Map::empty(), None)));
                }
                Ok(None)
            },
            Event::ArrayStart(_) => {
                let a = Array::new();
                self.stack.push(Frame::Array(a));
                proof {
                    assert(self@ =~= old(self)@.push(FrameModel::Array(Seq::empty())));
                }
                Ok(None)
            },
            _ => {
                let list = [
                    EventType::I64,
                    EventType::U64,
                    EventType::Float,
                    EventType::Str,
                    EventType::Bytes,
                    EventType::Bool,
                    EventType::Null,
                    EventType::MapStart,
                    EventType::ArrayStart,
                ];
                proof {
                    assert(list@ =~= value_start_types());
                }
                Err(unexpected_error(t, &list))
            },
        }
    }

    /// Feeds one event: returns the value once its last event has come.
    pub fn feed(&mut self, ev: Event<'s>) -> (r: Result<Option<Value<'s>>, MerdeError<'s>>)
        requires
            old(self).wf(),
        ensures
            final(self).wf(),
            feed_result_is(r, spec_feed(old(self)@, ev@)),
            feed_state_is(final(self)@, old(self)@, spec_feed(old(self)@, ev@)),
    {
        let n = self.stack.len();
        if n == 0 {
            return self.start_value(ev);
        }
        let t = ev.event_type();
        let ghost before = self.stack@;
        let top = self.stack.pop();
        proof {
            assert(self@ =~= old(self)@.drop_last());
            assert(before.last()@ == old(self)@.last());
        }
        match top {
            Some(Frame::Array(a)) => match ev {
                Event::ArrayEnd => {
                    let v = Value::Array(a);
                    proof { crate::value::lemma_value_model(&v); }
                    Ok(self.complete(v))
                },
                other => {
                    self.stack.push(Frame::Array(a));
                    proof {
                        assert(self@ =~= old(self)@);
                    }
                    self.start_value(other)
                },
            },
            Some(Frame::Mapping(m, None)) => match ev {
                Event::MapEnd => {
                    let v = Value::Mapping(m);
                    proof { crate::value::lemma_value_model(&v); }
                    Ok(self.complete(v))
                },
                Event::Str(k) => {
                    self.stack.push(Frame::Mapping(m, Some(k)));
                    proof {
                        assert(self@ =~= old(self)@.drop_last().push(FrameModel::Mapping(m@, Some(k@))));
                    }
                    Ok(None)
                },
                _ => {
                    self.stack.push(Frame::Mapping(m, None));
                    proof {
                        assert(self@ =~= old(self)@);
                    }
                    let list = [EventType::Str, EventType::MapEnd];
                    proof {
                        assert(list@ =~= seq![EventType::Str, EventType::MapEnd]);
                    }
                    Err(unexpected_error(t, &list))
                },
            },
            Some(Frame::Mapping(m, Some(k))) => {
                self.stack.push(Frame::Mapping(m, Some(k)));
                proof {
                    assert(self@ =~= old(self)@);
                }
                self.start_value(ev)
            },
            None => self.start_value(ev),
        }
    }
}

} // verus!
