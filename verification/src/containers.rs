//! The decisions of deserializing containers of items of any type (a
//! sequence such as a `Vec`, a map such as a `HashMap`, an `Option`): which
//! event starts the container, which starts an item, which ends it. The
//! items themselves are read by their own type's deserializer.

use vstd::prelude::*;
use crate::error::{EventType, MerdeError};
use crate::event::{is_unexpected_error, Event};

verus! {

/// What to do after an event, in a sequence or a map.
#[derive(Debug)]
pub enum Step<'s> {
    /// The container started, announcing this many items, if it says.
    Started(Option<usize>),
    /// This event is the first of the next item (in a map, of the next
    /// key): the item's deserializer reads it, starting with this event.
    Item(Event<'s>),
    /// The container ended.
    Done,
}

/// Where a reader of a sequence stands: before its start, or among its items.
#[derive(Debug, Clone, Copy, PartialEq, Eq, Structural)]
pub enum SeqReader {
    Start,
    Items,
}

impl SeqReader {
    /// A reader before the sequence's start.
    pub fn new() -> (r: Self)
        ensures
            r == SeqReader::Start,
    {
        SeqReader::Start
    }

    /// Takes the next event: first an array start, then items up to an
    /// array end.
    pub fn feed<'s>(&mut self, ev: Event<'s>) -> (r: Result<Step<'s>, MerdeError<'static>>)
        ensures
            *old(self) == SeqReader::Start ==> match ev {
                Event::ArrayStart(a) => (r matches Ok(Step::Started(h)) && h == a.size_hint)
                    && *final(self) == SeqReader::Items,
                _ => r is Err && is_unexpected_error(r->Err_0, &ev, EventType::ArrayStart)
                    && *final(self) == SeqReader::Start,
            },
            *old(self) == SeqReader::Items ==> *final(self) == SeqReader::Items && match ev {
                Event::ArrayEnd => r matches Ok(Step::Done),
                _ => r matches Ok(Step::Item(e)) && e == ev,
            },
    {
        match *self {
            SeqReader::Start => {
                match ev.into_array_start() {
                    Ok(a) => {
                        *self = SeqReader::Items;
                        Ok(Step::Started(a.size_hint))
                    },
                    Err(e) => Err(e),
                }
            },
            SeqReader::Items => match ev {
                Event::ArrayEnd => Ok(Step::Done),
                ev => Ok(Step::Item(ev)),
            },
        }
    }
}

/// Where a reader of a map stands: before its start, or among its entries.
#[derive(Debug, Clone, Copy, PartialEq, Eq, Structural)]
pub enum MapReader {
    Start,
    Entries,
}

impl MapReader {
    /// A reader before the map's start.
    pub fn new() -> (r: Self)
        ensures
            r == MapReader::Start,
    {
        MapReader::Start
    }

    /// Takes the next event where a key may stand: first a map start, then
    /// the first event of each key up to a map end. (Each key's value is read
    /// after its key, by the value's deserializer.)
    pub fn feed<'s>(&mut self, ev: Event<'s>) -> (r: Result<Step<'s>, MerdeError<'static>>)
        ensures
            *old(self) == MapReader::Start ==> match ev {
                Event::MapStart(m) => (r matches Ok(Step::Started(h)) && h == m.size_hint)
                    && *final(self) == MapReader::Entries,
                _ => r is Err && is_unexpected_error(r->Err_0, &ev, EventType::MapStart)
                    && *final(self) == MapReader::Start,
            },
            *old(self) == MapReader::Entries ==> *final(self) == MapReader::Entries && match ev {
                Event::MapEnd => r matches Ok(Step::Done),
                _ => r matches Ok(Step::Item(e)) && e == ev,
            },
    {
        match *self {
            MapReader::Start => match ev.into_map_start() {
                Ok(m) => {
                    *self = MapReader::Entries;
                    Ok(Step::Started(m.size_hint))
                },
                Err(e) => Err(e),
            },
            MapReader::Entries => match ev {
                Event::MapEnd => Ok(Step::Done),
                ev => Ok(Step::Item(ev)),
            },
        }
    }
}

/// An optional value from its first event: `null` is no value (`None`);
/// any other event is the first of the value, which its deserializer reads
/// starting with that event (`Some` of it).
pub fn option_step<'s>(ev: Event<'s>) -> (r: Option<Event<'s>>)
    ensures
        ev is Null ==> r is None,
        !(ev is Null) ==> r == Some(ev),
{
    match ev {
        Event::Null => None,
        ev => Some(ev),
    }
}

} // verus!
