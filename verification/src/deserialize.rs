//! Helpers for deserializing structs: slots for their fields, and opinions
//! on what to do with unknown or missing fields.

use vstd::prelude::*;
use crate::cowstr::CowStr;

verus! {

/// A value that can fill a slot of type `T`: only a `T` itself.
pub trait SlotValue<T>: Sized {
    /// The value the slot receives.
    spec fn slot_value(self) -> T;

    /// Turns the value into what the slot receives.
    fn into_slot_value(self) -> (r: T)
        ensures
            r == self.slot_value(),
    ;
}

impl<T> SlotValue<T> for T {
    open spec fn slot_value(self) -> T {
        self
    }

    fn into_slot_value(self) -> (r: T) {
        self
    }
}

/// Allows filling in a field of a struct while deserializing: a slot
/// borrows the field's `Option`.
pub struct FieldSlot<'borrow, T> {
    pub option: &'borrow mut Option<T>,
}

impl<'borrow, T> FieldSlot<'borrow, T> {
    /// A slot for the field `option`, ready to be filled. Dropping the slot
    /// leaves the field as it was.
    pub fn new(option: &'borrow mut Option<T>) -> (r: Self)
        ensures
            *r.option == *old(option),
            *final(option) == *final(r.option),
    {
        FieldSlot { option }
    }

    /// Fills the field with `value`.
    pub fn fill<V: SlotValue<T>>(self, value: V)
        ensures
            *final(self.option) == Some(value.slot_value()),
    {
        *self.option = Some(value.into_slot_value());
    }
}

/// Opinions about deserialization: should unknown fields be allowed, etc.
///
/// These are opinions for a specific type, not for the whole
/// deserialization tree.
pub trait DeserOpinions {
    /// Should `{ a: 1, b: 2 }` be rejected when encountering `b`, if we are
    /// deserializing a struct with only a field `a`?
    fn deny_unknown_fields(&self) -> bool;

    /// The name of the field that a key found in the document stands for.
    fn map_key_name<'s>(&self, key: CowStr<'s>) -> CowStr<'s>;

    /// Called with the name of a field that the document did not set: may
    /// fill it with a default value.
    fn default_field_value<'borrow, T>(&self, key: &str, slot: FieldSlot<'borrow, T>);
}

/// The default opinions: allow unknown fields, don't fill in default values,
/// and keep key names as they are.
#[derive(Debug, Clone, Copy, Default)]
pub struct DefaultDeserOpinions;

impl DeserOpinions for DefaultDeserOpinions {
    fn deny_unknown_fields(&self) -> (r: bool)
        ensures
            !r,
    {
        false
    }

    fn map_key_name<'s>(&self, key: CowStr<'s>) -> (r: CowStr<'s>)
        ensures
            r == key,
    {
        key
    }

    fn default_field_value<'borrow, T>(&self, key: &str, slot: FieldSlot<'borrow, T>)
        ensures
            *final(slot.option) == *old(slot.option),
    {
    }
}

/// `None`, of the type that the closure `_f` returns (which is never called):
/// a way to name a field's type when deserializing structs.
pub fn none_of<I, T, F: FnOnce(I) -> T>(_f: F) -> (r: Option<T>)
    ensures
        r is None,
{
    None
}

} // verus!
