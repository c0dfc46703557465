//! Lifetimes: turning borrowed values into owned ones, naming a type at
//! another lifetime, and a marker for a lifetime.

use std::marker::PhantomData;
use vstd::prelude::*;
use crate::cowbytes::CowBytes;
use crate::cowstr::CowStr;
use crate::error::{same_error, MerdeError};
use crate::event::Event;
use crate::value::{Array, Mapping, Value};

verus! {

/// Turning a value into an owned variant, which can then be returned, moved,
/// etc. This usually allocates buffers for the strings it borrows.
pub trait IntoStatic: Sized {
    /// The owned variant of the type.
    type Output;

    /// Turns the value into its owned variant.
    fn into_static(self) -> Self::Output;
}

impl<'s> IntoStatic for CowStr<'s> {
    type Output = CowStr<'static>;

    fn into_static(self) -> (r: CowStr<'static>)
        ensures
            r@ == self@,
    {
        CowStr::into_static(self)
    }
}

impl<'s> IntoStatic for CowBytes<'s> {
    type Output = CowBytes<'static>;

    fn into_static(self) -> (r: CowBytes<'static>)
        ensures
            r@ == self@,
    {
        CowBytes::into_static(self)
    }
}

impl<'s> IntoStatic for Event<'s> {
    type Output = Event<'static>;

    fn into_static(self) -> (r: Event<'static>)
        ensures
            r@ == self@,
    {
        Event::into_static(self)
    }
}

impl<'s> IntoStatic for Value<'s> {
    type Output = Value<'static>;

    fn into_static(self) -> (r: Value<'static>)
        ensures
            r@ == self@,
    {
        Value::into_static(self)
    }
}

impl<'s> IntoStatic for Array<'s> {
    type Output = Array<'static>;

    fn into_static(self) -> (r: Array<'static>)
        ensures
            r@ == self@,
    {
        Array::into_static(self)
    }
}

impl<'s> IntoStatic for Mapping<'s> {
    type Output = Mapping<'static>;

    fn into_static(self) -> (r: Mapping<'static>)
        ensures
            r@ == self@,
    {
        Mapping::into_static(self)
    }
}

impl<'s> IntoStatic for MerdeError<'s> {
    type Output = MerdeError<'static>;

    fn into_static(self) -> (r: MerdeError<'static>)
        ensures
            same_error(&self, &r),
    {
        MerdeError::into_static(self)
    }
}

/// A type at another lifetime: for `CowStr<'a>`, `CowStr<'s>`.
pub trait WithLifetime<'s> {
    /// The type at lifetime `'s`.
    type Lifetimed;
}

impl<'a, 's> WithLifetime<'s> for CowStr<'a> {
    type Lifetimed = CowStr<'s>;
}

impl<'a, 's> WithLifetime<'s> for CowBytes<'a> {
    type Lifetimed = CowBytes<'s>;
}

impl<'a, 's> WithLifetime<'s> for Value<'a> {
    type Lifetimed = Value<'s>;
}

impl<'a, 's> WithLifetime<'s> for Array<'a> {
    type Lifetimed = Array<'s>;
}

impl<'a, 's> WithLifetime<'s> for Mapping<'a> {
    type Lifetimed = Mapping<'s>;
}

/// A marker for a lifetime, to use in place of `PhantomData`.
#[derive(Default, Clone, Copy, PartialEq, Eq, Hash, PartialOrd, Ord)]
pub struct Fantome<'s> {
    _boo: PhantomData<&'s ()>,
}

impl<'s> Fantome<'s> {
    /// A marker.
    pub fn new() -> (r: Self) {
        Fantome { _boo: PhantomData }
    }

    /// How the marker shows itself when debugging.
    pub fn debug_text(&self) -> (r: &'static str)
        ensures
            r@ == "Boo!"@,
    {
        proof {
            reveal_strlit("Boo!");
        }
        "Boo!"
    }
}

} // verus!
