//! A wrapper for date-time types, which are written as RFC 3339 strings.

use vstd::prelude::*;
use vstd::std_specs::convert::FromSpecImpl;

verus! {

/// A wrapper around a date-time type, for formats to write it as an RFC 3339
/// string.
#[derive(Debug, Clone, Copy, PartialEq, Eq, PartialOrd, Ord, Hash)]
pub struct Rfc3339<T>(pub T);

impl<T> From<T> for Rfc3339<T> {
    fn from(t: T) -> (r: Self) {
        Rfc3339(t)
    }
}

impl<T> FromSpecImpl<T> for Rfc3339<T> {
    open spec fn obeys_from_spec() -> bool {
        true
    }

    open spec fn from_spec(t: T) -> Self {
        Rfc3339(t)
    }
}

impl<T> Rfc3339<T> {
    /// The wrapped value.
    pub fn into_inner(self) -> (r: T)
        ensures
            r == self.0,
    {
        self.0
    }
}

} // verus!
