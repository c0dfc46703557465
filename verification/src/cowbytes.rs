//! Copy-on-write byte buffers.

use vstd::prelude::*;
use vstd::std_specs::cmp::PartialEqSpecImpl;
use vstd::std_specs::convert::FromSpecImpl;
use crate::cowstr::bytes_eq;

verus! {

/// A copy-on-write byte buffer: either borrowed from the input, or owned.
#[derive(Debug, Clone)]
pub enum CowBytes<'a> {
    Borrowed(&'a [u8]),
    Owned(Vec<u8>),
}

impl<'a> View for CowBytes<'a> {
    type V = Seq<u8>;

    open spec fn view(&self) -> Seq<u8> {
        match self {
            CowBytes::Borrowed(b) => b@,
            CowBytes::Owned(b) => b@,
        }
    }
}

impl<'a> CowBytes<'a> {
    /// Borrows the given bytes.
    pub fn new(bytes: &'a [u8]) -> (r: Self)
        ensures
            r@ == bytes@,
            r is Borrowed,
    {
        CowBytes::Borrowed(bytes)
    }

    /// Copies the bytes into a vector.
    pub fn into_owned(self) -> (r: Vec<u8>)
        ensures
            r@ == self@,
    {
        match self {
            CowBytes::Borrowed(b) => vstd::slice::slice_to_vec(b),
            CowBytes::Owned(b) => b,
        }
    }

    /// The bytes.
    pub fn as_slice(&self) -> (r: &[u8])
        ensures
            r@ == self@,
    {
        match self {
            CowBytes::Borrowed(b) => b,
            CowBytes::Owned(b) => b.as_slice(),
        }
    }

    /// Turns the buffer into one that owns its bytes.
    pub fn into_static(self) -> (r: CowBytes<'static>)
        ensures
            r@ == self@,
            r is Owned,
    {
        match self {
            CowBytes::Borrowed(b) => CowBytes::Owned(vstd::slice::slice_to_vec(b)),
            CowBytes::Owned(b) => CowBytes::Owned(b),
        }
    }

    /// A copy of the buffer: borrowed bytes stay borrowed.
    pub fn duplicate(&self) -> (r: Self)
        ensures
            r@ == self@,
            r is Borrowed <==> self is Borrowed,
    {
        match self {
            CowBytes::Borrowed(b) => CowBytes::Borrowed(b),
            CowBytes::Owned(b) => CowBytes::Owned(b.clone()),
        }
    }

    /// The number of bytes.
    pub fn len(&self) -> (r: usize)
        ensures
            r == self@.len(),
    {
        self.as_slice().len()
    }
}

impl<'a, 'b> PartialEq<CowBytes<'a>> for CowBytes<'b> {
    fn eq(&self, other: &CowBytes<'a>) -> (r: bool) {
        bytes_eq(self.as_slice(), other.as_slice())
    }
}

impl<'a, 'b> PartialEqSpecImpl<CowBytes<'a>> for CowBytes<'b> {
    open spec fn obeys_eq_spec() -> bool {
        true
    }

    open spec fn eq_spec(&self, other: &CowBytes<'a>) -> bool {
        self@ == other@
    }
}

impl<'a, 'b> PartialEq<&'a [u8]> for CowBytes<'b> {
    fn eq(&self, other: &&'a [u8]) -> (r: bool) {
        bytes_eq(self.as_slice(), *other)
    }
}

impl<'a, 'b> PartialEqSpecImpl<&'a [u8]> for CowBytes<'b> {
    open spec fn obeys_eq_spec() -> bool {
        true
    }

    open spec fn eq_spec(&self, other: &&'a [u8]) -> bool {
        self@ == (*other)@
    }
}

impl<'a> Eq for CowBytes<'a> {}

impl<'a> From<&'a [u8]> for CowBytes<'a> {
    fn from(b: &'a [u8]) -> (r: Self) {
        CowBytes::Borrowed(b)
    }
}

impl<'a> FromSpecImpl<&'a [u8]> for CowBytes<'a> {
    open spec fn obeys_from_spec() -> bool {
        true
    }

    open spec fn from_spec(b: &'a [u8]) -> Self {
        CowBytes::Borrowed(b)
    }
}

impl<'a> From<Vec<u8>> for CowBytes<'a> {
    fn from(v: Vec<u8>) -> (r: Self) {
        CowBytes::Owned(v)
    }
}

impl<'a> FromSpecImpl<Vec<u8>> for CowBytes<'a> {
    open spec fn obeys_from_spec() -> bool {
        true
    }

    open spec fn from_spec(v: Vec<u8>) -> Self {
        CowBytes::Owned(v)
    }
}

} // verus!
