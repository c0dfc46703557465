//! Copy-on-write strings and byte buffers.

use std::str::Utf8Error;
use vstd::prelude::*;
use vstd::std_specs::cmp::PartialEqSpecImpl;
use vstd::std_specs::convert::FromSpecImpl;

verus! {

#[verifier::external_type_specification]
#[verifier::external_body]
pub struct ExUtf8Error(Utf8Error);

/// Whether the bytes are well-formed UTF-8, and if so the text they encode.
pub open spec fn utf8_text(bytes: Seq<u8>) -> Option<Seq<char>> {
    if vstd::utf8::valid_utf8(bytes) {
        Some(vstd::utf8::decode_utf8(bytes))
    } else {
        None
    }
}

/// `std::str::from_utf8`: succeeds exactly on well-formed UTF-8, and then
/// the text is the decoding of the bytes.
#[verifier::external_body]
pub(crate) fn str_from_utf8<'a>(bytes: &'a [u8]) -> (r: Result<&'a str, Utf8Error>)
    ensures
        r is Ok <==> vstd::utf8::valid_utf8(bytes@),
        r matches Ok(s) ==> s@ == vstd::utf8::decode_utf8(bytes@),
{
    std::str::from_utf8(bytes)
}

/// `String::from_utf8`: succeeds exactly on well-formed UTF-8, and then
/// the string holds the decoding of the bytes.
#[verifier::external_body]
fn string_from_utf8(bytes: Vec<u8>) -> (r: Result<String, Utf8Error>)
    ensures
        r is Ok <==> vstd::utf8::valid_utf8(bytes@),
        r matches Ok(s) ==> s@ == vstd::utf8::decode_utf8(bytes@),
{
    String::from_utf8(bytes).map_err(|e| e.utf8_error())
}

/// The text that `String::from_utf8_lossy` makes of some bytes: their
/// decoding, with each ill-formed sequence replaced by U+FFFD.
pub uninterp spec fn utf8_lossy_text(bytes: Seq<u8>) -> Seq<char>;

/// `String::from_utf8_lossy`: borrows the bytes exactly when they are
/// well-formed UTF-8, and then the text is their decoding; otherwise it is an
/// owned string holding the lossy text.
#[verifier::external_body]
fn string_from_utf8_lossy<'a>(bytes: &'a [u8]) -> (r: CowStr<'a>)
    ensures
        r is Borrowed <==> vstd::utf8::valid_utf8(bytes@),
        r@ == utf8_lossy_text(bytes@),
        vstd::utf8::valid_utf8(bytes@) ==> r@ == vstd::utf8::decode_utf8(bytes@),
{
    match String::from_utf8_lossy(bytes) {
        std::borrow::Cow::Borrowed(s) => CowStr::Borrowed(s),
        std::borrow::Cow::Owned(s) => CowStr::Owned(s),
    }
}

/// Byte-wise equality of two slices.
pub(crate) fn bytes_eq(a: &[u8], b: &[u8]) -> (r: bool)
    ensures
        r == (a@ == b@),
{
    if a.len() != b.len() {
        return false;
    }
    let mut i: usize = 0;
    while i < a.len()
        invariant
            a@.len() == b@.len(),
            i <= a@.len(),
            forall|j: int| 0 <= j < i ==> a@[j] == b@[j],
        decreases a@.len() - i,
    {
        if a[i] != b[i] {
            return false;
        }
        i = i + 1;
    }
    assert(a@ =~= b@);
    true
}

/// Equality of two string slices, by their characters.
pub(crate) fn str_eq(a: &str, b: &str) -> (r: bool)
    ensures
        r == (a@ == b@),
{
    proof {
        vstd::utf8::encode_utf8_decode_utf8(a@);
        vstd::utf8::encode_utf8_decode_utf8(b@);
    }
    bytes_eq(a.as_bytes(), b.as_bytes())
}

/// A copy-on-write string: either borrowed from the input, or owned.
#[derive(Debug, Clone)]
pub enum CowStr<'s> {
    Borrowed(&'s str),
    Owned(String),
}

impl<'s> View for CowStr<'s> {
    type V = Seq<char>;

    open spec fn view(&self) -> Seq<char> {
        match self {
            CowStr::Borrowed(s) => s@,
            CowStr::Owned(s) => s@,
        }
    }
}

impl CowStr<'static> {
    /// Creates an owned string by copying `s`.
    pub fn copy_from_str(s: &str) -> (r: Self)
        ensures
            r@ == s@,
            r is Owned,
    {
        CowStr::Owned(s.to_owned())
    }
}

impl<'s> CowStr<'s> {
    /// The bytes as text: borrowed when they are well-formed UTF-8;
    /// otherwise an owned copy in which each ill-formed sequence is replaced
    /// by U+FFFD.
    pub fn from_utf8_lossy(s: &'s [u8]) -> (r: Self)
        ensures
            r is Borrowed <==> vstd::utf8::valid_utf8(s@),
            vstd::utf8::valid_utf8(s@) ==> r@ == vstd::utf8::decode_utf8(s@),
            r@ == utf8_lossy_text(s@),
    {
        string_from_utf8_lossy(s)
    }

    /// Borrows the string, which must be well-formed UTF-8.
    pub fn from_utf8(s: &'s [u8]) -> (r: Result<Self, Utf8Error>)
        ensures
            r is Ok <==> vstd::utf8::valid_utf8(s@),
            r matches Ok(c) ==> c is Borrowed && c@ == vstd::utf8::decode_utf8(s@),
    {
        match str_from_utf8(s) {
            Ok(text) => Ok(CowStr::Borrowed(text)),
            Err(e) => Err(e),
        }
    }

    /// Takes ownership of the bytes, which must be well-formed UTF-8.
    pub fn from_utf8_owned(s: Vec<u8>) -> (r: Result<Self, Utf8Error>)
        ensures
            r is Ok <==> vstd::utf8::valid_utf8(s@),
            r matches Ok(c) ==> c is Owned && c@ == vstd::utf8::decode_utf8(s@),
    {
        match string_from_utf8(s) {
            Ok(text) => Ok(CowStr::Owned(text)),
            Err(e) => Err(e),
        }
    }

    /// The text of the string.
    pub fn as_str(&self) -> (r: &str)
        ensures
            r@ == self@,
    {
        match self {
            CowStr::Borrowed(s) => s,
            CowStr::Owned(s) => s.as_str(),
        }
    }

    /// Turns the string into one that owns its text.
    pub fn into_static(self) -> (r: CowStr<'static>)
        ensures
            r@ == self@,
            r is Owned,
    {
        match self {
            CowStr::Borrowed(s) => CowStr::Owned(s.to_owned()),
            CowStr::Owned(s) => CowStr::Owned(s),
        }
    }

    /// Turns the string into a `String`.
    pub fn into_string(self) -> (r: String)
        ensures
            r@ == self@,
    {
        match self {
            CowStr::Borrowed(s) => s.to_owned(),
            CowStr::Owned(s) => s,
        }
    }

    /// A copy of the string with the same borrowing.
    pub fn duplicate(&self) -> (r: Self)
        ensures
            r@ == self@,
            r is Borrowed <==> self is Borrowed,
    {
        match self {
            CowStr::Borrowed(s) => CowStr::Borrowed(s),
            CowStr::Owned(s) => CowStr::Owned(s.clone()),
        }
    }
}

impl<'a, 'b> PartialEq<CowStr<'a>> for CowStr<'b> {
    fn eq(&self, other: &CowStr<'a>) -> (r: bool) {
        str_eq(self.as_str(), other.as_str())
    }
}

impl<'a, 'b> PartialEqSpecImpl<CowStr<'a>> for CowStr<'b> {
    open spec fn obeys_eq_spec() -> bool {
        true
    }

    open spec fn eq_spec(&self, other: &CowStr<'a>) -> bool {
        self@ == other@
    }
}

impl<'a, 'b> PartialEq<&'a str> for CowStr<'b> {
    fn eq(&self, other: &&'a str) -> (r: bool) {
        str_eq(self.as_str(), *other)
    }
}

impl<'a, 'b> PartialEqSpecImpl<&'a str> for CowStr<'b> {
    open spec fn obeys_eq_spec() -> bool {
        true
    }

    open spec fn eq_spec(&self, other: &&'a str) -> bool {
        self@ == (*other)@
    }
}

impl<'a, 'b> PartialEq<CowStr<'a>> for &'b str {
    fn eq(&self, other: &CowStr<'a>) -> (r: bool) {
        str_eq(*self, other.as_str())
    }
}

impl<'a, 'b> PartialEqSpecImpl<CowStr<'a>> for &'b str {
    open spec fn obeys_eq_spec() -> bool {
        true
    }

    open spec fn eq_spec(&self, other: &CowStr<'a>) -> bool {
        (*self)@ == other@
    }
}

impl<'s> Eq for CowStr<'s> {}

impl<'s> From<&'s str> for CowStr<'s> {
    fn from(s: &'s str) -> (r: Self) {
        CowStr::Borrowed(s)
    }
}

impl<'s> FromSpecImpl<&'s str> for CowStr<'s> {
    open spec fn obeys_from_spec() -> bool {
        true
    }

    open spec fn from_spec(s: &'s str) -> Self {
        CowStr::Borrowed(s)
    }
}

impl<'s> From<String> for CowStr<'s> {
    fn from(s: String) -> (r: Self) {
        CowStr::Owned(s)
    }
}

impl<'s> FromSpecImpl<String> for CowStr<'s> {
    open spec fn obeys_from_spec() -> bool {
        true
    }

    open spec fn from_spec(s: String) -> Self {
        CowStr::Owned(s)
    }
}

} // verus!
