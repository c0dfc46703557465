//! The JSON tokenizer: whitespace, literals, and the structure of arrays and objects.

use vstd::prelude::*;
use crate::cowstr::CowStr;
use crate::json::errors::{json_error, JsonError, JsonErrorType};
use crate::json::number::{err_at, spec_number_range, NumberRange};
use crate::json::string::{decode_string, plain_string, spec_string, string_end, string_result_is};

verus! {

/// Matching the bytes `rest[k..]` from `i`: where the match ends, or the
/// error at the first byte that differs or is missing.
pub open spec fn ident_end(data: Seq<u8>, i: int, rest: Seq<u8>, k: int) -> Result<int, JsonError>
    decreases rest.len() - k,
{
    if k >= rest.len() {
        Ok(i)
    } else if 0 <= i < data.len() && data[i] == rest[k] {
        ident_end(data, i + 1, rest, k + 1)
    } else if 0 <= i < data.len() {
        Err(JsonError { error_type: JsonErrorType::ExpectedSomeIdent, index: i as usize })
    } else {
        Err(JsonError { error_type: JsonErrorType::EofWhileParsingValue, index: i as usize })
    }
}

/// Where consuming the identifier whose first byte is at `index` and whose
/// remaining bytes are `rest` ends, or the error.
pub open spec fn spec_consume_ident(data: Seq<u8>, index: int, rest: Seq<u8>) -> Result<int, JsonError> {
    ident_end(data, index + 1, rest, 0)
}

/// Consumes an identifier (`true`, `null`, ...) whose first byte, at `index`,
/// is already known; `rest` holds its remaining bytes.
pub fn consume_ident(data: &[u8], index: usize, rest: &[u8]) -> (r: Result<usize, JsonError>)
    requires
        index <= data@.len() < usize::MAX,
        0 < rest@.len() < 16,
    ensures
        r matches Ok(end) ==> spec_consume_ident(data@, index as int, rest@) == Ok::<int, JsonError>(end as int),
        r matches Ok(end) ==> end <= data@.len(),
        r matches Err(e) ==> spec_consume_ident(data@, index as int, rest@) == Err::<int, JsonError>(e),
{
    assert(data@.len() == data.len());
    let mut i: usize = index + 1;
    let mut k: usize = 0;
    while k < rest.len()
        invariant
            i == index + 1 + k,
            k <= rest@.len() < 16,
            0 < rest@.len(),
            k > 0 ==> i <= data@.len(),
            index <= data@.len() < usize::MAX,
            data@.len() == data.len(),
            rest@.len() == rest.len(),
            spec_consume_ident(data@, index as int, rest@) == ident_end(data@, i as int, rest@, k as int),
        decreases rest@.len() - k,
    {
        if i < data.len() && data[i] == rest[k] {
            i = i + 1;
            k = k + 1;
        } else if i < data.len() {
            return Err(json_error(JsonErrorType::ExpectedSomeIdent, i));
        } else {
            return Err(json_error(JsonErrorType::EofWhileParsingValue, i));
        }
    }
    Ok(i)
}

/// Consumes `Infinity`, whose `I` is at `index`.
pub fn consume_infinity(data: &[u8], index: usize) -> (r: Result<usize, JsonError>)
    requires
        index < data@.len() < usize::MAX,
    ensures
        r matches Ok(end) ==> end <= data@.len(),
        r matches Ok(end) ==> spec_consume_ident(data@, index as int, "nfinity"@.map_values(|c: char| c as u8)) == Ok::<int, JsonError>(end as int),
        r matches Err(e) ==> spec_consume_ident(data@, index as int, "nfinity"@.map_values(|c: char| c as u8)) == Err::<int, JsonError>(e),
{
    let rest: [u8; 7] = [110, 102, 105, 110, 105, 116, 121];
    proof {
        reveal_strlit("nfinity");
        assert(rest@ =~= "nfinity"@.map_values(|c: char| c as u8));
    }
    consume_ident(data, index, &rest)
}

} // verus!

verus! {

/// The kind of value that a byte announces.
#[derive(Debug, Clone, Copy, PartialEq, Eq, Structural)]
pub enum Peek {
    Null,
    True,
    False,
    Minus,
    Infinity,
    NaN,
    String,
    Array,
    Object,
    /// A decimal digit, or any other byte.
    Other(u8),
}

/// The kind of value announced by the byte `b`.
pub open spec fn peek_of(b: u8) -> Peek {
    if b == 110 {
        Peek::Null
    } else if b == 116 {
        Peek::True
    } else if b == 102 {
        Peek::False
    } else if b == 45 {
        Peek::Minus
    } else if b == 73 {
        Peek::Infinity
    } else if b == 78 {
        Peek::NaN
    } else if b == 34 {
        Peek::String
    } else if b == 91 {
        Peek::Array
    } else if b == 123 {
        Peek::Object
    } else {
        Peek::Other(b)
    }
}

/// The byte that announced a peek.
pub open spec fn peek_byte(p: Peek) -> u8 {
    match p {
        Peek::Null => 110,
        Peek::True => 116,
        Peek::False => 102,
        Peek::Minus => 45,
        Peek::Infinity => 73,
        Peek::NaN => 78,
        Peek::String => 34,
        Peek::Array => 91,
        Peek::Object => 123,
        Peek::Other(b) => b,
    }
}

/// Whether a peek starts a number.
pub open spec fn peek_is_num(p: Peek) -> bool {
    match p {
        Peek::Minus | Peek::Infinity | Peek::NaN => true,
        Peek::Other(b) => 48 <= b <= 57,
        _ => false,
    }
}

impl Peek {
    /// The kind of value announced by the byte `b`.
    pub fn new(b: u8) -> (r: Peek)
        ensures
            r == peek_of(b),
    {
        if b == 110 {
            Peek::Null
        } else if b == 116 {
            Peek::True
        } else if b == 102 {
            Peek::False
        } else if b == 45 {
            Peek::Minus
        } else if b == 73 {
            Peek::Infinity
        } else if b == 78 {
            Peek::NaN
        } else if b == 34 {
            Peek::String
        } else if b == 91 {
            Peek::Array
        } else if b == 123 {
            Peek::Object
        } else {
            Peek::Other(b)
        }
    }

    /// The byte that announced this peek.
    pub fn into_inner(self) -> (r: u8)
        ensures
            r == peek_byte(self),
    {
        match self {
            Peek::Null => 110,
            Peek::True => 116,
            Peek::False => 102,
            Peek::Minus => 45,
            Peek::Infinity => 73,
            Peek::NaN => 78,
            Peek::String => 34,
            Peek::Array => 91,
            Peek::Object => 123,
            Peek::Other(b) => b,
        }
    }

    /// Whether this peek starts a number.
    pub fn is_num(self) -> (r: bool)
        ensures
            r == peek_is_num(self),
    {
        match self {
            Peek::Minus | Peek::Infinity | Peek::NaN => true,
            Peek::Other(b) => 48 <= b && b <= 57,
            _ => false,
        }
    }
}

/// JSON whitespace.
pub open spec fn is_ws(b: u8) -> bool {
    b == 32 || b == 13 || b == 9 || b == 10
}

/// The first index at or after `i` that does not hold whitespace.
pub open spec fn ws_end(data: Seq<u8>, i: int) -> int
    decreases data.len() - i,
{
    if 0 <= i < data.len() && is_ws(data[i]) {
        ws_end(data, i + 1)
    } else {
        i
    }
}

/// The next value after whitespace from `i`: its kind, or the error at the end.
pub open spec fn spec_peek(data: Seq<u8>, i: int) -> Result<(Peek, int), JsonError> {
    let j = ws_end(data, i);
    if j < data.len() {
        Ok((peek_of(data[j]), j))
    } else {
        err_at(JsonErrorType::EofWhileParsingValue, j)
    }
}

/// Just after `[` at `i - 1`: the first item's kind, or `None` for `]`.
pub open spec fn spec_array_first(data: Seq<u8>, i: int) -> Result<(Option<Peek>, int), JsonError> {
    let j = ws_end(data, i);
    if j >= data.len() {
        err_at(JsonErrorType::EofWhileParsingList, j)
    } else if data[j] == 93 {
        Ok((None, j + 1))
    } else {
        Ok((Some(peek_of(data[j])), j))
    }
}

/// After an array item: the next item's kind, or `None` at `]`.
pub open spec fn spec_array_step(data: Seq<u8>, i: int) -> Result<(Option<Peek>, int), JsonError> {
    let j = ws_end(data, i);
    if j >= data.len() {
        err_at(JsonErrorType::EofWhileParsingList, j)
    } else if data[j] == 44 {
        let k = ws_end(data, j + 1);
        if k >= data.len() {
            err_at(JsonErrorType::EofWhileParsingValue, k)
        } else if data[k] == 93 {
            err_at(JsonErrorType::TrailingComma, k)
        } else {
            Ok((Some(peek_of(data[k])), k))
        }
    } else if data[j] == 93 {
        Ok((None, j + 1))
    } else {
        err_at(JsonErrorType::ExpectedListCommaOrEnd, j)
    }
}

/// A key whose opening quote is at `i`, and the colon after it.
pub open spec fn spec_object_key(data: Seq<u8>, i: int) -> Result<(Option<Seq<char>>, int), JsonError> {
    match spec_string(data, i) {
        Err(e) => Err(e),
        Ok((key, end)) => {
            let j = ws_end(data, end);
            if j >= data.len() {
                err_at(JsonErrorType::EofWhileParsingObject, j)
            } else if data[j] == 58 {
                Ok((Some(key), j + 1))
            } else {
                err_at(JsonErrorType::ExpectedColon, j)
            }
        },
    }
}

/// Just after `{` at `i - 1`: the first key, or `None` for `}`.
pub open spec fn spec_object_first(data: Seq<u8>, i: int) -> Result<(Option<Seq<char>>, int), JsonError> {
    let j = ws_end(data, i);
    if j >= data.len() {
        err_at(JsonErrorType::EofWhileParsingObject, j)
    } else if data[j] == 34 {
        spec_object_key(data, j)
    } else if data[j] == 125 {
        Ok((None, j + 1))
    } else {
        err_at(JsonErrorType::KeyMustBeAString, j)
    }
}

/// After an object value: the next key, or `None` at `}`.
pub open spec fn spec_object_step(data: Seq<u8>, i: int) -> Result<(Option<Seq<char>>, int), JsonError> {
    let j = ws_end(data, i);
    if j >= data.len() {
        err_at(JsonErrorType::EofWhileParsingObject, j)
    } else if data[j] == 44 {
        let k = ws_end(data, j + 1);
        if k >= data.len() {
            err_at(JsonErrorType::EofWhileParsingValue, k)
        } else if data[k] == 34 {
            spec_object_key(data, k)
        } else if data[k] == 125 {
            err_at(JsonErrorType::TrailingComma, k)
        } else {
            err_at(JsonErrorType::KeyMustBeAString, k)
        }
    } else if data[j] == 125 {
        Ok((None, j + 1))
    } else {
        err_at(JsonErrorType::ExpectedObjectCommaOrEnd, j)
    }
}

/// Whether a result of exec code equals a result of a spec function, with
/// the index the parser ends at.
pub open spec fn step_result<T, U>(r: Result<T, JsonError>, at: int, s: Result<(U, int), JsonError>, f: spec_fn(T) -> U) -> bool {
    match r {
        Ok(v) => s == Ok::<(U, int), JsonError>((f(v), at)),
        Err(e) => s == Err::<(U, int), JsonError>(e),
    }
}

/// The text of an optional key.
pub open spec fn key_text<'j>(k: Option<CowStr<'j>>) -> Option<Seq<char>> {
    match k {
        Some(s) => Some(s@),
        None => None,
    }
}

/// The tokenizer: the input and a position in it.
#[derive(Debug, Clone)]
pub struct Parser<'j> {
    pub data: &'j [u8],
    pub index: usize,
}

impl<'j> Parser<'j> {
    /// The input.
    pub open spec fn data_view(&self) -> Seq<u8> {
        self.data@
    }

    /// A tokenizer at the start of `data`.
    pub fn new(data: &'j [u8]) -> (r: Self)
        ensures
            r.data_view() == data@,
            r.index == 0,
    {
        Parser { data, index: 0 }
    }

    /// Skips whitespace and returns the next byte, if any.
    pub fn eat_whitespace(&mut self) -> (r: Option<u8>)
        ensures
            final(self).data_view() == old(self).data_view(),
            final(self).index == ws_end(old(self).data_view(), old(self).index as int),
            final(self).index < final(self).data_view().len() ==> r == Some(final(self).data_view()[final(self).index as int]),
            final(self).index >= final(self).data_view().len() ==> r is None,
            old(self).index <= old(self).data_view().len() ==> final(self).index <= final(self).data_view().len(),
    {
        while self.index < self.data.len() && (self.data[self.index] == 32 || self.data[self.index] == 13
            || self.data[self.index] == 9 || self.data[self.index] == 10)
            invariant
                self.data@ == old(self).data@,
                old(self).index <= old(self).data@.len() ==> self.index <= self.data@.len(),
                self.data@.len() == self.data.len(),
                ws_end(old(self).data@, old(self).index as int) == ws_end(self.data@, self.index as int),
            decreases self.data@.len() - self.index,
        {
            self.index = self.index + 1;
        }
        if self.index < self.data.len() {
            Some(self.data[self.index])
        } else {
            None
        }
    }

    /// The kind of the next value.
    pub fn peek(&mut self) -> (r: Result<Peek, JsonError>)
        ensures
            final(self).data_view() == old(self).data_view(),
            step_result(r, final(self).index as int, spec_peek(old(self).data_view(), old(self).index as int), |p: Peek| p),
            old(self).index <= old(self).data_view().len() ==> final(self).index <= final(self).data_view().len(),
    {
        match self.eat_whitespace() {
            Some(b) => Ok(Peek::new(b)),
            None => Err(json_error(JsonErrorType::EofWhileParsingValue, self.index)),
        }
    }

    /// Just after `[`: the kind of the first item, or `None` for an empty array.
    pub fn array_first(&mut self) -> (r: Result<Option<Peek>, JsonError>)
        requires
            old(self).index < old(self).data_view().len(),
        ensures
            final(self).data_view() == old(self).data_view(),
            step_result(r, final(self).index as int, spec_array_first(old(self).data_view(), old(self).index + 1), |p: Option<Peek>| p),
            final(self).index <= final(self).data_view().len(),
    {
        assert(self.data@.len() == self.data.len());
        self.index = self.index + 1;
        match self.eat_whitespace() {
            Some(b) => {
                if b == 93 {
                    self.index = self.index + 1;
                    Ok(None)
                } else {
                    Ok(Some(Peek::new(b)))
                }
            },
            None => Err(json_error(JsonErrorType::EofWhileParsingList, self.index)),
        }
    }

    /// After an array item: the kind of the next item, or `None` at the end.
    pub fn array_step(&mut self) -> (r: Result<Option<Peek>, JsonError>)
        ensures
            final(self).data_view() == old(self).data_view(),
            step_result(r, final(self).index as int, spec_array_step(old(self).data_view(), old(self).index as int), |p: Option<Peek>| p),
            old(self).index <= old(self).data_view().len() ==> final(self).index <= final(self).data_view().len(),
    {
        assert(self.data@.len() == self.data.len());
        match self.eat_whitespace() {
            Some(b) => {
                if b == 44 {
                    self.index = self.index + 1;
                    match self.eat_whitespace() {
                        Some(c) => {
                            if c == 93 {
                                Err(json_error(JsonErrorType::TrailingComma, self.index))
                            } else {
                                Ok(Some(Peek::new(c)))
                            }
                        },
                        None => Err(json_error(JsonErrorType::EofWhileParsingValue, self.index)),
                    }
                } else if b == 93 {
                    self.index = self.index + 1;
                    Ok(None)
                } else {
                    Err(json_error(JsonErrorType::ExpectedListCommaOrEnd, self.index))
                }
            },
            None => Err(json_error(JsonErrorType::EofWhileParsingList, self.index)),
        }
    }

    /// Reads a key whose opening quote is at the current index, and the colon after it.
    fn object_key(&mut self) -> (r: Result<Option<CowStr<'j>>, JsonError>)
        requires
            old(self).index < old(self).data_view().len(),
        ensures
            final(self).data_view() == old(self).data_view(),
            step_result(r, final(self).index as int, spec_object_key(old(self).data_view(), old(self).index as int), |k: Option<CowStr<'j>>| key_text(k)),
            final(self).index <= final(self).data_view().len(),
            r matches Ok(Some(k)) ==> (k is Borrowed <==> plain_string(old(self).data_view(), old(self).index as int,
                string_end(old(self).data_view(), old(self).index as int))),
    {
        assert(self.data@.len() == self.data.len());
        let (key, end) = match decode_string(self.data, self.index) {
            Ok(v) => v,
            Err(e) => return Err(e),
        };
        self.index = end;
        match self.eat_whitespace() {
            Some(b) => {
                if b == 58 {
                    self.index = self.index + 1;
                    Ok(Some(key))
                } else {
                    Err(json_error(JsonErrorType::ExpectedColon, self.index))
                }
            },
            None => Err(json_error(JsonErrorType::EofWhileParsingObject, self.index)),
        }
    }

    /// Just after `{`: the first key, or `None` for an empty object.
    pub fn object_first(&mut self) -> (r: Result<Option<CowStr<'j>>, JsonError>)
        requires
            old(self).index < old(self).data_view().len(),
        ensures
            final(self).data_view() == old(self).data_view(),
            step_result(r, final(self).index as int, spec_object_first(old(self).data_view(), old(self).index + 1), |k: Option<CowStr<'j>>| key_text(k)),
            final(self).index <= final(self).data_view().len(),
            r matches Ok(Some(k)) ==> ({
                let at = ws_end(old(self).data_view(), old(self).index + 1);
                k is Borrowed <==> plain_string(old(self).data_view(), at, string_end(old(self).data_view(), at))
            }),
    {
        assert(self.data@.len() == self.data.len());
        self.index = self.index + 1;
        match self.eat_whitespace() {
            Some(b) => {
                if b == 34 {
                    self.object_key()
                } else if b == 125 {
                    self.index = self.index + 1;
                    Ok(None)
                } else {
                    Err(json_error(JsonErrorType::KeyMustBeAString, self.index))
                }
            },
            None => Err(json_error(JsonErrorType::EofWhileParsingObject, self.index)),
        }
    }

    /// After an object value: the next key, or `None` at the end.
    pub fn object_step(&mut self) -> (r: Result<Option<CowStr<'j>>, JsonError>)
        ensures
            final(self).data_view() == old(self).data_view(),
            step_result(r, final(self).index as int, spec_object_step(old(self).data_view(), old(self).index as int), |k: Option<CowStr<'j>>| key_text(k)),
            old(self).index <= old(self).data_view().len() ==> final(self).index <= final(self).data_view().len(),
            r matches Ok(Some(k)) ==> ({
                let at = ws_end(old(self).data_view(), ws_end(old(self).data_view(), old(self).index as int) + 1);
                k is Borrowed <==> plain_string(old(self).data_view(), at, string_end(old(self).data_view(), at))
            }),
    {
        assert(self.data@.len() == self.data.len());
        match self.eat_whitespace() {
            Some(b) => {
                if b == 44 {
                    self.index = self.index + 1;
                    match self.eat_whitespace() {
                        Some(c) => {
                            if c == 34 {
                                self.object_key()
                            } else if c == 125 {
                                Err(json_error(JsonErrorType::TrailingComma, self.index))
                            } else {
                                Err(json_error(JsonErrorType::KeyMustBeAString, self.index))
                            }
                        },
                        None => Err(json_error(JsonErrorType::EofWhileParsingValue, self.index)),
                    }
                } else if b == 125 {
                    self.index = self.index + 1;
                    Ok(None)
                } else {
                    Err(json_error(JsonErrorType::ExpectedObjectCommaOrEnd, self.index))
                }
            },
            None => Err(json_error(JsonErrorType::EofWhileParsingObject, self.index)),
        }
    }
}

/// JSON whitespace is space, tab, line feed and carriage return: a run of
/// those bytes from `i` to `k` is skipped, so what comes next reads the same
/// from `i` as from `k`.
pub proof fn law_whitespace_is_skipped(data: Seq<u8>, i: int, k: int)
    requires
        0 <= i <= k <= data.len(),
        forall|j: int| i <= j < k ==> (#[trigger] data[j] == 32 || data[j] == 9 || data[j] == 10 || data[j] == 13),
    ensures
        ws_end(data, i) == ws_end(data, k),
        spec_peek(data, i) == spec_peek(data, k),
    decreases k - i,
{
    if i < k {
        assert(data[i] == 32 || data[i] == 9 || data[i] == 10 || data[i] == 13);
        law_whitespace_is_skipped(data, i + 1, k);
    }
}

} // verus!
