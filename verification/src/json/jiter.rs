//! A JSON iterator: reads values piece by piece, as a deserializer asks for them.

use vstd::prelude::*;
use crate::cowstr::CowStr;
use crate::json::errors::{json_error, JiterError, JiterErrorType, JsonError, JsonErrorType, JsonType};
use crate::json::number::{
    digits_end, err_at, spec_int_parse, spec_number_int, spec_number_range, AbstractNumberDecoder, IntParse,
    NumberInt, NumberRange,
};
use crate::json::parse::{
    consume_ident, key_text, peek_byte, peek_is_num, spec_array_first, spec_array_step,
    spec_consume_ident, spec_object_first, spec_object_step, spec_peek, ws_end, Parser, Peek,
};
use crate::json::string::{decode_string, plain_string, spec_string, string_end};

verus! {

/// The iterator error for a syntax error.
pub open spec fn jiter_err(e: JsonError) -> JiterError {
    JiterError { error_type: JiterErrorType::JsonError(e.error_type), index: e.index }
}

/// Whether a result of the iterator is the spec's result mapped by `f`,
/// with the iterator ending at `at`.
pub open spec fn jiter_result<T, U>(r: Result<T, JiterError>, at: int, s: Result<(U, int), JsonError>, f: spec_fn(T) -> U) -> bool {
    match r {
        Ok(v) => s == Ok::<(U, int), JsonError>((f(v), at)),
        Err(e) => s matches Err(je) && e == jiter_err(je),
    }
}

/// The kind of value a peek announces, for type errors: numbers are classified
/// separately by `spec_number_kind`.
pub open spec fn peek_type(p: Peek) -> Option<JsonType> {
    match p {
        Peek::True | Peek::False => Some(JsonType::Bool),
        Peek::Null => Some(JsonType::Null),
        Peek::String => Some(JsonType::String),
        Peek::Array => Some(JsonType::Array),
        Peek::Object => Some(JsonType::Object),
        _ => None,
    }
}

/// Whether the number at `index` is an integer or a float, or its syntax error.
pub open spec fn spec_number_kind(data: Seq<u8>, index: int, first: u8, allow_inf_nan: bool) -> Result<JsonType, JsonError> {
    match spec_int_parse(data, index, first) {
        Err(e) => Err(e),
        Ok((IntParse::Int(_), _)) => Ok(JsonType::Int),
        Ok(_) => match spec_number_range(data, index, first, allow_inf_nan) {
            Ok(_) => Ok(JsonType::Float),
            Err(e) => Err(e),
        },
    }
}

/// The error for a value of the wrong type at `index`.
pub open spec fn spec_wrong_type(data: Seq<u8>, index: int, allow_inf_nan: bool, expected: JsonType, p: Peek) -> JiterError {
    match peek_type(p) {
        Some(actual) => JiterError { error_type: JiterErrorType::WrongType { expected, actual }, index: index as usize },
        None => if peek_is_num(p) {
            match spec_number_kind(data, index, peek_byte(p), allow_inf_nan) {
                Ok(actual) => JiterError { error_type: JiterErrorType::WrongType { expected, actual }, index: index as usize },
                Err(e) => jiter_err(e),
            }
        } else {
            jiter_err(JsonError { error_type: JsonErrorType::ExpectedSomeValue, index: index as usize })
        },
    }
}

/// A JSON iterator.
#[derive(Debug, Clone)]
pub struct Jiter<'j> {
    data: &'j [u8],
    parser: Parser<'j>,
    allow_inf_nan: bool,
}

impl<'j> Jiter<'j> {
    /// The input.
    pub closed spec fn data_view(&self) -> Seq<u8> {
        self.data@
    }

    /// The position in the input.
    pub closed spec fn index_view(&self) -> int {
        self.parser.index as int
    }

    /// Whether `NaN`, `Infinity` and `-Infinity` are accepted as numbers.
    pub closed spec fn allows_inf_nan(&self) -> bool {
        self.allow_inf_nan
    }

    /// The iterator is consistent: its tokenizer reads its input, and its
    /// position is within the input, whose length leaves room for one more.
    pub closed spec fn wf(&self) -> bool {
        &&& self.parser.data@ == self.data@
        &&& self.parser.index <= self.data@.len()
        &&& self.data@.len() < usize::MAX
    }

    /// An iterator at the start of `data`, which does not accept `NaN` or
    /// `Infinity`. (A slice is never as long as `usize::MAX`.)
    pub fn new(data: &'j [u8]) -> (r: Self)
        requires
            data@.len() < usize::MAX,
        ensures
            r.wf(),
            r.data_view() == data@,
            r.index_view() == 0,
            !r.allows_inf_nan(),
    {
        Jiter { data, parser: Parser::new(data), allow_inf_nan: false }
    }

    /// The position in the input.
    pub fn current_index(&self) -> (r: usize)
        ensures
            r == self.index_view(),
    {
        self.parser.index
    }

    /// The kind of the next value, without consuming it.
    pub fn peek(&mut self) -> (r: Result<Peek, JiterError>)
        requires
            old(self).wf(),
        ensures
            final(self).wf(),
            final(self).data_view() == old(self).data_view(),
            final(self).allows_inf_nan() == old(self).allows_inf_nan(),
            jiter_result(r, final(self).index_view(), spec_peek(old(self).data_view(), old(self).index_view()), |p: Peek| p),
    {
        match self.parser.peek() {
            Ok(p) => Ok(p),
            Err(e) => Err(JiterError::from_json_error(e)),
        }
    }

    /// Knowing the next value is `null`, consumes it.
    pub fn known_null(&mut self) -> (r: Result<(), JiterError>)
        requires
            old(self).wf(),
        ensures
            final(self).wf(),
            final(self).data_view() == old(self).data_view(),
            final(self).allows_inf_nan() == old(self).allows_inf_nan(),
            match spec_consume_ident(old(self).data_view(), old(self).index_view(), seq![117u8, 108, 108]) {
                Ok(end) => r is Ok && final(self).index_view() == end,
                Err(e) => r == Err::<(), JiterError>(jiter_err(e)),
            },
            r is Err ==> final(self).index_view() == old(self).index_view(),
    {
        let rest: [u8; 3] = [117, 108, 108];
        assert(rest@ =~= seq![117u8, 108, 108]);
        match consume_ident(self.data, self.parser.index, &rest) {
            Ok(end) => {
                self.parser.index = end;
                Ok(())
            },
            Err(e) => Err(JiterError::from_json_error(e)),
        }
    }

    /// Knowing the next value is `true` or `false` (as `peek` says), reads it.
    pub fn known_bool(&mut self, peek: Peek) -> (r: Result<bool, JiterError>)
        requires
            old(self).wf(),
        ensures
            final(self).wf(),
            final(self).data_view() == old(self).data_view(),
            final(self).allows_inf_nan() == old(self).allows_inf_nan(),
            peek == Peek::True ==> match spec_consume_ident(old(self).data_view(), old(self).index_view(), seq![114u8, 117, 101]) {
                Ok(end) => r == Ok::<bool, JiterError>(true) && final(self).index_view() == end,
                Err(e) => r == Err::<bool, JiterError>(jiter_err(e)),
            },
            peek == Peek::False ==> match spec_consume_ident(old(self).data_view(), old(self).index_view(), seq![97u8, 108, 115, 101]) {
                Ok(end) => r == Ok::<bool, JiterError>(false) && final(self).index_view() == end,
                Err(e) => r == Err::<bool, JiterError>(jiter_err(e)),
            },
            peek != Peek::True && peek != Peek::False ==> r == Err::<bool, JiterError>(
                spec_wrong_type(old(self).data_view(), old(self).index_view(), old(self).allows_inf_nan(), JsonType::Bool, peek),
            ),
            r is Err ==> final(self).index_view() == old(self).index_view(),
    {
        if peek == Peek::True {
            let rest: [u8; 3] = [114, 117, 101];
            assert(rest@ =~= seq![114u8, 117, 101]);
            match consume_ident(self.data, self.parser.index, &rest) {
                Ok(end) => {
                    self.parser.index = end;
                    Ok(true)
                },
                Err(e) => Err(JiterError::from_json_error(e)),
            }
        } else if peek == Peek::False {
            let rest: [u8; 4] = [97, 108, 115, 101];
            assert(rest@ =~= seq![97u8, 108, 115, 101]);
            match consume_ident(self.data, self.parser.index, &rest) {
                Ok(end) => {
                    self.parser.index = end;
                    Ok(false)
                },
                Err(e) => Err(JiterError::from_json_error(e)),
            }
        } else {
            Err(self.wrong_type(JsonType::Bool, peek))
        }
    }

    /// Knowing the next value is a string, reads it: borrowed from the input
    /// when it holds no escape.
    pub fn known_str(&mut self) -> (r: Result<CowStr<'j>, JiterError>)
        requires
            old(self).wf(),
        ensures
            final(self).wf(),
            final(self).data_view() == old(self).data_view(),
            final(self).allows_inf_nan() == old(self).allows_inf_nan(),
            jiter_result(r, final(self).index_view(), spec_string(old(self).data_view(), old(self).index_view()), |s: CowStr<'j>| s@),
            r is Err ==> final(self).index_view() == old(self).index_view(),
            r matches Ok(s) ==> (s is Borrowed <==> plain_string(old(self).data_view(), old(self).index_view(), final(self).index_view())),
    {
        if self.parser.index >= self.data.len() {
            return Err(JiterError::from_json_error(json_error(JsonErrorType::EofWhileParsingString, self.data.len())));
        }
        match decode_string(self.data, self.parser.index) {
            Ok((s, end)) => {
                self.parser.index = end;
                Ok(s)
            },
            Err(e) => Err(JiterError::from_json_error(e)),
        }
    }

    /// Knowing the next value is an array, reads `[` and peeks at the first item.
    pub fn known_array(&mut self) -> (r: Result<Option<Peek>, JiterError>)
        requires
            old(self).wf(),
        ensures
            final(self).wf(),
            final(self).data_view() == old(self).data_view(),
            final(self).allows_inf_nan() == old(self).allows_inf_nan(),
            jiter_result(r, final(self).index_view(), spec_array_first(old(self).data_view(), old(self).index_view() + 1), |p: Option<Peek>| p),
    {
        if self.parser.index >= self.data.len() {
            return Err(JiterError::from_json_error(json_error(JsonErrorType::EofWhileParsingList, self.parser.index + 1)));
        }
        match self.parser.array_first() {
            Ok(p) => Ok(p),
            Err(e) => Err(JiterError::from_json_error(e)),
        }
    }

    /// After an array item, peeks at the next one, or `None` at the end of the array.
    pub fn array_step(&mut self) -> (r: Result<Option<Peek>, JiterError>)
        requires
            old(self).wf(),
        ensures
            final(self).wf(),
            final(self).data_view() == old(self).data_view(),
            final(self).allows_inf_nan() == old(self).allows_inf_nan(),
            jiter_result(r, final(self).index_view(), spec_array_step(old(self).data_view(), old(self).index_view()), |p: Option<Peek>| p),
    {
        match self.parser.array_step() {
            Ok(p) => Ok(p),
            Err(e) => Err(JiterError::from_json_error(e)),
        }
    }

    /// Knowing the next value is an object, reads `{` and the first key, if any.
    pub fn known_object(&mut self) -> (r: Result<Option<CowStr<'j>>, JiterError>)
        requires
            old(self).wf(),
        ensures
            final(self).wf(),
            final(self).data_view() == old(self).data_view(),
            final(self).allows_inf_nan() == old(self).allows_inf_nan(),
            jiter_result(r, final(self).index_view(), spec_object_first(old(self).data_view(), old(self).index_view() + 1), |k: Option<CowStr<'j>>| key_text(k)),
            r matches Ok(Some(k)) ==> ({
                let at = ws_end(old(self).data_view(), old(self).index_view() + 1);
                k is Borrowed <==> plain_string(old(self).data_view(), at, string_end(old(self).data_view(), at))
            }),
    {
        if self.parser.index >= self.data.len() {
            return Err(JiterError::from_json_error(json_error(JsonErrorType::EofWhileParsingObject, self.parser.index + 1)));
        }
        match self.parser.object_first() {
            Ok(k) => Ok(k),
            Err(e) => Err(JiterError::from_json_error(e)),
        }
    }

    /// After an object value, reads the next key, or `None` at the end of the object.
    pub fn next_key(&mut self) -> (r: Result<Option<CowStr<'j>>, JiterError>)
        requires
            old(self).wf(),
        ensures
            final(self).wf(),
            final(self).data_view() == old(self).data_view(),
            final(self).allows_inf_nan() == old(self).allows_inf_nan(),
            jiter_result(r, final(self).index_view(), spec_object_step(old(self).data_view(), old(self).index_view()), |k: Option<CowStr<'j>>| key_text(k)),
            r matches Ok(Some(k)) ==> ({
                let at = ws_end(old(self).data_view(), ws_end(old(self).data_view(), old(self).index_view()) + 1);
                k is Borrowed <==> plain_string(old(self).data_view(), at, string_end(old(self).data_view(), at))
            }),
    {
        match self.parser.object_step() {
            Ok(k) => Ok(k),
            Err(e) => Err(JiterError::from_json_error(e)),
        }
    }

    /// Whether the number at the current index is an integer or a float, or its syntax error.
    fn number_kind(&self, first: u8) -> (r: Result<JsonType, JsonError>)
        requires
            self.wf(),
        ensures
            r == spec_number_kind(self.data_view(), self.index_view(), first, self.allows_inf_nan()),
    {
        let index = self.parser.index;
        if index >= self.data.len() {
            // At the end of the input, only `first` is read.
            if first == 78 || first == 73 {
                return match NumberRange::decode(self.data, index, first, self.allow_inf_nan) {
                    Ok(_) => Ok(JsonType::Float),
                    Err(e) => Err(e),
                };
            } else if first == 45 {
                return Err(json_error(JsonErrorType::EofWhileParsingValue, index + 1));
            } else if 48 <= first && first <= 57 {
                proof {
                    assert(digits_end(self.data@, index + 1) == index + 1);
                }
                return Ok(JsonType::Int);
            } else {
                return Err(json_error(JsonErrorType::InvalidNumber, index));
            }
        }
        match IntParse::parse(self.data, self.parser.index, first) {
            Err(e) => Err(e),
            Ok((IntParse::Int(_), _)) => Ok(JsonType::Int),
            Ok(_) => match NumberRange::decode(self.data, self.parser.index, first, self.allow_inf_nan) {
                Ok(_) => Ok(JsonType::Float),
                Err(e) => Err(e),
            },
        }
    }

    /// The error for a value of the wrong type, announced by `peek`.
    fn wrong_type(&self, expected: JsonType, peek: Peek) -> (r: JiterError)
        requires
            self.wf(),
        ensures
            r == spec_wrong_type(self.data_view(), self.index_view(), self.allows_inf_nan(), expected, peek),
    {
        let index = self.parser.index;
        match peek {
            Peek::True | Peek::False => JiterError::wrong_type(expected, JsonType::Bool, index),
            Peek::Null => JiterError::wrong_type(expected, JsonType::Null, index),
            Peek::String => JiterError::wrong_type(expected, JsonType::String, index),
            Peek::Array => JiterError::wrong_type(expected, JsonType::Array, index),
            Peek::Object => JiterError::wrong_type(expected, JsonType::Object, index),
            _ => {
                if peek.is_num() {
                    self.wrong_num(peek.into_inner(), expected)
                } else {
                    JiterError::from_json_error(json_error(JsonErrorType::ExpectedSomeValue, index))
                }
            },
        }
    }

    /// The error for a number where a value of type `expected` was wanted.
    fn wrong_num(&self, first: u8, expected: JsonType) -> (r: JiterError)
        requires
            self.wf(),
        ensures
            r == match spec_number_kind(self.data_view(), self.index_view(), first, self.allows_inf_nan()) {
                Ok(actual) => JiterError { error_type: JiterErrorType::WrongType { expected, actual }, index: self.index_view() as usize },
                Err(e) => jiter_err(e),
            },
    {
        match self.number_kind(first) {
            Ok(actual) => JiterError::wrong_type(expected, actual, self.parser.index),
            Err(e) => JiterError::from_json_error(e),
        }
    }

    /// The error of reading a number: a syntax error if `peek` announced a
    /// number, else a type error.
    fn maybe_number_error(&self, e: JsonError, expected: JsonType, peek: Peek) -> (r: JiterError)
        requires
            self.wf(),
        ensures
            peek_is_num(peek) ==> r == jiter_err(e),
            !peek_is_num(peek) ==> r == spec_wrong_type(self.data_view(), self.index_view(), self.allows_inf_nan(), expected, peek),
    {
        if peek.is_num() {
            JiterError::from_json_error(e)
        } else {
            self.wrong_type(expected, peek)
        }
    }

    /// Knowing the next value is a number (as `peek` says), finds its extent.
    pub fn known_number(&mut self, peek: Peek) -> (r: Result<NumberRange, JiterError>)
        requires
            old(self).wf(),
        ensures
            final(self).wf(),
            final(self).data_view() == old(self).data_view(),
            final(self).allows_inf_nan() == old(self).allows_inf_nan(),
            match spec_number_range(old(self).data_view(), old(self).index_view(), peek_byte(peek), old(self).allows_inf_nan()) {
                Ok((is_int, end)) => r matches Ok(nr) && nr.is_int == is_int && nr.range.start == old(self).index_view()
                    && nr.range.end == end && final(self).index_view() == end,
                Err(e) => r == Err::<NumberRange, JiterError>(if peek_is_num(peek) {
                    jiter_err(e)
                } else {
                    spec_wrong_type(old(self).data_view(), old(self).index_view(), old(self).allows_inf_nan(), JsonType::Float, peek)
                }),
            },
            r is Err ==> final(self).index_view() == old(self).index_view(),
    {
        match NumberRange::decode(self.data, self.parser.index, peek.into_inner(), self.allow_inf_nan) {
            Ok((nr, end)) => {
                self.parser.index = end;
                Ok(nr)
            },
            Err(e) => Err(self.maybe_number_error(e, JsonType::Float, peek)),
        }
    }

    /// Knowing the next value is an integer (as `peek` says), reads it.
    pub fn known_int(&mut self, peek: Peek) -> (r: Result<NumberInt, JiterError>)
        requires
            old(self).wf(),
            old(self).index_view() < old(self).data_view().len(),
        ensures
            final(self).wf(),
            final(self).data_view() == old(self).data_view(),
            final(self).allows_inf_nan() == old(self).allows_inf_nan(),
            match spec_number_int(old(self).data_view(), old(self).index_view(), peek_byte(peek)) {
                Ok((n, end)) => r == Ok::<NumberInt, JiterError>(n) && final(self).index_view() == end,
                Err(e) => r == Err::<NumberInt, JiterError>(if peek_is_num(peek) {
                    jiter_err(e)
                } else {
                    spec_wrong_type(old(self).data_view(), old(self).index_view(), old(self).allows_inf_nan(), JsonType::Int, peek)
                }),
            },
            r is Err ==> final(self).index_view() == old(self).index_view(),
    {
        match <NumberInt as AbstractNumberDecoder>::decode(self.data, self.parser.index, peek.into_inner(), self.allow_inf_nan) {
            Ok((n, end)) => {
                self.parser.index = end;
                Ok(n)
            },
            Err(e) => Err(self.maybe_number_error(e, JsonType::Int, peek)),
        }
    }

    /// Checks that only whitespace is left.
    pub fn finish(&mut self) -> (r: Result<(), JiterError>)
        requires
            old(self).wf(),
        ensures
            final(self).wf(),
            final(self).data_view() == old(self).data_view(),
            final(self).allows_inf_nan() == old(self).allows_inf_nan(),
            final(self).index_view() == ws_end(old(self).data_view(), old(self).index_view()),
            r is Ok <==> final(self).index_view() >= final(self).data_view().len(),
            r matches Err(e) ==> e == jiter_err(JsonError { error_type: JsonErrorType::TrailingCharacters, index: final(self).index_view() as usize }),
    {
        match self.parser.eat_whitespace() {
            None => Ok(()),
            Some(_) => Err(JiterError::from_json_error(json_error(JsonErrorType::TrailingCharacters, self.parser.index))),
        }
    }
}

} // verus!
