//! The messages of errors, as text for people.

use std::str::Utf8Error;
use vstd::prelude::*;
use vstd::string::StringSliceAdditionalSpecFns;
use crate::error::{EventType, MerdeError, ValueType};
use crate::json::serializer::{decimal_digits, decimal_text, itoa_u64};
use crate::msgpack::{hex_digit, hex_digit_str};

verus! {

/// ASCII bytes as characters.
pub open spec fn ascii_text(bs: Seq<u8>) -> Seq<char> {
    bs.map_values(|b: u8| b as char)
}

/// The decimal text of an integer, as characters.
pub open spec fn decimal_chars(n: int) -> Seq<char> {
    ascii_text(decimal_text(n))
}

proof fn lemma_decimal_digits(n: nat)
    ensures
        forall|j: int| 0 <= j < decimal_digits(n).len() ==> 48 <= #[trigger] decimal_digits(n)[j] <= 57,
    decreases n,
{
    if n >= 10 {
        lemma_decimal_digits(n / 10);
        let d = decimal_digits(n / 10);
        assert forall|j: int| 0 <= j < decimal_digits(n).len() implies 48 <= #[trigger] decimal_digits(n)[j] <= 57 by {
            if j < d.len() {
                assert(decimal_digits(n)[j] == d[j]);
            } else {
                assert(decimal_digits(n)[j] == (48 + n % 10) as u8);
            }
        }
    } else {
        assert(decimal_digits(n)[0] == (48 + n) as u8);
    }
}

/// Appends the decimal text of `n`.
fn push_decimal(out: &mut String, n: u64)
    ensures
        final(out)@ == old(out)@ + decimal_chars(n as int),
{
    let digits = itoa_u64(n);
    proof {
        lemma_decimal_digits(n as nat);
    }
    let ghost start = out@;
    let mut i: usize = 0;
    while i < digits.len()
        invariant
            i <= digits@.len(),
            digits@ == decimal_text(n as int),
            forall|j: int| 0 <= j < digits@.len() ==> 48 <= #[trigger] digits@[j] <= 57,
            out@ == start + ascii_text(digits@.take(i as int)),
        decreases digits@.len() - i,
    {
        let d = digits[i] - 48;
        out.append(hex_digit_str(d));
        proof {
            assert(hex_digit(d as nat) == digits@[i as int] as char);
            assert(ascii_text(digits@.take(i + 1)) =~= ascii_text(digits@.take(i as int)).push(digits@[i as int] as char));
        }
        i = i + 1;
    }
    proof {
        assert(digits@.take(digits@.len() as int) =~= digits@);
    }
}

/// The name of a kind of value.
pub open spec fn value_type_name(t: ValueType) -> Seq<char> {
    match t {
        ValueType::Null => "Null"@,
        ValueType::Bool => "Bool"@,
        ValueType::I64 => "I64"@,
        ValueType::U64 => "U64"@,
        ValueType::Float => "Float"@,
        ValueType::String => "String"@,
        ValueType::Bytes => "Bytes"@,
        ValueType::Array => "Array"@,
        ValueType::Mapping => "Map"@,
    }
}

fn value_type_str(t: ValueType) -> (r: &'static str)
    ensures
        r@ == value_type_name(t),
{
    match t {
        ValueType::Null => "Null",
        ValueType::Bool => "Bool",
        ValueType::I64 => "I64",
        ValueType::U64 => "U64",
        ValueType::Float => "Float",
        ValueType::String => "String",
        ValueType::Bytes => "Bytes",
        ValueType::Array => "Array",
        ValueType::Mapping => "Map",
    }
}

/// The name of a kind of event.
pub open spec fn event_type_name(t: EventType) -> Seq<char> {
    match t {
        EventType::I64 => "I64"@,
        EventType::U64 => "U64"@,
        EventType::Float => "Float"@,
        EventType::Str => "Str"@,
        EventType::Bytes => "Bytes"@,
        EventType::Bool => "Bool"@,
        EventType::Null => "Null"@,
        EventType::MapStart => "MapStart"@,
        EventType::MapEnd => "MapEnd"@,
        EventType::ArrayStart => "ArrayStart"@,
        EventType::ArrayEnd => "ArrayEnd"@,
    }
}

fn event_type_str(t: EventType) -> (r: &'static str)
    ensures
        r@ == event_type_name(t),
{
    match t {
        EventType::I64 => "I64",
        EventType::U64 => "U64",
        EventType::Float => "Float",
        EventType::Str => "Str",
        EventType::Bytes => "Bytes",
        EventType::Bool => "Bool",
        EventType::Null => "Null",
        EventType::MapStart => "MapStart",
        EventType::MapEnd => "MapEnd",
        EventType::ArrayStart => "ArrayStart",
        EventType::ArrayEnd => "ArrayEnd",
    }
}

/// The names of kinds of events, separated by commas.
pub open spec fn event_type_names(s: Seq<EventType>) -> Seq<char>
    decreases s.len(),
{
    if s.len() == 0 {
        Seq::empty()
    } else if s.len() == 1 {
        event_type_name(s[0])
    } else {
        event_type_names(s.drop_last()) + ", "@ + event_type_name(s.last())
    }
}

/// Appends a list of kinds of events, in brackets.
fn push_event_types(out: &mut String, list: &Vec<EventType>)
    ensures
        final(out)@ == old(out)@ + "["@ + event_type_names(list@) + "]"@,
{
    let ghost start = out@;
    out.append("[");
    let mut i: usize = 0;
    while i < list.len()
        invariant
            i <= list@.len(),
            out@ == start + "["@ + event_type_names(list@.take(i as int)),
        decreases list@.len() - i,
    {
        if i > 0 {
            out.append(", ");
        }
        out.append(event_type_str(list[i]));
        proof {
            let t = list@.take(i + 1);
            assert(t.drop_last() =~= list@.take(i as int));
            assert(t.last() == list@[i as int]);
            if i == 0 {
                assert(t.len() == 1);
                assert(list@.take(0) =~= Seq::<EventType>::empty());
            }
        }
        i = i + 1;
    }
    proof {
        assert(list@.take(list@.len() as int) =~= list@);
    }
    out.append("]");
}

/// `String::push`: appends one character.
pub assume_specification[ std::string::String::push ](s: &mut std::string::String, ch: char)
    ensures
        final(s)@ == old(s)@.push(ch),
;

/// The text that std's `Debug` gives a string: the string in quotes, with
/// some characters escaped.
pub uninterp spec fn debug_text(s: Seq<char>) -> Seq<char>;

/// `format!("{:?}", s)` on a `str`: its `Debug` text.
#[verifier::external_body]
fn str_debug(s: &str) -> (r: String)
    ensures
        r@ == debug_text(s@),
{
    format!("{:?}", s)
}

/// `ToString::to_string` on a `std::io::Error`. Nothing is stated of the
/// text, which may come from the operating system.
#[verifier::external_body]
fn io_error_text(e: &std::io::Error) -> String {
    e.to_string()
}

/// `ToString::to_string` on a `Utf8Error`. Nothing is stated of the text:
/// std's documentation does not give it, and its source is not at hand.
#[verifier::external_body]
fn utf8_error_text(e: &Utf8Error) -> String {
    e.to_string()
}

/// One character of the context of a parsing error, with its background:
/// red at the error's position, blue elsewhere.
pub open spec fn highlight_piece(c: char, here: bool) -> Seq<char> {
    (if here {
        "\x1b[48;2;255;200;200m\x1b[97m"@
    } else {
        "\x1b[48;2;200;200;255m\x1b[97m"@
    }) + seq![c] + "\x1b[0m"@
}

/// The characters of a context, the one that starts at byte `target` in red.
pub open spec fn highlighted(cs: Seq<char>, target: int) -> Seq<char>
    decreases cs.len(),
{
    if cs.len() == 0 {
        Seq::empty()
    } else {
        highlighted(cs.drop_last(), target) + highlight_piece(
            cs.last(),
            vstd::utf8::encode_utf8(cs.drop_last()).len() == target,
        )
    }
}

/// Where the context of a parsing error starts and ends, in bytes: twenty
/// bytes on each side of the error, within the source.
pub open spec fn context_bounds(source_len: int, index: int) -> (int, int) {
    (
        if index >= 20 { index - 20 } else { 0 },
        if index + 20 <= source_len { index + 20 } else { source_len },
    )
}

/// Whether the context of a parsing error can be cut out of the source.
pub open spec fn context_ok(source: Seq<char>, index: int) -> bool {
    let bytes = vstd::utf8::encode_utf8(source);
    let (start, end) = context_bounds(bytes.len() as int, index);
    &&& index + 20 <= usize::MAX
    &&& start <= end
    &&& vstd::utf8::is_char_boundary(bytes, start)
    &&& vstd::utf8::is_char_boundary(bytes, end)
}

/// The message of a parsing error: the format, the message in red, and the
/// source around the error, the character at the error highlighted.
pub open spec fn parsing_message(format: Seq<char>, message: Seq<char>, source: Seq<char>, index: int) -> Seq<char> {
    let bytes = vstd::utf8::encode_utf8(source);
    let (start, end) = context_bounds(bytes.len() as int, index);
    let context = vstd::utf8::decode_utf8(bytes.subrange(start, end));
    format + " parsing error: \x1b[31m"@ + message + "\x1b[0m\n"@ + "Source: "@ + highlighted(context, index - start) + "\n"@
}

/// The message of an error, for the errors whose message the library makes
/// entirely; for an I/O or UTF-8 error, the beginning of the message.
pub open spec fn message_of(e: &MerdeError) -> Seq<char> {
    match e {
        MerdeError::MismatchedType { expected, found } => "Expected "@ + value_type_name(*expected) + ", found "@
            + value_type_name(*found),
        MerdeError::MissingProperty(p) => "Missing property: "@ + p@,
        MerdeError::IndexOutOfBounds { index, len } => "Index out of bounds: index "@ + decimal_chars(*index as int)
            + " is not valid for length "@ + decimal_chars(*len as int),
        MerdeError::UnknownProperty(p) => "Unknown property: "@ + p@,
        MerdeError::OutOfRange => "Value is out of range"@,
        MerdeError::MissingValue => "Missing value"@,
        MerdeError::InvalidKey { key, type_label } => "Invalid key: couldn't convert "@ + debug_text(key@)
            + " to type "@ + type_label@,
        MerdeError::InvalidDateTimeValue => "Invalid date/time value"@,
        MerdeError::UnexpectedEvent { got, expected, help } => "Unexpected event: got "@ + event_type_name(*got)
            + ", expected one of "@ + "["@ + event_type_names(expected@) + "]"@ + match help {
            Some(h) => " "@ + h@,
            None => Seq::empty(),
        },
        MerdeError::StringParsingError { format, source, index, message } => parsing_message(
            format@,
            message@,
            source@,
            *index as int,
        ),
        MerdeError::PutBackCalledTwice => "put_back() was called twice"@,
        MerdeError::BinaryParsingError { format, message } => format@ + " parsing error: "@ + message@,
        MerdeError::Io(_) => "I/O error: "@,
        MerdeError::Utf8Error(_) => "UTF-8 Error: "@,
    }
}

proof fn lemma_encode_utf8_push(s: Seq<char>, c: char)
    ensures
        vstd::utf8::encode_utf8(s.push(c)) == vstd::utf8::encode_utf8(s) + vstd::utf8::encode_scalar(c as u32),
    decreases s.len(),
{
    if s.len() == 0 {
        assert(s.push(c)[0] == c);
        assert(s.push(c).drop_first() =~= Seq::<char>::empty());
        assert(vstd::utf8::encode_utf8(Seq::<char>::empty()) =~= Seq::<u8>::empty());
        assert(vstd::utf8::encode_utf8(s.push(c)) =~= vstd::utf8::encode_utf8(s) + vstd::utf8::encode_scalar(c as u32));
    } else {
        lemma_encode_utf8_push(s.drop_first(), c);
        assert(s.push(c).drop_first() =~= s.drop_first().push(c));
        assert(s.push(c)[0] == s[0]);
        assert(vstd::utf8::encode_utf8(s.push(c)) =~= vstd::utf8::encode_utf8(s) + vstd::utf8::encode_scalar(c as u32));
    }
}

/// The number of bytes of a character's UTF-8 encoding.
fn utf8_width(c: char) -> (r: usize)
    ensures
        r == vstd::utf8::encode_scalar(c as u32).len(),
{
    proof {
        vstd::utf8::char_is_scalar(c);
    }
    let v = c as u32;
    if v <= 0x7F {
        1
    } else if v <= 0x7FF {
        2
    } else if v <= 0xFFFF {
        3
    } else {
        4
    }
}

/// Appends the context of a parsing error (see `parsing_message`).
fn push_highlighted(out: &mut String, source: &str, index: usize)
    requires
        context_ok(source@, index as int),
    ensures
        final(out)@ == old(out)@ + {
            let bytes = vstd::utf8::encode_utf8(source@);
            let (start, end) = context_bounds(bytes.len() as int, index as int);
            highlighted(vstd::utf8::decode_utf8(bytes.subrange(start, end)), index - start)
        },
{
    let ghost bytes = source.spec_bytes();
    let start: usize = if index >= 20 { index - 20 } else { 0 };
    let source_len = source.as_bytes().len();
    let end: usize = if index + 20 <= source_len { index + 20 } else { source_len };
    let (_, rest) = source.split_at(start);
    proof {
        let rb = rest.spec_bytes();
        assert(rb =~= bytes.subrange(start as int, bytes.len() as int));
        vstd::utf8::encode_utf8_valid_utf8(source@);
        assert(context_bounds(bytes.len() as int, index as int).0 == start as int);
        assert(context_bounds(bytes.len() as int, index as int).1 == end as int);
        assert(vstd::utf8::is_char_boundary(bytes, start as int));
        assert(vstd::utf8::is_char_boundary(bytes, end as int));
        vstd::utf8::valid_utf8_split(bytes, start as int);
        assert(vstd::utf8::valid_utf8(rb));
        if end < bytes.len() {
            vstd::utf8::is_char_boundary_iff_not_is_continuation_byte(bytes, end as int);
            vstd::utf8::is_char_boundary_iff_not_is_continuation_byte(rb, (end - start) as int);
            assert(rb[(end - start) as int] == bytes[end as int]);
        } else {
            vstd::utf8::is_char_boundary_start_end_of_seq(rb);
        }
    }
    let (context, _) = rest.split_at(end - start);
    proof {
        assert(context.spec_bytes() =~= bytes.subrange(start as int, end as int));
        vstd::utf8::encode_utf8_decode_utf8(context@);
    }
    let target: usize = index - start;
    let ghost base = out@;
    let mut offset: usize = 0;
    for c in it: context.chars()
        invariant
            it.seq() == context@,
            offset as int == vstd::utf8::encode_utf8(context@.take(it.index() as int)).len(),
            vstd::utf8::encode_utf8(context@).len() <= usize::MAX,
            out@ == base + highlighted(context@.take(it.index() as int), target as int),
    {
        let ghost k = it.index() as int;
        if offset == target {
            out.append("\x1b[48;2;255;200;200m\x1b[97m");
        } else {
            out.append("\x1b[48;2;200;200;255m\x1b[97m");
        }
        out.push(c);
        out.append("\x1b[0m");
        proof {
            let t = context@.take(k + 1);
            assert(t.drop_last() =~= context@.take(k));
            assert(t.last() == c);
            lemma_encode_utf8_push(context@.take(k), c);
            assert(context@.take(k).push(c) =~= t);
            lemma_encode_utf8_prefix_len(context@, k + 1);
        }
        offset = offset + utf8_width(c);
    }
    proof {
        assert(context@.take(context@.len() as int) =~= context@);
    }
}

proof fn lemma_encode_utf8_prefix_len(s: Seq<char>, k: int)
    requires
        0 <= k <= s.len(),
    ensures
        vstd::utf8::encode_utf8(s.take(k)).len() <= vstd::utf8::encode_utf8(s).len(),
    decreases s.len() - k,
{
    if k < s.len() {
        lemma_encode_utf8_prefix_len(s, k + 1);
        lemma_encode_utf8_push(s.take(k), s[k]);
        assert(s.take(k).push(s[k]) =~= s.take(k + 1));
    } else {
        assert(s.take(k) =~= s);
    }
}

/// Whether the message of an error can be made: the context of a parsing
/// error must fall on character boundaries of its source.
pub open spec fn message_ok(e: &MerdeError) -> bool {
    e matches MerdeError::StringParsingError { source, index, .. } ==> context_ok(source@, *index as int)
}

impl<'s> MerdeError<'s> {
    /// The message of the error, as text for people.
    pub fn message(&self) -> (r: String)
        requires
            message_ok(self),
        ensures
            !(self is Io || self is Utf8Error) ==> r@ == message_of(self),
            (self is Io || self is Utf8Error) ==> r@.len() >= message_of(self).len()
                && r@.subrange(0, message_of(self).len() as int) == message_of(self),
    {
        let mut out = String::new();
        match self {
            MerdeError::MismatchedType { expected, found } => {
                out.append("Expected ");
                out.append(value_type_str(*expected));
                out.append(", found ");
                out.append(value_type_str(*found));
            },
            MerdeError::MissingProperty(p) => {
                out.append("Missing property: ");
                out.append(p.as_str());
            },
            MerdeError::IndexOutOfBounds { index, len } => {
                out.append("Index out of bounds: index ");
                push_decimal(&mut out, *index as u64);
                out.append(" is not valid for length ");
                push_decimal(&mut out, *len as u64);
            },
            MerdeError::UnknownProperty(p) => {
                out.append("Unknown property: ");
                out.append(p.as_str());
            },
            MerdeError::OutOfRange => {
                out.append("Value is out of range");
            },
            MerdeError::MissingValue => {
                out.append("Missing value");
            },
            MerdeError::InvalidKey { key, type_label } => {
                out.append("Invalid key: couldn't convert ");
                let k = str_debug(key.as_str());
                out.append(k.as_str());
                out.append(" to type ");
                out.append(type_label);
            },
            MerdeError::InvalidDateTimeValue => {
                out.append("Invalid date/time value");
            },
            MerdeError::UnexpectedEvent { got, expected, help } => {
                out.append("Unexpected event: got ");
                out.append(event_type_str(*got));
                out.append(", expected one of ");
                push_event_types(&mut out, expected);
                match help {
                    Some(h) => {
                        out.append(" ");
                        out.append(h.as_str());
                    },
                    None => {},
                }
            },
            MerdeError::Io(e) => {
                out.append("I/O error: ");
                let t = io_error_text(e);
                out.append(t.as_str());
            },
            MerdeError::Utf8Error(e) => {
                out.append("UTF-8 Error: ");
                let t = utf8_error_text(e);
                out.append(t.as_str());
            },
            MerdeError::StringParsingError { format, source, index, message } => {
                out.append(format);
                out.append(" parsing error: \x1b[31m");
                out.append(message.as_str());
                out.append("\x1b[0m\n");
                out.append("Source: ");
                push_highlighted(&mut out, source.as_str(), *index);
                out.append("\n");
            },
            MerdeError::PutBackCalledTwice => {
                out.append("put_back() was called twice");
            },
            MerdeError::BinaryParsingError { format, message } => {
                out.append(format);
                out.append(" parsing error: ");
                out.append(message.as_str());
            },
        }
        proof {
            assert(out@ =~= Seq::<char>::empty() + out@);
        }
        out
    }
}

} // verus!
