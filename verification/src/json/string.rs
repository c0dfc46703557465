//! Decoding JSON strings: escapes, and borrowing the text when it has none.

use vstd::prelude::*;
use vstd::utf8::{decode_utf8, encode_scalar, valid_utf8};
use crate::cowstr::{str_from_utf8, CowStr};
use crate::json::errors::{json_error, JsonError, JsonErrorType};
use crate::json::number::err_at;

verus! {

/// The value of an ASCII hexadecimal digit, if the byte is one.
pub open spec fn hex_value(b: u8) -> Option<u32> {
    if 48 <= b <= 57 {
        Some((b - 48) as u32)
    } else if 97 <= b <= 102 {
        Some((b - 87) as u32)
    } else if 65 <= b <= 70 {
        Some((b - 55) as u32)
    } else {
        None
    }
}

/// The four hexadecimal digits from `i`: their value, or the error.
pub open spec fn spec_hex4(data: Seq<u8>, i: int) -> Result<u32, JsonError> {
    if i + 4 > data.len() {
        err_at(JsonErrorType::EofWhileParsingString, data.len() as int)
    } else if hex_value(data[i]) is None {
        err_at(JsonErrorType::InvalidEscape, i)
    } else if hex_value(data[i + 1]) is None {
        err_at(JsonErrorType::InvalidEscape, i + 1)
    } else if hex_value(data[i + 2]) is None {
        err_at(JsonErrorType::InvalidEscape, i + 2)
    } else if hex_value(data[i + 3]) is None {
        err_at(JsonErrorType::InvalidEscape, i + 3)
    } else {
        Ok((((hex_value(data[i])->0 * 16 + hex_value(data[i + 1])->0) * 16 + hex_value(data[i + 2])->0) * 16
            + hex_value(data[i + 3])->0) as u32)
    }
}

/// The escape `\u` whose hexadecimal digits start at `i`: the scalar it stands
/// for and where it ends (a surrogate pair takes two escapes), or the error.
pub open spec fn spec_unicode_escape(data: Seq<u8>, i: int) -> Result<(u32, int), JsonError> {
    match spec_hex4(data, i) {
        Err(e) => Err(e),
        Ok(n) => if 0xDC00 <= n <= 0xDFFF {
            err_at(JsonErrorType::LoneLeadingSurrogateInHexEscape, i + 3)
        } else if 0xD800 <= n <= 0xDBFF {
            if i + 6 > data.len() {
                err_at(JsonErrorType::EofWhileParsingString, data.len() as int)
            } else if data[i + 4] != 92 || data[i + 5] != 117 {
                err_at(JsonErrorType::UnexpectedEndOfHexEscape, i + 4)
            } else {
                match spec_hex4(data, i + 6) {
                    Err(e) => Err(e),
                    Ok(n2) => if 0xDC00 <= n2 <= 0xDFFF {
                        Ok(((0x1_0000 + (n - 0xD800) * 0x400 + (n2 - 0xDC00)) as u32, i + 10))
                    } else {
                        err_at(JsonErrorType::LoneLeadingSurrogateInHexEscape, i + 9)
                    },
                }
            }
        } else {
            Ok((n, i + 4))
        },
    }
}

/// The byte that a one-character escape `\x` stands for.
pub open spec fn simple_escape(b: u8) -> Option<u8> {
    if b == 34 || b == 92 || b == 47 {
        Some(b)
    } else if b == 98 {
        Some(8u8)
    } else if b == 102 {
        Some(12u8)
    } else if b == 110 {
        Some(10u8)
    } else if b == 114 {
        Some(13u8)
    } else if b == 116 {
        Some(9u8)
    } else {
        None
    }
}

/// Decoding the rest of a string from `i`, after the bytes `acc` were decoded:
/// all the decoded bytes and the index after the closing quote, or the error.
pub open spec fn spec_string_from(data: Seq<u8>, i: int, acc: Seq<u8>) -> Result<(Seq<u8>, int), JsonError>
    decreases data.len() - i,
{
    if i < 0 || i >= data.len() {
        err_at(JsonErrorType::EofWhileParsingString, data.len() as int)
    } else if data[i] == 34 {
        Ok((acc, i + 1))
    } else if data[i] == 92 {
        if i + 1 >= data.len() {
            err_at(JsonErrorType::EofWhileParsingString, data.len() as int)
        } else if data[i + 1] == 117 {
            match spec_unicode_escape(data, i + 2) {
                Err(e) => Err(e),
                Ok((c, end)) => if end > i {
                    spec_string_from(data, end, acc + encode_scalar(c))
                } else {
                    err_at(JsonErrorType::InvalidEscape, i)
                },
            }
        } else if simple_escape(data[i + 1]) is Some {
            spec_string_from(data, i + 2, acc.push(simple_escape(data[i + 1])->0))
        } else {
            err_at(JsonErrorType::InvalidEscape, i + 1)
        }
    } else if data[i] < 0x20 {
        err_at(JsonErrorType::ControlCharacterWhileParsingString, i)
    } else {
        spec_string_from(data, i + 1, acc.push(data[i]))
    }
}

/// The text of the JSON string whose opening quote is at `index`, and the
/// index after its closing quote, or the error.
pub open spec fn spec_string(data: Seq<u8>, index: int) -> Result<(Seq<char>, int), JsonError> {
    match spec_string_from(data, index + 1, Seq::empty()) {
        Ok((bytes, end)) => if valid_utf8(bytes) {
            Ok((decode_utf8(bytes), end))
        } else {
            err_at(JsonErrorType::InvalidUnicodeCodePoint, index + 1)
        },
        Err(e) => Err(e),
    }
}

/// Whether a decoded string is the spec's result.
pub open spec fn string_result_is<'j>(r: Result<(CowStr<'j>, usize), JsonError>, s: Result<(Seq<char>, int), JsonError>) -> bool {
    match r {
        Ok((text, end)) => s == Ok::<(Seq<char>, int), JsonError>((text@, end as int)),
        Err(e) => s == Err::<(Seq<char>, int), JsonError>(e),
    }
}

/// The index after the closing quote of the string whose opening quote is at
/// `index` (or `index` itself where there is no such string).
pub open spec fn string_end(data: Seq<u8>, index: int) -> int {
    match spec_string(data, index) {
        Ok((_, end)) => end,
        Err(_) => index,
    }
}

/// Whether the string whose opening quote is at `index` holds no escape.
pub open spec fn plain_string(data: Seq<u8>, index: int, end: int) -> bool {
    forall|j: int| index < j < end - 1 ==> data[j] != 92
}

/// Appends the UTF-8 encoding of a scalar value.
pub fn push_utf8(out: &mut Vec<u8>, c: u32)
    requires
        c <= 0x10FFFF,
    ensures
        final(out)@ == old(out)@ + encode_scalar(c),
{
    if c <= 0x7F {
        out.push((c & 0x7F) as u8);
    } else if c <= 0x7FF {
        out.push(0xC0 | ((c >> 6) & 0x1F) as u8);
        out.push(0x80 | (c & 0x3F) as u8);
    } else if c <= 0xFFFF && !(0xD800 <= c && c <= 0xDFFF) {
        out.push(0xE0 | ((c >> 12) & 0x0F) as u8);
        out.push(0x80 | ((c >> 6) & 0x3F) as u8);
        out.push(0x80 | (c & 0x3F) as u8);
    } else {
        out.push(0xF0 | ((c >> 18) & 0x7) as u8);
        out.push(0x80 | ((c >> 12) & 0x3F) as u8);
        out.push(0x80 | ((c >> 6) & 0x3F) as u8);
        out.push(0x80 | (c & 0x3F) as u8);
    }
    proof {
        assert(final(out)@ =~= old(out)@ + encode_scalar(c));
    }
}

fn hex_digit_value(b: u8) -> (r: Option<u32>)
    ensures
        r == hex_value(b),
{
    if 48 <= b && b <= 57 {
        Some((b - 48) as u32)
    } else if 97 <= b && b <= 102 {
        Some((b - 87) as u32)
    } else if 65 <= b && b <= 70 {
        Some((b - 55) as u32)
    } else {
        None
    }
}

/// Reads four hexadecimal digits from `i`.
fn parse_hex4(data: &[u8], i: usize) -> (r: Result<u32, JsonError>)
    ensures
        r == spec_hex4(data@, i as int),
{
    assert(data@.len() == data.len());
    if i > data.len() || data.len() - i < 4 {
        return Err(json_error(JsonErrorType::EofWhileParsingString, data.len()));
    }
    let mut n: u32 = 0;
    let mut k: usize = 0;
    while k < 4
        invariant
            k <= 4,
            i + 4 <= data@.len(),
            data@.len() == data.len(),
            n < 0x1_0000,
            k == 0 ==> n == 0,
            k >= 1 ==> hex_value(data@[i as int]) is Some,
            k >= 2 ==> hex_value(data@[i + 1]) is Some,
            k >= 3 ==> hex_value(data@[i + 2]) is Some,
            k == 1 ==> n == hex_value(data@[i as int])->0,
            k == 2 ==> n == hex_value(data@[i as int])->0 * 16 + hex_value(data@[i + 1])->0,
            k == 3 ==> n == (hex_value(data@[i as int])->0 * 16 + hex_value(data@[i + 1])->0) * 16
                + hex_value(data@[i + 2])->0,
            k == 4 ==> n == spec_hex4(data@, i as int)->Ok_0,
            k == 4 ==> spec_hex4(data@, i as int) is Ok,
            n < pow16(k as nat),
        decreases 4 - k,
    {
        match hex_digit_value(data[i + k]) {
            Some(h) => {
                proof {
                    lemma_pow16_values();
                }
                n = n * 16 + h;
                k = k + 1;
            },
            None => {
                return Err(json_error(JsonErrorType::InvalidEscape, i + k));
            },
        }
    }
    Ok(n)
}

/// `16` to the power `n`, for `n <= 4`.
pub open spec fn pow16(n: nat) -> nat {
    if n == 0 {
        1
    } else if n == 1 {
        16
    } else if n == 2 {
        256
    } else if n == 3 {
        4096
    } else {
        65536
    }
}

proof fn lemma_pow16_values()
    ensures
        pow16(0) == 1,
        pow16(1) == 16,
        pow16(2) == 256,
        pow16(3) == 4096,
        pow16(4) == 65536,
{
}

} // verus!

verus! {

/// Reads the escape `\u` whose hexadecimal digits start at `i`.
fn parse_unicode_escape(data: &[u8], i: usize) -> (r: Result<(u32, usize), JsonError>)
    requires
        i <= data@.len(),
    ensures
        match r {
            Ok((c, end)) => spec_unicode_escape(data@, i as int) == Ok::<(u32, int), JsonError>((c, end as int))
                && c <= 0x10FFFF && i < end <= data@.len(),
            Err(e) => spec_unicode_escape(data@, i as int) == Err::<(u32, int), JsonError>(e),
        },
{
    assert(data@.len() == data.len());
    let n = match parse_hex4(data, i) {
        Ok(n) => n,
        Err(e) => return Err(e),
    };
    if 0xDC00 <= n && n <= 0xDFFF {
        return Err(json_error(JsonErrorType::LoneLeadingSurrogateInHexEscape, i + 3));
    }
    if 0xD800 <= n && n <= 0xDBFF {
        if data.len() - i < 6 {
            return Err(json_error(JsonErrorType::EofWhileParsingString, data.len()));
        }
        if data[i + 4] != 92 || data[i + 5] != 117 {
            return Err(json_error(JsonErrorType::UnexpectedEndOfHexEscape, i + 4));
        }
        let n2 = match parse_hex4(data, i + 6) {
            Ok(n2) => n2,
            Err(e) => return Err(e),
        };
        if 0xDC00 <= n2 && n2 <= 0xDFFF {
            return Ok((0x1_0000 + (n - 0xD800) * 0x400 + (n2 - 0xDC00), i + 10));
        }
        return Err(json_error(JsonErrorType::LoneLeadingSurrogateInHexEscape, i + 9));
    }
    Ok((n, i + 4))
}

/// Decodes the JSON string whose opening quote is at `index`: borrowed from
/// the input when it holds no escape, else owned. Returns the string and the
/// index after its closing quote.
pub fn decode_string<'j>(data: &'j [u8], index: usize) -> (r: Result<(CowStr<'j>, usize), JsonError>)
    requires
        index < data@.len(),
    ensures
        match spec_string_from(data@, index + 1, Seq::empty()) {
            Ok((bytes, end)) => if valid_utf8(bytes) {
                r matches Ok((s, e)) && e == end && s@ == decode_utf8(bytes)
                    && (s is Borrowed <==> plain_string(data@, index as int, end))
            } else {
                r == Err::<(CowStr<'j>, usize), JsonError>(JsonError { error_type: JsonErrorType::InvalidUnicodeCodePoint, index: (index + 1) as usize })
            },
            Err(e) => r == Err::<(CowStr<'j>, usize), JsonError>(e),
        },
        string_result_is(r, spec_string(data@, index as int)),
        r matches Ok((_, e)) ==> e <= data@.len(),
{
    assert(data@.len() == data.len());
    let start = index + 1;
    let mut i = start;
    assert(data@.subrange(start as int, start as int) =~= Seq::<u8>::empty());
    // the text up to the first escape can be borrowed
    while i < data.len() && data[i] != 34 && data[i] != 92 && data[i] >= 0x20
        invariant
            start <= i <= data@.len(),
            start == index + 1,
            data@.len() == data.len(),
            spec_string_from(data@, start as int, Seq::empty()) == spec_string_from(data@, i as int, data@.subrange(start as int, i as int)),
            forall|j: int| start <= j < i ==> data@[j] != 92,
        decreases data@.len() - i,
    {
        proof {
            assert(data@.subrange(start as int, i as int).push(data@[i as int]) =~= data@.subrange(start as int, i + 1));
        }
        i = i + 1;
    }
    if i >= data.len() {
        return Err(json_error(JsonErrorType::EofWhileParsingString, data.len()));
    }
    if data[i] == 34 {
        let bytes = vstd::slice::slice_subrange(data, start, i);
        return match str_from_utf8(bytes) {
            Ok(s) => Ok((CowStr::Borrowed(s), i + 1)),
            Err(_) => Err(json_error(JsonErrorType::InvalidUnicodeCodePoint, start)),
        };
    }
    if data[i] < 0x20 {
        return Err(json_error(JsonErrorType::ControlCharacterWhileParsingString, i));
    }
    // an escape: the text is decoded into an owned buffer
    let mut tape: Vec<u8> = vstd::slice::slice_to_vec(vstd::slice::slice_subrange(data, start, i));
    let ghost first_escape = i;
    loop
        invariant
            start <= first_escape <= i <= data@.len(),
            start == index + 1,
            data@.len() == data.len(),
            first_escape < data@.len() && data@[first_escape as int] == 92,
            spec_string_from(data@, start as int, Seq::empty()) == spec_string_from(data@, i as int, tape@),
        decreases data@.len() - i,
    {
        if i >= data.len() {
            return Err(json_error(JsonErrorType::EofWhileParsingString, data.len()));
        }
        let b = data[i];
        if b == 34 {
            let ghost bytes = tape@;
            return match crate::cowstr::CowStr::from_utf8_owned(tape) {
                Ok(s) => {
                    proof {
                        assert(!plain_string(data@, index as int, i + 1)) by {
                            assert(data@[first_escape as int] == 92);
                        }
                    }
                    Ok((s, i + 1))
                },
                Err(_) => Err(json_error(JsonErrorType::InvalidUnicodeCodePoint, start)),
            };
        } else if b == 92 {
            if i + 1 >= data.len() {
                return Err(json_error(JsonErrorType::EofWhileParsingString, data.len()));
            }
            let e = data[i + 1];
            if e == 117 {
                match parse_unicode_escape(data, i + 2) {
                    Ok((c, end)) => {
                        push_utf8(&mut tape, c);
                        i = end;
                    },
                    Err(err) => return Err(err),
                }
            } else {
                let mapped: u8 = if e == 34 || e == 92 || e == 47 {
                    e
                } else if e == 98 {
                    8
                } else if e == 102 {
                    12
                } else if e == 110 {
                    10
                } else if e == 114 {
                    13
                } else if e == 116 {
                    9
                } else {
                    return Err(json_error(JsonErrorType::InvalidEscape, i + 1));
                };
                tape.push(mapped);
                i = i + 2;
            }
        } else if b < 0x20 {
            return Err(json_error(JsonErrorType::ControlCharacterWhileParsingString, i));
        } else {
            tape.push(b);
            i = i + 1;
        }
    }
}

/// Hexadecimal digits are read without regard to case: an uppercase letter
/// digit has the value of its lowercase form, and each lowercase digit the
/// serializer writes reads back as its value.
pub proof fn law_hex_digits_ignore_case(b: u8, d: u32)
    ensures
        65 <= b <= 70 ==> hex_value(b) is Some && hex_value(b) == hex_value((b + 32) as u8),
        d < 16 ==> hex_value(crate::json::serializer::hex_lower(d)) == Some(d),
{
}

/// Whether `other` is `data` with the case of some letters among the bytes
/// from `i` to `i + 4` changed.
pub open spec fn recased_digits(data: Seq<u8>, other: Seq<u8>, i: int) -> bool {
    &&& data.len() == other.len()
    &&& forall|k: int| 0 <= k < data.len() && !(i <= k < i + 4) ==> #[trigger] other[k] == data[k]
    &&& forall|k: int| i <= k < i + 4 && 0 <= k < data.len() ==> {
        ||| #[trigger] other[k] == data[k]
        ||| (65 <= data[k] <= 70 && other[k] == data[k] + 32)
        ||| (97 <= data[k] <= 102 && other[k] == data[k] - 32)
    }
}

/// A `\u` escape reads the same whatever the case of its hexadecimal digits:
/// the same scalar and end, or the same error.
pub proof fn law_unicode_escape_ignores_case(data: Seq<u8>, other: Seq<u8>, i: int)
    requires
        0 <= i,
        recased_digits(data, other, i),
    ensures
        spec_hex4(data, i) == spec_hex4(other, i),
        spec_unicode_escape(data, i) == spec_unicode_escape(other, i),
{
    if i + 4 <= data.len() {
        assert(hex_value(other[i]) == hex_value(data[i]));
        assert(hex_value(other[i + 1]) == hex_value(data[i + 1]));
        assert(hex_value(other[i + 2]) == hex_value(data[i + 2]));
        assert(hex_value(other[i + 3]) == hex_value(data[i + 3]));
    }
    if i + 10 <= data.len() {
        assert(other[i + 4] == data[i + 4]);
        assert(other[i + 5] == data[i + 5]);
        assert(other[i + 6] == data[i + 6]);
        assert(other[i + 7] == data[i + 7]);
        assert(other[i + 8] == data[i + 8]);
        assert(other[i + 9] == data[i + 9]);
    } else if i + 6 <= data.len() {
        assert(other[i + 4] == data[i + 4]);
        assert(other[i + 5] == data[i + 5]);
        let j = i + 6;
        if j < data.len() {
            assert(other[j] == data[j]);
        }
        if j + 1 < data.len() {
            assert(other[j + 1] == data[j + 1]);
        }
        if j + 2 < data.len() {
            assert(other[j + 2] == data[j + 2]);
        }
    }
}

/// Four lowercase hexadecimal digits of `n`, most significant first, read as
/// `n`.
pub proof fn law_hex4_reads_digits(data: Seq<u8>, i: int, n: u32)
    requires
        0 <= i,
        i + 4 <= data.len(),
        n < 0x1_0000,
        data[i] == crate::json::serializer::hex_lower(n / 0x1000),
        data[i + 1] == crate::json::serializer::hex_lower((n / 0x100) % 16),
        data[i + 2] == crate::json::serializer::hex_lower((n / 16) % 16),
        data[i + 3] == crate::json::serializer::hex_lower(n % 16),
    ensures
        spec_hex4(data, i) == Ok::<u32, JsonError>(n),
{
    law_hex_digits_ignore_case(0, n / 0x1000);
    law_hex_digits_ignore_case(0, (n / 0x100) % 16);
    law_hex_digits_ignore_case(0, (n / 16) % 16);
    law_hex_digits_ignore_case(0, n % 16);
}

/// A `\u` escape outside the surrogate range stands for that scalar; a
/// scalar beyond the basic plane escaped as a surrogate pair (high half,
/// then `\u` and the low half) reads back as the scalar.
pub proof fn law_unicode_escape_scalars(data: Seq<u8>, i: int, c: u32)
    requires
        0 <= i,
    ensures
        (c < 0xD800 || (0xE000 <= c < 0x1_0000)) && spec_hex4(data, i) == Ok::<u32, JsonError>(c)
            ==> spec_unicode_escape(data, i) == Ok::<(u32, int), JsonError>((c, i + 4)),
        (0x1_0000 <= c <= 0x10_FFFF && i + 10 <= data.len()
            && spec_hex4(data, i) == Ok::<u32, JsonError>((0xD800 + (c - 0x1_0000) / 0x400) as u32)
            && data[i + 4] == 92 && data[i + 5] == 117
            && spec_hex4(data, i + 6) == Ok::<u32, JsonError>((0xDC00 + (c - 0x1_0000) % 0x400) as u32))
            ==> spec_unicode_escape(data, i) == Ok::<(u32, int), JsonError>((c, i + 10)),
{
}

/// A one-character escape stands for its byte: `\"`, `\\` and `\/` for
/// themselves, `\b` backspace, `\f` form feed, `\n` line feed, `\r`
/// carriage return, `\t` tab; decoding goes on after the escape with that
/// byte added.
pub proof fn law_simple_escapes(data: Seq<u8>, i: int, acc: Seq<u8>)
    requires
        0 <= i,
        i + 1 < data.len(),
        data[i] == 92,
    ensures
        data[i + 1] == 34 ==> spec_string_from(data, i, acc) == spec_string_from(data, i + 2, acc.push(34u8)),
        data[i + 1] == 92 ==> spec_string_from(data, i, acc) == spec_string_from(data, i + 2, acc.push(92u8)),
        data[i + 1] == 47 ==> spec_string_from(data, i, acc) == spec_string_from(data, i + 2, acc.push(47u8)),
        data[i + 1] == 98 ==> spec_string_from(data, i, acc) == spec_string_from(data, i + 2, acc.push(8u8)),
        data[i + 1] == 102 ==> spec_string_from(data, i, acc) == spec_string_from(data, i + 2, acc.push(12u8)),
        data[i + 1] == 110 ==> spec_string_from(data, i, acc) == spec_string_from(data, i + 2, acc.push(10u8)),
        data[i + 1] == 114 ==> spec_string_from(data, i, acc) == spec_string_from(data, i + 2, acc.push(13u8)),
        data[i + 1] == 116 ==> spec_string_from(data, i, acc) == spec_string_from(data, i + 2, acc.push(9u8)),
{
}

} // verus!
