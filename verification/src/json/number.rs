//! Decoding JSON numbers: integers exactly, and the extent of any number.

use vstd::prelude::*;
use vstd::std_specs::convert::TryFromSpecImpl;
use crate::json::errors::{json_error, JsonError, JsonErrorType};
use crate::json::parse::{consume_infinity, consume_ident, spec_consume_ident};

verus! {

/// An ASCII decimal digit.
pub open spec fn is_digit(b: u8) -> bool {
    48 <= b <= 57
}

/// The first index at or after `i` that does not hold a digit.
pub open spec fn digits_end(data: Seq<u8>, i: int) -> int
    decreases data.len() - i,
{
    if 0 <= i < data.len() && is_digit(data[i]) {
        digits_end(data, i + 1)
    } else {
        i
    }
}

/// The value `acc` followed by the decimal digits `s`.
pub open spec fn acc_digits(acc: nat, s: Seq<u8>) -> nat
    decreases s.len(),
{
    if s.len() == 0 {
        acc
    } else {
        acc_digits(acc, s.drop_last()) * 10 + (s.last() - 48) as nat
    }
}

/// `10` to the power `n`.
pub open spec fn pow10(n: nat) -> nat
    decreases n,
{
    if n == 0 {
        1
    } else {
        10 * pow10((n - 1) as nat)
    }
}

/// A byte that makes an integer a float: `.`, `e` or `E`.
pub open spec fn is_float_marker(b: u8) -> bool {
    b == 46 || b == 101 || b == 69
}

/// A syntax error of the given type at `index`.
pub open spec fn err_at<T>(error_type: JsonErrorType, index: int) -> Result<T, JsonError> {
    Err(JsonError { error_type, index: index as usize })
}

pub(crate) proof fn lemma_digits_end_skip(data: Seq<u8>, i: int, k: int)
    requires
        0 <= i <= k <= data.len(),
        forall|j: int| i <= j < k ==> is_digit(#[trigger] data[j]),
    ensures
        digits_end(data, i) == digits_end(data, k),
    decreases k - i,
{
    if i < k {
        lemma_digits_end_skip(data, i + 1, k);
    }
}

proof fn lemma_digits_end_bounds(data: Seq<u8>, i: int)
    requires
        0 <= i <= data.len(),
    ensures
        i <= digits_end(data, i) <= data.len(),
        forall|j: int| i <= j < digits_end(data, i) ==> is_digit(#[trigger] data[j]),
        digits_end(data, i) < data.len() ==> !is_digit(data[digits_end(data, i)]),
    decreases data.len() - i,
{
    if i < data.len() && is_digit(data[i]) {
        lemma_digits_end_bounds(data, i + 1);
    }
}

proof fn lemma_acc_digits_bound(acc: nat, s: Seq<u8>)
    requires
        forall|j: int| 0 <= j < s.len() ==> is_digit(#[trigger] s[j]),
    ensures
        acc_digits(acc, s) < (acc + 1) * pow10(s.len()),
    decreases s.len(),
{
    if s.len() > 0 {
        let t = s.drop_last();
        assert forall|j: int| 0 <= j < t.len() implies is_digit(#[trigger] t[j]) by {
            assert(t[j] == s[j]);
        }
        lemma_acc_digits_bound(acc, t);
        let a = acc_digits(acc, t);
        let p = pow10(t.len());
        let d = (s.last() - 48) as nat;
        assert(is_digit(s[s.len() - 1]));
        assert(a * 10 + d < (acc + 1) * (10 * p)) by (nonlinear_arith)
            requires
                a < (acc + 1) * p,
                d < 10,
        ;
        assert(pow10(s.len()) == 10 * p);
        assert((acc + 1) * (10 * p) == (acc + 1) * pow10(s.len()));
    } else {
        assert(pow10(0) == 1);
        assert((acc + 1) * 1 == acc + 1);
    }
}

proof fn lemma_pow10_18()
    ensures
        pow10(17) == 100_000_000_000_000_000,
        pow10(18) == 1_000_000_000_000_000_000,
{
    reveal_with_fuel(pow10, 19);
}

proof fn lemma_pow10_mono(a: nat, b: nat)
    requires
        a <= b,
    ensures
        pow10(a) <= pow10(b),
    decreases b,
{
    if a < b {
        lemma_pow10_mono(a, (b - 1) as nat);
    }
}

/// The state of scanning a run of digits in chunks of at most 18.
pub enum IntChunk {
    /// 18 digits were read and more may follow; the value so far.
    Ongoing(u64),
    /// The run of digits ended; its value.
    Done(u64),
    /// The run of digits ended at a `.`, `e` or `E`.
    Float,
}

/// Scanning at most 18 digits from `index`, after the digits of `value`.
pub open spec fn spec_int_chunk(data: Seq<u8>, index: int, value: nat) -> (IntChunk, int) {
    let e = digits_end(data, index);
    if e - index >= 18 {
        (IntChunk::Ongoing(acc_digits(value, data.subrange(index, index + 18)) as u64), index + 18)
    } else if e < data.len() && is_float_marker(data[e]) {
        (IntChunk::Float, e)
    } else {
        (IntChunk::Done(acc_digits(value, data.subrange(index, e)) as u64), e)
    }
}

/// Reads at most 18 digits from `index`, continuing the number `value`.
pub fn decode_int_chunk_fallback(data: &[u8], index: usize, value: u64) -> (r: (IntChunk, usize))
    requires
        index <= data@.len(),
        value < 10,
    ensures
        spec_int_chunk(data@, index as int, value as nat) == (r.0, r.1 as int),
        r.1 <= data@.len(),
{
    let mut i: usize = index;
    let mut v: u64 = value;
    let mut n: usize = 0;
    proof {
        lemma_digits_end_bounds(data@, index as int);
        lemma_pow10_18();
        assert(data@.subrange(index as int, index as int) =~= Seq::<u8>::empty());
    }
    while n < 18
        invariant
            i == index + n,
            n <= 18,
            i <= data@.len(),
            data@.len() == data.len(),
            value < 10,
            pow10(18) == 1_000_000_000_000_000_000,
            forall|j: int| index <= j < i ==> is_digit(#[trigger] data@[j]),
            v == acc_digits(value as nat, data@.subrange(index as int, i as int)),
            digits_end(data@, index as int) == digits_end(data@, i as int),
        decreases 18 - n,
    {
        if i < data.len() && 48 <= data[i] && data[i] <= 57 {
            proof {
                let s = data@.subrange(index as int, i + 1);
                assert(s.drop_last() =~= data@.subrange(index as int, i as int));
                assert forall|j: int| 0 <= j < s.len() implies is_digit(#[trigger] s[j]) by {
                    assert(s[j] == data@[index + j]);
                }
                lemma_acc_digits_bound(value as nat, s);
                lemma_pow10_mono(s.len(), 18);
                assert((value + 1) * pow10(s.len()) <= 10 * pow10(18)) by (nonlinear_arith)
                    requires
                        value < 10,
                        pow10(s.len()) <= pow10(18),
                ;
            }
            v = v * 10 + (data[i] - 48) as u64;
            i = i + 1;
            n = n + 1;
        } else if i < data.len() && (data[i] == 46 || data[i] == 101 || data[i] == 69) {
            return (IntChunk::Float, i);
        } else {
            return (IntChunk::Done(v), i);
        }
    }
    (IntChunk::Ongoing(v), i)
}

} // verus!

verus! {

/// An integer, as JSON numbers without fraction or exponent are read.
#[derive(Debug, Clone, Copy, PartialEq, Eq)]
pub enum NumberInt {
    Int(i64),
}

/// The first look at a number: an integer, or which kind of float it is.
#[derive(Debug, Clone, Copy, PartialEq, Eq)]
pub enum IntParse {
    Int(NumberInt),
    Float,
    FloatInf(bool),
    FloatNaN,
}

/// Reading the integer part of the number at `index` whose first byte is `first`:
/// the integer when the number is one that fits in an `i64` (at most 19
/// digits), else which kind of float starts there, and where reading stopped.
pub open spec fn spec_int_parse(data: Seq<u8>, index: int, first: u8) -> Result<(IntParse, int), JsonError> {
    if first == 78 {
        Ok((IntParse::FloatNaN, index))
    } else {
        let positive = first != 45;
        let j = if positive { index } else { index + 1 };
        if !positive && j >= data.len() {
            err_at(JsonErrorType::EofWhileParsingValue, j)
        } else {
            let d = if positive { first } else { data[j] };
            if d == 48 {
                if j + 1 < data.len() && is_float_marker(data[j + 1]) {
                    Ok((IntParse::Float, j + 1))
                } else if j + 1 < data.len() && is_digit(data[j + 1]) {
                    err_at(JsonErrorType::InvalidNumber, j + 1)
                } else {
                    Ok((IntParse::Int(NumberInt::Int(0)), j + 1))
                }
            } else if d == 73 {
                Ok((IntParse::FloatInf(positive), j))
            } else if 49 <= d <= 57 {
                let e = digits_end(data, j + 1);
                if e - (j + 1) > 18 {
                    err_at(JsonErrorType::NumberOutOfRange, j + 1)
                } else if e < data.len() && is_float_marker(data[e]) {
                    Ok((IntParse::Float, e))
                } else {
                    let v = if e > j + 1 { acc_digits((d - 48) as nat, data.subrange(j + 1, e)) } else { (d - 48) as nat };
                    if (positive && v > i64::MAX) || (!positive && v > 0x8000_0000_0000_0000) {
                        err_at(JsonErrorType::NumberOutOfRange, j + 1)
                    } else {
                        Ok((IntParse::Int(NumberInt::Int(if positive { v as i64 } else { -v as i64 })), e))
                    }
                }
            } else {
                err_at(JsonErrorType::InvalidNumber, j)
            }
        }
    }
}

impl IntParse {
    /// Reads the integer part of the number at `index`, whose first byte is `first`.
    pub fn parse(data: &[u8], index: usize, first: u8) -> (r: Result<(IntParse, usize), JsonError>)
        requires
            index < data@.len(),
        ensures
            r matches Ok((p, end)) ==> spec_int_parse(data@, index as int, first) == Ok::<(IntParse, int), JsonError>((p, end as int)),
            r matches Err(e) ==> spec_int_parse(data@, index as int, first) == Err::<(IntParse, int), JsonError>(e),
            r matches Ok((_, end)) ==> end <= data@.len(),
    {
        assert(data@.len() == data.len());
        if first == 78 {
            return Ok((IntParse::FloatNaN, index));
        }
        let positive = first != 45;
        let j = if positive { index } else { index + 1 };
        if !positive && j >= data.len() {
            return Err(json_error(JsonErrorType::EofWhileParsingValue, j));
        }
        let d = if positive { first } else { data[j] };
        if d == 48 {
            let k = j + 1;
            if k < data.len() && (data[k] == 46 || data[k] == 101 || data[k] == 69) {
                return Ok((IntParse::Float, k));
            } else if k < data.len() && 48 <= data[k] && data[k] <= 57 {
                return Err(json_error(JsonErrorType::InvalidNumber, k));
            } else {
                return Ok((IntParse::Int(NumberInt::Int(0)), k));
            }
        } else if d == 73 {
            return Ok((IntParse::FloatInf(positive), j));
        } else if 49 <= d && d <= 57 {
            let k = j + 1;
            let (chunk, new_index) = IntChunk::parse_small(data, k, (d - 48) as u64);
            proof {
                lemma_digits_end_bounds(data@, k as int);
                lemma_pow10_18();
                let e = digits_end(data@, k as int);
                if e - k < 18 {
                    let s = data@.subrange(k as int, e);
                    assert forall|i: int| 0 <= i < s.len() implies is_digit(#[trigger] s[i]) by {
                        assert(s[i] == data@[k + i]);
                    }
                    lemma_acc_digits_bound((d - 48) as nat, s);
                    lemma_pow10_mono(s.len(), 17);
                    assert(((d - 48) + 1) * pow10(s.len()) <= 10 * pow10(17)) by (nonlinear_arith)
                        requires
                            d - 48 < 10,
                            pow10(s.len()) <= pow10(17),
                    ;
                }
            }
            match chunk {
                IntChunk::Ongoing(value) => {
                    proof {
                        let s19 = data@.subrange(k as int, k + 18);
                        assert forall|i: int| 0 <= i < s19.len() implies is_digit(#[trigger] s19[i]) by {
                            assert(s19[i] == data@[k + i]);
                        }
                        lemma_acc_digits_bound((d - 48) as nat, s19);
                        assert(((d - 48) + 1) * pow10(18) <= 10 * pow10(18)) by (nonlinear_arith)
                            requires
                                d - 48 < 10,
                        ;
                    }
                    if new_index < data.len() && 48 <= data[new_index] && data[new_index] <= 57 {
                        Err(json_error(JsonErrorType::NumberOutOfRange, k))
                    } else if new_index < data.len() && (data[new_index] == 46 || data[new_index] == 101 || data[new_index] == 69) {
                        proof {
                            lemma_digits_end_skip(data@, k as int, new_index as int);
                        }
                        Ok((IntParse::Float, new_index))
                    } else {
                        proof {
                            lemma_digits_end_skip(data@, k as int, new_index as int);
                        }
                        if positive {
                            if value > 0x7fff_ffff_ffff_ffff {
                                Err(json_error(JsonErrorType::NumberOutOfRange, k))
                            } else {
                                Ok((IntParse::Int(NumberInt::Int(value as i64)), new_index))
                            }
                        } else if value > 0x8000_0000_0000_0000 {
                            Err(json_error(JsonErrorType::NumberOutOfRange, k))
                        } else if value == 0x8000_0000_0000_0000 {
                            Ok((IntParse::Int(NumberInt::Int(i64::MIN)), new_index))
                        } else {
                            Ok((IntParse::Int(NumberInt::Int(-(value as i64))), new_index))
                        }
                    }
                },
                IntChunk::Done(value) => {
                    assert(value <= 0x7fff_ffff_ffff_ffff);
                    let mut value_i64 = value as i64;
                    if !positive {
                        value_i64 = -value_i64;
                    }
                    Ok((IntParse::Int(NumberInt::Int(value_i64)), new_index))
                },
                IntChunk::Float => Ok((IntParse::Float, new_index)),
            }
        } else {
            Err(json_error(JsonErrorType::InvalidNumber, j))
        }
    }
}

impl IntChunk {
    /// Reads at most 18 more digits of a number whose first digit is `value`.
    pub fn parse_small(data: &[u8], index: usize, value: u64) -> (r: (IntChunk, usize))
        requires
            index <= data@.len(),
            value < 10,
        ensures
            spec_int_chunk(data@, index as int, value as nat) == (r.0, r.1 as int),
            r.1 <= data@.len(),
    {
        decode_int_chunk_fallback(data, index, value)
    }

    /// Reads at most 18 more digits of a number.
    pub fn parse_big(data: &[u8], index: usize) -> (r: (IntChunk, usize))
        requires
            index <= data@.len(),
        ensures
            spec_int_chunk(data@, index as int, 0) == (r.0, r.1 as int),
            r.1 <= data@.len(),
    {
        decode_int_chunk_fallback(data, index, 0)
    }
}

} // verus!

verus! {

/// The end of an exponent whose first byte (after `e` or `E`) is at `i`.
pub open spec fn spec_consume_exponential(data: Seq<u8>, i: int) -> Result<int, JsonError> {
    if i >= data.len() {
        err_at(JsonErrorType::EofWhileParsingValue, i)
    } else {
        let signed = data[i] == 45 || data[i] == 43;
        if !signed && !is_digit(data[i]) {
            err_at(JsonErrorType::InvalidNumber, i)
        } else {
            let j = if signed { i + 1 } else { i };
            if j >= data.len() {
                err_at(JsonErrorType::EofWhileParsingValue, j)
            } else if !is_digit(data[j]) {
                err_at(JsonErrorType::InvalidNumber, j)
            } else {
                Ok(digits_end(data, j + 1))
            }
        }
    }
}

/// The end of a fraction (and any exponent after it) whose first digit is at `i`.
pub open spec fn spec_consume_decimal(data: Seq<u8>, i: int) -> Result<int, JsonError> {
    if i >= data.len() {
        err_at(JsonErrorType::EofWhileParsingValue, i)
    } else if !is_digit(data[i]) {
        err_at(JsonErrorType::InvalidNumber, i)
    } else {
        let e = digits_end(data, i + 1);
        if e < data.len() && (data[e] == 101 || data[e] == 69) {
            spec_consume_exponential(data, e + 1)
        } else {
            Ok(e)
        }
    }
}

/// Whether a result of exec code equals a result of a spec function.
pub open spec fn same_end(r: Result<usize, JsonError>, s: Result<int, JsonError>) -> bool {
    match r {
        Ok(end) => s == Ok::<int, JsonError>(end as int),
        Err(e) => s == Err::<int, JsonError>(e),
    }
}

/// Consumes an exponent whose first byte (after `e` or `E`) is at `index`.
pub fn consume_exponential(data: &[u8], index: usize) -> (r: Result<usize, JsonError>)
    requires
        index <= data@.len(),
    ensures
        r matches Ok(end) ==> end <= data@.len(),
        same_end(r, spec_consume_exponential(data@, index as int)),
{
    assert(data@.len() == data.len());
    let mut i = index;
    if i >= data.len() {
        return Err(json_error(JsonErrorType::EofWhileParsingValue, i));
    }
    if data[i] == 45 || data[i] == 43 {
        i = i + 1;
    } else if !(48 <= data[i] && data[i] <= 57) {
        return Err(json_error(JsonErrorType::InvalidNumber, i));
    }
    if i >= data.len() {
        return Err(json_error(JsonErrorType::EofWhileParsingValue, i));
    }
    if !(48 <= data[i] && data[i] <= 57) {
        return Err(json_error(JsonErrorType::InvalidNumber, i));
    }
    i = i + 1;
    while i < data.len() && 48 <= data[i] && data[i] <= 57
        invariant
            index < i <= data@.len(),
            data@.len() == data.len(),
            spec_consume_exponential(data@, index as int) == Ok::<int, JsonError>(digits_end(data@, i as int)),
        decreases data@.len() - i,
    {
        i = i + 1;
    }
    Ok(i)
}

/// Consumes a fraction (and any exponent after it) whose first digit is at `index`.
pub fn consume_decimal(data: &[u8], index: usize) -> (r: Result<usize, JsonError>)
    requires
        index <= data@.len(),
    ensures
        r matches Ok(end) ==> end <= data@.len(),
        same_end(r, spec_consume_decimal(data@, index as int)),
{
    assert(data@.len() == data.len());
    let mut i = index;
    if i >= data.len() {
        return Err(json_error(JsonErrorType::EofWhileParsingValue, i));
    }
    if !(48 <= data[i] && data[i] <= 57) {
        return Err(json_error(JsonErrorType::InvalidNumber, i));
    }
    i = i + 1;
    while i < data.len()
        invariant
            index < i <= data@.len(),
            data@.len() == data.len(),
            digits_end(data@, index + 1) == digits_end(data@, i as int),
            spec_consume_decimal(data@, index as int) == (if digits_end(data@, index + 1) < data@.len() && (data@[digits_end(data@, index + 1)] == 101 || data@[digits_end(data@, index + 1)] == 69) {
                spec_consume_exponential(data@, digits_end(data@, index + 1) + 1)
            } else {
                Ok(digits_end(data@, index + 1))
            }),
        decreases data@.len() - i,
    {
        if 48 <= data[i] && data[i] <= 57 {
            i = i + 1;
            assert(i == data@.len() ==> digits_end(data@, i as int) == i);
        } else if data[i] == 101 || data[i] == 69 {
            return consume_exponential(data, i + 1);
        } else {
            return Ok(i);
        }
    }
    Ok(i)
}

/// Consumes `Infinity` at `index`, which only `allow_inf_nan` permits.
pub open spec fn spec_consume_inf(data: Seq<u8>, index: int, positive: bool, allow_inf_nan: bool) -> Result<int, JsonError> {
    if allow_inf_nan {
        spec_consume_ident(data, index, seq![110u8, 102, 105, 110, 105, 116, 121])
    } else if positive {
        err_at(JsonErrorType::ExpectedSomeValue, index)
    } else {
        err_at(JsonErrorType::InvalidNumber, index)
    }
}

/// Consumes `NaN` at `index`, which only `allow_inf_nan` permits.
pub open spec fn spec_consume_nan(data: Seq<u8>, index: int, allow_inf_nan: bool) -> Result<int, JsonError> {
    if allow_inf_nan {
        spec_consume_ident(data, index, seq![97u8, 78])
    } else {
        err_at(JsonErrorType::ExpectedSomeValue, index)
    }
}

fn consume_inf(data: &[u8], index: usize, positive: bool, allow_inf_nan: bool) -> (r: Result<usize, JsonError>)
    requires
        index < data@.len() < usize::MAX,
    ensures
        r matches Ok(end) ==> end <= data@.len(),
        same_end(r, spec_consume_inf(data@, index as int, positive, allow_inf_nan)),
{
    if allow_inf_nan {
        let r = consume_infinity(data, index);
        proof {
            reveal_strlit("nfinity");
            assert("nfinity"@.map_values(|c: char| c as u8) =~= seq![110u8, 102, 105, 110, 105, 116, 121]);
        }
        r
    } else if positive {
        Err(json_error(JsonErrorType::ExpectedSomeValue, index))
    } else {
        Err(json_error(JsonErrorType::InvalidNumber, index))
    }
}

/// Consumes `NaN`, returning where it ends.
fn consume_nan(data: &[u8], index: usize, allow_inf_nan: bool) -> (r: Result<usize, JsonError>)
    requires
        index <= data@.len() < usize::MAX,
    ensures
        r matches Ok(end) ==> end <= data@.len(),
        same_end(r, spec_consume_nan(data@, index as int, allow_inf_nan)),
{
    if allow_inf_nan {
        let rest: [u8; 2] = [97, 78];
        assert(rest@ =~= seq![97u8, 78]);
        consume_ident(data, index, &rest)
    } else {
        Err(json_error(JsonErrorType::ExpectedSomeValue, index))
    }
}

} // verus!

verus! {

/// Where a number lies in the input, and whether it is an integer.
#[derive(Debug)]
pub struct NumberRange {
    pub range: core::ops::Range<usize>,
    pub is_int: bool,
}

impl NumberRange {
    fn integer(start: usize, end: usize) -> (r: Self)
        ensures
            r.range.start == start && r.range.end == end && r.is_int,
    {
        NumberRange { range: start..end, is_int: true }
    }

    fn floating(start: usize, end: usize) -> (r: Self)
        ensures
            r.range.start == start && r.range.end == end && !r.is_int,
    {
        NumberRange { range: start..end, is_int: false }
    }
}

/// The extent of the JSON number at `index` whose first byte is `first`:
/// whether it is an integer and where it ends, or the syntax error.
/// Integers have at most 4300 digits.
pub open spec fn spec_number_range(data: Seq<u8>, index: int, first: u8, allow_inf_nan: bool) -> Result<(bool, int), JsonError> {
    let as_float = |r: Result<int, JsonError>| -> Result<(bool, int), JsonError> {
        match r {
            Ok(end) => Ok((false, end)),
            Err(e) => Err(e),
        }
    };
    if first == 78 {
        as_float(spec_consume_nan(data, index, allow_inf_nan))
    } else {
        let positive = first != 45;
        let j = if positive { index } else { index + 1 };
        if j >= data.len() {
            err_at(JsonErrorType::EofWhileParsingValue, j)
        } else if data[j] == 48 {
            let k = j + 1;
            if k < data.len() && data[k] == 46 {
                as_float(spec_consume_decimal(data, k + 1))
            } else if k < data.len() && (data[k] == 101 || data[k] == 69) {
                as_float(spec_consume_exponential(data, k + 1))
            } else if k < data.len() && is_digit(data[k]) {
                err_at(JsonErrorType::InvalidNumber, k)
            } else {
                Ok((true, k))
            }
        } else if data[j] == 73 {
            as_float(spec_consume_inf(data, j, positive, allow_inf_nan))
        } else if 49 <= data[j] <= 57 {
            let e = digits_end(data, j + 1);
            if e - (j + 1) >= 18 && e - index > 4300 {
                err_at(JsonErrorType::NumberOutOfRange, index + 4301)
            } else if e < data.len() && data[e] == 46 {
                as_float(spec_consume_decimal(data, e + 1))
            } else if e < data.len() && (data[e] == 101 || data[e] == 69) {
                as_float(spec_consume_exponential(data, e + 1))
            } else {
                Ok((true, e))
            }
        } else {
            err_at(JsonErrorType::InvalidNumber, j)
        }
    }
}

/// Whether a decoded number range is the spec's result.
pub open spec fn range_is(r: Result<(NumberRange, usize), JsonError>, index: int, s: Result<(bool, int), JsonError>) -> bool {
    match r {
        Ok((nr, end)) => s == Ok::<(bool, int), JsonError>((nr.is_int, end as int)) && nr.range.start
            == index && nr.range.end == end,
        Err(e) => s == Err::<(bool, int), JsonError>(e),
    }
}

fn float_range(start: usize, r: Result<usize, JsonError>) -> (out: Result<(NumberRange, usize), JsonError>)
    ensures
        match r {
            Ok(end) => out matches Ok((nr, e)) && e == end && nr.range.start == start && nr.range.end
                == end && !nr.is_int,
            Err(err) => out == Err::<(NumberRange, usize), JsonError>(err),
        },
{
    match r {
        Ok(end) => Ok((NumberRange::floating(start, end), end)),
        Err(e) => Err(e),
    }
}

impl NumberRange {
    /// Finds the extent of the number at `index`, whose first byte is `first`.
    #[verifier::rlimit(30)]
    pub fn decode(data: &[u8], index: usize, first: u8, allow_inf_nan: bool) -> (r: Result<(NumberRange, usize), JsonError>)
        requires
            index <= data@.len() < usize::MAX,
        ensures
            r matches Ok((_, end)) ==> end <= data@.len(),
            range_is(r, index as int, spec_number_range(data@, index as int, first, allow_inf_nan)),
    {
        assert(data@.len() == data.len());
        let start = index;
        if first == 78 {
            return float_range(start, consume_nan(data, index, allow_inf_nan));
        }
        let positive = first != 45;
        let j = if positive { index } else { index + 1 };
        if j >= data.len() {
            return Err(json_error(JsonErrorType::EofWhileParsingValue, j));
        }
        if data[j] == 48 {
            let k = j + 1;
            if k < data.len() && data[k] == 46 {
                return float_range(start, consume_decimal(data, k + 1));
            } else if k < data.len() && (data[k] == 101 || data[k] == 69) {
                return float_range(start, consume_exponential(data, k + 1));
            } else if k < data.len() && 48 <= data[k] && data[k] <= 57 {
                return Err(json_error(JsonErrorType::InvalidNumber, k));
            } else {
                return Ok((NumberRange::integer(start, k), k));
            }
        } else if data[j] == 73 {
            return float_range(start, consume_inf(data, j, positive, allow_inf_nan));
        } else if !(49 <= data[j] && data[j] <= 57) {
            return Err(json_error(JsonErrorType::InvalidNumber, j));
        }
        let mut i = j + 1;
        let mut n: usize = 0;
        proof {
            lemma_digits_end_bounds(data@, i as int);
        }
        while n < 18
            invariant
                i == j + 1 + n,
                n <= 18,
                j < data@.len(),
                i <= data@.len(),
                data@.len() == data.len(),
                digits_end(data@, j + 1) == digits_end(data@, i as int),
                forall|q: int| j + 1 <= q < i ==> is_digit(#[trigger] data@[q]),
                first != 78,
                j == (if first != 45 { start as int } else { start + 1 }),
                start == index,
                49 <= data@[j as int] <= 57,
            decreases 18 - n,
        {
            if i < data.len() && 48 <= data[i] && data[i] <= 57 {
                i = i + 1;
                n = n + 1;
            } else if i < data.len() && data[i] == 46 {
                return float_range(start, consume_decimal(data, i + 1));
            } else if i < data.len() && (data[i] == 101 || data[i] == 69) {
                return float_range(start, consume_exponential(data, i + 1));
            } else {
                return Ok((NumberRange::integer(start, i), i));
            }
        }
        loop
            invariant
                j + 19 <= i <= data@.len(),
                j < data@.len(),
                data@.len() == data.len(),
                start <= j <= start + 1,
                digits_end(data@, j + 1) == digits_end(data@, i as int),
                i - start <= 4300,
                first != 78,
                j == (if first != 45 { start as int } else { start + 1 }),
                start == index,
                49 <= data@[j as int] <= 57,
            decreases data@.len() - i,
        {
            let (chunk, new_index) = IntChunk::parse_big(data, i);
            proof {
                lemma_digits_end_bounds(data@, i as int);
                let e = digits_end(data@, i as int);
                if e - i >= 18 {
                    lemma_digits_end_skip(data@, i as int, i + 18);
                }
            }
            if new_index - start > 4300 {
                return Err(json_error(JsonErrorType::NumberOutOfRange, start + 4301));
            }
            match chunk {
                IntChunk::Ongoing(_) => {
                    i = new_index;
                },
                IntChunk::Done(_) => {
                    return Ok((NumberRange::integer(start, new_index), new_index));
                },
                IntChunk::Float => {
                    if data[new_index] == 46 {
                        return float_range(start, consume_decimal(data, new_index + 1));
                    } else {
                        return float_range(start, consume_exponential(data, new_index + 1));
                    }
                },
            }
        }
    }
}

} // verus!

verus! {

/// Decoders of numbers: each reads the number at `index`, whose first byte
/// is `first`, and returns what it decodes and where the number ends.
pub trait AbstractNumberDecoder {
    type Output;

    fn decode(data: &[u8], index: usize, first: u8, allow_inf_nan: bool) -> Result<(Self::Output, usize), JsonError>
        requires
            index < data@.len() < usize::MAX,
    ;
}

/// Reading an integer at `index`: the integer and where it ends, or an error
/// (a float is an error at the byte where its fraction or exponent begins).
pub open spec fn spec_number_int(data: Seq<u8>, index: int, first: u8) -> Result<(NumberInt, int), JsonError> {
    match spec_int_parse(data, index, first) {
        Ok((IntParse::Int(n), end)) => Ok((n, end)),
        Ok((_, end)) => err_at(JsonErrorType::FloatExpectingInt, end),
        Err(e) => Err(e),
    }
}

/// Reading all of `value` as an integer.
pub open spec fn spec_number_int_exact(value: Seq<u8>) -> Result<NumberInt, JsonError> {
    if value.len() == 0 {
        err_at(JsonErrorType::InvalidNumber, 0)
    } else {
        match spec_int_parse(value, 0, value[0]) {
            Ok((IntParse::Int(n), end)) => if end == value.len() {
                Ok(n)
            } else {
                err_at(JsonErrorType::InvalidNumber, end)
            },
            Ok((_, end)) => err_at(JsonErrorType::InvalidNumber, end),
            Err(e) => Err(e),
        }
    }
}

impl AbstractNumberDecoder for NumberInt {
    type Output = NumberInt;

    fn decode(data: &[u8], index: usize, first: u8, allow_inf_nan: bool) -> (r: Result<(NumberInt, usize), JsonError>)
        ensures
            match r {
                Ok((n, end)) => spec_number_int(data@, index as int, first) == Ok::<(NumberInt, int), JsonError>((n, end as int)),
                Err(e) => spec_number_int(data@, index as int, first) == Err::<(NumberInt, int), JsonError>(e),
            },
            r matches Ok((_, end)) ==> end <= data@.len(),
    {
        match IntParse::parse(data, index, first) {
            Ok((IntParse::Int(n), end)) => Ok((n, end)),
            Ok((_, end)) => Err(json_error(JsonErrorType::FloatExpectingInt, end)),
            Err(e) => Err(e),
        }
    }
}

impl AbstractNumberDecoder for NumberRange {
    type Output = NumberRange;

    fn decode(data: &[u8], index: usize, first: u8, allow_inf_nan: bool) -> (r: Result<(NumberRange, usize), JsonError>)
        ensures
            range_is(r, index as int, spec_number_range(data@, index as int, first, allow_inf_nan)),
    {
        NumberRange::decode(data, index, first, allow_inf_nan)
    }
}

impl<'a> TryFrom<&'a [u8]> for NumberInt {
    type Error = JsonError;

    fn try_from(value: &'a [u8]) -> (r: Result<NumberInt, JsonError>) {
        if value.len() == 0 {
            return Err(json_error(JsonErrorType::InvalidNumber, 0));
        }
        let first = value[0];
        match IntParse::parse(value, 0, first) {
            Ok((IntParse::Int(n), end)) => {
                if end == value.len() {
                    Ok(n)
                } else {
                    Err(json_error(JsonErrorType::InvalidNumber, end))
                }
            },
            Ok((_, end)) => Err(json_error(JsonErrorType::InvalidNumber, end)),
            Err(e) => Err(e),
        }
    }
}

impl<'a> TryFromSpecImpl<&'a [u8]> for NumberInt {
    open spec fn obeys_try_from_spec() -> bool {
        true
    }

    open spec fn try_from_spec(value: &'a [u8]) -> Result<NumberInt, JsonError> {
        spec_number_int_exact(value@)
    }
}

/// The digits from `i` run exactly to `digits_end(data, i)`: every byte
/// before it is a decimal digit, and the byte at it (if any) is not.
pub proof fn law_digits_end(data: Seq<u8>, i: int)
    requires
        0 <= i <= data.len(),
    ensures
        i <= digits_end(data, i) <= data.len(),
        forall|k: int| i <= k < digits_end(data, i) ==> 48 <= #[trigger] data[k] <= 57,
        digits_end(data, i) < data.len() ==> !(48 <= data[digits_end(data, i)] <= 57),
    decreases data.len() - i,
{
    if i < data.len() && is_digit(data[i]) {
        law_digits_end(data, i + 1);
    }
}

/// An exponent may carry a sign, `+` or `-`, or none: after `e` or `E`, an
/// optional sign and then a digit, the exponent runs to the end of its
/// digits, the same way for either sign.
pub proof fn law_exponent_sign_is_optional(data: Seq<u8>, i: int)
    requires
        0 <= i,
        i + 1 < data.len(),
        48 <= data[i + 1] <= 57,
    ensures
        data[i] == 43 ==> spec_consume_exponential(data, i) == Ok::<int, JsonError>(digits_end(data, i + 2)),
        data[i] == 45 ==> spec_consume_exponential(data, i) == Ok::<int, JsonError>(digits_end(data, i + 2)),
        48 <= data[i] <= 57 ==> spec_consume_exponential(data, i) == Ok::<int, JsonError>(digits_end(data, i + 2)),
{
}

/// A number with an exponent, such as `1e+5`, `1E-5` or `1e5`, is a float
/// whose text runs to the end of the exponent's digits.
pub proof fn law_exponent_number_extent(data: Seq<u8>, index: int, allow_inf_nan: bool)
    requires
        0 <= index,
        index + 3 < data.len(),
        49 <= data[index] <= 57,
        data[index + 1] == 101 || data[index + 1] == 69,
        data[index + 2] == 43 || data[index + 2] == 45 || 48 <= data[index + 2] <= 57,
        48 <= data[index + 3] <= 57,
    ensures
        spec_number_range(data, index, data[index], allow_inf_nan)
            == Ok::<(bool, int), JsonError>((false, digits_end(data, index + 3))),
{
    assert(digits_end(data, index + 1) == index + 1);
    law_exponent_sign_is_optional(data, index + 2);
}

} // verus!
