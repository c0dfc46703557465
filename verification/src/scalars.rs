//! Reading numbers, booleans and strings from single events, as the
//! deserializers of those types do: integers of one kind are converted to
//! another when they fit, and floats are cast to integers.

use vstd::prelude::*;
use vstd::arithmetic::power2::pow2;
use crate::cowstr::CowStr;
use crate::error::{EventType, MerdeError};
use crate::event::{event_type_of, Event};
use crate::value::is_nan_bits;

verus! {

/// The biased exponent field of a binary64 bit pattern.
pub open spec fn f64_exponent(bits: u64) -> nat {
    (bits as nat / pow2(52)) % 2048
}

/// The fraction field of a binary64 bit pattern.
pub open spec fn f64_fraction(bits: u64) -> nat {
    bits as nat % pow2(52)
}

/// Whether a binary64 bit pattern is an infinity.
pub open spec fn is_infinite_bits(bits: u64) -> bool {
    f64_exponent(bits) == 2047 && f64_fraction(bits) == 0
}

/// The magnitude of a finite binary64 number, rounded towards zero.
pub open spec fn f64_trunc_magnitude(bits: u64) -> nat {
    let e = f64_exponent(bits);
    let m = if e == 0 { f64_fraction(bits) } else { f64_fraction(bits) + pow2(52) };
    let ee: nat = if e == 0 { 1 } else { e };
    if ee >= 1075 {
        m * pow2((ee - 1075) as nat)
    } else {
        m / pow2((1075 - ee) as nat)
    }
}

/// A finite binary64 number rounded towards zero.
pub open spec fn f64_trunc(bits: u64) -> int {
    if bits >= 0x8000_0000_0000_0000u64 {
        -f64_trunc_magnitude(bits)
    } else {
        f64_trunc_magnitude(bits) as int
    }
}

/// `x` clamped to `[lo, hi]`.
pub open spec fn clamp(x: int, lo: int, hi: int) -> int {
    if x < lo {
        lo
    } else if x > hi {
        hi
    } else {
        x
    }
}

/// Casting a float to an `i64`: rounded towards zero, saturating at the
/// bounds, and `0` for NaN.
pub open spec fn f64_to_i64(bits: u64) -> i64 {
    if is_nan_bits(bits) {
        0
    } else if is_infinite_bits(bits) {
        if bits >= 0x8000_0000_0000_0000u64 { i64::MIN } else { i64::MAX }
    } else {
        clamp(f64_trunc(bits), i64::MIN as int, i64::MAX as int) as i64
    }
}

/// Casting a float to a `u64`: rounded towards zero, saturating at the
/// bounds, and `0` for NaN.
pub open spec fn f64_to_u64(bits: u64) -> u64 {
    if is_nan_bits(bits) {
        0
    } else if is_infinite_bits(bits) {
        if bits >= 0x8000_0000_0000_0000u64 { 0 } else { u64::MAX }
    } else {
        clamp(f64_trunc(bits), 0, u64::MAX as int) as u64
    }
}

proof fn lemma_fields(bits: u64)
    ensures
        (bits >> 52u64) & 0x7FFu64 == f64_exponent(bits),
        bits & 0xF_FFFF_FFFF_FFFFu64 == f64_fraction(bits),
        (bits >> 63u64 == 1) == (bits >= 0x8000_0000_0000_0000u64),
        f64_fraction(bits) < pow2(52),
        is_nan_bits(bits) == (f64_exponent(bits) == 2047 && f64_fraction(bits) != 0),
{
    vstd::arithmetic::power2::lemma2_to64();
    vstd::arithmetic::power2::lemma2_to64_rest();
    vstd::bits::lemma_u64_shr_is_div(bits, 52);
    assert((bits >> 52u64) & 0x7FFu64 == (bits >> 52u64) % 2048) by (bit_vector);
    assert(bits & 0xF_FFFF_FFFF_FFFFu64 == bits % 0x10_0000_0000_0000u64) by (bit_vector);
    assert((bits >> 63u64 == 1) == (bits >= 0x8000_0000_0000_0000u64)) by (bit_vector);
    assert(((bits & 0x7FF0_0000_0000_0000u64) == 0x7FF0_0000_0000_0000u64) == ((bits >> 52u64) & 0x7FFu64 == 0x7FFu64))
        by (bit_vector);
}

/// The magnitude of a finite float, rounded towards zero, or `None` when it
/// is at least 2^64.
fn trunc_magnitude(bits: u64) -> (r: Option<u64>)
    requires
        f64_exponent(bits) != 2047,
    ensures
        r matches Some(m) ==> m == f64_trunc_magnitude(bits),
        r is None ==> f64_trunc_magnitude(bits) >= 0x1_0000_0000_0000_0000,
{
    proof {
        lemma_fields(bits);
        vstd::arithmetic::power2::lemma2_to64();
        vstd::arithmetic::power2::lemma2_to64_rest();
    }
    let e = (bits >> 52u64) & 0x7FFu64;
    let frac = bits & 0xF_FFFF_FFFF_FFFFu64;
    let m: u64 = if e == 0 { frac } else { frac + 0x10_0000_0000_0000u64 };
    let ee: u64 = if e == 0 { 1 } else { e };
    if ee >= 1075 {
        let sh = ee - 1075;
        if sh >= 12 {
            proof {
                lemma_pow2_at_least(12, sh as nat);
                assert(m * pow2(sh as nat) >= pow2(52) * pow2(12)) by (nonlinear_arith)
                    requires
                        m >= pow2(52),
                        pow2(sh as nat) >= pow2(12),
                ;
                vstd::arithmetic::power2::lemma_pow2_adds(52, 12);
            }
            None
        } else {
            proof {
                lemma_pow2_at_least(sh as nat, 11);
                assert(m * pow2(sh as nat) < pow2(53) * pow2(11)) by (nonlinear_arith)
                    requires
                        m < pow2(53),
                        pow2(sh as nat) <= pow2(11),
                        pow2(sh as nat) > 0,
                ;
                vstd::arithmetic::power2::lemma_pow2_adds(53, 11);
                vstd::bits::lemma_u64_shl_is_mul(m, sh);
            }
            Some(m << sh)
        }
    } else {
        let sh = 1075 - ee;
        if sh >= 64 {
            proof {
                lemma_pow2_at_least(53, sh as nat);
                assert(m < pow2(sh as nat));
                vstd::arithmetic::div_mod::lemma_basic_div(m as int, pow2(sh as nat) as int);
            }
            Some(0)
        } else {
            proof {
                vstd::bits::lemma_u64_shr_is_div(m, sh);
            }
            Some(m >> sh)
        }
    }
}

proof fn lemma_pow2_at_least(a: nat, b: nat)
    requires
        a <= b,
    ensures
        pow2(a) <= pow2(b),
{
    if a < b {
        vstd::arithmetic::power2::lemma_pow2_strictly_increases(a, b);
    }
}

/// Casts a float, given by its bit pattern, to an `i64` (see `f64_to_i64`).
pub fn cast_f64_to_i64(bits: u64) -> (r: i64)
    ensures
        r == f64_to_i64(bits),
{
    proof {
        lemma_fields(bits);
    }
    let e = (bits >> 52u64) & 0x7FFu64;
    let frac = bits & 0xF_FFFF_FFFF_FFFFu64;
    let neg = (bits >> 63u64) == 1;
    if e == 0x7FF {
        if frac != 0 {
            0
        } else if neg {
            i64::MIN
        } else {
            i64::MAX
        }
    } else {
        match trunc_magnitude(bits) {
            Some(m) => if neg {
                if m >= 0x8000_0000_0000_0000u64 {
                    i64::MIN
                } else {
                    -(m as i64)
                }
            } else {
                if m > 0x7FFF_FFFF_FFFF_FFFFu64 {
                    i64::MAX
                } else {
                    m as i64
                }
            },
            None => if neg {
                i64::MIN
            } else {
                i64::MAX
            },
        }
    }
}

/// Casts a float, given by its bit pattern, to a `u64` (see `f64_to_u64`).
pub fn cast_f64_to_u64(bits: u64) -> (r: u64)
    ensures
        r == f64_to_u64(bits),
{
    proof {
        lemma_fields(bits);
    }
    let e = (bits >> 52u64) & 0x7FFu64;
    let frac = bits & 0xF_FFFF_FFFF_FFFFu64;
    let neg = (bits >> 63u64) == 1;
    if e == 0x7FF {
        if frac != 0 {
            0
        } else if neg {
            0
        } else {
            u64::MAX
        }
    } else if neg {
        0
    } else {
        match trunc_magnitude(bits) {
            Some(m) => m,
            None => u64::MAX,
        }
    }
}

/// Whether `e` is the error for an event of kind `got` where one of the
/// kinds in `expected` was wanted.
pub open spec fn unexpected_is(e: MerdeError, got: EventType, expected: Seq<EventType>) -> bool {
    e matches MerdeError::UnexpectedEvent { got: g, expected: x, help: h } && g == got && x@ == expected && h is None
}

fn unexpected_error<'s>(got: EventType, list: &[EventType]) -> (r: MerdeError<'s>)
    ensures
        unexpected_is(r, got, list@),
{
    let mut v: Vec<EventType> = Vec::new();
    let mut i: usize = 0;
    while i < list.len()
        invariant
            i <= list@.len(),
            v@ == list@.take(i as int),
        decreases list@.len() - i,
    {
        v.push(list[i]);
        i = i + 1;
        proof {
            assert(v@ =~= list@.take(i as int));
        }
    }
    proof {
        assert(list@.take(list@.len() as int) =~= list@);
    }
    MerdeError::UnexpectedEvent { got, expected: v, help: None }
}

/// An `i64` from an event: an `I64`, a `U64` that fits (else out of range),
/// or a float cast to an integer.
pub fn deserialize_i64<'s>(ev: Event<'s>) -> (r: Result<i64, MerdeError<'s>>)
    ensures
        ev matches Event::I64(i) ==> r == Ok::<i64, MerdeError<'s>>(i),
        ev matches Event::U64(u) ==> if u <= i64::MAX {
            r == Ok::<i64, MerdeError<'s>>(u as i64)
        } else {
            r matches Err(MerdeError::OutOfRange)
        },
        ev matches Event::F64(b) ==> r == Ok::<i64, MerdeError<'s>>(f64_to_i64(b)),
        !(ev is I64 || ev is U64 || ev is F64) ==> (r matches Err(e)
            && unexpected_is(e, event_type_of(&ev), seq![EventType::I64, EventType::U64, EventType::Float])),
{
    let t = ev.event_type();
    match ev {
        Event::I64(i) => Ok(i),
        Event::U64(u) => if u <= 0x7FFF_FFFF_FFFF_FFFFu64 {
            Ok(u as i64)
        } else {
            Err(MerdeError::OutOfRange)
        },
        Event::F64(b) => Ok(cast_f64_to_i64(b)),
        _ => {
            let list = [EventType::I64, EventType::U64, EventType::Float];
            proof {
                assert(list@ =~= seq![EventType::I64, EventType::U64, EventType::Float]);
            }
            Err(unexpected_error(t, &list))
        },
    }
}

/// A `u64` from an event: a `U64`, an `I64` that is not negative (else out
/// of range), or a float cast to an integer.
pub fn deserialize_u64<'s>(ev: Event<'s>) -> (r: Result<u64, MerdeError<'s>>)
    ensures
        ev matches Event::U64(u) ==> r == Ok::<u64, MerdeError<'s>>(u),
        ev matches Event::I64(i) ==> if i >= 0 {
            r == Ok::<u64, MerdeError<'s>>(i as u64)
        } else {
            r matches Err(MerdeError::OutOfRange)
        },
        ev matches Event::F64(b) ==> r == Ok::<u64, MerdeError<'s>>(f64_to_u64(b)),
        !(ev is I64 || ev is U64 || ev is F64) ==> (r matches Err(e)
            && unexpected_is(e, event_type_of(&ev), seq![EventType::U64, EventType::I64, EventType::Float])),
{
    let t = ev.event_type();
    match ev {
        Event::U64(u) => Ok(u),
        Event::I64(i) => if i >= 0 {
            Ok(i as u64)
        } else {
            Err(MerdeError::OutOfRange)
        },
        Event::F64(b) => Ok(cast_f64_to_u64(b)),
        _ => {
            let list = [EventType::U64, EventType::I64, EventType::Float];
            proof {
                assert(list@ =~= seq![EventType::U64, EventType::I64, EventType::Float]);
            }
            Err(unexpected_error(t, &list))
        },
    }
}

/// What reading an `i64` from `ev` gives (see `deserialize_i64`), or `None`
/// when it fails.
pub open spec fn i64_of_event(ev: &Event) -> Option<int> {
    match *ev {
        Event::I64(i) => Some(i as int),
        Event::U64(u) => if u <= i64::MAX { Some(u as int) } else { None },
        Event::F64(b) => Some(f64_to_i64(b) as int),
        _ => None,
    }
}

/// What reading a `u64` from `ev` gives (see `deserialize_u64`), or `None`
/// when it fails.
pub open spec fn u64_of_event(ev: &Event) -> Option<int> {
    match *ev {
        Event::U64(u) => Some(u as int),
        Event::I64(i) => if i >= 0 { Some(i as int) } else { None },
        Event::F64(b) => Some(f64_to_u64(b) as int),
        _ => None,
    }
}

/// An `i32` from an event: an `i64` (see `deserialize_i64`) that fits, else
/// out of range.
pub fn deserialize_i32<'s>(ev: Event<'s>) -> (r: Result<i32, MerdeError<'s>>)
    ensures
        i64_of_event(&ev) matches Some(v) ==> if i32::MIN <= v <= i32::MAX {
            r == Ok::<i32, MerdeError<'s>>(v as i32)
        } else {
            r matches Err(MerdeError::OutOfRange)
        },
        i64_of_event(&ev) is None ==> r is Err,
{
    match deserialize_i64(ev) {
        Ok(v) => if -0x8000_0000i64 <= v && v <= 0x7FFF_FFFFi64 {
            Ok(v as i32)
        } else {
            Err(MerdeError::OutOfRange)
        },
        Err(e) => Err(e),
    }
}

/// An `i16` from an event: an `i64` (see `deserialize_i64`) that fits, else
/// out of range.
pub fn deserialize_i16<'s>(ev: Event<'s>) -> (r: Result<i16, MerdeError<'s>>)
    ensures
        i64_of_event(&ev) matches Some(v) ==> if i16::MIN <= v <= i16::MAX {
            r == Ok::<i16, MerdeError<'s>>(v as i16)
        } else {
            r matches Err(MerdeError::OutOfRange)
        },
        i64_of_event(&ev) is None ==> r is Err,
{
    match deserialize_i64(ev) {
        Ok(v) => if -0x8000i64 <= v && v <= 0x7FFFi64 {
            Ok(v as i16)
        } else {
            Err(MerdeError::OutOfRange)
        },
        Err(e) => Err(e),
    }
}

/// An `i8` from an event: an `i64` (see `deserialize_i64`) that fits, else
/// out of range.
pub fn deserialize_i8<'s>(ev: Event<'s>) -> (r: Result<i8, MerdeError<'s>>)
    ensures
        i64_of_event(&ev) matches Some(v) ==> if i8::MIN <= v <= i8::MAX {
            r == Ok::<i8, MerdeError<'s>>(v as i8)
        } else {
            r matches Err(MerdeError::OutOfRange)
        },
        i64_of_event(&ev) is None ==> r is Err,
{
    match deserialize_i64(ev) {
        Ok(v) => if -0x80i64 <= v && v <= 0x7Fi64 {
            Ok(v as i8)
        } else {
            Err(MerdeError::OutOfRange)
        },
        Err(e) => Err(e),
    }
}

/// An `isize` from an event: an `i64` (see `deserialize_i64`) that fits,
/// else out of range.
pub fn deserialize_isize<'s>(ev: Event<'s>) -> (r: Result<isize, MerdeError<'s>>)
    ensures
        i64_of_event(&ev) matches Some(v) ==> if isize::MIN <= v <= isize::MAX {
            r == Ok::<isize, MerdeError<'s>>(v as isize)
        } else {
            r matches Err(MerdeError::OutOfRange)
        },
        i64_of_event(&ev) is None ==> r is Err,
{
    match deserialize_i64(ev) {
        Ok(v) => if isize::MIN as i64 <= v && v <= isize::MAX as i64 {
            Ok(v as isize)
        } else {
            Err(MerdeError::OutOfRange)
        },
        Err(e) => Err(e),
    }
}

/// A `u32` from an event: a `u64` (see `deserialize_u64`) that fits, else
/// out of range.
pub fn deserialize_u32<'s>(ev: Event<'s>) -> (r: Result<u32, MerdeError<'s>>)
    ensures
        u64_of_event(&ev) matches Some(v) ==> if v <= u32::MAX {
            r == Ok::<u32, MerdeError<'s>>(v as u32)
        } else {
            r matches Err(MerdeError::OutOfRange)
        },
        u64_of_event(&ev) is None ==> r is Err,
{
    match deserialize_u64(ev) {
        Ok(v) => if v <= 0xFFFF_FFFFu64 {
            Ok(v as u32)
        } else {
            Err(MerdeError::OutOfRange)
        },
        Err(e) => Err(e),
    }
}

/// A `u16` from an event: a `u64` (see `deserialize_u64`) that fits, else
/// out of range.
pub fn deserialize_u16<'s>(ev: Event<'s>) -> (r: Result<u16, MerdeError<'s>>)
    ensures
        u64_of_event(&ev) matches Some(v) ==> if v <= u16::MAX {
            r == Ok::<u16, MerdeError<'s>>(v as u16)
        } else {
            r matches Err(MerdeError::OutOfRange)
        },
        u64_of_event(&ev) is None ==> r is Err,
{
    match deserialize_u64(ev) {
        Ok(v) => if v <= 0xFFFFu64 {
            Ok(v as u16)
        } else {
            Err(MerdeError::OutOfRange)
        },
        Err(e) => Err(e),
    }
}

/// A `u8` from an event: a `u64` (see `deserialize_u64`) that fits, else out
/// of range.
pub fn deserialize_u8<'s>(ev: Event<'s>) -> (r: Result<u8, MerdeError<'s>>)
    ensures
        u64_of_event(&ev) matches Some(v) ==> if v <= u8::MAX {
            r == Ok::<u8, MerdeError<'s>>(v as u8)
        } else {
            r matches Err(MerdeError::OutOfRange)
        },
        u64_of_event(&ev) is None ==> r is Err,
{
    match deserialize_u64(ev) {
        Ok(v) => if v <= 0xFFu64 {
            Ok(v as u8)
        } else {
            Err(MerdeError::OutOfRange)
        },
        Err(e) => Err(e),
    }
}

/// A `usize` from an event: a `u64` (see `deserialize_u64`) that fits, else
/// out of range.
pub fn deserialize_usize<'s>(ev: Event<'s>) -> (r: Result<usize, MerdeError<'s>>)
    ensures
        u64_of_event(&ev) matches Some(v) ==> if v <= usize::MAX {
            r == Ok::<usize, MerdeError<'s>>(v as usize)
        } else {
            r matches Err(MerdeError::OutOfRange)
        },
        u64_of_event(&ev) is None ==> r is Err,
{
    match deserialize_u64(ev) {
        Ok(v) => if v <= usize::MAX as u64 {
            Ok(v as usize)
        } else {
            Err(MerdeError::OutOfRange)
        },
        Err(e) => Err(e),
    }
}

/// A string from an event: a `Str`, as it is.
pub fn deserialize_str<'s>(ev: Event<'s>) -> (r: Result<CowStr<'s>, MerdeError<'s>>)
    ensures
        ev matches Event::Str(s) ==> r == Ok::<CowStr<'s>, MerdeError<'s>>(s),
        !(ev is Str) ==> (r matches Err(e) && unexpected_is(e, event_type_of(&ev), seq![EventType::Str])),
{
    let t = ev.event_type();
    match ev {
        Event::Str(s) => Ok(s),
        _ => {
            let list = [EventType::Str];
            proof {
                assert(list@ =~= seq![EventType::Str]);
            }
            Err(unexpected_error(t, &list))
        },
    }
}

/// An owned string from an event: a `Str`'s text.
pub fn deserialize_string<'s>(ev: Event<'s>) -> (r: Result<String, MerdeError<'s>>)
    ensures
        ev matches Event::Str(s) ==> (r matches Ok(t) && t@ == s@),
        !(ev is Str) ==> (r matches Err(e) && unexpected_is(e, event_type_of(&ev), seq![EventType::Str])),
{
    match deserialize_str(ev) {
        Ok(s) => Ok(s.into_string()),
        Err(e) => Err(e),
    }
}

/// A boolean from an event: a `Bool`'s value.
pub fn deserialize_bool<'s>(ev: Event<'s>) -> (r: Result<bool, MerdeError<'s>>)
    ensures
        ev matches Event::Bool(b) ==> r == Ok::<bool, MerdeError<'s>>(b),
        !(ev is Bool) ==> (r matches Err(e) && unexpected_is(e, event_type_of(&ev), seq![EventType::Bool])),
{
    let t = ev.event_type();
    match ev {
        Event::Bool(b) => Ok(b),
        _ => {
            let list = [EventType::Bool];
            proof {
                assert(list@ =~= seq![EventType::Bool]);
            }
            Err(unexpected_error(t, &list))
        },
    }
}

} // verus!
