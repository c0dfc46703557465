//! A MessagePack deserializer: reads one event at a time from a byte slice.

use vstd::prelude::*;
use crate::builder::{spec_feed, FeedOutcome, FrameModel, ValueBuilder};
use crate::value::{Value, ValueModel};
use vstd::arithmetic::power2::pow2;
use crate::cowbytes::CowBytes;
use crate::cowstr::{str_from_utf8, CowStr};
use crate::error::{EventType, MerdeError};
use crate::event::{ArrayStart, Event, EventModel, MapStart};

verus! {

/// The unsigned integer held big-endian in `n` bytes of `s` from `start`.
pub open spec fn be_uint(s: Seq<u8>, start: int, n: nat) -> nat
    decreases n,
{
    if n == 0 {
        0
    } else {
        be_uint(s, start, (n - 1) as nat) * 256 + s[start + n - 1] as nat
    }
}

/// `256` to the power `n`.
pub open spec fn pow256(n: nat) -> nat
    decreases n,
{
    if n == 0 {
        1
    } else {
        256 * pow256((n - 1) as nat)
    }
}

proof fn lemma_be_uint_bound(s: Seq<u8>, start: int, n: nat)
    ensures
        be_uint(s, start, n) < pow256(n),
    decreases n,
{
    if n > 0 {
        lemma_be_uint_bound(s, start, (n - 1) as nat);
        let prev = be_uint(s, start, (n - 1) as nat);
        let p = pow256((n - 1) as nat);
        let last = s[start + n - 1] as nat;
        assert(prev * 256 + last < 256 * p) by (nonlinear_arith)
            requires
                prev < p,
                last < 256,
        ;
    }
}

/// The signed integer with the two's-complement pattern `v` of `bits` bits.
pub open spec fn twos_complement(v: nat, bits: nat) -> int {
    if v < pow2((bits - 1) as nat) {
        v as int
    } else {
        v - pow2(bits)
    }
}

/// The bit position of the highest set bit of `n`, which is positive.
pub open spec fn top_bit(n: nat) -> nat {
    choose|p: nat| #[trigger] pow2(p) <= n < pow2(p + 1)
}

/// The binary64 bit pattern of the binary32 number with bit pattern `b`:
/// widening is exact; a NaN stays a NaN with its payload, made quiet.
pub open spec fn widen_f32_bits(b: u32) -> u64 {
    let sign = b as nat / 0x8000_0000;
    let exp = (b as nat / 0x80_0000) % 0x100;
    let frac = b as nat % 0x80_0000;
    let high: int = (sign * 0x8000_0000_0000_0000) as int;
    (if exp == 0xff {
        let payload = if frac == 0 || frac >= 0x40_0000 { frac } else { frac + 0x40_0000 };
        high + 0x7ff * pow2(52) + payload * pow2(29)
    } else if exp == 0 {
        if frac == 0 {
            high
        } else {
            // the number is subnormal in binary32 and normal in binary64
            let p = top_bit(frac);
            high + (p + 874) * pow2(52) + (frac - pow2(p)) * pow2((52 - p) as nat)
        }
    } else {
        high + (exp + 896) * pow2(52) + frac * pow2(29)
    }) as u64
}

proof fn lemma_pow2_values()
    ensures
        pow2(0) == 1,
        pow2(22) == 0x40_0000,
        pow2(23) == 0x80_0000,
        pow2(29) == 0x2000_0000,
        pow2(51) == 0x8_0000_0000_0000,
        pow2(52) == 0x10_0000_0000_0000,
        pow2(8) == 256,
        pow2(16) == 0x1_0000,
        pow2(32) == 0x1_0000_0000,
        pow2(64) == 0x1_0000_0000_0000_0000,
        pow2(7) == 128,
        pow2(15) == 0x8000,
        pow2(31) == 0x8000_0000,
        pow2(63) == 0x8000_0000_0000_0000,
{
    vstd::arithmetic::power2::lemma2_to64();
    vstd::arithmetic::power2::lemma2_to64_rest();
}

/// Widens the bit pattern of a binary32 number to that of the same binary64 number.
pub fn widen_f32_to_f64_bits(b: u32) -> (r: u64)
    ensures
        r == widen_f32_bits(b),
{
    proof {
        lemma_pow2_values();
    }
    let sign: u64 = (b / 0x8000_0000) as u64;
    let exp: u64 = ((b / 0x80_0000) % 0x100) as u64;
    let frac: u64 = (b % 0x80_0000) as u64;
    let high: u64 = sign * 0x8000_0000_0000_0000;
    if exp == 0xff {
        let payload: u64 = if frac == 0 || frac >= 0x40_0000 {
            frac
        } else {
            frac + 0x40_0000
        };
        high + 0x7ff * 0x10_0000_0000_0000 + payload * 0x2000_0000
    } else if exp == 0 {
        if frac == 0 {
            high
        } else {
            // the number is subnormal in binary32 and normal in binary64
            let mut p: u64 = 0;
            let mut pw: u64 = 1;
            while pw <= frac / 2
                invariant
                    pw == pow2(p as nat),
                    1 <= pw <= frac,
                    frac < 0x80_0000,
                    p <= 22,
                decreases frac - pw,
            {
                proof {
                    lemma_pow2_values();
                    vstd::arithmetic::power2::lemma_pow2_unfold((p + 1) as nat);
                    if p + 1 > 23 {
                        vstd::arithmetic::power2::lemma_pow2_strictly_increases(23, (p + 1) as nat);
                    }
                }
                pw = pw * 2;
                p = p + 1;
            }
            proof {
                vstd::arithmetic::power2::lemma_pow2_unfold((p + 1) as nat);
                lemma_top_bit_unique(frac as nat, p as nat);
                lemma_pow2_values();
            }
            let mut m: u64 = frac - pw;
            let mut i: u64 = p;
            assert(m == (frac - pow2(p as nat)) * pow2((i - p) as nat)) by {
                assert((i - p) as nat == 0);
            }
            while i < 52
                invariant
                    p <= i <= 52,
                    p <= 22,
                    m == (frac - pow2(p as nat)) * pow2((i - p) as nat),
                    m < pow2(i as nat),
                    frac < pow2((p + 1) as nat),
                    pow2(p as nat) <= frac,
                decreases 52 - i,
            {
                proof {
                    lemma_pow2_values();
                    vstd::arithmetic::power2::lemma_pow2_unfold((i + 1 - p) as nat);
                    vstd::arithmetic::power2::lemma_pow2_unfold((i + 1) as nat);
                    if i + 1 < 52 {
                        vstd::arithmetic::power2::lemma_pow2_strictly_increases((i + 1) as nat, 52);
                    }
                    let a = (frac - pow2(p as nat)) as int;
                    let q = pow2((i - p) as nat) as int;
                    assert(a * (2 * q) == (a * q) * 2) by (nonlinear_arith);
                }
                m = m * 2;
                i = i + 1;
            }
            proof {
                lemma_pow2_values();
            }
            high + (p + 874) * 0x10_0000_0000_0000 + m
        }
    } else {
        high + (exp + 896) * 0x10_0000_0000_0000 + frac * 0x2000_0000
    }
}

proof fn lemma_top_bit_unique(n: nat, p: nat)
    requires
        pow2(p) <= n < pow2(p + 1),
    ensures
        top_bit(n) == p,
{
    let q = top_bit(n);
    assert(pow2(q) <= n < pow2(q + 1));
    if q + 1 < p {
        vstd::arithmetic::power2::lemma_pow2_strictly_increases(q + 1, p);
    } else if p + 1 < q {
        vstd::arithmetic::power2::lemma_pow2_strictly_increases(p + 1, q);
    }
}

} // verus!

verus! {

/// A container being read, with the number of items still to come
/// (keys and values count as separate items in a map).
#[derive(Debug, Clone, Copy, PartialEq, Eq)]
pub enum Frame {
    Array(u64),
    Dict(u64),
}

/// What the deserializer knows: its input, where it is, the containers it
/// is inside of, and an event put back to be returned next.
pub ghost struct MsgpackState {
    pub src: Seq<u8>,
    pub pos: int,
    pub frames: Seq<Frame>,
    pub pending: Option<EventModel>,
}

/// The outcome of reading one event.
pub ghost enum Outcome {
    /// An event was read.
    Event(EventModel),
    /// The input ended too early.
    Eof,
    /// A string was not well-formed UTF-8.
    BadUtf8,
    /// The header byte announces a type that is not supported
    /// (`ext` for the extension types).
    Unsupported { byte: u8, ext: bool },
}

/// The item that starts at `off` (which is inside the input): what it decodes to.
pub ghost enum Decoded {
    /// An event, the offset just after it, and the container it opens.
    Item { event: EventModel, end: int, opens: Option<Frame> },
    /// The input ends inside the item; reading stopped at `at`.
    Truncated { at: int },
    /// A string, starting at `at`, whose bytes are not well-formed UTF-8.
    BadUtf8 { at: int },
    /// An unsupported header byte.
    Unsupported { byte: u8, ext: bool },
}

/// A string of `len` bytes from `start`.
pub open spec fn decode_text(src: Seq<u8>, start: int, len: nat) -> Decoded {
    if start + len > src.len() {
        Decoded::Truncated { at: start }
    } else if vstd::utf8::valid_utf8(src.subrange(start, start + len)) {
        Decoded::Item {
            event: EventModel::Str(vstd::utf8::decode_utf8(src.subrange(start, start + len))),
            end: start + len,
            opens: None,
        }
    } else {
        Decoded::BadUtf8 { at: start }
    }
}

/// A byte string of `len` bytes from `start`.
pub open spec fn decode_blob(src: Seq<u8>, start: int, len: nat) -> Decoded {
    if start + len > src.len() {
        Decoded::Truncated { at: start }
    } else {
        Decoded::Item {
            event: EventModel::Bytes(src.subrange(start, start + len)),
            end: start + len,
            opens: None,
        }
    }
}

/// A string whose length is held in `w` bytes after the header at `off`.
pub open spec fn decode_sized_text(src: Seq<u8>, off: int, w: nat) -> Decoded {
    if off + 1 + w > src.len() {
        Decoded::Truncated { at: off + 1 }
    } else {
        decode_text(src, off + 1 + w, be_uint(src, off + 1, w))
    }
}

/// A byte string whose length is held in `w` bytes after the header at `off`.
pub open spec fn decode_sized_blob(src: Seq<u8>, off: int, w: nat) -> Decoded {
    if off + 1 + w > src.len() {
        Decoded::Truncated { at: off + 1 }
    } else {
        decode_blob(src, off + 1 + w, be_uint(src, off + 1, w))
    }
}

/// A fixed-size payload of `w` bytes after the header at `off`, decoded to `ev`.
pub open spec fn decode_fixed(src: Seq<u8>, off: int, w: nat, ev: EventModel) -> Decoded {
    if off + 1 + w > src.len() {
        Decoded::Truncated { at: off + 1 }
    } else {
        Decoded::Item { event: ev, end: off + 1 + w, opens: None }
    }
}

/// An array whose length is held in `w` bytes after the header at `off`.
pub open spec fn decode_sized_array(src: Seq<u8>, off: int, w: nat) -> Decoded {
    if off + 1 + w > src.len() {
        Decoded::Truncated { at: off + 1 }
    } else {
        let n = be_uint(src, off + 1, w);
        Decoded::Item {
            event: EventModel::ArrayStart(Some(n as usize)),
            end: off + 1 + w,
            opens: Some(Frame::Array(n as u64)),
        }
    }
}

/// A map whose number of entries is held in `w` bytes after the header at `off`.
pub open spec fn decode_sized_map(src: Seq<u8>, off: int, w: nat) -> Decoded {
    if off + 1 + w > src.len() {
        Decoded::Truncated { at: off + 1 }
    } else {
        let n = be_uint(src, off + 1, w);
        Decoded::Item {
            event: EventModel::MapStart(Some(n as usize)),
            end: off + 1 + w,
            opens: Some(Frame::Dict((2 * n) as u64)),
        }
    }
}

/// The MessagePack format: what the item whose header byte is at `off` decodes to.
pub open spec fn decode_item(src: Seq<u8>, off: int) -> Decoded {
    let b = src[off];
    let payload = |w: nat| be_uint(src, off + 1, w);
    if b <= 0x7f {
        Decoded::Item { event: EventModel::U64(b as u64), end: off + 1, opens: None }
    } else if b <= 0x8f {
        let n = (b - 0x80) as nat;
        Decoded::Item {
            event: EventModel::MapStart(Some(n as usize)),
            end: off + 1,
            opens: Some(Frame::Dict((2 * n) as u64)),
        }
    } else if b <= 0x9f {
        let n = (b - 0x90) as nat;
        Decoded::Item {
            event: EventModel::ArrayStart(Some(n as usize)),
            end: off + 1,
            opens: Some(Frame::Array(n as u64)),
        }
    } else if b <= 0xbf {
        decode_text(src, off + 1, (b - 0xa0) as nat)
    } else if b == 0xc0 {
        Decoded::Item { event: EventModel::Null, end: off + 1, opens: None }
    } else if b == 0xc2 {
        Decoded::Item { event: EventModel::Bool(false), end: off + 1, opens: None }
    } else if b == 0xc3 {
        Decoded::Item { event: EventModel::Bool(true), end: off + 1, opens: None }
    } else if b == 0xc4 {
        decode_sized_blob(src, off, 1)
    } else if b == 0xc5 {
        decode_sized_blob(src, off, 2)
    } else if b == 0xc6 {
        decode_sized_blob(src, off, 4)
    } else if b == 0xca {
        decode_fixed(src, off, 4, EventModel::F64(widen_f32_bits(payload(4) as u32)))
    } else if b == 0xcb {
        decode_fixed(src, off, 8, EventModel::F64(payload(8) as u64))
    } else if b == 0xcc {
        decode_fixed(src, off, 1, EventModel::U64(payload(1) as u64))
    } else if b == 0xcd {
        decode_fixed(src, off, 2, EventModel::U64(payload(2) as u64))
    } else if b == 0xce {
        decode_fixed(src, off, 4, EventModel::U64(payload(4) as u64))
    } else if b == 0xcf {
        decode_fixed(src, off, 8, EventModel::U64(payload(8) as u64))
    } else if b == 0xd0 {
        decode_fixed(src, off, 1, EventModel::I64(twos_complement(payload(1), 8) as i64))
    } else if b == 0xd1 {
        decode_fixed(src, off, 2, EventModel::I64(twos_complement(payload(2), 16) as i64))
    } else if b == 0xd2 {
        decode_fixed(src, off, 4, EventModel::I64(twos_complement(payload(4), 32) as i64))
    } else if b == 0xd3 {
        decode_fixed(src, off, 8, EventModel::I64(twos_complement(payload(8), 64) as i64))
    } else if b == 0xd9 {
        decode_sized_text(src, off, 1)
    } else if b == 0xda {
        decode_sized_text(src, off, 2)
    } else if b == 0xdb {
        decode_sized_text(src, off, 4)
    } else if b == 0xdc {
        decode_sized_array(src, off, 2)
    } else if b == 0xdd {
        decode_sized_array(src, off, 4)
    } else if b == 0xde {
        decode_sized_map(src, off, 2)
    } else if b == 0xdf {
        decode_sized_map(src, off, 4)
    } else if b >= 0xe0 {
        Decoded::Item { event: EventModel::I64((b - 256) as i64), end: off + 1, opens: None }
    } else {
        Decoded::Unsupported { byte: b, ext: (0xd4 <= b <= 0xd8 || 0xc7 <= b <= 0xc9) }
    }
}

/// The frame after one more item of it was read.
pub open spec fn consume_one(f: Frame) -> Frame {
    match f {
        Frame::Array(n) => Frame::Array((n - 1) as u64),
        Frame::Dict(n) => Frame::Dict((n - 1) as u64),
    }
}

/// The number of items still to come in a frame.
pub open spec fn frame_count(f: Frame) -> u64 {
    match f {
        Frame::Array(n) => n,
        Frame::Dict(n) => n,
    }
}

/// Reading one event: its outcome and the state after it.
#[verifier::opaque]
pub open spec fn spec_next(s: MsgpackState) -> (Outcome, MsgpackState) {
    if s.pending is Some {
        (Outcome::Event(s.pending->0), MsgpackState { pending: None, ..s })
    } else if s.frames.len() > 0 && frame_count(s.frames.last()) == 0 {
        let ev = match s.frames.last() {
            Frame::Array(_) => EventModel::ArrayEnd,
            Frame::Dict(_) => EventModel::MapEnd,
        };
        (Outcome::Event(ev), MsgpackState { frames: s.frames.drop_last(), ..s })
    } else {
        let frames = if s.frames.len() > 0 {
            s.frames.drop_last().push(consume_one(s.frames.last()))
        } else {
            s.frames
        };
        if s.pos >= s.src.len() {
            (Outcome::Eof, MsgpackState { frames, ..s })
        } else {
            match decode_item(s.src, s.pos) {
                Decoded::Item { event, end, opens } => (
                    Outcome::Event(event),
                    MsgpackState {
                        pos: end,
                        frames: match opens {
                            Some(f) => frames.push(f),
                            None => frames,
                        },
                        ..s
                    },
                ),
                Decoded::Truncated { at } => (Outcome::Eof, MsgpackState { pos: at, frames, ..s }),
                Decoded::BadUtf8 { at } => (Outcome::BadUtf8, MsgpackState { pos: at, frames, ..s }),
                Decoded::Unsupported { byte, ext } => (
                    Outcome::Unsupported { byte, ext },
                    MsgpackState { pos: s.pos + 1, frames, ..s },
                ),
            }
        }
    }
}

} // verus!

verus! {

/// The lowercase hexadecimal digit for `d < 16`.
pub open spec fn hex_digit(d: nat) -> char {
    if d < 10 {
        (48 + d) as char
    } else {
        (87 + d) as char
    }
}

/// Two lowercase hexadecimal digits for a byte.
pub open spec fn hex2(b: u8) -> Seq<char> {
    seq![hex_digit(b as nat / 16), hex_digit(b as nat % 16)]
}

/// The message of the error for an unsupported header byte.
pub open spec fn unsupported_message(byte: u8, ext: bool) -> Seq<char> {
    (if ext {
        "unsupported extension type 0x"@
    } else {
        "unsupported type 0x"@
    }) + hex2(byte)
}

/// Whether a result is the given outcome.
/// Strings and byte arrays in the result are borrowed from the input, not
/// copied.
pub open spec fn borrows_input<'s>(r: Result<Event<'s>, MerdeError<'s>>) -> bool {
    match r {
        Ok(Event::Str(c)) => c is Borrowed,
        Ok(Event::Bytes(b)) => b is Borrowed,
        _ => true,
    }
}

pub open spec fn result_is<'s>(r: Result<Event<'s>, MerdeError<'s>>, o: Outcome) -> bool {
    match o {
        Outcome::Event(e) => r matches Ok(ev) && ev@ == e,
        Outcome::Eof => r matches Err(MerdeError::Io(_)),
        Outcome::BadUtf8 => r matches Err(MerdeError::Utf8Error(_)),
        Outcome::Unsupported { byte, ext } => r matches Err(
            MerdeError::BinaryParsingError { format, message },
        ) && format@ == "msgpack"@ && message@ == unsupported_message(byte, ext),
    }
}

pub(crate) fn hex_digit_str(d: u8) -> (s: &'static str)
    requires
        d < 16,
    ensures
        s@ == seq![hex_digit(d as nat)],
{
    let s = match d {
        0 => "0",
        1 => "1",
        2 => "2",
        3 => "3",
        4 => "4",
        5 => "5",
        6 => "6",
        7 => "7",
        8 => "8",
        9 => "9",
        10 => "a",
        11 => "b",
        12 => "c",
        13 => "d",
        14 => "e",
        _ => "f",
    };
    proof {
        reveal_strlit("0");
        reveal_strlit("1");
        reveal_strlit("2");
        reveal_strlit("3");
        reveal_strlit("4");
        reveal_strlit("5");
        reveal_strlit("6");
        reveal_strlit("7");
        reveal_strlit("8");
        reveal_strlit("9");
        reveal_strlit("a");
        reveal_strlit("b");
        reveal_strlit("c");
        reveal_strlit("d");
        reveal_strlit("e");
        reveal_strlit("f");
    }
    s
}

fn unsupported_error<'s>(byte: u8, ext: bool) -> (r: MerdeError<'s>)
    ensures
        r matches MerdeError::BinaryParsingError { format, message } && format@ == "msgpack"@
            && message@ == unsupported_message(byte, ext),
{
    let mut message = if ext {
        String::from_str("unsupported extension type 0x")
    } else {
        String::from_str("unsupported type 0x")
    };
    message.append(hex_digit_str(byte / 16));
    message.append(hex_digit_str(byte % 16));
    proof {
        assert(message@ =~= unsupported_message(byte, ext));
    }
    MerdeError::BinaryParsingError { format: "msgpack", message }
}

} // verus!

verus! {

/// A MessagePack deserializer.
#[derive(Debug)]
pub struct MsgpackDeserializer<'s> {
    source: &'s [u8],
    offset: usize,
    stack: Vec<Frame>,
    starter: Option<Event<'s>>,
}

impl<'s> View for MsgpackDeserializer<'s> {
    type V = MsgpackState;

    closed spec fn view(&self) -> MsgpackState {
        MsgpackState {
            src: self.source@,
            pos: self.offset as int,
            frames: self.stack@,
            pending: match self.starter {
                Some(e) => Some(e@),
                None => None,
            },
        }
    }
}

proof fn lemma_be_uint_step(s: Seq<u8>, start: int, n: nat)
    requires
        n > 0,
    ensures
        be_uint(s, start, n) == be_uint(s, start, (n - 1) as nat) * 256 + s[start + n - 1] as nat,
{
}

impl<'s> MsgpackDeserializer<'s> {
    /// The deserializer's position never passes the end of its input.
    pub closed spec fn wf(&self) -> bool {
        self.offset <= self.source@.len()
    }

    /// A deserializer at the start of `source`.
    pub fn new(source: &'s [u8]) -> (r: Self)
        ensures
            r.wf(),
            r@ == (MsgpackState { src: source@, pos: 0, frames: Seq::empty(), pending: None }),
    {
        MsgpackDeserializer { source, offset: 0, stack: Vec::new(), starter: None }
    }

    /// Puts an event back, to be returned by the next call to `next`.
    pub fn put_back(&mut self, event: Event<'s>) -> (r: Result<(), MerdeError<'s>>)
        requires
            old(self).wf(),
        ensures
            final(self).wf(),
            r is Ok,
            final(self)@ == (MsgpackState { pending: Some(event@), ..old(self)@ }),
    {
        self.starter = Some(event);
        Ok(())
    }

    /// Reads `n` bytes as a big-endian unsigned integer.
    fn read_be(&mut self, n: usize) -> (r: Result<u64, MerdeError<'s>>)
        requires
            old(self).wf(),
            n <= 8,
        ensures
            final(self).wf(),
            final(self).source == old(self).source,
            final(self).stack == old(self).stack,
            final(self).starter == old(self).starter,
            old(self).offset + n <= old(self).source@.len() ==> r == Ok::<u64, MerdeError<'s>>(
                be_uint(old(self).source@, old(self).offset as int, n as nat) as u64,
            ) && final(self).offset == old(self).offset + n,
            old(self).offset + n > old(self).source@.len() ==> (r matches Err(MerdeError::Io(_)))
                && final(self).offset == old(self).offset,
    {
        if n > self.source.len() - self.offset {
            return Err(MerdeError::eof());
        }
        let mut v: u64 = 0;
        let mut i: usize = 0;
        while i < n
            invariant
                i <= n <= 8,
                self.offset + n <= self.source@.len(),
                self.source@.len() == self.source.len(),
                v == be_uint(self.source@, self.offset as int, i as nat),
            decreases n - i,
        {
            proof {
                lemma_be_uint_bound(self.source@, self.offset as int, i as nat);
                lemma_pow256_bound(i as nat);
                lemma_be_uint_step(self.source@, self.offset as int, (i + 1) as nat);
                let p = pow256(i as nat);
                let b = self.source@[self.offset + i] as int;
                assert(v * 256 + b < p * 256) by (nonlinear_arith)
                    requires
                        v < p,
                        0 <= b < 256,
                ;
            }
            v = v * 256 + self.source[self.offset + i] as u64;
            i = i + 1;
        }
        proof {
            lemma_be_uint_bound(self.source@, self.offset as int, n as nat);
            lemma_pow256_bound(n as nat);
        }
        self.offset = self.offset + n;
        Ok(v)
    }

    fn read_u8(&mut self) -> (r: Result<u8, MerdeError<'s>>)
        requires
            old(self).wf(),
        ensures
            final(self).wf(),
            final(self).source == old(self).source,
            final(self).stack == old(self).stack,
            final(self).starter == old(self).starter,
            old(self).offset + 1 <= old(self).source@.len() ==> r == Ok::<u8, MerdeError<'s>>(
                be_uint(old(self).source@, old(self).offset as int, 1) as u8,
            ) && final(self).offset == old(self).offset + 1,
            old(self).offset + 1 > old(self).source@.len() ==> (r matches Err(MerdeError::Io(_)))
                && final(self).offset == old(self).offset,
    {
        let v = match self.read_be(1) {
            Ok(v) => v,
            Err(e) => return Err(e),
        };
        proof {
            lemma_be_uint_bound(old(self).source@, old(self).offset as int, 1);
            lemma_pow256_bound(1);
        }
        Ok(v as u8)
    }

    fn read_u16(&mut self) -> (r: Result<u16, MerdeError<'s>>)
        requires
            old(self).wf(),
        ensures
            final(self).wf(),
            final(self).source == old(self).source,
            final(self).stack == old(self).stack,
            final(self).starter == old(self).starter,
            old(self).offset + 2 <= old(self).source@.len() ==> r == Ok::<u16, MerdeError<'s>>(
                be_uint(old(self).source@, old(self).offset as int, 2) as u16,
            ) && final(self).offset == old(self).offset + 2,
            old(self).offset + 2 > old(self).source@.len() ==> (r matches Err(MerdeError::Io(_)))
                && final(self).offset == old(self).offset,
    {
        let v = match self.read_be(2) {
            Ok(v) => v,
            Err(e) => return Err(e),
        };
        proof {
            lemma_be_uint_bound(old(self).source@, old(self).offset as int, 2);
            lemma_pow256_bound(2);
        }
        Ok(v as u16)
    }

    fn read_u32(&mut self) -> (r: Result<u32, MerdeError<'s>>)
        requires
            old(self).wf(),
        ensures
            final(self).wf(),
            final(self).source == old(self).source,
            final(self).stack == old(self).stack,
            final(self).starter == old(self).starter,
            old(self).offset + 4 <= old(self).source@.len() ==> r == Ok::<u32, MerdeError<'s>>(
                be_uint(old(self).source@, old(self).offset as int, 4) as u32,
            ) && final(self).offset == old(self).offset + 4,
            old(self).offset + 4 > old(self).source@.len() ==> (r matches Err(MerdeError::Io(_)))
                && final(self).offset == old(self).offset,
    {
        let v = match self.read_be(4) {
            Ok(v) => v,
            Err(e) => return Err(e),
        };
        proof {
            lemma_be_uint_bound(old(self).source@, old(self).offset as int, 4);
            lemma_pow256_bound(4);
        }
        Ok(v as u32)
    }

    fn read_u64(&mut self) -> (r: Result<u64, MerdeError<'s>>)
        requires
            old(self).wf(),
        ensures
            final(self).wf(),
            final(self).source == old(self).source,
            final(self).stack == old(self).stack,
            final(self).starter == old(self).starter,
            old(self).offset + 8 <= old(self).source@.len() ==> r == Ok::<u64, MerdeError<'s>>(
                be_uint(old(self).source@, old(self).offset as int, 8) as u64,
            ) && final(self).offset == old(self).offset + 8,
            old(self).offset + 8 > old(self).source@.len() ==> (r matches Err(MerdeError::Io(_)))
                && final(self).offset == old(self).offset,
    {
        self.read_be(8)
    }
}

/// A step that decoded `d` from `before` moved to `after` and returned `r`.
pub open spec fn step_is<'s>(r: Result<Event<'s>, MerdeError<'s>>, after: int, d: Decoded) -> bool {
    match d {
        Decoded::Item { event, end, opens } => (r matches Ok(e) && e@ == event) && after == end,
        Decoded::Truncated { at } => (r matches Err(MerdeError::Io(_))) && after == at,
        Decoded::BadUtf8 { at } => (r matches Err(MerdeError::Utf8Error(_))) && after == at,
        Decoded::Unsupported { .. } => false,
    }
}

/// The frames after decoding `d`: the container it opens, if any, is pushed.
pub open spec fn frames_after(frames: Seq<Frame>, d: Decoded) -> Seq<Frame> {
    match d {
        Decoded::Item { opens: Some(f), .. } => frames.push(f),
        _ => frames,
    }
}

impl<'s> MsgpackDeserializer<'s> {
    fn read_i8(&mut self) -> (r: Result<i8, MerdeError<'s>>)
        requires
            old(self).wf(),
        ensures
            final(self).wf(),
            final(self).source == old(self).source,
            final(self).stack == old(self).stack,
            final(self).starter == old(self).starter,
            old(self).offset + 1 <= old(self).source@.len() ==> r == Ok::<i8, MerdeError<'s>>(
                twos_complement(be_uint(old(self).source@, old(self).offset as int, 1), 8) as i8,
            ) && final(self).offset == old(self).offset + 1,
            old(self).offset + 1 > old(self).source@.len() ==> (r matches Err(MerdeError::Io(_)))
                && final(self).offset == old(self).offset,
    {
        let v = match self.read_u8() {
            Ok(v) => v,
            Err(e) => return Err(e),
        };
        proof {
            lemma_pow2_values();
            lemma_be_uint_bound(old(self).source@, old(self).offset as int, 1);
            lemma_pow256_bound(1);
        }
        if v < 128 {
            Ok(v as i8)
        } else {
            Ok((v as i16 - 256) as i8)
        }
    }

    fn read_i16(&mut self) -> (r: Result<i16, MerdeError<'s>>)
        requires
            old(self).wf(),
        ensures
            final(self).wf(),
            final(self).source == old(self).source,
            final(self).stack == old(self).stack,
            final(self).starter == old(self).starter,
            old(self).offset + 2 <= old(self).source@.len() ==> r == Ok::<i16, MerdeError<'s>>(
                twos_complement(be_uint(old(self).source@, old(self).offset as int, 2), 16) as i16,
            ) && final(self).offset == old(self).offset + 2,
            old(self).offset + 2 > old(self).source@.len() ==> (r matches Err(MerdeError::Io(_)))
                && final(self).offset == old(self).offset,
    {
        let v = match self.read_u16() {
            Ok(v) => v,
            Err(e) => return Err(e),
        };
        proof {
            lemma_pow2_values();
            lemma_be_uint_bound(old(self).source@, old(self).offset as int, 2);
            lemma_pow256_bound(2);
        }
        if v < 0x8000 {
            Ok(v as i16)
        } else {
            Ok((v as i32 - 0x1_0000) as i16)
        }
    }

    fn read_i32(&mut self) -> (r: Result<i32, MerdeError<'s>>)
        requires
            old(self).wf(),
        ensures
            final(self).wf(),
            final(self).source == old(self).source,
            final(self).stack == old(self).stack,
            final(self).starter == old(self).starter,
            old(self).offset + 4 <= old(self).source@.len() ==> r == Ok::<i32, MerdeError<'s>>(
                twos_complement(be_uint(old(self).source@, old(self).offset as int, 4), 32) as i32,
            ) && final(self).offset == old(self).offset + 4,
            old(self).offset + 4 > old(self).source@.len() ==> (r matches Err(MerdeError::Io(_)))
                && final(self).offset == old(self).offset,
    {
        let v = match self.read_u32() {
            Ok(v) => v,
            Err(e) => return Err(e),
        };
        proof {
            lemma_pow2_values();
            lemma_be_uint_bound(old(self).source@, old(self).offset as int, 4);
            lemma_pow256_bound(4);
        }
        if v < 0x8000_0000 {
            Ok(v as i32)
        } else {
            Ok((v as i64 - 0x1_0000_0000) as i32)
        }
    }

    fn read_i64(&mut self) -> (r: Result<i64, MerdeError<'s>>)
        requires
            old(self).wf(),
        ensures
            final(self).wf(),
            final(self).source == old(self).source,
            final(self).stack == old(self).stack,
            final(self).starter == old(self).starter,
            old(self).offset + 8 <= old(self).source@.len() ==> r == Ok::<i64, MerdeError<'s>>(
                twos_complement(be_uint(old(self).source@, old(self).offset as int, 8), 64) as i64,
            ) && final(self).offset == old(self).offset + 8,
            old(self).offset + 8 > old(self).source@.len() ==> (r matches Err(MerdeError::Io(_)))
                && final(self).offset == old(self).offset,
    {
        let v = match self.read_u64() {
            Ok(v) => v,
            Err(e) => return Err(e),
        };
        proof {
            lemma_pow2_values();
            lemma_be_uint_bound(old(self).source@, old(self).offset as int, 8);
            lemma_pow256_bound(8);
        }
        if v <= 0x7fff_ffff_ffff_ffff {
            Ok(v as i64)
        } else {
            Ok(-((0xffff_ffff_ffff_ffff - v) as i64) - 1)
        }
    }

    /// Reads a binary32 number, returning the bit pattern of the same binary64 number.
    fn read_f32(&mut self) -> (r: Result<u64, MerdeError<'s>>)
        requires
            old(self).wf(),
        ensures
            final(self).wf(),
            final(self).source == old(self).source,
            final(self).stack == old(self).stack,
            final(self).starter == old(self).starter,
            old(self).offset + 4 <= old(self).source@.len() ==> r == Ok::<u64, MerdeError<'s>>(
                widen_f32_bits(be_uint(old(self).source@, old(self).offset as int, 4) as u32),
            ) && final(self).offset == old(self).offset + 4,
            old(self).offset + 4 > old(self).source@.len() ==> (r matches Err(MerdeError::Io(_)))
                && final(self).offset == old(self).offset,
    {
        let v = match self.read_u32() {
            Ok(v) => v,
            Err(e) => return Err(e),
        };
        Ok(widen_f32_to_f64_bits(v))
    }

    /// Reads a binary64 number, returning its bit pattern.
    fn read_f64(&mut self) -> (r: Result<u64, MerdeError<'s>>)
        requires
            old(self).wf(),
        ensures
            final(self).wf(),
            final(self).source == old(self).source,
            final(self).stack == old(self).stack,
            final(self).starter == old(self).starter,
            old(self).offset + 8 <= old(self).source@.len() ==> r == Ok::<u64, MerdeError<'s>>(
                be_uint(old(self).source@, old(self).offset as int, 8) as u64,
            ) && final(self).offset == old(self).offset + 8,
            old(self).offset + 8 > old(self).source@.len() ==> (r matches Err(MerdeError::Io(_)))
                && final(self).offset == old(self).offset,
    {
        self.read_u64()
    }

    fn read_str(&mut self, len: usize) -> (r: Result<Event<'s>, MerdeError<'s>>)
        requires
            old(self).wf(),
        ensures
            final(self).wf(),
            final(self).source == old(self).source,
            final(self).stack == old(self).stack,
            final(self).starter == old(self).starter,
            borrows_input(r),
            step_is(r, final(self).offset as int, decode_text(old(self).source@, old(self).offset as int, len as nat)),
    {
        if len > self.source.len() - self.offset {
            return Err(MerdeError::eof());
        }
        let bytes = vstd::slice::slice_subrange(self.source, self.offset, self.offset + len);
        match str_from_utf8(bytes) {
            Ok(s) => {
                self.offset = self.offset + len;
                Ok(Event::Str(CowStr::Borrowed(s)))
            },
            Err(e) => Err(MerdeError::Utf8Error(e)),
        }
    }

    fn read_str_8(&mut self) -> (r: Result<Event<'s>, MerdeError<'s>>)
        requires
            old(self).wf(),
            old(self).offset >= 1,
        ensures
            final(self).wf(),
            final(self).source == old(self).source,
            final(self).stack == old(self).stack,
            final(self).starter == old(self).starter,
            borrows_input(r),
            step_is(r, final(self).offset as int, decode_sized_text(old(self).source@, old(self).offset - 1, 1)),
    {
        let len = match self.read_u8() {
            Ok(v) => v as usize,
            Err(e) => return Err(e),
        };
        proof {
            lemma_be_uint_bound(old(self).source@, old(self).offset as int, 1);
            lemma_pow256_bound(1);
        }
        self.read_str(len)
    }

    fn read_str_16(&mut self) -> (r: Result<Event<'s>, MerdeError<'s>>)
        requires
            old(self).wf(),
            old(self).offset >= 1,
        ensures
            final(self).wf(),
            final(self).source == old(self).source,
            final(self).stack == old(self).stack,
            final(self).starter == old(self).starter,
            borrows_input(r),
            step_is(r, final(self).offset as int, decode_sized_text(old(self).source@, old(self).offset - 1, 2)),
    {
        let len = match self.read_u16() {
            Ok(v) => v as usize,
            Err(e) => return Err(e),
        };
        proof {
            lemma_be_uint_bound(old(self).source@, old(self).offset as int, 2);
            lemma_pow256_bound(2);
        }
        self.read_str(len)
    }

    fn read_str_32(&mut self) -> (r: Result<Event<'s>, MerdeError<'s>>)
        requires
            old(self).wf(),
            old(self).offset >= 1,
        ensures
            final(self).wf(),
            final(self).source == old(self).source,
            final(self).stack == old(self).stack,
            final(self).starter == old(self).starter,
            borrows_input(r),
            step_is(r, final(self).offset as int, decode_sized_text(old(self).source@, old(self).offset - 1, 4)),
    {
        let len = match self.read_u32() {
            Ok(v) => v as usize,
            Err(e) => return Err(e),
        };
        proof {
            lemma_be_uint_bound(old(self).source@, old(self).offset as int, 4);
            lemma_pow256_bound(4);
        }
        self.read_str(len)
    }

    fn read_bytes(&mut self, len: usize) -> (r: Result<Event<'s>, MerdeError<'s>>)
        requires
            old(self).wf(),
        ensures
            final(self).wf(),
            final(self).source == old(self).source,
            final(self).stack == old(self).stack,
            final(self).starter == old(self).starter,
            borrows_input(r),
            step_is(r, final(self).offset as int, decode_blob(old(self).source@, old(self).offset as int, len as nat)),
    {
        if len > self.source.len() - self.offset {
            return Err(MerdeError::eof());
        }
        let bytes = vstd::slice::slice_subrange(self.source, self.offset, self.offset + len);
        self.offset = self.offset + len;
        Ok(Event::Bytes(CowBytes::Borrowed(bytes)))
    }

    fn read_bytes_8(&mut self) -> (r: Result<Event<'s>, MerdeError<'s>>)
        requires
            old(self).wf(),
            old(self).offset >= 1,
        ensures
            final(self).wf(),
            final(self).source == old(self).source,
            final(self).stack == old(self).stack,
            final(self).starter == old(self).starter,
            borrows_input(r),
            step_is(r, final(self).offset as int, decode_sized_blob(old(self).source@, old(self).offset - 1, 1)),
    {
        let len = match self.read_u8() {
            Ok(v) => v as usize,
            Err(e) => return Err(e),
        };
        proof {
            lemma_be_uint_bound(old(self).source@, old(self).offset as int, 1);
            lemma_pow256_bound(1);
        }
        self.read_bytes(len)
    }

    fn read_bytes_16(&mut self) -> (r: Result<Event<'s>, MerdeError<'s>>)
        requires
            old(self).wf(),
            old(self).offset >= 1,
        ensures
            final(self).wf(),
            final(self).source == old(self).source,
            final(self).stack == old(self).stack,
            final(self).starter == old(self).starter,
            borrows_input(r),
            step_is(r, final(self).offset as int, decode_sized_blob(old(self).source@, old(self).offset - 1, 2)),
    {
        let len = match self.read_u16() {
            Ok(v) => v as usize,
            Err(e) => return Err(e),
        };
        proof {
            lemma_be_uint_bound(old(self).source@, old(self).offset as int, 2);
            lemma_pow256_bound(2);
        }
        self.read_bytes(len)
    }

    fn read_bytes_32(&mut self) -> (r: Result<Event<'s>, MerdeError<'s>>)
        requires
            old(self).wf(),
            old(self).offset >= 1,
        ensures
            final(self).wf(),
            final(self).source == old(self).source,
            final(self).stack == old(self).stack,
            final(self).starter == old(self).starter,
            borrows_input(r),
            step_is(r, final(self).offset as int, decode_sized_blob(old(self).source@, old(self).offset - 1, 4)),
    {
        let len = match self.read_u32() {
            Ok(v) => v as usize,
            Err(e) => return Err(e),
        };
        proof {
            lemma_be_uint_bound(old(self).source@, old(self).offset as int, 4);
            lemma_pow256_bound(4);
        }
        self.read_bytes(len)
    }

    fn read_array_16(&mut self) -> (r: Result<Event<'s>, MerdeError<'s>>)
        requires
            old(self).wf(),
            old(self).offset >= 1,
        ensures
            final(self).wf(),
            final(self).source == old(self).source,
            final(self).starter == old(self).starter,
            step_is(r, final(self).offset as int, decode_sized_array(old(self).source@, old(self).offset - 1, 2)),
            final(self).stack@ == frames_after(old(self).stack@, decode_sized_array(old(self).source@, old(self).offset - 1, 2)),
    {
        let len = match self.read_u16() {
            Ok(v) => v,
            Err(e) => return Err(e),
        };
        proof {
            lemma_be_uint_bound(old(self).source@, old(self).offset as int, 2);
            lemma_pow256_bound(2);
        }
        self.stack.push(Frame::Array(len as u64));
        Ok(Event::ArrayStart(ArrayStart { size_hint: Some(len as usize) }))
    }

    fn read_array_32(&mut self) -> (r: Result<Event<'s>, MerdeError<'s>>)
        requires
            old(self).wf(),
            old(self).offset >= 1,
        ensures
            final(self).wf(),
            final(self).source == old(self).source,
            final(self).starter == old(self).starter,
            step_is(r, final(self).offset as int, decode_sized_array(old(self).source@, old(self).offset - 1, 4)),
            final(self).stack@ == frames_after(old(self).stack@, decode_sized_array(old(self).source@, old(self).offset - 1, 4)),
    {
        let len = match self.read_u32() {
            Ok(v) => v,
            Err(e) => return Err(e),
        };
        proof {
            lemma_be_uint_bound(old(self).source@, old(self).offset as int, 4);
            lemma_pow256_bound(4);
        }
        self.stack.push(Frame::Array(len as u64));
        Ok(Event::ArrayStart(ArrayStart { size_hint: Some(len as usize) }))
    }

    fn read_map_16(&mut self) -> (r: Result<Event<'s>, MerdeError<'s>>)
        requires
            old(self).wf(),
            old(self).offset >= 1,
        ensures
            final(self).wf(),
            final(self).source == old(self).source,
            final(self).starter == old(self).starter,
            step_is(r, final(self).offset as int, decode_sized_map(old(self).source@, old(self).offset - 1, 2)),
            final(self).stack@ == frames_after(old(self).stack@, decode_sized_map(old(self).source@, old(self).offset - 1, 2)),
    {
        let len = match self.read_u16() {
            Ok(v) => v,
            Err(e) => return Err(e),
        };
        proof {
            lemma_be_uint_bound(old(self).source@, old(self).offset as int, 2);
            lemma_pow256_bound(2);
        }
        self.stack.push(Frame::Dict(len as u64 * 2));
        Ok(Event::MapStart(MapStart { size_hint: Some(len as usize) }))
    }

    fn read_map_32(&mut self) -> (r: Result<Event<'s>, MerdeError<'s>>)
        requires
            old(self).wf(),
            old(self).offset >= 1,
        ensures
            final(self).wf(),
            final(self).source == old(self).source,
            final(self).starter == old(self).starter,
            step_is(r, final(self).offset as int, decode_sized_map(old(self).source@, old(self).offset - 1, 4)),
            final(self).stack@ == frames_after(old(self).stack@, decode_sized_map(old(self).source@, old(self).offset - 1, 4)),
    {
        let len = match self.read_u32() {
            Ok(v) => v,
            Err(e) => return Err(e),
        };
        proof {
            lemma_be_uint_bound(old(self).source@, old(self).offset as int, 4);
            lemma_pow256_bound(4);
        }
        self.stack.push(Frame::Dict(len as u64 * 2));
        Ok(Event::MapStart(MapStart { size_hint: Some(len as usize) }))
    }
}

proof fn lemma_pow256_bound(n: nat)
    requires
        n <= 8,
    ensures
        pow256(n) <= 0x1_0000_0000_0000_0000,
        n <= 4 ==> pow256(n) <= 0x1_0000_0000,
        n <= 2 ==> pow256(n) <= 0x1_0000,
        n <= 1 ==> pow256(n) <= 0x100,
        n < 8 ==> pow256(n) * 256 <= 0x1_0000_0000_0000_0000,
{
    reveal_with_fuel(pow256, 9);
}

} // verus!

verus! {

/// The header byte of a signed integer held in `w` bytes.
pub open spec fn signed_int_header(w: nat) -> u8 {
    if w == 1 {
        0xd0
    } else if w == 2 {
        0xd1
    } else if w == 4 {
        0xd2
    } else {
        0xd3
    }
}

/// A signed integer of `w` bytes reads as its two's-complement value: for
/// every `n` in range, the bytes that hold `n + 2^(8w)` (when `n` is
/// negative) or `n` give the event `I64(n)`, and reading moves past them.
pub proof fn law_signed_ints_read_as_twos_complement(s: MsgpackState, w: nat, n: int)
    requires
        w == 1 || w == 2 || w == 4 || w == 8,
        s.pending is None,
        s.frames.len() > 0 ==> frame_count(s.frames.last()) > 0,
        0 <= s.pos,
        s.pos + 1 + w <= s.src.len(),
        s.src[s.pos] == signed_int_header(w),
        -pow2((8 * w - 1) as nat) <= n < pow2((8 * w - 1) as nat),
        be_uint(s.src, s.pos + 1, w) == (if n < 0 { n + pow2(8 * w) } else { n }),
    ensures
        spec_next(s).0 == Outcome::Event(EventModel::I64(n as i64)),
        spec_next(s).1.pos == s.pos + 1 + w,
{
    reveal(spec_next);
    lemma_pow2_values();
    let v = be_uint(s.src, s.pos + 1, w);
    assert(twos_complement(v, 8 * w) == n);
}

/// The header byte of an unsigned integer held in `w` bytes.
pub open spec fn unsigned_int_header(w: nat) -> u8 {
    if w == 1 {
        0xcc
    } else if w == 2 {
        0xcd
    } else if w == 4 {
        0xce
    } else {
        0xcf
    }
}

/// An unsigned integer of `w` bytes reads as the big-endian number its bytes
/// hold, and reading moves past them.
pub proof fn law_unsigned_ints_read_big_endian(s: MsgpackState, w: nat)
    requires
        w == 1 || w == 2 || w == 4 || w == 8,
        s.pending is None,
        s.frames.len() > 0 ==> frame_count(s.frames.last()) > 0,
        0 <= s.pos,
        s.pos + 1 + w <= s.src.len(),
        s.src[s.pos] == unsigned_int_header(w),
    ensures
        spec_next(s).0 == Outcome::Event(EventModel::U64(be_uint(s.src, s.pos + 1, w) as u64)),
        spec_next(s).1.pos == s.pos + 1 + w,
{
    reveal(spec_next);
}

/// A 16-bit unsigned integer is its high byte times 256 plus its low byte.
pub proof fn law_uint16_reads_big_endian(s: MsgpackState)
    requires
        s.pending is None,
        s.frames.len() > 0 ==> frame_count(s.frames.last()) > 0,
        0 <= s.pos,
        s.pos + 3 <= s.src.len(),
        s.src[s.pos] == 0xcd,
    ensures
        spec_next(s).0 == Outcome::Event(EventModel::U64((s.src[s.pos + 1] as int * 256 + s.src[s.pos + 2] as int) as u64)),
{
    reveal_with_fuel(be_uint, 3);
    law_unsigned_ints_read_big_endian(s, 2);
}

/// A one-byte integer: a byte up to `0x7f` is that non-negative number, and
/// a byte from `0xe0` is the negative number `byte - 256` (from -32 to -1).
pub proof fn law_fixints(s: MsgpackState)
    requires
        s.pending is None,
        s.frames.len() > 0 ==> frame_count(s.frames.last()) > 0,
        0 <= s.pos < s.src.len(),
    ensures
        s.src[s.pos] <= 0x7f ==> spec_next(s).0 == Outcome::Event(EventModel::U64(s.src[s.pos] as u64)),
        s.src[s.pos] >= 0xe0 ==> spec_next(s).0 == Outcome::Event(EventModel::I64((s.src[s.pos] - 256) as i64))
            && -32 <= s.src[s.pos] - 256 < 0,
        s.src[s.pos] <= 0x7f || s.src[s.pos] >= 0xe0 ==> spec_next(s).1.pos == s.pos + 1,
{
    reveal(spec_next);
}

/// A 16-bit signed integer reads as its two's-complement value: the header
/// `0xd1` followed by the high and low bytes of `n + 65536` (when `n` is
/// negative) or of `n` gives the event `I64(n)`.
pub proof fn law_int16_reads_as_signed(s: MsgpackState, n: int)
    requires
        s.pending is None,
        s.frames.len() > 0 ==> frame_count(s.frames.last()) > 0,
        0 <= s.pos,
        s.pos + 3 <= s.src.len(),
        s.src[s.pos] == 0xd1,
        -0x8000 <= n < 0x8000,
        s.src[s.pos + 1] as int * 256 + s.src[s.pos + 2] as int == (if n < 0 { n + 0x1_0000 } else { n }),
    ensures
        spec_next(s).0 == Outcome::Event(EventModel::I64(n as i64)),
        spec_next(s).1.pos == s.pos + 3,
{
    reveal_with_fuel(be_uint, 3);
    lemma_pow2_values();
    law_signed_ints_read_as_twos_complement(s, 2, n);
}

} // verus!

verus! {

impl<'s> MsgpackDeserializer<'s> {
    /// Reads the next event.
    #[verifier::rlimit(40)]
    pub fn next(&mut self) -> (r: Result<Event<'s>, MerdeError<'s>>)
        requires
            old(self).wf(),
        ensures
            final(self).wf(),
            result_is(r, spec_next(old(self)@).0),
            final(self)@ == spec_next(old(self)@).1,
            old(self)@.pending is None ==> borrows_input(r),
    {
        proof {
            reveal(spec_next);
        }
        let starter = self.starter.take();
        if let Some(ev) = starter {
            return Ok(ev);
        }
        let depth = self.stack.len();
        if depth > 0 {
            match self.stack[depth - 1] {
                Frame::Array(count) => {
                    if count == 0 {
                        self.stack.pop();
                        return Ok(Event::ArrayEnd);
                    }
                    self.stack.set(depth - 1, Frame::Array(count - 1));
                },
                Frame::Dict(count) => {
                    if count == 0 {
                        self.stack.pop();
                        return Ok(Event::MapEnd);
                    }
                    self.stack.set(depth - 1, Frame::Dict(count - 1));
                },
            }
        }
        proof {
            let s = old(self)@;
            if s.frames.len() > 0 {
                assert(self.stack@ =~= s.frames.drop_last().push(consume_one(s.frames.last())));
            }
        }
        if self.offset >= self.source.len() {
            return Err(MerdeError::eof());
        }
        let byte = self.source[self.offset];
        self.offset = self.offset + 1;
        proof {
            lemma_pow2_values();
            lemma_be_uint_bound(self.source@, self.offset as int, 1);
            lemma_be_uint_bound(self.source@, self.offset as int, 2);
            lemma_be_uint_bound(self.source@, self.offset as int, 4);
            lemma_be_uint_bound(self.source@, self.offset as int, 8);
            lemma_pow256_bound(1);
            lemma_pow256_bound(2);
            lemma_pow256_bound(4);
            lemma_pow256_bound(8);
        }
        if byte <= 0x7f {
            Ok(Event::U64(byte as u64))
        } else if byte <= 0x8f {
            let len = (byte - 0x80) as usize;
            self.stack.push(Frame::Dict(len as u64 * 2));
            Ok(Event::MapStart(MapStart { size_hint: Some(len) }))
        } else if byte <= 0x9f {
            let len = (byte - 0x90) as usize;
            self.stack.push(Frame::Array(len as u64));
            Ok(Event::ArrayStart(ArrayStart { size_hint: Some(len) }))
        } else if byte <= 0xbf {
            self.read_str((byte - 0xa0) as usize)
        } else if byte == 0xc0 {
            Ok(Event::Null)
        } else if byte == 0xc2 {
            Ok(Event::Bool(false))
        } else if byte == 0xc3 {
            Ok(Event::Bool(true))
        } else if byte == 0xc4 {
            self.read_bytes_8()
        } else if byte == 0xc5 {
            self.read_bytes_16()
        } else if byte == 0xc6 {
            self.read_bytes_32()
        } else if byte == 0xca {
            match self.read_f32() {
                Ok(v) => Ok(Event::F64(v)),
                Err(e) => Err(e),
            }
        } else if byte == 0xcb {
            match self.read_f64() {
                Ok(v) => Ok(Event::F64(v)),
                Err(e) => Err(e),
            }
        } else if byte == 0xcc {
            match self.read_u8() {
                Ok(v) => Ok(Event::U64(v as u64)),
                Err(e) => Err(e),
            }
        } else if byte == 0xcd {
            match self.read_u16() {
                Ok(v) => Ok(Event::U64(v as u64)),
                Err(e) => Err(e),
            }
        } else if byte == 0xce {
            match self.read_u32() {
                Ok(v) => Ok(Event::U64(v as u64)),
                Err(e) => Err(e),
            }
        } else if byte == 0xcf {
            match self.read_u64() {
                Ok(v) => Ok(Event::U64(v)),
                Err(e) => Err(e),
            }
        } else if byte == 0xd0 {
            match self.read_i8() {
                Ok(v) => Ok(Event::I64(v as i64)),
                Err(e) => Err(e),
            }
        } else if byte == 0xd1 {
            match self.read_i16() {
                Ok(v) => Ok(Event::I64(v as i64)),
                Err(e) => Err(e),
            }
        } else if byte == 0xd2 {
            match self.read_i32() {
                Ok(v) => Ok(Event::I64(v as i64)),
                Err(e) => Err(e),
            }
        } else if byte == 0xd3 {
            match self.read_i64() {
                Ok(v) => Ok(Event::I64(v)),
                Err(e) => Err(e),
            }
        } else if byte == 0xd9 {
            self.read_str_8()
        } else if byte == 0xda {
            self.read_str_16()
        } else if byte == 0xdb {
            self.read_str_32()
        } else if byte == 0xdc {
            self.read_array_16()
        } else if byte == 0xdd {
            self.read_array_32()
        } else if byte == 0xde {
            self.read_map_16()
        } else if byte == 0xdf {
            self.read_map_32()
        } else if byte >= 0xe0 {
            Ok(Event::I64(byte as i64 - 256))
        } else {
            let ext = (0xd4 <= byte && byte <= 0xd8) || (0xc7 <= byte && byte <= 0xc9);
            Err(unsupported_error(byte, ext))
        }
    }
}

} // verus!

verus! {

/// An event that was put back is the next event read, and reading it leaves
/// the deserializer as it was before the event was put back.
pub proof fn law_put_back_then_next(s: MsgpackState, e: EventModel)
    requires
        s.pending is None,
    ensures
        spec_next(MsgpackState { pending: Some(e), ..s }) == (Outcome::Event(e), s),
{
    reveal(spec_next);
}

/// Reading never moves backwards in the input and never leaves it.
pub proof fn law_next_moves_forward(s: MsgpackState)
    requires
        0 <= s.pos <= s.src.len(),
    ensures
        s.pos <= spec_next(s).1.pos <= s.src.len(),
        spec_next(s).1.src == s.src,
{
    reveal(spec_next);
}

/// How much is left to read: each item takes at least one byte and may open
/// a container, and each container ends with one event.
pub open spec fn read_measure(s: MsgpackState) -> int {
    2 * (s.src.len() - s.pos) + s.frames.len()
}

pub proof fn lemma_decode_item_progress(src: Seq<u8>, off: int)
    requires
        0 <= off < src.len(),
    ensures
        decode_item(src, off) matches Decoded::Item { end, .. } ==> off < end <= src.len(),
{
}

/// Reading an event from a state with nothing put back leaves nothing put
/// back, stays inside the input, and leaves less to read.
pub proof fn lemma_next_progress(s: MsgpackState)
    requires
        s.pending is None,
        0 <= s.pos <= s.src.len(),
    ensures
        spec_next(s).1.pending is None,
        spec_next(s).1.src == s.src,
        0 <= spec_next(s).1.pos <= s.src.len(),
        spec_next(s).0 is Event ==> read_measure(spec_next(s).1) < read_measure(s),
{
    reveal(spec_next);
    if !(s.frames.len() > 0 && frame_count(s.frames.last()) == 0) && s.pos < s.src.len() {
        lemma_decode_item_progress(s.src, s.pos);
    }
}

/// Why reading a value stopped, or the value.
pub ghost enum ReadOutcome {
    Value(ValueModel),
    /// Reading an event failed.
    Failed(Outcome),
    /// An event did not fit: its kind, and the kinds that would have.
    Unexpected(EventType, Seq<EventType>),
}

/// Reading a value from state `s`, with the builder in state `st`: events are
/// read and fed to the builder until the value is complete or something fails.
pub open spec fn spec_read_value(s: MsgpackState, st: Seq<FrameModel>) -> ReadOutcome
    decreases read_measure(s),
    when s.pending is None && 0 <= s.pos <= s.src.len()
{
    proof {
        lemma_next_progress(s);
    }
    let (o, s2) = spec_next(s);
    match o {
        Outcome::Event(e) => match spec_feed(st, e) {
            FeedOutcome::Done(v) => ReadOutcome::Value(v),
            FeedOutcome::Pending(st2) => spec_read_value(s2, st2),
            FeedOutcome::Unexpected(g, x) => ReadOutcome::Unexpected(g, x),
        },
        _ => ReadOutcome::Failed(o),
    }
}

/// Whether an error is the failed outcome `o`.
pub open spec fn error_is(e: MerdeError, o: Outcome) -> bool {
    match o {
        Outcome::Event(_) => false,
        Outcome::Eof => e is Io,
        Outcome::BadUtf8 => e is Utf8Error,
        Outcome::Unsupported { byte, ext } => e matches MerdeError::BinaryParsingError { format, message }
            && format@ == "msgpack"@ && message@ == unsupported_message(byte, ext),
    }
}

/// Whether the result of reading a value is the outcome `o`.
pub open spec fn read_result_is<'s>(r: Result<Value<'s>, MerdeError<'s>>, o: ReadOutcome) -> bool {
    match o {
        ReadOutcome::Value(v) => r matches Ok(x) && x@ == v,
        ReadOutcome::Failed(out) => r matches Err(e) && error_is(e, out),
        ReadOutcome::Unexpected(got, exp) => r matches Err(MerdeError::UnexpectedEvent { got: g, expected: x, help: h })
            && g == got && x@ == exp && h is None,
    }
}

/// Reads one value from the MessagePack bytes `slice`.
#[verifier::rlimit(60)]
pub fn from_slice<'s>(slice: &'s [u8]) -> (r: Result<Value<'s>, MerdeError<'s>>)
    ensures
        read_result_is(r, spec_read_value(MsgpackState { src: slice@, pos: 0, frames: Seq::empty(), pending: None }, Seq::empty())),
{
    let ghost start = MsgpackState { src: slice@, pos: 0, frames: Seq::empty(), pending: None };
    let mut de = MsgpackDeserializer::new(slice);
    let mut b = ValueBuilder::new();
    loop
        invariant
            de.wf(),
            b.wf(),
            de@.pending is None,
            0 <= de@.pos <= de@.src.len(),
            start == (MsgpackState { src: slice@, pos: 0, frames: Seq::empty(), pending: None }),
            spec_read_value(de@, b@) == spec_read_value(start, Seq::empty()),
        decreases read_measure(de@),
    {
        let ghost s = de@;
        let ghost st = b@;
        proof {
            lemma_next_progress(s);
        }
        let ghost unfolded = spec_read_value(s, st);
        assert(unfolded == match spec_next(s).0 {
            Outcome::Event(e) => match spec_feed(st, e) {
                FeedOutcome::Done(v) => ReadOutcome::Value(v),
                FeedOutcome::Pending(st2) => spec_read_value(spec_next(s).1, st2),
                FeedOutcome::Unexpected(g, x) => ReadOutcome::Unexpected(g, x),
            },
            _ => ReadOutcome::Failed(spec_next(s).0),
        });
        let ev = match de.next() {
            Ok(e) => e,
            Err(e) => {
                return Err(e);
            },
        };
        match b.feed(ev) {
            Ok(Some(v)) => {
                return Ok(v);
            },
            Ok(None) => {},
            Err(e) => {
                return Err(e);
            },
        }
    }
}

} // verus!
