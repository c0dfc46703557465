//! The JSON serializer: turns a stream of events into JSON text.

use vstd::prelude::*;
use vstd::string::StringSliceAdditionalSpecFns;
use vstd::utf8::encode_scalar;
use crate::event::{Event, EventModel};
use crate::json::string::push_utf8;

verus! {

broadcast use vstd::string::axiom_spec_iter;

/// The decimal digits of `n`, in ASCII.
pub open spec fn decimal_digits(n: nat) -> Seq<u8>
    decreases n,
{
    if n < 10 {
        seq![(48 + n) as u8]
    } else {
        decimal_digits(n / 10).push((48 + n % 10) as u8)
    }
}

/// The decimal text of an integer, with a leading `-` when it is negative.
pub open spec fn decimal_text(n: int) -> Seq<u8> {
    if n < 0 {
        seq![45u8] + decimal_digits((-n) as nat)
    } else {
        decimal_digits(n as nat)
    }
}

/// `itoa::Buffer::format` on an `i64`: the decimal text of the number.
#[verifier::external_body]
fn itoa_i64(n: i64) -> (r: Vec<u8>)
    ensures
        r@ == decimal_text(n as int),
{
    itoa::Buffer::new().format(n).as_bytes().to_vec()
}

/// `itoa::Buffer::format` on a `u64`: the decimal text of the number.
#[verifier::external_body]
pub(crate) fn itoa_u64(n: u64) -> (r: Vec<u8>)
    ensures
        r@ == decimal_text(n as int),
{
    itoa::Buffer::new().format(n).as_bytes().to_vec()
}

/// A control character: Unicode's general category Cc.
pub open spec fn is_control(c: char) -> bool {
    (c as u32) <= 0x1F || (0x7F <= (c as u32) && (c as u32) <= 0x9F)
}

/// A lowercase hexadecimal digit.
pub open spec fn hex_lower(d: u32) -> u8 {
    if d < 10 {
        (48 + d) as u8
    } else {
        (87 + d) as u8
    }
}

/// How one character of a string is written inside quotes.
pub open spec fn escape_char(c: char) -> Seq<u8> {
    if c == '"' {
        seq![92u8, 34u8]
    } else if c == '\\' {
        seq![92u8, 92u8]
    } else if c == '\n' {
        seq![92u8, 110u8]
    } else if c == '\r' {
        seq![92u8, 114u8]
    } else if c == '\t' {
        seq![92u8, 116u8]
    } else if is_control(c) {
        seq![92u8, 117u8, 48u8, 48u8, hex_lower((c as u32) / 16), hex_lower((c as u32) % 16)]
    } else {
        encode_scalar(c as u32)
    }
}

/// How a sequence of characters is written inside quotes.
pub open spec fn escape_chars(s: Seq<char>) -> Seq<u8>
    decreases s.len(),
{
    if s.len() == 0 {
        Seq::empty()
    } else {
        escape_chars(s.drop_last()) + escape_char(s.last())
    }
}

/// A string as a JSON string literal.
pub open spec fn quoted(s: Seq<char>) -> Seq<u8> {
    seq![34u8] + escape_chars(s) + seq![34u8]
}

fn hex_digit_lower(d: u32) -> (r: u8)
    requires
        d < 16,
    ensures
        r == hex_lower(d),
{
    if d < 10 {
        (48 + d) as u8
    } else {
        (87 + d) as u8
    }
}

/// Appends the JSON string literal of `s` to `out`.
pub fn write_quoted(out: &mut Vec<u8>, s: &str)
    ensures
        final(out)@ == old(out)@ + quoted(s@),
{
    let ghost start = out@;
    out.push(34u8);
    for c in it: s.chars()
        invariant
            it.seq() == s@,
            out@ == start + seq![34u8] + escape_chars(s@.take(it.index() as int)),
    {
        let ghost before = out@;
        if c == '"' {
            out.push(92u8);
            out.push(34u8);
        } else if c == '\\' {
            out.push(92u8);
            out.push(92u8);
        } else if c == '\n' {
            out.push(92u8);
            out.push(110u8);
        } else if c == '\r' {
            out.push(92u8);
            out.push(114u8);
        } else if c == '\t' {
            out.push(92u8);
            out.push(116u8);
        } else if (c as u32) <= 0x1F || (0x7F <= (c as u32) && (c as u32) <= 0x9F) {
            let v = c as u32;
            out.push(92u8);
            out.push(117u8);
            out.push(48u8);
            out.push(48u8);
            out.push(hex_digit_lower(v / 16));
            out.push(hex_digit_lower(v % 16));
        } else {
            proof {
                vstd::utf8::char_is_scalar(c);
            }
            push_utf8(out, c as u32);
        }
        proof {
            let k = it.index() as int;
            assert(s@.take(k + 1).drop_last() =~= s@.take(k));
            assert(s@.take(k + 1).last() == c);
            assert(out@ =~= before + escape_char(c));
        }
    }
    proof {
        assert(s@.take(s@.len() as int) =~= s@);
    }
    out.push(34u8);
    proof {
        assert(out@ =~= start + quoted(s@));
    }
}

/// Appends `bytes` to `out`.
fn push_all(out: &mut Vec<u8>, bytes: &[u8])
    ensures
        final(out)@ == old(out)@ + bytes@,
{
    let ghost start = out@;
    let mut i: usize = 0;
    while i < bytes.len()
        invariant
            i <= bytes@.len(),
            out@ == start + bytes@.take(i as int),
        decreases bytes@.len() - i,
    {
        out.push(bytes[i]);
        i = i + 1;
        proof {
            assert(bytes@.take(i as int) =~= bytes@.take(i - 1).push(bytes@[i - 1]));
        }
    }
    proof {
        assert(bytes@.take(bytes@.len() as int) =~= bytes@);
    }
}

/// Where the serializer stands inside a container.
#[derive(Debug, Clone, Copy, PartialEq, Eq, Structural)]
pub enum StackFrame {
    /// The next item is an array item (the first one, if `first`).
    Array { first: bool },
    /// The next item is a map key (the first one, if `first`).
    MapKey { first: bool },
    /// The next item is a map value, after a `:`.
    MapValue,
}

/// Whether the event closes the container the serializer is in.
pub open spec fn closes(stack: Seq<StackFrame>, ev: EventModel) -> bool {
    stack.len() > 0 && match stack.last() {
        StackFrame::Array { .. } => ev is ArrayEnd,
        StackFrame::MapKey { .. } => ev is MapEnd,
        StackFrame::MapValue => false,
    }
}

/// The separator written before a value, and the stack after it.
pub open spec fn before_value(stack: Seq<StackFrame>) -> (Seq<u8>, Seq<StackFrame>) {
    if stack.len() == 0 {
        (Seq::empty(), stack)
    } else {
        let rest = stack.drop_last();
        match stack.last() {
            StackFrame::Array { first } => (
                if first { Seq::empty() } else { seq![44u8] },
                rest.push(StackFrame::Array { first: false }),
            ),
            StackFrame::MapKey { first } => (
                if first { Seq::empty() } else { seq![44u8] },
                rest.push(StackFrame::MapValue),
            ),
            StackFrame::MapValue => (seq![58u8], rest.push(StackFrame::MapKey { first: false })),
        }
    }
}

/// The text of a value, and the stack after it. Bytes have no JSON text and
/// are skipped; floats are written by `write_float_text`.
pub open spec fn value_text(ev: EventModel, stack: Seq<StackFrame>) -> (Seq<u8>, Seq<StackFrame>) {
    match ev {
        EventModel::Null => (seq![110u8, 117u8, 108u8, 108u8], stack),
        EventModel::Bool(b) => (
            if b { seq![116u8, 114u8, 117u8, 101u8] } else { seq![102u8, 97u8, 108u8, 115u8, 101u8] },
            stack,
        ),
        EventModel::I64(n) => (decimal_text(n as int), stack),
        EventModel::U64(n) => (decimal_text(n as int), stack),
        EventModel::Str(s) => (quoted(s), stack),
        EventModel::MapStart(_) => (seq![123u8], stack.push(StackFrame::MapKey { first: true })),
        EventModel::MapEnd => (seq![125u8], stack),
        EventModel::ArrayStart(_) => (seq![91u8], stack.push(StackFrame::Array { first: true })),
        _ => (Seq::empty(), stack),
    }
}

/// What writing an event appends, and the stack after it.
pub open spec fn spec_write(stack: Seq<StackFrame>, ev: EventModel) -> (Seq<u8>, Seq<StackFrame>) {
    if closes(stack, ev) {
        (if ev is ArrayEnd { seq![93u8] } else { seq![125u8] }, stack.drop_last())
    } else {
        let (sep, st) = before_value(stack);
        let (text, st2) = value_text(ev, st);
        (sep + text, st2)
    }
}

/// The events `write` takes: not a float (its text comes to
/// `write_float_text`), and an array end only inside an array.
pub open spec fn can_write(stack: Seq<StackFrame>, ev: EventModel) -> bool {
    &&& !(ev is F64)
    &&& ev is ArrayEnd ==> closes(stack, ev)
}

/// What the serializer has written, and where it stands.
pub ghost struct SerializerState {
    pub output: Seq<u8>,
    pub stack: Seq<StackFrame>,
}

/// Writes JSON into a byte buffer. None of its methods can fail.
#[derive(Debug, Default)]
pub struct JsonSerializer {
    w: Vec<u8>,
    stack: Vec<StackFrame>,
}

impl View for JsonSerializer {
    type V = SerializerState;

    closed spec fn view(&self) -> SerializerState {
        SerializerState { output: self.w@, stack: self.stack@ }
    }
}

impl JsonSerializer {
    /// A serializer that appends to the buffer `w`.
    pub fn new(w: Vec<u8>) -> (r: Self)
        ensures
            r@ == (SerializerState { output: w@, stack: Seq::empty() }),
    {
        JsonSerializer { w, stack: Vec::new() }
    }

    /// The buffer, with everything written so far.
    pub fn into_inner(self) -> (r: Vec<u8>)
        ensures
            r@ == self@.output,
    {
        self.w
    }

    /// Takes the bytes written so far, leaving the buffer empty; the
    /// serializer keeps its place in the document.
    pub fn take_output(&mut self) -> (r: Vec<u8>)
        ensures
            r@ == old(self)@.output,
            final(self)@ == (SerializerState { output: Seq::empty(), stack: old(self)@.stack }),
    {
        let mut out: Vec<u8> = Vec::new();
        std::mem::swap(&mut out, &mut self.w);
        out
    }

    /// Whether an array end closes the container the serializer is in (an
    /// array end anywhere else has no place in the document).
    pub fn in_array(&self) -> (r: bool)
        ensures
            r == closes(self@.stack, EventModel::ArrayEnd),
    {
        let n = self.stack.len();
        if n == 0 {
            false
        } else {
            match self.stack[n - 1] {
                StackFrame::Array { .. } => true,
                _ => false,
            }
        }
    }

    /// Writes the separator a value needs here, and moves past it.
    fn separate(&mut self)
        ensures
            final(self)@.output == old(self)@.output + before_value(old(self)@.stack).0,
            final(self)@.stack == before_value(old(self)@.stack).1,
    {
        let n = self.stack.len();
        if n > 0 {
            let top = self.stack[n - 1];
            let _ = self.stack.pop();
            match top {
                StackFrame::Array { first } => {
                    if !first {
                        self.w.push(44u8);
                    }
                    self.stack.push(StackFrame::Array { first: false });
                },
                StackFrame::MapKey { first } => {
                    if !first {
                        self.w.push(44u8);
                    }
                    self.stack.push(StackFrame::MapValue);
                },
                StackFrame::MapValue => {
                    self.w.push(58u8);
                    self.stack.push(StackFrame::MapKey { first: false });
                },
            }
        }
        proof {
            assert(self.w@ =~= old(self).w@ + before_value(old(self)@.stack).0);
            assert(self.stack@ =~= before_value(old(self)@.stack).1);
        }
    }

    /// Writes one event.
    pub fn write(&mut self, ev: Event<'_>)
        requires
            can_write(old(self)@.stack, ev@),
        ensures
            final(self)@.output == old(self)@.output + spec_write(old(self)@.stack, ev@).0,
            final(self)@.stack == spec_write(old(self)@.stack, ev@).1,
            vstd::utf8::valid_utf8(old(self)@.output) ==> vstd::utf8::valid_utf8(final(self)@.output),
    {
        proof {
            if vstd::utf8::valid_utf8(old(self)@.output) {
                law_output_stays_utf8(old(self)@.stack, ev@, Seq::empty(), old(self)@.output);
            }
        }
        let n = self.stack.len();
        if n > 0 {
            let top = self.stack[n - 1];
            let closing = match top {
                StackFrame::Array { .. } => matches!(ev, Event::ArrayEnd),
                StackFrame::MapKey { .. } => matches!(ev, Event::MapEnd),
                StackFrame::MapValue => false,
            };
            if closing {
                let _ = self.stack.pop();
                if matches!(ev, Event::ArrayEnd) {
                    self.w.push(93u8);
                } else {
                    self.w.push(125u8);
                }
                proof {
                    assert(self.w@ =~= old(self).w@ + spec_write(old(self)@.stack, ev@).0);
                    assert(self.stack@ =~= spec_write(old(self)@.stack, ev@).1);
                }
                return;
            }
        }
        self.separate();
        let ghost mid = self.w@;
        match ev {
            Event::Null => {
                self.w.push(110u8);
                self.w.push(117u8);
                self.w.push(108u8);
                self.w.push(108u8);
            },
            Event::Bool(b) => {
                if b {
                    self.w.push(116u8);
                    self.w.push(114u8);
                    self.w.push(117u8);
                    self.w.push(101u8);
                } else {
                    self.w.push(102u8);
                    self.w.push(97u8);
                    self.w.push(108u8);
                    self.w.push(115u8);
                    self.w.push(101u8);
                }
            },
            Event::I64(i) => {
                let d = itoa_i64(i);
                push_all(&mut self.w, d.as_slice());
            },
            Event::U64(u) => {
                let d = itoa_u64(u);
                push_all(&mut self.w, d.as_slice());
            },
            Event::Str(s) => {
                write_quoted(&mut self.w, s.as_str());
            },
            Event::MapStart(_) => {
                self.w.push(123u8);
                self.stack.push(StackFrame::MapKey { first: true });
            },
            Event::MapEnd => {
                self.w.push(125u8);
            },
            Event::ArrayStart(_) => {
                self.w.push(91u8);
                self.stack.push(StackFrame::Array { first: true });
            },
            _ => {},
        }
        proof {
            assert(self.w@ =~= mid + value_text(ev@, before_value(old(self)@.stack).1).0);
            assert(self.w@ =~= old(self).w@ + spec_write(old(self)@.stack, ev@).0);
        }
    }

    /// Writes a float, given its text: the separator it needs, then the text.
    pub fn write_float_text(&mut self, text: &str)
        ensures
            final(self)@.output == old(self)@.output + before_value(old(self)@.stack).0 + text.spec_bytes(),
            final(self)@.stack == before_value(old(self)@.stack).1,
            vstd::utf8::valid_utf8(old(self)@.output) ==> vstd::utf8::valid_utf8(final(self)@.output),
    {
        proof {
            if vstd::utf8::valid_utf8(old(self)@.output) {
                law_output_stays_utf8(old(self)@.stack, EventModel::Null, text@, old(self)@.output);
            }
        }
        self.separate();
        push_all(&mut self.w, text.as_bytes());
    }
}

/// A byte that a JSON string holds as itself: not a quote, not a backslash,
/// not a control character.
pub open spec fn plain_byte(b: u8) -> bool {
    b != 34 && b != 92 && b >= 0x20
}

proof fn lemma_escape_chars_front(t: Seq<char>)
    requires
        t.len() > 0,
    ensures
        escape_chars(t) == escape_char(t[0]) + escape_chars(t.drop_first()),
    decreases t.len(),
{
    if t.len() == 1 {
        assert(t.drop_last() =~= Seq::<char>::empty());
        assert(t.drop_first() =~= Seq::<char>::empty());
        assert(escape_chars(t.drop_first()) =~= Seq::<u8>::empty());
        assert(escape_chars(t) =~= escape_char(t[0]) + escape_chars(t.drop_first()));
    } else {
        lemma_escape_chars_front(t.drop_last());
        assert(t.drop_last()[0] == t[0]);
        assert(t.drop_last().drop_first() =~= t.drop_first().drop_last());
        assert(t.drop_first().last() == t.last());
        assert(escape_chars(t) =~= escape_char(t[0]) + escape_chars(t.drop_first()));
    }
}

proof fn lemma_plain_bytes(data: Seq<u8>, i: int, bs: Seq<u8>, acc: Seq<u8>)
    requires
        0 <= i,
        i + bs.len() <= data.len(),
        data.subrange(i, i + bs.len()) == bs,
        forall|j: int| 0 <= j < bs.len() ==> plain_byte(#[trigger] bs[j]),
    ensures
        crate::json::string::spec_string_from(data, i, acc)
            == crate::json::string::spec_string_from(data, i + bs.len(), acc + bs),
    decreases bs.len(),
{
    if bs.len() == 0 {
        assert(acc + bs =~= acc);
    } else {
        assert(data[i] == bs[0]);
        assert(plain_byte(bs[0]));
        let rest = bs.drop_first();
        assert(data.subrange(i + 1, i + 1 + rest.len()) =~= rest);
        lemma_plain_bytes(data, i + 1, rest, acc.push(bs[0]));
        assert(acc.push(bs[0]) + rest =~= acc + bs);
    }
}

proof fn lemma_wide_scalar_bytes(c: u32)
    requires
        0x80 <= c <= 0x10FFFF,
        !(0xD800 <= c <= 0xDFFF),
    ensures
        forall|j: int| 0 <= j < encode_scalar(c).len() ==> plain_byte(#[trigger] encode_scalar(c)[j]),
{
    assert((0xC0u8 | ((c >> 6u32) & 0x1Fu32) as u8) >= 0x80u8) by (bit_vector);
    assert((0xE0u8 | ((c >> 12u32) & 0x0Fu32) as u8) >= 0x80u8) by (bit_vector);
    assert((0xF0u8 | ((c >> 18u32) & 0x7u32) as u8) >= 0x80u8) by (bit_vector);
    assert((0x80u8 | (c & 0x3Fu32) as u8) >= 0x80u8) by (bit_vector);
    assert((0x80u8 | ((c >> 6u32) & 0x3Fu32) as u8) >= 0x80u8) by (bit_vector);
    assert((0x80u8 | ((c >> 12u32) & 0x3Fu32) as u8) >= 0x80u8) by (bit_vector);
}

proof fn lemma_hex_lower(d: u32)
    requires
        d < 16,
    ensures
        crate::json::string::hex_value(hex_lower(d)) == Some(d),
{
}

proof fn lemma_simple_escape_reads_back(data: Seq<u8>, i: int, code: u8, acc: Seq<u8>)
    requires
        0 <= i,
        i + 2 <= data.len(),
        data[i] == 92,
        data[i + 1] == code,
        code != 117,
        crate::json::string::simple_escape(code) is Some,
    ensures
        crate::json::string::spec_string_from(data, i, acc)
            == crate::json::string::spec_string_from(data, i + 2, acc.push(crate::json::string::simple_escape(code)->0)),
{
}

proof fn lemma_control_escape_reads_back(data: Seq<u8>, i: int, v: u32, acc: Seq<u8>)
    requires
        0 <= i,
        i + 6 <= data.len(),
        v <= 0x9F,
        data[i] == 92,
        data[i + 1] == 117,
        data[i + 2] == 48,
        data[i + 3] == 48,
        data[i + 4] == hex_lower(v / 16),
        data[i + 5] == hex_lower(v % 16),
    ensures
        crate::json::string::spec_string_from(data, i, acc)
            == crate::json::string::spec_string_from(data, i + 6, acc + encode_scalar(v)),
{
    lemma_hex_lower(v / 16);
    lemma_hex_lower(v % 16);
    assert(v / 16 * 16 + v % 16 == v);
    assert(crate::json::string::spec_hex4(data, i + 2) == Ok::<u32, crate::json::errors::JsonError>(v));
    assert(crate::json::string::spec_unicode_escape(data, i + 2) == Ok::<(u32, int), crate::json::errors::JsonError>((v, i + 6)));
}

proof fn lemma_ascii_scalar(v: u32)
    requires
        v <= 0x7F,
    ensures
        encode_scalar(v) == seq![v as u8],
{
    assert((v & 0x7Fu32) as u8 == v as u8) by (bit_vector)
        requires
            v <= 0x7F;
    assert(encode_scalar(v) =~= seq![v as u8]);
}

#[verifier::rlimit(50)]
proof fn lemma_escape_char_reads_back(data: Seq<u8>, i: int, c: char, acc: Seq<u8>)
    requires
        0 <= i,
        i + escape_char(c).len() <= data.len(),
        data.subrange(i, i + escape_char(c).len()) == escape_char(c),
    ensures
        crate::json::string::spec_string_from(data, i, acc)
            == crate::json::string::spec_string_from(data, i + escape_char(c).len(), acc + encode_scalar(c as u32)),
{
    vstd::utf8::char_is_scalar(c);
    let e = escape_char(c);
    let v = c as u32;
    assert forall|j: int| 0 <= j < e.len() implies data[i + j] == #[trigger] e[j] by {
        assert(data.subrange(i, i + e.len())[j] == data[i + j]);
    }
    if c == '"' || c == '\\' || c == '\n' || c == '\r' || c == '\t' {
        lemma_ascii_scalar(v);
        lemma_simple_escape_reads_back(data, i, e[1], acc);
        assert(acc.push(crate::json::string::simple_escape(e[1])->0) =~= acc + encode_scalar(v));
    } else if is_control(c) {
        lemma_control_escape_reads_back(data, i, v, acc);
    } else if v <= 0x7F {
        lemma_ascii_scalar(v);
        lemma_plain_bytes(data, i, encode_scalar(v), acc);
    } else {
        lemma_wide_scalar_bytes(v);
        lemma_plain_bytes(data, i, encode_scalar(v), acc);
    }
}

proof fn lemma_escape_chars_read_back(data: Seq<u8>, i: int, t: Seq<char>, acc: Seq<u8>)
    requires
        0 <= i,
        i + escape_chars(t).len() <= data.len(),
        data.subrange(i, i + escape_chars(t).len()) == escape_chars(t),
    ensures
        crate::json::string::spec_string_from(data, i, acc)
            == crate::json::string::spec_string_from(data, i + escape_chars(t).len(), acc + vstd::utf8::encode_utf8(t)),
    decreases t.len(),
{
    if t.len() == 0 {
        assert(acc + vstd::utf8::encode_utf8(t) =~= acc);
    } else {
        lemma_escape_chars_front(t);
        let e0 = escape_char(t[0]);
        let rest = escape_chars(t.drop_first());
        assert(data.subrange(i, i + e0.len()) =~= e0) by {
            assert(data.subrange(i, i + e0.len()) =~= data.subrange(i, i + escape_chars(t).len()).subrange(0, e0.len() as int));
        }
        assert(data.subrange(i + e0.len(), i + e0.len() + rest.len()) =~= rest) by {
            assert(data.subrange(i + e0.len(), i + e0.len() + rest.len()) =~= data.subrange(i, i + escape_chars(t).len()).subrange(e0.len() as int, escape_chars(t).len() as int));
        }
        lemma_escape_char_reads_back(data, i, t[0], acc);
        lemma_escape_chars_read_back(data, i + e0.len(), t.drop_first(), acc + encode_scalar(t[0] as u32));
        assert(acc + encode_scalar(t[0] as u32) + vstd::utf8::encode_utf8(t.drop_first()) =~= acc + vstd::utf8::encode_utf8(t));
    }
}

/// A string that the serializer writes reads back as the same string, and
/// reading stops just after it, whatever surrounds it.
pub proof fn law_written_string_reads_back(s: Seq<char>, before: Seq<u8>, after: Seq<u8>)
    ensures
        crate::json::string::spec_string(before + quoted(s) + after, before.len() as int)
            == Ok::<(Seq<char>, int), crate::json::errors::JsonError>((s, before.len() + quoted(s).len() as int)),
{
    let data = before + quoted(s) + after;
    let start = before.len() as int;
    let e = escape_chars(s);
    assert(data[start] == 34);
    assert(data.subrange(start + 1, start + 1 + e.len()) =~= e);
    lemma_escape_chars_read_back(data, start + 1, s, Seq::empty());
    assert(data[start + 1 + e.len()] == 34);
    assert(Seq::<u8>::empty() + vstd::utf8::encode_utf8(s) =~= vstd::utf8::encode_utf8(s));
    vstd::utf8::encode_utf8_valid_utf8(s);
    vstd::utf8::encode_utf8_decode_utf8(s);
}

/// Bytes below 0x80 are well-formed UTF-8 (each is one ASCII character).
proof fn lemma_ascii_valid_utf8(bytes: Seq<u8>)
    requires
        forall|i: int| 0 <= i < bytes.len() ==> #[trigger] bytes[i] < 0x80,
    ensures
        vstd::utf8::valid_utf8(bytes),
    decreases bytes.len(),
{
    if bytes.len() > 0 {
        let b = bytes[0];
        assert(b < 0x80);
        assert((b & 0x7Fu8) as u32 <= 0x7Fu32) by (bit_vector);
        let rest = bytes.subrange(1, bytes.len() as int);
        assert(vstd::utf8::pop_first_scalar(bytes) =~= rest);
        lemma_ascii_valid_utf8(rest);
    }
}

/// The decimal digits of a number are ASCII.
proof fn lemma_decimal_digits_ascii(n: nat)
    ensures
        forall|i: int| 0 <= i < decimal_digits(n).len() ==> #[trigger] decimal_digits(n)[i] < 0x80,
    decreases n,
{
    if n >= 10 {
        lemma_decimal_digits_ascii(n / 10);
        let d = decimal_digits(n);
        assert forall|i: int| 0 <= i < d.len() implies #[trigger] d[i] < 0x80 by {
            if i < d.len() - 1 {
                assert(d[i] == decimal_digits(n / 10)[i]);
            }
        }
    }
}

/// The decimal text of an integer is well-formed UTF-8.
proof fn lemma_decimal_text_utf8(n: int)
    ensures
        vstd::utf8::valid_utf8(decimal_text(n)),
{
    if n < 0 {
        lemma_decimal_digits_ascii((-n) as nat);
        let t = decimal_text(n);
        assert forall|i: int| 0 <= i < t.len() implies #[trigger] t[i] < 0x80 by {
            if i > 0 {
                assert(t[i] == decimal_digits((-n) as nat)[i - 1]);
            }
        }
        lemma_ascii_valid_utf8(t);
    } else {
        lemma_decimal_digits_ascii(n as nat);
        lemma_ascii_valid_utf8(decimal_text(n));
    }
}

/// How one character is written inside quotes is well-formed UTF-8.
proof fn lemma_escape_char_utf8(c: char)
    ensures
        vstd::utf8::valid_utf8(escape_char(c)),
{
    let e = escape_char(c);
    if c == '"' || c == '\\' || c == '\n' || c == '\r' || c == '\t' {
        lemma_ascii_valid_utf8(e);
    } else if is_control(c) {
        assert(hex_lower((c as u32) / 16) < 0x80);
        assert(hex_lower((c as u32) % 16) < 0x80);
        lemma_ascii_valid_utf8(e);
    } else {
        let one = seq![c];
        assert(one.drop_first() =~= Seq::<char>::empty());
        assert(one[0] == c);
        assert(vstd::utf8::encode_utf8(one.drop_first()) =~= Seq::<u8>::empty());
        assert(vstd::utf8::encode_utf8(one) =~= encode_scalar(c as u32));
        vstd::utf8::encode_utf8_valid_utf8(one);
    }
}

/// How a string is written inside quotes is well-formed UTF-8.
proof fn lemma_escape_chars_utf8(t: Seq<char>)
    ensures
        vstd::utf8::valid_utf8(escape_chars(t)),
    decreases t.len(),
{
    if t.len() > 0 {
        lemma_escape_chars_utf8(t.drop_last());
        lemma_escape_char_utf8(t.last());
        vstd::utf8::valid_utf8_concat(escape_chars(t.drop_last()), escape_char(t.last()));
    } else {
        lemma_ascii_valid_utf8(escape_chars(t));
    }
}

/// What writing one event appends is well-formed UTF-8.
proof fn lemma_write_text_utf8(stack: Seq<StackFrame>, ev: EventModel)
    ensures
        vstd::utf8::valid_utf8(spec_write(stack, ev).0),
{
    let (sep, st) = before_value(stack);
    lemma_ascii_valid_utf8(sep);
    let text = value_text(ev, st).0;
    match ev {
        EventModel::I64(n) => lemma_decimal_text_utf8(n as int),
        EventModel::U64(n) => lemma_decimal_text_utf8(n as int),
        EventModel::Str(t) => {
            lemma_escape_chars_utf8(t);
            lemma_ascii_valid_utf8(seq![34u8]);
            vstd::utf8::valid_utf8_concat(seq![34u8], escape_chars(t));
            vstd::utf8::valid_utf8_concat(seq![34u8] + escape_chars(t), seq![34u8]);
        },
        _ => lemma_ascii_valid_utf8(text),
    }
    vstd::utf8::valid_utf8_concat(sep, text);
    if closes(stack, ev) {
        lemma_ascii_valid_utf8(spec_write(stack, ev).0);
    }
}

/// The serializer only writes well-formed UTF-8: output that is UTF-8 stays
/// UTF-8 after any event `write` takes, and after a float's text (the text
/// of a `str`).
pub proof fn law_output_stays_utf8(stack: Seq<StackFrame>, ev: EventModel, float_text: Seq<char>, before: Seq<u8>)
    requires
        vstd::utf8::valid_utf8(before),
    ensures
        vstd::utf8::valid_utf8(before + spec_write(stack, ev).0),
        vstd::utf8::valid_utf8(before + before_value(stack).0 + vstd::utf8::encode_utf8(float_text)),
{
    lemma_write_text_utf8(stack, ev);
    vstd::utf8::valid_utf8_concat(before, spec_write(stack, ev).0);
    lemma_ascii_valid_utf8(before_value(stack).0);
    vstd::utf8::valid_utf8_concat(before, before_value(stack).0);
    vstd::utf8::encode_utf8_valid_utf8(float_text);
    vstd::utf8::valid_utf8_concat(before + before_value(stack).0, vstd::utf8::encode_utf8(float_text));
}

} // verus!
