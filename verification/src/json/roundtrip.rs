//! What the JSON serializer writes for a value, and what the deserializer
//! reads back of it.

use vstd::prelude::*;
use crate::cowstr::CowStr;
use crate::event::EventModel;
use crate::value::{entries_events, items_events, value_events, Array, Mapping, Value};
use crate::json::serializer::{
    before_value, decimal_digits, decimal_text, law_written_string_reads_back, quoted, spec_write, StackFrame,
};
use crate::json::number::{
    acc_digits, digits_end, is_digit, is_float_marker, lemma_digits_end_skip, pow10, spec_number_int,
    spec_number_int_exact, spec_number_range, NumberInt,
};
use crate::json::parse::{
    ident_end, peek_byte, peek_is_num, peek_of, spec_array_first, spec_array_step, spec_consume_ident,
    spec_object_first, spec_object_key, spec_object_step, spec_peek, ws_end, Peek,
};
use crate::json::deserializer::{
    input_of, spec_json_next, spec_peeked_value, spec_value, JsonOutcome, JsonState, StackModel,
};
use crate::json::errors::JsonError;

verus! {

/// What the serializer appends for a list of events written from `stack`,
/// and its stack after them.
pub open spec fn write_all(stack: Seq<StackFrame>, evs: Seq<EventModel>) -> (Seq<u8>, Seq<StackFrame>)
    decreases evs.len(),
{
    if evs.len() == 0 {
        (Seq::empty(), stack)
    } else {
        let (text, st) = write_all(stack, evs.drop_last());
        let (more, st2) = spec_write(st, evs.last());
        (text + more, st2)
    }
}

/// Events that JSON holds as they are: no floats (their text comes to
/// `write_float_text`) and no bytes (JSON has none; the serializer skips them).
pub open spec fn json_events(evs: Seq<EventModel>) -> bool {
    forall|i: int| 0 <= i < evs.len() ==> !(#[trigger] evs[i] is F64) && !(evs[i] is Bytes)
}

/// The JSON text of a value, without whitespace.
pub open(crate) spec fn json_text(v: Value) -> Seq<u8>
    decreases v,
{
    match v {
        Value::I64(n) => decimal_text(n as int),
        Value::U64(n) => decimal_text(n as int),
        Value::Str(s) => quoted(s@),
        Value::Null => seq![110u8, 117u8, 108u8, 108u8],
        Value::Bool(b) => if b {
            seq![116u8, 114u8, 117u8, 101u8]
        } else {
            seq![102u8, 97u8, 108u8, 115u8, 101u8]
        },
        Value::Array(a) => seq![91u8] + items_text(a.0@) + seq![93u8],
        Value::Mapping(m) => seq![123u8] + entries_text(m.entries@) + seq![125u8],
        _ => Seq::empty(),
    }
}

/// The JSON text of array items, separated by commas.
pub open spec fn items_text(s: Seq<Value>) -> Seq<u8>
    decreases s,
{
    if s.len() == 0 {
        Seq::empty()
    } else if s.len() == 1 {
        json_text(s[0])
    } else {
        items_text(s.drop_last()) + seq![44u8] + json_text(s.last())
    }
}

/// The JSON text of map entries (`"key":value`), separated by commas.
pub open spec fn entries_text(s: Seq<(CowStr, Value)>) -> Seq<u8>
    decreases s,
{
    if s.len() == 0 {
        Seq::empty()
    } else if s.len() == 1 {
        quoted(s[0].0@) + seq![58u8] + json_text(s[0].1)
    } else {
        entries_text(s.drop_last()) + seq![44u8] + quoted(s.last().0@) + seq![58u8] + json_text(s.last().1)
    }
}

proof fn lemma_write_all_concat(stack: Seq<StackFrame>, a: Seq<EventModel>, b: Seq<EventModel>)
    ensures
        write_all(stack, a + b) == (
            write_all(stack, a).0 + write_all(write_all(stack, a).1, b).0,
            write_all(write_all(stack, a).1, b).1,
        ),
    decreases b.len(),
{
    if b.len() == 0 {
        assert(a + b =~= a);
        assert(write_all(stack, a).0 + Seq::<u8>::empty() =~= write_all(stack, a).0);
    } else {
        lemma_write_all_concat(stack, a, b.drop_last());
        assert((a + b).drop_last() =~= a + b.drop_last());
        assert((a + b).last() == b.last());
        let mid = write_all(write_all(stack, a).1, b.drop_last());
        let more = spec_write(mid.1, b.last());
        assert(write_all(stack, a).0 + mid.0 + more.0 =~= write_all(stack, a).0 + (mid.0 + more.0));
    }
}

proof fn lemma_json_events_split(a: Seq<EventModel>, b: Seq<EventModel>)
    requires
        json_events(a + b),
    ensures
        json_events(a),
        json_events(b),
{
    assert forall|i: int| 0 <= i < a.len() implies !(#[trigger] a[i] is F64) && !(a[i] is Bytes) by {
        assert((a + b)[i] == a[i]);
    }
    assert forall|i: int| 0 <= i < b.len() implies !(#[trigger] b[i] is F64) && !(b[i] is Bytes) by {
        assert((a + b)[a.len() + i] == b[i]);
    }
}

proof fn lemma_write_one(stack: Seq<StackFrame>, e: EventModel)
    ensures
        write_all(stack, seq![e]) == spec_write(stack, e),
{
    assert(seq![e].drop_last() =~= Seq::<EventModel>::empty());
    assert(seq![e].last() == e);
    assert(write_all(stack, Seq::<EventModel>::empty()) == (Seq::<u8>::empty(), stack));
    assert(Seq::<u8>::empty() + spec_write(stack, e).0 =~= spec_write(stack, e).0);
}

/// Writing the events of a value appends the separator it needs and then
/// its JSON text.
proof fn lemma_write_value(v: Value, stack: Seq<StackFrame>)
    requires
        json_events(value_events(v)),
    ensures
        write_all(stack, value_events(v)) == (before_value(stack).0 + json_text(v), before_value(stack).1),
    decreases v,
{
    let (sep, st1) = before_value(stack);
    match v {
        Value::Array(a) => {
            let s = a.0@;
            let start = EventModel::ArrayStart(Some(s.len() as usize));
            let head = seq![start];
            let tail = seq![EventModel::ArrayEnd];
            assert(value_events(v) == head + items_events(s) + tail);
            assert(json_text(v) == seq![91u8] + items_text(s) + seq![93u8]);
            assert(write_all(stack, head + items_events(s) + tail) == (sep + (seq![91u8] + items_text(s) + seq![93u8]), st1)) by {
                lemma_json_events_split(head + items_events(s), tail);
                lemma_json_events_split(head, items_events(s));
                lemma_write_all_concat(stack, head + items_events(s), tail);
                lemma_write_all_concat(stack, head, items_events(s));
                lemma_write_one(stack, start);
                lemma_write_items(s, st1);
                let inner = st1.push(StackFrame::Array { first: s.len() == 0 });
                lemma_write_one(inner, EventModel::ArrayEnd);
                assert(inner.drop_last() =~= st1);
                assert(sep + seq![91u8] + items_text(s) + seq![93u8] =~= sep + (seq![91u8] + items_text(s) + seq![93u8]));
            }
        },
        Value::Mapping(m) => {
            let s = m.entries@;
            let start = EventModel::MapStart(Some(s.len() as usize));
            let head = seq![start];
            let tail = seq![EventModel::MapEnd];
            assert(value_events(v) == head + entries_events(s) + tail);
            assert(json_text(v) == seq![123u8] + entries_text(s) + seq![125u8]);
            assert(write_all(stack, head + entries_events(s) + tail) == (sep + (seq![123u8] + entries_text(s) + seq![125u8]), st1)) by {
                lemma_json_events_split(head + entries_events(s), tail);
                lemma_json_events_split(head, entries_events(s));
                lemma_write_all_concat(stack, head + entries_events(s), tail);
                lemma_write_all_concat(stack, head, entries_events(s));
                lemma_write_one(stack, start);
                lemma_write_entries(s, st1);
                let inner = st1.push(StackFrame::MapKey { first: s.len() == 0 });
                lemma_write_one(inner, EventModel::MapEnd);
                assert(inner.drop_last() =~= st1);
                assert(sep + seq![123u8] + entries_text(s) + seq![125u8] =~= sep + (seq![123u8] + entries_text(s) + seq![125u8]));
            }
        },
        Value::Float(f) => {
            assert(value_events(v)[0] is F64);
        },
        Value::Bytes(b) => {
            assert(value_events(v)[0] is Bytes);
        },
        _ => {
            lemma_write_one(stack, value_events(v)[0]);
            assert(value_events(v) =~= seq![value_events(v)[0]]);
        },
    }
}

/// Writing the events of array items, just after `[`, appends their text
/// and leaves the array open.
proof fn lemma_write_items(s: Seq<Value>, st: Seq<StackFrame>)
    requires
        json_events(items_events(s)),
    ensures
        write_all(st.push(StackFrame::Array { first: true }), items_events(s))
            == (items_text(s), st.push(StackFrame::Array { first: s.len() == 0 })),
    decreases s,
{
    if s.len() > 0 {
        let d = s.drop_last();
        let last = s.last();
        assert(items_events(s) == items_events(d) + value_events(last));
        lemma_json_events_split(items_events(d), value_events(last));
        lemma_write_all_concat(st.push(StackFrame::Array { first: true }), items_events(d), value_events(last));
        lemma_write_items(d, st);
        let mid = st.push(StackFrame::Array { first: d.len() == 0 });
        lemma_write_value(last, mid);
        assert(mid.drop_last() =~= st);
        if d.len() == 0 {
            assert(items_text(d) + Seq::<u8>::empty() + json_text(last) =~= items_text(s));
        } else {
            assert(items_text(d) + (seq![44u8] + json_text(last)) =~= items_text(s));
        }
    }
}

/// Writing the events of map entries, just after `{`, appends their text
/// and leaves the map open.
proof fn lemma_write_entries(s: Seq<(CowStr, Value)>, st: Seq<StackFrame>)
    requires
        json_events(entries_events(s)),
    ensures
        write_all(st.push(StackFrame::MapKey { first: true }), entries_events(s))
            == (entries_text(s), st.push(StackFrame::MapKey { first: s.len() == 0 })),
    decreases s,
{
    if s.len() > 0 {
        let d = s.drop_last();
        let last = s.last();
        let key = seq![EventModel::Str(last.0@)];
        assert(entries_events(s) == entries_events(d) + key + value_events(last.1));
        lemma_json_events_split(entries_events(d) + key, value_events(last.1));
        lemma_json_events_split(entries_events(d), key);
        let top = st.push(StackFrame::MapKey { first: true });
        lemma_write_all_concat(top, entries_events(d) + key, value_events(last.1));
        lemma_write_all_concat(top, entries_events(d), key);
        lemma_write_entries(d, st);
        let mid = st.push(StackFrame::MapKey { first: d.len() == 0 });
        lemma_write_one(mid, EventModel::Str(last.0@));
        assert(mid.drop_last() =~= st);
        let keyed = st.push(StackFrame::MapValue);
        lemma_write_value(last.1, keyed);
        assert(keyed.drop_last() =~= st);
        if d.len() == 0 {
            assert(entries_text(d) + (Seq::<u8>::empty() + quoted(last.0@)) + (seq![58u8] + json_text(last.1))
                =~= entries_text(s));
        } else {
            assert(entries_text(d) + (seq![44u8] + quoted(last.0@)) + (seq![58u8] + json_text(last.1))
                =~= entries_text(s));
        }
    }
}

/// A byte that starts the JSON text of a value.
pub open spec fn starts_value(b: u8) -> bool {
    b == 34 || b == 91 || b == 123 || b == 110 || b == 116 || b == 102 || b == 45 || is_digit(b)
}

/// A place where the text of a value may end: the end of the input, or a
/// comma, `]` or `}`.
pub open spec fn ends_value(data: Seq<u8>, end: int) -> bool {
    end == data.len() || (0 <= end < data.len() && (data[end] == 44 || data[end] == 93 || data[end] == 125))
}

proof fn lemma_pow10_20()
    ensures
        pow10(20) == 100_000_000_000_000_000_000,
{
    reveal_with_fuel(pow10, 21);
}

proof fn lemma_decimal_digits(n: nat, m: nat)
    requires
        m >= 1,
        n < pow10(m),
    ensures
        1 <= decimal_digits(n).len() <= m,
        forall|i: int| 0 <= i < decimal_digits(n).len() ==> is_digit(#[trigger] decimal_digits(n)[i]),
        n == 0 ==> decimal_digits(n) == seq![48u8],
        n > 0 ==> decimal_digits(n)[0] != 48,
    decreases n,
{
    if n >= 10 {
        assert(m >= 2) by {
            if m == 1 {
                assert(pow10(1) == 10 * pow10(0));
            }
        }
        assert(n / 10 < pow10((m - 1) as nat)) by {
            assert(pow10(m) == 10 * pow10((m - 1) as nat));
        }
        lemma_decimal_digits(n / 10, (m - 1) as nat);
        let d = decimal_digits(n / 10);
        assert(decimal_digits(n) == d.push((48 + n % 10) as u8));
        assert forall|i: int| 0 <= i < decimal_digits(n).len() implies is_digit(#[trigger] decimal_digits(n)[i]) by {
            if i < d.len() {
                assert(decimal_digits(n)[i] == d[i]);
            }
        }
        assert(decimal_digits(n)[0] == d[0]);
    }
}

/// The decimal text of an integer that fits in 64 bits: an optional `-`, then
/// at most twenty digits, the first of which is `0` only for zero.
proof fn lemma_decimal_text(n: int)
    requires
        -0x8000_0000_0000_0000 <= n < 0x1_0000_0000_0000_0000,
    ensures
        ({
            let t = decimal_text(n);
            let off: int = if n < 0 { 1 } else { 0 };
            &&& off < t.len() <= off + 20
            &&& n < 0 ==> t[0] == 45
            &&& forall|i: int| off <= i < t.len() ==> is_digit(#[trigger] t[i])
            &&& n == 0 ==> t == seq![48u8]
            &&& n != 0 ==> t[off] != 48
        }),
{
    lemma_pow10_20();
    if n < 0 {
        lemma_decimal_digits((-n) as nat, 20);
        let d = decimal_digits((-n) as nat);
        let t = decimal_text(n);
        assert(t == seq![45u8] + d);
        assert forall|i: int| 1 <= i < t.len() implies is_digit(#[trigger] t[i]) by {
            assert(t[i] == d[i - 1]);
        }
    } else {
        lemma_decimal_digits(n as nat, 20);
    }
}

/// Where `data` holds `a + b` from `start`, it holds `a` from `start` and
/// `b` just after it.
proof fn lemma_holds_split(data: Seq<u8>, start: int, a: Seq<u8>, b: Seq<u8>)
    requires
        0 <= start,
        start + a.len() + b.len() <= data.len(),
        data.subrange(start, start + (a + b).len()) == a + b,
    ensures
        data.subrange(start, start + a.len()) == a,
        data.subrange(start + a.len(), start + a.len() + b.len()) == b,
{
    assert(data.subrange(start, start + a.len()) =~= (a + b).subrange(0, a.len() as int));
    assert(data.subrange(start + a.len(), start + a.len() + b.len()) =~= (a + b).subrange(a.len() as int, (a + b).len() as int));
}

/// Where `data` holds `t` from `start`, its bytes are those of `t`.
proof fn lemma_holds_at(data: Seq<u8>, start: int, t: Seq<u8>, i: int)
    requires
        0 <= start,
        start + t.len() <= data.len(),
        data.subrange(start, start + t.len()) == t,
        0 <= i < t.len(),
    ensures
        data[start + i] == t[i],
{
    assert(data.subrange(start, start + t.len())[i] == data[start + i]);
}

/// The outcomes of `n` steps of the deserializer from `s`, and its state
/// after them.
pub open spec fn read_steps(s: JsonState, n: nat) -> (Seq<JsonOutcome>, JsonState)
    decreases n,
{
    if n == 0 {
        (Seq::empty(), s)
    } else {
        let (o, s1) = spec_json_next(s);
        let (more, s2) = read_steps(s1, (n - 1) as nat);
        (seq![o] + more, s2)
    }
}

/// Whether a step's outcome in `data` reads back the event: the event itself
/// (an array or map start without its size hint), or for an integer, a
/// number whose text is the integer's decimal text.
pub open spec fn reads_as(data: Seq<u8>, o: JsonOutcome, e: EventModel) -> bool {
    match e {
        EventModel::I64(n) => o matches JsonOutcome::Number { is_int, start, end } && is_int && 0 <= start
            <= end <= data.len() && data.subrange(start, end) == decimal_text(n as int),
        EventModel::U64(n) => o matches JsonOutcome::Number { is_int, start, end } && is_int && 0 <= start
            <= end <= data.len() && data.subrange(start, end) == decimal_text(n as int),
        EventModel::ArrayStart(_) => o == JsonOutcome::Event(EventModel::ArrayStart(None)),
        EventModel::MapStart(_) => o == JsonOutcome::Event(EventModel::MapStart(None)),
        _ => o == JsonOutcome::Event(e),
    }
}

/// Whether the outcomes read back the events, one for one.
pub open spec fn reads_back(data: Seq<u8>, outs: Seq<JsonOutcome>, evs: Seq<EventModel>) -> bool {
    outs.len() == evs.len() && forall|i: int| 0 <= i < evs.len() ==> reads_as(data, #[trigger] outs[i], evs[i])
}

proof fn lemma_read_steps_concat(s: JsonState, a: nat, b: nat)
    ensures
        read_steps(s, a + b) == (
            read_steps(s, a).0 + read_steps(read_steps(s, a).1, b).0,
            read_steps(read_steps(s, a).1, b).1,
        ),
    decreases a,
{
    if a == 0 {
        assert(Seq::<JsonOutcome>::empty() + read_steps(s, b).0 =~= read_steps(s, b).0);
    } else {
        let (o, s1) = spec_json_next(s);
        lemma_read_steps_concat(s1, (a - 1) as nat, b);
        assert((a + b - 1) as nat == (a - 1) as nat + b);
        let x = read_steps(s1, (a - 1) as nat);
        let y = read_steps(x.1, b);
        assert(seq![o] + (x.0 + y.0) =~= (seq![o] + x.0) + y.0);
    }
}

proof fn lemma_read_one(s: JsonState)
    ensures
        read_steps(s, 1) == (seq![spec_json_next(s).0], spec_json_next(s).1),
{
    let s1 = spec_json_next(s).1;
    assert(read_steps(s1, 0) == (Seq::<JsonOutcome>::empty(), s1));
    assert(seq![spec_json_next(s).0] + Seq::<JsonOutcome>::empty() =~= seq![spec_json_next(s).0]);
}

proof fn lemma_reads_back_concat(data: Seq<u8>, o1: Seq<JsonOutcome>, o2: Seq<JsonOutcome>, e1: Seq<EventModel>, e2: Seq<EventModel>)
    requires
        reads_back(data, o1, e1),
        reads_back(data, o2, e2),
    ensures
        reads_back(data, o1 + o2, e1 + e2),
{
    assert forall|i: int| 0 <= i < (e1 + e2).len() implies reads_as(data, #[trigger] (o1 + o2)[i], (e1 + e2)[i]) by {
        if i < e1.len() {
            assert((o1 + o2)[i] == o1[i]);
            assert((e1 + e2)[i] == e1[i]);
        } else {
            assert((o1 + o2)[i] == o2[i - e1.len()]);
            assert((e1 + e2)[i] == e2[i - e1.len()]);
        }
    }
}

proof fn lemma_read_ident(data: Seq<u8>, i: int, rest: Seq<u8>, k: int)
    requires
        0 <= k <= rest.len(),
        0 <= i,
        i + rest.len() - k <= data.len(),
        data.subrange(i, i + rest.len() - k) == rest.subrange(k, rest.len() as int),
    ensures
        ident_end(data, i, rest, k) == Ok::<int, JsonError>(i + rest.len() - k),
    decreases rest.len() - k,
{
    if k < rest.len() {
        assert(data.subrange(i, i + rest.len() - k)[0] == data[i]);
        assert(rest.subrange(k, rest.len() as int)[0] == rest[k]);
        assert(data[i] == rest[k]);
        assert(0 <= i < data.len());
        assert(data.subrange(i + 1, i + rest.len() - k) =~= rest.subrange(k + 1, rest.len() as int)) by {
            assert(data.subrange(i + 1, i + rest.len() - k) =~= data.subrange(i, i + rest.len() - k).subrange(1, rest.len() - k));
            assert(rest.subrange(k + 1, rest.len() as int) =~= rest.subrange(k, rest.len() as int).subrange(1, rest.len() - k));
        }
        lemma_read_ident(data, i + 1, rest, k + 1);
    }
}

/// An identifier whose text sits at `start` reads as itself.
proof fn lemma_read_word(data: Seq<u8>, start: int, word: Seq<u8>)
    requires
        word.len() >= 1,
        0 <= start,
        start + word.len() <= data.len(),
        data.subrange(start, start + word.len()) == word,
    ensures
        spec_consume_ident(data, start, word.drop_first()) == Ok::<int, JsonError>(start + word.len()),
{
    assert(data.subrange(start + 1, start + word.len()) =~= word.drop_first().subrange(0, word.len() - 1)) by {
        assert(data.subrange(start + 1, start + word.len()) =~= data.subrange(start, start + word.len()).subrange(1, word.len() as int));
    }
    lemma_read_ident(data, start + 1, word.drop_first(), 0);
}

/// The decimal text of an integer reads as an integer number that ends with it.
proof fn lemma_read_number(data: Seq<u8>, start: int, n: int, allow_inf_nan: bool)
    requires
        -0x8000_0000_0000_0000 <= n < 0x1_0000_0000_0000_0000,
        0 <= start,
        start + decimal_text(n).len() <= data.len(),
        data.subrange(start, start + decimal_text(n).len()) == decimal_text(n),
        ends_value(data, start + decimal_text(n).len()),
    ensures
        peek_of(data[start]) is Minus || peek_of(data[start]) is Other,
        peek_is_num(peek_of(data[start])),
        spec_number_range(data, start, peek_byte(peek_of(data[start])), allow_inf_nan)
            == Ok::<(bool, int), JsonError>((true, start + decimal_text(n).len())),
{
    let t = decimal_text(n);
    let end = start + t.len();
    let off: int = if n < 0 { 1 } else { 0 };
    lemma_decimal_text(n);
    assert forall|i: int| 0 <= i < t.len() implies data[start + i] == #[trigger] t[i] by {
        lemma_holds_at(data, start, t, i);
    }
    let j = start + off;
    assert(data[j] == t[off]);
    assert(is_digit(data[j]));
    assert(end < data.len() ==> !is_digit(data[end]) && data[end] != 46 && data[end] != 101 && data[end] != 69);
    if n != 0 {
        assert forall|i: int| j + 1 <= i < end implies is_digit(#[trigger] data[i]) by {
            assert(data[i] == t[i - start]);
        }
        lemma_digits_end_skip(data, j + 1, end);
        assert(digits_end(data, end) == end);
    }
}

proof fn lemma_text_start(v: Value)
    requires
        json_events(value_events(v)),
    ensures
        json_text(v).len() >= 1,
        starts_value(json_text(v)[0]),
{
    match v {
        Value::I64(n) => {
            lemma_decimal_text(n as int);
        },
        Value::U64(n) => {
            lemma_decimal_text(n as int);
        },
        Value::Float(_) => {
            assert(value_events(v)[0] is F64);
        },
        Value::Bytes(_) => {
            assert(value_events(v)[0] is Bytes);
        },
        _ => {},
    }
}

proof fn lemma_items_start(s: Seq<Value>)
    requires
        s.len() > 0,
        json_events(items_events(s)),
    ensures
        items_text(s).len() >= 1,
        items_text(s)[0] == json_text(s[0])[0],
        starts_value(items_text(s)[0]),
    decreases s.len(),
{
    let d = s.drop_last();
    assert(items_events(s) == items_events(d) + value_events(s.last()));
    lemma_json_events_split(items_events(d), value_events(s.last()));
    if s.len() == 1 {
        assert(items_events(d) =~= Seq::<EventModel>::empty());
        lemma_text_start(s[0]);
    } else {
        lemma_items_start(d);
        assert(d[0] == s[0]);
    }
}

/// A key written by the serializer reads back, with the colon after it.
proof fn lemma_read_key(data: Seq<u8>, i: int, k: Seq<char>)
    requires
        0 <= i,
        i + quoted(k).len() + 1 <= data.len(),
        data.subrange(i, i + quoted(k).len() + 1) == quoted(k) + seq![58u8],
    ensures
        spec_object_key(data, i) == Ok::<(Option<Seq<char>>, int), JsonError>((Some(k), i + quoted(k).len() + 1)),
{
    let q = quoted(k);
    lemma_holds_split(data, i, q, seq![58u8]);
    lemma_holds_at(data, i + q.len(), seq![58u8], 0);
    let before = data.take(i);
    let after = data.skip(i + q.len());
    assert(data =~= before + q + after);
    law_written_string_reads_back(k, before, after);
}

/// The step that reads `null` written at `start`.
proof fn lemma_value_null(s: JsonState, start: int, stk: Seq<StackModel>)
    requires
        0 <= start,
        start + 4 <= s.data.len(),
        s.data.subrange(start, start + 4) == seq![110u8, 117u8, 108u8, 108u8],
    ensures
        spec_value(input_of(s), peek_of(s.data[start]), start, stk)
            == (JsonOutcome::Event(EventModel::Null), JsonState { pos: start + 4, stack: stk, pending: None, ..s }),
{
    let word = seq![110u8, 117u8, 108u8, 108u8];
    lemma_holds_at(s.data, start, word, 0);
    lemma_read_word(s.data, start, word);
    assert(word.drop_first() =~= seq![117u8, 108, 108]);
    assert(peek_of(s.data[start]) == Peek::Null);
    reveal(spec_value);
}

/// The step that reads `true` or `false` written at `start`.
proof fn lemma_value_bool(s: JsonState, start: int, stk: Seq<StackModel>, b: bool)
    requires
        0 <= start,
        ({
            let word = if b { seq![116u8, 114u8, 117u8, 101u8] } else { seq![102u8, 97u8, 108u8, 115u8, 101u8] };
            &&& start + word.len() <= s.data.len()
            &&& s.data.subrange(start, start + word.len()) == word
        }),
    ensures
        ({
            let word = if b { seq![116u8, 114u8, 117u8, 101u8] } else { seq![102u8, 97u8, 108u8, 115u8, 101u8] };
            spec_value(input_of(s), peek_of(s.data[start]), start, stk) == (
                JsonOutcome::Event(EventModel::Bool(b)),
                JsonState { pos: start + word.len(), stack: stk, pending: None, ..s },
            )
        }),
{
    if b {
        let word = seq![116u8, 114u8, 117u8, 101u8];
        lemma_holds_at(s.data, start, word, 0);
        lemma_read_word(s.data, start, word);
        assert(word.drop_first() =~= seq![114u8, 117, 101]);
        assert(peek_of(s.data[start]) == Peek::True);
        reveal(spec_value);
    } else {
        let word = seq![102u8, 97u8, 108u8, 115u8, 101u8];
        lemma_holds_at(s.data, start, word, 0);
        lemma_read_word(s.data, start, word);
        assert(word.drop_first() =~= seq![97u8, 108, 115, 101]);
        assert(peek_of(s.data[start]) == Peek::False);
        reveal(spec_value);
    }
}

/// The step that reads an integer written at `start`.
proof fn lemma_value_number(s: JsonState, start: int, stk: Seq<StackModel>, n: int)
    requires
        -0x8000_0000_0000_0000 <= n < 0x1_0000_0000_0000_0000,
        0 <= start,
        start + decimal_text(n).len() <= s.data.len(),
        s.data.subrange(start, start + decimal_text(n).len()) == decimal_text(n),
        ends_value(s.data, start + decimal_text(n).len()),
    ensures
        spec_value(input_of(s), peek_of(s.data[start]), start, stk) == (
            JsonOutcome::Number { is_int: true, start, end: start + decimal_text(n).len() },
            JsonState { pos: start + decimal_text(n).len(), stack: stk, pending: None, ..s },
        ),
{
    reveal(spec_value);
    lemma_read_number(s.data, start, n, s.allow_inf_nan);
}

/// The step that reads a string written at `start`.
proof fn lemma_value_string(s: JsonState, start: int, stk: Seq<StackModel>, x: Seq<char>)
    requires
        0 <= start,
        start + quoted(x).len() <= s.data.len(),
        s.data.subrange(start, start + quoted(x).len()) == quoted(x),
    ensures
        spec_value(input_of(s), peek_of(s.data[start]), start, stk)
            == (JsonOutcome::Event(EventModel::Str(x)), JsonState { pos: start + quoted(x).len(), stack: stk, pending: None, ..s }),
{
    reveal(spec_value);
    let data = s.data;
    let q = quoted(x);
    assert(q[0] == 34);
    lemma_holds_at(data, start, q, 0);
    let before = data.take(start);
    let after = data.skip(start + q.len());
    assert(data =~= before + q + after);
    law_written_string_reads_back(x, before, after);
}

/// The first step reading a scalar's text gives its event and moves past it.
proof fn lemma_read_scalar(v: Value, s: JsonState, start: int, stk: Seq<StackModel>)
    requires
        json_events(value_events(v)),
        !(v is Array),
        !(v is Mapping),
        0 <= start,
        start + json_text(v).len() <= s.data.len(),
        s.data.subrange(start, start + json_text(v).len()) == json_text(v),
        ends_value(s.data, start + json_text(v).len()),
    ensures
        ({
            let r = spec_value(input_of(s), peek_of(s.data[start]), start, stk);
            &&& reads_as(s.data, r.0, value_events(v)[0])
            &&& r.1 == (JsonState { pos: start + json_text(v).len(), stack: stk, pending: None, ..s })
        }),
{
    match v {
        Value::Float(_) => {
            assert(value_events(v)[0] is F64);
        },
        Value::Bytes(_) => {
            assert(value_events(v)[0] is Bytes);
        },
        Value::Null => {
            lemma_value_null(s, start, stk);
        },
        Value::Bool(b) => {
            lemma_value_bool(s, start, stk, b);
        },
        Value::I64(n) => {
            lemma_value_number(s, start, stk, n as int);
        },
        Value::U64(n) => {
            lemma_value_number(s, start, stk, n as int);
        },
        Value::Str(x) => {
            lemma_value_string(s, start, stk, x@);
        },
        _ => {},
    }
}

/// Where `data` holds `t` from `start`, any part of it holds the matching
/// part of `t`.
proof fn lemma_holds_sub(data: Seq<u8>, start: int, t: Seq<u8>, x: int, y: int)
    requires
        0 <= start <= x <= y <= start + t.len() <= data.len(),
        data.subrange(start, start + t.len()) == t,
    ensures
        data.subrange(x, y) == t.subrange(x - start, y - start),
{
    assert(data.subrange(x, y) =~= data.subrange(start, start + t.len()).subrange(x - start, y - start));
}

/// The step that reads `[` at `start`: the array start, with a peek at the
/// first item, or the array's end.
proof fn lemma_value_array(s: JsonState, start: int, stk: Seq<StackModel>)
    requires
        0 <= start,
        start + 1 < s.data.len(),
        s.data[start] == 91,
        s.data[start + 1] == 93 || starts_value(s.data[start + 1]),
    ensures
        spec_value(input_of(s), peek_of(s.data[start]), start, stk) == (
            JsonOutcome::Event(EventModel::ArrayStart(None)),
            if s.data[start + 1] == 93 {
                JsonState { pos: start + 2, stack: stk.push(StackModel::ArrayEnd), pending: None, ..s }
            } else {
                JsonState {
                    pos: start + 1,
                    stack: stk.push(StackModel::Array(Some(peek_of(s.data[start + 1])))),
                    pending: None,
                    ..s
                }
            },
        ),
{
    assert(peek_of(s.data[start]) == Peek::Array);
    assert(ws_end(s.data, start + 1) == start + 1);
    assert(spec_array_first(s.data, start + 1) == if s.data[start + 1] == 93 {
        Ok::<(Option<Peek>, int), JsonError>((None, start + 2))
    } else {
        Ok::<(Option<Peek>, int), JsonError>((Some(peek_of(s.data[start + 1])), start + 1))
    });
    reveal(spec_value);
}

/// In an array whose item was peeked at, the step reads that item.
proof fn lemma_array_peeked(y: JsonState, stk: Seq<StackModel>, p: Peek)
    requires
        y.pending is None,
        y.stack == stk.push(StackModel::Array(Some(p))),
    ensures
        spec_json_next(y) == spec_value(input_of(y), p, y.pos, stk.push(StackModel::Array(None))),
{
    assert(y.stack.drop_last() =~= stk);
}

/// After an array item and a comma, the step reads the next item.
proof fn lemma_array_next(y: JsonState, stk: Seq<StackModel>)
    requires
        y.pending is None,
        y.stack == stk.push(StackModel::Array(None)),
        0 <= y.pos,
        y.pos + 1 < y.data.len(),
        y.data[y.pos] == 44,
        starts_value(y.data[y.pos + 1]),
    ensures
        spec_json_next(y) == spec_value(input_of(y), peek_of(y.data[y.pos + 1]), y.pos + 1, stk.push(StackModel::Array(None))),
{
    assert(y.stack.drop_last() =~= stk);
    assert(ws_end(y.data, y.pos) == y.pos);
    assert(ws_end(y.data, y.pos + 1) == y.pos + 1);
    assert(spec_array_step(y.data, y.pos) == Ok::<(Option<Peek>, int), JsonError>((Some(peek_of(y.data[y.pos + 1])), y.pos + 1)));
}

/// After the last array item, the step reads `]`.
proof fn lemma_array_close(y: JsonState, stk: Seq<StackModel>)
    requires
        y.pending is None,
        y.stack == stk.push(StackModel::Array(None)),
        0 <= y.pos < y.data.len(),
        y.data[y.pos] == 93,
    ensures
        spec_json_next(y) == (JsonOutcome::Event(EventModel::ArrayEnd), JsonState { pos: y.pos + 1, stack: stk, ..y }),
{
    assert(y.stack.drop_last() =~= stk);
    assert(ws_end(y.data, y.pos) == y.pos);
    assert(spec_array_step(y.data, y.pos) == Ok::<(Option<Peek>, int), JsonError>((None, y.pos + 1)));
}

/// In an empty container, the step reads its end.
proof fn lemma_empty_close(y: JsonState, stk: Seq<StackModel>, top: StackModel, ev: EventModel)
    requires
        y.pending is None,
        y.stack == stk.push(top),
        (top == StackModel::ArrayEnd && ev == EventModel::ArrayEnd) || (top == StackModel::ObjectEnd && ev == EventModel::MapEnd),
    ensures
        spec_json_next(y) == (JsonOutcome::Event(ev), JsonState { stack: stk, ..y }),
{
    assert(y.stack.drop_last() =~= stk);
}

/// The step that reads `{` at `start`: the map start, with the first key
/// and its colon read, or the map's end.
proof fn lemma_value_object(s: JsonState, start: int, stk: Seq<StackModel>, first: Option<Seq<char>>)
    requires
        0 <= start,
        start + 1 < s.data.len(),
        s.data[start] == 123,
        match first {
            None => s.data[start + 1] == 125,
            Some(k) => start + 1 + quoted(k).len() + 1 <= s.data.len()
                && s.data.subrange(start + 1, start + 1 + quoted(k).len() + 1) == quoted(k) + seq![58u8],
        },
    ensures
        spec_value(input_of(s), peek_of(s.data[start]), start, stk) == (
            JsonOutcome::Event(EventModel::MapStart(None)),
            match first {
                None => JsonState { pos: start + 2, stack: stk.push(StackModel::ObjectEnd), pending: None, ..s },
                Some(k) => JsonState {
                    pos: start + 1 + quoted(k).len() + 1,
                    stack: stk.push(StackModel::ObjectKey(Some(k))),
                    pending: None,
                    ..s
                },
            },
        ),
{
    assert(peek_of(s.data[start]) == Peek::Object);
    match first {
        None => {
            assert(ws_end(s.data, start + 1) == start + 1);
            assert(spec_object_first(s.data, start + 1) == Ok::<(Option<Seq<char>>, int), JsonError>((None, start + 2)));
        },
        Some(k) => {
            assert(quoted(k)[0] == 34);
            lemma_holds_at(s.data, start + 1, quoted(k) + seq![58u8], 0);
            assert(ws_end(s.data, start + 1) == start + 1);
            lemma_read_key(s.data, start + 1, k);
            assert(spec_object_first(s.data, start + 1)
                == Ok::<(Option<Seq<char>>, int), JsonError>((Some(k), start + 1 + quoted(k).len() + 1)));
        },
    }
    reveal(spec_value);
}

/// A key read with the map's start is the next event.
proof fn lemma_object_key_given(y: JsonState, stk: Seq<StackModel>, k: Seq<char>)
    requires
        y.pending is None,
        y.stack == stk.push(StackModel::ObjectKey(Some(k))),
    ensures
        spec_json_next(y) == (JsonOutcome::Event(EventModel::Str(k)), JsonState { stack: stk.push(StackModel::ObjectValue), ..y }),
{
    assert(y.stack.drop_last() =~= stk);
}

/// After a map value and a comma, the step reads the next key and its colon.
proof fn lemma_object_next_key(y: JsonState, stk: Seq<StackModel>, k: Seq<char>)
    requires
        y.pending is None,
        y.stack == stk.push(StackModel::ObjectKey(None)),
        0 <= y.pos,
        y.pos + 1 + quoted(k).len() + 1 <= y.data.len(),
        y.data[y.pos] == 44,
        y.data.subrange(y.pos + 1, y.pos + 1 + quoted(k).len() + 1) == quoted(k) + seq![58u8],
    ensures
        spec_json_next(y) == (
            JsonOutcome::Event(EventModel::Str(k)),
            JsonState { pos: y.pos + 1 + quoted(k).len() + 1, stack: stk.push(StackModel::ObjectValue), ..y },
        ),
{
    assert(y.stack.drop_last() =~= stk);
    assert(quoted(k)[0] == 34);
    lemma_holds_at(y.data, y.pos + 1, quoted(k) + seq![58u8], 0);
    assert(ws_end(y.data, y.pos) == y.pos);
    assert(ws_end(y.data, y.pos + 1) == y.pos + 1);
    lemma_read_key(y.data, y.pos + 1, k);
}

/// After a key and its colon, the step reads the value.
proof fn lemma_object_value(y: JsonState, stk: Seq<StackModel>)
    requires
        y.pending is None,
        y.stack == stk.push(StackModel::ObjectValue),
        0 <= y.pos < y.data.len(),
        starts_value(y.data[y.pos]),
    ensures
        spec_json_next(y) == spec_value(input_of(y), peek_of(y.data[y.pos]), y.pos, stk.push(StackModel::ObjectKey(None))),
{
    assert(y.stack.drop_last() =~= stk);
    assert(ws_end(y.data, y.pos) == y.pos);
    assert(spec_peek(y.data, y.pos) == Ok::<(Peek, int), JsonError>((peek_of(y.data[y.pos]), y.pos)));
}

/// After the last map value, the step reads `}`.
proof fn lemma_object_close(y: JsonState, stk: Seq<StackModel>)
    requires
        y.pending is None,
        y.stack == stk.push(StackModel::ObjectKey(None)),
        0 <= y.pos < y.data.len(),
        y.data[y.pos] == 125,
    ensures
        spec_json_next(y) == (JsonOutcome::Event(EventModel::MapEnd), JsonState { pos: y.pos + 1, stack: stk, ..y }),
{
    assert(y.stack.drop_last() =~= stk);
    assert(ws_end(y.data, y.pos) == y.pos);
    assert(spec_object_step(y.data, y.pos) == Ok::<(Option<Seq<char>>, int), JsonError>((None, y.pos + 1)));
}

/// Reading the JSON text of a value, from a step that starts on it, gives
/// back its events and stops just after the text, with the stack that the
/// first step left under the value.
#[verifier::spinoff_prover]
#[verifier::rlimit(30)]
proof fn lemma_read_value(v: Value, s: JsonState, start: int, stk: Seq<StackModel>)
    requires
        json_events(value_events(v)),
        0 <= start,
        start + json_text(v).len() <= s.data.len(),
        s.data.subrange(start, start + json_text(v).len()) == json_text(v),
        ends_value(s.data, start + json_text(v).len()),
        spec_json_next(s) == spec_value(input_of(s), peek_of(s.data[start]), start, stk),
    ensures
        reads_back(s.data, read_steps(s, value_events(v).len()).0, value_events(v)),
        read_steps(s, value_events(v).len()).1
            == (JsonState { pos: start + json_text(v).len(), stack: stk, pending: None, ..s }),
    decreases v,
{
    match v {
        Value::Array(a) => {
            lemma_read_array(a, s, start, stk);
        },
        Value::Mapping(m) => {
            lemma_read_mapping(m, s, start, stk);
        },
        _ => {
            lemma_read_scalar(v, s, start, stk);
            lemma_read_one(s);
            assert(value_events(v).len() == 1);
        },
    }
}

/// Reading a container: its opening step, the steps of its contents, and
/// its closing step.
proof fn lemma_read_container(
    s: JsonState,
    s1: JsonState,
    s2: JsonState,
    n: nat,
    head: EventModel,
    contents: Seq<EventModel>,
    tail: EventModel,
    fin: JsonState,
)
    requires
        spec_json_next(s).1 == s1,
        reads_as(s.data, spec_json_next(s).0, head),
        read_steps(s1, n).1 == s2,
        contents.len() == n,
        reads_back(s.data, read_steps(s1, n).0, contents),
        spec_json_next(s2) == (JsonOutcome::Event(tail), fin),
        tail is ArrayEnd || tail is MapEnd,
    ensures
        reads_back(s.data, read_steps(s, 1 + n + 1).0, seq![head] + contents + seq![tail]),
        read_steps(s, 1 + n + 1).1 == fin,
{
    lemma_read_one(s);
    lemma_read_one(s2);
    lemma_read_steps_concat(s, 1, n);
    lemma_read_steps_concat(s, 1 + n, 1);
    let first = read_steps(s, 1).0;
    let mid = read_steps(s1, n).0;
    let last = read_steps(s2, 1).0;
    assert(reads_back(s.data, first, seq![head]));
    assert(reads_back(s.data, last, seq![tail]));
    lemma_reads_back_concat(s.data, first, mid, seq![head], contents);
    lemma_reads_back_concat(s.data, first + mid, last, seq![head] + contents, seq![tail]);
}

/// Reading the JSON text of an array gives back its events.
#[verifier::spinoff_prover]
#[verifier::rlimit(30)]
proof fn lemma_read_array(a: Array, s: JsonState, start: int, stk: Seq<StackModel>)
    requires
        json_events(value_events(Value::Array(a))),
        0 <= start,
        start + json_text(Value::Array(a)).len() <= s.data.len(),
        s.data.subrange(start, start + json_text(Value::Array(a)).len()) == json_text(Value::Array(a)),
        ends_value(s.data, start + json_text(Value::Array(a)).len()),
        spec_json_next(s) == spec_value(input_of(s), peek_of(s.data[start]), start, stk),
    ensures
        reads_back(s.data, read_steps(s, value_events(Value::Array(a)).len()).0, value_events(Value::Array(a))),
        read_steps(s, value_events(Value::Array(a)).len()).1
            == (JsonState { pos: start + json_text(Value::Array(a)).len(), stack: stk, pending: None, ..s }),
    decreases a,
{
    let v = Value::Array(a);
    let data = s.data;
    let end = start + json_text(v).len();
    let items = a.0@;
    let head = EventModel::ArrayStart(Some(items.len() as usize));
    let tail = EventModel::ArrayEnd;
    assert(value_events(v) == seq![head] + items_events(items) + seq![tail]);
    assert(json_text(v) == seq![91u8] + items_text(items) + seq![93u8]);
    lemma_json_events_split(seq![head] + items_events(items), seq![tail]);
    lemma_json_events_split(seq![head], items_events(items));
    lemma_holds_at(data, start, json_text(v), 0);
    lemma_holds_at(data, start, json_text(v), json_text(v).len() - 1);
    let fin = JsonState { pos: end, stack: stk, pending: None, ..s };
    if items.len() == 0 {
        assert(items_events(items) =~= Seq::<EventModel>::empty());
        lemma_value_array(s, start, stk);
        let s1 = JsonState { pos: start + 2, stack: stk.push(StackModel::ArrayEnd), pending: None, ..s };
        lemma_empty_close(s1, stk, StackModel::ArrayEnd, EventModel::ArrayEnd);
        assert(read_steps(s1, 0) == (Seq::<JsonOutcome>::empty(), s1));
        lemma_read_container(s, s1, s1, 0, head, Seq::empty(), tail, fin);
    } else {
        let n = items_events(items).len();
        lemma_items_start(items);
        lemma_holds_at(data, start, json_text(v), 1);
        lemma_value_array(s, start, stk);
        let p = peek_of(data[start + 1]);
        let s1 = JsonState { pos: start + 1, stack: stk.push(StackModel::Array(Some(p))), pending: None, ..s };
        lemma_holds_sub(data, start, json_text(v), start + 1, start + 1 + items_text(items).len());
        assert(json_text(v).subrange(1, 1 + items_text(items).len() as int) =~= items_text(items));
        lemma_read_items(items, s1, start + 1, stk);
        let s2 = JsonState { pos: start + 1 + items_text(items).len(), stack: stk.push(StackModel::Array(None)), pending: None, ..s };
        lemma_array_close(s2, stk);
        lemma_read_container(s, s1, s2, n, head, items_events(items), tail, fin);
    }
}

/// Reading the JSON text of a map gives back its events.
#[verifier::spinoff_prover]
#[verifier::rlimit(30)]
proof fn lemma_read_mapping(m: Mapping, s: JsonState, start: int, stk: Seq<StackModel>)
    requires
        json_events(value_events(Value::Mapping(m))),
        0 <= start,
        start + json_text(Value::Mapping(m)).len() <= s.data.len(),
        s.data.subrange(start, start + json_text(Value::Mapping(m)).len()) == json_text(Value::Mapping(m)),
        ends_value(s.data, start + json_text(Value::Mapping(m)).len()),
        spec_json_next(s) == spec_value(input_of(s), peek_of(s.data[start]), start, stk),
    ensures
        reads_back(s.data, read_steps(s, value_events(Value::Mapping(m)).len()).0, value_events(Value::Mapping(m))),
        read_steps(s, value_events(Value::Mapping(m)).len()).1
            == (JsonState { pos: start + json_text(Value::Mapping(m)).len(), stack: stk, pending: None, ..s }),
    decreases m,
{
    let v = Value::Mapping(m);
    let data = s.data;
    let end = start + json_text(v).len();
    let entries = m.entries@;
    let head = EventModel::MapStart(Some(entries.len() as usize));
    let tail = EventModel::MapEnd;
    assert(value_events(v) == seq![head] + entries_events(entries) + seq![tail]);
    assert(json_text(v) == seq![123u8] + entries_text(entries) + seq![125u8]);
    lemma_json_events_split(seq![head] + entries_events(entries), seq![tail]);
    lemma_json_events_split(seq![head], entries_events(entries));
    lemma_holds_at(data, start, json_text(v), 0);
    lemma_holds_at(data, start, json_text(v), json_text(v).len() - 1);
    let fin = JsonState { pos: end, stack: stk, pending: None, ..s };
    if entries.len() == 0 {
        assert(entries_events(entries) =~= Seq::<EventModel>::empty());
        lemma_holds_at(data, start, json_text(v), 1);
        lemma_value_object(s, start, stk, None);
        let s1 = JsonState { pos: start + 2, stack: stk.push(StackModel::ObjectEnd), pending: None, ..s };
        lemma_empty_close(s1, stk, StackModel::ObjectEnd, EventModel::MapEnd);
        assert(read_steps(s1, 0) == (Seq::<JsonOutcome>::empty(), s1));
        lemma_read_container(s, s1, s1, 0, head, Seq::empty(), tail, fin);
    } else {
        let n = entries_events(entries).len();
        let k = entries[0].0@;
        lemma_entries_key_first(entries);
        lemma_holds_sub(data, start, json_text(v), start + 1, start + 1 + entries_text(entries).len());
        assert(json_text(v).subrange(1, 1 + entries_text(entries).len() as int) =~= entries_text(entries));
        lemma_holds_sub(data, start + 1, entries_text(entries), start + 1, start + 1 + quoted(k).len() + 1);
        assert(entries_text(entries).subrange(0, quoted(k).len() as int + 1) =~= quoted(k) + seq![58u8]);
        lemma_value_object(s, start, stk, Some(k));
        let s1 = JsonState {
            pos: start + 1 + quoted(k).len() + 1,
            stack: stk.push(StackModel::ObjectKey(Some(k))),
            pending: None,
            ..s
        };
        lemma_read_entries(entries, s1, start + 1, stk);
        let s2 = JsonState { pos: start + 1 + entries_text(entries).len(), stack: stk.push(StackModel::ObjectKey(None)), pending: None, ..s };
        lemma_object_close(s2, stk);
        lemma_read_container(s, s1, s2, n, head, entries_events(entries), tail, fin);
    }
}

proof fn lemma_entries_key_first(s: Seq<(CowStr, Value)>)
    requires
        s.len() > 0,
    ensures
        entries_text(s).len() >= quoted(s[0].0@).len() + 1,
        entries_text(s).subrange(0, quoted(s[0].0@).len() as int + 1) == quoted(s[0].0@) + seq![58u8],
    decreases s.len(),
{
    let q = quoted(s[0].0@) + seq![58u8];
    if s.len() == 1 {
        assert(entries_text(s).subrange(0, q.len() as int) =~= q);
    } else {
        let d = s.drop_last();
        lemma_entries_key_first(d);
        assert(d[0] == s[0]);
        let t = entries_text(s);
        assert(t.subrange(0, q.len() as int) =~= entries_text(d).subrange(0, q.len() as int));
    }
}

/// Where the text of array items stands, the places of the last item's
/// comma and text.
proof fn lemma_items_parts(s: Seq<Value>, data: Seq<u8>, start: int)
    requires
        s.len() >= 2,
        json_events(items_events(s)),
        0 <= start,
        start + items_text(s).len() <= data.len(),
        data.subrange(start, start + items_text(s).len()) == items_text(s),
    ensures
        ({
            let td = items_text(s.drop_last());
            let tl = json_text(s.last());
            &&& items_text(s) == td + seq![44u8] + tl
            &&& tl.len() >= 1
            &&& data.subrange(start, start + td.len()) == td
            &&& data[start + td.len()] == 44
            &&& data.subrange(start + td.len() + 1, start + items_text(s).len()) == tl
            &&& starts_value(data[start + td.len() + 1])
        }),
{
    let t = items_text(s);
    let d = s.drop_last();
    let td = items_text(d);
    let tl = json_text(s.last());
    assert(t == td + seq![44u8] + tl);
    assert(items_events(s) == items_events(d) + value_events(s.last()));
    lemma_json_events_split(items_events(d), value_events(s.last()));
    lemma_text_start(s.last());
    lemma_holds_sub(data, start, t, start, start + td.len());
    assert(t.subrange(0, td.len() as int) =~= td);
    lemma_holds_at(data, start, t, td.len() as int);
    lemma_holds_sub(data, start, t, start + td.len() + 1, start + t.len());
    assert(t.subrange(td.len() as int + 1, t.len() as int) =~= tl);
    lemma_holds_at(data, start, t, td.len() as int + 1);
}

/// Reading the items of an array, from the step on its first item, gives
/// back their events and stops just after the last one.
#[verifier::spinoff_prover]
#[verifier::rlimit(30)]
proof fn lemma_read_items(s: Seq<Value>, st: JsonState, start: int, stk: Seq<StackModel>)
    requires
        s.len() > 0,
        json_events(items_events(s)),
        0 <= start,
        start + items_text(s).len() <= st.data.len(),
        st.data.subrange(start, start + items_text(s).len()) == items_text(s),
        ends_value(st.data, start + items_text(s).len()),
        st.pending is None,
        st.pos == start,
        st.stack == stk.push(StackModel::Array(Some(peek_of(st.data[start])))),
    ensures
        reads_back(st.data, read_steps(st, items_events(s).len()).0, items_events(s)),
        read_steps(st, items_events(s).len()).1 == (JsonState {
            pos: start + items_text(s).len(),
            stack: stk.push(StackModel::Array(None)),
            pending: None,
            ..st
        }),
    decreases s,
{
    let data = st.data;
    let d = s.drop_last();
    let last = s.last();
    assert(items_events(s) == items_events(d) + value_events(last));
    lemma_json_events_split(items_events(d), value_events(last));
    let inner = stk.push(StackModel::Array(None));
    if s.len() == 1 {
        assert(items_events(d) =~= Seq::<EventModel>::empty());
        assert(items_events(s) =~= value_events(last));
        assert(s[0] == last);
        lemma_array_peeked(st, stk, peek_of(data[start]));
        lemma_read_value(last, st, start, inner);
    } else {
        let td = items_text(d);
        lemma_items_parts(s, data, start);
        lemma_items_start(d);
        assert(d[0] == s[0]);
        lemma_items_start(s);
        lemma_read_items(d, st, start, stk);
        let y = JsonState { pos: start + td.len(), stack: inner, pending: None, ..st };
        lemma_array_next(y, stk);
        lemma_read_value(last, y, start + td.len() + 1, inner);
        lemma_read_then(st, items_events(d).len(), value_events(last).len(), items_events(d), value_events(last));
    }
}

/// Two runs of steps, one after the other.
proof fn lemma_read_then(s: JsonState, a: nat, b: nat, ea: Seq<EventModel>, eb: Seq<EventModel>)
    requires
        reads_back(s.data, read_steps(s, a).0, ea),
        reads_back(s.data, read_steps(read_steps(s, a).1, b).0, eb),
    ensures
        reads_back(s.data, read_steps(s, a + b).0, ea + eb),
        read_steps(s, a + b).1 == read_steps(read_steps(s, a).1, b).1,
{
    lemma_read_steps_concat(s, a, b);
    lemma_reads_back_concat(s.data, read_steps(s, a).0, read_steps(read_steps(s, a).1, b).0, ea, eb);
}

/// Reading one map entry: the step that gives its key, then the steps of
/// its value.
proof fn lemma_read_entry(st: JsonState, z: JsonState, nv: nat, k: Seq<char>, evs: Seq<EventModel>)
    requires
        spec_json_next(st) == (JsonOutcome::Event(EventModel::Str(k)), z),
        reads_back(st.data, read_steps(z, nv).0, evs),
    ensures
        reads_back(st.data, read_steps(st, 1 + nv).0, seq![EventModel::Str(k)] + evs),
        read_steps(st, 1 + nv).1 == read_steps(z, nv).1,
{
    lemma_read_one(st);
    assert(reads_back(st.data, read_steps(st, 1).0, seq![EventModel::Str(k)]));
    lemma_read_then(st, 1, nv, seq![EventModel::Str(k)], evs);
}

/// Where the text of map entries stands, the places of the last entry's
/// comma, key, colon and value.
proof fn lemma_entries_parts(s: Seq<(CowStr, Value)>, data: Seq<u8>, start: int)
    requires
        s.len() >= 2,
        0 <= start,
        start + entries_text(s).len() <= data.len(),
        data.subrange(start, start + entries_text(s).len()) == entries_text(s),
    ensures
        ({
            let td = entries_text(s.drop_last());
            let q = quoted(s.last().0@);
            let tv = json_text(s.last().1);
            let ks = start + td.len() + 1;
            let vs = ks + q.len() + 1;
            &&& entries_text(s) == td + seq![44u8] + q + seq![58u8] + tv
            &&& data.subrange(start, start + td.len()) == td
            &&& data[start + td.len()] == 44
            &&& data.subrange(ks, ks + q.len() + 1) == q + seq![58u8]
            &&& data.subrange(vs, start + entries_text(s).len()) == tv
        }),
{
    let t = entries_text(s);
    let td = entries_text(s.drop_last());
    let q = quoted(s.last().0@);
    let tv = json_text(s.last().1);
    assert(t == td + seq![44u8] + q + seq![58u8] + tv);
    lemma_holds_sub(data, start, t, start, start + td.len());
    assert(t.subrange(0, td.len() as int) =~= td);
    lemma_holds_at(data, start, t, td.len() as int);
    let ks = start + td.len() + 1;
    lemma_holds_sub(data, start, t, ks, ks + q.len() + 1);
    assert(t.subrange(ks - start, ks - start + q.len() + 1) =~= q + seq![58u8]);
    let vs = ks + q.len() + 1;
    lemma_holds_sub(data, start, t, vs, start + t.len());
    assert(t.subrange(vs - start, t.len() as int) =~= tv);
}

/// Reading the entries of a map, from the step after its first key, gives
/// back their events and stops just after the last value.
#[verifier::spinoff_prover]
#[verifier::rlimit(30)]
proof fn lemma_read_entries(s: Seq<(CowStr, Value)>, st: JsonState, start: int, stk: Seq<StackModel>)
    requires
        s.len() > 0,
        json_events(entries_events(s)),
        0 <= start,
        start + entries_text(s).len() <= st.data.len(),
        st.data.subrange(start, start + entries_text(s).len()) == entries_text(s),
        ends_value(st.data, start + entries_text(s).len()),
        st.pending is None,
        st.pos == start + quoted(s[0].0@).len() + 1,
        st.stack == stk.push(StackModel::ObjectKey(Some(s[0].0@))),
    ensures
        reads_back(st.data, read_steps(st, entries_events(s).len()).0, entries_events(s)),
        read_steps(st, entries_events(s).len()).1 == (JsonState {
            pos: start + entries_text(s).len(),
            stack: stk.push(StackModel::ObjectKey(None)),
            pending: None,
            ..st
        }),
    decreases s,
{
    let data = st.data;
    let d = s.drop_last();
    let last = s.last();
    let k = last.0@;
    let key = seq![EventModel::Str(k)];
    assert(entries_events(s) == entries_events(d) + key + value_events(last.1));
    lemma_json_events_split(entries_events(d) + key, value_events(last.1));
    lemma_json_events_split(entries_events(d), key);
    let inner = stk.push(StackModel::ObjectKey(None));
    let tv = json_text(last.1);
    let t = entries_text(s);
    let nv = value_events(last.1).len();
    lemma_text_start(last.1);
    if s.len() == 1 {
        assert(s[0] == last);
        assert(entries_events(d) =~= Seq::<EventModel>::empty());
        assert(entries_events(s) =~= key + value_events(last.1));
        assert(t == quoted(k) + seq![58u8] + tv);
        let vs = st.pos;
        lemma_holds_sub(data, start, t, vs, start + t.len());
        assert(t.subrange(vs - start, t.len() as int) =~= tv);
        lemma_holds_at(data, start, t, vs - start);
        lemma_object_key_given(st, stk, k);
        let z = JsonState { stack: stk.push(StackModel::ObjectValue), ..st };
        lemma_object_value(z, stk);
        lemma_read_value(last.1, z, vs, inner);
        lemma_read_entry(st, z, nv, k, value_events(last.1));
    } else {
        let td = entries_text(d);
        let q = quoted(k);
        lemma_entries_parts(s, data, start);
        let vs = start + td.len() + 1 + q.len() + 1;
        lemma_holds_at(data, vs, tv, 0);
        assert(d[0] == s[0]);
        lemma_read_entries(d, st, start, stk);
        let nd = entries_events(d).len();
        let y = JsonState { pos: start + td.len(), stack: inner, pending: None, ..st };
        lemma_object_next_key(y, stk, k);
        let z = JsonState { pos: vs, stack: stk.push(StackModel::ObjectValue), ..y };
        lemma_object_value(z, stk);
        lemma_read_value(last.1, z, vs, inner);
        lemma_read_entry(y, z, nv, k, value_events(last.1));
        lemma_read_then(st, nd, 1 + nv, entries_events(d), key + value_events(last.1));
        assert(entries_events(d) + (key + value_events(last.1)) =~= entries_events(s));
    }
}

/// What the serializer writes for a value reads back as that value: from an
/// empty serializer, writing the events of a value leaves nothing open, and
/// reading the text from its start takes one step per event, each step giving
/// back its event (array and map starts without their size hints; integers as
/// numbers whose text is their decimal text), and ends at the end of the text
/// with nothing left open. Values that hold floats or bytes are left out:
/// the text of a float comes to `write_float_text` from outside, and JSON has
/// no bytes, which the serializer skips.
pub proof fn law_written_value_reads_back(v: Value, allow_inf_nan: bool)
    requires
        json_events(value_events(v)),
    ensures
        ({
            let (text, stack) = write_all(Seq::empty(), value_events(v));
            let start = JsonState { data: text, pos: 0, allow_inf_nan, stack: Seq::empty(), pending: None };
            let (outs, fin) = read_steps(start, value_events(v).len());
            &&& stack.len() == 0
            &&& reads_back(text, outs, value_events(v))
            &&& fin == (JsonState { pos: text.len() as int, ..start })
        }),
{
    lemma_write_value(v, Seq::empty());
    let text = json_text(v);
    assert(Seq::<u8>::empty() + text =~= text);
    let s = JsonState { data: text, pos: 0, allow_inf_nan, stack: Seq::empty(), pending: None };
    lemma_text_start(v);
    assert(ws_end(text, 0) == 0);
    assert(spec_peeked_value(input_of(s), 0, Seq::empty()) == spec_value(input_of(s), peek_of(text[0]), 0, Seq::empty()));
    assert(text.subrange(0, text.len() as int) =~= text);
    lemma_read_value(v, s, 0, Seq::empty());
}

proof fn lemma_acc_digits_concat(acc: nat, a: Seq<u8>, b: Seq<u8>)
    ensures
        acc_digits(acc, a + b) == acc_digits(acc_digits(acc, a), b),
    decreases b.len(),
{
    if b.len() == 0 {
        assert(a + b =~= a);
    } else {
        lemma_acc_digits_concat(acc, a, b.drop_last());
        assert((a + b).drop_last() =~= a + b.drop_last());
        assert((a + b).last() == b.last());
    }
}

/// The digits of a number read back as the number.
proof fn lemma_decimal_digits_value(m: nat)
    ensures
        acc_digits(0, decimal_digits(m)) == m,
    decreases m,
{
    let d = decimal_digits(m);
    assert(acc_digits(0, Seq::<u8>::empty()) == 0);
    if m < 10 {
        assert(d.drop_last() =~= Seq::<u8>::empty());
        assert(d.last() == (48 + m) as u8);
    } else {
        lemma_decimal_digits_value(m / 10);
        assert(d.drop_last() =~= decimal_digits(m / 10));
        assert(d.last() == (48 + m % 10) as u8);
        assert((m / 10) * 10 + m % 10 == m);
    }
}

/// The digits after the first one, read after the first one's value, give
/// the whole number.
proof fn lemma_digits_after_first(m: nat)
    requires
        m >= 1,
    ensures
        acc_digits((decimal_digits(m)[0] - 48) as nat, decimal_digits(m).drop_first()) == m,
{
    let d = decimal_digits(m);
    lemma_pow10_above(m);
    lemma_decimal_digits(m, (m + 1) as nat);
    lemma_decimal_digits_value(m);
    assert(d =~= seq![d[0]] + d.drop_first());
    lemma_acc_digits_concat(0, seq![d[0]], d.drop_first());
    assert(seq![d[0]].drop_last() =~= Seq::<u8>::empty());
    assert(seq![d[0]].last() == d[0]);
    assert(acc_digits(0, Seq::<u8>::empty()) == 0);
    assert(acc_digits(0, seq![d[0]]) == (d[0] - 48) as nat);
}

proof fn lemma_pow10_above(m: nat)
    ensures
        m < pow10((m + 1) as nat),
    decreases m,
{
    if m > 0 {
        lemma_pow10_above((m - 1) as nat);
        assert(pow10((m + 1) as nat) == 10 * pow10(m));
    } else {
        assert(pow10(1) == 10 * pow10(0));
    }
}

proof fn lemma_read_integer(n: int, before: Seq<u8>, after: Seq<u8>)
    requires
        i64::MIN <= n <= i64::MAX,
        after.len() > 0 ==> !is_digit(after[0]) && !is_float_marker(after[0]),
    ensures
        ({
            let data = before + decimal_text(n) + after;
            let at = before.len() as int;
            spec_number_int(data, at, peek_byte(peek_of(data[at])))
                == Ok::<(NumberInt, int), JsonError>((NumberInt::Int(n as i64), at + decimal_text(n).len()))
        }),
{
    let t = decimal_text(n);
    let m: nat = if n < 0 { (-n) as nat } else { n as nat };
    let off: int = if n < 0 { 1 } else { 0 };
    assert(pow10(19) == 10_000_000_000_000_000_000) by {
        reveal_with_fuel(pow10, 20);
    }
    lemma_decimal_digits(m, 19);
    lemma_decimal_text(n);
    let data = before + t + after;
    let at = before.len() as int;
    let end = at + t.len();
    assert forall|i: int| 0 <= i < t.len() implies data[at + i] == #[trigger] t[i] by {}
    let j = at + off;
    assert(end < data.len() ==> data[end] == after[0]);
    if n != 0 {
        let digits = decimal_digits(m);
        assert(t == if n < 0 { seq![45u8] + digits } else { digits });
        assert forall|i: int| j + 1 <= i < end implies is_digit(#[trigger] data[i]) by {
            assert(data[i] == t[i - at]);
        }
        lemma_digits_end_skip(data, j + 1, end);
        assert(digits_end(data, end) == end);
        lemma_digits_after_first(m);
        assert(data.subrange(j + 1, end) =~= digits.drop_first());
        assert(data[j] == digits[0]);
    }
}

/// An integer that the serializer writes, any `i64`, reads back as the same
/// integer through the JSON iterator's integer reading, which stops just
/// after it, whatever comes before it and whatever follows that does not
/// continue a number.
pub proof fn law_written_integer_reads_back(n: int, before: Seq<u8>, after: Seq<u8>)
    requires
        i64::MIN <= n <= i64::MAX,
        after.len() > 0 ==> !is_digit(after[0]) && !is_float_marker(after[0]),
    ensures
        ({
            let data = before + decimal_text(n) + after;
            let at = before.len() as int;
            spec_number_int(data, at, peek_byte(peek_of(data[at])))
                == Ok::<(NumberInt, int), JsonError>((NumberInt::Int(n as i64), at + decimal_text(n).len()))
        }),
        spec_number_int_exact(decimal_text(n)) == Ok::<NumberInt, JsonError>(NumberInt::Int(n as i64)),
{
    lemma_read_integer(n, before, after);
    let e = Seq::<u8>::empty();
    lemma_read_integer(n, e, e);
    lemma_decimal_text(n);
    assert(e + decimal_text(n) + e =~= decimal_text(n));
}

} // verus!
