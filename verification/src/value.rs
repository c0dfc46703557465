//! Values: a tree of numbers, strings, bytes, arrays and maps with string keys.

use vstd::prelude::*;
use vstd::std_specs::cmp::PartialEqSpecImpl;
use vstd::std_specs::convert::FromSpecImpl;
use crate::cowbytes::CowBytes;
use crate::cowstr::CowStr;
use crate::builder::{complete, continue_with, feed_all, frames_wf, spec_feed, waits_for_value, FeedOutcome, FrameModel};
use crate::error::{MerdeError, ValueType};
use crate::event::{ArrayStart, Event, EventModel, MapStart};

verus! {

/// A value of any of the kinds a document can hold. Strings and bytes may be
/// borrowed from the input they were read from.
///
/// A float is carried by its IEEE-754 binary64 bit pattern; two floats are the
/// same value when they compare equal or are both NaN.
#[derive(Debug)]
pub enum Value<'s> {
    I64(i64),
    U64(u64),
    Float(u64),
    Str(CowStr<'s>),
    Bytes(CowBytes<'s>),
    Null,
    Bool(bool),
    Array(Array<'s>),
    Mapping(Mapping<'s>),
}

/// An array of values.
#[derive(Debug)]
pub struct Array<'s>(pub Vec<Value<'s>>);

/// A map from string keys to values. No key occurs twice; the entries are
/// kept in the order in which their keys were first inserted.
#[derive(Debug)]
pub struct Mapping<'s> {
    pub(crate) entries: Vec<(CowStr<'s>, Value<'s>)>,
}

/// What a value is, with its strings as text and its maps as maps.
pub ghost enum ValueModel {
    I64(i64),
    U64(u64),
    Float(u64),
    Str(Seq<char>),
    Bytes(Seq<u8>),
    Null,
    Bool(bool),
    Array(Seq<ValueModel>),
    Mapping(Map<Seq<char>, ValueModel>),
}

/// Whether the bit pattern is a NaN.
pub open spec fn is_nan_bits(bits: u64) -> bool {
    (bits & 0x7FF0_0000_0000_0000u64) == 0x7FF0_0000_0000_0000u64
        && (bits & 0x000F_FFFF_FFFF_FFFFu64) != 0
}

/// One bit pattern for each float value: all NaNs are one value, and so are
/// the two zeros.
pub open spec fn canonical_float(bits: u64) -> u64 {
    if is_nan_bits(bits) {
        0x7FF8_0000_0000_0000u64
    } else if (bits & 0x7FFF_FFFF_FFFF_FFFFu64) == 0 {
        0
    } else {
        bits
    }
}

/// The model of a value.
pub closed spec fn model_of(v: Value) -> ValueModel
    decreases v,
{
    match v {
        Value::I64(i) => ValueModel::I64(i),
        Value::U64(u) => ValueModel::U64(u),
        Value::Float(f) => ValueModel::Float(canonical_float(f)),
        Value::Str(s) => ValueModel::Str(s@),
        Value::Bytes(b) => ValueModel::Bytes(b@),
        Value::Null => ValueModel::Null,
        Value::Bool(b) => ValueModel::Bool(b),
        Value::Array(a) => ValueModel::Array(items_model(a.0@)),
        Value::Mapping(m) => ValueModel::Mapping(entries_model(m.entries@)),
    }
}

/// The models of a sequence of values.
pub closed spec fn items_model(s: Seq<Value>) -> Seq<ValueModel>
    decreases s,
{
    if s.len() == 0 {
        Seq::empty()
    } else {
        items_model(s.drop_last()).push(model_of(s.last()))
    }
}

/// The map that a sequence of entries makes, later entries taking precedence.
pub closed spec fn entries_model(s: Seq<(CowStr, Value)>) -> Map<Seq<char>, ValueModel>
    decreases s,
{
    if s.len() == 0 {
        Map::empty()
    } else {
        entries_model(s.drop_last()).insert(s.last().0@, model_of(s.last().1))
    }
}

impl<'s> View for Value<'s> {
    type V = ValueModel;

    open spec fn view(&self) -> ValueModel {
        model_of(*self)
    }
}

impl<'s> View for Array<'s> {
    type V = Seq<ValueModel>;

    open spec fn view(&self) -> Seq<ValueModel> {
        items_model(self.0@)
    }
}

impl<'s> View for Mapping<'s> {
    type V = Map<Seq<char>, ValueModel>;

    closed spec fn view(&self) -> Map<Seq<char>, ValueModel> {
        entries_model(self.entries@)
    }
}

/// One level of a value's model.
pub proof fn lemma_value_model(v: &Value)
    ensures
        v@ == match *v {
            Value::I64(i) => ValueModel::I64(i),
            Value::U64(u) => ValueModel::U64(u),
            Value::Float(f) => ValueModel::Float(canonical_float(f)),
            Value::Str(s) => ValueModel::Str(s@),
            Value::Bytes(b) => ValueModel::Bytes(b@),
            Value::Null => ValueModel::Null,
            Value::Bool(b) => ValueModel::Bool(b),
            Value::Array(a) => ValueModel::Array(a@),
            Value::Mapping(m) => ValueModel::Mapping(m@),
        },
{
}

proof fn lemma_items_model(s: Seq<Value>)
    ensures
        items_model(s).len() == s.len(),
        forall|i: int| 0 <= i < s.len() ==> #[trigger] items_model(s)[i] == model_of(s[i]),
    decreases s.len(),
{
    if s.len() > 0 {
        lemma_items_model(s.drop_last());
        assert forall|i: int| 0 <= i < s.len() implies #[trigger] items_model(s)[i] == model_of(s[i]) by {
            if i < s.len() - 1 {
                assert(s.drop_last()[i] == s[i]);
            }
        }
    }
}

/// No key occurs twice among the entries.
pub open spec fn keys_unique(s: Seq<(CowStr, Value)>) -> bool {
    forall|i: int, j: int| 0 <= i < j < s.len() ==> (#[trigger] s[i]).0@ != (#[trigger] s[j]).0@
}

/// Whether `k` is the key of one of the entries.
pub open spec fn has_key(s: Seq<(CowStr, Value)>, k: Seq<char>) -> bool {
    exists|i: int| 0 <= i < s.len() && (#[trigger] s[i]).0@ == k
}

proof fn lemma_entries_contains(s: Seq<(CowStr, Value)>, k: Seq<char>)
    ensures
        entries_model(s).contains_key(k) <==> has_key(s, k),
        entries_model(s).dom().finite(),
    decreases s.len(),
{
    if s.len() > 0 {
        lemma_entries_contains(s.drop_last(), k);
        if has_key(s, k) && s.last().0@ != k {
            let i = choose|i: int| 0 <= i < s.len() && (#[trigger] s[i]).0@ == k;
            assert(s.drop_last()[i] == s[i]);
        }
        if has_key(s.drop_last(), k) {
            let i = choose|i: int| 0 <= i < s.len() - 1 && (#[trigger] s.drop_last()[i]).0@ == k;
            assert(s[i] == s.drop_last()[i]);
        }
        assert(s[s.len() - 1] == s.last());
    }
}

proof fn lemma_entries_value(s: Seq<(CowStr, Value)>, i: int)
    requires
        keys_unique(s),
        0 <= i < s.len(),
    ensures
        entries_model(s).contains_key(s[i].0@),
        entries_model(s)[s[i].0@] == model_of(s[i].1),
    decreases s.len(),
{
    if i < s.len() - 1 {
        let d = s.drop_last();
        assert(d[i] == s[i]);
        assert(keys_unique(d)) by {
            assert forall|a: int, b: int| 0 <= a < b < d.len() implies (#[trigger] d[a]).0@ != (#[trigger] d[b]).0@ by {
                assert(d[a] == s[a] && d[b] == s[b]);
            }
        }
        lemma_entries_value(d, i);
        assert(s[s.len() - 1] == s.last());
    }
}

proof fn lemma_entries_len(s: Seq<(CowStr, Value)>)
    requires
        keys_unique(s),
    ensures
        entries_model(s).len() == s.len(),
        entries_model(s).dom().finite(),
    decreases s.len(),
{
    lemma_entries_contains(s, Seq::empty());
    if s.len() > 0 {
        let d = s.drop_last();
        assert(keys_unique(d)) by {
            assert forall|a: int, b: int| 0 <= a < b < d.len() implies (#[trigger] d[a]).0@ != (#[trigger] d[b]).0@ by {
                assert(d[a] == s[a] && d[b] == s[b]);
            }
        }
        lemma_entries_len(d);
        lemma_entries_contains(d, s.last().0@);
        if has_key(d, s.last().0@) {
            let i = choose|i: int| 0 <= i < d.len() && (#[trigger] d[i]).0@ == s.last().0@;
            assert(d[i] == s[i]);
            assert(s[s.len() - 1] == s.last());
        }
    }
}

proof fn lemma_entries_update(s: Seq<(CowStr, Value)>, i: int, e: (CowStr, Value))
    requires
        keys_unique(s),
        0 <= i < s.len(),
        e.0@ == s[i].0@,
    ensures
        entries_model(s.update(i, e)) =~= entries_model(s).insert(e.0@, model_of(e.1)),
    decreases s.len(),
{
    let t = s.update(i, e);
    let d = s.drop_last();
    if i == s.len() - 1 {
        assert(t.drop_last() =~= d);
    } else {
        assert(t.drop_last() =~= d.update(i, e));
        assert(keys_unique(d)) by {
            assert forall|a: int, b: int| 0 <= a < b < d.len() implies (#[trigger] d[a]).0@ != (#[trigger] d[b]).0@ by {
                assert(d[a] == s[a] && d[b] == s[b]);
            }
        }
        assert(d[i] == s[i]);
        lemma_entries_update(d, i, e);
        assert(s[s.len() - 1] == s.last());
        assert(t.last() == s.last());
    }
}

impl<'s> Mapping<'s> {
    #[verifier::type_invariant]
    closed spec fn inv(self) -> bool {
        keys_unique(self.entries@)
    }

    /// An empty map.
    pub fn new() -> (r: Self)
        ensures
            r@ == Map::<Seq<char>, ValueModel>::empty(),
    {
        let r = Mapping { entries: Vec::new() };
        proof {
            assert(entries_model(r.entries@) == Map::<Seq<char>, ValueModel>::empty());
        }
        r
    }

    /// An empty map, with room for `capacity` entries.
    pub fn with_capacity(capacity: usize) -> (r: Self)
        ensures
            r@ == Map::<Seq<char>, ValueModel>::empty(),
    {
        let r = Mapping { entries: Vec::with_capacity(capacity) };
        proof {
            assert(entries_model(r.entries@) == Map::<Seq<char>, ValueModel>::empty());
        }
        r
    }

    /// The number of entries.
    pub fn len(&self) -> (r: usize)
        ensures
            r == self@.len(),
    {
        proof {
            use_type_invariant(self);
            lemma_entries_len(self.entries@);
        }
        self.entries.len()
    }

    /// Whether the map has no entries.
    pub fn is_empty(&self) -> (r: bool)
        ensures
            r == (self@.len() == 0),
    {
        self.len() == 0
    }

    /// The position of the entry with key `key`, if there is one.
    fn position(&self, key: &str) -> (r: Option<usize>)
        ensures
            r matches Some(i) ==> i < self.entries@.len() && self.entries@[i as int].0@ == key@,
            r is None ==> !has_key(self.entries@, key@),
    {
        let mut i: usize = 0;
        while i < self.entries.len()
            invariant
                i <= self.entries@.len(),
                forall|j: int| 0 <= j < i ==> (#[trigger] self.entries@[j]).0@ != key@,
            decreases self.entries@.len() - i,
        {
            if crate::cowstr::str_eq(self.entries[i].0.as_str(), key) {
                return Some(i);
            }
            i = i + 1;
        }
        None
    }

    /// The value for `key`, if the map has one.
    pub fn get(&self, key: &str) -> (r: Option<&Value<'s>>)
        ensures
            r is Some <==> self@.contains_key(key@),
            r matches Some(v) ==> v@ == self@[key@],
    {
        proof {
            use_type_invariant(self);
            lemma_entries_contains(self.entries@, key@);
        }
        match self.position(key) {
            Some(i) => {
                proof {
                    lemma_entries_value(self.entries@, i as int);
                }
                Some(&self.entries[i].1)
            },
            None => None,
        }
    }

    /// Sets the value for `key`, and returns the value it replaces, if any.
    pub fn insert(&mut self, key: CowStr<'s>, value: Value<'s>) -> (r: Option<Value<'s>>)
        ensures
            final(self)@ == old(self)@.insert(key@, value@),
            r is Some <==> old(self)@.contains_key(key@),
            r matches Some(v) ==> v@ == old(self)@[key@],
    {
        proof {
            use_type_invariant(&*self);
            lemma_entries_contains(self.entries@, key@);
        }
        let ghost before = self.entries@;
        let found = self.position(key.as_str());
        let mut entries: Vec<(CowStr<'s>, Value<'s>)> = Vec::new();
        std::mem::swap(&mut entries, &mut self.entries);
        match found {
            Some(i) => {
                proof {
                    lemma_entries_value(before, i as int);
                    lemma_entries_update(before, i as int, (key, value));
                }
                let old_entry = entries.remove(i);
                entries.insert(i, (key, value));
                proof {
                    assert(entries@ =~= before.update(i as int, (key, value)));
                }
                self.entries = entries;
                Some(old_entry.1)
            },
            None => {
                entries.push((key, value));
                proof {
                    assert(entries@.drop_last() =~= before);
                    assert forall|a: int, b: int| 0 <= a < b < entries@.len() implies (#[trigger] entries@[a]).0@ != (#[trigger] entries@[b]).0@ by {
                        if b == entries@.len() - 1 {
                            assert(entries@[a] == before[a]);
                        } else {
                            assert(entries@[a] == before[a] && entries@[b] == before[b]);
                        }
                    }
                }
                self.entries = entries;
                None
            },
        }
    }

    /// The map with `value` set for `key`.
    pub fn with(self, key: CowStr<'s>, value: Value<'s>) -> (r: Self)
        ensures
            r@ == self@.insert(key@, value@),
    {
        let mut m = self;
        let _ = m.insert(key, value);
        m
    }
}

impl<'s> Array<'s> {
    /// An empty array.
    pub fn new() -> (r: Self)
        ensures
            r.0@.len() == 0,
            r@ == Seq::<ValueModel>::empty(),
    {
        Array(Vec::new())
    }

    /// An empty array, with room for `capacity` items.
    pub fn with_capacity(capacity: usize) -> (r: Self)
        ensures
            r.0@.len() == 0,
            r@ == Seq::<ValueModel>::empty(),
    {
        Array(Vec::with_capacity(capacity))
    }

    /// The items.
    pub fn into_inner(self) -> (r: Vec<Value<'s>>)
        ensures
            r@ == self.0@,
    {
        self.0
    }

    /// Appends an item.
    pub fn push(&mut self, value: Value<'s>)
        ensures
            final(self).0@ == old(self).0@.push(value),
            final(self)@ == old(self)@.push(value@),
    {
        self.0.push(value);
        proof {
            assert(self.0@.drop_last() =~= old(self).0@);
        }
    }

    /// The array with `value` appended.
    pub fn with(self, value: Value<'s>) -> (r: Self)
        ensures
            r.0@ == self.0@.push(value),
            r@ == self@.push(value@),
    {
        let mut a = self;
        a.push(value);
        a
    }

    /// The number of items.
    pub fn len(&self) -> (r: usize)
        ensures
            r == self.0@.len(),
            r == self@.len(),
    {
        proof {
            lemma_items_model(self.0@);
        }
        self.0.len()
    }
}

/// The kind of a value.
pub open spec fn value_type_of(v: &Value) -> ValueType {
    match v {
        Value::I64(_) => ValueType::I64,
        Value::U64(_) => ValueType::U64,
        Value::Float(_) => ValueType::Float,
        Value::Str(_) => ValueType::String,
        Value::Bytes(_) => ValueType::Bytes,
        Value::Null => ValueType::Null,
        Value::Bool(_) => ValueType::Bool,
        Value::Array(_) => ValueType::Array,
        Value::Mapping(_) => ValueType::Mapping,
    }
}

/// The error for a value of kind `found` where one of kind `expected` was wanted.
pub open spec fn is_mismatch(e: MerdeError, expected: ValueType, found: ValueType) -> bool {
    e matches MerdeError::MismatchedType { expected: x, found: f } && x == expected && f == found
}

impl<'s> Value<'s> {
    /// The kind of this value.
    pub fn value_type(&self) -> (r: ValueType)
        ensures
            r == value_type_of(self),
    {
        match self {
            Value::I64(_) => ValueType::I64,
            Value::U64(_) => ValueType::U64,
            Value::Float(_) => ValueType::Float,
            Value::Str(_) => ValueType::String,
            Value::Bytes(_) => ValueType::Bytes,
            Value::Null => ValueType::Null,
            Value::Bool(_) => ValueType::Bool,
            Value::Array(_) => ValueType::Array,
            Value::Mapping(_) => ValueType::Mapping,
        }
    }

    /// The map this value is, or a mismatch error.
    pub fn as_map(&self) -> (r: Result<&Mapping<'s>, MerdeError<'static>>)
        ensures
            self matches Value::Mapping(m) ==> (r matches Ok(x) && *x == m),
            !(self is Mapping) ==> (r matches Err(e) && is_mismatch(e, ValueType::Mapping, value_type_of(self))),
    {
        match self {
            Value::Mapping(m) => Ok(m),
            _ => Err(MerdeError::MismatchedType { expected: ValueType::Mapping, found: self.value_type() }),
        }
    }

    /// The map this value is, or a mismatch error.
    pub fn into_map(self) -> (r: Result<Mapping<'s>, MerdeError<'static>>)
        ensures
            self matches Value::Mapping(m) ==> (r matches Ok(x) && x == m),
            !(self is Mapping) ==> (r matches Err(e) && is_mismatch(e, ValueType::Mapping, value_type_of(&self))),
    {
        let t = self.value_type();
        match self {
            Value::Mapping(m) => Ok(m),
            _ => Err(MerdeError::MismatchedType { expected: ValueType::Mapping, found: t }),
        }
    }

    /// The array this value is, or a mismatch error.
    pub fn as_array(&self) -> (r: Result<&Array<'s>, MerdeError<'static>>)
        ensures
            self matches Value::Array(a) ==> (r matches Ok(x) && *x == a),
            !(self is Array) ==> (r matches Err(e) && is_mismatch(e, ValueType::Array, value_type_of(self))),
    {
        match self {
            Value::Array(a) => Ok(a),
            _ => Err(MerdeError::MismatchedType { expected: ValueType::Array, found: self.value_type() }),
        }
    }

    /// The array this value is, or a mismatch error.
    pub fn into_array(self) -> (r: Result<Array<'s>, MerdeError<'static>>)
        ensures
            self matches Value::Array(a) ==> (r matches Ok(x) && x == a),
            !(self is Array) ==> (r matches Err(e) && is_mismatch(e, ValueType::Array, value_type_of(&self))),
    {
        let t = self.value_type();
        match self {
            Value::Array(a) => Ok(a),
            _ => Err(MerdeError::MismatchedType { expected: ValueType::Array, found: t }),
        }
    }

    /// The string this value is, or a mismatch error.
    pub fn as_str(&self) -> (r: Result<&CowStr<'s>, MerdeError<'static>>)
        ensures
            self matches Value::Str(s) ==> (r matches Ok(x) && *x == s),
            !(self is Str) ==> (r matches Err(e) && is_mismatch(e, ValueType::String, value_type_of(self))),
    {
        match self {
            Value::Str(s) => Ok(s),
            _ => Err(MerdeError::MismatchedType { expected: ValueType::String, found: self.value_type() }),
        }
    }

    /// The string this value is, or a mismatch error.
    pub fn into_str(self) -> (r: Result<CowStr<'s>, MerdeError<'static>>)
        ensures
            self matches Value::Str(s) ==> (r matches Ok(x) && x == s),
            !(self is Str) ==> (r matches Err(e) && is_mismatch(e, ValueType::String, value_type_of(&self))),
    {
        let t = self.value_type();
        match self {
            Value::Str(s) => Ok(s),
            _ => Err(MerdeError::MismatchedType { expected: ValueType::String, found: t }),
        }
    }

    /// The bytes this value is, or a mismatch error.
    pub fn as_bytes(&self) -> (r: Result<&CowBytes<'s>, MerdeError<'static>>)
        ensures
            self matches Value::Bytes(b) ==> (r matches Ok(x) && *x == b),
            !(self is Bytes) ==> (r matches Err(e) && is_mismatch(e, ValueType::Bytes, value_type_of(self))),
    {
        match self {
            Value::Bytes(b) => Ok(b),
            _ => Err(MerdeError::MismatchedType { expected: ValueType::Bytes, found: self.value_type() }),
        }
    }

    /// The bytes this value is, or a mismatch error.
    pub fn into_bytes(self) -> (r: Result<CowBytes<'s>, MerdeError<'static>>)
        ensures
            self matches Value::Bytes(b) ==> (r matches Ok(x) && x == b),
            !(self is Bytes) ==> (r matches Err(e) && is_mismatch(e, ValueType::Bytes, value_type_of(&self))),
    {
        let t = self.value_type();
        match self {
            Value::Bytes(b) => Ok(b),
            _ => Err(MerdeError::MismatchedType { expected: ValueType::Bytes, found: t }),
        }
    }

    /// This value as an `i64`: an `I64`, or a `U64` that fits.
    pub fn as_i64(&self) -> (r: Result<i64, MerdeError<'static>>)
        ensures
            self matches Value::I64(n) ==> r == Ok::<i64, MerdeError<'static>>(*n),
            self matches Value::U64(n) ==> if n <= i64::MAX {
                r == Ok::<i64, MerdeError<'static>>(n as i64)
            } else {
                (r matches Err(e) && is_mismatch(e, ValueType::I64, ValueType::U64))
            },
            !(self is I64 || self is U64) ==> (r matches Err(e) && is_mismatch(e, ValueType::I64, value_type_of(self))),
    {
        match self {
            Value::I64(n) => Ok(*n),
            Value::U64(n) if *n <= 0x7FFF_FFFF_FFFF_FFFFu64 => Ok(*n as i64),
            _ => Err(MerdeError::MismatchedType { expected: ValueType::I64, found: self.value_type() }),
        }
    }

    /// This value as a `u64`: a `U64`, or an `I64` that is not negative
    /// (a negative one is out of range).
    pub fn as_u64(&self) -> (r: Result<u64, MerdeError<'static>>)
        ensures
            self matches Value::U64(n) ==> r == Ok::<u64, MerdeError<'static>>(*n),
            self matches Value::I64(n) ==> if n >= 0 {
                r == Ok::<u64, MerdeError<'static>>(n as u64)
            } else {
                r matches Err(MerdeError::OutOfRange)
            },
            !(self is I64 || self is U64) ==> (r matches Err(e) && is_mismatch(e, ValueType::U64, value_type_of(self))),
    {
        match self {
            Value::U64(n) => Ok(*n),
            Value::I64(n) => {
                if *n >= 0 {
                    Ok(*n as u64)
                } else {
                    Err(MerdeError::OutOfRange)
                }
            },
            _ => Err(MerdeError::MismatchedType { expected: ValueType::U64, found: self.value_type() }),
        }
    }

    /// This value as a float, by its bit pattern.
    pub fn as_f64(&self) -> (r: Result<u64, MerdeError<'static>>)
        ensures
            self matches Value::Float(f) ==> r == Ok::<u64, MerdeError<'static>>(*f),
            !(self is Float) ==> (r matches Err(e) && is_mismatch(e, ValueType::Float, value_type_of(self))),
    {
        match self {
            Value::Float(f) => Ok(*f),
            _ => Err(MerdeError::MismatchedType { expected: ValueType::Float, found: self.value_type() }),
        }
    }
}

/// The events that describe a value, in the order `Value::serialize` writes
/// them.
pub open(crate) spec fn value_events(v: Value) -> Seq<EventModel>
    decreases v,
{
    match v {
        Value::I64(i) => seq![EventModel::I64(i)],
        Value::U64(u) => seq![EventModel::U64(u)],
        Value::Float(f) => seq![EventModel::F64(f)],
        Value::Str(s) => seq![EventModel::Str(s@)],
        Value::Bytes(b) => seq![EventModel::Bytes(b@)],
        Value::Null => seq![EventModel::Null],
        Value::Bool(b) => seq![EventModel::Bool(b)],
        Value::Array(a) => seq![EventModel::ArrayStart(Some(a.0@.len() as usize))] + items_events(a.0@)
            + seq![EventModel::ArrayEnd],
        Value::Mapping(m) => seq![EventModel::MapStart(Some(m.entries@.len() as usize))]
            + entries_events(m.entries@) + seq![EventModel::MapEnd],
    }
}

/// The events of a sequence of values, one after the other.
pub open spec fn items_events(s: Seq<Value>) -> Seq<EventModel>
    decreases s,
{
    if s.len() == 0 {
        Seq::empty()
    } else {
        items_events(s.drop_last()) + value_events(s.last())
    }
}

/// The events of a sequence of entries: each key, then its value.
pub open spec fn entries_events(s: Seq<(CowStr, Value)>) -> Seq<EventModel>
    decreases s,
{
    if s.len() == 0 {
        Seq::empty()
    } else {
        entries_events(s.drop_last()) + seq![EventModel::Str(s.last().0@)] + value_events(s.last().1)
    }
}

/// Whether a builder in state `st` waits for the start of a value.
pub open spec fn ready_for_value(st: Seq<FrameModel>) -> bool {
    frames_wf(st) && (st.len() > 0 ==> waits_for_value(st.last()))
}

proof fn lemma_feed_first(st: Seq<FrameModel>, e: EventModel, rest: Seq<EventModel>)
    ensures
        feed_all(st, seq![e] + rest) == continue_with(spec_feed(st, e), rest),
{
    let evs = seq![e] + rest;
    assert(evs[0] == e);
    assert(evs.drop_first() =~= rest);
}

proof fn lemma_feed_value(v: Value, st: Seq<FrameModel>, rest: Seq<EventModel>)
    requires
        ready_for_value(st),
    ensures
        feed_all(st, value_events(v) + rest) == continue_with(complete(st, v@), rest),
    decreases v,
{
    lemma_value_model(&v);
    match v {
        Value::Array(a) => {
            let inner = st.push(FrameModel::Array(Seq::empty()));
            let x = items_events(a.0@) + (seq![EventModel::ArrayEnd] + rest);
            assert(value_events(v) + rest =~= seq![EventModel::ArrayStart(Some(a.0@.len() as usize))] + x);
            lemma_feed_first(st, EventModel::ArrayStart(Some(a.0@.len() as usize)), x);
            assert(ready_for_value(inner));
            lemma_feed_items(a.0@, st, Seq::empty(), seq![EventModel::ArrayEnd] + rest);
            assert(Seq::<ValueModel>::empty() + items_model(a.0@) =~= items_model(a.0@));
            let done = st.push(FrameModel::Array(items_model(a.0@)));
            lemma_feed_first(done, EventModel::ArrayEnd, rest);
            assert(done.drop_last() =~= st);
        },
        Value::Mapping(m) => {
            let x = entries_events(m.entries@) + (seq![EventModel::MapEnd] + rest);
            assert(value_events(v) + rest =~= seq![EventModel::MapStart(Some(m.entries@.len() as usize))] + x);
            lemma_feed_first(st, EventModel::MapStart(Some(m.entries@.len() as usize)), x);
            lemma_feed_entries(m.entries@, st, Map::empty(), seq![EventModel::MapEnd] + rest);
            assert(fold_entries(Map::empty(), m.entries@) == entries_model(m.entries@)) by {
                lemma_fold_entries(m.entries@);
            }
            let done = st.push(FrameModel::Mapping(entries_model(m.entries@), None));
            lemma_feed_first(done, EventModel::MapEnd, rest);
            assert(done.drop_last() =~= st);
        },
        _ => {
            lemma_feed_first(st, value_events(v)[0], rest);
            assert(value_events(v) =~= seq![value_events(v)[0]]);
        },
    }
}

/// The map `base` with the entries of `s` inserted in order.
pub open spec fn fold_entries(base: Map<Seq<char>, ValueModel>, s: Seq<(CowStr, Value)>) -> Map<Seq<char>, ValueModel>
    decreases s.len(),
{
    if s.len() == 0 {
        base
    } else {
        fold_entries(base, s.drop_last()).insert(s.last().0@, s.last().1@)
    }
}

proof fn lemma_fold_entries(s: Seq<(CowStr, Value)>)
    ensures
        fold_entries(Map::empty(), s) == entries_model(s),
    decreases s.len(),
{
    if s.len() > 0 {
        lemma_fold_entries(s.drop_last());
    }
}

proof fn lemma_feed_items(s: Seq<Value>, st: Seq<FrameModel>, done: Seq<ValueModel>, tail: Seq<EventModel>)
    requires
        ready_for_value(st),
    ensures
        feed_all(st.push(FrameModel::Array(done)), items_events(s) + tail)
            == feed_all(st.push(FrameModel::Array(done + items_model(s))), tail),
    decreases s,
{
    if s.len() == 0 {
        assert(items_events(s) + tail =~= tail);
        assert(done + items_model(s) =~= done);
    } else {
        let d = s.drop_last();
        let last = s.last();
        assert(items_events(s) + tail =~= items_events(d) + (value_events(last) + tail));
        lemma_feed_items(d, st, done, value_events(last) + tail);
        let mid = st.push(FrameModel::Array(done + items_model(d)));
        assert(ready_for_value(mid)) by {
            assert forall|i: int| 0 <= i < mid.len() - 1 implies waits_for_value(#[trigger] mid[i]) by {
                assert(mid[i] == st[i]);
            }
        }
        lemma_feed_value(last, mid, tail);
        assert(mid.drop_last() =~= st);
        assert((done + items_model(d)).push(model_of(last)) =~= done + items_model(s));
    }
}

proof fn lemma_feed_entries(s: Seq<(CowStr, Value)>, st: Seq<FrameModel>, base: Map<Seq<char>, ValueModel>, tail: Seq<EventModel>)
    requires
        ready_for_value(st),
    ensures
        feed_all(st.push(FrameModel::Mapping(base, None)), entries_events(s) + tail)
            == feed_all(st.push(FrameModel::Mapping(fold_entries(base, s), None)), tail),
    decreases s,
{
    if s.len() == 0 {
        assert(entries_events(s) + tail =~= tail);
    } else {
        let d = s.drop_last();
        let last = s.last();
        let key = EventModel::Str(last.0@);
        assert(entries_events(s) + tail =~= entries_events(d) + (seq![key] + (value_events(last.1) + tail)));
        lemma_feed_entries(d, st, base, seq![key] + (value_events(last.1) + tail));
        let mid = st.push(FrameModel::Mapping(fold_entries(base, d), None));
        lemma_feed_first(mid, key, value_events(last.1) + tail);
        assert(mid.drop_last() =~= st);
        let keyed = st.push(FrameModel::Mapping(fold_entries(base, d), Some(last.0@)));
        assert(ready_for_value(keyed)) by {
            assert forall|i: int| 0 <= i < keyed.len() - 1 implies waits_for_value(#[trigger] keyed[i]) by {
                assert(keyed[i] == st[i]);
            }
        }
        lemma_feed_value(last.1, keyed, tail);
        assert(keyed.drop_last() =~= st);
    }
}

/// Feeding a builder the events that `Value::serialize` writes for a value
/// gives back that value, after the last event and not before.
pub proof fn law_events_rebuild_value(v: Value)
    ensures
        feed_all(Seq::empty(), value_events(v)) == FeedOutcome::Done(v@),
{
    lemma_feed_value(v, Seq::empty(), Seq::empty());
    assert(value_events(v) + Seq::<EventModel>::empty() =~= value_events(v));
}

impl<'s> Value<'s> {
    /// A copy of this value.
    pub fn duplicate(&self) -> (r: Value<'s>)
        ensures
            r@ == self@,
        decreases self,
    {
        proof {
            lemma_value_model(self);
        }
        let r = match self {
            Value::I64(i) => Value::I64(*i),
            Value::U64(u) => Value::U64(*u),
            Value::Float(f) => Value::Float(*f),
            Value::Str(s) => Value::Str(s.duplicate()),
            Value::Bytes(b) => Value::Bytes(b.duplicate()),
            Value::Null => Value::Null,
            Value::Bool(b) => Value::Bool(*b),
            Value::Array(a) => Value::Array(a.duplicate()),
            Value::Mapping(m) => Value::Mapping(m.duplicate()),
        };
        proof {
            lemma_value_model(&r);
        }
        r
    }

    /// This value, with every string and byte buffer owned.
    pub fn into_static(self) -> (r: Value<'static>)
        ensures
            r@ == self@,
        decreases self,
    {
        proof {
            lemma_value_model(&self);
        }
        let r = match self {
            Value::I64(i) => Value::I64(i),
            Value::U64(u) => Value::U64(u),
            Value::Float(f) => Value::Float(f),
            Value::Str(s) => Value::Str(s.into_static()),
            Value::Bytes(b) => Value::Bytes(b.into_static()),
            Value::Null => Value::Null,
            Value::Bool(b) => Value::Bool(b),
            Value::Array(a) => Value::Array(a.into_static()),
            Value::Mapping(m) => Value::Mapping(m.into_static()),
        };
        proof {
            lemma_value_model(&r);
        }
        r
    }
}

impl<'s> Array<'s> {
    /// A copy of this array.
    pub fn duplicate(&self) -> (r: Array<'s>)
        ensures
            r@ == self@,
        decreases self,
    {
        let mut out: Vec<Value<'s>> = Vec::new();
        let mut i: usize = 0;
        proof {
            lemma_items_model(self.0@);
        }
        while i < self.0.len()
            invariant
                i <= self.0@.len(),
                out@.len() == i,
                forall|j: int| 0 <= j < i ==> model_of(#[trigger] out@[j]) == model_of(self.0@[j]),
            decreases self.0@.len() - i,
        {
            proof {
                assert(decreases_to!(self => self.0@[i as int]));
            }
            let v = self.0[i].duplicate();
            out.push(v);
            i = i + 1;
        }
        let r = Array(out);
        proof {
            lemma_items_model(r.0@);
            lemma_items_model(self.0@);
            assert(r@ =~= self@);
        }
        r
    }

    /// This array, with every string and byte buffer owned.
    pub fn into_static(self) -> (r: Array<'static>)
        ensures
            r@ == self@,
        decreases self,
    {
        let ghost items = self.0@;
        let mut out: Vec<Value<'static>> = Vec::new();
        proof {
            lemma_items_model(items);
        }
        for v in it: self.0.into_iter()
            invariant
                it.seq() == items,
                out@.len() == it.index(),
                forall|j: int| 0 <= j < it.index() ==> model_of(#[trigger] out@[j]) == model_of(items[j]),
        {
            proof {
                assert(v == items[it.index() as int]);
                assert(decreases_to!(self => items[it.index() as int]));
            }
            out.push(v.into_static());
        }
        let r = Array(out);
        proof {
            lemma_items_model(r.0@);
            assert(r@ =~= items_model(items));
        }
        r
    }
}

impl<'s> Mapping<'s> {
    /// A copy of this map.
    pub fn duplicate(&self) -> (r: Mapping<'s>)
        ensures
            r@ == self@,
        decreases self,
    {
        proof {
            use_type_invariant(self);
        }
        let mut out: Vec<(CowStr<'s>, Value<'s>)> = Vec::new();
        let mut i: usize = 0;
        while i < self.entries.len()
            invariant
                i <= self.entries@.len(),
                out@.len() == i,
                forall|j: int| 0 <= j < i ==> (#[trigger] out@[j]).0@ == self.entries@[j].0@
                    && model_of(out@[j].1) == model_of(self.entries@[j].1),
            decreases self.entries@.len() - i,
        {
            proof {
                assert(decreases_to!(self => self.entries@[i as int].1));
            }
            let k = self.entries[i].0.duplicate();
            let v = self.entries[i].1.duplicate();
            out.push((k, v));
            i = i + 1;
        }
        proof {
            lemma_entries_same(out@, self.entries@);
        }
        Mapping { entries: out }
    }

    /// This map, with every string and byte buffer owned.
    pub fn into_static(self) -> (r: Mapping<'static>)
        ensures
            r@ == self@,
        decreases self,
    {
        proof {
            use_type_invariant(&self);
        }
        let ghost items = self.entries@;
        let mut out: Vec<(CowStr<'static>, Value<'static>)> = Vec::new();
        for e in it: self.entries.into_iter()
            invariant
                it.seq() == items,
                out@.len() == it.index(),
                forall|j: int| 0 <= j < it.index() ==> (#[trigger] out@[j]).0@ == items[j].0@
                    && model_of(out@[j].1) == model_of(items[j].1),
        {
            proof {
                assert(e == items[it.index() as int]);
                assert(decreases_to!(self => items[it.index() as int].1));
            }
            let (k, v) = e;
            out.push((k.into_static(), v.into_static()));
        }
        proof {
            lemma_entries_same(out@, items);
        }
        Mapping { entries: out }
    }
}

/// Entries with the same keys and the same values make the same map.
proof fn lemma_entries_same<'a, 'b>(s: Seq<(CowStr<'a>, Value<'a>)>, t: Seq<(CowStr<'b>, Value<'b>)>)
    requires
        s.len() == t.len(),
        forall|j: int| 0 <= j < s.len() ==> (#[trigger] s[j]).0@ == t[j].0@ && model_of(s[j].1) == model_of(t[j].1),
    ensures
        entries_model(s) == entries_model(t),
        keys_unique(t) ==> keys_unique(s),
    decreases s.len(),
{
    if s.len() > 0 {
        lemma_entries_same(s.drop_last(), t.drop_last());
        assert(s.last() == s[s.len() - 1]);
        assert(t.last() == t[t.len() - 1]);
    }
    if keys_unique(t) {
        assert forall|a: int, b: int| 0 <= a < b < s.len() implies (#[trigger] s[a]).0@ != (#[trigger] s[b]).0@ by {
            assert(s[a].0@ == t[a].0@ && s[b].0@ == t[b].0@);
        }
    }
}

/// The canonical bit pattern of a float (see `canonical_float`).
fn canonical_bits(bits: u64) -> (r: u64)
    ensures
        r == canonical_float(bits),
{
    if (bits & 0x7FF0_0000_0000_0000u64) == 0x7FF0_0000_0000_0000u64 && (bits & 0x000F_FFFF_FFFF_FFFFu64) != 0 {
        0x7FF8_0000_0000_0000u64
    } else if (bits & 0x7FFF_FFFF_FFFF_FFFFu64) == 0 {
        0
    } else {
        bits
    }
}

/// Whether two values are the same value.
fn values_equal(a: &Value, b: &Value) -> (r: bool)
    ensures
        r == (a@ == b@),
    decreases a,
{
    proof {
        lemma_value_model(a);
        lemma_value_model(b);
    }
    match (a, b) {
        (Value::I64(x), Value::I64(y)) => *x == *y,
        (Value::U64(x), Value::U64(y)) => *x == *y,
        (Value::Float(x), Value::Float(y)) => canonical_bits(*x) == canonical_bits(*y),
        (Value::Str(x), Value::Str(y)) => crate::cowstr::str_eq(x.as_str(), y.as_str()),
        (Value::Bytes(x), Value::Bytes(y)) => crate::cowstr::bytes_eq(x.as_slice(), y.as_slice()),
        (Value::Null, Value::Null) => true,
        (Value::Bool(x), Value::Bool(y)) => *x == *y,
        (Value::Array(x), Value::Array(y)) => arrays_equal(x, y),
        (Value::Mapping(x), Value::Mapping(y)) => mappings_equal(x, y),
        _ => false,
    }
}

/// Whether two arrays hold the same values.
fn arrays_equal(a: &Array, b: &Array) -> (r: bool)
    ensures
        r == (a@ == b@),
    decreases a,
{
    proof {
        lemma_items_model(a.0@);
        lemma_items_model(b.0@);
    }
    if a.0.len() != b.0.len() {
        return false;
    }
    let mut i: usize = 0;
    while i < a.0.len()
        invariant
            i <= a.0@.len(),
            a.0@.len() == b.0@.len(),
            items_model(a.0@).len() == a.0@.len(),
            items_model(b.0@).len() == b.0@.len(),
            forall|j: int| 0 <= j < a.0@.len() ==> #[trigger] items_model(a.0@)[j] == model_of(a.0@[j]),
            forall|j: int| 0 <= j < b.0@.len() ==> #[trigger] items_model(b.0@)[j] == model_of(b.0@[j]),
            forall|j: int| 0 <= j < i ==> model_of(#[trigger] a.0@[j]) == model_of(b.0@[j]),
        decreases a.0@.len() - i,
    {
        proof {
            assert(decreases_to!(a => a.0@[i as int]));
        }
        if !values_equal(&a.0[i], &b.0[i]) {
            proof {
                assert(items_model(a.0@)[i as int] != items_model(b.0@)[i as int]);
            }
            return false;
        }
        i = i + 1;
    }
    proof {
        assert(items_model(a.0@) =~= items_model(b.0@));
    }
    true
}

/// Whether two maps have the same keys, with the same values.
fn mappings_equal(a: &Mapping, b: &Mapping) -> (r: bool)
    ensures
        r == (a@ == b@),
    decreases a,
{
    proof {
        use_type_invariant(a);
        use_type_invariant(b);
        lemma_entries_len(a.entries@);
        lemma_entries_len(b.entries@);
    }
    if a.entries.len() != b.entries.len() {
        return false;
    }
    let mut i: usize = 0;
    while i < a.entries.len()
        invariant
            i <= a.entries@.len(),
            keys_unique(a.entries@),
            keys_unique(b.entries@),
            forall|j: int| 0 <= j < i ==> b@.contains_key((#[trigger] a.entries@[j]).0@)
                && b@[a.entries@[j].0@] == model_of(a.entries@[j].1),
        decreases a.entries@.len() - i,
    {
        proof {
            assert(decreases_to!(a => a.entries@[i as int].1));
            lemma_entries_value(a.entries@, i as int);
        }
        match b.get(a.entries[i].0.as_str()) {
            None => {
                return false;
            },
            Some(w) => {
                if !values_equal(&a.entries[i].1, w) {
                    return false;
                }
            },
        }
        i = i + 1;
    }
    proof {
        assert forall|k: Seq<char>| #[trigger] a@.contains_key(k) implies b@.contains_key(k) && a@[k] == b@[k] by {
            lemma_entries_contains(a.entries@, k);
            let j = choose|j: int| 0 <= j < a.entries@.len() && (#[trigger] a.entries@[j]).0@ == k;
            lemma_entries_value(a.entries@, j);
        }
        vstd::set_lib::lemma_subset_equality(a@.dom(), b@.dom());
        assert(a@ =~= b@);
    }
    true
}

impl<'s> PartialEq for Value<'s> {
    fn eq(&self, other: &Self) -> (r: bool) {
        values_equal(self, other)
    }
}

impl<'s> PartialEqSpecImpl for Value<'s> {
    open spec fn obeys_eq_spec() -> bool {
        true
    }

    open spec fn eq_spec(&self, other: &Self) -> bool {
        self@ == other@
    }
}

impl<'s> PartialEq for Array<'s> {
    fn eq(&self, other: &Self) -> (r: bool) {
        arrays_equal(self, other)
    }
}

impl<'s> PartialEqSpecImpl for Array<'s> {
    open spec fn obeys_eq_spec() -> bool {
        true
    }

    open spec fn eq_spec(&self, other: &Self) -> bool {
        self@ == other@
    }
}

impl<'s> PartialEq for Mapping<'s> {
    fn eq(&self, other: &Self) -> (r: bool) {
        mappings_equal(self, other)
    }
}

impl<'s> PartialEqSpecImpl for Mapping<'s> {
    open spec fn obeys_eq_spec() -> bool {
        true
    }

    open spec fn eq_spec(&self, other: &Self) -> bool {
        self@ == other@
    }
}

impl<'s> Clone for Value<'s> {
    fn clone(&self) -> (r: Self)
        ensures
            r@ == self@,
    {
        self.duplicate()
    }
}

impl<'s> Clone for Array<'s> {
    fn clone(&self) -> (r: Self)
        ensures
            r@ == self@,
    {
        self.duplicate()
    }
}

impl<'s> Clone for Mapping<'s> {
    fn clone(&self) -> (r: Self)
        ensures
            r@ == self@,
    {
        self.duplicate()
    }
}

/// The models of a sequence of events.
pub open spec fn events_model(s: Seq<Event>) -> Seq<EventModel> {
    s.map_values(|e: Event| e@)
}

proof fn lemma_events_push(s: Seq<Event>, e: Event)
    ensures
        events_model(s.push(e)) == events_model(s).push(e@),
{
    assert(events_model(s.push(e)) =~= events_model(s).push(e@));
}

impl<'s> Value<'s> {
    /// Writes the events that describe this value to `out`.
    pub fn serialize<'a>(&'a self, out: &mut Vec<Event<'a>>)
        ensures
            events_model(final(out)@) == events_model(old(out)@) + value_events(*self),
        decreases self,
    {
        let ghost start = out@;
        let ev = match self {
            Value::I64(i) => Event::I64(*i),
            Value::U64(u) => Event::U64(*u),
            Value::Float(f) => Event::F64(*f),
            Value::Str(s) => Event::Str(CowStr::Borrowed(s.as_str())),
            Value::Bytes(b) => Event::Bytes(CowBytes::Borrowed(b.as_slice())),
            Value::Null => Event::Null,
            Value::Bool(b) => Event::Bool(*b),
            Value::Array(a) => {
                a.serialize(out);
                return;
            },
            Value::Mapping(m) => {
                m.serialize(out);
                return;
            },
        };
        out.push(ev);
        proof {
            lemma_events_push(start, ev);
            assert(events_model(out@) =~= events_model(start) + value_events(*self));
        }
    }
}

impl<'s> Array<'s> {
    /// Writes the events that describe this array to `out`.
    pub fn serialize<'a>(&'a self, out: &mut Vec<Event<'a>>)
        ensures
            events_model(final(out)@) == events_model(old(out)@) + value_events(Value::Array(*self)),
        decreases self,
    {
        let ghost start = out@;
        let first = Event::ArrayStart(ArrayStart { size_hint: Some(self.0.len()) });
        out.push(first);
        proof {
            lemma_events_push(start, first);
        }
        let mut i: usize = 0;
        while i < self.0.len()
            invariant
                i <= self.0@.len(),
                events_model(out@) == events_model(start) + seq![EventModel::ArrayStart(Some(self.0@.len() as usize))]
                    + items_events(self.0@.take(i as int)),
            decreases self.0@.len() - i,
        {
            proof {
                assert(decreases_to!(self => self.0@[i as int]));
            }
            self.0[i].serialize(out);
            proof {
                let t = self.0@.take(i + 1);
                assert(t.drop_last() =~= self.0@.take(i as int));
                assert(t.last() == self.0@[i as int]);
            }
            i = i + 1;
        }
        let ghost mid = out@;
        out.push(Event::ArrayEnd);
        proof {
            lemma_events_push(mid, Event::ArrayEnd);
            assert(self.0@.take(self.0@.len() as int) =~= self.0@);
            assert(events_model(out@) =~= events_model(start) + value_events(Value::Array(*self)));
        }
    }
}

impl<'s> Mapping<'s> {
    /// Writes the events that describe this map to `out`: each key, then its value.
    pub fn serialize<'a>(&'a self, out: &mut Vec<Event<'a>>)
        ensures
            events_model(final(out)@) == events_model(old(out)@) + value_events(Value::Mapping(*self)),
        decreases self,
    {
        let ghost start = out@;
        let first = Event::MapStart(MapStart { size_hint: Some(self.entries.len()) });
        out.push(first);
        proof {
            lemma_events_push(start, first);
        }
        let mut i: usize = 0;
        while i < self.entries.len()
            invariant
                i <= self.entries@.len(),
                events_model(out@) == events_model(start) + seq![EventModel::MapStart(Some(self.entries@.len() as usize))]
                    + entries_events(self.entries@.take(i as int)),
            decreases self.entries@.len() - i,
        {
            proof {
                assert(decreases_to!(self => self.entries@[i as int].1));
            }
            let ghost before = out@;
            let key = Event::Str(CowStr::Borrowed(self.entries[i].0.as_str()));
            out.push(key);
            proof {
                lemma_events_push(before, key);
            }
            self.entries[i].1.serialize(out);
            proof {
                let t = self.entries@.take(i + 1);
                assert(t.drop_last() =~= self.entries@.take(i as int));
                assert(t.last() == self.entries@[i as int]);
            }
            i = i + 1;
        }
        let ghost mid = out@;
        out.push(Event::MapEnd);
        proof {
            lemma_events_push(mid, Event::MapEnd);
            assert(self.entries@.take(self.entries@.len() as int) =~= self.entries@);
            assert(events_model(out@) =~= events_model(start) + value_events(Value::Mapping(*self)));
        }
    }
}

impl<'s> From<i8> for Value<'s> {
    fn from(v: i8) -> (r: Self) {
        Value::I64(v as i64)
    }
}

impl<'s> FromSpecImpl<i8> for Value<'s> {
    open spec fn obeys_from_spec() -> bool {
        true
    }

    open spec fn from_spec(v: i8) -> Self {
        Value::I64(v as i64)
    }
}

impl<'s> From<i16> for Value<'s> {
    fn from(v: i16) -> (r: Self) {
        Value::I64(v as i64)
    }
}

impl<'s> FromSpecImpl<i16> for Value<'s> {
    open spec fn obeys_from_spec() -> bool {
        true
    }

    open spec fn from_spec(v: i16) -> Self {
        Value::I64(v as i64)
    }
}

impl<'s> From<i32> for Value<'s> {
    fn from(v: i32) -> (r: Self) {
        Value::I64(v as i64)
    }
}

impl<'s> FromSpecImpl<i32> for Value<'s> {
    open spec fn obeys_from_spec() -> bool {
        true
    }

    open spec fn from_spec(v: i32) -> Self {
        Value::I64(v as i64)
    }
}

impl<'s> From<i64> for Value<'s> {
    fn from(v: i64) -> (r: Self) {
        Value::I64(v as i64)
    }
}

impl<'s> FromSpecImpl<i64> for Value<'s> {
    open spec fn obeys_from_spec() -> bool {
        true
    }

    open spec fn from_spec(v: i64) -> Self {
        Value::I64(v as i64)
    }
}

impl<'s> From<u8> for Value<'s> {
    fn from(v: u8) -> (r: Self) {
        Value::U64(v as u64)
    }
}

impl<'s> FromSpecImpl<u8> for Value<'s> {
    open spec fn obeys_from_spec() -> bool {
        true
    }

    open spec fn from_spec(v: u8) -> Self {
        Value::U64(v as u64)
    }
}

impl<'s> From<u16> for Value<'s> {
    fn from(v: u16) -> (r: Self) {
        Value::U64(v as u64)
    }
}

impl<'s> FromSpecImpl<u16> for Value<'s> {
    open spec fn obeys_from_spec() -> bool {
        true
    }

    open spec fn from_spec(v: u16) -> Self {
        Value::U64(v as u64)
    }
}

impl<'s> From<u32> for Value<'s> {
    fn from(v: u32) -> (r: Self) {
        Value::U64(v as u64)
    }
}

impl<'s> FromSpecImpl<u32> for Value<'s> {
    open spec fn obeys_from_spec() -> bool {
        true
    }

    open spec fn from_spec(v: u32) -> Self {
        Value::U64(v as u64)
    }
}

impl<'s> From<u64> for Value<'s> {
    fn from(v: u64) -> (r: Self) {
        Value::U64(v as u64)
    }
}

impl<'s> FromSpecImpl<u64> for Value<'s> {
    open spec fn obeys_from_spec() -> bool {
        true
    }

    open spec fn from_spec(v: u64) -> Self {
        Value::U64(v as u64)
    }
}

impl<'s> From<CowStr<'s>> for Value<'s> {
    fn from(v: CowStr<'s>) -> (r: Self) {
        Value::Str(v)
    }
}

impl<'s> FromSpecImpl<CowStr<'s>> for Value<'s> {
    open spec fn obeys_from_spec() -> bool {
        true
    }

    open spec fn from_spec(v: CowStr<'s>) -> Self {
        Value::Str(v)
    }
}

impl<'s> From<CowBytes<'s>> for Value<'s> {
    fn from(v: CowBytes<'s>) -> (r: Self) {
        Value::Bytes(v)
    }
}

impl<'s> FromSpecImpl<CowBytes<'s>> for Value<'s> {
    open spec fn obeys_from_spec() -> bool {
        true
    }

    open spec fn from_spec(v: CowBytes<'s>) -> Self {
        Value::Bytes(v)
    }
}

impl<'s> From<&'s str> for Value<'s> {
    fn from(v: &'s str) -> (r: Self) {
        Value::Str(CowStr::Borrowed(v))
    }
}

impl<'s> FromSpecImpl<&'s str> for Value<'s> {
    open spec fn obeys_from_spec() -> bool {
        true
    }

    open spec fn from_spec(v: &'s str) -> Self {
        Value::Str(CowStr::Borrowed(v))
    }
}

impl<'s> From<String> for Value<'s> {
    fn from(v: String) -> (r: Self) {
        Value::Str(CowStr::Owned(v))
    }
}

impl<'s> FromSpecImpl<String> for Value<'s> {
    open spec fn obeys_from_spec() -> bool {
        true
    }

    open spec fn from_spec(v: String) -> Self {
        Value::Str(CowStr::Owned(v))
    }
}

impl<'s> From<bool> for Value<'s> {
    fn from(v: bool) -> (r: Self) {
        Value::Bool(v)
    }
}

impl<'s> FromSpecImpl<bool> for Value<'s> {
    open spec fn obeys_from_spec() -> bool {
        true
    }

    open spec fn from_spec(v: bool) -> Self {
        Value::Bool(v)
    }
}

impl<'s> From<()> for Value<'s> {
    fn from(v: ()) -> (r: Self) {
        Value::Null
    }
}

impl<'s> FromSpecImpl<()> for Value<'s> {
    open spec fn obeys_from_spec() -> bool {
        true
    }

    open spec fn from_spec(v: ()) -> Self {
        Value::Null
    }
}

impl<'s> From<Array<'s>> for Value<'s> {
    fn from(v: Array<'s>) -> (r: Self) {
        Value::Array(v)
    }
}

impl<'s> FromSpecImpl<Array<'s>> for Value<'s> {
    open spec fn obeys_from_spec() -> bool {
        true
    }

    open spec fn from_spec(v: Array<'s>) -> Self {
        Value::Array(v)
    }
}

impl<'s> From<Mapping<'s>> for Value<'s> {
    fn from(v: Mapping<'s>) -> (r: Self) {
        Value::Mapping(v)
    }
}

impl<'s> FromSpecImpl<Mapping<'s>> for Value<'s> {
    open spec fn obeys_from_spec() -> bool {
        true
    }

    open spec fn from_spec(v: Mapping<'s>) -> Self {
        Value::Mapping(v)
    }
}

impl<'s> From<Vec<Value<'s>>> for Value<'s> {
    fn from(v: Vec<Value<'s>>) -> (r: Self) {
        Value::Array(Array(v))
    }
}

impl<'s> FromSpecImpl<Vec<Value<'s>>> for Value<'s> {
    open spec fn obeys_from_spec() -> bool {
        true
    }

    open spec fn from_spec(v: Vec<Value<'s>>) -> Self {
        Value::Array(Array(v))
    }
}

/// Float values compare as ordered floats: two floats that are not NaN are
/// equal exactly when they have the same bit pattern or are both zeros (of
/// either sign); all NaNs are equal to each other and to nothing else. In
/// particular a nonzero float is never equal to its negation.
pub proof fn law_float_equality(a: u64, b: u64)
    ensures
        ({
            let nan = |x: u64| (x & 0x7FF0_0000_0000_0000u64) == 0x7FF0_0000_0000_0000u64
                && (x & 0x000F_FFFF_FFFF_FFFFu64) != 0;
            let zero = |x: u64| (x & 0x7FFF_FFFF_FFFF_FFFFu64) == 0;
            (Value::Float(a)@ == Value::Float(b)@) <==> (
                (nan(a) && nan(b))
                || (!nan(a) && !nan(b) && (a == b || (zero(a) && zero(b))))
            )
        }),
{
    lemma_value_model(&Value::Float(a));
    lemma_value_model(&Value::Float(b));
    assert((0x7FF8_0000_0000_0000u64 & 0x7FF0_0000_0000_0000u64) == 0x7FF0_0000_0000_0000u64
        && (0x7FF8_0000_0000_0000u64 & 0x000F_FFFF_FFFF_FFFFu64) != 0) by (bit_vector);
    assert((0u64 & 0x7FFF_FFFF_FFFF_FFFFu64) == 0) by (bit_vector);
    assert((0u64 & 0x7FF0_0000_0000_0000u64) != 0x7FF0_0000_0000_0000u64) by (bit_vector);
}

} // verus!
