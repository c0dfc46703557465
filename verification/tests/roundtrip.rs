use std::collections::HashMap;

use merde::containers::{option_step, MapReader, SeqReader, Step};
use merde::json::deserializer::{JsonDeserializer, JsonToken};
use merde::json::errors::{JiterErrorType, JsonErrorType};
use merde::json::jiter::Jiter;
use merde::json::number::NumberInt;
use merde::json::parse::Peek;
use merde::json::number::NumberRange;
use merde::json::serializer::JsonSerializer;
use merde::scalars::{
    deserialize_bool, deserialize_i32, deserialize_i64, deserialize_i8, deserialize_string, deserialize_u8,
};
use merde::{ArrayStart, Event, MapStart, MerdeError};

/// The JSON text of a list of events.
fn to_string(events: Vec<Event>) -> String {
    let mut s = JsonSerializer::new(Vec::new());
    for ev in events {
        s.write(ev);
    }
    String::from_utf8(s.into_inner()).unwrap()
}

/// A number's event, as the JSON format gives it: its text read as a float,
/// which is an integer event when it is whole and fits.
fn number_event<'s>(src: &'s str, nr: &NumberRange) -> Event<'s> {
    let f: f64 = src[nr.range.clone()].parse().unwrap();
    if f.fract() == 0.0 && f >= i64::MIN as f64 && f <= i64::MAX as f64 {
        Event::I64(f as i64)
    } else {
        Event::F64(f.to_bits())
    }
}

fn next_event<'s>(de: &mut JsonDeserializer<'s>, src: &'s str) -> Event<'s> {
    match de.next().unwrap() {
        JsonToken::Event(e) => e,
        JsonToken::Number(nr) => number_event(src, &nr),
    }
}

/// Reads one value with `read`, which takes its first event.
fn from_str<'s, T>(src: &'s str, read: fn(Event<'s>) -> Result<T, MerdeError<'s>>) -> T {
    let mut de = JsonDeserializer::new(src);
    let ev = next_event(&mut de, src);
    read(ev).unwrap()
}

fn vec_from_str<'s, T>(src: &'s str, read: fn(Event<'s>) -> Result<T, MerdeError<'s>>) -> Vec<T> {
    let mut de = JsonDeserializer::new(src);
    let mut reader = SeqReader::new();
    let mut out = Vec::new();
    loop {
        match reader.feed(next_event(&mut de, src)).unwrap() {
            Step::Started(hint) => out.reserve(hint.unwrap_or(0)),
            Step::Item(ev) => out.push(read(ev).unwrap()),
            Step::Done => return out,
        }
    }
}

fn map_from_str<'s>(src: &'s str) -> HashMap<String, i32> {
    let mut de = JsonDeserializer::new(src);
    let mut reader = MapReader::new();
    let mut out = HashMap::new();
    loop {
        match reader.feed(next_event(&mut de, src)).unwrap() {
            Step::Started(_) => {}
            Step::Item(ev) => {
                let key = deserialize_string(ev).unwrap();
                let value = deserialize_i32(next_event(&mut de, src)).unwrap();
                out.insert(key, value);
            }
            Step::Done => return out,
        }
    }
}

fn option_from_str<'s>(src: &'s str) -> Option<i32> {
    let mut de = JsonDeserializer::new(src);
    option_step(next_event(&mut de, src)).map(|ev| deserialize_i32(ev).unwrap())
}

fn vec_events(v: &[i32]) -> Vec<Event<'static>> {
    let mut events = vec![Event::ArrayStart(ArrayStart { size_hint: Some(v.len()) })];
    events.extend(v.iter().map(|x| Event::from(*x)));
    events.push(Event::ArrayEnd);
    events
}

fn map_events(m: &HashMap<String, i32>) -> Vec<Event<'_>> {
    let mut events = vec![Event::MapStart(MapStart { size_hint: Some(m.len()) })];
    for (k, v) in m {
        events.push(Event::from(k.as_str()));
        events.push(Event::from(*v));
    }
    events.push(Event::MapEnd);
    events
}

fn option_events(o: Option<i32>) -> Vec<Event<'static>> {
    match o {
        Some(v) => vec![Event::from(v)],
        None => vec![Event::Null],
    }
}

#[test]
fn test_u8_zero() {
    let original: u8 = 0;
    let serialized = to_string(vec![Event::from(original)]);
    let deserialized: u8 = from_str(&serialized, deserialize_u8);
    assert_eq!(original, deserialized);
}

#[test]
fn test_u8_max() {
    let original: u8 = u8::MAX;
    let serialized = to_string(vec![Event::from(original)]);
    let deserialized: u8 = from_str(&serialized, deserialize_u8);
    assert_eq!(original, deserialized);
}

#[test]
fn test_i8_min() {
    let original: i8 = i8::MIN;
    let serialized = to_string(vec![Event::from(original)]);
    let deserialized: i8 = from_str(&serialized, deserialize_i8);
    assert_eq!(original, deserialized);
}

#[test]
fn test_i8_max() {
    let original: i8 = i8::MAX;
    let serialized = to_string(vec![Event::from(original)]);
    let deserialized: i8 = from_str(&serialized, deserialize_i8);
    assert_eq!(original, deserialized);
}

#[test]
fn test_i64_min() {
    let original: i64 = i64::MIN;
    let serialized = to_string(vec![Event::from(original)]);
    let deserialized: i64 = from_str(&serialized, deserialize_i64);
    assert_eq!(original, deserialized);
}

#[test]
fn test_i64_max() {
    let original: i64 = i64::MAX;
    let serialized = to_string(vec![Event::from(original)]);
    let deserialized: i64 = from_str(&serialized, deserialize_i64);
    assert_eq!(original, deserialized);
}

#[test]
fn test_string_owned() {
    let original = String::from("Hello, World!");
    let serialized = to_string(vec![Event::from(original.clone())]);
    let deserialized: String = from_str(&serialized, deserialize_string);
    assert_eq!(original, deserialized);
}

#[test]
fn test_string_borrowed() {
    let original: &str = "Hello, World!";
    let serialized = to_string(vec![Event::from(original)]);
    let deserialized: String = from_str(&serialized, deserialize_string);
    assert_eq!(original, deserialized);
}

#[test]
fn test_vec_empty() {
    let original: Vec<i32> = Vec::new();
    let serialized = to_string(vec_events(&original));
    let deserialized: Vec<i32> = vec_from_str(&serialized, deserialize_i32);
    assert_eq!(original, deserialized);
}

#[test]
fn test_vec_non_empty() {
    let original = vec![1, 2, 3, 4, 5];
    let serialized = to_string(vec_events(&original));
    let deserialized: Vec<i32> = vec_from_str(&serialized, deserialize_i32);
    assert_eq!(original, deserialized);
}

#[test]
fn test_hashmap_empty() {
    let original: HashMap<String, i32> = HashMap::new();
    let serialized = to_string(map_events(&original));
    let deserialized: HashMap<String, i32> = map_from_str(&serialized);
    assert_eq!(original, deserialized);
}

#[test]
fn test_hashmap_non_empty() {
    let mut original = HashMap::new();
    original.insert("key1".to_string(), 42);
    original.insert("key2".to_string(), -10);
    let serialized = to_string(map_events(&original));
    let deserialized: HashMap<String, i32> = map_from_str(&serialized);
    assert_eq!(original, deserialized);
}

#[test]
fn test_option_some() {
    let original: Option<i32> = Some(42);
    let serialized = to_string(option_events(original));
    let deserialized: Option<i32> = option_from_str(&serialized);
    assert_eq!(original, deserialized);
}

#[test]
fn test_option_none() {
    let original: Option<i32> = None;
    let serialized = to_string(option_events(original));
    let deserialized: Option<i32> = option_from_str(&serialized);
    assert_eq!(original, deserialized);
}

#[test]
fn test_bool_true() {
    let original = true;
    let serialized = to_string(vec![Event::from(original)]);
    let deserialized: bool = from_str(&serialized, deserialize_bool);
    assert_eq!(original, deserialized);
}

#[test]
fn test_bool_false() {
    let original = false;
    let serialized = to_string(vec![Event::from(original)]);
    let deserialized: bool = from_str(&serialized, deserialize_bool);
    assert_eq!(original, deserialized);
}

#[test]
fn written_events_read_back_one_for_one() {
    let events = vec![
        Event::MapStart(MapStart { size_hint: Some(2) }),
        Event::from("list"),
        Event::ArrayStart(ArrayStart { size_hint: Some(3) }),
        Event::from(-7i64),
        Event::from(u64::MAX),
        Event::Null,
        Event::ArrayEnd,
        Event::from("flag"),
        Event::from(false),
        Event::MapEnd,
    ];
    let text = to_string(events);
    assert_eq!(text, r#"{"list":[-7,18446744073709551615,null],"flag":false}"#);
    let mut de = JsonDeserializer::new(&text);
    let mut tokens = Vec::new();
    for _ in 0..10 {
        tokens.push(de.next().unwrap());
    }
    assert!(matches!(tokens[0], JsonToken::Event(Event::MapStart(MapStart { size_hint: None }))));
    assert!(matches!(&tokens[1], JsonToken::Event(Event::Str(s)) if s.as_str() == "list"));
    assert!(matches!(tokens[2], JsonToken::Event(Event::ArrayStart(ArrayStart { size_hint: None }))));
    match (&tokens[3], &tokens[4]) {
        (JsonToken::Number(a), JsonToken::Number(b)) => {
            assert!(a.is_int && b.is_int);
            assert_eq!(&text[a.range.clone()], "-7");
            assert_eq!(&text[b.range.clone()], "18446744073709551615");
        }
        other => panic!("expected two numbers, got {:?}", other),
    }
    assert!(matches!(tokens[5], JsonToken::Event(Event::Null)));
    assert!(matches!(tokens[6], JsonToken::Event(Event::ArrayEnd)));
    assert!(matches!(&tokens[7], JsonToken::Event(Event::Str(s)) if s.as_str() == "flag"));
    assert!(matches!(tokens[8], JsonToken::Event(Event::Bool(false))));
    assert!(matches!(tokens[9], JsonToken::Event(Event::MapEnd)));
}

#[test]
fn written_integers_read_back_through_the_iterator() {
    let values = [0i64, 7, -7, 999_999_999_999_999_999, -999_999_999_999_999_999, 1_000_000_000_000_000_000, i64::MAX, i64::MIN];
    let mut events = vec![Event::ArrayStart(ArrayStart { size_hint: Some(values.len()) })];
    events.extend(values.iter().map(|v| Event::from(*v)));
    events.push(Event::ArrayEnd);
    let text = to_string(events);
    let mut j = Jiter::new(text.as_bytes());
    assert!(matches!(j.peek().unwrap(), Peek::Array));
    let mut next = j.known_array().unwrap();
    let mut read = Vec::new();
    while let Some(p) = next {
        match j.known_int(p).unwrap() {
            NumberInt::Int(n) => read.push(n),
        }
        next = j.array_step().unwrap();
    }
    assert_eq!(read, values.to_vec());

    // an integer beyond i64 is refused
    let text = to_string(vec![Event::from(u64::MAX)]);
    let mut j = Jiter::new(text.as_bytes());
    let p = j.peek().unwrap();
    let e = j.known_int(p).unwrap_err();
    assert_eq!(e.error_type, JiterErrorType::JsonError(JsonErrorType::NumberOutOfRange));
}

#[test]
fn container_readers_decide_on_events() {
    let mut r = SeqReader::new();
    let e = r.feed(Event::Null).unwrap_err();
    assert!(matches!(e, MerdeError::UnexpectedEvent { got: merde::EventType::Null, .. }));
    assert_eq!(r, SeqReader::Start);
    assert!(matches!(r.feed(Event::ArrayStart(ArrayStart { size_hint: Some(2) })).unwrap(), Step::Started(Some(2))));
    assert!(matches!(r.feed(Event::from(1i64)).unwrap(), Step::Item(Event::I64(1))));
    assert!(matches!(r.feed(Event::ArrayEnd).unwrap(), Step::Done));

    let mut m = MapReader::new();
    assert!(m.feed(Event::ArrayStart(ArrayStart { size_hint: None })).is_err());
    assert!(matches!(m.feed(Event::MapStart(MapStart { size_hint: None })).unwrap(), Step::Started(None)));
    assert!(matches!(m.feed(Event::from("k")).unwrap(), Step::Item(Event::Str(_))));
    assert!(matches!(m.feed(Event::MapEnd).unwrap(), Step::Done));

    assert!(option_step(Event::Null).is_none());
    assert!(matches!(option_step(Event::from(true)), Some(Event::Bool(true))));
}
