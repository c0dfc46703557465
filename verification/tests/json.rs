use merde::json::deserializer::{JsonDeserializer, JsonToken};
use merde::json::deserializer2::JsonDeserializer as Deserializer2;
use merde::json::errors::{JiterError, JiterErrorType, JsonErrorType, JsonType};
use merde::json::jiter::Jiter;
use merde::json::number::{IntParse, NumberInt, NumberRange};
use merde::json::parse::Peek;
use merde::json::serializer::JsonSerializer;
use merde::builder::ValueBuilder;
use merde::{Array, ArrayStart, CowStr, Event, MapStart, Mapping, MerdeError, Value};

/// A number's event, as the JSON format gives it: its text read as a float,
/// which is an integer event when it is whole and fits.
fn number_event<'s>(src: &'s str, nr: &NumberRange) -> Event<'s> {
    let f: f64 = src[nr.range.clone()].parse().unwrap();
    if f.fract() == 0.0 && f >= i64::MIN as f64 && f <= i64::MAX as f64 {
        Event::I64(f as i64)
    } else {
        Event::F64(f.to_bits())
    }
}

fn next_event<'s>(de: &mut JsonDeserializer<'s>, src: &'s str) -> Result<Event<'s>, JiterError> {
    match de.next()? {
        JsonToken::Event(e) => Ok(e),
        JsonToken::Number(nr) => Ok(number_event(src, &nr)),
    }
}

fn read_value<'s>(de: &mut JsonDeserializer<'s>, src: &'s str) -> Value<'s> {
    let mut b = ValueBuilder::new();
    loop {
        let ev = next_event(de, src).unwrap();
        if let Some(v) = b.feed(ev).unwrap() {
            return v;
        }
    }
}

fn json_value(src: &str) -> Value<'_> {
    let mut de = JsonDeserializer::new(src);
    read_value(&mut de, src)
}

#[derive(Debug, PartialEq)]
struct Sample {
    height: i64,
    kind: bool,
}

fn read_sample<'s>(de: &mut JsonDeserializer<'s>, src: &'s str) -> Result<Sample, MerdeError<'s>> {
    let mut height: Option<i64> = None;
    let mut kind: Option<bool> = None;
    next_event(de, src).unwrap().into_map_start()?;
    loop {
        match next_event(de, src).unwrap() {
            Event::Str(k) => match k.as_str() {
                "height" => height = Some(next_event(de, src).unwrap().into_i64()?),
                "kind" => kind = Some(next_event(de, src).unwrap().into_bool()?),
                _ => return Err(MerdeError::UnknownProperty(k)),
            },
            Event::MapEnd => break,
            ev => return Err(MerdeError::unexpected(ev.event_type(), merde::EventType::Str)),
        }
    }
    Ok(Sample {
        height: height.ok_or_else(|| MerdeError::MissingProperty("height".into()))?,
        kind: kind.ok_or_else(|| MerdeError::MissingProperty("kind".into()))?,
    })
}

#[test]
fn deserialize_test_deserialize() {
    let input = r#"
            [
                {
                    "height": 100,
                    "kind": true
                },
                {
                    "height": 200,
                    "kind": false
                },
                {
                    "height": 150,
                    "kind": true
                }
            ]
        "#;

    let mut deser = JsonDeserializer::new(input);
    next_event(&mut deser, input).unwrap().into_array_start().unwrap();
    let mut samples = Vec::new();
    loop {
        let ev = next_event(&mut deser, input).unwrap();
        if matches!(ev, Event::ArrayEnd) {
            break;
        }
        deser.put_back(ev).unwrap();
        samples.push(read_sample(&mut deser, input).unwrap());
    }
    assert_eq!(
        samples,
        vec![
            Sample { height: 100, kind: true },
            Sample { height: 200, kind: false },
            Sample { height: 150, kind: true }
        ]
    );

    let value = json_value(input);
    assert_eq!(
        value,
        Value::from(
            Array::new()
                .with(Value::from(
                    Mapping::new()
                        .with(CowStr::from("height"), Value::I64(100))
                        .with(CowStr::from("kind"), Value::Bool(true))
                ))
                .with(Value::from(
                    Mapping::new()
                        .with(CowStr::from("height"), Value::I64(200))
                        .with(CowStr::from("kind"), Value::Bool(false))
                ))
                .with(Value::from(
                    Mapping::new()
                        .with(CowStr::from("height"), Value::I64(150))
                        .with(CowStr::from("kind"), Value::Bool(true))
                ))
        )
    );
}

#[test]
fn parser_test_jiter_to_value() {
    let src = r#"
        {
            "name": "John Doe",
            "age": 42,
            "address": {
                "street": "123 Main St",
                "city": "Anytown",
                "state": "CA",
                "zip": 12345
            },
            "friends": [
                "Alice",
                "Bob",
                "Charlie"
            ]
        }
        "#;

    let value = json_value(src);
    assert_eq!(
        value,
        Value::Mapping(
            Mapping::new()
                .with(CowStr::from("name"), Value::Str(CowStr::from("John Doe")))
                .with(CowStr::from("age"), Value::I64(42))
                .with(
                    CowStr::from("address"),
                    Value::from(
                        Mapping::new()
                            .with(CowStr::from("street"), Value::Str(CowStr::from("123 Main St")))
                            .with(CowStr::from("city"), Value::Str(CowStr::from("Anytown")))
                            .with(CowStr::from("state"), Value::Str(CowStr::from("CA")))
                            .with(CowStr::from("zip"), Value::I64(12345))
                    )
                )
                .with(
                    CowStr::from("friends"),
                    Value::from(
                        Array::new()
                            .with(Value::from("Alice"))
                            .with(Value::from("Bob"))
                            .with(Value::from("Charlie"))
                    )
                )
        )
    );
}

#[test]
fn strings_without_escapes_are_borrowed() {
    let src = r#"["plain", "esc\naped"]"#;
    let v = json_value(src);
    let items = &v.as_array().unwrap().0;
    assert!(matches!(items[0].as_str().unwrap(), CowStr::Borrowed(_)));
    assert!(matches!(items[1].as_str().unwrap(), CowStr::Owned(_)));
    assert_eq!(items[1].as_str().unwrap().as_str(), "esc\naped");
}

#[test]
fn unicode_escapes_and_surrogate_pairs() {
    let v = json_value(r#""caf\u00e9 \ud83d\ude00 \/""#);
    assert_eq!(v.as_str().unwrap().as_str(), "café 😀 /");
}

#[test]
fn syntax_errors_carry_their_kind_and_index() {
    let src = "[1, 2,]";
    let mut de = JsonDeserializer::new(src);
    let mut err = None;
    for _ in 0..5 {
        match de.next() {
            Ok(_) => {}
            Err(e) => {
                err = Some(e);
                break;
            }
        }
    }
    let err = err.unwrap();
    assert_eq!(err.error_type, JiterErrorType::JsonError(JsonErrorType::TrailingComma));
    assert_eq!(err.index, 6);

    let mut de = JsonDeserializer::new("");
    let e = de.next().unwrap_err();
    assert_eq!(e.error_type, JiterErrorType::JsonError(JsonErrorType::EofWhileParsingValue));

    let mut de = JsonDeserializer::new("nul");
    let e = de.next().unwrap_err();
    assert_eq!(e.error_type, JiterErrorType::JsonError(JsonErrorType::EofWhileParsingValue));

    let mut de = JsonDeserializer::new("nulx");
    let e = de.next().unwrap_err();
    assert_eq!(e.error_type, JiterErrorType::JsonError(JsonErrorType::ExpectedSomeIdent));

    // the first key is read with the object's start, and its colon too
    let mut de = JsonDeserializer::new("{\"a\" 1}");
    let e = de.next().unwrap_err();
    assert_eq!(e.error_type, JiterErrorType::JsonError(JsonErrorType::ExpectedColon));
}

#[test]
fn put_back_twice_is_an_error() {
    let mut de = JsonDeserializer::new("1");
    de.put_back(Event::Null).unwrap();
    assert!(matches!(de.put_back(Event::Null), Err(MerdeError::PutBackCalledTwice)));
    assert!(matches!(de.next(), Ok(JsonToken::Event(Event::Null))));
    assert!(matches!(de.next(), Ok(JsonToken::Number(n)) if n.is_int && n.range == (0..1)));
}

#[test]
fn number_ranges_tell_integers_from_floats() {
    let (n, end) = NumberRange::decode(b"-12.5e3,", 0, b'-', false).unwrap();
    assert!(!n.is_int);
    assert_eq!(n.range, 0..7);
    assert_eq!(end, 7);
    let (n, _) = NumberRange::decode(b"12345 ", 0, b'1', false).unwrap();
    assert!(n.is_int);
    assert_eq!(n.range, 0..5);
    assert!(NumberRange::decode(b"1.", 0, b'1', false).is_err());
    assert!(NumberRange::decode(b"NaN", 0, b'N', false).is_err());
    let (n, _) = NumberRange::decode(b"NaN", 0, b'N', true).unwrap();
    assert_eq!(n.range, 0..3);
}

#[test]
fn integers_parse_exactly() {
    assert_eq!(NumberInt::try_from(&b"999999999999999999"[..]).unwrap(), NumberInt::Int(999999999999999999));
    assert_eq!(NumberInt::try_from(&b"-999999999999999999"[..]).unwrap(), NumberInt::Int(-999999999999999999));
    // nineteen digits are read when they fit in an i64
    assert_eq!(NumberInt::try_from(&b"1000000000000000000"[..]).unwrap(), NumberInt::Int(1000000000000000000));
    assert_eq!(NumberInt::try_from(&b"9223372036854775807"[..]).unwrap(), NumberInt::Int(i64::MAX));
    assert_eq!(NumberInt::try_from(&b"-9223372036854775808"[..]).unwrap(), NumberInt::Int(i64::MIN));
    // and are out of range when they do not
    let e = NumberInt::try_from(&b"9223372036854775808"[..]).unwrap_err();
    assert_eq!(e.error_type, JsonErrorType::NumberOutOfRange);
    assert_eq!(e.index, 1);
    let e = NumberInt::try_from(&b"-9223372036854775809"[..]).unwrap_err();
    assert_eq!(e.error_type, JsonErrorType::NumberOutOfRange);
    assert_eq!(e.index, 2);
    let e = NumberInt::try_from(&b"12345678901234567890"[..]).unwrap_err();
    assert_eq!(e.error_type, JsonErrorType::NumberOutOfRange);
    assert_eq!(e.index, 1);
    // a float's integer part of nineteen digits
    let (p, end) = IntParse::parse(b"1234567890123456789.5", 0, b'1').unwrap();
    assert_eq!(p, IntParse::Float);
    assert_eq!(end, 19);
    let (p, end) = IntParse::parse(b"1000000000000000000", 0, b'1').unwrap();
    assert_eq!(p, IntParse::Int(NumberInt::Int(1000000000000000000)));
    assert_eq!(end, 19);
    assert_eq!(NumberInt::try_from(&b"0"[..]).unwrap(), NumberInt::Int(0));
    assert!(NumberInt::try_from(&b"01"[..]).is_err());
    assert!(NumberInt::try_from(&b"1.5"[..]).is_err());
    assert!(NumberInt::try_from(&b""[..]).is_err());
}

#[test]
fn jiter_reads_values_piece_by_piece() {
    let mut j = Jiter::new(br#" [true, null, "x", {"k": 7}] "#);
    assert_eq!(j.peek().unwrap(), Peek::Array);
    assert_eq!(j.known_array().unwrap(), Some(Peek::True));
    assert!(j.known_bool(Peek::True).unwrap());
    assert_eq!(j.array_step().unwrap(), Some(Peek::Null));
    j.known_null().unwrap();
    assert_eq!(j.array_step().unwrap(), Some(Peek::String));
    assert_eq!(j.known_str().unwrap(), "x");
    assert_eq!(j.array_step().unwrap(), Some(Peek::Object));
    assert_eq!(j.known_object().unwrap().unwrap(), "k");
    let p = j.peek().unwrap();
    assert_eq!(j.known_int(p).unwrap(), NumberInt::Int(7));
    assert!(j.next_key().unwrap().is_none());
    assert!(j.array_step().unwrap().is_none());
    j.finish().unwrap();
}

#[test]
fn jiter_reports_wrong_types() {
    let mut j = Jiter::new(b"1.5");
    let p = j.peek().unwrap();
    let e = j.known_bool(p).unwrap_err();
    assert_eq!(
        e.error_type,
        JiterErrorType::WrongType { expected: JsonType::Bool, actual: JsonType::Float }
    );
    assert_eq!(e.index, 0);
}

fn serialize(events: Vec<Event>) -> String {
    let mut s = JsonSerializer::new(Vec::new());
    for ev in events {
        s.write(ev);
    }
    String::from_utf8(s.into_inner()).unwrap()
}

#[test]
fn serializer_writes_separators() {
    let out = serialize(vec![
        Event::MapStart(MapStart { size_hint: None }),
        Event::Str(CowStr::from("a")),
        Event::ArrayStart(ArrayStart { size_hint: None }),
        Event::I64(-1),
        Event::U64(18446744073709551615),
        Event::Null,
        Event::Bool(false),
        Event::ArrayEnd,
        Event::Str(CowStr::from("b")),
        Event::Bool(true),
        Event::MapEnd,
    ]);
    assert_eq!(out, r#"{"a":[-1,18446744073709551615,null,false],"b":true}"#);
}

#[test]
fn serializer_escapes_strings() {
    let out = serialize(vec![Event::Str(CowStr::from("q\"b\\n\nr\rt\t\u{1}\u{7f}\u{85}é😀"))]);
    assert_eq!(out, "\"q\\\"b\\\\n\\nr\\rt\\t\\u0001\\u007f\\u0085é😀\"");
}

#[test]
fn serializer_skips_bytes_and_writes_float_text() {
    let mut s = JsonSerializer::new(Vec::new());
    s.write(Event::ArrayStart(ArrayStart { size_hint: Some(3) }));
    s.write(Event::Bytes(merde::CowBytes::from(vec![1u8])));
    s.write_float_text("1.5");
    s.write(Event::ArrayEnd);
    assert_eq!(String::from_utf8(s.into_inner()).unwrap(), "[,1.5]");
}

#[test]
fn written_json_reads_back() {
    let v = Value::Mapping(
        Mapping::new()
            .with(CowStr::from("text"), Value::from("line\nbreak \"quoted\" \u{2}"))
            .with(CowStr::from("n"), Value::I64(-5))
            .with(CowStr::from("list"), Value::from(vec![Value::Bool(true), Value::Null]))
            .with(CowStr::from("empty"), Value::from(Mapping::new())),
    );
    let mut events = Vec::new();
    v.serialize(&mut events);
    let text = serialize(events);
    assert_eq!(json_value(&text), v);
}

#[test]
fn taking_output_keeps_the_place_in_the_document() {
    let mut s = JsonSerializer::new(Vec::new());
    s.write(Event::ArrayStart(ArrayStart { size_hint: None }));
    s.write(Event::I64(1));
    assert_eq!(s.take_output(), b"[1".to_vec());
    s.write(Event::I64(2));
    s.write(Event::ArrayEnd);
    assert_eq!(s.into_inner(), b",2]".to_vec());
}

#[test]
fn second_deserializer_reads_scalars_and_queues_first_keys() {
    let mut de = Deserializer2::new(" true ");
    assert!(matches!(de.pop(), Ok(JsonToken::Event(Event::Bool(true)))));

    let mut de = Deserializer2::new("{\"a\": 1}");
    assert!(matches!(de.pop(), Ok(JsonToken::Event(Event::MapStart(_)))));
    assert!(matches!(de.pop(), Ok(JsonToken::Event(Event::Str(k))) if k == "a"));
    let e = de.pop().unwrap_err();
    assert_eq!(e.error_type, JiterErrorType::JsonError(JsonErrorType::ExpectedObjectCommaOrEnd));
    assert_eq!(e.index, 6);

    let mut de = Deserializer2::new("[1]");
    assert!(matches!(de.pop(), Ok(JsonToken::Event(Event::ArrayStart(_)))));
    let e = de.pop().unwrap_err();
    assert_eq!(e.error_type, JiterErrorType::JsonError(JsonErrorType::ExpectedListCommaOrEnd));
    assert_eq!(e.index, 1);
}

fn eof_error<T: std::fmt::Debug>(r: Result<T, JiterError>) -> (JsonErrorType, usize) {
    match r.unwrap_err() {
        JiterError { error_type: JiterErrorType::JsonError(t), index } => (t, index),
        e => panic!("not a syntax error: {:?}", e),
    }
}

#[test]
fn jiter_reports_the_end_of_input() {
    assert_eq!(eof_error(Jiter::new(b"").known_null()), (JsonErrorType::EofWhileParsingValue, 1));
    assert_eq!(eof_error(Jiter::new(b"").known_bool(Peek::True)), (JsonErrorType::EofWhileParsingValue, 1));
    assert_eq!(eof_error(Jiter::new(b"").known_str()), (JsonErrorType::EofWhileParsingString, 0));
    assert_eq!(eof_error(Jiter::new(b"").known_array()), (JsonErrorType::EofWhileParsingList, 1));
    assert_eq!(eof_error(Jiter::new(b"").known_object()), (JsonErrorType::EofWhileParsingObject, 1));
    assert_eq!(eof_error(Jiter::new(b"").known_number(Peek::Other(b'1'))), (JsonErrorType::EofWhileParsingValue, 0));
    let mut j = Jiter::new(b"tr");
    assert_eq!(eof_error(j.known_bool(Peek::True)), (JsonErrorType::EofWhileParsingValue, 2));
    assert_eq!(j.current_index(), 0);
}

#[test]
fn jiter_consumes_nothing_on_a_wrong_type() {
    let mut j = Jiter::new(b"12");
    let p = j.peek().unwrap();
    let e = j.known_bool(p).unwrap_err();
    assert_eq!(e, JiterError::wrong_type(JsonType::Bool, JsonType::Int, 0));
    assert_eq!(j.current_index(), 0);
    assert_eq!(j.peek().unwrap(), p);
    let mut j = Jiter::new(b"null");
    let e = j.known_bool(Peek::Null).unwrap_err();
    assert_eq!(e, JiterError::wrong_type(JsonType::Bool, JsonType::Null, 0));
    assert_eq!(j.peek().unwrap(), Peek::Null);
}

#[test]
fn jiter_borrows_strings_without_escapes() {
    let data = br#"["ab", "a\nb"]"#;
    let mut j = Jiter::new(data);
    assert_eq!(j.peek().unwrap(), Peek::Array);
    assert_eq!(j.known_array().unwrap(), Some(Peek::String));
    let s = j.known_str().unwrap();
    assert!(matches!(s, CowStr::Borrowed(_)));
    assert_eq!(s.as_str().as_ptr(), data[2..].as_ptr());
    assert_eq!(j.array_step().unwrap(), Some(Peek::String));
    let s = j.known_str().unwrap();
    assert!(matches!(&s, CowStr::Owned(o) if o == "a\nb"));
    let data = br#"{"ab": 1, "c\u0064": 2}"#;
    let mut j = Jiter::new(data);
    assert_eq!(j.peek().unwrap(), Peek::Object);
    let k = j.known_object().unwrap().unwrap();
    assert!(matches!(k, CowStr::Borrowed(_)));
    assert_eq!(k.as_str().as_ptr(), data[2..].as_ptr());
    let p = j.peek().unwrap();
    assert_eq!(j.known_int(p).unwrap(), NumberInt::Int(1));
    let k = j.next_key().unwrap().unwrap();
    assert!(matches!(&k, CowStr::Owned(o) if o == "cd"));
}

#[test]
fn deserializer_borrows_strings_without_escapes() {
    let src = r#"["ab","a\nb"]"#;
    let mut d = JsonDeserializer::new(src);
    assert!(matches!(d.next().unwrap(), JsonToken::Event(Event::ArrayStart(_))));
    match d.next().unwrap() {
        JsonToken::Event(Event::Str(CowStr::Borrowed(t))) => {
            assert_eq!(t, "ab");
            assert_eq!(t.as_ptr(), src[2..].as_ptr());
        }
        other => panic!("expected a borrowed string, got {:?}", other),
    }
    match d.next().unwrap() {
        JsonToken::Event(Event::Str(CowStr::Owned(o))) => assert_eq!(o, "a\nb"),
        other => panic!("expected an owned string, got {:?}", other),
    }
    let src = r#"{"k": "v", "\u006b2": 1}"#;
    let mut d = JsonDeserializer::new(src);
    assert!(matches!(d.next().unwrap(), JsonToken::Event(Event::MapStart(_))));
    assert!(matches!(d.next().unwrap(), JsonToken::Event(Event::Str(CowStr::Borrowed("k")))));
    assert!(matches!(d.next().unwrap(), JsonToken::Event(Event::Str(CowStr::Borrowed("v")))));
    assert!(matches!(d.next().unwrap(), JsonToken::Event(Event::Str(CowStr::Owned(ref o))) if o == "k2"));
}

#[test]
fn deserializer_from_bytes_checks_utf8() {
    let bytes = br#"["a\u00e9", "b"]"#;
    let mut de = JsonDeserializer::from_bytes(bytes).unwrap();
    assert_eq!(de.source().as_bytes(), &bytes[..]);
    assert!(matches!(de.next(), Ok(JsonToken::Event(Event::ArrayStart(_)))));
    assert!(matches!(de.next(), Ok(JsonToken::Event(Event::Str(s))) if s == "a\u{e9}"));

    let text = "[\"é\"]";
    let mut de = JsonDeserializer::from_bytes(text.as_bytes()).unwrap();
    assert!(matches!(de.next(), Ok(JsonToken::Event(Event::ArrayStart(_)))));
    assert!(matches!(de.next(), Ok(JsonToken::Event(Event::Str(CowStr::Borrowed(s)))) if s == "é"));

    assert!(matches!(JsonDeserializer::from_bytes(b"[\"\xff\"]"), Err(MerdeError::Utf8Error(_))));
    assert!(matches!(JsonDeserializer::from_bytes(b"\xc3"), Err(MerdeError::Utf8Error(_))));
}

#[test]
fn serializer_output_is_utf8() {
    let mut s = JsonSerializer::new(Vec::new());
    s.write(Event::MapStart(MapStart { size_hint: None }));
    s.write(Event::Str(CowStr::Borrowed("cl\u{e9}\u{1}")));
    s.write(Event::ArrayStart(ArrayStart { size_hint: None }));
    s.write(Event::Str(CowStr::Borrowed("\u{1f600}\"\\")));
    s.write(Event::I64(-42));
    s.write_float_text("1.5");
    s.write(Event::U64(u64::MAX));
    s.write(Event::ArrayEnd);
    s.write(Event::MapEnd);
    let text = String::from_utf8(s.into_inner()).unwrap();
    assert_eq!(
        text,
        "{\"cl\u{e9}\\u0001\":[\"\u{1f600}\\\"\\\\\",-42,1.5,18446744073709551615]}"
    );
}
