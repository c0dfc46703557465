use merde::builder::ValueBuilder;
use merde::{Array, CowStr, Event, MapStart, Mapping, MerdeError, Value, ValueType};

fn sample() -> Value<'static> {
    Value::Mapping(
        Mapping::new()
            .with(CowStr::from("name"), Value::from("John Doe"))
            .with(CowStr::from("age"), Value::I64(42))
            .with(
                CowStr::from("friends"),
                Value::Array(Array::new().with(Value::from("Alice")).with(Value::from("Bob"))),
            )
            .with(CowStr::from("ratio"), Value::Float(0.5f64.to_bits()))
            .with(CowStr::from("blob"), Value::Bytes(merde::CowBytes::from(vec![1u8, 2]))),
    )
}

fn rebuild(v: &Value) -> Value<'static> {
    let mut events = Vec::new();
    v.serialize(&mut events);
    let mut b = ValueBuilder::new();
    let n = events.len();
    let mut result = None;
    for (i, ev) in events.into_iter().enumerate() {
        let out = b.feed(ev.into_static()).unwrap();
        if i + 1 < n {
            assert!(out.is_none());
        } else {
            result = out;
        }
    }
    result.unwrap()
}

#[test]
fn serialized_events_rebuild_the_value() {
    let v = sample();
    assert_eq!(rebuild(&v), v);
    let scalar = Value::U64(7);
    assert_eq!(rebuild(&scalar), scalar);
}

#[test]
fn map_equality_ignores_insertion_order() {
    let a = Mapping::new().with(CowStr::from("x"), Value::I64(1)).with(CowStr::from("y"), Value::I64(2));
    let b = Mapping::new().with(CowStr::from("y"), Value::I64(2)).with(CowStr::from("x"), Value::I64(1));
    assert_eq!(a, b);
    let c = Mapping::new().with(CowStr::from("x"), Value::I64(1));
    assert_ne!(a, c);
}

#[test]
fn insert_replaces_and_returns_the_old_value() {
    let mut m = Mapping::new();
    assert!(m.insert(CowStr::from("k"), Value::I64(1)).is_none());
    let old = m.insert(CowStr::from("k"), Value::I64(2)).unwrap();
    assert_eq!(old, Value::I64(1));
    assert_eq!(m.len(), 1);
    assert_eq!(m.get("k").unwrap(), &Value::I64(2));
    assert!(m.get("missing").is_none());
}

#[test]
fn floats_compare_like_ordered_floats() {
    let nan1 = Value::Float(f64::NAN.to_bits());
    let nan2 = Value::Float((-f64::NAN).to_bits());
    assert_eq!(nan1, nan2);
    assert_eq!(Value::Float(0.0f64.to_bits()), Value::Float((-0.0f64).to_bits()));
    assert_ne!(Value::Float(1.0f64.to_bits()), Value::Float(2.0f64.to_bits()));
}

#[test]
fn accessors_report_mismatches() {
    let v = Value::I64(5);
    assert_eq!(v.value_type(), ValueType::I64);
    assert_eq!(v.as_i64().unwrap(), 5);
    assert_eq!(v.as_u64().unwrap(), 5);
    assert!(matches!(
        v.as_str(),
        Err(MerdeError::MismatchedType { expected: ValueType::String, found: ValueType::I64 })
    ));
    assert!(matches!(Value::I64(-1).as_u64(), Err(MerdeError::OutOfRange)));
    assert!(matches!(
        Value::U64(u64::MAX).as_i64(),
        Err(MerdeError::MismatchedType { expected: ValueType::I64, found: ValueType::U64 })
    ));
    assert_eq!(Value::U64(3).as_i64().unwrap(), 3);
    assert!(matches!(
        Value::Null.as_map(),
        Err(MerdeError::MismatchedType { expected: ValueType::Mapping, found: ValueType::Null })
    ));
    assert_eq!(Value::Float(2.5f64.to_bits()).as_f64().unwrap(), 2.5f64.to_bits());
    assert!(Value::Bool(true).into_array().is_err());
}

#[test]
fn clone_and_into_static_keep_the_value() {
    let v = sample();
    assert_eq!(v.clone(), v);
    let text = String::from("borrowed");
    let b = Value::Array(Array(vec![Value::Str(CowStr::Borrowed(text.as_str()))]));
    let owned: Value<'static> = b.clone().into_static();
    assert_eq!(owned, b);
}

#[test]
fn builder_reports_unexpected_events() {
    let mut b = ValueBuilder::new();
    match b.feed(Event::MapEnd) {
        Err(MerdeError::UnexpectedEvent { got, expected, .. }) => {
            assert_eq!(got, merde::EventType::MapEnd);
            assert_eq!(expected.len(), 9);
        }
        other => panic!("unexpected: {:?}", other),
    }
    assert!(b.is_idle());
    assert!(b.feed(Event::MapStart(MapStart { size_hint: None })).unwrap().is_none());
    match b.feed(Event::Null) {
        Err(MerdeError::UnexpectedEvent { got, expected, .. }) => {
            assert_eq!(got, merde::EventType::Null);
            assert_eq!(expected, vec![merde::EventType::Str, merde::EventType::MapEnd]);
        }
        other => panic!("unexpected: {:?}", other),
    }
    assert!(b.feed(Event::Str(CowStr::from("k"))).unwrap().is_none());
    assert!(b.feed(Event::Bool(true)).unwrap().is_none());
    let v = b.feed(Event::MapEnd).unwrap().unwrap();
    assert_eq!(v, Value::Mapping(Mapping::new().with(CowStr::from("k"), Value::Bool(true))));
}

#[test]
fn conversions_into_values() {
    assert_eq!(Value::from(3i8), Value::I64(3));
    assert_eq!(Value::from(3u16), Value::U64(3));
    assert_eq!(Value::from(()), Value::Null);
    assert_eq!(Value::from(true), Value::Bool(true));
    assert_eq!(Value::from(String::from("s")), Value::from("s"));
    assert_eq!(Value::from(vec![Value::Null]), Value::Array(Array(vec![Value::Null])));
}
