use merde::msgpack::{from_slice, MsgpackDeserializer};
use merde::{Array, CowBytes, CowStr, Event, MerdeError, Value};

/// The MessagePack document the original test reads: an array of 31 values.
fn test_input() -> Vec<u8> {
    let mut v: Vec<u8> = vec![0xdc, 0x00, 0x1f, 0xc0, 0xc2, 0xc3, 0x2a, 0xd0, 0x85, 0xce, 0x00, 0x0f, 0x42, 0x40, 0xd3, 0xff, 0xff, 0xff, 0xfd, 0xb3, 0x4f, 0xe9, 0x16, 0xcf, 0xff, 0xff, 0xff, 0xff, 0xff, 0xff, 0xff, 0xff, 0xca, 0x3f, 0x9e, 0x06, 0x10, 0xca, 0x00, 0x00, 0x00, 0x00, 0xca, 0x7f, 0x80, 0x00, 0x00, 0xca, 0xff, 0x80, 0x00, 0x00, 0xca, 0xff, 0x7f, 0xff, 0xff, 0xca, 0x7f, 0x7f, 0xff, 0xff, 0xcb, 0x3f, 0xf3, 0xc0, 0xca, 0x42, 0x83, 0xde, 0x1b, 0xcb, 0x00, 0x00, 0x00, 0x00, 0x00, 0x00, 0x00, 0x00, 0xcb, 0x7f, 0xf0, 0x00, 0x00, 0x00, 0x00, 0x00, 0x00, 0xcb, 0xff, 0xf0, 0x00, 0x00, 0x00, 0x00, 0x00, 0x00, 0xcb, 0xff, 0xef, 0xff, 0xff, 0xff, 0xff, 0xff, 0xff, 0xcb, 0x7f, 0xef, 0xff, 0xff, 0xff, 0xff, 0xff, 0xff, 0xcb, 0x2b, 0x2b, 0xff, 0x2e, 0xe4, 0x8e, 0x05, 0x30, 0xcb, 0x54, 0xb2, 0x49, 0xad, 0x25, 0x94, 0xc3, 0x7d, 0xb3, 0x48, 0x65, 0x6c, 0x6c, 0x6f, 0x2c, 0x20, 0x4d, 0x65, 0x73, 0x73, 0x61, 0x67, 0x65, 0x50, 0x61, 0x63, 0x6b, 0x21, 0xc4, 0x00, 0xc4, 0x04, 0xde, 0xad, 0xbe, 0xef, 0xc4, 0x08, 0x01, 0x02, 0x03, 0x04, 0x05, 0x06, 0x07, 0x08, 0xc5, 0x01, 0x00];
    v.extend(std::iter::repeat(0xffu8).take(256));
    v.extend_from_slice(&[0x90, 0x92, 0xc0, 0xc3, 0x82, 0xa4, 0x6b, 0x65, 0x79, 0x31, 0x01, 0xa4, 0x6b, 0x65, 0x79, 0x32, 0xcb, 0x40, 0x05, 0xb1, 0xc4, 0x32, 0xca, 0x57, 0xa8, 0x80]);
    v
}

fn f64_of(v: &Value) -> f64 {
    f64::from_bits(v.as_f64().unwrap())
}

#[test]
fn lib_test_deserialize() {
    let input = test_input();
    let value = from_slice(&input).unwrap();

    let array = value.as_array().unwrap();
    let mut iter = array.0.iter();

    assert_eq!(iter.next().unwrap(), &Value::Null);
    assert_eq!(iter.next().unwrap(), &Value::Bool(false));
    assert_eq!(iter.next().unwrap(), &Value::Bool(true));
    assert_eq!(iter.next().unwrap().as_u64().unwrap(), 42);
    assert_eq!(iter.next().unwrap().as_i64().unwrap(), -123);
    assert_eq!(iter.next().unwrap().as_u64().unwrap(), 1000000);
    assert_eq!(iter.next().unwrap().as_i64().unwrap(), -9876543210);
    assert_eq!(iter.next().unwrap().as_u64().unwrap(), 18446744073709551615);
    assert!((f64_of(iter.next().unwrap()) - 1.23456).abs() < 1e-5);
    assert_eq!(f64_of(iter.next().unwrap()), 0.0);
    let value = iter.next().unwrap();
    assert!(f64_of(value).is_infinite());
    assert!(f64_of(value).is_sign_positive());
    let value = iter.next().unwrap();
    assert!(f64_of(value).is_infinite());
    assert!(f64_of(value).is_sign_negative());
    assert_eq!(f64_of(iter.next().unwrap()), f32::MIN as f64);
    assert_eq!(f64_of(iter.next().unwrap()), f32::MAX as f64);
    assert!((f64_of(iter.next().unwrap()) - 1.23456789).abs() < 1e-8);
    assert_eq!(f64_of(iter.next().unwrap()), 0.0);
    let value = iter.next().unwrap();
    assert!(f64_of(value).is_infinite());
    assert!(f64_of(value).is_sign_positive());
    let value = iter.next().unwrap();
    assert!(f64_of(value).is_infinite());
    assert!(f64_of(value).is_sign_negative());
    assert_eq!(f64_of(iter.next().unwrap()), f64::MIN);
    assert_eq!(f64_of(iter.next().unwrap()), f64::MAX);
    assert!((f64_of(iter.next().unwrap()) - 1e-100).abs() < 1e-101);
    assert!((f64_of(iter.next().unwrap()) - 1e100).abs() < 1e99);
    assert_eq!(iter.next().unwrap().as_str().unwrap().as_str(), "Hello, MessagePack!");
    assert_eq!(iter.next().unwrap().as_bytes().unwrap().as_slice(), &[][..]);
    assert_eq!(
        iter.next().unwrap().as_bytes().unwrap().as_slice(),
        &[0xDE, 0xAD, 0xBE, 0xEF][..]
    );
    assert_eq!(
        iter.next().unwrap().as_bytes().unwrap().as_slice(),
        &[0x01, 0x02, 0x03, 0x04, 0x05, 0x06, 0x07, 0x08][..]
    );
    assert_eq!(iter.next().unwrap().as_bytes().unwrap().as_slice(), &[0xFF; 256][..]);
    assert_eq!(iter.next().unwrap().as_array().unwrap().len(), 0);
    assert_eq!(
        iter.next().unwrap().as_array().unwrap(),
        &Array(vec![Value::Null, Value::Bool(true)])
    );

    let map = iter.next().unwrap().as_map().unwrap();
    assert_eq!(map.len(), 2);
    assert_eq!(map.get("key1").unwrap().as_u64().unwrap(), 1);
    assert!((f64_of(map.get("key2").unwrap()) - 2.7118).abs() < 1e-4);

    assert!(iter.next().unwrap().as_map().unwrap().is_empty());
    assert!(iter.next().is_none());
}

#[test]
fn events_of_a_small_map() {
    // {"a": [1, -1]}
    let input = [0x81, 0xa1, b'a', 0x92, 0x01, 0xff];
    let mut de = MsgpackDeserializer::new(&input);
    assert!(matches!(de.next().unwrap(), Event::MapStart(m) if m.size_hint == Some(1)));
    assert!(matches!(de.next().unwrap(), Event::Str(s) if s == "a"));
    assert!(matches!(de.next().unwrap(), Event::ArrayStart(a) if a.size_hint == Some(2)));
    assert!(matches!(de.next().unwrap(), Event::U64(1)));
    assert!(matches!(de.next().unwrap(), Event::I64(-1)));
    assert!(matches!(de.next().unwrap(), Event::ArrayEnd));
    assert!(matches!(de.next().unwrap(), Event::MapEnd));
    assert!(is_eof(de.next()));
}

fn is_eof<T>(r: Result<T, MerdeError<'_>>) -> bool {
    matches!(r, Err(MerdeError::Io(e)) if e.kind() == std::io::ErrorKind::UnexpectedEof)
}

#[test]
fn put_back_event_comes_next() {
    let input = [0xc3];
    let mut de = MsgpackDeserializer::new(&input);
    de.put_back(Event::I64(7)).unwrap();
    assert!(matches!(de.next().unwrap(), Event::I64(7)));
    assert!(matches!(de.next().unwrap(), Event::Bool(true)));
}

#[test]
fn truncated_input_is_an_eof_error() {
    let input = [0xcd, 0x01];
    assert!(is_eof(from_slice(&input)));
    assert!(is_eof(from_slice(&[])));
    assert!(is_eof(MsgpackDeserializer::new(&[]).next()));
    assert!(is_eof(MsgpackDeserializer::new(&input).next()));
    let mut de = MsgpackDeserializer::new(&[0x92, 0x01, 0xff]);
    assert!(matches!(de.next().unwrap(), Event::ArrayStart(a) if a.size_hint == Some(2)));
    assert!(matches!(de.next().unwrap(), Event::U64(1)));
    assert!(matches!(de.next().unwrap(), Event::I64(-1)));
    assert!(matches!(de.next().unwrap(), Event::ArrayEnd));
    assert!(is_eof(de.next()));
    assert!(is_eof(Err::<(), _>(MerdeError::eof())));
}

#[test]
fn bad_utf8_string_is_an_error() {
    let input = [0xa2, 0xff, 0xfe];
    assert!(matches!(from_slice(&input), Err(MerdeError::Utf8Error(_))));
}

#[test]
fn unsupported_types_are_reported_in_hex() {
    match from_slice(&[0xc1]) {
        Err(MerdeError::BinaryParsingError { format, message }) => {
            assert_eq!(format, "msgpack");
            assert_eq!(message, "unsupported type 0xc1");
        }
        other => panic!("unexpected result: {:?}", other),
    }
    match from_slice(&[0xd4, 0x00, 0x00]) {
        Err(MerdeError::BinaryParsingError { message, .. }) => {
            assert_eq!(message, "unsupported extension type 0xd4");
        }
        other => panic!("unexpected result: {:?}", other),
    }
}

#[test]
fn non_string_map_keys_are_unexpected() {
    // {1: 2}
    match from_slice(&[0x81, 0x01, 0x02]) {
        Err(MerdeError::UnexpectedEvent { got, expected, help }) => {
            assert_eq!(got, merde::EventType::U64);
            assert_eq!(expected, vec![merde::EventType::Str, merde::EventType::MapEnd]);
            assert!(help.is_none());
        }
        other => panic!("unexpected result: {:?}", other),
    }
}

#[test]
fn f32_values_widen_exactly() {
    let bits = merde::msgpack::widen_f32_to_f64_bits(1.5f32.to_bits());
    assert_eq!(f64::from_bits(bits), 1.5);
    let tiny = f32::from_bits(1);
    assert_eq!(f64::from_bits(merde::msgpack::widen_f32_to_f64_bits(tiny.to_bits())), tiny as f64);
    let nan = merde::msgpack::widen_f32_to_f64_bits(f32::NAN.to_bits());
    assert!(f64::from_bits(nan).is_nan());
}

#[test]
fn borrowed_strings_point_into_the_input() {
    let input = [0xa2, b'h', b'i'];
    let v = from_slice(&input).unwrap();
    assert!(matches!(v.as_str().unwrap(), CowStr::Borrowed(_)));
}

#[test]
fn events_borrow_strings_and_bytes_from_the_input() {
    let input = [0x92, 0xa2, b'h', b'i', 0xc4, 0x02, 0x01, 0x02];
    let mut de = MsgpackDeserializer::new(&input);
    assert!(matches!(de.next().unwrap(), Event::ArrayStart(_)));
    match de.next().unwrap() {
        Event::Str(CowStr::Borrowed(s)) => {
            assert_eq!(s, "hi");
            assert_eq!(s.as_ptr(), input[2..].as_ptr());
        }
        other => panic!("unexpected event: {:?}", other),
    }
    match de.next().unwrap() {
        Event::Bytes(CowBytes::Borrowed(b)) => {
            assert_eq!(b, &[1u8, 2][..]);
            assert_eq!(b.as_ptr(), input[6..].as_ptr());
        }
        other => panic!("unexpected event: {:?}", other),
    }
    assert!(matches!(de.next().unwrap(), Event::ArrayEnd));
}
