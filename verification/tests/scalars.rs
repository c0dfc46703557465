use merde::scalars::{
    cast_f64_to_i64, cast_f64_to_u64, deserialize_bool, deserialize_i16, deserialize_i32, deserialize_i64,
    deserialize_i8, deserialize_isize, deserialize_str, deserialize_string, deserialize_u16, deserialize_u32,
    deserialize_u64, deserialize_u8, deserialize_usize,
};
use merde::{CowStr, Event, EventType, MerdeError};

#[test]
fn float_casts_truncate_and_saturate() {
    let cases: &[f64] = &[
        0.0, -0.0, 1.5, -1.5, 2.999, -2.999, 1e-300, 4503599627370497.0, 9.2e18, 9.3e18, -9.3e18, 1.8e19,
        2e19, -1e30, 1e30, f64::MAX, f64::MIN, f64::INFINITY, f64::NEG_INFINITY, f64::NAN, 5e-324,
        -9223372036854775808.0, 9223372036854775807.0,
    ];
    for &f in cases {
        assert_eq!(cast_f64_to_i64(f.to_bits()), f as i64, "i64 cast of {}", f);
        assert_eq!(cast_f64_to_u64(f.to_bits()), f as u64, "u64 cast of {}", f);
    }
}

#[test]
fn integers_from_events() {
    assert_eq!(deserialize_i64(Event::I64(-5)).unwrap(), -5);
    assert_eq!(deserialize_i64(Event::U64(5)).unwrap(), 5);
    assert!(matches!(deserialize_i64(Event::U64(u64::MAX)), Err(MerdeError::OutOfRange)));
    assert_eq!(deserialize_i64(Event::F64((-7.9f64).to_bits())).unwrap(), -7);
    assert_eq!(deserialize_u64(Event::I64(7)).unwrap(), 7);
    assert!(matches!(deserialize_u64(Event::I64(-1)), Err(MerdeError::OutOfRange)));
    assert_eq!(deserialize_u64(Event::F64((-7.9f64).to_bits())).unwrap(), 0);
    match deserialize_u64(Event::Null) {
        Err(MerdeError::UnexpectedEvent { got, expected, help }) => {
            assert_eq!(got, EventType::Null);
            assert_eq!(expected, vec![EventType::U64, EventType::I64, EventType::Float]);
            assert!(help.is_none());
        }
        other => panic!("unexpected: {:?}", other),
    }
    assert_eq!(deserialize_i32(Event::I64(-2147483648)).unwrap(), i32::MIN);
    assert!(matches!(deserialize_i32(Event::I64(2147483648)), Err(MerdeError::OutOfRange)));
    assert_eq!(deserialize_i16(Event::I64(-32768)).unwrap(), i16::MIN);
    assert!(matches!(deserialize_i16(Event::I64(32768)), Err(MerdeError::OutOfRange)));
    assert_eq!(deserialize_i8(Event::I64(127)).unwrap(), 127);
    assert!(matches!(deserialize_i8(Event::I64(-129)), Err(MerdeError::OutOfRange)));
    assert_eq!(deserialize_isize(Event::I64(-3)).unwrap(), -3);
    assert_eq!(deserialize_u32(Event::U64(4294967295)).unwrap(), u32::MAX);
    assert!(matches!(deserialize_u32(Event::U64(4294967296)), Err(MerdeError::OutOfRange)));
    assert_eq!(deserialize_u16(Event::U64(65535)).unwrap(), u16::MAX);
    assert!(matches!(deserialize_u16(Event::U64(65536)), Err(MerdeError::OutOfRange)));
    assert_eq!(deserialize_u8(Event::U64(0)).unwrap(), 0);
    assert!(matches!(deserialize_u8(Event::U64(256)), Err(MerdeError::OutOfRange)));
    assert_eq!(deserialize_usize(Event::U64(9)).unwrap(), 9);
}

#[test]
fn strings_and_booleans_from_events() {
    assert_eq!(deserialize_str(Event::Str(CowStr::from("x"))).unwrap(), "x");
    assert_eq!(deserialize_string(Event::Str(CowStr::from("y"))).unwrap(), "y".to_string());
    assert!(deserialize_bool(Event::Bool(true)).unwrap());
    match deserialize_bool(Event::I64(1)) {
        Err(MerdeError::UnexpectedEvent { got, expected, .. }) => {
            assert_eq!(got, EventType::I64);
            assert_eq!(expected, vec![EventType::Bool]);
        }
        other => panic!("unexpected: {:?}", other),
    }
}
