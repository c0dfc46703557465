use merde::{CowStr, EventType, MerdeError, ValueType};

#[test]
fn messages_of_errors() {
    assert_eq!(
        MerdeError::MismatchedType { expected: ValueType::I64, found: ValueType::String }.message(),
        "Expected I64, found String"
    );
    assert_eq!(
        MerdeError::MismatchedType { expected: ValueType::Mapping, found: ValueType::Array }.message(),
        "Expected Map, found Array"
    );
    assert_eq!(MerdeError::MissingProperty(CowStr::from("name")).message(), "Missing property: name");
    assert_eq!(
        MerdeError::IndexOutOfBounds { index: 10, len: 3 }.message(),
        "Index out of bounds: index 10 is not valid for length 3"
    );
    assert_eq!(MerdeError::UnknownProperty(CowStr::from("x")).message(), "Unknown property: x");
    assert_eq!(MerdeError::OutOfRange.message(), "Value is out of range");
    assert_eq!(MerdeError::MissingValue.message(), "Missing value");
    assert_eq!(
        MerdeError::InvalidKey { key: CowStr::from("k\"1"), type_label: "u32" }.message(),
        "Invalid key: couldn't convert \"k\\\"1\" to type u32"
    );
    assert_eq!(MerdeError::InvalidDateTimeValue.message(), "Invalid date/time value");
    assert_eq!(
        MerdeError::UnexpectedEvent {
            got: EventType::Null,
            expected: vec![EventType::Str, EventType::MapEnd],
            help: Some("try a string".to_string()),
        }
        .message(),
        "Unexpected event: got Null, expected one of [Str, MapEnd] try a string"
    );
    assert_eq!(
        MerdeError::UnexpectedEvent { got: EventType::I64, expected: vec![], help: None }.message(),
        "Unexpected event: got I64, expected one of []"
    );
    assert_eq!(MerdeError::PutBackCalledTwice.message(), "put_back() was called twice");
    assert_eq!(
        MerdeError::BinaryParsingError { format: "msgpack", message: "bad".to_string() }.message(),
        "msgpack parsing error: bad"
    );
    assert!(MerdeError::eof().message().starts_with("I/O error: "));
}

#[test]
fn parsing_errors_show_their_context() {
    let e = MerdeError::StringParsingError {
        format: "json",
        source: CowStr::from("ab"),
        index: 1,
        message: "oops".to_string(),
    };
    let expected = "json parsing error: \x1b[31moops\x1b[0m\nSource: \
        \x1b[48;2;200;200;255m\x1b[97ma\x1b[0m\
        \x1b[48;2;255;200;200m\x1b[97mb\x1b[0m\n";
    assert_eq!(e.message(), expected);
}
