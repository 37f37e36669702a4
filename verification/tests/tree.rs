use actson::error::ParserError;
use actson::tree::{from_slice, IntoValueError, JsonValue};
use serde_json::{from_slice as serde_from_slice, Number, Value};

/// The same value in the terms of `serde_json`
fn to_serde(v: &JsonValue) -> Value {
    match v {
        JsonValue::Null => Value::Null,
        JsonValue::Bool(b) => Value::Bool(*b),
        JsonValue::Int(i) => Value::Number(Number::from(*i)),
        JsonValue::Float(s) => Value::Number(Number::from_f64(s.parse::<f64>().unwrap()).unwrap()),
        JsonValue::String(s) => Value::String(s.clone()),
        JsonValue::Array(items) => Value::Array(items.iter().map(to_serde).collect()),
        JsonValue::Object(members) => {
            let mut m = serde_json::Map::new();
            for (k, v) in members {
                m.insert(k.clone(), to_serde(v));
            }
            Value::Object(m)
        }
    }
}

/// Test that a top-level string value can be parsed
#[test]
fn top_level_string() {
    let json = r#""Elvis""#.as_bytes();
    assert_eq!(
        serde_from_slice::<Value>(json).unwrap(),
        to_serde(&from_slice(json).unwrap())
    );
}

/// Test that a top-level int value can be parsed
#[test]
fn top_level_int() {
    let json = r#"5"#.as_bytes();
    assert_eq!(
        serde_from_slice::<Value>(json).unwrap(),
        to_serde(&from_slice(json).unwrap())
    );
}

/// Test that a top-level float value can be parsed
#[test]
fn top_level_float() {
    let json = r#"-5.0"#.as_bytes();
    assert_eq!(
        serde_from_slice::<Value>(json).unwrap(),
        to_serde(&from_slice(json).unwrap())
    );
}

/// Test that an empty object is parsed correctly
#[test]
fn empty_object() {
    let json = r#"{}"#.as_bytes();
    assert_eq!(
        serde_from_slice::<Value>(json).unwrap(),
        to_serde(&from_slice(json).unwrap())
    );
}

/// Test that a simple object is parsed correctly
#[test]
fn mod_simple_object() {
    let json = r#"{"name": "Elvis"}"#.as_bytes();
    assert_eq!(
        serde_from_slice::<Value>(json).unwrap(),
        to_serde(&from_slice(json).unwrap())
    );
}

/// Test that an empty array is parsed correctly
#[test]
fn empty_array() {
    let json = r#"[]"#.as_bytes();
    assert_eq!(
        serde_from_slice::<Value>(json).unwrap(),
        to_serde(&from_slice(json).unwrap())
    );
}

/// Test that a simple array is parsed correctly
#[test]
fn simple_array() {
    let json = r#"["Elvis", "Max"]"#.as_bytes();
    assert_eq!(
        serde_from_slice::<Value>(json).unwrap(),
        to_serde(&from_slice(json).unwrap())
    );
}

/// Test that an array with mixed values is parsed correctly
#[test]
fn mixed_array() {
    let json = r#"["Elvis", 132, "Max", 80.67]"#.as_bytes();
    assert_eq!(
        serde_from_slice::<Value>(json).unwrap(),
        to_serde(&from_slice(json).unwrap())
    );
}

/// Test that embedded objects is parsed correctly
#[test]
fn embedded_objects() {
    let json = r#"{
            "name": "Elvis",
            "address": {"street": "Graceland", "city": "Memphis"},
            "albums": [
                "Elvis Presley",
                "Elvis",
                "Elvis' Christmas Album",
                "Elvis Is Back!",
                {
                    "title": "His Hand in Mine",
                    "year": 1960
                },
                "... any many others :)"
            ]
        }"#
    .as_bytes();
    assert_eq!(
        serde_from_slice::<Value>(json).unwrap(),
        to_serde(&from_slice(json).unwrap())
    );
}

/// Test that a premature end of input is reported correctly
#[test]
fn premature_end_of_input() {
    let json = r#"{"name":"#.as_bytes();
    assert!(matches!(
        from_slice(json),
        Err(IntoValueError::Parse(ParserError::NoMoreInput))
    ));
}

/// Test that a syntax error is reported correctly
#[test]
fn syntax_error() {
    let json = r#"{"name"}"#.as_bytes();
    assert!(matches!(
        from_slice(json),
        Err(IntoValueError::Parse(ParserError::SyntaxError))
    ));
}

/// The tree keeps the members of an object in the order of the text
#[test]
fn tree_in_document_order() {
    let json = br#"{"b": [true, false, null], "a": {"x": -1, "y": 2.5e3}, "b": "again"}"#;
    assert_eq!(
        from_slice(json).unwrap(),
        JsonValue::Object(vec![
            (
                "b".to_string(),
                JsonValue::Array(vec![
                    JsonValue::Bool(true),
                    JsonValue::Bool(false),
                    JsonValue::Null
                ])
            ),
            (
                "a".to_string(),
                JsonValue::Object(vec![
                    ("x".to_string(), JsonValue::Int(-1)),
                    ("y".to_string(), JsonValue::Float("2.5e3".to_string())),
                ])
            ),
            ("b".to_string(), JsonValue::String("again".to_string())),
        ])
    );
}

/// An empty text and a blank text end before any value is complete
#[test]
fn no_value_at_all() {
    assert!(matches!(from_slice(b""), Err(IntoValueError::Parse(ParserError::NoMoreInput))));
    assert!(matches!(from_slice(b" \n"), Err(IntoValueError::Parse(ParserError::NoMoreInput))));
}

/// An integer that does not fit is reported by the value, not by the parser
#[test]
fn integer_out_of_range() {
    assert_eq!(from_slice(b"9223372036854775807").unwrap(), JsonValue::Int(i64::MAX));
    assert_eq!(from_slice(b"-9223372036854775808").unwrap(), JsonValue::Int(i64::MIN));
    assert!(matches!(
        from_slice(b"9223372036854775808"),
        Err(IntoValueError::InvalidIntValue(_))
    ));
    assert!(matches!(
        from_slice(b"[-9223372036854775809]"),
        Err(IntoValueError::InvalidIntValue(_))
    ));
}

/// Bytes that are not UTF-8 are reported when the string is read
#[test]
fn string_that_is_not_utf8() {
    assert!(matches!(
        from_slice(b"\"a\xFFb\""),
        Err(IntoValueError::InvalidStringValue(e)) if e.valid_up_to == 1
    ));
    assert!(matches!(
        from_slice(b"{\"\xC3\": 1}"),
        Err(IntoValueError::InvalidStringValue(e)) if e.valid_up_to == 0
    ));
}

/// An illegal byte is reported with its value
#[test]
fn illegal_byte() {
    assert!(matches!(
        from_slice(b"[1, \x01]"),
        Err(IntoValueError::Parse(ParserError::IllegalInput(1)))
    ));
}

/// A second top-level value is a syntax error without streaming
#[test]
fn two_top_level_values() {
    assert!(matches!(from_slice(b"1 2"), Err(IntoValueError::Parse(ParserError::SyntaxError))));
    assert!(matches!(from_slice(b"[] []"), Err(IntoValueError::Parse(ParserError::SyntaxError))));
}
