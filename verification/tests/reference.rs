use actson::feeder::SliceJsonFeeder;
use actson::tree::{from_slice, JsonValue};
use actson::{JsonEvent, JsonParser};
use serde_json::{Number, Value};

const VALID: [&str; 24] = [
    "null",
    "true",
    "false",
    "0",
    "-0",
    "42",
    "-17",
    "3.25",
    "-1.5e3",
    "2E-2",
    "1e+2",
    "\"\"",
    "\"Elvis\"",
    "\"a \\\" b \\\\ c \\/ d \\b\\f\\n\\r\\t\"",
    "\"\\u0041\\u00e9\\u20ac\\ud83d\\ude00\"",
    "\"gr\u{fc}n \u{1F600}\"",
    "[]",
    "{}",
    " [ 1 , 2 , 3 ] ",
    "[[[]], [{}], {\"a\": []}]",
    "{\"name\": \"Elvis\", \"age\": 42, \"albums\": [\"a\", \"b\", {\"year\": 1960}]}",
    "{\"a\": {\"b\": {\"c\": [true, false, null, 1.5, \"x\"]}}}",
    "[1,2.5,\"three\",[4],{\"five\":5}]",
    "\t{\n\"k\"\r:\n[\n]\n}\n",
];

const INVALID: [&str; 40] = [
    "",
    " ",
    "nul",
    "tru",
    "fals",
    "truth",
    "nulll",
    "1e",
    "1e+",
    "1.",
    "01",
    "-",
    "+1",
    ".5",
    "1.5.5",
    "1 2",
    "\"abc",
    "\"a\\qb\"",
    "\"\\u12\"",
    "\"\\u12g4\"",
    "\"\\ud83d\"",
    "\"\\ud83dx\"",
    "\"\\ude00\"",
    "\"\\ud83d\\u0041\"",
    "[",
    "]",
    "[1",
    "[1,",
    "[1,]",
    "[,1]",
    "[1 2]",
    "[1}",
    "{",
    "}",
    "{\"a\"",
    "{\"a\":",
    "{\"a\":1",
    "{\"a\":1,}",
    "{\"a\" 1}",
    "{1:2}",
];

fn to_serde(v: &JsonValue) -> Value {
    match v {
        JsonValue::Null => Value::Null,
        JsonValue::Bool(b) => Value::Bool(*b),
        JsonValue::Int(i) => Value::Number(Number::from(*i)),
        JsonValue::Float(s) => Value::Number(Number::from_f64(s.parse::<f64>().unwrap()).unwrap()),
        JsonValue::String(s) => Value::String(s.clone()),
        JsonValue::Array(items) => Value::Array(items.iter().map(to_serde).collect()),
        JsonValue::Object(members) => {
            let mut m = serde_json::Map::new();
            for (k, v) in members {
                m.insert(k.clone(), to_serde(v));
            }
            Value::Object(m)
        }
    }
}

/// Write the events of a text down as a JSON text again
fn reserialize(json: &[u8]) -> String {
    let mut parser = JsonParser::new(SliceJsonFeeder::new(json));
    let mut out = String::new();
    // whether a comma is due before the next element, for each open structure
    let mut comma_due: Vec<bool> = Vec::new();
    while let Some(e) = parser.next_event().unwrap() {
        match e {
            JsonEvent::EndObject | JsonEvent::EndArray => {
                comma_due.pop();
            }
            JsonEvent::FieldName => {
                if comma_due.last() == Some(&true) {
                    out.push(',');
                }
            }
            _ => {
                if out.ends_with(':') {
                    // the value of a member
                } else if comma_due.last() == Some(&true) {
                    out.push(',');
                }
            }
        }
        match e {
            JsonEvent::NeedMoreInput => unreachable!(),
            JsonEvent::StartObject => {
                out.push('{');
                comma_due.push(false);
            }
            JsonEvent::StartArray => {
                out.push('[');
                comma_due.push(false);
            }
            JsonEvent::EndObject => out.push('}'),
            JsonEvent::EndArray => out.push(']'),
            JsonEvent::FieldName => {
                let name = Value::String(parser.current_str().unwrap().to_string());
                out.push_str(&serde_json::to_string(&name).unwrap());
                out.push(':');
            }
            JsonEvent::ValueString => {
                let s = Value::String(parser.current_str().unwrap().to_string());
                out.push_str(&serde_json::to_string(&s).unwrap());
            }
            JsonEvent::ValueInt | JsonEvent::ValueFloat => {
                out.push_str(parser.current_str().unwrap())
            }
            JsonEvent::ValueTrue => out.push_str("true"),
            JsonEvent::ValueFalse => out.push_str("false"),
            JsonEvent::ValueNull => out.push_str("null"),
        }
        if !matches!(e, JsonEvent::FieldName | JsonEvent::StartObject | JsonEvent::StartArray) {
            if let Some(last) = comma_due.last_mut() {
                *last = true;
            }
        }
    }
    out
}

/// The events of a valid text, written down again, make a text of the same
/// value
#[test]
fn valid_texts_round_trip() {
    for json in VALID {
        let expected: Value = serde_json::from_str(json).unwrap();
        let again = reserialize(json.as_bytes());
        let actual: Value = serde_json::from_str(&again).unwrap();
        assert_eq!(expected, actual, "{} -> {}", json, again);
    }
}

/// The tree of a valid text is the tree that the reference parser builds
#[test]
fn valid_texts_have_the_same_tree() {
    for json in VALID {
        if json == "-0" {
            // an integer here, a floating point number there
            assert_eq!(from_slice(json.as_bytes()).unwrap(), JsonValue::Int(0));
            continue;
        }
        let expected: Value = serde_json::from_str(json).unwrap();
        let actual = to_serde(&from_slice(json.as_bytes()).unwrap());
        assert_eq!(expected, actual, "{}", json);
    }
}

/// Where the reference parser rejects a text, this parser rejects it too
/// or has not read beyond the place of the error
#[test]
fn invalid_texts_are_not_read_beyond_the_error() {
    for json in INVALID {
        let error = serde_json::from_str::<Value>(json).unwrap_err();
        assert_eq!(error.line(), if json.is_empty() { 1 } else { error.line() });
        let place = error.column();
        let mut parser = JsonParser::new(SliceJsonFeeder::new(json.as_bytes()));
        let rejected = loop {
            match parser.next_event() {
                Ok(Some(_)) => {}
                Ok(None) => break false,
                Err(_) => break true,
            }
        };
        assert!(rejected || parser.parsed_bytes() <= place, "{}", json);
        assert!(parser.parsed_bytes() <= json.len());
    }
}

/// The texts that end in the middle of a keyword or of an exponent are
/// completed by the end of the input
#[test]
fn the_end_of_the_input_completes_a_scalar() {
    for (json, event) in [
        ("tru", JsonEvent::ValueTrue),
        ("fals", JsonEvent::ValueFalse),
        ("nul", JsonEvent::ValueNull),
        ("1e", JsonEvent::ValueFloat),
        ("1e+", JsonEvent::ValueFloat),
        ("12", JsonEvent::ValueInt),
        ("1.5", JsonEvent::ValueFloat),
    ] {
        let mut parser = JsonParser::new(SliceJsonFeeder::new(json.as_bytes()));
        assert_eq!(parser.next_event(), Ok(Some(event)), "{}", json);
        assert_eq!(parser.next_event(), Ok(None), "{}", json);
    }
    for json in ["t", "tr", "f", "n", "nu", "-", "1.", "\"a", "[1"] {
        let mut parser = JsonParser::new(SliceJsonFeeder::new(json.as_bytes()));
        let end = loop {
            match parser.next_event() {
                Ok(Some(_)) => {}
                other => break other,
            }
        };
        assert_eq!(end, Err(actson::error::ParserError::NoMoreInput), "{}", json);
    }
}

/// The parser does not look into the bytes of a string beyond ASCII: a
/// string that is not UTF-8 is handed out, and reading it reports the error
#[test]
fn a_string_that_is_not_utf8_is_handed_out() {
    let json = b"[\"\xff\"]";
    assert!(serde_json::from_slice::<Value>(json).is_err());
    let mut parser = JsonParser::new(SliceJsonFeeder::new(json));
    assert_eq!(parser.next_event(), Ok(Some(JsonEvent::StartArray)));
    assert_eq!(parser.next_event(), Ok(Some(JsonEvent::ValueString)));
    assert_eq!(parser.current_bytes(), b"\xff");
    assert_eq!(parser.current_str().unwrap_err().valid_up_to, 0);
    assert_eq!(parser.next_event(), Ok(Some(JsonEvent::EndArray)));
    assert_eq!(parser.next_event(), Ok(None));
}
