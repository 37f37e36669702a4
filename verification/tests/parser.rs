use actson::error::ParserError;
use actson::feeder::{JsonFeeder, PushJsonFeeder, SliceJsonFeeder};
use actson::options::JsonParserOptionsBuilder;
use actson::{JsonEvent, JsonParser};

/// What a parser hands out for a text: the events with the text of each
/// field name, string and number, and how parsing ended.
fn events_of(parser: &mut JsonParser<SliceJsonFeeder>) -> (Vec<(JsonEvent, String)>, Option<ParserError>) {
    let mut events = Vec::new();
    loop {
        match parser.next_event() {
            Ok(Some(e)) => {
                let text = match e {
                    JsonEvent::FieldName
                    | JsonEvent::ValueString
                    | JsonEvent::ValueInt
                    | JsonEvent::ValueFloat => parser.current_str().unwrap().to_string(),
                    _ => String::new(),
                };
                events.push((e, text));
            }
            Ok(None) => return (events, None),
            Err(e) => return (events, Some(e)),
        }
    }
}

fn parse(json: &[u8]) -> (Vec<(JsonEvent, String)>, Option<ParserError>) {
    let mut parser = JsonParser::new(SliceJsonFeeder::new(json));
    events_of(&mut parser)
}

fn parse_stream(json: &[u8]) -> (Vec<(JsonEvent, String)>, Option<ParserError>) {
    let options = JsonParserOptionsBuilder::default().with_streaming(true).build();
    let mut parser = JsonParser::new_with_options(SliceJsonFeeder::new(json), options);
    events_of(&mut parser)
}

fn ev(e: JsonEvent) -> (JsonEvent, String) {
    (e, String::new())
}

fn evs(e: JsonEvent, s: &str) -> (JsonEvent, String) {
    (e, s.to_string())
}

#[test]
fn object_with_one_member() {
    let (events, end) = parse(br#"{"name": "Elvis"}"#);
    assert_eq!(
        events,
        vec![
            ev(JsonEvent::StartObject),
            evs(JsonEvent::FieldName, "name"),
            evs(JsonEvent::ValueString, "Elvis"),
            ev(JsonEvent::EndObject),
        ]
    );
    assert_eq!(end, None);
}

#[test]
fn array_of_integers() {
    let mut parser = JsonParser::new(SliceJsonFeeder::new(b"[1,2,3]"));
    assert_eq!(parser.next_event(), Ok(Some(JsonEvent::StartArray)));
    assert_eq!(parser.next_event(), Ok(Some(JsonEvent::ValueInt)));
    assert_eq!(parser.current_int().unwrap(), 1);
    assert_eq!(parser.next_event(), Ok(Some(JsonEvent::ValueInt)));
    assert_eq!(parser.current_int().unwrap(), 2);
    assert_eq!(parser.next_event(), Ok(Some(JsonEvent::ValueInt)));
    assert_eq!(parser.current_int().unwrap(), 3);
    assert_eq!(parser.next_event(), Ok(Some(JsonEvent::EndArray)));
    assert_eq!(parser.next_event(), Ok(None));
    assert_eq!(parser.parsed_bytes(), 7);
}

#[test]
fn top_level_negative_float() {
    let (events, end) = parse(b"-5.0");
    assert_eq!(events, vec![evs(JsonEvent::ValueFloat, "-5.0")]);
    assert_eq!(end, None);
    assert_eq!(events[0].1.parse::<f64>().unwrap(), -5.0);
}

#[test]
fn surrogate_pair_becomes_one_code_point() {
    let mut parser = JsonParser::new(SliceJsonFeeder::new(br#""\uD83D\uDE00""#));
    assert_eq!(parser.next_event(), Ok(Some(JsonEvent::ValueString)));
    assert_eq!(parser.current_str().unwrap().as_bytes(), &[0xF0, 0x9F, 0x98, 0x80]);
    assert_eq!(parser.current_str().unwrap(), "\u{1F600}");
    assert_eq!(parser.next_event(), Ok(None));
}

#[test]
fn premature_end_after_field_name() {
    let (events, end) = parse(br#"{"name":"#);
    assert_eq!(events, vec![ev(JsonEvent::StartObject), evs(JsonEvent::FieldName, "name")]);
    assert_eq!(end, Some(ParserError::NoMoreInput));
}

#[test]
fn missing_colon_after_field_name() {
    let (events, end) = parse(br#"{"name"}"#);
    assert_eq!(events, vec![ev(JsonEvent::StartObject), evs(JsonEvent::FieldName, "name")]);
    assert_eq!(end, Some(ParserError::SyntaxError));
}

#[test]
fn stream_of_values() {
    let (events, end) = parse_stream(b"1 2\"\"{\"key\":\"value\"}\n[\"a\",\"b\"]4true");
    assert_eq!(
        events,
        vec![
            evs(JsonEvent::ValueInt, "1"),
            evs(JsonEvent::ValueInt, "2"),
            evs(JsonEvent::ValueString, ""),
            ev(JsonEvent::StartObject),
            evs(JsonEvent::FieldName, "key"),
            evs(JsonEvent::ValueString, "value"),
            ev(JsonEvent::EndObject),
            ev(JsonEvent::StartArray),
            evs(JsonEvent::ValueString, "a"),
            evs(JsonEvent::ValueString, "b"),
            ev(JsonEvent::EndArray),
            evs(JsonEvent::ValueInt, "4"),
            ev(JsonEvent::ValueTrue),
        ]
    );
    assert_eq!(end, None);
}

#[test]
fn depth_overflow_is_a_syntax_error() {
    let json = vec![b'['; 2049];
    let mut parser = JsonParser::new_with_max_depth(SliceJsonFeeder::new(&json), 2048);
    let mut opened = 0;
    let end = loop {
        match parser.next_event() {
            Ok(Some(JsonEvent::StartArray)) => opened += 1,
            other => break other,
        }
    };
    assert_eq!(end, Err(ParserError::SyntaxError));
    assert_eq!(opened, 2047);
    assert_eq!(parser.parsed_bytes(), 2048);
}

#[test]
fn chunked_input_gives_the_same_events() {
    let mut parser = JsonParser::new(PushJsonFeeder::new());
    let mut events = Vec::new();
    assert_eq!(parser.feeder.push_bytes(br#"{"a":"#), 5);
    loop {
        let e = parser.next_event().unwrap().unwrap();
        events.push(e);
        if e == JsonEvent::NeedMoreInput {
            break;
        }
    }
    assert_eq!(parser.feeder.push_bytes(b"1}"), 2);
    parser.feeder.done();
    while let Some(e) = parser.next_event().unwrap() {
        events.push(e);
    }
    assert_eq!(
        events,
        vec![
            JsonEvent::StartObject,
            JsonEvent::FieldName,
            JsonEvent::NeedMoreInput,
            JsonEvent::ValueInt,
            JsonEvent::EndObject,
        ]
    );
    let (whole, end) = parse(br#"{"a":1}"#);
    let whole: Vec<JsonEvent> = whole.into_iter().map(|(e, _)| e).collect();
    let chunked: Vec<JsonEvent> =
        events.into_iter().filter(|e| *e != JsonEvent::NeedMoreInput).collect();
    assert_eq!(whole, chunked);
    assert_eq!(end, None);
    assert!(parser.feeder.is_done());
}

#[test]
fn escapes_are_decoded() {
    let (events, end) = parse(br#"["\" \\ \/ \b \f \n \r \t", "\u0041\u00e9\u20AC"]"#);
    assert_eq!(
        events,
        vec![
            ev(JsonEvent::StartArray),
            evs(JsonEvent::ValueString, "\" \\ / \u{8} \u{c} \n \r \t"),
            evs(JsonEvent::ValueString, "A\u{e9}\u{20ac}"),
            ev(JsonEvent::EndArray),
        ]
    );
    assert_eq!(end, None);
}

#[test]
fn unknown_escape_is_a_syntax_error() {
    let (events, end) = parse(br#""\x""#);
    assert_eq!(events, vec![]);
    assert_eq!(end, Some(ParserError::SyntaxError));
}

#[test]
fn malformed_unicode_escape_is_a_syntax_error() {
    assert_eq!(parse(br#""\u12G4""#).1, Some(ParserError::SyntaxError));
    assert_eq!(parse(br#""\u12""#).1, Some(ParserError::SyntaxError));
}

#[test]
fn surrogate_pairs_in_text() {
    let (events, end) = parse(br#""a\uD834\uDD1Eb\ud83d\ude00""#);
    assert_eq!(events, vec![evs(JsonEvent::ValueString, "a\u{1D11E}b\u{1F600}")]);
    assert_eq!(end, None);
}

#[test]
fn unpaired_surrogates_are_syntax_errors() {
    // a first half and nothing after it
    assert_eq!(parse(br#""\uD83D""#).1, Some(ParserError::SyntaxError));
    // a first half and another character
    assert_eq!(parse(br#""\uD83Dx""#).1, Some(ParserError::SyntaxError));
    // a first half and another escape
    assert_eq!(parse(br#""\uD83D\n""#).1, Some(ParserError::SyntaxError));
    // a first half and an escape that is no second half
    assert_eq!(parse(br#""\uD83D\u0041""#).1, Some(ParserError::SyntaxError));
    // two first halves in a row
    assert_eq!(parse(br#""\uD83D\uD83D""#).1, Some(ParserError::SyntaxError));
    // a second half without a first
    assert_eq!(parse(br#""\uDE00""#).1, Some(ParserError::SyntaxError));
    // a second half that does not follow at once
    assert_eq!(parse(br#""\uD83Dabc\uDE00""#).1, Some(ParserError::SyntaxError));
    // a first half at the end of the input
    assert_eq!(parse(br#""\uD83D"#).1, Some(ParserError::NoMoreInput));
    // a first half and a control character
    assert_eq!(parse(b"\"\\uD83D\x02\"").1, Some(ParserError::IllegalInput(2)));
}

#[test]
fn illegal_input_names_the_byte() {
    let (events, end) = parse(b"[\x00]");
    assert_eq!(events, vec![ev(JsonEvent::StartArray)]);
    assert_eq!(end, Some(ParserError::IllegalInput(0)));
    assert_eq!(parse(b"\x7f").1, Some(ParserError::SyntaxError));
    assert_eq!(parse(b"\"\x1f\"").1, Some(ParserError::IllegalInput(0x1f)));
    assert_eq!(parse(b"\xe4").1, Some(ParserError::SyntaxError));
}

#[test]
fn bytes_beyond_ascii_are_kept_in_strings() {
    let (events, end) = parse("\"gr\u{fc}n \u{1F600}\u{7f}\"".as_bytes());
    assert_eq!(events, vec![evs(JsonEvent::ValueString, "gr\u{fc}n \u{1F600}\u{7f}")]);
    assert_eq!(end, None);
}

#[test]
fn a_string_ends_at_a_line_break() {
    assert_eq!(parse(b"\"a\nb\"").1, Some(ParserError::SyntaxError));
    assert_eq!(parse(b"\"a\tb\"").1, Some(ParserError::SyntaxError));
}

#[test]
fn numbers() {
    let (events, end) = parse(b"[0, -0, 10, -12.5, 1e5, 1E-5, 2.0e+10, 0.1]");
    assert_eq!(
        events,
        vec![
            ev(JsonEvent::StartArray),
            evs(JsonEvent::ValueInt, "0"),
            evs(JsonEvent::ValueInt, "-0"),
            evs(JsonEvent::ValueInt, "10"),
            evs(JsonEvent::ValueFloat, "-12.5"),
            evs(JsonEvent::ValueFloat, "1e5"),
            evs(JsonEvent::ValueFloat, "1E-5"),
            evs(JsonEvent::ValueFloat, "2.0e+10"),
            evs(JsonEvent::ValueFloat, "0.1"),
            ev(JsonEvent::EndArray),
        ]
    );
    assert_eq!(end, None);
    for wrong in [&b"01"[..], b"-", b"1.", b".5", b"+1", b"1.e5", b"[1e]", b"[1e+]", b"0x10", b"--1"] {
        let end = parse(wrong).1;
        assert!(
            end == Some(ParserError::SyntaxError) || end == Some(ParserError::NoMoreInput),
            "{:?}",
            wrong
        );
    }
}

#[test]
fn keywords() {
    let (events, end) = parse(b"[true,false,null]");
    assert_eq!(
        events,
        vec![
            ev(JsonEvent::StartArray),
            ev(JsonEvent::ValueTrue),
            ev(JsonEvent::ValueFalse),
            ev(JsonEvent::ValueNull),
            ev(JsonEvent::EndArray),
        ]
    );
    assert_eq!(end, None);
    assert_eq!(parse(b"True").1, Some(ParserError::SyntaxError));
    assert_eq!(parse(b"[nul]").1, Some(ParserError::SyntaxError));
    assert_eq!(parse(b"tr").1, Some(ParserError::NoMoreInput));
}

#[test]
fn a_number_and_the_bracket_that_ends_it_come_in_order() {
    let mut parser = JsonParser::new(SliceJsonFeeder::new(b"{\"a\":[12]}"));
    let mut seen = Vec::new();
    while let Some(e) = parser.next_event().unwrap() {
        seen.push((e, parser.parsed_bytes()));
    }
    assert_eq!(
        seen,
        vec![
            (JsonEvent::StartObject, 1),
            (JsonEvent::FieldName, 4),
            (JsonEvent::StartArray, 6),
            (JsonEvent::ValueInt, 9),
            (JsonEvent::EndArray, 9),
            (JsonEvent::EndObject, 10),
        ]
    );
}

#[test]
fn mismatched_brackets_are_syntax_errors() {
    for wrong in [&b"[}"[..], b"{]", b"[1}", b"{\"a\":1]", b"]", b"}", b",", b"[,]", b"[1,]", b"{,}", b"{\"a\":1,}", b"{\"a\" 1}", b"{1:2}", b"[1 2]", b":"] {
        assert_eq!(parse(wrong).1, Some(ParserError::SyntaxError), "{:?}", wrong);
    }
}

#[test]
fn the_depth_bound_counts_the_bottom_of_the_stack() {
    let options = JsonParserOptionsBuilder::default().with_max_depth(3).build();
    assert_eq!(options.max_depth(), 3);
    assert!(!options.streaming());
    let mut parser = JsonParser::new_with_options(SliceJsonFeeder::new(b"[[1]]"), options);
    assert_eq!(events_of(&mut parser).1, None);
    let mut parser = JsonParser::new_with_options(SliceJsonFeeder::new(b"[[[1]]]"), options);
    let (events, end) = events_of(&mut parser);
    assert_eq!(events, vec![ev(JsonEvent::StartArray), ev(JsonEvent::StartArray)]);
    assert_eq!(end, Some(ParserError::SyntaxError));
    // an object takes one place on the stack, whether it reads a key or a value
    let mut parser =
        JsonParser::new_with_options(SliceJsonFeeder::new(br#"{"a":{"b":1}}"#), options);
    assert_eq!(events_of(&mut parser).1, None);
    let mut parser =
        JsonParser::new_with_options(SliceJsonFeeder::new(br#"{"a":{"b":{}}}"#), options);
    assert_eq!(events_of(&mut parser).1, Some(ParserError::SyntaxError));
    // with no room at all, only scalars are accepted
    let mut parser = JsonParser::new_with_max_depth(SliceJsonFeeder::new(b"1"), 0);
    assert_eq!(events_of(&mut parser), (vec![evs(JsonEvent::ValueInt, "1")], None));
    let mut parser = JsonParser::new_with_max_depth(SliceJsonFeeder::new(b"[]"), 0);
    assert_eq!(events_of(&mut parser).1, Some(ParserError::SyntaxError));
}

#[test]
fn default_options() {
    let options = JsonParserOptionsBuilder::default().build();
    assert_eq!(options.max_depth(), 2048);
    assert!(!options.streaming());
    assert_eq!(options, actson::options::JsonParserOptions::default());
    let options = JsonParserOptionsBuilder::default().with_streaming(true).with_max_depth(16).build();
    assert_eq!(options.max_depth(), 16);
    assert!(options.streaming());
}

#[test]
fn after_an_error_nothing_more_is_taken() {
    let mut parser = JsonParser::new(PushJsonFeeder::new());
    parser.feeder.push_bytes(b"[1 2, 3]");
    assert_eq!(parser.next_event(), Ok(Some(JsonEvent::StartArray)));
    assert_eq!(parser.next_event(), Ok(Some(JsonEvent::ValueInt)));
    assert_eq!(parser.next_event(), Err(ParserError::SyntaxError));
    let parsed = parser.parsed_bytes();
    assert_eq!(parsed, 4);
    assert_eq!(parser.next_event(), Err(ParserError::SyntaxError));
    assert_eq!(parser.next_event(), Err(ParserError::SyntaxError));
    assert_eq!(parser.parsed_bytes(), parsed);
    assert_eq!(parser.feeder.next_input(), Some(b','));
}

#[test]
fn after_the_end_there_is_no_more_input() {
    let mut parser = JsonParser::new(SliceJsonFeeder::new(b"[] "));
    assert_eq!(parser.next_event(), Ok(Some(JsonEvent::StartArray)));
    assert_eq!(parser.next_event(), Ok(Some(JsonEvent::EndArray)));
    assert_eq!(parser.next_event(), Ok(None));
    assert_eq!(parser.parsed_bytes(), 3);
    assert_eq!(parser.next_event(), Err(ParserError::NoMoreInput));
    assert_eq!(parser.next_event(), Err(ParserError::NoMoreInput));
}

#[test]
fn an_empty_text_has_no_value() {
    assert_eq!(parse(b""), (vec![], Some(ParserError::NoMoreInput)));
    assert_eq!(parse(b"  \n\t"), (vec![], Some(ParserError::NoMoreInput)));
}

#[test]
fn a_dry_feeder_does_not_block() {
    let mut parser = JsonParser::new(PushJsonFeeder::new());
    assert_eq!(parser.next_event(), Ok(Some(JsonEvent::NeedMoreInput)));
    assert_eq!(parser.next_event(), Ok(Some(JsonEvent::NeedMoreInput)));
    assert_eq!(parser.parsed_bytes(), 0);
    parser.feeder.push_bytes(b"[12");
    assert_eq!(parser.next_event(), Ok(Some(JsonEvent::StartArray)));
    assert_eq!(parser.next_event(), Ok(Some(JsonEvent::NeedMoreInput)));
    assert_eq!(parser.current_str().unwrap(), "12");
    assert_eq!(parser.next_event(), Ok(Some(JsonEvent::NeedMoreInput)));
    assert_eq!(parser.current_str().unwrap(), "12");
    assert_eq!(parser.parsed_bytes(), 3);
    parser.feeder.push_bytes(b"3]");
    assert_eq!(parser.next_event(), Ok(Some(JsonEvent::ValueInt)));
    assert_eq!(parser.current_int().unwrap(), 123);
    // the closing bracket waits in the queue: it needs no input
    assert_eq!(parser.next_event(), Ok(Some(JsonEvent::EndArray)));
    assert_eq!(parser.next_event(), Ok(Some(JsonEvent::NeedMoreInput)));
    parser.feeder.done();
    assert_eq!(parser.next_event(), Ok(None));
}

#[test]
fn every_way_of_cutting_the_input_gives_the_same_events() {
    let json = br#"{"a": [1, -2.5e3, "x\uD83D\uDE00\n", true], "b": {"c": null}} "#;
    let (whole, end) = parse(json);
    assert_eq!(end, None);
    for size in 1..json.len() {
        let mut parser = JsonParser::new(PushJsonFeeder::with_capacity(size));
        let mut events = Vec::new();
        let mut i = 0;
        loop {
            match parser.next_event().unwrap() {
                Some(JsonEvent::NeedMoreInput) => {
                    i += parser.feeder.push_bytes(&json[i..]);
                    if i == json.len() {
                        parser.feeder.done();
                    }
                }
                Some(e) => {
                    let text = match e {
                        JsonEvent::FieldName
                        | JsonEvent::ValueString
                        | JsonEvent::ValueInt
                        | JsonEvent::ValueFloat => parser.current_str().unwrap().to_string(),
                        _ => String::new(),
                    };
                    events.push((e, text));
                }
                None => break,
            }
        }
        assert_eq!(events, whole, "chunks of {}", size);
        assert_eq!(parser.parsed_bytes(), json.len());
    }
}

#[test]
fn streaming_puts_back_the_byte_that_ends_a_number() {
    let options = JsonParserOptionsBuilder::default().with_streaming(true).build();
    let mut parser = JsonParser::new_with_options(SliceJsonFeeder::new(b"12[3]4.5\"x\"6{}"), options);
    let mut seen = Vec::new();
    while let Some(e) = parser.next_event().unwrap() {
        seen.push((e, parser.parsed_bytes()));
    }
    assert_eq!(
        seen,
        vec![
            (JsonEvent::ValueInt, 2),
            (JsonEvent::StartArray, 3),
            (JsonEvent::ValueInt, 5),
            (JsonEvent::EndArray, 5),
            (JsonEvent::ValueFloat, 8),
            (JsonEvent::ValueString, 11),
            (JsonEvent::ValueInt, 12),
            (JsonEvent::StartObject, 13),
            (JsonEvent::EndObject, 14),
        ]
    );
    assert_eq!(parser.parsed_bytes(), 14);
}

#[test]
fn streaming_needs_a_separator_between_numbers() {
    assert_eq!(
        parse_stream(b"12 34"),
        (vec![evs(JsonEvent::ValueInt, "12"), evs(JsonEvent::ValueInt, "34")], None)
    );
    assert_eq!(parse_stream(b"1234"), (vec![evs(JsonEvent::ValueInt, "1234")], None));
    assert_eq!(parse_stream(b"1-2").1, Some(ParserError::SyntaxError));
    assert_eq!(parse_stream(b"[1][2").1, Some(ParserError::NoMoreInput));
    assert_eq!(parse_stream(b"[1 [2]]").1, Some(ParserError::SyntaxError));
    assert_eq!(parse_stream(b"1,2").1, Some(ParserError::SyntaxError));
}

#[test]
fn streaming_two_values_after_each_other() {
    let v1 = &br#"{"a": [1, 2]}"#[..];
    let v2 = &br#"[true, "x", 3.5]"#[..];
    let (e1, end1) = parse_stream(v1);
    let (e2, end2) = parse_stream(v2);
    assert_eq!((end1, end2), (None, None));
    for ws in [&b" "[..], b"\n", b" \t\r\n "] {
        let both = [v1, ws, v2].concat();
        let (e, end) = parse_stream(&both);
        assert_eq!(end, None);
        assert_eq!(e, [e1.clone(), e2.clone()].concat());
    }
}

#[test]
fn integer_values() {
    let mut parser = JsonParser::new(SliceJsonFeeder::new(b"[-42, 9223372036854775808, 1.5]"));
    assert_eq!(parser.next_event(), Ok(Some(JsonEvent::StartArray)));
    assert_eq!(parser.next_event(), Ok(Some(JsonEvent::ValueInt)));
    assert_eq!(parser.current_int().unwrap(), -42);
    assert_eq!(parser.next_event(), Ok(Some(JsonEvent::ValueInt)));
    assert!(parser.current_int().is_err());
    // the parser goes on after the value could not be read
    assert_eq!(parser.current_str().unwrap(), "9223372036854775808");
    assert_eq!(parser.next_event(), Ok(Some(JsonEvent::ValueFloat)));
    assert!(parser.current_int().is_err());
    assert_eq!(parser.current_str().unwrap().parse::<f64>().unwrap(), 1.5);
    assert_eq!(parser.next_event(), Ok(Some(JsonEvent::EndArray)));
    assert_eq!(parser.next_event(), Ok(None));
}

#[test]
fn string_value_that_is_not_utf8() {
    let mut parser = JsonParser::new(SliceJsonFeeder::new(b"[\"ab\xff\", 1]"));
    assert_eq!(parser.next_event(), Ok(Some(JsonEvent::StartArray)));
    assert_eq!(parser.next_event(), Ok(Some(JsonEvent::ValueString)));
    assert_eq!(parser.current_str().unwrap_err().valid_up_to, 2);
    assert_eq!(parser.next_event(), Ok(Some(JsonEvent::ValueInt)));
    assert_eq!(parser.current_int().unwrap(), 1);
}
