use actson::feeder::{BufReaderJsonFeeder, JsonFeeder};
use actson::{JsonEvent, JsonParser};

/// A feeder that has not been filled has no input and is not done
#[test]
fn bufreader_empty_at_beginning() {
    let feeder = BufReaderJsonFeeder::new();
    assert!(!feeder.has_input());
    assert!(!feeder.is_done());
}

/// The feeder hands out chunk after chunk and is done after an empty chunk
#[test]
fn bufreader_read_chunks() {
    let expected = b"{\"name\": \"Elvis\", \"albums\": [1, 2, 3]}";
    let mut feeder = BufReaderJsonFeeder::new();
    let mut i = 0;
    for chunk in expected.chunks(7) {
        assert!(!feeder.has_input());
        feeder.fill_buf(chunk);
        assert!(feeder.has_input());
        while let Some(b) = feeder.next_input() {
            assert!(!feeder.is_done());
            assert_eq!(expected[i], b);
            i += 1;
        }
        assert!(!feeder.is_done());
    }
    assert_eq!(i, expected.len());
    feeder.fill_buf(b"");
    assert!(!feeder.has_input());
    assert!(feeder.is_done());
}

/// Bytes that have not been taken stay in front of the next chunk
#[test]
fn bufreader_keeps_unread_bytes() {
    let mut feeder = BufReaderJsonFeeder::new();
    feeder.fill_buf(b"abc");
    assert_eq!(feeder.next_input(), Some(b'a'));
    feeder.fill_buf(b"de");
    assert_eq!(feeder.next_input(), Some(b'b'));
    feeder.fill_buf(b"");
    assert!(!feeder.is_done());
    assert_eq!(feeder.next_input(), Some(b'c'));
    assert_eq!(feeder.next_input(), Some(b'd'));
    assert_eq!(feeder.next_input(), Some(b'e'));
    assert_eq!(feeder.next_input(), None);
    assert!(!feeder.is_done());
    feeder.fill_buf(b"");
    assert!(feeder.is_done());
}

/// A parser can be fed chunk by chunk
#[test]
fn bufreader_parse_chunks() {
    let json = b"{\"name\": \"Elvis\", \"albums\": [1, 2, 3]}";
    let mut chunks = json.chunks(5);
    let mut parser = JsonParser::new(BufReaderJsonFeeder::new());
    let mut events = Vec::new();
    loop {
        match parser.next_event().unwrap() {
            Some(JsonEvent::NeedMoreInput) => parser.feeder.fill_buf(chunks.next().unwrap_or(b"")),
            Some(e) => events.push(e),
            None => break,
        }
    }
    assert_eq!(
        events,
        vec![
            JsonEvent::StartObject,
            JsonEvent::FieldName,
            JsonEvent::ValueString,
            JsonEvent::FieldName,
            JsonEvent::StartArray,
            JsonEvent::ValueInt,
            JsonEvent::ValueInt,
            JsonEvent::ValueInt,
            JsonEvent::EndArray,
            JsonEvent::EndObject,
        ]
    );
    assert_eq!(parser.parsed_bytes(), json.len());
}
