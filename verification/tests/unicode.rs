use actson::feeder::SliceJsonFeeder;
use actson::parser::Engine;
use actson::unicode::{combine, hex_digit, high_surrogate, low_surrogate, parse_hex4, push_utf8};
use actson::JsonEvent;

#[test]
fn hex_digits() {
    assert_eq!(hex_digit(b'0'), Some(0));
    assert_eq!(hex_digit(b'9'), Some(9));
    assert_eq!(hex_digit(b'a'), Some(10));
    assert_eq!(hex_digit(b'f'), Some(15));
    assert_eq!(hex_digit(b'A'), Some(10));
    assert_eq!(hex_digit(b'F'), Some(15));
    for b in [b'g', b'G', b'/', b':', b'@', b'`', b' ', b'+', b'-', 0, 0x80, 0xff] {
        assert_eq!(hex_digit(b), None);
    }
}

#[test]
fn four_hex_digits() {
    assert_eq!(parse_hex4(b'0', b'0', b'0', b'0'), Some(0));
    assert_eq!(parse_hex4(b'0', b'0', b'4', b'1'), Some(0x41));
    assert_eq!(parse_hex4(b'2', b'0', b'a', b'C'), Some(0x20ac));
    assert_eq!(parse_hex4(b'd', b'8', b'3', b'D'), Some(0xd83d));
    assert_eq!(parse_hex4(b'F', b'f', b'F', b'f'), Some(0xffff));
    assert_eq!(parse_hex4(b'+', b'1', b'2', b'3'), None);
    assert_eq!(parse_hex4(b'1', b'2', b'3', b'x'), None);
    assert_eq!(parse_hex4(b'1', b' ', b'3', b'4'), None);
}

#[test]
fn surrogates() {
    for unit in [0xd800u16, 0xd83d, 0xdbff] {
        assert!(high_surrogate(unit));
        assert!(!low_surrogate(unit));
    }
    for unit in [0xdc00u16, 0xde00, 0xdfff] {
        assert!(low_surrogate(unit));
        assert!(!high_surrogate(unit));
    }
    for unit in [0u16, 0x41, 0xd7ff, 0xe000, 0xffff] {
        assert!(!low_surrogate(unit));
        assert!(!high_surrogate(unit));
    }
    assert_eq!(combine(0xd800, 0xdc00), 0x10000);
    assert_eq!(combine(0xd83d, 0xde00), 0x1f600);
    assert_eq!(combine(0xd834, 0xdd1e), 0x1d11e);
    assert_eq!(combine(0xdbff, 0xdfff), 0x10ffff);
}

#[test]
fn utf8_of_every_length() {
    for c in ['\0', 'A', '\u{7f}', '\u{80}', '\u{e9}', '\u{7ff}', '\u{800}', '\u{20ac}',
        '\u{d7ff}', '\u{e000}', '\u{ffff}', '\u{10000}', '\u{1f600}', '\u{10ffff}']
    {
        let mut buf = vec![b'x'];
        push_utf8(&mut buf, c as u32);
        let mut expected = vec![b'x'];
        expected.extend_from_slice(c.to_string().as_bytes());
        assert_eq!(buf, expected, "{:?}", c);
    }
}

#[test]
fn an_engine_reads_from_any_feeder() {
    let mut engine = Engine::new(4, false);
    let mut first = SliceJsonFeeder::new(b"[1,");
    let mut second = SliceJsonFeeder::new(b"22] ");
    assert_eq!(engine.next_event(&mut first), Ok(Some(JsonEvent::StartArray)));
    assert_eq!(engine.next_event(&mut first), Ok(Some(JsonEvent::ValueInt)));
    assert_eq!(engine.current_bytes(), b"1");
    assert_eq!(engine.current_int().unwrap(), 1);
    assert_eq!(engine.parsed_bytes(), 3);
    assert_eq!(engine.next_event(&mut second), Ok(Some(JsonEvent::ValueInt)));
    assert_eq!(engine.current_str().unwrap(), "22");
    assert_eq!(engine.next_event(&mut second), Ok(Some(JsonEvent::EndArray)));
    assert_eq!(engine.next_event(&mut second), Ok(None));
    assert_eq!(engine.parsed_bytes(), 7);
}
