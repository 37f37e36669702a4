use actson::feeder::{JsonFeeder, SliceJsonFeeder};

#[test]
fn empty() {
    let feeder = SliceJsonFeeder::new(b"");
    assert!(!feeder.has_input());
    assert!(feeder.is_done());
}

#[test]
fn consume_all() {
    let mut feeder = SliceJsonFeeder::new(b"Elvis");
    assert!(feeder.has_input());
    assert!(!feeder.is_done());
    assert_eq!(feeder.next_input(), Some(b'E'));
    assert_eq!(feeder.next_input(), Some(b'l'));
    assert_eq!(feeder.next_input(), Some(b'v'));
    assert_eq!(feeder.next_input(), Some(b'i'));
    assert_eq!(feeder.next_input(), Some(b's'));
    assert!(!feeder.has_input());
    assert!(feeder.is_done());
}

#[test]
fn slice_is_exhausted_for_good() {
    let mut feeder = SliceJsonFeeder::new(b"x");
    assert_eq!(feeder.next_input(), Some(b'x'));
    assert_eq!(feeder.next_input(), None);
    assert_eq!(feeder.next_input(), None);
    assert!(feeder.is_done());
}
