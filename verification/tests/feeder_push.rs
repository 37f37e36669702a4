use actson::feeder::{JsonFeeder, PushError, PushJsonFeeder};
use actson::reset::Reset;

/// Test if the feeder is empty at the beginning
#[test]
fn push_empty_at_beginning() {
    let feeder = PushJsonFeeder::new();
    assert!(!feeder.has_input());
    assert!(!feeder.is_full());
    assert!(!feeder.is_done());
}

// Test that `has_input()` returns `true` after feeding a byte
#[test]
fn push_has_input() {
    let mut feeder = PushJsonFeeder::new();
    feeder.push_byte(b'a').unwrap();
    assert!(feeder.has_input());
}

/// Test that `is_full()` returns `true` if the buffer is actually full
#[test]
fn push_is_full() {
    let mut feeder = PushJsonFeeder::with_capacity(16);
    for i in 0..16 {
        assert!(!feeder.is_full());
        feeder.push_byte(b'a' + i).unwrap();
    }
    assert!(feeder.is_full());
}

/// Test if the feeder accepts a byte array
#[test]
fn push_feed_buf() {
    let mut feeder = PushJsonFeeder::with_capacity(16);
    let buf = "abcd".as_bytes();

    assert!(!feeder.is_full());
    assert!(!feeder.has_input());

    feeder.push_bytes(buf);

    assert!(!feeder.is_full());
    assert!(feeder.has_input());

    assert_eq!(feeder.next_input(), Some(b'a'));
    assert_eq!(feeder.next_input(), Some(b'b'));
    assert_eq!(feeder.next_input(), Some(b'c'));
    assert_eq!(feeder.next_input(), Some(b'd'));
    assert!(!feeder.is_full());
    assert!(!feeder.has_input());

    feeder.push_bytes(buf);
    assert!(!feeder.is_full());
    feeder.push_bytes(buf);
    assert!(!feeder.is_full());
    feeder.push_bytes(buf);
    assert!(!feeder.is_full());
    feeder.push_bytes(buf);
    assert!(feeder.is_full());
}

/// Test that `is_done()` returns `true` if `done()` has been called and the
/// input has been fully consumed
#[test]
fn push_is_done() {
    let mut feeder = PushJsonFeeder::new();
    assert!(!feeder.is_done());
    feeder.push_byte(b'a').unwrap();
    assert!(!feeder.is_done());
    feeder.done();
    assert!(!feeder.is_done());
    feeder.next_input();
    assert!(feeder.is_done());
}

/// Test that the feeder returns an error if it is full
#[test]
fn push_too_full() {
    let mut feeder = PushJsonFeeder::with_capacity(16);
    for i in 0..16 {
        feeder.push_byte(b'a' + i).unwrap();
    }
    assert!(feeder.is_full());
    assert!(matches!(feeder.push_byte(b'z'), Err(PushError::Full)));
}

/// Test if the feeder returns the correct input
fn assert_buf_eq(expected: &[u8], feeder: &mut PushJsonFeeder) {
    let mut i = 0;
    let mut j = 0;
    while i < expected.len() {
        while !feeder.is_full() && i < expected.len() {
            feeder.push_byte(expected[i]).unwrap();
            i += 1;
        }
        while feeder.has_input() {
            assert_eq!(feeder.next_input(), Some(expected[j]));
            j += 1;
        }
    }
    assert_eq!(j, expected.len());
    assert!(!feeder.has_input());
    assert!(!feeder.is_full());
}

/// Test if a short string can be decoded correctly
#[test]
fn push_short_string() {
    let mut feeder = PushJsonFeeder::with_capacity(16);
    assert_buf_eq(b"abcdef", &mut feeder);
}

/// Test if a long string (longer than the feeder's buffer size) can be
/// decoded correctly
#[test]
fn push_long_string() {
    let mut feeder = PushJsonFeeder::with_capacity(16);
    assert_buf_eq(b"abcdefghijklmnopqrstuvwxyz", &mut feeder);
}

/// Test if a very long string (much longer than the feeder's buffer size)
/// can be decoded correctly
#[test]
fn push_very_long_string() {
    let mut feeder = PushJsonFeeder::with_capacity(16);
    assert_buf_eq(
        b"abcdefghijklmnopqrstuvwxyzABCDEFGHIJKLMNOPQRSTUVWXYZabcdefghijklmnopqrstuvwxyz",
        &mut feeder,
    );
}

/// Pushing more than fits takes the front of the bytes and reports how many
#[test]
fn push_bytes_takes_what_fits() {
    let mut feeder = PushJsonFeeder::with_capacity(4);
    assert_eq!(feeder.push_bytes(b"abcdef"), 4);
    assert!(feeder.is_full());
    assert_eq!(feeder.push_bytes(b"xyz"), 0);
    assert_eq!(feeder.next_input(), Some(b'a'));
    assert_eq!(feeder.push_bytes(b"xyz"), 1);
    assert_eq!(feeder.next_input(), Some(b'b'));
    assert_eq!(feeder.next_input(), Some(b'c'));
    assert_eq!(feeder.next_input(), Some(b'd'));
    assert_eq!(feeder.next_input(), Some(b'x'));
    assert_eq!(feeder.next_input(), None);
}

/// A full feeder refuses a byte and keeps what it has
#[test]
fn push_byte_on_full_feeder_changes_nothing() {
    let mut feeder = PushJsonFeeder::with_capacity(1);
    assert_eq!(feeder.push_byte(b'a'), Ok(()));
    assert_eq!(feeder.push_byte(b'b'), Err(PushError::Full));
    assert_eq!(feeder.next_input(), Some(b'a'));
    assert_eq!(feeder.next_input(), None);
}

/// Resetting a feeder empties it and takes back `done()`
#[test]
fn push_reset() {
    let mut feeder = PushJsonFeeder::with_capacity(4);
    feeder.push_bytes(b"ab");
    feeder.done();
    feeder.reset();
    assert!(!feeder.has_input());
    assert!(!feeder.is_done());
    assert_eq!(feeder.push_bytes(b"abcdef"), 4);
}

/// The default feeder holds 1024 bytes
#[test]
fn push_default_capacity() {
    let mut feeder = PushJsonFeeder::default();
    let bytes = vec![b' '; 2000];
    assert_eq!(feeder.push_bytes(&bytes), 1024);
    assert!(feeder.is_full());
}
