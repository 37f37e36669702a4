use actson::feeder::{DefaultJsonFeeder, FeedError, JsonFeeder};

/// Test if the feeder returns the correct input
fn assert_buf_eq(expected: &[u8], feeder: &mut DefaultJsonFeeder) {
    let mut i = 0;
    let mut j = 0;
    while i < expected.len() {
        while !feeder.is_full() && i < expected.len() {
            feeder.feed_byte(expected[i]).unwrap();
            i += 1;
        }
        while feeder.has_input() {
            assert_eq!(feeder.next_input(), Some(expected[j]));
            j += 1;
        }
    }
    assert_eq!(j, expected.len());
    assert!(!feeder.has_input());
    assert!(!feeder.is_full());
}

/// Test if the feeder is empty at the beginning
#[test]
fn default_empty_at_beginning() {
    let feeder = DefaultJsonFeeder::new();
    assert!(!feeder.has_input());
    assert!(!feeder.is_full());
    assert!(!feeder.is_done());
}

// Test that `has_input()` returns `true` after feeding a byte
#[test]
fn default_has_input() {
    let mut feeder = DefaultJsonFeeder::new();
    feeder.feed_byte(b'a').unwrap();
    assert!(feeder.has_input());
}

/// Test that `is_full()` returns `true` if the buffer is actually full
#[test]
fn default_is_full() {
    let mut feeder = DefaultJsonFeeder::with_capacity(16);
    for i in 0..16 {
        assert!(!feeder.is_full());
        feeder.feed_byte(b'a' + i).unwrap();
    }
    assert!(feeder.is_full());
}

/// Test if the feeder accepts a byte array
#[test]
fn default_feed_buf() {
    let mut feeder = DefaultJsonFeeder::with_capacity(16);
    let buf = "abcd".as_bytes();

    assert!(!feeder.is_full());
    assert!(!feeder.has_input());

    feeder.feed_bytes(buf);

    assert!(!feeder.is_full());
    assert!(feeder.has_input());

    assert_eq!(feeder.next_input(), Some(b'a'));
    assert_eq!(feeder.next_input(), Some(b'b'));
    assert_eq!(feeder.next_input(), Some(b'c'));
    assert_eq!(feeder.next_input(), Some(b'd'));
    assert!(!feeder.is_full());
    assert!(!feeder.has_input());

    feeder.feed_bytes(buf);
    assert!(!feeder.is_full());
    feeder.feed_bytes(buf);
    assert!(!feeder.is_full());
    feeder.feed_bytes(buf);
    assert!(!feeder.is_full());
    feeder.feed_bytes(buf);
    assert!(feeder.is_full());
}

/// Test that `is_done()` returns `true` if `done()` has been called and the
/// input has been fully consumed
#[test]
fn default_is_done() {
    let mut feeder = DefaultJsonFeeder::new();
    assert!(!feeder.is_done());
    feeder.feed_byte(b'a').unwrap();
    assert!(!feeder.is_done());
    feeder.done();
    assert!(!feeder.is_done());
    feeder.next_input();
    assert!(feeder.is_done());
}

/// Test that the feeder returns an error if it is full
#[test]
fn default_too_full() {
    let mut feeder = DefaultJsonFeeder::with_capacity(16);
    for i in 0..16 {
        feeder.feed_byte(b'a' + i).unwrap();
    }
    assert!(feeder.is_full());
    assert_eq!(feeder.feed_byte(b'z'), Err(FeedError::Full));
}

/// Test if a short string can be decoded correctly
#[test]
fn default_short_string() {
    let mut feeder = DefaultJsonFeeder::with_capacity(16);
    assert_buf_eq(b"abcdef", &mut feeder);
}

/// Test if a long string (longer than the feeder's buffer size) can be
/// decoded correctly
#[test]
fn default_long_string() {
    let mut feeder = DefaultJsonFeeder::with_capacity(16);
    assert_buf_eq(b"abcdefghijklmnopqrstuvwxyz", &mut feeder);
}

/// Test if a very long string (much longer than the feeder's buffer size)
/// can be decoded correctly
#[test]
fn default_very_long_string() {
    let mut feeder = DefaultJsonFeeder::with_capacity(16);
    assert_buf_eq(
        b"abcdefghijklmnopqrstuvwxyzABCDEFGHIJKLMNOPQRSTUVWXYZabcdefghijklmnopqrstuvwxyz",
        &mut feeder,
    );
}

/// Feeding more than fits takes the front of the bytes and reports how many
#[test]
fn default_feed_bytes_takes_what_fits() {
    let mut feeder = DefaultJsonFeeder::with_capacity(4);
    assert_eq!(feeder.feed_bytes(b"abcdef"), 4);
    assert!(feeder.is_full());
    assert_eq!(feeder.feed_bytes(b"xyz"), 0);
    assert_eq!(feeder.next_input(), Some(b'a'));
    assert_eq!(feeder.feed_bytes(b"xyz"), 1);
    assert_eq!(feeder.next_input(), Some(b'b'));
    assert_eq!(feeder.next_input(), Some(b'c'));
    assert_eq!(feeder.next_input(), Some(b'd'));
    assert_eq!(feeder.next_input(), Some(b'x'));
    assert_eq!(feeder.next_input(), None);
}

/// A full feeder refuses a byte and keeps what it has
#[test]
fn default_feed_byte_on_full_feeder_changes_nothing() {
    let mut feeder = DefaultJsonFeeder::with_capacity(1);
    assert_eq!(feeder.feed_byte(b'a'), Ok(()));
    assert_eq!(feeder.feed_byte(b'b'), Err(FeedError::Full));
    assert_eq!(feeder.next_input(), Some(b'a'));
    assert_eq!(feeder.next_input(), None);
}

/// The default feeder holds 1024 bytes
#[test]
fn default_capacity() {
    let mut feeder = DefaultJsonFeeder::default();
    let bytes = vec![b' '; 2000];
    assert_eq!(feeder.feed_bytes(&bytes), 1024);
    assert!(feeder.is_full());
}
