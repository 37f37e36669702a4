use super::JsonFeeder;
use ringbuffer::{AllocRingBuffer, RingBuffer};
use vstd::prelude::*;

verus! {

/// The number of bytes that a feeder made by [`DefaultJsonFeeder::new`]
/// holds.
pub const DEFAULT_RING_CAPACITY: usize = 1024;

/// The reason why a [`DefaultJsonFeeder`] did not take a byte.
#[derive(Clone, Copy, Debug, PartialEq, Eq, Structural)]
pub enum FeedError {
    /// The feeder is full.
    Full,
}

/// A ring buffer of bytes with a fixed capacity, kept by the `ringbuffer`
/// crate. What it holds is known only through [`ring_contents`],
/// [`ring_capacity`] and [`ring_written`].
#[verifier::external_body]
pub struct ByteRing {
    inner: AllocRingBuffer<u8>,
}

/// The bytes that a ring buffer holds, oldest first.
pub uninterp spec fn ring_contents(ring: ByteRing) -> Seq<u8>;

/// The capacity that a ring buffer was made with.
pub uninterp spec fn ring_capacity(ring: ByteRing) -> nat;

/// The number of bytes that a ring buffer has taken in since it was made.
pub uninterp spec fn ring_written(ring: ByteRing) -> nat;

/// Whether `n` is a power of two.
pub open spec fn is_power_of_two(n: usize) -> bool {
    n > 0 && n & ((n - 1) as usize) == 0
}

/// `AllocRingBuffer::new`: an empty ring buffer of the given capacity. The
/// crate accepts a capacity only if it is a power of two, and lays the
/// buffer out as an array of that many bytes, which must stay below
/// `isize::MAX`.
#[verifier::external_body]
fn ring_new(capacity: usize) -> (ring: ByteRing)
    requires
        is_power_of_two(capacity),
        capacity <= isize::MAX,
    ensures
        ring_contents(ring) == Seq::<u8>::empty(),
        ring_capacity(ring) == capacity,
        ring_written(ring) == 0,
{
    ByteRing { inner: AllocRingBuffer::new(capacity) }
}

/// `RingBuffer::is_full` on an `AllocRingBuffer`: whether the buffer holds
/// as many bytes as its capacity, beyond which its length never grows.
#[verifier::external_body]
fn ring_is_full(ring: &ByteRing) -> (r: bool)
    ensures
        r ==> ring_contents(*ring).len() == ring_capacity(*ring),
        !r ==> ring_contents(*ring).len() < ring_capacity(*ring),
{
    ring.inner.is_full()
}

/// `RingBuffer::is_empty` on an `AllocRingBuffer`: whether the buffer holds
/// no byte.
#[verifier::external_body]
fn ring_is_empty(ring: &ByteRing) -> (r: bool)
    ensures
        r == (ring_contents(*ring).len() == 0),
{
    ring.inner.is_empty()
}

/// `RingBuffer::push` on an `AllocRingBuffer`: appends the byte; a full
/// buffer first drops its oldest byte. The crate counts the bytes taken in
/// in a `usize`, which must not overflow.
#[verifier::external_body]
fn ring_push(ring: &mut ByteRing, b: u8)
    requires
        ring_written(*old(ring)) < usize::MAX,
    ensures
        ring_capacity(*final(ring)) == ring_capacity(*old(ring)),
        ring_written(*final(ring)) == ring_written(*old(ring)) + 1,
        ring_contents(*final(ring)) == if ring_contents(*old(ring)).len() == ring_capacity(*old(ring)) {
            ring_contents(*old(ring)).skip(1).push(b)
        } else {
            ring_contents(*old(ring)).push(b)
        },
{
    ring.inner.push(b)
}

/// `RingBuffer::dequeue` on an `AllocRingBuffer`: takes the oldest byte
/// out, or returns `None` and changes nothing if the buffer is empty.
#[verifier::external_body]
fn ring_dequeue(ring: &mut ByteRing) -> (r: Option<u8>)
    ensures
        ring_capacity(*final(ring)) == ring_capacity(*old(ring)),
        ring_written(*final(ring)) == ring_written(*old(ring)),
        ring_contents(*old(ring)).len() == 0 ==> r is None && ring_contents(*final(ring))
            == ring_contents(*old(ring)),
        ring_contents(*old(ring)).len() > 0 ==> r == Some(ring_contents(*old(ring))[0])
            && ring_contents(*final(ring)) == ring_contents(*old(ring)).skip(1),
{
    ring.inner.dequeue()
}

/// A feeder that keeps its input in a ring buffer of fixed capacity. Check
/// [`is_full`](Self::is_full), feed bytes with
/// [`feed_byte`](Self::feed_byte) or [`feed_bytes`](Self::feed_bytes), let
/// the parser consume them, and call [`done`](Self::done) after the last
/// byte.
pub struct DefaultJsonFeeder {
    input: ByteRing,
    done: bool,
}

impl DefaultJsonFeeder {
    /// The bytes that have been fed and not yet taken, oldest first.
    pub closed spec fn queued(&self) -> Seq<u8> {
        ring_contents(self.input)
    }

    /// The number of queued bytes at which the feeder is full.
    pub closed spec fn capacity(&self) -> nat {
        ring_capacity(self.input)
    }

    /// The number of bytes that the feeder has taken in so far.
    pub closed spec fn total_fed(&self) -> nat {
        ring_written(self.input)
    }

    /// Whether [`done`](Self::done) has been called.
    pub closed spec fn marked_done(&self) -> bool {
        self.done
    }

    /// The number of bytes that the feeder can still take.
    pub open spec fn free(&self) -> nat {
        if self.queued().len() >= self.capacity() {
            0
        } else {
            (self.capacity() - self.queued().len()) as nat
        }
    }

    /// Create a new feeder that holds up to 1024 bytes.
    pub fn new() -> (r: Self)
        ensures
            r.queued() == Seq::<u8>::empty(),
            r.capacity() == DEFAULT_RING_CAPACITY,
            r.total_fed() == 0,
            !r.marked_done(),
    {
        assert(is_power_of_two(1024)) by (bit_vector);
        DefaultJsonFeeder { input: ring_new(DEFAULT_RING_CAPACITY), done: false }
    }

    /// Create a new feeder that holds up to `capacity` bytes. The capacity
    /// is a power of two.
    pub fn with_capacity(capacity: usize) -> (r: Self)
        requires
            is_power_of_two(capacity),
            capacity <= isize::MAX,
        ensures
            r.queued() == Seq::<u8>::empty(),
            r.capacity() == capacity,
            r.total_fed() == 0,
            !r.marked_done(),
    {
        DefaultJsonFeeder { input: ring_new(capacity), done: false }
    }

    /// Provide one more byte to the parser. Fails, and changes nothing, if
    /// the feeder is full.
    pub fn feed_byte(&mut self, b: u8) -> (r: Result<(), FeedError>)
        requires
            old(self).total_fed() < usize::MAX,
        ensures
            final(self).capacity() == old(self).capacity(),
            final(self).marked_done() == old(self).marked_done(),
            old(self).free() > 0 ==> r is Ok && final(self).queued() == old(self).queued().push(b)
                && final(self).total_fed() == old(self).total_fed() + 1,
            old(self).free() == 0 ==> r == Err::<(), FeedError>(FeedError::Full) && final(
                self).queued() == old(self).queued() && final(self).total_fed() == old(
                self).total_fed(),
    {
        if self.is_full() {
            return Err(FeedError::Full);
        }
        ring_push(&mut self.input, b);
        Ok(())
    }

    /// Provide more bytes to the parser. Takes bytes from the front of
    /// `buf` until all of them have been taken or the feeder is full, and
    /// returns the number of bytes taken (which is 0 if the feeder accepts
    /// no input at the moment).
    pub fn feed_bytes(&mut self, buf: &[u8]) -> (n: usize)
        requires
            old(self).total_fed() + buf@.len() <= usize::MAX,
        ensures
            final(self).capacity() == old(self).capacity(),
            final(self).marked_done() == old(self).marked_done(),
            n == if buf@.len() <= old(self).free() {
                buf@.len()
            } else {
                old(self).free()
            },
            final(self).queued() == old(self).queued() + buf@.take(n as int),
            final(self).total_fed() == old(self).total_fed() + n,
    {
        let mut result: usize = 0;
        assert(buf@.take(0) =~= Seq::<u8>::empty());
        assert(old(self).queued() + Seq::<u8>::empty() =~= old(self).queued());
        while result < buf.len() && !ring_is_full(&self.input)
            invariant
                result <= buf@.len(),
                result <= old(self).free(),
                self.done == old(self).done,
                ring_capacity(self.input) == ring_capacity(old(self).input),
                ring_written(self.input) == ring_written(old(self).input) + result,
                ring_written(old(self).input) + buf@.len() <= usize::MAX,
                ring_contents(self.input) == ring_contents(old(self).input) + buf@.take(
                    result as int,
                ),
            ensures
                result == buf@.len() || ring_contents(self.input).len() == ring_capacity(
                    self.input,
                ),
            decreases buf@.len() - result,
        {
            ring_push(&mut self.input, buf[result]);
            result += 1;
            assert(buf@.take(result as int) =~= buf@.take(result - 1).push(buf@[result - 1]));
            assert(ring_contents(self.input) =~= ring_contents(old(self).input) + buf@.take(
                result as int,
            ));
        }
        result
    }

    /// Checks if the feeder is full. If it is, let the parser consume input
    /// until it asks for more; only then can new input be fed.
    pub fn is_full(&self) -> (r: bool)
        ensures
            r == (self.free() == 0),
    {
        ring_is_full(&self.input)
    }

    /// Call this method to indicate that the end of the JSON text has been
    /// reached and that there is no more input to parse.
    pub fn done(&mut self)
        ensures
            final(self).marked_done(),
            final(self).queued() == old(self).queued(),
            final(self).capacity() == old(self).capacity(),
            final(self).total_fed() == old(self).total_fed(),
    {
        self.done = true;
    }
}

impl Default for DefaultJsonFeeder {
    fn default() -> (r: Self)
        ensures
            r.queued() == Seq::<u8>::empty(),
            r.capacity() == DEFAULT_RING_CAPACITY,
            r.total_fed() == 0,
            !r.marked_done(),
    {
        Self::new()
    }
}

impl JsonFeeder for DefaultJsonFeeder {
    open spec fn pending(&self) -> Seq<u8> {
        self.queued()
    }

    open spec fn closed(&self) -> bool {
        self.marked_done()
    }

    fn has_input(&self) -> (r: bool) {
        !ring_is_empty(&self.input)
    }

    fn is_done(&self) -> (r: bool) {
        self.done && !self.has_input()
    }

    fn next_input(&mut self) -> (r: Option<u8>)
        ensures
            final(self).capacity() == old(self).capacity(),
            final(self).total_fed() == old(self).total_fed(),
    {
        ring_dequeue(&mut self.input)
    }
}

} // verus!
