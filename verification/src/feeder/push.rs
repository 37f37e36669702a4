use super::JsonFeeder;
use crate::reset::Reset;
use std::collections::VecDeque;
use vstd::prelude::*;

verus! {

/// The number of bytes that a feeder made by [`PushJsonFeeder::new`] holds.
pub const DEFAULT_CAPACITY: usize = 1024;

/// The reason why a [`PushJsonFeeder`] did not take a byte.
#[derive(Clone, Copy, Debug, PartialEq, Eq, Structural)]
pub enum PushError {
    /// The feeder is full.
    Full,
}

/// A feeder that provides input to the [`JsonParser`](crate::JsonParser) in
/// a push-based manner. The caller takes care to push only as much as the
/// feeder can hold: use [`is_full`](Self::is_full) to find out whether it
/// accepts more, then call [`push_byte`](Self::push_byte) or
/// [`push_bytes`](Self::push_bytes) until there is nothing more to push or
/// the feeder is full. Next, call
/// [`JsonParser::next_event`](crate::JsonParser::next_event) until it
/// returns [`JsonEvent::NeedMoreInput`](crate::JsonEvent::NeedMoreInput).
/// Repeat until all input has been consumed, and finally call
/// [`done`](Self::done) to mark the end of the JSON text.
pub struct PushJsonFeeder {
    input: VecDeque<u8>,
    capacity: usize,
    done: bool,
}

impl PushJsonFeeder {
    /// The bytes that have been pushed and not yet taken, oldest first.
    pub closed spec fn queued(&self) -> Seq<u8> {
        self.input@
    }

    /// The number of queued bytes at which the feeder is full.
    pub closed spec fn capacity(&self) -> usize {
        self.capacity
    }

    /// Whether [`done`](Self::done) has been called.
    pub closed spec fn marked_done(&self) -> bool {
        self.done
    }

    /// The number of bytes that the feeder can still take.
    pub open spec fn free(&self) -> nat {
        if self.queued().len() >= self.capacity() {
            0
        } else {
            (self.capacity() - self.queued().len()) as nat
        }
    }

    /// Create a new push-based feeder that holds up to 1024 bytes.
    pub fn new() -> (r: Self)
        ensures
            r.queued() == Seq::<u8>::empty(),
            r.capacity() == DEFAULT_CAPACITY,
            !r.marked_done(),
    {
        PushJsonFeeder {
            input: VecDeque::with_capacity(DEFAULT_CAPACITY),
            capacity: DEFAULT_CAPACITY,
            done: false,
        }
    }

    /// Create a new push-based feeder that holds up to `capacity` bytes.
    pub fn with_capacity(capacity: usize) -> (r: Self)
        ensures
            r.queued() == Seq::<u8>::empty(),
            r.capacity() == capacity,
            !r.marked_done(),
    {
        PushJsonFeeder { input: VecDeque::with_capacity(capacity), capacity, done: false }
    }

    /// Provide one more byte to the parser. Fails, and changes nothing, if
    /// the feeder is full.
    pub fn push_byte(&mut self, b: u8) -> (r: Result<(), PushError>)
        ensures
            final(self).capacity() == old(self).capacity(),
            final(self).marked_done() == old(self).marked_done(),
            old(self).free() > 0 ==> r is Ok && final(self).queued() == old(self).queued().push(b),
            old(self).free() == 0 ==> r == Err::<(), PushError>(PushError::Full) && final(self).queued() == old(self).queued(),
    {
        if self.is_full() {
            return Err(PushError::Full);
        }
        self.input.push_back(b);
        Ok(())
    }

    /// Provide more bytes to the parser. Takes bytes from the front of
    /// `buf` until all of them have been taken or the feeder is full, and
    /// returns the number of bytes taken (which is 0 if the feeder accepts
    /// no input at the moment).
    pub fn push_bytes(&mut self, buf: &[u8]) -> (n: usize)
        ensures
            final(self).capacity() == old(self).capacity(),
            final(self).marked_done() == old(self).marked_done(),
            n == if buf@.len() <= old(self).free() {
                buf@.len()
            } else {
                old(self).free()
            },
            final(self).queued() == old(self).queued() + buf@.take(n as int),
    {
        let len = self.input.len();
        let free = if len >= self.capacity {
            0
        } else {
            self.capacity - len
        };
        let n = if buf.len() <= free {
            buf.len()
        } else {
            free
        };
        let mut i: usize = 0;
        while i < n
            invariant
                i <= n <= buf@.len(),
                self.capacity == old(self).capacity,
                self.done == old(self).done,
                self.input@ == old(self).input@ + buf@.take(i as int),
            decreases n - i,
        {
            self.input.push_back(buf[i]);
            i += 1;
            assert(buf@.take(i as int) =~= buf@.take(i - 1).push(buf@[i - 1]));
            assert(self.input@ =~= old(self).input@ + buf@.take(i as int));
        }
        n
    }

    /// Checks if the feeder is full. If it is, call
    /// [`JsonParser::next_event`](crate::JsonParser::next_event) until it
    /// returns [`JsonEvent::NeedMoreInput`](crate::JsonEvent::NeedMoreInput);
    /// only then can new input be pushed.
    pub fn is_full(&self) -> (r: bool)
        ensures
            r == (self.free() == 0),
    {
        self.input.len() >= self.capacity
    }

    /// Call this method to indicate that the end of the JSON text has been
    /// reached and that there is no more input to parse.
    pub fn done(&mut self)
        ensures
            final(self).marked_done(),
            final(self).queued() == old(self).queued(),
            final(self).capacity() == old(self).capacity(),
    {
        self.done = true;
    }
}

impl Default for PushJsonFeeder {
    fn default() -> (r: Self)
        ensures
            r.queued() == Seq::<u8>::empty(),
            r.capacity() == DEFAULT_CAPACITY,
            !r.marked_done(),
    {
        Self::new()
    }
}

impl JsonFeeder for PushJsonFeeder {
    open spec fn pending(&self) -> Seq<u8> {
        self.queued()
    }

    open spec fn closed(&self) -> bool {
        self.marked_done()
    }

    fn has_input(&self) -> (r: bool) {
        self.input.len() > 0
    }

    fn is_done(&self) -> (r: bool) {
        self.done && !self.has_input()
    }

    fn next_input(&mut self) -> (r: Option<u8>)
        ensures
            final(self).capacity() == old(self).capacity(),
    {
        let r = self.input.pop_front();
        proof {
            if r is Some {
                assert(self.input@ =~= old(self).input@.skip(1));
            }
        }
        r
    }
}

impl Reset for PushJsonFeeder {
    open spec fn is_fresh(&self) -> bool {
        self.queued() == Seq::<u8>::empty() && !self.marked_done()
    }

    /// Reset the feeder to the state it was in when it was constructed:
    /// nothing queued, not done, the capacity it was made with.
    fn reset(&mut self)
        ensures
            final(self).capacity() == old(self).capacity(),
    {
        self.input.clear();
        self.done = false;
    }
}

} // verus!
