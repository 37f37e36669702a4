use super::JsonFeeder;
use vstd::prelude::*;

verus! {

/// A [`JsonFeeder`] for input that is read chunk by chunk, as a buffered
/// reader delivers it. The feeder never reads by itself: whoever owns the
/// reader hands each chunk to [`fill_buf`](Self::fill_buf) when the parser
/// asks for more input, and hands over an empty chunk when the reader has
/// come to its end. The feeder is done once it has been filled and holds
/// nothing.
pub struct BufReaderJsonFeeder {
    buffer: Vec<u8>,
    filled: bool,
    pos: usize,
}

impl BufReaderJsonFeeder {
    /// The bytes that the feeder holds, those that have been taken
    /// included.
    pub closed spec fn held(&self) -> Seq<u8> {
        self.buffer@
    }

    /// The bytes that have been handed over and not been taken yet.
    pub closed spec fn unread(&self) -> Seq<u8> {
        if self.pos <= self.buffer@.len() {
            self.buffer@.skip(self.pos as int)
        } else {
            Seq::empty()
        }
    }

    /// Whether [`fill_buf`](Self::fill_buf) has been called.
    pub closed spec fn filled(&self) -> bool {
        self.filled
    }

    /// Create a new feeder, which holds nothing and has not been filled.
    pub fn new() -> (r: Self)
        ensures
            r.held() == Seq::<u8>::empty(),
            r.unread() == Seq::<u8>::empty(),
            !r.filled(),
    {
        BufReaderJsonFeeder { buffer: Vec::new(), filled: false, pos: 0 }
    }

    /// Fill the feeder with the chunk that the reader has delivered: the
    /// bytes that have been taken are dropped, and the chunk follows the
    /// bytes that have not. An empty chunk stands for the end of the
    /// input; it makes the feeder done as soon as nothing is left.
    pub fn fill_buf(&mut self, chunk: &[u8])
        ensures
            final(self).filled(),
            final(self).held() == old(self).unread() + chunk@,
            final(self).unread() == old(self).unread() + chunk@,
    {
        let mut buffer: Vec<u8> = Vec::new();
        let mut i: usize = self.pos;
        while i < self.buffer.len()
            invariant
                self.pos <= i,
                self.pos <= self.buffer@.len() ==> i <= self.buffer@.len() && buffer@
                    == self.buffer@.subrange(self.pos as int, i as int),
                self.pos > self.buffer@.len() ==> buffer@ == Seq::<u8>::empty(),
            decreases self.buffer@.len() - i,
        {
            buffer.push(self.buffer[i]);
            i += 1;
            assert(buffer@ =~= self.buffer@.subrange(self.pos as int, i as int));
        }
        assert(buffer@ =~= old(self).unread());
        let mut j: usize = 0;
        while j < chunk.len()
            invariant
                j <= chunk@.len(),
                buffer@ == old(self).unread() + chunk@.take(j as int),
            decreases chunk@.len() - j,
        {
            buffer.push(chunk[j]);
            j += 1;
            assert(buffer@ =~= old(self).unread() + chunk@.take(j as int));
        }
        assert(chunk@.take(j as int) =~= chunk@);
        self.buffer = buffer;
        self.filled = true;
        self.pos = 0;
        assert(self.buffer@.skip(0) =~= self.buffer@);
    }
}

impl Default for BufReaderJsonFeeder {
    fn default() -> (r: Self)
        ensures
            r.held() == Seq::<u8>::empty(),
            r.unread() == Seq::<u8>::empty(),
            !r.filled(),
    {
        Self::new()
    }
}

impl JsonFeeder for BufReaderJsonFeeder {
    open spec fn pending(&self) -> Seq<u8> {
        self.unread()
    }

    open spec fn closed(&self) -> bool {
        self.filled() && self.held().len() == 0
    }

    fn has_input(&self) -> (r: bool) {
        self.pos < self.buffer.len()
    }

    fn is_done(&self) -> (r: bool) {
        self.filled && self.buffer.len() == 0
    }

    fn next_input(&mut self) -> (r: Option<u8>)
        ensures
            final(self).held() == old(self).held(),
            final(self).filled() == old(self).filled(),
    {
        if self.pos < self.buffer.len() {
            let r = Some(self.buffer[self.pos]);
            self.pos += 1;
            assert(self.buffer@.skip(self.pos as int) =~= old(self).unread().skip(1));
            r
        } else {
            None
        }
    }
}

} // verus!
