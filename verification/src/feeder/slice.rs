use super::JsonFeeder;
use vstd::prelude::*;

verus! {

/// A [`JsonFeeder`] that feeds the [`JsonParser`](crate::JsonParser) from a
/// slice of bytes. It is done as soon as the last byte has been taken.
pub struct SliceJsonFeeder<'a> {
    slice: &'a [u8],
    pos: usize,
}

impl<'a> SliceJsonFeeder<'a> {
    /// The bytes of the slice that have not been taken yet.
    pub closed spec fn remaining(&self) -> Seq<u8> {
        if self.pos <= self.slice@.len() {
            self.slice@.skip(self.pos as int)
        } else {
            Seq::empty()
        }
    }

    /// Create a new feeder that wraps around the given byte slice.
    pub fn new(slice: &'a [u8]) -> (r: Self)
        ensures
            r.pending() == slice@,
            r.closed(),
    {
        SliceJsonFeeder { slice, pos: 0 }
    }
}

impl<'a> JsonFeeder for SliceJsonFeeder<'a> {
    open spec fn pending(&self) -> Seq<u8> {
        self.remaining()
    }

    open spec fn closed(&self) -> bool {
        true
    }

    fn has_input(&self) -> (r: bool) {
        self.pos < self.slice.len()
    }

    fn is_done(&self) -> (r: bool) {
        !self.has_input()
    }

    fn next_input(&mut self) -> (r: Option<u8>) {
        if !self.has_input() {
            None
        } else {
            let r = Some(self.slice[self.pos]);
            self.pos += 1;
            r
        }
    }
}

} // verus!
