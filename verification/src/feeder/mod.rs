//! Byte sources for the parser.
//!
//! A feeder answers three questions: is a byte available right now, has the
//! producer closed the input for good, and what is the next byte. Feeders
//! differ only in where their bytes come from.
pub mod bufreader;
pub mod default;
pub mod push;
pub mod slice;

pub use bufreader::BufReaderJsonFeeder;
pub use default::{DefaultJsonFeeder, FeedError};
pub use push::{PushError, PushJsonFeeder};
pub use slice::SliceJsonFeeder;

use vstd::prelude::*;

verus! {

/// A feeder provides input bytes to the [`JsonParser`](crate::JsonParser).
///
/// Its state is modelled by two values: the bytes that it can hand out
/// right now, in order ([`pending`](Self::pending)), and whether it counts
/// as done once those bytes are gone ([`closed`](Self::closed)). Taking a
/// byte never changes `closed`, so a feeder that is done stays done until
/// somebody other than the parser touches it.
pub trait JsonFeeder {
    /// The bytes that are available without any refill, oldest first.
    spec fn pending(&self) -> Seq<u8>;

    /// Whether the end of the input has been declared, so that the feeder is
    /// done as soon as nothing is pending.
    spec fn closed(&self) -> bool;

    /// Determine if the feeder has input data that can be parsed.
    fn has_input(&self) -> (r: bool)
        ensures
            r == (self.pending().len() > 0),
    ;

    /// Check if the end of the JSON text has been reached.
    fn is_done(&self) -> (r: bool)
        ensures
            r == (self.closed() && self.pending().len() == 0),
    ;

    /// Return the next byte to be parsed, or `None` if no byte is available
    /// at the moment.
    fn next_input(&mut self) -> (r: Option<u8>)
        ensures
            final(self).closed() == old(self).closed(),
            old(self).pending().len() == 0 ==> r is None && final(self).pending() == old(self).pending(),
            old(self).pending().len() > 0 ==> r == Some(old(self).pending()[0]) && final(self).pending() == old(self).pending().skip(1),
    ;
}

} // verus!
