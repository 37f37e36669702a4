//! A non-blocking, event-based JSON parser.
//!
//! The caller hands bytes to a feeder at its own pace and pulls events from
//! the parser at its own pace. The parser never waits for input: when the
//! feeder has nothing to offer and has not been closed,
//! [`JsonParser::next_event`] answers with [`JsonEvent::NeedMoreInput`] and
//! picks up exactly where it stopped on the next call.
//!
//! Every executable function carries a contract over a mathematical model of
//! the parser (see [`machine::Machine`]). What holds of every parser is
//! stated and proved over that model:
//!
//! - [`laws`]: the invariant of the parser's state; the count of parsed
//!   bytes; the bound on the depth; that the parser never blocks; that the
//!   events do not depend on how the input is cut into chunks; surrogate
//!   pairs;
//! - [`consistency`]: that the state of the automaton fits the stack;
//! - [`streaming`]: that a streaming parser reads a value after another
//!   value as it reads it alone;
//! - [`syntax`], [`reading`], [`roundtrip`] and [`building`]: that the
//!   parser reads every well-formed JSON text as the events and the tree
//!   that the text stands for;
//! - [`partial`], [`completing`] and [`tracking`]: that whatever the
//!   parser reads without rejecting it is the beginning of a well-formed
//!   JSON text.
pub mod building;
pub mod completing;
pub mod consistency;
pub mod error;
pub mod event;
pub mod feeder;
pub mod laws;
pub mod machine;
pub mod options;
pub mod parser;
pub mod partial;
pub mod reading;
pub mod reset;
pub mod roundtrip;
pub mod streaming;
pub mod syntax;
pub mod table;
pub mod tracking;
pub mod tree;
pub mod unicode;
pub mod value;

pub use event::JsonEvent;
pub use parser::JsonParser;
