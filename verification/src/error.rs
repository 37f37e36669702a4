use vstd::prelude::*;

verus! {

/// An error that can happen during parsing. Every such error is final: once
/// the parser has reported one, it reports the same error on every later
/// call and takes no more bytes from its feeder.
#[derive(Clone, Copy, Debug, PartialEq, Eq, Structural)]
pub enum ParserError {
    /// The JSON text contains an illegal byte (a control character that is
    /// not white space).
    IllegalInput(u8),
    /// The parsed text is not valid JSON.
    SyntaxError,
    /// There is nothing more to parse: the feeder is done, and either the
    /// JSON text ended prematurely or the parser was called again after it
    /// had reported the end of the text.
    NoMoreInput,
}

/// The error of reading the current value as a string: its bytes are not
/// valid UTF-8.
#[derive(Clone, Copy, Debug, PartialEq, Eq, Structural)]
pub struct InvalidStringValueError {
    /// The length of the longest prefix of the value that is valid UTF-8.
    pub valid_up_to: usize,
}

} // verus!
