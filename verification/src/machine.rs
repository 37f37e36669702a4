//! The mathematical model of the parser: its state as a plain value, and
//! what every step does to it. The contracts of
//! [`JsonParser`](crate::JsonParser) are stated over this model.
use crate::error::ParserError;
use crate::event::JsonEvent;
use crate::table::{class_of, transition, Action, CharClass, Mode, State, Transition};
use crate::unicode::{combine_surrogates, hex4, is_high_surrogate, is_low_surrogate};
use vstd::prelude::*;
use vstd::utf8::encode_scalar;

verus! {

/// The state of a parser.
pub ghost struct Machine {
    /// The modes of the enclosing structures, innermost last.
    pub stack: Seq<Mode>,
    /// The largest number of modes that the stack may hold.
    pub max_depth: nat,
    /// Whether several top-level values are accepted.
    pub streaming: bool,
    /// The state of the automaton.
    pub state: State,
    /// The bytes of the scalar that is being read or has just been read.
    pub buffer: Seq<u8>,
    /// The event that the next call hands out, or `NeedMoreInput` if none
    /// is waiting.
    pub event1: JsonEvent,
    /// The event that follows `event1`, or `NeedMoreInput`.
    pub event2: JsonEvent,
    /// The number of bytes parsed so far.
    pub parsed_bytes: int,
    /// A byte that has been taken from the feeder and waits to be parsed
    /// again.
    pub putback: Option<u8>,
    /// Whether the last escape was the first half of a surrogate pair, so
    /// that the second half must follow at once.
    pub high_surrogate: bool,
    /// The error that ended parsing, if it has ended. After the end of the
    /// text has been reported this is `NoMoreInput`.
    pub halted: Option<ParserError>,
}

/// What one call of the parser comes to.
pub ghost struct Outcome {
    /// The state of the parser after the call.
    pub machine: Machine,
    /// The bytes that the call has left in the feeder.
    pub rest: Seq<u8>,
    /// What the call returns.
    pub result: Result<Option<JsonEvent>, ParserError>,
}

/// The byte that a one-letter escape stands for, by the letter that follows
/// the backslash.
pub open spec fn unescape(b: u8) -> Option<u8> {
    if b == 0x5C {
        Some(0x5Cu8)
    } else if b == 0x6E {
        Some(0x0Au8)
    } else if b == 0x72 {
        Some(0x0Du8)
    } else if b == 0x74 {
        Some(0x09u8)
    } else if b == 0x62 {
        Some(0x08u8)
    } else if b == 0x66 {
        Some(0x0Cu8)
    } else if b == 0x2F {
        Some(0x2Fu8)
    } else if b == 0x22 {
        Some(0x22u8)
    } else {
        None
    }
}

/// `buffer` with its last byte, if there is one, replaced by `b`.
pub open spec fn replace_last(buffer: Seq<u8>, b: u8) -> Seq<u8> {
    if buffer.len() > 0 {
        buffer.drop_last().push(b)
    } else {
        buffer.push(b)
    }
}

impl Machine {
    /// The state of a parser that has read nothing.
    pub open spec fn initial(max_depth: nat, streaming: bool) -> Machine {
        Machine {
            stack: seq![Mode::Done],
            max_depth,
            streaming,
            state: State::Start,
            buffer: Seq::empty(),
            event1: JsonEvent::NeedMoreInput,
            event2: JsonEvent::NeedMoreInput,
            parsed_bytes: 0,
            putback: None,
            high_surrogate: false,
            halted: None,
        }
    }

    /// The number of bytes that have been taken from the feeder: those
    /// that have been parsed, and the one that waits to be parsed again.
    pub open spec fn taken_in(self) -> int {
        if self.putback is Some {
            self.parsed_bytes + 1
        } else {
            self.parsed_bytes
        }
    }

    /// The innermost mode, if any.
    pub open spec fn top(self) -> Option<Mode> {
        if self.stack.len() > 0 {
            Some(self.stack.last())
        } else {
            None
        }
    }

    /// Whether nothing encloses the current position: the stack holds the
    /// bottom mode and nothing else.
    pub open spec fn at_top_level(self) -> bool {
        self.stack.len() == 1 && self.stack[0] == Mode::Done
    }

    /// Push a mode, unless the stack is as deep as it may get.
    pub open spec fn push(self, mode: Mode) -> Option<Machine> {
        if self.stack.len() >= self.max_depth {
            None
        } else {
            Some(Machine { stack: self.stack.push(mode), ..self })
        }
    }

    /// The machine without its innermost mode.
    pub open spec fn popped(self) -> Machine {
        Machine { stack: self.stack.drop_last(), ..self }
    }

    /// Pop the innermost mode, provided that it is `mode`.
    pub open spec fn pop(self, mode: Mode) -> Option<Machine> {
        if self.top() == Some(mode) {
            Some(self.popped())
        } else {
            None
        }
    }

    /// Close the structure of the given mode: if a number or a keyword ends
    /// here, its event goes out first and `end` second.
    pub open spec fn close(self, mode: Mode, end: JsonEvent) -> Result<Machine, ParserError> {
        match self.pop(mode) {
            None => Err(ParserError::SyntaxError),
            Some(m) => if self.state.event() is NeedMoreInput {
                Ok(Machine { state: State::Okay, event1: end, ..m })
            } else {
                Ok(Machine { state: State::Okay, event1: self.state.event(), event2: end, ..m })
            },
        }
    }

    /// Perform a structural action.
    pub open spec fn perform_action(self, action: Action) -> Result<Machine, ParserError> {
        match action {
            Action::EndEmptyObject => match self.pop(Mode::Key) {
                None => Err(ParserError::SyntaxError),
                Some(m) => Ok(Machine { state: State::Okay, event1: JsonEvent::EndObject, ..m }),
            },
            Action::EndObject => self.close(Mode::Object, JsonEvent::EndObject),
            Action::EndArray => self.close(Mode::Array, JsonEvent::EndArray),
            Action::StartObject => match self.push(Mode::Key) {
                None => Err(ParserError::SyntaxError),
                Some(m) => Ok(
                    Machine { state: State::Object, event1: JsonEvent::StartObject, ..m },
                ),
            },
            Action::StartArray => match self.push(Mode::Array) {
                None => Err(ParserError::SyntaxError),
                Some(m) => Ok(Machine { state: State::Array, event1: JsonEvent::StartArray, ..m }),
            },
            Action::EndString => if self.top() == Some(Mode::Key) {
                Ok(Machine { state: State::Colon, event1: JsonEvent::FieldName, ..self })
            } else {
                Ok(Machine { state: State::Okay, event1: JsonEvent::ValueString, ..self })
            },
            Action::Comma => if self.top() == Some(Mode::Object) {
                match self.popped().push(Mode::Key) {
                    None => Err(ParserError::SyntaxError),
                    Some(m) => Ok(Machine { state: State::Key, event1: self.state.event(), ..m }),
                }
            } else if self.top() == Some(Mode::Array) {
                Ok(Machine { state: State::Value, event1: self.state.event(), ..self })
            } else {
                Err(ParserError::SyntaxError)
            },
            Action::Colon => if self.top() == Some(Mode::Key) {
                match self.popped().push(Mode::Object) {
                    None => Err(ParserError::SyntaxError),
                    Some(m) => Ok(Machine { state: State::Value, ..m }),
                }
            } else {
                Err(ParserError::SyntaxError)
            },
        }
    }

    /// Whether `b` may follow the first half of a surrogate pair in the
    /// current state: the pair's second half must follow as `\uXXXX` with
    /// nothing in between.
    pub open spec fn continues_pair(self, b: u8) -> bool {
        match self.state {
            State::Text => b == 0x5C,
            State::Escape => b == 0x75,
            State::U1 | State::U2 | State::U3 | State::U4 => true,
            _ => false,
        }
    }

    /// What the table says for a byte of class `class`, after streaming
    /// recovery. Where a new top-level value begins right after a number,
    /// the number is completed first and the byte is put back.
    pub open spec fn resolve(self, b: u8, class: CharClass) -> (Transition, Machine) {
        let t = transition(self.state, class);
        if t is Recover {
            if self.streaming && self.at_top_level() {
                if self.state is Okay {
                    (transition(State::Start, class), self)
                } else {
                    (
                        Transition::Goto(State::Okay),
                        Machine {
                            putback: Some(b),
                            parsed_bytes: self.parsed_bytes - 1,
                            ..self
                        },
                    )
                }
            } else {
                (Transition::Reject, self)
            }
        } else {
            (t, self)
        }
    }

    /// The fourth hex digit `b` of a `\u` escape has arrived: the buffer
    /// ends in `\uXXX`. A code unit that is no surrogate replaces the
    /// escape by its UTF-8 encoding. The first half of a surrogate pair
    /// stays in the buffer as it was written; the second half replaces
    /// both escapes by the UTF-8 encoding of the pair's code point.
    pub open spec fn finish_unicode(self, b: u8) -> Result<Machine, ParserError> {
        let n = self.buffer.len() as int;
        if n < 5 {
            Err(ParserError::SyntaxError)
        } else {
            match hex4(self.buffer[n - 3], self.buffer[n - 2], self.buffer[n - 1], b) {
                None => Err(ParserError::SyntaxError),
                Some(unit) => if is_high_surrogate(unit) {
                    if self.high_surrogate {
                        Err(ParserError::SyntaxError)
                    } else {
                        Ok(
                            Machine {
                                buffer: self.buffer.push(b),
                                high_surrogate: true,
                                state: State::Text,
                                ..self
                            },
                        )
                    }
                } else if is_low_surrogate(unit) {
                    if !self.high_surrogate || n < 11 {
                        Err(ParserError::SyntaxError)
                    } else {
                        match hex4(
                            self.buffer[n - 9],
                            self.buffer[n - 8],
                            self.buffer[n - 7],
                            self.buffer[n - 6],
                        ) {
                            Some(high) => if is_high_surrogate(high) {
                                Ok(
                                    Machine {
                                        buffer: self.buffer.take(n - 11) + encode_scalar(
                                            combine_surrogates(high, unit),
                                        ),
                                        high_surrogate: false,
                                        state: State::Text,
                                        ..self
                                    },
                                )
                            } else {
                                Err(ParserError::SyntaxError)
                            },
                            None => Err(ParserError::SyntaxError),
                        }
                    }
                } else if self.high_surrogate {
                    Err(ParserError::SyntaxError)
                } else {
                    Ok(
                        Machine {
                            buffer: self.buffer.take(n - 5) + encode_scalar(unit as u32),
                            state: State::Text,
                            ..self
                        },
                    )
                },
            }
        }
    }

    /// Take the byte `b` into the value buffer on the way to the state
    /// `next`, in which a scalar is being collected. A scalar that begins
    /// here starts from an empty buffer; the opening quote of a string is
    /// not kept.
    pub open spec fn collect(self, next: State, b: u8) -> Result<Machine, ParserError> {
        if self.state.in_scalar() {
            if self.state is Escape {
                match unescape(b) {
                    Some(x) => Ok(
                        Machine { buffer: replace_last(self.buffer, x), state: next, ..self },
                    ),
                    None => Ok(Machine { buffer: self.buffer.push(b), state: next, ..self }),
                }
            } else if self.state is U4 {
                self.finish_unicode(b)
            } else {
                Ok(Machine { buffer: self.buffer.push(b), state: next, ..self })
            }
        } else if next is Text {
            Ok(Machine { buffer: Seq::empty(), state: next, ..self })
        } else {
            Ok(Machine { buffer: seq![b], state: next, ..self })
        }
    }

    /// Parse one byte.
    pub open spec fn parse(self, b: u8) -> Result<Machine, ParserError> {
        match class_of(b) {
            None => Err(ParserError::IllegalInput(b)),
            Some(class) => if self.high_surrogate && !self.continues_pair(b) {
                Err(ParserError::SyntaxError)
            } else {
                let (t, m) = self.resolve(b, class);
                match t {
                    Transition::Goto(next) => if next.in_scalar() {
                        m.collect(next, b)
                    } else if next is Okay {
                        Ok(Machine { event1: m.state.event(), state: next, ..m })
                    } else {
                        Ok(Machine { state: next, ..m })
                    },
                    Transition::Act(action) => m.perform_action(action),
                    _ => Err(ParserError::SyntaxError),
                }
            },
        }
    }

    /// The machine after parsing has ended with the error `e`.
    pub open spec fn halt(self, e: ParserError) -> Machine {
        Machine { halted: Some(e), ..self }
    }

    /// Count one byte and parse it. An error ends parsing and leaves the
    /// rest of the state as it was before the byte.
    #[verifier::opaque]
    pub open spec fn feed(self, b: u8) -> Machine {
        let counted = Machine { parsed_bytes: self.parsed_bytes + 1, ..self };
        match counted.parse(b) {
            Ok(m) => m,
            Err(e) => counted.halt(e),
        }
    }

    /// The machine after the byte that waited to be parsed again has been
    /// taken up.
    pub open spec fn taken(self) -> Machine {
        Machine { putback: None, ..self }
    }

    /// Whether the machine goes on reading: parsing has not ended, no event
    /// waits to be handed out and no byte waits to be parsed again.
    pub open spec fn quiet(self) -> bool {
        self.halted is None && self.event1 is NeedMoreInput && self.putback is None
    }

    /// The machine after its first waiting event has been handed out.
    pub open spec fn shift(self) -> Machine {
        Machine { event1: self.event2, event2: JsonEvent::NeedMoreInput, ..self }
    }

    /// What a call returns when it stops reading with `rest` left in the
    /// feeder: the error that ended parsing, else the first waiting event,
    /// else `NeedMoreInput`.
    pub open spec fn deliver(self, rest: Seq<u8>) -> Outcome {
        match self.halted {
            Some(e) => Outcome { machine: self, rest, result: Err(e) },
            None => if self.event1 is NeedMoreInput {
                Outcome { machine: self, rest, result: Ok(Some(JsonEvent::NeedMoreInput)) }
            } else {
                Outcome { machine: self.shift(), rest, result: Ok(Some(self.event1)) }
            },
        }
    }

    /// What a call returns when the feeder is done: the number or keyword
    /// that the end of the input completes; else, after a complete
    /// top-level value, the end of the text; else the error `NoMoreInput`.
    /// Both of the latter end parsing.
    pub open spec fn finish(self) -> Outcome {
        if !(self.state is Okay) && !(self.state.event() is NeedMoreInput) {
            Outcome {
                machine: Machine { state: State::Okay, ..self },
                rest: Seq::empty(),
                result: Ok(Some(self.state.event())),
            }
        } else if self.state is Okay && self.top() == Some(Mode::Done) {
            Outcome {
                machine: self.popped().halt(ParserError::NoMoreInput),
                rest: Seq::empty(),
                result: Ok(None),
            }
        } else {
            Outcome {
                machine: self.halt(ParserError::NoMoreInput),
                rest: Seq::empty(),
                result: Err(ParserError::NoMoreInput),
            }
        }
    }

    /// What one call of the parser comes to when the feeder offers the
    /// bytes `input` and, once they are gone, is done if and only if
    /// `closed`.
    pub open spec fn run(self, input: Seq<u8>, closed: bool) -> Outcome
        decreases input.len() + (if self.putback is Some {
            1nat
        } else {
            0nat
        }),
    {
        if !(self.halted is None && self.event1 is NeedMoreInput) {
            self.deliver(input)
        } else {
            match self.putback {
                Some(b) => {
                    let m = self.taken().feed(b);
                    if m.quiet() {
                        m.run(input, closed)
                    } else {
                        m.deliver(input)
                    }
                },
                None => if input.len() > 0 {
                    let m = self.feed(input[0]);
                    if m.quiet() {
                        m.run(input.skip(1), closed)
                    } else {
                        m.deliver(input.skip(1))
                    }
                } else if closed {
                    self.finish()
                } else {
                    self.deliver(input)
                },
            }
        }
    }
}

/// A byte is put back only together with the event of the number that it
/// ended: a machine that has just parsed a byte and still has no event to
/// hand out has no byte waiting either.
pub proof fn lemma_putback_comes_with_event(m: Machine, b: u8)
    requires
        m.putback is None,
    ensures
        m.feed(b).putback is Some ==> !(m.feed(b).event1 is NeedMoreInput) && m.feed(b).halted
            == m.halted,
        m.feed(b).taken_in() == m.parsed_bytes + 1,
{
    reveal(Machine::feed);
    let counted = Machine { parsed_bytes: m.parsed_bytes + 1, ..m };
    match class_of(b) {
        None => {},
        Some(class) => {
            let (t, r) = counted.resolve(b, class);
            if transition(counted.state, class) is Recover {
                assert(counted.state is Okay || counted.state.ends_number());
            }
            match t {
                Transition::Goto(next) => {
                    if next.in_scalar() && r.state is U4 {
                        assert(r.putback is None);
                    }
                },
                _ => {},
            }
        },
    }
}

/// Parsing a byte does not touch the error that ended parsing.
pub proof fn lemma_parse_keeps_going(m: Machine, b: u8)
    ensures
        m.parse(b) matches Ok(r) ==> r.halted == m.halted,
{
}

/// Inside a string, a printable ASCII byte other than the quote and the
/// backslash is appended to the value buffer and changes nothing else.
pub proof fn lemma_plain_text_byte(m: Machine, b: u8)
    requires
        m.state is Text,
        !m.high_surrogate,
        32 <= b <= 127,
        b != 0x5C,
        b != 0x22,
    ensures
        m.parse(b) == Ok::<Machine, ParserError>(Machine { buffer: m.buffer.push(b), ..m }),
{
    let class = class_of(b)->0;
    assert(transition(State::Text, class) == Transition::Goto(State::Text));
}

} // verus!
