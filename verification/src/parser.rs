//! The parser: an automaton with a stack of modes, a value buffer and a
//! queue of two events, driven by the bytes of a feeder.
use crate::error::{InvalidStringValueError, ParserError};
use crate::event::JsonEvent;
use crate::consistency::{law_consistent, lemma_initial_consistent};
use crate::feeder::JsonFeeder;
use crate::laws::{lemma_initial_wf, lemma_run_wf};
use crate::machine::{
    lemma_parse_keeps_going, lemma_plain_text_byte, lemma_putback_comes_with_event,
    replace_last, unescape, Machine,
};
use crate::options::{JsonParserOptions, DEFAULT_MAX_DEPTH};
use crate::table::{classify, lookup, Action, Mode, State, Transition};
use crate::unicode::{combine, high_surrogate, low_surrogate, parse_hex4, push_utf8};
use crate::value::{btoi_i64, integer_text, str_from_utf8, InvalidIntValueError};
use vstd::prelude::*;
use vstd::utf8::{encode_utf8, valid_utf8};

verus! {

/// A non-blocking, event-based JSON parser: a feeder and the engine that
/// parses the feeder's bytes.
pub struct JsonParser<T> {
    /// The source of the bytes to parse.
    pub feeder: T,
    /// The state of the parser.
    pub engine: Engine,
}

/// The state of a parser: the automaton's state, the stack of modes, the
/// value buffer and the events that wait to be handed out.
pub struct Engine {
    /// The stack of the current modes.
    stack: Vec<Mode>,
    /// The maximum number of modes on the stack.
    depth: usize,
    /// `true` if the parser handles a stream of several JSON values.
    streaming: bool,
    /// The current state.
    state: State,
    /// Collects the bytes of the string or number that is being read.
    current_buffer: Vec<u8>,
    /// The first event to hand out.
    event1: JsonEvent,
    /// The second event to hand out.
    event2: JsonEvent,
    /// The number of bytes that have been parsed.
    parsed_bytes: usize,
    /// A byte that has been put back to be parsed again.
    putback_character: Option<u8>,
    /// Whether the first half of a surrogate pair has just been read.
    high_surrogate_pair: bool,
    /// The error that ended parsing.
    halted: Option<ParserError>,
}

impl<T> View for JsonParser<T> {
    type V = Machine;

    open spec fn view(&self) -> Machine {
        self.engine@
    }
}

impl View for Engine {
    type V = Machine;

    closed spec fn view(&self) -> Machine {
        Machine {
            stack: self.stack@,
            max_depth: self.depth as nat,
            streaming: self.streaming,
            state: self.state,
            buffer: self.current_buffer@,
            event1: self.event1,
            event2: self.event2,
            parsed_bytes: self.parsed_bytes as int,
            putback: self.putback_character,
            high_surrogate: self.high_surrogate_pair,
            halted: self.halted,
        }
    }
}

/// The byte that a one-letter escape stands for.
fn decode_escape(b: u8) -> (r: Option<u8>)
    ensures
        r == unescape(b),
{
    match b {
        0x5C => Some(0x5C),
        0x6E => Some(0x0A),
        0x72 => Some(0x0D),
        0x74 => Some(0x09),
        0x62 => Some(0x08),
        0x66 => Some(0x0C),
        0x2F => Some(0x2F),
        0x22 => Some(0x22),
        _ => None,
    }
}

impl<T: JsonFeeder> JsonParser<T> {
    /// Create a new JSON parser that reads from the given feeder, with a
    /// maximum stack depth of 2048 and without streaming.
    pub fn new(feeder: T) -> (r: Self)
        ensures
            r@ == Machine::initial(DEFAULT_MAX_DEPTH as nat, false),
            r.feeder == feeder,
            r@.wf(),
            r@.consistent(),
    {
        JsonParser { feeder, engine: Engine::new(DEFAULT_MAX_DEPTH, false) }
    }

    /// Create a new JSON parser that reads from the given feeder, with the
    /// given maximum stack depth. Superseded by
    /// [`new_with_options`](Self::new_with_options).
    pub fn new_with_max_depth(feeder: T, max_depth: usize) -> (r: Self)
        ensures
            r@ == Machine::initial(max_depth as nat, false),
            r.feeder == feeder,
            r@.wf(),
            r@.consistent(),
    {
        JsonParser { feeder, engine: Engine::new(max_depth, false) }
    }

    /// Create a new JSON parser that reads from the given feeder, with the
    /// given options.
    pub fn new_with_options(feeder: T, options: JsonParserOptions) -> (r: Self)
        ensures
            r@ == Machine::initial(options.spec_max_depth() as nat, options.spec_streaming()),
            r.feeder == feeder,
            r@.wf(),
            r@.consistent(),
    {
        JsonParser { feeder, engine: Engine::new(options.max_depth(), options.streaming()) }
    }

    /// Call this method to go on parsing the JSON text and to get the next
    /// event. The method returns `NeedMoreInput` if it needs more input from
    /// the feeder, and `None` at the end of the JSON text.
    ///
    /// The call takes bytes from the feeder until an event is due, the
    /// feeder runs dry, or a byte is wrong. After an error, and after the
    /// end of the text, every further call fails and takes nothing. The
    /// call keeps the invariant of the parser's state, and it keeps the
    /// state of the automaton fit for the stack. The count of parsed bytes
    /// must have room for the bytes that the feeder offers.
    pub fn next_event(&mut self) -> (r: Result<Option<JsonEvent>, ParserError>)
        requires
            old(self)@.taken_in() + old(self).feeder.pending().len() <= usize::MAX,
        ensures
            ({
                let o = old(self)@.run(old(self).feeder.pending(), old(self).feeder.closed());
                &&& r == o.result
                &&& final(self)@ == o.machine
                &&& final(self).feeder.pending() == o.rest
            }),
            final(self).feeder.closed() == old(self).feeder.closed(),
            old(self)@.wf() ==> final(self)@.wf(),
            old(self)@.wf() && old(self)@.consistent() && final(self)@.halted is None ==> final(
                self)@.consistent(),
    {
        self.engine.next_event(&mut self.feeder)
    }

    /// Get the bytes of the value that has just been parsed: the text of
    /// a field name or a string, with its escapes decoded, or the text of
    /// a number as it is written.
    pub fn current_bytes(&self) -> (r: &[u8])
        ensures
            r@ == self@.buffer,
    {
        self.engine.current_bytes()
    }

    /// Get the value of the string that has just been parsed. Call this
    /// function after you've received `FieldName` or `ValueString`; for a
    /// number it returns the number's text. The value stays available until
    /// the next call of [`next_event`](Self::next_event). It fails if the
    /// bytes of the value are not valid UTF-8.
    pub fn current_str(&self) -> (r: Result<&str, InvalidStringValueError>)
        ensures
            r is Ok <==> valid_utf8(self@.buffer),
            r matches Ok(s) ==> encode_utf8(s@) == self@.buffer,
            r matches Err(e) ==> e.valid_up_to <= self@.buffer.len() && valid_utf8(
                self@.buffer.take(e.valid_up_to as int),
            ) && forall|k: int|
                e.valid_up_to < k <= self@.buffer.len() ==> !valid_utf8(
                    #[trigger] self@.buffer.take(k),
                ),
    {
        self.engine.current_str()
    }

    /// Get the value of the integer that has just been parsed. Call this
    /// function after you've received `ValueInt`. It fails if the bytes of
    /// the value are not the digits of an integer after an optional sign,
    /// or if the integer does not fit in an `i64`.
    pub fn current_int(&self) -> (r: Result<i64, InvalidIntValueError>)
        ensures
            r matches Ok(v) ==> integer_text(self@.buffer) == Some(v as int),
            r is Ok <==> (integer_text(self@.buffer) matches Some(v) && i64::MIN <= v
                <= i64::MAX),
    {
        self.engine.current_int()
    }

    /// Return the number of bytes parsed so far.
    pub fn parsed_bytes(&self) -> (r: usize)
        ensures
            r == self@.parsed_bytes,
    {
        self.engine.parsed_bytes()
    }
}

impl Engine {
    /// Create the engine of a parser that has read nothing.
    pub fn new(max_depth: usize, streaming: bool) -> (r: Self)
        ensures
            r@ == Machine::initial(max_depth as nat, streaming),
            r@.wf(),
            r@.consistent(),
    {
        proof {
            lemma_initial_wf(max_depth as nat, streaming);
            lemma_initial_consistent(max_depth as nat, streaming);
        }
        let mut stack = Vec::new();
        stack.push(Mode::Done);
        let r = Engine {
            stack,
            depth: max_depth,
            streaming,
            state: State::Start,
            current_buffer: Vec::new(),
            event1: JsonEvent::NeedMoreInput,
            event2: JsonEvent::NeedMoreInput,
            parsed_bytes: 0,
            putback_character: None,
            high_surrogate_pair: false,
            halted: None,
        };
        assert(r@.stack =~= seq![Mode::Done]);
        r
    }

    /// Push to the stack. Returns `false`, and changes nothing, if the
    /// stack is as deep as it may get.
    fn push(&mut self, mode: Mode) -> (ok: bool)
        ensures
            match old(self)@.push(mode) {
                Some(m) => ok && final(self)@ == m,
                None => !ok && final(self)@ == old(self)@,
            },
    {
        if self.stack.len() >= self.depth {
            return false;
        }
        self.stack.push(mode);
        true
    }

    /// Pop the stack, provided that the innermost mode is `mode`. Returns
    /// `false`, and changes nothing, if the stack is empty or its innermost
    /// mode is another.
    fn pop(&mut self, mode: Mode) -> (ok: bool)
        ensures
            match old(self)@.pop(mode) {
                Some(m) => ok && final(self)@ == m,
                None => !ok && final(self)@ == old(self)@,
            },
    {
        let n = self.stack.len();
        if n == 0 || self.stack[n - 1] != mode {
            return false;
        }
        self.stack.pop();
        assert(self.stack@ =~= old(self).stack@.drop_last());
        true
    }

    /// Replace the innermost mode `from` by `to`. Returns `false`, and
    /// changes nothing, if the innermost mode is another or the stack
    /// without it is already as deep as it may get.
    fn flip(&mut self, from: Mode, to: Mode) -> (ok: bool)
        ensures
            old(self)@.top() == Some(from) ==> match old(self)@.popped().push(to) {
                Some(m) => ok && final(self)@ == m,
                None => !ok && final(self)@ == old(self)@,
            },
            old(self)@.top() != Some(from) ==> !ok && final(self)@ == old(self)@,
    {
        let n = self.stack.len();
        if n == 0 || self.stack[n - 1] != from || n - 1 >= self.depth {
            return false;
        }
        self.stack.pop();
        self.stack.push(to);
        assert(self.stack@ =~= old(self).stack@.drop_last().push(to));
        true
    }

    /// Get the next input byte: the one that has been put back, if any,
    /// else the next one of the feeder.
    fn get_next_input<T: JsonFeeder>(&mut self, feeder: &mut T) -> (r: Option<u8>)
        ensures
            final(feeder).closed() == old(feeder).closed(),
            old(self)@.putback is Some ==> r == old(self)@.putback && final(self)@ == old(
                self)@.taken() && final(feeder).pending() == old(feeder).pending(),
            old(self)@.putback is None ==> final(self)@ == old(self)@ && (old(
                feeder).pending().len() == 0 ==> r is None && final(feeder).pending() == old(
                feeder).pending()) && (old(feeder).pending().len() > 0 ==> r == Some(
                old(feeder).pending()[0]) && final(feeder).pending() == old(
                feeder).pending().skip(1)),
    {
        match self.putback_character {
            Some(b) => {
                self.putback_character = None;
                Some(b)
            },
            None => feeder.next_input(),
        }
    }

    /// Put back the given byte, to be parsed again at the next call of
    /// [`next_event`](Self::next_event). No other byte is waiting.
    fn put_back(&mut self, c: u8)
        requires
            old(self)@.putback is None,
            old(self)@.parsed_bytes >= 1,
        ensures
            final(self)@ == (Machine {
                putback: Some(c),
                parsed_bytes: old(self)@.parsed_bytes - 1,
                ..old(self)@
            }),
    {
        self.putback_character = Some(c);
        self.parsed_bytes -= 1;
    }

    /// Whether `b` may follow the first half of a surrogate pair in the
    /// current state.
    fn continues_pair(&self, b: u8) -> (r: bool)
        ensures
            r == self@.continues_pair(b),
    {
        match self.state {
            State::Text => b == 0x5C,
            State::Escape => b == 0x75,
            State::U1 | State::U2 | State::U3 | State::U4 => true,
            _ => false,
        }
    }

    /// Go on parsing with the bytes of `feeder` and return the next event:
    /// `NeedMoreInput` if the feeder has to be filled first, `None` at the
    /// end of the JSON text.
    pub fn next_event<T: JsonFeeder>(&mut self, feeder: &mut T) -> (r: Result<
        Option<JsonEvent>,
        ParserError,
    >)
        requires
            old(self)@.taken_in() + old(feeder).pending().len() <= usize::MAX,
        ensures
            ({
                let o = old(self)@.run(old(feeder).pending(), old(feeder).closed());
                &&& r == o.result
                &&& final(self)@ == o.machine
                &&& final(feeder).pending() == o.rest
            }),
            final(feeder).closed() == old(feeder).closed(),
            old(self)@.wf() ==> final(self)@.wf(),
            old(self)@.wf() && old(self)@.consistent() && final(self)@.halted is None ==> final(
                self)@.consistent(),
    {
        proof {
            if self@.wf() {
                lemma_run_wf(self@, feeder.pending(), feeder.closed());
                if self@.consistent() {
                    law_consistent(self@, feeder.pending(), feeder.closed());
                }
            }
        }
        if let Some(e) = self.halted {
            return Err(e);
        }
        let ghost closed = feeder.closed();
        let ghost goal = self@.run(feeder.pending(), closed);
        while self.event1 == JsonEvent::NeedMoreInput
            invariant
                self@.halted is None,
                closed == old(feeder).closed(),
                goal == old(self)@.run(old(feeder).pending(), closed),
                old(self)@.wf() ==> goal.machine.wf(),
                old(self)@.wf() && old(self)@.consistent() && goal.machine.halted is None
                    ==> goal.machine.consistent(),
                feeder.closed() == closed,
                self@.run(feeder.pending(), closed) == goal,
                self@.taken_in() + feeder.pending().len() <= usize::MAX,
            decreases 2 * (feeder.pending().len() + self@.taken_in() - self@.parsed_bytes) + (
                if self@.event1 is NeedMoreInput {
                    1int
                } else {
                    0int
                }),
        {
            match self.get_next_input(feeder) {
                Some(b) => {
                    proof {
                        lemma_putback_comes_with_event(self@, b);
                    }
                    if let Err(e) = self.feed(b) {
                        return Err(e);
                    }
                },
                None => {
                    if feeder.is_done() {
                        return self.finish();
                    }
                    return Ok(Some(JsonEvent::NeedMoreInput));
                },
            }
        }
        let r = self.event1;
        self.event1 = self.event2;
        self.event2 = JsonEvent::NeedMoreInput;
        Ok(Some(r))
    }

    /// Count and parse one byte. An error ends parsing.
    fn feed(&mut self, b: u8) -> (r: Result<(), ParserError>)
        requires
            old(self)@.putback is None,
            old(self)@.halted is None,
            0 <= old(self)@.parsed_bytes < usize::MAX,
        ensures
            final(self)@ == old(self)@.feed(b),
            match r {
                Ok(_) => final(self)@.halted is None,
                Err(e) => final(self)@.halted == Some(e),
            },
    {
        reveal(Machine::feed);
        self.parsed_bytes += 1;
        if matches!(self.state, State::Text) && !self.high_surrogate_pair && 32 <= b && b <= 127
            && b != 0x5C && b != 0x22 {
            // shortcut
            self.current_buffer.push(b);
            proof {
                lemma_plain_text_byte(
                    Machine { parsed_bytes: old(self)@.parsed_bytes + 1, ..old(self)@ },
                    b,
                );
            }
            Ok(())
        } else {
            match self.parse(b) {
                Ok(()) => {
                    proof {
                        lemma_parse_keeps_going(
                            Machine { parsed_bytes: old(self)@.parsed_bytes + 1, ..old(self)@ },
                            b,
                        );
                    }
                    Ok(())
                },
                Err(e) => {
                    self.halted = Some(e);
                    Err(e)
                },
            }
        }
    }

    /// The feeder is done: complete the number or keyword that the end of
    /// the input ends, or report the end of the text, or fail.
    fn finish(&mut self) -> (r: Result<Option<JsonEvent>, ParserError>)
        ensures
            r == old(self)@.finish().result,
            final(self)@ == old(self)@.finish().machine,
    {
        if !matches!(self.state, State::Okay) {
            let r = self.state_to_event();
            if r != JsonEvent::NeedMoreInput {
                self.state = State::Okay;
                return Ok(Some(r));
            }
        }
        if matches!(self.state, State::Okay) && self.pop(Mode::Done) {
            self.halted = Some(ParserError::NoMoreInput);
            Ok(None)
        } else {
            self.halted = Some(ParserError::NoMoreInput);
            Err(ParserError::NoMoreInput)
        }
    }

    /// Parse one byte of the JSON text. On success the state has moved on
    /// and at most two events are waiting; on failure nothing has changed.
    fn parse(&mut self, next_char: u8) -> (r: Result<(), ParserError>)
        requires
            old(self)@.putback is None,
            old(self)@.parsed_bytes >= 1,
        ensures
            match old(self)@.parse(next_char) {
                Ok(m) => r is Ok && final(self)@ == m,
                Err(e) => r == Err::<(), ParserError>(e) && final(self)@ == old(self)@,
            },
    {
        // determine the character's class.
        let next_class = match classify(next_char) {
            Some(c) => c,
            None => {
                return Err(ParserError::IllegalInput(next_char));
            },
        };

        // the second half of a surrogate pair must follow the first at once.
        if self.high_surrogate_pair && !self.continues_pair(next_char) {
            return Err(ParserError::SyntaxError);
        }

        // Get the next state from the state transition table.
        let mut next = lookup(self.state, next_class);

        // Try to recover if in streaming mode.
        if let Transition::Recover = next {
            if self.streaming && self.stack.len() == 1 && self.stack[0] == Mode::Done {
                // Streaming is enabled and we're in a state where we can
                // handle another JSON value.
                if matches!(self.state, State::Okay) {
                    // The previous value has been converted to an event.
                    // Look the byte up again, as at the start of a text.
                    next = lookup(State::Start, next_class);
                } else {
                    // Switch to the Okay state to convert the current value
                    // into an event. Put back the byte so that it will be
                    // parsed again.
                    next = Transition::Goto(State::Okay);
                    self.put_back(next_char);
                }
            } else {
                // Streaming is not enabled or we're not on the top level.
                next = Transition::Reject;
            }
        }

        match next {
            Transition::Goto(next_state) => {
                if next_state.collects() {
                    self.collect(next_state, next_char)
                } else {
                    if matches!(next_state, State::Okay) {
                        // end of token identified, convert state to result
                        self.event1 = self.state_to_event();
                    }
                    self.state = next_state;
                    Ok(())
                }
            },
            Transition::Act(action) => self.perform_action(action),
            _ => Err(ParserError::SyntaxError),
        }
    }

    /// Take a byte into the value buffer on the way to the state
    /// `next_state`, in which a scalar is being collected.
    fn collect(&mut self, next_state: State, next_char: u8) -> (r: Result<(), ParserError>)
        requires
            next_state.in_scalar(),
            old(self)@.state is U4 ==> next_state is Text,
        ensures
            match old(self)@.collect(next_state, next_char) {
                Ok(m) => r is Ok && final(self)@ == m,
                Err(e) => r == Err::<(), ParserError>(e) && final(self)@ == old(self)@,
            },
    {
        if self.state.collects() {
            if matches!(self.state, State::Escape) {
                match decode_escape(next_char) {
                    Some(x) => {
                        self.current_buffer.pop();
                        self.current_buffer.push(x);
                        assert(self.current_buffer@ =~= replace_last(
                            old(self).current_buffer@,
                            x,
                        ));
                    },
                    None => {
                        self.current_buffer.push(next_char);
                    },
                }
            } else if matches!(self.state, State::U4) {
                return self.finish_unicode(next_char);
            } else {
                self.current_buffer.push(next_char);
            }
        } else {
            self.current_buffer.clear();
            if !matches!(next_state, State::Text) {
                self.current_buffer.push(next_char);
                assert(self.current_buffer@ =~= seq![next_char]);
            }
        }
        self.state = next_state;
        Ok(())
    }

    /// The last hex digit of a `\u` escape has arrived: replace the escape
    /// in the value buffer by the UTF-8 encoding of what it stands for.
    fn finish_unicode(&mut self, next_char: u8) -> (r: Result<(), ParserError>)
        ensures
            match old(self)@.finish_unicode(next_char) {
                Ok(m) => r is Ok && final(self)@ == m,
                Err(e) => r == Err::<(), ParserError>(e) && final(self)@ == old(self)@,
            },
    {
        // the buffer ends in a backslash, `u` and three hex digits
        let n = self.current_buffer.len();
        if n < 5 {
            return Err(ParserError::SyntaxError);
        }
        let unit = match parse_hex4(
            self.current_buffer[n - 3],
            self.current_buffer[n - 2],
            self.current_buffer[n - 1],
            next_char,
        ) {
            Some(u) => u,
            None => {
                return Err(ParserError::SyntaxError);
            },
        };
        if high_surrogate(unit) {
            if self.high_surrogate_pair {
                return Err(ParserError::SyntaxError);
            }
            self.current_buffer.push(next_char);
            self.high_surrogate_pair = true;
        } else if low_surrogate(unit) {
            // the buffer ends in the first half's escape and five bytes of
            // the second's
            if !self.high_surrogate_pair || n < 11 {
                return Err(ParserError::SyntaxError);
            }
            let high = match parse_hex4(
                self.current_buffer[n - 9],
                self.current_buffer[n - 8],
                self.current_buffer[n - 7],
                self.current_buffer[n - 6],
            ) {
                Some(h) => h,
                None => {
                    return Err(ParserError::SyntaxError);
                },
            };
            if !high_surrogate(high) {
                return Err(ParserError::SyntaxError);
            }
            let code_point = combine(high, unit);
            self.current_buffer.truncate(n - 11);
            push_utf8(&mut self.current_buffer, code_point);
            self.high_surrogate_pair = false;
        } else {
            if self.high_surrogate_pair {
                return Err(ParserError::SyntaxError);
            }
            self.current_buffer.truncate(n - 5);
            push_utf8(&mut self.current_buffer, unit as u32);
        }
        self.state = State::Text;
        Ok(())
    }

    /// Close the structure of the given mode.
    fn close(&mut self, mode: Mode, end: JsonEvent) -> (r: Result<(), ParserError>)
        ensures
            match old(self)@.close(mode, end) {
                Ok(m) => r is Ok && final(self)@ == m,
                Err(e) => r == Err::<(), ParserError>(e) && final(self)@ == old(self)@,
            },
    {
        if !self.pop(mode) {
            return Err(ParserError::SyntaxError);
        }
        match self.state_to_event() {
            JsonEvent::NeedMoreInput => {
                self.event1 = end;
            },
            e => {
                self.event1 = e;
                self.event2 = end;
            },
        }
        self.state = State::Okay;
        Ok(())
    }

    /// Perform an action that changes the parser state.
    fn perform_action(&mut self, action: Action) -> (r: Result<(), ParserError>)
        ensures
            match old(self)@.perform_action(action) {
                Ok(m) => r is Ok && final(self)@ == m,
                Err(e) => r == Err::<(), ParserError>(e) && final(self)@ == old(self)@,
            },
    {
        match action {
            // empty }
            Action::EndEmptyObject => {
                if !self.pop(Mode::Key) {
                    return Err(ParserError::SyntaxError);
                }
                self.state = State::Okay;
                self.event1 = JsonEvent::EndObject;
            },
            // }
            Action::EndObject => {
                return self.close(Mode::Object, JsonEvent::EndObject);
            },
            // ]
            Action::EndArray => {
                return self.close(Mode::Array, JsonEvent::EndArray);
            },
            // {
            Action::StartObject => {
                if !self.push(Mode::Key) {
                    return Err(ParserError::SyntaxError);
                }
                self.state = State::Object;
                self.event1 = JsonEvent::StartObject;
            },
            // [
            Action::StartArray => {
                if !self.push(Mode::Array) {
                    return Err(ParserError::SyntaxError);
                }
                self.state = State::Array;
                self.event1 = JsonEvent::StartArray;
            },
            // "
            Action::EndString => {
                let n = self.stack.len();
                if n > 0 && self.stack[n - 1] == Mode::Key {
                    self.state = State::Colon;
                    self.event1 = JsonEvent::FieldName;
                } else {
                    self.state = State::Okay;
                    self.event1 = JsonEvent::ValueString;
                }
            },
            // ,
            Action::Comma => {
                let n = self.stack.len();
                if n > 0 && self.stack[n - 1] == Mode::Object {
                    // A comma causes a flip from object mode to key mode.
                    if !self.flip(Mode::Object, Mode::Key) {
                        return Err(ParserError::SyntaxError);
                    }
                    self.event1 = self.state_to_event();
                    self.state = State::Key;
                } else if n > 0 && self.stack[n - 1] == Mode::Array {
                    self.event1 = self.state_to_event();
                    self.state = State::Value;
                } else {
                    return Err(ParserError::SyntaxError);
                }
            },
            // :
            Action::Colon => {
                // A colon causes a flip from key mode to object mode.
                if !self.flip(Mode::Key, Mode::Object) {
                    return Err(ParserError::SyntaxError);
                }
                self.state = State::Value;
            },
        }
        Ok(())
    }

    /// Converts the current parser state to a JSON event: the event of the
    /// number or keyword that ends when the automaton leaves the state, or
    /// `NeedMoreInput` if none ends there.
    fn state_to_event(&self) -> (r: JsonEvent)
        ensures
            r == self@.state.event(),
    {
        self.state.to_event()
    }

    /// The bytes of the current value.
    pub fn current_bytes(&self) -> (r: &[u8])
        ensures
            r@ == self@.buffer,
    {
        self.current_buffer.as_slice()
    }

    /// The bytes of the current value as a string.
    pub fn current_str(&self) -> (r: Result<&str, InvalidStringValueError>)
        ensures
            r is Ok <==> valid_utf8(self@.buffer),
            r matches Ok(s) ==> encode_utf8(s@) == self@.buffer,
            r matches Err(e) ==> e.valid_up_to <= self@.buffer.len() && valid_utf8(
                self@.buffer.take(e.valid_up_to as int),
            ) && forall|k: int|
                e.valid_up_to < k <= self@.buffer.len() ==> !valid_utf8(
                    #[trigger] self@.buffer.take(k),
                ),
    {
        match str_from_utf8(self.current_buffer.as_slice()) {
            Ok(s) => Ok(s),
            Err(valid_up_to) => Err(InvalidStringValueError { valid_up_to }),
        }
    }

    /// The bytes of the current value as an integer.
    pub fn current_int(&self) -> (r: Result<i64, InvalidIntValueError>)
        ensures
            r matches Ok(v) ==> integer_text(self@.buffer) == Some(v as int),
            r is Ok <==> (integer_text(self@.buffer) matches Some(v) && i64::MIN <= v
                <= i64::MAX),
    {
        match btoi_i64(self.current_buffer.as_slice()) {
            Ok(v) => Ok(v),
            Err(e) => Err(InvalidIntValueError(e)),
        }
    }

    /// Return the number of bytes parsed so far.
    pub fn parsed_bytes(&self) -> (r: usize)
        ensures
            r == self@.parsed_bytes,
    {
        self.parsed_bytes
    }
}

} // verus!
