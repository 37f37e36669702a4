//! What holds of every parser: the invariants of its state, and the laws
//! that relate its calls to each other. All of them are statements about
//! the model of [`Machine`], over which the contracts of the parser are
//! stated.
use crate::error::ParserError;
use crate::event::JsonEvent;
use crate::machine::{Machine, Outcome};
use crate::table::{class_of, transition, Mode, State, Transition};
use crate::unicode::{combine_surrogates, hex4, is_high_surrogate, is_low_surrogate};
use vstd::utf8::encode_scalar;
use vstd::prelude::*;

verus! {

impl Machine {
    /// The invariant of a parser's state:
    /// - a byte waits to be parsed again only right after a number has
    ///   been completed at the top level, and not once parsing has ended;
    /// - the second waiting event is empty unless the first is taken;
    /// - the stack is never deeper than the maximum depth (but it always
    ///   has room for the bottom mode);
    /// - until parsing has ended, the bottom mode lies at the bottom of the
    ///   stack, and it never lies anywhere else;
    /// - the second half of a surrogate pair is awaited only inside a
    ///   string;
    /// - bytes are counted from zero.
    pub open spec fn wf(self) -> bool {
        &&& self.putback is Some ==> self.state is Okay && self.halted is None
        &&& self.high_surrogate ==> self.state is Text || self.state is Escape
            || self.state.in_unicode()
        &&& !(self.event2 is NeedMoreInput) ==> !(self.event1 is NeedMoreInput)
        &&& self.stack.len() <= self.max_depth || self.stack.len() <= 1
        &&& bottomed(self.stack, self.halted is None)
        &&& self.parsed_bytes >= 0
    }

    /// The number of events that wait to be handed out.
    pub open spec fn queued(self) -> nat {
        (if self.event1 is NeedMoreInput {
            0nat
        } else {
            1nat
        }) + (if self.event2 is NeedMoreInput {
            0nat
        } else {
            1nat
        })
    }
}

/// Whether the bottom mode lies where it belongs: at the bottom of the
/// stack of a parser that is running, and nowhere else.
#[verifier::opaque]
pub open spec fn bottomed(stack: Seq<Mode>, running: bool) -> bool {
    &&& running ==> stack.len() >= 1 && stack[0] is Done
    &&& forall|i: int| 0 < i < stack.len() ==> !(#[trigger] stack[i] is Done)
}

/// A running parser whose innermost mode is the bottom mode is at the top
/// level.
pub proof fn lemma_bottom_is_top_level(m: Machine)
    requires
        m.wf(),
        m.top() == Some(Mode::Done),
    ensures
        m.at_top_level(),
{
    reveal(bottomed);
}

/// The state of a parser that has read nothing satisfies the invariant.
pub proof fn lemma_initial_wf(max_depth: nat, streaming: bool)
    ensures
        Machine::initial(max_depth, streaming).wf(),
{
    reveal(bottomed);
}

/// Parsing a byte keeps the invariant. While no event waits and no byte
/// waits to be parsed again, a byte counts once, leaves the options as
/// they are, and puts itself back only if it completes a number.
pub proof fn lemma_feed_wf(m: Machine, b: u8)
    requires
        m.wf(),
        m.putback is None,
        m.event1 is NeedMoreInput,
        m.halted is None,
    ensures
        m.feed(b).wf(),
        m.feed(b).taken_in() == m.parsed_bytes + 1,
        m.feed(b).max_depth == m.max_depth,
        m.feed(b).streaming == m.streaming,
        m.feed(b).putback is Some ==> m.feed(b).putback == Some(b) && m.state.ends_number()
            && m.feed(b).queued() == 1,
        m.feed(b).halted is Some ==> m.feed(b).putback is None && m.feed(b).queued() == 0,
{
    reveal(Machine::feed);
    reveal(bottomed);
    let counted = Machine { parsed_bytes: m.parsed_bytes + 1, ..m };
    match class_of(b) {
        None => {},
        Some(class) => {
            let (t, r) = counted.resolve(b, class);
            if transition(counted.state, class) is Recover {
                assert(counted.state is Okay || counted.state.ends_number());
            }
            match t {
                Transition::Goto(next) => {
                    if next.in_scalar() && r.state is U4 {
                        assert(r.putback is None);
                    }
                },
                Transition::Act(action) => {
                    assert(r == counted);
                },
                _ => {},
            }
        },
    }
}

/// One call of the parser keeps the invariant, leaves the options as they
/// are, and takes bytes from the front of what the feeder offers: the bytes
/// that it leaves are a suffix of those, and the count of the bytes taken
/// in grows by the number of bytes gone.
pub proof fn lemma_run_wf(m: Machine, input: Seq<u8>, closed: bool)
    requires
        m.wf(),
    ensures
        m.run(input, closed).machine.wf(),
        m.run(input, closed).machine.max_depth == m.max_depth,
        m.run(input, closed).machine.streaming == m.streaming,
        m.run(input, closed).rest.len() <= input.len(),
        m.run(input, closed).rest == input.skip(input.len() - m.run(input, closed).rest.len()),
        m.run(input, closed).machine.taken_in() + m.run(input, closed).rest.len() == m.taken_in()
            + input.len(),
    decreases input.len() + (if m.putback is Some {
        1nat
    } else {
        0nat
    }),
{
    reveal(bottomed);
    if !(m.halted is None && m.event1 is NeedMoreInput) {
        assert(input.skip(0) =~= input);
    } else {
        match m.putback {
            Some(b) => {
                lemma_feed_wf(m.taken(), b);
                let r = m.taken().feed(b);
                if r.quiet() {
                    lemma_run_wf(r, input, closed);
                } else {
                    assert(input.skip(0) =~= input);
                }
            },
            None => {
                if input.len() > 0 {
                    lemma_feed_wf(m, input[0]);
                    let r = m.feed(input[0]);
                    let rest = input.skip(1);
                    if r.quiet() {
                        lemma_run_wf(r, rest, closed);
                        let o = r.run(rest, closed);
                        assert(rest.skip(rest.len() - o.rest.len()) =~= input.skip(
                            input.len() - o.rest.len(),
                        ));
                    } else {
                        assert(rest =~= input.skip(input.len() - rest.len()));
                    }
                } else if closed {
                    assert(Seq::<u8>::empty() =~= input.skip(0));
                } else {
                    assert(input.skip(0) =~= input);
                }
            },
        }
    }
}

/// The text that comes with an event: the value buffer for a field name, a
/// string or a number, nothing for any other event.
pub open spec fn text_of(e: JsonEvent, buffer: Seq<u8>) -> Seq<u8> {
    if e is FieldName || e is ValueString || e is ValueInt || e is ValueFloat {
        buffer
    } else {
        Seq::empty()
    }
}

/// How a sequence of calls ends.
pub enum Ending {
    /// The parser asked for more input.
    Starved,
    /// The parser reported the end of the JSON text.
    EndOfText,
    /// The parser reported an error.
    Failed(ParserError),
}

/// What a sequence of calls comes to.
pub ghost struct Trace {
    /// The events that the calls returned, in order, without the last
    /// call's answer.
    pub events: Seq<JsonEvent>,
    /// Each event's text: what the value buffer held when the event was
    /// returned, for a field name, a string or a number; nothing for any
    /// other event.
    pub values: Seq<Seq<u8>>,
    /// The state of the parser after the last call.
    pub machine: Machine,
    /// The bytes that the calls have left in the feeder.
    pub rest: Seq<u8>,
    /// What the last call returned.
    pub ending: Ending,
}

impl Machine {
    /// A measure of the work that lies ahead of the parser: it goes down
    /// with every call that returns an event.
    pub open spec fn weight(self, input: Seq<u8>) -> nat {
        2 * (3 * input.len() + (if self.putback is Some {
            2nat
        } else {
            0nat
        }) + self.queued()) + (if self.state is Okay {
            0nat
        } else {
            1nat
        })
    }

    /// What calling the parser again and again comes to, up to the first
    /// call that returns no event: one that asks for more input, reports
    /// the end of the text, or fails. The feeder offers the bytes `input`
    /// and, once they are gone, is done if and only if `closed`; nobody
    /// touches it in between.
    #[verifier::opaque]
    pub open spec fn drain(self, input: Seq<u8>, closed: bool) -> Trace
        decreases self.weight(input),
        when self.wf()
        via Self::drain_decreases
    {
        let o = self.run(input, closed);
        match o.result {
            Ok(Some(e)) => if e is NeedMoreInput {
                Trace {
                    events: Seq::empty(),
                    values: Seq::empty(),
                    machine: o.machine,
                    rest: o.rest,
                    ending: Ending::Starved,
                }
            } else {
                let t = o.machine.drain(o.rest, closed);
                Trace {
                    events: seq![e] + t.events,
                    values: seq![text_of(e, o.machine.buffer)] + t.values,
                    ..t
                }
            },
            Ok(None) => Trace {
                events: Seq::empty(),
                values: Seq::empty(),
                machine: o.machine,
                rest: o.rest,
                ending: Ending::EndOfText,
            },
            Err(e) => Trace {
                events: Seq::empty(),
                values: Seq::empty(),
                machine: o.machine,
                rest: o.rest,
                ending: Ending::Failed(e),
            },
        }
    }

    #[via_fn]
    proof fn drain_decreases(self, input: Seq<u8>, closed: bool) {
        lemma_run_progress(self, input, closed);
    }
}

/// A call that returns an event takes the parser closer to the end: its
/// weight goes down.
pub proof fn lemma_run_progress(m: Machine, input: Seq<u8>, closed: bool)
    requires
        m.wf(),
    ensures
        (m.run(input, closed).result matches Ok(Some(e)) && !(e is NeedMoreInput)) ==> m.run(
            input,
            closed,
        ).machine.weight(m.run(input, closed).rest) < m.weight(input),
    decreases input.len() + (if m.putback is Some {
        1nat
    } else {
        0nat
    }),
{
    if !(m.halted is None && m.event1 is NeedMoreInput) {
    } else {
        match m.putback {
            Some(b) => {
                lemma_feed_wf(m.taken(), b);
                let r = m.taken().feed(b);
                if r.quiet() {
                    lemma_run_progress(r, input, closed);
                }
            },
            None => {
                if input.len() > 0 {
                    lemma_feed_wf(m, input[0]);
                    let r = m.feed(input[0]);
                    if r.quiet() {
                        lemma_run_progress(r, input.skip(1), closed);
                    }
                }
            },
        }
    }
}

/// What the answer of a call says about the state that the call leaves:
/// the parser asks for more input only when the feeder is dry and not done,
/// and then nothing waits; an error and the end of the text end parsing;
/// an event does not.
pub proof fn lemma_run_result(m: Machine, input: Seq<u8>, closed: bool)
    requires
        m.wf(),
    ensures
        ({
            let o = m.run(input, closed);
            match o.result {
                Ok(Some(e)) => if e is NeedMoreInput {
                    !closed && o.rest.len() == 0 && o.machine.quiet()
                } else {
                    o.machine.halted is None
                },
                Ok(None) => closed && o.rest.len() == 0 && o.machine.halted == Some(
                    ParserError::NoMoreInput,
                ),
                Err(e) => o.machine.halted == Some(e),
            }
        }),
    decreases input.len() + (if m.putback is Some {
        1nat
    } else {
        0nat
    }),
{
    if !(m.halted is None && m.event1 is NeedMoreInput) {
    } else {
        match m.putback {
            Some(b) => {
                lemma_feed_wf(m.taken(), b);
                let r = m.taken().feed(b);
                if r.quiet() {
                    lemma_run_result(r, input, closed);
                }
            },
            None => {
                if input.len() > 0 {
                    lemma_feed_wf(m, input[0]);
                    let r = m.feed(input[0]);
                    if r.quiet() {
                        lemma_run_result(r, input.skip(1), closed);
                    }
                }
            },
        }
    }
}

/// The parser never blocks. When the feeder has no byte to offer and is not
/// done, a call returns at once: it hands out the first waiting event, if
/// there is one, and else asks for more input and leaves the state as it
/// is. This is stated of a parser that has not put a byte back: a byte that
/// waits to be parsed again is parsed by the next call, whatever the feeder
/// holds.
pub proof fn law_non_blocking(m: Machine)
    requires
        m.putback is None,
        m.halted is None,
    ensures
        m.event1 is NeedMoreInput ==> m.run(Seq::empty(), false) == (Outcome {
            machine: m,
            rest: Seq::empty(),
            result: Ok(Some(JsonEvent::NeedMoreInput)),
        }),
        !(m.event1 is NeedMoreInput) ==> m.run(Seq::empty(), false) == (Outcome {
            machine: m.shift(),
            rest: Seq::empty(),
            result: Ok(Some(m.event1)),
        }),
{
}

/// Once parsing has ended, with an error or at the end of the text, every
/// call returns the error that ended it (after the end of the text:
/// `NoMoreInput`), takes no byte and changes nothing.
pub proof fn law_halted_stays_halted(m: Machine, input: Seq<u8>, closed: bool, e: ParserError)
    requires
        m.halted == Some(e),
    ensures
        m.run(input, closed) == (Outcome { machine: m, rest: input, result: Err(e) }),
{
}

/// A call does not care how much the feeder holds beyond what the call
/// takes. If a call that is offered the bytes `a` by a feeder that is not
/// done returns something else than `NeedMoreInput`, it returns the same,
/// and leaves the same state, when the feeder offers `a` followed by `b`;
/// then `b` is left over too. If it asks for more input, offering `a`
/// followed by `b` comes to the same as a further call that is offered
/// `b`.
pub proof fn lemma_run_extends(m: Machine, a: Seq<u8>, b: Seq<u8>, closed: bool)
    requires
        m.wf(),
    ensures
        ({
            let o = m.run(a, false);
            if o.result == Ok::<Option<JsonEvent>, ParserError>(Some(JsonEvent::NeedMoreInput)) {
                m.run(a + b, closed) == o.machine.run(b, closed)
            } else {
                m.run(a + b, closed) == (Outcome { rest: o.rest + b, ..o })
            }
        }),
    decreases a.len() + (if m.putback is Some {
        1nat
    } else {
        0nat
    }),
{
    if !(m.halted is None && m.event1 is NeedMoreInput) {
    } else {
        match m.putback {
            Some(c) => {
                lemma_feed_wf(m.taken(), c);
                let r = m.taken().feed(c);
                if r.quiet() {
                    lemma_run_extends(r, a, b, closed);
                }
            },
            None => {
                if a.len() > 0 {
                    lemma_feed_wf(m, a[0]);
                    let r = m.feed(a[0]);
                    assert((a + b)[0] == a[0]);
                    assert((a + b).skip(1) =~= a.skip(1) + b);
                    if r.quiet() {
                        lemma_run_extends(r, a.skip(1), b, closed);
                    }
                } else {
                    assert(a + b =~= b);
                }
            },
        }
    }
}

/// Chunking invariance, for input that arrives in two parts. Let the
/// feeder first offer `a` without being done, and let the parser be called
/// until it returns no event. If it then asks for more input, let the
/// feeder offer `b` and let the parser be called again until it returns no
/// event. The events and their texts, the last answer and the state of the
/// parser are those of a parser whose feeder offers `a` followed by `b`
/// from the start. If the parser fails on `a`, it fails in the same way
/// and in the same state when `b` follows.
pub proof fn law_chunking(m: Machine, a: Seq<u8>, b: Seq<u8>, closed: bool)
    requires
        m.wf(),
    ensures
        ({
            let whole = m.drain(a + b, closed);
            let first = m.drain(a, false);
            let second = first.machine.drain(b, closed);
            match first.ending {
                Ending::Starved => {
                    &&& first.rest.len() == 0
                    &&& first.machine.wf()
                    &&& whole.events == first.events + second.events
                    &&& whole.values == first.values + second.values
                    &&& whole.ending == second.ending
                    &&& whole.machine == second.machine
                    &&& whole.rest == second.rest
                },
                Ending::Failed(e) => {
                    &&& whole.events == first.events
                    &&& whole.values == first.values
                    &&& whole.ending == first.ending
                    &&& whole.machine == first.machine
                    &&& whole.rest == first.rest + b
                },
                Ending::EndOfText => false,
            }
        }),
    decreases m.weight(a),
{
    reveal(Machine::drain);
    lemma_run_extends(m, a, b, closed);
    lemma_run_wf(m, a, false);
    lemma_run_result(m, a, false);
    lemma_run_progress(m, a, false);
    let o = m.run(a, false);
    match o.result {
        Ok(Some(e)) => {
            if e is NeedMoreInput {
                let second = o.machine.drain(b, closed);
                assert(Seq::<JsonEvent>::empty() + second.events =~= second.events);
                assert(Seq::<Seq<u8>>::empty() + second.values =~= second.values);
            } else {
                law_chunking(o.machine, o.rest, b, closed);
                let first = o.machine.drain(o.rest, false);
                let second = first.machine.drain(b, closed);
                if first.ending is Starved {
                    assert(seq![e] + (first.events + second.events) =~= (seq![e] + first.events)
                        + second.events);
                    assert(seq![text_of(e, o.machine.buffer)] + (first.values + second.values)
                        =~= (seq![text_of(e, o.machine.buffer)] + first.values) + second.values);
                }
            }
        },
        Ok(None) => {},
        Err(e) => {},
    }
}

/// What holds of every sequence of calls. The calls keep the invariant
/// and take bytes from the front of what the feeder offers; the count of
/// the bytes taken in grows by the number of bytes gone. Every event comes
/// with a text, and none of the events is `NeedMoreInput`. The parser asks
/// for more input only when the feeder is dry and not done. When the calls
/// end otherwise, parsing has ended, no byte waits to be parsed again, and
/// the bytes parsed are all the bytes taken in.
pub proof fn law_drain(m: Machine, input: Seq<u8>, closed: bool)
    requires
        m.wf(),
    ensures
        ({
            let t = m.drain(input, closed);
            &&& t.machine.wf()
            &&& t.machine.max_depth == m.max_depth
            &&& t.machine.streaming == m.streaming
            &&& t.rest.len() <= input.len()
            &&& t.rest == input.skip(input.len() - t.rest.len())
            &&& t.machine.taken_in() + t.rest.len() == m.taken_in() + input.len()
            &&& t.events.len() == t.values.len()
            &&& forall|i: int| 0 <= i < t.events.len() ==> !(#[trigger] t.events[i] is NeedMoreInput)
            &&& t.ending is Starved ==> !closed && t.rest.len() == 0 && t.machine.quiet()
            &&& !(t.ending is Starved) ==> t.machine.halted is Some && t.machine.parsed_bytes
                == t.machine.taken_in()
        }),
    decreases m.weight(input),
{
    reveal(Machine::drain);
    lemma_run_wf(m, input, closed);
    lemma_run_result(m, input, closed);
    lemma_run_progress(m, input, closed);
    let o = m.run(input, closed);
    match o.result {
        Ok(Some(e)) => {
            if !(e is NeedMoreInput) {
                law_drain(o.machine, o.rest, closed);
                let t = o.machine.drain(o.rest, closed);
                assert(o.rest.skip(o.rest.len() - t.rest.len()) =~= input.skip(
                    input.len() - t.rest.len(),
                ));
            }
        },
        Ok(None) => {},
        Err(e) => {},
    }
}

/// Calling a parser on a feeder that is done, again and again, ends with
/// the end of the text or with an error, whatever the bytes are; and then
/// the number of bytes parsed is the number of bytes that the feeder has
/// handed out.
pub proof fn law_parsed_bytes(max_depth: nat, streaming: bool, input: Seq<u8>)
    ensures
        ({
            let t = Machine::initial(max_depth, streaming).drain(input, true);
            &&& t.ending is EndOfText || t.ending is Failed
            &&& t.machine.parsed_bytes == input.len() - t.rest.len()
        }),
{
    lemma_initial_wf(max_depth, streaming);
    law_drain(Machine::initial(max_depth, streaming), input, true);
}

/// The depth of the stack never exceeds the maximum depth: an opening
/// bracket that would take the stack beyond it is a syntax error. (The
/// bound on the stack itself is part of the invariant, which every call
/// keeps.)
pub proof fn law_depth_overflow(m: Machine, b: u8)
    requires
        m.wf(),
        m.quiet(),
        !m.high_surrogate,
        m.stack.len() >= m.max_depth,
        b == 0x5B || b == 0x7B,
        m.state is Start || m.state is Value || m.state is Array || (m.state is Okay
            && m.streaming && m.at_top_level()),
    ensures
        m.feed(b).halted == Some(ParserError::SyntaxError),
        m.feed(b).stack == m.stack,
{
    reveal(Machine::feed);
}

/// No byte makes the stack deeper than the maximum depth, and a byte that
/// makes it deeper makes it deeper by one.
pub proof fn law_depth_bound(m: Machine, b: u8)
    requires
        m.wf(),
        m.quiet(),
    ensures
        m.feed(b).stack.len() <= m.stack.len() + 1,
        m.feed(b).stack.len() > m.stack.len() ==> m.feed(b).stack.len() <= m.max_depth,
{
    lemma_feed_wf(m, b);
    reveal(Machine::feed);
}

/// The bytes of all chunks, in order.
pub open spec fn concat_all(chunks: Seq<Seq<u8>>) -> Seq<u8>
    decreases chunks.len(),
{
    if chunks.len() == 0 {
        Seq::empty()
    } else {
        chunks[0] + concat_all(chunks.skip(1))
    }
}

impl Machine {
    /// What comes of a parser whose feeder gets its input chunk by chunk:
    /// after each chunk the parser is called until it asks for more input.
    /// After the last chunk the feeder is done if and only if `closed`,
    /// and the parser is called until it returns no event. A failure ends
    /// the calls, and the chunks that have not been offered are left over.
    pub open spec fn drain_chunks(self, chunks: Seq<Seq<u8>>, closed: bool) -> Trace
        decreases chunks.len(),
    {
        if chunks.len() == 0 {
            self.drain(Seq::empty(), closed)
        } else {
            let first = self.drain(chunks[0], false);
            if first.ending is Starved {
                let then = first.machine.drain_chunks(chunks.skip(1), closed);
                Trace {
                    events: first.events + then.events,
                    values: first.values + then.values,
                    ..then
                }
            } else {
                Trace { rest: first.rest + concat_all(chunks.skip(1)), ..first }
            }
        }
    }
}

/// Chunking invariance: however the input is cut into chunks, the events
/// and their texts, the last answer and the state of the parser are those
/// of a parser whose feeder offers the whole input at once.
pub proof fn law_chunking_invariance(m: Machine, chunks: Seq<Seq<u8>>, closed: bool)
    requires
        m.wf(),
    ensures
        m.drain_chunks(chunks, closed) == m.drain(concat_all(chunks), closed),
    decreases chunks.len(),
{
    if chunks.len() > 0 {
        let first = m.drain(chunks[0], false);
        law_chunking(m, chunks[0], concat_all(chunks.skip(1)), closed);
        if first.ending is Starved {
            law_chunking_invariance(first.machine, chunks.skip(1), closed);
        }
    }
}

/// Surrogate pairing: inside a string, the escape of the first half of a
/// surrogate pair followed at once by the escape of the second half leaves
/// in the value buffer the UTF-8 encoding of the code point that the pair
/// stands for, and nothing else of the twelve bytes.
pub proof fn law_surrogate_pair(
    m: Machine,
    h3: u8,
    h2: u8,
    h1: u8,
    h0: u8,
    l3: u8,
    l2: u8,
    l1: u8,
    l0: u8,
)
    requires
        m.state is Text,
        !m.high_surrogate,
        hex4(h3, h2, h1, h0) matches Some(high) && is_high_surrogate(high),
        hex4(l3, l2, l1, l0) matches Some(low) && is_low_surrogate(low),
    ensures
        m.feed(0x5C).feed(0x75).feed(h3).feed(h2).feed(h1).feed(h0).feed(0x5C).feed(0x75).feed(
            l3,
        ).feed(l2).feed(l1).feed(l0) == (Machine {
            buffer: m.buffer + encode_scalar(
                combine_surrogates(hex4(h3, h2, h1, h0)->0, hex4(l3, l2, l1, l0)->0),
            ),
            parsed_bytes: m.parsed_bytes + 12,
            ..m
        }),
{
    let b = m.buffer;
    lemma_escape_begins(m);
    let m1 = m.feed(0x5C);
    lemma_unicode_escape_begins(m1);
    let m2 = m1.feed(0x75);
    lemma_hex_digit(m2, h3);
    let m3 = m2.feed(h3);
    lemma_hex_digit(m3, h2);
    let m4 = m3.feed(h2);
    lemma_hex_digit(m4, h1);
    let m5 = m4.feed(h1);
    lemma_first_half(m5, h0);
    let m6 = m5.feed(h0);
    lemma_escape_begins(m6);
    let m7 = m6.feed(0x5C);
    lemma_unicode_escape_begins(m7);
    let m8 = m7.feed(0x75);
    lemma_hex_digit(m8, l3);
    let m9 = m8.feed(l3);
    lemma_hex_digit(m9, l2);
    let m10 = m9.feed(l2);
    lemma_hex_digit(m10, l1);
    let m11 = m10.feed(l1);
    assert(m11.buffer.take(m11.buffer.len() - 11) =~= b);
    lemma_second_half(m11, l0);
}

/// Inside a string, a backslash begins an escape and is kept in the
/// buffer for the time being.
pub proof fn lemma_escape_begins(m: Machine)
    requires
        m.state is Text,
    ensures
        m.feed(0x5C) == (Machine {
            state: State::Escape,
            buffer: m.buffer.push(0x5C),
            parsed_bytes: m.parsed_bytes + 1,
            ..m
        }),
{
    reveal(Machine::feed);
}

/// After a backslash, `u` begins a `\u` escape.
pub proof fn lemma_unicode_escape_begins(m: Machine)
    requires
        m.state is Escape,
    ensures
        m.feed(0x75) == (Machine {
            state: State::U1,
            buffer: m.buffer.push(0x75),
            parsed_bytes: m.parsed_bytes + 1,
            ..m
        }),
{
    reveal(Machine::feed);
}

/// Each of the first three hex digits of a `\u` escape is kept in the
/// buffer.
pub proof fn lemma_hex_digit(m: Machine, d: u8)
    requires
        m.state is U1 || m.state is U2 || m.state is U3,
        crate::unicode::hex_value(d) is Some,
    ensures
        m.feed(d) == (Machine {
            state: if m.state is U1 {
                State::U2
            } else if m.state is U2 {
                State::U3
            } else {
                State::U4
            },
            buffer: m.buffer.push(d),
            parsed_bytes: m.parsed_bytes + 1,
            ..m
        }),
{
    reveal(Machine::feed);
}

/// The fourth hex digit of an escape that spells the first half of a
/// surrogate pair: the escape stays in the buffer, and the second half is
/// awaited.
pub proof fn lemma_first_half(m: Machine, d: u8)
    requires
        m.state is U4,
        !m.high_surrogate,
        m.buffer.len() >= 5,
        hex4(
            m.buffer[m.buffer.len() - 3],
            m.buffer[m.buffer.len() - 2],
            m.buffer[m.buffer.len() - 1],
            d,
        ) matches Some(unit) && is_high_surrogate(unit),
    ensures
        m.feed(d) == (Machine {
            state: State::Text,
            high_surrogate: true,
            buffer: m.buffer.push(d),
            parsed_bytes: m.parsed_bytes + 1,
            ..m
        }),
{
    reveal(Machine::feed);
}

/// The fourth hex digit of an escape that spells a code unit that is no
/// surrogate: the escape gives way to the UTF-8 encoding of the code unit.
pub proof fn lemma_code_unit(m: Machine, d: u8)
    requires
        m.state is U4,
        !m.high_surrogate,
        m.buffer.len() >= 5,
        hex4(
            m.buffer[m.buffer.len() - 3],
            m.buffer[m.buffer.len() - 2],
            m.buffer[m.buffer.len() - 1],
            d,
        ) matches Some(unit) && !is_high_surrogate(unit) && !is_low_surrogate(unit),
    ensures
        m.feed(d) == (Machine {
            state: State::Text,
            buffer: m.buffer.take(m.buffer.len() - 5) + encode_scalar(
                hex4(
                    m.buffer[m.buffer.len() - 3],
                    m.buffer[m.buffer.len() - 2],
                    m.buffer[m.buffer.len() - 1],
                    d,
                )->0 as u32,
            ),
            parsed_bytes: m.parsed_bytes + 1,
            ..m
        }),
{
    reveal(Machine::feed);
}

/// After a backslash, the letter of a one-letter escape replaces the
/// backslash by the byte that the escape stands for.
pub proof fn lemma_short_escape(m: Machine, b: u8)
    requires
        m.state is Escape,
        !m.high_surrogate,
        m.buffer.len() > 0,
        crate::machine::unescape(b) is Some,
    ensures
        m.feed(b) == (Machine {
            state: State::Text,
            buffer: m.buffer.drop_last().push(crate::machine::unescape(b)->0),
            parsed_bytes: m.parsed_bytes + 1,
            ..m
        }),
{
    reveal(Machine::feed);
}

/// The fourth hex digit of an escape that spells the second half of a
/// surrogate pair, right after the escape of the first half: both escapes
/// give way to the UTF-8 encoding of the pair's code point.
pub proof fn lemma_second_half(m: Machine, d: u8)
    requires
        m.state is U4,
        m.high_surrogate,
        m.buffer.len() >= 11,
        hex4(
            m.buffer[m.buffer.len() - 3],
            m.buffer[m.buffer.len() - 2],
            m.buffer[m.buffer.len() - 1],
            d,
        ) matches Some(unit) && is_low_surrogate(unit),
        hex4(
            m.buffer[m.buffer.len() - 9],
            m.buffer[m.buffer.len() - 8],
            m.buffer[m.buffer.len() - 7],
            m.buffer[m.buffer.len() - 6],
        ) matches Some(unit) && is_high_surrogate(unit),
    ensures
        m.feed(d) == (Machine {
            state: State::Text,
            high_surrogate: false,
            buffer: m.buffer.take(m.buffer.len() - 11) + encode_scalar(
                combine_surrogates(
                    hex4(
                        m.buffer[m.buffer.len() - 9],
                        m.buffer[m.buffer.len() - 8],
                        m.buffer[m.buffer.len() - 7],
                        m.buffer[m.buffer.len() - 6],
                    )->0,
                    hex4(
                        m.buffer[m.buffer.len() - 3],
                        m.buffer[m.buffer.len() - 2],
                        m.buffer[m.buffer.len() - 1],
                        d,
                    )->0,
                ),
            ),
            parsed_bytes: m.parsed_bytes + 1,
            ..m
        }),
{
    reveal(Machine::feed);
}

/// An unpaired first half of a surrogate pair is an error. Once the escape
/// of a first half has been read, a byte that does not continue the
/// escape of a second half ends parsing: only a backslash, then `u`, then
/// hex digits are taken, and the code unit that the fourth digit completes
/// must be a second half.
pub proof fn law_unpaired_high_surrogate(m: Machine, b: u8)
    requires
        m.high_surrogate,
    ensures
        !m.continues_pair(b) ==> m.feed(b).halted == Some(ParserError::SyntaxError) || m.feed(
            b,
        ).halted == Some(ParserError::IllegalInput(b)),
        m.state is U4 && m.buffer.len() >= 5 && !(hex4(
            m.buffer[m.buffer.len() - 3],
            m.buffer[m.buffer.len() - 2],
            m.buffer[m.buffer.len() - 1],
            b,
        ) matches Some(unit) && is_low_surrogate(unit)) ==> m.feed(b).halted == Some(
            ParserError::SyntaxError,
        ) || m.feed(b).halted == Some(ParserError::IllegalInput(b)),
{
    reveal(Machine::feed);
}

/// A first half of a surrogate pair at the end of the input is an error:
/// while a second half is awaited, a feeder that is done and dry ends
/// parsing with `NoMoreInput`.
pub proof fn law_unpaired_high_surrogate_at_end(m: Machine)
    requires
        m.wf(),
        m.quiet(),
        m.high_surrogate,
    ensures
        m.run(Seq::empty(), true).result == Err::<Option<JsonEvent>, ParserError>(
            ParserError::NoMoreInput,
        ),
{
}

/// An unpaired second half of a surrogate pair is an error: the escape of
/// a second half that does not follow the escape of a first half at once
/// ends parsing with a syntax error.
pub proof fn law_unpaired_low_surrogate(m: Machine, b: u8)
    requires
        m.state is U4,
        !m.high_surrogate,
        m.buffer.len() >= 5,
        hex4(
            m.buffer[m.buffer.len() - 3],
            m.buffer[m.buffer.len() - 2],
            m.buffer[m.buffer.len() - 1],
            b,
        ) matches Some(unit) && is_low_surrogate(unit),
    ensures
        m.feed(b).halted == Some(ParserError::SyntaxError),
{
    reveal(Machine::feed);
}

} // verus!
