//! Reading a text byte by byte: what a parser returns for the pieces that
//! JSON texts are made of.
use crate::event::JsonEvent;
use crate::laws::{
    law_chunking, lemma_code_unit, lemma_escape_begins, lemma_feed_wf, lemma_first_half,
    lemma_hex_digit, lemma_run_wf, lemma_second_half, lemma_short_escape,
    lemma_unicode_escape_begins, text_of, Ending, Trace,
};
use crate::machine::{unescape, Machine};
use crate::syntax::{
    all_blank, digit_bytes, digits, is_blank, pieces_chars, pieces_strict, pieces_text,
    pieces_valid, plain_char, quoted, written, FloatText, StringPiece, Syntax, Written,
};
use crate::table::{class_of, transition, Mode, State, Transition};
use vstd::prelude::*;
use vstd::utf8::{encode_scalar, encode_utf8, is_scalar};

verus! {

impl Machine {
    /// The machine after all waiting events have been handed out.
    pub open spec fn cleared(self) -> Machine {
        Machine { event1: JsonEvent::NeedMoreInput, event2: JsonEvent::NeedMoreInput, ..self }
    }

    /// The events that wait to be handed out, in order.
    pub open spec fn queue(self) -> Seq<JsonEvent> {
        if self.event1 is NeedMoreInput {
            Seq::empty()
        } else if self.event2 is NeedMoreInput {
            seq![self.event1]
        } else {
            seq![self.event1, self.event2]
        }
    }

    /// The texts of the events that wait to be handed out, in order.
    pub open spec fn queue_texts(self) -> Seq<Seq<u8>> {
        if self.event1 is NeedMoreInput {
            Seq::empty()
        } else if self.event2 is NeedMoreInput {
            seq![text_of(self.event1, self.buffer)]
        } else {
            seq![text_of(self.event1, self.buffer), text_of(self.event2, self.buffer)]
        }
    }
}

/// A parser in the state `m` reads all of `input`, from a feeder that is
/// not done, and returns the given events with the given texts before it
/// asks for more input in the state `after`.
pub open spec fn reads(
    m: Machine,
    input: Seq<u8>,
    events: Seq<JsonEvent>,
    values: Seq<Seq<u8>>,
    after: Machine,
) -> bool {
    m.drain(input, false) == (Trace {
        events,
        values,
        machine: after,
        rest: Seq::empty(),
        ending: Ending::Starved,
    })
}

/// Reading one part of the input and then the next is reading both.
pub proof fn lemma_reads_then(
    m: Machine,
    a: Seq<u8>,
    e1: Seq<JsonEvent>,
    v1: Seq<Seq<u8>>,
    m1: Machine,
    b: Seq<u8>,
    e2: Seq<JsonEvent>,
    v2: Seq<Seq<u8>>,
    m2: Machine,
)
    requires
        m.wf(),
        reads(m, a, e1, v1, m1),
        reads(m1, b, e2, v2, m2),
    ensures
        reads(m, a + b, e1 + e2, v1 + v2, m2),
{
    law_chunking(m, a, b, false);
}

/// A parser whose feeder is dry hands out the events that wait, and then
/// asks for more input.
pub proof fn lemma_reads_nothing(m: Machine)
    requires
        m.wf(),
        m.halted is None,
        m.putback is None,
    ensures
        reads(m, Seq::empty(), m.queue(), m.queue_texts(), m.cleared()),
{
    reveal(Machine::drain);
    let nothing = Seq::<u8>::empty();
    if m.event1 is NeedMoreInput {
        assert(m.cleared() == m);
        assert(m.drain(nothing, false).events =~= m.queue());
        assert(m.drain(nothing, false).values =~= m.queue_texts());
    } else {
        let m1 = m.shift();
        lemma_run_wf(m, nothing, false);
        if m1.event1 is NeedMoreInput {
            assert(m1.drain(nothing, false).events =~= Seq::empty());
            assert(m1.drain(nothing, false).values =~= Seq::empty());
            assert(m.drain(nothing, false).events =~= m.queue());
            assert(m.drain(nothing, false).values =~= m.queue_texts());
        } else {
            let m2 = m1.shift();
            lemma_run_wf(m1, nothing, false);
            assert(m2 == m.cleared());
            assert(m2.drain(nothing, false).events =~= Seq::empty());
            assert(m2.drain(nothing, false).values =~= Seq::empty());
            assert(m1.drain(nothing, false).events =~= seq![m.event2]);
            assert(m1.drain(nothing, false).values =~= seq![text_of(m.event2, m.buffer)]);
            assert(m.drain(nothing, false).events =~= m.queue());
            assert(m.drain(nothing, false).values =~= m.queue_texts());
        }
    }
}

/// A parser that reads one byte hands out the events that the byte gives
/// rise to, and then asks for more input.
pub proof fn lemma_reads_byte(m: Machine, b: u8)
    requires
        m.wf(),
        m.quiet(),
        m.feed(b).halted is None,
        m.feed(b).putback is None,
    ensures
        reads(m, seq![b], m.feed(b).queue(), m.feed(b).queue_texts(), m.feed(b).cleared()),
{
    reveal(Machine::drain);
    let r = m.feed(b);
    let input = seq![b];
    lemma_feed_wf(m, b);
    lemma_reads_nothing(r);
    assert(input.skip(1) =~= Seq::<u8>::empty());
    assert(input[0] == b);
    if r.quiet() {
        assert(m.run(input, false) == r.run(Seq::empty(), false));
    } else {
        assert(m.run(input, false) == r.run(Seq::empty(), false));
    }
}

/// Whether a parser is about to read a value: nothing waits, and a value
/// may begin.
pub open spec fn ready(m: Machine) -> bool {
    &&& m.wf()
    &&& m.quiet()
    &&& !m.streaming
    &&& !m.high_surrogate
    &&& m.state is Start || m.state is Value || m.state is Array
    &&& m.top() != Some(Mode::Key)
}

/// Whether a parser in the state `after` has just read a value that began
/// in the state `m`: it is as deep as it was, and the value is complete or
/// is a number that the next byte may complete.
pub open spec fn settled(m: Machine, after: Machine) -> bool {
    &&& after.wf()
    &&& after.quiet()
    &&& !after.streaming
    &&& !after.high_surrogate
    &&& after.state is Okay || after.state.ends_number()
    &&& after.stack == m.stack
    &&& after.max_depth == m.max_depth
}

/// The event of the number that the next byte may complete.
pub open spec fn pending(m: Machine) -> Seq<JsonEvent> {
    if m.state.ends_number() {
        seq![m.state.event()]
    } else {
        Seq::empty()
    }
}

/// The text of the number that the next byte may complete.
pub open spec fn pending_texts(m: Machine) -> Seq<Seq<u8>> {
    if m.state.ends_number() {
        seq![m.buffer]
    } else {
        Seq::empty()
    }
}

/// Whether a parser that begins in the state `m` reads the text of `w` and
/// returns, together with what the next byte completes, the events and
/// texts of `w`.
pub open spec fn reads_written(m: Machine, w: Written) -> bool {
    let tr = m.drain(w.text, false);
    &&& tr.ending is Starved
    &&& tr.rest == Seq::<u8>::empty()
    &&& settled(m, tr.machine)
    &&& tr.events + pending(tr.machine) == w.events
    &&& tr.values + pending_texts(tr.machine) == w.values
}

/// Reading some input and then one more byte.
pub proof fn lemma_reads_push(
    m: Machine,
    a: Seq<u8>,
    e: Seq<JsonEvent>,
    v: Seq<Seq<u8>>,
    m1: Machine,
    b: u8,
)
    requires
        m.wf(),
        reads(m, a, e, v, m1),
        m1.wf(),
        m1.quiet(),
        m1.feed(b).halted is None,
        m1.feed(b).putback is None,
    ensures
        reads(
            m,
            a.push(b),
            e + m1.feed(b).queue(),
            v + m1.feed(b).queue_texts(),
            m1.feed(b).cleared(),
        ),
        m1.feed(b).cleared().wf(),
{
    lemma_reads_byte(m1, b);
    lemma_feed_wf(m1, b);
    let r = m1.feed(b);
    lemma_reads_then(m, a, e, v, m1, seq![b], r.queue(), r.queue_texts(), r.cleared());
    assert(a.push(b) =~= a + seq![b]);
}

/// A byte that only moves the automaton on.
pub proof fn lemma_move(m: Machine, b: u8, next: State)
    requires
        !m.high_surrogate,
        class_of(b) matches Some(c) && transition(m.state, c) == Transition::Goto(next),
        !next.in_scalar(),
        !(next is Okay),
    ensures
        m.feed(b) == (Machine { state: next, ..m.skipped(1) }),
{
    reveal(Machine::feed);
}

/// The last letter of a keyword completes the keyword.
pub proof fn lemma_keyword_ends(m: Machine, b: u8)
    requires
        !m.high_surrogate,
        m.state is T3 || m.state is F4 || m.state is N3,
        class_of(b) matches Some(c) && transition(m.state, c) == Transition::Goto(State::Okay),
    ensures
        m.feed(b) == (Machine { state: State::Okay, event1: m.state.event(), ..m.skipped(1) }),
{
    reveal(Machine::feed);
}

/// Reading some input and then one more byte that only moves the
/// automaton on.
pub proof fn lemma_reads_move(
    m: Machine,
    a: Seq<u8>,
    e: Seq<JsonEvent>,
    v: Seq<Seq<u8>>,
    m1: Machine,
    b: u8,
    next: State,
)
    requires
        m.wf(),
        reads(m, a, e, v, m1),
        m1.wf(),
        m1.quiet(),
        !m1.high_surrogate,
        class_of(b) matches Some(c) && transition(m1.state, c) == Transition::Goto(next),
        !next.in_scalar(),
        !(next is Okay),
    ensures
        reads(m, a.push(b), e, v, Machine { state: next, ..m1.skipped(1) }),
        (Machine { state: next, ..m1.skipped(1) }).wf(),
{
    lemma_move(m1, b, next);
    lemma_reads_push(m, a, e, v, m1, b);
    assert(e + m1.feed(b).queue() =~= e);
    assert(v + m1.feed(b).queue_texts() =~= v);
    assert(m1.feed(b).cleared() == m1.feed(b));
}

/// Reading the last letter of a keyword.
pub proof fn lemma_reads_keyword_end(m: Machine, a: Seq<u8>, m1: Machine, b: u8)
    requires
        m.wf(),
        reads(m, a, Seq::empty(), Seq::empty(), m1),
        m1.wf(),
        m1.quiet(),
        !m1.high_surrogate,
        m1.state is T3 || m1.state is F4 || m1.state is N3,
        class_of(b) matches Some(c) && transition(m1.state, c) == Transition::Goto(State::Okay),
    ensures
        reads(
            m,
            a.push(b),
            seq![m1.state.event()],
            seq![Seq::<u8>::empty()],
            Machine { state: State::Okay, ..m1.skipped(1) },
        ),
        (Machine { state: State::Okay, ..m1.skipped(1) }).wf(),
{
    lemma_keyword_ends(m1, b);
    lemma_reads_push(m, a, Seq::empty(), Seq::empty(), m1, b);
    let r = m1.feed(b);
    assert(Seq::<JsonEvent>::empty() + r.queue() =~= seq![m1.state.event()]);
    assert(Seq::<Seq<u8>>::empty() + r.queue_texts() =~= seq![Seq::<u8>::empty()]);
    assert(r.cleared() == Machine { state: State::Okay, ..m1.skipped(1) });
}

/// What is left to show of a scalar that is complete when its last byte
/// has been read.
pub proof fn lemma_complete_scalar(m: Machine, w: Written, after: Machine)
    requires
        ready(m),
        w.events.len() == 1,
        w.values.len() == 1,
        reads(m, w.text, w.events, w.values, after),
        after.wf(),
        after == (Machine { state: State::Okay, parsed_bytes: after.parsed_bytes, ..m })
            || after == (Machine {
            state: State::Okay,
            parsed_bytes: after.parsed_bytes,
            buffer: after.buffer,
            ..m
        }),
    ensures
        reads_written(m, w),
{
    let tr = m.drain(w.text, false);
    assert(tr.events + pending(after) =~= w.events);
    assert(tr.values + pending_texts(after) =~= w.values);
}

/// A parser reads `null` as a null value.
pub proof fn lemma_reads_null(m: Machine)
    requires
        ready(m),
    ensures
        reads_written(m, written(Syntax::Null)),
{
    let none = Seq::<JsonEvent>::empty();
    let no_text = Seq::<Seq<u8>>::empty();
    let a0 = Seq::<u8>::empty();
    lemma_reads_nothing(m);
    assert(m.cleared() == m);
    lemma_reads_move(m, a0, none, no_text, m, 0x6E, State::N1);
    let m1 = Machine { state: State::N1, ..m.skipped(1) };
    lemma_reads_move(m, a0.push(0x6E), none, no_text, m1, 0x75, State::N2);
    let m2 = Machine { state: State::N2, ..m1.skipped(1) };
    lemma_reads_move(m, a0.push(0x6E).push(0x75), none, no_text, m2, 0x6C, State::N3);
    let m3 = Machine { state: State::N3, ..m2.skipped(1) };
    lemma_reads_keyword_end(m, a0.push(0x6E).push(0x75).push(0x6C), m3, 0x6C);
    let w = written(Syntax::Null);
    assert(a0.push(0x6E).push(0x75).push(0x6C).push(0x6C) =~= w.text);
    lemma_complete_scalar(m, w, Machine { state: State::Okay, ..m3.skipped(1) });
}

/// A parser reads `true` as the value true.
pub proof fn lemma_reads_true(m: Machine)
    requires
        ready(m),
    ensures
        reads_written(m, written(Syntax::True)),
{
    let none = Seq::<JsonEvent>::empty();
    let no_text = Seq::<Seq<u8>>::empty();
    let a0 = Seq::<u8>::empty();
    lemma_reads_nothing(m);
    assert(m.cleared() == m);
    lemma_reads_move(m, a0, none, no_text, m, 0x74, State::T1);
    let m1 = Machine { state: State::T1, ..m.skipped(1) };
    lemma_reads_move(m, a0.push(0x74), none, no_text, m1, 0x72, State::T2);
    let m2 = Machine { state: State::T2, ..m1.skipped(1) };
    lemma_reads_move(m, a0.push(0x74).push(0x72), none, no_text, m2, 0x75, State::T3);
    let m3 = Machine { state: State::T3, ..m2.skipped(1) };
    lemma_reads_keyword_end(m, a0.push(0x74).push(0x72).push(0x75), m3, 0x65);
    let w = written(Syntax::True);
    assert(a0.push(0x74).push(0x72).push(0x75).push(0x65) =~= w.text);
    lemma_complete_scalar(m, w, Machine { state: State::Okay, ..m3.skipped(1) });
}

/// A parser reads `false` as the value false.
pub proof fn lemma_reads_false(m: Machine)
    requires
        ready(m),
    ensures
        reads_written(m, written(Syntax::False)),
{
    let none = Seq::<JsonEvent>::empty();
    let no_text = Seq::<Seq<u8>>::empty();
    let a0 = Seq::<u8>::empty();
    lemma_reads_nothing(m);
    assert(m.cleared() == m);
    lemma_reads_move(m, a0, none, no_text, m, 0x66, State::F1);
    let m1 = Machine { state: State::F1, ..m.skipped(1) };
    lemma_reads_move(m, a0.push(0x66), none, no_text, m1, 0x61, State::F2);
    let m2 = Machine { state: State::F2, ..m1.skipped(1) };
    lemma_reads_move(m, a0.push(0x66).push(0x61), none, no_text, m2, 0x6C, State::F3);
    let m3 = Machine { state: State::F3, ..m2.skipped(1) };
    lemma_reads_move(m, a0.push(0x66).push(0x61).push(0x6C), none, no_text, m3, 0x73, State::F4);
    let m4 = Machine { state: State::F4, ..m3.skipped(1) };
    lemma_reads_keyword_end(m, a0.push(0x66).push(0x61).push(0x6C).push(0x73), m4, 0x65);
    let w = written(Syntax::False);
    assert(a0.push(0x66).push(0x61).push(0x6C).push(0x73).push(0x65) =~= w.text);
    lemma_complete_scalar(m, w, Machine { state: State::Okay, ..m4.skipped(1) });
}

/// The state in which a digit of a fraction or of an exponent leaves the
/// parser.
pub open spec fn after_digit(state: State) -> State {
    if state is Frac0 || state is Frac {
        State::Frac
    } else {
        State::E3
    }
}

/// A digit of a fraction or of an exponent.
pub proof fn lemma_number_digit(m: Machine, b: u8)
    requires
        m.state is Frac0 || m.state is Frac || m.state is E1 || m.state is E2 || m.state is E3,
        !m.high_surrogate,
        0x30 <= b <= 0x39,
    ensures
        m.feed(b) == (Machine {
            state: after_digit(m.state),
            buffer: m.buffer.push(b),
            ..m.skipped(1)
        }),
{
    reveal(Machine::feed);
}

/// A byte that goes on with a number: the decimal point, the mark of the
/// exponent, or the sign of the exponent.
pub proof fn lemma_number_mark(m: Machine, b: u8, next: State)
    requires
        !m.high_surrogate,
        ({
            ||| (m.state is Zero || m.state is Int) && b == 0x2E && next is Frac0
            ||| (m.state is Zero || m.state is Int || m.state is Frac) && (b == 0x65 || b
                == 0x45) && next is E1
            ||| m.state is E1 && (b == 0x2B || b == 0x2D) && next is E2
        }),
    ensures
        m.feed(b) == (Machine { state: next, buffer: m.buffer.push(b), ..m.skipped(1) }),
{
    reveal(Machine::feed);
}

/// Reading some input and then one more byte of a number.
pub proof fn lemma_reads_number_byte(
    m: Machine,
    a: Seq<u8>,
    m1: Machine,
    b: u8,
    next: State,
)
    requires
        m.wf(),
        reads(m, a, Seq::empty(), Seq::empty(), m1),
        m1.wf(),
        m1.quiet(),
        m1.feed(b) == (Machine { state: next, buffer: m1.buffer.push(b), ..m1.skipped(1) }),
    ensures
        reads(
            m,
            a.push(b),
            Seq::empty(),
            Seq::empty(),
            Machine { state: next, buffer: m1.buffer.push(b), ..m1.skipped(1) },
        ),
        (Machine { state: next, buffer: m1.buffer.push(b), ..m1.skipped(1) }).wf(),
{
    lemma_reads_push(m, a, Seq::empty(), Seq::empty(), m1, b);
    let r = m1.feed(b);
    assert(r.cleared() == r);
    assert(Seq::<JsonEvent>::empty() + r.queue() =~= Seq::<JsonEvent>::empty());
    assert(Seq::<Seq<u8>>::empty() + r.queue_texts() =~= Seq::<Seq<u8>>::empty());
}

/// Reading some input and then the digits of a fraction or of an
/// exponent.
pub proof fn lemma_reads_number_digits(m: Machine, a: Seq<u8>, m1: Machine, ds: Seq<u8>)
    requires
        m.wf(),
        reads(m, a, Seq::empty(), Seq::empty(), m1),
        m1.wf(),
        m1.quiet(),
        !m1.high_surrogate,
        m1.state is Frac0 || m1.state is Frac || m1.state is E1 || m1.state is E2 || m1.state
            is E3,
        ds.len() > 0,
        digit_bytes(ds),
    ensures
        reads(
            m,
            a + ds,
            Seq::empty(),
            Seq::empty(),
            Machine {
                state: after_digit(m1.state),
                buffer: m1.buffer + ds,
                ..m1.skipped(ds.len() as int)
            },
        ),
        (Machine {
            state: after_digit(m1.state),
            buffer: m1.buffer + ds,
            ..m1.skipped(ds.len() as int)
        }).wf(),
    decreases ds.len(),
{
    let last = ds.last();
    let front = ds.drop_last();
    if ds.len() == 1 {
        lemma_number_digit(m1, last);
        lemma_reads_number_byte(m, a, m1, last, after_digit(m1.state));
        assert(a.push(last) =~= a + ds);
        assert(m1.buffer.push(last) =~= m1.buffer + ds);
    } else {
        assert(digit_bytes(front)) by {
            assert forall|i: int| 0 <= i < front.len() implies 0x30 <= #[trigger] front[i]
                <= 0x39 by {
                assert(front[i] == ds[i]);
            }
        }
        lemma_reads_number_digits(m, a, m1, front);
        let m2 = Machine {
            state: after_digit(m1.state),
            buffer: m1.buffer + front,
            ..m1.skipped(front.len() as int)
        };
        lemma_number_digit(m2, last);
        lemma_reads_number_byte(m, a + front, m2, last, after_digit(m2.state));
        assert((a + front).push(last) =~= a + ds);
        assert((m1.buffer + front).push(last) =~= m1.buffer + ds);
    }
}

/// A parser that is about to read a value reads a floating point number,
/// which waits for the byte that completes it.
pub proof fn lemma_reads_float(m: Machine, f: FloatText)
    requires
        ready(m),
        f.valid(),
    ensures
        ({
            let tr = m.drain(f.text(), false);
            &&& tr.ending is Starved
            &&& tr.rest == Seq::<u8>::empty()
            &&& settled(m, tr.machine)
            &&& tr.events == Seq::<JsonEvent>::empty()
            &&& tr.values == Seq::<Seq<u8>>::empty()
            &&& pending(tr.machine) == seq![JsonEvent::ValueFloat]
            &&& pending_texts(tr.machine) == seq![f.text()]
        }),
{
    let none = Seq::<JsonEvent>::empty();
    let no_text = Seq::<Seq<u8>>::empty();
    let a0 = Seq::<u8>::empty();
    lemma_reads_nothing(m);
    assert(m.cleared() == m);
    // the sign and the part before the decimal point
    let m1 = if f.negative {
        m.feed(0x2D)
    } else {
        m
    };
    let a1 = if f.negative {
        a0.push(0x2D)
    } else {
        a0
    };
    if f.negative {
        lemma_minus(m);
        lemma_feed_wf(m, 0x2D);
        lemma_reads_push(m, a0, none, no_text, m, 0x2D);
        assert(m1.cleared() == m1);
        assert(none + m1.queue() =~= none);
        assert(no_text + m1.queue_texts() =~= no_text);
    }
    lemma_reads_digits(m, a1, none, no_text, m1, f.whole);
    let m2 = after_digits(m1, f.whole);
    let a2 = a1 + digits(f.whole);
    assert(a2 =~= f.whole_text());
    assert(m2.buffer =~= f.whole_text());
    // the fraction
    let m3 = if f.fraction.len() > 0 {
        Machine {
            state: State::Frac,
            buffer: m2.buffer + f.fraction_text(),
            ..m2.skipped(f.fraction_text().len() as int)
        }
    } else {
        m2
    };
    let a3 = a2 + f.fraction_text();
    if f.fraction.len() > 0 {
        lemma_number_mark(m2, 0x2E, State::Frac0);
        lemma_reads_number_byte(m, a2, m2, 0x2E, State::Frac0);
        let m2p = Machine { state: State::Frac0, buffer: m2.buffer.push(0x2E), ..m2.skipped(1) };
        lemma_reads_number_digits(m, a2.push(0x2E), m2p, f.fraction);
        assert(a2.push(0x2E) + f.fraction =~= a3);
        assert(m2.buffer.push(0x2E) + f.fraction =~= m2.buffer + f.fraction_text());
    } else {
        assert(a3 =~= a2);
    }
    assert(reads(m, a3, none, no_text, m3));
    // the exponent
    let a4 = a3 + f.exponent_text();
    assert(a4 =~= f.text());
    match f.exponent {
        Some(x) => {
            let mark = if x.upper {
                0x45u8
            } else {
                0x65u8
            };
            lemma_number_mark(m3, mark, State::E1);
            lemma_reads_number_byte(m, a3, m3, mark, State::E1);
            let m4 = Machine { state: State::E1, buffer: m3.buffer.push(mark), ..m3.skipped(1) };
            match x.sign {
                Some(minus) => {
                    let sign = if minus {
                        0x2Du8
                    } else {
                        0x2Bu8
                    };
                    lemma_number_mark(m4, sign, State::E2);
                    lemma_reads_number_byte(m, a3.push(mark), m4, sign, State::E2);
                    let m5 = Machine {
                        state: State::E2,
                        buffer: m4.buffer.push(sign),
                        ..m4.skipped(1)
                    };
                    lemma_reads_number_digits(m, a3.push(mark).push(sign), m5, x.digits);
                    assert(a3.push(mark).push(sign) + x.digits =~= a4);
                    assert(m5.buffer + x.digits =~= f.text());
                },
                None => {
                    lemma_reads_number_digits(m, a3.push(mark), m4, x.digits);
                    assert(a3.push(mark) + x.digits =~= a4);
                    assert(m4.buffer + x.digits =~= f.text());
                },
            }
        },
        None => {
            assert(a4 =~= a3);
            assert(m3.buffer =~= f.text());
        },
    }
    let tr = m.drain(f.text(), false);
    assert(pending(tr.machine) =~= seq![JsonEvent::ValueFloat]);
    assert(pending_texts(tr.machine) =~= seq![f.text()]);
}

/// A minus sign begins a number.
pub proof fn lemma_minus(m: Machine)
    requires
        ready(m),
    ensures
        m.feed(0x2D) == (Machine { state: State::Minus, buffer: seq![0x2Du8], ..m.skipped(1) }),
{
    reveal(Machine::feed);
}

/// A digit at the beginning of a number, or after its minus sign.
pub proof fn lemma_first_digit(m: Machine, d: nat)
    requires
        ready(m) || (m.state is Minus && !m.high_surrogate),
        d < 10,
    ensures
        m.feed((0x30 + d) as u8) == (Machine {
            state: if d == 0 {
                State::Zero
            } else {
                State::Int
            },
            buffer: if m.state is Minus {
                m.buffer.push((0x30 + d) as u8)
            } else {
                seq![(0x30 + d) as u8]
            },
            ..m.skipped(1)
        }),
{
    reveal(Machine::feed);
}

/// A digit inside the integer part of a number.
pub proof fn lemma_next_digit(m: Machine, d: nat)
    requires
        m.state is Int,
        !m.high_surrogate,
        d < 10,
    ensures
        m.feed((0x30 + d) as u8) == (Machine {
            buffer: m.buffer.push((0x30 + d) as u8),
            ..m.skipped(1)
        }),
{
    reveal(Machine::feed);
}

/// The state in which the digits of a number leave the parser.
pub open spec fn after_digits(m: Machine, n: nat) -> Machine {
    Machine {
        state: if n == 0 {
            State::Zero
        } else {
            State::Int
        },
        buffer: if m.state is Minus {
            m.buffer + digits(n)
        } else {
            digits(n)
        },
        ..m.skipped(digits(n).len() as int)
    }
}

/// Reading some input and then the digits of a number.
pub proof fn lemma_reads_digits(
    m: Machine,
    a: Seq<u8>,
    e: Seq<JsonEvent>,
    v: Seq<Seq<u8>>,
    m1: Machine,
    n: nat,
)
    requires
        m.wf(),
        reads(m, a, e, v, m1),
        m1.wf(),
        m1.quiet(),
        ready(m1) || (m1.state is Minus && !m1.high_surrogate),
    ensures
        reads(m, a + digits(n), e, v, after_digits(m1, n)),
        after_digits(m1, n).wf(),
    decreases n,
{
    if n < 10 {
        lemma_first_digit(m1, n);
        lemma_reads_push(m, a, e, v, m1, (0x30 + n) as u8);
        let r = m1.feed((0x30 + n) as u8);
        assert(e + r.queue() =~= e);
        assert(v + r.queue_texts() =~= v);
        assert(a.push((0x30 + n) as u8) =~= a + digits(n));
        assert(m1.buffer.push((0x30 + n) as u8) =~= m1.buffer + digits(n));
        assert(r.cleared() == after_digits(m1, n));
    } else {
        let front = n / 10;
        let d = n % 10;
        lemma_reads_digits(m, a, e, v, m1, front);
        let m2 = after_digits(m1, front);
        lemma_next_digit(m2, d);
        lemma_reads_push(m, a + digits(front), e, v, m2, (0x30 + d) as u8);
        let r = m2.feed((0x30 + d) as u8);
        assert(e + r.queue() =~= e);
        assert(v + r.queue_texts() =~= v);
        assert((a + digits(front)).push((0x30 + d) as u8) =~= a + digits(n));
        assert((m1.buffer + digits(front)).push((0x30 + d) as u8) =~= m1.buffer + digits(n));
        assert(r.cleared() == after_digits(m1, n));
    }
}

/// Whether a byte stands for itself inside a string.
pub open spec fn text_byte(b: u8) -> bool {
    (32 <= b <= 127 && b != 0x22 && b != 0x5C) || b >= 128
}

/// A byte with its highest bit set is beyond ASCII.
pub proof fn lemma_high_bit(y: u8)
    by (bit_vector)
    ensures
        0x80u8 | y >= 0x80u8,
        0xC0u8 | y >= 0x80u8,
        0xE0u8 | y >= 0x80u8,
        0xF0u8 | y >= 0x80u8,
{
}

/// The seven low bits of a value below 128 are the value.
pub proof fn lemma_low_bits(c: u32)
    by (bit_vector)
    requires
        c <= 0x7F,
    ensures
        c & 0x7F == c,
{
}

/// Every byte of the UTF-8 encoding of a character that stands for itself
/// in a string stands for itself in a string.
pub proof fn lemma_plain_char_bytes(c: char)
    requires
        plain_char(c),
    ensures
        forall|j: int|
            0 <= j < encode_scalar(c as u32).len() ==> text_byte(
                #[trigger] encode_scalar(c as u32)[j],
            ),
{
    let u = c as u32;
    vstd::utf8::char_is_scalar(c);
    if u <= 0x7F {
        lemma_low_bits(u);
    } else {
        lemma_high_bit(((u >> 6) & 0x1F) as u8);
        lemma_high_bit(((u >> 12) & 0x0F) as u8);
        lemma_high_bit(((u >> 18) & 0x7) as u8);
        lemma_high_bit((u & 0x3F) as u8);
        lemma_high_bit(((u >> 6) & 0x3F) as u8);
        lemma_high_bit(((u >> 12) & 0x3F) as u8);
    }
}

/// Inside a string, a byte that stands for itself is appended to the value
/// buffer.
pub proof fn lemma_text_byte(m: Machine, b: u8)
    requires
        m.state is Text,
        !m.high_surrogate,
        text_byte(b),
    ensures
        m.feed(b) == (Machine { buffer: m.buffer.push(b), ..m.skipped(1) }),
{
    reveal(Machine::feed);
}

/// Reading some input and then, inside a string, bytes that stand for
/// themselves.
pub proof fn lemma_reads_text(
    m: Machine,
    a: Seq<u8>,
    e: Seq<JsonEvent>,
    v: Seq<Seq<u8>>,
    m1: Machine,
    bytes: Seq<u8>,
)
    requires
        m.wf(),
        reads(m, a, e, v, m1),
        m1.wf(),
        m1.quiet(),
        m1.state is Text,
        !m1.high_surrogate,
        forall|j: int| 0 <= j < bytes.len() ==> text_byte(#[trigger] bytes[j]),
    ensures
        reads(
            m,
            a + bytes,
            e,
            v,
            Machine { buffer: m1.buffer + bytes, ..m1.skipped(bytes.len() as int) },
        ),
        (Machine { buffer: m1.buffer + bytes, ..m1.skipped(bytes.len() as int) }).wf(),
    decreases bytes.len(),
{
    if bytes.len() == 0 {
        assert(a + bytes =~= a);
        assert(m1.buffer + bytes =~= m1.buffer);
        assert(m1.skipped(0) == m1);
    } else {
        let front = bytes.drop_last();
        let last = bytes.last();
        assert forall|j: int| 0 <= j < front.len() implies text_byte(#[trigger] front[j]) by {
            assert(front[j] == bytes[j]);
        }
        lemma_reads_text(m, a, e, v, m1, front);
        let m2 = Machine { buffer: m1.buffer + front, ..m1.skipped(front.len() as int) };
        lemma_text_byte(m2, last);
        lemma_reads_push(m, a + front, e, v, m2, last);
        assert((a + front).push(last) =~= a + bytes);
        assert((m1.buffer + front).push(last) =~= m1.buffer + bytes);
        assert(e + m2.feed(last).queue() =~= e);
        assert(v + m2.feed(last).queue_texts() =~= v);
    }
}

/// Whether a string may begin in a state.
pub open spec fn string_may_begin(state: State) -> bool {
    state is Start || state is Value || state is Array || state is Object || state is Key
}

/// An opening quote begins a string with an empty value buffer.
pub proof fn lemma_open_string(m: Machine)
    requires
        string_may_begin(m.state),
        !m.high_surrogate,
    ensures
        m.feed(0x22) == (Machine { state: State::Text, buffer: Seq::empty(), ..m.skipped(1) }),
{
    reveal(Machine::feed);
}

/// A closing quote ends a string: a field name where a key is due, else a
/// string value.
pub proof fn lemma_close_string(m: Machine)
    requires
        m.state is Text,
        !m.high_surrogate,
    ensures
        m.feed(0x22) == if m.top() == Some(Mode::Key) {
            Machine { state: State::Colon, event1: JsonEvent::FieldName, ..m.skipped(1) }
        } else {
            Machine { state: State::Okay, event1: JsonEvent::ValueString, ..m.skipped(1) }
        },
{
    reveal(Machine::feed);
}

/// The UTF-8 encoding of a string and one more character.
pub proof fn lemma_encode_push(s: Seq<char>, c: char)
    ensures
        encode_utf8(s.push(c)) == encode_utf8(s) + encode_scalar(c as u32),
    decreases s.len(),
{
    let t = s.push(c);
    if s.len() == 0 {
        assert(t.drop_first() =~= Seq::<char>::empty());
        assert(s =~= Seq::<char>::empty());
        assert(encode_utf8(Seq::<char>::empty()) =~= Seq::<u8>::empty());
        assert(t[0] == c);
        assert(encode_utf8(t) =~= encode_scalar(c as u32) + encode_utf8(t.drop_first()));
        assert(encode_utf8(t) =~= encode_utf8(s) + encode_scalar(c as u32));
    } else {
        assert(t[0] == s[0]);
        assert(t.drop_first() =~= s.drop_first().push(c));
        lemma_encode_push(s.drop_first(), c);
        assert(encode_utf8(t) =~= encode_utf8(s) + encode_scalar(c as u32));
    }
}

/// A parser that is about to read a value reads an integer, which waits
/// for the byte that completes it.
pub proof fn lemma_reads_int(m: Machine, negative: bool, whole: nat)
    requires
        ready(m),
    ensures
        reads_written(m, written(Syntax::Int(negative, whole))),
{
    let w = written(Syntax::Int(negative, whole));
    let none = Seq::<JsonEvent>::empty();
    let no_text = Seq::<Seq<u8>>::empty();
    let a0 = Seq::<u8>::empty();
    lemma_reads_nothing(m);
    assert(m.cleared() == m);
    if negative {
        lemma_minus(m);
        lemma_reads_push(m, a0, none, no_text, m, 0x2D);
        let m1 = m.feed(0x2D).cleared();
        assert(m1 == m.feed(0x2D));
        assert(none + m.feed(0x2D).queue() =~= none);
        assert(no_text + m.feed(0x2D).queue_texts() =~= no_text);
        lemma_feed_wf(m, 0x2D);
        lemma_reads_digits(m, a0.push(0x2D), none, no_text, m1, whole);
        let m2 = after_digits(m1, whole);
        assert(a0.push(0x2D) + digits(whole) =~= w.text);
        assert(m2.buffer =~= w.text);
        let tr = m.drain(w.text, false);
        assert(tr.machine == m2);
        assert(tr.events + pending(m2) =~= w.events);
        assert(tr.values + pending_texts(m2) =~= w.values);
    } else {
        lemma_reads_digits(m, a0, none, no_text, m, whole);
        let m2 = after_digits(m, whole);
        assert(a0 + digits(whole) =~= w.text);
        let tr = m.drain(w.text, false);
        assert(tr.machine == m2);
        assert(tr.events + pending(m2) =~= w.events);
        assert(tr.values + pending_texts(m2) =~= w.values);
    }
}

/// Whether white space may stand where the parser is: before a text,
/// after a value, and around the brackets, commas and colons of
/// structures.
pub open spec fn blank_may_follow(state: State) -> bool {
    state is Start || state is Okay || state is Object || state is Key || state is Colon
        || state is Value || state is Array
}

/// White space outside of scalars changes nothing but the count of bytes.
pub proof fn lemma_blank_stays(m: Machine, b: u8)
    requires
        blank_may_follow(m.state),
        m.event1 is NeedMoreInput,
        !m.high_surrogate,
        is_blank(b),
    ensures
        m.feed(b) == m.skipped(1),
{
    reveal(Machine::feed);
}

/// Reading some input and then white space outside of scalars.
pub proof fn lemma_reads_blanks(
    m: Machine,
    a: Seq<u8>,
    e: Seq<JsonEvent>,
    v: Seq<Seq<u8>>,
    m1: Machine,
    ws: Seq<u8>,
)
    requires
        m.wf(),
        reads(m, a, e, v, m1),
        m1.wf(),
        m1.quiet(),
        blank_may_follow(m1.state),
        !m1.high_surrogate,
        all_blank(ws),
    ensures
        reads(m, a + ws, e, v, m1.skipped(ws.len() as int)),
        m1.skipped(ws.len() as int).wf(),
    decreases ws.len(),
{
    if ws.len() == 0 {
        assert(a + ws =~= a);
        assert(m1.skipped(0) == m1);
    } else {
        let front = ws.drop_last();
        let last = ws.last();
        assert(all_blank(front)) by {
            assert forall|j: int| 0 <= j < front.len() implies is_blank(#[trigger] front[j]) by {
                assert(front[j] == ws[j]);
            }
        }
        lemma_reads_blanks(m, a, e, v, m1, front);
        let m2 = m1.skipped(front.len() as int);
        lemma_blank_stays(m2, last);
        lemma_reads_push(m, a + front, e, v, m2, last);
        assert((a + front).push(last) =~= a + ws);
        assert(e + m2.feed(last).queue() =~= e);
        assert(v + m2.feed(last).queue_texts() =~= v);
        assert(m2.feed(last).cleared() == m1.skipped(ws.len() as int));
    }
}

/// White space after a number completes the number.
pub proof fn lemma_blank_completes_number(m: Machine, b: u8)
    requires
        m.state.ends_number(),
        !m.high_surrogate,
        is_blank(b),
    ensures
        m.feed(b) == (Machine { state: State::Okay, event1: m.state.event(), ..m.skipped(1) }),
{
    reveal(Machine::feed);
}

/// The state in which white space after a value leaves the parser.
pub open spec fn after_blanks(m: Machine, ws: Seq<u8>) -> Machine {
    if ws.len() == 0 {
        m
    } else {
        Machine { state: State::Okay, ..m.skipped(ws.len() as int) }
    }
}

/// Reading some input and then white space after a value: the white space
/// completes the value if it is a number.
pub proof fn lemma_reads_blanks_after_value(
    m: Machine,
    a: Seq<u8>,
    e: Seq<JsonEvent>,
    v: Seq<Seq<u8>>,
    m1: Machine,
    ws: Seq<u8>,
)
    requires
        m.wf(),
        reads(m, a, e, v, m1),
        m1.wf(),
        m1.quiet(),
        m1.state is Okay || m1.state.ends_number(),
        !m1.high_surrogate,
        all_blank(ws),
    ensures
        reads(
            m,
            a + ws,
            e + (if ws.len() > 0 {
                pending(m1)
            } else {
                Seq::empty()
            }),
            v + (if ws.len() > 0 {
                pending_texts(m1)
            } else {
                Seq::empty()
            }),
            after_blanks(m1, ws),
        ),
        after_blanks(m1, ws).wf(),
{
    if ws.len() == 0 {
        assert(a + ws =~= a);
        assert(e + Seq::<JsonEvent>::empty() =~= e);
        assert(v + Seq::<Seq<u8>>::empty() =~= v);
    } else {
        let first = ws[0];
        let rest = ws.skip(1);
        assert(all_blank(rest)) by {
            assert forall|j: int| 0 <= j < rest.len() implies is_blank(#[trigger] rest[j]) by {
                assert(rest[j] == ws[j + 1]);
            }
        }
        if m1.state is Okay {
            lemma_blank_stays(m1, first);
        } else {
            lemma_blank_completes_number(m1, first);
        }
        lemma_reads_push(m, a, e, v, m1, first);
        let r = m1.feed(first);
        let m2 = r.cleared();
        assert(r.queue() =~= pending(m1));
        assert(r.queue_texts() =~= pending_texts(m1));
        assert(m2 == Machine { state: State::Okay, ..m1.skipped(1) });
        lemma_reads_blanks(m, a.push(first), e + pending(m1), v + pending_texts(m1), m2, rest);
        assert(a.push(first) + rest =~= a + ws);
        assert(m2.skipped(rest.len() as int) == after_blanks(m1, ws));
    }
}

/// Reading some input and then one more byte that gives rise to no event.
pub proof fn lemma_reads_silent(
    m: Machine,
    a: Seq<u8>,
    e: Seq<JsonEvent>,
    v: Seq<Seq<u8>>,
    m1: Machine,
    b: u8,
)
    requires
        m.wf(),
        reads(m, a, e, v, m1),
        m1.wf(),
        m1.quiet(),
        m1.feed(b).quiet(),
    ensures
        reads(m, a.push(b), e, v, m1.feed(b)),
        m1.feed(b).wf(),
{
    lemma_feed_wf(m1, b);
    lemma_reads_push(m, a, e, v, m1, b);
    let r = m1.feed(b);
    assert(r.cleared() == r);
    assert(e + r.queue() =~= e);
    assert(v + r.queue_texts() =~= v);
}

/// The state in which a piece of a string leaves the parser.
pub open spec fn after_piece(m: Machine, p: StringPiece) -> Machine {
    Machine { buffer: m.buffer + encode_scalar(p.scalar()), ..m.skipped(p.text().len() as int) }
}

/// Reading some input and then, inside a string, a one-letter escape.
proof fn lemma_reads_short(
    m: Machine,
    a: Seq<u8>,
    e: Seq<JsonEvent>,
    v: Seq<Seq<u8>>,
    m1: Machine,
    letter: u8,
)
    requires
        m.wf(),
        reads(m, a, e, v, m1),
        m1.wf(),
        m1.quiet(),
        m1.state is Text,
        !m1.high_surrogate,
        unescape(letter) is Some,
    ensures
        reads(m, a + StringPiece::Short(letter).text(), e, v, after_piece(
            m1,
            StringPiece::Short(letter),
        )),
        after_piece(m1, StringPiece::Short(letter)).wf(),
{
    let p = StringPiece::Short(letter);
    let x = unescape(letter)->0;
    lemma_escape_begins(m1);
    lemma_reads_silent(m, a, e, v, m1, 0x5C);
    let m2 = m1.feed(0x5C);
    lemma_short_escape(m2, letter);
    lemma_reads_silent(m, a.push(0x5C), e, v, m2, letter);
    lemma_low_bits(x as u32);
    assert(a.push(0x5C).push(letter) =~= a + p.text());
    assert(m2.buffer.drop_last().push(x) =~= m1.buffer + encode_scalar(x as u32));
}

/// Reading some input and then, inside a string, the escape of a code
/// unit that is no surrogate.
proof fn lemma_reads_unicode(
    m: Machine,
    a: Seq<u8>,
    e: Seq<JsonEvent>,
    v: Seq<Seq<u8>>,
    m1: Machine,
    d3: u8,
    d2: u8,
    d1: u8,
    d0: u8,
)
    requires
        m.wf(),
        reads(m, a, e, v, m1),
        m1.wf(),
        m1.quiet(),
        m1.state is Text,
        !m1.high_surrogate,
        StringPiece::Unicode(d3, d2, d1, d0).valid(),
        StringPiece::Unicode(d3, d2, d1, d0).strict(),
    ensures
        reads(m, a + StringPiece::Unicode(d3, d2, d1, d0).text(), e, v, after_piece(
            m1,
            StringPiece::Unicode(d3, d2, d1, d0),
        )),
        after_piece(m1, StringPiece::Unicode(d3, d2, d1, d0)).wf(),
{
    let p = StringPiece::Unicode(d3, d2, d1, d0);
    lemma_escape_begins(m1);
    lemma_reads_silent(m, a, e, v, m1, 0x5C);
    let m2 = m1.feed(0x5C);
    lemma_unicode_escape_begins(m2);
    lemma_reads_silent(m, a.push(0x5C), e, v, m2, 0x75);
    let m3 = m2.feed(0x75);
    lemma_hex_digit(m3, d3);
    lemma_reads_silent(m, a.push(0x5C).push(0x75), e, v, m3, d3);
    let m4 = m3.feed(d3);
    lemma_hex_digit(m4, d2);
    lemma_reads_silent(m, a.push(0x5C).push(0x75).push(d3), e, v, m4, d2);
    let m5 = m4.feed(d2);
    lemma_hex_digit(m5, d1);
    lemma_reads_silent(m, a.push(0x5C).push(0x75).push(d3).push(d2), e, v, m5, d1);
    let m6 = m5.feed(d1);
    let n = m6.buffer.len() as int;
    assert(n == m1.buffer.len() + 5);
    assert(m6.buffer[n - 3] == d3 && m6.buffer[n - 2] == d2 && m6.buffer[n - 1] == d1);
    lemma_code_unit(m6, d0);
    lemma_reads_silent(m, a.push(0x5C).push(0x75).push(d3).push(d2).push(d1), e, v, m6, d0);
    assert(a.push(0x5C).push(0x75).push(d3).push(d2).push(d1).push(d0) =~= a + p.text());
    assert(m6.buffer.take(n - 5) =~= m1.buffer);
}

/// Reading some input and then, inside a string, the escapes of the two
/// halves of a surrogate pair.
proof fn lemma_reads_pair(
    m: Machine,
    a: Seq<u8>,
    e: Seq<JsonEvent>,
    v: Seq<Seq<u8>>,
    m1: Machine,
    p: StringPiece,
)
    requires
        m.wf(),
        reads(m, a, e, v, m1),
        m1.wf(),
        m1.quiet(),
        m1.state is Text,
        !m1.high_surrogate,
        p is Pair,
        p.valid(),
    ensures
        reads(m, a + p.text(), e, v, after_piece(m1, p)),
        after_piece(m1, p).wf(),
{
    let h3 = p->Pair_0;
    let h2 = p->Pair_1;
    let h1 = p->Pair_2;
    let h0 = p->Pair_3;
    let l3 = p->Pair_4;
    let l2 = p->Pair_5;
    let l1 = p->Pair_6;
    let l0 = p->Pair_7;
    lemma_escape_begins(m1);
    lemma_reads_silent(m, a, e, v, m1, 0x5C);
    let m2 = m1.feed(0x5C);
    let a2 = a.push(0x5C);
    lemma_unicode_escape_begins(m2);
    lemma_reads_silent(m, a2, e, v, m2, 0x75);
    let m3 = m2.feed(0x75);
    let a3 = a2.push(0x75);
    lemma_hex_digit(m3, h3);
    lemma_reads_silent(m, a3, e, v, m3, h3);
    let m4 = m3.feed(h3);
    let a4 = a3.push(h3);
    lemma_hex_digit(m4, h2);
    lemma_reads_silent(m, a4, e, v, m4, h2);
    let m5 = m4.feed(h2);
    let a5 = a4.push(h2);
    lemma_hex_digit(m5, h1);
    lemma_reads_silent(m, a5, e, v, m5, h1);
    let m6 = m5.feed(h1);
    let a6 = a5.push(h1);
    let n6 = m6.buffer.len() as int;
    assert(m6.buffer[n6 - 3] == h3 && m6.buffer[n6 - 2] == h2 && m6.buffer[n6 - 1] == h1);
    lemma_first_half(m6, h0);
    lemma_reads_silent(m, a6, e, v, m6, h0);
    let m7 = m6.feed(h0);
    let a7 = a6.push(h0);
    lemma_escape_begins(m7);
    lemma_reads_silent(m, a7, e, v, m7, 0x5C);
    let m8 = m7.feed(0x5C);
    let a8 = a7.push(0x5C);
    lemma_unicode_escape_begins(m8);
    lemma_reads_silent(m, a8, e, v, m8, 0x75);
    let m9 = m8.feed(0x75);
    let a9 = a8.push(0x75);
    lemma_hex_digit(m9, l3);
    lemma_reads_silent(m, a9, e, v, m9, l3);
    let m10 = m9.feed(l3);
    let a10 = a9.push(l3);
    lemma_hex_digit(m10, l2);
    lemma_reads_silent(m, a10, e, v, m10, l2);
    let m11 = m10.feed(l2);
    let a11 = a10.push(l2);
    lemma_hex_digit(m11, l1);
    lemma_reads_silent(m, a11, e, v, m11, l1);
    let m12 = m11.feed(l1);
    let a12 = a11.push(l1);
    let n = m12.buffer.len() as int;
    assert(n == m1.buffer.len() + 11);
    assert(m12.buffer[n - 3] == l3 && m12.buffer[n - 2] == l2 && m12.buffer[n - 1] == l1);
    assert(m12.buffer[n - 9] == h3 && m12.buffer[n - 8] == h2 && m12.buffer[n - 7] == h1
        && m12.buffer[n - 6] == h0);
    lemma_second_half(m12, l0);
    lemma_reads_silent(m, a12, e, v, m12, l0);
    assert(a12.push(l0) =~= a + p.text());
    assert(m12.buffer.take(n - 11) =~= m1.buffer);
}

/// Reading some input and then, inside a string, a piece of the string.
pub proof fn lemma_reads_piece(
    m: Machine,
    a: Seq<u8>,
    e: Seq<JsonEvent>,
    v: Seq<Seq<u8>>,
    m1: Machine,
    p: StringPiece,
)
    requires
        m.wf(),
        reads(m, a, e, v, m1),
        m1.wf(),
        m1.quiet(),
        m1.state is Text,
        !m1.high_surrogate,
        p.valid(),
        p.strict(),
    ensures
        reads(m, a + p.text(), e, v, after_piece(m1, p)),
        after_piece(m1, p).wf(),
{
    match p {
        StringPiece::Plain(c) => {
            lemma_plain_char_bytes(c);
            lemma_reads_text(m, a, e, v, m1, encode_scalar(c as u32));
        },
        StringPiece::Short(letter) => {
            lemma_reads_short(m, a, e, v, m1, letter);
        },
        StringPiece::Unicode(d3, d2, d1, d0) => {
            lemma_reads_unicode(m, a, e, v, m1, d3, d2, d1, d0);
        },
        StringPiece::Pair(h3, h2, h1, h0, l3, l2, l1, l0) => {
            lemma_reads_pair(m, a, e, v, m1, p);
        },
        StringPiece::Raw(b) => {},
    }
}

/// What a well-formed piece of a string stands for is a code point, so
/// that it is the code of the character that it makes.
pub proof fn lemma_piece_scalar(p: StringPiece)
    requires
        p.valid(),
        p.strict(),
    ensures
        is_scalar(p.scalar()),
        (p.scalar() as char) as u32 == p.scalar(),
{
    match p {
        StringPiece::Plain(c) => {
            vstd::utf8::char_is_scalar(c);
        },
        _ => {},
    }
}

/// The state in which the pieces of a string leave the parser.
pub open spec fn after_pieces(m: Machine, pieces: Seq<StringPiece>) -> Machine {
    Machine {
        buffer: m.buffer + encode_utf8(pieces_chars(pieces)),
        ..m.skipped(pieces_text(pieces).len() as int)
    }
}

/// Reading some input and then, inside a string, the pieces of the
/// string.
pub proof fn lemma_reads_pieces(
    m: Machine,
    a: Seq<u8>,
    e: Seq<JsonEvent>,
    v: Seq<Seq<u8>>,
    m1: Machine,
    pieces: Seq<StringPiece>,
)
    requires
        m.wf(),
        reads(m, a, e, v, m1),
        m1.wf(),
        m1.quiet(),
        m1.state is Text,
        !m1.high_surrogate,
        pieces_valid(pieces),
        pieces_strict(pieces),
    ensures
        reads(m, a + pieces_text(pieces), e, v, after_pieces(m1, pieces)),
        after_pieces(m1, pieces).wf(),
    decreases pieces.len(),
{
    if pieces.len() == 0 {
        assert(a + pieces_text(pieces) =~= a);
        assert(encode_utf8(pieces_chars(pieces)) =~= Seq::<u8>::empty());
        assert(m1.buffer + encode_utf8(pieces_chars(pieces)) =~= m1.buffer);
        assert(after_pieces(m1, pieces) == m1);
    } else {
        let front = pieces.drop_last();
        let p = pieces.last();
        assert(pieces_valid(front)) by {
            assert forall|j: int| 0 <= j < front.len() implies (#[trigger] front[j]).valid() by {
                assert(front[j] == pieces[j]);
            }
        }
        assert(pieces_strict(front)) by {
            assert forall|j: int| 0 <= j < front.len() implies (#[trigger] front[j]).strict() by {
                assert(front[j] == pieces[j]);
            }
        }
        lemma_reads_pieces(m, a, e, v, m1, front);
        let m2 = after_pieces(m1, front);
        lemma_reads_piece(m, a + pieces_text(front), e, v, m2, p);
        lemma_piece_scalar(p);
        lemma_encode_push(pieces_chars(front), p.scalar() as char);
        assert((a + pieces_text(front)) + p.text() =~= a + pieces_text(pieces));
        assert((m1.buffer + encode_utf8(pieces_chars(front))) + encode_scalar(p.scalar())
            =~= m1.buffer + encode_utf8(pieces_chars(pieces)));
        assert(after_piece(m2, p) == after_pieces(m1, pieces));
    }
}

/// The state in which a string leaves the parser, and its event.
pub open spec fn after_string(m: Machine, pieces: Seq<StringPiece>) -> Machine {
    Machine {
        state: if m.top() == Some(Mode::Key) {
            State::Colon
        } else {
            State::Okay
        },
        buffer: encode_utf8(pieces_chars(pieces)),
        ..m.skipped(pieces_text(pieces).len() as int + 2)
    }
}

/// Reading some input and then a string between quotes.
pub proof fn lemma_reads_string(
    m: Machine,
    a: Seq<u8>,
    e: Seq<JsonEvent>,
    v: Seq<Seq<u8>>,
    m1: Machine,
    pieces: Seq<StringPiece>,
)
    requires
        m.wf(),
        reads(m, a, e, v, m1),
        m1.wf(),
        m1.quiet(),
        string_may_begin(m1.state),
        !m1.high_surrogate,
        pieces_valid(pieces),
        pieces_strict(pieces),
    ensures
        reads(
            m,
            a + quoted(pieces),
            e + seq![
                if m1.top() == Some(Mode::Key) {
                    JsonEvent::FieldName
                } else {
                    JsonEvent::ValueString
                },
            ],
            v + seq![encode_utf8(pieces_chars(pieces))],
            after_string(m1, pieces),
        ),
        after_string(m1, pieces).wf(),
{
    let bytes = encode_utf8(pieces_chars(pieces));
    lemma_open_string(m1);
    lemma_reads_silent(m, a, e, v, m1, 0x22);
    let m2 = m1.feed(0x22);
    lemma_reads_pieces(m, a.push(0x22), e, v, m2, pieces);
    let m3 = after_pieces(m2, pieces);
    assert(m2.buffer + bytes =~= bytes);
    lemma_close_string(m3);
    lemma_reads_push(m, a.push(0x22) + pieces_text(pieces), e, v, m3, 0x22);
    assert((a.push(0x22) + pieces_text(pieces)).push(0x22) =~= a + quoted(pieces));
    assert(m3.feed(0x22).cleared() == after_string(m1, pieces));
}

} // verus!
