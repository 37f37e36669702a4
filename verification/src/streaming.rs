//! Streaming: a parser that accepts several top-level values reads a value
//! after another value as it reads it alone.
use crate::error::ParserError;
use crate::event::JsonEvent;
use crate::laws::{
    law_chunking, law_drain, lemma_initial_wf, lemma_run_progress, lemma_bottom_is_top_level,
    lemma_run_wf, text_of,
};
use crate::machine::{Machine, Outcome};
use crate::syntax::{all_blank, is_blank};
use crate::table::{class_of, transition, Mode, State, Transition};
use vstd::prelude::*;

verus! {

/// Whether an event comes with a text.
pub open spec fn has_text(e: JsonEvent) -> bool {
    e is FieldName || e is ValueString || e is ValueInt || e is ValueFloat
}

impl Machine {
    /// Whether the value buffer holds something that is still to be read:
    /// the bytes of a scalar that is being collected, or the text of an
    /// event that waits to be handed out.
    pub open spec fn live(self) -> bool {
        self.state.in_scalar() || has_text(self.event1) || has_text(self.event2)
    }

    /// The machine after `k` more bytes have been counted.
    pub open spec fn skipped(self, k: int) -> Machine {
        Machine { parsed_bytes: self.parsed_bytes + k, ..self }
    }
}

/// Two parsers go the same way if they differ at most in the number of
/// bytes that they have counted and in a value buffer that nobody will
/// read.
pub open spec fn same_way(x: Machine, y: Machine) -> bool {
    &&& x.stack == y.stack
    &&& x.max_depth == y.max_depth
    &&& x.streaming == y.streaming
    &&& x.state == y.state
    &&& x.event1 == y.event1
    &&& x.event2 == y.event2
    &&& x.putback == y.putback
    &&& x.high_surrogate == y.high_surrogate
    &&& x.halted == y.halted
    &&& x.buffer == y.buffer || !x.live()
}

/// Two parsers are alike if parsing has ended for both with the same
/// error, or if it has ended for neither and they go the same way.
pub open spec fn alike(x: Machine, y: Machine) -> bool {
    if x.halted is Some {
        x.halted == y.halted
    } else {
        same_way(x, y)
    }
}

/// Whether two steps come to the same: both fail with the same error, or
/// both succeed and lead to parsers that are alike.
pub open spec fn alike_steps(
    x: Result<Machine, ParserError>,
    y: Result<Machine, ParserError>,
) -> bool {
    match (x, y) {
        (Ok(p), Ok(q)) => same_way(p, q),
        (Err(e), Err(f)) => e == f,
        _ => false,
    }
}

/// Parsers that are alike stay alike when they take the same byte into
/// their value buffers.
proof fn lemma_collect_alike(x: Machine, y: Machine, next: State, b: u8)
    requires
        same_way(x, y),
        next.in_scalar(),
    ensures
        alike_steps(x.collect(next, b), y.collect(next, b)),
{
}

/// Parsers that are alike stay alike when they perform the same action.
proof fn lemma_action_alike(x: Machine, y: Machine, action: crate::table::Action)
    requires
        same_way(x, y),
        action is EndString ==> x.state is Text,
    ensures
        alike_steps(x.perform_action(action), y.perform_action(action)),
{
}

/// Parsers that are alike stay alike when they parse the same byte.
proof fn lemma_parse_alike(x: Machine, y: Machine, b: u8)
    requires
        same_way(x, y),
    ensures
        alike_steps(x.parse(b), y.parse(b)),
{
    match class_of(b) {
        None => {},
        Some(class) => {
            if x.high_surrogate && !x.continues_pair(b) {
            } else {
                let (tx, rx) = x.resolve(b, class);
                let (ty, ry) = y.resolve(b, class);
                assert(tx == ty);
                assert(same_way(rx, ry));
                match tx {
                    Transition::Goto(next) => {
                        if next.in_scalar() {
                            lemma_collect_alike(rx, ry, next, b);
                        } else {
                            if transition(x.state, class) is Recover {
                                assert(x.state is Okay || x.state.ends_number());
                            }
                        }
                    },
                    Transition::Act(action) => {
                        if action is EndString {
                            assert(transition(x.state, class) == tx);
                            assert(x.state is Text);
                        }
                        lemma_action_alike(rx, ry, action);
                    },
                    _ => {},
                }
            }
        },
    }
}

/// Parsers that are alike stay alike when they parse the same byte.
pub proof fn lemma_feed_alike(x: Machine, y: Machine, b: u8)
    requires
        alike(x, y),
        x.halted is None,
    ensures
        alike(x.feed(b), y.feed(b)),
{
    reveal(Machine::feed);
    lemma_parse_alike(x.skipped(1), y.skipped(1), b);
}

/// Parsers that are alike answer a call alike: with the same result and
/// the same text, leaving the same bytes, and alike again.
pub proof fn lemma_run_alike(x: Machine, y: Machine, input: Seq<u8>, closed: bool)
    requires
        alike(x, y),
    ensures
        ({
            let p = x.run(input, closed);
            let q = y.run(input, closed);
            &&& p.result == q.result
            &&& p.rest == q.rest
            &&& alike(p.machine, q.machine)
            &&& p.result matches Ok(Some(e)) ==> text_of(e, p.machine.buffer) == text_of(
                e,
                q.machine.buffer,
            )
        }),
    decreases input.len() + (if x.putback is Some {
        1nat
    } else {
        0nat
    }),
{
    if !(x.halted is None && x.event1 is NeedMoreInput) {
    } else {
        match x.putback {
            Some(b) => {
                lemma_feed_alike(x.taken(), y.taken(), b);
                let r = x.taken().feed(b);
                if r.quiet() {
                    lemma_run_alike(r, y.taken().feed(b), input, closed);
                }
            },
            None => {
                if input.len() > 0 {
                    lemma_feed_alike(x, y, input[0]);
                    let r = x.feed(input[0]);
                    if r.quiet() {
                        lemma_run_alike(r, y.feed(input[0]), input.skip(1), closed);
                    }
                }
            },
        }
    }
}

/// Parsers that are alike answer every sequence of calls alike: with the
/// same events and texts and the same last answer.
pub proof fn lemma_drain_alike(x: Machine, y: Machine, input: Seq<u8>, closed: bool)
    requires
        alike(x, y),
        x.wf(),
        y.wf(),
    ensures
        ({
            let t = x.drain(input, closed);
            let u = y.drain(input, closed);
            &&& t.events == u.events
            &&& t.values == u.values
            &&& t.ending == u.ending
            &&& t.rest == u.rest
            &&& alike(t.machine, u.machine)
        }),
    decreases x.weight(input),
{
    reveal(Machine::drain);
    lemma_run_alike(x, y, input, closed);
    lemma_run_wf(x, input, closed);
    lemma_run_wf(y, input, closed);
    lemma_run_progress(x, input, closed);
    let p = x.run(input, closed);
    let q = y.run(input, closed);
    match p.result {
        Ok(Some(e)) => {
            if !(e is NeedMoreInput) {
                lemma_drain_alike(p.machine, q.machine, p.rest, closed);
            }
        },
        _ => {},
    }
}

/// A parser that has completed a top-level value and a parser that has
/// read nothing, both of them streaming with nothing waiting.
pub open spec fn twins(y: Machine, i: Machine) -> bool {
    &&& y.state is Okay
    &&& i.state is Start
    &&& y.quiet() && i.quiet()
    &&& y.event2 is NeedMoreInput && i.event2 is NeedMoreInput
    &&& y.streaming && i.streaming
    &&& y.at_top_level() && i.at_top_level()
    &&& y.max_depth == i.max_depth
    &&& !y.high_surrogate && !i.high_surrogate
}

/// White space between values and before a text changes nothing but the
/// count of bytes.
proof fn lemma_blank_is_skipped(x: Machine, b: u8)
    requires
        x.state is Okay || x.state is Start,
        x.event1 is NeedMoreInput,
        !x.high_surrogate,
        is_blank(b),
    ensures
        x.feed(b) == x.skipped(1),
{
    reveal(Machine::feed);
}

/// White space after a number completes the number.
proof fn lemma_blank_ends_number(x: Machine, b: u8)
    requires
        x.state.ends_number(),
        !x.high_surrogate,
        is_blank(b),
    ensures
        x.feed(b) == (Machine { state: State::Okay, event1: x.state.event(), ..x.skipped(1) }),
{
    reveal(Machine::feed);
}

/// After a complete top-level value, a streaming parser takes a byte that
/// is no white space as a parser that has read nothing takes it.
proof fn lemma_twins_step(y: Machine, i: Machine, b: u8)
    requires
        twins(y, i),
        !is_blank(b),
    ensures
        alike(y.feed(b), i.feed(b)),
{
    reveal(Machine::feed);
    assert(y.stack =~= i.stack);
}

/// After a complete top-level value, a streaming parser answers a call as
/// a parser that has read nothing answers it, provided that the feeder
/// offers more than white space.
proof fn lemma_run_twins(y: Machine, i: Machine, input: Seq<u8>, closed: bool)
    requires
        twins(y, i),
        !all_blank(input),
    ensures
        ({
            let p = y.run(input, closed);
            let q = i.run(input, closed);
            &&& p.result == q.result
            &&& p.rest == q.rest
            &&& alike(p.machine, q.machine)
            &&& p.result matches Ok(Some(e)) ==> text_of(e, p.machine.buffer) == text_of(
                e,
                q.machine.buffer,
            )
        }),
    decreases input.len(),
{
    let j = choose|j: int| 0 <= j < input.len() && !is_blank(#[trigger] input[j]);
    let b = input[0];
    let rest = input.skip(1);
    if is_blank(b) {
        lemma_blank_is_skipped(y, b);
        lemma_blank_is_skipped(i, b);
        assert(!is_blank(rest[j - 1]));
        lemma_run_twins(y.skipped(1), i.skipped(1), rest, closed);
    } else {
        lemma_twins_step(y, i, b);
        let r = y.feed(b);
        if r.quiet() {
            lemma_run_alike(r, i.feed(b), rest, closed);
        }
    }
}

/// A call skips the white space that follows a complete value.
proof fn lemma_blank_prefix(x: Machine, ws: Seq<u8>, rest: Seq<u8>, closed: bool)
    requires
        x.state is Okay,
        x.quiet(),
        !x.high_surrogate,
        all_blank(ws),
    ensures
        x.run(ws + rest, closed) == x.skipped(ws.len() as int).run(rest, closed),
    decreases ws.len(),
{
    if ws.len() == 0 {
        assert(ws + rest =~= rest);
        assert(x.skipped(0) == x);
    } else {
        let input = ws + rest;
        assert(input[0] == ws[0]);
        assert(input.skip(1) =~= ws.skip(1) + rest);
        lemma_blank_is_skipped(x, ws[0]);
        assert(all_blank(ws.skip(1))) by {
            assert forall|k: int| 0 <= k < ws.skip(1).len() implies is_blank(
                #[trigger] ws.skip(1)[k],
            ) by {
                assert(ws.skip(1)[k] == ws[k + 1]);
            }
        }
        lemma_blank_prefix(x.skipped(1), ws.skip(1), rest, closed);
        assert(x.skipped(1).skipped(ws.len() - 1) == x.skipped(ws.len() as int));
    }
}

/// After a complete top-level value, a streaming parser answers every
/// sequence of calls as a parser that has read nothing answers it,
/// provided that the feeder offers more than white space.
proof fn lemma_drain_twins(y: Machine, i: Machine, input: Seq<u8>, closed: bool)
    requires
        twins(y, i),
        y.wf(),
        i.wf(),
        !all_blank(input),
    ensures
        ({
            let t = y.drain(input, closed);
            let u = i.drain(input, closed);
            &&& t.events == u.events
            &&& t.values == u.values
            &&& t.ending == u.ending
        }),
{
    reveal(Machine::drain);
    lemma_run_twins(y, i, input, closed);
    lemma_run_wf(y, input, closed);
    lemma_run_wf(i, input, closed);
    let p = y.run(input, closed);
    let q = i.run(input, closed);
    match p.result {
        Ok(Some(e)) => {
            if !(e is NeedMoreInput) {
                lemma_drain_alike(p.machine, q.machine, p.rest, closed);
            }
        },
        _ => {},
    }
}

/// What follows a complete top-level value: white space and then a text
/// are answered as the end of the input and then, by a parser that has
/// read nothing, the text alone.
proof fn lemma_after_value(m: Machine, i: Machine, ws: Seq<u8>, v2: Seq<u8>)
    requires
        m.wf(),
        m.quiet(),
        m.streaming,
        m.state is Okay || m.state.ends_number(),
        m.drain(Seq::empty(), true).ending is EndOfText,
        i == Machine::initial(m.max_depth, true),
        ws.len() > 0,
        all_blank(ws),
        !all_blank(v2),
    ensures
        ({
            let fin = m.drain(Seq::empty(), true);
            let tail = m.drain(ws + v2, true);
            let alone = i.drain(v2, true);
            &&& tail.events == fin.events + alone.events
            &&& tail.values == fin.values + alone.values
            &&& tail.ending == alone.ending
        }),
{
    reveal(Machine::drain);
    lemma_initial_wf(m.max_depth, true);
    let fin = m.drain(Seq::empty(), true);
    let tail = m.drain(ws + v2, true);
    let alone = i.drain(v2, true);
    let k = ws.len() as int;
    if m.state is Okay {
        assert(m.run(Seq::empty(), true) == m.finish());
        assert(m.top() == Some(Mode::Done));
        lemma_bottom_is_top_level(m);
        assert(fin.events =~= Seq::empty());
        assert(fin.values =~= Seq::empty());
        lemma_blank_prefix(m, ws, v2, true);
        let y = m.skipped(k);
        assert(tail == y.drain(v2, true));
        lemma_drain_twins(y, i, v2, true);
        assert(fin.events + alone.events =~= alone.events);
        assert(fin.values + alone.values =~= alone.values);
    } else {
        let e = m.state.event();
        let done = Machine { state: State::Okay, ..m };
        assert(m.run(Seq::empty(), true) == m.finish());
        assert(fin.ending == done.drain(Seq::empty(), true).ending);
        assert(done.run(Seq::empty(), true) == done.finish());
        assert(m.top() == Some(Mode::Done));
        lemma_bottom_is_top_level(m);
        assert(done.drain(Seq::empty(), true).events =~= Seq::empty());
        assert(done.drain(Seq::empty(), true).values =~= Seq::empty());
        assert(fin.events =~= seq![e]);
        assert(fin.values =~= seq![text_of(e, m.buffer)]);
        let input = ws + v2;
        assert(input[0] == ws[0]);
        assert(input.skip(1) =~= ws.skip(1) + v2);
        lemma_blank_ends_number(m, ws[0]);
        let y0 = Machine { state: State::Okay, ..m.skipped(1) };
        assert(m.feed(ws[0]).shift() == y0);
        assert(m.run(input, true) == (Outcome {
            machine: y0,
            rest: ws.skip(1) + v2,
            result: Ok(Some(e)),
        }));
        assert(all_blank(ws.skip(1))) by {
            assert forall|j: int| 0 <= j < ws.skip(1).len() implies is_blank(
                #[trigger] ws.skip(1)[j],
            ) by {
                assert(ws.skip(1)[j] == ws[j + 1]);
            }
        }
        lemma_blank_prefix(y0, ws.skip(1), v2, true);
        let y = y0.skipped(k - 1);
        assert(y0.drain(ws.skip(1) + v2, true) == y.drain(v2, true));
        lemma_drain_twins(y, i, v2, true);
        assert(tail.events =~= seq![e] + alone.events);
        assert(tail.values =~= seq![text_of(e, m.buffer)] + alone.values);
    }
}

/// Streaming: let `v1` be a complete JSON text, and let white space and
/// then a text `v2` follow it. A streaming parser that reads all of it
/// returns the events of `v1`, with their texts, and then what it returns
/// for `v2` alone.
///
/// This is stated of a text `v1` that a blank may follow, which leaves
/// out the texts that end in the middle of an exponent or of a keyword;
/// and of a text `v2` that is more than white space.
pub proof fn law_streaming_concat(max_depth: nat, v1: Seq<u8>, ws: Seq<u8>, v2: Seq<u8>)
    requires
        ws.len() > 0,
        all_blank(ws),
        !all_blank(v2),
        Machine::initial(max_depth, true).drain(v1, true).ending is EndOfText,
        ({
            let m = Machine::initial(max_depth, true).drain(v1, false).machine;
            m.state is Okay || m.state.ends_number()
        }),
    ensures
        ({
            let init = Machine::initial(max_depth, true);
            let one = init.drain(v1, true);
            let two = init.drain(v2, true);
            let both = init.drain(v1 + ws + v2, true);
            &&& both.events == one.events + two.events
            &&& both.values == one.values + two.values
            &&& both.ending == two.ending
        }),
{
    let init = Machine::initial(max_depth, true);
    lemma_initial_wf(max_depth, true);
    let first = init.drain(v1, false);
    law_drain(init, v1, false);
    law_chunking(init, v1, Seq::empty(), true);
    assert(v1 + Seq::<u8>::empty() =~= v1);
    law_chunking(init, v1, ws + v2, true);
    assert(v1 + ws + v2 =~= v1 + (ws + v2));
    let m = first.machine;
    lemma_after_value(m, init, ws, v2);
    let fin = m.drain(Seq::empty(), true);
    let tail = m.drain(ws + v2, true);
    let two = init.drain(v2, true);
    assert(first.events + (fin.events + two.events) =~= (first.events + fin.events) + two.events);
    assert(first.values + (fin.values + two.values) =~= (first.values + fin.values) + two.values);
}

} // verus!
