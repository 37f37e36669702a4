//! Reading a whole text: a parser that reads a well-formed JSON text
//! returns the events that the text stands for.
use crate::event::JsonEvent;
use crate::laws::{law_chunking, lemma_initial_wf};
use crate::machine::Machine;
use crate::reading::{
    after_blanks, after_string, lemma_reads_blanks, lemma_reads_blanks_after_value,
    lemma_reads_false, lemma_reads_float, lemma_reads_int, lemma_reads_nothing, lemma_reads_null,
    lemma_reads_push, lemma_reads_string, lemma_reads_then, lemma_reads_true, pending,
    pending_texts, reads, reads_written, ready, settled,
};
use crate::syntax::{
    pieces_chars, quoted, written, written_items, written_member, written_members, written_nothing,
    Member, Syntax, Written,
};
use crate::table::{Mode, State};
use crate::tree::Tree;
use vstd::prelude::*;
use vstd::utf8::encode_utf8;

verus! {

/// An opening square bracket begins an array, if the stack has room.
proof fn lemma_open_array(m: Machine)
    requires
        ready(m),
        m.stack.len() < m.max_depth,
    ensures
        m.feed(0x5B) == (Machine {
            stack: m.stack.push(Mode::Array),
            state: State::Array,
            event1: JsonEvent::StartArray,
            ..m.skipped(1)
        }),
{
    reveal(Machine::feed);
}

/// Whether a parser has just read a value or the opening bracket of a
/// structure, so that the structure may end.
pub open spec fn may_close(m: Machine, open: State) -> bool {
    &&& m.wf()
    &&& m.quiet()
    &&& !m.high_surrogate
    &&& m.state is Okay || m.state.ends_number() || m.state == open
}

/// A closing square bracket ends the innermost array, after the number
/// that it completes, if any.
proof fn lemma_close_array(m: Machine)
    requires
        may_close(m, State::Array),
        m.top() == Some(Mode::Array),
    ensures
        m.feed(0x5D).cleared() == (Machine {
            stack: m.stack.drop_last(),
            state: State::Okay,
            ..m.skipped(1)
        }),
        m.feed(0x5D).queue() == pending(m) + seq![JsonEvent::EndArray],
        m.feed(0x5D).queue_texts() == pending_texts(m) + seq![Seq::<u8>::empty()],
        m.feed(0x5D).halted is None,
        m.feed(0x5D).putback is None,
{
    reveal(Machine::feed);
    let r = m.feed(0x5D);
    assert(r.queue() =~= pending(m) + seq![JsonEvent::EndArray]);
    assert(r.queue_texts() =~= pending_texts(m) + seq![Seq::<u8>::empty()]);
}

/// A comma in an array completes the number before it, if any, and lets
/// the next value begin.
proof fn lemma_comma_in_array(m: Machine)
    requires
        m.wf(),
        m.quiet(),
        !m.high_surrogate,
        m.state is Okay || m.state.ends_number(),
        m.top() == Some(Mode::Array),
    ensures
        m.feed(0x2C).cleared() == (Machine { state: State::Value, ..m.skipped(1) }),
        m.feed(0x2C).queue() == pending(m),
        m.feed(0x2C).queue_texts() == pending_texts(m),
        m.feed(0x2C).halted is None,
        m.feed(0x2C).putback is None,
{
    reveal(Machine::feed);
    let r = m.feed(0x2C);
    assert(r.queue() =~= pending(m));
    assert(r.queue_texts() =~= pending_texts(m));
}

/// An opening brace begins an object, if the stack has room.
proof fn lemma_open_object(m: Machine)
    requires
        ready(m),
        m.stack.len() < m.max_depth,
    ensures
        m.feed(0x7B) == (Machine {
            stack: m.stack.push(Mode::Key),
            state: State::Object,
            event1: JsonEvent::StartObject,
            ..m.skipped(1)
        }),
{
    reveal(Machine::feed);
}

/// A closing brace right after the opening brace ends the object.
proof fn lemma_close_empty_object(m: Machine)
    requires
        m.wf(),
        m.quiet(),
        !m.high_surrogate,
        m.state is Object,
        m.top() == Some(Mode::Key),
    ensures
        m.feed(0x7D) == (Machine {
            stack: m.stack.drop_last(),
            state: State::Okay,
            event1: JsonEvent::EndObject,
            ..m.skipped(1)
        }),
{
    reveal(Machine::feed);
}

/// A closing brace after a member ends the innermost object, after the
/// number that it completes, if any.
proof fn lemma_close_object(m: Machine)
    requires
        m.wf(),
        m.quiet(),
        !m.high_surrogate,
        m.state is Okay || m.state.ends_number(),
        m.top() == Some(Mode::Object),
    ensures
        m.feed(0x7D).cleared() == (Machine {
            stack: m.stack.drop_last(),
            state: State::Okay,
            ..m.skipped(1)
        }),
        m.feed(0x7D).queue() == pending(m) + seq![JsonEvent::EndObject],
        m.feed(0x7D).queue_texts() == pending_texts(m) + seq![Seq::<u8>::empty()],
        m.feed(0x7D).halted is None,
        m.feed(0x7D).putback is None,
{
    reveal(Machine::feed);
    let r = m.feed(0x7D);
    assert(r.queue() =~= pending(m) + seq![JsonEvent::EndObject]);
    assert(r.queue_texts() =~= pending_texts(m) + seq![Seq::<u8>::empty()]);
}

/// A colon after a field name lets the value of the member begin.
proof fn lemma_colon(m: Machine)
    requires
        m.wf(),
        m.quiet(),
        !m.high_surrogate,
        m.state is Colon,
        m.top() == Some(Mode::Key),
    ensures
        m.feed(0x3A) == (Machine {
            stack: m.stack.drop_last().push(Mode::Object),
            state: State::Value,
            ..m.skipped(1)
        }),
{
    reveal(Machine::feed);
    reveal(crate::laws::bottomed);
}

/// A comma in an object completes the number before it, if any, and lets
/// the next member begin.
proof fn lemma_comma_in_object(m: Machine)
    requires
        m.wf(),
        m.quiet(),
        !m.high_surrogate,
        m.state is Okay || m.state.ends_number(),
        m.top() == Some(Mode::Object),
    ensures
        m.feed(0x2C).cleared() == (Machine {
            stack: m.stack.drop_last().push(Mode::Key),
            state: State::Key,
            ..m.skipped(1)
        }),
        m.feed(0x2C).queue() == pending(m),
        m.feed(0x2C).queue_texts() == pending_texts(m),
        m.feed(0x2C).halted is None,
        m.feed(0x2C).putback is None,
{
    reveal(Machine::feed);
    reveal(crate::laws::bottomed);
    let r = m.feed(0x2C);
    assert(r.queue() =~= pending(m));
    assert(r.queue_texts() =~= pending_texts(m));
}

/// Whether a parser is about to read a member of an object.
pub open spec fn ready_for_member(m: Machine) -> bool {
    &&& m.wf()
    &&& m.quiet()
    &&& !m.streaming
    &&& !m.high_surrogate
    &&& m.state is Object || m.state is Key
    &&& m.top() == Some(Mode::Key)
}

/// The parser `m` as it is when the value of a member begins.
pub open spec fn in_member(m: Machine) -> Machine {
    Machine { stack: m.stack.drop_last().push(Mode::Object), ..m }
}

/// Whether a parser that is about to read a member of an object reads the
/// text of `w`, which ends with the value of a member, and returns the
/// events and texts of `w`.
pub open spec fn reads_members(m: Machine, w: Written) -> bool {
    let tr = m.drain(w.text, false);
    &&& tr.ending is Starved
    &&& tr.rest == Seq::<u8>::empty()
    &&& settled(in_member(m), tr.machine)
    &&& tr.events + pending(tr.machine) == w.events
    &&& tr.values + pending_texts(tr.machine) == w.values
}

/// Putting sequences together in one order or another.
proof fn lemma_structure_events<A>(start: A, inner: Seq<A>, last: Seq<A>, end: A)
    ensures
        (seq![start] + inner) + (last + seq![end]) == seq![start] + (inner + last) + seq![end],
{
    assert((seq![start] + inner) + (last + seq![end]) =~= seq![start] + (inner + last) + seq![
        end,
    ]);
}

/// What a parser returns at the end of the input after a complete
/// top-level value: the number that the end completes, if any, and then
/// the end of the text.
proof fn lemma_reads_end(m: Machine)
    requires
        m.wf(),
        m.quiet(),
        m.state is Okay || m.state.ends_number(),
        m.at_top_level(),
    ensures
        ({
            let tr = m.drain(Seq::empty(), true);
            &&& tr.events == pending(m)
            &&& tr.values == pending_texts(m)
            &&& tr.ending is EndOfText
        }),
{
    reveal(Machine::drain);
    let nothing = Seq::<u8>::empty();
    let tr = m.drain(nothing, true);
    assert(m.run(nothing, true) == m.finish());
    if m.state is Okay {
        assert(tr.events =~= pending(m));
        assert(tr.values =~= pending_texts(m));
    } else {
        let done = Machine { state: State::Okay, ..m };
        assert(done.run(nothing, true) == done.finish());
        let rest = done.drain(nothing, true);
        assert(rest.events =~= Seq::empty());
        assert(rest.values =~= Seq::empty());
        assert(tr.events =~= pending(m));
        assert(tr.values =~= pending_texts(m));
    }
}

/// A parser that is about to read a value reads a well-formed text of a
/// value and returns the events of the text, except that a number at the
/// end of the text waits for the byte that completes it.
pub proof fn lemma_reads_value(m: Machine, s: Syntax)
    requires
        ready(m),
        written(s).valid,
        written(s).strict,
        m.stack.len() + written(s).depth <= m.max_depth,
    ensures
        reads_written(m, written(s)),
    decreases s, 1nat,
{
    match s {
        Syntax::Null => {
            lemma_reads_null(m);
        },
        Syntax::True => {
            lemma_reads_true(m);
        },
        Syntax::False => {
            lemma_reads_false(m);
        },
        Syntax::Int(negative, whole) => {
            lemma_reads_int(m, negative, whole);
        },
        Syntax::Float(f) => {
            lemma_reads_float(m, f);
            let w = written(s);
            let tr = m.drain(w.text, false);
            assert(tr.events + pending(tr.machine) =~= w.events);
            assert(tr.values + pending_texts(tr.machine) =~= w.values);
        },
        Syntax::String(pieces) => {
            lemma_reads_nothing(m);
            assert(m.cleared() == m);
            lemma_reads_string(m, Seq::empty(), Seq::empty(), Seq::empty(), m, pieces);
            let w = written(s);
            assert(Seq::<u8>::empty() + quoted(pieces) =~= w.text);
            assert(Seq::<JsonEvent>::empty() + seq![JsonEvent::ValueString] =~= w.events);
            assert(Seq::<Seq<u8>>::empty() + seq![encode_utf8(pieces_chars(pieces))]
                =~= w.values);
            let tr = m.drain(w.text, false);
            assert(tr.events + pending(tr.machine) =~= w.events);
            assert(tr.values + pending_texts(tr.machine) =~= w.values);
        },
        Syntax::Array(gap, items) => {
            lemma_reads_array(m, gap, items);
        },
        Syntax::Object(gap, members) => {
            lemma_reads_object(m, gap, members);
        },
        Syntax::Padded(before, inner, after) => {
            lemma_reads_padded(m, before, *inner, after);
        },
    }
}

/// A parser that is about to read a value reads a value with white space
/// before it and after it.
proof fn lemma_reads_padded(m: Machine, before: Seq<u8>, inner: Syntax, after: Seq<u8>)
    requires
        ready(m),
        written(Syntax::Padded(before, Box::new(inner), after)).valid,
        written(inner).strict,
        m.stack.len() + written(inner).depth <= m.max_depth,
    ensures
        reads_written(m, written(Syntax::Padded(before, Box::new(inner), after))),
    decreases inner, 2nat,
{
    let w = written(Syntax::Padded(before, Box::new(inner), after));
    let wi = written(inner);
    let none = Seq::<JsonEvent>::empty();
    let no_text = Seq::<Seq<u8>>::empty();
    let a0 = Seq::<u8>::empty();
    lemma_reads_nothing(m);
    assert(m.cleared() == m);
    lemma_reads_blanks(m, a0, none, no_text, m, before);
    let m1 = m.skipped(before.len() as int);
    lemma_reads_value(m1, inner);
    let tr1 = m1.drain(wi.text, false);
    let m2 = tr1.machine;
    lemma_reads_then(m, a0 + before, none, no_text, m1, wi.text, tr1.events, tr1.values, m2);
    lemma_reads_blanks_after_value(
        m,
        (a0 + before) + wi.text,
        none + tr1.events,
        no_text + tr1.values,
        m2,
        after,
    );
    let m3 = after_blanks(m2, after);
    assert(((a0 + before) + wi.text) + after =~= w.text);
    let tr = m.drain(w.text, false);
    assert(tr.machine == m3);
    if after.len() > 0 {
        assert(pending(m3) =~= Seq::empty());
        assert(pending_texts(m3) =~= Seq::empty());
        assert(tr.events + pending(m3) =~= tr1.events + pending(m2));
        assert(tr.values + pending_texts(m3) =~= tr1.values + pending_texts(m2));
    } else {
        assert(tr.events + pending(m3) =~= tr1.events + pending(m2));
        assert(tr.values + pending_texts(m3) =~= tr1.values + pending_texts(m2));
    }
}

/// A parser that is about to read a value reads an array.
proof fn lemma_reads_array(m: Machine, gap: Seq<u8>, items: Seq<Syntax>)
    requires
        ready(m),
        written(Syntax::Array(gap, items)).valid,
        written(Syntax::Array(gap, items)).strict,
        m.stack.len() + written(Syntax::Array(gap, items)).depth <= m.max_depth,
    ensures
        reads_written(m, written(Syntax::Array(gap, items))),
    decreases Syntax::Array(gap, items), 0nat,
{
    let w = written(Syntax::Array(gap, items));
    let inner = written_items(items);
    let none = Seq::<JsonEvent>::empty();
    let no_text = Seq::<Seq<u8>>::empty();
    let a0 = Seq::<u8>::empty();
    lemma_reads_nothing(m);
    assert(m.cleared() == m);
    lemma_open_array(m);
    lemma_reads_push(m, a0, none, no_text, m, 0x5B);
    let a1 = a0.push(0x5B);
    let e1 = none + m.feed(0x5B).queue();
    let v1 = no_text + m.feed(0x5B).queue_texts();
    let m1 = m.feed(0x5B).cleared();
    assert(e1 =~= seq![JsonEvent::StartArray]);
    assert(v1 =~= seq![Seq::<u8>::empty()]);
    assert(m1.stack.last() == Mode::Array);
    assert(m1.stack.drop_last() =~= m.stack);
    if items.len() == 0 {
        lemma_reads_blanks(m, a1, e1, v1, m1, gap);
        let m1g = m1.skipped(gap.len() as int);
        lemma_close_array(m1g);
        lemma_reads_push(m, a1 + gap, e1, v1, m1g, 0x5D);
        let m2 = m1g.feed(0x5D).cleared();
        assert((a1 + gap).push(0x5D) =~= w.text);
        let tr = m.drain(w.text, false);
        assert(tr.machine == m2);
        assert(tr.events + pending(m2) =~= w.events);
        assert(tr.values + pending_texts(m2) =~= w.values);
    } else {
        lemma_reads_items(m1, items);
        let tr1 = m1.drain(inner.text, false);
        let m2 = tr1.machine;
        lemma_reads_then(m, a1, e1, v1, m1, inner.text, tr1.events, tr1.values, m2);
        lemma_close_array(m2);
        lemma_reads_push(m, a1 + inner.text, e1 + tr1.events, v1 + tr1.values, m2, 0x5D);
        let m3 = m2.feed(0x5D).cleared();
        assert((a1 + inner.text).push(0x5D) =~= w.text);
        let tr = m.drain(w.text, false);
        assert(tr.machine == m3);
        lemma_structure_events(
            JsonEvent::StartArray,
            tr1.events,
            pending(m2),
            JsonEvent::EndArray,
        );
        lemma_structure_events(
            Seq::<u8>::empty(),
            tr1.values,
            pending_texts(m2),
            Seq::<u8>::empty(),
        );
        assert(pending(m3) =~= Seq::empty());
        assert(pending_texts(m3) =~= Seq::empty());
        assert(tr.events + pending(m3) =~= tr.events);
        assert(tr.values + pending_texts(m3) =~= tr.values);
    }
}

/// A parser that is about to read an element of an array reads the
/// elements of the array, with commas in between.
proof fn lemma_reads_items(m: Machine, items: Seq<Syntax>)
    requires
        ready(m),
        m.top() == Some(Mode::Array),
        items.len() > 0,
        written_items(items).valid,
        written_items(items).strict,
        m.stack.len() + written_items(items).depth <= m.max_depth,
    ensures
        reads_written(m, written_items(items)),
    decreases items,
{
    let w = written_items(items);
    let last = written(items.last());
    let front = items.drop_last();
    let before = written_items(front);
    if items.len() == 1 {
        assert(front.len() == 0);
        assert(before == written_nothing(Tree::Array(Seq::empty())));
        lemma_reads_value(m, items.last());
        assert(w.text == last.text);
        assert(w.events =~= last.events);
        assert(w.values =~= last.values);
    } else {
        lemma_reads_items(m, front);
        let tr0 = m.drain(before.text, false);
        let m0 = tr0.machine;
        lemma_comma_in_array(m0);
        lemma_reads_push(m, before.text, tr0.events, tr0.values, m0, 0x2C);
        let m1 = m0.feed(0x2C).cleared();
        lemma_reads_value(m1, items.last());
        let tr1 = m1.drain(last.text, false);
        let m2 = tr1.machine;
        lemma_reads_then(
            m,
            before.text.push(0x2C),
            tr0.events + pending(m0),
            tr0.values + pending_texts(m0),
            m1,
            last.text,
            tr1.events,
            tr1.values,
            m2,
        );
        assert(before.text.push(0x2C) + last.text =~= w.text);
        let tr = m.drain(w.text, false);
        assert(tr.machine == m2);
        assert(tr.events + pending(m2) =~= (tr0.events + pending(m0)) + (tr1.events + pending(
            m2,
        )));
        assert(tr.values + pending_texts(m2) =~= (tr0.values + pending_texts(m0)) + (tr1.values
            + pending_texts(m2)));
    }
}

/// A parser that is about to read a member of an object reads the member.
proof fn lemma_reads_member(m: Machine, member: Member)
    requires
        ready_for_member(m),
        written_member(member.0, member.1, member.2, written(member.3)).valid,
        written_member(member.0, member.1, member.2, written(member.3)).strict,
        m.stack.len() + written(member.3).depth <= m.max_depth,
    ensures
        reads_members(m, written_member(member.0, member.1, member.2, written(member.3))),
    decreases member.3, 3nat,
{
    let before_name = member.0;
    let name = member.1;
    let after_name = member.2;
    let value = member.3;
    let w = written_member(before_name, name, after_name, written(value));
    let none = Seq::<JsonEvent>::empty();
    let no_text = Seq::<Seq<u8>>::empty();
    let a0 = Seq::<u8>::empty();
    lemma_reads_nothing(m);
    assert(m.cleared() == m);
    lemma_reads_blanks(m, a0, none, no_text, m, before_name);
    let m0 = m.skipped(before_name.len() as int);
    lemma_reads_string(m, a0 + before_name, none, no_text, m0, name);
    let m1 = after_string(m0, name);
    let a1 = (a0 + before_name) + quoted(name);
    let e1 = none + seq![JsonEvent::FieldName];
    let v1 = no_text + seq![encode_utf8(pieces_chars(name))];
    lemma_reads_blanks(m, a1, e1, v1, m1, after_name);
    let m1b = m1.skipped(after_name.len() as int);
    lemma_colon(m1b);
    lemma_reads_push(m, a1 + after_name, e1, v1, m1b, 0x3A);
    let m2 = m1b.feed(0x3A).cleared();
    assert(m2 == m1b.feed(0x3A));
    assert(e1 + m1b.feed(0x3A).queue() =~= e1);
    assert(v1 + m1b.feed(0x3A).queue_texts() =~= v1);
    assert(m2.stack.last() == Mode::Object);
    lemma_reads_value(m2, value);
    let inner = written(value);
    let tr1 = m2.drain(inner.text, false);
    let m3 = tr1.machine;
    lemma_reads_then(
        m,
        (a1 + after_name).push(0x3A),
        e1,
        v1,
        m2,
        inner.text,
        tr1.events,
        tr1.values,
        m3,
    );
    assert((a1 + after_name).push(0x3A) + inner.text =~= w.text);
    let tr = m.drain(w.text, false);
    assert(tr.machine == m3);
    assert(tr.events + pending(m3) =~= seq![JsonEvent::FieldName] + (tr1.events + pending(m3)));
    assert(tr.values + pending_texts(m3) =~= seq![encode_utf8(pieces_chars(name))] + (tr1.values
        + pending_texts(m3)));
}

/// A parser that is about to read a member of an object reads the members
/// of the object, with commas in between.
proof fn lemma_reads_members(m: Machine, members: Seq<Member>)
    requires
        ready_for_member(m),
        members.len() > 0,
        written_members(members).valid,
        written_members(members).strict,
        m.stack.len() + written_members(members).depth <= m.max_depth,
    ensures
        reads_members(m, written_members(members)),
    decreases members,
{
    let w = written_members(members);
    let lm = members.last();
    let last = written_member(lm.0, lm.1, lm.2, written(lm.3));
    let front = members.drop_last();
    let before = written_members(front);
    if members.len() == 1 {
        assert(front.len() == 0);
        assert(before == written_nothing(Tree::Object(Seq::empty())));
        lemma_reads_member(m, lm);
        assert(w.text == last.text);
        assert(w.events =~= last.events);
        assert(w.values =~= last.values);
    } else {
        lemma_reads_members(m, front);
        let tr0 = m.drain(before.text, false);
        let m0 = tr0.machine;
        assert(m0.stack.last() == Mode::Object);
        lemma_comma_in_object(m0);
        lemma_reads_push(m, before.text, tr0.events, tr0.values, m0, 0x2C);
        let m1 = m0.feed(0x2C).cleared();
        assert(m1.stack =~= m.stack);
        lemma_reads_member(m1, lm);
        let tr1 = m1.drain(last.text, false);
        let m2 = tr1.machine;
        lemma_reads_then(
            m,
            before.text.push(0x2C),
            tr0.events + pending(m0),
            tr0.values + pending_texts(m0),
            m1,
            last.text,
            tr1.events,
            tr1.values,
            m2,
        );
        assert(before.text.push(0x2C) + last.text =~= w.text);
        let tr = m.drain(w.text, false);
        assert(tr.machine == m2);
        assert(tr.events + pending(m2) =~= (tr0.events + pending(m0)) + (tr1.events + pending(
            m2,
        )));
        assert(tr.values + pending_texts(m2) =~= (tr0.values + pending_texts(m0)) + (tr1.values
            + pending_texts(m2)));
    }
}

/// A parser that is about to read a value reads an object.
proof fn lemma_reads_object(m: Machine, gap: Seq<u8>, members: Seq<Member>)
    requires
        ready(m),
        written(Syntax::Object(gap, members)).valid,
        written(Syntax::Object(gap, members)).strict,
        m.stack.len() + written(Syntax::Object(gap, members)).depth <= m.max_depth,
    ensures
        reads_written(m, written(Syntax::Object(gap, members))),
    decreases Syntax::Object(gap, members), 0nat,
{
    let w = written(Syntax::Object(gap, members));
    let inner = written_members(members);
    let none = Seq::<JsonEvent>::empty();
    let no_text = Seq::<Seq<u8>>::empty();
    let a0 = Seq::<u8>::empty();
    lemma_reads_nothing(m);
    assert(m.cleared() == m);
    lemma_open_object(m);
    lemma_reads_push(m, a0, none, no_text, m, 0x7B);
    let a1 = a0.push(0x7B);
    let e1 = none + m.feed(0x7B).queue();
    let v1 = no_text + m.feed(0x7B).queue_texts();
    let m1 = m.feed(0x7B).cleared();
    assert(e1 =~= seq![JsonEvent::StartObject]);
    assert(v1 =~= seq![Seq::<u8>::empty()]);
    assert(m1.stack.last() == Mode::Key);
    assert(m1.stack.drop_last() =~= m.stack);
    if members.len() == 0 {
        lemma_reads_blanks(m, a1, e1, v1, m1, gap);
        let m1g = m1.skipped(gap.len() as int);
        lemma_close_empty_object(m1g);
        lemma_reads_push(m, a1 + gap, e1, v1, m1g, 0x7D);
        let m2 = m1g.feed(0x7D).cleared();
        assert((a1 + gap).push(0x7D) =~= w.text);
        let tr = m.drain(w.text, false);
        assert(tr.machine == m2);
        assert(tr.events + pending(m2) =~= w.events);
        assert(tr.values + pending_texts(m2) =~= w.values);
    } else {
        lemma_reads_members(m1, members);
        let tr1 = m1.drain(inner.text, false);
        let m2 = tr1.machine;
        lemma_reads_then(m, a1, e1, v1, m1, inner.text, tr1.events, tr1.values, m2);
        assert(m2.stack.last() == Mode::Object);
        lemma_close_object(m2);
        lemma_reads_push(m, a1 + inner.text, e1 + tr1.events, v1 + tr1.values, m2, 0x7D);
        let m3 = m2.feed(0x7D).cleared();
        assert(m3.stack =~= m.stack);
        assert((a1 + inner.text).push(0x7D) =~= w.text);
        let tr = m.drain(w.text, false);
        assert(tr.machine == m3);
        lemma_structure_events(
            JsonEvent::StartObject,
            tr1.events,
            pending(m2),
            JsonEvent::EndObject,
        );
        lemma_structure_events(
            Seq::<u8>::empty(),
            tr1.values,
            pending_texts(m2),
            Seq::<u8>::empty(),
        );
        assert(pending(m3) =~= Seq::empty());
        assert(pending_texts(m3) =~= Seq::empty());
        assert(tr.events + pending(m3) =~= tr.events);
        assert(tr.values + pending_texts(m3) =~= tr.values);
    }
}

/// Reading a well-formed text gives the events that the text stands for:
/// a parser that reads a well-formed JSON text, from a feeder that is done
/// after it, returns the events of the text with their texts, in order,
/// and then the end of the text.
///
/// A text is well formed if it is the text of a value as the syntax of
/// JSON describes it. This is stated of the well-formed texts whose
/// strings are made of characters, with no escape of an unpaired half of a
/// surrogate pair, and that are no deeper than the parser's stack allows.
pub proof fn law_reads_what_is_written(max_depth: nat, s: Syntax)
    requires
        written(s).valid,
        written(s).strict,
        1 + written(s).depth <= max_depth,
    ensures
        ({
            let all = Machine::initial(max_depth, false).drain(written(s).text, true);
            &&& all.events == written(s).events
            &&& all.values == written(s).values
            &&& all.ending is EndOfText
        }),
{
    let init = Machine::initial(max_depth, false);
    let w = written(s);
    lemma_initial_wf(max_depth, false);
    lemma_reads_value(init, s);
    let tr = init.drain(w.text, false);
    law_chunking(init, w.text, Seq::empty(), true);
    assert(w.text + Seq::<u8>::empty() =~= w.text);
    assert(tr.machine.stack =~= seq![Mode::Done]);
    lemma_reads_end(tr.machine);
}

/// A parser rejects no part of a well-formed text: wherever the text is
/// cut, a parser that is offered the first part, by a feeder that is not
/// done, returns events and then asks for more input. So a parser that
/// rejects a byte has read something that no well-formed text begins with
/// (or a text that is deeper than its stack allows).
pub proof fn law_reads_every_prefix(max_depth: nat, s: Syntax, a: Seq<u8>, b: Seq<u8>)
    requires
        written(s).valid,
        written(s).strict,
        1 + written(s).depth <= max_depth,
        written(s).text == a + b,
    ensures
        Machine::initial(max_depth, false).drain(a, false).ending is Starved,
{
    let init = Machine::initial(max_depth, false);
    lemma_initial_wf(max_depth, false);
    law_reads_what_is_written(max_depth, s);
    law_chunking(init, a, b, true);
}

} // verus!
