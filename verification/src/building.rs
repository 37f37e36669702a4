//! Building the tree of a well-formed text: the builder takes in the events
//! of the text and ends up with the tree that the text stands for.
use crate::error::ParserError;
use crate::event::JsonEvent;
use crate::laws::{
    lemma_initial_wf, lemma_run_extends, lemma_run_progress, lemma_run_result, lemma_run_wf,
    text_of,
};
use crate::machine::Machine;
use crate::options::DEFAULT_MAX_DEPTH;
use crate::reading::{pending, pending_texts};
use crate::roundtrip::lemma_reads_value;
use crate::syntax::{
    digits, int_text, pieces_chars, signed, written, written_items, written_member,
    written_members, FloatText, Member, Syntax,
};
use crate::table::{Mode, State};
use crate::tree::{attach, build, tree_of, Builder, Frame, IntoValueErrorKind, Tree};
use crate::value::{all_digits, decimal_value, integer_text};
use vstd::prelude::*;
use vstd::utf8::{encode_utf8, valid_utf8};

verus! {

impl Builder {
    /// Take in a sequence of events with their texts, up to the first
    /// that cannot be taken in.
    pub open spec fn fold(self, events: Seq<JsonEvent>, values: Seq<Seq<u8>>) -> Result<
        Builder,
        IntoValueErrorKind,
    >
        decreases events.len(),
    {
        if events.len() == 0 {
            Ok(self)
        } else {
            match self.step(events[0], values[0]) {
                Err(k) => Err(k),
                Ok(next) => next.fold(events.skip(1), values.skip(1)),
            }
        }
    }

    /// Whether a value is due: at the top level, where there is no result
    /// yet; in an array; or in an object after a field name.
    pub open spec fn expects_value(self) -> bool {
        if self.stack.len() == 0 {
            self.result is None && self.key is None
        } else {
            (self.stack.last().value is Array && self.key is None) || (self.stack.last().value
                is Object && self.key is Some)
        }
    }

    /// The state after the value `t` has been put where a value is due.
    pub open spec fn placed(self, t: Tree) -> Builder {
        if self.stack.len() == 0 {
            Builder { result: Some(t), ..self }
        } else {
            Builder {
                stack: self.stack.drop_last().push(
                    Frame {
                        key: self.stack.last().key,
                        value: attach(self.stack.last().value, self.key, t)->0,
                    },
                ),
                key: None,
                ..self
            }
        }
    }
}

/// Taking in one sequence of events and then another is taking in both.
pub proof fn lemma_fold_append(
    b: Builder,
    e1: Seq<JsonEvent>,
    v1: Seq<Seq<u8>>,
    e2: Seq<JsonEvent>,
    v2: Seq<Seq<u8>>,
)
    requires
        e1.len() == v1.len(),
    ensures
        b.fold(e1 + e2, v1 + v2) == match b.fold(e1, v1) {
            Ok(next) => next.fold(e2, v2),
            Err(k) => Err(k),
        },
    decreases e1.len(),
{
    if e1.len() == 0 {
        assert(e1 + e2 =~= e2);
        assert(v1 + v2 =~= v2);
    } else {
        assert((e1 + e2)[0] == e1[0]);
        assert((v1 + v2)[0] == v1[0]);
        assert((e1 + e2).skip(1) =~= e1.skip(1) + e2);
        assert((v1 + v2).skip(1) =~= v1.skip(1) + v2);
        match b.step(e1[0], v1[0]) {
            Ok(next) => {
                lemma_fold_append(next, e1.skip(1), v1.skip(1), e2, v2);
            },
            Err(k) => {},
        }
    }
}

/// Taking in a single event.
pub proof fn lemma_fold_one(b: Builder, e: JsonEvent, v: Seq<u8>)
    ensures
        b.fold(seq![e], seq![v]) == b.step(e, v),
{
    let events = seq![e];
    let values = seq![v];
    assert(events.skip(1) =~= Seq::empty());
    match b.step(e, v) {
        Ok(next) => {
            assert(next.fold(events.skip(1), values.skip(1)) == Ok::<
                Builder,
                IntoValueErrorKind,
            >(next));
        },
        Err(k) => {},
    }
}

/// The decimal digits of a number are digits, and they spell the number.
proof fn lemma_digits(n: nat)
    ensures
        digits(n).len() > 0,
        all_digits(digits(n)),
        decimal_value(digits(n)) == n,
    decreases n,
{
    if n < 10 {
        let s = digits(n);
        assert(s.drop_last() =~= Seq::<u8>::empty());
        assert(decimal_value(s.drop_last()) == 0);
    } else {
        lemma_digits(n / 10);
        let s = digits(n);
        assert(s.drop_last() =~= digits(n / 10));
        assert forall|i: int| 0 <= i < s.len() implies 0x30 <= #[trigger] s[i] <= 0x39 by {
            if i < s.len() - 1 {
                assert(s[i] == digits(n / 10)[i]);
            }
        }
    }
}

/// The text of an integer spells the integer.
proof fn lemma_int_text(negative: bool, whole: nat)
    ensures
        integer_text(int_text(negative, whole)) == Some(signed(negative, whole)),
{
    lemma_digits(whole);
    if negative {
        assert(int_text(negative, whole).skip(1) =~= digits(whole));
    } else {
        let s = int_text(negative, whole);
        assert(0x30 <= s[0] <= 0x39);
    }
}

/// The text of a floating point number is ASCII, and so it is valid
/// UTF-8.
proof fn lemma_float_text(f: FloatText)
    requires
        f.valid(),
    ensures
        valid_utf8(f.text()),
{
    let bytes = f.text();
    lemma_digits(f.whole);
    let whole = f.whole_text();
    let fraction = f.fraction_text();
    let exponent = f.exponent_text();
    assert forall|i: int| 0 <= i < whole.len() implies #[trigger] whole[i] <= 0x7f by {
        if f.negative && i > 0 {
            assert(whole[i] == digits(f.whole)[i - 1]);
        }
    }
    assert forall|i: int| 0 <= i < fraction.len() implies #[trigger] fraction[i] <= 0x7f by {
        if i > 0 {
            assert(fraction[i] == f.fraction[i - 1]);
        }
    }
    assert forall|i: int| 0 <= i < exponent.len() implies #[trigger] exponent[i] <= 0x7f by {
        let x = f.exponent->0;
        if x.sign is Some {
            if i > 1 {
                assert(exponent[i] == x.digits[i - 2]);
            }
        } else {
            if i > 0 {
                assert(exponent[i] == x.digits[i - 1]);
            }
        }
    }
    assert forall|i: int| 0 <= i < bytes.len() implies vstd::utf8::is_leading_byte_width_1(
        #[trigger] bytes[i],
    ) by {
        if i < whole.len() {
            assert(bytes[i] == whole[i]);
        } else if i < whole.len() + fraction.len() {
            assert(bytes[i] == fraction[i - whole.len()]);
        } else {
            assert(bytes[i] == exponent[i - whole.len() - fraction.len()]);
        }
    }
    assert(bytes.subrange(0, 0) =~= Seq::<u8>::empty());
    assert(valid_utf8(Seq::<u8>::empty()));
    assert(vstd::utf8::partial_valid_utf8(bytes, 0));
    vstd::utf8::partial_valid_utf8_extend_ascii_block(bytes, 0, bytes.len() as int);
    assert(bytes.subrange(0, bytes.len() as int) =~= bytes);
}

/// A builder with `value` in place of the structure that it is building.
pub open spec fn with_top(b: Builder, value: Tree) -> Builder {
    Builder {
        stack: b.stack.drop_last().push(Frame { key: b.stack.last().key, value }),
        key: None,
        ..b
    }
}

/// A builder that expects a value takes in the events of a well-formed
/// text and puts the tree of the text where the value is due.
pub proof fn lemma_fold_value(b: Builder, s: Syntax)
    requires
        b.expects_value(),
        written(s).valid,
        written(s).strict,
        written(s).fits,
    ensures
        b.fold(written(s).events, written(s).values) == Ok::<Builder, IntoValueErrorKind>(
            b.placed(written(s).tree),
        ),
    decreases s, 1nat,
{
    let w = written(s);
    match s {
        Syntax::Array(gap, items) => {
            lemma_fold_structure(b, s);
        },
        Syntax::Object(gap, members) => {
            lemma_fold_structure(b, s);
        },
        Syntax::Padded(before, inner, after) => {
            lemma_fold_value(b, *inner);
        },
        _ => {
            lemma_fold_one(b, w.events[0], w.values[0]);
            assert(w.events =~= seq![w.events[0]]);
            assert(w.values =~= seq![w.values[0]]);
            match s {
                Syntax::Int(negative, whole) => {
                    lemma_int_text(negative, whole);
                },
                Syntax::Float(f) => {
                    lemma_float_text(f);
                },
                Syntax::String(pieces) => {
                    vstd::utf8::encode_utf8_valid_utf8(pieces_chars(pieces));
                    vstd::utf8::encode_utf8_decode_utf8(pieces_chars(pieces));
                },
                _ => {},
            }
        },
    }
}

/// A builder that expects a value takes in the events of an array or of
/// an object and puts the structure where the value is due.
proof fn lemma_fold_structure(b: Builder, s: Syntax)
    requires
        b.expects_value(),
        written(s).valid,
        written(s).strict,
        written(s).fits,
        s is Array || s is Object,
    ensures
        b.fold(written(s).events, written(s).values) == Ok::<Builder, IntoValueErrorKind>(
            b.placed(written(s).tree),
        ),
    decreases s, 0nat,
{
    let w = written(s);
    let t = w.tree;
    let start = w.events[0];
    let end = w.events[w.events.len() - 1];
    let blank = Seq::<u8>::empty();
    let empty = if s is Array {
        Tree::Array(Seq::empty())
    } else {
        Tree::Object(Seq::empty())
    };
    let b1 = b.open(empty);
    let inner = if s is Array {
        written_items(s->Array_1)
    } else {
        written_members(s->Object_1)
    };
    assert(w.events == seq![start] + inner.events + seq![end]);
    assert(w.values == seq![blank] + inner.values + seq![blank]);
    lemma_fold_one(b, start, blank);
    assert(b.step(start, blank) == Ok::<Builder, IntoValueErrorKind>(b1));
    match s {
        Syntax::Array(gap, items) => {
            lemma_fold_items(b1, items);
            assert(Seq::<Tree>::empty() + inner.tree->Array_0 =~= inner.tree->Array_0);
            lemma_written_items_lengths(items);
        },
        Syntax::Object(gap, members) => {
            lemma_fold_members(b1, members);
            assert(Seq::<(Seq<char>, Tree)>::empty() + inner.tree->Object_0
                =~= inner.tree->Object_0);
            lemma_written_members_lengths(members);
        },
        _ => {},
    }
    let b2 = with_top(b1, t);
    assert(b1.fold(inner.events, inner.values) == Ok::<Builder, IntoValueErrorKind>(b2));
    lemma_fold_append(b, seq![start], seq![blank], inner.events, inner.values);
    lemma_fold_append(
        b,
        seq![start] + inner.events,
        seq![blank] + inner.values,
        seq![end],
        seq![blank],
    );
    lemma_fold_one(b2, end, blank);
    assert(b2.stack.drop_last() =~= b.stack);
    assert(b2.step(end, blank) == Ok::<Builder, IntoValueErrorKind>(b.placed(t))) by {
        assert(b2.stack.last() == Frame { key: b.key, value: t });
        if b.stack.len() == 0 {
            assert(b.stack =~= Seq::empty());
        }
    }
}

/// Every event of a text has its text, and the elements of an array make
/// an array, as the members of an object make an object.
proof fn lemma_written_lengths(s: Syntax)
    ensures
        written(s).events.len() == written(s).values.len(),
    decreases s,
{
    match s {
        Syntax::Array(gap, items) => {
            lemma_written_items_lengths(items);
        },
        Syntax::Object(gap, members) => {
            lemma_written_members_lengths(members);
        },
        Syntax::Padded(before, inner, after) => {
            lemma_written_lengths(*inner);
        },
        _ => {},
    }
}

/// Every event of the elements of an array has its text, and the elements
/// make an array.
proof fn lemma_written_items_lengths(items: Seq<Syntax>)
    ensures
        written_items(items).events.len() == written_items(items).values.len(),
        written_items(items).tree is Array,
    decreases items,
{
    if items.len() > 0 {
        lemma_written_items_lengths(items.drop_last());
        lemma_written_lengths(items.last());
    }
}

/// Every event of the members of an object has its text, and the members
/// make an object.
proof fn lemma_written_members_lengths(members: Seq<Member>)
    ensures
        written_members(members).events.len() == written_members(members).values.len(),
        written_members(members).tree is Object,
    decreases members,
{
    if members.len() > 0 {
        lemma_written_members_lengths(members.drop_last());
        lemma_written_lengths(members.last().3);
    }
}

/// A builder whose innermost structure is an array takes in the events of
/// further elements and puts them at the end of the array.
proof fn lemma_fold_items(b: Builder, items: Seq<Syntax>)
    requires
        b.stack.len() > 0,
        b.stack.last().value is Array,
        b.key is None,
        written_items(items).valid,
        written_items(items).strict,
        written_items(items).fits,
    ensures
        b.fold(written_items(items).events, written_items(items).values) == Ok::<
            Builder,
            IntoValueErrorKind,
        >(
            with_top(
                b,
                Tree::Array(b.stack.last().value->Array_0 + written_items(items).tree->Array_0),
            ),
        ),
    decreases items,
{
    let had = b.stack.last().value->Array_0;
    let w = written_items(items);
    if items.len() == 0 {
        assert(had + w.tree->Array_0 =~= had);
        assert(b.stack.drop_last().push(b.stack.last()) =~= b.stack);
    } else {
        let front = items.drop_last();
        let before = written_items(front);
        let last = written(items.last());
        lemma_fold_items(b, front);
        let b1 = with_top(b, Tree::Array(had + before.tree->Array_0));
        lemma_fold_value(b1, items.last());
        lemma_written_items_lengths(front);
        lemma_fold_append(b, before.events, before.values, last.events, last.values);
        assert((had + before.tree->Array_0).push(last.tree) =~= had + w.tree->Array_0);
        assert(b1.stack.drop_last() =~= b.stack.drop_last());
    }
}

/// A builder whose innermost structure is an object takes in the events
/// of further members and puts them at the end of the object.
proof fn lemma_fold_members(b: Builder, members: Seq<Member>)
    requires
        b.stack.len() > 0,
        b.stack.last().value is Object,
        b.key is None,
        written_members(members).valid,
        written_members(members).strict,
        written_members(members).fits,
    ensures
        b.fold(written_members(members).events, written_members(members).values) == Ok::<
            Builder,
            IntoValueErrorKind,
        >(
            with_top(
                b,
                Tree::Object(
                    b.stack.last().value->Object_0 + written_members(members).tree->Object_0,
                ),
            ),
        ),
    decreases members,
{
    let had = b.stack.last().value->Object_0;
    let w = written_members(members);
    if members.len() == 0 {
        assert(had + w.tree->Object_0 =~= had);
        assert(b.stack.drop_last().push(b.stack.last()) =~= b.stack);
    } else {
        let front = members.drop_last();
        let before = written_members(front);
        let lm = members.last();
        let name = pieces_chars(lm.1);
        let value = lm.3;
        let last = written_member(lm.0, lm.1, lm.2, written(value));
        lemma_fold_members(b, front);
        let b1 = with_top(b, Tree::Object(had + before.tree->Object_0));
        // the field name
        vstd::utf8::encode_utf8_valid_utf8(name);
        vstd::utf8::encode_utf8_decode_utf8(name);
        let b2 = Builder { key: Some(name), ..b1 };
        lemma_fold_one(b1, JsonEvent::FieldName, encode_utf8(name));
        // the value
        lemma_fold_value(b2, value);
        lemma_fold_append(
            b1,
            seq![JsonEvent::FieldName],
            seq![encode_utf8(name)],
            written(value).events,
            written(value).values,
        );
        lemma_written_members_lengths(front);
        lemma_fold_append(b, before.events, before.values, last.events, last.values);
        assert((had + before.tree->Object_0).push((name, written(value).tree)) =~= had
            + w.tree->Object_0);
        assert(b2.stack.drop_last() =~= b.stack.drop_last());
    }
}

/// An event is taken in with its text; what else the value buffer holds
/// does not matter.
proof fn lemma_step_text(b: Builder, e: JsonEvent, buffer: Seq<u8>)
    ensures
        b.step(e, buffer) == b.step(e, text_of(e, buffer)),
{
}

/// Building a tree from a text is taking in the events of a first part of
/// the text and then building from the rest.
pub proof fn lemma_build_reads(m: Machine, a: Seq<u8>, rest: Seq<u8>, b: Builder)
    requires
        m.wf(),
        m.drain(a, false).ending is Starved,
    ensures
        build(m, a + rest, b) == match b.fold(m.drain(a, false).events, m.drain(a, false).values) {
            Ok(next) => build(m.drain(a, false).machine, rest, next),
            Err(k) => Err(k),
        },
    decreases m.weight(a),
{
    reveal(Machine::drain);
    lemma_run_extends(m, a, rest, true);
    lemma_run_wf(m, a, false);
    lemma_run_result(m, a, false);
    lemma_run_progress(m, a, false);
    let o = m.run(a, false);
    let tr = m.drain(a, false);
    match o.result {
        Ok(Some(e)) => {
            if e is NeedMoreInput {
                assert(tr.events =~= Seq::empty());
                assert(m.run(a + rest, true) == o.machine.run(rest, true));
            } else {
                let text = text_of(e, o.machine.buffer);
                let after = o.machine.drain(o.rest, false);
                lemma_step_text(b, e, o.machine.buffer);
                assert(tr.events == seq![e] + after.events);
                assert(tr.values == seq![text] + after.values);
                assert(tr.events[0] == e);
                assert(tr.values[0] == text);
                assert(tr.events.skip(1) =~= after.events);
                assert(tr.values.skip(1) =~= after.values);
                match b.step(e, text) {
                    Ok(next) => {
                        lemma_build_reads(o.machine, o.rest, rest, next);
                    },
                    Err(k) => {},
                }
            }
        },
        _ => {},
    }
}

/// Building a tree at the end of the input, after a complete top-level
/// value: the number that the end completes, if any, is taken in, and the
/// result is what has been built.
proof fn lemma_build_end(m: Machine, b: Builder)
    requires
        m.wf(),
        m.quiet(),
        m.state is Okay || m.state.ends_number(),
        m.at_top_level(),
    ensures
        build(m, Seq::empty(), b) == match b.fold(pending(m), pending_texts(m)) {
            Ok(next) => match next.result {
                Some(t) => Ok(t),
                None => Err(IntoValueErrorKind::Parse(ParserError::NoMoreInput)),
            },
            Err(k) => Err(k),
        },
{
    let nothing = Seq::<u8>::empty();
    assert(m.run(nothing, true) == m.finish());
    if m.state is Okay {
        assert(pending(m) =~= Seq::empty());
    } else {
        let e = m.state.event();
        let done = Machine { state: State::Okay, ..m };
        assert(done.run(nothing, true) == done.finish());
        lemma_fold_one(b, e, m.buffer);
        assert(pending(m) =~= seq![e]);
        assert(pending_texts(m) =~= seq![m.buffer]);
        match b.step(e, m.buffer) {
            Ok(next) => {
                assert(build(done, nothing, next) == match next.result {
                    Some(t) => Ok::<Tree, IntoValueErrorKind>(t),
                    None => Err(IntoValueErrorKind::Parse(ParserError::NoMoreInput)),
                });
            },
            Err(k) => {},
        }
    }
}

/// Parsing a well-formed text gives the tree that the text stands for.
///
/// A text is well formed if it is the text of a value as the syntax of
/// JSON describes it. This is stated of the well-formed texts whose
/// strings are made of characters, with no escape of an unpaired half of a
/// surrogate pair, whose integers fit in an `i64`, and in which fewer than
/// 2048 structures lie inside each other.
pub proof fn law_tree_of_text(s: Syntax)
    requires
        written(s).valid,
        written(s).strict,
        written(s).fits,
        written(s).depth < DEFAULT_MAX_DEPTH,
    ensures
        tree_of(written(s).text) == Ok::<Tree, IntoValueErrorKind>(written(s).tree),
{
    let init = Machine::initial(DEFAULT_MAX_DEPTH as nat, false);
    let w = written(s);
    let b = Builder::empty();
    lemma_initial_wf(DEFAULT_MAX_DEPTH as nat, false);
    lemma_reads_value(init, s);
    let tr = init.drain(w.text, false);
    let m = tr.machine;
    lemma_build_reads(init, w.text, Seq::empty(), b);
    assert(w.text + Seq::<u8>::empty() =~= w.text);
    assert(m.stack =~= seq![Mode::Done]);
    crate::laws::law_drain(init, w.text, false);
    lemma_fold_value(b, s);
    lemma_fold_append(b, tr.events, tr.values, pending(m), pending_texts(m));
    match b.fold(tr.events, tr.values) {
        Ok(next) => {
            lemma_build_end(m, next);
        },
        Err(k) => {},
    }
}

} // verus!
