//! What the parser has read is what a text begins with: the state of a
//! parser that has not rejected its input is the state that a beginning of
//! a text leaves it in.
use crate::completing::{
    begins_a_text, lemma_after_comma, lemma_after_comma_state, lemma_closed, lemma_closed_empty,
    lemma_completes, lemma_frames_push, lemma_named,
};
use crate::laws::{law_chunking, law_drain, lemma_initial_wf};
use crate::machine::{unescape, Machine};
use crate::partial::{
    frames_text, keyword_text, keyword_value, modes, Focus, Frame, NumberSoFar, Partial,
};
use crate::reading::{lemma_low_bits, lemma_reads_byte, lemma_reads_nothing};
use crate::syntax::{
    all_blank, digits, int_text, is_blank, pieces_text, pieces_valid, written, StringPiece, Syntax,
};
use crate::table::{Mode, State};
use crate::unicode::hex_value;
use vstd::prelude::*;
use vstd::utf8::encode_scalar;

verus! {

/// Whether a parser goes on quietly: without streaming, it has handed out
/// its events, and parsing has not ended.
pub open spec fn running(m: Machine) -> bool {
    m.quiet() && !m.streaming && m.halted is None
}

/// The parser as it goes on after the byte `b`, once the events that the
/// byte gives rise to have been handed out.
pub open spec fn after(m: Machine, b: u8) -> Machine {
    Machine {
        event1: crate::event::JsonEvent::NeedMoreInput,
        event2: crate::event::JsonEvent::NeedMoreInput,
        ..m.feed(b)
    }
}

/// What a byte does where a value or the name of a member is due: white
/// space is skipped; a bracket opens a structure or closes an empty one;
/// a quote begins a string; and where a value is due, a minus sign or a
/// digit begins a number, and `t`, `f` or `n` begins a keyword.
pub proof fn lemma_byte_in_gap(m: Machine, b: u8)
    requires
        running(m),
        !m.high_surrogate,
        m.state is Start || m.state is Value || m.state is Array || m.state is Object || m.state
            is Key,
        m.feed(b).halted is None,
    ensures
        running(after(m, b)),
        !(b == 0x22) ==> !after(m, b).high_surrogate,
        ({
            let r = after(m, b);
            let name_due = m.state is Object || m.state is Key;
            ||| is_blank(b) && r.stack == m.stack && r.state == m.state
            ||| b == 0x22 && r.stack == m.stack && r.state is Text && !r.high_surrogate
            ||| !name_due && b == 0x5B && r.stack == m.stack.push(Mode::Array) && r.state is Array
            ||| !name_due && b == 0x7B && r.stack == m.stack.push(Mode::Key) && r.state is Object
            ||| !name_due && b == 0x2D && r.stack == m.stack && r.state is Minus
            ||| !name_due && b == 0x30 && r.stack == m.stack && r.state is Zero
            ||| !name_due && 0x31 <= b <= 0x39 && r.stack == m.stack && r.state is Int
            ||| !name_due && b == 0x6E && r.stack == m.stack && r.state is N1
            ||| !name_due && b == 0x74 && r.stack == m.stack && r.state is T1
            ||| !name_due && b == 0x66 && r.stack == m.stack && r.state is F1
            ||| m.state is Array && b == 0x5D && m.top() == Some(Mode::Array) && r.stack
                == m.stack.drop_last() && r.state is Okay
            ||| m.state is Object && b == 0x7D && m.top() == Some(Mode::Key) && r.stack
                == m.stack.drop_last() && r.state is Okay
        }),
{
    reveal(Machine::feed);
}

/// What a byte does inside a keyword: it is the next letter of the
/// keyword.
pub proof fn lemma_byte_in_keyword(m: Machine, b: u8)
    requires
        running(m),
        !m.high_surrogate,
        m.state is T1 || m.state is T2 || m.state is T3 || m.state is F1 || m.state is F2
            || m.state is F3 || m.state is F4 || m.state is N1 || m.state is N2 || m.state is N3,
        m.feed(b).halted is None,
    ensures
        running(after(m, b)),
        !after(m, b).high_surrogate,
        after(m, b).stack == m.stack,
        ({
            let r = after(m, b);
            ||| m.state is T1 && b == 0x72 && r.state is T2
            ||| m.state is T2 && b == 0x75 && r.state is T3
            ||| m.state is T3 && b == 0x65 && r.state is Okay
            ||| m.state is F1 && b == 0x61 && r.state is F2
            ||| m.state is F2 && b == 0x6C && r.state is F3
            ||| m.state is F3 && b == 0x73 && r.state is F4
            ||| m.state is F4 && b == 0x65 && r.state is Okay
            ||| m.state is N1 && b == 0x75 && r.state is N2
            ||| m.state is N2 && b == 0x6C && r.state is N3
            ||| m.state is N3 && b == 0x6C && r.state is Okay
        }),
{
    reveal(Machine::feed);
}

/// What a byte does after a complete value, and after a number that it
/// completes: white space is skipped; a comma lets the next element or
/// member begin; a bracket closes the innermost structure.
pub proof fn lemma_byte_after_value(m: Machine, b: u8)
    requires
        running(m),
        !m.high_surrogate,
        m.state is Okay || m.state.ends_number(),
        m.feed(b).halted is None,
        is_blank(b) || b == 0x2C || b == 0x5D || b == 0x7D,
    ensures
        running(after(m, b)),
        !after(m, b).high_surrogate,
        ({
            let r = after(m, b);
            ||| is_blank(b) && r.stack == m.stack && r.state is Okay
            ||| b == 0x2C && m.top() == Some(Mode::Array) && r.stack == m.stack && r.state
                is Value
            ||| b == 0x2C && m.top() == Some(Mode::Object) && r.stack
                == m.stack.drop_last().push(Mode::Key) && r.state is Key
            ||| b == 0x5D && m.top() == Some(Mode::Array) && r.stack == m.stack.drop_last()
                && r.state is Okay
            ||| b == 0x7D && m.top() == Some(Mode::Object) && r.stack == m.stack.drop_last()
                && r.state is Okay
        }),
{
    reveal(Machine::feed);
}

/// After a complete value, only white space, a comma and a closing
/// bracket go on.
pub proof fn lemma_only_delimiters_after_value(m: Machine, b: u8)
    requires
        running(m),
        m.state is Okay,
        m.feed(b).halted is None,
    ensures
        is_blank(b) || b == 0x2C || b == 0x5D || b == 0x7D,
{
    reveal(Machine::feed);
}

/// What a byte does inside a number, unless it completes the number: a
/// digit goes on with the digits, and a decimal point, the mark of an
/// exponent and the sign of an exponent go on with the next part.
pub proof fn lemma_byte_in_number(m: Machine, b: u8)
    requires
        running(m),
        !m.high_surrogate,
        m.state is Minus || m.state.ends_number() || m.state is Frac0 || m.state is E1
            || m.state is E2,
        m.feed(b).halted is None,
        !(m.state.ends_number() && (is_blank(b) || b == 0x2C || b == 0x5D || b == 0x7D)),
    ensures
        running(after(m, b)),
        !after(m, b).high_surrogate,
        after(m, b).stack == m.stack,
        ({
            let r = after(m, b);
            let digit = 0x30 <= b <= 0x39;
            ||| m.state is Minus && b == 0x30 && r.state is Zero
            ||| m.state is Minus && 0x31 <= b <= 0x39 && r.state is Int
            ||| m.state is Int && digit && r.state is Int
            ||| (m.state is Zero || m.state is Int) && b == 0x2E && r.state is Frac0
            ||| (m.state is Frac0 || m.state is Frac) && digit && r.state is Frac
            ||| (m.state is Zero || m.state is Int || m.state is Frac) && (b == 0x65 || b
                == 0x45) && r.state is E1
            ||| m.state is E1 && (b == 0x2B || b == 0x2D) && r.state is E2
            ||| (m.state is E1 || m.state is E2 || m.state is E3) && digit && r.state is E3
        }),
{
    reveal(Machine::feed);
}

/// What a byte does after the name of a member: white space is skipped,
/// and the colon lets the value begin.
pub proof fn lemma_byte_after_name(m: Machine, b: u8)
    requires
        running(m),
        !m.high_surrogate,
        m.state is Colon,
        m.feed(b).halted is None,
    ensures
        running(after(m, b)),
        !after(m, b).high_surrogate,
        ({
            let r = after(m, b);
            ||| is_blank(b) && r.stack == m.stack && r.state is Colon
            ||| b == 0x3A && m.top() == Some(Mode::Key) && r.stack == m.stack.drop_last().push(
                Mode::Object,
            ) && r.state is Value
        }),
{
    reveal(Machine::feed);
}

/// What a byte does inside a string: the quote ends the string, the
/// backslash begins an escape, and every other byte stands for itself;
/// after a backslash comes the letter of an escape or `u`, and after `u`
/// come four hex digits.
pub proof fn lemma_byte_in_text(m: Machine, b: u8)
    requires
        running(m),
        m.state is Text || m.state is Escape || m.state.in_unicode(),
        m.feed(b).halted is None,
    ensures
        running(after(m, b)),
        ({
            let r = after(m, b);
            ||| m.state is Text && b == 0x22 && m.top() == Some(Mode::Key) && r.stack == m.stack
                && r.state is Colon && !r.high_surrogate
            ||| m.state is Text && b == 0x22 && m.top() != Some(Mode::Key) && r.stack == m.stack
                && r.state is Okay && !r.high_surrogate
            ||| m.state is Text && b == 0x5C && r.stack == m.stack && r.state is Escape
                && r.high_surrogate == m.high_surrogate
            ||| m.state is Text && b != 0x22 && b != 0x5C && b >= 0x20 && r.stack == m.stack
                && r.state is Text && !r.high_surrogate
            ||| m.state is Escape && unescape(b) is Some && r.stack == m.stack && r.state is Text
                && !r.high_surrogate
            ||| m.state is Escape && b == 0x75 && r.stack == m.stack && r.state is U1
                && r.high_surrogate == m.high_surrogate
            ||| m.state is U1 && hex_value(b) is Some && r.stack == m.stack && r.state is U2
                && r.high_surrogate == m.high_surrogate
            ||| m.state is U2 && hex_value(b) is Some && r.stack == m.stack && r.state is U3
                && r.high_surrogate == m.high_surrogate
            ||| m.state is U3 && hex_value(b) is Some && r.stack == m.stack && r.state is U4
                && r.high_surrogate == m.high_surrogate
            ||| m.state is U4 && hex_value(b) is Some && r.stack == m.stack && r.state is Text
        }),
{
    reveal(Machine::feed);
}

/// Whether the state of the parser `m` is the state that the beginning
/// `p` of a text leaves a parser in.
pub open spec fn represents(p: Partial, m: Machine) -> bool {
    &&& running(m)
    &&& m.stack == modes(p.frames)
    &&& m.state == p.state()
    &&& m.high_surrogate == p.awaiting()
}

/// Whether `p` is a well-formed beginning of a text with the bytes `x`
/// that leaves a parser in the state `m`.
pub open spec fn traces(p: Partial, x: Seq<u8>, m: Machine) -> bool {
    p.ok() && p.text() == x && represents(p, m)
}

/// Whether the bytes `x` are a well-formed beginning of a text that
/// leaves a parser in the state `m`.
pub open spec fn traced(x: Seq<u8>, m: Machine) -> bool {
    exists|p: Partial| traces(p, x, m)
}

/// The modes of open structures and one more.
proof fn lemma_modes_push(frames: Seq<Frame>, frame: Frame)
    ensures
        modes(frames.push(frame)) == modes(frames).push(frame.mode()),
        frames_text(frames.push(frame)) == frames_text(frames) + frame.text(),
{
    let all = frames.push(frame);
    assert(all.drop_last() =~= frames);
    assert(all.last() == frame);
}

/// The innermost mode of the open structures.
proof fn lemma_modes_top(frames: Seq<Frame>)
    ensures
        modes(frames).len() == frames.len() + 1,
        frames.len() > 0 ==> modes(frames).last() == frames.last().mode() && modes(
            frames,
        ).drop_last() == modes(frames.drop_last()),
        frames.len() == 0 ==> modes(frames).last() == Mode::Done,
    decreases frames.len(),
{
    if frames.len() > 0 {
        lemma_modes_top(frames.drop_last());
        assert(modes(frames).drop_last() =~= modes(frames.drop_last()));
    }
}

/// The pieces of a string and one more.
proof fn lemma_pieces_push(pieces: Seq<StringPiece>, piece: StringPiece)
    requires
        pieces_valid(pieces),
        piece.valid(),
    ensures
        pieces_valid(pieces.push(piece)),
        pieces_text(pieces.push(piece)) == pieces_text(pieces) + piece.text(),
{
    let all = pieces.push(piece);
    assert(all.drop_last() =~= pieces);
    assert(all.last() == piece);
    assert forall|i: int| 0 <= i < all.len() implies (#[trigger] all[i]).valid() by {
        if i < pieces.len() {
            assert(all[i] == pieces[i]);
        }
    }
}

/// White space goes on with a beginning in which the same is due.
proof fn lemma_step_blank(p: Partial, m: Machine, b: u8)
    requires
        p.ok(),
        represents(p, m),
        p.focus is Nothing,
        is_blank(b),
        running(after(m, b)),
        after(m, b).stack == m.stack,
        after(m, b).state == m.state,
        !after(m, b).high_surrogate,
    ensures
        traced(p.text().push(b), after(m, b)),
{
    let q = Partial { before: p.before.push(b), ..p };
    assert(all_blank(q.before)) by {
        assert forall|i: int| 0 <= i < q.before.len() implies is_blank(#[trigger] q.before[i]) by {
            if i < p.before.len() {
                assert(q.before[i] == p.before[i]);
            }
        }
    }
    assert(q.text() =~= p.text().push(b));
    assert(traces(q, p.text().push(b), after(m, b)));
}

/// Something else in place of what is being read goes on with the
/// beginning, if it is the same text and one more byte.
proof fn lemma_step_focus(p: Partial, m: Machine, b: u8, focus: Focus)
    requires
        p.ok(),
        represents(p, m),
        running(after(m, b)),
        after(m, b).stack == m.stack,
        focus.text() == p.focus.text().push(b),
        (Partial { focus, ..p }).ok(),
        after(m, b).state == (Partial { focus, ..p }).state(),
        after(m, b).high_surrogate == (Partial { focus, ..p }).awaiting(),
    ensures
        traced(p.text().push(b), after(m, b)),
{
    let q = Partial { focus, ..p };
    assert(q.text() =~= p.text().push(b));
    assert(traces(q, p.text().push(b), after(m, b)));
}

/// An opening bracket goes on with a beginning in which a structure more
/// is open.
proof fn lemma_step_open(p: Partial, m: Machine, b: u8)
    requires
        p.ok(),
        represents(p, m),
        p.focus is Nothing,
        !p.at_name(),
        b == 0x5B || b == 0x7B,
        running(after(m, b)),
        !after(m, b).high_surrogate,
        b == 0x5B ==> after(m, b).stack == m.stack.push(Mode::Array) && after(m, b).state
            is Array,
        b == 0x7B ==> after(m, b).stack == m.stack.push(Mode::Key) && after(m, b).state
            is Object,
    ensures
        traced(p.text().push(b), after(m, b)),
{
    let frame = if b == 0x5B {
        Frame::Array(p.before, Seq::empty())
    } else {
        Frame::Object(p.before, Seq::empty(), None)
    };
    let q = Partial { frames: p.frames.push(frame), before: Seq::empty(), focus: Focus::Nothing };
    lemma_modes_push(p.frames, frame);
    lemma_frames_push(p.frames, frame);
    assert(frame.text() =~= p.before.push(b));
    assert(q.frames.last() == frame);
    assert(q.text() =~= p.text().push(b));
    assert(traces(q, p.text().push(b), after(m, b)));
}

/// The bracket that closes a structure right after the bracket that
/// opened it goes on with a beginning in which the structure is complete.
proof fn lemma_step_close_empty(p: Partial, m: Machine, b: u8)
    requires
        p.ok(),
        represents(p, m),
        p.focus is Nothing,
        p.frames.len() > 0,
        (m.state is Array && b == 0x5D) || (m.state is Object && b == 0x7D),
        running(after(m, b)),
        !after(m, b).high_surrogate,
        after(m, b).stack == m.stack.drop_last(),
        after(m, b).state is Okay,
    ensures
        traced(p.text().push(b), after(m, b)),
{
    lemma_closed_empty(p);
    lemma_modes_top(p.frames);
    let q = p.closed_empty();
    assert(traces(q, p.text().push(b), after(m, b)));
}

/// What a byte does where a value or the name of a member is due goes on
/// with a well-formed beginning.
proof fn lemma_step_nothing(p: Partial, m: Machine, b: u8)
    requires
        p.ok(),
        represents(p, m),
        p.focus is Nothing,
        m.feed(b).halted is None,
    ensures
        traced(p.text().push(b), after(m, b)),
{
    lemma_byte_in_gap(m, b);
    lemma_modes_top(p.frames);
    let r = after(m, b);
    let nothing = Seq::<u8>::empty();
    if is_blank(b) {
        lemma_step_blank(p, m, b);
    } else if b == 0x5B || b == 0x7B {
        lemma_step_open(p, m, b);
    } else if b == 0x5D || b == 0x7D {
        lemma_step_close_empty(p, m, b);
    } else if b == 0x22 {
        let none = Seq::<StringPiece>::empty();
        assert(pieces_text(none) =~= nothing);
        let focus = Focus::Text(none, nothing, false);
        assert(focus.text() =~= p.focus.text().push(b));
        lemma_step_focus(p, m, b, focus);
    } else if b == 0x2D {
        let number = first_number(State::Minus, true, 0);
        assert(number.text() =~= p.focus.text().push(b));
        lemma_step_focus(p, m, b, Focus::Number(number));
    } else if b == 0x30 {
        let number = first_number(State::Zero, false, 0);
        assert(number.text() =~= p.focus.text().push(b));
        lemma_step_focus(p, m, b, Focus::Number(number));
    } else if 0x31 <= b <= 0x39 {
        let number = first_number(State::Int, false, (b - 0x30) as nat);
        assert(number.text() =~= p.focus.text().push(b));
        lemma_step_focus(p, m, b, Focus::Number(number));
    } else {
        let kind: nat = if b == 0x6E {
            0
        } else if b == 0x74 {
            1
        } else {
            2
        };
        let focus = Focus::Keyword(kind, 1);
        assert(focus.text() =~= p.focus.text().push(b));
        lemma_step_focus(p, m, b, focus);
    }
}

/// A number of which only the beginning has been read.
pub open spec fn first_number(stage: State, negative: bool, whole: nat) -> NumberSoFar {
    NumberSoFar {
        stage,
        negative,
        whole,
        fraction: Seq::empty(),
        upper: false,
        sign: None,
        exponent: Seq::empty(),
    }
}

/// What a byte does inside a keyword goes on with a well-formed
/// beginning.
proof fn lemma_step_keyword(p: Partial, m: Machine, b: u8)
    requires
        p.ok(),
        represents(p, m),
        p.focus is Keyword,
        m.feed(b).halted is None,
    ensures
        traced(p.text().push(b), after(m, b)),
{
    lemma_byte_in_keyword(m, b);
    let kind = p.focus->Keyword_0;
    let n = p.focus->Keyword_1;
    let text = keyword_text(kind);
    assert(b == text[n as int]);
    assert(text.take(n as int).push(b) =~= text.take(n as int + 1));
    if n + 1 == text.len() {
        assert(text.take(n as int + 1) =~= text);
        let focus = Focus::Done(keyword_value(kind), Seq::empty());
        assert(focus.text() =~= p.focus.text().push(b));
        lemma_step_focus(p, m, b, focus);
    } else {
        lemma_step_focus(p, m, b, Focus::Keyword(kind, n + 1));
    }
}

/// What a byte does after a complete value goes on with a well-formed
/// beginning. The value may be a number that the byte completes.
proof fn lemma_step_after_value(p: Partial, m: Machine, b: u8)
    requires
        p.ok(),
        p.focus is Done,
        running(m),
        !m.high_surrogate,
        m.stack == modes(p.frames),
        m.state is Okay || m.state.ends_number(),
        m.feed(b).halted is None,
        is_blank(b) || b == 0x2C || b == 0x5D || b == 0x7D,
    ensures
        traced(p.text().push(b), after(m, b)),
{
    lemma_byte_after_value(m, b);
    lemma_modes_top(p.frames);
    let r = after(m, b);
    let x = p.text().push(b);
    if is_blank(b) {
        let value = p.focus->Done_0;
        let ws = p.focus->Done_1;
        let q = Partial { focus: Focus::Done(value, ws.push(b)), ..p };
        assert(all_blank(ws.push(b))) by {
            assert forall|i: int| 0 <= i < ws.push(b).len() implies is_blank(
                #[trigger] ws.push(b)[i],
            ) by {
                if i < ws.len() {
                    assert(ws.push(b)[i] == ws[i]);
                }
            }
        }
        assert(q.focus.text() =~= p.focus.text().push(b));
        assert(q.text() =~= x);
        assert(traces(q, x, r));
    } else if b == 0x2C {
        lemma_after_comma(p);
        lemma_after_comma_state(p);
        let q = p.after_comma();
        lemma_modes_top(q.frames);
        assert(modes(q.frames) =~= modes(q.frames.drop_last()).push(q.frames.last().mode()));
        assert(traces(q, x, r));
    } else {
        lemma_closed(p);
        let q = p.closed();
        assert(traces(q, x, r));
    }
}

/// One more digit at the end of the digits of a number.
proof fn lemma_digits_push(whole: nat, d: nat)
    requires
        whole > 0,
        d < 10,
    ensures
        digits(whole * 10 + d) == digits(whole).push((0x30 + d) as u8),
{
    let n = whole * 10 + d;
    assert(n >= 10);
    assert(n / 10 == whole);
    assert(n % 10 == d);
}

/// One more digit at the end of digits.
proof fn lemma_digit_bytes_push(ds: Seq<u8>, b: u8)
    requires
        crate::syntax::digit_bytes(ds),
        0x30 <= b <= 0x39,
    ensures
        crate::syntax::digit_bytes(ds.push(b)),
{
    assert forall|i: int| 0 <= i < ds.push(b).len() implies 0x30 <= #[trigger] ds.push(b)[i]
        <= 0x39 by {
        if i < ds.len() {
            assert(ds.push(b)[i] == ds[i]);
        }
    }
}

/// The number after one more byte of it.
pub open spec fn number_after(n: NumberSoFar, b: u8) -> NumberSoFar {
    if n.stage is Minus {
        if b == 0x30 {
            NumberSoFar { stage: State::Zero, whole: 0, ..n }
        } else {
            NumberSoFar { stage: State::Int, whole: (b - 0x30) as nat, ..n }
        }
    } else if n.stage is Int && 0x30 <= b <= 0x39 {
        NumberSoFar { whole: n.whole * 10 + (b - 0x30) as nat, ..n }
    } else if b == 0x2E {
        NumberSoFar { stage: State::Frac0, ..n }
    } else if (n.stage is Frac0 || n.stage is Frac) && 0x30 <= b <= 0x39 {
        NumberSoFar { stage: State::Frac, fraction: n.fraction.push(b), ..n }
    } else if b == 0x65 || b == 0x45 {
        NumberSoFar { stage: State::E1, upper: b == 0x45, ..n }
    } else if b == 0x2B || b == 0x2D {
        NumberSoFar { stage: State::E2, sign: Some(b == 0x2D), ..n }
    } else {
        NumberSoFar { stage: State::E3, exponent: n.exponent.push(b), ..n }
    }
}

/// One more byte of a number goes on with the number.
proof fn lemma_number_after(n: NumberSoFar, b: u8)
    requires
        n.ok(),
        ({
            let digit = 0x30 <= b <= 0x39;
            ||| n.stage is Minus && digit
            ||| n.stage is Int && digit
            ||| (n.stage is Zero || n.stage is Int) && b == 0x2E
            ||| (n.stage is Frac0 || n.stage is Frac) && digit
            ||| (n.stage is Zero || n.stage is Int || n.stage is Frac) && (b == 0x65 || b
                == 0x45)
            ||| n.stage is E1 && (b == 0x2B || b == 0x2D)
            ||| (n.stage is E1 || n.stage is E2 || n.stage is E3) && digit
        }),
    ensures
        number_after(n, b).ok(),
        number_after(n, b).text() == n.text().push(b),
{
    let r = number_after(n, b);
    let base = int_text(n.negative, n.whole);
    if n.stage is Minus {
        if b == 0x30 {
            assert(digits(0) =~= seq![0x30u8]);
        } else {
            assert(digits((b - 0x30) as nat) =~= seq![b]);
        }
        assert(r.text() =~= n.text().push(b));
    } else if n.stage is Int && 0x30 <= b <= 0x39 {
        lemma_digits_push(n.whole, (b - 0x30) as nat);
        assert(r.text() =~= n.text().push(b));
    } else if b == 0x2E {
        assert(r.fraction_text() =~= seq![0x2Eu8]);
        assert(r.text() =~= n.text().push(b));
    } else if (n.stage is Frac0 || n.stage is Frac) && 0x30 <= b <= 0x39 {
        lemma_digit_bytes_push(n.fraction, b);
        assert(r.fraction_text() =~= n.fraction_text().push(b));
        assert(r.text() =~= n.text().push(b));
    } else if b == 0x65 || b == 0x45 {
        assert(r.exponent_text() =~= seq![b]);
        if n.stage is Frac {
            assert(r.fraction_text() =~= n.fraction_text());
        } else {
            assert(r.fraction_text() =~= Seq::<u8>::empty());
        }
        assert(r.text() =~= n.text().push(b));
    } else if b == 0x2B || b == 0x2D {
        assert(r.exponent_text() =~= n.exponent_text().push(b));
        assert(r.fraction_text() =~= n.fraction_text());
        assert(r.text() =~= n.text().push(b));
    } else {
        lemma_digit_bytes_push(n.exponent, b);
        assert(r.exponent_text() =~= n.exponent_text().push(b));
        assert(r.fraction_text() =~= n.fraction_text());
        assert(r.text() =~= n.text().push(b));
    }
}

/// A number that may end where it is, is the value that it is.
proof fn lemma_number_value(n: NumberSoFar)
    requires
        n.ok(),
        n.stage.ends_number(),
    ensures
        written(n.value()).valid,
        written(n.value()).text == n.text(),
{
    let w = written(n.value());
    if n.stage is Zero || n.stage is Int {
    } else {
        let f = n.float();
        assert(f.text() == f.whole_text() + f.fraction_text() + f.exponent_text());
        assert(f.fraction_text() =~= n.fraction_text());
        if n.stage is Frac {
            assert(f.exponent_text() =~= Seq::<u8>::empty());
        } else {
            assert(f.exponent_text() =~= n.exponent_text());
        }
        assert(w.text =~= n.text());
    }
}

/// What a byte does inside a number goes on with a well-formed
/// beginning.
proof fn lemma_step_number(p: Partial, m: Machine, b: u8)
    requires
        p.ok(),
        represents(p, m),
        p.focus is Number,
        m.feed(b).halted is None,
    ensures
        traced(p.text().push(b), after(m, b)),
{
    let n = p.focus->Number_0;
    if n.stage.ends_number() && (is_blank(b) || b == 0x2C || b == 0x5D || b == 0x7D) {
        lemma_number_value(n);
        let q = p.with_value(n.value());
        assert(q.focus.text() =~= p.focus.text());
        assert(q.text() =~= p.text());
        lemma_step_after_value(q, m, b);
    } else {
        lemma_byte_in_number(m, b);
        lemma_number_after(n, b);
        lemma_step_focus(p, m, b, Focus::Number(number_after(n, b)));
    }
}

/// What a byte does after the name of a member goes on with a well-formed
/// beginning.
proof fn lemma_step_after_name(p: Partial, m: Machine, b: u8)
    requires
        p.ok(),
        represents(p, m),
        p.focus is AfterName,
        m.feed(b).halted is None,
    ensures
        traced(p.text().push(b), after(m, b)),
{
    lemma_byte_after_name(m, b);
    lemma_modes_top(p.frames);
    let r = after(m, b);
    let x = p.text().push(b);
    if is_blank(b) {
        let name = p.focus->AfterName_0;
        let ws = p.focus->AfterName_1;
        assert(all_blank(ws.push(b))) by {
            assert forall|i: int| 0 <= i < ws.push(b).len() implies is_blank(
                #[trigger] ws.push(b)[i],
            ) by {
                if i < ws.len() {
                    assert(ws.push(b)[i] == ws[i]);
                }
            }
        }
        let focus = Focus::AfterName(name, ws.push(b));
        assert(focus.text() =~= p.focus.text().push(b));
        lemma_step_focus(p, m, b, focus);
    } else {
        lemma_named(p);
        let q = p.named();
        lemma_modes_push(p.frames.drop_last(), q.frames.last());
        assert(traces(q, x, r));
    }
}

/// The piece of a string that a byte makes which stands for itself.
pub open spec fn plain_piece(b: u8) -> StringPiece {
    if b < 0x80 {
        StringPiece::Plain(b as char)
    } else {
        StringPiece::Raw(b)
    }
}

/// A byte that stands for itself in a string makes a piece of the string.
proof fn lemma_plain_piece(b: u8)
    requires
        b >= 0x20,
        b != 0x22,
        b != 0x5C,
    ensures
        plain_piece(b).valid(),
        plain_piece(b).text() == seq![b],
{
    if b < 0x80 {
        let c = b as char;
        assert(c as u32 == b as u32);
        lemma_low_bits(b as u32);
        assert(encode_scalar(b as u32) =~= seq![b]);
    }
}

/// The string after one more byte of it.
pub open spec fn text_after(
    pieces: Seq<StringPiece>,
    raw: Seq<u8>,
    b: u8,
    awaiting: bool,
) -> Focus {
    if raw.len() == 0 {
        if b == 0x5C {
            Focus::Text(pieces, raw.push(b), awaiting)
        } else {
            Focus::Text(pieces.push(plain_piece(b)), raw, false)
        }
    } else if raw.len() == 1 {
        if b == 0x75 {
            Focus::Text(pieces, raw.push(b), awaiting)
        } else {
            Focus::Text(pieces.push(StringPiece::Short(b)), Seq::empty(), false)
        }
    } else if raw.len() < 5 {
        Focus::Text(pieces, raw.push(b), awaiting)
    } else {
        Focus::Text(
            pieces.push(StringPiece::Unicode(raw[2], raw[3], raw[4], b)),
            Seq::empty(),
            awaiting,
        )
    }
}

/// One more byte of a string goes on with the string.
proof fn lemma_text_after(pieces: Seq<StringPiece>, raw: Seq<u8>, b: u8, awaiting: bool)
    requires
        pieces_valid(pieces),
        crate::partial::escape_so_far(raw),
        ({
            ||| raw.len() == 0 && b != 0x22 && b >= 0x20
            ||| raw.len() == 1 && (unescape(b) is Some || b == 0x75)
            ||| raw.len() >= 2 && hex_value(b) is Some
        }),
    ensures
        text_after(pieces, raw, b, awaiting) matches Focus::Text(ps, rw, aw) && pieces_valid(ps)
            && crate::partial::escape_so_far(rw) && aw == (if (raw.len() == 0 && b != 0x5C)
            || (raw.len() == 1 && b != 0x75) {
            false
        } else {
            awaiting
        }) && rw.len() == (if (raw.len() == 0 && b != 0x5C) || (raw.len() == 1 && b != 0x75)
            || raw.len() == 5 {
            0
        } else {
            raw.len() + 1
        }),
        text_after(pieces, raw, b, awaiting).text() == (Focus::Text(
            pieces,
            raw,
            awaiting,
        )).text().push(b),
{
    let old = Focus::Text(pieces, raw, awaiting);
    let new = text_after(pieces, raw, b, awaiting);
    if raw.len() == 0 {
        if b == 0x5C {
            assert(new.text() =~= old.text().push(b));
        } else {
            lemma_plain_piece(b);
            lemma_pieces_push(pieces, plain_piece(b));
            assert(new.text() =~= old.text().push(b));
        }
    } else if raw.len() == 1 {
        if b == 0x75 {
            assert(new.text() =~= old.text().push(b));
        } else {
            let piece = StringPiece::Short(b);
            lemma_pieces_push(pieces, piece);
            assert(piece.text() =~= raw.push(b));
            assert(new.text() =~= old.text().push(b));
        }
    } else if raw.len() < 5 {
        assert(new.text() =~= old.text().push(b));
    } else {
        let piece = StringPiece::Unicode(raw[2], raw[3], raw[4], b);
        assert(piece.valid());
        lemma_pieces_push(pieces, piece);
        assert(piece.text() =~= raw.push(b));
        assert(new.text() =~= old.text().push(b));
    }
}

/// What a byte does inside a string goes on with a well-formed beginning.
proof fn lemma_step_text(p: Partial, m: Machine, b: u8)
    requires
        p.ok(),
        represents(p, m),
        p.focus is Text,
        m.feed(b).halted is None,
    ensures
        traced(p.text().push(b), after(m, b)),
{
    lemma_byte_in_text(m, b);
    lemma_modes_top(p.frames);
    let r = after(m, b);
    let pieces = p.focus->Text_0;
    let raw = p.focus->Text_1;
    if raw.len() == 0 && b == 0x22 {
        if p.at_name() {
            let focus = Focus::AfterName(pieces, Seq::empty());
            assert(focus.text() =~= p.focus.text().push(b));
            lemma_step_focus(p, m, b, focus);
        } else {
            let focus = Focus::Done(Syntax::String(pieces), Seq::empty());
            assert(focus.text() =~= p.focus.text().push(b));
            lemma_step_focus(p, m, b, focus);
        }
    } else {
        lemma_text_after(pieces, raw, b, r.high_surrogate);
        lemma_text_after(pieces, raw, b, p.focus->Text_2);
        let focus = text_after(pieces, raw, b, r.high_surrogate);
        assert(focus.text() == p.focus.text().push(b));
        lemma_step_focus(p, m, b, focus);
    }
}

/// What a byte does goes on with a well-formed beginning: if a parser is
/// in the state that a well-formed beginning of a text leaves it in, and
/// it does not reject the next byte, then the beginning with that byte is
/// a well-formed beginning again, which leaves a parser in the state that
/// the parser is in.
pub proof fn lemma_step(p: Partial, m: Machine, b: u8)
    requires
        p.ok(),
        represents(p, m),
        m.feed(b).halted is None,
    ensures
        traced(p.text().push(b), after(m, b)),
{
    match p.focus {
        Focus::Nothing => {
            lemma_step_nothing(p, m, b);
        },
        Focus::Keyword(kind, n) => {
            lemma_step_keyword(p, m, b);
        },
        Focus::Number(number) => {
            lemma_step_number(p, m, b);
        },
        Focus::Text(pieces, raw, awaiting) => {
            lemma_step_text(p, m, b);
        },
        Focus::AfterName(name, ws) => {
            lemma_step_after_name(p, m, b);
        },
        Focus::Done(value, ws) => {
            lemma_only_delimiters_after_value(m, b);
            lemma_step_after_value(p, m, b);
        },
    }
}

/// A parser that does not stream puts no byte back.
proof fn lemma_no_putback(m: Machine, b: u8)
    requires
        !m.streaming,
        m.putback is None,
    ensures
        m.feed(b).putback is None,
{
    reveal(Machine::feed);
}

/// A byte that the parser rejects ends the calls with the error.
proof fn lemma_reads_failure(m: Machine, b: u8)
    requires
        m.wf(),
        m.quiet(),
        m.feed(b).halted is Some,
    ensures
        m.drain(seq![b], false).ending is Failed,
{
    reveal(Machine::drain);
    let input = seq![b];
    assert(input[0] == b);
    assert(input.skip(1) =~= Seq::<u8>::empty());
}

/// What a parser has read without rejecting it is a well-formed beginning
/// of a text, and the parser is in the state that this beginning leaves a
/// parser in.
pub proof fn lemma_traced(max_depth: nat, x: Seq<u8>)
    requires
        Machine::initial(max_depth, false).drain(x, false).ending is Starved,
    ensures
        traced(x, Machine::initial(max_depth, false).drain(x, false).machine),
    decreases x.len(),
{
    let init = Machine::initial(max_depth, false);
    lemma_initial_wf(max_depth, false);
    if x.len() == 0 {
        lemma_reads_nothing(init);
        assert(init.cleared() == init);
        assert(x =~= Seq::<u8>::empty());
        let p = Partial::nothing();
        assert(p.text() =~= x);
        assert(modes(p.frames) =~= init.stack);
        assert(traces(p, x, init));
    } else {
        let x0 = x.drop_last();
        let b = x.last();
        assert(x0 + seq![b] =~= x);
        law_chunking(init, x0, seq![b], false);
        law_drain(init, x0, false);
        let first = init.drain(x0, false);
        let m0 = first.machine;
        lemma_traced(max_depth, x0);
        let p = choose|p: Partial| traces(p, x0, m0);
        if m0.feed(b).halted is Some {
            lemma_reads_failure(m0, b);
        } else {
            lemma_no_putback(m0, b);
            lemma_reads_byte(m0, b);
            assert(m0.feed(b).cleared() == after(m0, b));
            lemma_step(p, m0, b);
            assert(x0.push(b) =~= x);
        }
    }
}

/// A parser reads nothing beyond the beginning of a text: whatever a
/// parser has read without rejecting it is the beginning of a well-formed
/// text. So a text that no well-formed text begins with is rejected, and
/// it is rejected at the first byte with which it ceases to be the
/// beginning of a well-formed text, or before.
///
/// Here a text is well formed if it is the text of a value as the syntax
/// of JSON describes it, whatever bytes beyond ASCII its strings hold and
/// whatever code units its escapes spell.
pub proof fn law_reads_only_beginnings(max_depth: nat, x: Seq<u8>)
    requires
        Machine::initial(max_depth, false).drain(x, false).ending is Starved,
    ensures
        begins_a_text(x),
{
    lemma_traced(max_depth, x);
    let m = Machine::initial(max_depth, false).drain(x, false).machine;
    let p = choose|p: Partial| traces(p, x, m);
    lemma_completes(p);
}

} // verus!
