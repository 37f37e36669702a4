//! Every beginning of a text can be completed to a well-formed text.
use crate::partial::{
    frames_ok, frames_text, keyword_text, keyword_value, Focus, Frame, NumberSoFar, Partial,
};
use crate::syntax::{
    all_blank, digits, null_text, pieces_text, pieces_valid, quoted, written, written_items,
    written_members, Member, StringPiece, Syntax,
};
use crate::table::State;
use vstd::prelude::*;

verus! {

/// Whether the value `s` is well formed and its text is `x` followed by
/// `y`.
pub open spec fn completes(s: Syntax, x: Seq<u8>, y: Seq<u8>) -> bool {
    written(s).valid && written(s).text == x + y
}

/// Whether a well-formed text begins with the bytes `x`.
pub open spec fn begins_a_text(x: Seq<u8>) -> bool {
    exists|s: Syntax, y: Seq<u8>| completes(s, x, y)
}

/// What completes one beginning completes a shorter one.
proof fn lemma_begins_shorter(x: Seq<u8>, more: Seq<u8>)
    requires
        begins_a_text(x + more),
    ensures
        begins_a_text(x),
{
    let (s, y) = choose|s: Syntax, y: Seq<u8>| completes(s, x + more, y);
    assert((x + more) + y =~= x + (more + y));
    assert(completes(s, x, more + y));
}

/// A part of open structures is well formed if the whole is.
pub proof fn lemma_frames_front(frames: Seq<Frame>)
    requires
        frames.len() > 0,
        frames_ok(frames),
    ensures
        frames_ok(frames.drop_last()),
        frames.last().ok(),
        frames.len() > 1 ==> !(frames.drop_last().last().mode() is Key),
{
    let front = frames.drop_last();
    assert forall|i: int| 0 <= i < front.len() implies (#[trigger] front[i]).ok() by {
        assert(front[i] == frames[i]);
    }
    assert forall|i: int| 0 <= i < front.len() - 1 implies !((#[trigger] front[i]).mode()
        is Key) by {
        assert(front[i] == frames[i]);
    }
    if frames.len() > 1 {
        assert(front.last() == frames[frames.len() - 2]);
    }
}

/// The open structures with one more is well formed if the structures
/// are, the new one is, and the one that was innermost is not at a name.
pub proof fn lemma_frames_push(frames: Seq<Frame>, frame: Frame)
    requires
        frames_ok(frames),
        frame.ok(),
        frames.len() > 0 ==> !(frames.last().mode() is Key),
    ensures
        frames_ok(frames.push(frame)),
{
    let all = frames.push(frame);
    assert forall|i: int| 0 <= i < all.len() implies (#[trigger] all[i]).ok() by {
        if i < frames.len() {
            assert(all[i] == frames[i]);
        }
    }
    assert forall|i: int| 0 <= i < all.len() - 1 implies !((#[trigger] all[i]).mode() is Key) by {
        assert(all[i] == frames[i]);
        if i == frames.len() - 1 {
            assert(frames[i] == frames.last());
        }
    }
}

impl Partial {
    /// The value that is complete, with the white space around it.
    pub open spec fn padded(self) -> Syntax {
        Syntax::Padded(self.before, Box::new(self.focus->Done_0), self.focus->Done_1)
    }

    /// The beginning after the bracket that closes the innermost
    /// structure, whose last element is complete.
    pub open spec fn closed(self) -> Partial {
        match self.frames.last() {
            Frame::Array(before, items) => Partial {
                frames: self.frames.drop_last(),
                before,
                focus: Focus::Done(
                    Syntax::Array(Seq::empty(), items.push(self.padded())),
                    Seq::empty(),
                ),
            },
            Frame::Object(before, members, name) => Partial {
                frames: self.frames.drop_last(),
                before,
                focus: Focus::Done(
                    Syntax::Object(
                        Seq::empty(),
                        members.push(((name->0).0, (name->0).1, (name->0).2, self.padded())),
                    ),
                    Seq::empty(),
                ),
            },
        }
    }

    /// The bracket that closes the innermost structure.
    pub open spec fn closer(self) -> u8 {
        if self.frames.last() is Array {
            0x5Du8
        } else {
            0x7Du8
        }
    }

    /// The beginning after the bracket that closes the innermost
    /// structure, which is empty.
    pub open spec fn closed_empty(self) -> Partial {
        Partial {
            frames: self.frames.drop_last(),
            before: match self.frames.last() {
                Frame::Array(before, items) => before,
                Frame::Object(before, members, name) => before,
            },
            focus: Focus::Done(
                if self.frames.last() is Array {
                    Syntax::Array(self.before, Seq::empty())
                } else {
                    Syntax::Object(self.before, Seq::empty())
                },
                Seq::empty(),
            ),
        }
    }

    /// The beginning after the colon that follows the name of a member.
    pub open spec fn named(self) -> Partial {
        Partial {
            frames: self.frames.drop_last().push(
                Frame::Object(
                    self.frames.last()->Object_0,
                    self.frames.last()->Object_1,
                    Some((self.before, self.focus->AfterName_0, self.focus->AfterName_1)),
                ),
            ),
            before: Seq::empty(),
            focus: Focus::Nothing,
        }
    }

    /// The beginning after the comma that follows a complete element or
    /// member.
    pub open spec fn after_comma(self) -> Partial {
        match self.frames.last() {
            Frame::Array(before, items) => Partial {
                frames: self.frames.drop_last().push(
                    Frame::Array(before, items.push(self.padded())),
                ),
                before: Seq::empty(),
                focus: Focus::Nothing,
            },
            Frame::Object(before, members, name) => Partial {
                frames: self.frames.drop_last().push(
                    Frame::Object(
                        before,
                        members.push(((name->0).0, (name->0).1, (name->0).2, self.padded())),
                        None,
                    ),
                ),
                before: Seq::empty(),
                focus: Focus::Nothing,
            },
        }
    }

    /// The beginning with a complete value in place of what is being
    /// read.
    pub open spec fn with_value(self, value: Syntax) -> Partial {
        Partial { focus: Focus::Done(value, Seq::empty()), ..self }
    }
}

/// One more element at the end of the elements of an array.
pub proof fn lemma_items_push(items: Seq<Syntax>, s: Syntax)
    ensures
        written_items(items.push(s)).text == if items.len() == 0 {
            written(s).text
        } else {
            written_items(items).text + seq![0x2Cu8] + written(s).text
        },
        written_items(items.push(s)).valid == (written_items(items).valid && written(s).valid),
{
    let all = items.push(s);
    assert(all.drop_last() =~= items);
    assert(all.last() == s);
}

/// One more member at the end of the members of an object.
pub proof fn lemma_members_push(members: Seq<Member>, m: Member)
    ensures
        written_members(members.push(m)).text == if members.len() == 0 {
            m.0 + quoted(m.1) + m.2 + seq![0x3Au8] + written(m.3).text
        } else {
            written_members(members).text + seq![0x2Cu8] + (m.0 + quoted(m.1) + m.2 + seq![
                0x3Au8,
            ] + written(m.3).text)
        },
        written_members(members.push(m)).valid == (written_members(members).valid && all_blank(
            m.0,
        ) && pieces_valid(m.1) && all_blank(m.2) && written(m.3).valid),
{
    let all = members.push(m);
    assert(all.drop_last() =~= members);
    assert(all.last() == m);
}

/// The text of a beginning in which a structure is open.
pub proof fn lemma_partial_text(p: Partial)
    requires
        p.frames.len() > 0,
    ensures
        p.text() == frames_text(p.frames.drop_last()) + p.frames.last().text() + p.before
            + p.focus.text(),
{
}

/// The text of a value with white space around it.
pub proof fn lemma_padded(before: Seq<u8>, value: Syntax, after: Seq<u8>)
    ensures
        written(Syntax::Padded(before, Box::new(value), after)).text == before + written(
            value,
        ).text + after,
        written(Syntax::Padded(before, Box::new(value), after)).valid == (all_blank(before)
            && written(value).valid && all_blank(after)),
{
}

/// The bracket that closes the innermost structure, after its last
/// element, goes on with a well-formed beginning.
pub proof fn lemma_closed(p: Partial)
    requires
        p.ok(),
        p.focus is Done,
        p.frames.len() > 0,
    ensures
        p.closed().ok(),
        p.closed().text() == p.text().push(p.closer()),
{
    lemma_frames_front(p.frames);
    lemma_partial_text(p);
    let front = p.frames.drop_last();
    let value = p.focus->Done_0;
    let ws = p.focus->Done_1;
    let pv = written(p.padded());
    lemma_padded(p.before, value, ws);
    let q = p.closed();
    let head = frames_text(front);
    match p.frames.last() {
        Frame::Array(before, items) => {
            lemma_closed_array(head, before, items, p.padded());
            assert(q.focus.text() =~= written(q.focus->Done_0).text);
            assert(p.focus.text() =~= written(value).text + ws);
            assert(p.text() =~= head + p.frames.last().text() + pv.text);
            assert(q.text() =~= head + before + written(q.focus->Done_0).text);
        },
        Frame::Object(before, members, name) => {
            lemma_closed_object(head, before, members, name->0, p.padded());
            assert(q.focus.text() =~= written(q.focus->Done_0).text);
            assert(p.focus.text() =~= written(value).text + ws);
            assert(p.text() =~= head + p.frames.last().text() + pv.text);
            assert(q.text() =~= head + before + written(q.focus->Done_0).text);
        },
    }
}

/// The text of an array is what has been read of it, its last element and
/// its closing bracket.
proof fn lemma_closed_array(head: Seq<u8>, before: Seq<u8>, items: Seq<Syntax>, last: Syntax)
    requires
        written_items(items).valid,
        written(last).valid,
    ensures
        head + before + written(Syntax::Array(Seq::empty(), items.push(last))).text == (head
            + Frame::Array(before, items).text() + written(last).text).push(0x5Du8),
        written(Syntax::Array(Seq::empty(), items.push(last))).valid,
{
    lemma_items_push(items, last);
    let all = items.push(last);
    let w = written(Syntax::Array(Seq::empty(), all));
    assert(w.text == seq![0x5Bu8] + written_items(all).text + seq![0x5Du8]);
    assert(head + before + w.text =~= (head + Frame::Array(before, items).text() + written(
        last,
    ).text).push(0x5Du8));
}

/// The text of an object is what has been read of it, the value of its
/// last member and its closing brace.
proof fn lemma_closed_object(
    head: Seq<u8>,
    before: Seq<u8>,
    members: Seq<Member>,
    name: crate::partial::Name,
    last: Syntax,
)
    requires
        written_members(members).valid,
        all_blank(name.0),
        pieces_valid(name.1),
        all_blank(name.2),
        written(last).valid,
    ensures
        head + before + written(
            Syntax::Object(Seq::empty(), members.push((name.0, name.1, name.2, last))),
        ).text == (head + Frame::Object(before, members, Some(name)).text() + written(
            last,
        ).text).push(0x7Du8),
        written(Syntax::Object(Seq::empty(), members.push((name.0, name.1, name.2, last)))).valid,
{
    let member = (name.0, name.1, name.2, last);
    lemma_members_push(members, member);
    let all = members.push(member);
    let w = written(Syntax::Object(Seq::empty(), all));
    assert(w.text == seq![0x7Bu8] + written_members(all).text + seq![0x7Du8]);
    assert(head + before + w.text =~= (head + Frame::Object(before, members, Some(name)).text()
        + written(last).text).push(0x7Du8));
}

/// What has been read of an array, its next element and a comma.
proof fn lemma_comma_array(before: Seq<u8>, items: Seq<Syntax>, last: Syntax)
    requires
        Frame::Array(before, items).ok(),
        written(last).valid,
    ensures
        Frame::Array(before, items.push(last)).ok(),
        Frame::Array(before, items.push(last)).text() == Frame::Array(before, items).text()
            + written(last).text + seq![0x2Cu8],
{
    lemma_items_push(items, last);
    assert(Frame::Array(before, items.push(last)).text() =~= Frame::Array(before, items).text()
        + written(last).text + seq![0x2Cu8]);
}

/// What has been read of an object, the value of its next member and a
/// comma.
proof fn lemma_comma_object(
    before: Seq<u8>,
    members: Seq<Member>,
    name: crate::partial::Name,
    last: Syntax,
)
    requires
        Frame::Object(before, members, Some(name)).ok(),
        written(last).valid,
    ensures
        Frame::Object(before, members.push((name.0, name.1, name.2, last)), None).ok(),
        Frame::Object(before, members.push((name.0, name.1, name.2, last)), None).text()
            == Frame::Object(before, members, Some(name)).text() + written(last).text + seq![
            0x2Cu8,
        ],
{
    lemma_members_push(members, (name.0, name.1, name.2, last));
    assert(Frame::Object(before, members.push((name.0, name.1, name.2, last)), None).text()
        =~= Frame::Object(before, members, Some(name)).text() + written(last).text + seq![
        0x2Cu8,
    ]);
}

/// The comma after a complete element or member goes on with a
/// well-formed beginning, in which the next element or member is due.
pub proof fn lemma_after_comma(p: Partial)
    requires
        p.ok(),
        p.focus is Done,
        p.frames.len() > 0,
    ensures
        p.after_comma().ok(),
        p.after_comma().text() == p.text().push(0x2Cu8),
{
    lemma_frames_front(p.frames);
    lemma_partial_text(p);
    let front = p.frames.drop_last();
    let value = p.focus->Done_0;
    let ws = p.focus->Done_1;
    lemma_padded(p.before, value, ws);
    let pv = written(p.padded());
    let q = p.after_comma();
    let frame = q.frames.last();
    let head = frames_text(front);
    assert(q.frames.drop_last() =~= front);
    assert(p.focus.text() =~= written(value).text + ws);
    assert(q.focus.text() =~= Seq::<u8>::empty());
    match p.frames.last() {
        Frame::Array(before, items) => {
            lemma_comma_array(before, items, p.padded());
        },
        Frame::Object(before, members, name) => {
            lemma_comma_object(before, members, name->0, p.padded());
        },
    }
    lemma_frames_push(front, frame);
    assert(q.text() =~= head + frame.text());
    assert(p.text() =~= head + p.frames.last().text() + pv.text);
    assert(q.text() =~= p.text().push(0x2Cu8));
}

/// Where the comma after a complete element or member leaves the
/// parser: an element is due in an array, and a name in an object.
pub proof fn lemma_after_comma_state(p: Partial)
    requires
        p.focus is Done,
        p.frames.len() > 0,
    ensures
        p.after_comma().frames.len() == p.frames.len(),
        p.after_comma().frames.drop_last() == p.frames.drop_last(),
        !p.after_comma().awaiting(),
        p.frames.last() is Array ==> p.after_comma().state() is Value && p.after_comma(
        ).frames.last().mode() is Array,
        p.frames.last() is Object ==> p.after_comma().state() is Key && p.after_comma(
        ).frames.last().mode() is Key,
{
    let q = p.after_comma();
    assert(q.frames.drop_last() =~= p.frames.drop_last());
}

/// The text of an empty structure.
proof fn lemma_empty_structure(gap: Seq<u8>)
    requires
        all_blank(gap),
    ensures
        written(Syntax::Array(gap, Seq::empty())).valid,
        written(Syntax::Array(gap, Seq::empty())).text == seq![0x5Bu8] + gap + seq![0x5Du8],
        written(Syntax::Object(gap, Seq::empty())).valid,
        written(Syntax::Object(gap, Seq::empty())).text == seq![0x7Bu8] + gap + seq![0x7Du8],
{
    assert(written_items(Seq::<Syntax>::empty()).valid);
    assert(written_members(Seq::<Member>::empty()).valid);
}

/// The bracket that closes a structure right after the bracket that
/// opened it goes on with a well-formed beginning.
pub proof fn lemma_closed_empty(p: Partial)
    requires
        p.ok(),
        p.focus is Nothing,
        p.frames.len() > 0,
        p.state() is Array || p.state() is Object,
    ensures
        p.closed_empty().ok(),
        p.closed_empty().text() == p.text().push(p.closer()),
{
    lemma_frames_front(p.frames);
    lemma_partial_text(p);
    lemma_empty_structure(p.before);
    let q = p.closed_empty();
    let head = frames_text(p.frames.drop_last());
    let value = q.focus->Done_0;
    assert(q.focus.text() =~= written(value).text);
    assert(p.focus.text() =~= Seq::<u8>::empty());
    match p.frames.last() {
        Frame::Array(before, items) => {
            assert(p.frames.last().text() =~= before + seq![0x5Bu8]);
            assert(q.text() =~= head + before + (seq![0x5Bu8] + p.before + seq![0x5Du8]));
            assert(p.text() =~= head + (before + seq![0x5Bu8]) + p.before);
            assert(q.text() =~= p.text().push(p.closer()));
        },
        Frame::Object(before, members, name) => {
            assert(p.frames.last().text() =~= before + seq![0x7Bu8]);
            assert(q.text() =~= head + before + (seq![0x7Bu8] + p.before + seq![0x7Du8]));
            assert(p.text() =~= head + (before + seq![0x7Bu8]) + p.before);
            assert(q.text() =~= p.text().push(p.closer()));
        },
    }
}

/// A beginning that ends with a complete value can be completed: the
/// brackets that close the open structures complete it.
pub proof fn lemma_done_completes(p: Partial)
    requires
        p.ok(),
        p.focus is Done,
    ensures
        begins_a_text(p.text()),
    decreases p.frames.len(),
{
    if p.frames.len() == 0 {
        let s = p.padded();
        assert(frames_text(p.frames) =~= Seq::<u8>::empty());
        assert(written(s).text =~= p.text() + Seq::<u8>::empty());
        assert(completes(s, p.text(), Seq::empty()));
    } else {
        lemma_closed(p);
        lemma_done_completes(p.closed());
        assert(p.text().push(p.closer()) =~= p.text() + seq![p.closer()]);
        lemma_begins_shorter(p.text(), seq![p.closer()]);
    }
}

/// A value in place of what is being read, where a value is due.
proof fn lemma_with_value(p: Partial, value: Syntax, text: Seq<u8>, y: Seq<u8>)
    requires
        frames_ok(p.frames),
        all_blank(p.before),
        !p.at_name(),
        p.focus.text() == text,
        written(value).valid,
        written(value).text == text + y,
    ensures
        p.with_value(value).ok(),
        p.with_value(value).text() == p.text() + y,
{
    let q = p.with_value(value);
    assert(q.focus.text() =~= written(value).text);
    assert(q.text() =~= p.text() + y);
}

impl NumberSoFar {
    /// The digit that makes the number complete, if it is not.
    pub open spec fn pad(self) -> Seq<u8> {
        if self.stage.ends_number() {
            Seq::empty()
        } else {
            seq![0x30u8]
        }
    }

    /// The number with the digit that makes it complete.
    pub open spec fn settled(self) -> NumberSoFar {
        if self.stage is Minus {
            NumberSoFar { stage: State::Zero, whole: 0, ..self }
        } else if self.stage is Frac0 {
            NumberSoFar { stage: State::Frac, fraction: seq![0x30u8], ..self }
        } else if self.stage is E1 || self.stage is E2 {
            NumberSoFar { stage: State::E3, exponent: seq![0x30u8], ..self }
        } else {
            self
        }
    }
}

/// A number that is being read can be completed by at most one digit.
proof fn lemma_number_settled(n: NumberSoFar)
    requires
        n.ok(),
    ensures
        written(n.settled().value()).valid,
        written(n.settled().value()).text == n.text() + n.pad(),
{
    let m = n.settled();
    let w = written(m.value());
    if n.stage is Minus {
        assert(digits(0) =~= seq![0x30u8]);
        assert(w.text =~= n.text() + n.pad());
    } else if n.stage is Zero || n.stage is Int {
        assert(w.text =~= n.text() + n.pad());
    } else {
        let f = m.float();
        assert(f.text() == f.whole_text() + f.fraction_text() + f.exponent_text());
        if n.stage is Frac0 {
            assert(f.fraction_text() =~= n.fraction_text() + n.pad());
            assert(f.exponent_text() =~= Seq::<u8>::empty());
            assert(w.text =~= n.text() + n.pad());
        } else if n.stage is Frac {
            assert(f.exponent_text() =~= Seq::<u8>::empty());
            assert(w.text =~= n.text() + n.pad());
        } else if n.stage is E3 {
            assert(f.exponent_text() =~= n.exponent_text());
            assert(f.fraction_text() =~= n.fraction_text());
            assert(w.text =~= n.text() + n.pad());
        } else {
            assert(f.exponent_text() =~= n.exponent_text() + n.pad());
            assert(f.fraction_text() =~= n.fraction_text());
            assert(w.text =~= n.text() + n.pad());
        }
    }
}

/// The piece that the escape that is being read makes when it is
/// completed with `n`, or with zeros.
pub open spec fn escape_piece(raw: Seq<u8>) -> StringPiece {
    if raw.len() == 1 {
        StringPiece::Short(0x6Eu8)
    } else {
        StringPiece::Unicode(
            if raw.len() > 2 {
                raw[2]
            } else {
                0x30u8
            },
            if raw.len() > 3 {
                raw[3]
            } else {
                0x30u8
            },
            if raw.len() > 4 {
                raw[4]
            } else {
                0x30u8
            },
            0x30u8,
        )
    }
}

/// The bytes that complete the escape that is being read.
pub open spec fn escape_rest(raw: Seq<u8>) -> Seq<u8> {
    escape_piece(raw).text().skip(raw.len() as int)
}

/// The pieces of a string with the escape that is being read, completed.
pub open spec fn with_escape(pieces: Seq<StringPiece>, raw: Seq<u8>) -> Seq<StringPiece> {
    if raw.len() == 0 {
        pieces
    } else {
        pieces.push(escape_piece(raw))
    }
}

/// An escape that is being read can be completed.
proof fn lemma_escape_completed(pieces: Seq<StringPiece>, raw: Seq<u8>)
    requires
        pieces_valid(pieces),
        crate::partial::escape_so_far(raw),
    ensures
        pieces_valid(with_escape(pieces, raw)),
        pieces_text(with_escape(pieces, raw)) == pieces_text(pieces) + raw + (if raw.len() == 0 {
            Seq::empty()
        } else {
            escape_rest(raw)
        }),
{
    let all = with_escape(pieces, raw);
    if raw.len() == 0 {
        assert(pieces_text(all) =~= pieces_text(pieces) + raw + Seq::<u8>::empty());
    } else {
        let p = escape_piece(raw);
        assert(all.drop_last() =~= pieces);
        assert(all.last() == p);
        assert(p.valid());
        assert forall|i: int| 0 <= i < all.len() implies (#[trigger] all[i]).valid() by {
            if i < pieces.len() {
                assert(all[i] == pieces[i]);
            }
        }
        assert(p.text() =~= raw + escape_rest(raw));
        assert(pieces_text(all) =~= pieces_text(pieces) + raw + escape_rest(raw));
    }
}

/// The colon after the name of a member goes on with a well-formed
/// beginning, in which the value of the member is due.
pub proof fn lemma_named(p: Partial)
    requires
        p.ok(),
        p.focus is AfterName,
    ensures
        p.named().ok(),
        !p.named().at_name(),
        p.named().text() == p.text().push(0x3Au8),
        p.named().frames.len() == p.frames.len(),
{
    lemma_frames_front(p.frames);
    lemma_partial_text(p);
    let front = p.frames.drop_last();
    let q = p.named();
    let frame = q.frames.last();
    assert(q.frames.drop_last() =~= front);
    lemma_frames_push(front, frame);
    assert(frame.text() =~= p.frames.last().text() + p.before + p.focus.text() + seq![0x3Au8]);
    assert(q.text() =~= p.text().push(0x3Au8));
}

/// A beginning that ends with the name of a member can be completed.
proof fn lemma_after_name_completes(p: Partial)
    requires
        p.ok(),
        p.focus is AfterName,
    ensures
        begins_a_text(p.text()),
{
    lemma_named(p);
    let q = p.named();
    lemma_with_value(q, Syntax::Null, Seq::empty(), null_text());
    assert(Seq::<u8>::empty() + null_text() =~= null_text());
    let r = q.with_value(Syntax::Null);
    lemma_done_completes(r);
    assert(r.text() =~= p.text() + (seq![0x3Au8] + null_text()));
    lemma_begins_shorter(p.text(), seq![0x3Au8] + null_text());
}

/// A beginning that ends inside a keyword can be completed.
proof fn lemma_keyword_completes(p: Partial)
    requires
        p.ok(),
        p.focus is Keyword,
    ensures
        begins_a_text(p.text()),
{
    let kind = p.focus->Keyword_0;
    let n = p.focus->Keyword_1;
    let text = keyword_text(kind);
    let y = text.skip(n as int);
    assert(text.take(n as int) + y =~= text);
    lemma_with_value(p, keyword_value(kind), text.take(n as int), y);
    lemma_done_completes(p.with_value(keyword_value(kind)));
    lemma_begins_shorter(p.text(), y);
}

/// A beginning that ends inside a number can be completed.
proof fn lemma_number_completes(p: Partial)
    requires
        p.ok(),
        p.focus is Number,
    ensures
        begins_a_text(p.text()),
{
    let number = p.focus->Number_0;
    lemma_number_settled(number);
    let value = number.settled().value();
    lemma_with_value(p, value, number.text(), number.pad());
    lemma_done_completes(p.with_value(value));
    lemma_begins_shorter(p.text(), number.pad());
}

/// A beginning that ends where a value or a name is due can be
/// completed.
proof fn lemma_nothing_completes(p: Partial)
    requires
        p.ok(),
        p.focus is Nothing,
    ensures
        begins_a_text(p.text()),
{
    if p.at_name() {
        let none = Seq::<StringPiece>::empty();
        let q = Partial { focus: Focus::AfterName(none, Seq::empty()), ..p };
        assert(pieces_text(none) =~= Seq::<u8>::empty());
        assert(q.focus.text() =~= quoted(none));
        assert(p.focus.text() =~= Seq::<u8>::empty());
        assert(q.text() =~= p.text() + quoted(none));
        lemma_after_name_completes(q);
        lemma_begins_shorter(p.text(), quoted(none));
    } else {
        lemma_with_value(p, Syntax::Null, Seq::empty(), null_text());
        assert(Seq::<u8>::empty() + null_text() =~= null_text());
        lemma_done_completes(p.with_value(Syntax::Null));
        lemma_begins_shorter(p.text(), null_text());
    }
}

/// A beginning that ends inside a string can be completed.
proof fn lemma_text_completes(p: Partial)
    requires
        p.ok(),
        p.focus is Text,
    ensures
        begins_a_text(p.text()),
{
    let pieces = p.focus->Text_0;
    let raw = p.focus->Text_1;
    lemma_escape_completed(pieces, raw);
    let all = with_escape(pieces, raw);
    let rest = if raw.len() == 0 {
        Seq::<u8>::empty()
    } else {
        escape_rest(raw)
    };
    let y = rest + seq![0x22u8];
    assert(quoted(all) =~= p.focus.text() + y);
    if p.at_name() {
        let q = Partial { focus: Focus::AfterName(all, Seq::empty()), ..p };
        assert(q.focus.text() =~= p.focus.text() + y);
        assert(q.text() =~= p.text() + y);
        lemma_after_name_completes(q);
        lemma_begins_shorter(p.text(), y);
    } else {
        let value = Syntax::String(all);
        lemma_with_value(p, value, p.focus.text(), y);
        lemma_done_completes(p.with_value(value));
        lemma_begins_shorter(p.text(), y);
    }
}

/// Every well-formed beginning can be completed to a well-formed text.
pub proof fn lemma_completes(p: Partial)
    requires
        p.ok(),
    ensures
        begins_a_text(p.text()),
{
    match p.focus {
        Focus::Done(value, ws) => {
            lemma_done_completes(p);
        },
        Focus::AfterName(name, ws) => {
            lemma_after_name_completes(p);
        },
        Focus::Keyword(kind, n) => {
            lemma_keyword_completes(p);
        },
        Focus::Number(number) => {
            lemma_number_completes(p);
        },
        Focus::Nothing => {
            lemma_nothing_completes(p);
        },
        Focus::Text(pieces, raw, awaiting) => {
            lemma_text_completes(p);
        },
    }
}

} // verus!
