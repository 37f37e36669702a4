//! The beginnings of JSON texts: what has been read of a text that is read
//! byte by byte.
use crate::syntax::{
    all_blank, digit_bytes, digits, false_text, int_text, null_text, pieces_text, pieces_valid,
    quoted, true_text, written, written_items, written_members, Exponent, FloatText, Member,
    StringPiece, Syntax,
};
use crate::table::{Mode, State};
use crate::unicode::hex_value;
use vstd::prelude::*;

verus! {

/// The name of the member whose value is being read: the white space
/// before the name, the name, and the white space before the colon.
pub type Name = (Seq<u8>, Seq<StringPiece>, Seq<u8>);

/// A structure that has been opened and not yet been closed.
pub ghost enum Frame {
    /// An array: the white space before its bracket, and the elements
    /// that are complete.
    Array(Seq<u8>, Seq<Syntax>),
    /// An object: the white space before its brace, the members that
    /// are complete, and the name of the member whose value is being
    /// read, if its colon has been read.
    Object(Seq<u8>, Seq<Member>, Option<Name>),
}

/// A number as far as it has been read.
pub ghost struct NumberSoFar {
    /// The state of the automaton: how far the number has got.
    pub stage: State,
    /// Whether the number begins with a minus sign.
    pub negative: bool,
    /// The part before the decimal point.
    pub whole: nat,
    /// The digits after the decimal point.
    pub fraction: Seq<u8>,
    /// Whether the exponent is marked by `E`, not by `e`.
    pub upper: bool,
    /// The sign of the exponent, if it is written: `true` for `-`.
    pub sign: Option<bool>,
    /// The digits of the exponent.
    pub exponent: Seq<u8>,
}

/// What is being read at the innermost place of the text.
pub ghost enum Focus {
    /// Nothing yet: a value or the name of a member is due.
    Nothing,
    /// A keyword (0 for `null`, 1 for `true`, 2 for `false`), and the
    /// number of its letters that have been read.
    Keyword(nat, nat),
    /// A number.
    Number(NumberSoFar),
    /// A string: the pieces that are complete, the bytes of the escape
    /// that is being read, and whether the parser awaits the second half
    /// of a surrogate pair.
    Text(Seq<StringPiece>, Seq<u8>, bool),
    /// The name of a member, and the white space after it.
    AfterName(Seq<StringPiece>, Seq<u8>),
    /// A complete value, and the white space after it.
    Done(Syntax, Seq<u8>),
}

/// The beginning of a text.
pub ghost struct Partial {
    /// The structures that are open, outermost first.
    pub frames: Seq<Frame>,
    /// The white space before what is being read.
    pub before: Seq<u8>,
    /// What is being read.
    pub focus: Focus,
}

/// The text of a keyword.
pub open spec fn keyword_text(kind: nat) -> Seq<u8> {
    if kind == 0 {
        null_text()
    } else if kind == 1 {
        true_text()
    } else {
        false_text()
    }
}

/// The value of a keyword.
pub open spec fn keyword_value(kind: nat) -> Syntax {
    if kind == 0 {
        Syntax::Null
    } else if kind == 1 {
        Syntax::True
    } else {
        Syntax::False
    }
}

impl NumberSoFar {
    /// The exponent as far as it has been read: its mark, its sign and
    /// its digits.
    pub open spec fn exponent_text(self) -> Seq<u8> {
        seq![
            if self.upper {
                0x45u8
            } else {
                0x65u8
            },
        ] + (match self.sign {
            Some(minus) => seq![
                if minus {
                    0x2Du8
                } else {
                    0x2Bu8
                },
            ],
            None => Seq::empty(),
        }) + self.exponent
    }

    /// The fraction as far as it has been read.
    pub open spec fn fraction_text(self) -> Seq<u8> {
        if self.fraction.len() > 0 || self.stage is Frac0 {
            seq![0x2Eu8] + self.fraction
        } else {
            Seq::empty()
        }
    }

    /// The bytes of the number that have been read.
    pub open spec fn text(self) -> Seq<u8> {
        if self.stage is Minus {
            seq![0x2Du8]
        } else if self.stage is Zero || self.stage is Int {
            int_text(self.negative, self.whole)
        } else if self.stage is Frac0 || self.stage is Frac {
            int_text(self.negative, self.whole) + self.fraction_text()
        } else {
            int_text(self.negative, self.whole) + self.fraction_text() + self.exponent_text()
        }
    }

    /// Whether these are the parts of a number as far as the automaton
    /// has read it.
    pub open spec fn ok(self) -> bool {
        &&& self.stage is Minus || self.stage.ends_number() || self.stage is Frac0 || self.stage
            is E1 || self.stage is E2
        &&& digit_bytes(self.fraction)
        &&& digit_bytes(self.exponent)
        &&& self.stage is Minus ==> self.negative
        &&& self.stage is Zero ==> self.whole == 0
        &&& self.stage is Int ==> self.whole > 0
        &&& self.stage is Minus || self.stage is Zero || self.stage is Int || self.stage
            is Frac0 ==> self.fraction.len() == 0
        &&& self.stage is Frac ==> self.fraction.len() > 0
        &&& self.stage is Minus || self.stage is Zero || self.stage is Int || self.stage is Frac0
            || self.stage is Frac || self.stage is E1 ==> self.sign is None
            && self.exponent.len() == 0
        &&& self.stage is E2 ==> self.sign is Some && self.exponent.len() == 0
        &&& self.stage is E3 ==> self.exponent.len() > 0
    }

    /// The parts of the floating point number that the number is once it
    /// is complete.
    pub open spec fn float(self) -> FloatText {
        FloatText {
            negative: self.negative,
            whole: self.whole,
            fraction: self.fraction,
            exponent: if self.stage is E3 {
                Some(Exponent { upper: self.upper, sign: self.sign, digits: self.exponent })
            } else {
                None
            },
        }
    }

    /// The number, once it is complete.
    pub open spec fn value(self) -> Syntax {
        if self.stage is Zero || self.stage is Int {
            Syntax::Int(self.negative, self.whole)
        } else {
            Syntax::Float(self.float())
        }
    }
}

/// Whether the bytes are the beginning of an escape: a backslash, then
/// `u`, then up to three hex digits.
pub open spec fn escape_so_far(raw: Seq<u8>) -> bool {
    &&& raw.len() <= 5
    &&& raw.len() >= 1 ==> raw[0] == 0x5C
    &&& raw.len() >= 2 ==> raw[1] == 0x75
    &&& forall|i: int| 2 <= i < raw.len() ==> hex_value(#[trigger] raw[i]) is Some
}

impl Frame {
    /// The mode that the parser keeps on its stack for the structure.
    pub open spec fn mode(self) -> Mode {
        match self {
            Frame::Array(before, items) => Mode::Array,
            Frame::Object(before, members, name) => if name is Some {
                Mode::Object
            } else {
                Mode::Key
            },
        }
    }

    /// The bytes of the structure that have been read, up to what is
    /// being read in it.
    pub open spec fn text(self) -> Seq<u8> {
        match self {
            Frame::Array(before, items) => before + seq![0x5Bu8] + (if items.len() > 0 {
                written_items(items).text + seq![0x2Cu8]
            } else {
                Seq::empty()
            }),
            Frame::Object(before, members, name) => before + seq![0x7Bu8] + (if members.len()
                > 0 {
                written_members(members).text + seq![0x2Cu8]
            } else {
                Seq::empty()
            }) + (match name {
                Some(n) => n.0 + quoted(n.1) + n.2 + seq![0x3Au8],
                None => Seq::empty(),
            }),
        }
    }

    /// Whether what has been read of the structure is well formed.
    pub open spec fn ok(self) -> bool {
        match self {
            Frame::Array(before, items) => all_blank(before) && written_items(items).valid,
            Frame::Object(before, members, name) => all_blank(before) && written_members(
                members,
            ).valid && (name matches Some(n) ==> all_blank(n.0) && pieces_valid(n.1)
                && all_blank(n.2)),
        }
    }
}

/// The modes that the parser keeps on its stack for the open structures,
/// above the bottom mode.
pub open spec fn modes(frames: Seq<Frame>) -> Seq<Mode>
    decreases frames.len(),
{
    if frames.len() == 0 {
        seq![Mode::Done]
    } else {
        modes(frames.drop_last()).push(frames.last().mode())
    }
}

/// The bytes of the open structures that have been read.
pub open spec fn frames_text(frames: Seq<Frame>) -> Seq<u8>
    decreases frames.len(),
{
    if frames.len() == 0 {
        Seq::empty()
    } else {
        frames_text(frames.drop_last()) + frames.last().text()
    }
}

/// Whether what has been read of the open structures is well formed, and
/// every object but the innermost is at the value of a member.
pub open spec fn frames_ok(frames: Seq<Frame>) -> bool {
    &&& forall|i: int| 0 <= i < frames.len() ==> (#[trigger] frames[i]).ok()
    &&& forall|i: int| 0 <= i < frames.len() - 1 ==> !((#[trigger] frames[i]).mode() is Key)
}

impl Focus {
    /// The bytes of what is being read.
    pub open spec fn text(self) -> Seq<u8> {
        match self {
            Focus::Nothing => Seq::empty(),
            Focus::Keyword(kind, n) => keyword_text(kind).take(n as int),
            Focus::Number(number) => number.text(),
            Focus::Text(pieces, raw, awaiting) => seq![0x22u8] + pieces_text(pieces) + raw,
            Focus::AfterName(name, ws) => quoted(name) + ws,
            Focus::Done(value, ws) => written(value).text + ws,
        }
    }
}

impl Partial {
    /// The beginning of every text: nothing.
    pub open spec fn nothing() -> Partial {
        Partial { frames: Seq::empty(), before: Seq::empty(), focus: Focus::Nothing }
    }

    /// The bytes that have been read.
    pub open spec fn text(self) -> Seq<u8> {
        frames_text(self.frames) + self.before + self.focus.text()
    }

    /// Whether the name of a member is due, or is being read, or has been
    /// read and awaits its colon.
    pub open spec fn at_name(self) -> bool {
        self.frames.len() > 0 && self.frames.last().mode() is Key
    }

    /// Whether what has been read is well formed as far as it goes.
    pub open spec fn ok(self) -> bool {
        &&& frames_ok(self.frames)
        &&& all_blank(self.before)
        &&& match self.focus {
            Focus::Nothing => true,
            Focus::Keyword(kind, n) => kind < 3 && 1 <= n < keyword_text(kind).len()
                && !self.at_name(),
            Focus::Number(number) => number.ok() && !self.at_name(),
            Focus::Text(pieces, raw, awaiting) => pieces_valid(pieces) && escape_so_far(raw),
            Focus::AfterName(name, ws) => pieces_valid(name) && all_blank(ws) && self.at_name(),
            Focus::Done(value, ws) => written(value).valid && all_blank(ws) && !self.at_name(),
        }
    }

    /// The state of the automaton after it has read the text so far.
    pub open spec fn state(self) -> State {
        match self.focus {
            Focus::Nothing => if self.frames.len() == 0 {
                State::Start
            } else {
                match self.frames.last() {
                    Frame::Array(before, items) => if items.len() == 0 {
                        State::Array
                    } else {
                        State::Value
                    },
                    Frame::Object(before, members, name) => if name is Some {
                        State::Value
                    } else if members.len() == 0 {
                        State::Object
                    } else {
                        State::Key
                    },
                }
            },
            Focus::Keyword(kind, n) => if kind == 0 {
                if n == 1 {
                    State::N1
                } else if n == 2 {
                    State::N2
                } else {
                    State::N3
                }
            } else if kind == 1 {
                if n == 1 {
                    State::T1
                } else if n == 2 {
                    State::T2
                } else {
                    State::T3
                }
            } else {
                if n == 1 {
                    State::F1
                } else if n == 2 {
                    State::F2
                } else if n == 3 {
                    State::F3
                } else {
                    State::F4
                }
            },
            Focus::Number(number) => number.stage,
            Focus::Text(pieces, raw, awaiting) => if raw.len() == 0 {
                State::Text
            } else if raw.len() == 1 {
                State::Escape
            } else if raw.len() == 2 {
                State::U1
            } else if raw.len() == 3 {
                State::U2
            } else if raw.len() == 4 {
                State::U3
            } else {
                State::U4
            },
            Focus::AfterName(name, ws) => State::Colon,
            Focus::Done(value, ws) => State::Okay,
        }
    }

    /// Whether the parser awaits the second half of a surrogate pair.
    pub open spec fn awaiting(self) -> bool {
        self.focus matches Focus::Text(pieces, raw, awaiting) && awaiting
    }
}

} // verus!
