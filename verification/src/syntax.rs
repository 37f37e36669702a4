//! The syntax of JSON texts: what a text is made of, the bytes that it is
//! written with, and the tree and the events that it stands for.
use crate::event::JsonEvent;
use crate::machine::unescape;
use crate::tree::Tree;
use crate::unicode::{combine_surrogates, hex4, is_high_surrogate, is_low_surrogate};
use vstd::prelude::*;
use vstd::utf8::{decode_utf8, encode_scalar, encode_utf8};

verus! {

/// Space, tab, line feed or carriage return.
pub open spec fn is_blank(b: u8) -> bool {
    b == 0x20 || b == 0x09 || b == 0x0A || b == 0x0D
}

/// Whether every byte is white space.
pub open spec fn all_blank(s: Seq<u8>) -> bool {
    forall|i: int| 0 <= i < s.len() ==> is_blank(#[trigger] s[i])
}

/// Whether every byte is a decimal digit.
pub open spec fn digit_bytes(s: Seq<u8>) -> bool {
    forall|i: int| 0 <= i < s.len() ==> 0x30 <= #[trigger] s[i] <= 0x39
}

/// The decimal digits of a number, without leading zeros.
pub open spec fn digits(n: nat) -> Seq<u8>
    decreases n,
{
    if n < 10 {
        seq![(0x30 + n) as u8]
    } else {
        digits(n / 10).push((0x30 + n % 10) as u8)
    }
}

/// The text of an integer: a minus sign, if there is one, and the decimal
/// digits of the absolute value.
pub open spec fn int_text(negative: bool, whole: nat) -> Seq<u8> {
    if negative {
        seq![0x2Du8] + digits(whole)
    } else {
        digits(whole)
    }
}

/// The exponent of a floating point number.
pub ghost struct Exponent {
    /// Whether the exponent is marked by `E`, not by `e`.
    pub upper: bool,
    /// The sign of the exponent, if it is written: `true` for `-`.
    pub sign: Option<bool>,
    /// The digits of the exponent.
    pub digits: Seq<u8>,
}

/// The parts of the text of a floating point number.
pub ghost struct FloatText {
    /// Whether the number begins with a minus sign.
    pub negative: bool,
    /// The part before the decimal point.
    pub whole: nat,
    /// The digits after the decimal point; none if there is no point.
    pub fraction: Seq<u8>,
    /// The exponent, if there is one.
    pub exponent: Option<Exponent>,
}

impl FloatText {
    /// Whether these are the parts of a floating point number: there is
    /// a fraction or an exponent, and they are made of digits.
    pub open spec fn valid(self) -> bool {
        &&& digit_bytes(self.fraction)
        &&& self.fraction.len() > 0 || self.exponent is Some
        &&& self.exponent matches Some(x) ==> x.digits.len() > 0 && digit_bytes(x.digits)
    }

    /// The sign and the part before the decimal point.
    pub open spec fn whole_text(self) -> Seq<u8> {
        int_text(self.negative, self.whole)
    }

    /// The decimal point and the digits after it.
    pub open spec fn fraction_text(self) -> Seq<u8> {
        if self.fraction.len() > 0 {
            seq![0x2Eu8] + self.fraction
        } else {
            Seq::empty()
        }
    }

    /// The exponent with its mark and sign.
    pub open spec fn exponent_text(self) -> Seq<u8> {
        match self.exponent {
            Some(x) => seq![
                if x.upper {
                    0x45u8
                } else {
                    0x65u8
                },
            ] + (match x.sign {
                Some(minus) => seq![
                    if minus {
                        0x2Du8
                    } else {
                        0x2Bu8
                    },
                ],
                None => Seq::empty(),
            }) + x.digits,
            None => Seq::empty(),
        }
    }

    /// The text of the number.
    pub open spec fn text(self) -> Seq<u8> {
        self.whole_text() + self.fraction_text() + self.exponent_text()
    }
}

/// What a string is written with, piece by piece.
pub ghost enum StringPiece {
    /// A character that stands for itself, in its UTF-8 encoding.
    Plain(char),
    /// A backslash and a letter: one of `"`, `\`, `/`, `b`, `f`, `n`, `r`
    /// and `t`.
    Short(u8),
    /// A backslash, `u` and four hex digits that spell a code unit.
    Unicode(u8, u8, u8, u8),
    /// Two such escapes after each other, which spell the two halves of
    /// a surrogate pair.
    Pair(u8, u8, u8, u8, u8, u8, u8, u8),
    /// A byte beyond ASCII that stands for itself, on its own.
    Raw(u8),
}

/// Whether a character stands for itself in a string: it is no control
/// character, no quote and no backslash.
pub open spec fn plain_char(c: char) -> bool {
    c as u32 >= 0x20 && c as u32 != 0x22 && c as u32 != 0x5C
}

impl StringPiece {
    /// Whether the piece is well formed.
    pub open spec fn valid(self) -> bool {
        match self {
            StringPiece::Plain(c) => plain_char(c),
            StringPiece::Short(letter) => unescape(letter) is Some,
            StringPiece::Unicode(d3, d2, d1, d0) => hex4(d3, d2, d1, d0) is Some,
            StringPiece::Pair(h3, h2, h1, h0, l3, l2, l1, l0) => (hex4(h3, h2, h1, h0) matches Some(
                high,
            ) && is_high_surrogate(high)) && (hex4(l3, l2, l1, l0) matches Some(low)
                && is_low_surrogate(low)),
            StringPiece::Raw(b) => b >= 0x80,
        }
    }

    /// Whether the piece stands for a character: it is no byte on its
    /// own, and no escape of one half of a surrogate pair on its own.
    pub open spec fn strict(self) -> bool {
        match self {
            StringPiece::Unicode(d3, d2, d1, d0) => hex4(d3, d2, d1, d0) matches Some(unit)
                ==> !is_high_surrogate(unit) && !is_low_surrogate(unit),
            StringPiece::Raw(b) => false,
            _ => true,
        }
    }

    /// The bytes that the piece is written with.
    pub open spec fn text(self) -> Seq<u8> {
        match self {
            StringPiece::Plain(c) => encode_scalar(c as u32),
            StringPiece::Short(letter) => seq![0x5Cu8, letter],
            StringPiece::Unicode(d3, d2, d1, d0) => seq![0x5Cu8, 0x75u8, d3, d2, d1, d0],
            StringPiece::Pair(h3, h2, h1, h0, l3, l2, l1, l0) => seq![
                0x5Cu8,
                0x75u8,
                h3,
                h2,
                h1,
                h0,
                0x5Cu8,
                0x75u8,
                l3,
                l2,
                l1,
                l0,
            ],
            StringPiece::Raw(b) => seq![b],
        }
    }

    /// The code point that the piece stands for.
    pub open spec fn scalar(self) -> u32 {
        match self {
            StringPiece::Plain(c) => c as u32,
            StringPiece::Short(letter) => unescape(letter)->0 as u32,
            StringPiece::Unicode(d3, d2, d1, d0) => hex4(d3, d2, d1, d0)->0 as u32,
            StringPiece::Pair(h3, h2, h1, h0, l3, l2, l1, l0) => combine_surrogates(
                hex4(h3, h2, h1, h0)->0,
                hex4(l3, l2, l1, l0)->0,
            ),
            StringPiece::Raw(b) => b as u32,
        }
    }
}

/// Whether every piece of a string is well formed.
pub open spec fn pieces_valid(pieces: Seq<StringPiece>) -> bool {
    forall|i: int| 0 <= i < pieces.len() ==> (#[trigger] pieces[i]).valid()
}

/// Whether every piece of a string stands for a character.
pub open spec fn pieces_strict(pieces: Seq<StringPiece>) -> bool {
    forall|i: int| 0 <= i < pieces.len() ==> (#[trigger] pieces[i]).strict()
}

/// The bytes that the pieces of a string are written with.
pub open spec fn pieces_text(pieces: Seq<StringPiece>) -> Seq<u8>
    decreases pieces.len(),
{
    if pieces.len() == 0 {
        Seq::empty()
    } else {
        pieces_text(pieces.drop_last()) + pieces.last().text()
    }
}

/// The characters that the pieces of a string stand for.
pub open spec fn pieces_chars(pieces: Seq<StringPiece>) -> Seq<char>
    decreases pieces.len(),
{
    if pieces.len() == 0 {
        Seq::empty()
    } else {
        pieces_chars(pieces.drop_last()).push(pieces.last().scalar() as char)
    }
}

/// A string as it is written: its pieces between quotes.
pub open spec fn quoted(pieces: Seq<StringPiece>) -> Seq<u8> {
    seq![0x22u8] + pieces_text(pieces) + seq![0x22u8]
}

/// A member of an object: the white space before its name, its name, the
/// white space between the name and the colon, and its value.
pub type Member = (Seq<u8>, Seq<StringPiece>, Seq<u8>, Syntax);

/// A JSON value as it is written.
pub ghost enum Syntax {
    /// `null`
    Null,
    /// `true`
    True,
    /// `false`
    False,
    /// An integer: whether it has a minus sign, and its absolute value.
    Int(bool, nat),
    /// A floating point number.
    Float(FloatText),
    /// A string.
    String(Seq<StringPiece>),
    /// An array: the white space between its brackets if it is empty,
    /// and its elements.
    Array(Seq<u8>, Seq<Syntax>),
    /// An object: the white space between its braces if it is empty, and
    /// its members.
    Object(Seq<u8>, Seq<Member>),
    /// A value with white space before it and after it.
    Padded(Seq<u8>, Box<Syntax>, Seq<u8>),
}

/// What a value that is written stands for.
pub ghost struct Written {
    /// The bytes of the text.
    pub text: Seq<u8>,
    /// The tree of the value. For the elements of an array this is the
    /// array, and for the members of an object it is the object.
    pub tree: Tree,
    /// The events of the value, in the order of the text.
    pub events: Seq<JsonEvent>,
    /// The text that comes with each event.
    pub values: Seq<Seq<u8>>,
    /// The number of structures that are open at the deepest point of the
    /// text.
    pub depth: nat,
    /// Whether the text is well formed: its white space is white space,
    /// and its numbers and strings are well formed.
    pub valid: bool,
    /// Whether every piece of the strings of the text stands for a
    /// character.
    pub strict: bool,
    /// Whether the integers of the text fit in an `i64`.
    pub fits: bool,
}

/// A scalar: one event with its text.
pub open spec fn written_scalar(
    text: Seq<u8>,
    tree: Tree,
    event: JsonEvent,
    value: Seq<u8>,
    valid: bool,
    strict: bool,
    fits: bool,
) -> Written {
    Written { text, tree, events: seq![event], values: seq![value], depth: 0, valid, strict, fits }
}

/// A structure: its content between its brackets.
pub open spec fn written_structure(
    open: u8,
    start: JsonEvent,
    gap: Seq<u8>,
    empty: bool,
    inner: Written,
    close: u8,
    end: JsonEvent,
) -> Written {
    Written {
        text: seq![open] + (if empty {
            gap
        } else {
            inner.text
        }) + seq![close],
        tree: inner.tree,
        events: seq![start] + inner.events + seq![end],
        values: seq![Seq::<u8>::empty()] + inner.values + seq![Seq::<u8>::empty()],
        depth: inner.depth + 1,
        valid: inner.valid && (empty ==> all_blank(gap)),
        strict: inner.strict,
        fits: inner.fits,
    }
}

/// One element of a structure after the elements before it, with a comma
/// in between; `tree` is the structure with the element.
pub open spec fn written_after(
    before: Written,
    first: bool,
    element: Written,
    tree: Tree,
) -> Written {
    Written {
        text: if first {
            element.text
        } else {
            before.text + seq![0x2Cu8] + element.text
        },
        tree,
        events: before.events + element.events,
        values: before.values + element.values,
        depth: if before.depth >= element.depth {
            before.depth
        } else {
            element.depth
        },
        valid: before.valid && element.valid,
        strict: before.strict && element.strict,
        fits: before.fits && element.fits,
    }
}

/// Nothing written; `tree` is the empty structure.
pub open spec fn written_nothing(tree: Tree) -> Written {
    Written {
        text: Seq::empty(),
        tree,
        events: Seq::empty(),
        values: Seq::empty(),
        depth: 0,
        valid: true,
        strict: true,
        fits: true,
    }
}

/// A member of an object: its name, a colon, and its value, with white
/// space before the name and before the colon.
pub open spec fn written_member(
    before_name: Seq<u8>,
    name: Seq<StringPiece>,
    after_name: Seq<u8>,
    value: Written,
) -> Written {
    Written {
        text: before_name + quoted(name) + after_name + seq![0x3Au8] + value.text,
        tree: value.tree,
        events: seq![JsonEvent::FieldName] + value.events,
        values: seq![encode_utf8(pieces_chars(name))] + value.values,
        depth: value.depth,
        valid: all_blank(before_name) && pieces_valid(name) && all_blank(after_name)
            && value.valid,
        strict: pieces_strict(name) && value.strict,
        fits: value.fits,
    }
}

/// The bytes of `null`.
pub open spec fn null_text() -> Seq<u8> {
    seq![0x6Eu8, 0x75u8, 0x6Cu8, 0x6Cu8]
}

/// The bytes of `true`.
pub open spec fn true_text() -> Seq<u8> {
    seq![0x74u8, 0x72u8, 0x75u8, 0x65u8]
}

/// The bytes of `false`.
pub open spec fn false_text() -> Seq<u8> {
    seq![0x66u8, 0x61u8, 0x6Cu8, 0x73u8, 0x65u8]
}

/// The integer that a sign and an absolute value make.
pub open spec fn signed(negative: bool, whole: nat) -> int {
    if negative {
        -(whole as int)
    } else {
        whole as int
    }
}

/// What a value that is written stands for: its text, its tree and its
/// events.
pub open spec fn written(s: Syntax) -> Written
    decreases s,
{
    match s {
        Syntax::Null => written_scalar(
            null_text(),
            Tree::Null,
            JsonEvent::ValueNull,
            Seq::empty(),
            true,
            true,
            true,
        ),
        Syntax::True => written_scalar(
            true_text(),
            Tree::Bool(true),
            JsonEvent::ValueTrue,
            Seq::empty(),
            true,
            true,
            true,
        ),
        Syntax::False => written_scalar(
            false_text(),
            Tree::Bool(false),
            JsonEvent::ValueFalse,
            Seq::empty(),
            true,
            true,
            true,
        ),
        Syntax::Int(negative, whole) => written_scalar(
            int_text(negative, whole),
            Tree::Int(signed(negative, whole)),
            JsonEvent::ValueInt,
            int_text(negative, whole),
            true,
            true,
            i64::MIN <= signed(negative, whole) <= i64::MAX,
        ),
        Syntax::Float(f) => written_scalar(
            f.text(),
            Tree::Float(decode_utf8(f.text())),
            JsonEvent::ValueFloat,
            f.text(),
            f.valid(),
            true,
            true,
        ),
        Syntax::String(pieces) => written_scalar(
            quoted(pieces),
            Tree::String(pieces_chars(pieces)),
            JsonEvent::ValueString,
            encode_utf8(pieces_chars(pieces)),
            pieces_valid(pieces),
            pieces_strict(pieces),
            true,
        ),
        Syntax::Array(gap, items) => written_structure(
            0x5B,
            JsonEvent::StartArray,
            gap,
            items.len() == 0,
            written_items(items),
            0x5D,
            JsonEvent::EndArray,
        ),
        Syntax::Object(gap, members) => written_structure(
            0x7B,
            JsonEvent::StartObject,
            gap,
            members.len() == 0,
            written_members(members),
            0x7D,
            JsonEvent::EndObject,
        ),
        Syntax::Padded(before, inner, after) => {
            let w = written(*inner);
            Written {
                text: before + w.text + after,
                valid: all_blank(before) && w.valid && all_blank(after),
                ..w
            }
        },
    }
}

/// What the elements of an array stand for.
pub open spec fn written_items(items: Seq<Syntax>) -> Written
    decreases items,
{
    if items.len() == 0 {
        written_nothing(Tree::Array(Seq::empty()))
    } else {
        let before = written_items(items.drop_last());
        let element = written(items.last());
        written_after(
            before,
            items.len() == 1,
            element,
            Tree::Array(before.tree->Array_0.push(element.tree)),
        )
    }
}

/// What the members of an object stand for.
pub open spec fn written_members(members: Seq<Member>) -> Written
    decreases members,
{
    if members.len() == 0 {
        written_nothing(Tree::Object(Seq::empty()))
    } else {
        let before = written_members(members.drop_last());
        let last = members.last();
        let member = written_member(last.0, last.1, last.2, written(last.3));
        written_after(
            before,
            members.len() == 1,
            member,
            Tree::Object(before.tree->Object_0.push((pieces_chars(last.1), member.tree))),
        )
    }
}

} // verus!
