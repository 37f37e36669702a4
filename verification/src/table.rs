//! The grammar automaton: character classes, states and the transition
//! table that maps a state and the class of the next byte to what the parser
//! does with that byte.
use crate::event::JsonEvent;
use vstd::prelude::*;

verus! {

/// The classes that input bytes fall into. Bytes of one class drive the
/// automaton in the same way.
#[derive(Clone, Copy, Debug, PartialEq, Eq, Structural)]
pub enum CharClass {
    /// The space character.
    Space,
    /// Tab, line feed, carriage return.
    White,
    /// `{`
    LCurly,
    /// `}`
    RCurly,
    /// `[`
    LSquare,
    /// `]`
    RSquare,
    /// `:`
    Colon,
    /// `,`
    Comma,
    /// `"`
    Quote,
    /// `\`
    Backslash,
    /// `/`
    Slash,
    /// `+`
    Plus,
    /// `-`
    Minus,
    /// `.`
    Point,
    /// `0`
    Zero,
    /// `1` to `9`
    Digit,
    /// `a`
    LowA,
    /// `b`
    LowB,
    /// `c`
    LowC,
    /// `d`
    LowD,
    /// `e`
    LowE,
    /// `f`
    LowF,
    /// `l`
    LowL,
    /// `n`
    LowN,
    /// `r`
    LowR,
    /// `s`
    LowS,
    /// `t`
    LowT,
    /// `u`
    LowU,
    /// `A`, `B`, `C`, `D`, `F`
    UpperAbcdf,
    /// `E`
    UpperE,
    /// Everything else, including all bytes from 128 on.
    Etc,
}

/// The states of the automaton.
#[derive(Clone, Copy, Debug, PartialEq, Eq, Structural)]
pub enum State {
    /// Nothing has been read yet.
    Start,
    /// A value has been completed.
    Okay,
    /// After `{`: a key or `}` is expected.
    Object,
    /// After `,` in an object: a key is expected.
    Key,
    /// After a key: `:` is expected.
    Colon,
    /// After `:` or after `,` in an array: a value is expected.
    Value,
    /// After `[`: a value or `]` is expected.
    Array,
    /// Inside a string.
    Text,
    /// After `\` inside a string.
    Escape,
    /// After `\u`.
    U1,
    /// After `\u` and one hex digit.
    U2,
    /// After `\u` and two hex digits.
    U3,
    /// After `\u` and three hex digits.
    U4,
    /// After `-`.
    Minus,
    /// After a leading `0`.
    Zero,
    /// Inside the integer part of a number.
    Int,
    /// After the decimal point.
    Frac0,
    /// Inside the fraction of a number.
    Frac,
    /// After `e` or `E`.
    E1,
    /// After the sign of an exponent.
    E2,
    /// Inside the digits of an exponent.
    E3,
    /// After `t`.
    T1,
    /// After `tr`.
    T2,
    /// After `tru`.
    T3,
    /// After `f`.
    F1,
    /// After `fa`.
    F2,
    /// After `fal`.
    F3,
    /// After `fals`.
    F4,
    /// After `n`.
    N1,
    /// After `nu`.
    N2,
    /// After `nul`.
    N3,
}

/// The modes that the parser keeps on its stack to track nesting.
#[derive(Clone, Copy, Debug, PartialEq, Eq, Structural)]
pub enum Mode {
    /// Inside an array.
    Array,
    /// The bottom of the stack: taken off once, at the end of the input.
    Done,
    /// Inside an object, where a key comes next.
    Key,
    /// Inside an object, where a value comes next or has just ended.
    Object,
}

/// The structural actions of the automaton.
#[derive(Clone, Copy, Debug, PartialEq, Eq, Structural)]
pub enum Action {
    /// `}` right after `{`.
    EndEmptyObject,
    /// `}` after a member.
    EndObject,
    /// `]`
    EndArray,
    /// `{`
    StartObject,
    /// `[`
    StartArray,
    /// The closing `"` of a string.
    EndString,
    /// `,`
    Comma,
    /// `:`
    Colon,
}

/// What the table holds for a state and a character class.
#[derive(Clone, Copy, Debug, PartialEq, Eq, Structural)]
pub enum Transition {
    /// Move to the given state.
    Goto(State),
    /// Perform the given structural action.
    Act(Action),
    /// A new top-level value begins: accepted in streaming mode only.
    Recover,
    /// The byte is not allowed here.
    Reject,
}

impl CharClass {
    /// Space or other white space.
    pub open spec fn is_blank(self) -> bool {
        self is Space || self is White
    }

    /// `0` to `9`.
    pub open spec fn is_decimal(self) -> bool {
        self is Zero || self is Digit
    }

    /// A hexadecimal digit.
    pub open spec fn is_hex(self) -> bool {
        self.is_decimal() || self is LowA || self is LowB || self is LowC || self is LowD
            || self is LowE || self is LowF || self is UpperAbcdf || self is UpperE
    }

    /// `e` or `E`.
    pub open spec fn is_exponent(self) -> bool {
        self is LowE || self is UpperE
    }
}

impl State {
    /// The states in which the bytes of a string or a number are being
    /// collected into the value buffer.
    pub open spec fn in_scalar(self) -> bool {
        self is Text || self is Escape || self.in_unicode() || self is Minus || self is Zero
            || self is Int || self is Frac0 || self is Frac || self is E1 || self is E2
            || self is E3
    }

    /// The states inside the four hex digits of a `\u` escape.
    pub open spec fn in_unicode(self) -> bool {
        self is U1 || self is U2 || self is U3 || self is U4
    }

    /// The states in which a number can end.
    pub open spec fn ends_number(self) -> bool {
        self is Zero || self is Int || self is Frac || self is E3
    }

    /// The event of the scalar that ends when the automaton leaves this
    /// state, or `NeedMoreInput` if no scalar ends there.
    pub open spec fn event(self) -> JsonEvent {
        match self {
            State::Int | State::Zero => JsonEvent::ValueInt,
            State::Frac | State::E1 | State::E2 | State::E3 => JsonEvent::ValueFloat,
            State::T3 => JsonEvent::ValueTrue,
            State::F4 => JsonEvent::ValueFalse,
            State::N3 => JsonEvent::ValueNull,
            _ => JsonEvent::NeedMoreInput,
        }
    }

    /// The event of the scalar that ends when the automaton leaves this
    /// state, or `NeedMoreInput` if no scalar ends there.
    pub fn to_event(self) -> (r: JsonEvent)
        ensures
            r == self.event(),
    {
        match self {
            State::Int | State::Zero => JsonEvent::ValueInt,
            State::Frac | State::E1 | State::E2 | State::E3 => JsonEvent::ValueFloat,
            State::T3 => JsonEvent::ValueTrue,
            State::F4 => JsonEvent::ValueFalse,
            State::N3 => JsonEvent::ValueNull,
            _ => JsonEvent::NeedMoreInput,
        }
    }

    /// Whether bytes are being collected into the value buffer.
    pub fn collects(self) -> (r: bool)
        ensures
            r == self.in_scalar(),
    {
        match self {
            State::Text | State::Escape | State::U1 | State::U2 | State::U3 | State::U4
            | State::Minus | State::Zero | State::Int | State::Frac0 | State::Frac | State::E1
            | State::E2 | State::E3 => true,
            _ => false,
        }
    }
}

/// The class of a byte, or `None` for a control character that is not white
/// space: such a byte is illegal everywhere.
pub open spec fn class_of(b: u8) -> Option<CharClass> {
    if b == 0x20 {
        Some(CharClass::Space)
    } else if b == 0x09 || b == 0x0A || b == 0x0D {
        Some(CharClass::White)
    } else if b < 0x20 {
        None
    } else if b == 0x7B {
        Some(CharClass::LCurly)
    } else if b == 0x7D {
        Some(CharClass::RCurly)
    } else if b == 0x5B {
        Some(CharClass::LSquare)
    } else if b == 0x5D {
        Some(CharClass::RSquare)
    } else if b == 0x3A {
        Some(CharClass::Colon)
    } else if b == 0x2C {
        Some(CharClass::Comma)
    } else if b == 0x22 {
        Some(CharClass::Quote)
    } else if b == 0x5C {
        Some(CharClass::Backslash)
    } else if b == 0x2F {
        Some(CharClass::Slash)
    } else if b == 0x2B {
        Some(CharClass::Plus)
    } else if b == 0x2D {
        Some(CharClass::Minus)
    } else if b == 0x2E {
        Some(CharClass::Point)
    } else if b == 0x30 {
        Some(CharClass::Zero)
    } else if 0x31 <= b <= 0x39 {
        Some(CharClass::Digit)
    } else if b == 0x61 {
        Some(CharClass::LowA)
    } else if b == 0x62 {
        Some(CharClass::LowB)
    } else if b == 0x63 {
        Some(CharClass::LowC)
    } else if b == 0x64 {
        Some(CharClass::LowD)
    } else if b == 0x65 {
        Some(CharClass::LowE)
    } else if b == 0x66 {
        Some(CharClass::LowF)
    } else if b == 0x6C {
        Some(CharClass::LowL)
    } else if b == 0x6E {
        Some(CharClass::LowN)
    } else if b == 0x72 {
        Some(CharClass::LowR)
    } else if b == 0x73 {
        Some(CharClass::LowS)
    } else if b == 0x74 {
        Some(CharClass::LowT)
    } else if b == 0x75 {
        Some(CharClass::LowU)
    } else if b == 0x45 {
        Some(CharClass::UpperE)
    } else if 0x41 <= b <= 0x46 {
        Some(CharClass::UpperAbcdf)
    } else {
        Some(CharClass::Etc)
    }
}

/// Determine the class of a byte.
pub fn classify(b: u8) -> (r: Option<CharClass>)
    ensures
        r == class_of(b),
{
    match b {
        0x20 => Some(CharClass::Space),
        0x09 | 0x0A | 0x0D => Some(CharClass::White),
        0..=0x1F => None,
        0x22 => Some(CharClass::Quote),
        0x2B => Some(CharClass::Plus),
        0x2C => Some(CharClass::Comma),
        0x2D => Some(CharClass::Minus),
        0x2E => Some(CharClass::Point),
        0x2F => Some(CharClass::Slash),
        0x30 => Some(CharClass::Zero),
        0x31..=0x39 => Some(CharClass::Digit),
        0x3A => Some(CharClass::Colon),
        0x45 => Some(CharClass::UpperE),
        0x41..=0x46 => Some(CharClass::UpperAbcdf),
        0x5B => Some(CharClass::LSquare),
        0x5C => Some(CharClass::Backslash),
        0x5D => Some(CharClass::RSquare),
        0x61 => Some(CharClass::LowA),
        0x62 => Some(CharClass::LowB),
        0x63 => Some(CharClass::LowC),
        0x64 => Some(CharClass::LowD),
        0x65 => Some(CharClass::LowE),
        0x66 => Some(CharClass::LowF),
        0x6C => Some(CharClass::LowL),
        0x6E => Some(CharClass::LowN),
        0x72 => Some(CharClass::LowR),
        0x73 => Some(CharClass::LowS),
        0x74 => Some(CharClass::LowT),
        0x75 => Some(CharClass::LowU),
        0x7B => Some(CharClass::LCurly),
        0x7D => Some(CharClass::RCurly),
        _ => Some(CharClass::Etc),
    }
}

/// The row of the table for the states in which a value may begin.
pub open spec fn value_row(stay: State, class: CharClass) -> Transition {
    match class {
        CharClass::Space | CharClass::White => Transition::Goto(stay),
        CharClass::LCurly => Transition::Act(Action::StartObject),
        CharClass::LSquare => Transition::Act(Action::StartArray),
        CharClass::Quote => Transition::Goto(State::Text),
        CharClass::Minus => Transition::Goto(State::Minus),
        CharClass::Zero => Transition::Goto(State::Zero),
        CharClass::Digit => Transition::Goto(State::Int),
        CharClass::LowF => Transition::Goto(State::F1),
        CharClass::LowN => Transition::Goto(State::N1),
        CharClass::LowT => Transition::Goto(State::T1),
        _ => Transition::Reject,
    }
}

/// What every state in which a value is complete does with a byte that
/// follows the value: white space, a closing bracket, a comma, or the
/// beginning of another value.
pub open spec fn after_value_row(class: CharClass) -> Transition {
    if class.is_blank() {
        Transition::Goto(State::Okay)
    } else if class is RCurly {
        Transition::Act(Action::EndObject)
    } else if class is RSquare {
        Transition::Act(Action::EndArray)
    } else if class is Comma {
        Transition::Act(Action::Comma)
    } else if class is LCurly || class is LSquare || class is Quote || class is LowF
        || class is LowN || class is LowT {
        Transition::Recover
    } else {
        Transition::Reject
    }
}

/// A transition that is taken on exactly one class.
pub open spec fn only(expected: bool, next: State) -> Transition {
    if expected {
        Transition::Goto(next)
    } else {
        Transition::Reject
    }
}

/// The state transition table: what the automaton does in `state` with a
/// byte of class `class`.
pub open spec fn transition(state: State, class: CharClass) -> Transition {
    match state {
        State::Start => value_row(State::Start, class),
        State::Value => value_row(State::Value, class),
        State::Array => if class is RSquare {
            Transition::Act(Action::EndArray)
        } else {
            value_row(State::Array, class)
        },
        State::Okay => if class is Minus || class.is_decimal() {
            Transition::Recover
        } else {
            after_value_row(class)
        },
        State::Object => if class.is_blank() {
            Transition::Goto(State::Object)
        } else if class is RCurly {
            Transition::Act(Action::EndEmptyObject)
        } else {
            only(class is Quote, State::Text)
        },
        State::Key => if class.is_blank() {
            Transition::Goto(State::Key)
        } else {
            only(class is Quote, State::Text)
        },
        State::Colon => if class.is_blank() {
            Transition::Goto(State::Colon)
        } else if class is Colon {
            Transition::Act(Action::Colon)
        } else {
            Transition::Reject
        },
        State::Text => if class is Quote {
            Transition::Act(Action::EndString)
        } else if class is Backslash {
            Transition::Goto(State::Escape)
        } else {
            only(!(class is White), State::Text)
        },
        State::Escape => if class is LowU {
            Transition::Goto(State::U1)
        } else {
            only(
                class is Quote || class is Backslash || class is Slash || class is LowB
                    || class is LowF || class is LowN || class is LowR || class is LowT,
                State::Text,
            )
        },
        State::U1 => only(class.is_hex(), State::U2),
        State::U2 => only(class.is_hex(), State::U3),
        State::U3 => only(class.is_hex(), State::U4),
        State::U4 => only(class.is_hex(), State::Text),
        State::Minus => if class is Zero {
            Transition::Goto(State::Zero)
        } else {
            only(class is Digit, State::Int)
        },
        State::Zero => if class is Point {
            Transition::Goto(State::Frac0)
        } else if class.is_exponent() {
            Transition::Goto(State::E1)
        } else {
            after_value_row(class)
        },
        State::Int => if class.is_decimal() {
            Transition::Goto(State::Int)
        } else if class is Point {
            Transition::Goto(State::Frac0)
        } else if class.is_exponent() {
            Transition::Goto(State::E1)
        } else {
            after_value_row(class)
        },
        State::Frac0 => only(class.is_decimal(), State::Frac),
        State::Frac => if class.is_decimal() {
            Transition::Goto(State::Frac)
        } else if class.is_exponent() {
            Transition::Goto(State::E1)
        } else {
            after_value_row(class)
        },
        State::E1 => if class is Plus || class is Minus {
            Transition::Goto(State::E2)
        } else {
            only(class.is_decimal(), State::E3)
        },
        State::E2 => only(class.is_decimal(), State::E3),
        State::E3 => if class.is_decimal() {
            Transition::Goto(State::E3)
        } else {
            after_value_row(class)
        },
        State::T1 => only(class is LowR, State::T2),
        State::T2 => only(class is LowU, State::T3),
        State::T3 => only(class is LowE, State::Okay),
        State::F1 => only(class is LowA, State::F2),
        State::F2 => only(class is LowL, State::F3),
        State::F3 => only(class is LowS, State::F4),
        State::F4 => only(class is LowE, State::Okay),
        State::N1 => only(class is LowU, State::N2),
        State::N2 => only(class is LowL, State::N3),
        State::N3 => only(class is LowL, State::Okay),
    }
}

/// Look up the state transition table.
pub fn lookup(state: State, class: CharClass) -> (t: Transition)
    ensures
        t == transition(state, class),
{
    match state {
        State::Start | State::Value | State::Array => match class {
            CharClass::Space | CharClass::White => Transition::Goto(state),
            CharClass::LCurly => Transition::Act(Action::StartObject),
            CharClass::LSquare => Transition::Act(Action::StartArray),
            CharClass::RSquare => match state {
                State::Array => Transition::Act(Action::EndArray),
                _ => Transition::Reject,
            },
            CharClass::Quote => Transition::Goto(State::Text),
            CharClass::Minus => Transition::Goto(State::Minus),
            CharClass::Zero => Transition::Goto(State::Zero),
            CharClass::Digit => Transition::Goto(State::Int),
            CharClass::LowF => Transition::Goto(State::F1),
            CharClass::LowN => Transition::Goto(State::N1),
            CharClass::LowT => Transition::Goto(State::T1),
            _ => Transition::Reject,
        },
        State::Okay | State::Zero | State::Int | State::Frac | State::E3 => match class {
            CharClass::Space | CharClass::White => Transition::Goto(State::Okay),
            CharClass::RCurly => Transition::Act(Action::EndObject),
            CharClass::RSquare => Transition::Act(Action::EndArray),
            CharClass::Comma => Transition::Act(Action::Comma),
            CharClass::LCurly | CharClass::LSquare | CharClass::Quote | CharClass::LowF
            | CharClass::LowN | CharClass::LowT => Transition::Recover,
            CharClass::Minus => match state {
                State::Okay => Transition::Recover,
                _ => Transition::Reject,
            },
            CharClass::Zero | CharClass::Digit => match state {
                State::Okay => Transition::Recover,
                State::Zero => Transition::Reject,
                _ => Transition::Goto(state),
            },
            CharClass::Point => match state {
                State::Zero | State::Int => Transition::Goto(State::Frac0),
                _ => Transition::Reject,
            },
            CharClass::LowE | CharClass::UpperE => match state {
                State::Zero | State::Int | State::Frac => Transition::Goto(State::E1),
                _ => Transition::Reject,
            },
            _ => Transition::Reject,
        },
        State::Object | State::Key => match class {
            CharClass::Space | CharClass::White => Transition::Goto(state),
            CharClass::Quote => Transition::Goto(State::Text),
            CharClass::RCurly => match state {
                State::Object => Transition::Act(Action::EndEmptyObject),
                _ => Transition::Reject,
            },
            _ => Transition::Reject,
        },
        State::Colon => match class {
            CharClass::Space | CharClass::White => Transition::Goto(State::Colon),
            CharClass::Colon => Transition::Act(Action::Colon),
            _ => Transition::Reject,
        },
        State::Text => match class {
            CharClass::White => Transition::Reject,
            CharClass::Quote => Transition::Act(Action::EndString),
            CharClass::Backslash => Transition::Goto(State::Escape),
            _ => Transition::Goto(State::Text),
        },
        State::Escape => match class {
            CharClass::Quote | CharClass::Backslash | CharClass::Slash | CharClass::LowB
            | CharClass::LowF | CharClass::LowN | CharClass::LowR | CharClass::LowT => {
                Transition::Goto(State::Text)
            },
            CharClass::LowU => Transition::Goto(State::U1),
            _ => Transition::Reject,
        },
        State::U1 | State::U2 | State::U3 | State::U4 => match class {
            CharClass::Zero | CharClass::Digit | CharClass::LowA | CharClass::LowB
            | CharClass::LowC | CharClass::LowD | CharClass::LowE | CharClass::LowF
            | CharClass::UpperAbcdf | CharClass::UpperE => match state {
                State::U1 => Transition::Goto(State::U2),
                State::U2 => Transition::Goto(State::U3),
                State::U3 => Transition::Goto(State::U4),
                _ => Transition::Goto(State::Text),
            },
            _ => Transition::Reject,
        },
        State::Minus => match class {
            CharClass::Zero => Transition::Goto(State::Zero),
            CharClass::Digit => Transition::Goto(State::Int),
            _ => Transition::Reject,
        },
        State::Frac0 => match class {
            CharClass::Zero | CharClass::Digit => Transition::Goto(State::Frac),
            _ => Transition::Reject,
        },
        State::E1 | State::E2 => match class {
            CharClass::Zero | CharClass::Digit => Transition::Goto(State::E3),
            CharClass::Plus | CharClass::Minus => match state {
                State::E1 => Transition::Goto(State::E2),
                _ => Transition::Reject,
            },
            _ => Transition::Reject,
        },
        State::T1 => match class {
            CharClass::LowR => Transition::Goto(State::T2),
            _ => Transition::Reject,
        },
        State::T2 => match class {
            CharClass::LowU => Transition::Goto(State::T3),
            _ => Transition::Reject,
        },
        State::T3 | State::F4 => match class {
            CharClass::LowE => Transition::Goto(State::Okay),
            _ => Transition::Reject,
        },
        State::F1 => match class {
            CharClass::LowA => Transition::Goto(State::F2),
            _ => Transition::Reject,
        },
        State::F2 => match class {
            CharClass::LowL => Transition::Goto(State::F3),
            _ => Transition::Reject,
        },
        State::F3 => match class {
            CharClass::LowS => Transition::Goto(State::F4),
            _ => Transition::Reject,
        },
        State::N1 => match class {
            CharClass::LowU => Transition::Goto(State::N2),
            _ => Transition::Reject,
        },
        State::N2 => match class {
            CharClass::LowL => Transition::Goto(State::N3),
            _ => Transition::Reject,
        },
        State::N3 => match class {
            CharClass::LowL => Transition::Goto(State::Okay),
            _ => Transition::Reject,
        },
    }
}

} // verus!
