use actson::table::{classify, lookup, Action, CharClass, State, Transition};
use actson::JsonEvent;

const XX: i8 = -1;
const RC: i8 = 99;

const CLASSES: [CharClass; 31] = [
    CharClass::Space,
    CharClass::White,
    CharClass::LCurly,
    CharClass::RCurly,
    CharClass::LSquare,
    CharClass::RSquare,
    CharClass::Colon,
    CharClass::Comma,
    CharClass::Quote,
    CharClass::Backslash,
    CharClass::Slash,
    CharClass::Plus,
    CharClass::Minus,
    CharClass::Point,
    CharClass::Zero,
    CharClass::Digit,
    CharClass::LowA,
    CharClass::LowB,
    CharClass::LowC,
    CharClass::LowD,
    CharClass::LowE,
    CharClass::LowF,
    CharClass::LowL,
    CharClass::LowN,
    CharClass::LowR,
    CharClass::LowS,
    CharClass::LowT,
    CharClass::LowU,
    CharClass::UpperAbcdf,
    CharClass::UpperE,
    CharClass::Etc,
];

const STATES: [State; 31] = [
    State::Start,
    State::Okay,
    State::Object,
    State::Key,
    State::Colon,
    State::Value,
    State::Array,
    State::Text,
    State::Escape,
    State::U1,
    State::U2,
    State::U3,
    State::U4,
    State::Minus,
    State::Zero,
    State::Int,
    State::Frac0,
    State::Frac,
    State::E1,
    State::E2,
    State::E3,
    State::T1,
    State::T2,
    State::T3,
    State::F1,
    State::F2,
    State::F3,
    State::F4,
    State::N1,
    State::N2,
    State::N3,
];

/// The classes of the 128 ASCII characters, by the index of the class
const ASCII_CLASS: [i8; 128] = [
    XX, XX, XX, XX, XX, XX, XX, XX,
    XX,  1,  1, XX, XX,  1, XX, XX,
    XX, XX, XX, XX, XX, XX, XX, XX,
    XX, XX, XX, XX, XX, XX, XX, XX,

     0, 30,  8, 30, 30, 30, 30, 30,
    30, 30, 30, 11,  7, 12, 13, 10,
    14, 15, 15, 15, 15, 15, 15, 15,
    15, 15,  6, 30, 30, 30, 30, 30,

    30, 28, 28, 28, 28, 29, 28, 30,
    30, 30, 30, 30, 30, 30, 30, 30,
    30, 30, 30, 30, 30, 30, 30, 30,
    30, 30, 30,  4,  9,  5, 30, 30,

    30, 16, 17, 18, 19, 20, 21, 30,
    30, 30, 30, 30, 22, 30, 23, 30,
    30, 30, 24, 25, 26, 27, 30, 30,
    30, 30, 30,  2, 30,  3, 30, 30,
];

/// The state transition table, one row for each state and one column for
/// each class: the index of the next state, or a negative number for an
/// action, or `RC` where a new value may begin in streaming mode.
const STATE_TRANSITION_TABLE: [i8; 992] = [
/*start */  0, 0,-6,XX,-5,XX,XX,XX, 7,XX,XX,XX,13,XX,14,15,XX,XX,XX,XX,XX,24,XX,28,XX,XX,21,XX,XX,XX,XX,XX,
/*ok    */  1, 1,RC,-8,RC,-7,XX,-3,RC,XX,XX,XX,RC,XX,RC,RC,XX,XX,XX,XX,XX,RC,XX,RC,XX,XX,RC,XX,XX,XX,XX,XX,
/*object*/  2, 2,XX,-9,XX,XX,XX,XX, 7,XX,XX,XX,XX,XX,XX,XX,XX,XX,XX,XX,XX,XX,XX,XX,XX,XX,XX,XX,XX,XX,XX,XX,
/*key   */  3, 3,XX,XX,XX,XX,XX,XX, 7,XX,XX,XX,XX,XX,XX,XX,XX,XX,XX,XX,XX,XX,XX,XX,XX,XX,XX,XX,XX,XX,XX,XX,
/*colon */  4, 4,XX,XX,XX,XX,-2,XX,XX,XX,XX,XX,XX,XX,XX,XX,XX,XX,XX,XX,XX,XX,XX,XX,XX,XX,XX,XX,XX,XX,XX,XX,
/*value */  5, 5,-6,XX,-5,XX,XX,XX, 7,XX,XX,XX,13,XX,14,15,XX,XX,XX,XX,XX,24,XX,28,XX,XX,21,XX,XX,XX,XX,XX,
/*array */  6, 6,-6,XX,-5,-7,XX,XX, 7,XX,XX,XX,13,XX,14,15,XX,XX,XX,XX,XX,24,XX,28,XX,XX,21,XX,XX,XX,XX,XX,
/*string*/  7,XX, 7, 7, 7, 7, 7, 7,-4, 8, 7, 7, 7, 7, 7, 7, 7, 7, 7, 7, 7, 7, 7, 7, 7, 7, 7, 7, 7, 7, 7,XX,
/*escape*/ XX,XX,XX,XX,XX,XX,XX,XX, 7, 7, 7,XX,XX,XX,XX,XX,XX, 7,XX,XX,XX, 7,XX, 7, 7,XX, 7, 9,XX,XX,XX,XX,
/*u1    */ XX,XX,XX,XX,XX,XX,XX,XX,XX,XX,XX,XX,XX,XX,10,10,10,10,10,10,10,10,XX,XX,XX,XX,XX,XX,10,10,XX,XX,
/*u2    */ XX,XX,XX,XX,XX,XX,XX,XX,XX,XX,XX,XX,XX,XX,11,11,11,11,11,11,11,11,XX,XX,XX,XX,XX,XX,11,11,XX,XX,
/*u3    */ XX,XX,XX,XX,XX,XX,XX,XX,XX,XX,XX,XX,XX,XX,12,12,12,12,12,12,12,12,XX,XX,XX,XX,XX,XX,12,12,XX,XX,
/*u4    */ XX,XX,XX,XX,XX,XX,XX,XX,XX,XX,XX,XX,XX,XX, 7, 7, 7, 7, 7, 7, 7, 7,XX,XX,XX,XX,XX,XX, 7, 7,XX,XX,
/*minus */ XX,XX,XX,XX,XX,XX,XX,XX,XX,XX,XX,XX,XX,XX,14,15,XX,XX,XX,XX,XX,XX,XX,XX,XX,XX,XX,XX,XX,XX,XX,XX,
/*zero  */  1, 1,RC,-8,RC,-7,XX,-3,RC,XX,XX,XX,XX,16,XX,XX,XX,XX,XX,XX,18,RC,XX,RC,XX,XX,RC,XX,XX,18,XX,XX,
/*int   */  1, 1,RC,-8,RC,-7,XX,-3,RC,XX,XX,XX,XX,16,15,15,XX,XX,XX,XX,18,RC,XX,RC,XX,XX,RC,XX,XX,18,XX,XX,
/*frac0 */ XX,XX,XX,XX,XX,XX,XX,XX,XX,XX,XX,XX,XX,XX,17,17,XX,XX,XX,XX,XX,XX,XX,XX,XX,XX,XX,XX,XX,XX,XX,XX,
/*frac  */  1, 1,RC,-8,RC,-7,XX,-3,RC,XX,XX,XX,XX,XX,17,17,XX,XX,XX,XX,18,RC,XX,RC,XX,XX,RC,XX,XX,18,XX,XX,
/*e     */ XX,XX,XX,XX,XX,XX,XX,XX,XX,XX,XX,19,19,XX,20,20,XX,XX,XX,XX,XX,XX,XX,XX,XX,XX,XX,XX,XX,XX,XX,XX,
/*ex    */ XX,XX,XX,XX,XX,XX,XX,XX,XX,XX,XX,XX,XX,XX,20,20,XX,XX,XX,XX,XX,XX,XX,XX,XX,XX,XX,XX,XX,XX,XX,XX,
/*exp   */  1, 1,RC,-8,RC,-7,XX,-3,RC,XX,XX,XX,XX,XX,20,20,XX,XX,XX,XX,XX,RC,XX,RC,XX,XX,RC,XX,XX,XX,XX,XX,
/*tr    */ XX,XX,XX,XX,XX,XX,XX,XX,XX,XX,XX,XX,XX,XX,XX,XX,XX,XX,XX,XX,XX,XX,XX,XX,22,XX,XX,XX,XX,XX,XX,XX,
/*tru   */ XX,XX,XX,XX,XX,XX,XX,XX,XX,XX,XX,XX,XX,XX,XX,XX,XX,XX,XX,XX,XX,XX,XX,XX,XX,XX,XX,23,XX,XX,XX,XX,
/*true  */ XX,XX,XX,XX,XX,XX,XX,XX,XX,XX,XX,XX,XX,XX,XX,XX,XX,XX,XX,XX, 1,XX,XX,XX,XX,XX,XX,XX,XX,XX,XX,XX,
/*fa    */ XX,XX,XX,XX,XX,XX,XX,XX,XX,XX,XX,XX,XX,XX,XX,XX,25,XX,XX,XX,XX,XX,XX,XX,XX,XX,XX,XX,XX,XX,XX,XX,
/*fal   */ XX,XX,XX,XX,XX,XX,XX,XX,XX,XX,XX,XX,XX,XX,XX,XX,XX,XX,XX,XX,XX,XX,26,XX,XX,XX,XX,XX,XX,XX,XX,XX,
/*fals  */ XX,XX,XX,XX,XX,XX,XX,XX,XX,XX,XX,XX,XX,XX,XX,XX,XX,XX,XX,XX,XX,XX,XX,XX,XX,27,XX,XX,XX,XX,XX,XX,
/*false */ XX,XX,XX,XX,XX,XX,XX,XX,XX,XX,XX,XX,XX,XX,XX,XX,XX,XX,XX,XX, 1,XX,XX,XX,XX,XX,XX,XX,XX,XX,XX,XX,
/*nu    */ XX,XX,XX,XX,XX,XX,XX,XX,XX,XX,XX,XX,XX,XX,XX,XX,XX,XX,XX,XX,XX,XX,XX,XX,XX,XX,XX,29,XX,XX,XX,XX,
/*nul   */ XX,XX,XX,XX,XX,XX,XX,XX,XX,XX,XX,XX,XX,XX,XX,XX,XX,XX,XX,XX,XX,XX,30,XX,XX,XX,XX,XX,XX,XX,XX,XX,
/*null  */ XX,XX,XX,XX,XX,XX,XX,XX,XX,XX,XX,XX,XX,XX,XX,XX,XX,XX,XX,XX,XX,XX, 1,XX,XX,XX,XX,XX,XX,XX,XX,XX,
];

fn transition_of(code: i8) -> Transition {
    match code {
        -9 => Transition::Act(Action::EndEmptyObject),
        -8 => Transition::Act(Action::EndObject),
        -7 => Transition::Act(Action::EndArray),
        -6 => Transition::Act(Action::StartObject),
        -5 => Transition::Act(Action::StartArray),
        -4 => Transition::Act(Action::EndString),
        -3 => Transition::Act(Action::Comma),
        -2 => Transition::Act(Action::Colon),
        RC => Transition::Recover,
        c if c >= 0 => Transition::Goto(STATES[c as usize]),
        _ => Transition::Reject,
    }
}

/// Every byte falls into the class that the table of ASCII classes gives
#[test]
fn classes_of_all_bytes() {
    for b in 0..=255u8 {
        let expected = if b >= 128 {
            Some(CharClass::Etc)
        } else {
            let c = ASCII_CLASS[b as usize];
            if c < 0 {
                None
            } else {
                Some(CLASSES[c as usize])
            }
        };
        assert_eq!(classify(b), expected, "byte {}", b);
    }
}

/// Every cell of the state transition table is what `lookup` returns
#[test]
fn transitions_of_all_states_and_classes() {
    for (s, state) in STATES.iter().enumerate() {
        for (c, class) in CLASSES.iter().enumerate() {
            let code = STATE_TRANSITION_TABLE[(s << 5) + c];
            assert_eq!(lookup(*state, *class), transition_of(code), "{:?} {:?}", state, class);
        }
    }
}

/// The scalars that end in a state
#[test]
fn events_of_states() {
    for state in STATES.iter() {
        let expected = match state {
            State::Int | State::Zero => JsonEvent::ValueInt,
            State::Frac | State::E1 | State::E2 | State::E3 => JsonEvent::ValueFloat,
            State::T3 => JsonEvent::ValueTrue,
            State::F4 => JsonEvent::ValueFalse,
            State::N3 => JsonEvent::ValueNull,
            _ => JsonEvent::NeedMoreInput,
        };
        assert_eq!(state.to_event(), expected);
    }
}
