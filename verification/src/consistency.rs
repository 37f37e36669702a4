//! The state of the automaton and the stack of modes tell the same story.
use crate::laws::{bottomed, lemma_feed_wf};
use crate::machine::Machine;
use crate::table::{class_of, transition, Mode, State, Transition};
use vstd::prelude::*;

verus! {

impl Machine {
    /// Whether the state of the automaton fits the stack of modes:
    /// - nothing has been read only at the top level;
    /// - a key or the colon after it is expected only in an object that
    ///   expects a key;
    /// - a value is expected only in an array or after the colon of a
    ///   member;
    /// - a value has been completed, or a number or a keyword is being
    ///   read, only where no key is due: at the top level, in an array,
    ///   or as the value of a member;
    /// - only the innermost object expects a key.
    pub open spec fn consistent(self) -> bool {
        &&& forall|i: int| 0 <= i < self.stack.len() - 1 ==> !(#[trigger] self.stack[i] is Key)
        &&& match self.state {
            State::Start => self.at_top_level(),
            State::Object | State::Key | State::Colon => self.top() == Some(Mode::Key),
            State::Value => self.top() == Some(Mode::Object) || self.top() == Some(Mode::Array),
            State::Array => self.top() == Some(Mode::Array),
            State::Text | State::Escape | State::U1 | State::U2 | State::U3 | State::U4 => true,
            _ => self.top() == Some(Mode::Done) || self.top() == Some(Mode::Object) || self.top()
                == Some(Mode::Array),
        }
    }
}

/// The state of a parser that has read nothing fits its stack.
pub proof fn lemma_initial_consistent(max_depth: nat, streaming: bool)
    ensures
        Machine::initial(max_depth, streaming).consistent(),
{
}

/// Parsing a byte keeps the state and the stack fit for each other.
pub proof fn lemma_feed_consistent(m: Machine, b: u8)
    requires
        m.wf(),
        m.consistent(),
        m.putback is None,
        m.event1 is NeedMoreInput,
        m.halted is None,
    ensures
        m.feed(b).halted is None ==> m.feed(b).consistent(),
{
    reveal(Machine::feed);
    reveal(bottomed);
    let counted = Machine { parsed_bytes: m.parsed_bytes + 1, ..m };
    match class_of(b) {
        None => {},
        Some(class) => {
            let (t, r) = counted.resolve(b, class);
            if transition(counted.state, class) is Recover {
                assert(counted.state is Okay || counted.state.ends_number());
            }
            match t {
                Transition::Goto(next) => {
                    assert(r.stack == m.stack);
                },
                Transition::Act(action) => {
                    assert(r == counted);
                },
                _ => {},
            }
        },
    }
}

/// One call of the parser keeps the state and the stack fit for each
/// other, until parsing ends.
pub proof fn law_consistent(m: Machine, input: Seq<u8>, closed: bool)
    requires
        m.wf(),
        m.consistent(),
    ensures
        m.run(input, closed).machine.halted is None ==> m.run(input, closed).machine.consistent(),
    decreases input.len() + (if m.putback is Some {
        1nat
    } else {
        0nat
    }),
{
    if !(m.halted is None && m.event1 is NeedMoreInput) {
    } else {
        match m.putback {
            Some(b) => {
                lemma_feed_wf(m.taken(), b);
                lemma_feed_consistent(m.taken(), b);
                let r = m.taken().feed(b);
                if r.quiet() {
                    law_consistent(r, input, closed);
                }
            },
            None => {
                if input.len() > 0 {
                    lemma_feed_wf(m, input[0]);
                    lemma_feed_consistent(m, input[0]);
                    let r = m.feed(input[0]);
                    if r.quiet() {
                        law_consistent(r, input.skip(1), closed);
                    }
                }
            },
        }
    }
}

} // verus!
