//! The canonical states of the chain: where the token rests, how many doubles
//! it has just thrown in a row, and how many rolls it has spent in jail.

use crate::space::{board, lemma_board_valid, space_at, Space, SPACECOUNT};
use crate::text::{decimal, push_decimal};
use vstd::string::StringExecFns;
use crate::strategy::Strategy;
use vstd::prelude::*;

verus! {

/// Position of the space where a token in jail rests.
pub const JAIL: usize = 30;

/// Position of the just-visiting space.
pub const VISIT: usize = 10;

/// A resting configuration of the token.
#[derive(Debug, Clone, Copy, PartialEq, Eq, Structural, PartialOrd, Ord, Hash)]
pub struct State {
    pub position: usize,
    pub doubles: u8,
    pub jailroll: u8,
}

/// Number of jail states: one when paying, one per attempt when waiting.
pub open spec fn jail_states(strategy: Strategy) -> int {
    match strategy {
        Strategy::PayJail => 1,
        Strategy::JailWait => 3,
    }
}

/// Number of canonical states.
pub open spec fn state_count(strategy: Strategy) -> int {
    3 * (SPACECOUNT - 1) + jail_states(strategy)
}

/// A state the chain can rest in: any space but the jail space with up to two
/// doubles thrown and no jail roll, or the jail space with no doubles and a
/// jail roll below the strategy's number of jail states.
pub open spec fn canonical(strategy: Strategy, s: State) -> bool {
    &&& s.position < SPACECOUNT
    &&& if s.position == JAIL {
        s.doubles == 0 && s.jailroll < jail_states(strategy)
    } else {
        s.doubles < 3 && s.jailroll == 0
    }
}

/// The order of states: by position, then doubles, then jail roll.
pub open spec fn state_lt(a: State, b: State) -> bool {
    a.position < b.position || (a.position == b.position && (a.doubles < b.doubles || (a.doubles
        == b.doubles && a.jailroll < b.jailroll)))
}

/// Index of a canonical state in ascending order.
pub open spec fn state_index(strategy: Strategy, s: State) -> int {
    if s.position < JAIL {
        3 * s.position + s.doubles
    } else if s.position == JAIL {
        3 * JAIL + s.jailroll
    } else {
        3 * JAIL + jail_states(strategy) + 3 * (s.position - JAIL - 1) + s.doubles
    }
}

/// Index of the first state at `position`.
pub open spec fn first_index(strategy: Strategy, position: int) -> int {
    if position <= JAIL {
        3 * position
    } else {
        3 * JAIL + jail_states(strategy) + 3 * (position - JAIL - 1)
    }
}

impl State {
    pub fn new(doubles: u8, position: usize, jailroll: u8) -> (r: State)
        ensures
            r == (State { position, doubles, jailroll }),
    {
        State { position, doubles, jailroll }
    }

    /// The label "[space dN rN]": the space's short description, then the
    /// doubles when there are any, then the jail roll on the jail space.
    pub open spec fn label(self) -> Seq<char> {
        seq!['['] + board(self.position as int).short_text() + (if self.doubles > 0 {
            seq![' ', 'd'] + decimal(self.doubles as nat)
        } else {
            Seq::empty()
        }) + (if self.position == JAIL {
            seq![' ', 'r'] + decimal(self.jailroll as nat)
        } else {
            Seq::empty()
        }) + seq![']']
    }

    /// Renders the state as its label.
    pub fn to_string(&self) -> (r: String)
        requires
            self.position < SPACECOUNT,
            self.position != JAIL ==> self.jailroll == 0,
        ensures
            r@ == self.label(),
    {
        proof {
            reveal_strlit("[");
            reveal_strlit(" d");
            reveal_strlit(" r");
            reveal_strlit("]");
            lemma_board_valid(self.position as int);
        }
        let mut out = String::new();
        out.append("[");
        let desc = space_at(self.position).shortdesc();
        out.append(desc.as_str());
        if self.doubles > 0 {
            out.append(" d");
            push_decimal(&mut out, self.doubles as u64);
        }
        if self.position == JAIL {
            out.append(" r");
            push_decimal(&mut out, self.jailroll as u64);
        }
        out.append("]");
        out
    }

    /// All canonical states, in ascending order; a state's index in the chain
    /// is its place in this list.
    pub fn create_states(strategy: &Strategy) -> (r: Vec<State>)
        ensures
            r@.len() == state_count(*strategy),
            forall|k: int|
                0 <= k < r@.len() ==> canonical(*strategy, #[trigger] r@[k]) && state_index(
                    *strategy,
                    r@[k],
                ) == k,
            forall|s: State|
                canonical(*strategy, s) ==> 0 <= #[trigger] state_index(*strategy, s) < r@.len()
                    && r@[state_index(*strategy, s)] == s,
            forall|i: int, j: int| 0 <= i < j < r@.len() ==> state_lt(r@[i], r@[j]),
    {
        let strategy = *strategy;
        let jail = Space::find(Space::GoToJail);
        assert(board(30) == Space::GoToJail);
        let jailstates: u8 = match strategy {
            Strategy::PayJail => 1,
            Strategy::JailWait => 3,
        };
        let mut states: Vec<State> = Vec::new();
        let mut position: usize = 0;
        while position < SPACECOUNT
            invariant
                jail == JAIL,
                jailstates == jail_states(strategy),
                position <= SPACECOUNT,
                states@.len() == first_index(strategy, position as int),
                forall|k: int|
                    0 <= k < states@.len() ==> canonical(strategy, #[trigger] states@[k])
                        && state_index(strategy, states@[k]) == k && states@[k].position
                        < position,
            decreases SPACECOUNT - position,
        {
            let start = states.len();
            if position == jail {
                let mut jailroll: u8 = 0;
                while jailroll < jailstates
                    invariant
                        position == JAIL,
                        jailstates == jail_states(strategy),
                        jailroll <= jailstates,
                        start == first_index(strategy, position as int),
                        states@.len() == start + jailroll,
                        forall|k: int|
                            0 <= k < states@.len() ==> canonical(strategy, #[trigger] states@[k])
                                && state_index(strategy, states@[k]) == k && states@[k].position
                                <= position,
                    decreases jailstates - jailroll,
                {
                    states.push(State { position, doubles: 0, jailroll });
                    jailroll = jailroll + 1;
                }
            } else {
                let mut doubles: u8 = 0;
                while doubles < 3
                    invariant
                        position != JAIL,
                        position < SPACECOUNT,
                        doubles <= 3,
                        start == first_index(strategy, position as int),
                        states@.len() == start + doubles,
                        forall|k: int|
                            0 <= k < states@.len() ==> canonical(strategy, #[trigger] states@[k])
                                && state_index(strategy, states@[k]) == k && states@[k].position
                                <= position,
                    decreases 3 - doubles,
                {
                    states.push(State { position, doubles, jailroll: 0 });
                    doubles = doubles + 1;
                }
            }
            position = position + 1;
        }
        proof {
            assert forall|s: State| canonical(strategy, s) implies 0 <= #[trigger] state_index(
                strategy,
                s,
            ) < states@.len() && states@[state_index(strategy, s)] == s by {
                let k = state_index(strategy, s);
                let t = states@[k];
                assert(canonical(strategy, t) && state_index(strategy, t) == k);
                lemma_index_injective(strategy, s, t);
            }
            assert forall|i: int, j: int| 0 <= i < j < states@.len() implies state_lt(
                states@[i],
                states@[j],
            ) by {
                lemma_index_order(strategy, states@[i], states@[j]);
            }
        }
        states
    }
}

/// The index of `s` among the canonical states of `strategy`, or `None` when
/// it is not one of them.
pub fn index_of(strategy: Strategy, s: &State) -> (r: Option<usize>)
    ensures
        r == (if canonical(strategy, *s) {
            Some(state_index(strategy, *s) as usize)
        } else {
            None
        }),
{
    let jailstates: u8 = match strategy {
        Strategy::PayJail => 1,
        Strategy::JailWait => 3,
    };
    if s.position >= SPACECOUNT {
        None
    } else if s.position == JAIL {
        if s.doubles == 0 && s.jailroll < jailstates {
            Some(3 * JAIL + s.jailroll as usize)
        } else {
            None
        }
    } else if s.doubles < 3 && s.jailroll == 0 {
        if s.position < JAIL {
            Some(3 * s.position + s.doubles as usize)
        } else {
            Some(3 * JAIL + jailstates as usize + 3 * (s.position - JAIL - 1) + s.doubles as usize)
        }
    } else {
        None
    }
}

/// Distinct canonical states have distinct indices.
pub proof fn lemma_index_injective(strategy: Strategy, s: State, t: State)
    requires
        canonical(strategy, s),
        canonical(strategy, t),
        state_index(strategy, s) == state_index(strategy, t),
    ensures
        s == t,
{
}

/// The index order is the order of states.
pub proof fn lemma_index_order(strategy: Strategy, s: State, t: State)
    requires
        canonical(strategy, s),
        canonical(strategy, t),
        state_index(strategy, s) < state_index(strategy, t),
    ensures
        state_lt(s, t),
{
}

/// There are 118 canonical states when paying to leave jail and 120 when
/// waiting.
pub proof fn lemma_state_counts()
    ensures
        state_count(Strategy::PayJail) == 118,
        state_count(Strategy::JailWait) == 120,
{
}

} // verus!
