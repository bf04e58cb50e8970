use vstd::prelude::*;
use crate::othello::action::Action;
use crate::othello::score::{outcome, score_for};
use crate::othello::state::State;
use crate::random::random_index;

verus! {

/// A playout stops after this many plies even where the game is not over.
pub const MAX_PLAYOUT_PLIES: usize = 100;

/// `next` may follow `s` in a playout: a legal move was made, or the player
/// passed because there was none.
pub open spec fn playout_step(s: State, next: State) -> bool {
    if s.legal_moves().len() == 0 {
        next == s.passed()
    } else {
        exists|a: Action| s.is_legal(a) && #[trigger] s.moved(a, next)
    }
}

/// `states` is the course of a playout: every state but the first follows
/// the one before it, and play goes on only while the game is not over.
pub open spec fn is_playout(states: Seq<State>) -> bool {
    &&& states.len() >= 1
    &&& forall|i: int|
        0 <= i < states.len() - 1 ==> !(#[trigger] states[i]).is_over() && playout_step(
            states[i],
            states[i + 1],
        )
}

/// `r` is what some playout from `start` is worth to the player who moves
/// in `start`: the playout runs until the game is over or
/// `MAX_PLAYOUT_PLIES` plies are played.
pub open spec fn playout_result(start: State, r: int) -> bool {
    exists|states: Seq<State>|
        {
            &&& #[trigger] is_playout(states)
            &&& states[0] == start
            &&& (states.last().is_over() || states.len() == MAX_PLAYOUT_PLIES + 1)
            &&& r == outcome(states.last(), start.next_turn)
        }
}

/// The state after one ply of a playout: the move `actions[pick]`, or a pass
/// where `actions`, the legal moves of `state`, is empty.
pub fn play_choice(state: &State, actions: &Vec<Action>, pick: usize) -> (next: State)
    requires
        state.wf(),
        !state.is_over(),
        actions@ == state.legal_moves(),
        actions.len() > 0 ==> pick < actions.len(),
    ensures
        next.wf(),
        state.applies(
            if actions.len() == 0 {
                None
            } else {
                Some(actions[pick as int])
            },
            next,
        ),
        playout_step(*state, next),
{
    if actions.len() == 0 {
        state.do_action(None)
    } else {
        state.do_action(Some(actions[pick]))
    }
}

/// Plays the game on from `state` with moves drawn at random, the players
/// passing where they have no move, until it is over or
/// `MAX_PLAYOUT_PLIES` plies are played. Returns what the final board is
/// worth to the player who moves in `state`: 1 for more discs, -1 for
/// fewer, 0 for a draw.
pub fn simulate_game(state: &State) -> (r: isize)
    requires
        state.wf(),
    ensures
        playout_result(*state, r as int),
        -1 <= r <= 1,
{
    let mut test_state = *state;
    let mut iterations: usize = 0;
    let ghost mut trace: Seq<State> = seq![*state];
    while test_state.remaining_moves > 0 && iterations < MAX_PLAYOUT_PLIES
        invariant
            test_state.wf(),
            iterations <= MAX_PLAYOUT_PLIES,
            trace.len() == iterations + 1,
            trace[0] == *state,
            trace.last() == test_state,
            is_playout(trace),
        decreases MAX_PLAYOUT_PLIES - iterations,
    {
        iterations += 1;
        let test_actions = test_state.get_actions();
        let pick = if test_actions.len() == 0 {
            0
        } else {
            random_index(test_actions.len())
        };
        let next = play_choice(&test_state, &test_actions, pick);
        proof {
            trace = trace.push(next);
        }
        test_state = next;
    }
    score_for(test_state, state.next_turn)
}

} // verus!
