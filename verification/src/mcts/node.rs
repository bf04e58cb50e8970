use vstd::prelude::*;
use crate::othello::action::Action;
use crate::othello::color::Color;
use crate::othello::state::State;

verus! {

/// One node of the search tree: a state, the move that led to it (`None`
/// for a pass and for a root), the legal moves not yet tried from it, and
/// the statistics of the playouts that ran through it.
#[derive(Debug, Clone)]
pub struct Node {
    pub state: State,
    pub action: Option<Action>,
    pub untried_actions: Vec<Action>,
    pub visits: usize,
    pub score: isize,
}

/// What a playout result `amount`, counted for `color`, adds to the score of
/// a node in which `mover` moves: the amount itself where the colours are
/// the same, its negative where they differ.
pub open spec fn signed(color: Color, amount: int, mover: Color) -> int {
    if color == mover {
        amount
    } else {
        -amount
    }
}

impl Node {
    /// A node without any visit.
    pub fn new(state: State, action: Option<Action>, untried_actions: Vec<Action>) -> (node: Node)
        ensures
            node.state == state,
            node.action == action,
            node.untried_actions == untried_actions,
            node.visits == 0,
            node.score == 0,
    {
        Node { state, action, untried_actions, visits: 0, score: 0 }
    }

    /// Counts one more visit, and adds the playout result `result.1` to the
    /// score: as it is where `result.0` is the colour that moves in this
    /// node, negated where it is the other colour.
    pub fn update_node(&mut self, result: (Color, isize))
        requires
            old(self).visits < usize::MAX,
            isize::MIN <= old(self).score + signed(
                result.0,
                result.1 as int,
                old(self).state.next_turn,
            ) <= isize::MAX,
        ensures
            final(self).visits == old(self).visits + 1,
            final(self).score == old(self).score + signed(
                result.0,
                result.1 as int,
                old(self).state.next_turn,
            ),
            final(self).state == old(self).state,
            final(self).action == old(self).action,
            final(self).untried_actions == old(self).untried_actions,
    {
        self.visits += 1;
        if result.0 == self.state.next_turn {
            self.score += result.1;
        } else {
            self.score -= result.1
        }
    }
}

} // verus!
