use vstd::prelude::*;
use crate::othello::color::Color;
use crate::othello::position::Position;

verus! {

/// A move: a disc of `color` placed on `position`.
#[derive(Debug, Clone, Copy, Hash, PartialEq, Eq, Structural)]
pub struct Action {
    pub color: Color,
    pub position: Position,
}

impl Action {
    /// The move that places a disc of `player` on `pos`.
    pub fn new(player: Color, pos: Position) -> (a: Action)
        ensures
            a == (Action { color: player, position: pos }),
    {
        Self { color: player, position: pos }
    }
}

} // verus!
