//! An Othello engine: the rules of the game on a packed 8x8 board, and a
//! Monte Carlo tree search that picks moves under a fixed playout budget.

pub mod mcts;
pub mod othello;
mod random;
