//! Monte Carlo tree search over the states of the game.

pub mod key;
pub mod node;
pub mod pick;
pub mod tree;

pub use self::node::Node;
pub use self::tree::MCTS;
