//! The rules of Othello: colours, positions, the board, game states and moves.

pub mod action;
pub mod board;
pub mod color;
pub mod playout;
pub mod position;
pub mod record;
pub mod render;
pub mod row;
pub mod score;
pub mod state;

pub use self::action::Action;
pub use self::board::Board;
pub use self::color::Color;
pub use self::playout::{play_choice, simulate_game, MAX_PLAYOUT_PLIES};
pub use self::position::{Direction, Position, BOARD_SIZE};
pub use self::record::{parse_state, to_record, StateRecord, BLACK_MARK, EMPTY_MARK, WHITE_MARK};
pub use self::render::render_state;
pub use self::row::{EmptyFieldError, OccupiedFieldError, Row, FIELD_SIZE};
pub use self::score::{caculate_win, score_for};
pub use self::state::{State, INITIAL_MOVES};
