use vstd::prelude::*;
use crate::othello::board::Board;
use crate::othello::color::Color;
use crate::othello::position::BOARD_SIZE;
use crate::othello::row::Row;
use crate::othello::state::State;

verus! {

broadcast use Row::lemma_len;

/// The marker of a white disc in a record.
pub const WHITE_MARK: i64 = 1;

/// The marker of a black disc in a record.
pub const BLACK_MARK: i64 = 0;

/// The marker of an empty cell in a record.
pub const EMPTY_MARK: i64 = -1;

/// A game state as an outside source reports it: the board as a list of
/// columns, each a list of cell markers, and a flag that is `true` where
/// black moves next. Any part may be missing: `None` stands for a part that
/// is absent or not of the expected kind.
#[derive(Debug, PartialEq, Eq)]
pub struct StateRecord {
    pub board: Option<Vec<Option<Vec<Option<i64>>>>>,
    pub turn: Option<bool>,
}

impl StateRecord {
    /// The marker at place `y` of column `x`, where the record holds one.
    pub open spec fn marker(self, x: int, y: int) -> Option<i64> {
        match self.board {
            Some(columns) => if 0 <= x < columns@.len() {
                match columns@[x] {
                    Some(cells) => if 0 <= y < cells@.len() {
                        cells@[y]
                    } else {
                        None
                    },
                    None => None,
                }
            } else {
                None
            },
            None => None,
        }
    }

    /// The disc that the record reports on column `x` of row `y`. A cell
    /// without a marker, or with an unknown one, is empty.
    pub open spec fn cell(self, x: int, y: int) -> Option<Color> {
        match self.marker(x, y) {
            Some(m) => if m == WHITE_MARK {
                Some(Color::WHITE)
            } else if m == BLACK_MARK {
                Some(Color::BLACK)
            } else {
                None
            },
            None => None,
        }
    }

    /// The player who moves next: black where the flag is `true`, white
    /// where it is `false` or missing.
    pub open spec fn mover(self) -> Color {
        if self.turn == Some(true) {
            Color::BLACK
        } else {
            Color::WHITE
        }
    }

    /// `state` is what the record reports: its cells and its mover, as many
    /// moves left as cells are empty, and no pass before.
    pub open spec fn reports(self, state: State) -> bool {
        &&& state.wf()
        &&& forall|x: int, y: int|
            0 <= x < BOARD_SIZE && 0 <= y < BOARD_SIZE ==> state.board.at(x, y) == self.cell(x, y)
        &&& state.next_turn == self.mover()
        &&& state.remaining_moves == state.board.empty_positions().len()
        &&& !state.prev_player_skipped
    }

    /// The record is the full report of `state`: eight columns of eight
    /// markers, one for each cell, and the flag of the mover.
    pub open spec fn records(self, state: State) -> bool {
        &&& self.board matches Some(columns)
        &&& columns@.len() == BOARD_SIZE
        &&& forall|x: int|
            0 <= x < BOARD_SIZE ==> ((#[trigger] columns@[x]) matches Some(cells) && cells@.len()
                == BOARD_SIZE)
        &&& forall|x: int, y: int|
            0 <= x < BOARD_SIZE && 0 <= y < BOARD_SIZE ==> self.marker(x, y) == Some(
                mark_of(state.board.at(x, y)),
            )
        &&& self.turn == Some(state.next_turn == Color::BLACK)
    }
}

/// The marker that stands for what a cell holds.
pub open spec fn mark_of(cell: Option<Color>) -> i64 {
    match cell {
        Some(Color::WHITE) => WHITE_MARK,
        Some(Color::BLACK) => BLACK_MARK,
        None => EMPTY_MARK,
    }
}

/// A record read back gives the board and the mover that were written.
pub proof fn lemma_round_trip(state: State, record: StateRecord, back: State)
    requires
        state.wf(),
        record.records(state),
        record.reports(back),
    ensures
        back.board == state.board,
        back.next_turn == state.next_turn,
        back.remaining_moves == state.board.empty_positions().len(),
{
    assert forall|x: int, y: int| 0 <= x < BOARD_SIZE && 0 <= y < BOARD_SIZE implies back.board.at(
        x,
        y,
    ) == state.board.at(x, y) by {
        assert(back.board.at(x, y) == record.cell(x, y));
    }
    back.board.lemma_ext(state.board);
}

/// The state that `json` reports. Cells that the record leaves out, and
/// cells with a marker that is none of the three, are empty; columns and
/// cells beyond the eighth are ignored; without a flag white moves next. As
/// many moves are left as cells are empty.
pub fn parse_state(json: StateRecord) -> (s: State)
    ensures
        json.reports(s),
{
    let mut new_board = Board::blank();
    let next = match json.turn {
        Some(true) => Color::BLACK,
        _ => Color::WHITE,
    };
    match &json.board {
        Some(columns) => {
            let mut x: usize = 0;
            while x < columns.len() && x < BOARD_SIZE
                invariant
                    x <= BOARD_SIZE,
                    x <= columns.len(),
                    json.board == Some(*columns),
                    new_board.wf(),
                    forall|cx: int, cy: int|
                        0 <= cx < BOARD_SIZE && 0 <= cy < BOARD_SIZE ==> new_board.at(cx, cy)
                            == if cx < x {
                            json.cell(cx, cy)
                        } else {
                            None
                        },
                decreases BOARD_SIZE - x,
            {
                match &columns[x] {
                    Some(cells) => {
                        let mut y: usize = 0;
                        while y < cells.len() && y < BOARD_SIZE
                            invariant
                                x < BOARD_SIZE,
                                x < columns.len(),
                                y <= BOARD_SIZE,
                                y <= cells.len(),
                                json.board == Some(*columns),
                                columns@[x as int] == Some(*cells),
                                new_board.wf(),
                                forall|cx: int, cy: int|
                                    0 <= cx < BOARD_SIZE && 0 <= cy < BOARD_SIZE ==> new_board.at(
                                        cx,
                                        cy,
                                    ) == if cx < x || (cx == x && cy < y) {
                                        json.cell(cx, cy)
                                    } else {
                                        None
                                    },
                            decreases BOARD_SIZE - y,
                        {
                            let ghost before = new_board;
                            assert(before.at(x as int, y as int) is None);
                            match cells[y] {
                                Some(mark) => {
                                    if mark == WHITE_MARK {
                                        new_board.rows[y] = new_board.rows[y].set_pos(
                                            Color::WHITE,
                                            x,
                                        ).unwrap();
                                    } else if mark == BLACK_MARK {
                                        new_board.rows[y] = new_board.rows[y].set_pos(
                                            Color::BLACK,
                                            x,
                                        ).unwrap();
                                    }
                                },
                                None => {},
                            }
                            proof {
                                assert forall|cx: int, cy: int|
                                    0 <= cx < BOARD_SIZE && 0 <= cy < BOARD_SIZE implies new_board.at(
                                    cx,
                                    cy,
                                ) == if cx < x || (cx == x && cy < y + 1) {
                                    json.cell(cx, cy)
                                } else {
                                    None
                                } by {
                                    assert(before.at(cx, cy) == if cx < x || (cx == x && cy < y) {
                                        json.cell(cx, cy)
                                    } else {
                                        None
                                    });
                                }
                            }
                            y += 1;
                        }
                    },
                    None => {},
                }
                x += 1;
            }
        },
        None => {},
    }
    let empty_spots = new_board.get_empty_positions();
    State {
        board: new_board,
        next_turn: next,
        remaining_moves: empty_spots.len() as u8,
        prev_player_skipped: false,
    }
}

/// The full record of `state`, which `parse_state` reads back.
pub fn to_record(state: &State) -> (record: StateRecord)
    ensures
        record.records(*state),
{
    let mut columns: Vec<Option<Vec<Option<i64>>>> = Vec::new();
    let mut x: usize = 0;
    while x < BOARD_SIZE
        invariant
            x <= BOARD_SIZE,
            columns@.len() == x,
            forall|cx: int|
                0 <= cx < x ==> ((#[trigger] columns@[cx]) matches Some(cells) && cells@.len()
                    == BOARD_SIZE && forall|cy: int|
                    0 <= cy < BOARD_SIZE ==> cells@[cy] == Some(mark_of(state.board.at(cx, cy)))),
        decreases BOARD_SIZE - x,
    {
        let mut cells: Vec<Option<i64>> = Vec::new();
        let mut y: usize = 0;
        while y < BOARD_SIZE
            invariant
                x < BOARD_SIZE,
                y <= BOARD_SIZE,
                cells@.len() == y,
                forall|cy: int|
                    0 <= cy < y ==> cells@[cy] == Some(mark_of(state.board.at(x as int, cy))),
            decreases BOARD_SIZE - y,
        {
            let mark = match state.board.rows[y].get_pos(x) {
                Some(Color::WHITE) => WHITE_MARK,
                Some(Color::BLACK) => BLACK_MARK,
                None => EMPTY_MARK,
            };
            cells.push(Some(mark));
            y += 1;
        }
        columns.push(Some(cells));
        x += 1;
    }
    let black_next = match state.next_turn {
        Color::BLACK => true,
        Color::WHITE => false,
    };
    StateRecord { board: Some(columns), turn: Some(black_next) }
}

} // verus!
