use vstd::prelude::*;
use vstd::string::StringExecFns;
use crate::othello::board::Board;
use crate::othello::color::Color;
use crate::othello::position::BOARD_SIZE;
use crate::othello::state::State;

verus! {

/// The text of one cell: a bar and the mark of what the cell holds.
pub open spec fn cell_text(cell: Option<Color>) -> Seq<char> {
    match cell {
        Some(Color::BLACK) => "|B"@,
        Some(Color::WHITE) => "|W"@,
        None => "|_"@,
    }
}

/// The text in front of row `y`: its number and a blank.
pub open spec fn label_text(y: int) -> Seq<char> {
    if y == 0 {
        "0 "@
    } else if y == 1 {
        "1 "@
    } else if y == 2 {
        "2 "@
    } else if y == 3 {
        "3 "@
    } else if y == 4 {
        "4 "@
    } else if y == 5 {
        "5 "@
    } else if y == 6 {
        "6 "@
    } else {
        "7 "@
    }
}

/// The text of the first `n` cells of row `y`.
pub open spec fn cells_text(board: Board, y: int, n: nat) -> Seq<char>
    decreases n,
{
    if n == 0 {
        Seq::empty()
    } else {
        cells_text(board, y, (n - 1) as nat) + cell_text(board.at(n - 1, y))
    }
}

/// The line of row `y`: its label, its eight cells, a closing bar.
pub open spec fn row_text(board: Board, y: int) -> Seq<char> {
    label_text(y) + cells_text(board, y, BOARD_SIZE as nat) + "|\n"@
}

/// The lines of the first `n` rows.
pub open spec fn rows_text(board: Board, n: nat) -> Seq<char>
    decreases n,
{
    if n == 0 {
        Seq::empty()
    } else {
        rows_text(board, (n - 1) as nat) + row_text(board, n - 1)
    }
}

/// The line that names the player to move.
pub open spec fn turn_text(color: Color) -> Seq<char> {
    match color {
        Color::BLACK => "Next: Black\n"@,
        Color::WHITE => "Next: White\n"@,
    }
}

/// The text of a state: a line of column numbers, the eight rows from the
/// top, and the player to move.
pub open spec fn state_text(state: State) -> Seq<char> {
    "   0 1 2 3 4 5 6 7\n"@ + rows_text(state.board, BOARD_SIZE as nat) + turn_text(
        state.next_turn,
    )
}

/// The text of `state`, for a console or a log.
pub fn render_state(state: &State) -> (text: String)
    ensures
        text@ == state_text(*state),
{
    let mut text = String::from_str("   0 1 2 3 4 5 6 7\n");
    let ghost head = "   0 1 2 3 4 5 6 7\n"@;
    let mut y: usize = 0;
    while y < BOARD_SIZE
        invariant
            y <= BOARD_SIZE,
            head == "   0 1 2 3 4 5 6 7\n"@,
            text@ == head + rows_text(state.board, y as nat),
        decreases BOARD_SIZE - y,
    {
        let label = match y {
            0 => "0 ",
            1 => "1 ",
            2 => "2 ",
            3 => "3 ",
            4 => "4 ",
            5 => "5 ",
            6 => "6 ",
            _ => "7 ",
        };
        text.append(label);
        let ghost done = rows_text(state.board, y as nat);
        let row = state.board.rows[y];
        let mut x: usize = 0;
        while x < BOARD_SIZE
            invariant
                x <= BOARD_SIZE,
                y < BOARD_SIZE,
                row == state.board.rows@[y as int],
                text@ == head + done + label_text(y as int) + cells_text(
                    state.board,
                    y as int,
                    x as nat,
                ),
            decreases BOARD_SIZE - x,
        {
            let mark = match row.get_pos(x) {
                Some(Color::BLACK) => "|B",
                Some(Color::WHITE) => "|W",
                None => "|_",
            };
            text.append(mark);
            proof {
                let cells = cells_text(state.board, y as int, x as nat);
            }
            x += 1;
        }
        text.append("|\n");
        proof {
            let cells = cells_text(state.board, y as int, BOARD_SIZE as nat);
        }
        y += 1;
    }
    let turn = match state.next_turn {
        Color::BLACK => "Next: Black\n",
        Color::WHITE => "Next: White\n",
    };
    text.append(turn);
    text
}

} // verus!
