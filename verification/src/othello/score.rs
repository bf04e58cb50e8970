use vstd::prelude::*;
use crate::othello::board::count_rows;
use crate::othello::color::Color;
use crate::othello::position::BOARD_SIZE;
use crate::othello::state::State;

verus! {

/// The colour with more discs on the board of `state`, if there is one.
pub open spec fn winner(state: State) -> Option<Color> {
    let white = state.board.tally(Some(Color::WHITE));
    let black = state.board.tally(Some(Color::BLACK));
    if white > black {
        Some(Color::WHITE)
    } else if black > white {
        Some(Color::BLACK)
    } else {
        None
    }
}

/// What the board of `end` is worth to `mover`: 1 where `mover` has more
/// discs, -1 where the other colour has more, 0 for a draw.
pub open spec fn outcome(end: State, mover: Color) -> int {
    match winner(end) {
        Some(c) => if c == mover {
            1
        } else {
            -1
        },
        None => 0,
    }
}

/// The score goes by the count of discs: the colour with more discs wins,
/// to its own gain and the other's loss, and equal counts are a draw.
pub proof fn lemma_score_by_count(state: State)
    ensures
        state.board.tally(Some(Color::BLACK)) > state.board.tally(Some(Color::WHITE)) ==> winner(
            state,
        ) == Some(Color::BLACK) && outcome(state, Color::BLACK) == 1 && outcome(
            state,
            Color::WHITE,
        ) == -1,
        state.board.tally(Some(Color::WHITE)) > state.board.tally(Some(Color::BLACK)) ==> winner(
            state,
        ) == Some(Color::WHITE) && outcome(state, Color::WHITE) == 1 && outcome(
            state,
            Color::BLACK,
        ) == -1,
        state.board.tally(Some(Color::WHITE)) == state.board.tally(Some(Color::BLACK)) ==> winner(
            state,
        ) is None && outcome(state, Color::WHITE) == 0 && outcome(state, Color::BLACK) == 0,
{
}

/// The colour with more discs on the board, or `None` for a draw. Whether
/// the game is over is for the caller to know.
pub fn caculate_win(state: State) -> (r: Option<Color>)
    requires
        state.wf(),
    ensures
        r == winner(state),
{
    let mut w_score: isize = 0;
    let mut b_score: isize = 0;
    let mut i: usize = 0;
    let ghost rows = state.board.rows@;
    while i < BOARD_SIZE
        invariant
            i <= BOARD_SIZE,
            state.wf(),
            rows == state.board.rows@,
            w_score == count_rows(rows.take(i as int), Some(Color::WHITE)),
            b_score == count_rows(rows.take(i as int), Some(Color::BLACK)),
            0 <= w_score <= 8 * i,
            0 <= b_score <= 8 * i,
        decreases BOARD_SIZE - i,
    {
        let (w, b) = state.board.rows[i].count_colors();
        proof {
            assert(rows.take(i + 1).drop_last() =~= rows.take(i as int));
        }
        w_score += w;
        b_score += b;
        i += 1;
    }
    proof {
        assert(rows.take(BOARD_SIZE as int) =~= rows);
    }
    let margin = w_score - b_score;
    if margin > 0 {
        Some(Color::WHITE)
    } else if margin < 0 {
        Some(Color::BLACK)
    } else {
        None
    }
}

/// What the board of `end` is worth to `mover`: 1, -1, or 0 for a draw.
pub fn score_for(end: State, mover: Color) -> (r: isize)
    requires
        end.wf(),
    ensures
        r == outcome(end, mover),
{
    match caculate_win(end) {
        Some(c) => if c == mover {
            1
        } else {
            -1
        },
        None => 0,
    }
}

} // verus!
