use vstd::prelude::*;
use crate::othello::color::Color;
use crate::othello::position::BOARD_SIZE;
use crate::othello::row::Row;
use crate::othello::state::State;

verus! {

/// The number of values that the bits of one row can take.
pub const ROW_SPAN: u128 = 65536;

/// The number of values that the bits of `n` rows can take.
pub open spec fn span(n: nat) -> int
    decreases n,
{
    if n == 0 {
        1
    } else {
        ROW_SPAN * span((n - 1) as nat)
    }
}

/// The rows `rows` as one number, the first row in the highest place.
pub open spec fn rows_key(rows: Seq<Row>) -> int
    decreases rows.len(),
{
    if rows.len() == 0 {
        0
    } else {
        rows_key(rows.drop_last()) * ROW_SPAN + rows.last().code()
    }
}

/// The turn, the pass flag and the number of moves left as one number.
pub open spec fn flags_key(state: State) -> int {
    state.remaining_moves * 4 + if state.next_turn == Color::WHITE {
        2int
    } else {
        0int
    } + if state.prev_player_skipped {
        1int
    } else {
        0int
    }
}

/// The key under which a state is filed: its board and its flags, each as one number.
pub open spec fn key_of(state: State) -> (u128, u16) {
    (rows_key(state.board.rows@) as u128, flags_key(state) as u16)
}

/// The rows as one number stay below the span of their count.
pub proof fn lemma_rows_key_bound(rows: Seq<Row>)
    ensures
        0 <= rows_key(rows) < span(rows.len()),
    decreases rows.len(),
{
    if rows.len() > 0 {
        lemma_rows_key_bound(rows.drop_last());
    }
}

/// Eight rows fit into 128 bits.
pub proof fn lemma_span_eight()
    ensures
        span(8) == 0x1_0000_0000_0000_0000_0000_0000_0000_0000,
{
    reveal_with_fuel(span, 9);
}

/// Two lists of as many rows with the same number are the same list.
pub proof fn lemma_rows_key_ext(a: Seq<Row>, b: Seq<Row>)
    requires
        a.len() == b.len(),
        rows_key(a) == rows_key(b),
    ensures
        a == b,
    decreases a.len(),
{
    if a.len() > 0 {
        lemma_rows_key_bound(a.drop_last());
        lemma_rows_key_bound(b.drop_last());
        lemma_rows_key_ext(a.drop_last(), b.drop_last());
        a.last().lemma_code_ext(b.last());
        assert(a =~= a.drop_last().push(a.last()));
    }
}

/// Two states with the same key are the same state.
pub proof fn lemma_key_ext(s: State, t: State)
    requires
        key_of(s) == key_of(t),
    ensures
        s == t,
{
    lemma_rows_key_bound(s.board.rows@);
    lemma_rows_key_bound(t.board.rows@);
    lemma_span_eight();
    lemma_rows_key_ext(s.board.rows@, t.board.rows@);
    assert(s.board.rows =~= t.board.rows);
}

/// The key under which `state` is filed.
pub fn state_key(state: &State) -> (key: (u128, u16))
    ensures
        key == key_of(*state),
{
    let mut board_key: u128 = 0;
    let mut i: usize = 0;
    let ghost rows = state.board.rows@;
    while i < BOARD_SIZE
        invariant
            i <= BOARD_SIZE,
            rows == state.board.rows@,
            board_key == rows_key(rows.take(i as int)),
        decreases BOARD_SIZE - i,
    {
        proof {
            assert(rows.take(i + 1).drop_last() =~= rows.take(i as int));
            lemma_rows_key_bound(rows.take(i as int));
            lemma_rows_key_bound(rows.take(i + 1));
            lemma_rows_key_bound(rows);
            lemma_span_eight();
            lemma_span_grows(i as nat + 1, 8);
        }
        board_key = board_key * ROW_SPAN + state.board.rows[i].bits() as u128;
        i += 1;
    }
    proof {
        assert(rows.take(BOARD_SIZE as int) =~= rows);
    }
    let turn: u16 = match state.next_turn {
        Color::WHITE => 2,
        Color::BLACK => 0,
    };
    let skipped: u16 = if state.prev_player_skipped {
        1
    } else {
        0
    };
    let flags: u16 = state.remaining_moves as u16 * 4 + turn + skipped;
    (board_key, flags)
}

/// The span of fewer rows is no larger.
pub proof fn lemma_span_grows(m: nat, n: nat)
    requires
        m <= n,
    ensures
        0 < span(m) <= span(n),
    decreases n,
{
    if m < n {
        lemma_span_grows(m, (n - 1) as nat);
    } else if n > 0 {
        lemma_span_grows((m - 1) as nat, (n - 1) as nat);
    }
}

} // verus!
