use vstd::prelude::*;
use crate::othello::action::Action;
use crate::othello::board::{on_ray, ray, Board};
use crate::othello::color::Color;
use crate::othello::position::{Direction, Position, BOARD_SIZE};
use crate::othello::row::Row;

verus! {

broadcast use Row::lemma_len;

/// The number of moves left in a new game: every cell but the four centre ones.
pub const INITIAL_MOVES: u8 = 60;

/// A position of the game: the board, who moves next, how many moves are
/// left, and whether the player who moved last had to pass.
#[derive(Debug, Clone, Copy, Hash, PartialEq, Eq)]
pub struct State {
    pub board: Board,
    pub next_turn: Color,
    pub remaining_moves: u8,
    pub prev_player_skipped: bool,
}

/// One of the first `i` directions captures the disc on column `x` of row `y`.
spec fn captured_before(board: Board, color: Color, pos: Position, i: int, x: int, y: int) -> bool {
    exists|d: Direction| d.index() < i && board.on_run(color, pos, d, x, y)
}

/// One of the first `i` directions captures at least one disc.
spec fn flips_before(board: Board, color: Color, pos: Position, i: int) -> bool {
    exists|d: Direction| d.index() < i && board.would_flip(color, pos, d)
}

/// Filtering by `p` and then by `q` keeps what filtering by both at once keeps.
proof fn lemma_filter_twice(
    s: Seq<Position>,
    p: spec_fn(Position) -> bool,
    q: spec_fn(Position) -> bool,
    both: spec_fn(Position) -> bool,
)
    requires
        forall|i: int| 0 <= i < s.len() ==> both(#[trigger] s[i]) == (p(s[i]) && q(s[i])),
    ensures
        s.filter(p).filter(q) == s.filter(both),
    decreases s.len(),
{
    reveal(Seq::filter);
    if s.len() > 0 {
        let init = s.drop_last();
        lemma_filter_twice(init, p, q, both);
        init.filter(p).lemma_filter_push(s.last(), q);
    }
}

/// Filtering a sequence without duplicates leaves none.
proof fn lemma_filter_distinct(s: Seq<Position>, p: spec_fn(Position) -> bool)
    requires
        s.no_duplicates(),
    ensures
        s.filter(p).no_duplicates(),
    decreases s.len(),
{
    reveal(Seq::filter);
    if s.len() > 0 {
        let init = s.drop_last();
        lemma_filter_distinct(init, p);
        if init.filter(p).contains(s.last()) {
            init.lemma_filter_contains_rev(p, s.last());
        }
    }
}

/// What the directions up to `dir` capture is what those before it capture
/// and what `dir` captures.
proof fn lemma_captured_next(
    board: Board,
    color: Color,
    pos: Position,
    dir: Direction,
    x: int,
    y: int,
)
    ensures
        captured_before(board, color, pos, dir.index() + 1, x, y) == (captured_before(
            board,
            color,
            pos,
            dir.index(),
            x,
            y,
        ) || board.on_run(color, pos, dir, x, y)),
{
    let i = dir.index();
    if captured_before(board, color, pos, i + 1, x, y) {
        let d = choose|d: Direction| d.index() < i + 1 && board.on_run(color, pos, d, x, y);
        assert(d.index() < i || d == dir);
    }
    if captured_before(board, color, pos, i, x, y) {
        let d = choose|d: Direction| d.index() < i && board.on_run(color, pos, d, x, y);
        assert(d.index() < i + 1);
    }
}

/// One of the directions up to `dir` captures where one of those before it
/// does, or `dir` itself.
proof fn lemma_flips_next(board: Board, color: Color, pos: Position, dir: Direction)
    ensures
        flips_before(board, color, pos, dir.index() + 1) == (flips_before(
            board,
            color,
            pos,
            dir.index(),
        ) || board.would_flip(color, pos, dir)),
{
    let i = dir.index();
    if flips_before(board, color, pos, i + 1) {
        let d = choose|d: Direction| d.index() < i + 1 && board.would_flip(color, pos, d);
        assert(d.index() < i || d == dir);
    }
    if flips_before(board, color, pos, i) {
        let d = choose|d: Direction| d.index() < i && board.would_flip(color, pos, d);
        assert(d.index() < i + 1);
    }
}

/// The step of turning over in one more direction. `before` is the board
/// `orig` with the new disc and what the directions before `dir` capture
/// turned over; `after` is `before` with what `dir` captures in it turned
/// over. Then `dir` captures in `before` what it captures in `orig`, and
/// `after` is `orig` with what the directions up to `dir` capture.
proof fn lemma_next_direction(
    orig: Board,
    before: Board,
    after: Board,
    color: Color,
    pos: Position,
    dir: Direction,
)
    requires
        forall|x: int, y: int|
            #[trigger] before.at(x, y) == if (x == pos.x && y == pos.y) || captured_before(
                orig,
                color,
                pos,
                dir.index(),
                x,
                y,
            ) {
                Some(color)
            } else {
                orig.at(x, y)
            },
        forall|x: int, y: int|
            #[trigger] after.at(x, y) == if before.on_run(color, pos, dir, x, y) {
                Some(color)
            } else {
                before.at(x, y)
            },
    ensures
        before.would_flip(color, pos, dir) == orig.would_flip(color, pos, dir),
        flips_before(orig, color, pos, dir.index() + 1) == (flips_before(
            orig,
            color,
            pos,
            dir.index(),
        ) || orig.would_flip(color, pos, dir)),
        forall|x: int, y: int|
            #[trigger] after.at(x, y) == if (x == pos.x && y == pos.y) || captured_before(
                orig,
                color,
                pos,
                dir.index() + 1,
                x,
                y,
            ) {
                Some(color)
            } else {
                orig.at(x, y)
            },
{
    let i = dir.index();
    // The cells that lie from `pos` in `dir` are as they were: no other
    // direction leads to them.
    assert forall|k: int| 1 <= k implies #[trigger] before.ahead(pos, dir, k) == orig.ahead(
        pos,
        dir,
        k,
    ) by {
        let (x, y) = ray(pos, dir, k);
        if captured_before(orig, color, pos, i, x, y) {
            let d = choose|d: Direction| d.index() < i && orig.on_run(color, pos, d, x, y);
            assert(on_ray(pos, d, orig.run(color, pos, d), x, y));
            assert(d == dir);
        }
    }
    before.lemma_same_run(orig, color, pos, dir);
    lemma_flips_next(orig, color, pos, dir);
    assert forall|x: int, y: int|
        #[trigger] after.at(x, y) == if (x == pos.x && y == pos.y) || captured_before(
            orig,
            color,
            pos,
            i + 1,
            x,
            y,
        ) {
            Some(color)
        } else {
            orig.at(x, y)
        } by {
        lemma_captured_next(orig, color, pos, dir, x, y);
    }
}

impl State {
    /// The board is well formed.
    pub open spec fn wf(self) -> bool {
        self.board.wf()
    }

    /// The game is over: no move is left.
    pub open spec fn is_over(self) -> bool {
        self.remaining_moves == 0
    }

    /// The player to move may make the move `a`.
    pub open spec fn is_legal(self, a: Action) -> bool {
        a.color == self.next_turn && self.board.legal_at(a.color, a.position)
    }

    /// The test for a cell on which the player to move may place a disc.
    pub open spec fn legal_here(self) -> spec_fn(Position) -> bool {
        |p: Position| self.board.legal_at(self.next_turn, p)
    }

    /// The test for a cell from which a disc of the player to move captures.
    pub open spec fn captures_from(self) -> spec_fn(Position) -> bool {
        |p: Position| self.board.flips_any(self.next_turn, p)
    }

    /// The move of the player to move on a given cell.
    pub open spec fn move_to(self) -> spec_fn(Position) -> Action {
        |p: Position| Action { color: self.next_turn, position: p }
    }

    /// The moves that the player to move may make, row by row.
    pub open spec fn legal_moves(self) -> Seq<Action> {
        Board::all_positions().filter(self.legal_here()).map_values(self.move_to())
    }

    /// The state after the player to move has passed: the board stays, the
    /// turn changes, and a second pass in a row ends the game.
    pub open spec fn passed(self) -> State {
        State {
            board: self.board,
            next_turn: self.next_turn.opposite(),
            remaining_moves: if self.prev_player_skipped {
                0
            } else {
                self.remaining_moves
            },
            prev_player_skipped: true,
        }
    }

    /// `next` is the state after the move `a`: the disc is placed, the discs
    /// it captures are turned over in every direction, one move less is
    /// left, and the turn changes.
    pub open spec fn moved(self, a: Action, next: State) -> bool {
        &&& next.wf()
        &&& forall|x: int, y: int|
            next.board.at(x, y) == self.board.placed_cell(a.color, a.position, x, y)
        &&& next.next_turn == self.next_turn.opposite()
        &&& next.remaining_moves == self.remaining_moves - 1
        &&& !next.prev_player_skipped
    }

    /// `next` is the state after `action`, a move or a pass.
    pub open spec fn applies(self, action: Option<Action>, next: State) -> bool {
        match action {
            Some(a) => self.moved(a, next),
            None => next == self.passed(),
        }
    }

    /// The state after an action is settled by the state before and the
    /// action: no two states follow.
    pub proof fn lemma_applies_once(self, action: Option<Action>, one: State, other: State)
        requires
            self.applies(action, one),
            self.applies(action, other),
        ensures
            one == other,
    {
        if action is Some {
            one.board.lemma_ext(other.board);
        }
    }

    /// A legal move spends exactly one of the moves that are left, and
    /// hands the turn to the other player.
    pub proof fn lemma_move_spends_one(self, a: Action, next: State)
        requires
            self.is_legal(a),
            !self.is_over(),
            self.applies(Some(a), next),
        ensures
            next.remaining_moves == self.remaining_moves - 1,
            next.remaining_moves < self.remaining_moves,
            next.next_turn == self.next_turn.opposite(),
            next.next_turn != self.next_turn,
            !next.prev_player_skipped,
    {
    }

    /// A pass leaves every disc where it is, so that each colour keeps its
    /// count; it hands the turn to the other player, and leaves no more
    /// moves than there were.
    pub proof fn lemma_pass_keeps_discs(self, next: State)
        requires
            self.applies(None, next),
        ensures
            next.board == self.board,
            forall|what: Option<Color>| next.board.tally(what) == self.board.tally(what),
            next.next_turn == self.next_turn.opposite(),
            next.next_turn != self.next_turn,
            next.remaining_moves <= self.remaining_moves,
            next.prev_player_skipped,
    {
    }

    /// Two passes in a row end the game, whatever number of moves was left.
    pub proof fn lemma_two_passes_end(self, once: State, twice: State)
        requires
            self.applies(None, once),
            once.applies(None, twice),
        ensures
            twice.remaining_moves == 0,
            twice.is_over(),
    {
    }

    /// One pass alone does not end a game that was not over.
    pub proof fn lemma_one_pass_goes_on(self, next: State)
        requires
            !self.prev_player_skipped,
            self.applies(None, next),
        ensures
            next.remaining_moves == self.remaining_moves,
    {
    }

    /// In the starting position black may place a disc left of the upper
    /// white one: the position has a legal move.
    pub proof fn lemma_opening_move(self)
        requires
            forall|x: int, y: int| #[trigger] self.board.at(x, y) == Board::initial_cell(x, y),
            self.next_turn == Color::BLACK,
        ensures
            self.is_legal(Action { color: Color::BLACK, position: Position { x: 2, y: 3 } }),
            self.legal_moves().len() > 0,
    {
        let pos = Position { x: 2, y: 3 };
        let a = Action { color: Color::BLACK, position: pos };
        assert(self.board.captures(Color::BLACK, pos, Direction::Right, 1));
        assert(self.board.would_flip(Color::BLACK, pos, Direction::Right));
        assert(self.is_legal(a));
        self.lemma_legal_moves();
    }

    /// The starting position: black to move, sixty moves left.
    pub fn new() -> (s: State)
        ensures
            s.wf(),
            forall|x: int, y: int| #[trigger] s.board.at(x, y) == Board::initial_cell(x, y),
            s.next_turn == Color::BLACK,
            s.remaining_moves == INITIAL_MOVES,
            !s.prev_player_skipped,
    {
        Self {
            board: Board::new(),
            next_turn: Color::BLACK,
            remaining_moves: INITIAL_MOVES,
            prev_player_skipped: false,
        }
    }

    /// The moves of `legal_moves()` are the legal moves, each of them once.
    pub proof fn lemma_legal_moves(self)
        ensures
            forall|i: int|
                0 <= i < self.legal_moves().len() ==> self.is_legal(
                    #[trigger] self.legal_moves()[i],
                ),
            forall|a: Action| #[trigger] self.is_legal(a) ==> self.legal_moves().contains(a),
            self.legal_moves().no_duplicates(),
            self.legal_moves().len() <= BOARD_SIZE * BOARD_SIZE,
    {
        let all = Board::all_positions();
        let legal = self.legal_here();
        let kept = all.filter(legal);
        broadcast use Seq::lemma_filter_pred;
        assert forall|a: Action| #[trigger] self.is_legal(a) implies self.legal_moves().contains(
            a,
        ) by {
            let p = a.position;
            let n = p.y * 8 + p.x;
            all.lemma_filter_contains(legal, n as int);
            let k = kept.index_of(p);
            assert(self.legal_moves()[k] == a);
        }
        lemma_filter_distinct(all, legal);
    }

    /// The moves that the player to move may make, row by row; none where
    /// the player has to pass.
    pub fn get_actions(&self) -> (actions: Vec<Action>)
        ensures
            actions@ == self.legal_moves(),
    {
        let empty_spots = self.board.get_empty_positions();
        let mut actions: Vec<Action> = Vec::new();
        let ghost all = Board::all_positions();
        let ghost empty = self.board.is_empty_at();
        let ghost valid = self.captures_from();
        let ghost legal = self.legal_here();
        let ghost make = self.move_to();
        proof {
            reveal(Seq::filter);
        }
        if empty_spots.len() == 0 {
            proof {
                lemma_filter_twice(all, empty, valid, legal);
            }
            return actions;
        }
        let mut i: usize = 0;
        while i < empty_spots.len()
            invariant
                i <= empty_spots.len(),
                valid == self.captures_from(),
                make == self.move_to(),
                actions@ == empty_spots@.take(i as int).filter(valid).map_values(make),
            decreases empty_spots.len() - i,
        {
            let pos = empty_spots[i];
            let action = Action::new(self.next_turn, pos);
            let ghost seen = empty_spots@.take(i as int);
            proof {
                assert(empty_spots@.take(i + 1) =~= seen.push(pos));
                seen.lemma_filter_push(pos, valid);
            }
            if self.is_valid_action(action) {
                actions.push(action);
            }
            i += 1;
        }
        proof {
            assert(empty_spots@.take(empty_spots.len() as int) =~= empty_spots@);
            lemma_filter_twice(all, empty, valid, legal);
        }
        actions
    }

    /// Whether the disc of `action` captures in at least one direction.
    pub fn is_valid_action(&self, action: Action) -> (r: bool)
        ensures
            r == self.board.flips_any(action.color, action.position),
    {
        let dirs = Direction::values();
        let mut i: usize = 0;
        while i < 8
            invariant
                i <= 8,
                dirs@ == Direction::all(),
                !flips_before(self.board, action.color, action.position, i as int),
            decreases 8 - i,
        {
            let dir = dirs[i];
            if self.board.would_flip_pieces(action, action.position, dir) {
                return true;
            }
            i += 1;
        }
        false
    }

    /// Places the disc of `action` and turns over what it captures in every
    /// direction. Where the cell is taken or nothing is captured, the state
    /// is left as it is and `false` is returned.
    pub fn flip_directions(&mut self, action: Action) -> (any_flipped: bool)
        requires
            old(self).wf(),
            action.position.wf(),
        ensures
            any_flipped == old(self).board.legal_at(action.color, action.position),
            any_flipped ==> final(self).board.wf() && forall|x: int, y: int|
                final(self).board.at(x, y) == old(self).board.placed_cell(
                    action.color,
                    action.position,
                    x,
                    y,
                ),
            !any_flipped ==> final(self).board == old(self).board,
            final(self).next_turn == old(self).next_turn,
            final(self).remaining_moves == old(self).remaining_moves,
            final(self).prev_player_skipped == old(self).prev_player_skipped,
    {
        let mut any_flipped = false;
        let mut new_board = self.board;
        let ghost orig = self.board;
        let ghost color = action.color;
        let pos = action.position;

        // Set the piece at the action position
        match new_board.rows[pos.y].set_pos(action.color, pos.x) {
            Ok(row) => {
                new_board.rows[pos.y] = row;
            },
            Err(_) => {
                return false;
            },
        }
        // Check each direction for pieces to flip
        let dirs = Direction::values();
        let mut i: usize = 0;
        while i < 8
            invariant
                i <= 8,
                dirs@ == Direction::all(),
                pos == action.position,
                color == action.color,
                pos.wf(),
                orig.wf(),
                new_board.wf(),
                orig.at(pos.x as int, pos.y as int) is None,
                any_flipped == flips_before(orig, color, pos, i as int),
                forall|x: int, y: int|
                    #[trigger] new_board.at(x, y) == if (x == pos.x && y == pos.y)
                        || captured_before(orig, color, pos, i as int, x, y) {
                        Some(color)
                    } else {
                        orig.at(x, y)
                    },
            decreases 8 - i,
        {
            let dir = dirs[i];
            let ghost before = new_board;
            let ghost was_flipped = any_flipped;
            if let Some(updated_board) = new_board.flip_pieces(action, action.position, dir) {
                new_board = updated_board;
                any_flipped = true;
            }
            proof {
                lemma_next_direction(orig, before, new_board, color, pos, dir);
                assert(any_flipped == (was_flipped || orig.would_flip(color, pos, dir)));
            }
            i += 1;
        }
        if any_flipped {
            self.board = new_board;
        }
        any_flipped
    }

    /// The state after `action`: a move of the player to move, or a pass.
    pub fn do_action(&self, action: Option<Action>) -> (next: State)
        requires
            self.wf(),
            action matches Some(a) ==> self.is_legal(a) && self.remaining_moves > 0,
        ensures
            self.applies(action, next),
            next.wf(),
    {
        let mut new_state = *self;
        match action {
            Some(act) => {
                let flipped = new_state.flip_directions(act);
                new_state.remaining_moves = new_state.remaining_moves - 1;
                new_state.prev_player_skipped = false;
            },
            None => {
                new_state.prev_player_skipped = true;
            },
        }
        // If both players had to skip end the game
        if new_state.prev_player_skipped && self.prev_player_skipped {
            new_state.remaining_moves = 0;
        }
        new_state.next_turn =
        match self.next_turn {
            Color::BLACK => Color::WHITE,
            Color::WHITE => Color::BLACK,
        };
        new_state
    }
}

} // verus!
