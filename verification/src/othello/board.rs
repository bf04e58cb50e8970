use vstd::prelude::*;
use crate::othello::action::Action;
use crate::othello::color::Color;
use crate::othello::position::{Direction, Position, BOARD_SIZE};
use crate::othello::row::{count_cells, Row, FIELD_SIZE};

verus! {

broadcast use Row::lemma_len;

/// How many cells of the rows `rows` hold `what`.
pub open spec fn count_rows(rows: Seq<Row>, what: Option<Color>) -> nat
    decreases rows.len(),
{
    if rows.len() == 0 {
        0
    } else {
        count_rows(rows.drop_last(), what) + rows.last().tally(what)
    }
}

/// Of the cells `cells` each is empty, black or white.
proof fn lemma_cells_add_up(cells: Seq<Option<Color>>)
    ensures
        count_cells(cells, None) + count_cells(cells, Some(Color::BLACK)) + count_cells(
            cells,
            Some(Color::WHITE),
        ) == cells.len(),
    decreases cells.len(),
{
    if cells.len() > 0 {
        lemma_cells_add_up(cells.drop_last());
        match cells.last() {
            Some(Color::BLACK) => {},
            Some(Color::WHITE) => {},
            None => {},
        }
    }
}

/// Of the cells of the rows `rows` each is empty, black or white.
proof fn lemma_rows_add_up(rows: Seq<Row>)
    ensures
        count_rows(rows, None) + count_rows(rows, Some(Color::BLACK)) + count_rows(
            rows,
            Some(Color::WHITE),
        ) == BOARD_SIZE * rows.len(),
    decreases rows.len(),
{
    if rows.len() > 0 {
        lemma_rows_add_up(rows.drop_last());
        lemma_cells_add_up(rows.last()@);
    }
}

/// The offset reached after `i` steps along an axis on which one step is `d`.
pub open spec fn stride(d: int, i: int) -> int {
    if d < 0 {
        -i
    } else if d > 0 {
        i
    } else {
        0
    }
}

/// The column and row reached from `pos` after `i` steps in `dir`.
pub open spec fn ray(pos: Position, dir: Direction, i: int) -> (int, int) {
    (pos.x + stride(dir.dx(), i), pos.y + stride(dir.dy(), i))
}

/// The number of steps from `pos` to the cell on column `x` of row `y`, along
/// the axis on which they lie further apart.
pub open spec fn distance(pos: Position, x: int, y: int) -> int {
    let across = if x >= pos.x { x - pos.x } else { pos.x - x };
    let down = if y >= pos.y { y - pos.y } else { pos.y - y };
    if across >= down {
        across
    } else {
        down
    }
}

/// The cell on column `x` of row `y` is one of the first `n` cells that lie
/// from `pos` in `dir`.
pub open spec fn on_ray(pos: Position, dir: Direction, n: int, x: int, y: int) -> bool {
    let i = distance(pos, x, y);
    1 <= i <= n && ray(pos, dir, i) == (x, y)
}

/// A cell is one of the first `n` cells from `pos` in `dir` where it lies
/// some `i` steps from `pos` in `dir`, for an `i` from 1 to `n`.
pub proof fn lemma_on_ray(pos: Position, dir: Direction, n: int, x: int, y: int)
    ensures
        on_ray(pos, dir, n, x, y) <==> exists|i: int|
            1 <= i <= n && #[trigger] ray(pos, dir, i) == (x, y),
{
}

/// The eight rows of the board, the first row on top.
#[derive(Debug, Clone, Copy, Hash, PartialEq, Eq)]
pub struct Board {
    pub rows: [Row; BOARD_SIZE],
}

/// The cells of a row without bits are empty.
proof fn lemma_blank_bits(j: u16)
    by (bit_vector)
    requires
        j < 8,
    ensures
        (0u16 >> (2 * j)) & 3 == 0,
        0u16 & (0u16 >> 1) & 0x5555 == 0,
{
}

/// The cells of the two centre rows of the starting position.
proof fn lemma_centre_bits(j: u16)
    by (bit_vector)
    requires
        j < 8,
    ensures
        (0b1001u16 << 6) & ((0b1001u16 << 6) >> 1) & 0x5555 == 0,
        (0b0110u16 << 6) & ((0b0110u16 << 6) >> 1) & 0x5555 == 0,
        j == 3 ==> ((0b1001u16 << 6) >> (2 * j)) & 3 == 1,
        j == 4 ==> ((0b1001u16 << 6) >> (2 * j)) & 3 == 2,
        j != 3 && j != 4 ==> ((0b1001u16 << 6) >> (2 * j)) & 3 == 0,
        j == 3 ==> ((0b0110u16 << 6) >> (2 * j)) & 3 == 2,
        j == 4 ==> ((0b0110u16 << 6) >> (2 * j)) & 3 == 1,
        j != 3 && j != 4 ==> ((0b0110u16 << 6) >> (2 * j)) & 3 == 0,
{
}

impl Board {
    /// Every row is well formed.
    pub open spec fn wf(self) -> bool {
        forall|y: int| 0 <= y < BOARD_SIZE ==> (#[trigger] self.rows@[y]).wf()
    }

    /// The disc on column `x` of row `y`; nothing off the board.
    pub open spec fn at(self, x: int, y: int) -> Option<Color> {
        if 0 <= x < BOARD_SIZE && 0 <= y < BOARD_SIZE {
            self.rows@[y]@[x]
        } else {
            None
        }
    }

    /// How many cells of the board hold `what`.
    pub open spec fn tally(self, what: Option<Color>) -> nat {
        count_rows(self.rows@, what)
    }

    /// The cells of the starting position: two discs of each colour on the
    /// four centre cells, like colours on a diagonal.
    pub open spec fn initial_cell(x: int, y: int) -> Option<Color> {
        if (x == 3 && y == 3) || (x == 4 && y == 4) {
            Some(Color::WHITE)
        } else if (x == 4 && y == 3) || (x == 3 && y == 4) {
            Some(Color::BLACK)
        } else {
            None
        }
    }

    /// All cells of the board, row by row.
    pub open spec fn all_positions() -> Seq<Position> {
        Seq::new(
            (BOARD_SIZE * BOARD_SIZE) as nat,
            |i: int| Position { x: (i % 8) as usize, y: (i / 8) as usize },
        )
    }

    /// The test for an empty cell of this board.
    pub open spec fn is_empty_at(self) -> spec_fn(Position) -> bool {
        |p: Position| self.at(p.x as int, p.y as int) is None
    }

    /// The empty cells of the board, row by row.
    pub open spec fn empty_positions(self) -> Seq<Position> {
        Board::all_positions().filter(self.is_empty_at())
    }

    /// Every cell is empty, black or white: the three counts add up to the
    /// number of cells.
    pub proof fn lemma_cells_add_up(self)
        ensures
            self.tally(None) + self.tally(Some(Color::BLACK)) + self.tally(Some(Color::WHITE))
                == BOARD_SIZE * BOARD_SIZE,
    {
        lemma_rows_add_up(self.rows@);
    }

    /// Two well-formed boards with the same cells are the same board.
    pub proof fn lemma_ext(self, other: Board)
        requires
            self.wf(),
            other.wf(),
            forall|x: int, y: int|
                0 <= x < BOARD_SIZE && 0 <= y < BOARD_SIZE ==> self.at(x, y) == other.at(x, y),
        ensures
            self == other,
    {
        assert forall|y: int| 0 <= y < BOARD_SIZE implies self.rows[y] == other.rows[y] by {
            let a = self.rows@[y];
            let b = other.rows@[y];
            assert forall|x: int| 0 <= x < BOARD_SIZE implies a@[x] == b@[x] by {
                assert(self.at(x, y) == other.at(x, y));
            }
            assert(a@ =~= b@);
            a.lemma_ext(b);
        }
        assert(self.rows =~= other.rows);
    }

    /// The board of the starting position.
    pub fn new() -> (b: Board)
        ensures
            b.wf(),
            forall|x: int, y: int| #[trigger] b.at(x, y) == Board::initial_cell(x, y),
    {
        let mut new_rows = [Row::new(0);BOARD_SIZE];
        let center: usize = (BOARD_SIZE / 2) - 1;
        let upper = Row::new(0b1001u16 << ((center * FIELD_SIZE) as u16));
        let lower = Row::new(0b0110u16 << ((center * FIELD_SIZE) as u16));
        new_rows[center] = upper;
        new_rows[center + 1] = lower;
        let b = Self { rows: new_rows };
        proof {
            assert forall|x: int, y: int| #[trigger] b.at(x, y) == Board::initial_cell(x, y) by {
                if 0 <= x < BOARD_SIZE && 0 <= y < BOARD_SIZE {
                    lemma_blank_bits(x as u16);
                    lemma_centre_bits(x as u16);
                }
            }
            lemma_blank_bits(0);
            lemma_centre_bits(0);
        }
        b
    }

    /// The board without any disc.
    pub fn blank() -> (b: Board)
        ensures
            b.wf(),
            forall|x: int, y: int| #[trigger] b.at(x, y) is None,
    {
        let new_rows = [Row::new(0);BOARD_SIZE];
        let b = Self { rows: new_rows };
        proof {
            assert forall|x: int, y: int| #[trigger] b.at(x, y) is None by {
                if 0 <= x < BOARD_SIZE && 0 <= y < BOARD_SIZE {
                    lemma_blank_bits(x as u16);
                }
            }
            lemma_blank_bits(0);
        }
        b
    }

    /// The empty cells of the board, row by row.
    pub fn get_empty_positions(&self) -> (positions: Vec<Position>)
        ensures
            positions@ == self.empty_positions(),
    {
        let mut positions: Vec<Position> = Vec::new();
        let ghost all = Board::all_positions();
        let ghost empty = self.is_empty_at();
        let mut y: usize = 0;
        proof {
            reveal(Seq::filter);
            assert(all.take(0) =~= Seq::<Position>::empty());
        }
        while y < BOARD_SIZE
            invariant
                y <= BOARD_SIZE,
                all == Board::all_positions(),
                empty == self.is_empty_at(),
                positions@ == all.take(8 * y).filter(empty),
            decreases BOARD_SIZE - y,
        {
            let row = self.rows[y];
            let mut x: usize = 0;
            while x < BOARD_SIZE
                invariant
                    x <= BOARD_SIZE,
                    y < BOARD_SIZE,
                    row == self.rows@[y as int],
                    all == Board::all_positions(),
                    empty == self.is_empty_at(),
                    positions@ == all.take(8 * y + x).filter(empty),
                decreases BOARD_SIZE - x,
            {
                let ghost n = 8 * y + x;
                proof {
                    let here = Position { x, y };
                    assert(all.take(n + 1).last() == here);
                    assert(empty(here) == (row@[x as int] is None));
                    assert(all.take(n + 1) =~= all.take(n).push(here));
                    all.take(n).lemma_filter_push(here, empty);
                }
                match row.get_pos(x) {
                    None => {
                        positions.push(
                            Position::new(x, y).expect(
                                "Iterating through board shouldn't be able to get out of bounds",
                            ),
                        )
                    },
                    Some(_) => (),
                }
                x += 1;
            }
            y += 1;
        }
        proof {
            assert(all.take(64) =~= all);
        }
        positions
    }

    /// The disc that lies `i` steps from `pos` in `dir`; nothing off the board.
    pub open spec fn ahead(self, pos: Position, dir: Direction, i: int) -> Option<Color> {
        self.at(ray(pos, dir, i).0, ray(pos, dir, i).1)
    }

    /// A disc of `color` on `pos` captures exactly `k` discs in `dir`: the
    /// `k` cells next to `pos` hold the other colour, the one behind them
    /// holds `color`.
    pub open spec fn captures(self, color: Color, pos: Position, dir: Direction, k: int) -> bool {
        &&& k >= 1
        &&& forall|i: int|
            1 <= i <= k ==> #[trigger] self.ahead(pos, dir, i) == Some(color.opposite())
        &&& self.ahead(pos, dir, k + 1) == Some(color)
    }

    /// A disc of `color` on `pos` captures at least one disc in `dir`.
    pub open spec fn would_flip(self, color: Color, pos: Position, dir: Direction) -> bool {
        exists|k: int| self.captures(color, pos, dir, k)
    }

    /// The number of discs that a disc of `color` on `pos` captures in `dir`.
    pub open spec fn run(self, color: Color, pos: Position, dir: Direction) -> int {
        if self.would_flip(color, pos, dir) {
            choose|k: int| self.captures(color, pos, dir, k)
        } else {
            0
        }
    }

    /// The cell on column `x` of row `y` holds one of the discs that a disc of
    /// `color` on `pos` captures in `dir`.
    pub open spec fn on_run(
        self,
        color: Color,
        pos: Position,
        dir: Direction,
        x: int,
        y: int,
    ) -> bool {
        on_ray(pos, dir, self.run(color, pos, dir), x, y)
    }

    /// The run in `dir` is settled by the first cell that does not hold the
    /// other colour: `n` cells of the other colour come before it.
    pub proof fn lemma_run(self, color: Color, pos: Position, dir: Direction, n: int)
        requires
            n >= 0,
            forall|i: int|
                1 <= i <= n ==> #[trigger] self.ahead(pos, dir, i) == Some(color.opposite()),
            self.ahead(pos, dir, n + 1) != Some(color.opposite()),
        ensures
            self.would_flip(color, pos, dir) <==> (n >= 1 && self.ahead(pos, dir, n + 1) == Some(
                color,
            )),
            self.run(color, pos, dir) == if n >= 1 && self.ahead(pos, dir, n + 1) == Some(color) {
                n
            } else {
                0
            },
    {
        assert forall|k: int| self.captures(color, pos, dir, k) implies k == n && self.ahead(
            pos,
            dir,
            n + 1,
        ) == Some(color) by {
            if k > n {
                assert(self.ahead(pos, dir, n + 1) == Some(color.opposite()));
            }
        }
        if n >= 1 && self.ahead(pos, dir, n + 1) == Some(color) {
            assert(self.captures(color, pos, dir, n));
        }
    }

    /// The runs from one position in two boards are the same where the two
    /// boards hold the same discs on all cells that lie from it in `dir`.
    pub proof fn lemma_same_run(self, other: Board, color: Color, pos: Position, dir: Direction)
        requires
            forall|i: int|
                #![trigger self.ahead(pos, dir, i)]
                #![trigger other.ahead(pos, dir, i)]
                1 <= i ==> self.ahead(pos, dir, i) == other.ahead(pos, dir, i),
        ensures
            self.would_flip(color, pos, dir) == other.would_flip(color, pos, dir),
            self.run(color, pos, dir) == other.run(color, pos, dir),
    {
        if self.would_flip(color, pos, dir) {
            let k = self.run(color, pos, dir);
            assert(self.captures(color, pos, dir, k));
            assert(other.captures(color, pos, dir, k));
        }
        if other.would_flip(color, pos, dir) {
            let k = other.run(color, pos, dir);
            assert(self.captures(color, pos, dir, k));
        }
    }

    /// The cell on column `x` of row `y` holds a disc that a disc of `color`
    /// on `pos` captures, in whatever direction.
    pub open spec fn captured(self, color: Color, pos: Position, x: int, y: int) -> bool {
        exists|dir: Direction| self.on_run(color, pos, dir, x, y)
    }

    /// What the cell on column `x` of row `y` holds once a disc of `color`
    /// is placed on `pos`: the new disc, a captured disc turned over, or what
    /// it held before.
    pub open spec fn placed_cell(self, color: Color, pos: Position, x: int, y: int) -> Option<
        Color,
    > {
        if (x == pos.x && y == pos.y) || self.captured(color, pos, x, y) {
            Some(color)
        } else {
            self.at(x, y)
        }
    }

    /// A disc of `color` on `pos` captures in at least one direction.
    pub open spec fn flips_any(self, color: Color, pos: Position) -> bool {
        exists|dir: Direction| self.would_flip(color, pos, dir)
    }

    /// A disc of `color` may be placed on `pos`: the cell is empty, and the
    /// disc captures in at least one direction.
    pub open spec fn legal_at(self, color: Color, pos: Position) -> bool {
        &&& pos.wf()
        &&& self.at(pos.x as int, pos.y as int) is None
        &&& self.flips_any(color, pos)
    }

    /// The board after the discs that `action` captures from `position` in
    /// `dir` are turned over, or `None` where it captures none in `dir`.
    pub fn flip_pieces(&self, action: Action, position: Position, dir: Direction) -> (r: Option<
        Board,
    >)
        requires
            self.wf(),
        ensures
            r is Some <==> self.would_flip(action.color, position, dir),
            r matches Some(b) ==> b.wf() && forall|x: int, y: int|
                b.at(x, y) == if self.on_run(action.color, position, dir, x, y) {
                    Some(action.color)
                } else {
                    self.at(x, y)
                },
    {
        let mut to_flip: Vec<Position> = Vec::new();
        let mut current_pos = position;
        let ghost color = action.color;
        let ghost other = action.color.opposite();
        loop
            invariant
                self.wf(),
                color == action.color,
                other == color.opposite(),
                to_flip.len() <= BOARD_SIZE,
                forall|j: int|
                    0 <= j < to_flip.len() ==> (#[trigger] to_flip[j]).wf() && ray(
                        position,
                        dir,
                        j + 1,
                    ) == (to_flip[j].x as int, to_flip[j].y as int),
                forall|i: int|
                    1 <= i <= to_flip.len() ==> #[trigger] self.ahead(position, dir, i) == Some(
                        other,
                    ),
                ray(position, dir, to_flip.len() as int) == (
                    current_pos.x as int,
                    current_pos.y as int,
                ),
            decreases BOARD_SIZE + 1 - to_flip.len(),
        {
            let ghost n = to_flip.len() as int;
            let next = current_pos.shift(dir);
            proof {
                assert(n >= 1 ==> self.ahead(position, dir, 1) == Some(other));
                assert(ray(position, dir, n + 1) == (
                    current_pos.x + dir.dx(),
                    current_pos.y + dir.dy(),
                ));
            }
            match next {
                Some(next_pos) => {
                    let found = self.rows[next_pos.y].get_pos(next_pos.x);
                    assert(found == self.ahead(position, dir, n + 1));
                    match found {
                        Some(c) => {
                            if c != action.color {
                                // A disc of the other colour: it is captured if the run ends well.
                                to_flip.push(next_pos);
                                current_pos = next_pos;
                            } else {
                                // A disc of the mover's colour ends the run.
                                proof {
                                    self.lemma_run(color, position, dir, n);
                                }
                                if to_flip.len() > 0 {
                                    let b = self.flip_all(Ghost(color), Ghost(position), Ghost(dir), &to_flip);
                                    return Some(b);
                                }
                                return None;
                            }
                        },
                        None => {
                            proof {
                                self.lemma_run(color, position, dir, n);
                            }
                            return None;
                        },
                    }
                },
                None => {
                    proof {
                        assert(self.ahead(position, dir, n + 1) is None);
                        self.lemma_run(color, position, dir, n);
                    }
                    return None;
                },
            }
        }
    }

    /// The board with the discs on the cells `to_flip` turned over: the first
    /// cells from `position` in `dir`, which all hold the other colour.
    fn flip_all(
        &self,
        Ghost(color): Ghost<Color>,
        Ghost(position): Ghost<Position>,
        Ghost(dir): Ghost<Direction>,
        to_flip: &Vec<Position>,
    ) -> (b: Board)
        requires
            self.wf(),
            forall|j: int|
                0 <= j < to_flip.len() ==> (#[trigger] to_flip[j]).wf() && ray(
                    position,
                    dir,
                    j + 1,
                ) == (to_flip[j].x as int, to_flip[j].y as int),
            forall|i: int|
                1 <= i <= to_flip.len() ==> #[trigger] self.ahead(position, dir, i) == Some(
                    color.opposite(),
                ),
        ensures
            b.wf(),
            forall|x: int, y: int|
                b.at(x, y) == if on_ray(position, dir, to_flip.len() as int, x, y) {
                    Some(color)
                } else {
                    self.at(x, y)
                },
    {
        let mut new_board = *self;
        let mut j: usize = 0;
        while j < to_flip.len()
            invariant
                j <= to_flip.len(),
                self.wf(),
                new_board.wf(),
                forall|j: int|
                    0 <= j < to_flip.len() ==> (#[trigger] to_flip[j]).wf() && ray(
                        position,
                        dir,
                        j + 1,
                    ) == (to_flip[j].x as int, to_flip[j].y as int),
                forall|i: int|
                    1 <= i <= to_flip.len() ==> #[trigger] self.ahead(position, dir, i) == Some(
                        color.opposite(),
                    ),
                forall|x: int, y: int|
                    new_board.at(x, y) == if on_ray(position, dir, j as int, x, y) {
                        Some(color)
                    } else {
                        self.at(x, y)
                    },
            decreases to_flip.len() - j,
        {
            let pos = to_flip[j];
            let ghost before = new_board;
            proof {
                assert(self.ahead(position, dir, j + 1) == Some(color.opposite()));
                assert(!on_ray(position, dir, j as int, pos.x as int, pos.y as int));
                assert(before.at(pos.x as int, pos.y as int) == Some(color.opposite()));
            }
            let row = new_board.rows[pos.y].flip_pos(pos.x).expect(
                "Should be able to flip occupied positions",
            );
            new_board.rows[pos.y] = row;
            proof {
                assert forall|x: int, y: int|
                    new_board.at(x, y) == if on_ray(position, dir, j + 1, x, y) {
                        Some(color)
                    } else {
                        self.at(x, y)
                    } by {
                    assert(before.at(x, y) == if on_ray(position, dir, j as int, x, y) {
                        Some(color)
                    } else {
                        self.at(x, y)
                    });
                    if 0 <= x < BOARD_SIZE && y == pos.y {
                        assert(new_board.rows@[y] == row);
                    }
                }
            }
            j += 1;
        }
        new_board
    }

    /// Whether a disc of `action`'s colour on `position` captures at least
    /// one disc in `dir`.
    pub fn would_flip_pieces(&self, action: Action, position: Position, dir: Direction) -> (r:
        bool)
        ensures
            r == self.would_flip(action.color, position, dir),
    {
        let ghost color = action.color;
        match position.shift(dir) {
            Some(pos_1) => {
                let first = self.rows[pos_1.y].get_pos(pos_1.x);
                assert(first == self.ahead(position, dir, 1));
                match first {
                    Some(c) => {
                        if c != action.color {
                            // A disc of the other colour lies next to the position.
                            let mut current_pos = pos_1;
                            let mut steps: usize = 1;
                            loop
                                invariant
                                    color == action.color,
                                    1 <= steps <= BOARD_SIZE,
                                    current_pos.wf(),
                                    0 <= ray(position, dir, 1).0 < BOARD_SIZE,
                                    0 <= ray(position, dir, 1).1 < BOARD_SIZE,
                                    ray(position, dir, steps as int) == (
                                        current_pos.x as int,
                                        current_pos.y as int,
                                    ),
                                    forall|i: int|
                                        1 <= i <= steps ==> #[trigger] self.ahead(
                                            position,
                                            dir,
                                            i,
                                        ) == Some(color.opposite()),
                                decreases BOARD_SIZE + 1 - steps,
                            {
                                match current_pos.shift(dir) {
                                    Some(next_pos) => {
                                        let found = self.rows[next_pos.y].get_pos(next_pos.x);
                                        assert(found == self.ahead(
                                            position,
                                            dir,
                                            steps as int + 1,
                                        ));
                                        match found {
                                            Some(c2) => {
                                                if c2 == action.color {
                                                    // The mover's own disc on the far side.
                                                    proof {
                                                        self.lemma_run(
                                                            color,
                                                            position,
                                                            dir,
                                                            steps as int,
                                                        );
                                                    }
                                                    return true;
                                                } else {
                                                    // Another disc of the other colour.
                                                    current_pos = next_pos;
                                                    steps = steps + 1;
                                                }
                                            },
                                            None => {
                                                // An empty cell: nothing is captured.
                                                proof {
                                                    self.lemma_run(
                                                        color,
                                                        position,
                                                        dir,
                                                        steps as int,
                                                    );
                                                }
                                                return false;
                                            },
                                        }
                                    },
                                    None => {
                                        // The edge of the board.
                                        proof {
                                            assert(self.ahead(position, dir, steps as int + 1)
                                                is None);
                                            self.lemma_run(color, position, dir, steps as int);
                                        }
                                        return false;
                                    },
                                }
                            }
                        } else {
                            proof {
                                self.lemma_run(color, position, dir, 0);
                            }
                            false
                        }
                    },
                    None => {
                        proof {
                            self.lemma_run(color, position, dir, 0);
                        }
                        false
                    },
                }
            },
            None => {
                proof {
                    assert(self.ahead(position, dir, 1) is None);
                    self.lemma_run(color, position, dir, 0);
                }
                false
            },
        }
    }
}

} // verus!
