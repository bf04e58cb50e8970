use vstd::prelude::*;

verus! {

/// The board has `BOARD_SIZE` rows of `BOARD_SIZE` cells.
pub const BOARD_SIZE: usize = 8;

/// The eight compass directions in which discs are captured.
#[derive(Debug, Clone, Copy, PartialEq, Eq, Structural)]
pub enum Direction {
    Left,
    Right,
    Up,
    Down,
    UpLeft,
    UpRight,
    DownLeft,
    DownRight,
}

impl Direction {
    /// The change of the column in one step: -1, 0 or 1.
    pub open spec fn dx(self) -> int {
        match self {
            Direction::Left | Direction::UpLeft | Direction::DownLeft => -1,
            Direction::Right | Direction::UpRight | Direction::DownRight => 1,
            Direction::Up | Direction::Down => 0,
        }
    }

    /// The change of the row in one step: -1, 0 or 1.
    pub open spec fn dy(self) -> int {
        match self {
            Direction::Up | Direction::UpLeft | Direction::UpRight => -1,
            Direction::Down | Direction::DownLeft | Direction::DownRight => 1,
            Direction::Left | Direction::Right => 0,
        }
    }

    /// The directions in the order in which they are scanned.
    pub open spec fn all() -> Seq<Direction> {
        seq![
            Direction::Left,
            Direction::Right,
            Direction::Up,
            Direction::Down,
            Direction::UpLeft,
            Direction::UpRight,
            Direction::DownLeft,
            Direction::DownRight,
        ]
    }

    /// The index of this direction in `all()`.
    pub open spec fn index(self) -> int {
        match self {
            Direction::Left => 0,
            Direction::Right => 1,
            Direction::Up => 2,
            Direction::Down => 3,
            Direction::UpLeft => 4,
            Direction::UpRight => 5,
            Direction::DownLeft => 6,
            Direction::DownRight => 7,
        }
    }

    /// The directions in the order in which they are scanned.
    pub fn values() -> (v: [Direction; 8])
        ensures
            v@ == Direction::all(),
    {
        let v = [
            Direction::Left,
            Direction::Right,
            Direction::Up,
            Direction::Down,
            Direction::UpLeft,
            Direction::UpRight,
            Direction::DownLeft,
            Direction::DownRight,
        ];
        v
    }
}

/// A cell of the board: column `x`, row `y`.
#[derive(Debug, Clone, Copy, Hash, PartialEq, Eq, Structural)]
pub struct Position {
    pub x: usize,
    pub y: usize,
}

impl Position {
    /// The position lies on the board.
    pub open spec fn wf(self) -> bool {
        self.x < BOARD_SIZE && self.y < BOARD_SIZE
    }

    /// The neighbour one step away in `dir`, if it lies on the board.
    pub open spec fn shifted(self, dir: Direction) -> Option<Position> {
        let nx = self.x + dir.dx();
        let ny = self.y + dir.dy();
        if 0 <= nx < BOARD_SIZE && 0 <= ny < BOARD_SIZE {
            Some(Position { x: nx as usize, y: ny as usize })
        } else {
            None
        }
    }

    /// The position with these coordinates, unless one of them lies off the board.
    pub fn new(x_coordinate: usize, y_coordinate: usize) -> (p: Option<Position>)
        ensures
            p == if x_coordinate < BOARD_SIZE && y_coordinate < BOARD_SIZE {
                Some(Position { x: x_coordinate, y: y_coordinate })
            } else {
                None
            },
    {
        if x_coordinate >= BOARD_SIZE || y_coordinate >= BOARD_SIZE {
            None
        } else {
            Some(Position { x: x_coordinate, y: y_coordinate })
        }
    }

    /// The neighbour one step away in `dir`, or `None` at the edge of the board.
    pub fn shift(self, dir: Direction) -> (p: Option<Position>)
        ensures
            p == self.shifted(dir),
    {
        let x = self.x;
        let y = self.y;
        match dir {
            Direction::Up => {
                if y == 0 {
                    None
                } else {
                    Position::new(x, y - 1)
                }
            },
            Direction::Down => {
                if y >= BOARD_SIZE - 1 {
                    None
                } else {
                    Position::new(x, y + 1)
                }
            },
            Direction::Left => {
                if x == 0 {
                    None
                } else {
                    Position::new(x - 1, y)
                }
            },
            Direction::Right => {
                if x >= BOARD_SIZE - 1 {
                    None
                } else {
                    Position::new(x + 1, y)
                }
            },
            Direction::UpLeft => {
                if x == 0 || y == 0 {
                    None
                } else {
                    Position::new(x - 1, y - 1)
                }
            },
            Direction::UpRight => {
                if x >= BOARD_SIZE - 1 || y == 0 {
                    None
                } else {
                    Position::new(x + 1, y - 1)
                }
            },
            Direction::DownLeft => {
                if x == 0 || y >= BOARD_SIZE - 1 {
                    None
                } else {
                    Position::new(x - 1, y + 1)
                }
            },
            Direction::DownRight => {
                if x >= BOARD_SIZE - 1 || y >= BOARD_SIZE - 1 {
                    None
                } else {
                    Position::new(x + 1, y + 1)
                }
            },
        }
    }
}

} // verus!
