use vstd::prelude::*;
use crate::othello::color::Color;
use crate::othello::position::BOARD_SIZE;

verus! {

/// Each cell of a row takes `FIELD_SIZE` bits.
pub const FIELD_SIZE: usize = 2;

/// An empty cell holds no disc to flip.
#[derive(Debug, Clone, Copy)]
pub struct EmptyFieldError;

/// A disc can only be placed on an empty cell.
#[derive(Debug, Clone, Copy)]
pub struct OccupiedFieldError;

/// The two bits of cell `i` in the packed row `val`.
pub open spec fn field_bits(val: u16, i: int) -> u16 {
    (val >> ((2 * i) as u16)) & 3
}

/// What two bits of a packed row stand for: 01 is a white disc, 10 a black one.
pub open spec fn field_cell(bits: u16) -> Option<Color> {
    if bits == 1 {
        Some(Color::WHITE)
    } else if bits == 2 {
        Some(Color::BLACK)
    } else {
        None
    }
}

/// How many of the cells of `cells` hold `what`.
pub open spec fn count_cells(cells: Seq<Option<Color>>, what: Option<Color>) -> nat
    decreases cells.len(),
{
    if cells.len() == 0 {
        0
    } else {
        count_cells(cells.drop_last(), what) + if cells.last() == what {
            1nat
        } else {
            0nat
        }
    }
}

/// One row of the board, two bits per cell. Its view is the row as eight cells.
#[derive(Debug, Clone, Copy, Hash, PartialEq, Eq, Structural)]
pub struct Row {
    value: u16,
}

impl View for Row {
    type V = Seq<Option<Color>>;

    closed spec fn view(&self) -> Seq<Option<Color>> {
        Row::decode(self.value)
    }
}

/// In valid bits no cell has both of its bits set.
proof fn lemma_valid_fields(v: u16, j: u16)
    by (bit_vector)
    requires
        j < 8,
        v & (v >> 1) & 0x5555 == 0,
    ensures
        (v >> (2 * j)) & 3 < 3,
{
}

/// The eight cells of a row make up all of its bits.
proof fn lemma_fields_fix_bits(a: u16, b: u16)
    by (bit_vector)
    requires
        a & 3 == b & 3,
        (a >> 2) & 3 == (b >> 2) & 3,
        (a >> 4) & 3 == (b >> 4) & 3,
        (a >> 6) & 3 == (b >> 6) & 3,
        (a >> 8) & 3 == (b >> 8) & 3,
        (a >> 10) & 3 == (b >> 10) & 3,
        (a >> 12) & 3 == (b >> 12) & 3,
        (a >> 14) & 3 == (b >> 14) & 3,
    ensures
        a == b,
{
}

/// Masking cell `p` and shifting it down gives the bits of the cell.
proof fn lemma_masked_field(v: u16, p: u16)
    by (bit_vector)
    requires
        p < 8,
    ensures
        (v & (3u16 << (2 * p))) >> (2 * p) == (v >> (2 * p)) & 3,
        (v & (3u16 << (2 * p)) == 0) <==> ((v >> (2 * p)) & 3 == 0),
{
}

/// Setting the bits `m` on the empty cell `p` changes that cell alone, and
/// keeps valid bits valid.
proof fn lemma_put_field(v: u16, p: u16, m: u16, j: u16)
    by (bit_vector)
    requires
        p < 8,
        j < 8,
        m == 1 || m == 2,
        (v >> (2 * p)) & 3 == 0,
    ensures
        j != p ==> ((v ^ (m << (2 * p))) >> (2 * j)) & 3 == (v >> (2 * j)) & 3,
        ((v ^ (m << (2 * p))) >> (2 * p)) & 3 == m,
        v & (v >> 1) & 0x5555 == 0 ==> (v ^ (m << (2 * p))) & ((v ^ (m << (2 * p))) >> 1) & 0x5555
            == 0,
{
}

/// Turning both bits of cell `p` swaps black and white there, changes that
/// cell alone, and keeps valid bits valid where the cell holds a disc.
proof fn lemma_swap_field(v: u16, p: u16, j: u16)
    by (bit_vector)
    requires
        p < 8,
        j < 8,
    ensures
        j != p ==> ((v ^ (3u16 << (2 * p))) >> (2 * j)) & 3 == (v >> (2 * j)) & 3,
        (v >> (2 * p)) & 3 <= 3,
        (v >> (2 * p)) & 3 == 1 ==> ((v ^ (3u16 << (2 * p))) >> (2 * p)) & 3 == 2,
        (v >> (2 * p)) & 3 == 2 ==> ((v ^ (3u16 << (2 * p))) >> (2 * p)) & 3 == 1,
        v & (v >> 1) & 0x5555 == 0 && (v >> (2 * p)) & 3 != 0 ==> (v ^ (3u16 << (2 * p))) & ((v ^ (3u16
            << (2 * p))) >> 1) & 0x5555 == 0,
{
}

/// The lowest two bits tell the colour of a cell, and shifting by one cell
/// leads to the next.
proof fn lemma_low_bits(v: u16, j: u16)
    by (bit_vector)
    requires
        j < 8,
    ensures
        ((v >> (2 * j)) & 1 > 0) <==> ((v >> (2 * j)) & 3 == 1 || (v >> (2 * j)) & 3 == 3),
        ((v >> (2 * j)) & 2 > 0) <==> ((v >> (2 * j)) & 3 == 2 || (v >> (2 * j)) & 3 == 3),
        j < 7 ==> (v >> (2 * j)) >> 2 == v >> (2 * (j + 1)),
        v >> 0 == v,
{
}

impl Row {
    /// The eight cells that the bits of `val` stand for.
    pub open spec fn decode(val: u16) -> Seq<Option<Color>> {
        Seq::new(BOARD_SIZE as nat, |i: int| field_cell(field_bits(val, i)))
    }

    /// No cell of `val` has both of its bits set.
    pub open spec fn valid_bits(val: u16) -> bool {
        val & (val >> 1) & 0x5555 == 0
    }

    /// Every cell is empty, black or white, and nothing else.
    pub closed spec fn wf(self) -> bool {
        Row::valid_bits(self.value)
    }

    /// The bits of the row as a number.
    pub closed spec fn code(self) -> u16 {
        self.value
    }

    /// How many cells of the row hold `what`.
    pub open spec fn tally(self, what: Option<Color>) -> nat {
        count_cells(self@, what)
    }

    /// A row has eight cells.
    pub broadcast proof fn lemma_len(self)
        ensures
            #[trigger] self@.len() == BOARD_SIZE,
    {
    }

    /// Two well-formed rows with the same cells have the same bits in cell `j`.
    proof fn lemma_same_field(self, other: Row, j: u16)
        requires
            self.wf(),
            other.wf(),
            self@ == other@,
            j < 8,
        ensures
            (self.value >> (2 * j)) & 3 == (other.value >> (2 * j)) & 3,
    {
        lemma_valid_fields(self.value, j);
        lemma_valid_fields(other.value, j);
        assert(self@[j as int] == other@[j as int]);
    }

    /// Two well-formed rows with the same cells are the same row.
    pub proof fn lemma_ext(self, other: Row)
        requires
            self.wf(),
            other.wf(),
            self@ == other@,
        ensures
            self == other,
    {
        let a = self.value;
        let b = other.value;
        self.lemma_same_field(other, 0);
        self.lemma_same_field(other, 1);
        self.lemma_same_field(other, 2);
        self.lemma_same_field(other, 3);
        self.lemma_same_field(other, 4);
        self.lemma_same_field(other, 5);
        self.lemma_same_field(other, 6);
        self.lemma_same_field(other, 7);
        assert(a >> 0 == a && b >> 0 == b) by (bit_vector);
        lemma_fields_fix_bits(a, b);
    }

    /// Two rows with the same bits are the same row.
    pub proof fn lemma_code_ext(self, other: Row)
        requires
            self.code() == other.code(),
        ensures
            self == other,
    {
    }

    /// The bits of the row as a number.
    pub fn bits(&self) -> (v: u16)
        ensures
            v == self.code(),
    {
        self.value
    }

    /// The row with the bits `val`.
    pub fn new(val: u16) -> (r: Row)
        ensures
            r@ == Row::decode(val),
            r.code() == val,
            r.wf() <==> Row::valid_bits(val),
    {
        Self { value: val }
    }

    /// The disc on cell `pos`, if any.
    pub fn get_pos(&self, pos: usize) -> (c: Option<Color>)
        requires
            pos < BOARD_SIZE,
        ensures
            c == self@[pos as int],
    {
        let shift: u16 = (pos * FIELD_SIZE) as u16;
        let mask: u16 = 0b011u16 << shift;
        let field: u16 = (self.value & mask) >> shift;
        proof {
            lemma_masked_field(self.value, pos as u16);
        }
        if field == Color::WHITE.bitmask() {
            Some(Color::WHITE)
        } else if field == Color::BLACK.bitmask() {
            Some(Color::BLACK)
        } else {
            None
        }
    }

    /// The row with a disc of `color` on cell `pos`, which must be empty.
    pub fn set_pos(&self, color: Color, pos: usize) -> (r: Result<Row, OccupiedFieldError>)
        requires
            self.wf(),
            pos < BOARD_SIZE,
        ensures
            r is Ok <==> self@[pos as int] is None,
            r matches Ok(row) ==> row.wf() && row@ == self@.update(pos as int, Some(color)),
    {
        let shift: u16 = (pos * FIELD_SIZE) as u16;
        let color_mask: u16 = color.bitmask() << shift;
        let check_mask: u16 = 0b011u16 << shift;
        proof {
            lemma_masked_field(self.value, pos as u16);
            lemma_valid_fields(self.value, pos as u16);
        }
        if self.value & check_mask == 0 {
            let row = Row { value: self.value ^ color_mask };
            proof {
                let m = color.mask();
                assert forall|j: int| 0 <= j < 8 implies #[trigger] row@[j] == self@.update(
                    pos as int,
                    Some(color),
                )[j] by {
                    lemma_put_field(self.value, pos as u16, m, j as u16);
                }
                lemma_put_field(self.value, pos as u16, m, 0);
            }
            Ok(row)
        } else {
            Err(OccupiedFieldError)
        }
    }

    /// The row with the disc on cell `pos` turned over; the cell must hold one.
    pub fn flip_pos(&self, pos: usize) -> (r: Result<Row, EmptyFieldError>)
        requires
            self.wf(),
            pos < BOARD_SIZE,
        ensures
            r is Ok <==> self@[pos as int] is Some,
            r matches Ok(row) ==> row.wf() && row@ == self@.update(
                pos as int,
                Some(self@[pos as int]->0.opposite()),
            ),
    {
        let shift: u16 = (pos * FIELD_SIZE) as u16;
        let flip_mask: u16 = 0b011u16 << shift;
        proof {
            lemma_masked_field(self.value, pos as u16);
            lemma_valid_fields(self.value, pos as u16);
        }
        if self.value & flip_mask == 0 {
            Err(EmptyFieldError)
        } else {
            let row = Row { value: self.value ^ flip_mask };
            proof {
                let turned = self@.update(pos as int, Some(self@[pos as int]->0.opposite()));
                assert forall|j: int| 0 <= j < 8 implies #[trigger] row@[j] == turned[j] by {
                    lemma_swap_field(self.value, pos as u16, j as u16);
                }
                lemma_swap_field(self.value, pos as u16, 0);
            }
            Ok(row)
        }
    }

    /// The number of white discs and the number of black discs in the row.
    pub fn count_colors(&self) -> (n: (isize, isize))
        requires
            self.wf(),
        ensures
            n.0 == self.tally(Some(Color::WHITE)),
            n.1 == self.tally(Some(Color::BLACK)),
            n.0 + n.1 <= BOARD_SIZE,
    {
        let mut w_score: isize = 0;
        let mut b_score: isize = 0;
        let mut row: u16 = self.value;
        let mut i: usize = 0;
        proof {
            lemma_low_bits(self.value, 0);
        }
        while i < BOARD_SIZE
            invariant
                i <= BOARD_SIZE,
                self.wf(),
                i < BOARD_SIZE ==> row == self.value >> ((2 * i) as u16),
                w_score == count_cells(self@.take(i as int), Some(Color::WHITE)),
                b_score == count_cells(self@.take(i as int), Some(Color::BLACK)),
                0 <= w_score,
                0 <= b_score,
                w_score + b_score <= i,
            decreases BOARD_SIZE - i,
        {
            proof {
                lemma_low_bits(self.value, i as u16);
                lemma_valid_fields(self.value, i as u16);
                assert(self@.take(i + 1).drop_last() =~= self@.take(i as int));
            }
            if row & Color::WHITE.bitmask() > 0 {
                w_score += 1;
            }
            if row & Color::BLACK.bitmask() > 0 {
                b_score += 1;
            }
            row = row >> (FIELD_SIZE as u16);
            i += 1;
        }
        proof {
            assert(self@.take(BOARD_SIZE as int) =~= self@);
        }
        (w_score, b_score)
    }
}

} // verus!
