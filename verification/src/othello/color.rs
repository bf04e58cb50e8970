use vstd::prelude::*;

verus! {

/// The two players. `BLACK` moves first.
#[derive(Debug, Clone, Copy, Hash, PartialEq, Eq, Structural)]
pub enum Color {
    BLACK,
    WHITE,
}

impl Color {
    /// The other player.
    pub open spec fn opposite(self) -> Color {
        match self {
            Color::BLACK => Color::WHITE,
            Color::WHITE => Color::BLACK,
        }
    }

    /// The two bits that stand for a disc of this colour in a packed row.
    pub open spec fn mask(self) -> u16 {
        match self {
            Color::BLACK => 2,
            Color::WHITE => 1,
        }
    }

    /// The two bits that stand for a disc of this colour in a packed row.
    pub fn bitmask(&self) -> (m: u16)
        ensures
            m == self.mask(),
    {
        match *self {
            Color::BLACK => 0b010,
            Color::WHITE => 0b001,
        }
    }
}

} // verus!
