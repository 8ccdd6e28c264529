use vstd::prelude::*;

verus! {

/// Number of positions in a code.
pub const CODE_SIZE: u8 = 4;

/// Number of distinct colors.
pub const COLORS_NBR: usize = 6;

/// A peg color.
#[derive(Clone, Copy, Debug, PartialEq, Eq, Structural, PartialOrd)]
pub enum Color {
    Black,
    White,
    Yellow,
    Blue,
    Red,
    Green,
}

/// A code: four colors, in order.
pub type Code = [Color; 4];

impl Color {
    /// The index of this color in `0..COLORS_NBR`.
    pub open spec fn index(self) -> nat {
        match self {
            Color::Black => 0,
            Color::White => 1,
            Color::Yellow => 2,
            Color::Blue => 3,
            Color::Red => 4,
            Color::Green => 5,
        }
    }

    /// The color with index `v`; every index from 5 on gives `Green`.
    pub open spec fn of_index(v: nat) -> Color {
        if v == 0 {
            Color::Black
        } else if v == 1 {
            Color::White
        } else if v == 2 {
            Color::Yellow
        } else if v == 3 {
            Color::Blue
        } else if v == 4 {
            Color::Red
        } else {
            Color::Green
        }
    }

    /// The index of this color.
    pub fn value(&self) -> (r: usize)
        ensures
            r == self.index(),
            r < COLORS_NBR,
    {
        match self {
            Color::Black => 0,
            Color::White => 1,
            Color::Yellow => 2,
            Color::Blue => 3,
            Color::Red => 4,
            Color::Green => 5,
        }
    }

    /// The color of index `value`; any index from 5 on gives `Green`.
    pub fn from_value(value: usize) -> (r: Color)
        ensures
            r == Color::of_index(value as nat),
            value < COLORS_NBR ==> r.index() == value,
    {
        match value {
            0 => Color::Black,
            1 => Color::White,
            2 => Color::Yellow,
            3 => Color::Blue,
            4 => Color::Red,
            _ => Color::Green,
        }
    }
}

/// Distinct colors have distinct indices, and every index is below `COLORS_NBR`.
pub proof fn lemma_index_injective(a: Color, b: Color)
    ensures
        a.index() < COLORS_NBR,
        a.index() == b.index() <==> a == b,
        Color::of_index(a.index()) == a,
{
}

} // verus!
