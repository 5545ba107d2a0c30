//! The two sides of a game.
use vstd::prelude::*;

verus! {

#[derive(Clone, Copy, PartialEq, Eq, Structural, Debug, Hash)]
pub enum Color {
    White,
    Black,
}

impl Color {
    /// The other side.
    pub open spec fn other(self) -> Color {
        match self {
            Color::White => Color::Black,
            Color::Black => Color::White,
        }
    }

    /// 0 for white, 1 for black.
    pub open spec fn index(self) -> int {
        match self {
            Color::White => 0,
            Color::Black => 1,
        }
    }

    /// Flips the side in place.
    pub fn switch(&mut self)
        ensures
            *final(self) == old(self).other(),
    {
        *self = self.opposite();
    }

    /// The other side.
    pub fn opposite(self) -> (r: Color)
        ensures
            r == self.other(),
    {
        match self {
            Color::White => Color::Black,
            Color::Black => Color::White,
        }
    }

    /// Name of the side, as it is displayed.
    pub fn name(self) -> (r: &'static str)
        ensures
            self == Color::White ==> r@ == "White"@,
            self == Color::Black ==> r@ == "Black"@,
    {
        match self {
            Color::White => "White",
            Color::Black => "Black",
        }
    }
}

/// Switching sides twice gives back the side one started from.
pub proof fn law_opposite_involutive(c: Color)
    ensures
        c.other().other() == c,
        c.other() != c,
{
}

} // verus!
