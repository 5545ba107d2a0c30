//! Ranks (rows) of the board. Rank 8 is row 0, rank 1 is row 7.
use vstd::prelude::*;

verus! {

#[derive(Clone, Copy, PartialEq, Eq, Structural, Debug, Hash)]
pub enum Rank {
    R8,
    R7,
    R6,
    R5,
    R4,
    R3,
    R2,
    R1,
}

/// Error for a character that names no rank.
#[derive(Debug)]
pub struct RankParseError(pub &'static str);

impl Rank {
    /// Row number, 0 for rank 8 down to 7 for rank 1.
    pub open spec fn index(self) -> int {
        match self {
            Rank::R8 => 0,
            Rank::R7 => 1,
            Rank::R6 => 2,
            Rank::R5 => 3,
            Rank::R4 => 4,
            Rank::R3 => 5,
            Rank::R2 => 6,
            Rank::R1 => 7,
        }
    }

    /// The rank with row number `number`.
    pub fn from_index(number: u8) -> (r: Rank)
        requires
            number < 8,
        ensures
            r.index() == number,
    {
        match number {
            0 => Rank::R8,
            1 => Rank::R7,
            2 => Rank::R6,
            3 => Rank::R5,
            4 => Rank::R4,
            5 => Rank::R3,
            6 => Rank::R2,
            _ => Rank::R1,
        }
    }

    /// Row number of the rank.
    pub fn to_index(self) -> (r: u8)
        ensures
            r == self.index(),
    {
        match self {
            Rank::R8 => 0,
            Rank::R7 => 1,
            Rank::R6 => 2,
            Rank::R5 => 3,
            Rank::R4 => 4,
            Rank::R3 => 5,
            Rank::R2 => 6,
            Rank::R1 => 7,
        }
    }

    /// The rank named by a digit from `1` to `8`; any other character is an error.
    pub fn try_from_char(ch: char) -> (r: Result<Rank, RankParseError>)
        ensures
            '1' <= ch <= '8' <==> r is Ok,
            r matches Ok(rank) ==> rank.index() == '8' as int - ch as int,
    {
        match ch {
            '1' => Ok(Rank::R1),
            '2' => Ok(Rank::R2),
            '3' => Ok(Rank::R3),
            '4' => Ok(Rank::R4),
            '5' => Ok(Rank::R5),
            '6' => Ok(Rank::R6),
            '7' => Ok(Rank::R7),
            '8' => Ok(Rank::R8),
            _ => Err(RankParseError("Illegal rank char!")),
        }
    }

    /// The digit that names the rank.
    pub fn to_char(self) -> (r: char)
        ensures
            r as int == '8' as int - self.index(),
    {
        match self {
            Rank::R8 => '8',
            Rank::R7 => '7',
            Rank::R6 => '6',
            Rank::R5 => '5',
            Rank::R4 => '4',
            Rank::R3 => '3',
            Rank::R2 => '2',
            Rank::R1 => '1',
        }
    }
}

} // verus!
