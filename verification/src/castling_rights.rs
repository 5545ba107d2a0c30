//! Which castling moves are still allowed, one bit each.
use vstd::prelude::*;
use crate::square::Square;

verus! {

/// All four castling rights.
pub const DEFAULT: u8 = 0b1111;
/// No castling right.
pub const NONE: u8 = 0b0000;
/// White king side.
pub const WK: u8 = 0b0001;
/// White queen side.
pub const WQ: u8 = 0b0010;
/// Black king side.
pub const BK: u8 = 0b0100;
/// Black queen side.
pub const BQ: u8 = 0b1000;

#[derive(Clone, Copy, PartialEq, Eq, Structural, Debug, Hash)]
pub struct CastlingRights(pub u8);

/// The rights that survive a move from or to square `sq`: moving a king or
/// rook from its home square, or capturing a rook there, ends the rights that
/// depend on it.
pub open spec fn update_mask(sq: int) -> u8 {
    if sq == 0 {
        0b0111u8
    } else if sq == 4 {
        0b0011u8
    } else if sq == 7 {
        0b1011u8
    } else if sq == 56 {
        0b1101u8
    } else if sq == 60 {
        0b1100u8
    } else if sq == 63 {
        0b1110u8
    } else {
        0b1111u8
    }
}

fn update_mask_exec(sq: Square) -> (r: u8)
    ensures
        r == update_mask(sq.0 as int),
{
    match sq.0 {
        0 => 0b0111,
        4 => 0b0011,
        7 => 0b1011,
        56 => 0b1101,
        60 => 0b1100,
        63 => 0b1110,
        _ => 0b1111,
    }
}

proof fn lemma_and_flag(x: u8, y: u8, z: u8, k: u8)
    by (bit_vector)
    requires
        k == 1 || k == 2 || k == 4 || k == 8,
    ensures
        (x & (y & z)) & k != 0 <==> (x & k != 0 && y & k != 0 && z & k != 0),
{
}

proof fn lemma_and_le(x: u8, y: u8)
    by (bit_vector)
    ensures
        x & y <= x,
{
}

proof fn lemma_mask_constants()
    by (bit_vector)
    ensures
        (7u8 & 1u8 != 0) == true,
        (7u8 & 2u8 != 0) == true,
        (7u8 & 4u8 != 0) == true,
        (7u8 & 8u8 != 0) == false,
        (3u8 & 1u8 != 0) == true,
        (3u8 & 2u8 != 0) == true,
        (3u8 & 4u8 != 0) == false,
        (3u8 & 8u8 != 0) == false,
        (11u8 & 1u8 != 0) == true,
        (11u8 & 2u8 != 0) == true,
        (11u8 & 4u8 != 0) == false,
        (11u8 & 8u8 != 0) == true,
        (13u8 & 1u8 != 0) == true,
        (13u8 & 2u8 != 0) == false,
        (13u8 & 4u8 != 0) == true,
        (13u8 & 8u8 != 0) == true,
        (12u8 & 1u8 != 0) == false,
        (12u8 & 2u8 != 0) == false,
        (12u8 & 4u8 != 0) == true,
        (12u8 & 8u8 != 0) == true,
        (14u8 & 1u8 != 0) == false,
        (14u8 & 2u8 != 0) == true,
        (14u8 & 4u8 != 0) == true,
        (14u8 & 8u8 != 0) == true,
        (15u8 & 1u8 != 0) == true,
        (15u8 & 2u8 != 0) == true,
        (15u8 & 4u8 != 0) == true,
        (15u8 & 8u8 != 0) == true,
{
}

impl CastlingRights {
    pub open spec fn has_wk(self) -> bool {
        self.0 & 1 != 0
    }

    pub open spec fn has_wq(self) -> bool {
        self.0 & 2 != 0
    }

    pub open spec fn has_bk(self) -> bool {
        self.0 & 4 != 0
    }

    pub open spec fn has_bq(self) -> bool {
        self.0 & 8 != 0
    }

    /// Removes the rights that a move from `source` to `target` ends.
    pub fn update(&mut self, source: Square, target: Square)
        ensures
            final(self).0 == old(self).0 & (update_mask(source.0 as int) & update_mask(target.0 as int)),
            final(self).0 <= old(self).0,
            final(self).has_wk() == (old(self).has_wk() && source.0 != 60 && source.0 != 63
                && target.0 != 60 && target.0 != 63),
            final(self).has_wq() == (old(self).has_wq() && source.0 != 60 && source.0 != 56
                && target.0 != 60 && target.0 != 56),
            final(self).has_bk() == (old(self).has_bk() && source.0 != 4 && source.0 != 7
                && target.0 != 4 && target.0 != 7),
            final(self).has_bq() == (old(self).has_bq() && source.0 != 4 && source.0 != 0
                && target.0 != 4 && target.0 != 0),
    {
        let ms = update_mask_exec(source);
        let mt = update_mask_exec(target);
        proof {
            lemma_and_flag(self.0, ms, mt, 1);
            lemma_and_flag(self.0, ms, mt, 2);
            lemma_and_flag(self.0, ms, mt, 4);
            lemma_and_flag(self.0, ms, mt, 8);
            lemma_mask_constants();
            lemma_and_le(self.0, ms & mt);
        }
        self.0 = self.0 & (ms & mt);
    }

    /// White may still castle king side.
    pub fn wk(&self) -> (r: bool)
        ensures
            r == self.has_wk(),
    {
        self.0 & WK != 0
    }

    /// White may still castle queen side.
    pub fn wq(&self) -> (r: bool)
        ensures
            r == self.has_wq(),
    {
        self.0 & WQ != 0
    }

    /// Black may still castle king side.
    pub fn bk(&self) -> (r: bool)
        ensures
            r == self.has_bk(),
    {
        self.0 & BK != 0
    }

    /// Black may still castle queen side.
    pub fn bq(&self) -> (r: bool)
        ensures
            r == self.has_bq(),
    {
        self.0 & BQ != 0
    }
}

} // verus!
