//! Sets of squares packed into 64-bit words: bit `i` stands for square `i`.
use vstd::prelude::*;
use crate::bits::{bit, popcount, lemma_single, lemma_or, lemma_and, lemma_not, lemma_zero_iff};
use crate::square::Square;

verus! {

/// Bitboards of the starting position and of fixed board regions.
pub const FILE_A: u64 = 0x101010101010101;
pub const FILE_H: u64 = 0x8080808080808080;
pub const RANK_8: u64 = 0xFF;
pub const RANK_7: u64 = 0xFF00;
pub const RANK_2: u64 = 0xFF000000000000;
pub const RANK_1: u64 = 0xFF00000000000000;
pub const WHITE_STARTING_PIECES: u64 = 0xFFFF000000000000;
pub const BLACK_STARTING_PIECES: u64 = 0xFFFF;
pub const ALL_STARTING_PIECES: u64 = 0xFFFF00000000FFFF;
pub const EMPTY: u64 = 0x0;
pub const BP: u64 = 0xFF00;
pub const BN: u64 = 0x42;
pub const BB: u64 = 0x24;
pub const BR: u64 = 0x81;
pub const BQ: u64 = 0x8;
pub const BK: u64 = 0x10;
pub const WP: u64 = 0xFF000000000000;
pub const WN: u64 = 0x4200000000000000;
pub const WB: u64 = 0x2400000000000000;
pub const WR: u64 = 0x8100000000000000;
pub const WQ: u64 = 0x800000000000000;
pub const WK: u64 = 0x1000000000000000;
/// Squares between king and rook that must be empty to castle.
pub const W_KING_SIDE_MASK: u64 = 0x6000000000000000;
pub const W_QUEEN_SIDE_MASK: u64 = 0xE00000000000000;
pub const B_KING_SIDE_MASK: u64 = 0x60;
pub const B_QUEEN_SIDE_MASK: u64 = 0xE;

#[derive(Clone, Copy, PartialEq, Eq, Structural, Debug, Hash)]
pub struct Bitboard(pub u64);

impl Bitboard {

    /// Whether the square `i` is in the set.
    #[verifier::inline]
    pub open spec fn has(self, i: int) -> bool {
        bit(self.0, i)
    }

    /// Adds a square.
    pub fn set_sq(&mut self, sq: Square)
        requires
            sq.valid(),
        ensures
            final(self).0 == old(self).0 | (1u64 << sq.0 as u64),
            forall|j: int| #[trigger] final(self).has(j) <==> old(self).has(j) || j == sq.0,
    {
        proof {
            lemma_single(sq.0 as u64);
            lemma_or(self.0, 1u64 << sq.0 as u64);
        }
        self.0 = self.0 | (1u64 << (sq.0 as u64));
    }

    /// Removes a square.
    pub fn pop_sq(&mut self, sq: Square)
        requires
            sq.valid(),
        ensures
            final(self).0 == old(self).0 & !(1u64 << sq.0 as u64),
            forall|j: int| #[trigger] final(self).has(j) <==> old(self).has(j) && j != sq.0,
    {
        proof {
            lemma_single(sq.0 as u64);
            lemma_not(1u64 << sq.0 as u64);
            lemma_and(self.0, !(1u64 << sq.0 as u64));
        }
        self.0 = self.0 & !(1u64 << (sq.0 as u64));
    }

    /// Whether the square is in the set.
    pub fn is_set_sq(&self, sq: Square) -> (r: bool)
        requires
            sq.valid(),
        ensures
            r == self.has(sq.0 as int),
    {
        proof {
            lemma_test_bit(self.0, sq.0 as u64);
        }
        self.0 & (1u64 << (sq.0 as u64)) != 0
    }

    /// Whether the set is empty.
    pub fn is_empty(&self) -> (r: bool)
        ensures
            r == (self.0 == 0),
            r <==> forall|j: int| 0 <= j < 64 ==> !#[trigger] self.has(j),
    {
        proof {
            lemma_zero_iff(self.0);
        }
        self.0 == 0
    }

    /// Whether the set has a square.
    pub fn is_not_empty(&self) -> (r: bool)
        ensures
            r == (self.0 != 0),
            r <==> exists|j: int| 0 <= j < 64 && #[trigger] self.has(j),
    {
        proof {
            lemma_zero_iff(self.0);
        }
        self.0 != 0
    }

    /// Moves every square `amount` squares towards square 0.
    pub fn shift_upwards(&self, amount: usize) -> (r: Bitboard)
        requires
            amount < 64,
        ensures
            r.0 == self.0 >> amount as u64,
    {
        Bitboard(self.0 >> (amount as u64))
    }

    /// Moves every square `amount` squares towards square 63.
    pub fn shift_downwards(&self, amount: usize) -> (r: Bitboard)
        requires
            amount < 64,
        ensures
            r.0 == self.0 << amount as u64,
    {
        Bitboard(self.0 << (amount as u64))
    }

    /// Number of squares in the set.
    pub fn count_bits(self) -> (r: u8)
        ensures
            r == popcount(self.0),
    {
        let mut data = self.0;
        let mut count: u8 = 0;
        proof {
            lemma_popcount_bound(data);
        }
        while data != 0
            invariant
                count + popcount(data) == popcount(self.0),
                popcount(data) + count <= 64,
            decreases data,
        {
            proof {
                lemma_popcount_step(data);
            }
            count = count + (data & 1) as u8;
            assert(data != 0 ==> data >> 1 < data) by (bit_vector);
            data = data >> 1;
        }
        count
    }

    /// Union.
    pub fn or(self, other: Bitboard) -> (r: Bitboard)
        ensures
            r.0 == self.0 | other.0,
            forall|j: int| #[trigger] r.has(j) <==> self.has(j) || other.has(j),
    {
        proof {
            lemma_or(self.0, other.0);
        }
        Bitboard(self.0 | other.0)
    }

    /// Intersection.
    pub fn and(self, other: Bitboard) -> (r: Bitboard)
        ensures
            r.0 == self.0 & other.0,
            forall|j: int| #[trigger] r.has(j) <==> self.has(j) && other.has(j),
    {
        proof {
            lemma_and(self.0, other.0);
        }
        Bitboard(self.0 & other.0)
    }

    /// Complement.
    pub fn not(self) -> (r: Bitboard)
        ensures
            r.0 == !self.0,
            forall|j: int| 0 <= j < 64 ==> (#[trigger] r.has(j) <==> !self.has(j)),
    {
        proof {
            lemma_not(self.0);
        }
        Bitboard(!self.0)
    }

    /// Removes and returns the lowest square of a non-empty set.
    pub fn pop_lsb(&mut self) -> (r: Square)
        requires
            old(self).0 != 0,
        ensures
            r.valid(),
            old(self).has(r.0 as int),
            forall|j: int| 0 <= j < r.0 ==> !#[trigger] old(self).has(j),
            forall|j: int| #[trigger] final(self).has(j) <==> old(self).has(j) && j != r.0,
            final(self).0 < old(self).0,
    {
        let sq = Square::from_bitboard(*self);
        let ghost before = self.0;
        self.pop_sq(sq);
        proof {
            lemma_pop_decreases(before, sq.0 as u64);
        }
        sq
    }
}

proof fn lemma_test_bit(x: u64, i: u64)
    by (bit_vector)
    requires
        i < 64,
    ensures
        (x & (1u64 << i) != 0) <==> ((x >> i) & 1u64 == 1u64),
{
}

proof fn lemma_pop_decreases(x: u64, i: u64)
    requires
        i < 64,
        (x >> i) & 1u64 == 1u64,
    ensures
        x & !(1u64 << i) < x,
{
    assert((i < 64 && (x >> i) & 1u64 == 1u64) ==> x & !(1u64 << i) < x) by (bit_vector);
}

proof fn lemma_popcount_bound(x: u64)
    ensures
        popcount(x) <= 64,
{
    vstd::arithmetic::power2::lemma2_to64_rest();
    lemma_popcount_bound_n(x, 64);
}

proof fn lemma_popcount_bound_n(x: u64, n: nat)
    requires
        n <= 64,
        x < vstd::arithmetic::power2::pow2(n),
    ensures
        popcount(x) <= n,
    decreases n,
{
    vstd::arithmetic::power2::lemma2_to64();
    vstd::arithmetic::power2::lemma2_to64_rest();
    if x != 0 {
        assert(n > 0) by {
            if n == 0 {
                vstd::arithmetic::power2::lemma_pow2_pos(0);
            }
        }
        vstd::arithmetic::power2::lemma_pow2_unfold(n);
        lemma_popcount_bound_n(x / 2, (n - 1) as nat);
    }
}

proof fn lemma_popcount_step(x: u64)
    requires
        x != 0,
    ensures
        popcount(x) == (x & 1) as nat + popcount(x >> 1),
{
    assert(x & 1 == x % 2) by (bit_vector);
    assert(x >> 1 == x / 2) by (bit_vector);
}

} // verus!
