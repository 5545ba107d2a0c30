//! The pieces on the board alone: one bitboard per piece and the occupancies.
use vstd::prelude::*;
use crate::bitboard::Bitboard;
use crate::piece::PieceType;
use crate::square::Square;

verus! {

pub struct BoardState {
    pub bbs: [Bitboard; 12],
    pub wo: Bitboard,
    pub bo: Bitboard,
    pub ao: Bitboard,
}

impl BoardState {
    /// Union of the white bitboards.
    pub open spec fn white_occ(self) -> u64 {
        self.bbs@[0].0 | self.bbs@[1].0 | self.bbs@[2].0 | self.bbs@[3].0 | self.bbs@[4].0 | self.bbs@[5].0
    }

    /// Union of the black bitboards.
    pub open spec fn black_occ(self) -> u64 {
        self.bbs@[6].0 | self.bbs@[7].0 | self.bbs@[8].0 | self.bbs@[9].0 | self.bbs@[10].0 | self.bbs@[11].0
    }

    /// The occupancies agree with the piece bitboards.
    pub open spec fn occ_ok(self) -> bool {
        &&& self.wo.0 == self.white_occ()
        &&& self.bo.0 == self.black_occ()
        &&& self.ao.0 == self.wo.0 | self.bo.0
    }

    /// Recomputes the union of both sides' occupancies.
    pub fn merge_occupancies(&mut self)
        ensures
            final(self).ao.0 == old(self).wo.0 | old(self).bo.0,
            final(self).bbs == old(self).bbs,
            final(self).wo == old(self).wo,
            final(self).bo == old(self).bo,
    {
        self.ao = self.wo.or(self.bo);
    }

    /// Recomputes all occupancies from the piece bitboards.
    pub fn populate_occupancies(&mut self)
        ensures
            final(self).occ_ok(),
            final(self).bbs == old(self).bbs,
    {
        self.wo = Bitboard(
            self.bbs[0].0 | self.bbs[1].0 | self.bbs[2].0 | self.bbs[3].0 | self.bbs[4].0
                | self.bbs[5].0,
        );
        self.bo = Bitboard(
            self.bbs[6].0 | self.bbs[7].0 | self.bbs[8].0 | self.bbs[9].0 | self.bbs[10].0
                | self.bbs[11].0,
        );
        self.merge_occupancies();
    }

    /// The pieces at the start of a game.
    pub fn starting_position() -> (r: BoardState)
        ensures
            r.occ_ok(),
            r.bbs@[0].0 == crate::bitboard::WP && r.bbs@[1].0 == crate::bitboard::WN
                && r.bbs@[2].0 == crate::bitboard::WB && r.bbs@[3].0 == crate::bitboard::WR
                && r.bbs@[4].0 == crate::bitboard::WQ && r.bbs@[5].0 == crate::bitboard::WK
                && r.bbs@[6].0 == crate::bitboard::BP && r.bbs@[7].0 == crate::bitboard::BN
                && r.bbs@[8].0 == crate::bitboard::BB && r.bbs@[9].0 == crate::bitboard::BR
                && r.bbs@[10].0 == crate::bitboard::BQ && r.bbs@[11].0 == crate::bitboard::BK,
    {
        let r = BoardState {
            bbs: [
                Bitboard(crate::bitboard::WP),
                Bitboard(crate::bitboard::WN),
                Bitboard(crate::bitboard::WB),
                Bitboard(crate::bitboard::WR),
                Bitboard(crate::bitboard::WQ),
                Bitboard(crate::bitboard::WK),
                Bitboard(crate::bitboard::BP),
                Bitboard(crate::bitboard::BN),
                Bitboard(crate::bitboard::BB),
                Bitboard(crate::bitboard::BR),
                Bitboard(crate::bitboard::BQ),
                Bitboard(crate::bitboard::BK),
            ],
            wo: Bitboard(crate::bitboard::WHITE_STARTING_PIECES),
            bo: Bitboard(crate::bitboard::BLACK_STARTING_PIECES),
            ao: Bitboard(crate::bitboard::ALL_STARTING_PIECES),
        };
        proof {
            assert(0xFF000000000000u64 | 0x4200000000000000u64 | 0x2400000000000000u64
                | 0x8100000000000000u64 | 0x800000000000000u64 | 0x1000000000000000u64
                == 0xFFFF000000000000u64) by (bit_vector);
            assert(0xFF00u64 | 0x42u64 | 0x24u64 | 0x81u64 | 0x8u64 | 0x10u64 == 0xFFFFu64) by (bit_vector);
            assert(0xFFFF000000000000u64 | 0xFFFFu64 == 0xFFFF00000000FFFFu64) by (bit_vector);
        }
        r
    }

    /// An empty board.
    pub fn default() -> (r: BoardState)
        ensures
            r.occ_ok(),
            forall|p: int| 0 <= p < 12 ==> #[trigger] r.bbs@[p].0 == 0,
    {
        let r = BoardState {
            bbs: [Bitboard(0); 12],
            wo: Bitboard(0),
            bo: Bitboard(0),
            ao: Bitboard(0),
        };
        proof {
            assert(0u64 | 0u64 == 0u64) by (bit_vector);
        }
        r
    }

    /// Adds the square to the bitboard of the piece.
    pub fn set_piece(&mut self, piece: PieceType, sq: Square)
        requires
            piece != PieceType::NoPiece,
            sq.valid(),
        ensures
            final(self).bbs@ == old(self).bbs@.update(
                piece.index(),
                Bitboard(old(self).bbs@[piece.index()].0 | (1u64 << sq.0 as u64)),
            ),
            final(self).wo == old(self).wo,
            final(self).bo == old(self).bo,
            final(self).ao == old(self).ao,
    {
        let i = piece.to_index();
        let mut b = self.bbs[i];
        b.set_sq(sq);
        self.bbs[i] = b;
    }
}

} // verus!
