//! Zobrist hashing: a position's hash is the exclusive or of pseudo-random keys for
//! its pieces, castling rights, en-passant file and side to move.
use vstd::prelude::*;
use crate::castling_rights::CastlingRights;
use crate::color::Color;
use crate::piece::PieceType;
use crate::position::{Position, pieces_hash};
use crate::square::Square;
use rand::{Rng, SeedableRng};

verus! {

#[derive(Clone, Copy, PartialEq, Eq, Structural, Debug, Hash)]
pub struct ZobristKey(pub u64);

/// The random keys that hashes are made of.
pub struct ZobristKeys {
    /// Key of piece `p` on square `s` at index `p * 64 + s`.
    pub piece_keys: Vec<u64>,
    /// Key of each of the 16 sets of castling rights.
    pub castling_keys: Vec<u64>,
    /// Key of each file of an en-passant square.
    pub en_passant_keys: Vec<u64>,
    /// Key for white to move.
    pub side_key: u64,
}

/// Seeds of the key tables: pieces, castling rights, en-passant files, side.
pub const PIECE_SEED: u64 = 1;
pub const CASTLING_SEED: u64 = 2;
pub const EN_PASSANT_SEED: u64 = 3;
pub const SIDE_SEED: u64 = 4;

/// The first `n` values that rand's `StdRng` seeded with `seed` draws.
pub uninterp spec fn seeded_u64s(seed: u64, n: usize) -> Seq<u64>;

/// `StdRng::seed_from_u64` then `Rng::random_iter::<u64>`, of which the first
/// `n` values are taken. A seeded `StdRng` draws the same values for the
/// same seed, so the values are named by the seed and the count; the
/// iterator does not end, so there are `n` of them.
#[verifier::external_body]
fn seeded_values(seed: u64, n: usize) -> (r: Vec<u64>)
    ensures
        r@ == seeded_u64s(seed, n),
        r@.len() == n,
{
    rand::rngs::StdRng::seed_from_u64(seed).random_iter::<u64>().take(n).collect()
}

/// `Box::leak`: gives up ownership of the box and hands back a reference
/// that lives as long as the program, to the same value.
#[verifier::external_body]
fn leak_box(b: Box<ZobristKeys>) -> (r: &'static ZobristKeys)
    ensures
        *r == *b,
{
    Box::leak(b)
}

impl ZobristKeys {
    /// All tables have their full size.
    pub open spec fn wf(&self) -> bool {
        self.piece_keys@.len() == 768 && self.castling_keys@.len() == 16
            && self.en_passant_keys@.len() == 8
    }

    /// Key of piece `p` on square `s` (0 for the empty marker).
    pub open spec fn piece_key(&self, p: PieceType, s: int) -> u64 {
        if p == PieceType::NoPiece {
            0
        } else {
            self.piece_keys@[p.index() * 64 + s]
        }
    }

    /// Key of an optional en-passant square.
    pub open spec fn en_passant_key(&self, ep: Option<Square>) -> u64 {
        match ep {
            None => 0,
            Some(sq) => self.en_passant_keys@[(sq.0 % 8) as int],
        }
    }

    /// Key of the side to move.
    pub open spec fn side_key_of(&self, side: Color) -> u64 {
        if side == Color::White {
            self.side_key
        } else {
            0
        }
    }

    /// The keys drawn from the generator seeded with the fixed seeds.
    pub open spec fn is_standard(&self) -> bool {
        &&& self.piece_keys@ == seeded_u64s(PIECE_SEED, 768)
        &&& self.castling_keys@ == seeded_u64s(CASTLING_SEED, 16)
        &&& self.en_passant_keys@ == seeded_u64s(EN_PASSANT_SEED, 8)
        &&& self.side_key == seeded_u64s(SIDE_SEED, 1)[0]
    }

    /// The keys drawn from the seeded generator: the same every time.
    pub fn standard() -> (r: ZobristKeys)
        ensures
            r.wf(),
            r.is_standard(),
    {
        let side = seeded_values(SIDE_SEED, 1);
        ZobristKeys {
            piece_keys: seeded_values(PIECE_SEED, 768),
            castling_keys: seeded_values(CASTLING_SEED, 16),
            en_passant_keys: seeded_values(EN_PASSANT_SEED, 8),
            side_key: side[0],
        }
    }

    /// The standard keys, kept for as long as the program runs.
    pub fn standard_static() -> (r: &'static ZobristKeys)
        ensures
            r.wf(),
            r.is_standard(),
    {
        leak_box(Box::new(Self::standard()))
    }
}

impl ZobristKey {
    /// Computes the hash of the position from scratch.
    pub fn generate(position: &Position) -> (r: ZobristKey)
        requires
            position.zobrist_keys.wf(),
            position.castling_rights.0 < 16,
        ensures
            r.0 == position.full_hash(),
    {
        let keys = position.zobrist_keys;
        let mut hash = ZobristKey(0);
        let mut i: u8 = 0;
        while i < 64
            invariant
                i <= 64,
                keys == position.zobrist_keys,
                keys.wf(),
                hash.0 == pieces_hash(*keys, position.bbs, i as nat),
            decreases 64 - i,
        {
            let piece = position.piece_on_square(Square(i));
            hash.mod_piece(keys, piece, Square(i));
            i = i + 1;
        }
        hash.mod_castling(keys, position.castling_rights);
        hash.mod_en_passant(keys, position.en_passant_option);
        hash.mod_side(keys, position.side);
        hash
    }


    /// Toggles the key of `piece` on `square`.
    pub fn mod_piece(&mut self, keys: &ZobristKeys, piece: PieceType, square: Square)
        requires
            keys.wf(),
            square.valid(),
        ensures
            final(self).0 == old(self).0 ^ keys.piece_key(piece, square.0 as int),
    {
        if piece != PieceType::NoPiece {
            let i = piece.to_index() * 64 + square.0 as usize;
            self.0 = self.0 ^ keys.piece_keys[i];
        } else {
            proof {
                crate::bits::lemma_xor_facts(self.0, 0, 0);
            }
        }
    }

    /// Toggles the key of a set of castling rights.
    pub fn mod_castling(&mut self, keys: &ZobristKeys, castling_rights: CastlingRights)
        requires
            keys.wf(),
            castling_rights.0 < 16,
        ensures
            final(self).0 == old(self).0 ^ keys.castling_keys@[castling_rights.0 as int],
    {
        self.0 = self.0 ^ keys.castling_keys[castling_rights.0 as usize];
    }

    /// Toggles the key of an en-passant square, if there is one.
    pub fn mod_en_passant(&mut self, keys: &ZobristKeys, en_passant_option: Option<Square>)
        requires
            keys.wf(),
        ensures
            final(self).0 == old(self).0 ^ keys.en_passant_key(en_passant_option),
    {
        match en_passant_option {
            Some(sq) => {
                self.0 = self.0 ^ keys.en_passant_keys[(sq.0 % 8) as usize];
            },
            None => {
                proof {
                    crate::bits::lemma_xor_facts(self.0, 0, 0);
                }
            },
        }
    }

    /// Toggles the side key when white is to move.
    pub fn mod_side(&mut self, keys: &ZobristKeys, side: Color)
        requires
            keys.wf(),
        ensures
            final(self).0 == old(self).0 ^ keys.side_key_of(side),
    {
        if side == Color::White {
            self.0 = self.0 ^ keys.side_key;
        } else {
            proof {
                crate::bits::lemma_xor_facts(self.0, 0, 0);
            }
        }
    }
}

} // verus!
