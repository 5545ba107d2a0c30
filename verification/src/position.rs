//! The state of a game: where the pieces stand, who moves, castling rights,
//! the en-passant square, the ply count and the Zobrist hash.
use vstd::prelude::*;
use vstd::std_specs::bits::u64_trailing_zeros;
use crate::bitboard::Bitboard;
use crate::bits::{bit, lemma_or, lemma_zero_iff};
use crate::castling_rights::CastlingRights;
use crate::color::Color;
use crate::bit_move::{BitMove, MoveModel};
use crate::castling_rights::update_mask;
use crate::move_flag::MoveFlag;
use crate::piece::{KNIGHT, BISHOP, ROOK, QUEEN};
use crate::move_masks::{
    MoveMasks, pawn_capture_attack, knight_attack, king_attack, bishop_attack, rook_attack,
};
use crate::piece::PieceType;
use crate::square::Square;
use crate::zobrist::{ZobristKey, ZobristKeys};
use crate::text::{ascii_chars, ascii_string, concat};
use crate::move_generation::{pseudo_legal, lemma_pseudo_legal_applicable, lemma_mover_king_kept};

verus! {

#[derive(Clone, Copy)]
pub struct Position {
    /// One bitboard per piece, indexed by the piece number.
    pub bbs: [Bitboard; 12],
    /// Squares of white pieces.
    pub wo: Bitboard,
    /// Squares of black pieces.
    pub bo: Bitboard,
    /// Squares of all pieces.
    pub ao: Bitboard,
    pub side: Color,
    pub en_passant_option: Option<Square>,
    pub castling_rights: CastlingRights,
    pub ply: u16,
    pub zobrist_key: ZobristKey,
    pub zobrist_keys: &'static ZobristKeys,
}

/// The piece on square `sq` of the board given by the piece bitboards.
pub open spec fn piece_on(bbs: [Bitboard; 12], sq: int) -> PieceType {
    if bit(bbs@[0].0, sq) {
        PieceType::WP
    } else if bit(bbs@[1].0, sq) {
        PieceType::WN
    } else if bit(bbs@[2].0, sq) {
        PieceType::WB
    } else if bit(bbs@[3].0, sq) {
        PieceType::WR
    } else if bit(bbs@[4].0, sq) {
        PieceType::WQ
    } else if bit(bbs@[5].0, sq) {
        PieceType::WK
    } else if bit(bbs@[6].0, sq) {
        PieceType::BP
    } else if bit(bbs@[7].0, sq) {
        PieceType::BN
    } else if bit(bbs@[8].0, sq) {
        PieceType::BB
    } else if bit(bbs@[9].0, sq) {
        PieceType::BR
    } else if bit(bbs@[10].0, sq) {
        PieceType::BQ
    } else if bit(bbs@[11].0, sq) {
        PieceType::BK
    } else {
        PieceType::NoPiece
    }
}


/// No square holds two pieces of the board given by the piece bitboards.
pub open spec fn board_ok_bbs(bbs: [Bitboard; 12]) -> bool {
    forall|p: int, sq: int|
        0 <= p < 12 && #[trigger] bit(bbs@[p].0, sq) ==> piece_on(bbs, sq) == PieceType::of_index(p)
}


/// Exclusive or of the keys of the pieces on squares `0` to `n - 1`.
pub open spec fn pieces_hash(keys: ZobristKeys, bbs: [Bitboard; 12], n: nat) -> u64
    decreases n,
{
    if n == 0 {
        0
    } else {
        pieces_hash(keys, bbs, (n - 1) as nat) ^ keys.piece_key(piece_on(bbs, n - 1), n - 1)
    }
}


/// Exclusive-or identities used to follow hashes through updates.
proof fn lemma_xor_rules(a: u64, b: u64, c: u64, d: u64)
    by (bit_vector)
    ensures
        (a ^ b) ^ (b ^ c) == a ^ c,
        (a ^ d) ^ b == (a ^ b) ^ d,
        a ^ 0u64 == a,
        0u64 ^ 0u64 == 0u64,
        (a ^ c) ^ (b ^ (0u64 ^ c)) == a ^ b,
        (a ^ c) ^ (b ^ (c ^ 0u64)) == a ^ b,
        (a ^ c) ^ (b ^ (d ^ d)) == (a ^ b) ^ c,
        (a ^ b == 0u64) == (a == b),
{
}

/// Changing the piece on one square changes the pieces hash by the keys of
/// the old and the new piece there.
pub proof fn lemma_pieces_hash_change(keys: ZobristKeys, b1: [Bitboard; 12], b2: [Bitboard; 12], sq: int, n: nat)
    requires
        0 <= sq,
        forall|s: int| s != sq ==> #[trigger] piece_on(b1, s) == piece_on(b2, s),
    ensures
        pieces_hash(keys, b2, n) == pieces_hash(keys, b1, n) ^ (if sq < n {
            keys.piece_key(piece_on(b1, sq), sq) ^ keys.piece_key(piece_on(b2, sq), sq)
        } else {
            0u64
        }),
    decreases n,
{
    let k1 = keys.piece_key(piece_on(b1, sq), sq);
    let k2 = keys.piece_key(piece_on(b2, sq), sq);
    if n == 0 {
        lemma_xor_rules(0, 0, 0, 0);
    } else {
        let m = (n - 1) as nat;
        lemma_pieces_hash_change(keys, b1, b2, sq, m);
        let a = pieces_hash(keys, b1, m);
        if m == sq {
            lemma_xor_rules(a, 0, 0, 0);
            lemma_xor_rules(a, k1, k2, 0);
        } else if sq < m {
            assert(piece_on(b1, m as int) == piece_on(b2, m as int));
            lemma_xor_rules(a, keys.piece_key(piece_on(b1, m as int), m as int), 0, k1 ^ k2);
        } else {
            assert(piece_on(b1, m as int) == piece_on(b2, m as int));
            lemma_xor_rules(a, 0, 0, 0);
            lemma_xor_rules(a ^ keys.piece_key(piece_on(b1, m as int), m as int), 0, 0, 0);
        }
    }
}

/// The exclusive-or bookkeeping of a move: the hash is toggled by the old
/// and the new state keys, and the pieces change the pieces hash and the
/// key alike.
proof fn lemma_xor_move(k0: u64, p0: u64, c0: u64, e0: u64, s0: u64, k2: u64, p2: u64, c3: u64, e3: u64, s3: u64)
    by (bit_vector)
    requires
        k2 ^ p2 == (k0 ^ s0 ^ c0 ^ e0) ^ p0,
    ensures
        (k2 ^ s3 ^ c3 ^ e3) ^ (p2 ^ c3 ^ e3 ^ s3) == k0 ^ (p0 ^ c0 ^ e0 ^ s0),
{
}

/// Where the pieces stand at the start of a game.
pub open spec fn start_piece(sq: int) -> PieceType {
    if 48 <= sq < 56 {
        PieceType::WP
    } else if sq == 57 || sq == 62 {
        PieceType::WN
    } else if sq == 58 || sq == 61 {
        PieceType::WB
    } else if sq == 56 || sq == 63 {
        PieceType::WR
    } else if sq == 59 {
        PieceType::WQ
    } else if sq == 60 {
        PieceType::WK
    } else if 8 <= sq < 16 {
        PieceType::BP
    } else if sq == 1 || sq == 6 {
        PieceType::BN
    } else if sq == 2 || sq == 5 {
        PieceType::BB
    } else if sq == 0 || sq == 7 {
        PieceType::BR
    } else if sq == 3 {
        PieceType::BQ
    } else if sq == 4 {
        PieceType::BK
    } else {
        PieceType::NoPiece
    }
}

proof fn lemma_start_bits(sq: u64)
    by (bit_vector)
    requires
        sq < 64,
    ensures
        ((0xFF000000000000u64 >> sq) & 1u64 == 1u64) == (48 <= sq && sq < 56),
        ((0x4200000000000000u64 >> sq) & 1u64 == 1u64) == (sq == 57 || sq == 62),
        ((0x2400000000000000u64 >> sq) & 1u64 == 1u64) == (sq == 58 || sq == 61),
        ((0x8100000000000000u64 >> sq) & 1u64 == 1u64) == (sq == 56 || sq == 63),
        ((0x800000000000000u64 >> sq) & 1u64 == 1u64) == (sq == 59),
        ((0x1000000000000000u64 >> sq) & 1u64 == 1u64) == (sq == 60),
        ((0xFF00u64 >> sq) & 1u64 == 1u64) == (8 <= sq && sq < 16),
        ((0x42u64 >> sq) & 1u64 == 1u64) == (sq == 1 || sq == 6),
        ((0x24u64 >> sq) & 1u64 == 1u64) == (sq == 2 || sq == 5),
        ((0x81u64 >> sq) & 1u64 == 1u64) == (sq == 0 || sq == 7),
        ((0x8u64 >> sq) & 1u64 == 1u64) == (sq == 3),
        ((0x10u64 >> sq) & 1u64 == 1u64) == (sq == 4),
{
}

impl Position {
    /// Bitboard of the piece with number `p`.
    pub open spec fn bb(self, p: int) -> u64 {
        self.bbs@[p].0
    }

    /// The piece on square `sq`, or the empty marker.
    #[verifier::inline]
    pub open spec fn piece_at(self, sq: int) -> PieceType {
        piece_on(self.bbs, sq)
    }

    /// Union of the white bitboards.
    pub open spec fn white_occ(self) -> u64 {
        self.bb(0) | self.bb(1) | self.bb(2) | self.bb(3) | self.bb(4) | self.bb(5)
    }

    /// Union of the black bitboards.
    pub open spec fn black_occ(self) -> u64 {
        self.bb(6) | self.bb(7) | self.bb(8) | self.bb(9) | self.bb(10) | self.bb(11)
    }

    /// No square holds two pieces.
    #[verifier::inline]
    pub open spec fn board_ok(self) -> bool {
        board_ok_bbs(self.bbs)
    }

    /// The occupancy bitboards agree with the piece bitboards.
    pub open spec fn occ_ok(self) -> bool {
        &&& self.wo.0 == self.white_occ()
        &&& self.bo.0 == self.black_occ()
        &&& self.ao.0 == self.wo.0 | self.bo.0
    }

    /// The position is consistent.
    pub open spec fn wf(self) -> bool {
        &&& self.board_ok()
        &&& self.occ_ok()
        &&& (self.en_passant_option matches Some(sq) ==> sq.valid())
        &&& self.castling_rights.0 < 16
        &&& self.zobrist_keys.wf()
    }

    /// Both sides have a king.
    pub open spec fn has_kings(self) -> bool {
        self.bb(5) != 0 && self.bb(11) != 0
    }

    /// Number of the king of `side`.
    pub open spec fn king_index(side: Color) -> int {
        match side {
            Color::White => 5,
            Color::Black => 11,
        }
    }

    /// The square of the king of `side` (the lowest, were there several).
    pub open spec fn king_square(self, side: Color) -> int {
        u64_trailing_zeros(self.bb(Self::king_index(side))) as int
    }

    /// A piece of the side other than `defending_side` on `t` attacks `sq`.
    pub open spec fn attacks_from(self, defending_side: Color, sq: int, t: int) -> bool {
        let e = defending_side.other().index() * 6;
        ||| pawn_capture_attack(defending_side, sq, t) && bit(self.bb(e), t)
        ||| knight_attack(sq, t) && bit(self.bb(e + 1), t)
        ||| bishop_attack(sq, t, self.ao.0) && bit(self.bb(e + 2), t)
        ||| rook_attack(sq, t, self.ao.0) && bit(self.bb(e + 3), t)
        ||| (bishop_attack(sq, t, self.ao.0) || rook_attack(sq, t, self.ao.0)) && bit(
            self.bb(e + 4),
            t,
        )
        ||| king_attack(sq, t) && bit(self.bb(e + 5), t)
    }

    /// Square `sq` is attacked by a piece of the side other than `defending_side`.
    pub open spec fn attacked(self, defending_side: Color, sq: int) -> bool {
        exists|t: int| 0 <= t < 64 && #[trigger] self.attacks_from(defending_side, sq, t)
    }

    /// The king of `side` is attacked.
    pub open spec fn spec_in_check(self, side: Color) -> bool {
        self.attacked(side, self.king_square(side))
    }

    /// In a consistent position each piece bitboard holds exactly the squares
    /// where that piece stands, and the occupancies hold the squares of each side.
    pub proof fn lemma_board(self)
        requires
            self.wf(),
        ensures
            forall|p: int, sq: int|
                0 <= p < 12 ==> (#[trigger] bit(self.bb(p), sq) <==> self.piece_at(sq)
                    == PieceType::of_index(p)),
            forall|sq: int| #[trigger]
                bit(self.wo.0, sq) <==> (self.piece_at(sq) != PieceType::NoPiece && self.piece_at(
                    sq,
                ).is_of(Color::White)),
            forall|sq: int| #[trigger]
                bit(self.bo.0, sq) <==> (self.piece_at(sq) != PieceType::NoPiece && self.piece_at(
                    sq,
                ).is_of(Color::Black)),
            forall|sq: int| #[trigger]
                bit(self.ao.0, sq) <==> self.piece_at(sq) != PieceType::NoPiece,
    {
        lemma_or(self.bb(0), self.bb(1));
        lemma_or(self.bb(0) | self.bb(1), self.bb(2));
        lemma_or(self.bb(0) | self.bb(1) | self.bb(2), self.bb(3));
        lemma_or(self.bb(0) | self.bb(1) | self.bb(2) | self.bb(3), self.bb(4));
        lemma_or(self.bb(0) | self.bb(1) | self.bb(2) | self.bb(3) | self.bb(4), self.bb(5));
        lemma_or(self.bb(6), self.bb(7));
        lemma_or(self.bb(6) | self.bb(7), self.bb(8));
        lemma_or(self.bb(6) | self.bb(7) | self.bb(8), self.bb(9));
        lemma_or(self.bb(6) | self.bb(7) | self.bb(8) | self.bb(9), self.bb(10));
        lemma_or(self.bb(6) | self.bb(7) | self.bb(8) | self.bb(9) | self.bb(10), self.bb(11));
        lemma_or(self.wo.0, self.bo.0);
        assert forall|p: int, sq: int|
            0 <= p < 12 implies (#[trigger] bit(self.bb(p), sq) <==> self.piece_at(sq)
                == PieceType::of_index(p)) by {
            if self.piece_at(sq) == PieceType::of_index(p) {
                assert(bit(self.bb(p), sq));
            }
        }
    }


    /// The hash key with the keys of the pieces taken out: what the key of
    /// the side, castling rights and en-passant square must account for.
    pub open spec fn key_offset(self) -> u64 {
        self.zobrist_key.0 ^ pieces_hash(*self.zobrist_keys, self.bbs, 64)
    }

    /// Every field but the piece bitboards, the occupancies and the hash is the same.
    pub open spec fn same_state(self, other: Position) -> bool {
        &&& self.side == other.side
        &&& self.en_passant_option == other.en_passant_option
        &&& self.castling_rights == other.castling_rights
        &&& self.ply == other.ply
        &&& self.zobrist_keys == other.zobrist_keys
    }

    /// Puts `piece` on `sq`, where it does not stand yet, and updates the
    /// hash. On a consistent board whose square `sq` is empty the board stays
    /// consistent.
    pub fn set_piece(&mut self, piece: PieceType, sq: Square)
        requires
            old(self).zobrist_keys.wf(),
            sq.valid(),
            piece != PieceType::NoPiece,
            !bit(old(self).bb(piece.index()), sq.0 as int),
        ensures
            old(self).board_ok() && old(self).piece_at(sq.0 as int) == PieceType::NoPiece ==> final(self).board_ok(),
            old(self).board_ok() && old(self).piece_at(sq.0 as int) == PieceType::NoPiece ==> forall|s: int| #[trigger]
                final(self).piece_at(s) == (if s == sq.0 { piece } else { old(self).piece_at(s) }),
            final(self).bbs@ == old(self).bbs@.update(
                piece.index(),
                Bitboard(old(self).bb(piece.index()) | (1u64 << sq.0 as u64)),
            ),
            final(self).zobrist_key.0 == old(self).zobrist_key.0 ^ old(self).zobrist_keys.piece_key(
                piece,
                sq.0 as int,
            ),
            old(self).board_ok() && old(self).piece_at(sq.0 as int) == PieceType::NoPiece ==> final(self).key_offset()
                == old(self).key_offset(),
            final(self).same_state(*old(self)),
            final(self).wo == old(self).wo,
            final(self).bo == old(self).bo,
            final(self).ao == old(self).ao,
    {
        let i = piece.to_index();
        let mut b = self.bbs[i];
        b.set_sq(sq);
        self.bbs[i] = b;
        let keys = self.zobrist_keys;
        self.zobrist_key.mod_piece(keys, piece, sq);
        proof {
            let o = *old(self);
            assert forall|q: int| 0 <= q < 12 && q != i implies self.bb(q) == o.bb(q) by {}
            if o.board_ok() && o.piece_at(sq.0 as int) == PieceType::NoPiece {
                assert forall|s: int| #[trigger]
                    self.piece_at(s) == (if s == sq.0 { piece } else { o.piece_at(s) }) by {
                    if s != sq.0 {
                        assert(bit(self.bb(i as int), s) == bit(o.bb(i as int), s));
                    } else {
                        assert(forall|q: int| 0 <= q < 12 ==> !#[trigger] bit(o.bb(q), s));
                    }
                }
                assert forall|p: int, s: int| 0 <= p < 12 && #[trigger] bit(self.bb(p), s) implies self.piece_at(s)
                    == PieceType::of_index(p) by {
                    if s != sq.0 {
                        assert(bit(self.bb(p), s) == bit(o.bb(p), s));
                    } else {
                        crate::piece::law_index_round_trip(piece);
                        if p != i {
                            assert(bit(o.bb(p), s));
                        }
                    }
                }
                let keys = *o.zobrist_keys;
                lemma_pieces_hash_change(keys, o.bbs, self.bbs, sq.0 as int, 64);
                lemma_xor_rules(o.zobrist_key.0, pieces_hash(keys, o.bbs, 64), keys.piece_key(piece, sq.0 as int), 0);
            }
        }
    }

    /// Takes `piece` off `sq` if it stands there, and toggles its key in the
    /// hash. On a consistent board the board stays consistent.
    pub fn remove_piece(&mut self, piece: PieceType, sq: Square)
        requires
            old(self).zobrist_keys.wf(),
            sq.valid(),
            piece != PieceType::NoPiece,
        ensures
            old(self).board_ok() ==> final(self).board_ok(),
            old(self).board_ok() ==> forall|s: int| #[trigger]
                final(self).piece_at(s) == (if s == sq.0 && old(self).piece_at(s) == piece {
                    PieceType::NoPiece
                } else {
                    old(self).piece_at(s)
                }),
            final(self).bbs@ == old(self).bbs@.update(
                piece.index(),
                Bitboard(old(self).bb(piece.index()) & !(1u64 << sq.0 as u64)),
            ),
            final(self).zobrist_key.0 == old(self).zobrist_key.0 ^ old(self).zobrist_keys.piece_key(
                piece,
                sq.0 as int,
            ),
            old(self).board_ok() && old(self).piece_at(sq.0 as int) == piece ==> final(self).key_offset()
                == old(self).key_offset(),
            old(self).board_ok() && old(self).piece_at(sq.0 as int) != piece ==> final(self).key_offset()
                == old(self).key_offset() ^ old(self).zobrist_keys.piece_key(piece, sq.0 as int),
            final(self).same_state(*old(self)),
            final(self).wo == old(self).wo,
            final(self).bo == old(self).bo,
            final(self).ao == old(self).ao,
    {
        let i = piece.to_index();
        let mut b = self.bbs[i];
        b.pop_sq(sq);
        self.bbs[i] = b;
        let keys = self.zobrist_keys;
        self.zobrist_key.mod_piece(keys, piece, sq);
        proof {
            let o = *old(self);
            assert forall|q: int| 0 <= q < 12 && q != i implies self.bb(q) == o.bb(q) by {}
            if o.board_ok() {
                assert forall|s: int| #[trigger]
                    self.piece_at(s) == (if s == sq.0 && o.piece_at(s) == piece {
                        PieceType::NoPiece
                    } else {
                        o.piece_at(s)
                    }) by {
                    if s != sq.0 {
                        assert(bit(self.bb(i as int), s) == bit(o.bb(i as int), s));
                    } else {
                        crate::piece::law_index_round_trip(piece);
                        assert(!bit(self.bb(i as int), s));
                        if o.piece_at(s) == piece {
                            assert forall|q: int| 0 <= q < 12 && q != i implies !#[trigger] bit(
                                o.bb(q),
                                s,
                            ) by {
                                if bit(o.bb(q), s) {
                                    assert(o.piece_at(s) == PieceType::of_index(q));
                                }
                            }
                        } else {
                            assert(!bit(o.bb(i as int), s));
                        }
                    }
                }
                assert forall|p: int, s: int| 0 <= p < 12 && #[trigger] bit(self.bb(p), s) implies self.piece_at(s)
                    == PieceType::of_index(p) by {
                    assert(bit(o.bb(p), s));
                    if s == sq.0 {
                        crate::piece::law_index_round_trip(piece);
                    }
                }
                let keys = *o.zobrist_keys;
                lemma_pieces_hash_change(keys, o.bbs, self.bbs, sq.0 as int, 64);
                lemma_xor_rules(
                    o.zobrist_key.0,
                    pieces_hash(keys, o.bbs, 64),
                    keys.piece_key(piece, sq.0 as int),
                    keys.piece_key(o.piece_at(sq.0 as int), sq.0 as int),
                );
            }
        }
    }


    /// The move can be played on this position without corrupting it: it
    /// starts on the square of its piece, its capture is what stands on the
    /// target, and the squares its flag touches are on the board and free.
    pub open spec fn applicable(self, m: MoveModel) -> bool {
        &&& 0 <= m.source < 64
        &&& 0 <= m.target < 64
        &&& m.source != m.target
        &&& m.piece != PieceType::NoPiece
        &&& self.piece_at(m.source) == m.piece
        &&& m.capture == self.piece_at(m.target)
        &&& match m.flag {
            Some(MoveFlag::WDoublePawn) | Some(MoveFlag::WEnPassant) => m.target < 56,
            Some(MoveFlag::BDoublePawn) | Some(MoveFlag::BEnPassant) => m.target >= 8,
            Some(MoveFlag::WKCastle) => self.piece_at(61) == PieceType::NoPiece && m.target != 61
                && m.target != 63,
            Some(MoveFlag::WQCastle) => self.piece_at(59) == PieceType::NoPiece && m.target != 59
                && m.target != 56,
            Some(MoveFlag::BKCastle) => self.piece_at(5) == PieceType::NoPiece && m.target != 5
                && m.target != 7,
            Some(MoveFlag::BQCastle) => self.piece_at(3) == PieceType::NoPiece && m.target != 3
                && m.target != 0,
            _ => true,
        }
    }

    /// The piece that stands on the target after the move: the promoted
    /// piece of the side to move, or the moving piece.
    pub open spec fn moved_piece(self, m: MoveModel) -> PieceType {
        match m.flag {
            Some(MoveFlag::PromoN) => PieceType::of_side_kind(self.side, KNIGHT as int),
            Some(MoveFlag::PromoB) => PieceType::of_side_kind(self.side, BISHOP as int),
            Some(MoveFlag::PromoR) => PieceType::of_side_kind(self.side, ROOK as int),
            Some(MoveFlag::PromoQ) => PieceType::of_side_kind(self.side, QUEEN as int),
            _ => m.piece,
        }
    }

    /// The piece on `sq` after the move `m`.
    pub open spec fn after(self, m: MoveModel, sq: int) -> PieceType {
        if sq == m.target {
            self.moved_piece(m)
        } else if sq == m.source {
            PieceType::NoPiece
        } else {
            match m.flag {
                Some(MoveFlag::WEnPassant) => if sq == m.target + 8 && self.piece_at(sq)
                    == PieceType::BP {
                    PieceType::NoPiece
                } else {
                    self.piece_at(sq)
                },
                Some(MoveFlag::BEnPassant) => if sq == m.target - 8 && self.piece_at(sq)
                    == PieceType::WP {
                    PieceType::NoPiece
                } else {
                    self.piece_at(sq)
                },
                Some(MoveFlag::WKCastle) => if sq == 61 {
                    PieceType::WR
                } else if sq == 63 && self.piece_at(sq) == PieceType::WR {
                    PieceType::NoPiece
                } else {
                    self.piece_at(sq)
                },
                Some(MoveFlag::WQCastle) => if sq == 59 {
                    PieceType::WR
                } else if sq == 56 && self.piece_at(sq) == PieceType::WR {
                    PieceType::NoPiece
                } else {
                    self.piece_at(sq)
                },
                Some(MoveFlag::BKCastle) => if sq == 5 {
                    PieceType::BR
                } else if sq == 7 && self.piece_at(sq) == PieceType::BR {
                    PieceType::NoPiece
                } else {
                    self.piece_at(sq)
                },
                Some(MoveFlag::BQCastle) => if sq == 3 {
                    PieceType::BR
                } else if sq == 0 && self.piece_at(sq) == PieceType::BR {
                    PieceType::NoPiece
                } else {
                    self.piece_at(sq)
                },
                _ => self.piece_at(sq),
            }
        }
    }

    /// The en-passant square after the move: the square a double pawn push passed.
    pub open spec fn en_passant_after(m: MoveModel) -> Option<Square> {
        match m.flag {
            Some(MoveFlag::WDoublePawn) => Some(Square((m.target + 8) as u8)),
            Some(MoveFlag::BDoublePawn) => Some(Square((m.target - 8) as u8)),
            _ => None,
        }
    }

    /// Toggles the hash keys of the side to move, the castling rights and
    /// the en-passant square.
    pub fn zobrist_mods(&mut self)
        requires
            old(self).zobrist_keys.wf(),
            old(self).castling_rights.0 < 16,
        ensures
            final(self).zobrist_key.0 == old(self).zobrist_key.0 ^ old(self).zobrist_keys.side_key_of(
                old(self).side,
            ) ^ old(self).zobrist_keys.castling_keys@[old(self).castling_rights.0 as int]
                ^ old(self).zobrist_keys.en_passant_key(old(self).en_passant_option),
            final(self).bbs == old(self).bbs,
            final(self).wo == old(self).wo,
            final(self).bo == old(self).bo,
            final(self).ao == old(self).ao,
            final(self).same_state(*old(self)),
    {
        let keys = self.zobrist_keys;
        self.zobrist_key.mod_side(keys, self.side);
        self.zobrist_key.mod_castling(keys, self.castling_rights);
        self.zobrist_key.mod_en_passant(keys, self.en_passant_option);
    }


    /// The hash key `k` with the keys of a side to move, of castling rights
    /// and of an en-passant square toggled, in that order.
    pub open spec fn toggle_state_keys(keys: ZobristKeys, k: u64, side: Color, castling: int, ep: Option<Square>) -> u64 {
        k ^ keys.side_key_of(side) ^ keys.castling_keys@[castling] ^ keys.en_passant_key(ep)
    }

    /// The hash key `k` once the captured piece of `m` is taken off its
    /// target and the moving piece goes from its source to its target.
    pub open spec fn displace_key(keys: ZobristKeys, k: u64, m: MoveModel) -> u64 {
        let k1 = if m.capture != PieceType::NoPiece {
            k ^ keys.piece_key(m.capture, m.target)
        } else {
            k
        };
        k1 ^ keys.piece_key(m.piece, m.source) ^ keys.piece_key(m.piece, m.target)
    }

    /// The hash key `k` with the keys of the pieces that the en-passant or
    /// castling part of `m` moves toggled: the pawn taken en passant, the
    /// castling rook on its corner and on the square it moves to.
    pub open spec fn special_key(keys: ZobristKeys, k: u64, m: MoveModel) -> u64 {
        match m.flag {
            Some(MoveFlag::WEnPassant) => k ^ keys.piece_key(PieceType::BP, m.target + 8),
            Some(MoveFlag::BEnPassant) => k ^ keys.piece_key(PieceType::WP, m.target - 8),
            Some(MoveFlag::WKCastle) => k ^ keys.piece_key(PieceType::WR, 63) ^ keys.piece_key(PieceType::WR, 61),
            Some(MoveFlag::WQCastle) => k ^ keys.piece_key(PieceType::WR, 56) ^ keys.piece_key(PieceType::WR, 59),
            Some(MoveFlag::BKCastle) => k ^ keys.piece_key(PieceType::BR, 7) ^ keys.piece_key(PieceType::BR, 5),
            Some(MoveFlag::BQCastle) => k ^ keys.piece_key(PieceType::BR, 0) ^ keys.piece_key(PieceType::BR, 3),
            _ => k,
        }
    }

    /// The hash key `k` once the special part of `m`, played by `mover`, is
    /// carried out: a promotion swaps the pawn's key on the target for the
    /// promoted piece's.
    pub open spec fn flag_key(keys: ZobristKeys, k: u64, mover: Color, m: MoveModel) -> u64 {
        match m.flag {
            Some(MoveFlag::PromoQ) | Some(MoveFlag::PromoR) | Some(MoveFlag::PromoN) | Some(MoveFlag::PromoB) =>
                k ^ keys.piece_key(m.piece, m.target) ^ keys.piece_key(Self::landed(mover, m), m.target),
            _ => Self::special_key(keys, k, m),
        }
    }

    /// The hash key once `m` is played on `self`: the keys of the old side,
    /// castling rights and en-passant square go out, the keys of the pieces
    /// that move change, and the keys of the new side, castling rights and
    /// en-passant square come in.
    pub open spec fn key_after_move(self, m: MoveModel) -> u64 {
        let keys = *self.zobrist_keys;
        let k0 = Self::toggle_state_keys(
            keys,
            self.zobrist_key.0,
            self.side,
            self.castling_rights.0 as int,
            self.en_passant_option,
        );
        let k1 = Self::flag_key(keys, Self::displace_key(keys, k0, m), self.side, m);
        Self::toggle_state_keys(
            keys,
            k1,
            self.side.other(),
            (self.castling_rights.0 & (update_mask(m.source) & update_mask(m.target))) as int,
            Self::en_passant_after(m),
        )
    }

    /// The hash key `k` once the piece that `mover` moved with `m` goes back
    /// from its target to its source, a promoted piece leaves the target and
    /// the captured piece comes back to it.
    pub open spec fn undo_displace_key(keys: ZobristKeys, k: u64, mover: Color, m: MoveModel) -> u64 {
        let k1 = k ^ keys.piece_key(m.piece, m.source) ^ keys.piece_key(m.piece, m.target);
        let k2 = match m.flag {
            Some(MoveFlag::PromoQ) | Some(MoveFlag::PromoR) | Some(MoveFlag::PromoN) | Some(MoveFlag::PromoB) =>
                k1 ^ keys.piece_key(Self::landed(mover, m), m.target),
            _ => k1,
        };
        if m.capture != PieceType::NoPiece {
            k2 ^ keys.piece_key(m.capture, m.target)
        } else {
            k2
        }
    }

    /// The hash key once `m` is taken back on `self`: only the keys of the
    /// pieces that move back change; those of the side, castling rights and
    /// en-passant square stay as they are.
    pub open spec fn key_after_undo(self, m: MoveModel) -> u64 {
        let keys = *self.zobrist_keys;
        Self::special_key(keys, Self::undo_displace_key(keys, self.zobrist_key.0, self.side.other(), m), m)
    }

    /// The piece on `sq` once the moving piece has left its source for the
    /// target and the captured piece is gone.
    pub open spec fn displaced(self, m: MoveModel, sq: int) -> PieceType {
        if sq == m.target {
            m.piece
        } else if sq == m.source {
            PieceType::NoPiece
        } else {
            self.piece_at(sq)
        }
    }

    /// The pieces that the special part of `m` takes off the board stand
    /// where it takes them from: the pawn taken en passant, the castling rook.
    pub open spec fn clears_present(self, m: MoveModel) -> bool {
        match m.flag {
            Some(MoveFlag::WEnPassant) => self.displaced(m, m.target + 8) == PieceType::BP,
            Some(MoveFlag::BEnPassant) => self.displaced(m, m.target - 8) == PieceType::WP,
            Some(MoveFlag::WKCastle) => self.displaced(m, 63) == PieceType::WR,
            Some(MoveFlag::WQCastle) => self.displaced(m, 56) == PieceType::WR,
            Some(MoveFlag::BKCastle) => self.displaced(m, 7) == PieceType::BR,
            Some(MoveFlag::BQCastle) => self.displaced(m, 0) == PieceType::BR,
            _ => true,
        }
    }

    /// Moves the piece and takes the captured one.
    fn displace(&mut self, source: Square, target: Square, piece: PieceType, capture: PieceType, Ghost(m): Ghost<MoveModel>)
        requires
            old(self).board_ok(),
            old(self).zobrist_keys.wf(),
            source.valid(),
            target.valid(),
            m.source == source.0,
            m.target == target.0,
            m.piece == piece,
            m.capture == capture,
            old(self).applicable(m),
        ensures
            final(self).board_ok(),
            forall|s: int| #[trigger] final(self).piece_at(s) == old(self).displaced(m, s),
            final(self).same_state(*old(self)),
            final(self).key_offset() == old(self).key_offset(),
            final(self).zobrist_key.0 == Self::displace_key(*old(self).zobrist_keys, old(self).zobrist_key.0, m),
    {
        if capture != PieceType::NoPiece {
            self.remove_piece(capture, target);
        }
        self.remove_piece(piece, source);
        self.set_piece(piece, target);
    }

    /// Replaces the piece on `target` by `promoted`.
    fn set_promotion(&mut self, piece: PieceType, promoted: PieceType, target: Square)
        requires
            old(self).board_ok(),
            old(self).zobrist_keys.wf(),
            target.valid(),
            piece != PieceType::NoPiece,
            promoted != PieceType::NoPiece,
            old(self).piece_at(target.0 as int) == piece,
        ensures
            final(self).board_ok(),
            forall|s: int| #[trigger]
                final(self).piece_at(s) == (if s == target.0 { promoted } else { old(self).piece_at(s) }),
            final(self).same_state(*old(self)),
            final(self).key_offset() == old(self).key_offset(),
            final(self).zobrist_key.0 == old(self).zobrist_key.0 ^ old(self).zobrist_keys.piece_key(piece, target.0 as int)
                ^ old(self).zobrist_keys.piece_key(promoted, target.0 as int),
    {
        self.remove_piece(piece, target);
        self.set_piece(promoted, target);
    }

    /// Moves a castling rook from `from` to the empty square `to`.
    fn castle_rook(&mut self, rook: PieceType, from: Square, to: Square)
        requires
            old(self).board_ok(),
            old(self).zobrist_keys.wf(),
            from.valid(),
            to.valid(),
            from != to,
            rook != PieceType::NoPiece,
            old(self).piece_at(to.0 as int) == PieceType::NoPiece,
        ensures
            final(self).board_ok(),
            forall|s: int| #[trigger]
                final(self).piece_at(s) == (if s == to.0 {
                    rook
                } else if s == from.0 && old(self).piece_at(s) == rook {
                    PieceType::NoPiece
                } else {
                    old(self).piece_at(s)
                }),
            final(self).same_state(*old(self)),
            old(self).piece_at(from.0 as int) == rook ==> final(self).key_offset() == old(self).key_offset(),
            final(self).zobrist_key.0 == old(self).zobrist_key.0 ^ old(self).zobrist_keys.piece_key(rook, from.0 as int)
                ^ old(self).zobrist_keys.piece_key(rook, to.0 as int),
    {
        self.remove_piece(rook, from);
        self.set_piece(rook, to);
    }


    /// Removes the pawn taken en passant, or records the square a double
    /// push passed.
    fn apply_pawn_flag(&mut self, target: Square, flag: MoveFlag, Ghost(o): Ghost<Position>, Ghost(m): Ghost<MoveModel>)
        requires
            old(self).board_ok(),
            old(self).zobrist_keys.wf(),
            target.valid(),
            m.target == target.0,
            m.flag == Some(flag),
            flag == MoveFlag::WEnPassant || flag == MoveFlag::BEnPassant || flag == MoveFlag::WDoublePawn || flag == MoveFlag::BDoublePawn,
            o.applicable(m),
            forall|s: int| #[trigger] old(self).piece_at(s) == o.displaced(m, s),
        ensures
            final(self).board_ok(),
            forall|s: int| #[trigger] final(self).piece_at(s) == o.after(m, s),
            final(self).side == old(self).side,
            final(self).castling_rights == old(self).castling_rights,
            final(self).ply == old(self).ply,
            final(self).zobrist_keys == old(self).zobrist_keys,
            final(self).en_passant_option == Position::en_passant_after(m),
            o.clears_present(m) ==> final(self).key_offset() == old(self).key_offset(),
            final(self).zobrist_key.0 == Self::flag_key(*old(self).zobrist_keys, old(self).zobrist_key.0, o.side, m),
    {
        match flag {
            MoveFlag::WDoublePawn => {
                self.en_passant_option = Some(target.below());
                assert forall|s: int| #[trigger] self.piece_at(s) == o.after(m, s) by {
                    assert(old(self).piece_at(s) == o.displaced(m, s));
                }
            },
            MoveFlag::BDoublePawn => {
                self.en_passant_option = Some(target.above());
                assert forall|s: int| #[trigger] self.piece_at(s) == o.after(m, s) by {
                    assert(old(self).piece_at(s) == o.displaced(m, s));
                }
            },
            MoveFlag::WEnPassant => {
                self.en_passant_option = None;
                self.remove_piece(PieceType::BP, target.below());
            },
            _ => {
                self.en_passant_option = None;
                self.remove_piece(PieceType::WP, target.above());
            },
        }
    }

    /// Moves the rook of a castling move.
    fn apply_castle(&mut self, flag: MoveFlag, Ghost(o): Ghost<Position>, Ghost(m): Ghost<MoveModel>)
        requires
            old(self).board_ok(),
            old(self).zobrist_keys.wf(),
            m.flag == Some(flag),
            flag.spec_is_castle(),
            o.applicable(m),
            forall|s: int| #[trigger] old(self).piece_at(s) == o.displaced(m, s),
        ensures
            final(self).board_ok(),
            forall|s: int| #[trigger] final(self).piece_at(s) == o.after(m, s),
            final(self).side == old(self).side,
            final(self).castling_rights == old(self).castling_rights,
            final(self).ply == old(self).ply,
            final(self).zobrist_keys == old(self).zobrist_keys,
            final(self).en_passant_option == Position::en_passant_after(m),
            o.clears_present(m) ==> final(self).key_offset() == old(self).key_offset(),
            final(self).zobrist_key.0 == Self::flag_key(*old(self).zobrist_keys, old(self).zobrist_key.0, o.side, m),
    {
        self.en_passant_option = None;
        match flag {
            MoveFlag::WKCastle => {
                assert(m.source != 61);
                self.castle_rook(PieceType::WR, Square(63), Square(61));
                assert forall|s: int| #[trigger] self.piece_at(s) == o.after(m, s) by {
                    assert(old(self).piece_at(s) == o.displaced(m, s));
                }
            },
            MoveFlag::WQCastle => {
                assert(m.source != 59);
                self.castle_rook(PieceType::WR, Square(56), Square(59));
                assert forall|s: int| #[trigger] self.piece_at(s) == o.after(m, s) by {
                    assert(old(self).piece_at(s) == o.displaced(m, s));
                }
            },
            MoveFlag::BKCastle => {
                assert(m.source != 5);
                self.castle_rook(PieceType::BR, Square(7), Square(5));
                assert forall|s: int| #[trigger] self.piece_at(s) == o.after(m, s) by {
                    assert(old(self).piece_at(s) == o.displaced(m, s));
                }
            },
            _ => {
                assert(m.source != 3);
                self.castle_rook(PieceType::BR, Square(0), Square(3));
                assert forall|s: int| #[trigger] self.piece_at(s) == o.after(m, s) by {
                    assert(old(self).piece_at(s) == o.displaced(m, s));
                }
            },
        }
    }

    /// Replaces the pawn on the target by the promoted piece.
    fn apply_promotion(&mut self, target: Square, piece: PieceType, flag: MoveFlag, Ghost(o): Ghost<Position>, Ghost(m): Ghost<MoveModel>)
        requires
            old(self).board_ok(),
            old(self).zobrist_keys.wf(),
            target.valid(),
            m.target == target.0,
            m.piece == piece,
            m.flag == Some(flag),
            flag.spec_is_promotion(),
            o.applicable(m),
            o.side == old(self).side,
            forall|s: int| #[trigger] old(self).piece_at(s) == o.displaced(m, s),
        ensures
            final(self).board_ok(),
            forall|s: int| #[trigger] final(self).piece_at(s) == o.after(m, s),
            final(self).side == old(self).side,
            final(self).castling_rights == old(self).castling_rights,
            final(self).ply == old(self).ply,
            final(self).zobrist_keys == old(self).zobrist_keys,
            final(self).en_passant_option == Position::en_passant_after(m),
            o.clears_present(m) ==> final(self).key_offset() == old(self).key_offset(),
            final(self).zobrist_key.0 == Self::flag_key(*old(self).zobrist_keys, old(self).zobrist_key.0, o.side, m),
    {
        self.en_passant_option = None;
        let kind = match flag {
            MoveFlag::PromoQ => QUEEN,
            MoveFlag::PromoR => ROOK,
            MoveFlag::PromoN => KNIGHT,
            _ => BISHOP,
        };
        let promoted = PieceType::from_side_kind(self.side, kind);
        self.set_promotion(piece, promoted, target);
    }

    /// Carries out the special part of a move, given its flag, on a board
    /// where the piece has already moved.
    fn apply_flag(&mut self, target: Square, piece: PieceType, flag_option: Option<MoveFlag>, Ghost(o): Ghost<Position>, Ghost(m): Ghost<MoveModel>)
        requires
            old(self).board_ok(),
            old(self).zobrist_keys.wf(),
            target.valid(),
            m.target == target.0,
            m.piece == piece,
            m.flag == flag_option,
            o.applicable(m),
            o.side == old(self).side,
            forall|s: int| #[trigger] old(self).piece_at(s) == o.displaced(m, s),
        ensures
            final(self).board_ok(),
            forall|s: int| #[trigger] final(self).piece_at(s) == o.after(m, s),
            final(self).side == old(self).side,
            final(self).castling_rights == old(self).castling_rights,
            final(self).ply == old(self).ply,
            final(self).zobrist_keys == old(self).zobrist_keys,
            final(self).en_passant_option == Position::en_passant_after(m),
            o.clears_present(m) ==> final(self).key_offset() == old(self).key_offset(),
            final(self).zobrist_key.0 == Self::flag_key(*old(self).zobrist_keys, old(self).zobrist_key.0, o.side, m),
    {
        match flag_option {
            None => {
                self.en_passant_option = None;
                assert forall|s: int| #[trigger] self.piece_at(s) == o.after(m, s) by {
                    assert(old(self).piece_at(s) == o.displaced(m, s));
                }
            },
            Some(flag) => {
                if flag.is_promotion() {
                    self.apply_promotion(target, piece, flag, Ghost(o), Ghost(m));
                } else if flag.is_castle() {
                    self.apply_castle(flag, Ghost(o), Ghost(m));
                } else {
                    self.apply_pawn_flag(target, flag, Ghost(o), Ghost(m));
                }
            },
        }
    }

    /// Plays a move: moves the piece, takes the captured one, handles the
    /// special moves, updates castling rights, en passant, side and hash.
    pub fn make_move(&mut self, bit_move: BitMove)
        requires
            old(self).wf(),
            old(self).applicable(bit_move@),
        ensures
            final(self).wf(),
            forall|s: int| #[trigger] final(self).piece_at(s) == old(self).after(bit_move@, s),
            final(self).side == old(self).side.other(),
            final(self).castling_rights.0 == old(self).castling_rights.0 & (update_mask(
                bit_move@.source,
            ) & update_mask(bit_move@.target)),
            final(self).en_passant_option == Position::en_passant_after(bit_move@),
            final(self).ply == old(self).ply,
            final(self).zobrist_keys == old(self).zobrist_keys,
            old(self).clears_present(bit_move@) ==> final(self).zobrist_key.0 ^ final(self).full_hash()
                == old(self).zobrist_key.0 ^ old(self).full_hash(),
            old(self).clears_present(bit_move@) && old(self).zobrist_key.0 == old(self).full_hash()
                ==> final(self).zobrist_key.0 == final(self).full_hash(),
            final(self).zobrist_key.0 == old(self).key_after_move(bit_move@),
    {
        let (source, target, piece, capture, flag_option) = bit_move.decode();
        let ghost o = *old(self);
        let ghost m = bit_move@;
        self.zobrist_mods();
        let ghost k1 = *self;
        self.displace(source, target, piece, capture, Ghost(m));
        self.apply_flag(target, piece, flag_option, Ghost(o), Ghost(m));
        let ghost k2 = *self;
        self.castling_rights.update(source, target);
        self.populate_occupancies();
        self.side.switch();
        self.zobrist_mods();
        proof {
            let keys = *o.zobrist_keys;
            if o.clears_present(m) {
                lemma_xor_move(
                    o.zobrist_key.0,
                    pieces_hash(keys, o.bbs, 64),
                    keys.castling_keys@[o.castling_rights.0 as int],
                    keys.en_passant_key(o.en_passant_option),
                    keys.side_key_of(o.side),
                    k2.zobrist_key.0,
                    pieces_hash(keys, k2.bbs, 64),
                    keys.castling_keys@[self.castling_rights.0 as int],
                    keys.en_passant_key(self.en_passant_option),
                    keys.side_key_of(self.side),
                );
            }
            lemma_xor_rules(o.zobrist_key.0, o.full_hash(), 0, 0);
            lemma_xor_rules(self.zobrist_key.0, self.full_hash(), 0, 0);
        }
    }

    /// The piece that stands on the target once `mover` has played `m`.
    pub open spec fn landed(mover: Color, m: MoveModel) -> PieceType {
        match m.flag {
            Some(MoveFlag::PromoN) => PieceType::of_side_kind(mover, KNIGHT as int),
            Some(MoveFlag::PromoB) => PieceType::of_side_kind(mover, BISHOP as int),
            Some(MoveFlag::PromoR) => PieceType::of_side_kind(mover, ROOK as int),
            Some(MoveFlag::PromoQ) => PieceType::of_side_kind(mover, QUEEN as int),
            _ => m.piece,
        }
    }

    /// The board looks as if the side other than the one to move has just
    /// played `m`: its source is empty, its target holds what landed there,
    /// and the squares that taking it back fills are empty.
    pub open spec fn undoable(self, m: MoveModel) -> bool {
        &&& 0 <= m.source < 64
        &&& 0 <= m.target < 64
        &&& m.source != m.target
        &&& m.piece != PieceType::NoPiece
        &&& self.piece_at(m.source) == PieceType::NoPiece
        &&& self.piece_at(m.target) == Self::landed(self.side.other(), m)
        &&& match m.flag {
            Some(MoveFlag::WEnPassant) => m.target < 56 && m.target + 8 != m.source
                && self.piece_at(m.target + 8) == PieceType::NoPiece,
            Some(MoveFlag::BEnPassant) => m.target >= 8 && m.target - 8 != m.source
                && self.piece_at(m.target - 8) == PieceType::NoPiece,
            Some(MoveFlag::WKCastle) => m.source != 63 && m.source != 61 && m.target != 63
                && m.target != 61 && self.piece_at(63) == PieceType::NoPiece && self.piece_at(61)
                == PieceType::WR,
            Some(MoveFlag::WQCastle) => m.source != 56 && m.source != 59 && m.target != 56
                && m.target != 59 && self.piece_at(56) == PieceType::NoPiece && self.piece_at(59)
                == PieceType::WR,
            Some(MoveFlag::BKCastle) => m.source != 7 && m.source != 5 && m.target != 7
                && m.target != 5 && self.piece_at(7) == PieceType::NoPiece && self.piece_at(5)
                == PieceType::BR,
            Some(MoveFlag::BQCastle) => m.source != 0 && m.source != 3 && m.target != 0
                && m.target != 3 && self.piece_at(0) == PieceType::NoPiece && self.piece_at(3)
                == PieceType::BR,
            _ => true,
        }
    }

    /// The piece on `sq` once `m` is taken back.
    pub open spec fn before(self, m: MoveModel, sq: int) -> PieceType {
        if sq == m.source {
            m.piece
        } else if sq == m.target {
            m.capture
        } else {
            match m.flag {
                Some(MoveFlag::WEnPassant) => if sq == m.target + 8 { PieceType::BP } else { self.piece_at(sq) },
                Some(MoveFlag::BEnPassant) => if sq == m.target - 8 { PieceType::WP } else { self.piece_at(sq) },
                Some(MoveFlag::WKCastle) => if sq == 63 {
                    PieceType::WR
                } else if sq == 61 {
                    PieceType::NoPiece
                } else {
                    self.piece_at(sq)
                },
                Some(MoveFlag::WQCastle) => if sq == 56 {
                    PieceType::WR
                } else if sq == 59 {
                    PieceType::NoPiece
                } else {
                    self.piece_at(sq)
                },
                Some(MoveFlag::BKCastle) => if sq == 7 {
                    PieceType::BR
                } else if sq == 5 {
                    PieceType::NoPiece
                } else {
                    self.piece_at(sq)
                },
                Some(MoveFlag::BQCastle) => if sq == 0 {
                    PieceType::BR
                } else if sq == 3 {
                    PieceType::NoPiece
                } else {
                    self.piece_at(sq)
                },
                _ => self.piece_at(sq),
            }
        }
    }

    /// The en-passant square once `m` is taken back: the target of an
    /// en-passant capture, and none otherwise.
    pub open spec fn en_passant_before(m: MoveModel) -> Option<Square> {
        match m.flag {
            Some(MoveFlag::WEnPassant) | Some(MoveFlag::BEnPassant) => Some(Square(m.target as u8)),
            _ => None,
        }
    }

    /// Puts the moving piece back on its source and the captured piece back
    /// on the target.
    fn undo_displace(&mut self, source: Square, target: Square, piece: PieceType, capture: PieceType, flag_option: Option<MoveFlag>, Ghost(o): Ghost<Position>, Ghost(m): Ghost<MoveModel>)
        requires
            old(self).board_ok(),
            old(self).zobrist_keys.wf(),
            source.valid(),
            target.valid(),
            m.source == source.0,
            m.target == target.0,
            m.piece == piece,
            m.capture == capture,
            m.flag == flag_option,
            o.undoable(m),
            old(self).side == o.side.other(),
            forall|s: int| #[trigger] old(self).piece_at(s) == o.piece_at(s),
        ensures
            final(self).board_ok(),
            forall|s: int| #[trigger] final(self).piece_at(s) == (if s == m.source || s == m.target {
                o.before(m, s)
            } else {
                o.piece_at(s)
            }),
            final(self).same_state(*old(self)),
            final(self).zobrist_key.0 == Self::undo_displace_key(
                *old(self).zobrist_keys,
                old(self).zobrist_key.0,
                old(self).side,
                m,
            ),
    {
        self.set_piece(piece, source);
        self.remove_piece(piece, target);
        let mover = self.side;
        match flag_option {
            Some(MoveFlag::PromoQ) => {
                self.remove_piece(PieceType::from_side_kind(mover, QUEEN), target);
            },
            Some(MoveFlag::PromoR) => {
                self.remove_piece(PieceType::from_side_kind(mover, ROOK), target);
            },
            Some(MoveFlag::PromoN) => {
                self.remove_piece(PieceType::from_side_kind(mover, KNIGHT), target);
            },
            Some(MoveFlag::PromoB) => {
                self.remove_piece(PieceType::from_side_kind(mover, BISHOP), target);
            },
            _ => {},
        }
        if capture != PieceType::NoPiece {
            self.set_piece(capture, target);
        }
    }

    /// Takes back a move: the moving piece returns, the captured piece and
    /// the pawn taken en passant come back, a castling rook returns, and the
    /// side and the castling rights are restored. The en-passant square
    /// becomes the target of an en-passant capture, and none otherwise.
    pub fn undo_move(&mut self, bit_move: BitMove, old_castling_rights: CastlingRights)
        requires
            old(self).wf(),
            old(self).undoable(bit_move@),
            old_castling_rights.0 < 16,
        ensures
            final(self).wf(),
            forall|s: int| #[trigger] final(self).piece_at(s) == old(self).before(bit_move@, s),
            final(self).side == old(self).side.other(),
            final(self).castling_rights == old_castling_rights,
            final(self).en_passant_option == Position::en_passant_before(bit_move@),
            final(self).ply == old(self).ply,
            final(self).zobrist_keys == old(self).zobrist_keys,
            final(self).zobrist_key.0 == old(self).key_after_undo(bit_move@),
    {
        let (source, target, piece, capture, flag_option) = bit_move.decode();
        let ghost o = *old(self);
        let ghost m = bit_move@;
        self.side.switch();
        self.undo_displace(source, target, piece, capture, flag_option, Ghost(o), Ghost(m));
        self.en_passant_option = None;
        match flag_option {
            Some(MoveFlag::WEnPassant) => {
                self.en_passant_option = Some(target);
                self.set_piece(PieceType::BP, target.below());
            },
            Some(MoveFlag::BEnPassant) => {
                self.en_passant_option = Some(target);
                self.set_piece(PieceType::WP, target.above());
            },
            Some(MoveFlag::WKCastle) => {
                self.set_piece(PieceType::WR, Square(63));
                self.remove_piece(PieceType::WR, Square(61));
            },
            Some(MoveFlag::WQCastle) => {
                self.set_piece(PieceType::WR, Square(56));
                self.remove_piece(PieceType::WR, Square(59));
            },
            Some(MoveFlag::BKCastle) => {
                self.set_piece(PieceType::BR, Square(7));
                self.remove_piece(PieceType::BR, Square(5));
            },
            Some(MoveFlag::BQCastle) => {
                self.set_piece(PieceType::BR, Square(0));
                self.remove_piece(PieceType::BR, Square(3));
            },
            _ => {},
        }
        self.castling_rights = old_castling_rights;
        self.populate_occupancies();
        proof {
            assert forall|s: int| #[trigger] self.piece_at(s) == o.before(m, s) by {}
        }
    }


    /// `q` is a position that playing `m` on `self` leads to: its board is
    /// the board after the move, its side, castling rights and en-passant
    /// square are the updated ones, and ply and keys are unchanged.
    pub open spec fn is_successor(self, m: MoveModel, q: Position) -> bool {
        &&& q.wf()
        &&& forall|s: int| #[trigger] q.piece_at(s) == self.after(m, s)
        &&& q.side == self.side.other()
        &&& q.castling_rights.0 == self.castling_rights.0 & (update_mask(m.source) & update_mask(m.target))
        &&& q.en_passant_option == Position::en_passant_after(m)
        &&& q.ply == self.ply
        &&& q.zobrist_keys == self.zobrist_keys
    }

    /// Some position is what playing `m` on `self` leads to.
    pub open spec fn has_successor(self, m: MoveModel) -> bool {
        exists|q: Position| self.is_successor(m, q)
    }

    /// The position that playing `m` leads to, with a hash of 0.
    pub open spec fn play(self, m: MoveModel) -> Position {
        choose|q: Position| self.is_successor(m, q) && q.zobrist_key.0 == 0
    }

    /// Two consistent positions with the same pieces on every square have
    /// the same bitboards.
    pub proof fn lemma_same_board(self, other: Position)
        requires
            self.wf(),
            other.wf(),
            forall|s: int| #[trigger] self.piece_at(s) == other.piece_at(s),
        ensures
            self.bbs == other.bbs,
            self.wo == other.wo,
            self.bo == other.bo,
            self.ao == other.ao,
    {
        self.lemma_board();
        other.lemma_board();
        assert forall|p: int| 0 <= p < 12 implies self.bb(p) == other.bb(p) by {
            assert forall|j: int| 0 <= j < 64 implies bit(self.bb(p), j) == bit(other.bb(p), j) by {
                assert(self.piece_at(j) == other.piece_at(j));
            }
            crate::bits::lemma_ext(self.bb(p), other.bb(p));
        }
        assert(self.bbs =~= other.bbs);
        assert forall|j: int| 0 <= j < 64 implies bit(self.wo.0, j) == bit(other.wo.0, j) by {
            assert(self.piece_at(j) == other.piece_at(j));
        }
        crate::bits::lemma_ext(self.wo.0, other.wo.0);
        assert forall|j: int| 0 <= j < 64 implies bit(self.bo.0, j) == bit(other.bo.0, j) by {
            assert(self.piece_at(j) == other.piece_at(j));
        }
        crate::bits::lemma_ext(self.bo.0, other.bo.0);
        crate::bits::lemma_ext(self.ao.0, other.ao.0);
    }

    /// Playing the move in place gives a successor; the chosen successor
    /// then has the same bitboards.
    pub proof fn lemma_play(self, m: MoveModel, q: Position)
        requires
            self.is_successor(m, q),
        ensures
            self.is_successor(m, self.play(m)),
            self.play(m).zobrist_key.0 == 0,
            self.play(m).bbs == q.bbs,
            self.play(m).ao == q.ao,
            self.play(m).wo == q.wo,
            self.play(m).bo == q.bo,
    {
        let q0 = Position { zobrist_key: ZobristKey(0), ..q };
        assert(self.is_successor(m, q0));
        let p = self.play(m);
        assert forall|s: int| #[trigger] p.piece_at(s) == q.piece_at(s) by {
            assert(p.piece_at(s) == self.after(m, s));
        }
        p.lemma_same_board(q);
    }

    /// Whether the king of `side` is attacked depends only on the pieces, and
    /// is the same in two positions with the same bitboards.
    pub proof fn lemma_same_check(self, other: Position, side: Color)
        requires
            self.bbs == other.bbs,
            self.ao == other.ao,
        ensures
            self.spec_in_check(side) == other.spec_in_check(side),
    {
        assert forall|sq: int, t: int| #[trigger] self.attacks_from(side, sq, t) == other.attacks_from(side, sq, t) by {}
        if self.spec_in_check(side) {
            let t = choose|t: int| 0 <= t < 64 && #[trigger] self.attacks_from(side, self.king_square(side), t);
            assert(other.attacks_from(side, other.king_square(side), t));
        }
        if other.spec_in_check(side) {
            let t = choose|t: int| 0 <= t < 64 && #[trigger] other.attacks_from(side, other.king_square(side), t);
            assert(self.attacks_from(side, self.king_square(side), t));
        }
    }


    /// Plays a pseudo-legal move. When the own king is then not in check the
    /// ply count goes up by one and `true` is returned; otherwise `false`,
    /// and the position is left as the move made it.
    pub fn apply_pseudo_legal_move(&mut self, bit_move: BitMove) -> (r: bool)
        requires
            old(self).wf(),
            old(self).bb(Self::king_index(old(self).side)) != 0,
            pseudo_legal(*old(self), bit_move@),
            old(self).ply < u16::MAX,
        ensures
            r == !old(self).play(bit_move@).spec_in_check(old(self).side),
            old(self).has_successor(bit_move@),
            final(self).wf(),
            forall|s: int| #[trigger] final(self).piece_at(s) == old(self).after(bit_move@, s),
            final(self).bbs == old(self).play(bit_move@).bbs,
            final(self).ao == old(self).play(bit_move@).ao,
            final(self).wo == old(self).play(bit_move@).wo,
            final(self).bo == old(self).play(bit_move@).bo,
            final(self).side == old(self).side.other(),
            final(self).castling_rights == old(self).play(bit_move@).castling_rights,
            final(self).en_passant_option == Position::en_passant_after(bit_move@),
            final(self).ply == old(self).ply + (if r { 1int } else { 0int }),
            final(self).zobrist_keys == old(self).zobrist_keys,
            final(self).bb(Self::king_index(old(self).side)) != 0,
            old(self).clears_present(bit_move@) && old(self).zobrist_key.0 == old(self).full_hash()
                ==> final(self).zobrist_key.0 == final(self).full_hash(),
            final(self).zobrist_key.0 == old(self).key_after_move(bit_move@),
    {
        let ghost o = *old(self);
        proof {
            lemma_pseudo_legal_applicable(*self, bit_move@);
            lemma_mover_king_kept(*self, bit_move@);
        }
        self.make_move(bit_move);
        proof {
            o.lemma_play(bit_move@, *self);
            assert(o.is_successor(bit_move@, *self));
            self.lemma_same_check(o.play(bit_move@), o.side);
            self.lemma_board();
            let x = if bit_move@.source == o.king_square(o.side) {
                bit_move@.target
            } else {
                o.king_square(o.side)
            };
            assert(self.piece_at(x) == PieceType::of_index(Self::king_index(o.side)));
            crate::bits::lemma_zero_iff(self.bb(Self::king_index(o.side)));
            assert(self.castling_rights == o.play(bit_move@).castling_rights);
        }
        let mover = self.side.opposite();
        if !self.in_check(mover) {
            self.ply = self.ply + 1;
            true
        } else {
            false
        }
    }


    /// The hash of the position computed from scratch: the keys of all
    /// pieces, of the castling rights, of the en-passant square and of the side.
    pub open spec fn full_hash(self) -> u64 {
        pieces_hash(*self.zobrist_keys, self.bbs, 64) ^ self.zobrist_keys.castling_keys@[self.castling_rights.0 as int]
            ^ self.zobrist_keys.en_passant_key(self.en_passant_option) ^ self.zobrist_keys.side_key_of(self.side)
    }

    /// The position at the start of a game, with the given hash keys.
    pub fn starting_position_with_keys(keys: &'static ZobristKeys) -> (r: Position)
        requires
            keys.wf(),
        ensures
            r.wf(),
            r.has_kings(),
            forall|s: int| 0 <= s < 64 ==> #[trigger] r.piece_at(s) == start_piece(s),
            r.side == Color::White,
            r.en_passant_option is None,
            r.castling_rights.0 == crate::castling_rights::DEFAULT,
            r.ply == 0,
            r.zobrist_keys == keys,
            r.zobrist_key.0 == r.full_hash(),
    {
        let mut position = Position {
            bbs: [
                Bitboard(crate::bitboard::WP),
                Bitboard(crate::bitboard::WN),
                Bitboard(crate::bitboard::WB),
                Bitboard(crate::bitboard::WR),
                Bitboard(crate::bitboard::WQ),
                Bitboard(crate::bitboard::WK),
                Bitboard(crate::bitboard::BP),
                Bitboard(crate::bitboard::BN),
                Bitboard(crate::bitboard::BB),
                Bitboard(crate::bitboard::BR),
                Bitboard(crate::bitboard::BQ),
                Bitboard(crate::bitboard::BK),
            ],
            wo: Bitboard(crate::bitboard::WHITE_STARTING_PIECES),
            bo: Bitboard(crate::bitboard::BLACK_STARTING_PIECES),
            ao: Bitboard(crate::bitboard::ALL_STARTING_PIECES),
            side: Color::White,
            en_passant_option: None,
            castling_rights: CastlingRights(crate::castling_rights::DEFAULT),
            ply: 0,
            zobrist_key: ZobristKey(0),
            zobrist_keys: keys,
        };
        proof {
            assert forall|sq: int| 0 <= sq < 64 implies #[trigger] position.piece_at(sq) == start_piece(sq) by {
                lemma_start_bits(sq as u64);
            }
            assert forall|p: int, sq: int| 0 <= p < 12 && #[trigger] bit(position.bbs@[p].0, sq) implies
                position.piece_at(sq) == PieceType::of_index(p) by {
                lemma_start_bits(sq as u64);
            }
            assert(position.board_ok());
            lemma_start_bits(60);
            lemma_start_bits(4);
            assert(bit(position.bb(5), 60));
            assert(bit(position.bb(11), 4));
            crate::bits::lemma_zero();
        }
        position.populate_occupancies();
        proof {
            assert(position.board_ok());
            assert(position.occ_ok());
            assert(position.castling_rights.0 < 16);
        }
        position.zobrist_key = ZobristKey::generate(&position);
        position
    }

    /// The position at the start of a game, with the standard hash keys.
    pub fn starting_position() -> (r: Position)
        ensures
            r.wf(),
            r.has_kings(),
            forall|s: int| 0 <= s < 64 ==> #[trigger] r.piece_at(s) == start_piece(s),
            r.side == Color::White,
            r.en_passant_option is None,
            r.castling_rights.0 == crate::castling_rights::DEFAULT,
            r.ply == 0,
            r.zobrist_key.0 == r.full_hash(),
            r.zobrist_keys.is_standard(),
    {
        Self::starting_position_with_keys(ZobristKeys::standard_static())
    }

    /// An empty board, white to move, no castling rights, with the given hash keys.
    pub fn empty_with_keys(keys: &'static ZobristKeys) -> (r: Position)
        requires
            keys.wf(),
        ensures
            r.wf(),
            forall|s: int| #[trigger] r.piece_at(s) == PieceType::NoPiece,
            r.side == Color::White,
            r.en_passant_option is None,
            r.castling_rights.0 == crate::castling_rights::NONE,
            r.ply == 0,
            r.zobrist_key.0 == 0,
            r.zobrist_keys == keys,
    {
        let r = Position {
            bbs: [
                Bitboard(0),
                Bitboard(0),
                Bitboard(0),
                Bitboard(0),
                Bitboard(0),
                Bitboard(0),
                Bitboard(0),
                Bitboard(0),
                Bitboard(0),
                Bitboard(0),
                Bitboard(0),
                Bitboard(0),
            ],
            wo: Bitboard(0),
            bo: Bitboard(0),
            ao: Bitboard(0),
            side: Color::White,
            en_passant_option: None,
            castling_rights: CastlingRights(crate::castling_rights::NONE),
            ply: 0,
            zobrist_key: ZobristKey(0),
            zobrist_keys: keys,
        };
        proof {
            crate::bits::lemma_zero();
            assert forall|p: int| 0 <= p < 12 implies #[trigger] r.bbs@[p].0 == 0u64 by {}
            assert(r.board_ok());
            assert(0u64 | 0u64 == 0u64) by (bit_vector);
            assert(r.white_occ() == 0u64);
            assert(r.black_occ() == 0u64);
        }
        r
    }

    /// An empty board, white to move, no castling rights, with the standard hash keys.
    pub fn default() -> (r: Position)
        ensures
            r.wf(),
            forall|s: int| #[trigger] r.piece_at(s) == PieceType::NoPiece,
            r.side == Color::White,
            r.en_passant_option is None,
            r.castling_rights.0 == crate::castling_rights::NONE,
            r.ply == 0,
            r.zobrist_key.0 == 0,
            r.zobrist_keys.is_standard(),
    {
        Self::empty_with_keys(ZobristKeys::standard_static())
    }

    /// The piece on `square`, which holds one.
    pub fn get_piece(&self, square: Square) -> (r: PieceType)
        requires
            square.valid(),
            self.piece_at(square.0 as int) != PieceType::NoPiece,
        ensures
            r == self.piece_at(square.0 as int),
            r != PieceType::NoPiece,
    {
        self.piece_on_square(square)
    }

    /// The piece on `square`, or the empty marker.
    pub(crate) fn piece_on_square(&self, square: Square) -> (r: PieceType)
        requires
            square.valid(),
        ensures
            r == self.piece_at(square.0 as int),
    {
        if self.bbs[0].is_set_sq(square) {
            PieceType::WP
        } else if self.bbs[1].is_set_sq(square) {
            PieceType::WN
        } else if self.bbs[2].is_set_sq(square) {
            PieceType::WB
        } else if self.bbs[3].is_set_sq(square) {
            PieceType::WR
        } else if self.bbs[4].is_set_sq(square) {
            PieceType::WQ
        } else if self.bbs[5].is_set_sq(square) {
            PieceType::WK
        } else if self.bbs[6].is_set_sq(square) {
            PieceType::BP
        } else if self.bbs[7].is_set_sq(square) {
            PieceType::BN
        } else if self.bbs[8].is_set_sq(square) {
            PieceType::BB
        } else if self.bbs[9].is_set_sq(square) {
            PieceType::BR
        } else if self.bbs[10].is_set_sq(square) {
            PieceType::BQ
        } else if self.bbs[11].is_set_sq(square) {
            PieceType::BK
        } else {
            PieceType::NoPiece
        }
    }

    /// The piece on `square`, if any.
    pub fn get_piece_option(&self, square: Square) -> (r: Option<PieceType>)
        requires
            square.valid(),
        ensures
            self.piece_at(square.0 as int) == PieceType::NoPiece ==> r is None,
            self.piece_at(square.0 as int) != PieceType::NoPiece ==> r == Some(
                self.piece_at(square.0 as int),
            ),
    {
        let p = self.piece_on_square(square);
        match p {
            PieceType::NoPiece => None,
            _ => Some(p),
        }
    }

    /// Recomputes the union of both sides' occupancies.
    pub fn merge_occupancies(&mut self)
        ensures
            final(self).ao.0 == old(self).wo.0 | old(self).bo.0,
            final(self).bbs == old(self).bbs,
            final(self).wo == old(self).wo,
            final(self).bo == old(self).bo,
            final(self).side == old(self).side,
            final(self).en_passant_option == old(self).en_passant_option,
            final(self).castling_rights == old(self).castling_rights,
            final(self).ply == old(self).ply,
            final(self).zobrist_key == old(self).zobrist_key,
            final(self).zobrist_keys == old(self).zobrist_keys,
    {
        self.ao = self.wo.or(self.bo);
    }

    /// Recomputes all occupancies from the piece bitboards.
    pub fn populate_occupancies(&mut self)
        ensures
            final(self).occ_ok(),
            final(self).bbs == old(self).bbs,
            final(self).side == old(self).side,
            final(self).en_passant_option == old(self).en_passant_option,
            final(self).castling_rights == old(self).castling_rights,
            final(self).ply == old(self).ply,
            final(self).zobrist_key == old(self).zobrist_key,
            final(self).zobrist_keys == old(self).zobrist_keys,
    {
        self.wo = Bitboard(
            self.bbs[0].0 | self.bbs[1].0 | self.bbs[2].0 | self.bbs[3].0 | self.bbs[4].0
                | self.bbs[5].0,
        );
        self.bo = Bitboard(
            self.bbs[6].0 | self.bbs[7].0 | self.bbs[8].0 | self.bbs[9].0 | self.bbs[10].0
                | self.bbs[11].0,
        );
        self.merge_occupancies();
    }

    /// Whether `square` is attacked by the side other than `defending_side`.
    pub fn is_square_attacked(&self, defending_side: Color, square: Square) -> (r: bool)
        requires
            square.valid(),
        ensures
            r == self.attacked(defending_side, square.0 as int),
    {
        let e: usize = match defending_side {
            Color::White => 6,
            Color::Black => 0,
        };
        let pawns = MoveMasks::get_pawn_capture_mask(defending_side, square).and(self.bbs[e]);
        let knights = MoveMasks::get_knight_mask(square).and(self.bbs[e + 1]);
        let diagonal = MoveMasks::get_bishop_mask(square, self.ao);
        let straight = MoveMasks::get_rook_mask(square, self.ao);
        let bishops = diagonal.and(self.bbs[e + 2]);
        let rooks = straight.and(self.bbs[e + 3]);
        let queens = diagonal.or(straight).and(self.bbs[e + 4]);
        let kings = MoveMasks::get_king_mask(square).and(self.bbs[e + 5]);
        let r = pawns.is_not_empty() || knights.is_not_empty() || bishops.is_not_empty()
            || rooks.is_not_empty() || queens.is_not_empty() || kings.is_not_empty();
        proof {
            let sq = square.0 as int;
            if r {
                if pawns.0 != 0 {
                    let t = choose|t: int| 0 <= t < 64 && #[trigger] pawns.has(t);
                    assert(self.attacks_from(defending_side, sq, t));
                } else if knights.0 != 0 {
                    let t = choose|t: int| 0 <= t < 64 && #[trigger] knights.has(t);
                    assert(self.attacks_from(defending_side, sq, t));
                } else if bishops.0 != 0 {
                    let t = choose|t: int| 0 <= t < 64 && #[trigger] bishops.has(t);
                    assert(self.attacks_from(defending_side, sq, t));
                } else if rooks.0 != 0 {
                    let t = choose|t: int| 0 <= t < 64 && #[trigger] rooks.has(t);
                    assert(self.attacks_from(defending_side, sq, t));
                } else if queens.0 != 0 {
                    let t = choose|t: int| 0 <= t < 64 && #[trigger] queens.has(t);
                    assert(self.attacks_from(defending_side, sq, t));
                } else {
                    let t = choose|t: int| 0 <= t < 64 && #[trigger] kings.has(t);
                    assert(self.attacks_from(defending_side, sq, t));
                }
            } else {
                assert forall|t: int| 0 <= t < 64 implies !#[trigger] self.attacks_from(
                    defending_side,
                    sq,
                    t,
                ) by {
                    assert(!pawns.has(t));
                    assert(!knights.has(t));
                    assert(!bishops.has(t));
                    assert(!rooks.has(t));
                    assert(!queens.has(t));
                    assert(!kings.has(t));
                }
            }
        }
        r
    }

    /// Whether the king of `defending_side` is attacked.
    pub fn in_check(&self, defending_side: Color) -> (r: bool)
        requires
            self.bb(Self::king_index(defending_side)) != 0,
        ensures
            r == self.spec_in_check(defending_side),
    {
        let king_sq = match defending_side {
            Color::White => Square::from_bitboard(self.bbs[5]),
            Color::Black => Square::from_bitboard(self.bbs[11]),
        };
        self.is_square_attacked(defending_side, king_sq)
    }
}

/// Taking back a move that was played on a consistent position restores
/// its board and side, provided that the pieces the move clears besides the
/// captured one stand where it clears them, and that an en-passant capture
/// comes diagonally.
pub proof fn lemma_make_undo(p: Position, m: MoveModel, q: Position)
    requires
        p.wf(),
        p.applicable(m),
        m.flag == Some(MoveFlag::WEnPassant) ==> m.source != m.target + 8,
        m.flag == Some(MoveFlag::BEnPassant) ==> m.source != m.target - 8,
        p.clears_present(m),
        p.is_successor(m, q),
    ensures
        q.undoable(m),
        forall|s: int| #[trigger] q.before(m, s) == p.piece_at(s),
        q.side.other() == p.side,
{
    crate::color::law_opposite_involutive(p.side);
    assert forall|s: int| #[trigger] q.before(m, s) == p.piece_at(s) by {
        assert(q.piece_at(s) == p.after(m, s));
    }
    assert(q.piece_at(m.source) == p.after(m, m.source));
    assert(q.piece_at(m.target) == p.after(m, m.target));
}

/// Taking back a pseudo-legal move restores the position: the position the
/// move leads to can be taken back, taking it back gives every square its
/// old piece and the side to move its turn again, and the en-passant square
/// comes back when there was none or the move took en passant. (The pieces
/// that the move clears besides the captured one must stand where it
/// clears them; otherwise taking back puts pieces that were not there.)
pub proof fn law_make_undo(p: Position, m: MoveModel, q: Position)
    requires
        p.wf(),
        pseudo_legal(p, m),
        p.clears_present(m),
        p.is_successor(m, q),
    ensures
        q.undoable(m),
        forall|s: int| #[trigger] q.before(m, s) == p.piece_at(s),
        q.side.other() == p.side,
        p.en_passant_option is None || m.flag == Some(crate::move_generation::en_passant_flag(p.side))
            ==> Position::en_passant_before(m) == p.en_passant_option,
{
    lemma_pseudo_legal_applicable(p, m);
    lemma_make_undo(p, m, q);
}


/// What a square shows on the board: a dot when empty, else the piece's
/// symbol; then a space.
pub open spec fn cell_text(p: PieceType) -> Seq<char> {
    if p == PieceType::NoPiece {
        seq!['.', ' ']
    } else {
        p.symbol()@ + seq![' ']
    }
}

/// The cells of the first `n` squares of the row `r`, the eighth rank
/// being row 0.
pub open spec fn cells_text(pos: Position, r: int, n: nat) -> Seq<char>
    decreases n,
{
    if n == 0 {
        Seq::empty()
    } else {
        cells_text(pos, r, (n - 1) as nat) + cell_text(pos.piece_at(8 * r + n - 1))
    }
}

/// One line of the board: the rank number between spaces, the cells of
/// the row, and a line break.
pub open spec fn row_text(pos: Position, r: int) -> Seq<char> {
    seq![' ', ' ', ((56 - r) as u8) as char, ' ', ' '] + cells_text(pos, r, 8) + seq!['\n']
}

/// The first `n` lines of the board, from the eighth rank down.
pub open spec fn rows_text(pos: Position, n: nat) -> Seq<char>
    decreases n,
{
    if n == 0 {
        Seq::empty()
    } else {
        rows_text(pos, (n - 1) as nat) + row_text(pos, n - 1)
    }
}

/// The board as text: a line break, the eight ranks from the eighth down,
/// and the file letters under them.
pub open spec fn board_text_of(pos: Position) -> Seq<char> {
    seq!['\n'] + rows_text(pos, 8) + "\n     a b c d e f g h\n"@
}

impl Position {
    /// The board drawn as text, one line per rank from the eighth down:
    /// each square shows its piece's symbol or a dot.
    pub fn board_text(&self) -> (r: String)
        ensures
            r@ == board_text_of(*self),
    {
        let mut text = ascii_string(vec![10u8]);
        proof {
            assert(text@ =~= seq!['\n'] + rows_text(*self, 0));
        }
        let mut row: u8 = 0;
        while row < 8
            invariant
                row <= 8,
                text@ == seq!['\n'] + rows_text(*self, row as nat),
            decreases 8 - row,
        {
            let digit: u8 = 56u8 - row;
            let label = ascii_string(vec![32u8, 32u8, digit, 32u8, 32u8]);
            let mut line = concat(label.as_str(), "");
            proof {
                reveal_strlit("");
                assert(line@ =~= seq![' ', ' ', ((56 - row) as u8) as char, ' ', ' '] + cells_text(*self, row as int, 0));
            }
            let mut col: u8 = 0;
            while col < 8
                invariant
                    row < 8,
                    col <= 8,
                    line@ == seq![' ', ' ', ((56 - row) as u8) as char, ' ', ' '] + cells_text(*self, row as int, col as nat),
                decreases 8 - col,
            {
                let piece = self.piece_on_square(Square(row * 8 + col));
                let cell = if piece == PieceType::NoPiece {
                    let c = concat(". ", "");
                    proof {
                        reveal_strlit(". ");
                        reveal_strlit("");
                    }
                    c
                } else {
                    let (symbol, _) = piece.to_symbol();
                    concat(symbol, " ")
                };
                proof {
                    reveal_strlit(" ");
                    assert(cell@ =~= cell_text(self.piece_at(8 * row + col)));
                }
                line = concat(line.as_str(), cell.as_str());
                proof {
                    assert(line@ =~= seq![' ', ' ', ((56 - row) as u8) as char, ' ', ' '] + cells_text(*self, row as int, (col + 1) as nat));
                }
                col = col + 1;
            }
            line = concat(line.as_str(), "\n");
            proof {
                reveal_strlit("\n");
                assert(line@ =~= row_text(*self, row as int));
            }
            text = concat(text.as_str(), line.as_str());
            proof {
                assert(text@ =~= seq!['\n'] + rows_text(*self, (row + 1) as nat));
            }
            row = row + 1;
        }
        concat(text.as_str(), "\n     a b c d e f g h\n")
    }
}


/// The hash of the pieces depends on the keys' tables alone.
proof fn lemma_pieces_hash_same_tables(k1: ZobristKeys, k2: ZobristKeys, bbs: [Bitboard; 12], n: nat)
    requires
        k1.piece_keys@ == k2.piece_keys@,
    ensures
        pieces_hash(k1, bbs, n) == pieces_hash(k2, bbs, n),
    decreases n,
{
    if n > 0 {
        lemma_pieces_hash_same_tables(k1, k2, bbs, (n - 1) as nat);
    }
}

/// Two positions hashed with the standard keys that have the same board,
/// side to move, castling rights and en-passant square have the same hash,
/// however and whenever they were built.
pub proof fn law_standard_keys_same_hash(p: Position, q: Position)
    requires
        p.zobrist_keys.is_standard(),
        q.zobrist_keys.is_standard(),
        p.bbs == q.bbs,
        p.side == q.side,
        p.castling_rights == q.castling_rights,
        p.en_passant_option == q.en_passant_option,
    ensures
        p.full_hash() == q.full_hash(),
{
    lemma_pieces_hash_same_tables(*p.zobrist_keys, *q.zobrist_keys, p.bbs, 64);
}


/// Taking a piece off a square right after putting it there, where it did
/// not stand, gives back the piece bitboards and the hash.
pub proof fn law_remove_undoes_set(p: Position, q: Position, r: Position, piece: PieceType, sq: Square)
    requires
        sq.valid(),
        piece != PieceType::NoPiece,
        !bit(p.bb(piece.index()), sq.0 as int),
        q.bbs@ == p.bbs@.update(piece.index(), Bitboard(p.bb(piece.index()) | (1u64 << sq.0 as u64))),
        q.zobrist_key.0 == p.zobrist_key.0 ^ p.zobrist_keys.piece_key(piece, sq.0 as int),
        q.zobrist_keys == p.zobrist_keys,
        r.bbs@ == q.bbs@.update(piece.index(), Bitboard(q.bb(piece.index()) & !(1u64 << sq.0 as u64))),
        r.zobrist_key.0 == q.zobrist_key.0 ^ q.zobrist_keys.piece_key(piece, sq.0 as int),
    ensures
        r.bbs@ == p.bbs@,
        r.zobrist_key == p.zobrist_key,
{
    let b = p.bb(piece.index());
    let s = sq.0 as u64;
    let k = p.zobrist_key.0;
    let x = p.zobrist_keys.piece_key(piece, sq.0 as int);
    assert(s < 64);
    assert((b >> s) & 1u64 != 1u64);
    assert((b | (1u64 << s)) & !(1u64 << s) == b) by (bit_vector)
        requires
            s < 64,
            (b >> s) & 1u64 != 1u64,
    ;
    assert((k ^ x) ^ x == k) by (bit_vector);
    assert(r.bbs@ =~= p.bbs@);
}

} // verus!
