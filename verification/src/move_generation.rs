//! Pseudo-legal and legal move generation.
use vstd::prelude::*;
use crate::bit_move::{BitMove, Move, MoveModel};
use crate::bitboard::Bitboard;
use crate::bits::bit;
use crate::color::Color;
use crate::move_flag::MoveFlag;
use crate::move_list::MoveList;
use crate::move_masks::{
    MoveMasks, row, knight_attack, king_attack, bishop_attack, rook_attack, queen_attack,
    pawn_capture_attack, pawn_push, forward, pawn_start_row,
};
use crate::piece::{PieceType, PAWN, KNIGHT, BISHOP, ROOK, QUEEN, KING};
use crate::position::Position;
use crate::square::Square;

verus! {

/// `t` holds a piece of the side to move.
pub open spec fn own(pos: Position, t: int) -> bool {
    pos.piece_at(t) != PieceType::NoPiece && pos.piece_at(t).is_of(pos.side)
}

/// `t` holds a piece of the side not to move.
pub open spec fn enemy(pos: Position, t: int) -> bool {
    pos.piece_at(t) != PieceType::NoPiece && pos.piece_at(t).is_of(pos.side.other())
}

/// A piece of kind knight, bishop, rook or queen on `s` reaches `t`.
pub open spec fn piece_reaches(kind: int, s: int, t: int, occ: u64) -> bool {
    if kind == KNIGHT {
        knight_attack(s, t)
    } else if kind == BISHOP {
        bishop_attack(s, t, occ)
    } else if kind == ROOK {
        rook_attack(s, t, occ)
    } else {
        queen_attack(s, t, occ)
    }
}

/// Row from which pawns of `side` promote when they move.
pub open spec fn promotion_row(side: Color) -> int {
    match side {
        Color::White => 1,
        Color::Black => 6,
    }
}

/// Row on which pawns of `side` may take en passant.
pub open spec fn en_passant_row(side: Color) -> int {
    match side {
        Color::White => 3,
        Color::Black => 4,
    }
}

pub open spec fn double_pawn_flag(side: Color) -> MoveFlag {
    match side {
        Color::White => MoveFlag::WDoublePawn,
        Color::Black => MoveFlag::BDoublePawn,
    }
}

pub open spec fn en_passant_flag(side: Color) -> MoveFlag {
    match side {
        Color::White => MoveFlag::WEnPassant,
        Color::Black => MoveFlag::BEnPassant,
    }
}

/// A pawn move from `s` carries a promotion flag if it starts on the
/// promotion row, and no flag otherwise.
pub open spec fn promotion_or_plain(side: Color, s: int, flag: Option<MoveFlag>) -> bool {
    if row(s) == promotion_row(side) {
        flag matches Some(f) && f.spec_is_promotion()
    } else {
        flag is None
    }
}

/// The pawn move `m` follows the pawn rules.
pub open spec fn pawn_move(pos: Position, m: MoveModel) -> bool {
    let side = pos.side;
    let s = m.source;
    let t = m.target;
    ||| pawn_capture_attack(side, s, t) && enemy(pos, t) && promotion_or_plain(side, s, m.flag)
    ||| pawn_push(side, s, t) && pos.piece_at(t) == PieceType::NoPiece && if row(s)
        == pawn_start_row(side) && row(t) == row(s) + 2 * forward(side) {
        pos.piece_at(s + 8 * forward(side)) == PieceType::NoPiece && m.flag == Some(
            double_pawn_flag(side),
        )
    } else {
        promotion_or_plain(side, s, m.flag)
    }
    ||| pos.en_passant_option == Some(Square(t as u8)) && row(s) == en_passant_row(side)
        && pawn_capture_attack(side, s, t) && pos.piece_at(t) == PieceType::NoPiece && m.flag
        == Some(en_passant_flag(side))
}

/// Square the king lands on when castling with `f`.
pub open spec fn castle_target(f: MoveFlag) -> int {
    match f {
        MoveFlag::WKCastle => 62,
        MoveFlag::WQCastle => 58,
        MoveFlag::BKCastle => 6,
        MoveFlag::BQCastle => 2,
        _ => -1,
    }
}

/// `f` is a castling flag of `side`.
pub open spec fn castle_flag_of(side: Color, f: MoveFlag) -> bool {
    match side {
        Color::White => f == MoveFlag::WKCastle || f == MoveFlag::WQCastle,
        Color::Black => f == MoveFlag::BKCastle || f == MoveFlag::BQCastle,
    }
}

/// The castling of flag `f` is allowed: the right is there, the squares
/// between king and rook are empty, and the king's home square, the square
/// it crosses and the square it lands on are not attacked.
pub open spec fn castle_allowed(pos: Position, f: MoveFlag) -> bool {
    let side = pos.side;
    let cr = pos.castling_rights;
    let empty = |sq: int| pos.piece_at(sq) == PieceType::NoPiece;
    let safe = |sq: int| !pos.attacked(side, sq);
    match f {
        MoveFlag::WKCastle => cr.has_wk() && empty(61) && empty(62) && safe(60) && safe(61) && safe(62),
        MoveFlag::WQCastle => cr.has_wq() && empty(57) && empty(58) && empty(59) && safe(60) && safe(59)
            && safe(58),
        MoveFlag::BKCastle => cr.has_bk() && empty(5) && empty(6) && safe(4) && safe(5) && safe(6),
        MoveFlag::BQCastle => cr.has_bq() && empty(1) && empty(2) && empty(3) && safe(4) && safe(3)
            && safe(2),
        _ => false,
    }
}

/// `m` is a castling move of the side to move.
pub open spec fn castle_move(pos: Position, m: MoveModel) -> bool {
    &&& m.flag matches Some(f)
    &&& castle_flag_of(pos.side, f)
    &&& m.target == castle_target(f)
    &&& castle_allowed(pos, f)
}

/// The flag `f` fits a pawn move from `s` to `t` of class `class`: 0 for
/// captures, 1 for pushes, where a push of two rows is a double push and
/// needs the square it crosses to be empty.
pub open spec fn pawn_flag_for(pos: Position, s: int, t: int, class: int, f: Option<MoveFlag>) -> bool {
    let side = pos.side;
    if class == 1 && row(s) == pawn_start_row(side) && row(t) == row(s) + 2 * forward(side) {
        pos.piece_at(s + 8 * forward(side)) == PieceType::NoPiece && f == Some(double_pawn_flag(side))
    } else {
        promotion_or_plain(side, s, f)
    }
}

/// `t` is a target of class `class` for a pawn of the side to move on `s`.
pub open spec fn pawn_target(pos: Position, s: int, t: int, class: int) -> bool {
    if class == 0 {
        pawn_capture_attack(pos.side, s, t) && enemy(pos, t)
    } else {
        pawn_push(pos.side, s, t) && pos.piece_at(t) == PieceType::NoPiece
    }
}

/// `m` is a pseudo-legal move in `pos`: a move of a piece of the side to
/// move by the rules of its kind, that may leave its own king in check.
pub open spec fn pseudo_legal(pos: Position, m: MoveModel) -> bool {
    &&& 0 <= m.source < 64
    &&& 0 <= m.target < 64
    &&& m.piece != PieceType::NoPiece
    &&& m.piece.is_of(pos.side)
    &&& pos.piece_at(m.source) == m.piece
    &&& m.capture == pos.piece_at(m.target)
    &&& if m.piece.kind() == PAWN {
        pawn_move(pos, m)
    } else if m.piece.kind() == KING {
        &&& m.source == pos.king_square(pos.side)
        &&& (m.flag is None && king_attack(m.source, m.target) && !own(pos, m.target))
            || castle_move(pos, m)
    } else {
        m.flag is None && piece_reaches(m.piece.kind(), m.source, m.target, pos.ao.0) && !own(
            pos,
            m.target,
        )
    }
}

/// Which pseudo-legal moves a generator keeps.
pub trait Filter {
    spec fn keeps(position: Position, bit_move: BitMove) -> bool;

    fn should_add(position: &Position, bit_move: BitMove) -> (r: bool)
        requires
            position.wf(),
            position.has_kings(),
            bit_move.encoded(),
            pseudo_legal(*position, bit_move@),
        ensures
            r == Self::keeps(*position, bit_move),
    ;
}

/// Keeps every pseudo-legal move.
pub struct PseudoLegal;

impl Filter for PseudoLegal {
    open spec fn keeps(position: Position, bit_move: BitMove) -> bool {
        true
    }

    fn should_add(_position: &Position, _bit_move: BitMove) -> (r: bool) {
        true
    }
}

/// A pseudo-legal move can be played without corrupting the position.
pub proof fn lemma_pseudo_legal_applicable(pos: Position, m: MoveModel)
    requires
        pos.wf(),
        pseudo_legal(pos, m),
    ensures
        pos.applicable(m),
{
    pos.lemma_board();
    if m.piece.kind() == KING && m.flag is Some {
        assert(castle_move(pos, m));
    }
}

/// After a pseudo-legal move, the king of the side that moved is still on the board.
pub proof fn lemma_mover_king_kept(pos: Position, m: MoveModel)
    requires
        pos.wf(),
        pos.bb(Position::king_index(pos.side)) != 0,
        pseudo_legal(pos, m),
    ensures
        pos.after(m, if m.source == pos.king_square(pos.side) { m.target } else { pos.king_square(pos.side) })
            == PieceType::of_index(Position::king_index(pos.side)),
{
    pos.lemma_board();
    crate::bits::lemma_nonzero(pos.bb(Position::king_index(pos.side)));
    let k = pos.king_square(pos.side);
    assert(pos.piece_at(k) == PieceType::of_index(Position::king_index(pos.side)));
    if m.piece.kind() == KING && m.flag is Some {
        assert(castle_move(pos, m));
    }
}

/// Keeps the pseudo-legal moves that do not leave the own king in check.
pub struct Legal;

impl Filter for Legal {
    open spec fn keeps(position: Position, bit_move: BitMove) -> bool {
        !position.play(bit_move@).spec_in_check(position.side)
    }

    fn should_add(position: &Position, bit_move: BitMove) -> (r: bool) {
        let mut position_copy = *position;
        proof {
            lemma_pseudo_legal_applicable(*position, bit_move@);
        }
        position_copy.make_move(bit_move);
        proof {
            position.lemma_play(bit_move@, position_copy);
            position.lemma_play(bit_move@, position_copy);
            position_copy.lemma_same_check(position.play(bit_move@), position.side);
            lemma_mover_king_kept(*position, bit_move@);
            position_copy.lemma_board();
            let x = if bit_move@.source == position.king_square(position.side) {
                bit_move@.target
            } else {
                position.king_square(position.side)
            };
            assert(position_copy.piece_at(x) == PieceType::of_index(Position::king_index(position.side)));
            crate::bits::lemma_zero_iff(position_copy.bb(Position::king_index(position.side)));
        }
        !position_copy.in_check(position.side)
    }
}

/// A move the generator hands out: encoded, pseudo-legal, kept by the
/// filter, and a capture when only captures are asked for.
pub open spec fn selected<F: Filter>(pos: Position, bm: BitMove, captures_only: bool) -> bool {
    &&& bm.encoded()
    &&& pseudo_legal(pos, bm@)
    &&& F::keeps(pos, bm)
    &&& (captures_only ==> bm@.capture != PieceType::NoPiece)
}

/// Every move of the list is encoded and pseudo-legal, and none is there twice.
pub open spec fn list_ok(pos: Position, moves: Seq<BitMove>) -> bool {
    &&& moves.no_duplicates()
    &&& forall|i: int| 0 <= i < moves.len() ==> (#[trigger] moves[i]).encoded() && pseudo_legal(pos, moves[i]@)
}

pub struct MoveGeneration;

impl MoveGeneration {
    /// Appends the move if the filter keeps it.
    fn add_move<T: Move, F: Filter>(position: &Position, move_list: &mut MoveList<T>, bit_move: BitMove)
        requires
            position.wf(),
            position.has_kings(),
            bit_move.encoded(),
            pseudo_legal(*position, bit_move@),
        ensures
            final(move_list).moves() == if F::keeps(*position, bit_move) {
                old(move_list).moves().push(bit_move)
            } else {
                old(move_list).moves()
            },
    {
        if F::should_add(position, bit_move) {
            let mv = T::new(position, bit_move);
            move_list.add(mv);
            proof {
                assert(move_list.moves() =~= old(move_list).moves().push(bit_move));
            }
        }
    }

    /// Appends, for each square of `targets` in increasing order, the plain
    /// move of `piece` from `source` to it, when the filter keeps it.
    fn add_targets<T: Move, F: Filter>(
        position: &Position,
        move_list: &mut MoveList<T>,
        source: Square,
        piece: PieceType,
        targets: Bitboard,
        Ghost(captures_only): Ghost<bool>,
    )
        requires
            position.wf(),
            position.has_kings(),
            source.valid(),
            piece != PieceType::NoPiece,
            list_ok(*position, old(move_list).moves()),
            forall|t: int| #[trigger]
                bit(targets.0, t) ==> pseudo_legal(
                    *position,
                    MoveModel {
                        source: source.0 as int,
                        target: t,
                        piece,
                        capture: position.piece_at(t),
                        flag: None,
                    },
                ) && (captures_only ==> position.piece_at(t) != PieceType::NoPiece),
            forall|i: int|
                0 <= i < old(move_list).moves().len() && (#[trigger] old(move_list).moves()[i])@.source
                    == source.0 ==> !bit(targets.0, old(move_list).moves()[i]@.target),
        ensures
            list_ok(*position, final(move_list).moves()),
            old(move_list).moves().is_prefix_of(final(move_list).moves()),
            forall|i: int|
                old(move_list).moves().len() <= i < final(move_list).moves().len()
                    ==> (#[trigger] final(move_list).moves()[i])@.source == source.0
                    && bit(targets.0, final(move_list).moves()[i]@.target)
                    && final(move_list).moves()[i]@.piece == piece
                    && final(move_list).moves()[i]@.flag is None,
            forall|bm: BitMove| #[trigger]
                final(move_list).moves().contains(bm) <==> old(move_list).moves().contains(bm) || (
                selected::<F>(*position, bm, captures_only) && bm@.source == source.0 && bm@.flag is None
                    && bit(targets.0, bm@.target)),
    {
        let ghost old_moves = move_list.moves();
        let mut rem = targets;
        while rem.is_not_empty()
            invariant
                position.wf(),
                position.has_kings(),
                source.valid(),
                piece != PieceType::NoPiece,
                list_ok(*position, move_list.moves()),
                old_moves.is_prefix_of(move_list.moves()),
                forall|t: int| #[trigger] bit(rem.0, t) ==> bit(targets.0, t),
                forall|t: int| #[trigger]
                    bit(targets.0, t) ==> pseudo_legal(
                        *position,
                        MoveModel {
                            source: source.0 as int,
                            target: t,
                            piece,
                            capture: position.piece_at(t),
                            flag: None,
                        },
                    ) && (captures_only ==> position.piece_at(t) != PieceType::NoPiece),
                forall|i: int|
                    0 <= i < old_moves.len() && (#[trigger] old_moves[i])@.source == source.0
                        ==> !bit(targets.0, old_moves[i]@.target),
                forall|i: int|
                    old_moves.len() <= i < move_list.moves().len() ==> (#[trigger] move_list.moves()[i])@.source
                        == source.0 && bit(targets.0, move_list.moves()[i]@.target) && !bit(
                        rem.0,
                        move_list.moves()[i]@.target,
                    ) && move_list.moves()[i]@.piece == piece && move_list.moves()[i]@.flag is None,
                forall|bm: BitMove| #[trigger]
                    move_list.moves().contains(bm) <==> old_moves.contains(bm) || (selected::<F>(
                        *position,
                        bm,
                        captures_only,
                    ) && bm@.source == source.0 && bm@.flag is None && bit(targets.0, bm@.target)
                        && !bit(rem.0, bm@.target)),
            decreases rem.0,
        {
            let ghost before = move_list.moves();
            let ghost rem_before = rem;
            let target = rem.pop_lsb();
            let capture = position.piece_on_square(target);
            let bit_move = BitMove::encode(source, target, piece, capture, None);
            proof {
                let t = target.0 as int;
                assert(bit(targets.0, t));
                assert forall|i: int| 0 <= i < before.len() implies #[trigger] before[i] != bit_move by {
                    if i < old_moves.len() {
                        assert(before[i] == old_moves[i]);
                    }
                }
            }
            Self::add_move::<T, F>(position, move_list, bit_move);
            proof {
                let t = target.0 as int;
                let after = move_list.moves();
                assert forall|bm: BitMove| #[trigger]
                    after.contains(bm) <==> old_moves.contains(bm) || (selected::<F>(
                        *position,
                        bm,
                        captures_only,
                    ) && bm@.source == source.0 && bm@.flag is None && bit(targets.0, bm@.target)
                        && !bit(rem.0, bm@.target)) by {
                    if selected::<F>(*position, bm, captures_only) && bm@.source == source.0
                        && bm@.flag is None && bm@.target == t {
                        crate::bit_move::law_encode_decode(bm, bit_move);
                    }
                    if F::keeps(*position, bit_move) {
                        assert(after == before.push(bit_move));
                        if after.contains(bm) && bm != bit_move {
                            let k = choose|k: int| 0 <= k < after.len() && after[k] == bm;
                            assert(before[k] == bm);
                        }
                        if before.contains(bm) {
                            let k = choose|k: int| 0 <= k < before.len() && before[k] == bm;
                            assert(after[k] == bm);
                        }
                        if bm == bit_move {
                            assert(after[before.len() as int] == bm);
                        }
                    }
                }
                assert(old_moves.is_prefix_of(after)) by {
                    assert forall|i: int| 0 <= i < old_moves.len() implies after[i] == old_moves[i] by {
                        assert(before[i] == old_moves[i]);
                    }
                }
            }
        }
    }

    /// Squares that moves of the side to move may land on: any square not
    /// holding an own piece, or only enemy squares when only captures are asked for.
    fn landing_mask(position: &Position, captures_only: bool) -> (r: Bitboard)
        requires
            position.wf(),
        ensures
            forall|t: int| 0 <= t < 64 ==> (#[trigger] bit(r.0, t) <==> !own(*position, t) && (captures_only
                ==> position.piece_at(t) != PieceType::NoPiece)),
            forall|t: int| #[trigger] bit(r.0, t) ==> 0 <= t < 64,
    {
        proof {
            position.lemma_board();
        }
        let (own_occ, enemy_occ) = match position.side {
            Color::White => (position.wo, position.bo),
            Color::Black => (position.bo, position.wo),
        };
        if captures_only {
            enemy_occ
        } else {
            own_occ.not()
        }
    }

    /// Appends the kept moves of the knights, bishops, rooks or queens of the side to move.
    fn gen_piece_moves<T: Move, F: Filter>(
        position: &Position,
        move_list: &mut MoveList<T>,
        kind: usize,
        captures_only: bool,
    )
        requires
            position.wf(),
            position.has_kings(),
            kind == KNIGHT || kind == BISHOP || kind == ROOK || kind == QUEEN,
            list_ok(*position, old(move_list).moves()),
            forall|i: int|
                0 <= i < old(move_list).moves().len() ==> (#[trigger] old(move_list).moves()[i])@.piece
                    != PieceType::of_side_kind(position.side, kind as int),
        ensures
            list_ok(*position, final(move_list).moves()),
            old(move_list).moves().is_prefix_of(final(move_list).moves()),
            forall|i: int|
                old(move_list).moves().len() <= i < final(move_list).moves().len()
                    ==> (#[trigger] final(move_list).moves()[i])@.piece == PieceType::of_side_kind(position.side, kind as int),
            forall|bm: BitMove| #[trigger]
                final(move_list).moves().contains(bm) <==> old(move_list).moves().contains(bm) || (
                selected::<F>(*position, bm, captures_only) && bm@.piece == PieceType::of_side_kind(
                    position.side,
                    kind as int,
                )),
    {
        let piece = PieceType::from_side_kind(position.side, kind);
        let landing = Self::landing_mask(position, captures_only);
        let ghost old_moves = move_list.moves();
        let ghost pc = piece;
        let orig = position.bbs[piece.to_index()];
        let mut bb = orig;
        proof {
            position.lemma_board();
            crate::piece::law_index_round_trip(piece);
        }
        while bb.is_not_empty()
            invariant
                position.wf(),
                position.has_kings(),
                kind == KNIGHT || kind == BISHOP || kind == ROOK || kind == QUEEN,
                pc == piece,
                piece == PieceType::of_side_kind(position.side, kind as int),
                piece.kind() == kind,
                piece.is_of(position.side),
                piece != PieceType::NoPiece,
                orig == position.bbs@[piece.index()],
                forall|t: int| 0 <= t < 64 ==> (#[trigger] bit(landing.0, t) <==> !own(*position, t) && (captures_only
                    ==> position.piece_at(t) != PieceType::NoPiece)),
                forall|t: int| #[trigger] bit(landing.0, t) ==> 0 <= t < 64,
                forall|t: int| #[trigger] bit(bb.0, t) ==> bit(orig.0, t),
                list_ok(*position, move_list.moves()),
                old_moves.is_prefix_of(move_list.moves()),
                forall|i: int| 0 <= i < old_moves.len() ==> (#[trigger] old_moves[i])@.piece != piece,
                forall|i: int|
                    old_moves.len() <= i < move_list.moves().len() ==> (#[trigger] move_list.moves()[i])@.piece
                        == piece && !bit(bb.0, move_list.moves()[i]@.source),
                forall|bm: BitMove| #[trigger]
                    move_list.moves().contains(bm) <==> old_moves.contains(bm) || (selected::<F>(
                        *position,
                        bm,
                        captures_only,
                    ) && bm@.piece == piece && !bit(bb.0, bm@.source)),
            decreases bb.0,
        {
            let ghost before = move_list.moves();
            let ghost bb_before = bb;
            let source = bb.pop_lsb();
            proof {
                position.lemma_board();
            }
            let attacks = if kind == KNIGHT {
                MoveMasks::get_knight_mask(source)
            } else if kind == BISHOP {
                MoveMasks::get_bishop_mask(source, position.ao)
            } else if kind == ROOK {
                MoveMasks::get_rook_mask(source, position.ao)
            } else {
                MoveMasks::get_queen_mask(source, position.ao)
            };
            let targets = attacks.and(landing);
            proof {
                let s = source.0 as int;
                assert(position.piece_at(s) == piece);
                assert forall|t: int| #[trigger] bit(targets.0, t) implies pseudo_legal(
                    *position,
                    MoveModel { source: s, target: t, piece, capture: position.piece_at(t), flag: None },
                ) && (captures_only ==> position.piece_at(t) != PieceType::NoPiece) by {
                    assert(bit(landing.0, t));
                    assert(bit(attacks.0, t));
                }
                assert forall|i: int|
                    0 <= i < before.len() && (#[trigger] before[i])@.source == s implies !bit(
                    targets.0,
                    before[i]@.target,
                ) by {
                    if i < old_moves.len() {
                        assert(before[i] == old_moves[i]);
                        assert(pseudo_legal(*position, before[i]@));
                    }
                }
            }
            Self::add_targets::<T, F>(position, move_list, source, piece, targets, Ghost(captures_only));
            proof {
                let s = source.0 as int;
                let after = move_list.moves();
                assert forall|bm: BitMove| #[trigger]
                    after.contains(bm) <==> old_moves.contains(bm) || (selected::<F>(
                        *position,
                        bm,
                        captures_only,
                    ) && bm@.piece == piece && !bit(bb.0, bm@.source)) by {
                    if selected::<F>(*position, bm, captures_only) && bm@.piece == piece
                        && bm@.source == s {
                        assert(bit(landing.0, bm@.target));
                        assert(bit(attacks.0, bm@.target));
                    }
                }
                assert forall|i: int| 0 <= i < old_moves.len() implies after[i] == old_moves[i] by {
                    assert(before[i] == old_moves[i]);
                }
                assert forall|i: int|
                    old_moves.len() <= i < after.len() implies (#[trigger] after[i])@.piece == piece
                        && !bit(bb.0, after[i]@.source) by {
                    if i < before.len() {
                        assert(after[i] == before[i]);
                    } else {
                        assert(pseudo_legal(*position, after[i]@));
                    }
                }
            }
        }
        proof {
            assert forall|bm: BitMove|
                selected::<F>(*position, bm, captures_only) && bm@.piece == piece implies !bit(
                bb.0,
                bm@.source,
            ) by {
                crate::bits::lemma_zero_iff(bb.0);
            }
        }
    }

    /// Whether the castling of flag `flag` is allowed.
    fn castle_allowed_exec(position: &Position, flag: MoveFlag) -> (r: bool)
        requires
            position.wf(),
            flag.spec_is_castle(),
        ensures
            r == castle_allowed(*position, flag),
    {
        proof {
            position.lemma_board();
        }
        let cr = position.castling_rights;
        let (right, a, b, c, e, f, g): (bool, u8, u8, u8, u8, u8, u8) = match flag {
            MoveFlag::WKCastle => (cr.wk(), 61, 62, 62, 60, 61, 62),
            MoveFlag::WQCastle => (cr.wq(), 57, 58, 59, 60, 59, 58),
            MoveFlag::BKCastle => (cr.bk(), 5, 6, 6, 4, 5, 6),
            _ => (cr.bq(), 1, 2, 3, 4, 3, 2),
        };
        if !right {
            return false;
        }
        let between = Square(a).to_bb().or(Square(b).to_bb()).or(Square(c).to_bb());
        let blocked = position.ao.and(between);
        if !blocked.is_empty() {
            proof {
                let j = choose|j: int| 0 <= j < 64 && #[trigger] blocked.has(j);
                assert(position.piece_at(j) != PieceType::NoPiece);
            }
            return false;
        }
        proof {
            assert(!blocked.has(a as int));
            assert(!blocked.has(b as int));
            assert(!blocked.has(c as int));
        }
        let side = position.side;
        let r = !position.is_square_attacked(side, Square(e)) && !position.is_square_attacked(side, Square(f))
            && !position.is_square_attacked(side, Square(g));
        proof {
            assert(position.piece_at(a as int) == PieceType::NoPiece);
            assert(position.piece_at(b as int) == PieceType::NoPiece);
            assert(position.piece_at(c as int) == PieceType::NoPiece);
        }
        r
    }

    /// Appends the kept moves of the king of the side to move, castling included.
    fn gen_king_moves<T: Move, F: Filter>(
        position: &Position,
        move_list: &mut MoveList<T>,
        captures_only: bool,
    )
        requires
            position.wf(),
            position.has_kings(),
            list_ok(*position, old(move_list).moves()),
            forall|i: int|
                0 <= i < old(move_list).moves().len() ==> (#[trigger] old(move_list).moves()[i])@.piece
                    != PieceType::of_side_kind(position.side, KING as int),
        ensures
            list_ok(*position, final(move_list).moves()),
            old(move_list).moves().is_prefix_of(final(move_list).moves()),
            forall|i: int|
                old(move_list).moves().len() <= i < final(move_list).moves().len()
                    ==> (#[trigger] final(move_list).moves()[i])@.piece == PieceType::of_side_kind(position.side, KING as int),
            forall|bm: BitMove| #[trigger]
                final(move_list).moves().contains(bm) <==> old(move_list).moves().contains(bm) || (
                selected::<F>(*position, bm, captures_only) && bm@.piece == PieceType::of_side_kind(
                    position.side,
                    KING as int,
                )),
    {
        let side = position.side;
        let king = PieceType::from_side_kind(side, KING);
        proof {
            position.lemma_board();
            crate::piece::law_index_round_trip(king);
        }
        let source = Square::from_bitboard(position.bbs[king.to_index()]);
        let landing = Self::landing_mask(position, captures_only);
        let targets = MoveMasks::get_king_mask(source).and(landing);
        let ghost old_moves = move_list.moves();
        proof {
            let s = source.0 as int;
            assert(s == position.king_square(side));
            assert(position.piece_at(s) == king);
            assert forall|t: int| #[trigger] bit(targets.0, t) implies pseudo_legal(
                *position,
                MoveModel { source: s, target: t, piece: king, capture: position.piece_at(t), flag: None },
            ) && (captures_only ==> position.piece_at(t) != PieceType::NoPiece) by {
                assert(bit(landing.0, t));
            }
            assert forall|i: int|
                0 <= i < old_moves.len() && (#[trigger] old_moves[i])@.source == s implies !bit(
                targets.0,
                old_moves[i]@.target,
            ) by {
                assert(pseudo_legal(*position, old_moves[i]@));
            }
        }
        Self::add_targets::<T, F>(position, move_list, source, king, targets, Ghost(captures_only));
        let ghost mid = move_list.moves();
        proof {
            assert forall|bm: BitMove|
                selected::<F>(*position, bm, captures_only) && bm@.piece == king && bm@.flag is None
                    implies #[trigger] mid.contains(bm) by {
                assert(bit(landing.0, bm@.target));
            }
        }
        if !captures_only {
            let (kflag, qflag) = match side {
                Color::White => (MoveFlag::WKCastle, MoveFlag::WQCastle),
                Color::Black => (MoveFlag::BKCastle, MoveFlag::BQCastle),
            };
            proof {
                let cur = move_list.moves();
                assert forall|i: int| 0 <= i < cur.len() implies (#[trigger] cur[i])@.flag != Some(kflag)
                    && cur[i]@.flag != Some(qflag) by {
                    if i < old_moves.len() {
                        assert(cur[i] == old_moves[i]);
                        assert(pseudo_legal(*position, old_moves[i]@));
                    }
                }
            }
            Self::add_castle::<T, F>(position, move_list, source, king, kflag);
            let ghost mid2 = move_list.moves();
            proof {
                let cur = move_list.moves();
                assert forall|i: int| 0 <= i < cur.len() implies (#[trigger] cur[i])@.flag != Some(qflag) by {
                    if i < mid.len() {
                        assert(cur[i] == mid[i]);
                        if i < old_moves.len() {
                            assert(mid[i] == old_moves[i]);
                            assert(pseudo_legal(*position, old_moves[i]@));
                        }
                    }
                }
            }
            Self::add_castle::<T, F>(position, move_list, source, king, qflag);
            proof {
                let cur = move_list.moves();
                assert forall|i: int| old_moves.len() <= i < cur.len() implies (#[trigger] cur[i])@.piece == king by {
                    if i < mid2.len() {
                        assert(cur[i] == mid2[i]);
                        if i < mid.len() {
                            assert(mid2[i] == mid[i]);
                        }
                    }
                }
            }
        }
        proof {
            let after = move_list.moves();
            assert forall|bm: BitMove| #[trigger]
                after.contains(bm) <==> old_moves.contains(bm) || (selected::<F>(
                    *position,
                    bm,
                    captures_only,
                ) && bm@.piece == king) by {
                if selected::<F>(*position, bm, captures_only) && bm@.piece == king {
                    assert(mid.contains(bm) || bm@.flag is Some);
                }
            }
        }
    }

    /// Appends the castling move of flag `flag` if it is allowed and kept.
    fn add_castle<T: Move, F: Filter>(
        position: &Position,
        move_list: &mut MoveList<T>,
        source: Square,
        king: PieceType,
        flag: MoveFlag,
    )
        requires
            position.wf(),
            position.has_kings(),
            flag.spec_is_castle(),
            castle_flag_of(position.side, flag),
            king == PieceType::of_side_kind(position.side, KING as int),
            source.0 == position.king_square(position.side),
            source.valid(),
            position.piece_at(source.0 as int) == king,
            list_ok(*position, old(move_list).moves()),
            forall|i: int|
                0 <= i < old(move_list).moves().len() ==> (#[trigger] old(move_list).moves()[i])@.flag
                    != Some(flag),
        ensures
            list_ok(*position, final(move_list).moves()),
            old(move_list).moves().is_prefix_of(final(move_list).moves()),
            forall|i: int|
                old(move_list).moves().len() <= i < final(move_list).moves().len()
                    ==> (#[trigger] final(move_list).moves()[i])@.piece == king
                    && final(move_list).moves()[i]@.flag == Some(flag),
            forall|bm: BitMove| #[trigger]
                final(move_list).moves().contains(bm) <==> old(move_list).moves().contains(bm) || (
                selected::<F>(*position, bm, false) && bm@.piece == king && bm@.flag == Some(flag)),
    {
        proof {
            position.lemma_board();
        }
        if Self::castle_allowed_exec(position, flag) {
            let target: u8 = match flag {
                MoveFlag::WKCastle => 62,
                MoveFlag::WQCastle => 58,
                MoveFlag::BKCastle => 6,
                _ => 2,
            };
            let bm = BitMove::encode(source, Square(target), king, PieceType::NoPiece, Some(flag));
            let ghost before = move_list.moves();
            Self::add_move::<T, F>(position, move_list, bm);
            proof {
                let after = move_list.moves();
                assert forall|i: int| 0 <= i < before.len() implies after[i] == before[i] by {}
                assert forall|b: BitMove| #[trigger]
                    after.contains(b) <==> before.contains(b) || (selected::<F>(*position, b, false)
                        && b@.piece == king && b@.flag == Some(flag)) by {
                    if selected::<F>(*position, b, false) && b@.piece == king && b@.flag == Some(flag) {
                        crate::bit_move::law_encode_decode(b, bm);
                    }
                    if F::keeps(*position, bm) {
                        if after.contains(b) && b != bm {
                            let k = choose|k: int| 0 <= k < after.len() && after[k] == b;
                            assert(before[k] == b);
                        }
                        if before.contains(b) {
                            let k = choose|k: int| 0 <= k < before.len() && before[k] == b;
                            assert(after[k] == b);
                        }
                        if b == bm {
                            assert(after[before.len() as int] == b);
                        }
                    }
                }
            }
        } else {
            proof {
                assert forall|b: BitMove| #[trigger] move_list.moves().contains(b) <==> old(move_list).moves().contains(b)
                    || (selected::<F>(*position, b, false) && b@.piece == king && b@.flag == Some(flag)) by {}
            }
        }
    }

    /// Appends the move of `pawn` from `source` to `target`: the four
    /// promotions when `promote` holds, else the move with flag `plain`.
    #[verifier::rlimit(30)]
    fn add_pawn_move<T: Move, F: Filter>(
        position: &Position,
        move_list: &mut MoveList<T>,
        source: Square,
        target: Square,
        pawn: PieceType,
        capture: PieceType,
        promote: bool,
        plain: Option<MoveFlag>,
        Ghost(captures_only): Ghost<bool>,
    )
        requires
            position.wf(),
            position.has_kings(),
            source.valid(),
            target.valid(),
            pawn != PieceType::NoPiece,
            list_ok(*position, old(move_list).moves()),
            forall|f: Option<MoveFlag>|
                (if promote { f matches Some(g) && g.spec_is_promotion() } else { f == plain })
                    ==> #[trigger] pseudo_legal(
                    *position,
                    MoveModel { source: source.0 as int, target: target.0 as int, piece: pawn, capture, flag: f },
                ),
            captures_only ==> capture != PieceType::NoPiece,
            forall|i: int|
                0 <= i < old(move_list).moves().len() ==> !((#[trigger] old(move_list).moves()[i])@.source
                    == source.0 && old(move_list).moves()[i]@.target == target.0),
        ensures
            list_ok(*position, final(move_list).moves()),
            old(move_list).moves().is_prefix_of(final(move_list).moves()),
            forall|i: int|
                old(move_list).moves().len() <= i < final(move_list).moves().len()
                    ==> (#[trigger] final(move_list).moves()[i])@.source == source.0
                    && final(move_list).moves()[i]@.target == target.0
                    && final(move_list).moves()[i]@.piece == pawn,
            forall|bm: BitMove| #[trigger]
                final(move_list).moves().contains(bm) <==> old(move_list).moves().contains(bm) || (
                selected::<F>(*position, bm, captures_only) && bm@.source == source.0 && bm@.target
                    == target.0 && bm@.piece == pawn && bm@.capture == capture && (if promote {
                    bm@.flag matches Some(g) && g.spec_is_promotion()
                } else {
                    bm@.flag == plain
                })),
    {
        let ghost old_moves = move_list.moves();
        if promote {
            Self::add_one_pawn_move::<T, F>(position, move_list, source, target, pawn, capture, Some(MoveFlag::PromoN), Ghost(captures_only));
            let ghost m1 = move_list.moves();
            proof {
                let cur = move_list.moves();
                assert forall|i: int| 0 <= i < cur.len() && cur[i]@.source == source.0 && cur[i]@.target == target.0 implies (#[trigger] cur[i])@.flag != Some(MoveFlag::PromoB) && cur[i]@.flag != Some(MoveFlag::PromoR) && cur[i]@.flag != Some(MoveFlag::PromoQ) by {
                    if i < old_moves.len() {
                        assert(cur[i] == old_moves[i]);
                    }
                }
            }
            Self::add_one_pawn_move::<T, F>(position, move_list, source, target, pawn, capture, Some(MoveFlag::PromoB), Ghost(captures_only));
            let ghost m2 = move_list.moves();
            proof {
                let cur = move_list.moves();
                assert forall|i: int| 0 <= i < cur.len() && cur[i]@.source == source.0 && cur[i]@.target == target.0 implies (#[trigger] cur[i])@.flag != Some(MoveFlag::PromoR) && cur[i]@.flag != Some(MoveFlag::PromoQ) by {
                    if i < m1.len() {
                        assert(cur[i] == m1[i]);
                    }
                }
            }
            Self::add_one_pawn_move::<T, F>(position, move_list, source, target, pawn, capture, Some(MoveFlag::PromoR), Ghost(captures_only));
            proof {
                let cur = move_list.moves();
                assert forall|i: int| 0 <= i < cur.len() && cur[i]@.source == source.0 && cur[i]@.target == target.0 implies (#[trigger] cur[i])@.flag != Some(MoveFlag::PromoQ) by {
                    if i < m2.len() {
                        assert(cur[i] == m2[i]);
                    }
                }
            }
            let ghost m3 = move_list.moves();
            Self::add_one_pawn_move::<T, F>(position, move_list, source, target, pawn, capture, Some(MoveFlag::PromoQ), Ghost(captures_only));
            proof {
                let after = move_list.moves();
                assert forall|i: int| old_moves.len() <= i < after.len() implies (#[trigger] after[i])@.source == source.0
                    && after[i]@.target == target.0 && after[i]@.piece == pawn by {
                    if i < m3.len() {
                        assert(after[i] == m3[i]);
                        if i < m2.len() {
                            assert(m3[i] == m2[i]);
                            if i < m1.len() {
                                assert(m2[i] == m1[i]);
                            }
                        }
                    }
                }
            }
        } else {
            Self::add_one_pawn_move::<T, F>(position, move_list, source, target, pawn, capture, plain, Ghost(captures_only));
        }
        proof {
            let after = move_list.moves();
            assert forall|i: int| 0 <= i < old_moves.len() implies after[i] == old_moves[i] by {}
        }
    }

    /// Appends one pawn move with flag `flag`, if the filter keeps it.
    fn add_one_pawn_move<T: Move, F: Filter>(
        position: &Position,
        move_list: &mut MoveList<T>,
        source: Square,
        target: Square,
        pawn: PieceType,
        capture: PieceType,
        flag: Option<MoveFlag>,
        Ghost(captures_only): Ghost<bool>,
    )
        requires
            position.wf(),
            position.has_kings(),
            source.valid(),
            target.valid(),
            pawn != PieceType::NoPiece,
            list_ok(*position, old(move_list).moves()),
            pseudo_legal(
                *position,
                MoveModel { source: source.0 as int, target: target.0 as int, piece: pawn, capture, flag },
            ),
            captures_only ==> capture != PieceType::NoPiece,
            forall|i: int|
                0 <= i < old(move_list).moves().len() ==> !((#[trigger] old(move_list).moves()[i])@.source
                    == source.0 && old(move_list).moves()[i]@.target == target.0
                    && old(move_list).moves()[i]@.flag == flag),
        ensures
            list_ok(*position, final(move_list).moves()),
            old(move_list).moves().is_prefix_of(final(move_list).moves()),
            forall|i: int|
                old(move_list).moves().len() <= i < final(move_list).moves().len()
                    ==> (#[trigger] final(move_list).moves()[i])@.source == source.0
                    && final(move_list).moves()[i]@.target == target.0
                    && final(move_list).moves()[i]@.piece == pawn
                    && final(move_list).moves()[i]@.flag == flag,
            forall|bm: BitMove| #[trigger]
                final(move_list).moves().contains(bm) <==> old(move_list).moves().contains(bm) || (
                selected::<F>(*position, bm, captures_only) && bm@.source == source.0 && bm@.target
                    == target.0 && bm@.piece == pawn && bm@.capture == capture && bm@.flag == flag),
    {
        let bm = BitMove::encode(source, target, pawn, capture, flag);
        let ghost before = move_list.moves();
        Self::add_move::<T, F>(position, move_list, bm);
        proof {
            let after = move_list.moves();
            assert forall|i: int| 0 <= i < before.len() implies after[i] == before[i] by {}
            assert forall|b: BitMove| #[trigger]
                after.contains(b) <==> before.contains(b) || (selected::<F>(*position, b, captures_only)
                    && b@.source == source.0 && b@.target == target.0 && b@.piece == pawn
                    && b@.capture == capture && b@.flag == flag) by {
                if selected::<F>(*position, b, captures_only) && b@.source == source.0 && b@.target
                    == target.0 && b@.piece == pawn && b@.capture == capture && b@.flag == flag {
                    crate::bit_move::law_encode_decode(b, bm);
                }
                if F::keeps(*position, bm) {
                    if after.contains(b) && b != bm {
                        let k = choose|k: int| 0 <= k < after.len() && after[k] == b;
                        assert(before[k] == b);
                    }
                    if before.contains(b) {
                        let k = choose|k: int| 0 <= k < before.len() && before[k] == b;
                        assert(after[k] == b);
                    }
                    if b == bm {
                        assert(after[before.len() as int] == b);
                    }
                }
            }
        }
    }

    /// Appends the pawn moves from `source` to the squares of `targets`, of class `class`.
    fn add_pawn_targets<T: Move, F: Filter>(
        position: &Position,
        move_list: &mut MoveList<T>,
        source: Square,
        pawn: PieceType,
        targets: Bitboard,
        class: u8,
        Ghost(captures_only): Ghost<bool>,
    )
        requires
            position.wf(),
            position.has_kings(),
            source.valid(),
            pawn == PieceType::of_side_kind(position.side, PAWN as int),
            position.piece_at(source.0 as int) == pawn,
            class == 0 || class == 1,
            captures_only ==> class == 0,
            list_ok(*position, old(move_list).moves()),
            forall|t: int| #[trigger] bit(targets.0, t) ==> pawn_target(*position, source.0 as int, t, class as int),
            forall|i: int|
                0 <= i < old(move_list).moves().len() && (#[trigger] old(move_list).moves()[i])@.source
                    == source.0 ==> !bit(targets.0, old(move_list).moves()[i]@.target),
        ensures
            list_ok(*position, final(move_list).moves()),
            old(move_list).moves().is_prefix_of(final(move_list).moves()),
            forall|i: int|
                old(move_list).moves().len() <= i < final(move_list).moves().len()
                    ==> (#[trigger] final(move_list).moves()[i])@.source == source.0
                    && bit(targets.0, final(move_list).moves()[i]@.target)
                    && final(move_list).moves()[i]@.piece == pawn,
            forall|bm: BitMove| #[trigger]
                final(move_list).moves().contains(bm) <==> old(move_list).moves().contains(bm) || (
                selected::<F>(*position, bm, captures_only) && bm@.source == source.0 && bm@.piece == pawn
                    && bit(targets.0, bm@.target) && pawn_flag_for(*position, source.0 as int, bm@.target, class as int, bm@.flag)),
    {
        let ghost old_moves = move_list.moves();
        let ghost s = source.0 as int;
        let side = position.side;
        let (start_row, double_row, promo_row): (u8, u8, u8) = match side {
            Color::White => (6, 4, 1),
            Color::Black => (1, 3, 6),
        };
        let mut rem = targets;
        proof {
            position.lemma_board();
        }
        while rem.is_not_empty()
            invariant
                position.wf(),
                position.has_kings(),
                source.valid(),
                s == source.0,
                side == position.side,
                start_row == pawn_start_row(side),
                promo_row == promotion_row(side),
                double_row == pawn_start_row(side) + 2 * forward(side),
                pawn == PieceType::of_side_kind(position.side, PAWN as int),
                position.piece_at(s) == pawn,
                class == 0 || class == 1,
                captures_only ==> class == 0,
                list_ok(*position, move_list.moves()),
                old_moves.is_prefix_of(move_list.moves()),
                forall|t: int| #[trigger] bit(rem.0, t) ==> bit(targets.0, t),
                forall|t: int| #[trigger] bit(targets.0, t) ==> pawn_target(*position, s, t, class as int),
                forall|i: int|
                    0 <= i < old_moves.len() && (#[trigger] old_moves[i])@.source == s
                        ==> !bit(targets.0, old_moves[i]@.target),
                forall|i: int|
                    old_moves.len() <= i < move_list.moves().len() ==> (#[trigger] move_list.moves()[i])@.source
                        == s && bit(targets.0, move_list.moves()[i]@.target) && !bit(
                        rem.0,
                        move_list.moves()[i]@.target,
                    ) && move_list.moves()[i]@.piece == pawn,
                forall|bm: BitMove| #[trigger]
                    move_list.moves().contains(bm) <==> old_moves.contains(bm) || (selected::<F>(
                        *position,
                        bm,
                        captures_only,
                    ) && bm@.source == s && bm@.piece == pawn && bit(targets.0, bm@.target)
                        && !bit(rem.0, bm@.target) && pawn_flag_for(*position, s, bm@.target, class as int, bm@.flag)),
            decreases rem.0,
        {
            let ghost before = move_list.moves();
            let target = rem.pop_lsb();
            let ghost t = target.0 as int;
            let capture = position.piece_on_square(target);
            proof {
                position.lemma_board();
                assert(bit(targets.0, t));
                assert forall|i: int|
                    0 <= i < before.len() implies !((#[trigger] before[i])@.source == s && before[i]@.target
                        == t) by {
                    if i < old_moves.len() {
                        assert(before[i] == old_moves[i]);
                    }
                }
                assert(captures_only ==> capture != PieceType::NoPiece);
            }
            let src_row = source.0 / 8;
            let tgt_row = target.0 / 8;
            if class == 1 && src_row == start_row && tgt_row == double_row {
                let mid = if side == Color::White { Square(source.0 - 8) } else { Square(source.0 + 8) };
                if !position.ao.is_set_sq(mid) {
                    let flag = match side {
                        Color::White => MoveFlag::WDoublePawn,
                        Color::Black => MoveFlag::BDoublePawn,
                    };
                    Self::add_one_pawn_move::<T, F>(position, move_list, source, target, pawn, capture, Some(flag), Ghost(captures_only));
                }
            } else {
                let promote = src_row == promo_row;
                Self::add_pawn_move::<T, F>(position, move_list, source, target, pawn, capture, promote, None, Ghost(captures_only));
            }
            proof {
                let after = move_list.moves();
                assert forall|i: int| 0 <= i < before.len() implies after[i] == before[i] by {}
                assert forall|i: int| 0 <= i < old_moves.len() implies after[i] == old_moves[i] by {
                    assert(before[i] == old_moves[i]);
                }
                assert forall|i: int|
                    old_moves.len() <= i < after.len() implies (#[trigger] after[i])@.source == s && bit(
                        targets.0,
                        after[i]@.target,
                    ) && !bit(rem.0, after[i]@.target) && after[i]@.piece == pawn by {
                    if i < before.len() {
                        assert(after[i] == before[i]);
                    }
                }
            }
        }
    }

    /// Appends the kept moves of the pawns of the side to move.
    fn gen_pawn_moves<T: Move, F: Filter>(
        position: &Position,
        move_list: &mut MoveList<T>,
        captures_only: bool,
    )
        requires
            position.wf(),
            position.has_kings(),
            list_ok(*position, old(move_list).moves()),
            forall|i: int|
                0 <= i < old(move_list).moves().len() ==> (#[trigger] old(move_list).moves()[i])@.piece
                    != PieceType::of_side_kind(position.side, PAWN as int),
        ensures
            list_ok(*position, final(move_list).moves()),
            old(move_list).moves().is_prefix_of(final(move_list).moves()),
            forall|i: int|
                old(move_list).moves().len() <= i < final(move_list).moves().len()
                    ==> (#[trigger] final(move_list).moves()[i])@.piece == PieceType::of_side_kind(position.side, PAWN as int),
            forall|bm: BitMove| #[trigger]
                final(move_list).moves().contains(bm) <==> old(move_list).moves().contains(bm) || (
                selected::<F>(*position, bm, captures_only) && bm@.piece == PieceType::of_side_kind(
                    position.side,
                    PAWN as int,
                )),
    {
        let side = position.side;
        let pawn = PieceType::from_side_kind(side, PAWN);
        let (enemy_occ, ep_row): (Bitboard, u8) = match side {
            Color::White => (position.bo, 3),
            Color::Black => (position.wo, 4),
        };
        let free = position.ao.not();
        let ghost old_moves = move_list.moves();
        let orig = position.bbs[pawn.to_index()];
        let mut bb = orig;
        proof {
            position.lemma_board();
            crate::piece::law_index_round_trip(pawn);
        }
        while bb.is_not_empty()
            invariant
                position.wf(),
                position.has_kings(),
                side == position.side,
                pawn == PieceType::of_side_kind(side, PAWN as int),
                pawn.kind() == PAWN,
                pawn.is_of(side),
                pawn != PieceType::NoPiece,
                ep_row == en_passant_row(side),
                orig == position.bbs@[pawn.index()],
                forall|t: int| 0 <= t < 64 ==> (#[trigger] bit(enemy_occ.0, t) <==> enemy(*position, t)),
                forall|t: int| 0 <= t < 64 ==> (#[trigger] bit(free.0, t) <==> position.piece_at(t) == PieceType::NoPiece),
                forall|t: int| #[trigger] bit(bb.0, t) ==> bit(orig.0, t),
                list_ok(*position, move_list.moves()),
                old_moves.is_prefix_of(move_list.moves()),
                forall|i: int| 0 <= i < old_moves.len() ==> (#[trigger] old_moves[i])@.piece != pawn,
                forall|i: int|
                    old_moves.len() <= i < move_list.moves().len() ==> (#[trigger] move_list.moves()[i])@.piece
                        == pawn && !bit(bb.0, move_list.moves()[i]@.source),
                forall|bm: BitMove| #[trigger]
                    move_list.moves().contains(bm) <==> old_moves.contains(bm) || (selected::<F>(
                        *position,
                        bm,
                        captures_only,
                    ) && bm@.piece == pawn && !bit(bb.0, bm@.source)),
            decreases bb.0,
        {
            let ghost before = move_list.moves();
            let source = bb.pop_lsb();
            let ghost s = source.0 as int;
            proof {
                position.lemma_board();
                assert(position.piece_at(s) == pawn);
                assert forall|i: int|
                    0 <= i < before.len() implies (#[trigger] before[i])@.source != s by {
                    if i < old_moves.len() {
                        assert(before[i] == old_moves[i]);
                        assert(pseudo_legal(*position, before[i]@));
                    }
                }
            }
            let attack_mask = MoveMasks::get_pawn_capture_mask(side, source);
            let captures = attack_mask.and(enemy_occ);
            Self::add_pawn_targets::<T, F>(position, move_list, source, pawn, captures, 0, Ghost(captures_only));
            let ghost m1 = move_list.moves();
            proof {
                assert forall|i: int| 0 <= i < before.len() implies m1[i] == before[i] by {}
            }
            if !captures_only {
                let pushes = MoveMasks::get_pawn_quiet_mask(side, source).and(free);
                proof {
                    assert forall|i: int|
                        0 <= i < m1.len() && (#[trigger] m1[i])@.source == s implies !bit(pushes.0, m1[i]@.target) by {
                        if i < before.len() {
                            assert(m1[i] == before[i]);
                        }
                    }
                }
                Self::add_pawn_targets::<T, F>(position, move_list, source, pawn, pushes, 1, Ghost(false));
                let ghost m2 = move_list.moves();
                proof {
                assert forall|i: int| 0 <= i < before.len() implies m2[i] == before[i] by {
                    assert(m2[i] == m1[i]);
                }
                assert forall|i: int| before.len() <= i < m2.len() implies (#[trigger] m2[i])@.source == s && m2[i]@.piece == pawn by {
                    if i < m1.len() {
                        assert(m2[i] == m1[i]);
                    }
                }
                }
                match position.en_passant_option {
                    Some(ep) => {
                        if source.0 / 8 == ep_row && attack_mask.is_set_sq(ep) && !position.ao.is_set_sq(ep) {
                            let flag = match side {
                                Color::White => MoveFlag::WEnPassant,
                                Color::Black => MoveFlag::BEnPassant,
                            };
                            proof {
                                assert forall|i: int|
                                    0 <= i < m2.len() implies !((#[trigger] m2[i])@.source == s && m2[i]@.target == ep.0
                                        && m2[i]@.flag == Some(flag)) by {
                                    if i < m1.len() {
                                        assert(m2[i] == m1[i]);
                                        if i < before.len() {
                                            assert(m1[i] == before[i]);
                                        }
                                    }
                                }
                            }
                            Self::add_one_pawn_move::<T, F>(position, move_list, source, ep, pawn, PieceType::NoPiece, Some(flag), Ghost(false));
                            proof {
                                let after = move_list.moves();
                                assert forall|i: int| 0 <= i < m2.len() implies after[i] == m2[i] by {}
                                assert forall|i: int| 0 <= i < before.len() implies after[i] == before[i] by {
                                    assert(after[i] == m2[i]);
                                }
                                assert forall|i: int| before.len() <= i < after.len() implies (#[trigger] after[i])@.source == s && after[i]@.piece == pawn by {
                                    if i < m2.len() {
                                        assert(after[i] == m2[i]);
                                    }
                                }
                            }
                        }
                    },
                    None => {},
                }
            }
            proof {
                let after = move_list.moves();
                assert forall|i: int| 0 <= i < before.len() implies after[i] == before[i] by {}
                assert forall|i: int| before.len() <= i < after.len() implies (#[trigger] after[i])@.source == s
                    && after[i]@.piece == pawn by {}
                assert forall|i: int| 0 <= i < old_moves.len() implies after[i] == old_moves[i] by {
                    assert(before[i] == old_moves[i]);
                }
                assert forall|bm: BitMove| #[trigger]
                    after.contains(bm) <==> old_moves.contains(bm) || (selected::<F>(
                        *position,
                        bm,
                        captures_only,
                    ) && bm@.piece == pawn && !bit(bb.0, bm@.source)) by {
                    if selected::<F>(*position, bm, captures_only) && bm@.piece == pawn && bm@.source == s {
                        assert(pawn_move(*position, bm@));
                    }
                }
                assert forall|i: int|
                    old_moves.len() <= i < after.len() implies (#[trigger] after[i])@.piece == pawn
                        && !bit(bb.0, after[i]@.source) by {
                    if i < before.len() {
                        assert(after[i] == before[i]);
                    }
                }
            }
        }
        proof {
            assert forall|bm: BitMove|
                selected::<F>(*position, bm, captures_only) && bm@.piece == pawn implies !bit(
                bb.0,
                bm@.source,
            ) by {
                crate::bits::lemma_zero_iff(bb.0);
            }
        }
    }

    /// Appends, one generation step after another, the moves of every kind of piece.
    #[verifier::rlimit(40)]
    #[verifier::spinoff_prover]
    fn gen_all<T: Move, F: Filter>(position: &Position, captures_only: bool) -> (r: MoveList<T>)
        requires
            position.wf(),
            position.has_kings(),
        ensures
            r.moves().no_duplicates(),
            forall|bm: BitMove| #[trigger]
                r.moves().contains(bm) <==> selected::<F>(*position, bm, captures_only),
    {
        let side = position.side;
        let ghost pk = |k: int| PieceType::of_side_kind(side, k);
        let mut move_list: MoveList<T> = MoveList::new();
        proof {
            assert(move_list.moves().len() == 0);
        }
        Self::gen_pawn_moves::<T, F>(position, &mut move_list, captures_only);
        let ghost l1 = move_list.moves();
        proof {
            assert forall|i: int| 0 <= i < l1.len() implies (#[trigger] l1[i])@.piece == pk(PAWN as int) by {}
        }
        Self::gen_piece_moves::<T, F>(position, &mut move_list, KNIGHT, captures_only);
        let ghost l2 = move_list.moves();
        proof {
            assert forall|i: int| 0 <= i < l2.len() implies (#[trigger] l2[i])@.piece == pk(PAWN as int)
                || l2[i]@.piece == pk(KNIGHT as int) by {
                if i < l1.len() {
                    assert(l2[i] == l1[i]);
                }
            }
        }
        Self::gen_king_moves::<T, F>(position, &mut move_list, captures_only);
        let ghost l3 = move_list.moves();
        proof {
            assert forall|i: int| 0 <= i < l3.len() implies (#[trigger] l3[i])@.piece == pk(PAWN as int)
                || l3[i]@.piece == pk(KNIGHT as int) || l3[i]@.piece == pk(KING as int) by {
                if i < l2.len() {
                    assert(l3[i] == l2[i]);
                }
            }
        }
        Self::gen_piece_moves::<T, F>(position, &mut move_list, BISHOP, captures_only);
        let ghost l4 = move_list.moves();
        proof {
            assert forall|i: int| 0 <= i < l4.len() implies (#[trigger] l4[i])@.piece == pk(PAWN as int)
                || l4[i]@.piece == pk(KNIGHT as int) || l4[i]@.piece == pk(KING as int) || l4[i]@.piece
                == pk(BISHOP as int) by {
                if i < l3.len() {
                    assert(l4[i] == l3[i]);
                }
            }
        }
        Self::gen_piece_moves::<T, F>(position, &mut move_list, ROOK, captures_only);
        let ghost l5 = move_list.moves();
        proof {
            assert forall|i: int| 0 <= i < l5.len() implies (#[trigger] l5[i])@.piece == pk(PAWN as int)
                || l5[i]@.piece == pk(KNIGHT as int) || l5[i]@.piece == pk(KING as int) || l5[i]@.piece
                == pk(BISHOP as int) || l5[i]@.piece == pk(ROOK as int) by {
                if i < l4.len() {
                    assert(l5[i] == l4[i]);
                }
            }
        }
        Self::gen_piece_moves::<T, F>(position, &mut move_list, QUEEN, captures_only);
        proof {
            let l6 = move_list.moves();
            assert forall|bm: BitMove| #[trigger]
                l6.contains(bm) <==> selected::<F>(*position, bm, captures_only) by {
                if selected::<F>(*position, bm, captures_only) {
                    let k = bm@.piece.kind();
                    assert(bm@.piece == pk(k));
                }
            }
        }
        move_list
    }

    /// All pseudo-legal moves of the side to move that the filter keeps, each once.
    pub fn generate_moves<T: Move, F: Filter>(position: &Position) -> (r: MoveList<T>)
        requires
            position.wf(),
            position.has_kings(),
        ensures
            r.moves().no_duplicates(),
            forall|bm: BitMove| #[trigger]
                r.moves().contains(bm) <==> bm.encoded() && pseudo_legal(*position, bm@) && F::keeps(
                    *position,
                    bm,
                ),
    {
        Self::gen_all::<T, F>(position, false)
    }

    /// All pseudo-legal captures of the side to move that the filter keeps, each once.
    pub fn generate_captures<T: Move, F: Filter>(position: &Position) -> (r: MoveList<T>)
        requires
            position.wf(),
            position.has_kings(),
        ensures
            r.moves().no_duplicates(),
            forall|bm: BitMove| #[trigger]
                r.moves().contains(bm) <==> bm.encoded() && pseudo_legal(*position, bm@) && F::keeps(
                    *position,
                    bm,
                ) && bm@.capture != PieceType::NoPiece,
    {
        Self::gen_all::<T, F>(position, true)
    }
}

} // verus!
