//! Lookups on a bare board: slider masks and the piece on a target square.
use vstd::prelude::*;
use crate::bitboard::Bitboard;
use crate::board_state::BoardState;
use crate::move_masks::{MoveMasks, queen_attack};
use crate::piece::PieceType;
use crate::square::Square;

verus! {

/// Squares a queen on `square` attacks, with the squares of `occupancy` occupied.
pub fn get_queen_mask(square: Square, occupancy: Bitboard) -> (r: Bitboard)
    requires
        square.valid(),
    ensures
        forall|t: int| #[trigger] r.has(t) <==> queen_attack(square.0 as int, t, occupancy.0),
{
    MoveMasks::get_queen_mask(square, occupancy)
}

/// The first of the listed pieces that stands on `target`.
pub fn get_target_piece(board_state: &BoardState, enemy_piece_types: [PieceType; 6], target: Square) -> (r: PieceType)
    requires
        target.valid(),
        forall|i: int| 0 <= i < 6 ==> #[trigger] enemy_piece_types@[i] != PieceType::NoPiece,
        exists|i: int| 0 <= i < 6 && #[trigger] board_state.bbs@[enemy_piece_types@[i].index()].has(target.0 as int),
    ensures
        exists|i: int|
            0 <= i < 6 && r == enemy_piece_types@[i] && board_state.bbs@[r.index()].has(target.0 as int)
                && forall|j: int| 0 <= j < i ==> !#[trigger] board_state.bbs@[enemy_piece_types@[j].index()].has(
                target.0 as int,
            ),
{
    let mut i: usize = 0;
    while i < 6
        invariant
            i <= 6,
            target.valid(),
            forall|k: int| 0 <= k < 6 ==> #[trigger] enemy_piece_types@[k] != PieceType::NoPiece,
            exists|k: int| 0 <= k < 6 && #[trigger] board_state.bbs@[enemy_piece_types@[k].index()].has(target.0 as int),
            forall|j: int| 0 <= j < i ==> !#[trigger] board_state.bbs@[enemy_piece_types@[j].index()].has(
                target.0 as int,
            ),
        decreases 6 - i,
    {
        let piece_type = enemy_piece_types[i];
        let index = piece_type.to_index();
        if board_state.bbs[index].is_set_sq(target) {
            return piece_type;
        }
        i = i + 1;
    }
    proof {
        let k = choose|k: int| 0 <= k < 6 && #[trigger] board_state.bbs@[enemy_piece_types@[k].index()].has(target.0 as int);
        assert(!board_state.bbs@[enemy_piece_types@[k].index()].has(target.0 as int));
    }
    PieceType::NoPiece
}

/// The piece on `target` if the enemy occupancies hold it: the first of the
/// listed pieces that stands there; otherwise the empty marker.
pub fn get_target_piece_if_any(
    board_state: &BoardState,
    enemy_piece_types: [PieceType; 6],
    enemy_occupancies: Bitboard,
    target: Square,
) -> (r: PieceType)
    requires
        target.valid(),
        forall|i: int| 0 <= i < 6 ==> #[trigger] enemy_piece_types@[i] != PieceType::NoPiece,
        enemy_occupancies.has(target.0 as int) ==> exists|i: int|
            0 <= i < 6 && #[trigger] board_state.bbs@[enemy_piece_types@[i].index()].has(target.0 as int),
    ensures
        !enemy_occupancies.has(target.0 as int) ==> r == PieceType::NoPiece,
        enemy_occupancies.has(target.0 as int) ==> exists|i: int|
            0 <= i < 6 && r == enemy_piece_types@[i] && board_state.bbs@[r.index()].has(target.0 as int)
                && forall|j: int| 0 <= j < i ==> !#[trigger] board_state.bbs@[enemy_piece_types@[j].index()].has(
                target.0 as int,
            ),
{
    let target_bb = target.to_bb();
    let both = enemy_occupancies.and(target_bb);
    if both.is_empty() {
        proof {
            crate::bits::lemma_zero();
            assert(!both.has(target.0 as int));
        }
        return PieceType::NoPiece;
    }
    get_target_piece(board_state, enemy_piece_types, target)
}

} // verus!
