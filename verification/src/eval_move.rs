//! Ordering score of a move: most valuable victim, least valuable attacker.
use vstd::prelude::*;
use crate::bit_move::BitMove;
use crate::piece::PieceType;
use crate::position::Position;

verus! {

/// Score of `attacker` taking `victim`: a hundred per rank of the victim
/// (pawn 1 to king 6), plus five less the rank of the attacker (pawn 0 to king 5).
pub open spec fn mvv_lva(attacker: PieceType, victim: PieceType) -> int {
    100 * (victim.kind() + 1) + 5 - attacker.kind()
}

pub struct EvalMove;

impl EvalMove {
    /// Ordering score of a move: its capture score, 0 for a quiet move.
    pub fn eval(position: &Position, bit_move: BitMove) -> (r: i16)
        requires
            position.wf(),
            0 <= bit_move@.source < 64,
            position.piece_at(bit_move@.source) != PieceType::NoPiece,
        ensures
            r == (if position.piece_at(bit_move@.target) == PieceType::NoPiece {
                0
            } else {
                mvv_lva(position.piece_at(bit_move@.source), position.piece_at(bit_move@.target))
            }),
    {
        let source = bit_move.source();
        let target = bit_move.target();
        let piece = position.piece_on_square(source);
        let capture = position.piece_on_square(target);
        if capture == PieceType::NoPiece {
            0
        } else {
            let a = (piece.to_index() % 6) as i16;
            let v = (capture.to_index() % 6) as i16;
            100 * (v + 1) + 5 - a
        }
    }
}

} // verus!
