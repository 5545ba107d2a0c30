use std::collections::HashSet;

use sisyphus32::bit_move::BitMove;
use sisyphus32::fen::FenString;
use sisyphus32::move_generation::{Legal, MoveGeneration, PseudoLegal};
use sisyphus32::piece::PieceType;
use sisyphus32::position::Position;

#[test]
fn generate_pseudo_legal_moves_returns_unique_moves() {
    let move_list = MoveGeneration::generate_moves::<BitMove, PseudoLegal>(&Position::starting_position());
    let mut seen = HashSet::new();
    assert!(move_list.iter().iter().all(|&m| seen.insert(m)));
}

#[test]
fn test_fen_parsing_and_move_generation() {
    let position = FenString::kiwipete().parse().unwrap();
    let move_list = MoveGeneration::generate_captures::<BitMove, PseudoLegal>(&position);
    assert_eq!(move_list.len(), 8);

    for bit_move in move_list.into_vec() {
        assert_ne!(position.get_piece(bit_move.target()), PieceType::NoPiece)
    }
}

#[test]
fn starting_position_has_twenty_moves() {
    let position = Position::starting_position();
    let pseudo = MoveGeneration::generate_moves::<BitMove, PseudoLegal>(&position);
    let legal = MoveGeneration::generate_moves::<BitMove, Legal>(&position);
    assert_eq!(pseudo.len(), 20);
    assert_eq!(legal.len(), 20);
    assert_eq!(MoveGeneration::generate_captures::<BitMove, PseudoLegal>(&position).len(), 0);
}

#[test]
fn kiwipete_has_forty_eight_moves() {
    let position = FenString::kiwipete().parse().unwrap();
    let legal = MoveGeneration::generate_moves::<BitMove, Legal>(&position);
    assert_eq!(legal.len(), 48);
}
