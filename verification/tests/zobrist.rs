use sisyphus32::bit_move::BitMove;
use sisyphus32::fen::FenString;
use sisyphus32::move_generation::{Legal, MoveGeneration};
use sisyphus32::piece::PieceType;
use sisyphus32::position::Position;
use sisyphus32::square::{Square, E2, E3, E4};
use sisyphus32::zobrist::ZobristKey;

#[test]
fn test_zobrist_hash_consistency() {
    let position = Position::starting_position();
    let hash1 = ZobristKey::generate(&position);
    let hash2 = ZobristKey::generate(&position);
    assert_eq!(hash1, hash2, "Zobrist hash should be consistent for the same position");
}

#[test]
fn test_zobrist_hash_different_positions() {
    let position1 = Position::starting_position();
    let mut position2 = position1;

    // Modify position2 by moving a pawn (example: e2 -> e4)
    position2.remove_piece(PieceType::WP, Square(E2));
    position2.set_piece(PieceType::WP, Square(E4));

    let hash1 = ZobristKey::generate(&position1);
    let hash2 = ZobristKey::generate(&position2);

    assert_ne!(hash1, hash2, "Different positions should have different hashes");
}

#[test]
fn test_zobrist_hash_side_to_move() {
    let mut position = Position::starting_position();
    let hash1 = ZobristKey::generate(&position);

    // Change side to move
    position.side.switch();
    let hash2 = ZobristKey::generate(&position);

    assert_ne!(hash1, hash2, "Changing side to move should change the hash");
}

#[test]
fn test_zobrist_hash_castling_rights() {
    let mut position = Position::starting_position();
    let hash1 = ZobristKey::generate(&position);

    // Remove castling rights
    position.castling_rights.0 = 0;
    let hash2 = ZobristKey::generate(&position);

    assert_ne!(hash1, hash2, "Changing castling rights should change the hash");
}

#[test]
fn test_zobrist_hash_en_passant() {
    let mut position = Position::starting_position();
    let hash1 = ZobristKey::generate(&position);

    // Set an en passant square
    position.en_passant_option = Some(Square(E3));
    let hash2 = ZobristKey::generate(&position);

    assert_ne!(hash1, hash2, "Setting an en passant square should change the hash");

    // Reset en passant square
    position.en_passant_option = None;
    let hash3 = ZobristKey::generate(&position);

    assert_eq!(hash1, hash3, "Clearing en passant should restore original hash");
}

#[test]
fn made_moves_keep_the_hash_of_the_position() {
    let position = FenString::kiwipete().parse().unwrap();
    assert_eq!(position.zobrist_key, ZobristKey::generate(&position));
    for bit_move in MoveGeneration::generate_moves::<BitMove, Legal>(&position).into_vec() {
        let mut next = position;
        next.make_move(bit_move);
        assert_eq!(next.zobrist_key, ZobristKey::generate(&next));
    }
}

#[test]
fn undoing_moves_restores_the_board() {
    let position = FenString::kiwipete().parse().unwrap();
    for bit_move in MoveGeneration::generate_moves::<BitMove, Legal>(&position).into_vec() {
        let mut next = position;
        next.make_move(bit_move);
        next.undo_move(bit_move, position.castling_rights);
        assert_eq!(next.bbs, position.bbs);
        assert_eq!(next.ao, position.ao);
        assert_eq!(next.side, position.side);
        assert_eq!(next.castling_rights, position.castling_rights);
    }
}

#[test]
fn same_position_built_twice_hashes_the_same() {
    let a = Position::starting_position();
    let b = Position::starting_position();
    assert_eq!(a.zobrist_key, b.zobrist_key);
    let c: Position = FenString::starting().parse().unwrap();
    assert_eq!(a.zobrist_key, c.zobrist_key);
}
