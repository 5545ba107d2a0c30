use sisyphus32::bit_move::BitMove;
use sisyphus32::eval_position::EvalPosition;
use sisyphus32::fen::{self, FenString};
use sisyphus32::move_flag::MoveFlag;
use sisyphus32::position::Position;
use sisyphus32::square::{Square, A7, A8, E2, E4};
use sisyphus32::uci::{MoveStringParseError, Uci};

#[test]
fn starting_position_evaluates_to_zero() {
    assert_eq!(EvalPosition::eval(&Position::starting_position()), 0);
    assert_eq!(EvalPosition::eval_checked(&Position::starting_position()), Some(0));
}

#[test]
fn known_positions_evaluate_to_material_and_square_scores() {
    assert_eq!(EvalPosition::eval(&FenString::kiwipete().parse().unwrap()), 10);
    assert_eq!(EvalPosition::eval(&FenString::rook().parse().unwrap()), -15);
    assert_eq!(EvalPosition::eval(&FenString::tricky().parse().unwrap()), 155);
}

#[test]
fn uci_move_strings_name_legal_moves() {
    let position = Position::starting_position();
    let bit_move = Uci::parse_move_string(&position, "e2e4").unwrap();
    assert_eq!(bit_move.source(), Square(E2));
    assert_eq!(bit_move.target(), Square(E4));
    assert_eq!(bit_move.flag(), Some(MoveFlag::WDoublePawn));
    assert_eq!(bit_move.to_uci_string(), "e2e4");
}

#[test]
fn uci_move_string_errors() {
    let position = Position::starting_position();
    assert!(matches!(Uci::parse_move_string(&position, "e2e"), Err(MoveStringParseError::LengthParseError)));
    assert!(matches!(Uci::parse_move_string(&position, "z2e4"), Err(MoveStringParseError::SquareParseError(_))));
    assert!(matches!(Uci::parse_move_string(&position, "e2e9"), Err(MoveStringParseError::SquareParseError(_))));
    match Uci::parse_move_string(&position, "e2e5") {
        Err(MoveStringParseError::IllegalMove(s)) => assert_eq!(s, "e2e5"),
        _ => panic!("expected an illegal move"),
    }
    match Uci::parse_move_string(&position, "e2e4x") {
        Err(MoveStringParseError::PromotionPieceParseError(s)) => assert_eq!(s, "x"),
        _ => panic!("expected a promotion piece error"),
    }
}

#[test]
fn uci_promotions_are_read() {
    let position = fen::parse("8/P6k/8/8/8/8/8/K7 w - -").unwrap();
    let bit_move = Uci::parse_move_string(&position, "a7a8n").unwrap();
    assert_eq!(bit_move.source(), Square(A7));
    assert_eq!(bit_move.target(), Square(A8));
    assert_eq!(bit_move.flag(), Some(MoveFlag::PromoN));
    assert_eq!(bit_move.to_uci_string(), "a7a8n");
    assert!(matches!(Uci::parse_move_string(&position, "a7a8"), Ok(_)));
}

#[test]
fn fen_errors_name_their_reason() {
    assert_eq!(fen::parse("").err().unwrap().0, "No pieces found!");
    assert_eq!(fen::parse("8/8/8/8/8/8/8/8").err().unwrap().0, "No side found!");
    assert_eq!(fen::parse("8/8/8/8/8/8/8/8 w").err().unwrap().0, "No castling rights found!");
    assert_eq!(fen::parse("8/8/8/8/8/8/8/8 w -").err().unwrap().0, "No en-passant found!");
    assert_eq!(fen::parse("8/8/8/8/8/8/8/8x w - -").err().unwrap().0, "Invalid pieces!");
    assert_eq!(fen::parse("8/8/8/8/8/8/8/8 x - -").err().unwrap().0, "Invalid side!");
    assert_eq!(fen::parse("8/8/8/8/8/8/8/8 w KX -").err().unwrap().0, "Invalid castling rights!");
    assert_eq!(fen::parse("8/8/8/8/8/8/8/8 w - e9").err().unwrap().0, "Illegal rank char!");
    assert_eq!(fen::parse("8/8/8/8/8/8/8/8/k w - -").err().unwrap().0, "Too many squares!");
}

#[test]
fn fen_fields_are_read() {
    let position = FenString::tricky().parse().unwrap();
    assert_eq!(position.side, sisyphus32::color::Color::Black);
    assert_eq!(position.castling_rights.0, 0b0011);
    assert_eq!(position.en_passant_option, None);
    let with_en_passant = fen::parse("8/8/8/8/4Pp2/8/8/K6k b - e3").unwrap();
    assert_eq!(with_en_passant.en_passant_option, Some(Square(sisyphus32::square::E3)));
    let moves = sisyphus32::move_generation::MoveGeneration::generate_moves::<BitMove, sisyphus32::move_generation::Legal>(&with_en_passant);
    assert!(moves.iter().iter().any(|m| m.flag() == Some(MoveFlag::BEnPassant)));
}

#[test]
fn fen_text_of_a_position_reads_back() {
    for text in [
        sisyphus32::fen::STARTING_POSITION,
        sisyphus32::fen::KIWIPETE_POSITION,
        sisyphus32::fen::ROOK_POSITION,
        sisyphus32::fen::TRICKY_POSITION,
    ] {
        let position = fen::parse(text).unwrap();
        let written = FenString::from_position(&position);
        assert_eq!(written.0, text);
        let read = written.parse().unwrap();
        assert_eq!(read.bbs, position.bbs);
        assert_eq!(read.side, position.side);
        assert_eq!(read.castling_rights, position.castling_rights);
        assert_eq!(read.en_passant_option, position.en_passant_option);
    }
    let with_en_passant = fen::parse("8/8/8/8/4Pp2/8/8/K6k b - e3").unwrap();
    assert_eq!(FenString::from_position(&with_en_passant).0, "8/8/8/8/4Pp2/8/8/K6k b - e3");
}

#[test]
fn square_names_are_read_and_written() {
    assert_eq!(Square::parse_str("e4").unwrap(), Square(E4));
    assert_eq!(Square::parse_str("e44").err().unwrap().0, "Invalid string length!");
    assert_eq!(Square::parse_str("z4").err().unwrap().0, "Illegal file char!");
    assert_eq!(Square::parse_str("e0").err().unwrap().0, "Illegal rank char!");
    assert_eq!(Square(E4).to_string(), "e4");
    assert_eq!(Square(A8).to_string(), "a8");
}

#[test]
fn mirrored_position_evaluates_the_same() {
    let position: Position = FenString::kiwipete().parse().unwrap();
    let mirrored: Position =
        FenString::from_str("r3k2r/pppbbppp/2n2q1P/1P2p3/3pn3/BN2PNP1/P1PPQPB1/R3K2R b KQkq - 0 1")
            .parse()
            .unwrap();
    assert_eq!(EvalPosition::eval(&mirrored), EvalPosition::eval(&position));
    assert_eq!(EvalPosition::eval(&mirrored), 10);
}

#[test]
fn starting_board_is_drawn_rank_by_rank() {
    let text = Position::starting_position().board_text();
    let expected = "\n  8  ♖ ♘ ♗ ♕ ♔ ♗ ♘ ♖ \n  7  ♙ ♙ ♙ ♙ ♙ ♙ ♙ ♙ \n  6  . . . . . . . . \n  5  . . . . . . . . \n  4  . . . . . . . . \n  3  . . . . . . . . \n  2  ♟ ♟ ♟ ♟ ♟ ♟ ♟ ♟ \n  1  ♜ ♞ ♝ ♛ ♚ ♝ ♞ ♜ \n\n     a b c d e f g h\n";
    assert_eq!(text, expected);
}
