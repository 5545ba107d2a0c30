use sisyphus32::fen::FenString;
use sisyphus32::move_generation::{Legal, MoveGeneration};
use sisyphus32::uci::Uci;
use sisyphus32::bit_move::{BitMove, ScoringMove};
use sisyphus32::move_list::MoveList;
use sisyphus32::piece::PieceType;
use sisyphus32::square::{Square, A1, B1, E2, E4};
use sisyphus32::move_flag::MoveFlag;

#[test]
fn bit_move_encode_and_decode_works() {
    let bit_move = BitMove::encode(Square(A1), Square(B1), PieceType::WP, PieceType::NoPiece, None);
    let (source, target, piece, capture, flag) = bit_move.decode();

    assert_eq!(source, Square(A1));
    assert_eq!(target, Square(B1));
    assert_eq!(piece, PieceType::WP);
    assert_eq!(capture, PieceType::NoPiece);
    assert_eq!(flag, None);
}

#[test]
fn encode_and_decode_keep_every_part() {
    let bit_move = BitMove::encode(Square(E2), Square(E4), PieceType::WP, PieceType::BQ, Some(MoveFlag::WDoublePawn));
    assert_eq!(bit_move.source(), Square(E2));
    assert_eq!(bit_move.target(), Square(E4));
    assert_eq!(bit_move.piece(), PieceType::WP);
    assert_eq!(bit_move.capture(), PieceType::BQ);
    assert_eq!(bit_move.flag(), Some(MoveFlag::WDoublePawn));
}

#[test]
fn move_list_of_scoring_moves_finds_max() {
    let mut move_list = MoveList::<ScoringMove>::new();

    move_list.add(ScoringMove::blank(-2));
    move_list.add(ScoringMove::blank(-1));
    move_list.add(ScoringMove::blank(0));
    move_list.add(ScoringMove::blank(1));
    move_list.add(ScoringMove::blank(2));

    assert_eq!(move_list.max_by_score().unwrap().score, 2);
    assert_eq!(move_list.min_by_score().unwrap().score, -2);
}

#[test]
fn moves_are_written_as_table_rows_and_uci() {
    let bit_move = BitMove::encode(Square(E2), Square(E4), PieceType::WP, PieceType::NoPiece, Some(MoveFlag::WDoublePawn));
    assert_eq!(bit_move.to_row_string(), "  | e2       | e4       | ♟        | No Piece | Some(WDoublePawn) |\n");
    assert_eq!(bit_move.to_uci_string(), "e2e4");
    let quiet = BitMove::encode(Square(A1), Square(B1), PieceType::BR, PieceType::WN, None);
    assert_eq!(quiet.to_row_string(), "  | a1       | b1       | ♖        | ♞        | None |\n");
}

#[test]
fn uci_text_of_legal_moves_reads_back() {
    for fen in [FenString::kiwipete(), FenString::tricky(), FenString::tricky2()] {
        let position = fen.parse().unwrap();
        for bit_move in MoveGeneration::generate_moves::<BitMove, Legal>(&position).into_vec() {
            let read = Uci::parse_move_string(&position, &bit_move.to_uci_string()).unwrap();
            assert_eq!(read.source(), bit_move.source());
            assert_eq!(read.target(), bit_move.target());
            if bit_move.flag().map_or(false, |f| f.is_promotion()) {
                assert_eq!(read.flag(), bit_move.flag());
            }
        }
    }
}
