use sisyphus32::uci::{SetOption, UciCommand};
use sisyphus32::color::Color;
use sisyphus32::fen::FenString;
use sisyphus32::position::Position;
use sisyphus32::uci::{Uci, UciParseError};
use sisyphus32::zobrist::ZobristKeys;
use sisyphus32::piece::PieceType;
use sisyphus32::square::{Square, E2, E4, E5};

#[test]
fn position_startpos_with_moves() {
    let keys = ZobristKeys::standard_static();
    let mut position = Position::starting_position();
    Uci::parse_position(&mut position, "position startpos moves e2e4 e7e5", keys).unwrap();
    assert_eq!(position.get_piece(Square(E4)), PieceType::WP);
    assert_eq!(position.get_piece(Square(E5)), PieceType::BP);
    assert_eq!(position.get_piece_option(Square(E2)), None);
    assert_eq!(position.side, Color::White);
}

#[test]
fn position_fen_and_named_positions() {
    let keys = ZobristKeys::standard_static();
    let mut position = Position::starting_position();
    Uci::parse_position(&mut position, "position fen 8/8/8/8/8/8/8/K6k b - - moves a1a2", keys).unwrap_err();
    let mut position = Position::starting_position();
    Uci::parse_position(&mut position, "position fen 8/8/8/8/8/8/8/K6k b - - moves h1h2", keys).unwrap();
    assert_eq!(position.get_piece(Square(15 + 40)), PieceType::BK);
    Uci::parse_position(&mut position, "position kiwipete", keys).unwrap();
    let kiwipete = FenString::kiwipete().parse().unwrap();
    assert_eq!(position.bbs, kiwipete.bbs);
    Uci::parse_position(&mut position, "position tricky2", keys).unwrap();
    let tricky2 = FenString::tricky2().parse().unwrap();
    assert_eq!(position.bbs, tricky2.bbs);
    assert!(matches!(
        Uci::parse_position(&mut position, "position nothing", keys),
        Err(UciParseError::ParamParseError("Neither fen nor startpos found"))
    ));
    assert!(matches!(
        Uci::parse_position(&mut position, "position fen 8/8/8 w", keys),
        Err(UciParseError::FenParseError(_))
    ));
    assert_eq!(position.bbs, tricky2.bbs);
    assert!(Uci::position_line_ok("position fen 8/8/8/8/8/8/8/K6k w - - moves a1a2"));
    assert!(!Uci::position_line_ok("position moves fen"));
}

#[test]
fn go_parameters_are_read() {
    let go = Uci::parse_go(Color::White, "go depth 6 wtime 1000 btime 2000 winc 10 binc 20").unwrap();
    assert_eq!(go.depth, Some(6));
    assert_eq!(go.perft_depth, None);
    assert_eq!(go.total_time, Some(1000));
    assert_eq!(go.increment_time, Some(10));
    let go = Uci::parse_go(Color::Black, "go wtime 1000 btime +2000 winc 10 binc 20").unwrap();
    assert_eq!(go.total_time, Some(2000));
    assert_eq!(go.increment_time, Some(20));
    let go = Uci::parse_go(Color::White, "go perft 3").unwrap();
    assert_eq!(go.perft_depth, Some(3));
    assert!(matches!(Uci::parse_go(Color::White, "go depth"), Err(UciParseError::ParamValueParseError("depth"))));
    assert!(matches!(Uci::parse_go(Color::White, "go depth 70000"), Err(UciParseError::ParamValueParseError("depth"))));
    assert!(matches!(Uci::parse_go(Color::White, "go movetime x"), Err(UciParseError::ParamValueParseError("movetime"))));
}

#[test]
fn commands_are_named_by_their_first_word() {
    assert!(matches!(Uci::parse_command("uci"), Ok(UciCommand::Uci)));
    assert!(matches!(Uci::parse_command("  isready  "), Ok(UciCommand::IsReady)));
    assert!(matches!(Uci::parse_command("position startpos"), Ok(UciCommand::Position)));
    assert!(matches!(Uci::parse_command("d"), Ok(UciCommand::Display)));
    assert!(matches!(Uci::parse_command("bench"), Ok(UciCommand::BenchMedium)));
    assert!(matches!(Uci::parse_command("benchshort"), Ok(UciCommand::BenchShort)));
    assert!(matches!(Uci::parse_command("   "), Ok(UciCommand::Empty)));
    assert!(matches!(Uci::parse_command("hello world"), Err(UciParseError::KeywordParseError)));
}

#[test]
fn options_are_read() {
    assert!(matches!(Uci::parse_setoption("setoption name Clear Hash"), Ok(SetOption::ClearHash)));
    assert!(matches!(Uci::parse_setoption("setoption name Threads value 4"), Ok(SetOption::Threads(4))));
    assert!(matches!(
        Uci::parse_setoption("setoption name Threads value many"),
        Err(UciParseError::ParamValueParseError("Threads"))
    ));
    match Uci::parse_setoption("setoption name SyzygyPath value tables/syzygy") {
        Ok(SetOption::SyzygyPath(path)) => assert_eq!(path, "tables/syzygy"),
        _ => panic!("expected a path"),
    }
    assert!(matches!(Uci::parse_setoption("setoption name Hash value 8"), Err(UciParseError::OptionParseError)));
}
