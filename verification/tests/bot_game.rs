use sisyphus32::bit_move::BitMove;
use sisyphus32::bot_game::BotGameError;
use sisyphus32::bot_game::BotGame;
use sisyphus32::color::Color;
use sisyphus32::piece::PieceType;
use sisyphus32::square::{Square, D1, G8};

#[test]
fn making_moves_changes_color() {
    let mut bot_game = BotGame::new(Color::Black, 5000);
    assert_eq!(bot_game.to_move(), Color::White);
    assert!(bot_game.player_to_move());
    bot_game.player_play_bit_move(bot_game.player_legal_moves().unwrap().get(0)).unwrap();
    assert_eq!(bot_game.to_move(), Color::Black);
    assert!(bot_game.bot_to_move());
    bot_game.bot_play_move().unwrap();
    assert_eq!(bot_game.to_move(), Color::White);
    assert!(bot_game.player_to_move());
}

#[test]
fn get_2d_board_returns_array_of_tuples() {
    let bot_game = BotGame::new(Color::Black, 5000);
    let piece_positions = bot_game.get_2d_board();
    let piece_set = bot_game.get_piece_set();
    assert_eq!(piece_positions[G8 as usize], Some(PieceType::BN));
    let piece_set_entry = piece_set.iter().find(|entry| **entry == (PieceType::WQ, Square(D1)));
    assert!(piece_set_entry.is_some());
}

#[test]
fn players_act_only_on_their_turn() {
    let mut bot_game = BotGame::new(Color::White, 100);
    assert!(bot_game.player_play_uci_move("e7e5").is_err());
    assert!(bot_game.set_thinking_time(50).is_err());
    assert!(bot_game.player_legal_moves().is_err());
    assert!(!bot_game.is_checkmate());
    assert!(!bot_game.white_won() && !bot_game.black_won());
}

#[test]
fn illegal_player_moves_are_refused() {
    let mut bot_game = BotGame::new(Color::Black, 100);
    assert_eq!(bot_game.player_play_bit_move(BitMove(0)), Err(BotGameError::IllegalUciMoveError));
    assert_eq!(bot_game.player_play_uci_move("e2e5"), Err(BotGameError::IllegalUciMoveError));
    assert_eq!(bot_game.bot_play_move().err(), Some(BotGameError::IllegalActionError));
    assert!(bot_game.player_play_uci_move("e2e4").is_ok());
    assert_eq!(bot_game.to_move(), Color::Black);
}

#[test]
fn a_new_game_starts_from_the_starting_position() {
    let bot_game = BotGame::new(Color::White, 100);
    let board = bot_game.get_2d_board();
    assert_eq!(board[sisyphus32::square::E1 as usize], Some(PieceType::WK));
    assert_eq!(board[sisyphus32::square::E8 as usize], Some(PieceType::BK));
    assert_eq!(board[sisyphus32::square::E4 as usize], None);
}
