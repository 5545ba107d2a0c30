//! Sisyphus32: a chess engine with verified move generation, hashing,
//! FEN and UCI handling, evaluation, search and performance tests.
pub mod bit_move;
pub mod bits;
pub mod board_state;
pub mod bot_game;
pub mod bitboard;
pub mod castling_rights;
pub mod color;
pub mod engine;
pub mod eval_move;
pub mod eval_position;
pub mod fen;
pub mod file;
pub mod killer_moves;
pub mod move_flag;
pub mod move_gen;
pub mod move_generation;
pub mod move_list;
pub mod move_masks;
pub mod perft;
pub mod piece;
pub mod position;
pub mod rank;
pub mod search;
pub mod square;
pub mod text;
pub mod timer;
pub mod transposition_table;
pub mod uci;
pub mod zobrist;

pub use bit_move::BitMove;
pub use fen::FenString;
pub use move_generation::{Legal, MoveGeneration, PseudoLegal};
pub use perft::Perft;
pub use position::Position;
pub use search::Search;
pub use uci::Uci;
pub use zobrist::ZobristKey;
