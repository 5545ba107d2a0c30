//! A game between a player and the engine, from the starting position.
use vstd::prelude::*;
use vstd::string::StringSliceAdditionalSpecFns;
use std::sync::Arc;
use std::sync::atomic::AtomicBool;
use crate::bit_move::{BitMove, ScoringMove};
use crate::color::Color;
use crate::move_generation::{Legal, MoveGeneration};
use crate::move_list::MoveList;
use crate::piece::PieceType;
use crate::position::{Position, start_piece};
use crate::search::Search;
use crate::square::Square;
use crate::uci::{Uci, is_legal_move, names_move};

verus! {

/// Why a game action was refused.
#[derive(Debug, Clone, Copy, PartialEq, Eq, Structural)]
pub enum BotGameError {
    /// It is not the turn of the one who acted.
    IllegalActionError,
    /// The move is not a legal move of the position.
    IllegalUciMoveError,
}

pub struct BotGame {
    thinking_time: u128,
    bot_side: Color,
    position: Position,
    search: Search,
    move_history: Vec<BitMove>,
}

impl BotGame {
    /// The position and the search are consistent.
    pub open spec fn wf(&self) -> bool {
        self.spec_position().wf() && self.spec_search().wf()
    }

    /// The position of the game.
    pub closed spec fn spec_position(&self) -> Position {
        self.position
    }

    pub closed spec fn spec_search(&self) -> Search {
        self.search
    }

    /// The side that the engine plays.
    pub closed spec fn spec_bot_side(&self) -> Color {
        self.bot_side
    }

    /// Milliseconds the engine may think per move.
    pub closed spec fn spec_thinking_time(&self) -> u128 {
        self.thinking_time
    }

    /// The moves played so far.
    pub closed spec fn spec_history(&self) -> Seq<BitMove> {
        self.move_history@
    }

    /// A game from the starting position.
    pub fn new(bot_side: Color, thinking_time: u128) -> (r: BotGame)
        ensures
            r.wf(),
            r.spec_bot_side() == bot_side,
            r.spec_thinking_time() == thinking_time,
            r.spec_position().side == Color::White,
            forall|sq: int| 0 <= sq < 64 ==> #[trigger] r.spec_position().piece_at(sq) == start_piece(sq),
            r.spec_position().castling_rights.0 == crate::castling_rights::DEFAULT,
            r.spec_position().en_passant_option is None,
            r.spec_position().ply == 0,
            r.spec_history().len() == 0,
    {
        BotGame {
            thinking_time,
            bot_side,
            position: Position::starting_position(),
            search: Search::new(Arc::new(AtomicBool::new(false))),
            move_history: Vec::new(),
        }
    }

    /// A game where the engine plays black and thinks five seconds a move.
    pub fn default() -> (r: BotGame)
        ensures
            r.wf(),
            r.spec_bot_side() == Color::Black,
            r.spec_thinking_time() == 5000,
    {
        Self::new(Color::Black, 5000)
    }

    pub fn bot_side(&self) -> (r: Color)
        ensures
            r == self.spec_bot_side(),
    {
        self.bot_side
    }

    pub fn player_side(&self) -> (r: Color)
        ensures
            r == self.spec_bot_side().other(),
    {
        self.bot_side.opposite()
    }

    /// The side to move.
    pub fn to_move(&self) -> (r: Color)
        ensures
            r == self.spec_position().side,
    {
        self.position.side
    }

    pub fn bot_to_move(&self) -> (r: bool)
        ensures
            r == (self.spec_bot_side() == self.spec_position().side),
    {
        self.bot_side() == self.to_move()
    }

    pub fn player_to_move(&self) -> (r: bool)
        ensures
            r == (self.spec_bot_side().other() == self.spec_position().side),
    {
        self.player_side() == self.to_move()
    }

    fn verify_side_to_move(&self, side: Color) -> (r: Result<(), BotGameError>)
        ensures
            r is Ok <==> self.spec_position().side == side,
            r matches Err(e) ==> e == BotGameError::IllegalActionError,
    {
        if self.to_move() == side {
            Ok(())
        } else {
            Err(BotGameError::IllegalActionError)
        }
    }

    /// Sets the engine's thinking time; only on the player's turn.
    pub fn set_thinking_time(&mut self, thinking_time: u128) -> (r: Result<(), BotGameError>)
        ensures
            r is Ok <==> old(self).spec_bot_side().other() == old(self).spec_position().side,
            r matches Err(e) ==> e == BotGameError::IllegalActionError,
            r is Ok ==> final(self).spec_thinking_time() == thinking_time,
            r is Err ==> final(self).spec_thinking_time() == old(self).spec_thinking_time(),
            final(self).spec_position() == old(self).spec_position(),
            final(self).spec_bot_side() == old(self).spec_bot_side(),
            final(self).spec_history() == old(self).spec_history(),
            final(self).spec_search() == old(self).spec_search(),
    {
        let side = self.player_side();
        match self.verify_side_to_move(side) {
            Ok(()) => {
                self.thinking_time = thinking_time;
                Ok(())
            },
            Err(e) => Err(e),
        }
    }

    /// Plays a legal move and records it.
    fn make_move(&mut self, bit_move: BitMove)
        requires
            old(self).wf(),
            is_legal_move(old(self).spec_position(), bit_move),
        ensures
            final(self).wf(),
            forall|s: int| #[trigger] final(self).spec_position().piece_at(s) == old(self).spec_position().after(bit_move@, s),
            final(self).spec_position().side == old(self).spec_position().side.other(),
            final(self).spec_history() == old(self).spec_history().push(bit_move),
            final(self).spec_bot_side() == old(self).spec_bot_side(),
            final(self).spec_thinking_time() == old(self).spec_thinking_time(),
    {
        proof {
            crate::move_generation::lemma_pseudo_legal_applicable(self.position, bit_move@);
        }
        self.position.make_move(bit_move);
        self.move_history.push(bit_move);
    }

    /// Whether the move is among the legal moves of the position.
    fn is_legal(&self, bit_move: BitMove) -> (r: bool)
        requires
            self.wf(),
            self.spec_position().has_kings(),
        ensures
            r == is_legal_move(self.spec_position(), bit_move),
    {
        let moves = MoveGeneration::generate_moves::<BitMove, Legal>(&self.position);
        let ghost s = moves.moves();
        let mut i: usize = 0;
        while i < moves.len()
            invariant
                i <= s.len(),
                s == moves.moves(),
                s.len() == moves.entries().len(),
                forall|bm: BitMove| #[trigger] s.contains(bm) <==> is_legal_move(self.spec_position(), bm),
                forall|j: int| 0 <= j < i ==> s[j] != bit_move,
            decreases s.len() - i,
        {
            let m = moves.get(i);
            proof {
                assert(s[i as int] == m);
            }
            if m == bit_move {
                proof {
                    assert(s.contains(m));
                }
                return true;
            }
            i = i + 1;
        }
        proof {
            if is_legal_move(self.spec_position(), bit_move) {
                assert(s.contains(bit_move));
                let j = choose|j: int| 0 <= j < s.len() && s[j] == bit_move;
            }
        }
        false
    }

    /// The engine thinks for its thinking time and plays its move; only on
    /// its turn, while the position has both kings and a legal move. Should
    /// the search hand back no legal move, a random legal move is played.
    pub fn bot_play_move(&mut self) -> (r: Result<ScoringMove, BotGameError>)
        requires
            old(self).wf(),
        ensures
            final(self).wf(),
            old(self).spec_bot_side() != old(self).spec_position().side ==> (r matches Err(e) && e
                == BotGameError::IllegalActionError),
            old(self).spec_bot_side() == old(self).spec_position().side && old(self).spec_position().has_kings() && (
            exists|m: BitMove| #[trigger] is_legal_move(old(self).spec_position(), m)) ==> r is Ok,
            r matches Ok(m) ==> is_legal_move(old(self).spec_position(), m.bit_move) && final(self).spec_history()
                == old(self).spec_history().push(m.bit_move) && forall|s: int| #[trigger] final(self).spec_position().piece_at(s)
                == old(self).spec_position().after(m.bit_move@, s),
            r is Ok ==> final(self).spec_position().side == old(self).spec_position().side.other(),
            r is Err ==> final(self).spec_position() == old(self).spec_position() && final(self).spec_history()
                == old(self).spec_history(),
            final(self).spec_bot_side() == old(self).spec_bot_side(),
    {
        let side = self.bot_side();
        if let Err(e) = self.verify_side_to_move(side) {
            return Err(e);
        }
        if self.position.bbs[5].is_empty() || self.position.bbs[11].is_empty() {
            return Err(BotGameError::IllegalActionError);
        }
        let position = self.position;
        let (found, _reports) = self.search.go(&position, None, Some(self.thinking_time));
        let best_move = if self.is_legal(found.bit_move) {
            found
        } else {
            self.search.random_best_move(&position)
        };
        if !self.is_legal(best_move.bit_move) {
            return Err(BotGameError::IllegalActionError);
        }
        self.make_move(best_move.bit_move);
        Ok(best_move)
    }

    /// The player plays a move given as a move; only on the player's turn
    /// and only a legal move.
    pub fn player_play_bit_move(&mut self, bit_move: BitMove) -> (r: Result<(), BotGameError>)
        requires
            old(self).wf(),
        ensures
            final(self).wf(),
            old(self).spec_bot_side().other() != old(self).spec_position().side ==> (r matches Err(e) && e
                == BotGameError::IllegalActionError),
            old(self).spec_bot_side().other() == old(self).spec_position().side && old(self).spec_position().has_kings() ==> (
            r is Ok <==> is_legal_move(old(self).spec_position(), bit_move)),
            r is Ok ==> final(self).spec_history() == old(self).spec_history().push(bit_move) && forall|s: int| #[trigger]
                final(self).spec_position().piece_at(s) == old(self).spec_position().after(bit_move@, s),
            r is Ok ==> final(self).spec_position().side == old(self).spec_position().side.other(),
            final(self).spec_bot_side() == old(self).spec_bot_side(),
            r is Err ==> final(self).spec_position() == old(self).spec_position() && final(self).spec_history()
                == old(self).spec_history(),
    {
        let side = self.player_side();
        if let Err(e) = self.verify_side_to_move(side) {
            return Err(e);
        }
        if self.position.bbs[5].is_empty() || self.position.bbs[11].is_empty() {
            return Err(BotGameError::IllegalUciMoveError);
        }
        if self.is_legal(bit_move) {
            self.make_move(bit_move);
            Ok(())
        } else {
            Err(BotGameError::IllegalUciMoveError)
        }
    }

    /// The player plays a move given in UCI notation; only on the player's
    /// turn and only a legal move.
    pub fn player_play_uci_move(&mut self, uci_move: &str) -> (r: Result<(), BotGameError>)
        requires
            old(self).wf(),
        ensures
            final(self).wf(),
            old(self).spec_bot_side().other() != old(self).spec_position().side ==> (r matches Err(e) && e
                == BotGameError::IllegalActionError),
            r is Ok ==> exists|m: BitMove| is_legal_move(old(self).spec_position(), m) && final(self).spec_history()
                == old(self).spec_history().push(m),
            r is Ok ==> exists|m: BitMove|
                {
                    &&& #[trigger] names_move(old(self).spec_position(), uci_move.spec_bytes(), m)
                    &&& final(self).spec_history() == old(self).spec_history().push(m)
                    &&& forall|s: int| #[trigger] final(self).spec_position().piece_at(s) == old(
                        self,
                    ).spec_position().after(m@, s)
                },
            r is Ok ==> final(self).spec_position().side == old(self).spec_position().side.other(),
            final(self).spec_bot_side() == old(self).spec_bot_side(),
            r is Err ==> final(self).spec_position() == old(self).spec_position() && final(self).spec_history()
                == old(self).spec_history(),
    {
        let side = self.player_side();
        if let Err(e) = self.verify_side_to_move(side) {
            return Err(e);
        }
        if self.position.bbs[5].is_empty() || self.position.bbs[11].is_empty() {
            return Err(BotGameError::IllegalUciMoveError);
        }
        match Uci::parse_move_string(&self.position, uci_move) {
            Ok(bit_move) => {
                self.make_move(bit_move);
                Ok(())
            },
            Err(_) => Err(BotGameError::IllegalUciMoveError),
        }
    }

    /// The side to move has no legal move (mate or stalemate).
    pub fn is_checkmate(&self) -> (r: bool)
        requires
            self.wf(),
            self.spec_position().has_kings(),
        ensures
            r == !exists|m: BitMove| #[trigger] is_legal_move(self.spec_position(), m),
    {
        let moves = MoveGeneration::generate_moves::<BitMove, Legal>(&self.position);
        let empty = moves.is_empty();
        proof {
            assert(moves.moves().len() == moves.entries().len());
            if exists|m: BitMove| #[trigger] is_legal_move(self.spec_position(), m) {
                let m = choose|m: BitMove| #[trigger] is_legal_move(self.spec_position(), m);
                assert(moves.moves().contains(m));
                assert(!empty);
            }
            if !empty {
                assert(moves.moves().contains(moves.moves()[0]));
                assert(is_legal_move(self.spec_position(), moves.moves()[0]));
            }
        }
        empty
    }

    /// The player is to move and has no legal move.
    pub fn bot_won(&self) -> (r: bool)
        requires
            self.wf(),
            self.spec_position().has_kings(),
        ensures
            r == (!(exists|m: BitMove| #[trigger] is_legal_move(self.spec_position(), m)) && self.spec_bot_side().other()
                == self.spec_position().side),
    {
        self.is_checkmate() && self.player_to_move()
    }

    /// The engine is to move and has no legal move.
    pub fn player_won(&self) -> (r: bool)
        requires
            self.wf(),
            self.spec_position().has_kings(),
        ensures
            r == (!(exists|m: BitMove| #[trigger] is_legal_move(self.spec_position(), m)) && self.spec_bot_side()
                == self.spec_position().side),
    {
        self.is_checkmate() && self.bot_to_move()
    }

    /// Black is to move and has no legal move.
    pub fn white_won(&self) -> (r: bool)
        requires
            self.wf(),
            self.spec_position().has_kings(),
        ensures
            r == (!(exists|m: BitMove| #[trigger] is_legal_move(self.spec_position(), m)) && self.spec_position().side
                == Color::Black),
    {
        self.is_checkmate() && self.to_move() == Color::Black
    }

    /// White is to move and has no legal move.
    pub fn black_won(&self) -> (r: bool)
        requires
            self.wf(),
            self.spec_position().has_kings(),
        ensures
            r == (!(exists|m: BitMove| #[trigger] is_legal_move(self.spec_position(), m)) && self.spec_position().side
                == Color::White),
    {
        self.is_checkmate() && self.to_move() == Color::White
    }

    /// The player's legal moves; only on the player's turn.
    pub fn player_legal_moves(&self) -> (r: Result<MoveList<BitMove>, BotGameError>)
        requires
            self.wf(),
            self.spec_position().has_kings(),
        ensures
            r is Ok <==> self.spec_bot_side().other() == self.spec_position().side,
            r matches Err(e) ==> e == BotGameError::IllegalActionError,
            r matches Ok(l) ==> l.moves().no_duplicates() && forall|bm: BitMove| #[trigger] l.moves().contains(bm)
                <==> is_legal_move(self.spec_position(), bm),
    {
        let side = self.player_side();
        if let Err(e) = self.verify_side_to_move(side) {
            return Err(e);
        }
        Ok(MoveGeneration::generate_moves::<BitMove, Legal>(&self.position))
    }

    /// The piece on each square, if any.
    pub fn get_2d_board(&self) -> (r: Vec<Option<PieceType>>)
        requires
            self.wf(),
        ensures
            r@.len() == 64,
            forall|s: int| 0 <= s < 64 ==> #[trigger] r@[s] == (if self.spec_position().piece_at(s) == PieceType::NoPiece {
                None
            } else {
                Some(self.spec_position().piece_at(s))
            }),
    {
        let mut board: Vec<Option<PieceType>> = Vec::new();
        let mut i: u8 = 0;
        while i < 64
            invariant
                i <= 64,
                board@.len() == i,
                forall|s: int| 0 <= s < i ==> #[trigger] board@[s] == (if self.spec_position().piece_at(s)
                    == PieceType::NoPiece {
                    None
                } else {
                    Some(self.spec_position().piece_at(s))
                }),
            decreases 64 - i,
        {
            board.push(self.position.get_piece_option(Square(i)));
            i = i + 1;
        }
        board
    }

    /// Every piece with its square, by square.
    pub fn get_piece_set(&self) -> (r: Vec<(PieceType, Square)>)
        requires
            self.wf(),
        ensures
            forall|p: PieceType, s: Square| #[trigger] r@.contains((p, s)) <==> s.valid() && p != PieceType::NoPiece
                && self.spec_position().piece_at(s.0 as int) == p,
    {
        let mut set: Vec<(PieceType, Square)> = Vec::new();
        let mut i: u8 = 0;
        while i < 64
            invariant
                i <= 64,
                forall|p: PieceType, s: Square| #[trigger] set@.contains((p, s)) <==> s.0 < i && p != PieceType::NoPiece
                    && self.spec_position().piece_at(s.0 as int) == p,
            decreases 64 - i,
        {
            let piece = self.position.piece_on_square(Square(i));
            if piece != PieceType::NoPiece {
                let ghost before = set@;
                set.push((piece, Square(i)));
                proof {
                    assert forall|p: PieceType, s: Square| #[trigger] set@.contains((p, s)) <==> s.0 < i + 1
                        && p != PieceType::NoPiece && self.spec_position().piece_at(s.0 as int) == p by {
                        if set@.contains((p, s)) && (p, s) != (piece, Square(i)) {
                            let k = choose|k: int| 0 <= k < set@.len() && set@[k] == (p, s);
                            assert(k < before.len());
                            assert(before[k] == (p, s));
                            assert(before.contains((p, s)));
                        }
                        if s.0 == i && p == piece {
                            assert(set@[set@.len() - 1] == (p, s));
                        }
                        if s.0 < i && p != PieceType::NoPiece && self.spec_position().piece_at(s.0 as int) == p {
                            assert(before.contains((p, s)));
                            let k = choose|k: int| 0 <= k < before.len() && before[k] == (p, s);
                            assert(set@[k] == (p, s));
                        }
                    }
                }
            } else {
                proof {
                    assert forall|p: PieceType, s: Square| #[trigger] set@.contains((p, s)) <==> s.0 < i + 1
                        && p != PieceType::NoPiece && self.spec_position().piece_at(s.0 as int) == p by {
                        if s.0 == i && p != PieceType::NoPiece && self.spec_position().piece_at(s.0 as int) == p {
                            assert(false);
                        }
                    }
                }
            }
            i = i + 1;
        }
        set
    }
}

} // verus!
