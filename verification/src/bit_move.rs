//! Moves packed into 32 bits: source (6 bits), target (6), moving piece (4),
//! captured piece (4) and flag (4).
use vstd::prelude::*;
use crate::move_flag::{MoveFlag, flag_code, flag_of_code, flag_from_code, flag_to_code};
use crate::piece::PieceType;
use crate::square::Square;
use crate::position::Position;
use crate::eval_move::EvalMove;
use crate::text::{ascii_chars, ascii_string, is_ascii_bytes, concat, pad, padded};

verus! {

#[derive(Clone, Copy, PartialEq, Eq, Structural, Debug, Hash)]
pub struct BitMove(pub u32);

/// What a move says: from where to where, which piece moves, which piece
/// it captures (the empty marker if none) and its special flag.
pub struct MoveModel {
    pub source: int,
    pub target: int,
    pub piece: PieceType,
    pub capture: PieceType,
    pub flag: Option<MoveFlag>,
}

/// The empty move, all bits zero.
pub const EMPTY: u32 = 0;

impl View for BitMove {
    type V = MoveModel;

    open spec fn view(&self) -> MoveModel {
        MoveModel {
            source: (self.0 & 0x3f) as int,
            target: ((self.0 >> 6) & 0x3f) as int,
            piece: PieceType::of_index(((self.0 >> 12) & 0xf) as int),
            capture: PieceType::of_index(((self.0 >> 16) & 0xf) as int),
            flag: flag_of_code(((self.0 >> 20) & 0xf) as int),
        }
    }
}

proof fn lemma_pack(a: u32, b: u32, c: u32, d: u32, e: u32)
    by (bit_vector)
    requires
        a < 64,
        b < 64,
        c < 16,
        d < 16,
        e < 16,
    ensures
        ((a | (b << 6) | (c << 12) | (d << 16) | (e << 20)) & 0x3f) == a,
        (((a | (b << 6) | (c << 12) | (d << 16) | (e << 20)) >> 6) & 0x3f) == b,
        (((a | (b << 6) | (c << 12) | (d << 16) | (e << 20)) >> 12) & 0xf) == c,
        (((a | (b << 6) | (c << 12) | (d << 16) | (e << 20)) >> 16) & 0xf) == d,
        (((a | (b << 6) | (c << 12) | (d << 16) | (e << 20)) >> 20) & 0xf) == e,
        (a | (b << 6) | (c << 12) | (d << 16) | (e << 20)) < 0x1000000,
{
}

proof fn lemma_field_bounds(x: u32)
    by (bit_vector)
    ensures
        x & 0x3f < 64,
        (x >> 6) & 0x3f < 64,
        (x >> 12) & 0xf < 16,
        (x >> 16) & 0xf < 16,
        (x >> 20) & 0xf < 16,
{
}

/// Two moves below 2^24 with the same fields are the same move.
proof fn lemma_unpack_injective(x: u32, y: u32)
    by (bit_vector)
    requires
        x < 0x1000000,
        y < 0x1000000,
        x & 0x3f == y & 0x3f,
        (x >> 6) & 0x3f == (y >> 6) & 0x3f,
        (x >> 12) & 0xf == (y >> 12) & 0xf,
        (x >> 16) & 0xf == (y >> 16) & 0xf,
        (x >> 20) & 0xf == (y >> 20) & 0xf,
    ensures
        x == y,
{
}

impl BitMove {
    /// The move with all bits zero.
    pub fn empty() -> (r: BitMove)
        ensures
            r.0 == EMPTY,
    {
        BitMove(EMPTY)
    }

    /// Whether the move was built by `encode` from in-range parts.
    pub open spec fn encoded(self) -> bool {
        self.0 < 0x1000000 && ((self.0 >> 12) & 0xf) < 12 && ((self.0 >> 16) & 0xf) <= 12
            && ((self.0 >> 20) & 0xf) <= 12
    }

    pub fn source(&self) -> (r: Square)
        ensures
            r.0 == self@.source,
            r.valid(),
    {
        proof {
            lemma_field_bounds(self.0);
        }
        Square((self.0 & 0x3f) as u8)
    }

    pub fn target(&self) -> (r: Square)
        ensures
            r.0 == self@.target,
            r.valid(),
    {
        proof {
            lemma_field_bounds(self.0);
        }
        Square(((self.0 >> 6) & 0x3f) as u8)
    }

    pub fn piece(&self) -> (r: PieceType)
        ensures
            r == self@.piece,
    {
        proof {
            lemma_field_bounds(self.0);
        }
        PieceType::from_index(((self.0 >> 12) & 0xf) as usize)
    }

    pub fn capture(&self) -> (r: PieceType)
        ensures
            r == self@.capture,
    {
        proof {
            lemma_field_bounds(self.0);
        }
        PieceType::from_index(((self.0 >> 16) & 0xf) as usize)
    }

    pub fn flag(&self) -> (r: Option<MoveFlag>)
        ensures
            r == self@.flag,
    {
        flag_from_code((self.0 >> 20) & 0xf)
    }

    /// Packs the parts of a move.
    pub fn encode(
        source: Square,
        target: Square,
        piece: PieceType,
        capture: PieceType,
        flag: Option<MoveFlag>,
    ) -> (r: BitMove)
        requires
            source.valid(),
            target.valid(),
            piece != PieceType::NoPiece,
        ensures
            r@ == (MoveModel { source: source.0 as int, target: target.0 as int, piece, capture, flag }),
            r.encoded(),
    {
        let a = source.0 as u32;
        let b = target.0 as u32;
        let c = piece.to_index() as u32;
        let d = capture.to_index() as u32;
        let e = flag_to_code(flag);
        proof {
            lemma_pack(a, b, c, d, e);
            crate::move_flag::law_flag_code_round_trip(flag);
            crate::piece::law_index_round_trip(piece);
            crate::piece::law_index_round_trip(capture);
        }
        BitMove(a | (b << 6) | (c << 12) | (d << 16) | (e << 20))
    }

    /// The letter that the UCI notation appends for a promotion.
    pub open spec fn promotion_suffix(flag: Option<MoveFlag>) -> Seq<u8> {
        match flag {
            Some(MoveFlag::PromoN) => seq!['n' as u8],
            Some(MoveFlag::PromoB) => seq!['b' as u8],
            Some(MoveFlag::PromoR) => seq!['r' as u8],
            Some(MoveFlag::PromoQ) => seq!['q' as u8],
            _ => Seq::empty(),
        }
    }

    /// The move in UCI notation: source, target and the promotion letter.
    pub open spec fn uci_bytes(self) -> Seq<u8> {
        Square(self@.source as u8).name_bytes() + Square(self@.target as u8).name_bytes()
            + Self::promotion_suffix(self@.flag)
    }

    /// Appends the move in UCI notation.
    pub fn push_uci(self, bytes: &mut Vec<u8>)
        ensures
            final(bytes)@ == old(bytes)@ + self.uci_bytes(),
            is_ascii_bytes(self.uci_bytes()),
    {
        let ghost start = bytes@;
        self.source().push_name(bytes);
        self.target().push_name(bytes);
        match self.flag() {
            Some(MoveFlag::PromoN) => bytes.push(110u8),
            Some(MoveFlag::PromoB) => bytes.push(98u8),
            Some(MoveFlag::PromoR) => bytes.push(114u8),
            Some(MoveFlag::PromoQ) => bytes.push(113u8),
            _ => {},
        }
        proof {
            assert(bytes@ =~= start + self.uci_bytes());
        }
    }

    /// The move in UCI notation, such as `e2e4` or `a7a8q`.
    pub fn to_uci_string(self) -> (r: String)
        ensures
            r@ == ascii_chars(self.uci_bytes()),
    {
        let mut bytes: Vec<u8> = Vec::new();
        self.source().push_name(&mut bytes);
        self.target().push_name(&mut bytes);
        match self.flag() {
            Some(MoveFlag::PromoN) => bytes.push(110u8),
            Some(MoveFlag::PromoB) => bytes.push(98u8),
            Some(MoveFlag::PromoR) => bytes.push(114u8),
            Some(MoveFlag::PromoQ) => bytes.push(113u8),
            _ => {},
        }
        proof {
            assert(bytes@ =~= self.uci_bytes());
        }
        ascii_string(bytes)
    }

    /// The optional flag as debug output writes it.
    pub open spec fn flag_text(flag: Option<MoveFlag>) -> Seq<char> {
        match flag {
            None => "None"@,
            Some(f) => "Some("@ + f.name()@ + ")"@,
        }
    }

    /// A table row describing the move: source, target, piece and capture,
    /// each padded to eight characters, and the flag.
    pub open spec fn row_chars(self) -> Seq<char> {
        "  | "@ + pad(ascii_chars(Square(self@.source as u8).name_bytes()), 8) + " | "@ + pad(
            ascii_chars(Square(self@.target as u8).name_bytes()),
            8,
        ) + " | "@ + pad(self@.piece.symbol()@, 8) + " | "@ + pad(self@.capture.symbol()@, 8) + " | "@
            + Self::flag_text(self@.flag) + " |\n"@
    }

    /// A table row describing the move: source, target, piece and capture,
    /// each padded to eight characters, and the flag.
    pub fn to_row_string(self) -> (r: String)
        ensures
            r@ == self.row_chars(),
    {
        let source = self.source().to_string();
        let target = self.target().to_string();
        let (piece, piece_len) = self.piece().to_symbol();
        let (capture, capture_len) = self.capture().to_symbol();
        let flag_text = match self.flag() {
            None => concat("None", ""),
            Some(f) => {
                let opened = concat("Some(", f.to_name());
                concat(opened.as_str(), ")")
            },
        };
        proof {
            reveal_strlit("");
            assert(ascii_chars(Square(self@.source as u8).name_bytes()).len() == 2);
            assert(ascii_chars(Square(self@.target as u8).name_bytes()).len() == 2);
        }
        let mut row = concat("  | ", padded(source.as_str(), 2, 8).as_str());
        row = concat(row.as_str(), " | ");
        row = concat(row.as_str(), padded(target.as_str(), 2, 8).as_str());
        row = concat(row.as_str(), " | ");
        row = concat(row.as_str(), padded(piece, piece_len, 8).as_str());
        row = concat(row.as_str(), " | ");
        row = concat(row.as_str(), padded(capture, capture_len, 8).as_str());
        row = concat(row.as_str(), " | ");
        row = concat(row.as_str(), flag_text.as_str());
        row = concat(row.as_str(), " |\n");
        proof {
            assert(flag_text@ == Self::flag_text(self@.flag)) by {
                reveal_strlit("");
                if self@.flag is None {
                    assert(flag_text@ =~= "None"@);
                }
            }
            assert(row@ =~= self.row_chars());
        }
        row
    }

    /// The move captures the piece on its target or promotes.
    pub fn is_capture_or_promotion(self, position: &Position) -> (r: bool)
        ensures
            r == (position.piece_at(self@.target) != PieceType::NoPiece || (self@.flag matches Some(
                f,
            ) && f.spec_is_promotion())),
    {
        let target_piece = position.piece_on_square(self.target());
        target_piece != PieceType::NoPiece || match self.flag() {
            Some(f) => f.is_promotion(),
            None => false,
        }
    }

    /// The move is made by a pawn, captures the piece on its target, or castles.
    pub fn is_pp_capture_or_castle(self, position: &Position) -> (r: bool)
        ensures
            r == (position.piece_at(self@.source) == PieceType::WP || position.piece_at(self@.source)
                == PieceType::BP || position.piece_at(self@.target) != PieceType::NoPiece || (
            self@.flag matches Some(f) && f.spec_is_castle())),
    {
        let source_piece = position.piece_on_square(self.source());
        let target_piece = position.piece_on_square(self.target());
        source_piece == PieceType::WP || source_piece == PieceType::BP || target_piece
            != PieceType::NoPiece || match self.flag() {
            Some(f) => f.is_castle(),
            None => false,
        }
    }

    /// The parts of the move.
    pub fn decode(&self) -> (r: (Square, Square, PieceType, PieceType, Option<MoveFlag>))
        ensures
            r.0.0 == self@.source,
            r.1.0 == self@.target,
            r.2 == self@.piece,
            r.3 == self@.capture,
            r.4 == self@.flag,
            r.0.valid(),
            r.1.valid(),
    {
        (self.source(), self.target(), self.piece(), self.capture(), self.flag())
    }
}


/// A move as the move generator hands it out: a plain move, or a move with a score.
pub trait Move: Copy + Sized {
    /// The move itself.
    spec fn bit_move_of(self) -> BitMove;

    /// The move itself.
    fn get_bit_move(self) -> (r: BitMove)
        ensures
            r == self.bit_move_of(),
    ;

    /// Wraps a move of `position`.
    fn new(position: &Position, bit_move: BitMove) -> (r: Self)
        requires
            position.wf(),
            0 <= bit_move@.source < 64,
            position.piece_at(bit_move@.source) != PieceType::NoPiece,
        ensures
            r.bit_move_of() == bit_move,
    ;
}

impl Move for BitMove {
    open spec fn bit_move_of(self) -> BitMove {
        self
    }

    fn get_bit_move(self) -> (r: BitMove) {
        self
    }

    fn new(_position: &Position, bit_move: BitMove) -> (r: BitMove) {
        bit_move
    }
}

/// A move with the score that ordering or search gave it.
#[derive(Clone, Copy, PartialEq, Eq, Structural, Debug, Hash)]
pub struct ScoringMove {
    pub bit_move: BitMove,
    pub score: i16,
}

impl Move for ScoringMove {
    open spec fn bit_move_of(self) -> BitMove {
        self.bit_move
    }

    fn get_bit_move(self) -> (r: BitMove) {
        self.bit_move
    }

    /// Scores the move by the piece it captures and the piece that captures.
    fn new(position: &Position, bit_move: BitMove) -> (r: ScoringMove) {
        let score = EvalMove::eval(position, bit_move);
        ScoringMove { bit_move, score }
    }
}

impl ScoringMove {
    /// The empty move with the given score.
    pub fn blank(score: i16) -> (r: ScoringMove)
        ensures
            r.bit_move.0 == EMPTY,
            r.score == score,
    {
        ScoringMove { bit_move: BitMove(EMPTY), score }
    }

    /// A move with a score.
    pub fn new(bit_move: BitMove, score: i16) -> (r: ScoringMove)
        ensures
            r.bit_move == bit_move,
            r.score == score,
    {
        ScoringMove { bit_move, score }
    }

    /// The move with score 0.
    pub fn from_bit_move(bm: BitMove) -> (r: ScoringMove)
        ensures
            r.bit_move == bm,
            r.score == 0,
    {
        ScoringMove { bit_move: bm, score: 0 }
    }
}

/// Decoding an encoded move gives back its parts, and encoded moves with the
/// same parts are equal: the packing loses nothing.
pub proof fn law_encode_decode(m1: BitMove, m2: BitMove)
    requires
        m1.encoded(),
        m2.encoded(),
        m1@ == m2@,
    ensures
        m1 == m2,
{
    let x = m1.0;
    let y = m2.0;
    lemma_field_bounds(x);
    lemma_field_bounds(y);
    crate::piece::law_index_round_trip(PieceType::of_index(((x >> 12) & 0xf) as int));
    assert(((x >> 12) & 0xf) == ((y >> 12) & 0xf)) by {
        let cx = ((x >> 12) & 0xf) as int;
        let cy = ((y >> 12) & 0xf) as int;
        assert(PieceType::of_index(cx).index() == cx);
        assert(PieceType::of_index(cy).index() == cy);
    }
    assert(((x >> 16) & 0xf) == ((y >> 16) & 0xf)) by {
        let cx = ((x >> 16) & 0xf) as int;
        let cy = ((y >> 16) & 0xf) as int;
        assert(PieceType::of_index(cx).index() == cx);
        assert(PieceType::of_index(cy).index() == cy);
    }
    assert(((x >> 20) & 0xf) == ((y >> 20) & 0xf)) by {
        let cx = ((x >> 20) & 0xf) as int;
        let cy = ((y >> 20) & 0xf) as int;
        assert(flag_code(flag_of_code(cx)) == cx);
        assert(flag_code(flag_of_code(cy)) == cy);
    }
    lemma_unpack_injective(x, y);
}

} // verus!
