//! Static evaluation of a position: material and piece-square scores,
//! from the point of view of the side to move.
use vstd::prelude::*;
use crate::color::Color;
use crate::piece::PieceType;
use crate::position::Position;
use crate::square::Square;

verus! {

/// Value of each piece, by piece number: positive for white, negative for black.
pub const PIECE_SCORES: [i16; 12] = [100, 300, 320, 500, 900, 10000, -100, -300, -320, -500, -900, -10000];

/// Bonus of each piece on each square, by piece number and square number.
pub const PIECE_POSITION_SCORES: [[i16; 64]; 12] = [
    [
          90,   90,   90,   90,   90,   90,   90,   90,
          30,   30,   30,   40,   40,   30,   30,   30,
          20,   20,   25,   30,   30,   25,   20,   20,
          10,   10,   10,   20,   20,   10,   10,   10,
           5,    5,   10,   20,   20,    5,    5,    5,
           0,    0,    0,    5,    5,   -5,    0,    0,
           0,    0,    0,  -10,  -10,    0,    0,    0,
           0,    0,    0,    0,    0,    0,    0,    0,
    ],
    [
         -15,   -5,    0,    0,    0,    0,   -5,  -15,
          -5,    0,    0,   10,   10,    0,    0,   -5,
          -5,    5,   20,   20,   20,   20,    5,   -5,
          -5,   10,   20,   30,   30,   20,   10,   -5,
          -5,   10,   20,   30,   30,   20,   10,   -5,
          -5,    5,   20,   10,   10,   20,    5,   -5,
          -5,    0,    0,    0,    0,    0,    0,   -5,
         -10,  -10,    0,    0,    0,    0,  -10,  -10,
    ],
    [
          -5,    0,    0,    0,    0,    0,    0,   -5,
           0,    0,    0,    0,    0,    0,    0,    0,
           0,    0,    0,    5,    5,    0,    0,    0,
           0,    0,   10,   20,   20,   10,    0,    0,
           0,    0,   10,   20,   20,   10,    0,    0,
           0,   10,    0,    5,    5,    0,   10,    0,
           0,   30,    0,    0,    0,    0,   30,    0,
           0,    0,  -10,    0,    0,  -10,    0,    0,
    ],
    [
          50,   50,   50,   50,   50,   50,   50,   50,
          50,   50,   50,   50,   50,   50,   50,   50,
           0,    0,   10,   20,   20,   10,    0,    0,
           0,    0,   10,   20,   20,   10,    0,    0,
           0,    0,   10,   20,   20,   10,    0,    0,
           0,    0,   10,   20,   20,   10,    0,    0,
           0,    0,   10,   20,   20,   10,    0,    0,
           0,    0,   10,   20,   20,   10,    0,    0,
    ],
    [
           0,    0,    0,    0,    0,    0,    0,    0,
           0,    0,    0,    0,    0,    0,    0,    0,
           0,    0,    0,    0,    0,    0,    0,    0,
           0,    0,    0,    0,    0,    0,    0,    0,
           0,    0,    0,    0,    0,    0,    0,    0,
           0,    0,    0,    0,    0,    0,    0,    0,
           0,    0,    0,    0,    0,    0,    0,    0,
           0,    0,    0,    0,    0,    0,    0,    0,
    ],
    [
          -5,    0,    0,    0,    0,    0,    0,   -5,
           0,    0,    5,    5,    5,    5,    0,    0,
           0,    5,    5,   10,   10,    5,    5,    0,
           0,    5,   10,   20,   20,   10,    5,    0,
           0,    5,   10,   20,   20,   10,    5,    0,
           0,    0,    5,   10,   10,    5,    0,    0,
           0,    5,    5,   -5,   -5,   -5,    5,    0,
           0,    5,    5,   -5,  -15,   -5,   10,    0,
    ],
    [
           0,    0,    0,    0,    0,    0,    0,    0,
           0,    0,    0,   10,   10,    0,    0,    0,
           0,    0,    0,   -5,   -5,    5,    0,    0,
          -5,   -5,  -10,  -20,  -20,   -5,   -5,   -5,
         -10,  -10,  -10,  -20,  -20,  -10,  -10,  -10,
         -20,  -20,  -25,  -30,  -30,  -25,  -20,  -20,
         -30,  -30,  -30,  -40,  -40,  -30,  -30,  -30,
         -90,  -90,  -90,  -90,  -90,  -90,  -90,  -90,
    ],
    [
          10,   10,    0,    0,    0,    0,   10,   10,
           5,    0,    0,    0,    0,    0,    0,    5,
           5,   -5,  -20,  -10,  -10,  -20,   -5,    5,
           5,  -10,  -20,  -30,  -30,  -20,  -10,    5,
           5,  -10,  -20,  -30,  -30,  -20,  -10,    5,
           5,   -5,  -20,  -20,  -20,  -20,   -5,    5,
           5,    0,    0,  -10,  -10,    0,    0,    5,
          15,    5,    0,    0,    0,    0,    5,   15,
    ],
    [
           0,    0,   10,    0,    0,   10,    0,    0,
           0,  -30,    0,    0,    0,    0,  -30,    0,
           0,  -10,    0,   -5,   -5,    0,  -10,    0,
           0,    0,  -10,  -20,  -20,  -10,    0,    0,
           0,    0,  -10,  -20,  -20,  -10,    0,    0,
           0,    0,    0,   -5,   -5,    0,    0,    0,
           0,    0,    0,    0,    0,    0,    0,    0,
           5,    0,    0,    0,    0,    0,    0,    5,
    ],
    [
           0,    0,  -10,  -20,  -20,  -10,    0,    0,
           0,    0,  -10,  -20,  -20,  -10,    0,    0,
           0,    0,  -10,  -20,  -20,  -10,    0,    0,
           0,    0,  -10,  -20,  -20,  -10,    0,    0,
           0,    0,  -10,  -20,  -20,  -10,    0,    0,
           0,    0,  -10,  -20,  -20,  -10,    0,    0,
         -50,  -50,  -50,  -50,  -50,  -50,  -50,  -50,
         -50,  -50,  -50,  -50,  -50,  -50,  -50,  -50,
    ],
    [
           0,    0,    0,    0,    0,    0,    0,    0,
           0,    0,    0,    0,    0,    0,    0,    0,
           0,    0,    0,    0,    0,    0,    0,    0,
           0,    0,    0,    0,    0,    0,    0,    0,
           0,    0,    0,    0,    0,    0,    0,    0,
           0,    0,    0,    0,    0,    0,    0,    0,
           0,    0,    0,    0,    0,    0,    0,    0,
           0,    0,    0,    0,    0,    0,    0,    0,
    ],
    [
           0,   -5,   -5,    5,   15,    5,  -10,    0,
           0,   -5,   -5,    5,    5,    5,   -5,    0,
           0,    0,   -5,  -10,  -10,   -5,    0,    0,
           0,   -5,  -10,  -20,  -20,  -10,   -5,    0,
           0,   -5,  -10,  -20,  -20,  -10,   -5,    0,
           0,   -5,   -5,  -10,  -10,   -5,   -5,    0,
           0,    0,   -5,   -5,   -5,   -5,    0,    0,
           5,    0,    0,    0,    0,    0,    0,    5,
    ],
];

/// What the piece on `sq` adds to the score for white: its value and its
/// bonus on that square; nothing for an empty square.
pub open spec fn square_score(p: PieceType, sq: int) -> int {
    if p == PieceType::NoPiece {
        0
    } else {
        PIECE_SCORES@[p.index()] + PIECE_POSITION_SCORES@[p.index()]@[sq]
    }
}

/// The score for white of the squares `0` to `n - 1`.
pub open spec fn score_upto(pos: Position, n: nat) -> int
    decreases n,
{
    if n == 0 {
        0
    } else {
        score_upto(pos, (n - 1) as nat) + square_score(pos.piece_at(n - 1), n - 1)
    }
}

/// The score for white of the whole board.
pub open spec fn white_score(pos: Position) -> int {
    score_upto(pos, 64)
}

/// The score from the point of view of the side to move.
pub open spec fn side_score(pos: Position) -> int {
    match pos.side {
        Color::White => white_score(pos),
        Color::Black => -white_score(pos),
    }
}

/// Summing the squares in order never leaves the range of `i16`, and the
/// score can be negated in it.
pub open spec fn score_fits(pos: Position) -> bool {
    &&& forall|n: nat| n <= 64 ==> i16::MIN <= #[trigger] score_upto(pos, n) <= i16::MAX
    &&& white_score(pos) != i16::MIN
}


/// The square of the same file on the mirrored rank: the first rank for the
/// eighth and so on.
pub open spec fn mirror_square(sq: int) -> int {
    56 - 8 * (sq / 8) + sq % 8
}

/// The piece of the same kind for the other side; the empty marker stays.
pub open spec fn color_swapped(p: PieceType) -> PieceType {
    match p {
        PieceType::WP => PieceType::BP,
        PieceType::BP => PieceType::WP,
        PieceType::WN => PieceType::BN,
        PieceType::BN => PieceType::WN,
        PieceType::WB => PieceType::BB,
        PieceType::BB => PieceType::WB,
        PieceType::WR => PieceType::BR,
        PieceType::BR => PieceType::WR,
        PieceType::WQ => PieceType::BQ,
        PieceType::BQ => PieceType::WQ,
        PieceType::WK => PieceType::BK,
        PieceType::BK => PieceType::WK,
        PieceType::NoPiece => PieceType::NoPiece,
    }
}

/// `q` is `p` seen from the other side: each square holds the piece of the
/// mirrored square with its colour swapped, and the other side is to move.
pub open spec fn is_mirror(p: Position, q: Position) -> bool {
    &&& q.side == p.side.other()
    &&& forall|sq: int| 0 <= sq < 64 ==> #[trigger] q.piece_at(sq) == color_swapped(p.piece_at(mirror_square(sq)))
}

/// The black bonus tables are the white ones mirrored and negated, on `sq`.
spec fn bonus_mirrored(sq: int) -> bool {
    &&& PIECE_POSITION_SCORES@[0]@[sq] == -PIECE_POSITION_SCORES@[6]@[mirror_square(sq)]
    &&& PIECE_POSITION_SCORES@[1]@[sq] == -PIECE_POSITION_SCORES@[7]@[mirror_square(sq)]
    &&& PIECE_POSITION_SCORES@[2]@[sq] == -PIECE_POSITION_SCORES@[8]@[mirror_square(sq)]
    &&& PIECE_POSITION_SCORES@[3]@[sq] == -PIECE_POSITION_SCORES@[9]@[mirror_square(sq)]
    &&& PIECE_POSITION_SCORES@[4]@[sq] == -PIECE_POSITION_SCORES@[10]@[mirror_square(sq)]
    &&& PIECE_POSITION_SCORES@[5]@[sq] == -PIECE_POSITION_SCORES@[11]@[mirror_square(sq)]
}

proof fn lemma_bonus_tables_mirrored()
    ensures
        forall|sq: int| 0 <= sq < 64 ==> #[trigger] bonus_mirrored(sq),
{
    assert(bonus_mirrored(0));
    assert(bonus_mirrored(1));
    assert(bonus_mirrored(2));
    assert(bonus_mirrored(3));
    assert(bonus_mirrored(4));
    assert(bonus_mirrored(5));
    assert(bonus_mirrored(6));
    assert(bonus_mirrored(7));
    assert(bonus_mirrored(8));
    assert(bonus_mirrored(9));
    assert(bonus_mirrored(10));
    assert(bonus_mirrored(11));
    assert(bonus_mirrored(12));
    assert(bonus_mirrored(13));
    assert(bonus_mirrored(14));
    assert(bonus_mirrored(15));
    assert(bonus_mirrored(16));
    assert(bonus_mirrored(17));
    assert(bonus_mirrored(18));
    assert(bonus_mirrored(19));
    assert(bonus_mirrored(20));
    assert(bonus_mirrored(21));
    assert(bonus_mirrored(22));
    assert(bonus_mirrored(23));
    assert(bonus_mirrored(24));
    assert(bonus_mirrored(25));
    assert(bonus_mirrored(26));
    assert(bonus_mirrored(27));
    assert(bonus_mirrored(28));
    assert(bonus_mirrored(29));
    assert(bonus_mirrored(30));
    assert(bonus_mirrored(31));
    assert(bonus_mirrored(32));
    assert(bonus_mirrored(33));
    assert(bonus_mirrored(34));
    assert(bonus_mirrored(35));
    assert(bonus_mirrored(36));
    assert(bonus_mirrored(37));
    assert(bonus_mirrored(38));
    assert(bonus_mirrored(39));
    assert(bonus_mirrored(40));
    assert(bonus_mirrored(41));
    assert(bonus_mirrored(42));
    assert(bonus_mirrored(43));
    assert(bonus_mirrored(44));
    assert(bonus_mirrored(45));
    assert(bonus_mirrored(46));
    assert(bonus_mirrored(47));
    assert(bonus_mirrored(48));
    assert(bonus_mirrored(49));
    assert(bonus_mirrored(50));
    assert(bonus_mirrored(51));
    assert(bonus_mirrored(52));
    assert(bonus_mirrored(53));
    assert(bonus_mirrored(54));
    assert(bonus_mirrored(55));
    assert(bonus_mirrored(56));
    assert(bonus_mirrored(57));
    assert(bonus_mirrored(58));
    assert(bonus_mirrored(59));
    assert(bonus_mirrored(60));
    assert(bonus_mirrored(61));
    assert(bonus_mirrored(62));
    assert(bonus_mirrored(63));
    assert forall|sq: int| 0 <= sq < 64 implies #[trigger] bonus_mirrored(sq) by {
        assert(sq == 0 || sq == 1 || sq == 2 || sq == 3 || sq == 4 || sq == 5 || sq == 6 || sq == 7 || sq == 8 || sq == 9 || sq == 10 || sq == 11 || sq == 12 || sq == 13 || sq == 14 || sq == 15 || sq == 16 || sq == 17 || sq == 18 || sq == 19 || sq == 20 || sq == 21 || sq == 22 || sq == 23 || sq == 24 || sq == 25 || sq == 26 || sq == 27 || sq == 28 || sq == 29 || sq == 30 || sq == 31 || sq == 32 || sq == 33 || sq == 34 || sq == 35 || sq == 36 || sq == 37 || sq == 38 || sq == 39 || sq == 40 || sq == 41 || sq == 42 || sq == 43 || sq == 44 || sq == 45 || sq == 46 || sq == 47 || sq == 48 || sq == 49 || sq == 50 || sq == 51 || sq == 52 || sq == 53 || sq == 54 || sq == 55 || sq == 56 || sq == 57 || sq == 58 || sq == 59 || sq == 60 || sq == 61 || sq == 62 || sq == 63);
    }
}

/// A piece with its colour swapped on the mirrored square scores the
/// opposite for white.
proof fn lemma_square_score_mirrored(p: PieceType, sq: int)
    requires
        0 <= sq < 64,
    ensures
        square_score(color_swapped(p), mirror_square(sq)) == -square_score(p, sq),
{
    lemma_bonus_tables_mirrored();
    assert(bonus_mirrored(sq));
    assert(bonus_mirrored(mirror_square(sq)));
    assert(mirror_square(mirror_square(sq)) == sq);
}

/// The sum of `f` over `0` to `n - 1`.
spec fn sum_upto(f: spec_fn(int) -> int, n: nat) -> int
    decreases n,
{
    if n == 0 {
        0
    } else {
        sum_upto(f, (n - 1) as nat) + f(n - 1)
    }
}

proof fn lemma_score_upto_sum(pos: Position, n: nat)
    ensures
        score_upto(pos, n) == sum_upto(|sq: int| square_score(pos.piece_at(sq), sq), n),
    decreases n,
{
    if n > 0 {
        lemma_score_upto_sum(pos, (n - 1) as nat);
    }
}

/// Summing over the board in mirrored order gives the same.
proof fn lemma_sum_mirrored(f: spec_fn(int) -> int, g: spec_fn(int) -> int)
    requires
        forall|sq: int| 0 <= sq < 64 ==> #[trigger] g(sq) == -f(mirror_square(sq)),
    ensures
        sum_upto(g, 64) == -sum_upto(f, 64),
{
    reveal_with_fuel(sum_upto, 65);
}

/// Seen from the other side a position scores the same for the side to
/// move: mirroring the board rank by rank, swapping the colours of all
/// pieces and handing the move to the other side leaves the score as it is.
pub proof fn law_eval_mirror(p: Position, q: Position)
    requires
        is_mirror(p, q),
    ensures
        side_score(q) == side_score(p),
{
    let f = |sq: int| square_score(p.piece_at(sq), sq);
    let g = |sq: int| square_score(q.piece_at(sq), sq);
    assert forall|sq: int| 0 <= sq < 64 implies #[trigger] g(sq) == -f(mirror_square(sq)) by {
        let t = mirror_square(sq);
        assert(mirror_square(t) == sq);
        lemma_square_score_mirrored(p.piece_at(t), t);
    }
    lemma_sum_mirrored(f, g);
    lemma_score_upto_sum(p, 64);
    lemma_score_upto_sum(q, 64);
}

pub struct EvalPosition;

impl EvalPosition {
    /// What the piece on `sq` adds to the score for white.
    fn square_score_exec(piece: PieceType, sq: Square) -> (r: i16)
        requires
            sq.valid(),
        ensures
            r == square_score(piece, sq.0 as int),
    {
        if piece == PieceType::NoPiece {
            0
        } else {
            let i = piece.to_index();
            let value = PIECE_SCORES[i];
            let table = PIECE_POSITION_SCORES[i];
            let bonus = table[sq.0 as usize];
            proof {
                assert(-10000 <= value <= 10000);
                assert(-90 <= bonus <= 90);
            }
            value + bonus
        }
    }

    /// The score of the position for the side to move, or `None` when
    /// summing it leaves the range of `i16`.
    pub fn eval_checked(position: &Position) -> (r: Option<i16>)
        requires
            position.wf(),
        ensures
            r is Some <==> score_fits(*position),
            r matches Some(s) ==> s == side_score(*position),
    {
        let mut score: i16 = 0;
        let mut i: u8 = 0;
        while i < 64
            invariant
                i <= 64,
                position.wf(),
                score == score_upto(*position, i as nat),
                forall|n: nat| n <= i ==> i16::MIN <= #[trigger] score_upto(*position, n) <= i16::MAX,
            decreases 64 - i,
        {
            let piece = position.piece_on_square(Square(i));
            let add = Self::square_score_exec(piece, Square(i));
            let next = score as i32 + add as i32;
            if next < -32768 || next > 32767 {
                proof {
                    assert(score_upto(*position, (i + 1) as nat) == next);
                }
                return None;
            }
            score = next as i16;
            i = i + 1;
        }
        if score == -32768 {
            return None;
        }
        match position.side {
            Color::White => Some(score),
            Color::Black => Some(-score),
        }
    }

    /// The score of the position for the side to move: the values and
    /// square bonuses of the white pieces less those of the black pieces,
    /// negated when black is to move.
    pub fn eval(position: &Position) -> (r: i16)
        requires
            position.wf(),
            score_fits(*position),
        ensures
            r == side_score(*position),
    {
        match Self::eval_checked(position) {
            Some(s) => s,
            None => 0,
        }
    }
}

} // verus!
