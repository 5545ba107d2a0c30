//! Forsyth-Edwards Notation: reading a position from its text form. The
//! fields are separated by white space; the first four (placement, side to
//! move, castling rights, en-passant square) are read, the rest is ignored.
use vstd::prelude::*;
use vstd::string::StringSliceAdditionalSpecFns;
use crate::castling_rights::CastlingRights;
use crate::color::Color;
use crate::piece::PieceType;
use crate::position::Position;
use crate::square::{Square, square_name_failure, square_of_name};
use crate::zobrist::{ZobristKey, ZobristKeys};
use crate::bits::bit;

verus! {

pub const STARTING_POSITION: &'static str = "rnbqkbnr/pppppppp/8/8/8/8/PPPPPPPP/RNBQKBNR w KQkq -";
pub const KIWIPETE_POSITION: &'static str = "r3k2r/p1ppqpb1/bn2pnp1/3PN3/1p2P3/2N2Q1p/PPPBBPPP/R3K2R w KQkq -";
pub const ROOK_POSITION: &'static str = "8/2p5/3p4/KP5r/1R3p1k/8/4P1P1/8 w - -";
pub const TRICKY_POSITION: &'static str = "r2q1rk1/pP1p2pp/Q4n2/bbp1p3/Np6/1B3NBn/pPPP1PPP/R3K2R b KQ -";
pub const TRICKY_POSITION_2: &'static str = "rnbq1k1r/pp1Pbppp/2p5/8/2B5/8/PPP1NnPP/RNBQK2R w KQ - 1 8";

/// Error for a text that is no FEN position, with its reason.
#[derive(Debug)]
pub struct FenParseError(pub &'static str);

/// White space: space, tab, line feed, vertical tab, form feed, carriage return.
pub open spec fn is_space(b: u8) -> bool {
    b == 32 || (9 <= b && b <= 13)
}

/// The first index from `i` on that holds no white space.
pub open spec fn skip_spaces(s: Seq<u8>, i: int) -> int
    decreases s.len() - i,
{
    if 0 <= i < s.len() && is_space(s[i]) {
        skip_spaces(s, i + 1)
    } else {
        i
    }
}

/// The first index from `i` on that holds white space.
pub open spec fn word_end(s: Seq<u8>, i: int) -> int
    decreases s.len() - i,
{
    if 0 <= i < s.len() && !is_space(s[i]) {
        word_end(s, i + 1)
    } else {
        i
    }
}

/// Where the word with number `k` starts (at the end of `s` where there is none).
pub open spec fn word_start(s: Seq<u8>, k: nat) -> int
    decreases k,
{
    if k == 0 {
        skip_spaces(s, 0)
    } else {
        skip_spaces(s, word_end(s, word_start(s, (k - 1) as nat)))
    }
}

/// The text has a word with number `k`.
pub open spec fn has_word(s: Seq<u8>, k: nat) -> bool {
    word_start(s, k) < s.len()
}

/// The word with number `k`: a maximal run of bytes that are no white space.
pub open spec fn word(s: Seq<u8>, k: nat) -> Seq<u8> {
    s.subrange(word_start(s, k), word_end(s, word_start(s, k)))
}

/// Reading byte `b` of the placement field with the square counter at `i`:
/// a digit skips that many squares, `/` is passed over, a piece letter puts
/// a piece and moves on by one square.
pub open spec fn placement_step(i: int, b: u8) -> Result<int, &'static str> {
    if '1' as u8 <= b <= '8' as u8 {
        if i + (b - '0' as u8) <= 255 {
            Ok(i + (b - '0' as u8))
        } else {
            Err("Too many squares!")
        }
    } else if b == '/' as u8 {
        Ok(i)
    } else if PieceType::of_fen_byte(b) != PieceType::NoPiece {
        if i < 64 {
            Ok(i + 1)
        } else {
            Err("Too many squares!")
        }
    } else {
        Err("Invalid pieces!")
    }
}

/// The square counter after the first `n` bytes of the placement field, or
/// the reason why they are no placement.
pub open spec fn placement(t: Seq<u8>, n: nat) -> Result<int, &'static str>
    decreases n,
{
    if n == 0 {
        Ok(0)
    } else {
        match placement(t, (n - 1) as nat) {
            Ok(i) => placement_step(i, t[n - 1]),
            Err(e) => Err(e),
        }
    }
}

/// The piece that the first `n` bytes of the placement field put on `sq`.
pub open spec fn placed(t: Seq<u8>, n: nat, sq: int) -> PieceType
    decreases n,
{
    if n == 0 {
        PieceType::NoPiece
    } else if placement(t, (n - 1) as nat) == Ok::<int, &'static str>(sq)
        && PieceType::of_fen_byte(t[n - 1]) != PieceType::NoPiece {
        PieceType::of_fen_byte(t[n - 1])
    } else {
        placed(t, (n - 1) as nat, sq)
    }
}

/// The side that the side field names.
pub open spec fn side_of(t: Seq<u8>) -> Option<Color> {
    if t == seq!['w' as u8] {
        Some(Color::White)
    } else if t == seq!['b' as u8] {
        Some(Color::Black)
    } else {
        None
    }
}

/// The castling rights that the first `n` bytes of the castling field give.
pub open spec fn castling_bits(t: Seq<u8>, n: nat) -> Result<u8, &'static str>
    decreases n,
{
    if n == 0 {
        Ok(0)
    } else {
        match castling_bits(t, (n - 1) as nat) {
            Ok(c) => {
                let b = t[n - 1];
                if b == 'K' as u8 {
                    Ok(c | crate::castling_rights::WK)
                } else if b == 'Q' as u8 {
                    Ok(c | crate::castling_rights::WQ)
                } else if b == 'k' as u8 {
                    Ok(c | crate::castling_rights::BK)
                } else if b == 'q' as u8 {
                    Ok(c | crate::castling_rights::BQ)
                } else if b == '-' as u8 {
                    Ok(c)
                } else {
                    Err("Invalid castling rights!")
                }
            },
            Err(e) => Err(e),
        }
    }
}

/// The en-passant square that the en-passant field names.
pub open spec fn en_passant_of(t: Seq<u8>) -> Result<Option<int>, &'static str> {
    if t == seq!['-' as u8] {
        Ok(None)
    } else {
        match square_name_failure(t) {
            Some(e) => Err(e),
            None => Ok(Some(square_of_name(t[0], t[1]))),
        }
    }
}

/// Why the text is no FEN position, or `None` when it is one.
pub open spec fn fen_failure(s: Seq<u8>) -> Option<&'static str> {
    if !has_word(s, 0) {
        Some("No pieces found!")
    } else if !has_word(s, 1) {
        Some("No side found!")
    } else if !has_word(s, 2) {
        Some("No castling rights found!")
    } else if !has_word(s, 3) {
        Some("No en-passant found!")
    } else if placement(word(s, 0), word(s, 0).len()) is Err {
        Some(placement(word(s, 0), word(s, 0).len())->Err_0)
    } else if side_of(word(s, 1)) is None {
        Some("Invalid side!")
    } else if castling_bits(word(s, 2), word(s, 2).len()) is Err {
        Some("Invalid castling rights!")
    } else if en_passant_of(word(s, 3)) is Err {
        Some(en_passant_of(word(s, 3))->Err_0)
    } else {
        None
    }
}

/// What a position read from the text `s` holds, with the given hash keys.
pub open spec fn fen_position(s: Seq<u8>, keys: &'static ZobristKeys, p: Position) -> bool {
    &&& p.wf()
    &&& forall|sq: int| #[trigger] p.piece_at(sq) == placed(word(s, 0), word(s, 0).len(), sq)
    &&& Some(p.side) == side_of(word(s, 1))
    &&& Ok::<u8, &'static str>(p.castling_rights.0) == castling_bits(word(s, 2), word(s, 2).len())
    &&& match en_passant_of(word(s, 3)) {
        Ok(Some(e)) => p.en_passant_option == Some(Square(e as u8)),
        _ => p.en_passant_option is None,
    }
    &&& p.ply == 0
    &&& p.zobrist_keys == keys
    &&& p.zobrist_key.0 == p.full_hash()
}

pub proof fn lemma_skip_spaces(s: Seq<u8>, i: int)
    requires
        0 <= i <= s.len(),
    ensures
        i <= skip_spaces(s, i) <= s.len(),
        skip_spaces(s, i) < s.len() ==> !is_space(s[skip_spaces(s, i)]),
    decreases s.len() - i,
{
    if i < s.len() && is_space(s[i]) {
        lemma_skip_spaces(s, i + 1);
    }
}

pub proof fn lemma_word_end(s: Seq<u8>, i: int)
    requires
        0 <= i <= s.len(),
    ensures
        i <= word_end(s, i) <= s.len(),
        i < s.len() && !is_space(s[i]) ==> i < word_end(s, i),
    decreases s.len() - i,
{
    if i < s.len() && !is_space(s[i]) {
        lemma_word_end(s, i + 1);
    }
}

proof fn lemma_word_start(s: Seq<u8>, k: nat)
    ensures
        0 <= word_start(s, k) <= s.len(),
        word_start(s, k) <= word_end(s, word_start(s, k)) <= s.len(),
    decreases k,
{
    if k == 0 {
        lemma_skip_spaces(s, 0);
    } else {
        lemma_word_start(s, (k - 1) as nat);
        lemma_skip_spaces(s, word_end(s, word_start(s, (k - 1) as nat)));
    }
    lemma_word_end(s, word_start(s, k));
}

pub(crate) fn skip_spaces_exec(s: &[u8], i: usize) -> (r: usize)
    requires
        i <= s@.len(),
    ensures
        r == skip_spaces(s@, i as int),
        i <= r <= s@.len(),
{
    let mut j = i;
    while j < s.len() && (s[j] == 32 || (9 <= s[j] && s[j] <= 13))
        invariant
            i <= j <= s@.len(),
            skip_spaces(s@, j as int) == skip_spaces(s@, i as int),
        decreases s@.len() - j,
    {
        j = j + 1;
    }
    j
}

pub(crate) fn word_end_exec(s: &[u8], i: usize) -> (r: usize)
    requires
        i <= s@.len(),
    ensures
        r == word_end(s@, i as int),
        i <= r <= s@.len(),
{
    let mut j = i;
    while j < s.len() && !(s[j] == 32 || (9 <= s[j] && s[j] <= 13))
        invariant
            i <= j <= s@.len(),
            word_end(s@, j as int) == word_end(s@, i as int),
        decreases s@.len() - j,
    {
        j = j + 1;
    }
    j
}

proof fn lemma_castling_bound(c: u8, m: u8)
    by (bit_vector)
    requires
        c < 16,
        m < 16,
    ensures
        c | m < 16,
{
}

proof fn lemma_castling_bits(t: Seq<u8>, n: nat)
    ensures
        castling_bits(t, n) matches Ok(c) ==> c < 16,
    decreases n,
{
    if n > 0 {
        lemma_castling_bits(t, (n - 1) as nat);
        if let Ok(c) = castling_bits(t, (n - 1) as nat) {
            lemma_castling_bound(c, 1);
            lemma_castling_bound(c, 2);
            lemma_castling_bound(c, 4);
            lemma_castling_bound(c, 8);
        }
    }
}

proof fn lemma_placement_err(t: Seq<u8>, n: nat, m: nat)
    requires
        n <= m,
        placement(t, n) is Err,
    ensures
        placement(t, m) == placement(t, n),
    decreases m - n,
{
    if n < m {
        lemma_placement_err(t, n, (m - 1) as nat);
    }
}

proof fn lemma_castling_err(t: Seq<u8>, n: nat, m: nat)
    requires
        n <= m,
        castling_bits(t, n) is Err,
    ensures
        castling_bits(t, m) == castling_bits(t, n),
    decreases m - n,
{
    if n < m {
        lemma_castling_err(t, n, (m - 1) as nat);
    }
}

/// Puts the pieces of the placement field `t` on the empty board `position`.
fn set_pieces(position: &mut Position, t: &[u8]) -> (r: Result<(), FenParseError>)
    requires
        old(position).wf(),
        forall|sq: int| #[trigger] old(position).piece_at(sq) == PieceType::NoPiece,
    ensures
        r is Ok <==> placement(t@, t@.len()) is Ok,
        r matches Err(e) ==> placement(t@, t@.len()) == Err::<int, &'static str>(e.0),
        r is Ok ==> {
            &&& final(position).wf()
            &&& forall|sq: int| #[trigger] final(position).piece_at(sq) == placed(t@, t@.len(), sq)
            &&& final(position).same_state(*old(position))
        },
{
    let mut sq_index: u8 = 0;
    let mut n: usize = 0;
    while n < t.len()
        invariant
            n <= t@.len(),
            position.board_ok(),
            position.zobrist_keys.wf(),
            position.castling_rights.0 < 16,
            position.en_passant_option == old(position).en_passant_option,
            position.same_state(*old(position)),
            placement(t@, n as nat) == Ok::<int, &'static str>(sq_index as int),
            forall|sq: int| #[trigger] position.piece_at(sq) == placed(t@, n as nat, sq),
            forall|sq: int| sq_index <= sq ==> #[trigger] position.piece_at(sq) == PieceType::NoPiece,
        decreases t@.len() - n,
    {
        let b = t[n];
        proof {
            assert(t@.subrange(0, n + 1 as int) == t@.subrange(0, n as int).push(b));
        }
        if 49 <= b && b <= 56 {
            if b - 48 > 255 - sq_index {
                proof {
                    lemma_placement_err(t@, (n + 1) as nat, t@.len());
                }
                return Err(FenParseError("Too many squares!"));
            }
            sq_index = sq_index + (b - 48);
        } else if b == 47 {
        } else {
            let piece = PieceType::from_fen_byte(b);
            if piece == PieceType::NoPiece {
                proof {
                    lemma_placement_err(t@, (n + 1) as nat, t@.len());
                }
                return Err(FenParseError("Invalid pieces!"));
            }
            if sq_index >= 64 {
                proof {
                    lemma_placement_err(t@, (n + 1) as nat, t@.len());
                }
                return Err(FenParseError("Too many squares!"));
            }
            position.set_piece(piece, Square(sq_index));
            sq_index = sq_index + 1;
        }
        n = n + 1;
    }
    position.populate_occupancies();
    Ok(())
}

/// Sets the side to move from the side field `t`.
fn set_side(position: &mut Position, t: &[u8]) -> (r: Result<(), FenParseError>)
    ensures
        r is Ok <==> side_of(t@) is Some,
        r matches Err(e) ==> e.0 == "Invalid side!",
        r is Ok ==> Some(final(position).side) == side_of(t@),
        final(position).bbs == old(position).bbs,
        final(position).wo == old(position).wo,
        final(position).bo == old(position).bo,
        final(position).ao == old(position).ao,
        final(position).en_passant_option == old(position).en_passant_option,
        final(position).castling_rights == old(position).castling_rights,
        final(position).ply == old(position).ply,
        final(position).zobrist_keys == old(position).zobrist_keys,
{
    if t.len() == 1 && t[0] == 119 {
        proof {
            assert(t@ == seq!['w' as u8]);
        }
        position.side = Color::White;
        Ok(())
    } else if t.len() == 1 && t[0] == 98 {
        proof {
            assert(t@ == seq!['b' as u8]);
        }
        position.side = Color::Black;
        Ok(())
    } else {
        Err(FenParseError("Invalid side!"))
    }
}

/// Adds the castling rights of the castling field `t`.
fn set_castling_rights(position: &mut Position, t: &[u8]) -> (r: Result<(), FenParseError>)
    requires
        old(position).castling_rights.0 == 0,
    ensures
        r is Ok <==> castling_bits(t@, t@.len()) is Ok,
        r matches Err(e) ==> e.0 == "Invalid castling rights!",
        r is Ok ==> Ok::<u8, &'static str>(final(position).castling_rights.0) == castling_bits(t@, t@.len()),
        r is Ok ==> final(position).castling_rights.0 < 16,
        final(position).bbs == old(position).bbs,
        final(position).wo == old(position).wo,
        final(position).bo == old(position).bo,
        final(position).ao == old(position).ao,
        final(position).en_passant_option == old(position).en_passant_option,
        final(position).side == old(position).side,
        final(position).ply == old(position).ply,
        final(position).zobrist_keys == old(position).zobrist_keys,
{
    let mut n: usize = 0;
    while n < t.len()
        invariant
            n <= t@.len(),
            castling_bits(t@, n as nat) == Ok::<u8, &'static str>(position.castling_rights.0),
            position.bbs == old(position).bbs,
            position.wo == old(position).wo,
            position.bo == old(position).bo,
            position.ao == old(position).ao,
            position.en_passant_option == old(position).en_passant_option,
            position.side == old(position).side,
            position.ply == old(position).ply,
            position.zobrist_keys == old(position).zobrist_keys,
        decreases t@.len() - n,
    {
        let b = t[n];
        let c = position.castling_rights.0;
        if b == 75 {
            position.castling_rights = CastlingRights(c | crate::castling_rights::WK);
        } else if b == 81 {
            position.castling_rights = CastlingRights(c | crate::castling_rights::WQ);
        } else if b == 107 {
            position.castling_rights = CastlingRights(c | crate::castling_rights::BK);
        } else if b == 113 {
            position.castling_rights = CastlingRights(c | crate::castling_rights::BQ);
        } else if b == 45 {
        } else {
            proof {
                lemma_castling_err(t@, (n + 1) as nat, t@.len());
            }
            return Err(FenParseError("Invalid castling rights!"));
        }
        n = n + 1;
    }
    proof {
        lemma_castling_bits(t@, t@.len());
    }
    Ok(())
}

/// Sets the en-passant square from the en-passant field `t`.
fn set_en_passant_sq(position: &mut Position, t: &[u8]) -> (r: Result<(), FenParseError>)
    requires
        old(position).en_passant_option is None,
    ensures
        r is Ok <==> en_passant_of(t@) is Ok,
        r matches Err(e) ==> en_passant_of(t@) == Err::<Option<int>, &'static str>(e.0),
        r is Ok ==> match en_passant_of(t@) {
            Ok(Some(e)) => final(position).en_passant_option == Some(Square(e as u8)) && e < 64,
            _ => final(position).en_passant_option is None,
        },
        final(position).bbs == old(position).bbs,
        final(position).wo == old(position).wo,
        final(position).bo == old(position).bo,
        final(position).ao == old(position).ao,
        final(position).castling_rights == old(position).castling_rights,
        final(position).side == old(position).side,
        final(position).ply == old(position).ply,
        final(position).zobrist_keys == old(position).zobrist_keys,
{
    if t.len() == 1 && t[0] == 45 {
        proof {
            assert(t@ == seq!['-' as u8]);
        }
        return Ok(());
    }
    match Square::parse_bytes(t) {
        Ok(sq) => {
            position.en_passant_option = Some(sq);
            Ok(())
        },
        Err(e) => Err(FenParseError(e.0)),
    }
}

/// Reads a position from FEN text, with the given hash keys.
pub fn parse_with_keys(fen_string: &str, keys: &'static ZobristKeys) -> (r: Result<Position, FenParseError>)
    requires
        keys.wf(),
    ensures
        r is Ok <==> fen_failure(fen_string.spec_bytes()) is None,
        r matches Err(e) ==> fen_failure(fen_string.spec_bytes()) == Some(e.0),
        r matches Ok(p) ==> fen_position(fen_string.spec_bytes(), keys, p),
{
    parse_bytes_with_keys(fen_string.as_bytes(), keys)
}

/// Reads a position from the bytes of a FEN text, with the given hash keys.
pub fn parse_bytes_with_keys(s: &[u8], keys: &'static ZobristKeys) -> (r: Result<Position, FenParseError>)
    requires
        keys.wf(),
    ensures
        r is Ok <==> fen_failure(s@) is None,
        r matches Err(e) ==> fen_failure(s@) == Some(e.0),
        r matches Ok(p) ==> fen_position(s@, keys, p),
{
    proof {
        lemma_word_start(s@, 0);
        lemma_word_start(s@, 1);
        lemma_word_start(s@, 2);
        lemma_word_start(s@, 3);
    }
    let a0 = skip_spaces_exec(s, 0);
    if a0 == s.len() {
        return Err(FenParseError("No pieces found!"));
    }
    let e0 = word_end_exec(s, a0);
    let a1 = skip_spaces_exec(s, e0);
    if a1 == s.len() {
        return Err(FenParseError("No side found!"));
    }
    let e1 = word_end_exec(s, a1);
    let a2 = skip_spaces_exec(s, e1);
    if a2 == s.len() {
        return Err(FenParseError("No castling rights found!"));
    }
    let e2 = word_end_exec(s, a2);
    let a3 = skip_spaces_exec(s, e2);
    if a3 == s.len() {
        return Err(FenParseError("No en-passant found!"));
    }
    let e3 = word_end_exec(s, a3);
    let pieces = vstd::slice::slice_subrange(s, a0, e0);
    let side = vstd::slice::slice_subrange(s, a1, e1);
    let castling = vstd::slice::slice_subrange(s, a2, e2);
    let en_passant = vstd::slice::slice_subrange(s, a3, e3);
    let mut pos = Position::empty_with_keys(keys);
    if let Err(e) = set_pieces(&mut pos, pieces) {
        return Err(e);
    }
    if let Err(e) = set_side(&mut pos, side) {
        return Err(e);
    }
    if let Err(e) = set_castling_rights(&mut pos, castling) {
        return Err(e);
    }
    if let Err(e) = set_en_passant_sq(&mut pos, en_passant) {
        return Err(e);
    }
    pos.zobrist_key = ZobristKey::generate(&pos);
    Ok(pos)
}

/// Reads a position from FEN text, with the standard hash keys.
pub fn parse(fen_string: &str) -> (r: Result<Position, FenParseError>)
    ensures
        r is Ok <==> fen_failure(fen_string.spec_bytes()) is None,
        r matches Err(e) ==> fen_failure(fen_string.spec_bytes()) == Some(e.0),
        r matches Ok(p) ==> fen_position(fen_string.spec_bytes(), p.zobrist_keys, p),
        r matches Ok(p) ==> p.zobrist_keys.is_standard(),
{
    parse_with_keys(fen_string, ZobristKeys::standard_static())
}

/// A text in FEN.
pub struct FenString(pub String);

impl FenString {
    /// The bytes of the text.
    pub open spec fn bytes(&self) -> Seq<u8> {
        vstd::utf8::encode_utf8(self.0@)
    }

    /// Wraps a text.
    pub fn from_str(text: &str) -> (r: FenString)
        ensures
            r.0@ == text@,
    {
        FenString(text.to_owned())
    }

    /// The starting position.
    pub fn starting() -> (r: FenString)
        ensures
            r.0@ == STARTING_POSITION@,
    {
        Self::from_str(STARTING_POSITION)
    }

    /// The "Kiwipete" test position.
    pub fn kiwipete() -> (r: FenString)
        ensures
            r.0@ == KIWIPETE_POSITION@,
    {
        Self::from_str(KIWIPETE_POSITION)
    }

    /// A test position with rooks and pawns.
    pub fn rook() -> (r: FenString)
        ensures
            r.0@ == ROOK_POSITION@,
    {
        Self::from_str(ROOK_POSITION)
    }

    /// A test position with promotions and castling.
    pub fn tricky() -> (r: FenString)
        ensures
            r.0@ == TRICKY_POSITION@,
    {
        Self::from_str(TRICKY_POSITION)
    }

    /// A second test position with promotions and castling.
    pub fn tricky2() -> (r: FenString)
        ensures
            r.0@ == TRICKY_POSITION_2@,
    {
        Self::from_str(TRICKY_POSITION_2)
    }

    /// Reads the position, with the given hash keys.
    pub fn parse_with_keys(&self, keys: &'static ZobristKeys) -> (r: Result<Position, FenParseError>)
        requires
            keys.wf(),
        ensures
            r is Ok <==> fen_failure(self.bytes()) is None,
            r matches Err(e) ==> fen_failure(self.bytes()) == Some(e.0),
            r matches Ok(p) ==> fen_position(self.bytes(), keys, p),
    {
        parse_with_keys(self.0.as_str(), keys)
    }

    /// Reads the position, with the standard hash keys.
    pub fn parse(&self) -> (r: Result<Position, FenParseError>)
        ensures
            r is Ok <==> fen_failure(self.bytes()) is None,
            r matches Err(e) ==> fen_failure(self.bytes()) == Some(e.0),
            r matches Ok(p) ==> fen_position(self.bytes(), p.zobrist_keys, p),
            r matches Ok(p) ==> p.zobrist_keys.is_standard(),
    {
        parse(self.0.as_str())
    }
}

/// The placement text of the row `row` from column `col` on, with `empty`
/// empty squares met just before `col` and not written yet.
pub open spec fn row_bytes(p: Position, row: int, col: int, empty: nat) -> Seq<u8>
    decreases 8 - col,
{
    if col >= 8 {
        if empty > 0 {
            seq![('0' as u8 + empty) as u8]
        } else {
            Seq::empty()
        }
    } else if p.piece_at(row * 8 + col) == PieceType::NoPiece {
        row_bytes(p, row, col + 1, empty + 1)
    } else {
        (if empty > 0 {
            seq![('0' as u8 + empty) as u8]
        } else {
            Seq::<u8>::empty()
        }) + seq![p.piece_at(row * 8 + col).fen_byte()] + row_bytes(p, row, col + 1, 0)
    }
}

/// The placement text of the rows `0` to `n - 1`, separated by `/`.
pub open spec fn rows_bytes(p: Position, n: nat) -> Seq<u8>
    decreases n,
{
    if n == 0 {
        Seq::empty()
    } else if n == 1 {
        row_bytes(p, 0, 0, 0)
    } else {
        rows_bytes(p, (n - 1) as nat) + seq!['/' as u8] + row_bytes(p, n - 1, 0, 0)
    }
}

/// The castling field: the letters of the rights held, or `-` for none.
pub open spec fn castling_field(c: CastlingRights) -> Seq<u8> {
    if c.0 & 15 == 0 {
        seq!['-' as u8]
    } else {
        (if c.has_wk() { seq!['K' as u8] } else { Seq::<u8>::empty() })
            + (if c.has_wq() { seq!['Q' as u8] } else { Seq::<u8>::empty() })
            + (if c.has_bk() { seq!['k' as u8] } else { Seq::<u8>::empty() })
            + (if c.has_bq() { seq!['q' as u8] } else { Seq::<u8>::empty() })
    }
}

/// The FEN text of a position: placement, side, castling rights and
/// en-passant square.
pub open spec fn fen_bytes(p: Position) -> Seq<u8> {
    rows_bytes(p, 8) + seq![' ' as u8] + (if p.side == Color::White {
        seq!['w' as u8]
    } else {
        seq!['b' as u8]
    }) + seq![' ' as u8] + castling_field(p.castling_rights) + seq![' ' as u8] + match p.en_passant_option {
        Some(sq) => sq.name_bytes(),
        None => seq!['-' as u8],
    }
}

proof fn lemma_row_ascii(p: Position, row: int, col: int, empty: nat)
    requires
        0 <= col <= 8,
        empty <= col,
    ensures
        crate::text::is_ascii_bytes(row_bytes(p, row, col, empty)),
    decreases 8 - col,
{
    if col < 8 {
        if p.piece_at(row * 8 + col) == PieceType::NoPiece {
            lemma_row_ascii(p, row, col + 1, empty + 1);
        } else {
            lemma_row_ascii(p, row, col + 1, 0);
            let d = if empty > 0 {
                seq![('0' as u8 + empty) as u8]
            } else {
                Seq::<u8>::empty()
            };
            let x = d + seq![p.piece_at(row * 8 + col).fen_byte()];
            assert(crate::text::is_ascii_bytes(x));
            assert(x + row_bytes(p, row, col + 1, 0) == row_bytes(p, row, col, empty));
        }
    }
}

proof fn lemma_fen_ascii(p: Position)
    ensures
        crate::text::is_ascii_bytes(fen_bytes(p)),
{
    assert forall|n: nat| n <= 8 implies crate::text::is_ascii_bytes(#[trigger] rows_bytes(p, n)) by {
        lemma_rows_ascii(p, n);
    }
    if let Some(sq) = p.en_passant_option {
        assert(crate::text::is_ascii_bytes(sq.name_bytes())) by {
            assert(sq.name_bytes()[0] < 128 && sq.name_bytes()[1] < 128) by (nonlinear_arith)
                requires
                    sq.name_bytes()[0] == ('a' as u8 + sq.0 % 8) as u8,
                    sq.name_bytes()[1] == ('8' as u8 - sq.0 / 8) as u8,
            {
            }
        }
    }
}

proof fn lemma_rows_ascii(p: Position, n: nat)
    requires
        n <= 8,
    ensures
        crate::text::is_ascii_bytes(rows_bytes(p, n)),
    decreases n,
{
    if n > 0 {
        lemma_row_ascii(p, n - 1, 0, 0);
        if n > 1 {
            lemma_rows_ascii(p, (n - 1) as nat);
        }
    }
}

proof fn lemma_placement_prefix(t: Seq<u8>, u: Seq<u8>, n: nat)
    requires
        n <= t.len(),
    ensures
        placement(t + u, n) == placement(t, n),
        forall|sq: int| #[trigger] placed(t + u, n, sq) == placed(t, n, sq),
    decreases n,
{
    if n > 0 {
        lemma_placement_prefix(t, u, (n - 1) as nat);
        assert((t + u)[n - 1] == t[n - 1]);
        assert forall|sq: int| #[trigger] placed(t + u, n, sq) == placed(t, n, sq) by {
            assert(placed(t + u, (n - 1) as nat, sq) == placed(t, (n - 1) as nat, sq));
        }
    }
}

/// Reading one more byte of the placement field.
proof fn lemma_placement_push(t: Seq<u8>, b: u8)
    ensures
        placement(t.push(b), t.len() + 1) == match placement(t, t.len()) {
            Ok(i) => placement_step(i, b),
            Err(e) => Err(e),
        },
        forall|sq: int| #[trigger] placed(t.push(b), t.len() + 1, sq) == if placement(t, t.len())
            == Ok::<int, &'static str>(sq) && PieceType::of_fen_byte(b) != PieceType::NoPiece {
            PieceType::of_fen_byte(b)
        } else {
            placed(t, t.len(), sq)
        },
{
    lemma_placement_prefix(t, seq![b], t.len());
    assert(t + seq![b] == t.push(b));
    assert(t.push(b)[t.len() as int] == b);
    assert forall|sq: int| #[trigger] placed(t.push(b), t.len() + 1, sq) == if placement(t, t.len())
        == Ok::<int, &'static str>(sq) && PieceType::of_fen_byte(b) != PieceType::NoPiece {
        PieceType::of_fen_byte(b)
    } else {
        placed(t, t.len(), sq)
    } by {
        assert(placed(t.push(b), t.len(), sq) == placed(t, t.len(), sq));
    }
}

/// The placement text is read back, one row after another: with the rows
/// before read into `t0` and the squares of the row before `col` read
/// (the last `empty` of them empty and not written yet), reading the rest
/// of the row puts every piece of the row on its square.
proof fn lemma_row_read(p: Position, t0: Seq<u8>, row: int, col: int, empty: nat)
    requires
        0 <= row < 8,
        0 <= col <= 8,
        empty <= col,
        placement(t0, t0.len()) == Ok::<int, &'static str>(8 * row + col - empty),
        forall|sq: int| sq < 8 * row + col - empty ==> #[trigger] placed(t0, t0.len(), sq) == p.piece_at(sq),
        forall|sq: int| sq >= 8 * row + col - empty ==> #[trigger] placed(t0, t0.len(), sq) == PieceType::NoPiece,
        forall|sq: int| 8 * row + col - empty <= sq < 8 * row + col ==> #[trigger] p.piece_at(sq) == PieceType::NoPiece,
    ensures
        ({
            let t = t0 + row_bytes(p, row, col, empty);
            &&& placement(t, t.len()) == Ok::<int, &'static str>(8 * row + 8)
            &&& forall|sq: int| sq < 8 * row + 8 ==> #[trigger] placed(t, t.len(), sq) == p.piece_at(sq)
            &&& forall|sq: int| sq >= 8 * row + 8 ==> #[trigger] placed(t, t.len(), sq) == PieceType::NoPiece
        }),
    decreases 8 - col,
{
    if col >= 8 {
        if empty > 0 {
            let d = ('0' as u8 + empty) as u8;
            lemma_placement_push(t0, d);
            assert(t0 + row_bytes(p, row, col, empty) == t0.push(d));
        } else {
            assert(t0 + row_bytes(p, row, col, empty) == t0);
        }
    } else if p.piece_at(8 * row + col) == PieceType::NoPiece {
        assert(row * 8 + col == 8 * row + col);
        lemma_row_read(p, t0, row, col + 1, empty + 1);
    } else {
        assert(row * 8 + col == 8 * row + col);
        let piece = p.piece_at(8 * row + col);
        crate::piece::law_fen_byte_round_trip(piece);
        let t1 = if empty > 0 {
            let d = ('0' as u8 + empty) as u8;
            lemma_placement_push(t0, d);
            t0.push(d)
        } else {
            t0
        };
        assert(placement(t1, t1.len()) == Ok::<int, &'static str>(8 * row + col));
        assert(forall|sq: int| sq < 8 * row + col ==> #[trigger] placed(t1, t1.len(), sq) == p.piece_at(sq));
        assert(forall|sq: int| sq >= 8 * row + col ==> #[trigger] placed(t1, t1.len(), sq) == PieceType::NoPiece);
        let b = piece.fen_byte();
        lemma_placement_push(t1, b);
        let t2 = t1.push(b);
        lemma_row_read(p, t2, row, col + 1, 0);
        let digits = if empty > 0 {
            seq![('0' as u8 + empty) as u8]
        } else {
            Seq::<u8>::empty()
        };
        assert(t1 == t0 + digits);
        assert(t2 + row_bytes(p, row, col + 1, 0) == t0 + row_bytes(p, row, col, empty));
    }
}

/// Reading the first `n` rows of the placement text puts every piece of
/// those rows on its square.
proof fn lemma_rows_read(p: Position, n: nat)
    requires
        1 <= n <= 8,
    ensures
        ({
            let t = rows_bytes(p, n);
            &&& placement(t, t.len()) == Ok::<int, &'static str>(8 * n as int)
            &&& forall|sq: int| sq < 8 * n ==> #[trigger] placed(t, t.len(), sq) == p.piece_at(sq)
            &&& forall|sq: int| sq >= 8 * n ==> #[trigger] placed(t, t.len(), sq) == PieceType::NoPiece
        }),
    decreases n,
{
    if n == 1 {
        let t0 = Seq::<u8>::empty();
        assert forall|sq: int| sq < 0 implies #[trigger] p.piece_at(sq) == PieceType::NoPiece by {}
        lemma_row_read(p, t0, 0, 0, 0);
        assert(t0 + row_bytes(p, 0, 0, 0) == rows_bytes(p, 1));
    } else {
        lemma_rows_read(p, (n - 1) as nat);
        let t = rows_bytes(p, (n - 1) as nat);
        lemma_placement_push(t, '/' as u8);
        let t0 = t.push('/' as u8);
        lemma_row_read(p, t0, n - 1, 0, 0);
        assert(t0 + row_bytes(p, n - 1, 0, 0) == rows_bytes(p, n));
    }
}

proof fn lemma_row_text(p: Position, row: int, col: int, empty: nat)
    requires
        0 <= col <= 8,
        empty <= col,
    ensures
        forall|i: int| 0 <= i < row_bytes(p, row, col, empty).len() ==> !is_space(#[trigger] row_bytes(p, row, col, empty)[i]),
        (col < 8 || empty > 0) ==> row_bytes(p, row, col, empty).len() > 0,
    decreases 8 - col,
{
    if col < 8 {
        if p.piece_at(row * 8 + col) == PieceType::NoPiece {
            lemma_row_text(p, row, col + 1, empty + 1);
        } else {
            lemma_row_text(p, row, col + 1, 0);
            let d = if empty > 0 {
                seq![('0' as u8 + empty) as u8]
            } else {
                Seq::<u8>::empty()
            };
            let x = d + seq![p.piece_at(row * 8 + col).fen_byte()];
            assert forall|i: int| 0 <= i < x.len() implies !is_space(#[trigger] x[i]) by {}
            assert(x + row_bytes(p, row, col + 1, 0) == row_bytes(p, row, col, empty));
        }
    }
}

proof fn lemma_rows_text(p: Position, n: nat)
    requires
        1 <= n <= 8,
    ensures
        forall|i: int| 0 <= i < rows_bytes(p, n).len() ==> !is_space(#[trigger] rows_bytes(p, n)[i]),
        rows_bytes(p, n).len() > 0,
    decreases n,
{
    lemma_row_text(p, n - 1, 0, 0);
    if n > 1 {
        lemma_rows_text(p, (n - 1) as nat);
    }
}

/// A run of bytes without white space that ends at white space or at the
/// end is one word.
proof fn lemma_word_end_run(s: Seq<u8>, i: int, j: int)
    requires
        0 <= i <= j <= s.len(),
        forall|k: int| i <= k < j ==> !is_space(#[trigger] s[k]),
        j == s.len() || is_space(s[j]),
    ensures
        word_end(s, i) == j,
    decreases j - i,
{
    if i < j {
        lemma_word_end_run(s, i + 1, j);
    }
}

proof fn lemma_castling_read_bits(c: u8)
    by (bit_vector)
    requires
        c < 16,
    ensures
        c & 15u8 == 0u8 ==> c == 0u8,
        (((0u8 | (if c & 1u8 != 0u8 { 1u8 } else { 0u8 })) | (if c & 2u8 != 0u8 { 2u8 } else { 0u8 })) | (if c & 4u8
            != 0u8 { 4u8 } else { 0u8 })) | (if c & 8u8 != 0u8 { 8u8 } else { 0u8 }) == c,
        c & 15u8 != 0u8 ==> (c & 1u8 != 0u8 || c & 2u8 != 0u8 || c & 4u8 != 0u8 || c & 8u8 != 0u8),
        0u8 | 0u8 == 0u8,
{
}

proof fn lemma_or_zero(x: u8)
    by (bit_vector)
    ensures
        x | 0u8 == x,
{
}

proof fn lemma_castling_prefix(t: Seq<u8>, u: Seq<u8>, n: nat)
    requires
        n <= t.len(),
    ensures
        castling_bits(t + u, n) == castling_bits(t, n),
    decreases n,
{
    if n > 0 {
        lemma_castling_prefix(t, u, (n - 1) as nat);
        assert((t + u)[n - 1] == t[n - 1]);
    }
}

/// Reading an optional letter of the castling field after `t`.
proof fn lemma_castling_add(t: Seq<u8>, present: bool, letter: u8, bit: u8, v: u8)
    requires
        castling_bits(t, t.len()) == Ok::<u8, &'static str>(v),
        (letter == 'K' as u8 && bit == 1) || (letter == 'Q' as u8 && bit == 2) || (letter == 'k' as u8 && bit == 4) || (
        letter == 'q' as u8 && bit == 8),
    ensures
        ({
            let u = t + (if present { seq![letter] } else { Seq::<u8>::empty() });
            castling_bits(u, u.len()) == Ok::<u8, &'static str>(if present { v | bit } else { v })
        }),
{
    if present {
        lemma_castling_prefix(t, seq![letter], t.len());
        assert((t + seq![letter])[t.len() as int] == letter);
    } else {
        assert(t + Seq::<u8>::empty() == t);
    }
}

/// The castling field is read back as the rights it was written from.
proof fn lemma_castling_read(c: CastlingRights)
    requires
        c.0 < 16,
    ensures
        castling_bits(castling_field(c), castling_field(c).len()) == Ok::<u8, &'static str>(c.0),
        castling_field(c).len() > 0,
        forall|i: int| 0 <= i < castling_field(c).len() ==> !is_space(#[trigger] castling_field(c)[i]),
{
    lemma_castling_read_bits(c.0);
    if c.0 & 15 == 0 {
        assert(castling_bits(seq!['-' as u8], 0) == Ok::<u8, &'static str>(0));
        assert(castling_bits(seq!['-' as u8], 1) == Ok::<u8, &'static str>(0));
    } else {
        let e = Seq::<u8>::empty();
        lemma_castling_add(e, c.has_wk(), 'K' as u8, 1, 0);
        let t1 = e + (if c.has_wk() { seq!['K' as u8] } else { Seq::<u8>::empty() });
        let v1: u8 = if c.has_wk() { 0u8 | 1u8 } else { 0u8 };
        lemma_castling_add(t1, c.has_wq(), 'Q' as u8, 2, v1);
        let t2 = t1 + (if c.has_wq() { seq!['Q' as u8] } else { Seq::<u8>::empty() });
        let v2: u8 = if c.has_wq() { v1 | 2u8 } else { v1 };
        lemma_castling_add(t2, c.has_bk(), 'k' as u8, 4, v2);
        let t3 = t2 + (if c.has_bk() { seq!['k' as u8] } else { Seq::<u8>::empty() });
        let v3: u8 = if c.has_bk() { v2 | 4u8 } else { v2 };
        lemma_castling_add(t3, c.has_bq(), 'q' as u8, 8, v3);
        let t4 = t3 + (if c.has_bq() { seq!['q' as u8] } else { Seq::<u8>::empty() });
        lemma_or_zero(0);
        lemma_or_zero(v1);
        lemma_or_zero(v2);
        lemma_or_zero(v3);
        assert(t4 == castling_field(c));
        assert(t4.len() > 0);
        assert forall|i: int| 0 <= i < t4.len() implies !is_space(#[trigger] t4[i]) by {}
    }
}

/// Text without white space.
pub open spec fn no_space(w: Seq<u8>) -> bool {
    forall|i: int| 0 <= i < w.len() ==> !is_space(#[trigger] w[i])
}

/// Four words separated by single spaces are read back as those words.
proof fn lemma_four_words(s: Seq<u8>, w0: Seq<u8>, w1: Seq<u8>, w2: Seq<u8>, w3: Seq<u8>)
    requires
        s == w0 + seq![' ' as u8] + w1 + seq![' ' as u8] + w2 + seq![' ' as u8] + w3,
        w0.len() > 0 && w1.len() > 0 && w2.len() > 0 && w3.len() > 0,
        no_space(w0) && no_space(w1) && no_space(w2) && no_space(w3),
    ensures
        has_word(s, 0) && has_word(s, 1) && has_word(s, 2) && has_word(s, 3),
        word(s, 0) == w0 && word(s, 1) == w1 && word(s, 2) == w2 && word(s, 3) == w3,
{
    let a = w0.len() as int;
    let b = a + 1 + w1.len();
    let c = b + 1 + w2.len();
    assert(s.len() == c + 1 + w3.len());
    assert forall|k: int| 0 <= k < a implies !is_space(#[trigger] s[k]) by {
        assert(s[k] == w0[k]);
    }
    assert forall|k: int| a + 1 <= k < b implies !is_space(#[trigger] s[k]) by {
        assert(s[k] == w1[k - a - 1]);
    }
    assert forall|k: int| b + 1 <= k < c implies !is_space(#[trigger] s[k]) by {
        assert(s[k] == w2[k - b - 1]);
    }
    assert forall|k: int| c + 1 <= k < s.len() implies !is_space(#[trigger] s[k]) by {
        assert(s[k] == w3[k - c - 1]);
    }
    assert(s[a] == ' ' as u8 && s[b] == ' ' as u8 && s[c] == ' ' as u8);
    assert(!is_space(s[0]) && !is_space(s[a + 1]) && !is_space(s[b + 1]) && !is_space(s[c + 1]));
    lemma_word_end_run(s, 0, a);
    lemma_word_end_run(s, a + 1, b);
    lemma_word_end_run(s, b + 1, c);
    lemma_word_end_run(s, c + 1, s.len() as int);
    assert(word_start(s, 0) == 0);
    assert(skip_spaces(s, a + 1) == a + 1);
    assert(word_start(s, 1) == a + 1);
    assert(skip_spaces(s, b + 1) == b + 1);
    assert(word_start(s, 2) == b + 1);
    assert(skip_spaces(s, c + 1) == c + 1);
    assert(word_start(s, 3) == c + 1);
    assert(word(s, 0) =~= w0);
    assert(word(s, 1) =~= w1);
    assert(word(s, 2) =~= w2);
    assert(word(s, 3) =~= w3);
}

/// The en-passant field of a position.
pub open spec fn en_passant_field(ep: Option<Square>) -> Seq<u8> {
    match ep {
        Some(sq) => sq.name_bytes(),
        None => seq!['-' as u8],
    }
}

/// The side field of a position.
pub open spec fn side_field(side: Color) -> Seq<u8> {
    if side == Color::White {
        seq!['w' as u8]
    } else {
        seq!['b' as u8]
    }
}

/// The FEN text of a consistent position has its four fields as words and
/// each reads without failure.
pub proof fn lemma_fen_readable(p: Position)
    requires
        p.wf(),
    ensures
        fen_failure(fen_bytes(p)) is None,
        word(fen_bytes(p), 0) == rows_bytes(p, 8),
        word(fen_bytes(p), 1) == side_field(p.side),
        word(fen_bytes(p), 2) == castling_field(p.castling_rights),
        word(fen_bytes(p), 3) == en_passant_field(p.en_passant_option),
{
    let s = fen_bytes(p);
    lemma_rows_text(p, 8);
    lemma_castling_read(p.castling_rights);
    lemma_rows_read(p, 8);
    let ep = en_passant_field(p.en_passant_option);
    if let Some(sq) = p.en_passant_option {
        assert(sq.name_bytes()[0] >= 'a' as u8 && sq.name_bytes()[1] >= '1' as u8);
        crate::square::law_square_name_round_trip(sq);
    }
    assert(no_space(ep));
    assert(no_space(side_field(p.side)));
    assert(s == rows_bytes(p, 8) + seq![' ' as u8] + side_field(p.side) + seq![' ' as u8] + castling_field(
        p.castling_rights,
    ) + seq![' ' as u8] + ep);
    lemma_four_words(s, rows_bytes(p, 8), side_field(p.side), castling_field(p.castling_rights), ep);
}

/// Reading the FEN text of a consistent position succeeds and gives back
/// the position: the same piece on every square, the same side to move,
/// castling rights and en-passant square.
pub proof fn law_fen_round_trip(p: Position, keys: &'static ZobristKeys, q: Position)
    requires
        p.wf(),
        fen_position(fen_bytes(p), keys, q),
    ensures
        fen_failure(fen_bytes(p)) is None,
        forall|sq: int| #[trigger] q.piece_at(sq) == p.piece_at(sq),
        q.side == p.side,
        q.castling_rights == p.castling_rights,
        q.en_passant_option == p.en_passant_option,
{
    lemma_fen_readable(p);
    let s = fen_bytes(p);
    lemma_rows_read(p, 8);
    assert forall|sq: int| #[trigger] q.piece_at(sq) == p.piece_at(sq) by {
        assert(q.piece_at(sq) == placed(word(s, 0), word(s, 0).len(), sq));
        if sq >= 64 {
            assert(!bit(p.bbs@[0].0, sq));
        }
    }
    lemma_castling_read(p.castling_rights);
    if let Some(sq) = p.en_passant_option {
        crate::square::law_square_name_round_trip(sq);
    }
    if p.side == Color::Black {
        assert(seq!['b' as u8][0] != seq!['w' as u8][0]);
        assert(side_field(p.side) != seq!['w' as u8]);
    }
}

/// The FEN text that `from_position` writes for a consistent position
/// reads back: reading it succeeds and gives the same piece on every
/// square, the same side to move, castling rights and en-passant square.
pub proof fn law_fen_string_round_trip(p: Position, f: FenString, keys: &'static ZobristKeys, q: Position)
    requires
        p.wf(),
        f.0@ == crate::text::ascii_chars(fen_bytes(p)),
        fen_position(f.bytes(), keys, q),
    ensures
        fen_failure(f.bytes()) is None,
        forall|sq: int| #[trigger] q.piece_at(sq) == p.piece_at(sq),
        q.side == p.side,
        q.castling_rights == p.castling_rights,
        q.en_passant_option == p.en_passant_option,
{
    lemma_fen_ascii(p);
    crate::text::lemma_ascii_encoding(fen_bytes(p));
    law_fen_round_trip(p, keys, q);
}

/// Appends the placement text of one row.
fn push_row(bytes: &mut Vec<u8>, position: &Position, row: u8)
    requires
        row < 8,
        position.board_ok(),
    ensures
        final(bytes)@ == old(bytes)@ + row_bytes(*position, row as int, 0, 0),
{
    let ghost start = old(bytes)@;
    let mut empty: u8 = 0;
    let mut col: u8 = 0;
    while col < 8
        invariant
            row < 8,
            col <= 8,
            empty <= col,
            start + row_bytes(*position, row as int, 0, 0) == bytes@ + row_bytes(*position, row as int, col as int, empty as nat),
        decreases 8 - col,
    {
        let piece = position.piece_on_square(Square(row * 8 + col));
        if piece == PieceType::NoPiece {
            empty = empty + 1;
        } else {
            let ghost before = bytes@;
            let ghost rest = row_bytes(*position, row as int, col + 1, 0);
            if empty > 0 {
                bytes.push(48u8 + empty);
            }
            bytes.push(piece.to_fen_byte());
            proof {
                assert(before + row_bytes(*position, row as int, col as int, empty as nat) =~= bytes@ + rest);
            }
            empty = 0;
        }
        col = col + 1;
    }
    let ghost before = bytes@;
    if empty > 0 {
        bytes.push(48u8 + empty);
    }
    proof {
        assert(before + row_bytes(*position, row as int, 8, empty as nat) =~= bytes@);
    }
}

/// Appends the castling field.
fn push_castling(bytes: &mut Vec<u8>, c: CastlingRights)
    ensures
        final(bytes)@ == old(bytes)@ + castling_field(c),
{
    let ghost start = old(bytes)@;
    if c.0 & 15 == 0 {
        bytes.push(45u8);
    } else {
        if c.wk() {
            bytes.push(75u8);
        }
        if c.wq() {
            bytes.push(81u8);
        }
        if c.bk() {
            bytes.push(107u8);
        }
        if c.bq() {
            bytes.push(113u8);
        }
    }
    proof {
        assert(bytes@ =~= start + castling_field(c));
    }
}

impl FenString {
    /// The FEN text of a position: placement, side, castling rights and
    /// en-passant square.
    pub fn from_position(position: &Position) -> (r: FenString)
        requires
            position.wf(),
        ensures
            r.0@ == crate::text::ascii_chars(fen_bytes(*position)),
    {
        let mut bytes: Vec<u8> = Vec::new();
        let mut row: u8 = 0;
        while row < 8
            invariant
                row <= 8,
                position.wf(),
                bytes@ == rows_bytes(*position, row as nat),
            decreases 8 - row,
        {
            let ghost before = bytes@;
            if row > 0 {
                bytes.push(47u8);
            }
            push_row(&mut bytes, position, row);
            proof {
                if row == 0 {
                    assert(bytes@ =~= rows_bytes(*position, 1));
                } else {
                    assert(bytes@ =~= rows_bytes(*position, (row + 1) as nat));
                }
            }
            row = row + 1;
        }
        let ghost placement = bytes@;
        bytes.push(32u8);
        match position.side {
            Color::White => bytes.push(119u8),
            Color::Black => bytes.push(98u8),
        }
        bytes.push(32u8);
        let ghost head = bytes@;
        push_castling(&mut bytes, position.castling_rights);
        let ghost mid = bytes@;
        bytes.push(32u8);
        match position.en_passant_option {
            Some(sq) => sq.push_name(&mut bytes),
            None => bytes.push(45u8),
        }
        proof {
            assert(bytes@ =~= fen_bytes(*position));
            lemma_fen_ascii(*position);
        }
        FenString(crate::text::ascii_string(bytes))
    }
}

} // verus!
