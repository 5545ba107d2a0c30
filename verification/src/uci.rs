//! The text side of the Universal Chess Interface: reading moves in UCI
//! notation and the commands that set up a position.
use vstd::prelude::*;
use vstd::string::StringSliceAdditionalSpecFns;
use crate::bit_move::BitMove;
use crate::fen::{FenParseError, has_word, word, fen_failure, fen_position, parse_bytes_with_keys, skip_spaces, word_end, skip_spaces_exec, word_end_exec, lemma_skip_spaces, lemma_word_end};
use crate::position::start_piece;
use crate::zobrist::ZobristKeys;
use crate::color::Color;
use crate::move_flag::MoveFlag;
use crate::move_generation::{Legal, MoveGeneration, pseudo_legal};
use crate::position::Position;
use crate::square::{Square, SquareParseError, square_name_failure, square_of_name};
use crate::text::{ascii_chars, ascii_string};

verus! {

/// Why a move in UCI notation could not be read.
#[derive(Debug)]
pub enum MoveStringParseError {
    LengthParseError,
    PromotionPieceParseError(String),
    IllegalMove(String),
    SquareParseError(SquareParseError),
}

/// Why a UCI command could not be carried out.
#[derive(Debug)]
pub enum UciParseError {
    KeywordParseError,
    ParamParseError(&'static str),
    ParamValueParseError(&'static str),
    OptionParseError,
    MoveStringParseError(MoveStringParseError),
    FenParseError(FenParseError),
}

/// A legal move of the side to move in `pos`.
pub open spec fn is_legal_move(pos: Position, bm: BitMove) -> bool {
    &&& bm.encoded()
    &&& pseudo_legal(pos, bm@)
    &&& !pos.play(bm@).spec_in_check(pos.side)
}

/// The promotion that a letter of UCI notation names.
pub open spec fn promotion_of(b: u8) -> Option<MoveFlag> {
    if b == 'q' as u8 {
        Some(MoveFlag::PromoQ)
    } else if b == 'r' as u8 {
        Some(MoveFlag::PromoR)
    } else if b == 'b' as u8 {
        Some(MoveFlag::PromoB)
    } else if b == 'n' as u8 {
        Some(MoveFlag::PromoN)
    } else {
        None
    }
}

/// `m` goes from the square named by the first two bytes to the square
/// named by the next two.
pub open spec fn goes_as_named(b: Seq<u8>, m: BitMove) -> bool {
    &&& m@.source == square_of_name(b[0], b[1])
    &&& m@.target == square_of_name(b[2], b[3])
}

/// A legal move of `pos` that the text `b` names: the squares match, and
/// so does the promotion when a fifth letter names one.
pub open spec fn names_move(pos: Position, b: Seq<u8>, m: BitMove) -> bool {
    &&& is_legal_move(pos, m)
    &&& goes_as_named(b, m)
    &&& (b.len() == 5 ==> promotion_of(b[4]) is Some && m@.flag == promotion_of(b[4]))
}


/// Playing the legal move that a UCI text names takes the piece standing on
/// the first square the text names to the second one (as the piece it
/// promotes to, for a promotion), and leaves the first square empty.
pub proof fn law_named_move_lands(pos: Position, b: Seq<u8>, m: BitMove)
    requires
        names_move(pos, b, m),
    ensures
        m@.piece == pos.piece_at(square_of_name(b[0], b[1])),
        m@.piece != crate::piece::PieceType::NoPiece,
        pos.after(m@, square_of_name(b[2], b[3])) == pos.moved_piece(m@),
        m@.flag is None ==> pos.after(m@, square_of_name(b[2], b[3])) == pos.piece_at(square_of_name(b[0], b[1])),
        square_of_name(b[0], b[1]) != square_of_name(b[2], b[3]) ==> pos.after(m@, square_of_name(b[0], b[1]))
            == crate::piece::PieceType::NoPiece,
{
}

/// Whether `pat` occurs in `s` at `i`.
pub open spec fn occurs_at(s: Seq<u8>, pat: Seq<u8>, i: int) -> bool {
    0 <= i && i + pat.len() <= s.len() && s.subrange(i, i + pat.len()) == pat
}

/// The first place from `i` on where `pat` occurs in `s`.
pub open spec fn find_from(s: Seq<u8>, pat: Seq<u8>, i: int) -> Option<int>
    decreases s.len() + 1 - i,
{
    if i < 0 || i + pat.len() > s.len() {
        None
    } else if occurs_at(s, pat, i) {
        Some(i)
    } else {
        find_from(s, pat, i + 1)
    }
}

/// The first place where `pat` occurs in `s`.
pub open spec fn find(s: Seq<u8>, pat: Seq<u8>) -> Option<int> {
    find_from(s, pat, 0)
}

/// Where the position of a `position` command comes from.
pub enum PositionSource {
    /// The FEN text between `fen` and `moves` (or the end of the line).
    Fen(Seq<u8>),
    StartPos,
    Named(&'static str),
    Missing,
}

/// The source that a `position` command names: a FEN text, the starting
/// position, one of the named test positions (`tricky2` before `tricky`),
/// or none.
pub open spec fn position_source(line: Seq<u8>) -> PositionSource {
    let moves = find(line, seq!['m' as u8, 'o' as u8, 'v' as u8, 'e' as u8, 's' as u8]);
    match find(line, seq!['f' as u8, 'e' as u8, 'n' as u8]) {
        Some(f) => PositionSource::Fen(
            match moves {
                Some(m) => line.subrange(f + 3, m),
                None => line.subrange(f + 3, line.len() as int),
            },
        ),
        None => if find(line, seq!['s' as u8, 't' as u8, 'a' as u8, 'r' as u8, 't' as u8, 'p' as u8, 'o' as u8, 's' as u8]) is Some {
            PositionSource::StartPos
        } else if find(line, seq!['k' as u8, 'i' as u8, 'w' as u8, 'i' as u8, 'p' as u8, 'e' as u8, 't' as u8, 'e' as u8]) is Some {
            PositionSource::Named(crate::fen::KIWIPETE_POSITION)
        } else if find(line, seq!['r' as u8, 'o' as u8, 'o' as u8, 'k' as u8]) is Some {
            PositionSource::Named(crate::fen::ROOK_POSITION)
        } else if find(line, seq!['t' as u8, 'r' as u8, 'i' as u8, 'c' as u8, 'k' as u8, 'y' as u8, '2' as u8]) is Some {
            PositionSource::Named(crate::fen::TRICKY_POSITION_2)
        } else if find(line, seq!['t' as u8, 'r' as u8, 'i' as u8, 'c' as u8, 'k' as u8, 'y' as u8]) is Some {
            PositionSource::Named(crate::fen::TRICKY_POSITION)
        } else {
            PositionSource::Missing
        },
    }
}


/// The words of `s` from index `i` on.
pub open spec fn words_from(s: Seq<u8>, i: int) -> Seq<Seq<u8>>
    decreases s.len() - i,
{
    let a = skip_spaces(s, i);
    let e = word_end(s, a);
    if i < 0 || a >= s.len() || e <= i || e > s.len() {
        Seq::empty()
    } else {
        seq![s.subrange(a, e)] + words_from(s, e)
    }
}

/// The moves listed after `moves` in a `position` command.
pub open spec fn listed_moves(line: Seq<u8>) -> Seq<Seq<u8>> {
    match find(line, seq!['m' as u8, 'o' as u8, 'v' as u8, 'e' as u8, 's' as u8]) {
        Some(m) => words_from(line, m + 5),
        None => Seq::empty(),
    }
}

/// Each position of `ps` after the first is what playing, on the one
/// before, the legal move that the matching word names leads to.
pub open spec fn plays_words(ps: Seq<Position>, words: Seq<Seq<u8>>) -> bool {
    &&& ps.len() == words.len() + 1
    &&& forall|k: int| 0 <= k < words.len() ==> #[trigger] word_played(ps[k], words[k], ps[k + 1])
}

/// `q` is what playing, on `p`, the legal move that the word names leads to.
pub open spec fn word_played(p: Position, word: Seq<u8>, q: Position) -> bool {
    exists|mv: BitMove| #[trigger] reads_as_move(p, word, mv) && p.is_successor(mv@, q)
}

/// The FEN text of a `position` command ends before `moves`: when both
/// words occur, `moves` does not come before the end of `fen`.
pub open spec fn position_line_ok(line: Seq<u8>) -> bool {
    match (find(line, seq!['f' as u8, 'e' as u8, 'n' as u8]), find(line, seq!['m' as u8, 'o' as u8, 'v' as u8, 'e' as u8, 's' as u8])) {
        (Some(f), Some(m)) => f + 3 <= m,
        _ => true,
    }
}

/// Why the position that the source names cannot be read, if it cannot.
pub open spec fn source_failure(source: PositionSource) -> Option<&'static str> {
    match source {
        PositionSource::Fen(t) => fen_failure(t),
        PositionSource::Named(text) => fen_failure(text.spec_bytes()),
        _ => None,
    }
}

/// The position is the one that the source describes, with the given keys.
pub open spec fn is_source_position(source: PositionSource, keys: &'static ZobristKeys, p: Position) -> bool {
    match source {
        PositionSource::Fen(t) => fen_position(t, keys, p),
        PositionSource::StartPos => {
            &&& p.wf()
            &&& forall|sq: int| 0 <= sq < 64 ==> #[trigger] p.piece_at(sq) == start_piece(sq)
            &&& p.side == Color::White
            &&& p.en_passant_option is None
            &&& p.castling_rights.0 == crate::castling_rights::DEFAULT
            &&& p.ply == 0
            &&& p.zobrist_keys == keys
            &&& p.zobrist_key.0 == p.full_hash()
        },
        PositionSource::Named(text) => fen_position(text.spec_bytes(), keys, p),
        PositionSource::Missing => false,
    }
}

proof fn lemma_find_from(s: Seq<u8>, pat: Seq<u8>, j: int)
    ensures
        find_from(s, pat, j) matches Some(i) ==> occurs_at(s, pat, i) && j <= i,
    decreases s.len() + 1 - j,
{
    if !(j < 0 || j + pat.len() > s.len()) && !occurs_at(s, pat, j) {
        lemma_find_from(s, pat, j + 1);
    }
}

/// Finds the first place where `pat` occurs in `s`.
fn find_exec(s: &[u8], pat: &[u8]) -> (r: Option<usize>)
    requires
        pat@.len() > 0,
    ensures
        r matches Some(i) ==> find(s@, pat@) == Some(i as int) && i + pat@.len() <= s@.len(),
        r is None ==> find(s@, pat@) is None,
{
    let mut i: usize = 0;
    if pat.len() > s.len() {
        return None;
    }
    let n = s.len();
    let last = n - pat.len();
    proof {
        lemma_find_from(s@, pat@, 0);
    }
    while i <= last
        invariant
            n == s@.len(),
            pat@.len() > 0,
            last + pat@.len() == s@.len(),
            i <= last + 1,
            find(s@, pat@) == find_from(s@, pat@, i as int),
        decreases last + 1 - i,
    {
        let mut j: usize = 0;
        let mut same = true;
        while j < pat.len()
            invariant
                n == s@.len(),
                i <= last,
                pat@.len() > 0,
                last + pat@.len() == s@.len(),
                j <= pat@.len(),
                same == (forall|k: int| 0 <= k < j ==> s@[i + k] == pat@[k]),
            decreases pat@.len() - j,
        {
            if s[i + j] != pat[j] {
                same = false;
            }
            j = j + 1;
        }
        proof {
            if same {
                assert(s@.subrange(i as int, i + pat@.len()) =~= pat@);
            } else {
                if s@.subrange(i as int, i + pat@.len()) == pat@ {
                    assert forall|k: int| 0 <= k < pat@.len() implies s@[i + k] == pat@[k] by {
                        assert(s@.subrange(i as int, i + pat@.len())[k] == s@[i + k]);
                    }
                }
            }
        }
        if same {
            return Some(i);
        }
        i = i + 1;
    }
    None
}


/// Where the word `key` ends, for its first occurrence as a whole word in
/// `s` from `i` on.
pub open spec fn key_end_from(s: Seq<u8>, key: Seq<u8>, i: int) -> Option<int>
    decreases s.len() - i,
{
    let a = skip_spaces(s, i);
    let e = word_end(s, a);
    if i < 0 || a >= s.len() || e <= i || e > s.len() {
        None
    } else if s.subrange(a, e) == key {
        Some(e)
    } else {
        key_end_from(s, key, e)
    }
}

/// The value of a decimal numeral as Rust reads unsigned integers: an
/// optional `+` and at least one digit.
pub open spec fn digits_value(t: Seq<u8>) -> Option<nat>
    decreases t.len(),
{
    if t.len() == 0 {
        None
    } else if !('0' as u8 <= t.last() <= '9' as u8) {
        None
    } else if t.len() == 1 {
        Some((t.last() - '0' as u8) as nat)
    } else {
        match digits_value(t.drop_last()) {
            Some(v) => Some(v * 10 + (t.last() - '0' as u8) as nat),
            None => None,
        }
    }
}

/// The number that a word names, if it names one.
pub open spec fn numeral_value(t: Seq<u8>) -> Option<nat> {
    if t.len() > 0 && t[0] == '+' as u8 {
        digits_value(t.drop_first())
    } else {
        digits_value(t)
    }
}

/// The value given after the word `key`, at most `max`: `Ok(None)` when the
/// word is absent, `Err` when no number up to `max` follows it.
pub open spec fn param_value(s: Seq<u8>, key: Seq<u8>, max: nat) -> Result<Option<nat>, ()> {
    match key_end_from(s, key, 0) {
        None => Ok(None),
        Some(e) => {
            let a = skip_spaces(s, e);
            if a >= s.len() {
                Err(())
            } else {
                match numeral_value(s.subrange(a, word_end(s, a))) {
                    Some(v) => if v <= max {
                        Ok(Some(v))
                    } else {
                        Err(())
                    },
                    None => Err(()),
                }
            }
        },
    }
}

/// What a `go` command asks for.
pub struct GoCommand {
    pub depth: Option<u16>,
    pub perft_depth: Option<u16>,
    pub move_time: Option<u128>,
    pub total_time: Option<u128>,
    pub increment_time: Option<u128>,
}

/// The parameter value as the command holds it.
pub open spec fn u16_param(v: Option<u16>) -> Option<nat> {
    match v {
        Some(x) => Some(x as nat),
        None => None,
    }
}

/// The parameter value as the command holds it.
pub open spec fn u128_param(v: Option<u128>) -> Option<nat> {
    match v {
        Some(x) => Some(x as nat),
        None => None,
    }
}

proof fn lemma_key_end(s: Seq<u8>, key: Seq<u8>, i: int)
    requires
        0 <= i <= s.len(),
    ensures
        key_end_from(s, key, i) matches Some(e) ==> i < e <= s.len(),
    decreases s.len() - i,
{
    lemma_skip_spaces(s, i);
    let a = skip_spaces(s, i);
    lemma_word_end(s, a);
    let e = word_end(s, a);
    if !(i < 0 || a >= s.len() || e <= i || e > s.len()) && s.subrange(a, e) != key {
        lemma_key_end(s, key, e);
    }
}

proof fn lemma_digits_grow(t: Seq<u8>)
    requires
        t.len() > 1,
        digits_value(t) is Some,
    ensures
        digits_value(t.drop_last()) is Some,
        digits_value(t.drop_last())->0 <= digits_value(t)->0,
{
}

proof fn lemma_digits_prefix(t: Seq<u8>, n: int)
    requires
        1 <= n <= t.len(),
        digits_value(t) is Some,
    ensures
        digits_value(t.subrange(0, n)) is Some,
        digits_value(t.subrange(0, n))->0 <= digits_value(t)->0,
    decreases t.len() - n,
{
    if n < t.len() {
        lemma_digits_grow(t);
        assert(t.drop_last().subrange(0, n) == t.subrange(0, n));
        lemma_digits_prefix(t.drop_last(), n);
    } else {
        assert(t.subrange(0, n) == t);
    }
}

/// The number that the bytes `t[start..]` name as a run of digits, if it
/// is at most `max`.
fn digits_exec(t: &[u8], start: usize, max: u128) -> (r: Option<u128>)
    requires
        start <= t@.len(),
    ensures
        r matches Some(v) ==> digits_value(t@.subrange(start as int, t@.len() as int)) == Some(v as nat) && v <= max,
        r is None ==> match digits_value(t@.subrange(start as int, t@.len() as int)) {
            Some(v) => v > max,
            None => true,
        },
{
    let n = t.len();
    if start >= n {
        return None;
    }
    let ghost d = t@.subrange(start as int, t@.len() as int);
    let mut value: u128 = 0;
    let mut i: usize = start;
    while i < n
        invariant
            n == t@.len(),
            start < n,
            start <= i <= n,
            d == t@.subrange(start as int, t@.len() as int),
            i > start ==> digits_value(t@.subrange(start as int, i as int)) == Some(value as nat),
            i == start ==> value == 0,
            value <= max,
        decreases n - i,
    {
        let c = t[i];
        proof {
            assert(t@.subrange(start as int, i + 1).drop_last() == t@.subrange(start as int, i as int));
            assert(t@.subrange(start as int, i + 1).last() == c);
        }
        if c < 48 || c > 57 {
            proof {
                if digits_value(d) is Some {
                    lemma_digits_prefix(d, i + 1 - start);
                    assert(d.subrange(0, i + 1 - start) == t@.subrange(start as int, i + 1));
                }
            }
            return None;
        }
        let digit = (c - 48) as u128;
        if digit > max || value > (max - digit) / 10 {
            proof {
                if digit <= max {
                    assert(value * 10 + digit > max) by (nonlinear_arith)
                        requires
                            value > (max - digit) / 10,
                            digit <= max,
                    {
                    }
                }
                if digits_value(d) is Some {
                    lemma_digits_prefix(d, i + 1 - start);
                    assert(d.subrange(0, i + 1 - start) == t@.subrange(start as int, i + 1));
                }
            }
            return None;
        }
        proof {
            assert(value * 10 + digit <= max) by (nonlinear_arith)
                requires
                    value <= (max - digit) / 10,
                    digit <= max,
            {
            }
        }
        value = value * 10 + digit;
        i = i + 1;
    }
    proof {
        assert(t@.subrange(start as int, n as int) == d);
    }
    Some(value)
}

/// Finds where the word `key` ends, for its first occurrence as a whole word.
fn key_end_exec(s: &[u8], key: &[u8]) -> (r: Option<usize>)
    ensures
        r matches Some(e) ==> key_end_from(s@, key@, 0) == Some(e as int) && e <= s@.len(),
        r is None ==> key_end_from(s@, key@, 0) is None,
{
    let mut i: usize = 0;
    while i < s.len()
        invariant
            i <= s@.len(),
            key_end_from(s@, key@, 0) == key_end_from(s@, key@, i as int),
        decreases s@.len() - i,
    {
        proof {
            lemma_skip_spaces(s@, i as int);
        }
        let a = skip_spaces_exec(s, i);
        if a >= s.len() {
            return None;
        }
        proof {
            lemma_word_end(s@, a as int);
        }
        let e = word_end_exec(s, a);
        let mut same = e - a == key.len();
        let mut j: usize = 0;
        while same && j < key.len()
            invariant
                a <= e <= s@.len(),
                j <= key@.len(),
                same ==> e - a == key@.len(),
                same == (e - a == key@.len() && forall|k: int| 0 <= k < j ==> s@[a + k] == key@[k]),
            decreases key@.len() - j,
        {
            if s[a + j] != key[j] {
                same = false;
            }
            j = j + 1;
        }
        proof {
            if same {
                assert(s@.subrange(a as int, e as int) =~= key@);
            } else if s@.subrange(a as int, e as int) == key@ {
                assert forall|k: int| 0 <= k < key@.len() implies s@[a + k] == key@[k] by {
                    assert(s@.subrange(a as int, e as int)[k] == s@[a + k]);
                }
            }
        }
        if same {
            return Some(e);
        }
        i = e;
    }
    proof {
        lemma_skip_spaces(s@, i as int);
    }
    None
}

/// The UCI text of a legal move names that move: reading it back finds a
/// legal move from the same square to the same square with the same
/// promotion.
pub proof fn law_uci_round_trip(p: Position, m: BitMove)
    requires
        is_legal_move(p, m),
    ensures
        (m.uci_bytes().len() == 4 || m.uci_bytes().len() == 5),
        square_name_failure(m.uci_bytes().subrange(0, 2)) is None,
        square_name_failure(m.uci_bytes().subrange(2, 4)) is None,
        names_move(p, m.uci_bytes(), m),
        forall|x: BitMove| #[trigger] names_move(p, m.uci_bytes(), x) ==> x@.source == m@.source && x@.target
            == m@.target && (x@.flag matches Some(f) && f.spec_is_promotion() ==> x@.flag == m@.flag) && (
        m@.flag matches Some(f) && f.spec_is_promotion() ==> x@.flag == m@.flag),
{
    let b = m.uci_bytes();
    let src = Square(m@.source as u8);
    let tgt = Square(m@.target as u8);
    crate::square::law_square_name_round_trip(src);
    crate::square::law_square_name_round_trip(tgt);
    assert(b.subrange(0, 2) =~= src.name_bytes());
    assert(b.subrange(2, 4) =~= tgt.name_bytes());
    assert(b[0] == src.name_bytes()[0] && b[1] == src.name_bytes()[1]);
    assert(b[2] == tgt.name_bytes()[0] && b[3] == tgt.name_bytes()[1]);
    if b.len() == 5 {
        assert(b[4] == BitMove::promotion_suffix(m@.flag)[0]);
    }
}

/// The text is a move in UCI notation that names the legal move `m` of `pos`:
/// four or five bytes, two square names, and the promotion letter if any.
pub open spec fn reads_as_move(pos: Position, b: Seq<u8>, m: BitMove) -> bool {
    &&& (b.len() == 4 || b.len() == 5)
    &&& square_name_failure(b.subrange(0, 2)) is None
    &&& square_name_failure(b.subrange(2, 4)) is None
    &&& names_move(pos, b, m)
}

/// The commands of the interface, by their first word.
#[derive(Clone, Copy, PartialEq, Eq, Structural, Debug)]
pub enum UciCommand {
    Uci,
    UciNewGame,
    IsReady,
    Position,
    Go,
    Eval,
    Display,
    BenchMedium,
    BenchLong,
    BenchShort,
    SetOption,
    /// A line without words.
    Empty,
}

/// The command that a first word names: `uci`, `ucinewgame`, `isready`,
/// `position`, `go`, `eval`, `display` or `d`, `bench` or `benchmedium`,
/// `benchlong`, `benchshort`, `setoption`.
pub open spec fn command_of(w: Seq<u8>) -> Option<UciCommand> {
    if w == seq!['u' as u8, 'c' as u8, 'i' as u8] {
        Some(UciCommand::Uci)
    } else if w == seq!['u' as u8, 'c' as u8, 'i' as u8, 'n' as u8, 'e' as u8, 'w' as u8, 'g' as u8, 'a' as u8, 'm' as u8, 'e' as u8] {
        Some(UciCommand::UciNewGame)
    } else if w == seq!['i' as u8, 's' as u8, 'r' as u8, 'e' as u8, 'a' as u8, 'd' as u8, 'y' as u8] {
        Some(UciCommand::IsReady)
    } else if w == seq!['p' as u8, 'o' as u8, 's' as u8, 'i' as u8, 't' as u8, 'i' as u8, 'o' as u8, 'n' as u8] {
        Some(UciCommand::Position)
    } else if w == seq!['g' as u8, 'o' as u8] {
        Some(UciCommand::Go)
    } else if w == seq!['e' as u8, 'v' as u8, 'a' as u8, 'l' as u8] {
        Some(UciCommand::Eval)
    } else if w == seq!['d' as u8, 'i' as u8, 's' as u8, 'p' as u8, 'l' as u8, 'a' as u8, 'y' as u8] || w == seq!['d' as u8] {
        Some(UciCommand::Display)
    } else if w == seq!['b' as u8, 'e' as u8, 'n' as u8, 'c' as u8, 'h' as u8] || w == seq!['b' as u8, 'e' as u8, 'n' as u8, 'c' as u8, 'h' as u8, 'm' as u8, 'e' as u8, 'd' as u8, 'i' as u8, 'u' as u8, 'm' as u8] {
        Some(UciCommand::BenchMedium)
    } else if w == seq!['b' as u8, 'e' as u8, 'n' as u8, 'c' as u8, 'h' as u8, 'l' as u8, 'o' as u8, 'n' as u8, 'g' as u8] {
        Some(UciCommand::BenchLong)
    } else if w == seq!['b' as u8, 'e' as u8, 'n' as u8, 'c' as u8, 'h' as u8, 's' as u8, 'h' as u8, 'o' as u8, 'r' as u8, 't' as u8] {
        Some(UciCommand::BenchShort)
    } else if w == seq!['s' as u8, 'e' as u8, 't' as u8, 'o' as u8, 'p' as u8, 't' as u8, 'i' as u8, 'o' as u8, 'n' as u8] {
        Some(UciCommand::SetOption)
    } else {
        None
    }
}

/// An option that a `setoption` command sets.
#[derive(Debug)]
pub enum SetOption {
    ClearHash,
    Threads(usize),
    SyzygyPath(String),
}

/// The last word of a text, if it has one.
pub open spec fn last_word(s: Seq<u8>) -> Option<Seq<u8>> {
    if words_from(s, 0).len() > 0 {
        Some(words_from(s, 0).last())
    } else {
        None
    }
}

/// Whether the bytes are equal.
fn bytes_equal(a: &[u8], b: &[u8]) -> (r: bool)
    ensures
        r == (a@ == b@),
{
    if a.len() != b.len() {
        return false;
    }
    let mut i: usize = 0;
    while i < a.len()
        invariant
            a@.len() == b@.len(),
            i <= a@.len(),
            forall|j: int| 0 <= j < i ==> a@[j] == b@[j],
        decreases a@.len() - i,
    {
        if a[i] != b[i] {
            return false;
        }
        i = i + 1;
    }
    proof {
        assert(a@ =~= b@);
    }
    true
}

/// Whether the text starts with the prefix.
fn starts_with(s: &[u8], prefix: &[u8]) -> (r: bool)
    ensures
        r == (prefix@.len() <= s@.len() && s@.subrange(0, prefix@.len() as int) == prefix@),
{
    if prefix.len() > s.len() {
        return false;
    }
    let head = vstd::slice::slice_subrange(s, 0, prefix.len());
    bytes_equal(head, prefix)
}

proof fn lemma_words_from_step(s: Seq<u8>, i: int)
    requires
        0 <= i <= s.len(),
        skip_spaces(s, i) < s.len(),
    ensures
        words_from(s, i) == seq![s.subrange(skip_spaces(s, i), word_end(s, skip_spaces(s, i)))] + words_from(
            s,
            word_end(s, skip_spaces(s, i)),
        ),
        i < word_end(s, skip_spaces(s, i)) <= s.len(),
{
    lemma_skip_spaces(s, i);
    lemma_word_end(s, skip_spaces(s, i));
}

/// Whether the word is the pattern.
fn word_is(w: &[u8], pattern: &[u8], Ghost(text): Ghost<Seq<u8>>) -> (r: bool)
    requires
        pattern@ =~= text,
    ensures
        r == (w@ == text),
{
    bytes_equal(w, pattern)
}

/// The command that a first word names.
fn command_of_word(w: &[u8]) -> (r: Option<UciCommand>)
    ensures
        r == command_of(w@),
{
    let ghost text0 = seq!['u' as u8, 'c' as u8, 'i' as u8];
    let is0 = word_is(w, &[117u8, 99u8, 105u8], Ghost(text0));
    let ghost text1 = seq!['u' as u8, 'c' as u8, 'i' as u8, 'n' as u8, 'e' as u8, 'w' as u8, 'g' as u8, 'a' as u8, 'm' as u8, 'e' as u8];
    let is1 = word_is(w, &[117u8, 99u8, 105u8, 110u8, 101u8, 119u8, 103u8, 97u8, 109u8, 101u8], Ghost(text1));
    let ghost text2 = seq!['i' as u8, 's' as u8, 'r' as u8, 'e' as u8, 'a' as u8, 'd' as u8, 'y' as u8];
    let is2 = word_is(w, &[105u8, 115u8, 114u8, 101u8, 97u8, 100u8, 121u8], Ghost(text2));
    let ghost text3 = seq!['p' as u8, 'o' as u8, 's' as u8, 'i' as u8, 't' as u8, 'i' as u8, 'o' as u8, 'n' as u8];
    let is3 = word_is(w, &[112u8, 111u8, 115u8, 105u8, 116u8, 105u8, 111u8, 110u8], Ghost(text3));
    let ghost text4 = seq!['g' as u8, 'o' as u8];
    let is4 = word_is(w, &[103u8, 111u8], Ghost(text4));
    let ghost text5 = seq!['e' as u8, 'v' as u8, 'a' as u8, 'l' as u8];
    let is5 = word_is(w, &[101u8, 118u8, 97u8, 108u8], Ghost(text5));
    let ghost text6 = seq!['d' as u8, 'i' as u8, 's' as u8, 'p' as u8, 'l' as u8, 'a' as u8, 'y' as u8];
    let is6 = word_is(w, &[100u8, 105u8, 115u8, 112u8, 108u8, 97u8, 121u8], Ghost(text6));
    let ghost text7 = seq!['d' as u8];
    let is7 = word_is(w, &[100u8], Ghost(text7));
    let ghost text8 = seq!['b' as u8, 'e' as u8, 'n' as u8, 'c' as u8, 'h' as u8];
    let is8 = word_is(w, &[98u8, 101u8, 110u8, 99u8, 104u8], Ghost(text8));
    let ghost text9 = seq!['b' as u8, 'e' as u8, 'n' as u8, 'c' as u8, 'h' as u8, 'm' as u8, 'e' as u8, 'd' as u8, 'i' as u8, 'u' as u8, 'm' as u8];
    let is9 = word_is(w, &[98u8, 101u8, 110u8, 99u8, 104u8, 109u8, 101u8, 100u8, 105u8, 117u8, 109u8], Ghost(text9));
    let ghost text10 = seq!['b' as u8, 'e' as u8, 'n' as u8, 'c' as u8, 'h' as u8, 'l' as u8, 'o' as u8, 'n' as u8, 'g' as u8];
    let is10 = word_is(w, &[98u8, 101u8, 110u8, 99u8, 104u8, 108u8, 111u8, 110u8, 103u8], Ghost(text10));
    let ghost text11 = seq!['b' as u8, 'e' as u8, 'n' as u8, 'c' as u8, 'h' as u8, 's' as u8, 'h' as u8, 'o' as u8, 'r' as u8, 't' as u8];
    let is11 = word_is(w, &[98u8, 101u8, 110u8, 99u8, 104u8, 115u8, 104u8, 111u8, 114u8, 116u8], Ghost(text11));
    let ghost text12 = seq!['s' as u8, 'e' as u8, 't' as u8, 'o' as u8, 'p' as u8, 't' as u8, 'i' as u8, 'o' as u8, 'n' as u8];
    let is12 = word_is(w, &[115u8, 101u8, 116u8, 111u8, 112u8, 116u8, 105u8, 111u8, 110u8], Ghost(text12));
    if is0 {
        Some(UciCommand::Uci)
    } else if is1 {
        Some(UciCommand::UciNewGame)
    } else if is2 {
        Some(UciCommand::IsReady)
    } else if is3 {
        Some(UciCommand::Position)
    } else if is4 {
        Some(UciCommand::Go)
    } else if is5 {
        Some(UciCommand::Eval)
    } else if is6 {
        Some(UciCommand::Display)
    } else if is7 {
        Some(UciCommand::Display)
    } else if is8 {
        Some(UciCommand::BenchMedium)
    } else if is9 {
        Some(UciCommand::BenchMedium)
    } else if is10 {
        Some(UciCommand::BenchLong)
    } else if is11 {
        Some(UciCommand::BenchShort)
    } else if is12 {
        Some(UciCommand::SetOption)
    } else {
        None
    }
}

/// The span of the last word of the text, if it has one.
fn last_word_exec(s: &[u8]) -> (r: Option<(usize, usize)>)
    ensures
        r is None ==> last_word(s@) is None,
        r matches Some((a, e)) ==> a <= e <= s@.len() && last_word(s@) == Some(s@.subrange(a as int, e as int)),
{
    let mut i: usize = 0;
    let mut last: Option<(usize, usize)> = None;
    let ghost mut done: Seq<Seq<u8>> = Seq::empty();
    while i < s.len()
        invariant
            i <= s@.len(),
            words_from(s@, 0) == done + words_from(s@, i as int),
            last is None <==> done.len() == 0,
            last matches Some((a, e)) ==> a <= e <= s@.len() && done.last() == s@.subrange(a as int, e as int),
        decreases s@.len() - i,
    {
        proof {
            lemma_skip_spaces(s@, i as int);
        }
        let a = skip_spaces_exec(s, i);
        if a == s.len() {
            proof {
                assert(words_from(s@, i as int) =~= Seq::<Seq<u8>>::empty());
                lemma_skip_spaces(s@, a as int);
                assert(words_from(s@, a as int) =~= Seq::<Seq<u8>>::empty());
            }
            i = a;
        } else {
            proof {
                lemma_words_from_step(s@, i as int);
            }
            let e = word_end_exec(s, a);
            proof {
                let w = s@.subrange(a as int, e as int);
                assert(done + words_from(s@, i as int) =~= done.push(w) + words_from(s@, e as int));
                done = done.push(w);
            }
            last = Some((a, e));
            i = e;
        }
    }
    proof {
        lemma_skip_spaces(s@, i as int);
        assert(words_from(s@, i as int) =~= Seq::<Seq<u8>>::empty());
        assert(done + Seq::<Seq<u8>>::empty() =~= done);
    }
    last
}

pub struct Uci;

impl Uci {
    /// Finds the legal move of the position that a text in UCI notation
    /// names, such as `e2e4` or `a7a8q`.
    pub fn parse_move_string(position: &Position, move_string: &str) -> (r: Result<BitMove, MoveStringParseError>)
        requires
            position.wf(),
            position.has_kings(),
        ensures
            ({
                let b = move_string.spec_bytes();
                let first = if b.len() >= 2 { square_name_failure(b.subrange(0, 2)) } else { None };
                let second = if b.len() >= 4 { square_name_failure(b.subrange(2, 4)) } else { None };
                let some_legal = exists|m: BitMove| #[trigger] is_legal_move(*position, m) && goes_as_named(b, m);
                if b.len() != 4 && b.len() != 5 {
                    (r matches Err(MoveStringParseError::LengthParseError))
                } else if first is Some {
                    (r matches Err(MoveStringParseError::SquareParseError(x)) && Some(x.0) == first)
                } else if second is Some {
                    (r matches Err(MoveStringParseError::SquareParseError(x)) && Some(x.0) == second)
                } else {
                    &&& (r matches Ok(m) ==> names_move(*position, b, m))
                    &&& (r is Ok <==> (exists|m: BitMove| #[trigger] names_move(*position, b, m)))
                    &&& (r matches Err(MoveStringParseError::PromotionPieceParseError(t)) ==> b.len() == 5
                        && promotion_of(b[4]) is None && b[4] < 128 && t@ == ascii_chars(seq![b[4]]))
                    &&& (r matches Err(MoveStringParseError::IllegalMove(t)) ==> t@ == move_string@)
                    &&& (r is Err ==> (r matches Err(MoveStringParseError::IllegalMove(_))) || (r matches Err(
                        MoveStringParseError::PromotionPieceParseError(_),
                    )))
                    &&& (b.len() == 5 && promotion_of(b[4]) is None && b[4] < 128 && some_legal ==> (r matches Err(
                        MoveStringParseError::PromotionPieceParseError(_),
                    )))
                    &&& (!some_legal ==> (r matches Err(MoveStringParseError::IllegalMove(_))))
                }
            }),
    {
        let r = Self::parse_move_bytes(position, move_string.as_bytes());
        proof {
            vstd::utf8::encode_utf8_valid_utf8(move_string@);
            vstd::utf8::encode_utf8_decode_utf8(move_string@);
        }
        r
    }

    /// The number given after the word `key`, at most `max`: `None` when
    /// the word is absent, the error `ParamValueParseError(name)` when no
    /// such number follows it.
    fn parse_parameter_value(s: &[u8], key: &[u8], max: u128, name: &'static str) -> (r: Result<Option<u128>, UciParseError>)
        ensures
            param_value(s@, key@, max as nat) is Ok <==> r is Ok,
            r matches Ok(v) ==> param_value(s@, key@, max as nat) == Ok::<Option<nat>, ()>(u128_param(v)),
            r matches Err(e) ==> (e matches UciParseError::ParamValueParseError(x) && x == name),
    {
        match key_end_exec(s, key) {
            None => Ok(None),
            Some(e) => {
                proof {
                    lemma_skip_spaces(s@, e as int);
                }
                let a = skip_spaces_exec(s, e);
                if a >= s.len() {
                    return Err(UciParseError::ParamValueParseError(name));
                }
                proof {
                    lemma_word_end(s@, a as int);
                }
                let end = word_end_exec(s, a);
                let word = vstd::slice::slice_subrange(s, a, end);
                let start: usize = if word.len() > 0 && word[0] == 43u8 { 1 } else { 0 };
                proof {
                    if start == 1 {
                        assert(word@.subrange(1, word@.len() as int) == word@.drop_first());
                    } else {
                        assert(word@.subrange(0, word@.len() as int) == word@);
                    }
                }
                match digits_exec(word, start, max) {
                    Some(v) => Ok(Some(v)),
                    None => Err(UciParseError::ParamValueParseError(name)),
                }
            },
        }
    }

    /// Reads the parameters of a `go` command: `depth`, `perft`,
    /// `movetime`, and the time and increment of the side to move (`wtime`
    /// and `winc` for white, `btime` and `binc` for black). The first
    /// parameter whose value is missing or out of range gives the error.
    pub fn parse_go(side: Color, line: &str) -> (r: Result<GoCommand, UciParseError>)
        ensures
            ({
                let s = line.spec_bytes();
                let depth = param_value(s, seq!['d' as u8, 'e' as u8, 'p' as u8, 't' as u8, 'h' as u8], u16::MAX as nat);
                let perft = param_value(s, seq!['p' as u8, 'e' as u8, 'r' as u8, 'f' as u8, 't' as u8], u16::MAX as nat);
                let move_time = param_value(s, seq!['m' as u8, 'o' as u8, 'v' as u8, 'e' as u8, 't' as u8, 'i' as u8, 'm' as u8, 'e' as u8], u128::MAX as nat);
                let total = param_value(s, if side == Color::White {
                    seq!['w' as u8, 't' as u8, 'i' as u8, 'm' as u8, 'e' as u8]
                } else {
                    seq!['b' as u8, 't' as u8, 'i' as u8, 'm' as u8, 'e' as u8]
                }, u128::MAX as nat);
                let increment = param_value(s, if side == Color::White {
                    seq!['w' as u8, 'i' as u8, 'n' as u8, 'c' as u8]
                } else {
                    seq!['b' as u8, 'i' as u8, 'n' as u8, 'c' as u8]
                }, u128::MAX as nat);
                &&& depth is Err ==> (r matches Err(UciParseError::ParamValueParseError(x)) && x == "depth")
                &&& depth is Ok && perft is Err ==> (r matches Err(UciParseError::ParamValueParseError(x)) && x == "perft depth")
                &&& depth is Ok && perft is Ok && move_time is Err ==> (r matches Err(UciParseError::ParamValueParseError(x)) && x == "movetime")
                &&& depth is Ok && perft is Ok && move_time is Ok && total is Err ==> (r matches Err(UciParseError::ParamValueParseError(x)) && x == "wtime/btime")
                &&& depth is Ok && perft is Ok && move_time is Ok && total is Ok && increment is Err ==> (r matches Err(UciParseError::ParamValueParseError(x)) && x == "winc/binc")
                &&& r is Ok <==> (depth is Ok && perft is Ok && move_time is Ok && total is Ok && increment is Ok)
                &&& r matches Ok(g) ==> {
                    &&& depth == Ok::<Option<nat>, ()>(u16_param(g.depth))
                    &&& perft == Ok::<Option<nat>, ()>(u16_param(g.perft_depth))
                    &&& move_time == Ok::<Option<nat>, ()>(u128_param(g.move_time))
                    &&& total == Ok::<Option<nat>, ()>(u128_param(g.total_time))
                    &&& increment == Ok::<Option<nat>, ()>(u128_param(g.increment_time))
                }
            }),
    {
        let s = line.as_bytes();
        let depth_key: Vec<u8> = vec![100u8, 101u8, 112u8, 116u8, 104u8];
        let perft_key: Vec<u8> = vec![112u8, 101u8, 114u8, 102u8, 116u8];
        let move_time_key: Vec<u8> = vec![109u8, 111u8, 118u8, 101u8, 116u8, 105u8, 109u8, 101u8];
        let total_key: Vec<u8> = match side {
            Color::White => vec![119u8, 116u8, 105u8, 109u8, 101u8],
            Color::Black => vec![98u8, 116u8, 105u8, 109u8, 101u8],
        };
        let increment_key: Vec<u8> = match side {
            Color::White => vec![119u8, 105u8, 110u8, 99u8],
            Color::Black => vec![98u8, 105u8, 110u8, 99u8],
        };
        proof {
            assert(depth_key@ =~= seq!['d' as u8, 'e' as u8, 'p' as u8, 't' as u8, 'h' as u8]);
            assert(perft_key@ =~= seq!['p' as u8, 'e' as u8, 'r' as u8, 'f' as u8, 't' as u8]);
            assert(move_time_key@ =~= seq!['m' as u8, 'o' as u8, 'v' as u8, 'e' as u8, 't' as u8, 'i' as u8, 'm' as u8, 'e' as u8]);
            assert(total_key@ =~= if side == Color::White {
                seq!['w' as u8, 't' as u8, 'i' as u8, 'm' as u8, 'e' as u8]
            } else {
                seq!['b' as u8, 't' as u8, 'i' as u8, 'm' as u8, 'e' as u8]
            });
            assert(increment_key@ =~= if side == Color::White {
                seq!['w' as u8, 'i' as u8, 'n' as u8, 'c' as u8]
            } else {
                seq!['b' as u8, 'i' as u8, 'n' as u8, 'c' as u8]
            });
        }
        let depth = match Self::parse_parameter_value(s, depth_key.as_slice(), 65535, "depth") {
            Ok(v) => v,
            Err(e) => {
                return Err(e);
            },
        };
        let perft_depth = match Self::parse_parameter_value(s, perft_key.as_slice(), 65535, "perft depth") {
            Ok(v) => v,
            Err(e) => {
                return Err(e);
            },
        };
        let move_time = match Self::parse_parameter_value(s, move_time_key.as_slice(), u128::MAX, "movetime") {
            Ok(v) => v,
            Err(e) => {
                return Err(e);
            },
        };
        let total_time = match Self::parse_parameter_value(s, total_key.as_slice(), u128::MAX, "wtime/btime") {
            Ok(v) => v,
            Err(e) => {
                return Err(e);
            },
        };
        let increment_time = match Self::parse_parameter_value(s, increment_key.as_slice(), u128::MAX, "winc/binc") {
            Ok(v) => v,
            Err(e) => {
                return Err(e);
            },
        };
        let depth16: Option<u16> = match depth {
            Some(d) => Some(d as u16),
            None => None,
        };
        let perft16: Option<u16> = match perft_depth {
            Some(d) => Some(d as u16),
            None => None,
        };
        Ok(GoCommand { depth: depth16, perft_depth: perft16, move_time, total_time, increment_time })
    }

    /// The command that a line of the interface names by its first word,
    /// `Empty` for a line without words.
    pub fn parse_command(line: &str) -> (r: Result<UciCommand, UciParseError>)
        ensures
            ({
                let b = line.spec_bytes();
                if !has_word(b, 0) {
                    r == Ok::<UciCommand, UciParseError>(UciCommand::Empty)
                } else {
                    match command_of(word(b, 0)) {
                        Some(c) => r == Ok::<UciCommand, UciParseError>(c),
                        None => (r matches Err(UciParseError::KeywordParseError)),
                    }
                }
            }),
    {
        let b = line.as_bytes();
        proof {
            lemma_skip_spaces(b@, 0);
        }
        let a = skip_spaces_exec(b, 0);
        if a == b.len() {
            return Ok(UciCommand::Empty);
        }
        proof {
            lemma_word_end(b@, a as int);
        }
        let e = word_end_exec(b, a);
        let w = vstd::slice::slice_subrange(b, a, e);
        proof {
            assert(w@ == word(b@, 0));
        }
        match command_of_word(w) {
            Some(c) => Ok(c),
            None => Err(UciParseError::KeywordParseError),
        }
    }

    /// Reads a `setoption` command: `setoption name Clear Hash`, or a line
    /// starting with `setoption name Threads value ` or
    /// `setoption name SyzygyPath value ` whose last word is the value.
    pub fn parse_setoption(line: &str) -> (r: Result<SetOption, UciParseError>)
        ensures
            ({
                let b = line.spec_bytes();
                let clear = seq!['s' as u8, 'e' as u8, 't' as u8, 'o' as u8, 'p' as u8, 't' as u8, 'i' as u8, 'o' as u8, 'n' as u8, ' ' as u8, 'n' as u8, 'a' as u8, 'm' as u8, 'e' as u8, ' ' as u8, 'C' as u8, 'l' as u8, 'e' as u8, 'a' as u8, 'r' as u8, ' ' as u8, 'H' as u8, 'a' as u8, 's' as u8, 'h' as u8];
                let threads = seq!['s' as u8, 'e' as u8, 't' as u8, 'o' as u8, 'p' as u8, 't' as u8, 'i' as u8, 'o' as u8, 'n' as u8, ' ' as u8, 'n' as u8, 'a' as u8, 'm' as u8, 'e' as u8, ' ' as u8, 'T' as u8, 'h' as u8, 'r' as u8, 'e' as u8, 'a' as u8, 'd' as u8, 's' as u8, ' ' as u8, 'v' as u8, 'a' as u8, 'l' as u8, 'u' as u8, 'e' as u8, ' ' as u8];
                let syzygy = seq!['s' as u8, 'e' as u8, 't' as u8, 'o' as u8, 'p' as u8, 't' as u8, 'i' as u8, 'o' as u8, 'n' as u8, ' ' as u8, 'n' as u8, 'a' as u8, 'm' as u8, 'e' as u8, ' ' as u8, 'S' as u8, 'y' as u8, 'z' as u8, 'y' as u8, 'g' as u8, 'y' as u8, 'P' as u8, 'a' as u8, 't' as u8, 'h' as u8, ' ' as u8, 'v' as u8, 'a' as u8, 'l' as u8, 'u' as u8, 'e' as u8, ' ' as u8];
                let starts = |p: Seq<u8>| p.len() <= b.len() && b.subrange(0, p.len() as int) == p;
                if b == clear {
                    (r matches Ok(SetOption::ClearHash))
                } else if starts(threads) {
                    match last_word(b) {
                        Some(w) => match numeral_value(w) {
                            Some(v) => if v <= usize::MAX {
                                (r matches Ok(SetOption::Threads(n)) && n == v)
                            } else {
                                (r matches Err(UciParseError::ParamValueParseError(x)) && x == "Threads")
                            },
                            None => (r matches Err(UciParseError::ParamValueParseError(x)) && x == "Threads"),
                        },
                        None => (r matches Err(UciParseError::ParamValueParseError(x)) && x == "Threads"),
                    }
                } else if starts(syzygy) {
                    match last_word(b) {
                        Some(w) => (r matches Ok(SetOption::SyzygyPath(path)) && (vstd::utf8::valid_utf8(w)
                            ==> path@ == vstd::utf8::decode_utf8(w))),
                        None => (r matches Err(UciParseError::OptionParseError)),
                    }
                } else {
                    (r matches Err(UciParseError::OptionParseError))
                }
            }),
    {
        let b = line.as_bytes();
        if bytes_equal(b, &[115u8, 101u8, 116u8, 111u8, 112u8, 116u8, 105u8, 111u8, 110u8, 32u8, 110u8, 97u8, 109u8, 101u8, 32u8, 67u8, 108u8, 101u8, 97u8, 114u8, 32u8, 72u8, 97u8, 115u8, 104u8]) {
            return Ok(SetOption::ClearHash);
        }
        if starts_with(b, &[115u8, 101u8, 116u8, 111u8, 112u8, 116u8, 105u8, 111u8, 110u8, 32u8, 110u8, 97u8, 109u8, 101u8, 32u8, 84u8, 104u8, 114u8, 101u8, 97u8, 100u8, 115u8, 32u8, 118u8, 97u8, 108u8, 117u8, 101u8, 32u8]) {
            return match last_word_exec(b) {
                Some((a, e)) => {
                    let word = vstd::slice::slice_subrange(b, a, e);
                    let start: usize = if word.len() > 0 && word[0] == 43u8 { 1 } else { 0 };
                    proof {
                        if start == 1 {
                            assert(word@.subrange(1, word@.len() as int) == word@.drop_first());
                        } else {
                            assert(word@.subrange(0, word@.len() as int) == word@);
                        }
                    }
                    match digits_exec(word, start, usize::MAX as u128) {
                        Some(v) => Ok(SetOption::Threads(v as usize)),
                        None => Err(UciParseError::ParamValueParseError("Threads")),
                    }
                },
                None => Err(UciParseError::ParamValueParseError("Threads")),
            };
        }
        if starts_with(b, &[115u8, 101u8, 116u8, 111u8, 112u8, 116u8, 105u8, 111u8, 110u8, 32u8, 110u8, 97u8, 109u8, 101u8, 32u8, 83u8, 121u8, 122u8, 121u8, 103u8, 121u8, 80u8, 97u8, 116u8, 104u8, 32u8, 118u8, 97u8, 108u8, 117u8, 101u8, 32u8]) {
            return match last_word_exec(b) {
                Some((a, e)) => {
                    let word = vstd::slice::slice_subrange(b, a, e);
                    Ok(SetOption::SyzygyPath(crate::text::text_from_bytes(word)))
                },
                None => Err(UciParseError::OptionParseError),
            };
        }
        Err(UciParseError::OptionParseError)
    }

    /// Whether the FEN text of a `position` command ends before `moves`,
    /// as carrying out the command needs.
    pub fn position_line_ok(line: &str) -> (r: bool)
        ensures
            r == position_line_ok(line.spec_bytes()),
    {
        let b = line.as_bytes();
        let fen = find_exec(b, &[102u8, 101u8, 110u8]);
        let moves = find_exec(b, &[109u8, 111u8, 118u8, 101u8, 115u8]);
        proof {
            assert(seq![102u8, 101u8, 110u8] =~= seq!['f' as u8, 'e' as u8, 'n' as u8]);
            assert(seq![109u8, 111u8, 118u8, 101u8, 115u8] =~= seq!['m' as u8, 'o' as u8, 'v' as u8, 'e' as u8, 's' as u8]);
        }
        match (fen, moves) {
            (Some(f), Some(m)) => f <= m && m - f >= 3,
            _ => true,
        }
    }

    /// Carries out a `position` command: sets up the position that it names
    /// (`fen` and a FEN text, `startpos`, or one of the test positions) and
    /// plays the moves listed after `moves`. Where the position cannot be
    /// read it is left as it was; where a move cannot be read, the moves
    /// before it stay played.
    pub fn parse_position(position: &mut Position, line: &str, keys: &'static ZobristKeys) -> (r: Result<(), UciParseError>)
        requires
            old(position).wf(),
            keys.wf(),
            position_line_ok(line.spec_bytes()),
        ensures
            final(position).wf(),
            ({
                let b = line.spec_bytes();
                let source = position_source(b);
                let base_failure = source_failure(source);
                &&& source is Missing ==> (r matches Err(UciParseError::ParamParseError(e)) && e
                    == "Neither fen nor startpos found") && *final(position) == *old(position)
                &&& base_failure matches Some(e) ==> (r matches Err(UciParseError::FenParseError(x)) && x.0
                    == e) && *final(position) == *old(position)
                &&& !(source is Missing) && base_failure is None ==> (r is Ok || (r matches Err(
                    UciParseError::MoveStringParseError(_),
                )))
                &&& r is Ok ==> exists|ps: Seq<Position>| #[trigger] plays_words(ps, listed_moves(b))
                    && is_source_position(source, keys, ps[0]) && ps.last() == *final(position)
                &&& (r matches Err(UciParseError::MoveStringParseError(_))) ==> exists|ps: Seq<Position>, k: int|
                    0 <= k < listed_moves(b).len() && #[trigger] plays_words(ps, listed_moves(b).take(k))
                    && is_source_position(source, keys, ps[0]) && ps.last() == *final(position) && (
                    !ps.last().has_kings() || !exists|mv: BitMove| #[trigger] reads_as_move(
                        ps.last(),
                        listed_moves(b)[k],
                        mv,
                    ))
            }),
    {
        let b = line.as_bytes();
        let fen_pat: Vec<u8> = vec![102u8, 101u8, 110u8];
        let moves_pat: Vec<u8> = vec![109u8, 111u8, 118u8, 101u8, 115u8];
        let fen = find_exec(b, fen_pat.as_slice());
        let moves = find_exec(b, moves_pat.as_slice());
        proof {
            assert(fen_pat@ =~= seq!['f' as u8, 'e' as u8, 'n' as u8]);
            assert(moves_pat@ =~= seq!['m' as u8, 'o' as u8, 'v' as u8, 'e' as u8, 's' as u8]);
            assert(seq![115u8, 116u8, 97u8, 114u8, 116u8, 112u8, 111u8, 115u8] =~= seq!['s' as u8, 't' as u8, 'a' as u8, 'r' as u8, 't' as u8, 'p' as u8, 'o' as u8, 's' as u8]);
            assert(seq![107u8, 105u8, 119u8, 105u8, 112u8, 101u8, 116u8, 101u8] =~= seq!['k' as u8, 'i' as u8, 'w' as u8, 'i' as u8, 'p' as u8, 'e' as u8, 't' as u8, 'e' as u8]);
            assert(seq![114u8, 111u8, 111u8, 107u8] =~= seq!['r' as u8, 'o' as u8, 'o' as u8, 'k' as u8]);
            assert(seq![116u8, 114u8, 105u8, 99u8, 107u8, 121u8, 50u8] =~= seq!['t' as u8, 'r' as u8, 'i' as u8, 'c' as u8, 'k' as u8, 'y' as u8, '2' as u8]);
            assert(seq![116u8, 114u8, 105u8, 99u8, 107u8, 121u8] =~= seq!['t' as u8, 'r' as u8, 'i' as u8, 'c' as u8, 'k' as u8, 'y' as u8]);
        }
        let base = match fen {
            Some(f) => {
                let end = match moves {
                    Some(m) => m,
                    None => b.len(),
                };
                match parse_bytes_with_keys(vstd::slice::slice_subrange(b, f + 3, end), keys) {
                    Ok(p) => p,
                    Err(e) => {
                        return Err(UciParseError::FenParseError(e));
                    },
                }
            },
            None => {
                if find_exec(b, &[115u8, 116u8, 97u8, 114u8, 116u8, 112u8, 111u8, 115u8]).is_some() {
                    Position::starting_position_with_keys(keys)
                } else {
                    let named = if find_exec(b, &[107u8, 105u8, 119u8, 105u8, 112u8, 101u8, 116u8, 101u8]).is_some() {
                        crate::fen::KIWIPETE_POSITION
                    } else if find_exec(b, &[114u8, 111u8, 111u8, 107u8]).is_some() {
                        crate::fen::ROOK_POSITION
                    } else if find_exec(b, &[116u8, 114u8, 105u8, 99u8, 107u8, 121u8, 50u8]).is_some() {
                        crate::fen::TRICKY_POSITION_2
                    } else if find_exec(b, &[116u8, 114u8, 105u8, 99u8, 107u8, 121u8]).is_some() {
                        crate::fen::TRICKY_POSITION
                    } else {
                        return Err(UciParseError::ParamParseError("Neither fen nor startpos found"));
                    };
                    match crate::fen::parse_with_keys(named, keys) {
                        Ok(p) => p,
                        Err(e) => {
                            return Err(UciParseError::FenParseError(e));
                        },
                    }
                }
            },
        };
        *position = base;
        let ghost base_position = base;
        proof {
            assert(plays_words(seq![base_position], Seq::empty()));
            assert(seq![base_position][0] == base_position);
        }
        match moves {
            Some(m) => {
                let n = b.len();
                proof {
                    assert(moves_pat@.len() == 5);
                    assert(m + moves_pat@.len() <= n);
                }
                let mut i: usize = m + 5;
                let ghost words = words_from(b@, m + 5);
                let ghost mut ps: Seq<Position> = seq![base_position];
                let ghost mut done: int = 0;
                while i < b.len()
                    invariant
                        m + 5 <= i <= b@.len(),
                        position.wf(),
                        b@ == line.spec_bytes(),
                        find(b@, seq!['m' as u8, 'o' as u8, 'v' as u8, 'e' as u8, 's' as u8]) == Some(m as int),
                        !(position_source(b@) is Missing),
                        source_failure(position_source(b@)) is None,
                        is_source_position(position_source(b@), keys, base_position),
                        words == listed_moves(b@),
                        0 <= done <= words.len(),
                        words.subrange(done, words.len() as int) == words_from(b@, i as int),
                        plays_words(ps, words.take(done)),
                        ps[0] == base_position,
                        ps.last() == *position,
                    decreases b@.len() - i,
                {
                    proof {
                        lemma_skip_spaces(b@, i as int);
                    }
                    let start = skip_spaces_exec(b, i);
                    if start == b.len() {
                        proof {
                            assert(words_from(b@, i as int) =~= Seq::<Seq<u8>>::empty());
                            assert(words.take(done) =~= words);
                        }
                        return Ok(());
                    }
                    let end = word_end_exec(b, start);
                    proof {
                        lemma_word_end(b@, start as int);
                        assert(words_from(b@, i as int) == seq![b@.subrange(start as int, end as int)] + words_from(b@, end as int));
                        assert(words.subrange(done, words.len() as int).len() >= 1);
                        assert(done < words.len());
                        assert(words[done] == words.subrange(done, words.len() as int)[0]);
                        assert(words[done] == b@.subrange(start as int, end as int));
                    }
                    if position.bbs[5].is_empty() || position.bbs[11].is_empty() {
                        let word = vstd::slice::slice_subrange(b, start, end);
                        proof {
                            assert(words.take(done).len() == done);
                        }
                        return Err(UciParseError::MoveStringParseError(MoveStringParseError::IllegalMove(
                            crate::text::text_from_bytes(word),
                        )));
                    }
                    let word = vstd::slice::slice_subrange(b, start, end);
                    match Self::parse_move_bytes(position, word) {
                        Ok(bit_move) => {
                            proof {
                                crate::move_generation::lemma_pseudo_legal_applicable(*position, bit_move@);
                            }
                            let ghost before = *position;
                            position.make_move(bit_move);
                            proof {
                                let ps2 = ps.push(*position);
                                assert(before.is_successor(bit_move@, *position));
                                assert(reads_as_move(before, words[done], bit_move));
                                assert(words.take(done + 1).drop_last() =~= words.take(done));
                                assert forall|k: int| 0 <= k < words.take(done + 1).len() implies #[trigger] word_played(
                                    ps2[k],
                                    words.take(done + 1)[k],
                                    ps2[k + 1],
                                ) by {
                                    if k < done {
                                        assert(ps2[k] == ps[k] && ps2[k + 1] == ps[k + 1]);
                                        assert(words.take(done + 1)[k] == words.take(done)[k]);
                                        assert(word_played(ps[k], words.take(done)[k], ps[k + 1]));
                                    } else {
                                        assert(ps2[k] == before && ps2[k + 1] == *position);
                                        assert(reads_as_move(ps2[k], words.take(done + 1)[k], bit_move));
                                    }
                                }
                                assert(words.subrange(done + 1, words.len() as int) =~= words.subrange(
                                    done,
                                    words.len() as int,
                                ).drop_first());
                                ps = ps2;
                                done = done + 1;
                                assert(words.subrange(done, words.len() as int) =~= words_from(b@, end as int));
                            }
                        },
                        Err(e) => {
                            proof {
                                assert(words.take(done).len() == done);
                            }
                            return Err(UciParseError::MoveStringParseError(e));
                        },
                    }
                    i = end;
                }
                proof {
                    lemma_skip_spaces(b@, i as int);
                    assert(words_from(b@, i as int) =~= Seq::<Seq<u8>>::empty());
                    assert(words.take(done) =~= words);
                }
                Ok(())
            },
            None => {
                proof {
                    assert(listed_moves(b@) =~= Seq::<Seq<u8>>::empty());
                }
                Ok(())
            },
        }
    }

    /// Finds the legal move of the position that the bytes of a text in UCI
    /// notation name, such as `e2e4` or `a7a8q`.
    pub fn parse_move_bytes(position: &Position, b: &[u8]) -> (r: Result<BitMove, MoveStringParseError>)
        requires
            position.wf(),
            position.has_kings(),
        ensures
            r is Ok <==> exists|m: BitMove| #[trigger] reads_as_move(*position, b@, m),
            r matches Ok(m) ==> reads_as_move(*position, b@, m),
            ({
                let b = b@;
                let first = if b.len() >= 2 { square_name_failure(b.subrange(0, 2)) } else { None };
                let second = if b.len() >= 4 { square_name_failure(b.subrange(2, 4)) } else { None };
                let some_legal = exists|m: BitMove| #[trigger] is_legal_move(*position, m) && goes_as_named(b, m);
                if b.len() != 4 && b.len() != 5 {
                    (r matches Err(MoveStringParseError::LengthParseError))
                } else if first is Some {
                    (r matches Err(MoveStringParseError::SquareParseError(x)) && Some(x.0) == first)
                } else if second is Some {
                    (r matches Err(MoveStringParseError::SquareParseError(x)) && Some(x.0) == second)
                } else {
                    &&& (r matches Ok(m) ==> names_move(*position, b, m))
                    &&& (r is Ok <==> (exists|m: BitMove| #[trigger] names_move(*position, b, m)))
                    &&& (r matches Err(MoveStringParseError::PromotionPieceParseError(t)) ==> b.len() == 5
                        && promotion_of(b[4]) is None && b[4] < 128 && t@ == ascii_chars(seq![b[4]]))
                    &&& (r matches Err(MoveStringParseError::IllegalMove(t)) ==> (vstd::utf8::valid_utf8(b) ==> t@ == vstd::utf8::decode_utf8(b)))
                    &&& (r is Err ==> (r matches Err(MoveStringParseError::IllegalMove(_))) || (r matches Err(
                        MoveStringParseError::PromotionPieceParseError(_),
                    )))
                    &&& (b.len() == 5 && promotion_of(b[4]) is None && b[4] < 128 && some_legal ==> (r matches Err(
                        MoveStringParseError::PromotionPieceParseError(_),
                    )))
                    &&& (!some_legal ==> (r matches Err(MoveStringParseError::IllegalMove(_))))
                }
            }),
    {
        if b.len() != 4 && b.len() != 5 {
            return Err(MoveStringParseError::LengthParseError);
        }
        let source = match Square::parse_bytes(vstd::slice::slice_subrange(b, 0, 2)) {
            Ok(sq) => sq,
            Err(e) => {
                return Err(MoveStringParseError::SquareParseError(e));
            },
        };
        let target = match Square::parse_bytes(vstd::slice::slice_subrange(b, 2, 4)) {
            Ok(sq) => sq,
            Err(e) => {
                return Err(MoveStringParseError::SquareParseError(e));
            },
        };
        proof {
            assert(b@.subrange(0, 2)[0] == b@[0] && b@.subrange(0, 2)[1] == b@[1]);
            assert(b@.subrange(2, 4)[0] == b@[2] && b@.subrange(2, 4)[1] == b@[3]);
        }
        let promotion_byte: Option<u8> = if b.len() == 5 {
            Some(b[4])
        } else {
            None
        };
        let move_list = MoveGeneration::generate_moves::<BitMove, Legal>(position);
        let ghost s = move_list.moves();
        let mut i: usize = 0;
        while i < move_list.len()
            invariant
                i <= s.len(),
                s == move_list.moves(),
                s.len() == move_list.entries().len(),
                b@.len() == 4 || b@.len() == 5,
                square_name_failure(b@.subrange(0, 2)) is None,
                square_name_failure(b@.subrange(2, 4)) is None,
                source.0 == square_of_name(b@[0], b@[1]),
                target.0 == square_of_name(b@[2], b@[3]),
                promotion_byte == (if b@.len() == 5 { Some(b@[4]) } else { None::<u8> }),
                forall|bm: BitMove| #[trigger] s.contains(bm) <==> is_legal_move(*position, bm),
                forall|j: int|
                    0 <= j < i && #[trigger] goes_as_named(b@, s[j]) ==> b@.len() == 5 && promotion_of(b@[4])
                        is Some && s[j]@.flag != promotion_of(b@[4]),
            decreases s.len() - i,
        {
            let m = move_list.get(i);
            proof {
                assert(s[i as int] == m);
            }
            if m.source() == source && m.target() == target {
                match promotion_byte {
                    None => {
                        proof {
                            assert(s.contains(m));
                            assert(names_move(*position, b@, m));
                            assert(reads_as_move(*position, b@, m));
                        }
                        return Ok(m);
                    },
                    Some(c) => {
                        let wanted = if c == 113 {
                            Some(MoveFlag::PromoQ)
                        } else if c == 114 {
                            Some(MoveFlag::PromoR)
                        } else if c == 98 {
                            Some(MoveFlag::PromoB)
                        } else if c == 110 {
                            Some(MoveFlag::PromoN)
                        } else {
                            None
                        };
                        match wanted {
                            Some(f) => {
                                if m.flag() == Some(f) {
                                    proof {
                                        assert(s.contains(m));
                                        assert(names_move(*position, b@, m));
                                        assert(reads_as_move(*position, b@, m));
                                    }
                                    return Ok(m);
                                }
                            },
                            None => {
                                if c < 128 {
                                    let mut letter: Vec<u8> = Vec::new();
                                    letter.push(c);
                                    proof {
                                        assert(letter@ =~= seq![c]);
                                        assert(s.contains(m));
                                        assert(is_legal_move(*position, m) && goes_as_named(b@, m));
                                        assert forall|x: BitMove| !#[trigger] names_move(*position, b@, x) by {}
                                    }
                                    return Err(MoveStringParseError::PromotionPieceParseError(ascii_string(letter)));
                                } else {
                                    proof {
                                        assert forall|x: BitMove| !#[trigger] names_move(*position, b@, x) by {}
                                    }
                                    return Err(MoveStringParseError::IllegalMove(crate::text::text_from_bytes(b)));
                                }
                            },
                        }
                    },
                }
            }
            i = i + 1;
        }
        proof {
            assert forall|x: BitMove| !#[trigger] names_move(*position, b@, x) by {
                if names_move(*position, b@, x) {
                    assert(s.contains(x));
                    let j = choose|j: int| 0 <= j < s.len() && s[j] == x;
                    assert(goes_as_named(b@, s[j]));
                }
            }
            assert forall|x: BitMove| #[trigger] is_legal_move(*position, x) && goes_as_named(b@, x) implies
                b@.len() == 5 && promotion_of(b@[4]) is Some by {
                assert(s.contains(x));
                let j = choose|j: int| 0 <= j < s.len() && s[j] == x;
                assert(goes_as_named(b@, s[j]));
            }
        }
        Err(MoveStringParseError::IllegalMove(crate::text::text_from_bytes(b)))
    }
}

} // verus!
