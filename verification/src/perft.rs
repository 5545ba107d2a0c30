//! Performance tests: counting the leaves of the tree of legal moves to a
//! given depth, and checking the counts of well-known positions.
use vstd::prelude::*;
use vstd::seq_lib::{commutative_foldl, lemma_fold_left_permutation};
use crate::bit_move::BitMove;
use crate::fen::{FenString, STARTING_POSITION, KIWIPETE_POSITION, ROOK_POSITION, TRICKY_POSITION, TRICKY_POSITION_2, fen_failure, fen_position, placed, word};
use crate::move_generation::{MoveGeneration, PseudoLegal, pseudo_legal};
use crate::position::Position;
use crate::piece::PieceType;
use crate::move_flag::MoveFlag;
use crate::square::Square;
use crate::timer::Timer;
use crate::zobrist::ZobristKeys;

verus! {

broadcast use vstd::seq_lib::group_to_multiset_ensures;

/// Every move made by `encode` has a code below this bound.
pub const MOVE_CODES: u32 = 0x1000000;

/// The moves with codes below `n` that are pseudo-legal in `p`, by code.
pub open spec fn pseudo_legal_upto(p: Position, n: nat) -> Seq<BitMove>
    decreases n,
{
    if n == 0 {
        Seq::empty()
    } else {
        let bm = BitMove((n - 1) as u32);
        let rest = pseudo_legal_upto(p, (n - 1) as nat);
        if bm.encoded() && pseudo_legal(p, bm@) {
            rest.push(bm)
        } else {
            rest
        }
    }
}

/// The pseudo-legal moves of `p`, by code.
pub open spec fn pseudo_legal_moves(p: Position) -> Seq<BitMove> {
    pseudo_legal_upto(p, MOVE_CODES as nat)
}

/// Playing `m` on `p` leads to a position where the mover's king is not attacked.
pub open spec fn is_legal(p: Position, m: BitMove) -> bool {
    p.has_successor(m@) && !p.play(m@).spec_in_check(p.side)
}

/// The leaves at depth `d` that the move `m` of `p` leads to.
pub open spec fn move_nodes(p: Position, d: nat, m: BitMove) -> nat
    decreases d, 0nat,
{
    if d == 0 || !is_legal(p, m) {
        0
    } else if d == 1 {
        1
    } else {
        let q = p.play(m@);
        if q.has_kings() {
            moves_nodes(q, (d - 1) as nat, pseudo_legal_moves(q))
        } else {
            0
        }
    }
}

/// The leaves at depth `d` that the moves `s` of `p` lead to.
pub open spec fn moves_nodes(p: Position, d: nat, s: Seq<BitMove>) -> nat
    decreases d, s.len() + 1,
{
    if s.len() == 0 {
        0
    } else {
        moves_nodes(p, d, s.drop_last()) + move_nodes(p, d, s.last())
    }
}

/// The number of sequences of `d` legal moves from `p`. A position without
/// both kings has none past depth 0.
pub open spec fn perft_nodes(p: Position, d: nat) -> nat {
    if d == 0 {
        1
    } else if !p.has_kings() {
        0
    } else {
        moves_nodes(p, d, pseudo_legal_moves(p))
    }
}

/// The sum of the counts of a divided performance test.
pub open spec fn divide_total(v: Seq<(BitMove, u64)>) -> nat
    decreases v.len(),
{
    if v.len() == 0 {
        0
    } else {
        divide_total(v.drop_last()) + v.last().1 as nat
    }
}

/// Two positions that agree on everything the game depends on: the board,
/// the side to move, the castling rights and the en-passant square.
pub open spec fn same_game(p: Position, q: Position) -> bool {
    &&& p.bbs == q.bbs
    &&& p.wo == q.wo
    &&& p.bo == q.bo
    &&& p.ao == q.ao
    &&& p.side == q.side
    &&& p.castling_rights == q.castling_rights
    &&& p.en_passant_option == q.en_passant_option
}

proof fn lemma_upto(p: Position, n: nat)
    requires
        n <= MOVE_CODES,
    ensures
        pseudo_legal_upto(p, n).no_duplicates(),
        forall|bm: BitMove| #[trigger]
            pseudo_legal_upto(p, n).contains(bm) <==> (bm.0 < n && bm.encoded() && pseudo_legal(p, bm@)),
    decreases n,
{
    if n > 0 {
        lemma_upto(p, (n - 1) as nat);
        let rest = pseudo_legal_upto(p, (n - 1) as nat);
        let bm = BitMove((n - 1) as u32);
        if bm.encoded() && pseudo_legal(p, bm@) {
            assert forall|x: BitMove| #[trigger] rest.push(bm).contains(x) <==> (x.0 < n && x.encoded()
                && pseudo_legal(p, x@)) by {
                if x.0 == n - 1 {
                    assert(x == bm);
                    assert(rest.push(bm)[rest.len() as int] == bm);
                }
                if rest.push(bm).contains(x) && x != bm {
                    let i = choose|i: int| 0 <= i < rest.push(bm).len() && rest.push(bm)[i] == x;
                    assert(rest[i] == x);
                }
                if rest.contains(x) {
                    let i = choose|i: int| 0 <= i < rest.len() && rest[i] == x;
                    assert(rest.push(bm)[i] == x);
                }
            }
            assert forall|i: int, j: int|
                0 <= i < rest.push(bm).len() && 0 <= j < rest.push(bm).len() && i != j implies
                rest.push(bm)[i] != rest.push(bm)[j] by {
                if i < rest.len() {
                    assert(rest.contains(rest[i]));
                }
                if j < rest.len() {
                    assert(rest.contains(rest[j]));
                }
            }
        } else {
            assert forall|x: BitMove| #[trigger] rest.contains(x) <==> (x.0 < n && x.encoded()
                && pseudo_legal(p, x@)) by {
                if x.0 == n - 1 {
                    assert(x == bm);
                }
            }
        }
    }
}

proof fn lemma_upto_same(p: Position, q: Position, n: nat)
    requires
        forall|m: BitMove| pseudo_legal(p, m@) == pseudo_legal(q, m@),
    ensures
        pseudo_legal_upto(p, n) == pseudo_legal_upto(q, n),
    decreases n,
{
    if n > 0 {
        lemma_upto_same(p, q, (n - 1) as nat);
        let bm = BitMove((n - 1) as u32);
        assert(pseudo_legal(p, bm@) == pseudo_legal(q, bm@));
    }
}

/// The pseudo-legal moves, each once.
pub(crate) proof fn lemma_pseudo_legal_moves(p: Position)
    ensures
        pseudo_legal_moves(p).no_duplicates(),
        forall|bm: BitMove| #[trigger]
            pseudo_legal_moves(p).contains(bm) <==> (bm.encoded() && pseudo_legal(p, bm@)),
{
    lemma_upto(p, MOVE_CODES as nat);
}

/// Moves of positions that agree on the game are pseudo-legal in both or in neither.
pub(crate) proof fn lemma_pseudo_legal_same(p: Position, q: Position)
    requires
        same_game(p, q),
    ensures
        forall|m: BitMove| pseudo_legal(p, m@) == pseudo_legal(q, m@),
        pseudo_legal_moves(p) == pseudo_legal_moves(q),
{
    assert forall|m: BitMove| pseudo_legal(p, m@) == pseudo_legal(q, m@) by {
        assert forall|sq: int, t: int| #[trigger] p.attacks_from(p.side, sq, t) == q.attacks_from(q.side, sq, t) by {}
        assert forall|sq: int| #[trigger] p.attacked(p.side, sq) == q.attacked(q.side, sq) by {
            if p.attacked(p.side, sq) {
                let t = choose|t: int| 0 <= t < 64 && #[trigger] p.attacks_from(p.side, sq, t);
                assert(q.attacks_from(q.side, sq, t));
            }
            if q.attacked(q.side, sq) {
                let t = choose|t: int| 0 <= t < 64 && #[trigger] q.attacks_from(q.side, sq, t);
                assert(p.attacks_from(p.side, sq, t));
            }
        }
    }
    lemma_upto_same(p, q, MOVE_CODES as nat);
}

/// Playing a move on two positions that agree on the game leads to
/// positions that agree on the game, and the move is legal in both or in neither.
pub(crate) proof fn lemma_play_same(p: Position, q: Position, m: BitMove)
    requires
        same_game(p, q),
        p.wf(),
        q.wf(),
    ensures
        is_legal(p, m) == is_legal(q, m),
        is_legal(p, m) ==> same_game(p.play(m@), q.play(m@)) && p.play(m@).wf() && q.play(m@).wf(),
{
    if p.has_successor(m@) {
        let x = choose|x: Position| p.is_successor(m@, x);
        let y = Position { ply: q.ply, zobrist_keys: q.zobrist_keys, ..x };
        assert(q.is_successor(m@, y));
        p.lemma_play(m@, x);
        q.lemma_play(m@, y);
        p.play(m@).lemma_same_check(q.play(m@), p.side);
    }
    if q.has_successor(m@) {
        let y = choose|y: Position| q.is_successor(m@, y);
        let x = Position { ply: p.ply, zobrist_keys: p.zobrist_keys, ..y };
        assert(p.is_successor(m@, x));
    }
}

proof fn lemma_moves_nodes_same(p: Position, q: Position, d: nat, s: Seq<BitMove>)
    requires
        same_game(p, q),
        p.wf(),
        q.wf(),
    ensures
        moves_nodes(p, d, s) == moves_nodes(q, d, s),
    decreases d, s.len(),
{
    if s.len() > 0 {
        lemma_moves_nodes_same(p, q, d, s.drop_last());
        let m = s.last();
        lemma_play_same(p, q, m);
        if d >= 2 && is_legal(p, m) {
            let pp = p.play(m@);
            let qq = q.play(m@);
            lemma_pseudo_legal_same(pp, qq);
            lemma_moves_nodes_same(pp, qq, (d - 1) as nat, pseudo_legal_moves(pp));
            assert(pp.has_kings() == qq.has_kings());
            assert(move_nodes(p, d, m) == move_nodes(q, d, m));
        }
        assert(move_nodes(p, d, m) == move_nodes(q, d, m));
    }
}

/// Positions that agree on the game have the same perft counts.
pub proof fn lemma_perft_same(p: Position, q: Position, d: nat)
    requires
        same_game(p, q),
        p.wf(),
        q.wf(),
    ensures
        perft_nodes(p, d) == perft_nodes(q, d),
{
    lemma_pseudo_legal_same(p, q);
    lemma_moves_nodes_same(p, q, d, pseudo_legal_moves(p));
}

/// The count of a legal move is the count of the position it leads to.
proof fn lemma_move_nodes(p: Position, d: nat, m: BitMove)
    requires
        d >= 1,
    ensures
        move_nodes(p, d, m) == if is_legal(p, m) {
            perft_nodes(p.play(m@), (d - 1) as nat)
        } else {
            0
        },
{
}

proof fn lemma_moves_nodes_fold(p: Position, d: nat, s: Seq<BitMove>)
    ensures
        moves_nodes(p, d, s) == s.fold_left(0nat, |acc: nat, m: BitMove| acc + move_nodes(p, d, m)),
    decreases s.len(),
{
    if s.len() > 0 {
        lemma_moves_nodes_fold(p, d, s.drop_last());
    }
}

/// The count over a list of moves does not depend on their order.
proof fn lemma_moves_nodes_permutation(p: Position, d: nat, s1: Seq<BitMove>, s2: Seq<BitMove>)
    requires
        s1.no_duplicates(),
        s2.no_duplicates(),
        forall|m: BitMove| s1.contains(m) <==> s2.contains(m),
    ensures
        moves_nodes(p, d, s1) == moves_nodes(p, d, s2),
{
    let f = |acc: nat, m: BitMove| acc + move_nodes(p, d, m);
    s1.lemma_multiset_has_no_duplicates();
    s2.lemma_multiset_has_no_duplicates();
    assert forall|m: BitMove| s1.to_multiset().count(m) == s2.to_multiset().count(m) by {
        if s1.contains(m) {
            assert(s1.to_multiset().contains(m));
            assert(s2.to_multiset().contains(m));
        }
    }
    assert(s1.to_multiset() =~= s2.to_multiset());
    assert(commutative_foldl(f));
    lemma_fold_left_permutation(s1, s2, f, 0nat);
    lemma_moves_nodes_fold(p, d, s1);
    lemma_moves_nodes_fold(p, d, s2);
}

/// The number of moves of `s` that are legal in `p`.
pub open spec fn count_legal(p: Position, s: Seq<BitMove>) -> nat
    decreases s.len(),
{
    if s.len() == 0 {
        0
    } else {
        count_legal(p, s.drop_last()) + if is_legal(p, s.last()) {
            1nat
        } else {
            0nat
        }
    }
}

proof fn lemma_count_legal(p: Position, s: Seq<BitMove>)
    ensures
        moves_nodes(p, 1, s) == count_legal(p, s),
    decreases s.len(),
{
    if s.len() > 0 {
        lemma_count_legal(p, s.drop_last());
        assert(move_nodes(p, 1, s.last()) == if is_legal(p, s.last()) {
            1nat
        } else {
            0nat
        });
    }
}

/// A performance test to depth one counts the legal moves of a position
/// with both kings.
pub proof fn law_perft_one_counts_legal_moves(p: Position)
    requires
        p.has_kings(),
    ensures
        perft_nodes(p, 1) == count_legal(p, pseudo_legal_moves(p)),
{
    lemma_count_legal(p, pseudo_legal_moves(p));
}

/// A performance test to depth `d + 1` sums, over the pseudo-legal moves,
/// the count to depth `d` of the position that each legal one leads to.
pub proof fn law_perft_step(p: Position, d: nat, m: BitMove)
    requires
        p.has_kings(),
    ensures
        move_nodes(p, d + 1, m) == if is_legal(p, m) {
            perft_nodes(p.play(m@), d)
        } else {
            0
        },
        perft_nodes(p, d + 1) == moves_nodes(p, d + 1, pseudo_legal_moves(p)),
{
    lemma_move_nodes(p, d + 1, m);
}

/// The count of a prefix is at most the count of the whole list.
proof fn lemma_moves_nodes_prefix(p: Position, d: nat, s: Seq<BitMove>, i: int)
    requires
        0 <= i <= s.len(),
    ensures
        moves_nodes(p, d, s.take(i)) <= moves_nodes(p, d, s),
    decreases s.len() - i,
{
    if i < s.len() {
        lemma_moves_nodes_prefix(p, d, s, i + 1);
        assert(s.take(i + 1).drop_last() == s.take(i));
    } else {
        assert(s.take(i) == s);
    }
}

/// The result of a performance test.
pub struct PerftResult {
    pub depth: u8,
    pub nodes: u64,
    pub time: u128,
}

/// A position with the count that a performance test must reach on it.
pub struct PerftPosition {
    pub name: &'static str,
    pub fen: FenString,
    pub depth: u8,
    pub target_nodes: u64,
}

/// The outcome of a performance test on a known position.
pub struct PerftOutcome {
    pub name: &'static str,
    pub depth: u8,
    /// The count reached, if the position could be read and the count fits.
    pub nodes: Option<u64>,
    pub target_nodes: u64,
    pub time: u128,
}

impl PerftOutcome {
    /// The count reached is the target.
    pub open spec fn spec_passed(&self) -> bool {
        self.nodes == Some(self.target_nodes)
    }

    /// Whether the count reached is the target.
    pub fn passed(&self) -> (r: bool)
        ensures
            r == self.spec_passed(),
    {
        match self.nodes {
            Some(n) => n == self.target_nodes,
            None => false,
        }
    }
}

/// What a performance test on a known position reports: the name, depth
/// and target it was given, and the count of the position that the FEN text
/// describes, if the text is one and the count fits in 64 bits.
pub open spec fn reports(o: PerftOutcome, name: &'static str, fen: Seq<char>, depth: u8, target: u64) -> bool {
    let bytes = vstd::utf8::encode_utf8(fen);
    &&& o.name == name
    &&& o.depth == depth
    &&& o.target_nodes == target
    &&& o.nodes matches Some(n) ==> exists|p: Position| #[trigger]
        fen_position(bytes, p.zobrist_keys, p) && n == perft_nodes(p, depth as nat)
    &&& o.nodes is None ==> fen_failure(bytes) is Some || forall|p: Position| #[trigger]
        fen_position(bytes, p.zobrist_keys, p) ==> perft_nodes(p, depth as nat) > u64::MAX
}

/// Two positions read from the same text agree on the game.
proof fn lemma_fen_same_game(s: Seq<u8>, p: Position, q: Position)
    requires
        fen_position(s, p.zobrist_keys, p),
        fen_position(s, q.zobrist_keys, q),
    ensures
        same_game(p, q),
{
    assert forall|sq: int| #[trigger] p.piece_at(sq) == q.piece_at(sq) by {
        assert(p.piece_at(sq) == placed(word(s, 0), word(s, 0).len(), sq));
        assert(q.piece_at(sq) == placed(word(s, 0), word(s, 0).len(), sq));
    }
    p.lemma_same_board(q);
}

pub struct Perft;

impl Perft {
    /// Counts the sequences of `depth` legal moves from the position, each
    /// move played on a copy. `None` when the count does not fit in 64 bits.
    pub fn perft_driver_single_thread_clone(position: &Position, depth: u8) -> (r: Option<u64>)
        requires
            position.wf(),
            position.ply + depth <= u16::MAX,
        ensures
            r matches Some(n) ==> n == perft_nodes(*position, depth as nat),
            r is None ==> perft_nodes(*position, depth as nat) > u64::MAX,
        decreases depth,
    {
        if depth == 0 {
            return Some(1);
        }
        if position.bbs[5].is_empty() || position.bbs[11].is_empty() {
            return Some(0);
        }
        let move_list = MoveGeneration::generate_moves::<BitMove, PseudoLegal>(position);
        let ghost s = move_list.moves();
        let ghost d = depth as nat;
        proof {
            lemma_pseudo_legal_moves(*position);
            lemma_moves_nodes_permutation(*position, d, s, pseudo_legal_moves(*position));
        }
        let mut nodes: u64 = 0;
        let mut i: usize = 0;
        while i < move_list.len()
            invariant
                i <= s.len(),
                s == move_list.moves(),
                s.len() == move_list.entries().len(),
                position.wf(),
                position.has_kings(),
                1 <= depth,
                position.ply + depth <= u16::MAX,
                d == depth as nat,
                forall|bm: BitMove| #[trigger] s.contains(bm) <==> bm.encoded() && pseudo_legal(*position, bm@),
                moves_nodes(*position, d, s) == perft_nodes(*position, d),
                nodes == moves_nodes(*position, d, s.take(i as int)),
            decreases s.len() - i,
        {
            let bit_move = move_list.get(i);
            proof {
                assert(s[i as int] == bit_move);
                assert(s.contains(bit_move));
                assert(s.take(i + 1).drop_last() == s.take(i as int));
                assert(s.take(i + 1).last() == bit_move);
                lemma_move_nodes(*position, d, bit_move);
                lemma_moves_nodes_prefix(*position, d, s, i + 1);
            }
            let mut new_position = *position;
            if new_position.apply_pseudo_legal_move(bit_move) {
                proof {
                    let q = position.play(bit_move@);
                    let x = choose|x: Position| position.is_successor(bit_move@, x);
                    position.lemma_play(bit_move@, x);
                    lemma_perft_same(new_position, q, (d - 1) as nat);
                }
                match Self::perft_driver_single_thread_clone(&new_position, depth - 1) {
                    Some(sub) => {
                        if sub > u64::MAX - nodes {
                            return None;
                        }
                        nodes = nodes + sub;
                    },
                    None => {
                        return None;
                    },
                }
            }
            i = i + 1;
        }
        proof {
            assert(s.take(s.len() as int) == s);
        }
        Some(nodes)
    }

    /// For each legal move of the position, the move and the number of
    /// sequences of `depth` legal moves that start with it. `None` when the
    /// total does not fit in 64 bits.
    pub fn perft_divide(position: &Position, depth: u8) -> (r: Option<Vec<(BitMove, u64)>>)
        requires
            position.wf(),
            position.has_kings(),
            1 <= depth,
            position.ply + depth <= u16::MAX,
        ensures
            r matches Some(v) ==> {
                &&& forall|i: int| 0 <= i < v@.len() ==> is_legal(*position, (#[trigger] v@[i]).0)
                    && v@[i].1 == perft_nodes(position.play(v@[i].0@), (depth - 1) as nat)
                &&& forall|bm: BitMove| bm.encoded() && pseudo_legal(*position, bm@) && is_legal(*position, bm)
                    ==> exists|i: int| 0 <= i < v@.len() && (#[trigger] v@[i]).0 == bm
                &&& divide_total(v@) == perft_nodes(*position, depth as nat)
            },
            r is None ==> perft_nodes(*position, depth as nat) > u64::MAX,
    {
        let move_list = MoveGeneration::generate_moves::<BitMove, PseudoLegal>(position);
        let ghost s = move_list.moves();
        let ghost d = depth as nat;
        proof {
            lemma_pseudo_legal_moves(*position);
            lemma_moves_nodes_permutation(*position, d, s, pseudo_legal_moves(*position));
        }
        let mut counts: Vec<(BitMove, u64)> = Vec::new();
        let mut nodes: u64 = 0;
        let mut i: usize = 0;
        while i < move_list.len()
            invariant
                i <= s.len(),
                s == move_list.moves(),
                s.len() == move_list.entries().len(),
                s.no_duplicates(),
                position.wf(),
                position.has_kings(),
                1 <= depth,
                position.ply + depth <= u16::MAX,
                d == depth as nat,
                forall|bm: BitMove| #[trigger] s.contains(bm) <==> bm.encoded() && pseudo_legal(*position, bm@),
                moves_nodes(*position, d, s) == perft_nodes(*position, d),
                nodes == moves_nodes(*position, d, s.take(i as int)),
                nodes == divide_total(counts@),
                forall|k: int| 0 <= k < counts@.len() ==> is_legal(*position, (#[trigger] counts@[k]).0)
                    && counts@[k].1 == perft_nodes(position.play(counts@[k].0@), (depth - 1) as nat),
                forall|j: int| 0 <= j < i && is_legal(*position, #[trigger] s[j]) ==> exists|k: int|
                    0 <= k < counts@.len() && (#[trigger] counts@[k]).0 == s[j],
            decreases s.len() - i,
        {
            let bit_move = move_list.get(i);
            proof {
                assert(s[i as int] == bit_move);
                assert(s.contains(bit_move));
                assert(s.take(i + 1).drop_last() == s.take(i as int));
                assert(s.take(i + 1).last() == bit_move);
                lemma_move_nodes(*position, d, bit_move);
                lemma_moves_nodes_prefix(*position, d, s, i + 1);
            }
            let mut new_position = *position;
            if new_position.apply_pseudo_legal_move(bit_move) {
                proof {
                    let q = position.play(bit_move@);
                    let x = choose|x: Position| position.is_successor(bit_move@, x);
                    position.lemma_play(bit_move@, x);
                    lemma_perft_same(new_position, q, (d - 1) as nat);
                }
                match Self::perft_driver_single_thread_clone(&new_position, depth - 1) {
                    Some(sub) => {
                        if sub > u64::MAX - nodes {
                            return None;
                        }
                        let ghost before = counts@;
                        counts.push((bit_move, sub));
                        nodes = nodes + sub;
                        proof {
                            assert(counts@.drop_last() == before);
                            assert(counts@[counts@.len() - 1] == (bit_move, sub));
                            assert forall|j: int| 0 <= j < i + 1 && is_legal(*position, #[trigger] s[j]) implies exists|k: int|
                                0 <= k < counts@.len() && (#[trigger] counts@[k]).0 == s[j] by {
                                if j < i {
                                    let k = choose|k: int| 0 <= k < before.len() && (#[trigger] before[k]).0 == s[j];
                                    assert(counts@[k] == before[k]);
                                } else {
                                    assert(counts@[counts@.len() - 1].0 == s[j]);
                                }
                            }
                        }
                    },
                    None => {
                        return None;
                    },
                }
            }
            i = i + 1;
        }
        proof {
            assert(s.take(s.len() as int) == s);
            assert forall|bm: BitMove| bm.encoded() && pseudo_legal(*position, bm@) && is_legal(*position, bm)
                implies exists|i: int| 0 <= i < counts@.len() && (#[trigger] counts@[i]).0 == bm by {
                assert(s.contains(bm));
                let j = choose|j: int| 0 <= j < s.len() && s[j] == bm;
                assert(is_legal(*position, s[j]));
            }
        }
        Some(counts)
    }

    /// Whether the pieces that the special part of the move clears stand
    /// where it clears them.
    fn clears_present(position: &Position, bit_move: BitMove) -> (r: bool)
        requires
            position.wf(),
            position.applicable(bit_move@),
        ensures
            r == position.clears_present(bit_move@),
    {
        let source = bit_move.source();
        let target = bit_move.target();
        let piece = bit_move.piece();
        let displaced = |sq: u8| -> (d: PieceType)
            requires
                sq < 64,
            ensures
                d == position.displaced(bit_move@, sq as int),
        {
            if sq == target.0 {
                piece
            } else if sq == source.0 {
                PieceType::NoPiece
            } else {
                position.piece_on_square(Square(sq))
            }
        };
        match bit_move.flag() {
            Some(MoveFlag::WEnPassant) => displaced(target.0 + 8) == PieceType::BP,
            Some(MoveFlag::BEnPassant) => displaced(target.0 - 8) == PieceType::WP,
            Some(MoveFlag::WKCastle) => displaced(63) == PieceType::WR,
            Some(MoveFlag::WQCastle) => displaced(56) == PieceType::WR,
            Some(MoveFlag::BKCastle) => displaced(7) == PieceType::BR,
            Some(MoveFlag::BQCastle) => displaced(0) == PieceType::BR,
            _ => true,
        }
    }

    /// Counts the sequences of `depth` legal moves from the position,
    /// playing each move on one working copy and taking it back afterwards.
    /// Where a move's special part would clear a piece that is not there,
    /// taking it back could not restore the board, and the copy is made
    /// afresh instead. `None` when the count does not fit in 64 bits.
    #[verifier::rlimit(40)]
    pub fn perft_driver_single_thread_undo_move(position: &Position, depth: u8) -> (r: Option<u64>)
        requires
            position.wf(),
        ensures
            r matches Some(n) ==> n == perft_nodes(*position, depth as nat),
            r is None ==> perft_nodes(*position, depth as nat) > u64::MAX,
        decreases depth,
    {
        if depth == 0 {
            return Some(1);
        }
        if position.bbs[5].is_empty() || position.bbs[11].is_empty() {
            return Some(0);
        }
        let move_list = MoveGeneration::generate_moves::<BitMove, PseudoLegal>(position);
        let ghost s = move_list.moves();
        let ghost d = depth as nat;
        proof {
            lemma_pseudo_legal_moves(*position);
            lemma_moves_nodes_permutation(*position, d, s, pseudo_legal_moves(*position));
        }
        let old_castling_rights = position.castling_rights;
        let mut position_copy = *position;
        let mut nodes: u64 = 0;
        let mut i: usize = 0;
        while i < move_list.len()
            invariant
                i <= s.len(),
                s == move_list.moves(),
                s.len() == move_list.entries().len(),
                position.wf(),
                position.has_kings(),
                1 <= depth,
                d == depth as nat,
                old_castling_rights == position.castling_rights,
                forall|bm: BitMove| #[trigger] s.contains(bm) <==> bm.encoded() && pseudo_legal(*position, bm@),
                moves_nodes(*position, d, s) == perft_nodes(*position, d),
                nodes == moves_nodes(*position, d, s.take(i as int)),
                position_copy.wf(),
                position_copy.bbs == position.bbs,
                position_copy.wo == position.wo,
                position_copy.bo == position.bo,
                position_copy.ao == position.ao,
                position_copy.side == position.side,
                position_copy.castling_rights == position.castling_rights,
                position_copy.ply == position.ply,
                position_copy.zobrist_keys == position.zobrist_keys,
            decreases s.len() - i,
        {
            let bit_move = move_list.get(i);
            proof {
                assert(s[i as int] == bit_move);
                assert(s.contains(bit_move));
                assert(s.take(i + 1).drop_last() == s.take(i as int));
                assert(s.take(i + 1).last() == bit_move);
                lemma_move_nodes(*position, d, bit_move);
                lemma_moves_nodes_prefix(*position, d, s, i + 1);
                crate::move_generation::lemma_pseudo_legal_applicable(*position, bit_move@);
                crate::move_generation::lemma_mover_king_kept(*position, bit_move@);
                position_copy.lemma_same_board(*position);
                assert forall|sq: int| #[trigger] position_copy.piece_at(sq) == position.piece_at(sq) by {}
            }
            let ghost before = position_copy;
            let undoable = Self::clears_present(&position_copy, bit_move);
            position_copy.make_move(bit_move);
            proof {
                assert(position.is_successor(bit_move@, position_copy));
                position.lemma_play(bit_move@, position_copy);
                position_copy.lemma_same_check(position.play(bit_move@), position.side);
                position_copy.lemma_board();
                let x = if bit_move@.source == position.king_square(position.side) {
                    bit_move@.target
                } else {
                    position.king_square(position.side)
                };
                assert(position_copy.piece_at(x) == PieceType::of_index(Position::king_index(position.side)));
                crate::bits::lemma_zero_iff(position_copy.bb(Position::king_index(position.side)));
            }
            let mover = position_copy.side.opposite();
            if !position_copy.in_check(mover) {
                proof {
                    lemma_perft_same(position_copy, position.play(bit_move@), (d - 1) as nat);
                }
                match Self::perft_driver_single_thread_undo_move(&position_copy, depth - 1) {
                    Some(sub) => {
                        if sub > u64::MAX - nodes {
                            return None;
                        }
                        nodes = nodes + sub;
                    },
                    None => {
                        return None;
                    },
                }
            }
            if undoable {
                proof {
                    crate::position::lemma_make_undo(before, bit_move@, position_copy);
                }
                position_copy.undo_move(bit_move, old_castling_rights);
                proof {
                    assert forall|sq: int| #[trigger] position_copy.piece_at(sq) == position.piece_at(sq) by {
                        assert(position_copy.piece_at(sq) == before.piece_at(sq));
                    }
                    position_copy.lemma_same_board(*position);
                    crate::color::law_opposite_involutive(position.side);
                }
            } else {
                position_copy = *position;
            }
            i = i + 1;
        }
        proof {
            assert(s.take(s.len() as int) == s);
        }
        Some(nodes)
    }

    /// Counts the sequences of `depth` legal moves from the position with
    /// one working copy, and measures the time taken. `None` when the count
    /// does not fit in 64 bits.
    pub fn perft_test_single_thread_undo_move(position: &Position, depth: u8) -> (r: Option<PerftResult>)
        requires
            position.wf(),
            1 <= depth,
        ensures
            r matches Some(res) ==> res.depth == depth && res.nodes == perft_nodes(*position, depth as nat),
            r is None ==> perft_nodes(*position, depth as nat) > u64::MAX,
    {
        let timer = Timer::new();
        match Self::perft_driver_single_thread_undo_move(position, depth) {
            Some(nodes) => Some(PerftResult { depth, nodes, time: timer.get_time_passed_millis() }),
            None => None,
        }
    }

    /// Counts the sequences of `depth` legal moves from the position and
    /// measures the time taken. `None` when the count does not fit in 64 bits.
    pub fn perft_test_single_thread_clone(position: &Position, depth: u8) -> (r: Option<PerftResult>)
        requires
            position.wf(),
            1 <= depth,
            position.ply + depth <= u16::MAX,
        ensures
            r matches Some(res) ==> res.depth == depth && res.nodes == perft_nodes(*position, depth as nat),
            r is None ==> perft_nodes(*position, depth as nat) > u64::MAX,
    {
        let timer = Timer::new();
        match Self::perft_driver_single_thread_clone(position, depth) {
            Some(nodes) => Some(PerftResult { depth, nodes, time: timer.get_time_passed_millis() }),
            None => None,
        }
    }

    /// Counts the sequences of `depth` legal moves from the position.
    pub fn perft_test(position: &Position, depth: u8) -> (r: Option<PerftResult>)
        requires
            position.wf(),
            1 <= depth,
            position.ply + depth <= u16::MAX,
        ensures
            r matches Some(res) ==> res.depth == depth && res.nodes == perft_nodes(*position, depth as nat),
            r is None ==> perft_nodes(*position, depth as nat) > u64::MAX,
    {
        Self::perft_test_single_thread_clone(position, depth)
    }

    /// Reads the position of a known test and counts its moves.
    fn run_perft_position(perft_position: &PerftPosition, keys: &'static ZobristKeys) -> (r: PerftOutcome)
        requires
            keys.wf(),
            1 <= perft_position.depth,
        ensures
            reports(
                r,
                perft_position.name,
                perft_position.fen.0@,
                perft_position.depth,
                perft_position.target_nodes,
            ),
    {
        let ghost bytes = perft_position.fen.bytes();
        let timer = Timer::new();
        let nodes = match perft_position.fen.parse_with_keys(keys) {
            Ok(position) => {
                let n = Self::perft_driver_single_thread_clone(&position, perft_position.depth);
                proof {
                    assert(fen_position(bytes, position.zobrist_keys, position));
                    assert forall|p: Position| #[trigger] fen_position(bytes, p.zobrist_keys, p) implies
                        perft_nodes(p, perft_position.depth as nat) == perft_nodes(position, perft_position.depth as nat) by {
                        lemma_fen_same_game(bytes, p, position);
                        lemma_perft_same(p, position, perft_position.depth as nat);
                    }
                }
                n
            },
            Err(_) => None,
        };
        PerftOutcome {
            name: perft_position.name,
            depth: perft_position.depth,
            nodes,
            target_nodes: perft_position.target_nodes,
            time: timer.get_time_passed_millis(),
        }
    }

    /// Runs the performance test of each known position, in order.
    pub fn perft_tests(perft_positions: &Vec<PerftPosition>) -> (r: Vec<PerftOutcome>)
        requires
            forall|i: int| 0 <= i < perft_positions@.len() ==> 1 <= #[trigger] perft_positions@[i].depth,
        ensures
            r@.len() == perft_positions@.len(),
            forall|i: int| 0 <= i < r@.len() ==> reports(
                #[trigger] r@[i],
                perft_positions@[i].name,
                perft_positions@[i].fen.0@,
                perft_positions@[i].depth,
                perft_positions@[i].target_nodes,
            ),
    {
        let keys = ZobristKeys::standard_static();
        let mut outcomes: Vec<PerftOutcome> = Vec::new();
        let mut i: usize = 0;
        while i < perft_positions.len()
            invariant
                i <= perft_positions@.len(),
                keys.wf(),
                forall|j: int| 0 <= j < perft_positions@.len() ==> 1 <= #[trigger] perft_positions@[j].depth,
                outcomes@.len() == i,
                forall|j: int| 0 <= j < i ==> reports(
                    #[trigger] outcomes@[j],
                    perft_positions@[j].name,
                    perft_positions@[j].fen.0@,
                    perft_positions@[j].depth,
                    perft_positions@[j].target_nodes,
                ),
            decreases perft_positions@.len() - i,
        {
            let outcome = Self::run_perft_position(&perft_positions[i], keys);
            outcomes.push(outcome);
            i = i + 1;
        }
        outcomes
    }

    /// The long suite of performance tests on the known positions.
    pub fn long_perft_tests() -> (r: Vec<PerftOutcome>)
        ensures
            r@.len() == 5,
            reports(r@[0], "Starting Position", STARTING_POSITION@, 6, 119060324),
            reports(r@[1], "Kiwipete Position", KIWIPETE_POSITION@, 5, 193690690),
            reports(r@[2], "Rook Position", ROOK_POSITION@, 7, 178633661),
            reports(r@[3], "Tricky Position", TRICKY_POSITION@, 6, 706045033),
            reports(r@[4], "Tricky Position 2", TRICKY_POSITION_2@, 5, 89941194),
    {
        let mut positions: Vec<PerftPosition> = Vec::new();
        positions.push(PerftPosition {
            name: "Starting Position",
            fen: FenString::starting(),
            depth: 6,
            target_nodes: 119060324,
        });
        positions.push(PerftPosition {
            name: "Kiwipete Position",
            fen: FenString::kiwipete(),
            depth: 5,
            target_nodes: 193690690,
        });
        positions.push(PerftPosition {
            name: "Rook Position",
            fen: FenString::rook(),
            depth: 7,
            target_nodes: 178633661,
        });
        positions.push(PerftPosition {
            name: "Tricky Position",
            fen: FenString::tricky(),
            depth: 6,
            target_nodes: 706045033,
        });
        positions.push(PerftPosition {
            name: "Tricky Position 2",
            fen: FenString::tricky2(),
            depth: 5,
            target_nodes: 89941194,
        });
        Self::perft_tests(&positions)
    }

    /// The medium suite of performance tests on the known positions.
    pub fn medium_perft_tests() -> (r: Vec<PerftOutcome>)
        ensures
            r@.len() == 5,
            reports(r@[0], "Starting Position", STARTING_POSITION@, 5, 4865609),
            reports(r@[1], "Kiwipete Position", KIWIPETE_POSITION@, 4, 4085603),
            reports(r@[2], "Rook Position", ROOK_POSITION@, 6, 11030083),
            reports(r@[3], "Tricky Position", TRICKY_POSITION@, 5, 15833292),
            reports(r@[4], "Tricky Position 2", TRICKY_POSITION_2@, 4, 2103487),
    {
        let mut positions: Vec<PerftPosition> = Vec::new();
        positions.push(PerftPosition {
            name: "Starting Position",
            fen: FenString::starting(),
            depth: 5,
            target_nodes: 4865609,
        });
        positions.push(PerftPosition {
            name: "Kiwipete Position",
            fen: FenString::kiwipete(),
            depth: 4,
            target_nodes: 4085603,
        });
        positions.push(PerftPosition {
            name: "Rook Position",
            fen: FenString::rook(),
            depth: 6,
            target_nodes: 11030083,
        });
        positions.push(PerftPosition {
            name: "Tricky Position",
            fen: FenString::tricky(),
            depth: 5,
            target_nodes: 15833292,
        });
        positions.push(PerftPosition {
            name: "Tricky Position 2",
            fen: FenString::tricky2(),
            depth: 4,
            target_nodes: 2103487,
        });
        Self::perft_tests(&positions)
    }

    /// The short suite of performance tests on the known positions.
    pub fn short_perft_tests() -> (r: Vec<PerftOutcome>)
        ensures
            r@.len() == 5,
            reports(r@[0], "Starting Position", STARTING_POSITION@, 4, 197281),
            reports(r@[1], "Kiwipete Position", KIWIPETE_POSITION@, 3, 97862),
            reports(r@[2], "Rook Position", ROOK_POSITION@, 5, 674624),
            reports(r@[3], "Tricky Position", TRICKY_POSITION@, 4, 422333),
            reports(r@[4], "Tricky Position 2", TRICKY_POSITION_2@, 3, 62379),
    {
        let mut positions: Vec<PerftPosition> = Vec::new();
        positions.push(PerftPosition {
            name: "Starting Position",
            fen: FenString::starting(),
            depth: 4,
            target_nodes: 197281,
        });
        positions.push(PerftPosition {
            name: "Kiwipete Position",
            fen: FenString::kiwipete(),
            depth: 3,
            target_nodes: 97862,
        });
        positions.push(PerftPosition {
            name: "Rook Position",
            fen: FenString::rook(),
            depth: 5,
            target_nodes: 674624,
        });
        positions.push(PerftPosition {
            name: "Tricky Position",
            fen: FenString::tricky(),
            depth: 4,
            target_nodes: 422333,
        });
        positions.push(PerftPosition {
            name: "Tricky Position 2",
            fen: FenString::tricky2(),
            depth: 3,
            target_nodes: 62379,
        });
        Self::perft_tests(&positions)
    }
}

} // verus!
