//! Finding a good move: negamax with alpha-beta pruning, a quiescence
//! search over captures, a transposition table, killer moves, null-move
//! pruning, check extensions and draws by repetition.
use vstd::prelude::*;
use std::sync::Arc;
use std::sync::atomic::AtomicBool;
use crate::bit_move::{BitMove, ScoringMove, EMPTY};
use crate::move_list::MoveList;
use crate::eval_position::EvalPosition;
use crate::killer_moves::{KillerMoves, MAX_DEPTH};
use crate::move_generation::{Legal, MoveGeneration, PseudoLegal};
use crate::piece::PieceType;
use crate::position::Position;
use crate::timer::StopSignal;
use crate::transposition_table::{TTData, TTNodeType, TranspositionTable};
use crate::uci::is_legal_move;
use crate::perft::{is_legal, pseudo_legal_moves, same_game, lemma_play_same, lemma_pseudo_legal_same, lemma_pseudo_legal_moves};
use crate::zobrist::ZobristKey;

verus! {

pub const BLANK: i16 = 0;
pub const CHECKMATE: i16 = 10000;
pub const TABLEBASE_MOVE: i16 = 20000;
pub const DRAW: i16 = 0;
pub const DRAW_BY_STALEMATE: i16 = 0;
pub const DRAW_BY_REPETITION: i16 = 0;
pub const START_ALPHA: i16 = -32001;
pub const START_BETA: i16 = 32001;
pub const AVERAGE_AMOUNT_OF_MOVES: u128 = 25;
pub const AVERAGE_BRANCHING_FACTOR: u128 = 5;
pub const NULL_MOVE_DEPTH_REDUCTION: u16 = 3;
/// Beyond this ply the search stops and scores the position as it stands.
pub const MAX_SEARCH_PLY: u16 = 32767;

/// A score that can be negated: any `i16` but the lowest.
pub open spec fn score_ok(score: i16) -> bool {
    -32767 <= score
}

/// `rand::random_range`: a number drawn from `0..n` by the thread-local
/// generator, which the crate's documentation promises to lie in that
/// range (it panics on an empty range). Which number comes out depends on
/// chance.
#[verifier::external_body]
fn random_index(n: usize) -> (r: usize)
    requires
        n > 0,
    ensures
        r < n,
{
    rand::random_range(0..n)
}

pub struct Search {
    pub nodes: u64,
    pub zobrist_key_history: Vec<ZobristKey>,
    /// When the search must stop: a flag anyone may raise, and a time limit.
    pub stop: StopSignal,
    pub transposition_table: TranspositionTable,
    pub killer_moves: KillerMoves,
}

/// The empty move with the given score.
pub open spec fn is_blank(r: ScoringMove, score: int) -> bool {
    r.bit_move == BitMove(EMPTY) && r.score == score
}

/// The static score of the position for the side to move, or 0 where
/// summing it leaves the range of `i16`.
pub open spec fn static_value(p: Position) -> int {
    if crate::eval_position::score_fits(p) {
        crate::eval_position::side_score(p)
    } else {
        0
    }
}

/// What a quiescence search of `p` between `alpha` and `beta` hands back
/// when no stop came: `beta` with the empty move when the static score
/// reaches `beta`; otherwise the larger of `alpha` and the static score with
/// the empty move, or a legal capture scoring above it.
pub open spec fn quiescence_result(p: Position, alpha: i16, beta: i16, r: ScoringMove) -> bool {
    let eval = static_value(p);
    let stand = if eval > alpha { eval } else { alpha as int };
    if eval >= beta {
        is_blank(r, beta as int)
    } else {
        ||| r.bit_move == BitMove(EMPTY) && r.score == stand
        ||| is_legal_move(p, r.bit_move) && r.bit_move@.capture != PieceType::NoPiece && r.score > stand
    }
}

/// The stored result may end the search of a node to `depth` plies
/// between `alpha` and `beta`: it comes from a search at least as deep and
/// is exact, or a lower bound reaching `beta`, or an upper bound at most `alpha`.
pub open spec fn tt_cutoff(e: TTData, depth: u16, alpha: i16, beta: i16) -> bool {
    &&& e.depth >= depth
    &&& match e.node_type {
        TTNodeType::Exact => true,
        TTNodeType::LowerBound => e.best_move.score >= beta,
        TTNodeType::UpperBound => e.best_move.score <= alpha,
    }
}

/// The side to move has a legal move.
pub open spec fn has_legal_move(p: Position) -> bool {
    exists|m: BitMove| #[trigger] is_legal_move(p, m)
}

/// The search of `p` to `depth` plies first tries passing the move: the
/// side to move is not in check, the depth is above the reduction and the
/// position is not the root of the game.
pub open spec fn null_move_tried(p: Position, depth: u16) -> bool {
    !p.spec_in_check(p.side) && depth > NULL_MOVE_DEPTH_REDUCTION && p.ply > 0
}

/// The best of the searched moves, each with the score it earned, taken in
/// order with a fail-hard window: the empty move at `alpha` to begin with,
/// and a move replaces the best so far when it scores higher.
pub open spec fn best_of(alpha: i16, searched: Seq<(BitMove, i16)>) -> ScoringMove
    decreases searched.len(),
{
    if searched.len() == 0 {
        ScoringMove { bit_move: BitMove(EMPTY), score: alpha }
    } else {
        let best = best_of(alpha, searched.drop_last());
        if searched.last().1 > best.score {
            ScoringMove { bit_move: searched.last().0, score: searched.last().1 }
        } else {
            best
        }
    }
}

/// The best of the searched moves scores at least `alpha` and at least every
/// searched move; it is the empty move at `alpha` or one of the searched
/// moves, with the score it earned, above `alpha`.
pub proof fn law_best_of_is_best(alpha: i16, searched: Seq<(BitMove, i16)>)
    ensures
        best_of(alpha, searched).score >= alpha,
        forall|k: int| 0 <= k < searched.len() ==> best_of(alpha, searched).score >= (#[trigger] searched[k]).1,
        is_blank(best_of(alpha, searched), alpha as int) || exists|k: int|
            0 <= k < searched.len() && (#[trigger] searched[k]).0 == best_of(alpha, searched).bit_move
                && searched[k].1 == best_of(alpha, searched).score && searched[k].1 > alpha,
    decreases searched.len(),
{
    if searched.len() > 0 {
        let rest = searched.drop_last();
        law_best_of_is_best(alpha, rest);
        assert forall|k: int| 0 <= k < searched.len() implies best_of(alpha, searched).score >= (
        #[trigger] searched[k]).1 by {
            if k < rest.len() {
                assert(searched[k] == rest[k]);
            }
        }
        if !is_blank(best_of(alpha, searched), alpha as int) {
            if searched.last().1 > best_of(alpha, rest).score {
                assert(searched[searched.len() - 1].0 == best_of(alpha, searched).bit_move);
            } else {
                let k = choose|k: int|
                    0 <= k < rest.len() && (#[trigger] rest[k]).0 == best_of(alpha, rest).bit_move
                        && rest[k].1 == best_of(alpha, rest).score && rest[k].1 > alpha;
                assert(searched[k] == rest[k]);
            }
        }
    }
}

/// The last searched move raised the best score to `beta` or above, which
/// ends the search of the position.
pub open spec fn ends_in_cutoff(alpha: i16, beta: i16, searched: Seq<(BitMove, i16)>) -> bool {
    &&& searched.len() > 0
    &&& searched.last().1 > best_of(alpha, searched.drop_last()).score
    &&& searched.last().1 >= beta
}

/// No searched move but the last ended the search.
pub open spec fn no_early_cutoff(alpha: i16, beta: i16, searched: Seq<(BitMove, i16)>) -> bool
    decreases searched.len(),
{
    searched.len() <= 1 || (no_early_cutoff(alpha, beta, searched.drop_last()) && !ends_in_cutoff(
        alpha,
        beta,
        searched.drop_last(),
    ))
}

/// `searched` lists legal moves of `p` in the order they were searched, each
/// with the negated score of the reply search: the search went on until a
/// move reached `beta`, and where none did, every legal move was searched.
pub open spec fn searched_in_order(p: Position, alpha: i16, beta: i16, searched: Seq<(BitMove, i16)>) -> bool {
    &&& forall|k: int| 0 <= k < searched.len() ==> is_legal_move(p, (#[trigger] searched[k]).0)
    &&& no_early_cutoff(alpha, beta, searched)
    &&& !ends_in_cutoff(alpha, beta, searched) ==> forall|m: BitMove|
        #[trigger] is_legal_move(p, m) ==> exists|k: int| 0 <= k < searched.len() && (#[trigger] searched[k]).0 == m
}

/// The ordering bonus of `m` in `p`: 10000, 4000 or 3000 when the table's
/// entry for `p` holds `m` as an exact score, a lower bound or an upper
/// bound; and 2000 when `m` is the latest killer move of the ply, else 1000
/// when it is the one before.
pub open spec fn order_bonus(tt: TranspositionTable, killers: KillerMoves, p: Position, m: BitMove) -> int {
    let tt_bonus = match tt.lookup(p.zobrist_key) {
        Some(e) => if e.best_move.bit_move == m {
            match e.node_type {
                TTNodeType::Exact => 10000int,
                TTNodeType::LowerBound => 4000int,
                TTNodeType::UpperBound => 3000int,
            }
        } else {
            0int
        },
        None => 0int,
    };
    let killer_bonus = if p.ply < MAX_DEPTH && killers.primaries()[p.ply as int] == m {
        2000int
    } else if p.ply < MAX_DEPTH && killers.secondaries()[p.ply as int] == m {
        1000int
    } else {
        0int
    };
    tt_bonus + killer_bonus
}

/// A generated move with its ordering bonus added to its score, which stops
/// at the highest `i16`.
pub open spec fn with_bonus(tt: TranspositionTable, killers: KillerMoves, p: Position, e: ScoringMove) -> ScoringMove {
    let total = e.score + order_bonus(tt, killers, p, e.bit_move);
    ScoringMove { bit_move: e.bit_move, score: if total > i16::MAX { i16::MAX } else { total as i16 } }
}

/// How the search of a position went: the moves searched in order with
/// their scores and, for each, the table its reply search began with, the
/// reply and how the reply search went in turn.
pub struct SearchTrace {
    pub searched: Seq<(BitMove, i16)>,
    pub tables: Seq<TranspositionTable>,
    pub replies: Seq<ScoringMove>,
    pub children: Seq<SearchTrace>,
}

/// A trace of a search that searched no move.
pub open spec fn empty_trace() -> SearchTrace {
    SearchTrace { searched: Seq::empty(), tables: Seq::empty(), replies: Seq::empty(), children: Seq::empty() }
}

/// The position the search of `p` goes on to after the move `m`: the board
/// after the move, one ply later, with the hash that the move leaves.
pub open spec fn child(p: Position, m: BitMove) -> Position {
    Position { zobrist_key: ZobristKey(p.key_after_move(m@)), ..succ(p, m) }
}

/// The depth to which the replies in `p` are searched: one ply less, or as
/// deep where the side to move is in check.
pub open spec fn reply_depth(p: Position, depth: u16) -> u16 {
    if p.spec_in_check(p.side) {
        depth
    } else {
        (depth - 1) as u16
    }
}

/// What a negamax search of `p` to `depth` plies between `alpha` and
/// `beta` hands back when no stop came, with the table `tt` and the path
/// `history` it began with, the search going as `w` records: a draw for a
/// position on the path; at depth 0 the quiescence result, which lies in
/// the window as the quiescence value demands; the static score where the
/// search cannot go on; the stored move where the table ends the search;
/// mate or stalemate without legal moves; otherwise the best of the legal
/// moves searched in order until one reaches `beta`, or all of them, each
/// scored by minus the result of searching the position it leads to
/// between minus `beta` and minus the best score before it (the empty move
/// at `alpha` where none scores above it). Where a null move is tried, it
/// may also end the search with `beta`.
pub open spec fn negamax_explained(
    p: Position,
    tt: TranspositionTable,
    history: Seq<ZobristKey>,
    alpha: i16,
    beta: i16,
    depth: u16,
    r: ScoringMove,
    w: SearchTrace,
) -> bool
    decreases MAX_SEARCH_PLY - p.ply, 1int, 0int,
{
    if history.contains(p.zobrist_key) {
        is_blank(r, DRAW_BY_REPETITION as int)
    } else if depth == 0 {
        &&& quiescence_result(p, alpha, beta, r)
        &&& alpha < beta ==> window_result(alpha as int, beta as int, r.score as int, qvalue(p))
    } else if p.ply >= MAX_SEARCH_PLY || !p.has_kings() {
        r.bit_move == BitMove(EMPTY) && r.score == static_value(p)
    } else if tt.lookup(p.zobrist_key) is Some && tt_cutoff(tt.lookup(p.zobrist_key)->0, depth, alpha, beta) {
        r == tt.lookup(p.zobrist_key)->0.best_move
    } else if !has_legal_move(p) {
        if p.spec_in_check(p.side) {
            r.bit_move == BitMove(EMPTY) && r.score == -CHECKMATE + p.ply
        } else {
            is_blank(r, DRAW_BY_STALEMATE as int) || (null_move_tried(p, depth) && is_blank(r, beta as int))
        }
    } else {
        ||| null_move_tried(p, depth) && is_blank(r, beta as int)
        ||| {
            &&& searched_in_order(p, alpha, beta, w.searched)
            &&& r == best_of(alpha, w.searched)
            &&& w.tables.len() == w.searched.len()
            &&& w.replies.len() == w.searched.len()
            &&& w.children.len() == w.searched.len()
            &&& replies_explained(p, history, alpha, beta, depth, w, w.searched.len())
        }
    }
}

/// The first `n` searched moves of `w` each scored minus the result of
/// searching the position it leads to, with `p` on the path, to the reply
/// depth, between minus `beta` and minus the best score before it.
pub open spec fn replies_explained(
    p: Position,
    history: Seq<ZobristKey>,
    alpha: i16,
    beta: i16,
    depth: u16,
    w: SearchTrace,
    n: nat,
) -> bool
    decreases MAX_SEARCH_PLY - p.ply, 0int, n,
{
    if n == 0 {
        true
    } else {
        let k = n - 1;
        &&& replies_explained(p, history, alpha, beta, depth, w, (n - 1) as nat)
        &&& p.ply < MAX_SEARCH_PLY
        &&& negamax_explained(
            child(p, w.searched[k].0),
            w.tables[k],
            history.push(p.zobrist_key),
            (-beta) as i16,
            (-best_of(alpha, w.searched.take(k)).score) as i16,
            reply_depth(p, depth),
            w.replies[k],
            w.children[k],
        )
        &&& w.searched[k].1 == -w.replies[k].score
    }
}

/// A search that went as `w` records is what a negamax search hands back.
pub proof fn lemma_explained_result(
    p: Position,
    tt: TranspositionTable,
    history: Seq<ZobristKey>,
    alpha: i16,
    beta: i16,
    depth: u16,
    r: ScoringMove,
    w: SearchTrace,
)
    requires
        negamax_explained(p, tt, history, alpha, beta, depth, r, w),
    ensures
        negamax_result(p, tt, history, alpha, beta, depth, r),
{
}

/// `w` with one more searched move, scored `score`, whose reply search began
/// with the table `tt`, answered `reply` and went as `cw`.
pub open spec fn extend_trace(
    w: SearchTrace,
    m: BitMove,
    score: i16,
    tt: TranspositionTable,
    reply: ScoringMove,
    cw: SearchTrace,
) -> SearchTrace {
    SearchTrace {
        searched: w.searched.push((m, score)),
        tables: w.tables.push(tt),
        replies: w.replies.push(reply),
        children: w.children.push(cw),
    }
}

/// The lengths of the parts of a trace agree.
pub open spec fn trace_lengths(w: SearchTrace) -> bool {
    &&& w.tables.len() == w.searched.len()
    &&& w.replies.len() == w.searched.len()
    &&& w.children.len() == w.searched.len()
}

proof fn lemma_replies_prefix(
    p: Position,
    history: Seq<ZobristKey>,
    alpha: i16,
    beta: i16,
    depth: u16,
    w: SearchTrace,
    w2: SearchTrace,
    n: nat,
)
    requires
        trace_lengths(w),
        trace_lengths(w2),
        n <= w.searched.len(),
        n <= w2.searched.len(),
        forall|k: int| 0 <= k < n ==> #[trigger] w2.searched[k] == w.searched[k] && w2.tables[k] == w.tables[k]
            && w2.replies[k] == w.replies[k] && w2.children[k] == w.children[k],
    ensures
        replies_explained(p, history, alpha, beta, depth, w2, n) == replies_explained(p, history, alpha, beta, depth, w, n),
    decreases n,
{
    if n > 0 {
        lemma_replies_prefix(p, history, alpha, beta, depth, w, w2, (n - 1) as nat);
        let k = n - 1;
        assert(w2.searched.take(k) =~= w.searched.take(k)) by {
            assert forall|j: int| 0 <= j < k implies w2.searched.take(k)[j] == w.searched.take(k)[j] by {
                assert(w2.searched[j] == w.searched[j]);
            }
        }
        assert(w2.searched[k] == w.searched[k]);
    }
}

/// Appending a move searched with the window the search uses, scored by
/// minus its reply, keeps every searched move explained by its reply.
proof fn lemma_replies_extend(
    p: Position,
    history: Seq<ZobristKey>,
    alpha: i16,
    beta: i16,
    depth: u16,
    w: SearchTrace,
    m: BitMove,
    tt: TranspositionTable,
    reply: ScoringMove,
    cw: SearchTrace,
)
    requires
        trace_lengths(w),
        replies_explained(p, history, alpha, beta, depth, w, w.searched.len()),
        p.ply < MAX_SEARCH_PLY,
        negamax_explained(
            child(p, m),
            tt,
            history.push(p.zobrist_key),
            (-beta) as i16,
            (-best_of(alpha, w.searched).score) as i16,
            reply_depth(p, depth),
            reply,
            cw,
        ),
        -32768 < reply.score,
    ensures
        trace_lengths(extend_trace(w, m, (-reply.score) as i16, tt, reply, cw)),
        replies_explained(
            p,
            history,
            alpha,
            beta,
            depth,
            extend_trace(w, m, (-reply.score) as i16, tt, reply, cw),
            w.searched.len() + 1,
        ),
{
    let e = extend_trace(w, m, (-reply.score) as i16, tt, reply, cw);
    let n = w.searched.len();
    assert forall|k: int| 0 <= k < n implies #[trigger] e.searched[k] == w.searched[k] && e.tables[k] == w.tables[k]
        && e.replies[k] == w.replies[k] && e.children[k] == w.children[k] by {}
    lemma_replies_prefix(p, history, alpha, beta, depth, w, e, n);
    assert(e.searched.take(n as int) =~= w.searched);
    assert(e.searched[n as int] == (m, (-reply.score) as i16));
    assert(e.tables[n as int] == tt);
    assert(e.replies[n as int] == reply);
    assert(e.children[n as int] == cw);
}

/// What a negamax search hands back when no stop came: what some way of
/// searching explains (see `negamax_explained`).
pub open spec fn negamax_result(
    p: Position,
    tt: TranspositionTable,
    history: Seq<ZobristKey>,
    alpha: i16,
    beta: i16,
    depth: u16,
    r: ScoringMove,
) -> bool {
    exists|w: SearchTrace| #[trigger] negamax_explained(p, tt, history, alpha, beta, depth, r, w)
}

/// The value of the legal move `m` of `p` for a search one ply deep: minus
/// the quiescence value of the position it leads to; no value for a move
/// that is not legal.
pub open spec fn reply_value(p: Position, m: BitMove) -> int {
    if is_legal_move(p, m) {
        -qvalue(child(p, m))
    } else {
        no_move_value()
    }
}

/// Minus the quiescence value of the position each move of `p` leads to.
pub open spec fn reply_q(p: Position) -> spec_fn(BitMove) -> int {
    |m: BitMove| -qvalue(child(p, m))
}

/// The largest value of the moves `s` of `p`, or no value.
pub open spec fn replies_max(p: Position, s: Seq<BitMove>) -> int
    decreases s.len(),
{
    if s.len() == 0 {
        no_move_value()
    } else {
        let rest = replies_max(p, s.drop_last());
        let last = reply_value(p, s.last());
        if last >= rest {
            last
        } else {
            rest
        }
    }
}

/// The one-ply alpha-beta value of `p`: the largest, over its legal moves,
/// of minus the quiescence value of the position the move leads to.
pub open spec fn one_ply_value(p: Position) -> int {
    replies_max(p, pseudo_legal_moves(p))
}

proof fn lemma_replies_max_bounds(p: Position, s: Seq<BitMove>)
    ensures
        forall|i: int| 0 <= i < s.len() ==> reply_value(p, #[trigger] s[i]) <= replies_max(p, s),
        replies_max(p, s) == no_move_value() || exists|i: int|
            0 <= i < s.len() && is_legal_move(p, s[i]) && replies_max(p, s) == reply_value(p, #[trigger] s[i]),
    decreases s.len(),
{
    if s.len() > 0 {
        lemma_replies_max_bounds(p, s.drop_last());
        assert forall|i: int| 0 <= i < s.len() implies reply_value(p, #[trigger] s[i]) <= replies_max(p, s) by {
            if i < s.len() - 1 {
                assert(s[i] == s.drop_last()[i]);
            }
        }
        if replies_max(p, s) != no_move_value() {
            if reply_value(p, s.last()) >= replies_max(p, s.drop_last()) {
                assert(reply_value(p, s[s.len() - 1]) == replies_max(p, s));
            } else {
                let i = choose|i: int|
                    0 <= i < s.drop_last().len() && is_legal_move(p, s.drop_last()[i]) && replies_max(p, s.drop_last())
                        == reply_value(p, #[trigger] s.drop_last()[i]);
                assert(s[i] == s.drop_last()[i]);
            }
        }
    }
}

proof fn lemma_static_value_bounds(p: Position)
    ensures
        -32767 <= static_value(p) <= 32767,
{
    if crate::eval_position::score_fits(p) {
        assert(-32768 <= crate::eval_position::score_upto(p, 64) <= 32767);
    }
}

proof fn lemma_qvalue_upper(q: Position)
    ensures
        qvalue(q) <= 32767,
{
    lemma_static_value_bounds(q);
    if !(q.ply >= MAX_SEARCH_PLY || !q.has_kings()) {
        let s = pseudo_legal_moves(q);
        lemma_q_moves_max_bounds(q, s);
        if q_moves_max(q, s) != no_move_value() {
            let i = choose|i: int| 0 <= i < s.len() && q_moves_max(q, s) == q_move_value(q, #[trigger] s[i]);
            let m = s[i];
            if !(q.ply >= MAX_SEARCH_PLY || !is_legal(q, m) || m@.capture == PieceType::NoPiece) {
                lemma_static_value_bounds(succ(q, m));
            }
        }
    }
}

/// Before the search stops, the best score stays below `beta`.
proof fn lemma_below_beta(alpha: i16, beta: i16, searched: Seq<(BitMove, i16)>)
    requires
        alpha < beta,
        no_early_cutoff(alpha, beta, searched),
    ensures
        forall|k: int| 0 <= k < searched.len() ==> #[trigger] best_of(alpha, searched.take(k)).score < beta,
    decreases searched.len(),
{
    let n = searched.len();
    if n > 0 {
        let d = searched.drop_last();
        if n >= 2 {
            lemma_below_beta(alpha, beta, d);
        }
        assert forall|k: int| 0 <= k < n implies #[trigger] best_of(alpha, searched.take(k)).score < beta by {
            if k < n - 1 {
                assert(searched.take(k) =~= d.take(k));
            } else {
                assert(searched.take(k) =~= d);
                if d.len() > 0 {
                    assert(d.take(d.len() - 1) =~= d.drop_last());
                    assert(best_of(alpha, d.take(d.len() - 1)).score < beta);
                }
            }
        }
    }
}

/// Alpha-beta over searched moves whose scores lie in their windows as the
/// values `v` of the moves demand: the best score is at least `alpha`;
/// below `beta` it bounds every searched value and, above `alpha`, is one
/// of them; at `beta` or above some searched value reaches it.
proof fn lemma_fold_window(alpha: i16, beta: i16, searched: Seq<(BitMove, i16)>, v: spec_fn(BitMove) -> int)
    requires
        alpha < beta,
        no_early_cutoff(alpha, beta, searched),
        forall|k: int|
            0 <= k < searched.len() ==> window_result(
                -beta,
                -best_of(alpha, #[trigger] searched.take(k)).score,
                -searched[k].1,
                -v(searched[k].0),
            ),
    ensures
        best_of(alpha, searched).score >= alpha,
        best_of(alpha, searched).score < beta ==> forall|k: int|
            0 <= k < searched.len() ==> v((#[trigger] searched[k]).0) <= best_of(alpha, searched).score,
        alpha < best_of(alpha, searched).score < beta ==> exists|k: int|
            0 <= k < searched.len() && v((#[trigger] searched[k]).0) == best_of(alpha, searched).score,
        alpha < best_of(alpha, searched).score < beta ==> v(best_of(alpha, searched).bit_move) == best_of(
            alpha,
            searched,
        ).score,
        best_of(alpha, searched).score >= beta ==> exists|k: int|
            0 <= k < searched.len() && v((#[trigger] searched[k]).0) >= best_of(alpha, searched).score,
        best_of(alpha, searched).score >= beta <==> ends_in_cutoff(alpha, beta, searched),
    decreases searched.len(),
{
    let n = searched.len();
    lemma_below_beta(alpha, beta, searched);
    if n > 0 {
        let d = searched.drop_last();
        assert forall|k: int| 0 <= k < d.len() implies window_result(
            -beta,
            -best_of(alpha, #[trigger] d.take(k)).score,
            -d[k].1,
            -v(d[k].0),
        ) by {
            assert(d.take(k) =~= searched.take(k));
            assert(d[k] == searched[k]);
        }
        lemma_fold_window(alpha, beta, d, v);
        assert(searched.take(n - 1) =~= d);
        assert(best_of(alpha, searched.take(n - 1)).score < beta);
        let x = searched[n - 1];
        assert(window_result(-beta, -best_of(alpha, searched.take(n - 1)).score, -x.1, -v(x.0)));
        assert forall|k: int| 0 <= k < n - 1 implies #[trigger] searched[k] == d[k] by {}
        if best_of(alpha, d).score < beta {
            assert forall|k: int| 0 <= k < n - 1 implies v((#[trigger] searched[k]).0) <= best_of(alpha, d).score by {
                assert(searched[k] == d[k]);
            }
        }
        if alpha < best_of(alpha, d).score && best_of(alpha, d).score < beta {
            let k = choose|k: int| 0 <= k < d.len() && v((#[trigger] d[k]).0) == best_of(alpha, d).score;
            assert(searched[k] == d[k]);
        }
    }
}

/// Extracting the explanation of the `k`-th searched move.
proof fn lemma_replies_at(
    p: Position,
    history: Seq<ZobristKey>,
    alpha: i16,
    beta: i16,
    depth: u16,
    w: SearchTrace,
    n: nat,
    k: int,
)
    requires
        replies_explained(p, history, alpha, beta, depth, w, n),
        0 <= k < n,
    ensures
        negamax_explained(
            child(p, w.searched[k].0),
            w.tables[k],
            history.push(p.zobrist_key),
            (-beta) as i16,
            (-best_of(alpha, w.searched.take(k)).score) as i16,
            reply_depth(p, depth),
            w.replies[k],
            w.children[k],
        ),
        w.searched[k].1 == -w.replies[k].score,
    decreases n,
{
    if k < n - 1 {
        lemma_replies_at(p, history, alpha, beta, depth, w, (n - 1) as nat, k);
    }
}

/// Where no early case applies and no null move is tried, the search of
/// `p` went through its legal moves as the trace records.
proof fn lemma_general_case(
    p: Position,
    tt: TranspositionTable,
    history: Seq<ZobristKey>,
    alpha: i16,
    beta: i16,
    depth: u16,
    r: ScoringMove,
    w: SearchTrace,
)
    requires
        negamax_explained(p, tt, history, alpha, beta, depth, r, w),
        depth > 0,
        !history.contains(p.zobrist_key),
        p.ply < MAX_SEARCH_PLY,
        p.has_kings(),
        !(tt.lookup(p.zobrist_key) is Some && tt_cutoff(tt.lookup(p.zobrist_key)->0, depth, alpha, beta)),
        has_legal_move(p),
        !null_move_tried(p, depth),
    ensures
        searched_in_order(p, alpha, beta, w.searched),
        r == best_of(alpha, w.searched),
        trace_lengths(w),
        replies_explained(p, history, alpha, beta, depth, w, w.searched.len()),
{
}

/// In a search one ply deep out of check, each searched move's score lies
/// in its window as minus the quiescence value of its position demands.
proof fn lemma_one_ply_entries(
    p: Position,
    history: Seq<ZobristKey>,
    alpha: i16,
    beta: i16,
    w: SearchTrace,
)
    requires
        replies_explained(p, history, alpha, beta, 1, w, w.searched.len()),
        forall|k: int| 0 <= k < w.searched.len() ==> is_legal_move(p, (#[trigger] w.searched[k]).0),
        no_early_cutoff(alpha, beta, w.searched),
        alpha < beta,
        score_ok(alpha),
        score_ok(beta),
        !p.spec_in_check(p.side),
        forall|m: BitMove| #[trigger] is_legal_move(p, m) ==> !history.push(p.zobrist_key).contains(child(p, m).zobrist_key),
    ensures
        forall|k: int|
            0 <= k < w.searched.len() ==> window_result(
                -beta,
                -best_of(alpha, #[trigger] w.searched.take(k)).score,
                -w.searched[k].1,
                -reply_q(p)(w.searched[k].0),
            ),
{
    let sd = w.searched;
    lemma_below_beta(alpha, beta, sd);
    assert forall|k: int|
        0 <= k < sd.len() implies window_result(
            -beta,
            -best_of(alpha, #[trigger] sd.take(k)).score,
            -sd[k].1,
            -reply_q(p)(sd[k].0),
        ) by {
        lemma_replies_at(p, history, alpha, beta, 1, w, sd.len(), k);
        assert(is_legal_move(p, sd[k].0));
        let b = best_of(alpha, sd.take(k)).score;
        assert(b < beta);
        law_best_of_is_best(alpha, sd.take(k));
        assert(b >= alpha);
        assert(reply_depth(p, 1) == 0);
        assert(((-beta) as i16) as int == -beta);
        assert(((-b) as i16) as int == -b);
        assert(!history.push(p.zobrist_key).contains(child(p, sd[k].0).zobrist_key));
        assert(w.replies[k].score == -sd[k].1);
    }
}

/// A search one ply deep is alpha-beta over the quiescence values of the
/// positions the legal moves lead to: out of check, without a table
/// cut-off and with no reply position on the path, its score lies in the
/// window as the one-ply value demands (between `alpha` and `beta` it is
/// that value), and a score above `alpha` comes with a legal move whose
/// own value it is.
#[verifier::rlimit(40)]
#[verifier::spinoff_prover]
pub proof fn law_negamax_one_ply(
    p: Position,
    tt: TranspositionTable,
    history: Seq<ZobristKey>,
    alpha: i16,
    beta: i16,
    r: ScoringMove,
)
    requires
        negamax_result(p, tt, history, alpha, beta, 1, r),
        score_ok(alpha),
        score_ok(beta),
        alpha < beta,
        !history.contains(p.zobrist_key),
        p.ply < MAX_SEARCH_PLY,
        p.has_kings(),
        !(tt.lookup(p.zobrist_key) is Some && tt_cutoff(tt.lookup(p.zobrist_key)->0, 1, alpha, beta)),
        has_legal_move(p),
        !p.spec_in_check(p.side),
        forall|m: BitMove| #[trigger] is_legal_move(p, m) ==> !history.push(p.zobrist_key).contains(child(p, m).zobrist_key),
    ensures
        window_result(alpha as int, beta as int, r.score as int, one_ply_value(p)),
        alpha < r.score < beta ==> is_legal_move(p, r.bit_move) && reply_value(p, r.bit_move) == r.score,
{
    let w = choose|w: SearchTrace| #[trigger] negamax_explained(p, tt, history, alpha, beta, 1, r, w);
    lemma_general_case(p, tt, history, alpha, beta, 1, r, w);
    let sd = w.searched;
    lemma_one_ply_entries(p, history, alpha, beta, w);
    lemma_fold_window(alpha, beta, sd, reply_q(p));
    lemma_one_ply_combine(p, alpha, beta, sd, r);
}

/// Putting the window facts of the searched moves together with the
/// one-ply value.
#[verifier::rlimit(40)]
#[verifier::spinoff_prover]
proof fn lemma_one_ply_combine(p: Position, alpha: i16, beta: i16, sd: Seq<(BitMove, i16)>, r: ScoringMove)
    requires
        alpha < beta,
        searched_in_order(p, alpha, beta, sd),
        r == best_of(alpha, sd),
        r.score >= alpha,
        r.score < beta ==> forall|k: int| 0 <= k < sd.len() ==> -qvalue(child(p, (#[trigger] sd[k]).0)) <= r.score,
        alpha < r.score < beta ==> exists|k: int| 0 <= k < sd.len() && -qvalue(child(p, (#[trigger] sd[k]).0)) == r.score,
        alpha < r.score < beta ==> -qvalue(child(p, r.bit_move)) == r.score,
        r.score >= beta ==> exists|k: int| 0 <= k < sd.len() && -qvalue(child(p, (#[trigger] sd[k]).0)) >= r.score,
        r.score >= beta <==> ends_in_cutoff(alpha, beta, sd),
    ensures
        window_result(alpha as int, beta as int, r.score as int, one_ply_value(p)),
        alpha < r.score < beta ==> is_legal_move(p, r.bit_move) && reply_value(p, r.bit_move) == r.score,
{
    let f = r.score;
    let s = pseudo_legal_moves(p);
    lemma_pseudo_legal_moves(p);
    lemma_replies_max_bounds(p, s);
    let mm = one_ply_value(p);
    assert forall|m: BitMove| #[trigger] is_legal_move(p, m) implies reply_value(p, m) <= mm by {
        assert(s.contains(m));
        let i = choose|i: int| 0 <= i < s.len() && s[i] == m;
        assert(reply_value(p, s[i]) <= mm);
    }
    if f < beta {
        if mm != no_move_value() {
            let i = choose|i: int| 0 <= i < s.len() && is_legal_move(p, s[i]) && mm == reply_value(p, #[trigger] s[i]);
            let m = s[i];
            assert(is_legal_move(p, m));
            let k = choose|k: int| 0 <= k < sd.len() && (#[trigger] sd[k]).0 == m;
            assert(-qvalue(child(p, sd[k].0)) <= f);
        }
    }
    if alpha < f && f < beta {
        let k = choose|k: int| 0 <= k < sd.len() && -qvalue(child(p, (#[trigger] sd[k]).0)) == f;
        assert(is_legal_move(p, sd[k].0));
        assert(reply_value(p, sd[k].0) <= mm);
        law_best_of_is_best(alpha, sd);
        let j = choose|j: int|
            0 <= j < sd.len() && (#[trigger] sd[j]).0 == best_of(alpha, sd).bit_move && sd[j].1 == best_of(alpha, sd).score
                && sd[j].1 > alpha;
        assert(is_legal_move(p, sd[j].0));
    }
    if f >= beta {
        let k = choose|k: int| 0 <= k < sd.len() && -qvalue(child(p, (#[trigger] sd[k]).0)) >= f;
        assert(is_legal_move(p, sd[k].0));
        assert(reply_value(p, sd[k].0) <= mm);
    }
}

/// What a minimax search of `p` to `depth` plies hands back when no stop
/// came: the static score at depth 0 or without both kings, mate or
/// stalemate without legal moves, and otherwise a legal move.
pub open spec fn minimax_result(p: Position, depth: u16, r: ScoringMove) -> bool {
    if depth == 0 || !p.has_kings() {
        r.bit_move == BitMove(EMPTY) && r.score == static_value(p)
    } else if !has_legal_move(p) {
        r.bit_move == BitMove(EMPTY) && r.score == if p.spec_in_check(p.side) {
            -CHECKMATE as int
        } else {
            DRAW_BY_STALEMATE as int
        }
    } else {
        is_legal_move(p, r.bit_move)
    }
}

/// The table holds for `p` the move `m`, which is not empty and is legal
/// in `p`, a position with both kings.
pub open spec fn tt_move_playable(tt: TranspositionTable, p: Position, m: BitMove) -> bool {
    &&& tt.lookup(p.zobrist_key) matches Some(d)
    &&& tt.lookup(p.zobrist_key)->0.best_move.bit_move == m
    &&& m != BitMove(EMPTY)
    &&& p.has_kings()
    &&& is_legal_move(p, m)
}

/// One step of a principal variation: the table's move for `p`, played,
/// leads to `q`.
pub open spec fn pv_step(tt: TranspositionTable, p: Position, m: BitMove, q: Position) -> bool {
    tt_move_playable(tt, p, m) && p.is_successor(m@, q)
}

/// `ps` are the positions along `moves` from `ps[0]`, each move being the
/// table's move for the position before it.
pub open spec fn pv_chain(tt: TranspositionTable, ps: Seq<Position>, moves: Seq<BitMove>) -> bool {
    &&& ps.len() == moves.len() + 1
    &&& forall|k: int| 0 <= k < moves.len() ==> #[trigger] pv_step(tt, ps[k], moves[k], ps[k + 1])
}

/// What iterative deepening to `depth` plies hands back: one report per
/// finished iteration, for depths 1, 2 and so on; the move of the last
/// report unless it is empty; and, where no iteration found a move, a
/// random legal move with score 0 if there is one. The empty move comes
/// back only where there is no legal move.
pub open spec fn iterations_result(p: Position, depth: u16, best: ScoringMove, reports: Seq<IterationReport>) -> bool {
    &&& forall|k: int| 0 <= k < reports.len() ==> (#[trigger] reports[k]).depth == k + 1
    &&& reports.len() > 0 && reports.last().best_move.bit_move != BitMove(EMPTY) ==> best == reports.last().best_move
    &&& (reports.len() == 0 || reports.last().best_move.bit_move == BitMove(EMPTY)) ==> best.score == 0 && (
    is_legal_move(p, best.bit_move) <==> has_legal_move(p))
    &&& best.bit_move == BitMove(EMPTY) ==> !has_legal_move(p)
}

/// Below every score: the value of no move.
pub open spec fn no_move_value() -> int {
    -100000
}

/// The minimax value, for the side to move in `p`, of the pseudo-legal
/// move `m` searched to `d` plies: minus the value of the position it leads
/// to, or no value for a move that is not legal.
pub open spec fn move_value(p: Position, d: nat, m: BitMove) -> int
    decreases d, 0nat,
{
    if d == 0 || !is_legal(p, m) {
        no_move_value()
    } else {
        let q = p.play(m@);
        if d == 1 || !q.has_kings() {
            -static_value(q)
        } else {
            let best = moves_max(q, (d - 1) as nat, pseudo_legal_moves(q));
            if best == no_move_value() {
                if q.spec_in_check(q.side) {
                    CHECKMATE as int
                } else {
                    -(DRAW_BY_STALEMATE as int)
                }
            } else {
                -best
            }
        }
    }
}

/// The largest value of the moves `s` of `p` searched to `d` plies, or no
/// value when none is legal.
pub open spec fn moves_max(p: Position, d: nat, s: Seq<BitMove>) -> int
    decreases d, s.len() + 1,
{
    if s.len() == 0 {
        no_move_value()
    } else {
        let rest = moves_max(p, d, s.drop_last());
        let last = move_value(p, d, s.last());
        if last >= rest {
            last
        } else {
            rest
        }
    }
}

/// The minimax value of `p` to `d` plies for the side to move: the static
/// score at depth 0 or without both kings; mate or stalemate without legal
/// moves; otherwise the largest, over the legal moves, of minus the value
/// of the position each leads to.
pub open spec fn minimax_value(p: Position, d: nat) -> int {
    if d == 0 || !p.has_kings() {
        static_value(p)
    } else {
        let best = moves_max(p, d, pseudo_legal_moves(p));
        if best == no_move_value() {
            if p.spec_in_check(p.side) {
                -CHECKMATE as int
            } else {
                DRAW_BY_STALEMATE as int
            }
        } else {
            best
        }
    }
}

proof fn lemma_score_upto_same(p: Position, q: Position, n: nat)
    requires
        p.bbs == q.bbs,
    ensures
        crate::eval_position::score_upto(p, n) == crate::eval_position::score_upto(q, n),
    decreases n,
{
    if n > 0 {
        lemma_score_upto_same(p, q, (n - 1) as nat);
    }
}

/// Positions that agree on the board and the side have the same static score.
proof fn lemma_static_same(p: Position, q: Position)
    requires
        p.bbs == q.bbs,
        p.side == q.side,
    ensures
        static_value(p) == static_value(q),
{
    assert forall|n: nat| #[trigger] crate::eval_position::score_upto(p, n) == crate::eval_position::score_upto(q, n) by {
        lemma_score_upto_same(p, q, n);
    }
    assert(crate::eval_position::white_score(p) == crate::eval_position::white_score(q));
    if crate::eval_position::score_fits(p) {
        assert forall|n: nat| n <= 64 implies i16::MIN <= #[trigger] crate::eval_position::score_upto(q, n) <= i16::MAX by {
            lemma_score_upto_same(p, q, n);
        }
    }
    if crate::eval_position::score_fits(q) {
        assert forall|n: nat| n <= 64 implies i16::MIN <= #[trigger] crate::eval_position::score_upto(p, n) <= i16::MAX by {
            lemma_score_upto_same(p, q, n);
        }
    }
    assert(crate::eval_position::score_fits(p) == crate::eval_position::score_fits(q));
    assert(crate::eval_position::side_score(p) == crate::eval_position::side_score(q));
}

proof fn lemma_moves_max_same(p: Position, q: Position, d: nat, s: Seq<BitMove>)
    requires
        same_game(p, q),
        p.wf(),
        q.wf(),
    ensures
        moves_max(p, d, s) == moves_max(q, d, s),
    decreases d, s.len(),
{
    if s.len() > 0 {
        lemma_moves_max_same(p, q, d, s.drop_last());
        let m = s.last();
        lemma_play_same(p, q, m);
        if d >= 1 && is_legal(p, m) {
            let pp = p.play(m@);
            let qq = q.play(m@);
            lemma_static_same(pp, qq);
            pp.lemma_same_check(qq, pp.side);
            if d >= 2 {
                lemma_pseudo_legal_same(pp, qq);
                lemma_moves_max_same(pp, qq, (d - 1) as nat, pseudo_legal_moves(pp));
            }
            assert(move_value(p, d, m) == move_value(q, d, m));
        }
        assert(move_value(p, d, m) == move_value(q, d, m));
        assert(moves_max(p, d, s.drop_last()) == moves_max(q, d, s.drop_last()));
    }
}

/// Positions that agree on the game have the same minimax values.
pub proof fn lemma_minimax_same(p: Position, q: Position, d: nat)
    requires
        same_game(p, q),
        p.wf(),
        q.wf(),
    ensures
        minimax_value(p, d) == minimax_value(q, d),
{
    lemma_static_same(p, q);
    p.lemma_same_check(q, p.side);
    lemma_pseudo_legal_same(p, q);
    lemma_moves_max_same(p, q, d, pseudo_legal_moves(p));
}

/// The value of a legal move is minus the minimax value of the position it
/// leads to.
proof fn lemma_move_value(p: Position, d: nat, m: BitMove)
    requires
        d >= 1,
    ensures
        move_value(p, d, m) == if is_legal(p, m) {
            -minimax_value(p.play(m@), (d - 1) as nat)
        } else {
            no_move_value()
        },
{
}

/// The largest value over a list is the value of one of its moves, or no
/// value, and no move of the list has a larger value.
proof fn lemma_moves_max_bounds(p: Position, d: nat, s: Seq<BitMove>)
    ensures
        moves_max(p, d, s) >= no_move_value(),
        forall|i: int| 0 <= i < s.len() ==> move_value(p, d, #[trigger] s[i]) <= moves_max(p, d, s),
        moves_max(p, d, s) == no_move_value() || exists|i: int|
            0 <= i < s.len() && moves_max(p, d, s) == move_value(p, d, #[trigger] s[i]),
    decreases s.len(),
{
    if s.len() > 0 {
        lemma_moves_max_bounds(p, d, s.drop_last());
        assert forall|i: int| 0 <= i < s.len() implies move_value(p, d, #[trigger] s[i]) <= moves_max(p, d, s) by {
            if i < s.len() - 1 {
                assert(s[i] == s.drop_last()[i]);
            }
        }
        if moves_max(p, d, s.drop_last()) != no_move_value() && move_value(p, d, s.last()) < moves_max(
            p,
            d,
            s.drop_last(),
        ) {
            let i = choose|i: int|
                0 <= i < s.drop_last().len() && moves_max(p, d, s.drop_last()) == move_value(
                    p,
                    d,
                    #[trigger] s.drop_last()[i],
                );
            assert(s[i] == s.drop_last()[i]);
        }
    }
}

/// Lists holding the same legal moves have the same largest value.
proof fn lemma_moves_max_sets(p: Position, d: nat, s1: Seq<BitMove>, s2: Seq<BitMove>)
    requires
        d >= 1,
        forall|m: BitMove| is_legal(p, m) ==> (s1.contains(m) <==> s2.contains(m)),
    ensures
        moves_max(p, d, s1) == moves_max(p, d, s2),
{
    lemma_moves_max_bounds(p, d, s1);
    lemma_moves_max_bounds(p, d, s2);
    if moves_max(p, d, s1) != no_move_value() {
        let i = choose|i: int| 0 <= i < s1.len() && moves_max(p, d, s1) == move_value(p, d, #[trigger] s1[i]);
        assert(is_legal(p, s1[i]));
        assert(s1.contains(s1[i]));
        let j = choose|j: int| 0 <= j < s2.len() && s2[j] == s1[i];
        assert(move_value(p, d, s2[j]) <= moves_max(p, d, s2));
    }
    if moves_max(p, d, s2) != no_move_value() {
        let i = choose|i: int| 0 <= i < s2.len() && moves_max(p, d, s2) == move_value(p, d, #[trigger] s2[i]);
        assert(is_legal(p, s2[i]));
        assert(s2.contains(s2[i]));
        let j = choose|j: int| 0 <= j < s1.len() && s1[j] == s2[i];
        assert(move_value(p, d, s1[j]) <= moves_max(p, d, s1));
    }
}

/// The position that the legal move `m` of `p` leads to, one ply later.
pub open spec fn succ(p: Position, m: BitMove) -> Position {
    Position { ply: (p.ply + 1) as u16, ..p.play(m@) }
}

/// The value for the side to move in `p` of the capture `m` in a
/// quiescence search: minus the quiescence value of the position it leads
/// to, or no value for a move that is not a legal capture.
pub open spec fn q_move_value(p: Position, m: BitMove) -> int
    decreases MAX_SEARCH_PLY - p.ply, 0nat,
{
    if p.ply >= MAX_SEARCH_PLY || !is_legal(p, m) || m@.capture == PieceType::NoPiece {
        no_move_value()
    } else {
        let q = succ(p, m);
        if q.ply >= MAX_SEARCH_PLY || !q.has_kings() {
            -static_value(q)
        } else {
            let best = q_moves_max(q, pseudo_legal_moves(q));
            -(if best > static_value(q) {
                best
            } else {
                static_value(q)
            })
        }
    }
}

/// The largest capture value among the moves `s` of `p`, or no value.
pub open spec fn q_moves_max(p: Position, s: Seq<BitMove>) -> int
    decreases MAX_SEARCH_PLY - p.ply, s.len() + 1,
{
    if s.len() == 0 {
        no_move_value()
    } else {
        let rest = q_moves_max(p, s.drop_last());
        let last = q_move_value(p, s.last());
        if last >= rest {
            last
        } else {
            rest
        }
    }
}

/// The quiescence value of `p` for the side to move: the larger of its
/// static score and the values of its legal captures, each minus the
/// quiescence value of the position it leads to; the static score alone
/// from the ply limit on or without both kings.
pub open spec fn qvalue(p: Position) -> int {
    if p.ply >= MAX_SEARCH_PLY || !p.has_kings() {
        static_value(p)
    } else {
        let best = q_moves_max(p, pseudo_legal_moves(p));
        if best > static_value(p) {
            best
        } else {
            static_value(p)
        }
    }
}

/// What an alpha-beta search between `alpha` and `beta` promises of its
/// score `v` for a position of value `q`: `v` is at least `alpha`; at
/// `alpha` it shows that `q` is at most `alpha`; at `beta` or above it is
/// a lower bound of `q`; strictly between, it is `q`.
pub open spec fn window_result(alpha: int, beta: int, v: int, q: int) -> bool {
    &&& alpha <= v
    &&& v <= alpha ==> q <= alpha
    &&& v >= beta ==> q >= v
    &&& alpha < v < beta ==> v == q
}

proof fn lemma_q_moves_max_same(p: Position, q: Position, s: Seq<BitMove>)
    requires
        same_game(p, q),
        p.ply == q.ply,
        p.wf(),
        q.wf(),
    ensures
        q_moves_max(p, s) == q_moves_max(q, s),
    decreases MAX_SEARCH_PLY - p.ply, s.len(),
{
    if s.len() > 0 {
        lemma_q_moves_max_same(p, q, s.drop_last());
        let m = s.last();
        lemma_play_same(p, q, m);
        if p.ply < MAX_SEARCH_PLY && is_legal(p, m) && m@.capture != PieceType::NoPiece {
            let pp = succ(p, m);
            let qq = succ(q, m);
            lemma_static_same(pp, qq);
            if pp.ply < MAX_SEARCH_PLY {
                lemma_pseudo_legal_same(pp, qq);
                lemma_q_moves_max_same(pp, qq, pseudo_legal_moves(pp));
            }
            assert(q_move_value(p, m) == q_move_value(q, m));
        }
        assert(q_move_value(p, m) == q_move_value(q, m));
    }
}

/// Positions that agree on the game and the ply have the same quiescence value.
pub proof fn lemma_qvalue_same(p: Position, q: Position)
    requires
        same_game(p, q),
        p.ply == q.ply,
        p.wf(),
        q.wf(),
    ensures
        qvalue(p) == qvalue(q),
{
    lemma_static_same(p, q);
    lemma_pseudo_legal_same(p, q);
    lemma_q_moves_max_same(p, q, pseudo_legal_moves(p));
}

proof fn lemma_q_moves_max_bounds(p: Position, s: Seq<BitMove>)
    ensures
        q_moves_max(p, s) >= no_move_value(),
        forall|i: int| 0 <= i < s.len() ==> q_move_value(p, #[trigger] s[i]) <= q_moves_max(p, s),
        q_moves_max(p, s) == no_move_value() || exists|i: int|
            0 <= i < s.len() && q_moves_max(p, s) == q_move_value(p, #[trigger] s[i]),
    decreases s.len(),
{
    if s.len() > 0 {
        lemma_q_moves_max_bounds(p, s.drop_last());
        assert forall|i: int| 0 <= i < s.len() implies q_move_value(p, #[trigger] s[i]) <= q_moves_max(p, s) by {
            if i < s.len() - 1 {
                assert(s[i] == s.drop_last()[i]);
            }
        }
        if q_moves_max(p, s.drop_last()) != no_move_value() && q_move_value(p, s.last()) < q_moves_max(
            p,
            s.drop_last(),
        ) {
            let i = choose|i: int|
                0 <= i < s.drop_last().len() && q_moves_max(p, s.drop_last()) == q_move_value(
                    p,
                    #[trigger] s.drop_last()[i],
                );
            assert(s[i] == s.drop_last()[i]);
        }
    }
}

proof fn lemma_q_moves_max_sets(p: Position, s1: Seq<BitMove>, s2: Seq<BitMove>)
    requires
        forall|m: BitMove| is_legal(p, m) && m@.capture != PieceType::NoPiece ==> (s1.contains(m) <==> s2.contains(m)),
    ensures
        q_moves_max(p, s1) == q_moves_max(p, s2),
{
    lemma_q_moves_max_bounds(p, s1);
    lemma_q_moves_max_bounds(p, s2);
    if q_moves_max(p, s1) != no_move_value() {
        let i = choose|i: int| 0 <= i < s1.len() && q_moves_max(p, s1) == q_move_value(p, #[trigger] s1[i]);
        assert(s1.contains(s1[i]));
        let j = choose|j: int| 0 <= j < s2.len() && s2[j] == s1[i];
        assert(q_move_value(p, s2[j]) <= q_moves_max(p, s2));
    }
    if q_moves_max(p, s2) != no_move_value() {
        let i = choose|i: int| 0 <= i < s2.len() && q_moves_max(p, s2) == q_move_value(p, #[trigger] s2[i]);
        assert(s2.contains(s2[i]));
        let j = choose|j: int| 0 <= j < s1.len() && s1[j] == s2[i];
        assert(q_move_value(p, s1[j]) <= q_moves_max(p, s1));
    }
}

/// The value of a legal capture is minus the quiescence value of the
/// position it leads to.
proof fn lemma_q_move_value(p: Position, m: BitMove)
    requires
        p.ply < MAX_SEARCH_PLY,
    ensures
        q_move_value(p, m) == if is_legal(p, m) && m@.capture != PieceType::NoPiece {
            -qvalue(succ(p, m))
        } else {
            no_move_value()
        },
{
}

/// One table for each report, in order.
pub open spec fn reports_searched(
    p: Position,
    history: Seq<ZobristKey>,
    tts: Seq<TranspositionTable>,
    reports: Seq<IterationReport>,
) -> bool {
    tts.len() == reports.len()
}

/// Each report's move is what a negamax search of `p` to the report's
/// depth, from the full window, with the matching table and the path
/// `history`, hands back when no stop came.
pub open spec fn searched_without_stop(
    p: Position,
    history: Seq<ZobristKey>,
    tts: Seq<TranspositionTable>,
    reports: Seq<IterationReport>,
) -> bool {
    forall|k: int| 0 <= k < reports.len() ==> negamax_result(
        p,
        #[trigger] tts[k],
        history,
        START_ALPHA,
        START_BETA,
        (k + 1) as u16,
        reports[k].best_move,
    )
}

/// Each report's move is what a negamax search of `p` to its depth, from
/// the full window, with the path `history`, hands back when no stop came
/// (`nostop`), each with the table as it was when its iteration began; the
/// first of these tables is `tt0`.
pub open spec fn reports_explained(
    p: Position,
    history: Seq<ZobristKey>,
    tt0: TranspositionTable,
    reports: Seq<IterationReport>,
    nostop: bool,
) -> bool {
    exists|tts: Seq<TranspositionTable>| #[trigger] reports_searched(p, history, tts, reports) && (tts.len() > 0
        ==> tts[0] == tt0) && (nostop ==> searched_without_stop(p, history, tts, reports))
}

/// The empty move is legal in no position.
pub proof fn lemma_empty_not_legal(p: Position)
    ensures
        !is_legal_move(p, BitMove(EMPTY)),
{
    assert(0u32 & 0x3fu32 == 0u32 && (0u32 >> 6u32) & 0x3fu32 == 0u32 && (0u32 >> 12u32) & 0xfu32 == 0u32)
        by (bit_vector);
    assert(BitMove(EMPTY)@.source == 0 && BitMove(EMPTY)@.target == 0);
    assert(BitMove(EMPTY)@.piece == PieceType::WP);
}

/// The move that a search of `p` hands back: the empty move, a legal move
/// of `p`, or the move that the table held for `p` when the search began.
pub open spec fn found_move(p: Position, tt: TranspositionTable, r: ScoringMove) -> bool {
    ||| r.bit_move == BitMove(EMPTY)
    ||| is_legal_move(p, r.bit_move)
    ||| (tt.lookup(p.zobrist_key) matches Some(d) && d.best_move == r)
}

impl Search {
    /// The tables have their sizes and every stored score can be negated.
    pub open spec fn wf(&self) -> bool {
        &&& self.transposition_table.wf()
        &&& self.killer_moves.wf()
        &&& forall|k: ZobristKey| (#[trigger] self.transposition_table.lookup(k)) matches Some(d) ==> score_ok(
            d.best_move.score,
        )
    }

    /// A search with empty tables, the given stop flag and a table of the
    /// default size.
    pub fn new(stop_calculating: Arc<AtomicBool>) -> (r: Search)
        ensures
            r.wf(),
            r.nodes == 0,
            r.zobrist_key_history@.len() == 0,
            !r.stop.seen(),
    {
        Search {
            nodes: 0,
            zobrist_key_history: Vec::new(),
            stop: StopSignal::new(stop_calculating),
            transposition_table: TranspositionTable::init(),
            killer_moves: KillerMoves::new(),
        }
    }

    /// A search with empty tables, the given stop flag and time limit, and
    /// a table of the default size; the flag is left as it is.
    pub fn new_with_limit(stop_calculating: Arc<AtomicBool>, stop_time: Option<u128>) -> (r: Search)
        ensures
            r.wf(),
            r.nodes == 0,
            r.zobrist_key_history@.len() == 0,
            !r.stop.seen(),
            r.stop.limit() == stop_time,
    {
        Search {
            nodes: 0,
            zobrist_key_history: Vec::new(),
            stop: StopSignal::new_with_limit(stop_calculating, stop_time),
            transposition_table: TranspositionTable::init(),
            killer_moves: KillerMoves::new(),
        }
    }

    /// Whether someone asked the search to stop (another thread may set
    /// the flag at any time) or its time is up; a stop found is recorded.
    pub fn should_stop_calculating(&mut self) -> (r: bool)
        ensures
            final(self).stop.seen() == (old(self).stop.seen() || r),
            final(self).stop.limit() == old(self).stop.limit(),
            final(self).nodes == old(self).nodes,
            final(self).zobrist_key_history == old(self).zobrist_key_history,
            final(self).transposition_table == old(self).transposition_table,
            final(self).killer_moves == old(self).killer_moves,
    {
        self.stop.check()
    }

    /// Asks the search to stop.
    pub fn begin_stop_calculating(&self) {
        self.stop.raise();
    }

    /// Prepares a new search: clears the stop flag and the node counter,
    /// restarts the clock and sets the time limit.
    pub fn reset(&mut self, stop_time: Option<u128>)
        ensures
            final(self).nodes == 0,
            final(self).stop.limit() == stop_time,
            !final(self).stop.seen(),
            final(self).zobrist_key_history == old(self).zobrist_key_history,
            final(self).transposition_table == old(self).transposition_table,
            final(self).killer_moves == old(self).killer_moves,
    {
        self.nodes = 0;
        self.stop.restart(stop_time);
    }

    /// Counts one more node; the counter stops at its maximum.
    /// Orders the moves for the search: each move's score gets its ordering
    /// bonus from the table and the killer moves, then the moves are sorted
    /// by score, highest first.
    pub fn order_moves(&self, position: &Position, moves: &mut MoveList<ScoringMove>)
        requires
            self.wf(),
        ensures
            final(moves).entries().to_multiset() == old(moves).entries().map_values(
                |e: ScoringMove| with_bonus(self.transposition_table, self.killer_moves, *position, e),
            ).to_multiset(),
            forall|a: int, b: int|
                0 <= a < b < final(moves).entries().len() ==> (#[trigger] final(moves).entries()[a]).score >= (
                #[trigger] final(moves).entries()[b]).score,
            forall|bm: BitMove| #[trigger] final(moves).moves().contains(bm) <==> old(moves).moves().contains(bm),
    {
        let entry = self.transposition_table.probe(position.zobrist_key);
        let primary = self.killer_moves.get_primary(position.ply);
        let secondary = self.killer_moves.get_secondary(position.ply);
        let ghost f = |e: ScoringMove| with_bonus(self.transposition_table, self.killer_moves, *position, e);
        let ghost start = moves.entries();
        let n = moves.len();
        let mut i: usize = 0;
        while i < n
            invariant
                i <= n,
                n == start.len(),
                moves.entries().len() == n,
                f == (|e: ScoringMove| with_bonus(self.transposition_table, self.killer_moves, *position, e)),
                entry == self.transposition_table.lookup(position.zobrist_key),
                self.killer_moves.wf(),
                primary == (if position.ply < MAX_DEPTH { Some(self.killer_moves.primaries()[position.ply as int]) } else { None }),
                secondary == (if position.ply < MAX_DEPTH { Some(self.killer_moves.secondaries()[position.ply as int]) } else { None }),
                forall|k: int| 0 <= k < i ==> #[trigger] moves.entries()[k] == f(start[k]),
                forall|k: int| i <= k < n ==> #[trigger] moves.entries()[k] == start[k],
            decreases n - i,
        {
            let mv = moves.get(i);
            let mut bonus: i32 = 0;
            match entry {
                Some(e) => {
                    if e.best_move.bit_move == mv.bit_move {
                        bonus = match e.node_type {
                            TTNodeType::Exact => 10000,
                            TTNodeType::LowerBound => 4000,
                            TTNodeType::UpperBound => 3000,
                        };
                    }
                },
                None => {},
            }
            let is_primary = match primary {
                Some(k) => k == mv.bit_move,
                None => false,
            };
            let is_secondary = match secondary {
                Some(k) => k == mv.bit_move,
                None => false,
            };
            if is_primary {
                bonus = bonus + 2000;
            } else if is_secondary {
                bonus = bonus + 1000;
            }
            let total: i32 = mv.score as i32 + bonus;
            let score: i16 = if total > 32767 {
                32767
            } else {
                total as i16
            };
            moves.set(i, ScoringMove { bit_move: mv.bit_move, score });
            proof {
                assert(moves.entries()[i as int] == f(start[i as int]));
            }
            i = i + 1;
        }
        proof {
            assert(moves.entries() =~= start.map_values(f));
        }
        let ghost bonused = moves.entries();
        moves.sort_by_score();
        proof {
            broadcast use vstd::seq_lib::to_multiset_contains;
            assert forall|bm: BitMove| #[trigger] moves.moves().contains(bm) <==> old(moves).moves().contains(bm) by {
                if moves.moves().contains(bm) {
                    let k = choose|k: int| 0 <= k < moves.moves().len() && moves.moves()[k] == bm;
                    let e = moves.entries()[k];
                    assert(moves.entries().contains(e));
                    assert(moves.entries().to_multiset().count(e) > 0);
                    assert(bonused.to_multiset().count(e) > 0);
                    assert(bonused.contains(e));
                    let j = choose|j: int| 0 <= j < bonused.len() && bonused[j] == e;
                    assert(start[j].bit_move == bm);
                    assert(old(moves).moves()[j] == bm);
                }
                if old(moves).moves().contains(bm) {
                    let j = choose|j: int| 0 <= j < start.len() && old(moves).moves()[j] == bm;
                    let e = bonused[j];
                    assert(bonused.contains(e));
                    assert(bonused.to_multiset().count(e) > 0);
                    assert(moves.entries().to_multiset().count(e) > 0);
                    assert(moves.entries().contains(e));
                    let k = choose|k: int| 0 <= k < moves.entries().len() && moves.entries()[k] == e;
                    assert(moves.moves()[k] == bm);
                }
            }
        }
    }

    fn count_node(&mut self)
        ensures
            final(self).nodes == if old(self).nodes < u64::MAX {
                old(self).nodes + 1
            } else {
                old(self).nodes as int
            },
            final(self).stop == old(self).stop,
            final(self).zobrist_key_history == old(self).zobrist_key_history,
            final(self).transposition_table == old(self).transposition_table,
            final(self).killer_moves == old(self).killer_moves,
                {
        if self.nodes < u64::MAX {
            self.nodes = self.nodes + 1;
        }
    }

    /// The static score of the position for the side to move; 0 where it
    /// does not fit in `i16`.
    fn static_score(position: &Position) -> (r: i16)
        requires
            position.wf(),
        ensures
            score_ok(r),
            r == static_value(*position),
    {
        match EvalPosition::eval_checked(position) {
            Some(s) => s,
            None => 0,
        }
    }

    /// Whether the key is among the positions on the path to this one.
    fn in_history(&self, key: ZobristKey) -> (r: bool)
        ensures
            r == self.zobrist_key_history@.contains(key),
    {
        let mut i: usize = 0;
        while i < self.zobrist_key_history.len()
            invariant
                i <= self.zobrist_key_history@.len(),
                forall|j: int| 0 <= j < i ==> self.zobrist_key_history@[j] != key,
            decreases self.zobrist_key_history@.len() - i,
        {
            if self.zobrist_key_history[i] == key {
                return true;
            }
            i = i + 1;
        }
        false
    }

    /// A uniformly drawn legal move of the position, with score 0; the
    /// empty move when there is none.
    pub fn random_best_move(&self, position: &Position) -> (r: ScoringMove)
        requires
            position.wf(),
            position.has_kings(),
        ensures
            r.score == 0,
            r.bit_move == BitMove(EMPTY) || is_legal_move(*position, r.bit_move),
            is_legal_move(*position, r.bit_move) <==> exists|m: BitMove| #[trigger] is_legal_move(*position, m),
    {
        let moves = MoveGeneration::generate_moves::<BitMove, Legal>(position);
        if moves.len() == 0 {
            proof {
                assert forall|m: BitMove| !#[trigger] is_legal_move(*position, m) by {
                    if is_legal_move(*position, m) {
                        assert(moves.moves().contains(m));
                    }
                }
            }
            return ScoringMove::blank(BLANK);
        }
        let i = random_index(moves.len());
        let m = moves.get(i);
        proof {
            assert(moves.moves()[i as int] == m);
            assert(moves.moves().contains(m));
        }
        ScoringMove::from_bit_move(m)
    }

    /// Searches captures only until the position is quiet, so that the
    /// static score is not taken in the middle of an exchange. The score is
    /// kept between `alpha` and `beta`.
    pub fn quiescence(&mut self, position: &Position, alpha: i16, beta: i16) -> (r: ScoringMove)
        requires
            old(self).wf(),
            position.wf(),
            score_ok(alpha),
            score_ok(beta),
        ensures
            final(self).wf(),
            score_ok(r.score),
            r.bit_move == BitMove(EMPTY) || is_legal_move(*position, r.bit_move),
            old(self).stop.seen() ==> final(self).stop.seen(),
            !final(self).stop.seen() ==> quiescence_result(*position, alpha, beta, r),
            !final(self).stop.seen() && alpha < beta ==> window_result(alpha as int, beta as int, r.score as int, qvalue(*position)),
            final(self).zobrist_key_history@ == old(self).zobrist_key_history@,
            final(self).transposition_table == old(self).transposition_table,
            final(self).killer_moves == old(self).killer_moves,
        decreases u16::MAX - position.ply,
    {
        if self.should_stop_calculating() {
            return ScoringMove::blank(BLANK);
        }
        let evaluation = Self::static_score(position);
        let ghost stand: int = if evaluation > alpha { evaluation as int } else { alpha as int };
        let mut best_move = ScoringMove::blank(alpha);
        if evaluation >= beta {
            return ScoringMove::blank(beta);
        } else if evaluation > alpha {
            best_move.score = evaluation;
        }
        if position.ply >= MAX_SEARCH_PLY || position.bbs[5].is_empty() || position.bbs[11].is_empty() {
            return best_move;
        }
        let mut moves = MoveGeneration::generate_captures::<ScoringMove, PseudoLegal>(position);
        self.order_moves(position, &mut moves);
        let ghost s = moves.moves();
        let ghost p = *position;
        proof {
            assert(s.take(0) =~= Seq::<BitMove>::empty());
            lemma_pseudo_legal_moves(p);
            lemma_q_moves_max_bounds(p, pseudo_legal_moves(p));
        }
        let mut i: usize = 0;
        while i < moves.len()
            invariant
                i <= s.len(),
                s == moves.moves(),
                s.len() == moves.entries().len(),
                self.wf(),
                position.wf(),
                position.has_kings(),
                position.ply < MAX_SEARCH_PLY,
                score_ok(beta),
                score_ok(best_move.score),
                evaluation == static_value(*position),
                evaluation < beta,
                stand == if evaluation > alpha { evaluation as int } else { alpha as int },
                best_move.bit_move == BitMove(EMPTY) || is_legal_move(*position, best_move.bit_move),
                best_move.bit_move == BitMove(EMPTY) ==> best_move.score == stand,
                best_move.bit_move != BitMove(EMPTY) ==> best_move.score > stand && best_move.bit_move@.capture
                    != PieceType::NoPiece,
                forall|bm: BitMove| #[trigger] s.contains(bm) <==> bm.encoded() && pseudo_legal_of(*position, bm)
                    && bm@.capture != PieceType::NoPiece,
                p == *position,
                alpha < beta ==> best_move.score < beta,
                !self.stop.seen() && alpha < beta ==> best_move.score == (if q_moves_max(p, s.take(i as int)) > stand {
                    q_moves_max(p, s.take(i as int))
                } else {
                    stand
                }),
                forall|bm: BitMove| #[trigger] pseudo_legal_moves(p).contains(bm) <==> bm.encoded() && pseudo_legal_of(p, bm),
                forall|k: int| 0 <= k < pseudo_legal_moves(p).len() ==> q_move_value(p, #[trigger] pseudo_legal_moves(p)[k]) <= q_moves_max(p, pseudo_legal_moves(p)),
                old(self).stop.seen() ==> self.stop.seen(),
                self.zobrist_key_history@ == old(self).zobrist_key_history@,
                self.transposition_table == old(self).transposition_table,
                self.killer_moves == old(self).killer_moves,
                            decreases s.len() - i,
        {
            let mut capture = moves.get(i);
            proof {
                assert(s[i as int] == capture.bit_move);
                assert(s.contains(capture.bit_move));
            }
            let ghost m = capture.bit_move;
            proof {
                assert(s.take(i + 1).drop_last() == s.take(i as int));
                assert(s.take(i + 1).last() == m);
                lemma_q_move_value(p, m);
                lemma_q_moves_max_bounds(p, s.take(i as int));
                assert(pseudo_legal_moves(p).contains(m));
            }
            let mut new_position = *position;
            if new_position.apply_pseudo_legal_move(capture.bit_move) {
                let ghost q = new_position;
                proof {
                    let x = choose|x: Position| p.is_successor(m@, x);
                    p.lemma_play(m@, x);
                    assert(same_game(q, succ(p, m)));
                    lemma_qvalue_same(q, succ(p, m));
                    assert(is_legal(p, m));
                }
                self.count_node();
                let ghost best_before = best_move.score;
                let ghost seen_before = self.stop.seen();
                let reply = self.quiescence(&new_position, -beta, -best_move.score);
                capture.score = -reply.score;
                proof {
                    if !self.stop.seen() && alpha < beta {
                        assert(!seen_before);
                        assert(window_result(-beta as int, -best_before as int, reply.score as int, qvalue(q)));
                        assert(q_move_value(p, m) == -qvalue(q));
                    }
                }
                if capture.score > best_move.score {
                    proof {
                        lemma_empty_not_legal(*position);
                    }
                    best_move = capture;
                    if best_move.score >= beta {
                        proof {
                            lemma_q_moves_max_bounds(p, pseudo_legal_moves(p));
                            let k = choose|k: int| 0 <= k < pseudo_legal_moves(p).len() && pseudo_legal_moves(p)[k] == m;
                            assert(q_move_value(p, pseudo_legal_moves(p)[k]) <= q_moves_max(p, pseudo_legal_moves(p)));
                        }
                        return best_move;
                    }
                }
            } else {
                proof {
                    assert(!is_legal(p, m));
                }
            }
            i = i + 1;
        }
        proof {
            assert(s.take(s.len() as int) == s);
            assert forall|bm: BitMove| is_legal(p, bm) && bm@.capture != PieceType::NoPiece implies (s.contains(bm)
                <==> pseudo_legal_moves(p).contains(bm)) by {}
            lemma_q_moves_max_sets(p, s, pseudo_legal_moves(p));
        }
        best_move
    }

    /// Plays every legal move and scores the replies to `depth` plies,
    /// keeping the best for the side to move: the highest score, at most
    /// `beta`, or `alpha` with the empty move when no move reaches it.
    /// Positions on the path are scored as draws, positions without moves
    /// as mate or stalemate; a stop request ends the search with score 0.
    pub fn negamax_best_move(&mut self, position: &Position, alpha: i16, beta: i16, depth: u16) -> (r: ScoringMove)
        requires
            old(self).wf(),
            position.wf(),
            score_ok(alpha),
            score_ok(beta),
            depth < u16::MAX,
        ensures
            final(self).wf(),
            score_ok(r.score),
            found_move(*position, old(self).transposition_table, r),
            old(self).stop.seen() ==> final(self).stop.seen(),
            !final(self).stop.seen() ==> negamax_result(
                *position,
                old(self).transposition_table,
                old(self).zobrist_key_history@,
                alpha,
                beta,
                depth,
                r,
            ),
            final(self).zobrist_key_history@ == old(self).zobrist_key_history@,
                    decreases u16::MAX - position.ply, depth,
    {
        self.count_node();
        let ghost tt_in = self.transposition_table;
        let ghost h_in = self.zobrist_key_history@;
        if self.in_history(position.zobrist_key) {
            let r = ScoringMove::blank(DRAW_BY_REPETITION);
            proof {
                lemma_explained_result(*position, tt_in, h_in, alpha, beta, depth, r, empty_trace());
            }
            return r;
        }
        if depth == 0 {
            let r = self.quiescence(position, alpha, beta);
            proof {
                if !self.stop.seen() {
                    lemma_explained_result(*position, tt_in, h_in, alpha, beta, depth, r, empty_trace());
                }
            }
            return r;
        }
        if self.should_stop_calculating() {
            return ScoringMove::blank(BLANK);
        }
        if position.ply >= MAX_SEARCH_PLY || position.bbs[5].is_empty() || position.bbs[11].is_empty() {
            let r = ScoringMove::blank(Self::static_score(position));
            proof {
                lemma_explained_result(*position, tt_in, h_in, alpha, beta, depth, r, empty_trace());
            }
            return r;
        }
        let ghost tt0 = self.transposition_table;
        match self.transposition_table.probe(position.zobrist_key) {
            Some(entry) => {
                if entry.depth >= depth {
                    match entry.node_type {
                        TTNodeType::Exact => {
                            proof {
                                lemma_explained_result(*position, tt_in, h_in, alpha, beta, depth, entry.best_move, empty_trace());
                            }
                            return entry.best_move;
                        },
                        TTNodeType::LowerBound => {
                            if entry.best_move.score >= beta {
                                proof {
                                    lemma_explained_result(*position, tt_in, h_in, alpha, beta, depth, entry.best_move, empty_trace());
                                }
                                return entry.best_move;
                            }
                        },
                        TTNodeType::UpperBound => {
                            if entry.best_move.score <= alpha {
                                proof {
                                    lemma_explained_result(*position, tt_in, h_in, alpha, beta, depth, entry.best_move, empty_trace());
                                }
                                return entry.best_move;
                            }
                        },
                    }
                }
            },
            None => {},
        }
        let in_check = position.in_check(position.side);
        let search_depth: u16 = if in_check {
            depth + 1
        } else {
            depth
        };
        if search_depth > NULL_MOVE_DEPTH_REDUCTION && !in_check && position.ply > 0 {
            let mut position_copy = *position;
            position_copy.zobrist_mods();
            position_copy.side.switch();
            position_copy.en_passant_option = None;
            position_copy.zobrist_mods();
            let null_beta: i16 = if beta > -32767 {
                -beta + 1
            } else {
                32767
            };
            let reply = self.negamax_best_move(&position_copy, -beta, null_beta, depth - NULL_MOVE_DEPTH_REDUCTION);
            let null_move_score = -reply.score;
            if null_move_score >= beta {
                let r = ScoringMove::blank(beta);
                proof {
                    lemma_explained_result(*position, tt_in, h_in, alpha, beta, depth, r, empty_trace());
                }
                return r;
            }
        }
        let mut moves = MoveGeneration::generate_moves::<ScoringMove, PseudoLegal>(position);
        self.order_moves(position, &mut moves);
        let ghost s = moves.moves();
        let ghost history0 = self.zobrist_key_history@;
        let mut moves_has_legal_move = false;
        let mut best_move = ScoringMove::blank(alpha);
        self.zobrist_key_history.push(position.zobrist_key);
        let mut cutoff = false;
        let ghost mut searched: Seq<(BitMove, i16)> = Seq::empty();
        let ghost mut tables: Seq<TranspositionTable> = Seq::empty();
        let ghost mut replies: Seq<ScoringMove> = Seq::empty();
        let ghost mut children: Seq<SearchTrace> = Seq::empty();
        let mut i: usize = 0;
        while i < moves.len() && !cutoff
            invariant
                trace_lengths(SearchTrace { searched, tables, replies, children }),
                search_depth - 1 == reply_depth(*position, depth),
                history0 == h_in,
                !self.stop.seen() ==> replies_explained(
                    *position,
                    h_in,
                    alpha,
                    beta,
                    depth,
                    SearchTrace { searched, tables, replies, children },
                    searched.len(),
                ),
                best_move == best_of(alpha, searched),
                forall|k: int| 0 <= k < searched.len() ==> is_legal_move(*position, (#[trigger] searched[k]).0),
                no_early_cutoff(alpha, beta, searched),
                cutoff == ends_in_cutoff(alpha, beta, searched),
                moves_has_legal_move == (searched.len() > 0),
                !cutoff ==> forall|j: int| 0 <= j < i && is_legal_move(*position, #[trigger] s[j]) ==> exists|k: int|
                    0 <= k < searched.len() && (#[trigger] searched[k]).0 == s[j],
                i <= s.len(),
                s == moves.moves(),
                s.len() == moves.entries().len(),
                self.wf(),
                position.wf(),
                position.has_kings(),
                position.ply < MAX_SEARCH_PLY,
                1 <= search_depth <= u16::MAX,
                score_ok(beta),
                score_ok(best_move.score),
                best_move.bit_move == BitMove(EMPTY) || is_legal_move(*position, best_move.bit_move),
                best_move.bit_move == BitMove(EMPTY) ==> best_move.score == alpha,
                best_move.bit_move != BitMove(EMPTY) ==> best_move.score > alpha,
                moves_has_legal_move || best_move.bit_move == BitMove(EMPTY),
                moves_has_legal_move ==> has_legal_move(*position),
                !moves_has_legal_move ==> forall|j: int| 0 <= j < i ==> !is_legal_move(*position, #[trigger] s[j]),
                cutoff ==> moves_has_legal_move,
                forall|bm: BitMove| #[trigger] s.contains(bm) <==> bm.encoded() && pseudo_legal_of(*position, bm),
                old(self).stop.seen() ==> self.stop.seen(),
                self.zobrist_key_history@ == history0.push(position.zobrist_key),
                            decreases s.len() - i,
        {
            let mut scoring_move = moves.get(i);
            proof {
                assert(s[i as int] == scoring_move.bit_move);
                assert(s.contains(scoring_move.bit_move));
            }
            let mut new_position = *position;
            if new_position.apply_pseudo_legal_move(scoring_move.bit_move) {
                let is_capture_or_promotion = scoring_move.bit_move.is_capture_or_promotion(position);
                proof {
                    assert(is_legal_move(*position, scoring_move.bit_move));
                }
                moves_has_legal_move = true;
                let ghost tt_before = self.transposition_table;
                proof {
                    let q = choose|q: Position| position.is_successor(scoring_move.bit_move@, q);
                    position.lemma_play(scoring_move.bit_move@, q);
                    assert(new_position == child(*position, scoring_move.bit_move));
                }
                let reply = self.negamax_best_move(&new_position, -beta, -best_move.score, search_depth - 1);
                scoring_move.score = -reply.score;
                let ghost before = searched;
                proof {
                    let w = SearchTrace { searched, tables, replies, children };
                    let cw = if !self.stop.seen() {
                        choose|cw: SearchTrace| #[trigger] negamax_explained(
                            new_position,
                            tt_before,
                            h_in.push(position.zobrist_key),
                            (-beta) as i16,
                            (-best_move.score) as i16,
                            (search_depth - 1) as u16,
                            reply,
                            cw,
                        )
                    } else {
                        empty_trace()
                    };
                    if !self.stop.seen() {
                        lemma_replies_extend(
                            *position,
                            h_in,
                            alpha,
                            beta,
                            depth,
                            w,
                            scoring_move.bit_move,
                            tt_before,
                            reply,
                            cw,
                        );
                    }
                    tables = tables.push(tt_before);
                    replies = replies.push(reply);
                    children = children.push(cw);
                }
                proof {
                    searched = searched.push((scoring_move.bit_move, scoring_move.score));
                    assert(searched.drop_last() =~= before);
                    assert(searched[searched.len() - 1] == (scoring_move.bit_move, scoring_move.score));
                    assert forall|j: int| 0 <= j < i + 1 && is_legal_move(*position, #[trigger] s[j]) implies exists|k: int|
                        0 <= k < searched.len() && (#[trigger] searched[k]).0 == s[j] by {
                        if j == i {
                            assert(searched[before.len() as int].0 == s[j]);
                        } else if !ends_in_cutoff(alpha, beta, searched) {
                            let k = choose|k: int| 0 <= k < before.len() && (#[trigger] before[k]).0 == s[j];
                            assert(searched[k] == before[k]);
                        }
                    }
                }
                if scoring_move.score > best_move.score {
                    proof {
                        lemma_empty_not_legal(*position);
                    }
                    best_move = scoring_move;
                    if best_move.score >= beta {
                        if !is_capture_or_promotion {
                            self.killer_moves.update(best_move.bit_move, new_position.ply);
                        }
                        cutoff = true;
                    }
                }
            }
            i = i + 1;
        }
        self.zobrist_key_history.pop();
        proof {
            assert(self.zobrist_key_history@ =~= history0);
        }
        proof {
            if moves_has_legal_move && !cutoff {
                assert forall|m: BitMove| #[trigger] is_legal_move(*position, m) implies exists|k: int|
                    0 <= k < searched.len() && (#[trigger] searched[k]).0 == m by {
                    assert(s.contains(m));
                    let j = choose|j: int| 0 <= j < s.len() && s[j] == m;
                    assert(is_legal_move(*position, s[j]));
                }
            }
            if moves_has_legal_move {
                assert(searched_in_order(*position, alpha, beta, searched));
                assert(best_move == best_of(alpha, searched));
                if !self.stop.seen() {
                    lemma_explained_result(
                        *position,
                        tt_in,
                        h_in,
                        alpha,
                        beta,
                        depth,
                        best_move,
                        SearchTrace { searched, tables, replies, children },
                    );
                }
            }
        }
        if !moves_has_legal_move {
            if in_check {
                best_move = ScoringMove::blank(-CHECKMATE + position.ply as i16);
            } else {
                best_move = ScoringMove::blank(DRAW_BY_STALEMATE);
            }
        }
        proof {
            if !moves_has_legal_move {
                assert forall|m: BitMove| !#[trigger] is_legal_move(*position, m) by {
                    if is_legal_move(*position, m) {
                        assert(s.contains(m));
                        let j = choose|j: int| 0 <= j < s.len() && s[j] == m;
                    }
                }
            }
        }
        proof {
            if !moves_has_legal_move && !self.stop.seen() {
                lemma_explained_result(*position, tt_in, h_in, alpha, beta, depth, best_move, empty_trace());
            }
        }
        let node_type = if best_move.score >= beta {
            TTNodeType::LowerBound
        } else if best_move.score <= alpha {
            TTNodeType::UpperBound
        } else {
            TTNodeType::Exact
        };
        let ghost tt1 = self.transposition_table;
        self.transposition_table.store(position.zobrist_key, TTData { best_move, depth: search_depth, node_type });
        proof {
            assert forall|k: ZobristKey| (#[trigger] self.transposition_table.lookup(k)) is Some implies score_ok(
                self.transposition_table.lookup(k)->0.best_move.score,
            ) by {
                let n = tt1.view_slots().len();
                if crate::transposition_table::slot_index(k, n) != crate::transposition_table::slot_index(position.zobrist_key, n) {
                    assert(self.transposition_table.lookup(k) == tt1.lookup(k));
                }
            }
        }
        best_move
    }

    /// Scores every legal move by the replies to `depth` plies without
    /// pruning and keeps the last of the best; with no legal move, mate or
    /// stalemate. A stop request ends the search with score 0.
    pub fn minimax_best_move(&mut self, position: &Position, depth: u16) -> (r: ScoringMove)
        requires
            old(self).wf(),
            position.wf(),
        ensures
            final(self).wf(),
            score_ok(r.score),
            r.bit_move == BitMove(EMPTY) || is_legal_move(*position, r.bit_move),
            depth == 0 ==> is_blank(r, static_value(*position)),
            old(self).stop.seen() ==> final(self).stop.seen(),
            !final(self).stop.seen() ==> minimax_result(*position, depth, r),
            !final(self).stop.seen() ==> r.score == minimax_value(*position, depth as nat),
            !final(self).stop.seen() && r.bit_move != BitMove(EMPTY) ==> move_value(*position, depth as nat, r.bit_move)
                == r.score,
            final(self).zobrist_key_history@ == old(self).zobrist_key_history@,
        decreases depth,
    {
        if depth == 0 {
            return ScoringMove::blank(Self::static_score(position));
        }
        self.count_node();
        if self.should_stop_calculating() {
            return ScoringMove::blank(BLANK);
        }
        if position.bbs[5].is_empty() || position.bbs[11].is_empty() {
            return ScoringMove::blank(Self::static_score(position));
        }
        let moves = MoveGeneration::generate_moves::<ScoringMove, Legal>(position);
        let ghost s = moves.moves();
        let mut best: Option<ScoringMove> = None;
        let mut i: usize = 0;
        while i < moves.len()
            invariant
                i <= s.len(),
                s == moves.moves(),
                s.len() == moves.entries().len(),
                self.wf(),
                position.wf(),
                position.has_kings(),
                1 <= depth,
                best matches Some(b) ==> score_ok(b.score) && is_legal_move(*position, b.bit_move),
                best matches Some(b) ==> (!self.stop.seen() ==> b.score == moves_max(*position, depth as nat, s.take(i as int))
                    && move_value(*position, depth as nat, b.bit_move) == b.score),
                i > 0 ==> best is Some,
                i == 0 ==> best is None,
                forall|bm: BitMove| #[trigger] s.contains(bm) <==> bm.encoded() && pseudo_legal_of(*position, bm)
                    && !position.play(bm@).spec_in_check(position.side),
                old(self).stop.seen() ==> self.stop.seen(),
                self.zobrist_key_history@ == old(self).zobrist_key_history@,
                            decreases s.len() - i,
        {
            let mut scoring_move = moves.get(i);
            proof {
                assert(s[i as int] == scoring_move.bit_move);
                assert(s.contains(scoring_move.bit_move));
                crate::move_generation::lemma_pseudo_legal_applicable(*position, scoring_move.bit_move@);
            }
            let mut position_copy = *position;
            position_copy.make_move(scoring_move.bit_move);
            let ghost m = scoring_move.bit_move;
            proof {
                position.lemma_play(m@, position_copy);
                lemma_minimax_same(position_copy, position.play(m@), (depth - 1) as nat);
                lemma_move_value(*position, depth as nat, m);
                assert(is_legal(*position, m));
                assert(s.take(i + 1).drop_last() == s.take(i as int));
                assert(s.take(i + 1).last() == m);
            }
            let ghost seen_before = self.stop.seen();
            let ghost best_before = best;
            let reply = self.minimax_best_move(&position_copy, depth - 1);
            scoring_move.score = -reply.score;
            proof {
                if !self.stop.seen() {
                    assert(!seen_before);
                    assert(reply.score == minimax_value(position_copy, (depth - 1) as nat));
                    assert(scoring_move.score == move_value(*position, depth as nat, m));
                    assert(moves_max(*position, depth as nat, s.take(i + 1)) == {
                        let rest = moves_max(*position, depth as nat, s.take(i as int));
                        let last = move_value(*position, depth as nat, m);
                        if last >= rest {
                            last
                        } else {
                            rest
                        }
                    });
                    if i == 0 {
                        assert(s.take(0) =~= Seq::<BitMove>::empty());
                        assert(moves_max(*position, depth as nat, s.take(0)) == no_move_value());
                    }
                }
            }
            let replace = match best {
                Some(b) => scoring_move.score >= b.score,
                None => true,
            };
            if replace {
                best = Some(scoring_move);
            }
            i = i + 1;
        }
        proof {
            assert(s.take(s.len() as int) == s);
            lemma_pseudo_legal_moves(*position);
            assert forall|m: BitMove| is_legal(*position, m) implies (s.contains(m) <==> pseudo_legal_moves(
                *position,
            ).contains(m)) by {}
            lemma_moves_max_sets(*position, depth as nat, s, pseudo_legal_moves(*position));
        }
        match best {
            Some(b) => b,
            None => {
                proof {
                    assert forall|m: BitMove| !#[trigger] is_legal_move(*position, m) by {
                        if is_legal_move(*position, m) {
                            assert(s.contains(m));
                        }
                    }
                }
                if position.in_check(position.side) {
                    ScoringMove::blank(-CHECKMATE)
                } else {
                    ScoringMove::blank(DRAW_BY_STALEMATE)
                }
            },
        }
    }

    /// The best move that the search finds to `depth` plies.
    pub fn best_move(&mut self, position: &Position, depth: u16) -> (r: ScoringMove)
        requires
            old(self).wf(),
            position.wf(),
            depth < u16::MAX,
        ensures
            final(self).wf(),
            score_ok(r.score),
            found_move(*position, old(self).transposition_table, r),
            old(self).stop.seen() ==> final(self).stop.seen(),
            !final(self).stop.seen() ==> negamax_result(
                *position,
                old(self).transposition_table,
                old(self).zobrist_key_history@,
                START_ALPHA,
                START_BETA,
                depth,
                r,
            ),
            final(self).zobrist_key_history@ == old(self).zobrist_key_history@,
                {
        self.negamax_best_move(position, START_ALPHA, START_BETA, depth)
    }
}

/// What the search loop does after a finished iteration.
#[derive(Clone, Copy, PartialEq, Eq, Structural, Debug)]
pub enum IterationOutcome {
    /// A stop was requested during the iteration: its result is dropped.
    Interrupted,
    /// The iteration found a tablebase move: nothing deeper is needed.
    TablebaseMove,
    /// The next iteration would likely not end in time.
    OutOfTime,
    /// Search one ply deeper.
    Continue,
}

/// The moves of a principal variation in UCI notation, separated by spaces.
pub open spec fn pv_bytes(moves: Seq<BitMove>) -> Seq<u8>
    decreases moves.len(),
{
    if moves.len() == 0 {
        Seq::empty()
    } else if moves.len() == 1 {
        moves[0].uci_bytes()
    } else {
        pv_bytes(moves.drop_last()) + seq![' ' as u8] + moves.last().uci_bytes()
    }
}

impl Search {
    /// Time to spend on a move: an even share of the time left for the
    /// moves of an average game, plus the increment.
    pub fn calculate_stop_time(total_time: Option<u128>, increment_time: Option<u128>) -> (r: Option<u128>)
        requires
            total_time matches Some(t) ==> t / AVERAGE_AMOUNT_OF_MOVES + (match increment_time {
                Some(i) => i,
                None => 0,
            }) <= u128::MAX,
        ensures
            total_time is None ==> r is None,
            total_time matches Some(t) ==> r == Some((t / AVERAGE_AMOUNT_OF_MOVES + (match increment_time {
                Some(i) => i,
                None => 0,
            })) as u128),
    {
        match total_time {
            Some(t) => {
                let increment = match increment_time {
                    Some(i) => i,
                    None => 0,
                };
                Some(t / AVERAGE_AMOUNT_OF_MOVES + increment)
            },
            None => None,
        }
    }

    /// Whether the next, deeper iteration would likely run past the stop
    /// time, given the milliseconds spent so far.
    pub fn should_end_search_early(time_passed_millis: u128, stop_time: Option<u128>) -> (r: bool)
        requires
            time_passed_millis * AVERAGE_BRANCHING_FACTOR <= u128::MAX,
        ensures
            r == (stop_time matches Some(t) && time_passed_millis * AVERAGE_BRANCHING_FACTOR > t),
    {
        match stop_time {
            Some(t) => time_passed_millis * AVERAGE_BRANCHING_FACTOR > t,
            None => false,
        }
    }

    /// The score is that of a forced mate: mate scores are the mate value
    /// less the ply of the mated position, and games do not reach a
    /// thousand plies.
    pub open spec fn spec_is_checkmate(score: i16) -> bool {
        score >= CHECKMATE - 1000 || score <= 1000 - CHECKMATE
    }

    /// Whether the score is that of a forced mate.
    pub fn is_checkmate(score: i16) -> (r: bool)
        ensures
            r == Self::spec_is_checkmate(score),
    {
        score >= CHECKMATE - 1000 || score <= 1000 - CHECKMATE
    }

    /// What lazy SMP keeps of the result so far and a new result from
    /// another thread: a mate already found stays; otherwise the new result
    /// replaces it.
    pub fn lazy_smp_keep(current: ScoringMove, new: ScoringMove) -> (r: ScoringMove)
        ensures
            r == if Self::spec_is_checkmate(current.score) {
                current
            } else {
                new
            },
    {
        if Self::is_checkmate(current.score) {
            current
        } else {
            new
        }
    }

    /// Moves to mate for a mate score: half the plies to mate, rounded up,
    /// positive when the side to move mates.
    pub fn mate_in(score: i16) -> (r: i16)
        requires
            score_ok(score),
        ensures
            ({
                let plies = CHECKMATE - if score < 0 { -score } else { score as int };
                let moves = if plies >= 0 { (plies + 1) / 2 } else { -((-plies) / 2) };
                r == if score > 0 { moves } else if score < 0 { -moves } else { 0 }
            }),
    {
        let magnitude: i32 = if score < 0 { -(score as i32) } else { score as i32 };
        let plies: i32 = 10000 - magnitude;
        let moves: i32 = if plies >= 0 { (plies + 1) / 2 } else { -((-plies) / 2) };
        if score > 0 {
            moves as i16
        } else if score < 0 {
            (-moves) as i16
        } else {
            0
        }
    }

    /// What to do after the iteration at some depth: stop when a stop was
    /// requested, when a tablebase move was found, or when the next
    /// iteration would likely run out of time; otherwise go deeper.
    pub fn iteration_outcome(stopped: bool, best: ScoringMove, time_passed_millis: u128, stop_time: Option<u128>) -> (r: IterationOutcome)
        requires
            time_passed_millis * AVERAGE_BRANCHING_FACTOR <= u128::MAX,
        ensures
            stopped ==> r == IterationOutcome::Interrupted,
            !stopped && best.score == TABLEBASE_MOVE ==> r == IterationOutcome::TablebaseMove,
            !stopped && best.score != TABLEBASE_MOVE ==> (r == IterationOutcome::OutOfTime <==> (stop_time matches Some(t)
                && time_passed_millis * AVERAGE_BRANCHING_FACTOR > t)),
            !stopped && best.score != TABLEBASE_MOVE ==> (r == IterationOutcome::Continue <==> !(stop_time matches Some(t)
                && time_passed_millis * AVERAGE_BRANCHING_FACTOR > t)),
    {
        if stopped {
            IterationOutcome::Interrupted
        } else if best.score == TABLEBASE_MOVE {
            IterationOutcome::TablebaseMove
        } else if Self::should_end_search_early(time_passed_millis, stop_time) {
            IterationOutcome::OutOfTime
        } else {
            IterationOutcome::Continue
        }
    }

    /// The move the search found, or a random legal move when it found none.
    pub fn modify_best_scoring_move_if_empty(&self, position: &Position, best_scoring_move: ScoringMove) -> (r: ScoringMove)
        requires
            position.wf(),
            position.has_kings(),
        ensures
            best_scoring_move.bit_move != BitMove(EMPTY) ==> r == best_scoring_move,
            best_scoring_move.bit_move == BitMove(EMPTY) ==> r.bit_move == BitMove(EMPTY) || is_legal_move(
                *position,
                r.bit_move,
            ),
            best_scoring_move.bit_move == BitMove(EMPTY) ==> r.score == 0 && (is_legal_move(*position, r.bit_move)
                <==> has_legal_move(*position)),
    {
        if best_scoring_move.bit_move.0 == EMPTY {
            self.random_best_move(position)
        } else {
            best_scoring_move
        }
    }

    /// The principal variation that the table holds: from the position, up
    /// to `depth` times, the stored move of the position reached, as long as
    /// it is a legal move there. Returns the moves.
    pub fn pv_moves_from_tt(&self, position: &Position, depth: u16) -> (r: Vec<BitMove>)
        requires
            self.wf(),
            position.wf(),
        ensures
            r@.len() <= depth,
            forall|i: int| 0 <= i < r@.len() ==> (#[trigger] r@[i]).encoded(),
            exists|ps: Seq<Position>| #[trigger] pv_chain(self.transposition_table, ps, r@) && ps[0] == *position && (
            r@.len() < depth ==> !exists|m: BitMove| #[trigger] tt_move_playable(
                self.transposition_table,
                ps.last(),
                m,
            )),
    {
        let mut pv: Vec<BitMove> = Vec::new();
        let mut position_copy = *position;
        let ghost mut ps: Seq<Position> = seq![*position];
        let mut i: u16 = 0;
        while i < depth
            invariant
                i <= depth,
                pv@.len() <= i,
                self.wf(),
                position_copy.wf(),
                forall|j: int| 0 <= j < pv@.len() ==> (#[trigger] pv@[j]).encoded(),
                pv_chain(self.transposition_table, ps, pv@),
                ps[0] == *position,
                ps.last() == position_copy,
                pv@.len() < i ==> !exists|m: BitMove| #[trigger] tt_move_playable(
                    self.transposition_table,
                    position_copy,
                    m,
                ),
            decreases depth - i,
        {
            let ghost tt = self.transposition_table;
            match self.transposition_table.probe(position_copy.zobrist_key) {
                Some(entry) => {
                    let best_move = entry.best_move.bit_move;
                    if best_move.0 == EMPTY {
                        proof {
                            assert(best_move == BitMove(EMPTY));
                            assert forall|m: BitMove| !#[trigger] tt_move_playable(tt, position_copy, m) by {}
                        }
                        return pv;
                    }
                    if position_copy.bbs[5].is_empty() || position_copy.bbs[11].is_empty() {
                        proof {
                            assert forall|m: BitMove| !#[trigger] tt_move_playable(tt, position_copy, m) by {}
                        }
                        return pv;
                    }
                    if !Self::is_legal(&position_copy, best_move) {
                        proof {
                            assert forall|m: BitMove| !#[trigger] tt_move_playable(tt, position_copy, m) by {}
                        }
                        return pv;
                    }
                    proof {
                        crate::move_generation::lemma_pseudo_legal_applicable(position_copy, best_move@);
                    }
                    let ghost before = position_copy;
                    let ghost moves_before = pv@;
                    pv.push(best_move);
                    position_copy.make_move(best_move);
                    proof {
                        assert(best_move != BitMove(EMPTY));
                        assert(tt_move_playable(tt, before, best_move));
                        assert(before.is_successor(best_move@, position_copy));
                        let ps2 = ps.push(position_copy);
                        assert forall|k: int| 0 <= k < pv@.len() implies #[trigger] pv_step(tt, ps2[k], pv@[k], ps2[k + 1]) by {
                            if k < moves_before.len() {
                                assert(ps2[k] == ps[k] && ps2[k + 1] == ps[k + 1] && pv@[k] == moves_before[k]);
                                assert(pv_step(tt, ps[k], moves_before[k], ps[k + 1]));
                            } else {
                                assert(ps2[k] == before && ps2[k + 1] == position_copy && pv@[k] == best_move);
                            }
                        }
                        ps = ps2;
                    }
                },
                None => {
                    proof {
                        assert forall|m: BitMove| !#[trigger] tt_move_playable(tt, position_copy, m) by {}
                    }
                },
            }
            i = i + 1;
        }
        pv
    }

    /// Whether the move is among the legal moves of the position.
    fn is_legal(position: &Position, bit_move: BitMove) -> (r: bool)
        requires
            position.wf(),
            position.has_kings(),
        ensures
            r == is_legal_move(*position, bit_move),
    {
        let moves = MoveGeneration::generate_moves::<BitMove, Legal>(position);
        let ghost s = moves.moves();
        let mut i: usize = 0;
        while i < moves.len()
            invariant
                i <= s.len(),
                s == moves.moves(),
                s.len() == moves.entries().len(),
                forall|bm: BitMove| #[trigger] s.contains(bm) <==> is_legal_move(*position, bm),
                forall|j: int| 0 <= j < i ==> s[j] != bit_move,
            decreases s.len() - i,
        {
            let m = moves.get(i);
            proof {
                assert(s[i as int] == m);
            }
            if m == bit_move {
                proof {
                    assert(s.contains(m));
                }
                return true;
            }
            i = i + 1;
        }
        proof {
            if is_legal_move(*position, bit_move) {
                assert(s.contains(bit_move));
                let j = choose|j: int| 0 <= j < s.len() && s[j] == bit_move;
            }
        }
        false
    }

    /// Moves in UCI notation, separated by spaces.
    pub fn pv_string(moves: &Vec<BitMove>) -> (r: String)
        ensures
            r@ == crate::text::ascii_chars(pv_bytes(moves@)),
    {
        let mut bytes: Vec<u8> = Vec::new();
        let mut i: usize = 0;
        while i < moves.len()
            invariant
                i <= moves@.len(),
                bytes@ == pv_bytes(moves@.take(i as int)),
                crate::text::is_ascii_bytes(bytes@),
            decreases moves@.len() - i,
        {
            let m = moves[i];
            proof {
                assert(moves@.take(i + 1).drop_last() == moves@.take(i as int));
                assert(moves@.take(i + 1).last() == m);
                if i == 0 {
                    assert(moves@.take(1) =~= seq![m]);
                }
            }
            if i > 0 {
                bytes.push(32u8);
            }
            m.push_uci(&mut bytes);
            i = i + 1;
        }
        proof {
            assert(moves@.take(moves@.len() as int) == moves@);
        }
        crate::text::ascii_string(bytes)
    }

    /// The principal variation that the table holds, in UCI notation.
    pub fn get_pv_from_tt(&self, position: &Position, depth: u16) -> (r: String)
        requires
            self.wf(),
            position.wf(),
        ensures
            exists|moves: Seq<BitMove>| moves.len() <= depth && r@ == crate::text::ascii_chars(pv_bytes(moves)),
    {
        let moves = self.pv_moves_from_tt(position, depth);
        Self::pv_string(&moves)
    }
}

/// What one iteration of the search reports.
pub struct IterationReport {
    pub depth: u16,
    pub best_move: ScoringMove,
    pub nodes: u64,
    pub time: u128,
    /// The principal variation in UCI notation.
    pub pv: String,
}

impl Search {
    /// Searches one ply deeper at a time, from 1 to `depth`, and keeps the
    /// result of the last iteration that was not interrupted; stops early
    /// after a tablebase move or when the next iteration would likely run
    /// out of time. An interrupted iteration empties the table. When no
    /// iteration found a move, a random legal move is played. Returns the
    /// move and a report for each finished iteration.
    pub fn go_iterative_deepening(&mut self, position: &Position, depth: u16) -> (r: (ScoringMove, Vec<IterationReport>))
        requires
            old(self).wf(),
            position.wf(),
            position.has_kings(),
            depth < u16::MAX,
        ensures
            final(self).wf(),
            final(self).zobrist_key_history@ == old(self).zobrist_key_history@,
            r.1@.len() <= depth,
            iterations_result(*position, depth, r.0, r.1@),
            old(self).stop.seen() ==> final(self).stop.seen(),
            !final(self).stop.seen() && depth >= 1 ==> r.1@.len() >= 1,
            reports_explained(
                *position,
                old(self).zobrist_key_history@,
                old(self).transposition_table,
                r.1@,
                !final(self).stop.seen(),
            ),
    {
        let ghost mut tts: Seq<TranspositionTable> = Seq::empty();
        let mut best_scoring_move = ScoringMove::blank(BLANK);
        let mut reports: Vec<IterationReport> = Vec::new();
        let mut current_depth: u16 = 1;
        let mut done = false;
        while current_depth <= depth && !done
            invariant
                self.wf(),
                position.wf(),
                position.has_kings(),
                depth < u16::MAX,
                1 <= current_depth <= depth + 1,
                reports@.len() < current_depth,
                reports@.len() == current_depth - 1 || (done && reports@.len() == current_depth - 2 && self.stop.seen()),
                current_depth > 1 || !done,
                forall|k: int| 0 <= k < reports@.len() ==> (#[trigger] reports@[k]).depth == k + 1,
                reports@.len() == 0 ==> is_blank(best_scoring_move, 0),
                reports@.len() > 0 ==> best_scoring_move == reports@.last().best_move,
                old(self).stop.seen() ==> self.stop.seen(),
                self.zobrist_key_history@ == old(self).zobrist_key_history@,
                reports_searched(*position, old(self).zobrist_key_history@, tts, reports@),
                tts.len() > 0 ==> tts[0] == old(self).transposition_table,
                reports@.len() == 0 && !done ==> self.transposition_table == old(self).transposition_table,
                !self.stop.seen() ==> searched_without_stop(*position, old(self).zobrist_key_history@, tts, reports@),
            decreases depth + 1 - current_depth,
        {
            self.nodes = 0;
            let ghost tt = self.transposition_table;
            let ghost seen_before = self.stop.seen();
            let new_best_move = self.best_move(position, current_depth);
            let stopped = self.should_stop_calculating();
            if stopped {
                self.transposition_table.reset();
                proof {
                    crate::transposition_table::TranspositionTable::lemma_empty_lookup(self.transposition_table);
                }
                done = true;
            } else {
                best_scoring_move = new_best_move;
                let time = self.stop.time_passed_millis();
                let pv = self.get_pv_from_tt(position, current_depth);
                let ghost reports_before = reports@;
                reports.push(IterationReport { depth: current_depth, best_move: new_best_move, nodes: self.nodes, time, pv });
                proof {
                    let tts2 = tts.push(tt);
                    assert forall|k: int| 0 <= k < reports@.len() implies #[trigger] tts2[k] == tts2[k] && (
                    reports@[k].depth == k + 1) by {
                        if k < reports_before.len() {
                            assert(reports@[k] == reports_before[k]);
                        }
                    }
                    if !self.stop.seen() {
                        assert(!seen_before);
                        assert forall|k: int| 0 <= k < reports@.len() implies negamax_result(
                            *position,
                            #[trigger] tts2[k],
                            old(self).zobrist_key_history@,
                            START_ALPHA,
                            START_BETA,
                            (k + 1) as u16,
                            reports@[k].best_move,
                        ) by {
                            if k < reports_before.len() {
                                assert(reports@[k] == reports_before[k]);
                                assert(tts2[k] == tts[k]);
                            }
                        }
                    }
                    tts = tts2;
                }
                if time > u128::MAX / AVERAGE_BRANCHING_FACTOR {
                    done = true;
                } else {
                    match Self::iteration_outcome(false, new_best_move, time, self.stop.stop_time()) {
                        IterationOutcome::Continue => {},
                        _ => {
                            done = true;
                        },
                    }
                }
            }
            current_depth = current_depth + 1;
        }
        let chosen = self.modify_best_scoring_move_if_empty(position, best_scoring_move);
        proof {
            lemma_empty_not_legal(*position);
            assert(reports_searched(*position, old(self).zobrist_key_history@, tts, reports@));
            assert(reports_explained(
                *position,
                old(self).zobrist_key_history@,
                old(self).transposition_table,
                reports@,
                !self.stop.seen(),
            ));
        }
        (chosen, reports)
    }

    /// Searches the position within the time limit and to the depth given
    /// (255 plies when none is), then raises the stop flag.
    pub fn go(&mut self, position: &Position, depth: Option<u16>, stop_time: Option<u128>) -> (r: (ScoringMove, Vec<IterationReport>))
        requires
            old(self).wf(),
            position.wf(),
            position.has_kings(),
            depth matches Some(d) ==> d < u16::MAX,
        ensures
            final(self).wf(),
            final(self).zobrist_key_history@ == old(self).zobrist_key_history@,
            reports_explained(
                *position,
                old(self).zobrist_key_history@,
                old(self).transposition_table,
                r.1@,
                !final(self).stop.seen(),
            ),
            iterations_result(*position, match depth {
                Some(d) => d,
                None => 255,
            }, r.0, r.1@),
            r.1@.len() <= match depth {
                Some(d) => d,
                None => 255,
            },
            !final(self).stop.seen() && (depth matches Some(d) ==> d >= 1) ==> r.1@.len() >= 1,
    {
        self.reset(stop_time);
        let max_depth = match depth {
            Some(d) => d,
            None => 255,
        };
        let r = self.go_iterative_deepening(position, max_depth);
        self.begin_stop_calculating();
        r
    }
}

/// The move is pseudo-legal in the position.
pub open spec fn pseudo_legal_of(p: Position, bm: BitMove) -> bool {
    crate::move_generation::pseudo_legal(p, bm@)
}

} // verus!
