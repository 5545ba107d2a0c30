use sisyphus32::move_list::MoveList;
use sisyphus32::move_generation::{MoveGeneration, PseudoLegal};
use std::sync::atomic::AtomicBool;
use std::sync::Arc;

use sisyphus32::bit_move::BitMove;
use sisyphus32::fen;
use sisyphus32::position::Position;
use sisyphus32::search::{IterationOutcome, Search, CHECKMATE, START_ALPHA, START_BETA};
use sisyphus32::square::{Square, A1, A8};
use sisyphus32::bit_move::ScoringMove;

fn new_search() -> Search {
    Search::new(Arc::new(AtomicBool::new(false)))
}

#[test]
fn negamax_finds_a_back_rank_mate() {
    let position = fen::parse("6k1/5ppp/8/8/8/8/5PPP/R5K1 w - -").unwrap();
    let mut search = new_search();
    let best = search.best_move(&position, 2);
    assert_eq!(best.bit_move.source(), Square(A1));
    assert_eq!(best.bit_move.target(), Square(A8));
    assert_eq!(best.score, CHECKMATE - 1);
    assert!(Search::is_checkmate(best.score));
    assert_eq!(Search::mate_in(best.score), 1);
    assert!(search.zobrist_key_history.is_empty());
    assert!(search.nodes > 0);
}

#[test]
fn minimax_finds_a_back_rank_mate() {
    let position = fen::parse("6k1/5ppp/8/8/8/8/5PPP/R5K1 w - -").unwrap();
    let mut search = new_search();
    let best = search.minimax_best_move(&position, 2);
    assert_eq!(best.bit_move.source(), Square(A1));
    assert_eq!(best.bit_move.target(), Square(A8));
    assert_eq!(best.score, CHECKMATE);
}

#[test]
fn a_mated_side_has_no_move() {
    let position = fen::parse("R5k1/5ppp/8/8/8/8/5PPP/6K1 b - -").unwrap();
    let mut search = new_search();
    let best = search.negamax_best_move(&position, START_ALPHA, START_BETA, 3);
    assert_eq!(best.bit_move, BitMove(0));
    assert_eq!(best.score, -CHECKMATE);
}

#[test]
fn starting_position_search_gives_a_legal_move() {
    let position = Position::starting_position();
    let mut search = new_search();
    let best = search.best_move(&position, 3);
    let legal = sisyphus32::move_generation::MoveGeneration::generate_moves::<BitMove, sisyphus32::move_generation::Legal>(&position);
    assert!(legal.iter().iter().any(|m| *m == best.bit_move));
    let random = search.random_best_move(&position);
    assert!(legal.iter().iter().any(|m| *m == random.bit_move));
    let pv = search.get_pv_from_tt(&position, 3);
    assert!(pv.len() >= 4);
}

#[test]
fn stop_time_and_iteration_decisions() {
    assert_eq!(Search::calculate_stop_time(Some(50_000), Some(100)), Some(2_100));
    assert_eq!(Search::calculate_stop_time(None, Some(100)), None);
    assert!(Search::should_end_search_early(500, Some(2_000)));
    assert!(!Search::should_end_search_early(300, Some(2_000)));
    assert!(!Search::should_end_search_early(300, None));
    let quiet = ScoringMove::blank(10);
    assert_eq!(Search::iteration_outcome(true, quiet, 0, None), IterationOutcome::Interrupted);
    assert_eq!(Search::iteration_outcome(false, quiet, 500, Some(2_000)), IterationOutcome::OutOfTime);
    assert_eq!(Search::iteration_outcome(false, quiet, 100, Some(2_000)), IterationOutcome::Continue);
    assert_eq!(Search::mate_in(-(CHECKMATE - 4)), -2);
    assert_eq!(Search::mate_in(CHECKMATE - 3), 2);
}

#[test]
fn quiescence_stands_pat_and_cuts_off_at_beta() {
    let position = Position::starting_position();
    let mut search = new_search();
    let quiet = search.quiescence(&position, -50, 50);
    assert_eq!(quiet, ScoringMove::blank(0));
    let cut = search.quiescence(&position, -50, -10);
    assert_eq!(cut, ScoringMove::blank(-10));
    let raised = search.quiescence(&position, 30, 60);
    assert_eq!(raised, ScoringMove::blank(30));
}

#[test]
fn lazy_smp_keeps_a_mate_found() {
    let mate = ScoringMove::blank(CHECKMATE - 3);
    let plain = ScoringMove::blank(40);
    assert_eq!(Search::lazy_smp_keep(mate, plain), mate);
    assert_eq!(Search::lazy_smp_keep(plain, mate), mate);
    assert_eq!(Search::lazy_smp_keep(plain, ScoringMove::blank(-5)), ScoringMove::blank(-5));
}

#[test]
fn negamax_takes_a_free_queen_at_one_ply() {
    let position = fen::parse("4k3/8/8/3q4/8/8/3R4/4K3 w - -").unwrap();
    let mut search = new_search();
    let best = search.negamax_best_move(&position, START_ALPHA, START_BETA, 1);
    assert_eq!(best.bit_move.source(), Square(51));
    assert_eq!(best.bit_move.target(), Square(27));
    assert!(best.score > 0);
}

#[test]
fn sorting_puts_the_highest_score_first() {
    let mut list: MoveList<ScoringMove> = MoveList::new();
    list.add(ScoringMove::new(BitMove(1), 1));
    list.add(ScoringMove::new(BitMove(2), 5));
    list.add(ScoringMove::new(BitMove(3), 3));
    list.sort_by_score();
    let scores: Vec<i16> = list.iter().iter().map(|m| m.score).collect();
    assert_eq!(scores, vec![5, 3, 1]);
}

#[test]
fn the_killer_move_is_searched_first() {
    let position = Position::starting_position();
    let mut search = new_search();
    let mut moves = MoveGeneration::generate_moves::<ScoringMove, PseudoLegal>(&position);
    let killer = moves.get(5).bit_move;
    search.killer_moves.update(killer, 0);
    search.order_moves(&position, &mut moves);
    assert_eq!(moves.get(0).bit_move, killer);
    assert_eq!(moves.get(0).score, 2000);
    assert_eq!(moves.len(), 20);
}
