use sisyphus32::bit_move::{BitMove, ScoringMove};
use sisyphus32::killer_moves::KillerMoves;
use sisyphus32::transposition_table::{TTData, TTNodeType, TranspositionTable};
use sisyphus32::zobrist::ZobristKey;

#[test]
fn stored_data_is_found_again() {
    let mut table = TranspositionTable::new(1);
    let data = TTData { best_move: ScoringMove::new(BitMove(77), 12), depth: 3, node_type: TTNodeType::Exact };
    assert_eq!(table.probe(ZobristKey(12345)), None);
    table.store(ZobristKey(12345), data);
    assert_eq!(table.probe(ZobristKey(12345)), Some(data));
    assert_eq!(table.probe(ZobristKey(12346)), None);
    table.reset();
    assert_eq!(table.probe(ZobristKey(12345)), None);
}

#[test]
fn killer_moves_keep_the_latest_two() {
    let mut killers = KillerMoves::new();
    assert_eq!(killers.get_primary(3), Some(BitMove(0)));
    killers.update(BitMove(5), 3);
    killers.update(BitMove(9), 3);
    assert_eq!(killers.get_primary(3), Some(BitMove(9)));
    assert_eq!(killers.get_secondary(3), Some(BitMove(5)));
    assert_eq!(killers.get_primary(64), None);
    killers.update(BitMove(1), 64);
    assert_eq!(killers.get_secondary(64), None);
}

#[test]
fn two_tier_table_keeps_the_deeper_result_first() {
    let mut table = TranspositionTable::new(1);
    let deep = TTData { best_move: ScoringMove::new(BitMove(1), 5), depth: 6, node_type: TTNodeType::LowerBound };
    let shallow = TTData { best_move: ScoringMove::new(BitMove(2), 7), depth: 2, node_type: TTNodeType::Exact };
    table.store_two_tier(ZobristKey(99), deep);
    table.store_two_tier(ZobristKey(99), shallow);
    assert_eq!(table.probe_two_tier(ZobristKey(99)), Some(deep));
    assert_eq!(table.probe(ZobristKey(99)), Some(deep));
    let deeper = TTData { best_move: ScoringMove::new(BitMove(3), 9), depth: 8, node_type: TTNodeType::UpperBound };
    table.store_two_tier(ZobristKey(99), deeper);
    assert_eq!(table.probe_two_tier(ZobristKey(99)), Some(deeper));
}
