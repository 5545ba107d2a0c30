use sisyphus32::fen::FenString;
use sisyphus32::perft::Perft;
use sisyphus32::position::Position;

#[test]
fn short_perft_tests_are_correct() {
    let outcomes = Perft::short_perft_tests();
    assert_eq!(outcomes.len(), 5);
    for outcome in &outcomes {
        assert!(outcome.passed(), "Perft test of {} did not get the target nodes!", outcome.name);
    }
}

#[test]
fn perft_of_starting_position_at_small_depths() {
    let position = Position::starting_position();
    assert_eq!(Perft::perft_driver_single_thread_clone(&position, 0), Some(1));
    assert_eq!(Perft::perft_driver_single_thread_clone(&position, 1), Some(20));
    assert_eq!(Perft::perft_driver_single_thread_clone(&position, 2), Some(400));
    assert_eq!(Perft::perft_driver_single_thread_clone(&position, 3), Some(8902));
    let result = Perft::perft_test(&position, 3).unwrap();
    assert_eq!(result.depth, 3);
    assert_eq!(result.nodes, 8902);
}

#[test]
fn perft_of_kiwipete_at_depth_two() {
    let position = FenString::kiwipete().parse().unwrap();
    assert_eq!(Perft::perft_driver_single_thread_clone(&position, 1), Some(48));
    assert_eq!(Perft::perft_driver_single_thread_clone(&position, 2), Some(2039));
}

#[test]
fn perft_with_undo_matches_perft_with_copies() {
    for fen in [FenString::kiwipete(), FenString::tricky(), FenString::tricky2(), FenString::rook()] {
        let position = fen.parse().unwrap();
        for depth in 1..=2u8 {
            assert_eq!(
                Perft::perft_driver_single_thread_undo_move(&position, depth),
                Perft::perft_driver_single_thread_clone(&position, depth)
            );
        }
    }
    let position = FenString::kiwipete().parse().unwrap();
    assert_eq!(Perft::perft_test_single_thread_undo_move(&position, 3).unwrap().nodes, 97862);
}

#[test]
fn perft_divide_sums_to_the_total() {
    let position = FenString::kiwipete().parse().unwrap();
    let divided = Perft::perft_divide(&position, 2).unwrap();
    assert_eq!(divided.len(), 48);
    assert_eq!(divided.iter().map(|(_, n)| *n).sum::<u64>(), 2039);
    let mut engine = sisyphus32::engine::Engine { position, nodes: 0 };
    assert!(engine.perft_driver(1));
    assert_eq!(engine.nodes, 48);
    assert_eq!(engine.perft_test(1).unwrap().len(), 48);
    assert_eq!(engine.nodes, 0);
}
