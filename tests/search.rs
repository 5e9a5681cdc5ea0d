use breakthrough::board::{BreakthroughMove, BreakthroughNode};
use breakthrough::game::{Evaluation, Player};
use breakthrough::random;
use breakthrough::search::{evaluate, evaluate_with_ttable, from_white_side, negamax};
use breakthrough::table::TranspositionTable;

fn node(white: &[u8], black: &[u8], to_play: Player, ply: u32) -> BreakthroughNode {
    let mut bitboard_white = 0u64;
    let mut bitboard_black = 0u64;
    for &s in white {
        bitboard_white |= 1u64 << s;
    }
    for &s in black {
        bitboard_black |= 1u64 << s;
    }
    BreakthroughNode { bitboard_black, bitboard_white, to_play, ply }
}

/// The evaluation from White's side, as the tables of known wins state it.
fn absolute(n: &BreakthroughNode, e: Evaluation) -> Evaluation {
    match n.to_play {
        Player::White => e,
        Player::Black => -e,
    }
}

/// White on e6 (20) two steps from the goal, Black far away on a8 (0): White wins at
/// ply 3 whatever Black does.
fn white_wins_in_three() -> BreakthroughNode {
    node(&[20, 56], &[0], Player::White, 0)
}

/// Black on c3 (42) two steps from the goal, White far away: Black wins two plies after
/// its next move.
fn black_wins_in_three() -> BreakthroughNode {
    node(&[63], &[42], Player::Black, 7)
}

/// White on d7 (11), one step from the goal.
fn white_wins_next() -> BreakthroughNode {
    node(&[11, 60], &[1, 2, 3, 4], Player::White, 12)
}

#[test]
fn fast_win_matches_search_at_every_depth() {
    let n = white_wins_next();
    for depth in 1..6 {
        let (m, e) = evaluate(&n, depth);
        assert_eq!(e, Evaluation::WhiteWinPly(13));
        assert!(n.get_possible_actions().contains(&m));
        let mut table = TranspositionTable::new(64);
        assert_eq!(evaluate_with_ttable(&n, depth, &mut table).1, Evaluation::WhiteWinPly(13));
    }
    let b = node(&[63], &[50], Player::Black, 5);
    assert_eq!(evaluate(&b, 1).1, Evaluation::WhiteWinPly(6));
    assert_eq!(absolute(&b, evaluate(&b, 1).1), Evaluation::BlackWinPly(6));
}

#[test]
fn depth_zero_gives_the_heuristic() {
    let n = white_wins_in_three();
    let (m, e) = evaluate(&n, 0);
    assert_eq!(m, n.get_possible_actions()[0]);
    assert!(matches!(e, Evaluation::Heuristic(_)));
}

#[test]
fn known_forced_wins_without_table() {
    let cases = [
        (white_wins_in_three(), Evaluation::WhiteWinPly(3), 3),
        (black_wins_in_three(), Evaluation::BlackWinPly(10), 3),
        (white_wins_next(), Evaluation::WhiteWinPly(13), 1),
    ];
    for (n, expected, distance) in cases {
        for depth in distance..distance + 3 {
            let (m, e) = evaluate(&n, depth);
            assert_eq!(absolute(&n, e), expected);
            assert!(n.get_possible_actions().contains(&m));
        }
    }
}

#[test]
fn known_forced_wins_with_tables_of_any_size() {
    let cases = [
        (white_wins_in_three(), Evaluation::WhiteWinPly(3), 3),
        (black_wins_in_three(), Evaluation::BlackWinPly(10), 3),
        (white_wins_next(), Evaluation::WhiteWinPly(13), 1),
    ];
    for capacity in [0usize, 1, 7, 16, 1 << 16] {
        let mut table = TranspositionTable::new(capacity);
        for (n, expected, distance) in cases {
            for depth in distance..distance + 3 {
                let (_, e) = evaluate_with_ttable(&n, depth, &mut table);
                assert_eq!(absolute(&n, e), expected);
            }
        }
    }
}

#[test]
fn unstoppable_threat_loses_two_plies_on() {
    // Black on e2 (52) wins next move; White on a3 (40) cannot capture it
    let n = node(&[40], &[52], Player::White, 20);
    assert_eq!(evaluate(&n, 2).1, Evaluation::BlackWinPly(22));
}

#[test]
fn threat_forces_the_capture() {
    // Black on e2 (52) threatens; White on f1 (61) can capture it
    let n = node(&[61, 48], &[52, 0], Player::White, 20);
    let (m, e) = evaluate(&n, 2);
    assert_eq!(m, BreakthroughMove(61, 52));
    assert!(Evaluation::BlackWinPly(1000) < e);
}

#[test]
fn repeated_queries_give_the_same_result() {
    let start = BreakthroughNode::default();
    let first = evaluate(&start, 3);
    let second = evaluate(&start, 3);
    assert_eq!(first, second);

    let mut table = TranspositionTable::new(1 << 12);
    let with_table = evaluate_with_ttable(&start, 3, &mut table);
    assert_eq!(with_table, first);
    let again = evaluate_with_ttable(&start, 3, &mut table);
    assert_eq!(again.1, with_table.1);
    let (capacity, occupied, _) = table.stats();
    assert_eq!(capacity, 1 << 12);
    assert!(occupied > 0);
}

#[test]
fn negamax_reports_a_legal_move() {
    let n = white_wins_in_three();
    let mut table = TranspositionTable::new(0);
    let (m, e) = negamax(
        &n,
        3,
        Evaluation::BlackWinPly(0),
        Evaluation::WhiteWinPly(0),
        &mut table,
    );
    assert_eq!(e, Evaluation::WhiteWinPly(3));
    assert!(n.get_possible_actions().contains(&m.unwrap()));
}

#[test]
fn random_move_is_legal() {
    let start = BreakthroughNode::default();
    let legal = start.get_possible_actions();
    for _ in 0..50 {
        let (m, e) = random::get_move(&start);
        assert!(legal.contains(&m.unwrap()));
        assert_eq!(e, Evaluation::Heuristic(0));
    }
    let finished = node(&[2], &[40], Player::Black, 9);
    assert_eq!(random::get_move(&finished).0, None);
    assert_eq!(random::pick_move(&start, 3).0, Some(legal[3]));
    assert_eq!(random::pick_move(&start, 22).0, None);
}

#[test]
fn evaluations_turn_to_white_side() {
    let white = node(&[20], &[0], Player::White, 0);
    let black = node(&[20], &[0], Player::Black, 1);
    assert_eq!(from_white_side(&white, Evaluation::WhiteWinPly(4)), Evaluation::WhiteWinPly(4));
    assert_eq!(from_white_side(&black, Evaluation::WhiteWinPly(4)), Evaluation::BlackWinPly(4));
    assert_eq!(from_white_side(&black, Evaluation::Heuristic(-30)), Evaluation::Heuristic(30));
}
