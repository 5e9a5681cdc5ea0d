use breakthrough::board::{BreakthroughMove, BreakthroughNode};
use breakthrough::game::Evaluation;
use breakthrough::table::TranspositionTable;

#[test]
fn zero_capacity_stores_nothing() {
    let mut table = TranspositionTable::new(0);
    let n = BreakthroughNode::default();
    table.put((n, 3, Evaluation::Heuristic(5)));
    assert!(table.get(&n, 0).is_none());
    assert_eq!(table.stats(), (0, 0, 0));
}

#[test]
fn hit_needs_same_position_and_enough_depth() {
    let mut table = TranspositionTable::new(16);
    let n = BreakthroughNode::default();
    table.put((n, 3, Evaluation::Heuristic(5)));
    assert_eq!(table.get(&n, 3), Some(&(n, 3, Evaluation::Heuristic(5))));
    assert_eq!(table.get(&n, 1).map(|e| e.2), Some(Evaluation::Heuristic(5)));
    assert!(table.get(&n, 4).is_none());
    let other = n.take_action(&BreakthroughMove(48, 40));
    assert!(table.get(&other, 0).is_none());
    assert_eq!(table.stats(), (16, 1, 0));
}

#[test]
fn overwrite_counts_collisions() {
    // one slot: every position shares it
    let mut table = TranspositionTable::new(1);
    let a = BreakthroughNode::default();
    let b = a.take_action(&BreakthroughMove(48, 40));
    table.put((a, 2, Evaluation::Heuristic(1)));
    table.put((a, 4, Evaluation::Heuristic(2)));
    assert_eq!(table.stats(), (1, 1, 0));
    assert_eq!(table.get(&a, 4).map(|e| e.2), Some(Evaluation::Heuristic(2)));
    table.put((b, 1, Evaluation::WhiteWinPly(9)));
    assert_eq!(table.stats(), (1, 1, 1));
    assert!(table.get(&a, 0).is_none());
    assert_eq!(table.get(&b, 1).map(|e| e.2), Some(Evaluation::WhiteWinPly(9)));
}
