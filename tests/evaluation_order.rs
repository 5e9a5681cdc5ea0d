use breakthrough::game::Evaluation::{BlackWinPly, Heuristic, WhiteWinPly};
use std::cmp::Ordering;

#[test]
fn test_evaluation_ord() {
    assert!(Heuristic(-1) < Heuristic(1));
    assert!(BlackWinPly(1) < BlackWinPly(2));
    assert!(WhiteWinPly(2) < WhiteWinPly(1));
    assert!(BlackWinPly(1) < WhiteWinPly(1));
    assert!(Heuristic(0) < WhiteWinPly(1));
    assert!(BlackWinPly(1) < Heuristic(0));
    assert!(Heuristic(0) < WhiteWinPly(0));
    assert!(Heuristic(0) != WhiteWinPly(0));
}

#[test]
fn mod_test_evaluation_ord() {
    assert!(Heuristic(-1) < Heuristic(1));
    assert!(BlackWinPly(1) < BlackWinPly(2));
    assert!(WhiteWinPly(2) < WhiteWinPly(1));
    assert!(BlackWinPly(1) < WhiteWinPly(1));
    assert!(Heuristic(0) < WhiteWinPly(1));
    assert!(BlackWinPly(1) < Heuristic(0));
    assert!(Heuristic(0) < WhiteWinPly(0));
    assert!(Heuristic(0) != WhiteWinPly(0));
}

#[test]
fn test_negation() {
    assert_eq!(-Heuristic(10), Heuristic(-10));
    assert_eq!(-WhiteWinPly(2), BlackWinPly(2));
    assert_eq!(-BlackWinPly(5), WhiteWinPly(5));
}

#[test]
fn mod_test_negation() {
    assert_eq!(!Heuristic(10), Heuristic(-10));
    assert_eq!(!WhiteWinPly(2), BlackWinPly(2));
    assert_eq!(!BlackWinPly(5), WhiteWinPly(5));
}

#[test]
fn closer_wins_rank_further_out() {
    assert!(WhiteWinPly(1) > WhiteWinPly(5));
    assert!(BlackWinPly(1) < BlackWinPly(5));
    assert!(BlackWinPly(u32::MAX) < Heuristic(i64::MIN));
    assert!(Heuristic(i64::MAX) < WhiteWinPly(u32::MAX));
}

#[test]
fn order_is_strict_and_total() {
    let values = [
        BlackWinPly(1),
        BlackWinPly(5),
        Heuristic(-3),
        Heuristic(0),
        Heuristic(7),
        WhiteWinPly(5),
        WhiteWinPly(1),
    ];
    for (i, a) in values.iter().enumerate() {
        assert!(!(a < a));
        for (j, b) in values.iter().enumerate() {
            assert_eq!(a < b, i < j);
            assert_eq!(a == b, i == j);
        }
    }
}

#[test]
fn negating_twice_gives_back_the_evaluation() {
    for e in [BlackWinPly(3), WhiteWinPly(0), Heuristic(-42), Heuristic(i64::MAX)] {
        assert_eq!(-(-e), e);
        assert_eq!(e.negate().negate(), e);
    }
    assert_eq!(Heuristic(i64::MAX).negate(), Heuristic(-i64::MAX));
}

#[test]
fn compare_and_max_follow_the_order() {
    assert_eq!(WhiteWinPly(3).compare(&WhiteWinPly(4)), Ordering::Greater);
    assert_eq!(BlackWinPly(3).compare(&BlackWinPly(4)), Ordering::Less);
    assert_eq!(Heuristic(2).compare(&Heuristic(2)), Ordering::Equal);
    assert!(BlackWinPly(9).is_below(&Heuristic(-1)));
    assert_eq!(Heuristic(5).max_of(WhiteWinPly(40)), WhiteWinPly(40));
    assert_eq!(WhiteWinPly(2).max_of(WhiteWinPly(4)), WhiteWinPly(2));
}
