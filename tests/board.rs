use breakthrough::board::{BreakthroughMove, BreakthroughNode};
use breakthrough::evaluation::{fast_heuristic, popcount};
use breakthrough::game::{Evaluation, GameResult, Player};

fn node(white: &[u8], black: &[u8], to_play: Player, ply: u32) -> BreakthroughNode {
    let mut bitboard_white = 0u64;
    let mut bitboard_black = 0u64;
    for &s in white {
        bitboard_white |= 1u64 << s;
    }
    for &s in black {
        bitboard_black |= 1u64 << s;
    }
    BreakthroughNode { bitboard_black, bitboard_white, to_play, ply }
}

#[test]
fn starting_position_moves() {
    let start = BreakthroughNode::default();
    let moves = start.get_possible_actions();
    // 8 straight steps plus 7 steps each way diagonally from the front row
    assert_eq!(moves.len(), 22);
    let mut destinations: Vec<u8> = moves.iter().map(|m| m.1).collect();
    destinations.sort();
    destinations.dedup();
    assert_eq!(destinations, (40u8..48).collect::<Vec<u8>>());
    for m in &moves {
        assert!((48..56).contains(&m.0));
        assert!(start.bitboard_white & (1u64 << m.0) != 0);
    }
    // destination order, then straight, right, left for each destination
    assert_eq!(moves[0], BreakthroughMove(48, 40));
    assert_eq!(moves[1], BreakthroughMove(49, 40));
    assert_eq!(moves[2], BreakthroughMove(49, 41));
    assert_eq!(moves[3], BreakthroughMove(48, 41));
    assert_eq!(moves[4], BreakthroughMove(50, 41));
}

#[test]
fn black_moves_from_start() {
    let start = BreakthroughNode::default();
    let after = start.take_action(&BreakthroughMove(52, 44));
    let moves = after.get_possible_actions();
    assert_eq!(moves.len(), 22);
    for m in &moves {
        assert!((8..16).contains(&m.0));
        assert!((16..24).contains(&m.1));
    }
}

#[test]
fn diagonal_capture_and_blocked_straight() {
    // White on d4 (35), Black on d5 (27) and e5 (28)
    let n = node(&[35], &[27, 28], Player::White, 4);
    let moves = n.get_possible_actions();
    assert_eq!(moves, vec![BreakthroughMove(35, 26), BreakthroughMove(35, 28)]);
    let after = n.take_action(&BreakthroughMove(35, 28));
    assert_eq!(after.bitboard_white, 1u64 << 28);
    assert_eq!(after.bitboard_black, 1u64 << 27);
    assert_eq!(after.to_play, Player::Black);
    assert_eq!(after.ply, 5);
}

#[test]
fn edge_columns_do_not_wrap() {
    let n = node(&[40, 47], &[], Player::White, 0);
    let moves = n.get_possible_actions();
    assert_eq!(
        moves,
        vec![
            BreakthroughMove(40, 32),
            BreakthroughMove(40, 33),
            BreakthroughMove(47, 38),
            BreakthroughMove(47, 39),
        ]
    );
    let b = node(&[], &[16, 23], Player::Black, 1);
    let moves = b.get_possible_actions();
    assert_eq!(
        moves,
        vec![
            BreakthroughMove(16, 24),
            BreakthroughMove(16, 25),
            BreakthroughMove(23, 30),
            BreakthroughMove(23, 31),
        ]
    );
}

#[test]
fn sides_never_overlap_along_a_game() {
    let mut n = BreakthroughNode::default();
    let mut plies = 0u32;
    while !n.is_terminal() && plies < 300 {
        let moves = n.get_possible_actions();
        if moves.is_empty() {
            break;
        }
        // every move of this position keeps the sides apart
        for m in &moves {
            let child = n.take_action(m);
            assert_eq!(child.bitboard_white & child.bitboard_black, 0);
        }
        let pick = moves[(plies as usize * 7) % moves.len()];
        let before = n;
        n = n.take_action(&pick);
        assert_eq!(n.ply, before.ply + 1);
        assert_ne!(n.to_play, before.to_play);
        plies += 1;
    }
    assert!(plies > 0);
}

#[test]
fn ply_and_turn_advance_per_move() {
    let start = BreakthroughNode::default();
    let a = start.take_action(&BreakthroughMove(48, 40));
    let b = a.take_action(&BreakthroughMove(8, 16));
    assert_eq!((a.ply, a.to_play), (1, Player::Black));
    assert_eq!((b.ply, b.to_play), (2, Player::White));
    assert_eq!(start.ply, 0);
}

#[test]
fn result_and_terminal() {
    let start = BreakthroughNode::default();
    assert!(!start.is_terminal());
    assert_eq!(start.get_result(), GameResult::Undecided);
    let white_won = node(&[3], &[20], Player::Black, 9);
    assert!(white_won.is_terminal());
    assert_eq!(white_won.get_result(), GameResult::Win(Player::White));
    let black_won = node(&[20], &[60], Player::White, 10);
    assert!(black_won.is_terminal());
    assert_eq!(black_won.get_result(), GameResult::Win(Player::Black));
}

#[test]
fn heuristic_weights() {
    assert_eq!(fast_heuristic(&BreakthroughNode::default()), Evaluation::Heuristic(0));
    // White on d5 (27): material, centre and attack; Black on a8 (0): material only
    let n = node(&[27], &[0], Player::White, 0);
    assert_eq!(fast_heuristic(&n), Evaluation::Heuristic(1000 + 400 + 750 - 1000));
    let m = node(&[56, 57], &[36, 0, 1], Player::Black, 0);
    assert_eq!(fast_heuristic(&m), Evaluation::Heuristic(2000 - (3000 + 400 + 750)));
    assert_eq!(popcount(&m), (2, 3));
    assert_eq!(popcount(&BreakthroughNode::default()), (16, 16));
}
