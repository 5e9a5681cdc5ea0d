use vstd::prelude::*;
use crate::board::{BreakthroughNode, BLACK_START, WHITE_START};
use crate::game::Evaluation;

verus! {

/// The number of set bits of `x`.
pub open spec fn ones(x: u64) -> nat
    decreases x,
{
    if x == 0 {
        0
    } else {
        (x % 2) as nat + ones(x / 2)
    }
}

/// Relies on u64::count_ones: the number of set bits.
pub assume_specification[ u64::count_ones ](x: u64) -> (r: u32)
    ensures
        r == ones(x),
;

/// The four central squares of each of the four middle rows.
pub const CENTER: u64 = 0x0000_3c3c_3c3c_0000;
/// White's half of the board.
pub const WHITE_SIDE: u64 = 0xffff_ffff_0000_0000;
/// Black's half of the board.
pub const BLACK_SIDE: u64 = 0x0000_0000_ffff_ffff;

/// Weight of one piece.
pub const MATERIAL_WEIGHT: i64 = 1000;
/// Weight of one piece on a central square.
pub const CENTER_WEIGHT: i64 = 400;
/// Weight of one piece in the other side's half.
pub const ATTACK_WEIGHT: i64 = 750;

/// The static score of a position from White's side: material, central squares held and
/// pieces in the other half, each White's count less Black's, weighted.
pub open spec fn heuristic_score(node: BreakthroughNode) -> int {
    let w = node.bitboard_white;
    let b = node.bitboard_black;
    MATERIAL_WEIGHT * (ones(w) - ones(b)) + CENTER_WEIGHT * (ones(w & CENTER) - ones(b & CENTER))
        + ATTACK_WEIGHT * (ones(w & BLACK_SIDE) - ones(b & WHITE_SIDE))
}

/// The piece counts of White and of Black.
pub fn popcount(node: &BreakthroughNode) -> (r: (u32, u32))
    ensures
        r.0 == ones(node.bitboard_white),
        r.1 == ones(node.bitboard_black),
{
    (node.bitboard_white.count_ones(), node.bitboard_black.count_ones())
}

/// The heuristic score of a position, from White's side. Only whole-board bit
/// operations and population counts, no branch on the position.
pub fn fast_heuristic(node: &BreakthroughNode) -> (r: Evaluation)
    ensures
        r == Evaluation::Heuristic(heuristic_score(*node) as i64),
        i64::MIN < heuristic_score(*node) <= i64::MAX,
{
    let w = node.bitboard_white;
    let b = node.bitboard_black;
    let wpop = w.count_ones() as i64 * MATERIAL_WEIGHT;
    let bpop = b.count_ones() as i64 * MATERIAL_WEIGHT;
    let w_center = (w & CENTER).count_ones() as i64 * CENTER_WEIGHT;
    let b_center = (b & CENTER).count_ones() as i64 * CENTER_WEIGHT;
    let w_attack = (w & BLACK_SIDE).count_ones() as i64 * ATTACK_WEIGHT;
    let b_attack = (b & WHITE_SIDE).count_ones() as i64 * ATTACK_WEIGHT;
    Evaluation::Heuristic((wpop + w_center + w_attack) - (bpop + b_center + b_attack))
}

} // verus!
