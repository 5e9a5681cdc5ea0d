use vstd::prelude::*;
use crate::board::{BreakthroughMove, BreakthroughNode};
use crate::game::Evaluation;

verus! {

/// Relies on rand::thread_rng and rand::Rng::gen_range: a number drawn from `0..n`,
/// which is not empty.
#[verifier::external_body]
fn random_below(n: usize) -> (r: usize)
    requires
        n > 0,
    ensures
        r < n,
{
    rand::Rng::gen_range(&mut rand::thread_rng(), 0..n)
}

/// The move at `index` among the legal moves, with a neutral evaluation; no move when
/// the game is over or the index is out of range.
pub fn pick_move(node: &BreakthroughNode, index: usize) -> (r: (
    Option<BreakthroughMove>,
    Evaluation,
))
    ensures
        r.1 == Evaluation::Heuristic(0),
        r.0 == if !node.spec_is_terminal() && index < node.legal_moves().len() {
            Some(node.legal_moves()[index as int])
        } else {
            None
        },
{
    if node.is_terminal() {
        return (None, Evaluation::Heuristic(0));
    }
    let actions = node.get_possible_actions();
    if index < actions.len() {
        (Some(actions[index]), Evaluation::Heuristic(0))
    } else {
        (None, Evaluation::Heuristic(0))
    }
}

/// A legal move drawn at random, with a neutral evaluation; no move when the game is
/// over. An unfinished game must leave the side to move a legal move.
pub fn get_move(node: &BreakthroughNode) -> (r: (Option<BreakthroughMove>, Evaluation))
    requires
        !node.spec_is_terminal() ==> node.legal_moves().len() > 0,
    ensures
        r.1 == Evaluation::Heuristic(0),
        node.spec_is_terminal() ==> r.0 is None,
        !node.spec_is_terminal() ==> (r.0 matches Some(m) && node.legal_moves().contains(m)),
{
    if node.is_terminal() {
        return (None, Evaluation::Heuristic(0));
    }
    let n = node.get_possible_actions().len();
    let index = random_below(n);
    let r = pick_move(node, index);
    assert(node.legal_moves().contains(node.legal_moves()[index as int]));
    r
}

} // verus!
