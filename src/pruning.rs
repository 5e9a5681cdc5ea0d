use vstd::prelude::*;
use vstd::arithmetic::power2::{lemma2_to64, lemma2_to64_rest, lemma_pow2_unfold, pow2};
use crate::board::{BreakthroughMove, BreakthroughNode};
use crate::evaluation::{heuristic_score, ones, BLACK_SIDE, CENTER, WHITE_SIDE};
use crate::game::{lemma_negation_involution, Evaluation};
use crate::search::{
    filtered_moves, leaf_value, search, search_moves, search_order, spec_fast_win,
};
use crate::table::Entry;

verus! {

/// The full-width value of `node` searched to `depth`, from the side to move: the same
/// rules as `search` at the leaves, for a fast win and for a position with no move worth
/// searching, but every move worth searching tried in generation order, with no window,
/// no pruning and no table.
pub open spec fn full_value(node: BreakthroughNode, depth: u32) -> Evaluation
    decreases depth, 1int, 0int,
{
    if node.spec_is_terminal() || depth == 0 {
        leaf_value(node)
    } else if spec_fast_win(node) is Some {
        spec_fast_win(node).unwrap()
    } else if filtered_moves(node).len() == 0 {
        Evaluation::BlackWinPly((node.ply + 2) as u32)
    } else {
        fold_value(node, depth, filtered_moves(node), 0, Evaluation::BlackWinPly(node.ply))
    }
}

/// The best of `best` and the negated full-width values of the successors after
/// `moves[i..]`.
pub open spec fn fold_value(
    node: BreakthroughNode,
    depth: u32,
    moves: Seq<BreakthroughMove>,
    i: int,
    best: Evaluation,
) -> Evaluation
    decreases depth, 0int, moves.len() - i,
{
    if i < 0 || i >= moves.len() || depth == 0 {
        best
    } else {
        fold_value(
            node,
            depth,
            moves,
            i + 1,
            best.spec_max(full_value(node.spec_take_action(moves[i]), (depth - 1) as u32).negated()),
        )
    }
}

/// `e` lies between a loss and a win at ply `p`, and can be negated.
pub open spec fn in_range(e: Evaluation, p: u32) -> bool {
    &&& !e.spec_lt(Evaluation::BlackWinPly(p))
    &&& !Evaluation::WhiteWinPly(p).spec_lt(e)
    &&& e.negatable()
}

proof fn lemma_ones_le(x: u64, k: nat)
    requires
        (x as nat) < pow2(k),
    ensures
        ones(x) <= k,
    decreases x,
{
    lemma2_to64();
    if x > 0 {
        assert(k > 0);
        lemma_pow2_unfold(k);
        lemma_ones_le(x / 2, (k - 1) as nat);
    }
}

proof fn lemma_ones_bound(x: u64)
    ensures
        ones(x) <= 64,
{
    lemma2_to64_rest();
    lemma_ones_le(x, 64);
}

proof fn lemma_heuristic_bound(node: BreakthroughNode)
    ensures
        -200_000 <= heuristic_score(node) <= 200_000,
{
    let w = node.bitboard_white;
    let b = node.bitboard_black;
    lemma_ones_bound(w);
    lemma_ones_bound(b);
    lemma_ones_bound(w & CENTER);
    lemma_ones_bound(b & CENTER);
    lemma_ones_bound(w & BLACK_SIDE);
    lemma_ones_bound(b & WHITE_SIDE);
}

proof fn lemma_leaf_in_range(node: BreakthroughNode)
    ensures
        in_range(leaf_value(node), node.ply),
{
    lemma_heuristic_bound(node);
}

proof fn lemma_full_value_in_range(node: BreakthroughNode, depth: u32)
    requires
        node.ply + depth + 2 <= u32::MAX,
    ensures
        in_range(full_value(node, depth), node.ply),
    decreases depth, 1int, 0int,
{
    lemma_leaf_in_range(node);
    if !(node.spec_is_terminal() || depth == 0) && spec_fast_win(node) is None
        && filtered_moves(node).len() != 0 {
        lemma_fold_value_in_range(
            node,
            depth,
            filtered_moves(node),
            0,
            Evaluation::BlackWinPly(node.ply),
        );
    }
}

proof fn lemma_fold_value_in_range(
    node: BreakthroughNode,
    depth: u32,
    moves: Seq<BreakthroughMove>,
    i: int,
    best: Evaluation,
)
    requires
        node.ply + depth + 2 <= u32::MAX,
        in_range(best, node.ply),
    ensures
        in_range(fold_value(node, depth, moves, i, best), node.ply),
    decreases depth, 0int, moves.len() - i,
{
    if !(i < 0 || i >= moves.len() || depth == 0) {
        let child = node.spec_take_action(moves[i]);
        lemma_full_value_in_range(child, (depth - 1) as u32);
        let v = full_value(child, (depth - 1) as u32);
        lemma_negation_involution(v, v);
        lemma_fold_value_in_range(node, depth, moves, i + 1, best.spec_max(v.negated()));
    }
}

/// With no table, `search` leaves the table empty and its result lies in range.
proof fn lemma_search_in_range(
    node: BreakthroughNode,
    depth: u32,
    alpha: Evaluation,
    beta: Evaluation,
)
    requires
        node.ply + depth + 2 <= u32::MAX,
    ensures
        in_range(search(node, depth, alpha, beta, Seq::empty()).1, node.ply),
        search(node, depth, alpha, beta, Seq::empty()).2 == Seq::<Option<Entry>>::empty(),
    decreases depth, 1int, 0int,
{
    lemma_leaf_in_range(node);
    if !(node.spec_is_terminal() || depth == 0) && spec_fast_win(node) is None
        && filtered_moves(node).len() != 0 {
        lemma_search_moves_in_range(
            node,
            depth,
            search_order(node, depth),
            0,
            alpha,
            beta,
            None,
            Evaluation::BlackWinPly(node.ply),
        );
    }
}

proof fn lemma_search_moves_in_range(
    node: BreakthroughNode,
    depth: u32,
    moves: Seq<BreakthroughMove>,
    i: int,
    alpha: Evaluation,
    beta: Evaluation,
    best_move: Option<BreakthroughMove>,
    best: Evaluation,
)
    requires
        node.ply + depth + 2 <= u32::MAX,
        in_range(best, node.ply),
    ensures
        in_range(
            search_moves(node, depth, moves, i, alpha, beta, best_move, best, Seq::empty()).1,
            node.ply,
        ),
        !search_moves(node, depth, moves, i, alpha, beta, best_move, best, Seq::empty()).1.spec_lt(
            best,
        ),
        search_moves(node, depth, moves, i, alpha, beta, best_move, best, Seq::empty()).2
            == Seq::<Option<Entry>>::empty(),
    decreases depth, 0int, moves.len() - i,
{
    if !(i < 0 || i >= moves.len() || depth == 0) {
        let m = moves[i];
        let child = node.spec_take_action(m);
        lemma_search_in_range(child, (depth - 1) as u32, beta.negated(), alpha.negated());
        let c = search(child, (depth - 1) as u32, beta.negated(), alpha.negated(), Seq::empty());
        lemma_negation_involution(c.1, c.1);
        let v = c.1.negated();
        let bm = if best.spec_lt(v) {
            Some(m)
        } else {
            best_move
        };
        let b = best.spec_max(v);
        let a = alpha.spec_max(b);
        if a.spec_lt(beta) {
            lemma_search_moves_in_range(node, depth, moves, i + 1, a, beta, bm, b);
        }
    }
}

/// Negation reverses the strict order both ways.
proof fn lemma_neg_flip(x: Evaluation, y: Evaluation)
    requires
        x.negatable(),
        y.negatable(),
    ensures
        x.spec_lt(y) <==> y.negated().spec_lt(x.negated()),
        x.negated().negatable(),
        y.negated().negatable(),
        x.negated().negated() == x,
        y.negated().negated() == y,
{
    lemma_negation_involution(x, y);
    lemma_negation_involution(y.negated(), x.negated());
    lemma_negation_involution(y, x);
}

proof fn lemma_fold_ge(
    node: BreakthroughNode,
    depth: u32,
    moves: Seq<BreakthroughMove>,
    i: int,
    x: Evaluation,
)
    ensures
        !fold_value(node, depth, moves, i, x).spec_lt(x),
    decreases moves.len() - i,
{
    if !(i < 0 || i >= moves.len() || depth == 0) {
        let t = full_value(node.spec_take_action(moves[i]), (depth - 1) as u32).negated();
        lemma_fold_ge(node, depth, moves, i + 1, x.spec_max(t));
    }
}

proof fn lemma_fold_mono(
    node: BreakthroughNode,
    depth: u32,
    moves: Seq<BreakthroughMove>,
    i: int,
    x: Evaluation,
    y: Evaluation,
)
    requires
        !y.spec_lt(x),
    ensures
        !fold_value(node, depth, moves, i, y).spec_lt(fold_value(node, depth, moves, i, x)),
    decreases moves.len() - i,
{
    if !(i < 0 || i >= moves.len() || depth == 0) {
        let t = full_value(node.spec_take_action(moves[i]), (depth - 1) as u32).negated();
        lemma_fold_mono(node, depth, moves, i + 1, x.spec_max(t), y.spec_max(t));
    }
}

/// Once the fold rises above its start, a lower start reaches the same height.
proof fn lemma_fold_escape(
    node: BreakthroughNode,
    depth: u32,
    moves: Seq<BreakthroughMove>,
    i: int,
    x: Evaluation,
    y: Evaluation,
)
    requires
        x.spec_lt(fold_value(node, depth, moves, i, x)),
    ensures
        !fold_value(node, depth, moves, i, y).spec_lt(fold_value(node, depth, moves, i, x)),
    decreases moves.len() - i,
{
    if !(i < 0 || i >= moves.len() || depth == 0) {
        let t = full_value(node.spec_take_action(moves[i]), (depth - 1) as u32).negated();
        let x1 = x.spec_max(t);
        let y1 = y.spec_max(t);
        if x1.spec_lt(fold_value(node, depth, moves, i + 1, x1)) {
            lemma_fold_escape(node, depth, moves, i + 1, x1, y1);
        } else {
            lemma_fold_ge(node, depth, moves, i + 1, x1);
            lemma_fold_ge(node, depth, moves, i + 1, y1);
        }
    }
}

/// The negated full-width value of the successor after `m`.
pub open spec fn child_score(node: BreakthroughNode, depth: u32, m: BreakthroughMove) -> Evaluation {
    full_value(node.spec_take_action(m), (depth - 1) as u32).negated()
}

/// The fold is the largest of its start and the scores of the moves it passes.
proof fn lemma_fold_is_max(
    node: BreakthroughNode,
    depth: u32,
    moves: Seq<BreakthroughMove>,
    i: int,
    x: Evaluation,
)
    requires
        depth > 0,
        0 <= i <= moves.len(),
    ensures
        !fold_value(node, depth, moves, i, x).spec_lt(x),
        forall|j: int|
            i <= j < moves.len() ==> !fold_value(node, depth, moves, i, x).spec_lt(
                #[trigger] child_score(node, depth, moves[j]),
            ),
        fold_value(node, depth, moves, i, x) == x || exists|j: int|
            i <= j < moves.len() && fold_value(node, depth, moves, i, x) == #[trigger] child_score(
                node,
                depth,
                moves[j],
            ),
    decreases moves.len() - i,
{
    if i < moves.len() {
        let t = child_score(node, depth, moves[i]);
        let x1 = x.spec_max(t);
        lemma_fold_is_max(node, depth, moves, i + 1, x1);
        let f = fold_value(node, depth, moves, i, x);
        assert(f == fold_value(node, depth, moves, i + 1, x1));
        if f != x && f == x1 {
            assert(f == t);
        }
    }
}

/// Two lists of the same moves fold to the same value, whatever their order.
proof fn lemma_fold_same_moves(
    node: BreakthroughNode,
    depth: u32,
    s1: Seq<BreakthroughMove>,
    s2: Seq<BreakthroughMove>,
    x: Evaluation,
)
    requires
        depth > 0,
        forall|m: BreakthroughMove| s1.contains(m) <==> s2.contains(m),
    ensures
        fold_value(node, depth, s1, 0, x) == fold_value(node, depth, s2, 0, x),
{
    lemma_fold_is_max(node, depth, s1, 0, x);
    lemma_fold_is_max(node, depth, s2, 0, x);
    let f1 = fold_value(node, depth, s1, 0, x);
    let f2 = fold_value(node, depth, s2, 0, x);
    assert(!f2.spec_lt(f1)) by {
        if f1 != x {
            let j = choose|j: int| 0 <= j < s1.len() && f1 == child_score(node, depth, s1[j]);
            assert(s1.contains(s1[j]));
            let k = choose|k: int| 0 <= k < s2.len() && s2[k] == s1[j];
            assert(!f2.spec_lt(child_score(node, depth, s2[k])));
        }
    }
    assert(!f1.spec_lt(f2)) by {
        if f2 != x {
            let j = choose|j: int| 0 <= j < s2.len() && f2 == child_score(node, depth, s2[j]);
            assert(s2.contains(s2[j]));
            let k = choose|k: int| 0 <= k < s1.len() && s1[k] == s2[j];
            assert(!f1.spec_lt(child_score(node, depth, s1[k])));
        }
    }
    crate::game::lemma_order_strict_total(f1, f2, f1);
}

/// Fail-soft alpha-beta bounds of the search without a table: below `beta` the result
/// bounds the full-width value from above, above `alpha` from below.
proof fn lemma_search_bounds(node: BreakthroughNode, depth: u32, alpha: Evaluation, beta: Evaluation)
    requires
        node.ply + depth + 2 <= u32::MAX,
        alpha.spec_lt(beta),
        alpha.negatable(),
        beta.negatable(),
    ensures
        search(node, depth, alpha, beta, Seq::empty()).1.spec_lt(beta) ==> !search(
            node,
            depth,
            alpha,
            beta,
            Seq::empty(),
        ).1.spec_lt(full_value(node, depth)),
        alpha.spec_lt(search(node, depth, alpha, beta, Seq::empty()).1) ==> !full_value(
            node,
            depth,
        ).spec_lt(search(node, depth, alpha, beta, Seq::empty()).1),
    decreases depth, 1int, 0int,
{
    if !(node.spec_is_terminal() || depth == 0) && spec_fast_win(node) is None
        && filtered_moves(node).len() != 0 {
        let b0 = Evaluation::BlackWinPly(node.ply);
        assert forall|m: BreakthroughMove|
            search_order(node, depth).contains(m) <==> filtered_moves(node).contains(m) by {
            crate::search::lemma_search_order_same_moves(node, depth, m);
        }
        lemma_fold_same_moves(node, depth, search_order(node, depth), filtered_moves(node), b0);
        lemma_search_moves_bounds(
            node,
            depth,
            search_order(node, depth),
            0,
            alpha,
            alpha,
            beta,
            None,
            b0,
        );
    }
}

proof fn lemma_search_moves_bounds(
    node: BreakthroughNode,
    depth: u32,
    moves: Seq<BreakthroughMove>,
    i: int,
    alpha0: Evaluation,
    a: Evaluation,
    beta: Evaluation,
    best_move: Option<BreakthroughMove>,
    b: Evaluation,
)
    requires
        node.ply + depth + 2 <= u32::MAX,
        !a.spec_lt(alpha0),
        a.spec_lt(beta),
        !alpha0.spec_max(b).spec_lt(a),
        alpha0.negatable(),
        a.negatable(),
        beta.negatable(),
        in_range(b, node.ply),
    ensures
        search_moves(node, depth, moves, i, a, beta, best_move, b, Seq::empty()).1.spec_lt(beta)
            ==> !search_moves(node, depth, moves, i, a, beta, best_move, b, Seq::empty()).1.spec_lt(
            fold_value(node, depth, moves, i, b),
        ),
        alpha0.spec_lt(search_moves(node, depth, moves, i, a, beta, best_move, b, Seq::empty()).1)
            ==> !fold_value(node, depth, moves, i, b).spec_lt(
            search_moves(node, depth, moves, i, a, beta, best_move, b, Seq::empty()).1,
        ),
    decreases depth, 0int, moves.len() - i,
{
    if !(i < 0 || i >= moves.len() || depth == 0) {
        let m = moves[i];
        let child = node.spec_take_action(m);
        let d1 = (depth - 1) as u32;
        let ac = beta.negated();
        let bc = a.negated();
        lemma_neg_flip(a, beta);
        lemma_search_in_range(child, d1, ac, bc);
        lemma_full_value_in_range(child, d1);
        lemma_search_bounds(child, d1, ac, bc);
        let rc = search(child, d1, ac, bc, Seq::empty()).1;
        let cv = full_value(child, d1);
        let v = rc.negated();
        let t = cv.negated();
        lemma_neg_flip(rc, bc);
        lemma_neg_flip(cv, rc);
        lemma_neg_flip(ac, rc);
        lemma_neg_flip(rc, cv);
        // what the child's bounds say after negation
        assert(a.spec_lt(v) ==> !t.spec_lt(v));
        assert(v.spec_lt(beta) ==> !v.spec_lt(t));
        let bm = if b.spec_lt(v) {
            Some(m)
        } else {
            best_move
        };
        let b1 = b.spec_max(v);
        let a1 = a.spec_max(b1);
        let x1 = b.spec_max(t);
        let r = search_moves(node, depth, moves, i, a, beta, best_move, b, Seq::empty()).1;
        assert(fold_value(node, depth, moves, i, b) == fold_value(node, depth, moves, i + 1, x1));
        lemma_fold_ge(node, depth, moves, i + 1, x1);
        if a1.spec_lt(beta) {
            lemma_search_moves_in_range(node, depth, moves, i + 1, a1, beta, bm, b1);
            lemma_search_moves_bounds(node, depth, moves, i + 1, alpha0, a1, beta, bm, b1);
            assert(r == search_moves(node, depth, moves, i + 1, a1, beta, bm, b1, Seq::empty()).1);
            lemma_fold_mono(node, depth, moves, i + 1, x1, b1);
            if x1.spec_lt(b1) && alpha0.spec_lt(r) {
                lemma_fold_escape(node, depth, moves, i + 1, b1, x1);
            }
        } else {
            assert(r == b1);
        }
    }
}

/// Neither pruning nor move ordering changes the result: without a table and with the
/// widest window, the search gives exactly the full-width value.
pub proof fn lemma_pruning_keeps_value(node: BreakthroughNode, depth: u32)
    requires
        node.ply + depth + 2 <= u32::MAX,
    ensures
        search(
            node,
            depth,
            Evaluation::BlackWinPly(node.ply),
            Evaluation::WhiteWinPly(node.ply),
            Seq::empty(),
        ).1 == full_value(node, depth),
{
    let alpha = Evaluation::BlackWinPly(node.ply);
    let beta = Evaluation::WhiteWinPly(node.ply);
    lemma_search_bounds(node, depth, alpha, beta);
    lemma_search_in_range(node, depth, alpha, beta);
    lemma_full_value_in_range(node, depth);
}

} // verus!
