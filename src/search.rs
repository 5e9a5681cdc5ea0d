use vstd::prelude::*;
use crate::board::{
    is_set, move_if, mv, lemma_bit_test, lemma_legal_moves_on_board, lemma_no_double_arrival_after_move,
    BreakthroughMove, BreakthroughNode, BLACK_FIRST_ROW,
    BLACK_START, WHITE_FIRST_ROW, WHITE_START,
};
use crate::evaluation::{fast_heuristic, heuristic_score, BLACK_SIDE, WHITE_SIDE};
use crate::game::{Evaluation, GameResult, Player};
use crate::table::{table_lookup, table_store, Entry, TranspositionTable};

verus! {

/// The value of a position where the search stops, from the side to move. All
/// evaluations of the search are from the side to move: `WhiteWinPly` is a win for it,
/// `BlackWinPly` a loss. A finished game counts at its own ply; an unfinished one gets
/// the heuristic score, negated when Black moves.
pub open spec fn leaf_value(node: BreakthroughNode) -> Evaluation {
    match node.spec_result() {
        GameResult::Win(p) => if p == node.to_play {
            Evaluation::WhiteWinPly(node.ply)
        } else {
            Evaluation::BlackWinPly(node.ply)
        },
        GameResult::Undecided => match node.to_play {
            Player::White => Evaluation::Heuristic(heuristic_score(node) as i64),
            Player::Black => Evaluation::Heuristic(heuristic_score(node) as i64).negated(),
        },
    }
}

/// The mover's pieces one step from the other side's home row.
pub open spec fn mover_threat(node: BreakthroughNode) -> u64 {
    match node.to_play {
        Player::White => node.bitboard_white & BLACK_START,
        Player::Black => node.bitboard_black & WHITE_START,
    }
}

/// The other side's pieces one step from the mover's home row.
pub open spec fn opponent_threat(node: BreakthroughNode) -> u64 {
    match node.to_play {
        Player::White => node.bitboard_black & WHITE_START,
        Player::Black => node.bitboard_white & BLACK_START,
    }
}

/// A mover with a piece one step from the goal wins on the next ply, whatever stands
/// in its way: nothing blocks a diagonal step onto the goal row.
pub open spec fn spec_fast_win(node: BreakthroughNode) -> Option<Evaluation> {
    if mover_threat(node) != 0 {
        Some(Evaluation::WhiteWinPly((node.ply + 1) as u32))
    } else {
        None
    }
}

/// Whether `m` is worth searching: when the other side threatens to win next ply,
/// only a capture of a threatening piece is.
pub open spec fn keeps(node: BreakthroughNode, m: BreakthroughMove) -> bool {
    opponent_threat(node) == 0 || is_set(opponent_threat(node), m.1 as u64)
}

/// `keeps` for `node`, as a predicate on moves.
pub open spec fn keep_pred(node: BreakthroughNode) -> spec_fn(BreakthroughMove) -> bool {
    |m: BreakthroughMove| keeps(node, m)
}

/// The legal moves worth searching, in generation order.
pub open spec fn filtered_moves(node: BreakthroughNode) -> Seq<BreakthroughMove> {
    node.legal_moves().filter(keep_pred(node))
}

/// The guessed priority of a move, lower first: onto the row before the goal, then
/// captures, then entering the other half, then the rest, moves off the home row last.
pub open spec fn spec_guess_priority(
    source_square: u64,
    target_square: u64,
    opp_start: u64,
    opp_side: u64,
    self_base: u64,
    any_bitboard: u64,
) -> i32 {
    if target_square & opp_start != 0 {
        0
    } else if target_square & any_bitboard != 0 {
        1
    } else if target_square & opp_side != 0 {
        2
    } else if source_square & self_base != 0 {
        100
    } else {
        50
    }
}

/// The priority of `m` for the side to move.
pub open spec fn move_priority(node: BreakthroughNode, m: BreakthroughMove) -> i32 {
    let any = node.bitboard_white | node.bitboard_black;
    match node.to_play {
        Player::White => spec_guess_priority(
            1u64 << m.0,
            1u64 << m.1,
            BLACK_START,
            BLACK_SIDE,
            WHITE_FIRST_ROW,
            any,
        ),
        Player::Black => spec_guess_priority(
            1u64 << m.0,
            1u64 << m.1,
            WHITE_START,
            WHITE_SIDE,
            BLACK_FIRST_ROW,
            any,
        ),
    }
}

/// The moves of priority `k` in `node`, as a predicate.
pub open spec fn priority_pred(node: BreakthroughNode, k: i32) -> spec_fn(BreakthroughMove) -> bool {
    |m: BreakthroughMove| move_priority(node, m) == k
}

/// `moves` ordered by priority, keeping their order within each priority.
pub open spec fn prioritized(node: BreakthroughNode, moves: Seq<BreakthroughMove>) -> Seq<
    BreakthroughMove,
> {
    moves.filter(priority_pred(node, 0)) + moves.filter(priority_pred(node, 1)) + moves.filter(
        priority_pred(node, 2),
    ) + moves.filter(priority_pred(node, 50)) + moves.filter(priority_pred(node, 100))
}

/// The moves a search at `depth` tries, in order: ordered by priority except next to
/// the leaves.
pub open spec fn search_order(node: BreakthroughNode, depth: u32) -> Seq<BreakthroughMove> {
    if depth > 1 {
        prioritized(node, filtered_moves(node))
    } else {
        filtered_moves(node)
    }
}

proof fn lemma_filter_step(s: Seq<BreakthroughMove>, pred: spec_fn(BreakthroughMove) -> bool, i: int)
    requires
        0 <= i < s.len(),
    ensures
        s.take(i + 1).filter(pred) == if pred(s[i]) {
            s.take(i).filter(pred).push(s[i])
        } else {
            s.take(i).filter(pred)
        },
{
    reveal(Seq::filter);
    assert(s.take(i + 1).drop_last() =~= s.take(i));
}

/// Every move in the search order is legal.
proof fn lemma_search_order_legal(node: BreakthroughNode, depth: u32, j: int)
    requires
        0 <= j < search_order(node, depth).len(),
    ensures
        node.legal_moves().contains(search_order(node, depth)[j]),
{
    let m = search_order(node, depth)[j];
    if depth > 1 {
        lemma_order_member_filtered(node, depth, j);
    } else {
        assert(filtered_moves(node).contains(m));
    }
    node.legal_moves().lemma_filter_contains_rev(keep_pred(node), m);
}

/// The search order holds exactly the moves worth searching.
pub proof fn lemma_search_order_same_moves(node: BreakthroughNode, depth: u32, m: BreakthroughMove)
    ensures
        search_order(node, depth).contains(m) <==> filtered_moves(node).contains(m),
{
    let f = filtered_moves(node);
    if depth > 1 {
        if search_order(node, depth).contains(m) {
            let j = choose|j: int| 0 <= j < search_order(node, depth).len() && search_order(node, depth)[j] == m;
            lemma_order_member_filtered(node, depth, j);
        }
        if f.contains(m) {
            let j = choose|j: int| 0 <= j < f.len() && f[j] == m;
            let k = move_priority(node, m);
            assert(k == 0 || k == 1 || k == 2 || k == 50 || k == 100);
            f.lemma_filter_contains(priority_pred(node, k), j);
            let class0 = f.filter(priority_pred(node, 0));
            let class1 = f.filter(priority_pred(node, 1));
            let class2 = f.filter(priority_pred(node, 2));
            let class50 = f.filter(priority_pred(node, 50));
            let class100 = f.filter(priority_pred(node, 100));
            let all = class0 + class1 + class2 + class50 + class100;
            assert(prioritized(node, f) == all);
            let c = f.filter(priority_pred(node, k));
            let q = choose|q: int| 0 <= q < c.len() && c[q] == m;
            if k == 0 {
                assert(all[q] == m);
            } else if k == 1 {
                assert(all[class0.len() + q] == m);
            } else if k == 2 {
                assert(all[class0.len() + class1.len() + q] == m);
            } else if k == 50 {
                assert(all[class0.len() + class1.len() + class2.len() + q] == m);
            } else {
                assert(all[class0.len() + class1.len() + class2.len() + class50.len() + q] == m);
            }
        }
    }
}

proof fn lemma_order_member_filtered(node: BreakthroughNode, depth: u32, j: int)
    requires
        depth > 1,
        0 <= j < search_order(node, depth).len(),
    ensures
        filtered_moves(node).contains(search_order(node, depth)[j]),
{
    let f = filtered_moves(node);
    let m = search_order(node, depth)[j];
    let class0 = f.filter(priority_pred(node, 0));
    let class1 = f.filter(priority_pred(node, 1));
    let class2 = f.filter(priority_pred(node, 2));
    let class50 = f.filter(priority_pred(node, 50));
    let class100 = f.filter(priority_pred(node, 100));
    let all = class0 + class1 + class2 + class50 + class100;
    assert(prioritized(node, f) == all);
    assert(all[j] == m);
    if j >= (class0 + class1 + class2 + class50).len() {
        assert(class100[j - (class0 + class1 + class2 + class50).len()] == m);
        f.lemma_filter_contains_rev(priority_pred(node, 100), m);
    } else if j >= (class0 + class1 + class2).len() {
        assert(class50[j - (class0 + class1 + class2).len()] == m);
        f.lemma_filter_contains_rev(priority_pred(node, 50), m);
    } else if j >= (class0 + class1).len() {
        assert(class2[j - (class0 + class1).len()] == m);
        f.lemma_filter_contains_rev(priority_pred(node, 2), m);
    } else if j >= class0.len() {
        assert(class1[j - class0.len()] == m);
        f.lemma_filter_contains_rev(priority_pred(node, 1), m);
    } else {
        assert(class0[j] == m);
        f.lemma_filter_contains_rev(priority_pred(node, 0), m);
    }
}

/// The value of a position where the search stops, from the side to move.
fn evaluate_result(node: &BreakthroughNode) -> (r: Evaluation)
    requires
        !node.double_arrival(),
    ensures
        r == leaf_value(*node),
        r.negatable(),
{
    match node.get_result() {
        GameResult::Win(p) => if p == node.to_play {
            Evaluation::WhiteWinPly(node.ply)
        } else {
            Evaluation::BlackWinPly(node.ply)
        },
        GameResult::Undecided => match node.to_play {
            Player::White => fast_heuristic(node),
            Player::Black => fast_heuristic(node).negate(),
        },
    }
}

/// A win on the next ply when the mover already stands one step from its goal.
fn fast_win(node: &BreakthroughNode) -> (r: Option<Evaluation>)
    requires
        node.ply < u32::MAX,
    ensures
        r == spec_fast_win(*node),
{
    match node.to_play {
        Player::White => {
            if node.bitboard_white & BLACK_START > 0 {
                Some(Evaluation::WhiteWinPly(node.ply + 1))
            } else {
                None
            }
        },
        Player::Black => {
            if node.bitboard_black & WHITE_START > 0 {
                Some(Evaluation::WhiteWinPly(node.ply + 1))
            } else {
                None
            }
        },
    }
}

/// The legal moves, less those that lose at once: when the other side threatens to
/// win next ply, only captures of a threatening piece remain.
fn get_filtered_actions(node: &BreakthroughNode) -> (r: Vec<BreakthroughMove>)
    ensures
        r@ == filtered_moves(*node),
{
    let actions = node.get_possible_actions();
    let threat = match node.to_play {
        Player::White => node.bitboard_black & WHITE_START,
        Player::Black => node.bitboard_white & BLACK_START,
    };
    let mut kept: Vec<BreakthroughMove> = Vec::new();
    let mut i: usize = 0;
    while i < actions.len()
        invariant
            i <= actions.len(),
            actions@ == node.legal_moves(),
            threat == opponent_threat(*node),
            kept@ == actions@.take(i as int).filter(keep_pred(*node)),
        decreases actions.len() - i,
    {
        let action = actions[i];
        proof {
            assert(actions@.contains(action)) by {
                assert(actions@[i as int] == action);
            }
            lemma_legal_moves_on_board(*node, action);
            lemma_bit_test(threat, action.1 as u64);
            lemma_filter_step(actions@, keep_pred(*node), i as int);
        }
        if threat == 0 || (1u64 << action.1) & threat > 0 {
            kept.push(action);
        }
        i = i + 1;
    }
    assert(actions@.take(actions.len() as int) =~= actions@);
    kept
}

fn guess_priority(
    source_square: u64,
    target_square: u64,
    opp_start: u64,
    opp_side: u64,
    self_base: u64,
    any_bitboard: u64,
) -> (r: i32)
    ensures
        r == spec_guess_priority(
            source_square,
            target_square,
            opp_start,
            opp_side,
            self_base,
            any_bitboard,
        ),
{
    if target_square & opp_start > 0 {
        // Almost winning
        0
    } else if target_square & any_bitboard > 0 {
        // Captures
        1
    } else if target_square & opp_side > 0 {
        // Entering the other side's half
        2
    } else if (source_square & self_base) > 0 {
        // Leave the home row alone unless needed
        100
    } else {
        50
    }
}

/// Appends to `out` the moves of `actions` with priority `k`, in their order.
fn push_priority_class(
    node: &BreakthroughNode,
    actions: &Vec<BreakthroughMove>,
    k: i32,
    out: &mut Vec<BreakthroughMove>,
)
    requires
        forall|j: int| 0 <= j < actions@.len() ==> (#[trigger] actions@[j]).on_board(),
    ensures
        final(out)@ == old(out)@ + actions@.filter(priority_pred(*node, k)),
{
    let (opp_start, opp_side, self_base) = match node.to_play {
        Player::White => (BLACK_START, BLACK_SIDE, WHITE_FIRST_ROW),
        Player::Black => (WHITE_START, WHITE_SIDE, BLACK_FIRST_ROW),
    };
    let any = node.bitboard_white | node.bitboard_black;
    let ghost start = out@;
    let mut i: usize = 0;
    while i < actions.len()
        invariant
            i <= actions.len(),
            forall|j: int| 0 <= j < actions@.len() ==> (#[trigger] actions@[j]).on_board(),
            any == node.bitboard_white | node.bitboard_black,
            node.to_play == Player::White ==> opp_start == BLACK_START && opp_side == BLACK_SIDE
                && self_base == WHITE_FIRST_ROW,
            node.to_play == Player::Black ==> opp_start == WHITE_START && opp_side == WHITE_SIDE
                && self_base == BLACK_FIRST_ROW,
            out@ == start + actions@.take(i as int).filter(priority_pred(*node, k)),
        decreases actions.len() - i,
    {
        let action = actions[i];
        assert(action.on_board()) by {
            assert(actions@[i as int] == action);
        }
        proof {
            lemma_filter_step(actions@, priority_pred(*node, k), i as int);
        }
        let p = guess_priority(
            1u64 << action.0,
            1u64 << action.1,
            opp_start,
            opp_side,
            self_base,
            any,
        );
        if p == k {
            out.push(action);
        }
        i = i + 1;
    }
    assert(actions@.take(actions.len() as int) =~= actions@);
}

/// Orders the moves by priority, lowest first, keeping their order within a priority,
/// so that the likely best moves are searched first.
fn prioritize_actions(node: &BreakthroughNode, actions: &mut Vec<BreakthroughMove>)
    requires
        forall|j: int| 0 <= j < old(actions)@.len() ==> (#[trigger] old(actions)@[j]).on_board(),
    ensures
        final(actions)@ == prioritized(*node, old(actions)@),
{
    let mut ordered: Vec<BreakthroughMove> = Vec::new();
    push_priority_class(node, actions, 0, &mut ordered);
    push_priority_class(node, actions, 1, &mut ordered);
    push_priority_class(node, actions, 2, &mut ordered);
    push_priority_class(node, actions, 50, &mut ordered);
    push_priority_class(node, actions, 100, &mut ordered);
    assert(ordered@ =~= prioritized(*node, actions@));
    *actions = ordered;
}

/// The result of a search of `node` to `depth` within the window (`alpha`, `beta`),
/// starting from table contents `slots`: the best move found, if any; the evaluation,
/// from the side to move; and the table contents afterwards.
///
/// A finished position or depth zero gives the leaf value; a mover one step from its
/// goal wins on the next ply; a table entry for the position that was searched at
/// least as deep is taken as it is; with no move worth searching the mover loses two
/// plies on; otherwise the moves are searched in order (see `search_moves`) and the
/// result is stored.
pub open spec fn search(
    node: BreakthroughNode,
    depth: u32,
    alpha: Evaluation,
    beta: Evaluation,
    slots: Seq<Option<Entry>>,
) -> (Option<BreakthroughMove>, Evaluation, Seq<Option<Entry>>)
    decreases depth, 1int, 0int,
{
    if node.spec_is_terminal() || depth == 0 {
        (None, leaf_value(node), slots)
    } else if spec_fast_win(node) is Some {
        (None, spec_fast_win(node).unwrap(), slots)
    } else if table_lookup(slots, node, depth) is Some {
        (None, table_lookup(slots, node, depth).unwrap().2, slots)
    } else {
        let moves = search_order(node, depth);
        if filtered_moves(node).len() == 0 {
            (None, Evaluation::BlackWinPly((node.ply + 2) as u32), slots)
        } else {
            let r = search_moves(
                node,
                depth,
                moves,
                0,
                alpha,
                beta,
                None,
                Evaluation::BlackWinPly(node.ply),
                slots,
            );
            (r.0, r.1, table_store(r.2, (node, depth, r.1)))
        }
    }
}

/// The move loop of `search` from the `i`-th move on, with the window's lower end
/// `alpha`, the best move and evaluation so far, and the table contents: each move's
/// successor is searched one level shallower with the window negated and swapped, its
/// negated evaluation replaces the best when strictly better, `alpha` rises to the
/// best, and the loop stops once `alpha` reaches `beta`.
pub open spec fn search_moves(
    node: BreakthroughNode,
    depth: u32,
    moves: Seq<BreakthroughMove>,
    i: int,
    alpha: Evaluation,
    beta: Evaluation,
    best_move: Option<BreakthroughMove>,
    best: Evaluation,
    slots: Seq<Option<Entry>>,
) -> (Option<BreakthroughMove>, Evaluation, Seq<Option<Entry>>)
    decreases depth, 0int, moves.len() - i,
{
    if i < 0 || i >= moves.len() || depth == 0 {
        (best_move, best, slots)
    } else {
        let m = moves[i];
        let child = search(
            node.spec_take_action(m),
            (depth - 1) as u32,
            beta.negated(),
            alpha.negated(),
            slots,
        );
        let v = child.1.negated();
        let bm = if best.spec_lt(v) {
            Some(m)
        } else {
            best_move
        };
        let b = best.spec_max(v);
        let a = alpha.spec_max(b);
        if !a.spec_lt(beta) {
            (bm, b, child.2)
        } else {
            search_moves(node, depth, moves, i + 1, a, beta, bm, b, child.2)
        }
    }
}

/// Depth-bounded negamax with alpha-beta pruning over the window (`alpha`, `beta`),
/// from the side to move, using and filling `table`. Returns the best move found (none
/// when the result came without a move loop) and the evaluation.
pub fn negamax(
    node: &BreakthroughNode,
    depth: u32,
    alpha: Evaluation,
    beta: Evaluation,
    table: &mut TranspositionTable,
) -> (r: (Option<BreakthroughMove>, Evaluation))
    requires
        !node.double_arrival(),
        node.ply + depth + 2 <= u32::MAX,
        alpha.negatable(),
        beta.negatable(),
        old(table).wf(),
    ensures
        ({
            let s = search(*node, depth, alpha, beta, old(table).slots());
            r.0 == s.0 && r.1 == s.1 && final(table).slots() == s.2
        }),
        final(table).wf(),
        final(table).spec_capacity() == old(table).spec_capacity(),
        r.0 matches Some(m) ==> node.legal_moves().contains(m),
        r.1.negatable(),
    decreases depth,
{
    if node.is_terminal() || depth == 0 {
        return (None, evaluate_result(node));
    }
    if let Some(eval) = fast_win(node) {
        return (None, eval);
    }
    proof {
        table.lemma_capacity();
    }
    if let Some(entry) = table.get(node, depth) {
        proof {
            let i = crate::table::slot_index(*node, table.slots().len());
            assert(table.slots()[i] == Some(*entry));
        }
        return (None, entry.2);
    }
    let mut actions = get_filtered_actions(node);
    if actions.len() == 0 {
        // Nothing stops the other side from winning on its next move
        return (None, Evaluation::BlackWinPly(node.ply + 2));
    }
    proof {
        assert forall|j: int| 0 <= j < actions@.len() implies (#[trigger] actions@[j]).on_board() by {
            assert(node.legal_moves().contains(actions@[j])) by {
                assert(filtered_moves(*node)[j] == actions@[j]);
                node.legal_moves().lemma_filter_contains_rev(keep_pred(*node), actions@[j]);
            }
            lemma_legal_moves_on_board(*node, actions@[j]);
        }
    }
    // Ordering does not pay for itself next to the leaves
    if depth > 1 {
        prioritize_actions(node, &mut actions);
    }
    assert(actions@ == search_order(*node, depth));
    let ghost slots0 = table.slots();
    let ghost target = search_moves(
        *node,
        depth,
        actions@,
        0,
        alpha,
        beta,
        None,
        Evaluation::BlackWinPly(node.ply),
        slots0,
    );
    let mut alpha = alpha;
    let mut best_move: Option<BreakthroughMove> = None;
    let mut best = Evaluation::BlackWinPly(node.ply);
    let mut i: usize = 0;
    while i < actions.len()
        invariant
            i <= actions.len(),
            actions@ == search_order(*node, depth),
            !node.spec_is_terminal(),
            !node.double_arrival(),
            depth > 0,
            node.ply + depth + 2 <= u32::MAX,
            table.wf(),
            table.spec_capacity() == old(table).spec_capacity(),
            alpha.negatable(),
            beta.negatable(),
            best.negatable(),
            best_move matches Some(m) ==> node.legal_moves().contains(m),
            search_moves(*node, depth, actions@, i as int, alpha, beta, best_move, best, table.slots())
                == target,
        decreases actions.len() - i,
    {
        let action = actions[i];
        proof {
            lemma_search_order_legal(*node, depth, i as int);
            assert(actions@[i as int] == action);
            lemma_legal_moves_on_board(*node, action);
            lemma_no_double_arrival_after_move(*node, action);
        }
        let child = node.take_action(&action);
        let eval = negamax(&child, depth - 1, beta.negate(), alpha.negate(), table);
        let value = eval.1.negate();
        proof {
            crate::game::lemma_negation_involution(eval.1, eval.1);
        }
        if best.is_below(&value) {
            best = value;
            best_move = Some(action);
        }
        alpha = alpha.max_of(best);
        if !alpha.is_below(&beta) {
            // Cut off: the other side will not allow this line
            i = actions.len();
        } else {
            i = i + 1;
        }
    }
    assert(target == (best_move, best, table.slots()));
    table.put((*node, depth, best));
    (best_move, best)
}

/// The window that covers every evaluation a search from `node` can give.
pub open spec fn widest_window(node: BreakthroughNode) -> (Evaluation, Evaluation) {
    (Evaluation::BlackWinPly(node.ply), Evaluation::WhiteWinPly(node.ply))
}

/// Searches `node` to `depth` with the widest window, using and filling `table`.
/// Returns the best move, or the first legal move when the search gave none, and the
/// evaluation from the side to move.
pub fn evaluate_with_ttable(node: &BreakthroughNode, depth: u32, table: &mut TranspositionTable) -> (r: (
    BreakthroughMove,
    Evaluation,
))
    requires
        !node.double_arrival(),
        node.ply + depth + 2 <= u32::MAX,
        node.legal_moves().len() > 0,
        old(table).wf(),
    ensures
        ({
            let s = search(
                *node,
                depth,
                widest_window(*node).0,
                widest_window(*node).1,
                old(table).slots(),
            );
            &&& r.0 == match s.0 {
                Some(m) => m,
                None => node.legal_moves()[0],
            }
            &&& r.1 == s.1
            &&& final(table).slots() == s.2
        }),
        final(table).wf(),
        final(table).spec_capacity() == old(table).spec_capacity(),
        node.legal_moves().contains(r.0),
        r.1.negatable(),
{
    let eval = negamax(
        node,
        depth,
        Evaluation::BlackWinPly(node.ply),
        Evaluation::WhiteWinPly(node.ply),
        table,
    );
    match eval.0 {
        Some(e) => (e, eval.1),
        None => {
            let actions = node.get_possible_actions();
            assert(node.legal_moves().contains(actions@[0]));
            (actions[0], eval.1)
        },
    }
}

/// Searches `node` to `depth` with the widest window and no table.
pub fn evaluate(node: &BreakthroughNode, depth: u32) -> (r: (BreakthroughMove, Evaluation))
    requires
        !node.double_arrival(),
        node.ply + depth + 2 <= u32::MAX,
        node.legal_moves().len() > 0,
    ensures
        ({
            let s = search(
                *node,
                depth,
                widest_window(*node).0,
                widest_window(*node).1,
                Seq::empty(),
            );
            &&& r.0 == match s.0 {
                Some(m) => m,
                None => node.legal_moves()[0],
            }
            &&& r.1 == s.1
        }),
        node.legal_moves().contains(r.0),
        r.1.negatable(),
{
    let mut table = TranspositionTable::new(0);
    proof {
        table.lemma_capacity();
        assert(table.slots() =~= Seq::empty());
    }
    evaluate_with_ttable(node, depth, &mut table)
}

proof fn lemma_search_keeps_len(
    node: BreakthroughNode,
    depth: u32,
    alpha: Evaluation,
    beta: Evaluation,
    slots: Seq<Option<Entry>>,
)
    ensures
        search(node, depth, alpha, beta, slots).2.len() == slots.len(),
    decreases depth, 1int, 0int,
{
    if !(node.spec_is_terminal() || depth == 0) && spec_fast_win(node) is None && table_lookup(
        slots,
        node,
        depth,
    ) is None && filtered_moves(node).len() != 0 {
        lemma_search_moves_keeps_len(
            node,
            depth,
            search_order(node, depth),
            0,
            alpha,
            beta,
            None,
            Evaluation::BlackWinPly(node.ply),
            slots,
        );
    }
}

proof fn lemma_search_moves_keeps_len(
    node: BreakthroughNode,
    depth: u32,
    moves: Seq<BreakthroughMove>,
    i: int,
    alpha: Evaluation,
    beta: Evaluation,
    best_move: Option<BreakthroughMove>,
    best: Evaluation,
    slots: Seq<Option<Entry>>,
)
    ensures
        search_moves(node, depth, moves, i, alpha, beta, best_move, best, slots).2.len()
            == slots.len(),
    decreases depth, 0int, moves.len() - i,
{
    if !(i < 0 || i >= moves.len() || depth == 0) {
        let m = moves[i];
        let child = search(
            node.spec_take_action(m),
            (depth - 1) as u32,
            beta.negated(),
            alpha.negated(),
            slots,
        );
        lemma_search_keeps_len(
            node.spec_take_action(m),
            (depth - 1) as u32,
            beta.negated(),
            alpha.negated(),
            slots,
        );
        let v = child.1.negated();
        let bm = if best.spec_lt(v) {
            Some(m)
        } else {
            best_move
        };
        let b = best.spec_max(v);
        let a = alpha.spec_max(b);
        if a.spec_lt(beta) {
            lemma_search_moves_keeps_len(node, depth, moves, i + 1, a, beta, bm, b, child.2);
        }
    }
}

/// Putting the same query twice to one table gives the same evaluation the second
/// time: what the first search stores answers the second.
pub proof fn lemma_repeat_query_same_evaluation(
    node: BreakthroughNode,
    depth: u32,
    alpha: Evaluation,
    beta: Evaluation,
    slots: Seq<Option<Entry>>,
)
    ensures
        search(node, depth, alpha, beta, search(node, depth, alpha, beta, slots).2).1 == search(
            node,
            depth,
            alpha,
            beta,
            slots,
        ).1,
{
    let first = search(node, depth, alpha, beta, slots);
    if !(node.spec_is_terminal() || depth == 0) && spec_fast_win(node) is None && table_lookup(
        slots,
        node,
        depth,
    ) is None && filtered_moves(node).len() != 0 {
        let r = search_moves(
            node,
            depth,
            search_order(node, depth),
            0,
            alpha,
            beta,
            None,
            Evaluation::BlackWinPly(node.ply),
            slots,
        );
        lemma_search_moves_keeps_len(
            node,
            depth,
            search_order(node, depth),
            0,
            alpha,
            beta,
            None,
            Evaluation::BlackWinPly(node.ply),
            slots,
        );
        if slots.len() == 0 {
            assert(first.2 =~= slots);
        } else {
            let i = crate::table::slot_index(node, slots.len());
            assert(first.2[i] == Some((node, depth, r.1)));
            assert(table_lookup(first.2, node, depth) == Some((node, depth, r.1)));
        }
    }
}

/// A mover one step from its goal is seen to win on the next ply by every search of
/// depth one or more, whatever the window and the table.
pub proof fn lemma_fast_win_decides_search(
    node: BreakthroughNode,
    depth: u32,
    alpha: Evaluation,
    beta: Evaluation,
    slots: Seq<Option<Entry>>,
)
    requires
        !node.spec_is_terminal(),
        depth >= 1,
        mover_threat(node) != 0,
    ensures
        search(node, depth, alpha, beta, slots) == (
            None::<BreakthroughMove>,
            Evaluation::WhiteWinPly((node.ply + 1) as u32),
            slots,
        ),
{
}

proof fn lemma_moves_at_in_moves_below(
    node: BreakthroughNode,
    p: Player,
    d: u64,
    k: nat,
    m: BreakthroughMove,
)
    requires
        d < k <= 64,
        node.moves_at(p, d).contains(m),
    ensures
        node.moves_below(p, k).contains(m),
    decreases k,
{
    let prev = node.moves_below(p, (k - 1) as nat);
    let here = node.moves_at(p, (k - 1) as u64);
    assert(node.moves_below(p, k) == prev + here);
    if d == k - 1 {
        let j = choose|j: int| 0 <= j < here.len() && here[j] == m;
        assert((prev + here)[prev.len() + j] == m);
    } else {
        lemma_moves_at_in_moves_below(node, p, d, (k - 1) as nat, m);
        let j = choose|j: int| 0 <= j < prev.len() && prev[j] == m;
        assert((prev + here)[j] == m);
    }
}

proof fn lemma_white_wins_from(node: BreakthroughNode, s: u64)
    requires
        node.to_play == Player::White,
        !node.spec_is_terminal(),
        8 <= s < 16,
        is_set(node.bitboard_white, s),
    ensures
        exists|m: BreakthroughMove|
            node.legal_moves().contains(m) && #[trigger] node.spec_take_action(m).spec_result()
                == GameResult::Win(Player::White),
{
    let w = node.bitboard_white;
    let d: u64 = if s % 8 != 7 {
        (s - 7) as u64
    } else {
        (s - 9) as u64
    };
    assert(d < 8);
    assert((w >> d) & 1u64 != 1u64) by (bit_vector)
        requires
            w & 0xffu64 == 0,
            d < 8,
    ;
    let m = mv(s, d);
    if s % 8 != 7 {
        assert(node.white_right(d));
        assert(node.white_moves_at(d).contains(m)) by {
            assert(move_if(node.white_right(d), (d + 7) as u64, d)[0] == m);
            let a = move_if(node.white_straight(d), (d + 8) as u64, d);
            let b = move_if(node.white_right(d), (d + 7) as u64, d);
            let c = move_if(node.white_left(d), (d + 9) as u64, d);
            assert((a + b + c)[a.len() as int] == m);
        }
    } else {
        assert(node.white_left(d));
        assert(node.white_moves_at(d).contains(m)) by {
            let a = move_if(node.white_straight(d), (d + 8) as u64, d);
            let b = move_if(node.white_right(d), (d + 7) as u64, d);
            let c = move_if(node.white_left(d), (d + 9) as u64, d);
            assert(c[0] == m);
            assert((a + b + c)[(a.len() + b.len()) as int] == m);
        }
    }
    lemma_moves_at_in_moves_below(node, Player::White, d, 64, m);
    let e = m.1;
    let st = m.0;
    assert(((w & !(1u64 << st)) | (1u64 << e)) & 0xffu64 != 0) by (bit_vector)
        requires
            e < 8,
    ;
    lemma_no_double_arrival_after_move(node, m);
}

proof fn lemma_black_wins_from(node: BreakthroughNode, s: u64)
    requires
        node.to_play == Player::Black,
        !node.spec_is_terminal(),
        48 <= s < 56,
        is_set(node.bitboard_black, s),
    ensures
        exists|m: BreakthroughMove|
            node.legal_moves().contains(m) && #[trigger] node.spec_take_action(m).spec_result()
                == GameResult::Win(Player::Black),
{
    let b = node.bitboard_black;
    let d: u64 = if s % 8 != 7 {
        (s + 9) as u64
    } else {
        (s + 7) as u64
    };
    assert(56 <= d < 64);
    assert((b >> d) & 1u64 != 1u64) by (bit_vector)
        requires
            b & 0xff00_0000_0000_0000u64 == 0,
            56 <= d < 64,
    ;
    let m = mv(s, d);
    let x = move_if(node.black_straight(d), (d - 8) as u64, d);
    let y = move_if(node.black_right(d), (d - 9) as u64, d);
    let z = move_if(node.black_left(d), (d - 7) as u64, d);
    if s % 8 != 7 {
        assert(node.black_right(d));
        assert((x + y + z)[x.len() as int] == m);
    } else {
        assert(node.black_left(d));
        assert((x + y + z)[(x.len() + y.len()) as int] == m);
    }
    assert(node.black_moves_at(d).contains(m));
    lemma_moves_at_in_moves_below(node, Player::Black, d, 64, m);
    let e = m.1;
    let st = m.0;
    assert(((b & !(1u64 << st)) | (1u64 << e)) & 0xff00_0000_0000_0000u64 != 0) by (bit_vector)
        requires
            56 <= e < 64,
    ;
    lemma_no_double_arrival_after_move(node, m);
}

/// The fast win is real: a mover one step from its goal in an unfinished game has a
/// legal move that wins at once.
pub proof fn lemma_fast_win_is_sound(node: BreakthroughNode)
    requires
        !node.spec_is_terminal(),
        spec_fast_win(node) is Some,
    ensures
        exists|m: BreakthroughMove|
            node.legal_moves().contains(m) && #[trigger] node.spec_take_action(m).spec_result()
                == GameResult::Win(node.to_play),
{
    let w = node.bitboard_white;
    let b = node.bitboard_black;
    match node.to_play {
        Player::White => {
            assert(is_set(w, 8) || is_set(w, 9) || is_set(w, 10) || is_set(w, 11) || is_set(w, 12)
                || is_set(w, 13) || is_set(w, 14) || is_set(w, 15)) by (bit_vector)
                requires
                    w & 0xffffu64 != 0,
                    w & 0xffu64 == 0,
            ;
            let s = choose|s: u64| 8 <= s < 16 && #[trigger] is_set(w, s);
            lemma_white_wins_from(node, s);
        },
        Player::Black => {
            assert(is_set(b, 48) || is_set(b, 49) || is_set(b, 50) || is_set(b, 51) || is_set(b, 52)
                || is_set(b, 53) || is_set(b, 54) || is_set(b, 55)) by (bit_vector)
                requires
                    b & 0xffff_0000_0000_0000u64 != 0,
                    b & 0xff00_0000_0000_0000u64 == 0,
            ;
            let s = choose|s: u64| 48 <= s < 56 && #[trigger] is_set(b, s);
            lemma_black_wins_from(node, s);
        },
    }
}

/// An evaluation from the side to move of `node`, turned to White's side.
pub fn from_white_side(node: &BreakthroughNode, eval: Evaluation) -> (r: Evaluation)
    requires
        eval.negatable(),
    ensures
        r == match node.to_play {
            Player::White => eval,
            Player::Black => eval.negated(),
        },
{
    match node.to_play {
        Player::White => eval,
        Player::Black => eval.negate(),
    }
}

/// The filter drops only losing moves: after a move that does not capture a piece
/// standing one step from the mover's home row, the other side, now to move, still has
/// such a piece, and so wins on its next move.
pub proof fn lemma_dropped_moves_lose(node: BreakthroughNode, m: BreakthroughMove)
    requires
        node.legal_moves().contains(m),
        node.ply < u32::MAX,
        !keeps(node, m),
    ensures
        mover_threat(node.spec_take_action(m)) != 0,
        spec_fast_win(node.spec_take_action(m)) is Some,
{
    lemma_legal_moves_on_board(node, m);
    let e = m.1 as u64;
    let w = node.bitboard_white;
    let b = node.bitboard_black;
    match node.to_play {
        Player::White => {
            assert((b & !(1u64 << e)) & 0xffff_0000_0000_0000u64 != 0) by (bit_vector)
                requires
                    b & 0xffff_0000_0000_0000u64 != 0,
                    ((b & 0xffff_0000_0000_0000u64) >> e) & 1u64 != 1u64,
                    e < 64,
            ;
        },
        Player::Black => {
            assert((w & !(1u64 << e)) & 0xffffu64 != 0) by (bit_vector)
                requires
                    w & 0xffffu64 != 0,
                    ((w & 0xffffu64) >> e) & 1u64 != 1u64,
                    e < 64,
            ;
        },
    }
}

} // verus!
