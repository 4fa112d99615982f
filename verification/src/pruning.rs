//! Alpha-beta pruning never changes the answer. The search in `ai` walks the
//! game positions directly; this module states the algorithm's mathematical
//! core over bare game trees of the same shape — a leaf score per terminal
//! position, children in move order, strict maximizing/minimizing by turn,
//! the running window updated child by child, siblings cut once beta falls
//! to alpha — and proves that inside the window the pruned fold computes
//! exactly the unpruned minimax value, so a full-window search returns the
//! same score as full minimax on every tree.

use vstd::prelude::*;

verus! {

/// A finite game tree: a scored terminal position, or a position whose
/// children (at least one) follow in move order.
pub enum GameTree {
    Leaf { score: i64 },
    Node { first: Box<GameTree>, rest: Box<Siblings> },
}

/// The later children of a node, possibly none.
pub enum Siblings {
    Last,
    More { first: Box<GameTree>, rest: Box<Siblings> },
}

/// The larger of two values.
pub open spec fn imax(a: int, b: int) -> int {
    if a >= b {
        a
    } else {
        b
    }
}

/// The smaller of two values.
pub open spec fn imin(a: int, b: int) -> int {
    if a <= b {
        a
    } else {
        b
    }
}

/// The unpruned minimax value of a tree: a leaf's own score, else the best
/// child value for the side choosing at this node.
pub open spec fn minimax_value(t: GameTree, maximizing: bool) -> int
    decreases t,
{
    match t {
        GameTree::Leaf { score } => score as int,
        GameTree::Node { first, rest } => rest_fold(
            minimax_value(*first, !maximizing),
            *rest,
            maximizing,
        ),
    }
}

/// Fold the remaining children's values into the best seen so far.
pub open spec fn rest_fold(acc: int, s: Siblings, maximizing: bool) -> int
    decreases s,
{
    match s {
        Siblings::Last => acc,
        Siblings::More { first, rest } => {
            let v = minimax_value(*first, !maximizing);
            rest_fold(
                if maximizing {
                    imax(acc, v)
                } else {
                    imin(acc, v)
                },
                *rest,
                maximizing,
            )
        },
    }
}

/// The pruned value of a tree under the window (alpha, beta): children are
/// scored left to right, the window tightens with each result, and the
/// remaining siblings are skipped as soon as beta falls to alpha.
pub open spec fn ab_value(t: GameTree, maximizing: bool, alpha: int, beta: int) -> int
    decreases t,
{
    match t {
        GameTree::Leaf { score } => score as int,
        GameTree::Node { first, rest } => {
            let v0 = ab_value(*first, !maximizing, alpha, beta);
            if maximizing {
                if beta <= imax(alpha, v0) {
                    v0
                } else {
                    ab_rest(v0, imax(alpha, v0), beta, *rest, true)
                }
            } else {
                if imin(beta, v0) <= alpha {
                    v0
                } else {
                    ab_rest(v0, alpha, imin(beta, v0), *rest, false)
                }
            }
        },
    }
}

/// The pruned fold over the remaining children.
pub open spec fn ab_rest(acc: int, alpha: int, beta: int, s: Siblings, maximizing: bool) -> int
    decreases s,
{
    match s {
        Siblings::Last => acc,
        Siblings::More { first, rest } => {
            let v = ab_value(*first, !maximizing, alpha, beta);
            if maximizing {
                let acc2 = imax(acc, v);
                if beta <= imax(alpha, v) {
                    acc2
                } else {
                    ab_rest(acc2, imax(alpha, v), beta, *rest, true)
                }
            } else {
                let acc2 = imin(acc, v);
                if imin(beta, v) <= alpha {
                    acc2
                } else {
                    ab_rest(acc2, alpha, imin(beta, v), *rest, false)
                }
            }
        },
    }
}

/// Folding more children only improves on the seed for the folding side.
proof fn lemma_rest_fold_vs_seed(acc: int, s: Siblings, maximizing: bool)
    ensures
        maximizing ==> rest_fold(acc, s, true) >= acc,
        !maximizing ==> rest_fold(acc, s, false) <= acc,
    decreases s,
{
    match s {
        Siblings::Last => {},
        Siblings::More { first, rest } => {
            let v = minimax_value(*first, !maximizing);
            if maximizing {
                lemma_rest_fold_vs_seed(imax(acc, v), *rest, true);
            } else {
                lemma_rest_fold_vs_seed(imin(acc, v), *rest, false);
            }
        },
    }
}

/// The fold invariant carried across the remaining children: the running
/// pruned best `acc` brackets the running true best `vpre` against the
/// original window edge, and the window is still open.
proof fn lemma_ab_rest_window(
    acc: int,
    alpha: int,
    beta: int,
    s: Siblings,
    maximizing: bool,
    vpre: int,
)
    requires
        alpha < beta,
        maximizing ==> vpre <= acc <= imax(alpha, vpre) && imax(alpha, acc) < beta,
        !maximizing ==> imin(beta, vpre) <= acc && acc <= vpre && alpha < imin(beta, acc),
    ensures
        maximizing ==> ({
            let v = rest_fold(vpre, s, true);
            let r = ab_rest(acc, imax(alpha, acc), beta, s, true);
            &&& (v < beta ==> v <= r <= imax(alpha, v))
            &&& (v >= beta ==> beta <= r <= v)
        }),
        !maximizing ==> ({
            let v = rest_fold(vpre, s, false);
            let r = ab_rest(acc, alpha, imin(beta, acc), s, false);
            &&& (v > alpha ==> imin(beta, v) <= r <= v)
            &&& (v <= alpha ==> v <= r <= alpha)
        }),
    decreases s,
{
    match s {
        Siblings::Last => {},
        Siblings::More { first, rest } => {
            if maximizing {
                let a = imax(alpha, acc);
                let u = minimax_value(*first, false);
                let ru = ab_value(*first, false, a, beta);
                lemma_alphabeta_window(*first, false, a, beta);
                let acc2 = imax(acc, ru);
                let vpre2 = imax(vpre, u);
                if beta <= imax(a, ru) {
                    // pruned: the child already proves the node at least beta
                    assert(ru >= beta);
                    assert(beta <= ru <= u);
                    assert(acc2 == ru);
                    lemma_rest_fold_vs_seed(vpre2, *rest, true);
                    assert(rest_fold(vpre, s, true) == rest_fold(vpre2, *rest, true));
                } else {
                    assert(ru < beta);
                    assert(u <= ru <= imax(a, u));
                    assert(vpre2 <= acc2 <= imax(alpha, vpre2));
                    assert(imax(alpha, acc2) == imax(a, ru));
                    lemma_ab_rest_window(acc2, alpha, beta, *rest, true, vpre2);
                }
            } else {
                let b = imin(beta, acc);
                let u = minimax_value(*first, true);
                let ru = ab_value(*first, true, alpha, b);
                lemma_alphabeta_window(*first, true, alpha, b);
                let acc2 = imin(acc, ru);
                let vpre2 = imin(vpre, u);
                if imin(b, ru) <= alpha {
                    assert(ru <= alpha);
                    assert(u <= ru <= alpha);
                    assert(acc2 == ru);
                    lemma_rest_fold_vs_seed(vpre2, *rest, false);
                    assert(rest_fold(vpre, s, false) == rest_fold(vpre2, *rest, false));
                } else {
                    assert(ru > alpha);
                    assert(imin(b, u) <= ru && ru <= u);
                    assert(imin(beta, vpre2) <= acc2 && acc2 <= vpre2);
                    assert(imin(beta, acc2) == imin(b, ru));
                    lemma_ab_rest_window(acc2, alpha, beta, *rest, false, vpre2);
                }
            }
        },
    }
}

/// Fail-soft alpha-beta against minimax, for any window: inside the window
/// the values agree exactly; outside it the pruned value still lands on the
/// correct side of the crossed edge, between the edge and the true value.
pub proof fn lemma_alphabeta_window(t: GameTree, maximizing: bool, alpha: int, beta: int)
    requires
        alpha < beta,
    ensures
        ({
            let v = minimax_value(t, maximizing);
            let r = ab_value(t, maximizing, alpha, beta);
            &&& (alpha < v < beta ==> r == v)
            &&& (v <= alpha ==> v <= r <= alpha)
            &&& (v >= beta ==> beta <= r <= v)
        }),
    decreases t,
{
    match t {
        GameTree::Leaf { score } => {},
        GameTree::Node { first, rest } => {
            let v0 = minimax_value(*first, !maximizing);
            let r0 = ab_value(*first, !maximizing, alpha, beta);
            lemma_alphabeta_window(*first, !maximizing, alpha, beta);
            if maximizing {
                let v = rest_fold(v0, *rest, true);
                lemma_rest_fold_vs_seed(v0, *rest, true);
                if beta <= imax(alpha, r0) {
                    assert(r0 >= beta);
                    assert(beta <= r0 <= v0);
                } else {
                    assert(v0 <= r0 <= imax(alpha, v0));
                    lemma_ab_rest_window(r0, alpha, beta, *rest, true, v0);
                }
            } else {
                let v = rest_fold(v0, *rest, false);
                lemma_rest_fold_vs_seed(v0, *rest, false);
                if imin(beta, r0) <= alpha {
                    assert(r0 <= alpha);
                    assert(v0 <= r0 <= alpha);
                } else {
                    assert(imin(beta, v0) <= r0 && r0 <= v0);
                    lemma_ab_rest_window(r0, alpha, beta, *rest, false, v0);
                }
            }
        },
    }
}

/// Pruning affects node count, never the result: with the full window,
/// alpha-beta computes exactly the unpruned minimax value of every tree.
pub proof fn lemma_alphabeta_equals_minimax(t: GameTree, maximizing: bool)
    ensures
        ab_value(t, maximizing, i64::MIN - 1, i64::MAX + 1) == minimax_value(t, maximizing),
{
    lemma_leaf_bounds(t, maximizing);
    lemma_alphabeta_window(t, maximizing, i64::MIN - 1, i64::MAX + 1);
}

/// Every minimax value is one of the tree's leaf scores, hence within i64.
proof fn lemma_leaf_bounds(t: GameTree, maximizing: bool)
    ensures
        i64::MIN <= minimax_value(t, maximizing) <= i64::MAX,
    decreases t,
{
    match t {
        GameTree::Leaf { .. } => {},
        GameTree::Node { first, rest } => {
            lemma_leaf_bounds(*first, !maximizing);
            lemma_rest_fold_bounds(minimax_value(*first, !maximizing), *rest, maximizing);
        },
    }
}

proof fn lemma_rest_fold_bounds(acc: int, s: Siblings, maximizing: bool)
    requires
        i64::MIN <= acc <= i64::MAX,
    ensures
        i64::MIN <= rest_fold(acc, s, maximizing) <= i64::MAX,
    decreases s,
{
    match s {
        Siblings::Last => {},
        Siblings::More { first, rest } => {
            lemma_leaf_bounds(*first, !maximizing);
            let v = minimax_value(*first, !maximizing);
            lemma_rest_fold_bounds(
                if maximizing {
                    imax(acc, v)
                } else {
                    imin(acc, v)
                },
                *rest,
                maximizing,
            );
        },
    }
}

} // verus!
