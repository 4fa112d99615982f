//! Spec-level model of the grid: orb sums per side and in total, the capacity
//! formula, and the lemmas that relate them.

use vstd::prelude::*;

use crate::game::{cell_orbs, cell_orbs_of, Cell, CellState, Player};

verus! {

/// Total orbs the given side owns in the grid.
pub open spec fn sum_orbs_of(g: Seq<Cell>, p: Player) -> nat
    decreases g.len(),
{
    if g.len() == 0 {
        0
    } else {
        sum_orbs_of(g.drop_last(), p) + cell_orbs_of(g.last(), p)
    }
}

/// Total orbs in the grid, whoever owns them.
pub open spec fn sum_orbs(g: Seq<Cell>) -> nat
    decreases g.len(),
{
    if g.len() == 0 {
        0
    } else {
        sum_orbs(g.drop_last()) + cell_orbs(g.last())
    }
}

/// The capacity a cell at (r, c) must have: 4 minus the number of missing
/// orthogonal neighbors (corner 2, edge 3, interior 4 on grids at least 2x2).
pub open spec fn capacity_at(width: int, height: int, r: int, c: int) -> int {
    4 - (if r == 0 {
        1int
    } else {
        0int
    }) - (if r == height - 1 {
        1int
    } else {
        0int
    }) - (if c == 0 {
        1int
    } else {
        0int
    }) - (if c == width - 1 {
        1int
    } else {
        0int
    })
}

/// How many of the four orthogonal neighbors of (r, c) lie on the grid.
pub open spec fn neighbor_count(width: int, height: int, r: int, c: int) -> int {
    (if r > 0 {
        1int
    } else {
        0int
    }) + (if r < height - 1 {
        1int
    } else {
        0int
    }) + (if c > 0 {
        1int
    } else {
        0int
    }) + (if c < width - 1 {
        1int
    } else {
        0int
    })
}

/// A cell's capacity equals exactly its orthogonal-neighbor count.
pub proof fn lemma_capacity_is_neighbor_count(width: int, height: int, r: int, c: int)
    requires
        0 <= r < height,
        0 <= c < width,
    ensures
        capacity_at(width, height, r, c) == neighbor_count(width, height, r, c),
{
}

/// A side's total is what both of its per-cell contributions add up to.
pub proof fn lemma_sum_orbs_split(g: Seq<Cell>)
    ensures
        sum_orbs(g) == sum_orbs_of(g, Player::Red) + sum_orbs_of(g, Player::Blue),
    decreases g.len(),
{
    if g.len() > 0 {
        lemma_sum_orbs_split(g.drop_last());
    }
}

/// Extending a prefix by one cell adds that cell's contribution.
pub proof fn lemma_sum_prefix_step(g: Seq<Cell>, i: int, p: Player)
    requires
        0 <= i < g.len(),
    ensures
        sum_orbs_of(g.subrange(0, i + 1), p) == sum_orbs_of(g.subrange(0, i), p) + cell_orbs_of(
            g[i],
            p,
        ),
        sum_orbs(g.subrange(0, i + 1)) == sum_orbs(g.subrange(0, i)) + cell_orbs(g[i]),
{
    let pre = g.subrange(0, i + 1);
    assert(pre.drop_last() =~= g.subrange(0, i));
    assert(pre.last() == g[i]);
}

/// The whole grid is its own full prefix.
pub proof fn lemma_sum_full_prefix(g: Seq<Cell>, p: Player)
    ensures
        sum_orbs_of(g.subrange(0, g.len() as int), p) == sum_orbs_of(g, p),
        sum_orbs(g.subrange(0, g.len() as int)) == sum_orbs(g),
{
    assert(g.subrange(0, g.len() as int) =~= g);
}

/// A prefix never sums to more than the whole grid.
pub proof fn lemma_sum_prefix_le(g: Seq<Cell>, i: int, p: Player)
    requires
        0 <= i <= g.len(),
    ensures
        sum_orbs_of(g.subrange(0, i), p) <= sum_orbs_of(g, p),
        sum_orbs(g.subrange(0, i)) <= sum_orbs(g),
    decreases g.len() - i,
{
    if i < g.len() {
        lemma_sum_prefix_step(g, i, p);
        lemma_sum_prefix_le(g, i + 1, p);
    } else {
        lemma_sum_full_prefix(g, p);
    }
}

/// Two grids whose cells hold the same contents have the same sums, whatever
/// their bookkeeping flags say.
pub proof fn lemma_sums_equal_pointwise(g1: Seq<Cell>, g2: Seq<Cell>)
    requires
        g1.len() == g2.len(),
        forall|i: int| 0 <= i < g1.len() ==> (#[trigger] g2[i]).state == g1[i].state,
    ensures
        sum_orbs(g2) == sum_orbs(g1),
        sum_orbs_of(g2, Player::Red) == sum_orbs_of(g1, Player::Red),
        sum_orbs_of(g2, Player::Blue) == sum_orbs_of(g1, Player::Blue),
    decreases g1.len(),
{
    if g1.len() > 0 {
        assert(forall|i: int|
            0 <= i < g1.len() - 1 ==> g1.drop_last()[i] == g1[i] && g2.drop_last()[i] == g2[i]);
        lemma_sums_equal_pointwise(g1.drop_last(), g2.drop_last());
        assert(g2[g1.len() - 1].state == g1[g1.len() - 1].state);
    }
}

/// Updating one cell changes the sums by exactly that cell's change.
pub proof fn lemma_sum_update(g: Seq<Cell>, i: int, c: Cell, p: Player)
    requires
        0 <= i < g.len(),
    ensures
        sum_orbs_of(g.update(i, c), p) + cell_orbs_of(g[i], p) == sum_orbs_of(g, p) + cell_orbs_of(
            c,
            p,
        ),
        sum_orbs(g.update(i, c)) + cell_orbs(g[i]) == sum_orbs(g) + cell_orbs(c),
    decreases g.len(),
{
    let g2 = g.update(i, c);
    if i == g.len() - 1 {
        assert(g2.drop_last() =~= g.drop_last());
        assert(g2.last() == c);
    } else {
        assert(g2.drop_last() =~= g.drop_last().update(i, c));
        assert(g2.last() == g.last());
        lemma_sum_update(g.drop_last(), i, c, p);
    }
}

/// No single cell holds more than the grid's total.
pub proof fn lemma_cell_le_sum(g: Seq<Cell>, i: int)
    requires
        0 <= i < g.len(),
    ensures
        cell_orbs(g[i]) <= sum_orbs(g),
        cell_orbs_of(g[i], Player::Red) <= sum_orbs_of(g, Player::Red),
        cell_orbs_of(g[i], Player::Blue) <= sum_orbs_of(g, Player::Blue),
    decreases g.len(),
{
    if i < g.len() - 1 {
        lemma_cell_le_sum(g.drop_last(), i);
    } else {
        assert(g.last() == g[i]);
    }
}

/// A side with a positive total owns at least one occupied cell.
pub proof fn lemma_positive_sum_has_cell(g: Seq<Cell>, p: Player) -> (i: int)
    requires
        sum_orbs_of(g, p) > 0,
    ensures
        0 <= i < g.len(),
        cell_orbs_of(g[i], p) > 0,
        g[i].state matches CellState::Occupied { player, .. } && player == p,
    decreases g.len(),
{
    if cell_orbs_of(g.last(), p) > 0 {
        g.len() - 1
    } else {
        lemma_positive_sum_has_cell(g.drop_last(), p)
    }
}

/// If every cell is occupied (by anyone), the total is at least the cell count.
pub proof fn lemma_all_occupied_sum_ge_len(g: Seq<Cell>)
    requires
        forall|i: int|
            0 <= i < g.len() ==> ((#[trigger] g[i].state) matches CellState::Occupied {
                orbs,
                ..
            } && orbs >= 1),
    ensures
        sum_orbs(g) >= g.len(),
    decreases g.len(),
{
    if g.len() > 0 {
        assert(g.drop_last() =~= g.subrange(0, g.len() - 1));
        assert(forall|i: int|
            0 <= i < g.len() - 1 ==> g.drop_last()[i] == g[i]);
        lemma_all_occupied_sum_ge_len(g.drop_last());
        assert(g.last() == g[g.len() - 1]);
    }
}

} // verus!
