//! A single explosion step: the cell at or above capacity loses exactly its
//! capacity in orbs and hands exactly one to each orthogonal neighbor on the
//! grid, capturing them for its owner. Because capacity equals the neighbor
//! count, one step conserves the total orb count exactly.

use vstd::prelude::*;

use crate::board::{lemma_sidx_bounds, lemma_sidx_injective, Board};
use crate::game::{cell_orbs, Cell, CellState, Player};
use crate::grid::{
    capacity_at, lemma_capacity_is_neighbor_count, lemma_cell_le_sum, lemma_sum_update,
    neighbor_count, sum_orbs,
};

verus! {

/// The side owning an occupied cell (an arbitrary side for an empty one).
pub open spec fn cell_owner(c: Cell) -> Player {
    match c.state {
        CellState::Occupied { player, .. } => player,
        CellState::Empty => Player::Red,
    }
}

/// Whether (r2, c2) is an orthogonal neighbor of (r, c).
pub open spec fn is_orth_neighbor(r: int, c: int, r2: int, c2: int) -> bool {
    ||| (r2 == r - 1 && c2 == c)
    ||| (r2 == r + 1 && c2 == c)
    ||| (r2 == r && c2 == c - 1)
    ||| (r2 == r && c2 == c + 1)
}

/// A cell taken over by `p`: one more orb than it held, now owned by `p`.
pub open spec fn taken_cell(c: Cell, p: Player) -> Cell {
    Cell {
        state: CellState::Occupied { player: p, orbs: (cell_orbs(c) + 1) as u64 },
        critical_mass: c.critical_mass,
        is_queued: c.is_queued,
    }
}

/// The exploding cell afterwards: its capacity-many orbs gone, the remainder
/// (if any) staying with its owner.
pub open spec fn source_after_explosion(c: Cell) -> Cell {
    let rem = cell_orbs(c) - c.critical_mass;
    Cell {
        state: if rem > 0 {
            CellState::Occupied { player: cell_owner(c), orbs: rem as u64 }
        } else {
            CellState::Empty
        },
        critical_mass: c.critical_mass,
        is_queued: c.is_queued,
    }
}

/// Take over (r, c) for `p` if it lies on the grid; otherwise no change.
pub open spec fn take_in_grid(g: Seq<Cell>, w: int, h: int, r: int, c: int, p: Player) -> Seq<
    Cell,
> {
    if 0 <= r < h && 0 <= c < w {
        g.update(r * w + c, taken_cell(g[r * w + c], p))
    } else {
        g
    }
}

/// The grid after one explosion at (r, c): the source keeps its remainder and
/// each on-grid orthogonal neighbor is taken over by the source's owner.
pub open spec fn exploded_grid(g: Seq<Cell>, w: int, h: int, r: int, c: int) -> Seq<Cell> {
    let src = g[r * w + c];
    let p = cell_owner(src);
    let g0 = g.update(r * w + c, source_after_explosion(src));
    let g1 = take_in_grid(g0, w, h, r - 1, c, p);
    let g2 = take_in_grid(g1, w, h, r + 1, c, p);
    let g3 = take_in_grid(g2, w, h, r, c - 1, p);
    take_in_grid(g3, w, h, r, c + 1, p)
}

/// Capacities are a function of position alone, so a same-shaped grid with
/// the same capacities is again geometrically well formed.
pub proof fn lemma_geometry_preserved(a: Board, b: Board)
    requires
        a.geometry_ok(),
        b.width == a.width,
        b.height == a.height,
        b.cells@.len() == a.cells@.len(),
        forall|i: int|
            0 <= i < a.cells@.len() ==> (#[trigger] b.cells@[i]).critical_mass
                == a.cells@[i].critical_mass,
    ensures
        b.geometry_ok(),
{
    assert forall|r: int, c: int| b.in_bounds(r, c) implies (#[trigger] b.cell_at(
        r,
        c,
    )).critical_mass == capacity_at(b.width as int, b.height as int, r, c) by {
        lemma_sidx_bounds(b.width as int, b.height as int, r, c);
        assert(a.cell_at(r, c).critical_mass == capacity_at(a.width as int, a.height as int, r, c));
    }
}

/// What one explosion step does: the total orb count is conserved, the source
/// loses exactly its capacity, every on-grid neighbor gains exactly one orb
/// and changes owner to the exploder, every other cell is untouched, and
/// capacities and queue flags are preserved everywhere.
#[verifier::spinoff_prover]
#[verifier::rlimit(100)]
pub proof fn lemma_explosion_effects(g: Seq<Cell>, w: int, h: int, r: int, c: int)
    requires
        2 <= w,
        2 <= h,
        g.len() == w * h,
        0 <= r < h,
        0 <= c < w,
        g[r * w + c].critical_mass == capacity_at(w, h, r, c),
        g[r * w + c].state matches CellState::Occupied { orbs, .. } && orbs >= g[r * w
            + c].critical_mass,
        sum_orbs(g) < u64::MAX,
        forall|i: int|
            0 <= i < g.len() ==> ((#[trigger] g[i].state) matches CellState::Occupied {
                orbs,
                ..
            } ==> orbs >= 1),
    ensures
        ({
            let e = exploded_grid(g, w, h, r, c);
            let p = cell_owner(g[r * w + c]);
            &&& e.len() == g.len()
            &&& sum_orbs(e) == sum_orbs(g)
            &&& forall|i: int|
                0 <= i < g.len() ==> (#[trigger] e[i]).critical_mass == g[i].critical_mass
                    && e[i].is_queued == g[i].is_queued
            &&& e[r * w + c] == source_after_explosion(g[r * w + c])
            &&& forall|r2: int, c2: int|
                0 <= r2 < h && 0 <= c2 < w && is_orth_neighbor(r, c, r2, c2) ==> e[#[trigger] (r2
                    * w + c2)] == taken_cell(g[r2 * w + c2], p)
            &&& forall|r2: int, c2: int|
                0 <= r2 < h && 0 <= c2 < w && !is_orth_neighbor(r, c, r2, c2) && !(r2 == r && c2
                    == c) ==> e[#[trigger] (r2 * w + c2)] == g[r2 * w + c2]
            &&& forall|i: int|
                0 <= i < e.len() ==> ((#[trigger] e[i].state) matches CellState::Occupied {
                    orbs,
                    ..
                } ==> orbs >= 1)
        }),
{
    let si = r * w + c;
    let src = g[si];
    let cap = src.critical_mass as int;
    let orbs = cell_orbs(src) as int;
    let p = cell_owner(src);
    let rem = orbs - cap;
    lemma_sidx_bounds(w, h, r, c);
    lemma_capacity_is_neighbor_count(w, h, r, c);

    let up = (r - 1) * w + c;
    let down = (r + 1) * w + c;
    let left = r * w + (c - 1);
    let right = r * w + (c + 1);
    let has_up = r > 0;
    let has_down = r < h - 1;
    let has_left = c > 0;
    let has_right = c < w - 1;
    assert(cap == neighbor_count(w, h, r, c));

    if has_up {
        lemma_sidx_bounds(w, h, r - 1, c);
        if up == si {
            lemma_sidx_injective(w, r - 1, c, r, c);
        }
    }
    if has_down {
        lemma_sidx_bounds(w, h, r + 1, c);
        if down == si {
            lemma_sidx_injective(w, r + 1, c, r, c);
        }
        if has_up && down == up {
            lemma_sidx_injective(w, r + 1, c, r - 1, c);
        }
    }
    if has_left {
        lemma_sidx_bounds(w, h, r, c - 1);
        if left == si {
            lemma_sidx_injective(w, r, c - 1, r, c);
        }
        if has_up && left == up {
            lemma_sidx_injective(w, r, c - 1, r - 1, c);
        }
        if has_down && left == down {
            lemma_sidx_injective(w, r, c - 1, r + 1, c);
        }
    }
    if has_right {
        lemma_sidx_bounds(w, h, r, c + 1);
        if right == si {
            lemma_sidx_injective(w, r, c + 1, r, c);
        }
        if has_up && right == up {
            lemma_sidx_injective(w, r, c + 1, r - 1, c);
        }
        if has_down && right == down {
            lemma_sidx_injective(w, r, c + 1, r + 1, c);
        }
        if has_left && right == left {
            lemma_sidx_injective(w, r, c + 1, r, c - 1);
        }
    }

    let g0 = g.update(si, source_after_explosion(src));
    let g1 = take_in_grid(g0, w, h, r - 1, c, p);
    let g2 = take_in_grid(g1, w, h, r + 1, c, p);
    let g3 = take_in_grid(g2, w, h, r, c - 1, p);
    let g4 = take_in_grid(g3, w, h, r, c + 1, p);
    let e = exploded_grid(g, w, h, r, c);
    assert(e == g4);

    lemma_sum_update(g, si, source_after_explosion(src), Player::Red);
    assert(sum_orbs(g0) == sum_orbs(g) - cap);

    if has_up {
        lemma_cell_le_sum(g0, up);
        lemma_sum_update(g0, up, taken_cell(g0[up], p), Player::Red);
        assert(g0[up] == g[up]);
    }
    assert(sum_orbs(g1) == sum_orbs(g) - cap + (if has_up {
        1int
    } else {
        0int
    }));
    if has_down {
        lemma_cell_le_sum(g1, down);
        lemma_sum_update(g1, down, taken_cell(g1[down], p), Player::Red);
        assert(g1[down] == g[down]);
    }
    assert(sum_orbs(g2) == sum_orbs(g) - cap + (if has_up {
        1int
    } else {
        0int
    }) + (if has_down {
        1int
    } else {
        0int
    }));
    if has_left {
        lemma_cell_le_sum(g2, left);
        lemma_sum_update(g2, left, taken_cell(g2[left], p), Player::Red);
        assert(g2[left] == g[left]);
    }
    assert(sum_orbs(g3) == sum_orbs(g) - cap + (if has_up {
        1int
    } else {
        0int
    }) + (if has_down {
        1int
    } else {
        0int
    }) + (if has_left {
        1int
    } else {
        0int
    }));
    if has_right {
        lemma_cell_le_sum(g3, right);
        lemma_sum_update(g3, right, taken_cell(g3[right], p), Player::Red);
        assert(g3[right] == g[right]);
    }
    assert(sum_orbs(g4) == sum_orbs(g));

    assert forall|r2: int, c2: int|
        0 <= r2 < h && 0 <= c2 < w && is_orth_neighbor(r, c, r2, c2) implies e[#[trigger] (r2 * w
        + c2)] == taken_cell(g[r2 * w + c2], p) by {
        lemma_sidx_bounds(w, h, r2, c2);
        let i = r2 * w + c2;
        if r2 == r - 1 && c2 == c {
        } else if r2 == r + 1 && c2 == c {
            lemma_sidx_injective(w, r2, c2, r + 1, c);
        } else if r2 == r && c2 == c - 1 {
            lemma_sidx_injective(w, r2, c2, r, c - 1);
        } else {
            lemma_sidx_injective(w, r2, c2, r, c + 1);
        }
    }
    assert forall|r2: int, c2: int|
        0 <= r2 < h && 0 <= c2 < w && !is_orth_neighbor(r, c, r2, c2) && !(r2 == r && c2 == c)
        implies e[#[trigger] (r2 * w + c2)] == g[r2 * w + c2] by {
        lemma_sidx_bounds(w, h, r2, c2);
        let i = r2 * w + c2;
        if i == si {
            lemma_sidx_injective(w, r2, c2, r, c);
        }
        if has_up && i == up {
            lemma_sidx_injective(w, r2, c2, r - 1, c);
        }
        if has_down && i == down {
            lemma_sidx_injective(w, r2, c2, r + 1, c);
        }
        if has_left && i == left {
            lemma_sidx_injective(w, r2, c2, r, c - 1);
        }
        if has_right && i == right {
            lemma_sidx_injective(w, r2, c2, r, c + 1);
        }
    }
    assert forall|i: int|
        0 <= i < g.len() implies (#[trigger] e[i]).critical_mass == g[i].critical_mass
        && e[i].is_queued == g[i].is_queued by {
        if i == si {
            assert(e[i] == source_after_explosion(g[si]));
        } else if has_up && i == up {
            assert(e[i] == taken_cell(g[up], p));
        } else if has_down && i == down {
            assert(e[i] == taken_cell(g[down], p));
        } else if has_left && i == left {
            assert(e[i] == taken_cell(g[left], p));
        } else if has_right && i == right {
            assert(e[i] == taken_cell(g[right], p));
        } else {
            assert(e[i] == g[i]);
        }
    }
    assert forall|i: int|
        0 <= i < e.len() implies ((#[trigger] e[i].state) matches CellState::Occupied {
        orbs,
        ..
    } ==> orbs >= 1) by {
        assert(cap >= 2);
        if i == si {
            assert(e[i] == source_after_explosion(g[si]));
        } else if has_up && i == up {
            assert(e[i] == taken_cell(g[up], p));
            assert(cell_orbs(g[up]) + 1 <= u64::MAX);
        } else if has_down && i == down {
            assert(e[i] == taken_cell(g[down], p));
            assert(cell_orbs(g[down]) + 1 <= u64::MAX);
        } else if has_left && i == left {
            assert(e[i] == taken_cell(g[left], p));
            assert(cell_orbs(g[left]) + 1 <= u64::MAX);
        } else if has_right && i == right {
            assert(e[i] == taken_cell(g[right], p));
            assert(cell_orbs(g[right]) + 1 <= u64::MAX);
        } else {
            assert(e[i] == g[i]);
        }
    }
}

impl Board {
    /// Overwrite only the worklist flag of the cell at (row, col).
    pub(crate) fn set_flag(&mut self, row: usize, col: usize, q: bool)
        requires
            old(self).geometry_ok(),
            row < old(self).height,
            col < old(self).width,
        ensures
            final(self).cells@ == old(self).cells@.update(
                old(self).sidx(row as int, col as int),
                Cell {
                    state: old(self).cell_at(row as int, col as int).state,
                    critical_mass: old(self).cell_at(row as int, col as int).critical_mass,
                    is_queued: q,
                },
            ),
            final(self).width == old(self).width,
            final(self).height == old(self).height,
            final(self).red_orbs == old(self).red_orbs,
            final(self).blue_orbs == old(self).blue_orbs,
            final(self).current_turn == old(self).current_turn,
            final(self).game_state == old(self).game_state,
            final(self).total_moves == old(self).total_moves,
    {
        let i = self.index_of(row, col);
        let cell = self.cells[i];
        self.cells.set(
            i,
            Cell { state: cell.state, critical_mass: cell.critical_mass, is_queued: q },
        );
    }

    /// Take over the cell at (row, col) for `p`, adding one orb.
    pub(crate) fn take_at(&mut self, row: usize, col: usize, p: Player)
        requires
            old(self).geometry_ok(),
            row < old(self).height,
            col < old(self).width,
            cell_orbs(old(self).cell_at(row as int, col as int)) < u64::MAX,
        ensures
            final(self).cells@ == old(self).cells@.update(
                old(self).sidx(row as int, col as int),
                taken_cell(old(self).cell_at(row as int, col as int), p),
            ),
            final(self).width == old(self).width,
            final(self).height == old(self).height,
            final(self).red_orbs == old(self).red_orbs,
            final(self).blue_orbs == old(self).blue_orbs,
            final(self).current_turn == old(self).current_turn,
            final(self).game_state == old(self).game_state,
            final(self).total_moves == old(self).total_moves,
    {
        let i = self.index_of(row, col);
        let cell = self.cells[i];
        let orbs = match cell.state {
            CellState::Occupied { orbs, .. } => orbs,
            CellState::Empty => 0,
        };
        self.cells.set(
            i,
            Cell {
                state: CellState::Occupied { player: p, orbs: orbs + 1 },
                critical_mass: cell.critical_mass,
                is_queued: cell.is_queued,
            },
        );
    }

    /// Perform one explosion at (row, col): empty the source down to its
    /// remainder and take over each on-grid orthogonal neighbor.
    #[verifier::spinoff_prover]
    #[verifier::rlimit(100)]
    pub(crate) fn explode_cell(&mut self, row: usize, col: usize)
        requires
            old(self).geometry_ok(),
            row < old(self).height,
            col < old(self).width,
            old(self).cell_at(row as int, col as int).state matches CellState::Occupied {
                orbs,
                ..
            } && orbs >= old(self).cell_at(row as int, col as int).critical_mass,
            sum_orbs(old(self).grid()) < u64::MAX,
        ensures
            final(self).cells@ == exploded_grid(
                old(self).grid(),
                old(self).width as int,
                old(self).height as int,
                row as int,
                col as int,
            ),
            final(self).width == old(self).width,
            final(self).height == old(self).height,
            final(self).red_orbs == old(self).red_orbs,
            final(self).blue_orbs == old(self).blue_orbs,
            final(self).current_turn == old(self).current_turn,
            final(self).game_state == old(self).game_state,
            final(self).total_moves == old(self).total_moves,
    {
        let ghost g = self.cells@;
        let ghost w = self.width as int;
        let ghost h = self.height as int;
        let ghost rr = row as int;
        let ghost cc = col as int;
        let ghost si = rr * w + cc;
        proof {
            lemma_sidx_bounds(w, h, rr, cc);
            lemma_capacity_is_neighbor_count(w, h, rr, cc);
        }
        let i = self.index_of(row, col);
        let cell = self.cells[i];
        let (owner, orbs) = match cell.state {
            CellState::Occupied { player, orbs } => (player, orbs),
            CellState::Empty => {
                proof {
                    assert(false);
                }
                (Player::Red, 0)
            },
        };
        let rem = orbs - cell.critical_mass;
        self.cells.set(
            i,
            Cell {
                state: if rem > 0 {
                    CellState::Occupied { player: owner, orbs: rem }
                } else {
                    CellState::Empty
                },
                critical_mass: cell.critical_mass,
                is_queued: cell.is_queued,
            },
        );
        let ghost g0 = g.update(si, source_after_explosion(g[si]));
        let ghost cap = g[si].critical_mass as int;
        let ghost nup: int = if rr > 0 { 1 } else { 0 };
        let ghost ndown: int = if rr < h - 1 { 1 } else { 0 };
        let ghost nleft: int = if cc > 0 { 1 } else { 0 };
        let ghost nright: int = if cc < w - 1 { 1 } else { 0 };
        proof {
            assert(self.cells@ == g0);
            assert(cap == nup + ndown + nleft + nright);
            lemma_sum_update(g, si, source_after_explosion(g[si]), Player::Red);
            assert(sum_orbs(g0) == sum_orbs(g) - cap);
        }
        if row > 0 {
            proof {
                lemma_geometry_preserved(*old(self), *self);
                lemma_sidx_bounds(w, h, rr - 1, cc);
                lemma_cell_le_sum(g0, (rr - 1) * w + cc);
            }
            self.take_at(row - 1, col, owner);
        }
        let ghost g1 = take_in_grid(g0, w, h, rr - 1, cc, owner);
        proof {
            assert(self.cells@ == g1);
            if rr - 1 >= 0 {
                lemma_cell_le_sum(g0, (rr - 1) * w + cc);
                lemma_sum_update(g0, (rr - 1) * w + cc, taken_cell(g0[(rr - 1) * w + cc], owner),
                    Player::Red);
            }
            assert(sum_orbs(g1) == sum_orbs(g) - cap + nup);
        }
        if row + 1 < self.height {
            proof {
                lemma_geometry_preserved(*old(self), *self);
                lemma_sidx_bounds(w, h, rr + 1, cc);
                lemma_cell_le_sum(g1, (rr + 1) * w + cc);
            }
            self.take_at(row + 1, col, owner);
        }
        let ghost g2 = take_in_grid(g1, w, h, rr + 1, cc, owner);
        proof {
            assert(self.cells@ == g2);
            if rr + 1 < h {
                lemma_cell_le_sum(g1, (rr + 1) * w + cc);
                lemma_sum_update(g1, (rr + 1) * w + cc, taken_cell(g1[(rr + 1) * w + cc], owner),
                    Player::Red);
            }
            assert(sum_orbs(g2) == sum_orbs(g) - cap + nup + ndown);
        }
        if col > 0 {
            proof {
                lemma_geometry_preserved(*old(self), *self);
                lemma_sidx_bounds(w, h, rr, cc - 1);
                lemma_cell_le_sum(g2, rr * w + (cc - 1));
            }
            self.take_at(row, col - 1, owner);
        }
        let ghost g3 = take_in_grid(g2, w, h, rr, cc - 1, owner);
        proof {
            assert(self.cells@ == g3);
            if cc - 1 >= 0 {
                lemma_cell_le_sum(g2, rr * w + (cc - 1));
                lemma_sum_update(g2, rr * w + (cc - 1), taken_cell(g2[rr * w + (cc - 1)], owner),
                    Player::Red);
            }
            assert(sum_orbs(g3) == sum_orbs(g) - cap + nup + ndown + nleft);
        }
        if col + 1 < self.width {
            proof {
                lemma_geometry_preserved(*old(self), *self);
                lemma_sidx_bounds(w, h, rr, cc + 1);
                lemma_cell_le_sum(g3, rr * w + (cc + 1));
            }
            self.take_at(row, col + 1, owner);
        }
        proof {
            assert(self.cells@ == take_in_grid(g3, w, h, rr, cc + 1, owner));
            assert(self.cells@ == exploded_grid(g, w, h, rr, cc));
        }
    }
}

} // verus!
