//! The board-scanning heuristics: each is a pure function of (board, point of
//! view) given here a closed spec form, summed cell by cell in row-major
//! order, with bounds that keep every score inside i64.

use vstd::prelude::*;

use crate::ai::Heuristic;
use crate::board::{lemma_sidx_bounds, Board};
use crate::game::{cell_orbs, other, CellState, Player};
use crate::grid::{lemma_cell_le_sum, sum_orbs};

verus! {

/// Orb totals are capped at this for evaluation and search, leaving ample
/// headroom in i64 score arithmetic.
pub const EVAL_MOVES_MAX: u64 = 0x100000;

/// Cell counts are capped at this for evaluation and search.
pub const EVAL_CELLS_MAX: usize = 0x100000;

/// Flat per-cell score bonus for a cell sitting one orb below capacity.
pub const CHAIN_BONUS: i64 = 5;

/// Extra bonus when a neighbor of such a cell is itself one orb below
/// capacity, promising a secondary chain.
pub const CASCADE_CHAIN_BONUS: i64 = 5;

/// A contribution counted for the point-of-view side, against it otherwise.
pub open spec fn sign_for(owner: Player, pov: Player, v: int) -> int {
    if owner == pov {
        v
    } else {
        -v
    }
}

/// Positional weight: corners 3, other edge cells 2, interior 1.
pub open spec fn position_weight(w: int, h: int, r: int, c: int) -> int {
    if (r == 0 || r == h - 1) && (c == 0 || c == w - 1) {
        3
    } else if r == 0 || r == h - 1 || c == 0 || c == w - 1 {
        2
    } else {
        1
    }
}

/// PeripheralControl: positional weight of each occupied cell, signed.
pub open spec fn peripheral_contrib(b: Board, pov: Player, r: int, c: int) -> int {
    match b.cell_at(r, c).state {
        CellState::Occupied { player, .. } => sign_for(
            player,
            pov,
            position_weight(b.width as int, b.height as int, r, c),
        ),
        CellState::Empty => 0,
    }
}

/// TerritoryControl: one point per occupied cell, signed.
pub open spec fn territory_contrib(b: Board, pov: Player, r: int, c: int) -> int {
    match b.cell_at(r, c).state {
        CellState::Occupied { player, .. } => sign_for(player, pov, 1),
        CellState::Empty => 0,
    }
}

/// ChainReactionPotential: a flat bonus per cell one orb below capacity.
pub open spec fn chain_contrib(b: Board, pov: Player, r: int, c: int) -> int {
    match b.cell_at(r, c).state {
        CellState::Occupied { player, orbs } => if orbs + 1 == b.cell_at(r, c).critical_mass {
            sign_for(player, pov, CHAIN_BONUS as int)
        } else {
            0
        },
        CellState::Empty => 0,
    }
}

/// Orbs at (r2, c2) when that cell is on the grid and held by the side
/// opposing `q`; otherwise nothing.
pub open spec fn conv_term(b: Board, q: Player, r2: int, c2: int) -> int {
    if b.in_bounds(r2, c2) {
        match b.cell_at(r2, c2).state {
            CellState::Occupied { player, orbs } => if player == other(q) {
                orbs as int
            } else {
                0
            },
            CellState::Empty => 0,
        }
    } else {
        0
    }
}

/// ConversionPotential: for a cell one orb below capacity, the captureable
/// mass on adjacent enemy cells, signed by the trigger cell's owner.
pub open spec fn conversion_contrib(b: Board, pov: Player, r: int, c: int) -> int {
    match b.cell_at(r, c).state {
        CellState::Occupied { player, orbs } => if orbs + 1 == b.cell_at(r, c).critical_mass {
            sign_for(
                player,
                pov,
                conv_term(b, player, r - 1, c) + conv_term(b, player, r + 1, c) + conv_term(
                    b,
                    player,
                    r,
                    c - 1,
                ) + conv_term(b, player, r, c + 1),
            )
        } else {
            0
        },
        CellState::Empty => 0,
    }
}

/// Orbs at (r2, c2) plus the secondary-chain bonus when that neighbor is
/// itself one orb below capacity; nothing off the grid or for empty cells.
pub open spec fn casc_term(b: Board, r2: int, c2: int) -> int {
    if b.in_bounds(r2, c2) {
        match b.cell_at(r2, c2).state {
            CellState::Occupied { orbs, .. } => orbs as int + (if orbs + 1 == b.cell_at(
                r2,
                c2,
            ).critical_mass {
                CASCADE_CHAIN_BONUS as int
            } else {
                0
            }),
            CellState::Empty => 0,
        }
    } else {
        0
    }
}

/// CascadePotential: for a cell one orb below capacity, all neighbor orbs
/// plus secondary-chain bonuses, signed by the trigger cell's owner.
pub open spec fn cascade_contrib(b: Board, pov: Player, r: int, c: int) -> int {
    match b.cell_at(r, c).state {
        CellState::Occupied { player, orbs } => if orbs + 1 == b.cell_at(r, c).critical_mass {
            sign_for(
                player,
                pov,
                casc_term(b, r - 1, c) + casc_term(b, r + 1, c) + casc_term(b, r, c - 1)
                    + casc_term(b, r, c + 1),
            )
        } else {
            0
        },
        CellState::Empty => 0,
    }
}

/// The per-cell contribution of a board-scanning heuristic. OrbDifference is
/// computed from the totals and SafeMobility from move simulation, so neither
/// contributes per cell here.
pub open spec fn cell_contrib(b: Board, hk: Heuristic, pov: Player, r: int, c: int) -> int {
    match hk {
        Heuristic::PeripheralControl => peripheral_contrib(b, pov, r, c),
        Heuristic::TerritoryControl => territory_contrib(b, pov, r, c),
        Heuristic::ChainReactionPotential => chain_contrib(b, pov, r, c),
        Heuristic::ConversionPotential => conversion_contrib(b, pov, r, c),
        Heuristic::CascadePotential => cascade_contrib(b, pov, r, c),
        Heuristic::OrbDifference => 0,
        Heuristic::SafeMobility => 0,
    }
}

/// Contributions of row `r`, columns 0 to n-1.
pub open spec fn row_contrib_sum(b: Board, hk: Heuristic, pov: Player, r: int, n: int) -> int
    decreases n,
{
    if n <= 0 {
        0
    } else {
        row_contrib_sum(b, hk, pov, r, n - 1) + cell_contrib(b, hk, pov, r, n - 1)
    }
}

/// Contributions of rows 0 to n-1.
pub open spec fn grid_contrib_sum(b: Board, hk: Heuristic, pov: Player, n: int) -> int
    decreases n,
{
    if n <= 0 {
        0
    } else {
        grid_contrib_sum(b, hk, pov, n - 1) + row_contrib_sum(b, hk, pov, n - 1, b.width as int)
    }
}

/// A board-scanning heuristic's value: its contributions over the whole grid.
pub open spec fn scan_heuristic_spec(b: Board, hk: Heuristic, pov: Player) -> int {
    grid_contrib_sum(b, hk, pov, b.height as int)
}

/// Every per-cell contribution lies within 4 * total orbs + 25.
pub proof fn lemma_cell_contrib_bound(b: Board, hk: Heuristic, pov: Player, r: int, c: int)
    requires
        b.geometry_ok(),
        b.in_bounds(r, c),
    ensures
        -(4 * sum_orbs(b.grid()) + 25) <= cell_contrib(b, hk, pov, r, c) <= 4 * sum_orbs(b.grid())
            + 25,
{
    let s = sum_orbs(b.grid()) as int;
    lemma_sidx_bounds(b.width as int, b.height as int, r, c);
    lemma_cell_le_sum(b.grid(), b.sidx(r, c));
    assert forall|r2: int, c2: int| b.in_bounds(r2, c2) implies 0 <= cell_orbs(
        #[trigger] b.cell_at(r2, c2),
    ) <= s by {
        lemma_sidx_bounds(b.width as int, b.height as int, r2, c2);
        lemma_cell_le_sum(b.grid(), b.sidx(r2, c2));
    }
    match hk {
        Heuristic::ConversionPotential => {
            assert(0 <= conv_term(b, Player::Red, r - 1, c) <= s);
            assert(0 <= conv_term(b, Player::Blue, r - 1, c) <= s);
            assert(0 <= conv_term(b, Player::Red, r + 1, c) <= s);
            assert(0 <= conv_term(b, Player::Blue, r + 1, c) <= s);
            assert(0 <= conv_term(b, Player::Red, r, c - 1) <= s);
            assert(0 <= conv_term(b, Player::Blue, r, c - 1) <= s);
            assert(0 <= conv_term(b, Player::Red, r, c + 1) <= s);
            assert(0 <= conv_term(b, Player::Blue, r, c + 1) <= s);
        },
        Heuristic::CascadePotential => {
            assert(0 <= casc_term(b, r - 1, c) <= s + 5);
            assert(0 <= casc_term(b, r + 1, c) <= s + 5);
            assert(0 <= casc_term(b, r, c - 1) <= s + 5);
            assert(0 <= casc_term(b, r, c + 1) <= s + 5);
        },
        _ => {},
    }
}

/// A row's contributions lie within n times the per-cell bound.
pub proof fn lemma_row_sum_bound(b: Board, hk: Heuristic, pov: Player, r: int, n: int)
    requires
        b.geometry_ok(),
        0 <= r < b.height,
        0 <= n <= b.width,
    ensures
        -(n * (4 * sum_orbs(b.grid()) + 25)) <= row_contrib_sum(b, hk, pov, r, n) <= n * (4
            * sum_orbs(b.grid()) + 25),
    decreases n,
{
    let m = 4 * sum_orbs(b.grid()) + 25;
    if n > 0 {
        lemma_row_sum_bound(b, hk, pov, r, n - 1);
        lemma_cell_contrib_bound(b, hk, pov, r, n - 1);
        assert((n - 1) * m + m == n * m) by (nonlinear_arith);
    }
}

/// The whole grid's contributions lie within rows * width times the bound.
pub proof fn lemma_grid_sum_bound(b: Board, hk: Heuristic, pov: Player, n: int)
    requires
        b.geometry_ok(),
        0 <= n <= b.height,
    ensures
        -(n * b.width * (4 * sum_orbs(b.grid()) + 25)) <= grid_contrib_sum(b, hk, pov, n) <= n
            * b.width * (4 * sum_orbs(b.grid()) + 25),
    decreases n,
{
    let m = 4 * sum_orbs(b.grid()) + 25;
    let w = b.width as int;
    if n > 0 {
        lemma_grid_sum_bound(b, hk, pov, n - 1);
        lemma_row_sum_bound(b, hk, pov, n - 1, w);
        assert((n - 1) * w * m + w * m == n * w * m) by (nonlinear_arith);
    }
}

} // verus!

verus! {

/// Ceiling on the magnitude of any single scanned heuristic value.
pub const SCAN_BOUND: i64 = 0x800_0000_0000;

impl Board {
    /// Orbs at (r2, c2) when held by the side opposing `q`, else zero.
    fn conv_cell(&self, q: Player, r2: usize, c2: usize) -> (v: i64)
        requires
            self.geometry_ok(),
            r2 < self.height,
            c2 < self.width,
            sum_orbs(self.grid()) <= EVAL_MOVES_MAX,
        ensures
            v == conv_term(*self, q, r2 as int, c2 as int),
            0 <= v <= sum_orbs(self.grid()),
    {
        let i = self.index_of(r2, c2);
        let cell = self.cells[i];
        proof {
            lemma_cell_le_sum(self.cells@, i as int);
        }
        match cell.state {
            CellState::Occupied { player, orbs } => {
                if player != q {
                    orbs as i64
                } else {
                    0
                }
            },
            CellState::Empty => 0,
        }
    }

    /// Orbs at (r2, c2) plus the secondary-chain bonus, else zero.
    fn casc_cell(&self, r2: usize, c2: usize) -> (v: i64)
        requires
            self.geometry_ok(),
            r2 < self.height,
            c2 < self.width,
            sum_orbs(self.grid()) <= EVAL_MOVES_MAX,
        ensures
            v == casc_term(*self, r2 as int, c2 as int),
            0 <= v <= sum_orbs(self.grid()) + 5,
    {
        let i = self.index_of(r2, c2);
        let cell = self.cells[i];
        proof {
            lemma_cell_le_sum(self.cells@, i as int);
        }
        match cell.state {
            CellState::Occupied { orbs, .. } => {
                let base = orbs as i64;
                if orbs + 1 == cell.critical_mass {
                    base + CASCADE_CHAIN_BONUS
                } else {
                    base
                }
            },
            CellState::Empty => 0,
        }
    }

    /// One cell's contribution to a board-scanning heuristic.
    #[verifier::spinoff_prover]
    #[verifier::rlimit(100)]
    fn cell_contribution(&self, hk: Heuristic, pov: Player, row: usize, col: usize) -> (v: i64)
        requires
            self.geometry_ok(),
            row < self.height,
            col < self.width,
            sum_orbs(self.grid()) <= EVAL_MOVES_MAX,
        ensures
            v == cell_contrib(*self, hk, pov, row as int, col as int),
    {
        let i = self.index_of(row, col);
        let cell = self.cells[i];
        proof {
            lemma_cell_le_sum(self.cells@, i as int);
        }
        match hk {
            Heuristic::PeripheralControl => {
                match cell.state {
                    CellState::Occupied { player, .. } => {
                        let on_row_edge = row == 0 || row == self.height - 1;
                        let on_col_edge = col == 0 || col == self.width - 1;
                        let wgt: i64 = if on_row_edge && on_col_edge {
                            3
                        } else if on_row_edge || on_col_edge {
                            2
                        } else {
                            1
                        };
                        if player == pov {
                            wgt
                        } else {
                            -wgt
                        }
                    },
                    CellState::Empty => 0,
                }
            },
            Heuristic::TerritoryControl => {
                match cell.state {
                    CellState::Occupied { player, .. } => {
                        if player == pov {
                            1
                        } else {
                            -1
                        }
                    },
                    CellState::Empty => 0,
                }
            },
            Heuristic::ChainReactionPotential => {
                match cell.state {
                    CellState::Occupied { player, orbs } => {
                        if orbs + 1 == cell.critical_mass {
                            if player == pov {
                                CHAIN_BONUS
                            } else {
                                -CHAIN_BONUS
                            }
                        } else {
                            0
                        }
                    },
                    CellState::Empty => 0,
                }
            },
            Heuristic::ConversionPotential => {
                match cell.state {
                    CellState::Occupied { player, orbs } => {
                        if orbs + 1 == cell.critical_mass {
                            let mut t: i64 = 0;
                            if row > 0 {
                                t = t + self.conv_cell(player, row - 1, col);
                            }
                            if row + 1 < self.height {
                                t = t + self.conv_cell(player, row + 1, col);
                            }
                            if col > 0 {
                                t = t + self.conv_cell(player, row, col - 1);
                            }
                            if col + 1 < self.width {
                                t = t + self.conv_cell(player, row, col + 1);
                            }
                            if player == pov {
                                t
                            } else {
                                -t
                            }
                        } else {
                            0
                        }
                    },
                    CellState::Empty => 0,
                }
            },
            Heuristic::CascadePotential => {
                match cell.state {
                    CellState::Occupied { player, orbs } => {
                        if orbs + 1 == cell.critical_mass {
                            let mut t: i64 = 0;
                            if row > 0 {
                                t = t + self.casc_cell(row - 1, col);
                            }
                            if row + 1 < self.height {
                                t = t + self.casc_cell(row + 1, col);
                            }
                            if col > 0 {
                                t = t + self.casc_cell(row, col - 1);
                            }
                            if col + 1 < self.width {
                                t = t + self.casc_cell(row, col + 1);
                            }
                            if player == pov {
                                t
                            } else {
                                -t
                            }
                        } else {
                            0
                        }
                    },
                    CellState::Empty => 0,
                }
            },
            Heuristic::OrbDifference => 0,
            Heuristic::SafeMobility => 0,
        }
    }

    /// Evaluate one board-scanning heuristic over the whole grid.
    pub fn scan_heuristic(&self, hk: Heuristic, pov: Player) -> (v: i64)
        requires
            self.geometry_ok(),
            sum_orbs(self.grid()) <= EVAL_MOVES_MAX,
            self.width * self.height <= EVAL_CELLS_MAX,
        ensures
            v == scan_heuristic_spec(*self, hk, pov),
            -SCAN_BOUND <= v <= SCAN_BOUND,
    {
        let ghost m = 4 * sum_orbs(self.grid()) + 25;
        let mut acc: i64 = 0;
        let mut r: usize = 0;
        while r < self.height
            invariant
                self.geometry_ok(),
                sum_orbs(self.grid()) <= EVAL_MOVES_MAX,
                self.width * self.height <= EVAL_CELLS_MAX,
                r <= self.height,
                m == 4 * sum_orbs(self.grid()) + 25,
                acc == grid_contrib_sum(*self, hk, pov, r as int),
                -(r * self.width * m) <= acc <= r * self.width * m,
            decreases self.height - r,
        {
            let mut c: usize = 0;
            while c < self.width
                invariant
                    self.geometry_ok(),
                    sum_orbs(self.grid()) <= EVAL_MOVES_MAX,
                    self.width * self.height <= EVAL_CELLS_MAX,
                    r < self.height,
                    c <= self.width,
                    m == 4 * sum_orbs(self.grid()) + 25,
                    acc == grid_contrib_sum(*self, hk, pov, r as int) + row_contrib_sum(
                        *self,
                        hk,
                        pov,
                        r as int,
                        c as int,
                    ),
                decreases self.width - c,
            {
                proof {
                    lemma_grid_sum_bound(*self, hk, pov, r as int);
                    lemma_row_sum_bound(*self, hk, pov, r as int, c as int);
                    lemma_cell_contrib_bound(*self, hk, pov, r as int, c as int);
                    crate::board::lemma_sidx_bounds(
                        self.width as int,
                        self.height as int,
                        r as int,
                        c as int,
                    );
                    assert(r * self.width * m + c * m + m <= self.height * self.width * m)
                        by (nonlinear_arith)
                        requires
                            (r as int) * self.width + c + 1 <= (self.width as int) * self.height,
                            0 <= m,
                            0 <= r,
                            0 <= c,
                    ;
                    assert((self.height as int) * self.width * m <= 0x800_0000_0000)
                        by (nonlinear_arith)
                        requires
                            0 <= (self.width as int) * self.height <= 0x100000,
                            0 <= m <= 0x400019,
                    ;
                }
                let v = self.cell_contribution(hk, pov, r, c);
                acc = acc + v;
                c = c + 1;
            }
            proof {
                lemma_grid_sum_bound(*self, hk, pov, r as int + 1);
                assert((r as int + 1) * self.width * m <= (self.height as int) * self.width * m)
                    by (nonlinear_arith)
                    requires
                        0 <= m,
                        0 <= self.width,
                        r as int + 1 <= self.height,
                ;
                assert((self.height as int) * self.width * m <= 0x800_0000_0000)
                    by (nonlinear_arith)
                    requires
                        0 <= (self.width as int) * self.height <= 0x100000,
                        0 <= m <= 0x400019,
                ;
            }
            r = r + 1;
        }
        proof {
            lemma_grid_sum_bound(*self, hk, pov, self.height as int);
            assert((self.height as int) * self.width * m <= 0x800_0000_0000) by (nonlinear_arith)
                requires
                    0 <= (self.width as int) * self.height <= 0x100000,
                    0 <= m <= 0x400019,
            ;
        }
        acc
    }
}

} // verus!
