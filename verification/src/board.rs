//! The board: a flat grid of cells with per-side orb totals, the side to move,
//! the game status and the move counter, together with its well-formedness
//! predicate and the query operations that do not mutate it.

use vstd::prelude::*;

use crate::game::{cell_orbs, other, Cell, CellState, GameState, Player};
use crate::grid::{
    capacity_at, lemma_all_occupied_sum_ge_len, lemma_positive_sum_has_cell, lemma_sum_orbs_split,
    sum_orbs, sum_orbs_of,
};

verus! {

/// The mutable game state. Every search step works on an independent clone;
/// the authoritative instance is only changed through the move operations.
#[derive(Debug)]
pub struct Board {
    pub width: usize,
    pub height: usize,
    /// Row-major: the cell at (r, c) is `cells[r * width + c]`.
    pub cells: Vec<Cell>,
    pub red_orbs: u64,
    pub blue_orbs: u64,
    pub current_turn: Player,
    pub game_state: GameState,
    pub total_moves: u64,
}

/// Two boards that hold the same game position: equal dimensions, cells,
/// totals, side to move, status and move counter.
pub open spec fn same_position(a: Board, b: Board) -> bool {
    &&& b.width == a.width
    &&& b.height == a.height
    &&& b.cells@ == a.cells@
    &&& b.red_orbs == a.red_orbs
    &&& b.blue_orbs == a.blue_orbs
    &&& b.current_turn == a.current_turn
    &&& b.game_state == a.game_state
    &&& b.total_moves == a.total_moves
}

/// Whether either side has won on these totals: decided if and only if exactly
/// one side's total is zero while the other's is positive.
pub open spec fn winner_of_totals(red: nat, blue: nat) -> Option<Player> {
    if red > 0 && blue == 0 {
        Some(Player::Red)
    } else if blue > 0 && red == 0 {
        Some(Player::Blue)
    } else {
        None
    }
}

impl Board {
    /// The grid as a sequence of cells.
    pub open spec fn grid(self) -> Seq<Cell> {
        self.cells@
    }

    /// The flat index of (r, c).
    pub open spec fn sidx(self, r: int, c: int) -> int {
        r * self.width + c
    }

    /// Whether (r, c) lies on the grid.
    pub open spec fn in_bounds(self, r: int, c: int) -> bool {
        0 <= r < self.height && 0 <= c < self.width
    }

    /// The cell at (r, c).
    pub open spec fn cell_at(self, r: int, c: int) -> Cell {
        self.grid()[self.sidx(r, c)]
    }

    /// A side's orb total, re-derived from the grid.
    pub open spec fn side_total(self, p: Player) -> nat {
        sum_orbs_of(self.grid(), p)
    }

    /// The recorded total of a side (the cached field, not the derived sum).
    pub open spec fn recorded_total(self, p: Player) -> u64 {
        if p == Player::Red {
            self.red_orbs
        } else {
            self.blue_orbs
        }
    }

    /// Dimensions are at least 2x2, the grid has one cell per coordinate, and
    /// every cell's capacity follows the position formula.
    pub open spec fn geometry_ok(self) -> bool {
        &&& 2 <= self.width
        &&& 2 <= self.height
        &&& self.width * self.height <= usize::MAX
        &&& self.grid().len() == self.width * self.height
        &&& forall|r: int, c: int|
            self.in_bounds(r, c) ==> (#[trigger] self.cell_at(r, c)).critical_mass == capacity_at(
                self.width as int,
                self.height as int,
                r,
                c,
            )
    }

    /// Occupied cells hold at least one orb.
    pub open spec fn cells_positive(self) -> bool {
        forall|i: int|
            0 <= i < self.grid().len() ==> ((#[trigger] self.grid()[i].state) matches
            CellState::Occupied { orbs, .. } ==> orbs >= 1)
    }

    /// No cell is marked as sitting in a cascade worklist.
    pub open spec fn flags_clear(self) -> bool {
        forall|i: int| 0 <= i < self.grid().len() ==> !(#[trigger] self.grid()[i]).is_queued
    }

    /// The cached per-side totals equal the sums re-derived from the grid.
    pub open spec fn counts_ok(self) -> bool {
        &&& self.red_orbs == sum_orbs_of(self.grid(), Player::Red)
        &&& self.blue_orbs == sum_orbs_of(self.grid(), Player::Blue)
    }

    /// Each accepted move adds exactly one orb and cascades conserve them, so
    /// the orbs on the board always equal the move counter.
    pub open spec fn conserved(self) -> bool {
        sum_orbs(self.grid()) == self.total_moves
    }

    /// The status matches the totals: won exactly as the winning rule says,
    /// and never still ongoing when the rule has been met.
    pub open spec fn status_ok(self) -> bool {
        match self.game_state {
            GameState::Ongoing => !(self.total_moves >= 2 && winner_of_totals(
                self.side_total(Player::Red),
                self.side_total(Player::Blue),
            ) is Some),
            GameState::Won { winner } => self.total_moves >= 2 && winner_of_totals(
                self.side_total(Player::Red),
                self.side_total(Player::Blue),
            ) == Some(winner),
        }
    }

    /// Everything except the status rule. A deadline-aborted simulation copy
    /// keeps this much; a board obtained any other way keeps all of `wf`.
    pub open spec fn wf_core(self) -> bool {
        &&& self.geometry_ok()
        &&& self.cells_positive()
        &&& self.flags_clear()
        &&& self.counts_ok()
        &&& self.conserved()
    }

    /// The board invariant.
    pub open spec fn wf(self) -> bool {
        self.wf_core() && self.status_ok()
    }

    /// A cell the side to move may place into: empty, or already its own.
    pub open spec fn legal_cell(self, r: int, c: int) -> bool {
        match self.cell_at(r, c).state {
            CellState::Empty => true,
            CellState::Occupied { player, .. } => player == self.current_turn,
        }
    }
}

/// Row-major flat indices stay within the grid.
pub proof fn lemma_sidx_bounds(w: int, h: int, r: int, c: int)
    requires
        0 <= r < h,
        0 <= c < w,
    ensures
        0 <= r * w + c < w * h,
        r * w + c <= (h - 1) * w + (w - 1),
{
    assert(0 <= r * w + c < w * h && r * w + c <= (h - 1) * w + (w - 1)) by (nonlinear_arith)
        requires
            0 <= r < h,
            0 <= c < w,
    ;
}

/// Row-major flat indexing is injective.
pub proof fn lemma_sidx_injective(w: int, r1: int, c1: int, r2: int, c2: int)
    requires
        0 <= c1 < w,
        0 <= c2 < w,
        0 <= r1,
        0 <= r2,
        r1 * w + c1 == r2 * w + c2,
    ensures
        r1 == r2 && c1 == c2,
{
    assert(r1 == r2 && c1 == c2) by (nonlinear_arith)
        requires
            0 <= c1 < w,
            0 <= c2 < w,
            0 <= r1,
            0 <= r2,
            r1 * w + c1 == r2 * w + c2,
    ;
}

/// Row-major flat indexing respects the (row, column) lexicographic order.
pub proof fn lemma_sidx_lt(w: int, r1: int, c1: int, r2: int, c2: int)
    requires
        0 <= c1 < w,
        0 <= c2 < w,
        0 <= r1,
        0 <= r2,
        r1 < r2 || (r1 == r2 && c1 < c2),
    ensures
        r1 * w + c1 < r2 * w + c2,
{
    assert(r1 * w + c1 < r2 * w + c2) by (nonlinear_arith)
        requires
            0 <= c1 < w,
            0 <= c2 < w,
            0 <= r1,
            0 <= r2,
            r1 < r2 || (r1 == r2 && c1 < c2),
    ;
}

impl Board {
    /// The flat index of (row, col), in bounds of the cell vector.
    pub(crate) fn index_of(&self, row: usize, col: usize) -> (i: usize)
        requires
            self.geometry_ok(),
            row < self.height,
            col < self.width,
        ensures
            i == self.sidx(row as int, col as int),
            i < self.cells@.len(),
    {
        proof {
            lemma_sidx_bounds(self.width as int, self.height as int, row as int, col as int);
        }
        row * self.width + col
    }

    /// A fresh board: all cells empty with their positional capacity, totals
    /// and move counter zero, the given side to move, status ongoing.
    pub fn new(width: usize, height: usize, first_turn: Player) -> (b: Board)
        requires
            2 <= width,
            2 <= height,
            width * height <= usize::MAX,
        ensures
            b.wf(),
            b.width == width,
            b.height == height,
            b.current_turn == first_turn,
            b.game_state == GameState::Ongoing,
            b.total_moves == 0,
            b.red_orbs == 0,
            b.blue_orbs == 0,
            forall|r: int, c: int|
                b.in_bounds(r, c) ==> (#[trigger] b.cell_at(r, c)).state == CellState::Empty,
    {
        let mut cells: Vec<Cell> = Vec::new();
        let mut r: usize = 0;
        while r < height
            invariant
                2 <= width,
                2 <= height,
                r <= height,
                width * height <= usize::MAX,
                cells@.len() == r * width,
                forall|rr: int, cc: int|
                    0 <= rr < r && 0 <= cc < width ==> {
                        let cell = #[trigger] cells@[rr * width + cc];
                        cell.state == CellState::Empty && !cell.is_queued && cell.critical_mass
                            == capacity_at(width as int, height as int, rr, cc)
                    },
            decreases height - r,
        {
            let mut c: usize = 0;
            while c < width
                invariant
                    2 <= width,
                    2 <= height,
                    r < height,
                    c <= width,
                    width * height <= usize::MAX,
                    cells@.len() == r * width + c,
                    forall|rr: int, cc: int|
                        0 <= rr <= r && 0 <= cc < width && (rr < r || cc < c) ==> {
                            let cell = #[trigger] cells@[rr * width + cc];
                            cell.state == CellState::Empty && !cell.is_queued && cell.critical_mass
                                == capacity_at(width as int, height as int, rr, cc)
                        },
                decreases width - c,
            {
                let mut cap: u64 = 4;
                if r == 0 {
                    cap = cap - 1;
                }
                if r == height - 1 {
                    cap = cap - 1;
                }
                if c == 0 {
                    cap = cap - 1;
                }
                if c == width - 1 {
                    cap = cap - 1;
                }
                assert(cap == capacity_at(width as int, height as int, r as int, c as int));
                proof {
                    lemma_sidx_bounds(width as int, height as int, r as int, c as int);
                }
                cells.push(Cell::new(cap));
                assert forall|rr: int, cc: int|
                    0 <= rr <= r && 0 <= cc < width && (rr < r || cc < c + 1) implies {
                    let cell = #[trigger] cells@[rr * width + cc];
                    cell.state == CellState::Empty && !cell.is_queued && cell.critical_mass
                        == capacity_at(width as int, height as int, rr, cc)
                } by {
                    lemma_sidx_bounds(width as int, height as int, rr, cc);
                    if rr == r && cc == c {
                        assert(cells@[rr * width + cc] == cells@.last());
                    } else {
                        lemma_sidx_lt(width as int, rr, cc, r as int, c as int);
                    }
                }
                c = c + 1;
            }
            assert forall|rr: int, cc: int|
                0 <= rr < r + 1 && 0 <= cc < width implies {
                let cell = #[trigger] cells@[rr * width + cc];
                cell.state == CellState::Empty && !cell.is_queued && cell.critical_mass
                    == capacity_at(width as int, height as int, rr, cc)
            } by {}
            proof {
                assert((r + 1) * width == r * width + width) by (nonlinear_arith);
            }
            r = r + 1;
        }
        let b = Board {
            width,
            height,
            cells,
            red_orbs: 0,
            blue_orbs: 0,
            current_turn: first_turn,
            game_state: GameState::Ongoing,
            total_moves: 0,
        };
        proof {
            assert(b.grid().len() == width * height) by (nonlinear_arith)
                requires
                    b.grid().len() == r * width,
                    r == height,
            ;
            assert forall|rr: int, cc: int| b.in_bounds(rr, cc) implies (#[trigger] b.cell_at(
                rr,
                cc,
            )).critical_mass == capacity_at(b.width as int, b.height as int, rr, cc) && b.cell_at(
                rr,
                cc,
            ).state == CellState::Empty by {
                lemma_sidx_bounds(width as int, height as int, rr, cc);
            }
            assert forall|i: int| 0 <= i < b.grid().len() implies !(#[trigger] b.grid()[i]).is_queued
                && cell_orbs(b.grid()[i]) == 0 && b.grid()[i].state == CellState::Empty by {
                let rr = i / (width as int);
                let cc = i % (width as int);
                vstd::arithmetic::div_mod::lemma_fundamental_div_mod(i, width as int);
                vstd::arithmetic::div_mod::lemma_mod_bound(i, width as int);
                vstd::arithmetic::div_mod::lemma_div_pos_is_pos(i, width as int);
                assert(rr < height) by (nonlinear_arith)
                    requires
                        i < width * height,
                        i == width * rr + cc,
                        0 <= cc < width,
                        0 <= rr,
                ;
                assert(b.grid()[rr * width + cc] == b.cell_at(rr, cc));
            }
            lemma_zero_grid_sums(b.grid());
            assert(b.geometry_ok());
            assert(b.cells_positive());
            assert(b.flags_clear());
            assert(b.counts_ok());
            assert(b.conserved());
            assert(b.status_ok());
        }
        b
    }

    /// The per-side totals as a pair (red, blue), from the cached fields.
    pub fn orb_count(&self, p: Player) -> (n: u64)
        ensures
            n == self.recorded_total(p),
    {
        match p {
            Player::Red => self.red_orbs,
            Player::Blue => self.blue_orbs,
        }
    }
}

impl Board {
    /// The legal cells of row `r` among its first `n` columns, in column order.
    pub open spec fn legal_in_row(self, r: int, n: int) -> Seq<(usize, usize)>
        decreases n,
    {
        if n <= 0 {
            Seq::empty()
        } else {
            self.legal_in_row(r, n - 1) + (if self.legal_cell(r, n - 1) {
                seq![(r as usize, (n - 1) as usize)]
            } else {
                Seq::empty()
            })
        }
    }

    /// The legal cells of the first `n` rows, in row-major order.
    pub open spec fn legal_rows(self, n: int) -> Seq<(usize, usize)>
        decreases n,
    {
        if n <= 0 {
            Seq::empty()
        } else {
            self.legal_rows(n - 1) + self.legal_in_row(n - 1, self.width as int)
        }
    }

    /// All legal placements for the side to move, in row-major order.
    pub open spec fn legal_moves_spec(self) -> Seq<(usize, usize)> {
        self.legal_rows(self.height as int)
    }

    proof fn lemma_legal_in_row_members(self, r: int, n: int)
        requires
            0 <= r < self.height,
            n <= self.width,
        ensures
            forall|m: (usize, usize)|
                self.legal_in_row(r, n).contains(m) <==> (m.0 == r && m.1 < n && self.legal_cell(
                    r,
                    m.1 as int,
                )),
        decreases n,
    {
        if n > 0 {
            self.lemma_legal_in_row_members(r, n - 1);
            let whole = self.legal_in_row(r, n);
            let pre = self.legal_in_row(r, n - 1);
            assert forall|m: (usize, usize)|
                whole.contains(m) <==> (m.0 == r && m.1 < n && self.legal_cell(r, m.1 as int)) by {
                if whole.contains(m) {
                    let i = choose|i: int| 0 <= i < whole.len() && whole[i] == m;
                    if i < pre.len() {
                        assert(pre.contains(m));
                    } else {
                        assert(self.legal_cell(r, n - 1));
                        assert(m == (r as usize, (n - 1) as usize));
                    }
                }
                if m.0 == r && m.1 < n && self.legal_cell(r, m.1 as int) {
                    if m.1 < n - 1 {
                        assert(pre.contains(m));
                        let i = choose|i: int| 0 <= i < pre.len() && pre[i] == m;
                        assert(whole[i] == m);
                        assert(whole.contains(m));
                    } else {
                        assert(whole[whole.len() - 1] == m);
                        assert(whole.contains(m));
                    }
                }
            }
        }
    }

    proof fn lemma_legal_rows_members(self, n: int)
        requires
            n <= self.height,
        ensures
            forall|m: (usize, usize)|
                self.legal_rows(n).contains(m) <==> (m.0 < n && m.1 < self.width
                    && self.legal_cell(m.0 as int, m.1 as int)),
        decreases n,
    {
        if n > 0 {
            self.lemma_legal_rows_members(n - 1);
            self.lemma_legal_in_row_members(n - 1, self.width as int);
            let whole = self.legal_rows(n);
            let pre = self.legal_rows(n - 1);
            let row = self.legal_in_row(n - 1, self.width as int);
            assert forall|m: (usize, usize)|
                whole.contains(m) <==> (m.0 < n && m.1 < self.width && self.legal_cell(
                    m.0 as int,
                    m.1 as int,
                )) by {
                if whole.contains(m) {
                    let i = choose|i: int| 0 <= i < whole.len() && whole[i] == m;
                    if i < pre.len() {
                        assert(pre.contains(m));
                    } else {
                        assert(row[i - pre.len()] == m);
                        assert(row.contains(m));
                    }
                }
                if m.0 < n && m.1 < self.width && self.legal_cell(m.0 as int, m.1 as int) {
                    if m.0 < n - 1 {
                        assert(pre.contains(m));
                        let i = choose|i: int| 0 <= i < pre.len() && pre[i] == m;
                        assert(whole[i] == m);
                    } else {
                        assert(row.contains(m));
                        let i = choose|i: int| 0 <= i < row.len() && row[i] == m;
                        assert(whole[pre.len() + i] == m);
                    }
                    assert(whole.contains(m));
                }
            }
        }
    }

    proof fn lemma_legal_in_row_equal(self, b: Board, r: int, n: int)
        requires
            b.width == self.width,
            b.height == self.height,
            b.cells@ == self.cells@,
            b.current_turn == self.current_turn,
        ensures
            b.legal_in_row(r, n) == self.legal_in_row(r, n),
        decreases n,
    {
        if n > 0 {
            self.lemma_legal_in_row_equal(b, r, n - 1);
        }
    }

    proof fn lemma_legal_rows_equal(self, b: Board, n: int)
        requires
            b.width == self.width,
            b.height == self.height,
            b.cells@ == self.cells@,
            b.current_turn == self.current_turn,
        ensures
            b.legal_rows(n) == self.legal_rows(n),
        decreases n,
    {
        if n > 0 {
            self.lemma_legal_rows_equal(b, n - 1);
            self.lemma_legal_in_row_equal(b, n - 1, self.width as int);
        }
    }

    /// Boards with the same grid, dimensions and side to move offer the same
    /// legal moves, whatever their other bookkeeping says.
    pub proof fn lemma_legal_moves_equal(self, b: Board)
        requires
            b.width == self.width,
            b.height == self.height,
            b.cells@ == self.cells@,
            b.current_turn == self.current_turn,
        ensures
            b.legal_moves_spec() == self.legal_moves_spec(),
    {
        self.lemma_legal_rows_equal(b, self.height as int);
    }

    /// A coordinate pair is among the legal moves exactly when it is on the
    /// grid and its cell is empty or owned by the side to move.
    pub proof fn lemma_legal_moves_members(self)
        ensures
            forall|m: (usize, usize)|
                self.legal_moves_spec().contains(m) <==> (m.0 < self.height && m.1 < self.width
                    && self.legal_cell(m.0 as int, m.1 as int)),
    {
        self.lemma_legal_rows_members(self.height as int);
    }

    proof fn lemma_legal_in_row_len(self, r: int, n: int)
        requires
            n >= 0,
        ensures
            self.legal_in_row(r, n).len() <= n,
        decreases n,
    {
        if n > 0 {
            self.lemma_legal_in_row_len(r, n - 1);
        }
    }

    proof fn lemma_legal_rows_len(self, n: int)
        requires
            n >= 0,
        ensures
            self.legal_rows(n).len() <= n * self.width,
        decreases n,
    {
        if n > 0 {
            self.lemma_legal_rows_len(n - 1);
            self.lemma_legal_in_row_len(n - 1, self.width as int);
            assert((n - 1) * self.width + self.width == n * self.width) by (nonlinear_arith);
        }
    }

    /// There are never more legal moves than cells.
    pub proof fn lemma_legal_moves_len_bound(self)
        ensures
            self.legal_moves_spec().len() <= self.height * self.width,
    {
        self.lemma_legal_rows_len(self.height as int);
    }

    /// All legal placements for the side to move: every cell that is empty or
    /// already holds the mover's orbs, in row-major order.
    pub fn get_all_valid_moves(&self) -> (moves: Vec<(usize, usize)>)
        requires
            self.geometry_ok(),
        ensures
            moves@ == self.legal_moves_spec(),
    {
        let mut moves: Vec<(usize, usize)> = Vec::new();
        let mut r: usize = 0;
        while r < self.height
            invariant
                self.geometry_ok(),
                r <= self.height,
                moves@ == self.legal_rows(r as int),
            decreases self.height - r,
        {
            let mut c: usize = 0;
            while c < self.width
                invariant
                    self.geometry_ok(),
                    r < self.height,
                    c <= self.width,
                    moves@ == self.legal_rows(r as int) + self.legal_in_row(r as int, c as int),
                decreases self.width - c,
            {
                let i = self.index_of(r, c);
                let legal = match self.cells[i].state {
                    CellState::Empty => true,
                    CellState::Occupied { player, .. } => player == self.current_turn,
                };
                assert(legal == self.legal_cell(r as int, c as int));
                if legal {
                    moves.push((r, c));
                }
                proof {
                    assert(moves@ =~= self.legal_rows(r as int) + self.legal_in_row(
                        r as int,
                        c + 1,
                    ));
                }
                c = c + 1;
            }
            proof {
                assert(moves@ =~= self.legal_rows(r as int + 1));
            }
            r = r + 1;
        }
        proof {
            assert(moves@ =~= self.legal_rows(self.height as int) + self.legal_in_row(
                self.height as int,
                0,
            ));
        }
        moves
    }
}

/// On a well-formed board, every cell's capacity equals exactly its
/// orthogonal-neighbor count (corner 2, edge 3, interior 4), fixed at
/// construction and preserved by every operation that keeps `geometry_ok`.
pub proof fn lemma_board_capacity_is_neighbor_count(b: Board, r: int, c: int)
    requires
        b.geometry_ok(),
        b.in_bounds(r, c),
    ensures
        b.cell_at(r, c).critical_mass == crate::grid::neighbor_count(
            b.width as int,
            b.height as int,
            r,
            c,
        ),
{
    crate::grid::lemma_capacity_is_neighbor_count(b.width as int, b.height as int, r, c);
}

/// Converts a flat index back to its coordinates, given the grid shape.
pub proof fn lemma_index_to_coords_pure(w: int, h: int, i: int) -> (rc: (int, int))
    requires
        1 <= w,
        0 <= i < w * h,
    ensures
        0 <= rc.0 < h,
        0 <= rc.1 < w,
        rc.0 * w + rc.1 == i,
{
    let r = i / w;
    let c = i % w;
    vstd::arithmetic::div_mod::lemma_fundamental_div_mod(i, w);
    vstd::arithmetic::div_mod::lemma_mod_bound(i, w);
    vstd::arithmetic::div_mod::lemma_div_pos_is_pos(i, w);
    assert(r < h) by (nonlinear_arith)
        requires
            i < w * h,
            i == w * r + c,
            0 <= c < w,
            0 <= r,
    ;
    assert(r * w + c == i) by (nonlinear_arith)
        requires
            i == w * r + c,
    ;
    (r, c)
}

/// Converts a flat index back to its coordinates.
pub proof fn lemma_index_to_coords(b: Board, i: int) -> (rc: (int, int))
    requires
        b.geometry_ok(),
        0 <= i < b.grid().len(),
    ensures
        b.in_bounds(rc.0, rc.1),
        b.sidx(rc.0, rc.1) == i,
{
    let w = b.width as int;
    let r = i / w;
    let c = i % w;
    vstd::arithmetic::div_mod::lemma_fundamental_div_mod(i, w);
    vstd::arithmetic::div_mod::lemma_mod_bound(i, w);
    vstd::arithmetic::div_mod::lemma_div_pos_is_pos(i, w);
    assert(r < b.height) by (nonlinear_arith)
        requires
            i < b.width * b.height,
            i == b.width * r + c,
            0 <= c < b.width,
            0 <= r,
    ;
    assert(r * w + c == i) by (nonlinear_arith)
        requires
            i == w * r + c,
    ;
    (r, c)
}

/// While the game is ongoing on a well-formed board, the side to move always
/// has at least one legal placement.
pub proof fn lemma_ongoing_has_legal_move(b: Board)
    requires
        b.wf(),
        b.game_state == GameState::Ongoing,
    ensures
        b.legal_moves_spec().len() > 0,
{
    let g = b.grid();
    let mover = b.current_turn;
    b.lemma_legal_moves_members();
    if sum_orbs_of(g, mover) > 0 {
        let i = lemma_positive_sum_has_cell(g, mover);
        let rc = lemma_index_to_coords(b, i);
        assert(b.cell_at(rc.0, rc.1) == g[i]);
        assert(b.legal_cell(rc.0, rc.1));
        let m = (rc.0 as usize, rc.1 as usize);
        assert(b.legal_moves_spec().contains(m));
    } else {
        assert(exists|i: int| 0 <= i < g.len() && (#[trigger] g[i]).state == CellState::Empty) by {
            lemma_sum_orbs_split(g);
            if sum_orbs_of(g, other(mover)) == 0 {
                assert(sum_orbs(g) == 0);
                assert(g.len() > 0) by (nonlinear_arith)
                    requires
                        g.len() == b.width * b.height,
                        b.width >= 2,
                        b.height >= 2,
                ;
                crate::grid::lemma_cell_le_sum(g, 0);
                assert(cell_orbs(g[0]) == 0);
                assert(g[0].state == CellState::Empty);
            } else {
                // The mover holds nothing and the opponent something, so by
                // the status rule fewer than two moves were made; four or
                // more all-occupied cells would hold at least four orbs.
                assert(winner_of_totals(b.side_total(Player::Red), b.side_total(Player::Blue))
                    is Some);
                assert(b.total_moves < 2);
                assert(sum_orbs(g) < 2);
                assert(g.len() >= 4) by (nonlinear_arith)
                    requires
                        g.len() == b.width * b.height,
                        b.width >= 2,
                        b.height >= 2,
                ;
                if forall|i: int|
                    0 <= i < g.len() ==> (#[trigger] g[i]).state != CellState::Empty {
                    assert forall|i: int|
                        0 <= i < g.len() implies ((#[trigger] g[i].state) matches
                        CellState::Occupied { orbs, .. } && orbs >= 1) by {
                        assert(g[i].state != CellState::Empty);
                    }
                    lemma_all_occupied_sum_ge_len(g);
                    assert(false);
                }
            }
        }
        let i = choose|i: int| 0 <= i < g.len() && (#[trigger] g[i]).state == CellState::Empty;
        let rc = lemma_index_to_coords(b, i);
        assert(b.cell_at(rc.0, rc.1) == g[i]);
        assert(b.legal_cell(rc.0, rc.1));
        let m = (rc.0 as usize, rc.1 as usize);
        assert(b.legal_moves_spec().contains(m));
    }
}

/// A grid of orb-free cells sums to zero for every side.
pub proof fn lemma_zero_grid_sums(g: Seq<Cell>)
    requires
        forall|i: int| 0 <= i < g.len() ==> cell_orbs(#[trigger] g[i]) == 0,
    ensures
        sum_orbs(g) == 0,
        sum_orbs_of(g, Player::Red) == 0,
        sum_orbs_of(g, Player::Blue) == 0,
    decreases g.len(),
{
    if g.len() > 0 {
        assert(forall|i: int| 0 <= i < g.len() - 1 ==> g.drop_last()[i] == g[i]);
        lemma_zero_grid_sums(g.drop_last());
        assert(g.last() == g[g.len() - 1]);
    }
}

impl Clone for Board {
    /// An independent full copy: same dimensions, cells, totals, turn, status
    /// and counter, sharing no mutable state with the original.
    fn clone(&self) -> (r: Board)
        ensures
            same_position(*self, r),
    {
        let mut cells: Vec<Cell> = Vec::new();
        let mut i: usize = 0;
        while i < self.cells.len()
            invariant
                i <= self.cells@.len(),
                cells@ =~= self.cells@.subrange(0, i as int),
            decreases self.cells@.len() - i,
        {
            cells.push(self.cells[i]);
            i = i + 1;
        }
        let r = Board {
            width: self.width,
            height: self.height,
            cells,
            red_orbs: self.red_orbs,
            blue_orbs: self.blue_orbs,
            current_turn: self.current_turn,
            game_state: self.game_state,
            total_moves: self.total_moves,
        };
        proof {
            assert(r.cells@ =~= self.cells@);
        }
        r
    }
}

} // verus!
