//! A mathematical mirror of a whole move: placement, the cascade worklist run
//! step by step (with the same step budget as the executable loop), the flag
//! drain, the re-derived totals, the winning rule and the turn flip. The move
//! operations ensure that their result equals `spec_move_result` of their
//! input, which pins every accepted move down to a single spec value and lets
//! derived quantities — such as the SafeMobility count — be specified exactly.

use vstd::prelude::*;

use crate::board::{winner_of_totals, Board};
use crate::explosion::{exploded_grid, lemma_explosion_effects};
use crate::game::{cell_orbs, other, Cell, CellState, GameState, Player};
use crate::grid::{capacity_at, lemma_sums_equal_pointwise, sum_orbs, sum_orbs_of};

verus! {

/// A board in flight during cascade resolution, as a pure value: the grid and
/// scalar state, plus the live worklist entries in order.
#[verifier::ext_equal]
pub struct CascadeModel {
    pub grid: Seq<Cell>,
    pub red: u64,
    pub blue: u64,
    pub turn: Player,
    pub status: GameState,
    pub moves: u64,
    pub width: int,
    pub height: int,
    pub queue: Seq<(usize, usize)>,
}

/// The step budget of the executable worklist loop.
pub open spec fn cascade_fuel() -> nat {
    u64::MAX as nat
}

/// A board at rest (no live worklist), as a model.
pub open spec fn board_model(b: Board) -> CascadeModel {
    CascadeModel {
        grid: b.cells@,
        red: b.red_orbs,
        blue: b.blue_orbs,
        turn: b.current_turn,
        status: b.game_state,
        moves: b.total_moves,
        width: b.width as int,
        height: b.height as int,
        queue: Seq::empty(),
    }
}

/// A board together with the live suffix of its worklist.
pub open spec fn running_model(b: Board, live: Seq<(usize, usize)>) -> CascadeModel {
    CascadeModel { queue: live, ..board_model(b) }
}

/// Whether a cell is at or above its capacity.
pub open spec fn at_capacity(c: Cell) -> bool {
    c.state matches CellState::Occupied { orbs, .. } && orbs >= c.critical_mass
}

/// The same cell with only its worklist flag overwritten.
pub open spec fn flag_cell(g: Seq<Cell>, si: int, v: bool) -> Seq<Cell> {
    g.update(
        si,
        Cell { state: g[si].state, critical_mass: g[si].critical_mass, is_queued: v },
    )
}

/// Enqueue (r, c) if it is on the grid, at or above capacity, and not
/// already queued; otherwise change nothing.
pub open spec fn enqueue_step(
    g: Seq<Cell>,
    q: Seq<(usize, usize)>,
    w: int,
    h: int,
    r: int,
    c: int,
) -> (Seq<Cell>, Seq<(usize, usize)>) {
    if 0 <= r < h && 0 <= c < w {
        let si = r * w + c;
        if at_capacity(g[si]) && !g[si].is_queued {
            (flag_cell(g, si, true), q.push((r as usize, c as usize)))
        } else {
            (g, q)
        }
    } else {
        (g, q)
    }
}

/// The winning rule applied to the given totals, from the second move on.
pub open spec fn next_status(moves: u64, red: u64, blue: u64, st: GameState) -> GameState {
    if moves >= 2 {
        match winner_of_totals(red as nat, blue as nat) {
            Some(w) => GameState::Won { winner: w },
            None => st,
        }
    } else {
        st
    }
}

/// One worklist iteration: pop the head entry and clear its flag; if it is at
/// capacity, explode it, consider its neighbors and itself for enqueueing,
/// re-derive the totals and evaluate the winning rule; otherwise skip it.
pub open spec fn cascade_step(m: CascadeModel) -> CascadeModel {
    let rc = m.queue[0];
    let rest = m.queue.drop_first();
    let r = rc.0 as int;
    let c = rc.1 as int;
    let si = r * m.width + c;
    let g1 = flag_cell(m.grid, si, false);
    if at_capacity(g1[si]) {
        let g2 = exploded_grid(g1, m.width, m.height, r, c);
        let s1 = enqueue_step(g2, rest, m.width, m.height, r - 1, c);
        let s2 = enqueue_step(s1.0, s1.1, m.width, m.height, r + 1, c);
        let s3 = enqueue_step(s2.0, s2.1, m.width, m.height, r, c - 1);
        let s4 = enqueue_step(s3.0, s3.1, m.width, m.height, r, c + 1);
        let s5 = enqueue_step(s4.0, s4.1, m.width, m.height, r, c);
        let red2 = sum_orbs_of(s5.0, Player::Red) as u64;
        let blue2 = sum_orbs_of(s5.0, Player::Blue) as u64;
        CascadeModel {
            grid: s5.0,
            queue: s5.1,
            red: red2,
            blue: blue2,
            status: next_status(m.moves, red2, blue2, m.status),
            ..m
        }
    } else {
        CascadeModel { grid: g1, queue: rest, ..m }
    }
}

/// Run the worklist until it empties, the game is decided, or the step
/// budget runs out.
pub open spec fn cascade_run(m: CascadeModel, fuel: nat) -> CascadeModel
    decreases fuel,
{
    if fuel == 0 || m.queue.len() == 0 || !(m.status is Ongoing) {
        m
    } else {
        cascade_run(cascade_step(m), (fuel - 1) as nat)
    }
}

/// Clear the worklist flags of the given entries, front to back.
pub open spec fn drain_flags(g: Seq<Cell>, q: Seq<(usize, usize)>, w: int) -> Seq<Cell>
    decreases q.len(),
{
    if q.len() == 0 {
        g
    } else {
        drain_flags(
            flag_cell(g, (q[0].0 as int) * w + q[0].1 as int, false),
            q.drop_first(),
            w,
        )
    }
}

/// The whole cascade seeded at (row, col), exactly as the resolver performs
/// it: nothing happens unless the seed is at capacity; otherwise the seed is
/// flagged and queued, the worklist runs, and the remaining flags (of a
/// decided or budget-cut run) are cleared.
pub open spec fn resolve_cascade(m: CascadeModel, row: usize, col: usize) -> CascadeModel {
    let si = (row as int) * m.width + (col as int);
    if at_capacity(m.grid[si]) {
        let seeded = CascadeModel {
            grid: flag_cell(m.grid, si, true),
            queue: seq![(row, col)],
            ..m
        };
        let done = cascade_run(seeded, cascade_fuel());
        CascadeModel {
            grid: drain_flags(done.grid, done.queue, m.width),
            queue: Seq::empty(),
            ..done
        }
    } else {
        m
    }
}

/// Whether the seeded worklist comes to rest (empties or decides the game)
/// within the step budget, rather than being cut off by it. True of every
/// cascade any machine finishes.
pub open spec fn cascade_settles(m: CascadeModel, row: usize, col: usize) -> bool {
    let si = (row as int) * m.width + (col as int);
    at_capacity(m.grid[si]) ==> {
        let seeded = CascadeModel {
            grid: flag_cell(m.grid, si, true),
            queue: seq![(row, col)],
            ..m
        };
        let done = cascade_run(seeded, cascade_fuel());
        done.queue.len() == 0 || !(done.status is Ongoing)
    }
}

/// The full effect of one accepted placement at (row, col) by the side to
/// move: one orb placed and the counter raised, the cascade resolved, the
/// totals re-derived from the final grid, the winning rule evaluated, and
/// the turn flipped exactly when the game stays ongoing.
/// The board right after the placement itself: one more orb in the target
/// cell for the side to move, and the counter raised.
pub open spec fn placed_model(m: CascadeModel, row: usize, col: usize) -> CascadeModel {
    let si = (row as int) * m.width + (col as int);
    let placed = Cell {
        state: CellState::Occupied { player: m.turn, orbs: (cell_orbs(m.grid[si]) + 1) as u64 },
        critical_mass: m.grid[si].critical_mass,
        is_queued: m.grid[si].is_queued,
    };
    CascadeModel { grid: m.grid.update(si, placed), moves: (m.moves + 1) as u64, ..m }
}

pub open spec fn spec_move_result(m: CascadeModel, row: usize, col: usize) -> CascadeModel {
    let m1 = placed_model(m, row, col);
    let m2 = resolve_cascade(m1, row, col);
    let red3 = sum_orbs_of(m2.grid, Player::Red) as u64;
    let blue3 = sum_orbs_of(m2.grid, Player::Blue) as u64;
    let m3 = CascadeModel {
        red: red3,
        blue: blue3,
        status: next_status(m2.moves, red3, blue3, m2.status),
        ..m2
    };
    if m3.status is Ongoing {
        CascadeModel { turn: other(m.turn), ..m3 }
    } else {
        m3
    }
}

/// An enqueue changes no cell's contents or capacity, only ever sets a flag,
/// and leaves its target flagged whenever the target was at capacity.
pub proof fn lemma_enqueue_pointwise(
    g: Seq<Cell>,
    q: Seq<(usize, usize)>,
    w: int,
    h: int,
    r: int,
    c: int,
)
    requires
        g.len() == w * h,
    ensures
        ({
            let s = enqueue_step(g, q, w, h, r, c);
            &&& s.0.len() == g.len()
            &&& forall|i: int|
                0 <= i < g.len() ==> (#[trigger] s.0[i]).state == g[i].state
                    && s.0[i].critical_mass == g[i].critical_mass && (g[i].is_queued
                    ==> s.0[i].is_queued)
            &&& (0 <= r < h && 0 <= c < w && 0 <= r * w + c < g.len() && at_capacity(
                g[r * w + c],
            ) ==> s.0[r * w + c].is_queued)
        }),
{
    if 0 <= r < h && 0 <= c < w {
        let si = r * w + c;
        crate::board::lemma_sidx_bounds(w, h, r, c);
        if at_capacity(g[si]) && !g[si].is_queued {
            let s = enqueue_step(g, q, w, h, r, c);
            assert forall|i: int|
                0 <= i < g.len() implies (#[trigger] s.0[i]).state == g[i].state
                && s.0[i].critical_mass == g[i].critical_mass && (g[i].is_queued
                ==> s.0[i].is_queued) by {
                if i == si {
                } else {
                    assert(s.0[i] == g[i]);
                }
            }
        }
    }
}

/// One worklist step keeps every at-capacity cell flagged: the popped cell
/// either skips (it was below capacity) or explodes, and afterwards the
/// source and every neighbor that now sits at capacity is enqueued again.
#[verifier::spinoff_prover]
#[verifier::rlimit(100)]
pub proof fn lemma_step_preserves_coverage(m: CascadeModel)
    requires
        2 <= m.width,
        2 <= m.height,
        m.grid.len() == m.width * m.height,
        m.queue.len() > 0,
        (m.queue[0]).0 < m.height,
        (m.queue[0]).1 < m.width,
        forall|r: int, c: int|
            0 <= r < m.height && 0 <= c < m.width ==> (#[trigger] m.grid[r * m.width
                + c]).critical_mass == capacity_at(m.width, m.height, r, c),
        forall|i: int|
            0 <= i < m.grid.len() ==> ((#[trigger] m.grid[i].state) matches CellState::Occupied {
                orbs,
                ..
            } ==> orbs >= 1),
        sum_orbs(m.grid) < u64::MAX,
        forall|i: int|
            0 <= i < m.grid.len() && at_capacity(#[trigger] m.grid[i]) ==> m.grid[i].is_queued,
    ensures
        cascade_step(m).grid.len() == m.grid.len(),
        forall|i: int|
            0 <= i < cascade_step(m).grid.len() && at_capacity(#[trigger] cascade_step(m).grid[i])
                ==> cascade_step(m).grid[i].is_queued,
{
    let w = m.width;
    let h = m.height;
    let rc = m.queue[0];
    let rest = m.queue.drop_first();
    let r = rc.0 as int;
    let c = rc.1 as int;
    let si = r * w + c;
    crate::board::lemma_sidx_bounds(w, h, r, c);
    let g1 = flag_cell(m.grid, si, false);
    if at_capacity(g1[si]) {
        assert forall|r2: int, c2: int|
            0 <= r2 < h && 0 <= c2 < w implies (#[trigger] g1[r2 * w + c2]).critical_mass
            == capacity_at(w, h, r2, c2) by {
            crate::board::lemma_sidx_bounds(w, h, r2, c2);
        }
        lemma_sums_equal_pointwise(m.grid, g1);
        lemma_explosion_effects(g1, w, h, r, c);
        let e = exploded_grid(g1, w, h, r, c);
        let s1 = enqueue_step(e, rest, w, h, r - 1, c);
        let s2 = enqueue_step(s1.0, s1.1, w, h, r + 1, c);
        let s3 = enqueue_step(s2.0, s2.1, w, h, r, c - 1);
        let s4 = enqueue_step(s3.0, s3.1, w, h, r, c + 1);
        let s5 = enqueue_step(s4.0, s4.1, w, h, r, c);
        lemma_enqueue_pointwise(e, rest, w, h, r - 1, c);
        lemma_enqueue_pointwise(s1.0, s1.1, w, h, r + 1, c);
        lemma_enqueue_pointwise(s2.0, s2.1, w, h, r, c - 1);
        lemma_enqueue_pointwise(s3.0, s3.1, w, h, r, c + 1);
        lemma_enqueue_pointwise(s4.0, s4.1, w, h, r, c);
        assert forall|i: int|
            0 <= i < s5.0.len() && at_capacity(#[trigger] s5.0[i]) implies s5.0[i].is_queued by {
            let rcco = crate::board::lemma_index_to_coords_pure(w, h, i);
            let r2 = rcco.0;
            let c2 = rcco.1;
            assert(at_capacity(e[i]));
            if r2 == r && c2 == c {
                // the source: re-enqueued by the final check
                assert(s4.0[i].state == e[i].state && s4.0[i].critical_mass == e[i].critical_mass);
                assert(s5.0[i].is_queued);
            } else if crate::explosion::is_orth_neighbor(r, c, r2, c2) {
                // a neighbor: enqueued by its own check
                if r2 == r - 1 && c2 == c {
                    assert(s1.0[i].is_queued);
                } else if r2 == r + 1 && c2 == c {
                    assert(s1.0[i].state == e[i].state && s1.0[i].critical_mass
                        == e[i].critical_mass);
                    assert(s2.0[i].is_queued);
                } else if r2 == r && c2 == c - 1 {
                    assert(s2.0[i].state == e[i].state && s2.0[i].critical_mass
                        == e[i].critical_mass);
                    assert(s3.0[i].is_queued);
                } else {
                    assert(s3.0[i].state == e[i].state && s3.0[i].critical_mass
                        == e[i].critical_mass);
                    assert(s4.0[i].is_queued);
                }
            } else {
                // untouched by the explosion: it was at capacity before, so
                // it was already flagged, and flags are never cleared here
                assert(e[i] == g1[i]);
                assert(g1[i] == m.grid[i]) by {
                    if i == si {
                        crate::board::lemma_sidx_injective(w, r2, c2, r, c);
                    }
                }
                assert(m.grid[i].is_queued);
            }
        }
    } else {
        assert forall|i: int|
            0 <= i < g1.len() && at_capacity(#[trigger] g1[i]) implies g1[i].is_queued by {
            if i != si {
                assert(g1[i] == m.grid[i]);
            }
        }
    }
}

/// How many of the next `fuel` worklist steps explode a cell.
pub open spec fn explosion_count(m: CascadeModel, fuel: nat) -> nat
    decreases fuel,
{
    if fuel == 0 || m.queue.len() == 0 || !(m.status is Ongoing) {
        0
    } else {
        let rc = m.queue[0];
        let si = (rc.0 as int) * m.width + (rc.1 as int);
        let g1 = flag_cell(m.grid, si, false);
        (if at_capacity(g1[si]) {
            1nat
        } else {
            0nat
        }) + explosion_count(cascade_step(m), (fuel - 1) as nat)
    }
}

/// How many explosions resolving a cascade seeded at (row, col) processes:
/// the number of intermediate snapshots a recording move takes.
pub open spec fn cascade_explosions(m: CascadeModel, row: usize, col: usize) -> nat {
    let si = (row as int) * m.width + (col as int);
    if at_capacity(m.grid[si]) {
        explosion_count(
            CascadeModel { grid: flag_cell(m.grid, si, true), queue: seq![(row, col)], ..m },
            cascade_fuel(),
        )
    } else {
        0
    }
}

/// Unfolding one counting step.
pub proof fn lemma_count_step(m: CascadeModel, fuel: nat)
    requires
        fuel > 0,
        m.queue.len() > 0,
        m.status is Ongoing,
    ensures
        ({
            let rc = m.queue[0];
            let si = (rc.0 as int) * m.width + (rc.1 as int);
            let g1 = flag_cell(m.grid, si, false);
            explosion_count(m, fuel) == (if at_capacity(g1[si]) {
                1nat
            } else {
                0nat
            }) + explosion_count(cascade_step(m), (fuel - 1) as nat)
        }),
{
}

/// Unfolding one run step.
pub proof fn lemma_run_step(m: CascadeModel, fuel: nat)
    requires
        fuel > 0,
        m.queue.len() > 0,
        m.status is Ongoing,
    ensures
        cascade_run(m, fuel) == cascade_run(cascade_step(m), (fuel - 1) as nat),
{
}

/// A live suffix after appending one entry.
pub proof fn lemma_live_push(q: Seq<(usize, usize)>, head: int, x: (usize, usize))
    requires
        0 <= head <= q.len(),
    ensures
        q.push(x).subrange(head, q.len() as int + 1) == q.subrange(head, q.len() as int).push(x),
{
    assert(q.push(x).subrange(head, q.len() as int + 1) =~= q.subrange(head, q.len() as int).push(x));
}

/// An enqueue acts the same on a queue and on its live suffix.
pub proof fn lemma_enqueue_live(
    g1: Seq<Cell>,
    g2: Seq<Cell>,
    qfull1: Seq<(usize, usize)>,
    qfull2: Seq<(usize, usize)>,
    head: int,
    w: int,
    h: int,
    r: int,
    c: int,
)
    requires
        0 <= head <= qfull1.len(),
        (g2, qfull2) == enqueue_step(g1, qfull1, w, h, r, c),
    ensures
        (g2, qfull2.subrange(head, qfull2.len() as int)) == enqueue_step(
            g1,
            qfull1.subrange(head, qfull1.len() as int),
            w,
            h,
            r,
            c,
        ),
        qfull1.len() <= qfull2.len(),
        head <= qfull2.len(),
{
    if 0 <= r < h && 0 <= c < w {
        let si = r * w + c;
        if at_capacity(g1[si]) && !g1[si].is_queued {
            lemma_live_push(qfull1, head, (r as usize, c as usize));
        }
    }
}

/// A live suffix after popping its first entry.
pub proof fn lemma_live_pop(q: Seq<(usize, usize)>, head: int)
    requires
        0 <= head < q.len(),
    ensures
        q.subrange(head + 1, q.len() as int) == q.subrange(head, q.len() as int).drop_first(),
{
    assert(q.subrange(head + 1, q.len() as int) =~= q.subrange(
        head,
        q.len() as int,
    ).drop_first());
}

} // verus!
