//! Applying a move: validation, placement, cascade resolution to a fixed
//! point, re-derived totals, the winning rule, and turn alternation.

use vstd::prelude::*;

use crate::board::{
    lemma_sidx_bounds, lemma_sidx_injective, same_position, winner_of_totals, Board,
};
use crate::cascade_model::{
    board_model, cascade_explosions, cascade_fuel, cascade_run, cascade_settles, cascade_step,
    drain_flags, enqueue_step, explosion_count, lemma_count_step, lemma_live_pop, lemma_live_push,
    lemma_run_step, placed_model, resolve_cascade, running_model, spec_move_result, CascadeModel,
};
use crate::clock::deadline_passed;
use crate::explosion::{exploded_grid, lemma_explosion_effects, lemma_geometry_preserved};
use crate::game::{cell_orbs, other, Cell, CellState, GameError, GameState, Player};
use crate::grid::{
    lemma_cell_le_sum, lemma_sum_full_prefix, lemma_sum_orbs_split, lemma_sum_prefix_le,
    lemma_sum_prefix_step, lemma_sum_update, lemma_sums_equal_pointwise, sum_orbs, sum_orbs_of,
};

verus! {

/// Ceiling on the move counter, far beyond any playable game, so that counter
/// and orb arithmetic stay inside u64.
pub const MOVE_LIMIT: u64 = 0x4000_0000_0000_0000;

/// The cascade worklist discipline: entries from `head` on are the live ones;
/// they are on the grid, pairwise distinct, and marked as queued, and every
/// cell marked as queued has exactly such a live entry.
pub open spec fn queue_entries_ok(b: Board, q: Seq<(usize, usize)>, head: int) -> bool {
    &&& 0 <= head <= q.len()
    &&& forall|k: int|
        head <= k < q.len() ==> (#[trigger] q[k]).0 < b.height && q[k].1 < b.width
    &&& forall|k1: int, k2: int| head <= k1 < k2 < q.len() ==> q[k1] != q[k2]
    &&& forall|k: int|
        head <= k < q.len() ==> b.grid()[b.sidx((#[trigger] q[k]).0 as int, q[k].1 as int)].is_queued
    &&& forall|i: int|
        0 <= i < b.grid().len() && (#[trigger] b.grid()[i]).is_queued ==> exists|k: int|
            head <= k < q.len() && b.sidx((#[trigger] q[k]).0 as int, q[k].1 as int) == i
}

/// A board differing only in cached totals, turn, status or counter keeps
/// every grid-level invariant and the worklist discipline.
pub proof fn lemma_grid_invariants_transfer(a: Board, b: Board, q: Seq<(usize, usize)>, head: int)
    requires
        b.width == a.width,
        b.height == a.height,
        b.cells@ == a.cells@,
    ensures
        a.geometry_ok() ==> b.geometry_ok(),
        a.cells_positive() ==> b.cells_positive(),
        a.flags_clear() ==> b.flags_clear(),
        queue_entries_ok(a, q, head) ==> queue_entries_ok(b, q, head),
{
    if a.geometry_ok() {
        lemma_geometry_preserved(a, b);
    }
    if queue_entries_ok(a, q, head) {
        assert forall|k: int|
            head <= k < q.len() implies b.grid()[b.sidx(
            (#[trigger] q[k]).0 as int,
            q[k].1 as int,
        )].is_queued by {
            assert(a.grid()[a.sidx((q[k]).0 as int, q[k].1 as int)].is_queued);
        }
        assert forall|i: int|
            0 <= i < b.grid().len() && (#[trigger] b.grid()[i]).is_queued implies exists|k: int|
            head <= k < q.len() && b.sidx((#[trigger] q[k]).0 as int, q[k].1 as int) == i by {
            assert(a.grid()[i].is_queued);
            let k = choose|k: int|
                head <= k < q.len() && a.sidx((#[trigger] q[k]).0 as int, q[k].1 as int) == i;
            assert(head <= k < q.len() && b.sidx((q[k]).0 as int, q[k].1 as int) == i);
        }
        assert(queue_entries_ok(b, q, head));
    }
}

impl Board {
    /// If the cell at (row, col) is at or above capacity and not already in
    /// the worklist, append it and mark it; otherwise change nothing.
    pub(crate) fn maybe_enqueue(
        &mut self,
        queue: &mut Vec<(usize, usize)>,
        row: usize,
        col: usize,
        Ghost(head): Ghost<int>,
    )
        requires
            old(self).geometry_ok(),
            row < old(self).height,
            col < old(self).width,
            queue_entries_ok(*old(self), old(queue)@, head),
        ensures
            final(self).width == old(self).width,
            final(self).height == old(self).height,
            final(self).red_orbs == old(self).red_orbs,
            final(self).blue_orbs == old(self).blue_orbs,
            final(self).current_turn == old(self).current_turn,
            final(self).game_state == old(self).game_state,
            final(self).total_moves == old(self).total_moves,
            final(self).cells@.len() == old(self).cells@.len(),
            forall|i: int|
                0 <= i < old(self).cells@.len() ==> (#[trigger] final(self).cells@[i]).state == old(
                    self,
                ).cells@[i].state && final(self).cells@[i].critical_mass
                    == old(self).cells@[i].critical_mass,
            final(self).geometry_ok(),
            old(self).cells_positive() ==> final(self).cells_positive(),
            sum_orbs(final(self).grid()) == sum_orbs(old(self).grid()),
            old(queue)@.is_prefix_of(final(queue)@),
            queue_entries_ok(*final(self), final(queue)@, head),
            cell_orbs(old(self).cell_at(row as int, col as int)) < old(self).cell_at(
                row as int,
                col as int,
            ).critical_mass ==> (final(self).cells@ == old(self).cells@ && final(queue)@ == old(
                queue,
            )@),
            (final(self).cells@, final(queue)@) == enqueue_step(
                old(self).cells@,
                old(queue)@,
                old(self).width as int,
                old(self).height as int,
                row as int,
                col as int,
            ),
    {
        let ghost b0 = *old(self);
        let ghost q0 = old(queue)@;
        let i = self.index_of(row, col);
        let cell = self.cells[i];
        let explodes = match cell.state {
            CellState::Occupied { orbs, .. } => orbs >= cell.critical_mass,
            CellState::Empty => false,
        };
        if explodes && !cell.is_queued {
            queue.push((row, col));
            self.set_flag(row, col, true);
            proof {
                let b1 = *self;
                let q1 = queue@;
                let si = b0.sidx(row as int, col as int);
                lemma_sidx_bounds(b0.width as int, b0.height as int, row as int, col as int);
                lemma_geometry_preserved(b0, b1);
                lemma_sums_equal_pointwise(b0.cells@, b1.cells@);
                if b0.cells_positive() {
                    assert forall|j: int|
                        0 <= j < b1.grid().len() implies ((#[trigger] b1.grid()[j].state) matches
                    CellState::Occupied { orbs, .. } ==> orbs >= 1) by {
                        assert(b1.grid()[j].state == b0.grid()[j].state);
                    }
                }
                assert(q1 == q0.push((row, col)));
                assert forall|k1: int, k2: int| head <= k1 < k2 < q1.len() implies q1[k1]
                    != q1[k2] by {
                    if k2 == q0.len() {
                        if q1[k1] == (row, col) {
                            assert(b0.grid()[b0.sidx((q0[k1]).0 as int, q0[k1].1 as int)].is_queued);
                        }
                    }
                }
                assert forall|k: int|
                    head <= k < q1.len() implies b1.grid()[b1.sidx(
                    (#[trigger] q1[k]).0 as int,
                    q1[k].1 as int,
                )].is_queued by {
                    if k < q0.len() {
                        assert(b0.grid()[b0.sidx((q0[k]).0 as int, q0[k].1 as int)].is_queued);
                        lemma_sidx_bounds(
                            b0.width as int,
                            b0.height as int,
                            q0[k].0 as int,
                            q0[k].1 as int,
                        );
                    }
                }
                assert forall|j: int|
                    0 <= j < b1.grid().len() && (#[trigger] b1.grid()[j]).is_queued implies exists|
                    k: int,
                |
                    head <= k < q1.len() && b1.sidx((#[trigger] q1[k]).0 as int, q1[k].1 as int)
                        == j by {
                    if j == si {
                        assert(q1[q1.len() - 1] == (row, col));
                        assert(head <= q1.len() - 1 < q1.len() && b1.sidx(
                            (q1[q1.len() - 1]).0 as int,
                            q1[q1.len() - 1].1 as int,
                        ) == j);
                    } else {
                        assert(b0.grid()[j].is_queued);
                        let k = choose|k: int|
                            head <= k < q0.len() && b0.sidx(
                                (#[trigger] q0[k]).0 as int,
                                q0[k].1 as int,
                            ) == j;
                        assert(q1[k] == q0[k]);
                        assert(head <= k < q1.len() && b1.sidx((q1[k]).0 as int, q1[k].1 as int)
                            == j);
                    }
                }
                assert(queue_entries_ok(b1, q1, head));
            }
        }
    }
}

impl Board {
    /// Resolve the cascade seeded at (start_row, start_col) with a
    /// breadth-first worklist. After every single explosion the totals are
    /// re-derived and the winning rule is evaluated; a decided game stops
    /// cascading immediately. A time-bounded caller checks its deadline once
    /// per dequeued cell and aborts the whole resolution; either way every
    /// worklist flag is cleared again and orbs are conserved exactly.
    #[verifier::spinoff_prover]
    #[verifier::rlimit(100)]
    pub(crate) fn handle_chain_reaction(
        &mut self,
        start_row: usize,
        start_col: usize,
        record: bool,
        deadline: Option<&std::time::Instant>,
        history: &mut Vec<Board>,
    ) -> (r: Result<(), GameError>)
        requires
            old(self).geometry_ok(),
            old(self).cells_positive(),
            old(self).flags_clear(),
            start_row < old(self).height,
            start_col < old(self).width,
            sum_orbs(old(self).grid()) == old(self).total_moves,
            old(self).total_moves < u64::MAX,
            old(self).game_state == GameState::Ongoing,
        ensures
            final(self).width == old(self).width,
            final(self).height == old(self).height,
            final(self).current_turn == old(self).current_turn,
            final(self).total_moves == old(self).total_moves,
            final(self).geometry_ok(),
            final(self).cells_positive(),
            final(self).flags_clear(),
            sum_orbs(final(self).grid()) == old(self).total_moves,
            r is Ok || r == Err::<(), GameError>(GameError::SearchAborted),
            r is Err ==> deadline is Some && final(self).game_state == GameState::Ongoing
                && final(self).counts_ok(),
            deadline is None ==> r is Ok,
            r is Ok ==> match final(self).game_state {
                GameState::Ongoing => true,
                GameState::Won { winner } => final(self).total_moves >= 2 && final(self).counts_ok()
                    && winner_of_totals(
                    sum_orbs_of(final(self).grid(), Player::Red),
                    sum_orbs_of(final(self).grid(), Player::Blue),
                ) == Some(winner),
            },
            cell_orbs(old(self).cell_at(start_row as int, start_col as int)) < old(self).cell_at(
                start_row as int,
                start_col as int,
            ).critical_mass ==> (final(self).cells@ == old(self).cells@ && final(self).game_state
                == old(self).game_state && final(self).red_orbs == old(self).red_orbs
                && final(self).blue_orbs == old(self).blue_orbs && r is Ok),
            ({
                let e = exploded_grid(
                    old(self).grid(),
                    old(self).width as int,
                    old(self).height as int,
                    start_row as int,
                    start_col as int,
                );
                let seed = old(self).cell_at(start_row as int, start_col as int);
                (r is Ok && cell_orbs(seed) >= seed.critical_mass && (forall|i: int|
                    0 <= i < e.len() ==> cell_orbs(#[trigger] e[i]) < e[i].critical_mass))
                    ==> final(self).cells@ == e
            }),
            r is Ok ==> board_model(*final(self)) == resolve_cascade(
                board_model(*old(self)),
                start_row,
                start_col,
            ),
            (r is Ok && final(self).game_state is Ongoing && cascade_settles(
                board_model(*old(self)),
                start_row,
                start_col,
            ) && (forall|i: int|
                0 <= i < old(self).cells@.len() && crate::cascade_model::at_capacity(
                    #[trigger] old(self).cells@[i],
                ) ==> i == old(self).sidx(start_row as int, start_col as int))) ==> (forall|i: int|
                0 <= i < final(self).cells@.len() ==> !crate::cascade_model::at_capacity(
                    #[trigger] final(self).cells@[i],
                )),
            (record && r is Ok) ==> final(history)@.len() == old(history)@.len()
                + cascade_explosions(board_model(*old(self)), start_row, start_col),
            !record ==> final(history)@ == old(history)@,
    {
        let ghost b0 = *old(self);
        let ghost h0 = history@;
        let ghost si0 = b0.sidx(start_row as int, start_col as int);
        let ghost e_one = exploded_grid(
            b0.grid(),
            b0.width as int,
            b0.height as int,
            start_row as int,
            start_col as int,
        );
        let ghost seeded_cell = Cell {
            state: b0.grid()[si0].state,
            critical_mass: b0.grid()[si0].critical_mass,
            is_queued: true,
        };
        let ghost one_step = cell_orbs(b0.grid()[si0]) >= b0.grid()[si0].critical_mass && (forall|
            i: int,
        |
            0 <= i < e_one.len() ==> cell_orbs(#[trigger] e_one[i]) < e_one[i].critical_mass);
        let i0 = self.index_of(start_row, start_col);
        let seed = self.cells[i0];
        let seed_explodes = match seed.state {
            CellState::Occupied { orbs, .. } => orbs >= seed.critical_mass,
            CellState::Empty => false,
        };
        if !seed_explodes {
            proof {
                assert(board_model(*self) =~= resolve_cascade(
                    board_model(b0),
                    start_row,
                    start_col,
                ));
                assert(!crate::cascade_model::at_capacity(b0.cells@[si0]));
            }
            return Ok(());
        }
        let mut queue: Vec<(usize, usize)> = Vec::new();
        queue.push((start_row, start_col));
        self.set_flag(start_row, start_col, true);
        let mut head: usize = 0;
        proof {
            lemma_sidx_bounds(
                b0.width as int,
                b0.height as int,
                start_row as int,
                start_col as int,
            );
            lemma_geometry_preserved(b0, *self);
            lemma_sums_equal_pointwise(b0.cells@, self.cells@);
            assert forall|j: int|
                0 <= j < self.grid().len() implies ((#[trigger] self.grid()[j].state) matches
            CellState::Occupied { orbs, .. } ==> orbs >= 1) by {
                assert(self.grid()[j].state == b0.grid()[j].state);
            }
            assert forall|j: int|
                0 <= j < self.grid().len() && (#[trigger] self.grid()[j]).is_queued implies exists|
                k: int,
            |
                0 <= k < queue@.len() && self.sidx(
                    (#[trigger] queue@[k]).0 as int,
                    queue@[k].1 as int,
                ) == j by {
                assert(!b0.grid()[j].is_queued);
                assert(j == b0.sidx(start_row as int, start_col as int));
                assert(queue@[0] == (start_row, start_col));
                assert(0 <= 0 < queue@.len() && self.sidx(
                    (queue@[0]).0 as int,
                    queue@[0].1 as int,
                ) == j);
            }
            assert(queue_entries_ok(*self, queue@, 0));
        }
        let ghost m_entry = board_model(b0);
        let ghost mseed = CascadeModel {
            grid: crate::cascade_model::flag_cell(b0.cells@, si0, true),
            queue: seq![(start_row, start_col)],
            ..m_entry
        };
        let ghost only_seed = (forall|i: int|
            0 <= i < b0.cells@.len() && crate::cascade_model::at_capacity(#[trigger] b0.cells@[i])
                ==> i == si0);
        proof {
            assert(running_model(*self, queue@.subrange(0, queue@.len() as int)) =~= mseed);
            if only_seed {
                assert forall|i: int|
                    0 <= i < self.cells@.len() && crate::cascade_model::at_capacity(
                        #[trigger] self.cells@[i],
                    ) implies self.cells@[i].is_queued by {
                    if i != si0 {
                        assert(self.cells@[i] == b0.cells@[i]);
                    }
                }
            }
        }
        let mut aborted: bool = false;
        // Each iteration processes one dequeued cell. The step budget is the
        // loop's termination measure; exhausting it would take longer than
        // any machine runs, and if it ever were exhausted the cascade would
        // simply stop with the remaining worklist cleared, which every
        // guarantee below allows for.
        let mut fuel: u64 = u64::MAX;
        while head < queue.len() && fuel > 0
            invariant_except_break
                self.game_state == GameState::Ongoing,
                !aborted,
                one_step ==> ((fuel == u64::MAX && head == 0 && queue@.len() == 1 && queue@[0]
                    == (start_row, start_col) && self.cells@ == b0.cells@.update(si0, seeded_cell))
                    || (head == 1 && queue@.len() == 1 && self.cells@ == e_one)),
            invariant
                0 <= si0 < b0.cells@.len(),
                !b0.grid()[si0].is_queued,
                si0 == b0.sidx(start_row as int, start_col as int),
                e_one == exploded_grid(
                    b0.grid(),
                    b0.width as int,
                    b0.height as int,
                    start_row as int,
                    start_col as int,
                ),
                seeded_cell == (Cell {
                    state: b0.grid()[si0].state,
                    critical_mass: b0.grid()[si0].critical_mass,
                    is_queued: true,
                }),
                one_step == (cell_orbs(b0.grid()[si0]) >= b0.grid()[si0].critical_mass && (forall|
                    i: int,
                |
                    0 <= i < e_one.len() ==> cell_orbs(#[trigger] e_one[i])
                        < e_one[i].critical_mass)),
                mseed == (CascadeModel {
                    grid: crate::cascade_model::flag_cell(b0.cells@, si0, true),
                    queue: seq![(start_row, start_col)],
                    ..board_model(b0)
                }),
                !aborted ==> cascade_run(mseed, cascade_fuel()) == cascade_run(
                    running_model(*self, queue@.subrange(head as int, queue@.len() as int)),
                    fuel as nat,
                ),
                only_seed == (forall|i: int|
                    0 <= i < b0.cells@.len() && crate::cascade_model::at_capacity(
                        #[trigger] b0.cells@[i],
                    ) ==> i == si0),
                only_seed ==> (forall|i: int|
                    0 <= i < self.cells@.len() && crate::cascade_model::at_capacity(
                        #[trigger] self.cells@[i],
                    ) ==> self.cells@[i].is_queued),
                (record && !aborted) ==> history@.len() + explosion_count(
                    running_model(*self, queue@.subrange(head as int, queue@.len() as int)),
                    fuel as nat,
                ) == h0.len() + explosion_count(mseed, cascade_fuel()),
                self.geometry_ok(),
                self.cells_positive(),
                self.width == b0.width,
                self.height == b0.height,
                self.current_turn == b0.current_turn,
                self.total_moves == b0.total_moves,
                sum_orbs(self.grid()) == b0.total_moves,
                b0.total_moves < u64::MAX,
                head <= queue@.len(),
                queue_entries_ok(*self, queue@, head as int),
                !record ==> history@ == h0,
            ensures
                self.geometry_ok(),
                self.cells_positive(),
                self.width == b0.width,
                self.height == b0.height,
                self.current_turn == b0.current_turn,
                self.total_moves == b0.total_moves,
                sum_orbs(self.grid()) == b0.total_moves,
                head <= queue@.len(),
                queue_entries_ok(*self, queue@, head as int),
                !record ==> history@ == h0,
                aborted ==> deadline is Some && self.game_state == GameState::Ongoing,
                !aborted ==> cascade_run(mseed, cascade_fuel()) == running_model(
                    *self,
                    queue@.subrange(head as int, queue@.len() as int),
                ),
                only_seed ==> (forall|i: int|
                    0 <= i < self.cells@.len() && crate::cascade_model::at_capacity(
                        #[trigger] self.cells@[i],
                    ) ==> self.cells@[i].is_queued),
                (record && !aborted) ==> history@.len() == h0.len() + explosion_count(
                    mseed,
                    cascade_fuel(),
                ),
                one_step && !aborted ==> self.cells@ == e_one && head == queue@.len(),
                match self.game_state {
                    GameState::Ongoing => true,
                    GameState::Won { winner } => self.total_moves >= 2 && self.counts_ok()
                        && winner_of_totals(
                        sum_orbs_of(self.grid(), Player::Red),
                        sum_orbs_of(self.grid(), Player::Blue),
                    ) == Some(winner),
                },
            decreases fuel,
        {
            let ghost fuel_in = fuel;
            let ghost live_in = queue@.subrange(head as int, queue@.len() as int);
            let ghost m_in = running_model(*self, live_in);
            fuel = fuel - 1;
            if deadline_passed(deadline) {
                aborted = true;
                break ;
            }
            let rc = queue[head];
            let row = rc.0;
            let col = rc.1;
            head = head + 1;
            let ghost bpop = *self;
            self.set_flag(row, col, false);
            proof {
                let si = bpop.sidx(row as int, col as int);
                lemma_sidx_bounds(bpop.width as int, bpop.height as int, row as int, col as int);
                lemma_geometry_preserved(bpop, *self);
                lemma_sums_equal_pointwise(bpop.cells@, self.cells@);
                assert forall|j: int|
                    0 <= j < self.grid().len() implies ((#[trigger] self.grid()[j].state) matches
                CellState::Occupied { orbs, .. } ==> orbs >= 1) by {
                    assert(self.grid()[j].state == bpop.grid()[j].state);
                }
                assert forall|k: int|
                    head <= k < queue@.len() implies self.grid()[self.sidx(
                    (#[trigger] queue@[k]).0 as int,
                    queue@[k].1 as int,
                )].is_queued by {
                    lemma_sidx_bounds(
                        bpop.width as int,
                        bpop.height as int,
                        queue@[k].0 as int,
                        queue@[k].1 as int,
                    );
                    assert(bpop.grid()[bpop.sidx(
                        (queue@[k]).0 as int,
                        queue@[k].1 as int,
                    )].is_queued);
                    if bpop.sidx((queue@[k]).0 as int, queue@[k].1 as int) == si {
                        lemma_sidx_injective(
                            bpop.width as int,
                            queue@[k].0 as int,
                            queue@[k].1 as int,
                            row as int,
                            col as int,
                        );
                        assert(queue@[k] == queue@[head - 1]);
                        assert(false);
                    }
                }
                assert forall|j: int|
                    0 <= j < self.grid().len() && (#[trigger] self.grid()[j]).is_queued implies
                    exists|k: int|
                    head <= k < queue@.len() && self.sidx(
                        (#[trigger] queue@[k]).0 as int,
                        queue@[k].1 as int,
                    ) == j by {
                    if j == si {
                        assert(!self.grid()[j].is_queued);
                    }
                    assert(j != si);
                    assert(bpop.grid()[j].is_queued);
                    let k = choose|k: int|
                        head - 1 <= k < queue@.len() && bpop.sidx(
                            (#[trigger] queue@[k]).0 as int,
                            queue@[k].1 as int,
                        ) == j;
                    assert(k != head - 1);
                    assert(head <= k < queue@.len() && self.sidx(
                        (queue@[k]).0 as int,
                        queue@[k].1 as int,
                    ) == j);
                }
                assert(queue_entries_ok(*self, queue@, head as int));
            }
            proof {
                lemma_live_pop(queue@, head as int - 1);
                assert(queue@.subrange(head as int, queue@.len() as int) == live_in.drop_first());
                assert(m_in.queue[0] == (row, col));
                assert(self.cells@ == crate::cascade_model::flag_cell(
                    m_in.grid,
                    (row as int) * m_in.width + (col as int),
                    false,
                ));
                if one_step {
                    assert(self.cells@ =~= b0.cells@);
                }
            }
            let ic = self.index_of(row, col);
            let cell = self.cells[ic];
            let explodes = match cell.state {
                CellState::Occupied { orbs, .. } => orbs >= cell.critical_mass,
                CellState::Empty => false,
            };
            if explodes {
                let ghost bpre = *self;
                self.explode_cell(row, col);
                proof {
                    if one_step {
                        assert(self.cells@ == e_one);
                    }
                }
                proof {
                    lemma_explosion_effects(
                        bpre.cells@,
                        bpre.width as int,
                        bpre.height as int,
                        row as int,
                        col as int,
                    );
                    lemma_geometry_preserved(bpre, *self);
                    assert forall|k: int|
                        head <= k < queue@.len() implies self.grid()[self.sidx(
                        (#[trigger] queue@[k]).0 as int,
                        queue@[k].1 as int,
                    )].is_queued by {
                        lemma_sidx_bounds(
                            bpre.width as int,
                            bpre.height as int,
                            queue@[k].0 as int,
                            queue@[k].1 as int,
                        );
                    }
                    assert forall|j: int|
                        0 <= j < self.grid().len() && (#[trigger] self.grid()[j]).is_queued implies
                        exists|k: int|
                        head <= k < queue@.len() && self.sidx(
                            (#[trigger] queue@[k]).0 as int,
                            queue@[k].1 as int,
                        ) == j by {
                        assert(bpre.grid()[j].is_queued);
                        let k = choose|k: int|
                            head <= k < queue@.len() && bpre.sidx(
                                (#[trigger] queue@[k]).0 as int,
                                queue@[k].1 as int,
                            ) == j;
                        assert(head <= k < queue@.len() && self.sidx(
                            (queue@[k]).0 as int,
                            queue@[k].1 as int,
                        ) == j);
                    }
                    assert(queue_entries_ok(*self, queue@, head as int));
                }
                let ghost gq0 = (self.cells@, queue@);
                if row > 0 {
                    proof {
                        if one_step {
                            lemma_sidx_bounds(
                                b0.width as int,
                                b0.height as int,
                                row - 1,
                                col as int,
                            );
                            assert(self.cells@ == e_one);
                        }
                    }
                    self.maybe_enqueue(&mut queue, row - 1, col, Ghost(head as int));
                }
                let ghost gq1 = (self.cells@, queue@);
                if row + 1 < self.height {
                    proof {
                        if one_step {
                            lemma_sidx_bounds(
                                b0.width as int,
                                b0.height as int,
                                row + 1,
                                col as int,
                            );
                            assert(self.cells@ == e_one);
                        }
                    }
                    self.maybe_enqueue(&mut queue, row + 1, col, Ghost(head as int));
                }
                let ghost gq2 = (self.cells@, queue@);
                if col > 0 {
                    proof {
                        if one_step {
                            lemma_sidx_bounds(
                                b0.width as int,
                                b0.height as int,
                                row as int,
                                col - 1,
                            );
                            assert(self.cells@ == e_one);
                        }
                    }
                    self.maybe_enqueue(&mut queue, row, col - 1, Ghost(head as int));
                }
                let ghost gq3 = (self.cells@, queue@);
                if col + 1 < self.width {
                    proof {
                        if one_step {
                            lemma_sidx_bounds(
                                b0.width as int,
                                b0.height as int,
                                row as int,
                                col + 1,
                            );
                            assert(self.cells@ == e_one);
                        }
                    }
                    self.maybe_enqueue(&mut queue, row, col + 1, Ghost(head as int));
                }
                let ghost gq4 = (self.cells@, queue@);
                proof {
                    if one_step {
                        lemma_sidx_bounds(b0.width as int, b0.height as int, row as int, col as int);
                        assert(self.cells@ == e_one);
                    }
                }
                self.maybe_enqueue(&mut queue, row, col, Ghost(head as int));
                let ghost gq5 = (self.cells@, queue@);
                proof {
                    if one_step {
                        assert(self.cells@ == e_one && queue@.len() == 1);
                    }
                }
                let ghost benq = *self;
                self.recalculate_orb_counts();
                if record {
                    let snap = self.clone();
                    history.push(snap);
                }
                self.update_game_state();
                proof {
                    lemma_grid_invariants_transfer(benq, *self, queue@, head as int);
                }
                proof {
                    let w = b0.width as int;
                    let h = b0.height as int;
                    let r = row as int;
                    let c = col as int;
                    let si = r * w + c;
                    let g1 = crate::cascade_model::flag_cell(m_in.grid, si, false);
                    assert(bpre.cells@ == g1);
                    assert(crate::cascade_model::at_capacity(g1[si]));
                    assert(gq0.0 == exploded_grid(g1, w, h, r, c));
                    let live1 = live_in.drop_first();
                    assert(gq0.1.subrange(head as int, gq0.1.len() as int) == live1);
                    assert((gq1.0, gq1.1) == enqueue_step(gq0.0, gq0.1, w, h, r - 1, c));
                    assert((gq2.0, gq2.1) == enqueue_step(gq1.0, gq1.1, w, h, r + 1, c));
                    assert((gq3.0, gq3.1) == enqueue_step(gq2.0, gq2.1, w, h, r, c - 1));
                    assert((gq4.0, gq4.1) == enqueue_step(gq3.0, gq3.1, w, h, r, c + 1));
                    assert((gq5.0, gq5.1) == enqueue_step(gq4.0, gq4.1, w, h, r, c));
                    crate::cascade_model::lemma_enqueue_live(
                        gq0.0, gq1.0, gq0.1, gq1.1, head as int, w, h, r - 1, c,
                    );
                    crate::cascade_model::lemma_enqueue_live(
                        gq1.0, gq2.0, gq1.1, gq2.1, head as int, w, h, r + 1, c,
                    );
                    crate::cascade_model::lemma_enqueue_live(
                        gq2.0, gq3.0, gq2.1, gq3.1, head as int, w, h, r, c - 1,
                    );
                    crate::cascade_model::lemma_enqueue_live(
                        gq3.0, gq4.0, gq3.1, gq4.1, head as int, w, h, r, c + 1,
                    );
                    crate::cascade_model::lemma_enqueue_live(
                        gq4.0, gq5.0, gq4.1, gq5.1, head as int, w, h, r, c,
                    );
                    let s1 = enqueue_step(gq0.0, live1, w, h, r - 1, c);
                    let s2 = enqueue_step(s1.0, s1.1, w, h, r + 1, c);
                    let s3 = enqueue_step(s2.0, s2.1, w, h, r, c - 1);
                    let s4 = enqueue_step(s3.0, s3.1, w, h, r, c + 1);
                    let s5 = enqueue_step(s4.0, s4.1, w, h, r, c);
                    assert(s1 == (gq1.0, gq1.1.subrange(head as int, gq1.1.len() as int)));
                    assert(s2 == (gq2.0, gq2.1.subrange(head as int, gq2.1.len() as int)));
                    assert(s3 == (gq3.0, gq3.1.subrange(head as int, gq3.1.len() as int)));
                    assert(s4 == (gq4.0, gq4.1.subrange(head as int, gq4.1.len() as int)));
                    assert(s5 == (gq5.0, gq5.1.subrange(head as int, gq5.1.len() as int)));
                    let live_now = queue@.subrange(head as int, queue@.len() as int);
                    assert(self.cells@ == s5.0);
                    assert(live_now == s5.1);
                    assert(self.red_orbs == sum_orbs_of(s5.0, Player::Red) as u64);
                    assert(self.blue_orbs == sum_orbs_of(s5.0, Player::Blue) as u64);
                    assert(self.game_state == crate::cascade_model::next_status(
                        m_in.moves,
                        self.red_orbs,
                        self.blue_orbs,
                        m_in.status,
                    ));
                    assert(running_model(*self, live_now) =~= cascade_step(m_in));
                    lemma_run_step(m_in, fuel_in as nat);
                    lemma_count_step(m_in, fuel_in as nat);
                    if only_seed {
                        assert forall|r2: int, c2: int|
                            0 <= r2 < m_in.height && 0 <= c2 < m_in.width implies (
                        #[trigger] m_in.grid[r2 * m_in.width + c2]).critical_mass
                            == crate::grid::capacity_at(m_in.width, m_in.height, r2, c2) by {
                            lemma_sidx_bounds(b0.width as int, b0.height as int, r2, c2);
                            assert(bpop.cell_at(r2, c2).critical_mass == crate::grid::capacity_at(
                                bpop.width as int,
                                bpop.height as int,
                                r2,
                                c2,
                            ));
                        }
                        assert forall|i: int|
                            0 <= i < m_in.grid.len() implies ((#[trigger] m_in.grid[i].state)
                            matches CellState::Occupied { orbs, .. } ==> orbs >= 1) by {
                            assert(m_in.grid[i].state == bpop.grid()[i].state);
                        }
                        crate::cascade_model::lemma_step_preserves_coverage(m_in);
                        assert(self.cells@ == cascade_step(m_in).grid);
                        assert forall|i: int|
                            0 <= i < self.cells@.len() && crate::cascade_model::at_capacity(
                                #[trigger] self.cells@[i],
                            ) implies self.cells@[i].is_queued by {
                            assert(crate::cascade_model::at_capacity(cascade_step(m_in).grid[i]));
                        }
                    }
                }
                if !(matches!(self.game_state, GameState::Ongoing)) {
                    proof {
                        let live_now = queue@.subrange(head as int, queue@.len() as int);
                        assert(cascade_run(running_model(*self, live_now), fuel as nat)
                            == running_model(*self, live_now));
                    }
                    break ;
                }
            } else {
                proof {
                    let si = (row as int) * m_in.width + (col as int);
                    let live_now = queue@.subrange(head as int, queue@.len() as int);
                    assert(!crate::cascade_model::at_capacity(self.cells@[si]));
                    assert(running_model(*self, live_now) =~= cascade_step(m_in));
                    lemma_run_step(m_in, fuel_in as nat);
                    lemma_count_step(m_in, fuel_in as nat);
                    if only_seed {
                        assert forall|r2: int, c2: int|
                            0 <= r2 < m_in.height && 0 <= c2 < m_in.width implies (
                        #[trigger] m_in.grid[r2 * m_in.width + c2]).critical_mass
                            == crate::grid::capacity_at(m_in.width, m_in.height, r2, c2) by {
                            lemma_sidx_bounds(b0.width as int, b0.height as int, r2, c2);
                            assert(bpop.cell_at(r2, c2).critical_mass == crate::grid::capacity_at(
                                bpop.width as int,
                                bpop.height as int,
                                r2,
                                c2,
                            ));
                        }
                        assert forall|i: int|
                            0 <= i < m_in.grid.len() implies ((#[trigger] m_in.grid[i].state)
                            matches CellState::Occupied { orbs, .. } ==> orbs >= 1) by {
                            assert(m_in.grid[i].state == bpop.grid()[i].state);
                        }
                        crate::cascade_model::lemma_step_preserves_coverage(m_in);
                        assert(self.cells@ == cascade_step(m_in).grid);
                        assert forall|i: int|
                            0 <= i < self.cells@.len() && crate::cascade_model::at_capacity(
                                #[trigger] self.cells@[i],
                            ) implies self.cells@[i].is_queued by {
                            assert(crate::cascade_model::at_capacity(cascade_step(m_in).grid[i]));
                        }
                    }
                }
            }
        }
        let ghost bc = *self;
        let ghost live_c = queue@.subrange(head as int, queue@.len() as int);
        while head < queue.len()
            invariant
                one_step && !aborted ==> self.cells@ == e_one && head == queue@.len(),
                drain_flags(bc.cells@, live_c, bc.width as int) == drain_flags(
                    self.cells@,
                    queue@.subrange(head as int, queue@.len() as int),
                    bc.width as int,
                ),
                self.geometry_ok(),
                self.width == bc.width,
                self.height == bc.height,
                self.current_turn == bc.current_turn,
                self.total_moves == bc.total_moves,
                self.red_orbs == bc.red_orbs,
                self.blue_orbs == bc.blue_orbs,
                self.game_state == bc.game_state,
                self.cells@.len() == bc.cells@.len(),
                forall|i: int|
                    0 <= i < bc.cells@.len() ==> (#[trigger] self.cells@[i]).state
                        == bc.cells@[i].state,
                head <= queue@.len(),
                forall|k: int|
                    head <= k < queue@.len() ==> (#[trigger] queue@[k]).0 < self.height
                        && queue@[k].1 < self.width,
                forall|k1: int, k2: int|
                    head <= k1 < k2 < queue@.len() ==> queue@[k1] != queue@[k2],
                forall|i: int|
                    0 <= i < self.grid().len() && (#[trigger] self.grid()[i]).is_queued ==> exists|
                        k: int,
                    |
                        head <= k < queue@.len() && self.sidx(
                            (#[trigger] queue@[k]).0 as int,
                            queue@[k].1 as int,
                        ) == i,
            decreases queue@.len() - head,
        {
            let ghost live_pre = queue@.subrange(head as int, queue@.len() as int);
            let rc = queue[head];
            head = head + 1;
            let ghost bpop = *self;
            self.set_flag(rc.0, rc.1, false);
            proof {
                let si = bpop.sidx(rc.0 as int, rc.1 as int);
                lemma_sidx_bounds(bpop.width as int, bpop.height as int, rc.0 as int, rc.1 as int);
                lemma_geometry_preserved(bpop, *self);
                lemma_live_pop(queue@, head as int - 1);
                assert(queue@.subrange(head as int, queue@.len() as int)
                    == live_pre.drop_first());
                assert(live_pre[0] == rc);
                assert(self.cells@ == crate::cascade_model::flag_cell(
                    bpop.cells@,
                    (rc.0 as int) * (bc.width as int) + rc.1 as int,
                    false,
                ));
                assert(drain_flags(bpop.cells@, live_pre, bc.width as int) == drain_flags(
                    self.cells@,
                    live_pre.drop_first(),
                    bc.width as int,
                ));
                assert forall|j: int|
                    0 <= j < self.grid().len() && (#[trigger] self.grid()[j]).is_queued implies
                    exists|k: int|
                    head <= k < queue@.len() && self.sidx(
                        (#[trigger] queue@[k]).0 as int,
                        queue@[k].1 as int,
                    ) == j by {
                    assert(bpop.grid()[j].is_queued);
                    let k = choose|k: int|
                        head - 1 <= k < queue@.len() && bpop.sidx(
                            (#[trigger] queue@[k]).0 as int,
                            queue@[k].1 as int,
                        ) == j;
                    assert(j != si);
                    if k == head - 1 {
                        lemma_sidx_injective(
                            bpop.width as int,
                            queue@[k].0 as int,
                            queue@[k].1 as int,
                            rc.0 as int,
                            rc.1 as int,
                        );
                    }
                    assert(head <= k < queue@.len() && self.sidx(
                        (queue@[k]).0 as int,
                        queue@[k].1 as int,
                    ) == j);
                }
            }
        }
        proof {
            lemma_sums_equal_pointwise(bc.cells@, self.cells@);
            assert forall|j: int|
                0 <= j < self.grid().len() implies ((#[trigger] self.grid()[j].state) matches
            CellState::Occupied { orbs, .. } ==> orbs >= 1) by {
                assert(self.grid()[j].state == bc.grid()[j].state);
            }
            assert(self.flags_clear());
        }
        if aborted {
            let ghost bfin = *self;
            self.recalculate_orb_counts();
            proof {
                lemma_grid_invariants_transfer(bfin, *self, queue@, head as int);
            }
            return Err(GameError::SearchAborted);
        }
        proof {
            let done = cascade_run(mseed, cascade_fuel());
            assert(done == running_model(bc, live_c));
            assert(self.cells@ == drain_flags(done.grid, done.queue, bc.width as int));
            assert(board_model(*self) =~= resolve_cascade(board_model(b0), start_row, start_col));
            if self.game_state is Ongoing && cascade_settles(board_model(b0), start_row, start_col)
                && only_seed {
                // a settled, still-ongoing run emptied its worklist, so every
                // at-capacity cell would be flagged yet no flag is left
                assert(done.queue.len() == 0);
                assert(live_c.len() == 0);
                assert(self.cells@ == bc.cells@);
                assert forall|i: int|
                    0 <= i < self.cells@.len() implies !crate::cascade_model::at_capacity(
                    #[trigger] self.cells@[i],
                ) by {
                    if crate::cascade_model::at_capacity(self.cells@[i]) {
                        assert(crate::cascade_model::at_capacity(bc.cells@[i]));
                        assert(bc.cells@[i].is_queued);
                        assert(!self.flags_clear());
                    }
                }
            }
        }
        Ok(())
    }

    /// Apply one placement for the side to move on the authoritative board.
    /// Success is owed exactly when the game is ongoing, the coordinates are
    /// on the grid and the cell is empty or the mover's own.
    pub fn make_move(&mut self, row: usize, col: usize) -> (r: Result<(), GameError>)
        requires
            old(self).wf(),
            old(self).total_moves < MOVE_LIMIT,
        ensures
            final(self).wf(),
            match old(self).move_error_of(row, col) {
                Some(e) => r == Err::<(), GameError>(e) && same_position(*old(self), *final(self)),
                None => r is Ok && Board::move_outcome_ok(*old(self), *final(self), row, col),
            },
    {
        let mut history: Vec<Board> = Vec::new();
        self.make_move_internal(row, col, false, None, &mut history)
    }

    /// Apply one placement and also return the ordered intermediate board
    /// snapshots of the cascade (one per explosion, plus the final state) for
    /// a consuming collaborator to animate.
    pub fn make_move_and_get_history(&mut self, row: usize, col: usize) -> (r: Result<
        Vec<Board>,
        GameError,
    >)
        requires
            old(self).wf(),
            old(self).total_moves < MOVE_LIMIT,
        ensures
            final(self).wf(),
            match old(self).move_error_of(row, col) {
                Some(e) => r == Err::<Vec<Board>, GameError>(e) && same_position(
                    *old(self),
                    *final(self),
                ),
                None => {
                    &&& r is Ok
                    &&& Board::move_outcome_ok(*old(self), *final(self), row, col)
                    &&& (r matches Ok(h) ==> h@.len() == 1 + cascade_explosions(
                        placed_model(board_model(*old(self)), row, col),
                        row,
                        col,
                    ) && same_position(*final(self), h@.last()))
                },
            },
    {
        let mut history: Vec<Board> = Vec::new();
        match self.make_move_internal(row, col, true, None, &mut history) {
            Ok(()) => {
                let snap = self.clone();
                history.push(snap);
                Ok(history)
            },
            Err(e) => Err(e),
        }
    }

    /// Apply one placement on a disposable simulation copy, optionally bounded
    /// by a wall-clock deadline: if the deadline passes during cascade
    /// resolution the move reports SearchAborted and the partially resolved
    /// copy is only fit to be discarded.
    pub fn make_move_for_simulation(
        &mut self,
        row: usize,
        col: usize,
        deadline: Option<&std::time::Instant>,
    ) -> (r: Result<(), GameError>)
        requires
            old(self).wf(),
            old(self).total_moves < MOVE_LIMIT,
        ensures
            match old(self).move_error_of(row, col) {
                Some(e) => r == Err::<(), GameError>(e) && same_position(*old(self), *final(self))
                    && final(self).wf(),
                None => {
                    &&& r is Ok || r == Err::<(), GameError>(GameError::SearchAborted)
                    &&& r is Ok ==> Board::move_outcome_ok(*old(self), *final(self), row, col)
                    &&& r is Err ==> deadline is Some && Board::move_aborted_ok(
                        *old(self),
                        *final(self),
                    )
                },
            },
            deadline is None ==> r != Err::<(), GameError>(GameError::SearchAborted),
    {
        let mut history: Vec<Board> = Vec::new();
        self.make_move_internal(row, col, false, deadline, &mut history)
    }

    /// Decide the whole board invariant at run time, for a collaborator that
    /// assembles a board from stored data instead of playing it through the
    /// engine: true exactly when every well-formedness clause holds.
    #[verifier::spinoff_prover]
    #[verifier::rlimit(100)]
    pub fn is_well_formed(&self) -> (r: bool)
        ensures
            r == self.wf(),
    {
        if self.width < 2 || self.height < 2 {
            return false;
        }
        let product = match self.width.checked_mul(self.height) {
            Some(p) => p,
            None => {
                return false;
            },
        };
        if self.cells.len() != product {
            return false;
        }
        let mut r: usize = 0;
        while r < self.height
            invariant
                2 <= self.width,
                2 <= self.height,
                self.width * self.height <= usize::MAX,
                self.cells@.len() == self.width * self.height,
                r <= self.height,
                forall|rr: int, cc: int|
                    0 <= rr < r && 0 <= cc < self.width ==> (#[trigger] self.cell_at(
                        rr,
                        cc,
                    )).critical_mass == crate::grid::capacity_at(
                        self.width as int,
                        self.height as int,
                        rr,
                        cc,
                    ),
            decreases self.height - r,
        {
            let mut c: usize = 0;
            while c < self.width
                invariant
                    2 <= self.width,
                    2 <= self.height,
                    self.width * self.height <= usize::MAX,
                    self.cells@.len() == self.width * self.height,
                    r < self.height,
                    c <= self.width,
                    forall|rr: int, cc: int|
                        0 <= rr < r && 0 <= cc < self.width ==> (#[trigger] self.cell_at(
                            rr,
                            cc,
                        )).critical_mass == crate::grid::capacity_at(
                            self.width as int,
                            self.height as int,
                            rr,
                            cc,
                        ),
                    forall|cc: int|
                        0 <= cc < c ==> (#[trigger] self.cell_at(r as int, cc)).critical_mass
                            == crate::grid::capacity_at(
                            self.width as int,
                            self.height as int,
                            r as int,
                            cc,
                        ),
                decreases self.width - c,
            {
                let mut cap: u64 = 4;
                if r == 0 {
                    cap = cap - 1;
                }
                if r == self.height - 1 {
                    cap = cap - 1;
                }
                if c == 0 {
                    cap = cap - 1;
                }
                if c == self.width - 1 {
                    cap = cap - 1;
                }
                proof {
                    lemma_sidx_bounds(self.width as int, self.height as int, r as int, c as int);
                    assert(cap == crate::grid::capacity_at(
                        self.width as int,
                        self.height as int,
                        r as int,
                        c as int,
                    ));
                }
                let i = r * self.width + c;
                if self.cells[i].critical_mass != cap {
                    proof {
                        assert(self.cell_at(r as int, c as int).critical_mass != crate::grid::capacity_at(
                            self.width as int,
                            self.height as int,
                            r as int,
                            c as int,
                        ));
                        assert(!self.geometry_ok());
                    }
                    return false;
                }
                c = c + 1;
            }
            proof {
                assert forall|rr: int, cc: int|
                    0 <= rr < r + 1 && 0 <= cc < self.width implies (#[trigger] self.cell_at(
                    rr,
                    cc,
                )).critical_mass == crate::grid::capacity_at(
                    self.width as int,
                    self.height as int,
                    rr,
                    cc,
                ) by {}
            }
            r = r + 1;
        }
        let mut i: usize = 0;
        while i < self.cells.len()
            invariant
                i <= self.cells@.len(),
                forall|j: int|
                    0 <= j < i ==> ((#[trigger] self.cells@[j].state) matches CellState::Occupied {
                        orbs,
                        ..
                    } ==> orbs >= 1),
                forall|j: int| 0 <= j < i ==> !(#[trigger] self.cells@[j]).is_queued,
            decreases self.cells@.len() - i,
        {
            let cell = self.cells[i];
            if cell.is_queued {
                return false;
            }
            if let CellState::Occupied { orbs, .. } = cell.state {
                if orbs == 0 {
                    return false;
                }
            }
            i = i + 1;
        }
        let ghost g = self.cells@;
        let mut red: u64 = 0;
        let mut blue: u64 = 0;
        let mut k: usize = 0;
        while k < self.cells.len()
            invariant
                g == self.cells@,
                k <= g.len(),
                red == sum_orbs_of(g.subrange(0, k as int), Player::Red),
                blue == sum_orbs_of(g.subrange(0, k as int), Player::Blue),
            decreases g.len() - k,
        {
            proof {
                lemma_sum_prefix_step(g, k as int, Player::Red);
                lemma_sum_prefix_step(g, k as int, Player::Blue);
            }
            match self.cells[k].state {
                CellState::Occupied { player: Player::Red, orbs } => {
                    red = match red.checked_add(orbs) {
                        Some(v) => v,
                        None => {
                            proof {
                                lemma_sum_prefix_le(g, k as int + 1, Player::Red);
                                lemma_sum_orbs_split(g);
                            }
                            return false;
                        },
                    };
                },
                CellState::Occupied { player: Player::Blue, orbs } => {
                    blue = match blue.checked_add(orbs) {
                        Some(v) => v,
                        None => {
                            proof {
                                lemma_sum_prefix_le(g, k as int + 1, Player::Blue);
                                lemma_sum_orbs_split(g);
                            }
                            return false;
                        },
                    };
                },
                CellState::Empty => {},
            }
            k = k + 1;
        }
        proof {
            lemma_sum_full_prefix(g, Player::Red);
            lemma_sum_full_prefix(g, Player::Blue);
            lemma_sum_orbs_split(g);
        }
        if red != self.red_orbs || blue != self.blue_orbs {
            return false;
        }
        let total = match red.checked_add(blue) {
            Some(t) => t,
            None => {
                return false;
            },
        };
        if total != self.total_moves {
            return false;
        }
        let winner_by_totals: Option<Player> = if red > 0 && blue == 0 {
            Some(Player::Red)
        } else if blue > 0 && red == 0 {
            Some(Player::Blue)
        } else {
            None
        };
        match self.game_state {
            GameState::Ongoing => !(self.total_moves >= 2 && winner_by_totals.is_some()),
            GameState::Won { winner } => self.total_moves >= 2 && winner_by_totals == Some(winner),
        }
    }

    /// Re-derive both sides' totals by scanning the whole grid, replacing the
    /// cached fields rather than trusting them.
    pub fn recalculate_orb_counts(&mut self)
        requires
            sum_orbs(old(self).grid()) <= u64::MAX,
        ensures
            final(self).cells@ == old(self).cells@,
            final(self).width == old(self).width,
            final(self).height == old(self).height,
            final(self).current_turn == old(self).current_turn,
            final(self).game_state == old(self).game_state,
            final(self).total_moves == old(self).total_moves,
            final(self).counts_ok(),
    {
        let ghost g = self.cells@;
        let mut red: u64 = 0;
        let mut blue: u64 = 0;
        let mut i: usize = 0;
        while i < self.cells.len()
            invariant
                g == self.cells@,
                i <= g.len(),
                sum_orbs(g) <= u64::MAX,
                red == sum_orbs_of(g.subrange(0, i as int), Player::Red),
                blue == sum_orbs_of(g.subrange(0, i as int), Player::Blue),
            decreases g.len() - i,
        {
            proof {
                lemma_sum_prefix_step(g, i as int, Player::Red);
                lemma_sum_prefix_step(g, i as int, Player::Blue);
                lemma_sum_prefix_le(g, i + 1, Player::Red);
                lemma_sum_prefix_le(g, i + 1, Player::Blue);
                lemma_sum_orbs_split(g);
            }
            match self.cells[i].state {
                CellState::Occupied { player: Player::Red, orbs } => {
                    red = red + orbs;
                },
                CellState::Occupied { player: Player::Blue, orbs } => {
                    blue = blue + orbs;
                },
                CellState::Empty => {},
            }
            i = i + 1;
        }
        proof {
            lemma_sum_full_prefix(g, Player::Red);
            lemma_sum_full_prefix(g, Player::Blue);
        }
        self.red_orbs = red;
        self.blue_orbs = blue;
    }

    /// The rejection a placement at (row, col) earns, or None if the engine
    /// owes the caller a completed move. The checks are ordered: a decided
    /// game first, then the grid bounds, then cell ownership.
    pub open spec fn move_error_of(self, row: usize, col: usize) -> Option<GameError> {
        if !(self.game_state is Ongoing) {
            Some(GameError::GameOver)
        } else if !(row < self.height && col < self.width) {
            Some(GameError::OutOfBounds)
        } else if !self.legal_cell(row as int, col as int) {
            Some(GameError::IllegalOwnership)
        } else {
            None
        }
    }

    /// Everything an accepted move guarantees: the invariant holds again, the
    /// counter went up by one, exactly one orb entered the board, the status
    /// follows the winning rule on the new totals, the turn alternates
    /// exactly when the game stays ongoing, and a placement that stays below
    /// capacity changes nothing but its own cell.
    pub open spec fn move_outcome_ok(pre: Board, post: Board, row: usize, col: usize) -> bool {
        &&& post.wf()
        &&& board_model(post) == spec_move_result(board_model(pre), row, col)
        &&& (((forall|i: int|
            0 <= i < pre.cells@.len() ==> !crate::cascade_model::at_capacity(
                #[trigger] pre.cells@[i],
            )) && post.game_state is Ongoing && cascade_settles(
            crate::cascade_model::placed_model(board_model(pre), row, col),
            row,
            col,
        )) ==> (forall|i: int|
            0 <= i < post.cells@.len() ==> !crate::cascade_model::at_capacity(
                #[trigger] post.cells@[i],
            )))
        &&& post.width == pre.width
        &&& post.height == pre.height
        &&& post.total_moves == pre.total_moves + 1
        &&& sum_orbs(post.grid()) == sum_orbs(pre.grid()) + 1
        &&& post.game_state == (match winner_of_totals(
            sum_orbs_of(post.grid(), Player::Red),
            sum_orbs_of(post.grid(), Player::Blue),
        ) {
            Some(w) => if post.total_moves >= 2 {
                GameState::Won { winner: w }
            } else {
                GameState::Ongoing
            },
            None => GameState::Ongoing,
        })
        &&& post.current_turn == (if post.game_state is Ongoing {
            other(pre.current_turn)
        } else {
            pre.current_turn
        })
        &&& (cell_orbs(pre.cell_at(row as int, col as int)) + 1 < pre.cell_at(
            row as int,
            col as int,
        ).critical_mass ==> {
            let placed = Cell {
                state: CellState::Occupied {
                    player: pre.current_turn,
                    orbs: (cell_orbs(pre.cell_at(row as int, col as int)) + 1) as u64,
                },
                critical_mass: pre.cell_at(row as int, col as int).critical_mass,
                is_queued: pre.cell_at(row as int, col as int).is_queued,
            };
            &&& post.cells@ == pre.cells@.update(pre.sidx(row as int, col as int), placed)
            &&& post.side_total(pre.current_turn) == pre.side_total(pre.current_turn) + 1
            &&& post.side_total(other(pre.current_turn)) == pre.side_total(
                other(pre.current_turn),
            )
        })
        &&& ({
            // a placement that reaches capacity and whose single explosion
            // already settles the board is pinned down exactly as well
            let placed = Cell {
                state: CellState::Occupied {
                    player: pre.current_turn,
                    orbs: (cell_orbs(pre.cell_at(row as int, col as int)) + 1) as u64,
                },
                critical_mass: pre.cell_at(row as int, col as int).critical_mass,
                is_queued: pre.cell_at(row as int, col as int).is_queued,
            };
            let g1 = pre.cells@.update(pre.sidx(row as int, col as int), placed);
            let e = exploded_grid(g1, pre.width as int, pre.height as int, row as int, col as int);
            (cell_orbs(placed) >= placed.critical_mass && (forall|i: int|
                0 <= i < e.len() ==> cell_orbs(#[trigger] e[i]) < e[i].critical_mass))
                ==> post.cells@ == e
        })
    }

    /// What is left of a simulation move that a deadline cut short: the grid
    /// invariants and conservation still hold (the board stays usable as a
    /// discarded copy), the status and turn are untouched.
    pub open spec fn move_aborted_ok(pre: Board, post: Board) -> bool {
        &&& post.wf_core()
        &&& post.width == pre.width
        &&& post.height == pre.height
        &&& post.game_state == GameState::Ongoing
        &&& post.current_turn == pre.current_turn
        &&& post.total_moves == pre.total_moves + 1
    }

    /// Validate and apply one placement for the side to move, resolving its
    /// cascade; the workhorse behind every public move operation.
    #[verifier::spinoff_prover]
    #[verifier::rlimit(100)]
    pub(crate) fn make_move_internal(
        &mut self,
        row: usize,
        col: usize,
        record: bool,
        deadline: Option<&std::time::Instant>,
        history: &mut Vec<Board>,
    ) -> (r: Result<(), GameError>)
        requires
            old(self).wf(),
            old(self).total_moves < MOVE_LIMIT,
        ensures
            match old(self).move_error_of(row, col) {
                Some(e) => r == Err::<(), GameError>(e) && same_position(*old(self), *final(self))
                    && final(self).wf(),
                None => {
                    &&& r is Ok || r == Err::<(), GameError>(GameError::SearchAborted)
                    &&& r is Ok ==> Board::move_outcome_ok(*old(self), *final(self), row, col)
                    &&& r is Err ==> deadline is Some && Board::move_aborted_ok(
                        *old(self),
                        *final(self),
                    )
                },
            },
            deadline is None ==> r != Err::<(), GameError>(GameError::SearchAborted),
            (record && r is Ok) ==> final(history)@.len() == old(history)@.len()
                + cascade_explosions(
                placed_model(board_model(*old(self)), row, col),
                row,
                col,
            ),
            !record ==> final(history)@ == old(history)@,
    {
        if !(matches!(self.game_state, GameState::Ongoing)) {
            return Err(GameError::GameOver);
        }
        if row >= self.height || col >= self.width {
            return Err(GameError::OutOfBounds);
        }
        let i = self.index_of(row, col);
        let target = self.cells[i];
        if let CellState::Occupied { player, .. } = target.state {
            if player != self.current_turn {
                return Err(GameError::IllegalOwnership);
            }
        }
        let ghost b0 = *old(self);
        proof {
            lemma_cell_le_sum(self.cells@, i as int);
        }
        let mut cell = self.cells[i];
        let ok = cell.add_orb(self.current_turn);
        self.cells.set(i, cell);
        self.total_moves = self.total_moves + 1;
        proof {
            assert(ok);
            lemma_sum_update(b0.cells@, i as int, cell, Player::Red);
            lemma_sum_update(b0.cells@, i as int, cell, Player::Blue);
            lemma_geometry_preserved(b0, *self);
            assert(sum_orbs(self.grid()) == sum_orbs(b0.grid()) + 1);
            assert forall|j: int|
                0 <= j < self.grid().len() implies ((#[trigger] self.grid()[j].state) matches
            CellState::Occupied { orbs, .. } ==> orbs >= 1) by {
                if j != i as int {
                    assert(self.grid()[j] == b0.grid()[j]);
                }
            }
            assert forall|j: int|
                0 <= j < self.grid().len() implies !(#[trigger] self.grid()[j]).is_queued by {
                if j != i as int {
                    assert(self.grid()[j] == b0.grid()[j]);
                }
            }
        }
        let ghost bplaced = *self;
        let cascade_result = self.handle_chain_reaction(row, col, record, deadline, history);
        if let Err(e) = cascade_result {
            proof {
                assert(self.conserved());
                assert(Board::move_aborted_ok(b0, *self));
            }
            return Err(e);
        }
        let ghost bcascaded = *self;
        self.recalculate_orb_counts();
        self.update_game_state();
        proof {
            lemma_grid_invariants_transfer(bcascaded, *self, Seq::empty(), 0);
        }
        if matches!(self.game_state, GameState::Ongoing) {
            let next = self.current_turn.opponent();
            self.current_turn = next;
            proof {
                lemma_grid_invariants_transfer(bcascaded, *self, Seq::empty(), 0);
            }
        }
        proof {
            assert(self.counts_ok());
            assert(self.conserved());
            assert(self.status_ok());
            assert(self.wf());
            if cell_orbs(b0.cell_at(row as int, col as int)) + 1 < b0.cell_at(
                row as int,
                col as int,
            ).critical_mass {
                assert(cell_orbs(bplaced.cell_at(row as int, col as int)) < bplaced.cell_at(
                    row as int,
                    col as int,
                ).critical_mass);
                assert(self.cells@ == bplaced.cells@);
            }
            {
                let placed = Cell {
                    state: CellState::Occupied {
                        player: b0.current_turn,
                        orbs: (cell_orbs(b0.cell_at(row as int, col as int)) + 1) as u64,
                    },
                    critical_mass: b0.cell_at(row as int, col as int).critical_mass,
                    is_queued: b0.cell_at(row as int, col as int).is_queued,
                };
                assert(bplaced.cells@ == b0.cells@.update(b0.sidx(row as int, col as int), placed));
                assert(bplaced.cell_at(row as int, col as int) == placed);
            }
            {
                let mpre = board_model(b0);
                let si = (row as int) * mpre.width + (col as int);
                let placed_spec = Cell {
                    state: CellState::Occupied {
                        player: mpre.turn,
                        orbs: (cell_orbs(mpre.grid[si]) + 1) as u64,
                    },
                    critical_mass: mpre.grid[si].critical_mass,
                    is_queued: mpre.grid[si].is_queued,
                };
                let m1 = CascadeModel {
                    grid: mpre.grid.update(si, placed_spec),
                    moves: (mpre.moves + 1) as u64,
                    ..mpre
                };
                assert(board_model(bplaced) =~= m1);
                assert(m1 == crate::cascade_model::placed_model(mpre, row, col));
                assert(board_model(bcascaded) == resolve_cascade(m1, row, col));
                assert(board_model(*self) =~= spec_move_result(mpre, row, col));
                if (forall|i: int|
                    0 <= i < b0.cells@.len() ==> !crate::cascade_model::at_capacity(
                        #[trigger] b0.cells@[i],
                    )) && self.game_state is Ongoing && cascade_settles(m1, row, col) {
                    assert forall|i: int|
                        0 <= i < bplaced.cells@.len() && crate::cascade_model::at_capacity(
                            #[trigger] bplaced.cells@[i],
                        ) implies i == bplaced.sidx(row as int, col as int) by {
                        if i != b0.sidx(row as int, col as int) {
                            assert(bplaced.cells@[i] == b0.cells@[i]);
                        }
                    }
                    assert(bcascaded.game_state is Ongoing);
                    assert(forall|i: int|
                        0 <= i < bcascaded.cells@.len() ==> !crate::cascade_model::at_capacity(
                            #[trigger] bcascaded.cells@[i],
                        ));
                    assert(self.cells@ == bcascaded.cells@);
                }
            }
            assert(Board::move_outcome_ok(b0, *self, row, col));
        }
        Ok(())
    }

    /// Evaluate the winning rule on the cached totals: from the second move
    /// on, a side wins as soon as it alone still holds orbs.
    pub(crate) fn update_game_state(&mut self)
        ensures
            final(self).cells@ == old(self).cells@,
            final(self).width == old(self).width,
            final(self).height == old(self).height,
            final(self).current_turn == old(self).current_turn,
            final(self).red_orbs == old(self).red_orbs,
            final(self).blue_orbs == old(self).blue_orbs,
            final(self).total_moves == old(self).total_moves,
            final(self).game_state == (if old(self).total_moves >= 2 {
                match winner_of_totals(old(self).red_orbs as nat, old(self).blue_orbs as nat) {
                    Some(w) => GameState::Won { winner: w },
                    None => old(self).game_state,
                }
            } else {
                old(self).game_state
            }),
    {
        if self.total_moves < 2 {
            return ;
        }
        if self.red_orbs > 0 && self.blue_orbs == 0 {
            self.game_state = GameState::Won { winner: Player::Red };
        } else if self.blue_orbs > 0 && self.red_orbs == 0 {
            self.game_state = GameState::Won { winner: Player::Blue };
        }
    }
}

} // verus!
