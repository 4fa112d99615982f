//! The computer opponent: strategy and heuristic identifiers, the board
//! evaluator with its win short-circuit, the SafeMobility simulation, and the
//! time-bounded iterative-deepening alpha-beta search with a pure-random
//! fallback strategy.

use vstd::prelude::*;

use rand::Rng;

use crate::board::{lemma_ongoing_has_legal_move, Board};
use crate::cascade_model::{board_model, spec_move_result, CascadeModel};
use crate::clock::{deadline_after, deadline_passed};
use crate::game::{cell_orbs, other, CellState, GameError, GameState, Player};
use crate::grid::{lemma_cell_le_sum, lemma_sum_orbs_split};
use crate::heuristics::{scan_heuristic_spec, EVAL_CELLS_MAX, EVAL_MOVES_MAX, SCAN_BOUND};

verus! {

/// How the computer picks its move.
#[derive(Clone, Copy, PartialEq, Eq, Structural, Debug)]
pub enum AIStrategy {
    /// A uniformly random legal move.
    Random,
    /// Iterative-deepening alpha-beta search under a time budget.
    AlphaBeta,
}

/// The closed set of scoring heuristics a caller may combine.
#[derive(Clone, Copy, PartialEq, Eq, Structural, Debug, Hash)]
pub enum Heuristic {
    OrbDifference,
    PeripheralControl,
    TerritoryControl,
    ChainReactionPotential,
    ConversionPotential,
    CascadePotential,
    SafeMobility,
}

/// Most heuristics a caller may stack in one evaluation.
pub const MAX_HEURISTICS: usize = 64;

/// Relies on rand::Rng::gen_range over 0..n: a value below n, and a panic
/// only on an empty range, which the precondition rules out.
#[verifier::external_body]
fn random_below(n: usize) -> (r: usize)
    requires
        n > 0,
    ensures
        r < n,
{
    rand::thread_rng().gen_range(0..n)
}

/// Whether two strings hold the same characters.
fn string_equals(a: &str, b: &str) -> (r: bool)
    ensures
        r == (a@ == b@),
{
    let a_owned = a.to_owned();
    let b_owned = b.to_owned();
    a_owned == b_owned
}

/// The strategy a configuration name selects; an unrecognized name resolves
/// to the Random fallback rather than failing.
pub open spec fn strategy_for_name(name: Seq<char>) -> AIStrategy {
    if name == "AlphaBeta"@ {
        AIStrategy::AlphaBeta
    } else {
        AIStrategy::Random
    }
}

/// Resolve a strategy name from an outside configuration.
pub fn parse_strategy(name: &str) -> (s: AIStrategy)
    ensures
        s == strategy_for_name(name@),
{
    if string_equals(name, "AlphaBeta") {
        AIStrategy::AlphaBeta
    } else {
        AIStrategy::Random
    }
}

/// The heuristic a configuration name selects; an unrecognized name resolves
/// to the OrbDifference default rather than failing.
pub open spec fn heuristic_for_name(name: Seq<char>) -> Heuristic {
    if name == "OrbDifference"@ {
        Heuristic::OrbDifference
    } else if name == "PeripheralControl"@ {
        Heuristic::PeripheralControl
    } else if name == "TerritoryControl"@ {
        Heuristic::TerritoryControl
    } else if name == "ChainReactionPotential"@ {
        Heuristic::ChainReactionPotential
    } else if name == "ConversionPotential"@ {
        Heuristic::ConversionPotential
    } else if name == "CascadePotential"@ {
        Heuristic::CascadePotential
    } else if name == "SafeMobility"@ {
        Heuristic::SafeMobility
    } else {
        Heuristic::OrbDifference
    }
}

/// Resolve a heuristic name from an outside configuration.
pub fn parse_heuristic(name: &str) -> (h: Heuristic)
    ensures
        h == heuristic_for_name(name@),
{
    if string_equals(name, "OrbDifference") {
        Heuristic::OrbDifference
    } else if string_equals(name, "PeripheralControl") {
        Heuristic::PeripheralControl
    } else if string_equals(name, "TerritoryControl") {
        Heuristic::TerritoryControl
    } else if string_equals(name, "ChainReactionPotential") {
        Heuristic::ChainReactionPotential
    } else if string_equals(name, "ConversionPotential") {
        Heuristic::ConversionPotential
    } else if string_equals(name, "CascadePotential") {
        Heuristic::CascadePotential
    } else if string_equals(name, "SafeMobility") {
        Heuristic::SafeMobility
    } else {
        Heuristic::OrbDifference
    }
}

/// One heuristic's exact value. SafeMobility is the number of safe moves the
/// point-of-view side has, judged through the same move semantics the engine
/// ensures (`spec_move_result`).
pub open spec fn heuristic_spec(b: Board, hk: Heuristic, pov: Player) -> int {
    match hk {
        Heuristic::OrbDifference => b.side_total(pov) - b.side_total(other(pov)),
        Heuristic::SafeMobility => safe_move_count(
            board_model(pov_view(b, pov)),
            pov_view(b, pov).legal_moves_spec(),
        ) as int,
        _ => scan_heuristic_spec(b, hk, pov),
    }
}

/// The unweighted sum of the chosen heuristics' values.
pub open spec fn eval_sum(b: Board, hs: Seq<Heuristic>, pov: Player) -> int
    decreases hs.len(),
{
    if hs.len() == 0 {
        0
    } else {
        eval_sum(b, hs.drop_last(), pov) + heuristic_spec(b, hs.last(), pov)
    }
}

/// The board as seen with the given side to move.
pub open spec fn pov_view(b: Board, pov: Player) -> Board {
    Board { current_turn: pov, ..b }
}

/// Whether the opponent of `pov` could legally place at (r, c): the cell is
/// empty or already the opponent's.
pub open spec fn opp_reply_cell(m: CascadeModel, pov: Player, r: int, c: int) -> bool {
    match m.grid[r * m.width + c].state {
        CellState::Empty => true,
        CellState::Occupied { player, .. } => player == other(pov),
    }
}

/// Whether one more orb at (r, c) would reach that cell's capacity.
pub open spec fn reply_triggers(m: CascadeModel, r: int, c: int) -> bool {
    cell_orbs(m.grid[r * m.width + c]) + 1 >= m.grid[r * m.width + c].critical_mass
}

/// A move of the side to move on `bp` is safe when, on the board it produces
/// (placement plus full cascade), no legal opponent reply would immediately
/// push its own cell to capacity.
pub open spec fn is_safe_move(bp: CascadeModel, mv: (usize, usize)) -> bool {
    let after = spec_move_result(bp, mv.0, mv.1);
    forall|r: int, c: int|
        0 <= r < after.height && 0 <= c < after.width && opp_reply_cell(after, bp.turn, r, c)
            ==> !reply_triggers(after, r, c)
}

/// How many of the given moves are safe.
pub open spec fn safe_move_count(bp: CascadeModel, mvs: Seq<(usize, usize)>) -> nat
    decreases mvs.len(),
{
    if mvs.len() == 0 {
        0
    } else {
        safe_move_count(bp, mvs.drop_last()) + (if is_safe_move(bp, mvs.last()) {
            1nat
        } else {
            0nat
        })
    }
}

/// SafeMobility: exactly how many of the point-of-view side's legal moves
/// are safe, where a move is safe when no opponent reply to the resulting
/// board would immediately push any cell to its capacity. Every candidate
/// move is applied to a disposable copy through the engine itself.
#[verifier::spinoff_prover]
#[verifier::rlimit(100)]
pub fn safe_mobility(board: &Board, pov: Player) -> (n: u64)
    requires
        board.wf(),
        board.total_moves <= EVAL_MOVES_MAX,
    ensures
        n <= board.width * board.height,
        board.game_state is Ongoing ==> n == safe_move_count(
            board_model(pov_view(*board, pov)),
            pov_view(*board, pov).legal_moves_spec(),
        ),
{
    let mut pov_board = board.clone();
    pov_board.current_turn = pov;
    let ghost bp = board_model(pov_board);
    proof {
        crate::moves::lemma_grid_invariants_transfer(*board, pov_board, Seq::empty(), 0);
        assert(pov_board.wf());
        pov_board.lemma_legal_moves_len_bound();
        pov_board.lemma_legal_moves_equal(pov_view(*board, pov));
        assert(bp == board_model(pov_view(*board, pov)));
    }
    let moves = pov_board.get_all_valid_moves();
    let mut safe: u64 = 0;
    let mut i: usize = 0;
    while i < moves.len()
        invariant
            pov_board.wf(),
            pov_board.total_moves <= EVAL_MOVES_MAX,
            pov_board.width == board.width,
            pov_board.height == board.height,
            pov_board.game_state == board.game_state,
            pov_board.current_turn == pov,
            bp == board_model(pov_board),
            moves@.len() <= board.width * board.height,
            safe <= i,
            i <= moves@.len(),
            moves@ == pov_board.legal_moves_spec(),
            board.game_state is Ongoing ==> safe == safe_move_count(
                bp,
                moves@.subrange(0, i as int),
            ),
        decreases moves@.len() - i,
    {
        let m = moves[i];
        proof {
            pov_board.lemma_legal_moves_members();
            assert(moves@.contains(m));
        }
        let mut after = pov_board.clone();
        proof {
            crate::moves::lemma_grid_invariants_transfer(pov_board, after, Seq::empty(), 0);
            assert(after.wf());
            assert(board_model(after) == bp);
        }
        let applied = after.make_move_for_simulation(m.0, m.1, None);
        proof {
            if board.game_state is Ongoing {
                assert(applied is Ok);
            }
        }
        let mut move_is_safe = false;
        if applied.is_ok() {
            let ghost am = board_model(after);
            proof {
                assert(after.wf());
                assert(am == spec_move_result(bp, m.0, m.1));
            }
            let mut opp_view = after.clone();
            opp_view.current_turn = pov.opponent();
            proof {
                crate::moves::lemma_grid_invariants_transfer(after, opp_view, Seq::empty(), 0);
            }
            let replies = opp_view.get_all_valid_moves();
            let mut is_safe = true;
            let mut j: usize = 0;
            while j < replies.len()
                invariant_except_break
                    is_safe == (forall|k: int|
                        0 <= k < j ==> !reply_triggers(
                            am,
                            (#[trigger] replies@[k]).0 as int,
                            replies@[k].1 as int,
                        )),
                invariant
                    after.wf(),
                    after.total_moves <= EVAL_MOVES_MAX + 1,
                    am == board_model(after),
                    opp_view.width == after.width,
                    opp_view.height == after.height,
                    opp_view.cells@ == after.cells@,
                    j <= replies@.len(),
                    replies@ == opp_view.legal_moves_spec(),
                ensures
                    is_safe == (forall|k: int|
                        0 <= k < replies@.len() ==> !reply_triggers(
                            am,
                            (#[trigger] replies@[k]).0 as int,
                            replies@[k].1 as int,
                        )),
                decreases replies@.len() - j,
            {
                let rm = replies[j];
                proof {
                    opp_view.lemma_legal_moves_members();
                    assert(replies@.contains(rm));
                }
                let idx = after.index_of(rm.0, rm.1);
                let cell = after.cells[idx];
                proof {
                    lemma_cell_le_sum(after.cells@, idx as int);
                }
                let would_explode = match cell.state {
                    CellState::Occupied { orbs, .. } => orbs + 1 >= cell.critical_mass,
                    CellState::Empty => 1 >= cell.critical_mass,
                };
                proof {
                    assert(would_explode == reply_triggers(am, rm.0 as int, rm.1 as int));
                }
                if would_explode {
                    is_safe = false;
                    proof {
                        assert(!(forall|k: int|
                            0 <= k < replies@.len() ==> !reply_triggers(
                                am,
                                (#[trigger] replies@[k]).0 as int,
                                replies@[k].1 as int,
                            )));
                    }
                    break ;
                }
                j = j + 1;
            }
            proof {
                opp_view.lemma_legal_moves_members();
                if is_safe {
                    assert forall|r: int, c: int|
                        0 <= r < am.height && 0 <= c < am.width && opp_reply_cell(am, pov, r, c)
                        implies !reply_triggers(am, r, c) by {
                        let pair = (r as usize, c as usize);
                        assert(opp_view.legal_cell(r, c));
                        assert(replies@.contains(pair));
                        let k = choose|k: int| 0 <= k < replies@.len() && replies@[k] == pair;
                        assert(!reply_triggers(
                            am,
                            (replies@[k]).0 as int,
                            replies@[k].1 as int,
                        ));
                    }
                    assert(is_safe_move(bp, m));
                } else {
                    let k = choose|k: int|
                        0 <= k < replies@.len() && reply_triggers(
                            am,
                            (#[trigger] replies@[k]).0 as int,
                            replies@[k].1 as int,
                        );
                    let rm = replies@[k];
                    assert(replies@.contains(rm));
                    assert(rm.0 < opp_view.height && rm.1 < opp_view.width && opp_view.legal_cell(
                        rm.0 as int,
                        rm.1 as int,
                    ));
                    assert(opp_reply_cell(am, pov, rm.0 as int, rm.1 as int));
                    assert(!is_safe_move(bp, m));
                }
            }
            if is_safe {
                safe = safe + 1;
                move_is_safe = true;
            }
        }
        proof {
            if board.game_state is Ongoing {
                assert(moves@.subrange(0, i + 1).drop_last() =~= moves@.subrange(0, i as int));
                assert(moves@.subrange(0, i + 1).last() == m);
            }
        }
        i = i + 1;
    }
    proof {
        pov_board.lemma_legal_moves_len_bound();
        assert(moves@.subrange(0, moves@.len() as int) =~= moves@);
    }
    safe
}

/// Score a board from a fixed point of view: a decided game is worth plus or
/// minus the whole scale (so forced wins are never outweighed by heuristic
/// noise); otherwise the unweighted sum of the chosen heuristics, which is
/// exact whenever the set avoids the simulation-defined SafeMobility.
pub fn evaluate_board(board: &Board, heuristics: &[Heuristic], pov: Player) -> (v: i64)
    requires
        board.wf(),
        board.total_moves <= EVAL_MOVES_MAX,
        board.width * board.height <= EVAL_CELLS_MAX,
        heuristics@.len() <= MAX_HEURISTICS,
    ensures
        board.game_state matches GameState::Won { winner } ==> v == (if winner == pov {
            i64::MAX
        } else {
            i64::MIN
        }),
        board.game_state is Ongoing ==> i64::MIN < v < i64::MAX,
        board.game_state is Ongoing ==> v == eval_sum(*board, heuristics@, pov),
{
    match board.game_state {
        GameState::Won { winner } => {
            return if winner == pov {
                i64::MAX
            } else {
                i64::MIN
            };
        },
        GameState::Ongoing => {},
    }
    let mut acc: i64 = 0;
    let mut i: usize = 0;
    while i < heuristics.len()
        invariant
            board.wf(),
            board.total_moves <= EVAL_MOVES_MAX,
            board.width * board.height <= EVAL_CELLS_MAX,
            board.game_state is Ongoing,
            i <= heuristics@.len(),
            heuristics@.len() <= MAX_HEURISTICS,
            acc == eval_sum(*board, heuristics@.subrange(0, i as int), pov),
            -((i as int) * SCAN_BOUND) <= acc <= (i as int) * SCAN_BOUND,
        decreases heuristics@.len() - i,
    {
        let hk = heuristics[i];
        let term: i64 = match hk {
            Heuristic::OrbDifference => {
                proof {
                    lemma_sum_orbs_split(board.grid());
                }
                let my = board.orb_count(pov);
                let opp = board.orb_count(pov.opponent());
                (my as i64) - (opp as i64)
            },
            Heuristic::SafeMobility => {
                let s = safe_mobility(board, pov);
                s as i64
            },
            _ => board.scan_heuristic(hk, pov),
        };
        proof {
            assert(heuristics@.subrange(0, i + 1).drop_last() =~= heuristics@.subrange(
                0,
                i as int,
            ));
            assert(heuristics@.subrange(0, i + 1).last() == heuristics@[i as int]);
            assert(term == heuristic_spec(*board, heuristics@[i as int], pov));
        }
        acc = acc + term;
        i = i + 1;
    }
    proof {
        assert(heuristics@.subrange(0, heuristics@.len() as int) =~= heuristics@);
    }
    acc
}

/// The recursive minimax-with-pruning routine. Scores every continuation of
/// `board` to the given depth from the fixed point of view, maximizing or
/// minimizing by turn and pruning siblings once beta falls to alpha; checks
/// the deadline on entry before doing any work.
pub fn alphabeta(
    board: &Board,
    depth: u32,
    alpha: i64,
    beta: i64,
    is_maximizing: bool,
    heuristics: &[Heuristic],
    pov: Player,
    deadline: Option<&std::time::Instant>,
) -> (r: Result<i64, GameError>)
    requires
        board.wf(),
        board.total_moves + depth <= EVAL_MOVES_MAX,
        board.width * board.height <= EVAL_CELLS_MAX,
        heuristics@.len() <= MAX_HEURISTICS,
    ensures
        r is Err ==> r == Err::<i64, GameError>(GameError::SearchAborted) && deadline is Some,
        deadline is None ==> r is Ok,
        deadline is None ==> (board.game_state matches GameState::Won { winner } ==> r == Ok::<
            i64,
            GameError,
        >(
            if winner == pov {
                i64::MAX
            } else {
                i64::MIN
            },
        )),
        deadline is None && depth == 0 && board.game_state is Ongoing ==> r == Ok::<
            i64,
            GameError,
        >(eval_sum(*board, heuristics@, pov) as i64),
    decreases depth,
{
    if deadline_passed(deadline) {
        return Err(GameError::SearchAborted);
    }
    if depth == 0 || !(matches!(board.game_state, GameState::Ongoing)) {
        return Ok(evaluate_board(board, heuristics, pov));
    }
    let moves = board.get_all_valid_moves();
    if moves.len() == 0 {
        return Ok(evaluate_board(board, heuristics, pov));
    }
    let mut alpha = alpha;
    let mut beta = beta;
    if is_maximizing {
        let mut max_eval = i64::MIN;
        let mut i: usize = 0;
        while i < moves.len()
            invariant
                board.wf(),
                board.game_state is Ongoing,
                board.total_moves + depth <= EVAL_MOVES_MAX,
                board.width * board.height <= EVAL_CELLS_MAX,
                heuristics@.len() <= MAX_HEURISTICS,
                depth >= 1,
                i <= moves@.len(),
                moves@ == board.legal_moves_spec(),
            decreases moves@.len() - i,
        {
            let m = moves[i];
            proof {
                board.lemma_legal_moves_members();
                assert(moves@.contains(m));
            }
            let mut child = board.clone();
            proof {
                crate::moves::lemma_grid_invariants_transfer(*board, child, Seq::empty(), 0);
            }
            if child.make_move_for_simulation(m.0, m.1, deadline).is_err() {
                return Err(GameError::SearchAborted);
            }
            let eval = match alphabeta(
                &child,
                depth - 1,
                alpha,
                beta,
                false,
                heuristics,
                pov,
                deadline,
            ) {
                Ok(v) => v,
                Err(e) => {
                    return Err(e);
                },
            };
            if eval > max_eval {
                max_eval = eval;
            }
            if eval > alpha {
                alpha = eval;
            }
            if beta <= alpha {
                break ;
            }
            i = i + 1;
        }
        Ok(max_eval)
    } else {
        let mut min_eval = i64::MAX;
        let mut i: usize = 0;
        while i < moves.len()
            invariant
                board.wf(),
                board.game_state is Ongoing,
                board.total_moves + depth <= EVAL_MOVES_MAX,
                board.width * board.height <= EVAL_CELLS_MAX,
                heuristics@.len() <= MAX_HEURISTICS,
                depth >= 1,
                i <= moves@.len(),
                moves@ == board.legal_moves_spec(),
            decreases moves@.len() - i,
        {
            let m = moves[i];
            proof {
                board.lemma_legal_moves_members();
                assert(moves@.contains(m));
            }
            let mut child = board.clone();
            proof {
                crate::moves::lemma_grid_invariants_transfer(*board, child, Seq::empty(), 0);
            }
            if child.make_move_for_simulation(m.0, m.1, deadline).is_err() {
                return Err(GameError::SearchAborted);
            }
            let eval = match alphabeta(
                &child,
                depth - 1,
                alpha,
                beta,
                true,
                heuristics,
                pov,
                deadline,
            ) {
                Ok(v) => v,
                Err(e) => {
                    return Err(e);
                },
            };
            if eval < min_eval {
                min_eval = eval;
            }
            if eval < beta {
                beta = eval;
            }
            if beta <= alpha {
                break ;
            }
            i = i + 1;
        }
        Ok(min_eval)
    }
}

/// The same recursion without pruning or a deadline: the reference that
/// alpha-beta search is meant to agree with move for move and score for
/// score.
pub fn minimax(
    board: &Board,
    depth: u32,
    is_maximizing: bool,
    heuristics: &[Heuristic],
    pov: Player,
) -> (v: i64)
    requires
        board.wf(),
        board.total_moves + depth <= EVAL_MOVES_MAX,
        board.width * board.height <= EVAL_CELLS_MAX,
        heuristics@.len() <= MAX_HEURISTICS,
    ensures
        (board.game_state matches GameState::Won { winner } ==> v == (if winner == pov {
            i64::MAX
        } else {
            i64::MIN
        })),
        depth == 0 && board.game_state is Ongoing ==> v == eval_sum(*board, heuristics@, pov),
    decreases depth,
{
    if depth == 0 || !(matches!(board.game_state, GameState::Ongoing)) {
        return evaluate_board(board, heuristics, pov);
    }
    let moves = board.get_all_valid_moves();
    if moves.len() == 0 {
        return evaluate_board(board, heuristics, pov);
    }
    let mut best: i64 = if is_maximizing {
        i64::MIN
    } else {
        i64::MAX
    };
    let mut i: usize = 0;
    while i < moves.len()
        invariant
            board.wf(),
            board.game_state is Ongoing,
            board.total_moves + depth <= EVAL_MOVES_MAX,
            board.width * board.height <= EVAL_CELLS_MAX,
            heuristics@.len() <= MAX_HEURISTICS,
            depth >= 1,
            i <= moves@.len(),
            moves@ == board.legal_moves_spec(),
        decreases moves@.len() - i,
    {
        let m = moves[i];
        proof {
            board.lemma_legal_moves_members();
            assert(moves@.contains(m));
        }
        let mut child = board.clone();
        proof {
            crate::moves::lemma_grid_invariants_transfer(*board, child, Seq::empty(), 0);
        }
        let applied = child.make_move_for_simulation(m.0, m.1, None);
        proof {
            assert(applied is Ok);
        }
        let eval = minimax(&child, depth - 1, !is_maximizing, heuristics, pov);
        if is_maximizing {
            if eval > best {
                best = eval;
            }
        } else {
            if eval < best {
                best = eval;
            }
        }
        i = i + 1;
    }
    best
}

/// One full search pass at a fixed depth: score each legal root move with the
/// opponent to reply, and keep the first move with the strictly greatest
/// score under the point of view of the side to move at the root. Reports
/// None as soon as the deadline passes anywhere in the pass.
pub fn find_best_move_at_depth(
    board: &Board,
    heuristics: &[Heuristic],
    depth: u32,
    deadline: Option<&std::time::Instant>,
) -> (r: Option<(usize, usize)>)
    requires
        board.wf(),
        board.game_state is Ongoing,
        depth >= 1,
        board.total_moves + depth <= EVAL_MOVES_MAX,
        board.width * board.height <= EVAL_CELLS_MAX,
        heuristics@.len() <= MAX_HEURISTICS,
    ensures
        r matches Some(m) ==> board.legal_moves_spec().contains(m),
        deadline is None ==> r is Some,
{
    let moves = board.get_all_valid_moves();
    proof {
        lemma_ongoing_has_legal_move(*board);
    }
    let mut best_move = moves[0];
    let mut best_score = i64::MIN;
    let mut alpha = i64::MIN;
    let beta = i64::MAX;
    let pov = board.current_turn;
    let mut i: usize = 0;
    while i < moves.len()
        invariant
            board.wf(),
            board.game_state is Ongoing,
            depth >= 1,
            board.total_moves + depth <= EVAL_MOVES_MAX,
            board.width * board.height <= EVAL_CELLS_MAX,
            heuristics@.len() <= MAX_HEURISTICS,
            i <= moves@.len(),
            moves@ == board.legal_moves_spec(),
            moves@.contains(best_move),
        decreases moves@.len() - i,
    {
        if deadline_passed(deadline) {
            return None;
        }
        let m = moves[i];
        proof {
            board.lemma_legal_moves_members();
            assert(moves@.contains(m));
        }
        let mut temp = board.clone();
        proof {
            crate::moves::lemma_grid_invariants_transfer(*board, temp, Seq::empty(), 0);
        }
        if temp.make_move_for_simulation(m.0, m.1, deadline).is_err() {
            return None;
        }
        match alphabeta(&temp, depth - 1, alpha, beta, false, heuristics, pov, deadline) {
            Ok(score) => {
                if score > best_score {
                    best_score = score;
                    best_move = m;
                }
                if best_score > alpha {
                    alpha = best_score;
                }
            },
            Err(_) => {
                return None;
            },
        }
        i = i + 1;
    }
    Some(best_move)
}

/// The unpruned counterpart of a depth-d pass, for holding the pruning search
/// to its reference answer.
pub fn find_best_move_minimax(board: &Board, heuristics: &[Heuristic], depth: u32) -> (r: (
    usize,
    usize,
))
    requires
        board.wf(),
        board.game_state is Ongoing,
        depth >= 1,
        board.total_moves + depth <= EVAL_MOVES_MAX,
        board.width * board.height <= EVAL_CELLS_MAX,
        heuristics@.len() <= MAX_HEURISTICS,
    ensures
        board.legal_moves_spec().contains(r),
{
    let moves = board.get_all_valid_moves();
    proof {
        lemma_ongoing_has_legal_move(*board);
    }
    let mut best_move = moves[0];
    let mut best_score = i64::MIN;
    let pov = board.current_turn;
    let mut i: usize = 0;
    while i < moves.len()
        invariant
            board.wf(),
            board.game_state is Ongoing,
            depth >= 1,
            board.total_moves + depth <= EVAL_MOVES_MAX,
            board.width * board.height <= EVAL_CELLS_MAX,
            heuristics@.len() <= MAX_HEURISTICS,
            i <= moves@.len(),
            moves@ == board.legal_moves_spec(),
            moves@.contains(best_move),
        decreases moves@.len() - i,
    {
        let m = moves[i];
        proof {
            board.lemma_legal_moves_members();
            assert(moves@.contains(m));
        }
        let mut temp = board.clone();
        proof {
            crate::moves::lemma_grid_invariants_transfer(*board, temp, Seq::empty(), 0);
        }
        let applied = temp.make_move_for_simulation(m.0, m.1, None);
        proof {
            assert(applied is Ok);
        }
        let score = minimax(&temp, depth - 1, false, heuristics, pov);
        if score > best_score {
            best_score = score;
            best_move = m;
        }
        i = i + 1;
    }
    best_move
}

/// Pick the computer's move. Random draws uniformly among the legal moves;
/// AlphaBeta runs iterative deepening under one shared deadline computed from
/// the time budget, keeping the move of the last fully completed depth.
/// A move is owed exactly while the game is ongoing; on a decided board the
/// query fails with GameOver instead of inventing a coordinate.
pub fn get_ai_move(
    board: &Board,
    strategy: AIStrategy,
    heuristics: &[Heuristic],
    max_depth: u32,
    time_limit_ms: u64,
) -> (r: Result<(usize, usize), GameError>)
    requires
        board.wf(),
        board.total_moves + max_depth <= EVAL_MOVES_MAX,
        board.width * board.height <= EVAL_CELLS_MAX,
        heuristics@.len() <= MAX_HEURISTICS,
    ensures
        r is Ok <==> board.game_state is Ongoing,
        r is Err ==> r == Err::<(usize, usize), GameError>(GameError::GameOver),
        r matches Ok(m) ==> board.legal_moves_spec().contains(m),
{
    if !(matches!(board.game_state, GameState::Ongoing)) {
        return Err(GameError::GameOver);
    }
    proof {
        lemma_ongoing_has_legal_move(*board);
    }
    match strategy {
        AIStrategy::Random => {
            let moves = board.get_all_valid_moves();
            let idx = random_below(moves.len());
            let m = moves[idx];
            proof {
                assert(board.legal_moves_spec().contains(m));
            }
            Ok(m)
        },
        AIStrategy::AlphaBeta => {
            let deadline = deadline_after(time_limit_ms);
            let moves = board.get_all_valid_moves();
            let mut best = moves[0];
            let mut d: u32 = 1;
            while d <= max_depth
                invariant
                    board.wf(),
                    board.game_state is Ongoing,
                    board.total_moves + max_depth <= EVAL_MOVES_MAX,
                    board.width * board.height <= EVAL_CELLS_MAX,
                    heuristics@.len() <= MAX_HEURISTICS,
                    d >= 1,
                    board.legal_moves_spec().contains(best),
                decreases max_depth + 1 - d,
            {
                if deadline_passed(deadline.as_ref()) {
                    break ;
                }
                match find_best_move_at_depth(board, heuristics, d, deadline.as_ref()) {
                    Some(m) => {
                        best = m;
                    },
                    None => {
                        break ;
                    },
                }
                d = d + 1;
            }
            Ok(best)
        },
    }
}

} // verus!
