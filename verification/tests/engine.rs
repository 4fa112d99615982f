//! Board engine behavior: capacities, placement, cascades, conservation,
//! turn alternation, the winning rule, and the introspection snapshot.

use chain_reaction::{
    convert_board_to_state_data, Board, Cell, CellState, GameError, GameManager, GameState, Player,
};

fn cell(b: &Board, r: usize, c: usize) -> Cell {
    b.cells[r * b.width + c]
}

fn total_orbs(b: &Board) -> u64 {
    b.cells
        .iter()
        .map(|cl| match cl.state {
            CellState::Occupied { orbs, .. } => orbs,
            CellState::Empty => 0,
        })
        .sum()
}

fn side_orbs(b: &Board, p: Player) -> u64 {
    b.cells
        .iter()
        .map(|cl| match cl.state {
            CellState::Occupied { player, orbs } if player == p => orbs,
            _ => 0,
        })
        .sum()
}

#[test]
fn capacities_match_neighbor_counts() {
    let b = Board::new(3, 3, Player::Red);
    // corners
    for (r, c) in [(0, 0), (0, 2), (2, 0), (2, 2)] {
        assert_eq!(cell(&b, r, c).critical_mass, 2);
    }
    // edges
    for (r, c) in [(0, 1), (1, 0), (1, 2), (2, 1)] {
        assert_eq!(cell(&b, r, c).critical_mass, 3);
    }
    // interior
    assert_eq!(cell(&b, 1, 1).critical_mass, 4);
}

#[test]
fn capacities_on_two_by_two_are_all_two() {
    let b = Board::new(2, 2, Player::Red);
    for r in 0..2 {
        for c in 0..2 {
            assert_eq!(cell(&b, r, c).critical_mass, 2);
        }
    }
}

#[test]
fn new_board_is_empty_and_ongoing() {
    let b = Board::new(4, 5, Player::Blue);
    assert_eq!(b.width, 4);
    assert_eq!(b.height, 5);
    assert_eq!(b.cells.len(), 20);
    assert!(b.cells.iter().all(|cl| cl.state == CellState::Empty && !cl.is_queued));
    assert_eq!(b.red_orbs, 0);
    assert_eq!(b.blue_orbs, 0);
    assert_eq!(b.current_turn, Player::Blue);
    assert_eq!(b.game_state, GameState::Ongoing);
    assert_eq!(b.total_moves, 0);
}

#[test]
fn out_of_bounds_is_rejected() {
    let mut b = Board::new(2, 2, Player::Red);
    assert_eq!(b.make_move(2, 0), Err(GameError::OutOfBounds));
    assert_eq!(b.make_move(0, 7), Err(GameError::OutOfBounds));
    assert_eq!(b.total_moves, 0);
}

#[test]
fn opponent_cell_is_rejected() {
    let mut b = Board::new(3, 3, Player::Red);
    b.make_move(1, 1).unwrap();
    assert_eq!(b.current_turn, Player::Blue);
    assert_eq!(b.make_move(1, 1), Err(GameError::IllegalOwnership));
    // the board is unchanged by the failure
    assert_eq!(b.current_turn, Player::Blue);
    assert_eq!(b.total_moves, 1);
}

#[test]
fn move_after_decision_is_rejected() {
    let mut b = Board::new(2, 2, Player::Red);
    b.make_move(0, 0).unwrap();
    b.current_turn = Player::Red;
    b.make_move(0, 0).unwrap();
    assert_eq!(b.game_state, GameState::Won { winner: Player::Red });
    assert_eq!(b.make_move(1, 1), Err(GameError::GameOver));
}

#[test]
fn non_exploding_placement_adds_exactly_one_orb() {
    let mut b = Board::new(3, 3, Player::Red);
    b.make_move(1, 1).unwrap();
    assert_eq!(
        cell(&b, 1, 1).state,
        CellState::Occupied { player: Player::Red, orbs: 1 }
    );
    assert_eq!(b.red_orbs, 1);
    assert_eq!(b.blue_orbs, 0);
    b.make_move(0, 1).unwrap();
    assert_eq!(b.red_orbs, 1);
    assert_eq!(b.blue_orbs, 1);
    // growing an own stack below capacity
    b.make_move(1, 1).unwrap();
    assert_eq!(
        cell(&b, 1, 1).state,
        CellState::Occupied { player: Player::Red, orbs: 2 }
    );
    assert_eq!(b.red_orbs, 2);
    assert_eq!(b.blue_orbs, 1);
}

#[test]
fn turn_alternates_while_ongoing() {
    let mut b = Board::new(3, 3, Player::Red);
    assert_eq!(b.current_turn, Player::Red);
    b.make_move(0, 0).unwrap();
    assert_eq!(b.current_turn, Player::Blue);
    b.make_move(2, 2).unwrap();
    assert_eq!(b.current_turn, Player::Red);
    b.make_move(1, 1).unwrap();
    assert_eq!(b.current_turn, Player::Blue);
}

#[test]
fn turn_does_not_change_on_the_winning_move() {
    let mut b = Board::new(2, 2, Player::Red);
    b.make_move(0, 0).unwrap();
    b.current_turn = Player::Red;
    b.make_move(0, 0).unwrap();
    assert_eq!(b.game_state, GameState::Won { winner: Player::Red });
    assert_eq!(b.current_turn, Player::Red);
}

#[test]
fn two_by_two_double_placement_scenario() {
    let mut b = Board::new(2, 2, Player::Red);
    b.make_move(0, 0).unwrap();
    assert_eq!(
        cell(&b, 0, 0).state,
        CellState::Occupied { player: Player::Red, orbs: 1 }
    );
    b.current_turn = Player::Red;
    b.make_move(0, 0).unwrap();
    // the second placement reaches capacity 2 and explodes
    assert_eq!(cell(&b, 0, 0).state, CellState::Empty);
    assert_eq!(
        cell(&b, 0, 1).state,
        CellState::Occupied { player: Player::Red, orbs: 1 }
    );
    assert_eq!(
        cell(&b, 1, 0).state,
        CellState::Occupied { player: Player::Red, orbs: 1 }
    );
    assert_eq!(b.red_orbs, 2);
    assert_eq!(b.blue_orbs, 0);
    assert_eq!(b.total_moves, 2);
    assert_eq!(b.game_state, GameState::Won { winner: Player::Red });
}

#[test]
fn explosion_captures_enemy_cells() {
    let mut b = Board::new(3, 3, Player::Red);
    b.make_move(0, 0).unwrap();
    b.make_move(0, 1).unwrap(); // Blue
    b.make_move(0, 0).unwrap(); // Red brings the corner to capacity
    assert_eq!(cell(&b, 0, 0).state, CellState::Empty);
    assert_eq!(
        cell(&b, 0, 1).state,
        CellState::Occupied { player: Player::Red, orbs: 2 }
    );
    assert_eq!(
        cell(&b, 1, 0).state,
        CellState::Occupied { player: Player::Red, orbs: 1 }
    );
    assert_eq!(b.red_orbs, 3);
    assert_eq!(b.blue_orbs, 0);
    // Blue lost its only orbs after the protected opening: Red wins
    assert_eq!(b.game_state, GameState::Won { winner: Player::Red });
}

#[test]
fn orbs_are_conserved_through_cascades() {
    let mut b = Board::new(3, 3, Player::Red);
    let moves = [(0, 0), (2, 2), (0, 0), (2, 2), (0, 1), (2, 1)];
    for (k, (r, c)) in moves.iter().enumerate() {
        if b.game_state != GameState::Ongoing {
            break;
        }
        b.make_move(*r, *c).unwrap();
        let n = (k + 1) as u64;
        assert_eq!(total_orbs(&b), n);
        assert_eq!(b.red_orbs + b.blue_orbs, n);
        assert_eq!(b.red_orbs, side_orbs(&b, Player::Red));
        assert_eq!(b.blue_orbs, side_orbs(&b, Player::Blue));
        assert!(b.cells.iter().all(|cl| !cl.is_queued));
    }
}

#[test]
fn no_premature_decision_in_the_opening() {
    let mut b = Board::new(3, 3, Player::Red);
    b.make_move(0, 0).unwrap();
    // only Red holds orbs, but the counter is still 1: no decision yet
    assert_eq!(b.game_state, GameState::Ongoing);
}

#[test]
fn ongoing_while_both_sides_hold_orbs() {
    let mut b = Board::new(3, 3, Player::Red);
    b.make_move(0, 0).unwrap();
    b.make_move(2, 2).unwrap();
    b.make_move(1, 1).unwrap();
    assert_eq!(b.game_state, GameState::Ongoing);
    assert!(b.red_orbs > 0 && b.blue_orbs > 0);
}

#[test]
fn legal_moves_are_row_major_and_exclude_enemy_cells() {
    let mut b = Board::new(2, 2, Player::Red);
    b.make_move(0, 0).unwrap();
    // Blue to move: every cell but Red's corner
    assert_eq!(b.get_all_valid_moves(), vec![(0, 1), (1, 0), (1, 1)]);
    b.make_move(1, 1).unwrap();
    // Red to move again: its own corner is legal, Blue's is not
    assert_eq!(b.get_all_valid_moves(), vec![(0, 0), (0, 1), (1, 0)]);
}

#[test]
fn history_records_each_explosion_and_the_final_state() {
    let mut b = Board::new(3, 3, Player::Red);
    b.make_move(0, 0).unwrap();
    b.make_move(2, 2).unwrap();
    let history = b.make_move_and_get_history(0, 0).unwrap();
    // one explosion snapshot plus the final state
    assert_eq!(history.len(), 2);
    let last = history.last().unwrap();
    assert_eq!(last.total_moves, b.total_moves);
    assert_eq!(last.current_turn, b.current_turn);
    assert_eq!(last.game_state, b.game_state);
    for i in 0..b.cells.len() {
        assert_eq!(last.cells[i].state, b.cells[i].state);
    }
    let quiet = b.make_move_and_get_history(1, 1).unwrap();
    assert_eq!(quiet.len(), 1);
}

#[test]
fn simulation_move_matches_the_real_one() {
    let mut a = Board::new(3, 3, Player::Red);
    let mut s = Board::new(3, 3, Player::Red);
    for (r, c) in [(0, 0), (0, 1), (0, 0)] {
        a.make_move(r, c).unwrap();
        s.make_move_for_simulation(r, c, None).unwrap();
    }
    assert_eq!(a.red_orbs, s.red_orbs);
    assert_eq!(a.blue_orbs, s.blue_orbs);
    assert_eq!(a.current_turn, s.current_turn);
    assert_eq!(a.game_state, s.game_state);
    for i in 0..a.cells.len() {
        assert_eq!(a.cells[i].state, s.cells[i].state);
    }
}

#[test]
fn expired_deadline_aborts_a_cascading_simulation() {
    let mut b = Board::new(3, 3, Player::Red);
    b.make_move(0, 0).unwrap();
    b.make_move(2, 2).unwrap();
    let past = chain_reaction::deadline_after(0);
    assert!(past.is_some());
    // the third placement would cascade; the dead deadline aborts it
    let r = b.make_move_for_simulation(0, 0, past.as_ref());
    assert_eq!(r, Err(GameError::SearchAborted));
    assert!(b.cells.iter().all(|cl| !cl.is_queued));
    assert_eq!(total_orbs(&b), 3);
}

#[test]
fn recalculate_orb_counts_rederives_totals() {
    let mut b = Board::new(3, 3, Player::Red);
    b.make_move(1, 1).unwrap();
    b.make_move(0, 0).unwrap();
    b.red_orbs = 77;
    b.blue_orbs = 99;
    b.recalculate_orb_counts();
    assert_eq!(b.red_orbs, 1);
    assert_eq!(b.blue_orbs, 1);
}

#[test]
fn cell_new_and_add_orb() {
    let mut c = Cell::new(3);
    assert_eq!(c.state, CellState::Empty);
    assert_eq!(c.critical_mass, 3);
    assert!(!c.is_queued);
    assert!(c.add_orb(Player::Red));
    assert_eq!(c.state, CellState::Occupied { player: Player::Red, orbs: 1 });
    assert!(c.add_orb(Player::Red));
    assert_eq!(c.state, CellState::Occupied { player: Player::Red, orbs: 2 });
    assert!(!c.add_orb(Player::Blue));
    assert_eq!(c.state, CellState::Occupied { player: Player::Red, orbs: 2 });
}

#[test]
fn cell_explosion_data_and_take_over() {
    let mut c = Cell::new(2);
    assert_eq!(c.get_explosion_data(), None);
    c.add_orb(Player::Blue);
    assert_eq!(c.get_explosion_data(), None);
    c.add_orb(Player::Blue);
    assert_eq!(c.get_explosion_data(), Some((Player::Blue, 2)));
    c.take_over(Player::Red);
    assert_eq!(c.state, CellState::Occupied { player: Player::Red, orbs: 3 });
    let mut e = Cell::new(4);
    e.take_over(Player::Red);
    assert_eq!(e.state, CellState::Occupied { player: Player::Red, orbs: 1 });
}

#[test]
fn snapshot_carries_the_whole_position() {
    let mut b = Board::new(2, 3, Player::Red);
    b.make_move(1, 1).unwrap();
    b.make_move(0, 0).unwrap();
    let d = convert_board_to_state_data(&b);
    assert_eq!(d.board.len(), 3);
    assert!(d.board.iter().all(|row| row.len() == 2));
    assert_eq!(d.board[1][1].player, Some(Player::Red));
    assert_eq!(d.board[1][1].orbs, 1);
    assert_eq!(d.board[0][0].player, Some(Player::Blue));
    assert_eq!(d.board[0][1].player, None);
    assert_eq!(d.board[0][1].orbs, 0);
    assert_eq!(d.board[0][0].critical_mass, 2);
    assert_eq!(d.current_player, Player::Red);
    assert_eq!(d.game_status, GameState::Ongoing);
    assert_eq!(d.winner, None);
    assert_eq!(d.red_orbs, 1);
    assert_eq!(d.blue_orbs, 1);
    assert_eq!(d.total_moves, 2);
}

#[test]
fn snapshot_of_a_decided_game_names_the_winner() {
    let mut b = Board::new(2, 2, Player::Red);
    b.make_move(0, 0).unwrap();
    b.current_turn = Player::Red;
    b.make_move(0, 0).unwrap();
    let d = convert_board_to_state_data(&b);
    assert_eq!(d.game_status, GameState::Won { winner: Player::Red });
    assert_eq!(d.winner, Some(Player::Red));
}

#[test]
fn game_manager_starts_empty() {
    let g = GameManager::new();
    assert!(g.board.is_none());
    assert!(g.config.is_none());
}

#[test]
fn well_formedness_check_accepts_played_boards() {
    let mut b = Board::new(3, 3, Player::Red);
    assert!(b.is_well_formed());
    for (r, c) in [(0, 0), (2, 2), (1, 1), (2, 2), (0, 0)] {
        b.make_move(r, c).unwrap();
        assert!(b.is_well_formed());
    }
    assert_eq!(b.game_state, GameState::Ongoing);
}

#[test]
fn well_formedness_check_rejects_tampered_boards() {
    let mut stale = Board::new(3, 3, Player::Red);
    stale.make_move(1, 1).unwrap();
    stale.red_orbs = 5;
    assert!(!stale.is_well_formed());

    let mut wrong_cap = Board::new(3, 3, Player::Red);
    wrong_cap.cells[0].critical_mass = 9;
    assert!(!wrong_cap.is_well_formed());

    let mut flagged = Board::new(3, 3, Player::Red);
    flagged.cells[4].is_queued = true;
    assert!(!flagged.is_well_formed());

    let mut drifted = Board::new(3, 3, Player::Red);
    drifted.total_moves = 3;
    assert!(!drifted.is_well_formed());

    let mut undecided = Board::new(3, 3, Player::Red);
    undecided.make_move(0, 0).unwrap();
    undecided.current_turn = Player::Red;
    undecided.make_move(0, 1).unwrap();
    // two moves in, only Red holds orbs, yet the status says ongoing
    undecided.game_state = GameState::Ongoing;
    assert!(!undecided.is_well_formed());
}

#[test]
fn clones_share_no_mutable_state() {
    let mut b = Board::new(3, 3, Player::Red);
    b.make_move(0, 0).unwrap();
    let snapshot = b.clone();
    let mut copy = b.clone();
    copy.make_move(2, 2).unwrap();
    copy.make_move(0, 0).unwrap();
    assert_eq!(b.total_moves, snapshot.total_moves);
    assert_eq!(b.red_orbs, snapshot.red_orbs);
    for i in 0..b.cells.len() {
        assert_eq!(b.cells[i].state, snapshot.cells[i].state);
    }
}

#[test]
fn interior_explosion_feeds_all_four_neighbors() {
    let mut b = Board::new(3, 3, Player::Red);
    for (r, c) in [(1, 1), (2, 2), (1, 1), (2, 2), (1, 1), (0, 0), (1, 1)] {
        b.make_move(r, c).unwrap();
    }
    // the fourth orb brings the center to its capacity of 4; its explosion
    // hands one orb to each orthogonal neighbor and captures Blue's stacks
    assert_eq!(cell(&b, 1, 1).state, CellState::Empty);
    assert_eq!(cell(&b, 0, 1).state, CellState::Occupied { player: Player::Red, orbs: 1 });
    assert_eq!(cell(&b, 1, 0).state, CellState::Occupied { player: Player::Red, orbs: 1 });
    assert_eq!(cell(&b, 1, 2).state, CellState::Occupied { player: Player::Red, orbs: 2 });
    assert_eq!(cell(&b, 2, 1).state, CellState::Occupied { player: Player::Red, orbs: 2 });
    assert_eq!(b.red_orbs, 6);
    assert_eq!(b.blue_orbs, 1);
    assert_eq!(total_orbs(&b), 7);
    assert_eq!(b.game_state, GameState::Ongoing);
}
