//! The evaluator and the search engine: exact heuristic values, the win
//! short-circuit, SafeMobility scenarios, random and alpha-beta move
//! selection, pruning against the unpruned reference, and iterative
//! deepening against a one-shot pass.

use chain_reaction::{
    alphabeta, evaluate_board, find_best_move_at_depth, find_best_move_minimax, get_ai_move,
    minimax, parse_heuristic, parse_strategy, safe_mobility, AIStrategy, Board, GameError,
    GameState, Heuristic, Player,
};

/// A 3x3 midgame position with both sides on the board.
fn midgame() -> Board {
    let mut b = Board::new(3, 3, Player::Red);
    for (r, c) in [(0, 0), (2, 2), (1, 1), (2, 1), (0, 1)] {
        b.make_move(r, c).unwrap();
    }
    assert_eq!(b.game_state, GameState::Ongoing);
    b
}

#[test]
fn orb_difference_is_exact() {
    let mut b = Board::new(3, 3, Player::Red);
    b.make_move(0, 0).unwrap();
    b.make_move(2, 2).unwrap();
    b.make_move(1, 1).unwrap();
    // Red 2, Blue 1
    assert_eq!(evaluate_board(&b, &[Heuristic::OrbDifference], Player::Red), 1);
    assert_eq!(evaluate_board(&b, &[Heuristic::OrbDifference], Player::Blue), -1);
}

#[test]
fn peripheral_control_weighs_corners_edges_interior() {
    let mut b = Board::new(3, 3, Player::Red);
    b.make_move(0, 0).unwrap(); // Red corner: 3
    b.make_move(1, 1).unwrap(); // Blue interior: 1
    b.make_move(2, 1).unwrap(); // Red edge: 2
    assert_eq!(evaluate_board(&b, &[Heuristic::PeripheralControl], Player::Red), 4);
    assert_eq!(evaluate_board(&b, &[Heuristic::PeripheralControl], Player::Blue), -4);
}

#[test]
fn territory_control_counts_cells_not_orbs() {
    let mut b = Board::new(3, 3, Player::Red);
    b.make_move(0, 0).unwrap();
    b.make_move(1, 1).unwrap();
    b.make_move(0, 1).unwrap();
    // Red holds two cells, Blue one
    assert_eq!(evaluate_board(&b, &[Heuristic::TerritoryControl], Player::Red), 1);
}

#[test]
fn chain_potential_counts_cells_one_below_capacity() {
    let mut b = Board::new(3, 3, Player::Red);
    b.make_move(0, 0).unwrap(); // Red corner at 1 of 2: one below capacity
    b.make_move(1, 1).unwrap(); // Blue interior at 1 of 4: not
    assert_eq!(evaluate_board(&b, &[Heuristic::ChainReactionPotential], Player::Red), 5);
    assert_eq!(evaluate_board(&b, &[Heuristic::ChainReactionPotential], Player::Blue), -5);
}

#[test]
fn conversion_potential_sums_captureable_enemy_mass() {
    let mut b = Board::new(3, 3, Player::Red);
    b.make_move(0, 0).unwrap(); // Red corner, one below capacity
    b.make_move(0, 1).unwrap(); // Blue adjacent with 1 orb
    b.make_move(2, 2).unwrap(); // Red far corner, also one below capacity
    b.make_move(0, 1).unwrap(); // Blue grows the adjacent stack to 2
    // Red's trigger (0,0) would capture Blue's 2 orbs; Blue's trigger (0,1)
    // at 2 of 3 would capture Red's single corner orb; (2,2) sees no enemy.
    assert_eq!(
        evaluate_board(&b, &[Heuristic::ConversionPotential], Player::Red),
        2 - 1
    );
}

#[test]
fn cascade_potential_adds_secondary_chain_bonus() {
    let mut b = Board::new(3, 3, Player::Red);
    b.make_move(0, 0).unwrap(); // Red corner at 1 of 2: trigger
    b.make_move(2, 2).unwrap(); // Blue far corner at 1 of 2: trigger too
    b.make_move(0, 1).unwrap(); // Red edge at 1 of 3: neighbor of (0,0)
    b.make_move(1, 2).unwrap(); // Blue edge at 1 of 3: neighbor of (2,2)
    // Red trigger (0,0): neighbor orbs 1; Blue trigger (2,2): neighbor orbs 1
    assert_eq!(evaluate_board(&b, &[Heuristic::CascadePotential], Player::Red), 0);
    // charge (0,1) to 2 of 3: now one below capacity, earning the bonus for
    // Red's trigger, while (0,0) in turn earns it as (0,1)'s own neighbor
    b.make_move(0, 1).unwrap(); // Red
    b.make_move(2, 1).unwrap(); // Blue edge at 1 of 3: second neighbor of (2,2)
    // Red (0,0): neighbor (0,1) gives 2+5 -> +7
    // Red (0,1): neighbors (0,0) gives 1+5 -> +6
    // Blue (2,2): neighbors (1,2)=1 and (2,1)=1 -> -2
    assert_eq!(evaluate_board(&b, &[Heuristic::CascadePotential], Player::Red), 11);
    assert_eq!(evaluate_board(&b, &[Heuristic::CascadePotential], Player::Blue), -11);
}

#[test]
fn decided_games_evaluate_to_the_extremes() {
    let mut b = Board::new(2, 2, Player::Red);
    b.make_move(0, 0).unwrap();
    b.current_turn = Player::Red;
    b.make_move(0, 0).unwrap();
    assert_eq!(b.game_state, GameState::Won { winner: Player::Red });
    let hs = [Heuristic::OrbDifference, Heuristic::PeripheralControl];
    assert_eq!(evaluate_board(&b, &hs, Player::Red), i64::MAX);
    assert_eq!(evaluate_board(&b, &hs, Player::Blue), i64::MIN);
}

#[test]
fn empty_heuristic_set_evaluates_to_zero() {
    let b = midgame();
    assert_eq!(evaluate_board(&b, &[], Player::Red), 0);
    assert_eq!(evaluate_board(&b, &[], Player::Blue), 0);
}

#[test]
fn safe_mobility_is_zero_when_every_move_invites_an_explosion() {
    // Blue holds one corner orb on a 2x2 board of capacity-2 cells: after any
    // Red move, Blue can reply on its own corner and reach capacity.
    let mut b = Board::new(2, 2, Player::Red);
    b.current_turn = Player::Blue;
    b.make_move(0, 0).unwrap();
    assert_eq!(b.current_turn, Player::Red);
    assert_eq!(safe_mobility(&b, Player::Red), 0);
}

#[test]
fn safe_mobility_counts_every_move_on_a_quiet_board() {
    let b = Board::new(4, 4, Player::Red);
    // no reply can reach any capacity after a single opening placement
    assert_eq!(safe_mobility(&b, Player::Red), 16);
    let mut e = Board::new(3, 3, Player::Red);
    e.make_move(1, 1).unwrap();
    assert_eq!(
        evaluate_board(&e, &[Heuristic::SafeMobility], Player::Blue),
        8
    );
}

#[test]
fn random_strategy_returns_a_legal_move() {
    let mut b = Board::new(3, 3, Player::Red);
    b.make_move(0, 0).unwrap();
    for _ in 0..20 {
        let (r, c) = get_ai_move(&b, AIStrategy::Random, &[], 1, 0).unwrap();
        let mut copy = b.clone();
        assert!(copy.make_move(r, c).is_ok());
    }
}

#[test]
fn ai_query_on_a_decided_board_fails_with_game_over() {
    let mut b = Board::new(2, 2, Player::Red);
    b.make_move(0, 0).unwrap();
    b.current_turn = Player::Red;
    b.make_move(0, 0).unwrap();
    assert_eq!(
        get_ai_move(&b, AIStrategy::Random, &[], 1, 10),
        Err(GameError::GameOver)
    );
    assert_eq!(
        get_ai_move(&b, AIStrategy::AlphaBeta, &[Heuristic::OrbDifference], 2, 10),
        Err(GameError::GameOver)
    );
}

#[test]
fn pruned_search_matches_unpruned_minimax() {
    let hs = [Heuristic::OrbDifference, Heuristic::PeripheralControl];
    for depth in 1..=3u32 {
        let b = midgame();
        let pruned = find_best_move_at_depth(&b, &hs, depth, None).unwrap();
        let unpruned = find_best_move_minimax(&b, &hs, depth);
        assert_eq!(pruned, unpruned, "depth {depth}");
        let pov = b.current_turn;
        let score = alphabeta(&b, depth, i64::MIN, i64::MAX, true, &hs, pov, None).unwrap();
        let reference = minimax(&b, depth, true, &hs, pov);
        assert_eq!(score, reference, "depth {depth}");
    }
}

#[test]
fn pruned_search_matches_unpruned_minimax_from_the_opening() {
    let hs = [
        Heuristic::OrbDifference,
        Heuristic::TerritoryControl,
        Heuristic::ChainReactionPotential,
    ];
    let mut b = Board::new(3, 3, Player::Red);
    b.make_move(1, 1).unwrap();
    let pruned = find_best_move_at_depth(&b, &hs, 3, None).unwrap();
    let unpruned = find_best_move_minimax(&b, &hs, 3);
    assert_eq!(pruned, unpruned);
}

#[test]
fn iterative_deepening_matches_a_direct_pass_under_a_loose_budget() {
    let hs = [Heuristic::OrbDifference, Heuristic::PeripheralControl];
    let b = midgame();
    let direct = find_best_move_at_depth(&b, &hs, 3, None).unwrap();
    let deepened = get_ai_move(&b, AIStrategy::AlphaBeta, &hs, 3, 600_000).unwrap();
    assert_eq!(deepened, direct);
}

#[test]
fn exhausted_budget_falls_back_to_the_first_legal_move() {
    let mut b = Board::new(3, 3, Player::Red);
    b.make_move(0, 0).unwrap();
    // Blue to move with no time at all: the first legal cell is (0,1)
    let m = get_ai_move(&b, AIStrategy::AlphaBeta, &[Heuristic::OrbDifference], 4, 0).unwrap();
    assert_eq!(m, (0, 1));
}

#[test]
fn alpha_beta_takes_an_immediate_win() {
    // Red can win at once by exploding its corner and wiping Blue out.
    let mut b = Board::new(3, 3, Player::Red);
    b.make_move(0, 0).unwrap();
    b.make_move(0, 1).unwrap(); // Blue's only orbs sit next to Red's trigger
    let m = get_ai_move(&b, AIStrategy::AlphaBeta, &[Heuristic::OrbDifference], 2, 600_000)
        .unwrap();
    assert_eq!(m, (0, 0));
    b.make_move(m.0, m.1).unwrap();
    assert_eq!(b.game_state, GameState::Won { winner: Player::Red });
}

#[test]
fn configuration_names_resolve_to_strategies_and_heuristics() {
    assert_eq!(parse_strategy("AlphaBeta"), AIStrategy::AlphaBeta);
    assert_eq!(parse_strategy("Random"), AIStrategy::Random);
    assert_eq!(parse_heuristic("OrbDifference"), Heuristic::OrbDifference);
    assert_eq!(parse_heuristic("PeripheralControl"), Heuristic::PeripheralControl);
    assert_eq!(parse_heuristic("TerritoryControl"), Heuristic::TerritoryControl);
    assert_eq!(
        parse_heuristic("ChainReactionPotential"),
        Heuristic::ChainReactionPotential
    );
    assert_eq!(parse_heuristic("ConversionPotential"), Heuristic::ConversionPotential);
    assert_eq!(parse_heuristic("CascadePotential"), Heuristic::CascadePotential);
    assert_eq!(parse_heuristic("SafeMobility"), Heuristic::SafeMobility);
}

#[test]
fn unknown_configuration_names_resolve_to_the_defaults() {
    assert_eq!(parse_strategy("Clairvoyance"), AIStrategy::Random);
    assert_eq!(parse_strategy(""), AIStrategy::Random);
    assert_eq!(parse_heuristic("Bogus"), Heuristic::OrbDifference);
    assert_eq!(parse_heuristic(""), Heuristic::OrbDifference);
}
