//! A territory-capture board game with chain-reaction cascades, plus a
//! time-bounded alpha-beta computer opponent over pluggable heuristics.
//!
//! The board engine applies a placement and resolves its cascade to a fixed
//! point, conserving orbs exactly; the search engine repeatedly clones the
//! board, applies candidate moves through the same engine, and scores leaves
//! with a caller-chosen set of heuristics from a fixed point of view.

pub mod ai;
pub mod board;
pub mod cascade_model;
pub mod clock;
pub mod explosion;
pub mod game;
pub mod grid;
pub mod heuristics;
pub mod moves;
pub mod pruning;
pub mod state_data;

pub use ai::alphabeta;
pub use ai::evaluate_board;
pub use ai::find_best_move_at_depth;
pub use ai::find_best_move_minimax;
pub use ai::get_ai_move;
pub use ai::minimax;
pub use ai::parse_heuristic;
pub use ai::parse_strategy;
pub use ai::safe_mobility;
pub use ai::AIStrategy;
pub use ai::Heuristic;
pub use ai::MAX_HEURISTICS;
pub use board::Board;
pub use clock::deadline_after;
pub use game::Cell;
pub use game::CellState;
pub use game::GameError;
pub use game::GameState;
pub use game::Player;
pub use heuristics::EVAL_CELLS_MAX;
pub use heuristics::EVAL_MOVES_MAX;
pub use moves::MOVE_LIMIT;
pub use state_data::convert_board_to_state_data;
pub use state_data::AIConfigData;
pub use state_data::CellData;
pub use state_data::GameConfigData;
pub use state_data::GameManager;
pub use state_data::GameStateData;
pub use state_data::PlayerConfigData;
