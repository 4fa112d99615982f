//! Plain-data snapshots of the game for outside collaborators: per cell the
//! owner, count and capacity, plus turn, status, totals and move counter —
//! everything needed to serialize a transcript and rebuild an equivalent
//! board without re-deriving capacities.

use vstd::prelude::*;

use crate::ai::{AIStrategy, Heuristic};
use crate::board::Board;
use crate::game::{CellState, GameState, Player};

verus! {

/// One cell, flattened to plain values.
#[derive(Clone, Debug)]
pub struct CellData {
    pub player: Option<Player>,
    pub orbs: u64,
    pub critical_mass: u64,
}

/// A full board snapshot, flattened to plain values.
#[derive(Clone, Debug)]
pub struct GameStateData {
    pub board: Vec<Vec<CellData>>,
    pub current_player: Player,
    pub game_status: GameState,
    pub winner: Option<Player>,
    pub red_orbs: u64,
    pub blue_orbs: u64,
    pub total_moves: u64,
}

/// How a computer player is to be configured.
#[derive(Clone, Debug)]
pub struct AIConfigData {
    pub strategy: AIStrategy,
    pub depth: u32,
    pub heuristics: Vec<Heuristic>,
    pub time_limit_ms: u64,
}

/// One seat at the table: a human or a configured computer player.
#[derive(Clone, Debug)]
pub struct PlayerConfigData {
    pub player_type: String,
    pub name: String,
    pub ai_config: Option<AIConfigData>,
}

/// A whole game's configuration.
#[derive(Clone, Debug)]
pub struct GameConfigData {
    pub width: usize,
    pub height: usize,
    pub red_player: PlayerConfigData,
    pub blue_player: PlayerConfigData,
}

/// The long-lived session state a driver keeps between requests.
pub struct GameManager {
    pub board: Option<Board>,
    pub config: Option<GameConfigData>,
}

impl GameManager {
    /// A session with no game started yet.
    pub fn new() -> (g: GameManager)
        ensures
            g.board is None,
            g.config is None,
    {
        GameManager { board: None, config: None }
    }
}

/// Flatten a board into a snapshot: each cell's owner, count and capacity are
/// carried over exactly, as are turn, status, winner, totals and counter.
pub fn convert_board_to_state_data(board: &Board) -> (d: GameStateData)
    requires
        board.geometry_ok(),
    ensures
        d.current_player == board.current_turn,
        d.game_status == board.game_state,
        d.winner == (match board.game_state {
            GameState::Won { winner } => Some(winner),
            GameState::Ongoing => None::<Player>,
        }),
        d.red_orbs == board.red_orbs,
        d.blue_orbs == board.blue_orbs,
        d.total_moves == board.total_moves,
        d.board@.len() == board.height,
        forall|r: int| 0 <= r < board.height ==> (#[trigger] d.board@[r])@.len() == board.width,
        forall|r: int, c: int|
            0 <= r < board.height && 0 <= c < board.width ==> {
                let cd = #[trigger] d.board@[r]@[c];
                let cell = board.cell_at(r, c);
                &&& cd.critical_mass == cell.critical_mass
                &&& cd.player == (match cell.state {
                    CellState::Occupied { player, .. } => Some(player),
                    CellState::Empty => None::<Player>,
                })
                &&& cd.orbs == (match cell.state {
                    CellState::Occupied { orbs, .. } => orbs,
                    CellState::Empty => 0u64,
                })
            },
{
    let mut rows: Vec<Vec<CellData>> = Vec::new();
    let mut r: usize = 0;
    while r < board.height
        invariant
            board.geometry_ok(),
            r <= board.height,
            rows@.len() == r,
            forall|rr: int| 0 <= rr < r ==> (#[trigger] rows@[rr])@.len() == board.width,
            forall|rr: int, cc: int|
                0 <= rr < r && 0 <= cc < board.width ==> {
                    let cd = #[trigger] rows@[rr]@[cc];
                    let cell = board.cell_at(rr, cc);
                    &&& cd.critical_mass == cell.critical_mass
                    &&& cd.player == (match cell.state {
                        CellState::Occupied { player, .. } => Some(player),
                        CellState::Empty => None::<Player>,
                    })
                    &&& cd.orbs == (match cell.state {
                        CellState::Occupied { orbs, .. } => orbs,
                        CellState::Empty => 0u64,
                    })
                },
        decreases board.height - r,
    {
        let mut row: Vec<CellData> = Vec::new();
        let mut c: usize = 0;
        while c < board.width
            invariant
                board.geometry_ok(),
                r < board.height,
                c <= board.width,
                row@.len() == c,
                forall|cc: int|
                    0 <= cc < c ==> {
                        let cd = #[trigger] row@[cc];
                        let cell = board.cell_at(r as int, cc);
                        &&& cd.critical_mass == cell.critical_mass
                        &&& cd.player == (match cell.state {
                            CellState::Occupied { player, .. } => Some(player),
                            CellState::Empty => None::<Player>,
                        })
                        &&& cd.orbs == (match cell.state {
                            CellState::Occupied { orbs, .. } => orbs,
                            CellState::Empty => 0u64,
                        })
                    },
            decreases board.width - c,
        {
            let i = board.index_of(r, c);
            let cell = board.cells[i];
            let (player, orbs) = match cell.state {
                CellState::Empty => (None, 0u64),
                CellState::Occupied { player, orbs } => (Some(player), orbs),
            };
            row.push(CellData { player, orbs, critical_mass: cell.critical_mass });
            c = c + 1;
        }
        rows.push(row);
        r = r + 1;
    }
    let (game_status, winner) = match board.game_state {
        GameState::Ongoing => (GameState::Ongoing, None),
        GameState::Won { winner } => (GameState::Won { winner }, Some(winner)),
    };
    GameStateData {
        board: rows,
        current_player: board.current_turn,
        game_status,
        winner,
        red_orbs: board.red_orbs,
        blue_orbs: board.blue_orbs,
        total_moves: board.total_moves,
    }
}

} // verus!
