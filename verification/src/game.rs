//! Core value types of the game: sides, cell contents, game status, a single
//! cell with its fixed capacity, and the error taxonomy.

use vstd::prelude::*;

verus! {

/// One of the two sides. There is no neutral side.
#[derive(Clone, Copy, PartialEq, Eq, Structural, Debug, Hash)]
pub enum Player {
    Red,
    Blue,
}

/// The opponent of a side.
pub open spec fn other(p: Player) -> Player {
    match p {
        Player::Red => Player::Blue,
        Player::Blue => Player::Red,
    }
}

impl Player {
    /// The opponent of this side.
    pub fn opponent(self) -> (r: Player)
        ensures
            r == other(self),
    {
        match self {
            Player::Red => Player::Blue,
            Player::Blue => Player::Red,
        }
    }
}

/// What a cell holds: nothing, or a stack of orbs owned by one side.
#[derive(Clone, Copy, PartialEq, Eq, Structural, Debug)]
pub enum CellState {
    Empty,
    Occupied { player: Player, orbs: u64 },
}

/// Whether the game is still running or has been won.
#[derive(Clone, Copy, PartialEq, Eq, Structural, Debug)]
pub enum GameState {
    Ongoing,
    Won { winner: Player },
}

/// Everything that can go wrong in the engine: rejected placements, a search
/// deadline that passed, and the (theoretical) random strategy failure.
#[derive(Clone, Copy, PartialEq, Eq, Structural, Debug)]
pub enum GameError {
    /// A move was attempted after the game was decided.
    GameOver,
    /// The target coordinates are not on the grid.
    OutOfBounds,
    /// The target cell is occupied by the side not currently moving.
    IllegalOwnership,
    /// A deadline passed during a time-bounded simulation.
    SearchAborted,
    /// The random strategy was invoked with no legal move available.
    /// Unreachable on a well-formed ongoing board, but kept so that a caller
    /// failure is explicit rather than an endless loop.
    RandomExhausted,
}

/// A single cell: its contents, its fixed capacity ("critical mass"), and a
/// transient flag used only while a cascade's worklist is being processed.
#[derive(Clone, Copy, PartialEq, Eq, Structural, Debug)]
pub struct Cell {
    pub state: CellState,
    pub critical_mass: u64,
    pub is_queued: bool,
}

/// Orbs the given side owns in this cell.
pub open spec fn cell_orbs_of(c: Cell, p: Player) -> nat {
    match c.state {
        CellState::Empty => 0,
        CellState::Occupied { player, orbs } => if player == p {
            orbs as nat
        } else {
            0
        },
    }
}

/// Orbs in this cell, whoever owns them.
pub open spec fn cell_orbs(c: Cell) -> nat {
    match c.state {
        CellState::Empty => 0,
        CellState::Occupied { orbs, .. } => orbs as nat,
    }
}

impl Cell {
    /// A fresh, empty, unqueued cell with the given capacity.
    pub fn new(critical_mass: u64) -> (c: Cell)
        ensures
            c.state == CellState::Empty,
            c.critical_mass == critical_mass,
            !c.is_queued,
    {
        Cell { state: CellState::Empty, critical_mass, is_queued: false }
    }

    /// Place one orb for `player`: occupies an empty cell at count 1, grows an
    /// own stack by 1, and refuses (returning false, unchanged) a cell held by
    /// the other side.
    pub fn add_orb(&mut self, player: Player) -> (ok: bool)
        requires
            cell_orbs(*old(self)) < u64::MAX,
        ensures
            final(self).critical_mass == old(self).critical_mass,
            final(self).is_queued == old(self).is_queued,
            match old(self).state {
                CellState::Empty => ok && final(self).state == (CellState::Occupied {
                    player,
                    orbs: 1,
                }),
                CellState::Occupied { player: p, orbs } => if p == player {
                    ok && final(self).state == (CellState::Occupied {
                        player,
                        orbs: (orbs + 1) as u64,
                    })
                } else {
                    !ok && final(self).state == old(self).state
                },
            },
    {
        match self.state {
            CellState::Empty => {
                self.state = CellState::Occupied { player, orbs: 1 };
                true
            },
            CellState::Occupied { player: p, orbs } => {
                if p == player {
                    self.state = CellState::Occupied { player, orbs: orbs + 1 };
                    true
                } else {
                    false
                }
            },
        }
    }

    /// The owner and count, but only when the cell is at or above capacity.
    pub fn get_explosion_data(&self) -> (r: Option<(Player, u64)>)
        ensures
            match self.state {
                CellState::Occupied { player, orbs } if orbs >= self.critical_mass => r == Some(
                    (player, orbs),
                ),
                _ => r is None,
            },
    {
        if let CellState::Occupied { player, orbs } = self.state {
            if orbs >= self.critical_mass {
                return Some((player, orbs));
            }
        }
        None
    }

    /// Capture by `player`: the cell becomes theirs with one more orb than it
    /// held, whoever held it before.
    pub fn take_over(&mut self, player: Player)
        requires
            cell_orbs(*old(self)) < u64::MAX,
        ensures
            final(self).critical_mass == old(self).critical_mass,
            final(self).is_queued == old(self).is_queued,
            final(self).state == (CellState::Occupied {
                player,
                orbs: (cell_orbs(*old(self)) + 1) as u64,
            }),
    {
        let orbs = match self.state {
            CellState::Occupied { orbs, .. } => orbs,
            CellState::Empty => 0,
        };
        self.state = CellState::Occupied { player, orbs: orbs + 1 };
    }
}

} // verus!
