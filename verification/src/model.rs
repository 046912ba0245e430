//! The in-memory representation of one game-state snapshot: the grid of
//! cells, both sides' worms, and the positional query helpers.

use vstd::prelude::*;

verus! {

/// An (x, y) coordinate pair on the square map. A coordinate is valid when it
/// lies in `[0, map_size)`.
#[derive(Clone, Copy, Debug, PartialEq, Eq, Structural)]
pub struct Position {
    pub x: u32,
    pub y: u32,
}

/// Weapon statistics of a worm on the controlled side.
#[derive(Clone, Copy, Debug, PartialEq, Eq, Structural)]
pub struct Weapon {
    pub damage: u32,
    pub range: u32,
}

/// Terrain of one grid square.
#[derive(Clone, Copy, Debug, PartialEq, Eq, Structural)]
pub enum CellType {
    Air,
    Dirt,
    DeepSpace,
}

/// The kind of a collectible powerup.
#[derive(Clone, Copy, Debug, PartialEq, Eq, Structural)]
pub enum PowerupType {
    HealthPack,
}

/// A collectible powerup lying on a cell.
#[derive(Clone, Copy, Debug, PartialEq, Eq, Structural)]
pub struct Powerup {
    pub powerup_type: PowerupType,
    pub value: u32,
}

/// A worm owned by the controlled player, with full detail including its
/// weapon.
#[derive(Clone, Copy, Debug, PartialEq, Eq, Structural)]
pub struct PlayerWorm {
    pub id: u32,
    pub health: u32,
    pub position: Position,
    pub digging_range: u32,
    pub movement_range: u32,
    pub weapon: Weapon,
}

/// A worm owned by an opponent. Opponent weapon statistics are unknown to the
/// viewer, so there is no weapon field.
#[derive(Clone, Copy, Debug, PartialEq, Eq, Structural)]
pub struct OpponentWorm {
    pub id: u32,
    pub health: u32,
    pub position: Position,
    pub digging_range: u32,
    pub movement_range: u32,
}

/// The worm occupying a cell. The two variants are distinguished purely
/// structurally in the wire format: only the player-owned shape carries a
/// weapon sub-object.
#[derive(Clone, Copy, Debug, PartialEq, Eq, Structural)]
pub enum CellWorm {
    PlayerWorm {
        id: u32,
        player_id: u32,
        health: u32,
        position: Position,
        digging_range: u32,
        movement_range: u32,
        weapon: Weapon,
    },
    OpponentWorm {
        id: u32,
        player_id: u32,
        health: u32,
        position: Position,
        digging_range: u32,
        movement_range: u32,
    },
}

/// One grid square: its own coordinates, terrain, and optional occupier and
/// powerup. Absence of an occupier or powerup is an explicit `None`.
#[derive(Clone, Copy, Debug, PartialEq, Eq, Structural)]
pub struct Cell {
    pub x: u32,
    pub y: u32,
    pub cell_type: CellType,
    pub occupier: Option<CellWorm>,
    pub powerup: Option<Powerup>,
}

/// The controlled player's full data.
#[derive(Clone, Debug, PartialEq, Eq)]
#[verifier::ext_equal]
pub struct Player {
    pub id: u32,
    pub score: u32,
    pub health: u32,
    pub worms: Vec<PlayerWorm>,
}

/// An opponent summary: reduced worm detail, no weapons.
#[derive(Clone, Debug, PartialEq, Eq)]
#[verifier::ext_equal]
pub struct Opponent {
    pub id: u32,
    pub score: u32,
    pub worms: Vec<OpponentWorm>,
}

/// The root snapshot: one full view of the game at the start of a turn.
/// The map's outer sequence holds rows (indexed by y), the inner columns
/// (indexed by x).
#[derive(Clone, Debug, PartialEq, Eq)]
#[verifier::ext_equal]
pub struct State {
    pub current_round: u32,
    pub max_rounds: u32,
    pub map_size: u32,
    pub current_worm_id: u32,
    pub consecutive_do_nothing_count: u32,
    pub my_player: Player,
    pub opponents: Vec<Opponent>,
    pub map: Vec<Vec<Cell>>,
}

/// Mathematical model of a [`Player`]: the worm vector as a sequence.
#[verifier::ext_equal]
pub struct PlayerV {
    pub id: u32,
    pub score: u32,
    pub health: u32,
    pub worms: Seq<PlayerWorm>,
}

/// Mathematical model of an [`Opponent`].
#[verifier::ext_equal]
pub struct OpponentV {
    pub id: u32,
    pub score: u32,
    pub worms: Seq<OpponentWorm>,
}

/// Mathematical model of a [`State`]: every vector replaced by a sequence.
#[verifier::ext_equal]
pub struct StateV {
    pub current_round: u32,
    pub max_rounds: u32,
    pub map_size: u32,
    pub current_worm_id: u32,
    pub consecutive_do_nothing_count: u32,
    pub my_player: PlayerV,
    pub opponents: Seq<OpponentV>,
    pub map: Seq<Seq<Cell>>,
}

impl View for Player {
    type V = PlayerV;

    open spec fn view(&self) -> PlayerV {
        PlayerV { id: self.id, score: self.score, health: self.health, worms: self.worms@ }
    }
}

impl View for Opponent {
    type V = OpponentV;

    open spec fn view(&self) -> OpponentV {
        OpponentV { id: self.id, score: self.score, worms: self.worms@ }
    }
}

impl View for State {
    type V = StateV;

    open spec fn view(&self) -> StateV {
        StateV {
            current_round: self.current_round,
            max_rounds: self.max_rounds,
            map_size: self.map_size,
            current_worm_id: self.current_worm_id,
            consecutive_do_nothing_count: self.consecutive_do_nothing_count,
            my_player: self.my_player@,
            opponents: self.opponents@.map_values(|o: Opponent| o@),
            map: self.map@.map_values(|row: Vec<Cell>| row@),
        }
    }
}

/// Whether cell `c` sits at the queried position.
pub open spec fn cell_matches(c: Cell, pos: Position) -> bool {
    c.x == pos.x && c.y == pos.y
}

impl State {
    /// Whether `current_worm_id` names some entry of `my_player.worms`: the
    /// well-formedness condition that [`State::active_worm`] depends on.
    pub open spec fn has_active_worm(&self) -> bool {
        exists|k: int|
            0 <= k < self.my_player.worms@.len() && self.my_player.worms@[k].id
                == self.current_worm_id
    }

    /// Whether some cell of the map sits at `pos`: the well-formedness
    /// condition that [`State::cell_at`] depends on.
    pub open spec fn has_cell(&self, pos: Position) -> bool {
        exists|i: int, j: int|
            0 <= i < self.map@.len() && 0 <= j < self.map@[i]@.len() && cell_matches(
                self.map@[i]@[j],
                pos,
            )
    }

    /// The map is a fully populated `map_size` x `map_size` grid whose cell at
    /// row i, column j carries coordinates x == j, y == i.
    pub open spec fn grid_wf(&self) -> bool {
        &&& self.map@.len() == self.map_size
        &&& forall|i: int|
            0 <= i < self.map@.len() ==> (#[trigger] self.map@[i])@.len() == self.map_size
        &&& forall|i: int, j: int|
            0 <= i < self.map@.len() && 0 <= j < self.map@[i]@.len()
                ==> (#[trigger] self.map@[i]@[j]).x == j && self.map@[i]@[j].y == i
    }

    /// The first worm of the controlled player whose id equals
    /// `current_worm_id`. An id that is absent from the player's worms is an
    /// internal inconsistency of the snapshot, ruled out by `requires` rather
    /// than reported as a recoverable error.
    pub fn active_worm(&self) -> (w: &PlayerWorm)
        requires
            self.has_active_worm(),
        ensures
            w.id == self.current_worm_id,
            exists|k: int|
                0 <= k < self.my_player.worms@.len() && self.my_player.worms@[k] == *w && (forall|
                    j: int,
                |
                    0 <= j < k ==> self.my_player.worms@[j].id != self.current_worm_id),
    {
        let worms = &self.my_player.worms;
        let mut k: usize = 0;
        while k < worms.len()
            invariant
                k <= worms@.len(),
                worms == &self.my_player.worms,
                self.has_active_worm(),
                forall|j: int| 0 <= j < k ==> worms@[j].id != self.current_worm_id,
            decreases worms@.len() - k,
        {
            if worms[k].id == self.current_worm_id {
                return &worms[k];
            }
            k += 1;
        }
        // Unreachable: `has_active_worm` promises a match that the scan
        // cannot have passed over.
        proof {
            assert(false);
        }
        &self.my_player.worms[0]
    }

    /// The cell of the map at position `pos`, found by a row-major scan for
    /// the first cell whose stored coordinates equal `pos`. A position with no
    /// matching cell is an internal inconsistency of the snapshot, ruled out
    /// by `requires` rather than reported as a recoverable error. On a
    /// well-formed grid the result is exactly the cell at row `pos.y`, column
    /// `pos.x`.
    pub fn cell_at(&self, pos: &Position) -> (c: &Cell)
        requires
            self.has_cell(*pos),
        ensures
            cell_matches(*c, *pos),
            exists|i: int, j: int|
                0 <= i < self.map@.len() && 0 <= j < self.map@[i]@.len()
                    && (#[trigger] self.map@[i]@[j]) == *c && (forall|i0: int, j0: int|
                    0 <= i0 < self.map@.len() && 0 <= j0 < self.map@[i0]@.len() && (i0 < i || (i0
                        == i && j0 < j)) ==> !cell_matches(#[trigger] self.map@[i0]@[j0], *pos)),
            self.grid_wf() && pos.x < self.map_size && pos.y < self.map_size
                ==> *c == self.map@[pos.y as int]@[pos.x as int],
    {
        let rows = &self.map;
        let mut i: usize = 0;
        while i < rows.len()
            invariant
                i <= rows@.len(),
                rows == &self.map,
                self.has_cell(*pos),
                forall|i0: int, j0: int|
                    0 <= i0 < i && 0 <= j0 < rows@[i0]@.len() ==> !cell_matches(
                        #[trigger] rows@[i0]@[j0],
                        *pos,
                    ),
            decreases rows@.len() - i,
        {
            let row = &rows[i];
            let mut j: usize = 0;
            while j < row.len()
                invariant
                    i < rows@.len(),
                    j <= row@.len(),
                    row == &rows@[i as int],
                    rows == &self.map,
                    forall|i0: int, j0: int|
                        0 <= i0 < i && 0 <= j0 < rows@[i0]@.len() ==> !cell_matches(
                            #[trigger] rows@[i0]@[j0],
                            *pos,
                        ),
                    forall|j0: int|
                        0 <= j0 < j ==> !cell_matches(#[trigger] row@[j0], *pos),
                decreases row@.len() - j,
            {
                if row[j].x == pos.x && row[j].y == pos.y {
                    proof {
                        if self.grid_wf() && pos.x < self.map_size && pos.y < self.map_size {
                            assert(self.map@[i as int]@[j as int].x == j);
                            assert(self.map@[i as int]@[j as int].y == i);
                        }
                        assert forall|i0: int, j0: int|
                            0 <= i0 < self.map@.len() && 0 <= j0 < self.map@[i0]@.len() && (i0 < i
                                || (i0 == i && j0 < j)) implies !cell_matches(
                            #[trigger] self.map@[i0]@[j0],
                            *pos,
                        ) by {
                            if i0 == i {
                                assert(row@[j0] == self.map@[i0]@[j0]);
                            }
                        }
                        assert(self.map@[i as int]@[j as int] == row@[j as int]);
                    }
                    return &row[j];
                }
                j += 1;
            }
            i += 1;
        }
        // Unreachable: `has_cell` promises a match that the scan cannot have
        // passed over.
        proof {
            assert(false);
        }
        &self.map[0][0]
    }
}

/// On a well-formed grid every in-bounds position is matched by exactly one
/// cell: the one at row `pos.y`, column `pos.x`. This is the uniqueness that
/// makes the result of [`State::cell_at`] independent of scan order.
pub proof fn lemma_cell_at_unique(s: &State, pos: Position)
    requires
        s.grid_wf(),
        pos.x < s.map_size,
        pos.y < s.map_size,
    ensures
        cell_matches(s.map@[pos.y as int]@[pos.x as int], pos),
        forall|i: int, j: int|
            0 <= i < s.map@.len() && 0 <= j < s.map@[i]@.len() && cell_matches(
                #[trigger] s.map@[i]@[j],
                pos,
            ) ==> i == pos.y && j == pos.x,
        s.has_cell(pos),
{
    assert(cell_matches(s.map@[pos.y as int]@[pos.x as int], pos));
}

impl Position {
    /// Step `distance` cells towards smaller x, or `None` if that would go
    /// below zero. The result's coordinates are never negative by
    /// construction, and its y coordinate is unchanged.
    pub fn west(&self, distance: u32) -> (r: Option<Position>)
        ensures
            distance <= self.x ==> r == Some(Position { x: (self.x - distance) as u32, y: self.y }),
            distance > self.x ==> r is None,
    {
        if distance <= self.x {
            Some(Position { x: self.x - distance, y: self.y })
        } else {
            None
        }
    }

    /// Step `distance` cells towards larger x, or `None` unless the new x is
    /// strictly below `max`. A returned position always has `x < max`.
    pub fn east(&self, distance: u32, max: u32) -> (r: Option<Position>)
        ensures
            self.x + distance < max ==> r == Some(Position { x: (self.x + distance) as u32, y: self.y }),
            self.x + distance >= max ==> r is None,
            r matches Some(p) ==> p.x < max && p.y == self.y,
    {
        if distance <= u32::MAX - self.x {
            let nx = self.x + distance;
            if nx < max {
                Some(Position { x: nx, y: self.y })
            } else {
                None
            }
        } else {
            None
        }
    }

    /// Step `distance` cells towards smaller y, or `None` if that would go
    /// below zero. The result's coordinates are never negative by
    /// construction, and its x coordinate is unchanged.
    pub fn north(&self, distance: u32) -> (r: Option<Position>)
        ensures
            distance <= self.y ==> r == Some(Position { x: self.x, y: (self.y - distance) as u32 }),
            distance > self.y ==> r is None,
    {
        if distance <= self.y {
            Some(Position { x: self.x, y: self.y - distance })
        } else {
            None
        }
    }

    /// Step `distance` cells towards larger y, or `None` unless the new y is
    /// strictly below `max`. A returned position always has `y < max`.
    pub fn south(&self, distance: u32, max: u32) -> (r: Option<Position>)
        ensures
            self.y + distance < max ==> r == Some(Position { x: self.x, y: (self.y + distance) as u32 }),
            self.y + distance >= max ==> r is None,
            r matches Some(p) ==> p.y < max && p.x == self.x,
    {
        if distance <= u32::MAX - self.y {
            let ny = self.y + distance;
            if ny < max {
                Some(Position { x: self.x, y: ny })
            } else {
                None
            }
        } else {
            None
        }
    }
}

} // verus!
