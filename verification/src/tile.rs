//! Per-cell content of the level grid.
//!
//! A tile is either solid rock (`Wall`) or carved-out floor (`Empty`), and an
//! empty tile carries a spawn tag recording what generation has decided about
//! it so far. `Unreachable` is transient: it marks carved floor whose
//! connection to the player spawn has not been verified yet, and no finished
//! level may still contain it.

use vstd::prelude::*;

verus! {

/// What, if anything, occupies or may occupy an empty tile.
#[derive(Clone, Copy, PartialEq, Eq, Structural, Debug)]
pub enum TileSpawn {
    /// Carved floor whose reachability from the player spawn is not yet
    /// verified. Must never survive into a finished level.
    Unreachable,
    /// Verified reachable and free for use.
    Free,
    /// Reachable but reserved, e.g. the spawn buffer around the player.
    Blocked,
    /// The player starts here.
    Player,
    /// An enemy starts here.
    Enemy,
}

/// The content of one grid cell.
#[derive(Clone, Copy, PartialEq, Eq, Structural, Debug)]
pub enum TileContent {
    /// Carved-out floor, with a tag for what may spawn on it.
    Empty(TileSpawn),
    /// Impassable rock; blocks both pathing and line of sight.
    Wall,
}

/// One square of the level grid.
#[derive(Clone, Copy, PartialEq, Eq, Structural, Debug)]
pub struct Tile {
    /// The cell's content.
    pub cont: TileContent,
}

impl Tile {
    /// Whether this tile is carved-out floor (any spawn tag).
    pub open spec fn is_empty_spec(self) -> bool {
        self.cont is Empty
    }
}

impl Default for Tile {
    /// Before generation touches it, every tile is solid rock.
    fn default() -> (r: Self)
        ensures
            r.cont == TileContent::Wall,
    {
        Tile { cont: TileContent::Wall }
    }
}

/// A traversal predicate over tiles, used by the search algorithms.
///
/// The searches take the predicate as a closed enumeration rather than as an
/// arbitrary callback so that their contracts can state exactly which tiles a
/// path is allowed to cross.
#[derive(Clone, Copy, PartialEq, Eq, Structural, Debug)]
pub enum TileFilter {
    /// Passes every empty tile, whatever its spawn tag.
    AnyEmpty,
    /// Passes only empty tiles that are verified free (`TileSpawn::Free`).
    FreeOnly,
}

impl TileFilter {
    /// Which tile contents the filter lets a search traverse.
    pub open spec fn allows_spec(self, c: TileContent) -> bool {
        match self {
            TileFilter::AnyEmpty => c is Empty,
            TileFilter::FreeOnly => c == TileContent::Empty(TileSpawn::Free),
        }
    }

    /// Runtime test matching `allows_spec`.
    pub fn allows(self, t: &Tile) -> (r: bool)
        ensures
            r == self.allows_spec(t.cont),
    {
        match self {
            TileFilter::AnyEmpty => matches!(t.cont, TileContent::Empty(_)),
            TileFilter::FreeOnly => matches!(t.cont, TileContent::Empty(TileSpawn::Free)),
        }
    }
}

} // verus!
