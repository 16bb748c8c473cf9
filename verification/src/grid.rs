//! The level grid: a fixed `20 x 20` array of tiles plus the cached player
//! and enemy spawn positions, together with the path predicates that the
//! search algorithms and the generator are specified against.

use vstd::prelude::*;

use crate::pos::GRID_HEIGHT;
use crate::pos::GRID_WIDTH;
use crate::pos::GridPos;
use crate::tile::Tile;
use crate::tile::TileContent;
use crate::tile::TileFilter;

verus! {

/// Two cells are 4-connected neighbours: they differ by one step along
/// exactly one axis.
pub open spec fn adjacent(a: GridPos, b: GridPos) -> bool {
    ||| (a.xi() == b.xi() && (a.yi() == b.yi() + 1 || b.yi() == a.yi() + 1))
    ||| (a.yi() == b.yi() && (a.xi() == b.xi() + 1 || b.xi() == a.xi() + 1))
}

/// Whether `p` lies in the axis-aligned rectangle with corners `start` and
/// `end`, both inclusive.
pub open spec fn in_rect(p: GridPos, start: GridPos, end: GridPos) -> bool {
    start.xi() <= p.xi() <= end.xi() && start.yi() <= p.yi() <= end.yi()
}

/// Number of empty tiles in a sequence of tiles.
pub open spec fn num_empty(s: Seq<Tile>) -> int
    decreases s.len(),
{
    if s.len() == 0 {
        0
    } else {
        num_empty(s.drop_last()) + if s.last().is_empty_spec() {
            1int
        } else {
            0int
        }
    }
}

/// A fixed-size level grid with cached spawn positions.
#[derive(Debug, Clone, PartialEq)]
pub struct Grid {
    /// Row-major tile array of length `GRID_WIDTH * GRID_HEIGHT`.
    pub tiles: Vec<Tile>,
    /// Player spawn, set once generation has chosen it.
    pub player: Option<GridPos>,
    /// Enemy spawn positions, filled in by generation.
    pub enemies: Vec<GridPos>,
}

impl Grid {
    /// Number of tile columns; the grid size is fixed at compile time.
    pub const WIDTH: usize = GRID_WIDTH;

    /// Number of tile rows; the grid size is fixed at compile time.
    pub const HEIGHT: usize = GRID_HEIGHT;

    /// The tile array has exactly one slot per grid cell.
    pub open spec fn wf(self) -> bool {
        self.tiles@.len() == GRID_WIDTH * GRID_HEIGHT
    }

    /// The content of the tile at `p`.
    pub open spec fn tile_spec(self, p: GridPos) -> TileContent {
        self.tiles@[p.idx_spec()].cont
    }

    /// Whether the tile at `p` is carved-out floor (any spawn tag).
    pub open spec fn empty_at(self, p: GridPos) -> bool {
        self.tile_spec(p) is Empty
    }

    /// A non-empty chain of 4-connected, in-range cells that all pass the
    /// filter.
    pub open spec fn is_path(self, f: TileFilter, path: Seq<GridPos>) -> bool {
        &&& path.len() >= 1
        &&& forall|i: int|
            0 <= i < path.len() ==> (#[trigger] path[i]).wf() && f.allows_spec(
                self.tile_spec(path[i]),
            )
        &&& forall|i: int| 0 <= i < path.len() - 1 ==> adjacent(path[i], #[trigger] path[i + 1])
    }

    /// `path` is a filtered path that starts at `a` and ends at `b`.
    pub open spec fn connects(self, f: TileFilter, path: Seq<GridPos>, a: GridPos, b: GridPos) -> bool {
        self.is_path(f, path) && path.first() == a && path.last() == b
    }

    /// Some filtered 4-connected path leads from `a` to `b`.
    pub open spec fn has_path(self, f: TileFilter, a: GridPos, b: GridPos) -> bool {
        exists|path: Seq<GridPos>| self.connects(f, path, a, b)
    }

    /// Every empty tile of the grid can be reached from the player spawn
    /// through empty tiles. This is the shape `generate` promises.
    pub open spec fn reachable_invariant(self) -> bool {
        self.player matches Some(player) && forall|p: GridPos|
            p.wf() && self.empty_at(p) ==> self.has_path(TileFilter::AnyEmpty, player, p)
    }

    /// The tile at `p`; always succeeds because `p` is in range by
    /// construction.
    pub fn tile_at(&self, p: GridPos) -> (r: Tile)
        requires
            self.wf(),
        ensures
            r.cont == self.tile_spec(p),
    {
        self.tiles[p.idx()]
    }

    /// Overwrites the tile at `p`.
    pub fn set_tile(&mut self, p: GridPos, t: Tile)
        requires
            old(self).wf(),
        ensures
            final(self).wf(),
            final(self).tiles@ == old(self).tiles@.update(p.idx_spec(), t),
            final(self).tile_spec(p) == t.cont,
            forall|q: GridPos| q.wf() && q.idx_spec() != p.idx_spec() ==> final(self).tile_spec(q) == old(self).tile_spec(q),
            final(self).player == old(self).player,
            final(self).enemies == old(self).enemies,
    {
        let i = p.idx();
        self.tiles[i] = t;
    }

    /// The player spawn; defined only after successful generation.
    pub fn player_spawn(&self) -> (r: Option<GridPos>)
        ensures
            r == self.player,
    {
        self.player
    }

    /// The enemy spawn positions chosen by generation.
    pub fn enemy_spawns(&self) -> (r: &Vec<GridPos>)
        ensures
            r@ == self.enemies@,
    {
        &self.enemies
    }

    /// Sets every tile in the inclusive rectangle `[start, end]` to `t`,
    /// leaving all other cells and the cached spawns alone.
    pub fn fill_area(&mut self, start: GridPos, end: GridPos, t: Tile)
        requires
            old(self).wf(),
        ensures
            final(self).wf(),
            forall|p: GridPos| p.wf() && in_rect(p, start, end) ==> final(self).tile_spec(p) == t.cont,
            forall|p: GridPos|
                p.wf() && !in_rect(p, start, end) ==> final(self).tile_spec(p) == old(self).tile_spec(p),
            final(self).player == old(self).player,
            final(self).enemies == old(self).enemies,
    {
        let sx = start.x();
        let sy = start.y();
        let ex = end.x();
        let ey = end.y();
        if sx > ex || sy > ey {
            proof {
                assert(forall|p: GridPos| !in_rect(p, start, end));
            }
            return ;
        }
        let mut y = sy;
        while y <= ey
            invariant
                self.wf(),
                sx == start.xi() && sy == start.yi() && ex == end.xi() && ey == end.yi(),
                sx <= ex < GRID_WIDTH,
                sy <= y,
                ey < GRID_HEIGHT,
                y <= ey + 1,
                forall|p: GridPos|
                    p.wf() && in_rect(p, start, end) && p.yi() < y ==> self.tile_spec(p) == t.cont,
                forall|p: GridPos|
                    p.wf() && !(in_rect(p, start, end) && p.yi() < y) ==> self.tile_spec(p)
                        == old(self).tile_spec(p),
                self.player == old(self).player,
                self.enemies == old(self).enemies,
            decreases ey + 1 - y,
        {
            let mut x = sx;
            while x <= ex
                invariant
                    self.wf(),
                    sx == start.xi() && sy == start.yi() && ex == end.xi() && ey == end.yi(),
                    sx <= ex < GRID_WIDTH,
                    sy <= y <= ey < GRID_HEIGHT,
                    sx <= x,
                    x <= ex + 1,
                    forall|p: GridPos|
                        p.wf() && in_rect(p, start, end) && (p.yi() < y || (p.yi() == y && p.xi()
                            < x)) ==> self.tile_spec(p) == t.cont,
                    forall|p: GridPos|
                        p.wf() && !(in_rect(p, start, end) && (p.yi() < y || (p.yi() == y && p.xi()
                            < x))) ==> self.tile_spec(p) == old(self).tile_spec(p),
                    self.player == old(self).player,
                    self.enemies == old(self).enemies,
                decreases ex + 1 - x,
            {
                let p = GridPos::new(x, y);
                self.set_tile(p, t);
                x = x + 1;
            }
            y = y + 1;
        }
    }

    /// Counts the empty tiles of the whole grid.
    pub fn count_empty(&self) -> (r: usize)
        requires
            self.wf(),
        ensures
            r == num_empty(self.tiles@),
    {
        let mut c: usize = 0;
        let n = self.tiles.len();
        let mut i: usize = 0;
        while i < n
            invariant
                n == self.tiles@.len(),
                i <= n,
                c <= i,
                c == num_empty(self.tiles@.take(i as int)),
            decreases n - i,
        {
            proof {
                assert(self.tiles@.take(i + 1).drop_last() =~= self.tiles@.take(i as int));
                assert(self.tiles@.take(i + 1).last() == self.tiles@[i as int]);
            }
            if matches!(self.tiles[i].cont, TileContent::Empty(_)) {
                c = c + 1;
            }
            i = i + 1;
        }
        proof {
            assert(self.tiles@.take(n as int) =~= self.tiles@);
        }
        c
    }
}

impl Default for Grid {
    /// A fresh grid: every tile solid rock, no spawns chosen.
    fn default() -> (r: Self)
        ensures
            r.wf(),
            forall|p: GridPos| p.wf() ==> r.tile_spec(p) == TileContent::Wall,
            r.player is None,
            r.enemies@.len() == 0,
    {
        let mut tiles: Vec<Tile> = Vec::new();
        let mut i: usize = 0;
        while i < GRID_WIDTH * GRID_HEIGHT
            invariant
                i <= GRID_WIDTH * GRID_HEIGHT,
                tiles@.len() == i,
                forall|j: int| 0 <= j < i ==> tiles@[j].cont == TileContent::Wall,
            decreases GRID_WIDTH * GRID_HEIGHT - i,
        {
            tiles.push(Tile { cont: TileContent::Wall });
            i = i + 1;
        }
        Grid { tiles, player: None, enemies: Vec::new() }
    }
}

} // verus!
