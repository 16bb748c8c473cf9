//! Procedural level generation.
//!
//! A level is generated by repeated whole attempts: carve random clearings
//! and obstacles into a solid grid, choose a player spawn among the carved
//! tiles, wall off everything the player cannot reach, reserve a buffer
//! around the spawn, validate the amount of open space, and place enemies
//! under the difficulty budget. An attempt that fails a validation is
//! thrown away and a fresh one is started; attempts are capped so that
//! generation provably terminates, and `None` reports the (in practice
//! never observed) case that every attempt failed.

use vstd::prelude::*;

use crate::difficulty::Difficulty;
use crate::difficulty::points_spec;
use crate::grid::Grid;
use crate::grid::in_rect;
use crate::grid::num_empty;
use crate::pos::GRID_HEIGHT;
use crate::pos::GRID_WIDTH;
use crate::pos::GridPos;
use crate::search::lemma_idx_injective;
use crate::sight::los_spec;
use crate::rng::sample_range;
use crate::rng::shuffle_positions;
use crate::tile::Tile;
use crate::tile::TileContent;
use crate::tile::TileFilter;
use crate::tile::TileSpawn;

verus! {

/// Smallest width and height of a clearing, in cells.
pub const CLEARING_MIN_SIZE: usize = 4;

/// Smallest width and height of an obstacle, in cells.
pub const OBSTACLE_MIN_SIZE: usize = 1;

/// How many clearings each attempt carves.
pub const CLEARING_COUNT: usize = 4;

/// Half-width of the square reserved around the player spawn.
pub const PLAYER_SPAWN_BUFFER: usize = 2;

/// Cap on whole-generation retries, so the retry loop provably ends.
pub const MAX_GENERATION_ATTEMPTS: usize = 1000;

/// An axis-aligned rectangle of grid cells, both corners inclusive.
#[derive(Clone, Copy, PartialEq, Eq, Structural, Debug)]
pub struct GridRect {
    /// Top-left corner.
    pub start: GridPos,
    /// Bottom-right corner.
    pub end: GridPos,
}

impl GridRect {
    /// The corners are ordered, so the rectangle is non-empty.
    pub open spec fn wf(self) -> bool {
        self.start.xi() <= self.end.xi() && self.start.yi() <= self.end.yi()
    }

    /// The rectangle covering the whole grid.
    pub fn whole_grid() -> (r: GridRect)
        ensures
            r.start.xi() == 0 && r.start.yi() == 0,
            r.end.xi() == GRID_WIDTH - 1 && r.end.yi() == GRID_HEIGHT - 1,
            r.wf(),
    {
        GridRect { start: GridPos::min_pos(), end: GridPos::max_pos() }
    }

    /// A random rectangle inside `inside` whose width and height lie
    /// between those of `min` and `max`.
    pub fn random(rng: &mut rand::rngs::StdRng, min: GridPos, max: GridPos, inside: &GridRect) -> (r:
        GridRect)
        requires
            min.xi() <= max.xi(),
            min.yi() <= max.yi(),
            inside.start.xi() + max.xi() <= inside.end.xi(),
            inside.start.yi() + max.yi() <= inside.end.yi(),
        ensures
            r.wf(),
            in_rect(r.start, inside.start, inside.end),
            in_rect(r.end, inside.start, inside.end),
            min.xi() <= r.end.xi() - r.start.xi() <= max.xi(),
            min.yi() <= r.end.yi() - r.start.yi() <= max.yi(),
    {
        proof {
            use_type_invariant(inside.start);
            use_type_invariant(inside.end);
            use_type_invariant(min);
            use_type_invariant(max);
        }
        let start = GridPos::random(rng, inside.start, inside.end.sub(max));
        let end = GridPos::random(rng, start.add(min), start.add(max));
        GridRect { start, end }
    }

    /// Sets every tile inside the rectangle to `t`.
    pub fn apply(self, grid: &mut Grid, t: Tile)
        requires
            old(grid).wf(),
        ensures
            final(grid).wf(),
            forall|p: GridPos|
                p.wf() && in_rect(p, self.start, self.end) ==> final(grid).tile_spec(p) == t.cont,
            forall|p: GridPos|
                p.wf() && !in_rect(p, self.start, self.end) ==> final(grid).tile_spec(p) == old(
                    grid,
                ).tile_spec(p),
            final(grid).player == old(grid).player,
            final(grid).enemies == old(grid).enemies,
    {
        grid.fill_area(self.start, self.end, t)
    }
}

/// Whether `p` is covered by one of the first `k` rectangles.
pub open spec fn covered_by_prefix(obs: Seq<GridRect>, k: int, p: GridPos) -> bool {
    exists|i: int| 0 <= i < k && in_rect(p, #[trigger] obs[i].start, obs[i].end)
}

/// The budget price of placing an enemy at `pos`: a fixed base, cheaper
/// by a fixed amount per cell of shortest-path distance from the player
/// (down to a floor), and doubled when the candidate already has line of
/// sight to the player.
pub open spec fn placement_cost(g: Grid, pl: GridPos, pos: GridPos) -> int {
    let base = 300000 - 5000 * g.shortest_path_len(TileFilter::AnyEmpty, pl, pos);
    let floored = if base < 50000 {
        50000int
    } else {
        base
    };
    if los_spec(g, TileFilter::AnyEmpty, pl, pos) {
        2 * floored
    } else {
        floored
    }
}

/// The greedy budget walk over the candidates in `order`: while budget
/// remains, a candidate is accepted when the budget covers its price and
/// skipped for good otherwise.
pub open spec fn greedy_placements(
    g: Grid,
    pl: GridPos,
    order: Seq<GridPos>,
    budget: int,
) -> Seq<GridPos>
    decreases order.len(),
{
    if order.len() == 0 || budget <= 0 {
        Seq::empty()
    } else {
        if placement_cost(g, pl, order.first()) <= budget {
            seq![order.first()] + greedy_placements(
                g,
                pl,
                order.drop_first(),
                budget - placement_cost(g, pl, order.first()),
            )
        } else {
            greedy_placements(g, pl, order.drop_first(), budget)
        }
    }
}

/// `order` explains `picks`: it lists exactly the verified-free tiles of
/// `g`, once each, and the greedy budget walk over it yields `picks`.
pub open spec fn greedy_order_witness(
    g: Grid,
    pl: GridPos,
    order: Seq<GridPos>,
    budget: int,
    picks: Seq<GridPos>,
) -> bool {
    &&& order.no_duplicates()
    &&& forall|p: GridPos|
        #[trigger] order.contains(p) <==> (p.wf() && g.tile_spec(p) == TileContent::Empty(
            TileSpawn::Free,
        ))
    &&& picks == greedy_placements(g, pl, order, budget)
}

/// A carved clearing together with the wall rectangles punched back into
/// it.
#[derive(Clone, Debug)]
pub struct Clearing {
    /// The rectangle of floor to carve.
    pub clearing: GridRect,
    /// Smaller rectangles inside it that stay solid.
    pub obstacles: Vec<GridRect>,
}

impl Clearing {
    /// Every obstacle lies inside the clearing.
    pub open spec fn wf(self) -> bool {
        &&& self.clearing.wf()
        &&& forall|i: int|
            0 <= i < self.obstacles@.len() ==> {
                &&& (#[trigger] self.obstacles@[i]).wf()
                &&& in_rect(self.obstacles@[i].start, self.clearing.start, self.clearing.end)
                &&& in_rect(self.obstacles@[i].end, self.clearing.start, self.clearing.end)
            }
    }

    /// A random clearing with per-axis extent between the minimum size
    /// and what fits in the grid, holding one or two random obstacles,
    /// each strictly smaller than the clearing on both axes.
    pub fn random(rng: &mut rand::rngs::StdRng) -> (r: Clearing)
        ensures
            r.wf(),
            CLEARING_MIN_SIZE <= r.clearing.end.xi() - r.clearing.start.xi() <= GRID_WIDTH - 1
                - CLEARING_MIN_SIZE,
            CLEARING_MIN_SIZE <= r.clearing.end.yi() - r.clearing.start.yi() <= GRID_HEIGHT - 1
                - CLEARING_MIN_SIZE,
            1 <= r.obstacles@.len() <= 2,
            forall|i: int|
                0 <= i < r.obstacles@.len() ==> {
                    &&& OBSTACLE_MIN_SIZE <= (#[trigger] r.obstacles@[i]).end.xi()
                        - r.obstacles@[i].start.xi() <= r.clearing.end.xi()
                        - r.clearing.start.xi() - OBSTACLE_MIN_SIZE
                    &&& OBSTACLE_MIN_SIZE <= r.obstacles@[i].end.yi() - r.obstacles@[i].start.yi()
                        <= r.clearing.end.yi() - r.clearing.start.yi() - OBSTACLE_MIN_SIZE
                },
    {
        let whole = GridRect::whole_grid();
        let clearing_min = GridPos::new(CLEARING_MIN_SIZE, CLEARING_MIN_SIZE);
        let clearing_max = GridPos::max_pos().sub_n(CLEARING_MIN_SIZE);
        let clearing = GridRect::random(rng, clearing_min, clearing_max, &whole);
        proof {
            use_type_invariant(clearing.start);
            use_type_invariant(clearing.end);
        }
        let obstacle_min = GridPos::new(OBSTACLE_MIN_SIZE, OBSTACLE_MIN_SIZE);
        let obstacle_max = clearing.end.sub(clearing.start).sub_n(OBSTACLE_MIN_SIZE);
        let n = sample_range(rng, 1, 2);
        let mut obstacles: Vec<GridRect> = Vec::new();
        let mut k: usize = 0;
        while k < n
            invariant
                obstacles@.len() == k,
                k <= n,
                1 <= n <= 2,
                clearing.wf(),
                obstacle_min.xi() == OBSTACLE_MIN_SIZE && obstacle_min.yi() == OBSTACLE_MIN_SIZE,
                obstacle_max.xi() == clearing.end.xi() - clearing.start.xi() - OBSTACLE_MIN_SIZE,
                obstacle_max.yi() == clearing.end.yi() - clearing.start.yi() - OBSTACLE_MIN_SIZE,
                obstacle_min.xi() <= obstacle_max.xi(),
                obstacle_min.yi() <= obstacle_max.yi(),
                clearing.start.xi() + obstacle_max.xi() <= clearing.end.xi(),
                clearing.start.yi() + obstacle_max.yi() <= clearing.end.yi(),
                forall|i: int|
                    0 <= i < k ==> {
                        &&& (#[trigger] obstacles@[i]).wf()
                        &&& in_rect(obstacles@[i].start, clearing.start, clearing.end)
                        &&& in_rect(obstacles@[i].end, clearing.start, clearing.end)
                        &&& OBSTACLE_MIN_SIZE <= obstacles@[i].end.xi() - obstacles@[i].start.xi()
                            <= clearing.end.xi() - clearing.start.xi() - OBSTACLE_MIN_SIZE
                        &&& OBSTACLE_MIN_SIZE <= obstacles@[i].end.yi() - obstacles@[i].start.yi()
                            <= clearing.end.yi() - clearing.start.yi() - OBSTACLE_MIN_SIZE
                    },
            decreases n - k,
        {
            let ob = GridRect::random(rng, obstacle_min, obstacle_max, &clearing);
            obstacles.push(ob);
            k = k + 1;
        }
        Clearing { clearing, obstacles }
    }

    /// Carves the clearing as unverified floor, then punches the obstacles
    /// back in as walls. Tiles outside the clearing are untouched.
    pub fn apply(self, grid: &mut Grid)
        requires
            old(grid).wf(),
            self.wf(),
        ensures
            final(grid).wf(),
            forall|p: GridPos|
                p.wf() && covered_by_prefix(self.obstacles@, self.obstacles@.len() as int, p)
                    ==> final(grid).tile_spec(p) == TileContent::Wall,
            forall|p: GridPos|
                p.wf() && in_rect(p, self.clearing.start, self.clearing.end)
                    && !covered_by_prefix(self.obstacles@, self.obstacles@.len() as int, p)
                    ==> final(grid).tile_spec(p) == TileContent::Empty(TileSpawn::Unreachable),
            forall|p: GridPos|
                p.wf() && !in_rect(p, self.clearing.start, self.clearing.end)
                    ==> final(grid).tile_spec(p) == old(grid).tile_spec(p),
            final(grid).player == old(grid).player,
            final(grid).enemies == old(grid).enemies,
    {
        self.clearing.apply(grid, Tile { cont: TileContent::Empty(TileSpawn::Unreachable) });
        let ghost mid = *grid;
        let n = self.obstacles.len();
        let mut k: usize = 0;
        while k < n
            invariant
                grid.wf(),
                self.wf(),
                n == self.obstacles@.len(),
                k <= n,
                forall|p: GridPos|
                    p.wf() && covered_by_prefix(self.obstacles@, k as int, p) ==> grid.tile_spec(p)
                        == TileContent::Wall,
                forall|p: GridPos|
                    p.wf() && !covered_by_prefix(self.obstacles@, k as int, p) ==> grid.tile_spec(
                        p,
                    ) == mid.tile_spec(p),
                grid.player == mid.player,
                grid.enemies == mid.enemies,
            decreases n - k,
        {
            let ob = self.obstacles[k];
            ob.apply(grid, Tile { cont: TileContent::Wall });
            proof {
                assert forall|p: GridPos|
                    p.wf() && covered_by_prefix(self.obstacles@, k + 1, p) implies grid.tile_spec(
                    p,
                ) == TileContent::Wall by {
                    let i = choose|i: int|
                        0 <= i < k + 1 && in_rect(p, #[trigger] self.obstacles@[i].start,
                        self.obstacles@[i].end);
                    if i < k && !in_rect(p, ob.start, ob.end) {
                        assert(covered_by_prefix(self.obstacles@, k as int, p));
                    }
                }
            }
            k = k + 1;
        }
    }
}

impl Grid {
    /// Carves the random clearings of one generation attempt. Afterwards
    /// every tile either kept its old content, was carved to unverified
    /// floor, or was turned back into wall.
    pub fn add_clearings(&mut self, rng: &mut rand::rngs::StdRng)
        requires
            old(self).wf(),
        ensures
            final(self).wf(),
            forall|p: GridPos|
                p.wf() ==> final(self).tile_spec(p) == old(self).tile_spec(p)
                    || final(self).tile_spec(p) == TileContent::Wall || final(self).tile_spec(p)
                    == TileContent::Empty(TileSpawn::Unreachable),
            final(self).player == old(self).player,
            final(self).enemies == old(self).enemies,
    {
        let n = sample_range(rng, CLEARING_COUNT, CLEARING_COUNT);
        let mut k: usize = 0;
        while k < n
            invariant
                self.wf(),
                forall|p: GridPos|
                    p.wf() ==> self.tile_spec(p) == old(self).tile_spec(p) || self.tile_spec(p)
                        == TileContent::Wall || self.tile_spec(p) == TileContent::Empty(
                        TileSpawn::Unreachable,
                    ),
                self.player == old(self).player,
                self.enemies == old(self).enemies,
            decreases n - k,
        {
            let c = Clearing::random(rng);
            c.apply(self);
            k = k + 1;
        }
    }

    /// Chooses the player spawn uniformly among the tiles carved by the
    /// clearings (still tagged unverified); records nothing when no such
    /// tile exists, which makes the whole attempt fail.
    pub fn add_player(&mut self, rng: &mut rand::rngs::StdRng)
        requires
            old(self).wf(),
        ensures
            final(self).wf(),
            final(self).tiles@ == old(self).tiles@,
            final(self).enemies == old(self).enemies,
            final(self).player is Some <==> exists|p: GridPos|
                p.wf() && #[trigger] old(self).tile_spec(p) == TileContent::Empty(
                    TileSpawn::Unreachable,
                ),
            final(self).player matches Some(pl) ==> pl.wf() && old(self).tile_spec(pl)
                == TileContent::Empty(TileSpawn::Unreachable),
    {
        let all = GridPos::iter_all();
        let mut candidates: Vec<GridPos> = Vec::new();
        let n = all.len();
        let mut i: usize = 0;
        while i < n
            invariant
                self == old(self),
                self.wf(),
                n == all@.len() == GRID_WIDTH * GRID_HEIGHT,
                i <= n,
                forall|j: int|
                    0 <= j < n ==> (#[trigger] all@[j]).wf() && all@[j].idx_spec() == j,
                forall|j: int|
                    0 <= j < candidates@.len() ==> (#[trigger] candidates@[j]).wf()
                        && self.tile_spec(candidates@[j]) == TileContent::Empty(
                        TileSpawn::Unreachable,
                    ),
                forall|p: GridPos|
                    p.wf() && p.idx_spec() < i && #[trigger] self.tile_spec(p)
                        == TileContent::Empty(TileSpawn::Unreachable) ==> candidates@.contains(p),
            decreases n - i,
        {
            let p = all[i];
            let ghost c0 = candidates@;
            let t = self.tile_at(p);
            if matches!(t.cont, TileContent::Empty(TileSpawn::Unreachable)) {
                candidates.push(p);
                proof {
                    assert(candidates@.last() == p);
                }
            }
            proof {
                assert forall|q: GridPos|
                    q.wf() && q.idx_spec() < i + 1 && #[trigger] self.tile_spec(q)
                        == TileContent::Empty(TileSpawn::Unreachable) implies candidates@.contains(
                    q,
                ) by {
                    if q.idx_spec() == i as int {
                        lemma_idx_injective(q, p);
                        assert(candidates@.last() == q);
                    } else {
                        assert(c0.contains(q));
                        let j = choose|j: int| 0 <= j < c0.len() && c0[j] == q;
                        assert(candidates@[j] == q);
                    }
                }
            }
            i = i + 1;
        }
        if candidates.len() == 0 {
            proof {
                assert forall|p: GridPos|
                    p.wf() implies #[trigger] self.tile_spec(p) != TileContent::Empty(
                    TileSpawn::Unreachable,
                ) by {
                    if self.tile_spec(p) == TileContent::Empty(TileSpawn::Unreachable) {
                        assert(candidates@.contains(p));
                    }
                }
            }
            self.player = None;
        } else {
            let idx = sample_range(rng, 0, candidates.len() - 1);
            let chosen = candidates[idx];
            self.player = Some(chosen);
        }
    }

    /// The reachability pass: flood-fills from the player spawn through
    /// empty tiles, marks every reached tile as verified free, and walls
    /// every carved tile the flood never reached. Afterwards the grid
    /// satisfies the reachability invariant: all remaining empty tiles are
    /// connected to the player spawn.
    pub fn block_unreachable_areas(&mut self)
        requires
            old(self).wf(),
            old(self).player matches Some(pl) && pl.wf() && old(self).empty_at(pl),
            forall|p: GridPos|
                p.wf() && #[trigger] old(self).empty_at(p) ==> old(self).tile_spec(p)
                    == TileContent::Empty(TileSpawn::Unreachable),
        ensures
            final(self).wf(),
            final(self).player == old(self).player,
            final(self).enemies == old(self).enemies,
            forall|p: GridPos|
                p.wf() && old(self).has_path(TileFilter::AnyEmpty, old(self).player->Some_0, p)
                    ==> #[trigger] final(self).tile_spec(p) == TileContent::Empty(TileSpawn::Free),
            forall|p: GridPos|
                p.wf() && !old(self).has_path(TileFilter::AnyEmpty, old(self).player->Some_0, p)
                    && #[trigger] old(self).empty_at(p) ==> final(self).tile_spec(p)
                    == TileContent::Wall,
            forall|p: GridPos|
                p.wf() && !old(self).has_path(TileFilter::AnyEmpty, old(self).player->Some_0, p)
                    && !old(self).empty_at(p) ==> final(self).tile_spec(p) == old(self).tile_spec(
                    p,
                ),
            forall|p: GridPos|
                p.wf() && #[trigger] final(self).empty_at(p) ==> final(self).tile_spec(p)
                    == TileContent::Empty(TileSpawn::Free),
            final(self).reachable_invariant(),
    {
        let pl = self.player.unwrap();
        proof {
            use_type_invariant(pl);
        }
        let reach = self.reachable_set(TileFilter::AnyEmpty, pl);
        let ghost g0 = *self;
        let all = GridPos::iter_all();
        let n = all.len();
        let mut i: usize = 0;
        while i < n
            invariant
                self.wf(),
                g0.wf(),
                pl.wf(),
                self.player == g0.player,
                self.enemies == g0.enemies,
                n == all@.len() == GRID_WIDTH * GRID_HEIGHT,
                i <= n,
                reach@.len() == GRID_WIDTH * GRID_HEIGHT,
                forall|j: int|
                    0 <= j < n ==> (#[trigger] all@[j]).wf() && all@[j].idx_spec() == j,
                forall|p: GridPos|
                    p.wf() ==> reach@[#[trigger] p.idx_spec()] == g0.has_path(
                        TileFilter::AnyEmpty,
                        pl,
                        p,
                    ),
                forall|p: GridPos|
                    p.wf() && p.idx_spec() < i && g0.has_path(TileFilter::AnyEmpty, pl, p)
                        ==> #[trigger] self.tile_spec(p) == TileContent::Empty(TileSpawn::Free),
                forall|p: GridPos|
                    p.wf() && p.idx_spec() < i && !g0.has_path(TileFilter::AnyEmpty, pl, p)
                        && g0.empty_at(p) ==> #[trigger] self.tile_spec(p) == TileContent::Wall,
                forall|p: GridPos|
                    p.wf() && (p.idx_spec() >= i || (!g0.has_path(TileFilter::AnyEmpty, pl, p)
                        && !g0.empty_at(p))) ==> #[trigger] self.tile_spec(p) == g0.tile_spec(p),
            decreases n - i,
        {
            let p = all[i];
            let t = self.tile_at(p);
            if reach[p.idx()] {
                self.set_tile(p, Tile { cont: TileContent::Empty(TileSpawn::Free) });
            } else if matches!(t.cont, TileContent::Empty(_)) {
                self.set_tile(p, Tile { cont: TileContent::Wall });
            }
            i = i + 1;
        }
        proof {
            assert forall|p: GridPos| p.wf() && #[trigger] self.empty_at(p) implies self.has_path(
                TileFilter::AnyEmpty,
                pl,
                p,
            ) by {
                assert(g0.has_path(TileFilter::AnyEmpty, pl, p));
                let path = choose|path: Seq<GridPos>|
                    g0.connects(TileFilter::AnyEmpty, path, pl, p);
                g0.lemma_path_reaches_prefix(TileFilter::AnyEmpty, path, pl, p);
                assert forall|j: int| 0 <= j < path.len() implies TileFilter::AnyEmpty.allows_spec(
                    self.tile_spec(#[trigger] path[j]),
                ) by {
                    assert(g0.has_path(TileFilter::AnyEmpty, pl, path[j]));
                    assert(self.tile_spec(path[j]) == TileContent::Empty(TileSpawn::Free));
                }
                assert(self.connects(TileFilter::AnyEmpty, path, pl, p));
            }
        }
    }

    /// Whether `p` falls inside the reserved square around the player
    /// spawn `pl`.
    pub open spec fn in_spawn_buffer(pl: GridPos, p: GridPos) -> bool {
        &&& pl.xi() - PLAYER_SPAWN_BUFFER <= p.xi() <= pl.xi() + PLAYER_SPAWN_BUFFER
        &&& pl.yi() - PLAYER_SPAWN_BUFFER <= p.yi() <= pl.yi() + PLAYER_SPAWN_BUFFER
    }

    /// Reserves the square around the player spawn: every empty tile in it
    /// other than the spawn itself becomes `Blocked`, so no enemy can be
    /// placed next to the player's entry point, and the spawn tile itself
    /// is tagged as the player's. Walls and tiles outside the square are
    /// untouched; which tiles are empty does not change.
    pub fn add_player_spawn_buffer(&mut self)
        requires
            old(self).wf(),
            old(self).player matches Some(pl) && pl.wf() && old(self).empty_at(pl),
        ensures
            final(self).wf(),
            final(self).player == old(self).player,
            final(self).enemies == old(self).enemies,
            final(self).tile_spec(old(self).player->Some_0) == TileContent::Empty(
                TileSpawn::Player,
            ),
            forall|p: GridPos|
                p.wf() && p != old(self).player->Some_0 && Self::in_spawn_buffer(
                    old(self).player->Some_0,
                    p,
                ) && old(self).empty_at(p) ==> #[trigger] final(self).tile_spec(p)
                    == TileContent::Empty(TileSpawn::Blocked),
            forall|p: GridPos|
                p.wf() && p != old(self).player->Some_0 && !(Self::in_spawn_buffer(
                    old(self).player->Some_0,
                    p,
                ) && old(self).empty_at(p)) ==> #[trigger] final(self).tile_spec(p) == old(
                    self,
                ).tile_spec(p),
            forall|p: GridPos|
                p.wf() ==> (#[trigger] final(self).empty_at(p)) == old(self).empty_at(p),
    {
        let pl = self.player.unwrap();
        proof {
            use_type_invariant(pl);
        }
        let x = pl.x();
        let y = pl.y();
        let start = GridPos::new_bounded(
            x as isize - PLAYER_SPAWN_BUFFER as isize,
            y as isize - PLAYER_SPAWN_BUFFER as isize,
        );
        let end = GridPos::new_bounded(
            x as isize + PLAYER_SPAWN_BUFFER as isize,
            y as isize + PLAYER_SPAWN_BUFFER as isize,
        );
        proof {
            assert forall|p: GridPos| p.wf() implies in_rect(p, start, end)
                == Self::in_spawn_buffer(pl, p) by {
            }
        }
        self.mark_blocked_area(start, end);
        self.set_tile(pl, Tile { cont: TileContent::Empty(TileSpawn::Player) });
        proof {
            assert forall|p: GridPos| p.wf() && p != pl implies p.idx_spec() != pl.idx_spec() by {
                if p.idx_spec() == pl.idx_spec() {
                    lemma_idx_injective(p, pl);
                }
            }
        }
    }

    /// Retags every empty tile in the inclusive rectangle `[start, end]`
    /// as `Blocked`; walls and tiles outside are untouched.
    fn mark_blocked_area(&mut self, start: GridPos, end: GridPos)
        requires
            old(self).wf(),
        ensures
            final(self).wf(),
            final(self).player == old(self).player,
            final(self).enemies == old(self).enemies,
            forall|p: GridPos|
                p.wf() && in_rect(p, start, end) && old(self).empty_at(p) ==> #[trigger] final(self).tile_spec(p) == TileContent::Empty(TileSpawn::Blocked),
            forall|p: GridPos|
                p.wf() && !(in_rect(p, start, end) && old(self).empty_at(p)) ==> #[trigger] final(self).tile_spec(p) == old(self).tile_spec(p),
    {
        let sx = start.x();
        let sy = start.y();
        let ex = end.x();
        let ey = end.y();
        if sx > ex || sy > ey {
            return ;
        }
        let mut y = sy;
        while y <= ey
            invariant
                self.wf(),
                sx == start.xi() && sy == start.yi() && ex == end.xi() && ey == end.yi(),
                sx <= ex < GRID_WIDTH,
                sy <= y,
                ey < GRID_HEIGHT,
                y <= ey + 1,
                forall|p: GridPos|
                    p.wf() && in_rect(p, start, end) && old(self).empty_at(p) && p.yi() < y
                        ==> #[trigger] self.tile_spec(p) == TileContent::Empty(TileSpawn::Blocked),
                forall|p: GridPos|
                    p.wf() && !(in_rect(p, start, end) && old(self).empty_at(p) && p.yi() < y)
                        ==> #[trigger] self.tile_spec(p) == old(self).tile_spec(p),
                self.player == old(self).player,
                self.enemies == old(self).enemies,
            decreases ey + 1 - y,
        {
            let mut x = sx;
            while x <= ex
                invariant
                    self.wf(),
                    sx == start.xi() && sy == start.yi() && ex == end.xi() && ey == end.yi(),
                    sx <= ex < GRID_WIDTH,
                    sy <= y <= ey < GRID_HEIGHT,
                    sx <= x,
                    x <= ex + 1,
                    forall|p: GridPos|
                        p.wf() && in_rect(p, start, end) && old(self).empty_at(p) && (p.yi() < y
                            || (p.yi() == y && p.xi() < x)) ==> #[trigger] self.tile_spec(p)
                            == TileContent::Empty(TileSpawn::Blocked),
                    forall|p: GridPos|
                        p.wf() && !(in_rect(p, start, end) && old(self).empty_at(p) && (p.yi() < y
                            || (p.yi() == y && p.xi() < x))) ==> #[trigger] self.tile_spec(p)
                            == old(self).tile_spec(p),
                    self.player == old(self).player,
                    self.enemies == old(self).enemies,
                decreases ex + 1 - x,
            {
                let p = GridPos::new(x, y);
                let t = self.tile_at(p);
                if matches!(t.cont, TileContent::Empty(_)) {
                    self.set_tile(p, Tile { cont: TileContent::Empty(TileSpawn::Blocked) });
                }
                x = x + 1;
            }
            y = y + 1;
        }
    }

    /// Greedy budgeted enemy placement.
    ///
    /// Gathers every verified-free tile, shuffles the list, and walks it
    /// while budget remains: a placement starts at a base cost, gets
    /// cheaper with each cell of shortest-path distance from the player
    /// (down to a floor), and doubles if the candidate already has line of
    /// sight to the player. A candidate the budget cannot pay for is
    /// skipped for good. Accepted cells are tagged and recorded on the
    /// grid; everything else, including which cells are empty and the
    /// reachability invariant, is left intact.
    ///
    /// The shortest-path query inside never fails: the reachability
    /// invariant required here guarantees a path from the player to every
    /// candidate.
    pub fn add_enemies(&mut self, rng: &mut rand::rngs::StdRng, difficulty: &Difficulty)
        requires
            old(self).wf(),
            old(self).player matches Some(pl) && pl.wf(),
            old(self).reachable_invariant(),
            difficulty.level_spec() <= 1000000,
            forall|p: GridPos|
                p.wf() ==> #[trigger] old(self).tile_spec(p) != TileContent::Empty(
                    TileSpawn::Enemy,
                ),
            forall|p: GridPos|
                p.wf() && Grid::in_spawn_buffer(old(self).player->Some_0, p)
                    ==> #[trigger] old(self).tile_spec(p) != TileContent::Empty(TileSpawn::Free),
        ensures
            final(self).wf(),
            final(self).player == old(self).player,
            forall|p: GridPos|
                p.wf() ==> (#[trigger] final(self).empty_at(p)) == old(self).empty_at(p),
            final(self).reachable_invariant(),
            final(self).enemies@.no_duplicates(),
            forall|j: int|
                0 <= j < final(self).enemies@.len() ==> (#[trigger] final(self).enemies@[j]).wf()
                    && final(self).tile_spec(final(self).enemies@[j]) == TileContent::Empty(
                    TileSpawn::Enemy,
                ),
            forall|p: GridPos|
                p.wf() ==> ((#[trigger] final(self).tile_spec(p)) == TileContent::Empty(
                    TileSpawn::Enemy,
                ) <==> final(self).enemies@.contains(p)),
            forall|p: GridPos|
                p.wf() && !final(self).enemies@.contains(p) ==> #[trigger] final(self).tile_spec(p)
                    == old(self).tile_spec(p),
            forall|j: int|
                0 <= j < final(self).enemies@.len() ==> old(self).tile_spec(
                    #[trigger] final(self).enemies@[j],
                ) == TileContent::Empty(TileSpawn::Free),
            forall|j: int|
                0 <= j < final(self).enemies@.len() ==> !Grid::in_spawn_buffer(
                    old(self).player->Some_0,
                    #[trigger] final(self).enemies@[j],
                ),
            points_spec(difficulty.level_spec()) > 2 * (300000 - 5000) && (exists|p: GridPos|
                p.wf() && #[trigger] old(self).tile_spec(p) == TileContent::Empty(TileSpawn::Free))
                ==> final(self).enemies@.len() >= 1,
            exists|order: Seq<GridPos>|
                #[trigger] greedy_order_witness(
                    *old(self),
                    old(self).player->Some_0,
                    order,
                    points_spec(difficulty.level_spec()),
                    final(self).enemies@,
                ),
    {
        let pl = self.player.unwrap();
        proof {
            use_type_invariant(pl);
        }
        let all = GridPos::iter_all();
        let mut spawns: Vec<GridPos> = Vec::new();
        let n = all.len();
        let mut i: usize = 0;
        while i < n
            invariant
                self == old(self),
                self.wf(),
                n == all@.len() == GRID_WIDTH * GRID_HEIGHT,
                i <= n,
                forall|j: int|
                    0 <= j < n ==> (#[trigger] all@[j]).wf() && all@[j].idx_spec() == j,
                forall|j: int|
                    0 <= j < spawns@.len() ==> (#[trigger] spawns@[j]).wf() && self.tile_spec(
                        spawns@[j],
                    ) == TileContent::Empty(TileSpawn::Free) && spawns@[j].idx_spec() < i,
                spawns@.no_duplicates(),
                forall|p: GridPos|
                    p.wf() && p.idx_spec() < i && #[trigger] self.tile_spec(p)
                        == TileContent::Empty(TileSpawn::Free) ==> spawns@.contains(p),
            decreases n - i,
        {
            let p = all[i];
            let ghost c0 = spawns@;
            let t = self.tile_at(p);
            if matches!(t.cont, TileContent::Empty(TileSpawn::Free)) {
                proof {
                    assert forall|j: int| 0 <= j < spawns@.len() implies spawns@[j] != p by {
                        assert(spawns@[j].idx_spec() < i as int);
                    }
                }
                spawns.push(p);
            }
            proof {
                assert forall|q: GridPos|
                    q.wf() && q.idx_spec() < i + 1 && #[trigger] self.tile_spec(q)
                        == TileContent::Empty(TileSpawn::Free) implies spawns@.contains(q) by {
                    if q.idx_spec() == i as int {
                        lemma_idx_injective(q, p);
                        assert(spawns@.last() == q);
                    } else {
                        assert(c0.contains(q));
                        let j = choose|j: int| 0 <= j < c0.len() && c0[j] == q;
                        assert(spawns@[j] == q);
                    }
                }
            }
            i = i + 1;
        }
        let ghost s_pre = spawns@;
        shuffle_positions(rng, &mut spawns);
        proof {
            s_pre.to_multiset_ensures();
            spawns@.to_multiset_ensures();
            s_pre.lemma_multiset_has_no_duplicates();
            spawns@.lemma_multiset_has_no_duplicates_conv();
            assert forall|j: int|
                0 <= j < spawns@.len() implies (#[trigger] spawns@[j]).wf() && self.tile_spec(
                spawns@[j],
            ) == TileContent::Empty(TileSpawn::Free) by {
                assert(spawns@.contains(spawns@[j]));
                assert(spawns@.to_multiset().count(spawns@[j]) > 0);
                assert(s_pre.to_multiset().count(spawns@[j]) > 0);
                assert(s_pre.contains(spawns@[j]));
                let k = choose|k: int| 0 <= k < s_pre.len() && s_pre[k] == spawns@[j];
                assert(s_pre[k] == spawns@[j]);
            }
            if (exists|p: GridPos|
                p.wf() && #[trigger] old(self).tile_spec(p) == TileContent::Empty(
                    TileSpawn::Free,
                )) {
                let p = choose|p: GridPos|
                    p.wf() && #[trigger] old(self).tile_spec(p) == TileContent::Empty(
                        TileSpawn::Free,
                    );
                assert(s_pre.contains(p));
            }
        }
        let ghost sinit = spawns@.len() as int;
        let ghost worder = spawns@.reverse();
        proof {
            let sh = spawns@;
            sh.lemma_reverse_to_multiset();
            sh.lemma_multiset_has_no_duplicates();
            worder.to_multiset_ensures();
            sh.to_multiset_ensures();
            worder.lemma_multiset_has_no_duplicates_conv();
            assert forall|p: GridPos|
                #[trigger] worder.contains(p) <==> (p.wf() && old(self).tile_spec(p)
                    == TileContent::Empty(TileSpawn::Free)) by {
                if worder.contains(p) {
                    assert(worder.to_multiset().count(p) > 0);
                    assert(sh.to_multiset().count(p) > 0);
                    assert(sh.contains(p));
                    let j = choose|j: int| 0 <= j < sh.len() && sh[j] == p;
                    assert(sh[j] == p);
                }
                if p.wf() && old(self).tile_spec(p) == TileContent::Empty(TileSpawn::Free) {
                    assert(s_pre.contains(p));
                    assert(s_pre.to_multiset().count(p) > 0);
                    assert(sh.to_multiset().count(p) > 0);
                    assert(sh.contains(p));
                    let j = choose|j: int| 0 <= j < sh.len() && sh[j] == p;
                    assert(worder[sh.len() - 1 - j] == p);
                    assert(worder.contains(p));
                }
            }
        }
        let mut points: i64 = difficulty.points();
        let ghost pinit = points as int;
        let mut enemies: Vec<GridPos> = Vec::new();
        proof {
            assert(enemies@ + greedy_placements(*old(self), pl, worder, pinit)
                =~= greedy_placements(*old(self), pl, worder, pinit));
        }
        while points > 0 && spawns.len() > 0
            invariant
                self == old(self),
                self.wf(),
                self.player matches Some(q) && q == pl,
                pl.wf(),
                self.reachable_invariant(),
                spawns@.no_duplicates(),
                forall|j: int|
                    0 <= j < spawns@.len() ==> (#[trigger] spawns@[j]).wf() && self.tile_spec(
                        spawns@[j],
                    ) == TileContent::Empty(TileSpawn::Free),
                enemies@.no_duplicates(),
                forall|j: int|
                    0 <= j < enemies@.len() ==> (#[trigger] enemies@[j]).wf() && self.tile_spec(
                        enemies@[j],
                    ) == TileContent::Empty(TileSpawn::Free),
                forall|j: int| 0 <= j < enemies@.len() ==> !spawns@.contains(#[trigger] enemies@[j]),
                pinit == points_spec(difficulty.level_spec()),
                pinit > 2 * (300000 - 5000) && sinit >= 1 ==> (enemies@.len() >= 1 || (points
                    as int == pinit && spawns@.len() >= 1)),
                greedy_placements(*old(self), pl, worder, pinit) == enemies@ + greedy_placements(
                    *old(self),
                    pl,
                    spawns@.reverse(),
                    points as int,
                ),
            decreases spawns@.len(),
        {
            let ghost e_entry = enemies@;
            let ghost points_entry = points as int;
            let ghost s0 = spawns@;
            let pos = spawns.pop().unwrap();
            proof {
                assert(pos == s0.last());
                assert(spawns@ =~= s0.drop_last());
                assert forall|j: int| 0 <= j < spawns@.len() implies #[trigger] spawns@[j]
                    != pos by {
                    assert(s0[j] == spawns@[j]);
                    assert(s0[s0.len() - 1] == pos);
                }
                assert(self.empty_at(pos));
                assert(self.has_path(TileFilter::AnyEmpty, pl, pos));
            }
            let path_opt = self.path_between(pl, pos, TileFilter::AnyEmpty);
            let path = path_opt.unwrap();
            let mut cost: i64 = 300000 - 5000 * (path.len() as i64);
            if cost < 50000 {
                cost = 50000;
            }
            if self.line_of_sight(pl, pos, TileFilter::AnyEmpty) {
                cost = 2 * cost;
            }
            proof {
                assert(path@.len() == self.shortest_path_len(TileFilter::AnyEmpty, pl, pos));
                assert(cost as int == placement_cost(*old(self), pl, pos));
            }
            if cost <= points {
                points = points - cost;
                let ghost e0 = enemies@;
                enemies.push(pos);
                proof {
                    assert(s0.contains(pos));
                    assert forall|a: int, b: int|
                        0 <= a < enemies@.len() && 0 <= b < enemies@.len() && a != b
                        implies enemies@[a] != enemies@[b] by {
                        if a < e0.len() && b < e0.len() {
                            assert(e0[a] == enemies@[a] && e0[b] == enemies@[b]);
                        } else if a < e0.len() {
                            assert(enemies@[b] == pos);
                            assert(!s0.contains(e0[a]));
                        } else {
                            assert(enemies@[a] == pos);
                            assert(!s0.contains(e0[b]));
                        }
                    }
                    assert forall|j: int| 0 <= j < enemies@.len() implies !spawns@.contains(
                        #[trigger] enemies@[j],
                    ) by {
                        if j < e0.len() {
                            if spawns@.contains(e0[j]) {
                                let k = choose|k: int|
                                    0 <= k < spawns@.len() && spawns@[k] == e0[j];
                                assert(s0[k] == e0[j]);
                            }
                        } else {
                            assert(enemies@[j] == pos);
                        }
                    }
                }
            }
            proof {
                if pinit > 2 * (300000 - 5000) && sinit >= 1 && e_entry.len() == 0 {
                    assert(points_entry == pinit);
                    assert(cost as int <= 2 * (300000 - 5000));
                    assert(enemies@.len() >= 1);
                }
                let g0 = *old(self);
                let rcur = s0.reverse();
                assert(rcur.first() == pos);
                assert(rcur.drop_first() =~= spawns@.reverse());
                assert(rcur.len() >= 1 && points_entry > 0);
                if cost as int <= points_entry {
                    assert(enemies@ =~= e_entry.push(pos));
                    assert(greedy_placements(g0, pl, rcur, points_entry) == seq![pos]
                        + greedy_placements(g0, pl, spawns@.reverse(), points as int));
                    assert(e_entry + (seq![pos] + greedy_placements(
                        g0,
                        pl,
                        spawns@.reverse(),
                        points as int,
                    )) =~= enemies@ + greedy_placements(g0, pl, spawns@.reverse(), points as int));
                } else {
                    assert(greedy_placements(g0, pl, rcur, points_entry) == greedy_placements(
                        g0,
                        pl,
                        spawns@.reverse(),
                        points as int,
                    ));
                }
            }
        }
        proof {
            if pinit > 2 * (300000 - 5000) && sinit >= 1 {
                assert(enemies@.len() >= 1);
            }
            assert(greedy_placements(*old(self), pl, spawns@.reverse(), points as int)
                == Seq::<GridPos>::empty());
            assert(enemies@ + Seq::<GridPos>::empty() =~= enemies@);
            assert(greedy_placements(*old(self), pl, worder, pinit) == enemies@);
        }
        let ghost g1 = *self;
        let n2 = enemies.len();
        let mut k: usize = 0;
        while k < n2
            invariant
                self.wf(),
                g1.wf(),
                n2 == enemies@.len(),
                k <= n2,
                self.player == g1.player,
                self.enemies == g1.enemies,
                enemies@.no_duplicates(),
                forall|j: int|
                    0 <= j < n2 ==> (#[trigger] enemies@[j]).wf() && g1.tile_spec(enemies@[j])
                        == TileContent::Empty(TileSpawn::Free),
                forall|j: int|
                    0 <= j < k ==> self.tile_spec(#[trigger] enemies@[j]) == TileContent::Empty(
                        TileSpawn::Enemy,
                    ),
                forall|p: GridPos|
                    p.wf() && !(exists|j: int| 0 <= j < k && #[trigger] enemies@[j] == p)
                        ==> #[trigger] self.tile_spec(p) == g1.tile_spec(p),
            decreases n2 - k,
        {
            let e = enemies[k];
            proof {
                use_type_invariant(e);
            }
            self.set_tile(e, Tile { cont: TileContent::Empty(TileSpawn::Enemy) });
            proof {
                assert forall|j: int| 0 <= j < k + 1 implies self.tile_spec(#[trigger] enemies@[j])
                    == TileContent::Empty(TileSpawn::Enemy) by {
                    if j < k as int {
                        assert(enemies@[j] != e);
                        if enemies@[j].idx_spec() == e.idx_spec() {
                            lemma_idx_injective(enemies@[j], e);
                        }
                    }
                }
                assert forall|p: GridPos|
                    p.wf() && !(exists|j: int| 0 <= j < k + 1 && #[trigger] enemies@[j] == p)
                    implies #[trigger] self.tile_spec(p) == g1.tile_spec(p) by {
                    assert(p != e);
                    if p.idx_spec() == e.idx_spec() {
                        lemma_idx_injective(p, e);
                    }
                }
            }
            k = k + 1;
        }
        proof {
            assert forall|p: GridPos| p.wf() && !enemies@.contains(p) implies self.tile_spec(p)
                == g1.tile_spec(p) by {
                assert(!(exists|j: int| 0 <= j < n2 && #[trigger] enemies@[j] == p)) by {
                    if (exists|j: int| 0 <= j < n2 && #[trigger] enemies@[j] == p) {
                        let j = choose|j: int| 0 <= j < n2 && enemies@[j] == p;
                        assert(enemies@.contains(p));
                    }
                }
            }
            assert forall|p: GridPos| p.wf() && enemies@.contains(p) implies self.tile_spec(p)
                == TileContent::Empty(TileSpawn::Enemy) && g1.tile_spec(p) == TileContent::Empty(
                TileSpawn::Free,
            ) by {
                let j = choose|j: int| 0 <= j < enemies@.len() && enemies@[j] == p;
                assert(self.tile_spec(enemies@[j]) == TileContent::Empty(TileSpawn::Enemy));
                assert(g1.tile_spec(enemies@[j]) == TileContent::Empty(TileSpawn::Free));
            }
        }
        self.enemies = enemies;
        proof {
            assert forall|p: GridPos| p.wf() implies (#[trigger] self.empty_at(p)) == g1.empty_at(
                p,
            ) by {
                if self.enemies@.contains(p) {
                    assert(self.tile_spec(p) == TileContent::Empty(TileSpawn::Enemy));
                    assert(g1.tile_spec(p) == TileContent::Empty(TileSpawn::Free));
                } else {
                    assert(self.tile_spec(p) == g1.tile_spec(p));
                }
            }
            assert forall|p: GridPos| p.wf() implies ((#[trigger] self.tile_spec(p))
                == TileContent::Empty(TileSpawn::Enemy) <==> self.enemies@.contains(p)) by {
                if self.enemies@.contains(p) {
                    assert(self.tile_spec(p) == TileContent::Empty(TileSpawn::Enemy));
                } else {
                    assert(self.tile_spec(p) == g1.tile_spec(p));
                    assert(g1.tile_spec(p) != TileContent::Empty(TileSpawn::Enemy));
                }
            }
            Grid::lemma_reachable_invariant_same_emptiness(g1, *self);
            assert forall|j: int|
                0 <= j < self.enemies@.len() implies !Grid::in_spawn_buffer(
                pl,
                #[trigger] self.enemies@[j],
            ) by {
                assert(self.enemies@.contains(self.enemies@[j]));
                assert(g1.tile_spec(self.enemies@[j]) == TileContent::Empty(TileSpawn::Free));
            }
            assert(greedy_order_witness(*old(self), pl, worder, pinit, self.enemies@));
        }
    }

    /// Generates a fully validated level for the given difficulty.
    ///
    /// Each attempt runs the whole pipeline — reset to solid rock, carve
    /// clearings, place the player, wall off unreachable space, reserve
    /// the spawn buffer, check the open-space quota, place enemies — and a
    /// failed validation discards the attempt and starts over. Attempts
    /// are capped so that the retry loop provably terminates; `None` is
    /// returned only if every attempt failed, which random carving makes
    /// vanishingly rare in practice.
    ///
    /// A returned grid is never partial: the player spawn is set and sits
    /// on a player-tagged tile, every empty tile is reachable from it,
    /// no transient `Unreachable` tag survives, at least a third of the
    /// grid is open, and the enemy list exactly matches the enemy-tagged
    /// tiles and is not empty.
    pub fn generate(rng: &mut rand::rngs::StdRng, difficulty: &Difficulty) -> (r: Option<Grid>)
        requires
            difficulty.level_spec() <= 1000000,
        ensures
            r matches Some(g) ==> {
                &&& g.wf()
                &&& g.player matches Some(pl) && pl.wf() && g.tile_spec(pl) == TileContent::Empty(
                    TileSpawn::Player,
                )
                &&& g.reachable_invariant()
                &&& forall|p: GridPos|
                    p.wf() ==> #[trigger] g.tile_spec(p) != TileContent::Empty(
                        TileSpawn::Unreachable,
                    )
                &&& num_empty(g.tiles@) >= (GRID_WIDTH * GRID_HEIGHT) / 3
                &&& g.enemies@.len() >= 1
                &&& g.enemies@.no_duplicates()
                &&& forall|p: GridPos|
                    p.wf() ==> ((#[trigger] g.tile_spec(p)) == TileContent::Empty(TileSpawn::Enemy)
                        <==> g.enemies@.contains(p))
                &&& forall|j: int|
                    0 <= j < g.enemies@.len() ==> !Grid::in_spawn_buffer(
                        g.player->Some_0,
                        #[trigger] g.enemies@[j],
                    )
            },
    {
        let mut attempt: usize = 0;
        while attempt < MAX_GENERATION_ATTEMPTS
            invariant
                difficulty.level_spec() <= 1000000,
            decreases MAX_GENERATION_ATTEMPTS - attempt,
        {
            attempt = attempt + 1;
            let mut grid = Grid::default();
            grid.add_clearings(rng);
            grid.add_player(rng);
            if grid.player.is_none() {
                continue ;
            }
            let ghost g_carved = grid;
            proof {
                let pl = g_carved.player->Some_0;
                assert(g_carved.tile_spec(pl) == TileContent::Empty(TileSpawn::Unreachable));
                assert forall|p: GridPos|
                    p.wf() && #[trigger] g_carved.empty_at(p) implies g_carved.tile_spec(p)
                    == TileContent::Empty(TileSpawn::Unreachable) by {
                    assert(g_carved.tile_spec(p) != TileContent::Wall);
                }
            }
            grid.block_unreachable_areas();
            let ghost g_blocked = grid;
            proof {
                let pl = g_blocked.player->Some_0;
                g_carved.lemma_path_singleton(TileFilter::AnyEmpty, pl);
                assert(g_blocked.tile_spec(pl) == TileContent::Empty(TileSpawn::Free));
            }
            grid.add_player_spawn_buffer();
            let ghost g_buffered = grid;
            proof {
                Grid::lemma_reachable_invariant_same_emptiness(g_blocked, g_buffered);
            }
            if grid.count_empty() < (GRID_WIDTH * GRID_HEIGHT) / 3 {
                continue ;
            }
            proof {
                let pl = g_buffered.player->Some_0;
                assert forall|p: GridPos|
                    p.wf() implies #[trigger] g_buffered.tile_spec(p) != TileContent::Empty(
                    TileSpawn::Enemy,
                ) && g_buffered.tile_spec(p) != TileContent::Empty(TileSpawn::Unreachable) by {
                    if p == pl {
                    } else if Grid::in_spawn_buffer(pl, p) && g_blocked.empty_at(p) {
                        assert(g_buffered.tile_spec(p) == TileContent::Empty(TileSpawn::Blocked));
                    } else {
                        assert(g_buffered.tile_spec(p) == g_blocked.tile_spec(p));
                        if g_blocked.empty_at(p) {
                            assert(g_blocked.tile_spec(p) == TileContent::Empty(TileSpawn::Free));
                        }
                    }
                }
            }
            grid.add_enemies(rng, difficulty);
            if grid.enemies.len() == 0 {
                continue ;
            }
            proof {
                Grid::lemma_num_empty_same(g_buffered, grid);
                let pl = grid.player->Some_0;
                assert(grid.tile_spec(pl) == TileContent::Empty(TileSpawn::Player)) by {
                    if grid.enemies@.contains(pl) {
                        let j = choose|j: int| 0 <= j < grid.enemies@.len() && grid.enemies@[j] == pl;
                        assert(g_buffered.tile_spec(grid.enemies@[j]) == TileContent::Empty(
                            TileSpawn::Free,
                        ));
                    } else {
                        assert(grid.tile_spec(pl) == g_buffered.tile_spec(pl));
                    }
                }
                assert forall|p: GridPos|
                    p.wf() implies #[trigger] grid.tile_spec(p) != TileContent::Empty(
                    TileSpawn::Unreachable,
                ) by {
                    if grid.enemies@.contains(p) {
                        assert(grid.tile_spec(p) == TileContent::Empty(TileSpawn::Enemy));
                    } else {
                        assert(grid.tile_spec(p) == g_buffered.tile_spec(p));
                    }
                }
            }
            return Some(grid);
        }
        None
    }
}

} // verus!
