//! Approximate line of sight.
//!
//! A ray is stepped from the centre of the start cell toward the centre of
//! the end cell in fixed-length increments of about two world units, and the
//! tile under each sampled point is tested against the filter. The test
//! succeeds when the ray comes within a small tolerance of the target
//! without any sampled tile failing the filter.
//!
//! This is a deliberately coarse approximation for one-time generation
//! scoring: sampling can step across a thin obstacle at grid resolution, and
//! because the sample points of the ray from `a` to `b` are not those of the
//! ray from `b` to `a`, the test is not guaranteed to be symmetric near tile
//! boundaries. Real-time gameplay visibility is expected to come from an
//! exact geometric query elsewhere; this one is only used while placing
//! enemies.

use vstd::prelude::*;

use crate::grid::Grid;
use crate::math::isqrt;
use crate::math::lemma_sqrt_floor_bounds;
use crate::math::sqrt_floor;
use crate::pos::GRID_HEIGHT;
use crate::pos::GRID_WIDTH;
use crate::pos::GridPos;
use crate::tile::TileFilter;

verus! {

/// Length of one ray increment, in thousandths of a world unit.
pub const STEP_MILLI: i64 = 2000;

/// Arrival tolerance per axis, in thousandths of a world unit.
pub const TOL_MILLI: i64 = 6000;

/// Absolute value on mathematical integers.
pub open spec fn abs_i(v: int) -> int {
    if v < 0 {
        -v
    } else {
        v
    }
}

/// One signed ray-step component: `d` scaled to a step of about
/// `STEP_MILLI` along a ray of length `dist`.
pub open spec fn step_of(d: int, dist: int) -> int {
    if d >= 0 {
        d * (STEP_MILLI as int) / dist
    } else {
        -((-d) * (STEP_MILLI as int) / dist)
    }
}

/// The content of the tile under a world point, with the same
/// out-of-range fallback as `GridPos::from_world`.
pub open spec fn world_tile(g: Grid, wx: int, wy: int) -> crate::tile::TileContent {
    let gx = GridPos::cell_of_world(wx);
    let gy = GridPos::cell_of_world(wy);
    if 0 <= gx < GRID_WIDTH && 0 <= gy < GRID_HEIGHT {
        g.tiles@[gy * GRID_WIDTH + gx].cont
    } else {
        g.tiles@[0].cont
    }
}

/// The sampled ray walk: step by `(sx, sy)` until within tolerance of the
/// target, failing as soon as a sampled tile is rejected by the filter.
/// Runs out of fuel (and reports clear sight) after a bounded number of
/// steps, which the callers size to cover the whole ray.
pub open spec fn los_walk(
    g: Grid,
    f: TileFilter,
    px: int,
    py: int,
    tx: int,
    ty: int,
    sx: int,
    sy: int,
    fuel: nat,
) -> bool
    decreases fuel,
{
    if abs_i(px - tx) <= TOL_MILLI && abs_i(py - ty) <= TOL_MILLI {
        true
    } else if fuel == 0 {
        true
    } else {
        if !f.allows_spec(world_tile(g, px + sx, py + sy)) {
            false
        } else {
            los_walk(g, f, px + sx, py + sy, tx, ty, sx, sy, (fuel - 1) as nat)
        }
    }
}

/// What `Grid::line_of_sight` computes.
pub open spec fn los_spec(g: Grid, f: TileFilter, a: GridPos, b: GridPos) -> bool {
    let ax = GridPos::world_coord(a.xi());
    let ay = GridPos::world_coord(a.yi());
    let bx = GridPos::world_coord(b.xi());
    let by = GridPos::world_coord(b.yi());
    let dx = bx - ax;
    let dy = by - ay;
    if dx == 0 && dy == 0 {
        true
    } else {
        let dist = sqrt_floor(dx * dx + dy * dy);
        los_walk(
            g,
            f,
            ax,
            ay,
            bx,
            by,
            step_of(dx, dist),
            step_of(dy, dist),
            (dist / (STEP_MILLI as int) + 1) as nat,
        )
    }
}

impl Grid {
    /// Approximate line-of-sight test from `a` to `b`: samples the ray
    /// between the two cell centres at fixed increments and checks every
    /// sampled tile against the filter.
    ///
    /// The result equals `los_spec` exactly; see the module comment for
    /// what the approximation does and does not promise.
    pub fn line_of_sight(&self, a: GridPos, b: GridPos, f: TileFilter) -> (r: bool)
        requires
            self.wf(),
        ensures
            r == los_spec(*self, f, a, b),
    {
        let (ax, ay) = a.to_world();
        let (bx, by) = b.to_world();
        proof {
            use_type_invariant(a);
            use_type_invariant(b);
        }
        let dx = bx - ax;
        let dy = by - ay;
        if dx == 0 && dy == 0 {
            return true;
        }
        proof {
            assert(-760000 <= dx as int <= 760000 && -760000 <= dy as int <= 760000);
            assert(0 <= (dx as int) * (dx as int) <= 577600000000 && 0 <= (dy as int) * (dy
                as int) <= 577600000000) by (nonlinear_arith)
                requires
                    -760000 <= dx as int <= 760000,
                    -760000 <= dy as int <= 760000,
            {
            }
        }
        proof {
            assert((dx as int) * (dx as int) + (dy as int) * (dy as int) >= 1) by (nonlinear_arith)
                requires
                    !(dx as int == 0 && dy as int == 0),
            {
            }
        }
        let sq = (dx * dx + dy * dy) as u64;
        proof {
            assert(sq as int >= 1);
        }
        let dist = isqrt(sq);
        proof {
            lemma_sqrt_floor_bounds(sq as int);
            assert(dist as int >= 1) by (nonlinear_arith)
                requires
                    (dist as int + 1) * (dist as int + 1) > sq as int,
                    sq as int >= 1,
                    dist as int >= 0,
            {
            }
            assert(abs_i(dx as int) <= dist as int && abs_i(dy as int) <= dist as int) by {
                if abs_i(dx as int) > dist as int {
                    assert((dist + 1) * (dist + 1) <= abs_i(dx as int) * abs_i(dx as int))
                        by (nonlinear_arith)
                        requires
                            0 <= dist as int + 1 <= abs_i(dx as int),
                    {
                    }
                    assert(abs_i(dx as int) * abs_i(dx as int) <= sq as int) by (nonlinear_arith)
                        requires
                            sq as int == (dx as int) * (dx as int) + (dy as int) * (dy as int),
                        {
                    }
                }
                if abs_i(dy as int) > dist as int {
                    assert((dist + 1) * (dist + 1) <= abs_i(dy as int) * abs_i(dy as int))
                        by (nonlinear_arith)
                        requires
                            0 <= dist as int + 1 <= abs_i(dy as int),
                    {
                    }
                    assert(abs_i(dy as int) * abs_i(dy as int) <= sq as int) by (nonlinear_arith)
                        requires
                            sq as int == (dx as int) * (dx as int) + (dy as int) * (dy as int),
                        {
                    }
                }
            }
        }
        let sx = Self::step_component(dx, dist);
        let sy = Self::step_component(dy, dist);
        let fuel = dist / (STEP_MILLI as u64) + 1;
        proof {
            assert(dist as int <= 1080000) by (nonlinear_arith)
                requires
                    0 <= dist as int,
                    (dist as int) * (dist as int) <= sq as int,
                    sq as int <= 1155200000000,
            {
            }
            assert(fuel <= 1000);
        }
        self.los_step(f, ax, ay, bx, by, sx, sy, fuel)
    }

    /// One signed component of the ray step vector.
    fn step_component(d: i64, dist: u64) -> (r: i64)
        requires
            1 <= dist,
            abs_i(d as int) <= dist as int,
            -800000 <= d <= 800000,
        ensures
            r == step_of(d as int, dist as int),
            abs_i(r as int) <= STEP_MILLI,
    {
        proof {
            assert((d as int) * (STEP_MILLI as int) <= (dist as int) * (STEP_MILLI as int)
                && -((dist as int) * (STEP_MILLI as int)) <= (d as int) * (STEP_MILLI as int))
                by (nonlinear_arith)
                requires
                    abs_i(d as int) <= dist as int,
                    0 < dist,
            {
            }
            assert((dist as int) * (STEP_MILLI as int) / (dist as int) == STEP_MILLI as int)
                by (nonlinear_arith)
                requires
                    0 < dist as int,
            {
            }
        }
        if d >= 0 {
            let q = ((d * STEP_MILLI) as u64) / dist;
            proof {
                vstd::arithmetic::div_mod::lemma_div_is_ordered(
                    (d as int) * (STEP_MILLI as int),
                    (dist as int) * (STEP_MILLI as int),
                    dist as int,
                );
            }
            q as i64
        } else {
            let q = (((-d) * STEP_MILLI) as u64) / dist;
            proof {
                vstd::arithmetic::div_mod::lemma_div_is_ordered(
                    (-(d as int)) * (STEP_MILLI as int),
                    (dist as int) * (STEP_MILLI as int),
                    dist as int,
                );
            }
            -(q as i64)
        }
    }

    /// Executable twin of `los_walk`.
    fn los_step(
        &self,
        f: TileFilter,
        px: i64,
        py: i64,
        tx: i64,
        ty: i64,
        sx: i64,
        sy: i64,
        fuel: u64,
    ) -> (r: bool)
        requires
            self.wf(),
            abs_i(px as int) + (STEP_MILLI as int) * (fuel as int) <= 2400000,
            abs_i(py as int) + (STEP_MILLI as int) * (fuel as int) <= 2400000,
            -400000 <= tx <= 400000,
            -400000 <= ty <= 400000,
            abs_i(sx as int) <= STEP_MILLI,
            abs_i(sy as int) <= STEP_MILLI,
            fuel <= 1000,
        ensures
            r == los_walk(*self, f, px as int, py as int, tx as int, ty as int, sx as int, sy as int, fuel as nat),
        decreases fuel,
    {
        let ddx = if px >= tx {
            px - tx
        } else {
            tx - px
        };
        let ddy = if py >= ty {
            py - ty
        } else {
            ty - py
        };
        if ddx <= TOL_MILLI && ddy <= TOL_MILLI {
            return true;
        }
        if fuel == 0 {
            return true;
        }
        let nx = px + sx;
        let ny = py + sy;
        let cell = GridPos::from_world(nx, ny);
        proof {
            use_type_invariant(cell);
            assert(cell.idx_spec() == {
                let gx = GridPos::cell_of_world(nx as int);
                let gy = GridPos::cell_of_world(ny as int);
                if 0 <= gx < GRID_WIDTH && 0 <= gy < GRID_HEIGHT {
                    gy * GRID_WIDTH + gx
                } else {
                    0
                }
            });
        }
        let t = self.tile_at(cell);
        if !f.allows(&t) {
            false
        } else {
            self.los_step(f, nx, ny, tx, ty, sx, sy, fuel - 1)
        }
    }
}

} // verus!
