//! Bounds-checked coordinates on the fixed-size level grid.
//!
//! A `GridPos` can only hold coordinates inside `[0, WIDTH) x [0, HEIGHT)`;
//! the constructors either fail, clamp, or demand in-range arguments, so a
//! value that refers to a tile off the grid is simply not representable.
//! Higher layers rely on this to index the tile array without bounds checks.

use vstd::prelude::*;

verus! {

/// Number of tile columns in a level grid.
pub const GRID_WIDTH: usize = 20;

/// Number of tile rows in a level grid.
pub const GRID_HEIGHT: usize = 20;

/// Side length of the square world, in thousandths of a world unit.
pub const WORLD_MILLI: i64 = 800000;

/// Side length of one tile, in thousandths of a world unit.
pub const TILE_MILLI: i64 = 40000;

/// A coordinate pair that is always inside the grid.
#[derive(Clone, Copy, PartialEq, Eq, Structural, Debug)]
pub struct GridPos {
    x: usize,
    y: usize,
}

impl GridPos {
    /// The column, as a mathematical integer, for use in contracts.
    pub closed spec fn xi(self) -> int {
        self.x as int
    }

    /// The row, as a mathematical integer, for use in contracts.
    pub closed spec fn yi(self) -> int {
        self.y as int
    }

    /// In-range predicate; holds for every `GridPos` the library hands out.
    #[verifier::type_invariant]
    pub open spec fn wf(self) -> bool {
        0 <= self.xi() < GRID_WIDTH && 0 <= self.yi() < GRID_HEIGHT
    }

    /// Row-major index of this cell in a flat tile array.
    pub open spec fn idx_spec(self) -> int {
        self.yi() * GRID_WIDTH + self.xi()
    }

    /// Two positions are equal exactly when their coordinates are.
    pub proof fn lemma_eq_coords(a: GridPos, b: GridPos)
        ensures
            (a == b) <==> (a.xi() == b.xi() && a.yi() == b.yi()),
    {
    }

    /// Every row-major slot corresponds to some in-range position.
    pub proof fn lemma_pos_for_idx(j: int)
        requires
            0 <= j < GRID_WIDTH * GRID_HEIGHT,
        ensures
            exists|p: GridPos| p.wf() && #[trigger] p.idx_spec() == j,
    {
        let w = GRID_WIDTH as int;
        let p = GridPos { x: (j % w) as usize, y: (j / w) as usize };
        assert(0 <= j % w < w && 0 <= j / w < GRID_HEIGHT) by (nonlinear_arith)
            requires
                0 <= j < (GRID_WIDTH as int) * (GRID_HEIGHT as int),
                w == GRID_WIDTH as int,
        {
        }
        assert(p.idx_spec() == (j / w) * w + j % w);
        assert((j / w) * w + j % w == j) by (nonlinear_arith)
            requires
                w > 0,
        {
        }
        assert(p.wf() && p.idx_spec() == j);
    }

    /// The column coordinate.
    pub fn x(&self) -> (r: usize)
        ensures
            r == self.xi(),
            r < GRID_WIDTH,
    {
        proof {
            use_type_invariant(*self);
        }
        self.x
    }

    /// The row coordinate.
    pub fn y(&self) -> (r: usize)
        ensures
            r == self.yi(),
            r < GRID_HEIGHT,
    {
        proof {
            use_type_invariant(*self);
        }
        self.y
    }

    /// Row-major index into a flat tile array of the whole grid.
    pub fn idx(&self) -> (r: usize)
        ensures
            r == self.idx_spec(),
            r < GRID_WIDTH * GRID_HEIGHT,
    {
        proof {
            use_type_invariant(*self);
        }
        self.y * GRID_WIDTH + self.x
    }

    /// Builds a position when both coordinates are known to be in range.
    pub fn new(x: usize, y: usize) -> (r: GridPos)
        requires
            x < GRID_WIDTH,
            y < GRID_HEIGHT,
        ensures
            r.xi() == x && r.yi() == y,
            r.wf(),
    {
        GridPos { x, y }
    }

    /// Tries to build a position; fails if either coordinate is negative or
    /// falls beyond its bound.
    pub fn try_new(x: isize, y: isize) -> (r: Option<GridPos>)
        ensures
            r is Some <==> (0 <= x < GRID_WIDTH && 0 <= y < GRID_HEIGHT),
            r matches Some(p) ==> p.xi() == x && p.yi() == y && p.wf(),
    {
        if 0 <= x && x < GRID_WIDTH as isize && 0 <= y && y < GRID_HEIGHT as isize {
            Some(GridPos { x: x as usize, y: y as usize })
        } else {
            None
        }
    }

    /// Builds a position from arbitrary coordinates, clamping each one into
    /// its valid range.
    pub fn new_bounded(x: isize, y: isize) -> (r: GridPos)
        ensures
            r.xi() == Self::clamped(x as int, GRID_WIDTH as int),
            r.yi() == Self::clamped(y as int, GRID_HEIGHT as int),
            r.wf(),
    {
        let cx: usize = if x < 0 {
            0
        } else if x >= GRID_WIDTH as isize {
            GRID_WIDTH - 1
        } else {
            x as usize
        };
        let cy: usize = if y < 0 {
            0
        } else if y >= GRID_HEIGHT as isize {
            GRID_HEIGHT - 1
        } else {
            y as usize
        };
        GridPos { x: cx, y: cy }
    }

    /// What clamping a coordinate into `[0, bound)` yields.
    pub open spec fn clamped(v: int, bound: int) -> int {
        if v < 0 {
            0
        } else if v >= bound {
            bound - 1
        } else {
            v
        }
    }

    /// The top-left corner of the grid.
    pub fn min_pos() -> (r: GridPos)
        ensures
            r.xi() == 0 && r.yi() == 0,
    {
        GridPos { x: 0, y: 0 }
    }

    /// The bottom-right corner of the grid.
    pub fn max_pos() -> (r: GridPos)
        ensures
            r.xi() == GRID_WIDTH - 1 && r.yi() == GRID_HEIGHT - 1,
    {
        GridPos { x: GRID_WIDTH - 1, y: GRID_HEIGHT - 1 }
    }

    /// Coordinate-wise sum; both components must stay on the grid.
    pub fn add(self, rhs: GridPos) -> (r: GridPos)
        requires
            self.xi() + rhs.xi() < GRID_WIDTH,
            self.yi() + rhs.yi() < GRID_HEIGHT,
        ensures
            r.xi() == self.xi() + rhs.xi(),
            r.yi() == self.yi() + rhs.yi(),
    {
        proof {
            use_type_invariant(self);
            use_type_invariant(rhs);
        }
        GridPos { x: self.x + rhs.x, y: self.y + rhs.y }
    }

    /// Coordinate-wise difference; both components must stay non-negative.
    pub fn sub(self, rhs: GridPos) -> (r: GridPos)
        requires
            self.xi() >= rhs.xi(),
            self.yi() >= rhs.yi(),
        ensures
            r.xi() == self.xi() - rhs.xi(),
            r.yi() == self.yi() - rhs.yi(),
    {
        proof {
            use_type_invariant(self);
            use_type_invariant(rhs);
        }
        GridPos { x: self.x - rhs.x, y: self.y - rhs.y }
    }

    /// Adds the same offset to both coordinates.
    pub fn add_n(self, n: usize) -> (r: GridPos)
        requires
            self.xi() + n < GRID_WIDTH,
            self.yi() + n < GRID_HEIGHT,
        ensures
            r.xi() == self.xi() + n,
            r.yi() == self.yi() + n,
    {
        proof {
            use_type_invariant(self);
        }
        GridPos { x: self.x + n, y: self.y + n }
    }

    /// Subtracts the same offset from both coordinates.
    pub fn sub_n(self, n: usize) -> (r: GridPos)
        requires
            self.xi() >= n,
            self.yi() >= n,
        ensures
            r.xi() == self.xi() - n,
            r.yi() == self.yi() - n,
    {
        proof {
            use_type_invariant(self);
        }
        GridPos { x: self.x - n, y: self.y - n }
    }

    /// The world coordinate of this cell's centre along one axis.
    pub open spec fn world_coord(c: int) -> int {
        c * (TILE_MILLI as int) + (TILE_MILLI as int) / 2 - (WORLD_MILLI as int) / 2
    }

    /// Which cell index a world coordinate rounds to: the inverse of the
    /// affine cell-centre map, so every point maps to the cell whose
    /// centre is nearest (a point equidistant between two centres goes to
    /// the higher cell). May fall outside `[0, 20)`. In particular the
    /// centre of a cell maps back to that very cell, which makes
    /// `from_world` invert `to_world` on the whole grid.
    pub open spec fn cell_of_world(v: int) -> int {
        (v + (WORLD_MILLI as int) / 2) / (TILE_MILLI as int)
    }

    /// The world round trip is the identity: converting any cell to the
    /// world coordinates of its centre and back yields the same cell.
    pub proof fn lemma_world_round_trip(c: int)
        requires
            0 <= c < GRID_WIDTH,
        ensures
            Self::cell_of_world(Self::world_coord(c)) == c,
    {
        let d = TILE_MILLI as int;
        vstd::arithmetic::div_mod::lemma_fundamental_div_mod_converse(
            c * d + d / 2,
            d,
            c,
            d / 2,
        );
    }

    /// The centre of this cell in world coordinates (thousandths of a world
    /// unit, origin at the centre of the 800 x 800 unit world).
    pub fn to_world(&self) -> (r: (i64, i64))
        ensures
            r.0 == Self::world_coord(self.xi()),
            r.1 == Self::world_coord(self.yi()),
    {
        proof {
            use_type_invariant(*self);
        }
        (
            self.x as i64 * TILE_MILLI + TILE_MILLI / 2 - WORLD_MILLI / 2,
            self.y as i64 * TILE_MILLI + TILE_MILLI / 2 - WORLD_MILLI / 2,
        )
    }

    /// The cell containing a world point, rounding to the nearest cell
    /// centre; falls back to the origin cell when the point rounds to a
    /// cell outside the grid. Inverts `to_world`: the centre of any cell
    /// maps back to exactly that cell.
    pub fn from_world(wx: i64, wy: i64) -> (r: GridPos)
        requires
            -1000000000 <= wx <= 1000000000,
            -1000000000 <= wy <= 1000000000,
        ensures
            ({
                let gx = Self::cell_of_world(wx as int);
                let gy = Self::cell_of_world(wy as int);
                if 0 <= gx < GRID_WIDTH && 0 <= gy < GRID_HEIGHT {
                    r.xi() == gx && r.yi() == gy
                } else {
                    r.xi() == 0 && r.yi() == 0
                }
            }),
            r.wf(),
    {
        let gx = Self::round_axis(wx);
        let gy = Self::round_axis(wy);
        if 0 <= gx && gx < GRID_WIDTH as i64 && 0 <= gy && gy < GRID_HEIGHT as i64 {
            GridPos { x: gx as usize, y: gy as usize }
        } else {
            GridPos { x: 0, y: 0 }
        }
    }

    /// Rounds one world coordinate to its cell index.
    fn round_axis(v: i64) -> (r: i64)
        requires
            -1000000000 <= v <= 1000000000,
        ensures
            r == Self::cell_of_world(v as int),
    {
        let s = v + WORLD_MILLI / 2;
        if s >= 0 {
            ((s as u64) / (TILE_MILLI as u64)) as i64
        } else {
            let t = -s;
            let q = (((t as u64) + (TILE_MILLI as u64 - 1)) / (TILE_MILLI as u64)) as i64;
            proof {
                let d = TILE_MILLI as int;
                vstd::arithmetic::div_mod::lemma_fundamental_div_mod(t as int + d - 1, d);
                vstd::arithmetic::div_mod::lemma_fundamental_div_mod(s as int, d);
                assert((s as int) / d == -(q as int));
            }
            -q
        }
    }

    /// A uniformly random position with both coordinates drawn from the
    /// inclusive per-axis ranges spanned by `min` and `max`.
    pub fn random(rng: &mut rand::rngs::StdRng, min: GridPos, max: GridPos) -> (r: GridPos)
        requires
            min.xi() <= max.xi(),
            min.yi() <= max.yi(),
        ensures
            min.xi() <= r.xi() <= max.xi(),
            min.yi() <= r.yi() <= max.yi(),
            r.wf(),
    {
        proof {
            use_type_invariant(min);
            use_type_invariant(max);
        }
        let x = crate::rng::sample_range(rng, min.x(), max.x());
        let y = crate::rng::sample_range(rng, min.y(), max.y());
        GridPos { x, y }
    }

    /// Every grid cell in row-major order.
    pub fn iter_all() -> (r: Vec<GridPos>)
        ensures
            r@.len() == GRID_WIDTH * GRID_HEIGHT,
            forall|i: int|
                0 <= i < r@.len() ==> {
                    &&& (#[trigger] r@[i]).wf()
                    &&& r@[i].idx_spec() == i
                    &&& r@[i].xi() == i % (GRID_WIDTH as int)
                    &&& r@[i].yi() == i / (GRID_WIDTH as int)
                },
    {
        let mut out: Vec<GridPos> = Vec::new();
        for y in 0..GRID_HEIGHT
            invariant
                out@.len() == y * GRID_WIDTH,
                forall|i: int|
                    0 <= i < out@.len() ==> {
                        &&& (#[trigger] out@[i]).wf()
                        &&& out@[i].idx_spec() == i
                        &&& out@[i].xi() == i % (GRID_WIDTH as int)
                        &&& out@[i].yi() == i / (GRID_WIDTH as int)
                    },
        {
            for x in 0..GRID_WIDTH
                invariant
                    y < GRID_HEIGHT,
                    out@.len() == y * GRID_WIDTH + x,
                    forall|i: int|
                        0 <= i < out@.len() ==> {
                            &&& (#[trigger] out@[i]).wf()
                            &&& out@[i].idx_spec() == i
                            &&& out@[i].xi() == i % (GRID_WIDTH as int)
                            &&& out@[i].yi() == i / (GRID_WIDTH as int)
                        },
            {
                out.push(GridPos { x, y });
            }
        }
        out
    }
}

} // verus!
