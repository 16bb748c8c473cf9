//! Breadth-first search over the grid: reachability marking and shortest
//! paths, together with the lemmas that relate a concrete search frontier to
//! the `has_path` predicate of `Grid`.

use vstd::prelude::*;

use crate::grid::Grid;
use crate::grid::adjacent;
use crate::pos::GRID_HEIGHT;
use crate::pos::GRID_WIDTH;
use crate::pos::GridPos;
use crate::tile::Tile;
use crate::tile::TileFilter;

verus! {

/// Number of `true` entries in a sequence of booleans.
pub open spec fn count_true(s: Seq<bool>) -> int
    decreases s.len(),
{
    if s.len() == 0 {
        0
    } else {
        count_true(s.drop_last()) + if s.last() {
            1int
        } else {
            0int
        }
    }
}

/// There are never more `true` entries than entries.
pub proof fn lemma_count_true_le_len(s: Seq<bool>)
    ensures
        count_true(s) <= s.len(),
    decreases s.len(),
{
    if s.len() > 0 {
        lemma_count_true_le_len(s.drop_last());
    }
}

/// Flipping one entry from `false` to `true` raises the count by one.
pub proof fn lemma_count_true_set(s: Seq<bool>, i: int)
    requires
        0 <= i < s.len(),
        !s[i],
    ensures
        count_true(s.update(i, true)) == count_true(s) + 1,
    decreases s.len(),
{
    let t = s.update(i, true);
    if i == s.len() - 1 {
        assert(t.drop_last() =~= s.drop_last());
    } else {
        assert(t.drop_last() =~= s.drop_last().update(i, true));
        assert(t.last() == s.last());
        lemma_count_true_set(s.drop_last(), i);
    }
}

/// Distinct in-range positions occupy distinct slots of a row-major array.
pub proof fn lemma_idx_injective(p: GridPos, q: GridPos)
    requires
        p.wf(),
        q.wf(),
        p.idx_spec() == q.idx_spec(),
    ensures
        p == q,
{
    assert(p.yi() == q.yi());
    assert(p.xi() == q.xi());
    GridPos::lemma_eq_coords(p, q);
}

/// The well-formedness bundle of the shortest-path search state: table
/// sizes, counters, the queue's content facts, the predecessor trace, the
/// depth ordering of the queue, and the processed prefix's closure.
pub open spec fn bfs_state_ok(
    g: Grid,
    f: TileFilter,
    start: GridPos,
    visited: Seq<bool>,
    queue: Seq<GridPos>,
    count: usize,
    origins: Seq<Option<GridPos>>,
    depth: Seq<usize>,
    head: int,
) -> bool {
    &&& visited.len() == GRID_WIDTH * GRID_HEIGHT
    &&& origins.len() == GRID_WIDTH * GRID_HEIGHT
    &&& depth.len() == GRID_WIDTH * GRID_HEIGHT
    &&& queue.len() == count
    &&& count == count_true(visited)
    &&& visited[start.idx_spec()]
    &&& depth[start.idx_spec()] == 0
    &&& queue.len() >= 1
    &&& queue[0] == start
    &&& forall|i: int|
        0 <= i < queue.len() ==> {
            &&& (#[trigger] queue[i]).wf()
            &&& f.allows_spec(g.tile_spec(queue[i]))
            &&& visited[queue[i].idx_spec()]
        }
    &&& forall|p: GridPos| p.wf() && #[trigger] visited[p.idx_spec()] ==> queue.contains(p)
    &&& forall|p: GridPos|
        p.wf() && #[trigger] visited[p.idx_spec()] ==> depth[p.idx_spec()] < count
    &&& trace_ok(g, f, start, visited, origins, depth)
    &&& forall|i: int|
        0 <= i < queue.len() - 1 ==> #[trigger] depth[queue[i].idx_spec()] <= depth[queue[i
            + 1].idx_spec()]
    &&& (0 <= head < queue.len() ==> depth[queue.last().idx_spec()] <= depth[queue[
        head].idx_spec()] + 1)
    &&& forall|i: int, q: GridPos|
        0 <= i < head && q.wf() && #[trigger] adjacent(queue[i], q) && f.allows_spec(
            g.tile_spec(q),
        ) ==> visited[q.idx_spec()] && depth[q.idx_spec()] <= depth[queue[i].idx_spec()] + 1
}

/// A queue whose recorded depths never drop between neighbouring entries
/// is sorted by depth overall.
pub proof fn lemma_queue_depth_sorted(queue: Seq<GridPos>, depth: Seq<usize>, i: int, k: int)
    requires
        forall|j: int|
            0 <= j < queue.len() - 1 ==> #[trigger] depth[queue[j].idx_spec()] <= depth[queue[j
                + 1].idx_spec()],
        0 <= i <= k < queue.len(),
    ensures
        depth[queue[i].idx_spec()] <= depth[queue[k].idx_spec()],
    decreases k - i,
{
    if i < k {
        lemma_queue_depth_sorted(queue, depth, i, k - 1);
        assert(depth[queue[k - 1].idx_spec()] <= depth[queue[k - 1 + 1].idx_spec()]);
    }
}

impl Grid {
    /// `n` is the length of a shortest filtered path from `a` to `b`:
    /// some connecting path has `n` cells and none has fewer.
    #[verifier::opaque]
    pub open spec fn is_shortest_len(self, f: TileFilter, a: GridPos, b: GridPos, n: int) -> bool {
        &&& exists|path: Seq<GridPos>| self.connects(f, path, a, b) && path.len() == n
        &&& forall|path: Seq<GridPos>| self.connects(f, path, a, b) ==> path.len() >= n
    }

    /// The number of cells on a shortest filtered path from `a` to `b`
    /// (meaningful only when some path exists).
    #[verifier::opaque]
    pub open spec fn shortest_path_len(self, f: TileFilter, a: GridPos, b: GridPos) -> int {
        choose|n: int| self.is_shortest_len(f, a, b, n)
    }

    /// A path that no other path undercuts realises the shortest length.
    pub proof fn lemma_shortest_path_len(self, f: TileFilter, a: GridPos, b: GridPos, path: Seq<GridPos>)
        requires
            self.connects(f, path, a, b),
            forall|other: Seq<GridPos>| self.connects(f, other, a, b) ==> other.len() >= path.len(),
        ensures
            self.shortest_path_len(f, a, b) == path.len(),
    {
        reveal(Grid::is_shortest_len);
        reveal(Grid::shortest_path_len);
        let n0 = path.len() as int;
        assert(self.is_shortest_len(f, a, b, n0)) by {
            reveal(Grid::is_shortest_len);
            assert(self.connects(f, path, a, b) && path.len() == n0);
        }
        let n = self.shortest_path_len(f, a, b);
        assert(self.is_shortest_len(f, a, b, n));
        let w = choose|p: Seq<GridPos>| self.connects(f, p, a, b) && p.len() == n;
        assert(w.len() >= n0);
    }

    /// A cell that passes the filter is connected to itself.
    pub proof fn lemma_path_singleton(self, f: TileFilter, p: GridPos)
        requires
            p.wf(),
            f.allows_spec(self.tile_spec(p)),
        ensures
            self.connects(f, seq![p], p, p),
            self.has_path(f, p, p),
    {
        let path = seq![p];
        assert(path.first() == p);
        assert(path.last() == p);
        assert(self.connects(f, path, p, p));
    }

    /// A path can be extended by one adjacent, filter-passing cell.
    pub proof fn lemma_path_extend(
        self,
        f: TileFilter,
        path: Seq<GridPos>,
        a: GridPos,
        b: GridPos,
        c: GridPos,
    )
        requires
            self.connects(f, path, a, b),
            c.wf(),
            f.allows_spec(self.tile_spec(c)),
            adjacent(b, c),
        ensures
            self.connects(f, path.push(c), a, c),
            self.has_path(f, a, c),
    {
        let ext = path.push(c);
        assert(ext.last() == c);
        assert(ext.first() == a);
        assert(forall|i: int| 0 <= i < path.len() ==> ext[i] == path[i]);
        assert(adjacent(ext[ext.len() - 2], ext[ext.len() - 1]));
    }

    /// Every cell a path crosses is itself reachable from the path's start.
    pub proof fn lemma_path_reaches_prefix(
        self,
        f: TileFilter,
        path: Seq<GridPos>,
        a: GridPos,
        b: GridPos,
    )
        requires
            self.connects(f, path, a, b),
        ensures
            forall|i: int| 0 <= i < path.len() ==> self.has_path(f, a, #[trigger] path[i]),
    {
        assert forall|i: int| 0 <= i < path.len() implies self.has_path(f, a, #[trigger] path[i]) by {
            let pre = path.take(i + 1);
            assert(pre.first() == a);
            assert(pre.last() == path[i]);
            assert(forall|j: int| 0 <= j < pre.len() ==> pre[j] == path[j]);
            assert(self.connects(f, pre, a, path[i]));
        }
    }

    /// If a set of cells contains the start of a path and is closed under
    /// stepping to adjacent filter-passing cells, it contains the path's end.
    ///
    /// The set is given as a row-major boolean table.
    pub proof fn lemma_closed_set_covers_path(
        self,
        f: TileFilter,
        table: Seq<bool>,
        path: Seq<GridPos>,
        a: GridPos,
        b: GridPos,
    )
        requires
            self.connects(f, path, a, b),
            table.len() == GRID_WIDTH * GRID_HEIGHT,
            table[a.idx_spec()],
            forall|p: GridPos, q: GridPos|
                p.wf() && q.wf() && table[p.idx_spec()] && #[trigger] adjacent(p, q)
                    && f.allows_spec(self.tile_spec(q)) ==> table[q.idx_spec()],
        ensures
            table[b.idx_spec()],
        decreases path.len(),
    {
        if path.len() == 1 {
            assert(b == a);
        } else {
            let pre = path.drop_last();
            let mid = pre.last();
            assert(forall|j: int| 0 <= j < pre.len() ==> pre[j] == path[j]);
            assert(self.connects(f, pre, a, mid));
            self.lemma_closed_set_covers_path(f, table, pre, a, mid);
            assert(mid == path[path.len() - 2]);
            assert(b == path[path.len() - 2 + 1]);
            assert(adjacent(path[path.len() - 2], path[path.len() - 2 + 1]));
        }
    }

    /// Sequences of tiles that agree on which slots are empty have the
    /// same number of empty tiles.
    pub proof fn lemma_num_empty_pointwise(s1: Seq<Tile>, s2: Seq<Tile>)
        requires
            s1.len() == s2.len(),
            forall|j: int|
                0 <= j < s1.len() ==> (#[trigger] s1[j]).is_empty_spec() == s2[j].is_empty_spec(),
        ensures
            crate::grid::num_empty(s1) == crate::grid::num_empty(s2),
        decreases s1.len(),
    {
        if s1.len() > 0 {
            Self::lemma_num_empty_pointwise(s1.drop_last(), s2.drop_last());
        }
    }

    /// Grids that agree on which cells are empty have the same number of
    /// empty tiles.
    pub proof fn lemma_num_empty_same(g1: Grid, g2: Grid)
        requires
            g1.wf(),
            g2.wf(),
            forall|p: GridPos| p.wf() ==> (#[trigger] g1.empty_at(p)) == g2.empty_at(p),
        ensures
            crate::grid::num_empty(g1.tiles@) == crate::grid::num_empty(g2.tiles@),
    {
        assert forall|j: int|
            0 <= j < g1.tiles@.len() implies (#[trigger] g1.tiles@[j]).is_empty_spec()
            == g2.tiles@[j].is_empty_spec() by {
            GridPos::lemma_pos_for_idx(j);
            let p = choose|p: GridPos| p.wf() && #[trigger] p.idx_spec() == j;
            assert(g1.empty_at(p) == g2.empty_at(p));
        }
        Self::lemma_num_empty_pointwise(g1.tiles@, g2.tiles@);
    }

    /// Whether two grids can be walked through identically: for the
    /// empty-tile filter, only which cells are empty matters, so grids that
    /// agree on emptiness have exactly the same paths.
    pub proof fn lemma_has_path_same_emptiness(g1: Grid, g2: Grid, a: GridPos, b: GridPos)
        requires
            forall|p: GridPos| p.wf() ==> (#[trigger] g1.empty_at(p)) == g2.empty_at(p),
        ensures
            g1.has_path(TileFilter::AnyEmpty, a, b) == g2.has_path(TileFilter::AnyEmpty, a, b),
    {
        let f = TileFilter::AnyEmpty;
        if g1.has_path(f, a, b) {
            let path = choose|path: Seq<GridPos>| g1.connects(f, path, a, b);
            assert forall|i: int| 0 <= i < path.len() implies f.allows_spec(
                g2.tile_spec(#[trigger] path[i]),
            ) by {
                assert(g1.empty_at(path[i]));
                assert(g2.empty_at(path[i]));
            }
            assert(g2.connects(f, path, a, b));
        }
        if g2.has_path(f, a, b) {
            let path = choose|path: Seq<GridPos>| g2.connects(f, path, a, b);
            assert forall|i: int| 0 <= i < path.len() implies f.allows_spec(
                g1.tile_spec(#[trigger] path[i]),
            ) by {
                assert(g2.empty_at(path[i]));
                assert(g1.empty_at(path[i]));
            }
            assert(g1.connects(f, path, a, b));
        }
    }

    /// The reachability invariant survives any change that keeps the same
    /// cells empty and the same player spawn.
    pub proof fn lemma_reachable_invariant_same_emptiness(g1: Grid, g2: Grid)
        requires
            g1.reachable_invariant(),
            g2.player == g1.player,
            forall|p: GridPos| p.wf() ==> (#[trigger] g1.empty_at(p)) == g2.empty_at(p),
        ensures
            g2.reachable_invariant(),
    {
        let pl = g1.player->Some_0;
        assert forall|p: GridPos| p.wf() && g2.empty_at(p) implies g2.has_path(
            TileFilter::AnyEmpty,
            pl,
            p,
        ) by {
            assert(g1.empty_at(p));
            Self::lemma_has_path_same_emptiness(g1, g2, pl, p);
        }
    }

    /// Breadth-first flood fill: computes, as a row-major boolean table,
    /// exactly the set of cells reachable from `start` through tiles that
    /// pass the filter.
    ///
    /// No distance or ordering information is kept; this is the reachability
    /// marking pass, not the shortest-path search.
    pub fn reachable_set(&self, f: TileFilter, start: GridPos) -> (r: Vec<bool>)
        requires
            self.wf(),
        ensures
            r@.len() == GRID_WIDTH * GRID_HEIGHT,
            forall|p: GridPos|
                p.wf() ==> r@[#[trigger] p.idx_spec()] == self.has_path(f, start, p),
    {
        proof {
            use_type_invariant(start);
        }
        let mut visited: Vec<bool> = vec![false; GRID_WIDTH * GRID_HEIGHT];
        if !f.allows(&self.tile_at(start)) {
            proof {
                assert forall|p: GridPos| p.wf() implies !self.has_path(f, start, p) by {
                    if self.has_path(f, start, p) {
                        let path = choose|path: Seq<GridPos>| self.connects(f, path, start, p);
                        assert(f.allows_spec(self.tile_spec(path.first())));
                    }
                }
            }
            return visited;
        }
        let mut queue: Vec<GridPos> = Vec::new();
        let si = start.idx();
        proof {
            lemma_count_true_zero(visited@);
            lemma_count_true_set(visited@, si as int);
        }
        visited[si] = true;
        queue.push(start);
        let mut count: usize = 1;
        let mut head: usize = 0;
        proof {
            self.lemma_path_singleton(f, start);
            assert forall|p: GridPos| p.wf() && #[trigger] visited@[p.idx_spec()] implies self.has_path(
                f,
                start,
                p,
            ) && queue@.contains(p) by {
                lemma_idx_injective(p, start);
                assert(queue@[0] == start);
            }
        }
        while head < queue.len()
            invariant
                self.wf(),
                start.wf(),
                f.allows_spec(self.tile_spec(start)),
                visited@.len() == GRID_WIDTH * GRID_HEIGHT,
                head <= queue@.len(),
                queue@.len() == count,
                count == count_true(visited@),
                visited@[start.idx_spec()],
                forall|i: int|
                    0 <= i < queue@.len() ==> {
                        &&& (#[trigger] queue@[i]).wf()
                        &&& f.allows_spec(self.tile_spec(queue@[i]))
                        &&& visited@[queue@[i].idx_spec()]
                    },
                forall|p: GridPos|
                    p.wf() && #[trigger] visited@[p.idx_spec()] ==> self.has_path(f, start, p),
                forall|p: GridPos|
                    p.wf() && #[trigger] visited@[p.idx_spec()] ==> queue@.contains(p),
                forall|i: int, q: GridPos|
                    0 <= i < head && q.wf() && #[trigger] adjacent(queue@[i], q) && f.allows_spec(
                        self.tile_spec(q),
                    ) ==> visited@[q.idx_spec()],
            decreases GRID_WIDTH * GRID_HEIGHT - head,
        {
            proof {
                lemma_count_true_le_len(visited@);
            }
            let pos = queue[head];
            head = head + 1;
            let ghost v0 = visited@;
            let px = pos.x();
            let py = pos.y();
            let ghost gpx = pos.xi();
            let ghost gpy = pos.yi();
            self.visit_candidate(f, start, &mut visited, &mut queue, &mut count, pos, px as isize
                + 1, py as isize);
            proof {
                assert(candidate_done(*self, f, visited@, gpx + 1, gpy));
            }
            self.visit_candidate(f, start, &mut visited, &mut queue, &mut count, pos, px as isize
                - 1, py as isize);
            proof {
                assert(candidate_done(*self, f, visited@, gpx - 1, gpy));
            }
            self.visit_candidate(f, start, &mut visited, &mut queue, &mut count, pos, px as isize,
                py as isize + 1);
            proof {
                assert(candidate_done(*self, f, visited@, gpx, gpy + 1));
            }
            self.visit_candidate(f, start, &mut visited, &mut queue, &mut count, pos, px as isize,
                py as isize - 1);
            proof {
                assert(candidate_done(*self, f, visited@, gpx, gpy - 1));
                assert forall|i: int, q: GridPos|
                    0 <= i < head && q.wf() && #[trigger] adjacent(queue@[i], q) && f.allows_spec(
                        self.tile_spec(q),
                    ) implies visited@[q.idx_spec()] by {
                    if i < head - 1 {
                        assert(v0[q.idx_spec()]);
                    } else {
                        assert(queue@[i] == pos);
                        assert((q.xi() == gpx + 1 && q.yi() == gpy) || (q.xi() == gpx - 1 && q.yi()
                            == gpy) || (q.xi() == gpx && q.yi() == gpy + 1) || (q.xi() == gpx
                            && q.yi() == gpy - 1));
                    }
                }
            }
        }
        proof {
            assert forall|p: GridPos| p.wf() implies visited@[p.idx_spec()] == self.has_path(
                f,
                start,
                p,
            ) by {
                if self.has_path(f, start, p) {
                    let path = choose|path: Seq<GridPos>| self.connects(f, path, start, p);
                    assert forall|u: GridPos, q: GridPos|
                        u.wf() && q.wf() && visited@[u.idx_spec()] && #[trigger] adjacent(u, q)
                            && f.allows_spec(self.tile_spec(q)) implies visited@[q.idx_spec()] by {
                        let i = choose|i: int| 0 <= i < queue@.len() && queue@[i] == u;
                        assert(queue@.contains(u));
                        assert(0 <= i < head);
                    }
                    self.lemma_closed_set_covers_path(f, visited@, path, start, p);
                }
            }
        }
        visited
    }
}

/// All in-range, filter-passing cells at the given coordinates are marked in
/// the table. (Vacuously true when the coordinates are off the grid.)
pub open spec fn candidate_done(g: Grid, f: TileFilter, table: Seq<bool>, cx: int, cy: int) -> bool {
    forall|q: GridPos|
        q.wf() && q.xi() == cx && q.yi() == cy && f.allows_spec(g.tile_spec(q)) ==> table[#[trigger] q.idx_spec()]
}

/// The predecessor and distance tables of a breadth-first search are
/// consistent: every visited cell other than the start records a visited,
/// adjacent, filter-passing parent one step closer to the start.
pub open spec fn trace_ok(
    g: Grid,
    f: TileFilter,
    start: GridPos,
    visited: Seq<bool>,
    origins: Seq<Option<GridPos>>,
    depth: Seq<usize>,
) -> bool {
    forall|p: GridPos|
        p.wf() && #[trigger] visited[p.idx_spec()] && p != start ==> {
            &&& origins[p.idx_spec()] matches Some(par)
            &&& par.wf()
            &&& visited[par.idx_spec()]
            &&& adjacent(par, p)
            &&& f.allows_spec(g.tile_spec(par))
            &&& f.allows_spec(g.tile_spec(p))
            &&& depth[p.idx_spec()] == depth[par.idx_spec()] + 1
        }
}

/// A sequence with no `true` entry counts zero.
pub proof fn lemma_count_true_zero(s: Seq<bool>)
    requires
        forall|i: int| 0 <= i < s.len() ==> !s[i],
    ensures
        count_true(s) == 0,
    decreases s.len(),
{
    if s.len() > 0 {
        lemma_count_true_zero(s.drop_last());
    }
}

impl Grid {
    /// One neighbour-expansion step of the breadth-first searches: if the
    /// cell at `(cx, cy)` is on the grid, passes the filter and has not been
    /// seen yet, marks it seen and appends it to the frontier queue.
    fn visit_candidate(
        &self,
        f: TileFilter,
        start: GridPos,
        visited: &mut Vec<bool>,
        queue: &mut Vec<GridPos>,
        count: &mut usize,
        parent: GridPos,
        cx: isize,
        cy: isize,
    )
        requires
            self.wf(),
            old(visited)@.len() == GRID_WIDTH * GRID_HEIGHT,
            old(queue)@.len() == *old(count),
            *old(count) == count_true(old(visited)@),
            self.has_path(f, start, parent),
            (cx == parent.xi() + 1 && cy == parent.yi()) || (cx == parent.xi() - 1 && cy
                == parent.yi()) || (cx == parent.xi() && cy == parent.yi() + 1) || (cx
                == parent.xi() && cy == parent.yi() - 1),
            forall|i: int|
                0 <= i < old(queue)@.len() ==> {
                    &&& (#[trigger] old(queue)@[i]).wf()
                    &&& f.allows_spec(self.tile_spec(old(queue)@[i]))
                    &&& old(visited)@[old(queue)@[i].idx_spec()]
                },
            forall|p: GridPos|
                p.wf() && #[trigger] old(visited)@[p.idx_spec()] ==> self.has_path(f, start, p),
            forall|p: GridPos|
                p.wf() && #[trigger] old(visited)@[p.idx_spec()] ==> old(queue)@.contains(p),
        ensures
            final(visited)@.len() == GRID_WIDTH * GRID_HEIGHT,
            forall|j: int|
                0 <= j < GRID_WIDTH * GRID_HEIGHT && old(visited)@[j]
                    ==> #[trigger] final(visited)@[j],
            final(queue)@.len() >= old(queue)@.len(),
            forall|i: int| 0 <= i < old(queue)@.len() ==> #[trigger] final(queue)@[i] == old(queue)@[i],
            final(queue)@.len() == *final(count),
            *final(count) == count_true(final(visited)@),
            *final(count) <= GRID_WIDTH * GRID_HEIGHT,
            forall|i: int|
                0 <= i < final(queue)@.len() ==> {
                    &&& (#[trigger] final(queue)@[i]).wf()
                    &&& f.allows_spec(self.tile_spec(final(queue)@[i]))
                    &&& final(visited)@[final(queue)@[i].idx_spec()]
                },
            forall|p: GridPos|
                p.wf() && #[trigger] final(visited)@[p.idx_spec()] ==> self.has_path(f, start, p),
            forall|p: GridPos|
                p.wf() && #[trigger] final(visited)@[p.idx_spec()] ==> final(queue)@.contains(p),
            candidate_done(*self, f, final(visited)@, cx as int, cy as int),
            forall|a: int, b: int|
                candidate_done(*self, f, old(visited)@, a, b) ==> #[trigger] candidate_done(
                    *self,
                    f,
                    final(visited)@,
                    a,
                    b,
                ),
    {
        proof {
            lemma_count_true_le_len(old(visited)@);
        }
        match GridPos::try_new(cx, cy) {
            None => {
                proof {
                    assert(!(0 <= cx < GRID_WIDTH && 0 <= cy < GRID_HEIGHT));
                }
            },
            Some(np) => {
                proof {
                    use_type_invariant(np);
                }
                let ni = np.idx();
                if f.allows(&self.tile_at(np)) && !visited[ni] {
                    proof {
                        lemma_count_true_set(visited@, ni as int);
                    }
                    visited[ni] = true;
                    queue.push(np);
                    *count = *count + 1;
                    proof {
                        lemma_count_true_le_len(visited@);
                        let path = choose|path: Seq<GridPos>|
                            self.connects(f, path, start, parent);
                        self.lemma_path_extend(f, path, start, parent, np);
                        assert(queue@.last() == np);
                        assert(queue@.contains(np));
                        assert forall|p: GridPos|
                            p.wf() && #[trigger] visited@[p.idx_spec()] implies queue@.contains(p) by {
                            if p.idx_spec() == ni as int {
                                lemma_idx_injective(p, np);
                            } else {
                                assert(old(visited)@[p.idx_spec()]);
                                let i = choose|i: int|
                                    0 <= i < old(queue)@.len() && old(queue)@[i] == p;
                                assert(queue@[i] == p);
                            }
                        }
                        assert forall|q: GridPos|
                            q.wf() && q.xi() == cx && q.yi() == cy && f.allows_spec(
                                self.tile_spec(q),
                            ) implies visited@[q.idx_spec()] by {
                            GridPos::lemma_eq_coords(q, np);
                        }
                    }
                } else {
                    proof {
                        assert forall|q: GridPos|
                            q.wf() && q.xi() == cx && q.yi() == cy && f.allows_spec(
                                self.tile_spec(q),
                            ) implies visited@[q.idx_spec()] by {
                            GridPos::lemma_eq_coords(q, np);
                        }
                    }
                }
            },
        }
    }

    /// Like `visit_candidate`, but additionally records, for every newly
    /// visited cell, which cell it was discovered from and at what distance.
    #[verifier::rlimit(100)]
    fn visit_candidate_traced(
        &self,
        f: TileFilter,
        start: GridPos,
        visited: &mut Vec<bool>,
        queue: &mut Vec<GridPos>,
        count: &mut usize,
        origins: &mut Vec<Option<GridPos>>,
        depth: &mut Vec<usize>,
        parent: GridPos,
        cx: isize,
        cy: isize,
    )
        requires
            self.wf(),
            old(visited)@.len() == GRID_WIDTH * GRID_HEIGHT,
            old(origins)@.len() == GRID_WIDTH * GRID_HEIGHT,
            old(depth)@.len() == GRID_WIDTH * GRID_HEIGHT,
            old(queue)@.len() == *old(count),
            *old(count) == count_true(old(visited)@),
            parent.wf(),
            old(visited)@[parent.idx_spec()],
            f.allows_spec(self.tile_spec(parent)),
            (cx == parent.xi() + 1 && cy == parent.yi()) || (cx == parent.xi() - 1 && cy
                == parent.yi()) || (cx == parent.xi() && cy == parent.yi() + 1) || (cx
                == parent.xi() && cy == parent.yi() - 1),
            forall|i: int|
                0 <= i < old(queue)@.len() ==> {
                    &&& (#[trigger] old(queue)@[i]).wf()
                    &&& f.allows_spec(self.tile_spec(old(queue)@[i]))
                    &&& old(visited)@[old(queue)@[i].idx_spec()]
                },
            forall|p: GridPos|
                p.wf() && #[trigger] old(visited)@[p.idx_spec()] ==> old(queue)@.contains(p),
            forall|p: GridPos|
                p.wf() && #[trigger] old(visited)@[p.idx_spec()] ==> old(depth)@[p.idx_spec()]
                    < *old(count),
            trace_ok(*self, f, start, old(visited)@, old(origins)@, old(depth)@),
        ensures
            final(visited)@.len() == GRID_WIDTH * GRID_HEIGHT,
            final(origins)@.len() == GRID_WIDTH * GRID_HEIGHT,
            final(depth)@.len() == GRID_WIDTH * GRID_HEIGHT,
            forall|j: int|
                0 <= j < GRID_WIDTH * GRID_HEIGHT && old(visited)@[j]
                    ==> #[trigger] final(visited)@[j],
            forall|j: int|
                0 <= j < GRID_WIDTH * GRID_HEIGHT && old(visited)@[j] ==> #[trigger] final(depth)@[j]
                    == old(depth)@[j] && final(origins)@[j] == old(origins)@[j],
            old(queue)@.len() <= final(queue)@.len() <= old(queue)@.len() + 1,
            forall|i: int| 0 <= i < old(queue)@.len() ==> #[trigger] final(queue)@[i] == old(queue)@[i],
            final(queue)@.len() == *final(count),
            *final(count) == count_true(final(visited)@),
            *final(count) <= GRID_WIDTH * GRID_HEIGHT,
            forall|i: int|
                0 <= i < final(queue)@.len() ==> {
                    &&& (#[trigger] final(queue)@[i]).wf()
                    &&& f.allows_spec(self.tile_spec(final(queue)@[i]))
                    &&& final(visited)@[final(queue)@[i].idx_spec()]
                },
            forall|p: GridPos|
                p.wf() && #[trigger] final(visited)@[p.idx_spec()] ==> final(queue)@.contains(p),
            forall|p: GridPos|
                p.wf() && #[trigger] final(visited)@[p.idx_spec()] ==> final(depth)@[p.idx_spec()]
                    < *final(count),
            trace_ok(*self, f, start, final(visited)@, final(origins)@, final(depth)@),
            forall|i: int|
                old(queue)@.len() <= i < final(queue)@.len()
                    ==> #[trigger] final(depth)@[final(queue)@[i].idx_spec()]
                    == old(depth)@[parent.idx_spec()] + 1
                    && !old(visited)@[final(queue)@[i].idx_spec()],
            candidate_done(*self, f, final(visited)@, cx as int, cy as int),
            forall|a: int, b: int|
                candidate_done(*self, f, old(visited)@, a, b) ==> #[trigger] candidate_done(
                    *self,
                    f,
                    final(visited)@,
                    a,
                    b,
                ),
    {
        proof {
            lemma_count_true_le_len(old(visited)@);
        }
        match GridPos::try_new(cx, cy) {
            None => {
                proof {
                    assert(!(0 <= cx < GRID_WIDTH && 0 <= cy < GRID_HEIGHT));
                }
            },
            Some(np) => {
                proof {
                    use_type_invariant(np);
                }
                let ni = np.idx();
                if f.allows(&self.tile_at(np)) && !visited[ni] {
                    proof {
                        lemma_count_true_set(visited@, ni as int);
                    }
                    visited[ni] = true;
                    queue.push(np);
                    let pd = depth[parent.idx()];
                    origins[ni] = Some(parent);
                    depth[ni] = pd + 1;
                    *count = *count + 1;
                    proof {
                        lemma_count_true_le_len(visited@);
                        assert(queue@.last() == np);
                        assert(queue@.contains(np));
                        assert forall|p: GridPos|
                            p.wf() && #[trigger] visited@[p.idx_spec()] implies queue@.contains(
                            p,
                        ) by {
                            if p.idx_spec() == ni as int {
                                lemma_idx_injective(p, np);
                            } else {
                                assert(old(visited)@[p.idx_spec()]);
                                let i = choose|i: int|
                                    0 <= i < old(queue)@.len() && old(queue)@[i] == p;
                                assert(queue@[i] == p);
                            }
                        }
                        assert forall|q: GridPos|
                            q.wf() && q.xi() == cx && q.yi() == cy && f.allows_spec(
                                self.tile_spec(q),
                            ) implies visited@[q.idx_spec()] by {
                            GridPos::lemma_eq_coords(q, np);
                        }
                        assert(adjacent(parent, np));
                        assert forall|p: GridPos|
                            p.wf() && #[trigger] visited@[p.idx_spec()] && p != start implies {
                            &&& origins@[p.idx_spec()] matches Some(par)
                            &&& par.wf()
                            &&& visited@[par.idx_spec()]
                            &&& adjacent(par, p)
                            &&& f.allows_spec(self.tile_spec(par))
                            &&& f.allows_spec(self.tile_spec(p))
                            &&& depth@[p.idx_spec()] == depth@[par.idx_spec()] + 1
                        } by {
                            if p.idx_spec() == ni as int {
                                lemma_idx_injective(p, np);
                            } else {
                                assert(old(visited)@[p.idx_spec()]);
                            }
                        }
                    }
                } else {
                    proof {
                        assert forall|q: GridPos|
                            q.wf() && q.xi() == cx && q.yi() == cy && f.allows_spec(
                                self.tile_spec(q),
                            ) implies visited@[q.idx_spec()] by {
                            GridPos::lemma_eq_coords(q, np);
                        }
                    }
                }
            },
        }
    }

    /// One step of the shortest-path lower-bound argument: walking a
    /// filtered path from the start, every cell is either already seen at
    /// a depth no larger than its position on the path, or the path has
    /// already passed a cell at least as deep as the frontier, which is as
    /// deep as the destination being dequeued.
    proof fn lemma_bfs_depth_bound_step(
        self,
        f: TileFilter,
        start: GridPos,
        end: GridPos,
        queue: Seq<GridPos>,
        head: int,
        visited: Seq<bool>,
        depth: Seq<usize>,
        path: Seq<GridPos>,
        j: int,
    )
        requires
            self.wf(),
            visited.len() == GRID_WIDTH * GRID_HEIGHT,
            depth.len() == GRID_WIDTH * GRID_HEIGHT,
            0 <= head < queue.len(),
            queue[head] == end,
            queue[0] == start,
            visited[start.idx_spec()],
            depth[start.idx_spec()] == 0,
            forall|i: int|
                0 <= i < queue.len() ==> (#[trigger] queue[i]).wf() && visited[queue[i].idx_spec()],
            forall|j: int|
                0 <= j < queue.len() - 1 ==> #[trigger] depth[queue[j].idx_spec()] <= depth[
                    queue[j + 1].idx_spec()],
            forall|i: int, q: GridPos|
                0 <= i < head && q.wf() && #[trigger] adjacent(queue[i], q) && f.allows_spec(
                    self.tile_spec(q),
                ) ==> visited[q.idx_spec()] && depth[q.idx_spec()] <= depth[queue[i].idx_spec()]
                    + 1,
            forall|p: GridPos| p.wf() && #[trigger] visited[p.idx_spec()] ==> queue.contains(p),
            self.is_path(f, path),
            path.first() == start,
            0 <= j < path.len(),
        ensures
            (visited[path[j].idx_spec()] && depth[path[j].idx_spec()] <= j) || depth[end.idx_spec()]
                <= j,
        decreases j,
    {
        if j == 0 {
            assert(path[0] == start);
        } else {
            self.lemma_bfs_depth_bound_step(
                f,
                start,
                end,
                queue,
                head,
                visited,
                depth,
                path,
                j - 1,
            );
            let prev = path[j - 1];
            let cur = path[j];
            if visited[prev.idx_spec()] && depth[prev.idx_spec()] <= j - 1 {
                if exists|i: int| 0 <= i < head && queue[i] == prev {
                    let i = choose|i: int| 0 <= i < head && queue[i] == prev;
                    assert(adjacent(path[j - 1], path[j - 1 + 1]));
                    assert(adjacent(queue[i], cur));
                    assert(visited[cur.idx_spec()] && depth[cur.idx_spec()]
                        <= depth[queue[i].idx_spec()] + 1);
                } else {
                    assert(queue.contains(prev));
                    let k = choose|k: int| 0 <= k < queue.len() && queue[k] == prev;
                    assert(k >= head);
                    lemma_queue_depth_sorted(queue, depth, head, k);
                }
            }
        }
    }

    /// The depth a breadth-first search records for the cell it is about
    /// to dequeue undercuts every filtered path to that cell: no path from
    /// the start can be shorter than the recorded depth plus one.
    proof fn lemma_bfs_shortest(
        self,
        f: TileFilter,
        start: GridPos,
        end: GridPos,
        queue: Seq<GridPos>,
        head: int,
        visited: Seq<bool>,
        depth: Seq<usize>,
        path: Seq<GridPos>,
    )
        requires
            self.wf(),
            visited.len() == GRID_WIDTH * GRID_HEIGHT,
            depth.len() == GRID_WIDTH * GRID_HEIGHT,
            0 <= head < queue.len(),
            queue[head] == end,
            queue[0] == start,
            visited[start.idx_spec()],
            depth[start.idx_spec()] == 0,
            forall|i: int|
                0 <= i < queue.len() ==> (#[trigger] queue[i]).wf() && visited[queue[i].idx_spec()],
            forall|j: int|
                0 <= j < queue.len() - 1 ==> #[trigger] depth[queue[j].idx_spec()] <= depth[
                    queue[j + 1].idx_spec()],
            forall|i: int, q: GridPos|
                0 <= i < head && q.wf() && #[trigger] adjacent(queue[i], q) && f.allows_spec(
                    self.tile_spec(q),
                ) ==> visited[q.idx_spec()] && depth[q.idx_spec()] <= depth[queue[i].idx_spec()]
                    + 1,
            forall|p: GridPos| p.wf() && #[trigger] visited[p.idx_spec()] ==> queue.contains(p),
            self.connects(f, path, start, end),
        ensures
            path.len() >= depth[end.idx_spec()] + 1,
    {
        let j = path.len() - 1;
        self.lemma_bfs_depth_bound_step(f, start, end, queue, head, visited, depth, path, j);
        assert(path[j] == end);
    }

    /// Breadth-first shortest-path search from `start` to `end` through
    /// tiles passing the filter.
    ///
    /// Returns `Some(path)` exactly when a filtered 4-connected route
    /// exists. The returned path starts at `start`, ends at `end`, steps
    /// only between adjacent cells that pass the filter, never repeats a
    /// cell, and is as short as any other such route; `None` means no
    /// route exists at all. Which cells a shortest route passes through is
    /// decided by the fixed neighbour enumeration order and carries no
    /// meaning beyond the length.
    #[verifier::rlimit(100)]
    pub fn path_between(&self, start: GridPos, end: GridPos, f: TileFilter) -> (r: Option<
        Vec<GridPos>,
    >)
        requires
            self.wf(),
        ensures
            r is Some <==> self.has_path(f, start, end),
            r matches Some(path) ==> {
                &&& self.connects(f, path@, start, end)
                &&& path@.no_duplicates()
                &&& 1 <= path@.len() <= GRID_WIDTH * GRID_HEIGHT
                &&& forall|other: Seq<GridPos>|
                    self.connects(f, other, start, end) ==> other.len() >= path@.len()
                &&& path@.len() == self.shortest_path_len(f, start, end)
            },
    {
        proof {
            use_type_invariant(start);
            use_type_invariant(end);
        }
        let mut visited: Vec<bool> = vec![false; GRID_WIDTH * GRID_HEIGHT];
        if !f.allows(&self.tile_at(start)) {
            proof {
                if self.has_path(f, start, end) {
                    let path = choose|path: Seq<GridPos>| self.connects(f, path, start, end);
                    assert(f.allows_spec(self.tile_spec(path.first())));
                }
            }
            return None;
        }
        let mut queue: Vec<GridPos> = Vec::new();
        let mut origins: Vec<Option<GridPos>> = vec![None; GRID_WIDTH * GRID_HEIGHT];
        let mut depth: Vec<usize> = vec![0; GRID_WIDTH * GRID_HEIGHT];
        let si = start.idx();
        proof {
            lemma_count_true_zero(visited@);
            lemma_count_true_set(visited@, si as int);
        }
        visited[si] = true;
        queue.push(start);
        let mut count: usize = 1;
        let mut head: usize = 0;
        let mut found = false;
        proof {
            assert forall|p: GridPos| p.wf() && #[trigger] visited@[p.idx_spec()] implies queue@.contains(
                p,
            ) && depth@[p.idx_spec()] < count && p == start by {
                lemma_idx_injective(p, start);
                assert(queue@[0] == start);
            }
        }
        while head < queue.len()
            invariant_except_break
                !found,
            invariant
                self.wf(),
                start.wf(),
                end.wf(),
                f.allows_spec(self.tile_spec(start)),
                head <= queue@.len(),
                bfs_state_ok(*self, f, start, visited@, queue@, count, origins@, depth@, head as int),
                forall|i: int| 0 <= i < head ==> #[trigger] queue@[i] != end,
            ensures
                found ==> visited@[end.idx_spec()] && head < queue@.len() && queue@[head as int]
                    == end,
                !found ==> head == queue@.len(),
            decreases GRID_WIDTH * GRID_HEIGHT - head,
        {
            proof {
                lemma_count_true_le_len(visited@);
            }
            let pos = queue[head];
            if pos == end {
                found = true;
                break ;
            }
            head = head + 1;
            self.expand_traced(f, start, &mut visited, &mut queue, &mut count, &mut origins,
                &mut depth, head);
        }
        if !found {
            proof {
                if self.has_path(f, start, end) {
                    let path = choose|path: Seq<GridPos>| self.connects(f, path, start, end);
                    assert forall|u: GridPos, q: GridPos|
                        u.wf() && q.wf() && visited@[u.idx_spec()] && #[trigger] adjacent(u, q)
                            && f.allows_spec(self.tile_spec(q)) implies visited@[q.idx_spec()] by {
                        assert(queue@.contains(u));
                        let i = choose|i: int| 0 <= i < queue@.len() && queue@[i] == u;
                        assert(adjacent(queue@[i], q));
                    }
                    self.lemma_closed_set_covers_path(f, visited@, path, start, end);
                    assert(queue@.contains(end));
                }
            }
            return None;
        }
        proof {
            lemma_count_true_le_len(visited@);
        }
        let path = self.trace_path(f, start, end, &visited, &origins, &depth);
        proof {
            assert(self.connects(f, path@, start, end));
            assert(self.has_path(f, start, end));
            assert forall|other: Seq<GridPos>|
                self.connects(f, other, start, end) implies other.len() >= path@.len() by {
                self.lemma_bfs_shortest(f, start, end, queue@, head as int, visited@, depth@, other);
            }
            self.lemma_shortest_path_len(f, start, end, path@);
        }
        Some(path)
    }

    /// After one neighbour expansion, the frontier's depth ordering and
    /// the processed prefix's closure still hold: the queue grew by at
    /// most one entry whose depth is one above the parent's, and no
    /// already-seen cell changed its depth.
    proof fn lemma_frontier_order_restore(
        g: Grid,
        f: TileFilter,
        q0: Seq<GridPos>,
        v0: Seq<bool>,
        d0: Seq<usize>,
        queue: Seq<GridPos>,
        visited: Seq<bool>,
        depth: Seq<usize>,
        parent: GridPos,
        head: int,
    )
        requires
            1 <= head <= q0.len(),
            parent == q0[head - 1],
            v0.len() == GRID_WIDTH * GRID_HEIGHT,
            d0.len() == GRID_WIDTH * GRID_HEIGHT,
            visited.len() == GRID_WIDTH * GRID_HEIGHT,
            depth.len() == GRID_WIDTH * GRID_HEIGHT,
            forall|i: int|
                0 <= i < q0.len() ==> (#[trigger] q0[i]).wf() && v0[q0[i].idx_spec()],
            forall|i: int|
                0 <= i < q0.len() - 1 ==> #[trigger] d0[q0[i].idx_spec()] <= d0[q0[i
                    + 1].idx_spec()],
            d0[q0.last().idx_spec()] <= d0[q0[head - 1].idx_spec()] + 1,
            forall|i: int, q: GridPos|
                0 <= i < head - 1 && q.wf() && #[trigger] adjacent(q0[i], q) && f.allows_spec(
                    g.tile_spec(q),
                ) ==> v0[q.idx_spec()] && d0[q.idx_spec()] <= d0[q0[i].idx_spec()] + 1,
            q0.len() <= queue.len() <= q0.len() + 1,
            forall|i: int| 0 <= i < q0.len() ==> #[trigger] queue[i] == q0[i],
            forall|i: int| 0 <= i < queue.len() ==> (#[trigger] queue[i]).wf(),
            forall|i: int|
                q0.len() <= i < queue.len() ==> #[trigger] depth[queue[i].idx_spec()] == d0[
                    parent.idx_spec()] + 1 && !v0[queue[i].idx_spec()],
            forall|j: int|
                0 <= j < GRID_WIDTH * GRID_HEIGHT && v0[j] ==> #[trigger] visited[j] && depth[j]
                    == d0[j],
        ensures
            forall|i: int|
                0 <= i < queue.len() - 1 ==> #[trigger] depth[queue[i].idx_spec()] <= depth[
                    queue[i + 1].idx_spec()],
            depth[queue.last().idx_spec()] <= depth[queue[head - 1].idx_spec()] + 1,
            forall|i: int, q: GridPos|
                0 <= i < head - 1 && q.wf() && #[trigger] adjacent(queue[i], q) && f.allows_spec(
                    g.tile_spec(q),
                ) ==> visited[q.idx_spec()] && depth[q.idx_spec()] <= depth[queue[i].idx_spec()]
                    + 1,
    {
        let dp = d0[parent.idx_spec()];
        assert(v0[parent.idx_spec()]);
        assert(visited[parent.idx_spec()]);
        assert(depth[parent.idx_spec()] == dp);
        assert forall|i: int|
            0 <= i < queue.len() - 1 implies #[trigger] depth[queue[i].idx_spec()] <= depth[
            queue[i + 1].idx_spec()] by {
            if i + 1 < q0.len() {
                assert(queue[i] == q0[i] && queue[i + 1] == q0[i + 1]);
                assert(visited[q0[i].idx_spec()] && visited[q0[i + 1].idx_spec()]);
                assert(d0[q0[i].idx_spec()] <= d0[q0[i + 1].idx_spec()]);
            } else if i < q0.len() {
                assert(queue[i] == q0[q0.len() - 1]);
                assert(visited[q0[q0.len() - 1].idx_spec()]);
                assert(depth[queue[i].idx_spec()] == d0[q0[q0.len() - 1].idx_spec()]);
                assert(d0[q0[q0.len() - 1].idx_spec()] <= dp + 1);
            }
        }
        assert(depth[queue.last().idx_spec()] <= depth[queue[head - 1].idx_spec()] + 1) by {
            if queue.len() > q0.len() {
            } else {
                assert(queue.last() == q0[q0.len() - 1]);
                assert(visited[q0[q0.len() - 1].idx_spec()]);
            }
        }
        assert forall|i: int, q: GridPos|
            0 <= i < head - 1 && q.wf() && #[trigger] adjacent(queue[i], q) && f.allows_spec(
                g.tile_spec(q),
            ) implies visited[q.idx_spec()] && depth[q.idx_spec()] <= depth[queue[i].idx_spec()]
            + 1 by {
            assert(queue[i] == q0[i]);
            assert(adjacent(q0[i], q));
            assert(v0[q.idx_spec()]);
            assert(visited[q.idx_spec()]);
            assert(visited[q0[i].idx_spec()]);
        }
    }

    /// Once all four neighbour candidates of the dequeued cell are
    /// marked, every filter-passing neighbour of that cell is seen at a
    /// depth at most one above it, which closes the processed prefix.
    proof fn lemma_head_closure(
        g: Grid,
        f: TileFilter,
        queue: Seq<GridPos>,
        visited: Seq<bool>,
        depth: Seq<usize>,
        pos: GridPos,
        head: int,
    )
        requires
            1 <= head <= queue.len(),
            pos == queue[head - 1],
            pos.wf(),
            visited.len() == GRID_WIDTH * GRID_HEIGHT,
            depth.len() == GRID_WIDTH * GRID_HEIGHT,
            forall|i: int|
                0 <= i < queue.len() ==> (#[trigger] queue[i]).wf() && visited[queue[i].idx_spec()],
            forall|p: GridPos| p.wf() && #[trigger] visited[p.idx_spec()] ==> queue.contains(p),
            forall|i: int|
                0 <= i < queue.len() - 1 ==> #[trigger] depth[queue[i].idx_spec()] <= depth[
                    queue[i + 1].idx_spec()],
            depth[queue.last().idx_spec()] <= depth[queue[head - 1].idx_spec()] + 1,
            candidate_done(g, f, visited, pos.xi() + 1, pos.yi()),
            candidate_done(g, f, visited, pos.xi() - 1, pos.yi()),
            candidate_done(g, f, visited, pos.xi(), pos.yi() + 1),
            candidate_done(g, f, visited, pos.xi(), pos.yi() - 1),
        ensures
            forall|q: GridPos|
                q.wf() && #[trigger] adjacent(pos, q) && f.allows_spec(g.tile_spec(q))
                    ==> visited[q.idx_spec()] && depth[q.idx_spec()] <= depth[pos.idx_spec()]
                    + 1,
    {
        let dp = depth[pos.idx_spec()];
        assert forall|q: GridPos|
            q.wf() && #[trigger] adjacent(pos, q) && f.allows_spec(g.tile_spec(q))
            implies visited[q.idx_spec()] && depth[q.idx_spec()] <= dp + 1 by {
            assert((q.xi() == pos.xi() + 1 && q.yi() == pos.yi()) || (q.xi() == pos.xi() - 1
                && q.yi() == pos.yi()) || (q.xi() == pos.xi() && q.yi() == pos.yi() + 1) || (q.xi()
                == pos.xi() && q.yi() == pos.yi() - 1));
            assert(visited[q.idx_spec()]);
            assert(queue.contains(q));
            let k = choose|k: int| 0 <= k < queue.len() && queue[k] == q;
            lemma_queue_depth_sorted(queue, depth, k, queue.len() - 1);
            assert(depth[queue.last().idx_spec()] <= dp + 1);
        }
    }

    /// One dequeue step of the shortest-path search: expands the four
    /// neighbours of the cell at slot `head - 1` and re-establishes every
    /// search invariant, including the depth ordering of the frontier.
    #[verifier::rlimit(100)]
    fn expand_traced(
        &self,
        f: TileFilter,
        start: GridPos,
        visited: &mut Vec<bool>,
        queue: &mut Vec<GridPos>,
        count: &mut usize,
        origins: &mut Vec<Option<GridPos>>,
        depth: &mut Vec<usize>,
        head: usize,
    )
        requires
            self.wf(),
            start.wf(),
            1 <= head <= old(queue)@.len(),
            bfs_state_ok(*self, f, start, old(visited)@, old(queue)@, *old(count), old(origins)@, old(depth)@, head as int - 1),
        ensures
            final(queue)@.len() >= old(queue)@.len(),
            forall|i: int| 0 <= i < old(queue)@.len() ==> #[trigger] final(queue)@[i] == old(queue)@[i],
            bfs_state_ok(*self, f, start, final(visited)@, final(queue)@, *final(count), final(origins)@, final(depth)@, head as int),
    {
        let pos = queue[head - 1];
        let px = pos.x();
        let py = pos.y();
        let ghost gpx = pos.xi();
        let ghost gpy = pos.yi();
        self.expand_one(f, start, visited, queue, count, origins, depth, head, pos, px as isize
            + 1, py as isize);
        self.expand_one(f, start, visited, queue, count, origins, depth, head, pos, px as isize
            - 1, py as isize);
        self.expand_one(f, start, visited, queue, count, origins, depth, head, pos, px as isize,
            py as isize + 1);
        self.expand_one(f, start, visited, queue, count, origins, depth, head, pos, px as isize,
            py as isize - 1);
        proof {
            assert(candidate_done(*self, f, visited@, gpx + 1, gpy));
            assert(candidate_done(*self, f, visited@, gpx - 1, gpy));
            assert(candidate_done(*self, f, visited@, gpx, gpy + 1));
            assert(candidate_done(*self, f, visited@, gpx, gpy - 1));
            assert(queue@[head - 1] == pos);
            Self::lemma_head_closure(*self, f, queue@, visited@, depth@, pos, head as int);
            assert forall|i: int, q: GridPos|
                0 <= i < head && q.wf() && #[trigger] adjacent(queue@[i], q) && f.allows_spec(
                    self.tile_spec(q),
                ) implies visited@[q.idx_spec()] && depth@[q.idx_spec()] <= depth@[queue@[
                i].idx_spec()] + 1 by {
                if i == head - 1 {
                    assert(adjacent(pos, q));
                }
            }
            if head < queue@.len() {
                assert(depth@[queue@[head - 1].idx_spec()] <= depth@[queue@[head - 1
                    + 1].idx_spec()]);
            }
        }
    }

    /// Expands a single neighbour candidate of the cell at slot
    /// `head - 1`, keeping the whole search state well-formed.
    #[verifier::rlimit(100)]
    fn expand_one(
        &self,
        f: TileFilter,
        start: GridPos,
        visited: &mut Vec<bool>,
        queue: &mut Vec<GridPos>,
        count: &mut usize,
        origins: &mut Vec<Option<GridPos>>,
        depth: &mut Vec<usize>,
        head: usize,
        parent: GridPos,
        cx: isize,
        cy: isize,
    )
        requires
            self.wf(),
            start.wf(),
            1 <= head <= old(queue)@.len(),
            parent == old(queue)@[head - 1],
            (cx == parent.xi() + 1 && cy == parent.yi()) || (cx == parent.xi() - 1 && cy
                == parent.yi()) || (cx == parent.xi() && cy == parent.yi() + 1) || (cx
                == parent.xi() && cy == parent.yi() - 1),
            bfs_state_ok(*self, f, start, old(visited)@, old(queue)@, *old(count), old(origins)@, old(depth)@, head as int - 1),
        ensures
            final(queue)@.len() >= old(queue)@.len(),
            forall|i: int| 0 <= i < old(queue)@.len() ==> #[trigger] final(queue)@[i] == old(queue)@[i],
            bfs_state_ok(*self, f, start, final(visited)@, final(queue)@, *final(count), final(origins)@, final(depth)@, head as int - 1),
            candidate_done(*self, f, final(visited)@, cx as int, cy as int),
            forall|a: int, b: int|
                candidate_done(*self, f, old(visited)@, a, b) ==> #[trigger] candidate_done(
                    *self,
                    f,
                    final(visited)@,
                    a,
                    b,
                ),
    {
        proof {
            use_type_invariant(parent);
        }
        self.visit_candidate_traced(f, start, visited, queue, count, origins, depth, parent, cx,
            cy);
        proof {
            Self::lemma_frontier_order_restore(
                *self,
                f,
                old(queue)@,
                old(visited)@,
                old(depth)@,
                queue@,
                visited@,
                depth@,
                parent,
                head as int,
            );
        }
    }

    /// Reconstructs the path recorded by a finished breadth-first search:
    /// walks the predecessor table back from `end` and reverses the result.
    #[verifier::rlimit(100)]
    fn trace_path(
        &self,
        f: TileFilter,
        start: GridPos,
        end: GridPos,
        visited: &Vec<bool>,
        origins: &Vec<Option<GridPos>>,
        depth: &Vec<usize>,
    ) -> (path: Vec<GridPos>)
        requires
            self.wf(),
            start.wf(),
            end.wf(),
            visited@.len() == GRID_WIDTH * GRID_HEIGHT,
            origins@.len() == GRID_WIDTH * GRID_HEIGHT,
            depth@.len() == GRID_WIDTH * GRID_HEIGHT,
            visited@[start.idx_spec()],
            visited@[end.idx_spec()],
            depth@[start.idx_spec()] == 0,
            f.allows_spec(self.tile_spec(start)),
            trace_ok(*self, f, start, visited@, origins@, depth@),
            forall|p: GridPos|
                p.wf() && #[trigger] visited@[p.idx_spec()] ==> depth@[p.idx_spec()]
                    < GRID_WIDTH * GRID_HEIGHT,
        ensures
            self.connects(f, path@, start, end),
            path@.no_duplicates(),
            1 <= path@.len() <= GRID_WIDTH * GRID_HEIGHT,
            path@.len() == depth@[end.idx_spec()] + 1,
    {
        let mut rev: Vec<GridPos> = Vec::new();
        rev.push(end);
        let mut current = end;
        let ghost de = depth@[end.idx_spec()] as int;
        while !(current == start)
            invariant
                self.wf(),
                start.wf(),
                f.allows_spec(self.tile_spec(start)),
                visited@.len() == GRID_WIDTH * GRID_HEIGHT,
                origins@.len() == GRID_WIDTH * GRID_HEIGHT,
                depth@.len() == GRID_WIDTH * GRID_HEIGHT,
                visited@[start.idx_spec()],
                depth@[start.idx_spec()] == 0,
                trace_ok(*self, f, start, visited@, origins@, depth@),
                de == depth@[end.idx_spec()],
                de < GRID_WIDTH * GRID_HEIGHT,
                rev@.len() >= 1,
                rev@[0] == end,
                rev@.last() == current,
                current.wf(),
                visited@[current.idx_spec()],
                forall|i: int|
                    0 <= i < rev@.len() ==> {
                        &&& (#[trigger] rev@[i]).wf()
                        &&& f.allows_spec(self.tile_spec(rev@[i]))
                        &&& visited@[rev@[i].idx_spec()]
                        &&& depth@[rev@[i].idx_spec()] == de - i
                    },
                forall|i: int| 0 <= i < rev@.len() - 1 ==> adjacent(rev@[i + 1], #[trigger] rev@[i]),
            decreases depth@[current.idx_spec()],
        {
            let ci = current.idx();
            let par = origins[ci].unwrap();
            proof {
                use_type_invariant(par);
            }
            rev.push(par);
            current = par;
        }
        let n = rev.len();
        proof {
            assert(rev@.last() == start);
            assert(depth@[rev@[n - 1].idx_spec()] == de - (n - 1));
            assert(de == n - 1);
        }
        let mut path: Vec<GridPos> = Vec::new();
        let mut i = n;
        while i > 0
            invariant
                n == rev@.len(),
                i <= n,
                path@.len() == n - i,
                forall|j: int| 0 <= j < path@.len() ==> #[trigger] path@[j] == rev@[n - 1 - j],
            decreases i,
        {
            i = i - 1;
            path.push(rev[i]);
        }
        proof {
            assert(path@.len() == n);
            assert(path@.first() == rev@[n - 1]);
            assert(path@.last() == rev@[0]);
            assert forall|j: int| 0 <= j < path@.len() - 1 implies adjacent(
                path@[j],
                #[trigger] path@[j + 1],
            ) by {
                assert(path@[j] == rev@[n - 1 - j]);
                assert(path@[j + 1] == rev@[n - 1 - (j + 1)]);
                assert(adjacent(rev@[(n - 2 - j) + 1], rev@[n - 2 - j]));
            }
            assert(self.connects(f, path@, start, end));
            assert forall|j: int, k: int|
                0 <= j < path@.len() && 0 <= k < path@.len() && j != k implies path@[j]
                != path@[k] by {
                assert(depth@[path@[j].idx_spec()] == de - (n - 1 - j));
                assert(depth@[path@[k].idx_spec()] == de - (n - 1 - k));
            }
        }
        path
    }
}

} // verus!
