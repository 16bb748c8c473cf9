//! Tests for positions, the grid, search, and line of sight.

use neon_daze::Grid;
use neon_daze::GridPos;
use neon_daze::Tile;
use neon_daze::TileContent;
use neon_daze::TileFilter;
use neon_daze::TileSpawn;

fn free_tile() -> Tile {
    Tile { cont: TileContent::Empty(TileSpawn::Free) }
}

#[test]
fn position_bounds_are_enforced() {
    assert!(GridPos::try_new(0, 0).is_some());
    assert!(GridPos::try_new(19, 19).is_some());
    assert!(GridPos::try_new(20, 0).is_none());
    assert!(GridPos::try_new(0, 20).is_none());
    assert!(GridPos::try_new(-1, 5).is_none());
    let p = GridPos::try_new(7, 11).unwrap();
    assert_eq!(p.x(), 7);
    assert_eq!(p.y(), 11);
}

#[test]
fn new_bounded_clamps_into_range() {
    let p = GridPos::new_bounded(-3, 25);
    assert_eq!((p.x(), p.y()), (0, 19));
    let q = GridPos::new_bounded(12, -1);
    assert_eq!((q.x(), q.y()), (12, 0));
    let r = GridPos::new_bounded(100, 100);
    assert_eq!((r.x(), r.y()), (19, 19));
}

#[test]
fn iter_all_is_row_major_and_complete() {
    let all = GridPos::iter_all();
    assert_eq!(all.len(), 400);
    assert_eq!((all[0].x(), all[0].y()), (0, 0));
    assert_eq!((all[1].x(), all[1].y()), (1, 0));
    assert_eq!((all[20].x(), all[20].y()), (0, 1));
    assert_eq!((all[399].x(), all[399].y()), (19, 19));
    for (i, p) in all.iter().enumerate() {
        assert_eq!(p.idx(), i);
    }
}

#[test]
fn world_conversion_matches_the_affine_map() {
    // Cell centres: (x + 0.5) * 40 - 400 world units, in thousandths.
    let origin = GridPos::new(0, 0);
    assert_eq!(origin.to_world(), (-380000, -380000));
    let mid = GridPos::new(10, 10);
    assert_eq!(mid.to_world(), (20000, 20000));

    // The round trip is the identity on every cell.
    for p in GridPos::iter_all() {
        let (wx, wy) = p.to_world();
        let q = GridPos::from_world(wx, wy);
        assert_eq!((q.x(), q.y()), (p.x(), p.y()));
    }

    // Cell 10 owns the world interval [0, 40000) on each axis; a point
    // just below zero belongs to cell 9.
    let p = GridPos::from_world(18500, -1);
    assert_eq!((p.x(), p.y()), (10, 9));

    // Points beyond either edge of the grid fall back to the origin cell.
    let far = GridPos::from_world(400001, 20000);
    assert_eq!((far.x(), far.y()), (0, 0));
    let near = GridPos::from_world(-400001, 20000);
    assert_eq!((near.x(), near.y()), (0, 0));
}

#[test]
fn default_grid_is_solid_rock() {
    let grid = Grid::default();
    for p in GridPos::iter_all() {
        assert_eq!(grid.tile_at(p).cont, TileContent::Wall);
    }
    assert_eq!(grid.count_empty(), 0);
    assert!(grid.player_spawn().is_none());
    assert!(grid.enemy_spawns().is_empty());
}

#[test]
fn fill_area_carves_exactly_the_rectangle() {
    let mut grid = Grid::default();
    grid.fill_area(GridPos::new(3, 4), GridPos::new(6, 8), free_tile());
    let mut empties = 0;
    for p in GridPos::iter_all() {
        let inside = (3..=6).contains(&p.x()) && (4..=8).contains(&p.y());
        let is_empty = matches!(grid.tile_at(p).cont, TileContent::Empty(_));
        assert_eq!(inside, is_empty);
        if is_empty {
            empties += 1;
        }
    }
    assert_eq!(empties, 4 * 5);
    assert_eq!(grid.count_empty(), 4 * 5);
}

#[test]
fn shortest_path_in_a_corridor_has_known_length() {
    // A straight five-cell corridor: the shortest path has 4 steps, so 5
    // positions, pairwise adjacent and never repeating.
    let mut grid = Grid::default();
    grid.fill_area(GridPos::new(5, 5), GridPos::new(9, 5), free_tile());
    let a = GridPos::new(5, 5);
    let b = GridPos::new(9, 5);
    let path = grid.path_between(a, b, TileFilter::AnyEmpty).expect("corridor is connected");
    assert_eq!(path.len(), 5);
    assert_eq!((path[0].x(), path[0].y()), (5, 5));
    assert_eq!((path[4].x(), path[4].y()), (9, 5));
    for w in path.windows(2) {
        let dx = w[0].x().abs_diff(w[1].x());
        let dy = w[0].y().abs_diff(w[1].y());
        assert_eq!(dx + dy, 1, "steps must be 4-connected");
    }
    for i in 0..path.len() {
        for j in 0..path.len() {
            if i != j {
                assert_ne!((path[i].x(), path[i].y()), (path[j].x(), path[j].y()));
            }
        }
    }
}

#[test]
fn shortest_path_in_an_open_room_is_manhattan() {
    let mut grid = Grid::default();
    grid.fill_area(GridPos::new(5, 5), GridPos::new(9, 6), free_tile());
    let path = grid
        .path_between(GridPos::new(5, 5), GridPos::new(9, 6), TileFilter::AnyEmpty)
        .expect("room is connected");
    // Manhattan distance 5, hence 6 positions.
    assert_eq!(path.len(), 6);
}

#[test]
fn no_path_between_disconnected_rooms_and_flood_fill_agrees() {
    let mut grid = Grid::default();
    grid.fill_area(GridPos::new(1, 1), GridPos::new(3, 3), free_tile());
    grid.fill_area(GridPos::new(10, 10), GridPos::new(12, 12), free_tile());
    let a = GridPos::new(2, 2);
    let b = GridPos::new(11, 11);
    assert!(grid.path_between(a, b, TileFilter::AnyEmpty).is_none());
    assert!(grid.path_between(b, a, TileFilter::AnyEmpty).is_none());

    // Exhaustive flood fill from room one: exactly room one is reached,
    // so no 4-connected empty path can leave it.
    let reach = grid.reachable_set(TileFilter::AnyEmpty, a);
    for p in GridPos::iter_all() {
        let in_room_one = (1..=3).contains(&p.x()) && (1..=3).contains(&p.y());
        assert_eq!(reach[p.idx()], in_room_one);
    }
}

#[test]
fn path_respects_the_filter() {
    let mut grid = Grid::default();
    grid.fill_area(GridPos::new(5, 5), GridPos::new(9, 5), free_tile());
    grid.set_tile(
        GridPos::new(7, 5),
        Tile { cont: TileContent::Empty(TileSpawn::Blocked) },
    );
    let a = GridPos::new(5, 5);
    let b = GridPos::new(9, 5);
    // Any empty tile will do: the blocked tile is still empty.
    assert!(grid.path_between(a, b, TileFilter::AnyEmpty).is_some());
    // Only verified-free tiles: the blocked tile interrupts the corridor.
    assert!(grid.path_between(a, b, TileFilter::FreeOnly).is_none());
}

#[test]
fn line_of_sight_sees_along_clear_lines_and_not_through_walls() {
    // A straight single-row corridor, well away from tile-boundary
    // sampling artifacts: an exact geometric check agrees in both
    // directions.
    let mut grid = Grid::default();
    grid.fill_area(GridPos::new(5, 5), GridPos::new(15, 5), free_tile());
    let a = GridPos::new(5, 5);
    let b = GridPos::new(15, 5);
    assert!(grid.line_of_sight(a, b, TileFilter::AnyEmpty));
    assert!(grid.line_of_sight(b, a, TileFilter::AnyEmpty));

    // A wall square in the middle of the corridor blocks sight from both
    // sides.
    grid.set_tile(GridPos::new(10, 5), Tile { cont: TileContent::Wall });
    assert!(!grid.line_of_sight(a, b, TileFilter::AnyEmpty));
    assert!(!grid.line_of_sight(b, a, TileFilter::AnyEmpty));
}

#[test]
fn line_of_sight_along_a_diagonal() {
    // A diagonal ray through an open room passes through the middle
    // cells, so walling one of them blocks the sight line.
    let mut grid = Grid::default();
    grid.fill_area(GridPos::new(5, 5), GridPos::new(9, 9), free_tile());
    let a = GridPos::new(5, 5);
    let b = GridPos::new(9, 9);
    assert!(grid.line_of_sight(a, b, TileFilter::AnyEmpty));
    grid.set_tile(GridPos::new(7, 7), Tile { cont: TileContent::Wall });
    assert!(!grid.line_of_sight(a, b, TileFilter::AnyEmpty));
}

#[test]
fn line_of_sight_to_self_is_clear() {
    let grid = Grid::default();
    let p = GridPos::new(4, 4);
    assert!(grid.line_of_sight(p, p, TileFilter::AnyEmpty));
}

#[test]
fn path_to_self_is_the_single_cell() {
    let mut grid = Grid::default();
    grid.set_tile(GridPos::new(4, 4), free_tile());
    let p = GridPos::new(4, 4);
    let path = grid.path_between(p, p, TileFilter::AnyEmpty).expect("cell is its own path");
    assert_eq!(path.len(), 1);
    assert_eq!((path[0].x(), path[0].y()), (4, 4));
}

#[test]
fn no_path_from_a_filtered_out_start() {
    let mut grid = Grid::default();
    grid.fill_area(GridPos::new(5, 5), GridPos::new(9, 5), free_tile());
    // The start cell is a wall, so no filtered path can begin there.
    let wall = GridPos::new(2, 2);
    assert!(grid.path_between(wall, GridPos::new(7, 5), TileFilter::AnyEmpty).is_none());
    let reach = grid.reachable_set(TileFilter::AnyEmpty, wall);
    for p in GridPos::iter_all() {
        assert!(!reach[p.idx()]);
    }
}

#[test]
fn position_arithmetic_is_coordinatewise() {
    let a = GridPos::new(3, 4);
    let b = GridPos::new(2, 7);
    let sum = a.add(b);
    assert_eq!((sum.x(), sum.y()), (5, 11));
    let diff = b.sub(GridPos::new(1, 3));
    assert_eq!((diff.x(), diff.y()), (1, 4));
    let up = a.add_n(2);
    assert_eq!((up.x(), up.y()), (5, 6));
    let down = a.sub_n(3);
    assert_eq!((down.x(), down.y()), (0, 1));
}

#[test]
fn count_empty_of_a_fully_carved_grid_is_the_whole_grid() {
    let mut grid = Grid::default();
    grid.fill_area(GridPos::new(0, 0), GridPos::new(19, 19), free_tile());
    assert_eq!(grid.count_empty(), 400);
}

#[test]
fn shortest_path_detours_around_an_obstacle() {
    // A 5 x 3 room with a two-cell wall across the middle column: every
    // route from the west side to the east side must dip to the bottom
    // row, so the shortest path takes 8 steps (9 positions) instead of
    // the unobstructed 4.
    let mut grid = Grid::default();
    grid.fill_area(GridPos::new(5, 5), GridPos::new(9, 7), free_tile());
    grid.set_tile(GridPos::new(7, 5), Tile { cont: TileContent::Wall });
    grid.set_tile(GridPos::new(7, 6), Tile { cont: TileContent::Wall });
    let path = grid
        .path_between(GridPos::new(5, 5), GridPos::new(9, 5), TileFilter::AnyEmpty)
        .expect("the bottom row still connects the sides");
    assert_eq!(path.len(), 9);
    for p in &path {
        assert_ne!((p.x(), p.y()), (7, 5));
        assert_ne!((p.x(), p.y()), (7, 6));
    }
}
