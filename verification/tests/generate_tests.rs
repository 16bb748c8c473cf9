//! Tests for level generation: validation guarantees, determinism, and the
//! difficulty curve's effect on enemy counts.

use rand::SeedableRng;
use rand::rngs::StdRng;

use neon_daze::Difficulty;
use neon_daze::GameEvent;
use neon_daze::Grid;
use neon_daze::GridPos;
use neon_daze::Tile;
use neon_daze::TileContent;
use neon_daze::TileFilter;
use neon_daze::TileSpawn;
use neon_daze::generate::Clearing;

fn difficulty_at(level: u32) -> Difficulty {
    let mut d = Difficulty::default();
    let cleared = vec![GameEvent::LevelClear];
    for _ in 1..level {
        d.increment_level(&cleared);
    }
    d
}

fn generate_with_seed(seed: u64, level: u32) -> Grid {
    let mut rng = StdRng::seed_from_u64(seed);
    Grid::generate(&mut rng, &difficulty_at(level)).expect("generation should succeed")
}

#[test]
fn generated_levels_are_fully_validated() {
    for seed in 0..10u64 {
        let grid = generate_with_seed(seed, 3);

        // The player spawn is set and sits on a player-tagged tile.
        let player = grid.player_spawn().expect("player spawn must be set");
        assert_eq!(grid.tile_at(player).cont, TileContent::Empty(TileSpawn::Player));

        // No transient tag survives generation.
        for p in GridPos::iter_all() {
            assert_ne!(grid.tile_at(p).cont, TileContent::Empty(TileSpawn::Unreachable));
        }

        // At least a third of the grid is open space.
        assert!(grid.count_empty() >= 400 / 3);

        // At least one enemy was placed, each on an enemy-tagged tile, and
        // the tags match the list exactly.
        let enemies = grid.enemy_spawns();
        assert!(!enemies.is_empty());
        for p in GridPos::iter_all() {
            let tagged = grid.tile_at(p).cont == TileContent::Empty(TileSpawn::Enemy);
            let listed = enemies.iter().any(|e| (e.x(), e.y()) == (p.x(), p.y()));
            assert_eq!(tagged, listed);
        }

        // No enemy sits inside the spawn buffer: every enemy is more than
        // two cells from the player on both axes.
        for e in enemies {
            let dx = e.x().abs_diff(player.x());
            let dy = e.y().abs_diff(player.y());
            assert!(dx > 2 || dy > 2, "enemy inside the spawn buffer");
        }

        // Every empty tile is reachable from the player spawn: flood fill
        // from the spawn covers all empty tiles.
        let reach = grid.reachable_set(TileFilter::AnyEmpty, player);
        for p in GridPos::iter_all() {
            if matches!(grid.tile_at(p).cont, TileContent::Empty(_)) {
                assert!(reach[p.idx()], "empty tile not reachable from spawn");
            }
        }
    }
}

#[test]
fn random_clearings_respect_their_bounds() {
    let mut rng = StdRng::seed_from_u64(11);
    for _ in 0..50 {
        let c = Clearing::random(&mut rng);
        let cw = c.clearing.end.x() - c.clearing.start.x();
        let ch = c.clearing.end.y() - c.clearing.start.y();
        assert!((4..=15).contains(&cw));
        assert!((4..=15).contains(&ch));
        assert!((1..=2).contains(&c.obstacles.len()));
        for ob in &c.obstacles {
            assert!(ob.start.x() >= c.clearing.start.x() && ob.end.x() <= c.clearing.end.x());
            assert!(ob.start.y() >= c.clearing.start.y() && ob.end.y() <= c.clearing.end.y());
            let ow = ob.end.x() - ob.start.x();
            let oh = ob.end.y() - ob.start.y();
            assert!(ow >= 1 && ow <= cw - 1);
            assert!(oh >= 1 && oh <= ch - 1);
        }
    }
}

#[test]
fn a_large_budget_always_places_an_enemy() {
    // A hand-built valid grid: a big free room, the player in one corner
    // with the reserved buffer marked around the spawn. With the level-20
    // budget, placement is guaranteed to accept at least one candidate
    // whatever order the shuffle produces, and no enemy may land in the
    // buffer.
    let mut rng = StdRng::seed_from_u64(3);
    let mut grid = Grid::default();
    grid.fill_area(
        GridPos::new(3, 3),
        GridPos::new(13, 13),
        Tile { cont: TileContent::Empty(TileSpawn::Free) },
    );
    let player = GridPos::new(3, 3);
    for p in GridPos::iter_all() {
        let dx = p.x().abs_diff(player.x());
        let dy = p.y().abs_diff(player.y());
        if dx <= 2 && dy <= 2 && matches!(grid.tile_at(p).cont, TileContent::Empty(_)) {
            grid.set_tile(p, Tile { cont: TileContent::Empty(TileSpawn::Blocked) });
        }
    }
    grid.set_tile(player, Tile { cont: TileContent::Empty(TileSpawn::Player) });
    grid.player = Some(player);
    grid.add_enemies(&mut rng, &difficulty_at(20));
    assert!(!grid.enemy_spawns().is_empty());
    for e in grid.enemy_spawns() {
        let dx = e.x().abs_diff(player.x());
        let dy = e.y().abs_diff(player.y());
        assert!(dx > 2 || dy > 2);
    }
}

#[test]
fn generation_is_deterministic_for_a_fixed_rng() {
    let a = generate_with_seed(42, 5);
    let b = generate_with_seed(42, 5);
    assert_eq!(a, b);
    let c = generate_with_seed(43, 5);
    // A different seed almost surely gives a different layout; both are
    // still valid either way, so only equality of the pair above matters.
    let _ = c;
}

#[test]
fn higher_difficulty_buys_more_enemies_on_average() {
    let seeds = 0..40u64;
    let total_low: usize = seeds
        .clone()
        .map(|s| generate_with_seed(s, 1).enemy_spawns().len())
        .sum();
    let total_high: usize = seeds
        .map(|s| generate_with_seed(s, 20).enemy_spawns().len())
        .sum();
    assert!(
        total_high > total_low,
        "mean enemy count at level 20 ({total_high}) should exceed level 1 ({total_low})"
    );
}
