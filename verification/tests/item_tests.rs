//! Tests for the difficulty curve, the item system, and game-flow state.

use rand::SeedableRng;
use rand::rngs::StdRng;

use neon_daze::Difficulty;
use neon_daze::GameEvent;
use neon_daze::GameState;
use neon_daze::ItemId;
use neon_daze::ItemManager;
use neon_daze::Lives;

#[test]
fn difficulty_starts_at_one_and_tracks_events() {
    let mut d = Difficulty::default();
    assert_eq!(d.level(), 1);
    let cleared = vec![GameEvent::LevelClear];
    let over = vec![GameEvent::PlayerHit, GameEvent::GameOver];
    let quiet: Vec<GameEvent> = vec![];
    d.increment_level(&cleared);
    d.increment_level(&cleared);
    assert_eq!(d.level(), 3);
    // Batches without the triggering event leave the counter alone, and
    // several level-clear events in one batch still count once.
    d.increment_level(&quiet);
    d.reset(&quiet);
    assert_eq!(d.level(), 3);
    d.increment_level(&vec![GameEvent::LevelClear, GameEvent::LevelClear]);
    assert_eq!(d.level(), 4);
    d.reset(&over);
    assert_eq!(d.level(), 1);
}

#[test]
fn points_budget_matches_the_curve() {
    // -1000 / level^(1/4) + 15 * level + 1300, in thousandths of a point.
    // Level 1: -1000 + 15 + 1300 = 315.
    assert_eq!(Difficulty::default().points(), 315000);
    // Level 16: the fourth root is exactly 2, so -500 + 240 + 1300 = 1040.
    let mut d = Difficulty::default();
    let cleared = vec![GameEvent::LevelClear];
    for _ in 1..16 {
        d.increment_level(&cleared);
    }
    assert_eq!(d.points(), 1040000);
}

#[test]
fn points_budget_rounds_the_fourth_root_down() {
    // Level 2: the fourth root of 2 in thousandths floors to 1.189, so
    // the penalty is 1000000000 / 1189 = 841042 thousandths.
    let mut d = Difficulty::default();
    d.increment_level(&vec![GameEvent::LevelClear]);
    assert_eq!(d.points(), 30000 + 1300000 - 841042);
}

#[test]
fn points_budget_rises_with_level() {
    let mut d = Difficulty::default();
    let p1 = d.points();
    let cleared = vec![GameEvent::LevelClear];
    for _ in 1..20 {
        d.increment_level(&cleared);
    }
    assert!(d.points() > p1);
}

#[test]
fn no_items_yields_the_base_config() {
    let manager = ItemManager::default();
    let config = manager.apply();
    assert_eq!(config.player.speed, 200000);
    assert_eq!((config.player.size_x, config.player.size_y), (20000, 20000));
    assert_eq!((config.gun.size_x, config.gun.size_y), (5000, 10000));
    assert_eq!(config.gun.cooldown, 300);
    assert_eq!(config.gun.deviation, 100);
    assert_eq!(config.gun.lifetime, 1000);
    assert_eq!(config.gun.speed, 500000);
}

#[test]
fn autofire_loosens_aim_and_speeds_the_trigger() {
    let mut manager = ItemManager::default();
    manager.add(ItemId::AutoFire);
    let config = manager.apply();
    // Additive pass: deviation 100 + 300 = 400.
    // Multiplicative pass: cooldown 300 * 0.9 = 270, deviation 400 * 1.2 = 480.
    assert_eq!(config.gun.cooldown, 270);
    assert_eq!(config.gun.deviation, 480);
    assert_eq!(config.flags.counts[ItemId::AutoFire.index()], 1);
}

#[test]
fn two_faster_items_compound() {
    let mut manager = ItemManager::default();
    manager.add(ItemId::Faster);
    manager.add(ItemId::Faster);
    let config = manager.apply();
    // First copy: speed 200000 * 1.5 = 300000, lifetime 1000 * 0.8 = 800.
    // Second copy: speed 300000 * 1.3 = 390000, lifetime 800 * 0.8 = 640.
    assert_eq!(config.player.speed, 390000);
    assert_eq!(config.gun.lifetime, 640);
}

#[test]
fn clamp_stops_stats_at_their_floor() {
    let mut manager = ItemManager::default();
    for _ in 0..8 {
        manager.add(ItemId::Slower);
    }
    let config = manager.apply();
    // Eight times x0.8 would leave speed at 33553, below the floor of 50.
    assert_eq!(config.player.speed, 50000);
    // Lifetime grows by x1.5 eight times with integer truncation.
    assert_eq!(config.gun.lifetime, 25624);
}

#[test]
fn bouncy_reshapes_the_bullet_to_a_ball() {
    let mut manager = ItemManager::default();
    manager.add(ItemId::Bouncy);
    let config = manager.apply();
    // The diagonal of a 5 x 10 bullet is 11.180 units; three tenths of
    // that is 3.354 per side, and the height is then clamped up to 4.
    assert_eq!(config.gun.size_x, 3354);
    assert_eq!(config.gun.size_y, 4000);
    assert_eq!(config.gun.deviation, 160);
    assert_eq!(config.gun.lifetime, 700);
}

#[test]
fn item_counts_track_pickups() {
    let mut manager = ItemManager::default();
    manager.add(ItemId::Bigger);
    manager.add(ItemId::Bigger);
    manager.add(ItemId::Laser);
    let config = manager.apply();
    assert_eq!(config.flags.counts[ItemId::Bigger.index()], 2);
    assert_eq!(config.flags.counts[ItemId::Laser.index()], 1);
    assert_eq!(config.flags.counts[ItemId::Smaller.index()], 0);
    manager.reset();
    let fresh = manager.apply();
    assert_eq!(fresh.flags.counts[ItemId::Bigger.index()], 0);
}

#[test]
fn item_effects_do_not_depend_on_pickup_order() {
    let mut a = ItemManager::default();
    a.add(ItemId::Faster);
    a.add(ItemId::Bigger);
    a.add(ItemId::Faster);
    a.add(ItemId::Accuracy);
    let mut b = ItemManager::default();
    b.add(ItemId::Accuracy);
    b.add(ItemId::Faster);
    b.add(ItemId::Faster);
    b.add(ItemId::Bigger);
    let ca = a.apply();
    let cb = b.apply();
    assert_eq!(ca.player, cb.player);
    assert_eq!(ca.gun, cb.gun);
}

#[test]
fn item_listing_joins_names_in_pickup_order() {
    let mut manager = ItemManager::default();
    assert_eq!(manager.list(), "");
    manager.add(ItemId::AutoFire);
    assert_eq!(manager.list(), "Automatic");
    manager.add(ItemId::Faster);
    assert_eq!(manager.list(), "Automatic, Turbo the Snail");
}

#[test]
fn random_item_draws_come_from_the_eight_entry_table() {
    let mut rng = StdRng::seed_from_u64(7);
    for _ in 0..200 {
        let id = ItemId::random(&mut rng);
        assert_ne!(id, ItemId::Smaller);
    }
}

#[test]
fn game_events_steer_the_state_machine() {
    let none: Vec<GameEvent> = vec![];
    assert_eq!(
        GameEvent::event_state_control(&none, GameState::InLevel),
        GameState::InLevel
    );
    let cleared = vec![GameEvent::LevelClear];
    assert_eq!(
        GameEvent::event_state_control(&cleared, GameState::InLevel),
        GameState::ItemMenu
    );
    let hit = vec![GameEvent::LevelClear, GameEvent::PlayerHit];
    assert_eq!(
        GameEvent::event_state_control(&hit, GameState::InLevel),
        GameState::LevelRestart
    );
    let over = vec![GameEvent::PlayerHit, GameEvent::GameOver];
    assert_eq!(
        GameEvent::event_state_control(&over, GameState::InLevel),
        GameState::MainMenu
    );
    assert_eq!(GameState::LevelRestart.level_restart(), GameState::InLevel);
    assert_eq!(GameState::Pause.level_restart(), GameState::Pause);
}

#[test]
fn lives_count_down_and_refill_on_game_over() {
    let mut lives = Lives::default();
    assert_eq!(lives.0, 5);
    assert!(!lives.on_hit());
    assert_eq!(lives.0, 4);
    lives.0 = 1;
    assert!(lives.on_hit());
    assert_eq!(lives.0, 5);
}
