//! Procedural level generation and pathing for a grid-based arcade shooter.
//!
//! The heart of the crate is a fixed 20 x 20 tile grid. Levels are carved out
//! of solid rock by random rectangular clearings, a player spawn is chosen,
//! unreachable pockets are walled off again, and enemies are placed under a
//! difficulty-driven point budget. Breadth-first search supplies both the
//! reachability guarantee and shortest paths, and a coarse sampled ray gives
//! an approximate line-of-sight test used when pricing enemy placements.
//! Around that core sit the difficulty curve the budget comes from, the
//! stat-modifying item system, and the game-flow state machine.

pub mod difficulty;
pub mod generate;
pub mod grid;
pub mod items;
pub mod math;
pub mod pos;
pub mod rng;
pub mod search;
pub mod sight;
pub mod state;
pub mod tile;

pub use difficulty::Difficulty;
pub use generate::Clearing;
pub use generate::GridRect;
pub use grid::Grid;
pub use items::Config;
pub use items::ConfigFlags;
pub use items::ItemId;
pub use items::ItemManager;
pub use pos::GridPos;
pub use state::GameEvent;
pub use state::GameState;
pub use state::Lives;
pub use tile::Tile;
pub use tile::TileContent;
pub use tile::TileFilter;
pub use tile::TileSpawn;
