//! Game-flow state: the screen/state machine, the events that drive it,
//! and the player's lives counter.
//!
//! The transitions are plain functions from current state and observed
//! events to the next state; the surrounding application owns the loop
//! that feeds them.

use vstd::prelude::*;

verus! {

/// Which screen or phase the game is in.
#[derive(Clone, Copy, PartialEq, Eq, Structural, Debug)]
pub enum GameState {
    /// The title screen.
    MainMenu,
    /// Gameplay suspended by the pause menu.
    Pause,
    /// The short countdown before a level starts.
    LevelCountdown,
    /// Actively playing a level.
    InLevel,
    /// Generating and spawning the next level.
    LoadingLevel,
    /// Initial asset loading.
    Loading,
    /// The current level is being torn down to restart.
    LevelRestart,
    /// Choosing an item between levels.
    ItemMenu,
}

/// Events that change the game's flow.
#[derive(Clone, Copy, PartialEq, Eq, Structural, Debug)]
pub enum GameEvent {
    /// All enemies in the level are gone.
    LevelClear,
    /// The player took a hit.
    PlayerHit,
    /// The player ran out of lives.
    GameOver,
}

/// Whether the event batch contains `e`.
pub open spec fn has_event(events: Seq<GameEvent>, e: GameEvent) -> bool {
    events.contains(e)
}

/// Scans an event batch for one kind of event.
pub fn contains_event(events: &Vec<GameEvent>, e: GameEvent) -> (r: bool)
    ensures
        r == has_event(events@, e),
{
    let n = events.len();
    let mut found = false;
    let mut i: usize = 0;
    while i < n
        invariant
            n == events@.len(),
            i <= n,
            found == has_event(events@.take(i as int), e),
        decreases n - i,
    {
        proof {
            let pre = events@.take(i as int);
            let cur = events@.take(i + 1);
            assert(has_event(cur, e) == (has_event(pre, e) || events@[i as int] == e)) by {
                if has_event(cur, e) {
                    let j = choose|j: int| 0 <= j < cur.len() && cur[j] == e;
                    if j < i as int {
                        assert(pre[j] == e);
                    }
                }
                if has_event(pre, e) {
                    let j = choose|j: int| 0 <= j < pre.len() && pre[j] == e;
                    assert(cur[j] == e);
                }
                if events@[i as int] == e {
                    assert(cur[i as int] == e);
                }
            }
        }
        if events[i] == e {
            found = true;
        }
        i = i + 1;
    }
    proof {
        assert(events@.take(n as int) =~= events@);
    }
    found
}

impl GameState {
    /// The restart transition: a state machine sitting in `LevelRestart`
    /// immediately re-enters the level; every other state is left alone.
    pub fn level_restart(self) -> (r: GameState)
        ensures
            self == GameState::LevelRestart ==> r == GameState::InLevel,
            self != GameState::LevelRestart ==> r == self,
    {
        if self == GameState::LevelRestart {
            GameState::InLevel
        } else {
            self
        }
    }
}

impl GameEvent {
    /// The event-driven state transition: a game over returns to the main
    /// menu, otherwise a hit restarts the level, otherwise a cleared level
    /// opens the item menu; with none of those events the state stands.
    pub fn event_state_control(events: &Vec<GameEvent>, current: GameState) -> (r: GameState)
        ensures
            r == (if has_event(events@, GameEvent::GameOver) {
                GameState::MainMenu
            } else if has_event(events@, GameEvent::PlayerHit) {
                GameState::LevelRestart
            } else if has_event(events@, GameEvent::LevelClear) {
                GameState::ItemMenu
            } else {
                current
            }),
    {
        let game_over = contains_event(events, GameEvent::GameOver);
        let player_hit = contains_event(events, GameEvent::PlayerHit);
        let level_clear = contains_event(events, GameEvent::LevelClear);
        if game_over {
            GameState::MainMenu
        } else if player_hit {
            GameState::LevelRestart
        } else if level_clear {
            GameState::ItemMenu
        } else {
            current
        }
    }
}

/// How many hits the player can still take.
#[derive(Clone, Copy, PartialEq, Eq, Structural, Debug)]
pub struct Lives(pub u32);

impl Default for Lives {
    /// A fresh game grants five lives.
    fn default() -> (r: Self)
        ensures
            r.0 == 5,
    {
        Lives(5)
    }
}

impl Lives {
    /// Registers one hit on the player. On the last life the counter
    /// refills for the next game and the hit is reported as a game over;
    /// otherwise one life is deducted.
    pub fn on_hit(&mut self) -> (game_over: bool)
        ensures
            old(self).0 <= 1 ==> final(self).0 == 5 && game_over,
            old(self).0 > 1 ==> final(self).0 == old(self).0 - 1 && !game_over,
    {
        if self.0 <= 1 {
            self.0 = 5;
            true
        } else {
            self.0 = self.0 - 1;
            false
        }
    }
}

} // verus!
