//! The difficulty curve: a level counter and the enemy-placement point
//! budget it buys.
//!
//! The budget follows `-1000 / level^(1/4) + 15 * level + 1300`, evaluated
//! here in thousandths of a point on integers: fast growth at low levels
//! that flattens into near-linear growth, so difficulty keeps rising without
//! becoming unbounded. The counter starts at 1, goes up by one when a level
//! is cleared, and drops back to 1 on a game over.

use vstd::prelude::*;

use crate::math::isqrt;
use crate::math::lemma_sqrt_floor_bounds;
use crate::math::sqrt_floor;
use crate::state::GameEvent;
use crate::state::contains_event;
use crate::state::has_event;

verus! {

/// The fourth root of `level`, in thousandths.
pub open spec fn fourth_root_milli(level: int) -> int {
    sqrt_floor(sqrt_floor(level * 1000000000000))
}

/// The enemy-placement budget for `level`, in thousandths of a point.
pub open spec fn points_spec(level: int) -> int {
    15000 * level + 1300000 - 1000000000int / fourth_root_milli(level)
}

/// The budget curve only ever rises: a later level always grants at
/// least as many placement points as an earlier one, so difficulty keeps
/// climbing as the player clears levels.
pub proof fn lemma_points_monotone(l1: int, l2: int)
    requires
        1 <= l1 <= l2,
    ensures
        points_spec(l1) <= points_spec(l2),
{
    crate::math::lemma_sqrt_floor_monotone(l1 * 1000000000000, l2 * 1000000000000);
    crate::math::lemma_sqrt_floor_monotone(
        sqrt_floor(l1 * 1000000000000),
        sqrt_floor(l2 * 1000000000000),
    );
    crate::math::lemma_sqrt_floor_at_least_one(l1 * 1000000000000);
    crate::math::lemma_sqrt_floor_at_least_one(sqrt_floor(l1 * 1000000000000));
    vstd::arithmetic::div_mod::lemma_div_is_ordered_by_denominator(
        1000000000,
        fourth_root_milli(l1),
        fourth_root_milli(l2),
    );
}

/// Process-wide difficulty state: the current level number.
#[derive(Clone, Copy, PartialEq, Eq, Structural, Debug)]
pub struct Difficulty {
    level_num: u32,
}

impl Difficulty {
    /// The current level number; always at least 1.
    pub closed spec fn level_spec(self) -> int {
        self.level_num as int
    }

    #[verifier::type_invariant]
    spec fn level_positive(self) -> bool {
        self.level_num >= 1
    }

    /// The current level number.
    pub fn level(&self) -> (r: u32)
        ensures
            r == self.level_spec(),
            r >= 1,
    {
        proof {
            use_type_invariant(*self);
        }
        self.level_num
    }

    /// The points budget for the current level, in thousandths of a point.
    ///
    /// The level counter is capped only by this computation's fixed-point
    /// range; a million levels is far beyond anything reachable in play.
    pub fn points(&self) -> (r: i64)
        requires
            self.level_spec() <= 1000000,
        ensures
            r == points_spec(self.level_spec()),
    {
        proof {
            use_type_invariant(*self);
        }
        let l = self.level_num as u64;
        proof {
            assert(1 <= l as int * 1000000000000 <= 1000000000000000000) by (nonlinear_arith)
                requires
                    1 <= l as int <= 1000000,
            {
            }
        }
        let inner = l * 1000000000000;
        let a = isqrt(inner);
        proof {
            lemma_sqrt_floor_bounds(inner as int);
            assert(a as int >= 1) by (nonlinear_arith)
                requires
                    (a as int + 1) * (a as int + 1) > inner as int,
                    inner as int >= 1,
                    a as int >= 0,
            {
            }
        }
        let fr = isqrt(a);
        proof {
            lemma_sqrt_floor_bounds(a as int);
            assert(fr as int >= 1) by (nonlinear_arith)
                requires
                    (fr as int + 1) * (fr as int + 1) > a as int,
                    a as int >= 1,
                    fr as int >= 0,
            {
            }
        }
        let penalty = (1000000000u64 / fr) as i64;
        15000 * (self.level_num as i64) + 1300000 - penalty
    }

    /// The level-clear transition: raises the level counter by exactly
    /// one when the frame's event batch holds a cleared level, however
    /// many such events it holds; otherwise the counter stands.
    pub fn increment_level(&mut self, events: &Vec<GameEvent>)
        requires
            old(self).level_spec() < 4294967295,
        ensures
            has_event(events@, GameEvent::LevelClear) ==> final(self).level_spec() == old(
                self,
            ).level_spec() + 1,
            !has_event(events@, GameEvent::LevelClear) ==> final(self).level_spec() == old(
                self,
            ).level_spec(),
    {
        proof {
            use_type_invariant(*self);
        }
        if contains_event(events, GameEvent::LevelClear) {
            self.level_num = self.level_num + 1;
        }
    }

    /// The game-over transition: drops back to level 1 when the frame's
    /// event batch holds a game over; otherwise the counter stands.
    pub fn reset(&mut self, events: &Vec<GameEvent>)
        ensures
            has_event(events@, GameEvent::GameOver) ==> final(self).level_spec() == 1,
            !has_event(events@, GameEvent::GameOver) ==> final(self).level_spec() == old(
                self,
            ).level_spec(),
    {
        if contains_event(events, GameEvent::GameOver) {
            self.level_num = 1;
        }
    }
}

impl Default for Difficulty {
    /// A fresh game starts at level 1.
    fn default() -> (r: Self)
        ensures
            r.level_spec() == 1,
    {
        Difficulty { level_num: 1 }
    }
}

} // verus!
