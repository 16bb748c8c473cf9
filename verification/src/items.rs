//! The item system: stat-modifying pickups and the configuration they act
//! on.
//!
//! All stats are kept in thousandths of their display unit, so the whole
//! pipeline is integer arithmetic: a multiplier of `1.2` is the factor
//! `1200`. Item effects are split into an additive pass and a
//! multiplicative pass, each applied once for the first copy of an item
//! and again for every further copy, so that the order items were picked
//! up in never changes the outcome; a final clamp keeps every stat inside
//! its sensible range.

use vstd::prelude::*;

use vstd::string::StringExecFns;

use crate::math::isqrt;
use crate::math::sqrt_floor;
use crate::rng::sample_range;

verus! {

/// Upper cap on every stat, in thousandths; intermediate arithmetic
/// saturates here instead of overflowing.
pub const STAT_CAP: i64 = 1000000000;

/// Multiplying a stat by a factor in thousandths, saturating at the cap.
pub open spec fn scale_spec(v: int, f: int) -> int {
    if v * f / 1000 > STAT_CAP as int {
        STAT_CAP as int
    } else {
        v * f / 1000
    }
}

/// Adding to a stat, saturating at the cap.
pub open spec fn add_spec(v: int, d: int) -> int {
    if v + d > STAT_CAP as int {
        STAT_CAP as int
    } else {
        v + d
    }
}

/// Subtracting from a stat, stopping at zero.
pub open spec fn sub_spec(v: int, d: int) -> int {
    if v - d < 0 {
        0
    } else {
        v - d
    }
}

/// Clamping a value into an inclusive range.
pub open spec fn clamp_spec(v: int, lo: int, hi: int) -> int {
    if v < lo {
        lo
    } else if v > hi {
        hi
    } else {
        v
    }
}

/// Multiplies the stat `v` by the factor `f` (in thousandths), saturating
/// at the cap.
fn scale(v: i64, f: i64) -> (r: i64)
    requires
        0 <= v <= STAT_CAP,
        0 <= f <= 10000,
    ensures
        r == scale_spec(v as int, f as int),
        0 <= r <= STAT_CAP,
{
    proof {
        assert(0 <= (v as int) * (f as int) <= 10000000000000) by (nonlinear_arith)
            requires
                0 <= v as int <= STAT_CAP as int,
                0 <= f as int <= 10000,
        {
        }
    }
    let q = (((v * f) as u64) / 1000) as i64;
    if q > STAT_CAP {
        STAT_CAP
    } else {
        q
    }
}

/// Adds `d` to the stat `v`, saturating at the cap.
fn add_m(v: i64, d: i64) -> (r: i64)
    requires
        0 <= v <= STAT_CAP,
        0 <= d <= STAT_CAP,
    ensures
        r == add_spec(v as int, d as int),
        0 <= r <= STAT_CAP,
{
    if v + d > STAT_CAP {
        STAT_CAP
    } else {
        v + d
    }
}

/// Subtracts `d` from the stat `v`, stopping at zero.
fn sub_m(v: i64, d: i64) -> (r: i64)
    requires
        0 <= v <= STAT_CAP,
        0 <= d <= STAT_CAP,
    ensures
        r == sub_spec(v as int, d as int),
        0 <= r <= STAT_CAP,
{
    if v - d < 0 {
        0
    } else {
        v - d
    }
}

/// Clamps the stat `v` into `[lo, hi]`.
fn clamp_stat(v: i64, lo: i64, hi: i64) -> (r: i64)
    requires
        lo <= hi,
    ensures
        r == clamp_spec(v as int, lo as int, hi as int),
        lo <= r <= hi,
{
    if v < lo {
        lo
    } else if v > hi {
        hi
    } else {
        v
    }
}

/// The player stats that items may modify.
#[derive(Clone, Copy, PartialEq, Eq, Structural, Debug)]
pub struct PlayerBuilder {
    /// Movement speed, in thousandths of a unit per second.
    pub speed: i64,
    /// Body width, in thousandths of a world unit.
    pub size_x: i64,
    /// Body height, in thousandths of a world unit.
    pub size_y: i64,
}

impl PlayerBuilder {
    /// All stats are non-negative and capped.
    pub open spec fn wf(self) -> bool {
        &&& 0 <= self.speed <= STAT_CAP
        &&& 0 <= self.size_x <= STAT_CAP
        &&& 0 <= self.size_y <= STAT_CAP
    }
}

impl Default for PlayerBuilder {
    /// The unmodified player: speed 200, a 20 x 20 unit body.
    fn default() -> (r: Self)
        ensures
            r == (PlayerBuilder { speed: 200000, size_x: 20000, size_y: 20000 }),
    {
        PlayerBuilder { speed: 200000, size_x: 20000, size_y: 20000 }
    }
}

/// The gun and bullet stats that items may modify.
#[derive(Clone, Copy, PartialEq, Eq, Structural, Debug)]
pub struct GunBuilder {
    /// Bullet width, in thousandths of a world unit.
    pub size_x: i64,
    /// Bullet height, in thousandths of a world unit.
    pub size_y: i64,
    /// Seconds between shots, in thousandths.
    pub cooldown: i64,
    /// Aim spread, in thousandths of a radian.
    pub deviation: i64,
    /// Bullet lifetime, in thousandths of a second.
    pub lifetime: i64,
    /// Bullet speed, in thousandths of a unit per second.
    pub speed: i64,
}

impl GunBuilder {
    /// All stats are non-negative and capped.
    pub open spec fn wf(self) -> bool {
        &&& 0 <= self.size_x <= STAT_CAP
        &&& 0 <= self.size_y <= STAT_CAP
        &&& 0 <= self.cooldown <= STAT_CAP
        &&& 0 <= self.deviation <= STAT_CAP
        &&& 0 <= self.lifetime <= STAT_CAP
        &&& 0 <= self.speed <= STAT_CAP
    }
}

impl Default for GunBuilder {
    /// The unmodified gun: 5 x 10 unit bullets, 0.3 s cooldown, 0.1 rad
    /// spread, one-second bullets at speed 500.
    fn default() -> (r: Self)
        ensures
            r == (GunBuilder {
                size_x: 5000,
                size_y: 10000,
                cooldown: 300,
                deviation: 100,
                lifetime: 1000,
                speed: 500000,
            }),
    {
        GunBuilder {
            size_x: 5000,
            size_y: 10000,
            cooldown: 300,
            deviation: 100,
            lifetime: 1000,
            speed: 500000,
        }
    }
}

/// Everything the items act on: the owned item counts plus the player and
/// gun stats they produce.
#[derive(Clone, PartialEq, Eq, Debug)]
pub struct Config {
    /// How many of each item the player holds.
    pub flags: ConfigFlags,
    /// The player stats after item effects.
    pub player: PlayerBuilder,
    /// The gun stats after item effects.
    pub gun: GunBuilder,
}

impl Config {
    /// The counts table is complete and all stats are in range.
    pub open spec fn wf(self) -> bool {
        self.flags.wf() && self.player.wf() && self.gun.wf()
    }

    /// Limits every stat to its sensible range, so no combination of
    /// items can make the game degenerate. The player's stats are fixed
    /// first because the gun's bullet size is bounded by the player's
    /// body size.
    pub fn clamp(&mut self)
        requires
            old(self).wf(),
        ensures
            final(self).wf(),
            final(self).flags == old(self).flags,
            final(self).player.speed == clamp_spec(old(self).player.speed as int, 50000, 400000),
            final(self).player.size_x == clamp_spec(old(self).player.size_x as int, 5000, 40000),
            final(self).player.size_y == clamp_spec(old(self).player.size_y as int, 5000, 40000),
            final(self).gun.size_x == clamp_spec(
                old(self).gun.size_x as int,
                3000,
                final(self).player.size_x as int * 900 / 1000,
            ),
            final(self).gun.size_y == clamp_spec(
                old(self).gun.size_y as int,
                4000,
                final(self).player.size_y as int,
            ),
            final(self).gun.cooldown == clamp_spec(old(self).gun.cooldown as int, 100, 2000),
            final(self).gun.deviation == clamp_spec(old(self).gun.deviation as int, 0, 2000),
            final(self).gun.lifetime == clamp_spec(old(self).gun.lifetime as int, 300, 100000),
            final(self).gun.speed == old(self).gun.speed,
    {
        self.player.speed = clamp_stat(self.player.speed, 50000, 400000);
        self.player.size_x = clamp_stat(self.player.size_x, 5000, 40000);
        self.player.size_y = clamp_stat(self.player.size_y, 5000, 40000);
        let gx_hi = (((self.player.size_x * 900) as u64) / 1000) as i64;
        self.gun.size_x = clamp_stat(self.gun.size_x, 3000, gx_hi);
        self.gun.size_y = clamp_stat(self.gun.size_y, 4000, self.player.size_y);
        self.gun.cooldown = clamp_stat(self.gun.cooldown, 100, 2000);
        self.gun.deviation = clamp_stat(self.gun.deviation, 0, 2000);
        self.gun.lifetime = clamp_stat(self.gun.lifetime, 300, 100000);
    }
}

impl Default for Config {
    /// No items owned, all stats at their base values.
    fn default() -> (r: Self)
        ensures
            r.wf(),
            r.flags.counts@ == Seq::<u32>::new(9, |i: int| 0u32),
            r.player == (PlayerBuilder { speed: 200000, size_x: 20000, size_y: 20000 }),
            r.gun == (GunBuilder {
                size_x: 5000,
                size_y: 10000,
                cooldown: 300,
                deviation: 100,
                lifetime: 1000,
                speed: 500000,
            }),
    {
        Config { flags: ConfigFlags::new(), player: Default::default(), gun: Default::default() }
    }
}

/// How many of each item the player owns, indexed by `ItemId::index`.
#[derive(Clone, PartialEq, Eq, Debug)]
pub struct ConfigFlags {
    /// One counter per item kind.
    pub counts: Vec<u32>,
}

impl ConfigFlags {
    /// One slot per item kind.
    pub open spec fn wf(self) -> bool {
        self.counts@.len() == 9
    }

    /// The owned count of `id`.
    pub open spec fn count_spec(self, id: ItemId) -> int {
        self.counts@[id.index_spec()] as int
    }

    /// An empty inventory.
    pub fn new() -> (r: Self)
        ensures
            r.wf(),
            r.counts@ == Seq::<u32>::new(9, |i: int| 0u32),
            forall|id: ItemId| #[trigger] r.count_spec(id) == 0,
    {
        let counts: Vec<u32> = vec![0; 9];
        proof {
            assert(counts@ =~= Seq::<u32>::new(9, |i: int| 0u32));
        }
        ConfigFlags { counts }
    }

    /// Whether at least one copy of `id` is owned.
    pub fn contains(&self, flag: &ItemId) -> (r: bool)
        requires
            self.wf(),
        ensures
            r == (self.count_spec(*flag) > 0),
    {
        self.counts[flag.index()] > 0
    }

    /// How many copies of `id` are owned.
    pub fn count(&self, flag: &ItemId) -> (r: u32)
        requires
            self.wf(),
        ensures
            r == self.count_spec(*flag),
    {
        self.counts[flag.index()]
    }

    /// Records one more copy of `flag`.
    pub fn add(&mut self, flag: ItemId)
        requires
            old(self).wf(),
            old(self).count_spec(flag) < 4294967295,
        ensures
            final(self).wf(),
            final(self).count_spec(flag) == old(self).count_spec(flag) + 1,
            forall|id: ItemId|
                id.index_spec() != flag.index_spec() ==> #[trigger] final(self).count_spec(id)
                    == old(self).count_spec(id),
    {
        let i = flag.index();
        let c = self.counts[i];
        self.counts[i] = c + 1;
    }

    /// The owned items with their counts, in a fixed order; items with no
    /// copies are left out.
    pub fn iter(&self) -> (r: Vec<(ItemId, u32)>)
        requires
            self.wf(),
        ensures
            forall|j: int|
                0 <= j < r@.len() ==> #[trigger] r@[j].1 == self.count_spec(r@[j].0) && r@[j].1
                    > 0,
            forall|id: ItemId|
                #[trigger] self.count_spec(id) > 0 ==> exists|j: int|
                    0 <= j < r@.len() && (#[trigger] r@[j]).0 == id,
    {
        let ids = ItemId::all();
        let mut out: Vec<(ItemId, u32)> = Vec::new();
        let mut k: usize = 0;
        while k < 9
            invariant
                self.wf(),
                k <= 9,
                ids@.len() == 9,
                forall|j: int| 0 <= j < 9 ==> (#[trigger] ids@[j]).index_spec() == j,
                forall|j: int|
                    0 <= j < out@.len() ==> #[trigger] out@[j].1 == self.count_spec(out@[j].0)
                        && out@[j].1 > 0,
                forall|id: ItemId|
                    id.index_spec() < k && #[trigger] self.count_spec(id) > 0 ==> exists|j: int|
                        0 <= j < out@.len() && (#[trigger] out@[j]).0 == id,
            decreases 9 - k,
        {
            let id = ids[k];
            let c = self.counts[id.index()];
            let ghost out0 = out@;
            if c > 0 {
                out.push((id, c));
            }
            proof {
                assert forall|id2: ItemId|
                    id2.index_spec() < k + 1 && #[trigger] self.count_spec(id2) > 0 implies exists|
                    j: int,
                |
                    0 <= j < out@.len() && (#[trigger] out@[j]).0 == id2 by {
                    if id2.index_spec() == k as int {
                        ItemId::lemma_index_injective(id2, id);
                        assert(out@.last().0 == id2);
                    } else {
                        let j = choose|j: int| 0 <= j < out0.len() && (#[trigger] out0[j]).0 == id2;
                        assert(out@[j].0 == id2);
                    }
                }
            }
            k = k + 1;
        }
        out
    }
}

/// Identifies one kind of item; the closed set of pickups the game
/// offers.
#[derive(Clone, Copy, PartialEq, Eq, Structural, Debug)]
pub enum ItemId {
    /// Hold-to-fire, at the price of accuracy.
    AutoFire,
    /// Faster movement, shorter-lived bullets.
    Faster,
    /// A smaller, slower body.
    Smaller,
    /// A bigger body and bigger bullets.
    Bigger,
    /// Slower movement, longer-lived bullets.
    Slower,
    /// Tighter aim, slower firing.
    Accuracy,
    /// Bouncing, less accurate, shorter-lived bullets.
    Bouncy,
    /// Wide, slow, accurate bullets.
    HighCalibre,
    /// Long fast bullets with a slower trigger.
    Laser,
}

impl ItemId {
    /// This id's slot in the counts table.
    pub open spec fn index_spec(self) -> int {
        match self {
            ItemId::AutoFire => 0,
            ItemId::Faster => 1,
            ItemId::Smaller => 2,
            ItemId::Bigger => 3,
            ItemId::Slower => 4,
            ItemId::Accuracy => 5,
            ItemId::Bouncy => 6,
            ItemId::HighCalibre => 7,
            ItemId::Laser => 8,
        }
    }

    /// Ids with the same slot are the same id.
    pub proof fn lemma_index_injective(a: ItemId, b: ItemId)
        requires
            a.index_spec() == b.index_spec(),
        ensures
            a == b,
    {
    }

    /// This id's slot in the counts table.
    pub fn index(&self) -> (r: usize)
        ensures
            r == self.index_spec(),
            r < 9,
    {
        match self {
            ItemId::AutoFire => 0,
            ItemId::Faster => 1,
            ItemId::Smaller => 2,
            ItemId::Bigger => 3,
            ItemId::Slower => 4,
            ItemId::Accuracy => 5,
            ItemId::Bouncy => 6,
            ItemId::HighCalibre => 7,
            ItemId::Laser => 8,
        }
    }

    /// Every item id once, ordered by slot.
    pub fn all() -> (r: Vec<ItemId>)
        ensures
            r@.len() == 9,
            forall|j: int| 0 <= j < 9 ==> (#[trigger] r@[j]).index_spec() == j,
    {
        let mut v: Vec<ItemId> = Vec::new();
        v.push(ItemId::AutoFire);
        v.push(ItemId::Faster);
        v.push(ItemId::Smaller);
        v.push(ItemId::Bigger);
        v.push(ItemId::Slower);
        v.push(ItemId::Accuracy);
        v.push(ItemId::Bouncy);
        v.push(ItemId::HighCalibre);
        v.push(ItemId::Laser);
        v
    }

    /// Draws an item id uniformly from the eight-entry draw table.
    /// `Smaller` has no slot in the table, so it is never drawn.
    pub fn random(rng: &mut rand::rngs::StdRng) -> (r: ItemId)
        ensures
            r != ItemId::Smaller,
    {
        let v = sample_range(rng, 0, 7);
        if v == 0 {
            ItemId::Accuracy
        } else if v == 1 {
            ItemId::AutoFire
        } else if v == 2 {
            ItemId::Bigger
        } else if v == 3 {
            ItemId::Bouncy
        } else if v == 4 {
            ItemId::Faster
        } else if v == 5 {
            ItemId::HighCalibre
        } else if v == 6 {
            ItemId::Laser
        } else {
            ItemId::Slower
        }
    }

    /// The item's display name.
    pub fn name(&self) -> (r: String)
        ensures
            r@ == self.name_spec(),
    {
        match self {
            ItemId::AutoFire => String::from_str("Automatic"),
            ItemId::Faster => String::from_str("Turbo the Snail"),
            ItemId::Smaller => String::from_str("Drink Me"),
            ItemId::Bigger => String::from_str("Magic Beans"),
            ItemId::Slower => String::from_str("Lead Boots"),
            ItemId::Accuracy => String::from_str("Thinking Man"),
            ItemId::Bouncy => String::from_str("Bouncy Bullets"),
            ItemId::HighCalibre => String::from_str("Anti Tank Rounds"),
            ItemId::Laser => String::from_str("Laser"),
        }
    }

    /// The characters of the item's display name.
    pub open spec fn name_spec(self) -> Seq<char> {
        match self {
            ItemId::AutoFire => "Automatic"@,
            ItemId::Faster => "Turbo the Snail"@,
            ItemId::Smaller => "Drink Me"@,
            ItemId::Bigger => "Magic Beans"@,
            ItemId::Slower => "Lead Boots"@,
            ItemId::Accuracy => "Thinking Man"@,
            ItemId::Bouncy => "Bouncy Bullets"@,
            ItemId::HighCalibre => "Anti Tank Rounds"@,
            ItemId::Laser => "Laser"@,
        }
    }
}

/// Makes the gun automatic: looser aim on pickup, then each copy speeds
/// the trigger and loosens aim further.
#[derive(Clone, Copy, PartialEq, Eq, Structural, Debug)]
pub struct AutoFire;

impl AutoFire {
    /// First-copy additive effect: aim spread grows by 0.3.
    pub fn add_first(&self, c: &mut Config)
        requires
            old(c).wf(),
        ensures
            final(c).wf(),
            *final(c) == (Config {
                gun: GunBuilder {
                    deviation: add_spec(old(c).gun.deviation as int, 300) as i64,
                    ..old(c).gun
                },
                ..*old(c)
            }),
    {
        self.add(c);
        c.gun.deviation = add_m(c.gun.deviation, 300);
    }

    /// Additive effect of further copies: none.
    pub fn add(&self, c: &mut Config)
        requires
            old(c).wf(),
        ensures
            *final(c) == *old(c),
    {
    }

    /// Multiplicative effect of every copy: cooldown x0.9, spread x1.2.
    pub fn mul(&self, c: &mut Config)
        requires
            old(c).wf(),
        ensures
            final(c).wf(),
            *final(c) == (Config {
                gun: GunBuilder {
                    cooldown: scale_spec(old(c).gun.cooldown as int, 900) as i64,
                    deviation: scale_spec(old(c).gun.deviation as int, 1200) as i64,
                    ..old(c).gun
                },
                ..*old(c)
            }),
    {
        c.gun.cooldown = scale(c.gun.cooldown, 900);
        c.gun.deviation = scale(c.gun.deviation, 1200);
    }
}

/// Faster movement at the price of bullet lifetime.
#[derive(Clone, Copy, PartialEq, Eq, Structural, Debug)]
pub struct Faster;

impl Faster {
    /// First-copy multiplicative effect: speed x1.5, lifetime x0.8.
    pub fn mul_first(&self, c: &mut Config)
        requires
            old(c).wf(),
        ensures
            final(c).wf(),
            *final(c) == (Config {
                player: PlayerBuilder {
                    speed: scale_spec(old(c).player.speed as int, 1500) as i64,
                    ..old(c).player
                },
                gun: GunBuilder {
                    lifetime: scale_spec(old(c).gun.lifetime as int, 800) as i64,
                    ..old(c).gun
                },
                ..*old(c)
            }),
    {
        c.player.speed = scale(c.player.speed, 1500);
        c.gun.lifetime = scale(c.gun.lifetime, 800);
    }

    /// Multiplicative effect of further copies: speed x1.3, lifetime x0.8.
    pub fn mul(&self, c: &mut Config)
        requires
            old(c).wf(),
        ensures
            final(c).wf(),
            *final(c) == (Config {
                player: PlayerBuilder {
                    speed: scale_spec(old(c).player.speed as int, 1300) as i64,
                    ..old(c).player
                },
                gun: GunBuilder {
                    lifetime: scale_spec(old(c).gun.lifetime as int, 800) as i64,
                    ..old(c).gun
                },
                ..*old(c)
            }),
    {
        c.player.speed = scale(c.player.speed, 1300);
        c.gun.lifetime = scale(c.gun.lifetime, 800);
    }
}

/// Slower movement, longer-lived bullets.
#[derive(Clone, Copy, PartialEq, Eq, Structural, Debug)]
pub struct Slower;

impl Slower {
    /// Multiplicative effect of every copy: speed x0.8, lifetime x1.5.
    pub fn mul(&self, c: &mut Config)
        requires
            old(c).wf(),
        ensures
            final(c).wf(),
            *final(c) == (Config {
                player: PlayerBuilder {
                    speed: scale_spec(old(c).player.speed as int, 800) as i64,
                    ..old(c).player
                },
                gun: GunBuilder {
                    lifetime: scale_spec(old(c).gun.lifetime as int, 1500) as i64,
                    ..old(c).gun
                },
                ..*old(c)
            }),
    {
        c.player.speed = scale(c.player.speed, 800);
        c.gun.lifetime = scale(c.gun.lifetime, 1500);
    }
}

/// A smaller but slower player.
#[derive(Clone, Copy, PartialEq, Eq, Structural, Debug)]
pub struct Smaller;

impl Smaller {
    /// First-copy additive effect: the body shrinks by 5 units per axis.
    pub fn add_first(&self, c: &mut Config)
        requires
            old(c).wf(),
        ensures
            final(c).wf(),
            *final(c) == (Config {
                player: PlayerBuilder {
                    size_x: sub_spec(old(c).player.size_x as int, 5000) as i64,
                    size_y: sub_spec(old(c).player.size_y as int, 5000) as i64,
                    ..old(c).player
                },
                ..*old(c)
            }),
    {
        c.player.size_x = sub_m(c.player.size_x, 5000);
        c.player.size_y = sub_m(c.player.size_y, 5000);
    }

    /// Multiplicative effect of every copy: body x0.8, speed x0.8.
    pub fn mul(&self, c: &mut Config)
        requires
            old(c).wf(),
        ensures
            final(c).wf(),
            *final(c) == (Config {
                player: PlayerBuilder {
                    speed: scale_spec(old(c).player.speed as int, 800) as i64,
                    size_x: scale_spec(old(c).player.size_x as int, 800) as i64,
                    size_y: scale_spec(old(c).player.size_y as int, 800) as i64,
                },
                ..*old(c)
            }),
    {
        c.player.size_x = scale(c.player.size_x, 800);
        c.player.size_y = scale(c.player.size_y, 800);
        c.player.speed = scale(c.player.speed, 800);
    }
}

/// A bigger player with bigger bullets.
#[derive(Clone, Copy, PartialEq, Eq, Structural, Debug)]
pub struct Bigger;

impl Bigger {
    /// First-copy additive effect: the body grows by 5 units per axis.
    pub fn add_first(&self, c: &mut Config)
        requires
            old(c).wf(),
        ensures
            final(c).wf(),
            *final(c) == (Config {
                player: PlayerBuilder {
                    size_x: add_spec(old(c).player.size_x as int, 5000) as i64,
                    size_y: add_spec(old(c).player.size_y as int, 5000) as i64,
                    ..old(c).player
                },
                ..*old(c)
            }),
    {
        c.player.size_x = add_m(c.player.size_x, 5000);
        c.player.size_y = add_m(c.player.size_y, 5000);
    }

    /// Multiplicative effect of every copy: bullets x1.2, body x1.1.
    pub fn mul(&self, c: &mut Config)
        requires
            old(c).wf(),
        ensures
            final(c).wf(),
            *final(c) == (Config {
                player: PlayerBuilder {
                    size_x: scale_spec(old(c).player.size_x as int, 1100) as i64,
                    size_y: scale_spec(old(c).player.size_y as int, 1100) as i64,
                    ..old(c).player
                },
                gun: GunBuilder {
                    size_x: scale_spec(old(c).gun.size_x as int, 1200) as i64,
                    size_y: scale_spec(old(c).gun.size_y as int, 1200) as i64,
                    ..old(c).gun
                },
                ..*old(c)
            }),
    {
        c.gun.size_x = scale(c.gun.size_x, 1200);
        c.gun.size_y = scale(c.gun.size_y, 1200);
        c.player.size_x = scale(c.player.size_x, 1100);
        c.player.size_y = scale(c.player.size_y, 1100);
    }
}

/// Tighter aim, slower trigger.
#[derive(Clone, Copy, PartialEq, Eq, Structural, Debug)]
pub struct Accuracy;

impl Accuracy {
    /// Multiplicative effect of every copy: cooldown x1.4, spread x0.6.
    pub fn mul(&self, c: &mut Config)
        requires
            old(c).wf(),
        ensures
            final(c).wf(),
            *final(c) == (Config {
                gun: GunBuilder {
                    cooldown: scale_spec(old(c).gun.cooldown as int, 1400) as i64,
                    deviation: scale_spec(old(c).gun.deviation as int, 600) as i64,
                    ..old(c).gun
                },
                ..*old(c)
            }),
    {
        c.gun.cooldown = scale(c.gun.cooldown, 1400);
        c.gun.deviation = scale(c.gun.deviation, 600);
    }
}

/// Bouncing bullets: less accurate and shorter-lived, and reshaped to a
/// square ball sized by the bullet's former footprint.
#[derive(Clone, Copy, PartialEq, Eq, Structural, Debug)]
pub struct Bouncy;

impl Bouncy {
    /// Multiplicative effect of every copy: spread x1.6, lifetime x0.7.
    pub fn mul(&self, c: &mut Config)
        requires
            old(c).wf(),
        ensures
            final(c).wf(),
            *final(c) == (Config {
                gun: GunBuilder {
                    deviation: scale_spec(old(c).gun.deviation as int, 1600) as i64,
                    lifetime: scale_spec(old(c).gun.lifetime as int, 700) as i64,
                    ..old(c).gun
                },
                ..*old(c)
            }),
    {
        c.gun.deviation = scale(c.gun.deviation, 1600);
        c.gun.lifetime = scale(c.gun.lifetime, 700);
    }

    /// One-time effect: the bullet becomes a square whose side is three
    /// tenths of the old bullet size's diagonal length.
    pub fn misc(&self, c: &mut Config)
        requires
            old(c).wf(),
        ensures
            final(c).wf(),
            *final(c) == (Config {
                gun: GunBuilder {
                    size_x: Self::ball_side(old(c).gun.size_x as int, old(c).gun.size_y as int)
                        as i64,
                    size_y: Self::ball_side(old(c).gun.size_x as int, old(c).gun.size_y as int)
                        as i64,
                    ..old(c).gun
                },
                ..*old(c)
            }),
    {
        let sx = c.gun.size_x;
        let sy = c.gun.size_y;
        proof {
            assert(0 <= (sx as int) * (sx as int) + (sy as int) * (sy as int)
                <= 2000000000000000000) by (nonlinear_arith)
                requires
                    0 <= sx as int <= STAT_CAP as int,
                    0 <= sy as int <= STAT_CAP as int,
            {
            }
        }
        let len = isqrt((sx * sx + sy * sy) as u64);
        proof {
            crate::math::lemma_sqrt_floor_bounds((sx * sx + sy * sy) as int);
            assert(len as int <= 1420000000) by (nonlinear_arith)
                requires
                    (len as int) * (len as int) <= 2000000000000000000,
                    len as int >= 0,
            {
            }
        }
        let side_raw = ((3 * len) / 10) as i64;
        let side = if side_raw > STAT_CAP {
            STAT_CAP
        } else {
            side_raw
        };
        c.gun.size_x = side;
        c.gun.size_y = side;
    }

    /// The square bullet's side: three tenths of the diagonal of the old
    /// bullet rectangle, capped.
    pub open spec fn ball_side(sx: int, sy: int) -> int {
        let side = 3 * sqrt_floor(sx * sx + sy * sy) / 10;
        if side > STAT_CAP as int {
            STAT_CAP as int
        } else {
            side
        }
    }
}

/// Wide, slow, accurate bullets.
#[derive(Clone, Copy, PartialEq, Eq, Structural, Debug)]
pub struct HighCalibre;

impl HighCalibre {
    /// Multiplicative effect of every copy: bullet x1.3 wide and x0.9
    /// tall, bullet speed x0.8, spread x0.7.
    pub fn mul(&self, c: &mut Config)
        requires
            old(c).wf(),
        ensures
            final(c).wf(),
            *final(c) == (Config {
                gun: GunBuilder {
                    size_x: scale_spec(old(c).gun.size_x as int, 1300) as i64,
                    size_y: scale_spec(old(c).gun.size_y as int, 900) as i64,
                    speed: scale_spec(old(c).gun.speed as int, 800) as i64,
                    deviation: scale_spec(old(c).gun.deviation as int, 700) as i64,
                    ..old(c).gun
                },
                ..*old(c)
            }),
    {
        c.gun.size_x = scale(c.gun.size_x, 1300);
        c.gun.size_y = scale(c.gun.size_y, 900);
        c.gun.speed = scale(c.gun.speed, 800);
        c.gun.deviation = scale(c.gun.deviation, 700);
    }
}

/// A long, fast bullet with a slower trigger.
#[derive(Clone, Copy, PartialEq, Eq, Structural, Debug)]
pub struct Laser;

impl Laser {
    /// Multiplicative effect of every copy: bullet speed x1.4, cooldown
    /// x1.2, bullet x0.9 wide and x1.3 tall.
    pub fn mul(&self, c: &mut Config)
        requires
            old(c).wf(),
        ensures
            final(c).wf(),
            *final(c) == (Config {
                gun: GunBuilder {
                    speed: scale_spec(old(c).gun.speed as int, 1400) as i64,
                    cooldown: scale_spec(old(c).gun.cooldown as int, 1200) as i64,
                    size_x: scale_spec(old(c).gun.size_x as int, 900) as i64,
                    size_y: scale_spec(old(c).gun.size_y as int, 1300) as i64,
                    ..old(c).gun
                },
                ..*old(c)
            }),
    {
        c.gun.speed = scale(c.gun.speed, 1400);
        c.gun.cooldown = scale(c.gun.cooldown, 1200);
        c.gun.size_x = scale(c.gun.size_x, 900);
        c.gun.size_y = scale(c.gun.size_y, 1300);
    }
}

/// The stats a fresh configuration starts from.
pub open spec fn base_stats() -> (PlayerBuilder, GunBuilder) {
    (
        PlayerBuilder { speed: 200000, size_x: 20000, size_y: 20000 },
        GunBuilder {
            size_x: 5000,
            size_y: 10000,
            cooldown: 300,
            deviation: 100,
            lifetime: 1000,
            speed: 500000,
        },
    )
}

/// Additive effect of every copy of an item after the first: no item has
/// one.
pub open spec fn add_rest_stats(id: ItemId, s: (PlayerBuilder, GunBuilder)) -> (
    PlayerBuilder,
    GunBuilder,
) {
    s
}

/// First-copy additive effect of an item on the stats.
pub open spec fn add_first_stats(id: ItemId, s: (PlayerBuilder, GunBuilder)) -> (
    PlayerBuilder,
    GunBuilder,
) {
    match id {
        ItemId::AutoFire => (
            s.0,
            GunBuilder { deviation: add_spec(s.1.deviation as int, 300) as i64, ..s.1 },
        ),
        ItemId::Smaller => (
            PlayerBuilder {
                size_x: sub_spec(s.0.size_x as int, 5000) as i64,
                size_y: sub_spec(s.0.size_y as int, 5000) as i64,
                ..s.0
            },
            s.1,
        ),
        ItemId::Bigger => (
            PlayerBuilder {
                size_x: add_spec(s.0.size_x as int, 5000) as i64,
                size_y: add_spec(s.0.size_y as int, 5000) as i64,
                ..s.0
            },
            s.1,
        ),
        _ => add_rest_stats(id, s),
    }
}

/// Multiplicative effect of one copy of an item (for `Faster`, of a copy
/// after the first).
pub open spec fn mul_rest_stats(id: ItemId, s: (PlayerBuilder, GunBuilder)) -> (
    PlayerBuilder,
    GunBuilder,
) {
    match id {
        ItemId::AutoFire => (
            s.0,
            GunBuilder {
                cooldown: scale_spec(s.1.cooldown as int, 900) as i64,
                deviation: scale_spec(s.1.deviation as int, 1200) as i64,
                ..s.1
            },
        ),
        ItemId::Faster => (
            PlayerBuilder { speed: scale_spec(s.0.speed as int, 1300) as i64, ..s.0 },
            GunBuilder { lifetime: scale_spec(s.1.lifetime as int, 800) as i64, ..s.1 },
        ),
        ItemId::Smaller => (
            PlayerBuilder {
                speed: scale_spec(s.0.speed as int, 800) as i64,
                size_x: scale_spec(s.0.size_x as int, 800) as i64,
                size_y: scale_spec(s.0.size_y as int, 800) as i64,
            },
            s.1,
        ),
        ItemId::Bigger => (
            PlayerBuilder {
                size_x: scale_spec(s.0.size_x as int, 1100) as i64,
                size_y: scale_spec(s.0.size_y as int, 1100) as i64,
                ..s.0
            },
            GunBuilder {
                size_x: scale_spec(s.1.size_x as int, 1200) as i64,
                size_y: scale_spec(s.1.size_y as int, 1200) as i64,
                ..s.1
            },
        ),
        ItemId::Slower => (
            PlayerBuilder { speed: scale_spec(s.0.speed as int, 800) as i64, ..s.0 },
            GunBuilder { lifetime: scale_spec(s.1.lifetime as int, 1500) as i64, ..s.1 },
        ),
        ItemId::Accuracy => (
            s.0,
            GunBuilder {
                cooldown: scale_spec(s.1.cooldown as int, 1400) as i64,
                deviation: scale_spec(s.1.deviation as int, 600) as i64,
                ..s.1
            },
        ),
        ItemId::Bouncy => (
            s.0,
            GunBuilder {
                deviation: scale_spec(s.1.deviation as int, 1600) as i64,
                lifetime: scale_spec(s.1.lifetime as int, 700) as i64,
                ..s.1
            },
        ),
        ItemId::HighCalibre => (
            s.0,
            GunBuilder {
                size_x: scale_spec(s.1.size_x as int, 1300) as i64,
                size_y: scale_spec(s.1.size_y as int, 900) as i64,
                speed: scale_spec(s.1.speed as int, 800) as i64,
                deviation: scale_spec(s.1.deviation as int, 700) as i64,
                ..s.1
            },
        ),
        ItemId::Laser => (
            s.0,
            GunBuilder {
                speed: scale_spec(s.1.speed as int, 1400) as i64,
                cooldown: scale_spec(s.1.cooldown as int, 1200) as i64,
                size_x: scale_spec(s.1.size_x as int, 900) as i64,
                size_y: scale_spec(s.1.size_y as int, 1300) as i64,
                ..s.1
            },
        ),
    }
}

/// First-copy multiplicative effect; only `Faster` differs from its
/// ordinary multiplicative effect.
pub open spec fn mul_first_stats(id: ItemId, s: (PlayerBuilder, GunBuilder)) -> (
    PlayerBuilder,
    GunBuilder,
) {
    match id {
        ItemId::Faster => (
            PlayerBuilder { speed: scale_spec(s.0.speed as int, 1500) as i64, ..s.0 },
            GunBuilder { lifetime: scale_spec(s.1.lifetime as int, 800) as i64, ..s.1 },
        ),
        _ => mul_rest_stats(id, s),
    }
}

/// One-time effect of an owned item; only the bouncing bullets have one.
pub open spec fn misc_stats(id: ItemId, s: (PlayerBuilder, GunBuilder)) -> (
    PlayerBuilder,
    GunBuilder,
) {
    match id {
        ItemId::Bouncy => (
            s.0,
            GunBuilder {
                size_x: Bouncy::ball_side(s.1.size_x as int, s.1.size_y as int) as i64,
                size_y: Bouncy::ball_side(s.1.size_x as int, s.1.size_y as int) as i64,
                ..s.1
            },
        ),
        _ => s,
    }
}

/// `n` repeat-copy additive effects in a row.
pub open spec fn repeat_add(id: ItemId, s: (PlayerBuilder, GunBuilder), n: nat) -> (
    PlayerBuilder,
    GunBuilder,
)
    decreases n,
{
    if n == 0 {
        s
    } else {
        add_rest_stats(id, repeat_add(id, s, (n - 1) as nat))
    }
}

/// `n` repeat-copy multiplicative effects in a row.
pub open spec fn repeat_mul(id: ItemId, s: (PlayerBuilder, GunBuilder), n: nat) -> (
    PlayerBuilder,
    GunBuilder,
)
    decreases n,
{
    if n == 0 {
        s
    } else {
        mul_rest_stats(id, repeat_mul(id, s, (n - 1) as nat))
    }
}

/// The whole additive contribution of `n` copies of one item: the
/// first-copy effect once, then the repeat effect `n - 1` times.
pub open spec fn add_item_stats(id: ItemId, s: (PlayerBuilder, GunBuilder), n: nat) -> (
    PlayerBuilder,
    GunBuilder,
) {
    if n == 0 {
        s
    } else {
        repeat_add(id, add_first_stats(id, s), (n - 1) as nat)
    }
}

/// The whole multiplicative contribution of `n` copies of one item.
pub open spec fn mul_item_stats(id: ItemId, s: (PlayerBuilder, GunBuilder), n: nat) -> (
    PlayerBuilder,
    GunBuilder,
) {
    if n == 0 {
        s
    } else {
        repeat_mul(id, mul_first_stats(id, s), (n - 1) as nat)
    }
}

/// The one-time contribution of an item: applied once when any copy is
/// owned.
pub open spec fn misc_item_stats(id: ItemId, s: (PlayerBuilder, GunBuilder), n: nat) -> (
    PlayerBuilder,
    GunBuilder,
) {
    if n == 0 {
        s
    } else {
        misc_stats(id, s)
    }
}

/// The item whose slot in the counts table is `j`.
pub open spec fn item_of_index(j: int) -> ItemId {
    if j == 0 {
        ItemId::AutoFire
    } else if j == 1 {
        ItemId::Faster
    } else if j == 2 {
        ItemId::Smaller
    } else if j == 3 {
        ItemId::Bigger
    } else if j == 4 {
        ItemId::Slower
    } else if j == 5 {
        ItemId::Accuracy
    } else if j == 6 {
        ItemId::Bouncy
    } else if j == 7 {
        ItemId::HighCalibre
    } else {
        ItemId::Laser
    }
}

/// The additive phase folded over the first `k` item slots, each item
/// weighted by how often it occurs in `ids`.
pub open spec fn add_pass(ids: Seq<ItemId>, s: (PlayerBuilder, GunBuilder), k: int) -> (
    PlayerBuilder,
    GunBuilder,
)
    decreases k,
{
    if k <= 0 {
        s
    } else {
        add_item_stats(
            item_of_index(k - 1),
            add_pass(ids, s, k - 1),
            occurrences(ids, item_of_index(k - 1)) as nat,
        )
    }
}

/// The multiplicative phase folded over the first `k` item slots.
pub open spec fn mul_pass(ids: Seq<ItemId>, s: (PlayerBuilder, GunBuilder), k: int) -> (
    PlayerBuilder,
    GunBuilder,
)
    decreases k,
{
    if k <= 0 {
        s
    } else {
        mul_item_stats(
            item_of_index(k - 1),
            mul_pass(ids, s, k - 1),
            occurrences(ids, item_of_index(k - 1)) as nat,
        )
    }
}

/// The one-time phase folded over the first `k` item slots.
pub open spec fn misc_pass(ids: Seq<ItemId>, s: (PlayerBuilder, GunBuilder), k: int) -> (
    PlayerBuilder,
    GunBuilder,
)
    decreases k,
{
    if k <= 0 {
        s
    } else {
        misc_item_stats(
            item_of_index(k - 1),
            misc_pass(ids, s, k - 1),
            occurrences(ids, item_of_index(k - 1)) as nat,
        )
    }
}

/// The final clamp: the player's stats are fixed first, and the gun's
/// bullet size is bounded by the clamped body size.
pub open spec fn clamp_stats(s: (PlayerBuilder, GunBuilder)) -> (PlayerBuilder, GunBuilder) {
    let p = PlayerBuilder {
        speed: clamp_spec(s.0.speed as int, 50000, 400000) as i64,
        size_x: clamp_spec(s.0.size_x as int, 5000, 40000) as i64,
        size_y: clamp_spec(s.0.size_y as int, 5000, 40000) as i64,
    };
    let g = GunBuilder {
        size_x: clamp_spec(s.1.size_x as int, 3000, p.size_x as int * 900 / 1000) as i64,
        size_y: clamp_spec(s.1.size_y as int, 4000, p.size_y as int) as i64,
        cooldown: clamp_spec(s.1.cooldown as int, 100, 2000) as i64,
        deviation: clamp_spec(s.1.deviation as int, 0, 2000) as i64,
        lifetime: clamp_spec(s.1.lifetime as int, 300, 100000) as i64,
        speed: s.1.speed,
    };
    (p, g)
}

/// What a list of owned items makes of the base stats: the additive
/// phase, then the multiplicative phase, then one-time effects, then the
/// clamp. Every phase reads the list only through how often each item
/// occurs, so the stats never depend on pickup order.
pub open spec fn stats_after(ids: Seq<ItemId>) -> (PlayerBuilder, GunBuilder) {
    clamp_stats(misc_pass(ids, mul_pass(ids, add_pass(ids, base_stats(), 9), 9), 9))
}

/// How often `id` occurs in a list of item ids.
pub open spec fn occurrences(ids: Seq<ItemId>, id: ItemId) -> int
    decreases ids.len(),
{
    if ids.len() == 0 {
        0
    } else {
        occurrences(ids.drop_last(), id) + if ids.last() == id {
            1int
        } else {
            0int
        }
    }
}

/// The items the player has picked up, in pickup order.
#[derive(Clone, PartialEq, Eq, Debug)]
pub struct ItemManager {
    /// One entry per pickup; repeats are meaningful.
    pub item_ids: Vec<ItemId>,
}

impl Default for ItemManager {
    /// A fresh game starts with no items.
    fn default() -> (r: Self)
        ensures
            r.item_ids@.len() == 0,
    {
        ItemManager { item_ids: Vec::new() }
    }
}

impl ItemManager {
    /// Gives the player one more item.
    pub fn add(&mut self, item_id: ItemId)
        ensures
            final(self).item_ids@ == old(self).item_ids@.push(item_id),
    {
        self.item_ids.push(item_id);
    }

    /// Forgets every item; called on a game over.
    pub fn reset(&mut self)
        ensures
            final(self).item_ids@.len() == 0,
    {
        self.item_ids = Vec::new();
    }

    /// Builds the effective configuration from the owned items: counts
    /// every item, applies each item's additive effects (first copy, then
    /// the rest), then its multiplicative effects likewise, then one-time
    /// effects, and finally clamps every stat into its range. The
    /// resulting counts table records exactly how many of each item the
    /// player holds, and the stats equal `stats_after`, a fold that reads
    /// the items only through those counts — so pickup order never
    /// changes the outcome.
    pub fn apply(&self) -> (r: Config)
        requires
            self.item_ids@.len() <= 1000000,
        ensures
            r.wf(),
            forall|id: ItemId|
                #[trigger] r.flags.count_spec(id) == occurrences(self.item_ids@, id),
            50000 <= r.player.speed <= 400000,
            5000 <= r.player.size_x <= 40000,
            5000 <= r.player.size_y <= 40000,
            3000 <= r.gun.size_x,
            r.gun.size_x as int <= r.player.size_x as int * 900 / 1000,
            4000 <= r.gun.size_y <= r.player.size_y,
            100 <= r.gun.cooldown <= 2000,
            0 <= r.gun.deviation <= 2000,
            300 <= r.gun.lifetime <= 100000,
            (r.player, r.gun) == stats_after(self.item_ids@),
    {
        let mut flags = ConfigFlags::new();
        let n = self.item_ids.len();
        let mut i: usize = 0;
        while i < n
            invariant
                n == self.item_ids@.len(),
                n <= 1000000,
                i <= n,
                flags.wf(),
                forall|id: ItemId|
                    #[trigger] flags.count_spec(id) == occurrences(self.item_ids@.take(i as int), id),
            decreases n - i,
        {
            let id = self.item_ids[i];
            proof {
                assert forall|id2: ItemId|
                    occurrences(self.item_ids@.take(i + 1), id2) == occurrences(
                        self.item_ids@.take(i as int),
                        id2,
                    ) + (if id2 == id {
                        1int
                    } else {
                        0int
                    }) by {
                    assert(self.item_ids@.take(i + 1).drop_last() =~= self.item_ids@.take(i as int));
                    assert(self.item_ids@.take(i + 1).last() == self.item_ids@[i as int]);
                }
                lemma_occurrences_le_len(self.item_ids@.take(i as int), id);
            }
            flags.add(id);
            i = i + 1;
        }
        proof {
            assert(self.item_ids@.take(n as int) =~= self.item_ids@);
        }
        let ghost owned = self.item_ids@;
        let mut config = Config::default();
        let ids = ItemId::all();
        let mut k: usize = 0;
        while k < 9
            invariant
                k <= 9,
                ids@.len() == 9,
                forall|j: int| 0 <= j < 9 ==> (#[trigger] ids@[j]).index_spec() == j,
                flags.wf(),
                forall|id: ItemId| #[trigger] flags.count_spec(id) == occurrences(owned, id),
                config.wf(),
                (config.player, config.gun) == add_pass(owned, base_stats(), k as int),
            decreases 9 - k,
        {
            let id = ids[k];
            proof {
                assert(item_of_index(k as int).index_spec() == k as int);
                ItemId::lemma_index_injective(id, item_of_index(k as int));
            }
            let ghost s_entry = (config.player, config.gun);
            let c = flags.count(&id);
            if c > 0 {
                Self::apply_add_first(id, &mut config);
                let mut t: u32 = 1;
                while t < c
                    invariant
                        config.wf(),
                        1 <= t <= c,
                        c as int == occurrences(owned, id),
                        (config.player, config.gun) == repeat_add(
                            id,
                            add_first_stats(id, s_entry),
                            (t - 1) as nat,
                        ),
                    decreases c - t,
                {
                    Self::apply_add(id, &mut config);
                    t = t + 1;
                }
            }
            proof {
                assert((config.player, config.gun) == add_item_stats(id, s_entry, c as nat));
            }
            k = k + 1;
        }
        let mut k2: usize = 0;
        while k2 < 9
            invariant
                k2 <= 9,
                ids@.len() == 9,
                forall|j: int| 0 <= j < 9 ==> (#[trigger] ids@[j]).index_spec() == j,
                flags.wf(),
                forall|id: ItemId| #[trigger] flags.count_spec(id) == occurrences(owned, id),
                config.wf(),
                (config.player, config.gun) == mul_pass(
                    owned,
                    add_pass(owned, base_stats(), 9),
                    k2 as int,
                ),
            decreases 9 - k2,
        {
            let id = ids[k2];
            proof {
                assert(item_of_index(k2 as int).index_spec() == k2 as int);
                ItemId::lemma_index_injective(id, item_of_index(k2 as int));
            }
            let ghost s_entry = (config.player, config.gun);
            let c = flags.count(&id);
            if c > 0 {
                Self::apply_mul_first(id, &mut config);
                let mut t: u32 = 1;
                while t < c
                    invariant
                        config.wf(),
                        1 <= t <= c,
                        c as int == occurrences(owned, id),
                        (config.player, config.gun) == repeat_mul(
                            id,
                            mul_first_stats(id, s_entry),
                            (t - 1) as nat,
                        ),
                    decreases c - t,
                {
                    Self::apply_mul(id, &mut config);
                    t = t + 1;
                }
            }
            proof {
                assert((config.player, config.gun) == mul_item_stats(id, s_entry, c as nat));
            }
            k2 = k2 + 1;
        }
        let mut k3: usize = 0;
        while k3 < 9
            invariant
                k3 <= 9,
                ids@.len() == 9,
                forall|j: int| 0 <= j < 9 ==> (#[trigger] ids@[j]).index_spec() == j,
                flags.wf(),
                forall|id: ItemId| #[trigger] flags.count_spec(id) == occurrences(owned, id),
                config.wf(),
                (config.player, config.gun) == misc_pass(
                    owned,
                    mul_pass(owned, add_pass(owned, base_stats(), 9), 9),
                    k3 as int,
                ),
            decreases 9 - k3,
        {
            let id = ids[k3];
            proof {
                assert(item_of_index(k3 as int).index_spec() == k3 as int);
                ItemId::lemma_index_injective(id, item_of_index(k3 as int));
            }
            let ghost s_entry = (config.player, config.gun);
            if flags.contains(&id) {
                Self::apply_misc(id, &mut config);
            }
            proof {
                assert((config.player, config.gun) == misc_item_stats(
                    id,
                    s_entry,
                    occurrences(owned, id) as nat,
                ));
            }
            k3 = k3 + 1;
        }
        config.clamp();
        config.flags = flags;
        config
    }

    /// Dispatches an item's first-copy additive effect; items without one
    /// fall through to the ordinary additive effect.
    fn apply_add_first(id: ItemId, c: &mut Config)
        requires
            old(c).wf(),
        ensures
            final(c).wf(),
            final(c).flags == old(c).flags,
            (final(c).player, final(c).gun) == add_first_stats(id, (old(c).player, old(c).gun)),
    {
        match id {
            ItemId::AutoFire => AutoFire.add_first(c),
            ItemId::Smaller => Smaller.add_first(c),
            ItemId::Bigger => Bigger.add_first(c),
            _ => Self::apply_add(id, c),
        }
    }

    /// Dispatches an item's additive effect for copies after the first;
    /// most items have none.
    fn apply_add(id: ItemId, c: &mut Config)
        requires
            old(c).wf(),
        ensures
            final(c).wf(),
            final(c).flags == old(c).flags,
            (final(c).player, final(c).gun) == add_rest_stats(id, (old(c).player, old(c).gun)),
    {
        match id {
            _ => { },
        }
    }

    /// Dispatches an item's first-copy multiplicative effect; items
    /// without one fall through to the ordinary multiplicative effect.
    fn apply_mul_first(id: ItemId, c: &mut Config)
        requires
            old(c).wf(),
        ensures
            final(c).wf(),
            final(c).flags == old(c).flags,
            (final(c).player, final(c).gun) == mul_first_stats(id, (old(c).player, old(c).gun)),
    {
        match id {
            ItemId::Faster => Faster.mul_first(c),
            _ => Self::apply_mul(id, c),
        }
    }

    /// Dispatches an item's multiplicative effect.
    fn apply_mul(id: ItemId, c: &mut Config)
        requires
            old(c).wf(),
        ensures
            final(c).wf(),
            final(c).flags == old(c).flags,
            (final(c).player, final(c).gun) == mul_rest_stats(id, (old(c).player, old(c).gun)),
    {
        match id {
            ItemId::AutoFire => AutoFire.mul(c),
            ItemId::Faster => Faster.mul(c),
            ItemId::Smaller => Smaller.mul(c),
            ItemId::Bigger => Bigger.mul(c),
            ItemId::Slower => Slower.mul(c),
            ItemId::Accuracy => Accuracy.mul(c),
            ItemId::Bouncy => Bouncy.mul(c),
            ItemId::HighCalibre => HighCalibre.mul(c),
            ItemId::Laser => Laser.mul(c),
        }
    }

    /// Dispatches an item's one-time effect. Only the bouncing bullets
    /// reshape a stat here; cosmetic one-time effects live with the
    /// rendering layer.
    fn apply_misc(id: ItemId, c: &mut Config)
        requires
            old(c).wf(),
        ensures
            final(c).wf(),
            final(c).flags == old(c).flags,
            (final(c).player, final(c).gun) == misc_stats(id, (old(c).player, old(c).gun)),
    {
        match id {
            ItemId::Bouncy => Bouncy.misc(c),
            _ => { },
        }
    }

    /// The display names of the owned items, in pickup order, separated
    /// by commas.
    pub fn list(&self) -> (r: String)
        ensures
            r@ == list_spec(self.item_ids@),
    {
        let mut out = String::new();
        let n = self.item_ids.len();
        let mut i: usize = 0;
        while i < n
            invariant
                n == self.item_ids@.len(),
                i <= n,
                out@ == list_spec(self.item_ids@.take(i as int)),
            decreases n - i,
        {
            if i > 0 {
                out.append(", ");
                proof {
                    reveal_strlit(", ");
                }
            }
            let name = self.item_ids[i].name();
            out.append(name.as_str());
            proof {
                lemma_list_spec_push(self.item_ids@.take(i as int), self.item_ids@[i as int]);
                assert(self.item_ids@.take(i + 1) =~= self.item_ids@.take(i as int).push(
                    self.item_ids@[i as int],
                ));
            }
            i = i + 1;
        }
        proof {
            assert(self.item_ids@.take(n as int) =~= self.item_ids@);
        }
        out
    }
}

/// No list holds an item more often than it has entries.
pub proof fn lemma_occurrences_le_len(ids: Seq<ItemId>, id: ItemId)
    ensures
        occurrences(ids, id) <= ids.len(),
    decreases ids.len(),
{
    if ids.len() > 0 {
        lemma_occurrences_le_len(ids.drop_last(), id);
    }
}

/// The comma-separated listing of item names.
pub open spec fn list_spec(ids: Seq<ItemId>) -> Seq<char>
    decreases ids.len(),
{
    if ids.len() == 0 {
        Seq::empty()
    } else if ids.len() == 1 {
        ids.last().name_spec()
    } else {
        list_spec(ids.drop_last()) + ", "@ + ids.last().name_spec()
    }
}

/// Appending one id extends the listing by a separator (when anything
/// precedes it) and the id's name.
pub proof fn lemma_list_spec_push(ids: Seq<ItemId>, id: ItemId)
    ensures
        ids.len() == 0 ==> list_spec(ids.push(id)) == id.name_spec(),
        ids.len() > 0 ==> list_spec(ids.push(id)) == list_spec(ids) + ", "@ + id.name_spec(),
{
    let ext = ids.push(id);
    assert(ext.drop_last() =~= ids);
    assert(ext.last() == id);
}

} // verus!

