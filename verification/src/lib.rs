//! An ecosystem simulation: predators (wolves), prey (sheep) and producers
//! (grass) move through a bounded square world, find each other through a
//! per-kind quadtree, and act through a per-kind behaviour state machine.
//!
//! All quantities are integers in thousandths of a world unit ("millis"):
//! positions, distances, vitals (health, hunger) and genome values alike.

use vstd::prelude::*;

pub mod agent;
pub mod genes;
pub mod geom;
pub mod quadtree;
pub mod rng;
pub mod world;

verus! {

/// Largest coordinate the spatial index accepts, in millis.
pub const MAX_COORD: i64 = 1_000_000_000;

/// Upper bound of every vital (health, hunger), in millis: 100 units.
pub const VITAL_MAX: i64 = 100_000;

/// Largest movement speed any genome can derive, in millis per tick.
pub const SPEED_LIMIT: i64 = 2_000;

/// Bound kept on each stored acceleration component, in millis per tick.
pub const ACC_LIMIT: i64 = 40_000;

/// Errors the simulation surfaces.
///
/// `TransientLookupMiss` is the only kind expected during normal operation:
/// a neighbour id from a stale snapshot is recovered locally by falling back
/// to idle behaviour, so it never escapes a tick.
#[derive(Clone, Copy, Debug, PartialEq, Eq, Structural)]
pub enum SimError {
    /// Invalid construction parameters; raised when a world is built.
    ConfigurationError,
    /// An out-of-bounds insertion or a malformed address lookup in the index.
    SpatialIndexViolation,
    /// An attempt to eat a non-edible kind.
    BehaviorPrecondition,
    /// A neighbour id that no longer resolves in the snapshot.
    TransientLookupMiss,
}

/// Tunable parameters of a world. All rates and thresholds are in millis.
#[derive(Clone, Copy, Debug)]
pub struct Config {
    /// Side length of the square world, in millis.
    pub world_size: i64,
    /// Entries a quadtree leaf holds before it subdivides.
    pub capacity: usize,
    /// Deepest level a quadtree may subdivide to.
    pub max_depth: usize,
    /// Global factor applied to each genome's hunger rate, per tick.
    pub base_hunger_rate: i64,
    /// Health lost per tick while hunger sits at zero.
    pub starvation_damage: i64,
    /// Health a producer gains per tick, up to `VITAL_MAX`.
    pub growth_rate: i64,
    /// Health taken from a target by one bite.
    pub bite_size: i64,
    /// Hunger threshold below which an idle agent starts hunting.
    pub min_hunger: i64,
    /// Hunger threshold above which a hunting agent goes back to idle.
    pub satiety: i64,
    /// Positional slack, per axis, within which a hunter may act.
    pub capture_tolerance: i64,
    /// Ticks that must elapse since the last action before wandering.
    pub wander_cadence: u64,
    /// Cooldown set on an agent after it takes a bite.
    pub eat_cooldown: u64,
    /// Prey spawned at initialization.
    pub sheep_num: usize,
    /// Predators spawned at initialization.
    pub wolf_num: usize,
    /// Producers spawned at initialization.
    pub grass_num: usize,
}

impl Config {
    /// What a usable configuration looks like. `world_size` must be a
    /// multiple of `2^max_depth` so that subdivision always yields four
    /// equal child regions, and large enough that one tick's movement
    /// never crosses the whole world.
    pub open spec fn valid(self) -> bool {
        &&& 2 * SPEED_LIMIT <= self.world_size <= MAX_COORD
        &&& self.max_depth <= 30
        &&& (self.world_size as int) % (vstd::arithmetic::power2::pow2(
            self.max_depth as nat,
        ) as int) == 0
        &&& 1 <= self.capacity
        &&& 0 <= self.base_hunger_rate <= 1_000_000
        &&& 0 <= self.starvation_damage <= 1_000_000
        &&& 0 <= self.growth_rate <= 1_000_000
        &&& 0 <= self.bite_size <= 1_000_000
        &&& 0 <= self.min_hunger <= VITAL_MAX
        &&& 0 <= self.satiety <= VITAL_MAX
        &&& 1 <= self.capture_tolerance <= self.world_size
        &&& self.sheep_num <= 1_000_000
        &&& self.wolf_num <= 1_000_000
        &&& self.grass_num <= 1_000_000
    }

    /// The default tuning, for a square world of side `size` millis
    /// holding the given populations.
    pub open spec fn standard_spec(
        sheep_num: usize,
        wolf_num: usize,
        grass_num: usize,
        size: i64,
    ) -> Config {
        Config {
            world_size: size,
            capacity: 16,
            max_depth: 6,
            base_hunger_rate: 1,
            starvation_damage: 100,
            growth_rate: 100,
            bite_size: 10_000,
            min_hunger: 30_000,
            satiety: 40_000,
            capture_tolerance: 4_000,
            wander_cadence: 0,
            eat_cooldown: 1,
            sheep_num: sheep_num,
            wolf_num: wolf_num,
            grass_num: grass_num,
        }
    }

    /// `standard_spec`, executable.
    pub fn standard(sheep_num: usize, wolf_num: usize, grass_num: usize, size: i64) -> (c: Config)
        ensures
            c == Config::standard_spec(sheep_num, wolf_num, grass_num, size),
            c == (Config {
                world_size: size,
                capacity: 16,
                max_depth: 6,
                base_hunger_rate: 1,
                starvation_damage: 100,
                growth_rate: 100,
                bite_size: 10_000,
                min_hunger: 30_000,
                satiety: 40_000,
                capture_tolerance: 4_000,
                wander_cadence: 0,
                eat_cooldown: 1,
                sheep_num: sheep_num,
                wolf_num: wolf_num,
                grass_num: grass_num,
            }),
    {
        Config {
            world_size: size,
            capacity: 16,
            max_depth: 6,
            base_hunger_rate: 1,
            starvation_damage: 100,
            growth_rate: 100,
            bite_size: 10_000,
            min_hunger: 30_000,
            satiety: 40_000,
            capture_tolerance: 4_000,
            wander_cadence: 0,
            eat_cooldown: 1,
            sheep_num,
            wolf_num,
            grass_num,
        }
    }

    /// Runtime check of `valid`, so that hosts can fail fast with a
    /// `ConfigurationError` before building anything.
    pub fn check(&self) -> (r: bool)
        ensures
            r == self.valid(),
    {
        let depth_ok = self.max_depth <= 30;
        if !depth_ok {
            return false;
        }
        let cell: i64 = pow2_i64(self.max_depth);
        2 * SPEED_LIMIT <= self.world_size && self.world_size <= MAX_COORD
            && self.world_size % cell == 0 && 1 <= self.capacity
            && 0 <= self.base_hunger_rate && self.base_hunger_rate <= 1_000_000
            && 0 <= self.starvation_damage && self.starvation_damage <= 1_000_000
            && 0 <= self.growth_rate && self.growth_rate <= 1_000_000
            && 0 <= self.bite_size && self.bite_size <= 1_000_000
            && 0 <= self.min_hunger && self.min_hunger <= VITAL_MAX
            && 0 <= self.satiety && self.satiety <= VITAL_MAX
            && 1 <= self.capture_tolerance && self.capture_tolerance <= self.world_size
            && self.sheep_num <= 1_000_000 && self.wolf_num <= 1_000_000
            && self.grass_num <= 1_000_000
    }
}

/// `2^k` as an `i64`, for the world-size divisibility check.
pub fn pow2_i64(k: usize) -> (r: i64)
    requires
        k <= 30,
    ensures
        r == vstd::arithmetic::power2::pow2(k as nat),
        1 <= r <= 0x4000_0000,
{
    let mut i: usize = 0;
    let mut r: i64 = 1;
    proof {
        vstd::arithmetic::power2::lemma2_to64();
    }
    while i < k
        invariant
            i <= k <= 30,
            r == vstd::arithmetic::power2::pow2(i as nat),
            1 <= r <= 0x4000_0000,
        decreases k - i,
    {
        proof {
            vstd::arithmetic::power2::lemma_pow2_unfold((i + 1) as nat);
            vstd::arithmetic::power2::lemma_pow2_strictly_increases(
                (i + 1) as nat,
                31nat,
            );
            vstd::arithmetic::power2::lemma2_to64();
        }
        r = r * 2;
        i = i + 1;
    }
    r
}

} // verus!
