//! The agent data model and the per-kind behaviour state machine.
//!
//! A transition is a pure function of the frozen snapshot of the world: it
//! yields the agent's own next value plus at most one side effect (the
//! bitten target). `transition_spec` is the authoritative statement; the
//! executable `Agent::update` is proved to compute exactly it.

use vstd::prelude::*;
use crate::genes::Genotype;
use crate::geom::dist2_exec;
use crate::quadtree::Entry;
use crate::MAX_COORD;
use crate::geom::clamp_spec;
use crate::geom::cos_milli_spec;
use crate::geom::damp_spec;
use crate::geom::dist2;
use crate::geom::mul_div1000_spec;
use crate::geom::scale_spec;
use crate::geom::sin_milli_spec;
use crate::geom::sqrt_of;
use crate::geom::wrap_spec;
use crate::geom::TAU_MRAD;
use crate::Config;
use crate::SimError;
use crate::ACC_LIMIT;
use crate::VITAL_MAX;

verus! {

/// Factor applied to wander acceleration on top of the movement speed.
pub const WANDER_SPEED: i64 = 2;

/// The kind of an agent; predators and prey carry their genotype.
#[derive(Clone, Copy, Debug, PartialEq, Eq, Structural)]
pub enum AgentType {
    Wolf(Genotype),
    Sheep(Genotype),
    Grass(),
}

/// The behaviour state; hunting and reproducing carry a target identity.
#[derive(Clone, Copy, Debug, PartialEq, Eq, Structural)]
pub enum State {
    Idle,
    Hunting(u64),
    Fleeing,
    Reproducing(u64),
    Dead,
}

impl AgentType {
    /// The genotype this kind carries, if any.
    pub open spec fn genotype(self) -> Option<Genotype> {
        match self {
            AgentType::Wolf(g) => Some(g),
            AgentType::Sheep(g) => Some(g),
            AgentType::Grass() => None,
        }
    }

    /// The numeric tag hosts render by.
    pub fn to_int(&self) -> (r: u8)
        ensures
            r == match self {
                AgentType::Wolf(_) => 0u8,
                AgentType::Sheep(_) => 1u8,
                AgentType::Grass() => 2u8,
            },
    {
        match self {
            AgentType::Wolf(_) => 0,
            AgentType::Sheep(_) => 1,
            AgentType::Grass() => 2,
        }
    }

    /// The kind's display name.
    pub fn to_name(&self) -> (r: String)
        ensures
            self is Wolf ==> r@ == "Wolf"@,
            self is Sheep ==> r@ == "Sheep"@,
            self is Grass ==> r@ == "Grass"@,
    {
        match self {
            AgentType::Wolf(_) => "Wolf".to_owned(),
            AgentType::Sheep(_) => "Sheep".to_owned(),
            AgentType::Grass() => "Grass".to_owned(),
        }
    }
}

impl State {
    /// The numeric tag hosts render by.
    pub fn to_int(&self) -> (r: u8)
        ensures
            r == match self {
                State::Idle => 0u8,
                State::Hunting(_) => 1u8,
                State::Fleeing => 2u8,
                State::Reproducing(_) => 3u8,
                State::Dead => 4u8,
            },
    {
        match self {
            State::Idle => 0,
            State::Hunting(_) => 1,
            State::Fleeing => 2,
            State::Reproducing(_) => 3,
            State::Dead => 4,
        }
    }
}

/// One simulated creature. Positions, accelerations and vitals are in
/// millis; `seed` feeds the host's coherent-noise sampling; `timeout` and
/// `last_time` implement the per-agent cooldown.
#[derive(Clone, Copy, Debug, PartialEq)]
pub struct Agent {
    pub kind: AgentType,
    pub position: (i64, i64),
    pub acceleration: (i64, i64),
    pub direction: i64,
    pub id: u64,
    pub health: i64,
    pub hunger: i64,
    pub dead: bool,
    pub state: State,
    pub seed: u64,
    pub timeout: u64,
    pub last_time: u64,
}

impl Agent {
    /// A live, in-bounds agent, as the registry holds it between ticks.
    pub open spec fn wf(self, cfg: Config) -> bool {
        &&& 0 <= self.position.0 < cfg.world_size
        &&& 0 <= self.position.1 < cfg.world_size
        &&& -ACC_LIMIT <= self.acceleration.0 <= ACC_LIMIT
        &&& -ACC_LIMIT <= self.acceleration.1 <= ACC_LIMIT
        &&& 0 <= self.direction < TAU_MRAD
        &&& 0 < self.health <= VITAL_MAX
        &&& 0 <= self.hunger <= VITAL_MAX
        &&& !self.dead
        &&& !(self.state is Dead)
        &&& match self.kind {
            AgentType::Wolf(g) => g.wf() && !(self.state is Fleeing),
            AgentType::Sheep(g) => g.wf(),
            AgentType::Grass() => self.state is Idle,
        }
    }

    /// A fresh agent of the given kind at `position`. Genome kinds start
    /// with health from their genome's health scale; producers derive a
    /// small starting health from their seed. Hunger starts at the hunting
    /// threshold.
    pub fn new(kind: AgentType, position: (i64, i64), id: u64, seed: u64, cfg: &Config) -> (a:
        Agent)
        requires
            cfg.valid(),
            0 <= position.0 < cfg.world_size,
            0 <= position.1 < cfg.world_size,
            match kind.genotype() {
                Some(g) => g.wf(),
                None => true,
            },
        ensures
            a.wf(*cfg),
            a.kind == kind,
            a.position == position,
            a.id == id,
            a.seed == seed,
            a.state is Idle,
            a.hunger == cfg.min_hunger,
            a.acceleration == (0i64, 0i64),
            match kind.genotype() {
                Some(g) => a.health == g.health_scale,
                None => a.health == seed as int % (VITAL_MAX as int) + 1,
            },
    {
        let health = match kind {
            AgentType::Wolf(g) => {
                proof {
                    crate::genes::lemma_derived_bounds(g);
                }
                g.health_scale
            },
            AgentType::Sheep(g) => {
                proof {
                    crate::genes::lemma_derived_bounds(g);
                }
                g.health_scale
            },
            AgentType::Grass() => (seed % (VITAL_MAX as u64)) as i64 + 1,
        };
        Agent {
            kind,
            position,
            acceleration: (0, 0),
            direction: (seed % (TAU_MRAD as u64)) as i64,
            id,
            health,
            hunger: cfg.min_hunger,
            dead: false,
            state: State::Idle,
            seed,
            timeout: 0,
            last_time: 0,
        }
    }

    /// Take a bite of size `bite` out of this agent: the caller gets
    /// `min(bite, health)`, the health drops to `max(0, health - bite)`,
    /// and the agent dies exactly when its health reaches zero. Biting a
    /// predator is a programmer error, surfaced as `BehaviorPrecondition`.
    pub fn eat(&mut self, bite: i64) -> (r: Result<i64, SimError>)
        requires
            0 <= bite <= 1_000_000,
            0 <= old(self).health <= VITAL_MAX,
        ensures
            match r {
                Ok(consumed) => {
                    &&& !(old(self).kind is Wolf)
                    &&& consumed == if bite <= old(self).health {
                        bite as int
                    } else {
                        old(self).health as int
                    }
                    &&& final(self).health == old(self).health - consumed
                    &&& (final(self).health == 0 ==> final(self).dead && final(self).state
                        is Dead)
                    &&& (final(self).health > 0 ==> final(self).dead == old(self).dead
                        && final(self).state == old(self).state)
                    &&& final(self).kind == old(self).kind
                    &&& final(self).position == old(self).position
                    &&& final(self).acceleration == old(self).acceleration
                    &&& final(self).direction == old(self).direction
                    &&& final(self).id == old(self).id
                    &&& final(self).hunger == old(self).hunger
                    &&& final(self).seed == old(self).seed
                    &&& final(self).timeout == old(self).timeout
                    &&& final(self).last_time == old(self).last_time
                },
                Err(e) => {
                    &&& e == SimError::BehaviorPrecondition
                    &&& old(self).kind is Wolf
                    &&& *final(self) == *old(self)
                },
            },
    {
        match self.kind {
            AgentType::Wolf(_) => Err(SimError::BehaviorPrecondition),
            _ => {
                let consumed = if bite <= self.health {
                    bite
                } else {
                    self.health
                };
                self.health = self.health - consumed;
                if self.health == 0 {
                    self.dead = true;
                    self.state = State::Dead;
                }
                Ok(consumed)
            },
        }
    }
}

/// Is `target` something `hunter` eats?
pub open spec fn food_kind(hunter: AgentType, target: AgentType) -> bool {
    match hunter {
        AgentType::Wolf(_) => target is Sheep,
        AgentType::Sheep(_) => target is Grass,
        AgentType::Grass() => false,
    }
}

/// The kinds an agent's neighbour query gathers: what it eats, plus its
/// predators if it has any.
pub open spec fn watched_kind(who: AgentType, seen: AgentType) -> bool {
    match who {
        AgentType::Wolf(_) => seen is Sheep,
        AgentType::Sheep(_) => seen is Wolf || seen is Grass,
        AgentType::Grass() => false,
    }
}

/// Is `b` within `a`'s sight radius, measured at snapshot positions?
pub open spec fn within_sight(a: Agent, b: Agent, g: Genotype) -> bool {
    dist2(b.position, a.position) <= g.sight_distance * g.sight_distance
}

/// Index `j` of the snapshot holds a predator that `a` can see.
pub open spec fn threat_at(snap: Seq<Agent>, a: Agent, g: Genotype, j: int) -> bool {
    &&& 0 <= j < snap.len()
    &&& snap[j].kind is Wolf
    &&& within_sight(a, snap[j], g)
}

/// Any predator in sight?
pub open spec fn sees_wolf(snap: Seq<Agent>, a: Agent, g: Genotype) -> bool {
    exists|j: int| threat_at(snap, a, g, j)
}

/// Index `j` of the snapshot holds live food for `a` within sight.
pub open spec fn food_at(snap: Seq<Agent>, a: Agent, g: Genotype, j: int) -> bool {
    &&& 0 <= j < snap.len()
    &&& food_kind(a.kind, snap[j].kind)
    &&& !snap[j].dead
    &&& within_sight(a, snap[j], g)
}

/// Strict preference between two neighbours: smaller squared distance to
/// `c`, ties broken by the smaller identity.
pub open spec fn lex_better(c: (i64, i64), x: Agent, y: Agent) -> bool {
    ||| dist2(x.position, c) < dist2(y.position, c)
    ||| (dist2(x.position, c) == dist2(y.position, c) && x.id < y.id)
}

/// `j` is the preferred live food index, measured from `c`.
pub open spec fn best_food_at(snap: Seq<Agent>, a: Agent, g: Genotype, c: (i64, i64), j: int) -> bool {
    &&& food_at(snap, a, g, j)
    &&& forall|k: int|
        food_at(snap, a, g, k) && snap[k].id != snap[j].id ==> lex_better(c, snap[j], snap[k])
}

/// `j` is the preferred predator index, measured from `c`.
pub open spec fn best_threat_at(
    snap: Seq<Agent>,
    a: Agent,
    g: Genotype,
    c: (i64, i64),
    j: int,
) -> bool {
    &&& threat_at(snap, a, g, j)
    &&& forall|k: int|
        threat_at(snap, a, g, k) && snap[k].id != snap[j].id ==> lex_better(c, snap[j], snap[k])
}

/// The snapshot index holding identity `id`.
pub open spec fn index_of_id(snap: Seq<Agent>, id: u64) -> int {
    choose|j: int| 0 <= j < snap.len() && snap[j].id == id
}

/// The hunting target is still detected: present in the snapshot, of an
/// edible kind, within sight of the agent's snapshot position.
pub open spec fn target_detected(snap: Seq<Agent>, a: Agent, g: Genotype, id: u64) -> bool {
    exists|j: int|
        0 <= j < snap.len() && #[trigger] snap[j].id == id && food_kind(a.kind, snap[j].kind)
            && within_sight(a, snap[j], g)
}

/// The physical update every living genome agent undergoes each tick:
/// clamp the acceleration to the movement speed, move, wrap into the
/// world, damp the stored acceleration, burn hunger, starve at zero
/// hunger, and die at zero health.
pub open spec fn phys_spec(cfg: Config, g: Genotype, a: Agent) -> Agent {
    let sx = clamp_spec(
        a.acceleration.0 as int,
        -(g.movement_speed as int),
        g.movement_speed as int,
    );
    let sy = clamp_spec(
        a.acceleration.1 as int,
        -(g.movement_speed as int),
        g.movement_speed as int,
    );
    let px = wrap_spec(a.position.0 + sx, cfg.world_size as int);
    let py = wrap_spec(a.position.1 + sy, cfg.world_size as int);
    let ax = damp_spec(a.acceleration.0 as int);
    let ay = damp_spec(a.acceleration.1 as int);
    let burn = g.hunger_rate * cfg.base_hunger_rate / 1000;
    let starved = a.hunger - burn <= 0;
    let hunger = if starved {
        0
    } else {
        a.hunger - burn
    };
    let health0 = if starved {
        a.health - cfg.starvation_damage
    } else {
        a.health as int
    };
    let dying = health0 <= 0;
    let health = if dying {
        0
    } else {
        health0
    };
    Agent {
        position: (px as i64, py as i64),
        acceleration: (ax as i64, ay as i64),
        hunger: hunger as i64,
        health: health as i64,
        dead: a.dead || dying,
        state: if dying {
            State::Dead
        } else {
            a.state
        },
        ..a
    }
}

/// A producer's tick: it dies at zero health, otherwise grows up to the
/// vital cap.
pub open spec fn grow_spec(cfg: Config, a: Agent) -> Agent {
    if a.health <= 0 {
        Agent { dead: true, state: State::Dead, ..a }
    } else {
        Agent {
            health: if a.health + cfg.growth_rate <= VITAL_MAX {
                (a.health + cfg.growth_rate) as i64
            } else {
                VITAL_MAX
            },
            ..a
        }
    }
}

/// Wandering: at the configured cadence, turn by the coherent-noise
/// sample and accelerate along the new heading.
pub open spec fn wander_spec(cfg: Config, g: Genotype, b: Agent, sample: i32, time: u64) -> Agent {
    if time > b.last_time + cfg.wander_cadence {
        let dir = wrap_spec(b.direction + sample, TAU_MRAD as int);
        let ax = b.acceleration.0 + mul_div1000_spec(
            cos_milli_spec(dir),
            g.movement_speed * WANDER_SPEED,
        );
        let ay = b.acceleration.1 + mul_div1000_spec(
            sin_milli_spec(dir),
            g.movement_speed * WANDER_SPEED,
        );
        Agent {
            direction: dir as i64,
            acceleration: (ax as i64, ay as i64),
            last_time: time,
            ..b
        }
    } else {
        b
    }
}

/// Fleeing: accelerate at full speed straight away from the nearest
/// predator in sight; with none left, return to idle.
pub open spec fn flee_spec(cfg: Config, g: Genotype, snap: Seq<Agent>, a: Agent, b: Agent) -> Agent {
    if sees_wolf(snap, a, g) {
        let j = choose|j: int| best_threat_at(snap, a, g, b.position, j);
        let w = snap[j];
        let dx = b.position.0 - w.position.0;
        let dy = b.position.1 - w.position.1;
        let len = sqrt_of(dx * dx + dy * dy);
        if len == 0 {
            Agent { acceleration: (0i64, 0i64), ..b }
        } else {
            Agent {
                acceleration: (
                    scale_spec(dx, g.movement_speed as int, len) as i64,
                    scale_spec(dy, g.movement_speed as int, len) as i64,
                ),
                ..b
            }
        }
    } else {
        Agent { state: State::Idle, ..b }
    }
}

/// Hunting: lose an undetected target; steer toward a detected one; within
/// the capture tolerance stop, and — cooldown permitting — bite it, gain
/// the consumed amount (capped), reset the cooldown, and go idle once past
/// the satiety threshold.
pub open spec fn hunt_spec(
    cfg: Config,
    g: Genotype,
    snap: Seq<Agent>,
    a: Agent,
    b: Agent,
    target: u64,
    time: u64,
) -> (Agent, Option<(u64, Agent)>) {
    if !target_detected(snap, a, g, target) {
        (Agent { state: State::Idle, ..b }, None)
    } else {
        let t = snap[index_of_id(snap, target)];
        let dx = t.position.0 - b.position.0;
        let dy = t.position.1 - b.position.1;
        if -cfg.capture_tolerance < dx < cfg.capture_tolerance && -cfg.capture_tolerance < dy
            < cfg.capture_tolerance {
            if time > b.last_time + b.timeout && !t.dead {
                let consumed = if cfg.bite_size <= t.health {
                    cfg.bite_size as int
                } else {
                    t.health as int
                };
                let t2 = Agent {
                    health: (t.health - consumed) as i64,
                    dead: t.dead || t.health - consumed == 0,
                    state: if t.health - consumed == 0 {
                        State::Dead
                    } else {
                        t.state
                    },
                    ..t
                };
                let hunger2 = if b.hunger + consumed <= VITAL_MAX {
                    b.hunger + consumed
                } else {
                    VITAL_MAX as int
                };
                let b2 = Agent {
                    acceleration: (0i64, 0i64),
                    hunger: hunger2 as i64,
                    last_time: time,
                    timeout: cfg.eat_cooldown,
                    state: if hunger2 > cfg.satiety {
                        State::Idle
                    } else {
                        State::Hunting(target)
                    },
                    ..b
                };
                (b2, Some((target, t2)))
            } else {
                (Agent { acceleration: (0i64, 0i64), ..b }, None)
            }
        } else {
            let len = sqrt_of(dx * dx + dy * dy);
            (
                Agent {
                    acceleration: (
                        scale_spec(dx, g.movement_speed as int, len) as i64,
                        scale_spec(dy, g.movement_speed as int, len) as i64,
                    ),
                    ..b
                },
                None,
            )
        }
    }
}

/// Idle: flee a visible predator first; otherwise, when hungry, pick the
/// preferred live food and start hunting it; otherwise wander at the
/// configured cadence.
pub open spec fn idle_spec(
    cfg: Config,
    g: Genotype,
    snap: Seq<Agent>,
    a: Agent,
    b: Agent,
    sample: i32,
    time: u64,
) -> Agent {
    if a.kind is Sheep && sees_wolf(snap, a, g) {
        Agent { state: State::Fleeing, ..b }
    } else if b.hunger < cfg.min_hunger {
        if exists|j: int| best_food_at(snap, a, g, b.position, j) {
            let j = choose|j: int| best_food_at(snap, a, g, b.position, j);
            Agent { state: State::Hunting(snap[j].id), ..b }
        } else {
            b
        }
    } else {
        wander_spec(cfg, g, b, sample, time)
    }
}

/// All identities in a registry sequence are distinct.
pub open spec fn unique_ids(s: Seq<Agent>) -> bool {
    forall|j: int, k: int| 0 <= j < k < s.len() ==> s[j].id != s[k].id
}

/// A valid registry snapshot: every agent well-formed, identities
/// distinct.
pub open spec fn registry_wf(s: Seq<Agent>, cfg: Config) -> bool {
    &&& forall|j: int| 0 <= j < s.len() ==> (#[trigger] s[j]).wf(cfg)
    &&& unique_ids(s)
}

/// Snapshot index `j` backs the neighbour entry `e` for agent `a`: same
/// identity and position, a kind `a` watches, within `a`'s sight.
pub open spec fn backs_entry(snap: Seq<Agent>, e: Entry, a: Agent, g: Genotype, j: int) -> bool {
    &&& 0 <= j < snap.len()
    &&& snap[j].id == e.0
    &&& snap[j].position == e.1
    &&& watched_kind(a.kind, snap[j].kind)
    &&& within_sight(a, snap[j], g)
}

/// The neighbour entry `e` has some backing snapshot index.
pub open spec fn entry_backed(snap: Seq<Agent>, e: Entry, a: Agent, g: Genotype) -> bool {
    exists|j: int| backs_entry(snap, e, a, g, j)
}

/// The neighbour list is sound and complete for the kinds `a` watches,
/// and repeats no identity.
pub open spec fn nearby_ok(nb: Seq<Entry>, snap: Seq<Agent>, a: Agent, g: Genotype) -> bool {
    &&& forall|i: int| 0 <= i < nb.len() ==> entry_backed(snap, #[trigger] nb[i], a, g)
    &&& forall|j: int|
        0 <= j < snap.len() && watched_kind(a.kind, (#[trigger] snap[j]).kind) && within_sight(
            a,
            snap[j],
            g,
        ) ==> exists|i: int| 0 <= i < nb.len() && (#[trigger] nb[i]).0 == snap[j].id
    &&& forall|i1: int, i2: int| 0 <= i1 < i2 < nb.len() ==> nb[i1].0 != nb[i2].0
}

/// The selection a behaviour scan makes: live food, or visible predators.
pub open spec fn sel_at(snap: Seq<Agent>, a: Agent, g: Genotype, j: int, want_threat: bool) -> bool {
    if want_threat {
        threat_at(snap, a, g, j)
    } else {
        food_at(snap, a, g, j)
    }
}

/// The preferred selected index, measured from `c`.
pub open spec fn best_sel_at(
    snap: Seq<Agent>,
    a: Agent,
    g: Genotype,
    c: (i64, i64),
    j: int,
    want_threat: bool,
) -> bool {
    if want_threat {
        best_threat_at(snap, a, g, c, j)
    } else {
        best_food_at(snap, a, g, c, j)
    }
}

/// Identity `id` appears among the first `upto` neighbour entries.
pub open spec fn id_in_prefix(nb: Seq<Entry>, id: u64, upto: int) -> bool {
    exists|i: int| 0 <= i < upto && (#[trigger] nb[i]).0 == id
}

/// With distinct identities the preferred candidate is unique.
pub proof fn lemma_best_unique(
    snap: Seq<Agent>,
    a: Agent,
    g: Genotype,
    c: (i64, i64),
    j1: int,
    j2: int,
    want_threat: bool,
)
    requires
        unique_ids(snap),
        best_sel_at(snap, a, g, c, j1, want_threat),
        best_sel_at(snap, a, g, c, j2, want_threat),
    ensures
        j1 == j2,
{
    if j1 != j2 {
        assert(snap[j1].id != snap[j2].id);
        assert(lex_better(c, snap[j1], snap[j2]));
        assert(lex_better(c, snap[j2], snap[j1]));
        assert(false);
    }
}

/// With distinct identities, `index_of_id` is the index of any witness.
pub proof fn lemma_index_of_id(snap: Seq<Agent>, id: u64, j: int)
    requires
        unique_ids(snap),
        0 <= j < snap.len(),
        snap[j].id == id,
    ensures
        index_of_id(snap, id) == j,
{
    assert(exists|k: int| 0 <= k < snap.len() && snap[k].id == id);
    let k = index_of_id(snap, id);
    assert(0 <= k < snap.len() && snap[k].id == id);
    if k != j {
        assert(snap[k].id != snap[j].id);
        assert(false);
    }
}

/// First index holding `id`, if any.
pub fn find_by_id(agents: &Vec<Agent>, id: u64) -> (r: Option<usize>)
    ensures
        match r {
            Some(j) => j < agents@.len() && agents@[j as int].id == id,
            None => forall|j: int| 0 <= j < agents@.len() ==> (#[trigger] agents@[j]).id != id,
        },
{
    let mut k: usize = 0;
    while k < agents.len()
        invariant
            k <= agents@.len(),
            forall|j: int| 0 <= j < k ==> (#[trigger] agents@[j]).id != id,
        decreases agents@.len() - k,
    {
        if agents[k].id == id {
            return Some(k);
        }
        k = k + 1;
    }
    None
}

/// Whether `target` is something `hunter` eats, executable.
fn is_food_of(hunter: &AgentType, target: &AgentType) -> (r: bool)
    ensures
        r == food_kind(*hunter, *target),
{
    match (hunter, target) {
        (AgentType::Wolf(_), AgentType::Sheep(_)) => true,
        (AgentType::Sheep(_), AgentType::Grass()) => true,
        _ => false,
    }
}

/// Scan the neighbour list for the preferred candidate: live food, or —
/// for prey — the nearest visible predator. Preference is smaller squared
/// distance from `center`, ties to the smaller identity.
fn find_best(
    nearby: &Vec<Entry>,
    agents: &Vec<Agent>,
    center: (i64, i64),
    a: &Agent,
    g: &Genotype,
    want_threat: bool,
) -> (r: Option<usize>)
    requires
        unique_ids(agents@),
        forall|j: int|
            0 <= j < agents@.len() ==> 0 <= (#[trigger] agents@[j]).position.0 <= MAX_COORD && 0
                <= agents@[j].position.1 <= MAX_COORD,
        0 <= center.0 <= MAX_COORD,
        0 <= center.1 <= MAX_COORD,
        nearby_ok(nearby@, agents@, *a, *g),
        want_threat ==> a.kind is Sheep,
        a.kind is Sheep || a.kind is Wolf,
    ensures
        match r {
            Some(j) => j < agents@.len() && best_sel_at(
                agents@,
                *a,
                *g,
                center,
                j as int,
                want_threat,
            ),
            None => forall|j: int| !sel_at(agents@, *a, *g, j, want_threat),
        },
{
    let ghost snap = agents@;
    let mut best: Option<usize> = None;
    let mut best_d: i64 = 0;
    let mut i: usize = 0;
    while i < nearby.len()
        invariant
            i <= nearby@.len(),
            unique_ids(snap),
            snap == agents@,
            forall|j: int|
                0 <= j < snap.len() ==> 0 <= (#[trigger] snap[j]).position.0 <= MAX_COORD && 0
                    <= snap[j].position.1 <= MAX_COORD,
            0 <= center.0 <= MAX_COORD,
            0 <= center.1 <= MAX_COORD,
            nearby_ok(nearby@, snap, *a, *g),
            match best {
                Some(bj) => {
                    &&& bj < snap.len()
                    &&& sel_at(snap, *a, *g, bj as int, want_threat)
                    &&& best_d == dist2(snap[bj as int].position, center)
                    &&& id_in_prefix(nearby@, snap[bj as int].id, i as int)
                    &&& forall|k: int|
                        sel_at(snap, *a, *g, k, want_threat) && id_in_prefix(
                            nearby@,
                            (#[trigger] snap[k]).id,
                            i as int,
                        ) && snap[k].id != snap[bj as int].id ==> lex_better(
                            center,
                            snap[bj as int],
                            snap[k],
                        )
                },
                None => forall|k: int|
                    sel_at(snap, *a, *g, k, want_threat) ==> !id_in_prefix(
                        nearby@,
                        (#[trigger] snap[k]).id,
                        i as int,
                    ),
            },
        decreases nearby@.len() - i,
    {
        let e = nearby[i];
        proof {
            assert(entry_backed(snap, nearby@[i as int], *a, *g));
        }
        let ghost jb = choose|j: int| backs_entry(snap, nearby@[i as int], *a, *g, j);
        match find_by_id(agents, e.0) {
            Some(j) => {
                proof {
                    if jb != j {
                        assert(snap[jb].id != snap[j as int].id);
                        assert(false);
                    }
                }
                let cand = &agents[j];
                let selected = if want_threat {
                    matches!(cand.kind, AgentType::Wolf(_))
                } else {
                    is_food_of(&a.kind, &cand.kind) && !cand.dead
                };
                if selected {
                    proof {
                        assert(sel_at(snap, *a, *g, j as int, want_threat));
                    }
                    let d = dist2_exec(cand.position, center);
                    let take = match best {
                        None => true,
                        Some(bj) => d < best_d || (d == best_d && cand.id < agents[bj].id),
                    };
                    proof {
                        if let Some(bj) = best {
                            if snap[j as int].id == snap[bj as int].id && j != bj {
                                assert(false);
                            }
                        }
                    }
                    if take {
                        best = Some(j);
                        best_d = d;
                    }
                    proof {
                        let bj = best.unwrap() as int;
                        assert forall|k: int|
                            sel_at(snap, *a, *g, k, want_threat) && id_in_prefix(
                                nearby@,
                                (#[trigger] snap[k]).id,
                                i + 1int,
                            ) && snap[k].id != snap[bj].id implies lex_better(
                            center,
                            snap[bj],
                            snap[k],
                        ) by {
                            if id_in_prefix(nearby@, snap[k].id, i as int) {
                            } else {
                                assert(snap[k].id == nearby@[i as int].0);
                                if k != j {
                                    assert(snap[k].id != snap[j as int].id);
                                    assert(false);
                                }
                            }
                        }
                        assert(id_in_prefix(nearby@, snap[bj].id, i + 1int));
                    }
                } else {
                    proof {
                        assert(!sel_at(snap, *a, *g, j as int, want_threat));
                        assert forall|k: int|
                            sel_at(snap, *a, *g, k, want_threat) && (#[trigger] snap[k]).id
                                == nearby@[i as int].0 implies false by {
                            if k != j {
                                assert(snap[k].id != snap[j as int].id);
                            }
                        }
                    }
                }
            },
            None => {
                proof {
                    assert(snap[jb].id == nearby@[i as int].0);
                    assert(false);
                }
            },
        }
        i = i + 1;
    }
    proof {
        match best {
            Some(bj) => {
                assert forall|k: int|
                    sel_at(snap, *a, *g, k, want_threat) && snap[k].id != snap[bj as int].id
                        implies lex_better(center, snap[bj as int], snap[k]) by {
                    assert(watched_kind(a.kind, snap[k].kind) && within_sight(*a, snap[k], *g));
                    assert(id_in_prefix(nearby@, snap[k].id, nearby@.len() as int));
                }
                assert(best_sel_at(snap, *a, *g, center, bj as int, want_threat));
            },
            None => {
                assert forall|k: int| !sel_at(snap, *a, *g, k, want_threat) by {
                    if sel_at(snap, *a, *g, k, want_threat) {
                        assert(watched_kind(a.kind, snap[k].kind) && within_sight(
                            *a,
                            snap[k],
                            *g,
                        ));
                        assert(id_in_prefix(nearby@, snap[k].id, nearby@.len() as int));
                    }
                }
            },
        }
    }
    best
}

/// Starvation accrues: an agent whose hunger is exhausted by the tick's
/// burn has it clamped at zero and loses the starvation damage from its
/// health, every tick, until the health is gone — that tick it is marked
/// dead.
pub proof fn lemma_starvation(cfg: Config, g: Genotype, a: Agent)
    requires
        0 <= a.health <= VITAL_MAX,
        0 <= cfg.starvation_damage,
        a.hunger <= g.hunger_rate * cfg.base_hunger_rate / 1000,
    ensures
        phys_spec(cfg, g, a).hunger == 0,
        phys_spec(cfg, g, a).health == if a.health - cfg.starvation_damage <= 0 {
            0int
        } else {
            a.health - cfg.starvation_damage
        },
        a.health <= cfg.starvation_damage ==> phys_spec(cfg, g, a).dead && phys_spec(
            cfg,
            g,
            a,
        ).state is Dead,
{
}

/// One agent's full transition against the snapshot: the physical update,
/// then the state machine of its kind; producers only grow or die. Returns
/// the agent's next value and at most one side effect (a bitten target).
pub open spec fn transition_spec(
    cfg: Config,
    snap: Seq<Agent>,
    a: Agent,
    sample: i32,
    time: u64,
) -> (Agent, Option<(u64, Agent)>) {
    match a.kind.genotype() {
        None => (grow_spec(cfg, a), None),
        Some(g) => {
            let b = phys_spec(cfg, g, a);
            if b.dead {
                (b, None)
            } else {
                match a.state {
                    State::Idle => (idle_spec(cfg, g, snap, a, b, sample, time), None),
                    State::Fleeing => (flee_spec(cfg, g, snap, a, b), None),
                    State::Hunting(t) => hunt_spec(cfg, g, snap, a, b, t, time),
                    State::Reproducing(_) => (b, None),
                    State::Dead => (Agent { dead: true, ..b }, None),
                }
            }
        },
    }
}

/// Some neighbour entry resolves to a predator of the snapshot.
pub open spec fn wolf_among(nb: Seq<Entry>, snap: Seq<Agent>) -> bool {
    exists|i: int, j: int|
        0 <= i < nb.len() && 0 <= j < snap.len() && (#[trigger] nb[i]).0 == (
        #[trigger] snap[j]).id && snap[j].kind is Wolf
}

impl Agent {
    /// Enter the fleeing state exactly when some neighbour entry resolves
    /// to a predator; a neighbour id that no longer resolves is skipped.
    pub fn wolf_fleeing_check(&mut self, nearby_agents: &Vec<Entry>, agents: &Vec<Agent>)
        requires
            unique_ids(agents@),
        ensures
            final(self).state == if wolf_among(nearby_agents@, agents@) {
                State::Fleeing
            } else {
                old(self).state
            },
            *final(self) == (Agent { state: final(self).state, ..*old(self) }),
    {
        let ghost snap = agents@;
        let mut i: usize = 0;
        while i < nearby_agents.len()
            invariant
                i <= nearby_agents@.len(),
                unique_ids(snap),
                snap == agents@,
                *self == *old(self),
                forall|i2: int, j2: int|
                    0 <= i2 < i && 0 <= j2 < snap.len() && (#[trigger] nearby_agents@[i2]).0 == (
                    #[trigger] snap[j2]).id ==> !(snap[j2].kind is Wolf),
            decreases nearby_agents@.len() - i,
        {
            let e = nearby_agents[i];
            match find_by_id(agents, e.0) {
                Some(j) => {
                    if matches!(agents[j].kind, AgentType::Wolf(_)) {
                        self.state = State::Fleeing;
                        proof {
                            assert(wolf_among(nearby_agents@, snap));
                        }
                        return ;
                    }
                    proof {
                        assert forall|j2: int|
                            0 <= j2 < snap.len() && (#[trigger] snap[j2]).id == nearby_agents@[i
                                as int].0 implies !(snap[j2].kind is Wolf) by {
                            if j2 != j {
                                assert(snap[j2].id != snap[j as int].id);
                            }
                        }
                    }
                },
                None => {},
            }
            i = i + 1;
        }
        proof {
            if wolf_among(nearby_agents@, snap) {
                let (i2, j2) = choose|i2: int, j2: int|
                    0 <= i2 < nearby_agents@.len() && 0 <= j2 < snap.len() && (
                    #[trigger] nearby_agents@[i2]).0 == (#[trigger] snap[j2]).id && snap[j2].kind
                        is Wolf;
                assert(false);
            }
        }
    }

    /// The identity of some producer in the list, if one is there: a
    /// convenience for hungry agents with no index at hand.
    pub fn get_closest_food(&self, agent_list: &Vec<Agent>) -> (r: Option<u64>)
        ensures
            r is Some <==> exists|j: int|
                0 <= j < agent_list@.len() && (#[trigger] agent_list@[j]).kind is Grass,
            match r {
                Some(id) => exists|j: int|
                    0 <= j < agent_list@.len() && (#[trigger] agent_list@[j]).kind is Grass
                        && agent_list@[j].id == id,
                None => true,
            },
    {
        let mut k: usize = 0;
        while k < agent_list.len()
            invariant
                k <= agent_list@.len(),
                forall|j: int| 0 <= j < k ==> !((#[trigger] agent_list@[j]).kind is Grass),
            decreases agent_list@.len() - k,
        {
            if matches!(agent_list[k].kind, AgentType::Grass()) {
                return Some(agent_list[k].id);
            }
            k = k + 1;
        }
        None
    }

    /// Run this agent's tick against the frozen snapshot: the physical
    /// update, then its state machine, deciding from `nearby_agents` (the
    /// spatial-index query result) and the snapshot only. Returns the one
    /// side effect, if any: the bitten target's new value. Computes
    /// exactly `transition_spec`.
    pub fn update(
        &mut self,
        nearby_agents: &Vec<Entry>,
        agents: &Vec<Agent>,
        genotype: Genotype,
        wander_sample: i32,
        time: u64,
        cfg: &Config,
    ) -> (effect: Option<(u64, Agent)>)
        requires
            cfg.valid(),
            old(self).wf(*cfg),
            old(self).kind.genotype() == Some(genotype),
            registry_wf(agents@, *cfg),
            nearby_ok(nearby_agents@, agents@, *old(self), genotype),
            -1000 <= wander_sample <= 1000,
        ensures
            *final(self) == transition_spec(*cfg, agents@, *old(self), wander_sample, time).0,
            effect == transition_spec(*cfg, agents@, *old(self), wander_sample, time).1,
            final(self).id == old(self).id,
            final(self).kind == old(self).kind,
            !final(self).dead ==> final(self).wf(*cfg),
            match effect {
                Some((id, v)) => {
                    &&& exists|j: int|
                        0 <= j < agents@.len() && (#[trigger] agents@[j]).id == id
                    &&& v.id == id
                    &&& !v.dead ==> v.wf(*cfg)
                },
                None => true,
            },
    {
        let ghost orig = *self;
        let orig_exec: Agent = *self;
        let ghost snap = agents@;
        let g = genotype;
        proof {
            assert(g.wf());
            crate::genes::lemma_derived_bounds(g);
        }
        let ms = g.movement_speed;
        let home = self.position;

        // Physical update.
        let sx = crate::geom::clamp(self.acceleration.0, -ms, ms);
        let sy = crate::geom::clamp(self.acceleration.1, -ms, ms);
        self.position = (
            crate::geom::wrap(self.position.0 + sx, cfg.world_size),
            crate::geom::wrap(self.position.1 + sy, cfg.world_size),
        );
        self.acceleration = (
            crate::geom::damp(self.acceleration.0),
            crate::geom::damp(self.acceleration.1),
        );
        proof {
            assert(0 <= g.hunger_rate * cfg.base_hunger_rate <= 100_000_000_000)
                by (nonlinear_arith)
                requires
                    0 <= g.hunger_rate <= 100_000,
                    0 <= cfg.base_hunger_rate <= 1_000_000,
            ;
        }
        let burn = g.hunger_rate * cfg.base_hunger_rate / 1000;
        self.hunger = self.hunger - burn;
        if self.hunger <= 0 {
            self.hunger = 0;
            self.health = self.health - cfg.starvation_damage;
        }
        if self.health <= 0 {
            self.health = 0;
            self.dead = true;
            self.state = State::Dead;
        }
        proof {
            assert(*self == phys_spec(*cfg, g, orig));
        }
        if self.dead {
            return None;
        }
        let ghost bb = *self;
        let st = self.state;
        match st {
            State::Idle => {
                let is_sheep = matches!(self.kind, AgentType::Sheep(_));
                if is_sheep {
                    let threat = find_best(nearby_agents, agents, self.position, &orig_exec, &g, true);
                    if threat.is_some() {
                        self.state = State::Fleeing;
                        proof {
                            let j = threat.unwrap() as int;
                            assert(threat_at(snap, orig, g, j));
                            assert(sees_wolf(snap, orig, g));
                        }
                        return None;
                    }
                    proof {
                        if sees_wolf(snap, orig, g) {
                            let j = choose|j: int| threat_at(snap, orig, g, j);
                            assert(sel_at(snap, orig, g, j, true));
                            assert(false);
                        }
                    }
                }
                if self.hunger < cfg.min_hunger {
                    let found = find_best(nearby_agents, agents, self.position, &orig_exec, &g, false);
                    match found {
                        Some(j) => {
                            proof {
                                assert(best_food_at(snap, orig, g, bb.position, j as int));
                                let jj = choose|k: int|
                                    best_food_at(snap, orig, g, bb.position, k);
                                lemma_best_unique(
                                    snap,
                                    orig,
                                    g,
                                    bb.position,
                                    j as int,
                                    jj,
                                    false,
                                );
                            }
                            let target_id = agents[j].id;
                            self.state = State::Hunting(target_id);
                        },
                        None => {
                            proof {
                                if exists|k: int| best_food_at(snap, orig, g, bb.position, k) {
                                    let k = choose|k: int|
                                        best_food_at(snap, orig, g, bb.position, k);
                                    assert(sel_at(snap, orig, g, k, false));
                                    assert(false);
                                }
                            }
                        },
                    }
                    return None;
                }
                if time > self.last_time && time - self.last_time > cfg.wander_cadence {
                    let dir = crate::geom::wrap(
                        self.direction + wander_sample as i64,
                        crate::geom::TAU_MRAD,
                    );
                    let ca = crate::geom::cos_milli(dir);
                    let sa = crate::geom::sin_milli(dir);
                    let boost = ms * WANDER_SPEED;
                    self.acceleration = (
                        self.acceleration.0 + crate::geom::mul_div1000(ca, boost),
                        self.acceleration.1 + crate::geom::mul_div1000(sa, boost),
                    );
                    self.direction = dir;
                    self.last_time = time;
                }
                proof {
                    assert(*self == wander_spec(*cfg, g, bb, wander_sample, time));
                }
                None
            },
            State::Fleeing => {
                let threat = find_best(nearby_agents, agents, self.position, &orig_exec, &g, true);
                match threat {
                    Some(j) => {
                        proof {
                            assert(best_threat_at(snap, orig, g, bb.position, j as int));
                            assert(sees_wolf(snap, orig, g));
                            let jj = choose|k: int| best_threat_at(snap, orig, g, bb.position, k);
                            lemma_best_unique(snap, orig, g, bb.position, j as int, jj, true);
                        }
                        let w = &agents[j];
                        proof {
                            assert(snap[j as int].wf(*cfg));
                        }
                        let dx = self.position.0 - w.position.0;
                        let dy = self.position.1 - w.position.1;
                        let len = crate::geom::vec_len(dx, dy);
                        if len == 0 {
                            self.acceleration = (0, 0);
                        } else {
                            proof {
                                crate::geom::lemma_sqrt_dominates(dx as int, dy as int);
                            }
                            self.acceleration = (
                                crate::geom::scale_dir(dx, ms, len),
                                crate::geom::scale_dir(dy, ms, len),
                            );
                        }
                    },
                    None => {
                        proof {
                            if sees_wolf(snap, orig, g) {
                                let j = choose|j: int| threat_at(snap, orig, g, j);
                                assert(sel_at(snap, orig, g, j, true));
                                assert(false);
                            }
                        }
                        self.state = State::Idle;
                    },
                }
                None
            },
            State::Hunting(target) => {
                let found = find_by_id(agents, target);
                proof {
                    assert(0 <= g.sight_distance * g.sight_distance <= 40_000_000_000)
                        by (nonlinear_arith)
                        requires
                            0 <= g.sight_distance <= 200_000,
                    ;
                    if let Some(j) = found {
                        assert(snap[j as int].wf(*cfg));
                    }
                }
                let detected = match found {
                    Some(j) => {
                        let cand = &agents[j];
                        is_food_of(&orig_exec.kind, &cand.kind) && {
                            let d = dist2_exec(cand.position, home);
                            d <= g.sight_distance * g.sight_distance
                        }
                    },
                    None => false,
                };
                proof {
                    match found {
                        Some(j) => {
                            lemma_index_of_id(snap, target, j as int);
                            if detected {
                                assert(target_detected(snap, orig, g, target));
                            } else {
                                if target_detected(snap, orig, g, target) {
                                    let k = choose|k: int|
                                        0 <= k < snap.len() && #[trigger] snap[k].id == target
                                            && food_kind(orig.kind, snap[k].kind) && within_sight(
                                            orig,
                                            snap[k],
                                            g,
                                        );
                                    lemma_index_of_id(snap, target, k);
                                    assert(false);
                                }
                            }
                        },
                        None => {
                            if target_detected(snap, orig, g, target) {
                                let k = choose|k: int|
                                    0 <= k < snap.len() && #[trigger] snap[k].id == target
                                        && food_kind(orig.kind, snap[k].kind) && within_sight(
                                        orig,
                                        snap[k],
                                        g,
                                    );
                                assert(snap[k].id != target);
                                assert(false);
                            }
                        },
                    }
                }
                if !detected {
                    self.state = State::Idle;
                    return None;
                }
                let tj = match found {
                    Some(j) => j,
                    None => 0,
                };
                let tgt = agents[tj];
                let dx = tgt.position.0 - self.position.0;
                let dy = tgt.position.1 - self.position.1;
                let tol = cfg.capture_tolerance;
                if -tol < dx && dx < tol && -tol < dy && dy < tol {
                    if time > self.last_time && time - self.last_time > self.timeout && !tgt.dead {
                        let mut prey = tgt;
                        let consumed = match prey.eat(cfg.bite_size) {
                            Ok(c) => c,
                            Err(_) => {
                                proof {
                                    assert(false);
                                }
                                0
                            },
                        };
                        self.hunger = self.hunger + consumed;
                        if self.hunger > crate::VITAL_MAX {
                            self.hunger = crate::VITAL_MAX;
                        }
                        self.acceleration = (0, 0);
                        self.last_time = time;
                        self.timeout = cfg.eat_cooldown;
                        if self.hunger > cfg.satiety {
                            self.state = State::Idle;
                        }
                        proof {
                            let spec_pair = hunt_spec(*cfg, g, snap, orig, bb, target, time);
                            assert(*self == spec_pair.0);
                            assert(Some((target, prey)) == spec_pair.1);
                        }
                        Some((target, prey))
                    } else {
                        self.acceleration = (0, 0);
                        None
                    }
                } else {
                    let len = crate::geom::vec_len(dx, dy);
                    proof {
                        crate::geom::lemma_sqrt_dominates(dx as int, dy as int);
                    }
                    self.acceleration = (
                        crate::geom::scale_dir(dx, ms, len),
                        crate::geom::scale_dir(dy, ms, len),
                    );
                    None
                }
            },
            State::Reproducing(_) => None,
            State::Dead => {
                proof {
                    assert(false);
                }
                None
            },
        }
    }
}

} // verus!
