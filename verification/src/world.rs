//! The world: the authoritative agent registry, one spatial index per
//! kind, and the per-tick orchestration. A tick runs against a frozen
//! snapshot: every agent's transition reads only the snapshot, its results
//! are merged into a working copy (last write wins on a shared target),
//! dead agents are removed in a separate pass, and the indexes are rebuilt
//! so that they always mirror the registry between ticks.

use vstd::prelude::*;
use crate::agent::index_of_id;
use crate::agent::registry_wf;
use crate::agent::transition_spec;
use crate::agent::unique_ids;
use crate::agent::Agent;
use crate::agent::AgentType;
use crate::agent::State;
use crate::genes::Genotype;
use crate::geom::dist2;
use crate::quadtree::entry_matches;
use crate::quadtree::in_region;
use crate::quadtree::radius_pred;
use crate::quadtree::Entry;
use crate::quadtree::NodeInfo;
use crate::quadtree::QuadTree;
use crate::rng::fresh_rng;
use crate::rng::rng_range_i64;
use crate::rng::rng_u64;
use crate::Config;
use crate::SimError;
use crate::MAX_COORD;
use crate::VITAL_MAX;

verus! {

/// Kind selector of the predator index.
pub open spec fn wolf_sel() -> spec_fn(AgentType) -> bool {
    |k: AgentType| k is Wolf
}

/// Kind selector of the prey index.
pub open spec fn sheep_sel() -> spec_fn(AgentType) -> bool {
    |k: AgentType| k is Sheep
}

/// Kind selector of the producer index.
pub open spec fn grass_sel() -> spec_fn(AgentType) -> bool {
    |k: AgentType| k is Grass
}

/// The selector that matches no kind, for agents that watch one kind only.
pub open spec fn no_sel() -> spec_fn(AgentType) -> bool {
    |k: AgentType| false
}

/// The `(id, position)` pairs of the agents of one kind, in registry
/// order.
pub open spec fn kind_pairs(s: Seq<Agent>, sel: spec_fn(AgentType) -> bool) -> Seq<Entry> {
    s.filter(|a: Agent| sel(a.kind)).map_values(|a: Agent| (a.id, a.position))
}

/// One index mirrors the registry: a well-formed tree over the whole
/// world, holding exactly the pairs of its kind.
pub open spec fn tree_ok(
    t: QuadTree,
    cfg: Config,
    s: Seq<Agent>,
    sel: spec_fn(AgentType) -> bool,
) -> bool {
    &&& t.wf()
    &&& t.position == (0i64, 0i64)
    &&& t.size == cfg.world_size
    &&& t.level == 0
    &&& t.capacity == cfg.capacity
    &&& t.max_level == cfg.max_depth
    &&& t.entries().to_multiset() == kind_pairs(s, sel).to_multiset()
}

/// The simulation world.
pub struct World {
    wolf_quad: QuadTree,
    sheep_quad: QuadTree,
    grass_quad: QuadTree,
    config: Config,
    agents: Vec<Agent>,
    next_id: u64,
    rng: rand::rngs::ThreadRng,
    /// A random seed the host may use for per-run noise.
    pub seed: u64,
}

impl World {
    /// The registry, as specifications see it.
    pub closed spec fn agents_view(self) -> Seq<Agent> {
        self.agents@
    }

    /// The configuration.
    pub closed spec fn config_view(self) -> Config {
        self.config
    }

    /// The world invariant: a valid configuration, a well-formed registry
    /// of live agents with distinct identities below `next_id`, and three
    /// indexes that mirror it.
    pub closed spec fn wf(self) -> bool {
        &&& self.config.valid()
        &&& registry_wf(self.agents@, self.config)
        &&& forall|j: int|
            0 <= j < self.agents@.len() ==> (#[trigger] self.agents@[j]).id < self.next_id
        &&& tree_ok(self.wolf_quad, self.config, self.agents@, wolf_sel())
        &&& tree_ok(self.sheep_quad, self.config, self.agents@, sheep_sel())
        &&& tree_ok(self.grass_quad, self.config, self.agents@, grass_sel())
    }

    /// The prey index, as specifications see it.
    pub closed spec fn sheep_index(self) -> QuadTree {
        self.sheep_quad
    }

    /// The configuration, for hosts.
    pub fn get_config(&self) -> (c: Config)
        ensures
            c == self.config_view(),
    {
        self.config
    }

    /// How many agents are alive.
    pub fn agent_count(&self) -> (n: usize)
        ensures
            n == self.agents_view().len(),
    {
        self.agents.len()
    }

    /// Every live agent's public fields, in registry order.
    pub fn get_agents(&self) -> (r: Vec<Agent>)
        ensures
            r@ == self.agents_view(),
    {
        copy_agents(&self.agents)
    }

    /// The pre-order node summaries of the prey index, for visualization.
    pub fn get_quadtree(&self) -> (r: Vec<NodeInfo>)
        requires
            self.wf(),
        ensures
            r@ == self.sheep_index().all_nodes(),
    {
        self.sheep_quad.get_all()
    }

    /// The smallest prey-index leaf region containing the point, if the
    /// point lies inside the world.
    pub fn activate(&self, mouse_x: i64, mouse_y: i64) -> (r: Option<NodeInfo>)
        requires
            self.wf(),
        ensures
            match r {
                Some(info) => {
                    &&& info.is_leaf
                    &&& in_region(info.position, info.size, (mouse_x, mouse_y))
                },
                None => !in_region(
                    (0i64, 0i64),
                    self.config_view().world_size,
                    (mouse_x, mouse_y),
                ),
            },
    {
        match self.sheep_quad.find_quad_containing_point((mouse_x, mouse_y)) {
            Some(q) => Some(
                NodeInfo {
                    position: q.position,
                    size: q.size,
                    level: q.level,
                    index: q.index,
                    is_leaf: q.is_leaf,
                    entry_count: q.children.len(),
                },
            ),
            None => None,
        }
    }
}

/// Copy a registry vector.
fn copy_agents(v: &Vec<Agent>) -> (r: Vec<Agent>)
    ensures
        r@ == v@,
{
    let mut r: Vec<Agent> = Vec::new();
    let mut k: usize = 0;
    while k < v.len()
        invariant
            k <= v@.len(),
            r@ == v@.subrange(0, k as int),
        decreases v@.len() - k,
    {
        r.push(v[k]);
        proof {
            assert(r@ =~= v@.subrange(0, k + 1));
        }
        k = k + 1;
    }
    proof {
        assert(r@ =~= v@);
    }
    r
}

/// Build the three kind indexes from a registry.
fn build_trees(cfg: &Config, agents: &Vec<Agent>) -> (r: (QuadTree, QuadTree, QuadTree))
    requires
        cfg.valid(),
        forall|j: int|
            0 <= j < agents@.len() ==> 0 <= (#[trigger] agents@[j]).position.0 < cfg.world_size
                && 0 <= agents@[j].position.1 < cfg.world_size,
    ensures
        tree_ok(r.0, *cfg, agents@, wolf_sel()),
        tree_ok(r.1, *cfg, agents@, sheep_sel()),
        tree_ok(r.2, *cfg, agents@, grass_sel()),
{
    broadcast use vstd::multiset::group_multiset_axioms;
    broadcast use vstd::seq_lib::group_to_multiset_ensures;

    let mut wolves = QuadTree::new(cfg.world_size, cfg.capacity, cfg.max_depth);
    let mut sheep = QuadTree::new(cfg.world_size, cfg.capacity, cfg.max_depth);
    let mut grass = QuadTree::new(cfg.world_size, cfg.capacity, cfg.max_depth);
    proof {
        assert(kind_pairs(agents@.subrange(0, 0), wolf_sel()) =~= Seq::<Entry>::empty());
        assert(kind_pairs(agents@.subrange(0, 0), sheep_sel()) =~= Seq::<Entry>::empty());
        assert(kind_pairs(agents@.subrange(0, 0), grass_sel()) =~= Seq::<Entry>::empty());
    }
    let mut k: usize = 0;
    while k < agents.len()
        invariant
            k <= agents@.len(),
            cfg.valid(),
            forall|j: int|
                0 <= j < agents@.len() ==> 0 <= (#[trigger] agents@[j]).position.0
                    < cfg.world_size && 0 <= agents@[j].position.1 < cfg.world_size,
            tree_ok(wolves, *cfg, agents@.subrange(0, k as int), wolf_sel()),
            tree_ok(sheep, *cfg, agents@.subrange(0, k as int), sheep_sel()),
            tree_ok(grass, *cfg, agents@.subrange(0, k as int), grass_sel()),
        decreases agents@.len() - k,
    {
        let a = &agents[k];
        let ghost pre = agents@.subrange(0, k as int);
        let ghost post = agents@.subrange(0, k + 1int);
        proof {
            assert(post.drop_last() =~= pre);
            lemma_kind_pairs_push(pre, post, agents@[k as int], wolf_sel());
            lemma_kind_pairs_push(pre, post, agents@[k as int], sheep_sel());
            lemma_kind_pairs_push(pre, post, agents@[k as int], grass_sel());
        }
        let outcome = match a.kind {
            AgentType::Wolf(_) => wolves.insert(a.id, a.position),
            AgentType::Sheep(_) => sheep.insert(a.id, a.position),
            AgentType::Grass() => grass.insert(a.id, a.position),
        };
        match outcome {
            Ok(()) => {},
            Err(_) => {
                proof {
                    assert(false);
                }
            },
        }
        k = k + 1;
    }
    proof {
        assert(agents@.subrange(0, agents@.len() as int) =~= agents@);
    }
    (wolves, sheep, grass)
}

/// Producers spawned by the classic world.
pub const MAX_GRASS: usize = 1024;

/// Runtime check of one genotype against its well-formedness.
fn genotype_ok(g: &Genotype) -> (r: bool)
    ensures
        r == g.wf(),
{
    let ranges = crate::genes::BODY_SIZE_MIN <= g.body_size && g.body_size
        <= crate::genes::BODY_SIZE_MAX && crate::genes::SIGHT_DISTANCE_MIN <= g.sight_distance
        && g.sight_distance <= crate::genes::SIGHT_DISTANCE_MAX && crate::genes::MUSCLE_MASS_MIN
        <= g.muscle_mass && g.muscle_mass <= crate::genes::MUSCLE_MASS_MAX
        && crate::genes::REPRODUCTION_CHANCE_MIN <= g.reproduction_chance
        && g.reproduction_chance <= crate::genes::REPRODUCTION_CHANCE_MAX;
    if !ranges {
        return false;
    }
    proof {
        assert(0 <= g.body_size * g.muscle_mass <= 100_000_000 && 0 <= g.muscle_mass * 1000
            <= 10_000_000) by (nonlinear_arith)
            requires
                5_000 <= g.body_size <= 10_000,
                1_000 <= g.muscle_mass <= 10_000,
        ;
    }
    g.hunger_rate == g.body_size * g.muscle_mass / 1000 && g.health_scale == g.body_size
        * g.muscle_mass / 1000 && g.movement_speed == g.muscle_mass * 1000 / g.body_size
        && g.gestation_duration == g.body_size * g.muscle_mass / 1000
}

/// Runtime check of one agent against its well-formedness.
fn agent_ok(a: &Agent, cfg: &Config) -> (r: bool)
    requires
        cfg.valid(),
    ensures
        r == a.wf(*cfg),
{
    let base = 0 <= a.position.0 && a.position.0 < cfg.world_size && 0 <= a.position.1
        && a.position.1 < cfg.world_size && -crate::ACC_LIMIT <= a.acceleration.0
        && a.acceleration.0 <= crate::ACC_LIMIT && -crate::ACC_LIMIT <= a.acceleration.1
        && a.acceleration.1 <= crate::ACC_LIMIT && 0 <= a.direction && a.direction
        < crate::geom::TAU_MRAD && 0 < a.health && a.health <= VITAL_MAX && 0 <= a.hunger
        && a.hunger <= VITAL_MAX && !a.dead && !matches!(a.state, State::Dead);
    if !base {
        return false;
    }
    match &a.kind {
        AgentType::Wolf(g) => genotype_ok(g) && !matches!(a.state, State::Fleeing),
        AgentType::Sheep(g) => genotype_ok(g),
        AgentType::Grass() => matches!(a.state, State::Idle),
    }
}

impl World {
    /// A world over an explicit registry, validated: the configuration
    /// must be usable and every agent live, in bounds and uniquely
    /// identified, else construction fails fast.
    pub fn with_agents(config: Config, agents: Vec<Agent>) -> (r: Result<World, SimError>)
        ensures
            match r {
                Ok(w) => {
                    &&& w.wf()
                    &&& w.agents_view() == agents@
                    &&& w.config_view() == config
                },
                Err(e) => {
                    &&& e == SimError::ConfigurationError
                    &&& !(config.valid() && registry_wf(agents@, config) && (forall|j: int|
                        0 <= j < agents@.len() ==> (#[trigger] agents@[j]).id < u64::MAX))
                },
            },
    {
        if !config.check() {
            return Err(SimError::ConfigurationError);
        }
        let mut top: u64 = 0;
        let mut k: usize = 0;
        while k < agents.len()
            invariant
                k <= agents@.len(),
                config.valid(),
                forall|j: int| 0 <= j < k ==> (#[trigger] agents@[j]).wf(config),
                forall|j: int| 0 <= j < k ==> (#[trigger] agents@[j]).id < top || top == u64::MAX,
                forall|j: int| 0 <= j < k ==> (#[trigger] agents@[j]).id < u64::MAX,
            decreases agents@.len() - k,
        {
            let a = &agents[k];
            if !agent_ok(a, &config) {
                return Err(SimError::ConfigurationError);
            }
            if a.id == u64::MAX {
                return Err(SimError::ConfigurationError);
            }
            if a.id >= top {
                top = a.id + 1;
            }
            k = k + 1;
        }
        let mut i: usize = 0;
        while i < agents.len()
            invariant
                i <= agents@.len(),
                forall|j1: int, j2: int| 0 <= j1 < j2 < i ==> agents@[j1].id != agents@[j2].id,
            decreases agents@.len() - i,
        {
            let mut j: usize = 0;
            while j < i
                invariant
                    j <= i < agents@.len(),
                    forall|j2: int| 0 <= j2 < j ==> agents@[j2].id != agents@[i as int].id,
                decreases i - j,
            {
                if agents[j].id == agents[i].id {
                    return Err(SimError::ConfigurationError);
                }
                j = j + 1;
            }
            i = i + 1;
        }
        let mut rng = fresh_rng();
        let seed = rng_u64(&mut rng);
        let trees = build_trees(&config, &agents);
        Ok(
            World {
                wolf_quad: trees.0,
                sheep_quad: trees.1,
                grass_quad: trees.2,
                config,
                agents,
                next_id: top,
                rng,
                seed,
            },
        )
    }

    /// A world spawned at random: first the configured predators, then the
    /// prey, then the producers, each with a fresh genotype (producers
    /// none) and a uniform position.
    pub fn with_config(config: Config) -> (r: Result<World, SimError>)
        ensures
            match r {
                Ok(w) => {
                    &&& w.wf()
                    &&& w.config_view() == config
                    &&& w.agents_view().len() == config.wolf_num + config.sheep_num
                        + config.grass_num
                    &&& forall|j: int|
                        0 <= j < w.agents_view().len() ==> (#[trigger] w.agents_view()[j]).kind
                            is Wolf == (j < config.wolf_num) && (w.agents_view()[j].kind
                            is Sheep == (config.wolf_num <= j < config.wolf_num
                            + config.sheep_num))
                },
                Err(e) => e == SimError::ConfigurationError && !config.valid(),
            },
    {
        if !config.check() {
            return Err(SimError::ConfigurationError);
        }
        let mut rng = fresh_rng();
        let seed = rng_u64(&mut rng);
        let mut agents: Vec<Agent> = Vec::new();
        let total = config.wolf_num + config.sheep_num + config.grass_num;
        let mut k: usize = 0;
        while k < total
            invariant
                k <= total,
                total == config.wolf_num + config.sheep_num + config.grass_num,
                config.valid(),
                agents@.len() == k,
                forall|j: int| 0 <= j < k ==> (#[trigger] agents@[j]).id == j,
                forall|j: int| 0 <= j < k ==> (#[trigger] agents@[j]).wf(config),
                forall|j: int|
                    0 <= j < k ==> (#[trigger] agents@[j]).kind is Wolf == (j < config.wolf_num)
                        && (agents@[j].kind is Sheep == (config.wolf_num <= j < config.wolf_num
                        + config.sheep_num)),
            decreases total - k,
        {
            let kind = if k < config.wolf_num {
                AgentType::Wolf(Genotype::new(&mut rng))
            } else if k < config.wolf_num + config.sheep_num {
                AgentType::Sheep(Genotype::new(&mut rng))
            } else {
                AgentType::Grass()
            };
            let px = rng_range_i64(&mut rng, 0, config.world_size);
            let py = rng_range_i64(&mut rng, 0, config.world_size);
            let aseed = rng_u64(&mut rng);
            let a = Agent::new(kind, (px, py), k as u64, aseed, &config);
            agents.push(a);
            k = k + 1;
        }
        let trees = build_trees(&config, &agents);
        Ok(
            World {
                wolf_quad: trees.0,
                sheep_quad: trees.1,
                grass_quad: trees.2,
                config,
                agents,
                next_id: total as u64,
                rng,
                seed,
            },
        )
    }

    /// The classic entry point: the standard configuration with the given
    /// prey and predator counts, `MAX_GRASS` producers, and a square world
    /// of side `size` millis.
    pub fn new(sheep_num: usize, wolf_num: usize, size: i64) -> (r: Result<World, SimError>)
        ensures
            match r {
                Ok(w) => {
                    &&& w.wf()
                    &&& w.config_view() == Config::standard_spec(
                        sheep_num,
                        wolf_num,
                        MAX_GRASS as usize,
                        size,
                    )
                    &&& w.agents_view().len() == wolf_num + sheep_num + MAX_GRASS
                },
                Err(e) => e == SimError::ConfigurationError && !Config::standard_spec(
                    sheep_num,
                    wolf_num,
                    MAX_GRASS as usize,
                    size,
                ).valid(),
            },
    {
        let config = Config::standard(sheep_num, wolf_num, MAX_GRASS, size);
        Self::with_config(config)
    }
}

/// Extending a registry prefix by one agent extends its kind pairs by the
/// agent's pair exactly when the kind matches.
proof fn lemma_kind_pairs_push(
    pre: Seq<Agent>,
    post: Seq<Agent>,
    a: Agent,
    sel: spec_fn(AgentType) -> bool,
)
    requires
        post.len() == pre.len() + 1,
        post.drop_last() == pre,
        post.last() == a,
    ensures
        kind_pairs(post, sel) == if sel(a.kind) {
            kind_pairs(pre, sel).push((a.id, a.position))
        } else {
            kind_pairs(pre, sel)
        },
        kind_pairs(post, sel).to_multiset() == if sel(a.kind) {
            kind_pairs(pre, sel).to_multiset().insert((a.id, a.position))
        } else {
            kind_pairs(pre, sel).to_multiset()
        },
{
    broadcast use vstd::seq_lib::group_to_multiset_ensures;

    assert(post =~= pre.push(a));
    crate::quadtree::lemma_filter_push(pre, |x: Agent| sel(x.kind), a);
    if sel(a.kind) {
        assert(kind_pairs(post, sel) =~= kind_pairs(pre, sel).push((a.id, a.position)));
    } else {
        assert(kind_pairs(post, sel) =~= kind_pairs(pre, sel));
    }
}

/// Snapshot index `j` backs the pair `e` for the kind selector `sel`.
pub open spec fn pair_backed(snap: Seq<Agent>, e: Entry, sel: spec_fn(AgentType) -> bool, j: int) -> bool {
    &&& 0 <= j < snap.len()
    &&& snap[j].id == e.0
    &&& snap[j].position == e.1
    &&& sel(snap[j].kind)
}

/// The pair `e` has some backing agent in the snapshot.
pub open spec fn backed(snap: Seq<Agent>, e: Entry, sel: spec_fn(AgentType) -> bool) -> bool {
    exists|j: int| pair_backed(snap, e, sel, j)
}

/// Any element of a filtered sequence is an element of the original.
proof fn lemma_filter_sub<A>(s: Seq<A>, pred: spec_fn(A) -> bool, i: int)
    requires
        0 <= i < s.filter(pred).len(),
    ensures
        exists|j: int| 0 <= j < s.len() && s[j] == s.filter(pred)[i],
    decreases s.len(),
{
    reveal(Seq::filter);
    if s.len() == 0 {
    } else {
        let sub = s.drop_last().filter(pred);
        if pred(s.last()) && i == sub.len() {
            assert(s[s.len() - 1] == s.filter(pred)[i]);
        } else {
            lemma_filter_sub(s.drop_last(), pred, i);
            let j = choose|j: int|
                0 <= j < s.drop_last().len() && s.drop_last()[j] == s.drop_last().filter(pred)[i];
            assert(s[j] == s.filter(pred)[i]);
        }
    }
}

/// Filtering never increases any element's multiplicity.
proof fn lemma_filter_count<A>(s: Seq<A>, pred: spec_fn(A) -> bool, x: A)
    ensures
        s.filter(pred).to_multiset().count(x) <= s.to_multiset().count(x),
    decreases s.len(),
{
    broadcast use vstd::seq_lib::group_to_multiset_ensures;
    broadcast use vstd::multiset::group_multiset_axioms;

    reveal(Seq::filter);
    if s.len() == 0 {
    } else {
        lemma_filter_count(s.drop_last(), pred, x);
        assert(s =~= s.drop_last().push(s.last()));
        assert(s.to_multiset() =~= s.drop_last().to_multiset().insert(s.last()));
        if pred(s.last()) {
            assert(s.filter(pred).to_multiset() =~= s.drop_last().filter(pred).to_multiset().insert(
                s.last(),
            ));
        }
    }
}

/// Two distinct positions holding the same value put its multiplicity at
/// two or more.
proof fn lemma_dup_count<A>(s: Seq<A>, i1: int, i2: int)
    requires
        0 <= i1 < i2 < s.len(),
        s[i1] == s[i2],
    ensures
        s.to_multiset().count(s[i1]) >= 2,
{
    broadcast use vstd::seq_lib::group_to_multiset_ensures;
    broadcast use vstd::multiset::group_multiset_axioms;

    let s0 = s.subrange(0, i2);
    let s1 = s.subrange(i2, s.len() as int);
    assert(s =~= s0 + s1);
    vstd::seq_lib::lemma_multiset_commutative(s0, s1);
    assert(s0[i1] == s[i1]);
    assert(s0.contains(s[i1]));
    assert(s1[0] == s[i1]);
    assert(s1.contains(s[i1]));
}

/// The kind pairs of a registry with distinct identities: each pair backed
/// by a snapshot agent, no identity twice.
proof fn lemma_kind_pairs_ids(s: Seq<Agent>, sel: spec_fn(AgentType) -> bool)
    requires
        unique_ids(s),
    ensures
        forall|m: int|
            0 <= m < kind_pairs(s, sel).len() ==> backed(s, #[trigger] kind_pairs(s, sel)[m], sel),
        forall|m1: int, m2: int|
            0 <= m1 < m2 < kind_pairs(s, sel).len() ==> kind_pairs(s, sel)[m1].0 != kind_pairs(
                s,
                sel,
            )[m2].0,
    decreases s.len(),
{
    if s.len() == 0 {
        assert(s.filter(|a: Agent| sel(a.kind)) =~= Seq::<Agent>::empty()) by {
            reveal(Seq::filter);
        }
    } else {
        let pre = s.drop_last();
        let a = s.last();
        assert(unique_ids(pre)) by {
            assert forall|j: int, k: int| 0 <= j < k < pre.len() implies pre[j].id != pre[k].id by {
                assert(s[j].id != s[k].id);
            }
        }
        lemma_kind_pairs_ids(pre, sel);
        lemma_kind_pairs_push(pre, s, a, sel);
        let p = kind_pairs(s, sel);
        let pp = kind_pairs(pre, sel);
        assert forall|m: int| 0 <= m < p.len() implies backed(s, #[trigger] p[m], sel) by {
            if m < pp.len() {
                assert(p[m] == pp[m]);
                assert(backed(pre, pp[m], sel));
                let j = choose|j: int| pair_backed(pre, pp[m], sel, j);
                assert(pair_backed(s, p[m], sel, j));
            } else {
                assert(p[m] == (a.id, a.position));
                assert(pair_backed(s, p[m], sel, s.len() - 1));
            }
        }
        assert forall|m1: int, m2: int| 0 <= m1 < m2 < p.len() implies p[m1].0 != p[m2].0 by {
            if m2 < pp.len() {
            } else if sel(a.kind) && m2 == pp.len() {
                assert(backed(pre, pp[m1], sel));
                let j = choose|j: int| pair_backed(pre, pp[m1], sel, j);
                assert(s[j].id != a.id);
            }
        }
    }
}

/// What one index query yields, stated over the registry: every returned
/// pair is a within-radius agent of the selected kind at its snapshot
/// position; every such agent is returned; no identity twice.
proof fn lemma_query_entries(
    snap: Seq<Agent>,
    sel: spec_fn(AgentType) -> bool,
    t_entries: Seq<Entry>,
    q: Seq<Entry>,
    c: (i64, i64),
    r: i64,
)
    requires
        unique_ids(snap),
        t_entries.to_multiset() == kind_pairs(snap, sel).to_multiset(),
        q == t_entries.filter(radius_pred(c, r)),
    ensures
        forall|i: int|
            0 <= i < q.len() ==> backed(snap, #[trigger] q[i], sel) && entry_matches(q[i], c, r),
        forall|j: int|
            0 <= j < snap.len() && sel((#[trigger] snap[j]).kind) && dist2(snap[j].position, c)
                <= r * r ==> exists|i: int| 0 <= i < q.len() && (#[trigger] q[i]).0 == snap[j].id,
        forall|i1: int, i2: int| 0 <= i1 < i2 < q.len() ==> q[i1].0 != q[i2].0,
{
    broadcast use vstd::seq_lib::group_to_multiset_ensures;
    broadcast use vstd::seq_lib::group_filter_ensures;
    broadcast use vstd::multiset::group_multiset_axioms;

    lemma_kind_pairs_ids(snap, sel);
    let p = kind_pairs(snap, sel);
    let pred = radius_pred(c, r);
    assert forall|i: int| 0 <= i < q.len() implies backed(snap, #[trigger] q[i], sel)
        && entry_matches(q[i], c, r) by {
        lemma_filter_sub(t_entries, pred, i);
        let m = choose|m: int| 0 <= m < t_entries.len() && t_entries[m] == q[i];
        assert(t_entries.contains(q[i]));
        assert(p.to_multiset().count(q[i]) > 0);
        assert(p.contains(q[i]));
        let m2 = choose|m2: int| 0 <= m2 < p.len() && p[m2] == q[i];
        assert(backed(snap, p[m2], sel));
        assert(pred(q[i]));
    }
    assert forall|j: int|
        0 <= j < snap.len() && sel((#[trigger] snap[j]).kind) && dist2(snap[j].position, c) <= r
            * r implies exists|i: int| 0 <= i < q.len() && (#[trigger] q[i]).0 == snap[j].id by {
        let f = snap.filter(|a: Agent| sel(a.kind));
        assert(f.contains(snap[j]));
        let m = choose|m: int| 0 <= m < f.len() && f[m] == snap[j];
        let pair = (snap[j].id, snap[j].position);
        assert(p[m] == pair);
        assert(p.contains(pair));
        assert(t_entries.to_multiset().count(pair) > 0);
        assert(t_entries.contains(pair));
        let mt = choose|mt: int| 0 <= mt < t_entries.len() && t_entries[mt] == pair;
        assert(pred(pair));
        assert(q.contains(pair));
        let i = choose|i: int| 0 <= i < q.len() && q[i] == pair;
        assert(q[i].0 == snap[j].id);
    }
    assert forall|i1: int, i2: int| 0 <= i1 < i2 < q.len() implies q[i1].0 != q[i2].0 by {
        if q[i1].0 == q[i2].0 {
            if q[i1] == q[i2] {
                lemma_dup_count(q, i1, i2);
                lemma_filter_count(t_entries, pred, q[i1]);
                assert(p.no_duplicates()) by {
                    assert forall|m1: int, m2: int|
                        0 <= m1 < p.len() && 0 <= m2 < p.len() && m1 != m2 implies p[m1]
                        != p[m2] by {
                        if m1 < m2 {
                            assert(p[m1].0 != p[m2].0);
                        } else {
                            assert(p[m2].0 != p[m1].0);
                        }
                    }
                }
                p.lemma_multiset_has_no_duplicates();
                assert(p.to_multiset().count(q[i1]) <= 1);
                assert(false);
            } else {
                lemma_filter_sub(t_entries, pred, i1);
                lemma_filter_sub(t_entries, pred, i2);
                let ma = choose|m: int| 0 <= m < t_entries.len() && t_entries[m] == q[i1];
                let mb = choose|m: int| 0 <= m < t_entries.len() && t_entries[m] == q[i2];
                assert(t_entries.contains(q[i1]));
                assert(t_entries.contains(q[i2]));
                assert(p.contains(q[i1]));
                assert(p.contains(q[i2]));
                let pa = choose|m: int| 0 <= m < p.len() && p[m] == q[i1];
                let pb = choose|m: int| 0 <= m < p.len() && p[m] == q[i2];
                assert(pa != pb);
                if pa < pb {
                    assert(p[pa].0 != p[pb].0);
                } else {
                    assert(p[pb].0 != p[pa].0);
                }
                assert(false);
            }
        }
    }
}

/// The combined query results of the kinds an agent watches form a sound,
/// complete and duplicate-free neighbour list for it.
proof fn lemma_nearby(
    snap: Seq<Agent>,
    a: Agent,
    g: Genotype,
    t1: Seq<Entry>,
    t2: Seq<Entry>,
    q1: Seq<Entry>,
    q2: Seq<Entry>,
    sel_a: spec_fn(AgentType) -> bool,
    sel_b: spec_fn(AgentType) -> bool,
)
    requires
        unique_ids(snap),
        t1.to_multiset() == kind_pairs(snap, sel_a).to_multiset(),
        t2.to_multiset() == kind_pairs(snap, sel_b).to_multiset(),
        q1 == t1.filter(radius_pred(a.position, g.sight_distance)),
        q2 == t2.filter(radius_pred(a.position, g.sight_distance)),
        forall|k: AgentType|
            crate::agent::watched_kind(a.kind, k) <==> (#[trigger] sel_a(k) || sel_b(k)),
        forall|k: AgentType| !(#[trigger] sel_a(k) && sel_b(k)),
    ensures
        crate::agent::nearby_ok(q1 + q2, snap, a, g),
{
    let c = a.position;
    let r = g.sight_distance;
    lemma_query_entries(snap, sel_a, t1, q1, c, r);
    lemma_query_entries(snap, sel_b, t2, q2, c, r);
    let nb = q1 + q2;
    assert forall|i: int| 0 <= i < nb.len() implies crate::agent::entry_backed(
        snap,
        #[trigger] nb[i],
        a,
        g,
    ) by {
        if i < q1.len() {
            assert(nb[i] == q1[i]);
            assert(backed(snap, q1[i], sel_a));
            let j = choose|j: int| pair_backed(snap, q1[i], sel_a, j);
            assert(crate::agent::backs_entry(snap, nb[i], a, g, j));
        } else {
            let e2 = q2[i - q1.len()];
            assert(nb[i] == e2);
            assert(backed(snap, e2, sel_b));
            let j = choose|j: int| pair_backed(snap, e2, sel_b, j);
            assert(crate::agent::backs_entry(snap, nb[i], a, g, j));
        }
    }
    assert forall|j: int|
        0 <= j < snap.len() && crate::agent::watched_kind(a.kind, (#[trigger] snap[j]).kind)
            && crate::agent::within_sight(a, snap[j], g) implies exists|i: int|
        0 <= i < nb.len() && (#[trigger] nb[i]).0 == snap[j].id by {
        if sel_a(snap[j].kind) {
            let i = choose|i: int| 0 <= i < q1.len() && (#[trigger] q1[i]).0 == snap[j].id;
            assert(nb[i] == q1[i]);
        } else {
            let i = choose|i: int| 0 <= i < q2.len() && (#[trigger] q2[i]).0 == snap[j].id;
            assert(nb[q1.len() + i] == q2[i]);
        }
    }
    assert forall|i1: int, i2: int| 0 <= i1 < i2 < nb.len() implies nb[i1].0 != nb[i2].0 by {
        if i2 < q1.len() {
            assert(nb[i1] == q1[i1] && nb[i2] == q1[i2]);
        } else if i1 >= q1.len() {
            assert(nb[i1] == q2[i1 - q1.len()] && nb[i2] == q2[i2 - q1.len()]);
        } else {
            let e2 = q2[i2 - q1.len()];
            assert(nb[i1] == q1[i1] && nb[i2] == e2);
            if nb[i1].0 == nb[i2].0 {
                assert(backed(snap, q1[i1], sel_a));
                assert(backed(snap, e2, sel_b));
                let j1 = choose|j: int| pair_backed(snap, q1[i1], sel_a, j);
                let j2 = choose|j: int| pair_backed(snap, e2, sel_b, j);
                if j1 != j2 {
                    if j1 < j2 {
                        assert(snap[j1].id != snap[j2].id);
                    } else {
                        assert(snap[j2].id != snap[j1].id);
                    }
                }
                assert(false);
            }
        }
    }
}

/// The pair `e` names a registry agent at its current position.
pub open spec fn resolved(snap: Seq<Agent>, e: Entry) -> bool {
    exists|j: int|
        0 <= j < snap.len() && (#[trigger] snap[j]).id == e.0 && snap[j].position == e.1
}

/// The concatenated results of querying all three kind indexes: every
/// entry resolves to a within-radius agent, every within-radius agent
/// appears, no identity twice.
proof fn lemma_query3(
    snap: Seq<Agent>,
    ts: Seq<Entry>,
    tw: Seq<Entry>,
    tg: Seq<Entry>,
    qs: Seq<Entry>,
    qw: Seq<Entry>,
    qg: Seq<Entry>,
    c: (i64, i64),
    r: i64,
)
    requires
        unique_ids(snap),
        ts.to_multiset() == kind_pairs(snap, sheep_sel()).to_multiset(),
        tw.to_multiset() == kind_pairs(snap, wolf_sel()).to_multiset(),
        tg.to_multiset() == kind_pairs(snap, grass_sel()).to_multiset(),
        qs == ts.filter(radius_pred(c, r)),
        qw == tw.filter(radius_pred(c, r)),
        qg == tg.filter(radius_pred(c, r)),
    ensures
        forall|i: int|
            0 <= i < (qs + qw + qg).len() ==> resolved(snap, #[trigger] (qs + qw + qg)[i])
                && entry_matches((qs + qw + qg)[i], c, r),
        forall|j: int|
            0 <= j < snap.len() && dist2((#[trigger] snap[j]).position, c) <= r * r
                ==> exists|i: int|
                0 <= i < (qs + qw + qg).len() && (#[trigger] (qs + qw + qg)[i]).0 == snap[j].id,
        forall|i1: int, i2: int|
            0 <= i1 < i2 < (qs + qw + qg).len() ==> (qs + qw + qg)[i1].0 != (qs + qw + qg)[i2].0,
{
    lemma_query_entries(snap, sheep_sel(), ts, qs, c, r);
    lemma_query_entries(snap, wolf_sel(), tw, qw, c, r);
    lemma_query_entries(snap, grass_sel(), tg, qg, c, r);
    let nb = qs + qw + qg;
    let ghost part = |i: int|
        if i < qs.len() {
            (qs[i], sheep_sel())
        } else if i < qs.len() + qw.len() {
            (qw[i - qs.len()], wolf_sel())
        } else {
            (qg[i - qs.len() - qw.len()], grass_sel())
        };
    assert forall|i: int| 0 <= i < nb.len() implies resolved(snap, #[trigger] nb[i])
        && entry_matches(nb[i], c, r) by {
        let (e, sel) = part(i);
        assert(nb[i] == e);
        assert(backed(snap, e, sel));
        let j = choose|j: int| pair_backed(snap, e, sel, j);
        assert(resolved(snap, nb[i]));
    }
    assert forall|j: int|
        0 <= j < snap.len() && dist2((#[trigger] snap[j]).position, c) <= r * r implies exists|
        i: int,
    | 0 <= i < nb.len() && (#[trigger] nb[i]).0 == snap[j].id by {
        match snap[j].kind {
            AgentType::Sheep(_) => {
                let i = choose|i: int| 0 <= i < qs.len() && (#[trigger] qs[i]).0 == snap[j].id;
                assert(nb[i] == qs[i]);
            },
            AgentType::Wolf(_) => {
                let i = choose|i: int| 0 <= i < qw.len() && (#[trigger] qw[i]).0 == snap[j].id;
                assert(nb[qs.len() + i] == qw[i]);
            },
            AgentType::Grass() => {
                let i = choose|i: int| 0 <= i < qg.len() && (#[trigger] qg[i]).0 == snap[j].id;
                assert(nb[qs.len() + qw.len() + i] == qg[i]);
            },
        }
    }
    assert forall|i1: int, i2: int| 0 <= i1 < i2 < nb.len() implies nb[i1].0 != nb[i2].0 by {
        let (e1, sel1) = part(i1);
        let (e2, sel2) = part(i2);
        assert(nb[i1] == e1 && nb[i2] == e2);
        if nb[i1].0 == nb[i2].0 {
            assert(backed(snap, e1, sel1));
            assert(backed(snap, e2, sel2));
            let j1 = choose|j: int| pair_backed(snap, e1, sel1, j);
            let j2 = choose|j: int| pair_backed(snap, e2, sel2, j);
            if j1 != j2 {
                if j1 < j2 {
                    assert(snap[j1].id != snap[j2].id);
                } else {
                    assert(snap[j2].id != snap[j1].id);
                }
            }
            assert(j1 == j2);
            assert(false);
        }
    }
}

impl World {
    /// Every live agent within `radius` of `(x, y)`, found through the
    /// three kind indexes: exactly those whose squared distance from the
    /// point is at most `radius²`, each reported once.
    pub fn get_agents_in_radius(&self, x: i64, y: i64, radius: i64) -> (r: Vec<Agent>)
        requires
            self.wf(),
            0 <= x <= MAX_COORD,
            0 <= y <= MAX_COORD,
            0 <= radius <= 2 * MAX_COORD,
        ensures
            forall|i: int|
                0 <= i < r@.len() ==> self.agents_view().contains(#[trigger] r@[i]) && dist2(
                    r@[i].position,
                    (x, y),
                ) <= radius * radius,
            forall|j: int|
                0 <= j < self.agents_view().len() && dist2(
                    (#[trigger] self.agents_view()[j]).position,
                    (x, y),
                ) <= radius * radius ==> exists|i: int|
                    0 <= i < r@.len() && (#[trigger] r@[i]).id == self.agents_view()[j].id,
            forall|i1: int, i2: int| 0 <= i1 < i2 < r@.len() ==> r@[i1].id != r@[i2].id,
    {
        let ghost snap0 = self.agents@;
        let mut found: Vec<Entry> = Vec::new();
        proof {
            assert(found@ =~= Seq::<Entry>::empty());
        }
        found = self.sheep_quad.get_children_in_radius((x, y), radius, found);
        let ghost qs = found@;
        found = self.wolf_quad.get_children_in_radius((x, y), radius, found);
        let ghost qw_full = found@;
        found = self.grass_quad.get_children_in_radius((x, y), radius, found);
        proof {
            let pred = radius_pred((x, y), radius);
            let qss = self.sheep_quad.entries().filter(pred);
            let qww = self.wolf_quad.entries().filter(pred);
            let qgg = self.grass_quad.entries().filter(pred);
            assert(qs =~= Seq::<Entry>::empty() + qss);
            assert(qs == qss);
            lemma_query3(
                snap0,
                self.sheep_quad.entries(),
                self.wolf_quad.entries(),
                self.grass_quad.entries(),
                qss,
                qww,
                qgg,
                (x, y),
                radius,
            );
            assert(found@ == qss + qww + qgg);
        }
        let ghost nb = found@;
        let mut r: Vec<Agent> = Vec::new();
        let mut i: usize = 0;
        while i < found.len()
            invariant
                i <= nb.len(),
                found@ == nb,
                snap0 == self.agents@,
                unique_ids(snap0),
                r@.len() == i,
                forall|i2: int|
                    0 <= i2 < nb.len() ==> resolved(snap0, #[trigger] nb[i2]) && entry_matches(
                        nb[i2],
                        (x, y),
                        radius,
                    ),
                forall|i2: int|
                    0 <= i2 < i ==> snap0.contains(#[trigger] r@[i2]) && r@[i2].id == nb[i2].0
                        && r@[i2].position == nb[i2].1,
            decreases nb.len() - i,
        {
            let e = found[i];
            match crate::agent::find_by_id(&self.agents, e.0) {
                Some(j) => {
                    proof {
                        assert(resolved(snap0, nb[i as int]));
                        let jr = choose|jr: int|
                            0 <= jr < snap0.len() && (#[trigger] snap0[jr]).id == e.0
                                && snap0[jr].position == e.1;
                        if jr != j {
                            assert(snap0[jr].id != snap0[j as int].id);
                        }
                        assert(snap0[j as int].position == e.1);
                    }
                    let a = self.agents[j];
                    r.push(a);
                },
                None => {
                    proof {
                        assert(resolved(snap0, nb[i as int]));
                        let jr = choose|jr: int|
                            0 <= jr < snap0.len() && (#[trigger] snap0[jr]).id == e.0
                                && snap0[jr].position == e.1;
                        assert(false);
                    }
                },
            }
            i = i + 1;
        }
        proof {
            assert forall|j: int|
                0 <= j < snap0.len() && dist2((#[trigger] snap0[j]).position, (x, y)) <= radius
                    * radius implies exists|i2: int|
                0 <= i2 < r@.len() && (#[trigger] r@[i2]).id == snap0[j].id by {
                let target = snap0[j].id;
                let i2 = choose|i2: int| 0 <= i2 < nb.len() && (#[trigger] nb[i2]).0 == target;
                assert(r@[i2].id == nb[i2].0);
            }
        }
        r
    }
}

/// The wander sample used for snapshot index `k`: the host's value clamped
/// into `[-1000, 1000]`; a missing entry reads as zero.
pub open spec fn sample_at(wander: Seq<i32>, k: int) -> i32 {
    if 0 <= k < wander.len() {
        if wander[k] < -1000 {
            -1000i32
        } else if wander[k] > 1000 {
            1000i32
        } else {
            wander[k]
        }
    } else {
        0i32
    }
}

/// Merge one side effect into the working copy: overwrite the agent of
/// that identity, if it is still there. A later write to the same target
/// wins, as documented.
pub open spec fn apply_effect(work: Seq<Agent>, eff: Option<(u64, Agent)>) -> Seq<Agent> {
    match eff {
        None => work,
        Some((id, v)) => {
            if exists|j: int| 0 <= j < work.len() && (#[trigger] work[j]).id == id {
                work.update(index_of_id(work, id), v)
            } else {
                work
            }
        },
    }
}

/// The behaviour pass over the first `k` agents. Each agent acts on its
/// own current working value — so a target bitten dead earlier in the
/// pass stays inert — while every lookup of another agent reads the
/// frozen snapshot. The transition's own result is written at the agent's
/// slot, then its side effect is merged.
pub open spec fn pass_spec(
    cfg: Config,
    snap: Seq<Agent>,
    time: u64,
    wander: Seq<i32>,
    k: nat,
) -> Seq<Agent>
    decreases k,
{
    if k == 0 {
        snap
    } else {
        let w = pass_spec(cfg, snap, time, wander, (k - 1) as nat);
        let cur = w[k - 1];
        if cur.dead {
            w
        } else {
            let tr = transition_spec(cfg, snap, cur, sample_at(wander, k - 1), time);
            apply_effect(w.update(k - 1, tr.0), tr.1)
        }
    }
}

/// One tick: the behaviour pass over the whole snapshot, then the removal
/// pass that drops the dead.
pub open spec fn step_spec(cfg: Config, snap: Seq<Agent>, time: u64, wander: Seq<i32>) -> Seq<
    Agent,
> {
    pass_spec(cfg, snap, time, wander, snap.len()).filter(|a: Agent| !a.dead)
}

/// Filtering a registry with distinct identities keeps them distinct, and
/// keeps only original elements.
proof fn lemma_filter_agents(s: Seq<Agent>, pred: spec_fn(Agent) -> bool)
    requires
        unique_ids(s),
    ensures
        unique_ids(s.filter(pred)),
        forall|i: int|
            0 <= i < s.filter(pred).len() ==> s.contains(#[trigger] s.filter(pred)[i]),
{
    broadcast use vstd::seq_lib::group_filter_ensures;

    assert forall|i: int| 0 <= i < s.filter(pred).len() implies s.contains(
        #[trigger] s.filter(pred)[i],
    ) by {
        lemma_filter_sub(s, pred, i);
        let j = choose|j: int| 0 <= j < s.len() && s[j] == s.filter(pred)[i];
        assert(s[j] == s.filter(pred)[i]);
    }
    assert forall|i1: int, i2: int| 0 <= i1 < i2 < s.filter(pred).len() implies s.filter(
        pred,
    )[i1].id != s.filter(pred)[i2].id by {
        if s.filter(pred)[i1] == s.filter(pred)[i2] {
            lemma_dup_count(s.filter(pred), i1, i2);
            lemma_filter_count(s, pred, s.filter(pred)[i1]);
            assert(s.no_duplicates()) by {
                assert forall|j1: int, j2: int|
                    0 <= j1 < s.len() && 0 <= j2 < s.len() && j1 != j2 implies s[j1] != s[j2] by {
                    if j1 < j2 {
                        assert(s[j1].id != s[j2].id);
                    } else {
                        assert(s[j2].id != s[j1].id);
                    }
                }
            }
            s.lemma_multiset_has_no_duplicates();
            broadcast use vstd::seq_lib::group_to_multiset_ensures;

            assert(s.contains(s.filter(pred)[i1])) by {
                lemma_filter_sub(s, pred, i1);
            }
            assert(false);
        } else {
            lemma_filter_sub(s, pred, i1);
            lemma_filter_sub(s, pred, i2);
            let j1 = choose|j: int| 0 <= j < s.len() && s[j] == s.filter(pred)[i1];
            let j2 = choose|j: int| 0 <= j < s.len() && s[j] == s.filter(pred)[i2];
            if s.filter(pred)[i1].id == s.filter(pred)[i2].id {
                if j1 < j2 {
                    assert(s[j1].id != s[j2].id);
                } else if j2 < j1 {
                    assert(s[j2].id != s[j1].id);
                }
                assert(false);
            }
        }
    }
}

impl World {
    /// The neighbour entries an agent's behaviour runs against: the
    /// within-sight entries of the indexes of the kinds it watches.
    fn gather_neighbors(&self, a: &Agent, g: &Genotype) -> (nearby: Vec<Entry>)
        requires
            self.wf(),
            a.wf(self.config_view()),
            !(a.kind is Grass),
            a.kind.genotype() == Some(*g),
        ensures
            crate::agent::nearby_ok(nearby@, self.agents_view(), *a, *g),
    {
        let ghost snap0 = self.agents@;
        proof {
            crate::genes::lemma_derived_bounds(*g);
        }
        let mut nearby: Vec<Entry> = Vec::new();
        proof {
            assert(nearby@ =~= Seq::<Entry>::empty());
        }
        match a.kind {
            AgentType::Sheep(_) => {
                nearby = self.wolf_quad.get_children_in_radius(
                    a.position,
                    g.sight_distance,
                    nearby,
                );
                let ghost q1 = nearby@;
                nearby = self.grass_quad.get_children_in_radius(
                    a.position,
                    g.sight_distance,
                    nearby,
                );
                proof {
                    let pred = radius_pred(a.position, g.sight_distance);
                    assert(q1 =~= Seq::<Entry>::empty() + self.wolf_quad.entries().filter(pred));
                    assert(q1 == self.wolf_quad.entries().filter(pred));
                    let q2 = self.grass_quad.entries().filter(pred);
                    assert(nearby@ == q1 + q2);
                    lemma_nearby(
                        snap0,
                        *a,
                        *g,
                        self.wolf_quad.entries(),
                        self.grass_quad.entries(),
                        q1,
                        q2,
                        wolf_sel(),
                        grass_sel(),
                    );
                }
            },
            _ => {
                nearby = self.sheep_quad.get_children_in_radius(
                    a.position,
                    g.sight_distance,
                    nearby,
                );
                proof {
                    let pred = radius_pred(a.position, g.sight_distance);
                    let q1 = self.sheep_quad.entries().filter(pred);
                    assert(nearby@ =~= Seq::<Entry>::empty() + q1);
                    let q2 = Seq::<Entry>::empty().filter(pred);
                    assert(q2 =~= Seq::<Entry>::empty()) by {
                        crate::quadtree::lemma_filter_none(Seq::<Entry>::empty(), pred);
                    }
                    assert(kind_pairs(snap0, no_sel()).to_multiset()
                        =~= Seq::<Entry>::empty().to_multiset()) by {
                        crate::quadtree::lemma_filter_none(snap0, |x: Agent| no_sel()(x.kind));
                        assert(kind_pairs(snap0, no_sel()) =~= Seq::<Entry>::empty());
                    }
                    lemma_nearby(
                        snap0,
                        *a,
                        *g,
                        self.sheep_quad.entries(),
                        Seq::<Entry>::empty(),
                        q1,
                        q2,
                        sheep_sel(),
                        no_sel(),
                    );
                    assert(nearby@ == q1 + q2);
                }
            },
        }
        nearby
    }

    /// Advance the simulation exactly one tick at clock `time`.
    ///
    /// `wander` carries one coherent-noise sample per agent, in registry
    /// order, each in millis of a radian (clamped into `[-1000, 1000]`;
    /// missing samples read as zero); the host computes them from each
    /// agent's seed and the clock. Every decision of the tick reads the
    /// registry as it was when the call began.
    pub fn step(&mut self, time: u64, wander: &Vec<i32>)
        requires
            old(self).wf(),
        ensures
            final(self).wf(),
            final(self).config_view() == old(self).config_view(),
            final(self).agents_view() == step_spec(
                old(self).config_view(),
                old(self).agents_view(),
                time,
                wander@,
            ),
    {
        broadcast use vstd::seq_lib::group_filter_ensures;

        let cfg = self.config;
        let ghost snap0 = self.agents@;
        let snapshot = copy_agents(&self.agents);
        let mut work = copy_agents(&self.agents);
        let mut k: usize = 0;
        while k < snapshot.len()
            invariant
                k <= snapshot@.len(),
                *self == *old(self),
                self.wf(),
                cfg == self.config,
                snap0 == self.agents@,
                snapshot@ == snap0,
                work@ == pass_spec(cfg, snap0, time, wander@, k as nat),
                work@.len() == snap0.len(),
                forall|j: int|
                    0 <= j < snap0.len() ==> (#[trigger] work@[j]).id == snap0[j].id,
                forall|j: int|
                    0 <= j < work@.len() ==> (!(#[trigger] work@[j]).dead ==> work@[j].wf(cfg)),
            decreases snapshot@.len() - k,
        {
            let ghost work_pre = work@;
            let a = work[k];
            let ghost sample_spec = sample_at(wander@, k as int);
            let raw: i32 = if k < wander.len() {
                wander[k]
            } else {
                0
            };
            let sample: i32 = if raw < -1000 {
                -1000
            } else if raw > 1000 {
                1000
            } else {
                raw
            };
            proof {
                assert(sample == sample_spec);
            }
            if a.dead {
                // a target bitten dead earlier in this pass is inert; the
                // removal pass will drop it
            } else {
                match a.kind {
                    AgentType::Grass() => {
                        let mut c = a;
                        if c.health <= 0 {
                            c.dead = true;
                            c.state = State::Dead;
                        } else {
                            if c.health + cfg.growth_rate <= VITAL_MAX {
                                c.health = c.health + cfg.growth_rate;
                            } else {
                                c.health = VITAL_MAX;
                            }
                        }
                        work.set(k, c);
                        proof {
                            assert(c == crate::agent::grow_spec(cfg, a));
                            assert(transition_spec(cfg, snap0, a, sample_spec, time).1 is None);
                            assert(work@ == apply_effect(
                                work_pre.update(k as int, c),
                                Option::<(u64, Agent)>::None,
                            ));
                            assert(!c.dead ==> c.wf(cfg)) by {
                                assert(!work_pre[k as int].dead ==> work_pre[k as int].wf(cfg));
                            }
                        }
                    },
                    AgentType::Wolf(g) | AgentType::Sheep(g) => {
                        proof {
                            assert(!work_pre[k as int].dead ==> work_pre[k as int].wf(cfg));
                            crate::genes::lemma_derived_bounds(g);
                        }
                        let nearby = self.gather_neighbors(&a, &g);
                        let mut c = a;
                        let eff = c.update(&nearby, &snapshot, g, sample, time, &cfg);
                        work.set(k, c);
                        let ghost mid = work@;
                        match eff {
                            Some((id, v)) => {
                                proof {
                                    let jj = choose|j: int|
                                        0 <= j < snap0.len() && (#[trigger] snap0[j]).id == id;
                                    assert(mid[jj].id == id);
                                }
                                match crate::agent::find_by_id(&work, id) {
                                    Some(j) => {
                                        proof {
                                            assert(unique_ids(mid)) by {
                                                assert forall|j1: int, j2: int|
                                                    0 <= j1 < j2 < mid.len() implies mid[j1].id
                                                    != mid[j2].id by {
                                                    assert(snap0[j1].id != snap0[j2].id);
                                                }
                                            }
                                            crate::agent::lemma_index_of_id(mid, id, j as int);
                                        }
                                        work.set(j, v);
                                    },
                                    None => {
                                        proof {
                                            assert(false);
                                        }
                                    },
                                }
                            },
                            None => {},
                        }
                        proof {
                            assert(work@ == apply_effect(mid, eff));
                        }
                    },
                }
            }
            k = k + 1;
            proof {
                assert(work@ == pass_spec(cfg, snap0, time, wander@, k as nat));
            }
        }
        let ghost passed = work@;
        let mut pruned: Vec<Agent> = Vec::new();
        proof {
            crate::quadtree::lemma_filter_none(passed.subrange(0, 0), |a: Agent| !a.dead);
            assert(passed.subrange(0, 0) =~= Seq::<Agent>::empty());
            assert(pruned@ =~= passed.subrange(0, 0).filter(|a: Agent| !a.dead));
        }
        let mut i: usize = 0;
        while i < work.len()
            invariant
                i <= work@.len(),
                work@ == passed,
                pruned@ == passed.subrange(0, i as int).filter(|a: Agent| !a.dead),
            decreases work@.len() - i,
        {
            let ghost pre = passed.subrange(0, i as int);
            proof {
                crate::quadtree::lemma_filter_push(pre, |a: Agent| !a.dead, passed[i as int]);
                assert(pre.push(passed[i as int]) =~= passed.subrange(0, i + 1int));
            }
            if !work[i].dead {
                pruned.push(work[i]);
            }
            i = i + 1;
        }
        proof {
            assert(passed.subrange(0, passed.len() as int) =~= passed);
        }
        let trees = {
            proof {
                assert(unique_ids(passed)) by {
                    assert forall|j1: int, j2: int|
                        0 <= j1 < j2 < passed.len() implies passed[j1].id != passed[j2].id by {
                        assert(snap0[j1].id != snap0[j2].id);
                    }
                }
                lemma_filter_agents(passed, |a: Agent| !a.dead);
                assert forall|j: int| 0 <= j < pruned@.len() implies (#[trigger] pruned@[j]).wf(
                    cfg,
                ) by {
                    assert(passed.contains(pruned@[j]));
                    let j2 = choose|j2: int| 0 <= j2 < passed.len() && passed[j2] == pruned@[j];
                    assert(!passed[j2].dead ==> passed[j2].wf(cfg));
                    assert(!pruned@[j].dead) by {
                        broadcast use vstd::seq_lib::group_filter_ensures;

                    }
                }
            }
            build_trees(&cfg, &pruned)
        };
        self.wolf_quad = trees.0;
        self.sheep_quad = trees.1;
        self.grass_quad = trees.2;
        self.agents = pruned;
        proof {
            assert forall|j: int| 0 <= j < self.agents@.len() implies (
            #[trigger] self.agents@[j]).id < self.next_id by {
                assert(passed.contains(self.agents@[j]));
                let j2 = choose|j2: int|
                    0 <= j2 < passed.len() && passed[j2] == self.agents@[j];
                assert(snap0[j2].id < self.next_id);
            }
        }
    }
}

/// Every live agent of a well-formed world lies within `[0, world_size)`
/// on both axes; `step` keeps worlds well-formed, so this holds at every
/// tick.
pub proof fn lemma_positions_in_bounds(w: World)
    requires
        w.wf(),
    ensures
        forall|j: int|
            0 <= j < w.agents_view().len() ==> 0 <= (#[trigger] w.agents_view()[j]).position.0
                < w.config_view().world_size && 0 <= w.agents_view()[j].position.1
                < w.config_view().world_size,
{
    assert forall|j: int|
        0 <= j < w.agents_view().len() implies 0 <= (
    #[trigger] w.agents_view()[j]).position.0 < w.config_view().world_size && 0
        <= w.agents_view()[j].position.1 < w.config_view().world_size by {
        assert(w.agents_view()[j].wf(w.config_view()));
    }
}

/// The removal pass is final: the registry a tick leaves behind holds no
/// dead agent.
pub proof fn lemma_no_dead_after_step(cfg: Config, snap: Seq<Agent>, time: u64, wander: Seq<i32>)
    ensures
        forall|i: int|
            0 <= i < step_spec(cfg, snap, time, wander).len() ==> !(#[trigger] step_spec(
                cfg,
                snap,
                time,
                wander,
            )[i]).dead,
{
    broadcast use vstd::seq_lib::group_filter_ensures;

}

} // verus!
