use ecosim::agent::Agent;
use ecosim::agent::AgentType;
use ecosim::agent::State;
use ecosim::genes::Genotype;
use ecosim::world::World;
use ecosim::Config;
use ecosim::SimError;

const WORLD: i64 = 1_024_000;

fn genes() -> Genotype {
    Genotype {
        body_size: 5_000,
        sight_distance: 100_000,
        muscle_mass: 1_000,
        reproduction_chance: 0,
        hunger_rate: 5_000,
        health_scale: 5_000,
        movement_speed: 200,
        gestation_duration: 5_000,
    }
}

fn creature(kind: AgentType, position: (i64, i64), id: u64) -> Agent {
    Agent {
        kind,
        position,
        acceleration: (0, 0),
        direction: 0,
        id,
        health: 50_000,
        hunger: 50_000,
        dead: false,
        state: State::Idle,
        seed: 0,
        timeout: 0,
        last_time: 0,
    }
}

fn config() -> Config {
    Config::standard(0, 0, 0, WORLD)
}

fn find(w: &World, id: u64) -> Option<Agent> {
    w.get_agents().into_iter().find(|a| a.id == id)
}

#[test]
fn hungry_prey_starts_hunting_visible_producer() {
    let mut sheep = creature(AgentType::Sheep(genes()), (500_000, 500_000), 1);
    sheep.hunger = 20_000;
    let grass = creature(AgentType::Grass(), (500_500, 500_000), 2);
    let mut w = World::with_agents(config(), vec![sheep, grass]).unwrap();
    w.step(1, &vec![0, 0]);
    let s = find(&w, 1).unwrap();
    assert_eq!(s.state, State::Hunting(2));
}

#[test]
fn bite_consumes_at_most_remaining_health() {
    let mut sheep = creature(AgentType::Sheep(genes()), (500_000, 500_000), 1);
    sheep.hunger = 20_000;
    sheep.state = State::Hunting(2);
    let mut grass = creature(AgentType::Grass(), (500_300, 500_000), 2);
    grass.health = 7_000;
    let mut w = World::with_agents(config(), vec![sheep, grass]).unwrap();
    w.step(1, &vec![0, 0]);
    // burn of 5 millis, then a bite of min(10_000, 7_000)
    let s = find(&w, 1).unwrap();
    assert_eq!(s.hunger, 20_000 - 5 + 7_000);
    assert_eq!(s.acceleration, (0, 0));
    // the target's health hit zero: dead, and removed by the pruning pass
    assert!(find(&w, 2).is_none());
    assert_eq!(w.agent_count(), 1);
}

#[test]
fn bite_reduces_a_healthy_target_by_the_bite_size() {
    let mut sheep = creature(AgentType::Sheep(genes()), (500_000, 500_000), 1);
    sheep.hunger = 20_000;
    sheep.state = State::Hunting(2);
    let grass = creature(AgentType::Grass(), (500_300, 500_000), 2);
    let mut w = World::with_agents(config(), vec![sheep, grass]).unwrap();
    w.step(1, &vec![0, 0]);
    let s = find(&w, 1).unwrap();
    assert_eq!(s.hunger, 20_000 - 5 + 10_000);
    assert_eq!(s.state, State::Hunting(2));
    // the producer's own turn comes after the bite: it grows from the
    // bitten value
    let g = find(&w, 2).unwrap();
    assert_eq!(g.health, 40_100);
}

#[test]
fn prey_flees_directly_away_from_a_visible_predator() {
    let sheep = creature(AgentType::Sheep(genes()), (500_000, 500_000), 1);
    let mut wolf = creature(AgentType::Wolf(genes()), (510_000, 500_000), 2);
    wolf.hunger = 90_000;
    let mut w = World::with_agents(config(), vec![sheep, wolf]).unwrap();
    w.step(1, &vec![0, 0]);
    let s = find(&w, 1).unwrap();
    assert_eq!(s.state, State::Fleeing);
    w.step(2, &vec![0, 0]);
    let s = find(&w, 1).unwrap();
    assert_eq!(s.state, State::Fleeing);
    // full speed along the axis pointing away from the predator
    assert_eq!(s.acceleration, (-200, 0));
}

#[test]
fn starvation_accrues_until_death_and_removal() {
    let mut sheep = creature(AgentType::Sheep(genes()), (500_000, 500_000), 1);
    sheep.hunger = 0;
    sheep.health = 250;
    let mut w = World::with_agents(config(), vec![sheep]).unwrap();
    w.step(1, &vec![0]);
    assert_eq!(find(&w, 1).unwrap().health, 150);
    assert_eq!(find(&w, 1).unwrap().hunger, 0);
    w.step(2, &vec![0]);
    assert_eq!(find(&w, 1).unwrap().health, 50);
    w.step(3, &vec![0]);
    assert!(find(&w, 1).is_none());
    assert_eq!(w.agent_count(), 0);
}

#[test]
fn producers_grow_to_the_cap() {
    let mut grass = creature(AgentType::Grass(), (1_000, 1_000), 1);
    grass.health = 99_950;
    let mut w = World::with_agents(config(), vec![grass]).unwrap();
    w.step(1, &vec![0]);
    assert_eq!(find(&w, 1).unwrap().health, 100_000);
    w.step(2, &vec![0]);
    assert_eq!(find(&w, 1).unwrap().health, 100_000);
}

#[test]
fn positions_stay_in_bounds_over_many_ticks() {
    let mut w = World::new(30, 10, WORLD).unwrap();
    assert_eq!(w.agent_count(), 30 + 10 + 1024);
    for t in 1..20u64 {
        let samples: Vec<i32> = (0..w.agent_count())
            .map(|i| (((t as i32) * 37 + i as i32 * 13) % 2001) - 1000)
            .collect();
        w.step(t, &samples);
        for a in w.get_agents() {
            assert!(a.position.0 >= 0 && a.position.0 < WORLD);
            assert!(a.position.1 >= 0 && a.position.1 < WORLD);
            assert!(!a.dead);
        }
    }
}

#[test]
fn invalid_configurations_fail_fast() {
    assert_eq!(
        World::new(1, 1, 1_000).err(),
        Some(SimError::ConfigurationError)
    );
    assert_eq!(
        World::new(1, 1, 1_024_001).err(),
        Some(SimError::ConfigurationError)
    );
    assert_eq!(
        World::new(1, 1, -64).err(),
        Some(SimError::ConfigurationError)
    );
    assert!(World::new(1, 1, WORLD).is_ok());
}

#[test]
fn duplicate_or_out_of_bounds_agents_are_rejected() {
    let a = creature(AgentType::Sheep(genes()), (1_000, 1_000), 1);
    let b = creature(AgentType::Sheep(genes()), (2_000, 2_000), 1);
    assert_eq!(
        World::with_agents(config(), vec![a, b]).err(),
        Some(SimError::ConfigurationError)
    );
    let outside = creature(AgentType::Sheep(genes()), (WORLD, 0), 1);
    assert_eq!(
        World::with_agents(config(), vec![outside]).err(),
        Some(SimError::ConfigurationError)
    );
}

#[test]
fn radius_query_reports_each_nearby_agent_once() {
    let a = creature(AgentType::Sheep(genes()), (500_000, 500_000), 1);
    let b = creature(AgentType::Wolf(genes()), (501_000, 500_000), 2);
    let c = creature(AgentType::Grass(), (900_000, 900_000), 3);
    let w = World::with_agents(config(), vec![a, b, c]).unwrap();
    let mut near: Vec<u64> = w
        .get_agents_in_radius(500_000, 500_000, 5_000)
        .into_iter()
        .map(|x| x.id)
        .collect();
    near.sort();
    assert_eq!(near, vec![1, 2]);
    let all = w.get_agents_in_radius(500_000, 500_000, 2_000_000_000);
    assert_eq!(all.len(), 3);
}

#[test]
fn region_lookup_finds_the_containing_leaf() {
    let w = World::with_agents(config(), Vec::new()).unwrap();
    let info = w.activate(10, 10).unwrap();
    assert!(info.is_leaf);
    assert!(info.position.0 <= 10 && 10 < info.position.0 + info.size);
    assert!(w.activate(-5, 10).is_none());
    assert!(w.activate(WORLD, 10).is_none());
}

#[test]
fn quadtree_summary_is_exposed() {
    let w = World::with_agents(config(), Vec::new()).unwrap();
    let nodes = w.get_quadtree();
    assert_eq!(nodes.len(), 1);
    assert_eq!(nodes[0].size, WORLD);
    assert!(nodes[0].is_leaf);
}

#[test]
fn kind_and_state_tags() {
    assert_eq!(AgentType::Wolf(genes()).to_int(), 0);
    assert_eq!(AgentType::Sheep(genes()).to_int(), 1);
    assert_eq!(AgentType::Grass().to_int(), 2);
    assert_eq!(AgentType::Wolf(genes()).to_name(), "Wolf");
    assert_eq!(AgentType::Sheep(genes()).to_name(), "Sheep");
    assert_eq!(AgentType::Grass().to_name(), "Grass");
    assert_eq!(State::Idle.to_int(), 0);
    assert_eq!(State::Hunting(7).to_int(), 1);
    assert_eq!(State::Fleeing.to_int(), 2);
    assert_eq!(State::Reproducing(7).to_int(), 3);
    assert_eq!(State::Dead.to_int(), 4);
}

#[test]
fn eating_contract() {
    let mut grass = creature(AgentType::Grass(), (1_000, 1_000), 1);
    grass.health = 7_000;
    assert_eq!(grass.eat(10_000), Ok(7_000));
    assert_eq!(grass.health, 0);
    assert!(grass.dead);
    assert_eq!(grass.state, State::Dead);

    let mut sheep = creature(AgentType::Sheep(genes()), (1_000, 1_000), 2);
    sheep.health = 50_000;
    assert_eq!(sheep.eat(10_000), Ok(10_000));
    assert_eq!(sheep.health, 40_000);
    assert!(!sheep.dead);

    let mut wolf = creature(AgentType::Wolf(genes()), (1_000, 1_000), 3);
    assert_eq!(wolf.eat(10_000), Err(SimError::BehaviorPrecondition));
    assert_eq!(wolf.health, 50_000);
}

#[test]
fn fleeing_check_spots_a_predator_among_neighbours() {
    let mut sheep = creature(AgentType::Sheep(genes()), (1_000, 1_000), 1);
    let wolf = creature(AgentType::Wolf(genes()), (2_000, 1_000), 2);
    let grass = creature(AgentType::Grass(), (3_000, 1_000), 3);
    let registry = vec![sheep, wolf, grass];
    sheep.wolf_fleeing_check(&vec![(3, (3_000, 1_000))], &registry);
    assert_eq!(sheep.state, State::Idle);
    sheep.wolf_fleeing_check(&vec![(3, (3_000, 1_000)), (2, (2_000, 1_000))], &registry);
    assert_eq!(sheep.state, State::Fleeing);
}

#[test]
fn closest_food_helper_finds_a_producer() {
    let sheep = creature(AgentType::Sheep(genes()), (1_000, 1_000), 1);
    let grass = creature(AgentType::Grass(), (3_000, 1_000), 3);
    assert_eq!(sheep.get_closest_food(&vec![sheep, grass]), Some(3));
    assert_eq!(sheep.get_closest_food(&vec![sheep]), None);
}

#[test]
fn predator_hunts_and_bites_prey() {
    let mut wolf = creature(AgentType::Wolf(genes()), (500_000, 500_000), 1);
    wolf.hunger = 20_000;
    let sheep = creature(AgentType::Sheep(genes()), (500_300, 500_000), 2);
    let mut w = World::with_agents(config(), vec![wolf, sheep]).unwrap();
    w.step(1, &vec![0, 0]);
    assert_eq!(find(&w, 1).unwrap().state, State::Hunting(2));
    assert_eq!(find(&w, 2).unwrap().state, State::Fleeing);
    w.step(2, &vec![0, 0]);
    let hunter = find(&w, 1).unwrap();
    let prey = find(&w, 2).unwrap();
    assert_eq!(hunter.hunger, 20_000 - 5 - 5 + 10_000);
    assert_eq!(hunter.state, State::Hunting(2));
    assert_eq!(prey.health, 40_000);
    // the bitten prey still takes its own turn and flees at full speed
    assert_eq!(prey.acceleration, (200, 0));
}

#[test]
fn wandering_turns_by_the_noise_sample_and_accelerates() {
    let sheep = creature(AgentType::Sheep(genes()), (500_000, 500_000), 1);
    let mut w = World::with_agents(config(), vec![sheep]).unwrap();
    w.step(1, &vec![500]);
    let s = find(&w, 1).unwrap();
    assert_eq!(s.direction, 500);
    assert_eq!(s.last_time, 1);
    // cos and sine of 0.5 rad in millis, scaled by speed 200 and the
    // wander factor 2
    assert_eq!(s.acceleration, (350, 191));
    w.step(2, &vec![0]);
    let s = find(&w, 1).unwrap();
    // movement is the acceleration clamped to the movement speed
    assert_eq!(s.position, (500_200, 500_191));
}

#[test]
fn wander_cadence_gates_wandering() {
    let sheep = creature(AgentType::Sheep(genes()), (500_000, 500_000), 1);
    let mut cfg = config();
    cfg.wander_cadence = 5;
    let mut w = World::with_agents(cfg, vec![sheep]).unwrap();
    w.step(1, &vec![500]);
    let s = find(&w, 1).unwrap();
    assert_eq!(s.acceleration, (0, 0));
    assert_eq!(s.direction, 0);
    assert_eq!(s.last_time, 0);
    w.step(6, &vec![500]);
    let s = find(&w, 1).unwrap();
    assert_eq!(s.direction, 500);
    assert_eq!(s.last_time, 6);
}

#[test]
fn hungry_agents_without_food_do_not_wander() {
    let mut sheep = creature(AgentType::Sheep(genes()), (500_000, 500_000), 1);
    sheep.hunger = 20_000;
    let mut w = World::with_agents(config(), vec![sheep]).unwrap();
    w.step(1, &vec![500]);
    let s = find(&w, 1).unwrap();
    assert_eq!(s.state, State::Idle);
    assert_eq!(s.acceleration, (0, 0));
    assert_eq!(s.direction, 0);
}

#[test]
fn stepping_an_empty_world_is_a_no_op() {
    let mut w = World::with_agents(config(), Vec::new()).unwrap();
    w.step(1, &vec![]);
    assert_eq!(w.agent_count(), 0);
}

#[test]
fn standard_configuration_values() {
    let c = Config::standard(5, 3, 7, WORLD);
    assert_eq!(c.world_size, WORLD);
    assert_eq!(c.capacity, 16);
    assert_eq!(c.max_depth, 6);
    assert_eq!(c.bite_size, 10_000);
    assert_eq!(c.min_hunger, 30_000);
    assert_eq!(c.satiety, 40_000);
    assert_eq!(c.capture_tolerance, 4_000);
    assert_eq!((c.sheep_num, c.wolf_num, c.grass_num), (5, 3, 7));
    assert!(c.check());
}
