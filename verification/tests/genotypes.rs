use ecosim::genes::Genotype;
use ecosim::genes::BODY_SIZE_MAX;
use ecosim::genes::BODY_SIZE_MIN;
use ecosim::genes::MUSCLE_MASS_MAX;
use ecosim::genes::MUSCLE_MASS_MIN;
use ecosim::genes::REPRODUCTION_CHANCE_MAX;
use ecosim::genes::REPRODUCTION_CHANCE_MIN;
use ecosim::genes::SIGHT_DISTANCE_MAX;
use ecosim::genes::SIGHT_DISTANCE_MIN;

fn sample_genotype() -> Genotype {
    Genotype {
        body_size: 5_000,
        sight_distance: 100_000,
        muscle_mass: 1_000,
        reproduction_chance: 0,
        hunger_rate: 5_000,
        health_scale: 5_000,
        movement_speed: 200,
        gestation_duration: 5_000,
    }
}

fn in_ranges(g: &Genotype) -> bool {
    (BODY_SIZE_MIN..=BODY_SIZE_MAX).contains(&g.body_size)
        && (SIGHT_DISTANCE_MIN..=SIGHT_DISTANCE_MAX).contains(&g.sight_distance)
        && (MUSCLE_MASS_MIN..=MUSCLE_MASS_MAX).contains(&g.muscle_mass)
        && (REPRODUCTION_CHANCE_MIN..=REPRODUCTION_CHANCE_MAX).contains(&g.reproduction_chance)
}

fn derived_consistent(g: &Genotype) -> bool {
    g.hunger_rate == g.body_size * g.muscle_mass / 1000
        && g.health_scale == g.body_size * g.muscle_mass / 1000
        && g.movement_speed == g.muscle_mass * 1000 / g.body_size
        && g.gestation_duration == g.body_size * g.muscle_mass / 1000
}

#[test]
fn fresh_genotypes_are_well_formed() {
    let mut rng = rand::thread_rng();
    for _ in 0..50 {
        let g = Genotype::new(&mut rng);
        assert!(in_ranges(&g));
        assert!(derived_consistent(&g));
    }
}

#[test]
fn derivation_recomputes_traits() {
    let mut g = sample_genotype();
    g.body_size = 10_000;
    g.muscle_mass = 10_000;
    g.derive_genotype();
    assert_eq!(g.hunger_rate, 100_000);
    assert_eq!(g.health_scale, 100_000);
    assert_eq!(g.movement_speed, 1_000);
    assert_eq!(g.gestation_duration, 100_000);
}

#[test]
fn mutation_stays_in_range() {
    let mut rng = rand::thread_rng();
    let mut g = sample_genotype();
    for _ in 0..100 {
        g.mutate(&mut rng);
        assert!(in_ranges(&g));
        assert!(derived_consistent(&g));
    }
}

#[test]
fn crossbreed_yields_well_formed_child() {
    let mut rng = rand::thread_rng();
    let mut a = Genotype::new(&mut rng);
    let b = Genotype::new(&mut rng);
    for _ in 0..20 {
        let child = a.crossbreed(&b, &mut rng);
        assert!(in_ranges(&child));
        assert!(derived_consistent(&child));
    }
}

#[test]
fn trait_vector_order() {
    let g = sample_genotype();
    assert_eq!(
        g.to_vec(),
        vec![5_000, 100_000, 1_000, 5_000, 5_000, 200, 5_000, 0]
    );
}

#[test]
fn many_trait_rows() {
    let g = sample_genotype();
    let rows = Genotype::many_to_vec(&vec![g, g]);
    assert_eq!(rows.len(), 2);
    assert_eq!(rows[0], vec![5_000, 100_000, 1_000, 5_000, 5_000, 200, 5_000]);
    assert_eq!(rows[0], rows[1]);
}
