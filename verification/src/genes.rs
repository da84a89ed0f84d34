//! The heritable trait set of a non-producer agent: four alleles sampled
//! from fixed ranges, and four traits derived from them. All values are in
//! millis; the derivation divides out one factor of 1000 so that products
//! of two allele values stay in the same scale.

use vstd::prelude::*;
use crate::geom::clamp_spec;
use crate::geom::clamp;
use crate::rng::rng_range_i64;
use crate::SPEED_LIMIT;

verus! {

pub const BODY_SIZE_MIN: i64 = 5_000;

pub const BODY_SIZE_MAX: i64 = 10_000;

pub const SIGHT_DISTANCE_MIN: i64 = 50_000;

pub const SIGHT_DISTANCE_MAX: i64 = 200_000;

pub const MUSCLE_MASS_MIN: i64 = 1_000;

pub const MUSCLE_MASS_MAX: i64 = 10_000;

pub const REPRODUCTION_CHANCE_MIN: i64 = 0;

pub const REPRODUCTION_CHANCE_MAX: i64 = 1_000;

/// Largest step one mutation can take an allele, in millis.
pub const MUTATION_STEP: i64 = 50;

#[derive(Clone, Copy, Debug, PartialEq, Eq, Structural)]
pub struct Genotype {
    pub body_size: i64,
    pub sight_distance: i64,
    pub muscle_mass: i64,
    pub reproduction_chance: i64,
    pub hunger_rate: i64,
    pub health_scale: i64,
    pub movement_speed: i64,
    pub gestation_duration: i64,
}

impl Genotype {
    /// Every allele sits inside its fixed sampling range.
    pub open spec fn alleles_in_range(self) -> bool {
        &&& BODY_SIZE_MIN <= self.body_size <= BODY_SIZE_MAX
        &&& SIGHT_DISTANCE_MIN <= self.sight_distance <= SIGHT_DISTANCE_MAX
        &&& MUSCLE_MASS_MIN <= self.muscle_mass <= MUSCLE_MASS_MAX
        &&& REPRODUCTION_CHANCE_MIN <= self.reproduction_chance <= REPRODUCTION_CHANCE_MAX
    }

    /// The derived traits are exactly what the alleles dictate.
    pub open spec fn derived_ok(self) -> bool {
        &&& self.hunger_rate == self.body_size * self.muscle_mass / 1000
        &&& self.health_scale == self.body_size * self.muscle_mass / 1000
        &&& self.movement_speed == self.muscle_mass * 1000 / (self.body_size as int)
        &&& self.gestation_duration == self.body_size * self.muscle_mass / 1000
    }

    pub open spec fn wf(self) -> bool {
        self.alleles_in_range() && self.derived_ok()
    }

    /// A fresh genotype: alleles drawn uniformly from their ranges, derived
    /// traits computed from them.
    pub fn new(thread_rng: &mut rand::rngs::ThreadRng) -> (g: Genotype)
        ensures
            g.wf(),
    {
        let body_size = rng_range_i64(thread_rng, BODY_SIZE_MIN, BODY_SIZE_MAX);
        let sight_distance = rng_range_i64(thread_rng, SIGHT_DISTANCE_MIN, SIGHT_DISTANCE_MAX);
        let muscle_mass = rng_range_i64(thread_rng, MUSCLE_MASS_MIN, MUSCLE_MASS_MAX);
        let reproduction_chance = rng_range_i64(
            thread_rng,
            REPRODUCTION_CHANCE_MIN,
            REPRODUCTION_CHANCE_MAX,
        );
        let mut genotype = Genotype {
            body_size,
            sight_distance,
            muscle_mass,
            reproduction_chance,
            hunger_rate: 0,
            health_scale: 0,
            movement_speed: 0,
            gestation_duration: 0,
        };
        genotype.derive_genotype();
        genotype
    }

    /// Recompute the derived traits from the alleles. Must be called
    /// whenever the alleles change.
    pub fn derive_genotype(&mut self)
        requires
            old(self).alleles_in_range(),
        ensures
            final(self).alleles_in_range(),
            final(self).derived_ok(),
            final(self).body_size == old(self).body_size,
            final(self).sight_distance == old(self).sight_distance,
            final(self).muscle_mass == old(self).muscle_mass,
            final(self).reproduction_chance == old(self).reproduction_chance,
    {
        proof {
            lemma_product_bounds(self.body_size as int, self.muscle_mass as int);
        }
        self.hunger_rate = self.body_size * self.muscle_mass / 1000;
        self.health_scale = self.body_size * self.muscle_mass / 1000;
        self.movement_speed = self.muscle_mass * 1000 / self.body_size;
        self.gestation_duration = self.body_size * self.muscle_mass / 1000;
    }

    /// A child genotype: each allele taken from one parent or the other by
    /// a fair draw, derived traits recomputed, then one mutation applied.
    /// Each resulting allele stays within one mutation step of its
    /// parents' span.
    pub fn crossbreed(
        &mut self,
        other: &Genotype,
        thread_rng: &mut rand::rngs::ThreadRng,
    ) -> (g: Genotype)
        requires
            old(self).alleles_in_range(),
            other.alleles_in_range(),
        ensures
            *final(self) == *old(self),
            g.wf(),
            old(self).body_size - MUTATION_STEP <= g.body_size || other.body_size
                - MUTATION_STEP <= g.body_size,
            g.body_size <= old(self).body_size + MUTATION_STEP || g.body_size <= other.body_size
                + MUTATION_STEP,
            old(self).sight_distance - MUTATION_STEP <= g.sight_distance || other.sight_distance
                - MUTATION_STEP <= g.sight_distance,
            g.sight_distance <= old(self).sight_distance + MUTATION_STEP || g.sight_distance
                <= other.sight_distance + MUTATION_STEP,
            old(self).muscle_mass - MUTATION_STEP <= g.muscle_mass || other.muscle_mass
                - MUTATION_STEP <= g.muscle_mass,
            g.muscle_mass <= old(self).muscle_mass + MUTATION_STEP || g.muscle_mass
                <= other.muscle_mass + MUTATION_STEP,
    {
        let body_size = if rng_range_i64(thread_rng, 0, 2) == 0 {
            self.body_size
        } else {
            other.body_size
        };
        let sight_distance = if rng_range_i64(thread_rng, 0, 2) == 0 {
            self.sight_distance
        } else {
            other.sight_distance
        };
        let muscle_mass = if rng_range_i64(thread_rng, 0, 2) == 0 {
            self.muscle_mass
        } else {
            other.muscle_mass
        };
        let reproduction_chance = if rng_range_i64(thread_rng, 0, 2) == 0 {
            self.reproduction_chance
        } else {
            other.reproduction_chance
        };

        let mut new_genotype = Genotype {
            body_size,
            sight_distance,
            muscle_mass,
            reproduction_chance,
            hunger_rate: 0,
            health_scale: 0,
            movement_speed: 0,
            gestation_duration: 0,
        };
        new_genotype.derive_genotype();
        new_genotype.mutate(thread_rng);

        new_genotype
    }

    /// Perturb every allele by at most `MUTATION_STEP`, clamped back into
    /// its sampling range, and recompute the derived traits.
    pub fn mutate(&mut self, thread_rng: &mut rand::rngs::ThreadRng)
        requires
            old(self).alleles_in_range(),
        ensures
            final(self).wf(),
            clamp_spec(
                old(self).body_size - MUTATION_STEP,
                BODY_SIZE_MIN as int,
                BODY_SIZE_MAX as int,
            ) <= final(self).body_size <= clamp_spec(
                old(self).body_size + MUTATION_STEP,
                BODY_SIZE_MIN as int,
                BODY_SIZE_MAX as int,
            ),
            clamp_spec(
                old(self).sight_distance - MUTATION_STEP,
                SIGHT_DISTANCE_MIN as int,
                SIGHT_DISTANCE_MAX as int,
            ) <= final(self).sight_distance <= clamp_spec(
                old(self).sight_distance + MUTATION_STEP,
                SIGHT_DISTANCE_MIN as int,
                SIGHT_DISTANCE_MAX as int,
            ),
            clamp_spec(
                old(self).muscle_mass - MUTATION_STEP,
                MUSCLE_MASS_MIN as int,
                MUSCLE_MASS_MAX as int,
            ) <= final(self).muscle_mass <= clamp_spec(
                old(self).muscle_mass + MUTATION_STEP,
                MUSCLE_MASS_MIN as int,
                MUSCLE_MASS_MAX as int,
            ),
    {
        let db = rng_range_i64(thread_rng, -MUTATION_STEP, MUTATION_STEP + 1);
        let ds = rng_range_i64(thread_rng, -MUTATION_STEP, MUTATION_STEP + 1);
        let dm = rng_range_i64(thread_rng, -MUTATION_STEP, MUTATION_STEP + 1);
        let dr = rng_range_i64(thread_rng, -MUTATION_STEP, MUTATION_STEP + 1);
        self.body_size = clamp(self.body_size + db, BODY_SIZE_MIN, BODY_SIZE_MAX);
        self.sight_distance = clamp(
            self.sight_distance + ds,
            SIGHT_DISTANCE_MIN,
            SIGHT_DISTANCE_MAX,
        );
        self.muscle_mass = clamp(self.muscle_mass + dm, MUSCLE_MASS_MIN, MUSCLE_MASS_MAX);
        self.reproduction_chance = clamp(
            self.reproduction_chance + dr,
            REPRODUCTION_CHANCE_MIN,
            REPRODUCTION_CHANCE_MAX,
        );
        self.derive_genotype();
    }

    /// The seven traits a genotype reports for rendering, in a fixed order.
    pub open spec fn trait_seq(self) -> Seq<i64> {
        seq![
            self.body_size,
            self.sight_distance,
            self.muscle_mass,
            self.hunger_rate,
            self.health_scale,
            self.movement_speed,
            self.gestation_duration,
        ]
    }

    /// All traits plus the reproduction chance, in a fixed order.
    pub fn to_vec(&self) -> (r: Vec<i64>)
        ensures
            r@ == self.trait_seq().push(self.reproduction_chance),
    {
        let mut r: Vec<i64> = Vec::new();
        r.push(self.body_size);
        r.push(self.sight_distance);
        r.push(self.muscle_mass);
        r.push(self.hunger_rate);
        r.push(self.health_scale);
        r.push(self.movement_speed);
        r.push(self.gestation_duration);
        r.push(self.reproduction_chance);
        proof {
            assert(r@ =~= self.trait_seq().push(self.reproduction_chance));
        }
        r
    }

    /// The trait rows of many genotypes, in order.
    pub fn many_to_vec(genotypes: &Vec<Genotype>) -> (r: Vec<Vec<i64>>)
        ensures
            r@.len() == genotypes@.len(),
            forall|i: int|
                0 <= i < genotypes@.len() ==> #[trigger] r@[i]@ == genotypes@[i].trait_seq(),
    {
        let mut r: Vec<Vec<i64>> = Vec::new();
        let mut k: usize = 0;
        while k < genotypes.len()
            invariant
                k <= genotypes@.len(),
                r@.len() == k,
                forall|i: int|
                    0 <= i < k ==> #[trigger] r@[i]@ == genotypes@[i].trait_seq(),
            decreases genotypes@.len() - k,
        {
            let g = &genotypes[k];
            let mut row: Vec<i64> = Vec::new();
            row.push(g.body_size);
            row.push(g.sight_distance);
            row.push(g.muscle_mass);
            row.push(g.hunger_rate);
            row.push(g.health_scale);
            row.push(g.movement_speed);
            row.push(g.gestation_duration);
            proof {
                assert(row@ =~= genotypes@[k as int].trait_seq());
            }
            r.push(row);
            k = k + 1;
        }
        r
    }
}

/// Bounds of the derived traits: with alleles in range, the shared product
/// trait sits in `[5_000, 100_000]` and the movement speed never exceeds
/// `SPEED_LIMIT`.
pub proof fn lemma_product_bounds(body: int, muscle: int)
    requires
        BODY_SIZE_MIN <= body <= BODY_SIZE_MAX,
        MUSCLE_MASS_MIN <= muscle <= MUSCLE_MASS_MAX,
    ensures
        5_000 <= body * muscle / 1000 <= 100_000,
        100 <= muscle * 1000 / body <= SPEED_LIMIT,
{
    assert(5_000_000 <= body * muscle <= 100_000_000) by (nonlinear_arith)
        requires
            5_000 <= body <= 10_000,
            1_000 <= muscle <= 10_000,
    ;
    assert(5_000 <= body * muscle / 1000 <= 100_000);
    assert(100 <= muscle * 1000 / body <= 2_000) by (nonlinear_arith)
        requires
            5_000 <= body <= 10_000,
            1_000 <= muscle <= 10_000,
    ;
}

/// The derived traits of a well-formed genotype are bounded; in particular
/// no agent outruns `SPEED_LIMIT`.
pub proof fn lemma_derived_bounds(g: Genotype)
    requires
        g.wf(),
    ensures
        5_000 <= g.hunger_rate <= 100_000,
        5_000 <= g.health_scale <= 100_000,
        5_000 <= g.gestation_duration <= 100_000,
        100 <= g.movement_speed <= SPEED_LIMIT,
{
    lemma_product_bounds(g.body_size as int, g.muscle_mass as int);
}

} // verus!
