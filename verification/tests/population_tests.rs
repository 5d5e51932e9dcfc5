//! The generation loop: speciation, stagnation, reproduction and
//! evaluation of whole populations.

use rustneat::arith::RealArith;
use rustneat::genome::NeuralNetwork;
use rustneat::organism::Organism;
use rustneat::params::NeatParams;
use rustneat::population::{Environment, NeatError, Population};
use rustneat::specie::Specie;
use rustneat::RealBits;
use rand::RngExt;

/// Host arithmetic: each `u64` is the bit pattern of an `f64`.
struct HostArith;

impl RealArith for HostArith {
    fn plus(&self, a: RealBits, b: RealBits) -> RealBits {
        (f64::from_bits(a) + f64::from_bits(b)).to_bits()
    }

    fn minus(&self, a: RealBits, b: RealBits) -> RealBits {
        (f64::from_bits(a) - f64::from_bits(b)).to_bits()
    }

    fn times(&self, a: RealBits, b: RealBits) -> RealBits {
        (f64::from_bits(a) * f64::from_bits(b)).to_bits()
    }

    fn div_by(&self, a: RealBits, b: RealBits) -> RealBits {
        (f64::from_bits(a) / f64::from_bits(b)).to_bits()
    }

    fn abs_diff(&self, a: RealBits, b: RealBits) -> RealBits {
        (f64::from_bits(a) - f64::from_bits(b)).abs().to_bits()
    }

    fn less_than(&self, a: RealBits, b: RealBits) -> bool {
        f64::from_bits(a) < f64::from_bits(b)
    }

    fn of_usize(&self, n: usize) -> RealBits {
        (n as f64).to_bits()
    }

    fn to_usize(&self, a: RealBits) -> usize {
        f64::from_bits(a) as usize
    }

    fn sigmoid(&self, a: RealBits) -> RealBits {
        let y = f64::from_bits(a) * 5.0;
        let y = y.clamp(-60.0, 60.0);
        (1.0 / (1.0 + (-y).exp())).to_bits()
    }

    fn gauss(&self, mean: RealBits, deviation: RealBits) -> RealBits {
        let mut rng = rand::rng();
        let u1: f64 = rng.random_range(f64::MIN_POSITIVE..1.0);
        let u2: f64 = rng.random_range(0.0..1.0);
        let z = (-2.0 * u1.ln()).sqrt() * (2.0 * std::f64::consts::PI * u2).cos();
        (f64::from_bits(mean) + f64::from_bits(deviation) * z).to_bits()
    }
}

fn bits(x: f64) -> RealBits {
    x.to_bits()
}

struct MyEnvironment;

impl Environment for MyEnvironment {
    fn test(&self, _: &NeuralNetwork) -> RealBits {
        0.1234f64.to_bits()
    }
}

struct ConstantOne;

impl Environment for ConstantOne {
    fn test(&self, _: &NeuralNetwork) -> RealBits {
        1.0f64.to_bits()
    }
}

struct XorClassification;

impl Environment for XorClassification {
    fn test(&self, genome: &NeuralNetwork) -> RealBits {
        let arith = HostArith;
        let mut distance: f64 = 0.0;
        let cases: [(f64, f64, f64); 4] =
            [(0.0, 0.0, 0.0), (0.0, 1.0, 1.0), (1.0, 0.0, 1.0), (1.0, 1.0, 0.0)];
        for (a, b, want) in cases {
            let mut output = vec![0.0f64.to_bits()];
            genome.activate(&arith, vec![a.to_bits(), b.to_bits()], &mut output);
            distance += (want - f64::from_bits(output[0])).abs();
        }
        (16.0 / (1.0 + distance)).to_bits()
    }
}

/// Whether each of the genome's four XOR activations lies within
/// `eps` of its target.
fn solves_xor(genome: &NeuralNetwork, eps: f64) -> bool {
    let arith = HostArith;
    let cases: [(f64, f64, f64); 4] =
        [(0.0, 0.0, 0.0), (0.0, 1.0, 1.0), (1.0, 0.0, 1.0), (1.0, 1.0, 0.0)];
    for (a, b, want) in cases {
        let mut output = vec![0.0f64.to_bits()];
        genome.activate(&arith, vec![a.to_bits(), b.to_bits()], &mut output);
        if (want - f64::from_bits(output[0])).abs() > eps {
            return false;
        }
    }
    true
}

#[test]
fn population_should_be_able_to_speciate_genomes() {
    let arith = HostArith;
    let p = NeatParams::default(1, 1);
    let mut genome1 = NeuralNetwork::with_neurons(1);
    genome1.add_connection(0, 0, bits(0.0));
    let mut genome2 = NeuralNetwork::with_neurons(1);
    genome2.add_connection(0, 0, bits(30.0));
    let mut population = Population::create_population(2);
    let mut specie = Specie::new(Organism::new(genome1), 0);
    specie.add(Organism::new(genome2));
    population.species = vec![specie];
    population.next_specie_id = 1;
    population.speciate(&arith, &p);
    assert_eq!(population.species.len(), 2);
}

#[test]
fn network_should_be_able_to_solve_xor_classification() {
    let arith = HostArith;
    let p = NeatParams::default(2, 1);
    let environment = XorClassification;
    let mut population = Population::create_population_initialized(150, 2, 1);
    let mut found = false;
    let mut generation = 0;
    while !found && generation < 1500 {
        population.evolve(&environment, &arith, &p).unwrap();
        if f64::from_bits(population.champion_fitness) >= 16.0 / 1.4 {
            for organism in population.get_organisms() {
                if f64::from_bits(organism.fitness) >= 16.0 / 1.4
                    && solves_xor(&organism.genome, 0.1)
                {
                    found = true;
                    break;
                }
            }
        }
        generation += 1;
    }
    assert!(found, "not able to solve the XOR classification");
}

#[test]
fn should_be_able_to_generate_a_population() {
    let population = Population::create_population(150);
    assert!(population.size() == 150);
}

#[test]
fn population_can_be_tested_on_environment() {
    let mut population = Population::create_population(10);
    let environment = MyEnvironment;
    population.evaluate_in(&environment).unwrap();
    assert!(population.get_organisms()[0].fitness == 0.1234f64.to_bits());
}

#[test]
fn after_population_evolve_population_should_be_the_same() {
    let arith = HostArith;
    let p = NeatParams::default(1, 1);
    let environment = ConstantOne;
    let mut population = Population::create_population(150);
    for _ in 0..150 {
        population.evolve(&environment, &arith, &p).unwrap();
    }
    assert!(population.size() == 150);
}

#[test]
fn specie_should_return_correct_average_fitness() {
    let arith = HostArith;
    let mut organism1 = Organism::new(NeuralNetwork::default());
    organism1.fitness = bits(10.0);
    let mut organism2 = Organism::new(NeuralNetwork::default());
    organism2.fitness = bits(15.0);
    let mut organism3 = Organism::new(NeuralNetwork::default());
    organism3.fitness = bits(20.0);
    let mut specie = Specie::new(Organism::new(NeuralNetwork::default()), 0);
    specie.organisms = vec![organism1, organism2, organism3];
    let avg = f64::from_bits(specie.average_fitness(&arith));
    assert!((avg - 15.0).abs() < f64::EPSILON);
}

#[test]
fn single_organism_stays_alone_over_ten_generations() {
    let arith = HostArith;
    let p = NeatParams::default(1, 1);
    let environment = ConstantOne;
    let mut population = Population::create_population(1);
    for _ in 0..10 {
        population.evolve(&environment, &arith, &p).unwrap();
        assert_eq!(population.size(), 1);
    }
    let organisms = population.get_organisms();
    assert_eq!(organisms.len(), 1);
    let neurons = organisms[0].genome.n_neurons();
    assert!(neurons <= 1 + 10);
}

#[test]
fn population_size_is_preserved_every_generation() {
    let arith = HostArith;
    let p = NeatParams::default(2, 1);
    let environment = XorClassification;
    let mut population = Population::create_population_initialized(40, 2, 1);
    for _ in 0..12 {
        population.evolve(&environment, &arith, &p).unwrap();
        assert_eq!(population.size(), 40);
    }
}

#[test]
fn neuron_ids_stay_below_the_innovation_counter() {
    let arith = HostArith;
    let p = NeatParams::default(2, 1);
    let environment = ConstantOne;
    let mut population = Population::create_population_initialized(20, 2, 1);
    let mut last_innovation = population.innovation_id;
    for _ in 0..15 {
        population.evolve(&environment, &arith, &p).unwrap();
        assert!(population.innovation_id >= last_innovation);
        last_innovation = population.innovation_id;
        for organism in population.get_organisms() {
            let genome = &organism.genome;
            for n in 0..genome.n_neurons() {
                assert!(genome.neuron_at(n).0 < population.innovation_id);
            }
        }
    }
}

#[test]
fn every_organism_lands_in_exactly_one_species() {
    let arith = HostArith;
    let p = NeatParams::default(1, 1);
    let mut population = Population::create_population(30);
    for organism in &mut population.species[0].organisms {
        let mut innovation = population.innovation_id;
        organism.mutate(&mut innovation, &arith, &p);
        population.innovation_id = innovation;
    }
    let before = population.size();
    population.speciate(&arith, &p);
    assert_eq!(population.size(), before);
    let mut total = 0;
    for specie in &population.species {
        assert!(specie.organisms.len() > 0);
        total += specie.organisms.len();
    }
    assert_eq!(total, before);
}

#[test]
fn negative_fitness_is_a_fatal_error() {
    struct NegativeEnvironment;

    impl Environment for NegativeEnvironment {
        fn test(&self, _: &NeuralNetwork) -> RealBits {
            (-1.0f64).to_bits()
        }
    }

    let mut population = Population::create_population(3);
    let r = population.evaluate_in(&NegativeEnvironment);
    assert_eq!(r, Err(NeatError::InvalidFitness));
}

#[test]
fn non_finite_fitness_is_a_fatal_error() {
    struct NanEnvironment;

    impl Environment for NanEnvironment {
        fn test(&self, _: &NeuralNetwork) -> RealBits {
            f64::NAN.to_bits()
        }
    }

    let mut population = Population::create_population(3);
    let r = population.evaluate_in(&NanEnvironment);
    assert_eq!(r, Err(NeatError::InvalidFitness));
}

#[test]
fn negative_zero_fitness_is_normalized() {
    struct NegZeroEnvironment;

    impl Environment for NegZeroEnvironment {
        fn test(&self, _: &NeuralNetwork) -> RealBits {
            (-0.0f64).to_bits()
        }
    }

    let mut population = Population::create_population(3);
    population.evaluate_in(&NegZeroEnvironment).unwrap();
    for organism in population.get_organisms() {
        assert_eq!(organism.fitness, 0);
    }
}

#[test]
fn stagnation_kills_the_non_elite_species() {
    let arith = HostArith;
    let p = NeatParams {
        remove_after_n_generations: 2,
        species_elite: 1,
        mutation_pr: 0,
        interspecie_mate_pr: 0,
        mutate_add_conn_pr: 0,
        mutate_add_neuron_pr: 0,
        mutate_toggle_expr_pr: 0,
        weight_mutate_pr: 0,
        weight_replace_pr: 0,
        bias_mutate_pr: 0,
        bias_replace_pr: 0,
        ..NeatParams::default(1, 1)
    };

    struct WeightEnvironment;

    impl Environment for WeightEnvironment {
        fn test(&self, genome: &NeuralNetwork) -> RealBits {
            let w = f64::from_bits(genome.get_connection(0, 0).unwrap().weight);
            if w < 15.0 {
                2.0f64.to_bits()
            } else {
                1.0f64.to_bits()
            }
        }
    }

    let mut genome_a = NeuralNetwork::with_neurons(1);
    genome_a.add_connection(0, 0, bits(0.0));
    let mut genome_b = NeuralNetwork::with_neurons(1);
    genome_b.add_connection(0, 0, bits(30.0));

    let mut specie_a = Specie::new(Organism::new(genome_a.duplicate()), 0);
    specie_a.organisms.push(Organism::new(genome_a));
    let mut specie_b = Specie::new(Organism::new(genome_b.duplicate()), 1);
    specie_b.organisms.push(Organism::new(genome_b));

    let mut population = Population::create_population(4);
    population.species = vec![specie_a, specie_b];
    population.next_specie_id = 2;
    let environment = WeightEnvironment;
    population.evaluate_in(&environment).unwrap();

    for _ in 0..3 {
        population.evolve(&environment, &arith, &p).unwrap();
    }
    assert_eq!(population.size(), 4);
    for organism in population.get_organisms() {
        let w = f64::from_bits(organism.genome.get_connection(0, 0).unwrap().weight);
        assert!(w < 15.0, "stagnant species should be gone, found weight {w}");
    }
}

#[test]
fn best_fitness_never_falls_on_the_xor_task() {
    let arith = HostArith;
    let p = NeatParams::default(2, 1);
    let environment = XorClassification;
    let mut population = Population::create_population_initialized(50, 2, 1);
    let mut last_best: f64 = 0.0;
    let mut first_best: f64 = -1.0;
    for _ in 0..40 {
        population.evolve(&environment, &arith, &p).unwrap();
        let best = f64::from_bits(population.champion_fitness);
        if first_best < 0.0 {
            first_best = best;
        }
        assert!(
            best >= last_best,
            "best fitness fell from {last_best} to {best}"
        );
        last_best = best;
    }
    assert!(last_best >= first_best);
    assert!(last_best > 0.0);
}

#[test]
fn champion_bookkeeping_tracks_the_best_member() {
    let mut organism1 = Organism::new(NeuralNetwork::default());
    organism1.fitness = bits(1.0);
    let mut organism2 = Organism::new(NeuralNetwork::default());
    organism2.fitness = bits(3.0);
    let mut specie = Specie::new(Organism::new(NeuralNetwork::default()), 0);
    specie.add(organism1);
    specie.add(organism2);
    assert_eq!(specie.organisms.len(), 3);
    let champ = specie.get_champion();
    assert_eq!(f64::from_bits(champ.fitness), 3.0);
    specie.update_champion();
    assert_eq!(f64::from_bits(specie.champion_fitness()), 3.0);
    let rep = specie.get_representative();
    assert_eq!(rep.genome.n_neurons(), 1);
    specie.remove_organisms();
    assert_eq!(specie.organisms.len(), 0);
}

#[test]
fn epochs_without_improvements_counts_flat_runs() {
    let mut population = Population::create_population(5);
    let environment = MyEnvironment;
    population.evaluate_in(&environment).unwrap();
    assert_eq!(population.epochs_without_improvements(), 0);
    population.evaluate_in(&environment).unwrap();
    population.evaluate_in(&environment).unwrap();
    assert_eq!(population.epochs_without_improvements(), 2);
    assert_eq!(
        f64::from_bits(population.champion_fitness),
        0.1234
    );
    assert!(population.champion.is_some());
}
