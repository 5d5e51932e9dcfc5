//! Gene, mutation, crossover and distance behaviour of single genomes.

use rustneat::arith::RealArith;
use rustneat::gene::ConnectionGene;
use rustneat::genome::NeuralNetwork;
use rustneat::mutation::Mutation;
use rustneat::params::NeatParams;
use rustneat::RealBits;
use rand::RngExt;

/// Host arithmetic: each `u64` is the bit pattern of an `f64`.
struct HostArith;

impl RealArith for HostArith {
    fn plus(&self, a: RealBits, b: RealBits) -> RealBits {
        (f64::from_bits(a) + f64::from_bits(b)).to_bits()
    }

    fn minus(&self, a: RealBits, b: RealBits) -> RealBits {
        (f64::from_bits(a) - f64::from_bits(b)).to_bits()
    }

    fn times(&self, a: RealBits, b: RealBits) -> RealBits {
        (f64::from_bits(a) * f64::from_bits(b)).to_bits()
    }

    fn div_by(&self, a: RealBits, b: RealBits) -> RealBits {
        (f64::from_bits(a) / f64::from_bits(b)).to_bits()
    }

    fn abs_diff(&self, a: RealBits, b: RealBits) -> RealBits {
        (f64::from_bits(a) - f64::from_bits(b)).abs().to_bits()
    }

    fn less_than(&self, a: RealBits, b: RealBits) -> bool {
        f64::from_bits(a) < f64::from_bits(b)
    }

    fn of_usize(&self, n: usize) -> RealBits {
        (n as f64).to_bits()
    }

    fn to_usize(&self, a: RealBits) -> usize {
        f64::from_bits(a) as usize
    }

    fn sigmoid(&self, a: RealBits) -> RealBits {
        let y = f64::from_bits(a) * 5.0;
        let y = y.clamp(-60.0, 60.0);
        (1.0 / (1.0 + (-y).exp())).to_bits()
    }

    fn gauss(&self, mean: RealBits, deviation: RealBits) -> RealBits {
        let mut rng = rand::rng();
        let u1: f64 = rng.random_range(f64::MIN_POSITIVE..1.0);
        let u2: f64 = rng.random_range(0.0..1.0);
        let z = (-2.0 * u1.ln()).sqrt() * (2.0 * std::f64::consts::PI * u2).cos();
        (f64::from_bits(mean) + f64::from_bits(deviation) * z).to_bits()
    }
}

fn bits(x: f64) -> RealBits {
    x.to_bits()
}

#[test]
fn mutate_toggle_gene_should_toggle() {
    let mut gene = ConnectionGene::new(0, 1, bits(1.0), false);
    <ConnectionGene as Mutation>::toggle_expression(&mut gene);
    assert!(gene.enabled);
    <ConnectionGene as Mutation>::toggle_expression(&mut gene);
    assert!(!gene.enabled);
}

#[test]
fn mutation_connection_weight() {
    let arith = HostArith;
    let p = NeatParams {
        weight_mutate_pr: rustneat::arith::PROB_ONE,
        ..NeatParams::default(1, 1)
    };
    let mut genome = NeuralNetwork::with_neurons(1);
    genome.add_connection(0, 0, bits(0.0));
    let mut innovation: usize = 1;
    genome.mutate(&mut innovation, &arith, &p);
    let gene = genome.get_connection(0, 0).unwrap();
    assert!(f64::from_bits(gene.weight).abs() > f64::EPSILON);
}

#[test]
fn mutation_add_connection() {
    let mut genome = NeuralNetwork::with_neurons(3);
    genome.add_connection(1, 2, bits(0.0));
    let gene = genome.get_connection(1, 2).unwrap();
    assert!(gene.in_neuron_id() == 1);
    assert!(gene.out_neuron_id() == 2);
}

#[test]
fn mutation_add_neuron() {
    let arith = HostArith;
    let p = NeatParams::default(1, 1);
    let mut genome = NeuralNetwork::with_neurons(1);
    genome.mutate_add_connection(&arith, &p);
    genome.mutate_add_neuron(1);
    let c0 = genome.connection_at(0).1;
    let c1 = genome.connection_at(1).1;
    let c2 = genome.connection_at(2).1;
    assert!(!c0.enabled);
    assert!(c1.in_neuron_id() == c0.in_neuron_id());
    assert!(c1.out_neuron_id() == 1);
    assert!(c2.in_neuron_id() == 1);
    assert!(c2.out_neuron_id() == c0.out_neuron_id());
}

#[test]
fn adding_an_existing_gene_disabled_should_enable_original() {
    let mut genome = NeuralNetwork::with_neurons(2);
    genome.add_connection(0, 1, bits(0.0));
    genome.mutate_add_neuron(2);
    let orig_conn = genome.get_connection(0, 1).unwrap();
    assert!(!orig_conn.enabled);
    assert!(genome.n_connections() == 3);
    genome.add_connection(0, 1, bits(1.0));
    let orig_conn = genome.connection_at(0).1;
    assert!(orig_conn.enabled);
    assert_eq!(f64::from_bits(orig_conn.weight), 1.0);
    assert_eq!(genome.n_connections(), 3);
}

#[test]
fn two_genomes_with_little_differences_should_be_in_same_specie() {
    let arith = HostArith;
    let mut genome1 = NeuralNetwork::with_neurons(2);
    genome1.add_connection(0, 0, bits(1.0));
    genome1.add_connection(0, 1, bits(1.0));
    let mut genome2 = NeuralNetwork::with_neurons(3);
    genome2.add_connection(0, 0, bits(0.0));
    genome2.add_connection(0, 1, bits(0.0));
    genome2.add_connection(0, 2, bits(0.0));
    assert!(genome1.is_same_specie(&genome2, &arith, &NeatParams::default(1, 1)));
}

#[test]
fn two_genomes_with_big_difference_should_be_in_different_species() {
    let arith = HostArith;
    let p = NeatParams {
        compatibility_threshold: bits(3.0),
        distance_weight_coef: bits(1.0),
        distance_disjoint_coef: bits(1.0),
        ..NeatParams::default(1, 1)
    };
    let mut genome1 = NeuralNetwork::with_neurons(2);
    genome1.add_connection(0, 0, bits(1.0));
    genome1.add_connection(0, 1, bits(1.0));
    let mut genome2 = NeuralNetwork::with_neurons(4);
    genome2.add_connection(0, 0, bits(5.0));
    genome2.add_connection(0, 1, bits(5.0));
    genome2.add_connection(0, 2, bits(1.0));
    genome2.add_connection(0, 3, bits(1.0));
    assert!(!genome1.is_same_specie(&genome2, &arith, &p));
}

#[test]
fn genomes_with_same_genes_with_little_differences_on_weight_should_be_in_same_specie() {
    let arith = HostArith;
    let mut genome1 = NeuralNetwork::with_neurons(1);
    genome1.add_connection(0, 0, bits(16.0));
    let mut genome2 = NeuralNetwork::with_neurons(1);
    genome2.add_connection(0, 0, bits(16.1));
    assert!(genome1.is_same_specie(&genome2, &arith, &NeatParams::default(1, 1)));
}

#[test]
fn genomes_with_big_weight_difference_should_be_in_other_specie() {
    let arith = HostArith;
    let p = NeatParams::default(1, 1);
    let mut genome1 = NeuralNetwork::with_neurons(1);
    genome1.add_connection(0, 0, bits(0.0));
    let mut genome2 = NeuralNetwork::with_neurons(1);
    genome2.add_connection(0, 0, bits(30.0));
    assert!(!genome1.is_same_specie(&genome2, &arith, &p));
}

#[test]
fn distance_on_one_common_connection_is_the_weight_difference_scaled() {
    let arith = HostArith;
    let p = NeatParams::default(1, 1);
    let mut genome1 = NeuralNetwork::with_neurons(1);
    genome1.add_connection(0, 0, bits(16.0));
    let mut genome2 = NeuralNetwork::with_neurons(1);
    genome2.add_connection(0, 0, bits(16.1));
    let d = genome1.distance(&genome2, &arith, &p);
    let expected = 0.1 * f64::from_bits(p.distance_weight_coef) / 1.0;
    assert!((f64::from_bits(d) - expected).abs() < 1e-12);
    assert!(genome1.is_same_specie(&genome2, &arith, &p));
}

#[test]
fn distance_is_symmetric() {
    let arith = HostArith;
    let p = NeatParams::default(1, 1);
    let mut genome1 = NeuralNetwork::with_neurons(2);
    genome1.add_connection(0, 1, bits(1.5));
    genome1.add_connection(1, 1, bits(-0.5));
    let mut genome2 = NeuralNetwork::with_neurons(3);
    genome2.add_connection(0, 1, bits(2.5));
    genome2.add_connection(2, 1, bits(0.25));
    let d12 = genome1.distance(&genome2, &arith, &p);
    let d21 = genome2.distance(&genome1, &arith, &p);
    assert_eq!(d12, d21);
}

#[test]
fn distance_to_itself_is_zero() {
    let arith = HostArith;
    let p = NeatParams::default(1, 1);
    let mut genome = NeuralNetwork::with_neurons(3);
    genome.add_connection(0, 1, bits(1.5));
    genome.add_connection(1, 2, bits(-2.5));
    let d = genome.distance(&genome, &arith, &p);
    assert_eq!(f64::from_bits(d), 0.0);
}

#[test]
fn crossover_keeps_the_fitter_parents_disjoint_connection() {
    let mut a = rustneat::organism::Organism::new(NeuralNetwork::with_neurons(3));
    a.genome.add_connection(0, 1, bits(0.25));
    a.fitness = bits(2.0);
    let mut b = rustneat::organism::Organism::new(NeuralNetwork::with_neurons(3));
    b.genome.add_connection(0, 1, bits(0.75));
    b.genome.add_connection(1, 2, bits(0.5));
    b.fitness = bits(1.0);
    let child = a.mate(&b);
    assert_eq!(child.genome.n_connections(), 1);
    let c = child.genome.get_connection(0, 1).unwrap();
    let w = f64::from_bits(c.weight);
    assert!(w == 0.25 || w == 0.75);
    assert!(child.genome.get_connection(1, 2).is_none());
}

#[test]
fn mutation_gates_at_zero_change_nothing() {
    let arith = HostArith;
    let p = NeatParams {
        mutation_pr: 0,
        mutate_add_conn_pr: 0,
        mutate_add_neuron_pr: 0,
        mutate_toggle_expr_pr: 0,
        weight_mutate_pr: 0,
        weight_replace_pr: 0,
        bias_mutate_pr: 0,
        bias_replace_pr: 0,
        ..NeatParams::default(1, 1)
    };
    let mut genome = NeuralNetwork::with_neurons(2);
    genome.add_connection(0, 1, bits(0.625));
    let mut innovation: usize = 2;
    genome.mutate(&mut innovation, &arith, &p);
    assert_eq!(innovation, 2);
    assert_eq!(genome.n_neurons(), 2);
    assert_eq!(genome.n_connections(), 1);
    let c = genome.get_connection(0, 1).unwrap();
    assert!(c.enabled);
    assert_eq!(f64::from_bits(c.weight), 0.625);
}

#[test]
fn reference_integrity_holds_after_many_mutations() {
    let arith = HostArith;
    let p = NeatParams::default(1, 1);
    let mut genome = NeuralNetwork::with_neurons(2);
    let mut innovation: usize = 2;
    for _ in 0..50 {
        genome.mutate(&mut innovation, &arith, &p);
    }
    for c in 0..genome.n_connections() {
        let (key, gene) = genome.connection_at(c);
        assert_eq!(key, (gene.in_neuron_id(), gene.out_neuron_id()));
        assert!(genome.get_neuron(key.0).is_some());
        assert!(genome.get_neuron(key.1).is_some());
    }
    for n in 0..genome.n_neurons() {
        let (id, _) = genome.neuron_at(n);
        assert!(id < innovation);
    }
}

#[test]
fn default_parameters_encode_the_classic_values() {
    let p = NeatParams::default(2, 1);
    assert_eq!(p.n_inputs, 2);
    assert_eq!(p.n_outputs, 1);
    let scale = rustneat::arith::PROB_ONE as f64;
    assert_eq!(p.mutation_pr, (0.5f64 * scale).ceil() as u64);
    assert_eq!(p.interspecie_mate_pr, (0.001f64 * scale).ceil() as u64);
    assert_eq!(p.cull_fraction, (0.2f64 * scale).ceil() as u64);
    assert_eq!(p.weight_mutate_pr, (0.8f64 * scale).ceil() as u64);
    assert_eq!(p.bias_mutate_pr, (0.7f64 * scale).ceil() as u64);
    assert_eq!(f64::from_bits(p.compatibility_threshold), 3.0);
    assert_eq!(f64::from_bits(p.distance_weight_coef), 0.5);
    assert_eq!(f64::from_bits(p.distance_disjoint_coef), 1.0);
    assert_eq!(f64::from_bits(p.weight_init_var), 1.0);
    let x = NeatParams::optimized_for_xor3(3, 1);
    assert_eq!(x.remove_after_n_generations, 25);
    assert_eq!(x.species_elite, 4);
    assert_eq!(x.mutation_pr, (0.8179486080006981f64 * scale).ceil() as u64);
    assert_eq!(
        f64::from_bits(x.compatibility_threshold),
        3.0772944943236347
    );
}

#[test]
fn gene_accessors_roundtrip() {
    let mut gene = ConnectionGene::new(3, 7, bits(1.25), true);
    assert_eq!(gene.id(), (3, 7));
    assert_eq!(f64::from_bits(gene.weight()), 1.25);
    assert!(gene.enabled());
    gene.set_disabled();
    assert!(!gene.enabled());
    gene.set_enabled();
    assert!(gene.enabled());
    gene.set_weight(bits(-2.5));
    assert_eq!(f64::from_bits(gene.weight()), -2.5);
    assert_eq!(gene.in_neuron_id(), 3);
    assert_eq!(gene.out_neuron_id(), 7);
}

#[test]
fn get_genes_lists_connections_in_insertion_order() {
    let mut genome = NeuralNetwork::with_neurons(3);
    genome.add_connection(0, 1, bits(1.0));
    genome.add_connection(2, 0, bits(2.0));
    let genes = genome.get_genes();
    assert_eq!(genes.len(), 2);
    assert_eq!(genes[0].id(), (0, 1));
    assert_eq!(genes[1].id(), (2, 0));
    assert_eq!(f64::from_bits(genes[1].weight), 2.0);
}

#[test]
fn total_weights_sums_the_connections() {
    let arith = HostArith;
    let mut genome = NeuralNetwork::with_neurons(2);
    assert_eq!(f64::from_bits(genome.total_weights(&arith)), 0.0);
    genome.add_connection(0, 1, bits(1.5));
    genome.add_connection(1, 0, bits(2.0));
    assert_eq!(f64::from_bits(genome.total_weights(&arith)), 3.5);
}

#[test]
fn duplicate_copies_the_genome_exactly() {
    let mut genome = NeuralNetwork::with_neurons(2);
    genome.add_connection(0, 1, bits(0.75));
    let copy = genome.duplicate();
    assert_eq!(copy.n_neurons(), 2);
    assert_eq!(copy.n_connections(), 1);
    let c = copy.get_connection(0, 1).unwrap();
    assert_eq!(f64::from_bits(c.weight), 0.75);
    assert!(c.enabled);
}
