//! Activation of the continuous-time recurrent network encoded by a
//! genome.

use rustneat::arith::RealArith;
use rustneat::genome::NeuralNetwork;
use rustneat::RealBits;
use rand::RngExt;

/// Host arithmetic: each `u64` is the bit pattern of an `f64`.
struct HostArith;

impl RealArith for HostArith {
    fn plus(&self, a: RealBits, b: RealBits) -> RealBits {
        (f64::from_bits(a) + f64::from_bits(b)).to_bits()
    }

    fn minus(&self, a: RealBits, b: RealBits) -> RealBits {
        (f64::from_bits(a) - f64::from_bits(b)).to_bits()
    }

    fn times(&self, a: RealBits, b: RealBits) -> RealBits {
        (f64::from_bits(a) * f64::from_bits(b)).to_bits()
    }

    fn div_by(&self, a: RealBits, b: RealBits) -> RealBits {
        (f64::from_bits(a) / f64::from_bits(b)).to_bits()
    }

    fn abs_diff(&self, a: RealBits, b: RealBits) -> RealBits {
        (f64::from_bits(a) - f64::from_bits(b)).abs().to_bits()
    }

    fn less_than(&self, a: RealBits, b: RealBits) -> bool {
        f64::from_bits(a) < f64::from_bits(b)
    }

    fn of_usize(&self, n: usize) -> RealBits {
        (n as f64).to_bits()
    }

    fn to_usize(&self, a: RealBits) -> usize {
        f64::from_bits(a) as usize
    }

    fn sigmoid(&self, a: RealBits) -> RealBits {
        let y = f64::from_bits(a) * 5.0;
        let y = y.clamp(-60.0, 60.0);
        (1.0 / (1.0 + (-y).exp())).to_bits()
    }

    fn gauss(&self, mean: RealBits, deviation: RealBits) -> RealBits {
        let mut rng = rand::rng();
        let u1: f64 = rng.random_range(f64::MIN_POSITIVE..1.0);
        let u2: f64 = rng.random_range(0.0..1.0);
        let z = (-2.0 * u1.ln()).sqrt() * (2.0 * std::f64::consts::PI * u2).cos();
        (f64::from_bits(mean) + f64::from_bits(deviation) * z).to_bits()
    }
}

fn bits(x: f64) -> RealBits {
    x.to_bits()
}

fn bits_vec(xs: &[f64]) -> Vec<RealBits> {
    xs.iter().map(|x| x.to_bits()).collect()
}

fn floats(xs: &[RealBits]) -> Vec<f64> {
    xs.iter().map(|x| f64::from_bits(*x)).collect()
}

#[test]
fn should_propagate_signal_without_hidden_layers() {
    let arith = HostArith;
    let mut organism = NeuralNetwork::with_neurons(2);
    organism.add_connection(0, 1, bits(5.0));
    let sensors = bits_vec(&[7.5]);
    let mut output = bits_vec(&[0.0]);
    organism.activate(&arith, sensors, &mut output);
    let out = f64::from_bits(output[0]);
    assert!(out > 0.9, "{:?} is not bigger than 0.9", out);

    let mut organism = NeuralNetwork::with_neurons(2);
    organism.add_connection(0, 1, bits(-2.0));
    let sensors = bits_vec(&[1.0]);
    let mut output = bits_vec(&[0.0]);
    organism.activate(&arith, sensors, &mut output);
    let out = f64::from_bits(output[0]);
    assert!(out < 0.1, "{:?} is not smaller than 0.1", out);
}

#[test]
fn should_propagate_signal_over_hidden_layers() {
    let arith = HostArith;
    let mut organism = NeuralNetwork::with_neurons(3);
    organism.add_connection(0, 1, bits(0.0));
    organism.add_connection(0, 2, bits(5.0));
    organism.add_connection(2, 1, bits(5.0));
    let sensors = bits_vec(&[0.0]);
    let mut output = bits_vec(&[0.0]);
    organism.activate(&arith, sensors, &mut output);
    let out = f64::from_bits(output[0]);
    assert!(out > 0.9, "{:?} is not bigger than 0.9", out);
}

#[test]
fn should_work_with_cyclic_networks() {
    let arith = HostArith;
    let mut organism = NeuralNetwork::with_neurons(3);
    organism.add_connection(0, 1, bits(2.0));
    organism.add_connection(1, 2, bits(2.0));
    organism.add_connection(2, 1, bits(2.0));
    let mut output = bits_vec(&[0.0]);
    organism.activate(&arith, bits_vec(&[1.0]), &mut output);
    let out = f64::from_bits(output[0]);
    assert!(out > 0.9, "{:?} is not bigger than 0.9", out);

    let mut organism = NeuralNetwork::with_neurons(3);
    organism.add_connection(0, 1, bits(-2.0));
    organism.add_connection(1, 2, bits(-2.0));
    organism.add_connection(2, 1, bits(-2.0));
    let mut output = bits_vec(&[0.0]);
    organism.activate(&arith, bits_vec(&[1.0]), &mut output);
    let out = f64::from_bits(output[0]);
    assert!(out < 0.1, "{:?} is not smaller than 0.1", out);
}

#[test]
fn activate_organims_sensor_without_enough_neurons_should_ignore_it() {
    let arith = HostArith;
    let mut organism = NeuralNetwork::with_neurons(2);
    organism.add_connection(0, 1, bits(1.0));
    let sensors = bits_vec(&[0.0, 0.0, 0.0]);
    let mut output = bits_vec(&[0.0]);
    organism.activate(&arith, sensors, &mut output);
}

#[test]
fn should_allow_multiple_output() {
    let arith = HostArith;
    let mut organism = NeuralNetwork::with_neurons(2);
    organism.add_connection(0, 1, bits(1.0));
    let sensors = bits_vec(&[0.0]);
    let mut output = bits_vec(&[0.0, 0.0]);
    organism.activate(&arith, sensors, &mut output);
}

#[test]
fn should_be_able_to_get_correct_matrix_representation_of_connections() {
    let mut organism = NeuralNetwork::with_neurons(3);
    organism.add_connection(0, 1, bits(1.0));
    organism.add_connection(1, 2, bits(0.5));
    organism.add_connection(2, 1, bits(0.5));
    organism.add_connection(2, 2, bits(0.75));
    organism.add_connection(1, 0, bits(1.0));
    assert_eq!(
        floats(&organism.get_weights()),
        vec![0.0, 1.0, 0.0, 1.0, 0.0, 0.5, 0.0, 0.5, 0.75]
    );
}

#[test]
fn disabled_connections_leave_zeroes_in_the_matrix() {
    let mut organism = NeuralNetwork::with_neurons(2);
    organism.add_connection(0, 1, bits(2.0));
    organism.mutate_add_neuron(2);
    let weights = floats(&organism.get_weights());
    assert_eq!(weights.len(), 9);
    assert_eq!(weights[1 * 3 + 0], 0.0);
    assert_eq!(weights[2 * 3 + 0], 1.0);
    assert_eq!(weights[1 * 3 + 2], 2.0);
}

#[test]
fn should_not_raise_exception_if_less_neurons_than_required() {
    let arith = HostArith;
    let mut organism = NeuralNetwork::with_neurons(2);
    organism.add_connection(0, 1, bits(1.0));
    let sensors = bits_vec(&[0.0, 0.0, 0.0]);
    let mut output = bits_vec(&[0.0, 0.0, 0.0]);
    organism.activate(&arith, sensors, &mut output);
    assert_eq!(f64::from_bits(output[1]), 0.0);
    assert_eq!(f64::from_bits(output[2]), 0.0);
}

#[test]
fn bias_replacement_changes_the_bias_vector() {
    let arith = HostArith;
    let mut organism = NeuralNetwork::with_neurons(2);
    organism.add_connection(0, 1, bits(0.0));
    let mut innovation: usize = 2;
    let p = rustneat::params::NeatParams {
        bias_replace_pr: rustneat::arith::PROB_ONE,
        bias_mutate_pr: 0,
        mutation_pr: 0,
        mutate_add_conn_pr: 0,
        mutate_add_neuron_pr: 0,
        mutate_toggle_expr_pr: 0,
        weight_mutate_pr: 0,
        weight_replace_pr: 0,
        ..rustneat::params::NeatParams::default(1, 1)
    };
    organism.mutate(&mut innovation, &arith, &p);
    let b0 = f64::from_bits(organism.get_bias()[0]);
    assert!(b0 != 0.0);
}
