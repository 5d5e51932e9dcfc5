//! The parameter bundle: every numeric knob of the algorithm.
//!
//! Probabilities are exact dyadic fractions (a numerator over `2^53`,
//! see [`crate::arith::PROB_ONE`]); the remaining real-valued knobs are
//! IEEE-754 double bits.  The constants below are the bit patterns and
//! numerators of the classic default values.

use vstd::prelude::*;
use crate::RealBits;

verus! {

/// Contains all parameters for the NEAT algorithm.  A reference to
/// `NeatParams` is passed around internally; usually you only need to
/// give it to `Population::evolve`.
#[derive(Clone, Copy, Debug)]
pub struct NeatParams {
    /// Number of inputs to the neural network.  Only used by callers to
    /// seed genomes with a certain amount of neurons.
    pub n_inputs: usize,
    /// Number of outputs to the neural network.  Only used by callers
    /// to seed genomes with a certain amount of neurons.
    pub n_outputs: usize,
    /// Maximum number of generations without improvement in a species,
    /// before that species is removed.
    pub remove_after_n_generations: usize,
    /// Number of best species that cannot be removed due to stagnation.
    pub species_elite: usize,
    /// The probability that a newly mated child is also mutated.
    pub mutation_pr: u64,
    /// The probability that an organism mates with an organism outside
    /// of its species.
    pub interspecie_mate_pr: u64,
    /// The fraction of organisms to cull from a species before
    /// selection (worst-performing ones), as a numerator over `2^53`.
    pub cull_fraction: u64,
    /// The probability of adding a connection during mutation.
    pub mutate_add_conn_pr: u64,
    /// The probability of deleting a connection during mutation
    /// (reserved; the current operators never delete).
    pub mutate_del_conn_pr: u64,
    /// The probability of adding a neuron during mutation.
    pub mutate_add_neuron_pr: u64,
    /// The probability of deleting a neuron during mutation (reserved;
    /// the current operators never delete).
    pub mutate_del_neuron_pr: u64,
    /// The probability of toggling the expression of a random
    /// connection during mutation.
    pub mutate_toggle_expr_pr: u64,
    /// The mean (normal distribution) of the weight of a new connection.
    pub weight_init_mean: RealBits,
    /// The spread (normal distribution) of the weight of a new
    /// connection.
    pub weight_init_var: RealBits,
    /// The spread (normal distribution) of a perturbation of the weight
    /// of an existing connection.
    pub weight_mutate_var: RealBits,
    /// The probability to perturb the weight of a connection (drawn for
    /// each connection individually) when mutating.
    pub weight_mutate_pr: u64,
    /// The probability to replace the weight of a connection (drawn for
    /// each connection individually) when mutating.
    pub weight_replace_pr: u64,
    /// The mean (normal distribution) of the bias of a new neuron.
    pub bias_init_mean: RealBits,
    /// The spread (normal distribution) of the bias of a new neuron.
    pub bias_init_var: RealBits,
    /// The spread (normal distribution) of a perturbation of the bias
    /// of an existing neuron.
    pub bias_mutate_var: RealBits,
    /// The probability to perturb the bias of a neuron (drawn for each
    /// neuron individually) when mutating.
    pub bias_mutate_pr: u64,
    /// The probability to replace the bias of a neuron (drawn for each
    /// neuron individually) when mutating.
    pub bias_replace_pr: u64,
    /// The probability, during mating, of including a gene that is
    /// disjoint or excess from the least fit organism (reserved).
    pub include_weak_disjoint_gene: u64,
    /// Threshold for the compatibility distance between organisms,
    /// under which they belong to the same species.
    pub compatibility_threshold: RealBits,
    /// How much connection weights and neuron biases contribute to the
    /// distance.
    pub distance_weight_coef: RealBits,
    /// How much disjoint (not in common) connections and neurons
    /// contribute to the distance.
    pub distance_disjoint_coef: RealBits,
}

impl NeatParams {
    /// Sane default parameters: the numerators encode the probabilities
    /// 0.5, 0.001, 0.2, 0.5, 0.5, 0.1, 0.1, 0.001, 0.8, 0.1, 0.7 and
    /// 0.1, and the bit patterns the doubles 0.0, 1.0, 0.5, 3.0.
    pub fn default(n_inputs: usize, n_outputs: usize) -> (r: NeatParams)
        ensures
            r.n_inputs == n_inputs,
            r.n_outputs == n_outputs,
            r.remove_after_n_generations == 20,
            r.species_elite == 2,
            r.mutation_pr == 4503599627370496,
            r.interspecie_mate_pr == 9007199254741,
            r.cull_fraction == 1801439850948199,
            r.mutate_add_conn_pr == 4503599627370496,
            r.mutate_del_conn_pr == 4503599627370496,
            r.mutate_add_neuron_pr == 900719925474100,
            r.mutate_del_neuron_pr == 900719925474100,
            r.mutate_toggle_expr_pr == 9007199254741,
            r.weight_init_mean == 0,
            r.weight_init_var == 0x3ff0000000000000,
            r.weight_mutate_var == 0x3fe0000000000000,
            r.weight_mutate_pr == 7205759403792794,
            r.weight_replace_pr == 900719925474100,
            r.bias_init_mean == 0,
            r.bias_init_var == 0x3ff0000000000000,
            r.bias_mutate_var == 0x3fe0000000000000,
            r.bias_mutate_pr == 6305039478318694,
            r.bias_replace_pr == 900719925474100,
            r.include_weak_disjoint_gene == 1801439850948199,
            r.compatibility_threshold == 0x4008000000000000,
            r.distance_weight_coef == 0x3fe0000000000000,
            r.distance_disjoint_coef == 0x3ff0000000000000,
    {
        NeatParams {
            n_inputs,
            n_outputs,
            remove_after_n_generations: 20,
            species_elite: 2,
            mutation_pr: 4503599627370496,
            interspecie_mate_pr: 9007199254741,
            cull_fraction: 1801439850948199,
            mutate_add_conn_pr: 4503599627370496,
            mutate_del_conn_pr: 4503599627370496,
            mutate_add_neuron_pr: 900719925474100,
            mutate_del_neuron_pr: 900719925474100,
            mutate_toggle_expr_pr: 9007199254741,
            weight_init_mean: 0,
            weight_init_var: 0x3ff0000000000000,
            weight_mutate_var: 0x3fe0000000000000,
            weight_mutate_pr: 7205759403792794,
            weight_replace_pr: 900719925474100,
            bias_init_mean: 0,
            bias_init_var: 0x3ff0000000000000,
            bias_mutate_var: 0x3fe0000000000000,
            bias_mutate_pr: 6305039478318694,
            bias_replace_pr: 900719925474100,
            include_weak_disjoint_gene: 1801439850948199,
            compatibility_threshold: 0x4008000000000000,
            distance_weight_coef: 0x3fe0000000000000,
            distance_disjoint_coef: 0x3ff0000000000000,
        }
    }

    /// Parameters tuned for three-input XOR runs (100 generations,
    /// population 26, 250 iterations).
    pub fn optimized_for_xor3(n_inputs: usize, n_outputs: usize) -> (r: NeatParams)
        ensures
            r.n_inputs == n_inputs,
            r.n_outputs == n_outputs,
            r.remove_after_n_generations == 25,
            r.species_elite == 4,
            r.mutation_pr == 7367426092400320,
            r.interspecie_mate_pr == 7086395674260,
            r.cull_fraction == 1539920277369113,
            r.mutate_add_conn_pr == 4031077719038092,
            r.mutate_del_conn_pr == 1124816627158292,
            r.mutate_add_neuron_pr == 167217319490797,
            r.mutate_del_neuron_pr == 293974391410444,
            r.mutate_toggle_expr_pr == 9007199254741,
            r.weight_init_mean == 0,
            r.weight_init_var == 0x3fee1f2a2bd36034,
            r.weight_mutate_var == 0x3feb532da0f59e70,
            r.weight_mutate_pr == 2646762189283643,
            r.weight_replace_pr == 184771196578102,
            r.bias_init_mean == 0,
            r.bias_init_var == 0x3fede90366cb4b82,
            r.bias_mutate_var == 0x3fd019312f1fb9a1,
            r.bias_mutate_pr == 2313270938431202,
            r.bias_replace_pr == 1235876459600520,
            r.include_weak_disjoint_gene == 2632788793957694,
            r.compatibility_threshold == 0x40089e4c936a3f38,
            r.distance_weight_coef == 0x3fd4a7921d29c5fe,
            r.distance_disjoint_coef == 0x3fe7dd0305f54c1a,
    {
        NeatParams {
            n_inputs,
            n_outputs,
            remove_after_n_generations: 25,
            species_elite: 4,
            mutation_pr: 7367426092400320,
            interspecie_mate_pr: 7086395674260,
            cull_fraction: 1539920277369113,
            mutate_add_conn_pr: 4031077719038092,
            mutate_del_conn_pr: 1124816627158292,
            mutate_add_neuron_pr: 167217319490797,
            mutate_del_neuron_pr: 293974391410444,
            mutate_toggle_expr_pr: 9007199254741,
            weight_init_mean: 0,
            weight_init_var: 0x3fee1f2a2bd36034,
            weight_mutate_var: 0x3feb532da0f59e70,
            weight_mutate_pr: 2646762189283643,
            weight_replace_pr: 184771196578102,
            bias_init_mean: 0,
            bias_init_var: 0x3fede90366cb4b82,
            bias_mutate_var: 0x3fd019312f1fb9a1,
            bias_mutate_pr: 2313270938431202,
            bias_replace_pr: 1235876459600520,
            include_weak_disjoint_gene: 2632788793957694,
            compatibility_threshold: 0x40089e4c936a3f38,
            distance_weight_coef: 0x3fd4a7921d29c5fe,
            distance_disjoint_coef: 0x3fe7dd0305f54c1a,
        }
    }
}

} // verus!
