//! The continuous-time recurrent evaluator: a stateless pure function
//! from a genome snapshot and an input vector to an output vector, via
//! a fixed number of Euler steps.  The matrix layout, padding,
//! truncation and output placement are verified exactly; the real
//! arithmetic of each step is the host's.

use vstd::prelude::*;
use crate::RealBits;
use crate::arith::{RealArith, ONE_BITS, ZERO_BITS};
use crate::genome::NeuralNetwork;

verus! {

/// One evaluation of a continuous-time recurrent network, all values
/// as double bits: initial state `y`, step size `delta_t`, time
/// constants `tau`, row-major weights `wij`, biases `theta` and
/// external input `i`.
pub struct Ctrnn<'a> {
    /// Initial state of the neurons.
    pub y: &'a Vec<RealBits>,
    /// Step size of the Euler integration.
    pub delta_t: RealBits,
    /// Time constants, one per neuron.
    pub tau: &'a Vec<RealBits>,
    /// Row-major `N × N` weight matrix.
    pub wij: &'a Vec<RealBits>,
    /// Biases, one per neuron.
    pub theta: &'a Vec<RealBits>,
    /// External input, one value per neuron.
    pub i: &'a Vec<RealBits>,
}

impl<'a> Ctrnn<'a> {
    /// All vectors agree on the number of neurons.
    pub open spec fn consistent(&self) -> bool {
        &&& self.y@.len() == self.theta@.len()
        &&& self.tau@.len() == self.theta@.len()
        &&& self.i@.len() == self.theta@.len()
        &&& self.wij@.len() == self.theta@.len() * self.theta@.len()
    }

    /// Run `steps` Euler iterations
    /// `y <- y + (delta_t / tau) * (W * sigma(y + theta) - y + i)`
    /// and return the final state, one value per neuron.
    pub fn activate_nn<A: RealArith>(&self, steps: usize, arith: &A) -> (r: Vec<RealBits>)
        requires
            self.consistent(),
        ensures
            r@.len() == self.theta@.len(),
    {
        let n = self.theta.len();
        let wij_len = self.wij.len();
        proof {
            assert(wij_len == self.wij@.len());
            assert(self.wij@.len() <= usize::MAX);
        }
        let mut y: Vec<RealBits> = Vec::new();
        let mut j: usize = 0;
        while j < n
            invariant
                j <= n,
                y@.len() == j,
                n == self.theta@.len(),
                self.consistent(),
            decreases n - j,
        {
            y.push(self.y[j]);
            j = j + 1;
        }
        let mut step: usize = 0;
        while step < steps
            invariant
                y@.len() == n,
                n == self.theta@.len(),
                self.consistent(),
            decreases steps - step,
        {
            let mut act: Vec<RealBits> = Vec::new();
            let mut j2: usize = 0;
            while j2 < n
                invariant
                    j2 <= n,
                    act@.len() == j2,
                    y@.len() == n,
                    n == self.theta@.len(),
                    self.consistent(),
                decreases n - j2,
            {
                act.push(arith.sigmoid(arith.plus(y[j2], self.theta[j2])));
                j2 = j2 + 1;
            }
            let mut next: Vec<RealBits> = Vec::new();
            let mut row: usize = 0;
            while row < n
                invariant
                    row <= n,
                    next@.len() == row,
                    act@.len() == n,
                    y@.len() == n,
                    n == self.theta@.len(),
                    self.consistent(),
                decreases n - row,
            {
                let mut acc: RealBits = ZERO_BITS;
                let mut col: usize = 0;
                while col < n
                    invariant
                        col <= n,
                        row < n,
                        act@.len() == n,
                        n == self.theta@.len(),
                        self.consistent(),
                    decreases n - col,
                {
                    proof {
                        assert(row * n + col < n * n) by (nonlinear_arith)
                            requires
                                row < n,
                                col < n,
                        ;
                        assert(n * n == self.wij@.len());
                        assert(self.wij@.len() <= usize::MAX);
                    }
                    acc = arith.plus(acc, arith.times(self.wij[row * n + col], act[col]));
                    col = col + 1;
                }
                let dtt = arith.times(arith.div_by(ONE_BITS, self.tau[row]), self.delta_t);
                let delta = arith.times(dtt, arith.plus(arith.minus(acc, y[row]), self.i[row]));
                next.push(arith.plus(y[row], delta));
                row = row + 1;
            }
            y = next;
            step = step + 1;
        }
        y
    }
}

impl NeuralNetwork {
    /// Activate the genome on an input vector, writing into the
    /// caller's output buffer.
    ///
    /// The first `inputs.len()` neurons (in insertion order) are the
    /// input slots: a longer input is truncated, a shorter one
    /// zero-padded.  The padded input is both the initial state and
    /// the external input of ten Euler steps with `tau = 1.0` and
    /// `delta_t = 1.0`.  The states of the neurons after the input
    /// slots are then written into `outputs`; slots of `outputs`
    /// beyond the available neurons keep the caller's values, and an
    /// empty genome writes nothing.
    pub fn activate<A: RealArith>(
        &self,
        arith: &A,
        inputs: Vec<RealBits>,
        outputs: &mut Vec<RealBits>,
    )
        requires
            self.wf(),
            self@.neurons.len() * self@.neurons.len() <= usize::MAX,
        ensures
            final(outputs)@.len() == old(outputs)@.len(),
            ({
                let n = self@.neurons.len() as int;
                let ni = inputs@.len() as int;
                let written = if ni < n {
                    if n - ni < old(outputs)@.len() as int {
                        n - ni
                    } else {
                        old(outputs)@.len() as int
                    }
                } else {
                    0
                };
                forall|t: int|
                    written <= t < old(outputs)@.len() ==> final(outputs)@[t] == old(outputs)@[t]
            }),
    {
        let n = self.n_neurons();
        let n_inputs = inputs.len();
        let mut state: Vec<RealBits> = Vec::new();
        let mut j: usize = 0;
        while j < n
            invariant
                j <= n,
                state@.len() == j,
                n_inputs == inputs@.len(),
            decreases n - j,
        {
            if j < n_inputs {
                state.push(inputs[j]);
            } else {
                state.push(ZERO_BITS);
            }
            j = j + 1;
        }
        let mut tau: Vec<RealBits> = Vec::new();
        let mut j2: usize = 0;
        while j2 < n
            invariant
                j2 <= n,
                tau@.len() == j2,
            decreases n - j2,
        {
            tau.push(ONE_BITS);
            j2 = j2 + 1;
        }
        let theta = self.get_bias();
        let wij = self.get_weights();
        let ctrnn = Ctrnn {
            y: &state,
            delta_t: ONE_BITS,
            tau: &tau,
            wij: &wij,
            theta: &theta,
            i: &state,
        };
        let activations = ctrnn.activate_nn(10, arith);
        if n_inputs < n {
            let avail = n - n_inputs;
            let m = if avail < outputs.len() {
                avail
            } else {
                outputs.len()
            };
            let mut k: usize = 0;
            while k < m
                invariant
                    k <= m,
                    m <= outputs@.len(),
                    m <= avail,
                    avail == n - n_inputs,
                    n_inputs < n,
                    n == activations@.len(),
                    outputs@.len() == old(outputs)@.len(),
                    forall|t: int| m <= t < outputs@.len() ==> outputs@[t] == old(outputs)@[t],
                decreases m - k,
            {
                outputs.set(k, activations[n_inputs + k]);
                k = k + 1;
            }
        }
    }
}

} // verus!
