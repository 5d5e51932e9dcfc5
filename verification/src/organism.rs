//! An organism: a genome together with a fitness value.

use vstd::prelude::*;
use crate::RealBits;
use crate::arith::{RealArith, ZERO_BITS};
use crate::genome::{ids_below, mated, NeuralNetwork};
use crate::params::NeatParams;

verus! {

/// A genome paired with the fitness its evaluation earned.  The
/// fitness is double bits; the population keeps it non-negative and
/// finite, so bit order is fitness order.
#[derive(Debug)]
pub struct Organism {
    /// The genome.
    pub genome: NeuralNetwork,
    /// The fitness, as double bits.
    pub fitness: RealBits,
}

impl Organism {
    /// The organism's genome is well-formed.
    pub open spec fn wf(&self) -> bool {
        self.genome.wf()
    }

    /// Create a new organism from a genome, with fitness zero.
    pub fn new(genome: NeuralNetwork) -> (o: Organism)
        ensures
            o.genome == genome,
            o.fitness == ZERO_BITS,
    {
        Organism { genome, fitness: ZERO_BITS }
    }

    /// An owned copy: same genome entries, same fitness.
    pub fn duplicate(&self) -> (o: Organism)
        ensures
            o.genome@ == self.genome@,
            o.fitness == self.fitness,
    {
        Organism { genome: self.genome.duplicate(), fitness: self.fitness }
    }

    /// Mutate the organism's genome in place; see
    /// [`NeuralNetwork::mutate`].
    pub fn mutate<A: RealArith>(&mut self, innovation_id: &mut usize, arith: &A, p: &NeatParams)
        requires
            old(self).wf(),
            ids_below(old(self).genome@, *old(innovation_id)),
            *old(innovation_id) < usize::MAX,
        ensures
            final(self).wf(),
            final(self).fitness == old(self).fitness,
            *old(innovation_id) <= *final(innovation_id) <= *old(innovation_id) + 1,
            ids_below(final(self).genome@, *final(innovation_id)),
            final(self).genome@.neurons.len() <= old(self).genome@.neurons.len() + 1,
    {
        self.genome.mutate(innovation_id, arith, p);
    }

    /// Mate this organism with another: the child's genome is the
    /// crossover of the two genomes, biased toward the fitter parent
    /// (the other one, on a tie), with fitness zero.
    pub fn mate(&self, other: &Organism) -> (child: Organism)
        requires
            self.wf(),
            other.wf(),
        ensures
            child.wf(),
            child.fitness == ZERO_BITS,
            ({
                let best = if other.fitness < self.fitness {
                    self.genome@
                } else {
                    other.genome@
                };
                let worst = if other.fitness < self.fitness {
                    other.genome@
                } else {
                    self.genome@
                };
                mated(best.neurons, worst.neurons, child.genome@.neurons) && mated(
                    best.conns,
                    worst.conns,
                    child.genome@.conns,
                )
            }),
            forall|b: usize|
                ids_below(self.genome@, b) && ids_below(other.genome@, b)
                    ==> #[trigger] ids_below(child.genome@, b),
    {
        let fittest = other.fitness < self.fitness;
        Organism::new(self.genome.mate(&other.genome, fittest))
    }

    /// Activate the organism's network on a sensor vector; see
    /// [`NeuralNetwork::activate`].
    pub fn activate<A: RealArith>(
        &self,
        arith: &A,
        sensors: Vec<RealBits>,
        outputs: &mut Vec<RealBits>,
    )
        requires
            self.wf(),
            self.genome@.neurons.len() * self.genome@.neurons.len() <= usize::MAX,
        ensures
            final(outputs)@.len() == old(outputs)@.len(),
            ({
                let n = self.genome@.neurons.len() as int;
                let ni = sensors@.len() as int;
                let written = if ni < n {
                    if n - ni < old(outputs)@.len() as int {
                        n - ni
                    } else {
                        old(outputs)@.len() as int
                    }
                } else {
                    0
                };
                forall|t: int|
                    written <= t < old(outputs)@.len() ==> final(outputs)@[t] == old(outputs)@[t]
            }),
    {
        self.genome.activate(arith, sensors, outputs);
    }
}

} // verus!
