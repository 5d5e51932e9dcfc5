//! The two gene records of a genome: a neuron gene (a bias behind a
//! stable innovation id) and a connection gene (a weighted, possibly
//! disabled edge between two neuron ids).

use vstd::prelude::*;
use crate::RealBits;

verus! {

/// A neuron gene: its bias.  The neuron's stable innovation id is the
/// key under which the genome stores the gene.
#[derive(Clone, Copy, Debug, PartialEq, Eq, Structural)]
pub struct NeuronGene {
    /// Bias of the neuron, as double bits.
    pub bias: RealBits,
}

impl NeuronGene {
    /// Create a neuron gene with the given bias.
    pub fn new(bias: RealBits) -> (g: NeuronGene)
        ensures
            g == (NeuronGene { bias }),
    {
        NeuronGene { bias }
    }
}

/// A connection gene.  The ordered pair `(in_neuron_id, out_neuron_id)`
/// is the connection's identity; neuron ids never collide, so the pair
/// is unique and stable and no separate innovation number is needed.
#[derive(Clone, Copy, Debug, PartialEq, Eq, Structural)]
pub struct ConnectionGene {
    /// Source neuron id; half of the connection's identity.
    pub in_neuron_id: usize,
    /// Sink neuron id; the other half of the connection's identity.
    pub out_neuron_id: usize,
    /// Weight of the connection, as double bits.
    pub weight: RealBits,
    /// Whether the expression of the gene is enabled.
    pub enabled: bool,
}

impl ConnectionGene {
    /// Create a connection gene.
    pub fn new(
        in_neuron_id: usize,
        out_neuron_id: usize,
        weight: RealBits,
        enabled: bool,
    ) -> (g: ConnectionGene)
        ensures
            g.spec_id() == (in_neuron_id, out_neuron_id),
            g.weight == weight,
            g.enabled == enabled,
    {
        ConnectionGene { in_neuron_id, out_neuron_id, weight, enabled }
    }

    /// Source neuron id.
    pub fn in_neuron_id(&self) -> (r: usize)
        ensures
            r == self.in_neuron_id,
    {
        self.in_neuron_id
    }

    /// Sink neuron id.
    pub fn out_neuron_id(&self) -> (r: usize)
        ensures
            r == self.out_neuron_id,
    {
        self.out_neuron_id
    }

    /// The weight of the connection.
    pub fn weight(&self) -> (r: RealBits)
        ensures
            r == self.weight,
    {
        self.weight
    }

    /// Overwrite the weight of the connection.
    pub fn set_weight(&mut self, weight: RealBits)
        ensures
            final(self).weight == weight,
            final(self).spec_id() == old(self).spec_id(),
            final(self).enabled == old(self).enabled,
    {
        self.weight = weight;
    }

    /// Whether the gene is expressed.
    pub fn enabled(&self) -> (r: bool)
        ensures
            r == self.enabled,
    {
        self.enabled
    }

    /// Enable the gene.
    pub fn set_enabled(&mut self)
        ensures
            final(self).enabled,
            final(self).spec_id() == old(self).spec_id(),
            final(self).weight == old(self).weight,
    {
        self.enabled = true;
    }

    /// Disable the gene.
    pub fn set_disabled(&mut self)
        ensures
            !final(self).enabled,
            final(self).spec_id() == old(self).spec_id(),
            final(self).weight == old(self).weight,
    {
        self.enabled = false;
    }

    /// The identity of the connection: its `(source, sink)` pair.
    pub open spec fn spec_id(&self) -> (usize, usize) {
        (self.in_neuron_id, self.out_neuron_id)
    }

    /// The identity of the connection: its `(source, sink)` pair.
    pub fn id(&self) -> (r: (usize, usize))
        ensures
            r == self.spec_id(),
    {
        (self.in_neuron_id, self.out_neuron_id)
    }
}

} // verus!
