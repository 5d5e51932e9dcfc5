//! The elementary mutation operators on a single connection gene.  The
//! genome drives them; each is exact and verified.

use vstd::prelude::*;
use crate::RealBits;
use crate::gene::ConnectionGene;
use crate::arith::ONE_BITS;

verus! {

/// The elementary mutation operators.  They are provided methods, so any
/// implementor (the connection gene itself) carries them.
pub trait Mutation {
    /// Overwrite the weight of a connection gene.
    fn connection_weight(gene: &mut ConnectionGene, weight: RealBits)
        ensures
            final(gene).weight == weight,
            final(gene).spec_id() == old(gene).spec_id(),
            final(gene).enabled == old(gene).enabled,
    {
        gene.weight = weight;
    }

    /// Build the gene for a freshly added connection: enabled, with the
    /// given endpoints and weight.
    fn add_connection(
        in_neuron_id: usize,
        out_neuron_id: usize,
        weight: RealBits,
    ) -> (g: ConnectionGene)
        ensures
            g.spec_id() == (in_neuron_id, out_neuron_id),
            g.weight == weight,
            g.enabled,
    {
        ConnectionGene::new(in_neuron_id, out_neuron_id, weight, true)
    }

    /// Split a connection with a fresh neuron: the old gene is disabled,
    /// and the two replacement genes are returned — source to the new
    /// neuron with weight `1.0`, and the new neuron to the sink with the
    /// old weight.
    fn add_neuron(gene: &mut ConnectionGene, new_neuron_id: usize) -> (pair: (
        ConnectionGene,
        ConnectionGene,
    ))
        ensures
            final(gene).spec_id() == old(gene).spec_id(),
            final(gene).weight == old(gene).weight,
            !final(gene).enabled,
            pair.0.spec_id() == (old(gene).spec_id().0, new_neuron_id),
            pair.0.weight == ONE_BITS,
            pair.0.enabled,
            pair.1.spec_id() == (new_neuron_id, old(gene).spec_id().1),
            pair.1.weight == old(gene).weight,
            pair.1.enabled,
    {
        gene.enabled = false;
        let g1 = ConnectionGene::new(gene.in_neuron_id(), new_neuron_id, ONE_BITS, true);
        let g2 = ConnectionGene::new(new_neuron_id, gene.out_neuron_id(), gene.weight, true);
        (g1, g2)
    }

    /// Flip the expression of a connection gene.
    fn toggle_expression(gene: &mut ConnectionGene)
        ensures
            final(gene).spec_id() == old(gene).spec_id(),
            final(gene).weight == old(gene).weight,
            final(gene).enabled == !old(gene).enabled,
    {
        if gene.enabled {
            gene.enabled = false;
        } else {
            gene.enabled = true;
        }
    }
}

impl Mutation for ConnectionGene {

}

} // verus!
