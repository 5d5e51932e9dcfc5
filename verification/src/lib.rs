//! NeuroEvolution of Augmenting Topologies (NEAT): a speciated genetic
//! algorithm that evolves both the topology and the parameters of small
//! recurrent neural networks against a caller-supplied fitness function.
//!
//! The crate is verified with Verus and is therefore compiled without any
//! floating-point type.  Every real number (weight, bias, fitness,
//! distance coefficient) travels through the library as the raw bit
//! pattern of an IEEE-754 double, see [`RealBits`].  All structure — the
//! genome maps, speciation, elitism, culling, offspring allotment,
//! stagnation, crossover and identifier management — is verified here;
//! arithmetic on the encoded reals is delegated to a host-supplied
//! [`arith::RealArith`] implementation, and probabilities are carried as
//! exact dyadic fractions so that every random gate is drawn in verified
//! code.

#![verifier::loop_isolation(false)]

use vstd::prelude::*;

pub mod arith;
pub mod ctrnn;
pub mod gene;
pub mod genome;
pub mod maps;
pub mod mutation;
pub mod organism;
pub mod params;
pub mod population;
pub mod rng;
pub mod specie;

verus! {

/// An IEEE-754 double carried as its raw bit pattern.
///
/// For the non-negative doubles (sign bit clear, not a NaN) the unsigned
/// order of the bit patterns coincides with the numeric order, which is
/// how the library compares fitness values exactly without ever touching
/// a float.
pub type RealBits = u64;

} // verus!
