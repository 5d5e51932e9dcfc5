//! The encoding of real numbers and probabilities, and the host
//! arithmetic that the library delegates to.

use vstd::prelude::*;
use crate::RealBits;

verus! {

/// Bit pattern of the double `0.0`.
pub const ZERO_BITS: RealBits = 0;

/// Bit pattern of the double `1.0`.
pub const ONE_BITS: RealBits = 0x3ff0000000000000;

/// Bit pattern of the double `0.25`.
pub const QUARTER_BITS: RealBits = 0x3fd0000000000000;

/// Bit pattern of the double `0.5`.
pub const HALF_BITS: RealBits = 0x3fe0000000000000;

/// Bit pattern of the double `+inf`; every non-negative finite double is
/// strictly below it.
pub const INFINITY_BITS: RealBits = 0x7ff0000000000000;

/// Bit pattern of the double `-0.0`: the sign bit alone.  A pattern with
/// the sign bit set encodes a negative double (or a NaN payload with
/// sign), so a valid fitness never carries it.
pub const SIGN_BIT: RealBits = 0x8000000000000000;

/// Probabilities are exact dyadic fractions: a probability `p` is carried
/// as a numerator over this denominator, `2^53`.  A Bernoulli gate with
/// numerator `t` fires iff a uniform draw from `0..PROB_ONE` lands below
/// `t`, which is distributed exactly as the classic `random::<f64>() < p`
/// gate when `t = ceil(p * 2^53)`.
pub const PROB_ONE: u64 = 0x20000000000000;

/// The numerator of the probability one half: an even-odds gate.
pub const PROB_HALF: u64 = 0x10000000000000;

/// A fitness bit pattern is valid when it encodes a non-negative finite
/// double: sign bit clear and below `+inf`.  On the valid patterns the
/// unsigned order of the bits equals the numeric order of the doubles.
pub open spec fn valid_fitness_bits(b: RealBits) -> bool {
    b < INFINITY_BITS
}

/// Arithmetic on IEEE-754 doubles given as bit patterns.
///
/// The library itself is compiled without floating point, so the host
/// (an application or a test harness) supplies the arithmetic: each
/// method must interpret its `RealBits` arguments as the doubles with
/// those bits and return the bits of the double result.  Nothing about
/// the results is assumed here; everything the library guarantees holds
/// for every implementation of this trait.
pub trait RealArith {
    /// Bits of `a + b`.
    fn plus(&self, a: RealBits, b: RealBits) -> RealBits;

    /// Bits of `a - b`.
    fn minus(&self, a: RealBits, b: RealBits) -> RealBits;

    /// Bits of `a * b`.
    fn times(&self, a: RealBits, b: RealBits) -> RealBits;

    /// Bits of `a / b`.
    fn div_by(&self, a: RealBits, b: RealBits) -> RealBits;

    /// Bits of `|a - b|`.
    fn abs_diff(&self, a: RealBits, b: RealBits) -> RealBits;

    /// The float comparison `a < b`.
    fn less_than(&self, a: RealBits, b: RealBits) -> bool;

    /// Bits of `n` converted to a double.
    fn of_usize(&self, n: usize) -> RealBits;

    /// `a` truncated towards zero and clamped into `usize`, as the `as
    /// usize` cast does; any value for a NaN.
    fn to_usize(&self, a: RealBits) -> usize;

    /// Bits of the scaled logistic `1 / (1 + exp(-5 * clamp(a, -12, 12)))`.
    fn sigmoid(&self, a: RealBits) -> RealBits;

    /// Bits of a fresh draw from the normal distribution with mean
    /// `mean` and standard deviation `deviation` (both given as bits).
    fn gauss(&self, mean: RealBits, deviation: RealBits) -> RealBits;
}

} // verus!
