//! The numeric value type of the model layer.
//!
//! Bounds, objective coefficients and constraint weights are IEEE-754 doubles
//! to the solving engine, but the model layer never computes with them: it
//! only stores them, tests weights for zero, and hands them through. A value
//! is therefore carried as its bit pattern, which is the whole truth about it
//! here; the boundary that talks to the engine converts bit patterns to
//! doubles and back.

use vstd::prelude::*;

verus! {

/// Bit pattern of the IEEE-754 double `+0.0`.
pub const POS_ZERO_BITS: u64 = 0;

/// Bit pattern of the IEEE-754 double `-0.0`.
pub const NEG_ZERO_BITS: u64 = 0x8000_0000_0000_0000;

/// Bit pattern of the IEEE-754 double `1.0`.
pub const ONE_BITS: u64 = 0x3FF0_0000_0000_0000;

/// Bit pattern of the IEEE-754 double `+infinity`.
pub const POS_INFINITY_BITS: u64 = 0x7FF0_0000_0000_0000;

/// Bit pattern of the IEEE-754 double `-infinity`.
pub const NEG_INFINITY_BITS: u64 = 0xFFF0_0000_0000_0000;

/// A bound, objective coefficient or constraint weight: an IEEE-754 double
/// carried by bit pattern.
///
/// Two values are equal exactly when their bit patterns are, so `+0.0` and
/// `-0.0` are distinct values but both count as numerically zero.
#[derive(Copy, Clone, PartialEq, Eq, Structural, Debug)]
pub struct Scalar {
    pub bits: u64,
}

impl Scalar {
    /// Whether the value is numerically zero: either IEEE-754 zero bit
    /// pattern (`+0.0` or `-0.0`).
    pub open spec fn spec_is_zero(self) -> bool {
        self.bits == POS_ZERO_BITS || self.bits == NEG_ZERO_BITS
    }

    /// Whether the value is numerically zero (`+0.0` or `-0.0`).
    #[verifier::when_used_as_spec(spec_is_zero)]
    pub fn is_zero(self) -> (zero: bool)
        ensures
            zero == self.spec_is_zero(),
    {
        self.bits == POS_ZERO_BITS || self.bits == NEG_ZERO_BITS
    }
}

} // verus!
