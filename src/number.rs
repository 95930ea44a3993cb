//! Real numbers held as IEEE-754 binary64 bit patterns.
use vstd::prelude::*;

verus! {

/// Mask of the sign bit of a binary64 pattern.
pub const SIGN_MASK: u64 = 0x8000_0000_0000_0000;

/// Bit pattern of `1.0`.
pub const ONE_BITS: u64 = 0x3ff0_0000_0000_0000;

/// Bit pattern of the quiet not-a-number that marks a failed solve.
pub const NAN_BITS: u64 = 0x7ff8_0000_0000_0000;

/// A real number, stored as the bit pattern of an IEEE-754 binary64 value.
///
/// The library moves, compares and negates these values but does no other
/// arithmetic on them; the solver side turns them back into `f64`s with
/// `f64::from_bits`.
#[derive(Clone, Copy, Debug, PartialEq, Eq, Structural)]
pub struct Real {
    pub bits: u64,
}

impl Real {
    /// The value whose bit pattern is `bits`.
    pub fn from_bits(bits: u64) -> (r: Real)
        ensures
            r.bits == bits,
    {
        Real { bits }
    }

    /// The bit pattern of this value.
    pub fn to_bits(self) -> (r: u64)
        ensures
            r == self.bits,
    {
        self.bits
    }

    /// `1.0`
    pub open spec fn spec_one() -> Real {
        Real { bits: ONE_BITS }
    }

    /// `1.0`
    #[verifier::when_used_as_spec(spec_one)]
    pub fn one() -> (r: Real)
        ensures
            r == Real::spec_one(),
    {
        Real { bits: ONE_BITS }
    }

    /// The not-a-number marker.
    pub open spec fn spec_nan() -> Real {
        Real { bits: NAN_BITS }
    }

    /// The not-a-number marker.
    #[verifier::when_used_as_spec(spec_nan)]
    pub fn nan() -> (r: Real)
        ensures
            r == Real::spec_nan(),
    {
        Real { bits: NAN_BITS }
    }

    /// The biased exponent field.
    pub open spec fn exponent(self) -> u64 {
        (self.bits >> 52u64) & 0x7ffu64
    }

    /// Neither infinite nor not-a-number: the exponent field is not all ones.
    pub open spec fn spec_is_finite(self) -> bool {
        self.exponent() != 0x7ffu64
    }

    /// Neither infinite nor not-a-number.
    #[verifier::when_used_as_spec(spec_is_finite)]
    pub fn is_finite(self) -> (r: bool)
        ensures
            r == self.spec_is_finite(),
    {
        (self.bits >> 52u64) & 0x7ffu64 != 0x7ffu64
    }

    /// `-x`: the same pattern with the sign bit flipped. For every value but
    /// not-a-number this is exactly the product with `-1.0`.
    pub open spec fn spec_neg(self) -> Real {
        Real { bits: self.bits ^ SIGN_MASK }
    }

    /// `-x`
    #[verifier::when_used_as_spec(spec_neg)]
    pub fn neg(self) -> (r: Real)
        ensures
            r == self.spec_neg(),
    {
        Real { bits: self.bits ^ SIGN_MASK }
    }
}

} // verus!
