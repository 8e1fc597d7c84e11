//! Numbers as the document stores them.

use vstd::prelude::*;

verus! {

/// Bit pattern of the number zero.
pub const ZERO_BITS: u32 = 0x0000_0000;

/// Bit pattern of the number one thousand.
pub const THOUSAND_BITS: u32 = 0x447A_0000;

/// Bit pattern of the number ten.
pub const TEN_BITS: u32 = 0x4120_0000;

/// Lowest bit pattern whose sign bit is set.
pub const SIGN_BIT: u32 = 0x8000_0000;

/// A single-precision number, held by its IEEE 754 bit pattern.
///
/// The library moves such numbers around and orders them; it never does
/// arithmetic on them. Two scalars are equal when their bits are.
#[derive(Clone, Copy, Debug, PartialEq, Eq, Hash, Structural)]
pub struct Scalar {
    pub bits: u32,
}

impl Default for Scalar {
    fn default() -> (r: Scalar)
        ensures
            r.bits == ZERO_BITS,
    {
        Scalar { bits: ZERO_BITS }
    }
}

impl Scalar {
    /// Position of the number in the IEEE 754 total order: negative numbers
    /// (sign bit set) come before positive ones, and among negative numbers a
    /// larger magnitude comes first.
    pub open spec fn total_key(self) -> int {
        if self.bits < SIGN_BIT {
            self.bits as int
        } else {
            0x7FFF_FFFF - self.bits
        }
    }

    /// The number with the opposite sign and the same magnitude: the sign bit
    /// is flipped and all other bits stay.
    pub open spec fn spec_negated(self) -> Scalar {
        if self.bits < SIGN_BIT {
            Scalar { bits: (self.bits + SIGN_BIT) as u32 }
        } else {
            Scalar { bits: (self.bits - SIGN_BIT) as u32 }
        }
    }

    /// The smaller of two numbers in the total order; `self` where they tie.
    pub open spec fn spec_total_min(self, other: Scalar) -> Scalar {
        if self.total_key() <= other.total_key() {
            self
        } else {
            other
        }
    }

    pub fn from_bits(bits: u32) -> (r: Scalar)
        ensures
            r.bits == bits,
    {
        Scalar { bits }
    }

    pub fn to_bits(self) -> (r: u32)
        ensures
            r == self.bits,
    {
        self.bits
    }

    pub fn zero() -> (r: Scalar)
        ensures
            r.bits == ZERO_BITS,
    {
        Scalar { bits: ZERO_BITS }
    }

    #[verifier::when_used_as_spec(spec_negated)]
    pub fn negated(self) -> (r: Scalar)
        ensures
            r == self.spec_negated(),
    {
        if self.bits < SIGN_BIT {
            Scalar { bits: self.bits + SIGN_BIT }
        } else {
            Scalar { bits: self.bits - SIGN_BIT }
        }
    }

    /// Whether `self` comes at or before `other` in the total order.
    pub fn total_le(self, other: Scalar) -> (r: bool)
        ensures
            r == (self.total_key() <= other.total_key()),
    {
        if self.bits < SIGN_BIT {
            other.bits < SIGN_BIT && self.bits <= other.bits
        } else {
            other.bits < SIGN_BIT || other.bits <= self.bits
        }
    }

    #[verifier::when_used_as_spec(spec_total_min)]
    pub fn total_min(self, other: Scalar) -> (r: Scalar)
        ensures
            r == self.spec_total_min(other),
    {
        if self.total_le(other) {
            self
        } else {
            other
        }
    }
}

/// Negating twice gives the number back, and negation turns the total order
/// round.
pub proof fn lemma_negation(a: Scalar, b: Scalar)
    ensures
        a.spec_negated().spec_negated() == a,
        a.spec_negated().total_key() == -1 - a.total_key(),
        a.total_key() <= b.total_key() <==> b.spec_negated().total_key()
            <= a.spec_negated().total_key(),
{
}

/// The total order is total, antisymmetric on bit patterns, and transitive.
pub proof fn lemma_total_order(a: Scalar, b: Scalar, c: Scalar)
    ensures
        a.total_key() <= b.total_key() || b.total_key() <= a.total_key(),
        a.total_key() == b.total_key() ==> a == b,
        a.total_key() <= b.total_key() && b.total_key() <= c.total_key() ==> a.total_key()
            <= c.total_key(),
        a.spec_total_min(b) == a || a.spec_total_min(b) == b,
        a.spec_total_min(b).total_key() <= a.total_key(),
        a.spec_total_min(b).total_key() <= b.total_key(),
{
}

} // verus!
