use vstd::prelude::*;

verus! {

/// The sign bit of an IEEE-754 single-precision bit pattern.
pub const SIGN_BIT: u32 = 0x8000_0000;

/// The bit pattern of positive infinity; a larger magnitude is a NaN.
pub const INFINITY_BITS: u32 = 0x7f80_0000;

/// The bit pattern that stands for every NaN in the values the proofs speak of.
pub const CANONICAL_NAN_BITS: u32 = 0x7fc0_0000;

/// The bit pattern of 0.5.
pub const HALF_BITS: u32 = 0x3f00_0000;

/// The bit pattern of 1.0.
pub const ONE_BITS: u32 = 0x3f80_0000;

/// The bit pattern of 2.0.
pub const TWO_BITS: u32 = 0x4000_0000;

/// The bit pattern of 3.0.
pub const THREE_BITS: u32 = 0x4040_0000;

/// The bit pattern of -2.0.
pub const MINUS_TWO_BITS: u32 = 0xc000_0000;

/// A single-precision floating-point number, held as its IEEE-754 bit pattern.
///
/// Comparisons are decided here, on the bits; arithmetic is delegated to the
/// processor through the operations in the `linalg` module.
#[derive(Clone, Copy, Debug, PartialEq, Eq)]
pub struct Scalar {
    pub bits: u32,
}

/// The magnitude part of a bit pattern: every bit but the sign.
pub open spec fn magnitude(bits: u32) -> int {
    if bits >= SIGN_BIT {
        bits - SIGN_BIT
    } else {
        bits as int
    }
}

/// `bits`, with any NaN replaced by the canonical NaN. Floating-point
/// operations leave the sign and payload of a NaN result open; everything
/// else about their result is fixed.
pub open spec fn canon_bits(bits: u32) -> u32 {
    if magnitude(bits) > INFINITY_BITS {
        CANONICAL_NAN_BITS
    } else {
        bits
    }
}

impl Scalar {
    /// The value with any NaN replaced by the canonical NaN.
    pub open spec fn canon(self) -> Scalar {
        Scalar { bits: canon_bits(self.bits) }
    }

    /// Whether the value is a NaN.
    pub open spec fn is_nan(self) -> bool {
        magnitude(self.bits) > INFINITY_BITS
    }

    /// A key that orders the non-NaN values as the reals they stand for:
    /// larger magnitudes of positive numbers are larger, of negative numbers
    /// smaller, and both zeros share the key 0.
    pub open spec fn key(self) -> int {
        if self.bits >= SIGN_BIT {
            -magnitude(self.bits)
        } else {
            magnitude(self.bits)
        }
    }

    /// `self < other` as IEEE-754 defines it.
    pub open spec fn spec_lt(self, other: Scalar) -> bool {
        !self.is_nan() && !other.is_nan() && self.key() < other.key()
    }

    /// `self <= other` as IEEE-754 defines it.
    pub open spec fn spec_le(self, other: Scalar) -> bool {
        !self.is_nan() && !other.is_nan() && self.key() <= other.key()
    }

    /// `self == other` as IEEE-754 defines it: `-0 == +0`, and a NaN equals nothing.
    pub open spec fn spec_num_eq(self, other: Scalar) -> bool {
        !self.is_nan() && !other.is_nan() && self.key() == other.key()
    }

    pub fn from_bits(bits: u32) -> (r: Scalar)
        ensures
            r.bits == bits,
    {
        Scalar { bits }
    }

    pub fn to_bits(self) -> (r: u32)
        ensures
            r == self.bits,
    {
        self.bits
    }

    /// Positive zero.
    pub fn zero() -> (r: Scalar)
        ensures
            r.bits == 0,
            r.key() == 0,
            !r.is_nan(),
    {
        Scalar { bits: 0 }
    }

    pub fn is_nan_exec(self) -> (r: bool)
        ensures
            r == self.is_nan(),
    {
        let mag: u32 = if self.bits >= SIGN_BIT {
            self.bits - SIGN_BIT
        } else {
            self.bits
        };
        mag > INFINITY_BITS
    }

    fn key_exec(self) -> (r: i64)
        ensures
            r == self.key(),
    {
        if self.bits >= SIGN_BIT {
            -((self.bits - SIGN_BIT) as i64)
        } else {
            self.bits as i64
        }
    }

    /// `self < other`, NaN-aware.
    pub fn lt(self, other: Scalar) -> (r: bool)
        ensures
            r == self.spec_lt(other),
    {
        !self.is_nan_exec() && !other.is_nan_exec() && self.key_exec() < other.key_exec()
    }

    /// `self <= other`, NaN-aware.
    pub fn le(self, other: Scalar) -> (r: bool)
        ensures
            r == self.spec_le(other),
    {
        !self.is_nan_exec() && !other.is_nan_exec() && self.key_exec() <= other.key_exec()
    }

    /// `self > other`, NaN-aware.
    pub fn gt(self, other: Scalar) -> (r: bool)
        ensures
            r == other.spec_lt(self),
    {
        other.lt(self)
    }

    /// `self >= other`, NaN-aware.
    pub fn ge(self, other: Scalar) -> (r: bool)
        ensures
            r == other.spec_le(self),
    {
        other.le(self)
    }

    /// Numeric equality, NaN-aware: differs from `==` on the bits for the two zeros and for NaNs.
    pub fn num_eq(self, other: Scalar) -> (r: bool)
        ensures
            r == self.spec_num_eq(other),
    {
        !self.is_nan_exec() && !other.is_nan_exec() && self.key_exec() == other.key_exec()
    }
}

} // verus!
