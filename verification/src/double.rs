//! Double-precision numbers in their binary interchange encoding.

use vstd::prelude::*;
use vstd::std_specs::cmp::PartialEqSpecImpl;

verus! {

/// The bit that holds the sign of a double.
pub const SIGN_BIT: u64 = 0x8000_0000_0000_0000;

/// The encoding of positive infinity; every larger magnitude is a NaN.
pub const INFINITY_BITS: u64 = 0x7ff0_0000_0000_0000;

/// The encoding of `1.0`.
pub const ONE_BITS: u64 = 0x3ff0_0000_0000_0000;

/// A double-precision number, held as the 64 bits of its IEEE 754 encoding:
/// one sign bit, eleven exponent bits, fifty-two fraction bits.
///
/// The type answers two questions about a number, whether it is defined and
/// how it compares with another, and carries it otherwise untouched.
#[derive(Clone, Copy, Debug)]
pub struct Double {
    pub bits: u64,
}

impl Double {
    /// The encoding with the sign bit cleared.
    pub open spec fn magnitude(self) -> u64 {
        if self.bits >= SIGN_BIT {
            (self.bits - SIGN_BIT) as u64
        } else {
            self.bits
        }
    }

    /// Whether the sign bit is set.
    pub open spec fn is_negative(self) -> bool {
        self.bits >= SIGN_BIT
    }

    /// Whether the encoding is a NaN: all exponent bits set and a fraction
    /// that is not zero.
    pub open spec fn is_nan_spec(self) -> bool {
        self.magnitude() > INFINITY_BITS
    }

    /// An integer that orders the numbers that are not NaN as their values
    /// are ordered: `a < b` as numbers exactly when `a.rank() < b.rank()`.
    /// Both zeros have rank 0.
    pub open spec fn rank(self) -> int {
        if self.is_negative() {
            -(self.magnitude() as int)
        } else {
            self.magnitude() as int
        }
    }

    /// Numeric equality: neither side is a NaN and the values agree.
    pub open spec fn same_number(self, other: Double) -> bool {
        &&& !self.is_nan_spec()
        &&& !other.is_nan_spec()
        &&& self.rank() == other.rank()
    }

    pub fn from_bits(bits: u64) -> (d: Double)
        ensures
            d.bits == bits,
    {
        Double { bits }
    }

    pub fn to_bits(self) -> (bits: u64)
        ensures
            bits == self.bits,
    {
        self.bits
    }

    /// The number one.
    pub fn one() -> (d: Double)
        ensures
            d.bits == ONE_BITS,
            !d.is_nan_spec(),
    {
        Double { bits: ONE_BITS }
    }

    fn abs_bits(self) -> (m: u64)
        ensures
            m == self.magnitude(),
            m < SIGN_BIT,
    {
        if self.bits >= SIGN_BIT {
            self.bits - SIGN_BIT
        } else {
            self.bits
        }
    }

    #[verifier::when_used_as_spec(is_nan_spec)]
    pub fn is_nan(self) -> (undefined: bool)
        ensures
            undefined == self.is_nan_spec(),
    {
        self.abs_bits() > INFINITY_BITS
    }

    /// The rank as a machine integer.
    pub fn key(self) -> (k: i64)
        ensures
            k == self.rank(),
    {
        let m: u64 = self.abs_bits();
        if self.bits >= SIGN_BIT {
            -(m as i64)
        } else {
            m as i64
        }
    }
}

impl PartialEq for Double {
    /// Numeric equality, as `==` on doubles: a NaN equals nothing, and the
    /// two zeros are equal.
    fn eq(&self, other: &Double) -> (equal: bool) {
        !self.is_nan() && !other.is_nan() && self.key() == other.key()
    }
}

impl PartialEqSpecImpl for Double {
    open spec fn obeys_eq_spec() -> bool {
        true
    }

    open spec fn eq_spec(&self, other: &Double) -> bool {
        self.same_number(*other)
    }
}

} // verus!
