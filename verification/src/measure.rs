//! Measurements as IEEE-754 binary64 values, carried by their bit pattern.
//!
//! The library stores and orders measurements but never does arithmetic on
//! them, so a measurement is held as the 64 bits of its encoding (what
//! `to_bits` gives for a double). The order below is the order of the encoded
//! numbers: a NaN compares false with everything, and the two zeros are equal.

use vstd::prelude::*;

verus! {

/// The sign bit of the encoding.
pub const SIGN_BIT: u64 = 0x8000_0000_0000_0000;

/// Magnitude bits of infinity; every larger magnitude encodes a NaN.
pub const INFINITY_BITS: u64 = 0x7FF0_0000_0000_0000;

/// A binary64 value by its encoding.
#[derive(Debug, Clone, Copy)]
pub struct Measure {
    pub bits: u64,
}

impl Measure {
    /// The encoding without its sign bit.
    pub open spec fn magnitude(self) -> int {
        if self.bits >= SIGN_BIT {
            self.bits - SIGN_BIT
        } else {
            self.bits as int
        }
    }

    /// Whether the sign bit is set.
    pub open spec fn is_negative(self) -> bool {
        self.bits >= SIGN_BIT
    }

    /// Whether the encoding is one of a NaN.
    pub open spec fn is_nan(self) -> bool {
        self.magnitude() > INFINITY_BITS
    }

    /// Position of a number in the order of all encoded numbers: magnitudes
    /// grow with the encoded number, and a set sign bit mirrors them. Both
    /// zeros have rank 0.
    pub open spec fn rank(self) -> int {
        if self.is_negative() {
            -self.magnitude()
        } else {
            self.magnitude()
        }
    }

    /// `self < other` as numbers.
    pub open spec fn spec_lt(self, other: Measure) -> bool {
        !self.is_nan() && !other.is_nan() && self.rank() < other.rank()
    }

    /// `self > other` as numbers.
    pub open spec fn spec_gt(self, other: Measure) -> bool {
        other.spec_lt(self)
    }

    /// `self <= other` as numbers.
    pub open spec fn spec_le(self, other: Measure) -> bool {
        !self.is_nan() && !other.is_nan() && self.rank() <= other.rank()
    }

    /// `self >= other` as numbers.
    pub open spec fn spec_ge(self, other: Measure) -> bool {
        other.spec_le(self)
    }

    /// The value with the given encoding.
    pub fn from_bits(bits: u64) -> (value: Self)
        ensures
            value.bits == bits,
    {
        Measure { bits }
    }

    /// Positive zero.
    pub fn zero() -> (value: Self)
        ensures
            value.bits == 0,
            !value.is_nan(),
            value.rank() == 0,
    {
        Measure { bits: 0 }
    }

    /// The encoding of the value.
    pub fn to_bits(&self) -> (bits: u64)
        ensures
            bits == self.bits,
    {
        self.bits
    }

    fn magnitude_bits(&self) -> (m: u64)
        ensures
            m == self.magnitude(),
    {
        if self.bits >= SIGN_BIT {
            self.bits - SIGN_BIT
        } else {
            self.bits
        }
    }

    /// Whether the value is a NaN.
    pub fn is_nan_value(&self) -> (nan: bool)
        ensures
            nan == self.is_nan(),
    {
        self.magnitude_bits() > INFINITY_BITS
    }

    /// `self < other`; false when either is a NaN.
    pub fn lt(&self, other: &Measure) -> (less: bool)
        ensures
            less == self.spec_lt(*other),
    {
        let a: u64 = self.magnitude_bits();
        let b: u64 = other.magnitude_bits();
        if a > INFINITY_BITS || b > INFINITY_BITS {
            return false;
        }
        let a_negative: bool = self.bits >= SIGN_BIT;
        let b_negative: bool = other.bits >= SIGN_BIT;
        if a_negative {
            if b_negative {
                a > b
            } else {
                a > 0 || b > 0
            }
        } else {
            if b_negative {
                false
            } else {
                a < b
            }
        }
    }

    /// `self > other`; false when either is a NaN.
    pub fn gt(&self, other: &Measure) -> (greater: bool)
        ensures
            greater == self.spec_gt(*other),
    {
        other.lt(self)
    }

    /// `self <= other`; false when either is a NaN.
    pub fn le(&self, other: &Measure) -> (at_most: bool)
        ensures
            at_most == self.spec_le(*other),
    {
        let a: u64 = self.magnitude_bits();
        let b: u64 = other.magnitude_bits();
        if a > INFINITY_BITS || b > INFINITY_BITS {
            return false;
        }
        let a_negative: bool = self.bits >= SIGN_BIT;
        let b_negative: bool = other.bits >= SIGN_BIT;
        if a_negative {
            if b_negative {
                a >= b
            } else {
                true
            }
        } else {
            if b_negative {
                a == 0 && b == 0
            } else {
                a <= b
            }
        }
    }

    /// `self >= other`; false when either is a NaN.
    pub fn ge(&self, other: &Measure) -> (at_least: bool)
        ensures
            at_least == self.spec_ge(*other),
    {
        other.le(self)
    }

    /// The value limited to the interval from `low` to `high`: `low` when the
    /// value is below it, `high` when it is above, else the value itself. A
    /// NaN is handed back unchanged.
    pub fn clamp(&self, low: &Measure, high: &Measure) -> (limited: Measure)
        requires
            low.spec_le(*high),
        ensures
            limited == self.spec_clamp(*low, *high),
            !self.is_nan() ==> low.spec_le(limited) && limited.spec_le(*high),
    {
        if self.lt(low) {
            *low
        } else if self.gt(high) {
            *high
        } else {
            *self
        }
    }

    /// What [`Measure::clamp`] returns.
    pub open spec fn spec_clamp(self, low: Measure, high: Measure) -> Measure {
        if self.spec_lt(low) {
            low
        } else if self.spec_gt(high) {
            high
        } else {
            self
        }
    }
}

/// Of two numbers exactly one of less, greater and equal rank holds.
pub proof fn lemma_order_is_total(a: Measure, b: Measure)
    requires
        !a.is_nan(),
        !b.is_nan(),
    ensures
        a.spec_lt(b) || b.spec_lt(a) || a.rank() == b.rank(),
        a.spec_le(b) <==> !b.spec_lt(a),
        !(a.spec_lt(b) && b.spec_lt(a)),
{
}

/// The order is transitive.
pub proof fn lemma_order_is_transitive(a: Measure, b: Measure, c: Measure)
    requires
        a.spec_le(b),
        b.spec_le(c),
    ensures
        a.spec_le(c),
{
}

/// A NaN is neither below, above nor level with anything.
pub proof fn lemma_nan_is_unordered(a: Measure, b: Measure)
    requires
        a.is_nan() || b.is_nan(),
    ensures
        !a.spec_lt(b),
        !a.spec_le(b),
        !a.spec_gt(b),
        !a.spec_ge(b),
{
}

} // verus!
