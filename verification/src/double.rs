//! Doubles as bit patterns.
//!
//! Patterns below the sign bit stand for the numbers from zero upwards, in the order of the
//! numbers; those from the sign bit on stand for the same numbers negated.
use vstd::prelude::*;

verus! {

/// A double-precision number, held as its IEEE 754 bit pattern and carried without arithmetic.
#[derive(Debug, Clone, Copy, PartialEq, Eq, Structural)]
pub struct Double {
    pub bits: u64,
}

/// The pattern of one.
pub const ONE_BITS: u64 = 0x3FF0_0000_0000_0000;

/// The pattern of infinity, just above that of the greatest finite number.
pub const INFINITY_BITS: u64 = 0x7FF0_0000_0000_0000;

/// The sign bit, and the pattern of negative zero.
pub const SIGN_BIT: u64 = 0x8000_0000_0000_0000;

impl Double {
    /// The number one.
    pub open spec fn one() -> Double {
        Double { bits: ONE_BITS }
    }

    /// The pattern without the sign.
    pub open spec fn magnitude(self) -> int {
        if self.bits >= SIGN_BIT {
            self.bits - SIGN_BIT
        } else {
            self.bits as int
        }
    }

    /// Whether the pattern stands for no number.
    pub open spec fn nan(self) -> bool {
        self.magnitude() > INFINITY_BITS
    }

    /// Whether the pattern stands for a finite number.
    pub open spec fn finite(self) -> bool {
        self.magnitude() < INFINITY_BITS
    }

    /// An integer that orders numbers as they are ordered; the two zeros are equal.
    pub open spec fn rank(self) -> int {
        if self.bits >= SIGN_BIT {
            -self.magnitude()
        } else {
            self.magnitude()
        }
    }

    /// Whether `self` and `other` are numbers and `self` is not less.
    pub open spec fn at_least(self, other: Double) -> bool {
        !self.nan() && !other.nan() && self.rank() >= other.rank()
    }

    /// Whether this is a finite number that is not negative.
    pub open spec fn finite_nonnegative(self) -> bool {
        self.finite() && self.rank() >= 0
    }

    /// Whether this is a finite number greater than zero.
    pub open spec fn finite_positive(self) -> bool {
        self.finite() && self.rank() > 0
    }

    /// Whether this is a number from zero to one.
    pub open spec fn unit_range(self) -> bool {
        self.finite_nonnegative() && Self::one().at_least(self)
    }

    /// Whether this is a finite number that is not less than one.
    pub open spec fn finite_from_one(self) -> bool {
        self.finite() && self.at_least(Self::one())
    }

    /// The number one.
    pub fn of_one() -> (r: Double)
        ensures
            r == Self::one(),
    {
        Double { bits: ONE_BITS }
    }

    /// Decides [`Self::at_least`].
    pub fn is_at_least(self, other: Double) -> (r: bool)
        ensures
            r == self.at_least(other),
    {
        let a_negative = self.bits >= SIGN_BIT;
        let b_negative = other.bits >= SIGN_BIT;
        let a: u64 = if a_negative {
            self.bits - SIGN_BIT
        } else {
            self.bits
        };
        let b: u64 = if b_negative {
            other.bits - SIGN_BIT
        } else {
            other.bits
        };
        if a > INFINITY_BITS || b > INFINITY_BITS {
            false
        } else if a_negative {
            if b_negative {
                a <= b
            } else {
                a == 0 && b == 0
            }
        } else {
            b_negative || a >= b
        }
    }

    /// Decides [`Self::finite_nonnegative`].
    pub fn is_finite_nonnegative(self) -> (r: bool)
        ensures
            r == self.finite_nonnegative(),
    {
        self.bits < INFINITY_BITS || self.bits == SIGN_BIT
    }

    /// Decides [`Self::finite_positive`].
    pub fn is_finite_positive(self) -> (r: bool)
        ensures
            r == self.finite_positive(),
    {
        0 < self.bits && self.bits < INFINITY_BITS
    }

    /// Decides [`Self::unit_range`].
    pub fn is_unit_range(self) -> (r: bool)
        ensures
            r == self.unit_range(),
    {
        self.bits <= ONE_BITS || self.bits == SIGN_BIT
    }

    /// Decides [`Self::finite_from_one`].
    pub fn is_finite_from_one(self) -> (r: bool)
        ensures
            r == self.finite_from_one(),
    {
        ONE_BITS <= self.bits && self.bits < INFINITY_BITS
    }
}

/// The patterns that the tests accept: rates are finite and not negative, amounts finite and
/// positive, ratios from zero to one, factors finite and from one on. Negative zero is a zero.
pub proof fn law_ranges_as_patterns(d: Double)
    ensures
        d.finite_nonnegative() <==> d.bits < 0x7FF0_0000_0000_0000 || d.bits
            == 0x8000_0000_0000_0000,
        d.finite_positive() <==> 0 < d.bits < 0x7FF0_0000_0000_0000,
        d.unit_range() <==> d.bits <= 0x3FF0_0000_0000_0000 || d.bits == 0x8000_0000_0000_0000,
        d.finite_from_one() <==> 0x3FF0_0000_0000_0000 <= d.bits < 0x7FF0_0000_0000_0000,
{
}

/// Numbers are ordered as a line: any two can be compared, the order is transitive, every number is
/// at least itself, what is not a number compares with nothing, and numbers without a sign are
/// ordered as their patterns.
pub proof fn law_numbers_are_ordered(a: Double, b: Double, c: Double)
    ensures
        !a.nan() && !b.nan() ==> a.at_least(b) || b.at_least(a),
        a.at_least(b) && b.at_least(c) ==> a.at_least(c),
        !a.nan() ==> a.at_least(a),
        a.bits < 0x8000_0000_0000_0000 && a.bits > 0x7FF0_0000_0000_0000 ==> !a.at_least(b)
            && !b.at_least(a),
        a.bits > 0xFFF0_0000_0000_0000 ==> !a.at_least(b) && !b.at_least(a),
        a.bits <= 0x7FF0_0000_0000_0000 && b.bits <= 0x7FF0_0000_0000_0000 ==> (a.at_least(b)
            <==> a.bits >= b.bits),
        a.bits <= 0x7FF0_0000_0000_0000 && 0x8000_0000_0000_0000 < b.bits <= 0xFFF0_0000_0000_0000
            ==> a.at_least(b) && !b.at_least(a),
        0x8000_0000_0000_0000 <= a.bits <= 0xFFF0_0000_0000_0000 && 0x8000_0000_0000_0000 <= b.bits
            <= 0xFFF0_0000_0000_0000 ==> (a.at_least(b) <==> a.bits <= b.bits),
{
}

} // verus!
