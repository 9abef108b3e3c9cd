//! Binary32 numbers by bit pattern.

use vstd::prelude::*;

use crate::number::Real;

verus! {

/// The sign bit of a binary32 pattern.
pub const SINGLE_SIGN_BIT: u32 = 0x8000_0000;

/// The binary32 pattern of positive infinity.
pub const SINGLE_INFINITY_BITS: u32 = 0x7f80_0000;

/// A binary32 number, held by its bit pattern.
#[derive(Clone, Copy, Debug, PartialEq, Eq, Structural)]
pub struct Single {
    pub bits: u32,
}

/// A question about binary32 numbers whose answer is rounded.
#[derive(Clone, Copy, Debug, PartialEq, Eq, Structural)]
pub enum SingleArithmetic {
    /// The first number plus the second.
    Sum(Single, Single),
    /// The first number less the second.
    Difference(Single, Single),
    /// The first number times the second.
    Product(Single, Single),
    /// The first number by the second.
    Quotient(Single, Single),
    /// The first number to the power of the second.
    Power(Single, Single),
    /// The nearest whole number, away from zero where two are as near.
    Rounded(Single),
    /// The largest whole number that is not above.
    Floor(Single),
    /// The smallest whole number that is not below.
    Ceiling(Single),
    /// The nearest number to a binary64 number.
    Narrowed(Real),
    /// A small whole number.
    Count(u8),
}

impl Single {
    pub open spec fn size(self) -> int {
        if self.bits >= SINGLE_SIGN_BIT {
            self.bits - SINGLE_SIGN_BIT
        } else {
            self.bits as int
        }
    }

    pub open spec fn finite(self) -> bool {
        self.size() < SINGLE_INFINITY_BITS
    }

    /// A number whose order is the order of the values.
    pub open spec fn rank(self) -> int {
        if self.bits >= SINGLE_SIGN_BIT {
            -self.size()
        } else {
            self.size()
        }
    }

    pub open spec fn nan(self) -> bool {
        self.size() > SINGLE_INFINITY_BITS
    }

    /// Less than, as the numbers are compared.
    pub open spec fn below(self, other: Single) -> bool {
        !self.nan() && !other.nan() && self.rank() < other.rank()
    }

    /// At most, as the numbers are compared.
    pub open spec fn at_most(self, other: Single) -> bool {
        !self.nan() && !other.nan() && self.rank() <= other.rank()
    }

    /// The number moved into limits; what is no number stays.
    pub open spec fn within(self, low: Single, high: Single) -> Single {
        if self.below(low) {
            low
        } else if high.below(self) {
            high
        } else {
            self
        }
    }

    /// The number without its sign.
    pub open spec fn absolute(self) -> Single {
        Single { bits: self.size() as u32 }
    }

    pub open spec fn opposite(self) -> Single {
        if self.bits >= SINGLE_SIGN_BIT {
            Single { bits: (self.bits - SINGLE_SIGN_BIT) as u32 }
        } else {
            Single { bits: (self.bits + SINGLE_SIGN_BIT) as u32 }
        }
    }

    pub fn from_bits(bits: u32) -> (r: Single)
        ensures
            r.bits == bits,
    {
        Single { bits }
    }

    pub fn is_finite(self) -> (r: bool)
        ensures
            r == self.finite(),
    {
        if self.bits >= SINGLE_SIGN_BIT {
            self.bits - SINGLE_SIGN_BIT < SINGLE_INFINITY_BITS
        } else {
            self.bits < SINGLE_INFINITY_BITS
        }
    }

    fn magnitude(self) -> (r: u32)
        ensures
            r == self.size(),
    {
        if self.bits >= SINGLE_SIGN_BIT {
            self.bits - SINGLE_SIGN_BIT
        } else {
            self.bits
        }
    }

    fn value_key(self) -> (r: i64)
        ensures
            r == self.rank(),
    {
        if self.bits >= SINGLE_SIGN_BIT {
            -((self.bits - SINGLE_SIGN_BIT) as i64)
        } else {
            self.bits as i64
        }
    }

    pub fn is_nan(self) -> (r: bool)
        ensures
            r == self.nan(),
    {
        self.magnitude() > SINGLE_INFINITY_BITS
    }

    pub fn less_than(self, other: Single) -> (r: bool)
        ensures
            r == self.below(other),
    {
        !self.is_nan() && !other.is_nan() && self.value_key() < other.value_key()
    }

    pub fn less_equal(self, other: Single) -> (r: bool)
        ensures
            r == self.at_most(other),
    {
        !self.is_nan() && !other.is_nan() && self.value_key() <= other.value_key()
    }

    pub fn clamp(self, low: Single, high: Single) -> (r: Single)
        requires
            low.at_most(high),
        ensures
            r == self.within(low, high),
    {
        if self.less_than(low) {
            low
        } else if high.less_than(self) {
            high
        } else {
            self
        }
    }

    pub fn abs(self) -> (r: Single)
        ensures
            r == self.absolute(),
    {
        Single { bits: self.magnitude() }
    }

    /// Finite and above zero.
    pub fn is_usable(self) -> (r: bool)
        ensures
            r == (self.finite() && self.rank() > 0),
    {
        self.bits > 0 && self.bits < SINGLE_INFINITY_BITS
    }

    /// The first value is above the second; both are finite.
    pub fn exceeds(self, other: Single) -> (r: bool)
        requires
            self.finite(),
            other.finite(),
        ensures
            r == (self.rank() > other.rank()),
    {
        let a: i64 = if self.bits >= SINGLE_SIGN_BIT {
            -((self.bits - SINGLE_SIGN_BIT) as i64)
        } else {
            self.bits as i64
        };
        let b: i64 = if other.bits >= SINGLE_SIGN_BIT {
            -((other.bits - SINGLE_SIGN_BIT) as i64)
        } else {
            other.bits as i64
        };
        a > b
    }

    pub fn negated(self) -> (r: Single)
        ensures
            r == self.opposite(),
    {
        if self.bits >= SINGLE_SIGN_BIT {
            Single { bits: self.bits - SINGLE_SIGN_BIT }
        } else {
            Single { bits: self.bits + SINGLE_SIGN_BIT }
        }
    }
}

} // verus!
