//! Binary64 numbers by bit pattern, and the arithmetic requested on them.

use vstd::arithmetic::power2::{lemma_pow2_adds, lemma_pow2_pos, lemma_pow2_strictly_increases, pow2};
use vstd::prelude::*;

use crate::oracle::{ask, consistent, function_of};

verus! {

/// The sign bit of a binary64 pattern.
pub const SIGN_BIT: u64 = 0x8000_0000_0000_0000;

/// The pattern of positive infinity; larger magnitudes are not numbers.
pub const INFINITY_BITS: u64 = 0x7ff0_0000_0000_0000;

/// Two to the fifty-second power: the weight of the lowest exponent bit.
pub const FRACTION_SPAN: u64 = 0x10_0000_0000_0000;

/// The pattern of one half.
pub const HALF_BITS: u64 = 0x3fe0_0000_0000_0000;

/// The pattern of one.
pub const ONE_BITS: u64 = 0x3ff0_0000_0000_0000;

/// The pattern of the double nearest to pi.
pub const PI_BITS: u64 = 0x4009_21fb_5444_2d18;

/// The pattern of the double nearest to half of pi.
pub const HALF_PI_BITS: u64 = 0x3ff9_21fb_5444_2d18;

/// The pattern of one degree in radians.
pub const DEGREE_BITS: u64 = 0x3f91_df46_a252_9d39;

/// A binary64 number, held by its bit pattern.
///
/// Derived equality compares patterns; [`Real::equals`] compares values.
#[derive(Clone, Copy, Debug, PartialEq, Eq, Structural)]
pub struct Real {
    pub bits: u64,
}

/// One rounding operation on numbers.
#[derive(Clone, Copy, Debug, PartialEq, Eq, Structural)]
pub enum Arithmetic {
    /// The first plus the second.
    Sum(Real, Real),
    /// The first minus the second.
    Difference(Real, Real),
    /// The first times the second.
    Product(Real, Real),
    /// The first divided by the second.
    Quotient(Real, Real),
    /// One divided by the number.
    Reciprocal(Real),
    /// Degrees to radians.
    Radians(Real),
    Cosine(Real),
    Sine(Real),
    ArcTangent(Real),
    SquareRoot(Real),
    /// The length of the vector of two components.
    Hypotenuse(Real, Real),
    /// The nearest whole number, a half being rounded away from zero.
    Rounded(Real),
    /// The next whole number that is not below.
    Ceiling(Real),
    /// A binary32 number, by its pattern, as a number.
    Widened(u32),
    /// The nearest number that a binary32 number can hold.
    Narrowed(Real),
    /// An unsigned count as a number.
    Count(usize),
    /// A whole number as a number.
    Integer(i64),
}

/// A calculator answers every operation, and always in the same way.
pub open spec fn calculates<C: Fn(Arithmetic) -> Real>(calc: C) -> bool {
    consistent::<Arithmetic, Real, C>(calc)
}

/// What a calculator answers, as a function.
pub open spec fn answers<C: Fn(Arithmetic) -> Real>(calc: C) -> spec_fn(Arithmetic) -> Real {
    function_of::<Arithmetic, Real, C>(calc)
}

/// Ask a calculator for one result.
pub fn calculate<C: Fn(Arithmetic) -> Real>(calc: &C, op: Arithmetic) -> (r: Real)
    requires
        calculates(*calc),
    ensures
        r == answers(*calc)(op),
{
    ask(calc, op)
}

impl Real {
    /// The pattern without its sign.
    pub open spec fn size(self) -> int {
        if self.bits >= SIGN_BIT {
            self.bits - SIGN_BIT
        } else {
            self.bits as int
        }
    }

    pub open spec fn finite(self) -> bool {
        self.size() < INFINITY_BITS
    }

    pub open spec fn nan(self) -> bool {
        self.size() > INFINITY_BITS
    }

    /// A number whose order is the order of the values: both zeros map to zero.
    pub open spec fn rank(self) -> int {
        if self.bits >= SIGN_BIT {
            -self.size()
        } else {
            self.size()
        }
    }

    /// The value is below the other value; false when either is not a number.
    pub open spec fn below(self, other: Real) -> bool {
        !self.nan() && !other.nan() && self.rank() < other.rank()
    }

    /// The value is below the other value or equal to it.
    pub open spec fn at_most(self, other: Real) -> bool {
        !self.nan() && !other.nan() && self.rank() <= other.rank()
    }

    /// The value, moved to the nearer of two limits when it is beyond them.
    pub open spec fn within(self, low: Real, high: Real) -> Real {
        if self.below(low) {
            low
        } else if high.below(self) {
            high
        } else {
            self
        }
    }

    /// The values are equal: both zeros are, and what is no number never is.
    pub open spec fn same(self, other: Real) -> bool {
        !self.nan() && !other.nan() && self.rank() == other.rank()
    }

    pub open spec fn opposite(self) -> Real {
        if self.bits >= SIGN_BIT {
            Real { bits: (self.bits - SIGN_BIT) as u64 }
        } else {
            Real { bits: (self.bits + SIGN_BIT) as u64 }
        }
    }

    /// The smaller of two values; what is no number loses.
    pub open spec fn lower(self, other: Real) -> Real {
        if self.nan() || other.below(self) {
            other
        } else {
            self
        }
    }

    /// The larger of two values; what is no number loses.
    pub open spec fn upper(self, other: Real) -> Real {
        if self.nan() || self.below(other) {
            other
        } else {
            self
        }
    }

    /// The order of patterns that places every negative one below every
    /// positive one, zeros included.
    pub open spec fn total_rank(self) -> int {
        if self.bits >= SIGN_BIT {
            -self.size() - 1
        } else {
            self.size()
        }
    }

    /// The exponent field.
    pub open spec fn exponent(self) -> int {
        self.size() / FRACTION_SPAN as int
    }

    /// The significand as a whole number, with its implicit leading bit.
    pub open spec fn significand(self) -> int {
        if self.exponent() == 0 {
            self.size()
        } else {
            self.size() % FRACTION_SPAN as int + FRACTION_SPAN
        }
    }

    /// The power of two that scales the significand.
    pub open spec fn scale(self) -> int {
        if self.exponent() == 0 {
            -1074
        } else {
            self.exponent() - 1075
        }
    }

    /// The value is exactly the integer `v`.
    pub open spec fn is_integer(self, v: int) -> bool {
        let size = if v < 0 { -v } else { v };
        &&& self.finite()
        &&& if self.scale() >= 0 {
            size == self.significand() * pow2(self.scale() as nat)
        } else {
            size * pow2((-self.scale()) as nat) == self.significand()
        }
        &&& v != 0 ==> (v < 0 <==> self.bits >= SIGN_BIT)
    }

    pub fn from_bits(bits: u64) -> (r: Real)
        ensures
            r.bits == bits,
    {
        Real { bits }
    }

    pub fn to_bits(self) -> (r: u64)
        ensures
            r == self.bits,
    {
        self.bits
    }

    fn magnitude(self) -> (r: u64)
        ensures
            r == self.size(),
    {
        if self.bits >= SIGN_BIT {
            self.bits - SIGN_BIT
        } else {
            self.bits
        }
    }

    pub fn is_finite(self) -> (r: bool)
        ensures
            r == self.finite(),
    {
        self.magnitude() < INFINITY_BITS
    }

    pub fn is_nan(self) -> (r: bool)
        ensures
            r == self.nan(),
    {
        self.magnitude() > INFINITY_BITS
    }

    /// A key that orders as the values do; both zeros have the same key.
    pub fn value_key(self) -> (r: i64)
        ensures
            r == self.rank(),
    {
        if self.bits >= SIGN_BIT {
            let size: i64 = (self.bits - SIGN_BIT) as i64;
            -size
        } else {
            self.bits as i64
        }
    }

    /// A key that orders all patterns, with negative zero below zero.
    pub fn order_key(self) -> (r: i64)
        ensures
            r == self.total_rank(),
    {
        if self.bits >= SIGN_BIT {
            let size: i64 = (self.bits - SIGN_BIT) as i64;
            -size - 1
        } else {
            self.bits as i64
        }
    }

    pub fn less_than(self, other: Real) -> (r: bool)
        ensures
            r == self.below(other),
    {
        !self.is_nan() && !other.is_nan() && self.value_key() < other.value_key()
    }

    pub fn less_equal(self, other: Real) -> (r: bool)
        ensures
            r == self.at_most(other),
    {
        !self.is_nan() && !other.is_nan() && self.value_key() <= other.value_key()
    }

    /// The value is greater than zero.
    pub fn is_positive(self) -> (r: bool)
        ensures
            r == (Real { bits: 0 }).below(self),
    {
        (Real { bits: 0 }).less_than(self)
    }

    pub fn clamp(self, low: Real, high: Real) -> (r: Real)
        ensures
            r == self.within(low, high),
    {
        if self.less_than(low) {
            low
        } else if high.less_than(self) {
            high
        } else {
            self
        }
    }

    pub fn equals(self, other: Real) -> (r: bool)
        ensures
            r == self.same(other),
    {
        !self.is_nan() && !other.is_nan() && self.value_key() == other.value_key()
    }

    /// The value is less than zero.
    pub fn is_negative(self) -> (r: bool)
        ensures
            r == self.below(Real { bits: 0 }),
    {
        self.less_than(Real { bits: 0 })
    }

    /// The value with the opposite sign.
    pub fn negated(self) -> (r: Real)
        ensures
            r == self.opposite(),
    {
        if self.bits >= SIGN_BIT {
            Real { bits: self.bits - SIGN_BIT }
        } else {
            Real { bits: self.bits + SIGN_BIT }
        }
    }

    pub fn min(self, other: Real) -> (r: Real)
        ensures
            r == self.lower(other),
    {
        if self.is_nan() || other.less_than(self) {
            other
        } else {
            self
        }
    }

    pub fn max(self, other: Real) -> (r: Real)
        ensures
            r == self.upper(other),
    {
        if self.is_nan() || self.less_than(other) {
            other
        } else {
            self
        }
    }

    /// The value as a 32-bit integer, when it is exactly one.
    pub fn to_i32(self) -> (r: Option<i32>)
        ensures
            match r {
                Some(v) => self.is_integer(v as int),
                None => forall|v: int| i32::MIN <= v <= i32::MAX ==> !self.is_integer(v),
            },
    {
        let size: u64 = self.magnitude();
        if size >= INFINITY_BITS {
            return None;
        }
        if size == 0 {
            proof {
                lemma_pow2_pos(1074);
                assert(self.is_integer(0)) by (nonlinear_arith)
                    requires
                        self.size() == 0,
                        self.finite(),
                        self.exponent() == 0,
                        self.significand() == 0,
                        self.scale() == -1074,
                {
                    assert(0 * pow2(1074) == 0);
                }
            }
            return Some(0);
        }
        let exponent: u64 = size / FRACTION_SPAN;
        let significand: u64 = if exponent == 0 {
            size
        } else {
            size % FRACTION_SPAN + FRACTION_SPAN
        };
        assert(significand == self.significand());
        assert(0 < significand < 2 * FRACTION_SPAN);
        assert(exponent != 0 ==> significand >= FRACTION_SPAN);
        if exponent < 1023 {
            proof {
                self.lemma_fraction_only();
            }
            return None;
        }
        if exponent > 1054 {
            proof {
                self.lemma_beyond_i32();
            }
            return None;
        }
        let shift: u64 = 1075 - exponent;
        let mut divisor: u64 = 1;
        let mut k: u64 = 0;
        proof {
            vstd::arithmetic::power2::lemma2_to64();
        }
        while k < shift
            invariant
                k <= shift <= 52,
                divisor == pow2(k as nat),
            decreases shift - k,
        {
            proof {
                vstd::arithmetic::power2::lemma_pow2_unfold((k + 1) as nat);
                if k < 51 {
                    lemma_pow2_strictly_increases(k as nat, 51);
                }
                vstd::arithmetic::power2::lemma2_to64();
                vstd::arithmetic::power2::lemma2_to64_rest();
            }
            divisor = divisor * 2;
            k = k + 1;
        }
        proof {
            lemma_pow2_pos(shift as nat);
        }
        assert(self.scale() == -(shift as int));
        let quotient: u64 = significand / divisor;
        let remainder: u64 = significand % divisor;
        let negative: bool = self.bits >= SIGN_BIT;
        let ghost d = pow2(shift as nat) as int;
        let ghost m = significand as int;
        proof {
            assert(m == quotient * d + remainder) by (nonlinear_arith)
                requires
                    quotient == m / d,
                    remainder == m % d,
                    d > 0,
            ;
            // What the value is, is settled by the division.
            assert forall|v: int| self.is_integer(v) implies remainder == 0 && (v == quotient || v
                == -quotient) && quotient > 0 by {
                let s = if v < 0 { -v } else { v };
                assert(s * d == m);
                assert(s == quotient && remainder == 0) by (nonlinear_arith)
                    requires
                        s * d == m,
                        m == quotient * d + remainder,
                        0 <= remainder < d,
                        s >= 0,
                ;
                if quotient == 0 {
                    assert(s * d == 0) by (nonlinear_arith)
                        requires
                            s == 0,
                    ;
                }
            }
        }
        if remainder != 0 {
            return None;
        }
        proof {
            assert(quotient > 0) by (nonlinear_arith)
                requires
                    m == quotient * d + remainder,
                    m > 0,
                    remainder == 0,
                    d > 0,
            ;
            if negative {
                assert(self.is_integer(-(quotient as int)));
            } else {
                assert(self.is_integer(quotient as int));
            }
        }
        if negative {
            if quotient <= 0x8000_0000 {
                let value: i64 = quotient as i64;
                Some((-value) as i32)
            } else {
                None
            }
        } else if quotient <= 0x7fff_ffff {
            Some(quotient as i32)
        } else {
            None
        }
    }

    /// A nonzero value below one in size is no integer.
    proof fn lemma_fraction_only(self)
        requires
            self.size() > 0,
            self.exponent() < 1023,
        ensures
            forall|v: int| !self.is_integer(v),
    {
        let shift = (-self.scale()) as nat;
        assert(shift >= 53);
        vstd::arithmetic::power2::lemma2_to64_rest();
        if shift > 53 {
            lemma_pow2_strictly_increases(53, shift);
        }
        let d = pow2(shift) as int;
        let m = self.significand();
        assert(0 < m < d);
        assert forall|v: int| !self.is_integer(v) by {
            let s = if v < 0 { -v } else { v };
            if self.is_integer(v) {
                assert(s * d == m);
                assert(false) by (nonlinear_arith)
                    requires
                        s * d == m,
                        0 < m < d,
                        s >= 0,
                ;
            }
        }
    }

    /// A value of two to the thirty-second or more is no 32-bit integer.
    proof fn lemma_beyond_i32(self)
        requires
            self.exponent() > 1054,
        ensures
            forall|v: int| i32::MIN <= v <= i32::MAX ==> !self.is_integer(v),
    {
        vstd::arithmetic::power2::lemma2_to64();
        let m = self.significand();
        assert(m >= FRACTION_SPAN);
        assert forall|v: int| i32::MIN <= v <= i32::MAX implies !self.is_integer(v) by {
            let s = if v < 0 { -v } else { v };
            if self.is_integer(v) {
                if self.scale() >= 0 {
                    let d = pow2(self.scale() as nat) as int;
                    lemma_pow2_pos(self.scale() as nat);
                    assert(s >= m) by (nonlinear_arith)
                        requires
                            s == m * d,
                            d >= 1,
                            m >= 0,
                    ;
                } else {
                    let shift = (-self.scale()) as nat;
                    assert(shift <= 20);
                    if shift < 20 {
                        lemma_pow2_strictly_increases(shift, 20);
                    }
                    let d = pow2(shift) as int;
                    assert(d <= 0x10_0000);
                    assert(s * d <= 0x8000_0000 * 0x10_0000) by (nonlinear_arith)
                        requires
                            0 <= s <= 0x8000_0000,
                            0 <= d <= 0x10_0000,
                    ;
                    assert(s * d == m);
                }
            }
        }
    }
}

} // verus!
