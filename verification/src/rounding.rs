//! Numbers as whole numbers.

use vstd::arithmetic::power2::{
    lemma2_to64, lemma2_to64_rest, lemma_pow2_pos, lemma_pow2_strictly_increases,
    lemma_pow2_unfold, pow2,
};
use vstd::prelude::*;

use crate::number::{Real, FRACTION_SPAN, SIGN_BIT};

verus! {

/// Two to the sixty-third power.
pub const WHOLE_LIMIT: u64 = 0x8000_0000_0000_0000;

impl Real {
    /// The size of a finite value as a whole number: the next one below, or
    /// with `half` the nearest one, a half counting up.
    pub open spec fn units(self, half: bool) -> int {
        if self.scale() >= 0 {
            self.significand() * pow2(self.scale() as nat)
        } else {
            let span = pow2((-self.scale()) as nat) as int;
            if half {
                (self.significand() + span / 2) / span
            } else {
                self.significand() / span
            }
        }
    }

    /// The nearest 64-bit whole number: halves are rounded away from zero, what
    /// is beyond the limits is moved to them, and what is no number counts as
    /// zero.
    pub open spec fn nearest(self) -> int {
        let limit = WHOLE_LIMIT as int;
        if self.nan() {
            0
        } else if self.bits >= SIGN_BIT {
            if !self.finite() || self.units(true) >= limit {
                -limit
            } else {
                -self.units(true)
            }
        } else {
            if !self.finite() || self.units(true) >= limit {
                limit - 1
            } else {
                self.units(true)
            }
        }
    }

    /// The size as a whole number, or nothing where it takes more than
    /// sixty-three bits.
    fn whole_size(self, half: bool) -> (r: Option<u64>)
        requires
            self.finite(),
        ensures
            match r {
                Some(v) => v == self.units(half) && v < WHOLE_LIMIT,
                None => self.units(half) >= WHOLE_LIMIT,
            },
    {
        let size: u64 = if self.bits >= SIGN_BIT {
            self.bits - SIGN_BIT
        } else {
            self.bits
        };
        let exponent: u64 = size / FRACTION_SPAN;
        let significand: u64 = if exponent == 0 {
            size
        } else {
            size % FRACTION_SPAN + FRACTION_SPAN
        };
        assert(significand == self.significand());
        assert(exponent == self.exponent());
        assert(significand < 2 * FRACTION_SPAN);
        if exponent >= 1086 {
            proof {
                let s = self.scale();
                lemma2_to64();
                if s > 11 {
                    lemma_pow2_strictly_increases(11, s as nat);
                }
                let d = pow2(s as nat) as int;
                assert(significand * d >= WHOLE_LIMIT) by (nonlinear_arith)
                    requires
                        d >= 2048,
                        significand >= 0x10_0000_0000_0000,
                        WHOLE_LIMIT == 0x8000_0000_0000_0000u64,
                ;
            }
            return None;
        }
        if exponent >= 1075 {
            let shift: u64 = exponent - 1075;
            let mut factor: u64 = 1;
            let mut k: u64 = 0;
            proof {
                lemma2_to64();
            }
            while k < shift
                invariant
                    k <= shift <= 10,
                    factor == pow2(k as nat),
                decreases shift - k,
            {
                proof {
                    lemma_pow2_unfold((k + 1) as nat);
                    lemma2_to64();
                    if k < 10 {
                        lemma_pow2_strictly_increases(k as nat, 10);
                    }
                }
                factor = factor * 2;
                k = k + 1;
            }
            proof {
                lemma2_to64();
                if shift < 10 {
                    lemma_pow2_strictly_increases(shift as nat, 10);
                }
                assert(significand * factor < WHOLE_LIMIT) by (nonlinear_arith)
                    requires
                        factor <= 1024,
                        significand < 0x20_0000_0000_0000,
                        WHOLE_LIMIT == 0x8000_0000_0000_0000u64,
                ;
            }
            return Some(significand * factor);
        }
        let shift: u64 = if exponent == 0 {
            1074
        } else {
            1075 - exponent
        };
        assert(self.scale() == -(shift as int));
        if shift > 53 {
            proof {
                let span = pow2(shift as nat) as int;
                lemma2_to64();
                lemma2_to64_rest();
                lemma_pow2_strictly_increases(53, shift as nat);
                lemma_pow2_unfold(shift as nat);
                if shift > 54 {
                    lemma_pow2_strictly_increases(53, (shift - 1) as nat);
                }
                let below = pow2((shift - 1) as nat) as int;
                assert(span == 2 * below);
                assert(significand < below);
                assert(span / 2 == below);
                assert((significand + span / 2) / span == 0 && significand as int / span == 0)
                    by (nonlinear_arith)
                    requires
                        0 <= significand < below,
                        span == 2 * below,
                        span / 2 == below,
                ;
            }
            return Some(0);
        }
        let mut span: u64 = 1;
        let mut k: u64 = 0;
        proof {
            lemma2_to64();
        }
        while k < shift
            invariant
                k <= shift <= 53,
                span == pow2(k as nat),
            decreases shift - k,
        {
            proof {
                lemma_pow2_unfold((k + 1) as nat);
                if k < 52 {
                    lemma_pow2_strictly_increases(k as nat, 52);
                }
                lemma2_to64();
                lemma2_to64_rest();
            }
            span = span * 2;
            k = k + 1;
        }
        proof {
            lemma_pow2_pos(shift as nat);
            lemma2_to64();
            lemma2_to64_rest();
            if shift < 53 {
                lemma_pow2_strictly_increases(shift as nat, 53);
            }
        }
        let top: u64 = if half {
            significand + span / 2
        } else {
            significand
        };
        assert(top as int / span as int <= top) by (nonlinear_arith)
            requires
                span >= 1,
                top >= 0,
        ;
        Some(top / span)
    }

    /// The nearest 64-bit whole number.
    pub fn to_nearest(self) -> (r: i64)
        ensures
            r == self.nearest(),
    {
        if self.is_nan() {
            return 0;
        }
        let negative: bool = self.bits >= SIGN_BIT;
        if !self.is_finite() {
            return if negative {
                i64::MIN
            } else {
                i64::MAX
            };
        }
        match self.whole_size(true) {
            None => if negative {
                i64::MIN
            } else {
                i64::MAX
            },
            Some(size) => {
                let value: i64 = size as i64;
                if negative {
                    -value
                } else {
                    value
                }
            },
        }
    }

    /// How many whole units a value that is not negative holds, up to a limit.
    pub open spec fn floor_up_to(self, limit: int) -> int {
        if self.nan() || self.bits >= SIGN_BIT {
            0
        } else if !self.finite() || self.units(false) > limit {
            limit
        } else {
            self.units(false)
        }
    }

    pub fn floored(self, limit: usize) -> (r: usize)
        requires
            limit < WHOLE_LIMIT,
        ensures
            r == self.floor_up_to(limit as int),
            r <= limit,
    {
        if self.is_nan() || self.bits >= SIGN_BIT {
            return 0;
        }
        if !self.is_finite() {
            return limit;
        }
        match self.whole_size(false) {
            None => limit,
            Some(size) => if size > limit as u64 {
                limit
            } else {
                size as usize
            },
        }
    }
}

} // verus!
