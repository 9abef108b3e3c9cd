//! The values that numbers stand for, and calculators that round them well.

use vstd::arithmetic::power2::{
    lemma_pow2_adds, lemma_pow2_pos, lemma_pow2_strictly_increases, lemma_pow2_unfold, pow2,
};
use vstd::prelude::*;

use crate::number::{Arithmetic, Real, FRACTION_SPAN, HALF_BITS, ONE_BITS, SIGN_BIT};

verus! {

/// The power of two that makes every finite number whole.
pub open spec fn grain() -> int {
    pow2(1074) as int
}

impl Real {
    /// The value in grains: as a multiple of the smallest positive number.
    pub open spec fn grains(self) -> int {
        let size = self.significand() * pow2((self.scale() + 1074) as nat);
        if self.bits >= SIGN_BIT {
            -size
        } else {
            size
        }
    }

    /// The value of a finite number.
    #[verifier::opaque]
    pub open spec fn value(self) -> real {
        self.grains() as real / grain() as real
    }
}

/// Some number has the value.
pub open spec fn holds(v: real) -> bool {
    exists|r: Real| r.finite() && #[trigger] r.value() == v
}

/// What an operation comes to without rounding, where that is a quotient of
/// sums and products of finite values.
pub open spec fn meaning(op: Arithmetic) -> Option<real> {
    match op {
        Arithmetic::Sum(a, b) => if a.finite() && b.finite() {
            Some(a.value() + b.value())
        } else {
            None
        },
        Arithmetic::Difference(a, b) => if a.finite() && b.finite() {
            Some(a.value() - b.value())
        } else {
            None
        },
        Arithmetic::Product(a, b) => if a.finite() && b.finite() {
            Some(a.value() * b.value())
        } else {
            None
        },
        Arithmetic::Quotient(a, b) => if a.finite() && b.finite() && b.value() != 0real {
            Some(a.value() / b.value())
        } else {
            None
        },
        Arithmetic::Reciprocal(a) => if a.finite() && a.value() != 0real {
            Some(1real / a.value())
        } else {
            None
        },
        Arithmetic::Count(n) => Some(n as int as real),
        Arithmetic::Integer(n) => Some(n as int as real),
        _ => None,
    }
}

/// The answer to an operation is what it comes to.
pub open spec fn exact(op: Arithmetic, ev: spec_fn(Arithmetic) -> Real) -> bool {
    ev(op).finite() && meaning(op) == Some(ev(op).value())
}

/// A calculator rounds as binary64 arithmetic does: what a number can hold is
/// answered exactly, and a larger result never gives a smaller answer.
#[verifier::opaque]
pub open spec fn rounds(ev: spec_fn(Arithmetic) -> Real) -> bool {
    &&& forall|op: Arithmetic| #[trigger] meaning(op) is Some && holds(meaning(op)->0) ==> exact(op, ev)
    &&& forall|p: Arithmetic, q: Arithmetic|
        #![trigger meaning(p), meaning(q)]
        meaning(p) is Some && meaning(q) is Some && meaning(p)->0 <= meaning(q)->0 ==> ev(p).at_most(
            ev(q),
        )
}

/// What a number can hold is answered exactly.
pub proof fn lemma_exact(op: Arithmetic, ev: spec_fn(Arithmetic) -> Real)
    requires
        rounds(ev),
        meaning(op) is Some,
        holds(meaning(op)->0),
    ensures
        ev(op).finite(),
        ev(op).value() == meaning(op)->0,
{
    reveal(rounds);
}

/// Rounding keeps the order of results.
pub proof fn lemma_order(p: Arithmetic, q: Arithmetic, ev: spec_fn(Arithmetic) -> Real)
    requires
        rounds(ev),
        meaning(p) is Some,
        meaning(q) is Some,
        meaning(p)->0 <= meaning(q)->0,
    ensures
        ev(p).at_most(ev(q)),
{
    reveal(rounds);
}

/// What a number holds can be held.
pub proof fn lemma_held(r: Real)
    requires
        r.finite(),
    ensures
        holds(r.value()),
        holds(-r.value()),
        r.opposite().finite(),
        r.opposite().value() == -r.value(),
        r.opposite().opposite() == r,
{
    reveal(Real::value);
    let n = r.grains() as real;
    let d = grain() as real;
    lemma_pow2_pos(1074);
    assert(r.opposite().size() == r.size());
    assert(r.opposite().grains() == -r.grains());
    assert(r.opposite().value() == -r.value()) by {
        assert((-n) / d == -(n / d)) by (nonlinear_arith)
            requires
                d > 0real,
        ;
    }
}

/// The values of zero, one, and one half.
pub proof fn lemma_small_values()
    ensures
        (Real { bits: 0 }).finite(),
        (Real { bits: 0 }).value() == 0real,
        (Real { bits: SIGN_BIT }).finite(),
        (Real { bits: SIGN_BIT }).value() == 0real,
        (Real { bits: ONE_BITS }).finite(),
        (Real { bits: ONE_BITS }).value() == 1real,
        (Real { bits: ONE_BITS }).opposite().finite(),
        (Real { bits: ONE_BITS }).opposite().value() == -1real,
        (Real { bits: HALF_BITS }).finite(),
        (Real { bits: HALF_BITS }).value() == 1real / 2real,
{
    reveal(Real::value);
    let zero = Real { bits: 0 };
    let one = Real { bits: ONE_BITS };
    let half = Real { bits: HALF_BITS };
    lemma_pow2_pos(1074);
    lemma_pow2_pos(0);
    let d = grain() as real;
    assert(zero.exponent() == 0 && zero.grains() == 0) by {
        assert(0 * pow2(0) == 0) by (nonlinear_arith);
    }
    assert(0real / d == 0real) by (nonlinear_arith)
        requires
            d > 0real,
    ;
    lemma_held(zero);
    assert(zero.opposite() == Real { bits: SIGN_BIT });
    vstd::arithmetic::power2::lemma2_to64();
    vstd::arithmetic::power2::lemma2_to64_rest();
    assert(one.exponent() == 1023);
    assert(one.significand() == FRACTION_SPAN);
    assert(pow2(52) == FRACTION_SPAN);
    lemma_pow2_adds(52, 1022);
    assert(one.grains() == grain());
    assert(d / d == 1real) by (nonlinear_arith)
        requires
            d > 0real,
    ;
    lemma_held(one);
    assert(half.exponent() == 1022);
    assert(half.significand() == FRACTION_SPAN);
    lemma_pow2_adds(52, 1021);
    lemma_pow2_unfold(1074);
    let h = half.grains() as real;
    assert(d == 2real * h);
    assert(h / d == 1real / 2real) by (nonlinear_arith)
        requires
            d == 2real * h,
            d > 0real,
    ;
}

/// A product, to be looked into only where that is needed.
#[verifier::opaque]
pub open spec fn times(a: real, b: real) -> real {
    a * b
}

/// What a number can hold of a product is answered exactly.
pub proof fn lemma_product(a: Real, b: Real, ev: spec_fn(Arithmetic) -> Real)
    requires
        rounds(ev),
        a.finite() && b.finite(),
        holds(times(a.value(), b.value())),
    ensures
        ev(Arithmetic::Product(a, b)).finite(),
        ev(Arithmetic::Product(a, b)).value() == times(a.value(), b.value()),
{
    reveal(times);
    lemma_exact(Arithmetic::Product(a, b), ev);
}

/// Products with nothing and with one.
pub proof fn lemma_times(a: real)
    ensures
        times(0real, a) == 0real,
        times(a, 0real) == 0real,
        times(1real, a) == a,
        times(a, 1real) == a,
{
    reveal(times);
}

/// A product of sums is the sum of products.
pub proof fn lemma_spread(a: real, p: real, b: real, q: real, v: real)
    ensures
        times(times(a, p) + times(b, q), v) == times(times(a, v), p) + times(times(b, v), q),
{
    reveal(times);
    assert((a * p + b * q) * v == (a * v) * p + (b * v) * q) by (nonlinear_arith);
}

pub proof fn lemma_gather(a: real, b: real, c: real, p: real)
    ensures
        times(a + b + c, p) == times(a, p) + times(b, p) + times(c, p),
{
    reveal(times);
    assert((a + b + c) * p == a * p + b * p + c * p) by (nonlinear_arith);
}

pub proof fn lemma_swap(a: real, b: real)
    ensures
        times(a, b) == times(b, a),
{
    reveal(times);
    assert(a * b == b * a) by (nonlinear_arith);
}

/// How quotients by a positive number are ordered.
pub proof fn lemma_ratios(a: real, b: real, s: real)
    requires
        s > 0real,
    ensures
        a <= b ==> a / s <= b / s,
        (a / s) * s == a,
        0real / s == 0real,
        s / s == 1real,
        (-s) / s == -1real,
{
    lemma_quotient(a, s);
    lemma_quotient(b, s);
    lemma_quotient(0real, s);
    lemma_quotient(s, s);
    lemma_quotient(-s, s);
    let (p, q) = (a / s, b / s);
    if a <= b {
        assert(p <= q) by (nonlinear_arith)
            requires
                p * s <= q * s,
                s > 0real,
        ;
    }
    lemma_one_quotient(0real / s, 0real, s);
    lemma_one_quotient(s / s, 1real, s);
    lemma_one_quotient((-s) / s, -1real, s);
    assert(0real * s == 0real && 1real * s == s && (-1real) * s == -s);
}

proof fn lemma_quotient(a: real, s: real)
    requires
        s > 0real,
    ensures
        (a / s) * s == a,
{
    let q = a / s;
    assert(q * s == a) by (nonlinear_arith)
        requires
            q == a / s,
            s > 0real,
    ;
}

proof fn lemma_one_quotient(p: real, q: real, s: real)
    requires
        s > 0real,
    ensures
        p * s == q * s ==> p == q,
{
    if p * s == q * s {
        assert(p == q) by (nonlinear_arith)
            requires
                p * s == q * s,
                s > 0real,
        ;
    }
}

/// How products with a number that is not negative are ordered.
pub proof fn lemma_multiples(a: real, b: real, s: real)
    requires
        s >= 0real,
    ensures
        a <= b ==> a * s <= b * s,
        0real * s == 0real,
        1real * s == s,
{
    if a <= b {
        assert(a * s <= b * s) by (nonlinear_arith)
            requires
                a <= b,
                s >= 0real,
        ;
    }
}

/// The value of two.
pub proof fn lemma_two()
    ensures
        (Real { bits: 0x4000_0000_0000_0000 }).finite(),
        (Real { bits: 0x4000_0000_0000_0000 }).value() == 2real,
{
    reveal(Real::value);
    let two = Real { bits: 0x4000_0000_0000_0000 };
    lemma_pow2_pos(1074);
    vstd::arithmetic::power2::lemma2_to64();
    vstd::arithmetic::power2::lemma2_to64_rest();
    assert(two.exponent() == 1024);
    assert(two.significand() == FRACTION_SPAN);
    lemma_pow2_adds(52, 1023);
    lemma_pow2_unfold(1075);
    let d = grain() as real;
    let n = two.grains() as real;
    assert(n == 2real * d);
    assert(n / d == 2real) by (nonlinear_arith)
        requires
            n == 2real * d,
            d > 0real,
    ;
}

/// A larger pattern stands for a larger size.
proof fn lemma_sizes(a: Real, b: Real)
    requires
        a.bits < b.bits < SIGN_BIT,
    ensures
        0 <= a.grains() < b.grains(),
{
    let ea = (a.scale() + 1074) as nat;
    let eb = (b.scale() + 1074) as nat;
    let span = FRACTION_SPAN as int;
    lemma_pow2_pos(ea);
    lemma_pow2_pos(eb);
    let pa = pow2(ea) as int;
    let pb = pow2(eb) as int;
    let ma = a.significand();
    let mb = b.significand();
    assert(0 <= ma < 2 * span);
    assert(a.exponent() <= b.exponent());
    if ea == eb {
        assert(ma < mb);
        assert(0 <= ma * pa < mb * pa) by (nonlinear_arith)
            requires
                0 <= ma < mb,
                pa > 0,
        ;
    } else {
        assert(mb >= span);
        assert(ea < eb);
        lemma_pow2_unfold((ea + 1) as nat);
        if ea + 1 < eb {
            lemma_pow2_strictly_increases((ea + 1) as nat, eb);
        }
        assert(pb >= 2 * pa);
        assert(0 <= ma * pa < mb * pb) by (nonlinear_arith)
            requires
                0 <= ma < 2 * span,
                mb >= span,
                pb >= 2 * pa,
                pa > 0,
                span > 0,
        ;
    }
}

/// Values are ordered as numbers are.
pub proof fn lemma_values(a: Real, b: Real)
    requires
        a.finite(),
        b.finite(),
    ensures
        a.at_most(b) <==> a.value() <= b.value(),
        a.below(b) <==> a.value() < b.value(),
        a.same(b) <==> a.value() == b.value(),
{
    reveal(Real::value);
    let d = grain() as real;
    let m = a.grains();
    let n = b.grains();
    lemma_pow2_pos(1074);
    assert(m as real / d <= n as real / d <==> m <= n) by (nonlinear_arith)
        requires
            d > 0real,
    ;
    assert(m as real / d < n as real / d <==> m < n) by (nonlinear_arith)
        requires
            d > 0real,
    ;
    let p = Real { bits: a.size() as u64 };
    let q = Real { bits: b.size() as u64 };
    lemma_small_values();
    assert((Real { bits: 0 }).grains() == 0) by {
        assert(0 * pow2(0) == 0) by (nonlinear_arith);
    }
    if p.bits < q.bits {
        lemma_sizes(p, q);
    } else if q.bits < p.bits {
        lemma_sizes(q, p);
    }
    if p.bits > 0 {
        lemma_sizes(Real { bits: 0 }, p);
    }
    if q.bits > 0 {
        lemma_sizes(Real { bits: 0 }, q);
    }
    assert(a.bits >= SIGN_BIT ==> a.grains() == -p.grains());
    assert(b.bits >= SIGN_BIT ==> b.grains() == -q.grains());
}

} // verus!
