//! Where numbers are rounded to.

use vstd::arithmetic::power2::{lemma_pow2_adds, lemma_pow2_pos, lemma_pow2_unfold, pow2};
use vstd::prelude::*;

use crate::number::{Real, SIGN_BIT};
use crate::rounding::WHOLE_LIMIT;
use crate::value::{grain, lemma_small_values, lemma_values};

verus! {

/// The size of a finite number in grains, against its size as a whole number.
proof fn lemma_units(r: Real)
    requires
        r.finite(),
    ensures
        ({
            let g = if r.bits >= SIGN_BIT {
                -r.grains()
            } else {
                r.grains()
            };
            &&& r.units(true) >= 0 && r.units(false) >= 0
            &&& r.units(false) * grain() <= g < (r.units(false) + 1) * grain()
            &&& 2 * r.units(true) * grain() - grain() <= 2 * g < 2 * r.units(true) * grain()
                + grain()
        }),
{
    let m = r.significand();
    let e = (r.scale() + 1074) as nat;
    lemma_pow2_pos(1074);
    lemma_pow2_pos(e);
    let p = pow2(e) as int;
    let big = grain();
    assert(m >= 0);
    if r.scale() >= 0 {
        let s = r.scale() as nat;
        lemma_pow2_pos(s);
        lemma_pow2_adds(s, 1074);
        let q = pow2(s) as int;
        assert(p == q * big);
        assert(m * p == (m * q) * big) by (nonlinear_arith)
            requires
                p == q * big,
        ;
        assert(m * q >= 0) by (nonlinear_arith)
            requires
                m >= 0,
                q >= 0,
        ;
        let u = m * q;
        assert(2 * u * big == 2 * (u * big) && (u + 1) * big == u * big + big) by (nonlinear_arith);
    } else {
        let s = (-r.scale()) as nat;
        lemma_pow2_pos(s);
        lemma_pow2_adds(s, e);
        lemma_pow2_unfold(s);
        let q = pow2(s) as int;
        assert(big == q * p);
        assert(q == 2 * pow2((s - 1) as nat));
        lemma_quotient(m, q, p, q / 2, big);
    }
}

proof fn lemma_quotient(m: int, q: int, p: int, h: int, big: int)
    requires
        m >= 0,
        q > 0,
        p > 0,
        q == 2 * h,
        big == q * p,
    ensures
        m / q >= 0,
        (m + h) / q >= 0,
        (m / q) * big <= m * p < (m / q + 1) * big,
        2 * ((m + h) / q) * big - big <= 2 * (m * p) < 2 * ((m + h) / q) * big + big,
{
    let a = m / q;
    let b = (m + h) / q;
    vstd::arithmetic::div_mod::lemma_fundamental_div_mod(m, q);
    vstd::arithmetic::div_mod::lemma_fundamental_div_mod(m + h, q);
    vstd::arithmetic::div_mod::lemma_mod_bound(m, q);
    vstd::arithmetic::div_mod::lemma_mod_bound(m + h, q);
    let x = m % q;
    let y = (m + h) % q;
    assert(a >= 0 && b >= 0) by (nonlinear_arith)
        requires
            m == q * a + x,
            m + h == q * b + y,
            0 <= x < q,
            0 <= y < q,
            m >= 0,
            h >= 0,
    ;
    assert(m * p == a * big + x * p) by (nonlinear_arith)
        requires
            m == q * a + x,
            big == q * p,
    ;
    assert(0 <= x * p < big) by (nonlinear_arith)
        requires
            0 <= x < q,
            big == q * p,
            p > 0,
    ;
    assert((a + 1) * big == a * big + big) by (nonlinear_arith);
    assert(2 * (m * p) == 2 * b * big + 2 * (y * p) - big) by (nonlinear_arith)
        requires
            m + h == q * b + y,
            big == q * p,
            q == 2 * h,
    ;
    assert(0 <= y * p < big) by (nonlinear_arith)
        requires
            0 <= y < q,
            big == q * p,
            p > 0,
    ;
}

/// A finite number that a 64-bit whole number can be near to is no more than a
/// half from the nearest one; a half goes away from zero.
pub proof fn nearest_numbers_are_near(r: Real)
    requires
        r.finite(),
        r.units(true) < WHOLE_LIMIT,
    ensures
        -WHOLE_LIMIT < r.nearest() < WHOLE_LIMIT,
        ({
            let n = r.nearest() as real;
            let half = 1real / 2real;
            &&& r.value() - half <= n <= r.value() + half
            &&& r.value() >= 0real ==> n > r.value() - half
            &&& r.value() <= 0real ==> n < r.value() + half
        }),
{
    reveal(Real::value);
    lemma_units(r);
    lemma_pow2_pos(1074);
    let big = grain() as real;
    let n = r.nearest();
    let g = r.grains();
    let v = r.value();
    let u = r.units(true);
    assert(v * big == g as real) by (nonlinear_arith)
        requires
            v == g as real / big,
            big > 0real,
    ;
    assert(2 * n * grain() - grain() <= 2 * g <= 2 * n * grain() + grain()) by (nonlinear_arith)
        requires
            n == u && g >= 0 || n == -u && g <= 0,
            2 * u * grain() - grain() <= 2 * (if g >= 0 { g } else { -g }) < 2 * u * grain() + grain(),
    ;
    let m = n as real;
    assert((2 * n * grain()) as real == 2real * (m * big)) by {
        lemma_real_product(n, grain());
    }
    assert(2real * (m * big) - big <= 2real * (v * big) <= 2real * (m * big) + big);
    let half = 1real / 2real;
    assert(v - half <= m <= v + half) by (nonlinear_arith)
        requires
            2real * (m * big) - big <= 2real * (v * big) <= 2real * (m * big) + big,
            big > 0real,
            half == 1real / 2real,
    ;
    lemma_sign(r);
    if v >= 0real {
        assert(2real * (v * big) < 2real * (m * big) + big);
        assert(v < m + half) by (nonlinear_arith)
            requires
                2real * (v * big) < 2real * (m * big) + big,
                big > 0real,
                half == 1real / 2real,
        ;
    }
    if v <= 0real {
        if r.bits < SIGN_BIT {
            assert(g == 0);
            lemma_none(u, grain());
        }
        assert(2 * n * grain() == -(2 * u * grain())) by (nonlinear_arith)
            requires
                n == -u,
        ;
        assert(2real * (m * big) - big < 2real * (v * big));
        assert(v > m - half) by (nonlinear_arith)
            requires
                2real * (m * big) - big < 2real * (v * big),
                big > 0real,
                half == 1real / 2real,
        ;
    }
}

proof fn lemma_real_product(a: int, b: int)
    ensures
        (2 * a * b) as real == 2real * (a as real * b as real),
{
    assert((2 * a * b) as real == 2real * (a as real * b as real)) by (nonlinear_arith);
}

proof fn lemma_sign(r: Real)
    requires
        r.finite(),
    ensures
        r.bits >= SIGN_BIT ==> r.grains() <= 0 && r.value() <= 0real,
        r.bits < SIGN_BIT ==> r.grains() >= 0 && r.value() >= 0real,
        r.value() == 0real ==> r.size() == 0,
        r.value() == 0real ==> r.grains() == 0,
{
    reveal(Real::value);
    let zero = Real { bits: 0 };
    lemma_small_values();
    lemma_values(r, zero);
    lemma_values(zero, r);
    lemma_pow2_pos(1074);
    let big = grain() as real;
    let g = r.grains();
    let v = r.value();
    assert(v * big == g as real) by (nonlinear_arith)
        requires
            v == g as real / big,
            big > 0real,
    ;
    assert((v <= 0real ==> v * big <= 0real) && (v >= 0real ==> v * big >= 0real)) by (nonlinear_arith)
        requires
            big > 0real,
    ;
    if v == 0real {
        assert(0real * big == 0real);
    }
}

/// A larger number is never rounded to a smaller whole number.
pub proof fn nearest_numbers_keep_order(a: Real, b: Real)
    requires
        a.at_most(b),
    ensures
        a.nearest() <= b.nearest(),
{
    reveal(Real::value);
    let limit = WHOLE_LIMIT as int;
    if a.finite() {
        lemma_units(a);
        lemma_sign(a);
    }
    if b.finite() {
        lemma_units(b);
        lemma_sign(b);
    }
    if a.finite() && b.finite() {
        lemma_values(a, b);
        lemma_pow2_pos(1074);
        let big = grain();
        let (g, h) = (a.grains(), b.grains());
        let (u, w) = (a.units(true), b.units(true));
        let (x, y) = (a.value(), b.value());
        let d = big as real;
        assert(x * d == g as real && y * d == h as real) by (nonlinear_arith)
            requires
                x == g as real / d,
                y == h as real / d,
                d > 0real,
        ;
        assert(x * d <= y * d) by (nonlinear_arith)
            requires
                x <= y,
                d > 0real,
        ;
        assert(g <= h);
        if a.bits < SIGN_BIT && b.bits < SIGN_BIT {
            assert(u <= w) by (nonlinear_arith)
                requires
                    2 * u * big - big <= 2 * g,
                    2 * h < 2 * w * big + big,
                    g <= h,
                    big > 0,
            ;
        } else if a.bits >= SIGN_BIT && b.bits >= SIGN_BIT {
            assert(w <= u) by (nonlinear_arith)
                requires
                    2 * w * big - big <= 2 * -h,
                    2 * -g < 2 * u * big + big,
                    g <= h,
                    big > 0,
            ;
        } else if b.bits >= SIGN_BIT {
            assert(g == 0 && h == 0);
            lemma_none(u, big);
            lemma_none(w, big);
        }
    } else if a.finite() {
        if a.bits >= SIGN_BIT {
            assert(b.bits < SIGN_BIT);
        }
    }
}

proof fn lemma_none(u: int, big: int)
    requires
        u >= 0,
        2 * u * big - big <= 0,
        big > 0,
    ensures
        u == 0,
{
    assert(u == 0) by (nonlinear_arith)
        requires
            u >= 0,
            2 * u * big - big <= 0,
            big > 0,
    ;
}

/// A larger number never holds fewer whole units.
pub proof fn floors_keep_order(a: Real, b: Real, limit: int)
    requires
        a.at_most(b),
        0 <= limit,
    ensures
        0 <= a.floor_up_to(limit) <= b.floor_up_to(limit) <= limit,
{
    reveal(Real::value);
    lemma_floor(a, limit);
    lemma_floor(b, limit);
    if a.finite() {
        lemma_units(a);
        lemma_sign(a);
    }
    if b.finite() {
        lemma_units(b);
        lemma_sign(b);
    }
    if a.finite() && b.finite() && a.bits < SIGN_BIT {
        lemma_values(a, b);
        lemma_pow2_pos(1074);
        let big = grain();
        let (g, h) = (a.grains(), b.grains());
        let (u, w) = (a.units(false), b.units(false));
        let (x, y) = (a.value(), b.value());
        let d = big as real;
        assert(x * d == g as real && y * d == h as real) by (nonlinear_arith)
            requires
                x == g as real / d,
                y == h as real / d,
                d > 0real,
        ;
        assert(x * d <= y * d) by (nonlinear_arith)
            requires
                x <= y,
                d > 0real,
        ;
        assert(g <= h);
        if b.bits < SIGN_BIT {
            assert(u <= w) by (nonlinear_arith)
                requires
                    u * big <= g,
                    h < (w + 1) * big,
                    g <= h,
                    big > 0,
            ;
        } else {
            assert(g == 0);
            assert(u == 0) by (nonlinear_arith)
                requires
                    u >= 0,
                    u * big <= 0,
                    big > 0,
            ;
        }
    }
}

proof fn lemma_floor(a: Real, limit: int)
    requires
        0 <= limit,
    ensures
        0 <= a.floor_up_to(limit) <= limit,
{
    if a.finite() {
        lemma_units(a);
    }
}

/// A whole number is rounded to itself.
pub proof fn whole_numbers_stay(r: Real, n: int)
    requires
        r.finite(),
        r.value() == n as real,
        -WHOLE_LIMIT < n < WHOLE_LIMIT,
    ensures
        r.nearest() == n,
        forall|limit: int| 0 <= n <= limit ==> #[trigger] r.floor_up_to(limit) == n,
{
    reveal(Real::value);
    lemma_units(r);
    lemma_sign(r);
    lemma_pow2_pos(1074);
    let big = grain();
    let d = big as real;
    let g = r.grains();
    let u = r.units(true);
    let f = r.units(false);
    assert(g as real == n as real * d) by (nonlinear_arith)
        requires
            n as real == g as real / d,
            d > 0real,
    ;
    assert(g == n * big) by {
        lemma_real_product(n, big);
        lemma_real_product(1, g);
        assert(2 * 1 * g == 2 * g);
        assert(2 * n * big == 2 * (n * big)) by (nonlinear_arith);
    }
    let k = if r.bits >= SIGN_BIT {
        -n
    } else {
        n
    };
    assert(k * big == if r.bits >= SIGN_BIT { -g } else { g }) by (nonlinear_arith)
        requires
            g == n * big,
            k == if r.bits >= SIGN_BIT { -n } else { n },
    ;
    assert(u == k) by (nonlinear_arith)
        requires
            2 * u * big - big <= 2 * (k * big) < 2 * u * big + big,
            big > 0,
    ;
    assert(f == k) by (nonlinear_arith)
        requires
            f * big <= k * big < (f + 1) * big,
            big > 0,
    ;
    if n == 0 {
        assert(r.value() == 0real);
    } else if n > 0 && r.bits >= SIGN_BIT {
        assert(r.value() > 0real);
    }
}

} // verus!
