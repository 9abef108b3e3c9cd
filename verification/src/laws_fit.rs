//! How drawings are fitted to a size, and how space is seen.

use vstd::prelude::*;

use crate::edges::{
    extent_of, fit_of, fitted_point, from_thousandths, thousandths, Fit, TENTH_BITS, THOUSAND_BITS,
};
use crate::geometry::{Line2d, Point2d, Point3d};
use crate::laws_rounding::nearest_numbers_are_near;
use crate::number::{Arithmetic, Real};
use crate::rounding::WHOLE_LIMIT;
use crate::value::{
    holds, lemma_exact, lemma_order, lemma_small_values, lemma_two, lemma_values, rounds,
};
use crate::visualize::{projected_point, QUARTER_PI_BITS, TWO_BITS};

verus! {

/// Fitting a point needs no rounding.
pub open spec fn exact_place(point: Point2d, fit: Fit) -> bool {
    &&& holds(point.0.value() * fit.scale.value())
    &&& holds(point.1.value() * fit.scale.value())
    &&& holds(point.0.value() * fit.scale.value() + fit.x_offset.value())
    &&& holds(point.1.value() * fit.scale.value() + fit.y_offset.value())
}

/// Fitting magnifies a drawing by one scale on both axes and moves it: neither
/// mirrors, turns nor stretches it.
pub proof fn fitting_keeps_the_shape(
    a: Point2d,
    b: Point2d,
    fit: Fit,
    ev: spec_fn(Arithmetic) -> Real,
)
    requires
        rounds(ev),
        a.0.finite() && a.1.finite() && b.0.finite() && b.1.finite(),
        fit.scale.finite() && fit.x_offset.finite() && fit.y_offset.finite(),
        exact_place(a, fit),
        exact_place(b, fit),
    ensures
        ({
            let p = fitted_point(a, fit, ev);
            let q = fitted_point(b, fit, ev);
            let s = fit.scale.value();
            &&& q.0.value() - p.0.value() == (b.0.value() - a.0.value()) * s
            &&& q.1.value() - p.1.value() == (b.1.value() - a.1.value()) * s
        }),
{
    lemma_place(a, fit, ev);
    lemma_place(b, fit, ev);
    lemma_difference(a.0.value(), b.0.value(), fit.scale.value());
    lemma_difference(a.1.value(), b.1.value(), fit.scale.value());
}

proof fn lemma_difference(a: real, b: real, s: real)
    ensures
        (b - a) * s == b * s - a * s,
{
    assert((b - a) * s == b * s - a * s) by (nonlinear_arith);
}

proof fn lemma_place(a: Point2d, fit: Fit, ev: spec_fn(Arithmetic) -> Real)
    requires
        rounds(ev),
        a.0.finite() && a.1.finite(),
        fit.scale.finite() && fit.x_offset.finite() && fit.y_offset.finite(),
        exact_place(a, fit),
    ensures
        ({
            let p = fitted_point(a, fit, ev);
            let s = fit.scale.value();
            &&& p.0.finite() && p.1.finite()
            &&& p.0.value() == a.0.value() * s + fit.x_offset.value()
            &&& p.1.value() == a.1.value() * s + fit.y_offset.value()
        }),
{
    lemma_exact(Arithmetic::Product(a.0, fit.scale), ev);
    lemma_exact(Arithmetic::Product(a.1, fit.scale), ev);
    lemma_exact(Arithmetic::Sum(ev(Arithmetic::Product(a.0, fit.scale)), fit.x_offset), ev);
    lemma_exact(Arithmetic::Sum(ev(Arithmetic::Product(a.1, fit.scale)), fit.y_offset), ev);
}

/// The offset of an axis needs no rounding.
pub open spec fn exact_offset(space: real, used: real, least: real, scale: real) -> bool {
    &&& holds(used * scale)
    &&& holds(space - used * scale)
    &&& holds((space - used * scale) / 2real)
    &&& holds(least * scale)
    &&& holds((space - used * scale) / 2real - least * scale)
}

/// Lines are fitted as large as both sides of the size allow, and centred: what
/// is left of the size is left in equal parts before and behind the drawing.
pub proof fn fitting_fills_and_centres(
    lines: Seq<Line2d>,
    size: Point2d,
    ev: spec_fn(Arithmetic) -> Real,
)
    requires
        rounds(ev),
        size.0.finite() && size.1.finite(),
        ({
            let extent = extent_of(lines, false);
            let width = extent.max_x.value() - extent.min_x.value();
            let height = extent.max_y.value() - extent.min_y.value();
            let tenth = (Real { bits: TENTH_BITS }).value();
            &&& extent.min_x.finite() && extent.max_x.finite() && extent.min_y.finite()
                && extent.max_y.finite()
            &&& tenth <= width && tenth <= height
            &&& holds(width) && holds(height)
            &&& holds(size.0.value() / width) && holds(size.1.value() / height)
            &&& exact_offset(
                size.0.value(),
                width,
                extent.min_x.value(),
                fit_of(lines, size, ev).scale.value(),
            )
            &&& exact_offset(
                size.1.value(),
                height,
                extent.min_y.value(),
                fit_of(lines, size, ev).scale.value(),
            )
        }),
    ensures
        ({
            let extent = extent_of(lines, false);
            let fit = fit_of(lines, size, ev);
            let s = fit.scale.value();
            let width = extent.max_x.value() - extent.min_x.value();
            let height = extent.max_y.value() - extent.min_y.value();
            let left = extent.min_x.value() * s + fit.x_offset.value();
            let right = extent.max_x.value() * s + fit.x_offset.value();
            let low = extent.min_y.value() * s + fit.y_offset.value();
            let high = extent.max_y.value() * s + fit.y_offset.value();
            &&& fit.scale.finite() && fit.x_offset.finite() && fit.y_offset.finite()
            &&& left - 0real == size.0.value() - right
            &&& low - 0real == size.1.value() - high
            &&& width * s <= size.0.value() && height * s <= size.1.value()
            &&& width * s == size.0.value() || height * s == size.1.value()
        }),
{
    let extent = extent_of(lines, false);
    let tenth = Real { bits: TENTH_BITS };
    let two = Real { bits: TWO_BITS };
    lemma_small_values();
    lemma_two();
    lemma_values(Real { bits: 0 }, tenth);
    let wide = ev(Arithmetic::Difference(extent.max_x, extent.min_x));
    let tall = ev(Arithmetic::Difference(extent.max_y, extent.min_y));
    lemma_exact(Arithmetic::Difference(extent.max_x, extent.min_x), ev);
    lemma_exact(Arithmetic::Difference(extent.max_y, extent.min_y), ev);
    lemma_values(wide, tenth);
    lemma_values(tall, tenth);
    let (w, h) = (wide.value(), tall.value());
    lemma_exact(Arithmetic::Quotient(size.0, wide), ev);
    lemma_exact(Arithmetic::Quotient(size.1, tall), ev);
    let across = ev(Arithmetic::Quotient(size.0, wide));
    let up = ev(Arithmetic::Quotient(size.1, tall));
    lemma_values(up, across);
    let fit = fit_of(lines, size, ev);
    let s = fit.scale.value();
    assert(fit.scale == across || fit.scale == up);
    assert(s <= across.value() && s <= up.value());
    lemma_offset(size.0, wide, extent.min_x, fit.scale, ev);
    lemma_offset(size.1, tall, extent.min_y, fit.scale, ev);
    let (sx, sy) = (size.0.value(), size.1.value());
    lemma_quotient(sx, w, s);
    lemma_quotient(sy, h, s);
    lemma_difference(extent.min_x.value(), extent.max_x.value(), s);
    lemma_difference(extent.min_y.value(), extent.max_y.value(), s);
}

proof fn lemma_quotient(a: real, b: real, s: real)
    requires
        b > 0real,
        s <= a / b,
    ensures
        b * s <= a,
        s == a / b ==> b * s == a,
{
    assert(b * s <= a) by (nonlinear_arith)
        requires
            b > 0real,
            s <= a / b,
    ;
    if s == a / b {
        assert(b * s == a) by (nonlinear_arith)
            requires
                b > 0real,
                s == a / b,
        ;
    }
}

proof fn lemma_offset(space: Real, used: Real, least: Real, scale: Real, ev: spec_fn(Arithmetic) -> Real)
    requires
        rounds(ev),
        space.finite() && used.finite() && least.finite() && scale.finite(),
        exact_offset(space.value(), used.value(), least.value(), scale.value()),
    ensures
        ({
            let two = Real { bits: TWO_BITS };
            let r = ev(
                Arithmetic::Difference(
                    ev(
                        Arithmetic::Quotient(
                            ev(Arithmetic::Difference(space, ev(Arithmetic::Product(used, scale)))),
                            two,
                        ),
                    ),
                    ev(Arithmetic::Product(least, scale)),
                ),
            );
            &&& r.finite()
            &&& r.value() == (space.value() - used.value() * scale.value()) / 2real - least.value()
                * scale.value()
        }),
{
    let two = Real { bits: TWO_BITS };
    lemma_two();
    lemma_exact(Arithmetic::Product(used, scale), ev);
    let a = ev(Arithmetic::Product(used, scale));
    lemma_exact(Arithmetic::Difference(space, a), ev);
    let b = ev(Arithmetic::Difference(space, a));
    lemma_exact(Arithmetic::Quotient(b, two), ev);
    lemma_exact(Arithmetic::Product(least, scale), ev);
    lemma_exact(
        Arithmetic::Difference(
            ev(Arithmetic::Quotient(b, two)),
            ev(Arithmetic::Product(least, scale)),
        ),
        ev,
    );
}

/// Fitted coordinates are kept as the nearest thousandths.
pub proof fn thousandths_are_near(v: Real, ev: spec_fn(Arithmetic) -> Real)
    requires
        rounds(ev),
        v.finite(),
        holds((Real { bits: THOUSAND_BITS }).value() * v.value()),
        ev(Arithmetic::Product(Real { bits: THOUSAND_BITS }, v)).units(true) < WHOLE_LIMIT,
    ensures
        ({
            let n = thousandths(v, ev) as int as real;
            let scaled = (Real { bits: THOUSAND_BITS }).value() * v.value();
            scaled - 1real / 2real <= n <= scaled + 1real / 2real
        }),
{
    let scaled = ev(Arithmetic::Product(Real { bits: THOUSAND_BITS }, v));
    lemma_exact(Arithmetic::Product(Real { bits: THOUSAND_BITS }, v), ev);
    nearest_numbers_are_near(scaled);
}

/// A kept coordinate is its number of thousandths over one thousand.
pub proof fn thousandths_are_read_back(n: i64, ev: spec_fn(Arithmetic) -> Real)
    requires
        rounds(ev),
        holds(n as int as real),
        (Real { bits: THOUSAND_BITS }).value() > 0real,
        holds(n as int as real / (Real { bits: THOUSAND_BITS }).value()),
    ensures
        from_thousandths(n, ev).value() * (Real { bits: THOUSAND_BITS }).value() == n as int as real,
{
    lemma_exact(Arithmetic::Integer(n), ev);
    let thousand = Real { bits: THOUSAND_BITS };
    lemma_exact(Arithmetic::Quotient(ev(Arithmetic::Integer(n)), thousand), ev);
    let (a, b) = (n as int as real, thousand.value());
    assert((a / b) * b == a) by (nonlinear_arith)
        requires
            b > 0real,
    ;
}

/// The sines and cosines of the static view, and their products with a point,
/// are finite; the view looks down from in front.
pub open spec fn looks_down(ev: spec_fn(Arithmetic) -> Real) -> bool {
    let yaw = Real { bits: QUARTER_PI_BITS };
    let pitch = ev(
        Arithmetic::ArcTangent(ev(Arithmetic::SquareRoot(Real { bits: TWO_BITS }))),
    ).opposite();
    &&& ev(Arithmetic::Sine(yaw)).finite() && ev(Arithmetic::Sine(yaw)).value() > 0real
    &&& ev(Arithmetic::Cosine(yaw)).finite() && ev(Arithmetic::Cosine(yaw)).value() > 0real
    &&& ev(Arithmetic::Cosine(pitch)).finite() && ev(Arithmetic::Cosine(pitch)).value() > 0real
    &&& ev(Arithmetic::Sine(pitch)).finite() && ev(Arithmetic::Sine(pitch)).value() < 0real
}

/// Seeing a point overflows nowhere.
pub open spec fn seen_without_overflow(p: Point3d, ev: spec_fn(Arithmetic) -> Real) -> bool {
    let yaw = Real { bits: QUARTER_PI_BITS };
    let pitch = ev(
        Arithmetic::ArcTangent(ev(Arithmetic::SquareRoot(Real { bits: TWO_BITS }))),
    ).opposite();
    let s = ev(Arithmetic::Sine(yaw));
    let c = ev(Arithmetic::Cosine(yaw));
    let u = ev(Arithmetic::Cosine(pitch));
    let v = ev(Arithmetic::Sine(pitch));
    let depth = ev(
        Arithmetic::Sum(ev(Arithmetic::Product(p.0, s)), ev(Arithmetic::Product(p.1, c))),
    );
    &&& p.0.finite() && p.1.finite() && p.2.finite()
    &&& ev(Arithmetic::Product(p.0, s)).finite() && ev(Arithmetic::Product(p.1, c)).finite()
    &&& ev(Arithmetic::Product(p.0, c)).finite() && ev(Arithmetic::Product(p.1, s)).finite()
    &&& depth.finite()
    &&& ev(Arithmetic::Product(depth, u)).finite() && ev(Arithmetic::Product(p.2, v)).finite()
}

/// In the static view, x goes to the right and y to the left; both go up with
/// distance, and z goes up.
pub proof fn the_static_view_is_upright(p: Point3d, q: Point3d, ev: spec_fn(Arithmetic) -> Real)
    requires
        rounds(ev),
        looks_down(ev),
        seen_without_overflow(p, ev),
        seen_without_overflow(q, ev),
    ensures
        p.0.value() <= q.0.value() && p.1.value() >= q.1.value() ==> projected_point(
            p,
            ev,
        ).0.at_most(projected_point(q, ev).0),
        p.0.value() <= q.0.value() && p.1.value() <= q.1.value() && p.2.value() <= q.2.value()
            ==> projected_point(p, ev).1.at_most(projected_point(q, ev).1),
{
    let yaw = Real { bits: QUARTER_PI_BITS };
    let pitch = ev(
        Arithmetic::ArcTangent(ev(Arithmetic::SquareRoot(Real { bits: TWO_BITS }))),
    ).opposite();
    let s = ev(Arithmetic::Sine(yaw));
    let c = ev(Arithmetic::Cosine(yaw));
    let u = ev(Arithmetic::Cosine(pitch));
    let v = ev(Arithmetic::Sine(pitch));
    if p.0.value() <= q.0.value() && p.1.value() >= q.1.value() {
        lemma_products(p.0, q.0, c, ev);
        lemma_products(q.1, p.1, s, ev);
        lemma_order(
            Arithmetic::Difference(ev(Arithmetic::Product(p.0, c)), ev(Arithmetic::Product(p.1, s))),
            Arithmetic::Difference(ev(Arithmetic::Product(q.0, c)), ev(Arithmetic::Product(q.1, s))),
            ev,
        );
    }
    if p.0.value() <= q.0.value() && p.1.value() <= q.1.value() && p.2.value() <= q.2.value() {
        lemma_products(p.0, q.0, s, ev);
        lemma_products(p.1, q.1, c, ev);
        let a = Arithmetic::Sum(ev(Arithmetic::Product(p.0, s)), ev(Arithmetic::Product(p.1, c)));
        let b = Arithmetic::Sum(ev(Arithmetic::Product(q.0, s)), ev(Arithmetic::Product(q.1, c)));
        lemma_order(a, b, ev);
        lemma_values(ev(a), ev(b));
        lemma_products(ev(a), ev(b), u, ev);
        // The sine of the pitch is below zero.
        let (x, y, w) = (p.2.value(), q.2.value(), v.value());
        assert(y * w <= x * w) by (nonlinear_arith)
            requires
                x <= y,
                w < 0real,
        ;
        lemma_order(Arithmetic::Product(q.2, v), Arithmetic::Product(p.2, v), ev);
        lemma_values(ev(Arithmetic::Product(q.2, v)), ev(Arithmetic::Product(p.2, v)));
        lemma_order(
            Arithmetic::Difference(ev(Arithmetic::Product(ev(a), u)), ev(Arithmetic::Product(p.2, v))),
            Arithmetic::Difference(ev(Arithmetic::Product(ev(b), u)), ev(Arithmetic::Product(q.2, v))),
            ev,
        );
    }
}

proof fn lemma_products(a: Real, b: Real, by: Real, ev: spec_fn(Arithmetic) -> Real)
    requires
        rounds(ev),
        a.finite() && b.finite() && by.finite(),
        a.value() <= b.value(),
        by.value() > 0real,
        ev(Arithmetic::Product(a, by)).finite(),
        ev(Arithmetic::Product(b, by)).finite(),
    ensures
        ev(Arithmetic::Product(a, by)).value() <= ev(Arithmetic::Product(b, by)).value(),
{
    let (x, y, w) = (a.value(), b.value(), by.value());
    assert(x * w <= y * w) by (nonlinear_arith)
        requires
            x <= y,
            w > 0real,
    ;
    lemma_order(Arithmetic::Product(a, by), Arithmetic::Product(b, by), ev);
    lemma_values(ev(Arithmetic::Product(a, by)), ev(Arithmetic::Product(b, by)));
}

/// Without rounding, the static view turns by the yaw round the vertical axis,
/// then by the pitch round the first one, and drops the depth.
pub proof fn the_static_view_is_linear(p: Point3d, ev: spec_fn(Arithmetic) -> Real)
    requires
        rounds(ev),
        seen_without_overflow(p, ev),
        looks_down(ev),
        ({
            let yaw = Real { bits: QUARTER_PI_BITS };
            let pitch = ev(
                Arithmetic::ArcTangent(ev(Arithmetic::SquareRoot(Real { bits: TWO_BITS }))),
            ).opposite();
            let (s, c) = (ev(Arithmetic::Sine(yaw)).value(), ev(Arithmetic::Cosine(yaw)).value());
            let (v, u) = (
                ev(Arithmetic::Sine(pitch)).value(),
                ev(Arithmetic::Cosine(pitch)).value(),
            );
            let (x, y, z) = (p.0.value(), p.1.value(), p.2.value());
            &&& holds(x * c) && holds(y * s) && holds(x * s) && holds(y * c)
            &&& holds(x * c - y * s) && holds(x * s + y * c)
            &&& holds((x * s + y * c) * u) && holds(z * v)
            &&& holds((x * s + y * c) * u - z * v)
        }),
    ensures
        ({
            let yaw = Real { bits: QUARTER_PI_BITS };
            let pitch = ev(
                Arithmetic::ArcTangent(ev(Arithmetic::SquareRoot(Real { bits: TWO_BITS }))),
            ).opposite();
            let (s, c) = (ev(Arithmetic::Sine(yaw)).value(), ev(Arithmetic::Cosine(yaw)).value());
            let (v, u) = (
                ev(Arithmetic::Sine(pitch)).value(),
                ev(Arithmetic::Cosine(pitch)).value(),
            );
            let (x, y, z) = (p.0.value(), p.1.value(), p.2.value());
            &&& projected_point(p, ev).0.value() == x * c - y * s
            &&& projected_point(p, ev).1.value() == (x * s + y * c) * u - z * v
        }),
{
    let yaw = Real { bits: QUARTER_PI_BITS };
    let pitch = ev(
        Arithmetic::ArcTangent(ev(Arithmetic::SquareRoot(Real { bits: TWO_BITS }))),
    ).opposite();
    let s = ev(Arithmetic::Sine(yaw));
    let c = ev(Arithmetic::Cosine(yaw));
    let u = ev(Arithmetic::Cosine(pitch));
    let v = ev(Arithmetic::Sine(pitch));
    lemma_exact(Arithmetic::Product(p.0, c), ev);
    lemma_exact(Arithmetic::Product(p.1, s), ev);
    lemma_exact(Arithmetic::Product(p.0, s), ev);
    lemma_exact(Arithmetic::Product(p.1, c), ev);
    lemma_exact(
        Arithmetic::Difference(ev(Arithmetic::Product(p.0, c)), ev(Arithmetic::Product(p.1, s))),
        ev,
    );
    let a = Arithmetic::Sum(ev(Arithmetic::Product(p.0, s)), ev(Arithmetic::Product(p.1, c)));
    lemma_exact(a, ev);
    lemma_exact(Arithmetic::Product(ev(a), u), ev);
    lemma_exact(Arithmetic::Product(p.2, v), ev);
    lemma_exact(
        Arithmetic::Difference(ev(Arithmetic::Product(ev(a), u)), ev(Arithmetic::Product(p.2, v))),
        ev,
    );
}

} // verus!
