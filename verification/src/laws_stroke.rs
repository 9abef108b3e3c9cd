//! How wide lines are drawn.

use vstd::prelude::*;

use crate::number::{Arithmetic, Real, ONE_BITS};
use crate::stroke::{
    density_width, nominal_scale, normalized_width, scene_svg_width, scene_width, usable,
    StrokeWidthEstimator, Turtle3dWidthReferenceEstimator, INK_BITS, NOMINAL_EDGE_BITS,
    NORMALIZED_WIDEST_BITS, length_2d,
};
use crate::geometry::Line2d;
use crate::value::{
    holds, lemma_exact, lemma_held, lemma_order, lemma_ratios, lemma_small_values, lemma_values,
    rounds,
};

verus! {

/// A finite number is usable when its value is above zero.
proof fn lemma_usable(r: Real)
    requires
        r.finite(),
    ensures
        usable(r) <==> r.value() > 0real,
{
    lemma_small_values();
    lemma_values(Real { bits: 0 }, r);
}

proof fn lemma_ink()
    ensures
        (Real { bits: INK_BITS }).finite(),
        (Real { bits: INK_BITS }).value() > 0real,
        (Real { bits: INK_BITS }).value() < 1real,
{
    lemma_small_values();
    lemma_values(Real { bits: 0 }, Real { bits: INK_BITS });
    lemma_values(Real { bits: INK_BITS }, Real { bits: ONE_BITS });
}

/// Relative lengths need no rounding.
pub open spec fn exact_sample(
    scale: real,
    scaled: real,
    mean: real,
    length: real,
    width: real,
) -> bool {
    let longer = scale < length;
    let previous = if longer {
        scaled * (scale / length)
    } else {
        scaled
    };
    let sample = if longer {
        1real
    } else {
        length / scale
    };
    &&& longer ==> holds(scale / length) && holds(previous)
    &&& !longer ==> holds(sample)
    &&& holds(previous + sample)
    &&& holds(sample / (previous + sample))
    &&& holds(width - mean)
    &&& holds(sample / (previous + sample) * (width - mean))
    &&& holds(mean + sample / (previous + sample) * (width - mean))
}

/// The mean width is weighted by lengths: with one more sample, the total of
/// lengths grows by its length, and the total of width times length by its width
/// times its length.
pub proof fn width_references_are_weighted_means(
    before: Turtle3dWidthReferenceEstimator,
    length: Real,
    width: Real,
    ev: spec_fn(Arithmetic) -> Real,
)
    requires
        rounds(ev),
        before.length_scale.finite() && before.scaled_total_length.finite()
            && before.mean_width.finite(),
        before.length_scale.value() > 0real,
        before.scaled_total_length.value() > 0real,
        length.finite() && length.value() > 0real,
        width.finite() && width.value() > 0real,
        exact_sample(
            before.length_scale.value(),
            before.scaled_total_length.value(),
            before.mean_width.value(),
            length.value(),
            width.value(),
        ),
    ensures
        ({
            let after = before.with_sample(length, width, ev);
            let old = before.length_scale.value() * before.scaled_total_length.value();
            let new = after.length_scale.value() * after.scaled_total_length.value();
            &&& new == old + length.value()
            &&& after.mean_width.value() * new == before.mean_width.value() * old + width.value()
                * length.value()
        }),
{
    let zero = Real { bits: 0 };
    let one = Real { bits: ONE_BITS };
    lemma_small_values();
    lemma_usable(length);
    lemma_usable(width);
    lemma_values(before.scaled_total_length, zero);
    lemma_values(before.length_scale, length);
    let (s, t, m) = (
        before.length_scale.value(),
        before.scaled_total_length.value(),
        before.mean_width.value(),
    );
    let (l, w) = (length.value(), width.value());
    let longer = s < l;
    if longer {
        lemma_exact(Arithmetic::Quotient(before.length_scale, length), ev);
        lemma_exact(
            Arithmetic::Product(
                before.scaled_total_length,
                ev(Arithmetic::Quotient(before.length_scale, length)),
            ),
            ev,
        );
    } else {
        lemma_exact(Arithmetic::Quotient(length, before.length_scale), ev);
    }
    let previous = if longer {
        ev(
            Arithmetic::Product(
                before.scaled_total_length,
                ev(Arithmetic::Quotient(before.length_scale, length)),
            ),
        )
    } else {
        before.scaled_total_length
    };
    let sample = if longer {
        one
    } else {
        ev(Arithmetic::Quotient(length, before.length_scale))
    };
    let (p, q) = (previous.value(), sample.value());
    lemma_exact(Arithmetic::Sum(previous, sample), ev);
    let total = ev(Arithmetic::Sum(previous, sample));
    lemma_positive(s, t, l);
    assert(p > 0real && q > 0real);
    lemma_exact(Arithmetic::Quotient(sample, total), ev);
    lemma_exact(Arithmetic::Difference(width, before.mean_width), ev);
    let share = ev(Arithmetic::Quotient(sample, total));
    let gap = ev(Arithmetic::Difference(width, before.mean_width));
    lemma_exact(Arithmetic::Product(share, gap), ev);
    lemma_exact(Arithmetic::Sum(before.mean_width, ev(Arithmetic::Product(share, gap))), ev);
    let scale = if longer {
        l
    } else {
        s
    };
    assert(scale * p == s * t && scale * q == l) by {
        lemma_rescale(s, t, l);
    }
    lemma_weighted(scale, p, q, m, w);
}

proof fn lemma_positive(s: real, t: real, l: real)
    requires
        s > 0real,
        t > 0real,
        l > 0real,
    ensures
        t * (s / l) > 0real,
        l / s > 0real,
{
    let a = s / l;
    assert(a > 0real) by (nonlinear_arith)
        requires
            s > 0real,
            l > 0real,
            a == s / l,
    ;
    assert(t * a > 0real) by (nonlinear_arith)
        requires
            t > 0real,
            a > 0real,
    ;
    assert(l / s > 0real) by (nonlinear_arith)
        requires
            s > 0real,
            l > 0real,
    ;
}

proof fn lemma_rescale(s: real, t: real, l: real)
    requires
        s > 0real,
        l > 0real,
    ensures
        l * (t * (s / l)) == s * t,
        s * (l / s) == l,
        l * 1real == l,
{
    let r = s / l;
    assert(l * r == s) by (nonlinear_arith)
        requires
            l > 0real,
            r == s / l,
    ;
    assert(l * (t * r) == t * (l * r)) by (nonlinear_arith);
    assert(t * s == s * t) by (nonlinear_arith);
    assert(s * (l / s) == l) by (nonlinear_arith)
        requires
            s > 0real,
    ;
}

proof fn lemma_weighted(scale: real, p: real, q: real, m: real, w: real)
    requires
        p > 0real,
        q > 0real,
    ensures
        scale * (p + q) == scale * p + scale * q,
        (m + q / (p + q) * (w - m)) * (scale * (p + q)) == m * (scale * p) + w * (scale * q),
{
    let n = p + q;
    let r = q / n;
    assert(r * n == q) by (nonlinear_arith)
        requires
            n > 0real,
            r == q / n,
    ;
    assert(scale * n == scale * p + scale * q) by (nonlinear_arith)
        requires
            n == p + q,
    ;
    let d = w - m;
    let k = r * d;
    assert(k * n == (r * n) * d) by (nonlinear_arith)
        requires
            k == r * d,
    ;
    assert((m + k) * (scale * n) == scale * (m * n) + scale * (k * n)) by (nonlinear_arith);
    assert(m * n == m * p + m * q) by (nonlinear_arith)
        requires
            n == p + q,
    ;
    assert(q * d == q * w - q * m) by (nonlinear_arith)
        requires
            d == w - m,
    ;
    assert(m * q == q * m) by (nonlinear_arith);
    assert(m * n + q * d == m * p + q * w);
    let (x, y, z) = (m * n, q * d, m * p);
    let u = q * w;
    assert(scale * x + scale * y == scale * z + scale * u) by (nonlinear_arith)
        requires
            x + y == z + u,
    ;
    assert(scale * z == m * (scale * p)) by (nonlinear_arith)
        requires
            z == m * p,
    ;
    assert(scale * u == w * (scale * q)) by (nonlinear_arith)
        requires
            u == q * w,
    ;
}

/// The first sample is its own mean.
pub proof fn first_widths_are_references(length: Real, width: Real, ev: spec_fn(Arithmetic) -> Real)
    requires
        length.finite() && length.value() > 0real,
        width.finite() && width.value() > 0real,
    ensures
        ({
            let after = Turtle3dWidthReferenceEstimator::fresh().with_sample(length, width, ev);
            &&& after.length_scale.value() * after.scaled_total_length.value() == length.value()
            &&& after.mean_width == width
            &&& after.reference().value() == if width.value() < 1real {
                1real
            } else {
                width.value()
            }
        }),
{
    lemma_small_values();
    lemma_usable(length);
    lemma_usable(width);
    lemma_values(Real { bits: 0 }, Real { bits: 0 });
    lemma_values(width, Real { bits: ONE_BITS });
    let l = length.value();
    assert(l * 1real == l);
}

/// Widths in space are shown as multiples of their reference, up to three times.
pub proof fn spatial_widths_are_relative(
    width: Real,
    reference: Real,
    ev: spec_fn(Arithmetic) -> Real,
)
    requires
        rounds(ev),
        width.finite() && width.value() > 0real,
        reference.finite() && reference.value() >= 1real,
        holds(width.value() / reference.value()),
    ensures
        ({
            let shown = normalized_width(width, reference, ev);
            let times = width.value() / reference.value();
            let widest = (Real { bits: NORMALIZED_WIDEST_BITS }).value();
            shown.value() == if times > widest {
                widest
            } else {
                times
            }
        }),
{
    lemma_small_values();
    lemma_usable(width);
    lemma_values(Real { bits: ONE_BITS }, reference);
    lemma_exact(Arithmetic::Quotient(width, reference), ev);
    let shown = ev(Arithmetic::Quotient(width, reference));
    let (a, b) = (width.value(), reference.value());
    assert(a / b > 0real) by (nonlinear_arith)
        requires
            a > 0real,
            b >= 1real,
    ;
    lemma_values(shown, Real { bits: 0 });
    lemma_values(Real { bits: NORMALIZED_WIDEST_BITS }, shown);
}

/// Denser drawings have thinner lines: with the same extent and scale, a longer
/// path is never drawn wider.
pub proof fn longer_paths_are_not_wider(
    short: Real,
    long: Real,
    extent: (Real, Real),
    scale: Real,
    ev: spec_fn(Arithmetic) -> Real,
)
    requires
        rounds(ev),
        usable(short),
        usable(long),
        short.value() <= long.value(),
        ({
            let area = ev(Arithmetic::Product(extent.0, extent.1));
            let a = ev(Arithmetic::Quotient(area, short));
            let b = ev(Arithmetic::Quotient(area, long));
            &&& a.finite() && b.finite()
            &&& ev(Arithmetic::Product(a, scale)).finite()
            &&& ev(Arithmetic::Product(b, scale)).finite()
        }),
    ensures
        density_width(Some(long), extent, scale, ev).at_most(
            density_width(Some(short), extent, scale, ev),
        ),
{
    let zero = Real { bits: 0 };
    let ink = Real { bits: INK_BITS };
    lemma_small_values();
    lemma_ink();
    lemma_usable(short);
    lemma_usable(long);
    lemma_values(short, long);
    let area = ev(Arithmetic::Product(extent.0, extent.1));
    if usable(scale) && area.finite() && !area.at_most(zero) {
        lemma_values(area, zero);
        lemma_usable(scale);
        let a = ev(Arithmetic::Quotient(area, short));
        let b = ev(Arithmetic::Quotient(area, long));
        let (n, x, y) = (area.value(), short.value(), long.value());
        assert(n / y <= n / x) by (nonlinear_arith)
            requires
                n > 0real,
                0real < x <= y,
        ;
        lemma_order(Arithmetic::Quotient(area, long), Arithmetic::Quotient(area, short), ev);
        lemma_values(b, a);
        lemma_grows(b, a, scale, ev);
        let p = ev(Arithmetic::Product(a, scale));
        let q = ev(Arithmetic::Product(b, scale));
        lemma_values(q, p);
        lemma_grows(q, p, ink, ev);
        // Nothing falls below zero.
        lemma_ratios(0real, n, y);
        lemma_held(zero);
        lemma_exact(Arithmetic::Quotient(zero, long), ev);
        lemma_order(Arithmetic::Quotient(zero, long), Arithmetic::Quotient(area, long), ev);
        lemma_values(ev(Arithmetic::Quotient(zero, long)), b);
        lemma_zero_times(scale, ev);
        lemma_grows(zero, b, scale, ev);
        lemma_values(ev(Arithmetic::Product(zero, scale)), q);
        lemma_zero_times(ink, ev);
        lemma_grows(zero, q, ink, ev);
    }
}

proof fn lemma_grows(a: Real, b: Real, by: Real, ev: spec_fn(Arithmetic) -> Real)
    requires
        rounds(ev),
        a.finite() && b.finite() && by.finite(),
        a.value() <= b.value(),
        by.value() > 0real,
    ensures
        ev(Arithmetic::Product(a, by)).at_most(ev(Arithmetic::Product(b, by))),
{
    let (x, y, w) = (a.value(), b.value(), by.value());
    assert(x * w <= y * w) by (nonlinear_arith)
        requires
            x <= y,
            w > 0real,
    ;
    lemma_order(Arithmetic::Product(a, by), Arithmetic::Product(b, by), ev);
}

proof fn lemma_zero_times(by: Real, ev: spec_fn(Arithmetic) -> Real)
    requires
        rounds(ev),
        by.finite(),
    ensures
        ev(Arithmetic::Product(Real { bits: 0 }, by)).finite(),
        ev(Arithmetic::Product(Real { bits: 0 }, by)).value() == 0real,
        ev(Arithmetic::Product(Real { bits: 0 }, by)).rank() == 0,
{
    let zero = Real { bits: 0 };
    let v = by.value();
    lemma_small_values();
    lemma_held(zero);
    assert(0real * v == 0real);
    lemma_exact(Arithmetic::Product(zero, by), ev);
    lemma_values(ev(Arithmetic::Product(zero, by)), zero);
}

/// Where a path is neither sparse nor too dense, its ink covers a fixed share of
/// the drawing: the width times the length is that share of the area, in fitted
/// units.
pub proof fn ink_covers_a_share_of_the_area(
    length: Real,
    extent: (Real, Real),
    scale: Real,
    ev: spec_fn(Arithmetic) -> Real,
)
    requires
        rounds(ev),
        usable(length),
        usable(scale),
        extent.0.finite() && extent.1.finite(),
        extent.0.value() > 0real && extent.1.value() > 0real,
        ({
            let area = extent.0.value() * extent.1.value();
            let ink = (Real { bits: INK_BITS }).value();
            let diagonal = ev(Arithmetic::Hypotenuse(extent.0, extent.1));
            let sparse = ev(
                Arithmetic::Product(diagonal, Real { bits: crate::stroke::SPARSE_BITS }),
            );
            let widest = (Real { bits: crate::stroke::WIDEST_BITS }).value();
            &&& diagonal.finite() && diagonal.value() > 0real
            &&& sparse.finite() && sparse.value() < length.value()
            &&& holds(area) && holds(area / length.value())
            &&& holds(area / length.value() * scale.value())
            &&& holds(area / length.value() * scale.value() * ink)
            &&& area / length.value() * scale.value() * ink <= widest
        }),
    ensures
        density_width(Some(length), extent, scale, ev).value() * length.value() == extent.0.value()
            * extent.1.value() * scale.value() * (Real { bits: INK_BITS }).value(),
{
    let zero = Real { bits: 0 };
    let ink = Real { bits: INK_BITS };
    lemma_small_values();
    lemma_ink();
    lemma_usable(length);
    lemma_usable(scale);
    lemma_values(extent.0, zero);
    lemma_values(extent.1, zero);
    let diagonal = ev(Arithmetic::Hypotenuse(extent.0, extent.1));
    let sparse = ev(Arithmetic::Product(diagonal, Real { bits: crate::stroke::SPARSE_BITS }));
    lemma_values(diagonal, zero);
    lemma_values(length, sparse);
    lemma_exact(Arithmetic::Product(extent.0, extent.1), ev);
    let area = ev(Arithmetic::Product(extent.0, extent.1));
    let (x, y) = (extent.0.value(), extent.1.value());
    assert(x * y > 0real) by (nonlinear_arith)
        requires
            x > 0real,
            y > 0real,
    ;
    lemma_values(area, zero);
    lemma_exact(Arithmetic::Quotient(area, length), ev);
    let track = ev(Arithmetic::Quotient(area, length));
    lemma_exact(Arithmetic::Product(track, scale), ev);
    let scaled = ev(Arithmetic::Product(track, scale));
    lemma_exact(Arithmetic::Product(scaled, ink), ev);
    let fitted = ev(Arithmetic::Product(scaled, ink));
    let (n, l, s, k) = (area.value(), length.value(), scale.value(), ink.value());
    let t = n / l;
    assert(t * l == n && t > 0real) by (nonlinear_arith)
        requires
            t == n / l,
            l > 0real,
            n > 0real,
    ;
    let h = t * s;
    assert(h > 0real) by (nonlinear_arith)
        requires
            h == t * s,
            t > 0real,
            s > 0real,
    ;
    assert(h * k > 0real) by (nonlinear_arith)
        requires
            h > 0real,
            k > 0real,
    ;
    assert(h * k * l == (h * l) * k) by (nonlinear_arith);
    assert(h * l == (t * l) * s) by (nonlinear_arith)
        requires
            h == t * s,
    ;
    lemma_values(fitted, zero);
    lemma_values(Real { bits: crate::stroke::WIDEST_BITS }, fitted);
}

/// Widths in view-box units are those in fitted units by the scale between them.
pub proof fn svg_widths_are_scaled_back(
    total_line_length: Option<Real>,
    line_count: usize,
    extent: (Real, Real),
    view: Real,
    ev: spec_fn(Arithmetic) -> Real,
)
    requires
        rounds(ev),
        usable(view),
        (Real { bits: NOMINAL_EDGE_BITS }).value() > 0real,
        holds((Real { bits: NOMINAL_EDGE_BITS }).value() / view.value()),
        ({
            let scale = nominal_scale(view, ev);
            let width = scene_width(total_line_length, line_count, extent, scale, ev);
            width.finite() && holds(width.value() * view.value() / (Real { bits: NOMINAL_EDGE_BITS }).value())
        }),
    ensures
        ({
            let scale = nominal_scale(view, ev);
            let width = scene_width(total_line_length, line_count, extent, scale, ev);
            let edge = (Real { bits: NOMINAL_EDGE_BITS }).value();
            &&& scale.value() * view.value() == edge
            &&& scene_svg_width(total_line_length, line_count, extent, view, ev).value() * edge
                == width.value() * view.value()
        }),
{
    let edge = Real { bits: NOMINAL_EDGE_BITS };
    lemma_small_values();
    lemma_usable(view);
    lemma_exact(Arithmetic::Quotient(edge, view), ev);
    let scale = nominal_scale(view, ev);
    let width = scene_width(total_line_length, line_count, extent, scale, ev);
    let (e, v, s, w) = (edge.value(), view.value(), scale.value(), width.value());
    assert(s * v == e && s > 0real) by (nonlinear_arith)
        requires
            s == e / v,
            v > 0real,
            e > 0real,
    ;
    let q = w / s;
    assert(q * s == w) by (nonlinear_arith)
        requires
            q == w / s,
            s > 0real,
    ;
    assert(q * e == (q * s) * v) by (nonlinear_arith)
        requires
            s * v == e,
    ;
    let f = w * v;
    assert(q == f / e) by (nonlinear_arith)
        requires
            q * e == f,
            e > 0real,
    ;
    lemma_exact(Arithmetic::Quotient(width, scale), ev);
    assert(q * e == f);
}

/// The summary of lines counts each one that has a length, and adds its length.
pub proof fn summaries_add_lengths(
    before: StrokeWidthEstimator,
    line: Line2d,
    ev: spec_fn(Arithmetic) -> Real,
)
    requires
        rounds(ev),
        before.total.finite(),
        before.count < usize::MAX,
        usable(length_2d(line, ev)),
        holds(before.total.value() + length_2d(line, ev).value()),
    ensures
        before.with_line(line, ev).total.value() == before.total.value() + length_2d(
            line,
            ev,
        ).value(),
        before.with_line(line, ev).count == before.count + 1,
{
    lemma_exact(Arithmetic::Sum(before.total, length_2d(line, ev)), ev);
}

} // verus!
