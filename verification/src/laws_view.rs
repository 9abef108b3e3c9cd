//! How drawings are blended, placed in depth, and spread over a ramp.

use vstd::prelude::*;

use crate::canvas::{blended, bucket_of, pixels_of, DEPTH_BUCKETS, LARGEST_U32_BITS};
use crate::depth::{line_depth, mean_with, ordered, sorted, DepthPrimitive};
use crate::edges::TENTH_BITS;
use crate::geometry::{Point2d, Point3d};
use crate::laws_rounding::{floors_keep_order, whole_numbers_stay};
use crate::morph::{blend_of, Anchor, MorphLine, Sides, side_width, width_or_zero};
use crate::number::{Arithmetic, Real, HALF_BITS, ONE_BITS};
use crate::spatial::{axis_position, centroid_of, drawn_to, middle_of};
use crate::value::{
    holds, lemma_exact, lemma_held, lemma_multiples, lemma_order, lemma_ratios, lemma_small_values,
    lemma_two, lemma_values, rounds,
};

verus! {

/// A blend begins at the first value and ends at the second one; without
/// rounding it is as far between them as its progress says.
pub proof fn blends_go_from_one_to_the_other(
    left: Real,
    right: Real,
    progress: Real,
    ev: spec_fn(Arithmetic) -> Real,
)
    requires
        rounds(ev),
        left.finite() && right.finite() && progress.finite(),
        holds(right.value() - left.value()),
        holds((right.value() - left.value()) * progress.value()),
        holds(left.value() + (right.value() - left.value()) * progress.value()),
    ensures
        blended(left, right, progress, ev).finite(),
        blended(left, right, progress, ev).value() == left.value() * (1real - progress.value())
            + right.value() * progress.value(),
        progress.value() == 0real ==> blended(left, right, progress, ev).value() == left.value(),
        progress.value() == 1real ==> blended(left, right, progress, ev).value() == right.value(),
        drawn_to(left, right, progress, ev) == blended(left, right, progress, ev),
{
    lemma_exact(Arithmetic::Difference(right, left), ev);
    let apart = ev(Arithmetic::Difference(right, left));
    lemma_exact(Arithmetic::Product(apart, progress), ev);
    lemma_exact(Arithmetic::Sum(left, ev(Arithmetic::Product(apart, progress))), ev);
    let (a, b, t) = (left.value(), right.value(), progress.value());
    assert(a + (b - a) * t == a * (1real - t) + b * t) by (nonlinear_arith);
    assert((b - a) * 0real == 0real && (b - a) * 1real == b - a);
}

/// Where nothing is lost, a blend at its ends is one of its values.
proof fn lemma_ends(left: Real, right: Real, progress: Real, ev: spec_fn(Arithmetic) -> Real)
    requires
        rounds(ev),
        left.finite() && right.finite() && progress.finite(),
        progress.value() == 0real || progress.value() == 1real,
        holds(right.value() - left.value()),
    ensures
        blended(left, right, progress, ev).finite(),
        blended(left, right, progress, ev).value() == if progress.value() == 0real {
            left.value()
        } else {
            right.value()
        },
{
    let d = right.value() - left.value();
    lemma_small_values();
    lemma_held(left);
    lemma_held(right);
    lemma_held(Real { bits: 0 });
    assert(d * 0real == 0real && d * 1real == d);
    blends_go_from_one_to_the_other(left, right, progress, ev);
}

/// Two places are finite, and their difference needs no rounding.
pub open spec fn close(a: Point2d, b: Point2d) -> bool {
    &&& a.0.finite() && a.1.finite() && b.0.finite() && b.1.finite()
    &&& holds(b.0.value() - a.0.value())
    &&& holds(b.1.value() - a.1.value())
}

/// Two places have the same coordinates.
pub open spec fn same_place(a: Point2d, b: Point2d) -> bool {
    a.0.value() == b.0.value() && a.1.value() == b.1.value()
}

/// A transition shows the old line first and the new one last: at the beginning
/// each end of a morph is where its source is placed, and at the end where its
/// target is.
pub proof fn transitions_begin_and_end_at_their_lines(
    line: MorphLine,
    progress: Real,
    sides: Sides,
    ev: spec_fn(Arithmetic) -> Real,
)
    requires
        rounds(ev),
        progress.finite(),
        progress.value() == 0real || progress.value() == 1real,
        blend_of(line, progress, sides, ev) is Some,
        ({
            let (from, to) = (line.source_space_is_target, line.target_space_is_target);
            &&& close(
                (sides.place)(Anchor { point: line.source_start, in_target: from }),
                (sides.place)(Anchor { point: line.target_start, in_target: to }),
            )
            &&& close(
                (sides.place)(Anchor { point: line.source_end, in_target: from }),
                (sides.place)(Anchor { point: line.target_end, in_target: to }),
            )
        }),
    ensures
        ({
            let seen = blend_of(line, progress, sides, ev)->0;
            let (from, to) = (line.source_space_is_target, line.target_space_is_target);
            if progress.value() == 0real {
                &&& same_place(
                    seen.start,
                    (sides.place)(Anchor { point: line.source_start, in_target: from }),
                )
                &&& same_place(
                    seen.end,
                    (sides.place)(Anchor { point: line.source_end, in_target: from }),
                )
            } else {
                &&& same_place(
                    seen.start,
                    (sides.place)(Anchor { point: line.target_start, in_target: to }),
                )
                &&& same_place(
                    seen.end,
                    (sides.place)(Anchor { point: line.target_end, in_target: to }),
                )
            }
        }),
{
    let (from, to) = (line.source_space_is_target, line.target_space_is_target);
    let a = (sides.place)(Anchor { point: line.source_start, in_target: from });
    let b = (sides.place)(Anchor { point: line.target_start, in_target: to });
    let c = (sides.place)(Anchor { point: line.source_end, in_target: from });
    let d = (sides.place)(Anchor { point: line.target_end, in_target: to });
    let at = crate::morph::progress_of(progress);
    lemma_small_values();
    lemma_values(progress, Real { bits: 0 });
    lemma_values(Real { bits: ONE_BITS }, progress);
    assert(at.finite() && at.value() == progress.value());
    lemma_ends(a.0, b.0, at, ev);
    lemma_ends(a.1, b.1, at, ev);
    lemma_ends(c.0, d.0, at, ev);
    lemma_ends(c.1, d.1, at, ev);
}

/// A transition has the old line's width, visibility and colour first and the new
/// line's last.
pub proof fn transitions_begin_and_end_with_their_styles(
    line: MorphLine,
    progress: Real,
    sides: Sides,
    ev: spec_fn(Arithmetic) -> Real,
)
    requires
        rounds(ev),
        progress.finite(),
        progress.value() == 0real || progress.value() == 1real,
        blend_of(line, progress, sides, ev) is Some,
        ({
            let (from, to) = (line.source_space_is_target, line.target_space_is_target);
            let a = ev(
                Arithmetic::Product(side_width(from, sides), width_or_zero(line.source_width, ev)),
            );
            let b = ev(
                Arithmetic::Product(side_width(to, sides), width_or_zero(line.target_width, ev)),
            );
            let p = ev(Arithmetic::Widened(line.source_opacity.bits));
            let q = ev(Arithmetic::Widened(line.target_opacity.bits));
            &&& a.finite() && b.finite() && holds(b.value() - a.value())
            &&& p.finite() && q.finite() && holds(q.value() - p.value())
            &&& 0real <= p.value() <= 1real && 0real <= q.value() <= 1real
        }),
    ensures
        ({
            let seen = blend_of(line, progress, sides, ev)->0;
            let (from, to) = (line.source_space_is_target, line.target_space_is_target);
            let a = ev(
                Arithmetic::Product(
                    if from {
                        sides.target_width
                    } else {
                        sides.source_width
                    },
                    width_or_zero(line.source_width, ev),
                ),
            );
            let b = ev(
                Arithmetic::Product(
                    if to {
                        sides.target_width
                    } else {
                        sides.source_width
                    },
                    width_or_zero(line.target_width, ev),
                ),
            );
            if progress.value() == 0real {
                &&& seen.width.value() == a.value()
                &&& seen.alpha.value() == ev(Arithmetic::Widened(line.source_opacity.bits)).value()
            } else {
                &&& seen.width.value() == b.value()
                &&& seen.alpha.value() == ev(Arithmetic::Widened(line.target_opacity.bits)).value()
            }
        }),
{
    let (from, to) = (line.source_space_is_target, line.target_space_is_target);
    let zero = Real { bits: 0 };
    let one = Real { bits: ONE_BITS };
    let a = ev(Arithmetic::Product(side_width(from, sides), width_or_zero(line.source_width, ev)));
    let b = ev(Arithmetic::Product(side_width(to, sides), width_or_zero(line.target_width, ev)));
    let p = ev(Arithmetic::Widened(line.source_opacity.bits));
    let q = ev(Arithmetic::Widened(line.target_opacity.bits));
    let at = crate::morph::progress_of(progress);
    lemma_small_values();
    lemma_values(progress, zero);
    lemma_values(one, progress);
    lemma_ends(a, b, at, ev);
    lemma_ends(p, q, at, ev);
    lemma_values(blended(p, q, at, ev), zero);
    lemma_values(one, blended(p, q, at, ev));
}

/// A mean of points with one more is the mean of all of them: so many times the
/// mean is the sum.
pub proof fn means_weigh_points_alike(
    mean: Real,
    value: Real,
    count: usize,
    ev: spec_fn(Arithmetic) -> Real,
)
    requires
        rounds(ev),
        mean.finite() && value.finite(),
        count > 0,
        holds(count as int as real),
        holds(1real / (count as int as real)),
        holds(value.value() - mean.value()),
        holds((value.value() - mean.value()) * (1real / (count as int as real))),
        holds(mean.value() + (value.value() - mean.value()) * (1real / (count as int as real))),
    ensures
        ({
            let weight = ev(
                Arithmetic::Quotient(Real { bits: ONE_BITS }, ev(Arithmetic::Count(count))),
            );
            let n = count as int as real;
            drawn_to(mean, value, weight, ev).value() * n == mean.value() * (n - 1real)
                + value.value()
        }),
{
    let one = Real { bits: ONE_BITS };
    let n = count as int as real;
    lemma_small_values();
    lemma_exact(Arithmetic::Count(count), ev);
    lemma_exact(Arithmetic::Quotient(one, ev(Arithmetic::Count(count))), ev);
    let weight = ev(Arithmetic::Quotient(one, ev(Arithmetic::Count(count))));
    lemma_exact(Arithmetic::Difference(value, mean), ev);
    let apart = ev(Arithmetic::Difference(value, mean));
    lemma_exact(Arithmetic::Product(apart, weight), ev);
    lemma_exact(Arithmetic::Sum(mean, ev(Arithmetic::Product(apart, weight))), ev);
    let (m, v, w) = (mean.value(), value.value(), weight.value());
    lemma_ratios(1real, 1real, n);
    let d = v - m;
    assert((m + d * w) * n == m * n + d * (w * n)) by (nonlinear_arith);
    assert(d * 1real == d);
    assert(m * (n - 1real) == m * n - m) by (nonlinear_arith);
}

/// The mean of one more point counts as many points as there are up to it.
pub proof fn centroids_are_means(
    points: Seq<Point3d>,
    mean: Point3d,
    point: Point3d,
    ev: spec_fn(Arithmetic) -> Real,
)
    requires
        points.len() < usize::MAX,
        point.0.finite() && point.1.finite() && point.2.finite(),
        centroid_of(points, ev) == Some(mean),
    ensures
        ({
            let count = (points.len() + 1) as usize;
            let weight = ev(
                Arithmetic::Quotient(Real { bits: ONE_BITS }, ev(Arithmetic::Count(count))),
            );
            let next = (
                drawn_to(mean.0, point.0, weight, ev),
                drawn_to(mean.1, point.1, weight, ev),
                drawn_to(mean.2, point.2, weight, ev),
            );
            &&& centroid_of(points.push(point), ev) == Some(next)
            &&& mean_with(Some(mean), point, points.len() as usize, ev) == next
            &&& mean_with(None, point, 0, ev) == point
            &&& centroid_of(seq![point], ev) == Some(point)
        }),
{
    assert(points.push(point).drop_last() =~= points);
    assert(seq![point].drop_last() =~= Seq::<Point3d>::empty());
    assert(centroid_of(Seq::<Point3d>::empty(), ev) is None);
}

/// The middle of two coordinates is as far from one as from the other.
pub proof fn middles_are_in_the_middle(first: Real, second: Real, ev: spec_fn(Arithmetic) -> Real)
    requires
        rounds(ev),
        first.finite() && second.finite(),
        holds(first.value() / 2real),
        holds(second.value() / 2real),
        holds(first.value() + second.value()),
        holds((first.value() + second.value()) / 2real),
    ensures
        middle_of(first, second, ev).value() - first.value() == second.value() - middle_of(
            first,
            second,
            ev,
        ).value(),
        line_depth(first, second, ev).value() - first.value() == second.value() - line_depth(
            first,
            second,
            ev,
        ).value(),
{
    let half = Real { bits: HALF_BITS };
    lemma_small_values();
    lemma_exact(Arithmetic::Product(first, half), ev);
    lemma_exact(Arithmetic::Product(second, half), ev);
    lemma_exact(
        Arithmetic::Sum(ev(Arithmetic::Product(first, half)), ev(Arithmetic::Product(second, half))),
        ev,
    );
    lemma_exact(Arithmetic::Sum(first, second), ev);
    lemma_exact(Arithmetic::Product(ev(Arithmetic::Sum(first, second)), half), ev);
}

/// What is farther away is painted first, so that what is nearer covers it; what
/// is as far away is painted in the order of its source.
pub proof fn far_things_are_painted_first(order: Seq<DepthPrimitive>, i: int, j: int)
    requires
        sorted(order),
        0 <= i < j < order.len(),
        order[i].depth.finite(),
        order[j].depth.finite(),
    ensures
        order[i].depth.value() <= order[j].depth.value(),
        order[i].depth == order[j].depth ==> order[i].source_order <= order[j].source_order,
{
    assert(ordered(order[i], order[j]));
    lemma_values(order[i].depth, order[j].depth);
}

/// Limits are finite and a tenth or more apart, without rounding.
pub open spec fn apart(low: Real, high: Real, ev: spec_fn(Arithmetic) -> Real) -> bool {
    &&& low.finite() && high.finite()
    &&& ev(Arithmetic::Difference(high, low)).finite()
    &&& high.value() - low.value() >= (Real { bits: TENTH_BITS }).value()
    &&& holds(high.value() - low.value())
}

/// Positions between two limits go from zero at the lower one to one at the upper
/// one, and grow in between.
pub proof fn positions_go_from_zero_to_one(
    a: Real,
    b: Real,
    low: Real,
    high: Real,
    ev: spec_fn(Arithmetic) -> Real,
)
    requires
        rounds(ev),
        apart(low, high, ev),
        a.finite() && b.finite(),
        low.value() <= a.value() <= b.value() <= high.value(),
    ensures
        axis_position(low, low, high, ev).value() == 0real,
        axis_position(high, low, high, ev).value() == 1real,
        axis_position(a, low, high, ev).at_most(axis_position(b, low, high, ev)),
{
    lemma_position(a, low, high, ev);
    lemma_position(b, low, high, ev);
    lemma_position(low, low, high, ev);
    lemma_position(high, low, high, ev);
    let x = ev(Arithmetic::Difference(a, low));
    let y = ev(Arithmetic::Difference(b, low));
    lemma_order(Arithmetic::Difference(a, low), Arithmetic::Difference(b, low), ev);
    lemma_values(x, y);
    let span = ev(Arithmetic::Difference(high, low));
    let (p, q, s) = (x.value(), y.value(), span.value());
    lemma_ratios(p, q, s);
    lemma_order(Arithmetic::Quotient(x, span), Arithmetic::Quotient(y, span), ev);
}

proof fn lemma_position(v: Real, low: Real, high: Real, ev: spec_fn(Arithmetic) -> Real)
    requires
        rounds(ev),
        apart(low, high, ev),
        v.finite(),
        low.value() <= v.value() <= high.value(),
    ensures
        ({
            let x = ev(Arithmetic::Difference(v, low));
            let span = ev(Arithmetic::Difference(high, low));
            let r = ev(Arithmetic::Quotient(x, span));
            &&& x.finite() && span.finite() && span.value() > 0real
            &&& r.finite() && 0real <= r.value() <= 1real
            &&& axis_position(v, low, high, ev) == r
            &&& v.value() == low.value() ==> r.value() == 0real
            &&& v.value() == high.value() ==> r.value() == 1real
        }),
{
    let zero = Real { bits: 0 };
    let one = Real { bits: ONE_BITS };
    let tenth = Real { bits: TENTH_BITS };
    lemma_small_values();
    lemma_held(zero);
    lemma_held(one);
    lemma_values(zero, tenth);
    let x = ev(Arithmetic::Difference(v, low));
    let span = ev(Arithmetic::Difference(high, low));
    lemma_exact(Arithmetic::Difference(high, low), ev);
    lemma_values(span, tenth);
    lemma_exact(Arithmetic::Difference(low, low), ev);
    lemma_order(Arithmetic::Difference(low, low), Arithmetic::Difference(v, low), ev);
    lemma_order(Arithmetic::Difference(v, low), Arithmetic::Difference(high, low), ev);
    assert(x.finite());
    lemma_values(ev(Arithmetic::Difference(low, low)), x);
    lemma_values(x, span);
    let (a, s) = (x.value(), span.value());
    lemma_ratios(0real, a, s);
    lemma_ratios(a, s, s);
    lemma_exact(Arithmetic::Quotient(zero, span), ev);
    lemma_exact(Arithmetic::Quotient(span, span), ev);
    lemma_order(Arithmetic::Quotient(zero, span), Arithmetic::Quotient(x, span), ev);
    lemma_order(Arithmetic::Quotient(x, span), Arithmetic::Quotient(span, span), ev);
    let r = ev(Arithmetic::Quotient(x, span));
    assert(r.finite());
    lemma_values(ev(Arithmetic::Quotient(zero, span)), r);
    lemma_values(r, ev(Arithmetic::Quotient(span, span)));
    lemma_values(r, zero);
    lemma_values(one, r);
    if v.value() == low.value() {
        lemma_exact(Arithmetic::Difference(v, low), ev);
        lemma_exact(Arithmetic::Quotient(x, span), ev);
    }
    if v.value() == high.value() {
        lemma_exact(Arithmetic::Difference(v, low), ev);
        lemma_exact(Arithmetic::Quotient(x, span), ev);
    }
}

/// Depth buckets go from the far side of the fitted sphere to its near side.
pub proof fn nearer_things_have_higher_buckets(
    far: Real,
    near: Real,
    radius: Real,
    ev: spec_fn(Arithmetic) -> Real,
)
    requires
        rounds(ev),
        far.finite() && near.finite() && radius.finite(),
        radius.value() > 0real,
        -radius.value() <= far.value() <= near.value() <= radius.value(),
        holds((DEPTH_BUCKETS - 1) as real),
    ensures
        0 <= bucket_of(far, radius, ev) <= bucket_of(near, radius, ev) <= DEPTH_BUCKETS - 1,
        far.value() == -radius.value() ==> bucket_of(far, radius, ev) == 0,
        near.value() == radius.value() ==> bucket_of(near, radius, ev) == DEPTH_BUCKETS - 1,
{
    lemma_ratio(far, radius, ev);
    lemma_ratio(near, radius, ev);
    let one = Real { bits: ONE_BITS };
    let half = Real { bits: HALF_BITS };
    lemma_small_values();
    let (a, b) = (ev(Arithmetic::Quotient(far, radius)), ev(Arithmetic::Quotient(near, radius)));
    let (x, y, r) = (far.value(), near.value(), radius.value());
    lemma_ratios(x, y, r);
    lemma_order(Arithmetic::Quotient(far, radius), Arithmetic::Quotient(near, radius), ev);
    lemma_values(a, b);
    let (c, d) = (ev(Arithmetic::Sum(a, one)), ev(Arithmetic::Sum(b, one)));
    lemma_order(Arithmetic::Sum(a, one), Arithmetic::Sum(b, one), ev);
    lemma_values(c, d);
    let (e, f) = (ev(Arithmetic::Product(c, half)), ev(Arithmetic::Product(d, half)));
    lemma_order(Arithmetic::Product(c, half), Arithmetic::Product(d, half), ev);
    lemma_values(e, f);
    let count = (DEPTH_BUCKETS - 1) as usize;
    lemma_exact(Arithmetic::Count(count), ev);
    let last = ev(Arithmetic::Count(count));
    let (p, q, n) = (e.value(), f.value(), last.value());
    lemma_multiples(p, q, n);
    lemma_order(Arithmetic::Product(e, last), Arithmetic::Product(f, last), ev);
    floors_keep_order(
        ev(Arithmetic::Product(e, last)),
        ev(Arithmetic::Product(f, last)),
        DEPTH_BUCKETS - 1,
    );
    lemma_held(Real { bits: 0 });
    if p == 0real {
        lemma_exact(Arithmetic::Product(e, last), ev);
        let zero = Real { bits: 0 };
        let place = ev(Arithmetic::Product(e, last));
        lemma_values(place, zero);
        floors_keep_order(place, zero, DEPTH_BUCKETS - 1);
        floors_keep_order(zero, place, DEPTH_BUCKETS - 1);
        whole_numbers_stay(zero, 0);
    }
    if q == 1real {
        lemma_exact(Arithmetic::Product(f, last), ev);
        whole_numbers_stay(ev(Arithmetic::Product(f, last)), DEPTH_BUCKETS - 1);
    }
}

proof fn lemma_ratio(depth: Real, radius: Real, ev: spec_fn(Arithmetic) -> Real)
    requires
        rounds(ev),
        depth.finite() && radius.finite(),
        radius.value() > 0real,
        -radius.value() <= depth.value() <= radius.value(),
    ensures
        ({
            let one = Real { bits: ONE_BITS };
            let half = Real { bits: HALF_BITS };
            let a = ev(Arithmetic::Quotient(depth, radius));
            let b = ev(Arithmetic::Sum(a, one));
            let r = ev(Arithmetic::Product(b, half));
            &&& a.finite() && b.finite() && r.finite()
            &&& 0real <= r.value() <= 1real
            &&& r.within(Real { bits: 0 }, one) == r
            &&& depth.value() == -radius.value() ==> r.value() == 0real
            &&& depth.value() == radius.value() ==> r.value() == 1real
        }),
{
    let zero = Real { bits: 0 };
    let one = Real { bits: ONE_BITS };
    let half = Real { bits: HALF_BITS };
    let two = Real { bits: 0x4000_0000_0000_0000 };
    lemma_small_values();
    lemma_two();
    lemma_held(zero);
    lemma_held(one);
    lemma_held(two);
    lemma_held(radius);
    let low = radius.opposite();
    let (x, r) = (depth.value(), radius.value());
    lemma_ratios(-r, x, r);
    lemma_ratios(x, r, r);
    lemma_exact(Arithmetic::Quotient(radius, radius), ev);
    lemma_exact(Arithmetic::Quotient(low, radius), ev);
    let a = ev(Arithmetic::Quotient(depth, radius));
    let (p, q) = (
        ev(Arithmetic::Quotient(low, radius)),
        ev(Arithmetic::Quotient(radius, radius)),
    );
    lemma_order(Arithmetic::Quotient(low, radius), Arithmetic::Quotient(depth, radius), ev);
    lemma_order(Arithmetic::Quotient(depth, radius), Arithmetic::Quotient(radius, radius), ev);
    assert(a.finite());
    lemma_values(p, a);
    lemma_values(a, q);
    let b = ev(Arithmetic::Sum(a, one));
    lemma_exact(Arithmetic::Sum(p, one), ev);
    lemma_exact(Arithmetic::Sum(q, one), ev);
    lemma_order(Arithmetic::Sum(p, one), Arithmetic::Sum(a, one), ev);
    lemma_order(Arithmetic::Sum(a, one), Arithmetic::Sum(q, one), ev);
    let (s, t) = (ev(Arithmetic::Sum(p, one)), ev(Arithmetic::Sum(q, one)));
    assert(b.finite());
    lemma_values(s, b);
    lemma_values(b, t);
    let c = ev(Arithmetic::Product(b, half));
    lemma_exact(Arithmetic::Product(s, half), ev);
    lemma_exact(Arithmetic::Product(t, half), ev);
    lemma_order(Arithmetic::Product(s, half), Arithmetic::Product(b, half), ev);
    lemma_order(Arithmetic::Product(b, half), Arithmetic::Product(t, half), ev);
    assert(c.finite());
    lemma_values(ev(Arithmetic::Product(s, half)), c);
    lemma_values(c, ev(Arithmetic::Product(t, half)));
    lemma_values(c, zero);
    lemma_values(one, c);
    if x == -r {
        lemma_exact(Arithmetic::Quotient(depth, radius), ev);
        lemma_exact(Arithmetic::Sum(a, one), ev);
        lemma_exact(Arithmetic::Product(b, half), ev);
    }
    if x == r {
        lemma_exact(Arithmetic::Quotient(depth, radius), ev);
        lemma_exact(Arithmetic::Sum(a, one), ev);
        lemma_exact(Arithmetic::Product(b, half), ev);
    }
}

/// A canvas has enough device pixels for its size, and no whole one too many.
pub proof fn canvases_cover_their_size(
    logical: Real,
    scale: Real,
    pixels: int,
    ev: spec_fn(Arithmetic) -> Real,
)
    requires
        rounds(ev),
        logical.finite() && scale.finite(),
        holds(logical.value() * scale.value()),
        0 < pixels <= u32::MAX,
        (pixels - 1) as real <= logical.value() * scale.value() <= pixels as real,
        ({
            let up = ev(Arithmetic::Ceiling(ev(Arithmetic::Product(logical, scale))));
            up.finite() && up.value() == pixels as real && up.at_most(Real { bits: LARGEST_U32_BITS })
        }),
    ensures
        pixels_of(logical, scale, ev) == Some(pixels),
{
    let up = ev(Arithmetic::Ceiling(ev(Arithmetic::Product(logical, scale))));
    lemma_small_values();
    lemma_values(Real { bits: 0 }, up);
    whole_numbers_stay(up, pixels);
}

} // verus!
