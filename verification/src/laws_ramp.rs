//! How colours, light, fog and time are spread over their ranges.

use vstd::prelude::*;

use crate::frames::{
    progress_at, rate_of, turned_for, MAX_AUTOROTATE_FRAME_BITS, SECOND_BITS, TRANSITION_BITS,
};
use crate::geometry::{Bounds3d, Point3d};
use crate::laws_rounding::{floors_keep_order, nearest_numbers_are_near, whole_numbers_stay};
use crate::laws_view::{apart, positions_go_from_zero_to_one};
use crate::number::{Arithmetic, Real, HALF_BITS, ONE_BITS, SIGN_BIT};
use crate::palette::{bounded_or, quantized, ramp_bucket, SPATIAL_THEME_DEFAULT_COLOR_BUCKETS};
use crate::rounding::WHOLE_LIMIT;
use crate::shading::{
    encoded_of, fog_at, linear_of, lit_channel, ramp_channel, unit_of, unit_or_zero, usable_depth,
    usable_light, SPATIAL_FAR_FOG_BITS, SPATIAL_NEAR_FOG_BITS,
};
use crate::single::{Single, SingleArithmetic};
use crate::spatial::{axis_position, ramp_position};
use crate::svg::{X_WEIGHT_BITS, Y_WEIGHT_BITS, Z_WEIGHT_BITS};
use crate::value::{
    exact, holds, lemma_exact, lemma_held, lemma_multiples, lemma_order, lemma_ratios,
    lemma_small_values, lemma_values, rounds,
};

verus! {

/// Buckets of the colour ramp go from the first one at zero to the last one at
/// one, and never fall in between. Positions beyond the ramp count as its ends.
pub proof fn ramp_buckets_ascend(a: Real, b: Real, ev: spec_fn(Arithmetic) -> Real)
    requires
        rounds(ev),
        a.finite() && b.finite(),
        a.value() <= b.value(),
        holds(SPATIAL_THEME_DEFAULT_COLOR_BUCKETS as int as real),
    ensures
        ramp_bucket(a, ev) <= ramp_bucket(b, ev),
        a.value() <= 0real ==> ramp_bucket(a, ev) == 0,
        b.value() >= 1real ==> ramp_bucket(b, ev) == SPATIAL_THEME_DEFAULT_COLOR_BUCKETS - 1,
{
    let zero = Real { bits: 0 };
    let one = Real { bits: ONE_BITS };
    let half = Real { bits: HALF_BITS };
    let last = SPATIAL_THEME_DEFAULT_COLOR_BUCKETS - 1;
    lemma_small_values();
    lemma_held(zero);
    lemma_values(a, zero);
    lemma_values(b, zero);
    lemma_values(one, a);
    lemma_values(one, b);
    let p = bounded_or(a, zero, one, half);
    let q = bounded_or(b, zero, one, half);
    let count = ev(Arithmetic::Count(SPATIAL_THEME_DEFAULT_COLOR_BUCKETS));
    lemma_exact(Arithmetic::Count(SPATIAL_THEME_DEFAULT_COLOR_BUCKETS), ev);
    lemma_multiples(p.value(), q.value(), count.value());
    lemma_order(Arithmetic::Product(p, count), Arithmetic::Product(q, count), ev);
    let (x, y) = (ev(Arithmetic::Product(p, count)), ev(Arithmetic::Product(q, count)));
    floors_keep_order(x, y, last);
    if a.value() <= 0real {
        assert(p.value() == 0real);
        lemma_exact(Arithmetic::Product(p, count), ev);
        whole_numbers_stay(x, 0);
    }
    if b.value() >= 1real {
        assert(q.value() == 1real);
        lemma_exact(Arithmetic::Product(q, count), ev);
        // One bucket too far is moved to the last one.
        let low = ev(Arithmetic::Count((SPATIAL_THEME_DEFAULT_COLOR_BUCKETS - 1) as usize));
        whole_numbers_stay(y, SPATIAL_THEME_DEFAULT_COLOR_BUCKETS as int);
        floors_keep_order(y, y, last);
        assert(y.floor_up_to(SPATIAL_THEME_DEFAULT_COLOR_BUCKETS as int)
            == SPATIAL_THEME_DEFAULT_COLOR_BUCKETS);
    }
}

/// A point moves along the colour ramp with x and z and against y, as it is drawn
/// in all renderers.
pub proof fn ramp_positions_follow_the_axes(
    bounds: Bounds3d,
    p: Point3d,
    q: Point3d,
    ev: spec_fn(Arithmetic) -> Real,
)
    requires
        rounds(ev),
        apart(bounds.min.0, bounds.max.0, ev),
        apart(bounds.min.1, bounds.max.1, ev),
        apart(bounds.min.2, bounds.max.2, ev),
        in_bounds(p, bounds),
        in_bounds(q, bounds),
        p.0.value() <= q.0.value(),
        p.1.value() >= q.1.value(),
        p.2.value() <= q.2.value(),
        ramp_parts_finite(bounds, p, ev),
        ramp_parts_finite(bounds, q, ev),
    ensures
        ramp_position(bounds, p, ev).at_most(ramp_position(bounds, q, ev)),
{
    let one = Real { bits: ONE_BITS };
    let zero = Real { bits: 0 };
    lemma_small_values();
    lemma_weights();
    positions_go_from_zero_to_one(p.0, q.0, bounds.min.0, bounds.max.0, ev);
    positions_go_from_zero_to_one(q.1, p.1, bounds.min.1, bounds.max.1, ev);
    positions_go_from_zero_to_one(p.2, q.2, bounds.min.2, bounds.max.2, ev);
    let (px, qx) = (
        axis_position(p.0, bounds.min.0, bounds.max.0, ev),
        axis_position(q.0, bounds.min.0, bounds.max.0, ev),
    );
    let (py, qy) = (
        axis_position(p.1, bounds.min.1, bounds.max.1, ev),
        axis_position(q.1, bounds.min.1, bounds.max.1, ev),
    );
    let (pz, qz) = (
        axis_position(p.2, bounds.min.2, bounds.max.2, ev),
        axis_position(q.2, bounds.min.2, bounds.max.2, ev),
    );
    lemma_values(px, qx);
    lemma_values(qy, py);
    lemma_values(pz, qz);
    let (wx, wy, wz) = (
        Real { bits: X_WEIGHT_BITS },
        Real { bits: Y_WEIGHT_BITS },
        Real { bits: Z_WEIGHT_BITS },
    );
    let (pf, qf) = (ev(Arithmetic::Difference(one, py)), ev(Arithmetic::Difference(one, qy)));
    lemma_order(Arithmetic::Difference(one, py), Arithmetic::Difference(one, qy), ev);
    lemma_values(pf, qf);
    lemma_weighted(wx, px, qx, ev);
    lemma_weighted(wy, pf, qf, ev);
    lemma_weighted(wz, pz, qz, ev);
    let (a, b) = (ev(Arithmetic::Product(wx, px)), ev(Arithmetic::Product(wx, qx)));
    let (c, d) = (ev(Arithmetic::Product(wy, pf)), ev(Arithmetic::Product(wy, qf)));
    let (e, f) = (ev(Arithmetic::Product(wz, pz)), ev(Arithmetic::Product(wz, qz)));
    lemma_order(Arithmetic::Sum(a, c), Arithmetic::Sum(b, d), ev);
    let (g, h) = (ev(Arithmetic::Sum(a, c)), ev(Arithmetic::Sum(b, d)));
    lemma_values(g, h);
    lemma_order(Arithmetic::Sum(g, e), Arithmetic::Sum(h, f), ev);
}

/// A point lies within bounds.
pub open spec fn in_bounds(p: Point3d, bounds: Bounds3d) -> bool {
    &&& p.0.finite() && p.1.finite() && p.2.finite()
    &&& bounds.min.0.value() <= p.0.value() <= bounds.max.0.value()
    &&& bounds.min.1.value() <= p.1.value() <= bounds.max.1.value()
    &&& bounds.min.2.value() <= p.2.value() <= bounds.max.2.value()
}

/// No part of a position on the ramp overflows.
pub open spec fn ramp_parts_finite(
    bounds: Bounds3d,
    p: Point3d,
    ev: spec_fn(Arithmetic) -> Real,
) -> bool {
    let one = Real { bits: ONE_BITS };
    let x = axis_position(p.0, bounds.min.0, bounds.max.0, ev);
    let y = axis_position(p.1, bounds.min.1, bounds.max.1, ev);
    let z = axis_position(p.2, bounds.min.2, bounds.max.2, ev);
    let flipped = ev(Arithmetic::Difference(one, y));
    let a = ev(Arithmetic::Product(Real { bits: X_WEIGHT_BITS }, x));
    let c = ev(Arithmetic::Product(Real { bits: Y_WEIGHT_BITS }, flipped));
    let e = ev(Arithmetic::Product(Real { bits: Z_WEIGHT_BITS }, z));
    &&& x.finite() && y.finite() && z.finite() && flipped.finite()
    &&& a.finite() && c.finite() && e.finite()
    &&& ev(Arithmetic::Sum(a, c)).finite()
    &&& ev(Arithmetic::Sum(ev(Arithmetic::Sum(a, c)), e)).finite()
}

proof fn lemma_weights()
    ensures
        (Real { bits: X_WEIGHT_BITS }).finite(),
        (Real { bits: X_WEIGHT_BITS }).value() > 0real,
        (Real { bits: Y_WEIGHT_BITS }).finite(),
        (Real { bits: Y_WEIGHT_BITS }).value() > 0real,
        (Real { bits: Z_WEIGHT_BITS }).finite(),
        (Real { bits: Z_WEIGHT_BITS }).value() > 0real,
{
    let zero = Real { bits: 0 };
    lemma_small_values();
    lemma_values(zero, Real { bits: X_WEIGHT_BITS });
    lemma_values(zero, Real { bits: Y_WEIGHT_BITS });
    lemma_values(zero, Real { bits: Z_WEIGHT_BITS });
}

proof fn lemma_weighted(w: Real, a: Real, b: Real, ev: spec_fn(Arithmetic) -> Real)
    requires
        rounds(ev),
        w.finite() && a.finite() && b.finite(),
        w.value() > 0real,
        a.value() <= b.value(),
        ev(Arithmetic::Product(w, a)).finite(),
        ev(Arithmetic::Product(w, b)).finite(),
    ensures
        ev(Arithmetic::Product(w, a)).value() <= ev(Arithmetic::Product(w, b)).value(),
{
    let (x, y, s) = (a.value(), b.value(), w.value());
    assert(s * x <= s * y) by (nonlinear_arith)
        requires
            x <= y,
            s > 0real,
    ;
    lemma_order(Arithmetic::Product(w, a), Arithmetic::Product(w, b), ev);
    lemma_values(ev(Arithmetic::Product(w, a)), ev(Arithmetic::Product(w, b)));
}

/// Fog thins out towards the viewer: what is nearer never has more of it.
pub proof fn fog_thins_towards_the_viewer(far: Real, near: Real, ev: spec_fn(Arithmetic) -> Real)
    requires
        rounds(ev),
        far.finite() && near.finite(),
        far.value() <= near.value(),
        ({
            let span = ev(
                Arithmetic::Difference(
                    Real { bits: SPATIAL_NEAR_FOG_BITS },
                    Real { bits: SPATIAL_FAR_FOG_BITS },
                ),
            );
            &&& span.finite()
            &&& ev(Arithmetic::Product(span, far)).finite()
            &&& ev(Arithmetic::Product(span, near)).finite()
        }),
    ensures
        fog_at(near, ev).at_most(fog_at(far, ev)),
{
    let (n, f) = (Real { bits: SPATIAL_NEAR_FOG_BITS }, Real { bits: SPATIAL_FAR_FOG_BITS });
    let zero = Real { bits: 0 };
    lemma_small_values();
    lemma_held(zero);
    lemma_values(n, f);
    let span = ev(Arithmetic::Difference(n, f));
    lemma_exact(Arithmetic::Difference(f, f), ev);
    lemma_order(Arithmetic::Difference(n, f), Arithmetic::Difference(f, f), ev);
    lemma_values(span, ev(Arithmetic::Difference(f, f)));
    let (s, x, y) = (span.value(), far.value(), near.value());
    assert(s * y <= s * x) by (nonlinear_arith)
        requires
            x <= y,
            s <= 0real,
    ;
    lemma_order(Arithmetic::Product(span, near), Arithmetic::Product(span, far), ev);
    let (p, q) = (ev(Arithmetic::Product(span, near)), ev(Arithmetic::Product(span, far)));
    lemma_values(p, q);
    lemma_order(Arithmetic::Sum(f, p), Arithmetic::Sum(f, q), ev);
}

/// Small numbers are calculated without rounding at both ends of a ramp.
pub open spec fn exact_ends(
    from: Single,
    to: Single,
    last: u8,
    sv: spec_fn(SingleArithmetic) -> Single,
) -> bool {
    let zero = Single { bits: 0 };
    let one = Single { bits: 0x3f80_0000 };
    let count = sv(SingleArithmetic::Count(last));
    let span = sv(SingleArithmetic::Difference(to, from));
    &&& sv(SingleArithmetic::Quotient(sv(SingleArithmetic::Count(0)), count)) == zero
    &&& sv(SingleArithmetic::Quotient(count, count)) == one
    &&& sv(SingleArithmetic::Product(span, one)) == span
    &&& sv(SingleArithmetic::Sum(from, sv(SingleArithmetic::Product(span, zero)))) == from
    &&& sv(SingleArithmetic::Sum(from, span)) == to
}

/// A ramp begins with its first colour and ends with its last one, as they are
/// encoded.
pub proof fn ramps_reach_both_colors(start: u8, end: u8, sv: spec_fn(SingleArithmetic) -> Single)
    requires
        exact_ends(
            linear_of(unit_of(start, sv), sv),
            linear_of(unit_of(end, sv), sv),
            (SPATIAL_THEME_DEFAULT_COLOR_BUCKETS - 1) as u8,
            sv,
        ),
    ensures
        ramp_channel(start, end, 0, sv) == encoded_of(linear_of(unit_of(start, sv), sv), sv),
        ramp_channel(start, end, SPATIAL_THEME_DEFAULT_COLOR_BUCKETS - 1, sv) == encoded_of(
            linear_of(unit_of(end, sv), sv),
            sv,
        ),
{
}

/// A transition begins when it is started and is complete after its time, pauses
/// not counted.
pub proof fn transitions_take_their_time(
    started: Real,
    paused: Real,
    timestamp: Real,
    ev: spec_fn(Arithmetic) -> Real,
)
    requires
        rounds(ev),
        started.finite() && paused.finite() && timestamp.finite(),
        holds(timestamp.value() - started.value()),
        holds(timestamp.value() - started.value() - paused.value()),
        ev(Arithmetic::Narrowed(Real { bits: 0 })).value() == 0real,
        ev(Arithmetic::Narrowed(Real { bits: SIGN_BIT })).value() == 0real,
        ev(Arithmetic::Narrowed(Real { bits: ONE_BITS })).value() == 1real,
    ensures
        ({
            let time = (Real { bits: TRANSITION_BITS }).value();
            let since = timestamp.value() - started.value() - paused.value();
            &&& since < 0real ==> progress_at(started, paused, timestamp, ev).value() == 0real
            &&& since >= time ==> progress_at(started, paused, timestamp, ev).value() == 1real
        }),
{
    let zero = Real { bits: 0 };
    let one = Real { bits: ONE_BITS };
    let time = Real { bits: TRANSITION_BITS };
    lemma_small_values();
    lemma_held(zero);
    lemma_held(one);
    lemma_values(zero, time);
    let first = ev(Arithmetic::Difference(timestamp, started));
    lemma_exact(Arithmetic::Difference(timestamp, started), ev);
    lemma_exact(Arithmetic::Difference(first, paused), ev);
    let gone = ev(Arithmetic::Difference(first, paused));
    lemma_values(gone, zero);
    let elapsed = gone.upper(zero);
    lemma_ratios(0real, elapsed.value(), time.value());
    lemma_ratios(time.value(), elapsed.value(), time.value());
    let ratio = ev(Arithmetic::Quotient(elapsed, time));
    lemma_exact(Arithmetic::Quotient(zero, time), ev);
    lemma_exact(Arithmetic::Quotient(time, time), ev);
    if gone.value() < 0real {
        assert(elapsed == zero);
        lemma_values(ratio, zero);
        lemma_values(one, ratio);
        assert(ratio.bits == 0 || ratio.bits == SIGN_BIT);
    }
    if gone.value() >= time.value() {
        lemma_order(Arithmetic::Quotient(time, time), Arithmetic::Quotient(elapsed, time), ev);
        lemma_values(ev(Arithmetic::Quotient(time, time)), one);
        assert(ratio.within(zero, one).rank() == one.rank());
        assert(ratio.within(zero, one) == one);
    }
}

/// A scene turns for as long as a frame has taken, within its limit, and not at
/// all in the first frame.
pub proof fn rotations_last_as_long_as_frames(
    last: Real,
    timestamp: Real,
    ev: spec_fn(Arithmetic) -> Real,
)
    requires
        rounds(ev),
        last.finite() && timestamp.finite(),
        holds(timestamp.value() - last.value()),
    ensures
        turned_for(None, timestamp, ev).value() == 0real,
        ({
            let most = (Real { bits: MAX_AUTOROTATE_FRAME_BITS }).value();
            let took = timestamp.value() - last.value();
            turned_for(Some(last), timestamp, ev).value() == if took < 0real {
                0real
            } else if took > most {
                most
            } else {
                took
            }
        }),
{
    let zero = Real { bits: 0 };
    let most = Real { bits: MAX_AUTOROTATE_FRAME_BITS };
    lemma_small_values();
    lemma_exact(Arithmetic::Difference(timestamp, last), ev);
    let took = ev(Arithmetic::Difference(timestamp, last));
    lemma_values(took, zero);
    lemma_values(most, took);
    lemma_values(most, zero);
}

/// The rate of frames is their number over the time in seconds, rounded.
pub proof fn rates_are_frames_per_second(frames: u32, elapsed: Real, ev: spec_fn(Arithmetic) -> Real)
    requires
        rounds(ev),
        elapsed.finite() && elapsed.value() > 0real,
        holds(frames as int as real),
        holds(frames as int as real * (Real { bits: SECOND_BITS }).value()),
        holds(
            frames as int as real * (Real { bits: SECOND_BITS }).value()
                / elapsed.value(),
        ),
        frames as int as real * (Real { bits: SECOND_BITS }).value() / elapsed.value()
            <= u32::MAX as int as real,
        ev(
            Arithmetic::Quotient(
                ev(
                    Arithmetic::Product(
                        ev(Arithmetic::Count(frames as usize)),
                        Real { bits: SECOND_BITS },
                    ),
                ),
                elapsed,
            ),
        ).units(true) < WHOLE_LIMIT,
    ensures
        ({
            let rate = frames as int as real * (Real { bits: SECOND_BITS }).value()
                / elapsed.value();
            let half = 1real / 2real;
            rate - half <= rate_of(frames, elapsed, ev) as int as real <= rate + half
        }),
{
    let second = Real { bits: SECOND_BITS };
    lemma_small_values();
    lemma_values(Real { bits: 0 }, second);
    lemma_exact(Arithmetic::Count(frames as usize), ev);
    let n = ev(Arithmetic::Count(frames as usize));
    lemma_exact(Arithmetic::Product(n, second), ev);
    let scaled = ev(Arithmetic::Product(n, second));
    lemma_exact(Arithmetic::Quotient(scaled, elapsed), ev);
    let rate = ev(Arithmetic::Quotient(scaled, elapsed));
    lemma_multiples(0real, n.value(), second.value());
    lemma_ratios(0real, scaled.value(), elapsed.value());
    nearest_numbers_are_near(rate);
}

/// Fog hides what is behind it: with none the lit colour is seen, and with
/// nothing but fog the background is.
pub proof fn fog_hides_what_is_behind(
    base: Single,
    background: Single,
    light: Real,
    near_depth: Real,
    ev: spec_fn(Arithmetic) -> Real,
    sv: spec_fn(SingleArithmetic) -> Single,
)
    requires
        ({
            let one = Single { bits: 0x3f80_0000 };
            let fog = sv(SingleArithmetic::Narrowed(fog_at(usable_depth(near_depth), ev)));
            let lit = lit_of(base, light, sv);
            let behind = linear_of(unit_or_zero(background), sv);
            let span = sv(SingleArithmetic::Difference(behind, lit));
            &&& fog == one || fog == (Single { bits: 0 })
            &&& sv(SingleArithmetic::Product(span, one)) == span
            &&& sv(SingleArithmetic::Sum(lit, span)) == behind
            &&& sv(
                SingleArithmetic::Sum(
                    lit,
                    sv(SingleArithmetic::Product(span, Single { bits: 0 })),
                ),
            ) == lit
        }),
    ensures
        ({
            let fog = sv(SingleArithmetic::Narrowed(fog_at(usable_depth(near_depth), ev)));
            lit_channel(base, background, light, near_depth, ev, sv) == encoded_of(
                if fog == (Single { bits: 0 }) {
                    lit_of(base, light, sv)
                } else {
                    linear_of(unit_or_zero(background), sv)
                },
                sv,
            )
        }),
{
}

/// A channel in linear light, as bright as its light says.
pub open spec fn lit_of(
    base: Single,
    light: Real,
    sv: spec_fn(SingleArithmetic) -> Single,
) -> Single {
    sv(
        SingleArithmetic::Product(
            linear_of(unit_or_zero(base), sv),
            sv(SingleArithmetic::Narrowed(usable_light(light))),
        ),
    ).within(Single { bits: 0 }, Single { bits: 0x3f80_0000 })
}

/// Levels reach both ends: the least value stays, and so does the greatest.
pub proof fn levels_reach_both_ends(
    minimum: Real,
    maximum: Real,
    buckets: usize,
    ev: spec_fn(Arithmetic) -> Real,
)
    requires
        rounds(ev),
        minimum.finite() && maximum.finite(),
        minimum.value() < maximum.value(),
        exact(Arithmetic::Difference(maximum, minimum), ev),
        buckets >= 2,
        exact(Arithmetic::Count((buckets - 1) as usize), ev),
        forall|x: Real|
            x.finite() && (x.value() == 0real || x.value() == (buckets - 1) as real)
                ==> #[trigger] ev(Arithmetic::Rounded(x)).finite() && ev(
                Arithmetic::Rounded(x),
            ).value() == x.value(),
    ensures
        quantized(minimum, minimum, maximum, buckets, ev).value() == minimum.value(),
        quantized(maximum, minimum, maximum, buckets, ev).value() == maximum.value(),
{
    lemma_level(minimum, minimum, maximum, buckets, ev);
    lemma_level(maximum, minimum, maximum, buckets, ev);
}

proof fn lemma_level(
    value: Real,
    minimum: Real,
    maximum: Real,
    buckets: usize,
    ev: spec_fn(Arithmetic) -> Real,
)
    requires
        rounds(ev),
        minimum.finite() && maximum.finite(),
        minimum.value() < maximum.value(),
        exact(Arithmetic::Difference(maximum, minimum), ev),
        buckets >= 2,
        exact(Arithmetic::Count((buckets - 1) as usize), ev),
        forall|x: Real|
            x.finite() && (x.value() == 0real || x.value() == (buckets - 1) as real)
                ==> #[trigger] ev(Arithmetic::Rounded(x)).finite() && ev(
                Arithmetic::Rounded(x),
            ).value() == x.value(),
        value == minimum || value == maximum,
    ensures
        quantized(value, minimum, maximum, buckets, ev).value() == value.value(),
{
    let zero = Real { bits: 0 };
    let one = Real { bits: ONE_BITS };
    lemma_small_values();
    lemma_held(zero);
    lemma_held(one);
    let intervals = ev(Arithmetic::Count((buckets - 1) as usize));
    let span = ev(Arithmetic::Difference(maximum, minimum));
    let (n, s) = (intervals.value(), span.value());
    lemma_held(intervals);
    lemma_held(span);
    lemma_held(minimum);
    lemma_held(maximum);
    let part = if value == minimum { 0real } else { 1real };
    let above = ev(Arithmetic::Difference(value, minimum));
    lemma_exact(Arithmetic::Difference(value, minimum), ev);
    lemma_ratios(0real, s, s);
    lemma_exact(Arithmetic::Quotient(above, span), ev);
    let share = ev(Arithmetic::Quotient(above, span));
    assert(share.value() == part);
    lemma_values(share, zero);
    lemma_values(zero, share);
    lemma_values(share, one);
    lemma_values(one, share);
    let normalized = share.within(zero, one);
    assert(normalized.finite() && normalized.value() == part);
    lemma_multiples(0real, 1real, n);
    lemma_multiples(0real, 1real, s);
    lemma_exact(Arithmetic::Product(normalized, intervals), ev);
    let steps = ev(Arithmetic::Product(normalized, intervals));
    let whole = ev(Arithmetic::Rounded(steps));
    lemma_ratios(0real, n, n);
    assert(whole.finite() && whole.value() == steps.value());
    lemma_exact(Arithmetic::Quotient(whole, intervals), ev);
    let level = ev(Arithmetic::Quotient(whole, intervals));
    assert(level.value() == part);
    lemma_exact(Arithmetic::Product(level, span), ev);
    let far = ev(Arithmetic::Product(level, span));
    lemma_exact(Arithmetic::Sum(minimum, far), ev);
}

} // verus!
