//! Which way the controls of a session go.

use vstd::prelude::*;

use crate::controls::{angle_within, ControlsModel, MAX_LINE_WIDTH_PERCENT, MIN_LINE_WIDTH_PERCENT};
use crate::model::ThemePreference;
use crate::number::{Arithmetic, Real};
use crate::session::{PanelsModel, SessionModel};
use crate::single::{Single, SingleArithmetic};
use crate::tuning::angle_shifted;
use crate::value::{holds, lemma_exact, lemma_small_values, lemma_values, rounds};
use crate::work::{Animation, WorkModel};

verus! {

/// A wheel turned up asks for one iteration more, and turned down for one less;
/// there are none below zero.
pub proof fn wheels_count_iterations(session: SessionModel, delta: Real, now: Real)
    requires
        delta.finite(),
        session.controls.iterations < usize::MAX,
    ensures
        ({
            let next = session.iterations_wheeled(delta, now).next.controls.iterations;
            let old = session.controls.iterations;
            &&& delta.value() < 0real ==> next == old + 1
            &&& delta.value() > 0real ==> next == if old == 0 { 0 } else { old - 1 }
            &&& delta.value() == 0real ==> next == old
        }),
{
    lemma_small_values();
    lemma_values(delta, Real { bits: 0 });
    lemma_values(Real { bits: 0 }, delta);
    reveal(SessionModel::iterations_chosen);
    reveal(SessionModel::rendered_stepwise);
    reveal(SessionModel::routed);
    reveal(SessionModel::exact);
}

/// A wheel turned up takes the larger of two angles, and turned down the smaller
/// one.
pub proof fn wheels_raise_and_lower_angles(
    session: SessionModel,
    delta: Real,
    up: Single,
    down: Single,
    now: Real,
)
    requires
        delta.finite(),
    ensures
        ({
            let next = session.angle_wheeled(delta, up, down, now).next.controls.angle;
            &&& delta.value() < 0real ==> next == up
            &&& delta.value() > 0real ==> next == down
            &&& delta.value() == 0real ==> next == session.controls.angle
        }),
{
    lemma_small_values();
    lemma_values(delta, Real { bits: 0 });
    lemma_values(Real { bits: 0 }, delta);
    reveal(SessionModel::angle_set);
    reveal(SessionModel::rendered_exactly);
    reveal(SessionModel::exact);
}

/// Shifting an angle up never lowers it, and shifting it down never raises it.
pub proof fn shifts_go_their_way(current: Single, sv: spec_fn(SingleArithmetic) -> Single)
    requires
        0 <= current.rank() <= angle_within(Single { bits: 0x7f80_0000 }).rank(),
        current.finite(),
        ({
            let one = Single { bits: 0x3f80_0000 };
            let more = sv(SingleArithmetic::Sum(current, one));
            let less = sv(SingleArithmetic::Sum(current, one.opposite()));
            more.finite() && less.finite() && less.rank() < current.rank() < more.rank()
        }),
    ensures
        angle_shifted(current, false, sv).rank() <= current.rank() <= angle_shifted(
            current,
            true,
            sv,
        ).rank(),
{
}

/// A theme that was chosen is shown whatever the system prefers; else the
/// preference of the system is.
pub proof fn chosen_themes_are_shown(panels: PanelsModel)
    ensures
        panels.theme == ThemePreference::Light ==> !panels.dark(),
        panels.theme == ThemePreference::Dark ==> panels.dark(),
        panels.theme == ThemePreference::Auto ==> panels.dark() == panels.system_dark,
{
}

/// Line widths are kept within their limits, and those within them are kept.
pub proof fn line_widths_are_limited(percent: u16)
    ensures
        MIN_LINE_WIDTH_PERCENT <= ControlsModel::allowed_percent(percent) <= MAX_LINE_WIDTH_PERCENT,
        MIN_LINE_WIDTH_PERCENT <= percent <= MAX_LINE_WIDTH_PERCENT
            ==> ControlsModel::allowed_percent(percent) == percent,
{
}

/// The time for which an animation rests does not count, however often it is
/// asked to rest.
pub proof fn rest_does_not_count(
    work: WorkModel,
    from: Real,
    again: Real,
    until: Real,
    ev: spec_fn(Arithmetic) -> Real,
)
    requires
        rounds(ev),
        work.animation matches Some(animation) && animation.paused_at is None
            && animation.paused_millis.finite() && holds(
            animation.paused_millis.value() + (until.value() - from.value()),
        ),
        from.finite() && until.finite() && from.value() <= until.value(),
        holds(until.value() - from.value()),
    ensures
        work.paused(from).animation->0.paused_at == Some(from),
        work.paused(from).paused(again) == work.paused(from),
        ({
            let rested = work.paused(from).resumed(until, ev);
            let millis = rested.animation->0.paused_millis;
            &&& millis.value() == work.animation->0.paused_millis.value() + (until.value()
                - from.value())
            &&& rested == WorkModel {
                animation: Some(Animation { paused_millis: millis, ..work.animation->0 }),
                ..work
            }
        }),
{
    reveal(WorkModel::paused);
    reveal(WorkModel::resumed);
    lemma_small_values();
    let zero = Real { bits: 0 };
    let rest = ev(Arithmetic::Difference(until, from));
    lemma_exact(Arithmetic::Difference(until, from), ev);
    lemma_values(rest, zero);
    lemma_values(zero, rest);
    assert(rest.upper(zero).finite() && rest.upper(zero).value() == rest.value());
    lemma_exact(Arithmetic::Sum(work.animation->0.paused_millis, rest.upper(zero)), ev);
}

} // verus!
