//! Animation frames: what each one turns, blends and refines, and what
//! follows when it has been painted.

use vstd::prelude::*;
use vstd::string::*;

use crate::number::{answers, calculate, calculates, Arithmetic, Real, ONE_BITS};
use crate::session::{FrameClock, Motion, Session, SessionModel};
use crate::work::{Effect, IterationAnimation, Work, WorkModel};

verus! {

/// The pattern of one thousand milliseconds.
pub const SECOND_BITS: u64 = 0x408f_4000_0000_0000;

/// The pattern of the longest step of a rotation, 50 milliseconds.
pub const MAX_AUTOROTATE_FRAME_BITS: u64 = 0x4049_0000_0000_0000;

/// The pattern of the length of a transition, 600 milliseconds.
pub const TRANSITION_BITS: u64 = 0x4082_c000_0000_0000;

/// What is to be painted in a frame.
#[derive(Debug, Clone, Copy, PartialEq, Eq, Structural)]
pub enum FrameWork {
    /// The drawing is not seen.
    Hidden,
    /// Paint the transition at this linear progress; go on with
    /// `complete_animation` where it is complete.
    Animate { progress: Real, complete: bool },
    /// Draw the next exact batch.
    Refine,
    Idle,
}

/// The frames per second of a sample.
pub open spec fn rate_of(frames: u32, elapsed: Real, ev: spec_fn(Arithmetic) -> Real) -> u32 {
    let rate = ev(
        Arithmetic::Quotient(
            ev(
                Arithmetic::Product(
                    ev(Arithmetic::Count(frames as usize)),
                    Real { bits: SECOND_BITS },
                ),
            ),
            elapsed,
        ),
    ).nearest();
    if rate < 0 {
        0
    } else if rate > u32::MAX {
        u32::MAX
    } else {
        rate as u32
    }
}

fn frame_rate<C: Fn(Arithmetic) -> Real>(frames: u32, elapsed: Real, calc: &C) -> (r: u32)
    requires
        calculates(*calc),
    ensures
        r == rate_of(frames, elapsed, answers(*calc)),
{
    let count: Real = calculate(calc, Arithmetic::Count(frames as usize));
    let scaled: Real = calculate(calc, Arithmetic::Product(count, Real { bits: SECOND_BITS }));
    let rate: i64 = calculate(calc, Arithmetic::Quotient(scaled, elapsed)).to_nearest();
    if rate < 0 {
        0
    } else if rate > 0xffff_ffff {
        0xffff_ffff
    } else {
        rate as u32
    }
}

impl FrameClock {
    /// The clock in a frame, and whether a sample is complete.
    pub open spec fn ticked(self, timestamp: Real, ev: spec_fn(Arithmetic) -> Real) -> (
        FrameClock,
        bool,
    ) {
        let frames = if self.frames_since_sample == u32::MAX {
            self.frames_since_sample
        } else {
            (self.frames_since_sample + 1) as u32
        };
        let elapsed = ev(Arithmetic::Difference(timestamp, self.sample_started));
        if (Real { bits: SECOND_BITS }).at_most(elapsed) {
            (
                FrameClock {
                    frames_since_sample: 0,
                    fps: rate_of(frames, elapsed, ev),
                    sample_started: timestamp,
                    ..self
                },
                true,
            )
        } else {
            (FrameClock { frames_since_sample: frames, ..self }, false)
        }
    }

    fn tick<C: Fn(Arithmetic) -> Real>(&mut self, timestamp: Real, calc: &C) -> (r: bool)
        requires
            calculates(*calc),
        ensures
            (*final(self), r) == old(self).ticked(timestamp, answers(*calc)),
    {
        self.frames_since_sample = self.frames_since_sample.saturating_add(1);
        let elapsed: Real = calculate(
            calc,
            Arithmetic::Difference(timestamp, self.sample_started),
        );
        if (Real { bits: SECOND_BITS }).less_equal(elapsed) {
            self.fps = frame_rate(self.frames_since_sample, elapsed, calc);
            self.frames_since_sample = 0;
            self.sample_started = timestamp;
            true
        } else {
            false
        }
    }
}

/// How long a rotation has turned since the frame before, in milliseconds.
pub open spec fn turned_for(
    last: Option<Real>,
    timestamp: Real,
    ev: spec_fn(Arithmetic) -> Real,
) -> Real {
    (match last {
        Some(last) => ev(Arithmetic::Difference(timestamp, last)),
        None => Real { bits: 0 },
    }).within(Real { bits: 0 }, Real { bits: MAX_AUTOROTATE_FRAME_BITS })
}

/// The linear progress of a transition, from zero to one.
pub open spec fn progress_at(
    started: Real,
    paused_millis: Real,
    timestamp: Real,
    ev: spec_fn(Arithmetic) -> Real,
) -> Real {
    let elapsed = ev(
        Arithmetic::Difference(ev(Arithmetic::Difference(timestamp, started)), paused_millis),
    ).upper(Real { bits: 0 });
    ev(
        Arithmetic::Narrowed(
            ev(Arithmetic::Quotient(elapsed, Real { bits: TRANSITION_BITS })).within(
                Real { bits: 0 },
                Real { bits: ONE_BITS },
            ),
        ),
    )
}

fn transition_progress<C: Fn(Arithmetic) -> Real>(
    started: Real,
    paused_millis: Real,
    timestamp: Real,
    calc: &C,
) -> (r: Real)
    requires
        calculates(*calc),
    ensures
        r == progress_at(started, paused_millis, timestamp, answers(*calc)),
{
    let since: Real = calculate(calc, Arithmetic::Difference(timestamp, started));
    let elapsed: Real = calculate(calc, Arithmetic::Difference(since, paused_millis)).max(
        Real { bits: 0 },
    );
    let ratio: Real = calculate(
        calc,
        Arithmetic::Quotient(elapsed, Real { bits: TRANSITION_BITS }),
    ).clamp(Real { bits: 0 }, Real { bits: ONE_BITS });
    calculate(calc, Arithmetic::Narrowed(ratio))
}

/// What a frame leads to.
pub struct Framed {
    pub next: SessionModel,
    pub effects: Seq<Effect>,
    pub work: FrameWork,
    pub refresh: bool,
}

impl SessionModel {
    /// The scene turns by itself in a frame.
    pub open spec fn turns(self) -> bool {
        self.motion.autorotate && self.work.spatial_navigation() && !self.motion.interacting()
    }

    /// What is to be painted in a frame.
    pub open spec fn frame_work(self, timestamp: Real, ev: spec_fn(Arithmetic) -> Real) -> FrameWork {
        if self.work.animation is Some && !self.motion.interacting() {
            let animation = self.work.animation->Some_0;
            let progress = progress_at(animation.started, animation.paused_millis, timestamp, ev);
            FrameWork::Animate {
                progress,
                complete: (Real { bits: ONE_BITS }).at_most(progress),
            }
        } else if !self.turns() && !self.motion.interacting() && self.work.displayed is Some {
            FrameWork::Refine
        } else {
            FrameWork::Idle
        }
    }

    /// The beginning of a frame.
    #[verifier::opaque]
    pub open spec fn frame_begun(self, timestamp: Real, ev: spec_fn(Arithmetic) -> Real) -> Framed {
        let called = FrameClock { scheduled: false, ..self.clock };
        if !self.panels.visible() {
            Framed {
                next: SessionModel { clock: called, ..self },
                effects: Seq::empty(),
                work: FrameWork::Hidden,
                refresh: false,
            }
        } else {
            let (clock, sampled) = called.ticked(timestamp, ev);
            let work = self.frame_work(timestamp, ev);
            if self.turns() {
                Framed {
                    next: SessionModel {
                        clock,
                        motion: Motion { autorotate_last: Some(timestamp), ..self.motion },
                        work: WorkModel { canvas_dirty: true, ..self.work },
                        ..self
                    },
                    effects: seq![
                        Effect::Autorotate(turned_for(self.motion.autorotate_last, timestamp, ev)),
                    ],
                    work,
                    refresh: true,
                }
            } else {
                Framed {
                    next: SessionModel {
                        clock,
                        motion: Motion { autorotate_last: None, ..self.motion },
                        ..self
                    },
                    effects: Seq::empty(),
                    work,
                    refresh: sampled,
                }
            }
        }
    }

    /// A transition that is complete gives way to its target.
    #[verifier::opaque]
    pub open spec fn animation_completed(self, now: Real) -> (SessionModel, Seq<Effect>) {
        match self.work.animation {
            None => (self, Seq::empty()),
            Some(animation) => {
                let (next, effects) = SessionModel {
                    work: WorkModel { animation: None, ..self.work },
                    ..self
                }.promoted(animation.target, now);
                (
                    SessionModel { work: WorkModel { canvas_dirty: false, ..next.work }, ..next },
                    effects,
                )
            },
        }
    }
}

/// What a frame is to paint.
pub struct FramePlan {
    pub effects: Vec<Effect>,
    pub work: FrameWork,
    pub refresh: bool,
}

impl Session {
    /// Begin a frame.
    pub fn begin_frame<C: Fn(Arithmetic) -> Real>(&mut self, timestamp: Real, calc: &C) -> (r:
        FramePlan)
        requires
            old(self).valid(),
            calculates(*calc),
        ensures
            final(self).valid(),
            ({
                let framed = old(self)@.frame_begun(timestamp, answers(*calc));
                &&& final(self)@ == framed.next
                &&& r.effects@ == framed.effects
                &&& r.work == framed.work
                &&& r.refresh == framed.refresh
            }),
    {
        proof {
            reveal(SessionModel::frame_begun);
            reveal(Work::model);
        }
        let mut effects: Vec<Effect> = Vec::new();
        self.clock.scheduled = false;
        if !self.panels.canvas_visible() {
            assert(effects@ =~= Seq::empty());
            return FramePlan { effects, work: FrameWork::Hidden, refresh: false };
        }
        let mut refresh: bool = self.clock.tick(timestamp, calc);
        let interacting: bool = self.motion.interaction_active();
        let turns: bool = self.motion.autorotate && self.work.spatial_navigation() && !interacting;
        let work: FrameWork = match &self.work.animation {
            Some(animation) if !interacting => {
                let progress: Real = transition_progress(
                    animation.started,
                    animation.paused_millis,
                    timestamp,
                    calc,
                );
                FrameWork::Animate {
                    progress,
                    complete: (Real { bits: ONE_BITS }).less_equal(progress),
                }
            },
            _ => {
                if !turns && !interacting && self.work.displayed.is_some() {
                    FrameWork::Refine
                } else {
                    FrameWork::Idle
                }
            },
        };
        if turns {
            let millis: Real = match self.motion.autorotate_last {
                Some(last) => calculate(calc, Arithmetic::Difference(timestamp, last)),
                None => Real { bits: 0 },
            };
            effects.push(
                Effect::Autorotate(
                    millis.clamp(Real { bits: 0 }, Real { bits: MAX_AUTOROTATE_FRAME_BITS }),
                ),
            );
            self.motion.autorotate_last = Some(timestamp);
            self.work.canvas_dirty = true;
            refresh = true;
        } else {
            self.motion.autorotate_last = None;
        }
        assert(effects@ =~= old(self)@.frame_begun(timestamp, answers(*calc)).effects);
        FramePlan { effects, work, refresh }
    }

    /// A canvas could not be painted.
    pub fn record_canvas_failure(&mut self, error: &str, effects: &mut Vec<Effect>)
        requires
            old(self).valid(),
        ensures
            final(self).valid(),
            final(self)@ == old(self)@.canvas_failed(error@).0,
            final(effects)@ == old(effects)@ + old(self)@.canvas_failed(error@).1,
    {
        proof {
            reveal(SessionModel::canvas_failed);
        }
        self.work.record_canvas_failure(error, effects);
    }

    /// The transition was painted, and it is complete: show its target. It is
    /// to be painted at once; report with `promotion_painted`.
    pub fn complete_animation(&mut self, now: Real, effects: &mut Vec<Effect>)
        requires
            old(self).valid(),
        ensures
            final(self).valid(),
            final(self)@ == old(self)@.animation_completed(now).0,
            final(effects)@ == old(effects)@ + old(self)@.animation_completed(now).1,
    {
        proof {
            reveal(SessionModel::animation_completed);
            reveal(Work::model);
        }
        let ghost before = effects@;
        match self.work.animation.take() {
            None => {
                self.work.animation = None;
                assert(effects@ =~= before + Seq::<Effect>::empty());
            },
            Some(animation) => {
                let IterationAnimation { target, .. } = animation;
                self.work.animation = None;
                self.promote_displayed(target, now, effects);
                self.work.canvas_dirty = false;
            },
        }
    }

    /// The target of a transition was painted: go on along the route.
    pub fn promotion_painted(&mut self, now: Real, effects: &mut Vec<Effect>)
        requires
            old(self).valid(),
        ensures
            final(self).valid(),
            final(self)@ == (SessionModel {
                work: old(self)@.work.next_queued(now).0,
                ..old(self)@
            }),
            final(effects)@ == old(effects)@ + old(self)@.work.next_queued(now).1,
    {
        self.work.queue_next_iteration(now, effects);
    }

    /// The browser gave no frame.
    pub fn frame_refused(&mut self)
        requires
            old(self).valid(),
        ensures
            final(self).valid(),
            final(self)@ == (SessionModel {
                clock: FrameClock { scheduled: false, ..old(self)@.clock },
                ..old(self)@
            }),
    {
        self.clock.scheduled = false;
    }
}

/// A rotation never jumps: what a frame turns is bounded, however long ago the
/// frame before it was.
pub proof fn rotation_steps_are_bounded(
    last: Option<Real>,
    timestamp: Real,
    ev: spec_fn(Arithmetic) -> Real,
)
    ensures
        ({
            let step = turned_for(last, timestamp, ev);
            step.nan() || (Real { bits: 0 }).at_most(step) && step.at_most(
                Real { bits: MAX_AUTOROTATE_FRAME_BITS },
            )
        }),
{
}

/// While a gesture is under way nothing turns, blends or refines by itself.
pub proof fn gestures_hold_frames_still(
    model: SessionModel,
    timestamp: Real,
    ev: spec_fn(Arithmetic) -> Real,
)
    requires
        model.motion.interacting(),
    ensures
        !model.turns(),
        model.frame_work(timestamp, ev) == FrameWork::Idle,
        !model.needs_frame(),
{
}

} // verus!
