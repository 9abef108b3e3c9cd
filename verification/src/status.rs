//! What the user is told about the work of a session.

use vstd::prelude::*;
use vstd::string::*;

use crate::canvas::RefinementProgress;
use crate::number::{answers, calculate, calculates, Arithmetic, Real};
use crate::session::{Session, SessionModel};
use crate::text::{decimal, decimal_text, push_decimal, same_text};
use crate::work::{ActiveJob, Displayed, ProgressSnapshot, Shown, Work};

verus! {

/// The pattern of 250 milliseconds.
pub const TRANSIENT_STATUS_BITS: u64 = 0x406f_4000_0000_0000;

/// The pattern of two thousand milliseconds.
pub const SLOW_NOTICE_BITS: u64 = 0x409f_4000_0000_0000;

/// A phase of the worker in words.
pub open spec fn phase_text(phase: Seq<char>) -> Seq<char> {
    if phase == "Preparing"@ {
        "Preparing"@
    } else if phase == "InspectingInput"@ {
        "Inspecting input"@
    } else if phase == "Indexing"@ {
        "Indexing"@
    } else if phase == "SelectingProductions"@ {
        "Selecting productions"@
    } else if phase == "Rewriting"@ {
        "Deriving"@
    } else if phase == "ValidatingOutput"@ {
        "Validating output"@
    } else if phase == "Transferring"@ {
        "Transferring"@
    } else if phase == "Complete"@ {
        "Completing"@
    } else if phase == "Visualizing"@ {
        "Building preview"@
    } else {
        "Working"@
    }
}

pub fn human_phase(phase: &str) -> (r: &'static str)
    ensures
        r@ == phase_text(phase@),
{
    if same_text(phase, "Preparing") {
        "Preparing"
    } else if same_text(phase, "InspectingInput") {
        "Inspecting input"
    } else if same_text(phase, "Indexing") {
        "Indexing"
    } else if same_text(phase, "SelectingProductions") {
        "Selecting productions"
    } else if same_text(phase, "Rewriting") {
        "Deriving"
    } else if same_text(phase, "ValidatingOutput") {
        "Validating output"
    } else if same_text(phase, "Transferring") {
        "Transferring"
    } else if same_text(phase, "Complete") {
        "Completing"
    } else if same_text(phase, "Visualizing") {
        "Building preview"
    } else {
        "Working"
    }
}

/// So many milliseconds have gone by.
pub open spec fn has_lasted(since: Real, now: Real, bits: u64, ev: spec_fn(Arithmetic) -> Real) -> bool {
    (Real { bits }).at_most(ev(Arithmetic::Difference(now, since)))
}

fn lasted<C: Fn(Arithmetic) -> Real>(since: Real, now: Real, bits: u64, calc: &C) -> (r: bool)
    requires
        calculates(*calc),
    ensures
        r == has_lasted(since, now, bits, answers(*calc)),
{
    (Real { bits }).less_equal(calculate(calc, Arithmetic::Difference(now, since)))
}

/// What is told while nothing happens.
pub open spec fn resting_text(displayed: Option<Shown>) -> Seq<char> {
    match displayed {
        None => "Ready"@,
        Some(shown) => decimal(shown.scene.elements()) + " elements"@,
    }
}

/// What is told about a request that takes a while.
pub open spec fn progress_text(progress: Option<ProgressSnapshot>) -> Seq<char> {
    match progress {
        None => "Queued\u{2026}"@,
        Some(progress) => if progress.phase@ == "Visualizing"@ {
            "Visualizing \u{b7} "@ + decimal(progress.items as int) + " items \u{b7} "@ + decimal(
                progress.phase_completed as int,
            ) + " lines"@
        } else if progress.total_iterations > 0 {
            "Deriving "@ + decimal(progress.completed_iterations as int) + "/"@ + decimal(
                progress.total_iterations as int,
            ) + " \u{b7} "@ + decimal(progress.modules as int) + " modules \u{b7} "@ + decimal(
                progress.items as int,
            ) + " items"@
        } else {
            match progress.phase_total {
                Some(total) => phase_text(progress.phase@) + " "@ + decimal(
                    progress.phase_completed as int,
                ) + "/"@ + decimal(total as int),
                None => phase_text(progress.phase@) + "\u{2026}"@,
            }
        },
    }
}

/// What is told about a scene that may be refined.
pub open spec fn refinement_text(
    progress: RefinementProgress,
    told: bool,
    resting: Seq<char>,
) -> Seq<char> {
    if told {
        "Showing preview \u{b7} refining display "@ + decimal(progress.completed as int) + "/"@
            + decimal(progress.total as int) + " lines"@
    } else if progress.cancelled && progress.completed < progress.total {
        "Showing preview \u{b7} display refinement stopped at "@ + decimal(
            progress.completed as int,
        ) + "/"@ + decimal(progress.total as int)
    } else {
        resting
    }
}

/// A refinement that goes on, and has for so many milliseconds.
pub open spec fn refinement_lasts(
    model: SessionModel,
    shown: Shown,
    now: Real,
    bits: u64,
    ev: spec_fn(Arithmetic) -> Real,
) -> bool {
    shown.scene.progress().refining() && !model.motion.autorotate && !model.motion.interacting()
        && has_lasted(shown.refinement_started, now, bits, ev)
}

/// What is told first, without a failure.
pub open spec fn primary_text(
    model: SessionModel,
    now: Real,
    ev: spec_fn(Arithmetic) -> Real,
) -> Seq<char> {
    let work = model.work;
    let resting = resting_text(work.displayed);
    match (work.animation, work.active) {
        (Some(animation), _) => "Animating iteration "@ + decimal(animation.from_iteration as int)
            + " \u{2192} "@ + decimal(animation.to_iteration as int),
        (None, Some(active)) => if ev(Arithmetic::Difference(now, active.started)).below(
            Real { bits: TRANSIENT_STATUS_BITS },
        ) {
            resting
        } else {
            progress_text(active.progress)
        },
        (None, None) => if work.failure is Some {
            if work.displayed is Some {
                "Error \u{2014} showing the last completed result"@
            } else {
                "Error"@
            }
        } else {
            match work.displayed {
                None => resting,
                Some(shown) => refinement_text(
                    shown.scene.progress(),
                    refinement_lasts(model, shown, now, TRANSIENT_STATUS_BITS, ev),
                    resting,
                ),
            }
        },
    }
}

/// What is told first, with the failure if there is one.
pub open spec fn headline(model: SessionModel, now: Real, ev: spec_fn(Arithmetic) -> Real) -> Seq<
    char,
> {
    let primary = primary_text(model, now, ev);
    match model.work.failure {
        Some(failure) => primary + " \u{b7} "@ + failure,
        None => primary,
    }
}

/// What is told in the second place.
pub open spec fn secondary_text(model: SessionModel) -> Seq<char> {
    let fps = decimal(model.clock.fps as int) + " FPS"@;
    match model.work.active {
        Some(ActiveJob { progress: Some(progress), .. }) => decimal(progress.elapsed_millis as int)
            + " ms in Worker \u{b7} "@ + fps,
        _ => match model.work.displayed {
            None => "\u{2014} ms \u{b7} "@ + fps,
            Some(shown) => decimal(shown.elapsed_millis as int) + " ms on "@ + shown.backend
                + " \u{b7} "@ + fps,
        },
    }
}

/// Work that has taken so long that the user is offered to stop it.
pub open spec fn slow(model: SessionModel, now: Real, ev: spec_fn(Arithmetic) -> Real) -> bool {
    ||| model.work.active is Some && has_lasted(
        model.work.active->Some_0.started,
        now,
        SLOW_NOTICE_BITS,
        ev,
    )
    ||| model.work.displayed is Some && refinement_lasts(
        model,
        model.work.displayed->Some_0,
        now,
        SLOW_NOTICE_BITS,
        ev,
    )
}

/// What is read out about the drawing.
pub open spec fn label_text(displayed: Option<Shown>) -> Seq<char> {
    match displayed {
        None => "L-system drawing is loading"@,
        Some(shown) => if shown.scene.spatial() {
            "3D L-system drawing with "@ + decimal(shown.scene.elements())
                + " elements at iteration "@ + decimal(shown.iteration as int)
                + "; drag to rotate, tap or click to stop automatic rotation"@
        } else {
            "L-system drawing with "@ + decimal(shown.scene.elements())
                + " elements at iteration "@ + decimal(shown.iteration as int)
        },
    }
}

fn tell_progress(progress: &Option<ProgressSnapshot>) -> (r: String)
    ensures
        r@ == progress_text(*progress),
{
    let progress: &ProgressSnapshot = match progress {
        None => {
            return "Queued\u{2026}".to_owned();
        },
        Some(progress) => progress,
    };
    if same_text(progress.phase.as_str(), "Visualizing") {
        let mut out: String = "Visualizing \u{b7} ".to_owned();
        push_decimal(&mut out, progress.items as u128);
        out.append(" items \u{b7} ");
        push_decimal(&mut out, progress.phase_completed as u128);
        out.append(" lines");
        return out;
    }
    if progress.total_iterations > 0 {
        let mut out: String = "Deriving ".to_owned();
        push_decimal(&mut out, progress.completed_iterations as u128);
        out.append("/");
        push_decimal(&mut out, progress.total_iterations as u128);
        out.append(" \u{b7} ");
        push_decimal(&mut out, progress.modules as u128);
        out.append(" modules \u{b7} ");
        push_decimal(&mut out, progress.items as u128);
        out.append(" items");
        return out;
    }
    let mut out: String = human_phase(progress.phase.as_str()).to_owned();
    match progress.phase_total {
        Some(total) => {
            out.append(" ");
            push_decimal(&mut out, progress.phase_completed as u128);
            out.append("/");
            push_decimal(&mut out, total as u128);
        },
        None => {
            out.append("\u{2026}");
        },
    }
    out
}

fn tell_refinement(progress: RefinementProgress, told: bool, resting: String) -> (r: String)
    ensures
        r@ == refinement_text(progress, told, resting@),
{
    if told {
        let mut out: String = "Showing preview \u{b7} refining display ".to_owned();
        push_decimal(&mut out, progress.completed as u128);
        out.append("/");
        push_decimal(&mut out, progress.total as u128);
        out.append(" lines");
        out
    } else if progress.cancelled && progress.completed < progress.total {
        let mut out: String = "Showing preview \u{b7} display refinement stopped at ".to_owned();
        push_decimal(&mut out, progress.completed as u128);
        out.append("/");
        push_decimal(&mut out, progress.total as u128);
        out
    } else {
        resting
    }
}

fn tell_resting(displayed: &Option<Displayed>) -> (r: String)
    requires
        displayed matches Some(shown) ==> shown.scene.valid(),
    ensures
        r@ == resting_text(
            match *displayed {
                Some(displayed) => Some(displayed@),
                None => None,
            },
        ),
{
    match displayed {
        None => "Ready".to_owned(),
        Some(displayed) => {
            let mut out: String = decimal_text(displayed.scene.element_count() as u128);
            out.append(" elements");
            out
        },
    }
}

impl Session {
    fn refinement_has_lasted<C: Fn(Arithmetic) -> Real>(
        &self,
        displayed: &Displayed,
        now: Real,
        bits: u64,
        calc: &C,
    ) -> (r: bool)
        requires
            calculates(*calc),
        ensures
            r == refinement_lasts(self@, displayed@, now, bits, answers(*calc)),
    {
        crate::model::display_refinement_is_running(
            displayed.scene.refinement_progress().is_refining(),
            self.motion.autorotate,
            self.motion.interaction_active(),
        ) && lasted(displayed.refinement_started, now, bits, calc)
    }

    fn tell_primary<C: Fn(Arithmetic) -> Real>(&self, now: Real, calc: &C) -> (r: String)
        requires
            self.valid(),
            calculates(*calc),
        ensures
            r@ == primary_text(self@, now, answers(*calc)),
    {
        proof {
            reveal(Work::model);
        }
        let resting: String = tell_resting(&self.work.displayed);
        match &self.work.animation {
            Some(animation) => {
                let mut out: String = "Animating iteration ".to_owned();
                push_decimal(&mut out, animation.from_iteration as u128);
                out.append(" \u{2192} ");
                push_decimal(&mut out, animation.to_iteration as u128);
                return out;
            },
            None => {},
        }
        match &self.work.active {
            Some(active) => {
                let since: Real = calculate(calc, Arithmetic::Difference(now, active.started));
                if since.less_than(Real { bits: TRANSIENT_STATUS_BITS }) {
                    return resting;
                }
                return tell_progress(&active.progress);
            },
            None => {},
        }
        if self.work.failure.is_some() {
            return if self.work.displayed.is_some() {
                "Error \u{2014} showing the last completed result".to_owned()
            } else {
                "Error".to_owned()
            };
        }
        match &self.work.displayed {
            None => resting,
            Some(displayed) => {
                let told: bool = self.refinement_has_lasted(
                    displayed,
                    now,
                    TRANSIENT_STATUS_BITS,
                    calc,
                );
                tell_refinement(displayed.scene.refinement_progress(), told, resting)
            },
        }
    }

    fn tell_secondary(&self) -> (r: String)
        ensures
            r@ == secondary_text(self@),
    {
        proof {
            reveal(Work::model);
        }
        let mut fps: String = decimal_text(self.clock.fps as u128);
        fps.append(" FPS");
        match &self.work.active {
            Some(active) => match &active.progress {
                Some(progress) => {
                    let mut out: String = decimal_text(progress.elapsed_millis as u128);
                    out.append(" ms in Worker \u{b7} ");
                    out.append(fps.as_str());
                    return out;
                },
                None => {},
            },
            None => {},
        }
        match &self.work.displayed {
            None => {
                let mut out: String = "\u{2014} ms \u{b7} ".to_owned();
                out.append(fps.as_str());
                out
            },
            Some(displayed) => {
                let mut out: String = decimal_text(displayed.elapsed_millis as u128);
                out.append(" ms on ");
                out.append(displayed.backend.as_str());
                out.append(" \u{b7} ");
                out.append(fps.as_str());
                out
            },
        }
    }

    /// What the user is told, in the first and in the second place.
    pub fn status_text<C: Fn(Arithmetic) -> Real>(&self, now: Real, calc: &C) -> (r: (
        String,
        String,
    ))
        requires
            self.valid(),
            calculates(*calc),
        ensures
            r.0@ == headline(self@, now, answers(*calc)),
            r.1@ == secondary_text(self@),
    {
        let mut primary: String = self.tell_primary(now, calc);
        proof {
            reveal(Work::model);
        }
        match &self.work.failure {
            Some(failure) => {
                primary.append(" \u{b7} ");
                primary.append(failure.as_str());
            },
            None => {},
        }
        (primary, self.tell_secondary())
    }

    /// Whether the user is offered to stop the work.
    pub fn work_is_slow<C: Fn(Arithmetic) -> Real>(&self, now: Real, calc: &C) -> (r: bool)
        requires
            calculates(*calc),
        ensures
            r == slow(self@, now, answers(*calc)),
    {
        proof {
            reveal(Work::model);
        }
        match &self.work.active {
            Some(active) => {
                if lasted(active.started, now, SLOW_NOTICE_BITS, calc) {
                    return true;
                }
            },
            None => {},
        }
        match &self.work.displayed {
            Some(displayed) => self.refinement_has_lasted(displayed, now, SLOW_NOTICE_BITS, calc),
            None => false,
        }
    }

    /// What is read out about the drawing.
    pub fn canvas_accessible_label(&self) -> (r: String)
        requires
            self.valid(),
        ensures
            r@ == label_text(self@.work.displayed),
    {
        proof {
            reveal(Work::model);
        }
        match &self.work.displayed {
            None => "L-system drawing is loading".to_owned(),
            Some(displayed) => {
                let spatial: bool = displayed.scene.is_spatial();
                let mut out: String = if spatial {
                    "3D L-system drawing with ".to_owned()
                } else {
                    "L-system drawing with ".to_owned()
                };
                push_decimal(&mut out, displayed.scene.element_count() as u128);
                out.append(" elements at iteration ");
                push_decimal(&mut out, displayed.iteration as u128);
                if spatial {
                    out.append("; drag to rotate, tap or click to stop automatic rotation");
                }
                out
            },
        }
    }
}

} // verus!
