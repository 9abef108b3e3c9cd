//! The work of a session: what the worker renders, what is shown, and what is
//! exported.
//!
//! The last accepted scene stays visible while another is rendered, and a
//! request that was superseded is recognised by its number.

use vstd::prelude::*;
use vstd::string::*;

use crate::display::DisplayScene;
use crate::identity::{Identity, RenderIdentity};
use crate::model::{next_iteration, source_fills, source_uses_filled_turtle_polygons, step_towards};
use crate::number::{answers, calculate, calculates, Arithmetic, Real};

verus! {

/// How long work may take before its status is shown.
pub const TRANSIENT_STATUS_DELAY_MILLIS: i32 = 250;

/// How long work may take before it is called slow.
pub const SLOW_NOTICE_DELAY_MILLIS: i32 = 2_000;

/// What a timer is for.
#[derive(Debug, Clone, Copy, PartialEq, Eq, Structural)]
pub enum Timer {
    SourceDebounced(u64),
    StatusPulse(u64),
    WheelSettled(u64),
}

/// Two neighbouring iterations that are to be joined by a transition.
#[derive(Debug, Clone, Copy, PartialEq, Eq, Structural)]
pub struct IterationTransition {
    pub from_iteration: usize,
    pub to_iteration: usize,
}

/// What is to be done outside the session.
#[derive(Debug, Clone, Copy, PartialEq, Eq, Structural)]
pub enum Effect {
    /// Give up what the worker does.
    CancelWorker,
    /// Have the worker render the current system at an iteration.
    Submit {
        request_id: u64,
        iteration: usize,
        transition: Option<IterationTransition>,
        view_epoch: u64,
    },
    /// Come back with an event after some milliseconds.
    SetTimer(Timer, i32),
    /// Tell the export that is running to stop.
    StopExport,
    /// Begin an export under this number.
    BeginExport(u64),
    /// Clear the overlay.
    ClearOverlay,
    /// Ask for an animation frame.
    RequestFrame,
    /// Fit the planar view to the scene.
    FitCamera,
    /// Turn the spatial view back to its first orientation.
    ResetOrbit,
    /// Keep the planar view on the scene.
    ConstrainCamera,
    /// Remember where a gesture began, and in which kind of view.
    BeginGesture { spatial: bool },
    /// Turn the spatial view by the gesture.
    DragOrbit,
    /// Move the planar view by the gesture.
    PanCamera,
    /// Move and scale the planar view by the gesture.
    PinchCamera,
    /// Scale the planar view about a point.
    ZoomAbout,
    /// Scale the planar view about its centre.
    ZoomCamera,
    /// Turn the spatial view by itself for some milliseconds.
    Autorotate(Real),
    /// Write the failure to the log of the browser.
    LogFailure,
}

/// The number after another; the last is followed by zero.
pub open spec fn next_number(n: u64) -> u64 {
    if n == u64::MAX {
        0
    } else {
        (n + 1) as u64
    }
}

/// A text that may be missing, as a sequence of characters.
pub open spec fn maybe_text(text: Option<String>) -> Option<Seq<char>> {
    match text {
        Some(text) => Some(text@),
        None => None,
    }
}

/// How far the worker has come with a request.
#[derive(Debug)]
pub struct ProgressSnapshot {
    pub phase: String,
    pub phase_completed: usize,
    pub phase_total: Option<usize>,
    pub completed_iterations: usize,
    pub total_iterations: usize,
    pub modules: usize,
    pub items: usize,
    pub elapsed_millis: u64,
}

/// The request that the worker is busy with.
#[derive(Debug)]
pub struct ActiveJob {
    pub request_id: u64,
    pub started: Real,
    pub progress: Option<ProgressSnapshot>,
}

/// A scene, and what it was made from.
pub struct Displayed {
    pub scene: DisplayScene,
    pub iteration: usize,
    pub identity: RenderIdentity,
    pub view_epoch: u64,
    pub elapsed_millis: u64,
    pub backend: String,
    pub refinement_started: Real,
}

/// A scene, with its texts as character sequences.
pub struct Shown {
    pub scene: DisplayScene,
    pub iteration: usize,
    pub identity: Identity,
    pub view_epoch: u64,
    pub elapsed_millis: u64,
    pub backend: Seq<char>,
    pub refinement_started: Real,
}

impl View for Displayed {
    type V = Shown;

    open spec fn view(&self) -> Shown {
        Shown {
            scene: self.scene,
            iteration: self.iteration,
            identity: self.identity@,
            view_epoch: self.view_epoch,
            elapsed_millis: self.elapsed_millis,
            backend: self.backend@,
            refinement_started: self.refinement_started,
        }
    }
}

/// The way to an iteration, one step at a time.
#[derive(Debug)]
pub struct IterationRoute {
    pub request_id: u64,
    pub target_iteration: usize,
    pub identity: RenderIdentity,
}

pub struct Route {
    pub request_id: u64,
    pub target_iteration: usize,
    pub identity: Identity,
}

impl View for IterationRoute {
    type V = Route;

    open spec fn view(&self) -> Route {
        Route {
            request_id: self.request_id,
            target_iteration: self.target_iteration,
            identity: self.identity@,
        }
    }
}

/// One iteration turning into the next.
pub struct IterationAnimation {
    pub target: Displayed,
    pub from_iteration: usize,
    pub to_iteration: usize,
    pub started: Real,
    pub paused_at: Option<Real>,
    pub paused_millis: Real,
}

pub struct Animation {
    pub target: Shown,
    pub from_iteration: usize,
    pub to_iteration: usize,
    pub started: Real,
    pub paused_at: Option<Real>,
    pub paused_millis: Real,
}

impl View for IterationAnimation {
    type V = Animation;

    open spec fn view(&self) -> Animation {
        Animation {
            target: self.target@,
            from_iteration: self.from_iteration,
            to_iteration: self.to_iteration,
            started: self.started,
            paused_at: self.paused_at,
            paused_millis: self.paused_millis,
        }
    }
}

/// The export of what is shown.
#[derive(Debug)]
pub struct Export {
    pub sequence: u64,
    pub job: Option<u64>,
    pub notice: Option<String>,
}

pub struct Exporting {
    pub sequence: u64,
    pub job: Option<u64>,
    pub notice: Option<Seq<char>>,
}

impl View for Export {
    type V = Exporting;

    open spec fn view(&self) -> Exporting {
        Exporting { sequence: self.sequence, job: self.job, notice: maybe_text(self.notice) }
    }
}

/// The work of a session.
pub struct Work {
    pub request_id: u64,
    /// The number of the system that is being worked on.
    pub view_epoch: u64,
    /// The number of the system whose view is shown.
    pub displayed_view_epoch: u64,
    pub active: Option<ActiveJob>,
    pub displayed: Option<Displayed>,
    pub route: Option<IterationRoute>,
    pub animation: Option<IterationAnimation>,
    pub failure: Option<String>,
    pub worker_fatal: Option<String>,
    pub canvas_dirty: bool,
    pub export: Export,
}

pub struct WorkModel {
    pub request_id: u64,
    pub view_epoch: u64,
    pub displayed_view_epoch: u64,
    pub active: Option<ActiveJob>,
    pub displayed: Option<Shown>,
    pub route: Option<Route>,
    pub animation: Option<Animation>,
    pub failure: Option<Seq<char>>,
    pub worker_fatal: Option<Seq<char>>,
    pub canvas_dirty: bool,
    pub export: Exporting,
}

impl Work {
    /// What it stands for.
    #[verifier::opaque]
    pub open spec fn model(self) -> WorkModel {
        WorkModel {
            request_id: self.request_id,
            view_epoch: self.view_epoch,
            displayed_view_epoch: self.displayed_view_epoch,
            active: self.active,
            displayed: match self.displayed {
                Some(displayed) => Some(displayed@),
                None => None,
            },
            route: match self.route {
                Some(route) => Some(route@),
                None => None,
            },
            animation: match self.animation {
                Some(animation) => Some(animation@),
                None => None,
            },
            failure: maybe_text(self.failure),
            worker_fatal: maybe_text(self.worker_fatal),
            canvas_dirty: self.canvas_dirty,
            export: self.export@,
        }
    }
}

impl View for Work {
    type V = WorkModel;

    open spec fn view(&self) -> WorkModel {
        self.model()
    }
}

pub type Step = (WorkModel, Seq<Effect>);

/// No effects.
pub open spec fn quiet(work: WorkModel) -> Step {
    (work, Seq::empty())
}

impl WorkModel {
    pub open spec fn valid(self) -> bool {
        &&& self.displayed matches Some(shown) ==> shown.scene.valid()
        &&& self.animation matches Some(animation) ==> animation.target.scene.valid()
    }

    /// The view can be changed.
    pub open spec fn navigation(self) -> bool {
        self.animation is Some || self.displayed is Some && self.displayed->Some_0.scene.navigable()
    }

    /// The view can be changed, and is a spatial one.
    pub open spec fn spatial_navigation(self) -> bool {
        self.animation is None && self.displayed is Some && self.displayed->Some_0.scene.spatial()
            && self.displayed->Some_0.scene.navigable()
    }

    pub open spec fn refining(self) -> bool {
        self.displayed is Some && self.displayed->Some_0.scene.progress().refining()
    }

    /// A planar scene is shown.
    pub open spec fn planar(self) -> bool {
        self.displayed is Some && !self.displayed->Some_0.scene.spatial()
    }

    #[verifier::opaque]
    pub open spec fn paused(self, now: Real) -> WorkModel {
        match self.animation {
            Some(animation) => WorkModel {
                animation: Some(
                    Animation {
                        paused_at: match animation.paused_at {
                            Some(at) => Some(at),
                            None => Some(now),
                        },
                        ..animation
                    },
                ),
                ..self
            },
            None => self,
        }
    }

    /// The time that an animation rested does not count.
    #[verifier::opaque]
    pub open spec fn resumed(self, now: Real, ev: spec_fn(Arithmetic) -> Real) -> WorkModel {
        match self.animation {
            Some(animation) => match animation.paused_at {
                Some(at) => WorkModel {
                    animation: Some(
                        Animation {
                            paused_at: None,
                            paused_millis: ev(
                                Arithmetic::Sum(
                                    animation.paused_millis,
                                    ev(Arithmetic::Difference(now, at)).upper(Real { bits: 0 }),
                                ),
                            ),
                            ..animation
                        },
                    ),
                    ..self
                },
                None => self,
            },
            None => self,
        }
    }

    /// Refine what is shown anew.
    #[verifier::opaque]
    pub open spec fn restarted(self, now: Real) -> Step {
        match self.displayed {
            None => quiet(self),
            Some(shown) => {
                let scene = shown.scene.restarted();
                (
                    WorkModel {
                        displayed: Some(
                            Shown {
                                scene,
                                refinement_started: if scene.progress().refining() {
                                    now
                                } else {
                                    shown.refinement_started
                                },
                                ..shown
                            },
                        ),
                        ..self
                    },
                    if shown.scene.overlaid() {
                        seq![Effect::ClearOverlay]
                    } else {
                        Seq::empty()
                    },
                )
            },
        }
    }

    #[verifier::opaque]
    pub open spec fn invalidated(self, now: Real) -> Step {
        let (next, effects) = self.restarted(now);
        (WorkModel { canvas_dirty: true, ..next }, effects)
    }

    /// Stop refining what is shown.
    #[verifier::opaque]
    pub open spec fn stopped(self) -> Step {
        match self.displayed {
            None => quiet(self),
            Some(shown) => (
                WorkModel {
                    displayed: Some(Shown { scene: shown.scene.stopped(), ..shown }),
                    ..self
                },
                if shown.scene.progress().refining() && shown.scene.overlaid() {
                    seq![Effect::ClearOverlay]
                } else {
                    Seq::empty()
                },
            ),
        }
    }

    /// Without its animation the last exact scene is painted again.
    #[verifier::opaque]
    pub open spec fn discarded(self) -> WorkModel {
        if self.animation is Some {
            WorkModel { animation: None, canvas_dirty: true, ..self }
        } else {
            self
        }
    }

    /// An export of something that is being replaced is given up.
    #[verifier::opaque]
    pub open spec fn export_replaced(self) -> Step {
        if self.export.job is Some {
            (
                WorkModel {
                    export: Exporting { job: None, notice: None, ..self.export },
                    ..self
                },
                seq![Effect::StopExport],
            )
        } else {
            quiet(self)
        }
    }

    /// Neither an export nor a refinement goes on.
    #[verifier::opaque]
    pub open spec fn set_aside(self) -> Step {
        let (one, first) = self.export_replaced();
        let (two, second) = one.stopped();
        (two, first + second)
    }

    /// Have the worker render.
    #[verifier::opaque]
    pub open spec fn queued(
        self,
        request_id: u64,
        iteration: usize,
        transition: Option<IterationTransition>,
        now: Real,
    ) -> Step {
        let (aside, effects) = self.set_aside();
        (
            WorkModel {
                failure: None,
                active: Some(ActiveJob { request_id, started: now, progress: None }),
                ..aside
            },
            effects + seq![
                Effect::Submit { request_id, iteration, transition, view_epoch: self.view_epoch },
                Effect::SetTimer(Timer::StatusPulse(request_id), TRANSIENT_STATUS_DELAY_MILLIS),
                Effect::SetTimer(Timer::StatusPulse(request_id), SLOW_NOTICE_DELAY_MILLIS),
            ],
        )
    }

    /// Render at an iteration.
    #[verifier::opaque]
    pub open spec fn exact_begun(self, iterations: usize, now: Real) -> Step {
        let request_id = next_number(self.request_id);
        let (next, effects) = WorkModel {
            route: None,
            request_id,
            ..self.discarded()
        }.queued(request_id, iterations, None, now);
        (next, seq![Effect::CancelWorker] + effects)
    }

    /// Render the next step of a route, or end it.
    #[verifier::opaque]
    pub open spec fn next_queued(self, now: Real) -> Step {
        match (self.route, self.displayed) {
            (None, _) => quiet(self),
            (Some(route), displayed) => if route.request_id != self.request_id {
                quiet(WorkModel { route: None, ..self })
            } else {
                match displayed {
                    None => quiet(self),
                    Some(shown) => if !shown.identity.alike(route.identity) {
                        quiet(WorkModel { route: None, ..self })
                    } else {
                        match step_towards(
                            shown.iteration as int,
                            route.target_iteration as int,
                        ) {
                            None => quiet(WorkModel { route: None, ..self }),
                            Some(next) => self.queued(
                                route.request_id,
                                next as usize,
                                if source_fills(route.identity.source) {
                                    None
                                } else {
                                    Some(
                                        IterationTransition {
                                            from_iteration: shown.iteration,
                                            to_iteration: next as usize,
                                        },
                                    )
                                },
                                now,
                            ),
                        }
                    },
                }
            },
        }
    }

    /// Go to an iteration of a planar system, one step at a time: from the
    /// scene that is shown, where it is of the same system, and else from the
    /// start.
    #[verifier::opaque]
    pub open spec fn route_begun(self, iterations: usize, identity: Identity, now: Real) -> Step {
        let request_id = next_number(self.request_id);
        let ready = WorkModel {
            active: None,
            request_id,
            route: Some(Route { request_id, target_iteration: iterations, identity }),
            ..self.discarded()
        };
        let (next, effects) = if self.displayed is Some && self.displayed->Some_0.identity.alike(
            identity,
        ) {
            ready.next_queued(now)
        } else {
            ready.queued(request_id, 0, None, now)
        };
        (next, seq![Effect::CancelWorker] + effects)
    }

    /// Give up all work on a system that is being edited.
    #[verifier::opaque]
    pub open spec fn obsolete(self) -> Step {
        let (aside, effects) = self.set_aside();
        (
            WorkModel {
                request_id: next_number(self.request_id),
                active: None,
                route: None,
                failure: None,
                ..aside.discarded()
            },
            effects + seq![Effect::CancelWorker],
        )
    }

    /// Stop what the user is waiting for.
    #[verifier::opaque]
    pub open spec fn cancelled(self) -> Step {
        if self.active is Some {
            (
                WorkModel {
                    active: None,
                    request_id: next_number(self.request_id),
                    route: None,
                    animation: None,
                    failure: None,
                    ..self
                },
                seq![Effect::CancelWorker],
            )
        } else if self.animation is Some {
            quiet(
                WorkModel {
                    animation: None,
                    request_id: next_number(self.request_id),
                    route: None,
                    canvas_dirty: true,
                    ..self
                },
            )
        } else {
            self.stopped()
        }
    }

    /// A scene of another system, or of another dimension, comes with a fresh
    /// view.
    pub open spec fn replaces_view(self, shown: Shown) -> bool {
        shown.view_epoch != self.displayed_view_epoch || (self.displayed is Some
            && shown.scene.spatial() != self.displayed->Some_0.scene.spatial())
    }

    /// Show a scene.
    #[verifier::opaque]
    pub open spec fn promoted(self, shown: Shown, now: Real) -> Step {
        let replaced = self.replaces_view(shown);
        (
            WorkModel {
                displayed: Some(Shown { refinement_started: now, ..shown }),
                displayed_view_epoch: if replaced {
                    shown.view_epoch
                } else {
                    self.displayed_view_epoch
                },
                failure: None,
                canvas_dirty: true,
                ..self
            },
            if replaced {
                seq![Effect::FitCamera, Effect::ResetOrbit]
            } else if !shown.scene.spatial() {
                seq![Effect::ConstrainCamera]
            } else {
                Seq::empty()
            },
        )
    }

    /// A canvas could not be painted.
    #[verifier::opaque]
    pub open spec fn canvas_failed(self, error: Seq<char>) -> Step {
        let (next, effects) = self.stopped();
        (
            WorkModel {
                failure: Some("Canvas display failed: "@ + error),
                route: None,
                animation: None,
                canvas_dirty: false,
                ..next
            },
            seq![Effect::LogFailure] + effects,
        )
    }
}

impl Work {
    pub open spec fn valid(self) -> bool {
        self@.valid()
    }

    pub fn navigation_enabled(&self) -> (r: bool)
        requires
            self.valid(),
        ensures
            r == self@.navigation(),
    {
        proof {
            reveal(Work::model);
        }
        if self.animation.is_some() {
            return true;
        }
        match &self.displayed {
            Some(displayed) => displayed.scene.navigation_enabled(),
            None => false,
        }
    }

    pub fn spatial_navigation(&self) -> (r: bool)
        requires
            self.valid(),
        ensures
            r == self@.spatial_navigation(),
    {
        proof {
            reveal(Work::model);
        }
        if self.animation.is_some() {
            return false;
        }
        match &self.displayed {
            Some(displayed) => displayed.scene.is_spatial()
                && displayed.scene.navigation_enabled(),
            None => false,
        }
    }

    pub fn is_refining(&self) -> (r: bool)
        ensures
            r == self@.refining(),
    {
        proof {
            reveal(Work::model);
        }
        match &self.displayed {
            Some(displayed) => displayed.scene.refinement_progress().is_refining(),
            None => false,
        }
    }

    pub fn shows_planar(&self) -> (r: bool)
        ensures
            r == self@.planar(),
    {
        proof {
            reveal(Work::model);
        }
        match &self.displayed {
            Some(displayed) => !displayed.scene.is_spatial(),
            None => false,
        }
    }

    pub fn pause_animation(&mut self, now: Real)
        requires
            old(self).valid(),
        ensures
            final(self).valid(),
            final(self)@ == old(self)@.paused(now),
    {
        proof {
            reveal(Work::model);
            reveal(WorkModel::paused);
        }
        match self.animation.take() {
            None => {
                self.animation = None;
            },
            Some(animation) => {
                let mut animation: IterationAnimation = animation;
                if animation.paused_at.is_none() {
                    animation.paused_at = Some(now);
                }
                self.animation = Some(animation);
            },
        }
    }

    pub fn resume_animation<C: Fn(Arithmetic) -> Real>(&mut self, now: Real, calc: &C)
        requires
            old(self).valid(),
            calculates(*calc),
        ensures
            final(self).valid(),
            final(self)@ == old(self)@.resumed(now, answers(*calc)),
    {
        proof {
            reveal(Work::model);
            reveal(WorkModel::resumed);
        }
        match self.animation.take() {
            None => {
                self.animation = None;
            },
            Some(animation) => {
                let mut animation: IterationAnimation = animation;
                match animation.paused_at {
                    Some(at) => {
                        let rest: Real = calculate(calc, Arithmetic::Difference(now, at)).max(
                            Real { bits: 0 },
                        );
                        animation.paused_millis = calculate(
                            calc,
                            Arithmetic::Sum(animation.paused_millis, rest),
                        );
                        animation.paused_at = None;
                    },
                    None => {},
                }
                self.animation = Some(animation);
            },
        }
    }

    pub fn restart_refinement(&mut self, now: Real, effects: &mut Vec<Effect>)
        requires
            old(self).valid(),
        ensures
            final(self).valid(),
            final(self)@ == old(self)@.restarted(now).0,
            final(effects)@ == old(effects)@ + old(self)@.restarted(now).1,
    {
        proof {
            reveal(Work::model);
            reveal(WorkModel::restarted);
        }
        let ghost before = effects@;
        match self.displayed.take() {
            None => {
                self.displayed = None;
                assert(effects@ =~= before + Seq::<Effect>::empty());
            },
            Some(displayed) => {
                let mut displayed: Displayed = displayed;
                if displayed.scene.restart_view_refinement() {
                    effects.push(Effect::ClearOverlay);
                }
                if displayed.scene.refinement_progress().is_refining() {
                    displayed.refinement_started = now;
                }
                self.displayed = Some(displayed);
                assert(effects@ =~= before + old(self)@.restarted(now).1);
            },
        }
    }

    pub fn invalidate_display(&mut self, now: Real, effects: &mut Vec<Effect>)
        requires
            old(self).valid(),
        ensures
            final(self).valid(),
            final(self)@ == old(self)@.invalidated(now).0,
            final(effects)@ == old(effects)@ + old(self)@.invalidated(now).1,
    {
        proof {
            reveal(Work::model);
            reveal(WorkModel::invalidated);
        }
        self.restart_refinement(now, effects);
        self.canvas_dirty = true;
    }

    pub fn suspend_display_refinement(&mut self, effects: &mut Vec<Effect>)
        requires
            old(self).valid(),
        ensures
            final(self).valid(),
            final(self)@ == old(self)@.stopped().0,
            final(effects)@ == old(effects)@ + old(self)@.stopped().1,
    {
        proof {
            reveal(Work::model);
            reveal(WorkModel::stopped);
        }
        let ghost before = effects@;
        match self.displayed.take() {
            None => {
                self.displayed = None;
                assert(effects@ =~= before + Seq::<Effect>::empty());
            },
            Some(displayed) => {
                let mut displayed: Displayed = displayed;
                if displayed.scene.cancel_refinement() {
                    effects.push(Effect::ClearOverlay);
                }
                self.displayed = Some(displayed);
                assert(effects@ =~= before + old(self)@.stopped().1);
            },
        }
    }

    pub fn discard_animation(&mut self)
        requires
            old(self).valid(),
        ensures
            final(self).valid(),
            final(self)@ == old(self)@.discarded(),
    {
        proof {
            reveal(Work::model);
            reveal(WorkModel::discarded);
        }
        if self.animation.is_some() {
            self.animation = None;
            self.canvas_dirty = true;
        }
    }

    pub fn cancel_export_for_replacement(&mut self, effects: &mut Vec<Effect>)
        requires
            old(self).valid(),
        ensures
            final(self).valid(),
            final(self)@ == old(self)@.export_replaced().0,
            final(effects)@ == old(effects)@ + old(self)@.export_replaced().1,
    {
        proof {
            reveal(Work::model);
            reveal(WorkModel::export_replaced);
        }
        let ghost before = effects@;
        if self.export.job.is_some() {
            self.export.job = None;
            self.export.notice = None;
            effects.push(Effect::StopExport);
        }
        assert(effects@ =~= before + old(self)@.export_replaced().1);
    }

    fn lay_aside(&mut self, effects: &mut Vec<Effect>)
        requires
            old(self).valid(),
        ensures
            final(self).valid(),
            final(self)@ == old(self)@.set_aside().0,
            final(effects)@ == old(effects)@ + old(self)@.set_aside().1,
    {
        proof {
            reveal(Work::model);
            reveal(WorkModel::set_aside);
        }
        let ghost before = effects@;
        self.cancel_export_for_replacement(effects);
        self.suspend_display_refinement(effects);
        assert(effects@ =~= before + old(self)@.set_aside().1);
    }

    pub fn queue_render(
        &mut self,
        request_id: u64,
        iteration: usize,
        transition: Option<IterationTransition>,
        now: Real,
        effects: &mut Vec<Effect>,
    )
        requires
            old(self).valid(),
        ensures
            final(self).valid(),
            final(self)@ == old(self)@.queued(request_id, iteration, transition, now).0,
            final(effects)@ == old(effects)@ + old(self)@.queued(
                request_id,
                iteration,
                transition,
                now,
            ).1,
    {
        proof {
            reveal(Work::model);
            reveal(WorkModel::queued);
            reveal(WorkModel::set_aside);
            reveal(WorkModel::stopped);
            reveal(WorkModel::export_replaced);
        }
        let ghost before = effects@;
        self.lay_aside(effects);
        self.failure = None;
        self.active = Some(ActiveJob { request_id, started: now, progress: None });
        effects.push(
            Effect::Submit { request_id, iteration, transition, view_epoch: self.view_epoch },
        );
        effects.push(
            Effect::SetTimer(Timer::StatusPulse(request_id), TRANSIENT_STATUS_DELAY_MILLIS),
        );
        effects.push(Effect::SetTimer(Timer::StatusPulse(request_id), SLOW_NOTICE_DELAY_MILLIS));
        assert(effects@ =~= before + old(self)@.queued(
            request_id,
            iteration,
            transition,
            now,
        ).1);
    }

    pub fn begin_exact_render(&mut self, iterations: usize, now: Real, effects: &mut Vec<Effect>)
        requires
            old(self).valid(),
        ensures
            final(self).valid(),
            final(self)@ == old(self)@.exact_begun(iterations, now).0,
            final(effects)@ == old(effects)@ + old(self)@.exact_begun(iterations, now).1,
    {
        proof {
            reveal(Work::model);
            reveal(WorkModel::exact_begun);
            reveal(WorkModel::discarded);
        }
        let ghost before = effects@;
        self.route = None;
        self.discard_animation();
        effects.push(Effect::CancelWorker);
        let request_id: u64 = self.request_id.wrapping_add(1);
        self.request_id = request_id;
        self.queue_render(request_id, iterations, None, now, effects);
        assert(effects@ =~= before + old(self)@.exact_begun(iterations, now).1);
    }

    /// Render the next step of a route, or end it.
    pub fn queue_next_iteration(&mut self, now: Real, effects: &mut Vec<Effect>)
        requires
            old(self).valid(),
        ensures
            final(self).valid(),
            final(self)@ == old(self)@.next_queued(now).0,
            final(effects)@ == old(effects)@ + old(self)@.next_queued(now).1,
    {
        proof {
            reveal(Work::model);
            reveal(WorkModel::next_queued);
        }
        let ghost before = effects@;
        assert(before + Seq::<Effect>::empty() =~= before);
        let route: &IterationRoute = match &self.route {
            Some(route) => route,
            None => {
                return;
            },
        };
        let request_id: u64 = route.request_id;
        if request_id != self.request_id {
            self.route = None;
            return;
        }
        let displayed: &Displayed = match &self.displayed {
            Some(displayed) => displayed,
            None => {
                return;
            },
        };
        if !displayed.identity.same_as(&route.identity) {
            self.route = None;
            return;
        }
        let from_iteration: usize = displayed.iteration;
        let to_iteration: usize = match next_iteration(from_iteration, route.target_iteration) {
            Some(next) => next,
            None => {
                self.route = None;
                return;
            },
        };
        let transition: Option<IterationTransition> = if source_uses_filled_turtle_polygons(
            route.identity.source.as_str(),
        ) {
            None
        } else {
            Some(IterationTransition { from_iteration, to_iteration })
        };
        self.queue_render(request_id, to_iteration, transition, now, effects);
    }

    pub fn begin_iteration_route(
        &mut self,
        iterations: usize,
        identity: RenderIdentity,
        now: Real,
        effects: &mut Vec<Effect>,
    )
        requires
            old(self).valid(),
        ensures
            final(self).valid(),
            final(self)@ == old(self)@.route_begun(iterations, identity@, now).0,
            final(effects)@ == old(effects)@ + old(self)@.route_begun(
                iterations,
                identity@,
                now,
            ).1,
    {
        proof {
            reveal(Work::model);
            reveal(WorkModel::route_begun);
            reveal(WorkModel::discarded);
        }
        let ghost before = effects@;
        let ghost wanted = identity@;
        self.discard_animation();
        effects.push(Effect::CancelWorker);
        // The old job is obsolete even when the requested iteration already
        // matches the last exact scene and no replacement needs to be queued.
        self.active = None;
        let request_id: u64 = self.request_id.wrapping_add(1);
        self.request_id = request_id;
        let compatible: bool = match &self.displayed {
            Some(displayed) => displayed.identity.same_as(&identity),
            None => false,
        };
        self.route = Some(
            IterationRoute { request_id, target_iteration: iterations, identity },
        );
        if compatible {
            self.queue_next_iteration(now, effects);
        } else {
            self.queue_render(request_id, 0, None, now, effects);
        }
        assert(effects@ =~= before + old(self)@.route_begun(iterations, wanted, now).1);
    }

    pub fn cancel_obsolete_work(&mut self, effects: &mut Vec<Effect>)
        requires
            old(self).valid(),
        ensures
            final(self).valid(),
            final(self)@ == old(self)@.obsolete().0,
            final(effects)@ == old(effects)@ + old(self)@.obsolete().1,
    {
        proof {
            reveal(Work::model);
            reveal(WorkModel::obsolete);
            reveal(WorkModel::discarded);
            reveal(WorkModel::set_aside);
            reveal(WorkModel::stopped);
            reveal(WorkModel::export_replaced);
        }
        let ghost before = effects@;
        self.lay_aside(effects);
        self.request_id = self.request_id.wrapping_add(1);
        effects.push(Effect::CancelWorker);
        self.active = None;
        self.route = None;
        self.discard_animation();
        self.failure = None;
        assert(effects@ =~= before + old(self)@.obsolete().1);
    }

    pub fn cancel_visible_work(&mut self, effects: &mut Vec<Effect>)
        requires
            old(self).valid(),
        ensures
            final(self).valid(),
            final(self)@ == old(self)@.cancelled().0,
            final(effects)@ == old(effects)@ + old(self)@.cancelled().1,
    {
        proof {
            reveal(Work::model);
            reveal(WorkModel::cancelled);
        }
        let ghost before = effects@;
        if self.active.is_some() {
            self.active = None;
            effects.push(Effect::CancelWorker);
            self.request_id = self.request_id.wrapping_add(1);
            self.route = None;
            self.animation = None;
            self.failure = None;
            assert(effects@ =~= before + old(self)@.cancelled().1);
        } else if self.animation.is_some() {
            self.animation = None;
            self.request_id = self.request_id.wrapping_add(1);
            self.route = None;
            self.canvas_dirty = true;
            assert(effects@ =~= before + old(self)@.cancelled().1);
        } else {
            self.suspend_display_refinement(effects);
        }
    }

    /// Show a scene. The result says whether it comes with a fresh view.
    pub fn promote_displayed(&mut self, displayed: Displayed, now: Real, effects: &mut Vec<Effect>) -> (r:
        bool)
        requires
            old(self).valid(),
            displayed.scene.valid(),
        ensures
            final(self).valid(),
            final(self)@ == old(self)@.promoted(displayed@, now).0,
            final(effects)@ == old(effects)@ + old(self)@.promoted(displayed@, now).1,
            r == old(self)@.replaces_view(displayed@),
    {
        proof {
            reveal(Work::model);
            reveal(WorkModel::promoted);
        }
        let ghost before = effects@;
        let ghost shown = displayed@;
        let spatial: bool = displayed.scene.is_spatial();
        let mut replaced: bool = displayed.view_epoch != self.displayed_view_epoch;
        match &self.displayed {
            Some(current) => {
                if spatial != current.scene.is_spatial() {
                    replaced = true;
                }
            },
            None => {},
        }
        if replaced {
            effects.push(Effect::FitCamera);
            effects.push(Effect::ResetOrbit);
            self.displayed_view_epoch = displayed.view_epoch;
        } else if !spatial {
            effects.push(Effect::ConstrainCamera);
        }
        let mut displayed: Displayed = displayed;
        displayed.refinement_started = now;
        self.displayed = Some(displayed);
        self.failure = None;
        self.canvas_dirty = true;
        assert(effects@ =~= before + old(self)@.promoted(shown, now).1);
        replaced
    }

    pub fn record_canvas_failure(&mut self, error: &str, effects: &mut Vec<Effect>)
        requires
            old(self).valid(),
        ensures
            final(self).valid(),
            final(self)@ == old(self)@.canvas_failed(error@).0,
            final(effects)@ == old(effects)@ + old(self)@.canvas_failed(error@).1,
    {
        proof {
            reveal(Work::model);
            reveal(WorkModel::canvas_failed);
        }
        let ghost before = effects@;
        effects.push(Effect::LogFailure);
        let mut message: String = "Canvas display failed: ".to_owned();
        message.append(error);
        self.suspend_display_refinement(effects);
        self.failure = Some(message);
        self.route = None;
        self.animation = None;
        self.canvas_dirty = false;
        assert(effects@ =~= before + old(self)@.canvas_failed(error@).1);
    }
}

/// A request for an iteration that is one step nearer to a target.
pub open spec fn submits_nearer(effect: Effect, id: u64, target: int, away: int) -> bool {
    match effect {
        Effect::Submit { request_id, iteration, .. } => request_id == id && (if iteration < target {
            target - iteration
        } else {
            iteration - target
        }) == away - 1,
        _ => false,
    }
}

/// Following a route, every step brings the shown iteration nearer to the
/// target, so that a route ends.
pub proof fn routes_end(work: WorkModel, now: Real)
    requires
        work.route is Some,
        work.displayed is Some,
        work.route->Some_0.request_id == work.request_id,
        work.displayed->Some_0.identity.alike(work.route->Some_0.identity),
    ensures
        ({
            let shown = work.displayed->Some_0.iteration as int;
            let target = work.route->Some_0.target_iteration as int;
            let away = if shown < target { target - shown } else { shown - target };
            &&& away == 0 ==> work.next_queued(now) == quiet(WorkModel { route: None, ..work })
            &&& away > 0 ==> {
                let effects = work.next_queued(now).1;
                exists|i: int|
                    0 <= i < effects.len() && submits_nearer(
                        #[trigger] effects[i],
                        work.request_id,
                        target,
                        away,
                    )
            }
        }),
{
    reveal(WorkModel::next_queued);
    reveal(WorkModel::queued);
    let shown = work.displayed->Some_0.iteration as int;
    let target = work.route->Some_0.target_iteration as int;
    if shown != target {
        let effects = work.next_queued(now).1;
        let i = work.set_aside().1.len() as int;
        let away = if shown < target { target - shown } else { shown - target };
        assert(submits_nearer(effects[i], work.request_id, target, away));
    }
}

/// A request that was superseded cannot be mistaken for the current one: every
/// way of beginning or giving up work counts the requests on.
pub proof fn superseded_requests_are_stale(
    work: WorkModel,
    iterations: usize,
    identity: Identity,
    now: Real,
)
    ensures
        work.exact_begun(iterations, now).0.request_id == next_number(work.request_id),
        work.route_begun(iterations, identity, now).0.request_id == next_number(work.request_id),
        work.obsolete().0.request_id == next_number(work.request_id),
        work.active is Some ==> work.cancelled().0.request_id == next_number(work.request_id),
        next_number(work.request_id) != work.request_id,
{
    reveal(WorkModel::exact_begun);
    reveal(WorkModel::route_begun);
    reveal(WorkModel::next_queued);
    reveal(WorkModel::queued);
    reveal(WorkModel::set_aside);
    reveal(WorkModel::stopped);
    reveal(WorkModel::export_replaced);
    reveal(WorkModel::obsolete);
    reveal(WorkModel::discarded);
    reveal(WorkModel::cancelled);
}

/// Replacing what is rendered does not take away what is shown: only its
/// refinement stops.
pub proof fn last_scene_stays_visible(work: WorkModel, iterations: usize, now: Real)
    requires
        work.displayed is Some,
    ensures
        work.exact_begun(iterations, now).0.displayed == work.stopped().0.displayed,
        work.obsolete().0.displayed == work.stopped().0.displayed,
        ({
            let shown = work.displayed->Some_0;
            work.stopped().0.displayed == Some(Shown { scene: shown.scene.stopped(), ..shown })
        }),
{
    reveal(WorkModel::exact_begun);
    reveal(WorkModel::queued);
    reveal(WorkModel::set_aside);
    reveal(WorkModel::stopped);
    reveal(WorkModel::export_replaced);
    reveal(WorkModel::obsolete);
    reveal(WorkModel::discarded);
}

} // verus!
