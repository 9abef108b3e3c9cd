//! Carrying out events on a session.

use vstd::prelude::*;
use vstd::string::*;

use crate::controls::{allow_percent, clamp_angle, Controls, ControlsModel, PresetChoice};
use crate::kind::VisualizerKind;
use crate::number::{answers, calculates, Arithmetic, Real, SIGN_BIT};
use crate::session::{
    backend_text, concerns_panels, concerns_settings, Arrival, Event, ExportOutcome, Focus, Moment,
    Motion, MouseGesture, Panels, PanelsModel, RenderOutcome, Session, SessionModel,
    TransitionOutcome, Turn, WorkerUpdate, SOURCE_EDIT_DEBOUNCE_MILLIS, WHEEL_SETTLE_MILLIS,
};
use crate::single::Single;
use crate::text::same_text;
use crate::work::{
    next_number, ActiveJob, Displayed, Effect, IterationAnimation, ProgressSnapshot, Timer, Work,
    WorkModel,
};

verus! {

/// What an event leads to.
pub struct Response {
    /// What is to be done, in this order.
    pub effects: Vec<Effect>,
    /// Whether the page is to be shown anew.
    pub refresh: bool,
}

/// A session took a turn.
pub open spec fn took(after: Session, response: Response, turn: Turn) -> bool {
    after@ == turn.next && response.effects@ == turn.effects && response.refresh == turn.refresh
}

fn respond(effects: Vec<Effect>, refresh: bool) -> (r: Response)
    ensures
        r.effects == effects,
        r.refresh == refresh,
{
    Response { effects, refresh }
}

fn nothing(refresh: bool) -> (r: Response)
    ensures
        r.effects@ == Seq::<Effect>::empty(),
        r.refresh == refresh,
{
    let effects: Vec<Effect> = Vec::new();
    assert(effects@ =~= Seq::empty());
    Response { effects, refresh }
}

impl Session {
    pub open spec fn valid(self) -> bool {
        self@.valid()
    }

    pub fn needs_animation_frame(&self) -> (r: bool)
        requires
            self.valid(),
        ensures
            r == self@.needs_frame(),
    {
        proof {
            reveal(Work::model);
        }
        if !self.panels.canvas_visible() || self.motion.interaction_active() {
            return false;
        }
        (self.motion.autorotate && self.work.spatial_navigation()) || self.work.animation.is_some()
            || self.work.is_refining()
    }

    pub fn schedule_frame(&mut self, effects: &mut Vec<Effect>)
        requires
            old(self).valid(),
        ensures
            final(self).valid(),
            final(self)@ == old(self)@.frame_requested().0,
            final(effects)@ == old(effects)@ + old(self)@.frame_requested().1,
    {
        proof {
            reveal(SessionModel::frame_requested);
        }
        let ghost before = effects@;
        if !self.clock.scheduled && self.needs_animation_frame() {
            self.clock.scheduled = true;
            effects.push(Effect::RequestFrame);
        }
        assert(effects@ =~= before + old(self)@.frame_requested().1);
    }

    pub(crate) fn resume_animation<C: Fn(Arithmetic) -> Real>(
        &mut self,
        now: Real,
        effects: &mut Vec<Effect>,
        calc: &C,
    )
        requires
            old(self).valid(),
            calculates(*calc),
        ensures
            final(self).valid(),
            final(self)@ == old(self)@.resumed(now, answers(*calc)).0,
            final(effects)@ == old(effects)@ + old(self)@.resumed(now, answers(*calc)).1,
    {
        proof {
            reveal(Work::model);
            reveal(SessionModel::resumed);
        }
        let ghost before = effects@;
        if !self.panels.canvas_visible() || self.motion.interaction_active()
            || self.work.animation.is_none() {
            assert(effects@ =~= before + Seq::<Effect>::empty());
            return;
        }
        self.work.resume_animation(now, calc);
        self.schedule_frame(effects);
    }

    fn begin_exact_render(&mut self, now: Real, effects: &mut Vec<Effect>)
        requires
            old(self).valid(),
        ensures
            final(self).valid(),
            final(self)@ == old(self)@.exact(now).0,
            final(effects)@ == old(effects)@ + old(self)@.exact(now).1,
    {
        proof {
            reveal(Controls::model);
            reveal(SessionModel::exact);
        }
        self.controls.settle();
        let iterations: usize = self.controls.iterations;
        self.work.begin_exact_render(iterations, now, effects);
    }

    pub(crate) fn begin_iteration_route(&mut self, now: Real, effects: &mut Vec<Effect>)
        requires
            old(self).valid(),
        ensures
            final(self).valid(),
            final(self)@ == old(self)@.routed(now).0,
            final(effects)@ == old(effects)@ + old(self)@.routed(now).1,
    {
        proof {
            reveal(Controls::model);
            reveal(SessionModel::routed);
        }
        self.controls.settle();
        if self.controls.visualizer != VisualizerKind::Turtle2d {
            self.begin_exact_render(now, effects);
            return;
        }
        let identity = self.controls.identity();
        let iterations: usize = self.controls.iterations;
        self.work.begin_iteration_route(iterations, identity, now, effects);
    }

    fn render_exactly(&mut self, now: Real) -> (r: Response)
        requires
            old(self).valid(),
        ensures
            final(self).valid(),
            took(*final(self), r, old(self)@.rendered_exactly(now)),
    {
        proof {
            reveal(SessionModel::rendered_exactly);
        }
        let mut effects: Vec<Effect> = Vec::new();
        self.begin_exact_render(now, &mut effects);
        assert(effects@ =~= old(self)@.exact(now).1);
        respond(effects, true)
    }

    fn render_stepwise(&mut self, now: Real) -> (r: Response)
        requires
            old(self).valid(),
        ensures
            final(self).valid(),
            took(*final(self), r, old(self)@.rendered_stepwise(now)),
    {
        proof {
            reveal(SessionModel::rendered_stepwise);
        }
        let mut effects: Vec<Effect> = Vec::new();
        self.begin_iteration_route(now, &mut effects);
        assert(effects@ =~= old(self)@.routed(now).1);
        respond(effects, true)
    }

    fn customize(&mut self)
        requires
            old(self).valid(),
        ensures
            final(self).valid(),
            final(self)@ == old(self)@.customized(old(self)@.controls),
    {
        proof {
            reveal(Controls::model);
        }
        self.controls.selected_preset = None;
        self.motion.pending_autorotate = None;
    }

    fn change_source(&mut self, source: String) -> (r: Response)
        requires
            old(self).valid(),
        ensures
            final(self).valid(),
            took(*final(self), r, old(self)@.source_changed(source@)),
    {
        proof {
            reveal(Controls::model);
            reveal(Work::model);
            reveal(SessionModel::source_changed);
        }
        let ghost text = source@;
        if same_text(source.as_str(), self.controls.source.as_str()) {
            return nothing(false);
        }
        let mut effects: Vec<Effect> = Vec::new();
        self.controls.source = source;
        self.customize();
        self.work.view_epoch = self.work.view_epoch.wrapping_add(1);
        self.work.cancel_obsolete_work(&mut effects);
        self.controls.settle();
        effects.push(
            Effect::SetTimer(
                Timer::SourceDebounced(self.controls.source_edit_token),
                SOURCE_EDIT_DEBOUNCE_MILLIS,
            ),
        );
        assert(effects@ =~= old(self)@.source_changed(text).effects);
        respond(effects, true)
    }

    fn set_angle(&mut self, angle: Single, now: Real) -> (r: Response)
        requires
            old(self).valid(),
        ensures
            final(self).valid(),
            took(*final(self), r, old(self)@.angle_set(angle, now)),
    {
        proof {
            reveal(Controls::model);
            reveal(SessionModel::angle_set);
        }
        self.controls.angle = angle;
        self.customize();
        self.render_exactly(now)
    }

    fn change_line_width(&mut self, percent: u16, now: Real) -> (r: Response)
        requires
            old(self).valid(),
        ensures
            final(self).valid(),
            took(*final(self), r, old(self)@.line_width_changed(percent, now)),
    {
        proof {
            reveal(Controls::model);
            reveal(SessionModel::line_width_changed);
        }
        let allowed: u16 = allow_percent(percent);
        if allowed == self.controls.line_width_percent {
            return nothing(false);
        }
        let mut effects: Vec<Effect> = Vec::new();
        self.controls.line_width_percent = allowed;
        self.work.cancel_export_for_replacement(&mut effects);
        self.work.invalidate_display(now, &mut effects);
        assert(effects@ =~= old(self)@.line_width_changed(percent, now).effects);
        respond(effects, true)
    }

    fn choose_iterations(&mut self, iterations: usize, now: Real) -> (r: Response)
        requires
            old(self).valid(),
        ensures
            final(self).valid(),
            took(*final(self), r, old(self)@.iterations_chosen(iterations, now)),
    {
        proof {
            reveal(SessionModel::iterations_chosen);
        }
        self.controls.set_iterations(iterations);
        self.customize();
        self.render_stepwise(now)
    }

    fn neighbouring(&self, up: bool) -> (r: usize)
        ensures
            r == self@.neighbour(up),
    {
        proof {
            reveal(Controls::model);
        }
        if up {
            self.controls.iterations.saturating_add(1)
        } else {
            self.controls.iterations.saturating_sub(1)
        }
    }

    fn type_iterations(&mut self, input: String, now: Real) -> (r: Response)
        requires
            old(self).valid(),
        ensures
            final(self).valid(),
            took(*final(self), r, old(self)@.iterations_typed(input@, now)),
    {
        proof {
            reveal(SessionModel::iterations_typed);
        }
        if self.controls.type_iterations(input) {
            self.customize();
            self.render_exactly(now)
        } else {
            nothing(true)
        }
    }

    fn type_seed(&mut self, input: String, now: Real) -> (r: Response)
        requires
            old(self).valid(),
        ensures
            final(self).valid(),
            took(*final(self), r, old(self)@.seed_typed(input@, now)),
    {
        proof {
            reveal(SessionModel::seed_typed);
        }
        if self.controls.type_seed(input) {
            self.render_exactly(now)
        } else {
            nothing(true)
        }
    }

    fn take_preset(
        &mut self,
        index: usize,
        choice: PresetChoice,
        seed: Result<u64, String>,
        now: Real,
        effects: &mut Vec<Effect>,
    )
        requires
            old(self).valid(),
        ensures
            final(self).valid(),
            final(self)@ == old(self)@.preset_taken(index, choice, seed, now).0,
            final(effects)@ == old(effects)@ + old(self)@.preset_taken(
                index,
                choice,
                seed,
                now,
            ).1,
    {
        proof {
            reveal(Panels::model);
            reveal(Work::model);
            reveal(SessionModel::preset_taken);
        }
        self.work.view_epoch = self.work.view_epoch.wrapping_add(1);
        let rotates: bool = choice.visualizer == VisualizerKind::Turtle3d
            && !self.panels.reduced_motion;
        self.motion.pending_autorotate = if rotates {
            Some(self.work.view_epoch)
        } else {
            None
        };
        self.controls.select_preset(index, choice, seed);
        self.begin_iteration_route(now, effects);
    }

    fn select_preset(
        &mut self,
        index: usize,
        choice: Option<PresetChoice>,
        seed: Result<u64, String>,
        now: Real,
    ) -> (r: Response)
        requires
            old(self).valid(),
        ensures
            final(self).valid(),
            took(*final(self), r, old(self)@.preset_selected(index, choice, seed, now)),
    {
        proof {
            reveal(Controls::model);
            reveal(Panels::model);
            reveal(Work::model);
            reveal(SessionModel::preset_selected);
        }
        let ghost given = (choice, seed);
        let mut effects: Vec<Effect> = Vec::new();
        match choice {
            Some(choice) => {
                proof {
                    lemma_presets_keep_panels(self@, index, choice, seed, now);
                }
                self.take_preset(index, choice, seed, now, &mut effects);
            },
            None => {},
        }
        assert(effects@ =~= old(self)@.preset_selected(index, given.0, given.1, now).effects);
        assert(self@.panels == old(self)@.panels);
        self.panels.draft.reset(self.controls.source.as_str());
        if self.panels.catalog_open {
            self.panels.catalog_open = false;
            self.work.canvas_dirty = true;
        }
        if self.panels.is_mobile() {
            self.panels.focus_after_render = Some(Focus::DrawingInput);
            self.panels.scroll_after_render = Some(Real { bits: 0 });
        }
        respond(effects, true)
    }

    fn open_catalog(&mut self, scroll: Real, now: Real) -> (r: Response)
        requires
            old(self).valid(),
        ensures
            final(self).valid(),
            took(*final(self), r, old(self)@.catalog_opened(scroll, now)),
    {
        proof {
            reveal(Panels::model);
            reveal(SessionModel::catalog_opened);
        }
        self.panels.explore_scroll = scroll;
        self.panels.editor_open = false;
        self.panels.catalog_open = true;
        self.panels.focus_after_render = Some(Focus::PresetsHeading);
        self.panels.scroll_after_render = Some(Real { bits: 0 });
        self.work.pause_animation(now);
        self.motion.autorotate_last = None;
        nothing(true)
    }

    fn close_catalog<C: Fn(Arithmetic) -> Real>(&mut self, now: Real, calc: &C) -> (r: Response)
        requires
            old(self).valid(),
            calculates(*calc),
        ensures
            final(self).valid(),
            took(*final(self), r, old(self)@.catalog_closed(now, answers(*calc))),
    {
        proof {
            reveal(Panels::model);
            reveal(Work::model);
            reveal(SessionModel::catalog_closed);
        }
        let mut effects: Vec<Effect> = Vec::new();
        self.panels.catalog_open = false;
        self.panels.focus_after_render = Some(Focus::BrowsePresets);
        self.panels.scroll_after_render = Some(self.panels.explore_scroll);
        self.resume_animation(now, &mut effects, calc);
        self.work.canvas_dirty = true;
        assert(effects@ =~= old(self)@.catalog_closed(now, answers(*calc)).effects);
        respond(effects, true)
    }

    fn open_editor(&mut self, scroll: Real, now: Real) -> (r: Response)
        requires
            old(self).valid(),
        ensures
            final(self).valid(),
            took(*final(self), r, old(self)@.editor_opened(scroll, now)),
    {
        proof {
            reveal(Controls::model);
            reveal(Panels::model);
            reveal(SessionModel::editor_opened);
        }
        let mobile: bool = self.panels.is_mobile();
        self.panels.explore_scroll = scroll;
        self.panels.catalog_open = false;
        self.panels.editor_draft_mode = mobile || self.panels.draft.is_modified();
        if self.panels.editor_draft_mode {
            self.panels.draft.open(self.controls.source.as_str());
        }
        self.panels.editor_open = true;
        self.panels.focus_after_render = Some(Focus::SourceEditor);
        if mobile {
            self.panels.scroll_after_render = Some(Real { bits: 0 });
            self.work.pause_animation(now);
            self.motion.autorotate_last = None;
        }
        nothing(true)
    }

    fn close_editor<C: Fn(Arithmetic) -> Real>(
        &mut self,
        now: Real,
        effects: &mut Vec<Effect>,
        calc: &C,
    )
        requires
            old(self).valid(),
            calculates(*calc),
        ensures
            final(self).valid(),
            final(self)@ == old(self)@.editor_closed(now, answers(*calc)).0,
            final(effects)@ == old(effects)@ + old(self)@.editor_closed(now, answers(*calc)).1,
    {
        proof {
            reveal(Panels::model);
            reveal(Work::model);
            reveal(SessionModel::editor_closed);
        }
        let mobile: bool = self.panels.is_mobile();
        self.panels.editor_open = false;
        self.panels.focus_after_render = Some(
            if mobile {
                Focus::MobileEditGrammar
            } else {
                Focus::DesktopEditGrammar
            },
        );
        if mobile {
            self.panels.scroll_after_render = Some(self.panels.explore_scroll);
        }
        self.resume_animation(now, effects, calc);
        self.work.canvas_dirty = true;
    }

    fn take_draft(&mut self) -> (r: Option<String>)
        requires
            old(self).valid(),
        ensures
            final(self).valid(),
            ({
                let (draft, applied) = old(self)@.panels.draft.applied(old(self)@.controls.source);
                &&& final(self)@ == (SessionModel {
                    panels: PanelsModel { draft, ..old(self)@.panels },
                    ..old(self)@
                })
                &&& match r {
                    Some(source) => applied == Some(source@),
                    None => applied is None,
                }
            }),
    {
        proof {
            reveal(Controls::model);
            reveal(Panels::model);
        }
        self.panels.draft.apply(self.controls.source.as_str())
    }

    fn replace_system(&mut self, source: String)
        requires
            old(self).valid(),
        ensures
            final(self).valid(),
            final(self)@ == (SessionModel {
                work: WorkModel {
                    view_epoch: next_number(old(self)@.work.view_epoch),
                    ..old(self)@.work
                },
                ..old(self)@.customized(
                    ControlsModel { source: source@, ..old(self)@.controls },
                )
            }),
    {
        proof {
            reveal(Controls::model);
            reveal(Work::model);
        }
        self.controls.source = source;
        self.controls.selected_preset = None;
        self.motion.pending_autorotate = None;
        self.work.view_epoch = self.work.view_epoch.wrapping_add(1);
    }

    fn render_draft(&mut self, now: Real, effects: &mut Vec<Effect>)
        requires
            old(self).valid(),
        ensures
            final(self).valid(),
            final(self)@ == old(self)@.draft_rendered(now).0,
            final(effects)@ == old(effects)@ + old(self)@.draft_rendered(now).1,
    {
        proof {
            reveal(SessionModel::draft_rendered);
        }
        let ghost before = effects@;
        match self.take_draft() {
            Some(source) => {
                self.replace_system(source);
                self.begin_exact_render(now, effects);
            },
            None => {
                assert(effects@ =~= before + Seq::<Effect>::empty());
            },
        }
    }

    fn apply_draft<C: Fn(Arithmetic) -> Real>(&mut self, now: Real, calc: &C) -> (r: Response)
        requires
            old(self).valid(),
            calculates(*calc),
        ensures
            final(self).valid(),
            took(*final(self), r, old(self)@.draft_applied(now, answers(*calc))),
    {
        proof {
            reveal(Panels::model);
            reveal(SessionModel::draft_applied);
        }
        let mut effects: Vec<Effect> = Vec::new();
        self.render_draft(now, &mut effects);
        self.close_editor(now, &mut effects, calc);
        if self.panels.is_mobile() {
            self.panels.focus_after_render = Some(Focus::DrawingInput);
            self.panels.scroll_after_render = Some(Real { bits: 0 });
        }
        assert(effects@ =~= old(self)@.draft_applied(now, answers(*calc)).effects);
        respond(effects, true)
    }

    fn cycle_theme(&mut self, now: Real) -> (r: Response)
        requires
            old(self).valid(),
        ensures
            final(self).valid(),
            took(*final(self), r, old(self)@.theme_cycled(now)),
    {
        proof {
            reveal(Panels::model);
            reveal(SessionModel::theme_cycled);
            reveal(SessionModel::themed);
        }
        let mut effects: Vec<Effect> = Vec::new();
        let was_dark: bool = self.panels.effective_dark();
        self.panels.theme = self.panels.theme.next();
        if was_dark != self.panels.effective_dark() {
            self.work.invalidate_display(now, &mut effects);
        }
        assert(effects@ =~= old(self)@.theme_cycled(now).effects);
        respond(effects, true)
    }

    fn change_system_theme(&mut self, dark: bool, now: Real) -> (r: Response)
        requires
            old(self).valid(),
        ensures
            final(self).valid(),
            took(*final(self), r, old(self)@.system_theme_changed(dark, now)),
    {
        proof {
            reveal(Panels::model);
            reveal(SessionModel::system_theme_changed);
            reveal(SessionModel::themed);
        }
        let mut effects: Vec<Effect> = Vec::new();
        let was_dark: bool = self.panels.effective_dark();
        self.panels.system_dark = dark;
        let changed: bool = was_dark != self.panels.effective_dark();
        if changed {
            self.work.invalidate_display(now, &mut effects);
        }
        assert(effects@ =~= old(self)@.system_theme_changed(dark, now).effects);
        respond(effects, changed)
    }

    fn change_reduced_motion(&mut self, reduced_motion: bool, now: Real) -> (r: Response)
        requires
            old(self).valid(),
        ensures
            final(self).valid(),
            took(*final(self), r, old(self)@.reduced_motion_changed(reduced_motion, now)),
    {
        proof {
            reveal(Panels::model);
            reveal(SessionModel::reduced_motion_changed);
        }
        if reduced_motion == self.panels.reduced_motion {
            return nothing(false);
        }
        self.panels.reduced_motion = reduced_motion;
        if !reduced_motion {
            // Only the selection of another spatial preset arms rotation again.
            return nothing(false);
        }
        let mut effects: Vec<Effect> = Vec::new();
        let was_autorotating: bool = self.motion.autorotate;
        let had_pending: bool = self.motion.pending_autorotate.is_some();
        self.motion.stop_autorotate();
        if was_autorotating {
            // Exact display work rests while the scene turns: the view that now
            // stands still is refined anew.
            self.work.invalidate_display(now, &mut effects);
        }
        assert(effects@ =~= old(self)@.reduced_motion_changed(reduced_motion, now).effects);
        respond(effects, was_autorotating || had_pending)
    }

    fn resize_window(&mut self, width: Option<Real>, now: Real) -> (r: Response)
        requires
            old(self).valid(),
        ensures
            final(self).valid(),
            took(*final(self), r, old(self)@.window_resized(width, now)),
    {
        proof {
            reveal(Controls::model);
            reveal(Panels::model);
            reveal(SessionModel::window_resized);
        }
        let mut effects: Vec<Effect> = Vec::new();
        self.motion.touch = None;
        match width {
            Some(width) => {
                self.panels.viewport_width = width;
            },
            None => {},
        }
        if self.panels.is_mobile() && self.panels.editor_open && !self.panels.editor_draft_mode {
            self.panels.editor_draft_mode = true;
            self.panels.draft.open(self.controls.source.as_str());
        }
        self.work.invalidate_display(now, &mut effects);
        assert(effects@ =~= old(self)@.window_resized(width, now).effects);
        respond(effects, true)
    }

    pub(crate) fn resize_canvas(&mut self, size: Option<(i32, i32)>, now: Real) -> (r: Response)
        requires
            old(self).valid(),
        ensures
            final(self).valid(),
            took(*final(self), r, old(self)@.canvas_resized(size, now)),
    {
        proof {
            reveal(Panels::model);
            reveal(SessionModel::canvas_resized);
        }
        let given: (i32, i32) = match size {
            Some(size) => size,
            None => {
                return nothing(false);
            },
        };
        let same: bool = match self.panels.canvas_size {
            Some(known) => known.0 == given.0 && known.1 == given.1,
            None => false,
        };
        if !self.panels.canvas_visible() || given.0 <= 0 || given.1 <= 0 || same {
            return nothing(false);
        }
        let mut effects: Vec<Effect> = Vec::new();
        self.panels.canvas_size = Some(given);
        if self.work.shows_planar() {
            effects.push(Effect::ConstrainCamera);
        }
        self.work.invalidate_display(now, &mut effects);
        assert(effects@ =~= old(self)@.canvas_resized(size, now).effects);
        respond(effects, true)
    }

    fn settle_view<C: Fn(Arithmetic) -> Real>(
        &mut self,
        now: Real,
        effects: &mut Vec<Effect>,
        calc: &C,
    )
        requires
            old(self).valid(),
            calculates(*calc),
        ensures
            final(self).valid(),
            final(self)@ == old(self)@.view_settled(now, answers(*calc)).0,
            final(effects)@ == old(effects)@ + old(self)@.view_settled(now, answers(*calc)).1,
    {
        proof {
            reveal(Work::model);
            reveal(SessionModel::view_settled);
        }
        let ghost before = effects@;
        self.work.restart_refinement(now, effects);
        self.resume_animation(now, effects, calc);
        self.work.canvas_dirty = true;
        assert(effects@ =~= before + old(self)@.view_settled(now, answers(*calc)).1);
    }

    fn cancel_input<C: Fn(Arithmetic) -> Real>(&mut self, now: Real, calc: &C) -> (r: Response)
        requires
            old(self).valid(),
            calculates(*calc),
        ensures
            final(self).valid(),
            took(*final(self), r, old(self)@.input_cancelled(now, answers(*calc))),
    {
        proof {
            reveal(SessionModel::input_cancelled);
        }
        let mut effects: Vec<Effect> = Vec::new();
        let was_interacting: bool = self.motion.interaction_active();
        self.motion.mouse = None;
        self.motion.touch = None;
        self.motion.touch_owned = false;
        self.motion.wheel_active = false;
        self.motion.wheel_token = self.motion.wheel_token.wrapping_add(1);
        if was_interacting {
            self.settle_view(now, &mut effects, calc);
        }
        assert(effects@ =~= old(self)@.input_cancelled(now, answers(*calc)).effects);
        respond(effects, was_interacting)
    }

    /// Show a scene, with the motion that belongs to it.
    pub fn promote_displayed(&mut self, displayed: Displayed, now: Real, effects: &mut Vec<Effect>)
        requires
            old(self).valid(),
            displayed.scene.valid(),
        ensures
            final(self).valid(),
            final(self)@ == old(self)@.promoted(displayed@, now).0,
            final(effects)@ == old(effects)@ + old(self)@.promoted(displayed@, now).1,
    {
        proof {
            reveal(Panels::model);
            reveal(SessionModel::promoted);
        }
        let spatial: bool = displayed.scene.is_spatial();
        let view_epoch: u64 = displayed.view_epoch;
        let replaced: bool = self.work.promote_displayed(displayed, now, effects);
        let reduced_motion: bool = self.panels.reduced_motion;
        self.motion.take_scene(replaced, spatial, reduced_motion, view_epoch);
    }

    fn fail(&mut self, failure: String, keep_animation: bool) -> (r: Response)
        requires
            old(self).valid(),
        ensures
            final(self).valid(),
            took(
                *final(self),
                r,
                old(self)@.failed(
                    failure@,
                    if keep_animation { old(self)@.work.animation } else { None },
                ),
            ),
    {
        proof {
            reveal(Work::model);
            reveal(SessionModel::failed);
        }
        self.work.active = None;
        self.work.failure = Some(failure);
        self.work.route = None;
        if !keep_animation {
            self.work.animation = None;
        }
        nothing(true)
    }

    fn take_arrival(&mut self, iteration: usize, view_epoch: u64, arrival: Arrival, now: Real) -> (r:
        Response)
        requires
            old(self).valid(),
            arrival.scene.valid(),
        ensures
            final(self).valid(),
            took(
                *final(self),
                r,
                old(self)@.arrived(iteration, view_epoch, arrival, now),
            ),
    {
        proof {
            reveal(Work::model);
            reveal(SessionModel::arrived);
        }
        let ghost given = arrival;
        let Arrival {
            scene,
            elapsed_millis,
            derivation_backend,
            visualization_backend,
            transition,
        } = arrival;
        let spatial: bool = scene.is_spatial();
        let mut backend: String = derivation_backend;
        backend.append(" derive \u{b7} ");
        backend.append(visualization_backend.as_str());
        backend.append(" visualize \u{b7} Canvas2D");
        assert(backend@ == backend_text(
            given.derivation_backend@,
            given.visualization_backend@,
        ));
        let target: Displayed = Displayed {
            scene,
            iteration,
            identity: self.controls.identity(),
            view_epoch,
            elapsed_millis,
            backend,
            refinement_started: now,
        };
        let absent: bool = match &transition {
            TransitionOutcome::Absent => true,
            _ => false,
        };
        if !absent && spatial {
            return self.fail(
                "browser-worker returned transition data for a 3D scene".to_owned(),
                true,
            );
        }
        match transition {
            TransitionOutcome::Absent => {
                let mut effects: Vec<Effect> = Vec::new();
                self.work.active = None;
                self.promote_displayed(target, now, &mut effects);
                self.work.queue_next_iteration(now, &mut effects);
                assert(effects@ =~= old(self)@.arrived(
                    iteration,
                    view_epoch,
                    given,
                    now,
                ).effects);
                respond(effects, true)
            },
            TransitionOutcome::MissingMorphs => self.fail(
                "browser-worker transition omitted its morph buffers".to_owned(),
                true,
            ),
            TransitionOutcome::Rejected(error) => self.fail(error, true),
            TransitionOutcome::Ready(transition) => {
                let mut effects: Vec<Effect> = Vec::new();
                self.work.active = None;
                self.work.animation = Some(
                    IterationAnimation {
                        target,
                        from_iteration: transition.from_iteration,
                        to_iteration: transition.to_iteration,
                        started: now,
                        paused_at: None,
                        paused_millis: Real { bits: 0 },
                    },
                );
                self.work.failure = None;
                self.work.canvas_dirty = true;
                self.schedule_frame(&mut effects);
                assert(effects@ =~= old(self)@.arrived(
                    iteration,
                    view_epoch,
                    given,
                    now,
                ).effects);
                respond(effects, true)
            },
        }
    }

    fn finish_render(
        &mut self,
        request_id: u64,
        iteration: usize,
        view_epoch: u64,
        outcome: RenderOutcome,
        now: Real,
    ) -> (r: Response)
        requires
            old(self).valid(),
            outcome matches RenderOutcome::Scene(arrival) ==> arrival.scene.valid(),
        ensures
            final(self).valid(),
            took(
                *final(self),
                r,
                old(self)@.finished(request_id, iteration, view_epoch, outcome, now),
            ),
    {
        proof {
            reveal(Work::model);
            reveal(SessionModel::finished);
        }
        if request_id != self.work.request_id {
            return nothing(false);
        }
        match outcome {
            RenderOutcome::Failed(message) => self.fail(message, false),
            RenderOutcome::MissingLines => self.fail(
                "browser-worker result omitted its line buffers".to_owned(),
                true,
            ),
            RenderOutcome::Rejected(message) => self.fail(message, true),
            RenderOutcome::Scene(arrival) => self.take_arrival(
                iteration,
                view_epoch,
                arrival,
                now,
            ),
        }
    }

    fn take_progress(&mut self, request_id: u64, snapshot: ProgressSnapshot) -> (r: Response)
        requires
            old(self).valid(),
        ensures
            final(self).valid(),
            took(
                *final(self),
                r,
                old(self)@.worker_updated(
                    WorkerUpdate::Progress { request_id, snapshot },
                    Real { bits: 0 },
                ),
            ),
    {
        proof {
            reveal(Work::model);
            reveal(SessionModel::worker_updated);
        }
        match self.work.active.take() {
            Some(job) => {
                if job.request_id == request_id {
                    self.work.active = Some(
                        ActiveJob {
                            request_id: job.request_id,
                            started: job.started,
                            progress: Some(snapshot),
                        },
                    );
                    nothing(true)
                } else {
                    self.work.active = Some(job);
                    nothing(false)
                }
            },
            None => {
                self.work.active = None;
                nothing(false)
            },
        }
    }

    /// Take in what the worker reports.
    pub fn handle_worker_update(&mut self, update: WorkerUpdate, now: Real) -> (r: Response)
        requires
            old(self).valid(),
            update matches WorkerUpdate::Finished { outcome: RenderOutcome::Scene(arrival), .. }
                ==> arrival.scene.valid(),
        ensures
            final(self).valid(),
            took(*final(self), r, old(self)@.worker_updated(update, now)),
    {
        proof {
            reveal(Work::model);
            reveal(SessionModel::worker_updated);
        }
        match update {
            WorkerUpdate::Ready => {
                self.work.worker_fatal = None;
                nothing(false)
            },
            WorkerUpdate::Progress { request_id, snapshot } => self.take_progress(
                request_id,
                snapshot,
            ),
            WorkerUpdate::Cancelled { request_id } => {
                if request_id != self.work.request_id {
                    return nothing(false);
                }
                self.work.active = None;
                self.work.route = None;
                self.work.animation = None;
                self.work.failure = None;
                nothing(true)
            },
            WorkerUpdate::Fatal(message) => {
                self.work.worker_fatal = Some(message);
                nothing(true)
            },
            WorkerUpdate::Finished { request_id, iteration, view_epoch, outcome } => {
                self.finish_render(request_id, iteration, view_epoch, outcome, now)
            },
        }
    }

    fn press_pointer(&mut self, pointer_id: i32, now: Real) -> (r: Response)
        requires
            old(self).valid(),
        ensures
            final(self).valid(),
            took(*final(self), r, old(self)@.pointer_pressed(pointer_id, now)),
    {
        proof {
            reveal(SessionModel::pointer_pressed);
        }
        if self.panels.is_mobile() || !self.work.navigation_enabled() {
            return nothing(false);
        }
        let mut effects: Vec<Effect> = Vec::new();
        let spatial: bool = self.work.spatial_navigation();
        self.motion.mouse = Some(MouseGesture { pointer_id, spatial });
        effects.push(Effect::BeginGesture { spatial });
        // Any owned gesture is authoritative, including one on a planar scene
        // that remains visible while a spatial preset is still rendering.
        self.motion.stop_autorotate();
        self.work.pause_animation(now);
        assert(effects@ =~= old(self)@.pointer_pressed(pointer_id, now).effects);
        respond(effects, false)
    }

    fn move_pointer(&mut self, pointer_id: i32, moment: Moment) -> (r: Response)
        requires
            old(self).valid(),
        ensures
            final(self).valid(),
            took(*final(self), r, old(self)@.pointer_moved(pointer_id, moment)),
    {
        proof {
            reveal(SessionModel::pointer_moved);
        }
        let gesture: MouseGesture = match self.motion.mouse {
            Some(gesture) => gesture,
            None => {
                return nothing(false);
            },
        };
        if gesture.pointer_id != pointer_id || !moment.has_space || !(gesture.spatial
            || self.work.shows_planar()) {
            return nothing(false);
        }
        let mut effects: Vec<Effect> = Vec::new();
        if gesture.spatial {
            effects.push(Effect::DragOrbit);
        } else {
            effects.push(Effect::PanCamera);
        }
        self.work.invalidate_display(moment.now, &mut effects);
        assert(effects@ =~= old(self)@.pointer_moved(pointer_id, moment).effects);
        respond(effects, true)
    }

    fn release_pointer<C: Fn(Arithmetic) -> Real>(
        &mut self,
        pointer_id: i32,
        now: Real,
        calc: &C,
    ) -> (r: Response)
        requires
            old(self).valid(),
            calculates(*calc),
        ensures
            final(self).valid(),
            took(
                *final(self),
                r,
                old(self)@.pointer_released(pointer_id, now, answers(*calc)),
            ),
    {
        proof {
            reveal(SessionModel::pointer_released);
        }
        let held: bool = match self.motion.mouse {
            Some(gesture) => gesture.pointer_id == pointer_id,
            None => false,
        };
        if !held {
            return nothing(false);
        }
        let mut effects: Vec<Effect> = Vec::new();
        self.motion.mouse = None;
        self.resume_animation(now, &mut effects, calc);
        self.work.invalidate_display(now, &mut effects);
        assert(effects@ =~= old(self)@.pointer_released(pointer_id, now, answers(*calc)).effects);
        respond(effects, true)
    }

    fn update_touch<C: Fn(Arithmetic) -> Real>(
        &mut self,
        moving: bool,
        count: usize,
        owned: bool,
        moment: Moment,
        calc: &C,
    ) -> (r: Response)
        requires
            old(self).valid(),
            calculates(*calc),
        ensures
            final(self).valid(),
            took(
                *final(self),
                r,
                old(self)@.touched(moving, count, owned, moment, answers(*calc)),
            ),
    {
        proof {
            reveal(Work::model);
            reveal(SessionModel::touched);
        }
        if !owned {
            return nothing(false);
        }
        let mut effects: Vec<Effect> = Vec::new();
        // Once a gesture is captured, its remaining fingers stay owned until
        // the last lift: a pinch that is half over does not scroll the page.
        self.motion.touch_owned = count > 0;
        if count == 0 {
            self.motion.touch = None;
            self.settle_view(moment.now, &mut effects, calc);
            assert(effects@ =~= old(self)@.touched(
                moving,
                count,
                owned,
                moment,
                answers(*calc),
            ).effects);
            return respond(effects, true);
        }
        let spatial: bool = self.work.spatial_navigation();
        let required: usize = crate::model::required_canvas_touches(
            self.panels.is_mobile(),
            spatial,
        );
        if !self.work.navigation_enabled() || count < required {
            self.motion.touch = None;
            return nothing(false);
        }
        let turns: bool = match self.motion.touch {
            Some(turns) => {
                if moving {
                    turns
                } else {
                    return self.begin_touch(spatial, moment.now);
                }
            },
            None => {
                return self.begin_touch(spatial, moment.now);
            },
        };
        if !moment.has_space || (!turns && !self.work.shows_planar()) {
            return nothing(false);
        }
        if turns {
            effects.push(Effect::DragOrbit);
        } else {
            effects.push(Effect::PinchCamera);
        }
        self.work.canvas_dirty = true;
        assert(effects@ =~= old(self)@.touched(
            moving,
            count,
            owned,
            moment,
            answers(*calc),
        ).effects);
        respond(effects, true)
    }

    fn begin_touch(&mut self, spatial: bool, now: Real) -> (r: Response)
        requires
            old(self).valid(),
        ensures
            final(self).valid(),
            final(self)@ == (SessionModel {
                motion: Motion {
                    touch: Some(spatial),
                    ..old(self)@.motion.autorotate_stopped()
                },
                work: old(self)@.work.paused(now),
                ..old(self)@
            }),
            r.effects@ == seq![Effect::BeginGesture { spatial }],
            !r.refresh,
    {
        let mut effects: Vec<Effect> = Vec::new();
        self.motion.stop_autorotate();
        self.motion.touch = Some(spatial);
        self.work.pause_animation(now);
        effects.push(Effect::BeginGesture { spatial });
        assert(effects@ =~= seq![Effect::BeginGesture { spatial }]);
        respond(effects, false)
    }

    fn zoom_by_wheel(&mut self, moment: Moment) -> (r: Response)
        requires
            old(self).valid(),
        ensures
            final(self).valid(),
            took(*final(self), r, old(self)@.wheel_zoomed(moment)),
    {
        proof {
            reveal(Work::model);
            reveal(SessionModel::wheel_zoomed);
        }
        if self.work.spatial_navigation() || !self.work.shows_planar() || !moment.has_space {
            return nothing(false);
        }
        let mut effects: Vec<Effect> = Vec::new();
        self.motion.stop_autorotate();
        effects.push(Effect::ZoomAbout);
        self.motion.wheel_active = true;
        self.motion.wheel_token = self.motion.wheel_token.wrapping_add(1);
        self.work.pause_animation(moment.now);
        self.work.canvas_dirty = true;
        effects.push(
            Effect::SetTimer(Timer::WheelSettled(self.motion.wheel_token), WHEEL_SETTLE_MILLIS),
        );
        assert(effects@ =~= old(self)@.wheel_zoomed(moment).effects);
        respond(effects, true)
    }

    fn settle_wheel<C: Fn(Arithmetic) -> Real>(&mut self, token: u64, now: Real, calc: &C) -> (r:
        Response)
        requires
            old(self).valid(),
            calculates(*calc),
        ensures
            final(self).valid(),
            took(*final(self), r, old(self)@.wheel_settled(token, now, answers(*calc))),
    {
        proof {
            reveal(SessionModel::wheel_settled);
        }
        if token != self.motion.wheel_token {
            return nothing(false);
        }
        let mut effects: Vec<Effect> = Vec::new();
        self.motion.wheel_active = false;
        self.settle_view(now, &mut effects, calc);
        assert(effects@ =~= old(self)@.wheel_settled(token, now, answers(*calc)).effects);
        respond(effects, true)
    }

    fn zoom(&mut self, moment: Moment) -> (r: Response)
        requires
            old(self).valid(),
        ensures
            final(self).valid(),
            took(*final(self), r, old(self)@.zoomed(moment)),
    {
        proof {
            reveal(SessionModel::zoomed);
        }
        if self.work.spatial_navigation() || !self.work.shows_planar() || !moment.has_space {
            return nothing(false);
        }
        let mut effects: Vec<Effect> = Vec::new();
        effects.push(Effect::ZoomCamera);
        self.work.invalidate_display(moment.now, &mut effects);
        assert(effects@ =~= old(self)@.zoomed(moment).effects);
        respond(effects, true)
    }

    fn fit_view(&mut self, now: Real) -> (r: Response)
        requires
            old(self).valid(),
        ensures
            final(self).valid(),
            took(*final(self), r, old(self)@.view_fitted(now)),
    {
        proof {
            reveal(SessionModel::view_fitted);
        }
        if self.work.spatial_navigation() {
            return nothing(false);
        }
        let mut effects: Vec<Effect> = Vec::new();
        effects.push(Effect::FitCamera);
        self.work.invalidate_display(now, &mut effects);
        assert(effects@ =~= old(self)@.view_fitted(now).effects);
        respond(effects, true)
    }

    fn begin_export(&mut self) -> (r: Response)
        requires
            old(self).valid(),
        ensures
            final(self).valid(),
            took(*final(self), r, old(self)@.export_begun()),
    {
        proof {
            reveal(Work::model);
            reveal(SessionModel::export_begun);
        }
        if self.work.displayed.is_none() {
            return nothing(true);
        }
        let mut effects: Vec<Effect> = Vec::new();
        if self.work.export.job.is_some() {
            effects.push(Effect::StopExport);
        }
        let id: u64 = self.work.export.sequence.wrapping_add(1);
        self.work.export.sequence = id;
        self.work.export.job = Some(id);
        self.work.export.notice = Some("Preparing SVG\u{2026}".to_owned());
        effects.push(Effect::BeginExport(id));
        assert(effects@ =~= old(self)@.export_begun().effects);
        respond(effects, true)
    }

    fn cancel_export(&mut self) -> (r: Response)
        requires
            old(self).valid(),
        ensures
            final(self).valid(),
            took(*final(self), r, old(self)@.export_cancelled()),
    {
        proof {
            reveal(Work::model);
            reveal(SessionModel::export_cancelled);
        }
        let mut effects: Vec<Effect> = Vec::new();
        if self.work.export.job.is_some() {
            self.work.export.job = None;
            self.work.export.notice = Some("SVG export cancelled".to_owned());
            effects.push(Effect::StopExport);
        }
        assert(effects@ =~= old(self)@.export_cancelled().effects);
        respond(effects, true)
    }

    /// Whether an export is the one that is waited for.
    pub fn export_is_current(&self, id: u64) -> (r: bool)
        ensures
            r == (self@.work.export.job == Some(id)),
    {
        proof {
            reveal(Work::model);
        }
        match self.work.export.job {
            Some(job) => job == id,
            None => false,
        }
    }

    fn finish_export(&mut self, id: u64, outcome: ExportOutcome) -> (r: Response)
        requires
            old(self).valid(),
        ensures
            final(self).valid(),
            took(*final(self), r, old(self)@.exported(id, outcome)),
    {
        proof {
            reveal(Work::model);
            reveal(SessionModel::exported);
        }
        if !self.export_is_current(id) {
            return nothing(false);
        }
        self.work.export.job = None;
        let notice: String = match outcome {
            ExportOutcome::Downloaded => "Downloaded lsystem.svg".to_owned(),
            ExportOutcome::Cancelled => "SVG export cancelled".to_owned(),
            ExportOutcome::Failed(error) => {
                let mut notice: String = "SVG export failed: ".to_owned();
                notice.append(error.as_str());
                notice
            },
        };
        self.work.export.notice = Some(notice);
        nothing(true)
    }

    fn fail_canvas(&mut self, error: String) -> (r: Response)
        requires
            old(self).valid(),
        ensures
            final(self).valid(),
            final(self)@ == old(self)@.canvas_failed(error@).0,
            r.effects@ == old(self)@.canvas_failed(error@).1,
            r.refresh,
    {
        proof {
            reveal(SessionModel::canvas_failed);
        }
        let mut effects: Vec<Effect> = Vec::new();
        self.work.record_canvas_failure(error.as_str(), &mut effects);
        assert(effects@ =~= old(self)@.canvas_failed(error@).1);
        respond(effects, true)
    }

    /// Events about the system and its settings.
    fn update_settings(&mut self, event: Event, moment: Moment) -> (r: Response)
        requires
            old(self).valid(),
        ensures
            final(self).valid(),
            took(*final(self), r, old(self)@.settings_updated(event, moment)),
    {
        proof {
            reveal(Controls::model);
            reveal(SessionModel::settings_updated);
        }
        let now: Real = moment.now;
        match event {
            Event::SourceChanged(source) => self.change_source(source),
            Event::SourceDebounced(token) => {
                if token != self.controls.source_edit_token {
                    nothing(false)
                } else {
                    self.render_exactly(now)
                }
            },
            Event::AngleChanged(angle) => self.set_angle(clamp_angle(angle), now),
            Event::AngleStep(angle) => self.set_angle(angle, now),
            Event::AngleWheel { delta, up, down } => {
                if delta.equals(Real { bits: 0 }) {
                    nothing(true)
                } else if delta.bits >= SIGN_BIT {
                    self.set_angle(up, now)
                } else {
                    self.set_angle(down, now)
                }
            },
            Event::LineWidthChanged(percent) => self.change_line_width(percent, now),
            Event::IterationsSlider(iterations) => self.choose_iterations(iterations, now),
            Event::IterationsInput(input) => self.type_iterations(input, now),
            Event::IterationsStep(up) => {
                let iterations: usize = self.neighbouring(up);
                self.choose_iterations(iterations, now)
            },
            Event::IterationsWheel(delta) => {
                if delta.equals(Real { bits: 0 }) {
                    nothing(true)
                } else {
                    let iterations: usize = self.neighbouring(delta.bits >= SIGN_BIT);
                    self.choose_iterations(iterations, now)
                }
            },
            Event::SeedChanged(input) => self.type_seed(input, now),
            Event::RandomizeSeed(seed) => {
                self.controls.regenerate_seed(seed);
                self.render_exactly(now)
            },
            Event::FloatWidthChanged(float_width) => {
                if self.controls.float_width == float_width {
                    nothing(false)
                } else {
                    self.controls.float_width = float_width;
                    self.render_exactly(now)
                }
            },
            Event::AmbiguousRulesChanged(rules) => {
                if self.controls.ambiguous_rules == rules {
                    nothing(false)
                } else {
                    self.controls.ambiguous_rules = rules;
                    self.render_exactly(now)
                }
            },
            Event::PresetSelected { index, choice, seed } => self.select_preset(
                index,
                choice,
                seed,
                now,
            ),
            _ => nothing(false),
        }
    }

    /// Events about panels, looks and exports.
    fn update_panels<C: Fn(Arithmetic) -> Real>(
        &mut self,
        event: Event,
        moment: Moment,
        calc: &C,
    ) -> (r: Response)
        requires
            old(self).valid(),
            calculates(*calc),
        ensures
            final(self).valid(),
            took(
                *final(self),
                r,
                old(self)@.panels_updated(event, moment, answers(*calc)),
            ),
    {
        proof {
            reveal(Controls::model);
            reveal(Panels::model);
            reveal(SessionModel::panels_updated);
        }
        let now: Real = moment.now;
        match event {
            Event::SearchChanged(search) => {
                self.controls.preset_search = search;
                nothing(true)
            },
            Event::ClearSearch => {
                self.controls.preset_search = String::new();
                assert(self.controls.preset_search@ =~= Seq::empty());
                nothing(true)
            },
            Event::OpenCatalog { scroll } => self.open_catalog(scroll, now),
            Event::CloseCatalog => self.close_catalog(now, calc),
            Event::OpenEditor { scroll } => self.open_editor(scroll, now),
            Event::CloseEditor => {
                let mut effects: Vec<Effect> = Vec::new();
                self.close_editor(now, &mut effects, calc);
                assert(effects@ =~= old(self)@.editor_closed(now, answers(*calc)).1);
                respond(effects, true)
            },
            Event::DraftChanged(text) => {
                self.panels.draft.edit(text);
                nothing(true)
            },
            Event::ApplyDraft => self.apply_draft(now, calc),
            Event::ToggleAdjustments => {
                self.panels.adjustments_open = !self.panels.adjustments_open;
                nothing(true)
            },
            Event::CycleTheme => self.cycle_theme(now),
            Event::SystemTheme(dark) => self.change_system_theme(dark, now),
            Event::ReducedMotion(reduced) => self.change_reduced_motion(reduced, now),
            Event::WindowResized(width) => self.resize_window(width, now),
            Event::CanvasResized(size) => self.resize_canvas(size, now),
            Event::ExportSvg => self.begin_export(),
            Event::CancelExport => self.cancel_export(),
            Event::Exported { id, outcome } => self.finish_export(id, outcome),
            _ => nothing(false),
        }
    }

    /// Events about the view and the work on it.
    fn update_view<C: Fn(Arithmetic) -> Real>(
        &mut self,
        event: Event,
        moment: Moment,
        calc: &C,
    ) -> (r: Response)
        requires
            old(self).valid(),
            calculates(*calc),
            event_valid(event),
        ensures
            final(self).valid(),
            took(
                *final(self),
                r,
                old(self)@.view_updated(event, moment, answers(*calc)),
            ),
    {
        proof {
            reveal(Work::model);
            reveal(SessionModel::view_updated);
            reveal(SessionModel::work_cancelled);
        }
        let now: Real = moment.now;
        match event {
            Event::InputCancelled => self.cancel_input(now, calc),
            Event::Worker(update) => self.handle_worker_update(update, now),
            Event::CancelWork => {
                let mut effects: Vec<Effect> = Vec::new();
                self.work.cancel_visible_work(&mut effects);
                assert(effects@ =~= old(self)@.work_cancelled().effects);
                respond(effects, true)
            },
            Event::PointerDown(pointer_id) => self.press_pointer(pointer_id, now),
            Event::PointerMove(pointer_id) => self.move_pointer(pointer_id, moment),
            Event::PointerUp(pointer_id) => self.release_pointer(pointer_id, now, calc),
            Event::Touch { moving, count, owned } => self.update_touch(
                moving,
                count,
                owned,
                moment,
                calc,
            ),
            Event::WheelZoom => self.zoom_by_wheel(moment),
            Event::WheelSettled(token) => self.settle_wheel(token, now, calc),
            Event::ZoomBy => self.zoom(moment),
            Event::FitView => self.fit_view(now),
            Event::CanvasFailed(error) => self.fail_canvas(error),
            Event::StatusPulse(request_id) => {
                let active: bool = match &self.work.active {
                    Some(job) => job.request_id == request_id,
                    None => false,
                };
                nothing(active || self.work.displayed.is_some())
            },
            _ => nothing(false),
        }
    }

    /// Take in an event.
    pub fn update<C: Fn(Arithmetic) -> Real>(&mut self, event: Event, moment: Moment, calc: &C) -> (r:
        Response)
        requires
            old(self).valid(),
            calculates(*calc),
            event_valid(event),
        ensures
            final(self).valid(),
            took(*final(self), r, old(self)@.updated(event, moment, answers(*calc))),
    {
        match kind_of_event(&event) {
            EventKind::Settings => self.update_settings(event, moment),
            EventKind::Panels => self.update_panels(event, moment, calc),
            EventKind::View => self.update_view(event, moment, calc),
        }
    }
}

proof fn lemma_presets_keep_panels(
    model: SessionModel,
    index: usize,
    choice: PresetChoice,
    seed: Result<u64, String>,
    now: Real,
)
    ensures
        model.preset_taken(index, choice, seed, now).0.panels == model.panels,
{
    reveal(SessionModel::preset_taken);
    reveal(SessionModel::routed);
    reveal(SessionModel::exact);
}

/// A scene that arrives with an event was accepted.
pub open spec fn event_valid(event: Event) -> bool {
    event matches Event::Worker(
        WorkerUpdate::Finished { outcome: RenderOutcome::Scene(arrival), .. },
    ) ==> arrival.scene.valid()
}

/// What an event is about.
#[derive(Clone, Copy, PartialEq, Eq, Structural)]
enum EventKind {
    Settings,
    Panels,
    View,
}

fn kind_of_event(event: &Event) -> (r: EventKind)
    ensures
        r == (if concerns_settings(*event) {
            EventKind::Settings
        } else if concerns_panels(*event) {
            EventKind::Panels
        } else {
            EventKind::View
        }),
{
    match event {
        Event::SourceChanged(_) => EventKind::Settings,
        Event::SourceDebounced(_) => EventKind::Settings,
        Event::AngleChanged(_) => EventKind::Settings,
        Event::AngleStep(_) => EventKind::Settings,
        Event::AngleWheel { .. } => EventKind::Settings,
        Event::LineWidthChanged(_) => EventKind::Settings,
        Event::IterationsSlider(_) => EventKind::Settings,
        Event::IterationsInput(_) => EventKind::Settings,
        Event::IterationsStep(_) => EventKind::Settings,
        Event::IterationsWheel(_) => EventKind::Settings,
        Event::SeedChanged(_) => EventKind::Settings,
        Event::RandomizeSeed(_) => EventKind::Settings,
        Event::FloatWidthChanged(_) => EventKind::Settings,
        Event::AmbiguousRulesChanged(_) => EventKind::Settings,
        Event::PresetSelected { .. } => EventKind::Settings,
        Event::SearchChanged(_) => EventKind::Panels,
        Event::ClearSearch => EventKind::Panels,
        Event::OpenCatalog { .. } => EventKind::Panels,
        Event::CloseCatalog => EventKind::Panels,
        Event::OpenEditor { .. } => EventKind::Panels,
        Event::CloseEditor => EventKind::Panels,
        Event::DraftChanged(_) => EventKind::Panels,
        Event::ApplyDraft => EventKind::Panels,
        Event::ToggleAdjustments => EventKind::Panels,
        Event::CycleTheme => EventKind::Panels,
        Event::SystemTheme(_) => EventKind::Panels,
        Event::ReducedMotion(_) => EventKind::Panels,
        Event::WindowResized(_) => EventKind::Panels,
        Event::CanvasResized(_) => EventKind::Panels,
        Event::ExportSvg => EventKind::Panels,
        Event::CancelExport => EventKind::Panels,
        Event::Exported { .. } => EventKind::Panels,
        _ => EventKind::View,
    }
}

} // verus!
