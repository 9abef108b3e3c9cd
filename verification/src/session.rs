//! The state of the application, and what every event does to it.
//!
//! The session decides; whoever holds it carries out the effects that it gives
//! back, in their order. What the browser knows comes in with the events: the
//! time, sizes, random seeds, and how painting went.

use vstd::prelude::*;
use vstd::string::*;

use crate::controls::{angle_within, Controls, ControlsModel, PresetChoice};
use crate::display::DisplayScene;
use crate::identity::{AmbiguousRules, FloatWidth};
use crate::kind::VisualizerKind;
use crate::model::{Draft, GrammarDraft, ThemePreference};
use crate::number::{Arithmetic, Real, SIGN_BIT};
use crate::single::Single;
use crate::work::{
    next_number, ActiveJob, Animation, Effect, Exporting, IterationTransition, ProgressSnapshot,
    Shown, Timer, Work, WorkModel,
};

verus! {

/// How long typing must rest before the source is rendered.
pub const SOURCE_EDIT_DEBOUNCE_MILLIS: i32 = 180;

/// How long the wheel must rest before the view is settled.
pub const WHEEL_SETTLE_MILLIS: i32 = 150;

/// The pattern of the width from which a layout is no longer mobile, 700.
pub const MOBILE_WIDTH_BITS: u64 = 0x4085_e000_0000_0000;

/// The element that takes the focus.
#[derive(Debug, Clone, Copy, PartialEq, Eq, Structural)]
pub enum Focus {
    PresetsHeading,
    BrowsePresets,
    DrawingInput,
    SourceEditor,
    MobileEditGrammar,
    DesktopEditGrammar,
}

impl Focus {
    pub open spec fn name(self) -> Seq<char> {
        match self {
            Focus::PresetsHeading => "presets-heading"@,
            Focus::BrowsePresets => "browse-presets"@,
            Focus::DrawingInput => "drawing-input"@,
            Focus::SourceEditor => "source-editor"@,
            Focus::MobileEditGrammar => "mobile-edit-grammar"@,
            Focus::DesktopEditGrammar => "desktop-edit-grammar"@,
        }
    }

    pub fn element_id(self) -> (r: &'static str)
        ensures
            r@ == self.name(),
    {
        match self {
            Focus::PresetsHeading => "presets-heading",
            Focus::BrowsePresets => "browse-presets",
            Focus::DrawingInput => "drawing-input",
            Focus::SourceEditor => "source-editor",
            Focus::MobileEditGrammar => "mobile-edit-grammar",
            Focus::DesktopEditGrammar => "desktop-edit-grammar",
        }
    }
}

/// What is open, and how the application looks.
#[derive(Debug)]
pub struct Panels {
    pub catalog_open: bool,
    pub editor_open: bool,
    pub editor_draft_mode: bool,
    pub draft: GrammarDraft,
    pub adjustments_open: bool,
    pub focus_after_render: Option<Focus>,
    pub scroll_after_render: Option<Real>,
    pub explore_scroll: Real,
    pub theme: ThemePreference,
    pub system_dark: bool,
    pub reduced_motion: bool,
    pub viewport_width: Real,
    pub canvas_size: Option<(i32, i32)>,
}

pub struct PanelsModel {
    pub catalog_open: bool,
    pub editor_open: bool,
    pub editor_draft_mode: bool,
    pub draft: Draft,
    pub adjustments_open: bool,
    pub focus: Option<Focus>,
    pub scroll: Option<Real>,
    pub explore_scroll: Real,
    pub theme: ThemePreference,
    pub system_dark: bool,
    pub reduced_motion: bool,
    pub viewport_width: Real,
    pub canvas_size: Option<(i32, i32)>,
}

impl Panels {
    /// What it stands for.
    #[verifier::opaque]
    pub open spec fn model(self) -> PanelsModel {
        PanelsModel {
            catalog_open: self.catalog_open,
            editor_open: self.editor_open,
            editor_draft_mode: self.editor_draft_mode,
            draft: self.draft@,
            adjustments_open: self.adjustments_open,
            focus: self.focus_after_render,
            scroll: self.scroll_after_render,
            explore_scroll: self.explore_scroll,
            theme: self.theme,
            system_dark: self.system_dark,
            reduced_motion: self.reduced_motion,
            viewport_width: self.viewport_width,
            canvas_size: self.canvas_size,
        }
    }
}

impl View for Panels {
    type V = PanelsModel;

    open spec fn view(&self) -> PanelsModel {
        self.model()
    }
}

impl PanelsModel {
    pub open spec fn mobile(self) -> bool {
        self.viewport_width.below(Real { bits: MOBILE_WIDTH_BITS })
    }

    /// On a small screen a panel takes the place of the drawing.
    pub open spec fn visible(self) -> bool {
        !(self.mobile() && (self.catalog_open || self.editor_open))
    }

    pub open spec fn dark(self) -> bool {
        self.theme.dark(self.system_dark)
    }
}

impl Panels {
    pub fn is_mobile(&self) -> (r: bool)
        ensures
            r == self@.mobile(),
    {
        proof {
            reveal(Panels::model);
        }
        self.viewport_width.less_than(Real { bits: MOBILE_WIDTH_BITS })
    }

    pub fn canvas_visible(&self) -> (r: bool)
        ensures
            r == self@.visible(),
    {
        proof {
            reveal(Panels::model);
        }
        !(self.is_mobile() && (self.catalog_open || self.editor_open))
    }

    pub fn effective_dark(&self) -> (r: bool)
        ensures
            r == self@.dark(),
    {
        proof {
            reveal(Panels::model);
        }
        self.theme.resolve_dark(self.system_dark)
    }
}

/// A mouse that drags the view.
#[derive(Debug, Clone, Copy, PartialEq, Eq, Structural)]
pub struct MouseGesture {
    pub pointer_id: i32,
    pub spatial: bool,
}

/// How the view moves: by itself, and by hand.
#[derive(Debug, Clone, Copy, PartialEq, Eq, Structural)]
pub struct Motion {
    pub autorotate: bool,
    pub autorotate_last: Option<Real>,
    /// The system whose arrival begins a rotation.
    pub pending_autorotate: Option<u64>,
    pub mouse: Option<MouseGesture>,
    /// Whether the touch gesture, where there is one, turns a spatial view.
    pub touch: Option<bool>,
    pub touch_owned: bool,
    pub wheel_token: u64,
    pub wheel_active: bool,
}

impl Motion {
    pub open spec fn interacting(self) -> bool {
        self.mouse is Some || self.touch_owned || self.wheel_active
    }

    pub open spec fn autorotate_stopped(self) -> Motion {
        Motion { autorotate: false, autorotate_last: None, pending_autorotate: None, ..self }
    }

    pub open spec fn disarmed(self) -> Motion {
        Motion { pending_autorotate: None, ..self }
    }

    /// The motion of a view whose scene was replaced.
    pub open spec fn for_scene(
        self,
        replaced: bool,
        spatial: bool,
        reduced_motion: bool,
        view_epoch: u64,
    ) -> Motion {
        if replaced {
            Motion {
                autorotate: spatial && !reduced_motion && self.pending_autorotate == Some(
                    view_epoch,
                ),
                autorotate_last: None,
                pending_autorotate: None,
                touch: None,
                wheel_active: false,
                ..self
            }
        } else {
            Motion { touch: None, ..self }
        }
    }

    pub fn interaction_active(&self) -> (r: bool)
        ensures
            r == self.interacting(),
    {
        self.mouse.is_some() || self.touch_owned || self.wheel_active
    }

    pub fn stop_autorotate(&mut self)
        ensures
            *final(self) == old(self).autorotate_stopped(),
    {
        self.autorotate = false;
        self.autorotate_last = None;
        // A preset may still be rendering while the scene before it remains
        // interactive: it must not begin to turn once the user has taken
        // control.
        self.pending_autorotate = None;
    }

    pub fn take_scene(&mut self, replaced: bool, spatial: bool, reduced_motion: bool, view_epoch: u64)
        ensures
            *final(self) == old(self).for_scene(replaced, spatial, reduced_motion, view_epoch),
    {
        if replaced {
            self.autorotate = spatial && !reduced_motion && self.pending_autorotate == Some(
                view_epoch,
            );
            self.autorotate_last = None;
            self.pending_autorotate = None;
            self.wheel_active = false;
        }
        self.touch = None;
    }
}

/// Rotation begins only for the preset that armed it, and never against the
/// preference for less motion.
pub proof fn rotation_is_armed_by_its_preset(
    motion: Motion,
    replaced: bool,
    spatial: bool,
    reduced_motion: bool,
    view_epoch: u64,
)
    ensures
        ({
            let next = motion.for_scene(replaced, spatial, reduced_motion, view_epoch);
            next.autorotate && !motion.autorotate ==> spatial && !reduced_motion
                && motion.pending_autorotate == Some(view_epoch)
        }),
{
}

/// A gesture that has stopped rotation also stops what a preset that is still
/// being rendered would begin.
pub proof fn gestures_disarm_rotation(
    motion: Motion,
    replaced: bool,
    spatial: bool,
    reduced_motion: bool,
    view_epoch: u64,
)
    ensures
        !motion.autorotate_stopped().for_scene(
            replaced,
            spatial,
            reduced_motion,
            view_epoch,
        ).autorotate,
{
}

/// When frames are drawn, and how many of them.
#[derive(Debug, Clone, Copy, PartialEq, Eq, Structural)]
pub struct FrameClock {
    pub scheduled: bool,
    pub frames_since_sample: u32,
    pub fps: u32,
    pub sample_started: Real,
}

/// How the export of an SVG ended.
#[derive(Debug)]
pub enum ExportOutcome {
    Downloaded,
    Cancelled,
    Failed(String),
}

/// How a transition that was asked for arrived.
#[derive(Debug)]
pub enum TransitionOutcome {
    /// There is none.
    Absent,
    MissingMorphs,
    Rejected(String),
    Ready(IterationTransition),
}

/// A scene that has arrived and was accepted.
pub struct Arrival {
    pub scene: DisplayScene,
    pub elapsed_millis: u64,
    pub derivation_backend: String,
    pub visualization_backend: String,
    pub transition: TransitionOutcome,
}

/// How a request for rendering ended.
pub enum RenderOutcome {
    Failed(String),
    MissingLines,
    Rejected(String),
    Scene(Arrival),
}

/// What the worker reports.
pub enum WorkerUpdate {
    Ready,
    Progress { request_id: u64, snapshot: ProgressSnapshot },
    Cancelled { request_id: u64 },
    Fatal(String),
    Finished { request_id: u64, iteration: usize, view_epoch: u64, outcome: RenderOutcome },
}

/// What can happen.
pub enum Event {
    SourceChanged(String),
    SourceDebounced(u64),
    AngleChanged(Single),
    /// The angle was set to the next whole number, which comes with the event.
    AngleStep(Single),
    /// The wheel was turned over the angle; the angles one up and one down come
    /// with the event.
    AngleWheel { delta: Real, up: Single, down: Single },
    LineWidthChanged(u16),
    IterationsSlider(usize),
    IterationsInput(String),
    IterationsStep(bool),
    IterationsWheel(Real),
    SeedChanged(String),
    RandomizeSeed(Result<u64, String>),
    FloatWidthChanged(FloatWidth),
    AmbiguousRulesChanged(AmbiguousRules),
    /// A preset was chosen; what it sets comes with the event, where there is
    /// such a preset, and so does a new seed.
    PresetSelected { index: usize, choice: Option<PresetChoice>, seed: Result<u64, String> },
    SearchChanged(String),
    ClearSearch,
    OpenCatalog { scroll: Real },
    CloseCatalog,
    OpenEditor { scroll: Real },
    CloseEditor,
    DraftChanged(String),
    ApplyDraft,
    ToggleAdjustments,
    CycleTheme,
    SystemTheme(bool),
    ReducedMotion(bool),
    WindowResized(Option<Real>),
    CanvasResized(Option<(i32, i32)>),
    InputCancelled,
    Worker(WorkerUpdate),
    CancelWork,
    PointerDown(i32),
    PointerMove(i32),
    PointerUp(i32),
    Touch { moving: bool, count: usize, owned: bool },
    WheelZoom,
    WheelSettled(u64),
    ZoomBy,
    FitView,
    CanvasFailed(String),
    StatusPulse(u64),
    ExportSvg,
    CancelExport,
    Exported { id: u64, outcome: ExportOutcome },
}

/// What the browser says when an event happens.
#[derive(Debug, Clone, Copy, PartialEq, Eq, Structural)]
pub struct Moment {
    pub now: Real,
    /// Whether the drawing takes up any space.
    pub has_space: bool,
}

/// The state of the application.
pub struct Session {
    pub controls: Controls,
    pub panels: Panels,
    pub motion: Motion,
    pub clock: FrameClock,
    pub work: Work,
}

pub struct SessionModel {
    pub controls: ControlsModel,
    pub panels: PanelsModel,
    pub motion: Motion,
    pub clock: FrameClock,
    pub work: WorkModel,
}

impl View for Session {
    type V = SessionModel;

    open spec fn view(&self) -> SessionModel {
        SessionModel {
            controls: self.controls@,
            panels: self.panels@,
            motion: self.motion,
            clock: self.clock,
            work: self.work@,
        }
    }
}

/// The state after an event, what is to be done, and whether the page is to be
/// shown anew.
pub struct Turn {
    pub next: SessionModel,
    pub effects: Seq<Effect>,
    pub refresh: bool,
}

pub open spec fn turn(next: SessionModel, effects: Seq<Effect>, refresh: bool) -> Turn {
    Turn { next, effects, refresh }
}

impl SessionModel {
    pub open spec fn valid(self) -> bool {
        self.work.valid()
    }

    pub open spec fn needs_frame(self) -> bool {
        self.panels.visible() && !self.motion.interacting() && (self.motion.autorotate
            && self.work.spatial_navigation() || self.work.animation is Some
            || self.work.refining())
    }

    #[verifier::opaque]
    pub open spec fn frame_requested(self) -> (SessionModel, Seq<Effect>) {
        if self.clock.scheduled || !self.needs_frame() {
            (self, Seq::empty())
        } else {
            (
                SessionModel { clock: FrameClock { scheduled: true, ..self.clock }, ..self },
                seq![Effect::RequestFrame],
            )
        }
    }

    /// An animation goes on, where the drawing is seen and at rest.
    #[verifier::opaque]
    pub open spec fn resumed(self, now: Real, ev: spec_fn(Arithmetic) -> Real) -> (
        SessionModel,
        Seq<Effect>,
    ) {
        if !self.panels.visible() || self.motion.interacting() || self.work.animation is None {
            (self, Seq::empty())
        } else {
            SessionModel { work: self.work.resumed(now, ev), ..self }.frame_requested()
        }
    }

    /// Render the settings at their iteration.
    #[verifier::opaque]
    pub open spec fn exact(self, now: Real) -> (SessionModel, Seq<Effect>) {
        let (work, effects) = self.work.exact_begun(self.controls.iterations, now);
        (SessionModel { controls: self.controls.settled(), work, ..self }, effects)
    }

    /// Go to the iteration of the settings, one step at a time where the system
    /// is planar.
    #[verifier::opaque]
    pub open spec fn routed(self, now: Real) -> (SessionModel, Seq<Effect>) {
        let settled = SessionModel { controls: self.controls.settled(), ..self };
        if self.controls.visualizer != VisualizerKind::Turtle2d {
            settled.exact(now)
        } else {
            let (work, effects) = self.work.route_begun(
                self.controls.iterations,
                self.controls.identity(),
                now,
            );
            (SessionModel { work, ..settled }, effects)
        }
    }

    /// The settings are no longer those of a preset.
    pub open spec fn customized(self, controls: ControlsModel) -> SessionModel {
        SessionModel {
            controls: controls.customized(),
            motion: self.motion.disarmed(),
            ..self
        }
    }

    #[verifier::opaque]
    pub open spec fn source_changed(self, source: Seq<char>) -> Turn {
        if source == self.controls.source {
            turn(self, Seq::empty(), false)
        } else {
            let (work, effects) = WorkModel {
                view_epoch: next_number(self.work.view_epoch),
                ..self.work
            }.obsolete();
            let controls = ControlsModel { source, ..self.controls }.settled();
            turn(
                SessionModel { work, ..self.customized(controls) },
                effects + seq![
                    Effect::SetTimer(
                        Timer::SourceDebounced(controls.source_edit_token),
                        SOURCE_EDIT_DEBOUNCE_MILLIS,
                    ),
                ],
                true,
            )
        }
    }

    #[verifier::opaque]
    pub open spec fn rendered_exactly(self, now: Real) -> Turn {
        let (next, effects) = self.exact(now);
        turn(next, effects, true)
    }

    #[verifier::opaque]
    pub open spec fn rendered_stepwise(self, now: Real) -> Turn {
        let (next, effects) = self.routed(now);
        turn(next, effects, true)
    }

    #[verifier::opaque]
    pub open spec fn angle_set(self, angle: Single, now: Real) -> Turn {
        self.customized(ControlsModel { angle, ..self.controls }).rendered_exactly(now)
    }

    pub open spec fn angle_wheeled(self, delta: Real, up: Single, down: Single, now: Real) -> Turn {
        if delta.same(Real { bits: 0 }) {
            turn(self, Seq::empty(), true)
        } else {
            self.angle_set(
                if delta.bits >= SIGN_BIT {
                    up
                } else {
                    down
                },
                now,
            )
        }
    }

    #[verifier::opaque]
    pub open spec fn line_width_changed(self, percent: u16, now: Real) -> Turn {
        let allowed = ControlsModel::allowed_percent(percent);
        if allowed == self.controls.line_width_percent {
            turn(self, Seq::empty(), false)
        } else {
            let (one, first) = self.work.export_replaced();
            let (two, second) = one.invalidated(now);
            turn(
                SessionModel {
                    controls: ControlsModel { line_width_percent: allowed, ..self.controls },
                    work: two,
                    ..self
                },
                first + second,
                true,
            )
        }
    }

    #[verifier::opaque]
    pub open spec fn iterations_chosen(self, iterations: usize, now: Real) -> Turn {
        self.customized(self.controls.with_iterations(iterations)).rendered_stepwise(now)
    }

    /// The iteration after or before the current one, where there is one.
    pub open spec fn neighbour(self, up: bool) -> usize {
        let current = self.controls.iterations;
        if up {
            if current == usize::MAX {
                current
            } else {
                (current + 1) as usize
            }
        } else {
            if current == 0 {
                current
            } else {
                (current - 1) as usize
            }
        }
    }

    pub open spec fn iterations_wheeled(self, delta: Real, now: Real) -> Turn {
        if delta.same(Real { bits: 0 }) {
            turn(self, Seq::empty(), true)
        } else {
            self.iterations_chosen(self.neighbour(delta.bits >= SIGN_BIT), now)
        }
    }

    #[verifier::opaque]
    pub open spec fn iterations_typed(self, input: Seq<char>, now: Real) -> Turn {
        let (controls, changed) = self.controls.with_typed_iterations(input);
        if changed {
            self.customized(controls).rendered_exactly(now)
        } else {
            turn(SessionModel { controls, ..self }, Seq::empty(), true)
        }
    }

    #[verifier::opaque]
    pub open spec fn seed_typed(self, input: Seq<char>, now: Real) -> Turn {
        let (controls, changed) = self.controls.with_typed_seed(input);
        let typed = SessionModel { controls, ..self };
        if changed {
            typed.rendered_exactly(now)
        } else {
            turn(typed, Seq::empty(), true)
        }
    }

    pub open spec fn seed_drawn(self, seed: Result<u64, String>, now: Real) -> Turn {
        SessionModel {
            controls: self.controls.with_drawn_seed(seed),
            ..self
        }.rendered_exactly(now)
    }

    pub open spec fn float_width_changed(self, float_width: FloatWidth, now: Real) -> Turn {
        if self.controls.float_width == float_width {
            turn(self, Seq::empty(), false)
        } else {
            SessionModel {
                controls: ControlsModel { float_width, ..self.controls },
                ..self
            }.rendered_exactly(now)
        }
    }

    pub open spec fn ambiguous_rules_changed(self, rules: AmbiguousRules, now: Real) -> Turn {
        if self.controls.ambiguous_rules == rules {
            turn(self, Seq::empty(), false)
        } else {
            SessionModel {
                controls: ControlsModel { ambiguous_rules: rules, ..self.controls },
                ..self
            }.rendered_exactly(now)
        }
    }

    /// Take the settings of a preset, and arm the rotation of a spatial one.
    #[verifier::opaque]
    pub open spec fn preset_taken(
        self,
        index: usize,
        choice: PresetChoice,
        seed: Result<u64, String>,
        now: Real,
    ) -> (SessionModel, Seq<Effect>) {
        let epoch = next_number(self.work.view_epoch);
        SessionModel {
            controls: self.controls.with_preset(index, choice, seed),
            motion: Motion {
                pending_autorotate: if choice.visualizer == VisualizerKind::Turtle3d
                    && !self.panels.reduced_motion {
                    Some(epoch)
                } else {
                    None
                },
                ..self.motion
            },
            work: WorkModel { view_epoch: epoch, ..self.work },
            ..self
        }.routed(now)
    }

    #[verifier::opaque]
    pub open spec fn preset_selected(
        self,
        index: usize,
        choice: Option<PresetChoice>,
        seed: Result<u64, String>,
        now: Real,
    ) -> Turn {
        let (chosen, effects) = match choice {
            Some(choice) => self.preset_taken(index, choice, seed, now),
            None => (self, Seq::empty()),
        };
        let mobile = self.panels.mobile();
        turn(
            SessionModel {
                panels: PanelsModel {
                    draft: Draft::fresh(chosen.controls.source),
                    catalog_open: false,
                    focus: if mobile {
                        Some(Focus::DrawingInput)
                    } else {
                        self.panels.focus
                    },
                    scroll: if mobile {
                        Some(Real { bits: 0 })
                    } else {
                        self.panels.scroll
                    },
                    ..self.panels
                },
                work: WorkModel {
                    canvas_dirty: chosen.work.canvas_dirty || self.panels.catalog_open,
                    ..chosen.work
                },
                ..chosen
            },
            effects,
            true,
        )
    }

    #[verifier::opaque]
    pub open spec fn catalog_opened(self, scroll: Real, now: Real) -> Turn {
        turn(
            SessionModel {
                panels: PanelsModel {
                    explore_scroll: scroll,
                    editor_open: false,
                    catalog_open: true,
                    focus: Some(Focus::PresetsHeading),
                    scroll: Some(Real { bits: 0 }),
                    ..self.panels
                },
                motion: Motion { autorotate_last: None, ..self.motion },
                work: self.work.paused(now),
                ..self
            },
            Seq::empty(),
            true,
        )
    }

    #[verifier::opaque]
    pub open spec fn catalog_closed(self, now: Real, ev: spec_fn(Arithmetic) -> Real) -> Turn {
        let (next, effects) = SessionModel {
            panels: PanelsModel {
                catalog_open: false,
                focus: Some(Focus::BrowsePresets),
                scroll: Some(self.panels.explore_scroll),
                ..self.panels
            },
            ..self
        }.resumed(now, ev);
        turn(
            SessionModel { work: WorkModel { canvas_dirty: true, ..next.work }, ..next },
            effects,
            true,
        )
    }

    /// A small screen edits a draft, and so does any screen on which one was
    /// begun.
    #[verifier::opaque]
    pub open spec fn editor_opened(self, scroll: Real, now: Real) -> Turn {
        let mobile = self.panels.mobile();
        let draft_mode = mobile || self.panels.draft.modified();
        turn(
            SessionModel {
                panels: PanelsModel {
                    explore_scroll: scroll,
                    catalog_open: false,
                    editor_draft_mode: draft_mode,
                    draft: if draft_mode {
                        self.panels.draft.opened(self.controls.source)
                    } else {
                        self.panels.draft
                    },
                    editor_open: true,
                    focus: Some(Focus::SourceEditor),
                    scroll: if mobile {
                        Some(Real { bits: 0 })
                    } else {
                        self.panels.scroll
                    },
                    ..self.panels
                },
                motion: if mobile {
                    Motion { autorotate_last: None, ..self.motion }
                } else {
                    self.motion
                },
                work: if mobile {
                    self.work.paused(now)
                } else {
                    self.work
                },
                ..self
            },
            Seq::empty(),
            true,
        )
    }

    #[verifier::opaque]
    pub open spec fn editor_closed(self, now: Real, ev: spec_fn(Arithmetic) -> Real) -> (
        SessionModel,
        Seq<Effect>,
    ) {
        let mobile = self.panels.mobile();
        let (next, effects) = SessionModel {
            panels: PanelsModel {
                editor_open: false,
                focus: Some(
                    if mobile {
                        Focus::MobileEditGrammar
                    } else {
                        Focus::DesktopEditGrammar
                    },
                ),
                scroll: if mobile {
                    Some(self.panels.explore_scroll)
                } else {
                    self.panels.scroll
                },
                ..self.panels
            },
            ..self
        }.resumed(now, ev);
        (
            SessionModel { work: WorkModel { canvas_dirty: true, ..next.work }, ..next },
            effects,
        )
    }

    /// Render a draft, where it was changed.
    #[verifier::opaque]
    pub open spec fn draft_rendered(self, now: Real) -> (SessionModel, Seq<Effect>) {
        let (draft, applied) = self.panels.draft.applied(self.controls.source);
        let kept = SessionModel { panels: PanelsModel { draft, ..self.panels }, ..self };
        match applied {
            None => (kept, Seq::empty()),
            Some(source) => SessionModel {
                work: WorkModel { view_epoch: next_number(self.work.view_epoch), ..self.work },
                ..kept.customized(ControlsModel { source, ..self.controls })
            }.exact(now),
        }
    }

    #[verifier::opaque]
    pub open spec fn draft_applied(self, now: Real, ev: spec_fn(Arithmetic) -> Real) -> Turn {
        let (one, first) = self.draft_rendered(now);
        let (two, second) = one.editor_closed(now, ev);
        turn(
            if two.panels.mobile() {
                SessionModel {
                    panels: PanelsModel {
                        focus: Some(Focus::DrawingInput),
                        scroll: Some(Real { bits: 0 }),
                        ..two.panels
                    },
                    ..two
                }
            } else {
                two
            },
            first + second,
            true,
        )
    }

    /// A theme that changes what is seen has the drawing painted anew.
    #[verifier::opaque]
    pub open spec fn themed(self, panels: PanelsModel, now: Real) -> (SessionModel, Seq<Effect>) {
        let next = SessionModel { panels, ..self };
        if self.panels.dark() != panels.dark() {
            let (work, effects) = self.work.invalidated(now);
            (SessionModel { work, ..next }, effects)
        } else {
            (next, Seq::empty())
        }
    }

    #[verifier::opaque]
    pub open spec fn theme_cycled(self, now: Real) -> Turn {
        let (next, effects) = self.themed(
            PanelsModel { theme: self.panels.theme.following(), ..self.panels },
            now,
        );
        turn(next, effects, true)
    }

    #[verifier::opaque]
    pub open spec fn system_theme_changed(self, dark: bool, now: Real) -> Turn {
        let panels = PanelsModel { system_dark: dark, ..self.panels };
        let (next, effects) = self.themed(panels, now);
        turn(next, effects, self.panels.dark() != panels.dark())
    }

    /// Less motion stops what turns and what would turn; taking the preference
    /// back resumes nothing.
    #[verifier::opaque]
    pub open spec fn reduced_motion_changed(self, reduced_motion: bool, now: Real) -> Turn {
        let chosen = SessionModel {
            panels: PanelsModel { reduced_motion, ..self.panels },
            ..self
        };
        if reduced_motion == self.panels.reduced_motion {
            turn(self, Seq::empty(), false)
        } else if !reduced_motion {
            turn(chosen, Seq::empty(), false)
        } else {
            let still = SessionModel { motion: self.motion.autorotate_stopped(), ..chosen };
            let refresh = self.motion.autorotate || self.motion.pending_autorotate is Some;
            if self.motion.autorotate {
                let (work, effects) = self.work.invalidated(now);
                turn(SessionModel { work, ..still }, effects, refresh)
            } else {
                turn(still, Seq::empty(), refresh)
            }
        }
    }

    #[verifier::opaque]
    pub open spec fn window_resized(self, width: Option<Real>, now: Real) -> Turn {
        let sized = PanelsModel {
            viewport_width: match width {
                Some(width) => width,
                None => self.panels.viewport_width,
            },
            ..self.panels
        };
        let drafted = sized.mobile() && sized.editor_open && !sized.editor_draft_mode;
        let (work, effects) = self.work.invalidated(now);
        turn(
            SessionModel {
                panels: if drafted {
                    PanelsModel {
                        editor_draft_mode: true,
                        draft: sized.draft.opened(self.controls.source),
                        ..sized
                    }
                } else {
                    sized
                },
                motion: Motion { touch: None, ..self.motion },
                work,
                ..self
            },
            effects,
            true,
        )
    }

    /// A drawing that takes up no space does not change the view.
    #[verifier::opaque]
    pub open spec fn canvas_resized(self, size: Option<(i32, i32)>, now: Real) -> Turn {
        match size {
            Some(size) if self.panels.visible() && size.0 > 0 && size.1 > 0
                && self.panels.canvas_size != Some(size) => {
                let (work, effects) = self.work.invalidated(now);
                turn(
                    SessionModel {
                        panels: PanelsModel { canvas_size: Some(size), ..self.panels },
                        work,
                        ..self
                    },
                    (if self.work.planar() {
                        seq![Effect::ConstrainCamera]
                    } else {
                        Seq::empty()
                    }) + effects,
                    true,
                )
            },
            _ => turn(self, Seq::empty(), false),
        }
    }

    /// The view is at rest again.
    #[verifier::opaque]
    pub open spec fn view_settled(self, now: Real, ev: spec_fn(Arithmetic) -> Real) -> (
        SessionModel,
        Seq<Effect>,
    ) {
        let (work, first) = self.work.restarted(now);
        let (next, second) = SessionModel { work, ..self }.resumed(now, ev);
        (
            SessionModel { work: WorkModel { canvas_dirty: true, ..next.work }, ..next },
            first + second,
        )
    }

    #[verifier::opaque]
    pub open spec fn input_cancelled(self, now: Real, ev: spec_fn(Arithmetic) -> Real) -> Turn {
        let still = SessionModel {
            motion: Motion {
                mouse: None,
                touch: None,
                touch_owned: false,
                wheel_active: false,
                wheel_token: next_number(self.motion.wheel_token),
                ..self.motion
            },
            ..self
        };
        if self.motion.interacting() {
            let (next, effects) = still.view_settled(now, ev);
            turn(next, effects, true)
        } else {
            turn(still, Seq::empty(), false)
        }
    }

    /// Show a scene, with the motion that belongs to it.
    #[verifier::opaque]
    pub open spec fn promoted(self, shown: Shown, now: Real) -> (SessionModel, Seq<Effect>) {
        let (work, effects) = self.work.promoted(shown, now);
        (
            SessionModel {
                work,
                motion: self.motion.for_scene(
                    self.work.replaces_view(shown),
                    shown.scene.spatial(),
                    self.panels.reduced_motion,
                    shown.view_epoch,
                ),
                ..self
            },
            effects,
        )
    }

    /// A request that ended without a scene.
    #[verifier::opaque]
    pub open spec fn failed(self, failure: Seq<char>, animation: Option<Animation>) -> Turn {
        turn(
            SessionModel {
                work: WorkModel {
                    active: None,
                    failure: Some(failure),
                    route: None,
                    animation,
                    ..self.work
                },
                ..self
            },
            Seq::empty(),
            true,
        )
    }

    #[verifier::opaque]
    pub open spec fn arrived(
        self,
        iteration: usize,
        view_epoch: u64,
        arrival: Arrival,
        now: Real,
    ) -> Turn {
        let shown = Shown {
            scene: arrival.scene,
            iteration,
            identity: self.controls.identity(),
            view_epoch,
            elapsed_millis: arrival.elapsed_millis,
            backend: backend_text(
                arrival.derivation_backend@,
                arrival.visualization_backend@,
            ),
            refinement_started: now,
        };
        let kept = self.work.animation;
        match arrival.transition {
            TransitionOutcome::Absent => {
                let (one, first) = SessionModel {
                    work: WorkModel { active: None, ..self.work },
                    ..self
                }.promoted(shown, now);
                let (work, second) = one.work.next_queued(now);
                turn(SessionModel { work, ..one }, first + second, true)
            },
            _ => if arrival.scene.spatial() {
                self.failed("browser-worker returned transition data for a 3D scene"@, kept)
            } else {
                match arrival.transition {
                    TransitionOutcome::MissingMorphs => self.failed(
                        "browser-worker transition omitted its morph buffers"@,
                        kept,
                    ),
                    TransitionOutcome::Rejected(error) => self.failed(error@, kept),
                    TransitionOutcome::Ready(transition) => {
                        let (next, effects) = SessionModel {
                            work: WorkModel {
                                active: None,
                                animation: Some(
                                    Animation {
                                        target: shown,
                                        from_iteration: transition.from_iteration,
                                        to_iteration: transition.to_iteration,
                                        started: now,
                                        paused_at: None,
                                        paused_millis: Real { bits: 0 },
                                    },
                                ),
                                failure: None,
                                canvas_dirty: true,
                                ..self.work
                            },
                            ..self
                        }.frame_requested();
                        turn(next, effects, true)
                    },
                    TransitionOutcome::Absent => turn(self, Seq::empty(), true),
                }
            },
        }
    }

    #[verifier::opaque]
    pub open spec fn finished(
        self,
        request_id: u64,
        iteration: usize,
        view_epoch: u64,
        outcome: RenderOutcome,
        now: Real,
    ) -> Turn {
        if request_id != self.work.request_id {
            turn(self, Seq::empty(), false)
        } else {
            match outcome {
                RenderOutcome::Failed(message) => self.failed(message@, None),
                RenderOutcome::MissingLines => self.failed(
                    "browser-worker result omitted its line buffers"@,
                    self.work.animation,
                ),
                RenderOutcome::Rejected(message) => self.failed(
                    message@,
                    self.work.animation,
                ),
                RenderOutcome::Scene(arrival) => self.arrived(
                    iteration,
                    view_epoch,
                    arrival,
                    now,
                ),
            }
        }
    }

    #[verifier::opaque]
    pub open spec fn worker_updated(self, update: WorkerUpdate, now: Real) -> Turn {
        match update {
            WorkerUpdate::Ready => turn(
                SessionModel { work: WorkModel { worker_fatal: None, ..self.work }, ..self },
                Seq::empty(),
                false,
            ),
            WorkerUpdate::Progress { request_id, snapshot } => match self.work.active {
                Some(job) if job.request_id == request_id => turn(
                    SessionModel {
                        work: WorkModel {
                            active: Some(ActiveJob { progress: Some(snapshot), ..job }),
                            ..self.work
                        },
                        ..self
                    },
                    Seq::empty(),
                    true,
                ),
                _ => turn(self, Seq::empty(), false),
            },
            WorkerUpdate::Cancelled { request_id } => if request_id != self.work.request_id {
                turn(self, Seq::empty(), false)
            } else {
                turn(
                    SessionModel {
                        work: WorkModel {
                            active: None,
                            route: None,
                            animation: None,
                            failure: None,
                            ..self.work
                        },
                        ..self
                    },
                    Seq::empty(),
                    true,
                )
            },
            WorkerUpdate::Fatal(message) => turn(
                SessionModel {
                    work: WorkModel { worker_fatal: Some(message@), ..self.work },
                    ..self
                },
                Seq::empty(),
                true,
            ),
            WorkerUpdate::Finished { request_id, iteration, view_epoch, outcome } => self.finished(
                request_id,
                iteration,
                view_epoch,
                outcome,
                now,
            ),
        }
    }

    #[verifier::opaque]
    pub open spec fn work_cancelled(self) -> Turn {
        let (work, effects) = self.work.cancelled();
        turn(SessionModel { work, ..self }, effects, true)
    }

    /// A mouse takes hold of the view, where the layout is not mobile.
    #[verifier::opaque]
    pub open spec fn pointer_pressed(self, pointer_id: i32, now: Real) -> Turn {
        if self.panels.mobile() || !self.work.navigation() {
            turn(self, Seq::empty(), false)
        } else {
            let spatial = self.work.spatial_navigation();
            turn(
                SessionModel {
                    motion: Motion {
                        mouse: Some(MouseGesture { pointer_id, spatial }),
                        ..self.motion.autorotate_stopped()
                    },
                    work: self.work.paused(now),
                    ..self
                },
                seq![Effect::BeginGesture { spatial }],
                false,
            )
        }
    }

    #[verifier::opaque]
    pub open spec fn pointer_moved(self, pointer_id: i32, moment: Moment) -> Turn {
        match self.motion.mouse {
            Some(gesture) if gesture.pointer_id == pointer_id => if moment.has_space && (
            gesture.spatial || self.work.planar()) {
                let (work, effects) = self.work.invalidated(moment.now);
                turn(
                    SessionModel { work, ..self },
                    seq![
                        if gesture.spatial {
                            Effect::DragOrbit
                        } else {
                            Effect::PanCamera
                        },
                    ] + effects,
                    true,
                )
            } else {
                turn(self, Seq::empty(), false)
            },
            _ => turn(self, Seq::empty(), false),
        }
    }

    #[verifier::opaque]
    pub open spec fn pointer_released(
        self,
        pointer_id: i32,
        now: Real,
        ev: spec_fn(Arithmetic) -> Real,
    ) -> Turn {
        match self.motion.mouse {
            Some(gesture) if gesture.pointer_id == pointer_id => {
                let (one, first) = SessionModel {
                    motion: Motion { mouse: None, ..self.motion },
                    ..self
                }.resumed(now, ev);
                let (work, second) = one.work.invalidated(now);
                turn(SessionModel { work, ..one }, first + second, true)
            },
            _ => turn(self, Seq::empty(), false),
        }
    }

    #[verifier::opaque]
    pub open spec fn touched(
        self,
        moving: bool,
        count: usize,
        owned: bool,
        moment: Moment,
        ev: spec_fn(Arithmetic) -> Real,
    ) -> Turn {
        let spatial = self.work.spatial_navigation();
        let required = if self.panels.mobile() && !spatial {
            2usize
        } else {
            1
        };
        let held = SessionModel {
            motion: Motion { touch_owned: count > 0, ..self.motion },
            ..self
        };
        let loose = SessionModel { motion: Motion { touch: None, ..held.motion }, ..held };
        if !owned {
            turn(self, Seq::empty(), false)
        } else if count == 0 {
            let (next, effects) = loose.view_settled(moment.now, ev);
            turn(next, effects, true)
        } else if !self.work.navigation() || count < required {
            turn(loose, Seq::empty(), false)
        } else if self.motion.touch is None || !moving {
            turn(
                SessionModel {
                    motion: Motion {
                        touch: Some(spatial),
                        ..held.motion.autorotate_stopped()
                    },
                    work: self.work.paused(moment.now),
                    ..held
                },
                seq![Effect::BeginGesture { spatial }],
                false,
            )
        } else {
            let turns = self.motion.touch == Some(true);
            if !moment.has_space || (!turns && !self.work.planar()) {
                turn(held, Seq::empty(), false)
            } else {
                turn(
                    SessionModel { work: WorkModel { canvas_dirty: true, ..self.work }, ..held },
                    seq![
                        if turns {
                            Effect::DragOrbit
                        } else {
                            Effect::PinchCamera
                        },
                    ],
                    true,
                )
            }
        }
    }

    #[verifier::opaque]
    pub open spec fn wheel_zoomed(self, moment: Moment) -> Turn {
        if self.work.spatial_navigation() || !self.work.planar() || !moment.has_space {
            turn(self, Seq::empty(), false)
        } else {
            let token = next_number(self.motion.wheel_token);
            turn(
                SessionModel {
                    motion: Motion {
                        wheel_active: true,
                        wheel_token: token,
                        ..self.motion.autorotate_stopped()
                    },
                    work: WorkModel { canvas_dirty: true, ..self.work.paused(moment.now) },
                    ..self
                },
                seq![
                    Effect::ZoomAbout,
                    Effect::SetTimer(Timer::WheelSettled(token), WHEEL_SETTLE_MILLIS),
                ],
                true,
            )
        }
    }

    #[verifier::opaque]
    pub open spec fn wheel_settled(
        self,
        token: u64,
        now: Real,
        ev: spec_fn(Arithmetic) -> Real,
    ) -> Turn {
        if token != self.motion.wheel_token {
            turn(self, Seq::empty(), false)
        } else {
            let (next, effects) = SessionModel {
                motion: Motion { wheel_active: false, ..self.motion },
                ..self
            }.view_settled(now, ev);
            turn(next, effects, true)
        }
    }

    #[verifier::opaque]
    pub open spec fn zoomed(self, moment: Moment) -> Turn {
        if self.work.spatial_navigation() || !self.work.planar() || !moment.has_space {
            turn(self, Seq::empty(), false)
        } else {
            let (work, effects) = self.work.invalidated(moment.now);
            turn(SessionModel { work, ..self }, seq![Effect::ZoomCamera] + effects, true)
        }
    }

    #[verifier::opaque]
    pub open spec fn view_fitted(self, now: Real) -> Turn {
        if self.work.spatial_navigation() {
            turn(self, Seq::empty(), false)
        } else {
            let (work, effects) = self.work.invalidated(now);
            turn(SessionModel { work, ..self }, seq![Effect::FitCamera] + effects, true)
        }
    }

    #[verifier::opaque]
    pub open spec fn canvas_failed(self, error: Seq<char>) -> (SessionModel, Seq<Effect>) {
        let (work, effects) = self.work.canvas_failed(error);
        (SessionModel { work, ..self }, effects)
    }

    #[verifier::opaque]
    pub open spec fn export_begun(self) -> Turn {
        if self.work.displayed is None {
            turn(self, Seq::empty(), true)
        } else {
            let id = next_number(self.work.export.sequence);
            turn(
                SessionModel {
                    work: WorkModel {
                        export: Exporting {
                            sequence: id,
                            job: Some(id),
                            notice: Some("Preparing SVG\u{2026}"@),
                        },
                        ..self.work
                    },
                    ..self
                },
                (if self.work.export.job is Some {
                    seq![Effect::StopExport]
                } else {
                    Seq::empty()
                }) + seq![Effect::BeginExport(id)],
                true,
            )
        }
    }

    #[verifier::opaque]
    pub open spec fn export_cancelled(self) -> Turn {
        if self.work.export.job is Some {
            turn(
                SessionModel {
                    work: WorkModel {
                        export: Exporting {
                            job: None,
                            notice: Some("SVG export cancelled"@),
                            ..self.work.export
                        },
                        ..self.work
                    },
                    ..self
                },
                seq![Effect::StopExport],
                true,
            )
        } else {
            turn(self, Seq::empty(), true)
        }
    }

    #[verifier::opaque]
    pub open spec fn exported(self, id: u64, outcome: ExportOutcome) -> Turn {
        if self.work.export.job != Some(id) {
            turn(self, Seq::empty(), false)
        } else {
            turn(
                SessionModel {
                    work: WorkModel {
                        export: Exporting {
                            job: None,
                            notice: Some(
                                match outcome {
                                    ExportOutcome::Downloaded => "Downloaded lsystem.svg"@,
                                    ExportOutcome::Cancelled => "SVG export cancelled"@,
                                    ExportOutcome::Failed(error) => "SVG export failed: "@ + error@,
                                },
                            ),
                            ..self.work.export
                        },
                        ..self.work
                    },
                    ..self
                },
                Seq::empty(),
                true,
            )
        }
    }

    /// What an event about the settings does.
    #[verifier::opaque]
    pub open spec fn settings_updated(self, event: Event, moment: Moment) -> Turn {
        let now = moment.now;
        match event {
            Event::SourceChanged(source) => self.source_changed(source@),
            Event::SourceDebounced(token) => if token != self.controls.source_edit_token {
                turn(self, Seq::empty(), false)
            } else {
                self.rendered_exactly(now)
            },
            Event::AngleChanged(angle) => self.angle_set(angle_within(angle), now),
            Event::AngleStep(angle) => self.angle_set(angle, now),
            Event::AngleWheel { delta, up, down } => self.angle_wheeled(delta, up, down, now),
            Event::LineWidthChanged(percent) => self.line_width_changed(percent, now),
            Event::IterationsSlider(iterations) => self.iterations_chosen(iterations, now),
            Event::IterationsInput(input) => self.iterations_typed(input@, now),
            Event::IterationsStep(up) => self.iterations_chosen(self.neighbour(up), now),
            Event::IterationsWheel(delta) => self.iterations_wheeled(delta, now),
            Event::SeedChanged(input) => self.seed_typed(input@, now),
            Event::RandomizeSeed(seed) => self.seed_drawn(seed, now),
            Event::FloatWidthChanged(width) => self.float_width_changed(width, now),
            Event::AmbiguousRulesChanged(rules) => self.ambiguous_rules_changed(rules, now),
            Event::PresetSelected { index, choice, seed } => self.preset_selected(
                index,
                choice,
                seed,
                now,
            ),
            _ => turn(self, Seq::empty(), false),
        }
    }

    /// What an event about panels, looks and exports does.
    #[verifier::opaque]
    pub open spec fn panels_updated(
        self,
        event: Event,
        moment: Moment,
        ev: spec_fn(Arithmetic) -> Real,
    ) -> Turn {
        let now = moment.now;
        match event {
            Event::SearchChanged(search) => turn(
                SessionModel {
                    controls: ControlsModel { preset_search: search@, ..self.controls },
                    ..self
                },
                Seq::empty(),
                true,
            ),
            Event::ClearSearch => turn(
                SessionModel {
                    controls: ControlsModel { preset_search: Seq::empty(), ..self.controls },
                    ..self
                },
                Seq::empty(),
                true,
            ),
            Event::OpenCatalog { scroll } => self.catalog_opened(scroll, now),
            Event::CloseCatalog => self.catalog_closed(now, ev),
            Event::OpenEditor { scroll } => self.editor_opened(scroll, now),
            Event::CloseEditor => {
                let (next, effects) = self.editor_closed(now, ev);
                turn(next, effects, true)
            },
            Event::DraftChanged(text) => turn(
                SessionModel {
                    panels: PanelsModel {
                        draft: Draft { text: text@, ..self.panels.draft },
                        ..self.panels
                    },
                    ..self
                },
                Seq::empty(),
                true,
            ),
            Event::ApplyDraft => self.draft_applied(now, ev),
            Event::ToggleAdjustments => turn(
                SessionModel {
                    panels: PanelsModel {
                        adjustments_open: !self.panels.adjustments_open,
                        ..self.panels
                    },
                    ..self
                },
                Seq::empty(),
                true,
            ),
            Event::CycleTheme => self.theme_cycled(now),
            Event::SystemTheme(dark) => self.system_theme_changed(dark, now),
            Event::ReducedMotion(reduced) => self.reduced_motion_changed(reduced, now),
            Event::WindowResized(width) => self.window_resized(width, now),
            Event::CanvasResized(size) => self.canvas_resized(size, now),
            Event::ExportSvg => self.export_begun(),
            Event::CancelExport => self.export_cancelled(),
            Event::Exported { id, outcome } => self.exported(id, outcome),
            _ => turn(self, Seq::empty(), false),
        }
    }

    /// What an event about the view and the work on it does.
    #[verifier::opaque]
    pub open spec fn view_updated(
        self,
        event: Event,
        moment: Moment,
        ev: spec_fn(Arithmetic) -> Real,
    ) -> Turn {
        let now = moment.now;
        match event {
            Event::InputCancelled => self.input_cancelled(now, ev),
            Event::Worker(update) => self.worker_updated(update, now),
            Event::CancelWork => self.work_cancelled(),
            Event::PointerDown(pointer_id) => self.pointer_pressed(pointer_id, now),
            Event::PointerMove(pointer_id) => self.pointer_moved(pointer_id, moment),
            Event::PointerUp(pointer_id) => self.pointer_released(pointer_id, now, ev),
            Event::Touch { moving, count, owned } => self.touched(
                moving,
                count,
                owned,
                moment,
                ev,
            ),
            Event::WheelZoom => self.wheel_zoomed(moment),
            Event::WheelSettled(token) => self.wheel_settled(token, now, ev),
            Event::ZoomBy => self.zoomed(moment),
            Event::FitView => self.view_fitted(now),
            Event::CanvasFailed(error) => {
                let (next, effects) = self.canvas_failed(error@);
                turn(next, effects, true)
            },
            Event::StatusPulse(request_id) => turn(
                self,
                Seq::empty(),
                self.work.active is Some && self.work.active->Some_0.request_id == request_id
                    || self.work.displayed is Some,
            ),
            _ => turn(self, Seq::empty(), false),
        }
    }

    /// What an event does.
    pub open spec fn updated(
        self,
        event: Event,
        moment: Moment,
        ev: spec_fn(Arithmetic) -> Real,
    ) -> Turn {
        if concerns_settings(event) {
            self.settings_updated(event, moment)
        } else if concerns_panels(event) {
            self.panels_updated(event, moment, ev)
        } else {
            self.view_updated(event, moment, ev)
        }
    }
}

/// An event is about the system and its settings.
pub open spec fn concerns_settings(event: Event) -> bool {
    match event {
        Event::SourceChanged(_) => true,
        Event::SourceDebounced(_) => true,
        Event::AngleChanged(_) => true,
        Event::AngleStep(_) => true,
        Event::AngleWheel { .. } => true,
        Event::LineWidthChanged(_) => true,
        Event::IterationsSlider(_) => true,
        Event::IterationsInput(_) => true,
        Event::IterationsStep(_) => true,
        Event::IterationsWheel(_) => true,
        Event::SeedChanged(_) => true,
        Event::RandomizeSeed(_) => true,
        Event::FloatWidthChanged(_) => true,
        Event::AmbiguousRulesChanged(_) => true,
        Event::PresetSelected { .. } => true,
        _ => false,
    }
}

/// An event is about panels, looks and exports.
pub open spec fn concerns_panels(event: Event) -> bool {
    match event {
        Event::SearchChanged(_) => true,
        Event::ClearSearch => true,
        Event::OpenCatalog { .. } => true,
        Event::CloseCatalog => true,
        Event::OpenEditor { .. } => true,
        Event::CloseEditor => true,
        Event::DraftChanged(_) => true,
        Event::ApplyDraft => true,
        Event::ToggleAdjustments => true,
        Event::CycleTheme => true,
        Event::SystemTheme(_) => true,
        Event::ReducedMotion(_) => true,
        Event::WindowResized(_) => true,
        Event::CanvasResized(_) => true,
        Event::ExportSvg => true,
        Event::CancelExport => true,
        Event::Exported { .. } => true,
        _ => false,
    }
}

/// How the backends of a scene are named.
pub open spec fn backend_text(derivation: Seq<char>, visualization: Seq<char>) -> Seq<char> {
    derivation + " derive \u{b7} "@ + visualization + " visualize \u{b7} Canvas2D"@
}

} // verus!
