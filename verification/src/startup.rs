//! How a session begins, and what fingers measure.

use vstd::prelude::*;
use vstd::string::*;

use crate::controls::{Controls, ControlsModel, PresetChoice, DEFAULT_LINE_WIDTH_PERCENT};
use crate::geometry::Point2d;
use crate::identity::{settings_of, AmbiguousRules, FloatWidth};
use crate::kind::VisualizerKind;
use crate::model::{Draft, GrammarDraft, ThemePreference};
use crate::number::{answers, calculate, calculates, Arithmetic, Real, HALF_BITS, ONE_BITS};
use crate::session::{FrameClock, Motion, Panels, PanelsModel, Session, SessionModel};
use crate::text::{decimal, decimal_text};
use crate::work::{Effect, Export, Exporting, Work, WorkModel};

verus! {

/// The pattern of the distance between one and the next number.
pub const EPSILON_BITS: u64 = 0x3cb0_0000_0000_0000;

/// What the browser says when a session begins.
#[derive(Debug, Clone, Copy, PartialEq, Eq, Structural)]
pub struct Surroundings {
    pub viewport_width: Real,
    pub system_dark: bool,
    pub reduced_motion: bool,
    pub now: Real,
}

/// The settings of the first preset.
pub open spec fn first_controls(choice: PresetChoice, seed: u64) -> ControlsModel {
    ControlsModel {
        selected_preset: Some(0),
        preset_search: Seq::empty(),
        source: choice.source@,
        source_edit_token: 0,
        angle: choice.angle,
        line_width_percent: DEFAULT_LINE_WIDTH_PERCENT,
        iterations: choice.iterations,
        iterations_input: decimal(choice.iterations as int),
        iterations_notice: None,
        suggested_max_iterations: choice.max_iterations,
        seed_input: Seq::empty(),
        seed_placeholder: decimal(seed as int),
        effective_seed: seed,
        seed_notice: None,
        float_width: FloatWidth::F32,
        ambiguous_rules: AmbiguousRules::Uniform,
        visualizer: choice.visualizer,
        settings: settings_of(choice.config),
        anchor: choice.anchor,
    }
}

/// Nothing is open.
pub open spec fn first_panels(around: Surroundings) -> PanelsModel {
    PanelsModel {
        catalog_open: false,
        editor_open: false,
        editor_draft_mode: false,
        draft: Draft::fresh(Seq::empty()),
        adjustments_open: false,
        focus: None,
        scroll: None,
        explore_scroll: Real { bits: 0 },
        theme: ThemePreference::Auto,
        system_dark: around.system_dark,
        reduced_motion: around.reduced_motion,
        viewport_width: around.viewport_width,
        canvas_size: None,
    }
}

/// Nothing is shown, and nothing is asked for.
pub open spec fn first_work() -> WorkModel {
    WorkModel {
        request_id: 0,
        view_epoch: 1,
        displayed_view_epoch: 0,
        active: None,
        displayed: None,
        route: None,
        animation: None,
        failure: None,
        worker_fatal: None,
        canvas_dirty: true,
        export: Exporting { sequence: 0, job: None, notice: None },
    }
}

/// The first preset turns, where it is spatial and motion is welcome.
pub open spec fn first_motion(choice: PresetChoice, around: Surroundings) -> Motion {
    Motion {
        autorotate: false,
        autorotate_last: None,
        pending_autorotate: if choice.visualizer == VisualizerKind::Turtle3d
            && !around.reduced_motion {
            Some(1u64)
        } else {
            None
        },
        mouse: None,
        touch: None,
        touch_owned: false,
        wheel_token: 0,
        wheel_active: false,
    }
}

/// A session before anything has happened.
pub open spec fn first_model(choice: PresetChoice, seed: u64, around: Surroundings) -> SessionModel {
    SessionModel {
        controls: first_controls(choice, seed),
        panels: first_panels(around),
        motion: first_motion(choice, around),
        clock: FrameClock {
            scheduled: false,
            frames_since_sample: 0,
            fps: 0,
            sample_started: around.now,
        },
        work: first_work(),
    }
}

fn begin_controls(choice: PresetChoice, seed: u64) -> (r: Controls)
    ensures
        r@ == first_controls(choice, seed),
{
    proof {
        reveal(Controls::model);
    }
    let controls: Controls = Controls {
        selected_preset: Some(0),
        preset_search: String::new(),
        iterations_input: decimal_text(choice.iterations as u128),
        source: choice.source,
        source_edit_token: 0,
        angle: choice.angle,
        line_width_percent: DEFAULT_LINE_WIDTH_PERCENT,
        iterations: choice.iterations,
        iterations_notice: None,
        suggested_max_iterations: choice.max_iterations,
        seed_input: String::new(),
        seed_placeholder: decimal_text(seed as u128),
        effective_seed: seed,
        seed_notice: None,
        float_width: FloatWidth::F32,
        ambiguous_rules: AmbiguousRules::Uniform,
        visualizer: choice.visualizer,
        config: choice.config,
        anchor: choice.anchor,
    };
    assert(controls.preset_search@ =~= Seq::empty());
    assert(controls.seed_input@ =~= Seq::empty());
    controls
}

fn begin_panels(around: Surroundings) -> (r: Panels)
    ensures
        r@ == first_panels(around),
{
    proof {
        reveal(Panels::model);
    }
    Panels {
        catalog_open: false,
        editor_open: false,
        editor_draft_mode: false,
        draft: <GrammarDraft as Default>::default(),
        adjustments_open: false,
        focus_after_render: None,
        scroll_after_render: None,
        explore_scroll: Real { bits: 0 },
        theme: ThemePreference::Auto,
        system_dark: around.system_dark,
        reduced_motion: around.reduced_motion,
        viewport_width: around.viewport_width,
        canvas_size: None,
    }
}

fn begin_work() -> (r: Work)
    ensures
        r@ == first_work(),
{
    proof {
        reveal(Work::model);
    }
    Work {
        request_id: 0,
        view_epoch: 1,
        displayed_view_epoch: 0,
        active: None,
        displayed: None,
        route: None,
        animation: None,
        failure: None,
        worker_fatal: None,
        canvas_dirty: true,
        export: Export { sequence: 0, job: None, notice: None },
    }
}

impl Session {
    /// Begin a session with the first preset, and with what is to be done for
    /// it. The seed comes from chance.
    pub fn create(choice: PresetChoice, seed: u64, around: Surroundings) -> (r: (
        Session,
        Vec<Effect>,
    ))
        ensures
            r.0.valid(),
            (r.0@, r.1@) == first_model(choice, seed, around).routed(around.now),
    {
        let ghost given = choice;
        let rotates: bool = choice.visualizer == VisualizerKind::Turtle3d
            && !around.reduced_motion;
        let mut session: Session = Session {
            controls: begin_controls(choice, seed),
            panels: begin_panels(around),
            motion: Motion {
                autorotate: false,
                autorotate_last: None,
                pending_autorotate: if rotates {
                    Some(1)
                } else {
                    None
                },
                mouse: None,
                touch: None,
                touch_owned: false,
                wheel_token: 0,
                wheel_active: false,
            },
            clock: FrameClock {
                scheduled: false,
                frames_since_sample: 0,
                fps: 0,
                sample_started: around.now,
            },
            work: begin_work(),
        };
        assert(session@ == first_model(given, seed, around));
        let mut effects: Vec<Effect> = Vec::new();
        session.begin_iteration_route(around.now, &mut effects);
        assert(effects@ =~= first_model(given, seed, around).routed(around.now).1);
        (session, effects)
    }
}

/// The middle of the first two fingers, and how far they are apart.
pub open spec fn measure_of(points: Seq<Point2d>, ev: spec_fn(Arithmetic) -> Real) -> (
    Point2d,
    Real,
) {
    let first = points[0];
    if points.len() == 1 {
        (first, Real { bits: 0 })
    } else {
        let second = points[1];
        let half = Real { bits: HALF_BITS };
        (
            (
                ev(Arithmetic::Product(ev(Arithmetic::Sum(first.0, second.0)), half)),
                ev(Arithmetic::Product(ev(Arithmetic::Sum(first.1, second.1)), half)),
            ),
            ev(
                Arithmetic::Hypotenuse(
                    ev(Arithmetic::Difference(second.0, first.0)),
                    ev(Arithmetic::Difference(second.1, first.1)),
                ),
            ),
        )
    }
}

pub fn touch_measurement<C: Fn(Arithmetic) -> Real>(points: &Vec<Point2d>, calc: &C) -> (r: (
    Point2d,
    Real,
))
    requires
        calculates(*calc),
        points@.len() > 0,
    ensures
        r == measure_of(points@, answers(*calc)),
{
    let first: Point2d = points[0];
    if points.len() == 1 {
        return (first, Real { bits: 0 });
    }
    let second: Point2d = points[1];
    let half: Real = Real { bits: HALF_BITS };
    let x: Real = calculate(calc, Arithmetic::Sum(first.0, second.0));
    let y: Real = calculate(calc, Arithmetic::Sum(first.1, second.1));
    let dx: Real = calculate(calc, Arithmetic::Difference(second.0, first.0));
    let dy: Real = calculate(calc, Arithmetic::Difference(second.1, first.1));
    (
        (
            calculate(calc, Arithmetic::Product(x, half)),
            calculate(calc, Arithmetic::Product(y, half)),
        ),
        calculate(calc, Arithmetic::Hypotenuse(dx, dy)),
    )
}

/// How much a pinch scales; one finger does not scale.
pub fn pinch_scale<C: Fn(Arithmetic) -> Real>(initial_distance: Real, distance: Real, calc: &C) -> (r:
    Real)
    requires
        calculates(*calc),
    ensures
        r == if (Real { bits: EPSILON_BITS }).below(initial_distance) {
            answers(*calc)(Arithmetic::Quotient(distance, initial_distance))
        } else {
            Real { bits: ONE_BITS }
        },
{
    if (Real { bits: EPSILON_BITS }).less_than(initial_distance) {
        calculate(calc, Arithmetic::Quotient(distance, initial_distance))
    } else {
        Real { bits: ONE_BITS }
    }
}

} // verus!
