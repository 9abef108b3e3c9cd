//! Sessions: what the user does, what is worked on, and what is told; and the
//! coordination of the worker that does the work.

use braken_viz::canvas::{Refinement, PREVIEW_LINES};
use braken_viz::controls::PresetChoice;
use braken_viz::display::DisplayScene;
use braken_viz::frames::FrameWork;
use braken_viz::identity::{turtle_configs_equal, AmbiguousRules, FloatWidth};
use braken_viz::page::Picture;
use braken_viz::painted::{NextPaint, Painted};
use braken_viz::session::{
    Arrival, Event, ExportOutcome, Focus, Moment, RenderOutcome, Session, TransitionOutcome,
    WorkerUpdate,
};
use braken_viz::spatial_refinement::SpatialRefinement;
use braken_viz::startup::Surroundings;
use braken_viz::status::human_phase;
use braken_viz::work::{Effect, IterationTransition, ProgressSnapshot, Timer};
use braken_viz::worker::{worker_failure, ClientRequest, Coordinator, WorkerAction};
use braken_viz::{Arithmetic, Real, Single, SingleArithmetic, Turtle2dConfig, VisualizerKind};

fn number(value: f64) -> Real {
    Real::from_bits(value.to_bits())
}

fn float(value: Real) -> f64 {
    f64::from_bits(value.to_bits())
}

fn calc(op: Arithmetic) -> Real {
    number(match op {
        Arithmetic::Sum(a, b) => float(a) + float(b),
        Arithmetic::Difference(a, b) => float(a) - float(b),
        Arithmetic::Product(a, b) => float(a) * float(b),
        Arithmetic::Quotient(a, b) => float(a) / float(b),
        Arithmetic::Reciprocal(a) => 1.0 / float(a),
        Arithmetic::Radians(a) => float(a).to_radians(),
        Arithmetic::Cosine(a) => float(a).cos(),
        Arithmetic::Sine(a) => float(a).sin(),
        Arithmetic::ArcTangent(a) => float(a).atan(),
        Arithmetic::SquareRoot(a) => float(a).sqrt(),
        Arithmetic::Hypotenuse(a, b) => float(a).hypot(float(b)),
        Arithmetic::Rounded(a) => float(a).round(),
        Arithmetic::Ceiling(a) => float(a).ceil(),
        Arithmetic::Widened(bits) => f64::from(f32::from_bits(bits)),
        Arithmetic::Narrowed(a) => f64::from(float(a) as f32),
        Arithmetic::Count(n) => n as f64,
        Arithmetic::Integer(n) => n as f64,
    })
}

fn single(value: f32) -> Single {
    Single::from_bits(value.to_bits())
}

fn short(value: Single) -> f32 {
    f32::from_bits(value.bits)
}

fn small(op: SingleArithmetic) -> Single {
    single(match op {
        SingleArithmetic::Sum(a, b) => short(a) + short(b),
        SingleArithmetic::Difference(a, b) => short(a) - short(b),
        SingleArithmetic::Product(a, b) => short(a) * short(b),
        SingleArithmetic::Quotient(a, b) => short(a) / short(b),
        SingleArithmetic::Power(a, b) => short(a).powf(short(b)),
        SingleArithmetic::Rounded(a) => short(a).round(),
        SingleArithmetic::Floor(a) => short(a).floor(),
        SingleArithmetic::Ceiling(a) => short(a).ceil(),
        SingleArithmetic::Narrowed(a) => float(a) as f32,
        SingleArithmetic::Count(n) => f32::from(n),
    })
}

fn around(width: f64, reduced_motion: bool) -> Surroundings {
    Surroundings {
        viewport_width: number(width),
        system_dark: false,
        reduced_motion,
        now: number(0.0),
    }
}

fn choice(visualizer: VisualizerKind, iterations: usize) -> PresetChoice {
    PresetChoice {
        source: String::from("axiom F; match F then F F;"),
        iterations,
        max_iterations: 9,
        visualizer,
        config: Turtle2dConfig::default(),
        anchor: None,
        angle: single(90.0),
    }
}

fn planar_session() -> (Session, Vec<Effect>) {
    Session::create(choice(VisualizerKind::Turtle2d, 2), 7, around(1200.0, false))
}

fn spatial_session(reduced_motion: bool) -> (Session, Vec<Effect>) {
    Session::create(
        choice(VisualizerKind::Turtle3d, 2),
        7,
        around(1200.0, reduced_motion),
    )
}

fn at(now: f64) -> Moment {
    Moment {
        now: number(now),
        has_space: true,
    }
}

fn submitted(effects: &[Effect]) -> Option<(u64, usize, Option<IterationTransition>, u64)> {
    effects.iter().find_map(|effect| match effect {
        Effect::Submit {
            request_id,
            iteration,
            transition,
            view_epoch,
        } => Some((*request_id, *iteration, *transition, *view_epoch)),
        _ => None,
    })
}

fn planar_scene(lines: usize) -> DisplayScene {
    DisplayScene::TwoD(Refinement::for_scene(lines, 0, 0).unwrap())
}

fn spatial_scene(lines: usize) -> DisplayScene {
    DisplayScene::ThreeD(SpatialRefinement::for_scene(lines, 0).ok().unwrap())
}

fn finished(
    (request_id, iteration, _, view_epoch): (u64, usize, Option<IterationTransition>, u64),
    scene: DisplayScene,
    transition: TransitionOutcome,
) -> WorkerUpdate {
    WorkerUpdate::Finished {
        request_id,
        iteration,
        view_epoch,
        outcome: RenderOutcome::Scene(Arrival {
            scene,
            elapsed_millis: 12,
            derivation_backend: String::from("cpu"),
            visualization_backend: String::from("cpu"),
            transition,
        }),
    }
}

#[test]
fn a_session_starts_at_the_first_iteration_of_its_route() {
    let (session, effects) = planar_session();
    assert_eq!(submitted(&effects).map(|request| request.1), Some(0));
    assert_eq!(session.controls.iterations, 2);
    assert_eq!(session.controls.effective_seed, 7);
    assert_eq!(session.controls.seed_placeholder, "7");
    assert!(session.work.displayed.is_none());
    assert_eq!(
        session.canvas_accessible_label(),
        "L-system drawing is loading"
    );
    assert_eq!(session.picture(true), Picture::Blank);
    assert_eq!(session.picture(false), Picture::Unseen);
}

#[test]
fn routes_lead_through_every_iteration() {
    let (mut session, effects) = planar_session();
    let request = submitted(&effects).unwrap();
    let response = session.update(
        Event::Worker(finished(
            request,
            planar_scene(1),
            TransitionOutcome::Absent,
        )),
        at(10.0),
        &calc,
    );
    let next = submitted(&response.effects).unwrap();
    assert_eq!(next.1, 1);
    assert_eq!(
        next.2,
        Some(IterationTransition {
            from_iteration: 0,
            to_iteration: 1
        })
    );

    let response = session.update(
        Event::Worker(finished(
            next,
            planar_scene(2),
            TransitionOutcome::Ready(IterationTransition {
                from_iteration: 0,
                to_iteration: 1,
            }),
        )),
        at(20.0),
        &calc,
    );
    assert!(submitted(&response.effects).is_none());
    assert!(session.work.animation.is_some());
    assert_eq!(session.picture(true), Picture::Transition);
    assert_eq!(
        session.status_text(number(21.0), &calc).0,
        "Animating iteration 0 → 1"
    );

    let started = float(session.work.animation.as_ref().unwrap().started);
    let plan = session.begin_frame(number(started + 300.0), &calc);
    assert!(matches!(plan.work, FrameWork::Animate { complete: false, progress } if float(progress) == 0.5));
    let plan = session.begin_frame(number(started + 900.0), &calc);
    assert!(matches!(plan.work, FrameWork::Animate { complete: true, .. }));
    let mut effects = Vec::new();
    session.complete_animation(number(started + 900.0), &mut effects);
    assert_eq!(session.work.displayed.as_ref().unwrap().iteration, 1);
    session.promotion_painted(number(started + 901.0), &mut effects);
    assert_eq!(submitted(&effects).map(|request| request.1), Some(2));
}

#[test]
fn answers_to_superseded_requests_are_dropped() {
    let (mut session, effects) = planar_session();
    let stale = submitted(&effects).unwrap();
    let response = session.update(
        Event::FloatWidthChanged(FloatWidth::F64),
        at(5.0),
        &calc,
    );
    let current = submitted(&response.effects).unwrap();
    assert_ne!(stale.0, current.0);
    session.update(
        Event::Worker(finished(stale, planar_scene(1), TransitionOutcome::Absent)),
        at(6.0),
        &calc,
    );
    assert!(session.work.displayed.is_none());
    session.update(
        Event::Worker(finished(current, planar_scene(1), TransitionOutcome::Absent)),
        at(7.0),
        &calc,
    );
    assert!(session.work.displayed.is_some());
}

#[test]
fn failures_keep_the_last_result_in_sight() {
    let (mut session, effects) = spatial_session(true);
    let request = submitted(&effects).unwrap();
    assert_eq!(request.1, 2);
    session.update(
        Event::Worker(finished(
            request,
            spatial_scene(3),
            TransitionOutcome::Absent,
        )),
        at(10.0),
        &calc,
    );
    assert_eq!(
        session.status_text(number(11.0), &calc),
        (
            String::from("3 elements"),
            String::from("12 ms on cpu derive · cpu visualize · Canvas2D · 0 FPS")
        )
    );
    let response = session.update(
        Event::SeedChanged(String::from("99")),
        at(20.0),
        &calc,
    );
    let request = submitted(&response.effects).unwrap();
    session.update(
        Event::Worker(WorkerUpdate::Finished {
            request_id: request.0,
            iteration: request.1,
            view_epoch: request.3,
            outcome: RenderOutcome::Failed(String::from("no rule matches")),
        }),
        at(30.0),
        &calc,
    );
    assert!(session.work.displayed.is_some());
    assert_eq!(
        session.status_text(number(31.0), &calc).0,
        "Error — showing the last completed result · no rule matches"
    );
}

#[test]
fn spatial_presets_turn_until_they_are_touched() {
    let (mut session, effects) = spatial_session(false);
    let request = submitted(&effects).unwrap();
    session.update(
        Event::Worker(finished(
            request,
            spatial_scene(3),
            TransitionOutcome::Absent,
        )),
        at(10.0),
        &calc,
    );
    assert!(session.motion.autorotate);
    session.begin_frame(number(100.0), &calc);
    let plan = session.begin_frame(number(120.0), &calc);
    assert!(plan
        .effects
        .iter()
        .any(|effect| matches!(effect, Effect::Autorotate(millis) if float(*millis) == 20.0)));
    let plan = session.begin_frame(number(9_000.0), &calc);
    assert!(plan
        .effects
        .iter()
        .any(|effect| matches!(effect, Effect::Autorotate(millis) if float(*millis) == 50.0)));
    session.update(Event::PointerDown(1), at(9_001.0), &calc);
    assert!(!session.motion.autorotate);
    session.update(Event::PointerUp(1), at(9_002.0), &calc);
    assert!(!session.motion.autorotate);
    assert_eq!(
        session.canvas_accessible_label(),
        "3D L-system drawing with 3 elements at iteration 2; drag to rotate, tap or click to stop automatic rotation"
    );

    let (mut calm, effects) = spatial_session(true);
    let request = submitted(&effects).unwrap();
    calm.update(
        Event::Worker(finished(
            request,
            spatial_scene(3),
            TransitionOutcome::Absent,
        )),
        at(10.0),
        &calc,
    );
    assert!(!calm.motion.autorotate);
}

#[test]
fn work_is_told_when_it_takes_a_while() {
    let (mut session, effects) = planar_session();
    let request = submitted(&effects).unwrap();
    assert!(effects.contains(&Effect::SetTimer(Timer::StatusPulse(request.0), 250)));
    assert_eq!(session.status_text(number(249.0), &calc).0, "Ready");
    assert_eq!(session.status_text(number(250.0), &calc).0, "Queued…");
    assert!(!session.work_is_slow(number(1_999.0), &calc));
    assert!(session.work_is_slow(number(2_000.0), &calc));
    session.update(
        Event::Worker(WorkerUpdate::Progress {
            request_id: request.0,
            snapshot: ProgressSnapshot {
                phase: String::from("Rewriting"),
                phase_completed: 3,
                phase_total: Some(5),
                completed_iterations: 1,
                total_iterations: 4,
                modules: 10,
                items: 12,
                elapsed_millis: 300,
            },
        }),
        at(300.0),
        &calc,
    );
    assert_eq!(
        session.status_text(number(301.0), &calc),
        (
            String::from("Deriving 1/4 · 10 modules · 12 items"),
            String::from("300 ms in Worker · 0 FPS")
        )
    );
    assert_eq!(human_phase("Rewriting"), "Deriving");
    assert_eq!(human_phase("Anything"), "Working");
    let response = session.update(Event::CancelWork, at(400.0), &calc);
    assert!(response.effects.contains(&Effect::CancelWorker));
    assert!(session.work.active.is_none());
}

#[test]
fn refinement_is_told_and_can_be_stopped() {
    let (mut session, effects) = Session::create(
        choice(VisualizerKind::Turtle3d, 0),
        7,
        around(1200.0, true),
    );
    let request = submitted(&effects).unwrap();
    session.update(
        Event::Worker(finished(
            request,
            spatial_scene(PREVIEW_LINES + 4),
            TransitionOutcome::Absent,
        )),
        at(10.0),
        &calc,
    );
    assert!(session.needs_animation_frame());
    let plan = session.begin_frame(number(20.0), &calc);
    assert_eq!(plan.work, FrameWork::Refine);
    assert_eq!(
        session.status_text(number(400.0), &calc).0,
        "Showing preview · refining display 0/4100 lines"
    );
    session.update(Event::CancelWork, at(500.0), &calc);
    assert_eq!(
        session.status_text(number(600.0), &calc).0,
        "Showing preview · display refinement stopped at 0/4100"
    );
    assert!(!session.needs_animation_frame());
}

#[test]
fn entries_that_make_no_sense_change_no_setting() {
    let (mut session, _) = planar_session();
    session.update(
        Event::IterationsInput(String::from("many")),
        at(1.0),
        &calc,
    );
    assert_eq!(session.controls.iterations, 2);
    assert!(session.controls.iterations_notice.is_some());
    session.update(Event::IterationsInput(String::from("5")), at(2.0), &calc);
    assert_eq!(session.controls.iterations, 5);
    assert!(session.controls.iterations_notice.is_none());
    session.update(Event::SeedChanged(String::from("-1")), at(3.0), &calc);
    assert_eq!(session.controls.effective_seed, 7);
    assert!(session.controls.seed_notice.is_some());
    session.update(Event::AngleChanged(single(500.0)), at(4.0), &calc);
    assert_eq!(f32::from_bits(session.controls.angle.bits), 180.0);
    session.update(Event::LineWidthChanged(1_000), at(5.0), &calc);
    assert_eq!(session.controls.line_width_percent, 200);
    session.update(
        Event::AmbiguousRulesChanged(AmbiguousRules::First),
        at(6.0),
        &calc,
    );
    assert_eq!(session.controls.ambiguous_rules, AmbiguousRules::First);
}

#[test]
fn small_screens_show_one_thing_at_a_time() {
    let (mut session, _) = Session::create(
        choice(VisualizerKind::Turtle2d, 1),
        7,
        around(400.0, false),
    );
    assert!(session.panels.canvas_visible());
    session.update(Event::OpenEditor { scroll: number(33.0) }, at(1.0), &calc);
    assert!(!session.panels.canvas_visible());
    assert_eq!(session.picture(true), Picture::Unseen);
    let plan = session.rendered(Some((400, 300)), number(2.0), &calc);
    assert!(!plan.paint);
    assert_eq!(plan.focus, Some(Focus::SourceEditor));
    session.update(
        Event::DraftChanged(String::from("axiom F F;")),
        at(3.0),
        &calc,
    );
    assert_eq!(session.controls.source, "axiom F; match F then F F;");
    session.update(Event::ApplyDraft, at(4.0), &calc);
    assert_eq!(session.controls.source, "axiom F F;");
    session.update(Event::CloseEditor, at(5.0), &calc);
    let plan = session.rendered(Some((400, 300)), number(6.0), &calc);
    assert!(plan.paint);
    assert!(session.panels.canvas_visible());
    assert!(session.panels.focus_after_render.is_none());
}

#[test]
fn exports_belong_to_the_scene_that_they_were_started_for() {
    let (mut session, effects) = spatial_session(true);
    let request = submitted(&effects).unwrap();
    session.update(
        Event::Worker(finished(
            request,
            spatial_scene(3),
            TransitionOutcome::Absent,
        )),
        at(10.0),
        &calc,
    );
    let response = session.update(Event::ExportSvg, at(11.0), &calc);
    assert!(response
        .effects
        .iter()
        .any(|effect| matches!(effect, Effect::BeginExport(_))));
    let id = session.work.export.job.unwrap();
    assert!(session.export_is_current(id));
    session.update(
        Event::Exported {
            id: id.wrapping_add(1),
            outcome: ExportOutcome::Downloaded,
        },
        at(12.0),
        &calc,
    );
    assert!(session.export_is_current(id));
    session.update(
        Event::Exported {
            id,
            outcome: ExportOutcome::Downloaded,
        },
        at(13.0),
        &calc,
    );
    assert!(!session.export_is_current(id));
}

#[test]
fn settings_are_compared_value_by_value() {
    let one = Turtle2dConfig::default();
    let mut other = Turtle2dConfig::default();
    assert!(turtle_configs_equal(&one, &other));
    other.draw_modules.push(String::from("G"));
    assert!(!turtle_configs_equal(&one, &other));
    let (session, _) = planar_session();
    let identity = session.controls.identity();
    assert!(identity.same_as(&identity.copy()));
    let mut changed = identity.copy();
    changed.source.push('!');
    assert!(!identity.same_as(&changed));
}

fn request(request_id: u64) -> ClientRequest<&'static str> {
    ClientRequest {
        wire: "wire",
        request_id,
        view_epoch: 1,
        iteration: 0,
    }
}

fn cancelled(actions: &[WorkerAction<&'static str>]) -> Vec<u64> {
    actions
        .iter()
        .filter_map(|action| match action {
            WorkerAction::Cancelled { request_id } => Some(*request_id),
            _ => None,
        })
        .collect()
}

fn sent(actions: &[WorkerAction<&'static str>]) -> Vec<u64> {
    actions
        .iter()
        .filter_map(|action| match action {
            WorkerAction::SendRequest { request_id, .. } => Some(*request_id),
            _ => None,
        })
        .collect()
}

fn spawned(actions: &[WorkerAction<&'static str>]) -> Option<u64> {
    actions.iter().find_map(|action| match action {
        WorkerAction::Spawn { worker_id } => Some(*worker_id),
        _ => None,
    })
}

#[test]
fn the_latest_request_is_the_one_that_is_answered() {
    let mut coordinator = Coordinator::new();
    let worker = spawned(&coordinator.submit(request(1))).unwrap();
    coordinator.spawned(worker);
    assert_eq!(sent(&coordinator.worker_ready(worker)), [1]);
    let actions = coordinator.submit(request(2));
    assert!(actions
        .iter()
        .any(|action| matches!(action, WorkerAction::SendCancel { request_id: 1, .. })));
    assert_eq!(cancelled(&coordinator.submit(request(3))), [2]);
    let actions = coordinator.complete_cancelled(worker, 1);
    assert_eq!(cancelled(&actions), [1]);
    assert_eq!(sent(&actions), [3]);
    assert!(coordinator.request_is_active(3));
    let actions = coordinator.complete_finished(worker, 3);
    assert!(actions
        .iter()
        .any(|action| matches!(action, WorkerAction::Finished { request } if request.request_id == 3)));
    assert!(coordinator.active_request().is_none());
}

#[test]
fn a_worker_that_does_not_stop_is_replaced() {
    let mut coordinator = Coordinator::new();
    let worker = spawned(&coordinator.submit(request(1))).unwrap();
    coordinator.spawned(worker);
    coordinator.worker_ready(worker);
    coordinator.submit(request(2));
    let actions = coordinator.cancel_timed_out(worker, 1);
    assert!(actions
        .iter()
        .any(|action| matches!(action, WorkerAction::Terminate { worker_id } if *worker_id == worker)));
    let next = spawned(&actions).unwrap();
    assert_ne!(next, worker);
    assert!(!coordinator.worker_is_current(worker));
    coordinator.spawned(next);
    assert_eq!(sent(&coordinator.worker_ready(next)), [2]);
}

#[test]
fn a_worker_that_breaks_fails_its_request() {
    let mut coordinator = Coordinator::new();
    let worker = spawned(&coordinator.submit(request(1))).unwrap();
    coordinator.spawned(worker);
    coordinator.worker_ready(worker);
    let actions = coordinator.recover_worker(worker, Some(1), String::from("crashed"));
    assert!(actions.iter().any(|action| matches!(
        action,
        WorkerAction::Failed { request, message } if request.request_id == 1 && message.contains("crashed")
    )));
    assert!(worker_failure("crashed").contains("crashed"));
}

#[test]
fn after_a_shutdown_nothing_is_started() {
    let mut coordinator = Coordinator::new();
    coordinator.submit(request(1));
    coordinator.shutdown();
    let actions = coordinator.submit(request(2));
    assert_eq!(cancelled(&actions), [2]);
    assert!(spawned(&actions).is_none());
}

#[test]
fn chance_gives_a_session_its_seed() {
    let (mut session, effects) =
        Session::begin(choice(VisualizerKind::Turtle2d, 2), around(1200.0, false));
    assert!(submitted(&effects).is_some());
    assert_eq!(
        session.controls.seed_placeholder,
        session.controls.effective_seed.to_string()
    );
    let mut seeds = Vec::new();
    for round in 0..4 {
        session.randomize_seed(at(f64::from(round)), &calc);
        seeds.push(session.controls.effective_seed);
    }
    assert!(seeds.iter().any(|seed| *seed != seeds[0]));
    let response = session.choose_preset(
        3,
        Some(choice(VisualizerKind::Turtle3d, 5)),
        at(9.0),
        &calc,
    );
    assert_eq!(session.controls.selected_preset, Some(3));
    assert_eq!(submitted(&response.effects).map(|request| request.1), Some(5));
    let response = session.choose_preset(8, None, at(10.0), &calc);
    assert_eq!(session.controls.selected_preset, Some(3));
    assert!(submitted(&response.effects).is_none());
}

#[test]
fn a_seed_that_cannot_be_drawn_is_told() {
    let (mut session, _) = planar_session();
    session.update(
        Event::RandomizeSeed(Err(String::from("no entropy"))),
        at(1.0),
        &calc,
    );
    assert_eq!(session.controls.effective_seed, 7);
    assert_eq!(
        session.controls.seed_notice.as_deref(),
        Some("Could not generate a random seed; using 7: no entropy")
    );
}

#[test]
fn painting_that_fails_is_told_and_ends_the_frame() {
    let (mut session, effects) = spatial_session(true);
    let request = submitted(&effects).unwrap();
    session.update(
        Event::Worker(finished(
            request,
            spatial_scene(PREVIEW_LINES + 4),
            TransitionOutcome::Absent,
        )),
        at(10.0),
        &calc,
    );
    session.begin_frame(number(20.0), &calc);
    let plan = session.finish_painting(
        Painted::Batch {
            complete: false,
            failure: None,
        },
        number(21.0),
    );
    assert_eq!(plan.next, NextPaint::Nothing);
    assert!(!plan.refresh);
    assert!(plan.effects.contains(&Effect::RequestFrame));
    let plan = session.finish_painting(
        Painted::Batch {
            complete: true,
            failure: None,
        },
        number(22.0),
    );
    assert_eq!(plan.next, NextPaint::Base);
    let plan = session.finish_painting(
        Painted::Base {
            failure: Some(String::from("no context")),
        },
        number(23.0),
    );
    assert_eq!(plan.next, NextPaint::Nothing);
    assert!(plan.refresh);
    assert_eq!(
        session.work.failure.as_deref(),
        Some("Canvas display failed: no context")
    );
}

#[test]
fn angles_step_to_whole_degrees_and_wheel_by_one() {
    let (mut session, _) = planar_session();
    session.update(Event::AngleChanged(single(42.5)), at(1.0), &calc);
    session.step_angle(single(1.0), at(2.0), &calc, &small);
    assert_eq!(f32::from_bits(session.controls.angle.bits), 43.0);
    session.update(Event::AngleChanged(single(42.5)), at(3.0), &calc);
    session.wheel_angle(number(-3.0), at(4.0), &calc, &small);
    assert_eq!(f32::from_bits(session.controls.angle.bits), 43.5);
    session.wheel_angle(number(3.0), at(5.0), &calc, &small);
    session.wheel_angle(number(0.0), at(6.0), &calc, &small);
    assert_eq!(f32::from_bits(session.controls.angle.bits), 42.5);
}

#[test]
fn only_the_worker_replaces_the_scene() {
    let (mut session, effects) = spatial_session(true);
    session.update(
        Event::Worker(finished(
            submitted(&effects).unwrap(),
            spatial_scene(3),
            TransitionOutcome::Absent,
        )),
        at(10.0),
        &calc,
    );
    let turtle = Turtle2dConfig {
        turn_angle: number(0.75),
        ..Turtle2dConfig::default()
    };
    let chosen = PresetChoice {
        config: turtle,
        ..choice(VisualizerKind::Turtle2d, 1)
    };
    let events = vec![
        Event::SourceChanged(String::from("axiom F F;")),
        Event::SeedChanged(String::from("12")),
        Event::IterationsStep(true),
        Event::CycleTheme,
        Event::WindowResized(Some(number(400.0))),
        Event::PointerDown(1),
        Event::PointerUp(1),
        Event::CancelWork,
        Event::CanvasFailed(String::from("lost")),
        Event::PresetSelected {
            index: 0,
            choice: Some(chosen),
            seed: Ok(3),
        },
    ];
    for event in events {
        let preset = matches!(event, Event::PresetSelected { .. });
        let before = float(session.controls.config.turn_angle);
        session.update(event, at(20.0), &calc);
        let displayed = session.work.displayed.as_ref().unwrap();
        assert_eq!(displayed.iteration, 2);
        assert_eq!(displayed.scene.element_count(), 3);
        assert!(displayed.scene.is_spatial());
        let after = float(session.controls.config.turn_angle);
        assert_eq!(after, if preset { 0.75 } else { before });
    }
}
