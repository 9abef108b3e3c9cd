//! Visualizers by name, the inspector, and transitions between iterations.

use std::cell::{Cell, RefCell};

use braken_viz::inspector::{checked_increment, Stats};
use braken_viz::preview::{bounded_preview, wrap_preview};
use braken_viz::transitions::RewriteLineage;
use braken_viz::{
    build_line_transition, stream_inspector, stream_turtle_2d, visualize, visualize_with_backend,
    visualizer_metadata, Arithmetic, Generation, GenerationItem, IndexedLine2d,
    IndexedModulePosition2d, InspectorConfig, InspectorPhase, InspectorProgress,
    InspectorStreamRequest, Line2d, Module, MorphCoordinateSpace, MorphLine2d, Outlet, PlotConfig,
    Primitive2d, Primitive3d, Real, Scene2d, StrokeColor, StyledLine2d, Turtle2dBatch, Turtle2dConfig,
    Turtle2dStreamRequest, Turtle3dConfig, Value, Visualization, VisualizationContext,
    VisualizeError, VisualizeRequest, VisualizerBackend, VisualizerConfig, VisualizerKind,
    VisualizerMetadataError,
};

fn number(value: f64) -> Real {
    Real::from_bits(value.to_bits())
}

fn float(value: Real) -> f64 {
    f64::from_bits(value.to_bits())
}

fn calc(op: Arithmetic) -> Real {
    number(match op {
        Arithmetic::Sum(a, b) => float(a) + float(b),
        Arithmetic::Difference(a, b) => float(a) - float(b),
        Arithmetic::Product(a, b) => float(a) * float(b),
        Arithmetic::Quotient(a, b) => float(a) / float(b),
        Arithmetic::Reciprocal(a) => 1.0 / float(a),
        Arithmetic::Radians(a) => float(a).to_radians(),
        Arithmetic::Cosine(a) => float(a).cos(),
        Arithmetic::Sine(a) => float(a).sin(),
        Arithmetic::ArcTangent(a) => float(a).atan(),
        Arithmetic::SquareRoot(a) => float(a).sqrt(),
        Arithmetic::Hypotenuse(a, b) => float(a).hypot(float(b)),
        Arithmetic::Rounded(a) => float(a).round(),
        Arithmetic::Ceiling(a) => float(a).ceil(),
        Arithmetic::Widened(bits) => f64::from(f32::from_bits(bits)),
        Arithmetic::Narrowed(a) => f64::from(float(a) as f32),
        Arithmetic::Count(n) => n as f64,
        Arithmetic::Integer(n) => n as f64,
    })
}

fn spell(module: &Module) -> Vec<String> {
    vec![module.name.clone()]
}

fn module(name: &str) -> GenerationItem {
    GenerationItem::Module(Module::new(name, Vec::new()))
}

fn never() -> bool {
    false
}

fn texts(scene: &Scene2d) -> Vec<String> {
    scene
        .primitives
        .iter()
        .filter_map(|primitive| match primitive {
            Primitive2d::Text(text) => Some(text.content.clone()),
            _ => None,
        })
        .collect()
}

#[test]
fn visualizer_metadata_and_names_round_trip() {
    for kind in VisualizerKind::ALL {
        assert_eq!(kind.as_str().parse::<VisualizerKind>(), Ok(kind));
    }
    assert_eq!(
        visualizer_metadata("# Visualizer: turtle_2d"),
        Ok(Some(VisualizerKind::Turtle2d))
    );
    assert!(visualizer_metadata("# Visualizer: inspector\n# Visualizer: plot").is_err());
}

#[test]
fn metadata_that_names_no_visualizer_is_reported() {
    assert_eq!(visualizer_metadata("axiom F;"), Ok(None));
    assert_eq!(
        visualizer_metadata("# Visualizer: inspector\n# Visualizer: plot"),
        Err(VisualizerMetadataError::Duplicate)
    );
    assert!(matches!(
        visualizer_metadata("# Visualizer: hologram"),
        Err(VisualizerMetadataError::Invalid(_))
    ));
    let error = VisualizerKind::parse("hologram").unwrap_err();
    assert_eq!(error.message(), "unknown visualizer \"hologram\"");
    assert_eq!(
        VisualizerKind::parse("two\nlines").unwrap_err().message(),
        "unknown visualizer \"two\\nlines\""
    );
}

#[test]
fn inspector_produces_a_text_scene() {
    let generation = Generation(vec![module("F")]);
    let result = visualize(
        VisualizeRequest {
            generation: &generation,
            backend: VisualizerBackend::Cpu,
            config: VisualizerConfig::Inspector(InspectorConfig),
            context: VisualizationContext {
                iterations: 3,
                seed: 42,
                ..Default::default()
            },
        },
        &spell,
        &calc,
    )
    .unwrap();
    let Visualization::Scene2d(scene) = result else {
        panic!("inspector returned a non-2D scene");
    };
    let texts = texts(&scene);
    assert!(texts.iter().any(|text| text == "Inspector"));
    assert!(texts.iter().any(|text| text.contains("Seed: 42")));
}

#[test]
fn completed_visualization_reports_the_backend_used() {
    let generation = Generation(vec![module("F")]);
    let result = visualize_with_backend(
        VisualizeRequest {
            generation: &generation,
            backend: VisualizerBackend::Cpu,
            config: VisualizerConfig::Turtle2d(Turtle2dConfig::default()),
            context: VisualizationContext::default(),
        },
        &spell,
        &calc,
    )
    .unwrap();
    assert_eq!(result.backend_used, VisualizerBackend::Cpu);
    assert!(matches!(result.visualization, Visualization::Scene2d(_)));
}

#[test]
fn turtle_3d_returns_retained_xyz_geometry() {
    let generation = Generation(vec![module("PitchUp"), module("F")]);
    let mut config = Turtle3dConfig::default();
    config.turtle.initial_angle = number(0.0);
    let result = visualize_with_backend(
        VisualizeRequest {
            generation: &generation,
            backend: VisualizerBackend::Auto,
            config: VisualizerConfig::Turtle3d(config),
            context: VisualizationContext::default(),
        },
        &spell,
        &calc,
    )
    .unwrap();

    let Visualization::Scene3d(scene) = result.visualization else {
        panic!("turtle_3d returned a projected 2D scene");
    };
    assert_eq!(result.backend_used, VisualizerBackend::Cpu);
    let [Primitive3d::Line(line)] = scene.primitives.as_slice() else {
        panic!("turtle_3d did not draw one line");
    };
    let (start, end) = (line.line.0, line.line.1);
    assert_eq!((float(start.0), float(start.1), float(start.2)), (0.0, 0.0, 0.0));
    assert!((float(end.2) - 1.0).abs() < 1.0e-12);
}

#[test]
fn visualizers_that_do_not_draw_yet_say_so() {
    let generation = Generation::default();
    let result = visualize(
        VisualizeRequest {
            generation: &generation,
            backend: VisualizerBackend::Cpu,
            config: VisualizerConfig::Plot(PlotConfig),
            context: VisualizationContext::default(),
        },
        &spell,
        &calc,
    );
    let error = result.unwrap_err();
    assert_eq!(
        error,
        VisualizeError::Unimplemented {
            visualizer: VisualizerKind::Plot,
            backend: VisualizerBackend::Cpu,
        }
    );
    assert!(error.message().contains("plot"));
}

#[test]
fn every_kind_has_its_own_configuration() {
    assert!(matches!(
        VisualizerConfig::for_kind(VisualizerKind::Turtle3d),
        VisualizerConfig::Turtle3d(_)
    ));
    assert!(matches!(
        VisualizerConfig::for_kind(VisualizerKind::Cellwork3d),
        VisualizerConfig::Cellwork3d(_)
    ));
}

fn nested_generation(depth: usize) -> Generation {
    let mut generation = Generation(vec![module("F")]);
    for _ in 0..depth {
        generation = Generation(vec![GenerationItem::Branch(generation)]);
    }
    generation
}

fn request<F: Fn() -> bool>(
    generation: &Generation,
    work_quantum: usize,
    is_cancelled: &F,
) -> Result<Scene2d, VisualizeError> {
    inspect(generation, work_quantum, is_cancelled, |_| Ok(()))
}

fn inspect<F: Fn() -> bool, E: Fn(InspectorProgress) -> Result<(), VisualizeError>>(
    generation: &Generation,
    work_quantum: usize,
    is_cancelled: &F,
    emit: E,
) -> Result<Scene2d, VisualizeError> {
    stream_inspector(
        InspectorStreamRequest {
            generation,
            config: InspectorConfig,
            context: VisualizationContext::default(),
            work_quantum,
        },
        &mut Outlet::new(is_cancelled, emit),
        &spell,
        &calc,
    )
}

#[test]
fn deeply_nested_branches_do_not_use_the_call_stack() {
    let generation = nested_generation(8_192);
    let scene = request(&generation, 64, &never).unwrap();
    assert!(texts(&scene)
        .iter()
        .any(|text| text.contains("Maximum depth: 8192")));
    std::mem::forget(generation);
}

#[test]
fn incremental_inspection_reports_progress_and_completion() {
    let generation = Generation(vec![module("A"), module("B"), module("A")]);
    let progress = RefCell::new(Vec::new());
    inspect(&generation, 1, &never, |update| {
        progress.borrow_mut().push(update);
        Ok(())
    })
    .unwrap();
    let progress: Vec<InspectorProgress> = progress.into_inner();

    assert_eq!(progress.last().unwrap().phase, InspectorPhase::Complete);
    assert_eq!(progress.last().unwrap().items_processed, 3);
    assert!(progress.windows(2).all(|pair| {
        pair[0].items_processed <= pair[1].items_processed
            && pair[0].preview_bytes <= pair[1].preview_bytes
    }));
}

#[test]
fn cancellation_is_checked_inside_large_traversals() {
    let generation = Generation((0..10_000).map(|_| module("F")).collect());
    let checks = Cell::new(0usize);
    let cancel = || {
        checks.set(checks.get() + 1);
        checks.get() > 100
    };
    let error = request(&generation, 10_000, &cancel).unwrap_err();
    assert_eq!(error, VisualizeError::Cancelled);
    assert!(checks.get() <= 102);
}

#[test]
fn preview_is_bounded_without_recursive_formatting() {
    let generation = nested_generation(8_192);
    let stats = Stats {
        modules: 0,
        items: 8_193,
        branches: 0,
        max_depth: 0,
        frequencies: Vec::new(),
    };
    let (preview, complete, _) = bounded_preview(
        &generation,
        64,
        &stats,
        128,
        &mut Outlet::new(never, |_: InspectorProgress| Ok(())),
        &spell,
    )
    .unwrap();
    assert!(!complete);
    assert!(preview.len() <= 128);
    assert!(preview.ends_with('…'));
    std::mem::forget(generation);
}

#[test]
fn counter_overflow_is_a_typed_resource_error() {
    assert!(matches!(
        checked_increment(usize::MAX, "test counter"),
        Err(VisualizeError::ResourceExhausted {
            resource: "test counter",
            requested: None,
        })
    ));
}

#[test]
fn zero_work_quantum_is_rejected() {
    let generation = Generation::default();
    assert!(matches!(
        request(&generation, 0, &never),
        Err(VisualizeError::InvalidConfiguration(_))
    ));
}

#[test]
fn inspection_counts_and_orders_modules() {
    let generation = Generation(vec![
        module("B"),
        GenerationItem::Branch(Generation(vec![module("A"), module("B")])),
        module("C"),
    ]);
    let scene = request(&generation, 4, &never).unwrap();
    let texts = texts(&scene);
    assert!(texts.iter().any(|text| text.contains("Modules: 4")), "{texts:?}");
    assert!(texts.iter().any(|text| text.contains("Branches: 1")), "{texts:?}");
    let place = |name: &str| {
        texts
            .iter()
            .position(|text| text.starts_with(name))
            .unwrap_or(usize::MAX)
    };
    assert!(place("B") < place("A"), "{texts:?}");
    assert!(place("A") < place("C"), "{texts:?}");
}

#[test]
fn previews_wrap_between_words() {
    let unheard = |_: InspectorProgress| Ok(());
    let rows = wrap_preview("one two three", 7, &mut Outlet::new(never, unheard)).unwrap();
    assert_eq!(rows, ["one two", "three"]);
    assert_eq!(
        wrap_preview("one two three", 7, &mut Outlet::new(|| true, unheard)).unwrap_err(),
        VisualizeError::Cancelled
    );
}

fn indexed(module_index: usize, start: f64, end: f64) -> IndexedLine2d {
    IndexedLine2d {
        module_index,
        line: StyledLine2d {
            line: line(start, 0.0, end, 0.0),
            width: number(1.0),
            color: StrokeColor::ThemeDefault,
        },
    }
}

fn line(x0: f64, y0: f64, x1: f64, y1: f64) -> Line2d {
    Line2d((number(x0), number(y0)), (number(x1), number(y1)))
}

fn positions(values: &[(f64, f64)]) -> Vec<IndexedModulePosition2d> {
    values
        .iter()
        .enumerate()
        .map(|(module_index, position)| IndexedModulePosition2d {
            module_index,
            position: (number(position.0), number(position.1)),
        })
        .collect()
}

fn indexed_geometry(
    generation: &Generation,
) -> (Vec<IndexedLine2d>, Vec<IndexedModulePosition2d>) {
    let lines = RefCell::new(Vec::new());
    let positions = RefCell::new(Vec::new());
    stream_turtle_2d(
        Turtle2dStreamRequest {
            generation,
            config: Turtle2dConfig::default(),
            batch_size: 8,
        },
        &mut Outlet::new(&never, |batch: Turtle2dBatch| {
            lines.borrow_mut().extend(
                batch
                    .lines
                    .into_iter()
                    .zip(batch.module_indices)
                    .map(|(line, module_index)| IndexedLine2d { module_index, line }),
            );
            positions.borrow_mut().extend(batch.module_positions);
            Ok(())
        }),
        &calc,
    )
    .unwrap();
    (lines.into_inner(), positions.into_inner())
}

#[test]
fn subdivides_parent_in_descendant_order() {
    let lineage = RewriteLineage::new(vec![3]);
    let morphs = build_line_transition(
        &[indexed(0, 0.0, 3.0)],
        &positions(&[(0.0, 0.0)]),
        &[
            indexed(0, 0.0, 1.0),
            indexed(1, 1.0, 2.0),
            indexed(2, 2.0, 3.0),
        ],
        &lineage,
        false,
        &calc,
    )
    .unwrap();
    assert_eq!(morphs.len(), 3);
    assert_eq!(morphs[0].source.line, line(0.0, 0.0, 1.0, 0.0));
    assert_eq!(morphs[2].source.line, line(2.0, 0.0, 3.0, 0.0));
}

#[test]
fn deletion_collapses_and_reverse_grows() {
    let lineage = RewriteLineage::new(vec![0]);
    let source_positions = positions(&[(0.0, 0.0)]);
    let forward = build_line_transition(
        &[indexed(0, 0.0, 2.0)],
        &source_positions,
        &[],
        &lineage,
        false,
        &calc,
    )
    .unwrap();
    assert_eq!(forward[0].target.line, line(1.0, 0.0, 1.0, 0.0));
    assert_eq!(forward[0].target_space, MorphCoordinateSpace::Source);
    assert_eq!(float(forward[0].target_opacity), 0.0);
    let reverse = build_line_transition(
        &[indexed(0, 0.0, 2.0)],
        &source_positions,
        &[],
        &lineage,
        true,
        &calc,
    )
    .unwrap();
    assert_eq!(float(reverse[0].source_opacity), 0.0);
    assert_eq!(reverse[0].source_space, MorphCoordinateSpace::Target);
    assert_eq!(reverse[0].target.line, line(0.0, 0.0, 2.0, 0.0));
}

#[test]
fn non_drawing_parent_grows_drawing_descendant() {
    let lineage = RewriteLineage::new(vec![1]);
    let morphs = build_line_transition(
        &[],
        &positions(&[(2.0, 3.0)]),
        &[indexed(0, 4.0, 5.0)],
        &lineage,
        false,
        &calc,
    )
    .unwrap();
    assert_eq!(morphs[0].source.line, line(2.0, 3.0, 2.0, 3.0));
    assert_eq!(morphs[0].source_space, MorphCoordinateSpace::Source);
    assert_eq!(morphs[0].target_space, MorphCoordinateSpace::Target);
    assert_eq!(float(morphs[0].source_opacity), 0.0);
}

/// Rewrite the modules of a plane-filling curve once.
fn hilbert_step(names: &[&'static str]) -> (Vec<&'static str>, Vec<usize>) {
    let mut next = Vec::new();
    let mut successors = Vec::new();
    for &name in names {
        let before = next.len();
        match name {
            "L" => next.extend([
                "Left", "R", "Draw", "Right", "L", "Draw", "L", "Right", "Draw", "R", "Left",
            ]),
            "R" => next.extend([
                "Right", "L", "Draw", "Left", "R", "Draw", "R", "Left", "Draw", "L", "Right",
            ]),
            other => next.push(other),
        }
        successors.push(next.len() - before);
    }
    (next, successors)
}

fn generation_of(names: &[&'static str]) -> Generation {
    Generation(names.iter().map(|name| module(name)).collect())
}

#[test]
fn hilbert_descendants_grow_from_their_invisible_parents_source_positions() {
    let (source_names, _) = hilbert_step(&["L"]);
    let (target_names, successors) = hilbert_step(&source_names);
    let lineage = RewriteLineage::new(successors);
    let (source_lines, source_positions) = indexed_geometry(&generation_of(&source_names));
    let (target_lines, _) = indexed_geometry(&generation_of(&target_names));

    let morphs = build_line_transition(
        &source_lines,
        &source_positions,
        &target_lines,
        &lineage,
        false,
        &calc,
    )
    .unwrap();
    assert_eq!(source_lines.len(), 3);
    assert_eq!(target_lines.len(), 15);
    assert_eq!(morphs.len(), 15);

    let born = morphs
        .iter()
        .filter(|morph| float(morph.source_opacity) == 0.0)
        .collect::<Vec<_>>();
    assert_eq!(born.len(), 12);
    assert!(born.iter().all(|morph| {
        morph.source.line.0 == morph.source.line.1
            && morph.source_space == MorphCoordinateSpace::Source
            && morph.target_space == MorphCoordinateSpace::Target
    }));
    assert!(
        born.iter()
            .any(|morph| morph.source.line.0 != morph.target.line.0),
        "the regression would put target coordinates through the source fit"
    );
}

#[test]
fn a_transition_the_other_way_swaps_its_sides() {
    let lineage = RewriteLineage::new(vec![2]);
    let build = |reverse: bool| -> Vec<MorphLine2d> {
        build_line_transition(
            &[indexed(0, 0.0, 4.0)],
            &positions(&[(0.0, 0.0)]),
            &[indexed(0, 0.0, 1.0), indexed(1, 1.0, 2.0)],
            &lineage,
            reverse,
            &calc,
        )
        .unwrap()
    };
    let forward = build(false);
    let reverse = build(true);
    assert_eq!(forward.len(), reverse.len());
    for (there, back) in forward.into_iter().zip(reverse) {
        assert_eq!(there.reversed(), back);
        assert_eq!(back.reversed(), there);
    }
}

#[test]
fn values_other_than_numbers_are_no_numbers() {
    let text = Module::new("F", vec![Value::Text(String::from("wide"))]);
    assert_eq!(text.number(), None);
    let sized = Module::new("F", vec![Value::Number(number(2.0))]);
    assert_eq!(sized.number(), Some(number(2.0)));
}

#[test]
fn inspection_reports_come_in_order_and_each_once() {
    let generation = Generation(vec![
        module("A"),
        GenerationItem::Branch(Generation(vec![module("B")])),
        module("A"),
    ]);
    let progress = RefCell::new(Vec::new());
    inspect(&generation, 3, &never, |update| {
        progress.borrow_mut().push((
            update.phase,
            update.items_processed,
            update.modules,
            update.preview_bytes,
        ));
        Ok(())
    })
    .unwrap();
    assert_eq!(
        progress.into_inner(),
        [
            (InspectorPhase::Statistics, 3, 2, 0),
            (InspectorPhase::Statistics, 4, 3, 0),
            (InspectorPhase::Preview, 4, 3, "A [ B".len()),
            (InspectorPhase::Preview, 4, 3, "A [ B ] A".len()),
            (InspectorPhase::Complete, 4, 3, "A [ B ] A".len()),
        ]
    );
}

#[test]
fn an_inspection_ends_with_the_first_yes() {
    let generation = Generation(vec![module("A"), module("B"), module("A")]);
    let run = |limit: usize| {
        let asked = Cell::new(0usize);
        let late = Cell::new(false);
        let result = inspect(
            &generation,
            1,
            &|| {
                asked.set(asked.get() + 1);
                asked.get() > limit
            },
            |_| {
                late.set(late.get() || asked.get() > limit);
                Ok(())
            },
        );
        assert!(!late.get());
        (result.is_ok(), asked.get())
    };
    let (complete, all) = run(usize::MAX);
    assert!(complete);
    for limit in 0..all {
        assert_eq!(run(limit), (false, limit + 1));
    }
}

#[test]
fn kinds_are_read_by_their_exact_names() {
    assert_eq!(
        "turtle_2d".parse::<VisualizerKind>(),
        Ok(VisualizerKind::Turtle2d)
    );
    assert!("Turtle_2d".parse::<VisualizerKind>().is_err());
    assert!("".parse::<VisualizerKind>().is_err());
}
