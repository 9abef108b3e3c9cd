//! Turtles in space: what they draw, in which batches, and how wide.

use std::cell::{Cell, RefCell};

use braken_viz::visualize::visualize_turtle_3d;
use braken_viz::{
    normalized_turtle_3d_width, stream_turtle_3d, Arithmetic, Generation, GenerationItem, Module,
    Outlet, Point3d, Polygon3d, Primitive3d, Real, Scene3d, StrokeColor, StyledLine3d, Turtle3dBatch,
    Turtle3dConfig, Turtle3dPrimitiveKind, Turtle3dStreamRequest, Turtle3dStreamSummary,
    Turtle3dWidthReferenceEstimator, Value, VisualizeError, VisualizerBackend,
};

fn number(value: f64) -> Real {
    Real::from_bits(value.to_bits())
}

fn float(value: Real) -> f64 {
    f64::from_bits(value.to_bits())
}

fn calc(op: Arithmetic) -> Real {
    number(match op {
        Arithmetic::Sum(a, b) => float(a) + float(b),
        Arithmetic::Difference(a, b) => float(a) - float(b),
        Arithmetic::Product(a, b) => float(a) * float(b),
        Arithmetic::Quotient(a, b) => float(a) / float(b),
        Arithmetic::Reciprocal(a) => 1.0 / float(a),
        Arithmetic::Radians(a) => float(a).to_radians(),
        Arithmetic::Cosine(a) => float(a).cos(),
        Arithmetic::Sine(a) => float(a).sin(),
        Arithmetic::ArcTangent(a) => float(a).atan(),
        Arithmetic::SquareRoot(a) => float(a).sqrt(),
        Arithmetic::Hypotenuse(a, b) => float(a).hypot(float(b)),
        Arithmetic::Rounded(a) => float(a).round(),
        Arithmetic::Ceiling(a) => float(a).ceil(),
        Arithmetic::Widened(bits) => f64::from(f32::from_bits(bits)),
        Arithmetic::Narrowed(a) => f64::from(float(a) as f32),
        Arithmetic::Count(n) => n as f64,
        Arithmetic::Integer(n) => n as f64,
    })
}

fn module(name: &str) -> GenerationItem {
    GenerationItem::Module(Module::new(name, Vec::new()))
}

fn numeric_module(name: &str, value: f64) -> GenerationItem {
    GenerationItem::Module(Module::new(name, vec![Value::Number(number(value))]))
}

fn branch(items: Vec<GenerationItem>) -> GenerationItem {
    GenerationItem::Branch(Generation(items))
}

fn never() -> bool {
    false
}

fn place(point: Point3d) -> (f64, f64, f64) {
    (float(point.0), float(point.1), float(point.2))
}

fn assert_point_near(actual: Point3d, expected: (f64, f64, f64)) {
    let actual = place(actual);
    assert!((actual.0 - expected.0).abs() < 1.0e-10, "{actual:?} != {expected:?}");
    assert!((actual.1 - expected.1).abs() < 1.0e-10, "{actual:?} != {expected:?}");
    assert!((actual.2 - expected.2).abs() < 1.0e-10, "{actual:?} != {expected:?}");
}

fn level() -> Turtle3dConfig {
    let mut config = Turtle3dConfig::default();
    config.turtle.initial_angle = number(0.0);
    config
}

fn scene_lines(scene: &Scene3d) -> Vec<StyledLine3d> {
    scene
        .primitives
        .iter()
        .filter_map(|primitive| match primitive {
            Primitive3d::Line(line) => Some(*line),
            Primitive3d::Polygon(_) => None,
        })
        .collect()
}

fn collect_stream(
    generation: &Generation,
    config: Turtle3dConfig,
    batch_size: usize,
) -> (Vec<StyledLine3d>, Vec<Polygon3d>, Turtle3dStreamSummary) {
    let lines = RefCell::new(Vec::new());
    let polygons = RefCell::new(Vec::new());
    let summary = stream_turtle_3d(
        Turtle3dStreamRequest {
            generation,
            config,
            batch_size,
        },
        &mut Outlet::new(&never, |batch: Turtle3dBatch| {
            lines.borrow_mut().extend(batch.lines);
            polygons.borrow_mut().extend(batch.polygons);
            Ok(())
        }),
        &calc,
    )
    .unwrap();
    (lines.into_inner(), polygons.into_inner(), summary)
}

fn collect_ordered_primitives(
    generation: &Generation,
    config: Turtle3dConfig,
    batch_size: usize,
) -> (Vec<Primitive3d>, Turtle3dStreamSummary) {
    let primitives = RefCell::new(Vec::new());
    let summary = stream_turtle_3d(
        Turtle3dStreamRequest {
            generation,
            config,
            batch_size,
        },
        &mut Outlet::new(&never, |batch: Turtle3dBatch| {
            let mut lines = batch.lines.into_iter();
            let mut polygons = batch.polygons.into_iter();
            for kind in batch.primitive_order {
                primitives.borrow_mut().push(match kind {
                    Turtle3dPrimitiveKind::Line => Primitive3d::Line(lines.next().unwrap()),
                    Turtle3dPrimitiveKind::Polygon => {
                        Primitive3d::Polygon(polygons.next().unwrap())
                    }
                });
            }
            assert!(lines.next().is_none());
            assert!(polygons.next().is_none());
            Ok(())
        }),
        &calc,
    )
    .unwrap();
    (primitives.into_inner(), summary)
}

#[test]
fn pitch_retains_depth_and_branches_restore_the_full_turtle_state() {
    let generation = Generation(vec![
        module("F"),
        branch(vec![
            module("PitchUp"),
            numeric_module("Scale", 2.0),
            numeric_module("Width", 4.0),
            module("InvertTurns"),
            module("F"),
        ]),
        module("F"),
    ]);
    let scene = visualize_turtle_3d(&generation, &level().turtle, &calc).unwrap();
    let lines = scene_lines(&scene);

    assert_eq!(lines.len(), 3);
    assert_point_near(lines[0].line.0, (0.0, 0.0, 0.0));
    assert_point_near(lines[0].line.1, (1.0, 0.0, 0.0));
    assert_point_near(lines[1].line.0, (1.0, 0.0, 0.0));
    assert_point_near(lines[1].line.1, (1.0, 0.0, 2.0));
    assert_eq!(float(lines[1].width), 4.0);
    assert_point_near(lines[2].line.0, (1.0, 0.0, 0.0));
    assert_point_near(lines[2].line.1, (2.0, 0.0, 0.0));
    assert_eq!(float(lines[2].width), 1.0);
    assert_eq!(lines[2].color, StrokeColor::ThemeDefault);
}

#[test]
fn yaw_pitch_roll_turnaround_and_planar_aliases_have_xyz_semantics() {
    let generation = Generation(vec![
        branch(vec![module("Plus"), module("F")]),
        branch(vec![module("PitchUp"), module("F")]),
        branch(vec![module("RollLeft"), module("Plus"), module("F")]),
        branch(vec![module("Around"), module("F")]),
        branch(vec![module("Left"), module("F")]),
        branch(vec![module("Right"), module("F")]),
        branch(vec![module("Turn"), module("F")]),
    ]);
    let scene = visualize_turtle_3d(&generation, &level().turtle, &calc).unwrap();
    let endpoints = scene_lines(&scene)
        .into_iter()
        .map(|line| line.line.1)
        .collect::<Vec<_>>();

    assert_eq!(endpoints.len(), 7);
    assert_point_near(endpoints[0], (0.0, 1.0, 0.0));
    assert_point_near(endpoints[1], (0.0, 0.0, 1.0));
    assert_point_near(endpoints[2], (0.0, 0.0, 1.0));
    assert_point_near(endpoints[3], (-1.0, 0.0, 0.0));
    assert_point_near(endpoints[4], (0.0, 1.0, 0.0));
    assert_point_near(endpoints[5], (0.0, -1.0, 0.0));
    assert_point_near(endpoints[6], (0.0, 1.0, 0.0));
}

#[test]
fn streaming_is_bounded_reports_progress_only_batches_and_xyz_bounds() {
    let generation = Generation(vec![
        module("Move"),
        module("Plus"),
        module("Move"),
        module("F"),
        module("F"),
    ]);
    let batch_line_counts = RefCell::new(Vec::new());
    let lines = RefCell::new(Vec::new());
    let summary = stream_turtle_3d(
        Turtle3dStreamRequest {
            generation: &generation,
            config: level(),
            batch_size: 2,
        },
        &mut Outlet::new(&never, |batch: Turtle3dBatch| {
            batch_line_counts.borrow_mut().push(batch.lines.len());
            lines.borrow_mut().extend(batch.lines);
            Ok(())
        }),
        &calc,
    )
    .unwrap();

    assert_eq!(batch_line_counts.into_inner(), [0, 1, 1]);
    assert_eq!(summary.progress.items_processed, 5);
    assert_eq!(summary.progress.modules_processed, 5);
    assert_eq!(summary.progress.lines_emitted, 2);
    assert_eq!(summary.backend_used, VisualizerBackend::Cpu);
    let bounds = summary.bounds.unwrap();
    assert_eq!(place(bounds.min), (1.0, 1.0, 0.0));
    assert_eq!(place(bounds.max), (1.0, 3.0, 0.0));
    assert_eq!(lines.into_inner().len(), 2);
}

#[test]
fn batch_size_does_not_change_geometry_or_progress() {
    let generation = Generation(vec![
        module("F"),
        branch(vec![module("PitchUp"), module("F"), module("Dot")]),
        module("Plus"),
        module("F"),
    ]);
    let expected = collect_stream(&generation, level(), 64);

    for batch_size in [1, 2, 3, 5] {
        assert_eq!(
            collect_stream(&generation, level(), batch_size),
            expected,
            "batch size {batch_size}"
        );
    }
}

#[test]
fn batch_size_does_not_change_mixed_primitive_order() {
    let generation = Generation(vec![
        module("F"),
        module("PolygonBegin"),
        module("Vertex"),
        module("Vertex"),
        module("Vertex"),
        module("PolygonEnd"),
        module("F"),
    ]);
    let expected = collect_ordered_primitives(&generation, level(), 64);

    assert!(matches!(
        expected.0.as_slice(),
        [
            Primitive3d::Line(_),
            Primitive3d::Polygon(_),
            Primitive3d::Line(_)
        ]
    ));
    for batch_size in [1, 2, 3, 5] {
        assert_eq!(
            collect_ordered_primitives(&generation, level(), batch_size),
            expected,
            "batch size {batch_size}"
        );
    }

    let scene = visualize_turtle_3d(&generation, &level().turtle, &calc).unwrap();
    assert_eq!(scene.primitives, expected.0);
}

#[test]
fn polygon_only_batches_contribute_raw_xyz_bounds() {
    let generation = Generation(vec![
        module("PolygonBegin"),
        module("Vertex"),
        module("PitchUp"),
        module("Move"),
        module("Vertex"),
        module("Plus"),
        module("Move"),
        module("Vertex"),
        module("PolygonEnd"),
    ]);
    let (lines, polygons, summary) = collect_stream(&generation, level(), 4);

    assert!(lines.is_empty());
    assert_eq!(polygons.len(), 1);
    for (actual, expected) in polygons[0].vertices.iter().copied().zip([
        (0.0, 0.0, 0.0),
        (0.0, 0.0, 1.0),
        (0.0, 1.0, 1.0),
    ]) {
        assert_point_near(actual, expected);
    }
    let bounds = summary.bounds.unwrap();
    assert_point_near(bounds.min, (0.0, 0.0, 0.0));
    assert_point_near(bounds.max, (0.0, 1.0, 1.0));
    assert_eq!(summary.progress.polygons_emitted, 1);
}

#[test]
fn abop_forward_moves_trace_spatial_polygon_edges() {
    let generation = Generation(vec![
        module("PolygonBegin"),
        module("F"),
        module("PitchUp"),
        module("f"),
        module("Plus"),
        module("F"),
        module("PolygonEnd"),
    ]);
    let (lines, polygons, summary) = collect_stream(&generation, level(), 16);

    assert_eq!(lines.len(), 2);
    assert_eq!(polygons.len(), 1);
    assert_eq!(polygons[0].vertices.len(), 4);
    assert_point_near(polygons[0].vertices[0], (0.0, 0.0, 0.0));
    assert_eq!(summary.progress.polygons_emitted, 1);
}

#[test]
fn cancellation_drops_an_unflushed_batch() {
    let generation = Generation(vec![module("F"), module("F"), module("F")]);
    let calls = Cell::new(0usize);
    let emitted = Cell::new(0usize);
    let result = stream_turtle_3d(
        Turtle3dStreamRequest {
            generation: &generation,
            config: Turtle3dConfig::default(),
            batch_size: 10,
        },
        &mut Outlet::new(&|| {
                let next = calls.get() + 1;
                calls.set(next);
                next >= 4
            }, |_: Turtle3dBatch| {
            emitted.set(emitted.get() + 1);
            Ok(())
        }),
        &calc,
    );

    assert_eq!(result, Err(VisualizeError::Cancelled));
    assert_eq!(emitted.get(), 0);
}

#[test]
fn rejects_a_zero_batch_size() {
    let error = stream_turtle_3d(
        Turtle3dStreamRequest {
            generation: &Generation(Vec::new()),
            config: Turtle3dConfig::default(),
            batch_size: 0,
        },
        &mut Outlet::new(&never, |_: Turtle3dBatch| Ok(())),
        &calc,
    )
    .unwrap_err();

    assert!(matches!(error, VisualizeError::InvalidConfiguration(_)));
}

#[test]
fn turtle_3d_impossible_batch_allocation_is_a_typed_resource_error() {
    let generation = Generation::default();
    let error = stream_turtle_3d(
        Turtle3dStreamRequest {
            generation: &generation,
            config: Turtle3dConfig::default(),
            batch_size: usize::MAX,
        },
        &mut Outlet::new(&never, |_: Turtle3dBatch| Ok(())),
        &calc,
    )
    .unwrap_err();

    assert!(matches!(
        error,
        VisualizeError::ResourceExhausted {
            resource: "turtle_3d line batch",
            requested: Some(usize::MAX),
        }
    ));
}

#[test]
fn explicit_stack_handles_deep_branches() {
    const DEPTH: usize = 5_000;
    let mut generation = Generation(vec![module("F")]);
    for _ in 0..DEPTH {
        generation = Generation(vec![GenerationItem::Branch(generation)]);
    }

    let (lines, _, summary) = collect_stream(&generation, Turtle3dConfig::default(), 8);
    assert_eq!(lines.len(), 1);
    assert_eq!(summary.progress.branches_entered, DEPTH);
    assert_eq!(summary.progress.max_branch_depth, DEPTH);

    // Generation itself has recursive drop semantics; avoid involving that
    // unrelated recursion in this traversal test.
    std::mem::forget(generation);
}

/// The letters of the space-filling curve after some rewritings, from one.
fn hilbert_letters(iterations: usize) -> String {
    let mut letters = String::from("A");
    for _ in 0..iterations {
        letters = letters
            .chars()
            .map(|letter| match letter {
                'A' => String::from("B-F+CFC+F-D&F^D-F+&&CFC+F+B//"),
                'B' => String::from("A&F^CFB^F^D^^-F-D^|F^B|FC^F^A//"),
                'C' => String::from("|D^|F^B-F+C^F^A&&FA&F^C+F+B^F^D//"),
                'D' => String::from("|CFB-F+B|FA&F^A&&FB-F+B|FC//"),
                other => other.to_string(),
            })
            .collect();
    }
    letters
}

#[test]
fn abop_hilbert_retains_all_three_axes() {
    let generation = Generation(
        hilbert_letters(2)
            .chars()
            .filter_map(|letter| match letter {
                'F' => Some("F"),
                '+' => Some("Plus"),
                '-' => Some("Minus"),
                '&' => Some("PitchDown"),
                '^' => Some("PitchUp"),
                '/' => Some("RollRight"),
                '|' => Some("TurnAround"),
                _ => None,
            })
            .map(module)
            .collect(),
    );
    let lines = RefCell::new(Vec::new());
    let summary = stream_turtle_3d(
        Turtle3dStreamRequest {
            generation: &generation,
            config: Turtle3dConfig::default(),
            batch_size: 7,
        },
        &mut Outlet::new(&never, |batch: Turtle3dBatch| {
            lines.borrow_mut().extend(batch.lines);
            Ok(())
        }),
        &calc,
    )
    .unwrap();
    let lines: Vec<StyledLine3d> = lines.into_inner();

    assert_eq!(lines.len(), 63);
    assert_eq!(summary.progress.lines_emitted, 63);
    assert_eq!(float(summary.width_reference), 1.0);
    let bounds = summary.bounds.unwrap();
    let (min, max) = (place(bounds.min), place(bounds.max));
    assert!(max.0 - min.0 > 0.5, "{bounds:?}");
    assert!(max.1 - min.1 > 0.5, "{bounds:?}");
    assert!(max.2 - min.2 > 0.5, "{bounds:?}");
    for line in lines {
        let (start, end) = (place(line.line.0), place(line.line.1));
        let changed_axes = [
            (end.0 - start.0).abs(),
            (end.1 - start.1).abs(),
            (end.2 - start.2).abs(),
        ]
        .into_iter()
        .filter(|delta| *delta > 1.0e-10)
        .count();
        assert_eq!(changed_axes, 1, "non-axis-aligned segment: {:?}", line.line);
    }
}

#[test]
fn spatial_width_reference_is_length_weighted_and_bounds_display_multipliers() {
    let generation = Generation(vec![
        numeric_module("Width", 78.0),
        numeric_module("F", 1.0),
        numeric_module("Width", 93.0),
        numeric_module("F", 3.0),
    ]);
    let (_, _, summary) = collect_stream(&generation, Turtle3dConfig::default(), 2);
    let normalized =
        |width: f64| float(normalized_turtle_3d_width(number(width), summary.width_reference, &calc));

    let expected = (78.0 * 1.0 + 93.0 * 3.0) / 4.0;
    assert!((float(summary.width_reference) - expected).abs() < 1.0e-12);
    assert!((normalized(78.0) - 78.0 / expected).abs() < 1.0e-12);
    assert!((normalized(93.0) - 93.0 / expected).abs() < 1.0e-12);
    assert_eq!(normalized(10_000.0), 3.0);

    let mut huge = Turtle3dWidthReferenceEstimator::default();
    huge.observe(number(f64::MAX), number(1.0), &calc);
    huge.observe(number(f64::MAX), number(3.0), &calc);
    huge.observe(number(f64::MAX), number(5.0), &calc);
    assert_eq!(float(huge.width_reference()), 3.0);
}

#[test]
fn a_cut_ends_its_branch_only() {
    let generation = Generation(vec![
        branch(vec![module("F"), module("Cut"), module("F")]),
        module("F"),
    ]);
    let (lines, _, summary) = collect_stream(&generation, level(), 4);
    assert_eq!(lines.len(), 2);
    assert_point_near(lines[1].line.0, (0.0, 0.0, 0.0));
    assert_eq!(summary.progress.active_branch_depth, 0);
}

#[test]
fn spatial_widths_that_are_negative_are_refused() {
    let generation = Generation(vec![numeric_module("Width", -1.0)]);
    assert!(matches!(
        visualize_turtle_3d(&generation, &level().turtle, &calc),
        Err(VisualizeError::InvalidConfiguration(_))
    ));
}

#[test]
fn every_spatial_batch_names_each_primitive_once() {
    let generation = Generation(vec![
        module("F"),
        module("PolygonBegin"),
        module("Vertex"),
        module("Move"),
        module("Vertex"),
        module("Plus"),
        module("Move"),
        module("Vertex"),
        module("PolygonEnd"),
        module("F"),
    ]);
    let batches = RefCell::new(Vec::new());
    stream_turtle_3d(
        Turtle3dStreamRequest {
            generation: &generation,
            config: Turtle3dConfig::default(),
            batch_size: 4,
        },
        &mut Outlet::new(never, |batch: Turtle3dBatch| {
            batches.borrow_mut().push(batch);
            Ok(())
        }),
        &calc,
    )
    .unwrap();
    let batches = batches.into_inner();
    assert_eq!(batches.len(), 3);
    for batch in &batches {
        let named = batch
            .primitive_order
            .iter()
            .filter(|kind| matches!(kind, Turtle3dPrimitiveKind::Line))
            .count();
        assert_eq!(named, batch.lines.len());
        assert_eq!(
            batch.primitive_order.len(),
            batch.lines.len() + batch.polygons.len()
        );
        assert!(batch.lines.len() <= 4);
    }
    assert_eq!(
        batches
            .iter()
            .map(|batch| batch.progress.items_processed)
            .collect::<Vec<_>>(),
        [4, 8, 10]
    );
    assert_eq!(batches[2].polygons.len(), 1);
}

#[test]
fn a_spatial_stream_hears_no_more_after_a_yes() {
    let generation = Generation((0..5).map(|_| module("F")).collect());
    for limit in 0..9 {
        let asked = Cell::new(0usize);
        let late = Cell::new(false);
        let result = stream_turtle_3d(
            Turtle3dStreamRequest {
                generation: &generation,
                config: Turtle3dConfig::default(),
                batch_size: 2,
            },
            &mut Outlet::new(
                || {
                    asked.set(asked.get() + 1);
                    asked.get() > limit
                },
                |_: Turtle3dBatch| {
                    late.set(asked.get() > limit);
                    Ok(())
                },
            ),
            &calc,
        );
        assert_eq!(result, Err(VisualizeError::Cancelled));
        assert_eq!(asked.get(), limit + 1);
        assert!(!late.get());
    }
}
