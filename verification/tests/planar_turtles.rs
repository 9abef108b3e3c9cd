//! Turtles on the plane: what they draw, in which batches, and what stops
//! them.

use std::cell::{Cell, RefCell};

use braken_viz::action::follow_aliases;
use braken_viz::config::parse_rgb;
use braken_viz::palette::rgb_hex;
use braken_viz::stream_2d::Turtle2dTraversal;
use braken_viz::svg;
use braken_viz::turtle_2d::{classify_module, TurtleOp};
use braken_viz::visualize::visualize_turtle_2d;
use braken_viz::{
    stream_turtle_2d, Arithmetic, Generation, GenerationItem, Line2d, Module, Outlet, Palette,
    Primitive2d, Real, Scene2d, StrokeColor, StyledLine2d, Turtle2dBatch, Turtle2dConfig,
    Turtle2dStreamRequest, Turtle2dStreamSummary, Turtle2dStreamer, Value, VisualizeError, VisualizerBackend,
};

fn number(value: f64) -> Real {
    Real::from_bits(value.to_bits())
}

fn float(value: Real) -> f64 {
    f64::from_bits(value.to_bits())
}

fn calc(op: Arithmetic) -> Real {
    number(match op {
        Arithmetic::Sum(a, b) => float(a) + float(b),
        Arithmetic::Difference(a, b) => float(a) - float(b),
        Arithmetic::Product(a, b) => float(a) * float(b),
        Arithmetic::Quotient(a, b) => float(a) / float(b),
        Arithmetic::Reciprocal(a) => 1.0 / float(a),
        Arithmetic::Radians(a) => float(a).to_radians(),
        Arithmetic::Cosine(a) => float(a).cos(),
        Arithmetic::Sine(a) => float(a).sin(),
        Arithmetic::ArcTangent(a) => float(a).atan(),
        Arithmetic::SquareRoot(a) => float(a).sqrt(),
        Arithmetic::Hypotenuse(a, b) => float(a).hypot(float(b)),
        Arithmetic::Rounded(a) => float(a).round(),
        Arithmetic::Ceiling(a) => float(a).ceil(),
        Arithmetic::Widened(bits) => f64::from(f32::from_bits(bits)),
        Arithmetic::Narrowed(a) => f64::from(float(a) as f32),
        Arithmetic::Count(n) => n as f64,
        Arithmetic::Integer(n) => n as f64,
    })
}

fn scribe(value: Real) -> String {
    format!("{}", float(value))
}

fn read(text: String) -> Option<Real> {
    text.parse::<f64>().ok().map(number)
}

fn module(name: &str) -> GenerationItem {
    GenerationItem::Module(Module::new(name, Vec::new()))
}

fn numeric_module(name: &str, value: f64) -> GenerationItem {
    GenerationItem::Module(Module::new(name, vec![Value::Number(number(value))]))
}

fn branch(items: Vec<GenerationItem>) -> GenerationItem {
    GenerationItem::Branch(Generation(items))
}

fn ends(line: Line2d) -> ((f64, f64), (f64, f64)) {
    (
        (float(line.0 .0), float(line.0 .1)),
        (float(line.1 .0), float(line.1 .1)),
    )
}

fn styled_lines(scene: &Scene2d) -> Vec<StyledLine2d> {
    scene
        .primitives
        .iter()
        .filter_map(|primitive| match primitive {
            Primitive2d::Line(line) => Some(*line),
            _ => None,
        })
        .collect()
}

fn lines_of(scene: &Scene2d) -> Vec<((f64, f64), (f64, f64))> {
    styled_lines(scene)
        .into_iter()
        .map(|line| ends(line.line))
        .collect()
}

fn polygon_of(scene: &Scene2d) -> Vec<(f64, f64)> {
    scene
        .primitives
        .iter()
        .find_map(|primitive| match primitive {
            Primitive2d::Polygon(polygon) => Some(
                polygon
                    .vertices
                    .iter()
                    .map(|vertex| (float(vertex.0), float(vertex.1)))
                    .collect::<Vec<_>>(),
            ),
            _ => None,
        })
        .expect("polygon emitted")
}

fn never() -> bool {
    false
}

fn collect_stream(
    generation: &Generation,
    config: Turtle2dConfig,
    batch_size: usize,
) -> (Vec<StyledLine2d>, Turtle2dStreamSummary, Vec<usize>) {
    let lines = RefCell::new(Vec::new());
    let batch_lengths = RefCell::new(Vec::new());
    let summary = stream_turtle_2d(
        Turtle2dStreamRequest {
            generation,
            config,
            batch_size,
        },
        &mut Outlet::new(&never, |batch: Turtle2dBatch| {
            batch_lengths.borrow_mut().push(batch.lines.len());
            lines.borrow_mut().extend(batch.lines);
            Ok(())
        }),
        &calc,
    )
    .unwrap();
    (lines.into_inner(), summary, batch_lengths.into_inner())
}

#[test]
fn draws_and_restores_branches() {
    let generation = Generation(vec![module("F"), branch(vec![module("F")]), module("F")]);
    let output = visualize_turtle_2d(&generation, &Turtle2dConfig::default(), &calc).unwrap();
    let lines = lines_of(&output);
    assert_eq!(lines.len(), 3);
    assert_eq!(lines[1].0, lines[2].0);
}

#[test]
fn emitted_lines_retain_depth_first_module_indices_through_branches_and_aliases() {
    let generation = Generation(vec![
        module("F"),
        module("TurnLeft"),
        branch(vec![module("Move"), module("F")]),
        module("X"),
    ]);
    let mut config = Turtle2dConfig::default();
    config
        .module_aliases
        .push((String::from("X"), String::from("F")));
    let indices = RefCell::new(Vec::new());
    let positions = RefCell::new(Vec::new());
    stream_turtle_2d(
        Turtle2dStreamRequest {
            generation: &generation,
            config,
            batch_size: 2,
        },
        &mut Outlet::new(&never, |batch: Turtle2dBatch| {
            assert_eq!(batch.lines.len(), batch.module_indices.len());
            indices.borrow_mut().extend(batch.module_indices);
            positions.borrow_mut().extend(batch.module_positions);
            Ok(())
        }),
        &calc,
    )
    .unwrap();
    assert_eq!(indices.into_inner(), [0, 3, 4]);
    assert_eq!(
        positions
            .into_inner()
            .iter()
            .map(|position| position.module_index)
            .collect::<Vec<_>>(),
        [0, 1, 2, 3, 4]
    );
}

#[test]
fn source_metadata_configures_heading_and_module_roles() {
    let config = Turtle2dConfig::default().with_source_metadata(
        "# Heading  : 0\n# Initial Width: 2.5\n# Width Increment: 0.25\n# Draw     : X Y\n# Move     : Z",
        &calc,
        &read,
    );
    assert_eq!(float(config.initial_angle), 0.0);
    assert_eq!(float(config.initial_width), 2.5);
    assert_eq!(float(config.width_increment), 0.25);
    assert_eq!(config.draw_modules, ["X", "Y"]);
    assert_eq!(config.move_modules, ["Z"]);

    let generation = Generation(vec![module("X"), module("Plus"), module("Z"), module("Y")]);
    let scene = visualize_turtle_2d(&generation, &config, &calc).unwrap();
    let lines = lines_of(&scene);
    assert_eq!(lines.len(), 2);
    assert_eq!(lines[0], ((0.0, 0.0), (1.0, 0.0)));
    assert!((lines[1].0 .0 - 1.0).abs() < 1.0e-10);
    assert!((lines[1].0 .1 - 1.0).abs() < 1.0e-10);
}

#[test]
fn normalized_scaling_and_inverted_turns_affect_geometry() {
    let generation = Generation(vec![
        numeric_module("ScaleLength", 2.0),
        module("F"),
        module("InvertTurns"),
        module("Plus"),
        module("F"),
    ]);
    let config = Turtle2dConfig {
        initial_angle: number(0.0),
        ..Turtle2dConfig::default()
    };
    let scene = visualize_turtle_2d(&generation, &config, &calc).unwrap();
    let lines = lines_of(&scene);
    assert_eq!(lines[0], ((0.0, 0.0), (2.0, 0.0)));
    assert!((lines[1].1 .0 - 2.0).abs() < 1.0e-10);
    assert!((lines[1].1 .1 + 2.0).abs() < 1.0e-10);
}

#[test]
fn width_commands_style_lines_and_restore_across_branches() {
    let generation = Generation(vec![
        numeric_module("Width", 2.0),
        module("F"),
        module("WidthIncrease"),
        module("F"),
        branch(vec![module("WidthDecrease"), module("F")]),
        module("F"),
        numeric_module("WidthIncrease", 5.0),
        module("F"),
        numeric_module("WidthDecrease", 0.5),
        module("F"),
    ]);
    let scene = visualize_turtle_2d(&generation, &Turtle2dConfig::default(), &calc).unwrap();
    let widths = styled_lines(&scene)
        .into_iter()
        .map(|line| float(line.width))
        .collect::<Vec<_>>();
    assert_eq!(widths, [2.0, 3.0, 2.0, 3.0, 5.0, 0.5]);
}

#[test]
fn width_decrease_clamps_at_zero_and_invalid_widths_fail() {
    let generation = Generation(vec![
        module("WidthDecrease"),
        module("WidthDecrease"),
        module("F"),
    ]);
    let scene = visualize_turtle_2d(&generation, &Turtle2dConfig::default(), &calc).unwrap();
    assert!(matches!(
        &scene.primitives[0],
        Primitive2d::Line(line) if float(line.width) == 0.0
    ));

    let invalid = Generation(vec![numeric_module("Width", -1.0)]);
    assert!(matches!(
        visualize_turtle_2d(&invalid, &Turtle2dConfig::default(), &calc),
        Err(VisualizeError::InvalidConfiguration(_))
    ));
}

#[test]
fn batches_are_exactly_equivalent_to_the_scene_for_both_palettes() {
    let generation = Generation(vec![
        numeric_module("Width", 2.5),
        numeric_module("F", 2.0),
        numeric_module("Plus", 45.0),
        branch(vec![
            module("WidthDecrease"),
            module("F"),
            module("Plus"),
            module("F"),
        ]),
        module("WidthIncrease"),
        module("F"),
    ]);
    let config = Turtle2dConfig {
        initial_angle: number(0.0),
        ..Turtle2dConfig::default()
    };
    let scene = visualize_turtle_2d(&generation, &config, &calc).unwrap();
    let (streamed, summary, batch_lengths) = collect_stream(&generation, config, 2);
    let streamed_scene = Scene2d {
        primitives: streamed.into_iter().map(Primitive2d::Line).collect(),
        background: None,
    };

    assert_eq!(streamed_scene, scene);
    assert_eq!(batch_lengths.iter().sum::<usize>(), 4);
    assert!(batch_lengths.iter().all(|&length| length <= 2));
    assert_eq!(summary.progress.lines_emitted, 4);
    assert!(summary.bounds.is_some());
    for palette in [Palette::Light, Palette::Dark] {
        assert_eq!(
            svg::encode(&streamed_scene, palette, &scribe, &calc),
            svg::encode(&scene, palette, &scribe, &calc)
        );
    }
}

#[test]
fn batch_size_does_not_change_geometry_style_or_progress() {
    let generation = Generation(vec![
        module("F"),
        module("WidthIncrease"),
        branch(vec![module("Plus"), module("F"), branch(vec![module("F")])]),
        module("F"),
        module("F"),
    ]);
    let config = Turtle2dConfig::default();
    let (expected, expected_summary, _) = collect_stream(&generation, config.clone(), 64);

    for batch_size in [1, 2, 3, 4, 7] {
        let (actual, summary, lengths) = collect_stream(&generation, config.clone(), batch_size);
        assert_eq!(actual, expected, "batch size {batch_size}");
        assert_eq!(summary, expected_summary, "batch size {batch_size}");
        assert!(lengths.iter().all(|&length| length <= batch_size));
    }
}

#[test]
fn explicit_stack_handles_more_than_4096_nested_branches() {
    const DEPTH: usize = 5_000;
    let mut generation = Generation(vec![module("F")]);
    for _ in 0..DEPTH {
        generation = Generation(vec![GenerationItem::Branch(generation)]);
    }

    let (lines, summary, _) = collect_stream(&generation, Turtle2dConfig::default(), 8);
    assert_eq!(lines.len(), 1);
    assert_eq!(summary.progress.branches_entered, DEPTH);
    assert_eq!(summary.progress.max_branch_depth, DEPTH);

    // The data model itself has recursive drop semantics; leaking this small
    // synthetic fixture keeps that unrelated recursion out of this test.
    std::mem::forget(generation);
}

#[test]
fn cancellation_is_observed_inside_a_large_unflushed_batch() {
    let generation = Generation((0..50_000).map(|_| module("F")).collect());
    let checks = Cell::new(0usize);
    let is_cancelled = || {
        let current = checks.get();
        checks.set(current + 1);
        current >= 512
    };
    let emitted_batches = Cell::new(0usize);
    let result = stream_turtle_2d(
        Turtle2dStreamRequest {
            generation: &generation,
            config: Turtle2dConfig::default(),
            batch_size: 10_000,
        },
        &mut Outlet::new(&is_cancelled, |_: Turtle2dBatch| {
            emitted_batches.set(emitted_batches.get() + 1);
            Ok(())
        }),
        &calc,
    );
    assert_eq!(result, Err(VisualizeError::Cancelled));
    assert_eq!(emitted_batches.get(), 0);
    assert!(checks.get() < generation.items().len());
}

#[test]
fn movement_only_work_still_emits_progress_batches() {
    let generation = Generation((0..5).map(|_| module("Move")).collect());
    let updates = RefCell::new(Vec::new());
    let summary = stream_turtle_2d(
        Turtle2dStreamRequest {
            generation: &generation,
            config: Turtle2dConfig::default(),
            batch_size: 2,
        },
        &mut Outlet::new(&never, |batch: Turtle2dBatch| {
            assert!(batch.lines.is_empty());
            updates.borrow_mut().push(batch.progress.items_processed);
            Ok(())
        }),
        &calc,
    )
    .unwrap();
    assert_eq!(updates.into_inner(), [2, 4, 5]);
    assert_eq!(summary.progress.items_processed, 5);
    assert_eq!(summary.progress.lines_emitted, 0);
}

#[test]
fn turtle_2d_impossible_batch_allocation_is_a_typed_resource_error() {
    let generation = Generation::default();
    let error = stream_turtle_2d(
        Turtle2dStreamRequest {
            generation: &generation,
            config: Turtle2dConfig::default(),
            batch_size: usize::MAX,
        },
        &mut Outlet::new(&never, |_: Turtle2dBatch| Ok(())),
        &calc,
    )
    .unwrap_err();
    assert!(matches!(
        error,
        VisualizeError::ResourceExhausted {
            resource: "turtle line batch",
            requested: Some(usize::MAX),
        }
    ));
}

#[test]
fn command_classifier_is_shared_across_aliases_and_parameter_forms() {
    let config = Turtle2dConfig {
        default_step: number(2.5),
        turn_angle: number(0.75),
        module_aliases: vec![("X".into(), "Plus".into())],
        ..Default::default()
    };
    let with = |name: &str, value: f64| Module::new(name, vec![Value::Number(number(value))]);
    assert_eq!(
        classify_module(&Module::new("F", Vec::new()), &config, &calc),
        Ok(TurtleOp::Draw(number(2.5)))
    );
    assert_eq!(
        classify_module(&with("f", 4.0), &config, &calc),
        Ok(TurtleOp::Move(number(4.0)))
    );
    assert_eq!(
        classify_module(&Module::new("HalfMove", Vec::new()), &config, &calc),
        Ok(TurtleOp::HalfMove(number(2.5)))
    );
    assert_eq!(
        classify_module(&with("X", 30.0), &config, &calc),
        Ok(TurtleOp::Turn(number(30_f64.to_radians())))
    );
    assert_eq!(
        classify_module(&Module::new("WidthDecrease", Vec::new()), &config, &calc),
        Ok(TurtleOp::WidthDelta(number(-1.0)))
    );
    assert_eq!(
        classify_module(&with("WidthDecrease", 0.25), &config, &calc),
        Ok(TurtleOp::WidthSet(number(0.25)))
    );
}

#[test]
fn auto_falls_back_to_cpu_for_branches_and_reports_it() {
    let generation = Generation(vec![module("F"), branch(vec![module("F")])]);
    let summary = Turtle2dStreamer::new()
        .stream(
            VisualizerBackend::Auto,
            Turtle2dStreamRequest {
                generation: &generation,
                config: Turtle2dConfig::default(),
                batch_size: 16,
            },
            &mut Outlet::new(&never, |_: Turtle2dBatch| Ok(())),
            &calc,
        )
        .unwrap();
    assert_eq!(summary.backend_used, VisualizerBackend::Cpu);
    assert_eq!(summary.progress.branches_entered, 1);
}

#[test]
fn color_commands_use_exact_palettes_and_branch_state_is_restored() {
    let generation = Generation(vec![
        numeric_module("Color", 1.0),
        module("F"),
        branch(vec![module("ColorNext"), module("F")]),
        module("F"),
        module("ColorPrevious"),
        module("F"),
    ]);
    let config = Turtle2dConfig {
        palette: vec![[10, 20, 30], [40, 50, 60], [70, 80, 90]],
        ..Turtle2dConfig::default()
    };
    let scene = visualize_turtle_2d(&generation, &config, &calc).unwrap();
    let colors = styled_lines(&scene)
        .into_iter()
        .map(|line| line.color)
        .collect::<Vec<_>>();
    assert_eq!(
        colors,
        [
            StrokeColor::Rgb([40, 50, 60]),
            StrokeColor::Rgb([70, 80, 90]),
            StrokeColor::Rgb([40, 50, 60]),
            StrokeColor::Rgb([10, 20, 30]),
        ]
    );
}

#[test]
fn half_forward_default_scaling_and_mutable_turn_angle_are_interpreted() {
    let generation = Generation(vec![
        module("HalfForward"),
        module("ScaleLength"),
        module("F"),
        module("ScaleLengthInverse"),
        numeric_module("TurnAngleIncrease", 30.0),
        module("Plus"),
        module("F"),
    ]);
    let config = Turtle2dConfig {
        initial_angle: number(0.0),
        scale_multiplier: number(2.0),
        ..Turtle2dConfig::default()
    };
    let scene = visualize_turtle_2d(&generation, &config, &calc).unwrap();
    let lines = lines_of(&scene);
    assert_eq!(lines[0], ((0.0, 0.0), (0.5, 0.0)));
    assert_eq!(lines[1], ((0.5, 0.0), (2.5, 0.0)));
    assert!((lines[2].1 .0 - 2.0).abs() < 1.0e-10);
    assert!((lines[2].1 .1 - 3_f64.sqrt() * 0.5).abs() < 1.0e-10);
}

#[test]
fn polygon_capture_and_cut_emit_only_the_intended_geometry() {
    let generation = Generation(vec![
        module("PolygonBegin"),
        module("Vertex"),
        numeric_module("Move", 1.0),
        module("Vertex"),
        module("Plus"),
        numeric_module("Move", 1.0),
        module("Vertex"),
        module("PolygonEnd"),
        module("F"),
        module("Cut"),
        module("F"),
    ]);
    let config = Turtle2dConfig {
        initial_angle: number(0.0),
        ..Turtle2dConfig::default()
    };
    let scene = visualize_turtle_2d(&generation, &config, &calc).unwrap();
    assert_eq!(lines_of(&scene).len(), 1);
    assert_eq!(polygon_of(&scene), [(0.0, 0.0), (1.0, 0.0), (1.0, 1.0)]);
}

#[test]
fn abop_forward_moves_trace_polygon_edges_but_framework_modules_do_not() {
    let contour = Generation(vec![
        module("PolygonBegin"),
        module("F"),
        module("Plus"),
        module("f"),
        module("Plus"),
        module("F"),
        module("PolygonEnd"),
    ]);
    let config = Turtle2dConfig {
        initial_angle: number(0.0),
        ..Turtle2dConfig::default()
    };
    let scene = visualize_turtle_2d(&contour, &config, &calc).unwrap();
    let vertices = polygon_of(&scene);
    assert_eq!(vertices.len(), 4);
    for (actual, expected) in vertices
        .into_iter()
        .zip([(0.0, 0.0), (1.0, 0.0), (1.0, 1.0), (0.0, 1.0)])
    {
        assert!((actual.0 - expected.0 as f64).abs() < 1.0e-10);
        assert!((actual.1 - expected.1 as f64).abs() < 1.0e-10);
    }
    assert_eq!(lines_of(&scene).len(), 2);

    let framework = Generation(vec![
        module("PolygonBegin"),
        module("Vertex"),
        module("G"),
        module("Vertex"),
        module("Plus"),
        module("G"),
        module("Vertex"),
        module("PolygonEnd"),
    ]);
    let config = Turtle2dConfig {
        initial_angle: number(0.0),
        draw_modules: vec!["G".into()],
        ..Turtle2dConfig::default()
    };
    let scene = visualize_turtle_2d(&framework, &config, &calc).unwrap();
    assert_eq!(polygon_of(&scene), [(0.0, 0.0), (1.0, 0.0), (1.0, 1.0)]);
}

#[test]
fn explicit_cuda_without_native_support_is_typed_unavailable() {
    let generation = Generation(vec![module("F")]);
    let error = Turtle2dStreamer::new()
        .stream(
            VisualizerBackend::Cuda,
            Turtle2dStreamRequest {
                generation: &generation,
                config: Turtle2dConfig::default(),
                batch_size: 16,
            },
            &mut Outlet::new(&never, |_: Turtle2dBatch| Ok(())),
            &calc,
        )
        .unwrap_err();
    assert_eq!(
        error,
        VisualizeError::BackendUnavailable {
            backend: VisualizerBackend::Cuda
        }
    );
}

#[test]
fn turtle_metadata_preserves_theme_defaults_and_accepts_exact_source_colors() {
    let default = Turtle2dConfig::default().with_source_metadata("axiom F;", &calc, &read);
    assert_eq!(default.initial_color, StrokeColor::ThemeDefault);
    assert!(default.background.is_none());

    let configured = Turtle2dConfig::default().with_source_metadata(
        "# Palette: #102030, #abcdef\n\
         # Initial Color: -1\n\
         # Stroke Color: #123456\n\
         # Background: 4, 5, 6\n\
         # Color Increment: 3\n\
         # Angle Increment: 2.5\n\
         let SCALE = 1.75;\n",
        &calc,
        &read,
    );
    assert_eq!(
        configured.initial_color,
        StrokeColor::Rgb([0x12, 0x34, 0x56])
    );
    assert_eq!(configured.palette, [[0x10, 0x20, 0x30], [0xab, 0xcd, 0xef]]);
    assert_eq!(configured.background, Some([4, 5, 6]));
    assert_eq!(configured.color_increment, 3);
    assert_eq!(
        float(configured.turn_angle_increment),
        2.5_f64.to_radians()
    );
    assert_eq!(float(configured.scale_multiplier), 1.75);
}

#[test]
fn a_zero_batch_size_is_refused() {
    let result = stream_turtle_2d(
        Turtle2dStreamRequest {
            generation: &Generation::default(),
            config: Turtle2dConfig::default(),
            batch_size: 0,
        },
        &mut Outlet::new(&never, |_: Turtle2dBatch| Ok(())),
        &calc,
    );
    assert!(matches!(
        result,
        Err(VisualizeError::InvalidConfiguration(_))
    ));
}

#[test]
fn a_cancelled_request_does_nothing() {
    let emitted = Cell::new(0usize);
    let result = stream_turtle_2d(
        Turtle2dStreamRequest {
            generation: &Generation(vec![module("F")]),
            config: Turtle2dConfig::default(),
            batch_size: 4,
        },
        &mut Outlet::new(&|| true, |_: Turtle2dBatch| {
            emitted.set(emitted.get() + 1);
            Ok(())
        }),
        &calc,
    );
    assert_eq!(result, Err(VisualizeError::Cancelled));
    assert_eq!(emitted.get(), 0);
}

#[test]
fn a_failure_of_the_receiver_ends_the_stream() {
    let emitted = Cell::new(0usize);
    let result = stream_turtle_2d(
        Turtle2dStreamRequest {
            generation: &Generation((0..6).map(|_| module("F")).collect()),
            config: Turtle2dConfig::default(),
            batch_size: 2,
        },
        &mut Outlet::new(&never, |_: Turtle2dBatch| {
            emitted.set(emitted.get() + 1);
            if emitted.get() == 2 {
                Err(VisualizeError::Cancelled)
            } else {
                Ok(())
            }
        }),
        &calc,
    );
    assert_eq!(result, Err(VisualizeError::Cancelled));
    assert_eq!(emitted.get(), 2);
}

#[test]
fn aliases_that_go_round_are_refused() {
    let mut config = Turtle2dConfig::default();
    config
        .module_aliases
        .push((String::from("A"), String::from("B")));
    config
        .module_aliases
        .push((String::from("B"), String::from("A")));
    let result = classify_module(&Module::new("A", Vec::new()), &config, &calc);
    assert!(matches!(
        result,
        Err(VisualizeError::InvalidConfiguration(_))
    ));
}

#[test]
fn progress_counts_what_was_walked() {
    let generation = Generation(vec![
        module("F"),
        branch(vec![module("Plus"), branch(vec![module("F")])]),
        module("Dot"),
    ]);
    let (lines, summary, _) = collect_stream(&generation, Turtle2dConfig::default(), 2);
    assert_eq!(lines.len(), summary.progress.lines_emitted);
    assert_eq!(summary.progress.items_processed, 6);
    assert_eq!(summary.progress.modules_processed, 4);
    assert_eq!(summary.progress.branches_entered, 2);
    assert_eq!(summary.progress.max_branch_depth, 2);
    assert_eq!(summary.progress.active_branch_depth, 0);
}

#[test]
fn bounds_are_those_of_the_lines_alone() {
    let generation = Generation(vec![
        module("PolygonBegin"),
        module("Vertex"),
        numeric_module("Move", 1.0),
        module("Vertex"),
        module("Plus"),
        numeric_module("Move", 1.0),
        module("Vertex"),
        module("PolygonEnd"),
    ]);
    let config = Turtle2dConfig {
        initial_angle: number(0.0),
        ..Turtle2dConfig::default()
    };
    let batches = RefCell::new(Vec::new());
    let summary = stream_turtle_2d(
        Turtle2dStreamRequest {
            generation: &generation,
            config,
            batch_size: 64,
        },
        &mut Outlet::new(never, |batch: Turtle2dBatch| {
            batches.borrow_mut().push(batch);
            Ok(())
        }),
        &calc,
    )
    .unwrap();
    let batches = batches.into_inner();
    assert_eq!(batches.len(), 1);
    assert!(batches[0].lines.is_empty());
    assert_eq!(batches[0].polygons.len(), 1);
    assert_eq!(batches[0].batch_bounds, None);
    assert_eq!(batches[0].overall_bounds, None);
    assert_eq!(summary.bounds, None);
}

#[test]
fn batches_arrive_in_order_and_are_asked_for_first() {
    let generation = Generation(vec![
        module("F"),
        branch(vec![module("F"), module("Move")]),
        module("F"),
    ]);
    let happened = RefCell::new(Vec::new());
    let summary = stream_turtle_2d(
        Turtle2dStreamRequest {
            generation: &generation,
            config: Turtle2dConfig::default(),
            batch_size: 2,
        },
        &mut Outlet::new(
            || {
                happened.borrow_mut().push(None);
                false
            },
            |batch: Turtle2dBatch| {
                happened.borrow_mut().push(Some(batch));
                Ok(())
            },
        ),
        &calc,
    )
    .unwrap();
    let happened = happened.into_inner();
    let mut asked = 0;
    let mut handed = Vec::new();
    for (index, one) in happened.iter().enumerate() {
        match one {
            None => asked += 1,
            Some(batch) => {
                assert!(happened[index - 1].is_none());
                assert!(asked > batch.progress.items_processed + handed.len());
                handed.push((
                    batch.progress.items_processed,
                    batch.progress.active_branch_depth,
                    batch.progress.lines_emitted,
                    batch.module_indices.clone(),
                ));
            }
        }
    }
    assert_eq!(
        handed,
        [
            (2, 1, 1, vec![0]),
            (4, 1, 2, vec![1]),
            (5, 0, 3, vec![3]),
        ]
    );
    assert_eq!(summary.progress.items_processed, 5);
}

#[test]
fn a_yes_is_the_last_thing_that_is_heard() {
    let generation = Generation(vec![
        module("F"),
        branch(vec![module("F"), module("Move")]),
        module("F"),
    ]);
    let stream = |limit: usize| {
        let asked = Cell::new(0usize);
        let handed = Cell::new(0usize);
        let late = Cell::new(false);
        let result = stream_turtle_2d(
            Turtle2dStreamRequest {
                generation: &generation,
                config: Turtle2dConfig::default(),
                batch_size: 2,
            },
            &mut Outlet::new(
                || {
                    asked.set(asked.get() + 1);
                    asked.get() > limit
                },
                |_: Turtle2dBatch| {
                    late.set(late.get() || asked.get() > limit);
                    handed.set(handed.get() + 1);
                    Ok(())
                },
            ),
            &calc,
        );
        assert!(!late.get());
        (result.is_ok(), asked.get(), handed.get())
    };
    let (complete, all, batches) = stream(usize::MAX);
    assert!(complete);
    assert_eq!(batches, 3);
    for limit in 0..all {
        let (complete, asked, handed) = stream(limit);
        assert!(!complete);
        assert_eq!(asked, limit + 1);
        assert!(handed < 3 || limit + 1 == all);
    }
    assert_eq!(stream(0), (false, 1, 0));
}

#[test]
fn an_exhausted_traversal_has_nothing_left() {
    let generation = Generation(vec![module("F")]);
    let config = Turtle2dConfig::default();
    let mut traversal = Turtle2dTraversal::begin(&generation, &config, 4).unwrap();
    let asked = Cell::new(0usize);
    let mut outlet = Outlet::new(
        || {
            asked.set(asked.get() + 1);
            false
        },
        |_: Turtle2dBatch| Ok(()),
    );
    assert!(traversal.next_batch(&calc, &mut outlet).unwrap().is_some());
    let before = asked.get();
    assert!(before > 0);
    assert_eq!(traversal.next_batch(&calc, &mut outlet), Ok(None));
    assert_eq!(asked.get(), before);
}

#[test]
fn only_aliases_that_go_round_have_no_action() {
    let aliases = |pairs: &[(&str, &str)]| -> Vec<(String, String)> {
        pairs
            .iter()
            .map(|(from, to)| (String::from(*from), String::from(*to)))
            .collect()
    };
    let round = aliases(&[("A", "B"), ("B", "C"), ("C", "B"), ("D", "D"), ("E", "D")]);
    assert_eq!(follow_aliases(&round, "A"), None);
    assert_eq!(follow_aliases(&round, "C"), None);
    assert_eq!(follow_aliases(&round, "D"), Some("D"));
    assert_eq!(follow_aliases(&round, "E"), Some("D"));
    assert_eq!(follow_aliases(&round, "F"), Some("F"));
    let chain = aliases(&[("A", "B"), ("B", "C"), ("C", "F")]);
    assert_eq!(follow_aliases(&chain, "A"), Some("F"));
}

#[test]
fn metadata_applies_once_and_plain_sources_change_nothing() {
    let source = "# Heading: 30\n# Palette: #102030, #abcdef\n# Initial Color: 4\n\
                  # Draw: G\n# Render Map: X=F\nlet SCALE = 0.5;\naxiom F;\n";
    let own = || Turtle2dConfig {
        turn_angle: number(0.25),
        default_step: number(3.0),
        ..Turtle2dConfig::default()
    };
    let once = own().with_source_metadata(source, &calc, &read);
    let twice = own()
        .with_source_metadata(source, &calc, &read)
        .with_source_metadata(source, &calc, &read);
    assert_eq!(float(once.turn_angle), 0.25);
    assert_eq!(float(once.default_step), 3.0);
    assert_eq!(float(once.scale_multiplier), 0.5);
    assert_eq!(format!("{once:?}"), format!("{twice:?}"));
    let plain = own().with_source_metadata("axiom F;\n  match F then F F; # no\n", &calc, &read);
    assert_eq!(format!("{plain:?}"), format!("{:?}", own()));
}

#[test]
fn written_colors_read_back() {
    for color in [[0, 0, 0], [1, 171, 255], [0x9a, 0x0f, 0xf0]] {
        let text = rgb_hex(color);
        let chars: Vec<char> = text.chars().collect();
        let large: Vec<char> = text.to_uppercase().chars().collect();
        assert_eq!(chars.len(), 7);
        assert_eq!(parse_rgb(&chars), Some(color));
        assert_eq!(parse_rgb(&chars[1..]), Some(color));
        assert_eq!(parse_rgb(&large), Some(color));
    }
    assert_eq!(rgb_hex([1, 171, 255]), "#01abff");
}
