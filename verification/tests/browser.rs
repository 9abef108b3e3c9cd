//! The browser's model and canvas: drafts, gestures, colours and the order in
//! which things are painted.

use std::collections::BTreeSet;

use braken_viz::arrival::{
    accept_scene, accept_transition, ArrivedScene, ArrivedShapes, ArrivedTransition, SceneBounds,
    Transfer,
};
use braken_viz::canvas::{
    backing_dimension, css_rgb, depth_bucket, line_slot, painted_text_place, painted_text_rgb,
    planar_fill_color, planar_line_width, planar_navigation_enabled, representative_index,
    resolve_styled_color, spatial_line_width, spatial_width_multiplier, validate_chunks, CameraKey,
    CanvasError, CanvasViewport, PlanarBounds, Refinement, RenderKey, ResolvedColor, StrokeBatch,
    StrokeStyle, PREVIEW_LINES,
};
use braken_viz::depth::{
    offsets_in_order, sort_depths, spatial_line_source_position, spatial_polygon_centroid,
    spatial_polygon_source_position, DepthPrimitive, DepthSorter, SpatialPrimitive,
};
use braken_viz::model::{
    autorotation_after_motion_preference, display_refinement_is_running, is_primary_mouse_button,
    next_iteration, normalized_search_terms, preset_autorotation_enabled, required_canvas_touches,
    source_uses_filled_turtle_polygons, touch_ownership, GrammarDraft, ThemePreference,
    TouchOwnership,
};
use braken_viz::morph::{blend_line, Anchor, AnchorColor, MorphLine};
use braken_viz::palette::{
    SPATIAL_SOFTWARE_DEPTH_BUCKETS, SPATIAL_SOFTWARE_LIGHT_BUCKETS,
    SPATIAL_THEME_DEFAULT_COLOR_BUCKETS,
};
use braken_viz::shading::spatial_appearance_rgb;
use braken_viz::spatial_refinement::SpatialRefinement;
use braken_viz::spatial_svg::{Paint, SourceLine3d, SpatialScene, SpatialSvgEncoder};
use braken_viz::startup::{pinch_scale, touch_measurement};
use braken_viz::svg_encoder::{CanvasPolygon, CanvasScene, CanvasText, SourceLine, SvgEncoder};
use braken_viz::hook::Hook;
use braken_viz::svg_order::SvgOrder;
use braken_viz::tuning::{
    adjacent_integer_angle, formatted_angle, iteration_ease, line_width_scale,
};
use braken_viz::{
    Arithmetic, Palette, Point2d, Point3d, Real, Single, SingleArithmetic, StrokeColor, TextRole,
};

fn number(value: f64) -> Real {
    Real::from_bits(value.to_bits())
}

fn float(value: Real) -> f64 {
    f64::from_bits(value.to_bits())
}

fn calc(op: Arithmetic) -> Real {
    number(match op {
        Arithmetic::Sum(a, b) => float(a) + float(b),
        Arithmetic::Difference(a, b) => float(a) - float(b),
        Arithmetic::Product(a, b) => float(a) * float(b),
        Arithmetic::Quotient(a, b) => float(a) / float(b),
        Arithmetic::Reciprocal(a) => 1.0 / float(a),
        Arithmetic::Radians(a) => float(a).to_radians(),
        Arithmetic::Cosine(a) => float(a).cos(),
        Arithmetic::Sine(a) => float(a).sin(),
        Arithmetic::ArcTangent(a) => float(a).atan(),
        Arithmetic::SquareRoot(a) => float(a).sqrt(),
        Arithmetic::Hypotenuse(a, b) => float(a).hypot(float(b)),
        Arithmetic::Rounded(a) => float(a).round(),
        Arithmetic::Ceiling(a) => float(a).ceil(),
        Arithmetic::Widened(bits) => f64::from(f32::from_bits(bits)),
        Arithmetic::Narrowed(a) => f64::from(float(a) as f32),
        Arithmetic::Count(n) => n as f64,
        Arithmetic::Integer(n) => n as f64,
    })
}

fn single(value: f32) -> Single {
    Single::from_bits(value.to_bits())
}

fn short(value: Single) -> f32 {
    f32::from_bits(value.bits)
}

fn small(op: SingleArithmetic) -> Single {
    single(match op {
        SingleArithmetic::Sum(a, b) => short(a) + short(b),
        SingleArithmetic::Difference(a, b) => short(a) - short(b),
        SingleArithmetic::Product(a, b) => short(a) * short(b),
        SingleArithmetic::Quotient(a, b) => short(a) / short(b),
        SingleArithmetic::Power(a, b) => short(a).powf(short(b)),
        SingleArithmetic::Rounded(a) => short(a).round(),
        SingleArithmetic::Floor(a) => short(a).floor(),
        SingleArithmetic::Ceiling(a) => short(a).ceil(),
        SingleArithmetic::Narrowed(a) => float(a) as f32,
        SingleArithmetic::Count(n) => f32::from(n),
    })
}

fn scribe(value: Real) -> String {
    format!("{}", float(value))
}

fn single_scribe(value: Single) -> String {
    format!("{}", short(value))
}

fn never() -> bool {
    false
}

#[test]
fn grammar_draft_survives_closing_and_reopening_the_same_source() {
    let mut draft = GrammarDraft::default();
    draft.open("axiom Draw;");
    draft.edit(String::from("axiom Draw Draw;"));

    draft.open("axiom Draw;");

    assert_eq!(draft.text(), "axiom Draw Draw;");
    assert!(draft.is_modified());
}

#[test]
fn opening_a_replaced_source_discards_the_previous_grammar_draft() {
    let mut draft = GrammarDraft::default();
    draft.open("axiom Draw;");
    draft.edit(String::from("axiom Draw Draw;"));

    draft.open("axiom Turn(90);");

    assert_eq!(draft.text(), "axiom Turn(90);");
    assert!(!draft.is_modified());
}

#[test]
fn unchanged_or_reverted_grammar_drafts_do_not_apply() {
    let mut draft = GrammarDraft::default();
    draft.open("axiom Draw;");
    assert_eq!(draft.apply("axiom Draw;"), None);

    draft.edit(String::from("axiom Draw Draw;"));
    draft.edit(String::from("axiom Draw;"));

    assert!(!draft.is_modified());
    assert_eq!(draft.apply("axiom Draw;"), None);
}

#[test]
fn applying_a_grammar_draft_commits_it_once() {
    let mut draft = GrammarDraft::default();
    draft.open("axiom Draw;");
    draft.edit(String::from("axiom Draw Draw;"));

    let applied = draft
        .apply("axiom Draw;")
        .expect("edited draft should apply");

    assert_eq!(applied, "axiom Draw Draw;");
    assert!(!draft.is_modified());
    draft.open(&applied);
    assert_eq!(draft.text(), applied);
    assert_eq!(draft.apply(&applied), None);
}

#[test]
fn a_grammar_draft_cannot_overwrite_a_replaced_active_source() {
    let mut draft = GrammarDraft::default();
    draft.open("axiom Draw;");
    draft.edit(String::from("axiom Draw Draw;"));

    assert_eq!(draft.apply("axiom Turn(90);"), None);
    assert_eq!(draft.text(), "axiom Turn(90);");
    assert!(!draft.is_modified());
}

#[test]
fn explicitly_reselecting_a_source_resets_its_grammar_draft() {
    let mut draft = GrammarDraft::default();
    draft.open("axiom Draw;");
    draft.edit(String::from("axiom Draw Draw;"));

    draft.reset("axiom Draw;");

    assert_eq!(draft.text(), "axiom Draw;");
    assert!(!draft.is_modified());
    assert_eq!(draft.apply("axiom Draw;"), None);
}

#[test]
fn theme_cycles_and_resolves() {
    assert_eq!(ThemePreference::Auto.next(), ThemePreference::Light);
    assert_eq!(ThemePreference::Light.next(), ThemePreference::Dark);
    assert_eq!(ThemePreference::Dark.next(), ThemePreference::Auto);
    assert!(ThemePreference::Auto.resolve_dark(true));
    assert!(!ThemePreference::Light.resolve_dark(true));
    assert!(ThemePreference::Dark.resolve_dark(false));
}

#[test]
fn fractional_angle_buttons_choose_adjacent_integer() {
    let step = |current: f32, direction: f32| {
        short(adjacent_integer_angle(
            single(current),
            single(direction),
            &small,
        ))
    };
    assert_eq!(step(42.5, -1.0), 42.0);
    assert_eq!(step(42.5, 1.0), 43.0);
    assert_eq!(step(42.0, -1.0), 41.0);
    assert_eq!(step(42.0, 1.0), 43.0);
    assert_eq!(step(0.0, -1.0), 0.0);
    assert_eq!(step(180.0, 1.0), 180.0);
}

#[test]
fn angle_format_retains_meaningful_fraction() {
    let writer = |request: (Single, usize)| format!("{:.*}", request.1, short(request.0));
    let written = |angle: f32| formatted_angle(single(angle), &small, &writer);
    assert_eq!(written(42.0), "42");
    assert_eq!(written(42.54), "42.5");
    assert_eq!(written(42.96), "43");
}

#[test]
fn search_terms_are_case_insensitive_and_whitespace_split() {
    assert_eq!(
        normalized_search_terms("  Gothic  STAR "),
        ["gothic", "star"]
    );
}

#[test]
fn iteration_routes_one_adjacent_step_at_a_time() {
    assert_eq!(next_iteration(0, 3), Some(1));
    assert_eq!(next_iteration(3, 0), Some(2));
    assert_eq!(next_iteration(3, 3), None);
}

#[test]
fn mobile_planar_touch_leaves_one_finger_to_scroll_and_captures_two() {
    let required = required_canvas_touches(true, false);
    assert_eq!(
        touch_ownership(false, true, required, 1),
        TouchOwnership {
            handle_event: false,
            retain_after_event: false,
        }
    );
    assert_eq!(
        touch_ownership(false, true, required, 2),
        TouchOwnership {
            handle_event: true,
            retain_after_event: true,
        }
    );
    assert!(touch_ownership(true, false, required, 1).retain_after_event);
    assert_eq!(
        touch_ownership(true, false, required, 0),
        TouchOwnership {
            handle_event: true,
            retain_after_event: false,
        }
    );
}

#[test]
fn mobile_spatial_touch_claims_taps_and_keeps_drag_ownership_until_release() {
    let required = required_canvas_touches(true, true);
    let pressed = touch_ownership(false, true, required, 1);
    assert!(pressed.handle_event);
    assert!(pressed.retain_after_event);

    let second_finger = touch_ownership(pressed.retain_after_event, true, required, 2);
    assert!(second_finger.handle_event);
    assert!(second_finger.retain_after_event);

    let remaining_finger = touch_ownership(second_finger.retain_after_event, false, required, 1);
    assert!(remaining_finger.handle_event);
    assert!(remaining_finger.retain_after_event);

    let released = touch_ownership(remaining_finger.retain_after_event, false, required, 0);
    assert!(released.handle_event);
    assert!(!released.retain_after_event);
    assert!(!touch_ownership(released.retain_after_event, false, required, 1).handle_event);
}

#[test]
fn wide_layout_can_acquire_one_finger_touch_navigation() {
    for is_spatial in [false, true] {
        let required = required_canvas_touches(false, is_spatial);
        assert_eq!(
            touch_ownership(false, true, required, 1),
            TouchOwnership {
                handle_event: true,
                retain_after_event: true,
            }
        );
        assert!(!touch_ownership(false, false, required, 1).handle_event);
    }
}

#[test]
fn pointer_drag_requires_the_primary_mouse_button() {
    assert!(is_primary_mouse_button("mouse", 0));
    assert!(!is_primary_mouse_button("mouse", 1));
    assert!(!is_primary_mouse_button("mouse", 2));
    assert!(!is_primary_mouse_button("touch", 0));
    assert!(!is_primary_mouse_button("pen", 0));
}

#[test]
fn reduced_motion_suppresses_only_spatial_preset_autorotation() {
    assert!(preset_autorotation_enabled(true, false));
    assert!(!preset_autorotation_enabled(true, true));
    assert!(!preset_autorotation_enabled(false, false));
    assert!(!preset_autorotation_enabled(false, true));
}

#[test]
fn motion_preference_stops_active_and_pending_rotation_without_auto_resume() {
    assert_eq!(
        autorotation_after_motion_preference(true, Some(17), true),
        (false, None)
    );
    assert_eq!(
        autorotation_after_motion_preference(false, None, false),
        (false, None)
    );
}

#[test]
fn display_refinement_is_running_only_while_the_view_is_stationary() {
    assert!(display_refinement_is_running(true, false, false));
    assert!(!display_refinement_is_running(true, true, false));
    assert!(!display_refinement_is_running(true, false, true));
    assert!(!display_refinement_is_running(true, true, true));
    assert!(!display_refinement_is_running(false, false, false));
}

#[test]
fn polygon_detection_ignores_metadata_comments() {
    assert!(!source_uses_filled_turtle_polygons(
        "# Features: PolygonBegin\naxiom Draw;"
    ));
    assert!(source_uses_filled_turtle_polygons(
        "axiom PolygonBegin Vertex PolygonEnd;"
    ));
}

fn depth(depth: f64, primitive: SpatialPrimitive, source_order: usize) -> DepthPrimitive {
    DepthPrimitive {
        depth: number(depth),
        primitive,
        source_order,
    }
}

fn mixed_order() -> Vec<DepthPrimitive> {
    vec![
        depth(1.0, SpatialPrimitive::Polygon(0), 2),
        depth(-1.0, SpatialPrimitive::Line(0), 0),
        depth(1.0, SpatialPrimitive::Line(1), 1),
        depth(0.0, SpatialPrimitive::Polygon(1), 3),
    ]
}

#[test]
fn mixed_spatial_primitives_sort_far_to_near_with_source_order_ties() {
    let order = sort_depths(&mixed_order(), 0, 4);

    assert_eq!(
        order
            .into_iter()
            .map(|entry| entry.primitive)
            .collect::<Vec<_>>(),
        [
            SpatialPrimitive::Line(0),
            SpatialPrimitive::Polygon(1),
            SpatialPrimitive::Line(1),
            SpatialPrimitive::Polygon(0),
        ]
    );
}

#[test]
fn sorting_a_little_at_a_time_gives_the_same_order() {
    let order: Vec<DepthPrimitive> = (0..5_000usize)
        .map(|index| {
            depth(
                ((index * 7_919) % 613) as f64,
                SpatialPrimitive::Line(index),
                index,
            )
        })
        .collect();
    let mut sorter = DepthSorter::new(order.clone());
    let mut steps = 0usize;
    while !sorter.is_finished() {
        sorter.step(&mut Hook::new(never)).unwrap();
        steps += 1;
    }
    let sorted = sorter.into_order().unwrap();
    assert_eq!(sorted, sort_depths(&order, 0, order.len()));
    assert!(steps > 1);
}

#[test]
fn compact_polygon_offsets_reconstruct_mixed_source_positions() {
    let offsets = [0, 1, 1, 2];

    assert_eq!(spatial_line_source_position(0, &offsets), 1);
    assert_eq!(spatial_line_source_position(1, &offsets), 4);
    assert_eq!(spatial_polygon_source_position(0, offsets[0]), 0);
    assert_eq!(spatial_polygon_source_position(1, offsets[1]), 2);
    assert_eq!(spatial_polygon_source_position(2, offsets[2]), 3);
    assert_eq!(spatial_polygon_source_position(3, offsets[3]), 5);
}

#[test]
fn source_positions_cover_every_place() {
    let offsets = [0usize, 2, 2, 3, 5];
    let lines = 5;
    let mut places: Vec<usize> = (0..lines)
        .map(|line| spatial_line_source_position(line, &offsets))
        .chain(
            offsets
                .iter()
                .enumerate()
                .map(|(polygon, before)| spatial_polygon_source_position(polygon, *before)),
        )
        .collect();
    places.sort_unstable();
    assert_eq!(places, (0..lines + offsets.len()).collect::<Vec<_>>());
}

#[test]
fn filled_planar_geometry_supports_navigation_but_inspector_text_does_not() {
    assert!(planar_navigation_enabled(0, 1, 0));
    assert!(planar_navigation_enabled(1, 1, 0));
    assert!(!planar_navigation_enabled(0, 0, 0));
    assert!(!planar_navigation_enabled(1, 1, 1));
}

#[test]
fn planar_color_resolution_keeps_the_existing_palette_path() {
    assert!(matches!(
        resolve_styled_color(StrokeColor::ThemeDefault, 7, false),
        ResolvedColor::Palette(7)
    ));
    assert_eq!(
        resolve_styled_color(StrokeColor::Rgb([12, 34, 56]), 7, true),
        ResolvedColor::Rgb([12, 34, 56])
    );
}

fn appearance(
    color: StrokeColor,
    position: f64,
    palette: Palette,
    background: [u8; 3],
    light: f64,
    depth: f64,
) -> [u8; 3] {
    spatial_appearance_rgb(
        color,
        number(position),
        palette,
        background,
        number(light),
        number(depth),
        &calc,
        &small,
    )
}

#[test]
fn spatial_appearance_is_finite_and_bounded_by_shared_buckets() {
    let mut colors = BTreeSet::new();
    for palette_index in 0..=64 {
        let position = palette_index as f64 / 64.0;
        for light_index in 0..=32 {
            let light = 0.68 + 0.32 * light_index as f64 / 32.0;
            for depth_index in 0..=32 {
                let depth = depth_index as f64 / 32.0;
                colors.insert(appearance(
                    StrokeColor::ThemeDefault,
                    position,
                    Palette::Dark,
                    [15, 20, 32],
                    light,
                    depth,
                ));
            }
        }
    }
    assert!(
        colors.len()
            <= SPATIAL_THEME_DEFAULT_COLOR_BUCKETS
                * SPATIAL_SOFTWARE_LIGHT_BUCKETS
                * SPATIAL_SOFTWARE_DEPTH_BUCKETS
    );

    let invalid = appearance(
        StrokeColor::Rgb([200, 30, 80]),
        f64::NAN,
        Palette::Light,
        [242, 245, 249],
        f64::NAN,
        f64::INFINITY,
    );
    assert_eq!(
        invalid,
        appearance(
            StrokeColor::Rgb([200, 30, 80]),
            0.5,
            Palette::Light,
            [242, 245, 249],
            1.0,
            0.5,
        )
    );
    assert!(invalid[0] > invalid[1] && invalid[0] > invalid[2]);
}

#[test]
fn spatial_polygon_color_uses_its_centroid_and_widths_use_the_scene_reference() {
    let vertices = vec![
        (number(0.0), number(0.0), number(0.0)),
        (number(6.0), number(0.0), number(0.0)),
        (number(0.0), number(3.0), number(9.0)),
    ];
    let centroid = spatial_polygon_centroid(&vertices, &calc).expect("non-empty polygon");
    assert!((float(centroid.0) - 2.0).abs() < 1.0e-12);
    assert!((float(centroid.1) - 1.0).abs() < 1.0e-12);
    assert!((float(centroid.2) - 3.0).abs() < 1.0e-12);

    let multiplier = |width: f32, reference: f64| {
        spatial_width_multiplier(single(width), number(reference), &calc).map(float)
    };
    assert_eq!(multiplier(4.0, 2.0), Some(2.0));
    assert_eq!(multiplier(8.0, 2.0), Some(3.0));
    assert_eq!(multiplier(0.0, 2.0), None);
}

#[test]
fn transferred_chunks_are_what_was_announced() {
    assert_eq!(
        validate_chunks(&vec![Some(12), Some(6)], 3, 2, 6, "line"),
        Ok(())
    );
    assert_eq!(
        validate_chunks(&vec![Some(12), Some(12)], 3, 2, 6, "line"),
        Err(CanvasError::InvalidTransfer {
            kind: "line",
            expected_values: 18,
            actual_values: 24,
        })
    );
    assert!(validate_chunks(&vec![Some(12), None], 3, 2, 6, "line").is_err());
    assert_eq!(line_slot(5, 2, 6), (2, 6));
}

#[test]
fn samples_span_the_stream_from_end_to_end() {
    assert_eq!(representative_index(0, 4, 100), 0);
    assert_eq!(representative_index(3, 4, 100), 99);
    assert!(representative_index(1, 4, 100) < representative_index(2, 4, 100));
}

#[test]
fn canvases_have_at_least_one_pixel() {
    assert_eq!(backing_dimension(number(100.0), number(1.5), &calc), Ok(150));
    assert_eq!(backing_dimension(number(0.2), number(1.0), &calc), Ok(1));
    assert!(backing_dimension(number(1.0e12), number(1.0), &calc).is_err());
}

#[test]
fn colours_and_depths_are_written_in_steps() {
    assert_eq!(css_rgb([1, 20, 255]), "rgb(1 20 255)");
    assert_eq!(depth_bucket(number(-1.0), number(1.0), &calc), 0);
    assert_eq!(depth_bucket(number(1.0), number(1.0), &calc), 255);
}

fn viewport() -> CanvasViewport {
    CanvasViewport {
        logical_width: number(640.0),
        logical_height: number(480.0),
        device_pixel_ratio: number(1.0),
        backing_width: 640,
        backing_height: 480,
    }
}

fn planar_key(zoom: f64) -> RenderKey {
    RenderKey::new(
        viewport(),
        CameraKey::Planar {
            zoom: zoom.to_bits(),
            focus_x: 0,
            focus_y: 0,
        },
        false,
        number(1.0),
    )
}

#[test]
fn exact_drawing_goes_on_in_batches_until_it_is_complete() {
    let mut scene = Refinement::for_scene(PREVIEW_LINES + 1, 0, 0).unwrap();
    assert!(scene.refinement_progress().is_refining());
    let first = scene.exact_batch(false, planar_key(1.0));
    assert!(first.clear);
    assert_eq!(first.lines.0, 0);
    let second = scene.exact_batch(false, planar_key(1.0));
    assert!(!second.clear);
    assert_eq!(second.lines.0, first.lines.1);
    let third = scene.exact_batch(false, planar_key(1.0));
    assert_eq!(third.lines.1, PREVIEW_LINES + 1);
    assert!(third.progress.is_complete());

    let mut moved = Refinement::for_scene(PREVIEW_LINES + 1, 0, 0).unwrap();
    moved.exact_batch(false, planar_key(1.0));
    let again = moved.exact_batch(false, planar_key(2.0));
    assert!(again.clear);
    assert_eq!(again.lines.0, 0);
}

#[test]
fn stopped_refinement_stays_stopped() {
    let mut scene = Refinement::for_scene(PREVIEW_LINES + 1, 0, 0).unwrap();
    scene.exact_batch(false, planar_key(1.0));
    assert!(scene.cancel_refinement());
    scene.restart_view_refinement();
    assert!(!scene.refinement_progress().is_refining());
    assert!(scene.refinement_progress().cancelled);
}

#[test]
fn spatial_lines_are_painted_far_to_near_and_once() {
    let total = PREVIEW_LINES + 10;
    let mut scene = SpatialRefinement::for_scene(total, 0).unwrap();
    let key = RenderKey::new(
        viewport(),
        CameraKey::Spatial {
            w: 0,
            x: 0,
            y: 0,
            z: 0,
        },
        false,
        number(1.0),
    );
    let place_of = |line: usize| line % 256;
    let mut painted = Vec::new();
    for _ in 0..20 {
        painted.extend(scene.exact_batch(false, key, &place_of).unwrap().indices);
        if scene.refinement_progress().is_complete() {
            break;
        }
    }
    assert_eq!(painted.len(), total);
    assert!(painted
        .windows(2)
        .all(|pair| place_of(pair[0]) <= place_of(pair[1])));
    let mut sorted = painted;
    sorted.sort();
    assert!(sorted.into_iter().eq(0..total));
}

#[test]
fn paths_hold_one_style() {
    let thin = StrokeStyle {
        color: 1,
        width_bits: 2,
    };
    let thick = StrokeStyle {
        color: 1,
        width_bits: 3,
    };
    let mut batch = StrokeBatch::default();
    let first = batch.push(thin);
    assert!(!first.stroke && first.begin && first.set_style);
    let same = batch.push(thin);
    assert!(!same.stroke && !same.begin && !same.set_style);
    let other = batch.push(thick);
    assert!(other.stroke && other.begin && other.set_style);
    assert!(batch.finish());
}

fn source_line(index: usize) -> SourceLine {
    let x = index as f32;
    SourceLine {
        start: (single(x), single(0.0)),
        end: (single(x + 1.0), single(1.0)),
        width: single(1.0),
        color: StrokeColor::Rgb([1, 2, 3]),
    }
}

#[test]
fn an_encoder_writes_a_scene_in_batches() {
    let scene = CanvasScene {
        line_count: 5,
        polygons: vec![CanvasPolygon {
            vertices: vec![
                (number(0.0), number(0.0)),
                (number(1.0), number(0.0)),
                (number(0.0), number(2.0)),
            ],
            color: StrokeColor::Rgb([9, 8, 7]),
        }],
        texts: vec![CanvasText {
            x: number(1.0),
            y: number(2.0),
            size: number(12.0),
            content: String::from("a < b & \"c\""),
            role: TextRole::Body,
        }],
        bounds: Some(PlanarBounds {
            min_x: number(0.0),
            max_x: number(6.0),
            min_y: number(0.0),
            max_y: number(2.0),
        }),
        total_line_length: Some(number(7.0)),
        background: Some([4, 5, 6]),
    };
    let mut encoder = SvgEncoder::new(&scene, false, number(1.0), &scribe, &calc).unwrap();
    let mut rounds = 0usize;
    while !encoder.progress().complete {
        encoder
            .encode_next_batch(&mut Hook::new(never), &source_line, &scribe, &single_scribe, &calc)
            .unwrap();
        rounds += 1;
        assert!(rounds < 100);
    }
    let svg = encoder
        .finish(&source_line, &scribe, &single_scribe, &calc)
        .unwrap();
    assert!(svg.starts_with("<svg"), "{svg}");
    assert!(svg.trim_end().ends_with("</svg>"), "{svg}");
    assert_eq!(svg.matches("<line").count(), 5);
    assert_eq!(svg.matches("<polygon").count(), 1);
    assert!(svg.contains("points=\"0,-0 1,-0 0,-2\""), "{svg}");
    assert!(svg.contains("a &lt; b &amp; "), "{svg}");
    assert!(!svg.contains("a < b"));
}

#[test]
fn an_encoder_that_is_not_done_says_so() {
    let scene = CanvasScene {
        line_count: 5,
        polygons: Vec::new(),
        texts: Vec::new(),
        bounds: None,
        total_line_length: None,
        background: None,
    };
    let mut encoder = SvgEncoder::new(&scene, true, number(1.0), &scribe, &calc).unwrap();
    assert_eq!(
        encoder
            .encode_next_batch(&mut Hook::new(|| true), &source_line, &scribe, &single_scribe, &calc)
            .unwrap_err(),
        CanvasError::Cancelled
    );
    let error = encoder
        .finish(&source_line, &scribe, &single_scribe, &calc)
        .unwrap_err();
    assert_eq!(
        error,
        CanvasError::IncompleteSvg {
            completed: 0,
            total: 5
        }
    );
    assert!(error.message().contains('5'));
}

#[test]
fn a_spatial_encoder_paints_in_the_given_order() {
    let scene = SpatialScene {
        line_count: 2,
        polygons: vec![vec![
            (number(0.0), number(0.0), number(0.0)),
            (number(1.0), number(0.0), number(0.0)),
            (number(0.0), number(1.0), number(1.0)),
        ]],
        total_line_length: Some(number(2.0)),
        width_reference: number(1.0),
        background: None,
        diameter: number(4.0),
    };
    let order = vec![
        depth(0.0, SpatialPrimitive::Line(1), 1),
        depth(1.0, SpatialPrimitive::Polygon(0), 2),
        depth(2.0, SpatialPrimitive::Line(0), 0),
    ];
    let line_at = |index: usize| SourceLine3d {
        start: (single(index as f32), single(0.0), single(0.0)),
        end: (single(index as f32 + 1.0), single(0.0), single(0.0)),
        width: single(1.0),
        color: StrokeColor::ThemeDefault,
    };
    let place = |point: Point3d| -> Point2d { (point.0, point.1) };
    let color = |paint: Paint| match paint {
        Paint::Line(_) => [1, 2, 3],
        Paint::Polygon(..) => [4, 5, 6],
    };
    let mut encoder =
        SpatialSvgEncoder::new(&scene, order, false, number(1.0), &scribe, &calc).unwrap();
    let mut rounds = 0usize;
    while !encoder.is_complete() {
        encoder
            .encode_next_batch(&mut Hook::new(never), &line_at, &place, &color, &scribe, &calc)
            .unwrap();
        rounds += 1;
        assert!(rounds < 100);
    }
    let svg = encoder
        .finish(&line_at, &place, &color, &scribe, &calc)
        .unwrap();
    let first = svg.find("x1=\"1\"").unwrap();
    let middle = svg.find("<polygon").unwrap();
    let last = svg.find("x1=\"0\"").unwrap();
    assert!(first < middle && middle < last, "{svg}");
}

#[test]
fn scenes_are_checked_before_they_are_shown() {
    let arrived = |line_count: usize, bounds: [f32; 4]| ArrivedScene {
        line_count,
        total_line_length: Some(number(1.0)),
        width_reference: None,
        shapes: ArrivedShapes::TwoD {
            polygons: vec![vec![
                (number(0.0), number(5.0)),
                (number(1.0), number(0.0)),
                (number(2.0), number(2.0)),
            ]],
            text_count: 0,
            bounds: Some(bounds.map(single)),
        },
        has_transition: false,
    };
    let transfer = Transfer {
        lengths: vec![Some(12)],
        lines_per_chunk: 4,
        values_per_line: 6,
    };
    let (scene, bounds) =
        accept_scene(&arrived(2, [0.0, 1.0, 0.0, 1.0]), &transfer, &calc).ok().unwrap();
    assert!(!scene.is_spatial());
    assert_eq!(scene.element_count(), 3);
    assert_eq!(
        bounds,
        SceneBounds::TwoD(Some(PlanarBounds {
            min_x: number(0.0),
            max_x: number(2.0),
            min_y: number(0.0),
            max_y: number(5.0),
        }))
    );
    let crossed = accept_scene(&arrived(2, [1.0, 0.0, 0.0, 1.0]), &transfer, &calc);
    assert_eq!(
        crossed.err().unwrap().message(),
        "browser worker returned invalid target bounds"
    );
    let missing = accept_scene(&arrived(3, [0.0, 1.0, 0.0, 1.0]), &transfer, &calc);
    assert!(matches!(
        missing.err().unwrap(),
        CanvasError::InvalidTransfer { kind: "line", .. }
    ));
}

#[test]
fn spatial_scenes_have_no_transitions() {
    let arrived = |has_transition: bool, reference: Option<f64>| ArrivedScene {
        line_count: 1,
        total_line_length: Some(number(1.0)),
        width_reference: reference.map(number),
        shapes: ArrivedShapes::ThreeD {
            surfaces: Vec::new(),
            limits: Some([0.0, 1.0, 0.0, 1.0, 0.0, 1.0].map(single)),
        },
        has_transition,
    };
    let transfer = Transfer {
        lengths: vec![Some(8)],
        lines_per_chunk: 4,
        values_per_line: 8,
    };
    assert!(accept_scene(&arrived(false, Some(1.0)), &transfer, &calc).is_ok());
    assert_eq!(
        accept_scene(&arrived(true, Some(1.0)), &transfer, &calc)
            .err()
            .unwrap()
            .message(),
        "three-dimensional Worker geometry cannot contain transition data"
    );
    assert_eq!(
        accept_scene(&arrived(false, None), &transfer, &calc)
            .err()
            .unwrap()
            .message(),
        "browser Worker produced an invalid 3D width reference"
    );
}

#[test]
fn transitions_join_neighbours() {
    let arrived = |from_iteration: usize, to_iteration: usize| ArrivedTransition {
        from_iteration,
        to_iteration,
        source_total_line_length: None,
        source_bounds: None,
        morph_count: 1,
    };
    let transfer = Transfer {
        lengths: vec![Some(24)],
        lines_per_chunk: 4,
        values_per_line: 24,
    };
    assert_eq!(accept_transition(&arrived(2, 3), &transfer, &calc), Ok(None));
    assert_eq!(
        accept_transition(&arrived(2, 4), &transfer, &calc)
            .unwrap_err()
            .message(),
        "browser transition iterations are not adjacent"
    );
}

#[test]
fn lines_of_a_transition_are_half_way_in_its_middle() {
    let at = |x: f32| (single(x), single(0.0));
    let line = MorphLine {
        source_start: at(0.0),
        source_end: at(1.0),
        source_width: single(1.0),
        target_start: at(2.0),
        target_end: at(5.0),
        target_width: single(3.0),
        source_opacity: single(1.0),
        target_opacity: single(1.0),
        source_palette_start: at(0.0),
        source_palette_end: at(1.0),
        target_palette_start: at(2.0),
        target_palette_end: at(5.0),
        source_color: StrokeColor::Rgb([0, 0, 0]),
        target_color: StrokeColor::Rgb([255, 255, 255]),
        source_space_is_target: false,
        target_space_is_target: true,
    };
    let place = |anchor: Anchor| -> Point2d {
        (
            number(f64::from(short(anchor.point.0))),
            number(f64::from(short(anchor.point.1))),
        )
    };
    let color = |side: AnchorColor| match side.color {
        StrokeColor::Rgb([255, _, _]) => (number(1.0), number(1.0), number(1.0)),
        _ => (number(0.0), number(0.0), number(0.0)),
    };
    let blended = blend_line(
        line,
        number(0.5),
        number(1.0),
        number(1.0),
        false,
        &place,
        &color,
        &calc,
    )
    .unwrap();
    assert_eq!(float(blended.start.0), 1.0);
    assert_eq!(float(blended.end.0), 3.0);
    assert_eq!(float(blended.width), 2.0);
    assert_eq!(float(blended.alpha), 1.0);
    assert_eq!(float(blended.color.0), 0.5);
}

#[test]
fn fingers_are_measured() {
    let one = vec![(number(3.0), number(4.0))];
    let (middle, distance) = touch_measurement(&one, &calc);
    assert_eq!((float(middle.0), float(middle.1)), (3.0, 4.0));
    assert_eq!(float(distance), 0.0);
    let two = vec![(number(0.0), number(0.0)), (number(6.0), number(8.0))];
    let (middle, distance) = touch_measurement(&two, &calc);
    assert_eq!((float(middle.0), float(middle.1)), (3.0, 4.0));
    assert_eq!(float(distance), 10.0);
    assert_eq!(float(pinch_scale(number(5.0), distance, &calc)), 2.0);
    assert_eq!(float(pinch_scale(number(0.0), distance, &calc)), 1.0);
}

#[test]
fn the_pace_of_an_animation_starts_and_ends_at_rest() {
    let ease = |progress: f32| short(iteration_ease(single(progress), &small));
    assert_eq!(ease(0.0), 0.0);
    assert_eq!(ease(1.0), 1.0);
    assert_eq!(ease(-3.0), 0.0);
    assert_eq!(ease(7.0), 1.0);
    assert!(ease(0.1) < 0.1);
    assert!(ease(0.9) > 0.9);
    assert_eq!(float(line_width_scale(150, &calc)), 1.5);
}

#[test]
fn exports_list_every_line_and_polygon_with_its_depth() {
    let offsets = vec![0, 1];
    let polygons = vec![
        vec![
            (number(0.0), number(0.0), number(3.0)),
            (number(6.0), number(0.0), number(3.0)),
        ],
        Vec::new(),
    ];
    let line_depth = |index: usize| number(index as f64 + 0.5);
    let depth_of = |point: Point3d| point.2;
    let mut list = SvgOrder::new(2, &offsets, &polygons).ok().unwrap();
    assert_eq!(
        list.step(&mut Hook::new(|| true), &line_depth, &depth_of, &calc).unwrap_err(),
        CanvasError::Cancelled
    );
    while !list.is_complete() {
        list.step(&mut Hook::new(never), &line_depth, &depth_of, &calc).unwrap();
    }
    let order = list.finish(&line_depth, &depth_of, &calc).unwrap();
    assert_eq!(
        order,
        [
            depth(0.5, SpatialPrimitive::Line(0), 1),
            depth(1.5, SpatialPrimitive::Line(1), 3),
            depth(3.0, SpatialPrimitive::Polygon(0), 0),
            depth(0.0, SpatialPrimitive::Polygon(1), 2),
        ]
    );
}

#[test]
fn lines_without_width_are_not_drawn() {
    let planar = |width: f32, base: f64| planar_line_width(single(width), number(base), &calc).map(float);
    assert_eq!(planar(2.0, 1.5), Some(3.0));
    assert_eq!(planar(0.0, 1.5), None);
    assert_eq!(planar(2.0, f64::INFINITY), None);
    let spatial = |width: f32, scale: f64| {
        spatial_line_width(single(width), number(2.0), number(1.5), number(scale), &calc).map(float)
    };
    assert_eq!(spatial(4.0, 0.5), Some(1.5));
    assert_eq!(spatial(-1.0, 0.5), None);
    assert_eq!(spatial(4.0, 0.0), None);
}

#[test]
fn an_encoder_hears_no_more_after_a_yes() {
    let scene = CanvasScene {
        line_count: 3,
        polygons: Vec::new(),
        texts: Vec::new(),
        bounds: None,
        total_line_length: None,
        background: None,
    };
    let run = |limit: usize| {
        let asked = std::cell::Cell::new(0usize);
        let mut hook = Hook::new(|| {
            asked.set(asked.get() + 1);
            asked.get() > limit
        });
        let mut encoder = SvgEncoder::new(&scene, true, number(1.0), &scribe, &calc).unwrap();
        let result =
            encoder.encode_next_batch(&mut hook, &source_line, &scribe, &single_scribe, &calc);
        (result.is_ok(), asked.get())
    };
    let (complete, all) = run(usize::MAX);
    assert!(complete);
    assert!(all > 2);
    for limit in 0..all {
        assert_eq!(run(limit), (false, limit + 1));
    }
}

#[test]
fn a_yes_ends_the_sorting() {
    let order: Vec<DepthPrimitive> = (0..10)
        .map(|index| depth(index as f64, SpatialPrimitive::Line(index), index))
        .collect();
    let mut sorter = DepthSorter::new(order);
    assert_eq!(
        sorter.step(&mut Hook::new(|| true)).unwrap_err(),
        CanvasError::Cancelled
    );
    assert!(!sorter.is_finished());
    let mut hook = Hook::new(never);
    while !sorter.is_finished() {
        sorter.step(&mut hook).unwrap();
    }
    assert_eq!(
        sorter.step(&mut Hook::new(|| true)).unwrap_err(),
        CanvasError::Cancelled
    );
    assert_eq!(sorter.into_order().unwrap().len(), 10);
}

#[test]
fn texts_are_painted_by_their_role() {
    assert_eq!(painted_text_rgb(TextRole::Muted, true), [125, 137, 154]);
    assert_eq!(painted_text_rgb(TextRole::Error, false), [220, 80, 80]);
    assert_eq!(painted_text_rgb(TextRole::Title, true), [238, 242, 248]);
    assert_eq!(painted_text_rgb(TextRole::Body, false), [38, 50, 71]);
    let text = |x: f64, y: f64, size: f64| CanvasText {
        x: number(x),
        y: number(y),
        size: number(size),
        content: String::from("text"),
        role: TextRole::Body,
    };
    let (size, at) = painted_text_place(&text(1.5, f64::NAN, -2.0));
    assert_eq!((float(size), float(at.0), float(at.1)), (16.0, 1.5, 0.0));
    let (size, at) = painted_text_place(&text(f64::INFINITY, -3.0, 9.0));
    assert_eq!((float(size), float(at.0), float(at.1)), (9.0, 0.0, -3.0));
}

#[test]
fn polygons_without_a_color_take_the_middle_of_the_ramp() {
    assert_eq!(
        planar_fill_color(StrokeColor::ThemeDefault, true),
        ResolvedColor::Palette(24)
    );
    assert_eq!(
        planar_fill_color(StrokeColor::Rgb([1, 2, 3]), false),
        ResolvedColor::Rgb([1, 2, 3])
    );
}

#[test]
fn offsets_are_in_order_or_not() {
    assert!(offsets_in_order(&[]));
    assert!(offsets_in_order(&[4]));
    assert!(offsets_in_order(&[0, 1, 1, 2]));
    assert!(!offsets_in_order(&[0, 2, 1]));
}
