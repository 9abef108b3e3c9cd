//! Vector and text targets: stroke widths, palettes, projections and encodings.

use braken_viz::edges::measure;
use braken_viz::geometry::Lines2d;
use braken_viz::palette::{
    quantize_to_endpoints, spatial_theme_default_bucket, turtle_stroke_rgb,
    SPATIAL_SOFTWARE_LIGHT_BUCKETS, SPATIAL_SOFTWARE_MIN_LIGHT_BITS,
    SPATIAL_THEME_DEFAULT_COLOR_BUCKETS,
};
use braken_viz::shading::{
    spatial_lit_color, spatial_lit_color_bounded, spatial_theme_default_color,
    spatial_theme_default_color_at, spatial_theme_default_rgb8_at, srgb_to_linear,
};
use braken_viz::spatial::{encode_3d, encode_3d_with_stroke_scale, prepare_3d_scene};
use braken_viz::stroke::{
    adaptive_scene_stroke_width, adaptive_spatial_scene_stroke_width,
    adaptive_spatial_scene_svg_stroke_width, adaptive_stroke_width, adaptive_svg_stroke_width,
};
use braken_viz::{
    canonical_project_point_3d, svg, tui, Arithmetic, Line2d, Line3d, Palette, Point2d, Point3d,
    Polygon3d, Primitive2d, Primitive3d, Real, Scene2d, Scene3d, Single, SingleArithmetic,
    StrokeColor, StrokeWidthEstimator, StyledLine2d, StyledLine3d, Text2d, TextRole,
};

fn number(value: f64) -> Real {
    Real::from_bits(value.to_bits())
}

fn float(value: Real) -> f64 {
    f64::from_bits(value.to_bits())
}

fn calc(op: Arithmetic) -> Real {
    number(match op {
        Arithmetic::Sum(a, b) => float(a) + float(b),
        Arithmetic::Difference(a, b) => float(a) - float(b),
        Arithmetic::Product(a, b) => float(a) * float(b),
        Arithmetic::Quotient(a, b) => float(a) / float(b),
        Arithmetic::Reciprocal(a) => 1.0 / float(a),
        Arithmetic::Radians(a) => float(a).to_radians(),
        Arithmetic::Cosine(a) => float(a).cos(),
        Arithmetic::Sine(a) => float(a).sin(),
        Arithmetic::ArcTangent(a) => float(a).atan(),
        Arithmetic::SquareRoot(a) => float(a).sqrt(),
        Arithmetic::Hypotenuse(a, b) => float(a).hypot(float(b)),
        Arithmetic::Rounded(a) => float(a).round(),
        Arithmetic::Ceiling(a) => float(a).ceil(),
        Arithmetic::Widened(bits) => f64::from(f32::from_bits(bits)),
        Arithmetic::Narrowed(a) => f64::from(float(a) as f32),
        Arithmetic::Count(n) => n as f64,
        Arithmetic::Integer(n) => n as f64,
    })
}

fn single(value: f32) -> Single {
    Single::from_bits(value.to_bits())
}

fn short(value: Single) -> f32 {
    f32::from_bits(value.bits)
}

fn small(op: SingleArithmetic) -> Single {
    single(match op {
        SingleArithmetic::Sum(a, b) => short(a) + short(b),
        SingleArithmetic::Difference(a, b) => short(a) - short(b),
        SingleArithmetic::Product(a, b) => short(a) * short(b),
        SingleArithmetic::Quotient(a, b) => short(a) / short(b),
        SingleArithmetic::Power(a, b) => short(a).powf(short(b)),
        SingleArithmetic::Rounded(a) => short(a).round(),
        SingleArithmetic::Floor(a) => short(a).floor(),
        SingleArithmetic::Ceiling(a) => short(a).ceil(),
        SingleArithmetic::Narrowed(a) => float(a) as f32,
        SingleArithmetic::Count(n) => f32::from(n),
    })
}

fn scribe(value: Real) -> String {
    format!("{}", float(value))
}

fn point2(x: f64, y: f64) -> Point2d {
    (number(x), number(y))
}

fn point3(x: f64, y: f64, z: f64) -> Point3d {
    (number(x), number(y), number(z))
}

fn line2(start: (f64, f64), end: (f64, f64)) -> Line2d {
    Line2d(point2(start.0, start.1), point2(end.0, end.1))
}

fn rod(start: (f64, f64, f64), end: (f64, f64, f64), width: f64, color: StrokeColor) -> Primitive3d {
    Primitive3d::Line(StyledLine3d {
        line: Line3d(
            point3(start.0, start.1, start.2),
            point3(end.0, end.1, end.2),
        ),
        width: number(width),
        color,
    })
}

fn floats(color: [Single; 3]) -> [f32; 3] {
    color.map(short)
}

fn rgb8_at(position: f64, palette: Palette) -> [u8; 3] {
    spatial_theme_default_rgb8_at(number(position), palette, &calc, &small)
}

fn lit(base: [f32; 3], background: [f32; 3], light: f64, near_depth: f64) -> [f32; 3] {
    floats(spatial_lit_color(
        base.map(single),
        background.map(single),
        number(light),
        number(near_depth),
        &calc,
        &small,
    ))
}

fn lit_bounded(base: [f32; 3], background: [f32; 3], light: f64, near_depth: f64) -> [f32; 3] {
    floats(spatial_lit_color_bounded(
        base.map(single),
        background.map(single),
        number(light),
        number(near_depth),
        &calc,
        &small,
    ))
}

fn linear(channel: f32) -> f32 {
    short(srgb_to_linear(single(channel), &small))
}

fn relative_luminance(color: [f32; 3]) -> f32 {
    0.2126 * linear(color[0]) + 0.7152 * linear(color[1]) + 0.0722 * linear(color[2])
}

fn contrast(left: [f32; 3], right: [f32; 3]) -> f32 {
    let left = relative_luminance(left);
    let right = relative_luminance(right);
    let (lighter, darker) = if left >= right {
        (left, right)
    } else {
        (right, left)
    };
    (lighter + 0.05) / (darker + 0.05)
}

const LIGHT_SPATIAL_START: [u8; 3] = [0x06, 0x4e, 0x3b];
const LIGHT_SPATIAL_END: [u8; 3] = [0x20, 0x76, 0x42];
const DARK_SPATIAL_START: [u8; 3] = [0x4a, 0xde, 0x80];
const DARK_SPATIAL_END: [u8; 3] = [0xa7, 0xf3, 0xd0];

#[test]
fn spatial_palette_retains_emerald_endpoints_and_bounded_buckets() {
    let bucket = |position: f64| spatial_theme_default_bucket(number(position), &calc);
    assert_eq!(bucket(-1.0), 0);
    assert_eq!(bucket(0.0), 0);
    assert_eq!(bucket(1.0), 47);
    assert_eq!(bucket(f64::NAN), 24);
    assert_eq!(bucket(f64::INFINITY), 24);
    assert_eq!(rgb8_at(0.0, Palette::Light), LIGHT_SPATIAL_START);
    assert_eq!(rgb8_at(1.0, Palette::Light), LIGHT_SPATIAL_END);
    assert_eq!(rgb8_at(0.0, Palette::Dark), DARK_SPATIAL_START);
    assert_eq!(rgb8_at(1.0, Palette::Dark), DARK_SPATIAL_END);
}

#[test]
fn spatial_palette_interpolates_in_linear_light() {
    let bucket = SPATIAL_THEME_DEFAULT_COLOR_BUCKETS / 2;
    let position = bucket as f32 / (SPATIAL_THEME_DEFAULT_COLOR_BUCKETS - 1) as f32;
    let actual = floats(spatial_theme_default_color(bucket, Palette::Light, &small));
    for channel in 0..3 {
        let start = linear(f32::from(LIGHT_SPATIAL_START[channel]) / 255.0);
        let end = linear(f32::from(LIGHT_SPATIAL_END[channel]) / 255.0);
        let expected = start + (end - start) * position;
        assert!((linear(actual[channel]) - expected).abs() < 1.0e-6);
    }
}

#[test]
fn spatial_lighting_is_finite_and_near_geometry_has_more_contrast() {
    let cases = [
        (
            Palette::Light,
            [242.0 / 255.0, 245.0 / 255.0, 249.0 / 255.0],
        ),
        (Palette::Dark, [15.0 / 255.0, 20.0 / 255.0, 32.0 / 255.0]),
    ];
    for (palette, background) in cases {
        let base = floats(spatial_theme_default_color_at(
            number(0.5),
            palette,
            &calc,
            &small,
        ));
        let far = lit(base, background, 1.0, 0.0);
        let near = lit(base, background, 1.0, 1.0);
        assert!(far.into_iter().all(|channel| channel.is_finite()));
        assert!(near.into_iter().all(|channel| channel.is_finite()));
        assert!(contrast(near, background) > contrast(far, background));
        assert!(contrast(far, background) >= 3.0);
    }

    let invalid = lit(
        [f32::NAN, f32::INFINITY, -1.0],
        [f32::NAN, 2.0, f32::NEG_INFINITY],
        f64::NAN,
        f64::INFINITY,
    );
    assert!(invalid
        .into_iter()
        .all(|channel| channel.is_finite() && (0.0..=1.0).contains(&channel)));
}

#[test]
fn bounded_spatial_lighting_retains_endpoints_and_sanitizes_samples() {
    let min_light = f64::from_bits(SPATIAL_SOFTWARE_MIN_LIGHT_BITS);
    let base = floats(spatial_theme_default_color_at(
        number(0.5),
        Palette::Light,
        &calc,
        &small,
    ));
    let background = [242.0 / 255.0, 245.0 / 255.0, 249.0 / 255.0];
    assert_eq!(
        lit_bounded(base, background, -1.0, -1.0),
        lit(base, background, min_light, 0.0),
    );
    assert_eq!(
        lit_bounded(base, background, 2.0, 2.0),
        lit(base, background, 1.0, 1.0),
    );

    let invalid = lit_bounded(
        [f32::NAN, f32::INFINITY, f32::NEG_INFINITY],
        [f32::NAN, f32::INFINITY, f32::NEG_INFINITY],
        f64::NAN,
        f64::INFINITY,
    );
    assert!(invalid
        .into_iter()
        .all(|channel| channel.is_finite() && (0.0..=1.0).contains(&channel)));

    let light = float(quantize_to_endpoints(
        number(0.78),
        number(min_light),
        number(1.0),
        SPATIAL_SOFTWARE_LIGHT_BUCKETS,
        &calc,
    ));
    let normalized = (light - min_light) / (1.0 - min_light);
    assert!((normalized * (SPATIAL_SOFTWARE_LIGHT_BUCKETS - 1) as f64).fract() < 1.0e-12);
}

#[test]
fn stroke_estimator_accumulates_total_length() {
    let mut estimator = StrokeWidthEstimator::default();
    estimator.observe(line2((0.0, 0.0), (1.0, 0.0)), &calc);
    estimator.observe(line2((0.0, 0.0), (0.0, 4.0)), &calc);
    estimator.observe(line2((3.0, 3.0), (3.0, 3.0)), &calc);
    estimator.observe(line2((0.0, 0.0), (f64::INFINITY, 0.0)), &calc);

    assert_eq!(estimator.total_line_length().map(float), Some(5.0));
    assert_eq!(estimator.line_count(), 2);
}

#[test]
fn total_length_is_invariant_under_collinear_subdivision() {
    let mut whole = StrokeWidthEstimator::default();
    whole.observe(line2((0.0, 0.0), (10.0, 0.0)), &calc);
    let mut subdivided = StrokeWidthEstimator::default();
    for x in 0..10 {
        subdivided.observe(line2((f64::from(x), 0.0), (f64::from(x + 1), 0.0)), &calc);
    }

    assert_eq!(whole.total_line_length(), subdivided.total_line_length());
}

fn adaptive(total: Option<f64>, extent: (f64, f64), scale: f64) -> f64 {
    float(adaptive_stroke_width(
        total.map(number),
        point2(extent.0, extent.1),
        number(scale),
        &calc,
    ))
}

fn adaptive_scene(total: Option<f64>, count: usize, extent: (f64, f64), scale: f64) -> f64 {
    float(adaptive_scene_stroke_width(
        total.map(number),
        count,
        point2(extent.0, extent.1),
        number(scale),
        &calc,
    ))
}

#[test]
fn adaptive_width_targets_density_without_a_positive_floor() {
    let low_iteration = adaptive(Some(3.0), (1.0, 1.0), 500.0 / 1.08);
    let high_iteration = adaptive(Some(262_143.0), (511.0, 511.0), 500.0 / 551.88);

    assert_eq!(low_iteration, 10.0);
    assert!((0.586..0.587).contains(&high_iteration));
    assert!(high_iteration < 1.0);
}

#[test]
fn adaptive_width_uses_the_chunky_default_for_sparse_or_invalid_geometry() {
    assert_eq!(adaptive(Some(10.0), (10.0, 0.0), 8.0), 10.0);
    assert_eq!(adaptive(None, (10.0, 10.0), 8.0), 10.0);
    assert_eq!(adaptive(Some(10.0), (10.0, 10.0), f64::NAN), 10.0);
}

#[test]
fn svg_width_converts_the_nominal_fitted_width_back_to_view_units() {
    let width = float(adaptive_svg_stroke_width(
        Some(number(1_000.0)),
        point2(10.0, 10.0),
        number(100.0),
        &calc,
    ));
    assert!((width - 0.065).abs() < 1.0e-12);
}

#[test]
fn svg_fitted_width_thins_as_path_density_increases() {
    let fitted_width = |total_line_length: f64| {
        float(adaptive_svg_stroke_width(
            Some(number(total_line_length)),
            point2(31.0, 31.0),
            number(33.48),
            &calc,
        )) * 500.0
            / 33.48
    };

    assert!(fitted_width(1_023.0) > fitted_width(4_095.0));
    assert!(fitted_width(4_095.0) > fitted_width(16_383.0));
}

#[test]
fn scene_detail_cap_preserves_hilbert_and_penrose_density_widths() {
    let hilbert = adaptive_scene(Some(262_143.0), 262_143, (511.0, 511.0), 500.0 / 551.88);
    let penrose = adaptive_scene(Some(7_920.0), 7_920, (24.172, 23.489), 500.0 / 26.106);

    assert!((0.586..0.587).contains(&hilbert));
    assert!((0.89..0.90).contains(&penrose));
}

#[test]
fn scene_segment_cap_tracks_recursive_step_length() {
    let fitted_width = |line_count: usize, long_edge: f64| {
        adaptive_scene(
            Some(line_count as f64),
            line_count,
            (long_edge * 0.57, long_edge),
            500.0 / (long_edge * 1.08),
        )
    };

    assert!((4.88..4.90).contains(&fitted_width(728, 61.5)));
    assert!((2.77..2.79).contains(&fitted_width(2_186, 108.3)));
    assert!((1.58..1.60).contains(&fitted_width(6_560, 189.3)));
}

#[test]
fn scene_segment_cap_preserves_gaps_in_koch_and_dragon_curves() {
    let fitted_width = |line_count: usize, drawing_extent: (f64, f64), view_extent: f64| {
        adaptive_scene(
            Some(line_count as f64),
            line_count,
            drawing_extent,
            500.0 / view_extent,
        )
    };

    let koch_4 = fitted_width(768, (93.53, 81.0), 101.013);
    let koch_9 = fitted_width(786_432, (22_727.97, 19_683.0), 24_546.208);
    let dragon_12 = fitted_width(4_096, (63.0, 95.0), 102.6);
    let dragon_17 = fitted_width(131_072, (511.0, 426.0), 551.88);

    assert!((3.21..3.23).contains(&koch_4));
    assert!((0.092..0.094).contains(&koch_9));
    assert!((3.16..3.18).contains(&dragon_12));
    assert!((0.617..0.619).contains(&dragon_17));
}

#[test]
fn spatial_base_width_caps_sparse_rods_but_keeps_fine_detail() {
    let spatial = |total: Option<f64>, count: usize, extent: (f64, f64), scale: f64| {
        float(adaptive_spatial_scene_stroke_width(
            total.map(number),
            count,
            point2(extent.0, extent.1),
            number(scale),
            &calc,
        ))
    };
    let sparse = spatial(None, 3, (10.0, 4.0), 20.0);
    assert_eq!(sparse, 2.5);

    let detailed = adaptive_scene(Some(262_143.0), 262_143, (511.0, 511.0), 500.0 / 551.88);
    assert_eq!(
        spatial(Some(262_143.0), 262_143, (511.0, 511.0), 500.0 / 551.88),
        detailed
    );

    let svg = float(adaptive_spatial_scene_svg_stroke_width(
        None,
        3,
        point2(10.0, 4.0),
        number(100.0),
        &calc,
    ));
    assert!((svg - 0.5).abs() < 1.0e-12);
}

fn projected_line(scene: &Scene2d, index: usize) -> &StyledLine2d {
    let Primitive2d::Line(line) = &scene.primitives[index] else {
        panic!("primitive {index} was not a line");
    };
    line
}

fn first_stroke_width(svg: &str) -> f64 {
    svg.split("stroke-width=\"")
        .nth(1)
        .and_then(|value| value.split('"').next())
        .expect("SVG line stroke width")
        .parse::<f64>()
        .expect("numeric SVG line stroke width")
}

fn prepared(scene: &Scene3d, palette: Palette) -> Scene2d {
    prepare_3d_scene(scene, palette, &small, &calc)
}

#[test]
fn requested_stroke_scale_multiplies_the_automatic_width() {
    let scene = Scene2d::lines(Lines2d(vec![line2((0.0, 0.0), (10.0, 0.0))]));
    let automatic = svg::encode(&scene, Palette::Light, &scribe, &calc);
    let thin =
        svg::encode_with_stroke_scale(&scene, Palette::Light, number(0.05), &scribe, &calc);

    assert!((first_stroke_width(&thin) / first_stroke_width(&automatic) - 0.05).abs() < 1.0e-12);
}

#[test]
fn spatial_svg_uses_the_narrower_rod_base_without_changing_planar_svg() {
    let scene = Scene3d {
        primitives: vec![rod(
            (0.0, 0.0, 0.0),
            (1.0, 0.0, 0.0),
            1.0,
            StrokeColor::ThemeDefault,
        )],
        background: None,
    };
    let planar = svg::encode(
        &scene.canonical_projection(&calc),
        Palette::Light,
        &scribe,
        &calc,
    );
    let spatial = encode_3d(&scene, Palette::Light, &small, &scribe, &calc);

    assert!((first_stroke_width(&spatial) / first_stroke_width(&planar) - 0.25).abs() < 1.0e-12);
}

#[test]
fn spatial_defaults_use_source_aabb_positions_and_theme_palette() {
    let scene = Scene3d {
        primitives: vec![
            rod(
                (0.0, 1.0, 0.0),
                (0.0, 1.0, 0.0),
                1.0,
                StrokeColor::ThemeDefault,
            ),
            rod(
                (1.0, 0.0, 1.0),
                (1.0, 0.0, 1.0),
                1.0,
                StrokeColor::ThemeDefault,
            ),
        ],
        background: None,
    };

    let light = prepared(&scene, Palette::Light);
    let dark = prepared(&scene, Palette::Dark);
    assert_eq!(
        projected_line(&light, 0).color,
        StrokeColor::Rgb(rgb8_at(0.0, Palette::Light))
    );
    assert_eq!(
        projected_line(&light, 1).color,
        StrokeColor::Rgb(rgb8_at(1.0, Palette::Light))
    );
    assert_eq!(
        projected_line(&dark, 0).color,
        StrokeColor::Rgb(rgb8_at(0.0, Palette::Dark))
    );
    assert_eq!(
        projected_line(&dark, 1).color,
        StrokeColor::Rgb(rgb8_at(1.0, Palette::Dark))
    );
}

#[test]
fn spatial_palette_coordinate_matches_camera_degenerate_axis_behavior() {
    let scene = Scene3d {
        primitives: vec![rod(
            (2.0, 3.0, 4.0),
            (2.0, 3.0, 4.0),
            1.0,
            StrokeColor::ThemeDefault,
        )],
        background: None,
    };

    let projected = prepared(&scene, Palette::Light);
    assert_eq!(
        projected_line(&projected, 0).color,
        StrokeColor::Rgb(rgb8_at(0.35, Palette::Light))
    );
}

#[test]
fn spatial_polygons_use_their_source_centroid_for_default_color() {
    let scene = Scene3d {
        primitives: vec![Primitive3d::Polygon(Polygon3d {
            vertices: vec![
                point3(0.0, 0.0, 0.0),
                point3(1.0, 0.0, 0.0),
                point3(1.0, 1.0, 1.0),
                point3(0.0, 1.0, 1.0),
            ],
            color: StrokeColor::ThemeDefault,
        })],
        background: None,
    };

    let projected = prepared(&scene, Palette::Light);
    let Primitive2d::Polygon(polygon) = &projected.primitives[0] else {
        panic!("primitive was not a polygon");
    };
    assert_eq!(
        polygon.color,
        StrokeColor::Rgb(rgb8_at(0.5, Palette::Light))
    );
}

#[test]
fn spatial_projection_preserves_non_default_colors() {
    let scene = Scene3d {
        primitives: vec![
            rod(
                (0.0, 0.0, 0.0),
                (1.0, 0.0, 0.0),
                1.0,
                StrokeColor::Rgb([1, 2, 3]),
            ),
            Primitive3d::Polygon(Polygon3d {
                vertices: vec![
                    point3(0.0, 0.0, 0.0),
                    point3(1.0, 0.0, 0.0),
                    point3(0.0, 1.0, 0.0),
                ],
                color: StrokeColor::PaletteIndex(7),
            }),
        ],
        background: None,
    };

    let projected = prepared(&scene, Palette::Dark);
    assert_eq!(
        projected_line(&projected, 0).color,
        StrokeColor::Rgb([1, 2, 3])
    );
    let Primitive2d::Polygon(polygon) = &projected.primitives[1] else {
        panic!("second primitive was not a polygon");
    };
    assert_eq!(polygon.color, StrokeColor::PaletteIndex(7));
}

#[test]
fn spatial_widths_use_a_source_length_weighted_reference() {
    let scene = Scene3d {
        primitives: vec![
            rod(
                (0.0, 0.0, 0.0),
                (1.0, 0.0, 0.0),
                80.0,
                StrokeColor::ThemeDefault,
            ),
            rod(
                (0.0, 0.0, 0.0),
                (1.0, 1.0, 0.0),
                100.0,
                StrokeColor::ThemeDefault,
            ),
        ],
        background: None,
    };
    let expected_reference = (80.0 + 2.0_f64.sqrt() * 100.0) / (1.0 + 2.0_f64.sqrt());

    let projected = prepared(&scene, Palette::Light);
    let width = |index: usize| float(projected_line(&projected, index).width);
    assert!((width(0) - 80.0 / expected_reference).abs() < 1.0e-12);
    assert!((width(1) - 100.0 / expected_reference).abs() < 1.0e-12);
    let canonical = scene.canonical_projection(&calc);
    assert_eq!(
        projected_line(&projected, 0).line,
        projected_line(&canonical, 0).line
    );
}

#[test]
fn canonical_projection_preserves_scene_style_and_background() {
    let scene = Scene3d {
        primitives: vec![
            rod(
                (1.0, 2.0, 3.0),
                (4.0, 5.0, 6.0),
                2.5,
                StrokeColor::Rgb([1, 2, 3]),
            ),
            Primitive3d::Polygon(Polygon3d {
                vertices: vec![
                    point3(0.0, 0.0, 0.0),
                    point3(1.0, 0.0, 1.0),
                    point3(0.0, 1.0, 0.0),
                ],
                color: StrokeColor::PaletteIndex(4),
            }),
        ],
        background: Some([9, 8, 7]),
    };
    let project =
        |x: f64, y: f64, z: f64| canonical_project_point_3d(point3(x, y, z), &calc);

    let projected = scene.canonical_projection(&calc);
    assert_eq!(
        projected,
        scene.clone().into_canonical_projection(&calc),
        "borrowed and consuming projection paths must stay equivalent"
    );
    assert_eq!(projected.background, scene.background);
    let Primitive2d::Line(line) = &projected.primitives[0] else {
        panic!("first primitive was not a line");
    };
    assert_eq!(line.line.0, project(1.0, 2.0, 3.0));
    assert_eq!(line.line.1, project(4.0, 5.0, 6.0));
    assert_eq!(float(line.width), 2.5);
    assert_eq!(line.color, StrokeColor::Rgb([1, 2, 3]));
    let Primitive2d::Polygon(polygon) = &projected.primitives[1] else {
        panic!("second primitive was not a polygon");
    };
    assert_eq!(
        polygon.vertices,
        [
            project(0.0, 0.0, 0.0),
            project(1.0, 0.0, 1.0),
            project(0.0, 1.0, 0.0),
        ]
    );
    assert_eq!(polygon.color, StrokeColor::PaletteIndex(4));
}

#[test]
fn canonical_projection_is_equal_axis_isometric() {
    let project = |x: f64, y: f64, z: f64| {
        let point = canonical_project_point_3d(point3(x, y, z), &calc);
        (float(point.0), float(point.1))
    };
    let origin = project(0.0, 0.0, 0.0);
    let projected_length = |x: f64, y: f64, z: f64| {
        let projected = project(x, y, z);
        (projected.0 - origin.0).hypot(projected.1 - origin.1)
    };
    let x = projected_length(1.0, 0.0, 0.0);
    let y = projected_length(0.0, 1.0, 0.0);
    let z = projected_length(0.0, 0.0, 1.0);

    assert!((x - y).abs() < 1.0e-12, "{x} != {y}");
    assert!((x - z).abs() < 1.0e-12, "{x} != {z}");
}

#[test]
fn static_targets_use_the_canonical_3d_projection() {
    let scene = Scene3d {
        primitives: vec![rod(
            (0.0, 0.0, 0.0),
            (1.0, 2.0, 3.0),
            1.0,
            StrokeColor::ThemeDefault,
        )],
        background: None,
    };
    let projected = scene.canonical_projection(&calc);
    let Primitive2d::Line(line) = &projected.primitives[0] else {
        panic!("canonical projection changed primitive kind");
    };
    let expected_color = rgb8_at(0.5, Palette::Light);
    let svg = encode_3d(&scene, Palette::Light, &small, &scribe, &calc);

    assert!(
        svg.contains(&format!(
            "x1=\"{}\" y1=\"{}\" x2=\"{}\" y2=\"{}\"",
            float(line.line.0 .0),
            -float(line.line.0 .1),
            float(line.line.1 .0),
            -float(line.line.1 .1)
        )),
        "static SVG did not use the canonical projection: {svg}"
    );
    assert!(svg.contains(&format!(
        "stroke=\"#{:02x}{:02x}{:02x}\"",
        expected_color[0], expected_color[1], expected_color[2]
    )));
    assert_eq!(
        tui::encode_3d(&scene, (20, 8), &calc),
        tui::encode(&projected, (20, 8), &calc)
    );
}

#[test]
fn svg_escapes_text_and_tui_draws_braille() {
    let text_scene = Scene2d {
        primitives: vec![Primitive2d::Text(Text2d {
            position: point2(0.0, 10.0),
            content: "a < b & c".into(),
            size: number(12.0),
            role: TextRole::Body,
        })],
        background: None,
    };
    assert!(
        svg::encode(&text_scene, Palette::Light, &scribe, &calc).contains("a &lt; b &amp; c")
    );
    let line_scene = Scene2d::lines(Lines2d(vec![line2((0.0, 0.0), (1.0, 1.0))]));
    assert!(tui::encode(&line_scene, (8, 4), &calc)
        .expect("every dot lies on the grid")
        .chars()
        .any(|value| ('\u{2801}'..='\u{28ff}').contains(&value)));
}

#[test]
fn svg_multiplies_its_adaptive_width_by_the_line_style() {
    let scene = Scene2d {
        primitives: vec![Primitive2d::Line(StyledLine2d {
            line: line2((0.0, 0.0), (10.0, 0.0)),
            width: number(3.0),
            color: StrokeColor::ThemeDefault,
        })],
        background: None,
    };
    let svg = svg::encode(&scene, Palette::Light, &scribe, &calc);
    assert!(svg.contains("stroke-width=\"0.648"), "{svg}");
    assert!(svg.contains("stroke-linecap=\"round\""), "{svg}");
}

#[test]
fn svg_uses_explicit_turtle_colors_and_backgrounds() {
    let scene = Scene2d {
        primitives: vec![Primitive2d::Line(StyledLine2d {
            line: line2((0.0, 0.0), (1.0, 1.0)),
            width: number(1.0),
            color: StrokeColor::Rgb([18, 52, 86]),
        })],
        background: Some([1, 2, 3]),
    };
    let svg = svg::encode(&scene, Palette::Dark, &scribe, &calc);
    assert!(svg.contains("fill=\"#010203\""), "{svg}");
    assert!(svg.contains("stroke=\"#123456\""), "{svg}");
}

#[test]
fn turtle_palettes_go_round_and_differ() {
    assert_eq!(
        turtle_stroke_rgb(StrokeColor::PaletteIndex(0), Palette::Light),
        Some([37, 99, 235])
    );
    assert_eq!(
        turtle_stroke_rgb(StrokeColor::PaletteIndex(12), Palette::Light),
        Some([37, 99, 235])
    );
    assert_eq!(
        turtle_stroke_rgb(StrokeColor::PaletteIndex(0), Palette::Dark),
        Some([96, 165, 250])
    );
    assert_eq!(
        turtle_stroke_rgb(StrokeColor::ThemeDefault, Palette::Dark),
        None
    );
}

#[test]
fn unusable_stroke_scales_are_ignored() {
    let scene = Scene3d {
        primitives: vec![rod(
            (0.0, 0.0, 0.0),
            (1.0, 0.0, 0.0),
            1.0,
            StrokeColor::Rgb([1, 2, 3]),
        )],
        background: None,
    };
    let automatic = encode_3d(&scene, Palette::Light, &small, &scribe, &calc);
    for scale in [0.0, -1.0, f64::NAN, f64::INFINITY] {
        assert_eq!(
            encode_3d_with_stroke_scale(
                &scene,
                Palette::Light,
                number(scale),
                &small,
                &scribe,
                &calc
            ),
            automatic
        );
    }
}

#[test]
fn lines_are_fitted_sorted_and_kept_once() {
    let lines = Lines2d(vec![
        line2((1.0, 1.0), (0.0, 0.0)),
        line2((0.0, 0.0), (1.0, 1.0)),
        line2((0.0, 0.0), (1.0, 1.0)),
    ]);
    let fitted = lines.fit_to(point2(10.0, 10.0), &calc);
    assert_eq!(
        fitted.0,
        [
            line2((0.0, 0.0), (10.0, 10.0)),
            line2((10.0, 10.0), (0.0, 0.0)),
        ]
    );
    let extent = measure(&fitted.0, false);
    assert_eq!(float(extent.min_x), 0.0);
    assert_eq!(float(extent.max_x), 10.0);
}

#[test]
fn fitting_ignores_order_and_repeats() {
    let first = line2((0.0, 0.0), (4.0, 1.0));
    let second = line2((2.0, -3.0), (1.0, 1.0));
    let third = line2((-1.0, 2.0), (0.5, 0.25));
    let fitted = |lines: Vec<Line2d>| Lines2d(lines).fit_to(point2(10.0, 10.0), &calc).0;
    assert_eq!(
        fitted(vec![first, second, third]),
        fitted(vec![third, first, third, second, first])
    );
}

#[test]
fn lines_without_width_show_no_dots() {
    let scene = |width: f64| Scene2d {
        primitives: vec![Primitive2d::Line(StyledLine2d {
            line: line2((0.0, 0.0), (1.0, 1.0)),
            width: number(width),
            color: StrokeColor::ThemeDefault,
        })],
        background: None,
    };
    let dots = |width: f64| {
        tui::encode(&scene(width), (8, 4), &calc)
            .unwrap()
            .chars()
            .filter(|value| ('\u{2801}'..='\u{28ff}').contains(value))
            .count()
    };
    assert_eq!(dots(0.0), 0);
    assert_eq!(dots(-0.0), 0);
    assert!(dots(1.0) > 0);
}

#[test]
fn a_drawing_is_fitted_with_lines_that_are_not_seen() {
    let styled = |line: Line2d, width: f64| {
        Primitive2d::Line(StyledLine2d {
            line,
            width: number(width),
            color: StrokeColor::ThemeDefault,
        })
    };
    let seen = line2((0.0, 0.0), (1.0, 0.0));
    let unseen = line2((0.0, 0.0), (0.0, 3.0));
    let shown = |primitives: Vec<Primitive2d>| {
        let scene = Scene2d {
            primitives,
            background: None,
        };
        tui::encode(&scene, (2, 2), &calc).unwrap()
    };
    assert_eq!(shown(vec![styled(seen, 1.0)]), "⠉⠉\n⠀⠀\n");
    assert_eq!(
        shown(vec![styled(seen, 1.0), styled(unseen, 0.0)]),
        "⠀⠀\n⣀⣀\n"
    );
    assert_eq!(shown(vec![styled(unseen, 0.0)]), "⠀⠀\n⠀⠀\n");
}

#[test]
fn a_dot_beside_the_grid_is_not_set() {
    let mut cells = vec![0u8; 4];
    tui::set_dot(&mut cells, 2, 3, 5);
    assert_eq!(cells, [0, 0, 0, 16]);
    tui::set_dot(&mut cells, 2, 9, 90);
    assert_eq!(cells, [0, 0, 0, 16]);
}
