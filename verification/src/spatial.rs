//! Spatial scenes prepared for a static planar target.

use vstd::prelude::*;

use crate::edges::TENTH_BITS;
use crate::geometry::{
    Bounds3d, Line2d, Line3d, Point3d, Polygon2d, Primitive2d, Primitive3d, Scene2d, Scene3d,
    StrokeColor, StyledLine2d,
};
use crate::number::{answers, calculate, calculates, Arithmetic, Real, HALF_BITS, ONE_BITS};
use crate::oracle::{consistent, function_of};
use crate::palette::{ramp_bucket, Palette};
use crate::shading::{spatial_theme_default_rgb8_at, theme_bytes};
use crate::single::{Single, SingleArithmetic};
use crate::stroke::{normalized_turtle_3d_width, normalized_width, Turtle3dWidthReferenceEstimator};
use crate::svg::{
    encode_prepared, numerals, svg_of, writes_numbers, StrokePolicy, X_WEIGHT_BITS, Y_WEIGHT_BITS,
    Z_WEIGHT_BITS,
};
use crate::visualize::{
    canonical_project_point_3d, project_vertices, projected_point, shape_2d, shape_3d, shapes_2d,
    shapes_3d, Shape, Shape2d, Shape3d,
};
use crate::walk::Outline;

verus! {

/// The colours of the theme's ramps, as two calculators give them.
pub open spec fn themed<C: Fn(Arithmetic) -> Real, S: Fn(SingleArithmetic) -> Single>(
    calc: C,
    small: S,
) -> spec_fn(usize, Palette) -> [u8; 3] {
    theme_bytes(answers(calc), function_of::<SingleArithmetic, Single, S>(small))
}

pub open spec fn point_finite(point: Point3d) -> bool {
    point.0.finite() && point.1.finite() && point.2.finite()
}

fn point_is_finite(point: Point3d) -> (r: bool)
    ensures
        r == point_finite(point),
{
    point.0.is_finite() && point.1.is_finite() && point.2.is_finite()
}

/// The bounds with one more point, where it is finite.
pub open spec fn with_finite(bounds: Option<Bounds3d>, point: Point3d) -> Option<Bounds3d> {
    if point_finite(point) {
        match bounds {
            None => Some(Bounds3d { min: point, max: point }),
            Some(bounds) => Some(
                Bounds3d {
                    min: (
                        bounds.min.0.lower(point.0),
                        bounds.min.1.lower(point.1),
                        bounds.min.2.lower(point.2),
                    ),
                    max: (
                        bounds.max.0.upper(point.0),
                        bounds.max.1.upper(point.1),
                        bounds.max.2.upper(point.2),
                    ),
                },
            ),
        }
    } else {
        bounds
    }
}

fn include_point(bounds: &mut Option<Bounds3d>, point: Point3d)
    ensures
        *final(bounds) == with_finite(*old(bounds), point),
{
    if !point_is_finite(point) {
        return;
    }
    match *bounds {
        None => {
            *bounds = Some(Bounds3d { min: point, max: point });
        },
        Some(known) => {
            *bounds = Some(
                Bounds3d {
                    min: (
                        known.min.0.min(point.0),
                        known.min.1.min(point.1),
                        known.min.2.min(point.2),
                    ),
                    max: (
                        known.max.0.max(point.0),
                        known.max.1.max(point.1),
                        known.max.2.max(point.2),
                    ),
                },
            );
        },
    }
}

pub open spec fn with_finite_points(bounds: Option<Bounds3d>, points: Seq<Point3d>) -> Option<
    Bounds3d,
>
    decreases points.len(),
{
    if points.len() == 0 {
        bounds
    } else {
        with_finite(with_finite_points(bounds, points.drop_last()), points.last())
    }
}

/// The bounds of the finite points of some shapes.
pub open spec fn source_bounds(shapes: Seq<Shape3d>) -> Option<Bounds3d>
    decreases shapes.len(),
{
    if shapes.len() == 0 {
        None
    } else {
        let before = source_bounds(shapes.drop_last());
        match shapes.last() {
            Shape::Line(line) => with_finite(with_finite(before, line.line.0), line.line.1),
            Shape::Polygon(outline) => with_finite_points(before, outline.vertices),
            Shape::Other => before,
        }
    }
}

/// The bounds that positions are measured in; a scene without finite points is
/// at the origin.
pub open spec fn measured_in(shapes: Seq<Shape3d>) -> Bounds3d {
    let zero = Real { bits: 0 };
    match source_bounds(shapes) {
        Some(bounds) => bounds,
        None => Bounds3d { min: (zero, zero, zero), max: (zero, zero, zero) },
    }
}

fn bounds_for(primitives: &Vec<Primitive3d>) -> (r: Bounds3d)
    ensures
        r == measured_in(shapes_3d(primitives@)),
{
    let ghost shapes = shapes_3d(primitives@);
    let mut bounds: Option<Bounds3d> = None;
    let mut i: usize = 0;
    while i < primitives.len()
        invariant
            i <= primitives@.len(),
            shapes == shapes_3d(primitives@),
            bounds == source_bounds(shapes.subrange(0, i as int)),
        decreases primitives@.len() - i,
    {
        assert(shapes.subrange(0, i + 1).drop_last() =~= shapes.subrange(0, i as int));
        assert(shapes[i as int] == shape_3d(primitives@[i as int]));
        match &primitives[i] {
            Primitive3d::Line(line) => {
                include_point(&mut bounds, line.line.0);
                include_point(&mut bounds, line.line.1);
            },
            Primitive3d::Polygon(polygon) => {
                let ghost before = bounds;
                let mut k: usize = 0;
                while k < polygon.vertices.len()
                    invariant
                        k <= polygon.vertices@.len(),
                        bounds == with_finite_points(
                            before,
                            polygon.vertices@.subrange(0, k as int),
                        ),
                    decreases polygon.vertices@.len() - k,
                {
                    assert(polygon.vertices@.subrange(0, k + 1).drop_last()
                        =~= polygon.vertices@.subrange(0, k as int));
                    include_point(&mut bounds, polygon.vertices[k]);
                    k = k + 1;
                }
                assert(polygon.vertices@.subrange(0, k as int) =~= polygon.vertices@);
            },
        }
        i = i + 1;
    }
    assert(shapes.subrange(0, i as int) =~= shapes);
    let zero: Real = Real { bits: 0 };
    match bounds {
        Some(bounds) => bounds,
        None => Bounds3d { min: (zero, zero, zero), max: (zero, zero, zero) },
    }
}

pub open spec fn finite_else(value: Real, fallback: Real) -> Real {
    if value.finite() {
        value
    } else {
        fallback
    }
}

pub(crate) fn finite_or(value: Real, fallback: Real) -> (r: Real)
    ensures
        r == finite_else(value, fallback),
{
    if value.is_finite() {
        value
    } else {
        fallback
    }
}

/// Where a value lies between two limits, from zero to one.
pub open spec fn axis_position(
    value: Real,
    minimum: Real,
    maximum: Real,
    ev: spec_fn(Arithmetic) -> Real,
) -> Real {
    let tenth = Real { bits: TENTH_BITS };
    let reach = ev(Arithmetic::Difference(maximum, minimum));
    let extent = if reach.finite() {
        reach.upper(tenth)
    } else {
        tenth
    };
    finite_else(
        ev(Arithmetic::Quotient(ev(Arithmetic::Difference(value, minimum)), extent)),
        Real { bits: HALF_BITS },
    ).within(Real { bits: 0 }, Real { bits: ONE_BITS })
}

fn normalized_axis<C: Fn(Arithmetic) -> Real>(
    value: Real,
    minimum: Real,
    maximum: Real,
    calc: &C,
) -> (r: Real)
    requires
        calculates(*calc),
    ensures
        r == axis_position(value, minimum, maximum, answers(*calc)),
{
    let tenth: Real = Real { bits: TENTH_BITS };
    let reach: Real = calculate(calc, Arithmetic::Difference(maximum, minimum));
    let extent: Real = if reach.is_finite() {
        reach.max(tenth)
    } else {
        tenth
    };
    let above: Real = calculate(calc, Arithmetic::Difference(value, minimum));
    let place: Real = calculate(calc, Arithmetic::Quotient(above, extent));
    finite_or(place, Real { bits: HALF_BITS }).clamp(Real { bits: 0 }, Real { bits: ONE_BITS })
}

/// Where a point lies on the colour ramp.
pub open spec fn ramp_position(
    bounds: Bounds3d,
    point: Point3d,
    ev: spec_fn(Arithmetic) -> Real,
) -> Real {
    let one = Real { bits: ONE_BITS };
    let x = axis_position(point.0, bounds.min.0, bounds.max.0, ev);
    let y = axis_position(point.1, bounds.min.1, bounds.max.1, ev);
    let z = axis_position(point.2, bounds.min.2, bounds.max.2, ev);
    ev(
        Arithmetic::Sum(
            ev(
                Arithmetic::Sum(
                    ev(Arithmetic::Product(Real { bits: X_WEIGHT_BITS }, x)),
                    ev(
                        Arithmetic::Product(
                            Real { bits: Y_WEIGHT_BITS },
                            ev(Arithmetic::Difference(one, y)),
                        ),
                    ),
                ),
            ),
            ev(Arithmetic::Product(Real { bits: Z_WEIGHT_BITS }, z)),
        ),
    ).within(Real { bits: 0 }, one)
}

pub fn palette_position<C: Fn(Arithmetic) -> Real>(bounds: Bounds3d, point: Point3d, calc: &C) -> (r:
    Real)
    requires
        calculates(*calc),
    ensures
        r == ramp_position(bounds, point, answers(*calc)),
{
    let one: Real = Real { bits: ONE_BITS };
    let x: Real = normalized_axis(point.0, bounds.min.0, bounds.max.0, calc);
    let y: Real = normalized_axis(point.1, bounds.min.1, bounds.max.1, calc);
    let z: Real = normalized_axis(point.2, bounds.min.2, bounds.max.2, calc);
    let x_part: Real = calculate(calc, Arithmetic::Product(Real { bits: X_WEIGHT_BITS }, x));
    let flipped: Real = calculate(calc, Arithmetic::Difference(one, y));
    let y_part: Real = calculate(calc, Arithmetic::Product(Real { bits: Y_WEIGHT_BITS }, flipped));
    let z_part: Real = calculate(calc, Arithmetic::Product(Real { bits: Z_WEIGHT_BITS }, z));
    let both: Real = calculate(calc, Arithmetic::Sum(x_part, y_part));
    calculate(calc, Arithmetic::Sum(both, z_part)).clamp(Real { bits: 0 }, one)
}

pub open spec fn middle_of(first: Real, second: Real, ev: spec_fn(Arithmetic) -> Real) -> Real {
    let half = Real { bits: HALF_BITS };
    finite_else(
        ev(
            Arithmetic::Sum(
                ev(Arithmetic::Product(first, half)),
                ev(Arithmetic::Product(second, half)),
            ),
        ),
        Real { bits: 0 },
    )
}

fn finite_midpoint<C: Fn(Arithmetic) -> Real>(first: Real, second: Real, calc: &C) -> (r: Real)
    requires
        calculates(*calc),
    ensures
        r == middle_of(first, second, answers(*calc)),
{
    let half: Real = Real { bits: HALF_BITS };
    let a: Real = calculate(calc, Arithmetic::Product(first, half));
    let b: Real = calculate(calc, Arithmetic::Product(second, half));
    finite_or(calculate(calc, Arithmetic::Sum(a, b)), Real { bits: 0 })
}

pub open spec fn midpoint_of(line: Line3d, ev: spec_fn(Arithmetic) -> Real) -> Point3d {
    (
        middle_of(line.0.0, line.1.0, ev),
        middle_of(line.0.1, line.1.1, ev),
        middle_of(line.0.2, line.1.2, ev),
    )
}

/// A mean coordinate moved towards one more.
pub open spec fn drawn_to(mean: Real, value: Real, weight: Real, ev: spec_fn(Arithmetic) -> Real) -> Real {
    ev(
        Arithmetic::Sum(
            mean,
            ev(Arithmetic::Product(ev(Arithmetic::Difference(value, mean)), weight)),
        ),
    )
}

pub(crate) fn draw_to<C: Fn(Arithmetic) -> Real>(mean: Real, value: Real, weight: Real, calc: &C) -> (r: Real)
    requires
        calculates(*calc),
    ensures
        r == drawn_to(mean, value, weight, answers(*calc)),
{
    let apart: Real = calculate(calc, Arithmetic::Difference(value, mean));
    let step: Real = calculate(calc, Arithmetic::Product(apart, weight));
    calculate(calc, Arithmetic::Sum(mean, step))
}

/// The running mean of the finite points. The first of them is taken as it is;
/// a later one weighs one part in as many points as there are up to it.
pub open spec fn centroid_of(points: Seq<Point3d>, ev: spec_fn(Arithmetic) -> Real) -> Option<
    Point3d,
>
    decreases points.len(),
{
    if points.len() == 0 {
        None
    } else {
        let before = centroid_of(points.drop_last(), ev);
        let point = points.last();
        if !point_finite(point) {
            before
        } else {
            match before {
                None => Some(point),
                Some(mean) => {
                    let weight = ev(
                        Arithmetic::Quotient(
                            Real { bits: ONE_BITS },
                            ev(Arithmetic::Count(points.len() as usize)),
                        ),
                    );
                    Some(
                        (
                            drawn_to(mean.0, point.0, weight, ev),
                            drawn_to(mean.1, point.1, weight, ev),
                            drawn_to(mean.2, point.2, weight, ev),
                        ),
                    )
                },
            }
        }
    }
}

pub fn polygon_centroid<C: Fn(Arithmetic) -> Real>(vertices: &Vec<Point3d>, calc: &C) -> (r: Option<
    Point3d,
>)
    requires
        calculates(*calc),
    ensures
        r == centroid_of(vertices@, answers(*calc)),
{
    let mut centroid: Option<Point3d> = None;
    let mut i: usize = 0;
    while i < vertices.len()
        invariant
            calculates(*calc),
            i <= vertices@.len(),
            centroid == centroid_of(vertices@.subrange(0, i as int), answers(*calc)),
        decreases vertices@.len() - i,
    {
        assert(vertices@.subrange(0, i + 1).drop_last() =~= vertices@.subrange(0, i as int));
        let point: Point3d = vertices[i];
        if point_is_finite(point) {
            match centroid {
                None => {
                    centroid = Some(point);
                },
                Some(mean) => {
                    let count: Real = calculate(calc, Arithmetic::Count(i + 1));
                    let weight: Real = calculate(
                        calc,
                        Arithmetic::Quotient(Real { bits: ONE_BITS }, count),
                    );
                    centroid = Some(
                        (
                            draw_to(mean.0, point.0, weight, calc),
                            draw_to(mean.1, point.1, weight, calc),
                            draw_to(mean.2, point.2, weight, calc),
                        ),
                    );
                },
            }
        }
        i = i + 1;
    }
    assert(vertices@.subrange(0, i as int) =~= vertices@);
    centroid
}

/// The colour that a shape is drawn with: the ramp stands in where no colour
/// was selected.
pub open spec fn spatial_color(
    color: StrokeColor,
    position: Real,
    palette: Palette,
    ev: spec_fn(Arithmetic) -> Real,
    rp: spec_fn(usize, Palette) -> [u8; 3],
) -> StrokeColor {
    match color {
        StrokeColor::ThemeDefault => StrokeColor::Rgb(rp(ramp_bucket(position, ev) as usize, palette)),
        _ => color,
    }
}

fn spatial_svg_color<S: Fn(SingleArithmetic) -> Single, C: Fn(Arithmetic) -> Real>(
    color: StrokeColor,
    position: Real,
    palette: Palette,
    small: &S,
    calc: &C,
) -> (r: StrokeColor)
    requires
        calculates(*calc),
        consistent::<SingleArithmetic, Single, S>(*small),
    ensures
        r == spatial_color(color, position, palette, answers(*calc), themed(*calc, *small)),
{
    match color {
        StrokeColor::ThemeDefault => {
            StrokeColor::Rgb(spatial_theme_default_rgb8_at(position, palette, calc, small))
        },
        _ => color,
    }
}

/// The width samples of some shapes.
pub open spec fn sampled(shapes: Seq<Shape3d>, ev: spec_fn(Arithmetic) -> Real) -> Turtle3dWidthReferenceEstimator
    decreases shapes.len(),
{
    if shapes.len() == 0 {
        Turtle3dWidthReferenceEstimator::fresh()
    } else {
        let before = sampled(shapes.drop_last(), ev);
        match shapes.last() {
            Shape::Line(line) => before.with_line(line, ev),
            _ => before,
        }
    }
}

/// A shape projected, with its width relative to the scene's and its colour
/// resolved by where it lies.
pub open spec fn prepared_shape(
    shape: Shape3d,
    bounds: Bounds3d,
    reference: Real,
    palette: Palette,
    ev: spec_fn(Arithmetic) -> Real,
    rp: spec_fn(usize, Palette) -> [u8; 3],
) -> Shape2d {
    match shape {
        Shape::Line(line) => Shape::Line(
            StyledLine2d {
                line: Line2d(
                    projected_point(line.line.0, ev),
                    projected_point(line.line.1, ev),
                ),
                width: normalized_width(line.width, reference, ev),
                color: spatial_color(
                    line.color,
                    ramp_position(bounds, midpoint_of(line.line, ev), ev),
                    palette,
                    ev,
                    rp,
                ),
            },
        ),
        Shape::Polygon(outline) => Shape::Polygon(
            Outline {
                vertices: outline.vertices.map_values(|p: Point3d| projected_point(p, ev)),
                color: spatial_color(
                    outline.color,
                    match centroid_of(outline.vertices, ev) {
                        Some(centroid) => ramp_position(bounds, centroid, ev),
                        None => Real { bits: HALF_BITS },
                    },
                    palette,
                    ev,
                    rp,
                ),
            },
        ),
        Shape::Other => Shape::Other,
    }
}

pub open spec fn prepared_shapes(
    shapes: Seq<Shape3d>,
    palette: Palette,
    ev: spec_fn(Arithmetic) -> Real,
    rp: spec_fn(usize, Palette) -> [u8; 3],
) -> Seq<Shape2d> {
    shapes.map_values(
        |shape: Shape3d|
            prepared_shape(
                shape,
                measured_in(shapes),
                sampled(shapes, ev).reference(),
                palette,
                ev,
                rp,
            ),
    )
}

/// Prepare retained 3D geometry for the static SVG target without changing the
/// generic 2D encoder's styling contract.
pub fn prepare_3d_scene<S: Fn(SingleArithmetic) -> Single, C: Fn(Arithmetic) -> Real>(
    scene: &Scene3d,
    palette: Palette,
    small: &S,
    calc: &C,
) -> (r: Scene2d)
    requires
        calculates(*calc),
        consistent::<SingleArithmetic, Single, S>(*small),
    ensures
        shapes_2d(r.primitives@) == prepared_shapes(
            shapes_3d(scene.primitives@),
            palette,
            answers(*calc),
            themed(*calc, *small),
        ),
        forall|i: int|
            0 <= i < r.primitives@.len() ==> !((#[trigger] r.primitives@[i]) is Text),
        r.background == scene.background,
{
    let ghost ev = answers(*calc);
    let ghost rp = themed(*calc, *small);
    let ghost shapes = shapes_3d(scene.primitives@);
    let bounds: Bounds3d = bounds_for(&scene.primitives);
    let mut estimator: Turtle3dWidthReferenceEstimator =
        <Turtle3dWidthReferenceEstimator as Default>::default();
    let mut i: usize = 0;
    while i < scene.primitives.len()
        invariant
            calculates(*calc),
            ev == answers(*calc),
            shapes == shapes_3d(scene.primitives@),
            i <= scene.primitives@.len(),
            estimator == sampled(shapes.subrange(0, i as int), ev),
        decreases scene.primitives@.len() - i,
    {
        assert(shapes.subrange(0, i + 1).drop_last() =~= shapes.subrange(0, i as int));
        assert(shapes[i as int] == shape_3d(scene.primitives@[i as int]));
        match &scene.primitives[i] {
            Primitive3d::Line(line) => {
                estimator.observe_line(line, calc);
            },
            Primitive3d::Polygon(_) => {},
        }
        i = i + 1;
    }
    assert(shapes.subrange(0, i as int) =~= shapes);
    let reference: Real = estimator.width_reference();
    let ghost all = prepared_shapes(shapes, palette, ev, rp);
    let mut primitives: Vec<Primitive2d> = Vec::new();
    i = 0;
    assert(shapes_2d(primitives@) =~= all.subrange(0, 0));
    while i < scene.primitives.len()
        invariant
            calculates(*calc),
            consistent::<SingleArithmetic, Single, S>(*small),
            ev == answers(*calc),
            rp == themed(*calc, *small),
            shapes == shapes_3d(scene.primitives@),
            all == prepared_shapes(shapes, palette, ev, rp),
            bounds == measured_in(shapes),
            reference == sampled(shapes, ev).reference(),
            i <= scene.primitives@.len(),
            shapes_2d(primitives@) == all.subrange(0, i as int),
            forall|k: int|
                0 <= k < primitives@.len() ==> !((#[trigger] primitives@[k]) is Text),
        decreases scene.primitives@.len() - i,
    {
        let ghost before = primitives@;
        assert(shapes[i as int] == shape_3d(scene.primitives@[i as int]));
        assert(all[i as int] == prepared_shape(
            shapes[i as int],
            bounds,
            reference,
            palette,
            ev,
            rp,
        ));
        let primitive: Primitive2d = match &scene.primitives[i] {
            Primitive3d::Line(source) => {
                let line: Line3d = source.line;
                let middle: Point3d = (
                    finite_midpoint(line.0.0, line.1.0, calc),
                    finite_midpoint(line.0.1, line.1.1, calc),
                    finite_midpoint(line.0.2, line.1.2, calc),
                );
                let position: Real = palette_position(bounds, middle, calc);
                Primitive2d::Line(
                    StyledLine2d {
                        line: Line2d(
                            canonical_project_point_3d(line.0, calc),
                            canonical_project_point_3d(line.1, calc),
                        ),
                        width: normalized_turtle_3d_width(source.width, reference, calc),
                        color: spatial_svg_color(source.color, position, palette, small, calc),
                    },
                )
            },
            Primitive3d::Polygon(source) => {
                let position: Real = match polygon_centroid(&source.vertices, calc) {
                    Some(centroid) => palette_position(bounds, centroid, calc),
                    None => Real { bits: HALF_BITS },
                };
                Primitive2d::Polygon(
                    Polygon2d {
                        vertices: project_vertices(&source.vertices, calc),
                        color: spatial_svg_color(source.color, position, palette, small, calc),
                    },
                )
            },
        };
        primitives.push(primitive);
        assert(shape_2d(primitive) == all[i as int]);
        i = i + 1;
        assert(shapes_2d(primitives@) =~= shapes_2d(before).push(all[i - 1]));
        assert(shapes_2d(primitives@) =~= all.subrange(0, i as int));
    }
    assert(all.subrange(0, i as int) =~= all);
    Scene2d { primitives, background: scene.background }
}

/// Encode retained three-dimensional geometry using the canonical static view
/// and a caller-selected multiplier for its automatic stroke width.
pub fn encode_3d_with_stroke_scale<
    S: Fn(SingleArithmetic) -> Single,
    N: Fn(Real) -> String,
    C: Fn(Arithmetic) -> Real,
>(scene: &Scene3d, palette: Palette, stroke_scale: Real, small: &S, scribe: &N, calc: &C) -> (r:
    String)
    requires
        calculates(*calc),
        consistent::<SingleArithmetic, Single, S>(*small),
        writes_numbers(*scribe),
    ensures
        exists|flat: Scene2d|
            shapes_2d(flat.primitives@) == prepared_shapes(
                shapes_3d(scene.primitives@),
                palette,
                answers(*calc),
                themed(*calc, *small),
            ) && flat.background == scene.background && (forall|i: int|
                0 <= i < flat.primitives@.len() ==> !((#[trigger] flat.primitives@[i]) is Text))
                && r@ == #[trigger] svg_of(
                flat,
                palette,
                stroke_scale,
                StrokePolicy::Spatial,
                answers(*calc),
                numerals(*scribe),
            ),
{
    let flat: Scene2d = prepare_3d_scene(scene, palette, small, calc);
    encode_prepared(&flat, palette, stroke_scale, StrokePolicy::Spatial, scribe, calc)
}

/// Encode retained three-dimensional geometry using the canonical static view.
pub fn encode_3d<
    S: Fn(SingleArithmetic) -> Single,
    N: Fn(Real) -> String,
    C: Fn(Arithmetic) -> Real,
>(scene: &Scene3d, palette: Palette, small: &S, scribe: &N, calc: &C) -> (r: String)
    requires
        calculates(*calc),
        consistent::<SingleArithmetic, Single, S>(*small),
        writes_numbers(*scribe),
    ensures
        exists|flat: Scene2d|
            shapes_2d(flat.primitives@) == prepared_shapes(
                shapes_3d(scene.primitives@),
                palette,
                answers(*calc),
                themed(*calc, *small),
            ) && flat.background == scene.background && (forall|i: int|
                0 <= i < flat.primitives@.len() ==> !((#[trigger] flat.primitives@[i]) is Text))
                && r@ == #[trigger] svg_of(
                flat,
                palette,
                Real { bits: ONE_BITS },
                StrokePolicy::Spatial,
                answers(*calc),
                numerals(*scribe),
            ),
{
    encode_3d_with_stroke_scale(scene, palette, Real { bits: ONE_BITS }, small, scribe, calc)
}

/// Colours that were selected stay as they are.
pub proof fn selected_colors_are_kept(
    color: StrokeColor,
    position: Real,
    palette: Palette,
    ev: spec_fn(Arithmetic) -> Real,
    rp: spec_fn(usize, Palette) -> [u8; 3],
)
    requires
        !(color is ThemeDefault),
    ensures
        spatial_color(color, position, palette, ev, rp) == color,
{
}

/// A position on the ramp that is a number lies between zero and one.
pub proof fn ramp_positions_are_bounded(
    bounds: Bounds3d,
    point: Point3d,
    ev: spec_fn(Arithmetic) -> Real,
)
    ensures
        ({
            let position = ramp_position(bounds, point, ev);
            position.nan() || (Real { bits: 0 }).at_most(position) && position.at_most(
                Real { bits: ONE_BITS },
            )
        }),
{
}

} // verus!
