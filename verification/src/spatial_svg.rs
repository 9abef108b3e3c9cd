//! A spatial scene, as it is seen, as SVG text: encoded in bounded batches.

use vstd::prelude::*;
use vstd::string::*;

use crate::canvas::{
    background_of, css_rgb, css_text, display_background, spatial_multiplier,
    spatial_width_multiplier, valid_line_width_scale, width_scale, CanvasError, CanvasFault,
    SVG_LINES_PER_BATCH,
};
use crate::depth::{include_spatial_centroid_point, mean_of, DepthPrimitive, SpatialPrimitive};
use crate::edges::THOUSAND_BITS;
use crate::geometry::{Point2d, Point3d, StrokeColor};
use crate::hook::{calm, lemma_unasked, stopped, Hook};
use crate::number::{answers, calculate, calculates, Arithmetic, Real};
use crate::oracle::{ask, consistent, function_of};
use crate::preview::reserve_text;
use crate::single::Single;
use crate::stroke::{adaptive_spatial_scene_svg_stroke_width, spatial_svg_width};
use crate::svg::{numerals, push_number, writes_numbers};

verus! {

/// A spatial line as it was transferred.
#[derive(Debug, Clone, Copy, PartialEq, Eq)]
pub struct SourceLine3d {
    pub start: (Single, Single, Single),
    pub end: (Single, Single, Single),
    pub width: Single,
    pub color: StrokeColor,
}

/// What an SVG of a spatial scene is made of, but for its lines.
#[derive(Debug)]
pub struct SpatialScene {
    pub line_count: usize,
    pub polygons: Vec<Vec<Point3d>>,
    pub total_line_length: Option<Real>,
    pub width_reference: Real,
    pub background: Option<[u8; 3]>,
    /// The diameter of the sphere that the scene is fitted in.
    pub diameter: Real,
}

impl SpatialScene {
    /// The elements can be counted.
    pub open spec fn valid(self) -> bool {
        self.line_count + self.polygons@.len() <= usize::MAX
    }
}

/// A primitive whose colour is asked for; a polygon comes with its centroid.
#[derive(Debug, Clone, Copy, PartialEq, Eq)]
pub enum Paint {
    Line(SourceLine3d),
    Polygon(usize, Option<Point3d>),
}

/// How a scene is seen: where points fall, and what colours appear.
pub struct Sight {
    pub place: spec_fn(Point3d) -> Point2d,
    pub color: spec_fn(Paint) -> [u8; 3],
}

pub open spec fn widened_point(
    point: (Single, Single, Single),
    ev: spec_fn(Arithmetic) -> Real,
) -> Point3d {
    (
        ev(Arithmetic::Widened(point.0.bits)),
        ev(Arithmetic::Widened(point.1.bits)),
        ev(Arithmetic::Widened(point.2.bits)),
    )
}

fn widen_point<C: Fn(Arithmetic) -> Real>(point: (Single, Single, Single), calc: &C) -> (r: Point3d)
    requires
        calculates(*calc),
    ensures
        r == widened_point(point, answers(*calc)),
{
    (
        calculate(calc, Arithmetic::Widened(point.0.bits)),
        calculate(calc, Arithmetic::Widened(point.1.bits)),
        calculate(calc, Arithmetic::Widened(point.2.bits)),
    )
}

pub open spec fn line_finite_3d(line: SourceLine3d) -> bool {
    &&& line.start.0.finite() && line.start.1.finite() && line.start.2.finite()
    &&& line.end.0.finite() && line.end.1.finite() && line.end.2.finite()
}

fn line_is_finite(line: &SourceLine3d) -> (r: bool)
    ensures
        r == line_finite_3d(*line),
{
    line.start.0.is_finite() && line.start.1.is_finite() && line.start.2.is_finite()
        && line.end.0.is_finite() && line.end.1.is_finite() && line.end.2.is_finite()
}

/// The stroke width of a scene before the widths of its lines.
pub open spec fn spatial_stroke_width(scene: SpatialScene, ev: spec_fn(Arithmetic) -> Real) -> Real {
    spatial_svg_width(
        scene.total_line_length,
        scene.line_count,
        (scene.diameter, scene.diameter),
        Real { bits: THOUSAND_BITS },
        ev,
    )
}

/// The start of a spatial SVG.
pub open spec fn spatial_head(
    scene: SpatialScene,
    dark: bool,
    nm: spec_fn(Real) -> Seq<char>,
) -> Seq<char> {
    let size = nm(Real { bits: THOUSAND_BITS });
    "<svg xmlns=\"http://www.w3.org/2000/svg\" viewBox=\"0 0 "@ + size + " "@ + size
        + "\"><rect width=\""@ + size + "\" height=\""@ + size + "\" fill=\""@ + css_text(
        background_of(scene.background, dark),
    ) + "\"/>\n"@
}

/// A line, where it is drawn.
pub open spec fn spatial_line_text(
    scene: SpatialScene,
    line: SourceLine3d,
    scale: Real,
    sight: Sight,
    ev: spec_fn(Arithmetic) -> Real,
    nm: spec_fn(Real) -> Seq<char>,
) -> Seq<char> {
    match spatial_multiplier(line.width, scene.width_reference, ev) {
        Some(multiplier) if line_finite_3d(line) => {
            let start = (sight.place)(widened_point(line.start, ev));
            let end = (sight.place)(widened_point(line.end, ev));
            let width = ev(
                Arithmetic::Product(
                    ev(Arithmetic::Product(spatial_stroke_width(scene, ev), multiplier)),
                    width_scale(scale),
                ),
            );
            "<line x1=\""@ + nm(start.0) + "\" y1=\""@ + nm(start.1) + "\" x2=\""@ + nm(end.0)
                + "\" y2=\""@ + nm(end.1) + "\" stroke=\""@ + css_text(
                (sight.color)(Paint::Line(line)),
            ) + "\" stroke-width=\""@ + nm(width) + "\" stroke-linecap=\"round\"/>\n"@
        },
        _ => Seq::empty(),
    }
}

/// The places of some vertices.
pub open spec fn sighted_points(
    vertices: Seq<Point3d>,
    sight: Sight,
    nm: spec_fn(Real) -> Seq<char>,
) -> Seq<char>
    decreases vertices.len(),
{
    if vertices.len() == 0 {
        Seq::empty()
    } else {
        let place = (sight.place)(vertices.last());
        let point = nm(place.0) + ","@ + nm(place.1);
        if vertices.len() == 1 {
            point
        } else {
            sighted_points(vertices.drop_last(), sight, nm) + " "@ + point
        }
    }
}

/// The start of a polygon with some of its vertices.
pub open spec fn spatial_polygon_start(
    vertices: Seq<Point3d>,
    sight: Sight,
    nm: spec_fn(Real) -> Seq<char>,
) -> Seq<char> {
    "<polygon points=\""@ + sighted_points(vertices, sight, nm)
}

pub open spec fn spatial_polygon_text(
    index: usize,
    vertices: Seq<Point3d>,
    sight: Sight,
    ev: spec_fn(Arithmetic) -> Real,
    nm: spec_fn(Real) -> Seq<char>,
) -> Seq<char> {
    spatial_polygon_start(vertices, sight, nm) + ("\" fill=\""@ + css_text(
        (sight.color)(Paint::Polygon(index, mean_of(vertices, ev))),
    ) + "\" stroke=\"none\"/>\n"@)
}

/// One primitive.
pub open spec fn primitive_text(
    scene: SpatialScene,
    primitive: SpatialPrimitive,
    lines: spec_fn(usize) -> SourceLine3d,
    scale: Real,
    sight: Sight,
    ev: spec_fn(Arithmetic) -> Real,
    nm: spec_fn(Real) -> Seq<char>,
) -> Seq<char> {
    match primitive {
        SpatialPrimitive::Line(index) => spatial_line_text(
            scene,
            lines(index),
            scale,
            sight,
            ev,
            nm,
        ),
        SpatialPrimitive::Polygon(index) => spatial_polygon_text(
            index,
            scene.polygons@[index as int]@,
            sight,
            ev,
            nm,
        ),
    }
}

/// Some primitives, in painting order.
pub open spec fn primitives_text(
    scene: SpatialScene,
    order: Seq<DepthPrimitive>,
    lines: spec_fn(usize) -> SourceLine3d,
    scale: Real,
    sight: Sight,
    ev: spec_fn(Arithmetic) -> Real,
    nm: spec_fn(Real) -> Seq<char>,
) -> Seq<char>
    decreases order.len(),
{
    if order.len() == 0 {
        Seq::empty()
    } else {
        primitives_text(scene, order.drop_last(), lines, scale, sight, ev, nm) + primitive_text(
            scene,
            order.last().primitive,
            lines,
            scale,
            sight,
            ev,
            nm,
        )
    }
}

/// The complete SVG of a spatial scene.
pub open spec fn spatial_svg(
    scene: SpatialScene,
    order: Seq<DepthPrimitive>,
    lines: spec_fn(usize) -> SourceLine3d,
    dark: bool,
    scale: Real,
    sight: Sight,
    ev: spec_fn(Arithmetic) -> Real,
    nm: spec_fn(Real) -> Seq<char>,
) -> Seq<char> {
    spatial_head(scene, dark, nm) + primitives_text(scene, order, lines, scale, sight, ev, nm)
        + "</svg>\n"@
}

/// Every polygon of an order is in the scene.
pub open spec fn order_fits(order: Seq<DepthPrimitive>, scene: SpatialScene) -> bool {
    forall|i: int|
        0 <= i < order.len() ==> ((#[trigger] order[i]).primitive matches SpatialPrimitive::Polygon(
            index,
        ) ==> index < scene.polygons@.len())
}

/// A camera by what it is asked: where a point falls.
pub open spec fn sight_of<P: Fn(Point3d) -> Point2d, K: Fn(Paint) -> [u8; 3]>(
    place: P,
    color: K,
) -> Sight {
    Sight {
        place: function_of::<Point3d, Point2d, P>(place),
        color: function_of::<Paint, [u8; 3], K>(color),
    }
}

/// Write a line, where it is drawn.
fn line_tag<
    P: Fn(Point3d) -> Point2d,
    K: Fn(Paint) -> [u8; 3],
    N: Fn(Real) -> String,
    C: Fn(Arithmetic) -> Real,
>(
    scene: &SpatialScene,
    line: SourceLine3d,
    stroke_width: Real,
    scale: Real,
    place: &P,
    color: &K,
    scribe: &N,
    calc: &C,
) -> (r: String)
    requires
        calculates(*calc),
        writes_numbers(*scribe),
        consistent::<Point3d, Point2d, P>(*place),
        consistent::<Paint, [u8; 3], K>(*color),
        stroke_width == spatial_stroke_width(*scene, answers(*calc)),
    ensures
        r@ == spatial_line_text(
            *scene,
            line,
            scale,
            sight_of(*place, *color),
            answers(*calc),
            numerals(*scribe),
        ),
{
    let mut tag: String = String::new();
    let multiplier: Real = match spatial_width_multiplier(line.width, scene.width_reference, calc) {
        Some(multiplier) => multiplier,
        None => {
            assert(tag@ =~= Seq::empty());
            return tag;
        },
    };
    if !line_is_finite(&line) {
        assert(tag@ =~= Seq::empty());
        return tag;
    }
    let start: Point2d = ask(place, widen_point(line.start, calc));
    let end: Point2d = ask(place, widen_point(line.end, calc));
    let rgb: [u8; 3] = ask(color, Paint::Line(line));
    let stroke: String = css_rgb(rgb);
    let scaled: Real = calculate(calc, Arithmetic::Product(stroke_width, multiplier));
    let usable_scale: Real = valid_line_width_scale(scale);
    let width: Real = calculate(calc, Arithmetic::Product(scaled, usable_scale));
    tag.append("<line x1=\"");
    assert(tag@ =~= "<line x1=\""@);
    push_number(&mut tag, start.0, scribe);
    tag.append("\" y1=\"");
    push_number(&mut tag, start.1, scribe);
    tag.append("\" x2=\"");
    push_number(&mut tag, end.0, scribe);
    tag.append("\" y2=\"");
    push_number(&mut tag, end.1, scribe);
    tag.append("\" stroke=\"");
    tag.append(stroke.as_str());
    tag.append("\" stroke-width=\"");
    push_number(&mut tag, width, scribe);
    tag.append("\" stroke-linecap=\"round\"/>\n");
    tag
}

/// The steps that a primitive takes: one for a line; opening, vertices and
/// closing for a polygon.
pub open spec fn primitive_steps(entry: DepthPrimitive, scene: SpatialScene) -> nat {
    match entry.primitive {
        SpatialPrimitive::Line(_) => 1,
        SpatialPrimitive::Polygon(index) => scene.polygons@[index as int]@.len() + 2,
    }
}

/// The steps that the primitives from a place on take.
pub open spec fn painting_steps(
    order: Seq<DepthPrimitive>,
    scene: SpatialScene,
    from: int,
) -> nat
    decreases order.len() - from,
{
    if from < 0 || from >= order.len() {
        0
    } else {
        primitive_steps(order[from], scene) + painting_steps(order, scene, from + 1)
    }
}

/// A polygon of a painting, for which room was refused.
pub open spec fn polygon_refused(
    order: Seq<DepthPrimitive>,
    scene: SpatialScene,
    at: int,
    error: CanvasFault,
) -> bool {
    &&& 0 <= at < order.len()
    &&& order[at].primitive matches SpatialPrimitive::Polygon(index) && error
        == (CanvasFault::ResourceExhausted {
        operation: "reserve spatial SVG polygon data"@,
        requested_items: scene.polygons@[index as int]@.len() as usize,
    })
}

/// Incremental SVG encoder of a spatial scene whose painting order is settled.
/// Lines and polygon vertices consume the same bounded per-call work budget.
pub struct SpatialSvgEncoder<'a> {
    scene: &'a SpatialScene,
    order: Vec<DepthPrimitive>,
    dark: bool,
    scale: Real,
    stroke_width: Real,
    output: String,
    at: usize,
    vertex: usize,
    open: bool,
    centroid: Option<Point3d>,
    footer_written: bool,
}

impl<'a> SpatialSvgEncoder<'a> {
    pub closed spec fn source(self) -> SpatialScene {
        *self.scene
    }

    pub closed spec fn painting(self) -> Seq<DepthPrimitive> {
        self.order@
    }

    pub closed spec fn is_dark(self) -> bool {
        self.dark
    }

    pub closed spec fn requested_scale(self) -> Real {
        self.scale
    }

    pub closed spec fn done(self) -> bool {
        self.footer_written
    }

    /// The steps that are left until the SVG is complete.
    pub closed spec fn left(self) -> int {
        painting_steps(self.order@, *self.scene, self.at as int) - (if self.open {
            1 + self.vertex
        } else {
            0
        }) + (if self.footer_written {
            0int
        } else {
            1
        })
    }

    /// The vertices of the polygon at hand.
    spec fn vertices(self) -> Seq<Point3d> {
        match self.order@[self.at as int].primitive {
            SpatialPrimitive::Polygon(index) => self.scene.polygons@[index as int]@,
            SpatialPrimitive::Line(_) => Seq::empty(),
        }
    }

    spec fn in_order(self, ev: spec_fn(Arithmetic) -> Real) -> bool {
        &&& self.scene.valid()
        &&& order_fits(self.order@, *self.scene)
        &&& self.stroke_width == spatial_stroke_width(*self.scene, ev)
        &&& self.at <= self.order@.len()
        &&& self.open ==> self.at < self.order@.len()
            && self.order@[self.at as int].primitive is Polygon && self.vertex
            <= self.vertices().len() && self.centroid == mean_of(
            self.vertices().subrange(0, self.vertex as int),
            ev,
        )
        &&& !self.open ==> self.vertex == 0 && self.centroid is None
        &&& self.footer_written ==> self.at == self.order@.len() && !self.open
    }

    spec fn written(
        self,
        lines: spec_fn(usize) -> SourceLine3d,
        sight: Sight,
        ev: spec_fn(Arithmetic) -> Real,
        nm: spec_fn(Real) -> Seq<char>,
    ) -> Seq<char> {
        spatial_head(*self.scene, self.dark, nm) + primitives_text(
            *self.scene,
            self.order@.subrange(0, self.at as int),
            lines,
            self.scale,
            sight,
            ev,
            nm,
        ) + (if self.open {
            spatial_polygon_start(self.vertices().subrange(0, self.vertex as int), sight, nm)
        } else {
            Seq::empty()
        }) + (if self.footer_written {
            "</svg>\n"@
        } else {
            Seq::empty()
        })
    }

    pub closed spec fn valid(
        self,
        lines: spec_fn(usize) -> SourceLine3d,
        sight: Sight,
        ev: spec_fn(Arithmetic) -> Real,
        nm: spec_fn(Real) -> Seq<char>,
    ) -> bool {
        self.in_order(ev) && self.output@ == self.written(lines, sight, ev, nm)
    }

    spec fn same_scene(self, other: SpatialSvgEncoder<'a>) -> bool {
        self.scene == other.scene && self.order == other.order && self.dark == other.dark
            && self.scale == other.scale && self.stroke_width == other.stroke_width
    }

    /// Begin an SVG. Room for its head may be refused.
    pub fn new<N: Fn(Real) -> String, C: Fn(Arithmetic) -> Real>(
        scene: &'a SpatialScene,
        order: Vec<DepthPrimitive>,
        dark: bool,
        line_width_scale: Real,
        scribe: &N,
        calc: &C,
    ) -> (r: Result<SpatialSvgEncoder<'a>, CanvasError>)
        requires
            scene.valid(),
            order_fits(order@, *scene),
            writes_numbers(*scribe),
            calculates(*calc),
        ensures
            match r {
                Ok(encoder) => {
                    &&& forall|lines: spec_fn(usize) -> SourceLine3d, sight: Sight|
                        #[trigger] encoder.valid(lines, sight, answers(*calc), numerals(*scribe))
                    &&& encoder.source() == *scene
                    &&& encoder.painting() == order@
                    &&& encoder.is_dark() == dark
                    &&& encoder.requested_scale() == line_width_scale
                    &&& !encoder.done()
                },
                Err(error) => error@ == (CanvasFault::ResourceExhausted {
                    operation: "reserve spatial SVG header data"@,
                    requested_items: (scene.line_count + scene.polygons@.len()) as usize,
                }),
            },
    {
        let side: Real = Real { bits: THOUSAND_BITS };
        let stroke_width: Real = adaptive_spatial_scene_svg_stroke_width(
            scene.total_line_length,
            scene.line_count,
            (scene.diameter, scene.diameter),
            side,
            calc,
        );
        let mut output: String = String::new();
        if !reserve_text(&mut output, 512) {
            return Err(
                CanvasError::ResourceExhausted {
                    operation: "reserve spatial SVG header data",
                    requested_items: scene.line_count + scene.polygons.len(),
                },
            );
        }
        let background: String = css_rgb(display_background(scene.background, dark));
        output.append("<svg xmlns=\"http://www.w3.org/2000/svg\" viewBox=\"0 0 ");
        assert(output@ =~= "<svg xmlns=\"http://www.w3.org/2000/svg\" viewBox=\"0 0 "@);
        push_number(&mut output, side, scribe);
        output.append(" ");
        push_number(&mut output, side, scribe);
        output.append("\"><rect width=\"");
        push_number(&mut output, side, scribe);
        output.append("\" height=\"");
        push_number(&mut output, side, scribe);
        output.append("\" fill=\"");
        output.append(background.as_str());
        output.append("\"/>\n");
        let encoder: SpatialSvgEncoder<'a> = SpatialSvgEncoder {
            scene,
            order,
            dark,
            scale: line_width_scale,
            stroke_width,
            output,
            at: 0,
            vertex: 0,
            open: false,
            centroid: None,
            footer_written: false,
        };
        proof {
            let ev = answers(*calc);
            let nm = numerals(*scribe);
            assert forall|lines: spec_fn(usize) -> SourceLine3d, sight: Sight|
                #[trigger] encoder.valid(lines, sight, ev, nm) by {
                assert(encoder.order@.subrange(0, 0) =~= Seq::empty());
                assert(encoder.output@ =~= encoder.written(lines, sight, ev, nm));
            }
        }
        Ok(encoder)
    }

    pub fn is_complete(&self) -> (r: bool)
        ensures
            r == self.done(),
    {
        self.footer_written
    }

    /// Write one line.
    fn encode_line<
        G: Fn(usize) -> SourceLine3d,
        P: Fn(Point3d) -> Point2d,
        K: Fn(Paint) -> [u8; 3],
        N: Fn(Real) -> String,
        C: Fn(Arithmetic) -> Real,
    >(&mut self, index: usize, line_at: &G, place: &P, color: &K, scribe: &N, calc: &C) -> (r:
        Result<(), CanvasError>)
        requires
            calculates(*calc),
            writes_numbers(*scribe),
            consistent::<usize, SourceLine3d, G>(*line_at),
            consistent::<Point3d, Point2d, P>(*place),
            consistent::<Paint, [u8; 3], K>(*color),
            old(self).valid(
                function_of::<usize, SourceLine3d, G>(*line_at),
                sight_of(*place, *color),
                answers(*calc),
                numerals(*scribe),
            ),
            old(self).at < old(self).order@.len(),
            old(self).order@[old(self).at as int].primitive == SpatialPrimitive::Line(index),
        ensures
            final(self).valid(
                function_of::<usize, SourceLine3d, G>(*line_at),
                sight_of(*place, *color),
                answers(*calc),
                numerals(*scribe),
            ),
            final(self).same_scene(*old(self)),
            !final(self).footer_written,
            match r {
                Ok(()) => final(self).left() == old(self).left() - 1,
                Err(error) => final(self).left() == old(self).left() && error@ == (CanvasFault::ResourceExhausted {
                    operation: "reserve spatial SVG line data"@,
                    requested_items: old(self).scene.line_count,
                }),
            },
    {
        let ghost ev = answers(*calc);
        let ghost nm = numerals(*scribe);
        let ghost sight = sight_of(*place, *color);
        let ghost lines = function_of::<usize, SourceLine3d, G>(*line_at);
        let ghost start = *self;
        if !reserve_text(&mut self.output, 320) {
            assert(self.output@ =~= self.written(lines, sight, ev, nm));
            return Err(
                CanvasError::ResourceExhausted {
                    operation: "reserve spatial SVG line data",
                    requested_items: self.scene.line_count,
                },
            );
        }
        let line: SourceLine3d = ask(line_at, index);
        let tag: String = line_tag(
            self.scene,
            line,
            self.stroke_width,
            self.scale,
            place,
            color,
            scribe,
            calc,
        );
        self.output.append(tag.as_str());
        let total: usize = self.order.len();
        assert(self.at < total);
        self.at = self.at + 1;
        proof {
            let before = start.order@.subrange(0, start.at as int);
            let after = self.order@.subrange(0, self.at as int);
            assert(after.drop_last() =~= before);
            assert(after.last() == start.order@[start.at as int]);
            assert(primitives_text(*self.scene, after, lines, self.scale, sight, ev, nm)
                == primitives_text(*self.scene, before, lines, self.scale, sight, ev, nm) + tag@);
            assert(self.output@ =~= self.written(lines, sight, ev, nm));
        }
        Ok(())
    }

    /// Write some of a polygon. The result is what is left of the budget.
    #[verifier::rlimit(40)]
    fn encode_polygon<
        F: Fn() -> bool,
        P: Fn(Point3d) -> Point2d,
        K: Fn(Paint) -> [u8; 3],
        N: Fn(Real) -> String,
        C: Fn(Arithmetic) -> Real,
    >(
        &mut self,
        index: usize,
        budget: usize,
        hook: &mut Hook<F>,
        Ghost(entry): Ghost<Hook<F>>,
        place: &P,
        color: &K,
        scribe: &N,
        calc: &C,
        Ghost(lines): Ghost<spec_fn(usize) -> SourceLine3d>,
    ) -> (r: Result<usize, CanvasError>)
        requires
            calculates(*calc),
            writes_numbers(*scribe),
            old(hook).ready(),
            old(hook).follows(entry),
            calm(old(hook).since(entry)),
            consistent::<Point3d, Point2d, P>(*place),
            consistent::<Paint, [u8; 3], K>(*color),
            old(self).valid(lines, sight_of(*place, *color), answers(*calc), numerals(*scribe)),
            old(self).at < old(self).order@.len(),
            old(self).order@[old(self).at as int].primitive == SpatialPrimitive::Polygon(index),
            budget > 0,
        ensures
            final(self).valid(lines, sight_of(*place, *color), answers(*calc), numerals(*scribe)),
            final(self).same_scene(*old(self)),
            !final(self).footer_written,
            final(self).left() <= old(self).left() <= final(self).left() + 3 * budget,
            final(hook).ready(),
            final(hook).follows(entry),
            final(hook).since(entry).len() >= old(hook).since(entry).len(),
            match r {
                Ok(left) => {
                    &&& calm(final(hook).since(entry))
                    &&& left < budget
                    &&& final(self).left() < old(self).left() <= final(self).left() + 3 * (budget
                        - left)
                },
                Err(error) => {
                    ||| error@ == CanvasFault::Cancelled && stopped(final(hook).since(entry))
                    ||| calm(final(hook).since(entry)) && error@
                        == (CanvasFault::ResourceExhausted {
                        operation: "reserve spatial SVG polygon data"@,
                        requested_items: old(self).scene.polygons@[index as int]@.len() as usize,
                    })
                },
            },
    {
        let ghost ev = answers(*calc);
        let ghost nm = numerals(*scribe);
        let ghost sight = sight_of(*place, *color);
        let ghost start = *self;
        let ghost head = spatial_head(*self.scene, self.dark, nm) + primitives_text(
            *self.scene,
            self.order@.subrange(0, self.at as int),
            lines,
            self.scale,
            sight,
            ev,
            nm,
        );
        assert(index < self.scene.polygons@.len());
        let vertices: &Vec<Point3d> = &self.scene.polygons[index];
        let requested_items: usize = vertices.len();
        assert(self.vertices() == vertices@);
        if !self.open {
            let room: Option<usize> = match requested_items.checked_mul(64) {
                Some(size) => size.checked_add(320),
                None => None,
            };
            let reserved: bool = match room {
                Some(size) => reserve_text(&mut self.output, size),
                None => false,
            };
            if !reserved {
                assert(self.output@ =~= self.written(lines, sight, ev, nm));
                return Err(
                    CanvasError::ResourceExhausted {
                        operation: "reserve spatial SVG polygon data",
                        requested_items,
                    },
                );
            }
            self.output.append("<polygon points=\"");
            self.open = true;
            assert(vertices@.subrange(0, 0) =~= Seq::empty());
        }
        assert(self.output@ =~= head + spatial_polygon_start(
            vertices@.subrange(0, self.vertex as int),
            sight,
            nm,
        ));
        let mut remaining: usize = budget;
        while remaining > 0 && self.vertex < vertices.len()
            invariant
                calculates(*calc),
                writes_numbers(*scribe),
                hook.ready(),
                hook.follows(entry),
                calm(hook.since(entry)),
                hook.since(entry).len() >= old(hook).since(entry).len(),
                consistent::<Point3d, Point2d, P>(*place),
                consistent::<Paint, [u8; 3], K>(*color),
                ev == answers(*calc),
                nm == numerals(*scribe),
                sight == sight_of(*place, *color),
                self.same_scene(start),
                start == *old(self),
                start.in_order(ev),
                self.at == start.at,
                self.at < self.order@.len(),
                self.order@[self.at as int].primitive == SpatialPrimitive::Polygon(index),
                self.open,
                !self.footer_written,
                self.vertices() == vertices@,
                vertices == self.scene.polygons@[index as int],
                self.vertex <= vertices@.len(),
                remaining <= budget,
                self.vertex - start.vertex == budget - remaining,
                self.centroid == mean_of(vertices@.subrange(0, self.vertex as int), ev),
                head == spatial_head(*self.scene, self.dark, nm) + primitives_text(
                    *self.scene,
                    self.order@.subrange(0, self.at as int),
                    lines,
                    self.scale,
                    sight,
                    ev,
                    nm,
                ),
                self.output@ == head + spatial_polygon_start(
                    vertices@.subrange(0, self.vertex as int),
                    sight,
                    nm,
                ),
            decreases remaining,
        {
            let cancelled: bool = hook.ask(Ghost(entry));
            if cancelled {
                assert(self.output@ =~= self.written(lines, sight, ev, nm));
                return Err(CanvasError::Cancelled);
            }
            let ghost before = vertices@.subrange(0, self.vertex as int);
            if self.vertex > 0 {
                self.output.append(" ");
            }
            let vertex: Point3d = vertices[self.vertex];
            let mut centroid: Option<Point3d> = self.centroid;
            include_spatial_centroid_point(&mut centroid, vertex, self.vertex, calc);
            self.centroid = centroid;
            let point: Point2d = ask(place, vertex);
            push_number(&mut self.output, point.0, scribe);
            self.output.append(",");
            push_number(&mut self.output, point.1, scribe);
            self.vertex = self.vertex + 1;
            remaining = remaining - 1;
            proof {
                let after = vertices@.subrange(0, self.vertex as int);
                assert(after.drop_last() =~= before);
                assert(after.last() == vertex);
                let text = nm(point.0) + ","@ + nm(point.1);
                if before.len() == 0 {
                    assert(sighted_points(before, sight, nm) =~= Seq::empty());
                    assert(self.output@ =~= head + ("<polygon points=\""@ + text));
                } else {
                    assert(self.output@ =~= head + ("<polygon points=\""@ + (sighted_points(
                        before,
                        sight,
                        nm,
                    ) + " "@ + text)));
                }
            }
        }
        if self.vertex >= vertices.len() {
            assert(vertices@.subrange(0, self.vertex as int) =~= vertices@);
            let rgb: [u8; 3] = ask(color, Paint::Polygon(index, self.centroid));
            let fill: String = css_rgb(rgb);
            self.output.append("\" fill=\"");
            self.output.append(fill.as_str());
            self.output.append("\" stroke=\"none\"/>\n");
            let total: usize = self.order.len();
            assert(self.at < total);
            self.at = self.at + 1;
            self.vertex = 0;
            self.open = false;
            self.centroid = None;
            if vertices.len() == 0 {
                remaining = remaining - 1;
            }
            proof {
                let before = start.order@.subrange(0, start.at as int);
                let after = self.order@.subrange(0, self.at as int);
                assert(after.drop_last() =~= before);
                assert(after.last() == start.order@[start.at as int]);
                let whole = spatial_polygon_text(index, vertices@, sight, ev, nm);
                assert(self.output@ =~= head + whole);
                assert(self.output@ =~= self.written(lines, sight, ev, nm));
            }
        } else {
            assert(self.output@ =~= self.written(lines, sight, ev, nm));
        }
        if remaining == budget {
            remaining = remaining - 1;
        }
        Ok(remaining)
    }

    /// Encode a bounded amount of work. The cancellation hook is asked before
    /// every primitive and every vertex, and room may be refused.
    pub fn encode_next_batch<
        F: Fn() -> bool,
        G: Fn(usize) -> SourceLine3d,
        P: Fn(Point3d) -> Point2d,
        K: Fn(Paint) -> [u8; 3],
        N: Fn(Real) -> String,
        C: Fn(Arithmetic) -> Real,
    >(
        &mut self,
        hook: &mut Hook<F>,
        line_at: &G,
        place: &P,
        color: &K,
        scribe: &N,
        calc: &C,
    ) -> (r: Result<(), CanvasError>)
        requires
            calculates(*calc),
            writes_numbers(*scribe),
            old(hook).ready(),
            consistent::<usize, SourceLine3d, G>(*line_at),
            consistent::<Point3d, Point2d, P>(*place),
            consistent::<Paint, [u8; 3], K>(*color),
            old(self).valid(
                function_of::<usize, SourceLine3d, G>(*line_at),
                sight_of(*place, *color),
                answers(*calc),
                numerals(*scribe),
            ),
        ensures
            final(self).valid(
                function_of::<usize, SourceLine3d, G>(*line_at),
                sight_of(*place, *color),
                answers(*calc),
                numerals(*scribe),
            ),
            final(self).source() == old(self).source(),
            final(self).painting() == old(self).painting(),
            final(self).is_dark() == old(self).is_dark(),
            final(self).requested_scale() == old(self).requested_scale(),
            final(self).left() <= old(self).left() <= final(self).left() + 3 * SVG_LINES_PER_BATCH,
            final(hook).ready(),
            final(hook).follows(*old(hook)),
            final(hook).since(*old(hook)).len() > 0,
            match r {
                Ok(()) => {
                    &&& !old(self).done() ==> final(self).left() < old(self).left()
                    &&& calm(final(hook).since(*old(hook)))
                    &&& !old(self).done() ==> final(hook).since(*old(hook)).len() > 1
                },
                Err(error) => {
                    ||| error@ == CanvasFault::Cancelled && stopped(
                        final(hook).since(*old(hook)),
                    )
                    ||| calm(final(hook).since(*old(hook))) && error@
                        == (CanvasFault::ResourceExhausted {
                        operation: "reserve spatial SVG line data"@,
                        requested_items: old(self).source().line_count,
                    })
                    ||| calm(final(hook).since(*old(hook))) && exists|at: int| #[trigger]
                        polygon_refused(old(self).painting(), old(self).source(), at, error@)
                },
            },
    {
        let ghost ev = answers(*calc);
        let ghost nm = numerals(*scribe);
        let ghost sight = sight_of(*place, *color);
        let ghost lines = function_of::<usize, SourceLine3d, G>(*line_at);
        let ghost start = *self;
        let ghost entry = *hook;
        proof {
            lemma_unasked(entry);
        }
        let mut remaining: usize = SVG_LINES_PER_BATCH;
        while remaining > 0 && !self.footer_written
            invariant
                calculates(*calc),
                writes_numbers(*scribe),
                entry == *old(hook),
                hook.ready(),
                hook.follows(entry),
                calm(hook.since(entry)),
                remaining < SVG_LINES_PER_BATCH ==> hook.since(entry).len() > 0,
                consistent::<usize, SourceLine3d, G>(*line_at),
                consistent::<Point3d, Point2d, P>(*place),
                consistent::<Paint, [u8; 3], K>(*color),
                ev == answers(*calc),
                nm == numerals(*scribe),
                sight == sight_of(*place, *color),
                lines == function_of::<usize, SourceLine3d, G>(*line_at),
                self.valid(lines, sight, ev, nm),
                self.same_scene(start),
                start == *old(self),
                remaining <= SVG_LINES_PER_BATCH,
                self.left() <= start.left() <= self.left() + 3 * (SVG_LINES_PER_BATCH - remaining),
                remaining < SVG_LINES_PER_BATCH ==> self.left() < start.left(),
                remaining == SVG_LINES_PER_BATCH ==> *self == start,
            decreases remaining,
        {
            let cancelled: bool = hook.ask(Ghost(entry));
            if cancelled {
                return Err(CanvasError::Cancelled);
            }
            if self.at < self.order.len() {
                let at: usize = self.at;
                let primitive: SpatialPrimitive = self.order[at].primitive;
                match primitive {
                    SpatialPrimitive::Line(index) => {
                        match self.encode_line(index, line_at, place, color, scribe, calc) {
                            Ok(()) => {
                                remaining = remaining - 1;
                            },
                            Err(error) => {
                                return Err(error);
                            },
                        }
                    },
                    SpatialPrimitive::Polygon(index) => {
                        match self.encode_polygon(
                            index,
                            remaining,
                            hook,
                            Ghost(entry),
                            place,
                            color,
                            scribe,
                            calc,
                            Ghost(lines),
                        ) {
                            Ok(left) => {
                                remaining = left;
                            },
                            Err(error) => {
                                assert(error@ != CanvasFault::Cancelled ==> polygon_refused(
                                    start.painting(),
                                    start.source(),
                                    at as int,
                                    error@,
                                ));
                                return Err(error);
                            },
                        }
                    },
                }
            } else {
                self.output.append("</svg>\n");
                self.footer_written = true;
                assert(self.output@ =~= self.written(lines, sight, ev, nm));
                remaining = remaining - 1;
            }
        }
        let cancelled: bool = hook.ask(Ghost(entry));
        if cancelled {
            return Err(CanvasError::Cancelled);
        }
        Ok(())
    }

    /// The complete SVG, once it is complete.
    pub fn finish<
        G: Fn(usize) -> SourceLine3d,
        P: Fn(Point3d) -> Point2d,
        K: Fn(Paint) -> [u8; 3],
        N: Fn(Real) -> String,
        C: Fn(Arithmetic) -> Real,
    >(self, line_at: &G, place: &P, color: &K, scribe: &N, calc: &C) -> (r: Option<String>)
        requires
            self.valid(
                function_of::<usize, SourceLine3d, G>(*line_at),
                sight_of(*place, *color),
                answers(*calc),
                numerals(*scribe),
            ),
        ensures
            match r {
                Some(text) => self.done() && text@ == spatial_svg(
                    self.source(),
                    self.painting(),
                    function_of::<usize, SourceLine3d, G>(*line_at),
                    self.is_dark(),
                    self.requested_scale(),
                    sight_of(*place, *color),
                    answers(*calc),
                    numerals(*scribe),
                ),
                None => !self.done(),
            },
    {
        if !self.footer_written {
            return None;
        }
        proof {
            let lines = function_of::<usize, SourceLine3d, G>(*line_at);
            let sight = sight_of(*place, *color);
            let ev = answers(*calc);
            let nm = numerals(*scribe);
            assert(self.order@.subrange(0, self.at as int) =~= self.order@);
            assert(self.output@ =~= spatial_svg(
                *self.scene,
                self.order@,
                lines,
                self.dark,
                self.scale,
                sight,
                ev,
                nm,
            ));
        }
        Some(self.output)
    }
}

impl<'a> SpatialSvgEncoder<'a> {
    /// Work comes to an end: an encoder has finitely many steps left, and none
    /// exactly when its SVG is complete.
    pub proof fn encoding_ends(
        self,
        lines: spec_fn(usize) -> SourceLine3d,
        sight: Sight,
        ev: spec_fn(Arithmetic) -> Real,
        nm: spec_fn(Real) -> Seq<char>,
    )
        requires
            self.valid(lines, sight, ev, nm),
        ensures
            self.left() >= 0,
            self.left() == 0 <==> self.done(),
    {
    }
}

} // verus!
