//! Scenes as SVG text.

use vstd::prelude::*;
use vstd::string::*;

use crate::edges::{
    collect_edges, extent_of, measure, plain_lines, scene_edges, Extent, TENTH_BITS, THOUSAND_BITS,
};
use crate::geometry::{
    Line2d, Point2d, Polygon2d, Primitive2d, Scene2d, StrokeColor, StyledLine2d, Text2d, TextRole,
};
use crate::number::{answers, calculate, calculates, Arithmetic, Real, ONE_BITS};
use crate::oracle::{write_with, writes, writing};
use crate::palette::{hex_text, rgb_hex, stroke_rgb, turtle_stroke_rgb, Palette};
use crate::stroke::{
    adaptive_scene_svg_stroke_width, adaptive_spatial_scene_svg_stroke_width, scene_svg_width,
    spatial_svg_width, usable, StrokeWidthEstimator,
};
use crate::visualize::{shape_2d, shapes_2d, Shape2d, TWO_BITS};

verus! {

/// The pattern of seven hundred.
pub const SEVEN_HUNDRED_BITS: u64 = 0x4085_e000_0000_0000;

/// The pattern of 0.04, the share of an edge that a margin takes.
pub const MARGIN_SHARE_BITS: u64 = 0x3fa4_7ae1_47ae_147b;

/// The pattern of 0.45.
pub const X_WEIGHT_BITS: u64 = 0x3fdc_cccc_cccc_cccd;

/// The pattern of 0.35.
pub const Y_WEIGHT_BITS: u64 = 0x3fd6_6666_6666_6666;

/// The pattern of 0.2.
pub const Z_WEIGHT_BITS: u64 = 0x3fc9_9999_9999_999a;

/// A scribe writes every number, and always in the same way.
pub open spec fn writes_numbers<N: Fn(Real) -> String>(scribe: N) -> bool {
    writes::<Real, N>(scribe)
}

/// How a scribe writes numbers, as a function.
pub open spec fn numerals<N: Fn(Real) -> String>(scribe: N) -> spec_fn(Real) -> Seq<char> {
    writing::<Real, N>(scribe)
}

/// Append a number.
pub fn push_number<N: Fn(Real) -> String>(out: &mut String, x: Real, scribe: &N)
    requires
        writes_numbers(*scribe),
    ensures
        final(out)@ == old(out)@ + numerals(*scribe)(x),
{
    let text: String = write_with(scribe, x);
    out.append(text.as_str());
}

/// A character as it stands in text between tags or in an attribute.
pub open spec fn escaped_char(c: char) -> Seq<char> {
    if c == '&' {
        "&amp;"@
    } else if c == '<' {
        "&lt;"@
    } else if c == '>' {
        "&gt;"@
    } else if c == '"' {
        "&quot;"@
    } else {
        seq![c]
    }
}

/// A text as it stands between tags or in an attribute.
pub open spec fn escaped(text: Seq<char>) -> Seq<char>
    decreases text.len(),
{
    if text.len() == 0 {
        Seq::empty()
    } else {
        escaped(text.drop_last()) + escaped_char(text.last())
    }
}

pub fn push_escaped_char(out: &mut String, c: char)
    ensures
        final(out)@ == old(out)@ + escaped_char(c),
{
    if c == '&' {
        out.append("&amp;");
    } else if c == '<' {
        out.append("&lt;");
    } else if c == '>' {
        out.append("&gt;");
    } else if c == '"' {
        out.append("&quot;");
    } else {
        out.push(c);
        assert(out@ =~= old(out)@ + seq![c]);
    }
}

/// Append a text, escaped.
pub fn push_escaped(out: &mut String, text: &str)
    ensures
        final(out)@ == old(out)@ + escaped(text@),
{
    let chars: Vec<char> = crate::text::chars_of(text);
    let ghost start = out@;
    let mut i: usize = 0;
    assert(start + escaped(chars@.subrange(0, 0)) =~= start);
    while i < chars.len()
        invariant
            i <= chars@.len(),
            out@ == start + escaped(chars@.subrange(0, i as int)),
        decreases chars@.len() - i,
    {
        let ghost before = chars@.subrange(0, i as int);
        let c: char = chars[i];
        push_escaped_char(out, c);
        i = i + 1;
        proof {
            assert(chars@.subrange(0, i as int).drop_last() =~= before);
            assert(out@ =~= start + (escaped(before) + escaped_char(c)));
        }
    }
    assert(chars@.subrange(0, i as int) =~= chars@);
}

pub fn escape(value: &str) -> (r: String)
    ensures
        r@ == escaped(value@),
{
    let mut out: String = String::new();
    push_escaped(&mut out, value);
    assert(out@ =~= escaped(value@));
    out
}

/// Nothing in an escaped text can be taken for a tag or for the end of an
/// attribute.
pub proof fn escaped_text_has_no_markup(text: Seq<char>)
    ensures
        !escaped(text).contains('<'),
        !escaped(text).contains('>'),
        !escaped(text).contains('"'),
    decreases text.len(),
{
    if text.len() > 0 {
        escaped_text_has_no_markup(text.drop_last());
        reveal_strlit("&amp;");
        reveal_strlit("&lt;");
        reveal_strlit("&gt;");
        reveal_strlit("&quot;");
        let (a, b) = (escaped(text.drop_last()), escaped_char(text.last()));
        assert forall|i: int| 0 <= i < (a + b).len() implies (a + b)[i] != '<' && (a + b)[i] != '>'
            && (a + b)[i] != '"' by {
            if i < a.len() {
                assert((a + b)[i] == a[i]);
                assert(a.contains(a[i]));
            } else {
                assert((a + b)[i] == b[i - a.len()]);
            }
        }
    }
}

/// The background, the foreground and the muted foreground of a palette.
pub open spec fn svg_theme(palette: Palette) -> (Seq<char>, Seq<char>, Seq<char>) {
    match palette {
        Palette::Light => ("#f2f5f9"@, "#263247"@, "#687386"@),
        Palette::Dark => ("#0f1420"@, "#eef2f8"@, "#aab4c3"@),
    }
}

/// How automatic widths are limited.
#[derive(Debug, Clone, Copy, PartialEq, Eq, Structural)]
pub enum StrokePolicy {
    Planar,
    Spatial,
}

/// What an SVG shows: its corner and its extent.
pub struct ViewBox {
    pub x: Real,
    pub y: Real,
    pub width: Real,
    pub height: Real,
}

/// What an SVG of some edges shows, with a margin, and how far the drawing
/// itself reaches.
pub open spec fn view_of(edges: Seq<Line2d>, ev: spec_fn(Arithmetic) -> Real) -> (ViewBox, Point2d) {
    let zero = Real { bits: 0 };
    if edges.len() == 0 {
        (
            ViewBox {
                x: zero,
                y: zero,
                width: Real { bits: THOUSAND_BITS },
                height: Real { bits: SEVEN_HUNDRED_BITS },
            },
            (zero, zero),
        )
    } else {
        let extent = extent_of(edges, true);
        let tenth = Real { bits: TENTH_BITS };
        let drawing = (
            ev(Arithmetic::Difference(extent.max_x, extent.min_x)).upper(zero),
            ev(Arithmetic::Difference(extent.max_y, extent.min_y)).upper(zero),
        );
        let (width, height) = (drawing.0.upper(tenth), drawing.1.upper(tenth));
        let margin = ev(
            Arithmetic::Product(width.upper(height), Real { bits: MARGIN_SHARE_BITS }),
        );
        let margins = ev(Arithmetic::Product(margin, Real { bits: TWO_BITS }));
        (
            ViewBox {
                x: ev(Arithmetic::Difference(extent.min_x, margin)),
                y: ev(Arithmetic::Difference(extent.min_y, margin)),
                width: ev(Arithmetic::Sum(width, margins)),
                height: ev(Arithmetic::Sum(height, margins)),
            },
            drawing,
        )
    }
}

fn view_for<C: Fn(Arithmetic) -> Real>(edges: &Vec<Line2d>, calc: &C) -> (r: (ViewBox, Point2d))
    requires
        calculates(*calc),
    ensures
        r == view_of(edges@, answers(*calc)),
{
    let zero: Real = Real { bits: 0 };
    if edges.len() == 0 {
        return (
            ViewBox {
                x: zero,
                y: zero,
                width: Real { bits: THOUSAND_BITS },
                height: Real { bits: SEVEN_HUNDRED_BITS },
            },
            (zero, zero),
        );
    }
    let extent: Extent = measure(edges, true);
    let tenth: Real = Real { bits: TENTH_BITS };
    let across: Real = calculate(calc, Arithmetic::Difference(extent.max_x, extent.min_x)).max(
        zero,
    );
    let down: Real = calculate(calc, Arithmetic::Difference(extent.max_y, extent.min_y)).max(zero);
    let width: Real = across.max(tenth);
    let height: Real = down.max(tenth);
    let longest: Real = width.max(height);
    let margin: Real = calculate(
        calc,
        Arithmetic::Product(longest, Real { bits: MARGIN_SHARE_BITS }),
    );
    let margins: Real = calculate(calc, Arithmetic::Product(margin, Real { bits: TWO_BITS }));
    (
        ViewBox {
            x: calculate(calc, Arithmetic::Difference(extent.min_x, margin)),
            y: calculate(calc, Arithmetic::Difference(extent.min_y, margin)),
            width: calculate(calc, Arithmetic::Sum(width, margins)),
            height: calculate(calc, Arithmetic::Sum(height, margins)),
        },
        (across, down),
    )
}

/// The summary of some lines.
pub open spec fn observed(lines: Seq<Line2d>, ev: spec_fn(Arithmetic) -> Real) -> StrokeWidthEstimator
    decreases lines.len(),
{
    if lines.len() == 0 {
        StrokeWidthEstimator::fresh()
    } else {
        observed(lines.drop_last(), ev).with_line(lines.last(), ev)
    }
}

/// The summary of the lines of a scene; edges of polygons do not count.
fn observe_lines<C: Fn(Arithmetic) -> Real>(primitives: &Vec<Primitive2d>, calc: &C) -> (r:
    StrokeWidthEstimator)
    requires
        calculates(*calc),
    ensures
        r == observed(plain_lines(shapes_2d(primitives@)), answers(*calc)),
{
    let ghost shapes = shapes_2d(primitives@);
    let mut estimator: StrokeWidthEstimator = <StrokeWidthEstimator as Default>::default();
    let mut i: usize = 0;
    while i < primitives.len()
        invariant
            calculates(*calc),
            i <= primitives@.len(),
            shapes == shapes_2d(primitives@),
            estimator == observed(plain_lines(shapes.subrange(0, i as int)), answers(*calc)),
        decreases primitives@.len() - i,
    {
        assert(shapes.subrange(0, i + 1).drop_last() =~= shapes.subrange(0, i as int));
        assert(shapes[i as int] == shape_2d(primitives@[i as int]));
        match &primitives[i] {
            Primitive2d::Line(line) => {
                estimator.observe(line.line, calc);
                proof {
                    let lines = plain_lines(shapes.subrange(0, i + 1));
                    assert(lines.drop_last() =~= plain_lines(shapes.subrange(0, i as int)));
                }
            },
            _ => {},
        }
        i = i + 1;
    }
    assert(shapes.subrange(0, i as int) =~= shapes);
    estimator
}

/// A requested scale, where it can be used.
pub open spec fn stroke_scale_of(scale: Real) -> Real {
    if usable(scale) {
        scale
    } else {
        Real { bits: ONE_BITS }
    }
}

/// The stroke width of a scene before the widths of its lines.
pub open spec fn svg_stroke_width(
    shapes: Seq<Shape2d>,
    scale: Real,
    policy: StrokePolicy,
    ev: spec_fn(Arithmetic) -> Real,
) -> Real {
    let (view, drawing) = view_of(scene_edges(shapes), ev);
    let summary = observed(plain_lines(shapes), ev);
    let length = if (Real { bits: 0 }).below(summary.total) {
        Some(summary.total)
    } else {
        None
    };
    let reach = view.width.upper(view.height);
    let width = match policy {
        StrokePolicy::Planar => scene_svg_width(length, summary.count, drawing, reach, ev),
        StrokePolicy::Spatial => spatial_svg_width(length, summary.count, drawing, reach, ev),
    };
    ev(Arithmetic::Product(width, stroke_scale_of(scale)))
}

/// The beginning of an SVG with its background.
pub open spec fn svg_head(
    view: ViewBox,
    background: Seq<char>,
    nm: spec_fn(Real) -> Seq<char>,
) -> Seq<char> {
    "<svg xmlns=\"http://www.w3.org/2000/svg\" viewBox=\""@ + nm(view.x) + " "@ + nm(view.y) + " "@
        + nm(view.width) + " "@ + nm(view.height) + "\"><rect x=\""@ + nm(view.x) + "\" y=\""@ + nm(
        view.y,
    ) + "\" width=\""@ + nm(view.width) + "\" height=\""@ + nm(view.height) + "\" fill=\""@
        + background + "\"/>\n"@
}

/// The points of a polygon, with the second axis pointing down.
pub open spec fn svg_points(vertices: Seq<Point2d>, nm: spec_fn(Real) -> Seq<char>) -> Seq<char>
    decreases vertices.len(),
{
    if vertices.len() == 0 {
        Seq::empty()
    } else {
        let point = nm(vertices.last().0) + ","@ + nm(vertices.last().1.opposite());
        if vertices.len() == 1 {
            point
        } else {
            svg_points(vertices.drop_last(), nm) + " "@ + point
        }
    }
}

/// The text of a colour, or of the foreground where none was selected.
pub open spec fn svg_color(color: StrokeColor, palette: Palette) -> Seq<char> {
    match stroke_rgb(color, palette) {
        Some(rgb) => hex_text(rgb),
        None => svg_theme(palette).1,
    }
}

pub open spec fn svg_polygon(
    polygon: Polygon2d,
    palette: Palette,
    nm: spec_fn(Real) -> Seq<char>,
) -> Seq<char> {
    "<polygon points=\""@ + svg_points(polygon.vertices@, nm) + "\" fill=\""@ + svg_color(
        polygon.color,
        palette,
    ) + "\" stroke=\"none\"/>\n"@
}

pub open spec fn svg_line(
    styled: StyledLine2d,
    stroke_width: Real,
    palette: Palette,
    ev: spec_fn(Arithmetic) -> Real,
    nm: spec_fn(Real) -> Seq<char>,
) -> Seq<char> {
    let line = styled.line;
    "<line x1=\""@ + nm(line.0.0) + "\" y1=\""@ + nm(line.0.1.opposite()) + "\" x2=\""@ + nm(
        line.1.0,
    ) + "\" y2=\""@ + nm(line.1.1.opposite()) + "\" stroke=\""@ + svg_color(styled.color, palette)
        + "\" stroke-width=\""@ + nm(ev(Arithmetic::Product(stroke_width, styled.width)))
        + "\" stroke-linecap=\"round\"/>\n"@
}

pub open spec fn svg_text(text: Text2d, palette: Palette, nm: spec_fn(Real) -> Seq<char>) -> Seq<
    char,
> {
    "<text x=\""@ + nm(text.position.0) + "\" y=\""@ + nm(text.position.1)
        + "\" font-family=\"sans-serif\" font-size=\""@ + nm(text.size) + "\" fill=\""@ + (
    if text.role == TextRole::Muted {
        svg_theme(palette).2
    } else {
        svg_theme(palette).1
    }) + "\">"@ + escaped(text.content@) + "</text>\n"@
}

/// The fills of a scene.
pub open spec fn svg_fills(
    primitives: Seq<Primitive2d>,
    palette: Palette,
    nm: spec_fn(Real) -> Seq<char>,
) -> Seq<char>
    decreases primitives.len(),
{
    if primitives.len() == 0 {
        Seq::empty()
    } else {
        let before = svg_fills(primitives.drop_last(), palette, nm);
        match primitives.last() {
            Primitive2d::Polygon(polygon) => before + svg_polygon(polygon, palette, nm),
            _ => before,
        }
    }
}

/// The strokes and texts of a scene.
pub open spec fn svg_strokes(
    primitives: Seq<Primitive2d>,
    stroke_width: Real,
    palette: Palette,
    ev: spec_fn(Arithmetic) -> Real,
    nm: spec_fn(Real) -> Seq<char>,
) -> Seq<char>
    decreases primitives.len(),
{
    if primitives.len() == 0 {
        Seq::empty()
    } else {
        let before = svg_strokes(primitives.drop_last(), stroke_width, palette, ev, nm);
        match primitives.last() {
            Primitive2d::Line(line) => before + svg_line(line, stroke_width, palette, ev, nm),
            Primitive2d::Text(text) => before + svg_text(text, palette, nm),
            Primitive2d::Polygon(_) => before,
        }
    }
}

/// A scene as SVG text: fills first, so that they stay behind every stroke.
pub open spec fn svg_of(
    scene: Scene2d,
    palette: Palette,
    scale: Real,
    policy: StrokePolicy,
    ev: spec_fn(Arithmetic) -> Real,
    nm: spec_fn(Real) -> Seq<char>,
) -> Seq<char> {
    let shapes = shapes_2d(scene.primitives@);
    let background = match scene.background {
        Some(rgb) => hex_text(rgb),
        None => svg_theme(palette).0,
    };
    svg_head(view_of(scene_edges(shapes), ev).0, background, nm) + svg_fills(
        scene.primitives@,
        palette,
        nm,
    ) + svg_strokes(
        scene.primitives@,
        svg_stroke_width(shapes, scale, policy, ev),
        palette,
        ev,
        nm,
    ) + "</svg>\n"@
}

fn foreground_of(palette: Palette) -> (r: &'static str)
    ensures
        r@ == svg_theme(palette).1,
{
    match palette {
        Palette::Light => "#263247",
        Palette::Dark => "#eef2f8",
    }
}

pub(crate) fn push_color(out: &mut String, color: StrokeColor, palette: Palette)
    ensures
        final(out)@ == old(out)@ + svg_color(color, palette),
{
    match turtle_stroke_rgb(color, palette) {
        Some(rgb) => {
            let hex: String = rgb_hex(rgb);
            out.append(hex.as_str());
        },
        None => {
            out.append(foreground_of(palette));
        },
    }
}

pub(crate) fn push_head<N: Fn(Real) -> String>(out: &mut String, view: &ViewBox, background: &str, scribe: &N)
    requires
        writes_numbers(*scribe),
        old(out)@.len() == 0,
    ensures
        final(out)@ == svg_head(*view, background@, numerals(*scribe)),
{
    out.append("<svg xmlns=\"http://www.w3.org/2000/svg\" viewBox=\"");
    assert(out@ =~= "<svg xmlns=\"http://www.w3.org/2000/svg\" viewBox=\""@);
    push_number(out, view.x, scribe);
    out.append(" ");
    push_number(out, view.y, scribe);
    out.append(" ");
    push_number(out, view.width, scribe);
    out.append(" ");
    push_number(out, view.height, scribe);
    out.append("\"><rect x=\"");
    push_number(out, view.x, scribe);
    out.append("\" y=\"");
    push_number(out, view.y, scribe);
    out.append("\" width=\"");
    push_number(out, view.width, scribe);
    out.append("\" height=\"");
    push_number(out, view.height, scribe);
    out.append("\" fill=\"");
    out.append(background);
    out.append("\"/>\n");
}

fn points_text<N: Fn(Real) -> String>(vertices: &Vec<Point2d>, scribe: &N) -> (r: String)
    requires
        writes_numbers(*scribe),
    ensures
        r@ == svg_points(vertices@, numerals(*scribe)),
{
    let mut out: String = String::new();
    let mut i: usize = 0;
    assert(out@ =~= svg_points(vertices@.subrange(0, 0), numerals(*scribe)));
    while i < vertices.len()
        invariant
            writes_numbers(*scribe),
            i <= vertices@.len(),
            out@ == svg_points(vertices@.subrange(0, i as int), numerals(*scribe)),
        decreases vertices@.len() - i,
    {
        let ghost start = out@;
        let ghost nm = numerals(*scribe);
        let ghost point = nm(vertices@[i as int].0) + ","@ + nm(vertices@[i as int].1.opposite());
        if i > 0 {
            out.append(" ");
        }
        let ghost lead = out@;
        push_number(&mut out, vertices[i].0, scribe);
        out.append(",");
        push_number(&mut out, vertices[i].1.negated(), scribe);
        proof {
            assert(vertices@.subrange(0, i + 1).drop_last() =~= vertices@.subrange(0, i as int));
            assert(out@ =~= lead + point);
            if i == 0 {
                assert(lead + point =~= point);
            }
        }
        i = i + 1;
    }
    assert(vertices@.subrange(0, i as int) =~= vertices@);
    out
}

fn push_polygon<N: Fn(Real) -> String>(
    out: &mut String,
    polygon: &Polygon2d,
    palette: Palette,
    scribe: &N,
)
    requires
        writes_numbers(*scribe),
    ensures
        final(out)@ == old(out)@ + svg_polygon(*polygon, palette, numerals(*scribe)),
{
    let points: String = points_text(&polygon.vertices, scribe);
    let mut tag: String = "<polygon points=\"".to_owned();
    tag.append(points.as_str());
    tag.append("\" fill=\"");
    push_color(&mut tag, polygon.color, palette);
    tag.append("\" stroke=\"none\"/>\n");
    out.append(tag.as_str());
}

fn push_line<N: Fn(Real) -> String, C: Fn(Arithmetic) -> Real>(
    out: &mut String,
    styled: &StyledLine2d,
    stroke_width: Real,
    palette: Palette,
    scribe: &N,
    calc: &C,
)
    requires
        writes_numbers(*scribe),
        calculates(*calc),
    ensures
        final(out)@ == old(out)@ + svg_line(
            *styled,
            stroke_width,
            palette,
            answers(*calc),
            numerals(*scribe),
        ),
{
    let line: Line2d = styled.line;
    let line_width: Real = calculate(calc, Arithmetic::Product(stroke_width, styled.width));
    let mut tag: String = "<line x1=\"".to_owned();
    push_number(&mut tag, line.0.0, scribe);
    tag.append("\" y1=\"");
    push_number(&mut tag, line.0.1.negated(), scribe);
    tag.append("\" x2=\"");
    push_number(&mut tag, line.1.0, scribe);
    tag.append("\" y2=\"");
    push_number(&mut tag, line.1.1.negated(), scribe);
    tag.append("\" stroke=\"");
    push_color(&mut tag, styled.color, palette);
    tag.append("\" stroke-width=\"");
    push_number(&mut tag, line_width, scribe);
    tag.append("\" stroke-linecap=\"round\"/>\n");
    out.append(tag.as_str());
}

fn push_text<N: Fn(Real) -> String>(
    out: &mut String,
    text: &Text2d,
    palette: Palette,
    scribe: &N,
)
    requires
        writes_numbers(*scribe),
    ensures
        final(out)@ == old(out)@ + svg_text(*text, palette, numerals(*scribe)),
{
    let mut tag: String = "<text x=\"".to_owned();
    push_number(&mut tag, text.position.0, scribe);
    tag.append("\" y=\"");
    push_number(&mut tag, text.position.1, scribe);
    tag.append("\" font-family=\"sans-serif\" font-size=\"");
    push_number(&mut tag, text.size, scribe);
    tag.append("\" fill=\"");
    if text.role == TextRole::Muted {
        match palette {
            Palette::Light => tag.append("#687386"),
            Palette::Dark => tag.append("#aab4c3"),
        }
    } else {
        tag.append(foreground_of(palette));
    }
    tag.append("\">");
    push_escaped(&mut tag, text.content.as_str());
    tag.append("</text>\n");
    out.append(tag.as_str());
}

/// Write a scene as SVG text.
pub fn encode_prepared<N: Fn(Real) -> String, C: Fn(Arithmetic) -> Real>(
    scene: &Scene2d,
    palette: Palette,
    stroke_scale: Real,
    policy: StrokePolicy,
    scribe: &N,
    calc: &C,
) -> (r: String)
    requires
        writes_numbers(*scribe),
        calculates(*calc),
    ensures
        r@ == svg_of(
            *scene,
            palette,
            stroke_scale,
            policy,
            answers(*calc),
            numerals(*scribe),
        ),
{
    let ghost ev = answers(*calc);
    let ghost nm = numerals(*scribe);
    let ghost items = scene.primitives@;
    let ghost shapes = shapes_2d(items);
    let background: String = match scene.background {
        Some(rgb) => rgb_hex(rgb),
        None => match palette {
            Palette::Light => "#f2f5f9".to_owned(),
            Palette::Dark => "#0f1420".to_owned(),
        },
    };
    let estimator: StrokeWidthEstimator = observe_lines(&scene.primitives, calc);
    let edges: Vec<Line2d> = collect_edges(&scene.primitives);
    let (view, drawing) = view_for(&edges, calc);
    let reach: Real = view.width.max(view.height);
    let scale: Real = if stroke_scale.is_finite() && stroke_scale.is_positive() {
        stroke_scale
    } else {
        Real { bits: ONE_BITS }
    };
    let length: Option<Real> = estimator.total_line_length();
    let count: usize = estimator.line_count();
    let automatic: Real = match policy {
        StrokePolicy::Planar => adaptive_scene_svg_stroke_width(
            length,
            count,
            drawing,
            reach,
            calc,
        ),
        StrokePolicy::Spatial => adaptive_spatial_scene_svg_stroke_width(
            length,
            count,
            drawing,
            reach,
            calc,
        ),
    };
    let stroke_width: Real = calculate(calc, Arithmetic::Product(automatic, scale));
    assert(stroke_width == svg_stroke_width(shapes, stroke_scale, policy, ev));
    let mut out: String = String::new();
    push_head(&mut out, &view, background.as_str(), scribe);
    let ghost head = out@;
    let mut i: usize = 0;
    assert(head + svg_fills(items.subrange(0, 0), palette, nm) =~= head);
    while i < scene.primitives.len()
        invariant
            writes_numbers(*scribe),
            nm == numerals(*scribe),
            items == scene.primitives@,
            i <= items.len(),
            out@ == head + svg_fills(items.subrange(0, i as int), palette, nm),
        decreases items.len() - i,
    {
        let ghost before = svg_fills(items.subrange(0, i as int), palette, nm);
        assert(items.subrange(0, i + 1).drop_last() =~= items.subrange(0, i as int));
        match &scene.primitives[i] {
            Primitive2d::Polygon(polygon) => {
                push_polygon(&mut out, polygon, palette, scribe);
                assert(out@ =~= head + (before + svg_polygon(*polygon, palette, nm)));
            },
            _ => {},
        }
        i = i + 1;
    }
    assert(items.subrange(0, i as int) =~= items);
    let ghost middle = out@;
    i = 0;
    assert(middle + svg_strokes(items.subrange(0, 0), stroke_width, palette, ev, nm) =~= middle);
    while i < scene.primitives.len()
        invariant
            writes_numbers(*scribe),
            calculates(*calc),
            ev == answers(*calc),
            nm == numerals(*scribe),
            items == scene.primitives@,
            i <= items.len(),
            out@ == middle + svg_strokes(
                items.subrange(0, i as int),
                stroke_width,
                palette,
                ev,
                nm,
            ),
        decreases items.len() - i,
    {
        let ghost before = svg_strokes(items.subrange(0, i as int), stroke_width, palette, ev, nm);
        assert(items.subrange(0, i + 1).drop_last() =~= items.subrange(0, i as int));
        match &scene.primitives[i] {
            Primitive2d::Line(styled) => {
                push_line(&mut out, styled, stroke_width, palette, scribe, calc);
                assert(out@ =~= middle + (before + svg_line(
                    *styled,
                    stroke_width,
                    palette,
                    ev,
                    nm,
                )));
            },
            Primitive2d::Polygon(_) => {},
            Primitive2d::Text(text) => {
                push_text(&mut out, text, palette, scribe);
                assert(out@ =~= middle + (before + svg_text(*text, palette, nm)));
            },
        }
        i = i + 1;
    }
    assert(items.subrange(0, i as int) =~= items);
    out.append("</svg>\n");
    out
}

/// Encodes `scene` while multiplying its automatic stroke width by
/// `stroke_scale`. Non-positive or non-finite scales use the automatic width.
pub fn encode_with_stroke_scale<N: Fn(Real) -> String, C: Fn(Arithmetic) -> Real>(
    scene: &Scene2d,
    palette: Palette,
    stroke_scale: Real,
    scribe: &N,
    calc: &C,
) -> (r: String)
    requires
        writes_numbers(*scribe),
        calculates(*calc),
    ensures
        r@ == svg_of(
            *scene,
            palette,
            stroke_scale,
            StrokePolicy::Planar,
            answers(*calc),
            numerals(*scribe),
        ),
{
    encode_prepared(scene, palette, stroke_scale, StrokePolicy::Planar, scribe, calc)
}

pub fn encode<N: Fn(Real) -> String, C: Fn(Arithmetic) -> Real>(
    scene: &Scene2d,
    palette: Palette,
    scribe: &N,
    calc: &C,
) -> (r: String)
    requires
        writes_numbers(*scribe),
        calculates(*calc),
    ensures
        r@ == svg_of(
            *scene,
            palette,
            Real { bits: ONE_BITS },
            StrokePolicy::Planar,
            answers(*calc),
            numerals(*scribe),
        ),
{
    encode_with_stroke_scale(scene, palette, Real { bits: ONE_BITS }, scribe, calc)
}

/// A scale that cannot be used does not change what is drawn.
pub proof fn unusable_scales_are_ignored(
    scene: Scene2d,
    palette: Palette,
    scale: Real,
    policy: StrokePolicy,
    ev: spec_fn(Arithmetic) -> Real,
    nm: spec_fn(Real) -> Seq<char>,
)
    requires
        !usable(scale),
    ensures
        svg_of(scene, palette, scale, policy, ev, nm) == svg_of(
            scene,
            palette,
            Real { bits: ONE_BITS },
            policy,
            ev,
            nm,
        ),
{
}

} // verus!
