//! A planar scene as SVG text, encoded in bounded batches.

use vstd::prelude::*;
use vstd::string::*;

use crate::canvas::{
    positive_width, valid_line_width_scale, width_scale, CanvasError, CanvasFault, PlanarBounds,
    SVG_LINES_PER_BATCH, drawn_width,
};
use crate::edges::{TENTH_BITS, THOUSAND_BITS};
use crate::geometry::{Point2d, StrokeColor, TextRole};
use crate::hook::{calm, lemma_unasked, stopped, Hook};
use crate::number::{answers, calculate, calculates, Arithmetic, Real};
use crate::oracle::{ask, consistent, function_of, write_with, writes, writing};
use crate::palette::{hex_text, rgb_hex, Palette};
use crate::preview::reserve_text;
use crate::single::Single;
use crate::spatial::{finite_else, finite_or};
use crate::stroke::{adaptive_scene_svg_stroke_width, scene_svg_width, usable};
use crate::svg::{
    numerals, push_color, push_head, push_number, svg_color, svg_head, svg_points, svg_theme,
    writes_numbers, ViewBox, MARGIN_SHARE_BITS, SEVEN_HUNDRED_BITS,
};
use crate::text::chars_of;
use crate::visualize::TWO_BITS;

verus! {

/// The pattern of sixteen.
pub const SIXTEEN_BITS: u64 = 0x4030_0000_0000_0000;

/// A line as it was transferred.
#[derive(Debug, Clone, Copy, PartialEq, Eq)]
pub struct SourceLine {
    pub start: (Single, Single),
    pub end: (Single, Single),
    pub width: Single,
    pub color: StrokeColor,
}

/// A filled polygon as it was transferred.
#[derive(Debug)]
pub struct CanvasPolygon {
    pub vertices: Vec<Point2d>,
    pub color: StrokeColor,
}

/// A text as it was transferred.
#[derive(Debug)]
pub struct CanvasText {
    pub x: Real,
    pub y: Real,
    pub size: Real,
    pub content: String,
    pub role: TextRole,
}

/// What an SVG of a planar scene is made of, but for its lines.
#[derive(Debug)]
pub struct CanvasScene {
    pub line_count: usize,
    pub polygons: Vec<CanvasPolygon>,
    pub texts: Vec<CanvasText>,
    /// The bounds of all geometry, where there is any.
    pub bounds: Option<PlanarBounds>,
    pub total_line_length: Option<Real>,
    pub background: Option<[u8; 3]>,
}

impl CanvasScene {
    /// The elements can be counted.
    pub open spec fn valid(self) -> bool {
        self.line_count + self.polygons@.len() + self.texts@.len() <= usize::MAX
    }
}

pub open spec fn palette_for(dark: bool) -> Palette {
    if dark {
        Palette::Dark
    } else {
        Palette::Light
    }
}

/// What the SVG of a scene shows, and how far the drawing itself reaches.
pub open spec fn scene_view(bounds: Option<PlanarBounds>, ev: spec_fn(Arithmetic) -> Real) -> (
    ViewBox,
    Point2d,
) {
    let zero = Real { bits: 0 };
    match bounds {
        None => (
            ViewBox {
                x: zero,
                y: zero,
                width: Real { bits: THOUSAND_BITS },
                height: Real { bits: SEVEN_HUNDRED_BITS },
            },
            (zero, zero),
        ),
        Some(bounds) => {
            let tenth = Real { bits: TENTH_BITS };
            let drawing = (
                ev(Arithmetic::Difference(bounds.max_x, bounds.min_x)).upper(zero),
                ev(Arithmetic::Difference(bounds.max_y, bounds.min_y)).upper(zero),
            );
            let (width, height) = (drawing.0.upper(tenth), drawing.1.upper(tenth));
            let margin = ev(
                Arithmetic::Product(width.upper(height), Real { bits: MARGIN_SHARE_BITS }),
            );
            let margins = ev(Arithmetic::Product(margin, Real { bits: TWO_BITS }));
            (
                ViewBox {
                    x: ev(Arithmetic::Difference(bounds.min_x, margin)),
                    y: ev(Arithmetic::Difference(bounds.max_y.opposite(), margin)),
                    width: ev(Arithmetic::Sum(width, margins)),
                    height: ev(Arithmetic::Sum(height, margins)),
                },
                drawing,
            )
        },
    }
}

fn svg_view<C: Fn(Arithmetic) -> Real>(bounds: Option<PlanarBounds>, calc: &C) -> (r: (
    ViewBox,
    Point2d,
))
    requires
        calculates(*calc),
    ensures
        r == scene_view(bounds, answers(*calc)),
{
    let zero: Real = Real { bits: 0 };
    match bounds {
        None => (
            ViewBox {
                x: zero,
                y: zero,
                width: Real { bits: THOUSAND_BITS },
                height: Real { bits: SEVEN_HUNDRED_BITS },
            },
            (zero, zero),
        ),
        Some(bounds) => {
            let tenth: Real = Real { bits: TENTH_BITS };
            let across: Real = calculate(
                calc,
                Arithmetic::Difference(bounds.max_x, bounds.min_x),
            ).max(zero);
            let down: Real = calculate(
                calc,
                Arithmetic::Difference(bounds.max_y, bounds.min_y),
            ).max(zero);
            let width: Real = across.max(tenth);
            let height: Real = down.max(tenth);
            let longest: Real = width.max(height);
            let margin: Real = calculate(
                calc,
                Arithmetic::Product(longest, Real { bits: MARGIN_SHARE_BITS }),
            );
            let margins: Real = calculate(
                calc,
                Arithmetic::Product(margin, Real { bits: TWO_BITS }),
            );
            (
                ViewBox {
                    x: calculate(calc, Arithmetic::Difference(bounds.min_x, margin)),
                    y: calculate(calc, Arithmetic::Difference(bounds.max_y.negated(), margin)),
                    width: calculate(calc, Arithmetic::Sum(width, margins)),
                    height: calculate(calc, Arithmetic::Sum(height, margins)),
                },
                (across, down),
            )
        },
    }
}

/// The stroke width of a scene before the widths of its lines.
pub open spec fn scene_stroke_width(
    scene: CanvasScene,
    scale: Real,
    ev: spec_fn(Arithmetic) -> Real,
) -> Real {
    let (view, drawing) = scene_view(scene.bounds, ev);
    ev(
        Arithmetic::Product(
            scene_svg_width(
                scene.total_line_length,
                scene.line_count,
                drawing,
                view.width.upper(view.height),
                ev,
            ),
            width_scale(scale),
        ),
    )
}

/// The start of a scene's SVG.
pub open spec fn scene_head(
    scene: CanvasScene,
    dark: bool,
    ev: spec_fn(Arithmetic) -> Real,
    nm: spec_fn(Real) -> Seq<char>,
) -> Seq<char> {
    svg_head(
        scene_view(scene.bounds, ev).0,
        match scene.background {
            Some(rgb) => hex_text(rgb),
            None => svg_theme(palette_for(dark)).0,
        },
        nm,
    )
}

/// The start of a polygon with some of its vertices.
pub open spec fn polygon_start(vertices: Seq<Point2d>, nm: spec_fn(Real) -> Seq<char>) -> Seq<char> {
    "<polygon points=\""@ + svg_points(vertices, nm)
}

/// A whole polygon.
pub open spec fn polygon_text(
    polygon: CanvasPolygon,
    dark: bool,
    nm: spec_fn(Real) -> Seq<char>,
) -> Seq<char> {
    polygon_start(polygon.vertices@, nm) + ("\" fill=\""@ + svg_color(
        polygon.color,
        palette_for(dark),
    ) + "\" stroke=\"none\"/>\n"@)
}

pub open spec fn polygons_text(
    polygons: Seq<CanvasPolygon>,
    dark: bool,
    nm: spec_fn(Real) -> Seq<char>,
) -> Seq<char>
    decreases polygons.len(),
{
    if polygons.len() == 0 {
        Seq::empty()
    } else {
        polygons_text(polygons.drop_last(), dark, nm) + polygon_text(polygons.last(), dark, nm)
    }
}

pub open spec fn line_finite(line: SourceLine) -> bool {
    line.start.0.finite() && line.start.1.finite() && line.end.0.finite() && line.end.1.finite()
}

/// A line, where it is drawn.
pub open spec fn line_text(
    line: SourceLine,
    stroke_width: Real,
    dark: bool,
    ev: spec_fn(Arithmetic) -> Real,
    nm: spec_fn(Real) -> Seq<char>,
    sn: spec_fn(Single) -> Seq<char>,
) -> Seq<char> {
    match drawn_width(line.width, ev) {
        Some(width) if line_finite(line) => "<line x1=\""@ + sn(line.start.0) + "\" y1=\""@ + sn(
            line.start.1.opposite(),
        ) + "\" x2=\""@ + sn(line.end.0) + "\" y2=\""@ + sn(line.end.1.opposite())
            + "\" stroke=\""@ + svg_color(line.color, palette_for(dark)) + "\" stroke-width=\""@
            + nm(ev(Arithmetic::Product(stroke_width, width)))
            + "\" stroke-linecap=\"round\"/>\n"@,
        _ => Seq::empty(),
    }
}

/// The first lines.
pub open spec fn lines_text(
    lines: spec_fn(usize) -> SourceLine,
    count: int,
    stroke_width: Real,
    dark: bool,
    ev: spec_fn(Arithmetic) -> Real,
    nm: spec_fn(Real) -> Seq<char>,
    sn: spec_fn(Single) -> Seq<char>,
) -> Seq<char>
    decreases count,
{
    if count <= 0 {
        Seq::empty()
    } else {
        lines_text(lines, count - 1, stroke_width, dark, ev, nm, sn) + line_text(
            lines((count - 1) as usize),
            stroke_width,
            dark,
            ev,
            nm,
            sn,
        )
    }
}

/// A character as it stands in the content of an element.
pub open spec fn xml_char(c: char) -> Seq<char> {
    if c == '&' {
        "&amp;"@
    } else if c == '<' {
        "&lt;"@
    } else if c == '>' {
        "&gt;"@
    } else if c == '"' {
        "&quot;"@
    } else if c == '\'' {
        "&apos;"@
    } else {
        seq![c]
    }
}

pub open spec fn xml_text(text: Seq<char>) -> Seq<char>
    decreases text.len(),
{
    if text.len() == 0 {
        Seq::empty()
    } else {
        xml_text(text.drop_last()) + xml_char(text.last())
    }
}

pub fn write_xml_escaped_character(output: &mut String, character: char)
    ensures
        final(output)@ == old(output)@ + xml_char(character),
{
    if character == '&' {
        output.append("&amp;");
    } else if character == '<' {
        output.append("&lt;");
    } else if character == '>' {
        output.append("&gt;");
    } else if character == '"' {
        output.append("&quot;");
    } else if character == '\'' {
        output.append("&apos;");
    } else {
        output.push(character);
        assert(output@ =~= old(output)@ + seq![character]);
    }
}

/// Nothing in an escaped text can be taken for markup or for the end of an
/// attribute.
pub proof fn xml_text_has_no_markup(text: Seq<char>)
    ensures
        !xml_text(text).contains('<'),
        !xml_text(text).contains('>'),
        !xml_text(text).contains('"'),
        !xml_text(text).contains('\''),
    decreases text.len(),
{
    if text.len() > 0 {
        xml_text_has_no_markup(text.drop_last());
        reveal_strlit("&amp;");
        reveal_strlit("&lt;");
        reveal_strlit("&gt;");
        reveal_strlit("&quot;");
        reveal_strlit("&apos;");
        let (a, b) = (xml_text(text.drop_last()), xml_char(text.last()));
        assert forall|i: int| 0 <= i < (a + b).len() implies (a + b)[i] != '<' && (a + b)[i] != '>'
            && (a + b)[i] != '"' && (a + b)[i] != '\'' by {
            if i < a.len() {
                assert((a + b)[i] == a[i]);
                assert(a.contains(a[i]));
            } else {
                assert((a + b)[i] == b[i - a.len()]);
            }
        }
    }
}

/// The colour of a text.
pub open spec fn text_color(role: TextRole, dark: bool) -> Seq<char> {
    match role {
        TextRole::Muted => svg_theme(palette_for(dark)).2,
        TextRole::Error => "#dc5050"@,
        _ => svg_theme(palette_for(dark)).1,
    }
}

/// The start of a text with some of its characters.
pub open spec fn text_start(
    text: CanvasText,
    chars: Seq<char>,
    dark: bool,
    nm: spec_fn(Real) -> Seq<char>,
) -> Seq<char> {
    let zero = Real { bits: 0 };
    let size = if usable(text.size) {
        text.size
    } else {
        Real { bits: SIXTEEN_BITS }
    };
    "<text x=\""@ + nm(finite_else(text.x, zero)) + "\" y=\""@ + nm(finite_else(text.y, zero))
        + "\" font-family=\"sans-serif\" font-size=\""@ + nm(size) + "\" fill=\""@ + text_color(
        text.role,
        dark,
    ) + "\">"@ + xml_text(chars)
}

pub open spec fn whole_text(text: CanvasText, dark: bool, nm: spec_fn(Real) -> Seq<char>) -> Seq<
    char,
> {
    text_start(text, text.content@, dark, nm) + "</text>\n"@
}

pub open spec fn texts_text(
    texts: Seq<CanvasText>,
    dark: bool,
    nm: spec_fn(Real) -> Seq<char>,
) -> Seq<char>
    decreases texts.len(),
{
    if texts.len() == 0 {
        Seq::empty()
    } else {
        texts_text(texts.drop_last(), dark, nm) + whole_text(texts.last(), dark, nm)
    }
}

/// The complete SVG of a scene.
pub open spec fn scene_svg(
    scene: CanvasScene,
    lines: spec_fn(usize) -> SourceLine,
    dark: bool,
    scale: Real,
    ev: spec_fn(Arithmetic) -> Real,
    nm: spec_fn(Real) -> Seq<char>,
    sn: spec_fn(Single) -> Seq<char>,
) -> Seq<char> {
    scene_head(scene, dark, ev, nm) + polygons_text(scene.polygons@, dark, nm) + lines_text(
        lines,
        scene.line_count as int,
        scene_stroke_width(scene, scale, ev),
        dark,
        ev,
        nm,
        sn,
    ) + texts_text(scene.texts@, dark, nm) + "</svg>\n"@
}

/// The start of a text without any of its characters.
fn text_head<N: Fn(Real) -> String>(text: &CanvasText, dark: bool, scribe: &N) -> (r: String)
    requires
        writes_numbers(*scribe),
    ensures
        r@ == text_start(*text, Seq::empty(), dark, numerals(*scribe)),
{
    let zero: Real = Real { bits: 0 };
    let size: Real = if text.size.is_finite() && text.size.is_positive() {
        text.size
    } else {
        Real { bits: SIXTEEN_BITS }
    };
    let mut tag: String = "<text x=\"".to_owned();
    push_number(&mut tag, finite_or(text.x, zero), scribe);
    tag.append("\" y=\"");
    push_number(&mut tag, finite_or(text.y, zero), scribe);
    tag.append("\" font-family=\"sans-serif\" font-size=\"");
    push_number(&mut tag, size, scribe);
    tag.append("\" fill=\"");
    match text.role {
        TextRole::Muted => {
            if dark {
                tag.append("#aab4c3");
            } else {
                tag.append("#687386");
            }
        },
        TextRole::Error => {
            tag.append("#dc5050");
        },
        _ => {
            if dark {
                tag.append("#eef2f8");
            } else {
                tag.append("#263247");
            }
        },
    }
    tag.append("\">");
    proof {
        let none: Seq<char> = Seq::empty();
        assert(xml_text(none) =~= none);
        assert(tag@ =~= text_start(*text, none, dark, numerals(*scribe)));
    }
    tag
}

#[derive(Debug, Clone, Copy, PartialEq, Eq, Structural)]
pub struct SvgProgress {
    pub completed: usize,
    pub total: usize,
    pub complete: bool,
}

/// The steps that the polygons from a place on take: opening, vertices, closing.
pub open spec fn polygon_steps(polygons: Seq<CanvasPolygon>, from: int) -> nat
    decreases polygons.len() - from,
{
    if from < 0 || from >= polygons.len() {
        0
    } else {
        polygons[from].vertices@.len() + 2 + polygon_steps(polygons, from + 1)
    }
}

/// The steps that the texts from a place on take: opening, characters, closing.
pub open spec fn text_steps(texts: Seq<CanvasText>, from: int) -> nat
    decreases texts.len() - from,
{
    if from < 0 || from >= texts.len() {
        0
    } else {
        texts[from].content@.len() + 2 + text_steps(texts, from + 1)
    }
}

/// Incremental complete-scene SVG encoder. Polygon vertices, exact lines, and
/// text characters all consume the same bounded per-call work budget.
pub struct SvgEncoder<'a> {
    scene: &'a CanvasScene,
    dark: bool,
    stroke_width: Real,
    output: String,
    polygon_index: usize,
    polygon_vertex: usize,
    polygon_open: bool,
    completed: usize,
    text_index: usize,
    text_place: usize,
    text_open: bool,
    footer_written: bool,
    scale: Ghost<Real>,
}

impl<'a> SvgEncoder<'a> {
    pub closed spec fn source(self) -> CanvasScene {
        *self.scene
    }

    pub closed spec fn is_dark(self) -> bool {
        self.dark
    }

    pub closed spec fn requested_scale(self) -> Real {
        self.scale@
    }

    pub closed spec fn done(self) -> bool {
        self.footer_written
    }

    pub closed spec fn lines_done(self) -> usize {
        self.completed
    }

    /// The steps that are left until the SVG is complete.
    pub closed spec fn left(self) -> int {
        polygon_steps(self.scene.polygons@, self.polygon_index as int) - (if self.polygon_open {
            1 + self.polygon_vertex
        } else {
            0
        }) + (self.scene.line_count - self.completed) + text_steps(
            self.scene.texts@,
            self.text_index as int,
        ) - (if self.text_open {
            1 + self.text_place
        } else {
            0
        }) + (if self.footer_written {
            0int
        } else {
            1
        })
    }

    /// The places within the scene are in order: lines begin when every polygon
    /// is written, and texts when every line is.
    pub closed spec fn in_order(self) -> bool {
        let scene = *self.scene;
        &&& scene.valid()
        &&& self.polygon_index <= scene.polygons@.len()
        &&& self.polygon_open ==> self.polygon_index < scene.polygons@.len()
            && self.polygon_vertex <= scene.polygons@[self.polygon_index as int].vertices@.len()
        &&& !self.polygon_open ==> self.polygon_vertex == 0
        &&& self.completed <= scene.line_count
        &&& self.completed > 0 ==> self.polygon_index == scene.polygons@.len()
        &&& self.text_index <= scene.texts@.len()
        &&& self.text_open ==> self.text_index < scene.texts@.len() && self.text_place
            <= scene.texts@[self.text_index as int].content@.len()
        &&& !self.text_open ==> self.text_place == 0
        &&& self.text_index > 0 || self.text_open ==> self.polygon_index == scene.polygons@.len()
            && self.completed == scene.line_count
        &&& self.footer_written ==> self.polygon_index == scene.polygons@.len() && self.completed
            == scene.line_count && self.text_index == scene.texts@.len()
    }

    /// What has been written.
    pub closed spec fn written(
        self,
        lines: spec_fn(usize) -> SourceLine,
        ev: spec_fn(Arithmetic) -> Real,
        nm: spec_fn(Real) -> Seq<char>,
        sn: spec_fn(Single) -> Seq<char>,
    ) -> Seq<char> {
        let scene = *self.scene;
        let polygon = scene.polygons@[self.polygon_index as int];
        let text = scene.texts@[self.text_index as int];
        scene_head(scene, self.dark, ev, nm) + polygons_text(
            scene.polygons@.subrange(0, self.polygon_index as int),
            self.dark,
            nm,
        ) + (if self.polygon_open {
            polygon_start(polygon.vertices@.subrange(0, self.polygon_vertex as int), nm)
        } else {
            Seq::empty()
        }) + lines_text(
            lines,
            self.completed as int,
            scene_stroke_width(scene, self.scale@, ev),
            self.dark,
            ev,
            nm,
            sn,
        ) + texts_text(scene.texts@.subrange(0, self.text_index as int), self.dark, nm) + (
        if self.text_open {
            text_start(
                text,
                text.content@.subrange(0, self.text_place as int),
                self.dark,
                nm,
            )
        } else {
            Seq::empty()
        }) + (if self.footer_written {
            "</svg>\n"@
        } else {
            Seq::empty()
        })
    }

    pub closed spec fn valid(
        self,
        lines: spec_fn(usize) -> SourceLine,
        ev: spec_fn(Arithmetic) -> Real,
        nm: spec_fn(Real) -> Seq<char>,
        sn: spec_fn(Single) -> Seq<char>,
    ) -> bool {
        &&& self.in_order()
        &&& self.stroke_width == scene_stroke_width(*self.scene, self.scale@, ev)
        &&& self.output@ == self.written(lines, ev, nm, sn)
    }

    /// The place of an encoder in a scene, without what it has written.
    spec fn same_scene(self, other: SvgEncoder<'a>) -> bool {
        self.scene == other.scene && self.dark == other.dark && self.scale == other.scale
            && self.stroke_width == other.stroke_width
    }

    /// Begin an SVG. Room for its head may be refused.
    pub fn new<N: Fn(Real) -> String, C: Fn(Arithmetic) -> Real>(
        scene: &'a CanvasScene,
        dark: bool,
        line_width_scale: Real,
        scribe: &N,
        calc: &C,
    ) -> (r: Result<SvgEncoder<'a>, CanvasError>)
        requires
            scene.valid(),
            writes_numbers(*scribe),
            calculates(*calc),
        ensures
            match r {
                Ok(encoder) => {
                    &&& forall|lines: spec_fn(usize) -> SourceLine, sn: spec_fn(Single) -> Seq<char>|
                        #[trigger] encoder.valid(lines, answers(*calc), numerals(*scribe), sn)
                    &&& encoder.source() == *scene
                    &&& encoder.is_dark() == dark
                    &&& encoder.requested_scale() == line_width_scale
                    &&& !encoder.done()
                    &&& encoder.lines_done() == 0
                },
                Err(error) => error@ == (CanvasFault::ResourceExhausted {
                    operation: "reserve SVG header data"@,
                    requested_items: (scene.line_count + scene.polygons@.len()
                        + scene.texts@.len()) as usize,
                }),
            },
    {
        let (view, drawing) = svg_view(scene.bounds, calc);
        let background: String = match scene.background {
            Some(rgb) => rgb_hex(rgb),
            None => if dark {
                "#0f1420".to_owned()
            } else {
                "#f2f5f9".to_owned()
            },
        };
        let reach: Real = view.width.max(view.height);
        let automatic: Real = adaptive_scene_svg_stroke_width(
            scene.total_line_length,
            scene.line_count,
            drawing,
            reach,
            calc,
        );
        let scale: Real = valid_line_width_scale(line_width_scale);
        let stroke_width: Real = calculate(calc, Arithmetic::Product(automatic, scale));
        let mut output: String = String::new();
        if !reserve_text(&mut output, 512) {
            return Err(
                CanvasError::ResourceExhausted {
                    operation: "reserve SVG header data",
                    requested_items: scene.line_count + scene.polygons.len() + scene.texts.len(),
                },
            );
        }
        push_head(&mut output, &view, background.as_str(), scribe);
        let encoder: SvgEncoder<'a> = SvgEncoder {
            scene,
            dark,
            stroke_width,
            output,
            polygon_index: 0,
            polygon_vertex: 0,
            polygon_open: false,
            completed: 0,
            text_index: 0,
            text_place: 0,
            text_open: false,
            footer_written: false,
            scale: Ghost(line_width_scale),
        };
        proof {
            let ev = answers(*calc);
            let nm = numerals(*scribe);
            assert forall|lines: spec_fn(usize) -> SourceLine, sn: spec_fn(Single) -> Seq<char>|
                #[trigger] encoder.valid(lines, ev, nm, sn) by {
                assert(scene.polygons@.subrange(0, 0) =~= Seq::empty());
                assert(scene.texts@.subrange(0, 0) =~= Seq::empty());
                assert(encoder.output@ =~= encoder.written(lines, ev, nm, sn));
            }
        }
        Ok(encoder)
    }

    pub fn progress(&self) -> (r: SvgProgress)
        ensures
            r == (SvgProgress {
                completed: self.lines_done(),
                total: self.source().line_count,
                complete: self.done(),
            }),
    {
        SvgProgress {
            completed: self.completed,
            total: self.scene.line_count,
            complete: self.footer_written,
        }
    }

    /// Write some of the current polygon.
    #[verifier::spinoff_prover]
    #[verifier::rlimit(80)]
    fn encode_polygon_work<N: Fn(Real) -> String>(
        &mut self,
        budget: usize,
        scribe: &N,
        Ghost(lines): Ghost<spec_fn(usize) -> SourceLine>,
        Ghost(ev): Ghost<spec_fn(Arithmetic) -> Real>,
        Ghost(sn): Ghost<spec_fn(Single) -> Seq<char>>,
    ) -> (r: usize)
        requires
            old(self).valid(lines, ev, numerals(*scribe), sn),
            writes_numbers(*scribe),
            old(self).polygon_index < old(self).scene.polygons@.len(),
            budget > 0,
        ensures
            final(self).valid(lines, ev, numerals(*scribe), sn),
            final(self).same_scene(*old(self)),
            !final(self).footer_written,
            r < budget,
            final(self).left() < old(self).left() <= final(self).left() + 3 * (budget - r),
    {
        let ghost nm = numerals(*scribe);
        let ghost start = *self;
        let ghost scene = *self.scene;
        let ghost head = scene_head(scene, self.dark, ev, nm) + polygons_text(
            scene.polygons@.subrange(0, self.polygon_index as int),
            self.dark,
            nm,
        );
        proof {
            // With a polygon to come, neither lines nor texts have begun.
            assert(scene.texts@.subrange(0, 0) =~= Seq::empty());
            assert(self.output@ =~= head + if self.polygon_open {
                polygon_start(
                    scene.polygons@[self.polygon_index as int].vertices@.subrange(
                        0,
                        self.polygon_vertex as int,
                    ),
                    nm,
                )
            } else {
                Seq::empty()
            });
        }
        let polygon: &CanvasPolygon = &self.scene.polygons[self.polygon_index];
        if !self.polygon_open {
            self.output.append("<polygon points=\"");
            self.polygon_open = true;
            assert(polygon.vertices@.subrange(0, 0) =~= Seq::empty());
            assert(self.output@ =~= head + polygon_start(
                polygon.vertices@.subrange(0, self.polygon_vertex as int),
                nm,
            ));
        }
        let mut remaining: usize = budget;
        while remaining > 0 && self.polygon_vertex < polygon.vertices.len()
            invariant
                writes_numbers(*scribe),
                nm == numerals(*scribe),
                scene == *self.scene,
                self.same_scene(start),
                self.polygon_index == start.polygon_index,
                self.completed == 0,
                self.text_index == 0,
                self.text_place == 0,
                !self.text_open,
                !self.footer_written,
                self.polygon_open,
                polygon == scene.polygons@[self.polygon_index as int],
                self.polygon_vertex <= polygon.vertices@.len(),
                remaining <= budget,
                self.polygon_vertex > start.polygon_vertex || remaining == budget,
                self.polygon_vertex - start.polygon_vertex == budget - remaining,
                self.output@ == head + polygon_start(
                    polygon.vertices@.subrange(0, self.polygon_vertex as int),
                    nm,
                ),
            decreases polygon.vertices@.len() - self.polygon_vertex,
        {
            let ghost before = polygon.vertices@.subrange(0, self.polygon_vertex as int);
            let ghost lead = self.output@;
            if self.polygon_vertex > 0 {
                self.output.append(" ");
            }
            let point: Point2d = polygon.vertices[self.polygon_vertex];
            push_number(&mut self.output, point.0, scribe);
            self.output.append(",");
            push_number(&mut self.output, point.1.negated(), scribe);
            self.polygon_vertex = self.polygon_vertex + 1;
            remaining = remaining - 1;
            proof {
                let after = polygon.vertices@.subrange(0, self.polygon_vertex as int);
                assert(after.drop_last() =~= before);
                let text = nm(point.0) + ","@ + nm(point.1.opposite());
                if before.len() == 0 {
                    assert(svg_points(before, nm) =~= Seq::empty());
                    assert(self.output@ =~= head + ("<polygon points=\""@ + text));
                } else {
                    assert(self.output@ =~= head + ("<polygon points=\""@ + (svg_points(before, nm)
                        + " "@ + text)));
                }
            }
        }
        if self.polygon_vertex >= polygon.vertices.len() {
            assert(polygon.vertices@.subrange(0, self.polygon_vertex as int)
                =~= polygon.vertices@);
            self.output.append("\" fill=\"");
            let palette: Palette = if self.dark {
                Palette::Dark
            } else {
                Palette::Light
            };
            push_color(&mut self.output, polygon.color, palette);
            self.output.append("\" stroke=\"none\"/>\n");
            proof {
                let whole = polygon_text(*polygon, self.dark, nm);
                assert(self.output@ =~= head + whole);
                let done = scene.polygons@.subrange(0, self.polygon_index + 1);
                assert(done.drop_last() =~= scene.polygons@.subrange(
                    0,
                    self.polygon_index as int,
                ));
                assert(self.output@ =~= scene_head(scene, self.dark, ev, nm) + polygons_text(
                    done,
                    self.dark,
                    nm,
                ));
            }
            // Empty polygons still consume work, so that however many there
            // are, a batch stays bounded.
            if polygon.vertices.len() == 0 {
                remaining = remaining - 1;
            }
            self.polygon_index = self.polygon_index + 1;
            self.polygon_vertex = 0;
            self.polygon_open = false;
        }
        proof {
            assert(self.output@ =~= self.written(lines, ev, nm, sn));
        }
        if remaining == budget {
            remaining = remaining - 1;
        }
        remaining
    }

    /// Write the next lines.
    fn encode_line_work<
        G: Fn(usize) -> SourceLine,
        N: Fn(Real) -> String,
        M: Fn(Single) -> String,
        C: Fn(Arithmetic) -> Real,
    >(&mut self, budget: usize, line_at: &G, scribe: &N, single_scribe: &M, calc: &C) -> (r: usize)
        requires
            calculates(*calc),
            writes_numbers(*scribe),
            writes::<Single, M>(*single_scribe),
            consistent::<usize, SourceLine, G>(*line_at),
            old(self).valid(
                function_of::<usize, SourceLine, G>(*line_at),
                answers(*calc),
                numerals(*scribe),
                writing::<Single, M>(*single_scribe),
            ),
            old(self).polygon_index == old(self).scene.polygons@.len(),
            old(self).completed < old(self).scene.line_count,
            budget > 0,
        ensures
            final(self).valid(
                function_of::<usize, SourceLine, G>(*line_at),
                answers(*calc),
                numerals(*scribe),
                writing::<Single, M>(*single_scribe),
            ),
            final(self).same_scene(*old(self)),
            !final(self).footer_written,
            r < budget,
            final(self).left() < old(self).left() <= final(self).left() + 3 * (budget - r),
    {
        let ghost ev = answers(*calc);
        let ghost nm = numerals(*scribe);
        let ghost sn = writing::<Single, M>(*single_scribe);
        let ghost lines = function_of::<usize, SourceLine, G>(*line_at);
        let ghost start = *self;
        let ghost scene = *self.scene;
        let ghost width = self.stroke_width;
        let ghost dark = self.dark;
        let ghost head = scene_head(scene, dark, ev, nm) + polygons_text(
            scene.polygons@.subrange(0, self.polygon_index as int),
            dark,
            nm,
        );
        proof {
            assert(scene.texts@.subrange(0, 0) =~= Seq::empty());
            assert(self.output@ =~= head + lines_text(
                lines,
                self.completed as int,
                width,
                dark,
                ev,
                nm,
                sn,
            ));
        }
        let palette: Palette = if self.dark {
            Palette::Dark
        } else {
            Palette::Light
        };
        let mut remaining: usize = budget;
        while remaining > 0 && self.completed < self.scene.line_count
            invariant
                calculates(*calc),
                writes_numbers(*scribe),
                writes::<Single, M>(*single_scribe),
                consistent::<usize, SourceLine, G>(*line_at),
                ev == answers(*calc),
                nm == numerals(*scribe),
                sn == writing::<Single, M>(*single_scribe),
                lines == function_of::<usize, SourceLine, G>(*line_at),
                scene == *self.scene,
                width == self.stroke_width,
                dark == self.dark,
                palette == palette_for(dark),
                self.same_scene(start),
                self.polygon_index == scene.polygons@.len(),
                self.polygon_index == start.polygon_index,
                self.polygon_vertex == 0,
                !self.polygon_open,
                self.text_index == 0,
                self.text_place == 0,
                !self.text_open,
                !self.footer_written,
                self.completed <= scene.line_count,
                start.completed < scene.line_count,
                self.completed - start.completed == budget - remaining,
                remaining <= budget,
                self.output@ == head + lines_text(
                    lines,
                    self.completed as int,
                    width,
                    dark,
                    ev,
                    nm,
                    sn,
                ),
            decreases remaining,
        {
            let line: SourceLine = ask(line_at, self.completed);
            let ghost before = lines_text(
                lines,
                self.completed as int,
                width,
                dark,
                ev,
                nm,
                sn,
            );
            let ghost lead = self.output@;
            let drawn: Option<Real> = positive_width(line.width, calc);
            match drawn {
                Some(multiplier) => {
                    if line.start.0.is_finite() && line.start.1.is_finite()
                        && line.end.0.is_finite() && line.end.1.is_finite() {
                        let line_width: Real = calculate(
                            calc,
                            Arithmetic::Product(self.stroke_width, multiplier),
                        );
                        let mut tag: String = "<line x1=\"".to_owned();
                        let x1: String = write_with(single_scribe, line.start.0);
                        tag.append(x1.as_str());
                        tag.append("\" y1=\"");
                        let y1: String = write_with(single_scribe, line.start.1.negated());
                        tag.append(y1.as_str());
                        tag.append("\" x2=\"");
                        let x2: String = write_with(single_scribe, line.end.0);
                        tag.append(x2.as_str());
                        tag.append("\" y2=\"");
                        let y2: String = write_with(single_scribe, line.end.1.negated());
                        tag.append(y2.as_str());
                        tag.append("\" stroke=\"");
                        push_color(&mut tag, line.color, palette);
                        tag.append("\" stroke-width=\"");
                        push_number(&mut tag, line_width, scribe);
                        tag.append("\" stroke-linecap=\"round\"/>\n");
                        assert(tag@ == line_text(line, width, dark, ev, nm, sn));
                        self.output.append(tag.as_str());
                    }
                },
                None => {},
            }
            proof {
                assert(self.output@ =~= lead + line_text(line, width, dark, ev, nm, sn));
                assert(self.output@ =~= head + (before + line_text(
                    line,
                    width,
                    dark,
                    ev,
                    nm,
                    sn,
                )));
            }
            self.completed = self.completed + 1;
            remaining = remaining - 1;
        }
        proof {
            assert(self.output@ =~= self.written(lines, ev, nm, sn));
        }
        remaining
    }

    /// Write some of the current text.
    #[verifier::rlimit(40)]
    fn encode_text_work<N: Fn(Real) -> String>(
        &mut self,
        budget: usize,
        scribe: &N,
        Ghost(lines): Ghost<spec_fn(usize) -> SourceLine>,
        Ghost(ev): Ghost<spec_fn(Arithmetic) -> Real>,
        Ghost(sn): Ghost<spec_fn(Single) -> Seq<char>>,
    ) -> (r: usize)
        requires
            old(self).valid(lines, ev, numerals(*scribe), sn),
            writes_numbers(*scribe),
            old(self).polygon_index == old(self).scene.polygons@.len(),
            old(self).completed == old(self).scene.line_count,
            old(self).text_index < old(self).scene.texts@.len(),
            budget > 0,
        ensures
            final(self).valid(lines, ev, numerals(*scribe), sn),
            final(self).same_scene(*old(self)),
            !final(self).footer_written,
            r < budget,
            final(self).left() < old(self).left() <= final(self).left() + 3 * (budget - r),
    {
        let ghost nm = numerals(*scribe);
        let ghost start = *self;
        let ghost scene = *self.scene;
        let ghost dark = self.dark;
        let ghost head = scene_head(scene, dark, ev, nm) + polygons_text(
            scene.polygons@.subrange(0, self.polygon_index as int),
            dark,
            nm,
        ) + lines_text(
            lines,
            self.completed as int,
            self.stroke_width,
            dark,
            ev,
            nm,
            sn,
        ) + texts_text(scene.texts@.subrange(0, self.text_index as int), dark, nm);
        let text: &CanvasText = &self.scene.texts[self.text_index];
        proof {
            assert(self.output@ =~= head + if self.text_open {
                text_start(
                    *text,
                    text.content@.subrange(0, self.text_place as int),
                    dark,
                    nm,
                )
            } else {
                Seq::empty()
            });
        }
        if !self.text_open {
            let tag: String = text_head(text, self.dark, scribe);
            assert(text.content@.subrange(0, 0) =~= Seq::empty());
            self.output.append(tag.as_str());
            self.text_open = true;
        }
        let chars: Vec<char> = chars_of(text.content.as_str());
        let mut remaining: usize = budget;
        while remaining > 0 && self.text_place < chars.len()
            invariant
                nm == numerals(*scribe),
                scene == *self.scene,
                dark == self.dark,
                self.same_scene(start),
                self.polygon_index == start.polygon_index,
                self.polygon_vertex == start.polygon_vertex,
                self.polygon_open == start.polygon_open,
                self.completed == start.completed,
                self.text_index == start.text_index,
                self.text_index < scene.texts@.len(),
                self.text_open,
                !self.footer_written,
                text == scene.texts@[self.text_index as int],
                chars@ == text.content@,
                self.text_place <= chars@.len(),
                remaining <= budget,
                self.text_place - start.text_place == budget - remaining,
                self.output@ == head + text_start(
                    *text,
                    text.content@.subrange(0, self.text_place as int),
                    dark,
                    nm,
                ),
            decreases remaining,
        {
            let ghost before = text.content@.subrange(0, self.text_place as int);
            let ghost lead = self.output@;
            let character: char = chars[self.text_place];
            write_xml_escaped_character(&mut self.output, character);
            self.text_place = self.text_place + 1;
            remaining = remaining - 1;
            proof {
                let after = text.content@.subrange(0, self.text_place as int);
                assert(after.drop_last() =~= before);
                assert(xml_text(after) == xml_text(before) + xml_char(character));
                assert(text_start(*text, after, dark, nm) =~= text_start(*text, before, dark, nm)
                    + xml_char(character));
                assert(self.output@ =~= head + text_start(*text, after, dark, nm));
            }
        }
        if self.text_place >= chars.len() {
            assert(text.content@.subrange(0, self.text_place as int) =~= text.content@);
            self.output.append("</text>\n");
            proof {
                let done = scene.texts@.subrange(0, self.text_index + 1);
                assert(done.drop_last() =~= scene.texts@.subrange(0, self.text_index as int));
                assert(self.output@ =~= head + whole_text(*text, dark, nm));
            }
            if chars.len() == 0 {
                remaining = remaining - 1;
            }
            self.text_index = self.text_index + 1;
            self.text_place = 0;
            self.text_open = false;
        }
        proof {
            assert(self.output@ =~= self.written(lines, ev, nm, sn));
        }
        if remaining == budget {
            remaining = remaining - 1;
        }
        remaining
    }

    /// Encode a bounded amount of work. The cancellation hook is asked before
    /// every piece of it, and room may be refused.
    pub fn encode_next_batch<
        F: Fn() -> bool,
        G: Fn(usize) -> SourceLine,
        N: Fn(Real) -> String,
        M: Fn(Single) -> String,
        C: Fn(Arithmetic) -> Real,
    >(
        &mut self,
        hook: &mut Hook<F>,
        line_at: &G,
        scribe: &N,
        single_scribe: &M,
        calc: &C,
    ) -> (r: Result<SvgProgress, CanvasError>)
        requires
            calculates(*calc),
            writes_numbers(*scribe),
            writes::<Single, M>(*single_scribe),
            consistent::<usize, SourceLine, G>(*line_at),
            old(hook).ready(),
            old(self).valid(
                function_of::<usize, SourceLine, G>(*line_at),
                answers(*calc),
                numerals(*scribe),
                writing::<Single, M>(*single_scribe),
            ),
        ensures
            final(hook).ready(),
            final(hook).follows(*old(hook)),
            final(hook).since(*old(hook)).len() > 0,
            final(self).valid(
                function_of::<usize, SourceLine, G>(*line_at),
                answers(*calc),
                numerals(*scribe),
                writing::<Single, M>(*single_scribe),
            ),
            final(self).source() == old(self).source(),
            final(self).is_dark() == old(self).is_dark(),
            final(self).requested_scale() == old(self).requested_scale(),
            final(self).left() <= old(self).left() <= final(self).left() + 3 * SVG_LINES_PER_BATCH,
            match r {
                Ok(progress) => {
                    &&& progress == (SvgProgress {
                        completed: final(self).lines_done(),
                        total: final(self).source().line_count,
                        complete: final(self).done(),
                    })
                    &&& !old(self).done() ==> final(self).left() < old(self).left()
                    &&& calm(final(hook).since(*old(hook)))
                    &&& !old(self).done() ==> final(hook).since(*old(hook)).len() > 2
                },
                Err(error) => {
                    ||| error@ == CanvasFault::Cancelled && stopped(
                        final(hook).since(*old(hook)),
                    )
                    ||| calm(final(hook).since(*old(hook))) && error@
                        == (CanvasFault::ResourceExhausted {
                        operation: "reserve SVG batch data"@,
                        requested_items: (old(self).source().line_count
                            + old(self).source().polygons@.len()
                            + old(self).source().texts@.len()) as usize,
                    })
                },
            },
    {
        let ghost ev = answers(*calc);
        let ghost nm = numerals(*scribe);
        let ghost sn = writing::<Single, M>(*single_scribe);
        let ghost lines = function_of::<usize, SourceLine, G>(*line_at);
        let ghost start = *self;
        let ghost entry = *hook;
        proof {
            lemma_unasked(entry);
        }
        let cancelled: bool = hook.ask(Ghost(entry));
        if cancelled {
            return Err(CanvasError::Cancelled);
        }
        if self.footer_written {
            return Ok(self.progress());
        }
        if !reserve_text(&mut self.output, SVG_LINES_PER_BATCH * 320) {
            return Err(
                CanvasError::ResourceExhausted {
                    operation: "reserve SVG batch data",
                    requested_items: self.scene.line_count + self.scene.polygons.len()
                        + self.scene.texts.len(),
                },
            );
        }
        let mut remaining: usize = SVG_LINES_PER_BATCH;
        while remaining > 0 && !self.footer_written
            invariant
                calculates(*calc),
                writes_numbers(*scribe),
                writes::<Single, M>(*single_scribe),
                consistent::<usize, SourceLine, G>(*line_at),
                entry == *old(hook),
                hook.ready(),
                hook.follows(entry),
                calm(hook.since(entry)),
                hook.since(entry).len() > 0,
                remaining < SVG_LINES_PER_BATCH ==> hook.since(entry).len() > 1,
                ev == answers(*calc),
                nm == numerals(*scribe),
                sn == writing::<Single, M>(*single_scribe),
                lines == function_of::<usize, SourceLine, G>(*line_at),
                self.valid(lines, ev, nm, sn),
                self.same_scene(start),
                start == *old(self),
                !start.footer_written,
                remaining <= SVG_LINES_PER_BATCH,
                self.left() <= start.left() <= self.left() + 3 * (SVG_LINES_PER_BATCH - remaining),
                remaining < SVG_LINES_PER_BATCH ==> self.left() < start.left(),
                remaining == SVG_LINES_PER_BATCH ==> !self.footer_written,
            decreases remaining,
        {
            let cancelled: bool = hook.ask(Ghost(entry));
            if cancelled {
                return Err(CanvasError::Cancelled);
            }
            if self.polygon_index < self.scene.polygons.len() {
                remaining = self.encode_polygon_work(
                    remaining,
                    scribe,
                    Ghost(lines),
                    Ghost(ev),
                    Ghost(sn),
                );
            } else if self.completed < self.scene.line_count {
                remaining = self.encode_line_work(
                    remaining,
                    line_at,
                    scribe,
                    single_scribe,
                    calc,
                );
            } else if self.text_index < self.scene.texts.len() {
                remaining = self.encode_text_work(
                    remaining,
                    scribe,
                    Ghost(lines),
                    Ghost(ev),
                    Ghost(sn),
                );
            } else {
                let ghost before = self.output@;
                self.output.append("</svg>\n");
                self.footer_written = true;
                remaining = remaining - 1;
                assert(self.output@ =~= self.written(lines, ev, nm, sn));
            }
        }
        let cancelled: bool = hook.ask(Ghost(entry));
        if cancelled {
            return Err(CanvasError::Cancelled);
        }
        Ok(self.progress())
    }

    /// The complete SVG, once it is complete.
    pub fn finish<
        G: Fn(usize) -> SourceLine,
        N: Fn(Real) -> String,
        M: Fn(Single) -> String,
        C: Fn(Arithmetic) -> Real,
    >(self, line_at: &G, scribe: &N, single_scribe: &M, calc: &C) -> (r: Result<
        String,
        CanvasError,
    >)
        requires
            self.valid(
                function_of::<usize, SourceLine, G>(*line_at),
                answers(*calc),
                numerals(*scribe),
                writing::<Single, M>(*single_scribe),
            ),
        ensures
            match r {
                Ok(text) => self.done() && text@ == scene_svg(
                    self.source(),
                    function_of::<usize, SourceLine, G>(*line_at),
                    self.is_dark(),
                    self.requested_scale(),
                    answers(*calc),
                    numerals(*scribe),
                    writing::<Single, M>(*single_scribe),
                ),
                Err(error) => !self.done() && error@ == (CanvasFault::IncompleteSvg {
                    completed: self.lines_done(),
                    total: self.source().line_count,
                }),
            },
    {
        if !self.footer_written {
            return Err(
                CanvasError::IncompleteSvg {
                    completed: self.completed,
                    total: self.scene.line_count,
                },
            );
        }
        proof {
            let lines = function_of::<usize, SourceLine, G>(*line_at);
            let ev = answers(*calc);
            let nm = numerals(*scribe);
            let sn = writing::<Single, M>(*single_scribe);
            let scene = *self.scene;
            assert(scene.polygons@.subrange(0, self.polygon_index as int) =~= scene.polygons@);
            assert(scene.texts@.subrange(0, self.text_index as int) =~= scene.texts@);
            assert(self.output@ =~= scene_svg(
                scene,
                lines,
                self.dark,
                self.scale@,
                ev,
                nm,
                sn,
            ));
        }
        Ok(self.output)
    }
}

impl<'a> SvgEncoder<'a> {
    /// Work comes to an end: an encoder has finitely many steps left, and none
    /// exactly when its SVG is complete.
    pub proof fn encoding_ends(
        self,
        lines: spec_fn(usize) -> SourceLine,
        ev: spec_fn(Arithmetic) -> Real,
        nm: spec_fn(Real) -> Seq<char>,
        sn: spec_fn(Single) -> Seq<char>,
    )
        requires
            self.valid(lines, ev, nm, sn),
        ensures
            self.left() >= 0,
            self.left() == 0 <==> self.done(),
    {
    }
}

} // verus!
