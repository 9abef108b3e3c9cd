//! One iteration turning into the next: lines part of the way between two
//! places, and how wide, opaque and coloured they are.

use vstd::prelude::*;
use vstd::string::*;

use crate::canvas::{
    blended, drawn_width, lerp, positive_width, valid_line_width_scale, width_scale, PlanarBounds,
};
use crate::geometry::{Point2d, StrokeColor};
use crate::number::{answers, calculate, calculates, Arithmetic, Real, ONE_BITS};
use crate::oracle::{ask, consistent, function_of};
use crate::palette::{bounded_or, finite_unit_or};
use crate::single::Single;
use crate::spatial::{finite_else, finite_or};
use crate::stroke::{adaptive_scene_stroke_width, scene_width, usable};
use crate::svg::{numerals, push_number, writes_numbers};

verus! {

/// The pattern of 255.
pub const BYTE_LIMIT_BITS: u64 = 0x406f_e000_0000_0000;

/// A line of a transition as it was transferred.
#[derive(Debug, Clone, Copy, PartialEq, Eq)]
pub struct MorphLine {
    pub source_start: (Single, Single),
    pub source_end: (Single, Single),
    pub source_width: Single,
    pub target_start: (Single, Single),
    pub target_end: (Single, Single),
    pub target_width: Single,
    pub source_opacity: Single,
    pub target_opacity: Single,
    pub source_palette_start: (Single, Single),
    pub source_palette_end: (Single, Single),
    pub target_palette_start: (Single, Single),
    pub target_palette_end: (Single, Single),
    pub source_color: StrokeColor,
    pub target_color: StrokeColor,
    pub source_space_is_target: bool,
    pub target_space_is_target: bool,
}

/// The values of a transferred line, in their order, and what the last four of
/// them stand for.
pub open spec fn morph_of(
    values: Seq<Single>,
    colors: (StrokeColor, StrokeColor),
    spaces: (bool, bool),
) -> MorphLine {
    MorphLine {
        source_start: (values[0], values[1]),
        source_end: (values[2], values[3]),
        source_width: values[4],
        target_start: (values[5], values[6]),
        target_end: (values[7], values[8]),
        target_width: values[9],
        source_opacity: values[10],
        target_opacity: values[11],
        source_palette_start: (values[12], values[13]),
        source_palette_end: (values[14], values[15]),
        target_palette_start: (values[16], values[17]),
        target_palette_end: (values[18], values[19]),
        source_color: colors.0,
        target_color: colors.1,
        source_space_is_target: spaces.0,
        target_space_is_target: spaces.1,
    }
}

/// Put the values of a transferred line in their places.
pub fn decode_morph(
    values: &[Single],
    colors: (StrokeColor, StrokeColor),
    spaces: (bool, bool),
) -> (r: MorphLine)
    requires
        values@.len() >= 20,
    ensures
        r == morph_of(values@, colors, spaces),
{
    MorphLine {
        source_start: (values[0], values[1]),
        source_end: (values[2], values[3]),
        source_width: values[4],
        target_start: (values[5], values[6]),
        target_end: (values[7], values[8]),
        target_width: values[9],
        source_opacity: values[10],
        target_opacity: values[11],
        source_palette_start: (values[12], values[13]),
        source_palette_end: (values[14], values[15]),
        target_palette_start: (values[16], values[17]),
        target_palette_end: (values[18], values[19]),
        source_color: colors.0,
        target_color: colors.1,
        source_space_is_target: spaces.0,
        target_space_is_target: spaces.1,
    }
}

/// How far bounds reach.
pub open spec fn extent_of_bounds(bounds: PlanarBounds, ev: spec_fn(Arithmetic) -> Real) -> Point2d {
    let zero = Real { bits: 0 };
    (
        ev(Arithmetic::Difference(bounds.max_x, bounds.min_x)).upper(zero),
        ev(Arithmetic::Difference(bounds.max_y, bounds.min_y)).upper(zero),
    )
}

pub fn bounds_extent<C: Fn(Arithmetic) -> Real>(bounds: PlanarBounds, calc: &C) -> (r: Point2d)
    requires
        calculates(*calc),
    ensures
        r == extent_of_bounds(bounds, answers(*calc)),
{
    let zero: Real = Real { bits: 0 };
    (
        calculate(calc, Arithmetic::Difference(bounds.max_x, bounds.min_x)).max(zero),
        calculate(calc, Arithmetic::Difference(bounds.max_y, bounds.min_y)).max(zero),
    )
}

/// How a view scales: to fit, and with its zoom.
#[derive(Debug, Clone, Copy, PartialEq, Eq, Structural)]
pub struct ViewScale {
    pub fit_scale: Real,
    pub stroke_scale: Real,
}

/// The stroke width of a view before the widths of its lines.
pub open spec fn view_width(
    total_line_length: Option<Real>,
    line_count: usize,
    bounds: PlanarBounds,
    view: ViewScale,
    scale: Real,
    ev: spec_fn(Arithmetic) -> Real,
) -> Real {
    let zoom = ev(Arithmetic::Quotient(view.stroke_scale, view.fit_scale));
    let automatic = scene_width(
        total_line_length,
        line_count,
        extent_of_bounds(bounds, ev),
        view.fit_scale,
        ev,
    );
    ev(
        Arithmetic::Product(ev(Arithmetic::Product(automatic, zoom)), width_scale(scale)),
    )
}

pub fn transition_base_width<C: Fn(Arithmetic) -> Real>(
    total_line_length: Option<Real>,
    line_count: usize,
    bounds: PlanarBounds,
    view: ViewScale,
    line_width_scale: Real,
    calc: &C,
) -> (r: Real)
    requires
        calculates(*calc),
    ensures
        r == view_width(
            total_line_length,
            line_count,
            bounds,
            view,
            line_width_scale,
            answers(*calc),
        ),
{
    let zoom: Real = calculate(calc, Arithmetic::Quotient(view.stroke_scale, view.fit_scale));
    let extent: Point2d = bounds_extent(bounds, calc);
    let automatic: Real = adaptive_scene_stroke_width(
        total_line_length,
        line_count,
        extent,
        view.fit_scale,
        calc,
    );
    let zoomed: Real = calculate(calc, Arithmetic::Product(automatic, zoom));
    calculate(calc, Arithmetic::Product(zoomed, valid_line_width_scale(line_width_scale)))
}

/// The bounds that each side of a transition is fitted to: an empty side takes
/// those of the other.
pub fn transition_bounds(
    source: PlanarBounds,
    source_lines: usize,
    target: PlanarBounds,
    target_lines: usize,
) -> (r: (PlanarBounds, PlanarBounds))
    ensures
        r.0 == (if source_lines == 0 { target } else { source }),
        r.1 == (if target_lines == 0 { source } else { target }),
{
    (
        if source_lines == 0 {
            target
        } else {
            source
        },
        if target_lines == 0 {
            source
        } else {
            target
        },
    )
}

/// Progress that can be used: from zero to one.
pub open spec fn progress_of(progress: Real) -> Real {
    bounded_or(progress, Real { bits: 0 }, Real { bits: ONE_BITS }, Real { bits: 0 })
}

/// The end of a line in the view of one side of a transition.
#[derive(Debug, Clone, Copy, PartialEq, Eq)]
pub struct Anchor {
    pub point: (Single, Single),
    /// Whether it is placed as the target is, and not as the source.
    pub in_target: bool,
}

/// The colour of a line on one side of a transition.
#[derive(Debug, Clone, Copy, PartialEq, Eq)]
pub struct AnchorColor {
    pub color: StrokeColor,
    pub palette_start: (Single, Single),
    pub palette_end: (Single, Single),
    pub in_target: bool,
    pub dark: bool,
}

/// A line part of the way through a transition.
#[derive(Debug, Clone, Copy, PartialEq, Eq)]
pub struct BlendedLine {
    pub start: Point2d,
    pub end: Point2d,
    pub width: Real,
    pub alpha: Real,
    pub color: (Real, Real, Real),
}

/// How the two sides of a transition are shown.
pub struct Sides {
    pub place: spec_fn(Anchor) -> Point2d,
    pub color: spec_fn(AnchorColor) -> (Real, Real, Real),
    pub source_width: Real,
    pub target_width: Real,
    pub dark: bool,
}

/// A point part of the way between two.
pub open spec fn between_points(
    from: Point2d,
    to: Point2d,
    progress: Real,
    ev: spec_fn(Arithmetic) -> Real,
) -> Point2d {
    (blended(from.0, to.0, progress, ev), blended(from.1, to.1, progress, ev))
}

/// A line width, where the line has one.
pub open spec fn width_or_zero(width: Single, ev: spec_fn(Arithmetic) -> Real) -> Real {
    match drawn_width(width, ev) {
        Some(width) => width,
        None => Real { bits: 0 },
    }
}

pub open spec fn side_width(in_target: bool, sides: Sides) -> Real {
    if in_target {
        sides.target_width
    } else {
        sides.source_width
    }
}

/// A line of a transition, where it is seen.
pub open spec fn blend_of(
    line: MorphLine,
    progress: Real,
    sides: Sides,
    ev: spec_fn(Arithmetic) -> Real,
) -> Option<BlendedLine> {
    let at = progress_of(progress);
    let zero = Real { bits: 0 };
    let one = Real { bits: ONE_BITS };
    let (from, to) = (line.source_space_is_target, line.target_space_is_target);
    let width = blended(
        ev(
            Arithmetic::Product(
                side_width(from, sides),
                width_or_zero(line.source_width, ev),
            ),
        ),
        ev(Arithmetic::Product(side_width(to, sides), width_or_zero(line.target_width, ev))),
        at,
        ev,
    );
    let alpha = blended(
        finite_else(ev(Arithmetic::Widened(line.source_opacity.bits)), zero),
        finite_else(ev(Arithmetic::Widened(line.target_opacity.bits)), zero),
        at,
        ev,
    ).within(zero, one);
    if width.at_most(zero) || !width.finite() || alpha.at_most(zero) {
        None
    } else {
        let source_color = (sides.color)(
            AnchorColor {
                color: line.source_color,
                palette_start: line.source_palette_start,
                palette_end: line.source_palette_end,
                in_target: from,
                dark: sides.dark,
            },
        );
        let target_color = (sides.color)(
            AnchorColor {
                color: line.target_color,
                palette_start: line.target_palette_start,
                palette_end: line.target_palette_end,
                in_target: to,
                dark: sides.dark,
            },
        );
        Some(
            BlendedLine {
                start: between_points(
                    (sides.place)(Anchor { point: line.source_start, in_target: from }),
                    (sides.place)(Anchor { point: line.target_start, in_target: to }),
                    at,
                    ev,
                ),
                end: between_points(
                    (sides.place)(Anchor { point: line.source_end, in_target: from }),
                    (sides.place)(Anchor { point: line.target_end, in_target: to }),
                    at,
                    ev,
                ),
                width,
                alpha,
                color: (
                    blended(source_color.0, target_color.0, at, ev),
                    blended(source_color.1, target_color.1, at, ev),
                    blended(source_color.2, target_color.2, at, ev),
                ),
            },
        )
    }
}

fn width_of<C: Fn(Arithmetic) -> Real>(width: Single, calc: &C) -> (r: Real)
    requires
        calculates(*calc),
    ensures
        r == width_or_zero(width, answers(*calc)),
{
    match positive_width(width, calc) {
        Some(width) => width,
        None => Real { bits: 0 },
    }
}

fn blend_points<C: Fn(Arithmetic) -> Real>(from: Point2d, to: Point2d, progress: Real, calc: &C) -> (r:
    Point2d)
    requires
        calculates(*calc),
    ensures
        r == between_points(from, to, progress, answers(*calc)),
{
    (lerp(from.0, to.0, progress, calc), lerp(from.1, to.1, progress, calc))
}

/// Place a line of a transition, where it is seen. `place` gives the point of
/// an end in the view of its side, and `color` the colour of a side.
pub fn blend_line<
    P: Fn(Anchor) -> Point2d,
    K: Fn(AnchorColor) -> (Real, Real, Real),
    C: Fn(Arithmetic) -> Real,
>(
    line: MorphLine,
    progress: Real,
    source_width: Real,
    target_width: Real,
    dark: bool,
    place: &P,
    color: &K,
    calc: &C,
) -> (r: Option<BlendedLine>)
    requires
        calculates(*calc),
        consistent::<Anchor, Point2d, P>(*place),
        consistent::<AnchorColor, (Real, Real, Real), K>(*color),
    ensures
        r == blend_of(
            line,
            progress,
            Sides {
                place: function_of::<Anchor, Point2d, P>(*place),
                color: function_of::<AnchorColor, (Real, Real, Real), K>(*color),
                source_width,
                target_width,
                dark,
            },
            answers(*calc),
        ),
{
    let zero: Real = Real { bits: 0 };
    let one: Real = Real { bits: ONE_BITS };
    let at: Real = finite_unit_or(progress, zero);
    let (from, to): (bool, bool) = (line.source_space_is_target, line.target_space_is_target);
    let from_width: Real = if from {
        target_width
    } else {
        source_width
    };
    let to_width: Real = if to {
        target_width
    } else {
        source_width
    };
    let source_base: Real = width_of(line.source_width, calc);
    let target_base: Real = width_of(line.target_width, calc);
    let first: Real = calculate(calc, Arithmetic::Product(from_width, source_base));
    let second: Real = calculate(calc, Arithmetic::Product(to_width, target_base));
    let width: Real = lerp(first, second, at, calc);
    let source_opacity: Real = finite_or(
        calculate(calc, Arithmetic::Widened(line.source_opacity.bits)),
        zero,
    );
    let target_opacity: Real = finite_or(
        calculate(calc, Arithmetic::Widened(line.target_opacity.bits)),
        zero,
    );
    let alpha: Real = lerp(source_opacity, target_opacity, at, calc).clamp(zero, one);
    if width.less_equal(zero) || !width.is_finite() || alpha.less_equal(zero) {
        return None;
    }
    let source_start: Point2d = ask(place, Anchor { point: line.source_start, in_target: from });
    let source_end: Point2d = ask(place, Anchor { point: line.source_end, in_target: from });
    let target_start: Point2d = ask(place, Anchor { point: line.target_start, in_target: to });
    let target_end: Point2d = ask(place, Anchor { point: line.target_end, in_target: to });
    let source_color: (Real, Real, Real) = ask(
        color,
        AnchorColor {
            color: line.source_color,
            palette_start: line.source_palette_start,
            palette_end: line.source_palette_end,
            in_target: from,
            dark,
        },
    );
    let target_color: (Real, Real, Real) = ask(
        color,
        AnchorColor {
            color: line.target_color,
            palette_start: line.target_palette_start,
            palette_end: line.target_palette_end,
            in_target: to,
            dark,
        },
    );
    Some(
        BlendedLine {
            start: blend_points(source_start, target_start, at, calc),
            end: blend_points(source_end, target_end, at, calc),
            width,
            alpha,
            color: (
                lerp(source_color.0, target_color.0, at, calc),
                lerp(source_color.1, target_color.1, at, calc),
                lerp(source_color.2, target_color.2, at, calc),
            ),
        },
    )
}

/// What is seen of a transition has a width and is not quite transparent.
pub proof fn seen_lines_have_ink(
    line: MorphLine,
    progress: Real,
    sides: Sides,
    ev: spec_fn(Arithmetic) -> Real,
)
    requires
        blend_of(line, progress, sides, ev) is Some,
    ensures
        blend_of(line, progress, sides, ev)->Some_0.width.finite(),
        usable(blend_of(line, progress, sides, ev)->Some_0.width),
        !blend_of(line, progress, sides, ev)->Some_0.alpha.at_most(Real { bits: 0 }),
{
}

/// A colour by components from zero to one, in the notation of style sheets.
pub open spec fn components_text(
    color: (Real, Real, Real),
    ev: spec_fn(Arithmetic) -> Real,
    nm: spec_fn(Real) -> Seq<char>,
) -> Seq<char> {
    let level = |c: Real|
        nm(
            ev(
                Arithmetic::Product(
                    c.within(Real { bits: 0 }, Real { bits: ONE_BITS }),
                    Real { bits: BYTE_LIMIT_BITS },
                ),
            ),
        );
    "rgb("@ + level(color.0) + " "@ + level(color.1) + " "@ + level(color.2) + ")"@
}

fn push_level<N: Fn(Real) -> String, C: Fn(Arithmetic) -> Real>(
    out: &mut String,
    component: Real,
    scribe: &N,
    calc: &C,
)
    requires
        writes_numbers(*scribe),
        calculates(*calc),
    ensures
        final(out)@ == old(out)@ + numerals(*scribe)(
            answers(*calc)(
                Arithmetic::Product(
                    component.within(Real { bits: 0 }, Real { bits: ONE_BITS }),
                    Real { bits: BYTE_LIMIT_BITS },
                ),
            ),
        ),
{
    let bounded: Real = component.clamp(Real { bits: 0 }, Real { bits: ONE_BITS });
    let level: Real = calculate(
        calc,
        Arithmetic::Product(bounded, Real { bits: BYTE_LIMIT_BITS }),
    );
    push_number(out, level, scribe);
}

pub fn css_components<N: Fn(Real) -> String, C: Fn(Arithmetic) -> Real>(
    color: (Real, Real, Real),
    scribe: &N,
    calc: &C,
) -> (r: String)
    requires
        writes_numbers(*scribe),
        calculates(*calc),
    ensures
        r@ == components_text(color, answers(*calc), numerals(*scribe)),
{
    let mut out: String = "rgb(".to_owned();
    push_level(&mut out, color.0, scribe, calc);
    out.append(" ");
    push_level(&mut out, color.1, scribe, calc);
    out.append(" ");
    push_level(&mut out, color.2, scribe, calc);
    out.append(")");
    out
}

/// A colour by components from zero to one.
pub fn rgb_components<C: Fn(Arithmetic) -> Real>(rgb: [u8; 3], calc: &C) -> (r: (Real, Real, Real))
    requires
        calculates(*calc),
    ensures
        ({
            let ev = answers(*calc);
            let part = |c: u8|
                ev(
                    Arithmetic::Quotient(
                        ev(Arithmetic::Count(c as usize)),
                        Real { bits: BYTE_LIMIT_BITS },
                    ),
                );
            r == (part(rgb[0]), part(rgb[1]), part(rgb[2]))
        }),
{
    let limit: Real = Real { bits: BYTE_LIMIT_BITS };
    let red: Real = calculate(calc, Arithmetic::Count(rgb[0] as usize));
    let green: Real = calculate(calc, Arithmetic::Count(rgb[1] as usize));
    let blue: Real = calculate(calc, Arithmetic::Count(rgb[2] as usize));
    (
        calculate(calc, Arithmetic::Quotient(red, limit)),
        calculate(calc, Arithmetic::Quotient(green, limit)),
        calculate(calc, Arithmetic::Quotient(blue, limit)),
    )
}

} // verus!
