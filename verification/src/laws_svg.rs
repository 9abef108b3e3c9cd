//! Where drawings stand in an SVG: upright, and within what it shows.

use vstd::prelude::*;
use vstd::string::*;

use crate::canvas::{drawn_width, PlanarBounds};
use crate::edges::{extent_of, TENTH_BITS};
use crate::geometry::{Line2d, Point2d, StyledLine2d};
use crate::number::{Arithmetic, Real};
use crate::palette::Palette;
use crate::single::Single;
use crate::svg::{svg_line, svg_points, view_of, ViewBox, MARGIN_SHARE_BITS};
use crate::svg_encoder::{line_finite, line_text, scene_view, SourceLine};
use crate::value::{
    holds, lemma_exact, lemma_held, lemma_order, lemma_small_values, lemma_two, lemma_values,
    rounds,
};
use crate::visualize::TWO_BITS;

verus! {

/// A text begins with another one.
pub open spec fn begins(text: Seq<char>, start: Seq<char>) -> bool {
    start.len() <= text.len() && text.subrange(0, start.len() as int) == start
}

/// The start of a line element between two places.
pub open spec fn line_between(
    x1: Seq<char>,
    y1: Seq<char>,
    x2: Seq<char>,
    y2: Seq<char>,
) -> Seq<char> {
    "<line x1=\""@ + x1 + "\" y1=\""@ + y1 + "\" x2=\""@ + x2 + "\" y2=\""@ + y2 + "\""@
}

pub proof fn lemma_begins(start: Seq<char>, quote: Seq<char>, rest: Seq<char>, middle: Seq<char>)
    requires
        middle.len() >= quote.len(),
        middle.subrange(0, quote.len() as int) == quote,
    ensures
        begins(start + middle + rest, start + quote),
{
    let all = start + middle + rest;
    let head = start + quote;
    assert(all.subrange(0, head.len() as int) =~= head) by {
        assert forall|i: int| 0 <= i < head.len() implies all[i] == head[i] by {
            if i >= start.len() {
                assert(middle[i - start.len()] == middle.subrange(0, quote.len() as int)[i
                    - start.len()]);
            }
        }
    }
}

/// A line is written from its start to its end, with x to the right and y, which
/// grows upwards in a drawing and downwards in an SVG, turned over.
pub proof fn lines_are_written_upright(
    styled: StyledLine2d,
    line: SourceLine,
    stroke_width: Real,
    palette: Palette,
    dark: bool,
    ev: spec_fn(Arithmetic) -> Real,
    nm: spec_fn(Real) -> Seq<char>,
    sn: spec_fn(Single) -> Seq<char>,
)
    ensures
        begins(
            svg_line(styled, stroke_width, palette, ev, nm),
            line_between(
                nm(styled.line.0.0),
                nm(styled.line.0.1.opposite()),
                nm(styled.line.1.0),
                nm(styled.line.1.1.opposite()),
            ),
        ),
        line_finite(line) && drawn_width(line.width, ev) is Some ==> begins(
            line_text(line, stroke_width, dark, ev, nm, sn),
            line_between(
                sn(line.start.0),
                sn(line.start.1.opposite()),
                sn(line.end.0),
                sn(line.end.1.opposite()),
            ),
        ),
        line.start.1.opposite().rank() == -line.start.1.rank(),
        styled.line.0.1.opposite().rank() == -styled.line.0.1.rank(),
{
    reveal_strlit("\"");
    reveal_strlit("\" stroke=\"");
    assert("\" stroke=\""@.subrange(0, 1) =~= "\""@);
    let whole = svg_line(styled, stroke_width, palette, ev, nm);
    let lead = "<line x1=\""@ + nm(styled.line.0.0) + "\" y1=\""@ + nm(styled.line.0.1.opposite())
        + "\" x2=\""@ + nm(styled.line.1.0) + "\" y2=\""@ + nm(styled.line.1.1.opposite());
    let rest = whole.subrange((lead + "\" stroke=\""@).len() as int, whole.len() as int);
    assert(whole =~= lead + "\" stroke=\""@ + rest);
    lemma_begins(lead, "\""@, rest, "\" stroke=\""@);
    if line_finite(line) && drawn_width(line.width, ev) is Some {
        let whole = line_text(line, stroke_width, dark, ev, nm, sn);
        let lead = "<line x1=\""@ + sn(line.start.0) + "\" y1=\""@ + sn(line.start.1.opposite())
            + "\" x2=\""@ + sn(line.end.0) + "\" y2=\""@ + sn(line.end.1.opposite());
        let rest = whole.subrange((lead + "\" stroke=\""@).len() as int, whole.len() as int);
        assert(whole =~= lead + "\" stroke=\""@ + rest);
        lemma_begins(lead, "\""@, rest, "\" stroke=\""@);
    }
}

/// Polygons are written vertex by vertex, with y turned over as for lines.
pub proof fn vertices_are_written_upright(
    vertices: Seq<Point2d>,
    point: Point2d,
    nm: spec_fn(Real) -> Seq<char>,
)
    ensures
        svg_points(seq![point], nm) == nm(point.0) + ","@ + nm(point.1.opposite()),
        vertices.len() > 0 ==> svg_points(vertices.push(point), nm) == svg_points(vertices, nm)
            + " "@ + (nm(point.0) + ","@ + nm(point.1.opposite())),
{
    assert(vertices.push(point).drop_last() =~= vertices);
}

/// A place is within what an SVG shows.
pub open spec fn shown(view: ViewBox, x: real, y: real) -> bool {
    &&& view.x.value() <= x <= view.x.value() + view.width.value()
    &&& view.y.value() <= y <= view.y.value() + view.height.value()
}

/// The larger of a length and one tenth.
pub open spec fn at_least_a_tenth(length: real) -> real {
    let tenth = (Real { bits: TENTH_BITS }).value();
    if length < tenth {
        tenth
    } else {
        length
    }
}

/// An axis of what is shown needs no rounding.
pub open spec fn exact_axis(low: real, high: real, margin: real) -> bool {
    &&& holds(high - low)
    &&& holds(low - margin)
    &&& holds(2real * margin)
    &&& holds(at_least_a_tenth(high - low) + 2real * margin)
}

proof fn lemma_lengths()
    ensures
        (Real { bits: TENTH_BITS }).finite(),
        (Real { bits: TENTH_BITS }).value() > 0real,
        (Real { bits: MARGIN_SHARE_BITS }).finite(),
        (Real { bits: MARGIN_SHARE_BITS }).value() > 0real,
        (Real { bits: TWO_BITS }).finite(),
        (Real { bits: TWO_BITS }).value() == 2real,
{
    lemma_small_values();
    lemma_values(Real { bits: 0 }, Real { bits: TENTH_BITS });
    lemma_values(Real { bits: 0 }, Real { bits: MARGIN_SHARE_BITS });
    lemma_two();
}

/// The margin round a drawing.
pub open spec fn margin_of(width: Real, height: Real, ev: spec_fn(Arithmetic) -> Real) -> Real {
    let zero = Real { bits: 0 };
    let tenth = Real { bits: TENTH_BITS };
    ev(
        Arithmetic::Product(
            width.upper(zero).upper(tenth).upper(height.upper(zero).upper(tenth)),
            Real { bits: MARGIN_SHARE_BITS },
        ),
    )
}

proof fn lemma_axis(low: Real, high: Real, margin: Real, ev: spec_fn(Arithmetic) -> Real)
    requires
        rounds(ev),
        low.finite() && high.finite() && margin.finite(),
        low.value() <= high.value(),
        margin.value() >= 0real,
        exact_axis(low.value(), high.value(), margin.value()),
    ensures
        ({
            let zero = Real { bits: 0 };
            let tenth = Real { bits: TENTH_BITS };
            let length = ev(Arithmetic::Difference(high, low));
            let size = length.upper(zero).upper(tenth);
            let from = ev(Arithmetic::Difference(low, margin));
            let across = ev(
                Arithmetic::Sum(size, ev(Arithmetic::Product(margin, Real { bits: TWO_BITS }))),
            );
            &&& length.finite() && size.finite()
            &&& from.value() == low.value() - margin.value()
            &&& from.value() + across.value() >= high.value() + margin.value()
        }),
{
    let zero = Real { bits: 0 };
    let tenth = Real { bits: TENTH_BITS };
    let two = Real { bits: TWO_BITS };
    lemma_lengths();
    lemma_small_values();
    let length = ev(Arithmetic::Difference(high, low));
    lemma_exact(Arithmetic::Difference(high, low), ev);
    lemma_values(length, zero);
    lemma_values(length.upper(zero), tenth);
    lemma_exact(Arithmetic::Difference(low, margin), ev);
    lemma_exact(Arithmetic::Product(margin, two), ev);
    let size = length.upper(zero).upper(tenth);
    lemma_exact(Arithmetic::Sum(size, ev(Arithmetic::Product(margin, two))), ev);
}

/// A browser's SVG shows its whole drawing: every point within the bounds of the
/// scene is written, with y turned over, at a place within the view box.
pub proof fn scenes_lie_within_their_view(
    bounds: PlanarBounds,
    x: real,
    y: real,
    ev: spec_fn(Arithmetic) -> Real,
)
    requires
        rounds(ev),
        bounds.min_x.finite() && bounds.max_x.finite() && bounds.min_y.finite()
            && bounds.max_y.finite(),
        bounds.min_x.value() <= x <= bounds.max_x.value(),
        bounds.min_y.value() <= y <= bounds.max_y.value(),
        ({
            let margin = margin_of(
                ev(Arithmetic::Difference(bounds.max_x, bounds.min_x)),
                ev(Arithmetic::Difference(bounds.max_y, bounds.min_y)),
                ev,
            );
            &&& margin.finite()
            &&& exact_axis(bounds.min_x.value(), bounds.max_x.value(), margin.value())
            &&& exact_axis(-bounds.max_y.value(), -bounds.min_y.value(), margin.value())
        }),
    ensures
        shown(scene_view(Some(bounds), ev).0, x, -y),
{
    let width = ev(Arithmetic::Difference(bounds.max_x, bounds.min_x));
    let height = ev(Arithmetic::Difference(bounds.max_y, bounds.min_y));
    let margin = margin_of(width, height, ev);
    let zero = Real { bits: 0 };
    let tenth = Real { bits: TENTH_BITS };
    lemma_small_values();
    lemma_lengths();
    lemma_held(bounds.max_y);
    lemma_held(bounds.min_y);
    lemma_exact(Arithmetic::Difference(bounds.max_x, bounds.min_x), ev);
    lemma_exact(Arithmetic::Difference(bounds.max_y, bounds.min_y), ev);
    lemma_margin(width, height, ev);
    lemma_axis(bounds.min_x, bounds.max_x, margin, ev);
    // The other axis is turned over; its extent is the same number.
    let (low, high) = (bounds.max_y.opposite(), bounds.min_y.opposite());
    lemma_exact(Arithmetic::Difference(low, margin), ev);
    lemma_values(height, zero);
    lemma_values(height.upper(zero), tenth);
    let two = Real { bits: TWO_BITS };
    lemma_exact(Arithmetic::Product(margin, two), ev);
    let size = height.upper(zero).upper(tenth);
    lemma_exact(Arithmetic::Sum(size, ev(Arithmetic::Product(margin, two))), ev);
}

proof fn lemma_margin(width: Real, height: Real, ev: spec_fn(Arithmetic) -> Real)
    requires
        rounds(ev),
        width.finite() && height.finite(),
        margin_of(width, height, ev).finite(),
    ensures
        margin_of(width, height, ev).value() >= 0real,
{
    let zero = Real { bits: 0 };
    let tenth = Real { bits: TENTH_BITS };
    let share = Real { bits: MARGIN_SHARE_BITS };
    lemma_small_values();
    lemma_lengths();
    lemma_held(zero);
    let longest = width.upper(zero).upper(tenth).upper(height.upper(zero).upper(tenth));
    lemma_values(longest, tenth);
    lemma_values(tenth, longest);
    let (l, s) = (longest.value(), share.value());
    assert(0real * s == 0real && 0real <= l * s) by (nonlinear_arith)
        requires
            l > 0real,
            s > 0real,
    ;
    lemma_exact(Arithmetic::Product(zero, share), ev);
    lemma_order(Arithmetic::Product(zero, share), Arithmetic::Product(longest, share), ev);
    lemma_values(ev(Arithmetic::Product(zero, share)), margin_of(width, height, ev));
}

/// The extent with the second axis pointing down is that of the lines turned
/// over.
pub proof fn extents_turn_over(lines: Seq<Line2d>, i: int)
    requires
        0 <= i < lines.len(),
    ensures
        ({
            let extent = extent_of(lines, true);
            let line = lines[i];
            &&& !line.0.0.nan() ==> extent.min_x.at_most(line.0.0) && line.0.0.at_most(extent.max_x)
            &&& !line.1.0.nan() ==> extent.min_x.at_most(line.1.0) && line.1.0.at_most(extent.max_x)
            &&& !line.0.1.nan() ==> extent.min_y.at_most(line.0.1.opposite())
                && line.0.1.opposite().at_most(extent.max_y)
            &&& !line.1.1.nan() ==> extent.min_y.at_most(line.1.1.opposite())
                && line.1.1.opposite().at_most(extent.max_y)
            &&& !extent.min_x.nan() && !extent.max_x.nan() && !extent.min_y.nan()
                && !extent.max_y.nan()
        }),
    decreases lines.len(),
{
    lemma_extent_number(lines.drop_last());
    if i < lines.len() - 1 {
        extents_turn_over(lines.drop_last(), i);
    }
}

proof fn lemma_extent_number(lines: Seq<Line2d>)
    ensures
        ({
            let extent = extent_of(lines, true);
            !extent.min_x.nan() && !extent.max_x.nan() && !extent.min_y.nan()
                && !extent.max_y.nan()
        }),
    decreases lines.len(),
{
    if lines.len() > 0 {
        lemma_extent_number(lines.drop_last());
    }
}

/// An SVG shows its whole drawing: both ends of every edge are written, with y
/// turned over, at places within the view box.
pub proof fn drawings_lie_within_their_view(
    edges: Seq<Line2d>,
    i: int,
    ev: spec_fn(Arithmetic) -> Real,
)
    requires
        rounds(ev),
        0 <= i < edges.len(),
        edges[i].0.0.finite() && edges[i].0.1.finite() && edges[i].1.0.finite()
            && edges[i].1.1.finite(),
        ({
            let extent = extent_of(edges, true);
            let margin = margin_of(
                ev(Arithmetic::Difference(extent.max_x, extent.min_x)),
                ev(Arithmetic::Difference(extent.max_y, extent.min_y)),
                ev,
            );
            &&& extent.min_x.finite() && extent.max_x.finite() && extent.min_y.finite()
                && extent.max_y.finite()
            &&& margin.finite()
            &&& exact_axis(extent.min_x.value(), extent.max_x.value(), margin.value())
            &&& exact_axis(extent.min_y.value(), extent.max_y.value(), margin.value())
        }),
    ensures
        shown(view_of(edges, ev).0, edges[i].0.0.value(), -edges[i].0.1.value()),
        shown(view_of(edges, ev).0, edges[i].1.0.value(), -edges[i].1.1.value()),
{
    let extent = extent_of(edges, true);
    let line = edges[i];
    extents_turn_over(edges, i);
    lemma_held(line.0.1);
    lemma_held(line.1.1);
    lemma_values(extent.min_x, line.0.0);
    lemma_values(line.0.0, extent.max_x);
    lemma_values(extent.min_x, line.1.0);
    lemma_values(line.1.0, extent.max_x);
    lemma_values(extent.min_y, line.0.1.opposite());
    lemma_values(line.0.1.opposite(), extent.max_y);
    lemma_values(extent.min_y, line.1.1.opposite());
    lemma_values(line.1.1.opposite(), extent.max_y);
    let width = ev(Arithmetic::Difference(extent.max_x, extent.min_x));
    let height = ev(Arithmetic::Difference(extent.max_y, extent.min_y));
    let margin = margin_of(width, height, ev);
    lemma_exact(Arithmetic::Difference(extent.max_x, extent.min_x), ev);
    lemma_exact(Arithmetic::Difference(extent.max_y, extent.min_y), ev);
    lemma_margin(width, height, ev);
    lemma_axis(extent.min_x, extent.max_x, margin, ev);
    lemma_axis(extent.min_y, extent.max_y, margin, ev);
}

} // verus!
