//! What is written, and in which order.

use vstd::prelude::*;
use vstd::string::*;

use crate::canvas::spatial_multiplier;
use crate::frequency::{comes_before, in_order, Entry};
use crate::generation::{Generation, GenerationItem};
use crate::geometry::{Polygon2d, Primitive2d, StyledLine2d};
use crate::inspector::{
    branches_among, inspected, inspection, lemma_inspection_shrinks, listed, row_position, tally_of,
    waiting_work, Seen, FIRST_ROW_BITS, ROW_STEP_BITS,
};
use crate::laws_svg::{begins, line_between, lemma_begins};
use crate::number::{Arithmetic, Real};
use crate::palette::Palette;
use crate::spatial_svg::{
    line_finite_3d, primitive_text, primitives_text, spatial_line_text, widened_point, Sight,
    SourceLine3d, SpatialScene,
};
use crate::depth::DepthPrimitive;
use crate::svg::{svg_fills, svg_line, svg_polygon, svg_strokes};
use crate::value::{
    holds, lemma_exact, lemma_held, lemma_multiples, lemma_order, lemma_small_values, lemma_values,
    rounds,
};

verus! {

/// A spatial line is written from where its start is seen to where its end is.
pub proof fn spatial_lines_are_written_as_seen(
    scene: SpatialScene,
    line: SourceLine3d,
    scale: Real,
    sight: Sight,
    ev: spec_fn(Arithmetic) -> Real,
    nm: spec_fn(Real) -> Seq<char>,
)
    ensures
        ({
            let start = (sight.place)(widened_point(line.start, ev));
            let end = (sight.place)(widened_point(line.end, ev));
            let text = spatial_line_text(scene, line, scale, sight, ev, nm);
            if line_finite_3d(line) && spatial_multiplier(
                line.width,
                scene.width_reference,
                ev,
            ) is Some {
                begins(text, line_between(nm(start.0), nm(start.1), nm(end.0), nm(end.1)))
            } else {
                text.len() == 0
            }
        }),
{
    reveal_strlit("\"");
    reveal_strlit("\" stroke=\"");
    if line_finite_3d(line) && spatial_multiplier(line.width, scene.width_reference, ev) is Some {
        assert("\" stroke=\""@.subrange(0, 1) =~= "\""@);
        let start = (sight.place)(widened_point(line.start, ev));
        let end = (sight.place)(widened_point(line.end, ev));
        let whole = spatial_line_text(scene, line, scale, sight, ev, nm);
        let lead = "<line x1=\""@ + nm(start.0) + "\" y1=\""@ + nm(start.1) + "\" x2=\""@ + nm(end.0)
            + "\" y2=\""@ + nm(end.1);
        let rest = whole.subrange((lead + "\" stroke=\""@).len() as int, whole.len() as int);
        assert(whole =~= lead + "\" stroke=\""@ + rest);
        lemma_begins(lead, "\""@, rest, "\" stroke=\""@);
    }
}

/// What is painted later is written later, and so covers what was before.
pub proof fn later_primitives_are_written_later(
    scene: SpatialScene,
    order: Seq<DepthPrimitive>,
    last: DepthPrimitive,
    lines: spec_fn(usize) -> SourceLine3d,
    scale: Real,
    sight: Sight,
    ev: spec_fn(Arithmetic) -> Real,
    nm: spec_fn(Real) -> Seq<char>,
)
    ensures
        primitives_text(scene, order.push(last), lines, scale, sight, ev, nm) == primitives_text(
            scene,
            order,
            lines,
            scale,
            sight,
            ev,
            nm,
        ) + primitive_text(scene, last.primitive, lines, scale, sight, ev, nm),
{
    assert(order.push(last).drop_last() =~= order);
}

/// Fills hold the polygons and strokes the lines, each in the order of the scene.
pub proof fn fills_and_strokes_keep_their_order(
    primitives: Seq<Primitive2d>,
    line: StyledLine2d,
    polygon: Polygon2d,
    width: Real,
    palette: Palette,
    ev: spec_fn(Arithmetic) -> Real,
    nm: spec_fn(Real) -> Seq<char>,
)
    ensures
        svg_fills(primitives.push(Primitive2d::Line(line)), palette, nm) == svg_fills(
            primitives,
            palette,
            nm,
        ),
        svg_fills(primitives.push(Primitive2d::Polygon(polygon)), palette, nm) == svg_fills(
            primitives,
            palette,
            nm,
        ) + svg_polygon(polygon, palette, nm),
        svg_strokes(primitives.push(Primitive2d::Line(line)), width, palette, ev, nm)
            == svg_strokes(primitives, width, palette, ev, nm) + svg_line(
            line,
            width,
            palette,
            ev,
            nm,
        ),
        svg_strokes(primitives.push(Primitive2d::Polygon(polygon)), width, palette, ev, nm)
            == svg_strokes(primitives, width, palette, ev, nm),
{
    assert(primitives.push(Primitive2d::Line(line)).drop_last() =~= primitives);
    assert(primitives.push(Primitive2d::Polygon(polygon)).drop_last() =~= primitives);
}

/// Rows of text go down the page, one below the other, from the same margin.
pub proof fn rows_go_down(above: usize, below: usize, ev: spec_fn(Arithmetic) -> Real)
    requires
        rounds(ev),
        above <= below,
        holds(above as int as real),
        holds(below as int as real),
        ({
            let step = Real { bits: ROW_STEP_BITS };
            &&& ev(Arithmetic::Product(ev(Arithmetic::Count(above)), step)).finite()
            &&& ev(Arithmetic::Product(ev(Arithmetic::Count(below)), step)).finite()
        }),
    ensures
        row_position(above, ev).0 == row_position(below, ev).0,
        row_position(above, ev).1.at_most(row_position(below, ev).1),
        (Real { bits: FIRST_ROW_BITS }).at_most(row_position(above, ev).1),
{
    let step = Real { bits: ROW_STEP_BITS };
    let first = Real { bits: FIRST_ROW_BITS };
    let zero = Real { bits: 0 };
    lemma_small_values();
    lemma_values(zero, step);
    lemma_held(zero);
    lemma_held(first);
    lemma_exact(Arithmetic::Count(above), ev);
    lemma_exact(Arithmetic::Count(below), ev);
    let (a, b) = (ev(Arithmetic::Count(above)), ev(Arithmetic::Count(below)));
    lemma_multiples(a.value(), b.value(), step.value());
    lemma_multiples(0real, a.value(), step.value());
    lemma_order(Arithmetic::Product(a, step), Arithmetic::Product(b, step), ev);
    let (p, q) = (ev(Arithmetic::Product(a, step)), ev(Arithmetic::Product(b, step)));
    lemma_values(p, q);
    lemma_order(Arithmetic::Sum(first, p), Arithmetic::Sum(first, q), ev);
    lemma_exact(Arithmetic::Product(zero, step), ev);
    lemma_order(Arithmetic::Product(zero, step), Arithmetic::Product(a, step), ev);
    let none = ev(Arithmetic::Product(zero, step));
    lemma_values(none, p);
    lemma_exact(Arithmetic::Sum(first, none), ev);
    lemma_order(Arithmetic::Sum(first, none), Arithmetic::Sum(first, p), ev);
    lemma_values(ev(Arithmetic::Sum(first, none)), first);
}

/// More common names are listed before less common ones.
pub proof fn common_names_come_first(entries: Seq<Entry>, i: int, j: int)
    requires
        in_order(entries),
        0 <= i < j < entries.len(),
    ensures
        entries[i].1 >= entries[j].1,
{
    assert(comes_before(entries[i], entries[j]));
}

/// How many modules some items hold, those in their branches included.
pub open spec fn modules_within(items: Seq<GenerationItem>) -> nat
    decreases items,
{
    if items.len() == 0 {
        0
    } else {
        modules_in(items[items.len() - 1]) + modules_within(items.subrange(0, items.len() - 1))
    }
}

pub open spec fn modules_in(item: GenerationItem) -> nat
    decreases item,
{
    match item {
        GenerationItem::Module(_) => 1,
        GenerationItem::Branch(branch) => modules_within(branch.0@),
    }
}

/// How many branches some items hold, those in their branches included.
pub open spec fn branches_within(items: Seq<GenerationItem>) -> nat
    decreases items,
{
    if items.len() == 0 {
        0
    } else {
        branches_in(items[items.len() - 1]) + branches_within(items.subrange(0, items.len() - 1))
    }
}

pub open spec fn branches_in(item: GenerationItem) -> nat
    decreases item,
{
    match item {
        GenerationItem::Module(_) => 0,
        GenerationItem::Branch(branch) => 1 + branches_within(branch.0@),
    }
}

/// What waiting branches hold.
spec fn waiting_totals(waiting: Seq<(Seq<GenerationItem>, int)>) -> (int, int)
    decreases waiting.len(),
{
    if waiting.len() == 0 {
        (0, 0)
    } else {
        let before = waiting_totals(waiting.drop_last());
        let items = waiting.last().0;
        (before.0 + modules_within(items), before.1 + branches_within(items))
    }
}

proof fn lemma_totals_join(
    a: Seq<(Seq<GenerationItem>, int)>,
    b: Seq<(Seq<GenerationItem>, int)>,
)
    ensures
        waiting_totals(a + b).0 == waiting_totals(a).0 + waiting_totals(b).0,
        waiting_totals(a + b).1 == waiting_totals(a).1 + waiting_totals(b).1,
    decreases b.len(),
{
    if b.len() == 0 {
        assert(a + b =~= a);
    } else {
        assert((a + b).drop_last() =~= a + b.drop_last());
        lemma_totals_join(a, b.drop_last());
    }
}

/// What items hold is what they are, and what their branches hold.
proof fn lemma_listed(items: Seq<GenerationItem>, depth: int, inner: int)
    ensures
        tally_of(listed(items, depth)).modules + waiting_totals(branches_among(items, inner)).0
            == modules_within(items),
        tally_of(listed(items, depth)).branches + waiting_totals(branches_among(items, inner)).1
            == branches_within(items),
    decreases items.len(),
{
    if items.len() > 0 {
        let init = items.drop_last();
        lemma_listed(init, depth, inner);
        assert(init =~= items.subrange(0, items.len() - 1));
        assert(listed(items, depth).drop_last() =~= listed(init, depth));
        let before = branches_among(init, inner);
        let item = items[items.len() - 1];
        assert(modules_within(items) == modules_in(item) + modules_within(init));
        assert(branches_within(items) == branches_in(item) + branches_within(init));
        match item {
            GenerationItem::Branch(branch) => {
                assert(before.push((branch.0@, inner)).drop_last() =~= before);
                assert(modules_in(item) == modules_within(branch.0@));
                assert(branches_in(item) == 1 + branches_within(branch.0@));
            },
            GenerationItem::Module(_) => {
                assert(modules_in(item) == 1);
                assert(branches_in(item) == 0);
            },
        }
    }
}

proof fn lemma_tally_joins(a: Seq<Seen>, b: Seq<Seen>)
    ensures
        tally_of(a + b).modules == tally_of(a).modules + tally_of(b).modules,
        tally_of(a + b).branches == tally_of(a).branches + tally_of(b).branches,
        tally_of(a + b).items == tally_of(a).items + tally_of(b).items,
    decreases b.len(),
{
    if b.len() == 0 {
        assert(a + b =~= a);
    } else {
        assert((a + b).drop_last() =~= a + b.drop_last());
        lemma_tally_joins(a, b.drop_last());
    }
}

proof fn lemma_inspection_counts(waiting: Seq<(Seq<GenerationItem>, int)>, work: nat)
    requires
        waiting_work(waiting) <= work,
    ensures
        tally_of(inspection(waiting)).modules == waiting_totals(waiting).0,
        tally_of(inspection(waiting)).branches == waiting_totals(waiting).1,
        tally_of(inspection(waiting)).items == waiting_totals(waiting).0 + waiting_totals(
            waiting,
        ).1,
    decreases work,
{
    if waiting.len() > 0 {
        let (items, depth) = waiting.last();
        let rest = waiting.drop_last() + branches_among(items, depth + 1);
        lemma_inspection_shrinks(waiting);
        lemma_inspection_counts(rest, (work - 1) as nat);
        lemma_totals_join(waiting.drop_last(), branches_among(items, depth + 1));
        lemma_listed(items, depth, depth + 1);
        lemma_tally_joins(listed(items, depth), inspection(rest));
        lemma_listed_items(listed(items, depth));
    }
}

proof fn lemma_listed_items(seen: Seq<Seen>)
    ensures
        tally_of(seen).items == tally_of(seen).modules + tally_of(seen).branches,
    decreases seen.len(),
{
    if seen.len() > 0 {
        lemma_listed_items(seen.drop_last());
    }
}

/// An inspection counts every module and every branch of a generation once,
/// however deep they are.
pub proof fn inspections_count_everything_once(generation: Generation)
    ensures
        tally_of(inspected(generation)).modules == modules_within(generation.0@),
        tally_of(inspected(generation)).branches == branches_within(generation.0@),
        tally_of(inspected(generation)).items == modules_within(generation.0@) + branches_within(
            generation.0@,
        ),
{
    let waiting = seq![(generation.0@, 0int)];
    lemma_inspection_counts(waiting, waiting_work(waiting));
    assert(waiting.drop_last() =~= Seq::empty());
    assert(waiting_totals(waiting.drop_last()) == (0int, 0int));
    assert(waiting.last() == (generation.0@, 0int));
}

} // verus!
