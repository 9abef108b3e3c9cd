//! How a line is divided among its descendants.

use vstd::prelude::*;

use crate::geometry::{Line2d, Point2d, StyledLine2d};
use crate::number::{Arithmetic, Real, HALF_BITS, ONE_BITS};
use crate::transitions::{all_backwards, family, middle_of, point_on, IndexedLine2d, MorphLine2d};
use crate::value::{
    holds, lemma_exact, lemma_held, lemma_order, lemma_ratios, lemma_small_values, lemma_values,
    rounds,
};

verus! {

/// Both ends of a line are finite.
pub open spec fn line_finite(line: Line2d) -> bool {
    line.0.0.finite() && line.0.1.finite() && line.1.0.finite() && line.1.1.finite()
}

/// A point divides a line in a ratio on both axes.
pub open spec fn divides(point: Point2d, line: Line2d, part: int, whole: int) -> bool {
    let share = part as real / whole as real;
    &&& point.0.value() == line.0.0.value() + (line.1.0.value() - line.0.0.value()) * share
    &&& point.1.value() == line.0.1.value() + (line.1.1.value() - line.0.1.value()) * share
}

/// Dividing an axis needs no rounding.
pub open spec fn exact_division(from: real, to: real, part: int, whole: int) -> bool {
    let share = part as real / whole as real;
    &&& holds(part as real) && holds(whole as real) && holds(share)
    &&& holds(to - from) && holds((to - from) * share) && holds(from + (to - from) * share)
}

/// Without rounding, the point of a piece divides the line in the ratio of the
/// pieces, on both axes alike.
pub proof fn pieces_divide_their_line(
    line: Line2d,
    part: usize,
    whole: usize,
    ev: spec_fn(Arithmetic) -> Real,
)
    requires
        rounds(ev),
        line_finite(line),
        0 < whole,
        exact_division(line.0.0.value(), line.1.0.value(), part as int, whole as int),
        exact_division(line.0.1.value(), line.1.1.value(), part as int, whole as int),
    ensures
        divides(point_on(line, part, whole, ev), line, part as int, whole as int),
{
    let n = ev(Arithmetic::Count(part));
    let d = ev(Arithmetic::Count(whole));
    lemma_exact(Arithmetic::Count(part), ev);
    lemma_exact(Arithmetic::Count(whole), ev);
    lemma_exact(Arithmetic::Quotient(n, d), ev);
    let share = ev(Arithmetic::Quotient(n, d));
    let dx = ev(Arithmetic::Difference(line.1.0, line.0.0));
    let dy = ev(Arithmetic::Difference(line.1.1, line.0.1));
    lemma_exact(Arithmetic::Difference(line.1.0, line.0.0), ev);
    lemma_exact(Arithmetic::Difference(line.1.1, line.0.1), ev);
    lemma_exact(Arithmetic::Product(dx, share), ev);
    lemma_exact(Arithmetic::Product(dy, share), ev);
    lemma_exact(Arithmetic::Sum(line.0.0, ev(Arithmetic::Product(dx, share))), ev);
    lemma_exact(Arithmetic::Sum(line.0.1, ev(Arithmetic::Product(dy, share))), ev);
}

/// The first piece starts where the line does; the last piece ends where the
/// line does, if the extent of the line needs no rounding.
pub proof fn pieces_reach_both_ends(line: Line2d, whole: usize, ev: spec_fn(Arithmetic) -> Real)
    requires
        rounds(ev),
        line_finite(line),
        0 < whole,
        holds(whole as int as real),
        holds(line.1.0.value() - line.0.0.value()),
        holds(line.1.1.value() - line.0.1.value()),
    ensures
        point_on(line, 0, whole, ev).0.same(line.0.0),
        point_on(line, 0, whole, ev).1.same(line.0.1),
        point_on(line, whole, whole, ev).0.same(line.1.0),
        point_on(line, whole, whole, ev).1.same(line.1.1),
{
    lemma_small_values();
    lemma_held(Real { bits: 0 });
    lemma_held(Real { bits: ONE_BITS });
    lemma_held(line.0.0);
    lemma_held(line.0.1);
    lemma_held(line.1.0);
    lemma_held(line.1.1);
    let w = whole as int as real;
    lemma_ratios(0real, w, w);
    let dx = line.1.0.value() - line.0.0.value();
    let dy = line.1.1.value() - line.0.1.value();
    assert(dx * 0real == 0real && dy * 0real == 0real && dx * 1real == dx && dy * 1real == dy);
    pieces_divide_their_line(line, 0, whole, ev);
    pieces_divide_their_line(line, whole, whole, ev);
    let first = point_on(line, 0, whole, ev);
    let last = point_on(line, whole, whole, ev);
    lemma_point_finite(line, 0, whole, ev);
    lemma_point_finite(line, whole, whole, ev);
    lemma_values(first.0, line.0.0);
    lemma_values(first.1, line.0.1);
    lemma_values(last.0, line.1.0);
    lemma_values(last.1, line.1.1);
}

proof fn lemma_point_finite(line: Line2d, part: usize, whole: usize, ev: spec_fn(Arithmetic) -> Real)
    requires
        rounds(ev),
        line_finite(line),
        0 < whole,
        exact_division(line.0.0.value(), line.1.0.value(), part as int, whole as int),
        exact_division(line.0.1.value(), line.1.1.value(), part as int, whole as int),
    ensures
        point_on(line, part, whole, ev).0.finite(),
        point_on(line, part, whole, ev).1.finite(),
{
    let n = ev(Arithmetic::Count(part));
    let d = ev(Arithmetic::Count(whole));
    lemma_exact(Arithmetic::Count(part), ev);
    lemma_exact(Arithmetic::Count(whole), ev);
    lemma_exact(Arithmetic::Quotient(n, d), ev);
    let share = ev(Arithmetic::Quotient(n, d));
    let dx = ev(Arithmetic::Difference(line.1.0, line.0.0));
    let dy = ev(Arithmetic::Difference(line.1.1, line.0.1));
    lemma_exact(Arithmetic::Difference(line.1.0, line.0.0), ev);
    lemma_exact(Arithmetic::Difference(line.1.1, line.0.1), ev);
    lemma_exact(Arithmetic::Product(dx, share), ev);
    lemma_exact(Arithmetic::Product(dy, share), ev);
    lemma_exact(Arithmetic::Sum(line.0.0, ev(Arithmetic::Product(dx, share))), ev);
    lemma_exact(Arithmetic::Sum(line.0.1, ev(Arithmetic::Product(dy, share))), ev);
}

/// Rounding does not turn pieces round: whatever is rounded, later points are
/// never nearer to the start than earlier ones on either axis.
pub proof fn pieces_go_from_start_to_end(
    line: Line2d,
    early: usize,
    late: usize,
    whole: usize,
    ev: spec_fn(Arithmetic) -> Real,
)
    requires
        rounds(ev),
        line_finite(line),
        early <= late <= whole,
        0 < whole,
        holds(early as int as real),
        holds(late as int as real),
        holds(whole as int as real),
        ev(Arithmetic::Difference(line.1.0, line.0.0)).finite(),
        ev(Arithmetic::Difference(line.1.1, line.0.1)).finite(),
        point_on(line, early, whole, ev).0.finite(),
        point_on(line, early, whole, ev).1.finite(),
        point_on(line, late, whole, ev).0.finite(),
        point_on(line, late, whole, ev).1.finite(),
    ensures
        ({
            let a = point_on(line, early, whole, ev);
            let b = point_on(line, late, whole, ev);
            &&& line.0.0.value() <= line.1.0.value() ==> a.0.value() <= b.0.value()
            &&& line.0.0.value() >= line.1.0.value() ==> a.0.value() >= b.0.value()
            &&& line.0.1.value() <= line.1.1.value() ==> a.1.value() <= b.1.value()
            &&& line.0.1.value() >= line.1.1.value() ==> a.1.value() >= b.1.value()
        }),
{
    lemma_axis(line.0.0, line.1.0, early, late, whole, ev);
    lemma_axis(line.0.1, line.1.1, early, late, whole, ev);
    let a = point_on(line, early, whole, ev);
    let b = point_on(line, late, whole, ev);
    lemma_values(a.0, b.0);
    lemma_values(b.0, a.0);
    lemma_values(a.1, b.1);
    lemma_values(b.1, a.1);
}

/// The place of a piece on one axis.
spec fn axis_point(
    from: Real,
    to: Real,
    part: usize,
    whole: usize,
    ev: spec_fn(Arithmetic) -> Real,
) -> Real {
    ev(
        Arithmetic::Sum(
            from,
            ev(
                Arithmetic::Product(
                    ev(Arithmetic::Difference(to, from)),
                    ev(
                        Arithmetic::Quotient(
                            ev(Arithmetic::Count(part)),
                            ev(Arithmetic::Count(whole)),
                        ),
                    ),
                ),
            ),
        ),
    )
}

proof fn lemma_axis(
    from: Real,
    to: Real,
    early: usize,
    late: usize,
    whole: usize,
    ev: spec_fn(Arithmetic) -> Real,
)
    requires
        rounds(ev),
        from.finite() && to.finite(),
        early <= late <= whole,
        0 < whole,
        holds(early as int as real),
        holds(late as int as real),
        holds(whole as int as real),
        ev(Arithmetic::Difference(to, from)).finite(),
    ensures
        from.value() <= to.value() ==> axis_point(from, to, early, whole, ev).at_most(
            axis_point(from, to, late, whole, ev),
        ),
        from.value() >= to.value() ==> axis_point(from, to, late, whole, ev).at_most(
            axis_point(from, to, early, whole, ev),
        ),
{
    let zero = Real { bits: 0 };
    let one = Real { bits: ONE_BITS };
    lemma_small_values();
    lemma_held(one);
    lemma_held(zero);
    let m = ev(Arithmetic::Count(early));
    let n = ev(Arithmetic::Count(late));
    let w = ev(Arithmetic::Count(whole));
    lemma_exact(Arithmetic::Count(early), ev);
    lemma_exact(Arithmetic::Count(late), ev);
    lemma_exact(Arithmetic::Count(whole), ev);
    let (mv, nv, wv) = (m.value(), n.value(), w.value());
    lemma_ratios(0real, mv, wv);
    lemma_ratios(mv, nv, wv);
    lemma_ratios(nv, wv, wv);
    // Shares lie between nothing and the whole, in order.
    let p = ev(Arithmetic::Quotient(m, w));
    let q = ev(Arithmetic::Quotient(n, w));
    lemma_exact(Arithmetic::Quotient(w, w), ev);
    lemma_exact(Arithmetic::Quotient(zero, w), ev);
    lemma_order(Arithmetic::Quotient(m, w), Arithmetic::Quotient(n, w), ev);
    lemma_order(Arithmetic::Quotient(n, w), Arithmetic::Quotient(w, w), ev);
    lemma_order(Arithmetic::Quotient(zero, w), Arithmetic::Quotient(m, w), ev);
    let top = ev(Arithmetic::Quotient(w, w));
    let low = ev(Arithmetic::Quotient(zero, w));
    lemma_values(low, zero);
    lemma_values(top, one);
    assert(p.finite() && q.finite());
    lemma_values(low, p);
    lemma_values(p, q);
    lemma_values(q, top);
    let d = ev(Arithmetic::Difference(to, from));
    lemma_held(from);
    lemma_exact(Arithmetic::Difference(from, from), ev);
    let same = ev(Arithmetic::Difference(from, from));
    if from.value() <= to.value() {
        lemma_order(Arithmetic::Difference(from, from), Arithmetic::Difference(to, from), ev);
        lemma_values(same, d);
        lemma_scaled(d.value(), p.value(), q.value());
        lemma_bounds(d, p, q, from, ev);
    }
    if from.value() >= to.value() {
        lemma_order(Arithmetic::Difference(to, from), Arithmetic::Difference(from, from), ev);
        lemma_values(d, same);
        lemma_scaled(-d.value(), p.value(), q.value());
        lemma_turned(d.value(), p.value());
        lemma_turned(d.value(), q.value());
        lemma_bounds(d, q, p, from, ev);
    }
}

proof fn lemma_turned(d: real, p: real)
    ensures
        (-d) * p == -(d * p),
{
    assert((-d) * p == -(d * p)) by (nonlinear_arith);
}

proof fn lemma_scaled(d: real, p: real, q: real)
    requires
        d >= 0real,
        0real <= p <= q <= 1real,
    ensures
        0real <= d * p <= d * q <= d,
{
    assert(0real <= d * p <= d * q <= d) by (nonlinear_arith)
        requires
            d >= 0real,
            0real <= p <= q <= 1real,
    ;
}

/// Where products are in order, so are the sums with them.
proof fn lemma_bounds(d: Real, p: Real, q: Real, from: Real, ev: spec_fn(Arithmetic) -> Real)
    requires
        rounds(ev),
        d.finite() && p.finite() && q.finite() && from.finite(),
        d.value() * p.value() <= d.value() * q.value(),
        0real <= d.value() * p.value() && d.value() * q.value() <= d.value() || d.value() <= d.value()
            * p.value() && d.value() * q.value() <= 0real,
    ensures
        ev(Arithmetic::Sum(from, ev(Arithmetic::Product(d, p)))).at_most(
            ev(Arithmetic::Sum(from, ev(Arithmetic::Product(d, q)))),
        ),
{
    let zero = Real { bits: 0 };
    let one = Real { bits: ONE_BITS };
    lemma_small_values();
    lemma_held(zero);
    lemma_held(d);
    lemma_exact(Arithmetic::Product(d, zero), ev);
    lemma_exact(Arithmetic::Product(d, one), ev);
    let none = ev(Arithmetic::Product(d, zero));
    let all = ev(Arithmetic::Product(d, one));
    lemma_order(Arithmetic::Product(d, p), Arithmetic::Product(d, q), ev);
    let a = ev(Arithmetic::Product(d, p));
    let b = ev(Arithmetic::Product(d, q));
    if 0real <= d.value() * p.value() && d.value() * q.value() <= d.value() {
        lemma_order(Arithmetic::Product(d, zero), Arithmetic::Product(d, p), ev);
        lemma_order(Arithmetic::Product(d, q), Arithmetic::Product(d, one), ev);
    } else {
        lemma_order(Arithmetic::Product(d, one), Arithmetic::Product(d, p), ev);
        lemma_order(Arithmetic::Product(d, q), Arithmetic::Product(d, zero), ev);
    }
    assert(a.finite() && b.finite());
    lemma_values(a, b);
    lemma_order(Arithmetic::Sum(from, a), Arithmetic::Sum(from, b), ev);
}

/// The middle of a line is as far from one end as from the other.
pub proof fn middles_are_between_the_ends(line: Line2d, ev: spec_fn(Arithmetic) -> Real)
    requires
        rounds(ev),
        line_finite(line),
        holds(line.0.0.value() + line.1.0.value()),
        holds(line.0.1.value() + line.1.1.value()),
        holds((line.0.0.value() + line.1.0.value()) / 2real),
        holds((line.0.1.value() + line.1.1.value()) / 2real),
    ensures
        ({
            let middle = middle_of(line, ev);
            &&& middle.0.value() - line.0.0.value() == line.1.0.value() - middle.0.value()
            &&& middle.1.value() - line.0.1.value() == line.1.1.value() - middle.1.value()
        }),
{
    let half = Real { bits: HALF_BITS };
    lemma_small_values();
    lemma_exact(Arithmetic::Sum(line.0.0, line.1.0), ev);
    lemma_exact(Arithmetic::Sum(line.0.1, line.1.1), ev);
    lemma_exact(Arithmetic::Product(ev(Arithmetic::Sum(line.0.0, line.1.0)), half), ev);
    lemma_exact(Arithmetic::Product(ev(Arithmetic::Sum(line.0.1, line.1.1)), half), ev);
}

/// The morphs of a drawing module with drawing descendants: the pieces follow
/// each other along the line in the order of the descendants, each ends as its
/// descendant, and all are fully visible from one generation to the next, in
/// the parent's style at first.
pub proof fn families_tile_their_parent(
    parent: StyledLine2d,
    anchor: Point2d,
    descendants: Seq<IndexedLine2d>,
    i: int,
    ev: spec_fn(Arithmetic) -> Real,
)
    requires
        0 <= i < descendants.len() <= usize::MAX,
    ensures
        ({
            let morphs = family(Some(parent), anchor, descendants, ev);
            let morph = morphs[i];
            &&& morphs.len() == descendants.len()
            &&& i + 1 < morphs.len() ==> morph.source.line.1 == morphs[i + 1].source.line.0
            &&& i == 0 ==> morph.source.line.0 == point_on(
                parent.line,
                0,
                descendants.len() as usize,
                ev,
            )
            &&& i + 1 == morphs.len() ==> morph.source.line.1 == point_on(
                parent.line,
                descendants.len() as usize,
                descendants.len() as usize,
                ev,
            )
            &&& morph.source.width == parent.width && morph.source.color == parent.color
            &&& morph.target == descendants[i].line
            &&& morph.source_space is Source && morph.target_space is Target
            &&& morph.source_opacity.value() == 1real && morph.target_opacity.value() == 1real
            &&& morph.source_palette_line == parent.line
            &&& morph.target_palette_line == descendants[i].line.line
        }),
{
    lemma_small_values();
}

/// A drawing module without drawing descendants fades into its middle and
/// stays in the old generation's coordinates; descendants of a module that did
/// not draw appear out of its position.
pub proof fn others_fade_in_and_out(
    parent: StyledLine2d,
    anchor: Point2d,
    descendants: Seq<IndexedLine2d>,
    i: int,
    ev: spec_fn(Arithmetic) -> Real,
)
    ensures
        ({
            let gone = family(Some(parent), anchor, Seq::empty(), ev);
            &&& gone.len() == 1
            &&& gone[0].source == parent
            &&& gone[0].target.line.0 == gone[0].target.line.1
            &&& gone[0].target.line.0 == middle_of(parent.line, ev)
            &&& gone[0].target.width.value() == 0real
            &&& gone[0].target.color == parent.color
            &&& gone[0].source_space is Source && gone[0].target_space is Source
            &&& gone[0].source_opacity.value() == 1real && gone[0].target_opacity.value() == 0real
            &&& gone[0].source_palette_line == parent.line
            &&& gone[0].target_palette_line == parent.line
        }),
        0 <= i < descendants.len() ==> {
            let new = family(None, anchor, descendants, ev);
            &&& new.len() == descendants.len()
            &&& new[i].source.line == Line2d(anchor, anchor)
            &&& new[i].source.width.value() == 0real
            &&& new[i].source.color == descendants[i].line.color
            &&& new[i].target == descendants[i].line
            &&& new[i].source_space is Source && new[i].target_space is Target
            &&& new[i].source_opacity.value() == 0real && new[i].target_opacity.value() == 1real
            &&& new[i].source_palette_line == Line2d(anchor, anchor)
            &&& new[i].target_palette_line == descendants[i].line.line
        },
{
    lemma_small_values();
}

/// A transition played backwards has its lines exchanged: it starts from the
/// target as the target looks, and each side keeps its own coordinates.
pub proof fn backward_morphs_exchange_their_sides(morph: MorphLine2d, morphs: Seq<MorphLine2d>, i: int)
    requires
        0 <= i < morphs.len(),
    ensures
        ({
            let back = morph.backwards();
            &&& back.source == morph.target && back.target == morph.source
            &&& back.source_opacity == morph.target_opacity
            &&& back.target_opacity == morph.source_opacity
            &&& back.source_palette_line == morph.target_palette_line
            &&& back.target_palette_line == morph.source_palette_line
            &&& (back.source_space is Source) == (morph.target_space is Target)
            &&& (back.target_space is Target) == (morph.source_space is Source)
        }),
        all_backwards(morphs).len() == morphs.len(),
        all_backwards(morphs)[i] == morphs[i].backwards(),
{
}

} // verus!
