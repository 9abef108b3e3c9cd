//! Where a drawing falls on the dots of a terminal.

use vstd::prelude::*;
use vstd::string::*;

use crate::edges::Extent;
use crate::geometry::{Line2d, Point2d};
use crate::laws_rounding::{nearest_numbers_keep_order, whole_numbers_stay};
use crate::number::{Arithmetic, Real, ONE_BITS};
use crate::rounding::WHOLE_LIMIT;
use crate::tui::{
    between, braille, dot_bit, dot_of, drawing_dots, grid_place, in_grid, line_dots, rows_text,
    shows_cell, span_of, steps_of, SMALLEST_SPAN_BITS,
};
use crate::value::{
    holds, lemma_exact, lemma_held, lemma_multiples, lemma_order, lemma_ratios, lemma_small_values,
    lemma_values, rounds,
};

verus! {

/// An extent is finite, and not upside down.
pub open spec fn sound_extent(extent: Extent, ev: spec_fn(Arithmetic) -> Real) -> bool {
    &&& extent.min_x.finite() && extent.max_x.finite() && extent.min_y.finite()
        && extent.max_y.finite()
    &&& extent.min_x.value() <= extent.max_x.value()
    &&& extent.min_y.value() <= extent.max_y.value()
    &&& ev(Arithmetic::Difference(extent.max_x, extent.min_x)).finite()
    &&& ev(Arithmetic::Difference(extent.max_y, extent.min_y)).finite()
}

/// A point lies within an extent.
pub open spec fn within(point: Point2d, extent: Extent) -> bool {
    &&& point.0.finite() && point.1.finite()
    &&& extent.min_x.value() <= point.0.value() <= extent.max_x.value()
    &&& extent.min_y.value() <= point.1.value() <= extent.max_y.value()
}

/// The sizes of a grid can be held.
pub open spec fn sound_grid(width: int, height: int) -> bool {
    &&& 1 <= width && 1 <= height
    &&& 2 * width <= usize::MAX && 4 * height <= usize::MAX
    &&& 4 * width < WHOLE_LIMIT && 4 * height < WHOLE_LIMIT
    &&& holds((2 * width - 1) as real)
    &&& holds((4 * height - 1) as real)
}

proof fn lemma_share(above: Real, span: Real, dots: usize, ev: spec_fn(Arithmetic) -> Real)
    requires
        rounds(ev),
        above.finite() && span.finite(),
        0real <= above.value() <= span.value(),
        0real < span.value(),
        1 <= dots < WHOLE_LIMIT,
        holds((dots - 1) as real),
    ensures
        ({
            let share = ev(Arithmetic::Quotient(above, span));
            let last = ev(Arithmetic::Count((dots - 1) as usize));
            &&& share.finite() && 0real <= share.value() <= 1real
            &&& last.finite() && last.value() == (dots - 1) as real
            &&& ev(Arithmetic::Product(share, last)).finite()
        }),
        0 <= grid_place(above, span, dots, ev) <= dots - 1,
        above.value() == 0real ==> grid_place(above, span, dots, ev) == 0,
        above.value() == span.value() ==> grid_place(above, span, dots, ev) == dots - 1,
{
    let zero = Real { bits: 0 };
    let one = Real { bits: ONE_BITS };
    lemma_small_values();
    lemma_held(zero);
    lemma_held(one);
    let (a, s) = (above.value(), span.value());
    lemma_ratios(0real, a, s);
    lemma_ratios(a, s, s);
    let share = ev(Arithmetic::Quotient(above, span));
    lemma_exact(Arithmetic::Quotient(zero, span), ev);
    lemma_exact(Arithmetic::Quotient(span, span), ev);
    lemma_order(Arithmetic::Quotient(zero, span), Arithmetic::Quotient(above, span), ev);
    lemma_order(Arithmetic::Quotient(above, span), Arithmetic::Quotient(span, span), ev);
    assert(share.finite());
    lemma_values(ev(Arithmetic::Quotient(zero, span)), share);
    lemma_values(share, ev(Arithmetic::Quotient(span, span)));
    let count = (dots - 1) as usize;
    let last = ev(Arithmetic::Count(count));
    lemma_exact(Arithmetic::Count(count), ev);
    let (p, n) = (share.value(), last.value());
    lemma_multiples(0real, p, n);
    lemma_multiples(p, 1real, n);
    lemma_exact(Arithmetic::Product(zero, last), ev);
    lemma_exact(Arithmetic::Product(one, last), ev);
    lemma_order(Arithmetic::Product(zero, last), Arithmetic::Product(share, last), ev);
    lemma_order(Arithmetic::Product(share, last), Arithmetic::Product(one, last), ev);
    let low = ev(Arithmetic::Product(zero, last));
    let top = ev(Arithmetic::Product(one, last));
    let place = ev(Arithmetic::Product(share, last));
    assert(place.finite());
    nearest_numbers_keep_order(low, place);
    nearest_numbers_keep_order(place, top);
    whole_numbers_stay(low, 0);
    whole_numbers_stay(top, dots - 1);
    if a == 0real {
        assert(p == 0real) by {
            lemma_order(Arithmetic::Quotient(above, span), Arithmetic::Quotient(zero, span), ev);
            lemma_values(share, ev(Arithmetic::Quotient(zero, span)));
        }
        lemma_order(Arithmetic::Product(share, last), Arithmetic::Product(zero, last), ev);
        nearest_numbers_keep_order(place, low);
    }
    if a == s {
        assert(p == 1real) by {
            lemma_order(Arithmetic::Quotient(span, span), Arithmetic::Quotient(above, span), ev);
            lemma_values(ev(Arithmetic::Quotient(span, span)), share);
        }
        lemma_order(Arithmetic::Product(one, last), Arithmetic::Product(share, last), ev);
        nearest_numbers_keep_order(top, place);
    }
}

proof fn lemma_places_ascend(
    a: Real,
    b: Real,
    span: Real,
    dots: usize,
    ev: spec_fn(Arithmetic) -> Real,
)
    requires
        rounds(ev),
        a.finite() && b.finite() && span.finite(),
        0real <= a.value() <= b.value() <= span.value(),
        0real < span.value(),
        1 <= dots < WHOLE_LIMIT,
        holds((dots - 1) as real),
    ensures
        grid_place(a, span, dots, ev) <= grid_place(b, span, dots, ev),
{
    lemma_share(a, span, dots, ev);
    lemma_share(b, span, dots, ev);
    let (x, y, s) = (a.value(), b.value(), span.value());
    lemma_ratios(x, y, s);
    let p = ev(Arithmetic::Quotient(a, span));
    let q = ev(Arithmetic::Quotient(b, span));
    lemma_order(Arithmetic::Quotient(a, span), Arithmetic::Quotient(b, span), ev);
    lemma_values(p, q);
    let last = ev(Arithmetic::Count((dots - 1) as usize));
    let (u, v, n) = (p.value(), q.value(), last.value());
    lemma_multiples(u, v, n);
    lemma_order(Arithmetic::Product(p, last), Arithmetic::Product(q, last), ev);
    nearest_numbers_keep_order(
        ev(Arithmetic::Product(p, last)),
        ev(Arithmetic::Product(q, last)),
    );
}

/// A distance from a limit is between nothing and the span.
proof fn lemma_distance(from: Real, to: Real, low: Real, high: Real, ev: spec_fn(Arithmetic) -> Real)
    requires
        rounds(ev),
        from.finite() && to.finite() && low.finite() && high.finite(),
        0real <= to.value() - from.value() <= high.value() - low.value(),
        ev(Arithmetic::Difference(high, low)).finite(),
    ensures
        ({
            let a = ev(Arithmetic::Difference(to, from));
            let span = span_of(low, high, ev);
            &&& a.finite() && span.finite()
            &&& 0real <= a.value() <= span.value()
            &&& 0real < span.value()
            &&& to.value() == from.value() ==> a.value() == 0real
            &&& to.value() - from.value() == high.value() - low.value() && ev(
                Arithmetic::Difference(high, low),
            ).value() >= (Real { bits: SMALLEST_SPAN_BITS }).value() ==> a.value() == span.value()
        }),
{
    let zero = Real { bits: 0 };
    let smallest = Real { bits: SMALLEST_SPAN_BITS };
    let a = ev(Arithmetic::Difference(to, from));
    let d = ev(Arithmetic::Difference(high, low));
    lemma_small_values();
    lemma_held(zero);
    lemma_values(zero, smallest);
    lemma_exact(Arithmetic::Difference(from, from), ev);
    lemma_order(Arithmetic::Difference(from, from), Arithmetic::Difference(to, from), ev);
    lemma_order(Arithmetic::Difference(to, from), Arithmetic::Difference(high, low), ev);
    assert(a.finite());
    lemma_values(ev(Arithmetic::Difference(from, from)), a);
    lemma_values(a, d);
    lemma_values(d, smallest);
    lemma_values(smallest, d);
    if to.value() == from.value() {
        lemma_exact(Arithmetic::Difference(to, from), ev);
    }
    if to.value() - from.value() == high.value() - low.value() {
        lemma_order(Arithmetic::Difference(high, low), Arithmetic::Difference(to, from), ev);
        lemma_values(d, a);
    }
}

/// Columns grow with x and rows grow downwards: of two points within the
/// extent, the one further left is never on a column further right, and the
/// higher one never on a lower row. All of them are on the grid.
pub proof fn dots_keep_left_and_top(
    a: Point2d,
    b: Point2d,
    extent: Extent,
    width: int,
    height: int,
    ev: spec_fn(Arithmetic) -> Real,
)
    requires
        rounds(ev),
        sound_extent(extent, ev),
        sound_grid(width, height),
        within(a, extent),
        within(b, extent),
    ensures
        ({
            let p = dot_of(a, extent, width, height, ev);
            let q = dot_of(b, extent, width, height, ev);
            &&& a.0.value() <= b.0.value() ==> p.0 <= q.0
            &&& a.1.value() >= b.1.value() ==> p.1 <= q.1
            &&& in_grid(width, height, p.0, p.1)
        }),
{
    let (x, y) = ((2 * width) as usize, (4 * height) as usize);
    lemma_distance(extent.min_x, a.0, extent.min_x, extent.max_x, ev);
    lemma_distance(extent.min_x, b.0, extent.min_x, extent.max_x, ev);
    lemma_distance(a.1, extent.max_y, extent.min_y, extent.max_y, ev);
    lemma_distance(b.1, extent.max_y, extent.min_y, extent.max_y, ev);
    let span_x = span_of(extent.min_x, extent.max_x, ev);
    let span_y = span_of(extent.min_y, extent.max_y, ev);
    let ax = ev(Arithmetic::Difference(a.0, extent.min_x));
    let bx = ev(Arithmetic::Difference(b.0, extent.min_x));
    let ay = ev(Arithmetic::Difference(extent.max_y, a.1));
    let by = ev(Arithmetic::Difference(extent.max_y, b.1));
    lemma_share(ax, span_x, x, ev);
    lemma_share(ay, span_y, y, ev);
    if a.0.value() <= b.0.value() {
        lemma_order(
            Arithmetic::Difference(a.0, extent.min_x),
            Arithmetic::Difference(b.0, extent.min_x),
            ev,
        );
        lemma_values(ax, bx);
        lemma_places_ascend(ax, bx, span_x, x, ev);
    }
    if a.1.value() >= b.1.value() {
        lemma_order(
            Arithmetic::Difference(extent.max_y, a.1),
            Arithmetic::Difference(extent.max_y, b.1),
            ev,
        );
        lemma_values(ay, by);
        lemma_places_ascend(ay, by, span_y, y, ev);
    }
}

/// A drawing fills its grid: what is furthest left is on the first column, what
/// is furthest right on the last one, what is highest on the first row and what
/// is lowest on the last one.
pub proof fn drawings_fill_the_grid(
    point: Point2d,
    extent: Extent,
    width: int,
    height: int,
    ev: spec_fn(Arithmetic) -> Real,
)
    requires
        rounds(ev),
        sound_extent(extent, ev),
        sound_grid(width, height),
        within(point, extent),
        ev(Arithmetic::Difference(extent.max_x, extent.min_x)).value() >= (Real {
            bits: SMALLEST_SPAN_BITS,
        }).value(),
        ev(Arithmetic::Difference(extent.max_y, extent.min_y)).value() >= (Real {
            bits: SMALLEST_SPAN_BITS,
        }).value(),
    ensures
        ({
            let dot = dot_of(point, extent, width, height, ev);
            &&& point.0.value() == extent.min_x.value() ==> dot.0 == 0
            &&& point.0.value() == extent.max_x.value() ==> dot.0 == 2 * width - 1
            &&& point.1.value() == extent.max_y.value() ==> dot.1 == 0
            &&& point.1.value() == extent.min_y.value() ==> dot.1 == 4 * height - 1
        }),
{
    let (x, y) = ((2 * width) as usize, (4 * height) as usize);
    lemma_distance(extent.min_x, point.0, extent.min_x, extent.max_x, ev);
    lemma_distance(point.1, extent.max_y, extent.min_y, extent.max_y, ev);
    let span_x = span_of(extent.min_x, extent.max_x, ev);
    let span_y = span_of(extent.min_y, extent.max_y, ev);
    lemma_share(ev(Arithmetic::Difference(point.0, extent.min_x)), span_x, x, ev);
    lemma_share(ev(Arithmetic::Difference(extent.max_y, point.1)), span_y, y, ev);
}

/// The dots of a drawing are those of its lines, from end to end.
pub proof fn drawings_are_made_of_their_lines(
    lines: Seq<Line2d>,
    extent: Extent,
    width: int,
    height: int,
    dot: (int, int),
    ev: spec_fn(Arithmetic) -> Real,
)
    ensures
        drawing_dots(lines, extent, width, height, ev).contains(dot) <==> exists|i: int|
            0 <= i < lines.len() && line_dots(
                dot_of((#[trigger] lines[i]).0, extent, width, height, ev),
                dot_of(lines[i].1, extent, width, height, ev),
            ).contains(dot),
    decreases lines.len(),
{
    if lines.len() > 0 {
        let init = lines.drop_last();
        let last = lines.last();
        drawings_are_made_of_their_lines(init, extent, width, height, dot, ev);
        let a = drawing_dots(init, extent, width, height, ev);
        let b = line_dots(
            dot_of(last.0, extent, width, height, ev),
            dot_of(last.1, extent, width, height, ev),
        );
        assert((a + b).contains(dot) <==> a.contains(dot) || b.contains(dot)) by {
            if a.contains(dot) {
                let k = choose|k: int| 0 <= k < a.len() && a[k] == dot;
                assert((a + b)[k] == dot);
            }
            if b.contains(dot) {
                let k = choose|k: int| 0 <= k < b.len() && b[k] == dot;
                assert((a + b)[a.len() + k] == dot);
            }
        }
        assert forall|i: int| 0 <= i < init.len() implies #[trigger] lines[i] == init[i] by {}
        if a.contains(dot) {
            let i = choose|i: int|
                0 <= i < init.len() && line_dots(
                    dot_of((#[trigger] init[i]).0, extent, width, height, ev),
                    dot_of(init[i].1, extent, width, height, ev),
                ).contains(dot);
            assert(lines[i] == init[i]);
        }
        if b.contains(dot) {
            assert(lines[lines.len() - 1] == last);
        }
        if exists|i: int|
            0 <= i < lines.len() && line_dots(
                dot_of((#[trigger] lines[i]).0, extent, width, height, ev),
                dot_of(lines[i].1, extent, width, height, ev),
            ).contains(dot) {
            let i = choose|i: int|
                0 <= i < lines.len() && line_dots(
                    dot_of((#[trigger] lines[i]).0, extent, width, height, ev),
                    dot_of(lines[i].1, extent, width, height, ev),
                ).contains(dot);
            if i < init.len() {
                assert(init[i] == lines[i]);
            } else {
                assert(lines[i] == last);
            }
        }
    }
}

/// The dots of a line follow each other without a gap, and each is less than
/// one dot from the straight line between the ends.
pub proof fn lines_are_straight_and_whole(start: (int, int), end: (int, int), k: int)
    requires
        0 <= k < line_dots(start, end).len(),
    ensures
        ({
            let dots = line_dots(start, end);
            let n = dots.len() - 1;
            let dot = dots[k];
            &&& n >= 1
            &&& -n < n * (dot.0 - start.0) - k * (end.0 - start.0) < n
            &&& -n < n * (dot.1 - start.1) - k * (end.1 - start.1) < n
            &&& k < n ==> {
                &&& -1 <= dots[k + 1].0 - dot.0 <= 1
                &&& -1 <= dots[k + 1].1 - dot.1 <= 1
            }
        }),
{
    let n = steps_of(start, end);
    lemma_straight(start.0, end.0, k, n);
    lemma_straight(start.1, end.1, k, n);
    if k < n {
        lemma_straight(start.0, end.0, k + 1, n);
        lemma_straight(start.1, end.1, k + 1, n);
        lemma_neighbours(start.0, end.0, k, n);
        lemma_neighbours(start.1, end.1, k, n);
    }
}

proof fn lemma_straight(a: int, b: int, k: int, n: int)
    requires
        0 <= k <= n,
        n >= 1,
    ensures
        -n < n * (between(a, b, k, n) - a) - k * (b - a) < n,
{
    let d = if a <= b {
        b - a
    } else {
        a - b
    };
    vstd::arithmetic::div_mod::lemma_fundamental_div_mod(d * k, n);
    vstd::arithmetic::div_mod::lemma_mod_bound(d * k, n);
    let q = d * k / n;
    if a <= b {
        assert(n * q - k * (b - a) == -((d * k) % n)) by (nonlinear_arith)
            requires
                d * k == n * q + (d * k) % n,
                d == b - a,
        ;
    } else {
        assert(n * (-q) - k * (b - a) == (d * k) % n) by (nonlinear_arith)
            requires
                d * k == n * q + (d * k) % n,
                d == a - b,
        ;
    }
}

proof fn lemma_neighbours(a: int, b: int, k: int, n: int)
    requires
        0 <= k < n,
        -n <= b - a <= n,
    ensures
        -1 <= between(a, b, k + 1, n) - between(a, b, k, n) <= 1,
{
    let d = if a <= b {
        b - a
    } else {
        a - b
    };
    vstd::arithmetic::div_mod::lemma_fundamental_div_mod(d * k, n);
    vstd::arithmetic::div_mod::lemma_mod_bound(d * k, n);
    vstd::arithmetic::div_mod::lemma_fundamental_div_mod(d * (k + 1), n);
    vstd::arithmetic::div_mod::lemma_mod_bound(d * (k + 1), n);
    let (p, q) = (d * k / n, d * (k + 1) / n);
    let (x, y) = ((d * k) % n, (d * (k + 1)) % n);
    assert(d * (k + 1) == d * k + d) by (nonlinear_arith);
    assert(-1 <= q - p <= 1) by (nonlinear_arith)
        requires
            n * q + y == n * p + x + d,
            0 <= x < n,
            0 <= y < n,
            0 <= d <= n,
    ;
}

/// The bits of a cell, as braille numbers its dots: down the left column and
/// then down the right one, with the lowest pair last.
pub proof fn cell_bits_follow_braille(x: int, y: int)
    requires
        x % 2 == 0,
        y % 4 == 0,
    ensures
        dot_bit(x, y) == 1,
        dot_bit(x, y + 1) == 2 * dot_bit(x, y),
        dot_bit(x, y + 2) == 2 * dot_bit(x, y + 1),
        dot_bit(x + 1, y) == 2 * dot_bit(x, y + 2),
        dot_bit(x + 1, y + 1) == 2 * dot_bit(x + 1, y),
        dot_bit(x + 1, y + 2) == 2 * dot_bit(x + 1, y + 1),
        dot_bit(x, y + 3) == 2 * dot_bit(x + 1, y + 2),
        dot_bit(x + 1, y + 3) == 2 * dot_bit(x, y + 3),
{
}

/// The text of a grid has one character for each cell, row by row from the
/// first row, and a line break after every row.
pub proof fn rows_show_their_cells(cells: Seq<u8>, width: int, rows: int, row: int, column: int)
    requires
        0 <= width,
        0 <= row < rows,
        0 <= column <= width,
        rows * width <= cells.len(),
    ensures
        rows_text(cells, width, rows).len() == rows * (width + 1),
        0 <= row * (width + 1) + column < rows * (width + 1),
        rows_text(cells, width, rows)[row * (width + 1) + column] == if column < width {
            braille(cells[row * width + column])
        } else {
            '\n'
        },
    decreases rows,
{
    reveal_strlit("\n");
    let last = rows - 1;
    assert(rows * width == last * width + width && rows * (width + 1) == last * (width + 1) + width
        + 1 && 0 <= last * width) by (nonlinear_arith)
        requires
            last == rows - 1,
            last >= 0,
            width >= 0,
    ;
    let before = rows_text(cells, width, last);
    let part = cells.subrange(last * width, rows * width);
    if last == 0 {
        assert(before.len() == 0);
        assert(0 * (width + 1) == 0 && 0 * width == 0) by (nonlinear_arith);
        assert(last * (width + 1) == 0);
    } else if row < last {
        rows_show_their_cells(cells, width, last, row, column);
    } else {
        rows_show_their_cells(cells, width, last, 0, 0);
    }
    assert(0 <= row * (width + 1) && row * (width + 1) + column < rows * (width + 1) && (row < last
        ==> row * (width + 1) + column < last * (width + 1))) by (nonlinear_arith)
        requires
            0 <= row < rows,
            0 <= column <= width,
            last == rows - 1,
    ;
    if row == last && column < width {
        assert(part[column] == cells[row * width + column]);
    }
}

/// The characters of cells are those of the braille block, in its order.
pub proof fn cells_are_shown_in_braille(cell: u8)
    ensures
        braille(cell) as u32 == 0x2800 + cell,
{
    let c = (0x2800 + cell) as u32 as char;
    assert(shows_cell(c, cell));
}

} // verus!
