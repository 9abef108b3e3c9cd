//! The edges of a scene, how far they reach, and lines fitted to a size.

use vstd::prelude::*;

use crate::geometry::{Line2d, Lines2d, Point2d, Primitive2d};
use crate::number::{answers, calculate, calculates, Arithmetic, Real, INFINITY_BITS, SIGN_BIT};
use crate::visualize::{Shape, Shape2d, shape_2d, shapes_2d, TWO_BITS};

verus! {

/// The pattern of one tenth.
pub const TENTH_BITS: u64 = 0x3fb9_9999_9999_999a;

/// The pattern of one thousand.
pub const THOUSAND_BITS: u64 = 0x408f_4000_0000_0000;

/// The pattern of negative infinity.
pub const NEGATIVE_INFINITY_BITS: u64 = 0xfff0_0000_0000_0000;

/// The lines between neighbouring vertices, and from the last vertex back to
/// the first.
pub open spec fn outline_edges(vertices: Seq<Point2d>) -> Seq<Line2d> {
    if vertices.len() == 0 {
        Seq::empty()
    } else {
        Seq::new(
            vertices.len(),
            |i: int|
                Line2d(
                    vertices[i],
                    if i + 1 < vertices.len() {
                        vertices[i + 1]
                    } else {
                        vertices[0]
                    },
                ),
        )
    }
}

/// The lines among some shapes, in order.
pub open spec fn plain_lines(shapes: Seq<Shape2d>) -> Seq<Line2d>
    decreases shapes.len(),
{
    if shapes.len() == 0 {
        Seq::empty()
    } else {
        let before = plain_lines(shapes.drop_last());
        match shapes.last() {
            Shape::Line(line) => before.push(line.line),
            _ => before,
        }
    }
}

/// The edges of the polygons among some shapes, in order.
pub open spec fn polygon_edges(shapes: Seq<Shape2d>) -> Seq<Line2d>
    decreases shapes.len(),
{
    if shapes.len() == 0 {
        Seq::empty()
    } else {
        let before = polygon_edges(shapes.drop_last());
        match shapes.last() {
            Shape::Polygon(outline) => before + outline_edges(outline.vertices),
            _ => before,
        }
    }
}

/// All lines of some shapes: the lines themselves, then the polygons' edges.
pub open spec fn scene_edges(shapes: Seq<Shape2d>) -> Seq<Line2d> {
    plain_lines(shapes) + polygon_edges(shapes)
}

/// The lines among some shapes that are seen: a width of zero suppresses one.
pub open spec fn seen_lines(shapes: Seq<Shape2d>) -> Seq<Line2d>
    decreases shapes.len(),
{
    if shapes.len() == 0 {
        Seq::empty()
    } else {
        let before = seen_lines(shapes.drop_last());
        match shapes.last() {
            Shape::Line(line) => if line.width.same(Real { bits: 0 }) {
                before
            } else {
                before.push(line.line)
            },
            _ => before,
        }
    }
}

/// What is seen of some shapes: the lines, then the polygons' edges.
pub open spec fn seen_edges(shapes: Seq<Shape2d>) -> Seq<Line2d> {
    seen_lines(shapes) + polygon_edges(shapes)
}

/// Add the edges of a scene's polygons.
fn add_polygon_edges(primitives: &Vec<Primitive2d>, lines: &mut Vec<Line2d>)
    ensures
        final(lines)@ == old(lines)@ + polygon_edges(shapes_2d(primitives@)),
{
    let ghost shapes = shapes_2d(primitives@);
    let ghost first = lines@;
    let mut i: usize = 0;
    assert(lines@ =~= first + polygon_edges(shapes.subrange(0, 0)));
    while i < primitives.len()
        invariant
            i <= primitives@.len(),
            shapes == shapes_2d(primitives@),
            lines@ == first + polygon_edges(shapes.subrange(0, i as int)),
        decreases primitives@.len() - i,
    {
        assert(shapes.subrange(0, i + 1).drop_last() =~= shapes.subrange(0, i as int));
        assert(shapes[i as int] == shape_2d(primitives@[i as int]));
        match &primitives[i] {
            Primitive2d::Polygon(polygon) => {
                let vertices: &Vec<Point2d> = &polygon.vertices;
                let ghost edges = outline_edges(vertices@);
                let ghost start = lines@;
                let mut k: usize = 0;
                assert(lines@ =~= start + edges.subrange(0, 0));
                while k < vertices.len()
                    invariant
                        k <= vertices@.len(),
                        edges == outline_edges(vertices@),
                        lines@ == start + edges.subrange(0, k as int),
                    decreases vertices@.len() - k,
                {
                    let next: Point2d = if k + 1 < vertices.len() {
                        vertices[k + 1]
                    } else {
                        vertices[0]
                    };
                    lines.push(Line2d(vertices[k], next));
                    k = k + 1;
                    assert(lines@ =~= start + edges.subrange(0, k as int));
                }
                assert(edges.subrange(0, k as int) =~= edges);
                assert(lines@ =~= first + (polygon_edges(shapes.subrange(0, i as int)) + edges));
            },
            _ => {},
        }
        i = i + 1;
    }
    assert(shapes.subrange(0, i as int) =~= shapes);
}

/// Collect the lines and the polygons' edges of a scene.
pub fn collect_edges(primitives: &Vec<Primitive2d>) -> (r: Vec<Line2d>)
    ensures
        r@ == scene_edges(shapes_2d(primitives@)),
{
    let ghost shapes = shapes_2d(primitives@);
    let mut lines: Vec<Line2d> = Vec::new();
    let mut i: usize = 0;
    assert(lines@ =~= plain_lines(shapes.subrange(0, 0)));
    while i < primitives.len()
        invariant
            i <= primitives@.len(),
            shapes == shapes_2d(primitives@),
            lines@ == plain_lines(shapes.subrange(0, i as int)),
        decreases primitives@.len() - i,
    {
        assert(shapes.subrange(0, i + 1).drop_last() =~= shapes.subrange(0, i as int));
        assert(shapes[i as int] == shape_2d(primitives@[i as int]));
        match &primitives[i] {
            Primitive2d::Line(line) => {
                lines.push(line.line);
            },
            _ => {},
        }
        i = i + 1;
    }
    assert(shapes.subrange(0, i as int) =~= shapes);
    add_polygon_edges(primitives, &mut lines);
    lines
}

/// Collect the lines and the polygons' edges that are seen of a scene.
pub fn collect_seen_edges(primitives: &Vec<Primitive2d>) -> (r: Vec<Line2d>)
    ensures
        r@ == seen_edges(shapes_2d(primitives@)),
{
    let ghost shapes = shapes_2d(primitives@);
    let mut lines: Vec<Line2d> = Vec::new();
    let mut i: usize = 0;
    assert(lines@ =~= seen_lines(shapes.subrange(0, 0)));
    while i < primitives.len()
        invariant
            i <= primitives@.len(),
            shapes == shapes_2d(primitives@),
            lines@ == seen_lines(shapes.subrange(0, i as int)),
        decreases primitives@.len() - i,
    {
        assert(shapes.subrange(0, i + 1).drop_last() =~= shapes.subrange(0, i as int));
        assert(shapes[i as int] == shape_2d(primitives@[i as int]));
        match &primitives[i] {
            Primitive2d::Line(line) => {
                if !line.width.equals(Real { bits: 0 }) {
                    lines.push(line.line);
                }
            },
            _ => {},
        }
        i = i + 1;
    }
    assert(shapes.subrange(0, i as int) =~= shapes);
    add_polygon_edges(primitives, &mut lines);
    lines
}

/// How far some lines reach.
#[derive(Debug, Clone, Copy, PartialEq, Eq)]
pub struct Extent {
    pub min_x: Real,
    pub max_x: Real,
    pub min_y: Real,
    pub max_y: Real,
}

/// The extent of nothing.
pub open spec fn no_extent() -> Extent {
    Extent {
        min_x: Real { bits: INFINITY_BITS },
        max_x: Real { bits: NEGATIVE_INFINITY_BITS },
        min_y: Real { bits: INFINITY_BITS },
        max_y: Real { bits: NEGATIVE_INFINITY_BITS },
    }
}

/// A coordinate, turned over where the second axis points down.
pub open spec fn height_of(y: Real, down: bool) -> Real {
    if down {
        y.opposite()
    } else {
        y
    }
}

/// The extent of some lines, with the second axis pointing up or down.
pub open spec fn extent_of(lines: Seq<Line2d>, down: bool) -> Extent
    decreases lines.len(),
{
    if lines.len() == 0 {
        no_extent()
    } else {
        let before = extent_of(lines.drop_last(), down);
        let line = lines.last();
        let (first, second) = (height_of(line.0.1, down), height_of(line.1.1, down));
        Extent {
            min_x: before.min_x.lower(line.0.0).lower(line.1.0),
            max_x: before.max_x.upper(line.0.0).upper(line.1.0),
            min_y: before.min_y.lower(first).lower(second),
            max_y: before.max_y.upper(first).upper(second),
        }
    }
}

pub fn measure(lines: &Vec<Line2d>, down: bool) -> (r: Extent)
    ensures
        r == extent_of(lines@, down),
{
    let mut extent: Extent = Extent {
        min_x: Real { bits: INFINITY_BITS },
        max_x: Real { bits: NEGATIVE_INFINITY_BITS },
        min_y: Real { bits: INFINITY_BITS },
        max_y: Real { bits: NEGATIVE_INFINITY_BITS },
    };
    let mut i: usize = 0;
    while i < lines.len()
        invariant
            i <= lines@.len(),
            extent == extent_of(lines@.subrange(0, i as int), down),
        decreases lines@.len() - i,
    {
        assert(lines@.subrange(0, i + 1).drop_last() =~= lines@.subrange(0, i as int));
        let line: Line2d = lines[i];
        let first: Real = if down {
            line.0.1.negated()
        } else {
            line.0.1
        };
        let second: Real = if down {
            line.1.1.negated()
        } else {
            line.1.1
        };
        extent = Extent {
            min_x: extent.min_x.min(line.0.0).min(line.1.0),
            max_x: extent.max_x.max(line.0.0).max(line.1.0),
            min_y: extent.min_y.min(first).min(second),
            max_y: extent.max_y.max(first).max(second),
        };
        i = i + 1;
    }
    assert(lines@.subrange(0, i as int) =~= lines@);
    extent
}

/// Every coordinate that is a number lies within the extent.
pub proof fn extent_covers_every_line(lines: Seq<Line2d>, i: int)
    requires
        0 <= i < lines.len(),
    ensures
        ({
            let extent = extent_of(lines, false);
            let line = lines[i];
            &&& !line.0.0.nan() ==> extent.min_x.at_most(line.0.0) && line.0.0.at_most(extent.max_x)
            &&& !line.1.0.nan() ==> extent.min_x.at_most(line.1.0) && line.1.0.at_most(extent.max_x)
            &&& !line.0.1.nan() ==> extent.min_y.at_most(line.0.1) && line.0.1.at_most(extent.max_y)
            &&& !line.1.1.nan() ==> extent.min_y.at_most(line.1.1) && line.1.1.at_most(extent.max_y)
        }),
    decreases lines.len(),
{
    lemma_extent_is_number(lines.drop_last());
    if i < lines.len() - 1 {
        extent_covers_every_line(lines.drop_last(), i);
    }
}

proof fn lemma_extent_is_number(lines: Seq<Line2d>)
    ensures
        ({
            let extent = extent_of(lines, false);
            !extent.min_x.nan() && !extent.max_x.nan() && !extent.min_y.nan()
                && !extent.max_y.nan()
        }),
    decreases lines.len(),
{
    if lines.len() > 0 {
        lemma_extent_is_number(lines.drop_last());
    }
}

/// A line by its coordinates in thousandths.
pub type LineKey = ((i64, i64), (i64, i64));

pub open spec fn thousandths(value: Real, ev: spec_fn(Arithmetic) -> Real) -> i64 {
    ev(Arithmetic::Product(Real { bits: THOUSAND_BITS }, value)).nearest() as i64
}

pub open spec fn key_of(line: Line2d, ev: spec_fn(Arithmetic) -> Real) -> LineKey {
    (
        (thousandths(line.0.0, ev), thousandths(line.0.1, ev)),
        (thousandths(line.1.0, ev), thousandths(line.1.1, ev)),
    )
}

pub open spec fn from_thousandths(value: i64, ev: spec_fn(Arithmetic) -> Real) -> Real {
    ev(
        Arithmetic::Quotient(ev(Arithmetic::Integer(value)), Real { bits: THOUSAND_BITS }),
    )
}

pub open spec fn line_of(key: LineKey, ev: spec_fn(Arithmetic) -> Real) -> Line2d {
    Line2d(
        (from_thousandths(key.0.0, ev), from_thousandths(key.0.1, ev)),
        (from_thousandths(key.1.0, ev), from_thousandths(key.1.1, ev)),
    )
}

fn to_thousandths<C: Fn(Arithmetic) -> Real>(value: Real, calc: &C) -> (r: i64)
    requires
        calculates(*calc),
    ensures
        r == thousandths(value, answers(*calc)),
{
    calculate(calc, Arithmetic::Product(Real { bits: THOUSAND_BITS }, value)).to_nearest()
}

fn of_thousandths<C: Fn(Arithmetic) -> Real>(value: i64, calc: &C) -> (r: Real)
    requires
        calculates(*calc),
    ensures
        r == from_thousandths(value, answers(*calc)),
{
    let whole: Real = calculate(calc, Arithmetic::Integer(value));
    calculate(calc, Arithmetic::Quotient(whole, Real { bits: THOUSAND_BITS }))
}

/// Keys are ordered by their coordinates, one after the other.
pub open spec fn key_before(a: LineKey, b: LineKey) -> bool {
    ||| a.0.0 < b.0.0
    ||| a.0.0 == b.0.0 && a.0.1 < b.0.1
    ||| a.0.0 == b.0.0 && a.0.1 == b.0.1 && a.1.0 < b.1.0
    ||| a.0.0 == b.0.0 && a.0.1 == b.0.1 && a.1.0 == b.1.0 && a.1.1 < b.1.1
}

fn is_before(a: LineKey, b: LineKey) -> (r: bool)
    ensures
        r == key_before(a, b),
{
    if a.0.0 != b.0.0 {
        a.0.0 < b.0.0
    } else if a.0.1 != b.0.1 {
        a.0.1 < b.0.1
    } else if a.1.0 != b.1.0 {
        a.1.0 < b.1.0
    } else {
        a.1.1 < b.1.1
    }
}

/// Every key stands before the next.
pub open spec fn keys_ascend(keys: Seq<LineKey>) -> bool {
    forall|i: int, j: int| 0 <= i < j < keys.len() ==> key_before(#[trigger] keys[i], #[trigger] keys[j])
}

/// The same keys occur in both.
pub open spec fn same_keys(a: Seq<LineKey>, b: Seq<LineKey>) -> bool {
    &&& forall|i: int| 0 <= i < a.len() ==> b.contains(#[trigger] a[i])
    &&& forall|i: int| 0 <= i < b.len() ==> a.contains(#[trigger] b[i])
}

/// Ascending keys are settled by which keys occur.
pub proof fn ascending_keys_are_unique(a: Seq<LineKey>, b: Seq<LineKey>)
    requires
        keys_ascend(a),
        keys_ascend(b),
        same_keys(a, b),
    ensures
        a == b,
    decreases a.len(),
{
    if a.len() == 0 {
        if b.len() > 0 {
            assert(a.contains(b[0]));
        }
        assert(a =~= b);
    } else {
        assert(b.contains(a[0]));
        let (x, y) = (a.last(), b.last());
        assert(b.contains(a[a.len() - 1]));
        assert(a.contains(b[b.len() - 1]));
        assert(x == y) by {
            let i = choose|i: int| 0 <= i < b.len() && b[i] == x;
            let j = choose|j: int| 0 <= j < a.len() && a[j] == y;
            if i < b.len() - 1 {
                assert(key_before(b[i], b[b.len() - 1]));
                if j < a.len() - 1 {
                    assert(key_before(a[j], a[a.len() - 1]));
                }
            }
        }
        let (c, d) = (a.drop_last(), b.drop_last());
        assert forall|i: int| 0 <= i < c.len() implies d.contains(#[trigger] c[i]) by {
            assert(c[i] == a[i]);
            assert(b.contains(a[i]));
            let j = choose|j: int| 0 <= j < b.len() && b[j] == a[i];
            assert(key_before(a[i], a[a.len() - 1]));
            assert(d[j] == c[i]);
        }
        assert forall|i: int| 0 <= i < d.len() implies c.contains(#[trigger] d[i]) by {
            assert(d[i] == b[i]);
            assert(a.contains(b[i]));
            let j = choose|j: int| 0 <= j < a.len() && a[j] == b[i];
            assert(key_before(b[i], b[b.len() - 1]));
            assert(c[j] == d[i]);
        }
        ascending_keys_are_unique(c, d);
        assert(a =~= c.push(x));
        assert(b =~= d.push(y));
    }
}

/// Merge ascending keys; a key that occurs in both is kept once.
fn merge_keys(a: Vec<LineKey>, b: Vec<LineKey>) -> (r: Vec<LineKey>)
    requires
        keys_ascend(a@),
        keys_ascend(b@),
    ensures
        keys_ascend(r@),
        same_keys(r@, a@ + b@),
{
    let mut out: Vec<LineKey> = Vec::new();
    let mut i: usize = 0;
    let mut j: usize = 0;
    while i < a.len() || j < b.len()
        invariant
            i <= a@.len(),
            j <= b@.len(),
            keys_ascend(a@),
            keys_ascend(b@),
            keys_ascend(out@),
            forall|k: int| 0 <= k < out@.len() ==> (a@ + b@).contains(#[trigger] out@[k]),
            forall|k: int| 0 <= k < i ==> out@.contains(#[trigger] a@[k]),
            forall|k: int| 0 <= k < j ==> out@.contains(#[trigger] b@[k]),
            forall|k: int, m: int|
                0 <= k < out@.len() && i <= m < a@.len() ==> key_before(
                    #[trigger] out@[k],
                    #[trigger] a@[m],
                ),
            forall|k: int, m: int|
                0 <= k < out@.len() && j <= m < b@.len() ==> key_before(
                    #[trigger] out@[k],
                    #[trigger] b@[m],
                ),
        decreases a@.len() - i + b@.len() - j,
    {
        let ghost before = out@;
        let take_a: bool = i < a.len() && (j >= b.len() || !is_before(b[j], a[i]));
        let take_b: bool = j < b.len() && (i >= a.len() || !is_before(a[i], b[j]));
        let key: LineKey = if take_a {
            a[i]
        } else {
            b[j]
        };
        let ghost (i0, j0) = (i as int, j as int);
        out.push(key);
        if take_a {
            i = i + 1;
        }
        if take_b {
            j = j + 1;
        }
        proof {
            let both = a@ + b@;
            if take_a {
                assert(both[i0] == key);
            } else {
                assert(both[a@.len() + j0] == key);
            }
            assert(out@[before.len() as int] == key);
            assert forall|k: int| 0 <= k < i implies out@.contains(#[trigger] a@[k]) by {
                if k < i0 {
                    let m = choose|m: int| 0 <= m < before.len() && before[m] == a@[k];
                    assert(out@[m] == a@[k]);
                } else {
                    assert(out@[before.len() as int] == a@[k]);
                }
            }
            assert forall|k: int| 0 <= k < j implies out@.contains(#[trigger] b@[k]) by {
                if k < j0 {
                    let m = choose|m: int| 0 <= m < before.len() && before[m] == b@[k];
                    assert(out@[m] == b@[k]);
                } else {
                    assert(out@[before.len() as int] == b@[k]);
                }
            }
            assert forall|k: int| 0 <= k < out@.len() implies both.contains(#[trigger] out@[k]) by {
                if k < before.len() {
                    assert(out@[k] == before[k]);
                }
            }
            assert forall|k: int, m: int| 0 <= k < out@.len() && i <= m < a@.len() implies key_before(
                #[trigger] out@[k],
                #[trigger] a@[m],
            ) by {
                if k < before.len() {
                    assert(out@[k] == before[k]);
                } else if take_a {
                    assert(key_before(a@[i0], a@[m]));
                } else {
                    if m > i0 {
                        assert(key_before(a@[i0], a@[m]));
                    }
                }
            }
            assert forall|k: int, m: int| 0 <= k < out@.len() && j <= m < b@.len() implies key_before(
                #[trigger] out@[k],
                #[trigger] b@[m],
            ) by {
                if k < before.len() {
                    assert(out@[k] == before[k]);
                } else if m > j0 {
                    assert(key_before(b@[j0], b@[m]));
                }
            }
        }
    }
    proof {
        let both = a@ + b@;
        assert forall|k: int| 0 <= k < both.len() implies out@.contains(#[trigger] both[k]) by {
            if k < a@.len() {
                assert(both[k] == a@[k]);
            } else {
                assert(both[k] == b@[k - a@.len()]);
            }
        }
    }
    out
}

/// Sort some keys and keep each once.
fn sort_keys(keys: &Vec<LineKey>, start: usize, end: usize) -> (r: Vec<LineKey>)
    requires
        start <= end <= keys@.len(),
    ensures
        keys_ascend(r@),
        same_keys(r@, keys@.subrange(start as int, end as int)),
    decreases end - start,
{
    let ghost all = keys@.subrange(start as int, end as int);
    if end - start == 0 {
        return Vec::new();
    }
    if end - start == 1 {
        let mut out: Vec<LineKey> = Vec::new();
        out.push(keys[start]);
        assert(out@ =~= all);
        assert(same_keys(out@, all)) by {
            assert(out@[0] == all[0]);
        }
        return out;
    }
    let middle: usize = start + (end - start) / 2;
    let left: Vec<LineKey> = sort_keys(keys, start, middle);
    let right: Vec<LineKey> = sort_keys(keys, middle, end);
    let ghost (l, m) = (left@, right@);
    let out: Vec<LineKey> = merge_keys(left, right);
    proof {
        let first = keys@.subrange(start as int, middle as int);
        let second = keys@.subrange(middle as int, end as int);
        assert(all =~= first + second);
        assert forall|k: int| 0 <= k < out@.len() implies all.contains(#[trigger] out@[k]) by {
            assert((l + m).contains(out@[k]));
            let i = choose|i: int| 0 <= i < (l + m).len() && (l + m)[i] == out@[k];
            if i < l.len() {
                assert(first.contains(l[i]));
                let n = choose|n: int| 0 <= n < first.len() && first[n] == l[i];
                assert(all[n] == out@[k]);
            } else {
                assert(second.contains(m[i - l.len()]));
                let n = choose|n: int| 0 <= n < second.len() && second[n] == m[i - l.len()];
                assert(all[first.len() + n] == out@[k]);
            }
        }
        assert forall|k: int| 0 <= k < all.len() implies out@.contains(#[trigger] all[k]) by {
            if k < first.len() {
                assert(l.contains(first[k]));
                let n = choose|n: int| 0 <= n < l.len() && l[n] == first[k];
                assert((l + m)[n] == all[k]);
            } else {
                assert(m.contains(second[k - first.len()]));
                let n = choose|n: int| 0 <= n < m.len() && m[n] == second[k - first.len()];
                assert((l + m)[l.len() + n] == all[k]);
            }
        }
    }
    out
}

/// How lines are scaled and moved to lie centred within a size.
pub struct Fit {
    pub scale: Real,
    pub x_offset: Real,
    pub y_offset: Real,
}

pub open spec fn fit_of(lines: Seq<Line2d>, size: Point2d, ev: spec_fn(Arithmetic) -> Real) -> Fit {
    let extent = extent_of(lines, false);
    let tenth = Real { bits: TENTH_BITS };
    let two = Real { bits: TWO_BITS };
    let width = ev(Arithmetic::Difference(extent.max_x, extent.min_x)).upper(tenth);
    let height = ev(Arithmetic::Difference(extent.max_y, extent.min_y)).upper(tenth);
    let scale = ev(Arithmetic::Quotient(size.0, width)).lower(
        ev(Arithmetic::Quotient(size.1, height)),
    );
    let offset = |space: Real, used: Real, least: Real|
        ev(
            Arithmetic::Difference(
                ev(
                    Arithmetic::Quotient(
                        ev(
                            Arithmetic::Difference(space, ev(Arithmetic::Product(used, scale))),
                        ),
                        two,
                    ),
                ),
                ev(Arithmetic::Product(least, scale)),
            ),
        );
    Fit {
        scale,
        x_offset: offset(size.0, width, extent.min_x),
        y_offset: offset(size.1, height, extent.min_y),
    }
}

fn fit_offset<C: Fn(Arithmetic) -> Real>(space: Real, used: Real, least: Real, scale: Real, calc: &C) -> (r:
    Real)
    requires
        calculates(*calc),
    ensures
        ({
            let ev = answers(*calc);
            r == ev(
                Arithmetic::Difference(
                    ev(
                        Arithmetic::Quotient(
                            ev(
                                Arithmetic::Difference(space, ev(Arithmetic::Product(used, scale))),
                            ),
                            Real { bits: TWO_BITS },
                        ),
                    ),
                    ev(Arithmetic::Product(least, scale)),
                ),
            )
        }),
{
    let scaled: Real = calculate(calc, Arithmetic::Product(used, scale));
    let free: Real = calculate(calc, Arithmetic::Difference(space, scaled));
    let half: Real = calculate(calc, Arithmetic::Quotient(free, Real { bits: TWO_BITS }));
    let start: Real = calculate(calc, Arithmetic::Product(least, scale));
    calculate(calc, Arithmetic::Difference(half, start))
}

fn fit<C: Fn(Arithmetic) -> Real>(lines: &Vec<Line2d>, size: Point2d, calc: &C) -> (r: Fit)
    requires
        calculates(*calc),
    ensures
        r == fit_of(lines@, size, answers(*calc)),
{
    let extent: Extent = measure(lines, false);
    let tenth: Real = Real { bits: TENTH_BITS };
    let width: Real = calculate(calc, Arithmetic::Difference(extent.max_x, extent.min_x)).max(tenth);
    let height: Real = calculate(calc, Arithmetic::Difference(extent.max_y, extent.min_y)).max(
        tenth,
    );
    let across: Real = calculate(calc, Arithmetic::Quotient(size.0, width));
    let up: Real = calculate(calc, Arithmetic::Quotient(size.1, height));
    let scale: Real = across.min(up);
    let x_offset: Real = fit_offset(size.0, width, extent.min_x, scale, calc);
    let y_offset: Real = fit_offset(size.1, height, extent.min_y, scale, calc);
    Fit { scale, x_offset, y_offset }
}

pub open spec fn fitted_point(point: Point2d, fit: Fit, ev: spec_fn(Arithmetic) -> Real) -> Point2d {
    (
        ev(Arithmetic::Sum(ev(Arithmetic::Product(point.0, fit.scale)), fit.x_offset)),
        ev(Arithmetic::Sum(ev(Arithmetic::Product(point.1, fit.scale)), fit.y_offset)),
    )
}

fn fit_point<C: Fn(Arithmetic) -> Real>(point: Point2d, fit: &Fit, calc: &C) -> (r: Point2d)
    requires
        calculates(*calc),
    ensures
        r == fitted_point(point, *fit, answers(*calc)),
{
    let x: Real = calculate(calc, Arithmetic::Product(point.0, fit.scale));
    let y: Real = calculate(calc, Arithmetic::Product(point.1, fit.scale));
    (
        calculate(calc, Arithmetic::Sum(x, fit.x_offset)),
        calculate(calc, Arithmetic::Sum(y, fit.y_offset)),
    )
}

/// The keys of the lines once they are fitted.
pub open spec fn fitted_keys(
    lines: Seq<Line2d>,
    size: Point2d,
    ev: spec_fn(Arithmetic) -> Real,
) -> Seq<LineKey> {
    let fit = fit_of(lines, size, ev);
    lines.map_values(
        |line: Line2d|
            key_of(
                Line2d(fitted_point(line.0, fit, ev), fitted_point(line.1, fit, ev)),
                ev,
            ),
    )
}

/// Lines rounded to thousandths from ascending keys.
pub open spec fn lines_of(keys: Seq<LineKey>, ev: spec_fn(Arithmetic) -> Real) -> Seq<Line2d> {
    keys.map_values(|key: LineKey| line_of(key, ev))
}

/// Some lines are what others come to once they are fitted: rounded to
/// thousandths, sorted, and each once.
pub open spec fn fits_to(
    lines: Seq<Line2d>,
    size: Point2d,
    ev: spec_fn(Arithmetic) -> Real,
    fitted: Seq<Line2d>,
) -> bool {
    exists|keys: Seq<LineKey>| #[trigger]
        keys_ascend(keys) && same_keys(keys, fitted_keys(lines, size, ev)) && fitted == lines_of(
            keys,
            ev,
        )
}

/// The same lines occur in both, in whatever order and however often.
pub open spec fn same_lines(a: Seq<Line2d>, b: Seq<Line2d>) -> bool {
    &&& forall|i: int| 0 <= i < a.len() ==> b.contains(#[trigger] a[i])
    &&& forall|i: int| 0 <= i < b.len() ==> a.contains(#[trigger] b[i])
}

/// A value is the first coordinate of an end of a line.
pub open spec fn has_x(lines: Seq<Line2d>, x: Real) -> bool {
    exists|i: int| 0 <= i < lines.len() && ((#[trigger] lines[i]).0.0 == x || lines[i].1.0 == x)
}

/// A value is the second coordinate of an end of a line.
pub open spec fn has_y(lines: Seq<Line2d>, y: Real) -> bool {
    exists|i: int| 0 <= i < lines.len() && ((#[trigger] lines[i]).0.1 == y || lines[i].1.1 == y)
}

/// On neither axis are there a zero and a negative zero.
pub open spec fn zeros_agree(lines: Seq<Line2d>) -> bool {
    let zero = Real { bits: 0 };
    let negative = Real { bits: SIGN_BIT };
    &&& !(has_x(lines, zero) && has_x(lines, negative))
    &&& !(has_y(lines, zero) && has_y(lines, negative))
}

/// The limits of an extent are coordinates, where there are any.
proof fn lemma_extent_attained(lines: Seq<Line2d>)
    ensures
        ({
            let extent = extent_of(lines, false);
            &&& extent.min_x == no_extent().min_x || has_x(lines, extent.min_x)
            &&& extent.max_x == no_extent().max_x || has_x(lines, extent.max_x)
            &&& extent.min_y == no_extent().min_y || has_y(lines, extent.min_y)
            &&& extent.max_y == no_extent().max_y || has_y(lines, extent.max_y)
        }),
    decreases lines.len(),
{
    if lines.len() > 0 {
        let init = lines.drop_last();
        lemma_extent_attained(init);
        let before = extent_of(init, false);
        let last = lines.last();
        assert(lines[lines.len() - 1] == last);
        assert forall|x: Real| has_x(init, x) implies has_x(lines, x) by {
            let i = choose|i: int|
                0 <= i < init.len() && ((#[trigger] init[i]).0.0 == x || init[i].1.0 == x);
            assert(lines[i] == init[i]);
        }
        assert forall|y: Real| has_y(init, y) implies has_y(lines, y) by {
            let i = choose|i: int|
                0 <= i < init.len() && ((#[trigger] init[i]).0.1 == y || init[i].1.1 == y);
            assert(lines[i] == init[i]);
        }
        assert(has_x(lines, last.0.0) && has_x(lines, last.1.0));
        assert(has_y(lines, last.0.1) && has_y(lines, last.1.1));
    }
}

/// No limit of some lines is beyond that of others that hold them all.
proof fn lemma_extent_within(a: Seq<Line2d>, b: Seq<Line2d>)
    requires
        forall|i: int| 0 <= i < a.len() ==> b.contains(#[trigger] a[i]),
    ensures
        extent_of(b, false).min_x.at_most(extent_of(a, false).min_x),
        extent_of(a, false).max_x.at_most(extent_of(b, false).max_x),
        extent_of(b, false).min_y.at_most(extent_of(a, false).min_y),
        extent_of(a, false).max_y.at_most(extent_of(b, false).max_y),
{
    let one = extent_of(a, false);
    let two = extent_of(b, false);
    lemma_extent_attained(a);
    lemma_extent_is_number(a);
    lemma_extent_is_number(b);
    assert forall|x: Real| has_x(a, x) && !x.nan() implies two.min_x.at_most(x) && x.at_most(
        two.max_x,
    ) by {
        let i = choose|i: int|
            0 <= i < a.len() && ((#[trigger] a[i]).0.0 == x || a[i].1.0 == x);
        assert(b.contains(a[i]));
        let k = choose|k: int| 0 <= k < b.len() && b[k] == a[i];
        extent_covers_every_line(b, k);
    }
    assert forall|y: Real| has_y(a, y) && !y.nan() implies two.min_y.at_most(y) && y.at_most(
        two.max_y,
    ) by {
        let i = choose|i: int|
            0 <= i < a.len() && ((#[trigger] a[i]).0.1 == y || a[i].1.1 == y);
        assert(b.contains(a[i]));
        let k = choose|k: int| 0 <= k < b.len() && b[k] == a[i];
        extent_covers_every_line(b, k);
    }
}

/// A value that is another one in number but not in pattern is a zero.
proof fn lemma_same_number(a: Real, b: Real)
    requires
        a.at_most(b),
        b.at_most(a),
    ensures
        a == b || a.bits == 0 && b.bits == SIGN_BIT || a.bits == SIGN_BIT && b.bits == 0,
{
}

proof fn lemma_has_same(a: Seq<Line2d>, b: Seq<Line2d>)
    requires
        same_lines(a, b),
    ensures
        forall|x: Real| has_x(a, x) == has_x(b, x),
        forall|y: Real| has_y(a, y) == has_y(b, y),
{
    assert forall|x: Real| has_x(a, x) == has_x(b, x) by {
        if has_x(a, x) {
            let i = choose|i: int|
                0 <= i < a.len() && ((#[trigger] a[i]).0.0 == x || a[i].1.0 == x);
            assert(b.contains(a[i]));
        }
        if has_x(b, x) {
            let i = choose|i: int|
                0 <= i < b.len() && ((#[trigger] b[i]).0.0 == x || b[i].1.0 == x);
            assert(a.contains(b[i]));
        }
    }
    assert forall|y: Real| has_y(a, y) == has_y(b, y) by {
        if has_y(a, y) {
            let i = choose|i: int|
                0 <= i < a.len() && ((#[trigger] a[i]).0.1 == y || a[i].1.1 == y);
            assert(b.contains(a[i]));
        }
        if has_y(b, y) {
            let i = choose|i: int|
                0 <= i < b.len() && ((#[trigger] b[i]).0.1 == y || b[i].1.1 == y);
            assert(a.contains(b[i]));
        }
    }
}

/// What lines come to once they are fitted does not depend on their order, nor
/// on how often a line occurs.
pub proof fn fitting_ignores_order_and_repeats(
    a: Seq<Line2d>,
    b: Seq<Line2d>,
    size: Point2d,
    ev: spec_fn(Arithmetic) -> Real,
    fitted_a: Seq<Line2d>,
    fitted_b: Seq<Line2d>,
)
    requires
        same_lines(a, b),
        zeros_agree(a),
        fits_to(a, size, ev, fitted_a),
        fits_to(b, size, ev, fitted_b),
    ensures
        fitted_a == fitted_b,
{
    let one = extent_of(a, false);
    let two = extent_of(b, false);
    lemma_extent_within(a, b);
    lemma_extent_within(b, a);
    lemma_extent_attained(a);
    lemma_extent_attained(b);
    lemma_has_same(a, b);
    lemma_same_number(one.min_x, two.min_x);
    lemma_same_number(one.max_x, two.max_x);
    lemma_same_number(one.min_y, two.min_y);
    lemma_same_number(one.max_y, two.max_y);
    let zero = Real { bits: 0 };
    let negative = Real { bits: SIGN_BIT };
    assert(has_x(a, zero) == has_x(b, zero) && has_x(a, negative) == has_x(b, negative));
    assert(has_y(a, zero) == has_y(b, zero) && has_y(a, negative) == has_y(b, negative));
    assert(one.min_x == two.min_x);
    assert(one.max_x == two.max_x);
    assert(one.min_y == two.min_y);
    assert(one.max_y == two.max_y);
    assert(fit_of(a, size, ev) == fit_of(b, size, ev));
    let keys_a = choose|keys: Seq<LineKey>| #[trigger]
        keys_ascend(keys) && same_keys(keys, fitted_keys(a, size, ev)) && fitted_a == lines_of(
            keys,
            ev,
        );
    let keys_b = choose|keys: Seq<LineKey>| #[trigger]
        keys_ascend(keys) && same_keys(keys, fitted_keys(b, size, ev)) && fitted_b == lines_of(
            keys,
            ev,
        );
    lemma_keys_same(a, b, size, ev, keys_a, keys_b);
    lemma_keys_same(b, a, size, ev, keys_b, keys_a);
    ascending_keys_are_unique(keys_a, keys_b);
}

/// Fitting takes away repeats alone: nothing comes of nothing, something of
/// something, and never more lines than there were.
pub proof fn fitting_loses_no_drawing(
    lines: Seq<Line2d>,
    size: Point2d,
    ev: spec_fn(Arithmetic) -> Real,
    fitted: Seq<Line2d>,
)
    requires
        fits_to(lines, size, ev, fitted),
    ensures
        fitted.len() == 0 <==> lines.len() == 0,
        fitted.len() <= lines.len(),
{
    let all = fitted_keys(lines, size, ev);
    let keys = choose|keys: Seq<LineKey>| #[trigger]
        keys_ascend(keys) && same_keys(keys, all) && fitted == lines_of(keys, ev);
    if lines.len() > 0 {
        assert(keys.contains(all[0]));
    }
    if keys.len() > 0 {
        assert(all.contains(keys[0]));
    }
    assert(keys.no_duplicates()) by {
        assert forall|i: int, j: int| 0 <= i < keys.len() && 0 <= j < keys.len() && i != j implies keys[i]
            != keys[j] by {
            if i < j {
                assert(key_before(keys[i], keys[j]));
            } else {
                assert(key_before(keys[j], keys[i]));
            }
        }
    }
    keys.unique_seq_to_set();
    assert(keys.to_set().subset_of(all.to_set())) by {
        assert forall|key: LineKey| keys.to_set().contains(key) implies all.to_set().contains(
            key,
        ) by {
            let i = choose|i: int| 0 <= i < keys.len() && keys[i] == key;
            assert(all.contains(keys[i]));
        }
    }
    all.lemma_cardinality_of_set();
    vstd::set_lib::lemma_len_subset(keys.to_set(), all.to_set());
}

proof fn lemma_keys_same(
    a: Seq<Line2d>,
    b: Seq<Line2d>,
    size: Point2d,
    ev: spec_fn(Arithmetic) -> Real,
    keys_a: Seq<LineKey>,
    keys_b: Seq<LineKey>,
)
    requires
        same_lines(a, b),
        fit_of(a, size, ev) == fit_of(b, size, ev),
        same_keys(keys_a, fitted_keys(a, size, ev)),
        same_keys(keys_b, fitted_keys(b, size, ev)),
    ensures
        forall|i: int| 0 <= i < keys_a.len() ==> keys_b.contains(#[trigger] keys_a[i]),
{
    let one = fitted_keys(a, size, ev);
    let two = fitted_keys(b, size, ev);
    assert forall|i: int| 0 <= i < keys_a.len() implies keys_b.contains(#[trigger] keys_a[i]) by {
        assert(one.contains(keys_a[i]));
        let k = choose|k: int| 0 <= k < one.len() && one[k] == keys_a[i];
        assert(b.contains(a[k]));
        let m = choose|m: int| 0 <= m < b.len() && b[m] == a[k];
        assert(two[m] == one[k]);
        assert(keys_b.contains(two[m]));
    }
}

impl Lines2d {
    /// Scale and move the lines to lie centred within a size. Lines that agree
    /// to a thousandth are kept once, and the lines are sorted.
    pub fn fit_to<C: Fn(Arithmetic) -> Real>(self, size: Point2d, calc: &C) -> (r: Lines2d)
        requires
            calculates(*calc),
        ensures
            fits_to(self.0@, size, answers(*calc), r.0@),
    {
        let ghost ev = answers(*calc);
        let lines: Vec<Line2d> = self.0;
        let ghost all = fitted_keys(lines@, size, ev);
        let fitting: Fit = fit(&lines, size, calc);
        let mut keys: Vec<LineKey> = Vec::new();
        let mut i: usize = 0;
        while i < lines.len()
            invariant
                calculates(*calc),
                ev == answers(*calc),
                i <= lines@.len(),
                fitting == fit_of(lines@, size, ev),
                all == fitted_keys(lines@, size, ev),
                keys@ == all.subrange(0, i as int),
            decreases lines@.len() - i,
        {
            let start: Point2d = fit_point(lines[i].0, &fitting, calc);
            let end: Point2d = fit_point(lines[i].1, &fitting, calc);
            keys.push(
                (
                    (to_thousandths(start.0, calc), to_thousandths(start.1, calc)),
                    (to_thousandths(end.0, calc), to_thousandths(end.1, calc)),
                ),
            );
            i = i + 1;
            assert(keys@ =~= all.subrange(0, i as int));
        }
        assert(keys@ =~= all);
        let count: usize = keys.len();
        let sorted: Vec<LineKey> = sort_keys(&keys, 0, count);
        assert(keys@.subrange(0, count as int) =~= keys@);
        let ghost result = lines_of(sorted@, ev);
        let mut out: Vec<Line2d> = Vec::new();
        let mut k: usize = 0;
        while k < sorted.len()
            invariant
                calculates(*calc),
                ev == answers(*calc),
                k <= sorted@.len(),
                result == lines_of(sorted@, ev),
                out@ == result.subrange(0, k as int),
            decreases sorted@.len() - k,
        {
            let key: LineKey = sorted[k];
            out.push(
                Line2d(
                    (of_thousandths(key.0.0, calc), of_thousandths(key.0.1, calc)),
                    (of_thousandths(key.1.0, calc), of_thousandths(key.1.1, calc)),
                ),
            );
            k = k + 1;
            assert(out@ =~= result.subrange(0, k as int));
        }
        assert(out@ =~= result);
        assert(keys_ascend(sorted@));
        Lines2d(out)
    }
}

} // verus!
