//! Scenes as rows of braille characters.

use vstd::prelude::*;
use vstd::string::*;

use crate::edges::{
    collect_edges, collect_seen_edges, extent_of, measure, scene_edges, seen_edges, Extent,
};
use crate::geometry::{Line2d, Point2d, Primitive2d, Scene2d, Scene3d};
use crate::number::{answers, calculate, calculates, Arithmetic, Real};
use crate::visualize::{projected_shapes, shapes_2d, shapes_3d};

verus! {

/// The pattern of the smallest span, 1e-9.
pub const SMALLEST_SPAN_BITS: u64 = 0x3e11_2e0b_e826_d695;

/// The character of a code point, as `char::from_u32` gives it: there is one
/// unless the code is that of a surrogate or beyond the last plane.
pub assume_specification[ char::from_u32 ](code: u32) -> (r: Option<char>)
    ensures
        r is Some <==> (code < 0xd800 || 0xe000 <= code <= 0x10ffff),
        r matches Some(c) ==> c as u32 == code,
;

/// The texts of a scene, one to a line.
pub open spec fn text_lines(primitives: Seq<Primitive2d>) -> Seq<char>
    decreases primitives.len(),
{
    if primitives.len() == 0 {
        Seq::empty()
    } else {
        let before = text_lines(primitives.drop_last());
        match primitives.last() {
            Primitive2d::Text(text) => before + text.content@ + "\n"@,
            _ => before,
        }
    }
}

/// There is text in a scene.
pub open spec fn has_text(primitives: Seq<Primitive2d>) -> bool {
    exists|i: int| 0 <= i < primitives.len() && (#[trigger] primitives[i]) is Text
}

/// A size is at least two.
pub open spec fn at_least_two(n: usize) -> int {
    if n < 2 {
        2
    } else {
        n as int
    }
}

/// The bit of a dot within its cell.
pub open spec fn dot_bit(x: int, y: int) -> u8 {
    let (column, row) = (x % 2, y % 4);
    if row == 0 {
        if column == 0 { 1 } else { 8 }
    } else if row == 1 {
        if column == 0 { 2 } else { 16 }
    } else if row == 2 {
        if column == 0 { 4 } else { 32 }
    } else {
        if column == 0 { 64 } else { 128 }
    }
}

fn bit_of_dot(x: usize, y: usize) -> (r: u8)
    ensures
        r == dot_bit(x as int, y as int),
{
    let left: bool = x % 2 == 0;
    let row: usize = y % 4;
    if row == 0 {
        if left { 1 } else { 8 }
    } else if row == 1 {
        if left { 2 } else { 16 }
    } else if row == 2 {
        if left { 4 } else { 32 }
    } else {
        if left { 64 } else { 128 }
    }
}

/// The cell of a dot.
pub open spec fn cell_of(width: int, x: int, y: int) -> int {
    (y / 4) * width + x / 2
}

/// The cells with one more dot.
pub open spec fn dotted(cells: Seq<u8>, width: int, dot: (int, int)) -> Seq<u8> {
    let cell = cell_of(width, dot.0, dot.1);
    if 0 <= cell < cells.len() {
        cells.update(cell, cells[cell] | dot_bit(dot.0, dot.1))
    } else {
        cells
    }
}

/// The cells with some more dots.
pub open spec fn all_dotted(cells: Seq<u8>, width: int, dots: Seq<(int, int)>) -> Seq<u8>
    decreases dots.len(),
{
    if dots.len() == 0 {
        cells
    } else {
        dotted(all_dotted(cells, width, dots.drop_last()), width, dots.last())
    }
}

/// A dot is in a grid of cells.
pub open spec fn in_grid(width: int, height: int, x: int, y: int) -> bool {
    0 <= x < 2 * width && 0 <= y < 4 * height
}

proof fn lemma_cell_in_grid(width: int, height: int, x: int, y: int)
    requires
        in_grid(width, height, x, y),
        width > 0,
    ensures
        0 <= cell_of(width, x, y) < width * height,
{
    let (row, column) = (y / 4, x / 2);
    assert(0 <= row <= height - 1);
    assert(0 <= column <= width - 1);
    assert(0 <= row * width + column < width * height) by (nonlinear_arith)
        requires
            0 <= row <= height - 1,
            0 <= column <= width - 1,
    ;
}

pub fn set_dot(cells: &mut Vec<u8>, width: usize, x: usize, y: usize)
    requires
        cell_of(width as int, x as int, y as int) <= usize::MAX,
    ensures
        final(cells)@ == dotted(old(cells)@, width as int, (x as int, y as int)),
        final(cells)@.len() == old(cells)@.len(),
{
    assert(0 <= (y / 4) * width <= cell_of(width as int, x as int, y as int)) by (nonlinear_arith)
        requires
            cell_of(width as int, x as int, y as int) == (y / 4) * width + x / 2,
            x >= 0,
            y >= 0,
            width >= 0,
    ;
    let index: usize = (y / 4) * width + x / 2;
    if index < cells.len() {
        let bit: u8 = bit_of_dot(x, y);
        let cell: u8 = cells[index];
        cells[index] = cell | bit;
    }
}

/// A whole number so many steps of the way from one to another.
pub open spec fn between(a: int, b: int, step: int, steps: int) -> int {
    if a <= b {
        a + (b - a) * step / steps
    } else {
        a - (a - b) * step / steps
    }
}

/// How many steps a line takes from end to end.
pub open spec fn steps_of(start: (int, int), end: (int, int)) -> int {
    let dx = if start.0 <= end.0 { end.0 - start.0 } else { start.0 - end.0 };
    let dy = if start.1 <= end.1 { end.1 - start.1 } else { start.1 - end.1 };
    let longest = if dx < dy { dy } else { dx };
    if longest < 1 {
        1
    } else {
        longest
    }
}

/// The dots of a line.
pub open spec fn line_dots(start: (int, int), end: (int, int)) -> Seq<(int, int)> {
    let steps = steps_of(start, end);
    Seq::new(
        (steps + 1) as nat,
        |k: int| (between(start.0, end.0, k, steps), between(start.1, end.1, k, steps)),
    )
}

/// A line goes from its start to its end, and every dot of it lies between.
pub proof fn lines_reach_their_ends(start: (int, int), end: (int, int))
    ensures
        line_dots(start, end).first() == start,
        line_dots(start, end).last() == end,
        forall|k: int|
            0 <= k < line_dots(start, end).len() ==> {
                let dot = #[trigger] line_dots(start, end)[k];
                &&& start.0 <= dot.0 <= end.0 || end.0 <= dot.0 <= start.0
                &&& start.1 <= dot.1 <= end.1 || end.1 <= dot.1 <= start.1
            },
{
    let steps = steps_of(start, end);
    lemma_between(start.0, end.0, 0, steps);
    lemma_between(start.1, end.1, 0, steps);
    lemma_between(start.0, end.0, steps, steps);
    lemma_between(start.1, end.1, steps, steps);
    assert forall|k: int| 0 <= k < line_dots(start, end).len() implies {
        let dot = #[trigger] line_dots(start, end)[k];
        &&& start.0 <= dot.0 <= end.0 || end.0 <= dot.0 <= start.0
        &&& start.1 <= dot.1 <= end.1 || end.1 <= dot.1 <= start.1
    } by {
        lemma_between(start.0, end.0, k, steps);
        lemma_between(start.1, end.1, k, steps);
    }
}

proof fn lemma_between(a: int, b: int, step: int, steps: int)
    requires
        0 <= step <= steps,
        steps > 0,
    ensures
        a <= between(a, b, step, steps) <= b || b <= between(a, b, step, steps) <= a,
        step == 0 ==> between(a, b, step, steps) == a,
        step == steps ==> between(a, b, step, steps) == b,
{
    let d = if a <= b { b - a } else { a - b };
    assert(0 <= d * step / steps <= d && (step == 0 ==> d * step / steps == 0) && (step == steps
        ==> d * step / steps == d)) by (nonlinear_arith)
        requires
            0 <= step <= steps,
            steps > 0,
            d >= 0,
    ;
}

/// Where a coordinate falls on a grid of so many dots.
pub open spec fn grid_place(
    above: Real,
    span: Real,
    dots: usize,
    ev: spec_fn(Arithmetic) -> Real,
) -> int {
    ev(
        Arithmetic::Product(
            ev(Arithmetic::Quotient(above, span)),
            ev(Arithmetic::Count((dots - 1) as usize)),
        ),
    ).nearest()
}

fn place_on_grid<C: Fn(Arithmetic) -> Real>(above: Real, span: Real, dots: usize, calc: &C) -> (r:
    i64)
    requires
        calculates(*calc),
        dots > 0,
    ensures
        r == grid_place(above, span, dots, answers(*calc)),
{
    let ratio: Real = calculate(calc, Arithmetic::Quotient(above, span));
    let last: Real = calculate(calc, Arithmetic::Count(dots - 1));
    calculate(calc, Arithmetic::Product(ratio, last)).to_nearest()
}

/// The distance between two limits, but not too small a one.
pub open spec fn span_of(low: Real, high: Real, ev: spec_fn(Arithmetic) -> Real) -> Real {
    ev(Arithmetic::Difference(high, low)).upper(Real { bits: SMALLEST_SPAN_BITS })
}

/// The dot of a point on a grid.
pub open spec fn dot_of(
    point: Point2d,
    extent: Extent,
    width: int,
    height: int,
    ev: spec_fn(Arithmetic) -> Real,
) -> (int, int) {
    (
        grid_place(
            ev(Arithmetic::Difference(point.0, extent.min_x)),
            span_of(extent.min_x, extent.max_x, ev),
            (2 * width) as usize,
            ev,
        ),
        grid_place(
            ev(Arithmetic::Difference(extent.max_y, point.1)),
            span_of(extent.min_y, extent.max_y, ev),
            (4 * height) as usize,
            ev,
        ),
    )
}

/// The dots of some lines, one line after the other.
pub open spec fn drawing_dots(
    lines: Seq<Line2d>,
    extent: Extent,
    width: int,
    height: int,
    ev: spec_fn(Arithmetic) -> Real,
) -> Seq<(int, int)>
    decreases lines.len(),
{
    if lines.len() == 0 {
        Seq::empty()
    } else {
        drawing_dots(lines.drop_last(), extent, width, height, ev) + line_dots(
            dot_of(lines.last().0, extent, width, height, ev),
            dot_of(lines.last().1, extent, width, height, ev),
        )
    }
}

/// Both ends of a line are on the grid.
pub open spec fn line_on_grid(
    line: Line2d,
    extent: Extent,
    width: int,
    height: int,
    ev: spec_fn(Arithmetic) -> Real,
) -> bool {
    let start = dot_of(line.0, extent, width, height, ev);
    let end = dot_of(line.1, extent, width, height, ev);
    in_grid(width, height, start.0, start.1) && in_grid(width, height, end.0, end.1)
}

/// All ends of some lines are on the grid.
pub open spec fn on_grid(
    lines: Seq<Line2d>,
    extent: Extent,
    width: int,
    height: int,
    ev: spec_fn(Arithmetic) -> Real,
) -> bool {
    forall|i: int|
        0 <= i < lines.len() ==> line_on_grid(#[trigger] lines[i], extent, width, height, ev)
}

/// A character shows a cell: the patterns follow U+2800.
pub open spec fn shows_cell(c: char, cell: u8) -> bool {
    c as u32 == 0x2800 + cell
}

/// The character that shows a cell.
pub open spec fn braille(cell: u8) -> char {
    choose|c: char| shows_cell(c, cell)
}

/// One row of cells as characters.
pub open spec fn row_text(cells: Seq<u8>) -> Seq<char> {
    cells.map_values(|cell: u8| braille(cell))
}

/// The first rows of cells, each ended by a line break.
pub open spec fn rows_text(cells: Seq<u8>, width: int, rows: int) -> Seq<char>
    decreases rows,
{
    if rows <= 0 {
        Seq::empty()
    } else {
        rows_text(cells, width, rows - 1) + row_text(
            cells.subrange((rows - 1) * width, rows * width),
        ) + "\n"@
    }
}

/// What a scene looks like in a terminal: its text, where there is any, and
/// else its lines as dots. Lines without width are not seen, but the drawing is
/// fitted with them. `None` stands for a drawing whose dots a
/// calculation has put beside the grid.
pub open spec fn tui_text(
    primitives: Seq<Primitive2d>,
    size: (usize, usize),
    ev: spec_fn(Arithmetic) -> Real,
) -> Option<Seq<char>> {
    if has_text(primitives) {
        Some(text_lines(primitives))
    } else {
        let fitted = scene_edges(shapes_2d(primitives));
        let lines = seen_edges(shapes_2d(primitives));
        if fitted.len() == 0 {
            Some(Seq::empty())
        } else {
            let (width, height) = (at_least_two(size.0), at_least_two(size.1));
            let extent = extent_of(fitted, false);
            if on_grid(lines, extent, width, height, ev) {
                let blank = Seq::new((width * height) as nat, |i: int| 0u8);
                Some(
                    rows_text(
                        all_dotted(
                            blank,
                            width,
                            drawing_dots(lines, extent, width, height, ev),
                        ),
                        width,
                        height,
                    ),
                )
            } else {
                None
            }
        }
    }
}

fn collect_text(primitives: &Vec<Primitive2d>) -> (r: Option<String>)
    ensures
        match r {
            Some(text) => has_text(primitives@) && text@ == text_lines(primitives@),
            None => !has_text(primitives@),
        },
{
    let mut found: bool = false;
    let mut out: String = String::new();
    let mut i: usize = 0;
    assert(out@ =~= text_lines(primitives@.subrange(0, 0)));
    while i < primitives.len()
        invariant
            i <= primitives@.len(),
            out@ == text_lines(primitives@.subrange(0, i as int)),
            found ==> has_text(primitives@),
            !found ==> forall|k: int| 0 <= k < i ==> !((#[trigger] primitives@[k]) is Text),
        decreases primitives@.len() - i,
    {
        assert(primitives@.subrange(0, i + 1).drop_last() =~= primitives@.subrange(0, i as int));
        match &primitives[i] {
            Primitive2d::Text(text) => {
                found = true;
                assert(primitives@[i as int] is Text);
                out.append(text.content.as_str());
                out.append("\n");
            },
            _ => {},
        }
        i = i + 1;
    }
    assert(primitives@.subrange(0, i as int) =~= primitives@);
    if found {
        Some(out)
    } else {
        None
    }
}

fn step_between(a: usize, b: usize, step: usize, steps: usize) -> (r: usize)
    requires
        step <= steps,
        steps > 0,
    ensures
        r == between(a as int, b as int, step as int, steps as int),
{
    let far: u128 = if a <= b {
        (b - a) as u128
    } else {
        (a - b) as u128
    };
    proof {
        lemma_between(a as int, b as int, step as int, steps as int);
        assert(far * step <= 0xffff_ffff_ffff_ffff * 0xffff_ffff_ffff_ffff) by (nonlinear_arith)
            requires
                0 <= far <= 0xffff_ffff_ffff_ffff,
                0 <= step <= 0xffff_ffff_ffff_ffff,
        ;
        assert(far * step / steps as int <= far) by (nonlinear_arith)
            requires
                0 <= step <= steps,
                steps > 0,
                far >= 0,
        ;
    }
    let part: u128 = far * (step as u128) / (steps as u128);
    if a <= b {
        a + part as usize
    } else {
        a - part as usize
    }
}

/// Draw one line.
fn draw_line(
    cells: &mut Vec<u8>,
    width: usize,
    height: usize,
    start: (usize, usize),
    end: (usize, usize),
)
    requires
        width > 0,
        old(cells)@.len() == width * height,
        in_grid(width as int, height as int, start.0 as int, start.1 as int),
        in_grid(width as int, height as int, end.0 as int, end.1 as int),
    ensures
        final(cells)@.len() == old(cells)@.len(),
        final(cells)@ == all_dotted(
            old(cells)@,
            width as int,
            line_dots((start.0 as int, start.1 as int), (end.0 as int, end.1 as int)),
        ),
{
    let dx: usize = if start.0 <= end.0 {
        end.0 - start.0
    } else {
        start.0 - end.0
    };
    let dy: usize = if start.1 <= end.1 {
        end.1 - start.1
    } else {
        start.1 - end.1
    };
    let longest: usize = if dx < dy {
        dy
    } else {
        dx
    };
    let steps: usize = if longest < 1 {
        1
    } else {
        longest
    };
    let ghost (s, e) = ((start.0 as int, start.1 as int), (end.0 as int, end.1 as int));
    let ghost dots = line_dots(s, e);
    let ghost blank = cells@;
    assert(steps == steps_of(s, e));
    let mut step: usize = 0;
    let mut done: bool = false;
    assert(dots.subrange(0, 0) =~= Seq::empty());
    while !done
        invariant
            width > 0,
            cells@.len() == blank.len(),
            blank.len() == width * height,
            in_grid(width as int, height as int, start.0 as int, start.1 as int),
            in_grid(width as int, height as int, end.0 as int, end.1 as int),
            s == (start.0 as int, start.1 as int),
            e == (end.0 as int, end.1 as int),
            steps == steps_of(s, e),
            dots == line_dots(s, e),
            step <= steps,
            cells@ == all_dotted(
                blank,
                width as int,
                dots.subrange(0, if done { steps + 1 } else { step as int }),
            ),
        decreases (if done { 0int } else { steps - step + 1 }),
    {
        let x: usize = step_between(start.0, end.0, step, steps);
        let y: usize = step_between(start.1, end.1, step, steps);
        proof {
            lemma_between(s.0, e.0, step as int, steps as int);
            lemma_between(s.1, e.1, step as int, steps as int);
            lemma_cell_in_grid(width as int, height as int, x as int, y as int);
            assert(dots[step as int] == (x as int, y as int));
            assert(dots.subrange(0, step + 1).drop_last() =~= dots.subrange(0, step as int));
        }
        let total: usize = cells.len();
        assert(cell_of(width as int, x as int, y as int) < total);
        set_dot(cells, width, x, y);
        if step == steps {
            done = true;
        } else {
            step = step + 1;
        }
    }
    assert(dots.subrange(0, steps + 1) =~= dots);
}

proof fn lemma_one_character(a: char, b: char)
    requires
        a as u32 == b as u32,
    ensures
        a == b,
{
}

fn push_row(out: &mut String, cells: &Vec<u8>, start: usize, end: usize)
    requires
        start <= end <= cells@.len(),
    ensures
        final(out)@ == old(out)@ + row_text(cells@.subrange(start as int, end as int)),
{
    let ghost all = row_text(cells@.subrange(start as int, end as int));
    let ghost before = out@;
    let mut i: usize = start;
    assert(before + all.subrange(0, 0) =~= before);
    while i < end
        invariant
            start <= i <= end,
            end <= cells@.len(),
            all == row_text(cells@.subrange(start as int, end as int)),
            out@ == before + all.subrange(0, i - start),
        decreases end - i,
    {
        let code: u32 = 0x2800 + cells[i] as u32;
        match char::from_u32(code) {
            Some(c) => {
                assert(cells@.subrange(start as int, end as int)[i - start] == cells@[i as int]);
                assert(shows_cell(c, cells@[i as int]));
                proof {
                    lemma_one_character(c, braille(cells@[i as int]));
                }
                out.push(c);
            },
            None => {},
        }
        i = i + 1;
        assert(out@ =~= before + all.subrange(0, i - start));
    }
    assert(all.subrange(0, i - start) =~= all);
}

proof fn lemma_dots_join(cells: Seq<u8>, width: int, a: Seq<(int, int)>, b: Seq<(int, int)>)
    ensures
        all_dotted(cells, width, a + b) == all_dotted(all_dotted(cells, width, a), width, b),
    decreases b.len(),
{
    if b.len() == 0 {
        assert(a + b =~= a);
    } else {
        assert((a + b).drop_last() =~= a + b.drop_last());
        lemma_dots_join(cells, width, a, b.drop_last());
    }
}

/// Show a scene as text of so many columns and rows.
///
/// `None` when a calculation puts a dot beside the grid, which the rounding of
/// binary64 never does.
pub fn encode<C: Fn(Arithmetic) -> Real>(scene: &Scene2d, size: (usize, usize), calc: &C) -> (r:
    Option<String>)
    requires
        calculates(*calc),
        2 * at_least_two(size.0) <= usize::MAX,
        4 * at_least_two(size.1) <= usize::MAX,
        at_least_two(size.0) * at_least_two(size.1) <= usize::MAX,
    ensures
        match r {
            Some(text) => tui_text(scene.primitives@, size, answers(*calc)) == Some(text@),
            None => tui_text(scene.primitives@, size, answers(*calc)) is None,
        },
{
    match collect_text(&scene.primitives) {
        Some(text) => {
            return Some(text);
        },
        None => {},
    }
    let fitted: Vec<Line2d> = collect_edges(&scene.primitives);
    if fitted.len() == 0 {
        let out: String = String::new();
        assert(out@ =~= Seq::empty());
        return Some(out);
    }
    let ghost ev = answers(*calc);
    let width: usize = if size.0 < 2 {
        2
    } else {
        size.0
    };
    let height: usize = if size.1 < 2 {
        2
    } else {
        size.1
    };
    let extent: Extent = measure(&fitted, false);
    let lines: Vec<Line2d> = collect_seen_edges(&scene.primitives);
    let smallest: Real = Real { bits: SMALLEST_SPAN_BITS };
    let span_x: Real = calculate(calc, Arithmetic::Difference(extent.max_x, extent.min_x)).max(
        smallest,
    );
    let span_y: Real = calculate(calc, Arithmetic::Difference(extent.max_y, extent.min_y)).max(
        smallest,
    );
    let dots_w: usize = width * 2;
    let dots_h: usize = height * 4;
    let count: usize = width * height;
    let ghost blank = Seq::new((width * height) as nat, |i: int| 0u8);
    let mut cells: Vec<u8> = Vec::new();
    while cells.len() < count
        invariant
            cells@.len() <= count,
            forall|i: int| 0 <= i < cells@.len() ==> #[trigger] cells@[i] == 0,
        decreases count - cells@.len(),
    {
        cells.push(0);
    }
    assert(cells@ =~= blank);
    let ghost all = lines@;
    let mut i: usize = 0;
    assert(drawing_dots(
        all.subrange(0, 0),
        extent,
        width as int,
        height as int,
        ev,
    ) =~= Seq::empty());
    while i < lines.len()
        invariant
            calculates(*calc),
            ev == answers(*calc),
            all == lines@,
            all == seen_edges(shapes_2d(scene.primitives@)),
            scene_edges(shapes_2d(scene.primitives@)).len() > 0,
            !has_text(scene.primitives@),
            extent == extent_of(scene_edges(shapes_2d(scene.primitives@)), false),
            width == at_least_two(size.0),
            height == at_least_two(size.1),
            i <= all.len(),
            width >= 2,
            height >= 2,
            dots_w == 2 * width,
            dots_h == 4 * height,
            blank.len() == width * height,
            span_x == span_of(extent.min_x, extent.max_x, ev),
            span_y == span_of(extent.min_y, extent.max_y, ev),
            cells@.len() == blank.len(),
            forall|k: int|
                0 <= k < i ==> line_on_grid(
                    #[trigger] all[k],
                    extent,
                    width as int,
                    height as int,
                    ev,
                ),
            cells@ == all_dotted(
                blank,
                width as int,
                drawing_dots(
                    all.subrange(0, i as int),
                    extent,
                    width as int,
                    height as int,
                    ev,
                ),
            ),
        decreases all.len() - i,
    {
        let line: Line2d = lines[i];
        let left: Real = calculate(calc, Arithmetic::Difference(line.0.0, extent.min_x));
        let top: Real = calculate(calc, Arithmetic::Difference(extent.max_y, line.0.1));
        let right: Real = calculate(calc, Arithmetic::Difference(line.1.0, extent.min_x));
        let low: Real = calculate(calc, Arithmetic::Difference(extent.max_y, line.1.1));
        let x0: i64 = place_on_grid(left, span_x, dots_w, calc);
        let y0: i64 = place_on_grid(top, span_y, dots_h, calc);
        let x1: i64 = place_on_grid(right, span_x, dots_w, calc);
        let y1: i64 = place_on_grid(low, span_y, dots_h, calc);
        let ghost start = dot_of(all[i as int].0, extent, width as int, height as int, ev);
        let ghost end = dot_of(all[i as int].1, extent, width as int, height as int, ev);
        assert(start == (x0 as int, y0 as int));
        assert(end == (x1 as int, y1 as int));
        if x0 < 0 || y0 < 0 || x1 < 0 || y1 < 0 || x0 as u64 >= dots_w as u64 || y0 as u64
            >= dots_h as u64 || x1 as u64 >= dots_w as u64 || y1 as u64 >= dots_h as u64 {
            assert(!line_on_grid(all[i as int], extent, width as int, height as int, ev));
            assert(!on_grid(all, extent, width as int, height as int, ev));
            return None;
        }
        let ghost before = drawing_dots(
            all.subrange(0, i as int),
            extent,
            width as int,
            height as int,
            ev,
        );
        draw_line(
            &mut cells,
            width,
            height,
            (x0 as usize, y0 as usize),
            (x1 as usize, y1 as usize),
        );
        proof {
            assert(all.subrange(0, i + 1).drop_last() =~= all.subrange(0, i as int));
            lemma_dots_join(blank, width as int, before, line_dots(start, end));
        }
        i = i + 1;
    }
    assert(all.subrange(0, i as int) =~= all);
    let ghost drawn = cells@;
    let mut out: String = String::new();
    let mut row: usize = 0;
    let mut at: usize = 0;
    assert(out@ =~= rows_text(drawn, width as int, 0));
    while row < height
        invariant
            drawn == cells@,
            drawn.len() == width * height,
            width * height <= usize::MAX,
            row <= height,
            at == row * width,
            out@ == rows_text(drawn, width as int, row as int),
        decreases height - row,
    {
        proof {
            assert((row + 1) * width == at + width && (row + 1) * width <= width * height)
                by (nonlinear_arith)
                requires
                    at == row * width,
                    row + 1 <= height,
            ;
        }
        push_row(&mut out, &cells, at, at + width);
        out.append("\n");
        at = at + width;
        row = row + 1;
    }
    Some(out)
}

/// Show retained three-dimensional geometry using the canonical static view.
pub fn encode_3d<C: Fn(Arithmetic) -> Real>(scene: &Scene3d, size: (usize, usize), calc: &C) -> (r:
    Option<String>)
    requires
        calculates(*calc),
        2 * at_least_two(size.0) <= usize::MAX,
        4 * at_least_two(size.1) <= usize::MAX,
        at_least_two(size.0) * at_least_two(size.1) <= usize::MAX,
    ensures
        exists|flat: Scene2d|
            shapes_2d(flat.primitives@) == projected_shapes(
                shapes_3d(scene.primitives@),
                answers(*calc),
            ) && match r {
                Some(text) => #[trigger] tui_text(flat.primitives@, size, answers(*calc)) == Some(
                    text@,
                ),
                None => tui_text(flat.primitives@, size, answers(*calc)) is None,
            },
{
    let flat: Scene2d = scene.canonical_projection(calc);
    encode(&flat, size, calc)
}

/// A dot is set.
pub open spec fn shows(cells: Seq<u8>, width: int, x: int, y: int) -> bool {
    cells[cell_of(width, x, y)] & dot_bit(x, y) != 0
}

proof fn lemma_bits(c: u8, a: u8, b: u8)
    requires
        a == 1 || a == 2 || a == 4 || a == 8 || a == 16 || a == 32 || a == 64 || a == 128,
        b == 1 || b == 2 || b == 4 || b == 8 || b == 16 || b == 32 || b == 64 || b == 128,
    ensures
        ((c | a) & b != 0) == (c & b != 0 || a == b),
        0u8 & b == 0,
{
    assert(((c | a) & b != 0) == (c & b != 0 || a == b)) by (bit_vector)
        requires
            a == 1 || a == 2 || a == 4 || a == 8 || a == 16 || a == 32 || a == 64 || a == 128,
            b == 1 || b == 2 || b == 4 || b == 8 || b == 16 || b == 32 || b == 64 || b == 128,
    ;
    assert(0u8 & b == 0) by (bit_vector);
}

proof fn lemma_same_cell(width: int, height: int, a: (int, int), b: (int, int))
    requires
        in_grid(width, height, a.0, a.1),
        in_grid(width, height, b.0, b.1),
        width > 0,
        cell_of(width, a.0, a.1) == cell_of(width, b.0, b.1),
        dot_bit(a.0, a.1) == dot_bit(b.0, b.1),
    ensures
        a == b,
{
    let (ra, ca) = (a.1 / 4, a.0 / 2);
    let (rb, cb) = (b.1 / 4, b.0 / 2);
    assert(ra == rb && ca == cb) by (nonlinear_arith)
        requires
            ra * width + ca == rb * width + cb,
            0 <= ca < width,
            0 <= cb < width,
    ;
    assert(a.1 % 4 == b.1 % 4 && a.0 % 2 == b.0 % 2);
}

/// A dot shows on a grid exactly when a drawing has that dot.
pub proof fn only_drawn_dots_show(
    width: int,
    height: int,
    dots: Seq<(int, int)>,
    x: int,
    y: int,
)
    requires
        width > 0,
        in_grid(width, height, x, y),
        forall|i: int|
            0 <= i < dots.len() ==> in_grid(
                width,
                height,
                (#[trigger] dots[i]).0,
                dots[i].1,
            ),
    ensures
        ({
            let blank = Seq::new((width * height) as nat, |i: int| 0u8);
            let cells = all_dotted(blank, width, dots);
            &&& cells.len() == blank.len()
            &&& shows(cells, width, x, y) <==> dots.contains((x, y))
        }),
    decreases dots.len(),
{
    let blank = Seq::new((width * height) as nat, |i: int| 0u8);
    lemma_cell_in_grid(width, height, x, y);
    lemma_bits(0, 1, dot_bit(x, y));
    if dots.len() > 0 {
        let init = dots.drop_last();
        let dot = dots.last();
        assert(dot == dots[dots.len() - 1]);
        assert forall|i: int| 0 <= i < init.len() implies in_grid(
            width,
            height,
            (#[trigger] init[i]).0,
            init[i].1,
        ) by {
            assert(init[i] == dots[i]);
        }
        only_drawn_dots_show(width, height, init, x, y);
        let before = all_dotted(blank, width, init);
        lemma_cell_in_grid(width, height, dot.0, dot.1);
        let cell = cell_of(width, x, y);
        if cell == cell_of(width, dot.0, dot.1) {
            lemma_bits(before[cell], dot_bit(dot.0, dot.1), dot_bit(x, y));
            if dot_bit(dot.0, dot.1) == dot_bit(x, y) {
                lemma_same_cell(width, height, dot, (x, y));
            }
        }
        if dots.contains((x, y)) && dot != (x, y) {
            let k = choose|k: int| 0 <= k < dots.len() && dots[k] == (x, y);
            assert(init[k] == (x, y));
        }
        if init.contains((x, y)) {
            let k = choose|k: int| 0 <= k < init.len() && init[k] == (x, y);
            assert(dots[k] == (x, y));
        }
    }
}

} // verus!
