//! Adjacent-generation turtle line correspondence.
//!
//! Derivation owns module parentage, turtle visualization owns the indexed
//! lines, and this module combines those products.

use vstd::prelude::*;
use vstd::string::*;

use crate::error::{exhausted, resource_error, Failure, VisualizeError};
use crate::geometry::{Line2d, Point2d, StyledLine2d};
use crate::number::{answers, calculate, calculates, Arithmetic, Real, HALF_BITS, ONE_BITS};
use crate::stream_2d::IndexedModulePosition2d;

verus! {

/// How many modules each module of a generation was rewritten to.
#[derive(Debug)]
pub struct RewriteLineage {
    pub successors: Vec<usize>,
}

/// The sum of the first counts.
pub open spec fn sum_before(counts: Seq<usize>, end: int) -> int
    decreases end,
{
    if end <= 0 {
        0
    } else {
        sum_before(counts, end - 1) + counts[end - 1]
    }
}

proof fn lemma_sums_grow(counts: Seq<usize>, a: int, b: int)
    requires
        0 <= a <= b <= counts.len(),
    ensures
        0 <= sum_before(counts, a) <= sum_before(counts, b),
    decreases b,
{
    if b > a {
        lemma_sums_grow(counts, a, b - 1);
    } else if a > 0 {
        lemma_sums_grow(counts, a - 1, b - 1);
    }
}

impl RewriteLineage {
    /// How many modules the rewritten generation has.
    pub open spec fn outputs(self) -> int {
        sum_before(self.successors@, self.successors@.len() as int)
    }

    pub fn new(successors: Vec<usize>) -> (r: RewriteLineage)
        ensures
            r.successors == successors,
    {
        RewriteLineage { successors }
    }

    pub fn input_modules(&self) -> (r: usize)
        ensures
            r == self.successors@.len(),
    {
        self.successors.len()
    }

    /// The number of rewritten modules, when it is a number that can be held.
    pub fn output_modules(&self) -> (r: Option<usize>)
        ensures
            match r {
                Some(count) => count == self.outputs(),
                None => self.outputs() > usize::MAX,
            },
    {
        let mut total: usize = 0;
        let mut i: usize = 0;
        while i < self.successors.len()
            invariant
                i <= self.successors@.len(),
                total == sum_before(self.successors@, i as int),
            decreases self.successors@.len() - i,
        {
            match total.checked_add(self.successors[i]) {
                Some(sum) => {
                    total = sum;
                },
                None => {
                    proof {
                        lemma_sums_grow(
                            self.successors@,
                            i + 1,
                            self.successors@.len() as int,
                        );
                    }
                    return None;
                },
            }
            i = i + 1;
        }
        Some(total)
    }
}

/// A turtle line tagged with the depth-first module index that emitted it.
#[derive(Debug, Clone, Copy, PartialEq, Eq)]
pub struct IndexedLine2d {
    pub module_index: usize,
    pub line: StyledLine2d,
}

/// Generation coordinate system used by one morph endpoint.
#[derive(Debug, Clone, Copy, PartialEq, Eq, Structural)]
pub enum MorphCoordinateSpace {
    Source,
    Target,
}

impl MorphCoordinateSpace {
    pub open spec fn other(self) -> MorphCoordinateSpace {
        match self {
            MorphCoordinateSpace::Source => MorphCoordinateSpace::Target,
            MorphCoordinateSpace::Target => MorphCoordinateSpace::Source,
        }
    }

    pub fn reversed(self) -> (r: MorphCoordinateSpace)
        ensures
            r == self.other(),
    {
        match self {
            MorphCoordinateSpace::Source => MorphCoordinateSpace::Target,
            MorphCoordinateSpace::Target => MorphCoordinateSpace::Source,
        }
    }
}

/// One independently interpolated piece of an adjacent-generation transition.
#[derive(Debug, Clone, Copy, PartialEq, Eq)]
pub struct MorphLine2d {
    pub source: StyledLine2d,
    pub target: StyledLine2d,
    pub source_space: MorphCoordinateSpace,
    pub target_space: MorphCoordinateSpace,
    pub source_opacity: Real,
    pub target_opacity: Real,
    /// Full source line used to keep subdivided pieces in the parent's color.
    pub source_palette_line: Line2d,
    /// Target descendant used for its final palette position.
    pub target_palette_line: Line2d,
}

impl MorphLine2d {
    /// The morph in the other direction.
    pub open spec fn backwards(self) -> MorphLine2d {
        MorphLine2d {
            source: self.target,
            target: self.source,
            source_space: self.target_space.other(),
            target_space: self.source_space.other(),
            source_opacity: self.target_opacity,
            target_opacity: self.source_opacity,
            source_palette_line: self.target_palette_line,
            target_palette_line: self.source_palette_line,
        }
    }

    pub fn reversed(self) -> (r: MorphLine2d)
        ensures
            r == self.backwards(),
    {
        MorphLine2d {
            source: self.target,
            target: self.source,
            source_space: self.target_space.reversed(),
            target_space: self.source_space.reversed(),
            source_opacity: self.target_opacity,
            target_opacity: self.source_opacity,
            source_palette_line: self.target_palette_line,
            target_palette_line: self.source_palette_line,
        }
    }
}

/// Indices grow from line to line and stay below the module count.
pub open spec fn indices_valid(lines: Seq<IndexedLine2d>, module_count: int) -> bool {
    &&& forall|i: int| 0 <= i < lines.len() ==> (#[trigger] lines[i]).module_index < module_count
    &&& forall|i: int, j: int|
        0 <= i < j < lines.len() ==> (#[trigger] lines[i]).module_index < (
        #[trigger] lines[j]).module_index
}

/// There is one finite position for every module, in order.
pub open spec fn positions_valid(
    positions: Seq<IndexedModulePosition2d>,
    module_count: int,
) -> bool {
    &&& positions.len() == module_count
    &&& forall|i: int|
        0 <= i < positions.len() ==> (#[trigger] positions[i]).module_index == i
            && positions[i].position.0.finite() && positions[i].position.1.finite()
}

/// A failure that names what is wrong with the lineage.
pub open spec fn lineage_fault(reason: Seq<char>) -> Failure {
    Failure::InvalidConfiguration("invalid rewrite lineage: "@ + reason)
}

fn invalid_lineage(reason: &'static str) -> (r: VisualizeError)
    ensures
        r@ == lineage_fault(reason@),
{
    let mut message: String = "invalid rewrite lineage: ".to_owned();
    message.append(reason);
    VisualizeError::InvalidConfiguration(message)
}

fn validate_indices(lines: &[IndexedLine2d], module_count: usize) -> (r: bool)
    ensures
        r == indices_valid(lines@, module_count as int),
{
    let mut i: usize = 0;
    while i < lines.len()
        invariant
            i <= lines@.len(),
            indices_valid(lines@.subrange(0, i as int), module_count as int),
        decreases lines@.len() - i,
    {
        let ghost part = lines@.subrange(0, i as int);
        if lines[i].module_index >= module_count {
            assert(lines@[i as int].module_index >= module_count);
            return false;
        }
        if i > 0 && lines[i].module_index <= lines[i - 1].module_index {
            assert(lines@[i - 1].module_index >= lines@[i as int].module_index);
            return false;
        }
        let ghost next = lines@.subrange(0, i + 1);
        assert(indices_valid(next, module_count as int)) by {
            assert forall|a: int| 0 <= a < next.len() implies (#[trigger] next[a]).module_index
                < module_count by {
                if a < i {
                    assert(next[a] == part[a]);
                }
            }
            assert forall|a: int, b: int| 0 <= a < b < next.len() implies (
            #[trigger] next[a]).module_index < (#[trigger] next[b]).module_index by {
                assert(next[a] == part[a]);
                if b < i {
                    assert(next[b] == part[b]);
                } else if a < i - 1 {
                    assert(part[a].module_index < part[i - 1].module_index);
                }
            }
        }
        i = i + 1;
    }
    assert(lines@.subrange(0, i as int) =~= lines@);
    true
}

fn validate_positions(positions: &[IndexedModulePosition2d], module_count: usize) -> (r: bool)
    ensures
        r == positions_valid(positions@, module_count as int),
{
    if positions.len() != module_count {
        return false;
    }
    let mut i: usize = 0;
    while i < positions.len()
        invariant
            i <= positions@.len(),
            forall|j: int|
                0 <= j < i ==> (#[trigger] positions@[j]).module_index == j
                    && positions@[j].position.0.finite() && positions@[j].position.1.finite(),
        decreases positions@.len() - i,
    {
        let position: IndexedModulePosition2d = positions[i];
        if position.module_index != i || !position.position.0.is_finite()
            || !position.position.1.is_finite() {
            assert(positions@[i as int] == position);
            return false;
        }
        i = i + 1;
    }
    true
}

/// The lines of the modules in a range.
pub open spec fn lines_between(
    lines: Seq<IndexedLine2d>,
    low: int,
    high: int,
) -> Seq<IndexedLine2d>
    decreases lines.len(),
{
    if lines.len() == 0 {
        Seq::empty()
    } else {
        let before = lines_between(lines.drop_last(), low, high);
        if low <= lines.last().module_index < high {
            before.push(lines.last())
        } else {
            before
        }
    }
}

/// The line of a module, if it has one.
pub open spec fn line_at(lines: Seq<IndexedLine2d>, index: int) -> Option<StyledLine2d> {
    let found = lines_between(lines, index, index + 1);
    if found.len() > 0 {
        Some(found[0].line)
    } else {
        None
    }
}

/// The point that divides a line in the ratio of two counts.
pub open spec fn point_on(
    line: Line2d,
    numerator: usize,
    denominator: usize,
    ev: spec_fn(Arithmetic) -> Real,
) -> Point2d {
    let progress = ev(
        Arithmetic::Quotient(
            ev(Arithmetic::Count(numerator)),
            ev(Arithmetic::Count(denominator)),
        ),
    );
    (
        ev(
            Arithmetic::Sum(
                line.0.0,
                ev(
                    Arithmetic::Product(
                        ev(Arithmetic::Difference(line.1.0, line.0.0)),
                        progress,
                    ),
                ),
            ),
        ),
        ev(
            Arithmetic::Sum(
                line.0.1,
                ev(
                    Arithmetic::Product(
                        ev(Arithmetic::Difference(line.1.1, line.0.1)),
                        progress,
                    ),
                ),
            ),
        ),
    )
}

/// The middle of a line.
pub open spec fn middle_of(line: Line2d, ev: spec_fn(Arithmetic) -> Real) -> Point2d {
    let half = Real { bits: HALF_BITS };
    (
        ev(Arithmetic::Product(ev(Arithmetic::Sum(line.0.0, line.1.0)), half)),
        ev(Arithmetic::Product(ev(Arithmetic::Sum(line.0.1, line.1.1)), half)),
    )
}

/// One of several equal pieces of a drawing module becomes a descendant.
pub open spec fn divided(
    parent: StyledLine2d,
    descendant: StyledLine2d,
    piece: usize,
    pieces: usize,
    ev: spec_fn(Arithmetic) -> Real,
) -> MorphLine2d {
    MorphLine2d {
        source: StyledLine2d {
            line: Line2d(
                point_on(parent.line, piece, pieces, ev),
                point_on(parent.line, (piece + 1) as usize, pieces, ev),
            ),
            width: parent.width,
            color: parent.color,
        },
        target: descendant,
        source_space: MorphCoordinateSpace::Source,
        target_space: MorphCoordinateSpace::Target,
        source_opacity: Real { bits: ONE_BITS },
        target_opacity: Real { bits: ONE_BITS },
        source_palette_line: parent.line,
        target_palette_line: descendant.line,
    }
}

/// A drawing module without drawing descendants vanishes into its middle.
pub open spec fn collapsed(
    parent: StyledLine2d,
    ev: spec_fn(Arithmetic) -> Real,
) -> MorphLine2d {
    let middle = middle_of(parent.line, ev);
    MorphLine2d {
        source: parent,
        target: StyledLine2d {
            line: Line2d(middle, middle),
            width: Real { bits: 0 },
            color: parent.color,
        },
        source_space: MorphCoordinateSpace::Source,
        target_space: MorphCoordinateSpace::Source,
        source_opacity: Real { bits: ONE_BITS },
        target_opacity: Real { bits: 0 },
        source_palette_line: parent.line,
        target_palette_line: parent.line,
    }
}

/// A descendant grows from the position of a module that did not draw.
pub open spec fn grown(anchor: Point2d, descendant: StyledLine2d) -> MorphLine2d {
    MorphLine2d {
        source: StyledLine2d {
            line: Line2d(anchor, anchor),
            width: Real { bits: 0 },
            color: descendant.color,
        },
        target: descendant,
        source_space: MorphCoordinateSpace::Source,
        target_space: MorphCoordinateSpace::Target,
        source_opacity: Real { bits: 0 },
        target_opacity: Real { bits: ONE_BITS },
        source_palette_line: Line2d(anchor, anchor),
        target_palette_line: descendant.line,
    }
}

/// The morphs of one module and its descendants.
pub open spec fn family(
    parent: Option<StyledLine2d>,
    anchor: Point2d,
    descendants: Seq<IndexedLine2d>,
    ev: spec_fn(Arithmetic) -> Real,
) -> Seq<MorphLine2d> {
    match parent {
        Some(line) => if descendants.len() == 0 {
            seq![collapsed(line, ev)]
        } else {
            Seq::new(
                descendants.len(),
                |i: int|
                    divided(
                        line,
                        descendants[i].line,
                        i as usize,
                        descendants.len() as usize,
                        ev,
                    ),
            )
        },
        None => Seq::new(descendants.len(), |i: int| grown(anchor, descendants[i].line)),
    }
}

/// The morphs of the first modules and their descendants.
pub open spec fn families(
    source: Seq<IndexedLine2d>,
    positions: Seq<IndexedModulePosition2d>,
    target: Seq<IndexedLine2d>,
    successors: Seq<usize>,
    parents: int,
    ev: spec_fn(Arithmetic) -> Real,
) -> Seq<MorphLine2d>
    decreases parents,
{
    if parents <= 0 {
        Seq::empty()
    } else {
        families(source, positions, target, successors, parents - 1, ev) + family(
            line_at(source, parents - 1),
            positions[parents - 1].position,
            lines_between(
                target,
                sum_before(successors, parents - 1),
                sum_before(successors, parents),
            ),
            ev,
        )
    }
}

/// Every morph in the other direction.
pub open spec fn all_backwards(morphs: Seq<MorphLine2d>) -> Seq<MorphLine2d> {
    morphs.map_values(|m: MorphLine2d| m.backwards())
}

/// What is wrong with the input of a transition, in the order it is looked at.
pub open spec fn transition_fault(
    source: Seq<IndexedLine2d>,
    positions: Seq<IndexedModulePosition2d>,
    target: Seq<IndexedLine2d>,
    lineage: RewriteLineage,
) -> Option<Failure> {
    let inputs = lineage.successors@.len() as int;
    if !indices_valid(source, inputs) {
        Some(lineage_fault("source line module indices are invalid or out of order"@))
    } else if !positions_valid(positions, inputs) {
        Some(
            lineage_fault("source module positions are missing, invalid, or out of order"@),
        )
    } else if lineage.outputs() > usize::MAX {
        Some(exhausted("transition successor-module count"@, usize::MAX))
    } else if !indices_valid(target, lineage.outputs()) {
        Some(lineage_fault("target line module indices are invalid or out of order"@))
    } else if source.len() + target.len() > usize::MAX {
        Some(exhausted("transition line count"@, usize::MAX))
    } else {
        None
    }
}

fn piece_point<C: Fn(Arithmetic) -> Real>(
    line: Line2d,
    numerator: usize,
    denominator: usize,
    calc: &C,
) -> (r: Point2d)
    requires
        calculates(*calc),
    ensures
        r == point_on(line, numerator, denominator, answers(*calc)),
{
    let part: Real = calculate(calc, Arithmetic::Count(numerator));
    let whole: Real = calculate(calc, Arithmetic::Count(denominator));
    let progress: Real = calculate(calc, Arithmetic::Quotient(part, whole));
    let dx: Real = calculate(calc, Arithmetic::Difference(line.1.0, line.0.0));
    let dy: Real = calculate(calc, Arithmetic::Difference(line.1.1, line.0.1));
    let across: Real = calculate(calc, Arithmetic::Product(dx, progress));
    let along: Real = calculate(calc, Arithmetic::Product(dy, progress));
    (
        calculate(calc, Arithmetic::Sum(line.0.0, across)),
        calculate(calc, Arithmetic::Sum(line.0.1, along)),
    )
}

fn midpoint<C: Fn(Arithmetic) -> Real>(line: Line2d, calc: &C) -> (r: Point2d)
    requires
        calculates(*calc),
    ensures
        r == middle_of(line, answers(*calc)),
{
    let half: Real = Real { bits: HALF_BITS };
    let x: Real = calculate(calc, Arithmetic::Sum(line.0.0, line.1.0));
    let y: Real = calculate(calc, Arithmetic::Sum(line.0.1, line.1.1));
    (
        calculate(calc, Arithmetic::Product(x, half)),
        calculate(calc, Arithmetic::Product(y, half)),
    )
}

/// In growing indices, the lines between two bounds stand together.
proof fn lemma_between_is_subrange(
    lines: Seq<IndexedLine2d>,
    low: int,
    high: int,
    from: int,
    to: int,
)
    requires
        0 <= from <= to <= lines.len(),
        forall|i: int| 0 <= i < from ==> (#[trigger] lines[i]).module_index < low,
        forall|i: int| from <= i < to ==> low <= (#[trigger] lines[i]).module_index < high,
        forall|i: int| to <= i < lines.len() ==> (#[trigger] lines[i]).module_index >= high,
    ensures
        lines_between(lines, low, high) == lines.subrange(from, to),
    decreases lines.len(),
{
    if lines.len() == 0 {
        assert(lines.subrange(from, to) =~= Seq::empty());
    } else {
        let init = lines.drop_last();
        assert forall|i: int| 0 <= i < init.len() implies init[i] == lines[i] by {}
        let last = lines.last();
        assert(last == lines[lines.len() - 1]);
        if to == lines.len() {
            if from == to {
                lemma_between_is_subrange(init, low, high, from - 1, to - 1);
                assert(lines.subrange(from, to) =~= Seq::empty());
                assert(init.subrange(from - 1, to - 1) =~= Seq::empty());
            } else {
                lemma_between_is_subrange(init, low, high, from, to - 1);
                assert(lines.subrange(from, to) =~= init.subrange(from, to - 1).push(last));
            }
        } else {
            lemma_between_is_subrange(init, low, high, from, to);
            assert(lines.subrange(from, to) =~= init.subrange(from, to));
        }
    }
}

/// Append the morphs of one module and its descendants.
fn push_family<C: Fn(Arithmetic) -> Real>(
    output: &mut Vec<MorphLine2d>,
    parent: Option<StyledLine2d>,
    anchor: Point2d,
    target: &[IndexedLine2d],
    from: usize,
    to: usize,
    calc: &C,
)
    requires
        calculates(*calc),
        from <= to <= target@.len(),
    ensures
        final(output)@ == old(output)@ + family(
            parent,
            anchor,
            target@.subrange(from as int, to as int),
            answers(*calc),
        ),
{
    let ghost before = output@;
    let ghost descendants = target@.subrange(from as int, to as int);
    let ghost added = family(parent, anchor, descendants, answers(*calc));
    let one: Real = Real { bits: ONE_BITS };
    let none: Real = Real { bits: 0 };
    match parent {
        Some(line) => {
            if from == to {
                let middle: Point2d = midpoint(line.line, calc);
                output.push(
                    MorphLine2d {
                        source: line,
                        target: StyledLine2d {
                            line: Line2d(middle, middle),
                            width: none,
                            color: line.color,
                        },
                        source_space: MorphCoordinateSpace::Source,
                        target_space: MorphCoordinateSpace::Source,
                        source_opacity: one,
                        target_opacity: none,
                        source_palette_line: line.line,
                        target_palette_line: line.line,
                    },
                );
                assert(output@ =~= before + added);
                return;
            }
            let pieces: usize = to - from;
            let mut piece: usize = 0;
            while piece < pieces
                invariant
                    calculates(*calc),
                    from <= to <= target@.len(),
                    from < to,
                    pieces == to - from,
                    piece <= pieces,
                    parent == Some(line),
                    one.bits == ONE_BITS,
                    descendants == target@.subrange(from as int, to as int),
                    added == family(parent, anchor, descendants, answers(*calc)),
                    output@ == before + added.subrange(0, piece as int),
                decreases pieces - piece,
            {
                let descendant: StyledLine2d = target[from + piece].line;
                assert(descendants[piece as int].line == descendant);
                let start: Point2d = piece_point(line.line, piece, pieces, calc);
                let end: Point2d = piece_point(line.line, piece + 1, pieces, calc);
                output.push(
                    MorphLine2d {
                        source: StyledLine2d {
                            line: Line2d(start, end),
                            width: line.width,
                            color: line.color,
                        },
                        target: descendant,
                        source_space: MorphCoordinateSpace::Source,
                        target_space: MorphCoordinateSpace::Target,
                        source_opacity: one,
                        target_opacity: one,
                        source_palette_line: line.line,
                        target_palette_line: descendant.line,
                    },
                );
                assert(output@ =~= before + added.subrange(0, piece + 1));
                piece = piece + 1;
            }
            assert(added.subrange(0, pieces as int) =~= added);
        },
        None => {
            let mut next: usize = from;
            while next < to
                invariant
                    from <= next <= to <= target@.len(),
                    parent is None,
                    one.bits == ONE_BITS,
                    none.bits == 0,
                    descendants == target@.subrange(from as int, to as int),
                    added == family(parent, anchor, descendants, answers(*calc)),
                    output@ == before + added.subrange(0, next - from),
                decreases to - next,
            {
                let descendant: StyledLine2d = target[next].line;
                assert(descendants[next - from].line == descendant);
                output.push(
                    MorphLine2d {
                        source: StyledLine2d {
                            line: Line2d(anchor, anchor),
                            width: none,
                            color: descendant.color,
                        },
                        target: descendant,
                        source_space: MorphCoordinateSpace::Source,
                        target_space: MorphCoordinateSpace::Target,
                        source_opacity: none,
                        target_opacity: one,
                        source_palette_line: Line2d(anchor, anchor),
                        target_palette_line: descendant.line,
                    },
                );
                assert(output@ =~= before + added.subrange(0, next + 1 - from));
                next = next + 1;
            }
            assert(added.subrange(0, to - from) =~= added);
        },
    }
}

/// Builds line morphs for one exact adjacent rewrite.
///
/// A drawing predecessor is divided into equal ordered pieces for its drawing
/// descendants. A predecessor with no drawing descendants collapses into its
/// midpoint, while drawing descendants of a non-drawing predecessor grow from
/// that predecessor's saved position. `reverse` swaps the prepared endpoints.
/// Room for the morphs may be refused.
pub fn build_line_transition<C: Fn(Arithmetic) -> Real>(
    source: &[IndexedLine2d],
    source_positions: &[IndexedModulePosition2d],
    target: &[IndexedLine2d],
    lineage: &RewriteLineage,
    reverse: bool,
    calc: &C,
) -> (r: Result<Vec<MorphLine2d>, VisualizeError>)
    requires
        calculates(*calc),
    ensures
        match r {
            Ok(morphs) => {
                let forward = families(
                    source@,
                    source_positions@,
                    target@,
                    lineage.successors@,
                    lineage.successors@.len() as int,
                    answers(*calc),
                );
                &&& transition_fault(source@, source_positions@, target@, *lineage) is None
                &&& morphs@ == if reverse {
                    all_backwards(forward)
                } else {
                    forward
                }
            },
            Err(error) => match transition_fault(
                source@,
                source_positions@,
                target@,
                *lineage,
            ) {
                Some(fault) => error@ == fault,
                None => error@ == exhausted(
                    "transition lines"@,
                    (source@.len() + target@.len()) as usize,
                ),
            },
        },
{
    let inputs: usize = lineage.input_modules();
    if !validate_indices(source, inputs) {
        return Err(invalid_lineage("source line module indices are invalid or out of order"));
    }
    if !validate_positions(source_positions, inputs) {
        return Err(
            invalid_lineage("source module positions are missing, invalid, or out of order"),
        );
    }
    let outputs: usize = match lineage.output_modules() {
        Some(outputs) => outputs,
        None => {
            return Err(resource_error("transition successor-module count", usize::MAX));
        },
    };
    if !validate_indices(target, outputs) {
        return Err(invalid_lineage("target line module indices are invalid or out of order"));
    }
    let capacity: usize = match source.len().checked_add(target.len()) {
        Some(capacity) => capacity,
        None => {
            return Err(resource_error("transition line count", usize::MAX));
        },
    };
    let mut output: Vec<MorphLine2d> = Vec::new();
    if output.try_reserve(capacity).is_err() {
        return Err(resource_error("transition lines", capacity));
    }
    let ghost ev = answers(*calc);
    let ghost counts = lineage.successors@;
    let mut source_line: usize = 0;
    let mut target_line: usize = 0;
    let mut target_module: usize = 0;
    let mut parent: usize = 0;
    assert(output@ =~= families(source@, source_positions@, target@, counts, 0, ev));
    while parent < inputs
        invariant
            calculates(*calc),
            ev == answers(*calc),
            counts == lineage.successors@,
            inputs == counts.len(),
            outputs == lineage.outputs(),
            parent <= inputs,
            source_line <= source@.len(),
            target_line <= target@.len(),
            indices_valid(source@, inputs as int),
            indices_valid(target@, outputs as int),
            positions_valid(source_positions@, inputs as int),
            target_module == sum_before(counts, parent as int),
            forall|i: int|
                0 <= i < source_line ==> (#[trigger] source@[i]).module_index < parent,
            forall|i: int|
                source_line <= i < source@.len() ==> (#[trigger] source@[i]).module_index
                    >= parent,
            forall|i: int|
                0 <= i < target_line ==> (#[trigger] target@[i]).module_index < target_module,
            forall|i: int|
                target_line <= i < target@.len() ==> (#[trigger] target@[i]).module_index
                    >= target_module,
            output@ == families(
                source@,
                source_positions@,
                target@,
                counts,
                parent as int,
                ev,
            ),
        decreases inputs - parent,
    {
        proof {
            lemma_sums_grow(counts, parent + 1, inputs as int);
            lemma_sums_grow(counts, parent as int, parent + 1);
        }
        let target_end: usize = target_module + lineage.successors[parent];
        let ghost first_source = source_line;
        let parent_line: Option<StyledLine2d> = if source_line < source.len()
            && source[source_line].module_index == parent {
            Some(source[source_line].line)
        } else {
            None
        };
        if parent_line.is_some() {
            source_line = source_line + 1;
        }
        proof {
            assert forall|i: int| source_line <= i < source@.len() implies (
            #[trigger] source@[i]).module_index >= parent + 1 by {
                if first_source < source@.len() && i > first_source {
                    assert(source@[first_source as int].module_index < source@[i].module_index);
                }
            }
            lemma_between_is_subrange(
                source@,
                parent as int,
                parent + 1,
                first_source as int,
                source_line as int,
            );
            assert(line_at(source@, parent as int) == parent_line);
        }
        let first_target: usize = target_line;
        while target_line < target.len() && target[target_line].module_index < target_end
            invariant
                first_target <= target_line <= target@.len(),
                indices_valid(target@, outputs as int),
                forall|i: int|
                    first_target <= i < target@.len() ==> (#[trigger] target@[i]).module_index
                        >= target_module,
                forall|i: int|
                    first_target <= i < target_line ==> (#[trigger] target@[i]).module_index
                        < target_end,
            decreases target@.len() - target_line,
        {
            target_line = target_line + 1;
        }
        proof {
            assert forall|i: int| target_line <= i < target@.len() implies (
            #[trigger] target@[i]).module_index >= target_end by {
                if i > target_line {
                    assert(target@[target_line as int].module_index < target@[i].module_index);
                }
            }
            lemma_between_is_subrange(
                target@,
                target_module as int,
                target_end as int,
                first_target as int,
                target_line as int,
            );
        }
        push_family(
            &mut output,
            parent_line,
            source_positions[parent].position,
            target,
            first_target,
            target_line,
            calc,
        );
        target_module = target_end;
        parent = parent + 1;
    }
    if reverse {
        let ghost forward = output@;
        let mut i: usize = 0;
        while i < output.len()
            invariant
                i <= output@.len(),
                output@.len() == forward.len(),
                forall|j: int| 0 <= j < i ==> #[trigger] output@[j] == forward[j].backwards(),
                forall|j: int| i <= j < output@.len() ==> #[trigger] output@[j] == forward[j],
            decreases output@.len() - i,
        {
            let line: MorphLine2d = output[i];
            output.set(i, line.reversed());
            i = i + 1;
        }
        assert(output@ =~= all_backwards(forward));
    }
    Ok(output)
}

/// Reversing a morph twice gives the morph back.
pub proof fn reversing_twice_is_nothing(morph: MorphLine2d, morphs: Seq<MorphLine2d>)
    ensures
        morph.backwards().backwards() == morph,
        all_backwards(all_backwards(morphs)) == morphs,
{
    assert forall|i: int| 0 <= i < morphs.len() implies all_backwards(
        all_backwards(morphs),
    )[i] == morphs[i] by {
        assert(all_backwards(all_backwards(morphs))[i] == morphs[i].backwards().backwards());
    }
    assert(all_backwards(all_backwards(morphs)) =~= morphs);
}

/// The targets of the morphs that end in the target generation.
pub open spec fn arrivals(morphs: Seq<MorphLine2d>) -> Seq<StyledLine2d>
    decreases morphs.len(),
{
    if morphs.len() == 0 {
        Seq::empty()
    } else {
        let before = arrivals(morphs.drop_last());
        if morphs.last().target_space == MorphCoordinateSpace::Target {
            before.push(morphs.last().target)
        } else {
            before
        }
    }
}

/// The styled lines without their indices.
pub open spec fn plain_lines(lines: Seq<IndexedLine2d>) -> Seq<StyledLine2d> {
    lines.map_values(|l: IndexedLine2d| l.line)
}

proof fn lemma_arrivals_join(a: Seq<MorphLine2d>, b: Seq<MorphLine2d>)
    ensures
        arrivals(a + b) == arrivals(a) + arrivals(b),
    decreases b.len(),
{
    if b.len() == 0 {
        assert(a + b =~= a);
        assert(arrivals(a) + arrivals(b) =~= arrivals(a));
    } else {
        assert((a + b).drop_last() =~= a + b.drop_last());
        lemma_arrivals_join(a, b.drop_last());
        assert((a + b).last() == b.last());
        assert(arrivals(a + b) =~= arrivals(a) + arrivals(b));
    }
}

proof fn lemma_arrivals_all(morphs: Seq<MorphLine2d>, targets: Seq<StyledLine2d>)
    requires
        morphs.len() == targets.len(),
        forall|i: int|
            0 <= i < morphs.len() ==> (#[trigger] morphs[i]).target == targets[i]
                && morphs[i].target_space == MorphCoordinateSpace::Target,
    ensures
        arrivals(morphs) == targets,
    decreases morphs.len(),
{
    if morphs.len() > 0 {
        let init = morphs.drop_last();
        assert forall|i: int| 0 <= i < init.len() implies (#[trigger] init[i]).target
            == targets.drop_last()[i] && init[i].target_space
            == MorphCoordinateSpace::Target by {
            assert(init[i] == morphs[i]);
        }
        lemma_arrivals_all(init, targets.drop_last());
        assert(morphs.last() == morphs[morphs.len() - 1]);
        assert(arrivals(morphs) =~= targets);
    } else {
        assert(arrivals(morphs) =~= targets);
    }
}

proof fn lemma_family_arrivals(
    parent: Option<StyledLine2d>,
    anchor: Point2d,
    descendants: Seq<IndexedLine2d>,
    ev: spec_fn(Arithmetic) -> Real,
)
    ensures
        arrivals(family(parent, anchor, descendants, ev)) == plain_lines(descendants),
{
    let morphs = family(parent, anchor, descendants, ev);
    if parent is Some && descendants.len() == 0 {
        assert(morphs.drop_last() =~= Seq::empty());
        assert(arrivals(Seq::<MorphLine2d>::empty()) =~= Seq::empty());
        assert(morphs.last() == collapsed(parent->0, ev));
        assert(arrivals(morphs) =~= plain_lines(descendants));
    } else {
        lemma_arrivals_all(morphs, plain_lines(descendants));
    }
}

/// In growing indices, the lines below a bound and then those up to another
/// bound are the lines below the other bound.
proof fn lemma_between_joins(lines: Seq<IndexedLine2d>, middle: int, high: int)
    requires
        0 <= middle <= high,
        forall|i: int, j: int|
            0 <= i < j < lines.len() ==> (#[trigger] lines[i]).module_index < (
            #[trigger] lines[j]).module_index,
    ensures
        lines_between(lines, 0, high) == lines_between(lines, 0, middle) + lines_between(
            lines,
            middle,
            high,
        ),
    decreases lines.len(),
{
    if lines.len() > 0 {
        let init = lines.drop_last();
        assert forall|i: int, j: int| 0 <= i < j < init.len() implies (
        #[trigger] init[i]).module_index < (#[trigger] init[j]).module_index by {
            assert(init[i] == lines[i]);
            assert(init[j] == lines[j]);
        }
        lemma_between_joins(init, middle, high);
        let last = lines.last();
        if last.module_index < middle {
            // Everything is below the bound in the middle.
            lemma_nothing_above(init, last.module_index as int, middle, high);
            assert(lines_between(init, middle, high) =~= Seq::empty());
        }
        assert(lines_between(lines, 0, high) =~= lines_between(lines, 0, middle)
            + lines_between(lines, middle, high));
    } else {
        assert(lines_between(lines, 0, high) =~= lines_between(lines, 0, middle)
            + lines_between(lines, middle, high));
    }
}

proof fn lemma_nothing_above(lines: Seq<IndexedLine2d>, bound: int, low: int, high: int)
    requires
        bound <= low,
        forall|i: int| 0 <= i < lines.len() ==> (#[trigger] lines[i]).module_index < bound,
    ensures
        lines_between(lines, low, high).len() == 0,
    decreases lines.len(),
{
    if lines.len() > 0 {
        let init = lines.drop_last();
        assert forall|i: int| 0 <= i < init.len() implies (#[trigger] init[i]).module_index
            < bound by {
            assert(init[i] == lines[i]);
        }
        lemma_nothing_above(init, bound, low, high);
        assert(lines.last() == lines[lines.len() - 1]);
    }
}

proof fn lemma_all_between(lines: Seq<IndexedLine2d>, high: int)
    requires
        forall|i: int| 0 <= i < lines.len() ==> (#[trigger] lines[i]).module_index < high,
    ensures
        lines_between(lines, 0, high) == lines,
    decreases lines.len(),
{
    if lines.len() > 0 {
        let init = lines.drop_last();
        assert forall|i: int| 0 <= i < init.len() implies (#[trigger] init[i]).module_index
            < high by {
            assert(init[i] == lines[i]);
        }
        lemma_all_between(init, high);
        assert(lines.last() == lines[lines.len() - 1]);
        assert(lines_between(lines, 0, high) =~= lines);
    } else {
        assert(lines_between(lines, 0, high) =~= lines);
    }
}

proof fn lemma_families_arrive(
    source: Seq<IndexedLine2d>,
    positions: Seq<IndexedModulePosition2d>,
    target: Seq<IndexedLine2d>,
    counts: Seq<usize>,
    parents: int,
    ev: spec_fn(Arithmetic) -> Real,
)
    requires
        0 <= parents <= counts.len(),
        forall|i: int, j: int|
            0 <= i < j < target.len() ==> (#[trigger] target[i]).module_index < (
            #[trigger] target[j]).module_index,
    ensures
        arrivals(families(source, positions, target, counts, parents, ev)) == plain_lines(
            lines_between(target, 0, sum_before(counts, parents)),
        ),
    decreases parents,
{
    if parents > 0 {
        let low = sum_before(counts, parents - 1);
        let high = sum_before(counts, parents);
        lemma_sums_grow(counts, parents - 1, parents);
        lemma_families_arrive(source, positions, target, counts, parents - 1, ev);
        let before = families(source, positions, target, counts, parents - 1, ev);
        let added = family(
            line_at(source, parents - 1),
            positions[parents - 1].position,
            lines_between(target, low, high),
            ev,
        );
        lemma_arrivals_join(before, added);
        lemma_family_arrivals(
            line_at(source, parents - 1),
            positions[parents - 1].position,
            lines_between(target, low, high),
            ev,
        );
        lemma_between_joins(target, low, high);
        assert(plain_lines(lines_between(target, 0, high)) =~= plain_lines(
            lines_between(target, 0, low),
        ) + plain_lines(lines_between(target, low, high)));
    } else {
        lemma_empty_between(target);
        assert(plain_lines(lines_between(target, 0, 0)) =~= Seq::empty());
    }
}

proof fn lemma_empty_between(lines: Seq<IndexedLine2d>)
    ensures
        lines_between(lines, 0, 0).len() == 0,
    decreases lines.len(),
{
    if lines.len() > 0 {
        lemma_empty_between(lines.drop_last());
    }
}

/// Every target line is the end of exactly one morph, in target order.
pub proof fn every_target_line_arrives_once(
    source: Seq<IndexedLine2d>,
    positions: Seq<IndexedModulePosition2d>,
    target: Seq<IndexedLine2d>,
    lineage: RewriteLineage,
    ev: spec_fn(Arithmetic) -> Real,
)
    requires
        transition_fault(source, positions, target, lineage) is None,
    ensures
        arrivals(
            families(
                source,
                positions,
                target,
                lineage.successors@,
                lineage.successors@.len() as int,
                ev,
            ),
        ) == plain_lines(target),
{
    lemma_families_arrive(
        source,
        positions,
        target,
        lineage.successors@,
        lineage.successors@.len() as int,
        ev,
    );
    lemma_all_between(target, lineage.outputs());
}

} // verus!
