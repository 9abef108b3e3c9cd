//! Statistics and a bounded textual preview of a generation.

use vstd::prelude::*;
use vstd::string::*;

use crate::config::{string_texts, InspectorConfig};
use crate::error::{exhausted, invalid, Failure, VisualizeError};
use crate::frequency::{
    comes_before, entries_of, in_order, leads, names_differ, top_frequencies, Entry, FREQUENCY_ROWS,
};
use crate::generation::{item_weight, weight, Generation, GenerationItem, Module};
use crate::geometry::{Point2d, Primitive2d, Scene2d, Text2d, TextRole};
use crate::number::{answers, calculate, calculates, Arithmetic, Real};
use crate::outlet::{
    a_constant_yes_is_all_that_is_heard, a_patient_caller_stops_nothing, asked, called_off,
    from_list, handed, lemma_handed_once, lemma_nothing_since, lemma_one_more, lemma_questions,
    lemma_sending_ends, lemma_sending_starts, lemma_since_joins, lemma_told, lemma_told_more, paced,
    questions, sending, stopped_by_caller, told, turned_away, undisturbed, Exchange, Outlet,
};
use crate::preview::{
    bounded_preview, bytes_at, content_limit, counts_of, fitting, lemma_bytes_at_grow,
    lemma_fitting_bounds, lemma_fitting_bytes, lemma_spans_sorted, lemma_visited,
    lemma_visited_ends, preview_failure, preview_of, preview_reports, reserve_text, spans_from,
    spelling, spells, visited_items, wrap_failure, wrap_preview, wrapped, writes_from,
};
use crate::walk::batch_count;
use crate::text::{decimal, joined, push_decimal, same_text, text_bytes};

verus! {

#[derive(Debug, Clone, Copy, PartialEq, Eq, Structural)]
pub enum InspectorPhase {
    Statistics,
    Preview,
    Complete,
}

impl Default for InspectorPhase {
    fn default() -> (r: Self)
        ensures
            r == InspectorPhase::Statistics,
    {
        InspectorPhase::Statistics
    }
}

/// Monotonic progress from an incremental inspector visualization.
#[derive(Debug, Clone, Copy, PartialEq, Eq, Structural)]
pub struct InspectorProgress {
    pub phase: InspectorPhase,
    pub items_processed: usize,
    pub modules: usize,
    pub branches: usize,
    pub max_branch_depth: usize,
    pub preview_bytes: usize,
}

impl Default for InspectorProgress {
    fn default() -> (r: Self)
        ensures
            r.phase == InspectorPhase::Statistics,
            r.items_processed == 0,
            r.modules == 0,
            r.branches == 0,
            r.max_branch_depth == 0,
            r.preview_bytes == 0,
    {
        InspectorProgress {
            phase: InspectorPhase::Statistics,
            items_processed: 0,
            modules: 0,
            branches: 0,
            max_branch_depth: 0,
            preview_bytes: 0,
        }
    }
}

/// A failure to count further, or to obtain room for an unstated amount.
pub open spec fn overflowed(resource: Seq<char>) -> Failure {
    Failure::ResourceExhausted { resource, requested: None }
}

/// The next count, or the failure of a counter that is full.
pub fn checked_increment(value: usize, resource: &'static str) -> (r: Result<
    usize,
    VisualizeError,
>)
    ensures
        match r {
            Ok(next) => next == value + 1,
            Err(error) => value == usize::MAX && error@ == overflowed(resource@),
        },
{
    match value.checked_add(1) {
        Some(next) => Ok(next),
        None => Err(VisualizeError::ResourceExhausted { resource, requested: None }),
    }
}

/// The cancellation hook still lets the work go on: it is asked once.
pub fn ensure_running<
    F: Fn() -> bool,
    E: Fn(InspectorProgress) -> Result<(), VisualizeError>,
>(outlet: &mut Outlet<InspectorProgress, F, E>) -> (r: Result<(), VisualizeError>)
    requires
        old(outlet).ready(),
    ensures
        final(outlet).ready(),
        final(outlet).follows(*old(outlet)),
        match r {
            Ok(()) => final(outlet).since(*old(outlet)) == seq![
                Exchange::<InspectorProgress>::Asked(false),
            ],
            Err(error) => final(outlet).since(*old(outlet)) == seq![
                Exchange::<InspectorProgress>::Asked(true),
            ] && error@ == Failure::Cancelled,
        },
{
    let ghost entry = *outlet;
    let cancelled: bool = outlet.cancelled();
    proof {
        lemma_nothing_since(entry);
        lemma_one_more(entry, entry, *outlet, Exchange::Asked(cancelled));
        assert(outlet.since(entry) =~= seq![Exchange::Asked(cancelled)]);
    }
    if cancelled {
        Err(VisualizeError::Cancelled)
    } else {
        Ok(())
    }
}

/// Room for some more entries was refused.
pub open spec fn room_refused(failure: Failure, resource: Seq<char>) -> bool {
    failure matches Failure::ResourceExhausted { resource: named, .. } && named == resource
}

/// Ask for room for some more entries. Whether there is room depends on the
/// machine.
pub(crate) fn reserve_vec<T>(values: &mut Vec<T>, additional: usize, resource: &'static str) -> (r:
    Result<(), VisualizeError>)
    ensures
        final(values)@ == old(values)@,
        r is Err ==> (r->Err_0)@ == (Failure::ResourceExhausted {
            resource: resource@,
            requested: if old(values)@.len() + additional <= usize::MAX {
                Some((old(values)@.len() + additional) as usize)
            } else {
                None
            },
        }),
{
    if values.try_reserve(additional).is_err() {
        let requested: Option<usize> = values.len().checked_add(additional);
        return Err(VisualizeError::ResourceExhausted { resource, requested });
    }
    Ok(())
}

/// An item and how many branches it is in.
pub type Seen = (GenerationItem, int);

/// Items of one branch, at its depth.
pub open spec fn listed(items: Seq<GenerationItem>, depth: int) -> Seq<Seen> {
    items.map_values(|item: GenerationItem| (item, depth))
}

/// The branches among some items, in order, at their depth.
pub open spec fn branches_among(items: Seq<GenerationItem>, depth: int) -> Seq<
    (Seq<GenerationItem>, int),
>
    decreases items.len(),
{
    if items.len() == 0 {
        Seq::empty()
    } else {
        let before = branches_among(items.drop_last(), depth);
        match items.last() {
            GenerationItem::Branch(branch) => before.push((branch.0@, depth)),
            GenerationItem::Module(_) => before,
        }
    }
}

/// The work in some waiting branches.
pub open spec fn waiting_work(waiting: Seq<(Seq<GenerationItem>, int)>) -> nat
    decreases waiting.len(),
{
    if waiting.len() == 0 {
        0
    } else {
        waiting_work(waiting.drop_last()) + 1 + weight(waiting.last().0)
    }
}

proof fn lemma_waiting_join(
    a: Seq<(Seq<GenerationItem>, int)>,
    b: Seq<(Seq<GenerationItem>, int)>,
)
    ensures
        waiting_work(a + b) == waiting_work(a) + waiting_work(b),
    decreases b.len(),
{
    if b.len() == 0 {
        assert(a + b =~= a);
    } else {
        assert((a + b).drop_last() =~= a + b.drop_last());
        lemma_waiting_join(a, b.drop_last());
    }
}

proof fn lemma_weight_split(items: Seq<GenerationItem>)
    requires
        items.len() > 0,
    ensures
        weight(items) == weight(items.drop_last()) + item_weight(items.last()),
    decreases items.len(),
{
    let rest = items.subrange(1, items.len() as int);
    if rest.len() > 0 {
        lemma_weight_split(rest);
        assert(rest.drop_last() =~= items.drop_last().subrange(1, items.len() - 1));
        assert(rest.last() == items.last());
        let init = items.drop_last();
        assert(init[0] == items[0]);
        assert(init.subrange(1, init.len() as int) =~= rest.drop_last());
        assert(weight(init) == item_weight(init[0]) + weight(rest.drop_last()));
        assert(weight(items) == item_weight(items[0]) + weight(rest));
    } else {
        assert(items.drop_last() =~= Seq::empty());
        assert(items.last() == items[0]);
        assert(weight(items.drop_last()) == 0);
        assert(weight(rest) == 0);
    }
}

proof fn lemma_branches_lighter(items: Seq<GenerationItem>, depth: int)
    ensures
        waiting_work(branches_among(items, depth)) <= weight(items),
    decreases items.len(),
{
    if items.len() > 0 {
        lemma_branches_lighter(items.drop_last(), depth);
        lemma_weight_split(items);
        let before = branches_among(items.drop_last(), depth);
        match items.last() {
            GenerationItem::Branch(branch) => {
                assert(before.push((branch.0@, depth)).drop_last() =~= before);
            },
            GenerationItem::Module(_) => {},
        }
    }
}

/// The order in which waiting branches are inspected: all items of the last
/// one, then the branches found in it from the last to the first.
pub open spec fn inspection(waiting: Seq<(Seq<GenerationItem>, int)>) -> Seq<Seen>
    decreases waiting_work(waiting),
    via inspection_decreases
{
    if waiting.len() == 0 {
        Seq::empty()
    } else {
        let (items, depth) = waiting.last();
        listed(items, depth) + inspection(
            waiting.drop_last() + branches_among(items, depth + 1),
        )
    }
}

#[via_fn]
proof fn inspection_decreases(waiting: Seq<(Seq<GenerationItem>, int)>) {
    if waiting.len() > 0 {
        let (items, depth) = waiting.last();
        lemma_waiting_join(waiting.drop_last(), branches_among(items, depth + 1));
        lemma_branches_lighter(items, depth + 1);
    }
}

/// There is less to inspect once the last waiting branch was.
pub proof fn lemma_inspection_shrinks(waiting: Seq<(Seq<GenerationItem>, int)>)
    requires
        waiting.len() > 0,
    ensures
        waiting_work(
            waiting.drop_last() + branches_among(waiting.last().0, waiting.last().1 + 1),
        ) < waiting_work(waiting),
{
    let (items, depth) = waiting.last();
    lemma_waiting_join(waiting.drop_last(), branches_among(items, depth + 1));
    lemma_branches_lighter(items, depth + 1);
}

/// The order in which a generation is inspected.
pub open spec fn inspected(generation: Generation) -> Seq<Seen> {
    inspection(seq![(generation.0@, 0)])
}

/// Counts over some items.
pub struct Tally {
    pub items: int,
    pub modules: int,
    pub branches: int,
    pub max_depth: int,
}

/// The counts over some items.
pub open spec fn tally_of(seen: Seq<Seen>) -> Tally
    decreases seen.len(),
{
    if seen.len() == 0 {
        Tally { items: 0, modules: 0, branches: 0, max_depth: 0 }
    } else {
        let before = tally_of(seen.drop_last());
        let (item, depth) = seen.last();
        match item {
            GenerationItem::Module(_) => Tally {
                items: before.items + 1,
                modules: before.modules + 1,
                ..before
            },
            GenerationItem::Branch(_) => Tally {
                items: before.items + 1,
                branches: before.branches + 1,
                max_depth: if depth + 1 > before.max_depth {
                    depth + 1
                } else {
                    before.max_depth
                },
                ..before
            },
        }
    }
}

/// How many of some items are modules with the given name.
pub open spec fn name_count(seen: Seq<Seen>, name: Seq<char>) -> int
    decreases seen.len(),
{
    if seen.len() == 0 {
        0
    } else {
        let before = name_count(seen.drop_last(), name);
        match seen.last().0 {
            GenerationItem::Module(module) => if module.name@ == name {
                before + 1
            } else {
                before
            },
            GenerationItem::Branch(_) => before,
        }
    }
}

proof fn lemma_tally_bounds(seen: Seq<Seen>, name: Seq<char>)
    ensures
        tally_of(seen).items == seen.len(),
        0 <= tally_of(seen).modules <= seen.len(),
        0 <= tally_of(seen).branches <= seen.len(),
        tally_of(seen).modules + tally_of(seen).branches == seen.len(),
        tally_of(seen).max_depth >= 0,
        0 <= name_count(seen, name) <= tally_of(seen).modules,
    decreases seen.len(),
{
    if seen.len() > 0 {
        lemma_tally_bounds(seen.drop_last(), name);
    }
}

/// Counts of a generation, and how often each module name occurs in it.
pub struct Stats<'a> {
    pub modules: usize,
    pub items: usize,
    pub branches: usize,
    pub max_depth: usize,
    pub frequencies: Vec<(&'a str, usize)>,
}

/// A table holds each module name of some items once, with its count.
pub open spec fn table_counts(table: Seq<(&str, usize)>, seen: Seq<Seen>) -> bool {
    &&& forall|i: int|
        0 <= i < table.len() ==> (#[trigger] table[i]).1 == name_count(seen, table[i].0@)
            && table[i].1 > 0
    &&& forall|i: int, j: int|
        0 <= i < j < table.len() ==> (#[trigger] table[i]).0@ != (#[trigger] table[j]).0@
    &&& forall|name: Seq<char>|
        #[trigger] name_count(seen, name) > 0 ==> exists|i: int|
            0 <= i < table.len() && (#[trigger] table[i]).0@ == name
}

impl<'a> Stats<'a> {
    /// The statistics are those of some items.
    pub open spec fn describe(self, seen: Seq<Seen>) -> bool {
        &&& self.items == tally_of(seen).items
        &&& self.modules == tally_of(seen).modules
        &&& self.branches == tally_of(seen).branches
        &&& self.max_depth == tally_of(seen).max_depth
        &&& table_counts(self.frequencies@, seen)
    }

    /// Count one more module name. Room for it may be refused.
    fn count_name(&mut self, name: &'a str, Ghost(seen): Ghost<Seq<Seen>>, Ghost(item): Ghost<Seen>) -> (r:
        Result<(), VisualizeError>)
        requires
            table_counts(old(self).frequencies@, seen),
            seen.len() < usize::MAX,
            item.0 matches GenerationItem::Module(module) && module.name@ == name@,
        ensures
            final(self).modules == old(self).modules,
            final(self).items == old(self).items,
            final(self).branches == old(self).branches,
            final(self).max_depth == old(self).max_depth,
            match r {
                Ok(()) => table_counts(final(self).frequencies@, seen.push(item)),
                Err(error) => room_refused(error@, "inspector module frequency table"@),
            },
    {
        let ghost before = self.frequencies@;
        let ghost next = seen.push(item);
        proof {
            assert(next.drop_last() =~= seen);
            assert forall|other: Seq<char>| #[trigger] name_count(next, other) == name_count(
                seen,
                other,
            ) + (if other == name@ {
                1int
            } else {
                0
            }) by {}
        }
        let mut i: usize = 0;
        while i < self.frequencies.len()
            invariant
                i <= self.frequencies@.len(),
                self.frequencies@ == before,
                next == seen.push(item),
                self.modules == old(self).modules,
                self.items == old(self).items,
                self.branches == old(self).branches,
                self.max_depth == old(self).max_depth,
                table_counts(before, seen),
                seen.len() < usize::MAX,
                forall|j: int| 0 <= j < i ==> (#[trigger] before[j]).0@ != name@,
                forall|other: Seq<char>|
                    #[trigger] name_count(next, other) == name_count(seen, other) + (if other
                        == name@ {
                        1int
                    } else {
                        0
                    }),
            decreases self.frequencies@.len() - i,
        {
            let entry: (&'a str, usize) = self.frequencies[i];
            if same_text(entry.0, name) {
                proof {
                    assert(before[i as int] == entry);
                    lemma_tally_bounds(seen, name@);
                }
                self.frequencies.set(i, (entry.0, entry.1 + 1));
                proof {
                    let after = self.frequencies@;
                    assert forall|j: int| 0 <= j < after.len() implies (#[trigger] after[j]).1
                        == name_count(next, after[j].0@) && after[j].1 > 0 by {
                        if j != i {
                            assert(after[j] == before[j]);
                            assert(before[i as int].0@ != before[j].0@);
                        }
                    }
                    assert forall|a: int, b: int| 0 <= a < b < after.len() implies (
                    #[trigger] after[a]).0@ != (#[trigger] after[b]).0@ by {
                        assert(after[a].0@ == before[a].0@);
                        assert(after[b].0@ == before[b].0@);
                    }
                    assert forall|other: Seq<char>|
                        #[trigger] name_count(next, other) > 0 implies exists|j: int|
                        0 <= j < after.len() && (#[trigger] after[j]).0@ == other by {
                        if other == name@ {
                            assert(after[i as int].0@ == other);
                        } else {
                            assert(name_count(seen, other) > 0);
                            let j = choose|j: int|
                                0 <= j < before.len() && (#[trigger] before[j]).0@ == other;
                            assert(after[j].0@ == other);
                        }
                    }
                }
                return Ok(());
            }
            i = i + 1;
        }
        match reserve_vec(&mut self.frequencies, 1, "inspector module frequency table") {
            Ok(()) => {},
            Err(error) => {
                return Err(error);
            },
        }
        self.frequencies.push((name, 1));
        proof {
            let after = self.frequencies@;
            lemma_tally_bounds(seen, name@);
            assert(name_count(seen, name@) == 0) by {
                if name_count(seen, name@) > 0 {
                    let j = choose|j: int|
                        0 <= j < before.len() && (#[trigger] before[j]).0@ == name@;
                    assert(before[j].0@ != name@);
                }
            }
            assert forall|j: int| 0 <= j < after.len() implies (#[trigger] after[j]).1
                == name_count(next, after[j].0@) && after[j].1 > 0 by {
                if j < before.len() {
                    assert(after[j] == before[j]);
                }
            }
            assert forall|a: int, b: int| 0 <= a < b < after.len() implies (
            #[trigger] after[a]).0@ != (#[trigger] after[b]).0@ by {
                assert(after[a] == before[a]);
                if b < before.len() {
                    assert(after[b] == before[b]);
                }
            }
            assert forall|other: Seq<char>|
                #[trigger] name_count(next, other) > 0 implies exists|j: int|
                0 <= j < after.len() && (#[trigger] after[j]).0@ == other by {
                if other == name@ {
                    assert(after[before.len() as int].0@ == other);
                } else {
                    assert(name_count(seen, other) > 0);
                    let j = choose|j: int|
                        0 <= j < before.len() && (#[trigger] before[j]).0@ == other;
                    assert(after[j].0@ == other);
                }
            }
        }
        Ok(())
    }
}

/// The progress that statistics report.
pub open spec fn progress_of(
    phase: InspectorPhase,
    tally: Tally,
    preview_bytes: int,
) -> InspectorProgress {
    InspectorProgress {
        phase,
        items_processed: tally.items as usize,
        modules: tally.modules as usize,
        branches: tally.branches as usize,
        max_branch_depth: tally.max_depth as usize,
        preview_bytes: preview_bytes as usize,
    }
}

pub fn progress_for(phase: InspectorPhase, stats: &Stats<'_>, preview_bytes: usize) -> (r:
    InspectorProgress)
    ensures
        r.phase == phase,
        r.items_processed == stats.items,
        r.modules == stats.modules,
        r.branches == stats.branches,
        r.max_branch_depth == stats.max_depth,
        r.preview_bytes == preview_bytes,
{
    InspectorProgress {
        phase,
        items_processed: stats.items,
        modules: stats.modules,
        branches: stats.branches,
        max_branch_depth: stats.max_depth,
        preview_bytes,
    }
}

/// How many reports are due while some items are counted: one after every
/// quantum, and one for what is left or where there is nothing at all.
pub open spec fn statistics_count(items: int, quantum: int) -> int {
    if items == 0 {
        1
    } else {
        batch_count(items, quantum)
    }
}

/// The reports that are due while some items are counted.
pub open spec fn statistics_reports(seen: Seq<Seen>, quantum: int) -> Seq<InspectorProgress> {
    Seq::new(
        statistics_count(seen.len() as int, quantum) as nat,
        |k: int|
            progress_of(
                InspectorPhase::Statistics,
                tally_of(
                    seen.subrange(
                        0,
                        if (k + 1) * quantum <= seen.len() {
                            (k + 1) * quantum
                        } else {
                            seen.len() as int
                        },
                    ),
                ),
                0,
            ),
    )
}

/// How often a hook is asked before a report: once for every item before it.
pub open spec fn item_pace(items: int, quantum: int) -> spec_fn(nat) -> int {
    |reports: nat|
        if reports * quantum <= items {
            reports * quantum
        } else {
            items
        }
}

/// The statistics could not be completed, whatever the caller did.
pub open spec fn statistics_failure(failure: Failure, seen: Seq<Seen>) -> bool {
    ||| room_refused(failure, "inspector traversal stack"@)
    ||| room_refused(failure, "inspector module frequency table"@)
    ||| seen.len() > usize::MAX && failure == overflowed("inspector item counter"@)
}

proof fn lemma_full_quantum(items: int, quantum: int, reports: int)
    requires
        quantum > 0,
        reports >= 0,
        (reports + 1) * quantum <= items,
    ensures
        reports < statistics_count(items, quantum),
{
    assert(reports < (items + quantum - 1) / quantum) by (nonlinear_arith)
        requires
            quantum > 0,
            reports >= 0,
            (reports + 1) * quantum <= items,
    ;
    assert(items > 0) by (nonlinear_arith)
        requires
            quantum > 0,
            reports >= 0,
            (reports + 1) * quantum <= items,
    ;
}

proof fn lemma_last_quantum(items: int, quantum: int, reports: int, left: int)
    requires
        quantum > 0,
        reports >= 0,
        0 <= left < quantum,
        items == reports * quantum + left,
    ensures
        left > 0 || items == 0 ==> statistics_count(items, quantum) == reports + 1 && (reports + 1)
            * quantum > items,
        left == 0 && items > 0 ==> statistics_count(items, quantum) == reports,
{
    assert((reports + 1) * quantum == reports * quantum + quantum) by (nonlinear_arith);
    if items == 0 {
        assert(reports == 0) by (nonlinear_arith)
            requires
                quantum > 0,
                reports >= 0,
                0 <= left,
                reports * quantum + left == 0,
        ;
    } else if left > 0 {
        assert((items + quantum - 1) / quantum == reports + 1) by (nonlinear_arith)
            requires
                quantum > 0,
                0 < left < quantum,
                items == reports * quantum + left,
        ;
    } else {
        assert((items + quantum - 1) / quantum == reports) by (nonlinear_arith)
            requires
                quantum > 0,
                left == 0,
                items == reports * quantum + left,
        ;
    }
}

/// The views of waiting branches.
pub open spec fn waiting_of<'a>(pending: Seq<(&'a Generation, usize)>) -> Seq<
    (Seq<GenerationItem>, int),
> {
    pending.map_values(|p: (&'a Generation, usize)| (p.0.0@, p.1 as int))
}

/// Count the items of a generation, reporting after every quantum of items.
/// The hook is asked once before every item.
pub fn collect_stats<
    'a,
    F: Fn() -> bool,
    E: Fn(InspectorProgress) -> Result<(), VisualizeError>,
>(
    generation: &'a Generation,
    work_quantum: usize,
    outlet: &mut Outlet<InspectorProgress, F, E>,
) -> (r: Result<Stats<'a>, VisualizeError>)
    requires
        work_quantum > 0,
        old(outlet).ready(),
    ensures
        final(outlet).ready(),
        final(outlet).follows(*old(outlet)),
        ({
            let seen = inspected(*generation);
            let quantum = work_quantum as int;
            let log = final(outlet).since(*old(outlet));
            let sink = old(outlet).sink();
            let due = statistics_reports(seen, quantum);
            &&& told(log, due, handed(log).len() as int)
            &&& paced(log, item_pace(seen.len() as int, quantum))
            &&& match r {
                Ok(stats) => {
                    &&& stats.describe(seen)
                    &&& undisturbed(log, sink)
                    &&& handed(log) == due
                    &&& asked(log) >= seen.len()
                },
                Err(error) => {
                    ||| stopped_by_caller(log, sink, error)
                    ||| undisturbed(log, sink) && statistics_failure(error@, seen)
                },
            }
        }),
{
    let ghost entry = *outlet;
    let ghost all = inspected(*generation);
    let ghost quantum = work_quantum as int;
    let ghost due = statistics_reports(all, quantum);
    let ghost right = from_list(due);
    let ghost pace = item_pace(all.len() as int, quantum);
    proof {
        lemma_sending_starts(entry, false, pace, right);
        lemma_sending_ends(entry, *outlet, false, pace, right, 0, 0);
        lemma_told(outlet.since(entry), false, pace, due, 0);
    }
    let mut stats: Stats<'a> = Stats {
        modules: 0,
        items: 0,
        branches: 0,
        max_depth: 0,
        frequencies: Vec::new(),
    };
    let mut pending: Vec<(&'a Generation, usize)> = Vec::new();
    match reserve_vec(&mut pending, 1, "inspector traversal stack") {
        Ok(()) => {},
        Err(error) => {
            return Err(error);
        },
    }
    pending.push((generation, 0));
    let ghost mut done: Seq<Seen> = Seq::empty();
    let ghost mut reports: int = 0;
    let mut quantum_items: usize = 0;
    proof {
        assert(waiting_of(pending@) =~= seq![(generation.0@, 0int)]);
        assert(done + inspection(waiting_of(pending@)) =~= all);
        assert(forall|name: Seq<char>| name_count(done, name) == 0);
    }
    while pending.len() > 0
        invariant
            work_quantum > 0,
            quantum == work_quantum,
            entry == *old(outlet),
            due == statistics_reports(all, quantum),
            right == from_list(due),
            pace == item_pace(all.len() as int, quantum),
            sending(entry, *outlet, false, pace, right, reports, done.len() as int),
            all == inspected(*generation),
            all == done + inspection(waiting_of(pending@)),
            stats.describe(done),
            done.len() == reports * quantum + quantum_items,
            quantum_items < work_quantum,
            reports >= 0,
            forall|i: int| 0 <= i < pending@.len() ==> (#[trigger] pending@[i]).1 <= done.len(),
        decreases waiting_work(waiting_of(pending@)),
    {
        let ghost waiting = waiting_of(pending@);
        let ghost before_pop = pending@;
        let (branch, depth): (&'a Generation, usize) = match pending.pop() {
            Some(top) => top,
            None => {
                assert(false);
                return Ok(stats);
            },
        };
        assert(before_pop[before_pop.len() - 1].1 <= done.len());
        let items: &'a [GenerationItem] = branch.items();
        let ghost base = waiting.drop_last();
        let ghost rest = inspection(base + branches_among(items@, depth + 1));
        proof {
            assert(waiting_of(pending@) =~= base);
            assert(waiting.last() == (items@, depth as int));
            assert(all =~= done + listed(items@, depth as int) + rest);
            assert(items@.subrange(0, items@.len() as int) =~= items@);
            assert(branches_among(items@.subrange(0, 0), depth + 1) =~= Seq::empty());
            assert(base + Seq::<(Seq<GenerationItem>, int)>::empty() =~= base);
            lemma_waiting_join(base, branches_among(items@, depth + 1));
            lemma_branches_lighter(items@, depth + 1);
            assert forall|i: int| 0 <= i < pending@.len() implies (#[trigger] pending@[i]).1
                <= done.len() by {
                assert(pending@[i] == before_pop[i]);
            }
        }
        let mut i: usize = 0;
        while i < items.len()
            invariant
                work_quantum > 0,
                quantum == work_quantum,
                entry == *old(outlet),
                due == statistics_reports(all, quantum),
                right == from_list(due),
                pace == item_pace(all.len() as int, quantum),
                sending(entry, *outlet, false, pace, right, reports, done.len() as int),
                i <= items@.len(),
                items@ == branch.0@,
                all == inspected(*generation),
                all == done + listed(
                    items@.subrange(i as int, items@.len() as int),
                    depth as int,
                ) + rest,
                waiting_of(pending@) == base + branches_among(
                    items@.subrange(0, i as int),
                    depth + 1,
                ),
                stats.describe(done),
                done.len() == reports * quantum + quantum_items,
                quantum_items < work_quantum,
                reports >= 0,
                depth <= done.len(),
                forall|j: int|
                    0 <= j < pending@.len() ==> (#[trigger] pending@[j]).1 <= done.len(),
            decreases items@.len() - i,
        {
            let cancelled: bool = outlet.ask_within(
                Ghost(entry),
                Ghost(false),
                Ghost(pace),
                Ghost(right),
                Ghost(reports),
                Ghost(done.len() as int),
            );
            if cancelled {
                proof {
                    lemma_told(outlet.since(entry), false, pace, due, reports);
                }
                return Err(VisualizeError::Cancelled);
            }
            proof {
                lemma_sending_ends(
                    entry,
                    *outlet,
                    false,
                    pace,
                    right,
                    reports,
                    done.len() as int + 1,
                );
                lemma_told(outlet.since(entry), false, pace, due, reports);
            }
            let ghost seen: Seen = (items@[i as int], depth as int);
            let ghost next = done.push(seen);
            let ghost ahead = items@.subrange(i as int, items@.len() as int);
            let ghost behind = items@.subrange(i + 1, items@.len() as int);
            let ghost passed = items@.subrange(0, i + 1);
            proof {
                lemma_tally_bounds(done, Seq::empty());
                assert(next.drop_last() =~= done);
                assert(listed(ahead, depth as int) =~= seq![seen] + listed(
                    behind,
                    depth as int,
                ));
                assert(done + (seq![seen] + listed(behind, depth as int)) + rest =~= next
                    + listed(behind, depth as int) + rest);
                assert(passed.drop_last() =~= items@.subrange(0, i as int));
                assert(passed.last() == items@[i as int]);
                assert(all.len() >= next.len());
            }
            let count: usize = match checked_increment(stats.items, "inspector item counter") {
                Ok(count) => count,
                Err(error) => {
                    return Err(error);
                },
            };
            match &items[i] {
                GenerationItem::Module(module) => {
                    match stats.count_name(module.name.as_str(), Ghost(done), Ghost(seen)) {
                        Ok(()) => {},
                        Err(error) => {
                            return Err(error);
                        },
                    }
                    stats.items = count;
                    stats.modules = stats.modules + 1;
                },
                GenerationItem::Branch(inner) => {
                    let branch_depth: usize = depth + 1;
                    match reserve_vec(&mut pending, 1, "inspector traversal stack") {
                        Ok(()) => {},
                        Err(error) => {
                            return Err(error);
                        },
                    }
                    let ghost old_pending = pending@;
                    pending.push((inner, branch_depth));
                    stats.items = count;
                    stats.branches = stats.branches + 1;
                    if branch_depth > stats.max_depth {
                        stats.max_depth = branch_depth;
                    }
                    proof {
                        assert(waiting_of(pending@) =~= waiting_of(old_pending).push(
                            (inner.0@, depth + 1),
                        ));
                        assert(waiting_of(pending@) =~= base + branches_among(
                            passed,
                            depth + 1,
                        ));
                        assert forall|name: Seq<char>| #[trigger] name_count(next, name)
                            == name_count(done, name) by {}
                        assert(table_counts(stats.frequencies@, next));
                    }
                },
            }
            quantum_items = quantum_items + 1;
            proof {
                done = next;
            }
            if quantum_items == work_quantum {
                let progress: InspectorProgress = progress_for(
                    InspectorPhase::Statistics,
                    &stats,
                    0,
                );
                proof {
                    assert((reports + 1) * quantum == done.len()) by (nonlinear_arith)
                        requires
                            done.len() == reports * quantum + quantum,
                    ;
                    assert(all.subrange(0, (reports + 1) * quantum) =~= done);
                    lemma_full_quantum(all.len() as int, quantum, reports);
                    assert(progress == progress_of(
                        InspectorPhase::Statistics,
                        tally_of(done),
                        0,
                    ));
                    assert(due[reports] == progress);
                }
                match outlet.hand_within(
                    progress,
                    Ghost(entry),
                    Ghost(false),
                    Ghost(pace),
                    Ghost(right),
                    Ghost(reports),
                    Ghost(done.len() as int),
                ) {
                    Ok(()) => {},
                    Err(error) => {
                        proof {
                            lemma_told(outlet.since(entry), false, pace, due, reports + 1);
                        }
                        return Err(error);
                    },
                }
                proof {
                    reports = reports + 1;
                }
                quantum_items = 0;
            }
            i = i + 1;
        }
        proof {
            assert(items@.subrange(i as int, items@.len() as int) =~= Seq::empty());
            assert(listed(Seq::<GenerationItem>::empty(), depth as int) =~= Seq::empty());
            assert(items@.subrange(0, i as int) =~= items@);
            assert(all =~= done + rest);
        }
    }
    proof {
        assert(waiting_of(pending@) =~= Seq::empty());
        assert(all =~= done);
        lemma_tally_bounds(done, Seq::empty());
        lemma_last_quantum(all.len() as int, quantum, reports, quantum_items as int);
        assert(all.subrange(0, all.len() as int) =~= all);
    }
    if quantum_items != 0 || stats.items == 0 {
        let progress: InspectorProgress = progress_for(InspectorPhase::Statistics, &stats, 0);
        assert(due[reports] == progress);
        match outlet.hand_within(
            progress,
            Ghost(entry),
            Ghost(false),
            Ghost(pace),
            Ghost(right),
            Ghost(reports),
            Ghost(done.len() as int),
        ) {
            Ok(()) => {},
            Err(error) => {
                proof {
                    lemma_told(outlet.since(entry), false, pace, due, reports + 1);
                }
                return Err(error);
            },
        }
        proof {
            reports = reports + 1;
        }
    }
    proof {
        lemma_sending_ends(entry, *outlet, false, pace, right, reports, done.len() as int);
        lemma_told(outlet.since(entry), false, pace, due, reports);
    }
    Ok(stats)
}

/// How many bytes the preview may take.
pub const PREVIEW_BYTES: usize = 16384;

/// How many bytes a row of the preview may take.
pub const PREVIEW_WRAP_WIDTH: usize = 100;

/// How many items are handled between reports when nobody asks for less.
pub const COMPATIBILITY_WORK_QUANTUM: usize = 16384;

/// The pattern of the title size, twenty-six.
pub const TITLE_SIZE_BITS: u64 = 0x403a_0000_0000_0000;

/// The pattern of the heading size, nineteen.
pub const HEADING_SIZE_BITS: u64 = 0x4033_0000_0000_0000;

/// The pattern of the body size, sixteen.
pub const BODY_SIZE_BITS: u64 = 0x4030_0000_0000_0000;

/// The pattern of the size of frequency rows, fifteen.
pub const ROW_SIZE_BITS: u64 = 0x402e_0000_0000_0000;

/// The pattern of the size of preview rows, fourteen.
pub const PREVIEW_SIZE_BITS: u64 = 0x402c_0000_0000_0000;

/// The pattern of the left margin, twenty-eight.
pub const MARGIN_BITS: u64 = 0x403c_0000_0000_0000;

/// The pattern of the first base line, forty-two.
pub const FIRST_ROW_BITS: u64 = 0x4045_0000_0000_0000;

/// The pattern of the distance between base lines, twenty-five.
pub const ROW_STEP_BITS: u64 = 0x4039_0000_0000_0000;

/// What is known about how a generation was derived.
#[derive(Debug, Clone, Copy)]
pub struct VisualizationContext {
    pub iterations: usize,
    pub seed: u64,
    pub derivation_backend: Option<&'static str>,
    /// The time that the derivation took, in milliseconds.
    pub elapsed: Option<u128>,
}

impl Default for VisualizationContext {
    fn default() -> (r: Self)
        ensures
            r.iterations == 0,
            r.seed == 0,
            r.derivation_backend is None,
            r.elapsed is None,
    {
        VisualizationContext { iterations: 0, seed: 0, derivation_backend: None, elapsed: None }
    }
}

/// The most common module names of some items.
pub open spec fn most_common(top: Seq<Entry>, seen: Seq<Seen>) -> bool {
    &&& in_order(top)
    &&& top.len() <= FREQUENCY_ROWS
    &&& forall|i: int|
        0 <= i < top.len() ==> (#[trigger] top[i]).1 == name_count(seen, top[i].0) && top[i].1 > 0
    &&& forall|name: Seq<char>|
        #[trigger] name_count(seen, name) > 0 ==> top.contains(
            (name, name_count(seen, name) as usize),
        ) || (top.len() == FREQUENCY_ROWS && comes_before(
            top.last(),
            (name, name_count(seen, name) as usize),
        ))
}

proof fn lemma_leading_names(
    table: Seq<(&str, usize)>,
    seen: Seq<Seen>,
    top: Seq<Entry>,
)
    requires
        table_counts(table, seen),
        leads(top, entries_of(table), FREQUENCY_ROWS as int),
    ensures
        most_common(top, seen),
{
    let entries = entries_of(table);
    assert forall|i: int| 0 <= i < top.len() implies (#[trigger] top[i]).1 == name_count(
        seen,
        top[i].0,
    ) && top[i].1 > 0 by {
        assert(entries.contains(top[i]));
        let j = choose|j: int| 0 <= j < entries.len() && entries[j] == top[i];
        assert(table[j].1 == name_count(seen, table[j].0@));
    }
    assert forall|name: Seq<char>| #[trigger] name_count(seen, name) > 0 implies top.contains(
        (name, name_count(seen, name) as usize),
    ) || (top.len() == FREQUENCY_ROWS && comes_before(
        top.last(),
        (name, name_count(seen, name) as usize),
    )) by {
        let j = choose|j: int| 0 <= j < table.len() && (#[trigger] table[j]).0@ == name;
        assert(table[j].1 == name_count(seen, table[j].0@));
        assert(entries[j] == (name, name_count(seen, name) as usize));
    }
}

/// A row of text with its size and role.
pub struct Row {
    pub content: Seq<char>,
    pub size: Real,
    pub role: TextRole,
}

/// A row that has been written.
struct TextRow {
    content: String,
    size: Real,
    role: TextRole,
}

spec fn row_of(row: TextRow) -> Row {
    Row { content: row.content@, size: row.size, role: row.role }
}

spec fn rows_written(rows: Seq<TextRow>) -> Seq<Row> {
    rows.map_values(|r: TextRow| row_of(r))
}

/// The time of a derivation in words.
pub open spec fn elapsed_text(elapsed: Option<u128>) -> Seq<char> {
    match elapsed {
        Some(millis) => decimal(millis as int) + " ms"@,
        None => "unknown"@,
    }
}

/// The backend of a derivation in words.
pub open spec fn backend_text(backend: Option<&'static str>) -> Seq<char> {
    match backend {
        Some(name) => name@,
        None => "unknown"@,
    }
}

/// The rows above the most common modules.
pub open spec fn summary_rows(context: VisualizationContext, tally: Tally) -> Seq<Row> {
    let body = Real { bits: BODY_SIZE_BITS };
    seq![
        Row {
            content: "Inspector"@,
            size: Real { bits: TITLE_SIZE_BITS },
            role: TextRole::Title,
        },
        Row {
            content: "Iterations: "@ + decimal(context.iterations as int) + "    Seed: "@ + decimal(
                context.seed as int,
            ),
            size: body,
            role: TextRole::Body,
        },
        Row {
            content: "Backend: "@ + backend_text(context.derivation_backend)
                + "    Calculation: "@ + elapsed_text(context.elapsed),
            size: body,
            role: TextRole::Body,
        },
        Row {
            content: "Modules: "@ + decimal(tally.modules) + "    Items: "@ + decimal(tally.items)
                + "    Branches: "@ + decimal(tally.branches) + "    Maximum depth: "@ + decimal(
                tally.max_depth,
            ),
            size: body,
            role: TextRole::Body,
        },
        Row {
            content: "Most common modules"@,
            size: Real { bits: HEADING_SIZE_BITS },
            role: TextRole::Heading,
        },
    ]
}

/// The rows of the most common modules.
pub open spec fn frequency_rows(top: Seq<Entry>) -> Seq<Row> {
    top.map_values(
        |entry: Entry|
            Row {
                content: entry.0 + ": "@ + decimal(entry.1 as int),
                size: Real { bits: ROW_SIZE_BITS },
                role: TextRole::Body,
            },
    )
}

/// The row above the preview.
pub open spec fn preview_heading(items: int, complete: bool) -> Row {
    Row {
        content: if items <= 500 && complete {
            "Production"@
        } else {
            "Production preview"@
        },
        size: Real { bits: HEADING_SIZE_BITS },
        role: TextRole::Heading,
    }
}

/// The rows of the preview.
pub open spec fn preview_rows(rows: Seq<Seq<char>>) -> Seq<Row> {
    rows.map_values(
        |content: Seq<char>|
            Row { content, size: Real { bits: PREVIEW_SIZE_BITS }, role: TextRole::Muted },
    )
}

/// All rows of an inspection.
pub open spec fn inspector_rows(
    context: VisualizationContext,
    seen: Seq<Seen>,
    top: Seq<Entry>,
    preview: Seq<char>,
    complete: bool,
) -> Seq<Row> {
    summary_rows(context, tally_of(seen)) + frequency_rows(top) + seq![
        preview_heading(tally_of(seen).items, complete),
    ] + preview_rows(wrapped(preview, PREVIEW_WRAP_WIDTH as int))
}

/// The place of a row.
pub open spec fn row_position(index: usize, ev: spec_fn(Arithmetic) -> Real) -> Point2d {
    (
        Real { bits: MARGIN_BITS },
        ev(
            Arithmetic::Sum(
                Real { bits: FIRST_ROW_BITS },
                ev(
                    Arithmetic::Product(
                        ev(Arithmetic::Count(index)),
                        Real { bits: ROW_STEP_BITS },
                    ),
                ),
            ),
        ),
    )
}

/// A scene shows some rows, one below the other.
pub open spec fn shows_rows(
    scene: Scene2d,
    rows: Seq<Row>,
    ev: spec_fn(Arithmetic) -> Real,
) -> bool {
    &&& scene.background is None
    &&& scene.primitives@.len() == rows.len()
    &&& forall|i: int|
        0 <= i < rows.len() ==> (#[trigger] scene.primitives@[i] matches Primitive2d::Text(text)
            && text.content@ == rows[i].content && text.size == rows[i].size && text.role
            == rows[i].role && text.position == row_position(i as usize, ev))
}

/// Room for the rows was refused.
pub open spec fn rows_refused(failure: Failure) -> bool {
    ||| room_refused(failure, "inspector text rows"@)
    ||| room_refused(failure, "inspector iteration summary"@)
    ||| room_refused(failure, "inspector elapsed time"@)
    ||| room_refused(failure, "inspector backend summary"@)
    ||| room_refused(failure, "inspector statistics summary"@)
    ||| room_refused(failure, "inspector frequency row"@)
    ||| room_refused(failure, "inspector scene primitives"@)
}

/// An empty text with some room. Room may be refused.
fn text_with_room(capacity: usize, resource: &'static str) -> (r: Result<String, VisualizeError>)
    ensures
        match r {
            Ok(text) => text@.len() == 0,
            Err(error) => error@ == exhausted(resource@, capacity),
        },
{
    let mut output: String = String::new();
    if reserve_text(&mut output, capacity) {
        Ok(output)
    } else {
        Err(VisualizeError::ResourceExhausted { resource, requested: Some(capacity) })
    }
}

fn iteration_summary(context: &VisualizationContext) -> (r: Result<String, VisualizeError>)
    ensures
        match r {
            Ok(text) => text@ == "Iterations: "@ + decimal(context.iterations as int)
                + "    Seed: "@ + decimal(context.seed as int),
            Err(error) => rows_refused(error@),
        },
{
    let mut text: String = match text_with_room(96, "inspector iteration summary") {
        Ok(text) => text,
        Err(error) => {
            return Err(error);
        },
    };
    assert(text@ =~= Seq::empty());
    text.append("Iterations: ");
    assert(text@ =~= "Iterations: "@);
    push_decimal(&mut text, context.iterations as u128);
    text.append("    Seed: ");
    push_decimal(&mut text, context.seed as u128);
    Ok(text)
}

fn backend_summary(context: &VisualizationContext) -> (r: Result<String, VisualizeError>)
    ensures
        match r {
            Ok(text) => text@ == "Backend: "@ + backend_text(context.derivation_backend)
                + "    Calculation: "@ + elapsed_text(context.elapsed),
            Err(error) => rows_refused(error@),
        },
{
    let calculation: String = match context.elapsed {
        Some(millis) => {
            let mut text: String = match text_with_room(48, "inspector elapsed time") {
                Ok(text) => text,
                Err(error) => {
                    return Err(error);
                },
            };
            assert(text@ =~= Seq::empty());
            push_decimal(&mut text, millis);
            assert(text@ =~= decimal(millis as int));
            text.append(" ms");
            text
        },
        None => "unknown".to_owned(),
    };
    let backend: &str = match context.derivation_backend {
        Some(backend) => backend,
        None => "unknown",
    };
    let capacity: usize = match context.derivation_backend {
        Some(backend) => match crate::text::utf8_length(backend) {
            Some(bytes) => bytes.saturating_add(128),
            None => usize::MAX,
        },
        None => 128,
    };
    let mut text: String = match text_with_room(capacity, "inspector backend summary") {
        Ok(text) => text,
        Err(error) => {
            return Err(error);
        },
    };
    assert(text@ =~= Seq::empty());
    text.append("Backend: ");
    assert(text@ =~= "Backend: "@);
    text.append(backend);
    text.append("    Calculation: ");
    text.append(calculation.as_str());
    Ok(text)
}

fn statistics_summary(stats: &Stats<'_>, Ghost(tally): Ghost<Tally>) -> (r: Result<
    String,
    VisualizeError,
>)
    requires
        stats.modules == tally.modules,
        stats.items == tally.items,
        stats.branches == tally.branches,
        stats.max_depth == tally.max_depth,
    ensures
        match r {
            Ok(text) => text@ == "Modules: "@ + decimal(tally.modules) + "    Items: "@ + decimal(
                tally.items,
            ) + "    Branches: "@ + decimal(tally.branches) + "    Maximum depth: "@ + decimal(
                tally.max_depth,
            ),
            Err(error) => rows_refused(error@),
        },
{
    let mut text: String = match text_with_room(160, "inspector statistics summary") {
        Ok(text) => text,
        Err(error) => {
            return Err(error);
        },
    };
    assert(text@ =~= Seq::empty());
    text.append("Modules: ");
    assert(text@ =~= "Modules: "@);
    push_decimal(&mut text, stats.modules as u128);
    text.append("    Items: ");
    push_decimal(&mut text, stats.items as u128);
    text.append("    Branches: ");
    push_decimal(&mut text, stats.branches as u128);
    text.append("    Maximum depth: ");
    push_decimal(&mut text, stats.max_depth as u128);
    Ok(text)
}

fn frequency_row(name: &str, count: usize) -> (r: Result<String, VisualizeError>)
    ensures
        match r {
            Ok(text) => text@ == name@ + ": "@ + decimal(count as int),
            Err(error) => rows_refused(error@),
        },
{
    let capacity: usize = match crate::text::utf8_length(name) {
        Some(bytes) => bytes.saturating_add(32),
        None => usize::MAX,
    };
    let mut text: String = match text_with_room(capacity, "inspector frequency row") {
        Ok(text) => text,
        Err(error) => {
            return Err(error);
        },
    };
    assert(text@ =~= Seq::empty());
    text.append(name);
    assert(text@ =~= name@);
    text.append(": ");
    push_decimal(&mut text, count as u128);
    Ok(text)
}

/// Write the rows of an inspection. Room for them may be refused.
fn write_rows(
    context: &VisualizationContext,
    stats: &Stats<'_>,
    top: &Vec<(&str, usize)>,
    complete: bool,
    preview: Vec<String>,
    Ghost(seen): Ghost<Seq<Seen>>,
) -> (r: Result<Vec<TextRow>, VisualizeError>)
    requires
        stats.describe(seen),
    ensures
        match r {
            Ok(rows) => rows_written(rows@) == summary_rows(*context, tally_of(seen))
                + frequency_rows(entries_of(top@)) + seq![
                preview_heading(tally_of(seen).items, complete),
            ] + preview_rows(string_texts(preview@)),
            Err(error) => rows_refused(error@),
        },
{
    let ghost head = summary_rows(*context, tally_of(seen));
    let mut rows: Vec<TextRow> = Vec::new();
    let requested: usize = match top.len().checked_add(6) {
        Some(count) => match count.checked_add(preview.len()) {
            Some(count) => count,
            None => {
                return Err(
                    VisualizeError::ResourceExhausted {
                        resource: "inspector text rows",
                        requested: None,
                    },
                );
            },
        },
        None => {
            return Err(
                VisualizeError::ResourceExhausted {
                    resource: "inspector text rows",
                    requested: None,
                },
            );
        },
    };
    match reserve_vec(&mut rows, requested, "inspector text rows") {
        Ok(()) => {},
        Err(error) => {
            return Err(error);
        },
    }
    let body: Real = Real { bits: BODY_SIZE_BITS };
    let heading: Real = Real { bits: HEADING_SIZE_BITS };
    rows.push(
        TextRow {
            content: "Inspector".to_owned(),
            size: Real { bits: TITLE_SIZE_BITS },
            role: TextRole::Title,
        },
    );
    match iteration_summary(context) {
        Ok(content) => {
            rows.push(TextRow { content, size: body, role: TextRole::Body });
        },
        Err(error) => {
            return Err(error);
        },
    }
    match backend_summary(context) {
        Ok(content) => {
            rows.push(TextRow { content, size: body, role: TextRole::Body });
        },
        Err(error) => {
            return Err(error);
        },
    }
    match statistics_summary(stats, Ghost(tally_of(seen))) {
        Ok(content) => {
            rows.push(TextRow { content, size: body, role: TextRole::Body });
        },
        Err(error) => {
            return Err(error);
        },
    }
    rows.push(
        TextRow {
            content: "Most common modules".to_owned(),
            size: heading,
            role: TextRole::Heading,
        },
    );
    assert(rows_written(rows@) =~= head);
    let ghost common = frequency_rows(entries_of(top@));
    let mut i: usize = 0;
    while i < top.len()
        invariant
            i <= top@.len(),
            common == frequency_rows(entries_of(top@)),
            rows_written(rows@) == head + common.subrange(0, i as int),
        decreases top@.len() - i,
    {
        let entry: (&str, usize) = top[i];
        let content: String = match frequency_row(entry.0, entry.1) {
            Ok(content) => content,
            Err(error) => {
                return Err(error);
            },
        };
        let ghost before = rows@;
        rows.push(TextRow { content, size: Real { bits: ROW_SIZE_BITS }, role: TextRole::Body });
        proof {
            assert(entries_of(top@)[i as int] == (entry.0@, entry.1));
            assert(rows_written(rows@) =~= rows_written(before).push(common[i as int]));
            assert(rows_written(rows@) =~= head + common.subrange(0, i + 1));
        }
        i = i + 1;
    }
    assert(common.subrange(0, i as int) =~= common);
    let ghost before = rows@;
    rows.push(
        TextRow {
            content: if stats.items <= 500 && complete {
                "Production".to_owned()
            } else {
                "Production preview".to_owned()
            },
            size: heading,
            role: TextRole::Heading,
        },
    );
    let ghost start = head + common + seq![preview_heading(tally_of(seen).items, complete)];
    let ghost contents = string_texts(preview@);
    let ghost last = preview_rows(contents);
    assert(rows_written(rows@) =~= start);
    let mut k: usize = 0;
    while k < preview.len()
        invariant
            k <= preview@.len(),
            contents == string_texts(preview@),
            last == preview_rows(contents),
            rows_written(rows@) == start + last.subrange(0, k as int),
        decreases preview@.len() - k,
    {
        let content: String = preview[k].clone();
        let ghost written = rows@;
        rows.push(
            TextRow { content, size: Real { bits: PREVIEW_SIZE_BITS }, role: TextRole::Muted },
        );
        proof {
            assert(contents[k as int] == preview@[k as int]@);
            assert(rows_written(rows@) =~= rows_written(written).push(last[k as int]));
            assert(rows_written(rows@) =~= start + last.subrange(0, k + 1));
        }
        k = k + 1;
    }
    assert(last.subrange(0, k as int) =~= last);
    Ok(rows)
}

/// Place written rows one below the other. Room for them may be refused.
fn place_rows<C: Fn(Arithmetic) -> Real>(rows: Vec<TextRow>, calc: &C) -> (r: Result<
    Scene2d,
    VisualizeError,
>)
    requires
        calculates(*calc),
    ensures
        match r {
            Ok(scene) => shows_rows(scene, rows_written(rows@), answers(*calc)),
            Err(error) => rows_refused(error@),
        },
{
    let mut primitives: Vec<Primitive2d> = Vec::new();
    match reserve_vec(&mut primitives, rows.len(), "inspector scene primitives") {
        Ok(()) => {},
        Err(error) => {
            return Err(error);
        },
    }
    let ghost written = rows_written(rows@);
    let mut index: usize = 0;
    while index < rows.len()
        invariant
            calculates(*calc),
            index <= rows@.len(),
            written == rows_written(rows@),
            primitives@.len() == index,
            forall|i: int|
                0 <= i < index ==> (#[trigger] primitives@[i] matches Primitive2d::Text(text)
                    && text.content@ == written[i].content && text.size == written[i].size
                    && text.role == written[i].role && text.position == row_position(
                    i as usize,
                    answers(*calc),
                )),
        decreases rows@.len() - index,
    {
        let count: Real = calculate(calc, Arithmetic::Count(index));
        let down: Real = calculate(
            calc,
            Arithmetic::Product(count, Real { bits: ROW_STEP_BITS }),
        );
        let y: Real = calculate(calc, Arithmetic::Sum(Real { bits: FIRST_ROW_BITS }, down));
        let ghost before = primitives@;
        primitives.push(
            Primitive2d::Text(
                Text2d {
                    position: (Real { bits: MARGIN_BITS }, y),
                    content: rows[index].content.clone(),
                    size: rows[index].size,
                    role: rows[index].role,
                },
            ),
        );
        proof {
            assert(written[index as int] == row_of(rows@[index as int]));
            assert forall|i: int| 0 <= i < index + 1 implies (
            #[trigger] primitives@[i] matches Primitive2d::Text(text) && text.content@
                == written[i].content && text.size == written[i].size && text.role
                == written[i].role && text.position == row_position(
                i as usize,
                answers(*calc),
            )) by {
                if i < index {
                    assert(primitives@[i] == before[i]);
                }
            }
        }
        index = index + 1;
    }
    Ok(Scene2d { primitives, background: None })
}

/// Input for the inspector visualizer.
pub struct InspectorStreamRequest<'a> {
    pub generation: &'a Generation,
    pub config: InspectorConfig,
    pub context: VisualizationContext,
    /// Maximum generation items handled between progress callbacks. This is a
    /// scheduling preference, not an output limit.
    pub work_quantum: usize,
}

/// What the inspector shows of a generation.
pub open spec fn inspects(
    scene: Scene2d,
    generation: Generation,
    context: VisualizationContext,
    ev: spec_fn(Arithmetic) -> Real,
    sp: spec_fn(Module) -> Seq<Seq<char>>,
) -> bool {
    let seen = inspected(generation);
    let (preview, complete) = preview_of(generation, PREVIEW_BYTES as int, sp);
    exists|top: Seq<Entry>| #[trigger]
        most_common(top, seen) && shows_rows(
            scene,
            inspector_rows(context, seen, top, preview, complete),
            ev,
        )
}

/// The reports of a whole inspection: those of the statistics, those of the
/// preview, and the one that all is done.
pub open spec fn inspector_reports(
    generation: Generation,
    quantum: int,
    sp: spec_fn(Module) -> Seq<Seq<char>>,
) -> Seq<InspectorProgress> {
    let seen = inspected(generation);
    statistics_reports(seen, quantum) + preview_reports(
        generation,
        PREVIEW_BYTES as int,
        quantum,
        tally_of(seen),
        sp,
    ) + seq![
        progress_of(
            InspectorPhase::Complete,
            tally_of(seen),
            text_bytes(preview_of(generation, PREVIEW_BYTES as int, sp).0) as int,
        ),
    ]
}

/// An inspection could not be completed, whatever the caller did.
pub open spec fn inspection_failure(failure: Failure, seen: Seq<Seen>) -> bool {
    ||| statistics_failure(failure, seen)
    ||| failure == exhausted("inspector top frequencies"@, 13)
    ||| preview_failure(failure, PREVIEW_BYTES)
    ||| wrap_failure(failure)
    ||| rows_refused(failure)
}

/// What an inspection asks, hands over and returns.
pub open spec fn inspector_streamed<
    F: Fn() -> bool,
    E: Fn(InspectorProgress) -> Result<(), VisualizeError>,
>(
    generation: Generation,
    context: VisualizationContext,
    work_quantum: usize,
    ev: spec_fn(Arithmetic) -> Real,
    sp: spec_fn(Module) -> Seq<Seq<char>>,
    before: Outlet<InspectorProgress, F, E>,
    after: Outlet<InspectorProgress, F, E>,
    r: Result<Scene2d, VisualizeError>,
) -> bool {
    let seen = inspected(generation);
    let log = after.since(before);
    let sink = before.sink();
    let due = inspector_reports(generation, work_quantum as int, sp);
    if work_quantum == 0 {
        &&& log.len() == 0
        &&& r matches Err(error) && error@ == Failure::InvalidConfiguration(
            "inspector work quantum must be greater than zero"@,
        )
    } else {
        &&& log.len() > 0 && log[0] is Asked
        &&& told(log, due, handed(log).len() as int)
        &&& match r {
            Ok(scene) => {
                &&& undisturbed(log, sink)
                &&& handed(log) == due
                &&& asked(log) >= seen.len() + 2
                &&& log.len() >= 2 && log[log.len() - 2] is Asked
                &&& inspects(scene, generation, context, ev, sp)
            },
            Err(error) => {
                ||| stopped_by_caller(log, sink, error)
                ||| undisturbed(log, sink) && inspection_failure(error@, seen)
            },
        }
    }
}

/// An inspection whose hook only ever says yes is cancelled: the hook is asked
/// once, and the sink is handed nothing.
pub proof fn a_constant_yes_cancels_an_inspection<
    F: Fn() -> bool,
    E: Fn(InspectorProgress) -> Result<(), VisualizeError>,
>(
    generation: Generation,
    context: VisualizationContext,
    work_quantum: usize,
    ev: spec_fn(Arithmetic) -> Real,
    sp: spec_fn(Module) -> Seq<Seq<char>>,
    before: Outlet<InspectorProgress, F, E>,
    after: Outlet<InspectorProgress, F, E>,
    r: Result<Scene2d, VisualizeError>,
)
    requires
        work_quantum > 0,
        inspector_streamed(generation, context, work_quantum, ev, sp, before, after, r),
        after.ready(),
        after.follows(before),
        forall|answer: bool| #[trigger] call_ensures(before.hook(), (), answer) ==> answer,
    ensures
        r matches Err(error) && error@ == Failure::Cancelled,
        after.since(before).len() == 1,
        handed(after.since(before)).len() == 0,
{
    let log = after.since(before);
    if r is Err && turned_away(log, before.sink(), r->Err_0) {
        assert(log.last() is Handed);
    }
    a_constant_yes_is_all_that_is_heard(before, after);
}

/// Build an inspector scene with bounded work quanta and cooperative
/// cancellation.
///
/// The sink gets the reports of the inspection in order, each once. The hook is
/// asked before every item that is counted and directly before the last
/// report. The first time it says yes, or the sink refuses a report, is the
/// end.
pub fn stream_inspector<
    'a,
    F: Fn() -> bool,
    E: Fn(InspectorProgress) -> Result<(), VisualizeError>,
    W: Fn(&Module) -> Vec<String>,
    C: Fn(Arithmetic) -> Real,
>(
    request: InspectorStreamRequest<'a>,
    outlet: &mut Outlet<InspectorProgress, F, E>,
    spell: &W,
    calc: &C,
) -> (r: Result<Scene2d, VisualizeError>)
    requires
        calculates(*calc),
        spells(*spell),
        old(outlet).ready(),
    ensures
        final(outlet).ready(),
        final(outlet).follows(*old(outlet)),
        inspector_streamed(
            *request.generation,
            request.context,
            request.work_quantum,
            answers(*calc),
            spelling(*spell),
            *old(outlet),
            *final(outlet),
            r,
        ),
{
    let ghost entry = *outlet;
    let ghost sink = outlet.sink();
    let ghost seen = inspected(*request.generation);
    let ghost sp = spelling(*spell);
    let ghost first = statistics_reports(seen, request.work_quantum as int);
    let ghost second = preview_reports(
        *request.generation,
        PREVIEW_BYTES as int,
        request.work_quantum as int,
        tally_of(seen),
        sp,
    );
    let ghost due = inspector_reports(*request.generation, request.work_quantum as int, sp);
    proof {
        lemma_nothing_since(entry);
    }
    if request.work_quantum == 0 {
        return Err(invalid("inspector work quantum must be greater than zero"));
    }
    proof {
        assert(handed(outlet.since(entry)) =~= due.subrange(0, 0));
    }
    match ensure_running(outlet) {
        Ok(()) => {
            proof {
                lemma_asked_on(entry, entry, *outlet, due, 0, false);
            }
        },
        Err(error) => {
            proof {
                lemma_asked_on(entry, entry, *outlet, due, 0, true);
            }
            return Err(error);
        },
    }
    let ghost before = *outlet;
    let collected: Result<Stats<'a>, VisualizeError> = collect_stats(
        request.generation,
        request.work_quantum,
        outlet,
    );
    let ghost known = asked(outlet.since(before)) as int;
    proof {
        let more = handed(outlet.since(before)).len() as int;
        assert(first.subrange(0, more) =~= due.subrange(0, more));
        lemma_told_more(entry, before, *outlet, due, 0, more);
        if more == first.len() {
            assert(first.subrange(0, more) =~= first);
        }
    }
    let stats: Stats<'a> = match collected {
        Ok(stats) => stats,
        Err(error) => {
            return Err(error);
        },
    };
    let ghost sent = first.len() as int;
    assert(names_differ(entries_of(stats.frequencies@))) by {
        let entries = entries_of(stats.frequencies@);
        assert forall|i: int, j: int| 0 <= i < j < entries.len() implies (
        #[trigger] entries[i]).0 != (#[trigger] entries[j]).0 by {
            assert(entries[i].0 == stats.frequencies@[i].0@);
            assert(entries[j].0 == stats.frequencies@[j].0@);
        }
    }
    let ghost before = *outlet;
    let chosen: Result<Vec<(&'a str, usize)>, VisualizeError> = top_frequencies(
        &stats.frequencies,
        outlet,
    );
    proof {
        lemma_questions(outlet.since(before), sink);
        assert(due.subrange(sent, sent) =~= Seq::empty());
        lemma_told_more(entry, before, *outlet, due, sent, 0);
    }
    let top: Vec<(&'a str, usize)> = match chosen {
        Ok(top) => top,
        Err(error) => {
            return Err(error);
        },
    };
    let ghost before = *outlet;
    let shown: Result<(String, bool, usize), VisualizeError> = bounded_preview(
        request.generation,
        request.work_quantum,
        &stats,
        PREVIEW_BYTES,
        outlet,
        spell,
    );
    proof {
        let more = handed(outlet.since(before)).len() as int;
        assert(counts_of(stats) == tally_of(seen));
        assert(second.subrange(0, more) =~= due.subrange(sent, sent + more));
        lemma_told_more(entry, before, *outlet, due, sent, more);
        if more == second.len() {
            assert(second.subrange(0, more) =~= second);
        }
    }
    let (preview, complete, bytes) = match shown {
        Ok(result) => result,
        Err(error) => {
            return Err(error);
        },
    };
    let ghost sent = (first.len() + second.len()) as int;
    let ghost before = *outlet;
    let divided: Result<Vec<String>, VisualizeError> = wrap_preview(
        preview.as_str(),
        PREVIEW_WRAP_WIDTH,
        outlet,
    );
    proof {
        lemma_questions(outlet.since(before), sink);
        assert(due.subrange(sent, sent) =~= Seq::empty());
        lemma_told_more(entry, before, *outlet, due, sent, 0);
    }
    let rows: Vec<String> = match divided {
        Ok(rows) => rows,
        Err(error) => {
            return Err(error);
        },
    };
    let written: Vec<TextRow> = match write_rows(
        &request.context,
        &stats,
        &top,
        complete,
        rows,
        Ghost(seen),
    ) {
        Ok(written) => written,
        Err(error) => {
            return Err(error);
        },
    };
    let ghost before = *outlet;
    match ensure_running(outlet) {
        Ok(()) => {
            proof {
                lemma_asked_on(entry, before, *outlet, due, sent, false);
            }
        },
        Err(error) => {
            proof {
                lemma_asked_on(entry, before, *outlet, due, sent, true);
            }
            return Err(error);
        },
    }
    let progress: InspectorProgress = progress_for(InspectorPhase::Complete, &stats, bytes);
    let ghost before = *outlet;
    let reply: Result<(), VisualizeError> = outlet.hand(progress);
    proof {
        lemma_tally_bounds(seen, Seq::empty());
        assert(due[sent] == progress);
        lemma_handed_on(entry, before, *outlet, due, sent, progress, reply);
        assert(due.subrange(0, due.len() as int) =~= due);
    }
    match reply {
        Ok(_) => {},
        Err(error) => {
            return Err(error);
        },
    }
    proof {
        lemma_leading_names(stats.frequencies@, seen, entries_of(top@));
        assert(most_common(entries_of(top@), seen));
    }
    place_rows(written, calc)
}

/// One more question in the course of handing over a list.
proof fn lemma_asked_on<
    F: Fn() -> bool,
    E: Fn(InspectorProgress) -> Result<(), VisualizeError>,
>(
    start: Outlet<InspectorProgress, F, E>,
    before: Outlet<InspectorProgress, F, E>,
    now: Outlet<InspectorProgress, F, E>,
    due: Seq<InspectorProgress>,
    sent: int,
    answer: bool,
)
    requires
        before.follows(start),
        undisturbed(before.since(start), start.sink()),
        told(before.since(start), due, sent),
        now.follows(before),
        now.since(before) == seq![Exchange::<InspectorProgress>::Asked(answer)],
    ensures
        now.follows(start),
        told(now.since(start), due, sent),
        asked(now.since(start)) == asked(before.since(start)) + 1,
        now.since(start).len() > 0 && now.since(start).last() == Exchange::<
            InspectorProgress,
        >::Asked(answer),
        now.since(start)[0] == (before.since(start) + now.since(before))[0],
        if answer {
            called_off(now.since(start), start.sink())
        } else {
            undisturbed(now.since(start), start.sink())
        },
{
    let one = now.since(before);
    assert(questions(one));
    lemma_questions(one, start.sink());
    assert(due.subrange(sent, sent) =~= Seq::empty());
    lemma_told_more(start, before, now, due, sent, 0);
    lemma_since_joins(start, before, now);
    assert(one.drop_last() =~= Seq::empty());
    assert(one.last() == Exchange::<InspectorProgress>::Asked(answer));
}

/// One more report in the course of handing over a list.
proof fn lemma_handed_on<
    F: Fn() -> bool,
    E: Fn(InspectorProgress) -> Result<(), VisualizeError>,
>(
    start: Outlet<InspectorProgress, F, E>,
    before: Outlet<InspectorProgress, F, E>,
    now: Outlet<InspectorProgress, F, E>,
    due: Seq<InspectorProgress>,
    sent: int,
    progress: InspectorProgress,
    reply: Result<(), VisualizeError>,
)
    requires
        before.follows(start),
        undisturbed(before.since(start), start.sink()),
        told(before.since(start), due, sent),
        now.hook() == before.hook(),
        now.sink() == before.sink(),
        now.log() == before.log().push(Exchange::Handed(progress)),
        call_ensures(before.sink(), (progress,), reply),
        sent < due.len(),
        due[sent] == progress,
    ensures
        now.follows(start),
        now.since(start) == before.since(start).push(Exchange::Handed(progress)),
        told(now.since(start), due, sent + 1),
        asked(now.since(start)) == asked(before.since(start)),
        match reply {
            Ok(_) => undisturbed(now.since(start), start.sink()),
            Err(error) => turned_away(now.since(start), start.sink(), error),
        },
{
    let log = before.since(start);
    lemma_one_more(start, before, now, Exchange::Handed(progress));
    lemma_handed_once(log, progress);
    assert(due.subrange(0, sent).push(progress) =~= due.subrange(0, sent + 1));
    match reply {
        Ok(nothing) => {
            assert(nothing == ());
            assert(reply == Ok::<(), VisualizeError>(()));
        },
        Err(_) => {},
    }
}

/// An inspection without reports and without a cancellation hook.
pub fn visualize_inspector<W: Fn(&Module) -> Vec<String>, C: Fn(Arithmetic) -> Real>(
    generation: &Generation,
    config: InspectorConfig,
    context: VisualizationContext,
    spell: &W,
    calc: &C,
) -> (r: Result<Scene2d, VisualizeError>)
    requires
        calculates(*calc),
        spells(*spell),
    ensures
        match r {
            Ok(scene) => inspects(
                scene,
                *generation,
                context,
                answers(*calc),
                spelling(*spell),
            ),
            Err(error) => inspection_failure(error@, inspected(*generation)),
        },
{
    let never_cancelled = || -> (r: bool)
        ensures
            !r,
        { false };
    let unheard = |_progress: InspectorProgress| -> (r: Result<(), VisualizeError>)
        ensures
            r == Ok::<(), VisualizeError>(()),
        { Ok(()) };
    let mut outlet = Outlet::new(never_cancelled, unheard);
    let ghost entry = outlet;
    let r: Result<Scene2d, VisualizeError> = stream_inspector(
        InspectorStreamRequest {
            generation,
            config,
            context,
            work_quantum: COMPATIBILITY_WORK_QUANTUM,
        },
        &mut outlet,
        spell,
        calc,
    );
    proof {
        if r is Err && stopped_by_caller(outlet.since(entry), entry.sink(), r->Err_0) {
            a_patient_caller_stops_nothing(entry, outlet, r->Err_0);
        }
    }
    r
}

proof fn lemma_tally_grows(seen: Seq<Seen>, k: int)
    requires
        0 <= k <= seen.len(),
    ensures
        tally_of(seen.subrange(0, k)).items <= tally_of(seen).items,
        tally_of(seen.subrange(0, k)).modules <= tally_of(seen).modules,
        tally_of(seen.subrange(0, k)).branches <= tally_of(seen).branches,
        tally_of(seen.subrange(0, k)).max_depth <= tally_of(seen).max_depth,
    decreases seen.len(),
{
    if k == seen.len() {
        assert(seen.subrange(0, k) =~= seen);
    } else {
        let init = seen.drop_last();
        assert(init.subrange(0, k) =~= seen.subrange(0, k));
        lemma_tally_grows(init, k);
    }
}

/// Later reports never fall behind earlier ones.
pub proof fn inspector_progress_grows(seen: Seq<Seen>, early: int, late: int)
    requires
        0 <= early <= late <= seen.len(),
    ensures
        ({
            let before = tally_of(seen.subrange(0, early));
            let after = tally_of(seen.subrange(0, late));
            &&& before.items <= after.items
            &&& before.modules <= after.modules
            &&& before.branches <= after.branches
            &&& before.max_depth <= after.max_depth
        }),
{
    let part = seen.subrange(0, late);
    lemma_tally_grows(part, early);
    assert(part.subrange(0, early) =~= seen.subrange(0, early));
}

/// The order of the phases.
pub open spec fn phase_rank(phase: InspectorPhase) -> int {
    match phase {
        InspectorPhase::Statistics => 0,
        InspectorPhase::Preview => 1,
        InspectorPhase::Complete => 2,
    }
}

/// A report does not fall behind another.
pub open spec fn not_behind(early: InspectorProgress, late: InspectorProgress) -> bool {
    &&& phase_rank(early.phase) <= phase_rank(late.phase)
    &&& early.items_processed <= late.items_processed
    &&& early.modules <= late.modules
    &&& early.branches <= late.branches
    &&& early.max_branch_depth <= late.max_branch_depth
    &&& early.preview_bytes <= late.preview_bytes
}

proof fn lemma_depths_bounded(waiting: Seq<(Seq<GenerationItem>, int)>, bound: int)
    requires
        forall|i: int| 0 <= i < waiting.len() ==> 0 <= (#[trigger] waiting[i]).1 <= bound,
    ensures
        forall|i: int|
            0 <= i < inspection(waiting).len() ==> 0 <= (#[trigger] inspection(waiting)[i]).1
                <= bound + i,
    decreases waiting_work(waiting),
{
    if waiting.len() > 0 {
        let (items, depth) = waiting.last();
        assert(waiting[waiting.len() - 1] == waiting.last());
        let found = branches_among(items, depth + 1);
        let next = waiting.drop_last() + found;
        lemma_waiting_join(waiting.drop_last(), found);
        lemma_branches_lighter(items, depth + 1);
        lemma_branch_depths(items, depth + 1);
        let own = listed(items, depth);
        let later = bound + own.len();
        assert forall|i: int| 0 <= i < next.len() implies 0 <= (#[trigger] next[i]).1 <= later by {
            if i < waiting.len() - 1 {
                assert(next[i] == waiting[i]);
            } else {
                assert(next[i] == found[i - (waiting.len() - 1)]);
            }
        }
        lemma_depths_bounded(next, later);
        let all = inspection(waiting);
        assert(all =~= own + inspection(next));
        assert forall|i: int| 0 <= i < all.len() implies 0 <= (#[trigger] all[i]).1 <= bound
            + i by {
            if i < own.len() {
                assert(all[i] == own[i]);
            } else {
                assert(all[i] == inspection(next)[i - own.len()]);
            }
        }
    }
}

proof fn lemma_branch_depths(items: Seq<GenerationItem>, depth: int)
    ensures
        forall|i: int|
            0 <= i < branches_among(items, depth).len() ==> (#[trigger] branches_among(
                items,
                depth,
            )[i]).1 == depth,
        branches_among(items, depth).len() <= items.len(),
    decreases items.len(),
{
    if items.len() > 0 {
        lemma_branch_depths(items.drop_last(), depth);
    }
}

proof fn lemma_tally_depth(seen: Seq<Seen>)
    requires
        forall|i: int| 0 <= i < seen.len() ==> (#[trigger] seen[i]).1 <= i,
    ensures
        tally_of(seen).max_depth <= seen.len(),
    decreases seen.len(),
{
    if seen.len() > 0 {
        let init = seen.drop_last();
        assert forall|i: int| 0 <= i < init.len() implies (#[trigger] init[i]).1 <= i by {
            assert(init[i] == seen[i]);
        }
        lemma_tally_depth(init);
        assert(seen[seen.len() - 1].1 <= seen.len() - 1);
    }
}

/// The reports of the statistics never fall back.
proof fn lemma_statistics_grow(generation: Generation, quantum: int, i: int, j: int)
    requires
        quantum > 0,
        inspected(generation).len() <= usize::MAX,
        0 <= i <= j < statistics_reports(inspected(generation), quantum).len(),
    ensures
        ({
            let reports = statistics_reports(inspected(generation), quantum);
            let whole = tally_of(inspected(generation));
            &&& not_behind(reports[i], reports[j])
            &&& reports[j].phase == InspectorPhase::Statistics
            &&& reports[j].preview_bytes == 0
            &&& reports[j].items_processed <= whole.items
            &&& reports[j].modules <= whole.modules
            &&& reports[j].branches <= whole.branches
            &&& reports[j].max_branch_depth <= whole.max_depth
        }),
{
    let seen = inspected(generation);
    let total = seen.len() as int;
    let reach = |k: int|
        if (k + 1) * quantum <= total {
            (k + 1) * quantum
        } else {
            total
        };
    assert((i + 1) * quantum <= (j + 1) * quantum) by (nonlinear_arith)
        requires
            i <= j,
            quantum > 0,
    ;
    assert((i + 1) * quantum >= 0) by (nonlinear_arith)
        requires
            i >= 0,
            quantum > 0,
    ;
    let (a, b) = (reach(i), reach(j));
    inspector_progress_grows(seen, a, b);
    inspector_progress_grows(seen, b, total);
    assert(seen.subrange(0, total) =~= seen);
    lemma_whole_tally(generation);
    lemma_tally_bounds(seen.subrange(0, a), Seq::empty());
    lemma_tally_bounds(seen.subrange(0, b), Seq::empty());
}

/// The counts of an inspection fit.
proof fn lemma_whole_tally(generation: Generation)
    ensures
        ({
            let seen = inspected(generation);
            let whole = tally_of(seen);
            &&& whole.items == seen.len()
            &&& 0 <= whole.modules <= seen.len()
            &&& 0 <= whole.branches <= seen.len()
            &&& 0 <= whole.max_depth <= seen.len()
        }),
{
    let seen = inspected(generation);
    let waiting = seq![(generation.0@, 0int)];
    lemma_tally_bounds(seen, Seq::empty());
    lemma_depths_bounded(waiting, 0);
    assert forall|i: int| 0 <= i < seen.len() implies (#[trigger] seen[i]).1 <= i by {
        assert(inspection(waiting)[i].1 <= 0 + i);
    }
    lemma_tally_depth(seen);
}

/// The reports of the preview never fall back, and stay below the whole.
proof fn lemma_preview_grows(
    generation: Generation,
    quantum: int,
    tally: Tally,
    sp: spec_fn(Module) -> Seq<Seq<char>>,
    i: int,
    j: int,
)
    requires
        quantum > 0,
        0 <= i <= j < preview_reports(
            generation,
            PREVIEW_BYTES as int,
            quantum,
            tally,
            sp,
        ).len(),
    ensures
        ({
            let reports = preview_reports(generation, PREVIEW_BYTES as int, quantum, tally, sp);
            let shown = text_bytes(preview_of(generation, PREVIEW_BYTES as int, sp).0);
            &&& reports[i] == progress_of(
                InspectorPhase::Preview,
                tally,
                reports[i].preview_bytes as int,
            )
            &&& reports[j] == progress_of(
                InspectorPhase::Preview,
                tally,
                reports[j].preview_bytes as int,
            )
            &&& reports[i].preview_bytes <= reports[j].preview_bytes <= shown <= usize::MAX
        }),
{
    let limit = PREVIEW_BYTES as int;
    let pieces = writes_from(generation.0@, 0, sp);
    let spans = spans_from(generation.0@, 0, 0, sp);
    let count = fitting(pieces, 0, content_limit(limit));
    let visited = visited_items(spans, count);
    let full = visited / quantum;
    let reports = preview_reports(generation, limit, quantum, tally, sp);
    lemma_fitting_bounds(pieces, 0, content_limit(limit));
    lemma_fitting_bytes(pieces, 0, content_limit(limit));
    lemma_spans_sorted(generation.0@, 0, 0, sp);
    lemma_bytes_at_grow(pieces, 0, count);
    lemma_visited(spans, count, 0);
    assert(full >= 0) by (nonlinear_arith)
        requires
            visited >= 0,
            quantum > 0,
            full == visited / quantum,
    ;
    let content = joined(pieces.subrange(0, count));
    assert(content.push('…').drop_last() =~= content);
    assert(content.push('…').last() == '…');
    let at = |k: int|
        if k < full {
            spans[(k + 1) * quantum - 1].1
        } else {
            count
        };
    assert forall|k: int| 0 <= k < reports.len() implies reports[k] == progress_of(
        InspectorPhase::Preview,
        tally,
        bytes_at(pieces, #[trigger] at(k)),
    ) && 0 <= at(k) <= count by {
        if k < full {
            lemma_report_place(visited, quantum, k);
            let place = (k + 1) * quantum - 1;
            lemma_visited_ends(spans, count, place);
            assert(0 <= spans[place].1);
            assert(at(k) == spans[place].1);
        } else {
            assert(k == full);
            assert(at(k) == count);
        }
    }
    assert(at(i) <= at(j)) by {
        if j < full && i < j {
            lemma_report_place(visited, quantum, i);
            lemma_report_place(visited, quantum, j);
            lemma_visited_ends(spans, count, (j + 1) * quantum - 1);
            assert((i + 1) * quantum < (j + 1) * quantum) by (nonlinear_arith)
                requires
                    i < j,
                    quantum > 0,
            ;
        }
    }
    lemma_bytes_at_grow(pieces, at(i), at(j));
    lemma_bytes_at_grow(pieces, at(j), count);
}

proof fn lemma_report_place(visited: int, quantum: int, k: int)
    requires
        quantum > 0,
        0 <= k < visited / quantum,
    ensures
        0 <= (k + 1) * quantum - 1 < visited,
{
    assert((k + 1) * quantum <= visited) by (nonlinear_arith)
        requires
            quantum > 0,
            k + 1 <= visited / quantum,
    ;
    assert((k + 1) * quantum >= 1) by (nonlinear_arith)
        requires
            quantum > 0,
            k >= 0,
    ;
}

/// No count of an inspection falls back from one report to a later one, and no
/// phase returns: the statistics come first, then the preview, and then one
/// report that all is done, with every item counted.
pub proof fn reports_never_fall_back(
    generation: Generation,
    quantum: int,
    sp: spec_fn(Module) -> Seq<Seq<char>>,
    i: int,
    j: int,
)
    requires
        quantum > 0,
        inspected(generation).len() <= usize::MAX,
        0 <= i < j < inspector_reports(generation, quantum, sp).len(),
    ensures
        ({
            let reports = inspector_reports(generation, quantum, sp);
            &&& not_behind(reports[i], reports[j])
            &&& reports[i].phase != InspectorPhase::Complete
            &&& reports.last().phase == InspectorPhase::Complete
            &&& reports.last().items_processed == inspected(generation).len()
        }),
{
    let seen = inspected(generation);
    let whole = tally_of(seen);
    let limit = PREVIEW_BYTES as int;
    let first = statistics_reports(seen, quantum);
    let second = preview_reports(generation, limit, quantum, whole, sp);
    let reports = inspector_reports(generation, quantum, sp);
    let (a, b) = (first.len() as int, second.len() as int);
    lemma_whole_tally(generation);
    lemma_shown_fits(generation, sp);
    if i < a {
        lemma_statistics_grow(generation, quantum, i, if j < a {
            j
        } else {
            i
        });
        assert(reports[i] == first[i]);
    } else {
        assert(reports[i] == second[i - a]);
        lemma_preview_grows(generation, quantum, whole, sp, i - a, if j < a + b {
            j - a
        } else {
            i - a
        });
    }
    if j < a {
        assert(reports[j] == first[j]);
    } else if j < a + b {
        assert(reports[j] == second[j - a]);
        lemma_preview_grows(generation, quantum, whole, sp, j - a, j - a);
    }
}

/// What a preview shows can be counted.
proof fn lemma_shown_fits(generation: Generation, sp: spec_fn(Module) -> Seq<Seq<char>>)
    ensures
        0 <= text_bytes(preview_of(generation, PREVIEW_BYTES as int, sp).0) <= PREVIEW_BYTES,
{
    let limit = PREVIEW_BYTES as int;
    let pieces = writes_from(generation.0@, 0, sp);
    let count = fitting(pieces, 0, content_limit(limit));
    lemma_fitting_bounds(pieces, 0, content_limit(limit));
    lemma_fitting_bytes(pieces, 0, content_limit(limit));
    lemma_bytes_at_grow(pieces, 0, count);
    let content = joined(pieces.subrange(0, count));
    assert(content.push('…').drop_last() =~= content);
    assert(content.push('…').last() == '…');
}

} // verus!
