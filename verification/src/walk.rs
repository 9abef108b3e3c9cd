//! Depth-first traversal of a generation with saved and restored turtle states.

use vstd::prelude::*;

use crate::error::{checked_increment, exhausted, resource_error, Failure, VisualizeError};
use crate::generation::{item_weight, weight, GenerationItem, Module};
use crate::geometry::StrokeColor;

verus! {

/// Monotonic progress reported by the incremental turtle visualizer.
#[derive(Debug, Clone, Copy, PartialEq, Eq, Structural)]
pub struct Turtle2dProgress {
    /// Modules and branch nodes consumed from the generation.
    pub items_processed: usize,
    pub modules_processed: usize,
    pub branches_entered: usize,
    pub lines_emitted: usize,
    pub polygons_emitted: usize,
    pub active_branch_depth: usize,
    pub max_branch_depth: usize,
}

impl Turtle2dProgress {
    /// Nothing has been processed yet.
    pub open spec fn none() -> Turtle2dProgress {
        Turtle2dProgress {
            items_processed: 0,
            modules_processed: 0,
            branches_entered: 0,
            lines_emitted: 0,
            polygons_emitted: 0,
            active_branch_depth: 0,
            max_branch_depth: 0,
        }
    }
}

impl Default for Turtle2dProgress {
    fn default() -> (r: Self)
        ensures
            r == Turtle2dProgress::none(),
    {
        Turtle2dProgress {
            items_processed: 0,
            modules_processed: 0,
            branches_entered: 0,
            lines_emitted: 0,
            polygons_emitted: 0,
            active_branch_depth: 0,
            max_branch_depth: 0,
        }
    }
}

/// The names under which a traversal reports what it ran out of.
#[derive(Debug, Clone, Copy)]
pub struct WalkLabels {
    pub items: &'static str,
    pub modules: &'static str,
    pub branches: &'static str,
    pub lines: &'static str,
    pub polygons: &'static str,
    pub stack: &'static str,
}

/// One level of a traversal: the items of a branch, the next one to process,
/// and the state to return to behind the branch.
pub struct Frame<'a, S> {
    pub items: &'a [GenerationItem],
    pub next: usize,
    pub restore: Option<S>,
}

/// One level of a traversal.
pub struct Level<S> {
    pub items: Seq<GenerationItem>,
    pub next: int,
    pub restore: Option<S>,
}

impl<'a, S> View for Frame<'a, S> {
    type V = Level<S>;

    open spec fn view(&self) -> Level<S> {
        Level { items: self.items@, next: self.next as int, restore: self.restore }
    }
}

/// A traversal: its levels, the current state, and the progress.
pub struct Place<S> {
    pub levels: Seq<Level<S>>,
    pub state: S,
    pub progress: Turtle2dProgress,
}

/// What one step of a traversal meets.
pub enum Meeting {
    /// The end of a branch, or of the generation.
    End,
    Branch,
    Module(Module),
}

/// A level that has not gone past its end.
pub open spec fn level_valid<S>(level: Level<S>) -> bool {
    0 <= level.next <= level.items.len()
}

/// The steps left on some levels.
pub open spec fn levels_work<S>(levels: Seq<Level<S>>) -> nat
    decreases levels.len(),
{
    if levels.len() == 0 {
        0
    } else {
        levels_work(levels.drop_last()) + 1 + weight(
            levels.last().items.subrange(levels.last().next, levels.last().items.len() as int),
        )
    }
}

/// The traversal is at the end of its innermost level.
pub open spec fn at_end<S>(place: Place<S>) -> bool {
    place.levels.last().next == place.levels.last().items.len()
}

/// The place after leaving the innermost level.
pub open spec fn left<S>(place: Place<S>) -> Place<S> {
    let levels = place.levels.drop_last();
    Place {
        levels,
        state: match place.levels.last().restore {
            Some(saved) => saved,
            None => place.state,
        },
        progress: Turtle2dProgress {
            active_branch_depth: if levels.len() == 0 {
                0
            } else {
                (levels.len() - 1) as usize
            },
            ..place.progress
        },
    }
}

/// The next count, or the failure of a full counter.
pub open spec fn counted(value: usize, resource: Seq<char>) -> Result<usize, Failure> {
    if value == usize::MAX {
        Err(exhausted(resource, usize::MAX))
    } else {
        Ok((value + 1) as usize)
    }
}

/// The levels with the innermost one moved past its current item.
pub open spec fn past_item<S>(levels: Seq<Level<S>>) -> Seq<Level<S>> {
    levels.update(
        levels.len() - 1,
        Level { next: levels.last().next + 1, ..levels.last() },
    )
}

/// The place after entering a branch.
pub open spec fn entered<S>(
    place: Place<S>,
    branch: Seq<GenerationItem>,
    labels: WalkLabels,
) -> Result<Place<S>, Failure> {
    match counted(place.progress.items_processed, labels.items@) {
        Err(failure) => Err(failure),
        Ok(items_processed) => match counted(
            place.progress.branches_entered,
            labels.branches@,
        ) {
            Err(failure) => Err(failure),
            Ok(branches_entered) => if place.levels.len() >= usize::MAX {
                Err(exhausted(labels.stack@, usize::MAX))
            } else {
                let levels = past_item(place.levels).push(
                    Level { items: branch, next: 0, restore: Some(place.state) },
                );
                let depth = place.levels.len() as usize;
                Ok(
                    Place {
                        levels,
                        state: place.state,
                        progress: Turtle2dProgress {
                            items_processed,
                            branches_entered,
                            active_branch_depth: depth,
                            max_branch_depth: if depth > place.progress.max_branch_depth {
                                depth
                            } else {
                                place.progress.max_branch_depth
                            },
                            ..place.progress
                        },
                    },
                )
            },
        },
    }
}

/// The place after reaching a module.
pub open spec fn reached<S>(place: Place<S>, labels: WalkLabels) -> Result<Place<S>, Failure> {
    match counted(place.progress.items_processed, labels.items@) {
        Err(failure) => Err(failure),
        Ok(items_processed) => match counted(
            place.progress.modules_processed,
            labels.modules@,
        ) {
            Err(failure) => Err(failure),
            Ok(modules_processed) => Ok(
                Place {
                    levels: past_item(place.levels),
                    state: place.state,
                    progress: Turtle2dProgress {
                        items_processed,
                        modules_processed,
                        ..place.progress
                    },
                },
            ),
        },
    }
}

/// One step of a traversal: the place behind it, and what it met.
pub open spec fn stepped<S>(place: Place<S>, labels: WalkLabels) -> Result<
    (Place<S>, Meeting),
    Failure,
> {
    if at_end(place) {
        Ok((left(place), Meeting::End))
    } else {
        match place.levels.last().items[place.levels.last().next] {
            GenerationItem::Branch(branch) => match entered(place, branch.0@, labels) {
                Ok(next) => Ok((next, Meeting::Branch)),
                Err(failure) => Err(failure),
            },
            GenerationItem::Module(module) => match reached(place, labels) {
                Ok(next) => Ok((next, Meeting::Module(module))),
                Err(failure) => Err(failure),
            },
        }
    }
}

/// The levels with the rest of the innermost one skipped.
pub open spec fn cut_off<S>(levels: Seq<Level<S>>) -> Seq<Level<S>> {
    levels.update(
        levels.len() - 1,
        Level { next: levels.last().items.len() as int, ..levels.last() },
    )
}

proof fn lemma_weight_rest(items: Seq<GenerationItem>, next: int)
    requires
        0 <= next < items.len(),
    ensures
        weight(items.subrange(next, items.len() as int)) == item_weight(items[next]) + weight(
            items.subrange(next + 1, items.len() as int),
        ),
{
    let rest = items.subrange(next, items.len() as int);
    assert(rest[0] == items[next]);
    assert(rest.subrange(1, rest.len() as int) =~= items.subrange(next + 1, items.len() as int));
}

/// A step leaves less to do.
pub proof fn lemma_step_shrinks<S>(place: Place<S>, labels: WalkLabels)
    requires
        place.levels.len() > 0,
        forall|i: int| 0 <= i < place.levels.len() ==> level_valid(#[trigger] place.levels[i]),
        stepped(place, labels) is Ok,
    ensures
        levels_work((stepped(place, labels)->Ok_0).0.levels) < levels_work(place.levels),
        ({
            let levels = (stepped(place, labels)->Ok_0).0.levels;
            &&& forall|i: int| 0 <= i < levels.len() ==> level_valid(#[trigger] levels[i])
            &&& !at_end(place) ==> levels.len() > 0
        }),
{
    let (next, meeting) = stepped(place, labels)->Ok_0;
    let last = place.levels.last();
    if at_end(place) {
        assert(next.levels =~= place.levels.drop_last());
    } else {
        assert(level_valid(place.levels[place.levels.len() - 1]));
        lemma_weight_rest(last.items, last.next);
        let moved = past_item(place.levels);
        assert(moved.drop_last() =~= place.levels.drop_last());
        assert(moved.last().items == last.items);
        match last.items[last.next] {
            GenerationItem::Branch(branch) => {
                assert(next.levels.drop_last() =~= moved);
                assert(next.levels.last().items.subrange(0, branch.0@.len() as int)
                    =~= branch.0@);
                assert(levels_work(next.levels) == levels_work(moved) + 1 + weight(branch.0@));
            },
            GenerationItem::Module(module) => {
                assert(next.levels =~= moved);
            },
        }
    }
}

/// Skipping the rest of a level does not add to what is left.
pub proof fn lemma_cut_shrinks<S>(levels: Seq<Level<S>>)
    requires
        levels.len() > 0,
        forall|i: int| 0 <= i < levels.len() ==> level_valid(#[trigger] levels[i]),
    ensures
        levels_work(cut_off(levels)) <= levels_work(levels),
        forall|i: int|
            0 <= i < levels.len() ==> level_valid(#[trigger] cut_off(levels)[i]),
{
    let cut = cut_off(levels);
    assert(cut.drop_last() =~= levels.drop_last());
    let last = cut.last();
    assert(last.items.subrange(last.next, last.items.len() as int) =~= Seq::empty());
}

/// A step of an executed traversal.
pub enum WalkStep<'a> {
    End,
    Branch,
    /// A module and its depth-first index.
    Module(&'a Module, usize),
}

/// A traversal in progress.
pub struct Walk<'a, S> {
    pub frames: Vec<Frame<'a, S>>,
    pub state: S,
    pub progress: Turtle2dProgress,
}

/// The views of some frames.
pub open spec fn levels_of<'a, S>(frames: Seq<Frame<'a, S>>) -> Seq<Level<S>> {
    frames.map_values(|f: Frame<'a, S>| f@)
}

impl<'a, S: Copy> Walk<'a, S> {
    pub open spec fn place(self) -> Place<S> {
        Place { levels: levels_of(self.frames@), state: self.state, progress: self.progress }
    }

    /// No level has gone past its end.
    pub open spec fn valid(self) -> bool {
        forall|i: int| 0 <= i < self.frames@.len() ==> level_valid(#[trigger] self.frames@[i]@)
    }

    /// The place at which a traversal begins.
    pub open spec fn beginning(items: Seq<GenerationItem>, state: S) -> Place<S> {
        Place {
            levels: seq![Level { items, next: 0, restore: None }],
            state,
            progress: Turtle2dProgress::none(),
        }
    }

    /// Begin a traversal. Room for the first level may be refused.
    pub fn begin(items: &'a [GenerationItem], state: S, labels: WalkLabels) -> (r: Result<
        Walk<'a, S>,
        VisualizeError,
    >)
        ensures
            match r {
                Ok(walk) => walk.valid() && walk.place() == Walk::<'a, S>::beginning(
                    items@,
                    state,
                ),
                Err(error) => error@ == exhausted(labels.stack@, 1),
            },
    {
        let mut frames: Vec<Frame<'a, S>> = Vec::new();
        if frames.try_reserve(1).is_err() {
            return Err(resource_error(labels.stack, 1));
        }
        frames.push(Frame { items, next: 0, restore: None });
        let walk: Walk<'a, S> = Walk {
            frames,
            state,
            progress: <Turtle2dProgress as Default>::default(),
        };
        assert(levels_of(walk.frames@) =~= Walk::<'a, S>::beginning(items@, state).levels);
        Ok(walk)
    }

    /// Take one step. Room for another level may be refused.
    pub fn step(&mut self, labels: WalkLabels) -> (r: Result<WalkStep<'a>, VisualizeError>)
        requires
            old(self).valid(),
            old(self).frames@.len() > 0,
        ensures
            final(self).valid(),
            match r {
                Ok(step) => stepped(old(self).place(), labels) == Ok::<_, Failure>(
                    (
                        final(self).place(),
                        match step {
                            WalkStep::End => Meeting::End,
                            WalkStep::Branch => Meeting::Branch,
                            WalkStep::Module(module, _) => Meeting::Module(*module),
                        },
                    ),
                ) && (step matches WalkStep::Module(_, index) ==> index == old(
                    self,
                ).progress.modules_processed),
                Err(error) => {
                    ||| stepped(old(self).place(), labels) == Err::<(Place<S>, Meeting), _>(
                        error@,
                    )
                    ||| stepped(old(self).place(), labels) matches Ok((_, Meeting::Branch))
                        && error@ == exhausted(
                        labels.stack@,
                        (old(self).frames@.len() + 1) as usize,
                    )
                },
            },
    {
        let ghost before = self.place();
        let ghost old_frames = self.frames@;
        let top: usize = self.frames.len() - 1;
        assert(before.levels.last() == old_frames[top as int]@);
        assert(level_valid(old_frames[top as int]@));
        let items: &'a [GenerationItem] = self.frames[top].items;
        let next: usize = self.frames[top].next;
        if next == items.len() {
            let restore: Option<S> = self.frames[top].restore;
            self.frames.pop();
            match restore {
                Some(saved) => {
                    self.state = saved;
                },
                None => {},
            }
            self.progress.active_branch_depth = if self.frames.len() == 0 {
                0
            } else {
                self.frames.len() - 1
            };
            assert(levels_of(self.frames@) =~= left(before).levels);
            assert forall|i: int| 0 <= i < self.frames@.len() implies level_valid(
                #[trigger] self.frames@[i]@,
            ) by {
                assert(self.frames@[i] == old_frames[i]);
            }
            return Ok(WalkStep::End);
        }
        let restore: Option<S> = self.frames[top].restore;
        self.frames.set(top, Frame { items, next: next + 1, restore });
        assert(levels_of(self.frames@) =~= past_item(before.levels));
        assert forall|i: int| 0 <= i < self.frames@.len() implies level_valid(
            #[trigger] self.frames@[i]@,
        ) by {
            if i != top {
                assert(self.frames@[i] == old_frames[i]);
            }
        }
        let items_processed: usize = match checked_increment(
            self.progress.items_processed,
            labels.items,
        ) {
            Ok(count) => count,
            Err(error) => {
                return Err(error);
            },
        };
        match &items[next] {
            GenerationItem::Module(module) => {
                let index: usize = self.progress.modules_processed;
                let modules_processed: usize = match checked_increment(index, labels.modules) {
                    Ok(count) => count,
                    Err(error) => {
                        return Err(error);
                    },
                };
                self.progress.items_processed = items_processed;
                self.progress.modules_processed = modules_processed;
                Ok(WalkStep::Module(module, index))
            },
            GenerationItem::Branch(branch) => {
                let branches_entered: usize = match checked_increment(
                    self.progress.branches_entered,
                    labels.branches,
                ) {
                    Ok(count) => count,
                    Err(error) => {
                        return Err(error);
                    },
                };
                let depth: usize = self.frames.len();
                let requested: usize = match depth.checked_add(1) {
                    Some(requested) => requested,
                    None => {
                        return Err(resource_error(labels.stack, usize::MAX));
                    },
                };
                if self.frames.try_reserve(1).is_err() {
                    return Err(resource_error(labels.stack, requested));
                }
                let ghost moved = self.frames@;
                self.frames.push(
                    Frame { items: branch.items(), next: 0, restore: Some(self.state) },
                );
                self.progress.items_processed = items_processed;
                self.progress.branches_entered = branches_entered;
                self.progress.active_branch_depth = depth;
                if depth > self.progress.max_branch_depth {
                    self.progress.max_branch_depth = depth;
                }
                assert(levels_of(self.frames@) =~= levels_of(moved).push(
                    Level { items: branch.0@, next: 0, restore: Some(before.state) },
                ));
                assert forall|i: int| 0 <= i < self.frames@.len() implies level_valid(
                    #[trigger] self.frames@[i]@,
                ) by {
                    if i < moved.len() {
                        assert(self.frames@[i] == moved[i]);
                    }
                }
                Ok(WalkStep::Branch)
            },
        }
    }

    /// Skip the rest of the innermost level.
    pub fn cut(&mut self)
        requires
            old(self).valid(),
            old(self).frames@.len() > 0,
        ensures
            final(self).valid(),
            final(self).place() == (Place {
                levels: cut_off(old(self).place().levels),
                ..old(self).place()
            }),
    {
        let ghost before = self.frames@;
        let top: usize = self.frames.len() - 1;
        let items: &'a [GenerationItem] = self.frames[top].items;
        let restore: Option<S> = self.frames[top].restore;
        self.frames.set(top, Frame { items, next: items.len(), restore });
        assert(levels_of(self.frames@) =~= cut_off(levels_of(before)));
        assert forall|i: int| 0 <= i < self.frames@.len() implies level_valid(
            #[trigger] self.frames@[i]@,
        ) by {
            if i != top {
                assert(self.frames@[i] == before[i]);
            }
        }
    }
}

/// The vertices of a polygon and its colour.
pub struct Outline<P> {
    pub vertices: Seq<P>,
    pub color: StrokeColor,
}

/// What visiting a module emits.
pub enum Emission<L, P> {
    Line(L),
    Polygon(Outline<P>),
    /// The rest of the branch is skipped.
    Cut,
    Nothing,
}

/// The effect of visiting a module.
pub struct Effect<S, L, P> {
    pub state: S,
    pub outlines: Seq<Outline<P>>,
    pub emission: Emission<L, P>,
}

/// A turtle: its place, and the polygons it has begun.
pub struct Turtle<S, P> {
    pub place: Place<S>,
    pub outlines: Seq<Outline<P>>,
}

/// One processed item.
pub enum Event<S, L, P> {
    Entered,
    /// A module, the state at which it began, and what it emitted.
    Visited { index: int, before: S, emission: Emission<L, P> },
}

/// The place after an emission has been counted.
pub open spec fn accounted<S, L, P>(
    place: Place<S>,
    emission: Emission<L, P>,
    labels: WalkLabels,
) -> Result<Place<S>, Failure> {
    match emission {
        Emission::Line(_) => match counted(place.progress.lines_emitted, labels.lines@) {
            Err(failure) => Err(failure),
            Ok(lines_emitted) => Ok(
                Place {
                    progress: Turtle2dProgress { lines_emitted, ..place.progress },
                    ..place
                },
            ),
        },
        Emission::Polygon(_) => match counted(place.progress.polygons_emitted, labels.polygons@) {
            Err(failure) => Err(failure),
            Ok(polygons_emitted) => Ok(
                Place {
                    progress: Turtle2dProgress { polygons_emitted, ..place.progress },
                    ..place
                },
            ),
        },
        Emission::Cut => Ok(Place { levels: cut_off(place.levels), ..place }),
        Emission::Nothing => Ok(place),
    }
}

/// One step of a turtle, and the item it processed if it processed one.
pub open spec fn moved<S, L, P>(
    turtle: Turtle<S, P>,
    labels: WalkLabels,
    visit: spec_fn(Module, S, Seq<Outline<P>>) -> Result<Effect<S, L, P>, Failure>,
) -> Result<(Turtle<S, P>, Option<Event<S, L, P>>), Failure> {
    match stepped(turtle.place, labels) {
        Err(failure) => Err(failure),
        Ok((place, Meeting::End)) => Ok((Turtle { place, ..turtle }, None)),
        Ok((place, Meeting::Branch)) => Ok((Turtle { place, ..turtle }, Some(Event::Entered))),
        Ok((place, Meeting::Module(module))) => match visit(module, place.state, turtle.outlines) {
            Err(failure) => Err(failure),
            Ok(effect) => match accounted(
                Place { state: effect.state, ..place },
                effect.emission,
                labels,
            ) {
                Err(failure) => Err(failure),
                Ok(next) => Ok(
                    (
                        Turtle { place: next, outlines: effect.outlines },
                        Some(
                            Event::Visited {
                                index: turtle.place.progress.modules_processed as int,
                                before: place.state,
                                emission: effect.emission,
                            },
                        ),
                    ),
                ),
            },
        },
    }
}

/// Every level of a turtle is within its items.
pub open spec fn turtle_valid<S, P>(turtle: Turtle<S, P>) -> bool {
    forall|i: int|
        0 <= i < turtle.place.levels.len() ==> level_valid(#[trigger] turtle.place.levels[i])
}

/// A step of a turtle leaves less to do.
pub proof fn lemma_move_shrinks<S, L, P>(
    turtle: Turtle<S, P>,
    labels: WalkLabels,
    visit: spec_fn(Module, S, Seq<Outline<P>>) -> Result<Effect<S, L, P>, Failure>,
)
    requires
        turtle_valid(turtle),
        turtle.place.levels.len() > 0,
        moved(turtle, labels, visit) is Ok,
    ensures
        turtle_valid((moved(turtle, labels, visit)->Ok_0).0),
        levels_work((moved(turtle, labels, visit)->Ok_0).0.place.levels) < levels_work(
            turtle.place.levels,
        ),
{
    lemma_step_shrinks(turtle.place, labels);
    let (place, meeting) = stepped(turtle.place, labels)->Ok_0;
    if meeting is Module {
        lemma_cut_shrinks(place.levels);
    }
}

/// What a turtle does until it has processed everything or fails.
pub struct Trace<S, L, P> {
    pub events: Seq<Event<S, L, P>>,
    pub end: Result<Turtle<S, P>, Failure>,
}

/// The processed items of a turtle in order, and how it ends.
pub open spec fn trace<S, L, P>(
    turtle: Turtle<S, P>,
    labels: WalkLabels,
    visit: spec_fn(Module, S, Seq<Outline<P>>) -> Result<Effect<S, L, P>, Failure>,
) -> Trace<S, L, P>
    decreases levels_work(turtle.place.levels),
    when turtle_valid(turtle)
    via trace_decreases::<S, L, P>
{
    if turtle.place.levels.len() == 0 {
        Trace { events: Seq::empty(), end: Ok(turtle) }
    } else {
        match moved(turtle, labels, visit) {
            Err(failure) => Trace { events: Seq::empty(), end: Err(failure) },
            Ok((next, None)) => trace(next, labels, visit),
            Ok((next, Some(event))) => {
                let rest = trace(next, labels, visit);
                Trace { events: seq![event] + rest.events, end: rest.end }
            },
        }
    }
}

#[via_fn]
proof fn trace_decreases<S, L, P>(
    turtle: Turtle<S, P>,
    labels: WalkLabels,
    visit: spec_fn(Module, S, Seq<Outline<P>>) -> Result<Effect<S, L, P>, Failure>,
) {
    if turtle.place.levels.len() > 0 && moved(turtle, labels, visit) is Ok {
        lemma_move_shrinks(turtle, labels, visit);
    }
}

/// The lines that some events emitted, in order.
pub open spec fn lines_in<S, L, P>(events: Seq<Event<S, L, P>>) -> Seq<L>
    decreases events.len(),
{
    if events.len() == 0 {
        Seq::empty()
    } else {
        let before = lines_in(events.drop_last());
        match events.last() {
            Event::Visited { emission: Emission::Line(line), .. } => before.push(line),
            _ => before,
        }
    }
}

/// The indices of the modules that emitted the lines.
pub open spec fn indices_in<S, L, P>(events: Seq<Event<S, L, P>>) -> Seq<int>
    decreases events.len(),
{
    if events.len() == 0 {
        Seq::empty()
    } else {
        let before = indices_in(events.drop_last());
        match events.last() {
            Event::Visited { index, emission: Emission::Line(_), .. } => before.push(index),
            _ => before,
        }
    }
}

/// The polygons that some events emitted, in order.
pub open spec fn polygons_in<S, L, P>(events: Seq<Event<S, L, P>>) -> Seq<Outline<P>>
    decreases events.len(),
{
    if events.len() == 0 {
        Seq::empty()
    } else {
        let before = polygons_in(events.drop_last());
        match events.last() {
            Event::Visited { emission: Emission::Polygon(outline), .. } => before.push(outline),
            _ => before,
        }
    }
}

/// The visited modules: their indices and the states at which they began.
pub open spec fn visits_in<S, L, P>(events: Seq<Event<S, L, P>>) -> Seq<(int, S)>
    decreases events.len(),
{
    if events.len() == 0 {
        Seq::empty()
    } else {
        let before = visits_in(events.drop_last());
        match events.last() {
            Event::Visited { index, before: state, .. } => before.push((index, state)),
            _ => before,
        }
    }
}

/// The piece of a sequence that a batch of the given size takes at a place.
pub open spec fn batch_of<T>(items: Seq<T>, size: int, batch: int) -> Seq<T> {
    let start = batch * size;
    let end = if start + size <= items.len() {
        start + size
    } else {
        items.len() as int
    };
    items.subrange(start, end)
}

/// How many batches a sequence takes.
pub open spec fn batch_count(length: int, size: int) -> int {
    (length + size - 1) / size
}

/// The lines of the first batches, one batch after the other.
pub open spec fn batched_lines<S, L, P>(
    events: Seq<Event<S, L, P>>,
    size: int,
    batches: int,
) -> Seq<L>
    decreases batches,
{
    if batches <= 0 {
        Seq::empty()
    } else {
        batched_lines(events, size, batches - 1) + lines_in(batch_of(events, size, batches - 1))
    }
}

/// The polygons of the first batches, one batch after the other.
pub open spec fn batched_polygons<S, L, P>(
    events: Seq<Event<S, L, P>>,
    size: int,
    batches: int,
) -> Seq<Outline<P>>
    decreases batches,
{
    if batches <= 0 {
        Seq::empty()
    } else {
        batched_polygons(events, size, batches - 1) + polygons_in(
            batch_of(events, size, batches - 1),
        )
    }
}

/// The module indices of the first batches, one batch after the other.
pub open spec fn batched_indices<S, L, P>(
    events: Seq<Event<S, L, P>>,
    size: int,
    batches: int,
) -> Seq<int>
    decreases batches,
{
    if batches <= 0 {
        Seq::empty()
    } else {
        batched_indices(events, size, batches - 1) + indices_in(
            batch_of(events, size, batches - 1),
        )
    }
}

/// The visits of the first batches, one batch after the other.
pub open spec fn batched_visits<S, L, P>(
    events: Seq<Event<S, L, P>>,
    size: int,
    batches: int,
) -> Seq<(int, S)>
    decreases batches,
{
    if batches <= 0 {
        Seq::empty()
    } else {
        batched_visits(events, size, batches - 1) + visits_in(
            batch_of(events, size, batches - 1),
        )
    }
}

pub(crate) proof fn lemma_lines_split<S, L, P>(a: Seq<Event<S, L, P>>, b: Seq<Event<S, L, P>>)
    ensures
        lines_in(a + b) == lines_in(a) + lines_in(b),
        polygons_in(a + b) == polygons_in(a) + polygons_in(b),
        indices_in(a + b) == indices_in(a) + indices_in(b),
        visits_in(a + b) == visits_in(a) + visits_in(b),
    decreases b.len(),
{
    if b.len() == 0 {
        assert(a + b =~= a);
        assert(lines_in(a) + lines_in(b) =~= lines_in(a));
        assert(polygons_in(a) + polygons_in(b) =~= polygons_in(a));
        assert(indices_in(a) + indices_in(b) =~= indices_in(a));
        assert(visits_in(a) + visits_in(b) =~= visits_in(a));
    } else {
        assert((a + b).drop_last() =~= a + b.drop_last());
        lemma_lines_split(a, b.drop_last());
        assert((a + b).last() == b.last());
        assert(lines_in(a + b) =~= lines_in(a) + lines_in(b));
        assert(polygons_in(a + b) =~= polygons_in(a) + polygons_in(b));
        assert(indices_in(a + b) =~= indices_in(a) + indices_in(b));
        assert(visits_in(a + b) =~= visits_in(a) + visits_in(b));
    }
}

proof fn lemma_batches_prefix<S, L, P>(events: Seq<Event<S, L, P>>, size: int, batches: int)
    requires
        size > 0,
        0 <= batches <= batch_count(events.len() as int, size),
    ensures
        ({
            let end = if batches * size <= events.len() {
                batches * size
            } else {
                events.len() as int
            };
            &&& 0 <= end <= events.len()
            &&& batched_lines(events, size, batches) == lines_in(events.subrange(0, end))
            &&& batched_polygons(events, size, batches) == polygons_in(events.subrange(0, end))
            &&& batched_indices(events, size, batches) == indices_in(events.subrange(0, end))
            &&& batched_visits(events, size, batches) == visits_in(events.subrange(0, end))
        }),
    decreases batches,
{
    if batches == 0 {
        assert(batches * size == 0) by (nonlinear_arith)
            requires
                batches == 0,
        ;
        assert(events.subrange(0, 0) =~= Seq::empty());
    } else {
        lemma_batches_prefix(events, size, batches - 1);
        let start = (batches - 1) * size;
        let n = events.len() as int;
        let q = batch_count(n, size);
        assert(start < n) by (nonlinear_arith)
            requires
                q == (n + size - 1) / size,
                1 <= batches <= q,
                size > 0,
                start == (batches - 1) * size,
        {
            assert(q * size <= n + size - 1) by (nonlinear_arith)
                requires
                    q == (n + size - 1) / size,
                    size > 0,
            ;
        }
        assert(start >= 0) by (nonlinear_arith)
            requires
                batches >= 1,
                size > 0,
                start == (batches - 1) * size,
        ;
        assert(batches * size == start + size) by (nonlinear_arith)
            requires
                start == (batches - 1) * size,
        ;
        let end = if start + size <= n { start + size } else { n };
        let head = events.subrange(0, start);
        let piece = batch_of(events, size, batches - 1);
        assert(head + piece =~= events.subrange(0, end));
        lemma_lines_split(head, piece);
        assert(batched_lines(events, size, batches) == lines_in(head) + lines_in(piece));
        assert(batched_polygons(events, size, batches) == polygons_in(head) + polygons_in(piece));
        assert(batched_indices(events, size, batches) == indices_in(head) + indices_in(piece));
        assert(batched_visits(events, size, batches) == visits_in(head) + visits_in(piece));
        let whole = events.subrange(0, end);
        assert(batched_lines(events, size, batches) == lines_in(whole));
        assert(batched_polygons(events, size, batches) == polygons_in(whole));
        assert(batched_indices(events, size, batches) == indices_in(whole));
        assert(batched_visits(events, size, batches) == visits_in(whole));
        assert(end == if batches * size <= events.len() {
            batches * size
        } else {
            events.len() as int
        });
    }
}

/// However a traversal is divided into batches, the batches together hold the
/// same lines with the same module indices, the same polygons and the same
/// visits in the same order.
pub proof fn batch_size_does_not_change_geometry<S, L, P>(
    events: Seq<Event<S, L, P>>,
    size: int,
    other: int,
)
    requires
        size > 0,
        other > 0,
    ensures
        batched_lines(events, size, batch_count(events.len() as int, size)) == batched_lines(
            events,
            other,
            batch_count(events.len() as int, other),
        ),
        batched_polygons(events, size, batch_count(events.len() as int, size))
            == batched_polygons(events, other, batch_count(events.len() as int, other)),
        batched_indices(events, size, batch_count(events.len() as int, size)) == batched_indices(
            events,
            other,
            batch_count(events.len() as int, other),
        ),
        batched_visits(events, size, batch_count(events.len() as int, size)) == batched_visits(
            events,
            other,
            batch_count(events.len() as int, other),
        ),
        batched_lines(events, size, batch_count(events.len() as int, size)) == lines_in(events),
{
    lemma_all_batches(events, size);
    lemma_all_batches(events, other);
}

pub(crate) proof fn lemma_all_batches<S, L, P>(events: Seq<Event<S, L, P>>, size: int)
    requires
        size > 0,
    ensures
        batched_lines(events, size, batch_count(events.len() as int, size)) == lines_in(events),
        batched_polygons(events, size, batch_count(events.len() as int, size)) == polygons_in(
            events,
        ),
        batched_indices(events, size, batch_count(events.len() as int, size)) == indices_in(
            events,
        ),
        batched_visits(events, size, batch_count(events.len() as int, size)) == visits_in(events),
{
    let n = events.len() as int;
    let q = batch_count(n, size);
    assert(q >= 0 && q * size >= n) by (nonlinear_arith)
        requires
            q == (n + size - 1) / size,
            size > 0,
            n >= 0,
    ;
    lemma_batches_prefix(events, size, q);
    assert(events.subrange(0, n) =~= events);
}

/// A batch holds no more lines than items, and one index for each line.
pub proof fn batches_are_bounded<S, L, P>(events: Seq<Event<S, L, P>>)
    ensures
        lines_in(events).len() <= events.len(),
        lines_in(events).len() + polygons_in(events).len() <= events.len(),
        indices_in(events).len() == lines_in(events).len(),
    decreases events.len(),
{
    if events.len() > 0 {
        batches_are_bounded(events.drop_last());
    }
}

/// Run a turtle until no more than `depth` levels are left.
pub open spec fn run_to_depth<S, L, P>(
    turtle: Turtle<S, P>,
    depth: int,
    labels: WalkLabels,
    visit: spec_fn(Module, S, Seq<Outline<P>>) -> Result<Effect<S, L, P>, Failure>,
) -> Result<Turtle<S, P>, Failure>
    decreases levels_work(turtle.place.levels),
    when turtle_valid(turtle)
    via run_decreases::<S, L, P>
{
    if turtle.place.levels.len() <= depth || turtle.place.levels.len() == 0 {
        Ok(turtle)
    } else {
        match moved(turtle, labels, visit) {
            Err(failure) => Err(failure),
            Ok((next, _)) => run_to_depth(next, depth, labels, visit),
        }
    }
}

#[via_fn]
proof fn run_decreases<S, L, P>(
    turtle: Turtle<S, P>,
    depth: int,
    labels: WalkLabels,
    visit: spec_fn(Module, S, Seq<Outline<P>>) -> Result<Effect<S, L, P>, Failure>,
) {
    if turtle.place.levels.len() > 0 && moved(turtle, labels, visit) is Ok {
        lemma_move_shrinks(turtle, labels, visit);
    }
}

proof fn lemma_run_returns<S, L, P>(
    turtle: Turtle<S, P>,
    outer: Seq<Level<S>>,
    saved: S,
    labels: WalkLabels,
    visit: spec_fn(Module, S, Seq<Outline<P>>) -> Result<Effect<S, L, P>, Failure>,
)
    requires
        turtle_valid(turtle),
        turtle.place.levels.len() > outer.len(),
        turtle.place.levels.subrange(0, outer.len() as int) == outer,
        turtle.place.levels[outer.len() as int].restore == Some(saved),
    ensures
        match run_to_depth(turtle, outer.len() as int, labels, visit) {
            Ok(back) => back.place.levels == outer && back.place.state == saved,
            Err(_) => true,
        },
    decreases levels_work(turtle.place.levels),
{
    let d = outer.len() as int;
    if moved(turtle, labels, visit) is Ok {
        lemma_move_shrinks(turtle, labels, visit);
        let next = (moved(turtle, labels, visit)->Ok_0).0;
        let levels = turtle.place.levels;
        let after = next.place.levels;
        if at_end(turtle.place) && levels.len() == d + 1 {
            assert(after =~= levels.drop_last());
            assert(after =~= outer);
            assert(run_to_depth(next, d, labels, visit) == Ok::<_, Failure>(next));
        } else {
            assert(after.len() > d);
            assert(after.subrange(0, d) =~= outer) by {
                assert forall|i: int| 0 <= i < d implies after[i] == outer[i] by {
                    assert(levels.subrange(0, d)[i] == levels[i]);
                }
            }
            assert(after[d].restore == Some(saved));
            lemma_run_returns(next, outer, saved, labels, visit);
        }
    }
}

/// Behind a branch the turtle has the state it had before it, and goes on with
/// the item behind the branch.
pub proof fn branch_state_is_restored<S, L, P>(
    turtle: Turtle<S, P>,
    labels: WalkLabels,
    visit: spec_fn(Module, S, Seq<Outline<P>>) -> Result<Effect<S, L, P>, Failure>,
)
    requires
        turtle_valid(turtle),
        turtle.place.levels.len() > 0,
        stepped(turtle.place, labels) matches Ok((_, Meeting::Branch)),
    ensures
        ({
            let inside = (moved(turtle, labels, visit)->Ok_0).0;
            match run_to_depth(
                inside,
                turtle.place.levels.len() as int,
                labels,
                visit,
            ) {
                Ok(back) => {
                    &&& back.place.state == turtle.place.state
                    &&& back.place.levels == past_item(turtle.place.levels)
                },
                Err(_) => true,
            }
        }),
{
    lemma_move_shrinks(turtle, labels, visit);
    let inside = (moved(turtle, labels, visit)->Ok_0).0;
    let outer = past_item(turtle.place.levels);
    assert(inside.place.levels.subrange(0, outer.len() as int) =~= outer);
    lemma_run_returns(inside, outer, turtle.place.state, labels, visit);
}

/// Visited modules are numbered one by one in depth-first order.
pub proof fn module_indices_count_up<S, L, P>(
    turtle: Turtle<S, P>,
    labels: WalkLabels,
    visit: spec_fn(Module, S, Seq<Outline<P>>) -> Result<Effect<S, L, P>, Failure>,
)
    requires
        turtle_valid(turtle),
    ensures
        ({
            let visits = visits_in(trace(turtle, labels, visit).events);
            forall|i: int|
                0 <= i < visits.len() ==> (#[trigger] visits[i]).0
                    == turtle.place.progress.modules_processed + i
        }),
    decreases levels_work(turtle.place.levels),
{
    if turtle.place.levels.len() > 0 && moved(turtle, labels, visit) is Ok {
        lemma_move_shrinks(turtle, labels, visit);
        let (next, event) = moved(turtle, labels, visit)->Ok_0;
        module_indices_count_up(next, labels, visit);
        let rest = trace(next, labels, visit).events;
        match event {
            None => {},
            Some(event) => {
                lemma_visits_front(event, rest);
            },
        }
    }
}

proof fn lemma_visits_front<S, L, P>(event: Event<S, L, P>, rest: Seq<Event<S, L, P>>)
    ensures
        visits_in(seq![event] + rest) == (match event {
            Event::Visited { index, before, .. } => seq![(index, before)],
            Event::Entered => Seq::<(int, S)>::empty(),
        }) + visits_in(rest),
    decreases rest.len(),
{
    let all = seq![event] + rest;
    if rest.len() == 0 {
        assert(all.drop_last() =~= Seq::empty());
        assert(visits_in(Seq::<Event<S, L, P>>::empty()) =~= Seq::empty());
        assert(all.last() == event);
        assert(visits_in(all) =~= (match event {
            Event::Visited { index, before, .. } => seq![(index, before)],
            Event::Entered => Seq::<(int, S)>::empty(),
        }) + visits_in(rest));
    } else {
        assert(all.drop_last() =~= seq![event] + rest.drop_last());
        lemma_visits_front(event, rest.drop_last());
        assert(all.last() == rest.last());
        assert(visits_in(all) =~= (match event {
            Event::Visited { index, before, .. } => seq![(index, before)],
            Event::Entered => Seq::<(int, S)>::empty(),
        }) + visits_in(rest));
    }
}

/// A step never takes back progress: it processes one item or none, and counts
/// that item as a module or as a branch.
pub proof fn progress_only_grows<S, L, P>(
    turtle: Turtle<S, P>,
    labels: WalkLabels,
    visit: spec_fn(Module, S, Seq<Outline<P>>) -> Result<Effect<S, L, P>, Failure>,
)
    requires
        turtle_valid(turtle),
        turtle.place.levels.len() > 0,
        moved(turtle, labels, visit) is Ok,
    ensures
        ({
            let before = turtle.place.progress;
            let (next, event) = moved(turtle, labels, visit)->Ok_0;
            let after = next.place.progress;
            &&& after.items_processed == before.items_processed + (if event is Some {
                1int
            } else {
                0
            })
            &&& after.items_processed - before.items_processed == (after.modules_processed
                - before.modules_processed) + (after.branches_entered - before.branches_entered)
            &&& after.modules_processed >= before.modules_processed
            &&& after.branches_entered >= before.branches_entered
            &&& after.lines_emitted >= before.lines_emitted
            &&& after.polygons_emitted >= before.polygons_emitted
            &&& after.max_branch_depth >= before.max_branch_depth
        }),
{
}

/// The turtle after it has processed some more items. One that ends or fails
/// before that stays where it is.
#[verifier::opaque]
pub open spec fn after_items<S, L, P>(
    turtle: Turtle<S, P>,
    items: nat,
    labels: WalkLabels,
    visit: spec_fn(Module, S, Seq<Outline<P>>) -> Result<Effect<S, L, P>, Failure>,
) -> Turtle<S, P>
    decreases levels_work(turtle.place.levels),
    when turtle_valid(turtle)
    via after_decreases::<S, L, P>
{
    if items == 0 || turtle.place.levels.len() == 0 {
        turtle
    } else {
        match moved(turtle, labels, visit) {
            Err(_) => turtle,
            Ok((next, None)) => after_items(next, items, labels, visit),
            Ok((next, Some(_))) => after_items(next, (items - 1) as nat, labels, visit),
        }
    }
}

#[via_fn]
proof fn after_decreases<S, L, P>(
    turtle: Turtle<S, P>,
    items: nat,
    labels: WalkLabels,
    visit: spec_fn(Module, S, Seq<Outline<P>>) -> Result<Effect<S, L, P>, Failure>,
) {
    if turtle.place.levels.len() > 0 && moved(turtle, labels, visit) is Ok {
        lemma_move_shrinks(turtle, labels, visit);
    }
}

/// Processing some items and then some more is processing all of them.
pub proof fn lemma_items_join<S, L, P>(
    turtle: Turtle<S, P>,
    first: nat,
    more: nat,
    labels: WalkLabels,
    visit: spec_fn(Module, S, Seq<Outline<P>>) -> Result<Effect<S, L, P>, Failure>,
)
    requires
        turtle_valid(turtle),
    ensures
        turtle_valid(after_items(turtle, first, labels, visit)),
        after_items(after_items(turtle, first, labels, visit), more, labels, visit) == after_items(
            turtle,
            first + more,
            labels,
            visit,
        ),
    decreases levels_work(turtle.place.levels),
{
    reveal(after_items);
    if first > 0 && turtle.place.levels.len() > 0 && moved(turtle, labels, visit) is Ok {
        lemma_move_shrinks(turtle, labels, visit);
        let (next, event) = moved(turtle, labels, visit)->Ok_0;
        if event is Some {
            lemma_items_join(next, (first - 1) as nat, more, labels, visit);
        } else {
            lemma_items_join(next, first, more, labels, visit);
        }
    }
}

/// A turtle takes back no progress: its counters only grow, and no more items
/// are counted than it was to process.
pub proof fn progress_grows_with_items<S, L, P>(
    turtle: Turtle<S, P>,
    items: nat,
    labels: WalkLabels,
    visit: spec_fn(Module, S, Seq<Outline<P>>) -> Result<Effect<S, L, P>, Failure>,
)
    requires
        turtle_valid(turtle),
    ensures
        ({
            let before = turtle.place.progress;
            let after = after_items(turtle, items, labels, visit).place.progress;
            &&& before.items_processed <= after.items_processed <= before.items_processed + items
            &&& after.items_processed - before.items_processed == (after.modules_processed
                - before.modules_processed) + (after.branches_entered - before.branches_entered)
            &&& after.modules_processed >= before.modules_processed
            &&& after.branches_entered >= before.branches_entered
            &&& after.lines_emitted >= before.lines_emitted
            &&& after.polygons_emitted >= before.polygons_emitted
            &&& after.max_branch_depth >= before.max_branch_depth
        }),
    decreases levels_work(turtle.place.levels),
{
    reveal(after_items);
    if items > 0 && turtle.place.levels.len() > 0 && moved(turtle, labels, visit) is Ok {
        lemma_move_shrinks(turtle, labels, visit);
        progress_only_grows(turtle, labels, visit);
        let (next, event) = moved(turtle, labels, visit)->Ok_0;
        if event is Some {
            progress_grows_with_items(next, (items - 1) as nat, labels, visit);
        } else {
            progress_grows_with_items(next, items, labels, visit);
        }
    }
}

/// The progress that a turtle reports with a batch.
pub open spec fn batch_progress<S, L, P>(
    turtle: Turtle<S, P>,
    size: int,
    batch: int,
    labels: WalkLabels,
    visit: spec_fn(Module, S, Seq<Outline<P>>) -> Result<Effect<S, L, P>, Failure>,
) -> Turtle2dProgress {
    after_items(turtle, ((batch + 1) * size) as nat, labels, visit).place.progress
}

/// From one batch to the next the counters only grow, and the processed items
/// by no more than the size of a batch.
pub proof fn progress_grows_with_batches<S, L, P>(
    turtle: Turtle<S, P>,
    size: int,
    batch: int,
    labels: WalkLabels,
    visit: spec_fn(Module, S, Seq<Outline<P>>) -> Result<Effect<S, L, P>, Failure>,
)
    requires
        turtle_valid(turtle),
        size > 0,
        batch >= 0,
    ensures
        ({
            let before = batch_progress(turtle, size, batch, labels, visit);
            let after = batch_progress(turtle, size, batch + 1, labels, visit);
            &&& before.items_processed <= after.items_processed <= before.items_processed + size
            &&& after.modules_processed >= before.modules_processed
            &&& after.branches_entered >= before.branches_entered
            &&& after.lines_emitted >= before.lines_emitted
            &&& after.polygons_emitted >= before.polygons_emitted
            &&& after.max_branch_depth >= before.max_branch_depth
        }),
{
    assert((batch + 1) * size >= 0) by (nonlinear_arith)
        requires
            size > 0,
            batch >= 0,
    ;
    assert((batch + 1 + 1) * size == (batch + 1) * size + size) by (nonlinear_arith);
    let first = ((batch + 1) * size) as nat;
    lemma_items_join(turtle, first, size as nat, labels, visit);
    progress_grows_with_items(
        after_items(turtle, first, labels, visit),
        size as nat,
        labels,
        visit,
    );
}

/// How often a hook is asked before a batch goes out: once for every item up
/// to its last one, and once more for every batch.
pub open spec fn batch_pace(total: int, size: int) -> spec_fn(nat) -> int {
    |batch: nat|
        if batch * size <= total {
            batch * size + batch
        } else {
            total + batch
        }
}

/// A batch that goes out next needs the questions asked for the items up to its
/// end and for itself.
pub(crate) proof fn lemma_pace_at(taken: int, sent: int, total: int, size: int)
    requires
        size > 0,
        sent >= 0,
        sent * size < taken <= total,
        taken == (sent + 1) * size || taken == total,
        taken <= (sent + 1) * size,
    ensures
        batch_pace(total, size)((sent + 1) as nat) == taken + sent + 1,
        sent < batch_count(total, size),
{
    assert(sent < (total + size - 1) / size) by (nonlinear_arith)
        requires
            size > 0,
            sent >= 0,
            sent * size < total,
    ;
}

/// With less than a batch left, every batch that can be full has gone out.
pub(crate) proof fn lemma_full_batches(taken: int, sent: int, total: int, size: int)
    requires
        size > 0,
        0 <= taken <= total,
        taken == sent * size,
        total - taken < size,
    ensures
        sent == total / size,
{
    assert(sent == total / size) by (nonlinear_arith)
        requires
            size > 0,
            sent * size <= total < sent * size + size,
    ;
}

pub(crate) proof fn lemma_batch_count_bounds(total: int, size: int)
    requires
        size > 0,
        total >= 0,
    ensures
        batch_count(total, size) >= 0,
{
    assert((total + size - 1) / size >= 0) by (nonlinear_arith)
        requires
            size > 0,
            total >= 0,
    ;
}

/// A step of a turtle was refused the room that it asks for: one more level to
/// enter a branch, or what the visit of a module asks for.
pub open spec fn step_refused<S, P>(
    turtle: Turtle<S, P>,
    labels: WalkLabels,
    refuses: spec_fn(Module, S, Seq<Outline<P>>, Failure) -> bool,
    failure: Failure,
) -> bool {
    &&& turtle.place.levels.len() > 0
    &&& match stepped(turtle.place, labels) {
        Ok((_, Meeting::Branch)) => failure == exhausted(
            labels.stack@,
            (turtle.place.levels.len() + 1) as usize,
        ),
        Ok((place, Meeting::Module(module))) => refuses(
            module,
            place.state,
            turtle.outlines,
            failure,
        ),
        _ => false,
    }
}

/// Some step of a turtle from here on was refused the room that it asks for.
#[verifier::opaque]
pub open spec fn refused_on_way<S, L, P>(
    turtle: Turtle<S, P>,
    labels: WalkLabels,
    visit: spec_fn(Module, S, Seq<Outline<P>>) -> Result<Effect<S, L, P>, Failure>,
    refuses: spec_fn(Module, S, Seq<Outline<P>>, Failure) -> bool,
    failure: Failure,
) -> bool
    decreases levels_work(turtle.place.levels),
    when turtle_valid(turtle)
    via refused_decreases::<S, L, P>
{
    if turtle.place.levels.len() == 0 {
        false
    } else {
        step_refused(turtle, labels, refuses, failure) || match moved(turtle, labels, visit) {
            Err(_) => false,
            Ok((next, _)) => refused_on_way(next, labels, visit, refuses, failure),
        }
    }
}

#[via_fn]
proof fn refused_decreases<S, L, P>(
    turtle: Turtle<S, P>,
    labels: WalkLabels,
    visit: spec_fn(Module, S, Seq<Outline<P>>) -> Result<Effect<S, L, P>, Failure>,
    refuses: spec_fn(Module, S, Seq<Outline<P>>, Failure) -> bool,
    failure: Failure,
) {
    if turtle.place.levels.len() > 0 && moved(turtle, labels, visit) is Ok {
        lemma_move_shrinks(turtle, labels, visit);
    }
}

/// What is refused at a step, or behind it, is refused on the way.
pub(crate) proof fn lemma_refused_here<S, L, P>(
    turtle: Turtle<S, P>,
    labels: WalkLabels,
    visit: spec_fn(Module, S, Seq<Outline<P>>) -> Result<Effect<S, L, P>, Failure>,
    refuses: spec_fn(Module, S, Seq<Outline<P>>, Failure) -> bool,
)
    requires
        turtle_valid(turtle),
        turtle.place.levels.len() > 0,
    ensures
        forall|failure: Failure| #[trigger]
            step_refused(turtle, labels, refuses, failure) ==> refused_on_way(
                turtle,
                labels,
                visit,
                refuses,
                failure,
            ),
        moved(turtle, labels, visit) matches Ok((next, _)) ==> forall|failure: Failure| #[trigger]
            refused_on_way(next, labels, visit, refuses, failure) ==> refused_on_way(
                turtle,
                labels,
                visit,
                refuses,
                failure,
            ),
{
    reveal(refused_on_way);
}

/// What is refused after some items is refused on the way from before them.
pub(crate) proof fn lemma_refused_later<S, L, P>(
    turtle: Turtle<S, P>,
    items: nat,
    labels: WalkLabels,
    visit: spec_fn(Module, S, Seq<Outline<P>>) -> Result<Effect<S, L, P>, Failure>,
    refuses: spec_fn(Module, S, Seq<Outline<P>>, Failure) -> bool,
    failure: Failure,
)
    requires
        turtle_valid(turtle),
        refused_on_way(
            after_items(turtle, items, labels, visit),
            labels,
            visit,
            refuses,
            failure,
        ),
    ensures
        refused_on_way(turtle, labels, visit, refuses, failure),
    decreases levels_work(turtle.place.levels),
{
    reveal(after_items);
    reveal(refused_on_way);
    if items > 0 && turtle.place.levels.len() > 0 && moved(turtle, labels, visit) is Ok {
        lemma_move_shrinks(turtle, labels, visit);
        let (next, event) = moved(turtle, labels, visit)->Ok_0;
        if event is Some {
            lemma_refused_later(next, (items - 1) as nat, labels, visit, refuses, failure);
        } else {
            lemma_refused_later(next, items, labels, visit, refuses, failure);
        }
    }
}

/// Every batch begins before the end.
pub(crate) proof fn lemma_batch_starts(total: int, size: int, batches: int)
    requires
        size > 0,
        total >= 0,
        1 <= batches <= batch_count(total, size),
    ensures
        0 <= (batches - 1) * size < total,
        batches * size == (batches - 1) * size + size,
{
    let start = (batches - 1) * size;
    let q = batch_count(total, size);
    assert(q * size <= total + size - 1) by (nonlinear_arith)
        requires
            q == (total + size - 1) / size,
            size > 0,
    ;
    assert(start < total) by (nonlinear_arith)
        requires
            q * size <= total + size - 1,
            1 <= batches <= q,
            size > 0,
            start == (batches - 1) * size,
    ;
    assert(start >= 0) by (nonlinear_arith)
        requires
            batches >= 1,
            size > 0,
            start == (batches - 1) * size,
    ;
    assert(batches * size == start + size) by (nonlinear_arith)
        requires
            start == (batches - 1) * size,
    ;
}

/// The last batch reaches the end.
pub(crate) proof fn lemma_last_batch_ends(total: int, size: int)
    requires
        size > 0,
        total >= 0,
    ensures
        batch_count(total, size) * size >= total,
{
    let q = batch_count(total, size);
    assert(q * size >= total) by (nonlinear_arith)
        requires
            q == (total + size - 1) / size,
            size > 0,
            total >= 0,
    ;
}

} // verus!
