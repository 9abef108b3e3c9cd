//! Incremental traversal of a two-dimensional turtle in bounded batches.

use vstd::prelude::*;

use crate::config::Turtle2dConfig;
use crate::error::{checked_increment, exhausted, invalid, resource_error, Failure, VisualizeError};
use crate::generation::{Generation, Module};
use crate::geometry::{
    bounds_with_2d, include_bounds_2d, Bounds2d, Point2d, Polygon2d, StyledLine2d,
};
use crate::kind::VisualizerBackend;
use crate::number::{answers, calculates, Arithmetic, Real};
use crate::outlet::{
    a_constant_yes_is_all_that_is_heard, asked, called_off, delivered, handed, handed_at,
    lemma_endings_join, lemma_listened, lemma_listening_starts, lemma_logs_join,
    lemma_nothing_since, lemma_one_more, lemma_pace_ahead, lemma_questions, lemma_sending_asks,
    lemma_sending_ends, lemma_sending_hands, lemma_sending_less, lemma_sending_starts,
    lemma_since_joins, questions, quiet, sending, stopped_by_caller, turned_away, undisturbed,
    Exchange, Outlet,
};
use crate::turtle_2d::{
    outline_2d, outlines_2d, visit_module, visited_2d, visit_refused_2d, TurtleState, VisitOutcome,
};
use crate::walk::{
    after_items, batched_indices, batched_lines, batched_polygons, batched_visits, batch_count,
    batch_of, batch_pace, batch_progress, batches_are_bounded, indices_in, lemma_all_batches,
    lemma_batch_count_bounds, lemma_full_batches, lemma_items_join, lemma_pace_at,
    lemma_refused_here, lemma_refused_later, level_valid, levels_work, lines_in, moved, polygons_in,
    refused_on_way, stepped, step_refused, trace, turtle_valid, visits_in, Effect, Emission, Event,
    Outline, Trace, Turtle, Turtle2dProgress, Walk, WalkLabels, WalkStep,
};

verus! {

/// Turtle position at which a generation module begins executing.
#[derive(Debug, Clone, Copy, PartialEq, Eq)]
pub struct IndexedModulePosition2d {
    pub module_index: usize,
    pub position: Point2d,
}

/// One bounded piece of an incremental turtle visualization.
#[derive(Debug, PartialEq, Eq)]
pub struct Turtle2dBatch {
    pub lines: Vec<StyledLine2d>,
    pub polygons: Vec<Polygon2d>,
    /// Depth-first generation-module index for each line in `lines`.
    ///
    /// A module emits at most one line, so the vectors have equal length.
    pub module_indices: Vec<usize>,
    /// Entry position of every processed module in depth-first generation
    /// order, including modules that do not emit geometry.
    pub module_positions: Vec<IndexedModulePosition2d>,
    /// Bounds of only the lines in this batch.
    pub batch_bounds: Option<Bounds2d>,
    /// Bounds of all lines emitted up to and including this batch.
    pub overall_bounds: Option<Bounds2d>,
    pub progress: Turtle2dProgress,
}

/// Final metadata returned after all turtle batches have been emitted.
#[derive(Debug, Clone, Copy, PartialEq, Eq)]
pub struct Turtle2dStreamSummary {
    pub bounds: Option<Bounds2d>,
    pub progress: Turtle2dProgress,
    /// The backend that produced the emitted batches.
    pub backend_used: VisualizerBackend,
}

impl Default for Turtle2dStreamSummary {
    fn default() -> (r: Self)
        ensures
            r.bounds is None,
            r.progress == Turtle2dProgress::none(),
            r.backend_used == VisualizerBackend::Auto,
    {
        Turtle2dStreamSummary {
            bounds: None,
            progress: <Turtle2dProgress as Default>::default(),
            backend_used: VisualizerBackend::Auto,
        }
    }
}

pub type Event2d = Event<TurtleState, StyledLine2d, Point2d>;

pub type Effect2d = Effect<TurtleState, StyledLine2d, Point2d>;

/// The names under which the planar traversal reports what it ran out of.
pub open spec fn planar_labels() -> WalkLabels {
    WalkLabels {
        items: "turtle processed-item counter",
        modules: "turtle processed-module counter",
        branches: "turtle entered-branch counter",
        lines: "turtle emitted-line counter",
        polygons: "turtle emitted-polygon counter",
        stack: "turtle traversal stack",
    }
}

fn labels() -> (r: WalkLabels)
    ensures
        r == planar_labels(),
{
    WalkLabels {
        items: "turtle processed-item counter",
        modules: "turtle processed-module counter",
        branches: "turtle entered-branch counter",
        lines: "turtle emitted-line counter",
        polygons: "turtle emitted-polygon counter",
        stack: "turtle traversal stack",
    }
}

/// How a planar turtle visits a module.
pub open spec fn planar_visit(
    config: Turtle2dConfig,
    ev: spec_fn(Arithmetic) -> Real,
) -> spec_fn(Module, TurtleState, Seq<Outline<Point2d>>) -> Result<Effect2d, Failure> {
    |module: Module, state: TurtleState, outlines: Seq<Outline<Point2d>>|
        visited_2d(module, config, state, outlines, ev)
}

/// What a planar turtle does from here on.
pub open spec fn planar_trace(
    turtle: Turtle<TurtleState, Point2d>,
    config: Turtle2dConfig,
    ev: spec_fn(Arithmetic) -> Real,
) -> Trace<TurtleState, StyledLine2d, Point2d> {
    trace(turtle, planar_labels(), planar_visit(config, ev))
}

/// The turtle before the first item of a generation.
pub open spec fn planar_start(
    generation: Generation,
    config: Turtle2dConfig,
) -> Turtle<TurtleState, Point2d> {
    Turtle {
        place: Walk::<'static, TurtleState>::beginning(
            generation.0@,
            TurtleState::initial(config),
        ),
        outlines: Seq::empty(),
    }
}

/// The bounds with the lines of some events inside.
pub open spec fn bounds_after_2d(bounds: Option<Bounds2d>, events: Seq<Event2d>) -> Option<Bounds2d>
    decreases events.len(),
{
    if events.len() == 0 {
        bounds
    } else {
        let before = bounds_after_2d(bounds, events.drop_last());
        match events.last() {
            Event::Visited { emission: Emission::Line(line), .. } => bounds_with_2d(
                before,
                line.line,
            ),
            _ => before,
        }
    }
}

/// The entry positions of some visits.
pub open spec fn positions_of(visits: Seq<(int, TurtleState)>) -> Seq<(int, Point2d)> {
    visits.map_values(|v: (int, TurtleState)| (v.0, v.1.position))
}

/// Recorded entry positions.
pub open spec fn recorded_positions(positions: Seq<IndexedModulePosition2d>) -> Seq<
    (int, Point2d),
> {
    positions.map_values(|p: IndexedModulePosition2d| (p.module_index as int, p.position))
}

/// Recorded module indices.
pub open spec fn recorded_indices(indices: Seq<usize>) -> Seq<int> {
    indices.map_values(|i: usize| i as int)
}

/// A batch holds exactly what some events emitted.
pub open spec fn batch_holds_2d(
    batch: Turtle2dBatch,
    events: Seq<Event2d>,
    overall: Option<Bounds2d>,
    progress: Turtle2dProgress,
) -> bool {
    &&& batch.lines@ == lines_in(events)
    &&& outlines_2d(batch.polygons@) == polygons_in(events)
    &&& recorded_indices(batch.module_indices@) == indices_in(events)
    &&& recorded_positions(batch.module_positions@) == positions_of(visits_in(events))
    &&& batch.batch_bounds == bounds_after_2d(None, events)
    &&& batch.overall_bounds == bounds_after_2d(overall, events)
    &&& batch.progress == progress
}

/// Room for a batch was refused.
pub open spec fn batch_refused_2d(failure: Failure, size: usize) -> bool {
    ||| failure == exhausted("turtle line batch"@, size)
    ||| failure == exhausted("turtle module-index batch"@, size)
    ||| failure == exhausted("turtle module-position batch"@, size)
}

/// When the visit of a module is refused room.
pub open spec fn planar_refuses(
    config: Turtle2dConfig,
    ev: spec_fn(Arithmetic) -> Real,
) -> spec_fn(Module, TurtleState, Seq<Outline<Point2d>>, Failure) -> bool {
    |module: Module, state: TurtleState, outlines: Seq<Outline<Point2d>>, failure: Failure|
        visit_refused_2d(module, config, state, outlines, ev, failure)
}

/// Room that a traversal asks for from here on was refused: for a batch, or at
/// a step that asks for it.
pub open spec fn refused_2d(
    turtle: Turtle<TurtleState, Point2d>,
    config: Turtle2dConfig,
    ev: spec_fn(Arithmetic) -> Real,
    failure: Failure,
    size: usize,
) -> bool {
    ||| batch_refused_2d(failure, size)
    ||| refused_on_way(
        turtle,
        planar_labels(),
        planar_visit(config, ev),
        planar_refuses(config, ev),
        failure,
    )
}

/// Room that a whole traversal asks for was refused.
pub open spec fn room_refused_2d(
    generation: Generation,
    config: Turtle2dConfig,
    ev: spec_fn(Arithmetic) -> Real,
    failure: Failure,
    size: usize,
) -> bool {
    ||| failure == exhausted("turtle traversal stack"@, 1)
    ||| refused_2d(planar_start(generation, config), config, ev, failure, size)
}

/// Asks for room for exactly `size` entries with `Vec::try_reserve_exact`, which
/// leaves the contents alone. Whether there is room depends on the machine, and
/// the contract does not say.
#[verifier::external_body]
pub(crate) fn reserve_exact<T>(values: &mut Vec<T>, size: usize) -> (r: bool)
    ensures
        final(values)@ == old(values)@,
{
    values.try_reserve_exact(size).is_ok()
}

pub fn new_line_batch(size: usize) -> (r: Result<Vec<StyledLine2d>, VisualizeError>)
    ensures
        match r {
            Ok(lines) => lines@.len() == 0,
            Err(error) => error@ == exhausted("turtle line batch"@, size),
        },
{
    let mut lines: Vec<StyledLine2d> = Vec::new();
    if reserve_exact(&mut lines, size) {
        Ok(lines)
    } else {
        Err(resource_error("turtle line batch", size))
    }
}

pub fn new_module_index_batch(size: usize) -> (r: Result<Vec<usize>, VisualizeError>)
    ensures
        match r {
            Ok(indices) => indices@.len() == 0,
            Err(error) => error@ == exhausted("turtle module-index batch"@, size),
        },
{
    let mut indices: Vec<usize> = Vec::new();
    if reserve_exact(&mut indices, size) {
        Ok(indices)
    } else {
        Err(resource_error("turtle module-index batch", size))
    }
}

pub fn new_module_position_batch(size: usize) -> (r: Result<
    Vec<IndexedModulePosition2d>,
    VisualizeError,
>)
    ensures
        match r {
            Ok(positions) => positions@.len() == 0,
            Err(error) => error@ == exhausted("turtle module-position batch"@, size),
        },
{
    let mut positions: Vec<IndexedModulePosition2d> = Vec::new();
    if reserve_exact(&mut positions, size) {
        Ok(positions)
    } else {
        Err(resource_error("turtle module-position batch", size))
    }
}

impl Turtle2dBatch {
    /// An empty batch with room for `size` items.
    pub(crate) fn with_room(
        size: usize,
        overall_bounds: Option<Bounds2d>,
        progress: Turtle2dProgress,
    ) -> (r: Result<Turtle2dBatch, VisualizeError>)
        ensures
            match r {
                Ok(batch) => batch_holds_2d(batch, Seq::empty(), overall_bounds, progress),
                Err(error) => batch_refused_2d(error@, size),
            },
    {
        let lines: Vec<StyledLine2d> = match new_line_batch(size) {
            Ok(lines) => lines,
            Err(error) => {
                return Err(error);
            },
        };
        let module_indices: Vec<usize> = match new_module_index_batch(size) {
            Ok(indices) => indices,
            Err(error) => {
                return Err(error);
            },
        };
        let module_positions: Vec<IndexedModulePosition2d> = match new_module_position_batch(
            size,
        ) {
            Ok(positions) => positions,
            Err(error) => {
                return Err(error);
            },
        };
        let polygons: Vec<Polygon2d> = Vec::new();
        let ghost none = Seq::<Event2d>::empty();
        assert(lines@ =~= lines_in(none));
        assert(outlines_2d(polygons@) =~= polygons_in(none));
        assert(recorded_indices(module_indices@) =~= indices_in(none));
        assert(recorded_positions(module_positions@) =~= positions_of(visits_in(none)));
        Ok(
            Turtle2dBatch {
                lines,
                polygons,
                module_indices,
                module_positions,
                batch_bounds: None,
                overall_bounds,
                progress,
            },
        )
    }

    /// Record a visited module and what it emitted.
    pub(crate) fn record(
        &mut self,
        index: usize,
        position: Point2d,
        outcome: VisitOutcome,
        Ghost(before): Ghost<TurtleState>,
        Ghost(events): Ghost<Seq<Event2d>>,
        Ghost(overall): Ghost<Option<Bounds2d>>,
        Ghost(progress): Ghost<Turtle2dProgress>,
    )
        requires
            before.position == position,
            batch_holds_2d(*old(self), events, overall, progress),
        ensures
            batch_holds_2d(
                *final(self),
                events.push(
                    Event::Visited { index: index as int, before, emission: outcome@ },
                ),
                overall,
                progress,
            ),
    {
        let ghost next = events.push(
            Event::Visited { index: index as int, before, emission: outcome@ },
        );
        assert(next.drop_last() =~= events);
        let ghost old_positions = self.module_positions@;
        self.module_positions.push(IndexedModulePosition2d { module_index: index, position });
        assert(recorded_positions(self.module_positions@) =~= recorded_positions(
            old_positions,
        ).push((index as int, position)));
        assert(positions_of(visits_in(next)) =~= positions_of(visits_in(events)).push(
            (index as int, position),
        ));
        match outcome {
            VisitOutcome::Line(line) => {
                include_bounds_2d(&mut self.batch_bounds, line.line);
                include_bounds_2d(&mut self.overall_bounds, line.line);
                let ghost old_indices = self.module_indices@;
                self.lines.push(line);
                self.module_indices.push(index);
                assert(recorded_indices(self.module_indices@) =~= recorded_indices(
                    old_indices,
                ).push(index as int));
            },
            VisitOutcome::Polygon(polygon) => {
                let ghost old_polygons = self.polygons@;
                self.polygons.push(polygon);
                assert(outlines_2d(self.polygons@) =~= outlines_2d(old_polygons).push(
                    outline_2d(polygon),
                ));
            },
            _ => {},
        }
    }
}

/// A planar turtle on its way through a generation.
pub struct Turtle2dTraversal<'a> {
    pub walk: Walk<'a, TurtleState>,
    pub polygon_stack: Vec<Polygon2d>,
    pub overall_bounds: Option<Bounds2d>,
    pub config: &'a Turtle2dConfig,
    pub batch_size: usize,
}

impl<'a> Turtle2dTraversal<'a> {
    pub open spec fn turtle(self) -> Turtle<TurtleState, Point2d> {
        Turtle { place: self.walk.place(), outlines: outlines_2d(self.polygon_stack@) }
    }

    pub open spec fn valid(self) -> bool {
        self.walk.valid() && self.batch_size > 0
    }

    /// What is still to come.
    pub open spec fn future(self, ev: spec_fn(Arithmetic) -> Real) -> Trace<
        TurtleState,
        StyledLine2d,
        Point2d,
    > {
        planar_trace(self.turtle(), *self.config, ev)
    }

    /// Begin a traversal. Room for it may be refused.
    pub fn begin(
        generation: &'a Generation,
        config: &'a Turtle2dConfig,
        batch_size: usize,
    ) -> (r: Result<Turtle2dTraversal<'a>, VisualizeError>)
        requires
            batch_size > 0,
        ensures
            match r {
                Ok(traversal) => {
                    &&& traversal.valid()
                    &&& traversal.turtle() == planar_start(*generation, *config)
                    &&& traversal.overall_bounds is None
                    &&& traversal.config == config
                    &&& traversal.batch_size == batch_size
                },
                Err(error) => error@ == exhausted("turtle traversal stack"@, 1),
            },
    {
        match Walk::begin(generation.items(), TurtleState::new(config), labels()) {
            Err(error) => Err(error),
            Ok(walk) => {
                let polygon_stack: Vec<Polygon2d> = Vec::new();
                assert(outlines_2d(polygon_stack@) =~= Seq::empty());
                Ok(
                    Turtle2dTraversal {
                        walk,
                        polygon_stack,
                        overall_bounds: None,
                        config,
                        batch_size,
                    },
                )
            },
        }
    }

    /// Process items until a batch is full or the generation ends. `None` when
    /// there was nothing left to process.
    ///
    /// The cancellation hook is asked before every item and before a batch is
    /// given out. The first time it says yes ends the work, and the batch at
    /// hand is dropped. Room may be refused, but not once nothing is left to
    /// process. The sink is handed nothing.
    pub fn next_batch<
        C: Fn(Arithmetic) -> Real,
        F: Fn() -> bool,
        E: Fn(Turtle2dBatch) -> Result<(), VisualizeError>,
    >(&mut self, calc: &C, outlet: &mut Outlet<Turtle2dBatch, F, E>) -> (r: Result<
        Option<Turtle2dBatch>,
        VisualizeError,
    >)
        requires
            old(self).valid(),
            calculates(*calc),
            old(outlet).ready(),
        ensures
            final(outlet).ready(),
            final(outlet).follows(*old(outlet)),
            questions(final(outlet).since(*old(outlet))),
            old(self).walk.frames@.len() == 0 ==> r == Ok::<
                Option<Turtle2dBatch>,
                VisualizeError,
            >(None) && final(outlet).since(*old(outlet)).len() == 0,
            final(self).valid(),
            final(self).config == old(self).config,
            final(self).batch_size == old(self).batch_size,
            ({
                let ahead = old(self).future(answers(*calc));
                let behind = final(self).future(answers(*calc));
                let size = old(self).batch_size as int;
                let log = final(outlet).since(*old(outlet));
                match r {
                    Ok(Some(batch)) => {
                        let count = if ahead.events.len() < size {
                            ahead.events.len() as int
                        } else {
                            size
                        };
                        &&& quiet(log)
                        &&& log.len() > count
                        &&& final(self).turtle() == after_items(
                            old(self).turtle(),
                            size as nat,
                            planar_labels(),
                            planar_visit(*old(self).config, answers(*calc)),
                        )
                        &&& count > 0
                        &&& batch_holds_2d(
                            batch,
                            ahead.events.subrange(0, count),
                            old(self).overall_bounds,
                            final(self).walk.progress,
                        )
                        &&& behind.events == ahead.events.subrange(
                            count,
                            ahead.events.len() as int,
                        )
                        &&& behind.end == ahead.end
                        &&& final(self).overall_bounds == batch.overall_bounds
                        &&& count < size ==> ahead.end == Ok::<_, Failure>(final(self).turtle())
                            && final(self).walk.frames@.len() == 0
                    },
                    Ok(None) => {
                        &&& quiet(log)
                        &&& ahead.events.len() == 0
                        &&& ahead.end == Ok::<_, Failure>(final(self).turtle())
                        &&& final(self).walk.frames@.len() == 0
                        &&& final(self).overall_bounds == old(self).overall_bounds
                    },
                    Err(error) => {
                        ||| called_off(log, old(outlet).sink()) && error@ == Failure::Cancelled
                        ||| quiet(log) && refused_2d(
                            old(self).turtle(),
                            *old(self).config,
                            answers(*calc),
                            error@,
                            old(self).batch_size,
                        )
                        ||| quiet(log) && ahead.events.len() < size && ahead.end == Err::<
                            Turtle<TurtleState, Point2d>,
                            _,
                        >(error@)
                    },
                }
            }),
    {
        let ghost ev = answers(*calc);
        let ghost start = self.future(ev);
        let ghost overall = self.overall_bounds;
        let ghost mut done: Seq<Event2d> = Seq::empty();
        let ghost entry = *outlet;
        let ghost first = self.turtle();
        let ghost visit = planar_visit(*self.config, ev);
        let ghost refuses = planar_refuses(*self.config, ev);
        proof {
            reveal(after_items);
            lemma_listening_starts(entry);
            lemma_listened(entry, *outlet);
        }
        if self.walk.frames.len() == 0 {
            return Ok(None);
        }
        let mut batch: Turtle2dBatch = match Turtle2dBatch::with_room(
            self.batch_size,
            self.overall_bounds,
            self.walk.progress,
        ) {
            Ok(batch) => batch,
            Err(error) => {
                return Err(error);
            },
        };
        let ghost mut written: Turtle2dProgress = self.walk.progress;
        let mut batch_items: usize = 0;
        assert(done + start.events =~= start.events);
        while self.walk.frames.len() > 0 && batch_items < self.batch_size
            invariant
                self.valid(),
                self.config == old(self).config,
                self.batch_size == old(self).batch_size,
                self.overall_bounds == overall,
                calculates(*calc),
                old(self).walk.frames@.len() > 0,
                outlet.listening(entry),
                outlet.heard(entry) >= batch_items,
                entry == *old(outlet),
                ev == answers(*calc),
                visit == planar_visit(*self.config, ev),
                refuses == planar_refuses(*self.config, ev),
                first == old(self).turtle(),
                forall|failure: Failure| #[trigger]
                    refused_on_way(
                        self.turtle(),
                        planar_labels(),
                        visit,
                        refuses,
                        failure,
                    ) ==> refused_on_way(first, planar_labels(), visit, refuses, failure),
                after_items(first, self.batch_size as nat, planar_labels(), visit) == after_items(
                    self.turtle(),
                    (self.batch_size - batch_items) as nat,
                    planar_labels(),
                    visit,
                ),
                start == old(self).future(ev),
                batch_items == done.len(),
                batch_items <= self.batch_size,
                start.events == done + self.future(ev).events,
                start.end == self.future(ev).end,
                batch_holds_2d(batch, done, overall, written),
            decreases levels_work(self.walk.place().levels),
        {
            let cancelled: bool = outlet.ask(Ghost(entry));
            proof {
                lemma_listened(entry, *outlet);
            }
            if cancelled {
                return Err(VisualizeError::Cancelled);
            }
            let ghost turtle = self.turtle();
            assert(turtle_valid(turtle)) by {
                assert forall|i: int| 0 <= i < turtle.place.levels.len() implies level_valid(
                    #[trigger] turtle.place.levels[i],
                ) by {
                    assert(turtle.place.levels[i] == self.walk.frames@[i]@);
                }
            }
            proof {
                reveal(after_items);
                lemma_refused_here(turtle, planar_labels(), visit, refuses);
                if moved(turtle, planar_labels(), visit) is Ok {
                    crate::walk::lemma_move_shrinks(turtle, planar_labels(), visit);
                }
            }
            match self.walk.step(labels()) {
                Err(error) => {
                    proof {
                        if moved(turtle, planar_labels(), visit) is Ok || stepped(
                            turtle.place,
                            planar_labels(),
                        ) is Ok {
                            assert(step_refused(turtle, planar_labels(), refuses, error@));
                        }
                    }
                    assert(done + Seq::<Event2d>::empty() =~= done);
                    return Err(error);
                },
                Ok(WalkStep::End) => {
                    assert(moved(turtle, planar_labels(), visit) == Ok::<_, Failure>(
                        (self.turtle(), None::<Event2d>),
                    ));
                },
                Ok(WalkStep::Branch) => {
                    let ghost event: Event2d = Event::Entered;
                    assert(moved(turtle, planar_labels(), visit) == Ok::<_, Failure>(
                        (self.turtle(), Some(event)),
                    ));
                    proof {
                        lemma_quiet_event(batch, done, event, overall, written);
                        let rest = self.future(ev).events;
                        assert(done + (seq![event] + rest) =~= done.push(event) + rest);
                        done = done.push(event);
                    }
                    batch_items = batch_items + 1;
                },
                Ok(WalkStep::Module(module, index)) => {
                    let position: Point2d = self.walk.state.position;
                    let ghost before = self.walk.state;
                    let ghost place = self.walk.place();
                    let mut state: TurtleState = self.walk.state;
                    let outcome: VisitOutcome = match visit_module(
                        module,
                        self.config,
                        &mut state,
                        &mut self.polygon_stack,
                        calc,
                    ) {
                        Ok(outcome) => outcome,
                        Err(error) => {
                            proof {
                                if visit_refused_2d(
                                    *module,
                                    *self.config,
                                    before,
                                    turtle.outlines,
                                    ev,
                                    error@,
                                ) {
                                    assert(step_refused(
                                        turtle,
                                        planar_labels(),
                                        refuses,
                                        error@,
                                    ));
                                }
                            }
                            assert(done + Seq::<Event2d>::empty() =~= done);
                            return Err(error);
                        },
                    };
                    self.walk.state = state;
                    match &outcome {
                        VisitOutcome::Line(_) => {
                            match checked_increment(
                                self.walk.progress.lines_emitted,
                                "turtle emitted-line counter",
                            ) {
                                Ok(count) => {
                                    self.walk.progress.lines_emitted = count;
                                },
                                Err(error) => {
                                    assert(done + Seq::<Event2d>::empty() =~= done);
                                    return Err(error);
                                },
                            }
                        },
                        VisitOutcome::Polygon(_) => {
                            match checked_increment(
                                self.walk.progress.polygons_emitted,
                                "turtle emitted-polygon counter",
                            ) {
                                Ok(count) => {
                                    self.walk.progress.polygons_emitted = count;
                                },
                                Err(error) => {
                                    assert(done + Seq::<Event2d>::empty() =~= done);
                                    return Err(error);
                                },
                            }
                        },
                        VisitOutcome::Cut => {
                            self.walk.cut();
                        },
                        VisitOutcome::Nothing => {},
                    }
                    let ghost event: Event2d = Event::Visited {
                        index: index as int,
                        before,
                        emission: outcome@,
                    };
                    assert(moved(turtle, planar_labels(), visit) == Ok::<_, Failure>(
                        (self.turtle(), Some(event)),
                    ));
                    batch.record(
                        index,
                        position,
                        outcome,
                        Ghost(before),
                        Ghost(done),
                        Ghost(overall),
                        Ghost(written),
                    );
                    proof {
                        let rest = self.future(ev).events;
                        assert(done + (seq![event] + rest) =~= done.push(event) + rest);
                        done = done.push(event);
                    }
                    batch_items = batch_items + 1;
                },
            }
        }
        let ghost rest = self.future(ev).events;
        proof {
            if self.walk.frames@.len() == 0 {
                assert(self.turtle().place.levels.len() == 0);
                assert(rest =~= Seq::empty());
                assert(self.future(ev).end == Ok::<_, Failure>(self.turtle()));
                assert(start.events =~= done);
            }
            assert(start.events.subrange(0, done.len() as int) =~= done);
            assert(start.events.subrange(done.len() as int, start.events.len() as int) =~= rest);
        }
        proof {
            lemma_listened(entry, *outlet);
        }
        if batch_items == 0 {
            return Ok(None);
        }
        let cancelled: bool = outlet.ask(Ghost(entry));
        proof {
            lemma_listened(entry, *outlet);
        }
        if cancelled {
            return Err(VisualizeError::Cancelled);
        }
        batch.progress = self.walk.progress;
        self.overall_bounds = batch.overall_bounds;
        Ok(Some(batch))
    }
}

/// An event without geometry leaves a batch as it is.
proof fn lemma_quiet_event(
    batch: Turtle2dBatch,
    events: Seq<Event2d>,
    event: Event2d,
    overall: Option<Bounds2d>,
    progress: Turtle2dProgress,
)
    requires
        batch_holds_2d(batch, events, overall, progress),
        event is Entered,
    ensures
        batch_holds_2d(batch, events.push(event), overall, progress),
{
    assert(events.push(event).drop_last() =~= events);
}

/// Input for incremental turtle traversal.
pub struct Turtle2dStreamRequest<'a> {
    pub generation: &'a Generation,
    pub config: Turtle2dConfig,
    /// Maximum number of generation items consumed between sink calls (and,
    /// consequently, the maximum number of lines in one batch). This is a
    /// batching preference, not a limit on the completed visualization.
    pub batch_size: usize,
}

/// Distances and angles are finite, and widths also not negative.
pub open spec fn config_usable(config: Turtle2dConfig) -> bool {
    &&& config.turn_angle.finite()
    &&& config.initial_angle.finite()
    &&& config.default_step.finite()
    &&& config.scale_multiplier.finite()
    &&& config.initial_width.finite()
    &&& !config.initial_width.below(Real { bits: 0 })
    &&& config.width_increment.finite()
    &&& !config.width_increment.below(Real { bits: 0 })
    &&& config.turn_angle_increment.finite()
}

pub fn config_is_usable(config: &Turtle2dConfig) -> (r: bool)
    ensures
        r == config_usable(*config),
{
    config.turn_angle.is_finite() && config.initial_angle.is_finite()
        && config.default_step.is_finite() && config.scale_multiplier.is_finite()
        && config.initial_width.is_finite() && !config.initial_width.is_negative()
        && config.width_increment.is_finite() && !config.width_increment.is_negative()
        && config.turn_angle_increment.is_finite()
}

/// Why a request is turned down before anything is asked of the caller.
pub open spec fn request_fault_2d(config: Turtle2dConfig, batch_size: usize) -> Option<Failure> {
    if !config_usable(config) {
        Some(
            Failure::InvalidConfiguration(
                "turtle_2d distances and angles must be finite, and widths must be finite and non-negative"@,
            ),
        )
    } else if batch_size == 0 {
        Some(
            Failure::InvalidConfiguration("turtle_2d batch size must be greater than zero"@),
        )
    } else {
        None
    }
}

/// Whether a request can be served. Only where it can is the cancellation hook
/// asked, once.
pub fn validate_request<
    F: Fn() -> bool,
    E: Fn(Turtle2dBatch) -> Result<(), VisualizeError>,
>(
    config: &Turtle2dConfig,
    batch_size: usize,
    outlet: &mut Outlet<Turtle2dBatch, F, E>,
) -> (r: Result<(), VisualizeError>)
    requires
        old(outlet).ready(),
    ensures
        final(outlet).ready(),
        final(outlet).follows(*old(outlet)),
        ({
            let log = final(outlet).since(*old(outlet));
            match request_fault_2d(*config, batch_size) {
                Some(fault) => log.len() == 0 && (r matches Err(error) && error@ == fault),
                None => match r {
                    Ok(()) => log == seq![Exchange::<Turtle2dBatch>::Asked(false)],
                    Err(error) => log == seq![Exchange::<Turtle2dBatch>::Asked(true)] && error@
                        == Failure::Cancelled,
                },
            }
        }),
{
    let ghost entry = *outlet;
    proof {
        lemma_nothing_since(entry);
    }
    if !config_is_usable(config) {
        return Err(
            invalid(
                "turtle_2d distances and angles must be finite, and widths must be finite and non-negative",
            ),
        );
    }
    if batch_size == 0 {
        return Err(invalid("turtle_2d batch size must be greater than zero"));
    }
    let cancelled: bool = outlet.cancelled();
    proof {
        lemma_one_more(entry, entry, *outlet, Exchange::Asked(cancelled));
        assert(outlet.since(entry) =~= seq![Exchange::Asked(cancelled)]);
    }
    if cancelled {
        return Err(VisualizeError::Cancelled);
    }
    Ok(())
}

/// Which batch a traversal hands over at a place.
pub open spec fn right_batch_2d(
    generation: Generation,
    config: Turtle2dConfig,
    size: int,
    ev: spec_fn(Arithmetic) -> Real,
) -> spec_fn(int, Turtle2dBatch) -> bool {
    let start = planar_start(generation, config);
    let events = planar_trace(start, config, ev).events;
    |i: int, batch: Turtle2dBatch|
        batch_holds_2d(
            batch,
            batch_of(events, size, i),
            bounds_after_2d(None, events.subrange(0, i * size)),
            batch_progress(start, size, i, planar_labels(), planar_visit(config, ev)),
        )
}

/// The message about a polygon that was begun and not ended.
pub open spec fn unterminated_2d() -> Failure {
    Failure::InvalidConfiguration("turtle_2d ended with an unterminated polygon"@)
}

/// The summary of a finished traversal, or why it has none.
pub open spec fn summary_2d(
    traced: Trace<TurtleState, StyledLine2d, Point2d>,
) -> Result<Turtle2dStreamSummary, Failure> {
    match traced.end {
        Err(failure) => Err(failure),
        Ok(turtle) => if turtle.outlines.len() > 0 {
            Err(unterminated_2d())
        } else {
            Ok(
                Turtle2dStreamSummary {
                    bounds: bounds_after_2d(None, traced.events),
                    progress: turtle.place.progress,
                    backend_used: VisualizerBackend::Cpu,
                },
            )
        },
    }
}

/// What a planar stream asks, hands over and returns.
///
/// The sink gets the batches of the traversal in order, each once, and the
/// hook is asked before every item and directly before every batch. The first
/// time the hook says yes, or the sink refuses a batch, is the end.
pub open spec fn streamed_2d<
    F: Fn() -> bool,
    E: Fn(Turtle2dBatch) -> Result<(), VisualizeError>,
>(
    generation: Generation,
    config: Turtle2dConfig,
    batch_size: usize,
    ev: spec_fn(Arithmetic) -> Real,
    before: Outlet<Turtle2dBatch, F, E>,
    after: Outlet<Turtle2dBatch, F, E>,
    r: Result<Turtle2dStreamSummary, VisualizeError>,
) -> bool {
    let traced = planar_trace(planar_start(generation, config), config, ev);
    let size = batch_size as int;
    let total = traced.events.len() as int;
    let log = after.since(before);
    let sink = before.sink();
    let sent = handed(log).len() as int;
    &&& after.follows(before)
    &&& log.len() > 0
    &&& sent <= batch_count(total, size)
    &&& delivered(
        log,
        true,
        batch_pace(total, size),
        right_batch_2d(generation, config, size, ev),
        sent,
    )
    &&& match r {
        Ok(summary) => {
            &&& undisturbed(log, sink)
            &&& sent == batch_count(total, size)
            &&& asked(log) > total + sent
            &&& summary_2d(traced) == Ok::<_, Failure>(summary)
        },
        Err(error) => {
            ||| stopped_by_caller(log, sink, error)
            ||| undisturbed(log, sink) && room_refused_2d(
                generation,
                config,
                ev,
                error@,
                batch_size,
            )
            ||| undisturbed(log, sink) && summary_2d(traced) == Err::<Turtle2dStreamSummary, _>(
                error@,
            ) && sent == if traced.end is Ok {
                batch_count(total, size)
            } else {
                total / size
            }
        },
    }
}

proof fn lemma_bounds_join(
    bounds: Option<Bounds2d>,
    a: Seq<Event2d>,
    b: Seq<Event2d>,
)
    ensures
        bounds_after_2d(bounds, a + b) == bounds_after_2d(bounds_after_2d(bounds, a), b),
    decreases b.len(),
{
    if b.len() == 0 {
        assert(a + b =~= a);
    } else {
        assert((a + b).drop_last() =~= a + b.drop_last());
        lemma_bounds_join(bounds, a, b.drop_last());
    }
}

/// A stream whose hook only ever says yes is cancelled: the hook is asked once,
/// and the sink is handed nothing.
pub proof fn a_constant_yes_cancels_2d<
    F: Fn() -> bool,
    E: Fn(Turtle2dBatch) -> Result<(), VisualizeError>,
>(
    generation: Generation,
    config: Turtle2dConfig,
    batch_size: usize,
    ev: spec_fn(Arithmetic) -> Real,
    before: Outlet<Turtle2dBatch, F, E>,
    after: Outlet<Turtle2dBatch, F, E>,
    r: Result<Turtle2dStreamSummary, VisualizeError>,
)
    requires
        streamed_2d(generation, config, batch_size, ev, before, after, r),
        after.ready(),
        forall|answer: bool| #[trigger] call_ensures(before.hook(), (), answer) ==> answer,
    ensures
        r matches Err(error) && error@ == Failure::Cancelled,
        after.since(before).len() == 1,
        handed(after.since(before)).len() == 0,
{
    let log = after.since(before);
    if log[0] is Handed {
        assert(handed_at(log, 0));
    }
    if r is Err && turned_away(log, before.sink(), r->Err_0) {
        assert(log.last() is Handed);
    }
    a_constant_yes_is_all_that_is_heard(before, after);
}

/// The lines of some batches, one batch after the other.
pub open spec fn lines_handed_2d(batches: Seq<Turtle2dBatch>) -> Seq<StyledLine2d>
    decreases batches.len(),
{
    if batches.len() == 0 {
        Seq::empty()
    } else {
        lines_handed_2d(batches.drop_last()) + batches.last().lines@
    }
}

/// The polygons of some batches, one batch after the other.
pub open spec fn polygons_handed_2d(batches: Seq<Turtle2dBatch>) -> Seq<Outline<Point2d>>
    decreases batches.len(),
{
    if batches.len() == 0 {
        Seq::empty()
    } else {
        polygons_handed_2d(batches.drop_last()) + outlines_2d(batches.last().polygons@)
    }
}

/// The module indices of some batches, one batch after the other.
pub open spec fn indices_handed(batches: Seq<Turtle2dBatch>) -> Seq<int>
    decreases batches.len(),
{
    if batches.len() == 0 {
        Seq::empty()
    } else {
        indices_handed(batches.drop_last()) + recorded_indices(batches.last().module_indices@)
    }
}

/// The entry positions of some batches, one batch after the other.
pub open spec fn positions_handed(batches: Seq<Turtle2dBatch>) -> Seq<(int, Point2d)>
    decreases batches.len(),
{
    if batches.len() == 0 {
        Seq::empty()
    } else {
        positions_handed(batches.drop_last()) + recorded_positions(
            batches.last().module_positions@,
        )
    }
}

proof fn lemma_handed_so_far_2d(
    batches: Seq<Turtle2dBatch>,
    generation: Generation,
    config: Turtle2dConfig,
    size: int,
    ev: spec_fn(Arithmetic) -> Real,
)
    requires
        forall|i: int|
            0 <= i < batches.len() ==> right_batch_2d(generation, config, size, ev)(
                i,
                #[trigger] batches[i],
            ),
    ensures
        ({
            let events = planar_trace(planar_start(generation, config), config, ev).events;
            &&& lines_handed_2d(batches) == batched_lines(events, size, batches.len() as int)
            &&& polygons_handed_2d(batches) == batched_polygons(
                events,
                size,
                batches.len() as int,
            )
            &&& indices_handed(batches) == batched_indices(events, size, batches.len() as int)
            &&& positions_handed(batches) == positions_of(
                batched_visits(events, size, batches.len() as int),
            )
        }),
    decreases batches.len(),
{
    let none = Seq::<(int, TurtleState)>::empty();
    assert(positions_of(none) =~= Seq::empty());
    if batches.len() > 0 {
        let init = batches.drop_last();
        let right = right_batch_2d(generation, config, size, ev);
        assert forall|i: int| 0 <= i < init.len() implies right(i, #[trigger] init[i]) by {
            assert(init[i] == batches[i]);
        }
        lemma_handed_so_far_2d(init, generation, config, size, ev);
        assert(right(batches.len() - 1, batches[batches.len() - 1]));
        let events = planar_trace(planar_start(generation, config), config, ev).events;
        let n = batches.len() as int;
        assert(positions_of(batched_visits(events, size, n)) =~= positions_of(
            batched_visits(events, size, n - 1),
        ) + positions_of(visits_in(batch_of(events, size, n - 1))));
    }
}

/// A stream that succeeds has handed over every line and every polygon of the
/// traversal, in order and each once, whatever the size of its batches.
pub proof fn a_finished_stream_hands_over_everything_2d<
    F: Fn() -> bool,
    E: Fn(Turtle2dBatch) -> Result<(), VisualizeError>,
>(
    generation: Generation,
    config: Turtle2dConfig,
    batch_size: usize,
    ev: spec_fn(Arithmetic) -> Real,
    before: Outlet<Turtle2dBatch, F, E>,
    after: Outlet<Turtle2dBatch, F, E>,
    r: Result<Turtle2dStreamSummary, VisualizeError>,
)
    requires
        batch_size > 0,
        streamed_2d(generation, config, batch_size, ev, before, after, r),
        r is Ok,
    ensures
        ({
            let events = planar_trace(planar_start(generation, config), config, ev).events;
            let batches = handed(after.since(before));
            &&& lines_handed_2d(batches) == lines_in(events)
            &&& polygons_handed_2d(batches) == polygons_in(events)
            &&& indices_handed(batches) == indices_in(events)
            &&& positions_handed(batches) == positions_of(visits_in(events))
        }),
{
    let events = planar_trace(planar_start(generation, config), config, ev).events;
    let batches = handed(after.since(before));
    lemma_handed_so_far_2d(batches, generation, config, batch_size as int, ev);
    lemma_all_batches(events, batch_size as int);
}

/// What is refused after some items is refused to the whole traversal.
pub(crate) proof fn lemma_refused_before_2d(
    generation: Generation,
    config: Turtle2dConfig,
    ev: spec_fn(Arithmetic) -> Real,
    failure: Failure,
    size: usize,
    items: nat,
)
    requires
        turtle_valid(planar_start(generation, config)),
    ensures
        refused_2d(
            after_items(
                planar_start(generation, config),
                items,
                planar_labels(),
                planar_visit(config, ev),
            ),
            config,
            ev,
            failure,
            size,
        ) ==> room_refused_2d(generation, config, ev, failure, size),
{
    let start = planar_start(generation, config);
    let visit = planar_visit(config, ev);
    let later = after_items(start, items, planar_labels(), visit);
    let refuses = planar_refuses(config, ev);
    if refused_on_way(later, planar_labels(), visit, refuses, failure) {
        lemma_refused_later(start, items, planar_labels(), visit, refuses, failure);
    }
}

/// The next batch of a traversal is the right one to hand over.
proof fn lemma_next_batch_2d(
    generation: Generation,
    config: Turtle2dConfig,
    size: int,
    ev: spec_fn(Arithmetic) -> Real,
    sent: int,
    taken: int,
    turtle: Turtle<TurtleState, Point2d>,
    next: Turtle<TurtleState, Point2d>,
    batch: Turtle2dBatch,
)
    requires
        size > 0,
        0 <= sent,
        turtle_valid(planar_start(generation, config)),
        turtle == after_items(
            planar_start(generation, config),
            (sent * size) as nat,
            planar_labels(),
            planar_visit(config, ev),
        ),
        next == after_items(turtle, size as nat, planar_labels(), planar_visit(config, ev)),
        ({
            let events = planar_trace(planar_start(generation, config), config, ev).events;
            let total = events.len() as int;
            let ahead = events.subrange(taken, total);
            let count = if ahead.len() < size {
                ahead.len() as int
            } else {
                size
            };
            &&& 0 <= taken <= total
            &&& taken == sent * size || taken == total && sent == batch_count(total, size)
            &&& count > 0
            &&& batch_holds_2d(
                batch,
                ahead.subrange(0, count),
                bounds_after_2d(None, events.subrange(0, taken)),
                next.place.progress,
            )
        }),
    ensures
        taken == sent * size,
        right_batch_2d(generation, config, size, ev)(sent, batch),
        next == after_items(
            planar_start(generation, config),
            ((sent + 1) * size) as nat,
            planar_labels(),
            planar_visit(config, ev),
        ),
        ({
            let events = planar_trace(planar_start(generation, config), config, ev).events;
            let total = events.len() as int;
            let ahead = events.subrange(taken, total);
            let count = if ahead.len() < size {
                ahead.len() as int
            } else {
                size
            };
            let reached = taken + count;
            &&& batch_pace(total, size)((sent + 1) as nat) == reached + sent + 1
            &&& sent < batch_count(total, size)
            &&& reached == (sent + 1) * size || reached == total && sent + 1 == batch_count(
                total,
                size,
            )
            &&& count == size ==> reached == (sent + 1) * size
            &&& ahead.subrange(count, ahead.len() as int) == events.subrange(reached, total)
            &&& batch.overall_bounds == bounds_after_2d(None, events.subrange(0, reached))
        }),
{
    let start = planar_start(generation, config);
    let events = planar_trace(start, config, ev).events;
    let total = events.len() as int;
    let ahead = events.subrange(taken, total);
    let count = if ahead.len() < size {
        ahead.len() as int
    } else {
        size
    };
    let piece = ahead.subrange(0, count);
    assert(taken < total);
    assert(taken == sent * size);
    assert((sent + 1) * size == sent * size + size) by (nonlinear_arith);
    assert(sent * size >= 0) by (nonlinear_arith)
        requires
            sent >= 0,
            size > 0,
    ;
    assert(piece =~= batch_of(events, size, sent));
    assert(events.subrange(0, taken) + piece =~= events.subrange(0, taken + count));
    lemma_bounds_join(None, events.subrange(0, taken), piece);
    assert(ahead.subrange(count, ahead.len() as int) =~= events.subrange(taken + count, total));
    lemma_pace_at(taken + count, sent, total, size);
    lemma_items_join(
        start,
        (sent * size) as nat,
        size as nat,
        planar_labels(),
        planar_visit(config, ev),
    );
    assert((sent * size) as nat + size as nat == ((sent + 1) * size) as nat);
    if count < size {
        assert(sent + 1 == batch_count(total, size)) by (nonlinear_arith)
            requires
                taken == sent * size,
                total == taken + count,
                0 < count < size,
                batch_count(total, size) == (total + size - 1) / size,
        ;
    }
}

/// Every batch that a stream hands over holds no more lines and polygons than
/// it may hold, and one module index for each line.
pub proof fn handed_batches_are_bounded(
    generation: Generation,
    config: Turtle2dConfig,
    size: int,
    ev: spec_fn(Arithmetic) -> Real,
    i: int,
    batch: Turtle2dBatch,
)
    requires
        size > 0,
        right_batch_2d(generation, config, size, ev)(i, batch),
        0 <= i,
        i * size <= planar_trace(planar_start(generation, config), config, ev).events.len(),
    ensures
        batch.lines@.len() + batch.polygons@.len() <= size,
        batch.module_indices@.len() == batch.lines@.len(),
{
    let events = planar_trace(planar_start(generation, config), config, ev).events;
    batches_are_bounded(batch_of(events, size, i));
    assert(i * size >= 0) by (nonlinear_arith)
        requires
            i >= 0,
            size > 0,
    ;
    assert(outlines_2d(batch.polygons@).len() == batch.polygons@.len());
    assert(recorded_indices(batch.module_indices@).len() == batch.module_indices@.len());
}

/// Traverse a turtle generation on CPU without first materializing a complete
/// scene.
///
/// Batches retain source order and contain at most `request.batch_size` lines.
/// A batch can contain no lines when a work quantum only moves or changes the
/// turtle; these progress-only batches keep callers informed during such runs.
pub fn stream_turtle_2d<
    'a,
    F: Fn() -> bool,
    E: Fn(Turtle2dBatch) -> Result<(), VisualizeError>,
    C: Fn(Arithmetic) -> Real,
>(
    request: Turtle2dStreamRequest<'a>,
    outlet: &mut Outlet<Turtle2dBatch, F, E>,
    calc: &C,
) -> (r: Result<Turtle2dStreamSummary, VisualizeError>)
    requires
        calculates(*calc),
        old(outlet).ready(),
    ensures
        final(outlet).ready(),
        match request_fault_2d(request.config, request.batch_size) {
            Some(fault) => {
                &&& r matches Err(error) && error@ == fault
                &&& final(outlet).follows(*old(outlet))
                &&& final(outlet).since(*old(outlet)).len() == 0
            },
            None => streamed_2d(
                *request.generation,
                request.config,
                request.batch_size,
                answers(*calc),
                *old(outlet),
                *final(outlet),
                r,
            ),
        },
{
    let ghost entry = *outlet;
    match validate_request(&request.config, request.batch_size, outlet) {
        Ok(()) => {},
        Err(error) => {
            proof {
                lemma_refused_at_once(
                    *request.generation,
                    request.config,
                    request.batch_size,
                    answers(*calc),
                    entry,
                    *outlet,
                    error,
                );
            }
            return Err(error);
        },
    }
    let ghost asked_once = *outlet;
    let r: Result<Turtle2dStreamSummary, VisualizeError> = stream_cpu_validated(
        request.generation,
        &request.config,
        request.batch_size,
        outlet,
        calc,
    );
    proof {
        lemma_streamed_after_question(
            *request.generation,
            request.config,
            request.batch_size,
            answers(*calc),
            entry,
            asked_once,
            *outlet,
            r,
        );
    }
    r
}

/// A stream that is called off with the first question has handed over nothing.
pub(crate) proof fn lemma_refused_at_once<
    F: Fn() -> bool,
    E: Fn(Turtle2dBatch) -> Result<(), VisualizeError>,
>(
    generation: Generation,
    config: Turtle2dConfig,
    batch_size: usize,
    ev: spec_fn(Arithmetic) -> Real,
    before: Outlet<Turtle2dBatch, F, E>,
    after: Outlet<Turtle2dBatch, F, E>,
    error: VisualizeError,
)
    ensures
        after.follows(before) && batch_size > 0 && after.since(before) == seq![
            Exchange::<Turtle2dBatch>::Asked(true),
        ] && error@ == Failure::Cancelled ==> streamed_2d(
            generation,
            config,
            batch_size,
            ev,
            before,
            after,
            Err(error),
        ),
{
    let log = after.since(before);
    if log == seq![Exchange::<Turtle2dBatch>::Asked(true)] {
        assert(questions(log));
        lemma_questions(log, before.sink());
        assert(log.drop_last() =~= Seq::empty());
    }
    let total = planar_trace(planar_start(generation, config), config, ev).events.len() as int;
    if batch_size > 0 {
        lemma_batch_count_bounds(total, batch_size as int);
    }
}

/// One question before a stream that was not called off is part of it.
pub(crate) proof fn lemma_streamed_after_question<
    F: Fn() -> bool,
    E: Fn(Turtle2dBatch) -> Result<(), VisualizeError>,
>(
    generation: Generation,
    config: Turtle2dConfig,
    batch_size: usize,
    ev: spec_fn(Arithmetic) -> Real,
    before: Outlet<Turtle2dBatch, F, E>,
    middle: Outlet<Turtle2dBatch, F, E>,
    after: Outlet<Turtle2dBatch, F, E>,
    r: Result<Turtle2dStreamSummary, VisualizeError>,
)
    requires
        middle.follows(before),
        questions(middle.since(before)),
        quiet(middle.since(before)),
        streamed_2d(generation, config, batch_size, ev, middle, after, r),
    ensures
        streamed_2d(generation, config, batch_size, ev, before, after, r),
{
    let a = middle.since(before);
    let b = after.since(middle);
    let traced = planar_trace(planar_start(generation, config), config, ev);
    let pace = batch_pace(traced.events.len() as int, batch_size as int);
    lemma_since_joins(before, middle, after);
    lemma_questions(a, before.sink());
    lemma_logs_join(a, b);
    lemma_endings_join(a, b, before.sink());
    lemma_pace_ahead(a, b, pace);
    assert(handed(a) + handed(b) =~= handed(b));
}

/// Traverse a generation whose request has been validated.
pub fn stream_cpu_validated<
    'a,
    F: Fn() -> bool,
    E: Fn(Turtle2dBatch) -> Result<(), VisualizeError>,
    C: Fn(Arithmetic) -> Real,
>(
    generation: &'a Generation,
    config: &'a Turtle2dConfig,
    batch_size: usize,
    outlet: &mut Outlet<Turtle2dBatch, F, E>,
    calc: &C,
) -> (r: Result<Turtle2dStreamSummary, VisualizeError>)
    requires
        calculates(*calc),
        batch_size > 0,
        old(outlet).ready(),
    ensures
        final(outlet).ready(),
        streamed_2d(
            *generation,
            *config,
            batch_size,
            answers(*calc),
            *old(outlet),
            *final(outlet),
            r,
        ),
{
    let ghost entry = *outlet;
    let ghost sink = outlet.sink();
    let ghost ev = answers(*calc);
    let ghost traced = planar_trace(planar_start(*generation, *config), *config, ev);
    let ghost events = traced.events;
    let ghost total = events.len() as int;
    let ghost size = batch_size as int;
    let ghost pace = batch_pace(total, size);
    let ghost right = right_batch_2d(*generation, *config, size, ev);
    let ghost first = planar_start(*generation, *config);
    let ghost visit = planar_visit(*config, ev);
    proof {
        lemma_batch_count_bounds(total, size);
        lemma_sending_starts(entry, true, pace, right);
        lemma_listening_starts(entry);
    }
    let cancelled: bool = outlet.ask(Ghost(entry));
    proof {
        lemma_listened(entry, *outlet);
        lemma_sending_asks(entry, entry, *outlet, true, pace, right, 0, 0);
    }
    if cancelled {
        return Err(VisualizeError::Cancelled);
    }
    proof {
        lemma_sending_ends(entry, *outlet, true, pace, right, 0, 1);
    }
    let mut traversal: Turtle2dTraversal<'a> = match Turtle2dTraversal::begin(
        generation,
        config,
        batch_size,
    ) {
        Ok(traversal) => traversal,
        Err(error) => {
            return Err(error);
        },
    };
    let ghost mut sent: int = 0;
    let ghost mut taken: int = 0;
    proof {
        assert(events.subrange(0, total) =~= events);
        assert(events.subrange(0, 0) =~= Seq::empty());
        reveal(after_items);
    }
    loop
        invariant
            calculates(*calc),
            entry == *old(outlet),
            outlet.ready(),
            sending(entry, *outlet, true, pace, right, sent, taken + sent + 1),
            sent <= batch_count(total, size),
            pace == batch_pace(total, size),
            right == right_batch_2d(*generation, *config, size, ev),
            visit == planar_visit(*config, ev),
            turtle_valid(first),
            first == planar_start(*generation, *config),
            traversal.turtle() == after_items(first, (sent * size) as nat, planar_labels(), visit),
            ev == answers(*calc),
            size == batch_size,
            size > 0,
            total == events.len(),
            events == traced.events,
            traced == planar_trace(planar_start(*generation, *config), *config, ev),
            traversal.valid(),
            traversal.config == config,
            traversal.batch_size == batch_size,
            0 <= sent,
            0 <= taken <= total,
            taken == sent * size || taken == total && sent == batch_count(total, size),
            taken != sent * size ==> traversal.walk.frames@.len() == 0,
            traversal.future(ev).events == events.subrange(taken, total),
            traversal.future(ev).end == traced.end,
            traversal.overall_bounds == bounds_after_2d(None, events.subrange(0, taken)),
        decreases traversal.future(ev).events.len(),
    {
        let ghost ahead = traversal.future(ev).events;
        let ghost middle = *outlet;
        let ghost traversal_before = traversal.turtle();
        let step: Result<Option<Turtle2dBatch>, VisualizeError> = traversal.next_batch(
            calc,
            outlet,
        );
        let ghost more = outlet.since(middle).len() as int;
        proof {
            lemma_sending_asks(entry, middle, *outlet, true, pace, right, sent, taken + sent + 1);
            lemma_sending_ends(entry, middle, true, pace, right, sent, taken + sent + 1);
            if quiet(outlet.since(middle)) {
                lemma_sending_ends(entry, *outlet, true, pace, right, sent, taken + sent + 1 + more);
            }
        }
        match step {
            Err(error) => {
                proof {
                    lemma_refused_before_2d(
                        *generation,
                        *config,
                        ev,
                        error@,
                        batch_size,
                        (sent * size) as nat,
                    );
                    if ahead.len() < size {
                        lemma_full_batches(taken, sent, total, size);
                    }
                }
                return Err(error);
            },
            Ok(None) => {
                proof {
                    assert(taken == total);
                    assert(sent >= batch_count(total, size)) by (nonlinear_arith)
                        requires
                            taken == total,
                            size > 0,
                            taken == sent * size || sent == batch_count(total, size),
                            batch_count(total, size) == (total + size - 1) / size,
                    ;
                    assert(events.subrange(0, taken) =~= events);
                }
                if traversal.polygon_stack.len() > 0 {
                    return Err(invalid("turtle_2d ended with an unterminated polygon"));
                }
                return Ok(
                    Turtle2dStreamSummary {
                        bounds: traversal.overall_bounds,
                        progress: traversal.walk.progress,
                        backend_used: VisualizerBackend::Cpu,
                    },
                );
            },
            Ok(Some(batch)) => {
                let ghost count = if ahead.len() < size { ahead.len() as int } else { size };
                let ghost kept = batch;
                proof {
                    lemma_next_batch_2d(
                        *generation,
                        *config,
                        size,
                        ev,
                        sent,
                        taken,
                        traversal_before,
                        traversal.turtle(),
                        batch,
                    );
                }
                let ghost ready = *outlet;
                let reply: Result<(), VisualizeError> = outlet.hand(batch);
                proof {
                    lemma_sending_hands(
                        entry,
                        ready,
                        *outlet,
                        true,
                        pace,
                        right,
                        sent,
                        taken + sent + 1 + more,
                        kept,
                        reply,
                    );
                }
                match reply {
                    Err(error) => {
                        return Err(error);
                    },
                    Ok(nothing) => {
                        assert(nothing == ());
                        assert(reply == Ok::<(), VisualizeError>(()));
                    },
                }
                proof {
                    lemma_sending_less(
                        entry,
                        *outlet,
                        true,
                        pace,
                        right,
                        sent + 1,
                        taken + sent + 1 + more,
                        taken + count + sent + 2,
                    );
                    sent = sent + 1;
                    taken = taken + count;
                }
            },
        }
    }
}

} // verus!
