//! Incremental traversal of a three-dimensional turtle in bounded batches.

use vstd::prelude::*;

use crate::config::{Turtle2dConfig, Turtle3dConfig};
use crate::error::{checked_increment, exhausted, invalid, resource_error, Failure, VisualizeError};
use crate::generation::{Generation, Module};
use crate::geometry::{
    bounds_with_3d, bounds_with_points_3d, include_bounds_3d, include_points_3d, Bounds3d, Point3d,
    Polygon3d, StyledLine3d,
};
use crate::kind::VisualizerBackend;
use crate::number::{answers, calculates, Arithmetic, Real, ONE_BITS};
use crate::stream_2d::{config_is_usable, config_usable, reserve_exact};
use crate::stroke::Turtle3dWidthReferenceEstimator;
use crate::outlet::{
    a_constant_yes_is_all_that_is_heard, asked, called_off, delivered, handed, handed_at,
    lemma_endings_join, lemma_listened, lemma_listening_starts, lemma_logs_join,
    lemma_nothing_since, lemma_one_more, lemma_pace_ahead, lemma_questions, lemma_sending_asks,
    lemma_sending_ends, lemma_sending_hands, lemma_sending_less, lemma_sending_starts,
    lemma_since_joins, questions, quiet, sending, stopped_by_caller, turned_away, undisturbed,
    Exchange, Outlet,
};
use crate::turtle_3d::{
    outline_3d, outlines_3d, visit_module_3d, visited_3d, visit_refused_3d, Effect3d, SpatialState,
    VisitOutcome3d,
};
use crate::walk::{
    after_items, batched_lines, batched_polygons, batch_count, batch_of, batch_pace, batch_progress,
    lemma_all_batches, lemma_batch_count_bounds, lemma_batch_starts, lemma_last_batch_ends,
    lemma_full_batches, lemma_items_join, lemma_lines_split, lemma_pace_at, lemma_refused_here,
    lemma_refused_later, level_valid, levels_work, lines_in, moved, polygons_in, refused_on_way,
    stepped, step_refused, trace, turtle_valid, Emission, Event, Outline, Trace, Turtle,
    Turtle2dProgress, Walk, WalkLabels, WalkStep,
};

verus! {

/// Monotonic progress reported by the incremental three-dimensional turtle.
#[derive(Debug, Clone, Copy, PartialEq, Eq, Structural)]
pub struct Turtle3dProgress {
    /// Modules and branch nodes consumed from the generation.
    pub items_processed: usize,
    pub modules_processed: usize,
    pub branches_entered: usize,
    pub lines_emitted: usize,
    pub polygons_emitted: usize,
    pub active_branch_depth: usize,
    pub max_branch_depth: usize,
}

/// The progress of a traversal as the spatial turtle reports it.
pub open spec fn spatial_progress(progress: Turtle2dProgress) -> Turtle3dProgress {
    Turtle3dProgress {
        items_processed: progress.items_processed,
        modules_processed: progress.modules_processed,
        branches_entered: progress.branches_entered,
        lines_emitted: progress.lines_emitted,
        polygons_emitted: progress.polygons_emitted,
        active_branch_depth: progress.active_branch_depth,
        max_branch_depth: progress.max_branch_depth,
    }
}

fn report_progress(progress: Turtle2dProgress) -> (r: Turtle3dProgress)
    ensures
        r == spatial_progress(progress),
{
    Turtle3dProgress {
        items_processed: progress.items_processed,
        modules_processed: progress.modules_processed,
        branches_entered: progress.branches_entered,
        lines_emitted: progress.lines_emitted,
        polygons_emitted: progress.polygons_emitted,
        active_branch_depth: progress.active_branch_depth,
        max_branch_depth: progress.max_branch_depth,
    }
}

impl Default for Turtle3dProgress {
    fn default() -> (r: Self)
        ensures
            r == spatial_progress(Turtle2dProgress::none()),
    {
        report_progress(<Turtle2dProgress as Default>::default())
    }
}

/// Kind tag used by the primitive order of a batch.
#[derive(Debug, Clone, Copy, PartialEq, Eq, Structural)]
pub enum Turtle3dPrimitiveKind {
    Line,
    Polygon,
}

/// One bounded piece of an incremental turtle visualization.
#[derive(Debug, PartialEq, Eq)]
pub struct Turtle3dBatch {
    pub lines: Vec<StyledLine3d>,
    pub polygons: Vec<Polygon3d>,
    /// Traversal order of the entries in `lines` and `polygons`. Entries of
    /// each kind consume the next item from the corresponding vector, so its
    /// length is the sum of theirs.
    pub primitive_order: Vec<Turtle3dPrimitiveKind>,
    /// Bounds of only the geometry in this batch.
    pub batch_bounds: Option<Bounds3d>,
    /// Bounds of all geometry emitted up to and including this batch.
    pub overall_bounds: Option<Bounds3d>,
    pub progress: Turtle3dProgress,
}

/// Final metadata returned after all turtle batches have been emitted.
#[derive(Debug, Clone, Copy, PartialEq, Eq)]
pub struct Turtle3dStreamSummary {
    pub bounds: Option<Bounds3d>,
    pub progress: Turtle3dProgress,
    /// Length-weighted reference for interpreting retained source widths.
    pub width_reference: Real,
    /// The backend that produced the emitted batches.
    pub backend_used: VisualizerBackend,
}

impl Default for Turtle3dStreamSummary {
    fn default() -> (r: Self)
        ensures
            r.bounds is None,
            r.progress == spatial_progress(Turtle2dProgress::none()),
            r.width_reference.bits == ONE_BITS,
            r.backend_used == VisualizerBackend::Auto,
    {
        Turtle3dStreamSummary {
            bounds: None,
            progress: <Turtle3dProgress as Default>::default(),
            width_reference: Real { bits: ONE_BITS },
            backend_used: VisualizerBackend::Auto,
        }
    }
}

pub type Event3d = Event<SpatialState, StyledLine3d, Point3d>;

/// The names under which the spatial traversal reports what it ran out of.
pub open spec fn spatial_labels() -> WalkLabels {
    WalkLabels {
        items: "turtle_3d processed-item counter",
        modules: "turtle_3d processed-module counter",
        branches: "turtle_3d entered-branch counter",
        lines: "turtle_3d emitted-line counter",
        polygons: "turtle_3d emitted-polygon counter",
        stack: "turtle_3d traversal stack",
    }
}

fn labels() -> (r: WalkLabels)
    ensures
        r == spatial_labels(),
{
    WalkLabels {
        items: "turtle_3d processed-item counter",
        modules: "turtle_3d processed-module counter",
        branches: "turtle_3d entered-branch counter",
        lines: "turtle_3d emitted-line counter",
        polygons: "turtle_3d emitted-polygon counter",
        stack: "turtle_3d traversal stack",
    }
}

/// How a spatial turtle visits a module.
pub open spec fn spatial_visit(
    config: Turtle2dConfig,
    ev: spec_fn(Arithmetic) -> Real,
) -> spec_fn(Module, SpatialState, Seq<Outline<Point3d>>) -> Result<Effect3d, Failure> {
    |module: Module, state: SpatialState, outlines: Seq<Outline<Point3d>>|
        visited_3d(module, config, state, outlines, ev)
}

/// What a spatial turtle does from here on.
pub open spec fn spatial_trace(
    turtle: Turtle<SpatialState, Point3d>,
    config: Turtle2dConfig,
    ev: spec_fn(Arithmetic) -> Real,
) -> Trace<SpatialState, StyledLine3d, Point3d> {
    trace(turtle, spatial_labels(), spatial_visit(config, ev))
}

/// The turtle before the first item of a generation.
pub open spec fn spatial_start(
    generation: Generation,
    config: Turtle2dConfig,
    ev: spec_fn(Arithmetic) -> Real,
) -> Turtle<SpatialState, Point3d> {
    Turtle {
        place: Walk::<'static, SpatialState>::beginning(
            generation.0@,
            SpatialState::initial(config, ev),
        ),
        outlines: Seq::empty(),
    }
}

/// The bounds with the geometry of some events inside.
pub open spec fn bounds_after_3d(bounds: Option<Bounds3d>, events: Seq<Event3d>) -> Option<Bounds3d>
    decreases events.len(),
{
    if events.len() == 0 {
        bounds
    } else {
        let before = bounds_after_3d(bounds, events.drop_last());
        match events.last() {
            Event::Visited { emission: Emission::Line(line), .. } => bounds_with_3d(
                before,
                line.line,
            ),
            Event::Visited { emission: Emission::Polygon(outline), .. } => bounds_with_points_3d(
                before,
                outline.vertices,
            ),
            _ => before,
        }
    }
}

/// The kinds of the primitives that some events emitted, in order.
pub open spec fn kinds_in(events: Seq<Event3d>) -> Seq<Turtle3dPrimitiveKind>
    decreases events.len(),
{
    if events.len() == 0 {
        Seq::empty()
    } else {
        let before = kinds_in(events.drop_last());
        match events.last() {
            Event::Visited { emission: Emission::Line(_), .. } => before.push(
                Turtle3dPrimitiveKind::Line,
            ),
            Event::Visited { emission: Emission::Polygon(_), .. } => before.push(
                Turtle3dPrimitiveKind::Polygon,
            ),
            _ => before,
        }
    }
}

/// The width samples with the lines of some events in them.
pub open spec fn widths_after(
    widths: Turtle3dWidthReferenceEstimator,
    events: Seq<Event3d>,
    ev: spec_fn(Arithmetic) -> Real,
) -> Turtle3dWidthReferenceEstimator
    decreases events.len(),
{
    if events.len() == 0 {
        widths
    } else {
        let before = widths_after(widths, events.drop_last(), ev);
        match events.last() {
            Event::Visited { emission: Emission::Line(line), .. } => before.with_line(line, ev),
            _ => before,
        }
    }
}

/// A batch holds exactly what some events emitted.
pub open spec fn batch_holds_3d(
    batch: Turtle3dBatch,
    events: Seq<Event3d>,
    overall: Option<Bounds3d>,
    progress: Turtle3dProgress,
) -> bool {
    &&& batch.lines@ == lines_in(events)
    &&& outlines_3d(batch.polygons@) == polygons_in(events)
    &&& batch.primitive_order@ == kinds_in(events)
    &&& batch.batch_bounds == bounds_after_3d(None, events)
    &&& batch.overall_bounds == bounds_after_3d(overall, events)
    &&& batch.progress == progress
}

/// Room for a batch was refused.
pub open spec fn batch_refused_3d(failure: Failure, size: usize) -> bool {
    ||| failure == exhausted("turtle_3d line batch"@, size)
    ||| failure == exhausted("turtle_3d primitive-order batch"@, size)
}

/// When the visit of a module is refused room.
pub open spec fn spatial_refuses(
    config: Turtle2dConfig,
    ev: spec_fn(Arithmetic) -> Real,
) -> spec_fn(Module, SpatialState, Seq<Outline<Point3d>>, Failure) -> bool {
    |module: Module, state: SpatialState, outlines: Seq<Outline<Point3d>>, failure: Failure|
        visit_refused_3d(module, config, state, outlines, ev, failure)
}

/// Room that a traversal asks for from here on was refused: for a batch, or at
/// a step that asks for it, or for a polygon that was emitted.
pub open spec fn refused_3d(
    turtle: Turtle<SpatialState, Point3d>,
    config: Turtle2dConfig,
    ev: spec_fn(Arithmetic) -> Real,
    failure: Failure,
    size: usize,
) -> bool {
    ||| batch_refused_3d(failure, size)
    ||| refused_on_way(
        turtle,
        spatial_labels(),
        spatial_visit(config, ev),
        spatial_refuses(config, ev),
        failure,
    )
    ||| exists|polygons: usize|
        1 <= polygons <= polygons_in(spatial_trace(turtle, config, ev).events).len() && failure
            == #[trigger] exhausted("turtle_3d polygon batch"@, polygons)
}

/// Room that a whole traversal asks for was refused.
pub open spec fn room_refused_3d(
    generation: Generation,
    config: Turtle2dConfig,
    ev: spec_fn(Arithmetic) -> Real,
    failure: Failure,
    size: usize,
) -> bool {
    ||| failure == exhausted("turtle_3d traversal stack"@, 1)
    ||| refused_3d(spatial_start(generation, config, ev), config, ev, failure, size)
}

fn new_line_batch(size: usize) -> (r: Result<Vec<StyledLine3d>, VisualizeError>)
    ensures
        match r {
            Ok(lines) => lines@.len() == 0,
            Err(error) => error@ == exhausted("turtle_3d line batch"@, size),
        },
{
    let mut lines: Vec<StyledLine3d> = Vec::new();
    if reserve_exact(&mut lines, size) {
        Ok(lines)
    } else {
        Err(resource_error("turtle_3d line batch", size))
    }
}

fn new_primitive_order_batch(size: usize) -> (r: Result<
    Vec<Turtle3dPrimitiveKind>,
    VisualizeError,
>)
    ensures
        match r {
            Ok(order) => order@.len() == 0,
            Err(error) => error@ == exhausted("turtle_3d primitive-order batch"@, size),
        },
{
    let mut primitive_order: Vec<Turtle3dPrimitiveKind> = Vec::new();
    if reserve_exact(&mut primitive_order, size) {
        Ok(primitive_order)
    } else {
        Err(resource_error("turtle_3d primitive-order batch", size))
    }
}

impl Turtle3dBatch {
    /// An empty batch with room for `size` items.
    fn with_room(
        size: usize,
        overall_bounds: Option<Bounds3d>,
        progress: Turtle3dProgress,
    ) -> (r: Result<Turtle3dBatch, VisualizeError>)
        ensures
            match r {
                Ok(batch) => batch_holds_3d(batch, Seq::empty(), overall_bounds, progress),
                Err(error) => batch_refused_3d(error@, size),
            },
    {
        let lines: Vec<StyledLine3d> = match new_line_batch(size) {
            Ok(lines) => lines,
            Err(error) => {
                return Err(error);
            },
        };
        let primitive_order: Vec<Turtle3dPrimitiveKind> = match new_primitive_order_batch(size) {
            Ok(order) => order,
            Err(error) => {
                return Err(error);
            },
        };
        let polygons: Vec<Polygon3d> = Vec::new();
        let ghost none = Seq::<Event3d>::empty();
        assert(lines@ =~= lines_in(none));
        assert(outlines_3d(polygons@) =~= polygons_in(none));
        assert(primitive_order@ =~= kinds_in(none));
        Ok(
            Turtle3dBatch {
                lines,
                polygons,
                primitive_order,
                batch_bounds: None,
                overall_bounds,
                progress,
            },
        )
    }

    /// Record what a visited module emitted. Room for a polygon may be refused.
    fn record(
        &mut self,
        outcome: VisitOutcome3d,
        Ghost(index): Ghost<int>,
        Ghost(before): Ghost<SpatialState>,
        Ghost(events): Ghost<Seq<Event3d>>,
        Ghost(overall): Ghost<Option<Bounds3d>>,
        Ghost(progress): Ghost<Turtle3dProgress>,
    ) -> (r: Result<(), VisualizeError>)
        requires
            batch_holds_3d(*old(self), events, overall, progress),
        ensures
            match r {
                Ok(()) => batch_holds_3d(
                    *final(self),
                    events.push(Event::Visited { index, before, emission: outcome@ }),
                    overall,
                    progress,
                ),
                Err(error) => {
                    &&& outcome@ is Polygon
                    &&& error@ == exhausted(
                        "turtle_3d polygon batch"@,
                        if polygons_in(events).len() < usize::MAX {
                            (polygons_in(events).len() + 1) as usize
                        } else {
                            usize::MAX
                        },
                    )
                },
            },
    {
        let ghost next = events.push(Event::Visited { index, before, emission: outcome@ });
        assert(next.drop_last() =~= events);
        match outcome {
            VisitOutcome3d::Line(line) => {
                include_bounds_3d(&mut self.batch_bounds, line.line);
                include_bounds_3d(&mut self.overall_bounds, line.line);
                self.lines.push(line);
                self.primitive_order.push(Turtle3dPrimitiveKind::Line);
            },
            VisitOutcome3d::Polygon(polygon) => {
                include_points_3d(&mut self.batch_bounds, &polygon.vertices);
                include_points_3d(&mut self.overall_bounds, &polygon.vertices);
                let ghost old_polygons = self.polygons@;
                if self.polygons.try_reserve(1).is_err() {
                    let requested: usize = self.polygons.len().saturating_add(1);
                    assert(outlines_3d(old_polygons).len() == old_polygons.len());
                    return Err(resource_error("turtle_3d polygon batch", requested));
                }
                self.polygons.push(polygon);
                self.primitive_order.push(Turtle3dPrimitiveKind::Polygon);
                assert(outlines_3d(self.polygons@) =~= outlines_3d(old_polygons).push(
                    outline_3d(polygon),
                ));
            },
            _ => {},
        }
        Ok(())
    }
}

/// A spatial turtle on its way through a generation.
pub struct Turtle3dTraversal<'a> {
    pub walk: Walk<'a, SpatialState>,
    pub polygon_stack: Vec<Polygon3d>,
    pub overall_bounds: Option<Bounds3d>,
    pub widths: Turtle3dWidthReferenceEstimator,
    pub config: &'a Turtle2dConfig,
    pub batch_size: usize,
}

impl<'a> Turtle3dTraversal<'a> {
    pub open spec fn turtle(self) -> Turtle<SpatialState, Point3d> {
        Turtle { place: self.walk.place(), outlines: outlines_3d(self.polygon_stack@) }
    }

    pub open spec fn valid(self) -> bool {
        self.walk.valid() && self.batch_size > 0
    }

    /// What is still to come.
    pub open spec fn future(self, ev: spec_fn(Arithmetic) -> Real) -> Trace<
        SpatialState,
        StyledLine3d,
        Point3d,
    > {
        spatial_trace(self.turtle(), *self.config, ev)
    }

    /// Begin a traversal. Room for it may be refused.
    pub fn begin<C: Fn(Arithmetic) -> Real>(
        generation: &'a Generation,
        config: &'a Turtle2dConfig,
        batch_size: usize,
        calc: &C,
    ) -> (r: Result<Turtle3dTraversal<'a>, VisualizeError>)
        requires
            calculates(*calc),
            batch_size > 0,
        ensures
            match r {
                Ok(traversal) => {
                    &&& traversal.valid()
                    &&& traversal.turtle() == spatial_start(
                        *generation,
                        *config,
                        answers(*calc),
                    )
                    &&& traversal.overall_bounds is None
                    &&& traversal.widths == Turtle3dWidthReferenceEstimator::fresh()
                    &&& traversal.config == config
                    &&& traversal.batch_size == batch_size
                },
                Err(error) => error@ == exhausted("turtle_3d traversal stack"@, 1),
            },
    {
        match Walk::begin(generation.items(), SpatialState::new(config, calc), labels()) {
            Err(error) => Err(error),
            Ok(walk) => {
                let polygon_stack: Vec<Polygon3d> = Vec::new();
                assert(outlines_3d(polygon_stack@) =~= Seq::empty());
                Ok(
                    Turtle3dTraversal {
                        walk,
                        polygon_stack,
                        overall_bounds: None,
                        widths: <Turtle3dWidthReferenceEstimator as Default>::default(),
                        config,
                        batch_size,
                    },
                )
            },
        }
    }

    /// Process items until a batch is full or the generation ends. `None` when
    /// there was nothing left to process.
    ///
    /// The cancellation hook is asked before every item and before a batch is
    /// given out. The first time it says yes ends the work, and the batch at
    /// hand is dropped. Room may be refused, but not once nothing is left to
    /// process. The sink is handed nothing.
    pub fn next_batch<
        C: Fn(Arithmetic) -> Real,
        F: Fn() -> bool,
        E: Fn(Turtle3dBatch) -> Result<(), VisualizeError>,
    >(&mut self, calc: &C, outlet: &mut Outlet<Turtle3dBatch, F, E>) -> (r: Result<
        Option<Turtle3dBatch>,
        VisualizeError,
    >)
        requires
            old(self).valid(),
            calculates(*calc),
            old(outlet).ready(),
        ensures
            final(outlet).ready(),
            final(outlet).follows(*old(outlet)),
            questions(final(outlet).since(*old(outlet))),
            old(self).walk.frames@.len() == 0 ==> r == Ok::<
                Option<Turtle3dBatch>,
                VisualizeError,
            >(None) && final(outlet).since(*old(outlet)).len() == 0,
            final(self).valid(),
            final(self).config == old(self).config,
            final(self).batch_size == old(self).batch_size,
            ({
                let ahead = old(self).future(answers(*calc));
                let behind = final(self).future(answers(*calc));
                let size = old(self).batch_size as int;
                let log = final(outlet).since(*old(outlet));
                match r {
                    Ok(Some(batch)) => {
                        let count = if ahead.events.len() < size {
                            ahead.events.len() as int
                        } else {
                            size
                        };
                        &&& quiet(log)
                        &&& log.len() > count
                        &&& final(self).turtle() == after_items(
                            old(self).turtle(),
                            size as nat,
                            spatial_labels(),
                            spatial_visit(*old(self).config, answers(*calc)),
                        )
                        &&& count > 0
                        &&& batch_holds_3d(
                            batch,
                            ahead.events.subrange(0, count),
                            old(self).overall_bounds,
                            spatial_progress(final(self).walk.progress),
                        )
                        &&& final(self).widths == widths_after(
                            old(self).widths,
                            ahead.events.subrange(0, count),
                            answers(*calc),
                        )
                        &&& behind.events == ahead.events.subrange(
                            count,
                            ahead.events.len() as int,
                        )
                        &&& behind.end == ahead.end
                        &&& final(self).overall_bounds == batch.overall_bounds
                        &&& count < size ==> ahead.end == Ok::<_, Failure>(final(self).turtle())
                            && final(self).walk.frames@.len() == 0
                    },
                    Ok(None) => {
                        &&& quiet(log)
                        &&& ahead.events.len() == 0
                        &&& ahead.end == Ok::<_, Failure>(final(self).turtle())
                        &&& final(self).walk.frames@.len() == 0
                        &&& final(self).overall_bounds == old(self).overall_bounds
                        &&& final(self).widths == old(self).widths
                    },
                    Err(error) => {
                        ||| called_off(log, old(outlet).sink()) && error@ == Failure::Cancelled
                        ||| quiet(log) && refused_3d(
                            old(self).turtle(),
                            *old(self).config,
                            answers(*calc),
                            error@,
                            old(self).batch_size,
                        )
                        ||| quiet(log) && ahead.events.len() < size && ahead.end == Err::<
                            Turtle<SpatialState, Point3d>,
                            _,
                        >(error@)
                    },
                }
            }),
    {
        let ghost ev = answers(*calc);
        let ghost start = self.future(ev);
        let ghost overall = self.overall_bounds;
        let ghost mut done: Seq<Event3d> = Seq::empty();
        let ghost entry = *outlet;
        let ghost first = self.turtle();
        let ghost visit = spatial_visit(*self.config, ev);
        let ghost refuses = spatial_refuses(*self.config, ev);
        proof {
            reveal(after_items);
            lemma_listening_starts(entry);
            lemma_listened(entry, *outlet);
        }
        if self.walk.frames.len() == 0 {
            return Ok(None);
        }
        let mut batch: Turtle3dBatch = match Turtle3dBatch::with_room(
            self.batch_size,
            self.overall_bounds,
            report_progress(self.walk.progress),
        ) {
            Ok(batch) => batch,
            Err(error) => {
                return Err(error);
            },
        };
        let ghost mut written: Turtle3dProgress = spatial_progress(self.walk.progress);
        let mut batch_items: usize = 0;
        assert(done + start.events =~= start.events);
        while self.walk.frames.len() > 0 && batch_items < self.batch_size
            invariant
                self.valid(),
                self.config == old(self).config,
                self.batch_size == old(self).batch_size,
                self.overall_bounds == overall,
                calculates(*calc),
                old(self).walk.frames@.len() > 0,
                outlet.listening(entry),
                outlet.heard(entry) >= batch_items,
                entry == *old(outlet),
                ev == answers(*calc),
                visit == spatial_visit(*self.config, ev),
                refuses == spatial_refuses(*self.config, ev),
                first == old(self).turtle(),
                forall|failure: Failure| #[trigger]
                    refused_on_way(
                        self.turtle(),
                        spatial_labels(),
                        visit,
                        refuses,
                        failure,
                    ) ==> refused_on_way(first, spatial_labels(), visit, refuses, failure),
                after_items(first, self.batch_size as nat, spatial_labels(), visit) == after_items(
                    self.turtle(),
                    (self.batch_size - batch_items) as nat,
                    spatial_labels(),
                    visit,
                ),
                start == old(self).future(ev),
                batch_items == done.len(),
                batch_items <= self.batch_size,
                start.events == done + self.future(ev).events,
                start.end == self.future(ev).end,
                batch_holds_3d(batch, done, overall, written),
                self.widths == widths_after(old(self).widths, done, ev),
            decreases levels_work(self.walk.place().levels),
        {
            let cancelled: bool = outlet.ask(Ghost(entry));
            proof {
                lemma_listened(entry, *outlet);
            }
            if cancelled {
                return Err(VisualizeError::Cancelled);
            }
            let ghost turtle = self.turtle();
            assert(turtle_valid(turtle)) by {
                assert forall|i: int| 0 <= i < turtle.place.levels.len() implies level_valid(
                    #[trigger] turtle.place.levels[i],
                ) by {
                    assert(turtle.place.levels[i] == self.walk.frames@[i]@);
                }
            }
            proof {
                reveal(after_items);
                lemma_refused_here(turtle, spatial_labels(), visit, refuses);
                if moved(turtle, spatial_labels(), visit) is Ok {
                    crate::walk::lemma_move_shrinks(turtle, spatial_labels(), visit);
                }
            }
            match self.walk.step(labels()) {
                Err(error) => {
                    proof {
                        if moved(turtle, spatial_labels(), visit) is Ok || stepped(
                            turtle.place,
                            spatial_labels(),
                        ) is Ok {
                            assert(step_refused(turtle, spatial_labels(), refuses, error@));
                        }
                    }
                    assert(done + Seq::<Event3d>::empty() =~= done);
                    return Err(error);
                },
                Ok(WalkStep::End) => {
                    assert(moved(turtle, spatial_labels(), visit) == Ok::<_, Failure>(
                        (self.turtle(), None::<Event3d>),
                    ));
                },
                Ok(WalkStep::Branch) => {
                    let ghost event: Event3d = Event::Entered;
                    assert(moved(turtle, spatial_labels(), visit) == Ok::<_, Failure>(
                        (self.turtle(), Some(event)),
                    ));
                    proof {
                        lemma_quiet_event(batch, done, event, overall, written);
                        assert(done.push(event).drop_last() =~= done);
                        let rest = self.future(ev).events;
                        assert(done + (seq![event] + rest) =~= done.push(event) + rest);
                        done = done.push(event);
                    }
                    batch_items = batch_items + 1;
                },
                Ok(WalkStep::Module(module, index)) => {
                    let ghost before = self.walk.state;
                    let ghost place = self.walk.place();
                    let mut state: SpatialState = self.walk.state;
                    let outcome: VisitOutcome3d = match visit_module_3d(
                        module,
                        self.config,
                        &mut state,
                        &mut self.polygon_stack,
                        calc,
                    ) {
                        Ok(outcome) => outcome,
                        Err(error) => {
                            proof {
                                if visit_refused_3d(
                                    *module,
                                    *self.config,
                                    before,
                                    turtle.outlines,
                                    ev,
                                    error@,
                                ) {
                                    assert(step_refused(
                                        turtle,
                                        spatial_labels(),
                                        refuses,
                                        error@,
                                    ));
                                }
                            }
                            assert(done + Seq::<Event3d>::empty() =~= done);
                            return Err(error);
                        },
                    };
                    self.walk.state = state;
                    match &outcome {
                        VisitOutcome3d::Line(line) => {
                            self.widths.observe_line(line, calc);
                            match checked_increment(
                                self.walk.progress.lines_emitted,
                                "turtle_3d emitted-line counter",
                            ) {
                                Ok(count) => {
                                    self.walk.progress.lines_emitted = count;
                                },
                                Err(error) => {
                                    assert(done + Seq::<Event3d>::empty() =~= done);
                                    return Err(error);
                                },
                            }
                        },
                        VisitOutcome3d::Polygon(_) => {
                            match checked_increment(
                                self.walk.progress.polygons_emitted,
                                "turtle_3d emitted-polygon counter",
                            ) {
                                Ok(count) => {
                                    self.walk.progress.polygons_emitted = count;
                                },
                                Err(error) => {
                                    assert(done + Seq::<Event3d>::empty() =~= done);
                                    return Err(error);
                                },
                            }
                        },
                        VisitOutcome3d::Cut => {
                            self.walk.cut();
                        },
                        VisitOutcome3d::Nothing => {},
                    }
                    let ghost event: Event3d = Event::Visited {
                        index: index as int,
                        before,
                        emission: outcome@,
                    };
                    assert(moved(turtle, spatial_labels(), visit) == Ok::<_, Failure>(
                        (self.turtle(), Some(event)),
                    ));
                    match batch.record(
                        outcome,
                        Ghost(index as int),
                        Ghost(before),
                        Ghost(done),
                        Ghost(overall),
                        Ghost(written),
                    ) {
                        Ok(()) => {},
                        Err(error) => {
                            proof {
                                let rest = self.future(ev).events;
                                let more = done.push(event);
                                assert(more.drop_last() =~= done);
                                assert(done + (seq![event] + rest) =~= more + rest);
                                lemma_lines_split(more, rest);
                                assert(outlines_3d(batch.polygons@).len()
                                    == batch.polygons@.len());
                            }
                            return Err(error);
                        },
                    }
                    proof {
                        assert(done.push(event).drop_last() =~= done);
                        let rest = self.future(ev).events;
                        assert(done + (seq![event] + rest) =~= done.push(event) + rest);
                        done = done.push(event);
                    }
                    batch_items = batch_items + 1;
                },
            }
        }
        let ghost rest = self.future(ev).events;
        proof {
            if self.walk.frames@.len() == 0 {
                assert(self.turtle().place.levels.len() == 0);
                assert(rest =~= Seq::empty());
                assert(self.future(ev).end == Ok::<_, Failure>(self.turtle()));
                assert(start.events =~= done);
            }
            assert(start.events.subrange(0, done.len() as int) =~= done);
            assert(start.events.subrange(done.len() as int, start.events.len() as int) =~= rest);
        }
        proof {
            lemma_listened(entry, *outlet);
        }
        if batch_items == 0 {
            return Ok(None);
        }
        let cancelled: bool = outlet.ask(Ghost(entry));
        proof {
            lemma_listened(entry, *outlet);
        }
        if cancelled {
            return Err(VisualizeError::Cancelled);
        }
        batch.progress = report_progress(self.walk.progress);
        self.overall_bounds = batch.overall_bounds;
        Ok(Some(batch))
    }
}

/// An event without geometry leaves a batch as it is.
proof fn lemma_quiet_event(
    batch: Turtle3dBatch,
    events: Seq<Event3d>,
    event: Event3d,
    overall: Option<Bounds3d>,
    progress: Turtle3dProgress,
)
    requires
        batch_holds_3d(batch, events, overall, progress),
        event is Entered,
    ensures
        batch_holds_3d(batch, events.push(event), overall, progress),
{
    assert(events.push(event).drop_last() =~= events);
}

/// Input for incremental turtle traversal.
pub struct Turtle3dStreamRequest<'a> {
    pub generation: &'a Generation,
    pub config: Turtle3dConfig,
    /// Maximum number of generation items consumed between sink calls (and,
    /// consequently, the maximum number of lines in one batch). This is a
    /// batching preference, not a limit on the completed visualization.
    pub batch_size: usize,
}

/// Why a request is turned down before anything is asked of the caller.
pub open spec fn request_fault_3d(config: Turtle2dConfig, batch_size: usize) -> Option<Failure> {
    if !config_usable(config) {
        Some(
            Failure::InvalidConfiguration(
                "turtle_3d distances and angles must be finite, and widths must be finite and non-negative"@,
            ),
        )
    } else if batch_size == 0 {
        Some(
            Failure::InvalidConfiguration("turtle_3d batch size must be greater than zero"@),
        )
    } else {
        None
    }
}

/// Whether a request can be served. Only where it can is the cancellation hook
/// asked, once.
pub fn validate_request<
    F: Fn() -> bool,
    E: Fn(Turtle3dBatch) -> Result<(), VisualizeError>,
>(
    config: &Turtle2dConfig,
    batch_size: usize,
    outlet: &mut Outlet<Turtle3dBatch, F, E>,
) -> (r: Result<(), VisualizeError>)
    requires
        old(outlet).ready(),
    ensures
        final(outlet).ready(),
        final(outlet).follows(*old(outlet)),
        ({
            let log = final(outlet).since(*old(outlet));
            match request_fault_3d(*config, batch_size) {
                Some(fault) => log.len() == 0 && (r matches Err(error) && error@ == fault),
                None => match r {
                    Ok(()) => log == seq![Exchange::<Turtle3dBatch>::Asked(false)],
                    Err(error) => log == seq![Exchange::<Turtle3dBatch>::Asked(true)] && error@
                        == Failure::Cancelled,
                },
            }
        }),
{
    let ghost entry = *outlet;
    proof {
        lemma_nothing_since(entry);
    }
    if !config_is_usable(config) {
        return Err(
            invalid(
                "turtle_3d distances and angles must be finite, and widths must be finite and non-negative",
            ),
        );
    }
    if batch_size == 0 {
        return Err(invalid("turtle_3d batch size must be greater than zero"));
    }
    let cancelled: bool = outlet.cancelled();
    proof {
        lemma_one_more(entry, entry, *outlet, Exchange::Asked(cancelled));
        assert(outlet.since(entry) =~= seq![Exchange::Asked(cancelled)]);
    }
    if cancelled {
        return Err(VisualizeError::Cancelled);
    }
    Ok(())
}

/// Which batch a traversal hands over at a place.
pub open spec fn right_batch_3d(
    generation: Generation,
    config: Turtle2dConfig,
    size: int,
    ev: spec_fn(Arithmetic) -> Real,
) -> spec_fn(int, Turtle3dBatch) -> bool {
    let start = spatial_start(generation, config, ev);
    let events = spatial_trace(start, config, ev).events;
    |i: int, batch: Turtle3dBatch|
        batch_holds_3d(
            batch,
            batch_of(events, size, i),
            bounds_after_3d(None, events.subrange(0, i * size)),
            spatial_progress(
                batch_progress(start, size, i, spatial_labels(), spatial_visit(config, ev)),
            ),
        )
}

/// The message about a polygon that was begun and not ended.
pub open spec fn unterminated_3d() -> Failure {
    Failure::InvalidConfiguration("turtle_3d ended with an unterminated polygon"@)
}

/// The summary of a finished traversal, or why it has none.
pub open spec fn summary_3d(
    traced: Trace<SpatialState, StyledLine3d, Point3d>,
    ev: spec_fn(Arithmetic) -> Real,
) -> Result<Turtle3dStreamSummary, Failure> {
    match traced.end {
        Err(failure) => Err(failure),
        Ok(turtle) => if turtle.outlines.len() > 0 {
            Err(unterminated_3d())
        } else {
            Ok(
                Turtle3dStreamSummary {
                    bounds: bounds_after_3d(None, traced.events),
                    progress: spatial_progress(turtle.place.progress),
                    width_reference: widths_after(
                        Turtle3dWidthReferenceEstimator::fresh(),
                        traced.events,
                        ev,
                    ).reference(),
                    backend_used: VisualizerBackend::Cpu,
                },
            )
        },
    }
}

/// What a spatial stream asks, hands over and returns.
///
/// The sink gets the batches of the traversal in order, each once, and the
/// hook is asked before every item and directly before every batch. The first
/// time the hook says yes, or the sink refuses a batch, is the end.
pub open spec fn streamed_3d<
    F: Fn() -> bool,
    E: Fn(Turtle3dBatch) -> Result<(), VisualizeError>,
>(
    generation: Generation,
    config: Turtle2dConfig,
    batch_size: usize,
    ev: spec_fn(Arithmetic) -> Real,
    before: Outlet<Turtle3dBatch, F, E>,
    after: Outlet<Turtle3dBatch, F, E>,
    r: Result<Turtle3dStreamSummary, VisualizeError>,
) -> bool {
    let traced = spatial_trace(spatial_start(generation, config, ev), config, ev);
    let size = batch_size as int;
    let total = traced.events.len() as int;
    let log = after.since(before);
    let sink = before.sink();
    let sent = handed(log).len() as int;
    &&& after.follows(before)
    &&& log.len() > 0
    &&& sent <= batch_count(total, size)
    &&& delivered(
        log,
        true,
        batch_pace(total, size),
        right_batch_3d(generation, config, size, ev),
        sent,
    )
    &&& match r {
        Ok(summary) => {
            &&& undisturbed(log, sink)
            &&& sent == batch_count(total, size)
            &&& asked(log) > total + sent
            &&& summary_3d(traced, ev) == Ok::<_, Failure>(summary)
        },
        Err(error) => {
            ||| stopped_by_caller(log, sink, error)
            ||| undisturbed(log, sink) && room_refused_3d(
                generation,
                config,
                ev,
                error@,
                batch_size,
            )
            ||| undisturbed(log, sink) && summary_3d(traced, ev) == Err::<Turtle3dStreamSummary, _>(
                error@,
            ) && sent == if traced.end is Ok {
                batch_count(total, size)
            } else {
                total / size
            }
        },
    }
}

proof fn lemma_bounds_join(
    bounds: Option<Bounds3d>,
    a: Seq<Event3d>,
    b: Seq<Event3d>,
)
    ensures
        bounds_after_3d(bounds, a + b) == bounds_after_3d(bounds_after_3d(bounds, a), b),
    decreases b.len(),
{
    if b.len() == 0 {
        assert(a + b =~= a);
    } else {
        assert((a + b).drop_last() =~= a + b.drop_last());
        lemma_bounds_join(bounds, a, b.drop_last());
    }
}

proof fn lemma_widths_join(
    widths: Turtle3dWidthReferenceEstimator,
    a: Seq<Event3d>,
    b: Seq<Event3d>,
    ev: spec_fn(Arithmetic) -> Real,
)
    ensures
        widths_after(widths, a + b, ev) == widths_after(widths_after(widths, a, ev), b, ev),
    decreases b.len(),
{
    if b.len() == 0 {
        assert(a + b =~= a);
    } else {
        assert((a + b).drop_last() =~= a + b.drop_last());
        lemma_widths_join(widths, a, b.drop_last(), ev);
    }
}

/// How many lines an order names.
pub open spec fn lines_named(kinds: Seq<Turtle3dPrimitiveKind>) -> nat
    decreases kinds.len(),
{
    if kinds.len() == 0 {
        0
    } else {
        lines_named(kinds.drop_last()) + if kinds.last() == Turtle3dPrimitiveKind::Line {
            1nat
        } else {
            0nat
        }
    }
}

/// The order of some events names each of their lines and each of their
/// polygons once, and there are no more of them than events.
pub proof fn primitive_order_is_complete(events: Seq<Event3d>)
    ensures
        kinds_in(events).len() == lines_in(events).len() + polygons_in(events).len(),
        lines_named(kinds_in(events)) == lines_in(events).len(),
        kinds_in(events).len() <= events.len(),
    decreases events.len(),
{
    if events.len() > 0 {
        primitive_order_is_complete(events.drop_last());
        let before = kinds_in(events.drop_last());
        assert(before.push(Turtle3dPrimitiveKind::Line).drop_last() =~= before);
        assert(before.push(Turtle3dPrimitiveKind::Polygon).drop_last() =~= before);
    }
}

/// Every batch that a stream hands over names each of its lines and each of
/// its polygons once in its order, and has no more of them than it may have.
pub proof fn handed_batches_are_complete(
    generation: Generation,
    config: Turtle2dConfig,
    size: int,
    ev: spec_fn(Arithmetic) -> Real,
    i: int,
    batch: Turtle3dBatch,
)
    requires
        size > 0,
        right_batch_3d(generation, config, size, ev)(i, batch),
        0 <= i,
        i * size <= spatial_trace(
            spatial_start(generation, config, ev),
            config,
            ev,
        ).events.len(),
    ensures
        batch.primitive_order@.len() == batch.lines@.len() + batch.polygons@.len(),
        lines_named(batch.primitive_order@) == batch.lines@.len(),
        batch.primitive_order@.len() <= size,
{
    let events = spatial_trace(spatial_start(generation, config, ev), config, ev).events;
    primitive_order_is_complete(batch_of(events, size, i));
    assert(i * size >= 0) by (nonlinear_arith)
        requires
            i >= 0,
            size > 0,
    ;
    assert(outlines_3d(batch.polygons@).len() == batch.polygons@.len());
}

/// A stream whose hook only ever says yes is cancelled: the hook is asked once,
/// and the sink is handed nothing.
pub proof fn a_constant_yes_cancels_3d<
    F: Fn() -> bool,
    E: Fn(Turtle3dBatch) -> Result<(), VisualizeError>,
>(
    generation: Generation,
    config: Turtle2dConfig,
    batch_size: usize,
    ev: spec_fn(Arithmetic) -> Real,
    before: Outlet<Turtle3dBatch, F, E>,
    after: Outlet<Turtle3dBatch, F, E>,
    r: Result<Turtle3dStreamSummary, VisualizeError>,
)
    requires
        streamed_3d(generation, config, batch_size, ev, before, after, r),
        after.ready(),
        forall|answer: bool| #[trigger] call_ensures(before.hook(), (), answer) ==> answer,
    ensures
        r matches Err(error) && error@ == Failure::Cancelled,
        after.since(before).len() == 1,
        handed(after.since(before)).len() == 0,
{
    let log = after.since(before);
    if log[0] is Handed {
        assert(handed_at(log, 0));
    }
    if r is Err && turned_away(log, before.sink(), r->Err_0) {
        assert(log.last() is Handed);
    }
    a_constant_yes_is_all_that_is_heard(before, after);
}

/// The lines of some batches, one batch after the other.
pub open spec fn lines_handed_3d(batches: Seq<Turtle3dBatch>) -> Seq<StyledLine3d>
    decreases batches.len(),
{
    if batches.len() == 0 {
        Seq::empty()
    } else {
        lines_handed_3d(batches.drop_last()) + batches.last().lines@
    }
}

/// The polygons of some batches, one batch after the other.
pub open spec fn polygons_handed_3d(batches: Seq<Turtle3dBatch>) -> Seq<Outline<Point3d>>
    decreases batches.len(),
{
    if batches.len() == 0 {
        Seq::empty()
    } else {
        polygons_handed_3d(batches.drop_last()) + outlines_3d(batches.last().polygons@)
    }
}

proof fn lemma_handed_so_far_3d(
    batches: Seq<Turtle3dBatch>,
    generation: Generation,
    config: Turtle2dConfig,
    size: int,
    ev: spec_fn(Arithmetic) -> Real,
)
    requires
        forall|i: int|
            0 <= i < batches.len() ==> right_batch_3d(generation, config, size, ev)(
                i,
                #[trigger] batches[i],
            ),
    ensures
        ({
            let events = spatial_trace(spatial_start(generation, config, ev), config, ev).events;
            &&& lines_handed_3d(batches) == batched_lines(events, size, batches.len() as int)
            &&& polygons_handed_3d(batches) == batched_polygons(
                events,
                size,
                batches.len() as int,
            )
        }),
    decreases batches.len(),
{
    if batches.len() > 0 {
        let init = batches.drop_last();
        let right = right_batch_3d(generation, config, size, ev);
        assert forall|i: int| 0 <= i < init.len() implies right(i, #[trigger] init[i]) by {
            assert(init[i] == batches[i]);
        }
        lemma_handed_so_far_3d(init, generation, config, size, ev);
        assert(right(batches.len() - 1, batches[batches.len() - 1]));
    }
}

/// The orders of some batches, one batch after the other.
pub open spec fn kinds_handed(batches: Seq<Turtle3dBatch>) -> Seq<Turtle3dPrimitiveKind>
    decreases batches.len(),
{
    if batches.len() == 0 {
        Seq::empty()
    } else {
        kinds_handed(batches.drop_last()) + batches.last().primitive_order@
    }
}

proof fn lemma_kinds_split(a: Seq<Event3d>, b: Seq<Event3d>)
    ensures
        kinds_in(a + b) == kinds_in(a) + kinds_in(b),
    decreases b.len(),
{
    if b.len() == 0 {
        assert(a + b =~= a);
        assert(kinds_in(a) + kinds_in(b) =~= kinds_in(a));
    } else {
        assert((a + b).drop_last() =~= a + b.drop_last());
        lemma_kinds_split(a, b.drop_last());
        assert((a + b).last() == b.last());
        assert(kinds_in(a + b) =~= kinds_in(a) + kinds_in(b));
    }
}

proof fn lemma_kinds_so_far(
    batches: Seq<Turtle3dBatch>,
    generation: Generation,
    config: Turtle2dConfig,
    size: int,
    ev: spec_fn(Arithmetic) -> Real,
)
    requires
        size > 0,
        batches.len() <= batch_count(
            spatial_trace(
                spatial_start(generation, config, ev),
                config,
                ev,
            ).events.len() as int,
            size,
        ),
        forall|i: int|
            0 <= i < batches.len() ==> right_batch_3d(generation, config, size, ev)(
                i,
                #[trigger] batches[i],
            ),
    ensures
        ({
            let events = spatial_trace(spatial_start(generation, config, ev), config, ev).events;
            let end = if batches.len() * size <= events.len() {
                batches.len() * size
            } else {
                events.len() as int
            };
            &&& 0 <= end <= events.len()
            &&& kinds_handed(batches) == kinds_in(events.subrange(0, end))
        }),
    decreases batches.len(),
{
    let events = spatial_trace(spatial_start(generation, config, ev), config, ev).events;
    let total = events.len() as int;
    let n = batches.len() as int;
    if n == 0 {
        assert(n * size == 0) by (nonlinear_arith)
            requires
                n == 0,
        ;
        assert(events.subrange(0, 0) =~= Seq::empty());
    } else {
        let init = batches.drop_last();
        let right = right_batch_3d(generation, config, size, ev);
        assert forall|i: int| 0 <= i < init.len() implies right(i, #[trigger] init[i]) by {
            assert(init[i] == batches[i]);
        }
        lemma_kinds_so_far(init, generation, config, size, ev);
        assert(right(n - 1, batches[n - 1]));
        let start = (n - 1) * size;
        lemma_batch_starts(total, size, n);
        let end = if start + size <= total {
            start + size
        } else {
            total
        };
        let head = events.subrange(0, start);
        let piece = batch_of(events, size, n - 1);
        assert(head + piece =~= events.subrange(0, end));
        lemma_kinds_split(head, piece);
        assert(kinds_handed(init) == kinds_in(head));
        assert(batches.last().primitive_order@ == kinds_in(piece));
        assert(end == if n * size <= total {
            n * size
        } else {
            total
        });
    }
}

/// A stream that succeeds has handed over every line and every polygon of the
/// traversal, in order and each once, and the order in which they stand among
/// each other, whatever the size of its batches.
pub proof fn a_finished_stream_hands_over_everything_3d<
    F: Fn() -> bool,
    E: Fn(Turtle3dBatch) -> Result<(), VisualizeError>,
>(
    generation: Generation,
    config: Turtle2dConfig,
    batch_size: usize,
    ev: spec_fn(Arithmetic) -> Real,
    before: Outlet<Turtle3dBatch, F, E>,
    after: Outlet<Turtle3dBatch, F, E>,
    r: Result<Turtle3dStreamSummary, VisualizeError>,
)
    requires
        batch_size > 0,
        streamed_3d(generation, config, batch_size, ev, before, after, r),
        r is Ok,
    ensures
        ({
            let events = spatial_trace(spatial_start(generation, config, ev), config, ev).events;
            let batches = handed(after.since(before));
            &&& lines_handed_3d(batches) == lines_in(events)
            &&& polygons_handed_3d(batches) == polygons_in(events)
            &&& kinds_handed(batches) == kinds_in(events)
        }),
{
    let events = spatial_trace(spatial_start(generation, config, ev), config, ev).events;
    let batches = handed(after.since(before));
    lemma_handed_so_far_3d(batches, generation, config, batch_size as int, ev);
    lemma_all_batches(events, batch_size as int);
    lemma_kinds_so_far(batches, generation, config, batch_size as int, ev);
    lemma_last_batch_ends(events.len() as int, batch_size as int);
    assert(events.subrange(0, events.len() as int) =~= events);
}

/// What is refused after some items is refused to the whole traversal.
pub(crate) proof fn lemma_refused_before_3d(
    generation: Generation,
    config: Turtle2dConfig,
    ev: spec_fn(Arithmetic) -> Real,
    failure: Failure,
    size: usize,
    items: nat,
    done: Seq<Event3d>,
)
    requires
        turtle_valid(spatial_start(generation, config, ev)),
        ({
            let start = spatial_start(generation, config, ev);
            let later = after_items(start, items, spatial_labels(), spatial_visit(config, ev));
            done + spatial_trace(later, config, ev).events == spatial_trace(
                start,
                config,
                ev,
            ).events
        }),
    ensures
        refused_3d(
            after_items(
                spatial_start(generation, config, ev),
                items,
                spatial_labels(),
                spatial_visit(config, ev),
            ),
            config,
            ev,
            failure,
            size,
        ) ==> room_refused_3d(generation, config, ev, failure, size),
{
    let start = spatial_start(generation, config, ev);
    let visit = spatial_visit(config, ev);
    let later = after_items(start, items, spatial_labels(), visit);
    let refuses = spatial_refuses(config, ev);
    lemma_lines_split(done, spatial_trace(later, config, ev).events);
    if refused_on_way(later, spatial_labels(), visit, refuses, failure) {
        lemma_refused_later(start, items, spatial_labels(), visit, refuses, failure);
    }
}

/// The next batch of a traversal is the right one to hand over.
proof fn lemma_next_batch_3d(
    generation: Generation,
    config: Turtle2dConfig,
    size: int,
    ev: spec_fn(Arithmetic) -> Real,
    sent: int,
    taken: int,
    turtle: Turtle<SpatialState, Point3d>,
    next: Turtle<SpatialState, Point3d>,
    batch: Turtle3dBatch,
)
    requires
        size > 0,
        0 <= sent,
        turtle_valid(spatial_start(generation, config, ev)),
        turtle == after_items(
            spatial_start(generation, config, ev),
            (sent * size) as nat,
            spatial_labels(),
            spatial_visit(config, ev),
        ),
        next == after_items(turtle, size as nat, spatial_labels(), spatial_visit(config, ev)),
        ({
            let events = spatial_trace(spatial_start(generation, config, ev), config, ev).events;
            let total = events.len() as int;
            let ahead = events.subrange(taken, total);
            let count = if ahead.len() < size {
                ahead.len() as int
            } else {
                size
            };
            &&& 0 <= taken <= total
            &&& taken == sent * size || taken == total && sent == batch_count(total, size)
            &&& count > 0
            &&& batch_holds_3d(
                batch,
                ahead.subrange(0, count),
                bounds_after_3d(None, events.subrange(0, taken)),
                spatial_progress(next.place.progress),
            )
        }),
    ensures
        taken == sent * size,
        right_batch_3d(generation, config, size, ev)(sent, batch),
        next == after_items(
            spatial_start(generation, config, ev),
            ((sent + 1) * size) as nat,
            spatial_labels(),
            spatial_visit(config, ev),
        ),
        ({
            let events = spatial_trace(spatial_start(generation, config, ev), config, ev).events;
            let total = events.len() as int;
            let ahead = events.subrange(taken, total);
            let count = if ahead.len() < size {
                ahead.len() as int
            } else {
                size
            };
            let reached = taken + count;
            &&& batch_pace(total, size)((sent + 1) as nat) == reached + sent + 1
            &&& sent < batch_count(total, size)
            &&& reached == (sent + 1) * size || reached == total && sent + 1 == batch_count(
                total,
                size,
            )
            &&& count == size ==> reached == (sent + 1) * size
            &&& ahead.subrange(count, ahead.len() as int) == events.subrange(reached, total)
            &&& batch.overall_bounds == bounds_after_3d(None, events.subrange(0, reached))
            &&& widths_after(
                widths_after(
                    Turtle3dWidthReferenceEstimator::fresh(),
                    events.subrange(0, taken),
                    ev,
                ),
                ahead.subrange(0, count),
                ev,
            ) == widths_after(
                Turtle3dWidthReferenceEstimator::fresh(),
                events.subrange(0, reached),
                ev,
            )
        }),
{
    let start = spatial_start(generation, config, ev);
    let events = spatial_trace(start, config, ev).events;
    let total = events.len() as int;
    let ahead = events.subrange(taken, total);
    let count = if ahead.len() < size {
        ahead.len() as int
    } else {
        size
    };
    let piece = ahead.subrange(0, count);
    assert(taken < total);
    assert(taken == sent * size);
    assert((sent + 1) * size == sent * size + size) by (nonlinear_arith);
    assert(sent * size >= 0) by (nonlinear_arith)
        requires
            sent >= 0,
            size > 0,
    ;
    assert(piece =~= batch_of(events, size, sent));
    assert(events.subrange(0, taken) + piece =~= events.subrange(0, taken + count));
    lemma_bounds_join(None, events.subrange(0, taken), piece);
    lemma_widths_join(
        Turtle3dWidthReferenceEstimator::fresh(),
        events.subrange(0, taken),
        piece,
        ev,
    );
    assert(ahead.subrange(count, ahead.len() as int) =~= events.subrange(taken + count, total));
    lemma_pace_at(taken + count, sent, total, size);
    lemma_items_join(
        start,
        (sent * size) as nat,
        size as nat,
        spatial_labels(),
        spatial_visit(config, ev),
    );
    assert((sent * size) as nat + size as nat == ((sent + 1) * size) as nat);
    if count < size {
        assert(sent + 1 == batch_count(total, size)) by (nonlinear_arith)
            requires
                taken == sent * size,
                total == taken + count,
                0 < count < size,
                batch_count(total, size) == (total + size - 1) / size,
        ;
    }
}

/// Traverse a three-dimensional turtle generation on CPU without first materializing a complete
/// scene.
///
/// Batches retain source order and contain at most `request.batch_size` lines.
/// A batch can contain no lines when a work quantum only moves or changes the
/// turtle; these progress-only batches keep callers informed during such runs.
pub fn stream_turtle_3d<
    'a,
    F: Fn() -> bool,
    E: Fn(Turtle3dBatch) -> Result<(), VisualizeError>,
    C: Fn(Arithmetic) -> Real,
>(
    request: Turtle3dStreamRequest<'a>,
    outlet: &mut Outlet<Turtle3dBatch, F, E>,
    calc: &C,
) -> (r: Result<Turtle3dStreamSummary, VisualizeError>)
    requires
        calculates(*calc),
        old(outlet).ready(),
    ensures
        final(outlet).ready(),
        match request_fault_3d(request.config.turtle, request.batch_size) {
            Some(fault) => {
                &&& r matches Err(error) && error@ == fault
                &&& final(outlet).follows(*old(outlet))
                &&& final(outlet).since(*old(outlet)).len() == 0
            },
            None => streamed_3d(
                *request.generation,
                request.config.turtle,
                request.batch_size,
                answers(*calc),
                *old(outlet),
                *final(outlet),
                r,
            ),
        },
{
    let ghost entry = *outlet;
    match validate_request(&request.config.turtle, request.batch_size, outlet) {
        Ok(()) => {},
        Err(error) => {
            proof {
                lemma_refused_at_once(
                    *request.generation,
                    request.config.turtle,
                    request.batch_size,
                    answers(*calc),
                    entry,
                    *outlet,
                    error,
                );
            }
            return Err(error);
        },
    }
    let ghost asked_once = *outlet;
    let r: Result<Turtle3dStreamSummary, VisualizeError> = stream_cpu_validated(
        request.generation,
        &request.config.turtle,
        request.batch_size,
        outlet,
        calc,
    );
    proof {
        lemma_streamed_after_question(
            *request.generation,
            request.config.turtle,
            request.batch_size,
            answers(*calc),
            entry,
            asked_once,
            *outlet,
            r,
        );
    }
    r
}

/// A stream that is called off with the first question has handed over nothing.
pub(crate) proof fn lemma_refused_at_once<
    F: Fn() -> bool,
    E: Fn(Turtle3dBatch) -> Result<(), VisualizeError>,
>(
    generation: Generation,
    config: Turtle2dConfig,
    batch_size: usize,
    ev: spec_fn(Arithmetic) -> Real,
    before: Outlet<Turtle3dBatch, F, E>,
    after: Outlet<Turtle3dBatch, F, E>,
    error: VisualizeError,
)
    ensures
        after.follows(before) && batch_size > 0 && after.since(before) == seq![
            Exchange::<Turtle3dBatch>::Asked(true),
        ] && error@ == Failure::Cancelled ==> streamed_3d(
            generation,
            config,
            batch_size,
            ev,
            before,
            after,
            Err(error),
        ),
{
    let log = after.since(before);
    if log == seq![Exchange::<Turtle3dBatch>::Asked(true)] {
        assert(questions(log));
        lemma_questions(log, before.sink());
        assert(log.drop_last() =~= Seq::empty());
    }
    let total = spatial_trace(spatial_start(generation, config, ev), config, ev).events.len() as int;
    if batch_size > 0 {
        lemma_batch_count_bounds(total, batch_size as int);
    }
}

/// One question before a stream that was not called off is part of it.
pub(crate) proof fn lemma_streamed_after_question<
    F: Fn() -> bool,
    E: Fn(Turtle3dBatch) -> Result<(), VisualizeError>,
>(
    generation: Generation,
    config: Turtle2dConfig,
    batch_size: usize,
    ev: spec_fn(Arithmetic) -> Real,
    before: Outlet<Turtle3dBatch, F, E>,
    middle: Outlet<Turtle3dBatch, F, E>,
    after: Outlet<Turtle3dBatch, F, E>,
    r: Result<Turtle3dStreamSummary, VisualizeError>,
)
    requires
        middle.follows(before),
        questions(middle.since(before)),
        quiet(middle.since(before)),
        streamed_3d(generation, config, batch_size, ev, middle, after, r),
    ensures
        streamed_3d(generation, config, batch_size, ev, before, after, r),
{
    let a = middle.since(before);
    let b = after.since(middle);
    let traced = spatial_trace(spatial_start(generation, config, ev), config, ev);
    let pace = batch_pace(traced.events.len() as int, batch_size as int);
    lemma_since_joins(before, middle, after);
    lemma_questions(a, before.sink());
    lemma_logs_join(a, b);
    lemma_endings_join(a, b, before.sink());
    lemma_pace_ahead(a, b, pace);
    assert(handed(a) + handed(b) =~= handed(b));
}

/// Traverse a generation whose request has been validated.
pub fn stream_cpu_validated<
    'a,
    F: Fn() -> bool,
    E: Fn(Turtle3dBatch) -> Result<(), VisualizeError>,
    C: Fn(Arithmetic) -> Real,
>(
    generation: &'a Generation,
    config: &'a Turtle2dConfig,
    batch_size: usize,
    outlet: &mut Outlet<Turtle3dBatch, F, E>,
    calc: &C,
) -> (r: Result<Turtle3dStreamSummary, VisualizeError>)
    requires
        calculates(*calc),
        batch_size > 0,
        old(outlet).ready(),
    ensures
        final(outlet).ready(),
        streamed_3d(
            *generation,
            *config,
            batch_size,
            answers(*calc),
            *old(outlet),
            *final(outlet),
            r,
        ),
{
    let ghost entry = *outlet;
    let ghost sink = outlet.sink();
    let ghost ev = answers(*calc);
    let ghost traced = spatial_trace(spatial_start(*generation, *config, ev), *config, ev);
    let ghost events = traced.events;
    let ghost total = events.len() as int;
    let ghost size = batch_size as int;
    let ghost pace = batch_pace(total, size);
    let ghost right = right_batch_3d(*generation, *config, size, ev);
    let ghost first = spatial_start(*generation, *config, ev);
    let ghost visit = spatial_visit(*config, ev);
    proof {
        lemma_batch_count_bounds(total, size);
        lemma_sending_starts(entry, true, pace, right);
        lemma_listening_starts(entry);
    }
    let cancelled: bool = outlet.ask(Ghost(entry));
    proof {
        lemma_listened(entry, *outlet);
        lemma_sending_asks(entry, entry, *outlet, true, pace, right, 0, 0);
    }
    if cancelled {
        return Err(VisualizeError::Cancelled);
    }
    proof {
        lemma_sending_ends(entry, *outlet, true, pace, right, 0, 1);
    }
    let mut traversal: Turtle3dTraversal<'a> = match Turtle3dTraversal::begin(
        generation,
        config,
        batch_size,
        calc,
    ) {
        Ok(traversal) => traversal,
        Err(error) => {
            return Err(error);
        },
    };
    let ghost mut sent: int = 0;
    let ghost mut taken: int = 0;
    proof {
        assert(events.subrange(0, total) =~= events);
        assert(events.subrange(0, 0) =~= Seq::empty());
        reveal(after_items);
    }
    loop
        invariant
            calculates(*calc),
            entry == *old(outlet),
            outlet.ready(),
            sending(entry, *outlet, true, pace, right, sent, taken + sent + 1),
            sent <= batch_count(total, size),
            pace == batch_pace(total, size),
            right == right_batch_3d(*generation, *config, size, ev),
            visit == spatial_visit(*config, ev),
            turtle_valid(first),
            first == spatial_start(*generation, *config, ev),
            traversal.turtle() == after_items(first, (sent * size) as nat, spatial_labels(), visit),
            ev == answers(*calc),
            size == batch_size,
            size > 0,
            total == events.len(),
            events == traced.events,
            traced == spatial_trace(spatial_start(*generation, *config, ev), *config, ev),
            traversal.valid(),
            traversal.config == config,
            traversal.batch_size == batch_size,
            0 <= sent,
            0 <= taken <= total,
            taken == sent * size || taken == total && sent == batch_count(total, size),
            taken != sent * size ==> traversal.walk.frames@.len() == 0,
            traversal.future(ev).events == events.subrange(taken, total),
            traversal.future(ev).end == traced.end,
            traversal.overall_bounds == bounds_after_3d(None, events.subrange(0, taken)),
            traversal.widths == widths_after(
                Turtle3dWidthReferenceEstimator::fresh(),
                events.subrange(0, taken),
                ev,
            ),
        decreases traversal.future(ev).events.len(),
    {
        let ghost ahead = traversal.future(ev).events;
        let ghost middle = *outlet;
        let ghost traversal_before = traversal.turtle();
        let step: Result<Option<Turtle3dBatch>, VisualizeError> = traversal.next_batch(
            calc,
            outlet,
        );
        let ghost more = outlet.since(middle).len() as int;
        proof {
            lemma_sending_asks(entry, middle, *outlet, true, pace, right, sent, taken + sent + 1);
            lemma_sending_ends(entry, middle, true, pace, right, sent, taken + sent + 1);
            if quiet(outlet.since(middle)) {
                lemma_sending_ends(entry, *outlet, true, pace, right, sent, taken + sent + 1 + more);
            }
        }
        match step {
            Err(error) => {
                proof {
                    assert(events.subrange(0, taken) + ahead =~= events);
                    lemma_refused_before_3d(
                        *generation,
                        *config,
                        ev,
                        error@,
                        batch_size,
                        (sent * size) as nat,
                        events.subrange(0, taken),
                    );
                    if ahead.len() < size {
                        lemma_full_batches(taken, sent, total, size);
                    }
                }
                return Err(error);
            },
            Ok(None) => {
                proof {
                    assert(taken == total);
                    assert(sent >= batch_count(total, size)) by (nonlinear_arith)
                        requires
                            taken == total,
                            size > 0,
                            taken == sent * size || sent == batch_count(total, size),
                            batch_count(total, size) == (total + size - 1) / size,
                    ;
                    assert(events.subrange(0, taken) =~= events);
                }
                if traversal.polygon_stack.len() > 0 {
                    return Err(invalid("turtle_3d ended with an unterminated polygon"));
                }
                return Ok(
                    Turtle3dStreamSummary {
                        bounds: traversal.overall_bounds,
                        progress: report_progress(traversal.walk.progress),
                        width_reference: traversal.widths.width_reference(),
                        backend_used: VisualizerBackend::Cpu,
                    },
                );
            },
            Ok(Some(batch)) => {
                let ghost count = if ahead.len() < size { ahead.len() as int } else { size };
                let ghost kept = batch;
                proof {
                    lemma_next_batch_3d(
                        *generation,
                        *config,
                        size,
                        ev,
                        sent,
                        taken,
                        traversal_before,
                        traversal.turtle(),
                        batch,
                    );
                }
                let ghost ready = *outlet;
                let reply: Result<(), VisualizeError> = outlet.hand(batch);
                proof {
                    lemma_sending_hands(
                        entry,
                        ready,
                        *outlet,
                        true,
                        pace,
                        right,
                        sent,
                        taken + sent + 1 + more,
                        kept,
                        reply,
                    );
                }
                match reply {
                    Err(error) => {
                        return Err(error);
                    },
                    Ok(nothing) => {
                        assert(nothing == ());
                        assert(reply == Ok::<(), VisualizeError>(()));
                    },
                }
                proof {
                    lemma_sending_less(
                        entry,
                        *outlet,
                        true,
                        pace,
                        right,
                        sent + 1,
                        taken + sent + 1 + more,
                        taken + count + sent + 2,
                    );
                    sent = sent + 1;
                    taken = taken + count;
                }
            },
        }
    }
}

} // verus!
