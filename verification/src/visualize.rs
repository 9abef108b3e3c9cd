//! Complete visualizations: every batch of a stream collected into a scene.

use vstd::prelude::*;

use crate::config::{Turtle2dConfig, VisualizerConfig};
use crate::error::{resource_error, Failure, VisualizeError};
use crate::generation::{Generation, Module};
use crate::geometry::{
    Line2d, Point2d, Point3d, Polygon2d, Polygon3d, Primitive2d, Primitive3d, Scene2d, Scene3d,
    StyledLine2d, StyledLine3d, Visualization, VisualizationResult,
};
use crate::inspector::{
    inspected, inspection_failure, inspects, visualize_inspector, VisualizationContext,
};
use crate::kind::{VisualizerBackend, VisualizerKind};
use crate::number::{answers, calculate, calculates, Arithmetic, Real};
use crate::outlet::{lemma_never_called_off, Outlet};
use crate::preview::{spelling, spells};
use crate::stream_2d::{
    lemma_refused_before_2d, planar_labels, planar_visit, planar_start, planar_trace,
    room_refused_2d, request_fault_2d, summary_2d, Event2d, Turtle2dBatch, Turtle2dStreamSummary,
    Turtle2dTraversal,
};
use crate::stream_3d::{
    lemma_refused_before_3d, spatial_labels, spatial_visit, kinds_in, room_refused_3d,
    request_fault_3d, spatial_start, spatial_trace, summary_3d, Event3d, Turtle3dBatch,
    Turtle3dPrimitiveKind, Turtle3dStreamSummary, Turtle3dTraversal,
};
use crate::turtle_2d::{outline_2d, outlines_2d};
use crate::turtle_3d::{outline_3d, outlines_3d};
use crate::walk::{
    after_items, lemma_items_join, turtle_valid, batch_count, batch_of, lines_in, polygons_in,
    Emission, Event, Outline,
};

verus! {

/// How many items one batch of a complete visualization takes.
pub const COMPATIBILITY_BATCH_SIZE: usize = 16384;

/// The pattern of two.
pub const TWO_BITS: u64 = 0x4000_0000_0000_0000;

/// The pattern of a quarter of pi.
pub const QUARTER_PI_BITS: u64 = 0x3fe9_21fb_5444_2d18;

/// A line or a polygon.
pub enum Shape<L, P> {
    Line(L),
    Polygon(Outline<P>),
    /// Neither: a text.
    Other,
}

pub type Shape2d = Shape<StyledLine2d, Point2d>;

pub type Shape3d = Shape<StyledLine3d, Point3d>;

pub open spec fn shape_2d(primitive: Primitive2d) -> Shape2d {
    match primitive {
        Primitive2d::Line(line) => Shape::Line(line),
        Primitive2d::Polygon(polygon) => Shape::Polygon(outline_2d(polygon)),
        Primitive2d::Text(_) => Shape::Other,
    }
}

pub open spec fn shapes_2d(primitives: Seq<Primitive2d>) -> Seq<Shape2d> {
    primitives.map_values(|p: Primitive2d| shape_2d(p))
}

pub open spec fn shape_3d(primitive: Primitive3d) -> Shape3d {
    match primitive {
        Primitive3d::Line(line) => Shape::Line(line),
        Primitive3d::Polygon(polygon) => Shape::Polygon(outline_3d(polygon)),
    }
}

pub open spec fn shapes_3d(primitives: Seq<Primitive3d>) -> Seq<Shape3d> {
    primitives.map_values(|p: Primitive3d| shape_3d(p))
}

/// The lines and then the polygons of some events.
pub open spec fn batch_shapes(events: Seq<Event2d>) -> Seq<Shape2d> {
    lines_in(events).map_values(|line: StyledLine2d| Shape::<StyledLine2d, Point2d>::Line(line))
        + polygons_in(events).map_values(
        |outline: Outline<Point2d>| Shape::<StyledLine2d, Point2d>::Polygon(outline),
    )
}

/// The shapes of the first batches, batch by batch.
pub open spec fn scene_shapes(events: Seq<Event2d>, size: int, batches: int) -> Seq<Shape2d>
    decreases batches,
{
    if batches <= 0 {
        Seq::empty()
    } else {
        scene_shapes(events, size, batches - 1) + batch_shapes(
            batch_of(events, size, batches - 1),
        )
    }
}

/// The order of some polygons reversed, so that the first can be taken off the
/// end.
fn reversed<T>(values: Vec<T>) -> (r: Vec<T>)
    ensures
        r@ == values@.reverse(),
{
    let ghost all = values@;
    let mut values: Vec<T> = values;
    let mut out: Vec<T> = Vec::new();
    while values.len() > 0
        invariant
            values@.len() <= all.len(),
            values@ == all.subrange(0, values@.len() as int),
            out@ == all.subrange(values@.len() as int, all.len() as int).reverse(),
        decreases values@.len(),
    {
        let ghost before = values@;
        match values.pop() {
            Some(value) => {
                out.push(value);
                assert(values@ =~= all.subrange(0, values@.len() as int));
                assert(out@ =~= all.subrange(values@.len() as int, all.len() as int).reverse());
            },
            None => {},
        }
    }
    assert(out@ =~= all.reverse());
    out
}

/// Move the shapes of a batch behind those of a scene: its lines, then its
/// polygons. Room may be refused.
pub fn append_batch_2d(primitives: &mut Vec<Primitive2d>, batch: Turtle2dBatch) -> (r: Result<
    (),
    VisualizeError,
>)
    ensures
        match r {
            Ok(()) => shapes_2d(final(primitives)@) == shapes_2d(old(primitives)@)
                + batch.lines@.map_values(
                |line: StyledLine2d| Shape::<StyledLine2d, Point2d>::Line(line),
            ) + outlines_2d(batch.polygons@).map_values(
                |outline: Outline<Point2d>| Shape::<StyledLine2d, Point2d>::Polygon(outline),
            ),
            Err(error) => final(primitives)@ == old(primitives)@ && (error@ matches
                Failure::ResourceExhausted { resource, requested } && resource
                == "complete turtle scene"@),
        },
{
    let ghost before = shapes_2d(primitives@);
    let ghost all = batch.lines@.map_values(
        |line: StyledLine2d| Shape::<StyledLine2d, Point2d>::Line(line),
    );
    let ghost outlines = outlines_2d(batch.polygons@).map_values(
        |outline: Outline<Point2d>| Shape::<StyledLine2d, Point2d>::Polygon(outline),
    );
    let additional: usize = batch.lines.len().saturating_add(batch.polygons.len());
    match primitives.try_reserve(additional) {
        Ok(_) => {},
        Err(_) => {
            return Err(resource_error("complete turtle scene", additional));
        },
    }
    let lines: Vec<StyledLine2d> = batch.lines;
    let ghost polygons = batch.polygons@;
    let mut i: usize = 0;
    assert(before + all.subrange(0, 0) =~= before);
    while i < lines.len()
        invariant
            i <= lines@.len(),
            all == lines@.map_values(
                |line: StyledLine2d| Shape::<StyledLine2d, Point2d>::Line(line),
            ),
            shapes_2d(primitives@) == before + all.subrange(0, i as int),
        decreases lines@.len() - i,
    {
        let ghost earlier = primitives@;
        primitives.push(Primitive2d::Line(lines[i]));
        i = i + 1;
        assert(shapes_2d(primitives@) =~= shapes_2d(earlier).push(all[i - 1]));
        assert(shapes_2d(primitives@) =~= before + all.subrange(0, i as int));
    }
    assert(all.subrange(0, i as int) =~= all);
    let mut rest: Vec<Polygon2d> = reversed(batch.polygons);
    let ghost mut taken: int = 0;
    let ghost middle = before + all;
    assert(middle + outlines.subrange(0, 0) =~= middle);
    while rest.len() > 0
        invariant
            0 <= taken,
            taken + rest@.len() == polygons.len(),
            rest@ == polygons.subrange(taken, polygons.len() as int).reverse(),
            outlines == outlines_2d(polygons).map_values(
                |outline: Outline<Point2d>| Shape::<StyledLine2d, Point2d>::Polygon(outline),
            ),
            shapes_2d(primitives@) == middle + outlines.subrange(0, taken),
        decreases rest@.len(),
    {
        let ghost earlier = primitives@;
        match rest.pop() {
            Some(polygon) => {
                assert(polygon == polygons[taken]);
                assert(outlines_2d(polygons)[taken] == outline_2d(polygon));
                primitives.push(Primitive2d::Polygon(polygon));
                proof {
                    assert(shapes_2d(primitives@) =~= shapes_2d(earlier).push(outlines[taken]));
                    assert(shapes_2d(primitives@) =~= middle + outlines.subrange(0, taken + 1));
                    taken = taken + 1;
                    assert(rest@ =~= polygons.subrange(taken, polygons.len() as int).reverse());
                }
            },
            None => {},
        }
    }
    assert(outlines.subrange(0, taken) =~= outlines);
    Ok(())
}

/// A complete planar turtle scene, or why there is none.
pub open spec fn planar_scene(
    generation: Generation,
    config: Turtle2dConfig,
    ev: spec_fn(Arithmetic) -> Real,
    outcome: Result<Scene2d, VisualizeError>,
) -> bool {
    let traced = planar_trace(planar_start(generation, config), config, ev);
    let size = COMPATIBILITY_BATCH_SIZE as int;
    match outcome {
        Ok(scene) => {
            &&& request_fault_2d(config, COMPATIBILITY_BATCH_SIZE) is None
            &&& summary_2d(traced) is Ok
            &&& shapes_2d(scene.primitives@) == scene_shapes(
                traced.events,
                size,
                batch_count(traced.events.len() as int, size),
            )
            &&& scene.background == config.background
        },
        Err(error) => match request_fault_2d(config, COMPATIBILITY_BATCH_SIZE) {
            Some(fault) => error@ == fault,
            None => {
                ||| summary_2d(traced) == Err::<Turtle2dStreamSummary, _>(error@)
                ||| room_refused_2d(generation, config, ev, error@, COMPATIBILITY_BATCH_SIZE)
                ||| error@ matches Failure::ResourceExhausted { resource, requested } && resource
                    == "complete turtle scene"@
            },
        },
    }
}

/// Draw a complete planar turtle scene on the CPU.
pub fn visualize_turtle_2d<C: Fn(Arithmetic) -> Real>(
    generation: &Generation,
    config: &Turtle2dConfig,
    calc: &C,
) -> (r: Result<Scene2d, VisualizeError>)
    requires
        calculates(*calc),
    ensures
        planar_scene(*generation, *config, answers(*calc), r),
{
    let never_cancelled = || -> (r: bool)
        ensures
            !r,
        { false };
    let unheard = |_batch: Turtle2dBatch| -> (r: Result<(), VisualizeError>)
        ensures
            r == Ok::<(), VisualizeError>(()),
        { Ok(()) };
    let mut outlet = Outlet::new(never_cancelled, unheard);
    let ghost opened = outlet;
    let validated: Result<(), VisualizeError> = crate::stream_2d::validate_request(
        config,
        COMPATIBILITY_BATCH_SIZE,
        &mut outlet,
    );
    proof {
        lemma_never_called_off(opened, outlet);
    }
    match validated {
        Ok(()) => {},
        Err(error) => {
            return Err(error);
        },
    }
    let mut traversal: Turtle2dTraversal<'_> = match Turtle2dTraversal::begin(
        generation,
        config,
        COMPATIBILITY_BATCH_SIZE,
    ) {
        Ok(traversal) => traversal,
        Err(error) => {
            return Err(error);
        },
    };
    let ghost ev = answers(*calc);
    let ghost traced = planar_trace(planar_start(*generation, *config), *config, ev);
    let ghost events = traced.events;
    let ghost total = events.len() as int;
    let ghost size = COMPATIBILITY_BATCH_SIZE as int;
    let ghost mut sent: int = 0;
    let ghost mut taken: int = 0;
    let ghost first = planar_start(*generation, *config);
    let ghost visit = planar_visit(*config, ev);
    let ghost mut used: nat = 0;
    let mut primitives: Vec<Primitive2d> = Vec::new();
    proof {
        assert(events.subrange(0, total) =~= events);
        reveal(after_items);
        assert(shapes_2d(primitives@) =~= scene_shapes(events, size, 0));
    }
    loop
        invariant
            calculates(*calc),
            outlet.ready(),
            forall|b: bool| #[trigger] call_ensures(outlet.hook(), (), b) ==> !b,
            ev == answers(*calc),
            size == COMPATIBILITY_BATCH_SIZE,
            total == events.len(),
            events == traced.events,
            traced == planar_trace(planar_start(*generation, *config), *config, ev),
            request_fault_2d(*config, COMPATIBILITY_BATCH_SIZE) is None,
            first == planar_start(*generation, *config),
            visit == planar_visit(*config, ev),
            turtle_valid(first),
            traversal.turtle() == after_items(first, used, planar_labels(), visit),
            traversal.valid(),
            traversal.config == config,
            traversal.batch_size == COMPATIBILITY_BATCH_SIZE,
            0 <= sent,
            0 <= taken <= total,
            taken == sent * size || taken == total && sent == batch_count(total, size),
            traversal.future(ev).events == events.subrange(taken, total),
            traversal.future(ev).end == traced.end,
            shapes_2d(primitives@) == scene_shapes(events, size, sent),
        decreases traversal.future(ev).events.len(),
    {
        let ghost ahead = traversal.future(ev).events;
        let ghost before = outlet;
        let step = traversal.next_batch(calc, &mut outlet);
        proof {
            lemma_never_called_off(before, outlet);
        }
        match step {
            Err(error) => {
                proof {
                    lemma_refused_before_2d(
                        *generation,
                        *config,
                        ev,
                        error@,
                        COMPATIBILITY_BATCH_SIZE,
                        used,
                    );
                }
                return Err(error);
            },
            Ok(None) => {
                proof {
                    assert(taken == total);
                    assert(sent == batch_count(total, size)) by (nonlinear_arith)
                        requires
                            taken == total,
                            size > 0,
                            taken == sent * size || sent == batch_count(total, size),
                            batch_count(total, size) == (total + size - 1) / size,
                    ;
                }
                if traversal.polygon_stack.len() > 0 {
                    return Err(
                        crate::error::invalid("turtle_2d ended with an unterminated polygon"),
                    );
                }
                return Ok(Scene2d { primitives, background: config.background });
            },
            Ok(Some(batch)) => {
                proof {
                    lemma_items_join(first, used, size as nat, planar_labels(), visit);
                    used = used + size as nat;
                }
                let ghost count = if ahead.len() < size { ahead.len() as int } else { size };
                let ghost piece = ahead.subrange(0, count);
                proof {
                    if taken == total {
                        assert(ahead.len() == 0);
                    }
                    assert(taken == sent * size);
                    assert(piece =~= batch_of(events, size, sent));
                    assert(ahead.subrange(count, ahead.len() as int) =~= events.subrange(
                        taken + count,
                        total,
                    ));
                }
                match append_batch_2d(&mut primitives, batch) {
                    Ok(()) => {},
                    Err(error) => {
                        return Err(error);
                    },
                }
                proof {
                    assert(shapes_2d(primitives@) =~= scene_shapes(events, size, sent + 1));
                    if count == size {
                        assert((sent + 1) * size == taken + count) by (nonlinear_arith)
                            requires
                                taken == sent * size,
                                count == size,
                        ;
                    } else {
                        assert(sent + 1 == batch_count(total, size)) by (nonlinear_arith)
                            requires
                                taken == sent * size,
                                total == taken + count,
                                0 < count < size,
                                batch_count(total, size) == (total + size - 1) / size,
                        ;
                    }
                    sent = sent + 1;
                    taken = taken + count;
                }
            },
        }
    }
}

/// The shapes that some events emitted, in order.
pub open spec fn shapes_in(events: Seq<Event3d>) -> Seq<Shape3d>
    decreases events.len(),
{
    if events.len() == 0 {
        Seq::empty()
    } else {
        let before = shapes_in(events.drop_last());
        match events.last() {
            Event::Visited { emission: Emission::Line(line), .. } => before.push(
                Shape::Line(line),
            ),
            Event::Visited { emission: Emission::Polygon(outline), .. } => before.push(
                Shape::Polygon(outline),
            ),
            _ => before,
        }
    }
}

proof fn lemma_shapes_join(a: Seq<Event3d>, b: Seq<Event3d>)
    ensures
        shapes_in(a + b) == shapes_in(a) + shapes_in(b),
    decreases b.len(),
{
    if b.len() == 0 {
        assert(a + b =~= a);
        assert(shapes_in(a) + shapes_in(b) =~= shapes_in(a));
    } else {
        assert((a + b).drop_last() =~= a + b.drop_last());
        lemma_shapes_join(a, b.drop_last());
        assert(shapes_in(a + b) =~= shapes_in(a) + shapes_in(b));
    }
}

/// Shapes drawn from lines and polygons in an order of kinds.
pub open spec fn ordered_shapes(
    kinds: Seq<Turtle3dPrimitiveKind>,
    lines: Seq<StyledLine3d>,
    outlines: Seq<Outline<Point3d>>,
) -> Seq<Shape3d>
    decreases kinds.len(),
{
    if kinds.len() == 0 {
        Seq::empty()
    } else {
        match kinds.last() {
            Turtle3dPrimitiveKind::Line => if lines.len() > 0 {
                ordered_shapes(kinds.drop_last(), lines.drop_last(), outlines).push(
                    Shape::Line(lines.last()),
                )
            } else {
                Seq::empty()
            },
            Turtle3dPrimitiveKind::Polygon => if outlines.len() > 0 {
                ordered_shapes(kinds.drop_last(), lines, outlines.drop_last()).push(
                    Shape::Polygon(outlines.last()),
                )
            } else {
                Seq::empty()
            },
        }
    }
}

/// The kinds say exactly how lines and polygons alternate: nothing is left
/// over and nothing is missing.
pub open spec fn order_matches(kinds: Seq<Turtle3dPrimitiveKind>, lines: int, polygons: int) -> bool
    decreases kinds.len(),
{
    if kinds.len() == 0 {
        lines == 0 && polygons == 0
    } else {
        match kinds.last() {
            Turtle3dPrimitiveKind::Line => lines > 0 && order_matches(
                kinds.drop_last(),
                lines - 1,
                polygons,
            ),
            Turtle3dPrimitiveKind::Polygon => polygons > 0 && order_matches(
                kinds.drop_last(),
                lines,
                polygons - 1,
            ),
        }
    }
}

/// Lines and polygons taken in the order of the kinds are the shapes in the
/// order in which the turtle emitted them.
pub proof fn primitive_order_restores_source_order(events: Seq<Event3d>)
    ensures
        order_matches(
            kinds_in(events),
            lines_in(events).len() as int,
            polygons_in(events).len() as int,
        ),
        ordered_shapes(kinds_in(events), lines_in(events), polygons_in(events)) == shapes_in(
            events,
        ),
    decreases events.len(),
{
    if events.len() > 0 {
        let init = events.drop_last();
        primitive_order_restores_source_order(init);
        match events.last() {
            Event::Visited { emission: Emission::Line(line), .. } => {
                assert(kinds_in(events).drop_last() =~= kinds_in(init));
                assert(lines_in(events).drop_last() =~= lines_in(init));
            },
            Event::Visited { emission: Emission::Polygon(outline), .. } => {
                assert(kinds_in(events).drop_last() =~= kinds_in(init));
                assert(polygons_in(events).drop_last() =~= polygons_in(init));
            },
            _ => {},
        }
    }
}

/// Move the shapes of a batch behind those of a scene, in source order. Room
/// may be refused.
pub fn append_batch_3d(primitives: &mut Vec<Primitive3d>, batch: Turtle3dBatch) -> (r: Result<
    (),
    VisualizeError,
>)
    requires
        order_matches(
            batch.primitive_order@,
            batch.lines@.len() as int,
            batch.polygons@.len() as int,
        ),
    ensures
        match r {
            Ok(()) => shapes_3d(final(primitives)@) == shapes_3d(old(primitives)@)
                + ordered_shapes(
                batch.primitive_order@,
                batch.lines@,
                outlines_3d(batch.polygons@),
            ),
            Err(error) => final(primitives)@ == old(primitives)@ && (error@ matches
                Failure::ResourceExhausted { resource, requested } && resource
                == "complete 3D turtle scene"@),
        },
{
    let ghost before = shapes_3d(primitives@);
    let additional: usize = batch.lines.len().saturating_add(batch.polygons.len());
    match primitives.try_reserve(additional) {
        Ok(_) => {},
        Err(_) => {
            return Err(resource_error("complete 3D turtle scene", additional));
        },
    }
    let lines: Vec<StyledLine3d> = batch.lines;
    let kinds: Vec<Turtle3dPrimitiveKind> = batch.primitive_order;
    let ghost polygons = batch.polygons@;
    let ghost outlines = outlines_3d(polygons);
    let mut rest: Vec<Polygon3d> = reversed(batch.polygons);
    let mut i: usize = 0;
    let mut line: usize = 0;
    let ghost mut taken: int = 0;
    proof {
        lemma_order_prefix(kinds@, lines@.len() as int, polygons.len() as int, 0);
        assert(shapes_3d(primitives@) =~= before + ordered_shapes(
            kinds@.subrange(0, 0),
            lines@.subrange(0, 0),
            outlines.subrange(0, 0),
        ));
    }
    while i < kinds.len()
        invariant
            i <= kinds@.len(),
            order_matches(kinds@, lines@.len() as int, polygons.len() as int),
            line <= lines@.len(),
            0 <= taken <= polygons.len(),
            line == kind_count(kinds@.subrange(0, i as int), true),
            taken == kind_count(kinds@.subrange(0, i as int), false),
            outlines == outlines_3d(polygons),
            rest@ == polygons.subrange(taken, polygons.len() as int).reverse(),
            shapes_3d(primitives@) == before + ordered_shapes(
                kinds@.subrange(0, i as int),
                lines@.subrange(0, line as int),
                outlines.subrange(0, taken),
            ),
        decreases kinds@.len() - i,
    {
        let ghost earlier = primitives@;
        let ghost next_kinds = kinds@.subrange(0, i + 1);
        proof {
            lemma_order_prefix(kinds@, lines@.len() as int, polygons.len() as int, i + 1);
            assert(next_kinds.drop_last() =~= kinds@.subrange(0, i as int));
            assert(next_kinds.last() == kinds@[i as int]);
        }
        match kinds[i] {
            Turtle3dPrimitiveKind::Line => {
                let total: usize = lines.len();
                assert(line < total);
                primitives.push(Primitive3d::Line(lines[line]));
                proof {
                    let next_lines = lines@.subrange(0, line + 1);
                    assert(next_lines.drop_last() =~= lines@.subrange(0, line as int));
                    assert(shapes_3d(primitives@) =~= shapes_3d(earlier).push(
                        Shape::Line(lines@[line as int]),
                    ));
                    assert(shapes_3d(primitives@) =~= before + ordered_shapes(
                        next_kinds,
                        next_lines,
                        outlines.subrange(0, taken),
                    ));
                }
                line = line + 1;
            },
            Turtle3dPrimitiveKind::Polygon => {
                match rest.pop() {
                    Some(polygon) => {
                        assert(polygon == polygons[taken]);
                        assert(outlines[taken] == outline_3d(polygon));
                        primitives.push(Primitive3d::Polygon(polygon));
                        proof {
                            let next_outlines = outlines.subrange(0, taken + 1);
                            assert(next_outlines.drop_last() =~= outlines.subrange(0, taken));
                            assert(shapes_3d(primitives@) =~= shapes_3d(earlier).push(
                                Shape::Polygon(outlines[taken]),
                            ));
                            assert(shapes_3d(primitives@) =~= before + ordered_shapes(
                                next_kinds,
                                lines@.subrange(0, line as int),
                                next_outlines,
                            ));
                            taken = taken + 1;
                            assert(rest@ =~= polygons.subrange(
                                taken,
                                polygons.len() as int,
                            ).reverse());
                        }
                    },
                    None => {
                        assert(false);
                    },
                }
            },
        }
        i = i + 1;
    }
    proof {
        lemma_order_prefix(
            kinds@,
            lines@.len() as int,
            polygons.len() as int,
            kinds@.len() as int,
        );
        assert(kinds@.subrange(0, i as int) =~= kinds@);
        assert(lines@.subrange(0, line as int) =~= lines@);
        assert(outlines.subrange(0, taken) =~= outlines);
    }
    Ok(())
}

/// How many of some kinds are lines, or polygons.
spec fn kind_count(kinds: Seq<Turtle3dPrimitiveKind>, line: bool) -> int
    decreases kinds.len(),
{
    if kinds.len() == 0 {
        0
    } else {
        kind_count(kinds.drop_last(), line) + if (kinds.last() is Line) == line {
            1int
        } else {
            0
        }
    }
}

proof fn lemma_order_counts(kinds: Seq<Turtle3dPrimitiveKind>, lines: int, polygons: int)
    requires
        order_matches(kinds, lines, polygons),
    ensures
        kind_count(kinds, true) == lines,
        kind_count(kinds, false) == polygons,
    decreases kinds.len(),
{
    if kinds.len() > 0 {
        match kinds.last() {
            Turtle3dPrimitiveKind::Line => lemma_order_counts(
                kinds.drop_last(),
                lines - 1,
                polygons,
            ),
            Turtle3dPrimitiveKind::Polygon => lemma_order_counts(
                kinds.drop_last(),
                lines,
                polygons - 1,
            ),
        }
    }
}

proof fn lemma_order_prefix(
    kinds: Seq<Turtle3dPrimitiveKind>,
    lines: int,
    polygons: int,
    k: int,
)
    requires
        order_matches(kinds, lines, polygons),
        0 <= k <= kinds.len(),
    ensures
        0 <= kind_count(kinds.subrange(0, k), true) <= lines,
        0 <= kind_count(kinds.subrange(0, k), false) <= polygons,
        k == kinds.len() ==> kind_count(kinds.subrange(0, k), true) == lines && kind_count(
            kinds.subrange(0, k),
            false,
        ) == polygons,
    decreases kinds.len(),
{
    if k == kinds.len() {
        assert(kinds.subrange(0, k) =~= kinds);
        lemma_order_counts(kinds, lines, polygons);
        lemma_counts_not_negative(kinds);
    } else {
        let init = kinds.drop_last();
        assert(init.subrange(0, k) =~= kinds.subrange(0, k));
        match kinds.last() {
            Turtle3dPrimitiveKind::Line => lemma_order_prefix(init, lines - 1, polygons, k),
            Turtle3dPrimitiveKind::Polygon => lemma_order_prefix(init, lines, polygons - 1, k),
        }
    }
}

proof fn lemma_counts_not_negative(kinds: Seq<Turtle3dPrimitiveKind>)
    ensures
        0 <= kind_count(kinds, true),
        0 <= kind_count(kinds, false),
    decreases kinds.len(),
{
    if kinds.len() > 0 {
        lemma_counts_not_negative(kinds.drop_last());
    }
}

/// A complete spatial turtle scene, or why there is none.
pub open spec fn spatial_scene(
    generation: Generation,
    config: Turtle2dConfig,
    ev: spec_fn(Arithmetic) -> Real,
    outcome: Result<Scene3d, VisualizeError>,
) -> bool {
    let traced = spatial_trace(spatial_start(generation, config, ev), config, ev);
    match outcome {
        Ok(scene) => {
            &&& request_fault_3d(config, COMPATIBILITY_BATCH_SIZE) is None
            &&& summary_3d(traced, ev) is Ok
            &&& shapes_3d(scene.primitives@) == shapes_in(traced.events)
            &&& scene.background == config.background
        },
        Err(error) => match request_fault_3d(config, COMPATIBILITY_BATCH_SIZE) {
            Some(fault) => error@ == fault,
            None => {
                ||| summary_3d(traced, ev) == Err::<Turtle3dStreamSummary, _>(error@)
                ||| room_refused_3d(generation, config, ev, error@, COMPATIBILITY_BATCH_SIZE)
                ||| error@ matches Failure::ResourceExhausted { resource, requested } && resource
                    == "complete 3D turtle scene"@
            },
        },
    }
}

/// Draw a complete spatial turtle scene on the CPU.
pub fn visualize_turtle_3d<C: Fn(Arithmetic) -> Real>(
    generation: &Generation,
    config: &Turtle2dConfig,
    calc: &C,
) -> (r: Result<Scene3d, VisualizeError>)
    requires
        calculates(*calc),
    ensures
        spatial_scene(*generation, *config, answers(*calc), r),
{
    let never_cancelled = || -> (r: bool)
        ensures
            !r,
        { false };
    let unheard = |_batch: Turtle3dBatch| -> (r: Result<(), VisualizeError>)
        ensures
            r == Ok::<(), VisualizeError>(()),
        { Ok(()) };
    let mut outlet = Outlet::new(never_cancelled, unheard);
    let ghost opened = outlet;
    let validated: Result<(), VisualizeError> = crate::stream_3d::validate_request(
        config,
        COMPATIBILITY_BATCH_SIZE,
        &mut outlet,
    );
    proof {
        lemma_never_called_off(opened, outlet);
    }
    match validated {
        Ok(()) => {},
        Err(error) => {
            return Err(error);
        },
    }
    let mut traversal: Turtle3dTraversal<'_> = match Turtle3dTraversal::begin(
        generation,
        config,
        COMPATIBILITY_BATCH_SIZE,
        calc,
    ) {
        Ok(traversal) => traversal,
        Err(error) => {
            return Err(error);
        },
    };
    let ghost ev = answers(*calc);
    let ghost traced = spatial_trace(spatial_start(*generation, *config, ev), *config, ev);
    let ghost events = traced.events;
    let ghost total = events.len() as int;
    let ghost size = COMPATIBILITY_BATCH_SIZE as int;
    let ghost mut taken: int = 0;
    let ghost first = spatial_start(*generation, *config, ev);
    let ghost visit = spatial_visit(*config, ev);
    let ghost mut used: nat = 0;
    let mut primitives: Vec<Primitive3d> = Vec::new();
    proof {
        assert(events.subrange(0, total) =~= events);
        reveal(after_items);
        assert(shapes_3d(primitives@) =~= shapes_in(events.subrange(0, 0)));
    }
    loop
        invariant
            calculates(*calc),
            outlet.ready(),
            forall|b: bool| #[trigger] call_ensures(outlet.hook(), (), b) ==> !b,
            ev == answers(*calc),
            size == COMPATIBILITY_BATCH_SIZE,
            total == events.len(),
            events == traced.events,
            traced == spatial_trace(spatial_start(*generation, *config, ev), *config, ev),
            request_fault_3d(*config, COMPATIBILITY_BATCH_SIZE) is None,
            first == spatial_start(*generation, *config, ev),
            visit == spatial_visit(*config, ev),
            turtle_valid(first),
            traversal.turtle() == after_items(first, used, spatial_labels(), visit),
            traversal.valid(),
            traversal.config == config,
            traversal.batch_size == COMPATIBILITY_BATCH_SIZE,
            0 <= taken <= total,
            traversal.future(ev).events == events.subrange(taken, total),
            traversal.future(ev).end == traced.end,
            shapes_3d(primitives@) == shapes_in(events.subrange(0, taken)),
        decreases traversal.future(ev).events.len(),
    {
        let ghost ahead = traversal.future(ev).events;
        let ghost before = outlet;
        let step = traversal.next_batch(calc, &mut outlet);
        proof {
            lemma_never_called_off(before, outlet);
        }
        match step {
            Err(error) => {
                proof {
                    assert(events.subrange(0, taken) + ahead =~= events);
                    lemma_refused_before_3d(
                        *generation,
                        *config,
                        ev,
                        error@,
                        COMPATIBILITY_BATCH_SIZE,
                        used,
                        events.subrange(0, taken),
                    );
                }
                return Err(error);
            },
            Ok(None) => {
                assert(taken == total);
                assert(events.subrange(0, taken) =~= events);
                if traversal.polygon_stack.len() > 0 {
                    return Err(
                        crate::error::invalid("turtle_3d ended with an unterminated polygon"),
                    );
                }
                return Ok(Scene3d { primitives, background: config.background });
            },
            Ok(Some(batch)) => {
                proof {
                    lemma_items_join(first, used, size as nat, spatial_labels(), visit);
                    used = used + size as nat;
                }
                let ghost count = if ahead.len() < size { ahead.len() as int } else { size };
                let ghost piece = ahead.subrange(0, count);
                proof {
                    assert(events.subrange(0, taken) + piece =~= events.subrange(
                        0,
                        taken + count,
                    ));
                    assert(ahead.subrange(count, ahead.len() as int) =~= events.subrange(
                        taken + count,
                        total,
                    ));
                    lemma_shapes_join(events.subrange(0, taken), piece);
                    primitive_order_restores_source_order(piece);
                    assert(outlines_3d(batch.polygons@).len() == batch.polygons@.len());
                }
                match append_batch_3d(&mut primitives, batch) {
                    Ok(()) => {},
                    Err(error) => {
                        return Err(error);
                    },
                }
                proof {
                    taken = taken + count;
                }
            },
        }
    }
}

/// A request for a complete visualization.
pub struct VisualizeRequest<'a> {
    pub generation: &'a Generation,
    pub backend: VisualizerBackend,
    pub config: VisualizerConfig,
    pub context: VisualizationContext,
}

/// The outcome of a request on the CPU.
pub open spec fn visualized<'a>(
    request: VisualizeRequest<'a>,
    ev: spec_fn(Arithmetic) -> Real,
    sp: spec_fn(Module) -> Seq<Seq<char>>,
    outcome: Result<VisualizationResult, VisualizeError>,
) -> bool {
    let shown = match outcome {
        Ok(result) => Ok(result.visualization),
        Err(error) => Err(error),
    };
    &&& outcome matches Ok(result) ==> result.backend_used == VisualizerBackend::Cpu
    &&& match request.config {
        VisualizerConfig::Inspector(_) => match shown {
            Ok(Visualization::Scene2d(scene)) => inspects(
                scene,
                *request.generation,
                request.context,
                ev,
                sp,
            ),
            Ok(Visualization::Scene3d(_)) => false,
            Err(error) => inspection_failure(error@, inspected(*request.generation)),
        },
        VisualizerConfig::Turtle2d(config) => match shown {
            Ok(Visualization::Scene2d(scene)) => planar_scene(
                *request.generation,
                config,
                ev,
                Ok(scene),
            ),
            Ok(Visualization::Scene3d(_)) => false,
            Err(error) => planar_scene(*request.generation, config, ev, Err(error)),
        },
        VisualizerConfig::Turtle3d(config) => match shown {
            Ok(Visualization::Scene3d(scene)) => spatial_scene(
                *request.generation,
                config.turtle,
                ev,
                Ok(scene),
            ),
            Ok(Visualization::Scene2d(_)) => false,
            Err(error) => spatial_scene(*request.generation, config.turtle, ev, Err(error)),
        },
        _ => shown matches Err(error) && error@ == (Failure::Unimplemented {
            visualizer: request.config.kind(),
            backend: VisualizerBackend::Cpu,
        }),
    }
}

/// Complete a visualization where no device can be had: `Auto` runs on the
/// CPU, and `Cuda` is unavailable.
pub fn visualize_with_backend<'a, W: Fn(&Module) -> Vec<String>, C: Fn(Arithmetic) -> Real>(
    request: VisualizeRequest<'a>,
    spell: &W,
    calc: &C,
) -> (r: Result<VisualizationResult, VisualizeError>)
    requires
        calculates(*calc),
        spells(*spell),
    ensures
        if request.backend == VisualizerBackend::Cuda {
            r matches Err(error) && error@ == match request.config {
                VisualizerConfig::Turtle2d(config) if request_fault_2d(
                    config,
                    COMPATIBILITY_BATCH_SIZE,
                ) is Some => request_fault_2d(config, COMPATIBILITY_BATCH_SIZE)->Some_0,
                _ => (Failure::BackendUnavailable { backend: VisualizerBackend::Cuda }),
            }
        } else {
            visualized(request, answers(*calc), spelling(*spell), r)
        },
{
    let backend: VisualizerBackend = VisualizerBackend::Cpu;
    match request.backend {
        VisualizerBackend::Cuda => {
            match &request.config {
                VisualizerConfig::Turtle2d(config) => {
                    let never_cancelled = || -> (r: bool)
                        ensures
                            !r,
                        { false };
                    let unheard = |_batch: Turtle2dBatch| -> (r: Result<(), VisualizeError>)
                        ensures
                            r == Ok::<(), VisualizeError>(()),
                        { Ok(()) };
                    let mut outlet = Outlet::new(never_cancelled, unheard);
                    let ghost opened = outlet;
                    let validated: Result<(), VisualizeError> =
                        crate::stream_2d::validate_request(
                        config,
                        COMPATIBILITY_BATCH_SIZE,
                        &mut outlet,
                    );
                    proof {
                        lemma_never_called_off(opened, outlet);
                    }
                    match validated {
                        Ok(()) => {},
                        Err(error) => {
                            return Err(error);
                        },
                    }
                },
                _ => {},
            }
            return Err(
                VisualizeError::BackendUnavailable { backend: VisualizerBackend::Cuda },
            );
        },
        _ => {},
    }
    match &request.config {
        VisualizerConfig::Inspector(config) => match visualize_inspector(
            request.generation,
            *config,
            request.context,
            spell,
            calc,
        ) {
            Ok(scene) => Ok(
                VisualizationResult {
                    visualization: Visualization::Scene2d(scene),
                    backend_used: backend,
                },
            ),
            Err(error) => Err(error),
        },
        VisualizerConfig::Turtle2d(config) => match visualize_turtle_2d(
            request.generation,
            config,
            calc,
        ) {
            Ok(scene) => Ok(
                VisualizationResult {
                    visualization: Visualization::Scene2d(scene),
                    backend_used: backend,
                },
            ),
            Err(error) => Err(error),
        },
        VisualizerConfig::Turtle3d(config) => match visualize_turtle_3d(
            request.generation,
            &config.turtle,
            calc,
        ) {
            Ok(scene) => Ok(
                VisualizationResult {
                    visualization: Visualization::Scene3d(scene),
                    backend_used: backend,
                },
            ),
            Err(error) => Err(error),
        },
        VisualizerConfig::Sequence(_) => Err(unimplemented_on(VisualizerKind::Sequence)),
        VisualizerConfig::AxialTree(_) => Err(unimplemented_on(VisualizerKind::AxialTree)),
        VisualizerConfig::Asset(_) => Err(unimplemented_on(VisualizerKind::Asset)),
        VisualizerConfig::Polygon(_) => Err(unimplemented_on(VisualizerKind::Polygon)),
        VisualizerConfig::Plot(_) => Err(unimplemented_on(VisualizerKind::Plot)),
        VisualizerConfig::PlanarMap(_) => Err(unimplemented_on(VisualizerKind::PlanarMap)),
        VisualizerConfig::SphericalMap(_) => Err(unimplemented_on(VisualizerKind::SphericalMap)),
        VisualizerConfig::Cellwork3d(_) => Err(unimplemented_on(VisualizerKind::Cellwork3d)),
    }
}

fn unimplemented_on(visualizer: VisualizerKind) -> (r: VisualizeError)
    ensures
        r@ == (Failure::Unimplemented { visualizer, backend: VisualizerBackend::Cpu }),
{
    VisualizeError::Unimplemented { visualizer, backend: VisualizerBackend::Cpu }
}

/// Complete a visualization, discarding backend-selection metadata.
pub fn visualize<'a, W: Fn(&Module) -> Vec<String>, C: Fn(Arithmetic) -> Real>(
    request: VisualizeRequest<'a>,
    spell: &W,
    calc: &C,
) -> (r: Result<Visualization, VisualizeError>)
    requires
        calculates(*calc),
        spells(*spell),
    ensures
        match r {
            Ok(visualization) => request.backend != VisualizerBackend::Cuda && visualized(
                request,
                answers(*calc),
                spelling(*spell),
                Ok(VisualizationResult { visualization, backend_used: VisualizerBackend::Cpu }),
            ),
            Err(error) => if request.backend == VisualizerBackend::Cuda {
                error@ == match request.config {
                    VisualizerConfig::Turtle2d(config) if request_fault_2d(
                        config,
                        COMPATIBILITY_BATCH_SIZE,
                    ) is Some => request_fault_2d(config, COMPATIBILITY_BATCH_SIZE)->Some_0,
                    _ => (Failure::BackendUnavailable { backend: VisualizerBackend::Cuda }),
                }
            } else {
                visualized(request, answers(*calc), spelling(*spell), Err(error))
            },
        },
{
    match visualize_with_backend(request, spell, calc) {
        Ok(result) => Ok(result.visualization),
        Err(error) => Err(error),
    }
}

/// A point seen along the diagonal of the axes: the view first yaws by 45
/// degrees around Z, then pitches around X, and drops the depth.
pub open spec fn projected_point(point: Point3d, ev: spec_fn(Arithmetic) -> Real) -> Point2d {
    let yaw = Real { bits: QUARTER_PI_BITS };
    let pitch = ev(
        Arithmetic::ArcTangent(ev(Arithmetic::SquareRoot(Real { bits: TWO_BITS }))),
    ).opposite();
    let (yaw_sin, yaw_cos) = (ev(Arithmetic::Sine(yaw)), ev(Arithmetic::Cosine(yaw)));
    let (pitch_sin, pitch_cos) = (ev(Arithmetic::Sine(pitch)), ev(Arithmetic::Cosine(pitch)));
    let times = |a: Real, b: Real| ev(Arithmetic::Product(a, b));
    let yawed_y = ev(Arithmetic::Sum(times(point.0, yaw_sin), times(point.1, yaw_cos)));
    (
        ev(Arithmetic::Difference(times(point.0, yaw_cos), times(point.1, yaw_sin))),
        ev(Arithmetic::Difference(times(yawed_y, pitch_cos), times(point.2, pitch_sin))),
    )
}

/// Project one turtle-world point using the equal-axis isometric view shared
/// by static targets, generated previews, and interactive displays at startup.
pub fn canonical_project_point_3d<C: Fn(Arithmetic) -> Real>(point: Point3d, calc: &C) -> (r:
    Point2d)
    requires
        calculates(*calc),
    ensures
        r == projected_point(point, answers(*calc)),
{
    let yaw: Real = Real { bits: QUARTER_PI_BITS };
    let root: Real = calculate(calc, Arithmetic::SquareRoot(Real { bits: TWO_BITS }));
    let pitch: Real = calculate(calc, Arithmetic::ArcTangent(root)).negated();
    let yaw_sin: Real = calculate(calc, Arithmetic::Sine(yaw));
    let yaw_cos: Real = calculate(calc, Arithmetic::Cosine(yaw));
    let pitch_sin: Real = calculate(calc, Arithmetic::Sine(pitch));
    let pitch_cos: Real = calculate(calc, Arithmetic::Cosine(pitch));
    let x_cos: Real = calculate(calc, Arithmetic::Product(point.0, yaw_cos));
    let y_sin: Real = calculate(calc, Arithmetic::Product(point.1, yaw_sin));
    let x_sin: Real = calculate(calc, Arithmetic::Product(point.0, yaw_sin));
    let y_cos: Real = calculate(calc, Arithmetic::Product(point.1, yaw_cos));
    let yawed_x: Real = calculate(calc, Arithmetic::Difference(x_cos, y_sin));
    let yawed_y: Real = calculate(calc, Arithmetic::Sum(x_sin, y_cos));
    let across: Real = calculate(calc, Arithmetic::Product(yawed_y, pitch_cos));
    let up: Real = calculate(calc, Arithmetic::Product(point.2, pitch_sin));
    (yawed_x, calculate(calc, Arithmetic::Difference(across, up)))
}

/// A shape with its points projected.
pub open spec fn projected_shape(shape: Shape3d, ev: spec_fn(Arithmetic) -> Real) -> Shape2d {
    match shape {
        Shape::Line(line) => Shape::Line(
            StyledLine2d {
                line: Line2d(
                    projected_point(line.line.0, ev),
                    projected_point(line.line.1, ev),
                ),
                width: line.width,
                color: line.color,
            },
        ),
        Shape::Polygon(outline) => Shape::Polygon(
            Outline {
                vertices: outline.vertices.map_values(|p: Point3d| projected_point(p, ev)),
                color: outline.color,
            },
        ),
        Shape::Other => Shape::Other,
    }
}

pub open spec fn projected_shapes(shapes: Seq<Shape3d>, ev: spec_fn(Arithmetic) -> Real) -> Seq<
    Shape2d,
> {
    shapes.map_values(|shape: Shape3d| projected_shape(shape, ev))
}

pub(crate) fn project_vertices<C: Fn(Arithmetic) -> Real>(vertices: &Vec<Point3d>, calc: &C) -> (r: Vec<
    Point2d,
>)
    requires
        calculates(*calc),
    ensures
        r@ == vertices@.map_values(|p: Point3d| projected_point(p, answers(*calc))),
{
    let ghost all = vertices@.map_values(|p: Point3d| projected_point(p, answers(*calc)));
    let mut out: Vec<Point2d> = Vec::new();
    let mut i: usize = 0;
    while i < vertices.len()
        invariant
            calculates(*calc),
            i <= vertices@.len(),
            all == vertices@.map_values(|p: Point3d| projected_point(p, answers(*calc))),
            out@ == all.subrange(0, i as int),
        decreases vertices@.len() - i,
    {
        out.push(canonical_project_point_3d(vertices[i], calc));
        i = i + 1;
        assert(out@ =~= all.subrange(0, i as int));
    }
    assert(out@ =~= all);
    out
}

impl Scene3d {
    /// Apply the stable equal-axis isometric projection used by
    /// non-interactive targets. Interactive displays should retain this
    /// scene's coordinates and choose their own view instead.
    pub fn canonical_projection<C: Fn(Arithmetic) -> Real>(&self, calc: &C) -> (r: Scene2d)
        requires
            calculates(*calc),
        ensures
            shapes_2d(r.primitives@) == projected_shapes(
                shapes_3d(self.primitives@),
                answers(*calc),
            ),
            r.background == self.background,
    {
        let ghost all = projected_shapes(shapes_3d(self.primitives@), answers(*calc));
        let mut primitives: Vec<Primitive2d> = Vec::new();
        let mut i: usize = 0;
        assert(shapes_2d(primitives@) =~= all.subrange(0, 0));
        while i < self.primitives.len()
            invariant
                calculates(*calc),
                i <= self.primitives@.len(),
                all == projected_shapes(shapes_3d(self.primitives@), answers(*calc)),
                shapes_2d(primitives@) == all.subrange(0, i as int),
            decreases self.primitives@.len() - i,
        {
            let ghost before = primitives@;
            assert(all[i as int] == projected_shape(
                shape_3d(self.primitives@[i as int]),
                answers(*calc),
            ));
            let primitive: Primitive2d = match &self.primitives[i] {
                Primitive3d::Line(line) => Primitive2d::Line(
                    StyledLine2d {
                        line: Line2d(
                            canonical_project_point_3d(line.line.0, calc),
                            canonical_project_point_3d(line.line.1, calc),
                        ),
                        width: line.width,
                        color: line.color,
                    },
                ),
                Primitive3d::Polygon(polygon) => Primitive2d::Polygon(
                    Polygon2d {
                        vertices: project_vertices(&polygon.vertices, calc),
                        color: polygon.color,
                    },
                ),
            };
            primitives.push(primitive);
            assert(shape_2d(primitive) == all[i as int]);
            i = i + 1;
            assert(shapes_2d(primitives@) =~= shapes_2d(before).push(all[i - 1]));
            assert(shapes_2d(primitives@) =~= all.subrange(0, i as int));
        }
        assert(all.subrange(0, i as int) =~= all);
        Scene2d { primitives, background: self.background }
    }

    /// Consume this scene and apply the same projection.
    pub fn into_canonical_projection<C: Fn(Arithmetic) -> Real>(self, calc: &C) -> (r: Scene2d)
        requires
            calculates(*calc),
        ensures
            shapes_2d(r.primitives@) == projected_shapes(
                shapes_3d(self.primitives@),
                answers(*calc),
            ),
            r.background == self.background,
    {
        self.canonical_projection(calc)
    }
}

/// Projection keeps the order of the shapes, and every width and colour.
pub proof fn projection_keeps_style(shapes: Seq<Shape3d>, ev: spec_fn(Arithmetic) -> Real)
    ensures
        projected_shapes(shapes, ev).len() == shapes.len(),
        forall|i: int|
            0 <= i < shapes.len() ==> match (#[trigger] shapes[i], projected_shapes(shapes, ev)[i]) {
                (Shape::Line(from), Shape::Line(to)) => from.width == to.width && from.color
                    == to.color,
                (Shape::Polygon(from), Shape::Polygon(to)) => from.color == to.color
                    && from.vertices.len() == to.vertices.len(),
                (Shape::Other, Shape::Other) => true,
                _ => false,
            },
{
}

} // verus!
