//! Where a device and the CPU agree on what a turtle does.

use vstd::prelude::*;

use crate::config::Turtle2dConfig;
use crate::cuda::{
    carry_after, device_op, group_items, group_ops, input_fault, item_fault, output_event,
    output_events, ran_wholly, told,
};
use crate::device::{group_limit, DeviceFault, DeviceLimits, DeviceStep, TurtleDevice};
use crate::error::VisualizeError;
use crate::generation::{Generation, GenerationItem};
use crate::geometry::Point2d;
use crate::number::{Arithmetic, Real};
use crate::outlet::Exchange;
use crate::stream_2d::{
    planar_labels, planar_start, planar_trace, planar_visit, Event2d, Turtle2dBatch,
    Turtle2dStreamSummary,
};
use crate::transform::{group_outputs, EncodedOp, GpuOutput};
use crate::turtle_2d::TurtleState;
use crate::walk::{
    batch_count, indices_in, lemma_batch_starts, lemma_move_shrinks, lines_in, moved, turtle_valid,
    visits_in, Event, Level, Turtle,
};

verus! {

/// Every reply of a device is what its group comes to by the same calculator.
pub open spec fn replies_computed(
    items: Seq<GenerationItem>,
    config: Turtle2dConfig,
    ev: spec_fn(Arithmetic) -> Real,
    group: int,
    replies: Seq<Seq<GpuOutput>>,
) -> bool {
    forall|k: int|
        0 <= k < replies.len() ==> #[trigger] replies[k] == group_outputs(
            group_ops(items, config, ev, k * group, group),
            carry_after(told(items.len() as int, group, replies.subrange(0, k)), config),
            ev,
        )
}

/// Whether a device draws a line for an item.
pub open spec fn draws(
    item: GenerationItem,
    config: Turtle2dConfig,
    ev: spec_fn(Arithmetic) -> Real,
) -> bool {
    device_op(item, config, ev) matches Ok(op) && op.draw != 0
}

/// An event visits a module, and draws a line where it should.
pub open spec fn visits_as(event: Event2d, index: int, line: bool) -> bool {
    event matches Event::Visited { index: own, emission, .. } && own == index && (emission is Line
        <==> line)
}

/// The events of some items, each of which visits its module.
spec fn visits_items(
    events: Seq<Event2d>,
    items: Seq<GenerationItem>,
    first: int,
    config: Turtle2dConfig,
    ev: spec_fn(Arithmetic) -> Real,
) -> bool {
    &&& events.len() == items.len() - first
    &&& forall|i: int|
        0 <= i < events.len() ==> visits_as(
            #[trigger] events[i],
            first + i,
            draws(items[first + i], config, ev),
        )
}

proof fn lemma_no_faults(
    items: Seq<GenerationItem>,
    config: Turtle2dConfig,
    ev: spec_fn(Arithmetic) -> Real,
    i: int,
)
    requires
        input_fault(items, config, ev) is None,
        0 <= i < items.len(),
    ensures
        item_fault(items[i], config, ev) is None,
    decreases items.len(),
{
    if i < items.len() - 1 {
        lemma_no_faults(items.drop_last(), config, ev, i);
    }
}

/// What the CPU does with items that a device can take.
proof fn lemma_cpu_visits(
    turtle: Turtle<TurtleState, Point2d>,
    items: Seq<GenerationItem>,
    first: int,
    config: Turtle2dConfig,
    ev: spec_fn(Arithmetic) -> Real,
)
    requires
        0 <= first <= items.len(),
        turtle.place.levels == seq![Level { items, next: first, restore: None::<TurtleState> }],
        turtle.place.progress.modules_processed == first,
        input_fault(items, config, ev) is None,
        planar_trace(turtle, config, ev).end is Ok,
    ensures
        visits_items(planar_trace(turtle, config, ev).events, items, first, config, ev),
    decreases items.len() - first,
{
    let labels = planar_labels();
    let visit = planar_visit(config, ev);
    let level = turtle.place.levels[0];
    assert(turtle.place.levels.last() == level);
    assert(turtle_valid(turtle));
    if first < items.len() {
        lemma_no_faults(items, config, ev, first);
        let (next, event) = moved(turtle, labels, visit)->Ok_0;
        lemma_move_shrinks(turtle, labels, visit);
        assert(next.place.levels =~= seq![
            Level { items, next: first + 1, restore: None::<TurtleState> },
        ]);
        lemma_cpu_visits(next, items, first + 1, config, ev);
        let events = planar_trace(turtle, config, ev).events;
        let rest = planar_trace(next, config, ev).events;
        assert(events =~= seq![event->Some_0] + rest);
        assert(visits_as(event->Some_0, first, draws(items[first], config, ev)));
        assert forall|i: int| 0 <= i < events.len() implies visits_as(
            #[trigger] events[i],
            first + i,
            draws(items[first + i], config, ev),
        ) by {
            if i > 0 {
                assert(events[i] == rest[i - 1]);
            }
        }
    } else {
        let (next, event) = moved(turtle, labels, visit)->Ok_0;
        lemma_move_shrinks(turtle, labels, visit);
        assert(event is None);
        assert(next.place.levels.len() == 0);
        assert(planar_trace(next, config, ev).events =~= Seq::empty());
    }
}

/// What a device says of the items in some groups.
proof fn lemma_device_draws(
    items: Seq<GenerationItem>,
    config: Turtle2dConfig,
    ev: spec_fn(Arithmetic) -> Real,
    group: int,
    replies: Seq<Seq<GpuOutput>>,
)
    requires
        group > 0,
        input_fault(items, config, ev) is None,
        replies.len() <= batch_count(items.len() as int, group),
        replies_computed(items, config, ev, group, replies),
    ensures
        ({
            let total = items.len() as int;
            let seen = told(total, group, replies);
            &&& seen.len() == if replies.len() * group <= total {
                replies.len() * group
            } else {
                total
            }
            &&& forall|i: int|
                0 <= i < seen.len() ==> ((#[trigger] seen[i]).draw != 0 <==> draws(
                    items[i],
                    config,
                    ev,
                ))
        }),
    decreases replies.len(),
{
    let total = items.len() as int;
    let n = replies.len() as int;
    if n == 0 {
        assert(n * group == 0) by (nonlinear_arith)
            requires
                n == 0,
        ;
    } else {
        let init = replies.drop_last();
        assert forall|k: int| 0 <= k < init.len() implies #[trigger] init[k] == group_outputs(
            group_ops(items, config, ev, k * group, group),
            carry_after(told(total, group, init.subrange(0, k)), config),
            ev,
        ) by {
            assert(init[k] == replies[k]);
            assert(init.subrange(0, k) =~= replies.subrange(0, k));
        }
        lemma_device_draws(items, config, ev, group, init);
        lemma_batch_starts(total, group, n);
        let start = (n - 1) * group;
        let before = told(total, group, init);
        let seen = told(total, group, replies);
        let last = replies[n - 1];
        let count = group_items(total, group, n - 1);
        let ops = group_ops(items, config, ev, start, group);
        assert(n - 1 + 1 == n);
        assert(before.len() == start);
        assert(last.len() == group);
        assert(seen =~= before + last.subrange(0, count));
        assert forall|i: int| 0 <= i < seen.len() implies ((#[trigger] seen[i]).draw != 0 <==> draws(
            items[i],
            config,
            ev,
        )) by {
            if i < start {
                assert(seen[i] == before[i]);
            } else {
                let m = i - start;
                assert(seen[i] == last[m]);
                assert(last[m].draw == ops[m].draw);
                lemma_no_faults(items, config, ev, i);
                assert(ops[m] == device_op(items[start + m], config, ev)->Ok_0);
            }
        }
    }
}

/// The indices of some visits.
pub open spec fn visited_indices(visits: Seq<(int, TurtleState)>) -> Seq<int> {
    visits.map_values(|v: (int, TurtleState)| v.0)
}

/// Events that visit the same modules, and draw for the same ones, have the
/// same indices.
proof fn lemma_same_indices(a: Seq<Event2d>, b: Seq<Event2d>, lines: spec_fn(int) -> bool)
    requires
        a.len() == b.len(),
        forall|i: int| 0 <= i < a.len() ==> visits_as(#[trigger] a[i], i, lines(i)),
        forall|i: int| 0 <= i < b.len() ==> visits_as(#[trigger] b[i], i, lines(i)),
    ensures
        indices_in(a) == indices_in(b),
        lines_in(a).len() == lines_in(b).len(),
        visited_indices(visits_in(a)) == visited_indices(visits_in(b)),
    decreases a.len(),
{
    if a.len() > 0 {
        let (x, y) = (a.drop_last(), b.drop_last());
        let n = a.len() - 1;
        assert forall|i: int| 0 <= i < x.len() implies visits_as(#[trigger] x[i], i, lines(i)) by {
            assert(x[i] == a[i]);
        }
        assert forall|i: int| 0 <= i < y.len() implies visits_as(#[trigger] y[i], i, lines(i)) by {
            assert(y[i] == b[i]);
        }
        lemma_same_indices(x, y, lines);
        assert(visits_as(a[n], n, lines(n)) && visits_as(b[n], n, lines(n)));
        assert(visited_indices(visits_in(a)) =~= visited_indices(visits_in(x)).push(n));
        assert(visited_indices(visits_in(b)) =~= visited_indices(visits_in(y)).push(n));
    } else {
        assert(visited_indices(visits_in(a)) =~= visited_indices(visits_in(b)));
    }
}

/// A device that computes every group as it should agrees with the CPU on
/// which modules were visited, in which order, and which of them drew a line.
pub proof fn device_and_cpu_visit_alike<
    D: Fn(DeviceStep) -> Result<(), DeviceFault>,
    U: Fn(Vec<EncodedOp>) -> Result<(), DeviceFault>,
    L: Fn(Vec<GpuOutput>, usize) -> Result<Vec<GpuOutput>, DeviceFault>,
    Q: Fn() -> Result<DeviceLimits, VisualizeError>,
>(
    before: TurtleDevice<D, U, L, Q>,
    after: TurtleDevice<D, U, L, Q>,
    generation: Generation,
    config: Turtle2dConfig,
    retained: Option<usize>,
    batch_size: usize,
    ev: spec_fn(Arithmetic) -> Real,
    log: Seq<Exchange<Turtle2dBatch>>,
    limits: DeviceLimits,
    replies: Seq<Seq<GpuOutput>>,
    summary: Turtle2dStreamSummary,
)
    requires
        ran_wholly(
            before,
            after,
            generation.0@,
            config,
            retained,
            batch_size,
            ev,
            log,
            limits,
            replies,
            summary,
        ),
        input_fault(generation.0@, config, ev) is None,
        replies_computed(
            generation.0@,
            config,
            ev,
            group_limit(generation.0@.len() as int, limits, retained),
            replies,
        ),
        planar_trace(planar_start(generation, config), config, ev).end is Ok,
    ensures
        ({
            let group = group_limit(generation.0@.len() as int, limits, retained);
            let on_device = output_events(
                told(generation.0@.len() as int, group, replies),
                config,
            );
            let on_cpu = planar_trace(planar_start(generation, config), config, ev).events;
            &&& on_device.len() == on_cpu.len()
            &&& indices_in(on_device) == indices_in(on_cpu)
            &&& visited_indices(visits_in(on_device)) == visited_indices(visits_in(on_cpu))
            &&& lines_in(on_device).len() == lines_in(on_cpu).len()
        }),
{
    let items = generation.0@;
    let total = items.len() as int;
    let group = group_limit(total, limits, retained);
    let outputs = told(total, group, replies);
    let on_device = output_events(outputs, config);
    let start = planar_start(generation, config);
    let on_cpu = planar_trace(start, config, ev).events;
    let lines = |i: int| draws(items[i], config, ev);
    lemma_cpu_visits(start, items, 0, config, ev);
    if total > 0 {
        lemma_device_draws(items, config, ev, group, replies);
    }
    assert forall|i: int| 0 <= i < on_device.len() implies visits_as(
        #[trigger] on_device[i],
        i,
        lines(i),
    ) by {
        assert(on_device[i] == output_event(i, outputs[i], config));
    }
    assert forall|i: int| 0 <= i < on_cpu.len() implies visits_as(
        #[trigger] on_cpu[i],
        i,
        lines(i),
    ) by {
        assert(visits_as(on_cpu[i], 0 + i, draws(items[0 + i], config, ev)));
    }
    lemma_same_indices(on_device, on_cpu, lines);
}

/// A run over nothing hands over nothing and has made no progress.
pub proof fn an_empty_run_does_nothing<
    D: Fn(DeviceStep) -> Result<(), DeviceFault>,
    U: Fn(Vec<EncodedOp>) -> Result<(), DeviceFault>,
    L: Fn(Vec<GpuOutput>, usize) -> Result<Vec<GpuOutput>, DeviceFault>,
    Q: Fn() -> Result<DeviceLimits, VisualizeError>,
>(
    before: TurtleDevice<D, U, L, Q>,
    after: TurtleDevice<D, U, L, Q>,
    config: Turtle2dConfig,
    retained: Option<usize>,
    batch_size: usize,
    ev: spec_fn(Arithmetic) -> Real,
    log: Seq<Exchange<Turtle2dBatch>>,
    limits: DeviceLimits,
    replies: Seq<Seq<GpuOutput>>,
    summary: Turtle2dStreamSummary,
)
    requires
        batch_size > 0,
        ran_wholly(
            before,
            after,
            Seq::empty(),
            config,
            retained,
            batch_size,
            ev,
            log,
            limits,
            replies,
            summary,
        ),
    ensures
        after.since(before).len() == 0,
        crate::outlet::handed(log).len() == 0,
        summary.progress == crate::walk::Turtle2dProgress::none(),
        summary.bounds is None,
{
    let group = group_limit(0, limits, retained);
    let outputs = told(0, group, replies);
    let events = output_events(outputs, config);
    assert(outputs.len() == 0);
    assert(events =~= Seq::empty());
    assert(lines_in(events) =~= Seq::empty());
    assert(batch_count(0, batch_size as int) == 0) by (nonlinear_arith)
        requires
            batch_size > 0,
            batch_count(0, batch_size as int) == (0 + batch_size as int - 1) / (batch_size as int),
    ;
}

} // verus!
