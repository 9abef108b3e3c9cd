//! Planar turtles whose commands are placed by a device, group by group.

use vstd::prelude::*;
use vstd::string::*;

use crate::config::Turtle2dConfig;
use crate::device::{
    act_done, act_ended, acts_in, all_done, did, group_acts, group_limit, group_stopped,
    group_turns, kernel_steps, lemma_asked_joins, lemma_nothing_asked, lemma_one_act, limits_in,
    opening_steps, plan_group, run_chunk, stopped_after, submitted, submitting, CudaStreamFailure,
    DeviceAct, DeviceFault, DeviceLimits, DeviceStep, Turn, TurtleDevice, BYTES_PER_ITEM,
};
use crate::error::{checked_increment, exhausted, invalid, resource_error, Failure, VisualizeError};
use crate::generation::{Generation, GenerationItem};
use crate::geometry::{Bounds2d, Line2d, StyledLine2d};
use crate::kind::{VisualizerBackend, VisualizerKind};
use crate::number::{answers, calculate, calculates, Arithmetic, Real, ONE_BITS};
use crate::outlet::{
    asked, called_off, delivered, handed, lemma_delivered_otherwise, lemma_listened,
    lemma_listening_starts, lemma_nothing_handed, lemma_sending_asks, lemma_sending_ends,
    lemma_sending_less, lemma_sending_otherwise, lemma_sending_starts, questions, quiet, sending,
    stopped_by_caller, undisturbed, Exchange, Outlet,
};
use crate::stream_2d::{
    batch_holds_2d, batch_refused_2d, bounds_after_2d, reserve_exact, Event2d, Turtle2dBatch,
    Turtle2dStreamSummary,
};
use crate::text::{quoted, quoted_text};
use crate::transform::{encode, encoded, idle_op, EncodedOp, GpuOutput, TurtleCarry};
use crate::turtle_2d::{classify_module, command_of, TurtleOp, TurtleState, VisitOutcome};
use crate::walk::{
    batch_count, batch_of, batch_pace, lemma_pace_at, lines_in, Emission, Event, Turtle2dProgress,
};

verus! {

/// What the device cannot take.
pub open spec fn unsupported(reason: Seq<char>) -> Failure {
    Failure::UnsupportedInput {
        visualizer: VisualizerKind::Turtle2d,
        backend: VisualizerBackend::Cuda,
        reason,
    }
}

pub open spec fn branch_unsupported() -> Failure {
    unsupported("branch state save/restore requires the CPU turtle backend"@)
}

fn branch_error() -> (r: VisualizeError)
    ensures
        r@ == branch_unsupported(),
{
    VisualizeError::UnsupportedInput {
        visualizer: VisualizerKind::Turtle2d,
        backend: VisualizerBackend::Cuda,
        reason: "branch state save/restore requires the CPU turtle backend".to_owned(),
    }
}

/// A command that only the complete turtle carries out.
pub open spec fn needs_complete_turtle(op: TurtleOp) -> bool {
    match op {
        TurtleOp::TurnAngleDelta(_) => true,
        TurtleOp::ColorSet(_) => true,
        TurtleOp::ColorDelta(_) => true,
        TurtleOp::Dot(_) => true,
        TurtleOp::PolygonBegin => true,
        TurtleOp::PolygonEnd => true,
        TurtleOp::Vertex => true,
        TurtleOp::Cut => true,
        _ => false,
    }
}

/// Why the device cannot take an item, if it cannot.
pub open spec fn item_fault(
    item: GenerationItem,
    config: Turtle2dConfig,
    ev: spec_fn(Arithmetic) -> Real,
) -> Option<Failure> {
    match item {
        GenerationItem::Branch(_) => Some(branch_unsupported()),
        GenerationItem::Module(module) => match command_of(module, config, ev) {
            Err(failure) => Some(failure),
            Ok(op) => if needs_complete_turtle(op) {
                Some(
                    unsupported(
                        "command "@ + quoted_text(module.name@)
                            + " requires the complete CPU turtle backend"@,
                    ),
                )
            } else {
                None
            },
        },
    }
}

/// Why the device cannot take some items: what the first such item says.
pub open spec fn input_fault(
    items: Seq<GenerationItem>,
    config: Turtle2dConfig,
    ev: spec_fn(Arithmetic) -> Real,
) -> Option<Failure>
    decreases items.len(),
{
    if items.len() == 0 {
        None
    } else {
        match input_fault(items.drop_last(), config, ev) {
            Some(failure) => Some(failure),
            None => item_fault(items.last(), config, ev),
        }
    }
}

proof fn lemma_fault_prefix(
    items: Seq<GenerationItem>,
    k: int,
    config: Turtle2dConfig,
    ev: spec_fn(Arithmetic) -> Real,
)
    requires
        0 <= k <= items.len(),
        input_fault(items.subrange(0, k), config, ev) is Some,
    ensures
        input_fault(items, config, ev) == input_fault(items.subrange(0, k), config, ev),
    decreases items.len() - k,
{
    if k < items.len() {
        assert(items.subrange(0, k + 1).drop_last() =~= items.subrange(0, k));
        lemma_fault_prefix(items, k + 1, config, ev);
    } else {
        assert(items.subrange(0, k) =~= items);
    }
}

/// Whether the device can take an input. The cancellation hook is asked before
/// every item.
pub fn preflight_cuda_input<
    F: Fn() -> bool,
    E: Fn(Turtle2dBatch) -> Result<(), VisualizeError>,
    C: Fn(Arithmetic) -> Real,
>(
    generation: &Generation,
    config: &Turtle2dConfig,
    outlet: &mut Outlet<Turtle2dBatch, F, E>,
    calc: &C,
) -> (r: Result<(), VisualizeError>)
    requires
        calculates(*calc),
        old(outlet).ready(),
    ensures
        final(outlet).ready(),
        final(outlet).follows(*old(outlet)),
        ({
            let log = final(outlet).since(*old(outlet));
            let fault = input_fault(generation.0@, *config, answers(*calc));
            &&& questions(log)
            &&& match r {
                Ok(()) => quiet(log) && log.len() == generation.0@.len() && fault is None,
                Err(error) => {
                    ||| called_off(log, old(outlet).sink()) && error@ == Failure::Cancelled
                    ||| quiet(log) && fault == Some(error@)
                },
            }
        }),
{
    let ghost entry = *outlet;
    proof {
        lemma_listening_starts(entry);
    }
    let items: &[GenerationItem] = generation.items();
    let ghost ev = answers(*calc);
    let mut i: usize = 0;
    assert(items@.subrange(0, 0) =~= Seq::empty());
    while i < items.len()
        invariant
            calculates(*calc),
            entry == *old(outlet),
            outlet.listening(entry),
            outlet.heard(entry) == i,
            ev == answers(*calc),
            items@ == generation.0@,
            i <= items@.len(),
            input_fault(items@.subrange(0, i as int), *config, ev) is None,
        decreases items@.len() - i,
    {
        let cancelled: bool = outlet.ask(Ghost(entry));
        proof {
            lemma_listened(entry, *outlet);
        }
        if cancelled {
            return Err(VisualizeError::Cancelled);
        }
        proof {
            assert(items@.subrange(0, i + 1).drop_last() =~= items@.subrange(0, i as int));
            if item_fault(items@[i as int], *config, ev) is Some {
                lemma_fault_prefix(items@, i + 1, *config, ev);
            }
        }
        match &items[i] {
            GenerationItem::Branch(_) => {
                return Err(branch_error());
            },
            GenerationItem::Module(module) => {
                let op: TurtleOp = match classify_module(module, config, calc) {
                    Ok(op) => op,
                    Err(error) => {
                        return Err(error);
                    },
                };
                let refused: bool = match op {
                    TurtleOp::TurnAngleDelta(_) => true,
                    TurtleOp::ColorSet(_) => true,
                    TurtleOp::ColorDelta(_) => true,
                    TurtleOp::Dot(_) => true,
                    TurtleOp::PolygonBegin => true,
                    TurtleOp::PolygonEnd => true,
                    TurtleOp::Vertex => true,
                    TurtleOp::Cut => true,
                    _ => false,
                };
                if refused {
                    let mut reason: String = "command ".to_owned();
                    let name: String = quoted(module.name.as_str());
                    reason.append(name.as_str());
                    reason.append(" requires the complete CPU turtle backend");
                    return Err(
                        VisualizeError::UnsupportedInput {
                            visualizer: VisualizerKind::Turtle2d,
                            backend: VisualizerBackend::Cuda,
                            reason,
                        },
                    );
                }
            },
        }
        i = i + 1;
    }
    assert(items@.subrange(0, i as int) =~= items@);
    proof {
        lemma_listened(entry, *outlet);
    }
    Ok(())
}

/// A command with turns by the configured angle spelled out.
pub open spec fn turned(op: TurtleOp, config: Turtle2dConfig, ev: spec_fn(Arithmetic) -> Real) -> TurtleOp {
    match op {
        TurtleOp::TurnDefault(direction) => TurtleOp::Turn(
            ev(Arithmetic::Product(config.turn_angle, direction)),
        ),
        _ => op,
    }
}

/// An item as the device reads it.
pub open spec fn device_op(
    item: GenerationItem,
    config: Turtle2dConfig,
    ev: spec_fn(Arithmetic) -> Real,
) -> Result<EncodedOp, Failure> {
    match item {
        GenerationItem::Branch(_) => Err(branch_unsupported()),
        GenerationItem::Module(module) => match command_of(module, config, ev) {
            Err(failure) => Err(failure),
            Ok(op) => Ok(encoded(turned(op, config, ev))),
        },
    }
}

fn encode_item<C: Fn(Arithmetic) -> Real>(
    item: &GenerationItem,
    config: &Turtle2dConfig,
    calc: &C,
) -> (r: Result<EncodedOp, VisualizeError>)
    requires
        calculates(*calc),
    ensures
        match r {
            Ok(op) => device_op(*item, *config, answers(*calc)) == Ok::<_, Failure>(op),
            Err(error) => device_op(*item, *config, answers(*calc)) == Err::<EncodedOp, _>(error@),
        },
{
    match item {
        GenerationItem::Branch(_) => Err(branch_error()),
        GenerationItem::Module(module) => {
            let op: TurtleOp = match classify_module(module, config, calc) {
                Ok(op) => op,
                Err(error) => {
                    return Err(error);
                },
            };
            let op: TurtleOp = match op {
                TurtleOp::TurnDefault(direction) => TurtleOp::Turn(
                    calculate(calc, Arithmetic::Product(config.turn_angle, direction)),
                ),
                _ => op,
            };
            Ok(encode(op))
        },
    }
}

/// The commands of a group, filled up with commands that do nothing.
pub open spec fn group_ops(
    items: Seq<GenerationItem>,
    config: Turtle2dConfig,
    ev: spec_fn(Arithmetic) -> Real,
    start: int,
    size: int,
) -> Seq<EncodedOp> {
    Seq::new(
        size as nat,
        |i: int|
            if start + i < items.len() {
                device_op(items[start + i], config, ev)->Ok_0
            } else {
                idle_op()
            },
    )
}

/// Encode a group.
fn encode_group<
    F: Fn() -> bool,
    E: Fn(Turtle2dBatch) -> Result<(), VisualizeError>,
    C: Fn(Arithmetic) -> Real,
>(
    items: &[GenerationItem],
    config: &Turtle2dConfig,
    start: usize,
    size: usize,
    started: bool,
    outlet: &mut Outlet<Turtle2dBatch, F, E>,
    calc: &C,
) -> (r: Result<Vec<EncodedOp>, CudaStreamFailure>)
    requires
        calculates(*calc),
        old(outlet).ready(),
        start < items@.len(),
        size > 0,
    ensures
        final(outlet).ready(),
        final(outlet).follows(*old(outlet)),
        questions(final(outlet).since(*old(outlet))),
        match r {
            Ok(ops) => {
                &&& quiet(final(outlet).since(*old(outlet)))
                &&& ops@ == group_ops(
                    items@,
                    *config,
                    answers(*calc),
                    start as int,
                    size as int,
                )
                &&& forall|i: int|
                    start <= i < start + size && i < items@.len() ==> device_op(
                        #[trigger] items@[i],
                        *config,
                        answers(*calc),
                    ) is Ok
            },
            Err(failure) => {
                &&& failure.started == started
                &&& {
                    ||| failure.error@ == Failure::Cancelled && called_off(
                        final(outlet).since(*old(outlet)),
                        old(outlet).sink(),
                    )
                    ||| quiet(final(outlet).since(*old(outlet))) && {
                        ||| failure.error@ == exhausted("CUDA turtle command group"@, size)
                        ||| exists|i: int|
                            0 <= i < items@.len() && #[trigger] device_op(
                                items@[i],
                                *config,
                                answers(*calc),
                            ) == Err::<EncodedOp, _>(failure.error@)
                    }
                }
            },
        },
{
    let ghost ev = answers(*calc);
    let ghost all = group_ops(items@, *config, ev, start as int, size as int);
    let ghost entry = *outlet;
    proof {
        lemma_listening_starts(entry);
        lemma_listened(entry, *outlet);
    }
    let mut ops: Vec<EncodedOp> = Vec::new();
    if !reserve_exact(&mut ops, size) {
        return Err(
            CudaStreamFailure {
                error: resource_error("CUDA turtle command group", size),
                started,
            },
        );
    }
    let mut i: usize = 0;
    while i < size && i < items.len() - start
        invariant
            calculates(*calc),
            entry == *old(outlet),
            outlet.listening(entry),
            ev == answers(*calc),
            all == group_ops(items@, *config, ev, start as int, size as int),
            start < items@.len(),
            i <= size,
            start + i <= items@.len(),
            ops@ == all.subrange(0, i as int),
            forall|k: int|
                start <= k < start + i ==> device_op(#[trigger] items@[k], *config, ev) is Ok,
        decreases size - i,
    {
        let cancelled: bool = outlet.ask(Ghost(entry));
        proof {
            lemma_listened(entry, *outlet);
        }
        if cancelled {
            return Err(CudaStreamFailure { error: VisualizeError::Cancelled, started });
        }
        match encode_item(&items[start + i], config, calc) {
            Ok(op) => {
                ops.push(op);
            },
            Err(error) => {
                assert(device_op(items@[start + i], *config, ev) == Err::<EncodedOp, _>(error@));
                return Err(CudaStreamFailure { error, started });
            },
        }
        i = i + 1;
        assert(ops@ =~= all.subrange(0, i as int));
    }
    proof {
        lemma_listened(entry, *outlet);
    }
    while i < size
        invariant
            all == group_ops(items@, *config, ev, start as int, size as int),
            i <= size,
            i < size ==> start + i >= items@.len(),
            ops@ == all.subrange(0, i as int),
        decreases size - i,
    {
        ops.push(EncodedOp::default());
        i = i + 1;
        assert(ops@ =~= all.subrange(0, i as int));
    }
    assert(ops@ =~= all);
    Ok(ops)
}

/// What the device says of a command makes sense.
pub open spec fn output_valid(output: GpuOutput) -> bool {
    let zero = Real { bits: 0 };
    &&& output.x0.finite() && output.y0.finite() && output.x1.finite() && output.y1.finite()
    &&& output.line_width.finite() && zero.at_most(output.line_width)
    &&& output.angle_after.finite() && output.scale_after.finite()
    &&& output.width_after.finite() && zero.at_most(output.width_after)
    &&& output.invert_after <= 1
    &&& output.draw <= 1
}

pub open spec fn output_fault() -> Failure {
    Failure::InvalidConfiguration("turtle_2d produced non-finite or invalid CUDA state"@)
}

pub fn validate_output(output: GpuOutput) -> (r: Result<(), VisualizeError>)
    ensures
        match r {
            Ok(()) => output_valid(output),
            Err(error) => !output_valid(output) && error@ == output_fault(),
        },
{
    let zero: Real = Real { bits: 0 };
    if output.x0.is_finite() && output.y0.is_finite() && output.x1.is_finite()
        && output.y1.is_finite() && output.line_width.is_finite() && zero.less_equal(
        output.line_width,
    ) && output.angle_after.is_finite() && output.scale_after.is_finite()
        && output.width_after.is_finite() && zero.less_equal(output.width_after)
        && output.invert_after <= 1 && output.draw <= 1 {
        Ok(())
    } else {
        Err(invalid("turtle_2d produced non-finite or invalid CUDA state"))
    }
}

impl TurtleCarry {
    pub open spec fn beginning(config: Turtle2dConfig) -> TurtleCarry {
        TurtleCarry {
            x: Real { bits: 0 },
            y: Real { bits: 0 },
            angle: config.initial_angle,
            scale: Real { bits: ONE_BITS },
            width: config.initial_width,
            invert: 0,
        }
    }

    pub open spec fn after(output: GpuOutput) -> TurtleCarry {
        TurtleCarry {
            x: output.x1,
            y: output.y1,
            angle: output.angle_after,
            scale: output.scale_after,
            width: output.width_after,
            invert: output.invert_after,
        }
    }

    pub fn initial(config: &Turtle2dConfig) -> (r: TurtleCarry)
        ensures
            r == TurtleCarry::beginning(*config),
    {
        TurtleCarry {
            x: Real { bits: 0 },
            y: Real { bits: 0 },
            angle: config.initial_angle,
            scale: Real { bits: ONE_BITS },
            width: config.initial_width,
            invert: 0,
        }
    }

    /// Go on from where a command has ended.
    pub fn update_from(&mut self, output: GpuOutput)
        ensures
            *final(self) == TurtleCarry::after(output),
    {
        self.x = output.x1;
        self.y = output.y1;
        self.angle = output.angle_after;
        self.scale = output.scale_after;
        self.width = output.width_after;
        self.invert = output.invert_after;
    }
}

/// The turtle after some commands.
pub open spec fn carry_after(outputs: Seq<GpuOutput>, config: Turtle2dConfig) -> TurtleCarry {
    if outputs.len() == 0 {
        TurtleCarry::beginning(config)
    } else {
        TurtleCarry::after(outputs.last())
    }
}

/// A turtle of which only the place is known.
pub open spec fn placed(output: GpuOutput, config: Turtle2dConfig) -> TurtleState {
    TurtleState { position: (output.x0, output.y0), ..TurtleState::initial(config) }
}

/// The line that a command drew.
pub open spec fn drawn(output: GpuOutput, config: Turtle2dConfig) -> StyledLine2d {
    StyledLine2d {
        line: Line2d((output.x0, output.y0), (output.x1, output.y1)),
        width: output.line_width,
        color: config.initial_color,
    }
}

/// A command as a processed item.
pub open spec fn output_event(index: int, output: GpuOutput, config: Turtle2dConfig) -> Event2d {
    Event::Visited {
        index,
        before: placed(output, config),
        emission: if output.draw != 0 {
            Emission::Line(drawn(output, config))
        } else {
            Emission::Nothing
        },
    }
}

/// Commands as processed items.
pub open spec fn output_events(outputs: Seq<GpuOutput>, config: Turtle2dConfig) -> Seq<Event2d> {
    Seq::new(outputs.len(), |i: int| output_event(i, outputs[i], config))
}

/// The progress after some commands.
pub open spec fn device_progress(events: Seq<Event2d>) -> Turtle2dProgress {
    Turtle2dProgress {
        items_processed: events.len() as usize,
        modules_processed: events.len() as usize,
        lines_emitted: lines_in(events).len() as usize,
        ..Turtle2dProgress::none()
    }
}

/// The batch that is being filled, and what has been counted.
struct Filling {
    batch: Turtle2dBatch,
    overall: Option<Bounds2d>,
    progress: Turtle2dProgress,
    batch_items: usize,
}

/// How far filling has come after some commands: so many batches were
/// delivered, and the rest is in the batch at hand.
spec fn filled(filling: Filling, events: Seq<Event2d>, size: int, sent: int) -> bool {
    &&& size > 0
    &&& 0 <= sent
    &&& sent * size <= events.len() < sent * size + size
    &&& filling.batch_items == events.len() - sent * size
    &&& filling.progress == device_progress(events)
    &&& filling.overall == bounds_after_2d(None, events)
    &&& batch_holds_2d(
        filling.batch,
        events.subrange(sent * size, events.len() as int),
        bounds_after_2d(None, events.subrange(0, sent * size)),
        filling.batch.progress,
    )
}

/// Which batch a device hands over at a place once it has placed some commands.
pub open spec fn right_device_batch(
    events: Seq<Event2d>,
    size: int,
) -> spec_fn(int, Turtle2dBatch) -> bool {
    |i: int, batch: Turtle2dBatch|
        batch_holds_2d(
            batch,
            batch_of(events, size, i),
            bounds_after_2d(None, events.subrange(0, i * size)),
            device_progress(
                events.subrange(
                    0,
                    if (i + 1) * size <= events.len() {
                        (i + 1) * size
                    } else {
                        events.len() as int
                    },
                ),
            ),
        )
}

/// Full batches stay right when more commands follow.
proof fn lemma_right_stays(events: Seq<Event2d>, longer: Seq<Event2d>, size: int, sent: int)
    requires
        size > 0,
        sent * size <= events.len() <= longer.len(),
        longer.subrange(0, events.len() as int) == events,
    ensures
        forall|i: int, b: Turtle2dBatch|
            0 <= i < sent && #[trigger] right_device_batch(events, size)(i, b)
                ==> right_device_batch(longer, size)(i, b),
{
    assert forall|i: int, b: Turtle2dBatch|
        0 <= i < sent && #[trigger] right_device_batch(events, size)(i, b) implies right_device_batch(
        longer,
        size,
    )(i, b) by {
        assert((i + 1) * size == i * size + size) by (nonlinear_arith);
        assert(i * size + size <= sent * size && 0 <= i * size) by (nonlinear_arith)
            requires
                0 <= i < sent,
                size > 0,
        ;
        let n = events.len() as int;
        assert forall|k: int| 0 <= k < n implies longer[k] == events[k] by {
            assert(longer.subrange(0, n)[k] == longer[k]);
        }
        assert(batch_of(longer, size, i) =~= batch_of(events, size, i));
        assert(longer.subrange(0, i * size) =~= events.subrange(0, i * size));
        assert(longer.subrange(0, (i + 1) * size) =~= events.subrange(0, (i + 1) * size));
    }
}

proof fn lemma_bounds_step(bounds: Option<Bounds2d>, events: Seq<Event2d>, event: Event2d)
    ensures
        events.push(event).drop_last() == events,
        events.push(event).last() == event,
{
    assert(events.push(event).drop_last() =~= events);
}

proof fn lemma_bounds_append(bounds: Option<Bounds2d>, a: Seq<Event2d>, b: Seq<Event2d>)
    ensures
        bounds_after_2d(bounds, a + b) == bounds_after_2d(bounds_after_2d(bounds, a), b),
    decreases b.len(),
{
    if b.len() == 0 {
        assert(a + b =~= a);
    } else {
        assert((a + b).drop_last() =~= a + b.drop_last());
        lemma_bounds_append(bounds, a, b.drop_last());
    }
}

proof fn lemma_lines_bounded(events: Seq<Event2d>)
    ensures
        lines_in(events).len() <= events.len(),
    decreases events.len(),
{
    if events.len() > 0 {
        lemma_lines_bounded(events.drop_last());
    }
}

/// Why a command that was placed cannot be handed on, whatever the caller does.
pub open spec fn output_refused(failure: Failure, size: usize) -> bool {
    ||| failure == output_fault()
    ||| batch_refused_2d(failure, size)
}

/// Take in one placed command, and deliver the batch when it is full.
#[verifier::rlimit(40)]
fn take_output<F: Fn() -> bool, E: Fn(Turtle2dBatch) -> Result<(), VisualizeError>>(
    filling: Filling,
    output: GpuOutput,
    config: &Turtle2dConfig,
    batch_size: usize,
    outlet: &mut Outlet<Turtle2dBatch, F, E>,
    Ghost(entry): Ghost<Outlet<Turtle2dBatch, F, E>>,
    Ghost(total): Ghost<int>,
    Ghost(seen): Ghost<Seq<GpuOutput>>,
    Ghost(sent): Ghost<int>,
) -> (r: Result<(Filling, Ghost<int>), VisualizeError>)
    requires
        filled(filling, output_events(seen, *config), batch_size as int, sent),
        seen.len() < total <= usize::MAX,
        sending(
            entry,
            *old(outlet),
            true,
            batch_pace(total, batch_size as int),
            right_device_batch(output_events(seen, *config), batch_size as int),
            sent,
            seen.len() + sent,
        ),
    ensures
        final(outlet).ready(),
        final(outlet).follows(entry),
        match r {
            Ok((after, now)) => {
                &&& output_valid(output)
                &&& filled(
                    after,
                    output_events(seen.push(output), *config),
                    batch_size as int,
                    now@,
                )
                &&& sending(
                    entry,
                    *final(outlet),
                    true,
                    batch_pace(total, batch_size as int),
                    right_device_batch(
                        output_events(seen.push(output), *config),
                        batch_size as int,
                    ),
                    now@,
                    seen.len() + 1 + now@,
                )
            },
            Err(error) => {
                let log = final(outlet).since(entry);
                &&& handed(log).len() * batch_size <= seen.len() + 1
                &&& delivered(
                    log,
                    true,
                    batch_pace(total, batch_size as int),
                    right_device_batch(
                        output_events(seen.push(output), *config),
                        batch_size as int,
                    ),
                    handed(log).len() as int,
                )
                &&& {
                    ||| stopped_by_caller(log, entry.sink(), error)
                    ||| undisturbed(log, entry.sink()) && output_refused(error@, batch_size)
                }
            },
        },
{
    let ghost size = batch_size as int;
    let ghost events = output_events(seen, *config);
    let ghost event = output_event(seen.len() as int, output, *config);
    let ghost next = events.push(event);
    let ghost rest = events.subrange(sent * size, events.len() as int);
    let ghost overall_before = bounds_after_2d(None, events.subrange(0, sent * size));
    let ghost pace = batch_pace(total, size);
    let ghost right = right_device_batch(next, size);
    let ghost many = seen.len() + sent + 1;
    proof {
        assert(next =~= output_events(seen.push(output), *config));
        lemma_bounds_step(None, events, event);
        lemma_bounds_step(None, rest, event);
        lemma_lines_bounded(events);
        lemma_lines_bounded(next);
        assert(next.subrange(0, events.len() as int) =~= events);
        lemma_right_stays(events, next, size, sent);
        lemma_sending_otherwise(
            entry,
            *outlet,
            true,
            pace,
            right_device_batch(events, size),
            right,
            sent,
            seen.len() + sent,
        );
        assert(0 <= sent * size) by (nonlinear_arith)
            requires
                0 <= sent,
                size > 0,
        ;
    }
    let cancelled: bool = outlet.ask_within(
        Ghost(entry),
        Ghost(true),
        Ghost(pace),
        Ghost(right),
        Ghost(sent),
        Ghost(seen.len() + sent),
    );
    if cancelled {
        return Err(VisualizeError::Cancelled);
    }
    proof {
        lemma_sending_ends(entry, *outlet, true, pace, right, sent, many);
    }
    match validate_output(output) {
        Ok(()) => {},
        Err(error) => {
            return Err(error);
        },
    }
    let mut filling: Filling = filling;
    let index: usize = filling.progress.modules_processed;
    match checked_increment(filling.progress.items_processed, "turtle processed-item counter") {
        Ok(count) => {
            filling.progress.items_processed = count;
        },
        Err(error) => {
            return Err(error);
        },
    }
    match checked_increment(index, "turtle processed-module counter") {
        Ok(count) => {
            filling.progress.modules_processed = count;
        },
        Err(error) => {
            return Err(error);
        },
    }
    let outcome: VisitOutcome = if output.draw != 0 {
        match checked_increment(filling.progress.lines_emitted, "turtle emitted-line counter") {
            Ok(count) => {
                filling.progress.lines_emitted = count;
            },
            Err(error) => {
                return Err(error);
            },
        }
        VisitOutcome::Line(
            StyledLine2d {
                line: Line2d((output.x0, output.y0), (output.x1, output.y1)),
                width: output.line_width,
                color: config.initial_color,
            },
        )
    } else {
        VisitOutcome::Nothing
    };
    let ghost shown = filling.batch.progress;
    filling.batch.record(
        index,
        (output.x0, output.y0),
        outcome,
        Ghost(placed(output, *config)),
        Ghost(rest),
        Ghost(overall_before),
        Ghost(shown),
    );
    filling.overall = filling.batch.overall_bounds;
    filling.batch_items = filling.batch_items + 1;
    let ghost rest_next = rest.push(event);
    proof {
        assert(rest_next =~= next.subrange(sent * size, next.len() as int));
        assert(next.subrange(0, sent * size) =~= events.subrange(0, sent * size));
        assert(next.subrange(0, sent * size) + rest_next =~= next);
        lemma_bounds_append(None, next.subrange(0, sent * size), rest_next);
        assert(filling.overall == bounds_after_2d(None, next));
        assert(filling.progress == device_progress(next));
    }
    if filling.batch_items < batch_size {
        return Ok((filling, Ghost(sent)));
    }
    let Filling { batch, overall, progress, batch_items: _ } = filling;
    let mut batch: Turtle2dBatch = batch;
    batch.progress = progress;
    let cancelled: bool = outlet.ask_within(
        Ghost(entry),
        Ghost(true),
        Ghost(pace),
        Ghost(right),
        Ghost(sent),
        Ghost(many),
    );
    if cancelled {
        return Err(VisualizeError::Cancelled);
    }
    proof {
        assert(batch_of(next, size, sent) =~= rest_next);
        assert((sent + 1) * size == sent * size + size) by (nonlinear_arith);
        assert(next.subrange(next.len() as int, next.len() as int) =~= Seq::empty());
        assert(next.subrange(0, next.len() as int) =~= next);
        lemma_pace_at(next.len() as int, sent, total, size);
        assert(right(sent, batch));
    }
    match outlet.hand_within(
        batch,
        Ghost(entry),
        Ghost(true),
        Ghost(pace),
        Ghost(right),
        Ghost(sent),
        Ghost(many + 1),
    ) {
        Ok(()) => {},
        Err(error) => {
            return Err(error);
        },
    }
    proof {
        lemma_sending_ends(entry, *outlet, true, pace, right, sent + 1, many + 1);
    }
    let fresh: Turtle2dBatch = match Turtle2dBatch::with_room(batch_size, overall, progress) {
        Ok(fresh) => fresh,
        Err(error) => {
            return Err(error);
        },
    };
    Ok((Filling { batch: fresh, overall, progress, batch_items: 0 }, Ghost(sent + 1)))
}

/// How many commands of a group are items of the generation.
pub open spec fn group_items(total: int, group: int, k: int) -> int {
    if (k + 1) * group <= total {
        group
    } else {
        total - k * group
    }
}

/// What the device said of the items in the first groups.
pub open spec fn told(total: int, group: int, replies: Seq<Seq<GpuOutput>>) -> Seq<GpuOutput>
    decreases replies.len(),
{
    if replies.len() == 0 {
        Seq::empty()
    } else {
        let k = replies.len() - 1;
        told(total, group, replies.drop_last()) + replies.last().subrange(
            0,
            group_items(total, group, k),
        )
    }
}

/// The size of the buffers that a device keeps before a group.
pub open spec fn kept_before(retained: Option<usize>, group: int, k: int) -> Option<usize> {
    if k == 0 {
        retained
    } else {
        Some(group as usize)
    }
}

/// What a device is asked for some groups, one after the other, each from
/// where the one before it ended.
pub open spec fn run_acts(
    items: Seq<GenerationItem>,
    config: Turtle2dConfig,
    ev: spec_fn(Arithmetic) -> Real,
    group: int,
    retained: Option<usize>,
    replies: Seq<Seq<GpuOutput>>,
) -> Seq<DeviceAct>
    decreases replies.len(),
{
    if replies.len() == 0 {
        Seq::empty()
    } else {
        let before = replies.drop_last();
        let k = before.len() as int;
        run_acts(items, config, ev, group, retained, before) + group_acts(
            group_ops(items, config, ev, k * group, group),
            carry_after(told(items.len() as int, group, before), config),
            kept_before(retained, group, k),
            Some(replies.last()),
        )
    }
}

/// What a device is asked in a run: what it can hold, where there is anything
/// to run, and then for the groups.
pub open spec fn run_log(
    items: Seq<GenerationItem>,
    config: Turtle2dConfig,
    ev: spec_fn(Arithmetic) -> Real,
    retained: Option<usize>,
    limits: DeviceLimits,
    replies: Seq<Seq<GpuOutput>>,
) -> Seq<DeviceAct> {
    if items.len() == 0 {
        Seq::empty()
    } else {
        seq![DeviceAct::Measured(Some(limits))] + run_acts(
            items,
            config,
            ev,
            group_limit(items.len() as int, limits, retained),
            retained,
            replies,
        )
    }
}

/// Plan the groups of a generation. The device is asked only where there is
/// something to run.
fn plan_groups<
    D: Fn(DeviceStep) -> Result<(), DeviceFault>,
    U: Fn(Vec<EncodedOp>) -> Result<(), DeviceFault>,
    L: Fn(Vec<GpuOutput>, usize) -> Result<Vec<GpuOutput>, DeviceFault>,
    Q: Fn() -> Result<DeviceLimits, VisualizeError>,
>(device: &mut TurtleDevice<D, U, L, Q>, total: usize, retained: Option<usize>) -> (r: Result<
    (usize, Ghost<DeviceLimits>),
    VisualizeError,
>)
    requires
        old(device).ready(),
    ensures
        final(device).ready(),
        final(device).follows(*old(device)),
        ({
            let acts = final(device).since(*old(device));
            match r {
                Ok((group, limits)) => if total == 0 {
                    group == 0 && acts.len() == 0
                } else {
                    &&& 0 < group <= u32::MAX
                    &&& group == group_limit(total as int, limits@, retained)
                    &&& acts == seq![DeviceAct::Measured(Some(limits@))]
                    &&& all_done(*old(device), acts)
                },
                Err(error) => total > 0 && {
                    ||| acts == seq![DeviceAct::Measured(None)] && call_ensures(
                        old(device).gauge(),
                        (),
                        Err::<DeviceLimits, VisualizeError>(error),
                    )
                    ||| exists|limits: DeviceLimits|
                        group_limit(total as int, limits, retained) == 0 && #[trigger] only_measured(acts, limits) && error@ == exhausted("CUDA turtle scratch memory"@, BYTES_PER_ITEM)
                },
            }
        }),
{
    let ghost start = *device;
    proof {
        lemma_nothing_asked(start);
    }
    if total == 0 {
        let ghost none = DeviceLimits { free_memory: 0, max_grid: 0 };
        return Ok((0, Ghost(none)));
    }
    let reply: Result<DeviceLimits, VisualizeError> = device.measure();
    proof {
        let act = DeviceAct::Measured(limits_in(reply));
        lemma_one_act(start, start, *device, act);
        assert(device.since(start) =~= seq![act]);
    }
    let limits: DeviceLimits = match reply {
        Ok(limits) => limits,
        Err(error) => {
            return Err(error);
        },
    };
    match plan_group(total, limits, retained) {
        Ok(group) => {
            assert(act_done(start, DeviceAct::Measured(Some(limits))));
            Ok((group, Ghost(limits)))
        },
        Err(error) => {
            assert(only_measured(device.since(start), limits));
            Err(error)
        },
    }
}

proof fn lemma_group_added(
    items: Seq<GenerationItem>,
    config: Turtle2dConfig,
    ev: spec_fn(Arithmetic) -> Real,
    group: int,
    retained: Option<usize>,
    replies: Seq<Seq<GpuOutput>>,
    reply: Seq<GpuOutput>,
    count: int,
)
    requires
        group > 0,
        replies.len() * group < items.len(),
        count == (if group <= items.len() - replies.len() * group {
            group
        } else {
            items.len() - replies.len() * group
        }),
    ensures
        run_acts(items, config, ev, group, retained, replies.push(reply)) == run_acts(
            items,
            config,
            ev,
            group,
            retained,
            replies,
        ) + group_acts(
            group_ops(items, config, ev, replies.len() * group, group),
            carry_after(told(items.len() as int, group, replies), config),
            kept_before(retained, group, replies.len() as int),
            Some(reply),
        ),
        told(items.len() as int, group, replies.push(reply)) == told(
            items.len() as int,
            group,
            replies,
        ) + reply.subrange(0, count),
        replies.len() * group + count == items.len() || replies.push(reply).len() * group
            == replies.len() * group + count,
{
    let k = replies.len() as int;
    let grown = replies.push(reply);
    assert(grown.drop_last() =~= replies);
    assert((k + 1) * group == k * group + group) by (nonlinear_arith);
    assert(group_items(items.len() as int, group, k) == count);
}

/// What was submitted in one of two parts was submitted.
pub(crate) proof fn lemma_submitted_joins(a: Seq<DeviceAct>, b: Seq<DeviceAct>)
    ensures
        submitted(a + b) == (submitted(a) || submitted(b)),
{
    let all = a + b;
    if submitted(a) {
        let i = choose|i: int| 0 <= i < a.len() && submitting(#[trigger] a[i]);
        assert(all[i] == a[i]);
    }
    if submitted(b) {
        let i = choose|i: int| 0 <= i < b.len() && submitting(#[trigger] b[i]);
        assert(all[a.len() + i] == b[i]);
    }
    if submitted(all) {
        let i = choose|i: int| 0 <= i < all.len() && submitting(#[trigger] all[i]);
        if i < a.len() {
            assert(a[i] == all[i]);
        } else {
            assert(b[i - a.len()] == all[i]);
        }
    }
}

/// A run has submitted a kernel exactly where a group has been run.
proof fn lemma_run_submitted(
    items: Seq<GenerationItem>,
    config: Turtle2dConfig,
    ev: spec_fn(Arithmetic) -> Real,
    retained: Option<usize>,
    limits: DeviceLimits,
    replies: Seq<Seq<GpuOutput>>,
)
    requires
        items.len() > 0,
    ensures
        submitted(run_log(items, config, ev, retained, limits, replies)) == (replies.len() > 0),
{
    let group = group_limit(items.len() as int, limits, retained);
    let head = seq![DeviceAct::Measured(Some(limits))];
    let acts = run_acts(items, config, ev, group, retained, replies);
    assert(!submitting(head[0]));
    lemma_submitted_joins(head, acts);
    if replies.len() > 0 {
        let before = replies.drop_last();
        let k = before.len() as int;
        let ops = group_ops(items, config, ev, k * group, group);
        let carry = carry_after(told(items.len() as int, group, before), config);
        let last = group_acts(ops, carry, kept_before(retained, group, k), Some(replies.last()));
        let length = ops.len() as usize;
        let opening = did(opening_steps(length, kept_before(retained, group, k)));
        let at = opening.len() as int + 1;
        assert(kernel_steps(length, carry)[0] == DeviceStep::EncodeHeading);
        assert(last[at] == DeviceAct::Did(DeviceStep::EncodeHeading));
        assert(submitting(last[at]));
        lemma_submitted_joins(run_acts(items, config, ev, group, retained, before), last);
    }
}

/// A complete run: what the device said of every item, and what was handed on.
pub open spec fn device_run<
    D: Fn(DeviceStep) -> Result<(), DeviceFault>,
    U: Fn(Vec<EncodedOp>) -> Result<(), DeviceFault>,
    L: Fn(Vec<GpuOutput>, usize) -> Result<Vec<GpuOutput>, DeviceFault>,
    Q: Fn() -> Result<DeviceLimits, VisualizeError>,
>(
    before: TurtleDevice<D, U, L, Q>,
    after: TurtleDevice<D, U, L, Q>,
    items: Seq<GenerationItem>,
    config: Turtle2dConfig,
    retained: Option<usize>,
    batch_size: usize,
    ev: spec_fn(Arithmetic) -> Real,
    log: Seq<Exchange<Turtle2dBatch>>,
    summary: Turtle2dStreamSummary,
) -> bool {
    exists|limits: DeviceLimits, replies: Seq<Seq<GpuOutput>>| #[trigger]
        ran_wholly(
            before,
            after,
            items,
            config,
            retained,
            batch_size,
            ev,
            log,
            limits,
            replies,
            summary,
        )
}

/// A complete run with the given limits and answers: the device was asked for
/// every group once, in order, and for nothing else.
pub open spec fn ran_wholly<
    D: Fn(DeviceStep) -> Result<(), DeviceFault>,
    U: Fn(Vec<EncodedOp>) -> Result<(), DeviceFault>,
    L: Fn(Vec<GpuOutput>, usize) -> Result<Vec<GpuOutput>, DeviceFault>,
    Q: Fn() -> Result<DeviceLimits, VisualizeError>,
>(
    before: TurtleDevice<D, U, L, Q>,
    after: TurtleDevice<D, U, L, Q>,
    items: Seq<GenerationItem>,
    config: Turtle2dConfig,
    retained: Option<usize>,
    batch_size: usize,
    ev: spec_fn(Arithmetic) -> Real,
    log: Seq<Exchange<Turtle2dBatch>>,
    limits: DeviceLimits,
    replies: Seq<Seq<GpuOutput>>,
    summary: Turtle2dStreamSummary,
) -> bool {
    let size = batch_size as int;
    let group = group_limit(items.len() as int, limits, retained);
    let outputs = told(items.len() as int, group, replies);
    let events = output_events(outputs, config);
    &&& after.since(before) == run_log(items, config, ev, retained, limits, replies)
    &&& all_done(before, after.since(before))
    &&& items.len() > 0 ==> group > 0 && replies.len() == batch_count(items.len() as int, group)
    &&& forall|k: int| 0 <= k < replies.len() ==> (#[trigger] replies[k]).len() == group
    &&& outputs.len() == items.len()
    &&& forall|i: int| 0 <= i < outputs.len() ==> output_valid(#[trigger] outputs[i])
    &&& summary.bounds == bounds_after_2d(None, events)
    &&& summary.progress == device_progress(events)
    &&& summary.backend_used == VisualizerBackend::Cuda
    &&& delivered(
        log,
        true,
        batch_pace(items.len() as int, size),
        right_device_batch(events, size),
        batch_count(events.len() as int, size),
    )
    &&& asked(log) >= items.len() + batch_count(events.len() as int, size)
}

/// Some acts are the first ones of a group.
pub open spec fn begins_group(
    acts: Seq<DeviceAct>,
    ops: Seq<EncodedOp>,
    carry: TurtleCarry,
    retained: Option<usize>,
) -> bool {
    exists|k: int, reply: Option<Seq<GpuOutput>>|
        0 <= k <= group_turns(ops, carry, retained, reply).len() && acts == #[trigger] acts_in(
            group_turns(ops, carry, retained, reply).subrange(0, k),
        )
}

/// A run had come this far: some groups were run, and the next was begun.
pub open spec fn went_so_far(
    acts: Seq<DeviceAct>,
    items: Seq<GenerationItem>,
    config: Turtle2dConfig,
    ev: spec_fn(Arithmetic) -> Real,
    retained: Option<usize>,
    limits: DeviceLimits,
    replies: Seq<Seq<GpuOutput>>,
    part: Seq<DeviceAct>,
) -> bool {
    let group = group_limit(items.len() as int, limits, retained);
    let k = replies.len() as int;
    &&& acts == run_log(items, config, ev, retained, limits, replies) + part
    &&& begins_group(
        part,
        group_ops(items, config, ev, k * group, group),
        carry_after(told(items.len() as int, group, replies), config),
        kept_before(retained, group, k),
    )
}

/// What a run that failed had asked of the device, and what it had handed on:
/// the first batches of what the device had said by then.
pub open spec fn device_handed(
    acts: Seq<DeviceAct>,
    items: Seq<GenerationItem>,
    config: Turtle2dConfig,
    retained: Option<usize>,
    batch_size: usize,
    ev: spec_fn(Arithmetic) -> Real,
    log: Seq<Exchange<Turtle2dBatch>>,
) -> bool {
    ||| {
        &&& acts.len() == 0 || items.len() > 0 && acts == seq![DeviceAct::Measured(None)]
        &&& questions(log)
    }
    ||| exists|limits: DeviceLimits, replies: Seq<Seq<GpuOutput>>, part: Seq<DeviceAct>| #[trigger]
        went_so_far(acts, items, config, ev, retained, limits, replies, part) && delivered(
            log,
            true,
            batch_pace(items.len() as int, batch_size as int),
            right_device_batch(
                output_events(
                    told(
                        items.len() as int,
                        group_limit(items.len() as int, limits, retained),
                        replies,
                    ),
                    config,
                ),
                batch_size as int,
            ),
            handed(log).len() as int,
        )
}

/// The device was asked what it can hold and launch, and nothing else.
pub open spec fn only_measured(acts: Seq<DeviceAct>, limits: DeviceLimits) -> bool {
    acts == seq![DeviceAct::Measured(Some(limits))]
}

/// The device had said that it can hold and launch so much.
pub open spec fn measured(acts: Seq<DeviceAct>, limits: DeviceLimits) -> bool {
    acts.len() > 0 && acts[0] == DeviceAct::Measured(Some(limits))
}

/// Why a run can fail whatever the caller does, by what the device had been
/// asked. The device is not asked anything where there is nothing to run.
pub open spec fn device_refusal<
    D: Fn(DeviceStep) -> Result<(), DeviceFault>,
    U: Fn(Vec<EncodedOp>) -> Result<(), DeviceFault>,
    L: Fn(Vec<GpuOutput>, usize) -> Result<Vec<GpuOutput>, DeviceFault>,
    Q: Fn() -> Result<DeviceLimits, VisualizeError>,
>(
    device: TurtleDevice<D, U, L, Q>,
    acts: Seq<DeviceAct>,
    items: Seq<GenerationItem>,
    config: Turtle2dConfig,
    retained: Option<usize>,
    batch_size: usize,
    ev: spec_fn(Arithmetic) -> Real,
    error: VisualizeError,
) -> bool {
    let total = items.len() as int;
    ||| acts.len() == 0 && batch_refused_2d(error@, first_room(total, batch_size))
    ||| total > 0 && acts == seq![DeviceAct::Measured(None)] && call_ensures(
        device.gauge(),
        (),
        Err::<DeviceLimits, VisualizeError>(error),
    )
    ||| total > 0 && exists|limits: DeviceLimits|
        group_limit(total, limits, retained) == 0 && #[trigger] only_measured(acts, limits) && error@ == exhausted("CUDA turtle scratch memory"@, BYTES_PER_ITEM)
    ||| total > 0 && exists|limits: DeviceLimits| #[trigger]
        measured(acts, limits) && error@ == exhausted(
            "CUDA turtle command group"@,
            group_limit(total, limits, retained) as usize,
        )
    ||| total > 0 && acts.len() > 0 && exists|i: int|
        0 <= i < items.len() && #[trigger] device_op(items[i], config, ev) == Err::<EncodedOp, _>(
            error@,
        )
    ||| total > 0 && exists|limits: DeviceLimits| #[trigger]
        measured(acts, limits) && act_ended(
            device,
            group_limit(total, limits, retained) as usize,
            acts.last(),
            error@,
        )
    ||| submitted(acts) && output_refused(error@, batch_size)
}

/// How many items the first batch of a run asks room for.
pub open spec fn first_room(total: int, batch_size: usize) -> usize {
    let first = if total > 0 {
        total
    } else {
        1
    };
    if first < batch_size {
        first as usize
    } else {
        batch_size
    }
}

/// Take in the placed commands of a group.
fn take_outputs<F: Fn() -> bool, E: Fn(Turtle2dBatch) -> Result<(), VisualizeError>>(
    filling: Filling,
    outputs: &Vec<GpuOutput>,
    count: usize,
    config: &Turtle2dConfig,
    batch_size: usize,
    outlet: &mut Outlet<Turtle2dBatch, F, E>,
    Ghost(entry): Ghost<Outlet<Turtle2dBatch, F, E>>,
    Ghost(total): Ghost<int>,
    Ghost(base): Ghost<Seq<GpuOutput>>,
    Ghost(sent): Ghost<int>,
) -> (r: Result<(Filling, Ghost<int>), VisualizeError>)
    requires
        filled(filling, output_events(base, *config), batch_size as int, sent),
        count <= outputs@.len(),
        base.len() + count <= total <= usize::MAX,
        sending(
            entry,
            *old(outlet),
            true,
            batch_pace(total, batch_size as int),
            right_device_batch(output_events(base, *config), batch_size as int),
            sent,
            base.len() + sent,
        ),
    ensures
        final(outlet).ready(),
        final(outlet).follows(entry),
        ({
            let all = base + outputs@.subrange(0, count as int);
            let pace = batch_pace(total, batch_size as int);
            let right = right_device_batch(output_events(all, *config), batch_size as int);
            match r {
                Ok((after, now)) => {
                    &&& forall|i: int| 0 <= i < count ==> output_valid(#[trigger] outputs@[i])
                    &&& filled(after, output_events(all, *config), batch_size as int, now@)
                    &&& sending(entry, *final(outlet), true, pace, right, now@, all.len() + now@)
                },
                Err(error) => {
                    let log = final(outlet).since(entry);
                    &&& delivered(log, true, pace, right, handed(log).len() as int)
                    &&& {
                        ||| stopped_by_caller(log, entry.sink(), error)
                        ||| undisturbed(log, entry.sink()) && output_refused(error@, batch_size)
                    }
                },
            }
        }),
{
    let mut filling: Filling = filling;
    let ghost mut sent: int = sent;
    let ghost all = base + outputs@.subrange(0, count as int);
    let ghost size = batch_size as int;
    let ghost pace = batch_pace(total, size);
    let mut i: usize = 0;
    proof {
        assert(base + outputs@.subrange(0, 0) =~= base);
        lemma_sending_ends(
            entry,
            *outlet,
            true,
            pace,
            right_device_batch(output_events(base, *config), size),
            sent,
            base.len() + sent,
        );
    }
    while i < count
        invariant
            outlet.ready(),
            outlet.follows(entry),
            i <= count,
            count <= outputs@.len(),
            base.len() + count <= total <= usize::MAX,
            size == batch_size,
            pace == batch_pace(total, size),
            all == base + outputs@.subrange(0, count as int),
            filled(
                filling,
                output_events(base + outputs@.subrange(0, i as int), *config),
                batch_size as int,
                sent,
            ),
            sending(
                entry,
                *outlet,
                true,
                pace,
                right_device_batch(
                    output_events(base + outputs@.subrange(0, i as int), *config),
                    size,
                ),
                sent,
                base.len() + i + sent,
            ),
            forall|k: int| 0 <= k < i ==> output_valid(#[trigger] outputs@[k]),
        decreases count - i,
    {
        let ghost seen = base + outputs@.subrange(0, i as int);
        assert(seen.push(outputs@[i as int]) =~= base + outputs@.subrange(0, i + 1));
        match take_output(
            filling,
            outputs[i],
            config,
            batch_size,
            outlet,
            Ghost(entry),
            Ghost(total),
            Ghost(seen),
            Ghost(sent),
        ) {
            Ok((next, now)) => {
                filling = next;
                proof {
                    sent = now@;
                }
            },
            Err(error) => {
                proof {
                    let log = outlet.since(entry);
                    let k = handed(log).len() as int;
                    let part = output_events(seen.push(outputs@[i as int]), *config);
                    let whole = output_events(all, *config);
                    assert(whole.subrange(0, part.len() as int) =~= part);
                    lemma_right_stays(part, whole, size, k);
                    lemma_delivered_otherwise(
                        log,
                        true,
                        pace,
                        right_device_batch(part, size),
                        right_device_batch(whole, size),
                        k,
                    );
                }
                return Err(error);
            },
        }
        i = i + 1;
    }
    Ok((filling, Ghost(sent)))
}

/// Hand over the last batch, if anything is left in it.
fn finish<F: Fn() -> bool, E: Fn(Turtle2dBatch) -> Result<(), VisualizeError>>(
    filling: Filling,
    batch_size: usize,
    outlet: &mut Outlet<Turtle2dBatch, F, E>,
    Ghost(entry): Ghost<Outlet<Turtle2dBatch, F, E>>,
    Ghost(events): Ghost<Seq<Event2d>>,
    Ghost(sent): Ghost<int>,
) -> (r: Result<Turtle2dStreamSummary, VisualizeError>)
    requires
        filled(filling, events, batch_size as int, sent),
        sending(
            entry,
            *old(outlet),
            true,
            batch_pace(events.len() as int, batch_size as int),
            right_device_batch(events, batch_size as int),
            sent,
            events.len() + sent,
        ),
    ensures
        final(outlet).ready(),
        final(outlet).follows(entry),
        ({
            let log = final(outlet).since(entry);
            let sink = entry.sink();
            &&& delivered(
                log,
                true,
                batch_pace(events.len() as int, batch_size as int),
                right_device_batch(events, batch_size as int),
                handed(log).len() as int,
            )
            &&& match r {
                Ok(summary) => {
                    &&& undisturbed(log, sink)
                    &&& handed(log).len() == batch_count(events.len() as int, batch_size as int)
                    &&& asked(log) >= events.len() + handed(log).len()
                    &&& summary.bounds == bounds_after_2d(None, events)
                    &&& summary.progress == device_progress(events)
                    &&& summary.backend_used == VisualizerBackend::Cuda
                },
                Err(error) => events.len() > 0 && stopped_by_caller(log, sink, error),
            }
        }),
{
    let ghost size = batch_size as int;
    let ghost total = events.len() as int;
    let ghost pace = batch_pace(total, size);
    let ghost right = right_device_batch(events, size);
    let ghost mut delivered_batches: int = sent;
    let ghost mut many: int = total + sent;
    let Filling { batch, overall, progress, batch_items } = filling;
    proof {
        assert(0 <= sent * size) by (nonlinear_arith)
            requires
                0 <= sent,
                size > 0,
        ;
        assert((sent + 1) * size == sent * size + size) by (nonlinear_arith);
    }
    if batch_items != 0 {
        let mut batch: Turtle2dBatch = batch;
        batch.progress = progress;
        let cancelled: bool = outlet.ask_within(
            Ghost(entry),
            Ghost(true),
            Ghost(pace),
            Ghost(right),
            Ghost(sent),
            Ghost(many),
        );
        if cancelled {
            return Err(VisualizeError::Cancelled);
        }
        proof {
            assert(batch_of(events, size, sent) =~= events.subrange(sent * size, total));
            assert(events.subrange(0, total) =~= events);
            lemma_pace_at(total, sent, total, size);
            assert(right(sent, batch));
            many = many + 1;
        }
        match outlet.hand_within(
            batch,
            Ghost(entry),
            Ghost(true),
            Ghost(pace),
            Ghost(right),
            Ghost(sent),
            Ghost(many),
        ) {
            Ok(()) => {},
            Err(error) => {
                return Err(error);
            },
        }
        proof {
            delivered_batches = sent + 1;
        }
    }
    proof {
        let n = batch_count(total, size);
        assert(n == if batch_items == 0 { sent } else { sent + 1 }) by (nonlinear_arith)
            requires
                n == (total + size - 1) / size,
                size > 0,
                sent * size <= total < sent * size + size,
                batch_items == total - sent * size,
        ;
        lemma_sending_ends(entry, *outlet, true, pace, right, delivered_batches, many);
    }
    Ok(
        Turtle2dStreamSummary {
            bounds: overall,
            progress,
            backend_used: VisualizerBackend::Cuda,
        },
    )
}

/// Run a generation on a device and hand its batches to a sink.
///
/// Once a group has been run, every failure counts as a failure of work that
/// had started; before that the sink is handed nothing. The sink gets the
/// batches in order, each once, and the hook is asked before every item and
/// directly before every batch.
#[verifier::rlimit(60)]
pub fn stream_cuda<
    F: Fn() -> bool,
    D: Fn(DeviceStep) -> Result<(), DeviceFault>,
    U: Fn(Vec<EncodedOp>) -> Result<(), DeviceFault>,
    L: Fn(Vec<GpuOutput>, usize) -> Result<Vec<GpuOutput>, DeviceFault>,
    Q: Fn() -> Result<DeviceLimits, VisualizeError>,
    E: Fn(Turtle2dBatch) -> Result<(), VisualizeError>,
    C: Fn(Arithmetic) -> Real,
>(
    device: &mut TurtleDevice<D, U, L, Q>,
    retained: &mut Option<usize>,
    generation: &Generation,
    config: &Turtle2dConfig,
    batch_size: usize,
    outlet: &mut Outlet<Turtle2dBatch, F, E>,
    calc: &C,
) -> (r: Result<Turtle2dStreamSummary, CudaStreamFailure>)
    requires
        calculates(*calc),
        old(device).ready(),
        batch_size > 0,
        old(outlet).ready(),
    ensures
        final(device).ready(),
        final(device).follows(*old(device)),
        final(outlet).ready(),
        final(outlet).follows(*old(outlet)),
        ({
            let log = final(outlet).since(*old(outlet));
            let acts = final(device).since(*old(device));
            let sink = old(outlet).sink();
            match r {
                Ok(summary) => {
                    &&& undisturbed(log, sink)
                    &&& device_run(
                        *old(device),
                        *final(device),
                        generation.0@,
                        *config,
                        *old(retained),
                        batch_size,
                        answers(*calc),
                        log,
                        summary,
                    )
                },
                Err(failure) => {
                    &&& failure.started == submitted(acts)
                    &&& !failure.started ==> questions(log)
                    &&& device_handed(
                        acts,
                        generation.0@,
                        *config,
                        *old(retained),
                        batch_size,
                        answers(*calc),
                        log,
                    )
                    &&& {
                        ||| stopped_by_caller(log, sink, failure.error)
                        ||| undisturbed(log, sink) && device_refusal(
                            *old(device),
                            acts,
                            generation.0@,
                            *config,
                            *old(retained),
                            batch_size,
                            answers(*calc),
                            failure.error,
                        )
                    }
                },
            }
        }),
        generation.0@.len() == 0 ==> *final(retained) == *old(retained),
{
    let items: &[GenerationItem] = generation.items();
    let total: usize = items.len();
    let ghost ev = answers(*calc);
    let ghost size = batch_size as int;
    let ghost entry = *outlet;
    let ghost first_device = *device;
    let ghost sink = outlet.sink();
    let ghost pace = batch_pace(total as int, size);
    let ghost mut seen: Seq<GpuOutput> = Seq::empty();
    let ghost mut sent: int = 0;
    let ghost mut replies: Seq<Seq<GpuOutput>> = Seq::empty();
    let ghost nothing = right_device_batch(output_events(seen, *config), size);
    proof {
        lemma_sending_starts(entry, true, pace, nothing);
        lemma_sending_ends(entry, *outlet, true, pace, nothing, 0, 0);
        lemma_nothing_handed(outlet.since(entry));
        lemma_nothing_asked(first_device);
    }
    let first: usize = if total > 0 {
        total
    } else {
        1
    };
    let room: usize = if first < batch_size {
        first
    } else {
        batch_size
    };
    let batch: Turtle2dBatch = match Turtle2dBatch::with_room(
        room,
        None,
        <Turtle2dProgress as Default>::default(),
    ) {
        Ok(batch) => batch,
        Err(error) => {
            assert(batch_refused_2d(error@, room));
            return Err(CudaStreamFailure { error, started: false });
        },
    };
    let ghost kept_first = *retained;
    let (group, planned): (usize, Ghost<DeviceLimits>) = match plan_groups(
        device,
        total,
        *retained,
    ) {
        Ok(plan) => plan,
        Err(error) => {
            proof {
                lemma_planning_failed(
                    first_device,
                    *device,
                    items@,
                    *config,
                    kept_first,
                    batch_size,
                    ev,
                    outlet.since(entry),
                    error,
                );
            }
            return Err(CudaStreamFailure { error, started: false });
        },
    };
    let ghost limits = planned@;
    let mut filling: Filling = Filling {
        batch,
        overall: None,
        progress: <Turtle2dProgress as Default>::default(),
        batch_items: 0,
    };
    let mut carry: TurtleCarry = TurtleCarry::initial(config);
    let mut start: usize = 0;
    let mut started: bool = false;
    proof {
        let none = output_events(seen, *config);
        assert(none =~= Seq::empty());
        assert(none.subrange(0, 0) =~= Seq::empty());
        assert(lines_in(none) =~= Seq::empty());
        assert(filled(filling, none, size, 0));
    }
    while start < total
        invariant
            calculates(*calc),
            device.ready(),
            ev == answers(*calc),
            size == batch_size,
            batch_size > 0,
            entry == *old(outlet),
            sink == entry.sink(),
            pace == batch_pace(total as int, size),
            total > 0 ==> group == group_limit(total as int, limits, kept_first),
            first_device == *old(device),
            kept_first == *old(retained),
            device.follows(first_device),
            device.since(first_device) == run_log(
                items@,
                *config,
                ev,
                kept_first,
                limits,
                replies,
            ),
            all_done(first_device, device.since(first_device)),
            forall|k: int| 0 <= k < replies.len() ==> (#[trigger] replies[k]).len() == group,
            total > 0 && replies.len() > 0 ==> *retained == Some(group),
            total > 0 && replies.len() == 0 ==> *retained == kept_first,
            start > 0 ==> replies.len() > 0,
            start <= replies.len() * group,
            replies.len() > 0 ==> (replies.len() - 1) * group < total,
            start == 0 ==> replies.len() == 0,
            sending(
                entry,
                *outlet,
                true,
                pace,
                right_device_batch(output_events(seen, *config), size),
                sent,
                seen.len() + sent,
            ),
            items@ == generation.0@,
            total == items@.len(),
            total > 0 ==> 0 < group <= u32::MAX,
            start <= total,
            start == seen.len(),
            started == (start > 0),
            start < total ==> start == replies.len() * group,
            carry == carry_after(seen, *config),
            seen == told(total as int, group as int, replies),
            filled(filling, output_events(seen, *config), size, sent),
            forall|i: int| 0 <= i < seen.len() ==> output_valid(#[trigger] seen[i]),
            total == 0 ==> *retained == *old(retained),
        decreases total - start,
    {
        let ghost right = right_device_batch(output_events(seen, *config), size);
        let ghost many = seen.len() + sent;
        let ghost so_far = device.since(first_device);
        proof {
            lemma_run_submitted(items@, *config, ev, kept_first, limits, replies);
            lemma_between_groups(
                so_far,
                items@,
                *config,
                ev,
                kept_first,
                limits,
                replies,
            );
            assert(measured(so_far, limits));
            if !started {
                assert(sent == 0) by (nonlinear_arith)
                    requires
                        0 <= sent,
                        sent * size <= 0,
                        size > 0,
                ;
            }
        }
        let cancelled: bool = outlet.ask_within(
            Ghost(entry),
            Ghost(true),
            Ghost(pace),
            Ghost(right),
            Ghost(sent),
            Ghost(many),
        );
        if cancelled {
            proof {
                if !started {
                    lemma_nothing_handed(outlet.since(entry));
                }
            }
            return Err(CudaStreamFailure { error: VisualizeError::Cancelled, started });
        }
        proof {
            lemma_sending_ends(entry, *outlet, true, pace, right, sent, many + 1);
        }
        let ghost middle = *outlet;
        let encoded: Result<Vec<EncodedOp>, CudaStreamFailure> = encode_group(
            items,
            config,
            start,
            group,
            started,
            outlet,
            calc,
        );
        proof {
            lemma_sending_asks(entry, middle, *outlet, true, pace, right, sent, many + 1);
            let more = outlet.since(middle).len() as int;
            if quiet(outlet.since(middle)) {
                lemma_sending_less(
                    entry,
                    *outlet,
                    true,
                    pace,
                    right,
                    sent,
                    many + 1 + more,
                    many,
                );
                lemma_sending_ends(entry, *outlet, true, pace, right, sent, many);
            }
            if !started {
                lemma_nothing_handed(outlet.since(entry));
            }
        }
        let ops: Vec<EncodedOp> = match encoded {
            Ok(ops) => ops,
            Err(failure) => {
                return Err(failure);
            },
        };
        let ghost given = ops@;
        let ghost kept = *retained;
        let ghost middle = *outlet;
        let ghost idle_device = *device;
        let ran: Result<Vec<GpuOutput>, CudaStreamFailure> = run_chunk(
            device,
            retained,
            ops,
            carry,
            outlet,
        );
        proof {
            lemma_sending_asks(entry, middle, *outlet, true, pace, right, sent, many);
            let more = outlet.since(middle).len() as int;
            if quiet(outlet.since(middle)) {
                lemma_sending_less(entry, *outlet, true, pace, right, sent, many + more, many);
                lemma_sending_ends(entry, *outlet, true, pace, right, sent, many);
            }
            if !started {
                lemma_nothing_handed(outlet.since(entry));
            }
            lemma_asked_joins(first_device, idle_device, *device);
        }
        let outputs: Vec<GpuOutput> = match ran {
            Ok(outputs) => outputs,
            Err(failure) => {
                proof {
                    let part = device.since(idle_device);
                    lemma_submitted_joins(so_far, part);
                    lemma_group_failed(
                        first_device,
                        idle_device,
                        *device,
                        items@,
                        *config,
                        kept_first,
                        batch_size,
                        ev,
                        limits,
                        replies,
                        outlet.since(middle),
                        sink,
                        failure,
                    );
                }
                return Err(
                    CudaStreamFailure { error: failure.error, started: started || failure.started },
                );
            },
        };
        started = true;
        let count: usize = if group <= total - start {
            group
        } else {
            total - start
        };
        proof {
            lemma_group_added(
                items@,
                *config,
                ev,
                group as int,
                kept_first,
                replies,
                outputs@,
                count as int,
            );
            let grown = replies.push(outputs@);
            assert(device.since(first_device) =~= run_log(
                items@,
                *config,
                ev,
                kept_first,
                limits,
                grown,
            ));
            lemma_run_submitted(items@, *config, ev, kept_first, limits, grown);
            lemma_between_groups(
                device.since(first_device),
                items@,
                *config,
                ev,
                kept_first,
                limits,
                grown,
            );
            assert(all_done(first_device, device.since(first_device))) by {
                lemma_done_joins(
                    first_device,
                    idle_device,
                    idle_device.since(first_device),
                    device.since(idle_device),
                );
            }
        }
        match take_outputs(
            filling,
            &outputs,
            count,
            config,
            batch_size,
            outlet,
            Ghost(entry),
            Ghost(total as int),
            Ghost(seen),
            Ghost(sent),
        ) {
            Ok((next, now)) => {
                filling = next;
                proof {
                    sent = now@;
                }
            },
            Err(error) => {
                return Err(CudaStreamFailure { error, started: true });
            },
        }
        carry.update_from(outputs[count - 1]);
        proof {
            let base = seen;
            let grown = replies.push(outputs@);
            assert(grown.len() * group == replies.len() * group + group) by (nonlinear_arith)
                requires
                    grown.len() == replies.len() + 1,
            ;
            seen = seen + outputs@.subrange(0, count as int);
            replies = replies.push(outputs@);
            assert(seen.last() == outputs@[count - 1]);
            assert forall|i: int| 0 <= i < seen.len() implies output_valid(#[trigger] seen[i]) by {
                if i < base.len() {
                    assert(seen[i] == base[i]);
                } else {
                    assert(seen[i] == outputs@[i - base.len()]);
                }
            }
        }
        start = start + count;
    }
    proof {
        if total > 0 {
            let (n, g, all) = (replies.len() as int, group as int, total as int);
            assert(n == batch_count(all, g)) by (nonlinear_arith)
                requires
                    g > 0,
                    n > 0,
                    (n - 1) * g < all <= n * g,
                    batch_count(all, g) == (all + g - 1) / g,
            ;
            lemma_run_submitted(items@, *config, ev, kept_first, limits, replies);
            lemma_between_groups(
                device.since(first_device),
                items@,
                *config,
                ev,
                kept_first,
                limits,
                replies,
            );
        }
    }
    let finished: Result<Turtle2dStreamSummary, VisualizeError> = finish(
        filling,
        batch_size,
        outlet,
        Ghost(entry),
        Ghost(output_events(seen, *config)),
        Ghost(sent),
    );
    match finished {
        Err(error) => Err(CudaStreamFailure { error, started }),
        Ok(summary) => {
            proof {
                assert(ran_wholly(
                    first_device,
                    *device,
                    items@,
                    *config,
                    kept_first,
                    batch_size,
                    ev,
                    outlet.since(entry),
                    limits,
                    replies,
                    summary,
                ));
            }
            Ok(summary)
        },
    }
}

/// What failing to plan comes to.
proof fn lemma_planning_failed<
    D: Fn(DeviceStep) -> Result<(), DeviceFault>,
    U: Fn(Vec<EncodedOp>) -> Result<(), DeviceFault>,
    L: Fn(Vec<GpuOutput>, usize) -> Result<Vec<GpuOutput>, DeviceFault>,
    Q: Fn() -> Result<DeviceLimits, VisualizeError>,
>(
    before: TurtleDevice<D, U, L, Q>,
    after: TurtleDevice<D, U, L, Q>,
    items: Seq<GenerationItem>,
    config: Turtle2dConfig,
    retained: Option<usize>,
    batch_size: usize,
    ev: spec_fn(Arithmetic) -> Real,
    log: Seq<Exchange<Turtle2dBatch>>,
    error: VisualizeError,
)
    requires
        items.len() > 0,
        log.len() == 0,
        ({
            let acts = after.since(before);
            ||| acts == seq![DeviceAct::Measured(None)] && call_ensures(
                before.gauge(),
                (),
                Err::<DeviceLimits, VisualizeError>(error),
            )
            ||| exists|limits: DeviceLimits|
                group_limit(items.len() as int, limits, retained) == 0 && #[trigger] only_measured(acts, limits) && error@ == exhausted("CUDA turtle scratch memory"@, BYTES_PER_ITEM)
        }),
    ensures
        !submitted(after.since(before)),
        device_handed(after.since(before), items, config, retained, batch_size, ev, log),
        device_refusal(
            before,
            after.since(before),
            items,
            config,
            retained,
            batch_size,
            ev,
            error,
        ),
{
    let acts = after.since(before);
    if acts == seq![DeviceAct::Measured(None)] {
        assert(!submitting(acts[0]));
    } else {
        let limits = choose|limits: DeviceLimits|
            group_limit(items.len() as int, limits, retained) == 0 && #[trigger] only_measured(acts, limits) && error@ == exhausted("CUDA turtle scratch memory"@, BYTES_PER_ITEM);
        let none = Seq::<Seq<GpuOutput>>::empty();
        lemma_run_submitted(items, config, ev, retained, limits, none);
        assert(run_log(items, config, ev, retained, limits, none) =~= acts);
        lemma_between_groups(acts, items, config, ev, retained, limits, none);
    }
}

/// Between two groups a run has come as far as it has.
proof fn lemma_between_groups(
    acts: Seq<DeviceAct>,
    items: Seq<GenerationItem>,
    config: Turtle2dConfig,
    ev: spec_fn(Arithmetic) -> Real,
    retained: Option<usize>,
    limits: DeviceLimits,
    replies: Seq<Seq<GpuOutput>>,
)
    requires
        acts == run_log(items, config, ev, retained, limits, replies),
    ensures
        went_so_far(acts, items, config, ev, retained, limits, replies, Seq::empty()),
{
    let group = group_limit(items.len() as int, limits, retained);
    let k = replies.len() as int;
    let ops = group_ops(items, config, ev, k * group, group);
    let carry = carry_after(told(items.len() as int, group, replies), config);
    let kept = kept_before(retained, group, k);
    let none = None::<Seq<GpuOutput>>;
    let turns = group_turns(ops, carry, kept, none);
    assert(turns.subrange(0, 0) =~= Seq::empty());
    assert(acts_in(turns.subrange(0, 0)) =~= Seq::empty());
    assert(acts + Seq::<DeviceAct>::empty() =~= acts);
}

/// Parts that a device did make up something that it did.
proof fn lemma_done_joins<
    D: Fn(DeviceStep) -> Result<(), DeviceFault>,
    U: Fn(Vec<EncodedOp>) -> Result<(), DeviceFault>,
    L: Fn(Vec<GpuOutput>, usize) -> Result<Vec<GpuOutput>, DeviceFault>,
    Q: Fn() -> Result<DeviceLimits, VisualizeError>,
>(
    first: TurtleDevice<D, U, L, Q>,
    later: TurtleDevice<D, U, L, Q>,
    a: Seq<DeviceAct>,
    b: Seq<DeviceAct>,
)
    requires
        later.same(first),
        all_done(first, a),
        all_done(later, b),
    ensures
        all_done(first, a + b),
{
    let all = a + b;
    assert forall|i: int| 0 <= i < all.len() implies act_done(first, #[trigger] all[i]) by {
        if i < a.len() {
            assert(all[i] == a[i]);
        } else {
            assert(all[i] == b[i - a.len()]);
            assert(act_done(later, b[i - a.len()]));
        }
    }
}

/// What a group that failed comes to for the run.
proof fn lemma_group_failed<
    D: Fn(DeviceStep) -> Result<(), DeviceFault>,
    U: Fn(Vec<EncodedOp>) -> Result<(), DeviceFault>,
    L: Fn(Vec<GpuOutput>, usize) -> Result<Vec<GpuOutput>, DeviceFault>,
    Q: Fn() -> Result<DeviceLimits, VisualizeError>,
    E: Fn(Turtle2dBatch) -> Result<(), VisualizeError>,
>(
    first: TurtleDevice<D, U, L, Q>,
    idle: TurtleDevice<D, U, L, Q>,
    now: TurtleDevice<D, U, L, Q>,
    items: Seq<GenerationItem>,
    config: Turtle2dConfig,
    retained: Option<usize>,
    batch_size: usize,
    ev: spec_fn(Arithmetic) -> Real,
    limits: DeviceLimits,
    replies: Seq<Seq<GpuOutput>>,
    log: Seq<Exchange<Turtle2dBatch>>,
    sink: E,
    failure: CudaStreamFailure,
)
    requires
        items.len() > 0,
        idle.same(first),
        group_limit(items.len() as int, limits, retained) > 0,
        idle.since(first) == run_log(items, config, ev, retained, limits, replies),
        now.since(first) == idle.since(first) + now.since(idle),
        ({
            let group = group_limit(items.len() as int, limits, retained);
            let k = replies.len() as int;
            group_stopped(
                idle,
                now,
                group_ops(items, config, ev, k * group, group),
                carry_after(told(items.len() as int, group, replies), config),
                kept_before(retained, group, k),
                log,
                sink,
                failure,
            )
        }),
    ensures
        failure.started == submitted(now.since(idle)),
        went_so_far(
            now.since(first),
            items,
            config,
            ev,
            retained,
            limits,
            replies,
            now.since(idle),
        ),
        called_off(log, sink) && failure.error@ == Failure::Cancelled || quiet(log)
            && device_refusal(
            first,
            now.since(first),
            items,
            config,
            retained,
            batch_size,
            ev,
            failure.error,
        ),
{
    let group = group_limit(items.len() as int, limits, retained);
    let n = replies.len() as int;
    let ops = group_ops(items, config, ev, n * group, group);
    let carry = carry_after(told(items.len() as int, group, replies), config);
    let kept = kept_before(retained, group, n);
    let length = ops.len() as usize;
    let (k, reply) = choose|k: int, reply: Option<Seq<GpuOutput>>|
        0 <= k <= group_turns(ops, carry, kept, reply).len() && #[trigger] stopped_after(
            idle,
            now,
            length,
            group_turns(ops, carry, kept, reply).subrange(0, k),
            log,
            sink,
            failure,
        );
    let turns = group_turns(ops, carry, kept, reply).subrange(0, k);
    let part = now.since(idle);
    assert(part == acts_in(turns));
    assert(begins_group(part, ops, carry, kept));
    match turns.last() {
        Turn::Ask => {},
        Turn::Act(act) => {
            assert(part.last() == act);
            assert(now.since(first).last() == act);
            assert(measured(now.since(first), limits));
            assert(act_ended(idle, length, act, failure.error@));
            lemma_same_ending(idle, first, length, act, failure.error@);
        },
    }
}

proof fn lemma_same_ending<
    D: Fn(DeviceStep) -> Result<(), DeviceFault>,
    U: Fn(Vec<EncodedOp>) -> Result<(), DeviceFault>,
    L: Fn(Vec<GpuOutput>, usize) -> Result<Vec<GpuOutput>, DeviceFault>,
    Q: Fn() -> Result<DeviceLimits, VisualizeError>,
>(
    device: TurtleDevice<D, U, L, Q>,
    other: TurtleDevice<D, U, L, Q>,
    length: usize,
    act: DeviceAct,
    failure: Failure,
)
    requires
        device.same(other),
        act_ended(device, length, act, failure),
    ensures
        act_ended(other, length, act, failure),
{
}

} // verus!
