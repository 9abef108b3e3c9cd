//! Choosing where a planar turtle runs, and what to do when a device fails.

use vstd::prelude::*;

use crate::config::Turtle2dConfig;
use crate::cuda::{
    device_handed, device_refusal, device_run, input_fault, output_events, preflight_cuda_input,
    ran_wholly, right_device_batch, stream_cuda, told, went_so_far,
};
use crate::device::{
    group_limit, lemma_nothing_asked, submitted, CudaStreamFailure, DeviceAct, DeviceFault,
    DeviceLimits, DeviceStep, TurtleDevice,
};
use crate::error::{Failure, VisualizeError};
use crate::generation::{Generation, GenerationItem};
use crate::kind::VisualizerBackend;
use crate::number::{answers, calculates, Arithmetic, Real};
use crate::outlet::{
    called_off, delivered, handed, handed_at, lemma_delivered_ahead, lemma_endings_join,
    lemma_logs_join, lemma_questions, lemma_since_joins, questions, quiet, stopped_by_caller,
    turned_away, undisturbed, Exchange, Outlet,
};
use crate::stream_2d::{
    lemma_refused_at_once, lemma_streamed_after_question, request_fault_2d, stream_cpu_validated,
    streamed_2d, validate_request, Turtle2dBatch, Turtle2dStreamRequest, Turtle2dStreamSummary,
};
use crate::transform::{EncodedOp, GpuOutput};
use crate::walk::{batch_count, batch_pace};

verus! {

/// A failure after which the device is not used again as it is.
pub open spec fn breaks_device(failure: Failure) -> bool {
    failure is BackendUnavailable || failure is BackendRuntime
}

/// A failure after which the CPU may begin anew: the device had not begun to
/// work, and it is the device that failed.
pub open spec fn may_restart(failure: Failure, started: bool) -> bool {
    !started && (breaks_device(failure) || failure is ResourceExhausted)
}

fn is_device_error(error: &VisualizeError) -> (r: bool)
    ensures
        r == breaks_device(error@),
{
    match error {
        VisualizeError::BackendUnavailable { .. } => true,
        VisualizeError::BackendRuntime { .. } => true,
        _ => false,
    }
}

fn allows_restart(failure: &CudaStreamFailure) -> (r: bool)
    ensures
        r == may_restart(failure.error@, failure.started),
{
    if failure.started {
        return false;
    }
    match &failure.error {
        VisualizeError::BackendUnavailable { .. } => true,
        VisualizeError::BackendRuntime { .. } => true,
        VisualizeError::ResourceExhausted { .. } => true,
        _ => false,
    }
}

/// A reusable turtle executor that retains backend state between requests.
///
/// `Auto` uses a device for its supported branch-free scalar input when one is
/// available, and otherwise runs the complete CPU implementation.
/// Structural and style commands rejected during preflight select the CPU
/// without beginning work on the device. It does not restart on the CPU after
/// a kernel has been submitted. Explicit `Cuda` requests never silently fall
/// back. The streamer retains a healthy device and its buffers between calls
/// and discards them after device errors.
#[derive(Debug)]
pub struct Turtle2dStreamer {
    /// Whether a device is open.
    pub open: bool,
    /// The size of the buffers that the open device keeps.
    pub retained: Option<usize>,
}

impl Turtle2dStreamer {
    /// Buffers are kept only while a device is open.
    pub open spec fn valid(self) -> bool {
        !self.open ==> self.retained is None
    }

    pub fn new() -> (r: Turtle2dStreamer)
        ensures
            r.valid(),
            !r.open,
            r.retained is None,
    {
        Turtle2dStreamer { open: false, retained: None }
    }

    fn discard(&mut self)
        ensures
            final(self).valid(),
            !final(self).open,
    {
        self.open = false;
        self.retained = None;
    }

    /// Run a request where no device can be had: `Auto` and `Cpu` run on the
    /// CPU, and `Cuda` is unavailable.
    pub fn stream<
        'a,
        F: Fn() -> bool,
        E: Fn(Turtle2dBatch) -> Result<(), VisualizeError>,
        C: Fn(Arithmetic) -> Real,
    >(
        &mut self,
        backend: VisualizerBackend,
        request: Turtle2dStreamRequest<'a>,
        outlet: &mut Outlet<Turtle2dBatch, F, E>,
        calc: &C,
    ) -> (r: Result<Turtle2dStreamSummary, VisualizeError>)
        requires
            old(self).valid(),
            calculates(*calc),
            old(outlet).ready(),
        ensures
            *final(self) == *old(self),
            final(outlet).ready(),
            final(outlet).follows(*old(outlet)),
            ({
                let log = final(outlet).since(*old(outlet));
                match request_fault_2d(request.config, request.batch_size) {
                    Some(fault) => {
                        &&& log.len() == 0
                        &&& r matches Err(error) && error@ == fault
                    },
                    None => if backend == VisualizerBackend::Cuda {
                        &&& r matches Err(error) && {
                            ||| log == seq![Exchange::<Turtle2dBatch>::Asked(true)] && error@
                                == Failure::Cancelled
                            ||| log == seq![Exchange::<Turtle2dBatch>::Asked(false)] && error@
                                == (Failure::BackendUnavailable { backend })
                        }
                    } else {
                        streamed_2d(
                            *request.generation,
                            request.config,
                            request.batch_size,
                            answers(*calc),
                            *old(outlet),
                            *final(outlet),
                            r,
                        )
                    },
                }
            }),
    {
        let ghost entry = *outlet;
        match validate_request(&request.config, request.batch_size, outlet) {
            Ok(()) => {},
            Err(error) => {
                proof {
                    lemma_refused_at_once(
                        *request.generation,
                        request.config,
                        request.batch_size,
                        answers(*calc),
                        entry,
                        *outlet,
                        error,
                    );
                }
                return Err(error);
            },
        }
        match backend {
            VisualizerBackend::Cuda => Err(VisualizeError::BackendUnavailable { backend }),
            _ => run_on_cpu(
                request.generation,
                &request.config,
                request.batch_size,
                outlet,
                calc,
                Ghost(entry),
            ),
        }
    }

    /// Run a request where a device may be had. `open` opens it.
    #[verifier::rlimit(40)]
    pub fn stream_on_device<
        'a,
        F: Fn() -> bool,
        O: Fn() -> Result<(), VisualizeError>,
        D: Fn(DeviceStep) -> Result<(), DeviceFault>,
        U: Fn(Vec<EncodedOp>) -> Result<(), DeviceFault>,
        L: Fn(Vec<GpuOutput>, usize) -> Result<Vec<GpuOutput>, DeviceFault>,
        Q: Fn() -> Result<DeviceLimits, VisualizeError>,
        E: Fn(Turtle2dBatch) -> Result<(), VisualizeError>,
        C: Fn(Arithmetic) -> Real,
    >(
        &mut self,
        backend: VisualizerBackend,
        request: Turtle2dStreamRequest<'a>,
        open: &O,
        device: &mut TurtleDevice<D, U, L, Q>,
        outlet: &mut Outlet<Turtle2dBatch, F, E>,
        calc: &C,
    ) -> (r: Result<Turtle2dStreamSummary, VisualizeError>)
        requires
            old(self).valid(),
            calculates(*calc),
            old(device).ready(),
            call_requires(*open, ()),
            old(outlet).ready(),
        ensures
            final(self).valid(),
            final(device).ready(),
            final(device).follows(*old(device)),
            final(outlet).ready(),
            final(outlet).follows(*old(outlet)),
            r matches Ok(summary) ==> (summary.backend_used == VisualizerBackend::Cuda
                ==> final(self).open),
            r matches Err(error) ==> (breaks_device(error@) && backend == VisualizerBackend::Cuda
                ==> !final(self).open),
            ({
                let log = final(outlet).since(*old(outlet));
                let acts = final(device).since(*old(device));
                let sink = old(outlet).sink();
                match request_fault_2d(request.config, request.batch_size) {
                    Some(fault) => {
                        &&& log.len() == 0
                        &&& acts.len() == 0
                        &&& r matches Err(error) && error@ == fault
                    },
                    None => log.len() > 0 && log[0] is Asked && {
                        ||| acts.len() == 0 && questions(log) && called_off(log, sink) && (
                        r matches Err(error) && error@ == Failure::Cancelled)
                        ||| runs_on_cpu_first(
                            backend,
                            *request.generation,
                            request.config,
                            answers(*calc),
                            old(self).open,
                            *open,
                            *old(device),
                            acts,
                            old(self).retained,
                            request.batch_size,
                        ) && streamed_2d(
                            *request.generation,
                            request.config,
                            request.batch_size,
                            answers(*calc),
                            *old(outlet),
                            *final(outlet),
                            r,
                        )
                        ||| backend != VisualizerBackend::Cpu && stays_off_cpu(
                            backend,
                            *request.generation,
                            request.config,
                            answers(*calc),
                            old(self).open,
                            *open,
                            *old(device),
                            *final(device),
                            old(self).retained,
                            request.batch_size,
                            log,
                            sink,
                            r,
                        )
                    },
                }
            }),
    {
        let ghost ev = answers(*calc);
        let ghost kept = self.retained;
        let ghost entry = *outlet;
        let ghost sink = outlet.sink();
        let ghost idle = *device;
        proof {
            lemma_nothing_asked(idle);
        }
        match validate_request(&request.config, request.batch_size, outlet) {
            Ok(()) => {},
            Err(error) => {
                proof {
                    lemma_one_question(entry, *outlet);
                }
                return Err(error);
            },
        }
        proof {
            lemma_one_question(entry, *outlet);
        }
        let automatic: bool = match backend {
            VisualizerBackend::Cpu => {
                return run_on_cpu(
                    request.generation,
                    &request.config,
                    request.batch_size,
                    outlet,
                    calc,
                    Ghost(entry),
                );
            },
            VisualizerBackend::Auto => true,
            VisualizerBackend::Cuda => false,
        };
        let ghost middle = *outlet;
        let checked: Result<(), VisualizeError> = preflight_cuda_input(
            request.generation,
            &request.config,
            outlet,
            calc,
        );
        proof {
            lemma_more_questions(entry, middle, *outlet);
        }
        match checked {
            Ok(()) => {},
            Err(error) => {
                let unsupported: bool = match &error {
                    VisualizeError::UnsupportedInput { .. } => true,
                    _ => false,
                };
                if automatic && unsupported {
                    return run_on_cpu(
                        request.generation,
                        &request.config,
                        request.batch_size,
                        outlet,
                        calc,
                        Ghost(entry),
                    );
                }
                if is_device_error(&error) {
                    self.discard();
                }
                return Err(error);
            },
        }
        if !self.open {
            let reply: Result<(), VisualizeError> = open();
            match reply {
                Ok(nothing) => {
                    assert(nothing == ());
                    assert(reply == Ok::<(), VisualizeError>(()));
                    self.open = true;
                },
                Err(error) => {
                    assert(call_ensures(*open, (), Err::<(), VisualizeError>(error)));
                    if automatic {
                        return run_on_cpu(
                            request.generation,
                            &request.config,
                            request.batch_size,
                            outlet,
                            calc,
                            Ghost(entry),
                        );
                    }
                    return Err(error);
                },
            }
        }
        let mut retained: Option<usize> = self.retained;
        let ghost middle = *outlet;
        let outcome: Result<Turtle2dStreamSummary, CudaStreamFailure> = stream_cuda(
            device,
            &mut retained,
            request.generation,
            &request.config,
            request.batch_size,
            outlet,
            calc,
        );
        self.retained = retained;
        proof {
            lemma_device_part(
                idle,
                *device,
                request.generation.0@,
                request.config,
                kept,
                request.batch_size,
                ev,
                entry,
                middle,
                *outlet,
                outcome,
            );
        }
        match outcome {
            Ok(summary) => Ok(summary),
            Err(failure) => {
                if is_device_error(&failure.error) {
                    self.discard();
                }
                if automatic && allows_restart(&failure) {
                    proof {
                        let log = outlet.since(entry);
                        assert(questions(log));
                        if turned_away(log, sink, failure.error) {
                            assert(log[log.len() - 1] is Asked);
                        }
                        assert(quiet(log));
                        assert(device_refusal(
                            idle,
                            device.since(idle),
                            request.generation.0@,
                            request.config,
                            kept,
                            request.batch_size,
                            ev,
                            failure.error,
                        ));
                    }
                    return run_on_cpu(
                        request.generation,
                        &request.config,
                        request.batch_size,
                        outlet,
                        calc,
                        Ghost(entry),
                    );
                }
                Err(failure.error)
            },
        }
    }
}

/// Run a request on the CPU after questions that did not call it off.
fn run_on_cpu<
    'a,
    F: Fn() -> bool,
    E: Fn(Turtle2dBatch) -> Result<(), VisualizeError>,
    C: Fn(Arithmetic) -> Real,
>(
    generation: &'a Generation,
    config: &'a Turtle2dConfig,
    batch_size: usize,
    outlet: &mut Outlet<Turtle2dBatch, F, E>,
    calc: &C,
    Ghost(entry): Ghost<Outlet<Turtle2dBatch, F, E>>,
) -> (r: Result<Turtle2dStreamSummary, VisualizeError>)
    requires
        calculates(*calc),
        batch_size > 0,
        old(outlet).ready(),
        old(outlet).follows(entry),
        questions(old(outlet).since(entry)),
        quiet(old(outlet).since(entry)),
    ensures
        final(outlet).ready(),
        final(outlet).follows(entry),
        final(outlet).since(entry).len() > 0 && final(outlet).since(entry)[0] is Asked,
        streamed_2d(*generation, *config, batch_size, answers(*calc), entry, *final(outlet), r),
{
    let ghost middle = *outlet;
    let r: Result<Turtle2dStreamSummary, VisualizeError> = stream_cpu_validated(
        generation,
        config,
        batch_size,
        outlet,
        calc,
    );
    proof {
        lemma_streamed_after_question(
            *generation,
            *config,
            batch_size,
            answers(*calc),
            entry,
            middle,
            *outlet,
            r,
        );
        let log = outlet.since(entry);
        if log[0] is Handed {
            assert(handed_at(log, 0));
        }
    }
    r
}

proof fn lemma_one_question<
    F: Fn() -> bool,
    E: Fn(Turtle2dBatch) -> Result<(), VisualizeError>,
>(before: Outlet<Turtle2dBatch, F, E>, after: Outlet<Turtle2dBatch, F, E>)
    ensures
        after.since(before) == seq![Exchange::<Turtle2dBatch>::Asked(true)] ==> questions(
            after.since(before),
        ) && called_off(after.since(before), before.sink()),
        after.since(before) == seq![Exchange::<Turtle2dBatch>::Asked(false)] ==> questions(
            after.since(before),
        ) && quiet(after.since(before)),
{
    let log = after.since(before);
    if log.len() == 1 {
        assert(log.drop_last() =~= Seq::empty());
    }
}

proof fn lemma_more_questions<
    F: Fn() -> bool,
    E: Fn(Turtle2dBatch) -> Result<(), VisualizeError>,
>(
    entry: Outlet<Turtle2dBatch, F, E>,
    middle: Outlet<Turtle2dBatch, F, E>,
    now: Outlet<Turtle2dBatch, F, E>,
)
    requires
        middle.follows(entry),
        now.follows(middle),
        questions(middle.since(entry)),
        quiet(middle.since(entry)),
        questions(now.since(middle)),
    ensures
        now.follows(entry),
        middle.since(entry).len() > 0 ==> now.since(entry).len() > 0,
        questions(now.since(entry)),
        quiet(now.since(middle)) ==> quiet(now.since(entry)),
        called_off(now.since(middle), entry.sink()) ==> called_off(now.since(entry), entry.sink()),
{
    let a = middle.since(entry);
    let b = now.since(middle);
    lemma_since_joins(entry, middle, now);
    lemma_questions(a, entry.sink());
    lemma_endings_join(a, b, entry.sink());
    lemma_logs_join(a, b);
}

/// What a device run comes to behind questions that did not call it off.
proof fn lemma_device_part<
    F: Fn() -> bool,
    D: Fn(DeviceStep) -> Result<(), DeviceFault>,
    U: Fn(Vec<EncodedOp>) -> Result<(), DeviceFault>,
    L: Fn(Vec<GpuOutput>, usize) -> Result<Vec<GpuOutput>, DeviceFault>,
    Q: Fn() -> Result<DeviceLimits, VisualizeError>,
    E: Fn(Turtle2dBatch) -> Result<(), VisualizeError>,
>(
    idle: TurtleDevice<D, U, L, Q>,
    device: TurtleDevice<D, U, L, Q>,
    items: Seq<GenerationItem>,
    config: Turtle2dConfig,
    retained: Option<usize>,
    batch_size: usize,
    ev: spec_fn(Arithmetic) -> Real,
    entry: Outlet<Turtle2dBatch, F, E>,
    middle: Outlet<Turtle2dBatch, F, E>,
    now: Outlet<Turtle2dBatch, F, E>,
    outcome: Result<Turtle2dStreamSummary, CudaStreamFailure>,
)
    requires
        middle.follows(entry),
        questions(middle.since(entry)),
        quiet(middle.since(entry)),
        now.follows(middle),
        match outcome {
            Ok(summary) => device_run(
                idle,
                device,
                items,
                config,
                retained,
                batch_size,
                ev,
                now.since(middle),
                summary,
            ),
            Err(failure) => {
                &&& !failure.started ==> questions(now.since(middle))
                &&& device_handed(
                    device.since(idle),
                    items,
                    config,
                    retained,
                    batch_size,
                    ev,
                    now.since(middle),
                )
            },
        },
    ensures
        now.follows(entry),
        middle.since(entry).len() > 0 ==> now.since(entry).len() > 0 && now.since(entry)[0]
            == middle.since(entry)[0],
        undisturbed(now.since(middle), entry.sink()) ==> undisturbed(
            now.since(entry),
            entry.sink(),
        ),
        forall|error: VisualizeError| #[trigger]
            stopped_by_caller(now.since(middle), entry.sink(), error) ==> stopped_by_caller(
                now.since(entry),
                entry.sink(),
                error,
            ),
        match outcome {
            Ok(summary) => device_run(
                idle,
                device,
                items,
                config,
                retained,
                batch_size,
                ev,
                now.since(entry),
                summary,
            ),
            Err(failure) => {
                &&& !failure.started ==> questions(now.since(entry))
                &&& device_handed(
                    device.since(idle),
                    items,
                    config,
                    retained,
                    batch_size,
                    ev,
                    now.since(entry),
                )
            },
        },
{
    let a = middle.since(entry);
    let b = now.since(middle);
    let total = items.len() as int;
    let size = batch_size as int;
    let pace = batch_pace(total, size);
    let acts = device.since(idle);
    lemma_since_joins(entry, middle, now);
    lemma_questions(a, entry.sink());
    lemma_endings_join(a, b, entry.sink());
    lemma_logs_join(a, b);
    assert(handed(a) + handed(b) =~= handed(b));
    match outcome {
        Ok(summary) => {
            let (limits, replies) = choose|limits: DeviceLimits, replies: Seq<Seq<GpuOutput>>|
             #[trigger]
                ran_wholly(
                    idle,
                    device,
                    items,
                    config,
                    retained,
                    batch_size,
                    ev,
                    b,
                    limits,
                    replies,
                    summary,
                );
            let group = group_limit(total, limits, retained);
            let events = output_events(told(total, group, replies), config);
            lemma_delivered_ahead(
                a,
                b,
                true,
                pace,
                right_device_batch(events, size),
                batch_count(events.len() as int, size),
            );
            assert(ran_wholly(
                idle,
                device,
                items,
                config,
                retained,
                batch_size,
                ev,
                a + b,
                limits,
                replies,
                summary,
            ));
        },
        Err(failure) => {
            if (acts.len() == 0 || total > 0 && acts == seq![DeviceAct::Measured(None)]) && questions(
                b,
            ) {
                assert(questions(a + b));
            } else {
                let (limits, replies, part) = choose|
                    limits: DeviceLimits,
                    replies: Seq<Seq<GpuOutput>>,
                    part: Seq<DeviceAct>,
                | #[trigger]
                    went_so_far(acts, items, config, ev, retained, limits, replies, part)
                        && delivered(
                        b,
                        true,
                        pace,
                        right_device_batch(
                            output_events(
                                told(total, group_limit(total, limits, retained), replies),
                                config,
                            ),
                            size,
                        ),
                        handed(b).len() as int,
                    );
                lemma_delivered_ahead(
                    a,
                    b,
                    true,
                    pace,
                    right_device_batch(
                        output_events(
                            told(total, group_limit(total, limits, retained), replies),
                            config,
                        ),
                        size,
                    ),
                    handed(b).len() as int,
                );
                assert(went_so_far(acts, items, config, ev, retained, limits, replies, part));
            }
        },
    }
}

/// A device was open, or it was opened.
pub open spec fn had_device<O: Fn() -> Result<(), VisualizeError>>(opened: bool, open: O) -> bool {
    !opened ==> call_ensures(open, (), Ok::<(), VisualizeError>(()))
}

/// When a request that may use a device is carried out by the CPU: the CPU was
/// asked for, or `Auto` found that the device cannot take the input, cannot be
/// opened, or failed before a kernel was submitted.
pub open spec fn runs_on_cpu_first<
    O: Fn() -> Result<(), VisualizeError>,
    D: Fn(DeviceStep) -> Result<(), DeviceFault>,
    U: Fn(Vec<EncodedOp>) -> Result<(), DeviceFault>,
    L: Fn(Vec<GpuOutput>, usize) -> Result<Vec<GpuOutput>, DeviceFault>,
    Q: Fn() -> Result<DeviceLimits, VisualizeError>,
>(
    backend: VisualizerBackend,
    generation: Generation,
    config: Turtle2dConfig,
    ev: spec_fn(Arithmetic) -> Real,
    opened: bool,
    open: O,
    device: TurtleDevice<D, U, L, Q>,
    acts: Seq<DeviceAct>,
    retained: Option<usize>,
    batch_size: usize,
) -> bool {
    let fault = input_fault(generation.0@, config, ev);
    ||| acts.len() == 0 && backend == VisualizerBackend::Cpu
    ||| acts.len() == 0 && backend == VisualizerBackend::Auto && fault is Some
        && fault->Some_0 is UnsupportedInput
    ||| acts.len() == 0 && backend == VisualizerBackend::Auto && fault is None && !opened && exists|
        error: VisualizeError,
    | #[trigger] call_ensures(open, (), Err::<(), VisualizeError>(error))
    ||| backend == VisualizerBackend::Auto && fault is None && had_device(opened, open)
        && !submitted(acts) && exists|error: VisualizeError| #[trigger]
        device_refusal(
            device,
            acts,
            generation.0@,
            config,
            retained,
            batch_size,
            ev,
            error,
        ) && may_restart(error@, false)
}

/// The outcome of a request that the CPU does not carry out.
///
/// What it handed over are batches of what the device said, in order.
pub open spec fn stays_off_cpu<
    O: Fn() -> Result<(), VisualizeError>,
    D: Fn(DeviceStep) -> Result<(), DeviceFault>,
    U: Fn(Vec<EncodedOp>) -> Result<(), DeviceFault>,
    L: Fn(Vec<GpuOutput>, usize) -> Result<Vec<GpuOutput>, DeviceFault>,
    Q: Fn() -> Result<DeviceLimits, VisualizeError>,
    E: Fn(Turtle2dBatch) -> Result<(), VisualizeError>,
>(
    backend: VisualizerBackend,
    generation: Generation,
    config: Turtle2dConfig,
    ev: spec_fn(Arithmetic) -> Real,
    opened: bool,
    open: O,
    before: TurtleDevice<D, U, L, Q>,
    after: TurtleDevice<D, U, L, Q>,
    retained: Option<usize>,
    batch_size: usize,
    log: Seq<Exchange<Turtle2dBatch>>,
    sink: E,
    outcome: Result<Turtle2dStreamSummary, VisualizeError>,
) -> bool {
    let fault = input_fault(generation.0@, config, ev);
    let acts = after.since(before);
    match outcome {
        Ok(summary) => {
            &&& fault is None
            &&& had_device(opened, open)
            &&& undisturbed(log, sink)
            &&& device_run(
                before,
                after,
                generation.0@,
                config,
                retained,
                batch_size,
                ev,
                log,
                summary,
            )
        },
        Err(error) => match fault {
            Some(fault) => {
                &&& acts.len() == 0
                &&& questions(log) && quiet(log)
                &&& error@ == fault
                &&& backend == VisualizerBackend::Auto ==> !(fault is UnsupportedInput)
            },
            None => {
                ||| acts.len() == 0 && backend == VisualizerBackend::Cuda && !opened && questions(log)
                    && quiet(log) && call_ensures(open, (), Err::<(), VisualizeError>(error))
                ||| {
                    &&& had_device(opened, open)
                    &&& device_handed(
                        acts,
                        generation.0@,
                        config,
                        retained,
                        batch_size,
                        ev,
                        log,
                    )
                    &&& {
                        ||| stopped_by_caller(log, sink, error)
                        ||| undisturbed(log, sink) && device_refusal(
                            before,
                            acts,
                            generation.0@,
                            config,
                            retained,
                            batch_size,
                            ev,
                            error,
                        ) && (backend == VisualizerBackend::Auto ==> !may_restart(
                            error@,
                            submitted(acts),
                        ))
                    }
                }
            },
        },
    }
}

/// Explicit `Cuda` requests never fall back: the CPU does not carry them out,
/// and one that succeeds was carried out by the device.
pub proof fn explicit_requests_never_fall_back<
    O: Fn() -> Result<(), VisualizeError>,
    D: Fn(DeviceStep) -> Result<(), DeviceFault>,
    U: Fn(Vec<EncodedOp>) -> Result<(), DeviceFault>,
    L: Fn(Vec<GpuOutput>, usize) -> Result<Vec<GpuOutput>, DeviceFault>,
    Q: Fn() -> Result<DeviceLimits, VisualizeError>,
    E: Fn(Turtle2dBatch) -> Result<(), VisualizeError>,
>(
    generation: Generation,
    config: Turtle2dConfig,
    ev: spec_fn(Arithmetic) -> Real,
    opened: bool,
    open: O,
    before: TurtleDevice<D, U, L, Q>,
    after: TurtleDevice<D, U, L, Q>,
    retained: Option<usize>,
    batch_size: usize,
    log: Seq<Exchange<Turtle2dBatch>>,
    sink: E,
    summary: Turtle2dStreamSummary,
)
    ensures
        !runs_on_cpu_first(
            VisualizerBackend::Cuda,
            generation,
            config,
            ev,
            opened,
            open,
            before,
            after.since(before),
            retained,
            batch_size,
        ),
        stays_off_cpu(
            VisualizerBackend::Cuda,
            generation,
            config,
            ev,
            opened,
            open,
            before,
            after,
            retained,
            batch_size,
            log,
            sink,
            Ok(summary),
        ) ==> summary.backend_used == VisualizerBackend::Cuda,
{
}

/// Work that a device has begun is never begun anew: where the CPU carries out
/// a request, no kernel was submitted.
pub proof fn started_work_is_not_restarted<
    O: Fn() -> Result<(), VisualizeError>,
    D: Fn(DeviceStep) -> Result<(), DeviceFault>,
    U: Fn(Vec<EncodedOp>) -> Result<(), DeviceFault>,
    L: Fn(Vec<GpuOutput>, usize) -> Result<Vec<GpuOutput>, DeviceFault>,
    Q: Fn() -> Result<DeviceLimits, VisualizeError>,
>(
    backend: VisualizerBackend,
    generation: Generation,
    config: Turtle2dConfig,
    ev: spec_fn(Arithmetic) -> Real,
    opened: bool,
    open: O,
    device: TurtleDevice<D, U, L, Q>,
    acts: Seq<DeviceAct>,
    retained: Option<usize>,
    batch_size: usize,
)
    requires
        runs_on_cpu_first(
            backend,
            generation,
            config,
            ev,
            opened,
            open,
            device,
            acts,
            retained,
            batch_size,
        ),
    ensures
        !submitted(acts),
{
}

} // verus!
