//! How one group of turtle commands is run on a device, step by step.

use vstd::prelude::*;

use crate::error::{exhausted, resource_error, Failure, VisualizeError};
use crate::kind::VisualizerBackend;
use crate::outlet::{
    called_off, lemma_listened, lemma_listening_starts, questions, quiet, Exchange, Outlet,
};
use crate::stream_2d::{reserve_exact, Turtle2dBatch};
use crate::transform::{EncodedOp, GpuOutput, TurtleCarry};

verus! {

/// How many threads a block of a launch has.
pub const CUDA_THREADS: u32 = 256;

/// How many commands a group has at most. This bounds how much a device holds
/// and how long a cancellation waits, not the size of a generation.
pub const CUDA_LATENCY_CEILING: usize = 262144;

/// A group may take one part in this many of the memory that is free.
pub const CUDA_MEMORY_FRACTION_DIVISOR: usize = 5;

/// The bytes that one command takes on a device in all buffers together.
pub const BYTES_PER_ITEM: usize = 232;

/// Why a device did not do what it was asked to do.
#[derive(Debug, Clone, PartialEq, Eq)]
pub struct DeviceFault {
    pub out_of_memory: bool,
    pub reason: String,
}

/// The buffers of a group.
#[derive(Debug, Clone, Copy, PartialEq, Eq, Structural)]
pub enum Buffer {
    Input,
    HeadingA,
    HeadingB,
    MotionA,
    MotionB,
    Output,
}

/// The programs that a device runs.
#[derive(Debug, Clone, Copy, PartialEq, Eq, Structural)]
pub enum Kernel {
    EncodeHeading,
    ScanHeading,
    EncodeMotion,
    ScanMotion,
    EmitGeometry,
}

/// What a device is asked to do. The scans go to and fro between two buffers,
/// and a step says whether its input is in the first of them.
#[derive(Debug, Clone, Copy, PartialEq, Eq, Structural)]
pub enum DeviceStep {
    Bind,
    /// Allocate a buffer. The buffers of a group of another size are given up
    /// before the first of the new ones, so that they are never held together.
    Allocate(Buffer, usize),
    /// Check that a kernel can be launched with this many blocks.
    Prepare(Kernel, u32),
    EncodeHeading,
    ScanHeading { from_first: bool, stride: u32 },
    EncodeMotion { headings_in_first: bool, carry: TurtleCarry },
    ScanMotion { from_first: bool, stride: u32 },
    EmitGeometry { headings_in_first: bool, motions_in_first: bool, carry: TurtleCarry },
}

/// A failed run, and whether a kernel had been submitted before it failed.
#[derive(Debug, PartialEq, Eq)]
pub struct CudaStreamFailure {
    pub error: VisualizeError,
    pub started: bool,
}

/// A failure of the device.
pub open spec fn runtime_failure(operation: Seq<char>, reason: Seq<char>) -> Failure {
    Failure::BackendRuntime { backend: VisualizerBackend::Cuda, operation, reason }
}

pub fn cuda_error(operation: &'static str, reason: String) -> (r: VisualizeError)
    ensures
        r@ == runtime_failure(operation@, reason@),
{
    VisualizeError::BackendRuntime { backend: VisualizerBackend::Cuda, operation, reason }
}

/// A failure to allocate: running out of memory is a lack of resources, and
/// anything else a failure of the device.
pub open spec fn allocation_failure(
    operation: Seq<char>,
    resource: Seq<char>,
    requested: usize,
    fault: DeviceFault,
) -> Failure {
    if fault.out_of_memory {
        exhausted(resource, requested)
    } else {
        runtime_failure(operation, fault.reason@)
    }
}

pub fn cuda_allocation_error(
    operation: &'static str,
    resource: &'static str,
    requested: usize,
    fault: DeviceFault,
) -> (r: VisualizeError)
    ensures
        r@ == allocation_failure(operation@, resource@, requested, fault),
{
    if fault.out_of_memory {
        resource_error(resource, requested)
    } else {
        cuda_error(operation, fault.reason)
    }
}

/// What allocating a buffer is called, and what the buffer is called.
pub open spec fn buffer_names(buffer: Buffer) -> (Seq<char>, Seq<char>) {
    match buffer {
        Buffer::Input => ("allocating turtle command input"@, "CUDA turtle command input"@),
        Buffer::HeadingA => ("allocating heading scan input"@, "CUDA heading scan input"@),
        Buffer::HeadingB => ("allocating heading scan scratch"@, "CUDA heading scan scratch"@),
        Buffer::MotionA => ("allocating motion scan input"@, "CUDA motion scan input"@),
        Buffer::MotionB => ("allocating motion scan scratch"@, "CUDA motion scan scratch"@),
        Buffer::Output => ("allocating turtle geometry output"@, "CUDA turtle geometry output"@),
    }
}

/// What a step is called when it fails.
pub open spec fn step_name(step: DeviceStep) -> Seq<char> {
    match step {
        DeviceStep::Bind => "binding the CUDA context"@,
        DeviceStep::Allocate(buffer, _) => buffer_names(buffer).0,
        DeviceStep::Prepare(Kernel::EncodeHeading, _) => "preparing heading encoding"@,
        DeviceStep::Prepare(Kernel::ScanHeading, _) => "preparing heading scan"@,
        DeviceStep::Prepare(Kernel::EncodeMotion, _) => "preparing motion encoding"@,
        DeviceStep::Prepare(Kernel::ScanMotion, _) => "preparing motion scan"@,
        DeviceStep::Prepare(Kernel::EmitGeometry, _) => "preparing geometry emission"@,
        DeviceStep::EncodeHeading => "encoding heading transforms"@,
        DeviceStep::ScanHeading { .. } => "scanning heading transforms"@,
        DeviceStep::EncodeMotion { .. } => "encoding turtle motion"@,
        DeviceStep::ScanMotion { .. } => "scanning turtle motion"@,
        DeviceStep::EmitGeometry { .. } => "emitting turtle geometry"@,
    }
}

/// A step that submits a kernel.
pub open spec fn submits(step: DeviceStep) -> bool {
    match step {
        DeviceStep::EncodeHeading => true,
        DeviceStep::ScanHeading { .. } => true,
        DeviceStep::EncodeMotion { .. } => true,
        DeviceStep::ScanMotion { .. } => true,
        DeviceStep::EmitGeometry { .. } => true,
        _ => false,
    }
}

/// The failure of a step.
pub open spec fn step_failure(step: DeviceStep, fault: DeviceFault) -> Failure {
    match step {
        DeviceStep::Allocate(buffer, size) => allocation_failure(
            buffer_names(buffer).0,
            buffer_names(buffer).1,
            size,
            fault,
        ),
        _ => runtime_failure(step_name(step), fault.reason@),
    }
}

fn step_error(step: DeviceStep, fault: DeviceFault) -> (r: CudaStreamFailure)
    ensures
        r.error@ == step_failure(step, fault),
        r.started == submits(step),
{
    match step {
        DeviceStep::Bind => unstarted("binding the CUDA context", fault),
        DeviceStep::Allocate(buffer, size) => {
            let (operation, resource): (&'static str, &'static str) = match buffer {
                Buffer::Input => ("allocating turtle command input", "CUDA turtle command input"),
                Buffer::HeadingA => ("allocating heading scan input", "CUDA heading scan input"),
                Buffer::HeadingB => (
                    "allocating heading scan scratch",
                    "CUDA heading scan scratch",
                ),
                Buffer::MotionA => ("allocating motion scan input", "CUDA motion scan input"),
                Buffer::MotionB => ("allocating motion scan scratch", "CUDA motion scan scratch"),
                Buffer::Output => (
                    "allocating turtle geometry output",
                    "CUDA turtle geometry output",
                ),
            };
            CudaStreamFailure {
                error: cuda_allocation_error(operation, resource, size, fault),
                started: false,
            }
        },
        DeviceStep::Prepare(kernel, _) => {
            match kernel {
                Kernel::EncodeHeading => unstarted("preparing heading encoding", fault),
                Kernel::ScanHeading => unstarted("preparing heading scan", fault),
                Kernel::EncodeMotion => unstarted("preparing motion encoding", fault),
                Kernel::ScanMotion => unstarted("preparing motion scan", fault),
                Kernel::EmitGeometry => unstarted("preparing geometry emission", fault),
            }
        },
        DeviceStep::EncodeHeading => begun("encoding heading transforms", fault),
        DeviceStep::ScanHeading { .. } => begun("scanning heading transforms", fault),
        DeviceStep::EncodeMotion { .. } => begun("encoding turtle motion", fault),
        DeviceStep::ScanMotion { .. } => begun("scanning turtle motion", fault),
        DeviceStep::EmitGeometry { .. } => begun("emitting turtle geometry", fault),
    }
}

fn unstarted(operation: &'static str, fault: DeviceFault) -> (r: CudaStreamFailure)
    ensures
        r.error@ == runtime_failure(operation@, fault.reason@),
        !r.started,
{
    CudaStreamFailure { error: cuda_error(operation, fault.reason), started: false }
}

fn begun(operation: &'static str, fault: DeviceFault) -> (r: CudaStreamFailure)
    ensures
        r.error@ == runtime_failure(operation@, fault.reason@),
        r.started,
{
    CudaStreamFailure { error: cuda_error(operation, fault.reason), started: true }
}

/// What a device can hold and launch.
#[derive(Debug, Clone, Copy, PartialEq, Eq, Structural)]
pub struct DeviceLimits {
    /// The memory that is free, in bytes, without what is kept for reuse.
    pub free_memory: usize,
    /// The most blocks that a launch may have.
    pub max_grid: u32,
}

/// The smaller of two numbers.
pub open spec fn least(a: int, b: int) -> int {
    if a < b {
        a
    } else {
        b
    }
}

/// How many commands a group may have, for what a device can hold and launch.
/// Buffers of a group that are kept for reuse count as free.
pub open spec fn group_limit(remaining: int, limits: DeviceLimits, retained: Option<usize>) -> int {
    let kept = match retained {
        Some(length) => if length * BYTES_PER_ITEM <= usize::MAX {
            length * BYTES_PER_ITEM
        } else {
            0
        },
        None => 0,
    };
    let free = least(limits.free_memory + kept, usize::MAX as int);
    let memory_items = free / (CUDA_MEMORY_FRACTION_DIVISOR as int) / (BYTES_PER_ITEM as int);
    let launch_items = least(limits.max_grid * CUDA_THREADS, usize::MAX as int);
    least(
        least(least(least(remaining, CUDA_LATENCY_CEILING as int), u32::MAX as int), launch_items),
        memory_items,
    )
}

/// Plan a group, or report that not even one command fits.
pub fn plan_group(remaining: usize, limits: DeviceLimits, retained: Option<usize>) -> (r: Result<
    usize,
    VisualizeError,
>)
    ensures
        match r {
            Ok(size) => if remaining == 0 {
                size == 0
            } else {
                size == group_limit(remaining as int, limits, retained) && size > 0
            },
            Err(error) => remaining > 0 && group_limit(remaining as int, limits, retained) == 0
                && error@ == exhausted("CUDA turtle scratch memory"@, BYTES_PER_ITEM),
        },
{
    if remaining == 0 {
        return Ok(0);
    }
    let kept: usize = match retained {
        Some(length) => match length.checked_mul(BYTES_PER_ITEM) {
            Some(bytes) => bytes,
            None => 0,
        },
        None => 0,
    };
    let free: usize = limits.free_memory.saturating_add(kept);
    let memory_items: usize = free / CUDA_MEMORY_FRACTION_DIVISOR / BYTES_PER_ITEM;
    let blocks: usize = limits.max_grid as usize;
    let launch_items: usize = match blocks.checked_mul(CUDA_THREADS as usize) {
        Some(items) => items,
        None => usize::MAX,
    };
    let mut planned: usize = remaining;
    if planned >= CUDA_LATENCY_CEILING {
        planned = CUDA_LATENCY_CEILING;
    }
    if planned >= launch_items {
        planned = launch_items;
    }
    if planned >= memory_items {
        planned = memory_items;
    }
    if planned == 0 {
        return Err(resource_error("CUDA turtle scratch memory", BYTES_PER_ITEM));
    }
    Ok(planned)
}

/// What a device was asked, and where it gave something back, what it answered.
pub enum DeviceAct {
    /// It was asked what it can hold and launch. `None` where it did not say.
    Measured(Option<DeviceLimits>),
    /// It was asked to do a step.
    Did(DeviceStep),
    /// It was handed these commands.
    Uploaded(Seq<EncodedOp>),
    /// It was asked for so many results. `None` where it gave none.
    Downloaded(usize, Option<Seq<GpuOutput>>),
}

/// The results in an answer, where it has some.
pub open spec fn results_in(reply: Result<Vec<GpuOutput>, DeviceFault>) -> Option<Seq<GpuOutput>> {
    match reply {
        Ok(outputs) => Some(outputs@),
        Err(_) => None,
    }
}

/// The limits in an answer, where it has some.
pub open spec fn limits_in(reply: Result<DeviceLimits, VisualizeError>) -> Option<DeviceLimits> {
    match reply {
        Ok(limits) => Some(limits),
        Err(_) => None,
    }
}

/// A device, by what it can be asked.
///
/// It is asked through this type alone, so what it records is all that was
/// asked, in order.
pub struct TurtleDevice<D, U, L, Q> {
    perform: D,
    upload: U,
    download: L,
    limits: Q,
    log: Ghost<Seq<DeviceAct>>,
}

impl<
    D: Fn(DeviceStep) -> Result<(), DeviceFault>,
    U: Fn(Vec<EncodedOp>) -> Result<(), DeviceFault>,
    L: Fn(Vec<GpuOutput>, usize) -> Result<Vec<GpuOutput>, DeviceFault>,
    Q: Fn() -> Result<DeviceLimits, VisualizeError>,
> TurtleDevice<D, U, L, Q> {
    /// What was asked so far, in order.
    pub closed spec fn log(self) -> Seq<DeviceAct> {
        self.log@
    }

    pub closed spec fn performer(self) -> D {
        self.perform
    }

    pub closed spec fn uploader(self) -> U {
        self.upload
    }

    pub closed spec fn downloader(self) -> L {
        self.download
    }

    pub closed spec fn gauge(self) -> Q {
        self.limits
    }

    /// A device answers whatever it is asked, and gives back as many results
    /// as were asked for.
    pub open spec fn ready(self) -> bool {
        &&& forall|step: DeviceStep| #[trigger] call_requires(self.performer(), (step,))
        &&& forall|ops: Vec<EncodedOp>| #[trigger] call_requires(self.uploader(), (ops,))
        &&& forall|room: Vec<GpuOutput>, count: usize| #[trigger]
            call_requires(self.downloader(), (room, count))
        &&& forall|room: Vec<GpuOutput>, count: usize, outputs: Vec<GpuOutput>| #[trigger]
            call_ensures(self.downloader(), (room, count), Ok::<_, DeviceFault>(outputs))
                ==> outputs@.len() == count
        &&& call_requires(self.gauge(), ())
    }

    /// The same device.
    pub open spec fn same(self, before: Self) -> bool {
        &&& self.performer() == before.performer()
        &&& self.uploader() == before.uploader()
        &&& self.downloader() == before.downloader()
        &&& self.gauge() == before.gauge()
    }

    /// The same device, perhaps after it was asked more.
    pub open spec fn follows(self, before: Self) -> bool {
        &&& self.same(before)
        &&& before.log().len() <= self.log().len()
        &&& self.log().subrange(0, before.log().len() as int) == before.log()
    }

    /// What was asked since an earlier moment.
    pub open spec fn since(self, before: Self) -> Seq<DeviceAct> {
        self.log().subrange(before.log().len() as int, self.log().len() as int)
    }

    /// A device that has not been asked anything. `perform` does a step;
    /// `upload` copies commands to the input buffer; `download` copies so many
    /// results from the output buffer into a vector that is empty and has room
    /// for them; `limits` says what the device can hold and launch.
    pub fn new(perform: D, upload: U, download: L, limits: Q) -> (r: Self)
        ensures
            r.performer() == perform,
            r.uploader() == upload,
            r.downloader() == download,
            r.gauge() == limits,
            r.log() == Seq::<DeviceAct>::empty(),
    {
        TurtleDevice { perform, upload, download, limits, log: Ghost(Seq::empty()) }
    }

    fn perform(&mut self, step: DeviceStep) -> (r: Result<(), DeviceFault>)
        requires
            old(self).ready(),
        ensures
            final(self).ready(),
            final(self).same(*old(self)),
            final(self).log() == old(self).log().push(DeviceAct::Did(step)),
            call_ensures(old(self).performer(), (step,), r),
    {
        let ghost before = *self;
        let perform: &D = &self.perform;
        assert(call_requires(self.performer(), (step,)));
        let reply: Result<(), DeviceFault> = perform(step);
        self.log = Ghost(self.log@.push(DeviceAct::Did(step)));
        proof {
            lemma_still_ready(before, *self);
        }
        reply
    }

    fn upload(&mut self, ops: Vec<EncodedOp>) -> (r: Result<(), DeviceFault>)
        requires
            old(self).ready(),
        ensures
            final(self).ready(),
            final(self).same(*old(self)),
            final(self).log() == old(self).log().push(DeviceAct::Uploaded(ops@)),
            call_ensures(old(self).uploader(), (ops,), r),
    {
        let ghost before = *self;
        let ghost given = ops;
        let upload: &U = &self.upload;
        assert(call_requires(self.uploader(), (ops,)));
        let reply: Result<(), DeviceFault> = upload(ops);
        self.log = Ghost(self.log@.push(DeviceAct::Uploaded(given@)));
        proof {
            lemma_still_ready(before, *self);
        }
        reply
    }

    fn download(&mut self, room: Vec<GpuOutput>, count: usize) -> (r: Result<
        Vec<GpuOutput>,
        DeviceFault,
    >)
        requires
            old(self).ready(),
        ensures
            final(self).ready(),
            final(self).same(*old(self)),
            final(self).log() == old(self).log().push(
                DeviceAct::Downloaded(count, results_in(r)),
            ),
            call_ensures(old(self).downloader(), (room, count), r),
    {
        let ghost before = *self;
        let ghost given = room;
        let download: &L = &self.download;
        assert(call_requires(self.downloader(), (room, count)));
        let reply: Result<Vec<GpuOutput>, DeviceFault> = download(room, count);
        self.log = Ghost(self.log@.push(DeviceAct::Downloaded(count, results_in(reply))));
        proof {
            lemma_still_ready(before, *self);
        }
        reply
    }

    /// Ask what the device can hold and launch.
    pub(crate) fn measure(&mut self) -> (r: Result<DeviceLimits, VisualizeError>)
        requires
            old(self).ready(),
        ensures
            final(self).ready(),
            final(self).same(*old(self)),
            final(self).log() == old(self).log().push(
                DeviceAct::Measured(limits_in(r)),
            ),
            call_ensures(old(self).gauge(), (), r),
    {
        let ghost before = *self;
        let limits: &Q = &self.limits;
        let reply: Result<DeviceLimits, VisualizeError> = limits();
        self.log = Ghost(self.log@.push(DeviceAct::Measured(limits_in(reply))));
        proof {
            lemma_still_ready(before, *self);
        }
        reply
    }
}

proof fn lemma_still_ready<
    D: Fn(DeviceStep) -> Result<(), DeviceFault>,
    U: Fn(Vec<EncodedOp>) -> Result<(), DeviceFault>,
    L: Fn(Vec<GpuOutput>, usize) -> Result<Vec<GpuOutput>, DeviceFault>,
    Q: Fn() -> Result<DeviceLimits, VisualizeError>,
>(before: TurtleDevice<D, U, L, Q>, after: TurtleDevice<D, U, L, Q>)
    requires
        before.ready(),
        after.same(before),
    ensures
        after.ready(),
{
    assert forall|step: DeviceStep| #[trigger] call_requires(after.performer(), (step,)) by {
        assert(call_requires(before.performer(), (step,)));
    }
    assert forall|ops: Vec<EncodedOp>| #[trigger] call_requires(after.uploader(), (ops,)) by {
        assert(call_requires(before.uploader(), (ops,)));
    }
    assert forall|room: Vec<GpuOutput>, count: usize| #[trigger]
        call_requires(after.downloader(), (room, count)) by {
        assert(call_requires(before.downloader(), (room, count)));
    }
}

/// Nothing was asked of a device since this moment.
pub(crate) proof fn lemma_nothing_asked<
    D: Fn(DeviceStep) -> Result<(), DeviceFault>,
    U: Fn(Vec<EncodedOp>) -> Result<(), DeviceFault>,
    L: Fn(Vec<GpuOutput>, usize) -> Result<Vec<GpuOutput>, DeviceFault>,
    Q: Fn() -> Result<DeviceLimits, VisualizeError>,
>(device: TurtleDevice<D, U, L, Q>)
    ensures
        device.follows(device),
        device.since(device) == Seq::<DeviceAct>::empty(),
{
    assert(device.log().subrange(0, device.log().len() as int) =~= device.log());
    assert(device.since(device) =~= Seq::empty());
}

/// What was asked since a moment is what was asked up to a later one, and then
/// what was asked since that.
pub(crate) proof fn lemma_asked_joins<
    D: Fn(DeviceStep) -> Result<(), DeviceFault>,
    U: Fn(Vec<EncodedOp>) -> Result<(), DeviceFault>,
    L: Fn(Vec<GpuOutput>, usize) -> Result<Vec<GpuOutput>, DeviceFault>,
    Q: Fn() -> Result<DeviceLimits, VisualizeError>,
>(start: TurtleDevice<D, U, L, Q>, middle: TurtleDevice<D, U, L, Q>, end: TurtleDevice<D, U, L, Q>)
    requires
        middle.follows(start),
        end.follows(middle),
    ensures
        end.follows(start),
        end.since(start) == middle.since(start) + end.since(middle),
{
    let a = start.log().len() as int;
    let b = middle.log().len() as int;
    assert(end.log().subrange(0, a) =~= end.log().subrange(0, b).subrange(0, a));
    assert forall|i: int| a <= i < b implies end.log()[i] == middle.log()[i] by {
        assert(end.log().subrange(0, b)[i] == middle.log()[i]);
    }
    assert(end.since(start) =~= middle.since(start) + end.since(middle));
}

/// A device was asked one thing more.
pub(crate) proof fn lemma_one_act<
    D: Fn(DeviceStep) -> Result<(), DeviceFault>,
    U: Fn(Vec<EncodedOp>) -> Result<(), DeviceFault>,
    L: Fn(Vec<GpuOutput>, usize) -> Result<Vec<GpuOutput>, DeviceFault>,
    Q: Fn() -> Result<DeviceLimits, VisualizeError>,
>(start: TurtleDevice<D, U, L, Q>, before: TurtleDevice<D, U, L, Q>, after: TurtleDevice<D, U, L, Q>, act: DeviceAct)
    requires
        before.follows(start),
        after.same(before),
        after.log() == before.log().push(act),
    ensures
        after.follows(start),
        after.since(start) == before.since(start).push(act),
{
    let n = start.log().len() as int;
    assert(after.log().subrange(0, n) =~= before.log().subrange(0, n));
    assert(after.since(start) =~= before.since(start).push(act));
}

/// The steps of a heading scan from a stride on, and where its result is.
pub open spec fn scan_steps(length: int, stride: int, from_first: bool, headings: bool) -> Seq<
    DeviceStep,
>
    decreases crate::transform::rest_of(length, stride),
    when stride > 0
{
    if stride >= length {
        Seq::empty()
    } else {
        seq![
            if headings {
                DeviceStep::ScanHeading { from_first, stride: stride as u32 }
            } else {
                DeviceStep::ScanMotion { from_first, stride: stride as u32 }
            },
        ] + scan_steps(length, 2 * stride, !from_first, headings)
    }
}

/// Whether a scan from a stride on leaves its result in the first buffer.
pub open spec fn result_in_first(length: int, stride: int, from_first: bool) -> bool
    decreases crate::transform::rest_of(length, stride),
    when stride > 0
{
    if stride >= length {
        from_first
    } else {
        result_in_first(length, 2 * stride, !from_first)
    }
}

/// How many blocks a launch for so many commands has.
pub open spec fn blocks_for(length: int) -> u32 {
    ((length + CUDA_THREADS - 1) / (CUDA_THREADS as int)) as u32
}

/// The steps that make room for a group, where the room kept has another size.
pub open spec fn room_steps(length: usize, retained: Option<usize>) -> Seq<DeviceStep> {
    if retained == Some(length) {
        Seq::empty()
    } else {
        seq![
            DeviceStep::Allocate(Buffer::Input, length),
            DeviceStep::Allocate(Buffer::HeadingA, length),
            DeviceStep::Allocate(Buffer::HeadingB, length),
            DeviceStep::Allocate(Buffer::MotionA, length),
            DeviceStep::Allocate(Buffer::MotionB, length),
            DeviceStep::Allocate(Buffer::Output, length),
        ]
    }
}

/// The steps before the commands are uploaded.
pub open spec fn opening_steps(length: usize, retained: Option<usize>) -> Seq<DeviceStep> {
    let blocks = blocks_for(length as int);
    seq![DeviceStep::Bind] + room_steps(length, retained) + seq![
        DeviceStep::Prepare(Kernel::EncodeHeading, blocks),
        DeviceStep::Prepare(Kernel::ScanHeading, blocks),
        DeviceStep::Prepare(Kernel::EncodeMotion, blocks),
        DeviceStep::Prepare(Kernel::ScanMotion, blocks),
        DeviceStep::Prepare(Kernel::EmitGeometry, blocks),
    ]
}

/// The steps between the upload and the download.
pub open spec fn kernel_steps(length: usize, carry: TurtleCarry) -> Seq<DeviceStep> {
    let in_first = result_in_first(length as int, 1, true);
    seq![DeviceStep::EncodeHeading] + scan_steps(length as int, 1, true, true) + seq![
        DeviceStep::EncodeMotion { headings_in_first: in_first, carry },
    ] + scan_steps(length as int, 1, true, false) + seq![
        DeviceStep::EmitGeometry { headings_in_first: in_first, motions_in_first: in_first, carry },
    ]
}

/// Steps as they are recorded.
pub open spec fn did(steps: Seq<DeviceStep>) -> Seq<DeviceAct> {
    steps.map_values(|step: DeviceStep| DeviceAct::Did(step))
}

/// What a device is asked for a group, in order: to make ready, to take the
/// commands, to run the kernels over them, and only then for the results.
pub open spec fn group_acts(
    ops: Seq<EncodedOp>,
    carry: TurtleCarry,
    retained: Option<usize>,
    reply: Option<Seq<GpuOutput>>,
) -> Seq<DeviceAct> {
    let length = ops.len() as usize;
    did(opening_steps(length, retained)) + seq![DeviceAct::Uploaded(ops)] + did(
        kernel_steps(length, carry),
    ) + seq![DeviceAct::Downloaded(length, reply)]
}

/// An act that submits a kernel.
pub open spec fn submitting(act: DeviceAct) -> bool {
    act matches DeviceAct::Did(step) && submits(step)
}

/// Some kernel was submitted.
pub open spec fn submitted(acts: Seq<DeviceAct>) -> bool {
    exists|i: int| 0 <= i < acts.len() && submitting(#[trigger] acts[i])
}

/// The device gave so many results, and these are they.
pub open spec fn gave_results<
    D: Fn(DeviceStep) -> Result<(), DeviceFault>,
    U: Fn(Vec<EncodedOp>) -> Result<(), DeviceFault>,
    L: Fn(Vec<GpuOutput>, usize) -> Result<Vec<GpuOutput>, DeviceFault>,
    Q: Fn() -> Result<DeviceLimits, VisualizeError>,
>(device: TurtleDevice<D, U, L, Q>, count: usize, outputs: Seq<GpuOutput>) -> bool {
    exists|room: Vec<GpuOutput>, v: Vec<GpuOutput>|
        v@ == outputs && #[trigger] call_ensures(
            device.downloader(),
            (room, count),
            Ok::<_, DeviceFault>(v),
        )
}

/// The device gave no results, and this is how a run reports it.
pub open spec fn gave_none<
    D: Fn(DeviceStep) -> Result<(), DeviceFault>,
    U: Fn(Vec<EncodedOp>) -> Result<(), DeviceFault>,
    L: Fn(Vec<GpuOutput>, usize) -> Result<Vec<GpuOutput>, DeviceFault>,
    Q: Fn() -> Result<DeviceLimits, VisualizeError>,
>(device: TurtleDevice<D, U, L, Q>, count: usize, failure: Failure) -> bool {
    exists|room: Vec<GpuOutput>, fault: DeviceFault| #[trigger]
        call_ensures(device.downloader(), (room, count), Err::<Vec<GpuOutput>, DeviceFault>(fault))
            && failure == runtime_failure("downloading turtle geometry"@, fault.reason@)
}

/// The device did what it was asked, and this is what it answered.
pub open spec fn act_done<
    D: Fn(DeviceStep) -> Result<(), DeviceFault>,
    U: Fn(Vec<EncodedOp>) -> Result<(), DeviceFault>,
    L: Fn(Vec<GpuOutput>, usize) -> Result<Vec<GpuOutput>, DeviceFault>,
    Q: Fn() -> Result<DeviceLimits, VisualizeError>,
>(device: TurtleDevice<D, U, L, Q>, act: DeviceAct) -> bool {
    match act {
        DeviceAct::Measured(reply) => reply is Some && call_ensures(
            device.gauge(),
            (),
            Ok::<_, VisualizeError>(reply->Some_0),
        ),
        DeviceAct::Did(step) => call_ensures(
            device.performer(),
            (step,),
            Ok::<(), DeviceFault>(()),
        ),
        DeviceAct::Uploaded(ops) => exists|v: Vec<EncodedOp>|
            v@ == ops && #[trigger] call_ensures(
                device.uploader(),
                (v,),
                Ok::<(), DeviceFault>(()),
            ),
        DeviceAct::Downloaded(count, reply) => reply is Some && gave_results(
            device,
            count,
            reply->Some_0,
        ),
    }
}

/// The device did all that it was asked.
pub open spec fn all_done<
    D: Fn(DeviceStep) -> Result<(), DeviceFault>,
    U: Fn(Vec<EncodedOp>) -> Result<(), DeviceFault>,
    L: Fn(Vec<GpuOutput>, usize) -> Result<Vec<GpuOutput>, DeviceFault>,
    Q: Fn() -> Result<DeviceLimits, VisualizeError>,
>(device: TurtleDevice<D, U, L, Q>, acts: Seq<DeviceAct>) -> bool {
    forall|i: int| 0 <= i < acts.len() ==> act_done(device, #[trigger] acts[i])
}

/// The device failed at what it was asked, and this is how a run reports it.
pub open spec fn act_failed<
    D: Fn(DeviceStep) -> Result<(), DeviceFault>,
    U: Fn(Vec<EncodedOp>) -> Result<(), DeviceFault>,
    L: Fn(Vec<GpuOutput>, usize) -> Result<Vec<GpuOutput>, DeviceFault>,
    Q: Fn() -> Result<DeviceLimits, VisualizeError>,
>(device: TurtleDevice<D, U, L, Q>, act: DeviceAct, failure: Failure) -> bool {
    match act {
        DeviceAct::Did(step) => exists|fault: DeviceFault| #[trigger]
            call_ensures(device.performer(), (step,), Err::<(), DeviceFault>(fault)) && failure
                == step_failure(step, fault),
        DeviceAct::Uploaded(ops) => exists|v: Vec<EncodedOp>, fault: DeviceFault|
            v@ == ops && #[trigger] call_ensures(
                device.uploader(),
                (v,),
                Err::<(), DeviceFault>(fault),
            ) && failure == runtime_failure("uploading turtle commands"@, fault.reason@),
        DeviceAct::Downloaded(count, reply) => reply is None && gave_none(device, count, failure),
        _ => false,
    }
}

/// One turn of a group: to ask the cancellation hook, or to ask the device.
pub enum Turn {
    Ask,
    Act(DeviceAct),
}

/// What a device is asked in some turns.
pub open spec fn acts_in(turns: Seq<Turn>) -> Seq<DeviceAct>
    decreases turns.len(),
{
    if turns.len() == 0 {
        Seq::empty()
    } else {
        match turns.last() {
            Turn::Ask => acts_in(turns.drop_last()),
            Turn::Act(act) => acts_in(turns.drop_last()).push(act),
        }
    }
}

/// How often the hook is asked in some turns.
pub open spec fn asks_in(turns: Seq<Turn>) -> nat
    decreases turns.len(),
{
    if turns.len() == 0 {
        0
    } else {
        asks_in(turns.drop_last()) + if turns.last() is Ask {
            1nat
        } else {
            0nat
        }
    }
}

/// The turns in which a device does some steps.
pub open spec fn step_turns(steps: Seq<DeviceStep>) -> Seq<Turn> {
    steps.map_values(|step: DeviceStep| Turn::Act(DeviceAct::Did(step)))
}

/// The turns of a scan from a stride on: the hook is asked before every stage.
pub open spec fn scan_turns(length: int, stride: int, from_first: bool, headings: bool) -> Seq<Turn>
    decreases crate::transform::rest_of(length, stride),
    when stride > 0
{
    if stride >= length {
        Seq::empty()
    } else {
        seq![
            Turn::Ask,
            Turn::Act(
                DeviceAct::Did(
                    if headings {
                        DeviceStep::ScanHeading { from_first, stride: stride as u32 }
                    } else {
                        DeviceStep::ScanMotion { from_first, stride: stride as u32 }
                    },
                ),
            ),
        ] + scan_turns(length, 2 * stride, !from_first, headings)
    }
}

/// The turns of a group before its first kernel.
pub open spec fn first_turns(ops: Seq<EncodedOp>, retained: Option<usize>) -> Seq<Turn> {
    seq![Turn::Ask] + step_turns(opening_steps(ops.len() as usize, retained)) + seq![
        Turn::Ask,
        Turn::Act(DeviceAct::Uploaded(ops)),
        Turn::Ask,
    ]
}

/// The turns in which the kernels of a group run.
pub open spec fn kernel_turns(length: usize, carry: TurtleCarry) -> Seq<Turn> {
    let in_first = result_in_first(length as int, 1, true);
    seq![Turn::Act(DeviceAct::Did(DeviceStep::EncodeHeading))] + (scan_turns(
        length as int,
        1,
        true,
        true,
    ) + (seq![
        Turn::Ask,
        Turn::Act(
            DeviceAct::Did(DeviceStep::EncodeMotion { headings_in_first: in_first, carry }),
        ),
    ] + (scan_turns(length as int, 1, true, false) + seq![
        Turn::Ask,
        Turn::Act(
            DeviceAct::Did(
                DeviceStep::EmitGeometry {
                    headings_in_first: in_first,
                    motions_in_first: in_first,
                    carry,
                },
            ),
        ),
    ])))
}

/// The turns of a group: how the questions stand among what the device is
/// asked.
pub open spec fn group_turns(
    ops: Seq<EncodedOp>,
    carry: TurtleCarry,
    retained: Option<usize>,
    reply: Option<Seq<GpuOutput>>,
) -> Seq<Turn> {
    let length = ops.len() as usize;
    first_turns(ops, retained) + (kernel_turns(length, carry) + seq![
        Turn::Act(DeviceAct::Downloaded(length, reply)),
        Turn::Ask,
    ])
}

/// How often the hook is asked while a group runs: twice before the commands
/// are uploaded and once after, before every stage of a scan, before the
/// motion encoding, before the emission, and after the download.
pub open spec fn group_questions(length: int) -> nat {
    6 + scan_steps(length, 1, true, true).len() + scan_steps(length, 1, true, false).len()
}

/// Why a group of so many commands ended with an act: the device failed at it,
/// or what had to follow it could not be had. A stride runs out only where the
/// largest power of two below the length cannot be doubled.
pub open spec fn act_ended<
    D: Fn(DeviceStep) -> Result<(), DeviceFault>,
    U: Fn(Vec<EncodedOp>) -> Result<(), DeviceFault>,
    L: Fn(Vec<GpuOutput>, usize) -> Result<Vec<GpuOutput>, DeviceFault>,
    Q: Fn() -> Result<DeviceLimits, VisualizeError>,
>(device: TurtleDevice<D, U, L, Q>, length: usize, act: DeviceAct, failure: Failure) -> bool {
    ||| act_failed(device, act, failure)
    ||| act matches DeviceAct::Did(DeviceStep::ScanHeading { .. }) && length > usize::MAX / 2 + 1
        && failure == exhausted("CUDA heading scan stride"@, usize::MAX)
    ||| act matches DeviceAct::Did(DeviceStep::ScanMotion { .. }) && length > usize::MAX / 2 + 1
        && failure == exhausted("CUDA motion scan stride"@, usize::MAX)
    ||| act matches DeviceAct::Did(DeviceStep::EmitGeometry { .. }) && failure == exhausted(
        "CUDA turtle host output"@,
        length,
    )
}

/// Why a group stopped in its last turn.
pub open spec fn stop_reason<
    D: Fn(DeviceStep) -> Result<(), DeviceFault>,
    U: Fn(Vec<EncodedOp>) -> Result<(), DeviceFault>,
    L: Fn(Vec<GpuOutput>, usize) -> Result<Vec<GpuOutput>, DeviceFault>,
    Q: Fn() -> Result<DeviceLimits, VisualizeError>,
    E: Fn(Turtle2dBatch) -> Result<(), VisualizeError>,
>(
    device: TurtleDevice<D, U, L, Q>,
    length: usize,
    turn: Turn,
    log: Seq<Exchange<Turtle2dBatch>>,
    sink: E,
    failure: Failure,
) -> bool {
    match turn {
        Turn::Ask => called_off(log, sink) && failure == Failure::Cancelled,
        Turn::Act(act) => quiet(log) && act_ended(device, length, act, failure),
    }
}

/// A group stopped after some of its turns. All turns before the last one went
/// well, and work counts as started once a kernel was submitted.
pub open spec fn stopped_after<
    D: Fn(DeviceStep) -> Result<(), DeviceFault>,
    U: Fn(Vec<EncodedOp>) -> Result<(), DeviceFault>,
    L: Fn(Vec<GpuOutput>, usize) -> Result<Vec<GpuOutput>, DeviceFault>,
    Q: Fn() -> Result<DeviceLimits, VisualizeError>,
    E: Fn(Turtle2dBatch) -> Result<(), VisualizeError>,
>(
    before: TurtleDevice<D, U, L, Q>,
    after: TurtleDevice<D, U, L, Q>,
    length: usize,
    turns: Seq<Turn>,
    log: Seq<Exchange<Turtle2dBatch>>,
    sink: E,
    failure: CudaStreamFailure,
) -> bool {
    &&& turns.len() > 0
    &&& after.since(before) == acts_in(turns)
    &&& log.len() == asks_in(turns)
    &&& all_done(before, acts_in(turns.drop_last()))
    &&& failure.started == submitted(after.since(before))
    &&& stop_reason(before, length, turns.last(), log, sink, failure.error@)
}

/// A group stopped after some of its turns.
pub open spec fn group_stopped<
    D: Fn(DeviceStep) -> Result<(), DeviceFault>,
    U: Fn(Vec<EncodedOp>) -> Result<(), DeviceFault>,
    L: Fn(Vec<GpuOutput>, usize) -> Result<Vec<GpuOutput>, DeviceFault>,
    Q: Fn() -> Result<DeviceLimits, VisualizeError>,
    E: Fn(Turtle2dBatch) -> Result<(), VisualizeError>,
>(
    before: TurtleDevice<D, U, L, Q>,
    after: TurtleDevice<D, U, L, Q>,
    ops: Seq<EncodedOp>,
    carry: TurtleCarry,
    retained: Option<usize>,
    log: Seq<Exchange<Turtle2dBatch>>,
    sink: E,
    failure: CudaStreamFailure,
) -> bool {
    exists|k: int, reply: Option<Seq<GpuOutput>>|
        0 <= k <= group_turns(ops, carry, retained, reply).len() && #[trigger] stopped_after(
            before,
            after,
            ops.len() as usize,
            group_turns(ops, carry, retained, reply).subrange(0, k),
            log,
            sink,
            failure,
        )
}

/// Some turns of a group have been taken, and all went well.
#[verifier::opaque]
spec fn reached<
    F: Fn() -> bool,
    E: Fn(Turtle2dBatch) -> Result<(), VisualizeError>,
    D: Fn(DeviceStep) -> Result<(), DeviceFault>,
    U: Fn(Vec<EncodedOp>) -> Result<(), DeviceFault>,
    L: Fn(Vec<GpuOutput>, usize) -> Result<Vec<GpuOutput>, DeviceFault>,
    Q: Fn() -> Result<DeviceLimits, VisualizeError>,
>(
    start: TurtleDevice<D, U, L, Q>,
    device: TurtleDevice<D, U, L, Q>,
    opened: Outlet<Turtle2dBatch, F, E>,
    outlet: Outlet<Turtle2dBatch, F, E>,
    past: Seq<Turn>,
) -> bool {
    &&& device.ready()
    &&& device.follows(start)
    &&& device.since(start) == acts_in(past)
    &&& all_done(start, acts_in(past))
    &&& outlet.listening(opened)
    &&& outlet.heard(opened) == asks_in(past)
}

/// Some turns of a group have been taken, and the last one ended it.
#[verifier::opaque]
spec fn ended<
    F: Fn() -> bool,
    E: Fn(Turtle2dBatch) -> Result<(), VisualizeError>,
    D: Fn(DeviceStep) -> Result<(), DeviceFault>,
    U: Fn(Vec<EncodedOp>) -> Result<(), DeviceFault>,
    L: Fn(Vec<GpuOutput>, usize) -> Result<Vec<GpuOutput>, DeviceFault>,
    Q: Fn() -> Result<DeviceLimits, VisualizeError>,
>(
    start: TurtleDevice<D, U, L, Q>,
    device: TurtleDevice<D, U, L, Q>,
    opened: Outlet<Turtle2dBatch, F, E>,
    outlet: Outlet<Turtle2dBatch, F, E>,
    past: Seq<Turn>,
    failure: Failure,
) -> bool {
    &&& past.len() > 0
    &&& device.ready()
    &&& device.follows(start)
    &&& device.since(start) == acts_in(past)
    &&& all_done(start, acts_in(past.drop_last()))
    &&& outlet.heard(opened) == asks_in(past)
    &&& match past.last() {
        Turn::Ask => outlet.interrupted(opened) && failure == Failure::Cancelled,
        Turn::Act(act) => outlet.listening(opened) && act_failed(start, act, failure),
    }
}

proof fn lemma_next_turn(past: Seq<Turn>, turn: Turn)
    ensures
        past.push(turn).drop_last() == past,
        past.push(turn).last() == turn,
        asks_in(past.push(turn)) == asks_in(past) + if turn is Ask {
            1nat
        } else {
            0nat
        },
        turn is Ask ==> acts_in(past.push(turn)) == acts_in(past),
        turn matches Turn::Act(act) ==> acts_in(past.push(turn)) == acts_in(past).push(act),
{
    assert(past.push(turn).drop_last() =~= past);
}

/// Ask the hook in its turn.
fn take_question<
    F: Fn() -> bool,
    E: Fn(Turtle2dBatch) -> Result<(), VisualizeError>,
    D: Fn(DeviceStep) -> Result<(), DeviceFault>,
    U: Fn(Vec<EncodedOp>) -> Result<(), DeviceFault>,
    L: Fn(Vec<GpuOutput>, usize) -> Result<Vec<GpuOutput>, DeviceFault>,
    Q: Fn() -> Result<DeviceLimits, VisualizeError>,
>(
    device: &TurtleDevice<D, U, L, Q>,
    outlet: &mut Outlet<Turtle2dBatch, F, E>,
    Ghost(start): Ghost<TurtleDevice<D, U, L, Q>>,
    Ghost(opened): Ghost<Outlet<Turtle2dBatch, F, E>>,
    Ghost(past): Ghost<Seq<Turn>>,
) -> (r: bool)
    requires
        reached(start, *device, opened, *old(outlet), past),
    ensures
        if r {
            ended(start, *device, opened, *final(outlet), past.push(Turn::Ask), Failure::Cancelled)
        } else {
            reached(start, *device, opened, *final(outlet), past.push(Turn::Ask))
        },
{
    proof {
        reveal(reached);
        reveal(ended);
        lemma_next_turn(past, Turn::Ask);
    }
    outlet.ask(Ghost(opened))
}

/// Have a step done in its turn.
fn take_step<
    F: Fn() -> bool,
    E: Fn(Turtle2dBatch) -> Result<(), VisualizeError>,
    D: Fn(DeviceStep) -> Result<(), DeviceFault>,
    U: Fn(Vec<EncodedOp>) -> Result<(), DeviceFault>,
    L: Fn(Vec<GpuOutput>, usize) -> Result<Vec<GpuOutput>, DeviceFault>,
    Q: Fn() -> Result<DeviceLimits, VisualizeError>,
>(
    device: &mut TurtleDevice<D, U, L, Q>,
    step: DeviceStep,
    Ghost(start): Ghost<TurtleDevice<D, U, L, Q>>,
    Ghost(opened): Ghost<Outlet<Turtle2dBatch, F, E>>,
    outlet: &Outlet<Turtle2dBatch, F, E>,
    Ghost(past): Ghost<Seq<Turn>>,
) -> (r: Result<(), CudaStreamFailure>)
    requires
        reached(start, *old(device), opened, *outlet, past),
    ensures
        match r {
            Ok(()) => reached(
                start,
                *final(device),
                opened,
                *outlet,
                past.push(Turn::Act(DeviceAct::Did(step))),
            ),
            Err(failure) => ended(
                start,
                *final(device),
                opened,
                *outlet,
                past.push(Turn::Act(DeviceAct::Did(step))),
                failure.error@,
            ) && failure.started == submits(step),
        },
{
    let ghost before = *device;
    let ghost act = DeviceAct::Did(step);
    proof {
        reveal(reached);
        reveal(ended);
        lemma_next_turn(past, Turn::Act(act));
    }
    let reply: Result<(), DeviceFault> = device.perform(step);
    proof {
        lemma_one_act(start, before, *device, act);
    }
    match reply {
        Ok(nothing) => {
            assert(nothing == ());
            assert(reply == Ok::<(), DeviceFault>(()));
            assert(act_done(start, act));
            Ok(())
        },
        Err(fault) => {
            assert(call_ensures(start.performer(), (step,), Err::<(), DeviceFault>(fault)));
            Err(step_error(step, fault))
        },
    }
}

/// Have some steps done in their turns.
fn take_steps<
    F: Fn() -> bool,
    E: Fn(Turtle2dBatch) -> Result<(), VisualizeError>,
    D: Fn(DeviceStep) -> Result<(), DeviceFault>,
    U: Fn(Vec<EncodedOp>) -> Result<(), DeviceFault>,
    L: Fn(Vec<GpuOutput>, usize) -> Result<Vec<GpuOutput>, DeviceFault>,
    Q: Fn() -> Result<DeviceLimits, VisualizeError>,
>(
    device: &mut TurtleDevice<D, U, L, Q>,
    steps: Vec<DeviceStep>,
    Ghost(start): Ghost<TurtleDevice<D, U, L, Q>>,
    Ghost(opened): Ghost<Outlet<Turtle2dBatch, F, E>>,
    outlet: &Outlet<Turtle2dBatch, F, E>,
    Ghost(past): Ghost<Seq<Turn>>,
) -> (r: Result<(), (CudaStreamFailure, Ghost<int>)>)
    requires
        reached(start, *old(device), opened, *outlet, past),
    ensures
        match r {
            Ok(()) => reached(
                start,
                *final(device),
                opened,
                *outlet,
                past + step_turns(steps@),
            ),
            Err((failure, at)) => 0 <= at@ < steps@.len() && ended(
                start,
                *final(device),
                opened,
                *outlet,
                past + step_turns(steps@).subrange(0, at@ + 1),
                failure.error@,
            ) && failure.started == submits(steps@[at@]),
        },
{
    let ghost turns = step_turns(steps@);
    let mut i: usize = 0;
    assert(past + turns.subrange(0, 0) =~= past);
    while i < steps.len()
        invariant
            i <= steps@.len(),
            turns == step_turns(steps@),
            reached(start, *device, opened, *outlet, past + turns.subrange(0, i as int)),
        decreases steps@.len() - i,
    {
        let ghost now = past + turns.subrange(0, i as int);
        proof {
            assert(turns[i as int] == Turn::Act(DeviceAct::Did(steps@[i as int])));
            assert(now.push(turns[i as int]) =~= past + turns.subrange(0, i + 1));
        }
        match take_step(
            device,
            steps[i],
            Ghost(start),
            Ghost(opened),
            outlet,
            Ghost(now),
        ) {
            Ok(()) => {},
            Err(failure) => {
                return Err((failure, Ghost(i as int)));
            },
        }
        i = i + 1;
    }
    assert(turns.subrange(0, i as int) =~= turns);
    Ok(())
}

fn opening(length: usize, retained: Option<usize>) -> (r: Vec<DeviceStep>)
    requires
        length <= u32::MAX,
    ensures
        r@ == opening_steps(length, retained),
{
    let blocks: u32 = if length % (CUDA_THREADS as usize) == 0 {
        (length / (CUDA_THREADS as usize)) as u32
    } else {
        (length / (CUDA_THREADS as usize) + 1) as u32
    };
    assert(blocks == blocks_for(length as int));
    let mut steps: Vec<DeviceStep> = Vec::new();
    steps.push(DeviceStep::Bind);
    if retained != Some(length) {
        steps.push(DeviceStep::Allocate(Buffer::Input, length));
        steps.push(DeviceStep::Allocate(Buffer::HeadingA, length));
        steps.push(DeviceStep::Allocate(Buffer::HeadingB, length));
        steps.push(DeviceStep::Allocate(Buffer::MotionA, length));
        steps.push(DeviceStep::Allocate(Buffer::MotionB, length));
        steps.push(DeviceStep::Allocate(Buffer::Output, length));
    }
    steps.push(DeviceStep::Prepare(Kernel::EncodeHeading, blocks));
    steps.push(DeviceStep::Prepare(Kernel::ScanHeading, blocks));
    steps.push(DeviceStep::Prepare(Kernel::EncodeMotion, blocks));
    steps.push(DeviceStep::Prepare(Kernel::ScanMotion, blocks));
    steps.push(DeviceStep::Prepare(Kernel::EmitGeometry, blocks));
    assert(steps@ =~= opening_steps(length, retained));
    steps
}

/// Why a scan stopped: in a question, in a stage, or because its stride could
/// not be doubled.
spec fn scan_stopped<
    F: Fn() -> bool,
    E: Fn(Turtle2dBatch) -> Result<(), VisualizeError>,
    D: Fn(DeviceStep) -> Result<(), DeviceFault>,
    U: Fn(Vec<EncodedOp>) -> Result<(), DeviceFault>,
    L: Fn(Vec<GpuOutput>, usize) -> Result<Vec<GpuOutput>, DeviceFault>,
    Q: Fn() -> Result<DeviceLimits, VisualizeError>,
>(
    start: TurtleDevice<D, U, L, Q>,
    device: TurtleDevice<D, U, L, Q>,
    opened: Outlet<Turtle2dBatch, F, E>,
    outlet: Outlet<Turtle2dBatch, F, E>,
    past: Seq<Turn>,
    length: usize,
    headings: bool,
    failure: Failure,
) -> bool {
    ||| ended(start, device, opened, outlet, past, failure)
    ||| {
        &&& reached(start, device, opened, outlet, past)
        &&& past.len() > 0
        &&& length > usize::MAX / 2 + 1
        &&& if headings {
            past.last() matches Turn::Act(DeviceAct::Did(DeviceStep::ScanHeading { .. })) && failure
                == exhausted("CUDA heading scan stride"@, usize::MAX)
        } else {
            past.last() matches Turn::Act(DeviceAct::Did(DeviceStep::ScanMotion { .. })) && failure
                == exhausted("CUDA motion scan stride"@, usize::MAX)
        }
    }
}

/// Run all stages of a scan on a device. The result says whether the scan
/// ended in the first of its two buffers.
fn run_scan<
    F: Fn() -> bool,
    E: Fn(Turtle2dBatch) -> Result<(), VisualizeError>,
    D: Fn(DeviceStep) -> Result<(), DeviceFault>,
    U: Fn(Vec<EncodedOp>) -> Result<(), DeviceFault>,
    L: Fn(Vec<GpuOutput>, usize) -> Result<Vec<GpuOutput>, DeviceFault>,
    Q: Fn() -> Result<DeviceLimits, VisualizeError>,
>(
    device: &mut TurtleDevice<D, U, L, Q>,
    length: usize,
    headings: bool,
    outlet: &mut Outlet<Turtle2dBatch, F, E>,
    Ghost(start): Ghost<TurtleDevice<D, U, L, Q>>,
    Ghost(opened): Ghost<Outlet<Turtle2dBatch, F, E>>,
    Ghost(past): Ghost<Seq<Turn>>,
) -> (r: Result<bool, (CudaStreamFailure, Ghost<int>)>)
    requires
        length <= u32::MAX,
        reached(start, *old(device), opened, *old(outlet), past),
    ensures
        ({
            let turns = scan_turns(length as int, 1, true, headings);
            match r {
                Ok(in_first) => in_first == result_in_first(length as int, 1, true) && reached(
                    start,
                    *final(device),
                    opened,
                    *final(outlet),
                    past + turns,
                ),
                Err((failure, at)) => 0 <= at@ <= turns.len() && failure.started && scan_stopped(
                    start,
                    *final(device),
                    opened,
                    *final(outlet),
                    past + turns.subrange(0, at@),
                    length,
                    headings,
                    failure.error@,
                ),
            }
        }),
{
    let ghost all = scan_turns(length as int, 1, true, headings);
    let mut from_first: bool = true;
    let mut stride: usize = 1;
    let ghost mut count: int = 0;
    assert(all.subrange(0, all.len() as int) =~= all);
    assert(past + all.subrange(0, 0) =~= past);
    while stride < length
        invariant
            length <= u32::MAX,
            stride > 0,
            reached(start, *device, opened, *outlet, past + all.subrange(0, count)),
            all == scan_turns(length as int, 1, true, headings),
            0 <= count <= all.len(),
            all.subrange(count, all.len() as int) == scan_turns(
                length as int,
                stride as int,
                from_first,
                headings,
            ),
            result_in_first(length as int, stride as int, from_first) == result_in_first(
                length as int,
                1,
                true,
            ),
        decreases crate::transform::rest_of(length as int, stride as int),
    {
        let step: DeviceStep = if headings {
            DeviceStep::ScanHeading { from_first, stride: stride as u32 }
        } else {
            DeviceStep::ScanMotion { from_first, stride: stride as u32 }
        };
        let ghost now = past + all.subrange(0, count);
        let ghost asked = now.push(Turn::Ask);
        let ghost act = Turn::Act(DeviceAct::Did(step));
        proof {
            let rest = all.subrange(count, all.len() as int);
            let later = scan_turns(length as int, 2 * stride, !from_first, headings);
            assert(rest =~= seq![Turn::Ask, act] + later);
            assert(rest.len() == all.len() - count);
            assert(rest[0] == Turn::Ask && rest[1] == act);
            assert(all[count] == Turn::Ask && all[count + 1] == act);
            assert(all.subrange(count + 2, all.len() as int) =~= rest.subrange(
                2,
                rest.len() as int,
            ));
            assert(rest.subrange(2, rest.len() as int) =~= later);
            assert(asked =~= past + all.subrange(0, count + 1));
            assert(asked.push(act) =~= past + all.subrange(0, count + 2));
        }
        let cancelled: bool = take_question(
            device,
            outlet,
            Ghost(start),
            Ghost(opened),
            Ghost(now),
        );
        if cancelled {
            return Err(
                (
                    CudaStreamFailure { error: VisualizeError::Cancelled, started: true },
                    Ghost(count + 1),
                ),
            );
        }
        match take_step(
            device,
            step,
            Ghost(start),
            Ghost(opened),
            &*outlet,
            Ghost(asked),
        ) {
            Ok(()) => {},
            Err(failure) => {
                return Err((failure, Ghost(count + 2)));
            },
        }
        from_first = !from_first;
        proof {
            count = count + 2;
        }
        match stride.checked_mul(2) {
            Some(next) => {
                stride = next;
            },
            None => {
                let error: VisualizeError = if headings {
                    resource_error("CUDA heading scan stride", usize::MAX)
                } else {
                    resource_error("CUDA motion scan stride", usize::MAX)
                };
                return Err((CudaStreamFailure { error, started: true }, Ghost(count)));
            },
        }
    }
    assert(count == all.len());
    Ok(from_first)
}

proof fn lemma_acts_join(a: Seq<Turn>, b: Seq<Turn>)
    ensures
        acts_in(a + b) == acts_in(a) + acts_in(b),
        asks_in(a + b) == asks_in(a) + asks_in(b),
    decreases b.len(),
{
    if b.len() == 0 {
        assert(a + b =~= a);
        assert(acts_in(a) + acts_in(b) =~= acts_in(a));
    } else {
        assert((a + b).drop_last() =~= a + b.drop_last());
        lemma_acts_join(a, b.drop_last());
        match b.last() {
            Turn::Ask => {},
            Turn::Act(act) => {
                assert(acts_in(a) + acts_in(b.drop_last()).push(act) =~= (acts_in(a) + acts_in(
                    b.drop_last(),
                )).push(act));
            },
        }
    }
}

proof fn lemma_acts_of_one(turn: Turn)
    ensures
        acts_in(seq![turn]) == match turn {
            Turn::Ask => Seq::<DeviceAct>::empty(),
            Turn::Act(act) => seq![act],
        },
        asks_in(seq![turn]) == if turn is Ask {
            1nat
        } else {
            0nat
        },
{
    lemma_next_turn(Seq::empty(), turn);
    assert(Seq::<Turn>::empty().push(turn) =~= seq![turn]);
    assert(acts_in(Seq::<Turn>::empty()) =~= Seq::empty());
    match turn {
        Turn::Ask => {},
        Turn::Act(act) => {
            assert(Seq::<DeviceAct>::empty().push(act) =~= seq![act]);
        },
    }
}

proof fn lemma_acts_of_steps(steps: Seq<DeviceStep>)
    ensures
        acts_in(step_turns(steps)) == did(steps),
        asks_in(step_turns(steps)) == 0,
    decreases steps.len(),
{
    if steps.len() > 0 {
        lemma_acts_of_steps(steps.drop_last());
        let turns = step_turns(steps);
        assert(turns.drop_last() =~= step_turns(steps.drop_last()));
        assert(did(steps) =~= did(steps.drop_last()).push(DeviceAct::Did(steps.last())));
    } else {
        assert(did(steps) =~= Seq::empty());
    }
}

proof fn lemma_acts_of_scan(length: int, stride: int, from_first: bool, headings: bool)
    requires
        stride > 0,
    ensures
        acts_in(scan_turns(length, stride, from_first, headings)) == did(
            scan_steps(length, stride, from_first, headings),
        ),
        asks_in(scan_turns(length, stride, from_first, headings)) == scan_steps(
            length,
            stride,
            from_first,
            headings,
        ).len(),
    decreases crate::transform::rest_of(length, stride),
{
    if stride < length {
        lemma_acts_of_scan(length, 2 * stride, !from_first, headings);
        let step = if headings {
            DeviceStep::ScanHeading { from_first, stride: stride as u32 }
        } else {
            DeviceStep::ScanMotion { from_first, stride: stride as u32 }
        };
        let later = scan_turns(length, 2 * stride, !from_first, headings);
        let steps = scan_steps(length, 2 * stride, !from_first, headings);
        let act = Turn::Act(DeviceAct::Did(step));
        lemma_acts_of_one(Turn::Ask);
        lemma_acts_of_one(act);
        lemma_acts_join(seq![Turn::Ask], seq![act]);
        assert(seq![Turn::Ask] + seq![act] =~= seq![Turn::Ask, act]);
        lemma_acts_join(seq![Turn::Ask, act], later);
        assert(acts_in(seq![Turn::Ask, act]) =~= seq![DeviceAct::Did(step)]);
        assert(did(seq![step] + steps) =~= seq![DeviceAct::Did(step)] + did(steps));
    } else {
        assert(did(scan_steps(length, stride, from_first, headings)) =~= Seq::empty());
    }
}

/// The turns of a group ask the device for just what the group needs, in that
/// order, and the hook as often as they should.
pub proof fn group_turns_ask_for_the_group(
    ops: Seq<EncodedOp>,
    carry: TurtleCarry,
    retained: Option<usize>,
    reply: Option<Seq<GpuOutput>>,
)
    ensures
        acts_in(group_turns(ops, carry, retained, reply)) == group_acts(
            ops,
            carry,
            retained,
            reply,
        ),
        asks_in(group_turns(ops, carry, retained, reply)) == group_questions(
            ops.len() as usize as int,
        ),
{
    let length = ops.len() as usize;
    let in_first = result_in_first(length as int, 1, true);
    let opening = opening_steps(length, retained);
    let headings = scan_turns(length as int, 1, true, true);
    let motions = scan_turns(length as int, 1, true, false);
    let motion = DeviceStep::EncodeMotion { headings_in_first: in_first, carry };
    let emit = DeviceStep::EmitGeometry {
        headings_in_first: in_first,
        motions_in_first: in_first,
        carry,
    };
    let upload = DeviceAct::Uploaded(ops);
    let download = DeviceAct::Downloaded(length, reply);
    lemma_acts_of_steps(opening);
    lemma_acts_of_scan(length as int, 1, true, true);
    lemma_acts_of_scan(length as int, 1, true, false);
    lemma_acts_of_one(Turn::Ask);
    // Before the first kernel.
    let a1 = seq![Turn::Ask] + step_turns(opening);
    let a2 = seq![Turn::Ask, Turn::Act(upload), Turn::Ask];
    lemma_acts_join(seq![Turn::Ask], step_turns(opening));
    lemma_two_turns(Turn::Ask, Turn::Act(upload));
    lemma_acts_join(seq![Turn::Ask, Turn::Act(upload)], seq![Turn::Ask]);
    assert(a2 =~= seq![Turn::Ask, Turn::Act(upload)] + seq![Turn::Ask]);
    lemma_acts_join(a1, a2);
    assert(acts_in(a2) =~= seq![upload]);
    assert(acts_in(a1) =~= did(opening));
    let first = first_turns(ops, retained);
    assert(acts_in(first) == did(opening) + seq![upload]);
    assert(asks_in(first) == 3);
    // The kernels.
    let heading = Turn::Act(DeviceAct::Did(DeviceStep::EncodeHeading));
    lemma_acts_of_one(heading);
    let middle = seq![Turn::Ask, Turn::Act(DeviceAct::Did(motion))];
    lemma_two_turns(Turn::Ask, Turn::Act(DeviceAct::Did(motion)));
    let last = seq![Turn::Ask, Turn::Act(DeviceAct::Did(emit))];
    lemma_two_turns(Turn::Ask, Turn::Act(DeviceAct::Did(emit)));
    assert(acts_in(middle) =~= seq![DeviceAct::Did(motion)]);
    assert(acts_in(last) =~= seq![DeviceAct::Did(emit)]);
    lemma_acts_join(motions, last);
    lemma_acts_join(middle, motions + last);
    lemma_acts_join(headings, middle + (motions + last));
    lemma_acts_join(seq![heading], headings + (middle + (motions + last)));
    // The results.
    let end = seq![Turn::Act(download), Turn::Ask];
    lemma_two_turns(Turn::Act(download), Turn::Ask);
    assert(acts_in(end) =~= seq![download]);
    lemma_acts_join(kernel_turns(length, carry), end);
    lemma_acts_join(first, kernel_turns(length, carry) + end);
    let scan = scan_steps(length as int, 1, true, true);
    let second = scan_steps(length as int, 1, true, false);
    let kernels = kernel_steps(length, carry);
    assert(did(kernels) =~= seq![DeviceAct::Did(DeviceStep::EncodeHeading)] + (did(scan) + (seq![
        DeviceAct::Did(motion),
    ] + (did(second) + seq![DeviceAct::Did(emit)]))));
    assert(acts_in(group_turns(ops, carry, retained, reply)) =~= group_acts(
        ops,
        carry,
        retained,
        reply,
    ));
}

proof fn lemma_two_turns(a: Turn, b: Turn)
    ensures
        acts_in(seq![a, b]) == acts_in(seq![a]) + acts_in(seq![b]),
        asks_in(seq![a, b]) == asks_in(seq![a]) + asks_in(seq![b]),
        acts_in(seq![a]) == match a {
            Turn::Ask => Seq::<DeviceAct>::empty(),
            Turn::Act(act) => seq![act],
        },
        acts_in(seq![b]) == match b {
            Turn::Ask => Seq::<DeviceAct>::empty(),
            Turn::Act(act) => seq![act],
        },
        asks_in(seq![a]) == if a is Ask {
            1nat
        } else {
            0nat
        },
        asks_in(seq![b]) == if b is Ask {
            1nat
        } else {
            0nat
        },
{
    lemma_acts_of_one(a);
    lemma_acts_of_one(b);
    lemma_acts_join(seq![a], seq![b]);
    assert(seq![a] + seq![b] =~= seq![a, b]);
}

/// Whether a kernel was submitted in some turns.
proof fn lemma_submitted_in(turns: Seq<Turn>)
    ensures
        submitted(acts_in(turns)) <==> exists|i: int|
            0 <= i < turns.len() && submitting_turn(#[trigger] turns[i]),
    decreases turns.len(),
{
    if turns.len() > 0 {
        let init = turns.drop_last();
        lemma_submitted_in(init);
        let acts = acts_in(turns);
        let before = acts_in(init);
        if submitted(before) {
            let i = choose|i: int| 0 <= i < before.len() && submitting(#[trigger] before[i]);
            assert(acts[i] == before[i]);
            let k = choose|k: int| 0 <= k < init.len() && submitting_turn(#[trigger] init[k]);
            assert(turns[k] == init[k]);
        }
        if submitting_turn(turns.last()) {
            assert(submitting(acts[acts.len() - 1]));
            assert(submitting_turn(turns[turns.len() - 1]));
        }
        if submitted(acts) && !submitted(before) {
            let i = choose|i: int| 0 <= i < acts.len() && submitting(#[trigger] acts[i]);
            if i < before.len() {
                assert(before[i] == acts[i]);
            }
        }
        if exists|k: int| 0 <= k < turns.len() && submitting_turn(#[trigger] turns[k]) {
            let k = choose|k: int| 0 <= k < turns.len() && submitting_turn(#[trigger] turns[k]);
            if k < init.len() {
                assert(init[k] == turns[k]);
            }
        }
    }
}

spec fn submitting_turn(turn: Turn) -> bool {
    turn matches Turn::Act(act) && submitting(act)
}

/// Nothing before the first kernel submits one.
proof fn lemma_first_turns(ops: Seq<EncodedOp>, retained: Option<usize>, k: int)
    requires
        0 <= k <= first_turns(ops, retained).len(),
    ensures
        !submitted(acts_in(first_turns(ops, retained).subrange(0, k))),
{
    let part = first_turns(ops, retained).subrange(0, k);
    let opening = opening_steps(ops.len() as usize, retained);
    lemma_submitted_in(part);
    if exists|i: int| 0 <= i < part.len() && submitting_turn(#[trigger] part[i]) {
        let i = choose|i: int| 0 <= i < part.len() && submitting_turn(#[trigger] part[i]);
        if 1 <= i <= opening.len() {
            assert(part[i] == Turn::Act(DeviceAct::Did(opening[i - 1])));
            assert(!submits(opening[i - 1]));
        }
    }
}

/// With the first kernel among them, some turns submit one.
proof fn lemma_kernels_submit(first: Seq<Turn>, later: Seq<Turn>)
    ensures
        submitted(
            acts_in(
                first + (seq![Turn::Act(DeviceAct::Did(DeviceStep::EncodeHeading))] + later),
            ),
        ),
{
    let heading = Turn::Act(DeviceAct::Did(DeviceStep::EncodeHeading));
    let all = first + (seq![heading] + later);
    lemma_submitted_in(all);
    assert(all[first.len() as int] == heading);
    assert(submitting_turn(all[first.len() as int]));
}

/// A group stopped, and nothing was handed to the sink.
spec fn gave_up<
    F: Fn() -> bool,
    E: Fn(Turtle2dBatch) -> Result<(), VisualizeError>,
    D: Fn(DeviceStep) -> Result<(), DeviceFault>,
    U: Fn(Vec<EncodedOp>) -> Result<(), DeviceFault>,
    L: Fn(Vec<GpuOutput>, usize) -> Result<Vec<GpuOutput>, DeviceFault>,
    Q: Fn() -> Result<DeviceLimits, VisualizeError>,
>(
    start: TurtleDevice<D, U, L, Q>,
    device: TurtleDevice<D, U, L, Q>,
    opened: Outlet<Turtle2dBatch, F, E>,
    outlet: Outlet<Turtle2dBatch, F, E>,
    ops: Seq<EncodedOp>,
    carry: TurtleCarry,
    retained: Option<usize>,
    failure: CudaStreamFailure,
) -> bool {
    &&& device.ready()
    &&& device.follows(start)
    &&& outlet.ready()
    &&& outlet.follows(opened)
    &&& questions(outlet.since(opened))
    &&& group_stopped(
        start,
        device,
        ops,
        carry,
        retained,
        outlet.since(opened),
        opened.sink(),
        failure,
    )
}

/// What a group that stopped comes to.
proof fn lemma_group_stopped<
    F: Fn() -> bool,
    E: Fn(Turtle2dBatch) -> Result<(), VisualizeError>,
    D: Fn(DeviceStep) -> Result<(), DeviceFault>,
    U: Fn(Vec<EncodedOp>) -> Result<(), DeviceFault>,
    L: Fn(Vec<GpuOutput>, usize) -> Result<Vec<GpuOutput>, DeviceFault>,
    Q: Fn() -> Result<DeviceLimits, VisualizeError>,
>(
    start: TurtleDevice<D, U, L, Q>,
    device: TurtleDevice<D, U, L, Q>,
    opened: Outlet<Turtle2dBatch, F, E>,
    outlet: Outlet<Turtle2dBatch, F, E>,
    ops: Seq<EncodedOp>,
    carry: TurtleCarry,
    retained: Option<usize>,
    reply: Option<Seq<GpuOutput>>,
    past: Seq<Turn>,
    rest: Seq<Turn>,
    failure: CudaStreamFailure,
)
    requires
        group_turns(ops, carry, retained, reply) == past + rest,
        past.len() > 0,
        failure.started == submitted(acts_in(past)),
        ended(start, device, opened, outlet, past, failure.error@) || (reached(
            start,
            device,
            opened,
            outlet,
            past,
        ) && (past.last() matches Turn::Act(act) && stop_reason(
            start,
            ops.len() as usize,
            past.last(),
            Seq::<Exchange<Turtle2dBatch>>::empty(),
            opened.sink(),
            failure.error@,
        ))),
    ensures
        gave_up(start, device, opened, outlet, ops, carry, retained, failure),
{
    reveal(reached);
    reveal(ended);
    lemma_listened(opened, outlet);
    let turns = group_turns(ops, carry, retained, reply);
    let k = past.len() as int;
    assert(turns.subrange(0, k) =~= past);
    let log = outlet.since(opened);
    if reached(start, device, opened, outlet, past) {
        lemma_next_turn(past.drop_last(), past.last());
        assert(past.drop_last().push(past.last()) =~= past);
        let before = acts_in(past.drop_last());
        assert forall|i: int| 0 <= i < before.len() implies act_done(start, #[trigger] before[i]) by {
            assert(acts_in(past)[i] == before[i]);
        }
    }
    assert(stopped_after(
        start,
        device,
        ops.len() as usize,
        turns.subrange(0, k),
        log,
        opened.sink(),
        failure,
    ));
}

/// Make a device ready for a group and hand it the commands.
fn open_group<
    F: Fn() -> bool,
    E: Fn(Turtle2dBatch) -> Result<(), VisualizeError>,
    D: Fn(DeviceStep) -> Result<(), DeviceFault>,
    U: Fn(Vec<EncodedOp>) -> Result<(), DeviceFault>,
    L: Fn(Vec<GpuOutput>, usize) -> Result<Vec<GpuOutput>, DeviceFault>,
    Q: Fn() -> Result<DeviceLimits, VisualizeError>,
>(
    device: &mut TurtleDevice<D, U, L, Q>,
    retained: &mut Option<usize>,
    ops: Vec<EncodedOp>,
    outlet: &mut Outlet<Turtle2dBatch, F, E>,
    Ghost(start): Ghost<TurtleDevice<D, U, L, Q>>,
    Ghost(opened): Ghost<Outlet<Turtle2dBatch, F, E>>,
    Ghost(carry): Ghost<TurtleCarry>,
) -> (r: Result<(), CudaStreamFailure>)
    requires
        0 < ops@.len() <= u32::MAX,
        reached(start, *old(device), opened, *old(outlet), Seq::empty()),
    ensures
        match r {
            Ok(()) => reached(
                start,
                *final(device),
                opened,
                *final(outlet),
                first_turns(ops@, *old(retained)),
            ) && *final(retained) == Some(ops@.len() as usize),
            Err(failure) => gave_up(
                start,
                *final(device),
                opened,
                *final(outlet),
                ops@,
                carry,
                *old(retained),
                failure,
            ),
        },
        *final(retained) == *old(retained) || *final(retained) is None || *final(retained) == Some(
            ops@.len() as usize,
        ),
{
    let length: usize = ops.len();
    let ghost kept = *retained;
    let ghost commands = ops@;
    let ghost turns = step_turns(opening_steps(length, kept));
    let ghost first = first_turns(commands, kept);
    let ghost p0 = Seq::<Turn>::empty();
    let ghost p1 = p0.push(Turn::Ask);
    let ghost p2 = p1 + turns;
    let ghost p3 = p2.push(Turn::Ask);
    let ghost p4 = p3.push(Turn::Act(DeviceAct::Uploaded(commands)));
    let ghost p5 = p4.push(Turn::Ask);
    let ghost n = turns.len() as int;
    proof {
        assert(p1 =~= first.subrange(0, 1));
        assert(p3 =~= first.subrange(0, n + 2));
        assert(p4 =~= first.subrange(0, n + 3));
        assert(p5 =~= first.subrange(0, n + 4));
        assert(p5 =~= first);
    }
    let cancelled: bool = take_question(device, outlet, Ghost(start), Ghost(opened), Ghost(p0));
    if cancelled {
        let failure: CudaStreamFailure = CudaStreamFailure {
            error: VisualizeError::Cancelled,
            started: false,
        };
        proof {
            lemma_stopped_early(
                start,
                *device,
                opened,
                *outlet,
                commands,
                carry,
                kept,
                1,
                failure,
            );
        }
        return Err(failure);
    }
    let steps: Vec<DeviceStep> = opening(length, *retained);
    if *retained != Some(length) {
        *retained = None;
    }
    match take_steps(device, steps, Ghost(start), Ghost(opened), &*outlet, Ghost(p1)) {
        Ok(()) => {},
        Err((failure, at)) => {
            proof {
                assert(p1 + turns.subrange(0, at@ + 1) =~= first.subrange(0, at@ + 2));
                assert(!submits(opening_steps(length, kept)[at@]));
                lemma_stopped_early(
                    start,
                    *device,
                    opened,
                    *outlet,
                    commands,
                    carry,
                    kept,
                    at@ + 2,
                    failure,
                );
            }
            return Err(failure);
        },
    }
    *retained = Some(length);
    let cancelled: bool = take_question(device, outlet, Ghost(start), Ghost(opened), Ghost(p2));
    if cancelled {
        let failure: CudaStreamFailure = CudaStreamFailure {
            error: VisualizeError::Cancelled,
            started: false,
        };
        proof {
            lemma_stopped_early(
                start,
                *device,
                opened,
                *outlet,
                commands,
                carry,
                kept,
                n + 2,
                failure,
            );
        }
        return Err(failure);
    }
    match take_upload(device, ops, Ghost(start), Ghost(opened), &*outlet, Ghost(p3)) {
        Ok(()) => {},
        Err(failure) => {
            proof {
                lemma_stopped_early(
                    start,
                    *device,
                    opened,
                    *outlet,
                    commands,
                    carry,
                    kept,
                    n + 3,
                    failure,
                );
            }
            return Err(failure);
        },
    }
    let cancelled: bool = take_question(device, outlet, Ghost(start), Ghost(opened), Ghost(p4));
    if cancelled {
        let failure: CudaStreamFailure = CudaStreamFailure {
            error: VisualizeError::Cancelled,
            started: false,
        };
        proof {
            lemma_stopped_early(
                start,
                *device,
                opened,
                *outlet,
                commands,
                carry,
                kept,
                n + 4,
                failure,
            );
        }
        return Err(failure);
    }
    Ok(())
}

/// What a group that stopped among its kernels comes to.
proof fn lemma_stopped_late<
    F: Fn() -> bool,
    E: Fn(Turtle2dBatch) -> Result<(), VisualizeError>,
    D: Fn(DeviceStep) -> Result<(), DeviceFault>,
    U: Fn(Vec<EncodedOp>) -> Result<(), DeviceFault>,
    L: Fn(Vec<GpuOutput>, usize) -> Result<Vec<GpuOutput>, DeviceFault>,
    Q: Fn() -> Result<DeviceLimits, VisualizeError>,
>(
    start: TurtleDevice<D, U, L, Q>,
    device: TurtleDevice<D, U, L, Q>,
    opened: Outlet<Turtle2dBatch, F, E>,
    outlet: Outlet<Turtle2dBatch, F, E>,
    ops: Seq<EncodedOp>,
    carry: TurtleCarry,
    retained: Option<usize>,
    k: int,
    failure: CudaStreamFailure,
)
    requires
        0 < k <= kernel_turns(ops.len() as usize, carry).len(),
        failure.started,
        ({
            let past = first_turns(ops, retained) + kernel_turns(
                ops.len() as usize,
                carry,
            ).subrange(0, k);
            ended(start, device, opened, outlet, past, failure.error@) || (reached(
                start,
                device,
                opened,
                outlet,
                past,
            ) && (past.last() is Act) && stop_reason(
                start,
                ops.len() as usize,
                past.last(),
                Seq::<Exchange<Turtle2dBatch>>::empty(),
                opened.sink(),
                failure.error@,
            ))
        }),
    ensures
        gave_up(start, device, opened, outlet, ops, carry, retained, failure),
{
    let first = first_turns(ops, retained);
    let kernels = kernel_turns(ops.len() as usize, carry);
    let none = None::<Seq<GpuOutput>>;
    let turns = group_turns(ops, carry, retained, none);
    let past = first + kernels.subrange(0, k);
    let rest = turns.subrange(past.len() as int, turns.len() as int);
    assert(turns =~= past + rest);
    let later = kernels.subrange(1, k);
    assert(past =~= first + (seq![Turn::Act(DeviceAct::Did(DeviceStep::EncodeHeading))] + later));
    lemma_kernels_submit(first, later);
    lemma_group_stopped(
        start,
        device,
        opened,
        outlet,
        ops,
        carry,
        retained,
        none,
        past,
        rest,
        failure,
    );
}

/// Run the kernels of a group.
fn run_kernels<
    F: Fn() -> bool,
    E: Fn(Turtle2dBatch) -> Result<(), VisualizeError>,
    D: Fn(DeviceStep) -> Result<(), DeviceFault>,
    U: Fn(Vec<EncodedOp>) -> Result<(), DeviceFault>,
    L: Fn(Vec<GpuOutput>, usize) -> Result<Vec<GpuOutput>, DeviceFault>,
    Q: Fn() -> Result<DeviceLimits, VisualizeError>,
>(
    device: &mut TurtleDevice<D, U, L, Q>,
    length: usize,
    carry: TurtleCarry,
    outlet: &mut Outlet<Turtle2dBatch, F, E>,
    Ghost(start): Ghost<TurtleDevice<D, U, L, Q>>,
    Ghost(opened): Ghost<Outlet<Turtle2dBatch, F, E>>,
    Ghost(commands): Ghost<Seq<EncodedOp>>,
    Ghost(kept): Ghost<Option<usize>>,
) -> (r: Result<(), CudaStreamFailure>)
    requires
        0 < length <= u32::MAX,
        commands.len() == length,
        reached(start, *old(device), opened, *old(outlet), first_turns(commands, kept)),
    ensures
        match r {
            Ok(()) => reached(
                start,
                *final(device),
                opened,
                *final(outlet),
                first_turns(commands, kept) + kernel_turns(length, carry),
            ),
            Err(failure) => gave_up(
                start,
                *final(device),
                opened,
                *final(outlet),
                commands,
                carry,
                kept,
                failure,
            ),
        },
{
    let ghost first = first_turns(commands, kept);
    let ghost all = kernel_turns(length, carry);
    let ghost headings = scan_turns(length as int, 1, true, true);
    let ghost motions = scan_turns(length as int, 1, true, false);
    let ghost h = headings.len() as int;
    let ghost m = motions.len() as int;
    let ghost p1 = first.push(all[0]);
    let ghost p2 = p1 + headings;
    let ghost p3 = p2.push(Turn::Ask);
    let ghost p4 = p3.push(all[h + 2]);
    let ghost p5 = p4 + motions;
    let ghost p6 = p5.push(Turn::Ask);
    let ghost p7 = p6.push(all[h + m + 4]);
    proof {
        assert(all.len() == h + m + 5);
        assert(all[h + 1] == Turn::Ask);
        assert(all[h + m + 3] == Turn::Ask);
        assert(p1 =~= first + all.subrange(0, 1));
        assert(p2 =~= first + all.subrange(0, h + 1));
        assert(p3 =~= first + all.subrange(0, h + 2));
        assert(p4 =~= first + all.subrange(0, h + 3));
        assert(p5 =~= first + all.subrange(0, h + m + 3));
        assert(p6 =~= first + all.subrange(0, h + m + 4));
        assert(p7 =~= first + all.subrange(0, h + m + 5));
        assert(p7 =~= first + all);
    }
    match take_step(
        device,
        DeviceStep::EncodeHeading,
        Ghost(start),
        Ghost(opened),
        &*outlet,
        Ghost(first),
    ) {
        Ok(()) => {},
        Err(failure) => {
            proof {
                lemma_stopped_late(
                    start,
                    *device,
                    opened,
                    *outlet,
                    commands,
                    carry,
                    kept,
                    1,
                    failure,
                );
            }
            return Err(failure);
        },
    }
    let headings_in_first: bool = match run_scan(
        device,
        length,
        true,
        outlet,
        Ghost(start),
        Ghost(opened),
        Ghost(p1),
    ) {
        Ok(in_first) => in_first,
        Err((failure, at)) => {
            proof {
                assert(p1 + headings.subrange(0, at@) =~= first + all.subrange(0, at@ + 1));
                lemma_stopped_late(
                    start,
                    *device,
                    opened,
                    *outlet,
                    commands,
                    carry,
                    kept,
                    at@ + 1,
                    failure,
                );
            }
            return Err(failure);
        },
    };
    let cancelled: bool = take_question(device, outlet, Ghost(start), Ghost(opened), Ghost(p2));
    if cancelled {
        let failure: CudaStreamFailure = CudaStreamFailure {
            error: VisualizeError::Cancelled,
            started: true,
        };
        proof {
            lemma_stopped_late(
                start,
                *device,
                opened,
                *outlet,
                commands,
                carry,
                kept,
                h + 2,
                failure,
            );
        }
        return Err(failure);
    }
    let motion: DeviceStep = DeviceStep::EncodeMotion { headings_in_first, carry };
    assert(all[h + 2] == Turn::Act(DeviceAct::Did(motion)));
    match take_step(device, motion, Ghost(start), Ghost(opened), &*outlet, Ghost(p3)) {
        Ok(()) => {},
        Err(failure) => {
            proof {
                lemma_stopped_late(
                    start,
                    *device,
                    opened,
                    *outlet,
                    commands,
                    carry,
                    kept,
                    h + 3,
                    failure,
                );
            }
            return Err(failure);
        },
    }
    let motions_in_first: bool = match run_scan(
        device,
        length,
        false,
        outlet,
        Ghost(start),
        Ghost(opened),
        Ghost(p4),
    ) {
        Ok(in_first) => in_first,
        Err((failure, at)) => {
            proof {
                assert(p4 + motions.subrange(0, at@) =~= first + all.subrange(0, h + 3 + at@));
                lemma_stopped_late(
                    start,
                    *device,
                    opened,
                    *outlet,
                    commands,
                    carry,
                    kept,
                    h + 3 + at@,
                    failure,
                );
            }
            return Err(failure);
        },
    };
    let cancelled: bool = take_question(device, outlet, Ghost(start), Ghost(opened), Ghost(p5));
    if cancelled {
        let failure: CudaStreamFailure = CudaStreamFailure {
            error: VisualizeError::Cancelled,
            started: true,
        };
        proof {
            lemma_stopped_late(
                start,
                *device,
                opened,
                *outlet,
                commands,
                carry,
                kept,
                h + m + 4,
                failure,
            );
        }
        return Err(failure);
    }
    let geometry: DeviceStep = DeviceStep::EmitGeometry {
        headings_in_first,
        motions_in_first,
        carry,
    };
    assert(all[h + m + 4] == Turn::Act(DeviceAct::Did(geometry)));
    match take_step(device, geometry, Ghost(start), Ghost(opened), &*outlet, Ghost(p6)) {
        Ok(()) => Ok(()),
        Err(failure) => {
            proof {
                lemma_stopped_late(
                    start,
                    *device,
                    opened,
                    *outlet,
                    commands,
                    carry,
                    kept,
                    h + m + 5,
                    failure,
                );
            }
            Err(failure)
        },
    }
}

proof fn lemma_group_begins<
    F: Fn() -> bool,
    E: Fn(Turtle2dBatch) -> Result<(), VisualizeError>,
    D: Fn(DeviceStep) -> Result<(), DeviceFault>,
    U: Fn(Vec<EncodedOp>) -> Result<(), DeviceFault>,
    L: Fn(Vec<GpuOutput>, usize) -> Result<Vec<GpuOutput>, DeviceFault>,
    Q: Fn() -> Result<DeviceLimits, VisualizeError>,
>(device: TurtleDevice<D, U, L, Q>, outlet: Outlet<Turtle2dBatch, F, E>)
    requires
        device.ready(),
        outlet.ready(),
    ensures
        reached(device, device, outlet, outlet, Seq::empty()),
{
    reveal(reached);
    lemma_listening_starts(outlet);
    lemma_nothing_asked(device);
    assert(acts_in(Seq::<Turn>::empty()) =~= Seq::empty());
}

proof fn lemma_group_ends<
    F: Fn() -> bool,
    E: Fn(Turtle2dBatch) -> Result<(), VisualizeError>,
    D: Fn(DeviceStep) -> Result<(), DeviceFault>,
    U: Fn(Vec<EncodedOp>) -> Result<(), DeviceFault>,
    L: Fn(Vec<GpuOutput>, usize) -> Result<Vec<GpuOutput>, DeviceFault>,
    Q: Fn() -> Result<DeviceLimits, VisualizeError>,
>(start: TurtleDevice<D, U, L, Q>, device: TurtleDevice<D, U, L, Q>, opened: Outlet<Turtle2dBatch, F, E>, outlet: Outlet<Turtle2dBatch, F, E>, past: Seq<Turn>)
    requires
        reached(start, device, opened, outlet, past),
    ensures
        device.ready(),
        device.follows(start),
        device.since(start) == acts_in(past),
        all_done(start, acts_in(past)),
        outlet.ready(),
        outlet.follows(opened),
        questions(outlet.since(opened)),
        quiet(outlet.since(opened)),
        outlet.since(opened).len() == asks_in(past),
{
    reveal(reached);
    lemma_listened(opened, outlet);
}

/// Run one group of commands on a device.
///
/// `retained` is the size of the buffers that the device keeps. Buffers of
/// another size are given up before new ones are asked for. The device is
/// asked for what the group needs, in order and each once; the hook is asked
/// before every stage, and the sink is handed nothing.
pub fn run_chunk<
    F: Fn() -> bool,
    E: Fn(Turtle2dBatch) -> Result<(), VisualizeError>,
    D: Fn(DeviceStep) -> Result<(), DeviceFault>,
    U: Fn(Vec<EncodedOp>) -> Result<(), DeviceFault>,
    L: Fn(Vec<GpuOutput>, usize) -> Result<Vec<GpuOutput>, DeviceFault>,
    Q: Fn() -> Result<DeviceLimits, VisualizeError>,
>(
    device: &mut TurtleDevice<D, U, L, Q>,
    retained: &mut Option<usize>,
    ops: Vec<EncodedOp>,
    carry: TurtleCarry,
    outlet: &mut Outlet<Turtle2dBatch, F, E>,
) -> (r: Result<Vec<GpuOutput>, CudaStreamFailure>)
    requires
        old(device).ready(),
        0 < ops@.len() <= u32::MAX,
        old(outlet).ready(),
    ensures
        final(device).ready(),
        final(device).follows(*old(device)),
        final(outlet).ready(),
        final(outlet).follows(*old(outlet)),
        questions(final(outlet).since(*old(outlet))),
        match r {
            Ok(outputs) => {
                &&& final(device).since(*old(device)) == group_acts(
                    ops@,
                    carry,
                    *old(retained),
                    Some(outputs@),
                )
                &&& all_done(*old(device), final(device).since(*old(device)))
                &&& outputs@.len() == ops@.len()
                &&& quiet(final(outlet).since(*old(outlet)))
                &&& final(outlet).since(*old(outlet)).len() == group_questions(ops@.len() as int)
                &&& *final(retained) == Some(ops@.len() as usize)
            },
            Err(failure) => group_stopped(
                *old(device),
                *final(device),
                ops@,
                carry,
                *old(retained),
                final(outlet).since(*old(outlet)),
                old(outlet).sink(),
                failure,
            ),
        },
        *final(retained) == *old(retained) || *final(retained) is None || *final(retained) == Some(
            ops@.len() as usize,
        ),
{
    let length: usize = ops.len();
    let ghost start = *device;
    let ghost opened = *outlet;
    let ghost kept = *retained;
    let ghost commands = ops@;
    proof {
        lemma_group_begins(start, opened);
    }
    match open_group(
        device,
        retained,
        ops,
        outlet,
        Ghost(start),
        Ghost(opened),
        Ghost(carry),
    ) {
        Ok(()) => {},
        Err(failure) => {
            return Err(failure);
        },
    }
    match run_kernels(
        device,
        length,
        carry,
        outlet,
        Ghost(start),
        Ghost(opened),
        Ghost(commands),
        Ghost(kept),
    ) {
        Ok(()) => {},
        Err(failure) => {
            return Err(failure);
        },
    }
    let ghost kernels = kernel_turns(length, carry);
    let ghost first = first_turns(commands, kept);
    let ghost past = first + kernels;
    let ghost none = None::<Seq<GpuOutput>>;
    proof {
        assert(kernels.subrange(0, kernels.len() as int) =~= kernels);
        assert(kernels.last() == past.last());
    }
    let mut room: Vec<GpuOutput> = Vec::new();
    if !reserve_exact(&mut room, length) {
        let failure: CudaStreamFailure = CudaStreamFailure {
            error: resource_error("CUDA turtle host output", length),
            started: true,
        };
        proof {
            lemma_stopped_late(
                start,
                *device,
                opened,
                *outlet,
                commands,
                carry,
                kept,
                kernels.len() as int,
                failure,
            );
        }
        return Err(failure);
    }
    let ghost before = *device;
    let ghost given = room;
    proof {
        lemma_group_ends(start, *device, opened, *outlet, past);
    }
    let downloaded: Result<Vec<GpuOutput>, DeviceFault> = device.download(room, length);
    proof {
        lemma_results_asked(
            start,
            before,
            *device,
            opened,
            *outlet,
            past,
            given,
            length,
            downloaded,
        );
    }
    let outputs: Vec<GpuOutput> = match downloaded {
        Ok(outputs) => outputs,
        Err(fault) => {
            let failure: CudaStreamFailure = begun("downloading turtle geometry", fault);
            proof {
                let act = Turn::Act(DeviceAct::Downloaded(length, none));
                let turns = group_turns(commands, carry, kept, none);
                assert(turns =~= past.push(act) + seq![Turn::Ask]);
                let later = kernels.subrange(1, kernels.len() as int).push(act);
                assert(past.push(act) =~= first + (seq![kernels[0]] + later));
                lemma_kernels_submit(first, later);
                lemma_group_stopped(
                    start,
                    *device,
                    opened,
                    *outlet,
                    commands,
                    carry,
                    kept,
                    none,
                    past.push(act),
                    seq![Turn::Ask],
                    failure,
                );
            }
            return Err(failure);
        },
    };
    let ghost reply = Some(outputs@);
    let ghost act = Turn::Act(DeviceAct::Downloaded(length, reply));
    let ghost whole = past.push(act).push(Turn::Ask);
    let cancelled: bool = take_question(
        device,
        outlet,
        Ghost(start),
        Ghost(opened),
        Ghost(past.push(act)),
    );
    proof {
        assert(group_turns(commands, carry, kept, reply) =~= whole);
        group_turns_ask_for_the_group(commands, carry, kept, reply);
    }
    if cancelled {
        let failure: CudaStreamFailure = CudaStreamFailure {
            error: VisualizeError::Cancelled,
            started: true,
        };
        proof {
            let later = kernels.subrange(1, kernels.len() as int).push(act).push(Turn::Ask);
            assert(whole =~= first + (seq![kernels[0]] + later));
            lemma_kernels_submit(first, later);
            assert(whole =~= whole + Seq::<Turn>::empty());
            lemma_group_stopped(
                start,
                *device,
                opened,
                *outlet,
                commands,
                carry,
                kept,
                reply,
                whole,
                Seq::empty(),
                failure,
            );
        }
        return Err(failure);
    }
    proof {
        lemma_group_ends(start, *device, opened, *outlet, whole);
    }
    Ok(outputs)
}

/// What a group that stopped before its first kernel comes to.
proof fn lemma_stopped_early<
    F: Fn() -> bool,
    E: Fn(Turtle2dBatch) -> Result<(), VisualizeError>,
    D: Fn(DeviceStep) -> Result<(), DeviceFault>,
    U: Fn(Vec<EncodedOp>) -> Result<(), DeviceFault>,
    L: Fn(Vec<GpuOutput>, usize) -> Result<Vec<GpuOutput>, DeviceFault>,
    Q: Fn() -> Result<DeviceLimits, VisualizeError>,
>(
    start: TurtleDevice<D, U, L, Q>,
    device: TurtleDevice<D, U, L, Q>,
    opened: Outlet<Turtle2dBatch, F, E>,
    outlet: Outlet<Turtle2dBatch, F, E>,
    ops: Seq<EncodedOp>,
    carry: TurtleCarry,
    retained: Option<usize>,
    k: int,
    failure: CudaStreamFailure,
)
    requires
        0 < k <= first_turns(ops, retained).len(),
        !failure.started,
        ended(
            start,
            device,
            opened,
            outlet,
            first_turns(ops, retained).subrange(0, k),
            failure.error@,
        ),
    ensures
        gave_up(start, device, opened, outlet, ops, carry, retained, failure),
{
    let first = first_turns(ops, retained);
    let past = first.subrange(0, k);
    let none = None::<Seq<GpuOutput>>;
    let turns = group_turns(ops, carry, retained, none);
    let rest = turns.subrange(k, turns.len() as int);
    assert(turns =~= past + rest);
    lemma_first_turns(ops, retained, k);
    lemma_group_stopped(
        start,
        device,
        opened,
        outlet,
        ops,
        carry,
        retained,
        none,
        past,
        rest,
        failure,
    );
}

/// Hand the commands over in their turn.
fn take_upload<
    F: Fn() -> bool,
    E: Fn(Turtle2dBatch) -> Result<(), VisualizeError>,
    D: Fn(DeviceStep) -> Result<(), DeviceFault>,
    U: Fn(Vec<EncodedOp>) -> Result<(), DeviceFault>,
    L: Fn(Vec<GpuOutput>, usize) -> Result<Vec<GpuOutput>, DeviceFault>,
    Q: Fn() -> Result<DeviceLimits, VisualizeError>,
>(
    device: &mut TurtleDevice<D, U, L, Q>,
    ops: Vec<EncodedOp>,
    Ghost(start): Ghost<TurtleDevice<D, U, L, Q>>,
    Ghost(opened): Ghost<Outlet<Turtle2dBatch, F, E>>,
    outlet: &Outlet<Turtle2dBatch, F, E>,
    Ghost(past): Ghost<Seq<Turn>>,
) -> (r: Result<(), CudaStreamFailure>)
    requires
        reached(start, *old(device), opened, *outlet, past),
    ensures
        match r {
            Ok(()) => reached(
                start,
                *final(device),
                opened,
                *outlet,
                past.push(Turn::Act(DeviceAct::Uploaded(ops@))),
            ),
            Err(failure) => ended(
                start,
                *final(device),
                opened,
                *outlet,
                past.push(Turn::Act(DeviceAct::Uploaded(ops@))),
                failure.error@,
            ) && !failure.started,
        },
{
    let ghost before = *device;
    let ghost given = ops;
    let ghost act = DeviceAct::Uploaded(ops@);
    proof {
        reveal(reached);
        reveal(ended);
        lemma_next_turn(past, Turn::Act(act));
    }
    let reply: Result<(), DeviceFault> = device.upload(ops);
    proof {
        lemma_one_act(start, before, *device, act);
    }
    match reply {
        Ok(nothing) => {
            assert(nothing == ());
            assert(reply == Ok::<(), DeviceFault>(()));
            assert(call_ensures(start.uploader(), (given,), Ok::<(), DeviceFault>(())));
            assert(act_done(start, act));
            Ok(())
        },
        Err(fault) => {
            assert(call_ensures(start.uploader(), (given,), Err::<(), DeviceFault>(fault)));
            Err(unstarted("uploading turtle commands", fault))
        },
    }
}

/// What asking the device for the results in their turn comes to.
proof fn lemma_results_asked<
    F: Fn() -> bool,
    E: Fn(Turtle2dBatch) -> Result<(), VisualizeError>,
    D: Fn(DeviceStep) -> Result<(), DeviceFault>,
    U: Fn(Vec<EncodedOp>) -> Result<(), DeviceFault>,
    L: Fn(Vec<GpuOutput>, usize) -> Result<Vec<GpuOutput>, DeviceFault>,
    Q: Fn() -> Result<DeviceLimits, VisualizeError>,
>(
    start: TurtleDevice<D, U, L, Q>,
    before: TurtleDevice<D, U, L, Q>,
    device: TurtleDevice<D, U, L, Q>,
    opened: Outlet<Turtle2dBatch, F, E>,
    outlet: Outlet<Turtle2dBatch, F, E>,
    past: Seq<Turn>,
    room: Vec<GpuOutput>,
    count: usize,
    reply: Result<Vec<GpuOutput>, DeviceFault>,
)
    requires
        reached(start, before, opened, outlet, past),
        device.ready(),
        device.same(before),
        device.log() == before.log().push(DeviceAct::Downloaded(count, results_in(reply))),
        call_ensures(before.downloader(), (room, count), reply),
    ensures
        reply is Ok ==> (reply->Ok_0)@.len() == count,
        reply is Ok ==> reached(
            start,
            device,
            opened,
            outlet,
            past.push(Turn::Act(DeviceAct::Downloaded(count, results_in(reply)))),
        ),
        reply is Err ==> ended(
            start,
            device,
            opened,
            outlet,
            past.push(Turn::Act(DeviceAct::Downloaded(count, results_in(reply)))),
            runtime_failure("downloading turtle geometry"@, (reply->Err_0).reason@),
        ),
{
    let act = DeviceAct::Downloaded(count, results_in(reply));
    reveal(reached);
    reveal(ended);
    lemma_next_turn(past, Turn::Act(act));
    lemma_one_act(start, before, device, act);
    match reply {
        Ok(outputs) => {
            assert(call_ensures(before.downloader(), (room, count), Ok::<_, DeviceFault>(outputs)));
            assert(gave_results(start, count, outputs@));
            assert(act_done(start, act));
        },
        Err(fault) => {
            assert(call_ensures(
                start.downloader(),
                (room, count),
                Err::<Vec<GpuOutput>, DeviceFault>(fault),
            ));
            assert(gave_none(
                start,
                count,
                runtime_failure("downloading turtle geometry"@, fault.reason@),
            ));
        },
    }
}

/// Before the commands are on the device no step submits a kernel, and every
/// step after that does: a failed step tells whether work had begun.
pub proof fn only_kernels_start_work(
    length: usize,
    retained: Option<usize>,
    carry: TurtleCarry,
)
    ensures
        forall|i: int|
            0 <= i < opening_steps(length, retained).len() ==> !submits(
                #[trigger] opening_steps(length, retained)[i],
            ),
        forall|i: int|
            0 <= i < kernel_steps(length, carry).len() ==> submits(
                #[trigger] kernel_steps(length, carry)[i],
            ),
{
    lemma_scans_submit(length as int, 1, true, true);
    lemma_scans_submit(length as int, 1, true, false);
    let scan = scan_steps(length as int, 1, true, true);
    let second = scan_steps(length as int, 1, true, false);
    let kernels = kernel_steps(length, carry);
    assert forall|i: int| 0 <= i < kernels.len() implies submits(#[trigger] kernels[i]) by {
        if 1 <= i < 1 + scan.len() {
            assert(kernels[i] == scan[i - 1]);
        } else if 2 + scan.len() <= i < 2 + scan.len() + second.len() {
            assert(kernels[i] == second[i - 2 - scan.len()]);
        }
    }
}

proof fn lemma_scans_submit(length: int, stride: int, from_first: bool, headings: bool)
    requires
        stride > 0,
    ensures
        forall|i: int|
            0 <= i < scan_steps(length, stride, from_first, headings).len() ==> submits(
                #[trigger] scan_steps(length, stride, from_first, headings)[i],
            ),
    decreases crate::transform::rest_of(length, stride),
{
    if stride < length {
        lemma_scans_submit(length, 2 * stride, !from_first, headings);
        let all = scan_steps(length, stride, from_first, headings);
        let later = scan_steps(length, 2 * stride, !from_first, headings);
        assert forall|i: int| 0 <= i < all.len() implies submits(#[trigger] all[i]) by {
            if i > 0 {
                assert(all[i] == later[i - 1]);
            }
        }
    }
}

} // verus!
