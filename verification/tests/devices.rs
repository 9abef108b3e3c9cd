//! Turtle commands as transforms that can be scanned, and streams through a
//! device that works with them. The device here is the host itself.

use std::cell::{Cell, RefCell};

use braken_viz::cuda::stream_cuda;
use braken_viz::device::{
    cuda_allocation_error, plan_group, run_chunk, Buffer, CudaStreamFailure, DeviceFault,
    DeviceLimits, DeviceStep, TurtleDevice,
};
use braken_viz::stream_2d::stream_cpu_validated;
use braken_viz::transform::{
    apply_width, compose_heading, compose_motion, compose_width, encode, heading_transform,
    run_group, EncodedOp, GpuOutput, MotionTransform, TurtleCarry, WidthTransform,
};
use braken_viz::turtle_2d::TurtleOp;
use braken_viz::{
    Arithmetic, Generation, GenerationItem, IndexedModulePosition2d, Module, Outlet, Real, StyledLine2d,
    Turtle2dBatch, Turtle2dConfig, Turtle2dProgress, Turtle2dStreamRequest, Turtle2dStreamSummary,
    Turtle2dStreamer, Value, VisualizeError, VisualizerBackend, VisualizerKind,
};

fn number(value: f64) -> Real {
    Real::from_bits(value.to_bits())
}

fn float(value: Real) -> f64 {
    f64::from_bits(value.to_bits())
}

fn calc(op: Arithmetic) -> Real {
    number(match op {
        Arithmetic::Sum(a, b) => float(a) + float(b),
        Arithmetic::Difference(a, b) => float(a) - float(b),
        Arithmetic::Product(a, b) => float(a) * float(b),
        Arithmetic::Quotient(a, b) => float(a) / float(b),
        Arithmetic::Reciprocal(a) => 1.0 / float(a),
        Arithmetic::Radians(a) => float(a).to_radians(),
        Arithmetic::Cosine(a) => float(a).cos(),
        Arithmetic::Sine(a) => float(a).sin(),
        Arithmetic::ArcTangent(a) => float(a).atan(),
        Arithmetic::SquareRoot(a) => float(a).sqrt(),
        Arithmetic::Hypotenuse(a, b) => float(a).hypot(float(b)),
        Arithmetic::Rounded(a) => float(a).round(),
        Arithmetic::Ceiling(a) => float(a).ceil(),
        Arithmetic::Widened(bits) => f64::from(f32::from_bits(bits)),
        Arithmetic::Narrowed(a) => f64::from(float(a) as f32),
        Arithmetic::Count(n) => n as f64,
        Arithmetic::Integer(n) => n as f64,
    })
}

fn module(name: &str) -> GenerationItem {
    GenerationItem::Module(Module::new(name, Vec::new()))
}

fn numeric(name: &str, value: f64) -> GenerationItem {
    GenerationItem::Module(Module::new(name, vec![Value::Number(number(value))]))
}

fn never() -> bool {
    false
}

/// What a device on the host holds, and what it was asked to do.
#[derive(Default)]
struct Host {
    ops: RefCell<Vec<EncodedOp>>,
    outputs: RefCell<Vec<GpuOutput>>,
    steps: RefCell<Vec<DeviceStep>>,
    free_memory: Cell<usize>,
    refuse: Cell<Option<DeviceStep>>,
}

impl Host {
    fn new() -> Host {
        let host = Host::default();
        host.free_memory.set(1 << 30);
        host
    }

    fn perform(&self, step: DeviceStep) -> Result<(), DeviceFault> {
        self.steps.borrow_mut().push(step);
        if self.refuse.get() == Some(step) {
            return Err(DeviceFault {
                out_of_memory: false,
                reason: String::from("refused"),
            });
        }
        if let DeviceStep::EmitGeometry { carry, .. } = step {
            *self.outputs.borrow_mut() = self.computed(carry);
        }
        Ok(())
    }

    fn computed(&self, carry: TurtleCarry) -> Vec<GpuOutput> {
        run_group(&self.ops.borrow(), carry, &calc)
    }

    fn download(&self, count: usize) -> Vec<GpuOutput> {
        let outputs = self.outputs.borrow();
        assert_eq!(outputs.len(), count);
        outputs.clone()
    }

    fn allocations(&self) -> usize {
        self.steps
            .borrow()
            .iter()
            .filter(|step| matches!(step, DeviceStep::Allocate(Buffer::Input, _)))
            .count()
    }

    fn stream<F: Fn() -> bool, E: Fn(Turtle2dBatch) -> Result<(), VisualizeError>>(
        &self,
        retained: &mut Option<usize>,
        generation: &Generation,
        config: &Turtle2dConfig,
        batch_size: usize,
        is_cancelled: &F,
        emit: E,
    ) -> Result<Turtle2dStreamSummary, CudaStreamFailure> {
        let mut device = TurtleDevice::new(
            |step: DeviceStep| self.perform(step),
            |ops: Vec<EncodedOp>| {
                *self.ops.borrow_mut() = ops;
                Ok(())
            },
            |_room: Vec<GpuOutput>, count: usize| Ok(self.download(count)),
            || {
                Ok(DeviceLimits {
                    free_memory: self.free_memory.get(),
                    max_grid: 1 << 20,
                })
            },
        );
        stream_cuda(
            &mut device,
            retained,
            generation,
            config,
            batch_size,
            &mut Outlet::new(is_cancelled, emit),
            &calc,
        )
    }
}

#[test]
fn ordered_heading_scan_composition_matches_sequential_state() {
    let ops = [
        TurtleOp::Turn(number(0.3)),
        TurtleOp::InvertTurns,
        TurtleOp::Turn(number(0.2)),
        TurtleOp::Scale(number(2.0)),
        TurtleOp::InvertTurns,
        TurtleOp::Turn(number(-0.1)),
        TurtleOp::Scale(number(0.25)),
    ];
    let transforms = ops
        .into_iter()
        .map(|op| heading_transform(encode(op)))
        .collect::<Vec<_>>();
    let mut scanned = transforms.clone();
    let mut scratch = scanned.clone();
    let mut stride = 1;
    while stride < scanned.len() {
        for index in 0..scanned.len() {
            scratch[index] = if index < stride {
                scanned[index]
            } else {
                compose_heading(scanned[index - stride], scanned[index], &calc)
            };
        }
        std::mem::swap(&mut scanned, &mut scratch);
        stride *= 2;
    }

    let mut angle = 0.4;
    let mut scale = 1.5;
    let mut inverted = false;
    for (index, op) in ops.into_iter().enumerate() {
        match op {
            TurtleOp::Turn(delta) => angle += if inverted { -float(delta) } else { float(delta) },
            TurtleOp::TurnAround => angle += std::f64::consts::PI,
            TurtleOp::InvertTurns => inverted = !inverted,
            TurtleOp::Scale(value) => scale *= float(value),
            _ => {}
        }
        let prefix = scanned[index];
        let actual_angle = 0.4 + float(prefix.normal_delta);
        assert!((actual_angle - angle).abs() < 1.0e-12);
        assert!((1.5 * float(prefix.scale) - scale).abs() < 1.0e-12);
        assert_eq!(prefix.inverts, inverted);
    }
}

#[test]
fn composed_width_commands_preserve_set_and_clamp_order() {
    let commands = [
        WidthTransform::adjust(number(-2.0)),
        WidthTransform::adjust(number(0.5)),
        WidthTransform::set(number(3.0)),
        WidthTransform::adjust(number(-5.0)),
        WidthTransform::adjust(number(1.25)),
    ];
    let combined = commands
        .into_iter()
        .fold(WidthTransform::default(), |first, second| {
            compose_width(first, second, &calc)
        });
    for initial in [0.0, 1.0, 10.0] {
        let expected = commands
            .into_iter()
            .fold(number(initial), |width, command| {
                apply_width(command, width, &calc)
            });
        assert_eq!(
            float(apply_width(combined, number(initial), &calc)),
            float(expected)
        );
    }
}

#[test]
fn ordered_motion_composition_matches_sequential_displacement_and_width() {
    let commands = [
        MotionTransform {
            dx: number(1.0),
            dy: number(-2.0),
            width: WidthTransform::default(),
        },
        MotionTransform {
            dx: number(0.0),
            dy: number(0.0),
            width: WidthTransform::adjust(number(-3.0)),
        },
        MotionTransform {
            dx: number(4.0),
            dy: number(0.5),
            width: WidthTransform::set(number(2.0)),
        },
        MotionTransform {
            dx: number(-0.25),
            dy: number(8.0),
            width: WidthTransform::adjust(number(1.5)),
        },
    ];
    let combined = commands
        .into_iter()
        .fold(MotionTransform::default(), |first, second| {
            compose_motion(first, second, &calc)
        });
    let mut x = 0.0;
    let mut y = 0.0;
    let mut width = number(5.0);
    for command in commands {
        x += float(command.dx);
        y += float(command.dy);
        width = apply_width(command.width, width, &calc);
    }
    assert_eq!(float(combined.dx), x);
    assert_eq!(float(combined.dy), y);
    assert_eq!(
        float(apply_width(combined.width, number(5.0), &calc)),
        float(width)
    );
}

#[test]
fn explicit_cuda_rejects_branches_before_device_initialization() {
    let generation = Generation(vec![GenerationItem::Branch(Generation::default())]);
    let opened = Cell::new(false);
    let host = Host::new();
    let mut device = TurtleDevice::new(
        |step: DeviceStep| host.perform(step),
        |_: Vec<EncodedOp>| Ok(()),
        |_: Vec<GpuOutput>, count: usize| Ok(host.download(count)),
        || {
            Ok(DeviceLimits {
                free_memory: 0,
                max_grid: 0,
            })
        },
    );
    let error = Turtle2dStreamer::new()
        .stream_on_device(
            VisualizerBackend::Cuda,
            Turtle2dStreamRequest {
                generation: &generation,
                config: Turtle2dConfig::default(),
                batch_size: 16,
            },
            &|| {
                opened.set(true);
                Ok(())
            },
            &mut device,
            &mut Outlet::new(&never, |_: Turtle2dBatch| Ok(())),
            &calc,
        )
        .unwrap_err();
    assert!(matches!(
        error,
        VisualizeError::UnsupportedInput {
            visualizer: VisualizerKind::Turtle2d,
            backend: VisualizerBackend::Cuda,
            ..
        }
    ));
    assert!(!opened.get());
}

#[test]
fn cuda_out_of_memory_is_a_typed_resource_error() {
    let error = cuda_allocation_error(
        "allocating test scratch",
        "CUDA test scratch",
        123,
        DeviceFault {
            out_of_memory: true,
            reason: String::from("out of memory"),
        },
    );
    assert_eq!(
        error,
        VisualizeError::ResourceExhausted {
            resource: "CUDA test scratch",
            requested: Some(123),
        }
    );
}

#[test]
fn other_allocation_failures_name_the_operation() {
    let error = cuda_allocation_error(
        "allocating test scratch",
        "CUDA test scratch",
        123,
        DeviceFault {
            out_of_memory: false,
            reason: String::from("lost"),
        },
    );
    assert_eq!(
        error,
        VisualizeError::BackendRuntime {
            backend: VisualizerBackend::Cuda,
            operation: "allocating test scratch",
            reason: String::from("lost"),
        }
    );
}

#[test]
fn cuda_stream_matches_cpu_when_a_device_is_available() {
    let host = Host::new();
    let generation = Generation(
        (0..513)
            .map(|index| match index % 9 {
                0 => numeric("F", 0.75),
                1 => numeric("Plus", 17.0),
                2 => numeric("Scale", 1.001),
                3 => module("InvertTurns"),
                4 => module("WidthIncrease"),
                5 => module("f"),
                6 => numeric("Minus", 8.0),
                7 => module("WidthDecrease"),
                _ => module("F"),
            })
            .collect(),
    );
    let config = Turtle2dConfig {
        initial_angle: number(0.125),
        width_increment: number(0.2),
        ..Default::default()
    };
    let expected = RefCell::new(Vec::new());
    let expected_positions = RefCell::new(Vec::new());
    stream_cpu_validated(
        &generation,
        &config,
        37,
        &mut Outlet::new(never, |batch: Turtle2dBatch| {
            expected.borrow_mut().extend(batch.lines);
            expected_positions
                .borrow_mut()
                .extend(batch.module_positions);
            Ok(())
        }),
        &calc,
    )
    .unwrap();
    let expected: Vec<StyledLine2d> = expected.into_inner();
    let expected_positions: Vec<IndexedModulePosition2d> = expected_positions.into_inner();
    let actual = RefCell::new(Vec::new());
    let actual_positions = RefCell::new(Vec::new());
    let summary = host
        .stream(&mut None, &generation, &config, 31, &never, |batch| {
            actual.borrow_mut().extend(batch.lines);
            actual_positions.borrow_mut().extend(batch.module_positions);
            Ok(())
        })
        .unwrap();
    let actual: Vec<StyledLine2d> = actual.into_inner();
    let actual_positions: Vec<IndexedModulePosition2d> = actual_positions.into_inner();

    assert_eq!(summary.backend_used, VisualizerBackend::Cuda);
    assert_eq!(actual.len(), expected.len());
    let near = |actual: Real, expected: Real| {
        let (actual, expected) = (float(actual), float(expected));
        let tolerance = 1.0e-9 * expected.abs().max(1.0);
        assert!((actual - expected).abs() <= tolerance);
    };
    for (actual, expected) in actual.iter().zip(&expected) {
        near(actual.line.0 .0, expected.line.0 .0);
        near(actual.line.0 .1, expected.line.0 .1);
        near(actual.line.1 .0, expected.line.1 .0);
        near(actual.line.1 .1, expected.line.1 .1);
        near(actual.width, expected.width);
    }
    assert_eq!(actual_positions.len(), expected_positions.len());
    for (actual, expected) in actual_positions.iter().zip(&expected_positions) {
        assert_eq!(actual.module_index, expected.module_index);
        near(actual.position.0, expected.position.0);
        near(actual.position.1, expected.position.1);
    }
}

#[test]
fn empty_cuda_stream_completes_without_allocating_a_group_when_available() {
    let host = Host::new();
    let generation = Generation::default();
    let batches = Cell::new(0);
    let mut retained = None;
    let summary = host
        .stream(
            &mut retained,
            &generation,
            &Turtle2dConfig::default(),
            8,
            &never,
            |_| {
                batches.set(batches.get() + 1);
                Ok(())
            },
        )
        .unwrap();
    assert_eq!(summary.backend_used, VisualizerBackend::Cuda);
    assert_eq!(summary.progress, Turtle2dProgress::default());
    assert_eq!(batches.get(), 0);
    assert!(retained.is_none());
    assert_eq!(host.allocations(), 0);
}

#[test]
fn compatible_cuda_streams_reuse_scratch_when_a_device_is_available() {
    let host = Host::new();
    let generation = Generation((0..64).map(|_| module("F")).collect());
    let mut retained = None;
    let mut first_scratch = None;
    for _ in 0..2 {
        host.stream(
            &mut retained,
            &generation,
            &Turtle2dConfig::default(),
            16,
            &never,
            |_| Ok(()),
        )
        .unwrap();
        let scratch = retained.expect("non-empty stream allocated scratch");
        if let Some(first_scratch) = first_scratch {
            assert_eq!(scratch, first_scratch);
        } else {
            assert_ne!(scratch, 0);
            first_scratch = Some(scratch);
        }
    }
    assert_eq!(host.allocations(), 1);
}

#[test]
fn cancellation_after_first_launch_is_not_a_fallback_safe_failure_when_available() {
    let host = Host::new();
    let generation = Generation((0..4).map(|_| module("F")).collect());
    let checks = Cell::new(0usize);
    let is_cancelled = || {
        let check = checks.get();
        checks.set(check + 1);
        check >= 8
    };
    let error = host
        .stream(
            &mut None,
            &generation,
            &Turtle2dConfig::default(),
            16,
            &is_cancelled,
            |_| Ok(()),
        )
        .unwrap_err();
    assert!(error.started);
    assert_eq!(error.error, VisualizeError::Cancelled);
}

#[test]
fn only_a_refused_kernel_counts_as_started() {
    let generation = Generation((0..4).map(|_| module("F")).collect());
    for (step, started) in [(DeviceStep::Bind, false), (DeviceStep::EncodeHeading, true)] {
        let host = Host::new();
        host.refuse.set(Some(step));
        let error = host
            .stream(
                &mut None,
                &generation,
                &Turtle2dConfig::default(),
                16,
                &never,
                |_| Ok(()),
            )
            .unwrap_err();
        assert_eq!(error.started, started);
        assert!(matches!(
            error.error,
            VisualizeError::BackendRuntime {
                backend: VisualizerBackend::Cuda,
                ..
            }
        ));
    }
}

#[test]
fn groups_fit_the_free_memory() {
    let limits = DeviceLimits {
        free_memory: 232 * 5 * 100,
        max_grid: 1 << 20,
    };
    assert_eq!(plan_group(1_000, limits, None), Ok(100));
    assert_eq!(plan_group(40, limits, None), Ok(40));
    assert!(plan_group(
        40,
        DeviceLimits {
            free_memory: 0,
            max_grid: 1 << 20
        },
        None
    )
    .is_err());
}

fn stream_with(
    host: &Host,
    streamer: &mut Turtle2dStreamer,
    backend: VisualizerBackend,
) -> Result<Turtle2dStreamSummary, VisualizeError> {
    let generation = Generation((0..4).map(|_| module("F")).collect());
    let mut device = TurtleDevice::new(
        |step: DeviceStep| host.perform(step),
        |ops: Vec<EncodedOp>| {
            *host.ops.borrow_mut() = ops;
            Ok(())
        },
        |_room: Vec<GpuOutput>, count: usize| Ok(host.download(count)),
        || {
            Ok(DeviceLimits {
                free_memory: host.free_memory.get(),
                max_grid: 1 << 20,
            })
        },
    );
    streamer.stream_on_device(
        backend,
        Turtle2dStreamRequest {
            generation: &generation,
            config: Turtle2dConfig::default(),
            batch_size: 16,
        },
        &|| Ok(()),
        &mut device,
        &mut Outlet::new(&never, |_: Turtle2dBatch| Ok(())),
        &calc,
    )
}

#[test]
fn only_automatic_requests_fall_back_and_only_before_work_began() {
    let healthy = Host::new();
    let mut streamer = Turtle2dStreamer::new();
    let summary = stream_with(&healthy, &mut streamer, VisualizerBackend::Auto).unwrap();
    assert_eq!(summary.backend_used, VisualizerBackend::Cuda);
    assert!(streamer.open);
    assert!(streamer.retained.is_some());

    let unbound = Host::new();
    unbound.refuse.set(Some(DeviceStep::Bind));
    let mut streamer = Turtle2dStreamer::new();
    let summary = stream_with(&unbound, &mut streamer, VisualizerBackend::Auto).unwrap();
    assert_eq!(summary.backend_used, VisualizerBackend::Cpu);
    assert!(!streamer.open);
    assert!(stream_with(&unbound, &mut streamer, VisualizerBackend::Cuda).is_err());

    let broken = Host::new();
    broken.refuse.set(Some(DeviceStep::EncodeHeading));
    let mut streamer = Turtle2dStreamer::new();
    assert!(matches!(
        stream_with(&broken, &mut streamer, VisualizerBackend::Auto),
        Err(VisualizeError::BackendRuntime { .. })
    ));
    assert!(!streamer.open);
}

#[test]
fn device_batches_come_in_order_behind_a_question() {
    let host = Host::new();
    let generation = Generation((0..5).map(|_| module("F")).collect());
    let asked = Cell::new(0usize);
    let handed = RefCell::new(Vec::new());
    host.stream(
        &mut None,
        &generation,
        &Turtle2dConfig::default(),
        2,
        &|| {
            asked.set(asked.get() + 1);
            false
        },
        |batch| {
            assert!(asked.get() > batch.progress.items_processed);
            handed
                .borrow_mut()
                .push((batch.progress.items_processed, batch.module_indices));
            Ok(())
        },
    )
    .unwrap();
    assert_eq!(
        handed.into_inner(),
        [(2, vec![0, 1]), (4, vec![2, 3]), (5, vec![4])]
    );
}

#[test]
fn nothing_is_handed_over_before_the_device_has_begun() {
    let generation = Generation((0..4).map(|_| module("F")).collect());
    for limit in 0..12 {
        let host = Host::new();
        let asked = Cell::new(0usize);
        let handed = Cell::new(0usize);
        let failure = host
            .stream(
                &mut None,
                &generation,
                &Turtle2dConfig::default(),
                1,
                &|| {
                    asked.set(asked.get() + 1);
                    asked.get() > limit
                },
                |_| {
                    handed.set(handed.get() + 1);
                    Ok(())
                },
            )
            .unwrap_err();
        assert_eq!(failure.error, VisualizeError::Cancelled);
        assert_eq!(asked.get(), limit + 1);
        assert!(failure.started || handed.get() == 0);
    }
}

fn run_recorded(limit: usize) -> (Result<usize, (VisualizeError, bool)>, Vec<&'static str>) {
    let happened = RefCell::new(Vec::new());
    let asked = Cell::new(0usize);
    let mut device = TurtleDevice::new(
        |step: DeviceStep| {
            happened.borrow_mut().push(match step {
                DeviceStep::Bind => "bind",
                DeviceStep::Allocate(..) => "allocate",
                DeviceStep::Prepare(..) => "prepare",
                DeviceStep::EncodeHeading => "encode heading",
                DeviceStep::ScanHeading { .. } => "scan heading",
                DeviceStep::EncodeMotion { .. } => "encode motion",
                DeviceStep::ScanMotion { .. } => "scan motion",
                DeviceStep::EmitGeometry { .. } => "emit",
            });
            Ok(())
        },
        |_: Vec<EncodedOp>| {
            happened.borrow_mut().push("upload");
            Ok(())
        },
        |_: Vec<GpuOutput>, count: usize| {
            happened.borrow_mut().push("download");
            let ops = vec![encode(TurtleOp::Draw(number(1.0))); count];
            let carry = TurtleCarry::initial(&Turtle2dConfig::default());
            Ok(run_group(&ops, carry, &calc))
        },
        || {
            Ok(DeviceLimits {
                free_memory: 1 << 30,
                max_grid: 1 << 20,
            })
        },
    );
    let mut outlet = Outlet::new(
        || {
            happened.borrow_mut().push("ask");
            asked.set(asked.get() + 1);
            asked.get() > limit
        },
        |_: Turtle2dBatch| Ok(()),
    );
    let ops = vec![encode(TurtleOp::Draw(number(1.0))); 3];
    let mut retained = Some(3);
    let config = Turtle2dConfig::default();
    let result = run_chunk(
        &mut device,
        &mut retained,
        ops,
        TurtleCarry::initial(&config),
        &mut outlet,
    )
    .map(|outputs| outputs.len())
    .map_err(|failure| (failure.error, failure.started));
    (result, happened.into_inner())
}

#[test]
fn a_group_asks_the_device_in_order() {
    let (result, happened) = run_recorded(usize::MAX);
    assert_eq!(result, Ok(3));
    assert_eq!(
        happened,
        [
            "ask",
            "bind",
            "prepare",
            "prepare",
            "prepare",
            "prepare",
            "prepare",
            "ask",
            "upload",
            "ask",
            "encode heading",
            "ask",
            "scan heading",
            "ask",
            "scan heading",
            "ask",
            "encode motion",
            "ask",
            "scan motion",
            "ask",
            "scan motion",
            "ask",
            "emit",
            "download",
            "ask",
        ]
    );
}

#[test]
fn a_cancelled_group_has_started_once_a_kernel_was_submitted() {
    let (_, all) = run_recorded(usize::MAX);
    let questions = all.iter().filter(|one| **one == "ask").count();
    assert_eq!(questions, 10);
    for limit in 0..questions {
        let (result, happened) = run_recorded(limit);
        let started = happened.contains(&"encode heading");
        assert_eq!(result, Err((VisualizeError::Cancelled, started)));
        assert_eq!(happened[..], all[..happened.len()]);
        assert_eq!(happened.last(), Some(&"ask"));
        assert_eq!(started, limit >= 3);
    }
}
