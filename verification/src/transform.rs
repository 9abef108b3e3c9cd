//! Turtle commands as composable transforms, and the prefix scans over them
//! that let a device place every command of a group at once.

use vstd::prelude::*;

use crate::number::{answers, calculate, calculates, Arithmetic, Real, HALF_BITS, ONE_BITS, PI_BITS};
use crate::turtle_2d::TurtleOp;

verus! {

pub const OP_DRAW: u32 = 1;

pub const OP_MOVE: u32 = 2;

pub const OP_TURN: u32 = 3;

pub const OP_TURN_AROUND: u32 = 4;

pub const OP_INVERT_TURNS: u32 = 5;

pub const OP_SCALE: u32 = 6;

pub const OP_WIDTH_SET: u32 = 7;

pub const OP_WIDTH_DELTA: u32 = 8;

pub const OP_HALF_MOVE: u32 = 9;

/// A command as a device reads it.
#[derive(Debug, Clone, Copy, PartialEq, Eq, Structural)]
pub struct EncodedOp {
    pub value: Real,
    pub tag: u32,
    pub draw: u32,
}

impl Default for EncodedOp {
    fn default() -> (r: Self)
        ensures
            r == idle_op(),
    {
        EncodedOp { value: Real { bits: 0 }, tag: 0, draw: 0 }
    }
}

/// The command that does nothing.
pub open spec fn idle_op() -> EncodedOp {
    EncodedOp { value: Real { bits: 0 }, tag: 0, draw: 0 }
}

/// A command with its tag; what a device cannot do is encoded as nothing.
pub open spec fn encoded(op: TurtleOp) -> EncodedOp {
    let none = Real { bits: 0 };
    match op {
        TurtleOp::Draw(value) => EncodedOp { value, tag: OP_DRAW, draw: 1 },
        TurtleOp::Move(value) => EncodedOp { value, tag: OP_MOVE, draw: 0 },
        TurtleOp::HalfMove(value) => EncodedOp { value, tag: OP_HALF_MOVE, draw: 0 },
        TurtleOp::Turn(value) => EncodedOp { value, tag: OP_TURN, draw: 0 },
        TurtleOp::TurnAround => EncodedOp { value: none, tag: OP_TURN_AROUND, draw: 0 },
        TurtleOp::InvertTurns => EncodedOp { value: none, tag: OP_INVERT_TURNS, draw: 0 },
        TurtleOp::Scale(value) => EncodedOp { value, tag: OP_SCALE, draw: 0 },
        TurtleOp::WidthSet(value) => EncodedOp { value, tag: OP_WIDTH_SET, draw: 0 },
        TurtleOp::WidthDelta(value) => EncodedOp { value, tag: OP_WIDTH_DELTA, draw: 0 },
        _ => idle_op(),
    }
}

pub fn encode(op: TurtleOp) -> (r: EncodedOp)
    ensures
        r == encoded(op),
{
    let none: Real = Real { bits: 0 };
    match op {
        TurtleOp::Draw(value) => EncodedOp { value, tag: OP_DRAW, draw: 1 },
        TurtleOp::Move(value) => EncodedOp { value, tag: OP_MOVE, draw: 0 },
        TurtleOp::HalfMove(value) => EncodedOp { value, tag: OP_HALF_MOVE, draw: 0 },
        TurtleOp::Turn(value) => EncodedOp { value, tag: OP_TURN, draw: 0 },
        TurtleOp::TurnAround => EncodedOp { value: none, tag: OP_TURN_AROUND, draw: 0 },
        TurtleOp::InvertTurns => EncodedOp { value: none, tag: OP_INVERT_TURNS, draw: 0 },
        TurtleOp::Scale(value) => EncodedOp { value, tag: OP_SCALE, draw: 0 },
        TurtleOp::WidthSet(value) => EncodedOp { value, tag: OP_WIDTH_SET, draw: 0 },
        TurtleOp::WidthDelta(value) => EncodedOp { value, tag: OP_WIDTH_DELTA, draw: 0 },
        _ => EncodedOp::default(),
    }
}

/// What commands do to the heading, to the step scale and to the sense of
/// turns.
#[derive(Debug, Clone, Copy, PartialEq, Eq, Structural)]
pub struct HeadingTransform {
    /// The turn when turns are not inverted at the start.
    pub normal_delta: Real,
    /// The turn when turns are inverted at the start.
    pub inverted_delta: Real,
    pub scale: Real,
    /// Whether the sense of turns is changed.
    pub inverts: bool,
}

impl HeadingTransform {
    pub open spec fn identity() -> HeadingTransform {
        HeadingTransform {
            normal_delta: Real { bits: 0 },
            inverted_delta: Real { bits: 0 },
            scale: Real { bits: ONE_BITS },
            inverts: false,
        }
    }
}

impl Default for HeadingTransform {
    fn default() -> (r: Self)
        ensures
            r == HeadingTransform::identity(),
    {
        HeadingTransform {
            normal_delta: Real { bits: 0 },
            inverted_delta: Real { bits: 0 },
            scale: Real { bits: ONE_BITS },
            inverts: false,
        }
    }
}

/// What one command does to the heading.
pub open spec fn heading_of(op: EncodedOp) -> HeadingTransform {
    let identity = HeadingTransform::identity();
    if op.tag == OP_TURN {
        HeadingTransform {
            normal_delta: op.value,
            inverted_delta: op.value.opposite(),
            ..identity
        }
    } else if op.tag == OP_TURN_AROUND {
        HeadingTransform {
            normal_delta: Real { bits: PI_BITS },
            inverted_delta: Real { bits: PI_BITS },
            ..identity
        }
    } else if op.tag == OP_INVERT_TURNS {
        HeadingTransform { inverts: true, ..identity }
    } else if op.tag == OP_SCALE {
        HeadingTransform { scale: op.value, ..identity }
    } else {
        identity
    }
}

pub fn heading_transform(op: EncodedOp) -> (r: HeadingTransform)
    ensures
        r == heading_of(op),
{
    let mut r: HeadingTransform = HeadingTransform::default();
    if op.tag == OP_TURN {
        r.normal_delta = op.value;
        r.inverted_delta = op.value.negated();
    } else if op.tag == OP_TURN_AROUND {
        r.normal_delta = Real { bits: PI_BITS };
        r.inverted_delta = Real { bits: PI_BITS };
    } else if op.tag == OP_INVERT_TURNS {
        r.inverts = true;
    } else if op.tag == OP_SCALE {
        r.scale = op.value;
    }
    r
}

/// The first transform and then the second, as one.
pub open spec fn headings_composed(
    first: HeadingTransform,
    second: HeadingTransform,
    ev: spec_fn(Arithmetic) -> Real,
) -> HeadingTransform {
    let (normal, inverted) = if first.inverts {
        (second.inverted_delta, second.normal_delta)
    } else {
        (second.normal_delta, second.inverted_delta)
    };
    HeadingTransform {
        normal_delta: ev(Arithmetic::Sum(first.normal_delta, normal)),
        inverted_delta: ev(Arithmetic::Sum(first.inverted_delta, inverted)),
        scale: ev(Arithmetic::Product(first.scale, second.scale)),
        inverts: first.inverts != second.inverts,
    }
}

/// Compose two source-ordered transforms (`first`, then `second`).
pub fn compose_heading<C: Fn(Arithmetic) -> Real>(
    first: HeadingTransform,
    second: HeadingTransform,
    calc: &C,
) -> (r: HeadingTransform)
    requires
        calculates(*calc),
    ensures
        r == headings_composed(first, second, answers(*calc)),
{
    let (normal, inverted) = if first.inverts {
        (second.inverted_delta, second.normal_delta)
    } else {
        (second.normal_delta, second.inverted_delta)
    };
    HeadingTransform {
        normal_delta: calculate(calc, Arithmetic::Sum(first.normal_delta, normal)),
        inverted_delta: calculate(calc, Arithmetic::Sum(first.inverted_delta, inverted)),
        scale: calculate(calc, Arithmetic::Product(first.scale, second.scale)),
        inverts: first.inverts != second.inverts,
    }
}

/// What commands do to the stroke width: a sum that may ignore its input,
/// then perhaps a lower limit.
#[derive(Debug, Clone, Copy, PartialEq, Eq, Structural)]
pub struct WidthTransform {
    pub addend: Real,
    pub minimum: Real,
    pub takes_input: bool,
    pub has_minimum: bool,
}

impl WidthTransform {
    pub open spec fn identity() -> WidthTransform {
        WidthTransform {
            addend: Real { bits: 0 },
            minimum: Real { bits: 0 },
            takes_input: true,
            has_minimum: false,
        }
    }

    pub open spec fn setting(value: Real) -> WidthTransform {
        WidthTransform {
            addend: value,
            minimum: Real { bits: 0 },
            takes_input: false,
            has_minimum: false,
        }
    }

    pub open spec fn adjusting(delta: Real) -> WidthTransform {
        WidthTransform {
            addend: delta,
            minimum: Real { bits: 0 },
            takes_input: true,
            has_minimum: true,
        }
    }

    /// Replace the width.
    pub fn set(value: Real) -> (r: WidthTransform)
        ensures
            r == WidthTransform::setting(value),
    {
        WidthTransform {
            addend: value,
            minimum: Real { bits: 0 },
            takes_input: false,
            has_minimum: false,
        }
    }

    /// Change the width, but not below zero.
    pub fn adjust(delta: Real) -> (r: WidthTransform)
        ensures
            r == WidthTransform::adjusting(delta),
    {
        WidthTransform {
            addend: delta,
            minimum: Real { bits: 0 },
            takes_input: true,
            has_minimum: true,
        }
    }
}

impl Default for WidthTransform {
    fn default() -> (r: Self)
        ensures
            r == WidthTransform::identity(),
    {
        WidthTransform {
            addend: Real { bits: 0 },
            minimum: Real { bits: 0 },
            takes_input: true,
            has_minimum: false,
        }
    }
}

/// The width that a transform makes of a width.
pub open spec fn width_applied(
    transform: WidthTransform,
    input: Real,
    ev: spec_fn(Arithmetic) -> Real,
) -> Real {
    let output = if transform.takes_input {
        ev(Arithmetic::Sum(input, transform.addend))
    } else {
        transform.addend
    };
    if transform.has_minimum && output.below(transform.minimum) {
        transform.minimum
    } else {
        output
    }
}

pub fn apply_width<C: Fn(Arithmetic) -> Real>(transform: WidthTransform, input: Real, calc: &C) -> (r:
    Real)
    requires
        calculates(*calc),
    ensures
        r == width_applied(transform, input, answers(*calc)),
{
    let output: Real = if transform.takes_input {
        calculate(calc, Arithmetic::Sum(input, transform.addend))
    } else {
        transform.addend
    };
    if transform.has_minimum && output.less_than(transform.minimum) {
        transform.minimum
    } else {
        output
    }
}

/// The first transform and then the second, as one.
pub open spec fn widths_composed(
    first: WidthTransform,
    second: WidthTransform,
    ev: spec_fn(Arithmetic) -> Real,
) -> WidthTransform {
    let zero = Real { bits: 0 };
    if !second.takes_input {
        WidthTransform::setting(width_applied(second, zero, ev))
    } else if !first.takes_input {
        WidthTransform::setting(width_applied(second, width_applied(first, zero, ev), ev))
    } else {
        let first_minimum = ev(Arithmetic::Sum(first.minimum, second.addend));
        WidthTransform {
            addend: ev(Arithmetic::Sum(first.addend, second.addend)),
            minimum: if first.has_minimum && second.has_minimum {
                if second.minimum.below(first_minimum) {
                    first_minimum
                } else {
                    second.minimum
                }
            } else if first.has_minimum {
                first_minimum
            } else if second.has_minimum {
                second.minimum
            } else {
                zero
            },
            takes_input: true,
            has_minimum: first.has_minimum || second.has_minimum,
        }
    }
}

pub fn compose_width<C: Fn(Arithmetic) -> Real>(
    first: WidthTransform,
    second: WidthTransform,
    calc: &C,
) -> (r: WidthTransform)
    requires
        calculates(*calc),
    ensures
        r == widths_composed(first, second, answers(*calc)),
{
    let zero: Real = Real { bits: 0 };
    if !second.takes_input {
        return WidthTransform::set(apply_width(second, zero, calc));
    }
    if !first.takes_input {
        let width: Real = apply_width(first, zero, calc);
        return WidthTransform::set(apply_width(second, width, calc));
    }
    let addend: Real = calculate(calc, Arithmetic::Sum(first.addend, second.addend));
    let first_minimum: Real = calculate(calc, Arithmetic::Sum(first.minimum, second.addend));
    let minimum: Real = match (first.has_minimum, second.has_minimum) {
        (true, true) => if second.minimum.less_than(first_minimum) {
            first_minimum
        } else {
            second.minimum
        },
        (true, false) => first_minimum,
        (false, true) => second.minimum,
        (false, false) => zero,
    };
    WidthTransform {
        addend,
        minimum,
        takes_input: true,
        has_minimum: first.has_minimum || second.has_minimum,
    }
}

/// A displacement and what commands do to the stroke width.
#[derive(Debug, Clone, Copy, PartialEq, Eq, Structural)]
pub struct MotionTransform {
    pub dx: Real,
    pub dy: Real,
    pub width: WidthTransform,
}

impl MotionTransform {
    pub open spec fn identity() -> MotionTransform {
        MotionTransform {
            dx: Real { bits: 0 },
            dy: Real { bits: 0 },
            width: WidthTransform::identity(),
        }
    }
}

impl Default for MotionTransform {
    fn default() -> (r: Self)
        ensures
            r == MotionTransform::identity(),
    {
        MotionTransform {
            dx: Real { bits: 0 },
            dy: Real { bits: 0 },
            width: WidthTransform::default(),
        }
    }
}

/// The first transform and then the second, as one.
pub open spec fn motions_composed(
    first: MotionTransform,
    second: MotionTransform,
    ev: spec_fn(Arithmetic) -> Real,
) -> MotionTransform {
    MotionTransform {
        dx: ev(Arithmetic::Sum(first.dx, second.dx)),
        dy: ev(Arithmetic::Sum(first.dy, second.dy)),
        width: widths_composed(first.width, second.width, ev),
    }
}

pub fn compose_motion<C: Fn(Arithmetic) -> Real>(
    first: MotionTransform,
    second: MotionTransform,
    calc: &C,
) -> (r: MotionTransform)
    requires
        calculates(*calc),
    ensures
        r == motions_composed(first, second, answers(*calc)),
{
    MotionTransform {
        dx: calculate(calc, Arithmetic::Sum(first.dx, second.dx)),
        dy: calculate(calc, Arithmetic::Sum(first.dy, second.dy)),
        width: compose_width(first.width, second.width, calc),
    }
}

/// The turtle at the start of a group of commands.
#[derive(Debug, Clone, Copy, PartialEq, Eq, Structural)]
pub struct TurtleCarry {
    pub x: Real,
    pub y: Real,
    pub angle: Real,
    pub scale: Real,
    pub width: Real,
    /// One while turns are inverted, else zero.
    pub invert: u32,
}

/// What a device says about one command.
#[derive(Debug, Clone, Copy, PartialEq, Eq, Structural)]
pub struct GpuOutput {
    pub x0: Real,
    pub y0: Real,
    pub x1: Real,
    pub y1: Real,
    pub line_width: Real,
    pub angle_after: Real,
    pub scale_after: Real,
    pub width_after: Real,
    pub invert_after: u32,
    pub draw: u32,
}

/// The turn that a transform means for a turtle.
pub open spec fn turn_of(transform: HeadingTransform, invert: u32) -> Real {
    if invert == 0 {
        transform.normal_delta
    } else {
        transform.inverted_delta
    }
}

/// The displacement of a turtle.
pub open spec fn displacement(
    distance: Real,
    angle: Real,
    ev: spec_fn(Arithmetic) -> Real,
) -> MotionTransform {
    MotionTransform {
        dx: ev(Arithmetic::Product(distance, ev(Arithmetic::Cosine(angle)))),
        dy: ev(Arithmetic::Product(distance, ev(Arithmetic::Sine(angle)))),
        width: WidthTransform::identity(),
    }
}

/// What one command does to the place and the width, `before` being what the
/// commands before it do to the heading.
pub open spec fn motion_of(
    op: EncodedOp,
    before: HeadingTransform,
    carry: TurtleCarry,
    ev: spec_fn(Arithmetic) -> Real,
) -> MotionTransform {
    let angle = ev(Arithmetic::Sum(carry.angle, turn_of(before, carry.invert)));
    let scale = ev(Arithmetic::Product(carry.scale, before.scale));
    let distance = ev(Arithmetic::Product(op.value, scale));
    let identity = MotionTransform::identity();
    if op.tag == OP_DRAW || op.tag == OP_MOVE {
        displacement(distance, angle, ev)
    } else if op.tag == OP_HALF_MOVE {
        displacement(ev(Arithmetic::Product(distance, Real { bits: HALF_BITS })), angle, ev)
    } else if op.tag == OP_WIDTH_SET {
        MotionTransform { width: WidthTransform::setting(op.value), ..identity }
    } else if op.tag == OP_WIDTH_DELTA {
        MotionTransform { width: WidthTransform::adjusting(op.value), ..identity }
    } else {
        identity
    }
}

pub fn motion_transform<C: Fn(Arithmetic) -> Real>(
    op: EncodedOp,
    before: HeadingTransform,
    carry: TurtleCarry,
    calc: &C,
) -> (r: MotionTransform)
    requires
        calculates(*calc),
    ensures
        r == motion_of(op, before, carry, answers(*calc)),
{
    let turn: Real = if carry.invert == 0 {
        before.normal_delta
    } else {
        before.inverted_delta
    };
    let angle: Real = calculate(calc, Arithmetic::Sum(carry.angle, turn));
    let scale: Real = calculate(calc, Arithmetic::Product(carry.scale, before.scale));
    let mut r: MotionTransform = MotionTransform::default();
    if op.tag == OP_DRAW || op.tag == OP_MOVE || op.tag == OP_HALF_MOVE {
        let whole: Real = calculate(calc, Arithmetic::Product(op.value, scale));
        let distance: Real = if op.tag == OP_HALF_MOVE {
            calculate(calc, Arithmetic::Product(whole, Real { bits: HALF_BITS }))
        } else {
            whole
        };
        let cosine: Real = calculate(calc, Arithmetic::Cosine(angle));
        let sine: Real = calculate(calc, Arithmetic::Sine(angle));
        r.dx = calculate(calc, Arithmetic::Product(distance, cosine));
        r.dy = calculate(calc, Arithmetic::Product(distance, sine));
    } else if op.tag == OP_WIDTH_SET {
        r.width = WidthTransform::set(op.value);
    } else if op.tag == OP_WIDTH_DELTA {
        r.width = WidthTransform::adjust(op.value);
    }
    r
}

/// The sense of turns after a transform.
pub open spec fn sense_after(invert: u32, inverts: bool) -> u32 {
    if inverts {
        invert ^ 1
    } else {
        invert
    }
}

/// What is said about one command, from the transforms around it.
pub open spec fn output_of(
    op: EncodedOp,
    heading_after: HeadingTransform,
    motion_before: MotionTransform,
    motion_after: MotionTransform,
    carry: TurtleCarry,
    ev: spec_fn(Arithmetic) -> Real,
) -> GpuOutput {
    GpuOutput {
        x0: ev(Arithmetic::Sum(carry.x, motion_before.dx)),
        y0: ev(Arithmetic::Sum(carry.y, motion_before.dy)),
        x1: ev(Arithmetic::Sum(carry.x, motion_after.dx)),
        y1: ev(Arithmetic::Sum(carry.y, motion_after.dy)),
        line_width: width_applied(motion_before.width, carry.width, ev),
        angle_after: ev(Arithmetic::Sum(carry.angle, turn_of(heading_after, carry.invert))),
        scale_after: ev(Arithmetic::Product(carry.scale, heading_after.scale)),
        width_after: width_applied(motion_after.width, carry.width, ev),
        invert_after: sense_after(carry.invert, heading_after.inverts),
        draw: op.draw,
    }
}

pub fn command_output<C: Fn(Arithmetic) -> Real>(
    op: EncodedOp,
    heading_after: HeadingTransform,
    motion_before: MotionTransform,
    motion_after: MotionTransform,
    carry: TurtleCarry,
    calc: &C,
) -> (r: GpuOutput)
    requires
        calculates(*calc),
    ensures
        r == output_of(
            op,
            heading_after,
            motion_before,
            motion_after,
            carry,
            answers(*calc),
        ),
{
    let turn: Real = if carry.invert == 0 {
        heading_after.normal_delta
    } else {
        heading_after.inverted_delta
    };
    GpuOutput {
        x0: calculate(calc, Arithmetic::Sum(carry.x, motion_before.dx)),
        y0: calculate(calc, Arithmetic::Sum(carry.y, motion_before.dy)),
        x1: calculate(calc, Arithmetic::Sum(carry.x, motion_after.dx)),
        y1: calculate(calc, Arithmetic::Sum(carry.y, motion_after.dy)),
        line_width: apply_width(motion_before.width, carry.width, calc),
        angle_after: calculate(calc, Arithmetic::Sum(carry.angle, turn)),
        scale_after: calculate(calc, Arithmetic::Product(carry.scale, heading_after.scale)),
        width_after: apply_width(motion_after.width, carry.width, calc),
        invert_after: if heading_after.inverts {
            carry.invert ^ 1
        } else {
            carry.invert
        },
        draw: op.draw,
    }
}

/// One stage of a scan: each value takes in the value `stride` places before
/// it, where there is one.
pub open spec fn staged<T>(values: Seq<T>, stride: int, compose: spec_fn(T, T) -> T) -> Seq<T> {
    Seq::new(
        values.len(),
        |i: int|
            if i < stride {
                values[i]
            } else {
                compose(values[i - stride], values[i])
            },
    )
}

/// How far a stride is from covering a length.
pub open spec fn rest_of(length: int, stride: int) -> int {
    if stride >= length {
        0
    } else {
        length - stride
    }
}

/// The stages of a scan from a stride on, which doubles from stage to stage.
pub open spec fn scanned<T>(values: Seq<T>, stride: int, compose: spec_fn(T, T) -> T) -> Seq<T>
    decreases rest_of(values.len() as int, stride),
    when stride > 0
{
    if stride >= values.len() {
        values
    } else {
        scanned(staged(values, stride, compose), 2 * stride, compose)
    }
}

pub open spec fn heading_composition(
    ev: spec_fn(Arithmetic) -> Real,
) -> spec_fn(HeadingTransform, HeadingTransform) -> HeadingTransform {
    |a: HeadingTransform, b: HeadingTransform| headings_composed(a, b, ev)
}

pub open spec fn motion_composition(
    ev: spec_fn(Arithmetic) -> Real,
) -> spec_fn(MotionTransform, MotionTransform) -> MotionTransform {
    |a: MotionTransform, b: MotionTransform| motions_composed(a, b, ev)
}

/// The commands' transforms of the heading, one by one.
pub open spec fn headings_of(ops: Seq<EncodedOp>) -> Seq<HeadingTransform> {
    ops.map_values(|op: EncodedOp| heading_of(op))
}

pub fn encode_heading(ops: &[EncodedOp]) -> (r: Vec<HeadingTransform>)
    ensures
        r@ == headings_of(ops@),
{
    let mut out: Vec<HeadingTransform> = Vec::new();
    let mut i: usize = 0;
    while i < ops.len()
        invariant
            i <= ops@.len(),
            out@ == headings_of(ops@).subrange(0, i as int),
        decreases ops@.len() - i,
    {
        out.push(heading_transform(ops[i]));
        i = i + 1;
        assert(out@ =~= headings_of(ops@).subrange(0, i as int));
    }
    assert(out@ =~= headings_of(ops@));
    out
}

pub fn scan_heading_stage<C: Fn(Arithmetic) -> Real>(
    input: &[HeadingTransform],
    stride: usize,
    calc: &C,
) -> (r: Vec<HeadingTransform>)
    requires
        calculates(*calc),
    ensures
        r@ == staged(input@, stride as int, heading_composition(answers(*calc))),
{
    let ghost all = staged(input@, stride as int, heading_composition(answers(*calc)));
    let mut out: Vec<HeadingTransform> = Vec::new();
    let mut i: usize = 0;
    while i < input.len()
        invariant
            calculates(*calc),
            i <= input@.len(),
            all == staged(input@, stride as int, heading_composition(answers(*calc))),
            out@ == all.subrange(0, i as int),
        decreases input@.len() - i,
    {
        if i < stride {
            out.push(input[i]);
        } else {
            out.push(compose_heading(input[i - stride], input[i], calc));
        }
        i = i + 1;
        assert(out@ =~= all.subrange(0, i as int));
    }
    assert(out@ =~= all);
    out
}

/// All stages of the heading scan. The device does the same, stage by stage.
pub fn scan_heading<C: Fn(Arithmetic) -> Real>(input: Vec<HeadingTransform>, calc: &C) -> (r: Vec<
    HeadingTransform,
>)
    requires
        calculates(*calc),
    ensures
        r@ == scanned(input@, 1, heading_composition(answers(*calc))),
        r@.len() == input@.len(),
{
    let ghost f = heading_composition(answers(*calc));
    let mut values: Vec<HeadingTransform> = input;
    let mut stride: usize = 1;
    while stride < values.len()
        invariant
            calculates(*calc),
            f == heading_composition(answers(*calc)),
            stride > 0,
            values@.len() == input@.len(),
            scanned(values@, stride as int, f) == scanned(input@, 1, f),
        decreases rest_of(values@.len() as int, stride as int),
    {
        values = scan_heading_stage(&values, stride, calc);
        match stride.checked_mul(2) {
            Some(next) => {
                stride = next;
            },
            None => {
                proof {
                    assert(2 * stride > values@.len());
                    assert(scanned(values@, 2 * stride, f) == values@);
                }
                return values;
            },
        }
    }
    values
}

/// The commands' transforms of place and width, one by one.
pub open spec fn motions_of(
    ops: Seq<EncodedOp>,
    headings: Seq<HeadingTransform>,
    carry: TurtleCarry,
    ev: spec_fn(Arithmetic) -> Real,
) -> Seq<MotionTransform> {
    Seq::new(
        ops.len(),
        |i: int|
            motion_of(
                ops[i],
                if i == 0 {
                    HeadingTransform::identity()
                } else {
                    headings[i - 1]
                },
                carry,
                ev,
            ),
    )
}

pub fn encode_motion<C: Fn(Arithmetic) -> Real>(
    ops: &[EncodedOp],
    headings: &[HeadingTransform],
    carry: TurtleCarry,
    calc: &C,
) -> (r: Vec<MotionTransform>)
    requires
        calculates(*calc),
        headings@.len() == ops@.len(),
    ensures
        r@ == motions_of(ops@, headings@, carry, answers(*calc)),
{
    let ghost all = motions_of(ops@, headings@, carry, answers(*calc));
    let mut out: Vec<MotionTransform> = Vec::new();
    let mut i: usize = 0;
    while i < ops.len()
        invariant
            calculates(*calc),
            headings@.len() == ops@.len(),
            i <= ops@.len(),
            all == motions_of(ops@, headings@, carry, answers(*calc)),
            out@ == all.subrange(0, i as int),
        decreases ops@.len() - i,
    {
        let before: HeadingTransform = if i == 0 {
            HeadingTransform::default()
        } else {
            headings[i - 1]
        };
        out.push(motion_transform(ops[i], before, carry, calc));
        i = i + 1;
        assert(out@ =~= all.subrange(0, i as int));
    }
    assert(out@ =~= all);
    out
}

pub fn scan_motion_stage<C: Fn(Arithmetic) -> Real>(
    input: &[MotionTransform],
    stride: usize,
    calc: &C,
) -> (r: Vec<MotionTransform>)
    requires
        calculates(*calc),
    ensures
        r@ == staged(input@, stride as int, motion_composition(answers(*calc))),
{
    let ghost all = staged(input@, stride as int, motion_composition(answers(*calc)));
    let mut out: Vec<MotionTransform> = Vec::new();
    let mut i: usize = 0;
    while i < input.len()
        invariant
            calculates(*calc),
            i <= input@.len(),
            all == staged(input@, stride as int, motion_composition(answers(*calc))),
            out@ == all.subrange(0, i as int),
        decreases input@.len() - i,
    {
        if i < stride {
            out.push(input[i]);
        } else {
            out.push(compose_motion(input[i - stride], input[i], calc));
        }
        i = i + 1;
        assert(out@ =~= all.subrange(0, i as int));
    }
    assert(out@ =~= all);
    out
}

/// All stages of the motion scan. The device does the same, stage by stage.
pub fn scan_motion<C: Fn(Arithmetic) -> Real>(input: Vec<MotionTransform>, calc: &C) -> (r: Vec<
    MotionTransform,
>)
    requires
        calculates(*calc),
    ensures
        r@ == scanned(input@, 1, motion_composition(answers(*calc))),
        r@.len() == input@.len(),
{
    let ghost f = motion_composition(answers(*calc));
    let mut values: Vec<MotionTransform> = input;
    let mut stride: usize = 1;
    while stride < values.len()
        invariant
            calculates(*calc),
            f == motion_composition(answers(*calc)),
            stride > 0,
            values@.len() == input@.len(),
            scanned(values@, stride as int, f) == scanned(input@, 1, f),
        decreases rest_of(values@.len() as int, stride as int),
    {
        values = scan_motion_stage(&values, stride, calc);
        match stride.checked_mul(2) {
            Some(next) => {
                stride = next;
            },
            None => {
                proof {
                    assert(2 * stride > values@.len());
                    assert(scanned(values@, 2 * stride, f) == values@);
                }
                return values;
            },
        }
    }
    values
}

/// What is said about each command, from the prefixes of the scans.
pub open spec fn outputs_of(
    ops: Seq<EncodedOp>,
    headings: Seq<HeadingTransform>,
    motions: Seq<MotionTransform>,
    carry: TurtleCarry,
    ev: spec_fn(Arithmetic) -> Real,
) -> Seq<GpuOutput> {
    Seq::new(
        ops.len(),
        |i: int|
            output_of(
                ops[i],
                headings[i],
                if i == 0 {
                    MotionTransform::identity()
                } else {
                    motions[i - 1]
                },
                motions[i],
                carry,
                ev,
            ),
    )
}

pub fn emit_geometry<C: Fn(Arithmetic) -> Real>(
    ops: &[EncodedOp],
    headings: &[HeadingTransform],
    motions: &[MotionTransform],
    carry: TurtleCarry,
    calc: &C,
) -> (r: Vec<GpuOutput>)
    requires
        calculates(*calc),
        headings@.len() == ops@.len(),
        motions@.len() == ops@.len(),
    ensures
        r@ == outputs_of(ops@, headings@, motions@, carry, answers(*calc)),
{
    let ghost all = outputs_of(ops@, headings@, motions@, carry, answers(*calc));
    let mut out: Vec<GpuOutput> = Vec::new();
    let mut i: usize = 0;
    while i < ops.len()
        invariant
            calculates(*calc),
            headings@.len() == ops@.len(),
            motions@.len() == ops@.len(),
            i <= ops@.len(),
            all == outputs_of(ops@, headings@, motions@, carry, answers(*calc)),
            out@ == all.subrange(0, i as int),
        decreases ops@.len() - i,
    {
        let before: MotionTransform = if i == 0 {
            MotionTransform::default()
        } else {
            motions[i - 1]
        };
        out.push(command_output(ops[i], headings[i], before, motions[i], carry, calc));
        i = i + 1;
        assert(out@ =~= all.subrange(0, i as int));
    }
    assert(out@ =~= all);
    out
}

/// What a whole group comes to.
pub open spec fn group_outputs(
    ops: Seq<EncodedOp>,
    carry: TurtleCarry,
    ev: spec_fn(Arithmetic) -> Real,
) -> Seq<GpuOutput> {
    let headings = scanned(headings_of(ops), 1, heading_composition(ev));
    let motions = scanned(
        motions_of(ops, headings, carry, ev),
        1,
        motion_composition(ev),
    );
    outputs_of(ops, headings, motions, carry, ev)
}

/// Run a group with the arithmetic of a calculator: the same encodings, scans
/// and emission that a device runs in parallel.
pub fn run_group<C: Fn(Arithmetic) -> Real>(ops: &[EncodedOp], carry: TurtleCarry, calc: &C) -> (r:
    Vec<GpuOutput>)
    requires
        calculates(*calc),
    ensures
        r@ == group_outputs(ops@, carry, answers(*calc)),
        r@.len() == ops@.len(),
{
    let encoded: Vec<HeadingTransform> = encode_heading(ops);
    let headings: Vec<HeadingTransform> = scan_heading(encoded, calc);
    let moving: Vec<MotionTransform> = encode_motion(ops, &headings, carry, calc);
    let motions: Vec<MotionTransform> = scan_motion(moving, calc);
    emit_geometry(ops, &headings, &motions, carry, calc)
}

/// The composition of the values from one place up to another, in order.
pub open spec fn folded<T>(values: Seq<T>, first: int, last: int, compose: spec_fn(T, T) -> T) -> T
    decreases last - first,
{
    if last <= first {
        values[first]
    } else {
        compose(folded(values, first, last - 1, compose), values[last])
    }
}

/// How composition may be regrouped.
pub open spec fn associative<T>(compose: spec_fn(T, T) -> T) -> bool {
    forall|a: T, b: T, c: T| #[trigger] compose(compose(a, b), c) == compose(a, compose(b, c))
}

proof fn lemma_folds_join<T>(
    values: Seq<T>,
    first: int,
    middle: int,
    last: int,
    compose: spec_fn(T, T) -> T,
)
    requires
        associative(compose),
        first <= middle < last,
    ensures
        compose(
            folded(values, first, middle, compose),
            folded(values, middle + 1, last, compose),
        ) == folded(values, first, last, compose),
    decreases last - middle,
{
    if last > middle + 1 {
        lemma_folds_join(values, first, middle, last - 1, compose);
    }
}

/// After the stage with some stride each value covers twice that many inputs.
spec fn covers<T>(
    current: Seq<T>,
    values: Seq<T>,
    width: int,
    compose: spec_fn(T, T) -> T,
) -> bool {
    &&& current.len() == values.len()
    &&& forall|i: int|
        0 <= i < values.len() ==> #[trigger] current[i] == folded(
            values,
            if i < width {
                0
            } else {
                i - width + 1
            },
            i,
            compose,
        )
}

proof fn lemma_scan_folds<T>(
    current: Seq<T>,
    values: Seq<T>,
    stride: int,
    compose: spec_fn(T, T) -> T,
)
    requires
        associative(compose),
        stride > 0,
        covers(current, values, stride, compose),
    ensures
        scanned(current, stride, compose).len() == values.len(),
        forall|i: int|
            0 <= i < values.len() ==> #[trigger] scanned(current, stride, compose)[i] == folded(
                values,
                0,
                i,
                compose,
            ),
    decreases rest_of(values.len() as int, stride),
{
    if stride < values.len() {
        let next = staged(current, stride, compose);
        assert forall|i: int| 0 <= i < values.len() implies #[trigger] next[i] == folded(
            values,
            if i < 2 * stride {
                0
            } else {
                i - 2 * stride + 1
            },
            i,
            compose,
        ) by {
            if i >= stride {
                let before = i - stride;
                assert(current[before] == folded(
                    values,
                    if before < stride {
                        0
                    } else {
                        before - stride + 1
                    },
                    before,
                    compose,
                ));
                assert(current[i] == folded(values, i - stride + 1, i, compose));
                lemma_folds_join(
                    values,
                    if before < stride {
                        0
                    } else {
                        before - stride + 1
                    },
                    before,
                    i,
                    compose,
                );
            } else {
                assert(next[i] == current[i]);
            }
        }
        lemma_scan_folds(next, values, 2 * stride, compose);
    }
}

/// Where composition may be regrouped, a scan leaves at every place the
/// composition of all values up to that place, in source order.
pub proof fn scan_composes_every_prefix<T>(values: Seq<T>, compose: spec_fn(T, T) -> T)
    requires
        associative(compose),
    ensures
        scanned(values, 1, compose).len() == values.len(),
        forall|i: int|
            0 <= i < values.len() ==> #[trigger] scanned(values, 1, compose)[i] == folded(
                values,
                0,
                i,
                compose,
            ),
{
    assert(covers(values, values, 1, compose));
    lemma_scan_folds(values, values, 1, compose);
}

/// Heading transforms may be regrouped wherever sums and products may.
pub proof fn heading_composition_is_associative(ev: spec_fn(Arithmetic) -> Real)
    requires
        associative(|a: Real, b: Real| ev(Arithmetic::Sum(a, b))),
        associative(|a: Real, b: Real| ev(Arithmetic::Product(a, b))),
    ensures
        associative(heading_composition(ev)),
{
    let sum = |a: Real, b: Real| ev(Arithmetic::Sum(a, b));
    let product = |a: Real, b: Real| ev(Arithmetic::Product(a, b));
    let f = heading_composition(ev);
    assert forall|a: HeadingTransform, b: HeadingTransform, c: HeadingTransform| #[trigger]
        f(f(a, b), c) == f(a, f(b, c)) by {
        assert(product(product(a.scale, b.scale), c.scale) == product(
            a.scale,
            product(b.scale, c.scale),
        ));
        let (bn, bi) = if a.inverts {
            (b.inverted_delta, b.normal_delta)
        } else {
            (b.normal_delta, b.inverted_delta)
        };
        let (cn, ci) = if a.inverts != b.inverts {
            (c.inverted_delta, c.normal_delta)
        } else {
            (c.normal_delta, c.inverted_delta)
        };
        assert(sum(sum(a.normal_delta, bn), cn) == sum(a.normal_delta, sum(bn, cn)));
        assert(sum(sum(a.inverted_delta, bi), ci) == sum(a.inverted_delta, sum(bi, ci)));
    }
}

/// Sums may be regrouped and keep the order of what is added to.
pub open spec fn sums_hold(x: Real, first: WidthTransform, second: WidthTransform, ev: spec_fn(
    Arithmetic,
) -> Real) -> bool {
    let start = ev(Arithmetic::Sum(x, first.addend));
    &&& ev(Arithmetic::Sum(start, second.addend)) == ev(
        Arithmetic::Sum(x, ev(Arithmetic::Sum(first.addend, second.addend))),
    )
    &&& start.below(first.minimum) == ev(Arithmetic::Sum(start, second.addend)).below(
        ev(Arithmetic::Sum(first.minimum, second.addend)),
    )
}

/// Composed width commands do what the commands do one after the other: sets
/// replace, changes add up, and every lower limit is kept in its place.
///
/// Sums round, so the law speaks of the values on which they may be
/// regrouped. Widths are compared as values, a zero with either sign being
/// the same width.
pub proof fn composed_widths_apply_in_order(
    first: WidthTransform,
    second: WidthTransform,
    x: Real,
    ev: spec_fn(Arithmetic) -> Real,
)
    requires
        first.takes_input && second.takes_input ==> sums_hold(x, first, second, ev),
        !second.takes_input || !ev(Arithmetic::Sum(first.minimum, second.addend)).nan(),
        !second.minimum.nan(),
        !width_applied(second, width_applied(first, x, ev), ev).nan(),
    ensures
        width_applied(widths_composed(first, second, ev), x, ev).same(
            width_applied(second, width_applied(first, x, ev), ev),
        ),
{
}

/// Commands that set or change the width never leave a negative one behind.
pub proof fn widths_stay_at_or_above_zero(value: Real, x: Real, ev: spec_fn(Arithmetic) -> Real)
    ensures
        !width_applied(WidthTransform::adjusting(value), x, ev).below(Real { bits: 0 }),
        width_applied(WidthTransform::setting(value), x, ev) == value,
{
}

/// The sense of turns stays zero or one.
pub proof fn sense_of_turns_is_a_bit(invert: u32, inverts: bool)
    requires
        invert <= 1,
    ensures
        sense_after(invert, inverts) <= 1,
        sense_after(sense_after(invert, inverts), inverts) == invert,
{
    assert(invert <= 1 ==> (invert ^ 1) <= 1 && ((invert ^ 1) ^ 1) == invert) by (bit_vector);
}

} // verus!
