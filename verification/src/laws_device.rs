//! What a device does with one command, and with commands put together.

use vstd::prelude::*;

use crate::config::Turtle2dConfig;
use crate::cuda::{needs_complete_turtle, turned};
use crate::number::{Arithmetic, Real, ONE_BITS};
use crate::transform::{
    encoded, group_outputs, headings_composed, motions_composed, scanned, sense_after,
    heading_composition, headings_of, motion_composition, motions_of, turn_of, HeadingTransform,
    MotionTransform, TurtleCarry,
};
use crate::turtle_2d::{performed_2d, TurtleOp, TurtleState};
use crate::walk::Emission;

verus! {

/// A device starts a group where a turtle stands.
pub open spec fn carries(carry: TurtleCarry, state: TurtleState) -> bool {
    &&& carry.x == state.position.0
    &&& carry.y == state.position.1
    &&& carry.angle == state.angle
    &&& carry.scale == state.step_scale
    &&& carry.width == state.width
    &&& carry.invert == if state.invert_turns { 1u32 } else { 0u32 }
}

/// Adding nothing and multiplying by one leave a number as it is.
pub open spec fn neutral(a: Real, ev: spec_fn(Arithmetic) -> Real) -> bool {
    &&& ev(Arithmetic::Sum(a, Real { bits: 0 })) == a
    &&& ev(Arithmetic::Product(a, Real { bits: ONE_BITS })) == a
}

/// A device does with one command what the turtle does: it says where the
/// command begins and ends, whether it draws and how wide, and goes on from the
/// state that the turtle would be in.
pub proof fn a_device_does_one_command_alike(
    op: TurtleOp,
    traces: bool,
    config: Turtle2dConfig,
    state: TurtleState,
    carry: TurtleCarry,
    ev: spec_fn(Arithmetic) -> Real,
)
    requires
        carries(carry, state),
        state.turn_angle == config.turn_angle,
        !needs_complete_turtle(op),
        neutral(state.position.0, ev),
        neutral(state.position.1, ev),
        neutral(state.angle, ev),
        neutral(state.step_scale, ev),
        neutral(state.width, ev),
        op matches TurtleOp::WidthDelta(delta) ==> !ev(Arithmetic::Sum(state.width, delta)).nan(),
        performed_2d(op, traces, config, state, Seq::empty(), ev) is Ok,
    ensures
        ({
            let e = performed_2d(op, traces, config, state, Seq::empty(), ev)->Ok_0;
            let out = group_outputs(seq![encoded(turned(op, config, ev))], carry, ev)[0];
            &&& (out.x0, out.y0) == state.position
            &&& (out.x1, out.y1) == e.state.position
            &&& carries(TurtleCarry::after(out), e.state)
            &&& (out.draw != 0) == (e.emission is Line)
            &&& e.emission matches Emission::Line(line) ==> {
                &&& line.line.0 == (out.x0, out.y0)
                &&& line.line.1 == (out.x1, out.y1)
                &&& line.width == out.line_width
            }
        }),
{
    let ops = seq![encoded(turned(op, config, ev))];
    let first = headings_of(ops);
    let headings = scanned(first, 1, heading_composition(ev));
    assert(headings == first);
    let moves = motions_of(ops, headings, carry, ev);
    assert(scanned(moves, 1, motion_composition(ev)) == moves);
    assert(1u32 ^ 1u32 == 0u32 && 0u32 ^ 1u32 == 1u32) by (bit_vector);
}

/// Transforms put together do first the one and then the other: turns add up,
/// the second being taken in the sense that the first has left, scales multiply,
/// and displacements add up.
pub proof fn composed_transforms_apply_in_order(
    first: HeadingTransform,
    second: HeadingTransform,
    a: MotionTransform,
    b: MotionTransform,
    invert: u32,
    ev: spec_fn(Arithmetic) -> Real,
)
    requires
        invert <= 1,
    ensures
        ({
            let both = headings_composed(first, second, ev);
            let middle = sense_after(invert, first.inverts);
            &&& turn_of(both, invert) == ev(
                Arithmetic::Sum(turn_of(first, invert), turn_of(second, middle)),
            )
            &&& both.scale == ev(Arithmetic::Product(first.scale, second.scale))
            &&& sense_after(invert, both.inverts) == sense_after(middle, second.inverts)
        }),
        motions_composed(a, b, ev).dx == ev(Arithmetic::Sum(a.dx, b.dx)),
        motions_composed(a, b, ev).dy == ev(Arithmetic::Sum(a.dy, b.dy)),
{
    assert(invert <= 1 ==> (invert ^ 1) <= 1 && ((invert ^ 1) ^ 1) == invert && (invert == 0
        <==> (invert ^ 1) != 0)) by (bit_vector);
}

/// A device begins where a turtle begins.
pub proof fn devices_begin_as_turtles_do(config: Turtle2dConfig)
    ensures
        carries(TurtleCarry::beginning(config), TurtleState::initial(config)),
{
}

} // verus!
