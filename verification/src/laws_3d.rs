//! What the commands of the three-dimensional turtle do, in exact values.

use vstd::prelude::*;

use crate::action::{lists, resolved};
use crate::config::{palette_choice, Turtle2dConfig};
use crate::error::Failure;
use crate::generation::Module;
use crate::geometry::{Line3d, Point3d, StrokeColor, StyledLine3d};
use crate::number::{Arithmetic, Real, HALF_BITS, ONE_BITS, PI_BITS};
use crate::turtle_2d::lemma_one_integer;
use crate::turtle_3d::{
    aligned_3d, command_3d, performed_3d, traced_3d, visited_3d, Effect3d, SpatialOp, SpatialState,
    Vec3, SHORTEST_BITS,
};
use crate::value::{
    holds, lemma_exact, lemma_gather, lemma_held, lemma_product, lemma_ratios, lemma_small_values,
    lemma_spread, lemma_swap, lemma_times, lemma_values, rounds, times,
};
use crate::walk::{Effect, Emission, Outline};
use crate::words::lemma_words;

verus! {

/// A module stands for an action of the fixed vocabulary.
pub open spec fn acts(module: Module, config: Turtle2dConfig, name: Seq<char>) -> bool {
    &&& resolved(config.module_aliases@, module.name@) == Some(name)
    &&& !lists(config.draw_modules@, name)
    &&& !lists(config.move_modules@, name)
}

/// An effect changes the state in a way, and nothing else.
pub open spec fn only_changes(
    effect: Result<Effect3d, Failure>,
    outlines: Seq<Outline<Point3d>>,
    state: SpatialState,
) -> bool {
    effect == Ok::<_, Failure>(
        Effect { state, outlines, emission: Emission::<StyledLine3d, Point3d>::Nothing },
    )
}

/// The angle of a turn: the argument in degrees, or the current turn angle.
pub open spec fn turn_of(
    module: Module,
    state: SpatialState,
    ev: spec_fn(Arithmetic) -> Real,
) -> Real {
    match module.first_number() {
        Some(degrees) => ev(Arithmetic::Radians(degrees)),
        None => state.turn_angle,
    }
}

/// A vector is a combination of two others.
pub open spec fn mixes(r: Vec3, a: Vec3, p: real, b: Vec3, q: real) -> bool {
    &&& r.x.value() == times(a.x.value(), p) + times(b.x.value(), q)
    &&& r.y.value() == times(a.y.value(), p) + times(b.y.value(), q)
    &&& r.z.value() == times(a.z.value(), p) + times(b.z.value(), q)
}

/// A combination of two vectors needs no rounding.
pub open spec fn exact_mix(a: Vec3, p: real, b: Vec3, q: real) -> bool {
    &&& exact_part(a.x.value(), p, b.x.value(), q)
    &&& exact_part(a.y.value(), p, b.y.value(), q)
    &&& exact_part(a.z.value(), p, b.z.value(), q)
}

pub open spec fn exact_part(a: real, p: real, b: real, q: real) -> bool {
    &&& holds(times(a, p))
    &&& holds(times(b, q))
    &&& holds(times(a, p) + times(b, q))
}

/// The inner product of two vectors.
pub open spec fn inner(a: Vec3, b: Vec3) -> real {
    times(a.x.value(), b.x.value()) + times(a.y.value(), b.y.value()) + times(
        a.z.value(),
        b.z.value(),
    )
}

proof fn lemma_part(a: Real, p: Real, b: Real, q: Real, ev: spec_fn(Arithmetic) -> Real)
    requires
        rounds(ev),
        a.finite() && p.finite() && b.finite() && q.finite(),
        exact_part(a.value(), p.value(), b.value(), q.value()),
    ensures
        ({
            let r = ev(
                Arithmetic::Sum(ev(Arithmetic::Product(a, p)), ev(Arithmetic::Product(b, q))),
            );
            r.finite() && r.value() == times(a.value(), p.value()) + times(b.value(), q.value())
        }),
{
    lemma_product(a, p, ev);
    lemma_product(b, q, ev);
    lemma_exact(
        Arithmetic::Sum(ev(Arithmetic::Product(a, p)), ev(Arithmetic::Product(b, q))),
        ev,
    );
}

proof fn lemma_mix(a: Vec3, p: Real, b: Vec3, q: Real, ev: spec_fn(Arithmetic) -> Real)
    requires
        rounds(ev),
        a.finite(),
        b.finite(),
        p.finite(),
        q.finite(),
        exact_mix(a, p.value(), b, q.value()),
    ensures
        a.times(p, ev).plus(b.times(q, ev), ev).finite(),
        mixes(a.times(p, ev).plus(b.times(q, ev), ev), a, p.value(), b, q.value()),
{
    lemma_part(a.x, p, b.x, q, ev);
    lemma_part(a.y, p, b.y, q, ev);
    lemma_part(a.z, p, b.z, q, ev);
}

/// A command turns by an angle, in one of three planes.
pub open spec fn turns_by(op: Result<SpatialOp, Failure>, plane: int, by: real) -> bool {
    match op {
        Ok(SpatialOp::Yaw(a)) => plane == 0 && a.value() == by,
        Ok(SpatialOp::Pitch(a)) => plane == 1 && a.value() == by,
        Ok(SpatialOp::Roll(a)) => plane == 2 && a.value() == by,
        _ => false,
    }
}

/// Left turns, upward pitches and left rolls turn by the argument in degrees or
/// by the current turn angle; right turns, downward pitches and right rolls
/// turn by the opposite of it.
pub proof fn opposite_turns_have_opposite_angles(
    module: Module,
    name: Seq<char>,
    config: Turtle2dConfig,
    state: SpatialState,
    ev: spec_fn(Arithmetic) -> Real,
)
    requires
        rounds(ev),
        turn_of(module, state, ev).finite(),
        !lists(config.draw_modules@, name),
        !lists(config.move_modules@, name),
    ensures
        ({
            let op = command_3d(name, module, config, state, ev);
            let by = turn_of(module, state, ev).value();
            &&& name == "+"@ || name == "Plus"@ || name == "ExplicitPlus"@ || name == "Left"@
                || name == "Turn"@ ==> turns_by(op, 0, by)
            &&& name == "-"@ || name == "Minus"@ || name == "ExplicitMinus"@ || name == "Right"@
                ==> turns_by(op, 0, -by)
            &&& name == "PitchUp"@ ==> turns_by(op, 1, by)
            &&& name == "PitchDown"@ ==> turns_by(op, 1, -by)
            &&& name == "RollLeft"@ ==> turns_by(op, 2, by)
            &&& name == "RollRight"@ ==> turns_by(op, 2, -by)
            &&& name == "TurnAround"@ || name == "Around"@ ==> turns_by(
                op,
                0,
                (Real { bits: PI_BITS }).value(),
            )
        }),
{
    lemma_words();
    lemma_small_values();
    let one = Real { bits: ONE_BITS };
    let a = turn_of(module, state, ev);
    lemma_held(a);
    lemma_exact(Arithmetic::Product(a, one), ev);
    lemma_exact(Arithmetic::Product(a, one.opposite()), ev);
}

/// The commands that a turtle performs are those that its modules stand for.
pub proof fn visits_perform_commands(
    module: Module,
    name: Seq<char>,
    config: Turtle2dConfig,
    state: SpatialState,
    outlines: Seq<Outline<Point3d>>,
    ev: spec_fn(Arithmetic) -> Real,
)
    requires
        resolved(config.module_aliases@, module.name@) == Some(name),
    ensures
        match command_3d(name, module, config, state, ev) {
            Ok(op) => visited_3d(module, config, state, outlines, ev) == performed_3d(
                op,
                name == "F"@ || name == "f"@,
                config,
                state,
                outlines,
                ev,
            ),
            Err(failure) => visited_3d(module, config, state, outlines, ev) == Err::<Effect3d, _>(
                failure,
            ),
        },
{
}

/// Two directions are turned in their plane, the first towards the second.
pub open spec fn rotates(
    a: Vec3,
    b: Vec3,
    angle: Real,
    c: Vec3,
    d: Vec3,
    ev: spec_fn(Arithmetic) -> Real,
) -> bool {
    let cosine = ev(Arithmetic::Cosine(angle)).value();
    let sine = ev(Arithmetic::Sine(angle)).value();
    &&& mixes(c, a, cosine, b, sine)
    &&& mixes(d, b, cosine, a, -sine)
}

/// Turning two directions needs no rounding.
pub open spec fn exact_rotation(
    a: Vec3,
    b: Vec3,
    angle: Real,
    ev: spec_fn(Arithmetic) -> Real,
) -> bool {
    let cosine = ev(Arithmetic::Cosine(angle));
    let sine = ev(Arithmetic::Sine(angle));
    &&& cosine.finite() && sine.finite()
    &&& exact_mix(a, cosine.value(), b, sine.value())
    &&& exact_mix(b, cosine.value(), a, -sine.value())
}

/// A yaw turns the heading towards the left, a pitch turns the heading towards
/// up, and a roll turns the left towards up; inverted turns go the other way.
/// The third direction and the rest of the state stay as they are.
pub proof fn turns_stay_in_their_plane(
    op: SpatialOp,
    angle: Real,
    traces: bool,
    config: Turtle2dConfig,
    state: SpatialState,
    outlines: Seq<Outline<Point3d>>,
    ev: spec_fn(Arithmetic) -> Real,
)
    requires
        rounds(ev),
        state.finite(),
        op == SpatialOp::Yaw(angle) || op == SpatialOp::Pitch(angle) || op == SpatialOp::Roll(
            angle,
        ),
        ({
            let by = if state.invert_turns {
                angle.opposite()
            } else {
                angle
            };
            match op {
                SpatialOp::Yaw(_) => exact_rotation(state.heading, state.left, by, ev),
                SpatialOp::Pitch(_) => exact_rotation(state.heading, state.up, by, ev),
                _ => exact_rotation(state.left, state.up, by, ev),
            }
        }),
    ensures
        ({
            let by = if state.invert_turns {
                angle.opposite()
            } else {
                angle
            };
            performed_3d(op, traces, config, state, outlines, ev) matches Ok(e) && {
                let next = e.state;
                &&& e.outlines == outlines && e.emission is Nothing
                &&& next == SpatialState {
                    heading: next.heading,
                    left: next.left,
                    up: next.up,
                    ..state
                }
                &&& match op {
                    SpatialOp::Yaw(_) => next.up == state.up && rotates(
                        state.heading,
                        state.left,
                        by,
                        next.heading,
                        next.left,
                        ev,
                    ),
                    SpatialOp::Pitch(_) => next.left == state.left && rotates(
                        state.heading,
                        state.up,
                        by,
                        next.heading,
                        next.up,
                        ev,
                    ),
                    _ => next.heading == state.heading && rotates(
                        state.left,
                        state.up,
                        by,
                        next.left,
                        next.up,
                        ev,
                    ),
                }
            }
        }),
{
    let by = if state.invert_turns {
        angle.opposite()
    } else {
        angle
    };
    let c = ev(Arithmetic::Cosine(by));
    let s = ev(Arithmetic::Sine(by));
    lemma_held(s);
    match op {
        SpatialOp::Yaw(_) => {
            lemma_mix(state.heading, c, state.left, s, ev);
            lemma_mix(state.left, c, state.heading, s.opposite(), ev);
        },
        SpatialOp::Pitch(_) => {
            lemma_mix(state.heading, c, state.up, s, ev);
            lemma_mix(state.up, c, state.heading, s.opposite(), ev);
        },
        _ => {
            lemma_mix(state.left, c, state.up, s, ev);
            lemma_mix(state.up, c, state.left, s.opposite(), ev);
        },
    }
}

/// Of two perpendicular directions of length one, the first one leans by the
/// sine of the angle towards where the second was, and the second one by as
/// much away from where the first was.
pub proof fn rotations_lean_by_their_sine(
    a: Vec3,
    b: Vec3,
    angle: Real,
    c: Vec3,
    d: Vec3,
    ev: spec_fn(Arithmetic) -> Real,
)
    requires
        rotates(a, b, angle, c, d, ev),
        inner(a, a) == 1real,
        inner(b, b) == 1real,
        inner(a, b) == 0real,
    ensures
        inner(c, a) == ev(Arithmetic::Cosine(angle)).value(),
        inner(c, b) == ev(Arithmetic::Sine(angle)).value(),
        inner(d, b) == ev(Arithmetic::Cosine(angle)).value(),
        inner(d, a) == -ev(Arithmetic::Sine(angle)).value(),
{
    let p = ev(Arithmetic::Cosine(angle)).value();
    let q = ev(Arithmetic::Sine(angle)).value();
    lemma_inner_mix(c, a, p, b, q, a);
    lemma_inner_mix(c, a, p, b, q, b);
    lemma_inner_mix(d, b, p, a, -q, a);
    lemma_inner_mix(d, b, p, a, -q, b);
    lemma_swap(a.x.value(), b.x.value());
    lemma_swap(a.y.value(), b.y.value());
    lemma_swap(a.z.value(), b.z.value());
    lemma_times(p);
    lemma_times(q);
    lemma_times(-q);
}

proof fn lemma_inner_mix(r: Vec3, a: Vec3, p: real, b: Vec3, q: real, v: Vec3)
    requires
        mixes(r, a, p, b, q),
    ensures
        inner(r, v) == times(inner(a, v), p) + times(inner(b, v), q),
{
    lemma_spread(a.x.value(), p, b.x.value(), q, v.x.value());
    lemma_spread(a.y.value(), p, b.y.value(), q, v.y.value());
    lemma_spread(a.z.value(), p, b.z.value(), q, v.z.value());
    lemma_gather(
        times(a.x.value(), v.x.value()),
        times(a.y.value(), v.y.value()),
        times(a.z.value(), v.z.value()),
        p,
    );
    lemma_gather(
        times(b.x.value(), v.x.value()),
        times(b.y.value(), v.y.value()),
        times(b.z.value(), v.z.value()),
        q,
    );
}

/// A turtle begins at the origin, heading in the horizontal plane at the
/// configured angle, with its left a quarter turn further and up vertical.
pub proof fn turtles_begin_upright(config: Turtle2dConfig, ev: spec_fn(Arithmetic) -> Real)
    requires
        ev(Arithmetic::Cosine(config.initial_angle)).finite(),
        ev(Arithmetic::Sine(config.initial_angle)).finite(),
    ensures
        ({
            let state = SpatialState::initial(config, ev);
            let c = ev(Arithmetic::Cosine(config.initial_angle)).value();
            let s = ev(Arithmetic::Sine(config.initial_angle)).value();
            &&& state.position.x.value() == 0real && state.position.y.value() == 0real
                && state.position.z.value() == 0real
            &&& state.heading.x.value() == c && state.heading.y.value() == s
                && state.heading.z.value() == 0real
            &&& state.left.x.value() == -s && state.left.y.value() == c && state.left.z.value()
                == 0real
            &&& state.up.x.value() == 0real && state.up.y.value() == 0real && state.up.z.value()
                == 1real
            &&& state.turn_angle == config.turn_angle
            &&& state.width == config.initial_width
            &&& state.color == config.initial_color
            &&& state.step_scale.value() == 1real
            &&& !state.invert_turns
            &&& config.initial_color matches StrokeColor::PaletteIndex(index)
                ==> state.color_index == Some(index as i32)
            &&& !(config.initial_color is PaletteIndex) ==> state.color_index is None
        }),
{
    lemma_small_values();
    lemma_held(ev(Arithmetic::Sine(config.initial_angle)));
}

/// Making the left horizontal makes it so: it has no vertical part, stands a
/// quarter turn to the left of the heading as seen from above, and neither the
/// heading nor the rest of the state changes.
pub proof fn alignment_makes_the_left_horizontal(
    state: SpatialState,
    ev: spec_fn(Arithmetic) -> Real,
)
    requires
        rounds(ev),
        state.finite(),
        ({
            let h = state.heading;
            let length = Vec3::vertical().crossed(h, ev).size(ev);
            &&& length.finite() && (Real { bits: SHORTEST_BITS }).below(length)
            &&& holds(1real / length.value())
            &&& holds(times(h.x.value(), 1real / length.value()))
            &&& holds(times(-h.y.value(), 1real / length.value()))
        }),
    ensures
        ({
            let h = state.heading;
            let next = aligned_3d(state, ev);
            let share = 1real / Vec3::vertical().crossed(h, ev).size(ev).value();
            &&& next == SpatialState { left: next.left, up: next.up, ..state }
            &&& share > 0real
            &&& next.left.x.value() == times(-h.y.value(), share)
            &&& next.left.y.value() == times(h.x.value(), share)
            &&& next.left.z.value() == 0real
        }),
{
    let h = state.heading;
    let v = Vec3::vertical();
    let zero = Real { bits: 0 };
    let one = Real { bits: ONE_BITS };
    lemma_small_values();
    lemma_held(h.x);
    lemma_held(h.y);
    lemma_held(h.z);
    lemma_held(zero);
    lemma_times(h.x.value());
    lemma_times(h.y.value());
    lemma_times(h.z.value());
    lemma_product(zero, h.z, ev);
    lemma_product(one, h.y, ev);
    lemma_product(one, h.x, ev);
    lemma_product(zero, h.y, ev);
    lemma_product(zero, h.x, ev);
    let cross = v.crossed(h, ev);
    lemma_exact(
        Arithmetic::Difference(
            ev(Arithmetic::Product(zero, h.z)),
            ev(Arithmetic::Product(one, h.y)),
        ),
        ev,
    );
    lemma_exact(
        Arithmetic::Difference(
            ev(Arithmetic::Product(one, h.x)),
            ev(Arithmetic::Product(zero, h.z)),
        ),
        ev,
    );
    lemma_exact(
        Arithmetic::Difference(
            ev(Arithmetic::Product(zero, h.y)),
            ev(Arithmetic::Product(zero, h.x)),
        ),
        ev,
    );
    let length = cross.size(ev);
    lemma_shortest();
    lemma_values(Real { bits: SHORTEST_BITS }, length);
    let r = ev(Arithmetic::Reciprocal(length));
    lemma_share(length, ev);
    lemma_times(r.value());
    lemma_product(cross.x, r, ev);
    lemma_product(cross.y, r, ev);
    lemma_product(cross.z, r, ev);
}

proof fn lemma_share(length: Real, ev: spec_fn(Arithmetic) -> Real)
    requires
        rounds(ev),
        length.finite(),
        length.value() > 0real,
        holds(1real / length.value()),
    ensures
        ev(Arithmetic::Reciprocal(length)).finite(),
        ev(Arithmetic::Reciprocal(length)).value() == 1real / length.value(),
        1real / length.value() > 0real,
{
    lemma_exact(Arithmetic::Reciprocal(length), ev);
    lemma_above(length.value());
}

proof fn lemma_above(d: real)
    requires
        d > 0real,
    ensures
        1real / d > 0real,
{
    let r = 1real / d;
    lemma_ratios(0real, 1real, d);
    lemma_ratios(1real, 1real, d);
    assert(0real * d == 0real);
    if r == 0real {
        assert(r * d == 0real);
    }
}

/// The shortest length with a direction is positive.
proof fn lemma_shortest()
    ensures
        (Real { bits: SHORTEST_BITS }).finite(),
        (Real { bits: SHORTEST_BITS }).value() > 0real,
{
    lemma_small_values();
    lemma_values(Real { bits: 0 }, Real { bits: SHORTEST_BITS });
}

/// Where up is after the left was made horizontal: perpendicular to the heading
/// and to the left, on the side that makes the three a right-handed frame.
pub proof fn alignment_keeps_the_frame_right_handed(
    state: SpatialState,
    ev: spec_fn(Arithmetic) -> Real,
)
    requires
        rounds(ev),
        state.finite(),
        ({
            let left = Vec3::vertical().crossed(state.heading, ev).direction(ev);
            &&& left is Some && left->0.finite()
            &&& exact_cross(state.heading, left->0)
            &&& ({
                let length = state.heading.crossed(left->0, ev).size(ev);
                let share = 1real / length.value();
                &&& length.finite() && (Real { bits: SHORTEST_BITS }).below(length)
                &&& holds(share)
                &&& holds(times(across_x(state.heading, left->0), share))
                &&& holds(times(across_y(state.heading, left->0), share))
                &&& holds(times(across_z(state.heading, left->0), share))
            })
        }),
    ensures
        ({
            let h = state.heading;
            let next = aligned_3d(state, ev);
            let share = 1real / h.crossed(next.left, ev).size(ev).value();
            &&& share > 0real
            &&& next.up.x.value() == times(across_x(h, next.left), share)
            &&& next.up.y.value() == times(across_y(h, next.left), share)
            &&& next.up.z.value() == times(across_z(h, next.left), share)
        }),
{
    let h = state.heading;
    let left = Vec3::vertical().crossed(h, ev).direction(ev)->0;
    let cross = h.crossed(left, ev);
    lemma_minor(h.y, left.z, h.z, left.y, ev);
    lemma_minor(h.z, left.x, h.x, left.z, ev);
    lemma_minor(h.x, left.y, h.y, left.x, ev);
    let length = cross.size(ev);
    lemma_shortest();
    lemma_values(Real { bits: SHORTEST_BITS }, length);
    let r = ev(Arithmetic::Reciprocal(length));
    lemma_share(length, ev);
    lemma_product(cross.x, r, ev);
    lemma_product(cross.y, r, ev);
    lemma_product(cross.z, r, ev);
    let next = aligned_3d(state, ev);
    assert(next.left == left && next.up == cross.times(r, ev));
}

/// The components of a cross product.
pub open spec fn across_x(a: Vec3, b: Vec3) -> real {
    times(a.y.value(), b.z.value()) - times(a.z.value(), b.y.value())
}

pub open spec fn across_y(a: Vec3, b: Vec3) -> real {
    times(a.z.value(), b.x.value()) - times(a.x.value(), b.z.value())
}

pub open spec fn across_z(a: Vec3, b: Vec3) -> real {
    times(a.x.value(), b.y.value()) - times(a.y.value(), b.x.value())
}

/// A cross product needs no rounding.
pub open spec fn exact_cross(a: Vec3, b: Vec3) -> bool {
    &&& exact_minor(a.y, b.z, a.z, b.y)
    &&& exact_minor(a.z, b.x, a.x, b.z)
    &&& exact_minor(a.x, b.y, a.y, b.x)
}

pub open spec fn exact_minor(a: Real, b: Real, c: Real, d: Real) -> bool {
    &&& holds(times(a.value(), b.value()))
    &&& holds(times(c.value(), d.value()))
    &&& holds(times(a.value(), b.value()) - times(c.value(), d.value()))
}

proof fn lemma_minor(a: Real, b: Real, c: Real, d: Real, ev: spec_fn(Arithmetic) -> Real)
    requires
        rounds(ev),
        a.finite() && b.finite() && c.finite() && d.finite(),
        exact_minor(a, b, c, d),
    ensures
        Vec3::minor(a, b, c, d, ev).finite(),
        Vec3::minor(a, b, c, d, ev).value() == times(a.value(), b.value()) - times(
            c.value(),
            d.value(),
        ),
{
    lemma_product(a, b, ev);
    lemma_product(c, d, ev);
    lemma_exact(
        Arithmetic::Difference(ev(Arithmetic::Product(a, b)), ev(Arithmetic::Product(c, d))),
        ev,
    );
}

/// An advance goes the argument, or the default step, times the step scale,
/// along the heading; half steps go half as far. Drawing modules and half
/// forward steps leave a line from the old position to the new one in the
/// current width and colour; moving modules and half moves leave none.
pub proof fn advances_go_ahead(
    module: Module,
    name: Seq<char>,
    config: Turtle2dConfig,
    state: SpatialState,
    outlines: Seq<Outline<Point3d>>,
    ev: spec_fn(Arithmetic) -> Real,
)
    requires
        rounds(ev),
        state.finite(),
        resolved(config.module_aliases@, module.name@) == Some(name),
        name == "HalfForward"@ || name == "HalfMove"@ || lists(config.draw_modules@, name) || lists(
            config.move_modules@,
            name,
        ),
        ({
            let step = module.first_number().unwrap_or(config.default_step);
            let full = times(step.value(), state.step_scale.value());
            let half = name == "HalfForward"@ || name == "HalfMove"@;
            let way = if half {
                full / 2real
            } else {
                full
            };
            &&& step.finite() && holds(full) && holds(way)
            &&& exact_advance(state, way)
        }),
    ensures
        ({
            let step = module.first_number().unwrap_or(config.default_step);
            let full = times(step.value(), state.step_scale.value());
            let half = name == "HalfForward"@ || name == "HalfMove"@;
            let draws = name == "HalfForward"@ || (name != "HalfMove"@ && lists(
                config.draw_modules@,
                name,
            ));
            visited_3d(module, config, state, outlines, ev) matches Ok(e) && {
                &&& e.state == SpatialState { position: e.state.position, ..state }
                &&& mixes(
                    e.state.position,
                    state.position,
                    1real,
                    state.heading,
                    if half {
                        full / 2real
                    } else {
                        full
                    },
                )
                &&& if draws {
                    e.emission == Emission::<StyledLine3d, Point3d>::Line(
                        StyledLine3d {
                            line: Line3d(
                                (state.position.x, state.position.y, state.position.z),
                                (e.state.position.x, e.state.position.y, e.state.position.z),
                            ),
                            width: state.width,
                            color: state.color,
                        },
                    )
                } else {
                    e.emission is Nothing
                }
                &&& if outlines.len() == 0 || half || (name != "F"@ && name != "f"@) {
                    e.outlines == outlines
                } else {
                    traces(
                        outlines,
                        (state.position.x, state.position.y, state.position.z),
                        (e.state.position.x, e.state.position.y, e.state.position.z),
                        e.outlines,
                    )
                }
            }
        }),
{
    lemma_words();
    lemma_small_values();
    let step = module.first_number().unwrap_or(config.default_step);
    let scale = state.step_scale;
    let half = Real { bits: HALF_BITS };
    let full = ev(Arithmetic::Product(step, scale));
    lemma_product(step, scale, ev);
    let way = if name == "HalfForward"@ || name == "HalfMove"@ {
        lemma_half(full.value());
        lemma_product(full, half, ev);
        ev(Arithmetic::Product(full, half))
    } else {
        full
    };
    let h = state.heading;
    let p = state.position;
    lemma_product(h.x, way, ev);
    lemma_times(p.x.value());
    lemma_product(h.y, way, ev);
    lemma_times(p.y.value());
    lemma_product(h.z, way, ev);
    lemma_times(p.z.value());
    lemma_exact(Arithmetic::Sum(p.x, ev(Arithmetic::Product(h.x, way))), ev);
    lemma_exact(Arithmetic::Sum(p.y, ev(Arithmetic::Product(h.y, way))), ev);
    lemma_exact(Arithmetic::Sum(p.z, ev(Arithmetic::Product(h.z, way))), ev);
    let end = p.plus(h.times(way, ev), ev);
    lemma_traces(outlines, p.as_point(), end.as_point());
}

proof fn lemma_half(a: real)
    ensures
        times(a, 1real / 2real) == a / 2real,
{
    reveal(times);
}

/// An advance of some length needs no rounding.
pub open spec fn exact_advance(state: SpatialState, length: real) -> bool {
    let h = state.heading;
    let p = state.position;
    &&& holds(times(h.x.value(), length))
    &&& holds(p.x.value() + times(h.x.value(), length))
    &&& holds(times(h.y.value(), length))
    &&& holds(p.y.value() + times(h.y.value(), length))
    &&& holds(times(h.z.value(), length))
    &&& holds(p.z.value() + times(h.z.value(), length))
}

/// An edge is traced on the innermost polygon: the polygon goes on from what it
/// was, stands at the start of the edge, and ends at its end.
pub open spec fn traces(
    before: Seq<Outline<Point3d>>,
    start: Point3d,
    end: Point3d,
    after: Seq<Outline<Point3d>>,
) -> bool {
    let old = before.last().vertices;
    let new = after.last().vertices;
    &&& after.len() == before.len()
    &&& after.drop_last() == before.drop_last()
    &&& after.last().color == before.last().color
    &&& new.len() >= 2
    &&& new[new.len() - 1] == end
    &&& at(new[new.len() - 2], start)
    &&& new.len() <= old.len() + 2
    &&& old == new.subrange(0, old.len() as int)
    &&& old.len() > 0 && at(old.last(), start) ==> new.len() == old.len() + 1
}

/// Two points are at one place.
pub open spec fn at(a: Point3d, b: Point3d) -> bool {
    a.0.same(b.0) && a.1.same(b.1) && a.2.same(b.2)
}

proof fn lemma_traces(before: Seq<Outline<Point3d>>, start: Point3d, end: Point3d)
    requires
        start.0.finite(),
        start.1.finite(),
        start.2.finite(),
    ensures
        before.len() > 0 ==> traces(before, start, end, traced_3d(before, start, end)),
{
    if before.len() > 0 {
        let after = traced_3d(before, start, end);
        let old = before.last().vertices;
        assert(after.drop_last() =~= before.drop_last());
        assert(old =~= after.last().vertices.subrange(0, old.len() as int));
    }
}

/// Inverting turns makes every turn go the other way; doing it twice undoes it.
pub proof fn inverting_twice_is_nothing(
    module: Module,
    config: Turtle2dConfig,
    state: SpatialState,
    outlines: Seq<Outline<Point3d>>,
    ev: spec_fn(Arithmetic) -> Real,
)
    requires
        state.finite(),
        acts(module, config, "InvertTurns"@),
    ensures
        visited_3d(module, config, state, outlines, ev) matches Ok(e) && {
            &&& e.state.invert_turns != state.invert_turns
            &&& only_changes(
                Ok(e),
                outlines,
                SpatialState { invert_turns: e.state.invert_turns, ..state },
            )
            &&& only_changes(visited_3d(module, config, e.state, outlines, ev), outlines, state)
        },
{
    lemma_words();
}

/// Scaling multiplies later steps by the argument, or by the configured
/// multiplier; scaling inversely divides them by it.
pub proof fn inverse_scaling_divides(
    module: Module,
    inverse: Module,
    config: Turtle2dConfig,
    state: SpatialState,
    outlines: Seq<Outline<Point3d>>,
    ev: spec_fn(Arithmetic) -> Real,
)
    requires
        rounds(ev),
        state.finite(),
        module.arguments == inverse.arguments,
        acts(module, config, "Scale"@) || acts(module, config, "ScaleLength"@),
        acts(inverse, config, "ScaleLengthInverse"@),
        ({
            let by = module.first_number().unwrap_or(config.scale_multiplier);
            &&& by.finite() && by.value() != 0real
            &&& holds(1real / by.value())
            &&& holds(state.step_scale.value() * by.value())
            &&& holds(state.step_scale.value() / by.value())
        }),
    ensures
        ({
            let by = module.first_number().unwrap_or(config.scale_multiplier).value();
            &&& visited_3d(module, config, state, outlines, ev) matches Ok(e) && {
                &&& e.state.step_scale.value() == state.step_scale.value() * by
                &&& only_changes(
                    Ok(e),
                    outlines,
                    SpatialState { step_scale: e.state.step_scale, ..state },
                )
            }
            &&& visited_3d(inverse, config, state, outlines, ev) matches Ok(e) && {
                &&& e.state.step_scale.value() * by == state.step_scale.value()
                &&& only_changes(
                    Ok(e),
                    outlines,
                    SpatialState { step_scale: e.state.step_scale, ..state },
                )
            }
        }),
{
    lemma_words();
    let by = module.first_number().unwrap_or(config.scale_multiplier);
    let s = state.step_scale;
    let b = by.value();
    let v = s.value();
    lemma_exact(Arithmetic::Product(s, by), ev);
    lemma_exact(Arithmetic::Reciprocal(by), ev);
    let r = ev(Arithmetic::Reciprocal(by));
    assert(v * (1real / b) == v / b) by (nonlinear_arith)
        requires
            b != 0real,
    ;
    assert((v / b) * b == v) by (nonlinear_arith)
        requires
            b != 0real,
    ;
    lemma_exact(Arithmetic::Product(s, r), ev);
}

/// A width command with an argument sets the width to it. Without one, the
/// width grows by the configured increment or shrinks by it, then never below
/// zero.
pub proof fn widths_grow_and_shrink(
    wider: Module,
    narrower: Module,
    config: Turtle2dConfig,
    state: SpatialState,
    outlines: Seq<Outline<Point3d>>,
    ev: spec_fn(Arithmetic) -> Real,
)
    requires
        rounds(ev),
        state.finite(),
        config.width_increment.finite(),
        wider.arguments@.len() == 0,
        narrower.arguments@.len() == 0,
        acts(wider, config, "WidthIncrease"@),
        acts(narrower, config, "WidthDecrease"@),
        holds(state.width.value() + config.width_increment.value()),
        holds(state.width.value() - config.width_increment.value()),
    ensures
        ({
            let by = config.width_increment.value();
            let old = state.width.value();
            &&& visited_3d(wider, config, state, outlines, ev) matches Ok(e) && {
                &&& e.state.width.value() == old + by
                &&& only_changes(Ok(e), outlines, SpatialState { width: e.state.width, ..state })
            }
            &&& visited_3d(narrower, config, state, outlines, ev) matches Ok(e) && {
                &&& e.state.width.value() == if old - by < 0real { 0real } else { old - by }
                &&& only_changes(Ok(e), outlines, SpatialState { width: e.state.width, ..state })
            }
        }),
{
    lemma_words();
    let by = config.width_increment;
    let zero = Real { bits: 0 };
    lemma_small_values();
    lemma_exact(Arithmetic::Sum(state.width, by), ev);
    lemma_exact(Arithmetic::Difference(state.width, by), ev);
    lemma_values(ev(Arithmetic::Difference(state.width, by)), zero);
}

/// Every width command sets the width to an argument that is not negative.
pub proof fn width_arguments_are_widths(
    module: Module,
    width: Real,
    config: Turtle2dConfig,
    state: SpatialState,
    outlines: Seq<Outline<Point3d>>,
    ev: spec_fn(Arithmetic) -> Real,
)
    requires
        state.finite(),
        acts(module, config, "Width"@) || acts(module, config, "SetWidth"@) || acts(
            module,
            config,
            "WidthIncrease"@,
        ) || acts(module, config, "WidthDecrease"@),
        module.first_number() == Some(width),
        width.finite(),
    ensures
        if width.value() >= 0real {
            only_changes(
                visited_3d(module, config, state, outlines, ev),
                outlines,
                SpatialState { width, ..state },
            )
        } else {
            visited_3d(module, config, state, outlines, ev) is Err
        },
{
    lemma_words();
    lemma_small_values();
    lemma_values(width, Real { bits: 0 });
}

/// The turn angle grows and shrinks by the argument in degrees, or by the
/// configured increment.
pub proof fn turn_angles_grow_and_shrink(
    wider: Module,
    narrower: Module,
    config: Turtle2dConfig,
    state: SpatialState,
    outlines: Seq<Outline<Point3d>>,
    ev: spec_fn(Arithmetic) -> Real,
)
    requires
        rounds(ev),
        state.finite(),
        state.turn_angle.finite(),
        wider.arguments == narrower.arguments,
        acts(wider, config, "TurnAngleIncrease"@),
        acts(narrower, config, "TurnAngleDecrease"@),
        ({
            let by = match wider.first_number() {
                Some(degrees) => ev(Arithmetic::Radians(degrees)),
                None => config.turn_angle_increment,
            };
            &&& by.finite()
            &&& holds(state.turn_angle.value() + by.value())
            &&& holds(state.turn_angle.value() - by.value())
        }),
    ensures
        ({
            let by = match wider.first_number() {
                Some(degrees) => ev(Arithmetic::Radians(degrees)),
                None => config.turn_angle_increment,
            };
            &&& visited_3d(wider, config, state, outlines, ev) matches Ok(e) && {
                &&& e.state.turn_angle.value() == state.turn_angle.value() + by.value()
                &&& only_changes(
                    Ok(e),
                    outlines,
                    SpatialState { turn_angle: e.state.turn_angle, ..state },
                )
            }
            &&& visited_3d(narrower, config, state, outlines, ev) matches Ok(e) && {
                &&& e.state.turn_angle.value() == state.turn_angle.value() - by.value()
                &&& only_changes(
                    Ok(e),
                    outlines,
                    SpatialState { turn_angle: e.state.turn_angle, ..state },
                )
            }
        }),
{
    lemma_words();
    let by = match wider.first_number() {
        Some(degrees) => ev(Arithmetic::Radians(degrees)),
        None => config.turn_angle_increment,
    };
    lemma_exact(Arithmetic::Sum(state.turn_angle, by), ev);
    lemma_exact(Arithmetic::Difference(state.turn_angle, by), ev);
}

/// The next colour is as far above the current one as the previous colour is
/// below it; the first one counts from zero. A colour out of range is refused.
pub proof fn colors_go_up_and_down(
    next: Module,
    previous: Module,
    by: int,
    config: Turtle2dConfig,
    state: SpatialState,
    outlines: Seq<Outline<Point3d>>,
    ev: spec_fn(Arithmetic) -> Real,
)
    requires
        state.finite(),
        i32::MIN < by <= i32::MAX,
        next.arguments == previous.arguments,
        next.first_number() matches Some(number) ==> number.is_integer(by),
        next.first_number() is None ==> by == config.color_increment,
        acts(next, config, "ColorNext"@) || acts(next, config, "ColorIncrement"@),
        acts(previous, config, "ColorPrevious"@),
    ensures
        ({
            let old = match state.color_index {
                Some(index) => index as int,
                None => 0,
            };
            &&& if i32::MIN <= old + by <= i32::MAX {
                &&& visited_3d(next, config, state, outlines, ev) matches Ok(e) && {
                    &&& e.state.color_index == Some((old + by) as i32)
                    &&& e.state.color == palette_choice(old + by, config.palette@)
                    &&& only_changes(
                        Ok(e),
                        outlines,
                        SpatialState {
                            color: e.state.color,
                            color_index: e.state.color_index,
                            ..state
                        },
                    )
                }
            } else {
                visited_3d(next, config, state, outlines, ev) is Err
            }
            &&& if i32::MIN <= old - by <= i32::MAX {
                &&& visited_3d(previous, config, state, outlines, ev) matches Ok(e) && {
                    &&& e.state.color_index == Some((old - by) as i32)
                    &&& e.state.color == palette_choice(old - by, config.palette@)
                    &&& only_changes(
                        Ok(e),
                        outlines,
                        SpatialState {
                            color: e.state.color,
                            color_index: e.state.color_index,
                            ..state
                        },
                    )
                }
            } else {
                visited_3d(previous, config, state, outlines, ev) is Err
            }
        }),
{
    lemma_words();
    match next.first_number() {
        Some(number) => {
            let other = choose|v: int| i32::MIN <= v <= i32::MAX && number.is_integer(v);
            lemma_one_integer(number, by, other);
        },
        None => {},
    }
}

/// A colour command chooses the colour at its argument.
pub proof fn colors_are_chosen_by_index(
    module: Module,
    index: int,
    config: Turtle2dConfig,
    state: SpatialState,
    outlines: Seq<Outline<Point3d>>,
    ev: spec_fn(Arithmetic) -> Real,
)
    requires
        state.finite(),
        i32::MIN <= index <= i32::MAX,
        module.first_number() matches Some(number) && number.is_integer(index),
        acts(module, config, "Color"@),
    ensures
        only_changes(
            visited_3d(module, config, state, outlines, ev),
            outlines,
            SpatialState {
                color: palette_choice(index, config.palette@),
                color_index: Some(index as i32),
                ..state
            },
        ),
{
    lemma_words();
    let number = module.first_number()->0;
    let other = choose|v: int| i32::MIN <= v <= i32::MAX && number.is_integer(v);
    lemma_one_integer(number, index, other);
}

/// A dot, an object or a surface is a line without length where the turtle stands, as wide as the
/// argument times the width of lines. The turtle stays as it is.
pub proof fn dots_mark_the_position(
    module: Module,
    config: Turtle2dConfig,
    state: SpatialState,
    outlines: Seq<Outline<Point3d>>,
    ev: spec_fn(Arithmetic) -> Real,
)
    requires
        rounds(ev),
        state.finite(),
        acts(module, config, "Dot"@) || acts(module, config, "Object"@) || acts(
            module,
            config,
            "Surface"@,
        ),
        module.first_number() matches Some(number) ==> number.finite(),
        ({
            let by = match module.first_number() {
                Some(number) => number.value(),
                None => 1real,
            };
            holds(state.width.value() * by)
        }),
    ensures
        ({
            let by = match module.first_number() {
                Some(number) => number.value(),
                None => 1real,
            };
            if by >= 0real {
                visited_3d(module, config, state, outlines, ev) matches Ok(e) && {
                    &&& e.state == state && e.outlines == outlines
                    &&& e.emission matches Emission::Line(dot) && {
                        &&& dot.line == Line3d(
                            (state.position.x, state.position.y, state.position.z),
                            (state.position.x, state.position.y, state.position.z),
                        )
                        &&& dot.width.value() == state.width.value() * by
                        &&& dot.color == state.color
                    }
                }
            } else {
                visited_3d(module, config, state, outlines, ev) is Err
            }
        }),
{
    lemma_words();
    let one = Real { bits: ONE_BITS };
    let by = match module.first_number() {
        Some(number) => number,
        None => one,
    };
    lemma_small_values();
    lemma_values(by, Real { bits: 0 });
    lemma_exact(Arithmetic::Product(state.width, by), ev);
}

/// A polygon is made of the positions at which its vertices were recorded, in
/// their order, in the colour in which it was begun; one with fewer than three
/// is dropped. Polygons nest.
pub proof fn polygons_collect_vertices(
    begin: Module,
    vertex: Module,
    end: Module,
    config: Turtle2dConfig,
    state: SpatialState,
    outlines: Seq<Outline<Point3d>>,
    ev: spec_fn(Arithmetic) -> Real,
)
    requires
        state.finite(),
        acts(begin, config, "PolygonBegin"@),
        acts(vertex, config, "Vertex"@),
        acts(end, config, "PolygonEnd"@),
    ensures
        visited_3d(begin, config, state, outlines, ev) matches Ok(e) && {
            &&& e.state == state && e.emission is Nothing
            &&& e.outlines.drop_last() == outlines
            &&& e.outlines.last().vertices.len() == 0
            &&& e.outlines.last().color == state.color
        },
        outlines.len() == 0 ==> visited_3d(vertex, config, state, outlines, ev) is Err
            && visited_3d(end, config, state, outlines, ev) is Err,
        outlines.len() > 0 ==> {
            &&& visited_3d(vertex, config, state, outlines, ev) matches Ok(e) && {
                &&& e.state == state && e.emission is Nothing
                &&& e.outlines.len() == outlines.len()
                &&& e.outlines.drop_last() == outlines.drop_last()
                &&& e.outlines.last().vertices == outlines.last().vertices.push(
                    (state.position.x, state.position.y, state.position.z),
                )
                &&& e.outlines.last().color == outlines.last().color
            }
            &&& visited_3d(end, config, state, outlines, ev) matches Ok(e) && {
                &&& e.state == state && e.outlines == outlines.drop_last()
                &&& e.emission == if outlines.last().vertices.len() < 3 {
                    Emission::<StyledLine3d, Point3d>::Nothing
                } else {
                    Emission::Polygon(outlines.last())
                }
            }
        },
{
    lemma_words();
    assert(outlines.push(
        Outline { vertices: Seq::<Point3d>::empty(), color: state.color },
    ).drop_last() =~= outlines);
    if outlines.len() > 0 {
        let last = Outline {
            vertices: outlines.last().vertices.push(
                    (state.position.x, state.position.y, state.position.z),
                ),
            color: outlines.last().color,
        };
        assert(outlines.update(outlines.len() - 1, last).drop_last() =~= outlines.drop_last());
    }
}

/// A cut is handed out, and changes nothing itself.
pub proof fn cuts_are_handed_out(
    module: Module,
    config: Turtle2dConfig,
    state: SpatialState,
    outlines: Seq<Outline<Point3d>>,
    ev: spec_fn(Arithmetic) -> Real,
)
    requires
        acts(module, config, "Cut"@),
    ensures
        visited_3d(module, config, state, outlines, ev) matches Ok(e) && e.state == state
            && e.outlines == outlines && e.emission is Cut,
{
    lemma_words();
}

/// A module whose action is no word of the vocabulary does nothing.
pub proof fn other_names_do_nothing(
    module: Module,
    name: Seq<char>,
    config: Turtle2dConfig,
    state: SpatialState,
    outlines: Seq<Outline<Point3d>>,
    ev: spec_fn(Arithmetic) -> Real,
)
    requires
        state.finite(),
        acts(module, config, name),
        name != "HalfForward"@,
        name != "HalfMove"@,
        name != "+"@,
        name != "Plus"@,
        name != "ExplicitPlus"@,
        name != "Left"@,
        name != "Turn"@,
        name != "-"@,
        name != "Minus"@,
        name != "ExplicitMinus"@,
        name != "Right"@,
        name != "TurnAround"@,
        name != "Around"@,
        name != "InvertTurns"@,
        name != "Scale"@,
        name != "ScaleLength"@,
        name != "ScaleLengthInverse"@,
        name != "Width"@,
        name != "SetWidth"@,
        name != "WidthIncrease"@,
        name != "WidthDecrease"@,
        name != "TurnAngleIncrease"@,
        name != "TurnAngleDecrease"@,
        name != "Color"@,
        name != "ColorIncrement"@,
        name != "ColorNext"@,
        name != "ColorPrevious"@,
        name != "Dot"@,
        name != "PolygonBegin"@,
        name != "PolygonEnd"@,
        name != "Vertex"@,
        name != "Cut"@,
        name != "PitchUp"@,
        name != "PitchDown"@,
        name != "RollLeft"@,
        name != "RollRight"@,
        name != "Horizontal"@,
        name != "Vertical"@,
        name != "Object"@,
        name != "Surface"@,
    ensures
        only_changes(visited_3d(module, config, state, outlines, ev), outlines, state),
{
}

} // verus!
