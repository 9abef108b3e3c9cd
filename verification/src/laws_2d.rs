//! What the commands of the two-dimensional turtle do, in exact values.

use vstd::prelude::*;

use crate::action::{lists, resolved};
use crate::config::{palette_choice, Turtle2dConfig};
use crate::error::Failure;
use crate::generation::Module;
use crate::geometry::{Line2d, Point2d, StrokeColor, StyledLine2d};
use crate::number::{Arithmetic, Real, HALF_BITS, ONE_BITS, PI_BITS};
use crate::turtle_2d::{lemma_one_integer, traced_2d, visited_2d, TurtleState};
use crate::value::{holds, lemma_exact, lemma_held, lemma_small_values, lemma_values, rounds};
use crate::walk::{Effect, Emission, Outline};
use crate::words::lemma_words;

verus! {

pub type Effect2d = Effect<TurtleState, StyledLine2d, Point2d>;

/// A module stands for an action of the fixed vocabulary.
pub open spec fn acts(module: Module, config: Turtle2dConfig, name: Seq<char>) -> bool {
    &&& resolved(config.module_aliases@, module.name@) == Some(name)
    &&& !lists(config.draw_modules@, name)
    &&& !lists(config.move_modules@, name)
}

/// An effect changes the state in a way, and nothing else.
pub open spec fn only_changes(
    effect: Result<Effect2d, Failure>,
    outlines: Seq<Outline<Point2d>>,
    state: TurtleState,
) -> bool {
    effect == Ok::<_, Failure>(Effect { state, outlines, emission: Emission::<StyledLine2d, Point2d>::Nothing })
}

/// The angle of a turn: the argument in degrees, or the current turn angle.
pub open spec fn turn_of(
    module: Module,
    state: TurtleState,
    ev: spec_fn(Arithmetic) -> Real,
) -> Real {
    match module.first_number() {
        Some(degrees) => ev(Arithmetic::Radians(degrees)),
        None => state.turn_angle,
    }
}

/// A left turn adds the angle of the turn to the heading and a right turn
/// takes it away, with an argument and without one; inverted turns do the
/// opposite. Nothing else changes.
pub proof fn left_and_right_turns_are_opposite(
    left: Module,
    right: Module,
    config: Turtle2dConfig,
    state: TurtleState,
    outlines: Seq<Outline<Point2d>>,
    ev: spec_fn(Arithmetic) -> Real,
)
    requires
        rounds(ev),
        state.finite(),
        left.arguments == right.arguments,
        acts(left, config, "+"@) || acts(left, config, "Plus"@) || acts(
            left,
            config,
            "ExplicitPlus"@,
        ) || acts(left, config, "Left"@) || acts(left, config, "Turn"@),
        acts(right, config, "-"@) || acts(right, config, "Minus"@) || acts(
            right,
            config,
            "ExplicitMinus"@,
        ) || acts(right, config, "Right"@),
        turn_of(left, state, ev).finite(),
        holds(state.angle.value() + turn_of(left, state, ev).value()),
        holds(state.angle.value() - turn_of(left, state, ev).value()),
    ensures
        ({
            let by = turn_of(left, state, ev).value();
            let turned = if state.invert_turns {
                -by
            } else {
                by
            };
            &&& visited_2d(left, config, state, outlines, ev) matches Ok(l) && {
                &&& l.state.angle.value() == state.angle.value() + turned
                &&& only_changes(Ok(l), outlines, TurtleState { angle: l.state.angle, ..state })
            }
            &&& visited_2d(right, config, state, outlines, ev) matches Ok(r) && {
                &&& r.state.angle.value() == state.angle.value() - turned
                &&& only_changes(Ok(r), outlines, TurtleState { angle: r.state.angle, ..state })
            }
        }),
{
    lemma_words();
    let one = Real { bits: ONE_BITS };
    let a = turn_of(left, state, ev);
    let h = state.angle;
    lemma_small_values();
    lemma_held(a);
    lemma_held(a.opposite());
    if left.first_number() is None {
        lemma_exact(Arithmetic::Product(a, one), ev);
        lemma_exact(Arithmetic::Product(a, one.opposite()), ev);
        lemma_held(ev(Arithmetic::Product(a, one)));
        lemma_held(ev(Arithmetic::Product(a, one.opposite())));
        let p = ev(Arithmetic::Product(a, one));
        let q = ev(Arithmetic::Product(a, one.opposite()));
        lemma_exact(Arithmetic::Sum(h, p), ev);
        lemma_exact(Arithmetic::Sum(h, q), ev);
        lemma_exact(Arithmetic::Sum(h, p.opposite()), ev);
        lemma_exact(Arithmetic::Sum(h, q.opposite()), ev);
    } else {
        lemma_exact(Arithmetic::Sum(h, a), ev);
        lemma_exact(Arithmetic::Sum(h, a.opposite()), ev);
    }
}

/// Turning around adds half a turn, whether or not turns are inverted.
pub proof fn turning_around_adds_half_a_turn(
    module: Module,
    config: Turtle2dConfig,
    state: TurtleState,
    outlines: Seq<Outline<Point2d>>,
    ev: spec_fn(Arithmetic) -> Real,
)
    requires
        rounds(ev),
        state.finite(),
        acts(module, config, "TurnAround"@) || acts(module, config, "Around"@),
        holds(state.angle.value() + (Real { bits: PI_BITS }).value()),
    ensures
        visited_2d(module, config, state, outlines, ev) matches Ok(e) && {
            &&& e.state.angle.value() == state.angle.value() + (Real { bits: PI_BITS }).value()
            &&& only_changes(Ok(e), outlines, TurtleState { angle: e.state.angle, ..state })
        },
{
    lemma_words();
    lemma_exact(Arithmetic::Sum(state.angle, Real { bits: PI_BITS }), ev);
}

/// Inverting turns makes every turn go the other way; doing it twice undoes it.
pub proof fn inverting_twice_is_nothing(
    module: Module,
    config: Turtle2dConfig,
    state: TurtleState,
    outlines: Seq<Outline<Point2d>>,
    ev: spec_fn(Arithmetic) -> Real,
)
    requires
        state.finite(),
        acts(module, config, "InvertTurns"@),
    ensures
        visited_2d(module, config, state, outlines, ev) matches Ok(e) && {
            &&& e.state.invert_turns != state.invert_turns
            &&& only_changes(
                Ok(e),
                outlines,
                TurtleState { invert_turns: e.state.invert_turns, ..state },
            )
            &&& only_changes(visited_2d(module, config, e.state, outlines, ev), outlines, state)
        },
{
    lemma_words();
}

/// Scaling multiplies later steps by the argument, or by the configured
/// multiplier; scaling inversely divides them by it.
pub proof fn inverse_scaling_divides(
    module: Module,
    inverse: Module,
    config: Turtle2dConfig,
    state: TurtleState,
    outlines: Seq<Outline<Point2d>>,
    ev: spec_fn(Arithmetic) -> Real,
)
    requires
        rounds(ev),
        state.finite(),
        module.arguments == inverse.arguments,
        acts(module, config, "Scale"@) || acts(module, config, "ScaleLength"@),
        acts(inverse, config, "ScaleLengthInverse"@),
        ({
            let by = module.first_number().unwrap_or(config.scale_multiplier);
            &&& by.finite() && by.value() != 0real
            &&& holds(1real / by.value())
            &&& holds(state.step_scale.value() * by.value())
            &&& holds(state.step_scale.value() / by.value())
        }),
    ensures
        ({
            let by = module.first_number().unwrap_or(config.scale_multiplier).value();
            &&& visited_2d(module, config, state, outlines, ev) matches Ok(e) && {
                &&& e.state.step_scale.value() == state.step_scale.value() * by
                &&& only_changes(
                    Ok(e),
                    outlines,
                    TurtleState { step_scale: e.state.step_scale, ..state },
                )
            }
            &&& visited_2d(inverse, config, state, outlines, ev) matches Ok(e) && {
                &&& e.state.step_scale.value() * by == state.step_scale.value()
                &&& only_changes(
                    Ok(e),
                    outlines,
                    TurtleState { step_scale: e.state.step_scale, ..state },
                )
            }
        }),
{
    lemma_words();
    let by = module.first_number().unwrap_or(config.scale_multiplier);
    let s = state.step_scale;
    let b = by.value();
    let v = s.value();
    lemma_exact(Arithmetic::Product(s, by), ev);
    lemma_exact(Arithmetic::Reciprocal(by), ev);
    let r = ev(Arithmetic::Reciprocal(by));
    assert(v * (1real / b) == v / b) by (nonlinear_arith)
        requires
            b != 0real,
    ;
    assert((v / b) * b == v) by (nonlinear_arith)
        requires
            b != 0real,
    ;
    lemma_exact(Arithmetic::Product(s, r), ev);
}

/// A width command with an argument sets the width to it. Without one, the
/// width grows by the configured increment or shrinks by it, never below zero.
pub proof fn widths_grow_and_shrink(
    wider: Module,
    narrower: Module,
    config: Turtle2dConfig,
    state: TurtleState,
    outlines: Seq<Outline<Point2d>>,
    ev: spec_fn(Arithmetic) -> Real,
)
    requires
        rounds(ev),
        state.finite(),
        config.width_increment.finite(),
        wider.arguments@.len() == 0,
        narrower.arguments@.len() == 0,
        acts(wider, config, "WidthIncrease"@),
        acts(narrower, config, "WidthDecrease"@),
        holds(state.width.value() + config.width_increment.value()),
        holds(state.width.value() - config.width_increment.value()),
    ensures
        ({
            let by = config.width_increment.value();
            let old = state.width.value();
            &&& visited_2d(wider, config, state, outlines, ev) matches Ok(e) && {
                &&& e.state.width.value() == if old + by < 0real { 0real } else { old + by }
                &&& only_changes(Ok(e), outlines, TurtleState { width: e.state.width, ..state })
            }
            &&& visited_2d(narrower, config, state, outlines, ev) matches Ok(e) && {
                &&& e.state.width.value() == if old - by < 0real { 0real } else { old - by }
                &&& only_changes(Ok(e), outlines, TurtleState { width: e.state.width, ..state })
            }
        }),
{
    lemma_words();
    let by = config.width_increment;
    let zero = Real { bits: 0 };
    lemma_small_values();
    lemma_held(by);
    lemma_exact(Arithmetic::Sum(state.width, by), ev);
    lemma_exact(Arithmetic::Sum(state.width, by.opposite()), ev);
    lemma_values(ev(Arithmetic::Sum(state.width, by)), zero);
    lemma_values(ev(Arithmetic::Sum(state.width, by.opposite())), zero);
}

/// Every width command sets the width to an argument that is not negative.
pub proof fn width_arguments_are_widths(
    module: Module,
    width: Real,
    config: Turtle2dConfig,
    state: TurtleState,
    outlines: Seq<Outline<Point2d>>,
    ev: spec_fn(Arithmetic) -> Real,
)
    requires
        state.finite(),
        acts(module, config, "Width"@) || acts(module, config, "SetWidth"@) || acts(
            module,
            config,
            "WidthIncrease"@,
        ) || acts(module, config, "WidthDecrease"@),
        module.first_number() == Some(width),
        width.finite(),
    ensures
        if width.value() >= 0real {
            only_changes(
                visited_2d(module, config, state, outlines, ev),
                outlines,
                TurtleState { width, ..state },
            )
        } else {
            visited_2d(module, config, state, outlines, ev) is Err
        },
{
    lemma_words();
    lemma_small_values();
    lemma_values(width, Real { bits: 0 });
}

/// The turn angle grows and shrinks by the argument in degrees, or by the
/// configured increment.
pub proof fn turn_angles_grow_and_shrink(
    wider: Module,
    narrower: Module,
    config: Turtle2dConfig,
    state: TurtleState,
    outlines: Seq<Outline<Point2d>>,
    ev: spec_fn(Arithmetic) -> Real,
)
    requires
        rounds(ev),
        state.finite(),
        state.turn_angle.finite(),
        wider.arguments == narrower.arguments,
        acts(wider, config, "TurnAngleIncrease"@),
        acts(narrower, config, "TurnAngleDecrease"@),
        ({
            let by = match wider.first_number() {
                Some(degrees) => ev(Arithmetic::Radians(degrees)),
                None => config.turn_angle_increment,
            };
            &&& by.finite()
            &&& holds(state.turn_angle.value() + by.value())
            &&& holds(state.turn_angle.value() - by.value())
        }),
    ensures
        ({
            let by = match wider.first_number() {
                Some(degrees) => ev(Arithmetic::Radians(degrees)),
                None => config.turn_angle_increment,
            };
            &&& visited_2d(wider, config, state, outlines, ev) matches Ok(e) && {
                &&& e.state.turn_angle.value() == state.turn_angle.value() + by.value()
                &&& only_changes(
                    Ok(e),
                    outlines,
                    TurtleState { turn_angle: e.state.turn_angle, ..state },
                )
            }
            &&& visited_2d(narrower, config, state, outlines, ev) matches Ok(e) && {
                &&& e.state.turn_angle.value() == state.turn_angle.value() - by.value()
                &&& only_changes(
                    Ok(e),
                    outlines,
                    TurtleState { turn_angle: e.state.turn_angle, ..state },
                )
            }
        }),
{
    lemma_words();
    let by = match wider.first_number() {
        Some(degrees) => ev(Arithmetic::Radians(degrees)),
        None => config.turn_angle_increment,
    };
    lemma_held(by);
    lemma_exact(Arithmetic::Sum(state.turn_angle, by), ev);
    lemma_exact(Arithmetic::Sum(state.turn_angle, by.opposite()), ev);
}

/// The next colour is as far above the current one as the previous colour is
/// below it; the first one counts from zero. A colour out of range is refused.
pub proof fn colors_go_up_and_down(
    next: Module,
    previous: Module,
    by: int,
    config: Turtle2dConfig,
    state: TurtleState,
    outlines: Seq<Outline<Point2d>>,
    ev: spec_fn(Arithmetic) -> Real,
)
    requires
        state.finite(),
        i32::MIN < by <= i32::MAX,
        next.arguments == previous.arguments,
        next.first_number() matches Some(number) ==> number.is_integer(by),
        next.first_number() is None ==> by == config.color_increment,
        acts(next, config, "ColorNext"@) || acts(next, config, "ColorIncrement"@),
        acts(previous, config, "ColorPrevious"@),
    ensures
        ({
            let old = match state.color_index {
                Some(index) => index as int,
                None => 0,
            };
            &&& if i32::MIN <= old + by <= i32::MAX {
                &&& visited_2d(next, config, state, outlines, ev) matches Ok(e) && {
                    &&& e.state.color_index == Some((old + by) as i32)
                    &&& e.state.color == palette_choice(old + by, config.palette@)
                    &&& only_changes(
                        Ok(e),
                        outlines,
                        TurtleState {
                            color: e.state.color,
                            color_index: e.state.color_index,
                            ..state
                        },
                    )
                }
            } else {
                visited_2d(next, config, state, outlines, ev) is Err
            }
            &&& if i32::MIN <= old - by <= i32::MAX {
                &&& visited_2d(previous, config, state, outlines, ev) matches Ok(e) && {
                    &&& e.state.color_index == Some((old - by) as i32)
                    &&& e.state.color == palette_choice(old - by, config.palette@)
                    &&& only_changes(
                        Ok(e),
                        outlines,
                        TurtleState {
                            color: e.state.color,
                            color_index: e.state.color_index,
                            ..state
                        },
                    )
                }
            } else {
                visited_2d(previous, config, state, outlines, ev) is Err
            }
        }),
{
    lemma_words();
    match next.first_number() {
        Some(number) => {
            let other = choose|v: int| i32::MIN <= v <= i32::MAX && number.is_integer(v);
            lemma_one_integer(number, by, other);
        },
        None => {},
    }
}

/// A colour command chooses the colour at its argument.
pub proof fn colors_are_chosen_by_index(
    module: Module,
    index: int,
    config: Turtle2dConfig,
    state: TurtleState,
    outlines: Seq<Outline<Point2d>>,
    ev: spec_fn(Arithmetic) -> Real,
)
    requires
        state.finite(),
        i32::MIN <= index <= i32::MAX,
        module.first_number() matches Some(number) && number.is_integer(index),
        acts(module, config, "Color"@),
    ensures
        only_changes(
            visited_2d(module, config, state, outlines, ev),
            outlines,
            TurtleState {
                color: palette_choice(index, config.palette@),
                color_index: Some(index as i32),
                ..state
            },
        ),
{
    lemma_words();
    let number = module.first_number()->0;
    let other = choose|v: int| i32::MIN <= v <= i32::MAX && number.is_integer(v);
    lemma_one_integer(number, index, other);
}

/// Colours of a palette go round: every index has the colour of the place that
/// it reaches by whole rounds. Without a palette there are twelve places.
pub proof fn palettes_go_round(index: int, palette: Seq<[u8; 3]>)
    requires
        palette.len() <= i32::MAX,
    ensures
        palette.len() > 0 ==> {
            &&& 0 <= index < palette.len() ==> palette_choice(index, palette) == StrokeColor::Rgb(
                palette[index],
            )
            &&& palette_choice(index + palette.len(), palette) == palette_choice(index, palette)
        },
        palette.len() == 0 ==> {
            &&& 0 <= index < 12 ==> palette_choice(index, palette) == StrokeColor::PaletteIndex(
                index as u16,
            )
            &&& palette_choice(index + 12, palette) == palette_choice(index, palette)
        },
{
    let span = if palette.len() == 0 {
        12
    } else {
        palette.len() as int
    };
    vstd::arithmetic::div_mod::lemma_mod_add_multiples_vanish(index, span);
    vstd::arithmetic::div_mod::lemma_mod_bound(index, span);
    if 0 <= index < span {
        vstd::arithmetic::div_mod::lemma_small_mod(index as nat, span as nat);
    }
}

/// A dot is a line without length where the turtle stands, as wide as the
/// argument times the width of lines. The turtle stays as it is.
pub proof fn dots_mark_the_position(
    module: Module,
    config: Turtle2dConfig,
    state: TurtleState,
    outlines: Seq<Outline<Point2d>>,
    ev: spec_fn(Arithmetic) -> Real,
)
    requires
        rounds(ev),
        state.finite(),
        acts(module, config, "Dot"@),
        module.first_number() matches Some(number) ==> number.finite(),
        ({
            let by = match module.first_number() {
                Some(number) => number.value(),
                None => 1real,
            };
            holds(state.width.value() * by)
        }),
    ensures
        ({
            let by = match module.first_number() {
                Some(number) => number.value(),
                None => 1real,
            };
            if by >= 0real {
                visited_2d(module, config, state, outlines, ev) matches Ok(e) && {
                    &&& e.state == state && e.outlines == outlines
                    &&& e.emission matches Emission::Line(dot) && {
                        &&& dot.line == Line2d(state.position, state.position)
                        &&& dot.width.value() == state.width.value() * by
                        &&& dot.color == state.color
                    }
                }
            } else {
                visited_2d(module, config, state, outlines, ev) is Err
            }
        }),
{
    lemma_words();
    let one = Real { bits: ONE_BITS };
    let by = match module.first_number() {
        Some(number) => number,
        None => one,
    };
    lemma_small_values();
    lemma_values(by, Real { bits: 0 });
    lemma_exact(Arithmetic::Product(state.width, by), ev);
}

/// A polygon is made of the positions at which its vertices were recorded, in
/// their order, in the colour in which it was begun; one with fewer than three
/// is dropped. Polygons nest.
pub proof fn polygons_collect_vertices(
    begin: Module,
    vertex: Module,
    end: Module,
    config: Turtle2dConfig,
    state: TurtleState,
    outlines: Seq<Outline<Point2d>>,
    ev: spec_fn(Arithmetic) -> Real,
)
    requires
        state.finite(),
        acts(begin, config, "PolygonBegin"@),
        acts(vertex, config, "Vertex"@),
        acts(end, config, "PolygonEnd"@),
    ensures
        visited_2d(begin, config, state, outlines, ev) matches Ok(e) && {
            &&& e.state == state && e.emission is Nothing
            &&& e.outlines.drop_last() == outlines
            &&& e.outlines.last().vertices.len() == 0
            &&& e.outlines.last().color == state.color
        },
        outlines.len() == 0 ==> visited_2d(vertex, config, state, outlines, ev) is Err
            && visited_2d(end, config, state, outlines, ev) is Err,
        outlines.len() > 0 ==> {
            &&& visited_2d(vertex, config, state, outlines, ev) matches Ok(e) && {
                &&& e.state == state && e.emission is Nothing
                &&& e.outlines.len() == outlines.len()
                &&& e.outlines.drop_last() == outlines.drop_last()
                &&& e.outlines.last().vertices == outlines.last().vertices.push(state.position)
                &&& e.outlines.last().color == outlines.last().color
            }
            &&& visited_2d(end, config, state, outlines, ev) matches Ok(e) && {
                &&& e.state == state && e.outlines == outlines.drop_last()
                &&& e.emission == if outlines.last().vertices.len() < 3 {
                    Emission::<StyledLine2d, Point2d>::Nothing
                } else {
                    Emission::Polygon(outlines.last())
                }
            }
        },
{
    lemma_words();
    assert(outlines.push(
        Outline { vertices: Seq::<Point2d>::empty(), color: state.color },
    ).drop_last() =~= outlines);
    if outlines.len() > 0 {
        let last = Outline {
            vertices: outlines.last().vertices.push(state.position),
            color: outlines.last().color,
        };
        assert(outlines.update(outlines.len() - 1, last).drop_last() =~= outlines.drop_last());
    }
}

/// A cut is handed out, and changes nothing itself.
pub proof fn cuts_are_handed_out(
    module: Module,
    config: Turtle2dConfig,
    state: TurtleState,
    outlines: Seq<Outline<Point2d>>,
    ev: spec_fn(Arithmetic) -> Real,
)
    requires
        acts(module, config, "Cut"@),
    ensures
        visited_2d(module, config, state, outlines, ev) matches Ok(e) && e.state == state
            && e.outlines == outlines && e.emission is Cut,
{
    lemma_words();
}

/// Where an advance of some length ends, from a position in a direction.
pub open spec fn reaches(
    state: TurtleState,
    length: real,
    end: Point2d,
    ev: spec_fn(Arithmetic) -> Real,
) -> bool {
    &&& end.0.value() == state.position.0.value() + length * ev(
        Arithmetic::Cosine(state.angle),
    ).value()
    &&& end.1.value() == state.position.1.value() + length * ev(
        Arithmetic::Sine(state.angle),
    ).value()
}

/// An advance of some length needs no rounding.
pub open spec fn exact_advance(
    state: TurtleState,
    length: real,
    ev: spec_fn(Arithmetic) -> Real,
) -> bool {
    let c = ev(Arithmetic::Cosine(state.angle));
    let s = ev(Arithmetic::Sine(state.angle));
    &&& c.finite() && s.finite()
    &&& holds(length * c.value()) && holds(length * s.value())
    &&& holds(state.position.0.value() + length * c.value())
    &&& holds(state.position.1.value() + length * s.value())
}

/// An advance goes the argument, or the default step, times the step scale, in
/// the current direction; half steps go half as far. Drawing modules and half
/// forward steps leave a line from the old position to the new one in the
/// current width and colour; moving modules and half moves leave none.
pub proof fn advances_go_ahead(
    module: Module,
    name: Seq<char>,
    config: Turtle2dConfig,
    state: TurtleState,
    outlines: Seq<Outline<Point2d>>,
    ev: spec_fn(Arithmetic) -> Real,
)
    requires
        rounds(ev),
        state.finite(),
        resolved(config.module_aliases@, module.name@) == Some(name),
        name == "HalfForward"@ || name == "HalfMove"@ || lists(config.draw_modules@, name) || lists(
            config.move_modules@,
            name,
        ),
        ({
            let step = module.first_number().unwrap_or(config.default_step);
            let full = step.value() * state.step_scale.value();
            let half = name == "HalfForward"@ || name == "HalfMove"@;
            &&& step.finite() && holds(full)
            &&& half ==> holds(step.value() / 2real) && holds(full / 2real)
            &&& exact_advance(
                state,
                if half {
                    full / 2real
                } else {
                    full
                },
                ev,
            )
        }),
    ensures
        ({
            let step = module.first_number().unwrap_or(config.default_step);
            let full = step.value() * state.step_scale.value();
            let half = name == "HalfForward"@ || name == "HalfMove"@;
            let draws = name == "HalfForward"@ || (name != "HalfMove"@ && lists(
                config.draw_modules@,
                name,
            ));
            visited_2d(module, config, state, outlines, ev) matches Ok(e) && {
                &&& e.state == TurtleState { position: e.state.position, ..state }
                &&& reaches(
                    state,
                    if half {
                        full / 2real
                    } else {
                        full
                    },
                    e.state.position,
                    ev,
                )
                &&& if draws {
                    e.emission == Emission::<StyledLine2d, Point2d>::Line(
                        StyledLine2d {
                            line: Line2d(state.position, e.state.position),
                            width: state.width,
                            color: state.color,
                        },
                    )
                } else {
                    e.emission is Nothing
                }
                &&& if outlines.len() == 0 || (name != "F"@ && name != "f"@) {
                    e.outlines == outlines
                } else {
                    traces(outlines, state.position, e.state.position, e.outlines)
                }
            }
        }),
{
    lemma_words();
    let step = module.first_number().unwrap_or(config.default_step);
    let scale = state.step_scale;
    let half = Real { bits: HALF_BITS };
    let c = ev(Arithmetic::Cosine(state.angle));
    let s = ev(Arithmetic::Sine(state.angle));
    let full = step.value() * scale.value();
    lemma_small_values();
    let way = if name == "HalfForward"@ {
        lemma_exact(Arithmetic::Product(step, half), ev);
        let short = ev(Arithmetic::Product(step, half));
        assert(short.value() * scale.value() == full / 2real) by (nonlinear_arith)
            requires
                short.value() == step.value() / 2real,
                full == step.value() * scale.value(),
        ;
        lemma_exact(Arithmetic::Product(short, scale), ev);
        ev(Arithmetic::Product(short, scale))
    } else if name == "HalfMove"@ {
        lemma_exact(Arithmetic::Product(step, scale), ev);
        let long = ev(Arithmetic::Product(step, scale));
        lemma_exact(Arithmetic::Product(long, half), ev);
        ev(Arithmetic::Product(long, half))
    } else {
        lemma_exact(Arithmetic::Product(step, scale), ev);
        ev(Arithmetic::Product(step, scale))
    };
    lemma_exact(Arithmetic::Product(way, c), ev);
    lemma_exact(Arithmetic::Product(way, s), ev);
    lemma_exact(Arithmetic::Sum(state.position.0, ev(Arithmetic::Product(way, c))), ev);
    lemma_exact(Arithmetic::Sum(state.position.1, ev(Arithmetic::Product(way, s))), ev);
    let end = (
        ev(Arithmetic::Sum(state.position.0, ev(Arithmetic::Product(way, c)))),
        ev(Arithmetic::Sum(state.position.1, ev(Arithmetic::Product(way, s)))),
    );
    lemma_traces(outlines, state.position, end);
}

/// An edge is traced on the innermost polygon: the polygon goes on from what it
/// was, stands at the start of the edge, and ends at its end.
pub open spec fn traces(
    before: Seq<Outline<Point2d>>,
    start: Point2d,
    end: Point2d,
    after: Seq<Outline<Point2d>>,
) -> bool {
    let old = before.last().vertices;
    let new = after.last().vertices;
    &&& after.len() == before.len()
    &&& after.drop_last() == before.drop_last()
    &&& after.last().color == before.last().color
    &&& new.len() >= 2
    &&& new[new.len() - 1] == end
    &&& new[new.len() - 2].0.same(start.0) && new[new.len() - 2].1.same(start.1)
    &&& new.len() <= old.len() + 2
    &&& old == new.subrange(0, old.len() as int)
    &&& old.len() > 0 && old.last().0.same(start.0) && old.last().1.same(start.1) ==> new.len()
        == old.len() + 1
}

proof fn lemma_traces(before: Seq<Outline<Point2d>>, start: Point2d, end: Point2d)
    requires
        start.0.finite(),
        start.1.finite(),
    ensures
        before.len() > 0 ==> traces(before, start, end, traced_2d(before, start, end)),
{
    if before.len() > 0 {
        let after = traced_2d(before, start, end);
        let old = before.last().vertices;
        assert(after.drop_last() =~= before.drop_last());
        assert(old =~= after.last().vertices.subrange(0, old.len() as int));
    }
}

/// A turtle begins at the origin with the configured direction, width, colour
/// and turn angle, with whole steps, and with turns as they are named.
pub proof fn turtles_begin_at_the_origin(config: Turtle2dConfig)
    ensures
        ({
            let state = TurtleState::initial(config);
            &&& state.position.0.value() == 0real && state.position.1.value() == 0real
            &&& state.angle == config.initial_angle
            &&& state.turn_angle == config.turn_angle
            &&& state.width == config.initial_width
            &&& state.color == config.initial_color
            &&& state.step_scale.value() == 1real
            &&& !state.invert_turns
            &&& config.initial_color matches StrokeColor::PaletteIndex(index)
                ==> state.color_index == Some(index as i32)
            &&& !(config.initial_color is PaletteIndex) ==> state.color_index is None
        }),
{
    lemma_small_values();
}

/// A module whose action is no word of the vocabulary does nothing.
pub proof fn other_names_do_nothing(
    module: Module,
    name: Seq<char>,
    config: Turtle2dConfig,
    state: TurtleState,
    outlines: Seq<Outline<Point2d>>,
    ev: spec_fn(Arithmetic) -> Real,
)
    requires
        state.finite(),
        acts(module, config, name),
        name != "HalfForward"@,
        name != "HalfMove"@,
        name != "+"@,
        name != "Plus"@,
        name != "ExplicitPlus"@,
        name != "Left"@,
        name != "Turn"@,
        name != "-"@,
        name != "Minus"@,
        name != "ExplicitMinus"@,
        name != "Right"@,
        name != "TurnAround"@,
        name != "Around"@,
        name != "InvertTurns"@,
        name != "Scale"@,
        name != "ScaleLength"@,
        name != "ScaleLengthInverse"@,
        name != "Width"@,
        name != "SetWidth"@,
        name != "WidthIncrease"@,
        name != "WidthDecrease"@,
        name != "TurnAngleIncrease"@,
        name != "TurnAngleDecrease"@,
        name != "Color"@,
        name != "ColorIncrement"@,
        name != "ColorNext"@,
        name != "ColorPrevious"@,
        name != "Dot"@,
        name != "PolygonBegin"@,
        name != "PolygonEnd"@,
        name != "Vertex"@,
        name != "Cut"@,
    ensures
        only_changes(visited_2d(module, config, state, outlines, ev), outlines, state),
{
}

} // verus!
