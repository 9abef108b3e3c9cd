//! The two-dimensional turtle: commands, state, and geometry.

use vstd::prelude::*;
use vstd::string::*;

use crate::action::{contains_name, follow_aliases, lists, resolved};
use crate::config::{palette_choice, palette_color, Turtle2dConfig};
use crate::error::{exhausted, invalid, resource_error, Failure, VisualizeError};
use crate::generation::Module;
use crate::geometry::{Line2d, Point2d, Polygon2d, StrokeColor, StyledLine2d};
use crate::number::{answers, calculate, calculates, Arithmetic, Real, HALF_BITS, ONE_BITS, PI_BITS};
use crate::text::{quoted, quoted_text, same_text};
use crate::walk::{Effect, Emission, Outline};

verus! {

/// A turtle command with its amount.
#[derive(Debug, Clone, Copy, PartialEq, Eq, Structural)]
pub enum TurtleOp {
    Draw(Real),
    Move(Real),
    HalfMove(Real),
    Turn(Real),
    TurnDefault(Real),
    TurnAround,
    InvertTurns,
    Scale(Real),
    WidthSet(Real),
    WidthDelta(Real),
    TurnAngleDelta(Real),
    ColorSet(i32),
    ColorDelta(i32),
    Dot(Real),
    PolygonBegin,
    PolygonEnd,
    Vertex,
    Cut,
    Noop,
}

/// The message about aliases that go round.
pub open spec fn alias_cycle_2d(name: Seq<char>) -> Failure {
    Failure::InvalidConfiguration(
        "turtle_2d render-map alias cycle involving "@ + quoted_text(name),
    )
}

/// The action that a module name stands for.
pub open spec fn action_2d(config: Turtle2dConfig, name: Seq<char>) -> Result<Seq<char>, Failure> {
    match resolved(config.module_aliases@, name) {
        Some(action) => Ok(action),
        None => Err(alias_cycle_2d(name)),
    }
}

pub fn resolve_action<'a>(module_name: &'a str, config: &'a Turtle2dConfig) -> (r: Result<
    &'a str,
    VisualizeError,
>)
    ensures
        match r {
            Ok(action) => action_2d(*config, module_name@) == Ok::<_, Failure>(action@),
            Err(error) => action_2d(*config, module_name@) == Err::<Seq<char>, _>(error@),
        },
{
    match follow_aliases(&config.module_aliases, module_name) {
        Some(action) => Ok(action),
        None => {
            let mut message: String = "turtle_2d render-map alias cycle involving ".to_owned();
            let name: String = quoted(module_name);
            message.append(name.as_str());
            Err(VisualizeError::InvalidConfiguration(message))
        },
    }
}

/// The length of a move: the argument of the module, or the default.
pub open spec fn distance_of(module: Module, config: Turtle2dConfig) -> Real {
    match module.first_number() {
        Some(number) => number,
        None => config.default_step,
    }
}

/// The argument of the module, or another number.
pub open spec fn number_or(module: Module, other: Real) -> Real {
    match module.first_number() {
        Some(number) => number,
        None => other,
    }
}

/// The argument of the module in radians.
pub open spec fn radians_of(module: Module, ev: spec_fn(Arithmetic) -> Real) -> Option<Real> {
    match module.first_number() {
        Some(number) => Some(ev(Arithmetic::Radians(number))),
        None => None,
    }
}

/// The argument of the module, when it is exactly a 32-bit integer.
pub open spec fn integer_of(module: Module) -> Option<int> {
    match module.first_number() {
        Some(number) => if exists|v: int| i32::MIN <= v <= i32::MAX && number.is_integer(v) {
            Some(choose|v: int| i32::MIN <= v <= i32::MAX && number.is_integer(v))
        } else {
            None
        },
        None => None,
    }
}

/// The argument of the module, or the configured colour increment.
pub open spec fn color_step(module: Module, config: Turtle2dConfig) -> int {
    match integer_of(module) {
        Some(v) => v,
        None => config.color_increment as int,
    }
}

/// The opposite of a 32-bit integer, wrapping at its lower end.
pub open spec fn wrapped_opposite(v: int) -> int {
    if v == i32::MIN {
        v
    } else {
        -v
    }
}

/// The width that a module sets.
pub open spec fn width_of(module: Module) -> Result<Real, Failure> {
    match module.first_number() {
        None => Err(Failure::InvalidConfiguration("Width requires a numeric argument"@)),
        Some(width) => if !width.finite() || width.below(Real { bits: 0 }) {
            Err(Failure::InvalidConfiguration("turtle width must be finite and non-negative"@))
        } else {
            Ok(width)
        },
    }
}

pub open spec fn turns_left(name: Seq<char>) -> bool {
    name == "+"@ || name == "Plus"@ || name == "ExplicitPlus"@ || name == "Left"@ || name
        == "Turn"@
}

pub open spec fn turns_right(name: Seq<char>) -> bool {
    name == "-"@ || name == "Minus"@ || name == "ExplicitMinus"@ || name == "Right"@
}

/// The command of an action that neither draws nor moves.
pub open spec fn plain_command(
    name: Seq<char>,
    module: Module,
    config: Turtle2dConfig,
    ev: spec_fn(Arithmetic) -> Real,
) -> Result<TurtleOp, Failure> {
    if turns_left(name) {
        Ok(
            match radians_of(module, ev) {
                Some(angle) => TurtleOp::Turn(angle),
                None => TurtleOp::TurnDefault(Real { bits: ONE_BITS }),
            },
        )
    } else if turns_right(name) {
        Ok(
            match radians_of(module, ev) {
                Some(angle) => TurtleOp::Turn(angle.opposite()),
                None => TurtleOp::TurnDefault((Real { bits: ONE_BITS }).opposite()),
            },
        )
    } else if name == "TurnAround"@ || name == "Around"@ {
        Ok(TurtleOp::TurnAround)
    } else if name == "InvertTurns"@ {
        Ok(TurtleOp::InvertTurns)
    } else if name == "Scale"@ || name == "ScaleLength"@ {
        Ok(TurtleOp::Scale(number_or(module, config.scale_multiplier)))
    } else if name == "ScaleLengthInverse"@ {
        Ok(
            TurtleOp::Scale(
                ev(Arithmetic::Reciprocal(number_or(module, config.scale_multiplier))),
            ),
        )
    } else if name == "Width"@ || name == "SetWidth"@ {
        match width_of(module) {
            Ok(width) => Ok(TurtleOp::WidthSet(width)),
            Err(failure) => Err(failure),
        }
    } else if name == "WidthIncrease"@ || name == "WidthDecrease"@ {
        if module.arguments@.len() == 0 {
            Ok(
                TurtleOp::WidthDelta(
                    if name == "WidthIncrease"@ {
                        config.width_increment
                    } else {
                        config.width_increment.opposite()
                    },
                ),
            )
        } else {
            match width_of(module) {
                Ok(width) => Ok(TurtleOp::WidthSet(width)),
                Err(failure) => Err(failure),
            }
        }
    } else {
        style_command(name, module, config, ev)
    }
}

/// The command of an action on turn angles, colours, dots and polygons.
pub open spec fn style_command(
    name: Seq<char>,
    module: Module,
    config: Turtle2dConfig,
    ev: spec_fn(Arithmetic) -> Real,
) -> Result<TurtleOp, Failure> {
    if name == "TurnAngleIncrease"@ || name == "TurnAngleDecrease"@ {
        let amount = match radians_of(module, ev) {
            Some(angle) => angle,
            None => config.turn_angle_increment,
        };
        Ok(
            TurtleOp::TurnAngleDelta(
                if name == "TurnAngleIncrease"@ {
                    amount
                } else {
                    amount.opposite()
                },
            ),
        )
    } else if name == "Color"@ {
        match integer_of(module) {
            Some(index) => Ok(TurtleOp::ColorSet(index as i32)),
            None => Err(
                Failure::InvalidConfiguration("Color requires an integer palette index"@),
            ),
        }
    } else if name == "ColorIncrement"@ || name == "ColorNext"@ {
        Ok(TurtleOp::ColorDelta(color_step(module, config) as i32))
    } else if name == "ColorPrevious"@ {
        Ok(TurtleOp::ColorDelta(wrapped_opposite(color_step(module, config)) as i32))
    } else if name == "Dot"@ {
        Ok(TurtleOp::Dot(number_or(module, Real { bits: ONE_BITS })))
    } else if name == "PolygonBegin"@ {
        Ok(TurtleOp::PolygonBegin)
    } else if name == "PolygonEnd"@ {
        Ok(TurtleOp::PolygonEnd)
    } else if name == "Vertex"@ {
        Ok(TurtleOp::Vertex)
    } else if name == "Cut"@ {
        Ok(TurtleOp::Cut)
    } else {
        Ok(TurtleOp::Noop)
    }
}

/// The command that a module stands for. Half steps come first, then the
/// configured drawing and moving modules, then the fixed vocabulary; other
/// names are ignored.
pub open spec fn command_of(
    module: Module,
    config: Turtle2dConfig,
    ev: spec_fn(Arithmetic) -> Real,
) -> Result<TurtleOp, Failure> {
    match action_2d(config, module.name@) {
        Err(failure) => Err(failure),
        Ok(name) => if name == "HalfForward"@ {
            Ok(
                TurtleOp::Draw(
                    ev(Arithmetic::Product(distance_of(module, config), Real { bits: HALF_BITS })),
                ),
            )
        } else if name == "HalfMove"@ {
            Ok(TurtleOp::HalfMove(distance_of(module, config)))
        } else if lists(config.draw_modules@, name) {
            Ok(TurtleOp::Draw(distance_of(module, config)))
        } else if lists(config.move_modules@, name) {
            Ok(TurtleOp::Move(distance_of(module, config)))
        } else {
            plain_command(name, module, config, ev)
        },
    }
}

pub fn module_distance(module: &Module, config: &Turtle2dConfig) -> (r: Real)
    ensures
        r == distance_of(*module, *config),
{
    match module.number() {
        Some(number) => number,
        None => config.default_step,
    }
}

pub fn module_number_or(module: &Module, other: Real) -> (r: Real)
    ensures
        r == number_or(*module, other),
{
    match module.number() {
        Some(number) => number,
        None => other,
    }
}

pub fn module_degrees<C: Fn(Arithmetic) -> Real>(module: &Module, calc: &C) -> (r: Option<Real>)
    requires
        calculates(*calc),
    ensures
        r == radians_of(*module, answers(*calc)),
{
    match module.number() {
        Some(number) => Some(calculate(calc, Arithmetic::Radians(number))),
        None => None,
    }
}

/// No number is two integers.
pub proof fn lemma_one_integer(number: Real, a: int, b: int)
    requires
        number.is_integer(a),
        number.is_integer(b),
    ensures
        a == b,
{
    let x = if a < 0 { -a } else { a };
    let y = if b < 0 { -b } else { b };
    if number.scale() < 0 {
        let d = vstd::arithmetic::power2::pow2((-number.scale()) as nat) as int;
        vstd::arithmetic::power2::lemma_pow2_pos((-number.scale()) as nat);
        assert(x == y) by (nonlinear_arith)
            requires
                x * d == y * d,
                d > 0,
        ;
    }
    assert(x == y);
}

pub fn module_integer(module: &Module) -> (r: Option<i32>)
    ensures
        match r {
            Some(v) => integer_of(*module) == Some(v as int),
            None => integer_of(*module) is None,
        },
{
    match module.number() {
        None => None,
        Some(number) => {
            let r: Option<i32> = number.to_i32();
            proof {
                match r {
                    Some(v) => {
                        let w = choose|w: int| i32::MIN <= w <= i32::MAX && number.is_integer(w);
                        lemma_one_integer(number, v as int, w);
                    },
                    None => {},
                }
            }
            r
        },
    }
}

fn color_delta(module: &Module, config: &Turtle2dConfig) -> (r: i32)
    ensures
        r == color_step(*module, *config),
{
    match module_integer(module) {
        Some(v) => v,
        None => config.color_increment,
    }
}

/// The opposite, wrapping at the lower end.
pub fn opposite_i32(v: i32) -> (r: i32)
    ensures
        r == wrapped_opposite(v as int),
{
    if v == i32::MIN {
        v
    } else {
        -v
    }
}

fn width_argument(module: &Module) -> (r: Result<Real, VisualizeError>)
    ensures
        match r {
            Ok(width) => width_of(*module) == Ok::<_, Failure>(width),
            Err(error) => width_of(*module) == Err::<Real, _>(error@),
        },
{
    match module.number() {
        None => Err(invalid("Width requires a numeric argument")),
        Some(width) => if !width.is_finite() || width.is_negative() {
            Err(invalid("turtle width must be finite and non-negative"))
        } else {
            Ok(width)
        },
    }
}

fn classify_style<C: Fn(Arithmetic) -> Real>(
    name: &str,
    module: &Module,
    config: &Turtle2dConfig,
    calc: &C,
) -> (r: Result<TurtleOp, VisualizeError>)
    requires
        calculates(*calc),
    ensures
        match r {
            Ok(op) => style_command(name@, *module, *config, answers(*calc)) == Ok::<_, Failure>(
                op,
            ),
            Err(error) => style_command(name@, *module, *config, answers(*calc)) == Err::<
                TurtleOp,
                _,
            >(error@),
        },
{
    let increase: bool = same_text(name, "TurnAngleIncrease");
    if increase || same_text(name, "TurnAngleDecrease") {
        let amount: Real = match module_degrees(module, calc) {
            Some(angle) => angle,
            None => config.turn_angle_increment,
        };
        return Ok(
            TurtleOp::TurnAngleDelta(
                if increase {
                    amount
                } else {
                    amount.negated()
                },
            ),
        );
    }
    if same_text(name, "Color") {
        return match module_integer(module) {
            Some(index) => Ok(TurtleOp::ColorSet(index)),
            None => Err(invalid("Color requires an integer palette index")),
        };
    }
    if same_text(name, "ColorIncrement") || same_text(name, "ColorNext") {
        return Ok(TurtleOp::ColorDelta(color_delta(module, config)));
    }
    if same_text(name, "ColorPrevious") {
        return Ok(TurtleOp::ColorDelta(opposite_i32(color_delta(module, config))));
    }
    if same_text(name, "Dot") {
        return Ok(TurtleOp::Dot(module_number_or(module, Real { bits: ONE_BITS })));
    }
    if same_text(name, "PolygonBegin") {
        return Ok(TurtleOp::PolygonBegin);
    }
    if same_text(name, "PolygonEnd") {
        return Ok(TurtleOp::PolygonEnd);
    }
    if same_text(name, "Vertex") {
        return Ok(TurtleOp::Vertex);
    }
    if same_text(name, "Cut") {
        return Ok(TurtleOp::Cut);
    }
    Ok(TurtleOp::Noop)
}

fn classify_plain<C: Fn(Arithmetic) -> Real>(
    name: &str,
    module: &Module,
    config: &Turtle2dConfig,
    calc: &C,
) -> (r: Result<TurtleOp, VisualizeError>)
    requires
        calculates(*calc),
    ensures
        match r {
            Ok(op) => plain_command(name@, *module, *config, answers(*calc)) == Ok::<_, Failure>(
                op,
            ),
            Err(error) => plain_command(name@, *module, *config, answers(*calc)) == Err::<
                TurtleOp,
                _,
            >(error@),
        },
{
    if same_text(name, "+") || same_text(name, "Plus") || same_text(name, "ExplicitPlus")
        || same_text(name, "Left") || same_text(name, "Turn") {
        return Ok(
            match module_degrees(module, calc) {
                Some(angle) => TurtleOp::Turn(angle),
                None => TurtleOp::TurnDefault(Real { bits: ONE_BITS }),
            },
        );
    }
    if same_text(name, "-") || same_text(name, "Minus") || same_text(name, "ExplicitMinus")
        || same_text(name, "Right") {
        return Ok(
            match module_degrees(module, calc) {
                Some(angle) => TurtleOp::Turn(angle.negated()),
                None => TurtleOp::TurnDefault((Real { bits: ONE_BITS }).negated()),
            },
        );
    }
    if same_text(name, "TurnAround") || same_text(name, "Around") {
        return Ok(TurtleOp::TurnAround);
    }
    if same_text(name, "InvertTurns") {
        return Ok(TurtleOp::InvertTurns);
    }
    if same_text(name, "Scale") || same_text(name, "ScaleLength") {
        return Ok(TurtleOp::Scale(module_number_or(module, config.scale_multiplier)));
    }
    if same_text(name, "ScaleLengthInverse") {
        let scale: Real = module_number_or(module, config.scale_multiplier);
        return Ok(TurtleOp::Scale(calculate(calc, Arithmetic::Reciprocal(scale))));
    }
    if same_text(name, "Width") || same_text(name, "SetWidth") {
        return match width_argument(module) {
            Ok(width) => Ok(TurtleOp::WidthSet(width)),
            Err(error) => Err(error),
        };
    }
    let increase: bool = same_text(name, "WidthIncrease");
    if increase || same_text(name, "WidthDecrease") {
        // Only the bare forms are relative; an argument is an absolute width.
        if module.arguments.len() == 0 {
            return Ok(
                TurtleOp::WidthDelta(
                    if increase {
                        config.width_increment
                    } else {
                        config.width_increment.negated()
                    },
                ),
            );
        }
        return match width_argument(module) {
            Ok(width) => Ok(TurtleOp::WidthSet(width)),
            Err(error) => Err(error),
        };
    }
    classify_style(name, module, config, calc)
}

/// The command that a module stands for.
pub fn classify_module<C: Fn(Arithmetic) -> Real>(
    module: &Module,
    config: &Turtle2dConfig,
    calc: &C,
) -> (r: Result<TurtleOp, VisualizeError>)
    requires
        calculates(*calc),
    ensures
        match r {
            Ok(op) => command_of(*module, *config, answers(*calc)) == Ok::<_, Failure>(op),
            Err(error) => command_of(*module, *config, answers(*calc)) == Err::<TurtleOp, _>(
                error@,
            ),
        },
{
    let name: &str = match resolve_action(module.name.as_str(), config) {
        Ok(name) => name,
        Err(error) => {
            return Err(error);
        },
    };
    if same_text(name, "HalfForward") {
        let distance: Real = module_distance(module, config);
        let half: Real = Real { bits: HALF_BITS };
        return Ok(TurtleOp::Draw(calculate(calc, Arithmetic::Product(distance, half))));
    }
    if same_text(name, "HalfMove") {
        return Ok(TurtleOp::HalfMove(module_distance(module, config)));
    }
    if contains_name(&config.draw_modules, name) {
        return Ok(TurtleOp::Draw(module_distance(module, config)));
    }
    if contains_name(&config.move_modules, name) {
        return Ok(TurtleOp::Move(module_distance(module, config)));
    }
    classify_plain(name, module, config, calc)
}

/// The state of a two-dimensional turtle.
#[derive(Debug, Clone, Copy)]
pub struct TurtleState {
    pub position: Point2d,
    pub angle: Real,
    pub step_scale: Real,
    pub width: Real,
    pub invert_turns: bool,
    pub turn_angle: Real,
    pub color: StrokeColor,
    pub color_index: Option<i32>,
}

/// The palette index that a colour begins with.
pub open spec fn first_index(color: StrokeColor) -> Option<i32> {
    match color {
        StrokeColor::PaletteIndex(index) => Some(index as i32),
        _ => None,
    }
}

impl TurtleState {
    /// The state in which a turtle begins.
    pub open spec fn initial(config: Turtle2dConfig) -> TurtleState {
        TurtleState {
            position: (Real { bits: 0 }, Real { bits: 0 }),
            angle: config.initial_angle,
            step_scale: Real { bits: ONE_BITS },
            width: config.initial_width,
            invert_turns: false,
            turn_angle: config.turn_angle,
            color: config.initial_color,
            color_index: first_index(config.initial_color),
        }
    }

    pub fn new(config: &Turtle2dConfig) -> (r: TurtleState)
        ensures
            r == TurtleState::initial(*config),
    {
        TurtleState {
            position: (Real { bits: 0 }, Real { bits: 0 }),
            angle: config.initial_angle,
            step_scale: Real { bits: ONE_BITS },
            width: config.initial_width,
            invert_turns: false,
            turn_angle: config.turn_angle,
            color: config.initial_color,
            color_index: match config.initial_color {
                StrokeColor::PaletteIndex(index) => Some(index as i32),
                _ => None,
            },
        }
    }

    pub open spec fn finite(self) -> bool {
        self.position.0.finite() && self.position.1.finite() && self.angle.finite()
            && self.step_scale.finite() && self.width.finite()
    }

    fn is_finite(&self) -> (r: bool)
        ensures
            r == self.finite(),
    {
        self.position.0.is_finite() && self.position.1.is_finite() && self.angle.is_finite()
            && self.step_scale.is_finite() && self.width.is_finite()
    }
}

/// Two points have equal coordinates.
pub open spec fn same_point_2d(a: Point2d, b: Point2d) -> bool {
    a.0.same(b.0) && a.1.same(b.1)
}

/// The point at a distance in the current direction.
pub open spec fn ahead_2d(
    state: TurtleState,
    distance: Real,
    ev: spec_fn(Arithmetic) -> Real,
) -> Point2d {
    (
        ev(
            Arithmetic::Sum(
                state.position.0,
                ev(Arithmetic::Product(distance, ev(Arithmetic::Cosine(state.angle)))),
            ),
        ),
        ev(
            Arithmetic::Sum(
                state.position.1,
                ev(Arithmetic::Product(distance, ev(Arithmetic::Sine(state.angle)))),
            ),
        ),
    )
}

/// The polygons with an edge traced on the innermost one: its end, and its
/// start unless the polygon is already there.
pub open spec fn traced_2d(
    outlines: Seq<Outline<Point2d>>,
    start: Point2d,
    end: Point2d,
) -> Seq<Outline<Point2d>> {
    if outlines.len() == 0 {
        outlines
    } else {
        let last = outlines.last();
        let begun = if last.vertices.len() > 0 && same_point_2d(last.vertices.last(), start) {
            last.vertices
        } else {
            last.vertices.push(start)
        };
        outlines.update(
            outlines.len() - 1,
            Outline { vertices: begun.push(end), color: last.color },
        )
    }
}

/// The effect of an advance.
pub open spec fn advanced_2d(
    state: TurtleState,
    outlines: Seq<Outline<Point2d>>,
    distance: Real,
    draw: bool,
    traces: bool,
    ev: spec_fn(Arithmetic) -> Real,
) -> Result<Effect<TurtleState, StyledLine2d, Point2d>, Failure> {
    let next = ahead_2d(state, distance, ev);
    if !next.0.finite() || !next.1.finite() {
        Err(Failure::InvalidConfiguration("turtle_2d produced a non-finite coordinate"@))
    } else {
        Ok(
            Effect {
                state: TurtleState { position: next, ..state },
                outlines: if traces {
                    traced_2d(outlines, state.position, next)
                } else {
                    outlines
                },
                emission: if draw {
                    Emission::Line(
                        StyledLine2d {
                            line: Line2d(state.position, next),
                            width: state.width,
                            color: state.color,
                        },
                    )
                } else {
                    Emission::Nothing
                },
            },
        )
    }
}

/// The state after a command on the state alone, if it is such a command.
pub open spec fn adjusted_2d(
    op: TurtleOp,
    state: TurtleState,
    ev: spec_fn(Arithmetic) -> Real,
) -> TurtleState {
    match op {
        TurtleOp::Turn(delta) => TurtleState {
            angle: ev(
                Arithmetic::Sum(
                    state.angle,
                    if state.invert_turns {
                        delta.opposite()
                    } else {
                        delta
                    },
                ),
            ),
            ..state
        },
        TurtleOp::TurnDefault(direction) => {
            let delta = ev(Arithmetic::Product(state.turn_angle, direction));
            TurtleState {
                angle: ev(
                    Arithmetic::Sum(
                        state.angle,
                        if state.invert_turns {
                            delta.opposite()
                        } else {
                            delta
                        },
                    ),
                ),
                ..state
            }
        },
        TurtleOp::TurnAround => TurtleState {
            angle: ev(Arithmetic::Sum(state.angle, Real { bits: PI_BITS })),
            ..state
        },
        TurtleOp::InvertTurns => TurtleState { invert_turns: !state.invert_turns, ..state },
        TurtleOp::Scale(scale) => TurtleState {
            step_scale: ev(Arithmetic::Product(state.step_scale, scale)),
            ..state
        },
        TurtleOp::WidthSet(width) => TurtleState { width, ..state },
        TurtleOp::WidthDelta(delta) => TurtleState {
            width: ev(Arithmetic::Sum(state.width, delta)).upper(Real { bits: 0 }),
            ..state
        },
        TurtleOp::TurnAngleDelta(delta) => TurtleState {
            turn_angle: ev(Arithmetic::Sum(state.turn_angle, delta)),
            ..state
        },
        _ => state,
    }
}

/// The state after a colour has been chosen.
pub open spec fn colored_2d(
    state: TurtleState,
    index: int,
    config: Turtle2dConfig,
) -> TurtleState {
    TurtleState {
        color_index: Some(index as i32),
        color: palette_choice(index, config.palette@),
        ..state
    }
}

/// The index that a relative colour command leads to.
pub open spec fn color_target(state: TurtleState, delta: int) -> int {
    match state.color_index {
        Some(index) => index + delta,
        None => delta,
    }
}

/// An effect without geometry; the state must stay finite.
pub open spec fn quiet_2d(
    state: TurtleState,
    outlines: Seq<Outline<Point2d>>,
) -> Result<Effect<TurtleState, StyledLine2d, Point2d>, Failure> {
    if state.finite() {
        Ok(Effect { state, outlines, emission: Emission::Nothing })
    } else {
        Err(Failure::InvalidConfiguration("turtle_2d produced non-finite state"@))
    }
}

/// The effect of a command.
pub open spec fn performed_2d(
    op: TurtleOp,
    traces: bool,
    config: Turtle2dConfig,
    state: TurtleState,
    outlines: Seq<Outline<Point2d>>,
    ev: spec_fn(Arithmetic) -> Real,
) -> Result<Effect<TurtleState, StyledLine2d, Point2d>, Failure> {
    match op {
        TurtleOp::Draw(distance) => advanced_2d(
            state,
            outlines,
            ev(Arithmetic::Product(distance, state.step_scale)),
            true,
            traces,
            ev,
        ),
        TurtleOp::Move(distance) => advanced_2d(
            state,
            outlines,
            ev(Arithmetic::Product(distance, state.step_scale)),
            false,
            traces,
            ev,
        ),
        TurtleOp::HalfMove(distance) => advanced_2d(
            state,
            outlines,
            ev(
                Arithmetic::Product(
                    ev(Arithmetic::Product(distance, state.step_scale)),
                    Real { bits: HALF_BITS },
                ),
            ),
            false,
            false,
            ev,
        ),
        TurtleOp::ColorSet(index) => quiet_2d(colored_2d(state, index as int, config), outlines),
        TurtleOp::ColorDelta(delta) => {
            let index = color_target(state, delta as int);
            if i32::MIN <= index <= i32::MAX {
                quiet_2d(colored_2d(state, index, config), outlines)
            } else {
                Err(Failure::InvalidConfiguration("turtle color index overflow"@))
            }
        },
        TurtleOp::Dot(diameter) => if !diameter.finite() || diameter.below(Real { bits: 0 }) {
            Err(
                Failure::InvalidConfiguration(
                    "turtle dot diameter must be finite and non-negative"@,
                ),
            )
        } else {
            Ok(
                Effect {
                    state,
                    outlines,
                    emission: Emission::Line(
                        StyledLine2d {
                            line: Line2d(state.position, state.position),
                            width: ev(Arithmetic::Product(state.width, diameter)),
                            color: state.color,
                        },
                    ),
                },
            )
        },
        TurtleOp::PolygonBegin => quiet_2d(
            state,
            outlines.push(Outline { vertices: Seq::empty(), color: state.color }),
        ),
        TurtleOp::Vertex => if outlines.len() == 0 {
            Err(Failure::InvalidConfiguration("Vertex requires an active PolygonBegin"@))
        } else {
            quiet_2d(
                state,
                outlines.update(
                    outlines.len() - 1,
                    Outline {
                        vertices: outlines.last().vertices.push(state.position),
                        color: outlines.last().color,
                    },
                ),
            )
        },
        TurtleOp::PolygonEnd => if outlines.len() == 0 {
            Err(Failure::InvalidConfiguration("PolygonEnd requires an active PolygonBegin"@))
        } else if outlines.last().vertices.len() >= 3 {
            Ok(
                Effect {
                    state,
                    outlines: outlines.drop_last(),
                    emission: Emission::Polygon(outlines.last()),
                },
            )
        } else {
            quiet_2d(state, outlines.drop_last())
        },
        TurtleOp::Cut => Ok(Effect { state, outlines, emission: Emission::Cut }),
        _ => quiet_2d(adjusted_2d(op, state, ev), outlines),
    }
}

/// `F` and `f` trace polygon edges as they advance; other drawing modules do
/// not contribute vertices.
pub open spec fn traces_edges(name: Seq<char>) -> bool {
    name == "F"@ || name == "f"@
}

/// The effect of visiting a module.
pub open spec fn visited_2d(
    module: Module,
    config: Turtle2dConfig,
    state: TurtleState,
    outlines: Seq<Outline<Point2d>>,
    ev: spec_fn(Arithmetic) -> Real,
) -> Result<Effect<TurtleState, StyledLine2d, Point2d>, Failure> {
    match action_2d(config, module.name@) {
        Err(failure) => Err(failure),
        Ok(name) => match command_of(module, config, ev) {
            Err(failure) => Err(failure),
            Ok(op) => performed_2d(op, traces_edges(name), config, state, outlines, ev),
        },
    }
}

/// What visiting a module hands out.
pub enum VisitOutcome {
    Line(StyledLine2d),
    Polygon(Polygon2d),
    Cut,
    Nothing,
}

/// A polygon as an outline.
pub open spec fn outline_2d(polygon: Polygon2d) -> Outline<Point2d> {
    Outline { vertices: polygon.vertices@, color: polygon.color }
}

/// Some polygons as outlines.
pub open spec fn outlines_2d(polygons: Seq<Polygon2d>) -> Seq<Outline<Point2d>> {
    polygons.map_values(|p: Polygon2d| outline_2d(p))
}

impl View for VisitOutcome {
    type V = Emission<StyledLine2d, Point2d>;

    open spec fn view(&self) -> Emission<StyledLine2d, Point2d> {
        match *self {
            VisitOutcome::Line(line) => Emission::Line(line),
            VisitOutcome::Polygon(polygon) => Emission::Polygon(outline_2d(polygon)),
            VisitOutcome::Cut => Emission::Cut,
            VisitOutcome::Nothing => Emission::Nothing,
        }
    }
}

/// Room for an edge of the innermost polygon was refused.
spec fn edge_refused_2d(
    outlines: Seq<Outline<Point2d>>,
    start: Point2d,
    failure: Failure,
) -> bool {
    let count = traced_2d(outlines, start, start).last().vertices.len();
    &&& outlines.len() > 0
    &&& failure == exhausted(
        "turtle polygon vertices"@,
        if count > usize::MAX {
            usize::MAX
        } else {
            count as usize
        },
    )
}

fn advance_by<C: Fn(Arithmetic) -> Real>(
    distance: Real,
    state: &mut TurtleState,
    draw: bool,
    calc: &C,
) -> (r: Result<VisitOutcome, VisualizeError>)
    requires
        calculates(*calc),
    ensures
        forall|outlines: Seq<Outline<Point2d>>|
            #![trigger advanced_2d(*old(state), outlines, distance, draw, false, answers(*calc))]
            match r {
                Ok(outcome) => advanced_2d(
                    *old(state),
                    outlines,
                    distance,
                    draw,
                    false,
                    answers(*calc),
                ) == Ok::<_, Failure>(
                    Effect { state: *final(state), outlines, emission: outcome@ },
                ),
                Err(error) => advanced_2d(
                    *old(state),
                    outlines,
                    distance,
                    draw,
                    false,
                    answers(*calc),
                ) == Err::<Effect<TurtleState, StyledLine2d, Point2d>, _>(error@),
            },
{
    let cosine: Real = calculate(calc, Arithmetic::Cosine(state.angle));
    let across: Real = calculate(calc, Arithmetic::Product(distance, cosine));
    let x: Real = calculate(calc, Arithmetic::Sum(state.position.0, across));
    let sine: Real = calculate(calc, Arithmetic::Sine(state.angle));
    let along: Real = calculate(calc, Arithmetic::Product(distance, sine));
    let y: Real = calculate(calc, Arithmetic::Sum(state.position.1, along));
    if !x.is_finite() || !y.is_finite() {
        return Err(invalid("turtle_2d produced a non-finite coordinate"));
    }
    let outcome: VisitOutcome = if draw {
        VisitOutcome::Line(
            StyledLine2d {
                line: Line2d(state.position, (x, y)),
                width: state.width,
                color: state.color,
            },
        )
    } else {
        VisitOutcome::Nothing
    };
    state.position = (x, y);
    Ok(outcome)
}

/// Append a point to the innermost polygon. Room for it may be refused.
fn push_vertex(polygon_stack: &mut Vec<Polygon2d>, point: Point2d) -> (r: bool)
    requires
        old(polygon_stack)@.len() > 0,
    ensures
        r ==> outlines_2d(final(polygon_stack)@) == outlines_2d(old(polygon_stack)@).update(
            old(polygon_stack)@.len() - 1,
            Outline {
                vertices: outlines_2d(old(polygon_stack)@).last().vertices.push(point),
                color: outlines_2d(old(polygon_stack)@).last().color,
            },
        ),
        final(polygon_stack)@.len() == old(polygon_stack)@.len(),
{
    let ghost before = polygon_stack@;
    let last: usize = polygon_stack.len() - 1;
    if polygon_stack[last].vertices.try_reserve(1).is_err() {
        return false;
    }
    polygon_stack[last].vertices.push(point);
    assert(outlines_2d(polygon_stack@) =~= outlines_2d(before).update(
        before.len() - 1,
        Outline {
            vertices: outlines_2d(before).last().vertices.push(point),
            color: outlines_2d(before).last().color,
        },
    ));
    true
}

/// Trace an edge on the innermost polygon. Room for it may be refused.
fn capture_polygon_edge(polygon_stack: &mut Vec<Polygon2d>, start: Point2d, end: Point2d) -> (r:
    Result<(), VisualizeError>)
    ensures
        match r {
            Ok(()) => outlines_2d(final(polygon_stack)@) == traced_2d(
                outlines_2d(old(polygon_stack)@),
                start,
                end,
            ),
            Err(error) => edge_refused_2d(
                outlines_2d(old(polygon_stack)@),
                start,
                error@,
            ),
        },
{
    let ghost before = polygon_stack@;
    if polygon_stack.len() == 0 {
        return Ok(());
    }
    let last: usize = polygon_stack.len() - 1;
    let count: usize = polygon_stack[last].vertices.len();
    let include_start: bool = if count == 0 {
        true
    } else {
        let vertex: Point2d = polygon_stack[last].vertices[count - 1];
        !(vertex.0.equals(start.0) && vertex.1.equals(start.1))
    };
    let additional: usize = if include_start {
        2
    } else {
        1
    };
    let requested: usize = match count.checked_add(additional) {
        Some(requested) => requested,
        None => {
            return Err(resource_error("turtle polygon vertices", usize::MAX));
        },
    };
    if polygon_stack[last].vertices.try_reserve(additional).is_err() {
        return Err(resource_error("turtle polygon vertices", requested));
    }
    if include_start {
        polygon_stack[last].vertices.push(start);
    }
    polygon_stack[last].vertices.push(end);
    assert(outlines_2d(polygon_stack@) =~= traced_2d(outlines_2d(before), start, end));
    Ok(())
}

fn advance_with_polygon_capture<C: Fn(Arithmetic) -> Real>(
    distance: Real,
    state: &mut TurtleState,
    draw: bool,
    traces: bool,
    polygon_stack: &mut Vec<Polygon2d>,
    calc: &C,
) -> (r: Result<VisitOutcome, VisualizeError>)
    requires
        calculates(*calc),
    ensures
        match r {
            Ok(outcome) => advanced_2d(
                *old(state),
                outlines_2d(old(polygon_stack)@),
                distance,
                draw,
                traces,
                answers(*calc),
            ) == Ok::<_, Failure>(
                Effect {
                    state: *final(state),
                    outlines: outlines_2d(final(polygon_stack)@),
                    emission: outcome@,
                },
            ),
            Err(error) => {
                ||| advanced_2d(
                    *old(state),
                    outlines_2d(old(polygon_stack)@),
                    distance,
                    draw,
                    traces,
                    answers(*calc),
                ) == Err::<Effect<TurtleState, StyledLine2d, Point2d>, _>(error@)
                ||| traces && edge_refused_2d(outlines_2d(old(polygon_stack)@), old(state).position, error@)
            },
        },
{
    let ghost outlines = outlines_2d(polygon_stack@);
    let start: Point2d = state.position;
    let ghost plain = advanced_2d(*state, outlines, distance, draw, false, answers(*calc));
    let outcome: VisitOutcome = match advance_by(distance, state, draw, calc) {
        Ok(outcome) => outcome,
        Err(error) => {
            return Err(error);
        },
    };
    if traces {
        match capture_polygon_edge(polygon_stack, start, state.position) {
            Ok(()) => {},
            Err(error) => {
                return Err(error);
            },
        }
    }
    Ok(outcome)
}

fn adjust_state<C: Fn(Arithmetic) -> Real>(op: TurtleOp, state: &mut TurtleState, calc: &C)
    requires
        calculates(*calc),
    ensures
        *final(state) == adjusted_2d(op, *old(state), answers(*calc)),
{
    match op {
        TurtleOp::Turn(delta) => {
            let turn: Real = if state.invert_turns {
                delta.negated()
            } else {
                delta
            };
            state.angle = calculate(calc, Arithmetic::Sum(state.angle, turn));
        },
        TurtleOp::TurnDefault(direction) => {
            let delta: Real = calculate(calc, Arithmetic::Product(state.turn_angle, direction));
            let turn: Real = if state.invert_turns {
                delta.negated()
            } else {
                delta
            };
            state.angle = calculate(calc, Arithmetic::Sum(state.angle, turn));
        },
        TurtleOp::TurnAround => {
            state.angle = calculate(calc, Arithmetic::Sum(state.angle, Real { bits: PI_BITS }));
        },
        TurtleOp::InvertTurns => {
            state.invert_turns = !state.invert_turns;
        },
        TurtleOp::Scale(scale) => {
            state.step_scale = calculate(calc, Arithmetic::Product(state.step_scale, scale));
        },
        TurtleOp::WidthSet(width) => {
            state.width = width;
        },
        TurtleOp::WidthDelta(delta) => {
            let width: Real = calculate(calc, Arithmetic::Sum(state.width, delta));
            state.width = width.max(Real { bits: 0 });
        },
        TurtleOp::TurnAngleDelta(delta) => {
            state.turn_angle = calculate(calc, Arithmetic::Sum(state.turn_angle, delta));
        },
        _ => {},
    }
}

/// The room for polygons that a command asks for: what for, and how much of it.
pub open spec fn captured_2d(
    op: TurtleOp,
    traces: bool,
    state: TurtleState,
    outlines: Seq<Outline<Point2d>>,
) -> Option<(Seq<char>, int)> {
    let vertices = "turtle polygon vertices"@;
    let edge = if traces && outlines.len() > 0 {
        Some((vertices, traced_2d(outlines, state.position, state.position).last().vertices.len() as int))
    } else {
        None
    };
    match op {
        TurtleOp::Draw(_) => edge,
        TurtleOp::Move(_) => edge,
        TurtleOp::PolygonBegin => Some(("turtle polygon stack"@, (outlines.len() + 1) as int)),
        TurtleOp::Vertex => if outlines.len() > 0 {
            Some((vertices, (outlines.last().vertices.len() + 1) as int))
        } else {
            None
        },
        _ => None,
    }
}

/// Room that a command asked for was refused.
pub open spec fn capture_refused_2d(
    op: TurtleOp,
    traces: bool,
    state: TurtleState,
    outlines: Seq<Outline<Point2d>>,
    failure: Failure,
) -> bool {
    captured_2d(op, traces, state, outlines) matches Some((resource, count)) && failure
        == exhausted(resource, if count > usize::MAX { usize::MAX } else { count as usize })
}

/// Room that a visit asked for was refused.
pub open spec fn visit_refused_2d(
    module: Module,
    config: Turtle2dConfig,
    state: TurtleState,
    outlines: Seq<Outline<Point2d>>,
    ev: spec_fn(Arithmetic) -> Real,
    failure: Failure,
) -> bool {
    &&& action_2d(config, module.name@) is Ok
    &&& command_of(module, config, ev) is Ok
    &&& capture_refused_2d(
        command_of(module, config, ev)->Ok_0,
        traces_edges(action_2d(config, module.name@)->Ok_0),
        state,
        outlines,
        failure,
    )
}

fn perform<C: Fn(Arithmetic) -> Real>(
    op: TurtleOp,
    traces: bool,
    config: &Turtle2dConfig,
    state: &mut TurtleState,
    polygon_stack: &mut Vec<Polygon2d>,
    calc: &C,
) -> (r: Result<VisitOutcome, VisualizeError>)
    requires
        calculates(*calc),
    ensures
        match r {
            Ok(outcome) => performed_2d(
                op,
                traces,
                *config,
                *old(state),
                outlines_2d(old(polygon_stack)@),
                answers(*calc),
            ) == Ok::<_, Failure>(
                Effect {
                    state: *final(state),
                    outlines: outlines_2d(final(polygon_stack)@),
                    emission: outcome@,
                },
            ),
            Err(error) => {
                ||| performed_2d(
                    op,
                    traces,
                    *config,
                    *old(state),
                    outlines_2d(old(polygon_stack)@),
                    answers(*calc),
                ) == Err::<Effect<TurtleState, StyledLine2d, Point2d>, _>(error@)
                ||| capture_refused_2d(
                    op,
                    traces,
                    *old(state),
                    outlines_2d(old(polygon_stack)@),
                    error@,
                )
            },
        },
{
    let ghost before = polygon_stack@;
    match op {
        TurtleOp::Draw(distance) => {
            let scaled: Real = calculate(calc, Arithmetic::Product(distance, state.step_scale));
            return advance_with_polygon_capture(scaled, state, true, traces, polygon_stack, calc);
        },
        TurtleOp::Move(distance) => {
            let scaled: Real = calculate(calc, Arithmetic::Product(distance, state.step_scale));
            return advance_with_polygon_capture(scaled, state, false, traces, polygon_stack, calc);
        },
        TurtleOp::HalfMove(distance) => {
            let scaled: Real = calculate(calc, Arithmetic::Product(distance, state.step_scale));
            let half: Real = calculate(
                calc,
                Arithmetic::Product(scaled, Real { bits: HALF_BITS }),
            );
            let ghost plain = advanced_2d(
                *state,
                outlines_2d(before),
                half,
                false,
                false,
                answers(*calc),
            );
            return advance_by(half, state, false, calc);
        },
        TurtleOp::ColorSet(index) => {
            state.color_index = Some(index);
            state.color = palette_color(index, config.palette.as_slice());
        },
        TurtleOp::ColorDelta(delta) => {
            let current: i32 = match state.color_index {
                Some(index) => index,
                None => 0,
            };
            match current.checked_add(delta) {
                Some(index) => {
                    state.color_index = Some(index);
                    state.color = palette_color(index, config.palette.as_slice());
                },
                None => {
                    return Err(invalid("turtle color index overflow"));
                },
            }
        },
        TurtleOp::Dot(diameter) => {
            if !diameter.is_finite() || diameter.is_negative() {
                return Err(invalid("turtle dot diameter must be finite and non-negative"));
            }
            return Ok(
                VisitOutcome::Line(
                    StyledLine2d {
                        line: Line2d(state.position, state.position),
                        width: calculate(calc, Arithmetic::Product(state.width, diameter)),
                        color: state.color,
                    },
                ),
            );
        },
        TurtleOp::PolygonBegin => {
            if polygon_stack.try_reserve(1).is_err() {
                let requested: usize = polygon_stack.len().saturating_add(1);
                return Err(resource_error("turtle polygon stack", requested));
            }
            polygon_stack.push(Polygon2d { vertices: Vec::new(), color: state.color });
            assert(outlines_2d(polygon_stack@) =~= outlines_2d(before).push(
                Outline { vertices: Seq::empty(), color: state.color },
            ));
        },
        TurtleOp::Vertex => {
            if polygon_stack.len() == 0 {
                return Err(invalid("Vertex requires an active PolygonBegin"));
            }
            let last: usize = polygon_stack.len() - 1;
            let count: usize = polygon_stack[last].vertices.len();
            if !push_vertex(polygon_stack, state.position) {
                return Err(resource_error("turtle polygon vertices", count.saturating_add(1)));
            }
        },
        TurtleOp::PolygonEnd => {
            match polygon_stack.pop() {
                None => {
                    return Err(invalid("PolygonEnd requires an active PolygonBegin"));
                },
                Some(polygon) => {
                    assert(outlines_2d(polygon_stack@) =~= outlines_2d(before).drop_last());
                    assert(outline_2d(polygon) == outlines_2d(before).last());
                    if polygon.vertices.len() >= 3 {
                        return Ok(VisitOutcome::Polygon(polygon));
                    }
                },
            }
        },
        TurtleOp::Cut => {
            return Ok(VisitOutcome::Cut);
        },
        _ => {
            adjust_state(op, state, calc);
        },
    }
    if !state.is_finite() {
        return Err(invalid("turtle_2d produced non-finite state"));
    }
    Ok(VisitOutcome::Nothing)
}

/// Visit one module: change the state, and hand out what it draws.
pub fn visit_module<C: Fn(Arithmetic) -> Real>(
    module: &Module,
    config: &Turtle2dConfig,
    state: &mut TurtleState,
    polygon_stack: &mut Vec<Polygon2d>,
    calc: &C,
) -> (r: Result<VisitOutcome, VisualizeError>)
    requires
        calculates(*calc),
    ensures
        match r {
            Ok(outcome) => visited_2d(
                *module,
                *config,
                *old(state),
                outlines_2d(old(polygon_stack)@),
                answers(*calc),
            ) == Ok::<_, Failure>(
                Effect {
                    state: *final(state),
                    outlines: outlines_2d(final(polygon_stack)@),
                    emission: outcome@,
                },
            ),
            Err(error) => {
                ||| visited_2d(
                    *module,
                    *config,
                    *old(state),
                    outlines_2d(old(polygon_stack)@),
                    answers(*calc),
                ) == Err::<Effect<TurtleState, StyledLine2d, Point2d>, _>(error@)
                ||| visit_refused_2d(
                    *module,
                    *config,
                    *old(state),
                    outlines_2d(old(polygon_stack)@),
                    answers(*calc),
                    error@,
                )
            },
        },
{
    let traces: bool = match resolve_action(module.name.as_str(), config) {
        Ok(name) => same_text(name, "F") || same_text(name, "f"),
        Err(error) => {
            return Err(error);
        },
    };
    let op: TurtleOp = match classify_module(module, config, calc) {
        Ok(op) => op,
        Err(error) => {
            return Err(error);
        },
    };
    perform(op, traces, config, state, polygon_stack, calc)
}

} // verus!
