//! The three-dimensional turtle: commands, state, and geometry.

use vstd::prelude::*;
use vstd::string::*;

use crate::action::{contains_name, follow_aliases, lists, resolved};
use crate::config::{palette_choice, palette_color, Turtle2dConfig};
use crate::error::{exhausted, invalid, resource_error, Failure, VisualizeError};
use crate::generation::Module;
use crate::geometry::{Line3d, Point3d, Polygon3d, StrokeColor, StyledLine3d};
use crate::number::{answers, calculate, calculates, Arithmetic, Real, HALF_BITS, ONE_BITS, PI_BITS};
use crate::text::same_text;
use crate::turtle_2d::{
    color_step, distance_of, first_index, integer_of, module_degrees, module_distance,
    module_integer, module_number_or, number_or, opposite_i32, radians_of, traces_edges, turns_left,
    turns_right, wrapped_opposite,
};
use crate::walk::{Effect, Emission, Outline};

verus! {

/// The pattern of the length below which a vector has no direction.
pub const SHORTEST_BITS: u64 = 0x3d71_9799_812d_ea11;

/// A vector of turtle space.
#[derive(Debug, Clone, Copy, PartialEq, Eq, Structural)]
pub struct Vec3 {
    pub x: Real,
    pub y: Real,
    pub z: Real,
}

impl Vec3 {
    /// The vertical direction.
    pub open spec fn vertical() -> Vec3 {
        Vec3 { x: Real { bits: 0 }, y: Real { bits: 0 }, z: Real { bits: ONE_BITS } }
    }

    pub open spec fn plus(self, other: Vec3, ev: spec_fn(Arithmetic) -> Real) -> Vec3 {
        Vec3 {
            x: ev(Arithmetic::Sum(self.x, other.x)),
            y: ev(Arithmetic::Sum(self.y, other.y)),
            z: ev(Arithmetic::Sum(self.z, other.z)),
        }
    }

    pub open spec fn times(self, scale: Real, ev: spec_fn(Arithmetic) -> Real) -> Vec3 {
        Vec3 {
            x: ev(Arithmetic::Product(self.x, scale)),
            y: ev(Arithmetic::Product(self.y, scale)),
            z: ev(Arithmetic::Product(self.z, scale)),
        }
    }

    /// `a * b - c * d`.
    pub open spec fn minor(
        a: Real,
        b: Real,
        c: Real,
        d: Real,
        ev: spec_fn(Arithmetic) -> Real,
    ) -> Real {
        ev(Arithmetic::Difference(ev(Arithmetic::Product(a, b)), ev(Arithmetic::Product(c, d))))
    }

    pub open spec fn crossed(self, other: Vec3, ev: spec_fn(Arithmetic) -> Real) -> Vec3 {
        Vec3 {
            x: Vec3::minor(self.y, other.z, self.z, other.y, ev),
            y: Vec3::minor(self.z, other.x, self.x, other.z, ev),
            z: Vec3::minor(self.x, other.y, self.y, other.x, ev),
        }
    }

    pub open spec fn size(self, ev: spec_fn(Arithmetic) -> Real) -> Real {
        ev(
            Arithmetic::SquareRoot(
                ev(
                    Arithmetic::Sum(
                        ev(
                            Arithmetic::Sum(
                                ev(Arithmetic::Product(self.x, self.x)),
                                ev(Arithmetic::Product(self.y, self.y)),
                            ),
                        ),
                        ev(Arithmetic::Product(self.z, self.z)),
                    ),
                ),
            ),
        )
    }

    /// The vector of length one in the same direction, if it has one.
    pub open spec fn direction(self, ev: spec_fn(Arithmetic) -> Real) -> Option<Vec3> {
        let length = self.size(ev);
        if length.finite() && (Real { bits: SHORTEST_BITS }).below(length) {
            Some(self.times(ev(Arithmetic::Reciprocal(length)), ev))
        } else {
            None
        }
    }

    pub open spec fn finite(self) -> bool {
        self.x.finite() && self.y.finite() && self.z.finite()
    }

    pub open spec fn as_point(self) -> Point3d {
        (self.x, self.y, self.z)
    }

    fn add<C: Fn(Arithmetic) -> Real>(self, other: Vec3, calc: &C) -> (r: Vec3)
        requires
            calculates(*calc),
        ensures
            r == self.plus(other, answers(*calc)),
    {
        Vec3 {
            x: calculate(calc, Arithmetic::Sum(self.x, other.x)),
            y: calculate(calc, Arithmetic::Sum(self.y, other.y)),
            z: calculate(calc, Arithmetic::Sum(self.z, other.z)),
        }
    }

    fn scale<C: Fn(Arithmetic) -> Real>(self, scale: Real, calc: &C) -> (r: Vec3)
        requires
            calculates(*calc),
        ensures
            r == self.times(scale, answers(*calc)),
    {
        Vec3 {
            x: calculate(calc, Arithmetic::Product(self.x, scale)),
            y: calculate(calc, Arithmetic::Product(self.y, scale)),
            z: calculate(calc, Arithmetic::Product(self.z, scale)),
        }
    }

    fn difference_of_products<C: Fn(Arithmetic) -> Real>(
        a: Real,
        b: Real,
        c: Real,
        d: Real,
        calc: &C,
    ) -> (r: Real)
        requires
            calculates(*calc),
        ensures
            r == Vec3::minor(a, b, c, d, answers(*calc)),
    {
        let first: Real = calculate(calc, Arithmetic::Product(a, b));
        let second: Real = calculate(calc, Arithmetic::Product(c, d));
        calculate(calc, Arithmetic::Difference(first, second))
    }

    fn cross<C: Fn(Arithmetic) -> Real>(self, other: Vec3, calc: &C) -> (r: Vec3)
        requires
            calculates(*calc),
        ensures
            r == self.crossed(other, answers(*calc)),
    {
        Vec3 {
            x: Vec3::difference_of_products(self.y, other.z, self.z, other.y, calc),
            y: Vec3::difference_of_products(self.z, other.x, self.x, other.z, calc),
            z: Vec3::difference_of_products(self.x, other.y, self.y, other.x, calc),
        }
    }

    fn normalized<C: Fn(Arithmetic) -> Real>(self, calc: &C) -> (r: Option<Vec3>)
        requires
            calculates(*calc),
        ensures
            r == self.direction(answers(*calc)),
    {
        let xx: Real = calculate(calc, Arithmetic::Product(self.x, self.x));
        let yy: Real = calculate(calc, Arithmetic::Product(self.y, self.y));
        let xy: Real = calculate(calc, Arithmetic::Sum(xx, yy));
        let zz: Real = calculate(calc, Arithmetic::Product(self.z, self.z));
        let squared: Real = calculate(calc, Arithmetic::Sum(xy, zz));
        let length: Real = calculate(calc, Arithmetic::SquareRoot(squared));
        if length.is_finite() && (Real { bits: SHORTEST_BITS }).less_than(length) {
            Some(self.scale(calculate(calc, Arithmetic::Reciprocal(length)), calc))
        } else {
            None
        }
    }

    fn is_finite(self) -> (r: bool)
        ensures
            r == self.finite(),
    {
        self.x.is_finite() && self.y.is_finite() && self.z.is_finite()
    }

    fn point(self) -> (r: Point3d)
        ensures
            r == self.as_point(),
    {
        (self.x, self.y, self.z)
    }
}

/// The state of a three-dimensional turtle.
#[derive(Debug, Clone, Copy)]
pub struct SpatialState {
    pub position: Vec3,
    pub heading: Vec3,
    pub left: Vec3,
    pub up: Vec3,
    pub step_scale: Real,
    pub width: Real,
    pub turn_angle: Real,
    pub invert_turns: bool,
    pub color: StrokeColor,
    pub color_index: Option<i32>,
}

impl SpatialState {
    /// The state in which a turtle begins: heading in the horizontal plane.
    pub open spec fn initial(
        config: Turtle2dConfig,
        ev: spec_fn(Arithmetic) -> Real,
    ) -> SpatialState {
        let zero = Real { bits: 0 };
        let cosine = ev(Arithmetic::Cosine(config.initial_angle));
        let sine = ev(Arithmetic::Sine(config.initial_angle));
        SpatialState {
            position: Vec3 { x: zero, y: zero, z: zero },
            heading: Vec3 { x: cosine, y: sine, z: zero },
            left: Vec3 { x: sine.opposite(), y: cosine, z: zero },
            up: Vec3::vertical(),
            step_scale: Real { bits: ONE_BITS },
            width: config.initial_width,
            turn_angle: config.turn_angle,
            invert_turns: false,
            color: config.initial_color,
            color_index: first_index(config.initial_color),
        }
    }

    pub fn new<C: Fn(Arithmetic) -> Real>(config: &Turtle2dConfig, calc: &C) -> (r: SpatialState)
        requires
            calculates(*calc),
        ensures
            r == SpatialState::initial(*config, answers(*calc)),
    {
        let zero: Real = Real { bits: 0 };
        let cosine: Real = calculate(calc, Arithmetic::Cosine(config.initial_angle));
        let sine: Real = calculate(calc, Arithmetic::Sine(config.initial_angle));
        SpatialState {
            position: Vec3 { x: zero, y: zero, z: zero },
            heading: Vec3 { x: cosine, y: sine, z: zero },
            left: Vec3 { x: sine.negated(), y: cosine, z: zero },
            up: Vec3 { x: zero, y: zero, z: Real { bits: ONE_BITS } },
            step_scale: Real { bits: ONE_BITS },
            width: config.initial_width,
            turn_angle: config.turn_angle,
            invert_turns: false,
            color: config.initial_color,
            color_index: match config.initial_color {
                StrokeColor::PaletteIndex(index) => Some(index as i32),
                _ => None,
            },
        }
    }

    pub open spec fn finite(self) -> bool {
        self.position.finite() && self.heading.finite() && self.left.finite() && self.up.finite()
            && self.step_scale.finite() && self.width.finite() && self.turn_angle.finite()
    }

    fn is_finite(&self) -> (r: bool)
        ensures
            r == self.finite(),
    {
        self.position.is_finite() && self.heading.is_finite() && self.left.is_finite()
            && self.up.is_finite() && self.step_scale.is_finite() && self.width.is_finite()
            && self.turn_angle.is_finite()
    }
}

/// A command of the spatial vocabulary with its amount.
#[derive(Debug, Clone, Copy, PartialEq, Eq, Structural)]
pub enum SpatialOp {
    /// Advance by a distance that the step scale multiplies.
    Advance { distance: Real, half: bool, draw: bool },
    Yaw(Real),
    Pitch(Real),
    Roll(Real),
    InvertTurns,
    /// Make the left direction horizontal.
    Align,
    Scale(Real),
    WidthSet(Real),
    WidthIncrease,
    WidthDecrease,
    TurnAngleIncrease(Real),
    TurnAngleDecrease(Real),
    ColorSet(i32),
    ColorDelta(i32),
    Dot(Real),
    PolygonBegin,
    Vertex,
    PolygonEnd,
    Cut,
    Noop,
}

/// The message about aliases that go round.
pub open spec fn alias_cycle_3d() -> Failure {
    Failure::InvalidConfiguration("turtle_3d render-map alias cycle"@)
}

/// The action that a module name stands for.
pub open spec fn action_3d(config: Turtle2dConfig, name: Seq<char>) -> Result<Seq<char>, Failure> {
    match resolved(config.module_aliases@, name) {
        Some(action) => Ok(action),
        None => Err(alias_cycle_3d()),
    }
}

fn resolve_action<'a>(module_name: &'a str, config: &'a Turtle2dConfig) -> (r: Result<
    &'a str,
    VisualizeError,
>)
    ensures
        match r {
            Ok(action) => action_3d(*config, module_name@) == Ok::<_, Failure>(action@),
            Err(error) => action_3d(*config, module_name@) == Err::<Seq<char>, _>(error@),
        },
{
    match follow_aliases(&config.module_aliases, module_name) {
        Some(action) => Ok(action),
        None => Err(invalid("turtle_3d render-map alias cycle")),
    }
}

/// The angle of a turn: the argument or the current turn angle, times a sign.
pub open spec fn turn_3d(
    module: Module,
    state: SpatialState,
    direction: Real,
    ev: spec_fn(Arithmetic) -> Real,
) -> Real {
    let angle = match radians_of(module, ev) {
        Some(angle) => angle,
        None => state.turn_angle,
    };
    ev(Arithmetic::Product(angle, direction))
}

fn turn_amount<C: Fn(Arithmetic) -> Real>(
    module: &Module,
    state: &SpatialState,
    direction: Real,
    calc: &C,
) -> (r: Real)
    requires
        calculates(*calc),
    ensures
        r == turn_3d(*module, *state, direction, answers(*calc)),
{
    let angle: Real = match module_degrees(module, calc) {
        Some(angle) => angle,
        None => state.turn_angle,
    };
    calculate(calc, Arithmetic::Product(angle, direction))
}

/// The width that a command must be given.
pub open spec fn width_for(command: Seq<char>, module: Module) -> Result<Real, Failure> {
    match module.first_number() {
        Some(value) => if !value.finite() {
            Err(
                Failure::InvalidConfiguration(command + " requires a finite numeric argument"@),
            )
        } else if value.below(Real { bits: 0 }) {
            Err(Failure::InvalidConfiguration(command + " requires a non-negative argument"@))
        } else {
            Ok(value)
        },
        None => Err(
            Failure::InvalidConfiguration(command + " requires a finite numeric argument"@),
        ),
    }
}

fn complaint(command: &str, what: &str) -> (r: VisualizeError)
    ensures
        r@ == Failure::InvalidConfiguration(command@ + what@),
{
    let mut message: String = command.to_owned();
    message.append(what);
    VisualizeError::InvalidConfiguration(message)
}

fn required_non_negative(module: &Module, command: &str) -> (r: Result<Real, VisualizeError>)
    ensures
        match r {
            Ok(width) => width_for(command@, *module) == Ok::<_, Failure>(width),
            Err(error) => width_for(command@, *module) == Err::<Real, _>(error@),
        },
{
    match module.number() {
        Some(value) => if !value.is_finite() {
            Err(complaint(command, " requires a finite numeric argument"))
        } else if value.is_negative() {
            Err(complaint(command, " requires a non-negative argument"))
        } else {
            Ok(value)
        },
        None => Err(complaint(command, " requires a finite numeric argument")),
    }
}

/// The command of a turning action.
pub open spec fn turning_3d(
    name: Seq<char>,
    module: Module,
    state: SpatialState,
    ev: spec_fn(Arithmetic) -> Real,
) -> Option<SpatialOp> {
    let forward = Real { bits: ONE_BITS };
    let backward = forward.opposite();
    if turns_left(name) {
        Some(SpatialOp::Yaw(turn_3d(module, state, forward, ev)))
    } else if turns_right(name) {
        Some(SpatialOp::Yaw(turn_3d(module, state, backward, ev)))
    } else if name == "PitchUp"@ {
        Some(SpatialOp::Pitch(turn_3d(module, state, forward, ev)))
    } else if name == "PitchDown"@ {
        Some(SpatialOp::Pitch(turn_3d(module, state, backward, ev)))
    } else if name == "RollLeft"@ {
        Some(SpatialOp::Roll(turn_3d(module, state, forward, ev)))
    } else if name == "RollRight"@ {
        Some(SpatialOp::Roll(turn_3d(module, state, backward, ev)))
    } else if name == "TurnAround"@ || name == "Around"@ {
        Some(SpatialOp::Yaw(Real { bits: PI_BITS }))
    } else if name == "InvertTurns"@ {
        Some(SpatialOp::InvertTurns)
    } else if name == "Horizontal"@ || name == "Vertical"@ {
        Some(SpatialOp::Align)
    } else {
        None
    }
}

/// The command of an action on lengths, widths and turn angles.
pub open spec fn measure_3d(
    name: Seq<char>,
    module: Module,
    config: Turtle2dConfig,
    ev: spec_fn(Arithmetic) -> Real,
) -> Option<Result<SpatialOp, Failure>> {
    if name == "Scale"@ || name == "ScaleLength"@ {
        Some(Ok(SpatialOp::Scale(number_or(module, config.scale_multiplier))))
    } else if name == "ScaleLengthInverse"@ {
        Some(
            Ok(
                SpatialOp::Scale(
                    ev(Arithmetic::Reciprocal(number_or(module, config.scale_multiplier))),
                ),
            ),
        )
    } else if name == "Width"@ || name == "SetWidth"@ || ((name == "WidthIncrease"@ || name
        == "WidthDecrease"@) && module.arguments@.len() > 0) {
        Some(
            match width_for(name, module) {
                Ok(width) => Ok(SpatialOp::WidthSet(width)),
                Err(failure) => Err(failure),
            },
        )
    } else if name == "WidthIncrease"@ {
        Some(Ok(SpatialOp::WidthIncrease))
    } else if name == "WidthDecrease"@ {
        Some(Ok(SpatialOp::WidthDecrease))
    } else if name == "TurnAngleIncrease"@ || name == "TurnAngleDecrease"@ {
        let amount = match radians_of(module, ev) {
            Some(angle) => angle,
            None => config.turn_angle_increment,
        };
        Some(
            Ok(
                if name == "TurnAngleIncrease"@ {
                    SpatialOp::TurnAngleIncrease(amount)
                } else {
                    SpatialOp::TurnAngleDecrease(amount)
                },
            ),
        )
    } else {
        None
    }
}

/// The command of an action on colours, marks and polygons. Objects and
/// surfaces are marked by a point; other names draw nothing.
pub open spec fn mark_3d(
    name: Seq<char>,
    module: Module,
    config: Turtle2dConfig,
) -> Result<SpatialOp, Failure> {
    if name == "Color"@ {
        match integer_of(module) {
            Some(index) => Ok(SpatialOp::ColorSet(index as i32)),
            None => Err(
                Failure::InvalidConfiguration(name + " requires an integer argument"@),
            ),
        }
    } else if name == "ColorIncrement"@ || name == "ColorNext"@ {
        Ok(SpatialOp::ColorDelta(color_step(module, config) as i32))
    } else if name == "ColorPrevious"@ {
        Ok(SpatialOp::ColorDelta(wrapped_opposite(color_step(module, config)) as i32))
    } else if name == "Dot"@ || name == "Object"@ || name == "Surface"@ {
        Ok(SpatialOp::Dot(number_or(module, Real { bits: ONE_BITS })))
    } else if name == "PolygonBegin"@ {
        Ok(SpatialOp::PolygonBegin)
    } else if name == "Vertex"@ {
        Ok(SpatialOp::Vertex)
    } else if name == "PolygonEnd"@ {
        Ok(SpatialOp::PolygonEnd)
    } else if name == "Cut"@ {
        Ok(SpatialOp::Cut)
    } else {
        Ok(SpatialOp::Noop)
    }
}

/// The command that an action stands for. Half steps come first, then the
/// configured drawing and moving modules, then the fixed vocabulary.
pub open spec fn command_3d(
    name: Seq<char>,
    module: Module,
    config: Turtle2dConfig,
    state: SpatialState,
    ev: spec_fn(Arithmetic) -> Real,
) -> Result<SpatialOp, Failure> {
    let distance = distance_of(module, config);
    if name == "HalfForward"@ {
        Ok(SpatialOp::Advance { distance, half: true, draw: true })
    } else if name == "HalfMove"@ {
        Ok(SpatialOp::Advance { distance, half: true, draw: false })
    } else if lists(config.draw_modules@, name) {
        Ok(SpatialOp::Advance { distance, half: false, draw: true })
    } else if lists(config.move_modules@, name) {
        Ok(SpatialOp::Advance { distance, half: false, draw: false })
    } else {
        match turning_3d(name, module, state, ev) {
            Some(op) => Ok(op),
            None => match measure_3d(name, module, config, ev) {
                Some(result) => result,
                None => mark_3d(name, module, config),
            },
        }
    }
}

fn classify_turning<C: Fn(Arithmetic) -> Real>(
    name: &str,
    module: &Module,
    state: &SpatialState,
    calc: &C,
) -> (r: Option<SpatialOp>)
    requires
        calculates(*calc),
    ensures
        r == turning_3d(name@, *module, *state, answers(*calc)),
{
    let forward: Real = Real { bits: ONE_BITS };
    let backward: Real = forward.negated();
    if same_text(name, "+") || same_text(name, "Plus") || same_text(name, "ExplicitPlus")
        || same_text(name, "Left") || same_text(name, "Turn") {
        return Some(SpatialOp::Yaw(turn_amount(module, state, forward, calc)));
    }
    if same_text(name, "-") || same_text(name, "Minus") || same_text(name, "ExplicitMinus")
        || same_text(name, "Right") {
        return Some(SpatialOp::Yaw(turn_amount(module, state, backward, calc)));
    }
    if same_text(name, "PitchUp") {
        return Some(SpatialOp::Pitch(turn_amount(module, state, forward, calc)));
    }
    if same_text(name, "PitchDown") {
        return Some(SpatialOp::Pitch(turn_amount(module, state, backward, calc)));
    }
    if same_text(name, "RollLeft") {
        return Some(SpatialOp::Roll(turn_amount(module, state, forward, calc)));
    }
    if same_text(name, "RollRight") {
        return Some(SpatialOp::Roll(turn_amount(module, state, backward, calc)));
    }
    if same_text(name, "TurnAround") || same_text(name, "Around") {
        return Some(SpatialOp::Yaw(Real { bits: PI_BITS }));
    }
    if same_text(name, "InvertTurns") {
        return Some(SpatialOp::InvertTurns);
    }
    if same_text(name, "Horizontal") || same_text(name, "Vertical") {
        return Some(SpatialOp::Align);
    }
    None
}

fn classify_measure<C: Fn(Arithmetic) -> Real>(
    name: &str,
    module: &Module,
    config: &Turtle2dConfig,
    calc: &C,
) -> (r: Option<Result<SpatialOp, VisualizeError>>)
    requires
        calculates(*calc),
    ensures
        match r {
            None => measure_3d(name@, *module, *config, answers(*calc)) is None,
            Some(Ok(op)) => measure_3d(name@, *module, *config, answers(*calc)) == Some(
                Ok::<_, Failure>(op),
            ),
            Some(Err(error)) => measure_3d(name@, *module, *config, answers(*calc)) == Some(
                Err::<SpatialOp, _>(error@),
            ),
        },
{
    if same_text(name, "Scale") || same_text(name, "ScaleLength") {
        return Some(Ok(SpatialOp::Scale(module_number_or(module, config.scale_multiplier))));
    }
    if same_text(name, "ScaleLengthInverse") {
        let scale: Real = module_number_or(module, config.scale_multiplier);
        return Some(Ok(SpatialOp::Scale(calculate(calc, Arithmetic::Reciprocal(scale)))));
    }
    let increase: bool = same_text(name, "WidthIncrease");
    let decrease: bool = same_text(name, "WidthDecrease");
    if same_text(name, "Width") || same_text(name, "SetWidth") || ((increase || decrease)
        && module.arguments.len() > 0) {
        return match required_non_negative(module, name) {
            Ok(width) => Some(Ok(SpatialOp::WidthSet(width))),
            Err(error) => Some(Err(error)),
        };
    }
    if increase {
        return Some(Ok(SpatialOp::WidthIncrease));
    }
    if decrease {
        return Some(Ok(SpatialOp::WidthDecrease));
    }
    let wider: bool = same_text(name, "TurnAngleIncrease");
    if wider || same_text(name, "TurnAngleDecrease") {
        let amount: Real = match module_degrees(module, calc) {
            Some(angle) => angle,
            None => config.turn_angle_increment,
        };
        return Some(
            Ok(
                if wider {
                    SpatialOp::TurnAngleIncrease(amount)
                } else {
                    SpatialOp::TurnAngleDecrease(amount)
                },
            ),
        );
    }
    None
}

fn classify_mark(name: &str, module: &Module, config: &Turtle2dConfig) -> (r: Result<
    SpatialOp,
    VisualizeError,
>)
    ensures
        match r {
            Ok(op) => mark_3d(name@, *module, *config) == Ok::<_, Failure>(op),
            Err(error) => mark_3d(name@, *module, *config) == Err::<SpatialOp, _>(error@),
        },
{
    if same_text(name, "Color") {
        return match module_integer(module) {
            Some(index) => Ok(SpatialOp::ColorSet(index)),
            None => Err(complaint(name, " requires an integer argument")),
        };
    }
    let previous: bool = same_text(name, "ColorPrevious");
    if same_text(name, "ColorIncrement") || same_text(name, "ColorNext") || previous {
        let delta: i32 = match module_integer(module) {
            Some(delta) => delta,
            None => config.color_increment,
        };
        proof {
            reveal_strlit("ColorPrevious");
            reveal_strlit("ColorIncrement");
            reveal_strlit("ColorNext");
            assert("ColorPrevious"@.len() == 13);
            assert("ColorIncrement"@.len() == 14);
            assert("ColorNext"@.len() == 9);
        }
        return Ok(
            SpatialOp::ColorDelta(
                if previous {
                    opposite_i32(delta)
                } else {
                    delta
                },
            ),
        );
    }
    if same_text(name, "Dot") || same_text(name, "Object") || same_text(name, "Surface") {
        return Ok(SpatialOp::Dot(module_number_or(module, Real { bits: ONE_BITS })));
    }
    if same_text(name, "PolygonBegin") {
        return Ok(SpatialOp::PolygonBegin);
    }
    if same_text(name, "Vertex") {
        return Ok(SpatialOp::Vertex);
    }
    if same_text(name, "PolygonEnd") {
        return Ok(SpatialOp::PolygonEnd);
    }
    if same_text(name, "Cut") {
        return Ok(SpatialOp::Cut);
    }
    Ok(SpatialOp::Noop)
}

fn classify<C: Fn(Arithmetic) -> Real>(
    name: &str,
    module: &Module,
    config: &Turtle2dConfig,
    state: &SpatialState,
    calc: &C,
) -> (r: Result<SpatialOp, VisualizeError>)
    requires
        calculates(*calc),
    ensures
        match r {
            Ok(op) => command_3d(name@, *module, *config, *state, answers(*calc)) == Ok::<
                _,
                Failure,
            >(op),
            Err(error) => command_3d(name@, *module, *config, *state, answers(*calc)) == Err::<
                SpatialOp,
                _,
            >(error@),
        },
{
    let distance: Real = module_distance(module, config);
    if same_text(name, "HalfForward") {
        return Ok(SpatialOp::Advance { distance, half: true, draw: true });
    }
    if same_text(name, "HalfMove") {
        return Ok(SpatialOp::Advance { distance, half: true, draw: false });
    }
    if contains_name(&config.draw_modules, name) {
        return Ok(SpatialOp::Advance { distance, half: false, draw: true });
    }
    if contains_name(&config.move_modules, name) {
        return Ok(SpatialOp::Advance { distance, half: false, draw: false });
    }
    match classify_turning(name, module, state, calc) {
        Some(op) => {
            return Ok(op);
        },
        None => {},
    }
    match classify_measure(name, module, config, calc) {
        Some(result) => result,
        None => classify_mark(name, module, config),
    }
}

/// Two points have equal coordinates.
pub open spec fn same_point_3d(a: Point3d, b: Point3d) -> bool {
    a.0.same(b.0) && a.1.same(b.1) && a.2.same(b.2)
}

/// The polygons with an edge traced on the innermost one.
pub open spec fn traced_3d(
    outlines: Seq<Outline<Point3d>>,
    start: Point3d,
    end: Point3d,
) -> Seq<Outline<Point3d>> {
    if outlines.len() == 0 {
        outlines
    } else {
        let last = outlines.last();
        let begun = if last.vertices.len() > 0 && same_point_3d(last.vertices.last(), start) {
            last.vertices
        } else {
            last.vertices.push(start)
        };
        outlines.update(
            outlines.len() - 1,
            Outline { vertices: begun.push(end), color: last.color },
        )
    }
}

pub type Effect3d = Effect<SpatialState, StyledLine3d, Point3d>;

/// The effect of an advance.
pub open spec fn advanced_3d(
    state: SpatialState,
    outlines: Seq<Outline<Point3d>>,
    distance: Real,
    draw: bool,
    traces: bool,
    ev: spec_fn(Arithmetic) -> Real,
) -> Result<Effect3d, Failure> {
    let next = state.position.plus(state.heading.times(distance, ev), ev);
    if !next.finite() {
        Err(Failure::InvalidConfiguration("turtle_3d produced a non-finite coordinate"@))
    } else {
        Ok(
            Effect {
                state: SpatialState { position: next, ..state },
                outlines: if traces {
                    traced_3d(outlines, state.position.as_point(), next.as_point())
                } else {
                    outlines
                },
                emission: if draw {
                    Emission::Line(
                        StyledLine3d {
                            line: Line3d(state.position.as_point(), next.as_point()),
                            width: state.width,
                            color: state.color,
                        },
                    )
                } else {
                    Emission::Nothing
                },
            },
        )
    }
}

/// A turn with the sign that inverted turns give it.
pub open spec fn signed_turn(state: SpatialState, angle: Real) -> Real {
    if state.invert_turns {
        angle.opposite()
    } else {
        angle
    }
}

/// A direction turned towards another one: `a * cos + b * sin`.
pub open spec fn turned_towards(
    a: Vec3,
    b: Vec3,
    angle: Real,
    ev: spec_fn(Arithmetic) -> Real,
) -> Vec3 {
    a.times(ev(Arithmetic::Cosine(angle)), ev).plus(
        b.times(ev(Arithmetic::Sine(angle)), ev),
        ev,
    )
}

/// A direction turned away from another one: `b * cos + a * -sin`.
pub open spec fn turned_away(
    a: Vec3,
    b: Vec3,
    angle: Real,
    ev: spec_fn(Arithmetic) -> Real,
) -> Vec3 {
    b.times(ev(Arithmetic::Cosine(angle)), ev).plus(
        a.times(ev(Arithmetic::Sine(angle)).opposite(), ev),
        ev,
    )
}

/// The state with a horizontal left direction, where there is one.
pub open spec fn aligned_3d(
    state: SpatialState,
    ev: spec_fn(Arithmetic) -> Real,
) -> SpatialState {
    match Vec3::vertical().crossed(state.heading, ev).direction(ev) {
        None => state,
        Some(left) => match state.heading.crossed(left, ev).direction(ev) {
            None => SpatialState { left, ..state },
            Some(up) => SpatialState { left, up, ..state },
        },
    }
}

/// The state after a command on the state alone.
pub open spec fn adjusted_3d(
    op: SpatialOp,
    config: Turtle2dConfig,
    state: SpatialState,
    ev: spec_fn(Arithmetic) -> Real,
) -> SpatialState {
    match op {
        SpatialOp::Yaw(angle) => {
            let a = signed_turn(state, angle);
            SpatialState {
                heading: turned_towards(state.heading, state.left, a, ev),
                left: turned_away(state.heading, state.left, a, ev),
                ..state
            }
        },
        SpatialOp::Pitch(angle) => {
            let a = signed_turn(state, angle);
            SpatialState {
                heading: turned_towards(state.heading, state.up, a, ev),
                up: turned_away(state.heading, state.up, a, ev),
                ..state
            }
        },
        SpatialOp::Roll(angle) => {
            let a = signed_turn(state, angle);
            SpatialState {
                left: turned_towards(state.left, state.up, a, ev),
                up: turned_away(state.left, state.up, a, ev),
                ..state
            }
        },
        SpatialOp::InvertTurns => SpatialState { invert_turns: !state.invert_turns, ..state },
        SpatialOp::Align => aligned_3d(state, ev),
        SpatialOp::Scale(scale) => SpatialState {
            step_scale: ev(Arithmetic::Product(state.step_scale, scale)),
            ..state
        },
        SpatialOp::WidthSet(width) => SpatialState { width, ..state },
        SpatialOp::WidthIncrease => SpatialState {
            width: ev(Arithmetic::Sum(state.width, config.width_increment)),
            ..state
        },
        SpatialOp::WidthDecrease => SpatialState {
            width: ev(Arithmetic::Difference(state.width, config.width_increment)).upper(
                Real { bits: 0 },
            ),
            ..state
        },
        SpatialOp::TurnAngleIncrease(amount) => SpatialState {
            turn_angle: ev(Arithmetic::Sum(state.turn_angle, amount)),
            ..state
        },
        SpatialOp::TurnAngleDecrease(amount) => SpatialState {
            turn_angle: ev(Arithmetic::Difference(state.turn_angle, amount)),
            ..state
        },
        _ => state,
    }
}

/// The state after a colour has been chosen.
pub open spec fn colored_3d(
    state: SpatialState,
    index: int,
    config: Turtle2dConfig,
) -> SpatialState {
    SpatialState {
        color_index: Some(index as i32),
        color: palette_choice(index, config.palette@),
        ..state
    }
}

/// The index that a relative colour command leads to.
pub open spec fn color_target_3d(state: SpatialState, delta: int) -> int {
    match state.color_index {
        Some(index) => index + delta,
        None => delta,
    }
}

/// An effect without geometry; the state must stay finite.
pub open spec fn quiet_3d(
    state: SpatialState,
    outlines: Seq<Outline<Point3d>>,
) -> Result<Effect3d, Failure> {
    if state.finite() {
        Ok(Effect { state, outlines, emission: Emission::Nothing })
    } else {
        Err(Failure::InvalidConfiguration("turtle_3d produced non-finite state"@))
    }
}

/// The effect of a point marker.
pub open spec fn dotted_3d(
    state: SpatialState,
    outlines: Seq<Outline<Point3d>>,
    diameter: Real,
    ev: spec_fn(Arithmetic) -> Real,
) -> Result<Effect3d, Failure> {
    let width = ev(Arithmetic::Product(state.width, diameter));
    if !diameter.finite() || diameter.below(Real { bits: 0 }) {
        Err(
            Failure::InvalidConfiguration(
                "turtle_3d point diameter must be finite and non-negative"@,
            ),
        )
    } else if !width.finite() {
        Err(Failure::InvalidConfiguration("turtle_3d produced a non-finite point width"@))
    } else {
        Ok(
            Effect {
                state,
                outlines,
                emission: Emission::Line(
                    StyledLine3d {
                        line: Line3d(state.position.as_point(), state.position.as_point()),
                        width,
                        color: state.color,
                    },
                ),
            },
        )
    }
}

/// The distance of an advance: scaled, and halved for half steps.
pub open spec fn stride_3d(
    state: SpatialState,
    distance: Real,
    half: bool,
    ev: spec_fn(Arithmetic) -> Real,
) -> Real {
    let scaled = ev(Arithmetic::Product(distance, state.step_scale));
    if half {
        ev(Arithmetic::Product(scaled, Real { bits: HALF_BITS }))
    } else {
        scaled
    }
}

/// The effect of a command.
pub open spec fn performed_3d(
    op: SpatialOp,
    traces: bool,
    config: Turtle2dConfig,
    state: SpatialState,
    outlines: Seq<Outline<Point3d>>,
    ev: spec_fn(Arithmetic) -> Real,
) -> Result<Effect3d, Failure> {
    match op {
        SpatialOp::Advance { distance, half, draw } => advanced_3d(
            state,
            outlines,
            stride_3d(state, distance, half, ev),
            draw,
            traces && !half,
            ev,
        ),
        SpatialOp::ColorSet(index) => quiet_3d(colored_3d(state, index as int, config), outlines),
        SpatialOp::ColorDelta(delta) => {
            let index = color_target_3d(state, delta as int);
            if i32::MIN <= index <= i32::MAX {
                quiet_3d(colored_3d(state, index, config), outlines)
            } else {
                Err(Failure::InvalidConfiguration("turtle_3d color index overflow"@))
            }
        },
        SpatialOp::Dot(diameter) => dotted_3d(state, outlines, diameter, ev),
        SpatialOp::PolygonBegin => quiet_3d(
            state,
            outlines.push(Outline { vertices: Seq::empty(), color: state.color }),
        ),
        SpatialOp::Vertex => if outlines.len() == 0 {
            Err(Failure::InvalidConfiguration("Vertex requires an active PolygonBegin"@))
        } else {
            quiet_3d(
                state,
                outlines.update(
                    outlines.len() - 1,
                    Outline {
                        vertices: outlines.last().vertices.push(state.position.as_point()),
                        color: outlines.last().color,
                    },
                ),
            )
        },
        SpatialOp::PolygonEnd => if outlines.len() == 0 {
            Err(Failure::InvalidConfiguration("PolygonEnd requires an active PolygonBegin"@))
        } else if outlines.last().vertices.len() >= 3 {
            Ok(
                Effect {
                    state,
                    outlines: outlines.drop_last(),
                    emission: Emission::Polygon(outlines.last()),
                },
            )
        } else {
            quiet_3d(state, outlines.drop_last())
        },
        SpatialOp::Cut => Ok(Effect { state, outlines, emission: Emission::Cut }),
        _ => quiet_3d(adjusted_3d(op, config, state, ev), outlines),
    }
}

/// The effect of visiting a module.
pub open spec fn visited_3d(
    module: Module,
    config: Turtle2dConfig,
    state: SpatialState,
    outlines: Seq<Outline<Point3d>>,
    ev: spec_fn(Arithmetic) -> Real,
) -> Result<Effect3d, Failure> {
    match action_3d(config, module.name@) {
        Err(failure) => Err(failure),
        Ok(name) => match command_3d(name, module, config, state, ev) {
            Err(failure) => Err(failure),
            Ok(op) => performed_3d(op, traces_edges(name), config, state, outlines, ev),
        },
    }
}

/// What visiting a module hands out.
pub enum VisitOutcome3d {
    Line(StyledLine3d),
    Polygon(Polygon3d),
    Cut,
    Nothing,
}

/// A polygon as an outline.
pub open spec fn outline_3d(polygon: Polygon3d) -> Outline<Point3d> {
    Outline { vertices: polygon.vertices@, color: polygon.color }
}

/// Some polygons as outlines.
pub open spec fn outlines_3d(polygons: Seq<Polygon3d>) -> Seq<Outline<Point3d>> {
    polygons.map_values(|p: Polygon3d| outline_3d(p))
}

impl View for VisitOutcome3d {
    type V = Emission<StyledLine3d, Point3d>;

    open spec fn view(&self) -> Emission<StyledLine3d, Point3d> {
        match *self {
            VisitOutcome3d::Line(line) => Emission::Line(line),
            VisitOutcome3d::Polygon(polygon) => Emission::Polygon(outline_3d(polygon)),
            VisitOutcome3d::Cut => Emission::Cut,
            VisitOutcome3d::Nothing => Emission::Nothing,
        }
    }
}

/// Room for an edge of the innermost polygon was refused.
spec fn edge_refused_3d(
    outlines: Seq<Outline<Point3d>>,
    start: Point3d,
    failure: Failure,
) -> bool {
    let count = traced_3d(outlines, start, start).last().vertices.len();
    &&& outlines.len() > 0
    &&& failure == exhausted(
        "turtle_3d polygon vertices"@,
        if count > usize::MAX {
            usize::MAX
        } else {
            count as usize
        },
    )
}

fn capture_polygon_edge(polygon_stack: &mut Vec<Polygon3d>, start: Point3d, end: Point3d) -> (r:
    Result<(), VisualizeError>)
    ensures
        match r {
            Ok(()) => outlines_3d(final(polygon_stack)@) == traced_3d(
                outlines_3d(old(polygon_stack)@),
                start,
                end,
            ),
            Err(error) => edge_refused_3d(
                outlines_3d(old(polygon_stack)@),
                start,
                error@,
            ),
        },
{
    let ghost before = polygon_stack@;
    if polygon_stack.len() == 0 {
        return Ok(());
    }
    let last: usize = polygon_stack.len() - 1;
    let count: usize = polygon_stack[last].vertices.len();
    let include_start: bool = if count == 0 {
        true
    } else {
        let vertex: Point3d = polygon_stack[last].vertices[count - 1];
        !(vertex.0.equals(start.0) && vertex.1.equals(start.1) && vertex.2.equals(start.2))
    };
    let additional: usize = if include_start {
        2
    } else {
        1
    };
    let requested: usize = match count.checked_add(additional) {
        Some(requested) => requested,
        None => {
            return Err(resource_error("turtle_3d polygon vertices", usize::MAX));
        },
    };
    if polygon_stack[last].vertices.try_reserve(additional).is_err() {
        return Err(resource_error("turtle_3d polygon vertices", requested));
    }
    if include_start {
        polygon_stack[last].vertices.push(start);
    }
    polygon_stack[last].vertices.push(end);
    assert(outlines_3d(polygon_stack@) =~= traced_3d(outlines_3d(before), start, end));
    Ok(())
}

fn advance<C: Fn(Arithmetic) -> Real>(
    distance: Real,
    draw: bool,
    state: &mut SpatialState,
    traces: bool,
    polygon_stack: &mut Vec<Polygon3d>,
    calc: &C,
) -> (r: Result<VisitOutcome3d, VisualizeError>)
    requires
        calculates(*calc),
    ensures
        match r {
            Ok(outcome) => advanced_3d(
                *old(state),
                outlines_3d(old(polygon_stack)@),
                distance,
                draw,
                traces,
                answers(*calc),
            ) == Ok::<_, Failure>(
                Effect {
                    state: *final(state),
                    outlines: outlines_3d(final(polygon_stack)@),
                    emission: outcome@,
                },
            ),
            Err(error) => {
                ||| advanced_3d(
                    *old(state),
                    outlines_3d(old(polygon_stack)@),
                    distance,
                    draw,
                    traces,
                    answers(*calc),
                ) == Err::<Effect3d, _>(error@)
                ||| traces && edge_refused_3d(outlines_3d(old(polygon_stack)@), old(state).position.as_point(), error@)
            },
        },
{
    let step: Vec3 = state.heading.scale(distance, calc);
    let next: Vec3 = state.position.add(step, calc);
    if !next.is_finite() {
        return Err(invalid("turtle_3d produced a non-finite coordinate"));
    }
    let start: Point3d = state.position.point();
    let outcome: VisitOutcome3d = if draw {
        VisitOutcome3d::Line(
            StyledLine3d {
                line: Line3d(start, next.point()),
                width: state.width,
                color: state.color,
            },
        )
    } else {
        VisitOutcome3d::Nothing
    };
    state.position = next;
    if traces {
        match capture_polygon_edge(polygon_stack, start, next.point()) {
            Ok(()) => {},
            Err(error) => {
                return Err(error);
            },
        }
    }
    Ok(outcome)
}

/// Turn two perpendicular directions in their plane.
fn rotate<C: Fn(Arithmetic) -> Real>(a: Vec3, b: Vec3, angle: Real, calc: &C) -> (r: (Vec3, Vec3))
    requires
        calculates(*calc),
    ensures
        r.0 == turned_towards(a, b, angle, answers(*calc)),
        r.1 == turned_away(a, b, angle, answers(*calc)),
{
    let sine: Real = calculate(calc, Arithmetic::Sine(angle));
    let cosine: Real = calculate(calc, Arithmetic::Cosine(angle));
    let towards: Vec3 = a.scale(cosine, calc).add(b.scale(sine, calc), calc);
    let away: Vec3 = b.scale(cosine, calc).add(a.scale(sine.negated(), calc), calc);
    (towards, away)
}

fn effective_angle(state: &SpatialState, angle: Real) -> (r: Real)
    ensures
        r == signed_turn(*state, angle),
{
    if state.invert_turns {
        angle.negated()
    } else {
        angle
    }
}

fn align_to_vertical<C: Fn(Arithmetic) -> Real>(state: &mut SpatialState, calc: &C)
    requires
        calculates(*calc),
    ensures
        *final(state) == aligned_3d(*old(state), answers(*calc)),
{
    let zero: Real = Real { bits: 0 };
    let vertical: Vec3 = Vec3 { x: zero, y: zero, z: Real { bits: ONE_BITS } };
    match vertical.cross(state.heading, calc).normalized(calc) {
        None => {},
        Some(left) => {
            state.left = left;
            match state.heading.cross(left, calc).normalized(calc) {
                None => {},
                Some(up) => {
                    state.up = up;
                },
            }
        },
    }
}

fn adjust_state<C: Fn(Arithmetic) -> Real>(
    op: SpatialOp,
    config: &Turtle2dConfig,
    state: &mut SpatialState,
    calc: &C,
)
    requires
        calculates(*calc),
    ensures
        *final(state) == adjusted_3d(op, *config, *old(state), answers(*calc)),
{
    match op {
        SpatialOp::Yaw(angle) => {
            let angle: Real = effective_angle(state, angle);
            let (heading, left) = rotate(state.heading, state.left, angle, calc);
            state.heading = heading;
            state.left = left;
        },
        SpatialOp::Pitch(angle) => {
            let angle: Real = effective_angle(state, angle);
            let (heading, up) = rotate(state.heading, state.up, angle, calc);
            state.heading = heading;
            state.up = up;
        },
        SpatialOp::Roll(angle) => {
            let angle: Real = effective_angle(state, angle);
            let (left, up) = rotate(state.left, state.up, angle, calc);
            state.left = left;
            state.up = up;
        },
        SpatialOp::InvertTurns => {
            state.invert_turns = !state.invert_turns;
        },
        SpatialOp::Align => {
            align_to_vertical(state, calc);
        },
        SpatialOp::Scale(scale) => {
            state.step_scale = calculate(calc, Arithmetic::Product(state.step_scale, scale));
        },
        SpatialOp::WidthSet(width) => {
            state.width = width;
        },
        SpatialOp::WidthIncrease => {
            state.width = calculate(calc, Arithmetic::Sum(state.width, config.width_increment));
        },
        SpatialOp::WidthDecrease => {
            let width: Real = calculate(
                calc,
                Arithmetic::Difference(state.width, config.width_increment),
            );
            state.width = width.max(Real { bits: 0 });
        },
        SpatialOp::TurnAngleIncrease(amount) => {
            state.turn_angle = calculate(calc, Arithmetic::Sum(state.turn_angle, amount));
        },
        SpatialOp::TurnAngleDecrease(amount) => {
            state.turn_angle = calculate(calc, Arithmetic::Difference(state.turn_angle, amount));
        },
        _ => {},
    }
}

fn emit_dot<C: Fn(Arithmetic) -> Real>(diameter: Real, state: &SpatialState, calc: &C) -> (r:
    Result<StyledLine3d, VisualizeError>)
    requires
        calculates(*calc),
    ensures
        forall|outlines: Seq<Outline<Point3d>>|
            match r {
                Ok(line) => #[trigger] dotted_3d(*state, outlines, diameter, answers(*calc))
                    == Ok::<_, Failure>(
                    Effect { state: *state, outlines, emission: Emission::Line(line) },
                ),
                Err(error) => dotted_3d(*state, outlines, diameter, answers(*calc)) == Err::<
                    Effect3d,
                    _,
                >(error@),
            },
{
    if !diameter.is_finite() || diameter.is_negative() {
        return Err(invalid("turtle_3d point diameter must be finite and non-negative"));
    }
    let width: Real = calculate(calc, Arithmetic::Product(state.width, diameter));
    if !width.is_finite() {
        return Err(invalid("turtle_3d produced a non-finite point width"));
    }
    let point: Point3d = state.position.point();
    Ok(StyledLine3d { line: Line3d(point, point), width, color: state.color })
}

/// The room for polygons that a command asks for: what for, and how much of it.
pub open spec fn captured_3d(
    op: SpatialOp,
    traces: bool,
    state: SpatialState,
    outlines: Seq<Outline<Point3d>>,
) -> Option<(Seq<char>, int)> {
    let vertices = "turtle_3d polygon vertices"@;
    let edge = if traces && outlines.len() > 0 {
        Some((vertices, traced_3d(outlines, state.position.as_point(), state.position.as_point()).last().vertices.len() as int))
    } else {
        None
    };
    match op {
        SpatialOp::Advance { half, .. } => if half {
            None
        } else {
            edge
        },
        SpatialOp::PolygonBegin => Some(("turtle_3d polygon stack"@, (outlines.len() + 1) as int)),
        SpatialOp::Vertex => if outlines.len() > 0 {
            Some((vertices, (outlines.last().vertices.len() + 1) as int))
        } else {
            None
        },
        _ => None,
    }
}

/// Room that a command asked for was refused.
pub open spec fn capture_refused_3d(
    op: SpatialOp,
    traces: bool,
    state: SpatialState,
    outlines: Seq<Outline<Point3d>>,
    failure: Failure,
) -> bool {
    captured_3d(op, traces, state, outlines) matches Some((resource, count)) && failure
        == exhausted(resource, if count > usize::MAX { usize::MAX } else { count as usize })
}

/// Room that a visit asked for was refused.
pub open spec fn visit_refused_3d(
    module: Module,
    config: Turtle2dConfig,
    state: SpatialState,
    outlines: Seq<Outline<Point3d>>,
    ev: spec_fn(Arithmetic) -> Real,
    failure: Failure,
) -> bool {
    &&& action_3d(config, module.name@) is Ok
    &&& command_3d(action_3d(config, module.name@)->Ok_0, module, config, state, ev) is Ok
    &&& capture_refused_3d(
        command_3d(action_3d(config, module.name@)->Ok_0, module, config, state, ev)->Ok_0,
        traces_edges(action_3d(config, module.name@)->Ok_0),
        state,
        outlines,
        failure,
    )
}

fn perform<C: Fn(Arithmetic) -> Real>(
    op: SpatialOp,
    traces: bool,
    config: &Turtle2dConfig,
    state: &mut SpatialState,
    polygon_stack: &mut Vec<Polygon3d>,
    calc: &C,
) -> (r: Result<VisitOutcome3d, VisualizeError>)
    requires
        calculates(*calc),
    ensures
        match r {
            Ok(outcome) => performed_3d(
                op,
                traces,
                *config,
                *old(state),
                outlines_3d(old(polygon_stack)@),
                answers(*calc),
            ) == Ok::<_, Failure>(
                Effect {
                    state: *final(state),
                    outlines: outlines_3d(final(polygon_stack)@),
                    emission: outcome@,
                },
            ),
            Err(error) => {
                ||| performed_3d(
                    op,
                    traces,
                    *config,
                    *old(state),
                    outlines_3d(old(polygon_stack)@),
                    answers(*calc),
                ) == Err::<Effect3d, _>(error@)
                ||| capture_refused_3d(
                    op,
                    traces,
                    *old(state),
                    outlines_3d(old(polygon_stack)@),
                    error@,
                )
            },
        },
{
    let ghost before = polygon_stack@;
    match op {
        SpatialOp::Advance { distance, half, draw } => {
            let mut stride: Real = calculate(calc, Arithmetic::Product(distance, state.step_scale));
            if half {
                stride = calculate(calc, Arithmetic::Product(stride, Real { bits: HALF_BITS }));
            }
            return advance(stride, draw, state, traces && !half, polygon_stack, calc);
        },
        SpatialOp::ColorSet(index) => {
            state.color_index = Some(index);
            state.color = palette_color(index, config.palette.as_slice());
        },
        SpatialOp::ColorDelta(delta) => {
            let current: i32 = match state.color_index {
                Some(index) => index,
                None => 0,
            };
            match current.checked_add(delta) {
                Some(index) => {
                    state.color_index = Some(index);
                    state.color = palette_color(index, config.palette.as_slice());
                },
                None => {
                    return Err(invalid("turtle_3d color index overflow"));
                },
            }
        },
        SpatialOp::Dot(diameter) => {
            let ghost spoken = dotted_3d(*state, outlines_3d(before), diameter, answers(*calc));
            return match emit_dot(diameter, state, calc) {
                Ok(line) => Ok(VisitOutcome3d::Line(line)),
                Err(error) => Err(error),
            };
        },
        SpatialOp::PolygonBegin => {
            if polygon_stack.try_reserve(1).is_err() {
                let requested: usize = polygon_stack.len().saturating_add(1);
                return Err(resource_error("turtle_3d polygon stack", requested));
            }
            polygon_stack.push(Polygon3d { vertices: Vec::new(), color: state.color });
            assert(outlines_3d(polygon_stack@) =~= outlines_3d(before).push(
                Outline { vertices: Seq::empty(), color: state.color },
            ));
        },
        SpatialOp::Vertex => {
            if polygon_stack.len() == 0 {
                return Err(invalid("Vertex requires an active PolygonBegin"));
            }
            let last: usize = polygon_stack.len() - 1;
            let count: usize = polygon_stack[last].vertices.len();
            if polygon_stack[last].vertices.try_reserve(1).is_err() {
                return Err(resource_error("turtle_3d polygon vertices", count.saturating_add(1)));
            }
            let point: Point3d = state.position.point();
            polygon_stack[last].vertices.push(point);
            assert(outlines_3d(polygon_stack@) =~= outlines_3d(before).update(
                before.len() - 1,
                Outline {
                    vertices: outlines_3d(before).last().vertices.push(point),
                    color: outlines_3d(before).last().color,
                },
            ));
        },
        SpatialOp::PolygonEnd => {
            match polygon_stack.pop() {
                None => {
                    return Err(invalid("PolygonEnd requires an active PolygonBegin"));
                },
                Some(polygon) => {
                    assert(outlines_3d(polygon_stack@) =~= outlines_3d(before).drop_last());
                    assert(outline_3d(polygon) == outlines_3d(before).last());
                    if polygon.vertices.len() >= 3 {
                        return Ok(VisitOutcome3d::Polygon(polygon));
                    }
                },
            }
        },
        SpatialOp::Cut => {
            return Ok(VisitOutcome3d::Cut);
        },
        _ => {
            adjust_state(op, config, state, calc);
        },
    }
    if !state.is_finite() {
        return Err(invalid("turtle_3d produced non-finite state"));
    }
    Ok(VisitOutcome3d::Nothing)
}

/// Visit one module: change the state, and hand out what it draws.
pub fn visit_module_3d<C: Fn(Arithmetic) -> Real>(
    module: &Module,
    config: &Turtle2dConfig,
    state: &mut SpatialState,
    polygon_stack: &mut Vec<Polygon3d>,
    calc: &C,
) -> (r: Result<VisitOutcome3d, VisualizeError>)
    requires
        calculates(*calc),
    ensures
        match r {
            Ok(outcome) => visited_3d(
                *module,
                *config,
                *old(state),
                outlines_3d(old(polygon_stack)@),
                answers(*calc),
            ) == Ok::<_, Failure>(
                Effect {
                    state: *final(state),
                    outlines: outlines_3d(final(polygon_stack)@),
                    emission: outcome@,
                },
            ),
            Err(error) => {
                ||| visited_3d(
                    *module,
                    *config,
                    *old(state),
                    outlines_3d(old(polygon_stack)@),
                    answers(*calc),
                ) == Err::<Effect3d, _>(error@)
                ||| visit_refused_3d(
                    *module,
                    *config,
                    *old(state),
                    outlines_3d(old(polygon_stack)@),
                    answers(*calc),
                    error@,
                )
            },
        },
{
    let name: &str = match resolve_action(module.name.as_str(), config) {
        Ok(name) => name,
        Err(error) => {
            return Err(error);
        },
    };
    let traces: bool = same_text(name, "F") || same_text(name, "f");
    let op: SpatialOp = match classify(name, module, config, state, calc) {
        Ok(op) => op,
        Err(error) => {
            return Err(error);
        },
    };
    perform(op, traces, config, state, polygon_stack, calc)
}

} // verus!
