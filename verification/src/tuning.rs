//! Numbers behind the controls: steps of the angle, how it is written, the
//! scale of line widths, and the pace of an animation.

use vstd::prelude::*;

use crate::controls::{angle_within, clamp_angle, Controls, DEFAULT_LINE_WIDTH_PERCENT};
use crate::number::{answers, calculate, calculates, Arithmetic, Real};
use crate::oracle::{ask, consistent, function_of, write_with, writes, writing};
use crate::session::{Event, Moment, Session};
use crate::shading::SINGLE_ONE_BITS;
use crate::single::{Single, SingleArithmetic, SINGLE_SIGN_BIT};
use crate::update::{took, Response};

verus! {

/// The pattern of a ten-thousandth.
pub const WHOLE_TOLERANCE_BITS: u32 = 0x38d1_b717;

/// The pattern of 0.05.
pub const WRITTEN_TOLERANCE_BITS: u32 = 0x3d4c_cccd;

/// The pattern of a millionth.
pub const FLAT_SLOPE_BITS: u32 = 0x3586_37bd;

/// The pattern of three.
pub const SINGLE_THREE_BITS: u32 = 0x4040_0000;

/// The pattern of six.
pub const SINGLE_SIX_BITS: u32 = 0x40c0_0000;

/// The pattern of 0.4.
pub const EASE_FIRST_BITS: u32 = 0x3ecc_cccd;

/// The pattern of 0.2.
pub const EASE_SECOND_BITS: u32 = 0x3e4c_cccd;

/// How far an angle is from the nearest whole one.
pub open spec fn off_whole(angle: Single, sv: spec_fn(SingleArithmetic) -> Single) -> Single {
    sv(SingleArithmetic::Difference(angle, sv(SingleArithmetic::Rounded(angle)))).absolute()
}

/// An angle as it is written: whole where it is nearly so, else with one digit
/// behind the point. The writer takes a number and how many such digits.
pub open spec fn angle_text(
    angle: Single,
    sv: spec_fn(SingleArithmetic) -> Single,
    wr: spec_fn((Single, usize)) -> Seq<char>,
) -> Seq<char> {
    if off_whole(angle, sv).below(Single { bits: WRITTEN_TOLERANCE_BITS }) {
        wr((sv(SingleArithmetic::Rounded(angle)), 0usize))
    } else {
        wr((angle, 1usize))
    }
}

pub fn formatted_angle<S: Fn(SingleArithmetic) -> Single, W: Fn((Single, usize)) -> String>(
    angle: Single,
    small: &S,
    writer: &W,
) -> (r: String)
    requires
        consistent::<SingleArithmetic, Single, S>(*small),
        writes::<(Single, usize), W>(*writer),
    ensures
        r@ == angle_text(
            angle,
            function_of::<SingleArithmetic, Single, S>(*small),
            writing::<(Single, usize), W>(*writer),
        ),
{
    let rounded: Single = ask(small, SingleArithmetic::Rounded(angle));
    let off: Single = ask(small, SingleArithmetic::Difference(angle, rounded)).abs();
    if off.less_than(Single { bits: WRITTEN_TOLERANCE_BITS }) {
        write_with(writer, (rounded, 0usize))
    } else {
        write_with(writer, (angle, 1usize))
    }
}

/// The whole angle next to an angle, upwards or downwards, between zero and
/// 180 degrees.
pub open spec fn angle_beside(
    current: Single,
    upwards: bool,
    sv: spec_fn(SingleArithmetic) -> Single,
) -> Single {
    let from = if off_whole(current, sv).below(Single { bits: WHOLE_TOLERANCE_BITS }) {
        sv(SingleArithmetic::Rounded(current))
    } else {
        current
    };
    let one = Single { bits: SINGLE_ONE_BITS };
    angle_within(
        if upwards {
            sv(SingleArithmetic::Sum(sv(SingleArithmetic::Floor(from)), one))
        } else {
            sv(SingleArithmetic::Difference(sv(SingleArithmetic::Ceiling(from)), one))
        },
    )
}

pub fn adjacent_integer_angle<S: Fn(SingleArithmetic) -> Single>(
    current: Single,
    direction: Single,
    small: &S,
) -> (r: Single)
    requires
        consistent::<SingleArithmetic, Single, S>(*small),
    ensures
        r == angle_beside(
            current,
            direction.bits < SINGLE_SIGN_BIT,
            function_of::<SingleArithmetic, Single, S>(*small),
        ),
{
    let nearest: Single = ask(small, SingleArithmetic::Rounded(current));
    let off: Single = ask(small, SingleArithmetic::Difference(current, nearest)).abs();
    let from: Single = if off.less_than(Single { bits: WHOLE_TOLERANCE_BITS }) {
        nearest
    } else {
        current
    };
    let one: Single = Single { bits: SINGLE_ONE_BITS };
    let value: Single = if direction.bits < SINGLE_SIGN_BIT {
        let floor: Single = ask(small, SingleArithmetic::Floor(from));
        ask(small, SingleArithmetic::Sum(floor, one))
    } else {
        let ceiling: Single = ask(small, SingleArithmetic::Ceiling(from));
        ask(small, SingleArithmetic::Difference(ceiling, one))
    };
    clamp_angle(value)
}

/// The angle one degree further, upwards or downwards, between zero and 180
/// degrees.
pub open spec fn angle_shifted(
    current: Single,
    upwards: bool,
    sv: spec_fn(SingleArithmetic) -> Single,
) -> Single {
    angle_within(
        sv(
            SingleArithmetic::Sum(
                current,
                if upwards {
                    Single { bits: SINGLE_ONE_BITS }
                } else {
                    Single { bits: SINGLE_ONE_BITS }.opposite()
                },
            ),
        ),
    )
}

pub fn shifted_angle<S: Fn(SingleArithmetic) -> Single>(
    current: Single,
    upwards: bool,
    small: &S,
) -> (r: Single)
    requires
        consistent::<SingleArithmetic, Single, S>(*small),
    ensures
        r == angle_shifted(
            current,
            upwards,
            function_of::<SingleArithmetic, Single, S>(*small),
        ),
{
    let one: Single = Single { bits: SINGLE_ONE_BITS };
    let step: Single = if upwards {
        one
    } else {
        one.negated()
    };
    clamp_angle(ask(small, SingleArithmetic::Sum(current, step)))
}

impl Session {
    /// Go to the whole angle next to the current one.
    pub fn step_angle<C: Fn(Arithmetic) -> Real, S: Fn(SingleArithmetic) -> Single>(
        &mut self,
        direction: Single,
        moment: Moment,
        calc: &C,
        small: &S,
    ) -> (r: Response)
        requires
            old(self).valid(),
            calculates(*calc),
            consistent::<SingleArithmetic, Single, S>(*small),
        ensures
            final(self).valid(),
            took(
                *final(self),
                r,
                old(self)@.updated(
                    Event::AngleStep(
                        angle_beside(
                            old(self)@.controls.angle,
                            direction.bits < SINGLE_SIGN_BIT,
                            function_of::<SingleArithmetic, Single, S>(*small),
                        ),
                    ),
                    moment,
                    answers(*calc),
                ),
            ),
    {
        proof {
            reveal(Controls::model);
        }
        let angle: Single = adjacent_integer_angle(self.controls.angle, direction, small);
        self.update(Event::AngleStep(angle), moment, calc)
    }

    /// Turn the wheel over the angle.
    pub fn wheel_angle<C: Fn(Arithmetic) -> Real, S: Fn(SingleArithmetic) -> Single>(
        &mut self,
        delta: Real,
        moment: Moment,
        calc: &C,
        small: &S,
    ) -> (r: Response)
        requires
            old(self).valid(),
            calculates(*calc),
            consistent::<SingleArithmetic, Single, S>(*small),
        ensures
            final(self).valid(),
            took(
                *final(self),
                r,
                old(self)@.updated(
                    Event::AngleWheel {
                        delta,
                        up: angle_shifted(
                            old(self)@.controls.angle,
                            true,
                            function_of::<SingleArithmetic, Single, S>(*small),
                        ),
                        down: angle_shifted(
                            old(self)@.controls.angle,
                            false,
                            function_of::<SingleArithmetic, Single, S>(*small),
                        ),
                    },
                    moment,
                    answers(*calc),
                ),
            ),
    {
        proof {
            reveal(Controls::model);
        }
        let up: Single = shifted_angle(self.controls.angle, true, small);
        let down: Single = shifted_angle(self.controls.angle, false, small);
        self.update(Event::AngleWheel { delta, up, down }, moment, calc)
    }
}

/// The scale that a percentage of line width stands for.
pub fn line_width_scale<C: Fn(Arithmetic) -> Real>(percent: u16, calc: &C) -> (r: Real)
    requires
        calculates(*calc),
    ensures
        r == answers(*calc)(
            Arithmetic::Quotient(
                answers(*calc)(Arithmetic::Integer(percent as i64)),
                answers(*calc)(Arithmetic::Integer(DEFAULT_LINE_WIDTH_PERCENT as i64)),
            ),
        ),
{
    let part: Real = calculate(calc, Arithmetic::Integer(percent as i64));
    let whole: Real = calculate(calc, Arithmetic::Integer(DEFAULT_LINE_WIDTH_PERCENT as i64));
    calculate(calc, Arithmetic::Quotient(part, whole))
}

/// A product of binary32 numbers, from left to right.
pub open spec fn product_of(factors: Seq<Single>, sv: spec_fn(SingleArithmetic) -> Single) -> Single
    decreases factors.len(),
{
    if factors.len() <= 1 {
        factors[0]
    } else {
        sv(SingleArithmetic::Product(product_of(factors.drop_last(), sv), factors.last()))
    }
}

fn multiply<S: Fn(SingleArithmetic) -> Single>(factors: &[Single], small: &S) -> (r: Single)
    requires
        consistent::<SingleArithmetic, Single, S>(*small),
        factors@.len() > 0,
    ensures
        r == product_of(factors@, function_of::<SingleArithmetic, Single, S>(*small)),
{
    let mut product: Single = factors[0];
    let mut i: usize = 1;
    while i < factors.len()
        invariant
            consistent::<SingleArithmetic, Single, S>(*small),
            1 <= i <= factors@.len(),
            product == product_of(
                factors@.subrange(0, i as int),
                function_of::<SingleArithmetic, Single, S>(*small),
            ),
        decreases factors@.len() - i,
    {
        product = ask(small, SingleArithmetic::Product(product, factors[i]));
        assert(factors@.subrange(0, i + 1).drop_last() =~= factors@.subrange(0, i as int));
        i = i + 1;
    }
    assert(factors@.subrange(0, i as int) =~= factors@);
    product
}

/// A coordinate of a cubic curve from zero to one, with two control points
/// between.
pub open spec fn curve_at(
    t: Single,
    first: Single,
    second: Single,
    sv: spec_fn(SingleArithmetic) -> Single,
) -> Single {
    let three = Single { bits: SINGLE_THREE_BITS };
    let inverse = sv(SingleArithmetic::Difference(Single { bits: SINGLE_ONE_BITS }, t));
    sv(
        SingleArithmetic::Sum(
            sv(
                SingleArithmetic::Sum(
                    product_of(seq![three, inverse, inverse, t, first], sv),
                    product_of(seq![three, inverse, t, t, second], sv),
                ),
            ),
            product_of(seq![t, t, t], sv),
        ),
    )
}

/// How steep the coordinate is.
pub open spec fn curve_slope(
    t: Single,
    first: Single,
    second: Single,
    sv: spec_fn(SingleArithmetic) -> Single,
) -> Single {
    let one = Single { bits: SINGLE_ONE_BITS };
    let three = Single { bits: SINGLE_THREE_BITS };
    let inverse = sv(SingleArithmetic::Difference(one, t));
    sv(
        SingleArithmetic::Sum(
            sv(
                SingleArithmetic::Sum(
                    product_of(seq![three, inverse, inverse, first], sv),
                    product_of(
                        seq![
                            Single { bits: SINGLE_SIX_BITS },
                            inverse,
                            t,
                            sv(SingleArithmetic::Difference(second, first)),
                        ],
                        sv,
                    ),
                ),
            ),
            product_of(
                seq![three, t, t, sv(SingleArithmetic::Difference(one, second))],
                sv,
            ),
        ),
    )
}

fn coordinate<S: Fn(SingleArithmetic) -> Single>(
    t: Single,
    first: Single,
    second: Single,
    small: &S,
) -> (r: Single)
    requires
        consistent::<SingleArithmetic, Single, S>(*small),
    ensures
        r == curve_at(t, first, second, function_of::<SingleArithmetic, Single, S>(*small)),
{
    let one: Single = Single { bits: SINGLE_ONE_BITS };
    let three: Single = Single { bits: SINGLE_THREE_BITS };
    let inverse: Single = ask(small, SingleArithmetic::Difference(one, t));
    let a: [Single; 5] = [three, inverse, inverse, t, first];
    let b: [Single; 5] = [three, inverse, t, t, second];
    let c: [Single; 3] = [t, t, t];
    assert(a@ =~= seq![three, inverse, inverse, t, first]);
    assert(b@ =~= seq![three, inverse, t, t, second]);
    assert(c@ =~= seq![t, t, t]);
    let start: Single = multiply(&a, small);
    let middle: Single = multiply(&b, small);
    let end: Single = multiply(&c, small);
    let sum: Single = ask(small, SingleArithmetic::Sum(start, middle));
    ask(small, SingleArithmetic::Sum(sum, end))
}

fn derivative<S: Fn(SingleArithmetic) -> Single>(
    t: Single,
    first: Single,
    second: Single,
    small: &S,
) -> (r: Single)
    requires
        consistent::<SingleArithmetic, Single, S>(*small),
    ensures
        r == curve_slope(t, first, second, function_of::<SingleArithmetic, Single, S>(*small)),
{
    let one: Single = Single { bits: SINGLE_ONE_BITS };
    let three: Single = Single { bits: SINGLE_THREE_BITS };
    let six: Single = Single { bits: SINGLE_SIX_BITS };
    let inverse: Single = ask(small, SingleArithmetic::Difference(one, t));
    let apart: Single = ask(small, SingleArithmetic::Difference(second, first));
    let left: Single = ask(small, SingleArithmetic::Difference(one, second));
    let a: [Single; 4] = [three, inverse, inverse, first];
    let b: [Single; 4] = [six, inverse, t, apart];
    let c: [Single; 4] = [three, t, t, left];
    assert(a@ =~= seq![three, inverse, inverse, first]);
    assert(b@ =~= seq![six, inverse, t, apart]);
    assert(c@ =~= seq![three, t, t, left]);
    let start: Single = multiply(&a, small);
    let middle: Single = multiply(&b, small);
    let end: Single = multiply(&c, small);
    let sum: Single = ask(small, SingleArithmetic::Sum(start, middle));
    ask(small, SingleArithmetic::Sum(sum, end))
}

/// The two control points of a curve.
#[derive(Debug, Clone, Copy, PartialEq, Eq, Structural)]
pub struct Curve {
    pub x1: Single,
    pub y1: Single,
    pub x2: Single,
    pub y2: Single,
}

/// One step of Newton's method towards where the curve has an `x`.
pub open spec fn curve_step(
    parameter: Single,
    x: Single,
    curve: Curve,
    sv: spec_fn(SingleArithmetic) -> Single,
) -> Single {
    let above = sv(SingleArithmetic::Difference(curve_at(parameter, curve.x1, curve.x2, sv), x));
    let slope = curve_slope(parameter, curve.x1, curve.x2, sv);
    sv(
        SingleArithmetic::Difference(parameter, sv(SingleArithmetic::Quotient(above, slope))),
    ).within(Single { bits: 0 }, Single { bits: SINGLE_ONE_BITS })
}

/// Where so many steps lead; they end where the curve is flat.
pub open spec fn curve_parameter(
    parameter: Single,
    x: Single,
    curve: Curve,
    steps: nat,
    sv: spec_fn(SingleArithmetic) -> Single,
) -> Single
    decreases steps,
{
    if steps == 0 || curve_slope(parameter, curve.x1, curve.x2, sv).absolute().at_most(
        Single { bits: FLAT_SLOPE_BITS },
    ) {
        parameter
    } else {
        curve_parameter(
            curve_step(parameter, x, curve, sv),
            x,
            curve,
            (steps - 1) as nat,
            sv,
        )
    }
}

/// How far an animation has come when so much of its time is over.
pub open spec fn eased(progress: Single, curve: Curve, sv: spec_fn(SingleArithmetic) -> Single) -> Single {
    let x = progress.within(Single { bits: 0 }, Single { bits: SINGLE_ONE_BITS });
    curve_at(curve_parameter(x, x, curve, 8, sv), curve.y1, curve.y2, sv).within(
        Single { bits: 0 },
        Single { bits: SINGLE_ONE_BITS },
    )
}

pub fn cubic_bezier_ease<S: Fn(SingleArithmetic) -> Single>(
    progress: Single,
    curve: Curve,
    small: &S,
) -> (r: Single)
    requires
        consistent::<SingleArithmetic, Single, S>(*small),
    ensures
        r == eased(progress, curve, function_of::<SingleArithmetic, Single, S>(*small)),
{
    let ghost sv = function_of::<SingleArithmetic, Single, S>(*small);
    let zero: Single = Single { bits: 0 };
    let one: Single = Single { bits: SINGLE_ONE_BITS };
    let x: Single = progress.clamp(zero, one);
    let mut parameter: Single = x;
    let mut left: u8 = 8;
    let mut flat: bool = false;
    while left > 0 && !flat
        invariant
            consistent::<SingleArithmetic, Single, S>(*small),
            sv == function_of::<SingleArithmetic, Single, S>(*small),
            left <= 8,
            zero == (Single { bits: 0 }),
            one == (Single { bits: SINGLE_ONE_BITS }),
            curve_parameter(x, x, curve, 8, sv) == if flat {
                parameter
            } else {
                curve_parameter(parameter, x, curve, left as nat, sv)
            },
        decreases left, !flat as int,
    {
        let slope: Single = derivative(parameter, curve.x1, curve.x2, small);
        if slope.abs().less_equal(Single { bits: FLAT_SLOPE_BITS }) {
            flat = true;
        } else {
            let place: Single = coordinate(parameter, curve.x1, curve.x2, small);
            let above: Single = ask(small, SingleArithmetic::Difference(place, x));
            let shift: Single = ask(small, SingleArithmetic::Quotient(above, slope));
            parameter = ask(small, SingleArithmetic::Difference(parameter, shift)).clamp(zero, one);
            left = left - 1;
        }
    }
    coordinate(parameter, curve.y1, curve.y2, small).clamp(zero, one)
}

/// The curve that iterations turn into each other by.
pub open spec fn iteration_curve() -> Curve {
    Curve {
        x1: Single { bits: EASE_FIRST_BITS },
        y1: Single { bits: 0 },
        x2: Single { bits: EASE_SECOND_BITS },
        y2: Single { bits: SINGLE_ONE_BITS },
    }
}

pub fn iteration_ease<S: Fn(SingleArithmetic) -> Single>(progress: Single, small: &S) -> (r: Single)
    requires
        consistent::<SingleArithmetic, Single, S>(*small),
    ensures
        r == eased(
            progress,
            iteration_curve(),
            function_of::<SingleArithmetic, Single, S>(*small),
        ),
{
    cubic_bezier_ease(
        progress,
        Curve {
            x1: Single { bits: EASE_FIRST_BITS },
            y1: Single { bits: 0 },
            x2: Single { bits: EASE_SECOND_BITS },
            y2: Single { bits: SINGLE_ONE_BITS },
        },
        small,
    )
}

/// An animation never overshoots: what is a number is between zero and one.
pub proof fn eases_are_bounded(
    progress: Single,
    curve: Curve,
    sv: spec_fn(SingleArithmetic) -> Single,
)
    requires
        !eased(progress, curve, sv).nan(),
    ensures
        0 <= eased(progress, curve, sv).rank() <= SINGLE_ONE_BITS,
{
}

} // verus!
