//! Colours of spatial scenes: the ramp of a theme, and light and fog upon it.
//! Colours are mixed in linear light, not as they are encoded.

use vstd::prelude::*;

use crate::geometry::StrokeColor;
use crate::number::{answers, calculate, calculates, Arithmetic, Real, HALF_BITS, ONE_BITS};
use crate::oracle::{ask, consistent, function_of};
use crate::palette::{
    bounded_depth, bounded_light, bounded_or, finite_unit_or, quantized, ramp_bucket,
    spatial_theme_default_bucket, stroke_rgb, turtle_stroke_rgb, Palette,
    SPATIAL_SOFTWARE_DEPTH_BUCKETS, SPATIAL_SOFTWARE_LIGHT_BUCKETS, SPATIAL_SOFTWARE_MIN_LIGHT_BITS,
    SPATIAL_THEME_DEFAULT_COLOR_BUCKETS,
};
use crate::single::{Single, SingleArithmetic};

verus! {

/// The pattern of 0.18, the share of background at the back of a scene.
pub const SPATIAL_FAR_FOG_BITS: u64 = 0x3fc7_0a3d_70a3_d70a;

/// The pattern of 0.02, the share of background at the front of a scene.
pub const SPATIAL_NEAR_FOG_BITS: u64 = 0x3f94_7ae1_47ae_147b;

/// The pattern of one.
pub const SINGLE_ONE_BITS: u32 = 0x3f80_0000;

/// The pattern of 0.04045, where encoded colours stop being proportional.
pub const ENCODED_KNEE_BITS: u32 = 0x3d25_aee6;

/// The pattern of 0.0031308, where linear colours stop being proportional.
pub const LINEAR_KNEE_BITS: u32 = 0x3b4d_2e1c;

/// The pattern of 12.92.
pub const KNEE_SLOPE_BITS: u32 = 0x414e_b852;

/// The pattern of 0.055.
pub const CURVE_OFFSET_BITS: u32 = 0x3d61_47ae;

/// The pattern of 1.055.
pub const CURVE_SCALE_BITS: u32 = 0x3f87_0a3d;

/// The pattern of 2.4.
pub const CURVE_POWER_BITS: u32 = 0x4019_999a;

/// The pattern of one by 2.4.
pub const CURVE_ROOT_BITS: u32 = 0x3ed5_5555;

/// The pattern of 255.
pub const SINGLE_BYTE_LIMIT_BITS: u32 = 0x437f_0000;

/// Where the ramp of a palette begins.
pub open spec fn ramp_start(palette: Palette) -> [u8; 3] {
    match palette {
        Palette::Light => [0x06u8, 0x4e, 0x3b],
        Palette::Dark => [0x4au8, 0xde, 0x80],
    }
}

/// Where the ramp of a palette ends.
pub open spec fn ramp_end(palette: Palette) -> [u8; 3] {
    match palette {
        Palette::Light => [0x20u8, 0x76, 0x42],
        Palette::Dark => [0xa7u8, 0xf3, 0xd0],
    }
}

/// A channel between zero and one; zero stands in for what is not finite.
pub open spec fn unit_or_zero(value: Single) -> Single {
    if value.finite() {
        value.within(Single { bits: 0 }, Single { bits: SINGLE_ONE_BITS })
    } else {
        Single { bits: 0 }
    }
}

pub fn finite_unit_or_zero(value: Single) -> (r: Single)
    ensures
        r == unit_or_zero(value),
{
    if value.is_finite() {
        value.clamp(Single { bits: 0 }, Single { bits: SINGLE_ONE_BITS })
    } else {
        Single { bits: 0 }
    }
}

/// An encoded channel in linear light.
pub open spec fn linear_of(channel: Single, sv: spec_fn(SingleArithmetic) -> Single) -> Single {
    if channel.at_most(Single { bits: ENCODED_KNEE_BITS }) {
        sv(SingleArithmetic::Quotient(channel, Single { bits: KNEE_SLOPE_BITS }))
    } else {
        let raised = sv(SingleArithmetic::Sum(channel, Single { bits: CURVE_OFFSET_BITS }));
        sv(
            SingleArithmetic::Power(
                sv(SingleArithmetic::Quotient(raised, Single { bits: CURVE_SCALE_BITS })),
                Single { bits: CURVE_POWER_BITS },
            ),
        )
    }
}

pub fn srgb_to_linear<S: Fn(SingleArithmetic) -> Single>(channel: Single, small: &S) -> (r: Single)
    requires
        consistent::<SingleArithmetic, Single, S>(*small),
    ensures
        r == linear_of(channel, function_of::<SingleArithmetic, Single, S>(*small)),
{
    if channel.less_equal(Single { bits: ENCODED_KNEE_BITS }) {
        ask(small, SingleArithmetic::Quotient(channel, Single { bits: KNEE_SLOPE_BITS }))
    } else {
        let raised: Single = ask(
            small,
            SingleArithmetic::Sum(channel, Single { bits: CURVE_OFFSET_BITS }),
        );
        let scaled: Single = ask(
            small,
            SingleArithmetic::Quotient(raised, Single { bits: CURVE_SCALE_BITS }),
        );
        ask(small, SingleArithmetic::Power(scaled, Single { bits: CURVE_POWER_BITS }))
    }
}

/// A channel in linear light, encoded.
pub open spec fn encoded_of(channel: Single, sv: spec_fn(SingleArithmetic) -> Single) -> Single {
    let place = unit_or_zero(channel);
    let value = if place.at_most(Single { bits: LINEAR_KNEE_BITS }) {
        sv(SingleArithmetic::Product(place, Single { bits: KNEE_SLOPE_BITS }))
    } else {
        let root = sv(SingleArithmetic::Power(place, Single { bits: CURVE_ROOT_BITS }));
        sv(
            SingleArithmetic::Difference(
                sv(SingleArithmetic::Product(Single { bits: CURVE_SCALE_BITS }, root)),
                Single { bits: CURVE_OFFSET_BITS },
            ),
        )
    };
    value.within(Single { bits: 0 }, Single { bits: SINGLE_ONE_BITS })
}

pub fn linear_to_srgb<S: Fn(SingleArithmetic) -> Single>(channel: Single, small: &S) -> (r: Single)
    requires
        consistent::<SingleArithmetic, Single, S>(*small),
    ensures
        r == encoded_of(channel, function_of::<SingleArithmetic, Single, S>(*small)),
{
    let place: Single = finite_unit_or_zero(channel);
    let value: Single = if place.less_equal(Single { bits: LINEAR_KNEE_BITS }) {
        ask(small, SingleArithmetic::Product(place, Single { bits: KNEE_SLOPE_BITS }))
    } else {
        let root: Single = ask(
            small,
            SingleArithmetic::Power(place, Single { bits: CURVE_ROOT_BITS }),
        );
        let scaled: Single = ask(
            small,
            SingleArithmetic::Product(Single { bits: CURVE_SCALE_BITS }, root),
        );
        ask(small, SingleArithmetic::Difference(scaled, Single { bits: CURVE_OFFSET_BITS }))
    };
    value.clamp(Single { bits: 0 }, Single { bits: SINGLE_ONE_BITS })
}

/// Encoded channels are never outside of zero and one.
pub proof fn encoded_channels_are_bounded(
    channel: Single,
    sv: spec_fn(SingleArithmetic) -> Single,
)
    requires
        !encoded_of(channel, sv).nan(),
    ensures
        0 <= encoded_of(channel, sv).rank() <= SINGLE_ONE_BITS,
{
}

/// A byte as a channel between zero and one.
pub open spec fn unit_of(byte: u8, sv: spec_fn(SingleArithmetic) -> Single) -> Single {
    sv(
        SingleArithmetic::Quotient(
            sv(SingleArithmetic::Count(byte)),
            Single { bits: SINGLE_BYTE_LIMIT_BITS },
        ),
    )
}

fn channel_of<S: Fn(SingleArithmetic) -> Single>(byte: u8, small: &S) -> (r: Single)
    requires
        consistent::<SingleArithmetic, Single, S>(*small),
    ensures
        r == unit_of(byte, function_of::<SingleArithmetic, Single, S>(*small)),
{
    let count: Single = ask(small, SingleArithmetic::Count(byte));
    ask(small, SingleArithmetic::Quotient(count, Single { bits: SINGLE_BYTE_LIMIT_BITS }))
}

pub fn normalized_rgb8<S: Fn(SingleArithmetic) -> Single>(rgb: [u8; 3], small: &S) -> (r: [Single;
    3])
    requires
        consistent::<SingleArithmetic, Single, S>(*small),
    ensures
        forall|i: int|
            0 <= i < 3 ==> #[trigger] r[i] == unit_of(
                rgb[i],
                function_of::<SingleArithmetic, Single, S>(*small),
            ),
{
    [channel_of(rgb[0], small), channel_of(rgb[1], small), channel_of(rgb[2], small)]
}

/// A channel of the ramp in a bucket.
pub open spec fn ramp_channel(
    start: u8,
    end: u8,
    bucket: int,
    sv: spec_fn(SingleArithmetic) -> Single,
) -> Single {
    let position = sv(
        SingleArithmetic::Quotient(
            sv(SingleArithmetic::Count(bucket as u8)),
            sv(SingleArithmetic::Count((SPATIAL_THEME_DEFAULT_COLOR_BUCKETS - 1) as u8)),
        ),
    );
    let from = linear_of(unit_of(start, sv), sv);
    let to = linear_of(unit_of(end, sv), sv);
    encoded_of(
        sv(
            SingleArithmetic::Sum(
                from,
                sv(
                    SingleArithmetic::Product(sv(SingleArithmetic::Difference(to, from)), position),
                ),
            ),
        ),
        sv,
    )
}

fn ramp_level<S: Fn(SingleArithmetic) -> Single>(start: u8, end: u8, bucket: usize, small: &S) -> (r:
    Single)
    requires
        consistent::<SingleArithmetic, Single, S>(*small),
        bucket < SPATIAL_THEME_DEFAULT_COLOR_BUCKETS,
    ensures
        r == ramp_channel(
            start,
            end,
            bucket as int,
            function_of::<SingleArithmetic, Single, S>(*small),
        ),
{
    let last: u8 = (SPATIAL_THEME_DEFAULT_COLOR_BUCKETS - 1) as u8;
    let place: Single = ask(small, SingleArithmetic::Count(bucket as u8));
    let count: Single = ask(small, SingleArithmetic::Count(last));
    let position: Single = ask(small, SingleArithmetic::Quotient(place, count));
    let from: Single = srgb_to_linear(channel_of(start, small), small);
    let to: Single = srgb_to_linear(channel_of(end, small), small);
    let apart: Single = ask(small, SingleArithmetic::Difference(to, from));
    let part: Single = ask(small, SingleArithmetic::Product(apart, position));
    linear_to_srgb(ask(small, SingleArithmetic::Sum(from, part)), small)
}

/// The bucket itself, or the last one.
pub open spec fn known_bucket(bucket: usize) -> int {
    if bucket < SPATIAL_THEME_DEFAULT_COLOR_BUCKETS {
        bucket as int
    } else {
        SPATIAL_THEME_DEFAULT_COLOR_BUCKETS - 1
    }
}

/// A channel of a palette's ramp in a bucket.
pub open spec fn theme_channel(
    bucket: int,
    palette: Palette,
    i: int,
    sv: spec_fn(SingleArithmetic) -> Single,
) -> Single {
    ramp_channel(ramp_start(palette)[i], ramp_end(palette)[i], bucket, sv)
}

/// Return one theme-default spatial color as normalized sRGB components.
///
/// The endpoints are interpolated in linear light, which keeps the middle of
/// the ramp from turning muddy. The ramp is for the theme's default color
/// only; explicit turtle colors are unaffected.
pub fn spatial_theme_default_color<S: Fn(SingleArithmetic) -> Single>(
    bucket: usize,
    palette: Palette,
    small: &S,
) -> (r: [Single; 3])
    requires
        consistent::<SingleArithmetic, Single, S>(*small),
    ensures
        forall|i: int|
            0 <= i < 3 ==> #[trigger] r[i] == theme_channel(
                known_bucket(bucket),
                palette,
                i,
                function_of::<SingleArithmetic, Single, S>(*small),
            ),
{
    let place: usize = if bucket < SPATIAL_THEME_DEFAULT_COLOR_BUCKETS {
        bucket
    } else {
        SPATIAL_THEME_DEFAULT_COLOR_BUCKETS - 1
    };
    let start: [u8; 3] = match palette {
        Palette::Light => [0x06, 0x4e, 0x3b],
        Palette::Dark => [0x4a, 0xde, 0x80],
    };
    let end: [u8; 3] = match palette {
        Palette::Light => [0x20, 0x76, 0x42],
        Palette::Dark => [0xa7, 0xf3, 0xd0],
    };
    [
        ramp_level(start[0], end[0], place, small),
        ramp_level(start[1], end[1], place, small),
        ramp_level(start[2], end[2], place, small),
    ]
}

/// Resolve a normalized position on the theme-default spatial color ramp.
pub fn spatial_theme_default_color_at<
    C: Fn(Arithmetic) -> Real,
    S: Fn(SingleArithmetic) -> Single,
>(position: Real, palette: Palette, calc: &C, small: &S) -> (r: [Single; 3])
    requires
        calculates(*calc),
        consistent::<SingleArithmetic, Single, S>(*small),
    ensures
        forall|i: int|
            0 <= i < 3 ==> #[trigger] r[i] == theme_channel(
                ramp_bucket(position, answers(*calc)),
                palette,
                i,
                function_of::<SingleArithmetic, Single, S>(*small),
            ),
{
    spatial_theme_default_color(spatial_theme_default_bucket(position, calc), palette, small)
}

/// The byte of a channel between zero and one.
pub open spec fn byte_of(
    channel: Single,
    ev: spec_fn(Arithmetic) -> Real,
    sv: spec_fn(SingleArithmetic) -> Single,
) -> int {
    let scaled = sv(
        SingleArithmetic::Product(
            channel.within(Single { bits: 0 }, Single { bits: SINGLE_ONE_BITS }),
            Single { bits: SINGLE_BYTE_LIMIT_BITS },
        ),
    );
    ev(Arithmetic::Widened(sv(SingleArithmetic::Rounded(scaled)).bits)).floor_up_to(255)
}

pub fn channel_byte<C: Fn(Arithmetic) -> Real, S: Fn(SingleArithmetic) -> Single>(
    channel: Single,
    calc: &C,
    small: &S,
) -> (r: u8)
    requires
        calculates(*calc),
        consistent::<SingleArithmetic, Single, S>(*small),
    ensures
        r == byte_of(
            channel,
            answers(*calc),
            function_of::<SingleArithmetic, Single, S>(*small),
        ),
{
    let inside: Single = channel.clamp(Single { bits: 0 }, Single { bits: SINGLE_ONE_BITS });
    let scaled: Single = ask(
        small,
        SingleArithmetic::Product(inside, Single { bits: SINGLE_BYTE_LIMIT_BITS }),
    );
    let rounded: Single = ask(small, SingleArithmetic::Rounded(scaled));
    let level: usize = calculate(calc, Arithmetic::Widened(rounded.bits)).floored(255);
    level as u8
}

/// The colours of the ramps as bytes, by bucket.
pub open spec fn theme_bytes(
    ev: spec_fn(Arithmetic) -> Real,
    sv: spec_fn(SingleArithmetic) -> Single,
) -> spec_fn(usize, Palette) -> [u8; 3] {
    |bucket: usize, palette: Palette|
        [
            byte_of(theme_channel(bucket as int, palette, 0, sv), ev, sv) as u8,
            byte_of(theme_channel(bucket as int, palette, 1, sv), ev, sv) as u8,
            byte_of(theme_channel(bucket as int, palette, 2, sv), ev, sv) as u8,
        ]
}

/// Resolve a normalized spatial palette position to byte components.
pub fn spatial_theme_default_rgb8_at<
    C: Fn(Arithmetic) -> Real,
    S: Fn(SingleArithmetic) -> Single,
>(position: Real, palette: Palette, calc: &C, small: &S) -> (r: [u8; 3])
    requires
        calculates(*calc),
        consistent::<SingleArithmetic, Single, S>(*small),
    ensures
        r == theme_bytes(
            answers(*calc),
            function_of::<SingleArithmetic, Single, S>(*small),
        )(ramp_bucket(position, answers(*calc)) as usize, palette),
{
    let ghost ev = answers(*calc);
    let ghost sv = function_of::<SingleArithmetic, Single, S>(*small);
    let bucket: usize = spatial_theme_default_bucket(position, calc);
    let color: [Single; 3] = spatial_theme_default_color(bucket, palette, small);
    assert(color[0] == theme_channel(bucket as int, palette, 0, sv));
    assert(color[1] == theme_channel(bucket as int, palette, 1, sv));
    assert(color[2] == theme_channel(bucket as int, palette, 2, sv));
    let rgb: [u8; 3] = [
        channel_byte(color[0], calc, small),
        channel_byte(color[1], calc, small),
        channel_byte(color[2], calc, small),
    ];
    assert(rgb@ =~= theme_bytes(ev, sv)(bucket, palette)@);
    assert(rgb =~= theme_bytes(ev, sv)(bucket, palette));
    rgb
}

/// The share of background at a depth.
pub open spec fn fog_at(near_depth: Real, ev: spec_fn(Arithmetic) -> Real) -> Real {
    let far = Real { bits: SPATIAL_FAR_FOG_BITS };
    let near = Real { bits: SPATIAL_NEAR_FOG_BITS };
    ev(
        Arithmetic::Sum(
            far,
            ev(Arithmetic::Product(ev(Arithmetic::Difference(near, far)), near_depth)),
        ),
    )
}

/// A sample of light, with what stands in for one that is not finite.
pub open spec fn usable_light(light: Real) -> Real {
    bounded_or(light, Real { bits: 0 }, Real { bits: ONE_BITS }, Real { bits: ONE_BITS })
}

/// A sample of depth, with what stands in for one that is not finite.
pub open spec fn usable_depth(near_depth: Real) -> Real {
    bounded_or(near_depth, Real { bits: 0 }, Real { bits: ONE_BITS }, Real { bits: HALF_BITS })
}

/// A channel under light, behind fog.
pub open spec fn lit_channel(
    base: Single,
    background: Single,
    light: Real,
    near_depth: Real,
    ev: spec_fn(Arithmetic) -> Real,
    sv: spec_fn(SingleArithmetic) -> Single,
) -> Single {
    let glow = sv(SingleArithmetic::Narrowed(usable_light(light)));
    let fog = sv(SingleArithmetic::Narrowed(fog_at(usable_depth(near_depth), ev)));
    let lit = sv(SingleArithmetic::Product(linear_of(unit_or_zero(base), sv), glow)).within(
        Single { bits: 0 },
        Single { bits: SINGLE_ONE_BITS },
    );
    let behind = linear_of(unit_or_zero(background), sv);
    encoded_of(
        sv(
            SingleArithmetic::Sum(
                lit,
                sv(SingleArithmetic::Product(sv(SingleArithmetic::Difference(behind, lit)), fog)),
            ),
        ),
        sv,
    )
}

fn shade<S: Fn(SingleArithmetic) -> Single>(
    base: Single,
    background: Single,
    glow: Single,
    fog: Single,
    small: &S,
) -> (r: Single)
    requires
        consistent::<SingleArithmetic, Single, S>(*small),
    ensures
        ({
            let sv = function_of::<SingleArithmetic, Single, S>(*small);
            let lit = sv(
                SingleArithmetic::Product(linear_of(unit_or_zero(base), sv), glow),
            ).within(Single { bits: 0 }, Single { bits: SINGLE_ONE_BITS });
            let behind = linear_of(unit_or_zero(background), sv);
            r == encoded_of(
                sv(
                    SingleArithmetic::Sum(
                        lit,
                        sv(
                            SingleArithmetic::Product(
                                sv(SingleArithmetic::Difference(behind, lit)),
                                fog,
                            ),
                        ),
                    ),
                ),
                sv,
            )
        }),
{
    let linear: Single = srgb_to_linear(finite_unit_or_zero(base), small);
    let lit: Single = ask(small, SingleArithmetic::Product(linear, glow)).clamp(
        Single { bits: 0 },
        Single { bits: SINGLE_ONE_BITS },
    );
    let behind: Single = srgb_to_linear(finite_unit_or_zero(background), small);
    let apart: Single = ask(small, SingleArithmetic::Difference(behind, lit));
    let part: Single = ask(small, SingleArithmetic::Product(apart, fog));
    linear_to_srgb(ask(small, SingleArithmetic::Sum(lit, part)), small)
}

/// Apply shared opaque rod lighting and depth fog to a spatial stroke color.
///
/// `light` is the ambient-plus-directional response of the camera, and
/// `near_depth` runs from zero at the back of the fitted sphere to one at its
/// front. Shading and fog happen in linear light. Invalid input is replaced
/// with finite, bounded defaults; alpha is absent, so that depth-buffered and
/// painter-sorted targets agree.
pub fn spatial_lit_color<C: Fn(Arithmetic) -> Real, S: Fn(SingleArithmetic) -> Single>(
    base: [Single; 3],
    background: [Single; 3],
    light: Real,
    near_depth: Real,
    calc: &C,
    small: &S,
) -> (r: [Single; 3])
    requires
        calculates(*calc),
        consistent::<SingleArithmetic, Single, S>(*small),
    ensures
        forall|i: int|
            0 <= i < 3 ==> #[trigger] r[i] == lit_channel(
                base[i],
                background[i],
                light,
                near_depth,
                answers(*calc),
                function_of::<SingleArithmetic, Single, S>(*small),
            ),
{
    let bounded: Real = finite_unit_or(light, Real { bits: ONE_BITS });
    let glow: Single = ask(small, SingleArithmetic::Narrowed(bounded));
    let depth: Real = finite_unit_or(near_depth, Real { bits: HALF_BITS });
    let far: Real = Real { bits: SPATIAL_FAR_FOG_BITS };
    let near: Real = Real { bits: SPATIAL_NEAR_FOG_BITS };
    let range: Real = calculate(calc, Arithmetic::Difference(near, far));
    let share: Real = calculate(calc, Arithmetic::Product(range, depth));
    let total: Real = calculate(calc, Arithmetic::Sum(far, share));
    let fog: Single = ask(small, SingleArithmetic::Narrowed(total));
    [
        shade(base[0], background[0], glow, fog, small),
        shade(base[1], background[1], glow, fog, small),
        shade(base[2], background[2], glow, fog, small),
    ]
}

/// The level of light that a sample is drawn with.
pub open spec fn light_level(light: Real, ev: spec_fn(Arithmetic) -> Real) -> Real {
    let low = Real { bits: SPATIAL_SOFTWARE_MIN_LIGHT_BITS };
    let one = Real { bits: ONE_BITS };
    quantized(bounded_or(light, low, one, one), low, one, SPATIAL_SOFTWARE_LIGHT_BUCKETS, ev)
}

/// The level of depth that a sample is drawn with.
pub open spec fn depth_level(near_depth: Real, ev: spec_fn(Arithmetic) -> Real) -> Real {
    let zero = Real { bits: 0 };
    let one = Real { bits: ONE_BITS };
    quantized(
        bounded_or(near_depth, zero, one, Real { bits: HALF_BITS }),
        zero,
        one,
        SPATIAL_SOFTWARE_DEPTH_BUCKETS,
        ev,
    )
}

/// Apply spatial lighting after bounding it to the shared software/export grid.
///
/// Eight light levels and sixteen near-depth levels bound the number of stroke
/// colors. Canvas renderers can consequently retain path batching, and
/// separately written SVG encoders produce identical colors.
pub fn spatial_lit_color_bounded<C: Fn(Arithmetic) -> Real, S: Fn(SingleArithmetic) -> Single>(
    base: [Single; 3],
    background: [Single; 3],
    light: Real,
    near_depth: Real,
    calc: &C,
    small: &S,
) -> (r: [Single; 3])
    requires
        calculates(*calc),
        consistent::<SingleArithmetic, Single, S>(*small),
    ensures
        forall|i: int|
            0 <= i < 3 ==> #[trigger] r[i] == lit_channel(
                base[i],
                background[i],
                light_level(light, answers(*calc)),
                depth_level(near_depth, answers(*calc)),
                answers(*calc),
                function_of::<SingleArithmetic, Single, S>(*small),
            ),
{
    let light: Real = bounded_light(light, calc);
    let near_depth: Real = bounded_depth(near_depth, calc);
    spatial_lit_color(base, background, light, near_depth, calc, small)
}

/// Samples that are not finite are drawn like full light in the middle, and
/// samples beyond the limits like the limits.
pub proof fn unusable_samples_have_stand_ins(
    base: Single,
    background: Single,
    light: Real,
    near_depth: Real,
    ev: spec_fn(Arithmetic) -> Real,
    sv: spec_fn(SingleArithmetic) -> Single,
)
    ensures
        lit_channel(base, background, light, near_depth, ev, sv) == lit_channel(
            unit_or_zero(base),
            unit_or_zero(background),
            usable_light(light),
            usable_depth(near_depth),
            ev,
            sv,
        ),
        !light.finite() ==> light_level(light, ev) == light_level(Real { bits: ONE_BITS }, ev),
        !near_depth.finite() ==> depth_level(near_depth, ev) == depth_level(
            Real { bits: HALF_BITS },
            ev,
        ),
        light.finite() && light.below(Real { bits: SPATIAL_SOFTWARE_MIN_LIGHT_BITS })
            ==> light_level(light, ev) == light_level(
            Real { bits: SPATIAL_SOFTWARE_MIN_LIGHT_BITS },
            ev,
        ),
        light.finite() && (Real { bits: ONE_BITS }).below(light) ==> light_level(light, ev)
            == light_level(Real { bits: ONE_BITS }, ev),
{
    assert(unit_or_zero(unit_or_zero(base)) == unit_or_zero(base));
    assert(unit_or_zero(unit_or_zero(background)) == unit_or_zero(background));
    assert(usable_light(usable_light(light)) == usable_light(light));
    assert(usable_depth(usable_depth(near_depth)) == usable_depth(near_depth));
}

/// The channel that a shape has before light falls on it.
pub open spec fn base_channel(
    color: StrokeColor,
    palette_position: Real,
    palette: Palette,
    i: int,
    ev: spec_fn(Arithmetic) -> Real,
    sv: spec_fn(SingleArithmetic) -> Single,
) -> Single {
    match stroke_rgb(color, palette) {
        Some(rgb) => unit_of(rgb[i], sv),
        None => theme_channel(ramp_bucket(palette_position, ev), palette, i, sv),
    }
}

/// The colour that a spatial shape is painted with.
pub fn spatial_appearance_rgb<C: Fn(Arithmetic) -> Real, S: Fn(SingleArithmetic) -> Single>(
    color: StrokeColor,
    palette_position: Real,
    palette: Palette,
    background: [u8; 3],
    light: Real,
    near_depth: Real,
    calc: &C,
    small: &S,
) -> (r: [u8; 3])
    requires
        calculates(*calc),
        consistent::<SingleArithmetic, Single, S>(*small),
    ensures
        forall|i: int|
            0 <= i < 3 ==> #[trigger] r[i] == byte_of(
                lit_channel(
                    base_channel(
                        color,
                        palette_position,
                        palette,
                        i,
                        answers(*calc),
                        function_of::<SingleArithmetic, Single, S>(*small),
                    ),
                    unit_of(
                        background[i],
                        function_of::<SingleArithmetic, Single, S>(*small),
                    ),
                    light_level(light, answers(*calc)),
                    depth_level(near_depth, answers(*calc)),
                    answers(*calc),
                    function_of::<SingleArithmetic, Single, S>(*small),
                ),
                answers(*calc),
                function_of::<SingleArithmetic, Single, S>(*small),
            ),
{
    let base: [Single; 3] = match turtle_stroke_rgb(color, palette) {
        Some(rgb) => normalized_rgb8(rgb, small),
        None => spatial_theme_default_color_at(palette_position, palette, calc, small),
    };
    let behind: [Single; 3] = normalized_rgb8(background, small);
    let lit: [Single; 3] = spatial_lit_color_bounded(base, behind, light, near_depth, calc, small);
    [
        channel_byte(lit[0], calc, small),
        channel_byte(lit[1], calc, small),
        channel_byte(lit[2], calc, small),
    ]
}

} // verus!
