//! Colours of strokes and fills on light and dark backgrounds.

use vstd::prelude::*;
use vstd::string::*;

use crate::config::{byte_value, color_digits, pairs_end_between_characters, rgb_value};
use crate::geometry::StrokeColor;
use crate::number::{answers, calculate, calculates, Arithmetic, Real, HALF_BITS, ONE_BITS};
use crate::text::{
    behind_prefix, char_bytes, digit_char, digit_value, digits_value, hex_pair, push_hex_pair,
    text_bytes, trimmed, trimmed_start,
};

verus! {

#[derive(Debug, Clone, Copy, PartialEq, Eq, Structural)]
pub enum Palette {
    Light,
    Dark,
}

/// Number of discrete colors in the theme-default spatial stroke ramp.
///
/// Keeping this bounded lets software renderers batch nearby colors while the
/// endpoints remain identical across live displays, SVG exports, and preset
/// previews.
pub const SPATIAL_THEME_DEFAULT_COLOR_BUCKETS: usize = 48;

/// Directional-light levels used by software renderers and vector exports.
pub const SPATIAL_SOFTWARE_LIGHT_BUCKETS: usize = 8;

/// Near-to-far levels used by software renderers and vector exports.
pub const SPATIAL_SOFTWARE_DEPTH_BUCKETS: usize = 16;

/// The colours of a palette on a light background.
pub open spec fn light_colors() -> Seq<[u8; 3]> {
    seq![
        [37u8, 99, 235],
        [124u8, 58, 237],
        [219u8, 39, 119],
        [220u8, 38, 38],
        [234u8, 88, 12],
        [202u8, 138, 4],
        [22u8, 163, 74],
        [13u8, 148, 136],
        [8u8, 145, 178],
        [79u8, 70, 229],
        [147u8, 51, 234],
        [71u8, 85, 105],
    ]
}

/// The colours of a palette on a dark background.
pub open spec fn dark_colors() -> Seq<[u8; 3]> {
    seq![
        [96u8, 165, 250],
        [167u8, 139, 250],
        [244u8, 114, 182],
        [251u8, 113, 133],
        [251u8, 146, 60],
        [250u8, 204, 21],
        [74u8, 222, 128],
        [45u8, 212, 191],
        [34u8, 211, 238],
        [129u8, 140, 248],
        [192u8, 132, 252],
        [203u8, 213, 225],
    ]
}

pub open spec fn palette_colors(palette: Palette) -> Seq<[u8; 3]> {
    match palette {
        Palette::Light => light_colors(),
        Palette::Dark => dark_colors(),
    }
}

/// The colour that was explicitly selected, if one was.
pub open spec fn stroke_rgb(color: StrokeColor, palette: Palette) -> Option<[u8; 3]> {
    match color {
        StrokeColor::ThemeDefault => None,
        StrokeColor::Rgb(rgb) => Some(rgb),
        StrokeColor::PaletteIndex(index) => Some(palette_colors(palette)[index as int % 12]),
    }
}

fn light_color(place: usize) -> (r: [u8; 3])
    requires
        place < 12,
    ensures
        r == light_colors()[place as int],
{
    match place {
        0 => [37, 99, 235],
        1 => [124, 58, 237],
        2 => [219, 39, 119],
        3 => [220, 38, 38],
        4 => [234, 88, 12],
        5 => [202, 138, 4],
        6 => [22, 163, 74],
        7 => [13, 148, 136],
        8 => [8, 145, 178],
        9 => [79, 70, 229],
        10 => [147, 51, 234],
        _ => [71, 85, 105],
    }
}

fn dark_color(place: usize) -> (r: [u8; 3])
    requires
        place < 12,
    ensures
        r == dark_colors()[place as int],
{
    match place {
        0 => [96, 165, 250],
        1 => [167, 139, 250],
        2 => [244, 114, 182],
        3 => [251, 113, 133],
        4 => [251, 146, 60],
        5 => [250, 204, 21],
        6 => [74, 222, 128],
        7 => [45, 212, 191],
        8 => [34, 211, 238],
        9 => [129, 140, 248],
        10 => [192, 132, 252],
        _ => [203, 213, 225],
    }
}

/// Resolve an explicitly selected turtle color. `ThemeDefault` returns `None`
/// so each target can retain its established default treatment.
pub fn turtle_stroke_rgb(color: StrokeColor, palette: Palette) -> (r: Option<[u8; 3]>)
    ensures
        r == stroke_rgb(color, palette),
{
    match color {
        StrokeColor::ThemeDefault => None,
        StrokeColor::Rgb(rgb) => Some(rgb),
        StrokeColor::PaletteIndex(index) => {
            let place: usize = index as usize % 12;
            Some(
                match palette {
                    Palette::Light => light_color(place),
                    Palette::Dark => dark_color(place),
                },
            )
        },
    }
}

/// Palette indices go round after twelve colours.
pub proof fn palette_indices_repeat(index: u16, later: u16, palette: Palette)
    requires
        later == index + 12,
    ensures
        stroke_rgb(StrokeColor::PaletteIndex(index), palette) == stroke_rgb(
            StrokeColor::PaletteIndex(later),
            palette,
        ),
{
}

/// The two palettes share no colour: what is chosen for a light background is
/// never chosen for a dark one.
pub proof fn palettes_differ(index: u16)
    ensures
        stroke_rgb(StrokeColor::PaletteIndex(index), Palette::Light) != stroke_rgb(
            StrokeColor::PaletteIndex(index),
            Palette::Dark,
        ),
{
    let place = index as int % 12;
    let (light, dark) = (light_colors()[place], dark_colors()[place]);
    assert(light[0] != dark[0]);
}

/// A colour as `#` and six hexadecimal digits.
pub open spec fn hex_text(rgb: [u8; 3]) -> Seq<char> {
    seq!['#'] + hex_pair(rgb[0] as int) + hex_pair(rgb[1] as int) + hex_pair(rgb[2] as int)
}

pub fn rgb_hex(rgb: [u8; 3]) -> (r: String)
    ensures
        r@ == hex_text(rgb),
{
    let mut out: String = String::new();
    out.push('#');
    push_hex_pair(&mut out, rgb[0]);
    push_hex_pair(&mut out, rgb[1]);
    push_hex_pair(&mut out, rgb[2]);
    assert(out@ =~= hex_text(rgb));
    out
}

/// A letter from `a` to `z` as a capital letter, and anything else as it is.
pub open spec fn capital(c: char) -> char {
    if 0x61 <= c as int <= 0x7a {
        ((c as int - 0x20) as u8) as char
    } else {
        c
    }
}

/// A text in capital letters.
pub open spec fn capitals(s: Seq<char>) -> Seq<char> {
    s.map_values(|c: char| capital(c))
}

/// One of the six half bytes of a colour.
spec fn nibble(rgb: [u8; 3], i: int) -> int {
    if i % 2 == 0 {
        rgb[i / 2] as int / 16
    } else {
        rgb[i / 2] as int % 16
    }
}

proof fn lemma_pair_reads(digits: Seq<char>, at: int, byte: u8)
    requires
        0 <= at,
        at + 2 <= digits.len(),
        digit_value(digits[at]) == Some(byte as int / 16),
        digit_value(digits[at + 1]) == Some(byte as int % 16),
    ensures
        byte_value(digits.subrange(at, at + 2), 16) == Some(byte),
{
    let pair = digits.subrange(at, at + 2);
    assert(pair[0] == digits[at] && pair[1] == digits[at + 1]);
    assert(pair.drop_last() =~= seq![digits[at]]);
    assert(pair.drop_last().drop_last() =~= Seq::empty());
    assert(digits_value(pair.drop_last().drop_last(), 16) == 0);
    assert(pair.drop_last().last() == digits[at]);
    assert(digits_value(pair.drop_last(), 16) == byte as int / 16);
    assert(digits_value(pair, 16) == (byte as int / 16) * 16 + byte as int % 16);
}

proof fn lemma_six_digits_read(value: Seq<char>, digits: Seq<char>, rgb: [u8; 3])
    requires
        value == digits || value == seq!['#'] + digits,
        digits.len() == 6,
        forall|i: int|
            0 <= i < 6 ==> digit_value(#[trigger] digits[i]) == Some(nibble(rgb, i)),
    ensures
        pairs_end_between_characters(value),
        rgb_value(value) == Some(rgb),
{
    assert(digit_value(digits[0]) is Some && digit_value(digits[5]) is Some);
    assert(value[0] == '#' || value[0] == digits[0]);
    assert(value.last() == digits[5]);
    assert(trimmed_start(value) == value);
    assert(trimmed(value) == value);
    if value == digits {
        assert(value.subrange(0, 1)[0] != '#');
        assert(seq!['#'][0] == '#');
        assert(behind_prefix(value, seq!['#']) is None);
    } else {
        assert(value.subrange(0, 1) =~= seq!['#']);
        assert(value.subrange(1, value.len() as int) =~= digits);
    }
    assert(color_digits(value) == digits);
    assert forall|k: int| 0 <= k <= 6 implies #[trigger] text_bytes(digits.subrange(0, k)) == k by {
        lemma_digits_are_bytes(digits, k);
    }
    assert(digits.subrange(0, 6) =~= digits);
    assert(text_bytes(digits.subrange(0, 2)) == 2);
    assert(text_bytes(digits.subrange(0, 4)) == 4);
    lemma_pair_reads(digits, 0, rgb[0]);
    lemma_pair_reads(digits, 2, rgb[1]);
    lemma_pair_reads(digits, 4, rgb[2]);
    let read = [rgb[0], rgb[1], rgb[2]];
    assert(read@ =~= rgb@);
    assert(read =~= rgb);
}

proof fn lemma_digits_are_bytes(digits: Seq<char>, k: int)
    requires
        digits.len() == 6,
        0 <= k <= 6,
        forall|i: int| 0 <= i < 6 ==> digit_value(#[trigger] digits[i]) is Some,
    ensures
        text_bytes(digits.subrange(0, k)) == k,
    decreases k,
{
    if k > 0 {
        lemma_digits_are_bytes(digits, k - 1);
        let part = digits.subrange(0, k);
        assert(part.drop_last() =~= digits.subrange(0, k - 1));
        assert(part.last() == digits[k - 1]);
        assert(char_bytes(part.last()) == 1);
    }
}

/// A colour that was written reads back, with or without the number sign and
/// in small or in capital letters.
pub proof fn written_colors_read_back(rgb: [u8; 3])
    ensures
        ({
            let s = hex_text(rgb);
            &&& s.len() == 7
            &&& pairs_end_between_characters(s) && rgb_value(s) == Some(rgb)
            &&& pairs_end_between_characters(s.subrange(1, 7)) && rgb_value(s.subrange(1, 7))
                == Some(rgb)
            &&& pairs_end_between_characters(capitals(s)) && rgb_value(capitals(s)) == Some(rgb)
        }),
{
    let s = hex_text(rgb);
    let digits = s.subrange(1, 7);
    assert(s =~= seq!['#'] + digits);
    assert forall|i: int| 0 <= i < 6 implies digit_value(#[trigger] digits[i]) == Some(
        nibble(rgb, i),
    ) by {
        assert(digits[i] == digit_char(nibble(rgb, i)));
    }
    lemma_six_digits_read(s, digits, rgb);
    lemma_six_digits_read(digits, digits, rgb);
    let large = capitals(digits);
    assert(capitals(s) =~= seq!['#'] + large);
    assert forall|i: int| 0 <= i < 6 implies digit_value(#[trigger] large[i]) == Some(
        nibble(rgb, i),
    ) by {
        assert(large[i] == capital(digits[i]));
        assert(digit_value(digits[i]) == Some(nibble(rgb, i)));
    }
    lemma_six_digits_read(capitals(s), large, rgb);
}

/// A finite value moved into limits, or something else in its place.
pub open spec fn bounded_or(value: Real, minimum: Real, maximum: Real, fallback: Real) -> Real {
    if value.finite() {
        value.within(minimum, maximum)
    } else {
        fallback
    }
}

pub fn finite_bounded_or(value: Real, minimum: Real, maximum: Real, fallback: Real) -> (r: Real)
    requires
        minimum.at_most(maximum),
    ensures
        r == bounded_or(value, minimum, maximum, fallback),
{
    if value.is_finite() {
        value.clamp(minimum, maximum)
    } else {
        fallback
    }
}

pub fn finite_unit_or(value: Real, fallback: Real) -> (r: Real)
    ensures
        r == bounded_or(value, Real { bits: 0 }, Real { bits: ONE_BITS }, fallback),
{
    finite_bounded_or(value, Real { bits: 0 }, Real { bits: ONE_BITS }, fallback)
}

/// The bucket of a position between zero and one.
pub open spec fn ramp_bucket(position: Real, ev: spec_fn(Arithmetic) -> Real) -> int {
    let place = bounded_or(
        position,
        Real { bits: 0 },
        Real { bits: ONE_BITS },
        Real { bits: HALF_BITS },
    );
    ev(
        Arithmetic::Product(
            place,
            ev(Arithmetic::Count(SPATIAL_THEME_DEFAULT_COLOR_BUCKETS)),
        ),
    ).floor_up_to(SPATIAL_THEME_DEFAULT_COLOR_BUCKETS - 1)
}

/// Convert a normalized spatial palette position into its bounded bucket.
///
/// Non-finite positions select the middle of the ramp. The final bucket is
/// reachable at exactly one, so both declared endpoints are retained.
pub fn spatial_theme_default_bucket<C: Fn(Arithmetic) -> Real>(position: Real, calc: &C) -> (r:
    usize)
    requires
        calculates(*calc),
    ensures
        r == ramp_bucket(position, answers(*calc)),
        r < SPATIAL_THEME_DEFAULT_COLOR_BUCKETS,
{
    let place: Real = finite_unit_or(position, Real { bits: HALF_BITS });
    let buckets: Real = calculate(calc, Arithmetic::Count(SPATIAL_THEME_DEFAULT_COLOR_BUCKETS));
    let scaled: Real = calculate(calc, Arithmetic::Product(place, buckets));
    scaled.floored(SPATIAL_THEME_DEFAULT_COLOR_BUCKETS - 1)
}

/// The nearest of so many levels between two values, both of them included.
pub open spec fn quantized(
    value: Real,
    minimum: Real,
    maximum: Real,
    buckets: usize,
    ev: spec_fn(Arithmetic) -> Real,
) -> Real {
    let intervals = ev(Arithmetic::Count((buckets - 1) as usize));
    let span = ev(Arithmetic::Difference(maximum, minimum));
    let normalized = ev(
        Arithmetic::Quotient(ev(Arithmetic::Difference(value, minimum)), span),
    ).within(Real { bits: 0 }, Real { bits: ONE_BITS });
    let level = ev(
        Arithmetic::Quotient(
            ev(Arithmetic::Rounded(ev(Arithmetic::Product(normalized, intervals)))),
            intervals,
        ),
    );
    ev(Arithmetic::Sum(minimum, ev(Arithmetic::Product(level, span))))
}

pub fn quantize_to_endpoints<C: Fn(Arithmetic) -> Real>(
    value: Real,
    minimum: Real,
    maximum: Real,
    buckets: usize,
    calc: &C,
) -> (r: Real)
    requires
        calculates(*calc),
        buckets >= 2,
    ensures
        r == quantized(value, minimum, maximum, buckets, answers(*calc)),
{
    let intervals: Real = calculate(calc, Arithmetic::Count(buckets - 1));
    let span: Real = calculate(calc, Arithmetic::Difference(maximum, minimum));
    let above: Real = calculate(calc, Arithmetic::Difference(value, minimum));
    let normalized: Real = calculate(calc, Arithmetic::Quotient(above, span)).clamp(
        Real { bits: 0 },
        Real { bits: ONE_BITS },
    );
    let scaled: Real = calculate(calc, Arithmetic::Product(normalized, intervals));
    let rounded: Real = calculate(calc, Arithmetic::Rounded(scaled));
    let level: Real = calculate(calc, Arithmetic::Quotient(rounded, intervals));
    let part: Real = calculate(calc, Arithmetic::Product(level, span));
    calculate(calc, Arithmetic::Sum(minimum, part))
}

/// The pattern of the lowest level of light, 0.68.
pub const SPATIAL_SOFTWARE_MIN_LIGHT_BITS: u64 = 0x3fe5_c28f_5c28_f5c3;

/// The level of light that a sample is drawn with.
pub fn bounded_light<C: Fn(Arithmetic) -> Real>(light: Real, calc: &C) -> (r: Real)
    requires
        calculates(*calc),
    ensures
        r == quantized(
            bounded_or(
                light,
                Real { bits: SPATIAL_SOFTWARE_MIN_LIGHT_BITS },
                Real { bits: ONE_BITS },
                Real { bits: ONE_BITS },
            ),
            Real { bits: SPATIAL_SOFTWARE_MIN_LIGHT_BITS },
            Real { bits: ONE_BITS },
            SPATIAL_SOFTWARE_LIGHT_BUCKETS,
            answers(*calc),
        ),
{
    let low: Real = Real { bits: SPATIAL_SOFTWARE_MIN_LIGHT_BITS };
    let one: Real = Real { bits: ONE_BITS };
    let value: Real = finite_bounded_or(light, low, one, one);
    quantize_to_endpoints(value, low, one, SPATIAL_SOFTWARE_LIGHT_BUCKETS, calc)
}

/// The level of depth that a sample is drawn with.
pub fn bounded_depth<C: Fn(Arithmetic) -> Real>(near_depth: Real, calc: &C) -> (r: Real)
    requires
        calculates(*calc),
    ensures
        r == quantized(
            bounded_or(
                near_depth,
                Real { bits: 0 },
                Real { bits: ONE_BITS },
                Real { bits: HALF_BITS },
            ),
            Real { bits: 0 },
            Real { bits: ONE_BITS },
            SPATIAL_SOFTWARE_DEPTH_BUCKETS,
            answers(*calc),
        ),
{
    let zero: Real = Real { bits: 0 };
    let one: Real = Real { bits: ONE_BITS };
    let value: Real = finite_bounded_or(near_depth, zero, one, Real { bits: HALF_BITS });
    quantize_to_endpoints(value, zero, one, SPATIAL_SOFTWARE_DEPTH_BUCKETS, calc)
}

} // verus!
