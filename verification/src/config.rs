//! Visualizer configurations, and the metadata comments that set them.

use std::time::Duration;

use vstd::prelude::*;
use vstd::slice::slice_subrange;

use crate::geometry::StrokeColor;
use crate::kind::VisualizerKind;
use crate::number::{
    answers, calculate, calculates, Arithmetic, Real, DEGREE_BITS, HALF_PI_BITS, ONE_BITS,
};
use crate::text::{
    behind_prefix, char_width, chars_of, fields_of, lemma_bytes_at_least, lines_of, list_separators,
    next_line, parse_i32, parse_unsigned, parted, same_chars, signed_value, split_list, split_once,
    split_words, string_of, strip_prefix, text_bytes, texts, trim, trim_start, trimmed,
    trimmed_start, unsigned_value, word_separators,
};

verus! {

/// A reader of numbers answers every text, and equal texts alike.
pub open spec fn reads<P: Fn(String) -> Option<Real>>(read: P) -> bool {
    &&& forall|s: String| #[trigger] call_requires(read, (s,))
    &&& forall|s: String, t: String, a: Option<Real>, b: Option<Real>|
        s@ == t@ && #[trigger] call_ensures(read, (s,), a) && #[trigger] call_ensures(
            read,
            (t,),
            b,
        ) ==> a == b
}

/// A reader may answer `r` on a text.
pub open spec fn may_read<P: Fn(String) -> Option<Real>>(
    read: P,
    text: Seq<char>,
    r: Option<Real>,
) -> bool {
    exists|s: String| s@ == text && #[trigger] call_ensures(read, (s,), r)
}

/// What a reader of numbers answers, as a function of the characters.
pub open spec fn readings<P: Fn(String) -> Option<Real>>(read: P) -> spec_fn(Seq<char>) -> Option<
    Real,
> {
    |text: Seq<char>| choose|r: Option<Real>| may_read(read, text, r)
}

/// Ask a reader for the number that a text writes.
pub fn read_number<P: Fn(String) -> Option<Real>>(read: &P, text: &[char]) -> (r: Option<Real>)
    requires
        reads(*read),
    ensures
        r == readings(*read)(text@),
{
    let s: String = string_of(text);
    let r = read(s);
    assert(may_read(*read, text@, r));
    r
}

/// The first answer that a question gets from some lines.
pub open spec fn first_of<T>(
    lines: Seq<Seq<char>>,
    question: spec_fn(Seq<char>) -> Option<T>,
) -> Option<T>
    decreases lines.len(),
{
    if lines.len() == 0 {
        None
    } else {
        match question(lines[0]) {
            Some(answer) => Some(answer),
            None => first_of(lines.subrange(1, lines.len() as int), question),
        }
    }
}

/// The value that a comment line gives to a key.
pub open spec fn line_value(line: Seq<char>, key: Seq<char>) -> Option<Seq<char>> {
    match behind_prefix(trimmed_start(line), "# "@) {
        Some(rest) => match parted(rest, ':') {
            Some((found, value)) => if trimmed(found) == key {
                Some(trimmed(value))
            } else {
                None
            },
            None => None,
        },
        None => None,
    }
}

/// The value that a source gives to a key in the first comment that names it.
pub open spec fn metadata_value(source: Seq<char>, key: Seq<char>) -> Option<Seq<char>> {
    first_of(lines_of(source), |line: Seq<char>| line_value(line, key))
}

pub fn metadata<'a>(source: &'a [char], key: &str) -> (r: Option<&'a [char]>)
    ensures
        match r {
            Some(value) => metadata_value(source@, key@) == Some(value@),
            None => metadata_value(source@, key@) is None,
        },
{
    let key_chars: Vec<char> = chars_of(key);
    let prefix: Vec<char> = chars_of("# ");
    let mut rest: &'a [char] = source;
    let ghost question = |line: Seq<char>| line_value(line, key@);
    while rest.len() > 0
        invariant
            prefix@ == "# "@,
            key_chars@ == key@,
            question == (|line: Seq<char>| line_value(line, key@)),
            first_of(lines_of(source@), question) == first_of(lines_of(rest@), question),
        decreases rest.len(),
    {
        let (line, behind) = next_line(rest);
        let ghost all = lines_of(rest@);
        assert(all[0] == line@);
        assert(all.subrange(1, all.len() as int) =~= lines_of(behind@));
        match strip_prefix(trim_start(line), prefix.as_slice()) {
            Some(comment) => {
                match split_once(comment, ':') {
                    Some((found, value)) => {
                        if same_chars(trim(found), key_chars.as_slice()) {
                            return Some(trim(value));
                        }
                    },
                    None => {},
                }
            },
            None => {},
        }
        rest = behind;
    }
    None
}

/// The number that a source gives to a key.
pub open spec fn numeric_value(
    source: Seq<char>,
    key: Seq<char>,
    rd: spec_fn(Seq<char>) -> Option<Real>,
) -> Option<Real> {
    match metadata_value(source, key) {
        Some(value) => rd(value),
        None => None,
    }
}

pub fn numeric_metadata<P: Fn(String) -> Option<Real>>(
    source: &[char],
    key: &str,
    read: &P,
) -> (r: Option<Real>)
    requires
        reads(*read),
    ensures
        r == numeric_value(source@, key@, readings(*read)),
{
    match metadata(source, key) {
        Some(value) => read_number(read, value),
        None => None,
    }
}

/// A text without the semicolon at its end.
pub open spec fn without_semicolon(s: Seq<char>) -> Option<Seq<char>> {
    if s.len() > 0 && s.last() == ';' {
        Some(s.drop_last())
    } else {
        None
    }
}

/// The number that a line binds to a name: `let NAME = number;`.
pub open spec fn constant_value(
    line: Seq<char>,
    name: Seq<char>,
    rd: spec_fn(Seq<char>) -> Option<Real>,
) -> Option<Real> {
    match behind_prefix(trimmed(line), "let "@) {
        Some(rest) => match parted(rest, '=') {
            Some((found, value)) => if trimmed(found) == name {
                match without_semicolon(trimmed(value)) {
                    Some(number) => rd(trimmed(number)),
                    None => None,
                }
            } else {
                None
            },
            None => None,
        },
        None => None,
    }
}

pub fn named_numeric_constant<P: Fn(String) -> Option<Real>>(
    source: &[char],
    name: &str,
    read: &P,
) -> (r: Option<Real>)
    requires
        reads(*read),
    ensures
        r == first_of(
            lines_of(source@),
            |line: Seq<char>| constant_value(line, name@, readings(*read)),
        ),
{
    let name_chars: Vec<char> = chars_of(name);
    let prefix: Vec<char> = chars_of("let ");
    let mut rest: &[char] = source;
    let ghost question = |line: Seq<char>| constant_value(line, name@, readings(*read));
    while rest.len() > 0
        invariant
            reads(*read),
            prefix@ == "let "@,
            name_chars@ == name@,
            question == (|line: Seq<char>| constant_value(line, name@, readings(*read))),
            first_of(lines_of(source@), question) == first_of(lines_of(rest@), question),
        decreases rest.len(),
    {
        let (line, behind) = next_line(rest);
        let ghost all = lines_of(rest@);
        assert(all[0] == line@);
        assert(all.subrange(1, all.len() as int) =~= lines_of(behind@));
        match strip_prefix(trim(line), prefix.as_slice()) {
            Some(binding) => {
                match split_once(binding, '=') {
                    Some((found, value)) => {
                        if same_chars(trim(found), name_chars.as_slice()) {
                            let value: &[char] = trim(value);
                            let n: usize = value.len();
                            if n > 0 && value[n - 1] == ';' {
                                let number: &[char] = slice_subrange(value, 0, n - 1);
                                assert(number@ =~= value@.drop_last());
                                let answer: Option<Real> = read_number(read, trim(number));
                                if answer.is_some() {
                                    return answer;
                                }
                            }
                        }
                    },
                    None => {},
                }
            },
            None => {},
        }
        rest = behind;
    }
    None
}

/// The number behind a label in a note: `# Note: label: number`.
pub open spec fn note_value(
    line: Seq<char>,
    label: Seq<char>,
    rd: spec_fn(Seq<char>) -> Option<Real>,
) -> Option<Real> {
    match behind_prefix(trimmed_start(line), "# Note"@) {
        Some(rest) => match behind_prefix(trimmed_start(rest), seq![':']) {
            Some(text) => match behind_prefix(trimmed(text), label) {
                Some(labelled) => match behind_prefix(trimmed_start(labelled), seq![':']) {
                    Some(value) => {
                        let words = fields_of(value, word_separators());
                        if words.len() > 0 {
                            rd(words[0])
                        } else {
                            None
                        }
                    },
                    None => None,
                },
                None => None,
            },
            None => None,
        },
        None => None,
    }
}

pub fn note_number<P: Fn(String) -> Option<Real>>(
    source: &[char],
    label: &str,
    read: &P,
) -> (r: Option<Real>)
    requires
        reads(*read),
    ensures
        r == first_of(
            lines_of(source@),
            |line: Seq<char>| note_value(line, label@, readings(*read)),
        ),
{
    let label_chars: Vec<char> = chars_of(label);
    let prefix: Vec<char> = chars_of("# Note");
    let colon: Vec<char> = vec![':'];
    let mut rest: &[char] = source;
    let ghost question = |line: Seq<char>| note_value(line, label@, readings(*read));
    assert(colon@ =~= seq![':']);
    while rest.len() > 0
        invariant
            reads(*read),
            prefix@ == "# Note"@,
            colon@ == seq![':'],
            label_chars@ == label@,
            question == (|line: Seq<char>| note_value(line, label@, readings(*read))),
            first_of(lines_of(source@), question) == first_of(lines_of(rest@), question),
        decreases rest.len(),
    {
        let (line, behind) = next_line(rest);
        let ghost all = lines_of(rest@);
        assert(all[0] == line@);
        assert(all.subrange(1, all.len() as int) =~= lines_of(behind@));
        match strip_prefix(trim_start(line), prefix.as_slice()) {
            Some(note) => {
                match strip_prefix(trim_start(note), colon.as_slice()) {
                    Some(text) => {
                        match strip_prefix(trim(text), label_chars.as_slice()) {
                            Some(labelled) => {
                                match strip_prefix(trim_start(labelled), colon.as_slice()) {
                                    Some(value) => {
                                        let words: Vec<&[char]> = split_words(value);
                                        if words.len() > 0 {
                                            let word: &[char] = words[0];
                                            assert(texts(words@)[0] == word@);
                                            let answer: Option<Real> = read_number(read, word);
                                            if answer.is_some() {
                                                return answer;
                                            }
                                        } else {
                                            assert(texts(words@).len() == 0);
                                        }
                                    },
                                    None => {},
                                }
                            },
                            None => {},
                        }
                    },
                    None => {},
                }
            },
            None => {},
        }
        rest = behind;
    }
    None
}

/// The 32-bit integer that a source gives to a key.
pub open spec fn integer_value(source: Seq<char>, key: Seq<char>) -> Option<i32> {
    match metadata_value(source, key) {
        Some(value) => match signed_value(value) {
            Some(v) => if i32::MIN <= v <= i32::MAX {
                Some(v as i32)
            } else {
                None
            },
            None => None,
        },
        None => None,
    }
}

pub fn integer_metadata(source: &[char], key: &str) -> (r: Option<i32>)
    ensures
        r == integer_value(source@, key@),
{
    match metadata(source, key) {
        Some(value) => parse_i32(value),
        None => None,
    }
}

/// Some characters at the start take exactly `n` bytes.
pub open spec fn boundary_at(s: Seq<char>, n: int) -> bool {
    exists|k: int| 0 <= k <= s.len() && #[trigger] text_bytes(s.subrange(0, k)) == n
}

/// The digits of a colour, without the number sign before them.
pub open spec fn color_digits(value: Seq<char>) -> Seq<char> {
    match behind_prefix(trimmed(value), seq!['#']) {
        Some(digits) => digits,
        None => trimmed(value),
    }
}

/// A text of six bytes is read in pairs of bytes, so each pair must end between
/// two characters.
pub open spec fn pairs_end_between_characters(value: Seq<char>) -> bool {
    let digits = color_digits(value);
    text_bytes(digits) == 6 ==> boundary_at(digits, 2) && boundary_at(digits, 4)
}

/// The byte that a text writes in a base.
pub open spec fn byte_value(s: Seq<char>, base: int) -> Option<u8> {
    match unsigned_value(s, base) {
        Some(v) => if v <= 255 {
            Some(v as u8)
        } else {
            None
        },
        None => None,
    }
}

/// Six hexadecimal digits in pairs.
pub open spec fn hex_color(digits: Seq<char>) -> Option<[u8; 3]> {
    match (
        byte_value(digits.subrange(0, 2), 16),
        byte_value(digits.subrange(2, 4), 16),
        byte_value(digits.subrange(4, 6), 16),
    ) {
        (Some(r), Some(g), Some(b)) => Some([r, g, b]),
        _ => None,
    }
}

/// Three decimal bytes.
pub open spec fn channel_color(entries: Seq<Seq<char>>) -> Option<[u8; 3]> {
    if entries.len() == 3 {
        match (byte_value(entries[0], 10), byte_value(entries[1], 10), byte_value(entries[2], 10)) {
            (Some(r), Some(g), Some(b)) => Some([r, g, b]),
            _ => None,
        }
    } else {
        None
    }
}

/// The colour that a text writes: six hexadecimal digits, or three channels.
pub open spec fn rgb_value(value: Seq<char>) -> Option<[u8; 3]> {
    let digits = color_digits(value);
    if text_bytes(digits) == 6 {
        if digits.len() == 6 {
            hex_color(digits)
        } else {
            None
        }
    } else {
        channel_color(fields_of(value, list_separators()))
    }
}

fn utf8_bytes(s: &[char]) -> (r: (u64, bool, bool))
    requires
        s@.len() <= 6,
    ensures
        r.0 == text_bytes(s@),
        r.1 == boundary_at(s@, 2),
        r.2 == boundary_at(s@, 4),
        r.0 >= s@.len(),
{
    let mut total: u64 = 0;
    let mut two: bool = false;
    let mut four: bool = false;
    let mut i: usize = 0;
    assert(s@.subrange(0, 0) =~= Seq::empty());
    while i < s.len()
        invariant
            i <= s@.len() <= 6,
            total == text_bytes(s@.subrange(0, i as int)),
            i <= total <= 4 * i,
            two ==> boundary_at(s@, 2),
            four ==> boundary_at(s@, 4),
            forall|k: int|
                0 <= k <= i && #[trigger] text_bytes(s@.subrange(0, k)) == 2 ==> two,
            forall|k: int|
                0 <= k <= i && #[trigger] text_bytes(s@.subrange(0, k)) == 4 ==> four,
        decreases s@.len() - i,
    {
        let bytes: u64 = char_width(s[i]);
        let ghost next = s@.subrange(0, i + 1);
        assert(next.drop_last() =~= s@.subrange(0, i as int));
        assert(next.last() == s@[i as int]);
        total = total + bytes;
        i = i + 1;
        assert(text_bytes(s@.subrange(0, i as int)) == total);
        if total == 2 {
            two = true;
        }
        if total == 4 {
            four = true;
        }
    }
    assert(s@.subrange(0, i as int) =~= s@);
    (total, two, four)
}

/// The slice of the colour's digits.
fn digits_of_color<'a>(value: &'a [char]) -> (r: &'a [char])
    ensures
        r@ == color_digits(value@),
{
    let sign: Vec<char> = vec!['#'];
    assert(sign@ =~= seq!['#']);
    let trimmed_value: &'a [char] = trim(value);
    match strip_prefix(trimmed_value, sign.as_slice()) {
        Some(digits) => digits,
        None => trimmed_value,
    }
}

/// Whether a colour text can be read in pairs of bytes.
pub fn color_is_readable(value: &[char]) -> (r: bool)
    ensures
        r == pairs_end_between_characters(value@),
{
    let digits: &[char] = digits_of_color(value);
    if digits.len() > 6 {
        proof {
            lemma_bytes_at_least(digits@);
        }
        return true;
    }
    let (total, two, four) = utf8_bytes(digits);
    total != 6 || (two && four)
}

fn parse_byte(s: &[char], base: u64) -> (r: Option<u8>)
    requires
        base == 10 || base == 16,
    ensures
        r == byte_value(s@, base as int),
{
    match parse_unsigned(s, base, 255) {
        Some(v) => Some(v as u8),
        None => None,
    }
}

/// The colour that a text writes.
pub fn parse_rgb(value: &[char]) -> (r: Option<[u8; 3]>)
    requires
        pairs_end_between_characters(value@),
    ensures
        r == rgb_value(value@),
{
    let digits: &[char] = digits_of_color(value);
    let six: bool = if digits.len() > 6 {
        proof {
            lemma_bytes_at_least(digits@);
        }
        false
    } else {
        utf8_bytes(digits).0 == 6
    };
    if six {
        if digits.len() != 6 {
            return None;
        }
        let red: Option<u8> = parse_byte(slice_subrange(digits, 0, 2), 16);
        let green: Option<u8> = parse_byte(slice_subrange(digits, 2, 4), 16);
        let blue: Option<u8> = parse_byte(slice_subrange(digits, 4, 6), 16);
        return match (red, green, blue) {
            (Some(r), Some(g), Some(b)) => Some([r, g, b]),
            _ => None,
        };
    }
    let entries: Vec<&[char]> = split_list(value);
    let ghost fields = fields_of(value@, list_separators());
    assert(texts(entries@) == fields);
    assert(entries@.len() == fields.len());
    if entries.len() != 3 {
        return None;
    }
    assert(entries@[0]@ == texts(entries@)[0]);
    assert(entries@[1]@ == texts(entries@)[1]);
    assert(entries@[2]@ == texts(entries@)[2]);
    match (parse_byte(entries[0], 10), parse_byte(entries[1], 10), parse_byte(entries[2], 10)) {
        (Some(r), Some(g), Some(b)) => Some([r, g, b]),
        _ => None,
    }
}

/// The colours of some entries, when every entry writes one.
pub open spec fn palette_entries(entries: Seq<Seq<char>>) -> Option<Seq<[u8; 3]>>
    decreases entries.len(),
{
    if entries.len() == 0 {
        Some(Seq::empty())
    } else {
        match (palette_entries(entries.drop_last()), rgb_value(entries.last())) {
            (Some(colors), Some(color)) => Some(colors.push(color)),
            _ => None,
        }
    }
}

/// The palette that a text writes.
pub open spec fn palette_value(value: Seq<char>) -> Option<Seq<[u8; 3]>> {
    palette_entries(fields_of(value, list_separators()))
}

/// The entries up to the first that writes no colour can be read.
pub open spec fn palette_readable(value: Seq<char>) -> bool {
    let entries = fields_of(value, list_separators());
    forall|i: int|
        0 <= i < entries.len() && palette_entries(entries.subrange(0, i)) is Some
            ==> pairs_end_between_characters(#[trigger] entries[i])
}

proof fn lemma_palette_prefix(entries: Seq<Seq<char>>, k: int)
    requires
        0 <= k <= entries.len(),
        palette_entries(entries.subrange(0, k)) is None,
    ensures
        palette_entries(entries) is None,
    decreases entries.len(),
{
    if k < entries.len() {
        let init = entries.drop_last();
        assert(init.subrange(0, k) =~= entries.subrange(0, k));
        lemma_palette_prefix(init, k);
    } else {
        assert(entries.subrange(0, k) =~= entries);
    }
}

pub fn parse_palette(value: &[char]) -> (r: Option<Vec<[u8; 3]>>)
    requires
        palette_readable(value@),
    ensures
        match r {
            Some(colors) => palette_value(value@) == Some(colors@),
            None => palette_value(value@) is None,
        },
{
    let entries: Vec<&[char]> = split_list(value);
    let ghost fields = fields_of(value@, list_separators());
    assert(texts(entries@) == fields);
    let mut colors: Vec<[u8; 3]> = Vec::new();
    let mut i: usize = 0;
    assert(fields.subrange(0, 0) =~= Seq::empty());
    while i < entries.len()
        invariant
            i <= entries@.len(),
            texts(entries@) == fields,
            fields == fields_of(value@, list_separators()),
            palette_readable(value@),
            palette_entries(fields.subrange(0, i as int)) == Some(colors@),
        decreases entries@.len() - i,
    {
        let entry: &[char] = entries[i];
        assert(fields[i as int] == entry@);
        let ghost next = fields.subrange(0, i + 1);
        assert(next.drop_last() =~= fields.subrange(0, i as int));
        match parse_rgb(entry) {
            Some(color) => {
                colors.push(color);
            },
            None => {
                proof {
                    lemma_palette_prefix(fields, i + 1);
                }
                return None;
            },
        }
        i = i + 1;
    }
    assert(fields.subrange(0, i as int) =~= fields);
    Some(colors)
}

/// Whether a palette text can be read.
pub fn palette_is_readable(value: &[char]) -> (r: bool)
    ensures
        r == palette_readable(value@),
{
    let entries: Vec<&[char]> = split_list(value);
    let ghost fields = fields_of(value@, list_separators());
    assert(texts(entries@) == fields);
    let mut i: usize = 0;
    assert(fields.subrange(0, 0) =~= Seq::empty());
    while i < entries.len()
        invariant
            i <= entries@.len(),
            texts(entries@) == fields,
            fields == fields_of(value@, list_separators()),
            palette_entries(fields.subrange(0, i as int)) is Some,
            forall|j: int|
                0 <= j < i ==> pairs_end_between_characters(#[trigger] fields[j]),
        decreases entries@.len() - i,
    {
        let entry: &[char] = entries[i];
        assert(fields[i as int] == entry@);
        if !color_is_readable(entry) {
            return false;
        }
        let ghost next = fields.subrange(0, i + 1);
        assert(next.drop_last() =~= fields.subrange(0, i as int));
        if parse_rgb(entry).is_none() {
            assert forall|j: int|
                0 <= j < fields.len() && palette_entries(
                    fields.subrange(0, j),
                ) is Some implies pairs_end_between_characters(#[trigger] fields[j]) by {
                if j > i {
                    let part = fields.subrange(0, j);
                    assert(part.subrange(0, i + 1) =~= next);
                    lemma_palette_prefix(part, i + 1);
                }
            }
            return true;
        }
        i = i + 1;
    }
    true
}

/// The place of a palette index: indices wrap around the palette, or around
/// twelve fallback colours.
pub open spec fn palette_place(index: int, length: int) -> int {
    let span = if length == 0 {
        12
    } else if length > i32::MAX {
        i32::MAX as int
    } else {
        length
    };
    index % span
}

/// The colour of a palette index.
pub open spec fn palette_choice(index: int, palette: Seq<[u8; 3]>) -> StrokeColor {
    let place = palette_place(index, palette.len() as int);
    if place < palette.len() {
        StrokeColor::Rgb(palette[place])
    } else {
        StrokeColor::PaletteIndex(place as u16)
    }
}

pub fn palette_color(index: i32, palette: &[[u8; 3]]) -> (r: StrokeColor)
    ensures
        r == palette_choice(index as int, palette@),
{
    let length: usize = if palette.len() == 0 {
        12
    } else {
        palette.len()
    };
    let span: i64 = if length > 0x7fff_ffff {
        0x7fff_ffff
    } else {
        length as i64
    };
    let wide: i64 = index as i64;
    let place: usize = if wide >= 0 {
        (wide % span) as usize
    } else {
        let back: i64 = (-1 - wide) % span;
        proof {
            let s = span as int;
            let w = wide as int;
            let q = (-1 - w) / s;
            vstd::arithmetic::div_mod::lemma_fundamental_div_mod(-1 - w, s);
            assert(w == (-q - 1) * s + (s - 1 - back)) by (nonlinear_arith)
                requires
                    -1 - w == s * q + back,
            ;
            vstd::arithmetic::div_mod::lemma_fundamental_div_mod_converse(
                w,
                s,
                -q - 1,
                s - 1 - back,
            );
        }
        (span - 1 - back) as usize
    };
    if place < palette.len() {
        StrokeColor::Rgb(palette[place])
    } else {
        StrokeColor::PaletteIndex(place as u16)
    }
}

/// The views of some strings.
pub open spec fn string_texts(parts: Seq<String>) -> Seq<Seq<char>> {
    parts.map_values(|s: String| s@)
}

/// The views of some pairs of strings.
pub open spec fn pair_texts(parts: Seq<(String, String)>) -> Seq<(Seq<char>, Seq<char>)> {
    parts.map_values(|p: (String, String)| (p.0@, p.1@))
}

pub fn module_list_metadata(source: &[char], key: &str) -> (r: Option<Vec<String>>)
    ensures
        match r {
            Some(names) => metadata_value(source@, key@) is Some && string_texts(names@)
                == fields_of(metadata_value(source@, key@)->0, word_separators()),
            None => metadata_value(source@, key@) is None,
        },
{
    match metadata(source, key) {
        None => None,
        Some(value) => {
            let words: Vec<&[char]> = split_words(value);
            let mut names: Vec<String> = Vec::new();
            let mut i: usize = 0;
            while i < words.len()
                invariant
                    i <= words@.len(),
                    names@.len() == i,
                    forall|j: int| 0 <= j < i ==> (#[trigger] names@[j])@ == words@[j]@,
                decreases words@.len() - i,
            {
                names.push(string_of(words[i]));
                i = i + 1;
            }
            assert(string_texts(names@) =~= texts(words@));
            Some(names)
        },
    }
}

/// The pairs that words of the form `module=action` give.
pub open spec fn alias_pairs(words: Seq<Seq<char>>) -> Seq<(Seq<char>, Seq<char>)>
    decreases words.len(),
{
    if words.len() == 0 {
        Seq::empty()
    } else {
        let before = alias_pairs(words.drop_last());
        match parted(words.last(), '=') {
            Some(pair) => before.push(pair),
            None => before,
        }
    }
}

pub fn module_alias_metadata(source: &[char]) -> (r: Option<Vec<(String, String)>>)
    ensures
        ({
            let value = metadata_value(source@, "Render Map"@);
            match r {
                Some(aliases) => value is Some && pair_texts(aliases@) == alias_pairs(
                    fields_of(value->0, word_separators()),
                ),
                None => value is None,
            }
        }),
{
    match metadata(source, "Render Map") {
        None => None,
        Some(value) => {
            let words: Vec<&[char]> = split_words(value);
            let ghost fields = fields_of(value@, word_separators());
            let mut aliases: Vec<(String, String)> = Vec::new();
            let mut i: usize = 0;
            assert(fields.subrange(0, 0) =~= Seq::empty());
            assert(pair_texts(aliases@) =~= Seq::empty());
            while i < words.len()
                invariant
                    i <= words@.len(),
                    texts(words@) == fields,
                    pair_texts(aliases@) == alias_pairs(fields.subrange(0, i as int)),
                decreases words@.len() - i,
            {
                let word: &[char] = words[i];
                assert(fields[i as int] == word@);
                let ghost next = fields.subrange(0, i + 1);
                assert(next.drop_last() =~= fields.subrange(0, i as int));
                let ghost before = aliases@;
                match split_once(word, '=') {
                    Some((module, action)) => {
                        aliases.push((string_of(module), string_of(action)));
                        assert(pair_texts(aliases@) =~= pair_texts(before).push(
                            (module@, action@),
                        ));
                    },
                    None => {},
                }
                i = i + 1;
            }
            assert(fields.subrange(0, i as int) =~= fields);
            Some(aliases)
        },
    }
}

#[derive(Debug, Clone, Copy, Default)]
pub struct InspectorConfig;

#[derive(Debug, Clone, Copy, Default)]
pub struct SequenceConfig;

#[derive(Debug, Clone, Copy, Default)]
pub struct AxialTreeConfig;

#[derive(Debug, Clone, Copy, Default)]
pub struct AssetConfig;

#[derive(Debug, Clone, Copy, Default)]
pub struct PolygonConfig;

#[derive(Debug, Clone, Copy, Default)]
pub struct PlotConfig;

#[derive(Debug, Clone, Copy, Default)]
pub struct PlanarMapConfig;

#[derive(Debug, Clone, Copy, Default)]
pub struct SphericalMapConfig;

#[derive(Debug, Clone, Copy, Default)]
pub struct Cellwork3dConfig;

#[derive(Debug, Clone)]
pub struct Turtle2dConfig {
    pub turn_angle: Real,
    pub initial_angle: Real,
    pub default_step: Real,
    /// Multiplier used by parameterless `ScaleLength` commands.
    pub scale_multiplier: Real,
    pub initial_width: Real,
    pub width_increment: Real,
    /// Amount applied by parameterless `TurnAngleIncrease` and
    /// `TurnAngleDecrease`, in radians.
    pub turn_angle_increment: Real,
    /// Initial stroke state. The default retains the renderer's themed flare.
    pub initial_color: StrokeColor,
    /// Amount applied by parameterless relative color commands.
    pub color_increment: i32,
    /// Optional exact source palette. Palette indices wrap with Euclidean
    /// modulo. An empty palette selects the renderer's theme-aware fallback.
    pub palette: Vec<[u8; 3]>,
    /// Optional exact source background.
    pub background: Option<[u8; 3]>,
    pub draw_modules: Vec<String>,
    pub move_modules: Vec<String>,
    pub module_aliases: Vec<(String, String)>,
}

impl Turtle2dConfig {
    /// What is drawn without any metadata.
    pub open spec fn standard(self) -> bool {
        &&& self.turn_angle.bits == HALF_PI_BITS
        &&& self.initial_angle.bits == HALF_PI_BITS
        &&& self.default_step.bits == ONE_BITS
        &&& self.scale_multiplier.bits == ONE_BITS
        &&& self.initial_width.bits == ONE_BITS
        &&& self.width_increment.bits == ONE_BITS
        &&& self.turn_angle_increment.bits == DEGREE_BITS
        &&& self.initial_color == StrokeColor::ThemeDefault
        &&& self.color_increment == 1
        &&& self.palette@.len() == 0
        &&& self.background is None
        &&& string_texts(self.draw_modules@) == seq!["F"@, "Draw"@]
        &&& string_texts(self.move_modules@) == seq!["f"@, "Move"@]
        &&& self.module_aliases@.len() == 0
    }
}

impl Default for Turtle2dConfig {
    fn default() -> (r: Self)
        ensures
            r.standard(),
    {
        let draw_modules: Vec<String> = vec!["F".to_owned(), "Draw".to_owned()];
        let move_modules: Vec<String> = vec!["f".to_owned(), "Move".to_owned()];
        assert(string_texts(draw_modules@) =~= seq!["F"@, "Draw"@]);
        assert(string_texts(move_modules@) =~= seq!["f"@, "Move"@]);
        Turtle2dConfig {
            turn_angle: Real { bits: HALF_PI_BITS },
            initial_angle: Real { bits: HALF_PI_BITS },
            default_step: Real { bits: ONE_BITS },
            scale_multiplier: Real { bits: ONE_BITS },
            initial_width: Real { bits: ONE_BITS },
            width_increment: Real { bits: ONE_BITS },
            turn_angle_increment: Real { bits: DEGREE_BITS },
            initial_color: StrokeColor::ThemeDefault,
            color_increment: 1,
            palette: Vec::new(),
            background: None,
            draw_modules,
            move_modules,
            module_aliases: Vec::new(),
        }
    }
}

/// The colour declarations of a source can be read.
pub open spec fn colors_readable(source: Seq<char>) -> bool {
    &&& match metadata_value(source, "Palette"@) {
        Some(value) => palette_readable(value),
        None => true,
    }
    &&& match metadata_value(source, "Stroke Color"@) {
        Some(value) => pairs_end_between_characters(value),
        None => true,
    }
    &&& match metadata_value(source, "Background"@) {
        Some(value) => pairs_end_between_characters(value),
        None => true,
    }
}

/// Whether the colour declarations of a source can be read.
pub fn colors_are_readable(source: &str) -> (r: bool)
    ensures
        r == colors_readable(source@),
{
    let chars: Vec<char> = chars_of(source);
    let source: &[char] = chars.as_slice();
    let palette: bool = match metadata(source, "Palette") {
        Some(value) => palette_is_readable(value),
        None => true,
    };
    let stroke: bool = match metadata(source, "Stroke Color") {
        Some(value) => color_is_readable(value),
        None => true,
    };
    let background: bool = match metadata(source, "Background") {
        Some(value) => color_is_readable(value),
        None => true,
    };
    palette && stroke && background
}

/// The palette that a source declares, or the given one.
pub open spec fn declared_palette(source: Seq<char>, given: Seq<[u8; 3]>) -> Seq<[u8; 3]> {
    match metadata_value(source, "Palette"@) {
        Some(value) => match palette_value(value) {
            Some(colors) => if colors.len() > 0 {
                colors
            } else {
                given
            },
            None => given,
        },
        None => given,
    }
}

/// The colour that a source declares under a key.
pub open spec fn declared_color(source: Seq<char>, key: Seq<char>) -> Option<[u8; 3]> {
    match metadata_value(source, key) {
        Some(value) => rgb_value(value),
        None => None,
    }
}

/// A value, or another in its place.
pub open spec fn or_given<T>(value: Option<T>, given: T) -> T {
    match value {
        Some(value) => value,
        None => given,
    }
}

/// The value of the first of two options that has one.
pub open spec fn either_of<T>(first: Option<T>, second: Option<T>) -> Option<T> {
    match first {
        Some(value) => Some(value),
        None => second,
    }
}

/// An angle in degrees, in radians.
pub open spec fn in_radians(
    degrees: Option<Real>,
    ev: spec_fn(Arithmetic) -> Real,
) -> Option<Real> {
    match degrees {
        Some(degrees) => Some(ev(Arithmetic::Radians(degrees))),
        None => None,
    }
}

/// The numbers of a configuration with the metadata of a source applied to it.
pub open spec fn numbers_configured(
    before: Turtle2dConfig,
    source: Seq<char>,
    ev: spec_fn(Arithmetic) -> Real,
    rd: spec_fn(Seq<char>) -> Option<Real>,
    after: Turtle2dConfig,
) -> bool {
    &&& after.turn_angle == before.turn_angle
    &&& after.default_step == before.default_step
    &&& after.initial_angle == or_given(
        in_radians(numeric_value(source, "Heading"@, rd), ev),
        before.initial_angle,
    )
    &&& after.initial_width == or_given(
        either_of(
            numeric_value(source, "Initial Width"@, rd),
            first_of(
                lines_of(source),
                |line: Seq<char>| note_value(line, "Upstream thickness setting"@, rd),
            ),
        ),
        before.initial_width,
    )
    &&& after.scale_multiplier == or_given(
        either_of(
            numeric_value(source, "Scale"@, rd),
            first_of(lines_of(source), |line: Seq<char>| constant_value(line, "SCALE"@, rd)),
        ),
        before.scale_multiplier,
    )
    &&& after.width_increment == or_given(
        numeric_value(source, "Width Increment"@, rd),
        before.width_increment,
    )
    &&& after.turn_angle_increment == or_given(
        in_radians(numeric_value(source, "Angle Increment"@, rd), ev),
        before.turn_angle_increment,
    )
    &&& after.color_increment == or_given(
        integer_value(source, "Color Increment"@),
        before.color_increment,
    )
}

/// The colours of a configuration with the metadata of a source applied to it.
pub open spec fn colors_configured(
    before: Turtle2dConfig,
    source: Seq<char>,
    after: Turtle2dConfig,
) -> bool {
    &&& after.palette@ == declared_palette(source, before.palette@)
    &&& after.initial_color == match declared_color(source, "Stroke Color"@) {
        Some(color) => StrokeColor::Rgb(color),
        None => match integer_value(source, "Initial Color"@) {
            Some(index) => palette_choice(
                index as int,
                declared_palette(source, before.palette@),
            ),
            None => before.initial_color,
        },
    }
    &&& after.background == match declared_color(source, "Background"@) {
        Some(color) => Some(color),
        None => before.background,
    }
}

/// The module roles of a configuration with the metadata of a source applied.
pub open spec fn modules_configured(
    before: Turtle2dConfig,
    source: Seq<char>,
    after: Turtle2dConfig,
) -> bool {
    &&& string_texts(after.draw_modules@) == match metadata_value(source, "Draw"@) {
        Some(value) => fields_of(value, word_separators()),
        None => string_texts(before.draw_modules@),
    }
    &&& string_texts(after.move_modules@) == match metadata_value(source, "Move"@) {
        Some(value) => fields_of(value, word_separators()),
        None => string_texts(before.move_modules@),
    }
    &&& pair_texts(after.module_aliases@) == match metadata_value(source, "Render Map"@) {
        Some(value) => alias_pairs(fields_of(value, word_separators())),
        None => pair_texts(before.module_aliases@),
    }
}

/// A configuration with the metadata of a source applied to it.
pub open spec fn configured(
    before: Turtle2dConfig,
    source: Seq<char>,
    ev: spec_fn(Arithmetic) -> Real,
    rd: spec_fn(Seq<char>) -> Option<Real>,
    after: Turtle2dConfig,
) -> bool {
    &&& numbers_configured(before, source, ev, rd, after)
    &&& colors_configured(before, source, after)
    &&& modules_configured(before, source, after)
}

/// The numbers of two configurations are the same.
spec fn same_numbers(a: Turtle2dConfig, b: Turtle2dConfig) -> bool {
    &&& a.turn_angle == b.turn_angle
    &&& a.default_step == b.default_step
    &&& a.initial_angle == b.initial_angle
    &&& a.initial_width == b.initial_width
    &&& a.scale_multiplier == b.scale_multiplier
    &&& a.width_increment == b.width_increment
    &&& a.turn_angle_increment == b.turn_angle_increment
    &&& a.color_increment == b.color_increment
}

/// The colours of two configurations are the same.
spec fn same_colors(a: Turtle2dConfig, b: Turtle2dConfig) -> bool {
    &&& a.palette == b.palette
    &&& a.initial_color == b.initial_color
    &&& a.background == b.background
}

/// The module roles of two configurations are the same.
spec fn same_modules(a: Turtle2dConfig, b: Turtle2dConfig) -> bool {
    &&& a.draw_modules == b.draw_modules
    &&& a.move_modules == b.move_modules
    &&& a.module_aliases == b.module_aliases
}

impl Turtle2dConfig {
    fn with_source_numbers<C: Fn(Arithmetic) -> Real, P: Fn(String) -> Option<Real>>(
        self,
        source: &[char],
        calc: &C,
        read: &P,
    ) -> (r: Turtle2dConfig)
        requires
            calculates(*calc),
            reads(*read),
        ensures
            numbers_configured(self, source@, answers(*calc), readings(*read), r),
            same_colors(self, r),
            same_modules(self, r),
    {
        let mut config: Turtle2dConfig = self;
        match numeric_metadata(source, "Heading", read) {
            Some(heading) => {
                config.initial_angle = calculate(calc, Arithmetic::Radians(heading));
            },
            None => {},
        }
        let width: Option<Real> = match numeric_metadata(source, "Initial Width", read) {
            Some(width) => Some(width),
            None => note_number(source, "Upstream thickness setting", read),
        };
        match width {
            Some(width) => {
                config.initial_width = width;
            },
            None => {},
        }
        let scale: Option<Real> = match numeric_metadata(source, "Scale", read) {
            Some(scale) => Some(scale),
            None => named_numeric_constant(source, "SCALE", read),
        };
        match scale {
            Some(scale) => {
                config.scale_multiplier = scale;
            },
            None => {},
        }
        match numeric_metadata(source, "Width Increment", read) {
            Some(increment) => {
                config.width_increment = increment;
            },
            None => {},
        }
        match numeric_metadata(source, "Angle Increment", read) {
            Some(increment) => {
                config.turn_angle_increment = calculate(calc, Arithmetic::Radians(increment));
            },
            None => {},
        }
        match integer_metadata(source, "Color Increment") {
            Some(increment) => {
                config.color_increment = increment;
            },
            None => {},
        }
        config
    }

    fn with_source_colors(self, source: &[char]) -> (r: Turtle2dConfig)
        requires
            colors_readable(source@),
        ensures
            colors_configured(self, source@, r),
            same_numbers(self, r),
            same_modules(self, r),
    {
        let mut config: Turtle2dConfig = self;
        match metadata(source, "Palette") {
            Some(value) => {
                match parse_palette(value) {
                    Some(palette) => {
                        if palette.len() > 0 {
                            config.palette = palette;
                        }
                    },
                    None => {},
                }
            },
            None => {},
        }
        let stroke: Option<[u8; 3]> = match metadata(source, "Stroke Color") {
            Some(value) => parse_rgb(value),
            None => None,
        };
        match stroke {
            Some(color) => {
                config.initial_color = StrokeColor::Rgb(color);
            },
            None => {
                match integer_metadata(source, "Initial Color") {
                    Some(index) => {
                        config.initial_color = palette_color(index, config.palette.as_slice());
                    },
                    None => {},
                }
            },
        }
        let background: Option<[u8; 3]> = match metadata(source, "Background") {
            Some(value) => parse_rgb(value),
            None => None,
        };
        match background {
            Some(color) => {
                config.background = Some(color);
            },
            None => {},
        }
        config
    }

    fn with_source_modules(self, source: &[char]) -> (r: Turtle2dConfig)
        ensures
            modules_configured(self, source@, r),
            same_numbers(self, r),
            same_colors(self, r),
    {
        let mut config: Turtle2dConfig = self;
        match module_list_metadata(source, "Draw") {
            Some(modules) => {
                config.draw_modules = modules;
            },
            None => {},
        }
        match module_list_metadata(source, "Move") {
            Some(modules) => {
                config.move_modules = modules;
            },
            None => {},
        }
        match module_alias_metadata(source) {
            Some(aliases) => {
                config.module_aliases = aliases;
            },
            None => {},
        }
        config
    }

    /// Applies the metadata comments of a source.
    pub fn with_source_metadata<C: Fn(Arithmetic) -> Real, P: Fn(String) -> Option<Real>>(
        self,
        source: &str,
        calc: &C,
        read: &P,
    ) -> (r: Turtle2dConfig)
        requires
            calculates(*calc),
            reads(*read),
            colors_readable(source@),
        ensures
            configured(self, source@, answers(*calc), readings(*read), r),
    {
        let chars: Vec<char> = chars_of(source);
        let numbers: Turtle2dConfig = self.with_source_numbers(chars.as_slice(), calc, read);
        let colors: Turtle2dConfig = numbers.with_source_colors(chars.as_slice());
        colors.with_source_modules(chars.as_slice())
    }
}

#[derive(Debug, Clone)]
pub struct Turtle3dConfig {
    /// Shared drawing, style, metadata, and planar-turn configuration. The 3D
    /// interpreter adds pitch and roll to it.
    pub turtle: Turtle2dConfig,
}

impl Default for Turtle3dConfig {
    fn default() -> (r: Turtle3dConfig)
        ensures
            r.turtle.standard(),
    {
        Turtle3dConfig { turtle: <Turtle2dConfig as Default>::default() }
    }
}

impl Turtle3dConfig {
    pub fn new(turtle: Turtle2dConfig) -> (r: Turtle3dConfig)
        ensures
            r.turtle == turtle,
    {
        Turtle3dConfig { turtle }
    }

    /// Applies the metadata comments of a source.
    pub fn with_source_metadata<C: Fn(Arithmetic) -> Real, P: Fn(String) -> Option<Real>>(
        self,
        source: &str,
        calc: &C,
        read: &P,
    ) -> (r: Turtle3dConfig)
        requires
            calculates(*calc),
            reads(*read),
            colors_readable(source@),
        ensures
            configured(self.turtle, source@, answers(*calc), readings(*read), r.turtle),
    {
        Turtle3dConfig { turtle: self.turtle.with_source_metadata(source, calc, read) }
    }
}

#[derive(Debug, Clone)]
pub enum VisualizerConfig {
    Inspector(InspectorConfig),
    Sequence(SequenceConfig),
    Turtle2d(Turtle2dConfig),
    Turtle3d(Turtle3dConfig),
    AxialTree(AxialTreeConfig),
    Asset(AssetConfig),
    Polygon(PolygonConfig),
    Plot(PlotConfig),
    PlanarMap(PlanarMapConfig),
    SphericalMap(SphericalMapConfig),
    Cellwork3d(Cellwork3dConfig),
}

impl VisualizerConfig {
    /// The visualizer that a configuration is for.
    pub open spec fn kind(self) -> VisualizerKind {
        match self {
            VisualizerConfig::Inspector(_) => VisualizerKind::Inspector,
            VisualizerConfig::Sequence(_) => VisualizerKind::Sequence,
            VisualizerConfig::Turtle2d(_) => VisualizerKind::Turtle2d,
            VisualizerConfig::Turtle3d(_) => VisualizerKind::Turtle3d,
            VisualizerConfig::AxialTree(_) => VisualizerKind::AxialTree,
            VisualizerConfig::Asset(_) => VisualizerKind::Asset,
            VisualizerConfig::Polygon(_) => VisualizerKind::Polygon,
            VisualizerConfig::Plot(_) => VisualizerKind::Plot,
            VisualizerConfig::PlanarMap(_) => VisualizerKind::PlanarMap,
            VisualizerConfig::SphericalMap(_) => VisualizerKind::SphericalMap,
            VisualizerConfig::Cellwork3d(_) => VisualizerKind::Cellwork3d,
        }
    }

    /// The default configuration of a visualizer.
    pub fn for_kind(kind: VisualizerKind) -> (r: VisualizerConfig)
        ensures
            r.kind() == kind,
            r matches VisualizerConfig::Turtle2d(config) ==> call_ensures(
                <Turtle2dConfig as Default>::default,
                (),
                config,
            ),
            r matches VisualizerConfig::Turtle3d(config) ==> call_ensures(
                <Turtle2dConfig as Default>::default,
                (),
                config.turtle,
            ),
    {
        match kind {
            VisualizerKind::Inspector => VisualizerConfig::Inspector(InspectorConfig),
            VisualizerKind::Sequence => VisualizerConfig::Sequence(SequenceConfig),
            VisualizerKind::Turtle2d => VisualizerConfig::Turtle2d(
                <Turtle2dConfig as Default>::default(),
            ),
            VisualizerKind::Turtle3d => VisualizerConfig::Turtle3d(
                Turtle3dConfig { turtle: <Turtle2dConfig as Default>::default() },
            ),
            VisualizerKind::AxialTree => VisualizerConfig::AxialTree(AxialTreeConfig),
            VisualizerKind::Asset => VisualizerConfig::Asset(AssetConfig),
            VisualizerKind::Polygon => VisualizerConfig::Polygon(PolygonConfig),
            VisualizerKind::Plot => VisualizerConfig::Plot(PlotConfig),
            VisualizerKind::PlanarMap => VisualizerConfig::PlanarMap(PlanarMapConfig),
            VisualizerKind::SphericalMap => VisualizerConfig::SphericalMap(SphericalMapConfig),
            VisualizerKind::Cellwork3d => VisualizerConfig::Cellwork3d(Cellwork3dConfig),
        }
    }
}

} // verus!
