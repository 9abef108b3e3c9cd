//! Character sequences: trimming, splitting, and number formats.

use vstd::prelude::*;
use vstd::slice::slice_subrange;
use vstd::string::*;

verus! {

/// `String::push` appends one character.
pub assume_specification[ String::push ](s: &mut String, c: char)
    ensures
        final(s)@ == old(s)@.push(c),
;

/// Two strings have the same characters.
pub(crate) fn same_text(a: &str, b: &str) -> (r: bool)
    ensures
        r == (a@ == b@),
{
    let (left, right): (Vec<char>, Vec<char>) = (chars_of(a), chars_of(b));
    same_chars(left.as_slice(), right.as_slice())
}

/// The quoted and escaped form that `{:?}` gives a string.
pub uninterp spec fn quoted_text(text: Seq<char>) -> Seq<char>;

/// Formats a string with `{:?}` of std. The contract names the result and does
/// not say which characters are escaped.
#[verifier::external_body]
pub(crate) fn quoted(text: &str) -> (r: String)
    ensures
        r@ == quoted_text(text@),
{
    format!("{text:?}")
}

/// The lower-case form that `str::to_lowercase` gives a string.
pub uninterp spec fn lowercase_text(text: Seq<char>) -> Seq<char>;

/// Converts with `str::to_lowercase`, whose result follows the Unicode tables;
/// the contract gives it a name.
#[verifier::external_body]
pub(crate) fn lowercased(text: &str) -> (r: String)
    ensures
        r@ == lowercase_text(text@),
{
    text.to_lowercase()
}

/// The characters of a string, one by one.
pub fn chars_of(s: &str) -> (v: Vec<char>)
    ensures
        v@ == s@,
{
    let mut v: Vec<char> = Vec::new();
    for c in iter: s.chars()
        invariant
            v@ == s@.subrange(0, iter.index() as int),
            iter.seq() == s@,
    {
        v.push(c);
        assert(v@ =~= s@.subrange(0, iter.index() as int + 1));
    }
    v
}

/// The string made of some characters.
pub fn string_of(chars: &[char]) -> (s: String)
    ensures
        s@ == chars@,
{
    let mut s: String = String::new();
    let mut i: usize = 0;
    while i < chars.len()
        invariant
            i <= chars.len(),
            s@ == chars@.subrange(0, i as int),
        decreases chars.len() - i,
    {
        s.push(chars[i]);
        i = i + 1;
        assert(s@ =~= chars@.subrange(0, i as int));
    }
    assert(s@ =~= chars@);
    s
}

/// Two slices hold the same characters.
pub fn same_chars(a: &[char], b: &[char]) -> (r: bool)
    ensures
        r == (a@ == b@),
{
    if a.len() != b.len() {
        return false;
    }
    let mut i: usize = 0;
    while i < a.len()
        invariant
            i <= a.len(),
            a.len() == b.len(),
            a@.subrange(0, i as int) == b@.subrange(0, i as int),
        decreases a.len() - i,
    {
        if a[i] != b[i] {
            return false;
        }
        i = i + 1;
        assert(a@.subrange(0, i as int) =~= b@.subrange(0, i as int));
    }
    assert(a@ =~= a@.subrange(0, i as int));
    assert(b@ =~= b@.subrange(0, i as int));
    true
}

/// Characters with the Unicode property `White_Space`.
pub open spec fn white_space(c: char) -> bool {
    let n = c as int;
    ||| 0x9 <= n <= 0xd
    ||| n == 0x20
    ||| n == 0x85
    ||| n == 0xa0
    ||| n == 0x1680
    ||| 0x2000 <= n <= 0x200a
    ||| n == 0x2028
    ||| n == 0x2029
    ||| n == 0x202f
    ||| n == 0x205f
    ||| n == 0x3000
}

pub fn is_white_space(c: char) -> (r: bool)
    ensures
        r == white_space(c),
{
    let n: u32 = c as u32;
    (n >= 0x9 && n <= 0xd) || n == 0x20 || n == 0x85 || n == 0xa0 || n == 0x1680 || (n >= 0x2000
        && n <= 0x200a) || n == 0x2028 || n == 0x2029 || n == 0x202f || n == 0x205f || n == 0x3000
}

/// Separators of colour lists: ASCII white space and the comma.
pub open spec fn list_separator(c: char) -> bool {
    c == ' ' || c == '\t' || c == '\n' || c == '\r' || c == '\u{c}' || c == ','
}

pub fn is_list_separator(c: char) -> (r: bool)
    ensures
        r == list_separator(c),
{
    c == ' ' || c == '\t' || c == '\n' || c == '\r' || c == '\u{c}' || c == ','
}

/// The text without leading white space.
pub open spec fn trimmed_start(s: Seq<char>) -> Seq<char>
    decreases s.len(),
{
    if s.len() > 0 && white_space(s[0]) {
        trimmed_start(s.subrange(1, s.len() as int))
    } else {
        s
    }
}

/// The text without trailing white space.
pub open spec fn trimmed_end(s: Seq<char>) -> Seq<char>
    decreases s.len(),
{
    if s.len() > 0 && white_space(s.last()) {
        trimmed_end(s.drop_last())
    } else {
        s
    }
}

/// The text without white space around it.
pub open spec fn trimmed(s: Seq<char>) -> Seq<char> {
    trimmed_end(trimmed_start(s))
}

pub fn trim_start<'a>(s: &'a [char]) -> (r: &'a [char])
    ensures
        r@ == trimmed_start(s@),
{
    let mut i: usize = 0;
    assert(s@ =~= s@.subrange(0, s@.len() as int));
    while i < s.len() && is_white_space(s[i])
        invariant
            i <= s.len(),
            trimmed_start(s@) == trimmed_start(s@.subrange(i as int, s@.len() as int)),
        decreases s.len() - i,
    {
        let ghost rest = s@.subrange(i as int, s@.len() as int);
        assert(rest.subrange(1, rest.len() as int) =~= s@.subrange(i + 1, s@.len() as int));
        i = i + 1;
    }
    let n: usize = s.len();
    slice_subrange(s, i, n)
}

pub fn trim_end<'a>(s: &'a [char]) -> (r: &'a [char])
    ensures
        r@ == trimmed_end(s@),
{
    let mut n: usize = s.len();
    assert(s@ =~= s@.subrange(0, s@.len() as int));
    while n > 0 && is_white_space(s[n - 1])
        invariant
            n <= s.len(),
            trimmed_end(s@) == trimmed_end(s@.subrange(0, n as int)),
        decreases n,
    {
        let ghost rest = s@.subrange(0, n as int);
        assert(rest.drop_last() =~= s@.subrange(0, n - 1));
        n = n - 1;
    }
    slice_subrange(s, 0, n)
}

pub fn trim<'a>(s: &'a [char]) -> (r: &'a [char])
    ensures
        r@ == trimmed(s@),
{
    trim_end(trim_start(s))
}

/// The text behind a prefix, when it begins with it.
pub open spec fn behind_prefix(s: Seq<char>, prefix: Seq<char>) -> Option<Seq<char>> {
    if s.len() >= prefix.len() && s.subrange(0, prefix.len() as int) == prefix {
        Some(s.subrange(prefix.len() as int, s.len() as int))
    } else {
        None
    }
}

pub fn strip_prefix<'a>(s: &'a [char], prefix: &[char]) -> (r: Option<&'a [char]>)
    ensures
        match r {
            Some(rest) => behind_prefix(s@, prefix@) == Some(rest@),
            None => behind_prefix(s@, prefix@) is None,
        },
{
    if s.len() < prefix.len() {
        return None;
    }
    let head: &[char] = slice_subrange(s, 0, prefix.len());
    if same_chars(head, prefix) {
        let n: usize = s.len();
        Some(slice_subrange(s, prefix.len(), n))
    } else {
        None
    }
}

/// The place of the first occurrence of a character, or the length.
pub open spec fn place_of(s: Seq<char>, c: char) -> int
    decreases s.len(),
{
    if s.len() == 0 || s[0] == c {
        0
    } else {
        1 + place_of(s.subrange(1, s.len() as int), c)
    }
}

pub proof fn lemma_place_of(s: Seq<char>, c: char)
    ensures
        0 <= place_of(s, c) <= s.len(),
        forall|i: int| 0 <= i < place_of(s, c) ==> s[i] != c,
        place_of(s, c) < s.len() ==> s[place_of(s, c)] == c,
    decreases s.len(),
{
    if s.len() != 0 && s[0] != c {
        let rest = s.subrange(1, s.len() as int);
        lemma_place_of(rest, c);
        assert forall|i: int| 0 <= i < place_of(s, c) implies s[i] != c by {
            if i > 0 {
                assert(s[i] == rest[i - 1]);
            }
        }
    }
}

pub fn find_char(s: &[char], c: char) -> (r: usize)
    ensures
        r == place_of(s@, c),
        r <= s.len(),
{
    let mut i: usize = 0;
    assert(s@ =~= s@.subrange(0, s@.len() as int));
    while i < s.len() && s[i] != c
        invariant
            i <= s.len(),
            place_of(s@, c) == i + place_of(s@.subrange(i as int, s@.len() as int), c),
        decreases s.len() - i,
    {
        let ghost rest = s@.subrange(i as int, s@.len() as int);
        assert(rest.subrange(1, rest.len() as int) =~= s@.subrange(i + 1, s@.len() as int));
        i = i + 1;
    }
    i
}

/// The texts before and behind the first occurrence of a character.
pub open spec fn parted(s: Seq<char>, c: char) -> Option<(Seq<char>, Seq<char>)> {
    let n = place_of(s, c);
    if n < s.len() {
        Some((s.subrange(0, n), s.subrange(n + 1, s.len() as int)))
    } else {
        None
    }
}

pub fn split_once<'a>(s: &'a [char], c: char) -> (r: Option<(&'a [char], &'a [char])>)
    ensures
        match r {
            Some((a, b)) => parted(s@, c) == Some((a@, b@)),
            None => parted(s@, c) is None,
        },
{
    let n: usize = find_char(s, c);
    if n < s.len() {
        let end: usize = s.len();
        Some((slice_subrange(s, 0, n), slice_subrange(s, n + 1, end)))
    } else {
        None
    }
}

/// A line without the carriage return at its end.
pub open spec fn without_return(s: Seq<char>) -> Seq<char> {
    if s.len() > 0 && s.last() == '\r' {
        s.drop_last()
    } else {
        s
    }
}

/// The lines of a text: each ends at a line feed, which with a carriage return
/// before it is left out, or at the end of a text that does not end in one.
pub open spec fn lines_of(s: Seq<char>) -> Seq<Seq<char>>
    decreases s.len(),
    via lines_of_decreases
{
    let n = place_of(s, '\n');
    if s.len() == 0 {
        Seq::empty()
    } else if n < s.len() {
        seq![without_return(s.subrange(0, n))] + lines_of(s.subrange(n + 1, s.len() as int))
    } else {
        seq![s]
    }
}

#[via_fn]
proof fn lines_of_decreases(s: Seq<char>) {
    lemma_place_of(s, '\n');
}

/// The first line and the text behind it.
pub fn next_line<'a>(s: &'a [char]) -> (r: (&'a [char], &'a [char]))
    requires
        s@.len() > 0,
    ensures
        lines_of(s@) == seq![r.0@] + lines_of(r.1@),
        r.1@.len() < s@.len(),
{
    let n: usize = find_char(s, '\n');
    let end: usize = s.len();
    if n < s.len() {
        let mut stop: usize = n;
        if n > 0 && s[n - 1] == '\r' {
            stop = n - 1;
        }
        let line: &[char] = slice_subrange(s, 0, stop);
        assert(line@ =~= without_return(s@.subrange(0, n as int)));
        (line, slice_subrange(s, n + 1, end))
    } else {
        let rest: &[char] = slice_subrange(s, end, end);
        assert(rest@ =~= Seq::<char>::empty());
        assert(lines_of(rest@) =~= Seq::empty());
        assert(lines_of(s@) =~= seq![s@] + lines_of(rest@));
        (s, rest)
    }
}

/// How many characters come before the first separator.
pub open spec fn field_length(s: Seq<char>, separator: spec_fn(char) -> bool) -> int
    decreases s.len(),
{
    if s.len() == 0 || separator(s[0]) {
        0
    } else {
        1 + field_length(s.subrange(1, s.len() as int), separator)
    }
}

/// The longest runs of characters that are no separators.
pub open spec fn fields_of(s: Seq<char>, separator: spec_fn(char) -> bool) -> Seq<Seq<char>>
    decreases s.len(),
    via fields_of_decreases
{
    let n = field_length(s, separator);
    if s.len() == 0 {
        Seq::empty()
    } else if n == 0 {
        fields_of(s.subrange(1, s.len() as int), separator)
    } else {
        seq![s.subrange(0, n)] + fields_of(s.subrange(n, s.len() as int), separator)
    }
}

#[via_fn]
proof fn fields_of_decreases(s: Seq<char>, separator: spec_fn(char) -> bool) {
    lemma_field_length(s, separator);
}

pub proof fn lemma_field_length(s: Seq<char>, separator: spec_fn(char) -> bool)
    ensures
        0 <= field_length(s, separator) <= s.len(),
    decreases s.len(),
{
    if s.len() != 0 && !separator(s[0]) {
        lemma_field_length(s.subrange(1, s.len() as int), separator);
    }
}

/// The separators of words.
pub open spec fn word_separators() -> spec_fn(char) -> bool {
    |c: char| white_space(c)
}

/// The separators of list entries.
pub open spec fn list_separators() -> spec_fn(char) -> bool {
    |c: char| list_separator(c)
}

/// What ends a symbol: anything but ASCII letters, digits and the underscore.
pub open spec fn symbol_separator(c: char) -> bool {
    let n = c as int;
    !(0x30 <= n <= 0x39 || 0x41 <= n <= 0x5a || 0x61 <= n <= 0x7a || n == 0x5f)
}

fn is_symbol_separator(c: char) -> (r: bool)
    ensures
        r == symbol_separator(c),
{
    let n: u32 = c as u32;
    !((n >= 0x30 && n <= 0x39) || (n >= 0x41 && n <= 0x5a) || (n >= 0x61 && n <= 0x7a) || n
        == 0x5f)
}

/// The separators of symbols.
pub open spec fn symbol_separators() -> spec_fn(char) -> bool {
    |c: char| symbol_separator(c)
}

/// What the fields of a text are.
#[derive(Clone, Copy, PartialEq, Eq, Structural)]
enum Fields {
    Words,
    Entries,
    Symbols,
}

spec fn separators_of(fields: Fields) -> spec_fn(char) -> bool {
    match fields {
        Fields::Words => word_separators(),
        Fields::Entries => list_separators(),
        Fields::Symbols => symbol_separators(),
    }
}

/// The views of some slices.
pub open spec fn texts(parts: Seq<&[char]>) -> Seq<Seq<char>> {
    parts.map_values(|p: &[char]| p@)
}

/// The fields of a text.
fn split_fields<'a>(s: &'a [char], fields: Fields) -> (r: Vec<&'a [char]>)
    ensures
        texts(r@) == fields_of(s@, separators_of(fields)),
{
    let ghost separator = separators_of(fields);
    let mut r: Vec<&'a [char]> = Vec::new();
    let mut rest: &'a [char] = s;
    assert(texts(r@) + fields_of(rest@, separator) =~= fields_of(s@, separator));
    while rest.len() > 0
        invariant
            separator == separators_of(fields),
            texts(r@) + fields_of(rest@, separator) == fields_of(s@, separator),
        decreases rest.len(),
    {
        let mut n: usize = 0;
        let total: usize = rest.len();
        assert(rest@ =~= rest@.subrange(0, total as int));
        loop
            invariant
                n <= total,
                total == rest@.len(),
                separator == separators_of(fields),
                field_length(rest@, separator) == n + field_length(
                    rest@.subrange(n as int, total as int),
                    separator,
                ),
            ensures
                n == field_length(rest@, separator),
                n <= total,
            decreases total - n,
        {
            if n >= total {
                break;
            }
            let c: char = rest[n];
            let stop: bool = match fields {
                Fields::Words => is_white_space(c),
                Fields::Entries => is_list_separator(c),
                Fields::Symbols => is_symbol_separator(c),
            };
            assert(stop == separator(c));
            if stop {
                break;
            }
            let ghost tail = rest@.subrange(n as int, total as int);
            assert(tail.subrange(1, tail.len() as int) =~= rest@.subrange(n + 1, total as int));
            n = n + 1;
        }
        if n == 0 {
            rest = slice_subrange(rest, 1, total);
        } else {
            let field: &'a [char] = slice_subrange(rest, 0, n);
            let ghost before = r@;
            r.push(field);
            assert(texts(r@) =~= texts(before).push(field@));
            let behind: &'a [char] = slice_subrange(rest, n, total);
            assert(texts(r@) + fields_of(behind@, separator) =~= texts(before) + (seq![field@]
                + fields_of(behind@, separator)));
            rest = behind;
        }
    }
    assert(texts(r@) =~= texts(r@) + fields_of(rest@, separator));
    r
}

/// The words of a text.
pub fn split_words<'a>(s: &'a [char]) -> (r: Vec<&'a [char]>)
    ensures
        texts(r@) == fields_of(s@, word_separators()),
{
    split_fields(s, Fields::Words)
}

/// The entries of a list that white space or commas separate.
pub fn split_list<'a>(s: &'a [char]) -> (r: Vec<&'a [char]>)
    ensures
        texts(r@) == fields_of(s@, list_separators()),
{
    split_fields(s, Fields::Entries)
}

/// The symbols of a text.
pub fn split_symbols<'a>(s: &'a [char]) -> (r: Vec<&'a [char]>)
    ensures
        texts(r@) == fields_of(s@, symbol_separators()),
{
    split_fields(s, Fields::Symbols)
}

/// The value of a digit in the bases up to sixteen.
pub open spec fn digit_value(c: char) -> Option<int> {
    let n = c as int;
    if 0x30 <= n <= 0x39 {
        Some(n - 0x30)
    } else if 0x41 <= n <= 0x46 {
        Some(n - 0x41 + 10)
    } else if 0x61 <= n <= 0x66 {
        Some(n - 0x61 + 10)
    } else {
        None
    }
}

/// Every character is a digit of the base.
pub open spec fn all_digits(s: Seq<char>, base: int) -> bool {
    forall|i: int| 0 <= i < s.len() ==> digit_value(#[trigger] s[i]) is Some && digit_value(s[i])->0
        < base
}

/// The number that digits write, most significant first.
pub open spec fn digits_value(s: Seq<char>, base: int) -> int
    decreases s.len(),
{
    if s.len() == 0 {
        0
    } else {
        digits_value(s.drop_last(), base) * base + digit_value(s.last())->0
    }
}

/// The number that an optional plus sign and digits write.
pub open spec fn unsigned_value(s: Seq<char>, base: int) -> Option<int> {
    let digits = if s.len() > 0 && s[0] == '+' { s.subrange(1, s.len() as int) } else { s };
    if digits.len() > 0 && all_digits(digits, base) {
        Some(digits_value(digits, base))
    } else {
        None
    }
}

/// The number that an optional sign and decimal digits write.
pub open spec fn signed_value(s: Seq<char>) -> Option<int> {
    if s.len() > 0 && s[0] == '-' {
        let digits = s.subrange(1, s.len() as int);
        if digits.len() > 0 && all_digits(digits, 10) {
            Some(-digits_value(digits, 10))
        } else {
            None
        }
    } else {
        unsigned_value(s, 10)
    }
}

fn digit_of(c: char) -> (r: Option<u64>)
    ensures
        match r {
            Some(v) => digit_value(c) == Some(v as int) && v < 16,
            None => digit_value(c) is None,
        },
{
    let n: u32 = c as u32;
    if n >= 0x30 && n <= 0x39 {
        Some((n - 0x30) as u64)
    } else if n >= 0x41 && n <= 0x46 {
        Some((n - 0x41 + 10) as u64)
    } else if n >= 0x61 && n <= 0x66 {
        Some((n - 0x61 + 10) as u64)
    } else {
        None
    }
}

proof fn lemma_digits_bounds(s: Seq<char>, k: int, base: int)
    requires
        all_digits(s, base),
        base > 0,
        0 <= k <= s.len(),
    ensures
        0 <= digits_value(s.subrange(0, k), base) <= digits_value(s, base),
    decreases s.len(),
{
    if k == s.len() {
        assert(s.subrange(0, k) =~= s);
        if s.len() > 0 {
            let init = s.drop_last();
            lemma_digits_bounds(init, init.len() as int, base);
            assert(init.subrange(0, init.len() as int) =~= init);
            assert(digit_value(s[s.len() - 1]) is Some);
            let d = digit_value(s.last())->0;
            assert(digits_value(init, base) * base >= 0) by (nonlinear_arith)
                requires
                    digits_value(init, base) >= 0,
                    base > 0,
            ;
            assert(d >= 0);
        }
    } else {
        let init = s.drop_last();
        lemma_digits_bounds(init, k, base);
        assert(init.subrange(0, k) =~= s.subrange(0, k));
        assert(digit_value(s[s.len() - 1]) is Some);
        let v = digits_value(init, base);
        assert(v * base >= v) by (nonlinear_arith)
            requires
                v >= 0,
                base > 0,
        ;
    }
}

/// The number that digits write, when it is at most `max`.
fn parse_digits(s: &[char], base: u64, max: u64) -> (r: Option<u64>)
    requires
        base == 10 || base == 16,
    ensures
        match r {
            Some(v) => s@.len() > 0 && all_digits(s@, base as int) && v == digits_value(
                s@,
                base as int,
            ) && v <= max,
            None => s@.len() == 0 || !all_digits(s@, base as int) || digits_value(s@, base as int)
                > max,
        },
{
    if s.len() == 0 {
        return None;
    }
    let mut value: u64 = 0;
    let mut exceeded: bool = false;
    let mut i: usize = 0;
    while i < s.len()
        invariant
            i <= s.len(),
            base == 10 || base == 16,
            all_digits(s@.subrange(0, i as int), base as int),
            !exceeded ==> value == digits_value(s@.subrange(0, i as int), base as int) && value
                <= max,
            exceeded ==> digits_value(s@.subrange(0, i as int), base as int) > max,
        decreases s.len() - i,
    {
        let ghost part = s@.subrange(0, i as int);
        let ghost next = s@.subrange(0, i + 1);
        assert(next.drop_last() =~= part);
        assert(next.last() == s@[i as int]);
        match digit_of(s[i]) {
            Some(digit) if digit < base => {
                proof {
                    assert(all_digits(next, base as int)) by {
                        assert forall|j: int| 0 <= j < next.len() implies digit_value(
                            #[trigger] next[j],
                        ) is Some && digit_value(next[j])->0 < base by {
                            if j < i {
                                assert(next[j] == part[j]);
                            }
                        }
                    }
                    lemma_digits_bounds(next, i as int, base as int);
                    assert(next.subrange(0, i as int) =~= part);
                }
                if !exceeded {
                    if digit > max || value > (max - digit) / base {
                        proof {
                            let b = base as int;
                            assert(value * b + digit > max) by (nonlinear_arith)
                                requires
                                    digit > max || value > (max - digit) / b,
                                    b > 0,
                                    value >= 0,
                            ;
                        }
                        exceeded = true;
                    } else {
                        proof {
                            let b = base as int;
                            assert(value * b + digit <= max && value * b >= 0) by (nonlinear_arith)
                                requires
                                    value <= (max - digit) / b,
                                    digit <= max,
                                    value >= 0,
                                    b > 0,
                            ;
                        }
                        value = value * base + digit;
                    }
                }
                i = i + 1;
            },
            _ => {
                proof {
                    assert(digit_value(s@[i as int]) is None || digit_value(s@[i as int])->0
                        >= base);
                }
                return None;
            },
        }
    }
    assert(s@.subrange(0, i as int) =~= s@);
    if exceeded {
        None
    } else {
        Some(value)
    }
}

/// The unsigned number that a text writes, when it is at most `max`.
pub fn parse_unsigned(s: &[char], base: u64, max: u64) -> (r: Option<u64>)
    requires
        base == 10 || base == 16,
    ensures
        match r {
            Some(v) => unsigned_value(s@, base as int) == Some(v as int) && v <= max,
            None => unsigned_value(s@, base as int) is None || unsigned_value(s@, base as int)->0
                > max,
        },
{
    if s.len() > 0 && s[0] == '+' {
        let n: usize = s.len();
        parse_digits(slice_subrange(s, 1, n), base, max)
    } else {
        parse_digits(s, base, max)
    }
}

/// The 32-bit integer that a text writes.
pub fn parse_i32(s: &[char]) -> (r: Option<i32>)
    ensures
        match r {
            Some(v) => signed_value(s@) == Some(v as int),
            None => signed_value(s@) is None || signed_value(s@)->0 > i32::MAX || signed_value(
                s@,
            )->0 < i32::MIN,
        },
{
    if s.len() > 0 && s[0] == '-' {
        let n: usize = s.len();
        match parse_digits(slice_subrange(s, 1, n), 10, 0x8000_0000) {
            Some(v) => {
                let value: i64 = v as i64;
                Some((-value) as i32)
            },
            None => None,
        }
    } else {
        match parse_unsigned(s, 10, 0x7fff_ffff) {
            Some(v) => Some(v as i32),
            None => None,
        }
    }
}

/// The lower-case digit of a value below sixteen.
pub open spec fn digit_char(d: int) -> char {
    if d < 10 {
        (0x30 + d) as char
    } else {
        (0x61 + d - 10) as char
    }
}

fn digit_to_char(d: u8) -> (c: char)
    requires
        d < 16,
    ensures
        c == digit_char(d as int),
{
    if d < 10 {
        (0x30 + d) as char
    } else {
        (0x61 + (d - 10)) as char
    }
}

/// The decimal form of a number.
pub open spec fn decimal(n: int) -> Seq<char>
    decreases n,
{
    if n < 10 {
        seq![digit_char(n)]
    } else {
        decimal(n / 10).push(digit_char(n % 10))
    }
}

/// Append the decimal form of a number.
pub fn push_decimal(out: &mut String, n: u128)
    ensures
        final(out)@ == old(out)@ + decimal(n as int),
    decreases n,
{
    if n < 10 {
        out.push(digit_to_char(n as u8));
        assert(out@ =~= old(out)@ + decimal(n as int));
    } else {
        push_decimal(out, n / 10);
        out.push(digit_to_char((n % 10) as u8));
        assert(out@ =~= old(out)@ + decimal(n as int));
    }
}

/// The two hexadecimal digits of a byte.
pub open spec fn hex_pair(n: int) -> Seq<char> {
    seq![digit_char(n / 16), digit_char(n % 16)]
}

/// A number in decimal digits.
pub fn decimal_text(n: u128) -> (r: String)
    ensures
        r@ == decimal(n as int),
{
    let mut out: String = String::new();
    push_decimal(&mut out, n);
    assert(out@ =~= decimal(n as int));
    out
}

/// Append the two hexadecimal digits of a byte.
pub fn push_hex_pair(out: &mut String, n: u8)
    ensures
        final(out)@ == old(out)@ + hex_pair(n as int),
{
    out.push(digit_to_char(n / 16));
    out.push(digit_to_char(n % 16));
    assert(out@ =~= old(out)@ + hex_pair(n as int));
}

/// How many bytes a character takes in UTF-8.
pub open spec fn char_bytes(c: char) -> int {
    let n = c as int;
    if n < 0x80 {
        1
    } else if n < 0x800 {
        2
    } else if n < 0x10000 {
        3
    } else {
        4
    }
}

/// How many bytes a text takes in UTF-8.
pub open spec fn text_bytes(s: Seq<char>) -> int
    decreases s.len(),
{
    if s.len() == 0 {
        0
    } else {
        text_bytes(s.drop_last()) + char_bytes(s.last())
    }
}

/// How many bytes a character takes in UTF-8.
pub fn char_width(c: char) -> (r: u64)
    ensures
        r == char_bytes(c),
{
    let n: u32 = c as u32;
    if n < 0x80 {
        1
    } else if n < 0x800 {
        2
    } else if n < 0x10000 {
        3
    } else {
        4
    }
}

pub proof fn lemma_bytes_at_least(s: Seq<char>)
    ensures
        text_bytes(s) >= s.len(),
    decreases s.len(),
{
    if s.len() > 0 {
        lemma_bytes_at_least(s.drop_last());
    }
}

/// How many bytes a text takes in UTF-8, when that is a number that can be held.
pub fn utf8_length(text: &str) -> (r: Option<usize>)
    ensures
        match r {
            Some(n) => n == text_bytes(text@),
            None => text_bytes(text@) > usize::MAX,
        },
{
    let chars: Vec<char> = chars_of(text);
    let mut total: usize = 0;
    let mut i: usize = 0;
    assert(chars@.subrange(0, 0) =~= Seq::empty());
    while i < chars.len()
        invariant
            i <= chars@.len(),
            chars@ == text@,
            total == text_bytes(chars@.subrange(0, i as int)),
        decreases chars@.len() - i,
    {
        let ghost next = chars@.subrange(0, i + 1);
        assert(next.drop_last() =~= chars@.subrange(0, i as int));
        assert(next.last() == chars@[i as int]);
        match total.checked_add(char_width(chars[i]) as usize) {
            Some(sum) => {
                total = sum;
            },
            None => {
                proof {
                    lemma_bytes_grow(chars@, i + 1);
                }
                return None;
            },
        }
        i = i + 1;
    }
    assert(chars@.subrange(0, i as int) =~= chars@);
    Some(total)
}

proof fn lemma_bytes_grow(s: Seq<char>, k: int)
    requires
        0 <= k <= s.len(),
    ensures
        text_bytes(s.subrange(0, k)) <= text_bytes(s),
    decreases s.len() - k,
{
    if k == s.len() {
        assert(s.subrange(0, k) =~= s);
    } else {
        let next = s.subrange(0, k + 1);
        assert(next.drop_last() =~= s.subrange(0, k));
        lemma_bytes_grow(s, k + 1);
    }
}

/// Texts one after the other.
pub open spec fn joined(parts: Seq<Seq<char>>) -> Seq<char>
    decreases parts.len(),
{
    if parts.len() == 0 {
        Seq::empty()
    } else {
        joined(parts.drop_last()) + parts.last()
    }
}

pub proof fn lemma_bytes_join(a: Seq<char>, b: Seq<char>)
    ensures
        text_bytes(a + b) == text_bytes(a) + text_bytes(b),
    decreases b.len(),
{
    if b.len() == 0 {
        assert(a + b =~= a);
    } else {
        assert((a + b).drop_last() =~= a + b.drop_last());
        lemma_bytes_join(a, b.drop_last());
    }
}

/// Characters of one text come before those of another: the first difference
/// decides, and a beginning comes before the whole.
pub open spec fn precedes(a: Seq<char>, b: Seq<char>) -> bool
    decreases a.len(),
{
    if b.len() == 0 {
        false
    } else if a.len() == 0 {
        true
    } else if a[0] != b[0] {
        (a[0] as int) < (b[0] as int)
    } else {
        precedes(a.subrange(1, a.len() as int), b.subrange(1, b.len() as int))
    }
}

/// Whether one text comes before another in the order of characters.
pub fn text_precedes(a: &[char], b: &[char]) -> (r: bool)
    ensures
        r == precedes(a@, b@),
{
    let mut i: usize = 0;
    assert(a@.subrange(0, a@.len() as int) =~= a@);
    assert(b@.subrange(0, b@.len() as int) =~= b@);
    loop
        invariant
            i <= a@.len(),
            i <= b@.len(),
            precedes(a@, b@) == precedes(
                a@.subrange(i as int, a@.len() as int),
                b@.subrange(i as int, b@.len() as int),
            ),
        decreases a@.len() - i,
    {
        if i >= b.len() {
            return false;
        }
        if i >= a.len() {
            return true;
        }
        let x: char = a[i];
        let y: char = b[i];
        if x != y {
            return x < y;
        }
        let ghost resta = a@.subrange(i as int, a@.len() as int);
        let ghost restb = b@.subrange(i as int, b@.len() as int);
        assert(resta.subrange(1, resta.len() as int) =~= a@.subrange(i + 1, a@.len() as int));
        assert(restb.subrange(1, restb.len() as int) =~= b@.subrange(i + 1, b@.len() as int));
        i = i + 1;
    }
}

pub proof fn lemma_precedes_transitive(a: Seq<char>, b: Seq<char>, c: Seq<char>)
    requires
        precedes(a, b),
        precedes(b, c),
    ensures
        precedes(a, c),
    decreases a.len(),
{
    if a.len() > 0 && b.len() > 0 && c.len() > 0 && a[0] == b[0] && b[0] == c[0] {
        lemma_precedes_transitive(
            a.subrange(1, a.len() as int),
            b.subrange(1, b.len() as int),
            c.subrange(1, c.len() as int),
        );
    }
}

pub proof fn lemma_precedes_irreflexive(a: Seq<char>)
    ensures
        !precedes(a, a),
    decreases a.len(),
{
    if a.len() > 0 {
        lemma_precedes_irreflexive(a.subrange(1, a.len() as int));
    }
}

pub proof fn lemma_precedes_total(a: Seq<char>, b: Seq<char>)
    ensures
        precedes(a, b) || precedes(b, a) || a == b,
        !(precedes(a, b) && precedes(b, a)),
    decreases a.len(),
{
    if a.len() == 0 || b.len() == 0 {
        if a.len() == 0 && b.len() == 0 {
            assert(a =~= b);
        }
    } else {
        let ra = a.subrange(1, a.len() as int);
        let rb = b.subrange(1, b.len() as int);
        lemma_precedes_total(ra, rb);
        if a[0] == b[0] && ra == rb {
            assert(a =~= seq![a[0]] + ra);
            assert(b =~= seq![b[0]] + rb);
        }
        assert((a[0] as int) == (b[0] as int) ==> a[0] == b[0]);
    }
}

} // verus!
