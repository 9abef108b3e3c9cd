//! What a rendered scene was made from: two scenes with one identity differ
//! only in their iteration.

use vstd::prelude::*;
use vstd::string::*;

use crate::config::{
    configured, constant_value, declared_palette, first_of, line_value, metadata_value, note_value,
    pair_texts, string_texts, Turtle2dConfig,
};
use crate::geometry::{same_rgb, StrokeColor};
use crate::kind::VisualizerKind;
use crate::number::{Arithmetic, Real};
use crate::single::Single;
use crate::text::{
    behind_prefix, lines_of, same_text, trimmed, trimmed_end, trimmed_start, white_space,
};

verus! {

/// The precision of a derivation.
#[derive(Debug, Clone, Copy, PartialEq, Eq, Structural)]
pub enum FloatWidth {
    F32,
    F64,
}

/// What a derivation does where several rules match.
#[derive(Debug, Clone, Copy, PartialEq, Eq, Structural)]
pub enum AmbiguousRules {
    Uniform,
    First,
    Error,
}

/// The settings of a turtle.
pub struct Settings {
    pub turn_angle: Real,
    pub initial_angle: Real,
    pub default_step: Real,
    pub scale_multiplier: Real,
    pub initial_width: Real,
    pub width_increment: Real,
    pub turn_angle_increment: Real,
    pub initial_color: StrokeColor,
    pub color_increment: i32,
    pub palette: Seq<[u8; 3]>,
    pub background: Option<[u8; 3]>,
    pub draw_modules: Seq<Seq<char>>,
    pub move_modules: Seq<Seq<char>>,
    pub module_aliases: Seq<(Seq<char>, Seq<char>)>,
}

pub open spec fn settings_of(config: Turtle2dConfig) -> Settings {
    Settings {
        turn_angle: config.turn_angle,
        initial_angle: config.initial_angle,
        default_step: config.default_step,
        scale_multiplier: config.scale_multiplier,
        initial_width: config.initial_width,
        width_increment: config.width_increment,
        turn_angle_increment: config.turn_angle_increment,
        initial_color: config.initial_color,
        color_increment: config.color_increment,
        palette: config.palette@,
        background: config.background,
        draw_modules: string_texts(config.draw_modules@),
        move_modules: string_texts(config.move_modules@),
        module_aliases: pair_texts(config.module_aliases@),
    }
}

impl Settings {
    /// Settings that draw alike at one angle: what they turn by is left aside.
    pub open spec fn alike(self, other: Settings) -> bool {
        self == Settings { turn_angle: self.turn_angle, ..other }
    }
}

fn same_backgrounds(a: &Option<[u8; 3]>, b: &Option<[u8; 3]>) -> (r: bool)
    ensures
        r == (*a == *b),
{
    match (a, b) {
        (None, None) => true,
        (Some(a), Some(b)) => same_rgb(*a, *b),
        _ => false,
    }
}

fn same_palettes(a: &Vec<[u8; 3]>, b: &Vec<[u8; 3]>) -> (r: bool)
    ensures
        r == (a@ == b@),
{
    if a.len() != b.len() {
        return false;
    }
    let mut i: usize = 0;
    while i < a.len()
        invariant
            a@.len() == b@.len(),
            i <= a@.len(),
            forall|k: int| 0 <= k < i ==> #[trigger] a@[k] == b@[k],
        decreases a@.len() - i,
    {
        if !same_rgb(a[i], b[i]) {
            assert(a@[i as int] != b@[i as int]);
            return false;
        }
        i = i + 1;
    }
    assert(a@ =~= b@);
    true
}

fn same_lists(a: &Vec<String>, b: &Vec<String>) -> (r: bool)
    ensures
        r == (string_texts(a@) == string_texts(b@)),
{
    assert(string_texts(a@).len() == a@.len() && string_texts(b@).len() == b@.len());
    if a.len() != b.len() {
        return false;
    }
    let mut i: usize = 0;
    while i < a.len()
        invariant
            a@.len() == b@.len(),
            i <= a@.len(),
            forall|k: int| 0 <= k < i ==> #[trigger] string_texts(a@)[k] == string_texts(b@)[k],
        decreases a@.len() - i,
    {
        if !same_text(a[i].as_str(), b[i].as_str()) {
            assert(string_texts(a@)[i as int] != string_texts(b@)[i as int]);
            return false;
        }
        i = i + 1;
    }
    assert(string_texts(a@) =~= string_texts(b@));
    true
}

fn same_pairs(a: &Vec<(String, String)>, b: &Vec<(String, String)>) -> (r: bool)
    ensures
        r == (pair_texts(a@) == pair_texts(b@)),
{
    assert(pair_texts(a@).len() == a@.len() && pair_texts(b@).len() == b@.len());
    if a.len() != b.len() {
        return false;
    }
    let mut i: usize = 0;
    while i < a.len()
        invariant
            a@.len() == b@.len(),
            i <= a@.len(),
            forall|k: int| 0 <= k < i ==> #[trigger] pair_texts(a@)[k] == pair_texts(b@)[k],
        decreases a@.len() - i,
    {
        let (x, y): (&(String, String), &(String, String)) = (&a[i], &b[i]);
        if !same_text(x.0.as_str(), y.0.as_str()) || !same_text(x.1.as_str(), y.1.as_str()) {
            assert(pair_texts(a@)[i as int] != pair_texts(b@)[i as int]);
            return false;
        }
        i = i + 1;
    }
    assert(pair_texts(a@) =~= pair_texts(b@));
    true
}

/// Whether two configurations draw alike at one angle.
pub fn turtle_configs_equal(left: &Turtle2dConfig, right: &Turtle2dConfig) -> (r: bool)
    ensures
        r == settings_of(*left).alike(settings_of(*right)),
{
    left.initial_angle.bits == right.initial_angle.bits && left.default_step.bits
        == right.default_step.bits && left.scale_multiplier.bits == right.scale_multiplier.bits
        && left.initial_width.bits == right.initial_width.bits && left.width_increment.bits
        == right.width_increment.bits && left.turn_angle_increment.bits
        == right.turn_angle_increment.bits && left.initial_color.same_as(right.initial_color)
        && left.color_increment == right.color_increment && same_palettes(
        &left.palette,
        &right.palette,
    ) && same_backgrounds(&left.background, &right.background) && same_lists(
        &left.draw_modules,
        &right.draw_modules,
    ) && same_lists(&left.move_modules, &right.move_modules) && same_pairs(
        &left.module_aliases,
        &right.module_aliases,
    )
}

fn copy_palette(palette: &Vec<[u8; 3]>) -> (r: Vec<[u8; 3]>)
    ensures
        r@ == palette@,
{
    let mut out: Vec<[u8; 3]> = Vec::new();
    let mut i: usize = 0;
    while i < palette.len()
        invariant
            i <= palette@.len(),
            out@ == palette@.subrange(0, i as int),
        decreases palette@.len() - i,
    {
        out.push(palette[i]);
        i = i + 1;
        assert(out@ =~= palette@.subrange(0, i as int));
    }
    assert(out@ =~= palette@);
    out
}

fn copy_list(list: &Vec<String>) -> (r: Vec<String>)
    ensures
        string_texts(r@) == string_texts(list@),
{
    let ghost all = string_texts(list@);
    let mut out: Vec<String> = Vec::new();
    let mut i: usize = 0;
    assert(string_texts(out@) =~= all.subrange(0, 0));
    while i < list.len()
        invariant
            i <= list@.len(),
            all == string_texts(list@),
            string_texts(out@) == all.subrange(0, i as int),
        decreases list@.len() - i,
    {
        let ghost before = out@;
        out.push(list[i].clone());
        assert(all[i as int] == list@[i as int]@);
        i = i + 1;
        assert(string_texts(out@) =~= string_texts(before).push(all[i - 1]));
        assert(string_texts(out@) =~= all.subrange(0, i as int));
    }
    assert(all.subrange(0, i as int) =~= all);
    out
}

fn copy_pairs(pairs: &Vec<(String, String)>) -> (r: Vec<(String, String)>)
    ensures
        pair_texts(r@) == pair_texts(pairs@),
{
    let ghost all = pair_texts(pairs@);
    let mut out: Vec<(String, String)> = Vec::new();
    let mut i: usize = 0;
    assert(pair_texts(out@) =~= all.subrange(0, 0));
    while i < pairs.len()
        invariant
            i <= pairs@.len(),
            all == pair_texts(pairs@),
            pair_texts(out@) == all.subrange(0, i as int),
        decreases pairs@.len() - i,
    {
        let ghost before = out@;
        let pair: &(String, String) = &pairs[i];
        let copy: (String, String) = (pair.0.clone(), pair.1.clone());
        out.push(copy);
        assert(all[i as int] == (pairs@[i as int].0@, pairs@[i as int].1@));
        i = i + 1;
        assert(pair_texts(out@) =~= pair_texts(before).push(all[i - 1]));
        assert(pair_texts(out@) =~= all.subrange(0, i as int));
    }
    assert(all.subrange(0, i as int) =~= all);
    out
}

/// A configuration like another.
pub fn copy_config(config: &Turtle2dConfig) -> (r: Turtle2dConfig)
    ensures
        settings_of(r) == settings_of(*config),
{
    Turtle2dConfig {
        turn_angle: config.turn_angle,
        initial_angle: config.initial_angle,
        default_step: config.default_step,
        scale_multiplier: config.scale_multiplier,
        initial_width: config.initial_width,
        width_increment: config.width_increment,
        turn_angle_increment: config.turn_angle_increment,
        initial_color: config.initial_color,
        color_increment: config.color_increment,
        palette: copy_palette(&config.palette),
        background: config.background,
        draw_modules: copy_list(&config.draw_modules),
        move_modules: copy_list(&config.move_modules),
        module_aliases: copy_pairs(&config.module_aliases),
    }
}

/// What a rendered scene was made from, besides its iteration.
#[derive(Debug)]
pub struct RenderIdentity {
    pub source: String,
    pub angle: Single,
    pub visualizer: VisualizerKind,
    pub config: Turtle2dConfig,
    /// A number for the anchor of the orientation, where one was chosen.
    pub anchor: Option<u32>,
    pub seed: u64,
    pub float_width: FloatWidth,
    pub ambiguous_rules: AmbiguousRules,
}

/// An identity with its texts as character sequences.
pub struct Identity {
    pub source: Seq<char>,
    pub angle: Single,
    pub visualizer: VisualizerKind,
    pub settings: Settings,
    pub anchor: Option<u32>,
    pub seed: u64,
    pub float_width: FloatWidth,
    pub ambiguous_rules: AmbiguousRules,
}

impl Identity {
    /// Identities of one drawing: the angle is their own, so what the settings
    /// turn by is left aside.
    pub open spec fn alike(self, other: Identity) -> bool {
        &&& self.settings.alike(other.settings)
        &&& self == Identity { settings: self.settings, ..other }
    }
}

impl View for RenderIdentity {
    type V = Identity;

    open spec fn view(&self) -> Identity {
        Identity {
            source: self.source@,
            angle: self.angle,
            visualizer: self.visualizer,
            settings: settings_of(self.config),
            anchor: self.anchor,
            seed: self.seed,
            float_width: self.float_width,
            ambiguous_rules: self.ambiguous_rules,
        }
    }
}

impl RenderIdentity {
    pub fn same_as(&self, other: &RenderIdentity) -> (r: bool)
        ensures
            r == self@.alike(other@),
    {
        same_text(self.source.as_str(), other.source.as_str()) && self.angle.bits
            == other.angle.bits && self.visualizer == other.visualizer && turtle_configs_equal(
            &self.config,
            &other.config,
        ) && self.anchor == other.anchor && self.seed == other.seed && self.float_width
            == other.float_width && self.ambiguous_rules == other.ambiguous_rules
    }

    /// An identity like this one.
    pub fn copy(&self) -> (r: RenderIdentity)
        ensures
            r@ == self@,
    {
        RenderIdentity {
            source: self.source.clone(),
            angle: self.angle,
            visualizer: self.visualizer,
            config: copy_config(&self.config),
            anchor: self.anchor,
            seed: self.seed,
            float_width: self.float_width,
            ambiguous_rules: self.ambiguous_rules,
        }
    }
}

/// A source is not asked for what a turtle turns by and steps by: applying its
/// metadata leaves both.
pub proof fn metadata_leaves_turns_and_steps(
    before: Turtle2dConfig,
    source: Seq<char>,
    ev: spec_fn(Arithmetic) -> Real,
    rd: spec_fn(Seq<char>) -> Option<Real>,
    after: Turtle2dConfig,
)
    requires
        configured(before, source, ev, rd, after),
    ensures
        after.turn_angle == before.turn_angle,
        after.default_step == before.default_step,
{
}

/// Applying the metadata of a source twice is applying it once.
pub proof fn metadata_applies_once(
    before: Turtle2dConfig,
    source: Seq<char>,
    ev: spec_fn(Arithmetic) -> Real,
    rd: spec_fn(Seq<char>) -> Option<Real>,
    once: Turtle2dConfig,
    twice: Turtle2dConfig,
)
    requires
        configured(before, source, ev, rd, once),
        configured(once, source, ev, rd, twice),
    ensures
        settings_of(twice) == settings_of(once),
{
    assert(declared_palette(source, once.palette@) == once.palette@);
}

/// A line that is neither a comment nor a binding.
pub open spec fn plain_line(line: Seq<char>) -> bool {
    let text = trimmed_start(line);
    &&& text.len() > 0 ==> text[0] != '#'
    &&& behind_prefix(text, "let "@) is None
}

proof fn lemma_first_of_none<T>(
    lines: Seq<Seq<char>>,
    question: spec_fn(Seq<char>) -> Option<T>,
)
    requires
        forall|i: int| 0 <= i < lines.len() ==> question(#[trigger] lines[i]) is None,
    ensures
        first_of(lines, question) is None,
    decreases lines.len(),
{
    if lines.len() > 0 {
        let rest = lines.subrange(1, lines.len() as int);
        assert(question(lines[0]) is None);
        assert forall|i: int| 0 <= i < rest.len() implies question(#[trigger] rest[i]) is None by {
            assert(rest[i] == lines[i + 1]);
        }
        lemma_first_of_none(rest, question);
    }
}

proof fn lemma_trimmed_end_prefix(s: Seq<char>)
    ensures
        trimmed_end(s).len() <= s.len(),
        trimmed_end(s) == s.subrange(0, trimmed_end(s).len() as int),
    decreases s.len(),
{
    if s.len() > 0 && white_space(s.last()) {
        lemma_trimmed_end_prefix(s.drop_last());
        assert(s.drop_last().subrange(0, trimmed_end(s).len() as int) =~= s.subrange(
            0,
            trimmed_end(s).len() as int,
        ));
    } else {
        assert(s.subrange(0, s.len() as int) =~= s);
    }
}

proof fn lemma_no_comments(source: Seq<char>, key: Seq<char>, rd: spec_fn(Seq<char>) -> Option<Real>)
    requires
        forall|i: int| 0 <= i < lines_of(source).len() ==> plain_line(#[trigger] lines_of(source)[i]),
    ensures
        metadata_value(source, key) is None,
        first_of(lines_of(source), |line: Seq<char>| note_value(line, key, rd)) is None,
        first_of(lines_of(source), |line: Seq<char>| constant_value(line, key, rd)) is None,
{
    let lines = lines_of(source);
    reveal_strlit("# ");
    reveal_strlit("# Note");
    reveal_strlit("let ");
    let comment = |line: Seq<char>| line_value(line, key);
    let note = |line: Seq<char>| note_value(line, key, rd);
    let constant = |line: Seq<char>| constant_value(line, key, rd);
    assert forall|i: int| 0 <= i < lines.len() implies comment(#[trigger] lines[i]) is None by {
        let text = trimmed_start(lines[i]);
        assert(plain_line(lines[i]));
        if behind_prefix(text, "# "@) is Some {
            assert(text.subrange(0, 2)[0] == "# "@[0]);
        }
    }
    assert forall|i: int| 0 <= i < lines.len() implies note(#[trigger] lines[i]) is None by {
        let text = trimmed_start(lines[i]);
        assert(plain_line(lines[i]));
        if behind_prefix(text, "# Note"@) is Some {
            assert(text.subrange(0, 6)[0] == "# Note"@[0]);
        }
    }
    assert forall|i: int| 0 <= i < lines.len() implies constant(#[trigger] lines[i]) is None by {
        let text = trimmed_start(lines[i]);
        assert(plain_line(lines[i]));
        lemma_trimmed_end_prefix(text);
        if behind_prefix(trimmed(lines[i]), "let "@) is Some {
            assert(trimmed(lines[i]).subrange(0, 4) =~= text.subrange(0, 4));
        }
    }
    lemma_first_of_none(lines, comment);
    lemma_first_of_none(lines, note);
    lemma_first_of_none(lines, constant);
}

/// A source without comments and bindings changes nothing.
pub proof fn plain_sources_change_nothing(
    before: Turtle2dConfig,
    source: Seq<char>,
    ev: spec_fn(Arithmetic) -> Real,
    rd: spec_fn(Seq<char>) -> Option<Real>,
    after: Turtle2dConfig,
)
    requires
        configured(before, source, ev, rd, after),
        forall|i: int| 0 <= i < lines_of(source).len() ==> plain_line(#[trigger] lines_of(source)[i]),
    ensures
        settings_of(after) == settings_of(before),
{
    lemma_no_comments(source, "Heading"@, rd);
    lemma_no_comments(source, "Initial Width"@, rd);
    lemma_no_comments(source, "Upstream thickness setting"@, rd);
    lemma_no_comments(source, "Scale"@, rd);
    lemma_no_comments(source, "SCALE"@, rd);
    lemma_no_comments(source, "Width Increment"@, rd);
    lemma_no_comments(source, "Angle Increment"@, rd);
    lemma_no_comments(source, "Color Increment"@, rd);
    lemma_no_comments(source, "Palette"@, rd);
    lemma_no_comments(source, "Stroke Color"@, rd);
    lemma_no_comments(source, "Initial Color"@, rd);
    lemma_no_comments(source, "Background"@, rd);
    lemma_no_comments(source, "Draw"@, rd);
    lemma_no_comments(source, "Move"@, rd);
    lemma_no_comments(source, "Render Map"@, rd);
}

} // verus!
