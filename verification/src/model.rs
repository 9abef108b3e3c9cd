//! User-interface state that depends on no framework.

use vstd::prelude::*;
use vstd::string::*;

use crate::config::string_texts;
use crate::text::{
    chars_of, fields_of, lines_of, lowercase_text, lowercased, next_line, same_chars, same_text,
    split_symbols, split_words, string_of, symbol_separators, texts, trim_start, trimmed_start,
    word_separators,
};

verus! {

/// A mobile editor draft that survives closing the editor for the same source.
///
/// Replacing the active source invalidates the draft. Explicit preset selection
/// should call [`Self::reset`] even when the preset has the same source text.
#[derive(Debug, Clone)]
pub struct GrammarDraft {
    base: String,
    text: String,
}

/// The source that a draft began with, and its text.
pub struct Draft {
    pub base: Seq<char>,
    pub text: Seq<char>,
}

impl vstd::view::View for GrammarDraft {
    type V = Draft;

    closed spec fn view(&self) -> Draft {
        Draft { base: self.base@, text: self.text@ }
    }
}

impl Draft {
    pub open spec fn modified(self) -> bool {
        self.text != self.base
    }

    pub open spec fn fresh(source: Seq<char>) -> Draft {
        Draft { base: source, text: source }
    }

    /// The draft once the editor is open for a source.
    pub open spec fn opened(self, source: Seq<char>) -> Draft {
        if self.base == source {
            self
        } else {
            Draft::fresh(source)
        }
    }

    /// The draft and the applied source, if anything is applied.
    pub open spec fn applied(self, source: Seq<char>) -> (Draft, Option<Seq<char>>) {
        let open = self.opened(source);
        if open.modified() {
            (Draft::fresh(open.text), Some(open.text))
        } else {
            (open, None)
        }
    }
}

impl Default for GrammarDraft {
    fn default() -> (r: Self)
        ensures
            r@ == Draft::fresh(Seq::empty()),
    {
        let draft: GrammarDraft = GrammarDraft { base: String::new(), text: String::new() };
        assert(draft.base@ =~= Seq::empty());
        assert(draft.text@ =~= Seq::empty());
        draft
    }
}

impl GrammarDraft {
    pub fn open(&mut self, source: &str)
        ensures
            final(self)@ == old(self)@.opened(source@),
    {
        if !same_text(self.base.as_str(), source) {
            self.reset(source);
        }
    }

    pub fn text(&self) -> (r: &str)
        ensures
            r@ == self@.text,
    {
        self.text.as_str()
    }

    pub fn edit(&mut self, text: String)
        ensures
            final(self)@ == (Draft { text: text@, ..old(self)@ }),
    {
        self.text = text;
    }

    pub fn is_modified(&self) -> (r: bool)
        ensures
            r == self@.modified(),
    {
        !same_text(self.text.as_str(), self.base.as_str())
    }

    /// Returns an edited source once, unless the active source was replaced.
    pub fn apply(&mut self, current_source: &str) -> (r: Option<String>)
        ensures
            final(self)@ == old(self)@.applied(current_source@).0,
            match r {
                Some(source) => old(self)@.applied(current_source@).1 == Some(source@),
                None => old(self)@.applied(current_source@).1 is None,
            },
    {
        self.open(current_source);
        if !self.is_modified() {
            return None;
        }
        let applied: String = self.text.clone();
        self.base = self.text.clone();
        Some(applied)
    }

    pub fn reset(&mut self, source: &str)
        ensures
            final(self)@ == Draft::fresh(source@),
    {
        self.base = source.to_owned();
        self.text = source.to_owned();
    }
}

/// A draft is applied once: applying it again for the source that it became
/// gives nothing and changes nothing.
pub proof fn drafts_apply_once(draft: Draft, source: Seq<char>)
    ensures
        ({
            let (after, applied) = draft.applied(source);
            &&& !after.modified()
            &&& applied matches Some(text) ==> after.applied(text) == (after, None::<Seq<char>>)
            &&& applied is None ==> after.applied(source) == (after, None::<Seq<char>>)
        }),
{
}

/// Opening the editor again for the same source keeps the draft.
pub proof fn drafts_survive_reopening(draft: Draft, source: Seq<char>, text: Seq<char>)
    ensures
        ({
            let edited = Draft { text, ..draft.opened(source) };
            edited.opened(source) == edited
        }),
{
}

/// A draft of a source that was replaced is never applied.
pub proof fn replaced_sources_discard_drafts(draft: Draft, source: Seq<char>)
    requires
        draft.base != source,
    ensures
        draft.applied(source) == (Draft::fresh(source), None::<Seq<char>>),
{
}

#[derive(Debug, Clone, Copy, PartialEq, Eq, Structural)]
pub enum ThemePreference {
    Auto,
    Light,
    Dark,
}

impl ThemePreference {
    pub open spec fn following(self) -> ThemePreference {
        match self {
            ThemePreference::Auto => ThemePreference::Light,
            ThemePreference::Light => ThemePreference::Dark,
            ThemePreference::Dark => ThemePreference::Auto,
        }
    }

    pub fn next(self) -> (r: Self)
        ensures
            r == self.following(),
    {
        match self {
            ThemePreference::Auto => ThemePreference::Light,
            ThemePreference::Light => ThemePreference::Dark,
            ThemePreference::Dark => ThemePreference::Auto,
        }
    }

    /// What the button says that leads to the next preference.
    pub open spec fn label(self) -> Seq<char> {
        match self {
            ThemePreference::Auto => "Switch to light theme"@,
            ThemePreference::Light => "Switch to dark theme"@,
            ThemePreference::Dark => "Follow system theme"@,
        }
    }

    pub fn button_label(self) -> (r: &'static str)
        ensures
            r@ == self.label(),
    {
        match self {
            ThemePreference::Auto => "Switch to light theme",
            ThemePreference::Light => "Switch to dark theme",
            ThemePreference::Dark => "Follow system theme",
        }
    }

    pub open spec fn symbol(self) -> Seq<char> {
        match self {
            ThemePreference::Auto => "\u{25d0}"@,
            ThemePreference::Light => "\u{2600}"@,
            ThemePreference::Dark => "\u{263e}"@,
        }
    }

    pub fn icon(self) -> (r: &'static str)
        ensures
            r@ == self.symbol(),
    {
        match self {
            ThemePreference::Auto => "\u{25d0}",
            ThemePreference::Light => "\u{2600}",
            ThemePreference::Dark => "\u{263e}",
        }
    }

    /// Whether the preference means a dark theme.
    pub open spec fn dark(self, system_dark: bool) -> bool {
        match self {
            ThemePreference::Auto => system_dark,
            ThemePreference::Light => false,
            ThemePreference::Dark => true,
        }
    }

    pub fn resolve_dark(self, system_dark: bool) -> (r: bool)
        ensures
            r == self.dark(system_dark),
    {
        match self {
            ThemePreference::Auto => system_dark,
            ThemePreference::Light => false,
            ThemePreference::Dark => true,
        }
    }
}

/// Three steps lead from every preference back to it, and no fewer.
pub proof fn theme_cycle_has_three_steps(theme: ThemePreference)
    ensures
        theme.following() != theme,
        theme.following().following() != theme,
        theme.following().following().following() == theme,
{
}

/// The lower-case forms of the words of a query.
pub open spec fn search_terms(query: Seq<char>) -> Seq<Seq<char>> {
    fields_of(query, word_separators()).map_values(|term: Seq<char>| lowercase_text(term))
}

pub fn normalized_search_terms(query: &str) -> (r: Vec<String>)
    ensures
        string_texts(r@) == search_terms(query@),
{
    let chars: Vec<char> = chars_of(query);
    let words: Vec<&[char]> = split_words(chars.as_slice());
    let ghost all = search_terms(query@);
    let mut terms: Vec<String> = Vec::new();
    let mut i: usize = 0;
    assert(string_texts(terms@) =~= all.subrange(0, 0));
    while i < words.len()
        invariant
            i <= words@.len(),
            texts(words@) == fields_of(query@, word_separators()),
            all == search_terms(query@),
            string_texts(terms@) == all.subrange(0, i as int),
        decreases words@.len() - i,
    {
        let word: String = string_of(words[i]);
        let term: String = lowercased(word.as_str());
        assert(texts(words@)[i as int] == words@[i as int]@);
        assert(term@ == all[i as int]);
        let ghost before = terms@;
        terms.push(term);
        i = i + 1;
        assert(string_texts(terms@) =~= string_texts(before).push(all[i - 1]));
        assert(string_texts(terms@) =~= all.subrange(0, i as int));
    }
    assert(texts(words@).len() == words@.len());
    assert(all.subrange(0, i as int) =~= all);
    terms
}

/// One step from an iteration towards another.
pub open spec fn step_towards(current: int, target: int) -> Option<int> {
    if current < target {
        Some(current + 1)
    } else if current > target {
        Some(current - 1)
    } else {
        None
    }
}

pub fn next_iteration(current: usize, target: usize) -> (r: Option<usize>)
    ensures
        match r {
            Some(next) => step_towards(current as int, target as int) == Some(next as int),
            None => step_towards(current as int, target as int) is None,
        },
{
    if current < target {
        Some(current + 1)
    } else if current > target {
        Some(current - 1)
    } else {
        None
    }
}

/// The iteration after so many steps towards a target.
pub open spec fn iteration_after(current: int, target: int, steps: nat) -> int
    decreases steps,
{
    if steps == 0 {
        current
    } else {
        match step_towards(current, target) {
            Some(next) => iteration_after(next, target, (steps - 1) as nat),
            None => current,
        }
    }
}

/// A route reaches its target in as many steps as it is away, visiting every
/// iteration between, and stays there.
pub proof fn routes_reach_their_target(current: int, target: int, steps: nat)
    ensures
        ({
            let away = if current < target { target - current } else { current - target };
            let reached = iteration_after(current, target, steps);
            if steps >= away {
                reached == target
            } else if current < target {
                reached == current + steps
            } else {
                reached == current - steps
            }
        }),
    decreases steps,
{
    if steps > 0 {
        match step_towards(current, target) {
            Some(next) => {
                routes_reach_their_target(next, target, (steps - 1) as nat);
            },
            None => {},
        }
    }
}

/// Touch count needed to acquire navigation in the canvas.
///
/// Mobile 2D views leave the first finger available for page scrolling. A 3D
/// view owns the first touch so the app can stop preset autorotation on a tap
/// and rotate the model on a drag. Desktop views also own the first touch.
pub fn required_canvas_touches(is_mobile: bool, is_spatial: bool) -> (r: usize)
    ensures
        r == if is_mobile && !is_spatial { 2usize } else { 1 },
{
    if is_mobile && !is_spatial {
        2
    } else {
        1
    }
}

#[derive(Debug, Clone, Copy, PartialEq, Eq, Structural)]
pub struct TouchOwnership {
    /// The current browser event belongs to an established or newly acquired
    /// canvas gesture and should suppress native scrolling.
    pub handle_event: bool,
    /// Ownership remains sticky while at least one finger from the captured
    /// gesture is still down.
    pub retain_after_event: bool,
}

pub open spec fn owns_touch(
    was_owned: bool,
    navigation_enabled: bool,
    required_touches: usize,
    touch_count: usize,
) -> TouchOwnership {
    let required = if required_touches == 0 { 1 } else { required_touches };
    let handled = was_owned || (navigation_enabled && touch_count >= required);
    TouchOwnership { handle_event: handled, retain_after_event: handled && touch_count > 0 }
}

pub fn touch_ownership(
    was_owned: bool,
    navigation_enabled: bool,
    required_touches: usize,
    touch_count: usize,
) -> (r: TouchOwnership)
    ensures
        r == owns_touch(was_owned, navigation_enabled, required_touches, touch_count),
{
    let required: usize = if required_touches == 0 {
        1
    } else {
        required_touches
    };
    let handle_event: bool = was_owned || (navigation_enabled && touch_count >= required);
    TouchOwnership { handle_event, retain_after_event: handle_event && touch_count > 0 }
}

/// Whether a gesture is owned after some events, each with its navigation
/// setting, its required touches and its fingers.
pub open spec fn owned_after(owned: bool, events: Seq<(bool, usize, usize)>) -> bool
    decreases events.len(),
{
    if events.len() == 0 {
        owned
    } else {
        let event = events.last();
        owns_touch(
            owned_after(owned, events.drop_last()),
            event.0,
            event.1,
            event.2,
        ).retain_after_event
    }
}

/// An owned gesture stays owned until every finger has left, whatever else
/// changes.
pub proof fn owned_gestures_last_until_release(events: Seq<(bool, usize, usize)>)
    requires
        forall|i: int| 0 <= i < events.len() ==> (#[trigger] events[i]).2 > 0,
    ensures
        owned_after(true, events),
    decreases events.len(),
{
    if events.len() > 0 {
        let init = events.drop_last();
        assert forall|i: int| 0 <= i < init.len() implies (#[trigger] init[i]).2 > 0 by {
            assert(init[i] == events[i]);
        }
        owned_gestures_last_until_release(init);
        assert(events[events.len() - 1].2 > 0);
    }
}

/// When the last finger leaves, the gesture is over.
pub proof fn release_ends_ownership(owned: bool, navigation: bool, required: usize)
    ensures
        !owns_touch(owned, navigation, required, 0).retain_after_event,
{
}

pub fn is_primary_mouse_button(pointer_type: &str, button: i16) -> (r: bool)
    ensures
        r == (pointer_type@ == "mouse"@ && button == 0),
{
    same_text(pointer_type, "mouse") && button == 0
}

pub fn preset_autorotation_enabled(is_spatial: bool, reduced_motion: bool) -> (r: bool)
    ensures
        r == (is_spatial && !reduced_motion),
{
    is_spatial && !reduced_motion
}

pub open spec fn rotation_after_preference(
    active: bool,
    pending_epoch: Option<u64>,
    reduced_motion: bool,
) -> (bool, Option<u64>) {
    if reduced_motion {
        (false, None)
    } else {
        (active, pending_epoch)
    }
}

pub fn autorotation_after_motion_preference(
    active: bool,
    pending_epoch: Option<u64>,
    reduced_motion: bool,
) -> (r: (bool, Option<u64>))
    ensures
        r == rotation_after_preference(active, pending_epoch, reduced_motion),
{
    if reduced_motion {
        (false, None)
    } else {
        (active, pending_epoch)
    }
}

/// Rotation that a preference has stopped does not resume when the preference
/// is taken back.
pub proof fn stopped_rotation_does_not_resume(active: bool, pending_epoch: Option<u64>)
    ensures
        ({
            let stopped = rotation_after_preference(active, pending_epoch, true);
            rotation_after_preference(stopped.0, stopped.1, false) == (false, None::<u64>)
        }),
{
}

pub fn display_refinement_is_running(
    is_refining: bool,
    autorotating: bool,
    interacting: bool,
) -> (r: bool)
    ensures
        r == (is_refining && !autorotating && !interacting),
{
    is_refining && !autorotating && !interacting
}

/// A symbol that fills polygons.
pub open spec fn fills(word: Seq<char>) -> bool {
    word == "PolygonBegin"@ || word == "PolygonEnd"@ || word == "Vertex"@
}

/// A line that is not a comment and has a symbol that fills polygons.
pub open spec fn line_fills(line: Seq<char>) -> bool {
    let rest = trimmed_start(line);
    let words = fields_of(line, symbol_separators());
    &&& !(rest.len() > 0 && rest[0] == '#')
    &&& exists|i: int| 0 <= i < words.len() && fills(#[trigger] words[i])
}

/// A source has a line that fills polygons.
pub open spec fn source_fills(source: Seq<char>) -> bool {
    exists|i: int| 0 <= i < lines_of(source).len() && line_fills(#[trigger] lines_of(source)[i])
}

fn line_has_fill(line: &[char]) -> (r: bool)
    ensures
        r == line_fills(line@),
{
    let rest: &[char] = trim_start(line);
    if rest.len() > 0 && rest[0] == '#' {
        return false;
    }
    let begin: Vec<char> = chars_of("PolygonBegin");
    let end: Vec<char> = chars_of("PolygonEnd");
    let vertex: Vec<char> = chars_of("Vertex");
    let words: Vec<&[char]> = split_symbols(line);
    let mut i: usize = 0;
    while i < words.len()
        invariant
            begin@ == "PolygonBegin"@,
            end@ == "PolygonEnd"@,
            vertex@ == "Vertex"@,
            i <= words@.len(),
            texts(words@) == fields_of(line@, symbol_separators()),
            trimmed_start(line@).len() > 0 ==> trimmed_start(line@)[0] != '#',
            forall|k: int| 0 <= k < i ==> !fills(#[trigger] texts(words@)[k]),
        decreases words@.len() - i,
    {
        let word: &[char] = words[i];
        assert(texts(words@)[i as int] == word@);
        if same_chars(word, begin.as_slice()) || same_chars(word, end.as_slice()) || same_chars(
            word,
            vertex.as_slice(),
        ) {
            assert(fills(fields_of(line@, symbol_separators())[i as int]));
            return true;
        }
        i = i + 1;
    }
    assert(texts(words@).len() == words@.len());
    false
}

pub fn source_uses_filled_turtle_polygons(source: &str) -> (r: bool)
    ensures
        r == source_fills(source@),
{
    let chars: Vec<char> = chars_of(source);
    let ghost all = lines_of(source@);
    let mut rest: &[char] = chars.as_slice();
    let ghost mut seen: int = 0;
    assert(all.subrange(0, all.len() as int) =~= all);
    while rest.len() > 0
        invariant
            all == lines_of(source@),
            0 <= seen <= all.len(),
            lines_of(rest@) == all.subrange(seen, all.len() as int),
            forall|k: int| 0 <= k < seen ==> !line_fills(#[trigger] all[k]),
        decreases rest@.len(),
    {
        let (line, behind) = next_line(rest);
        proof {
            let ahead = all.subrange(seen, all.len() as int);
            assert(ahead[0] == line@);
            assert(ahead.len() == all.len() - seen);
            assert(all[seen] == line@);
            assert(all.subrange(seen + 1, all.len() as int) =~= ahead.subrange(
                1,
                ahead.len() as int,
            ));
            assert(lines_of(behind@) =~= ahead.subrange(1, ahead.len() as int));
        }
        if line_has_fill(line) {
            assert(line_fills(lines_of(source@)[seen]));
            return true;
        }
        rest = behind;
        proof {
            seen = seen + 1;
        }
    }
    assert(lines_of(rest@) =~= Seq::empty());
    assert(seen == all.len());
    false
}

} // verus!
