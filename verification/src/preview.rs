//! A bounded textual preview of a generation, and its division into rows.

use vstd::prelude::*;
use vstd::string::*;

use crate::config::string_texts;
use crate::error::{exhausted, Failure, VisualizeError};
use crate::generation::{item_weight, weight, Generation, GenerationItem, Module};
use crate::inspector::{
    item_pace, progress_for, progress_of, reserve_vec, room_refused, InspectorPhase,
    InspectorProgress, Stats, Tally,
};
use crate::outlet::{
    asked, called_off, from_list, handed, lemma_listened, lemma_listening_starts,
    lemma_sending_ends, lemma_sending_starts, lemma_told, paced, questions, quiet, sending,
    stopped_by_caller, told, undisturbed, Outlet,
};
use crate::text::{
    chars_of, fields_of, joined, lemma_bytes_at_least, lemma_bytes_join, split_words, string_of,
    text_bytes, texts, utf8_length, word_separators,
};

verus! {

/// A speller of modules answers for every module, and always in the same way.
pub open spec fn spells<W: Fn(&Module) -> Vec<String>>(spell: W) -> bool {
    &&& forall|m: &Module| #[trigger] call_requires(spell, (m,))
    &&& forall|m: &Module, a: Vec<String>, b: Vec<String>| #[trigger]
        call_ensures(spell, (m,), a) && #[trigger] call_ensures(spell, (m,), b) ==> string_texts(
            a@,
        ) == string_texts(b@)
}

/// A speller may write a module in these pieces.
pub open spec fn may_spell<W: Fn(&Module) -> Vec<String>>(
    spell: W,
    module: Module,
    pieces: Seq<Seq<char>>,
) -> bool {
    exists|r: Vec<String>| string_texts(r@) == pieces && #[trigger] call_ensures(
        spell,
        (&module,),
        r,
    )
}

/// The pieces in which a speller writes a module.
pub open spec fn spelling<W: Fn(&Module) -> Vec<String>>(spell: W) -> spec_fn(Module) -> Seq<
    Seq<char>,
> {
    |module: Module| choose|pieces: Seq<Seq<char>>| may_spell(spell, module, pieces)
}

fn pieces_of<W: Fn(&Module) -> Vec<String>>(spell: &W, module: &Module) -> (r: Vec<String>)
    requires
        spells(*spell),
    ensures
        string_texts(r@) == spelling(*spell)(*module),
{
    let r: Vec<String> = spell(module);
    assert(may_spell(*spell, *module, string_texts(r@)));
    r
}

/// The pieces in which an item is written. Branches stand in brackets.
pub open spec fn item_writes(item: GenerationItem, sp: spec_fn(Module) -> Seq<Seq<char>>) -> Seq<
    Seq<char>,
>
    decreases item,
{
    match item {
        GenerationItem::Module(module) => sp(module),
        GenerationItem::Branch(branch) => seq!["[ "@] + writes_from(branch.0@, 0, sp) + seq![
            " ]"@,
        ],
    }
}

/// The pieces in which the items from a place on are written. Spaces separate
/// the items.
pub open spec fn writes_from(
    items: Seq<GenerationItem>,
    next: int,
    sp: spec_fn(Module) -> Seq<Seq<char>>,
) -> Seq<Seq<char>>
    decreases items, items.len() - next,
{
    if 0 <= next < items.len() {
        (if next != 0 {
            seq![" "@]
        } else {
            Seq::empty()
        }) + item_writes(items[next], sp) + writes_from(items, next + 1, sp)
    } else {
        Seq::empty()
    }
}

/// Where an item and those in it stand among the pieces: how many pieces there
/// are before an item, and how many once it counts as visited. A branch counts
/// once it is opened.
pub open spec fn item_spans(
    item: GenerationItem,
    base: int,
    sp: spec_fn(Module) -> Seq<Seq<char>>,
) -> Seq<(int, int)>
    decreases item,
{
    match item {
        GenerationItem::Module(module) => seq![(base, (base + sp(module).len()) as int)],
        GenerationItem::Branch(branch) => seq![(base, base + 1)] + spans_from(
            branch.0@,
            0,
            base + 1,
            sp,
        ),
    }
}

/// Where the items from a place on stand among the pieces.
pub open spec fn spans_from(
    items: Seq<GenerationItem>,
    next: int,
    base: int,
    sp: spec_fn(Module) -> Seq<Seq<char>>,
) -> Seq<(int, int)>
    decreases items, items.len() - next,
{
    if 0 <= next < items.len() {
        let start = if next != 0 {
            base + 1
        } else {
            base
        };
        item_spans(items[next], start, sp) + spans_from(
            items,
            next + 1,
            (start + item_writes(items[next], sp).len()) as int,
            sp,
        )
    } else {
        Seq::empty()
    }
}

/// How many items are visited once some pieces are written.
pub open spec fn visited_items(spans: Seq<(int, int)>, pieces: int) -> int
    decreases spans.len(),
{
    if spans.len() == 0 || spans[0].1 > pieces {
        0
    } else {
        1 + visited_items(spans.subrange(1, spans.len() as int), pieces)
    }
}

/// How many items are begun once some pieces are written: those visited, and
/// the next one where its first piece is up.
pub open spec fn begun_items(spans: Seq<(int, int)>, pieces: int) -> int {
    let visited = visited_items(spans, pieces);
    if visited < spans.len() && spans[visited].0 <= pieces {
        visited + 1
    } else {
        visited
    }
}

/// The bytes of the first pieces.
pub open spec fn bytes_at(pieces: Seq<Seq<char>>, count: int) -> int {
    text_bytes(joined(pieces.subrange(0, count))) as int
}

/// The reports that are due while a preview is written: one after every
/// quantum of visited items, and one at the end unless the preview is cut off
/// right behind such a report.
pub open spec fn preview_reports(
    generation: Generation,
    limit: int,
    quantum: int,
    tally: Tally,
    sp: spec_fn(Module) -> Seq<Seq<char>>,
) -> Seq<InspectorProgress> {
    let pieces = writes_from(generation.0@, 0, sp);
    let spans = spans_from(generation.0@, 0, 0, sp);
    let count = fitting(pieces, 0, content_limit(limit));
    let full = visited_items(spans, count) / quantum;
    Seq::new(
        full as nat,
        |k: int|
            progress_of(
                InspectorPhase::Preview,
                tally,
                bytes_at(pieces, spans[(k + 1) * quantum - 1].1),
            ),
    ) + if begun_items(spans, count) > full * quantum || count == pieces.len() {
        seq![progress_of(InspectorPhase::Preview, tally, bytes_at(pieces, count))]
    } else {
        Seq::empty()
    }
}

proof fn lemma_item_spans_ahead(
    item: GenerationItem,
    base: int,
    sp: spec_fn(Module) -> Seq<Seq<char>>,
)
    ensures
        forall|j: int|
            0 <= j < item_spans(item, base, sp).len() ==> base <= (
            #[trigger] item_spans(item, base, sp)[j]).0 <= item_spans(item, base, sp)[j].1,
    decreases item,
{
    match item {
        GenerationItem::Module(_) => {},
        GenerationItem::Branch(branch) => {
            lemma_spans_ahead(branch.0@, 0, base + 1, sp);
            let inner = spans_from(branch.0@, 0, base + 1, sp);
            let all = item_spans(item, base, sp);
            assert forall|j: int| 0 <= j < all.len() implies base <= (#[trigger] all[j]).0
                <= all[j].1 by {
                if j > 0 {
                    assert(all[j] == inner[j - 1]);
                }
            }
        },
    }
}

proof fn lemma_spans_ahead(
    items: Seq<GenerationItem>,
    next: int,
    base: int,
    sp: spec_fn(Module) -> Seq<Seq<char>>,
)
    ensures
        forall|j: int|
            0 <= j < spans_from(items, next, base, sp).len() ==> base <= (
            #[trigger] spans_from(items, next, base, sp)[j]).0 <= spans_from(
                items,
                next,
                base,
                sp,
            )[j].1,
    decreases items, items.len() - next,
{
    if 0 <= next < items.len() {
        let start = if next != 0 {
            base + 1
        } else {
            base
        };
        let later = (start + item_writes(items[next], sp).len()) as int;
        lemma_item_spans_ahead(items[next], start, sp);
        lemma_spans_ahead(items, next + 1, later, sp);
        let a = item_spans(items[next], start, sp);
        let b = spans_from(items, next + 1, later, sp);
        let all = spans_from(items, next, base, sp);
        assert(all =~= a + b);
        assert forall|j: int| 0 <= j < all.len() implies base <= (#[trigger] all[j]).0
            <= all[j].1 by {
            if j < a.len() {
                assert(all[j] == a[j]);
            } else {
                assert(all[j] == b[j - a.len()]);
            }
        }
    }
}

/// Where the counting of visited items stops.
pub(crate) proof fn lemma_visited(spans: Seq<(int, int)>, pieces: int, visited: int)
    requires
        0 <= visited <= spans.len(),
        forall|j: int| 0 <= j < visited ==> (#[trigger] spans[j]).1 <= pieces,
    ensures
        visited_items(spans, pieces) >= visited,
        visited_items(spans, pieces) <= spans.len(),
        visited == spans.len() || spans[visited].1 > pieces ==> visited_items(spans, pieces)
            == visited,
    decreases spans.len(),
{
    if spans.len() > 0 {
        let rest = spans.subrange(1, spans.len() as int);
        if visited > 0 {
            assert forall|j: int| 0 <= j < visited - 1 implies (#[trigger] rest[j]).1 <= pieces by {
                assert(rest[j] == spans[j + 1]);
            }
            assert(spans[0].1 <= pieces);
            lemma_visited(rest, pieces, visited - 1);
            if visited < spans.len() {
                assert(rest[visited - 1] == spans[visited]);
            }
        } else {
            lemma_visited(rest, pieces, 0);
        }
    }
}

/// How many of some pieces fit behind the bytes used so far: writing stops at
/// the first piece that does not fit.
pub open spec fn fitting(pieces: Seq<Seq<char>>, used: int, limit: int) -> int
    decreases pieces.len(),
{
    if pieces.len() == 0 || used + text_bytes(pieces[0]) > limit {
        0
    } else {
        1 + fitting(
            pieces.subrange(1, pieces.len() as int),
            used + text_bytes(pieces[0]),
            limit,
        )
    }
}

/// The bytes that a preview may use before the mark of an incomplete one.
pub open spec fn content_limit(limit: int) -> int {
    if limit < 3 {
        0
    } else {
        limit - 3
    }
}

/// The preview of a generation, and whether it is complete.
pub open spec fn preview_of(
    generation: Generation,
    limit: int,
    sp: spec_fn(Module) -> Seq<Seq<char>>,
) -> (Seq<char>, bool) {
    let pieces = writes_from(generation.0@, 0, sp);
    let count = fitting(pieces, 0, content_limit(limit));
    let content = joined(pieces.subrange(0, count));
    if count == pieces.len() {
        (content, true)
    } else if limit >= 3 {
        (content.push('…'), false)
    } else {
        (content, false)
    }
}

struct PreviewFrame<'a> {
    items: &'a [GenerationItem],
    next: usize,
    close_branch: bool,
}

/// A level of a preview in progress.
pub struct PreviewLevel {
    pub items: Seq<GenerationItem>,
    pub next: int,
    pub close: bool,
}

spec fn level_of<'a>(frame: PreviewFrame<'a>) -> PreviewLevel {
    PreviewLevel { items: frame.items@, next: frame.next as int, close: frame.close_branch }
}

spec fn levels_of<'a>(frames: Seq<PreviewFrame<'a>>) -> Seq<PreviewLevel> {
    frames.map_values(|f: PreviewFrame<'a>| level_of(f))
}

/// The pieces that are still to be written on some levels.
spec fn levels_writes(
    levels: Seq<PreviewLevel>,
    sp: spec_fn(Module) -> Seq<Seq<char>>,
) -> Seq<Seq<char>>
    decreases levels.len(),
{
    if levels.len() == 0 {
        Seq::empty()
    } else {
        let top = levels.last();
        writes_from(top.items, top.next, sp) + (if top.close {
            seq![" ]"@]
        } else {
            Seq::empty()
        }) + levels_writes(levels.drop_last(), sp)
    }
}

/// Where the items that are still to be visited on some levels stand.
spec fn levels_spans(
    levels: Seq<PreviewLevel>,
    base: int,
    sp: spec_fn(Module) -> Seq<Seq<char>>,
) -> Seq<(int, int)>
    decreases levels.len(),
{
    if levels.len() == 0 {
        Seq::empty()
    } else {
        let top = levels.last();
        let inner = writes_from(top.items, top.next, sp).len() as int;
        spans_from(top.items, top.next, base, sp) + levels_spans(
            levels.drop_last(),
            if top.close {
                base + inner + 1
            } else {
                base + inner
            },
            sp,
        )
    }
}

proof fn lemma_levels_ahead(
    levels: Seq<PreviewLevel>,
    base: int,
    sp: spec_fn(Module) -> Seq<Seq<char>>,
)
    ensures
        forall|j: int|
            0 <= j < levels_spans(levels, base, sp).len() ==> base <= (
            #[trigger] levels_spans(levels, base, sp)[j]).0 <= levels_spans(levels, base, sp)[j].1,
    decreases levels.len(),
{
    if levels.len() > 0 {
        let top = levels.last();
        let inner = writes_from(top.items, top.next, sp).len() as int;
        let later = if top.close {
            base + inner + 1
        } else {
            base + inner
        };
        lemma_spans_ahead(top.items, top.next, base, sp);
        lemma_levels_ahead(levels.drop_last(), later, sp);
        let a = spans_from(top.items, top.next, base, sp);
        let b = levels_spans(levels.drop_last(), later, sp);
        let all = levels_spans(levels, base, sp);
        assert forall|j: int| 0 <= j < all.len() implies base <= (#[trigger] all[j]).0
            <= all[j].1 by {
            if j < a.len() {
                assert(all[j] == a[j]);
            } else {
                assert(all[j] == b[j - a.len()]);
            }
        }
    }
}

/// The steps left on some levels.
spec fn levels_work(levels: Seq<PreviewLevel>) -> nat
    decreases levels.len(),
{
    if levels.len() == 0 {
        0
    } else {
        levels_work(levels.drop_last()) + 1 + weight(
            levels.last().items.subrange(levels.last().next, levels.last().items.len() as int),
        )
    }
}

/// Moving past an item takes its steps off the levels.
proof fn lemma_moved_past(levels: Seq<PreviewLevel>, moved: Seq<PreviewLevel>)
    requires
        levels.len() > 0,
        moved.len() == levels.len(),
        moved.drop_last() == levels.drop_last(),
        0 <= levels.last().next < levels.last().items.len(),
        moved.last().items == levels.last().items,
        moved.last().next == levels.last().next + 1,
    ensures
        levels_work(levels) == levels_work(moved) + item_weight(
            levels.last().items[levels.last().next],
        ),
{
    let items = levels.last().items;
    let next = levels.last().next;
    let ahead = items.subrange(next, items.len() as int);
    assert(ahead[0] == items[next]);
    assert(ahead.subrange(1, ahead.len() as int) =~= items.subrange(
        next + 1,
        items.len() as int,
    ));
}

/// Text with a limit on its bytes.
struct LimitedWriter {
    output: String,
    bytes: usize,
    limit: usize,
}

impl LimitedWriter {
    /// Append a text if it fits.
    fn write(&mut self, value: &str) -> (r: bool)
        requires
            old(self).bytes == text_bytes(old(self).output@),
            old(self).bytes <= old(self).limit,
        ensures
            final(self).bytes == text_bytes(final(self).output@),
            final(self).bytes <= final(self).limit,
            final(self).limit == old(self).limit,
            r == (old(self).bytes + text_bytes(value@) <= old(self).limit),
            r ==> final(self).output@ == old(self).output@ + value@,
            !r ==> final(self).output@ == old(self).output@,
    {
        let length: usize = match utf8_length(value) {
            Some(length) => length,
            None => {
                return false;
            },
        };
        let required: usize = match self.bytes.checked_add(length) {
            Some(required) => required,
            None => {
                return false;
            },
        };
        if required > self.limit {
            return false;
        }
        proof {
            lemma_bytes_join(self.output@, value@);
        }
        self.output.append(value);
        self.bytes = required;
        true
    }
}

/// How far a preview has come: some of its pieces are written, the rest is
/// still to come.
spec fn under_way(
    all: Seq<Seq<char>>,
    done: int,
    rest: Seq<Seq<char>>,
    output: Seq<char>,
    bytes: int,
    limit: int,
) -> bool {
    &&& 0 <= done <= all.len()
    &&& rest == all.subrange(done, all.len() as int)
    &&& output == joined(all.subrange(0, done))
    &&& bytes == text_bytes(output)
    &&& fitting(all, 0, limit) == done + fitting(rest, bytes, limit)
}

proof fn lemma_written(
    all: Seq<Seq<char>>,
    done: int,
    rest: Seq<Seq<char>>,
    output: Seq<char>,
    bytes: int,
    limit: int,
)
    requires
        under_way(all, done, rest, output, bytes, limit),
        rest.len() > 0,
        bytes + text_bytes(rest[0]) <= limit,
    ensures
        under_way(
            all,
            done + 1,
            rest.subrange(1, rest.len() as int),
            output + rest[0],
            bytes + text_bytes(rest[0]),
            limit,
        ),
{
    assert(rest[0] == all[done]);
    let next = all.subrange(0, done + 1);
    assert(next.drop_last() =~= all.subrange(0, done));
    assert(next.last() == rest[0]);
    assert(rest.subrange(1, rest.len() as int) =~= all.subrange(done + 1, all.len() as int));
    lemma_bytes_join(output, rest[0]);
}

/// The preview could not be completed, whatever the caller did.
pub open spec fn preview_failure(failure: Failure, limit: usize) -> bool {
    ||| failure == exhausted("inspector production preview"@, limit)
    ||| room_refused(failure, "inspector preview stack"@)
}

/// Asks for room for exactly some bytes with `String::try_reserve_exact`, which
/// leaves the text alone. Whether there is room depends on the machine.
#[verifier::external_body]
fn reserve_text_exact(text: &mut String, size: usize) -> (r: bool)
    ensures
        final(text)@ == old(text)@,
{
    text.try_reserve_exact(size).is_ok()
}

/// Write the pieces of a module as far as they fit.
fn write_pieces(
    writer: &mut LimitedWriter,
    pieces: &Vec<String>,
    Ghost(all): Ghost<Seq<Seq<char>>>,
    Ghost(done): Ghost<int>,
    Ghost(rest): Ghost<Seq<Seq<char>>>,
    Ghost(behind): Ghost<Seq<Seq<char>>>,
) -> (r: (bool, Ghost<int>))
    requires
        rest == string_texts(pieces@) + behind,
        under_way(
            all,
            done,
            rest,
            old(writer).output@,
            old(writer).bytes as int,
            old(writer).limit as int,
        ),
        old(writer).bytes <= old(writer).limit,
    ensures
        final(writer).bytes <= final(writer).limit,
        final(writer).limit == old(writer).limit,
        r.0 ==> under_way(
            all,
            r.1@,
            behind,
            final(writer).output@,
            final(writer).bytes as int,
            final(writer).limit as int,
        ),
        !r.0 ==> fitting(all, 0, final(writer).limit as int) < all.len()
            && final(writer).output@ == joined(
            all.subrange(0, fitting(all, 0, final(writer).limit as int)),
        ) && final(writer).bytes == text_bytes(final(writer).output@),
        r.0 ==> r.1@ == done + pieces@.len(),
        !r.0 ==> done <= fitting(all, 0, final(writer).limit as int) < done + pieces@.len(),
{
    let mut i: usize = 0;
    let ghost mut place: int = done;
    let ghost mut left: Seq<Seq<char>> = rest;
    let ghost spelled = string_texts(pieces@);
    assert(spelled.subrange(0, spelled.len() as int) =~= spelled);
    while i < pieces.len()
        invariant
            i <= pieces@.len(),
            spelled == string_texts(pieces@),
            left == spelled.subrange(i as int, spelled.len() as int) + behind,
            place == done + i,
            under_way(
                all,
                place,
                left,
                writer.output@,
                writer.bytes as int,
                writer.limit as int,
            ),
            writer.bytes <= writer.limit,
            writer.limit == old(writer).limit,
        decreases pieces@.len() - i,
    {
        assert(left[0] == pieces@[i as int]@);
        let ghost before = writer.output@;
        let ghost bytes = writer.bytes as int;
        if !writer.write(pieces[i].as_str()) {
            return (false, Ghost(place));
        }
        proof {
            lemma_written(all, place, left, before, bytes, writer.limit as int);
            assert(left.subrange(1, left.len() as int) =~= spelled.subrange(
                i + 1,
                spelled.len() as int,
            ) + behind);
            left = left.subrange(1, left.len() as int);
            place = place + 1;
        }
        i = i + 1;
    }
    assert(left =~= behind);
    (true, Ghost(place))
}

/// Every level is somewhere within its items.
spec fn frames_valid<'a>(pending: Seq<PreviewFrame<'a>>) -> bool {
    forall|i: int|
        0 <= i < pending.len() ==> (#[trigger] pending[i]).next <= pending[i].items@.len()
}

/// A preview in progress: what its levels still hold is what is still to come.
spec fn going<'a>(
    all: Seq<Seq<char>>,
    done: int,
    pending: Seq<PreviewFrame<'a>>,
    writer: LimitedWriter,
    sp: spec_fn(Module) -> Seq<Seq<char>>,
) -> bool {
    &&& under_way(
        all,
        done,
        levels_writes(levels_of(pending), sp),
        writer.output@,
        writer.bytes as int,
        writer.limit as int,
    )
    &&& frames_valid(pending)
    &&& writer.bytes <= writer.limit
}

/// A preview that holds as much as fits, and that is not all.
spec fn full(all: Seq<Seq<char>>, writer: LimitedWriter) -> bool {
    let count = fitting(all, 0, writer.limit as int);
    &&& count < all.len()
    &&& writer.output@ == joined(all.subrange(0, count))
    &&& writer.bytes == text_bytes(writer.output@)
    &&& writer.bytes <= writer.limit
}

/// Write the next piece, if it fits.
fn write_text(
    writer: &mut LimitedWriter,
    text: &str,
    Ghost(all): Ghost<Seq<Seq<char>>>,
    Ghost(done): Ghost<int>,
    Ghost(rest): Ghost<Seq<Seq<char>>>,
) -> (r: bool)
    requires
        rest.len() > 0,
        rest[0] == text@,
        under_way(
            all,
            done,
            rest,
            old(writer).output@,
            old(writer).bytes as int,
            old(writer).limit as int,
        ),
        old(writer).bytes <= old(writer).limit,
    ensures
        final(writer).bytes <= final(writer).limit,
        final(writer).limit == old(writer).limit,
        r ==> under_way(
            all,
            done + 1,
            rest.subrange(1, rest.len() as int),
            final(writer).output@,
            final(writer).bytes as int,
            final(writer).limit as int,
        ),
        !r ==> full(all, *final(writer)),
        !r ==> fitting(all, 0, final(writer).limit as int) == done,
{
    let ghost before = writer.output@;
    let ghost bytes = writer.bytes as int;
    let fits: bool = writer.write(text);
    proof {
        if fits {
            lemma_written(all, done, rest, before, bytes, writer.limit as int);
        }
    }
    fits
}

/// Leave a level that has no more items, closing its branch.
fn leave_level<'a>(
    writer: &mut LimitedWriter,
    pending: &mut Vec<PreviewFrame<'a>>,
    Ghost(all): Ghost<Seq<Seq<char>>>,
    Ghost(done): Ghost<int>,
    Ghost(sp): Ghost<spec_fn(Module) -> Seq<Seq<char>>>,
) -> (r: (bool, Ghost<int>))
    requires
        going(all, done, old(pending)@, *old(writer), sp),
        old(pending)@.len() > 0,
        old(pending)@.last().next == old(pending)@.last().items@.len(),
    ensures
        final(writer).limit == old(writer).limit,
        r.0 ==> going(all, r.1@, final(pending)@, *final(writer), sp),
        r.0 ==> levels_work(levels_of(final(pending)@)) < levels_work(levels_of(old(pending)@)),
        !r.0 ==> full(all, *final(writer)),
        r.0 ==> levels_spans(levels_of(final(pending)@), r.1@, sp) == levels_spans(
            levels_of(old(pending)@),
            done,
            sp,
        ) && done <= r.1@,
        !r.0 ==> ({
            let ahead = levels_spans(levels_of(old(pending)@), done, sp);
            ahead.len() > 0 ==> ahead[0].0 > fitting(all, 0, final(writer).limit as int)
                && ahead[0].1 >= ahead[0].0
        }),
{
    let ghost levels = levels_of(pending@);
    let ghost rest = levels_writes(levels, sp);
    let ghost below = levels_writes(levels.drop_last(), sp);
    let top: usize = pending.len() - 1;
    let close_branch: bool = pending[top].close_branch;
    let ghost items = pending@[top as int].items@;
    assert(levels.last() == level_of(pending@[top as int]));
    pending.pop();
    proof {
        assert(levels_of(pending@) =~= levels.drop_last());
        assert(writes_from(items, items.len() as int, sp) =~= Seq::empty());
        let later = if close_branch {
            done + 1
        } else {
            done
        };
        assert(spans_from(items, items.len() as int, done, sp) =~= Seq::empty());
        assert(levels_spans(levels, done, sp) =~= levels_spans(levels.drop_last(), later, sp));
        lemma_levels_ahead(levels.drop_last(), later, sp);
        assert(frames_valid(pending@)) by {
            assert forall|i: int| 0 <= i < pending@.len() implies (#[trigger] pending@[i]).next
                <= pending@[i].items@.len() by {
                assert(pending@[i] == old(pending)@[i]);
            }
        }
    }
    if close_branch {
        assert(rest =~= seq![" ]"@] + below);
        assert(rest.subrange(1, rest.len() as int) =~= below);
        let fits: bool = write_text(writer, " ]", Ghost(all), Ghost(done), Ghost(rest));
        (fits, Ghost(done + 1))
    } else {
        assert(rest =~= below);
        (true, Ghost(done))
    }
}

/// Enter a branch.
fn enter_branch<'a>(
    pending: &mut Vec<PreviewFrame<'a>>,
    branch: &'a Generation,
    Ghost(sp): Ghost<spec_fn(Module) -> Seq<Seq<char>>>,
) -> (r: Result<(), VisualizeError>)
    requires
        frames_valid(old(pending)@),
    ensures
        match r {
            Ok(()) => {
                &&& frames_valid(final(pending)@)
                &&& levels_writes(levels_of(final(pending)@), sp) == writes_from(branch.0@, 0, sp)
                    + (seq![" ]"@] + levels_writes(levels_of(old(pending)@), sp))
                &&& levels_work(levels_of(final(pending)@)) == levels_work(
                    levels_of(old(pending)@),
                ) + 1 + weight(branch.0@)
                &&& forall|base: int| #[trigger]
                    levels_spans(levels_of(final(pending)@), base, sp) == spans_from(
                        branch.0@,
                        0,
                        base,
                        sp,
                    ) + levels_spans(
                        levels_of(old(pending)@),
                        base + writes_from(branch.0@, 0, sp).len() + 1,
                        sp,
                    )
            },
            Err(error) => room_refused(error@, "inspector preview stack"@),
        },
{
    match reserve_vec(pending, 1, "inspector preview stack") {
        Ok(()) => {},
        Err(error) => {
            return Err(error);
        },
    }
    pending.push(PreviewFrame { items: branch.items(), next: 0, close_branch: true });
    proof {
        let now = levels_of(pending@);
        let before = levels_of(old(pending)@);
        assert(now.drop_last() =~= before);
        assert(branch.0@.subrange(0, branch.0@.len() as int) =~= branch.0@);
        assert(levels_writes(now, sp) =~= writes_from(branch.0@, 0, sp) + (seq![" ]"@]
            + levels_writes(before, sp)));
        assert forall|i: int| 0 <= i < pending@.len() implies (#[trigger] pending@[i]).next
            <= pending@[i].items@.len() by {
            if i < old(pending)@.len() {
                assert(pending@[i] == old(pending)@[i]);
            }
        }
    }
    Ok(())
}

/// An item and then what is still to be visited on some levels.
spec fn passed_spans(
    item: GenerationItem,
    first: bool,
    levels: Seq<PreviewLevel>,
    base: int,
    sp: spec_fn(Module) -> Seq<Seq<char>>,
) -> Seq<(int, int)> {
    let start = if first {
        base
    } else {
        base + 1
    };
    item_spans(item, start, sp) + levels_spans(levels, start + item_writes(item, sp).len(), sp)
}

/// Move past the next item of the innermost level.
fn pass_item<'a>(
    pending: &mut Vec<PreviewFrame<'a>>,
    Ghost(sp): Ghost<spec_fn(Module) -> Seq<Seq<char>>>,
) -> (r: (&'a GenerationItem, bool))
    requires
        frames_valid(old(pending)@),
        old(pending)@.len() > 0,
        old(pending)@.last().next < old(pending)@.last().items@.len(),
    ensures
        frames_valid(final(pending)@),
        levels_writes(levels_of(old(pending)@), sp) == (if r.1 {
            Seq::<Seq<char>>::empty()
        } else {
            seq![" "@]
        }) + (item_writes(*r.0, sp) + levels_writes(levels_of(final(pending)@), sp)),
        levels_work(levels_of(old(pending)@)) == levels_work(levels_of(final(pending)@))
            + item_weight(*r.0),
        forall|base: int| #[trigger]
            levels_spans(levels_of(old(pending)@), base, sp) == passed_spans(
                *r.0,
                r.1,
                levels_of(final(pending)@),
                base,
                sp,
            ),
{
    let ghost levels = levels_of(pending@);
    let top: usize = pending.len() - 1;
    let items: &'a [GenerationItem] = pending[top].items;
    let index: usize = pending[top].next;
    let close_branch: bool = pending[top].close_branch;
    assert(levels.last() == level_of(pending@[top as int]));
    let item: &'a GenerationItem = &items[index];
    pending.set(top, PreviewFrame { items, next: index + 1, close_branch });
    proof {
        let moved = levels_of(pending@);
        assert(moved.drop_last() =~= levels.drop_last());
        lemma_moved_past(levels, moved);
        assert(levels_writes(levels, sp) =~= (if index == 0 {
            Seq::<Seq<char>>::empty()
        } else {
            seq![" "@]
        }) + (item_writes(*item, sp) + levels_writes(moved, sp)));
        assert forall|base: int| #[trigger] levels_spans(levels, base, sp) == passed_spans(
            *item,
            index == 0,
            moved,
            base,
            sp,
        ) by {
            let start = if index == 0 {
                base
            } else {
                base + 1
            };
            let later = start + item_writes(*item, sp).len();
            let own = writes_from(items@, index as int, sp).len();
            let own_later = writes_from(items@, index + 1, sp).len();
            assert(base + own == later + own_later);
            assert(levels_spans(levels, base, sp) =~= item_spans(*item, start, sp)
                + levels_spans(moved, later, sp));
        }
        assert forall|i: int| 0 <= i < pending@.len() implies (#[trigger] pending@[i]).next
            <= pending@[i].items@.len() by {
            if i != top {
                assert(pending@[i] == old(pending)@[i]);
            }
        }
    }
    (item, index == 0)
}

/// What came of writing an item: whether it fits, whether it counts as one that
/// was visited, and how many pieces are written.
struct Written {
    fits: bool,
    counts: bool,
    done: Ghost<int>,
}

/// Write the next item of the innermost level, or the start of a branch.
#[verifier::rlimit(40)]
fn write_item<'a, W: Fn(&Module) -> Vec<String>>(
    writer: &mut LimitedWriter,
    pending: &mut Vec<PreviewFrame<'a>>,
    spell: &W,
    Ghost(all): Ghost<Seq<Seq<char>>>,
    Ghost(done): Ghost<int>,
) -> (r: Result<Written, VisualizeError>)
    requires
        spells(*spell),
        going(all, done, old(pending)@, *old(writer), spelling(*spell)),
        old(pending)@.len() > 0,
        old(pending)@.last().next < old(pending)@.last().items@.len(),
    ensures
        final(writer).limit == old(writer).limit,
        match r {
            Ok(written) => {
                &&& written.fits ==> written.counts && going(
                    all,
                    written.done@,
                    final(pending)@,
                    *final(writer),
                    spelling(*spell),
                ) && levels_work(levels_of(final(pending)@)) < levels_work(
                    levels_of(old(pending)@),
                )
                &&& !written.fits ==> full(all, *final(writer))
                &&& ({
                    let ahead = levels_spans(levels_of(old(pending)@), done, spelling(*spell));
                    let count = fitting(all, 0, final(writer).limit as int);
                    &&& ahead.len() > 0
                    &&& written.fits ==> ahead[0].1 == written.done@ && ahead.subrange(
                        1,
                        ahead.len() as int,
                    ) == levels_spans(
                        levels_of(final(pending)@),
                        written.done@,
                        spelling(*spell),
                    )
                    &&& !written.fits && written.counts ==> ahead[0].0 <= count < ahead[0].1
                    &&& !written.fits && !written.counts ==> count < ahead[0].0 <= ahead[0].1
                })
            },
            Err(error) => room_refused(error@, "inspector preview stack"@),
        },
{
    let ghost sp = spelling(*spell);
    let ghost rest = levels_writes(levels_of(pending@), sp);
    let (item, first): (&'a GenerationItem, bool) = pass_item(pending, Ghost(sp));
    let ghost tail = levels_writes(levels_of(pending@), sp);
    let ghost inner = item_writes(*item, sp);
    let ghost place = if first {
        done
    } else {
        done + 1
    };
    let ghost ahead = levels_spans(levels_of(old(pending)@), done, sp);
    let ghost below = levels_spans(levels_of(pending@), place + inner.len(), sp);
    proof {
        assert(ahead == passed_spans(*item, first, levels_of(pending@), done, sp));
        assert(ahead =~= item_spans(*item, place, sp) + below);
        lemma_item_spans_ahead(*item, place, sp);
        assert(ahead[0] == item_spans(*item, place, sp)[0]);
    }
    if first {
        assert(rest =~= inner + tail);
    } else {
        assert(rest.subrange(1, rest.len() as int) =~= inner + tail);
        if !write_text(writer, " ", Ghost(all), Ghost(done), Ghost(rest)) {
            return Ok(Written { fits: false, counts: false, done: Ghost(done) });
        }
    }
    match item {
        GenerationItem::Module(module) => {
            let pieces: Vec<String> = pieces_of(spell, module);
            let (fits, after) = write_pieces(
                writer,
                &pieces,
                Ghost(all),
                Ghost(place),
                Ghost(inner + tail),
                Ghost(tail),
            );
            proof {
                assert(inner.len() == pieces@.len());
                if fits {
                    assert(ahead.subrange(1, ahead.len() as int) =~= below);
                }
            }
            Ok(Written { fits, counts: true, done: after })
        },
        GenerationItem::Branch(branch) => {
            let ghost contents = writes_from(branch.0@, 0, sp);
            let ghost coming = inner + tail;
            let ghost outer = levels_of(pending@);
            assert(coming =~= seq!["[ "@] + (contents + (seq![" ]"@] + tail)));
            assert(coming.subrange(1, coming.len() as int) =~= contents + (seq![" ]"@] + tail));
            if !write_text(writer, "[ ", Ghost(all), Ghost(place), Ghost(coming)) {
                return Ok(Written { fits: false, counts: true, done: Ghost(place) });
            }
            match enter_branch(pending, branch, Ghost(sp)) {
                Ok(()) => {
                    proof {
                        assert(inner.len() == contents.len() + 2);
                        assert(levels_spans(levels_of(pending@), place + 1, sp) == spans_from(
                            branch.0@,
                            0,
                            place + 1,
                            sp,
                        ) + levels_spans(outer, place + 1 + contents.len() + 1, sp));
                        assert(ahead.subrange(1, ahead.len() as int) =~= spans_from(
                            branch.0@,
                            0,
                            place + 1,
                            sp,
                        ) + below);
                    }
                    Ok(Written { fits: true, counts: true, done: Ghost(place + 1) })
                },
                Err(error) => Err(error),
            }
        },
    }
}

pub(crate) proof fn lemma_fitting_bounds(pieces: Seq<Seq<char>>, used: int, limit: int)
    ensures
        0 <= fitting(pieces, used, limit) <= pieces.len(),
    decreases pieces.len(),
{
    if pieces.len() > 0 && used + text_bytes(pieces[0]) <= limit {
        lemma_fitting_bounds(
            pieces.subrange(1, pieces.len() as int),
            used + text_bytes(pieces[0]),
            limit,
        );
    }
}

proof fn lemma_quotient(total: int, quantum: int, times: int, left: int)
    requires
        quantum > 0,
        times >= 0,
        0 <= left < quantum,
        total == times * quantum + left,
    ensures
        total / quantum == times,
{
    assert(total / quantum == times) by (nonlinear_arith)
        requires
            quantum > 0,
            0 <= left < quantum,
            total == times * quantum + left,
    ;
}

proof fn lemma_report_due(visited: int, total: int, quantum: int, reports: int)
    requires
        quantum > 0,
        reports >= 0,
        visited == reports * quantum + quantum,
        visited <= total,
    ensures
        (reports + 1) * quantum == visited,
        reports < total / quantum,
{
    assert((reports + 1) * quantum == reports * quantum + quantum) by (nonlinear_arith);
    assert(reports < total / quantum) by (nonlinear_arith)
        requires
            quantum > 0,
            (reports + 1) * quantum <= total,
    ;
}

/// The counts of some statistics.
pub open spec fn counts_of(stats: Stats<'_>) -> Tally {
    Tally {
        items: stats.items as int,
        modules: stats.modules as int,
        branches: stats.branches as int,
        max_depth: stats.max_depth as int,
    }
}

/// Write a generation as far as it fits, reporting after every quantum of
/// items. The hook is asked before every item and at the end of every branch.
pub fn bounded_preview<
    'a,
    F: Fn() -> bool,
    E: Fn(InspectorProgress) -> Result<(), VisualizeError>,
    W: Fn(&Module) -> Vec<String>,
>(
    generation: &'a Generation,
    work_quantum: usize,
    stats: &Stats<'_>,
    limit: usize,
    outlet: &mut Outlet<InspectorProgress, F, E>,
    spell: &W,
) -> (r: Result<(String, bool, usize), VisualizeError>)
    requires
        work_quantum > 0,
        old(outlet).ready(),
        spells(*spell),
    ensures
        final(outlet).ready(),
        final(outlet).follows(*old(outlet)),
        ({
            let sp = spelling(*spell);
            let log = final(outlet).since(*old(outlet));
            let sink = old(outlet).sink();
            let due = preview_reports(
                *generation,
                limit as int,
                work_quantum as int,
                counts_of(*stats),
                sp,
            );
            let begun = begun_items(
                spans_from(generation.0@, 0, 0, sp),
                fitting(writes_from(generation.0@, 0, sp), 0, content_limit(limit as int)),
            );
            &&& told(log, due, handed(log).len() as int)
            &&& paced(log, item_pace(begun, work_quantum as int))
            &&& match r {
                Ok((preview, complete, bytes)) => {
                    &&& (preview@, complete) == preview_of(*generation, limit as int, sp)
                    &&& bytes == text_bytes(preview@)
                    &&& bytes <= limit
                    &&& undisturbed(log, sink)
                    &&& handed(log) == due
                    &&& asked(log) >= begun
                },
                Err(error) => {
                    ||| stopped_by_caller(log, sink, error)
                    ||| undisturbed(log, sink) && preview_failure(error@, limit)
                },
            }
        }),
{
    let ghost entry = *outlet;
    let ghost sp = spelling(*spell);
    let ghost quantum = work_quantum as int;
    let ghost tally = counts_of(*stats);
    let ghost all = writes_from(generation.0@, 0, sp);
    let ghost spans = spans_from(generation.0@, 0, 0, sp);
    let ghost count = fitting(all, 0, content_limit(limit as int));
    let ghost begun = begun_items(spans, count);
    let ghost due = preview_reports(*generation, limit as int, quantum, tally, sp);
    let ghost right = from_list(due);
    let ghost pace = item_pace(begun, quantum);
    proof {
        lemma_sending_starts(entry, false, pace, right);
        lemma_sending_ends(entry, *outlet, false, pace, right, 0, 0);
        lemma_told(outlet.since(entry), false, pace, due, 0);
    }
    let mut output: String = String::new();
    if !reserve_text_exact(&mut output, limit) {
        return Err(
            VisualizeError::ResourceExhausted {
                resource: "inspector production preview",
                requested: Some(limit),
            },
        );
    }
    let content: usize = if limit < 3 {
        0
    } else {
        limit - 3
    };
    let mut writer: LimitedWriter = LimitedWriter { output, bytes: 0, limit: content };
    let mut pending: Vec<PreviewFrame<'a>> = Vec::new();
    match reserve_vec(&mut pending, 1, "inspector preview stack") {
        Ok(()) => {},
        Err(error) => {
            return Err(error);
        },
    }
    pending.push(PreviewFrame { items: generation.items(), next: 0, close_branch: false });
    let ghost mut done: int = 0;
    let ghost mut visited: int = 0;
    let ghost mut reports: int = 0;
    let ghost mut many: int = 0;
    let mut complete: bool = true;
    let mut quantum_items: usize = 0;
    proof {
        assert(pending@.drop_last() =~= Seq::empty());
        assert(levels_of(pending@).drop_last() =~= Seq::empty());
        assert(levels_writes(Seq::empty(), sp) =~= Seq::empty());
        assert(levels_writes(levels_of(pending@), sp) =~= all);
        assert(levels_of(pending@).last() == (PreviewLevel {
            items: generation.0@,
            next: 0,
            close: false,
        }));
        assert(levels_spans(Seq::empty(), all.len() as int, sp) =~= Seq::empty());
        assert(levels_spans(levels_of(pending@), 0, sp) =~= spans);
        assert(spans.subrange(0, spans.len() as int) =~= spans);
        assert(all.subrange(0, 0) =~= Seq::empty());
        assert(all.subrange(0, all.len() as int) =~= all);
        assert(writer.output@ =~= joined(all.subrange(0, 0)));
    }
    loop
        invariant_except_break
            work_quantum > 0,
            content == content_limit(limit as int),
            spells(*spell),
            sp == spelling(*spell),
            all == writes_from(generation.0@, 0, sp),
            quantum_items < work_quantum,
            writer.limit == content,
            complete,
            going(all, done, pending@, writer, sp),
            entry == *old(outlet),
            quantum == work_quantum,
            tally == counts_of(*stats),
            spans == spans_from(generation.0@, 0, 0, sp),
            count == fitting(all, 0, content_limit(limit as int)),
            begun == begun_items(spans, count),
            due == preview_reports(*generation, limit as int, quantum, tally, sp),
            right == from_list(due),
            pace == item_pace(begun, quantum),
            0 <= visited <= spans.len(),
            0 <= reports,
            visited == reports * quantum + quantum_items,
            many >= visited,
            sending(entry, *outlet, false, pace, right, reports, many),
            levels_spans(levels_of(pending@), done, sp) == spans.subrange(
                visited,
                spans.len() as int,
            ),
            forall|j: int| 0 <= j < visited ==> (#[trigger] spans[j]).1 <= done,
        ensures
            work_quantum > 0,
            quantum_items <= work_quantum,
            content == content_limit(limit as int),
            sp == spelling(*spell),
            all == writes_from(generation.0@, 0, sp),
            entry == *old(outlet),
            quantum == work_quantum,
            tally == counts_of(*stats),
            spans == spans_from(generation.0@, 0, 0, sp),
            count == fitting(all, 0, content_limit(limit as int)),
            begun == begun_items(spans, count),
            due == preview_reports(*generation, limit as int, quantum, tally, sp),
            right == from_list(due),
            pace == item_pace(begun, quantum),
            0 <= reports,
            reports == visited_items(spans, count) / quantum,
            begun == reports * quantum + quantum_items,
            many >= begun,
            sending(entry, *outlet, false, pace, right, reports, many),
            writer.limit == content,
            writer.bytes <= content,
            writer.bytes == text_bytes(writer.output@),
            ({
                let count = fitting(all, 0, content as int);
                &&& writer.output@ == joined(all.subrange(0, count))
                &&& complete == (count == all.len())
            }),
        decreases levels_work(levels_of(pending@)),
    {
        proof {
            lemma_fitting_bounds(
                levels_writes(levels_of(pending@), sp),
                writer.bytes as int,
                content as int,
            );
        }
        if pending.len() == 0 {
            assert(levels_of(pending@) =~= Seq::empty());
            proof {
                assert(spans.subrange(visited, spans.len() as int).len() == 0);
                lemma_visited(spans, count, visited);
                lemma_quotient(visited, quantum, reports, quantum_items as int);
            }
            break;
        }
        let cancelled: bool = outlet.ask_within(
            Ghost(entry),
            Ghost(false),
            Ghost(pace),
            Ghost(right),
            Ghost(reports),
            Ghost(many),
        );
        if cancelled {
            proof {
                lemma_told(outlet.since(entry), false, pace, due, reports);
            }
            return Err(VisualizeError::Cancelled);
        }
        proof {
            many = many + 1;
            lemma_sending_ends(entry, *outlet, false, pace, right, reports, many);
            lemma_told(outlet.since(entry), false, pace, due, reports);
        }
        let ghost ahead = levels_spans(levels_of(pending@), done, sp);
        let ghost was = done;
        let top: usize = pending.len() - 1;
        assert(pending@[top as int].next <= pending@[top as int].items@.len());
        if pending[top].next == pending[top].items.len() {
            let (fits, place) = leave_level(
                &mut writer,
                &mut pending,
                Ghost(all),
                Ghost(done),
                Ghost(sp),
            );
            if !fits {
                complete = false;
                proof {
                    if visited < spans.len() {
                        assert(ahead[0] == spans[visited]);
                    }
                    lemma_visited(spans, count, visited);
                    lemma_quotient(visited, quantum, reports, quantum_items as int);
                }
                break;
            }
            proof {
                done = place@;
                assert forall|j: int| 0 <= j < visited implies (#[trigger] spans[j]).1 <= done by {
                    assert(spans[j].1 <= was);
                }
            }
            continue;
        }
        let ghost old_levels = pending@;
        let written: Written = match write_item(
            &mut writer,
            &mut pending,
            spell,
            Ghost(all),
            Ghost(done),
        ) {
            Ok(written) => written,
            Err(error) => {
                return Err(error);
            },
        };
        assert(ahead[0] == spans[visited]);
        let ghost before = quantum_items as int;
        if written.counts {
            quantum_items = quantum_items + 1;
        }
        if !written.fits {
            complete = false;
            proof {
                lemma_visited(spans, count, visited);
                lemma_quotient(visited, quantum, reports, before);
            }
            break;
        }
        proof {
            done = written.done@;
            assert(spans.subrange(visited + 1, spans.len() as int) =~= ahead.subrange(
                1,
                ahead.len() as int,
            ));
            lemma_levels_ahead(levels_of(old_levels), was, sp);
            assert forall|j: int| 0 <= j < visited + 1 implies (#[trigger] spans[j]).1 <= done by {
                if j < visited {
                    assert(spans[j].1 <= was);
                }
            }
            visited = visited + 1;
        }
        if quantum_items == work_quantum {
            let progress: InspectorProgress = progress_for(
                InspectorPhase::Preview,
                stats,
                writer.bytes,
            );
            proof {
                lemma_fitting_bounds(
                    levels_writes(levels_of(pending@), sp),
                    writer.bytes as int,
                    content as int,
                );
                assert forall|j: int| 0 <= j < visited implies (#[trigger] spans[j]).1
                    <= count by {}
                lemma_visited(spans, count, visited);
                lemma_report_due(visited, visited_items(spans, count), quantum, reports);
                assert(spans[(reports + 1) * quantum - 1].1 == done);
                assert(bytes_at(all, done) == writer.bytes);
                assert(progress == progress_of(
                    InspectorPhase::Preview,
                    tally,
                    writer.bytes as int,
                ));
                assert(due[reports] == progress);
            }
            match outlet.hand_within(
                progress,
                Ghost(entry),
                Ghost(false),
                Ghost(pace),
                Ghost(right),
                Ghost(reports),
                Ghost(many),
            ) {
                Ok(()) => {},
                Err(error) => {
                    proof {
                        lemma_told(outlet.since(entry), false, pace, due, reports + 1);
                    }
                    return Err(error);
                },
            }
            proof {
                reports = reports + 1;
            }
            quantum_items = 0;
        }
    }
    let preview_bytes: usize = writer.bytes;
    let mut bytes: usize = writer.bytes;
    let mut preview: String = writer.output;
    if !complete && limit >= 3 {
        let ghost written = preview@;
        preview.push('…');
        proof {
            assert(preview@.drop_last() =~= written);
            assert(preview@.last() == '…');
        }
        bytes = bytes + 3;
    }
    if quantum_items != 0 || complete {
        let progress: InspectorProgress = progress_for(
            InspectorPhase::Preview,
            stats,
            preview_bytes,
        );
        proof {
            assert(progress == progress_of(InspectorPhase::Preview, tally, preview_bytes as int));
            assert(due.len() == reports + 1);
            assert(due[reports] == progress);
        }
        match outlet.hand_within(
            progress,
            Ghost(entry),
            Ghost(false),
            Ghost(pace),
            Ghost(right),
            Ghost(reports),
            Ghost(many),
        ) {
            Ok(()) => {},
            Err(error) => {
                proof {
                    lemma_told(outlet.since(entry), false, pace, due, reports + 1);
                }
                return Err(error);
            },
        }
        proof {
            reports = reports + 1;
        }
    }
    proof {
        lemma_sending_ends(entry, *outlet, false, pace, right, reports, many);
        lemma_told(outlet.since(entry), false, pace, due, reports);
    }
    Ok((preview, complete, bytes))
}

/// The rows that words make: the finished ones, and the one in progress. A word
/// goes to the next row when it would not fit behind a space.
pub open spec fn rows_of(words: Seq<Seq<char>>, width: int) -> (Seq<Seq<char>>, Seq<char>)
    decreases words.len(),
{
    if words.len() == 0 {
        (Seq::empty(), Seq::empty())
    } else {
        let (rows, current) = rows_of(words.drop_last(), width);
        let word = words.last();
        if current.len() == 0 {
            (rows, word)
        } else if text_bytes(current) + text_bytes(word) + 1 > width {
            (rows.push(current), word)
        } else {
            (rows, current.push(' ') + word)
        }
    }
}

/// A text divided into rows.
pub open spec fn wrapped(value: Seq<char>, width: int) -> Seq<Seq<char>> {
    let (rows, current) = rows_of(fields_of(value, word_separators()), width);
    rows.push(current)
}

/// Asks for room for some more bytes with `String::try_reserve`, which leaves
/// the text alone. Whether there is room depends on the machine.
#[verifier::external_body]
pub(crate) fn reserve_text(text: &mut String, additional: usize) -> (r: bool)
    ensures
        final(text)@ == old(text)@,
{
    text.try_reserve(additional).is_ok()
}

/// A text could not be divided into rows, whatever the caller did.
pub open spec fn wrap_failure(failure: Failure) -> bool {
    ||| room_refused(failure, "inspector preview rows"@)
    ||| room_refused(failure, "inspector preview row"@)
}

fn row_error(requested: Option<usize>) -> (r: VisualizeError)
    ensures
        room_refused(r@, "inspector preview row"@),
{
    VisualizeError::ResourceExhausted { resource: "inspector preview row", requested }
}

/// Divide a text into rows of at most `width` bytes; a longer word has a row of
/// its own. The hook is asked once before every word.
pub fn wrap_preview<
    F: Fn() -> bool,
    E: Fn(InspectorProgress) -> Result<(), VisualizeError>,
>(value: &str, width: usize, outlet: &mut Outlet<InspectorProgress, F, E>) -> (r: Result<
    Vec<String>,
    VisualizeError,
>)
    requires
        old(outlet).ready(),
    ensures
        final(outlet).ready(),
        final(outlet).follows(*old(outlet)),
        ({
            let log = final(outlet).since(*old(outlet));
            &&& questions(log)
            &&& match r {
                Ok(rows) => {
                    &&& string_texts(rows@) == wrapped(value@, width as int)
                    &&& quiet(log)
                    &&& log.len() == fields_of(value@, word_separators()).len()
                },
                Err(error) => {
                    ||| called_off(log, old(outlet).sink()) && error@ == Failure::Cancelled
                    ||| quiet(log) && wrap_failure(error@)
                },
            }
        }),
{
    let ghost entry = *outlet;
    proof {
        lemma_listening_starts(entry);
        lemma_listened(entry, *outlet);
    }
    let chars: Vec<char> = chars_of(value);
    let words: Vec<&[char]> = split_words(chars.as_slice());
    let ghost fields = fields_of(value@, word_separators());
    let mut lines: Vec<String> = Vec::new();
    let mut current: String = String::new();
    let value_bytes: usize = match utf8_length(value) {
        Some(bytes) => bytes,
        None => {
            return Err(row_error(None));
        },
    };
    let divisor: usize = if width == 0 {
        1
    } else {
        width
    };
    match (value_bytes / divisor).checked_add(1) {
        Some(estimated) => {
            match reserve_vec(&mut lines, estimated, "inspector preview rows") {
                Ok(()) => {},
                Err(error) => {
                    return Err(error);
                },
            }
        },
        None => {
            return Err(
                VisualizeError::ResourceExhausted {
                    resource: "inspector preview rows",
                    requested: None,
                },
            );
        },
    }
    let room: usize = if width < value_bytes {
        width
    } else {
        value_bytes
    };
    if !reserve_text(&mut current, room) {
        return Err(row_error(Some(room)));
    }
    let mut current_bytes: usize = 0;
    let mut i: usize = 0;
    proof {
        assert(texts(words@) == fields);
        assert(fields.subrange(0, 0) =~= Seq::empty());
        assert(string_texts(lines@) =~= Seq::empty());
        assert(current@ =~= Seq::empty());
    }
    while i < words.len()
        invariant
            entry == *old(outlet),
            outlet.listening(entry),
            outlet.heard(entry) == i,
            texts(words@) == fields,
            i <= words@.len(),
            (string_texts(lines@), current@) == rows_of(
                fields.subrange(0, i as int),
                width as int,
            ),
            current_bytes == text_bytes(current@),
        decreases words@.len() - i,
    {
        let cancelled: bool = outlet.ask(Ghost(entry));
        proof {
            lemma_listened(entry, *outlet);
        }
        if cancelled {
            return Err(VisualizeError::Cancelled);
        }
        let word: String = string_of(words[i]);
        let ghost part = fields.subrange(0, i + 1);
        proof {
            assert(fields[i as int] == words@[i as int]@);
            assert(part.drop_last() =~= fields.subrange(0, i as int));
            assert(part.last() == word@);
        }
        let word_bytes: usize = match utf8_length(word.as_str()) {
            Some(bytes) => bytes,
            None => {
                return Err(row_error(None));
            },
        };
        let empty: bool = current.as_str().is_empty();
        let gap: usize = if empty {
            0
        } else {
            1
        };
        let separated: usize = match current_bytes.checked_add(word_bytes) {
            Some(sum) => match sum.checked_add(gap) {
                Some(sum) => sum,
                None => {
                    return Err(row_error(None));
                },
            },
            None => {
                return Err(row_error(None));
            },
        };
        if !empty && separated > width {
            match reserve_vec(&mut lines, 1, "inspector preview rows") {
                Ok(()) => {},
                Err(error) => {
                    return Err(error);
                },
            }
            let ghost before = lines@;
            let ghost row = current@;
            lines.push(current);
            assert(string_texts(lines@) =~= string_texts(before).push(row));
            current = String::new();
            if !reserve_text(&mut current, word_bytes) {
                return Err(row_error(Some(word_bytes)));
            }
            current.append(word.as_str());
            current_bytes = word_bytes;
            assert(current@ =~= word@);
        } else {
            if !reserve_text(&mut current, separated - current_bytes) {
                return Err(row_error(Some(separated)));
            }
            let ghost start = current@;
            if !empty {
                current.push(' ');
                proof {
                    assert(current@.drop_last() =~= start);
                    assert(current@.last() == ' ');
                }
            }
            proof {
                lemma_bytes_join(current@, word@);
            }
            current.append(word.as_str());
            current_bytes = separated;
            proof {
                if empty {
                    assert(start =~= Seq::empty());
                    assert(current@ =~= word@);
                }
            }
        }
        i = i + 1;
    }
    assert(fields.subrange(0, i as int) =~= fields);
    proof {
        lemma_listened(entry, *outlet);
    }
    match reserve_vec(&mut lines, 1, "inspector preview rows") {
        Ok(()) => {},
        Err(error) => {
            return Err(error);
        },
    }
    let ghost before = lines@;
    let ghost row = current@;
    lines.push(current);
    assert(string_texts(lines@) =~= string_texts(before).push(row));
    Ok(lines)
}

/// Texts with a space between each and the next.
pub open spec fn spaced(parts: Seq<Seq<char>>) -> Seq<char>
    decreases parts.len(),
{
    if parts.len() == 0 {
        Seq::empty()
    } else if parts.len() == 1 {
        parts[0]
    } else {
        spaced(parts.drop_last()).push(' ') + parts.last()
    }
}

/// Read row by row, the rows give back the words in order.
pub proof fn wrapping_keeps_the_words(words: Seq<Seq<char>>, width: int)
    requires
        forall|i: int| 0 <= i < words.len() ==> (#[trigger] words[i]).len() > 0,
    ensures
        ({
            let (rows, current) = rows_of(words, width);
            &&& spaced(rows.push(current)) == spaced(words)
            &&& words.len() > 0 ==> current.len() > 0
        }),
    decreases words.len(),
{
    let (rows, current) = rows_of(words, width);
    if words.len() == 0 {
        assert(rows.push(current)[0] == current);
        assert(spaced(rows.push(current)) =~= spaced(words));
    } else {
        let init = words.drop_last();
        assert forall|i: int| 0 <= i < init.len() implies (#[trigger] init[i]).len() > 0 by {
            assert(init[i] == words[i]);
        }
        wrapping_keeps_the_words(init, width);
        let (old_rows, old_current) = rows_of(init, width);
        let word = words.last();
        assert(word == words[words.len() - 1]);
        assert(rows.push(current).drop_last() =~= rows);
        assert(old_rows.push(old_current).drop_last() =~= old_rows);
        if old_current.len() == 0 {
            assert(init.len() == 0);
            assert(words =~= seq![word]);
            assert(rows.push(current) =~= seq![word]);
        } else if text_bytes(old_current) + text_bytes(word) + 1 > width {
            assert(rows =~= old_rows.push(old_current));
            assert(init.len() > 0);
            assert(spaced(rows.push(current)) =~= spaced(rows).push(' ') + word);
        } else {
            assert(init.len() > 0);
            if old_rows.len() == 0 {
                assert(old_rows.push(old_current)[0] == old_current);
                assert(rows.push(current)[0] == current);
                assert(spaced(words) =~= spaced(init).push(' ') + word);
            } else {
                assert(spaced(rows.push(current)) =~= spaced(rows).push(' ') + (
                old_current.push(' ') + word));
                assert(spaced(rows).push(' ') + (old_current.push(' ') + word) =~= (
                spaced(rows).push(' ') + old_current).push(' ') + word);
            }
        }
    }
}

/// A row fits the width or is a single word.
pub proof fn rows_fit_or_hold_one_word(words: Seq<Seq<char>>, width: int)
    requires
        width >= 0,
    ensures
        ({
            let (rows, current) = rows_of(words, width);
            let all = rows.push(current);
            forall|i: int|
                0 <= i < all.len() ==> text_bytes(#[trigger] all[i]) <= width || words.contains(
                    all[i],
                )
        }),
    decreases words.len(),
{
    let (rows, current) = rows_of(words, width);
    let all = rows.push(current);
    if words.len() > 0 {
        let init = words.drop_last();
        rows_fit_or_hold_one_word(init, width);
        let (old_rows, old_current) = rows_of(init, width);
        let before = old_rows.push(old_current);
        let word = words.last();
        assert(words[words.len() - 1] == word);
        assert forall|i: int| 0 <= i < all.len() implies text_bytes(#[trigger] all[i]) <= width
            || words.contains(all[i]) by {
            if i < before.len() && all[i] == before[i] {
                if init.contains(before[i]) {
                    let j = choose|j: int| 0 <= j < init.len() && init[j] == before[i];
                    assert(words[j] == before[i]);
                }
            } else if all[i] != word {
                let begun = old_current.push(' ');
                assert(all[i] == begun + word);
                lemma_bytes_join(begun, word);
                assert(begun.drop_last() =~= old_current);
                assert(begun.last() == ' ');
            }
        }
    }
}

proof fn lemma_item_spans_sorted(
    item: GenerationItem,
    base: int,
    sp: spec_fn(Module) -> Seq<Seq<char>>,
)
    ensures
        ({
            let spans = item_spans(item, base, sp);
            &&& forall|i: int, j: int|
                0 <= i < j < spans.len() ==> (#[trigger] spans[i]).1 <= (#[trigger] spans[j]).1
            &&& forall|j: int|
                0 <= j < spans.len() ==> base <= (#[trigger] spans[j]).1 <= base + item_writes(
                    item,
                    sp,
                ).len()
        }),
    decreases item,
{
    match item {
        GenerationItem::Module(_) => {},
        GenerationItem::Branch(branch) => {
            lemma_spans_sorted(branch.0@, 0, base + 1, sp);
            let inner = spans_from(branch.0@, 0, base + 1, sp);
            let spans = item_spans(item, base, sp);
            assert(spans =~= seq![(base, base + 1)] + inner);
            assert forall|j: int| 0 <= j < spans.len() implies base <= (#[trigger] spans[j]).1
                <= base + item_writes(item, sp).len() by {
                if j > 0 {
                    assert(spans[j] == inner[j - 1]);
                }
            }
            assert forall|i: int, j: int| 0 <= i < j < spans.len() implies (#[trigger] spans[i]).1
                <= (#[trigger] spans[j]).1 by {
                assert(spans[j] == inner[j - 1]);
                if i > 0 {
                    assert(spans[i] == inner[i - 1]);
                }
            }
        },
    }
}

/// Items are visited one after the other.
pub(crate) proof fn lemma_spans_sorted(
    items: Seq<GenerationItem>,
    next: int,
    base: int,
    sp: spec_fn(Module) -> Seq<Seq<char>>,
)
    ensures
        ({
            let spans = spans_from(items, next, base, sp);
            &&& forall|i: int, j: int|
                0 <= i < j < spans.len() ==> (#[trigger] spans[i]).1 <= (#[trigger] spans[j]).1
            &&& forall|j: int|
                0 <= j < spans.len() ==> base <= (#[trigger] spans[j]).1 <= base + writes_from(
                    items,
                    next,
                    sp,
                ).len()
        }),
    decreases items, items.len() - next,
{
    if 0 <= next < items.len() {
        let start = if next != 0 {
            base + 1
        } else {
            base
        };
        let own = item_writes(items[next], sp).len();
        let later = (start + own) as int;
        lemma_item_spans_sorted(items[next], start, sp);
        lemma_spans_sorted(items, next + 1, later, sp);
        let a = item_spans(items[next], start, sp);
        let b = spans_from(items, next + 1, later, sp);
        let spans = spans_from(items, next, base, sp);
        assert(spans =~= a + b);
        assert(writes_from(items, next, sp).len() == (start - base) + own + writes_from(
            items,
            next + 1,
            sp,
        ).len());
        assert forall|j: int| 0 <= j < spans.len() implies base <= (#[trigger] spans[j]).1 <= base
            + writes_from(items, next, sp).len() by {
            if j < a.len() {
                assert(spans[j] == a[j]);
            } else {
                assert(spans[j] == b[j - a.len()]);
            }
        }
        assert forall|i: int, j: int| 0 <= i < j < spans.len() implies (#[trigger] spans[i]).1 <= (
        #[trigger] spans[j]).1 by {
            if j < a.len() {
                assert(spans[i] == a[i] && spans[j] == a[j]);
            } else if i < a.len() {
                assert(spans[i] == a[i] && spans[j] == b[j - a.len()]);
            } else {
                assert(spans[i] == b[i - a.len()] && spans[j] == b[j - a.len()]);
            }
        }
    }
}

/// Every visited item ends with the pieces that are written.
pub(crate) proof fn lemma_visited_ends(spans: Seq<(int, int)>, pieces: int, j: int)
    requires
        0 <= j < visited_items(spans, pieces),
    ensures
        j < spans.len(),
        spans[j].1 <= pieces,
        visited_items(spans, pieces) <= spans.len(),
    decreases spans.len(),
{
    let rest = spans.subrange(1, spans.len() as int);
    if j > 0 {
        lemma_visited_ends(rest, pieces, j - 1);
        assert(rest[j - 1] == spans[j]);
    } else if visited_items(rest, pieces) > 0 {
        lemma_visited_ends(rest, pieces, 0);
    } else {
        lemma_visited(rest, pieces, 0);
    }
}

/// More pieces take no fewer bytes.
pub(crate) proof fn lemma_bytes_at_grow(pieces: Seq<Seq<char>>, a: int, b: int)
    requires
        0 <= a <= b <= pieces.len(),
    ensures
        0 <= bytes_at(pieces, a) <= bytes_at(pieces, b),
    decreases b - a,
{
    if a < b {
        lemma_bytes_at_grow(pieces, a, b - 1);
        let part = pieces.subrange(0, b);
        assert(part.drop_last() =~= pieces.subrange(0, b - 1));
        lemma_bytes_join(joined(part.drop_last()), part.last());
        lemma_bytes_at_least(part.last());
    } else {
        lemma_bytes_at_least(joined(pieces.subrange(0, a)));
    }
}

proof fn lemma_joined_front(first: Seq<char>, rest: Seq<Seq<char>>)
    ensures
        joined(seq![first] + rest) == first + joined(rest),
    decreases rest.len(),
{
    let all = seq![first] + rest;
    if rest.len() == 0 {
        assert(all.drop_last() =~= Seq::empty());
        assert(joined(Seq::<Seq<char>>::empty()) =~= Seq::empty());
        assert(all.last() == first);
        assert(joined(all) =~= first + joined(rest));
    } else {
        assert(all.drop_last() =~= seq![first] + rest.drop_last());
        lemma_joined_front(first, rest.drop_last());
        assert(joined(all) =~= first + joined(rest));
    }
}

/// The pieces that fit do not take more than there is.
pub(crate) proof fn lemma_fitting_bytes(pieces: Seq<Seq<char>>, used: int, limit: int)
    requires
        used <= limit,
    ensures
        used + bytes_at(pieces, fitting(pieces, used, limit)) <= limit,
    decreases pieces.len(),
{
    let count = fitting(pieces, used, limit);
    if pieces.len() > 0 && used + text_bytes(pieces[0]) <= limit {
        let rest = pieces.subrange(1, pieces.len() as int);
        let more = used + text_bytes(pieces[0]);
        lemma_fitting_bytes(rest, more, limit);
        lemma_fitting_bounds(rest, more, limit);
        let tail = rest.subrange(0, count - 1);
        assert(pieces.subrange(0, count) =~= seq![pieces[0]] + tail);
        lemma_joined_front(pieces[0], tail);
        lemma_bytes_join(pieces[0], joined(tail));
    } else {
        assert(pieces.subrange(0, 0) =~= Seq::empty());
        assert(joined(Seq::<Seq<char>>::empty()) =~= Seq::empty());
        assert(text_bytes(Seq::<char>::empty()) == 0);
    }
}

} // verus!
