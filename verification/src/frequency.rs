//! The most common module names.

use vstd::prelude::*;

use crate::error::{exhausted, Failure, VisualizeError};
use crate::inspector::{reserve_vec, InspectorProgress};
use crate::outlet::{called_off, lemma_listened, lemma_listening_starts, questions, quiet, Outlet};
use crate::text::{
    chars_of, lemma_precedes_irreflexive, lemma_precedes_total, lemma_precedes_transitive, precedes,
    text_precedes,
};

verus! {

/// How many names are shown.
pub const FREQUENCY_ROWS: usize = 12;

/// A name and its count.
pub type Entry = (Seq<char>, usize);

/// Larger counts come first, and equal counts in the order of names.
pub open spec fn comes_before(a: Entry, b: Entry) -> bool {
    a.1 > b.1 || (a.1 == b.1 && precedes(a.0, b.0))
}

/// The entries of a table.
pub open spec fn entries_of(table: Seq<(&str, usize)>) -> Seq<Entry> {
    table.map_values(|e: (&str, usize)| (e.0@, e.1))
}

/// No name stands in two entries.
pub open spec fn names_differ(entries: Seq<Entry>) -> bool {
    forall|i: int, j: int|
        0 <= i < j < entries.len() ==> (#[trigger] entries[i]).0 != (#[trigger] entries[j]).0
}

/// Entries in the order in which they are shown.
pub open spec fn in_order(entries: Seq<Entry>) -> bool {
    forall|i: int, j: int|
        0 <= i < j < entries.len() ==> comes_before(
            #[trigger] entries[i],
            #[trigger] entries[j],
        )
}

/// The first entries of a table in the order in which they are shown.
pub open spec fn leads(top: Seq<Entry>, table: Seq<Entry>, rows: int) -> bool {
    &&& in_order(top)
    &&& top.len() == if table.len() < rows {
        table.len() as int
    } else {
        rows
    }
    &&& forall|i: int| 0 <= i < top.len() ==> table.contains(#[trigger] top[i])
    &&& forall|j: int|
        0 <= j < table.len() ==> top.contains(#[trigger] table[j]) || (top.len() == rows
            && comes_before(top.last(), table[j]))
}

proof fn lemma_order(a: Entry, b: Entry, c: Entry)
    ensures
        comes_before(a, b) && comes_before(b, c) ==> comes_before(a, c),
        a.0 != b.0 ==> comes_before(a, b) || comes_before(b, a),
        !comes_before(a, a),
        !(comes_before(a, b) && comes_before(b, a)),
{
    lemma_precedes_total(a.0, b.0);
    lemma_precedes_irreflexive(a.0);
    if precedes(a.0, b.0) && precedes(b.0, c.0) {
        lemma_precedes_transitive(a.0, b.0, c.0);
    }
}

/// Whether an entry is shown before another.
pub fn frequency_before(left: (&str, usize), right: (&str, usize)) -> (r: bool)
    ensures
        r == comes_before((left.0@, left.1), (right.0@, right.1)),
{
    if left.1 != right.1 {
        return left.1 > right.1;
    }
    let a: Vec<char> = chars_of(left.0);
    let b: Vec<char> = chars_of(right.0);
    text_precedes(a.as_slice(), b.as_slice())
}

/// Putting an entry at its place keeps the first entries the first.
proof fn lemma_insert(
    top: Seq<Entry>,
    seen: Seq<Entry>,
    entry: Entry,
    place: int,
    rows: int,
    next: Seq<Entry>,
)
    requires
        rows > 0,
        leads(top, seen, rows),
        names_differ(seen.push(entry)),
        0 <= place <= top.len(),
        forall|i: int| 0 <= i < place ==> comes_before(#[trigger] top[i], entry),
        forall|i: int| place <= i < top.len() ==> comes_before(entry, #[trigger] top[i]),
        ({
            let grown = top.insert(place, entry);
            next == if grown.len() > rows {
                grown.drop_last()
            } else {
                grown
            }
        }),
    ensures
        leads(next, seen.push(entry), rows),
{
    let table = seen.push(entry);
    let grown = top.insert(place, entry);
    assert forall|i: int, j: int| 0 <= i < j < grown.len() implies comes_before(
        #[trigger] grown[i],
        #[trigger] grown[j],
    ) by {
        let a = if i < place { i } else { i - 1 };
        let b = if j < place { j } else { j - 1 };
        if i == place {
            assert(grown[j] == top[b]);
        } else if j == place {
            assert(grown[i] == top[a]);
        } else {
            assert(grown[i] == top[a]);
            assert(grown[j] == top[b]);
        }
    }
    assert(in_order(next)) by {
        assert forall|i: int, j: int| 0 <= i < j < next.len() implies comes_before(
            #[trigger] next[i],
            #[trigger] next[j],
        ) by {
            assert(next[i] == grown[i]);
            assert(next[j] == grown[j]);
        }
    }
    assert(table[seen.len() as int] == entry);
    assert forall|i: int| 0 <= i < next.len() implies table.contains(#[trigger] next[i]) by {
        assert(next[i] == grown[i]);
        if i != place {
            let a = if i < place { i } else { i - 1 };
            assert(grown[i] == top[a]);
            let j = choose|j: int| 0 <= j < seen.len() && seen[j] == top[a];
            assert(table[j] == top[a]);
        }
    }
    assert forall|j: int| 0 <= j < table.len() implies next.contains(#[trigger] table[j]) || (
    next.len() == rows && comes_before(next.last(), table[j])) by {
        if j == seen.len() {
            assert(grown[place] == entry);
            if place < next.len() {
                assert(next[place] == entry);
            } else {
                assert(next.last() == grown[rows - 1]);
                assert(comes_before(grown[rows - 1], grown[place]));
            }
        } else if top.contains(seen[j]) {
            let a = choose|a: int| 0 <= a < top.len() && top[a] == seen[j];
            let b = if a < place { a } else { a + 1 };
            assert(grown[b] == seen[j]);
            if b < next.len() {
                assert(next[b] == seen[j]);
            } else {
                assert(next.last() == grown[rows - 1]);
                assert(comes_before(grown[rows - 1], grown[b]));
            }
        } else {
            // The last entry shown only moves forward.
            assert(comes_before(top.last(), seen[j]));
            assert(grown.len() == rows + 1);
            let old_last = top[rows - 1];
            let new_last = next[rows - 1];
            assert(new_last == grown[rows - 1]);
            if place == rows {
                assert(new_last == old_last);
            } else {
                assert(grown[rows] == old_last);
                assert(comes_before(grown[rows - 1], grown[rows]));
                lemma_order(new_last, old_last, seen[j]);
            }
        }
    }
}

/// The most common names of a table, with their counts. The hook is asked
/// before every entry.
pub fn top_frequencies<
    'a,
    F: Fn() -> bool,
    E: Fn(InspectorProgress) -> Result<(), VisualizeError>,
>(
    table: &Vec<(&'a str, usize)>,
    outlet: &mut Outlet<InspectorProgress, F, E>,
) -> (r: Result<Vec<(&'a str, usize)>, VisualizeError>)
    requires
        old(outlet).ready(),
        names_differ(entries_of(table@)),
    ensures
        final(outlet).ready(),
        final(outlet).follows(*old(outlet)),
        ({
            let log = final(outlet).since(*old(outlet));
            &&& questions(log)
            &&& match r {
                Ok(top) => {
                    &&& leads(entries_of(top@), entries_of(table@), FREQUENCY_ROWS as int)
                    &&& quiet(log)
                    &&& log.len() == table@.len()
                },
                Err(error) => {
                    ||| called_off(log, old(outlet).sink()) && error@ == Failure::Cancelled
                    ||| log.len() == 0 && error@ == exhausted("inspector top frequencies"@, 13)
                },
            }
        }),
{
    let ghost opened = *outlet;
    proof {
        lemma_listening_starts(opened);
        lemma_listened(opened, *outlet);
    }
    let mut top: Vec<(&'a str, usize)> = Vec::new();
    match reserve_vec(&mut top, FREQUENCY_ROWS + 1, "inspector top frequencies") {
        Ok(()) => {},
        Err(error) => {
            return Err(error);
        },
    }
    let ghost all = entries_of(table@);
    let mut k: usize = 0;
    assert(all.subrange(0, 0) =~= Seq::empty());
    assert(entries_of(top@) =~= Seq::empty());
    while k < table.len()
        invariant
            opened == *old(outlet),
            outlet.listening(opened),
            outlet.heard(opened) == k,
            all == entries_of(table@),
            names_differ(all),
            k <= table@.len(),
            leads(entries_of(top@), all.subrange(0, k as int), FREQUENCY_ROWS as int),
        decreases table@.len() - k,
    {
        let cancelled: bool = outlet.ask(Ghost(opened));
        proof {
            lemma_listened(opened, *outlet);
        }
        if cancelled {
            return Err(VisualizeError::Cancelled);
        }
        let entry: (&'a str, usize) = table[k];
        let ghost value: Entry = (entry.0@, entry.1);
        let ghost seen = all.subrange(0, k as int);
        let ghost shown = entries_of(top@);
        let mut place: usize = 0;
        proof {
            assert(all[k as int] == value);
            assert(all.subrange(0, k + 1) =~= seen.push(value));
            assert forall|i: int| 0 <= i < shown.len() implies (#[trigger] shown[i]).0
                != value.0 by {
                let j = choose|j: int| 0 <= j < seen.len() && seen[j] == shown[i];
                assert(all[j] == shown[i]);
            }
        }
        while place < top.len() && frequency_before(top[place], entry)
            invariant
                place <= top@.len(),
                shown == entries_of(top@),
                value == (entry.0@, entry.1),
                forall|i: int| 0 <= i < place ==> comes_before(#[trigger] shown[i], value),
            decreases top@.len() - place,
        {
            assert(shown[place as int] == (top@[place as int].0@, top@[place as int].1));
            place = place + 1;
        }
        proof {
            assert forall|i: int| place <= i < shown.len() implies comes_before(
                value,
                #[trigger] shown[i],
            ) by {
                assert(shown[place as int] == (top@[place as int].0@, top@[place as int].1));
                lemma_order(shown[place as int], value, value);
                if i > place {
                    assert(comes_before(shown[place as int], shown[i]));
                    lemma_order(value, shown[place as int], shown[i]);
                }
            }
        }
        top.insert(place, entry);
        assert(entries_of(top@) =~= shown.insert(place as int, value));
        if top.len() > FREQUENCY_ROWS {
            let ghost grown = top@;
            top.pop();
            assert(entries_of(top@) =~= entries_of(grown).drop_last());
        }
        proof {
            let next = entries_of(top@);
            assert(names_differ(seen.push(value))) by {
                let t = seen.push(value);
                assert forall|i: int, j: int| 0 <= i < j < t.len() implies (
                #[trigger] t[i]).0 != (#[trigger] t[j]).0 by {
                    assert(t[i] == all[i]);
                    assert(t[j] == all[j]);
                }
            }
            lemma_insert(shown, seen, value, place as int, FREQUENCY_ROWS as int, next);
        }
        k = k + 1;
    }
    assert(all.subrange(0, k as int) =~= all);
    proof {
        lemma_listened(opened, *outlet);
    }
    Ok(top)
}

/// A table has one way to be shown.
pub proof fn leading_entries_are_unique(
    a: Seq<Entry>,
    b: Seq<Entry>,
    table: Seq<Entry>,
    rows: int,
)
    requires
        rows > 0,
        names_differ(table),
        leads(a, table, rows),
        leads(b, table, rows),
    ensures
        a == b,
{
    if exists|i: int| 0 <= i < a.len() && a[i] != b[i] {
        let i = lemma_first_difference(a, b, 0);
        // The entry that one shows first is nowhere in the other.
        lemma_missing_entry(a, b, table, rows, i);
        lemma_missing_entry(b, a, table, rows, i);
        lemma_order(a[i], b[i], a[i]);
    }
    assert(a =~= b);
}

/// The first place at which two sequences differ.
proof fn lemma_first_difference(a: Seq<Entry>, b: Seq<Entry>, from: int) -> (i: int)
    requires
        a.len() == b.len(),
        0 <= from <= a.len(),
        forall|j: int| 0 <= j < from ==> a[j] == b[j],
        exists|j: int| 0 <= j < a.len() && a[j] != b[j],
    ensures
        0 <= i < a.len(),
        a[i] != b[i],
        forall|j: int| 0 <= j < i ==> a[j] == b[j],
    decreases a.len() - from,
{
    if from < a.len() && a[from] == b[from] {
        lemma_first_difference(a, b, from + 1)
    } else {
        from
    }
}

/// At the first difference the entry of one comes after the entry of the other.
proof fn lemma_missing_entry(
    a: Seq<Entry>,
    b: Seq<Entry>,
    table: Seq<Entry>,
    rows: int,
    i: int,
)
    requires
        rows > 0,
        leads(a, table, rows),
        leads(b, table, rows),
        0 <= i < a.len(),
        a.len() == b.len(),
        a[i] != b[i],
        forall|j: int| 0 <= j < i ==> a[j] == b[j],
    ensures
        comes_before(b[i], a[i]),
{
    let e = a[i];
    assert(table.contains(e));
    let t = choose|t: int| 0 <= t < table.len() && table[t] == e;
    if b.contains(table[t]) {
        let j = choose|j: int| 0 <= j < b.len() && b[j] == e;
        if j < i {
            assert(a[j] == e);
            assert(comes_before(a[j], a[i]));
            lemma_order(e, e, e);
        } else {
            assert(j != i);
            assert(comes_before(b[i], b[j]));
        }
    } else {
        assert(comes_before(b.last(), e));
        let last = b.len() - 1;
        if i < last {
            assert(comes_before(b[i], b[last]));
            lemma_order(b[i], b[last], e);
        }
    }
}

} // verus!
