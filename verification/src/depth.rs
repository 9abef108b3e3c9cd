//! The order in which the primitives of a spatial scene are painted: far to
//! near, and in source order where depths agree.

use vstd::multiset::Multiset;
use vstd::prelude::*;

use crate::canvas::{
    representative_index, sample_place, CanvasError, CanvasFault, SVG_LINES_PER_BATCH,
};
use crate::hook::{calm, lemma_unasked, stopped, Hook};
use crate::number::{answers, calculate, calculates, Arithmetic, Real, HALF_BITS, ONE_BITS};
use crate::oracle::{ask, consistent, function_of};
use crate::spatial::{draw_to, drawn_to, finite_else, finite_or};
use crate::stream_2d::reserve_exact;

verus! {

/// A line or a polygon by its place among its kind.
#[derive(Debug, Clone, Copy, PartialEq, Eq, Structural)]
pub enum SpatialPrimitive {
    Line(usize),
    Polygon(usize),
}

#[derive(Debug, Clone, Copy, PartialEq, Eq, Structural)]
pub struct DepthPrimitive {
    pub depth: Real,
    pub primitive: SpatialPrimitive,
    pub source_order: usize,
}

/// The first may be painted before the second.
pub open spec fn ordered(a: DepthPrimitive, b: DepthPrimitive) -> bool {
    ||| a.depth.total_rank() < b.depth.total_rank()
    ||| a.depth.total_rank() == b.depth.total_rank() && a.source_order <= b.source_order
}

/// Whether the first may be painted before the second.
pub fn in_order(a: &DepthPrimitive, b: &DepthPrimitive) -> (r: bool)
    ensures
        r == ordered(*a, *b),
{
    let (x, y): (i64, i64) = (a.depth.order_key(), b.depth.order_key());
    if x != y {
        x < y
    } else {
        a.source_order <= b.source_order
    }
}

/// Everything may be painted before everything behind it.
pub open spec fn sorted(order: Seq<DepthPrimitive>) -> bool {
    forall|i: int, j: int|
        0 <= i < j < order.len() ==> ordered(#[trigger] order[i], #[trigger] order[j])
}

/// Which primitives there are, and how often.
pub open spec fn bag(order: Seq<DepthPrimitive>) -> Multiset<DepthPrimitive>
    decreases order.len(),
{
    if order.len() == 0 {
        Multiset::empty()
    } else {
        bag(order.drop_last()).insert(order.last())
    }
}

proof fn lemma_bag_join(a: Seq<DepthPrimitive>, b: Seq<DepthPrimitive>)
    ensures
        bag(a + b) =~= bag(a).add(bag(b)),
    decreases b.len(),
{
    if b.len() == 0 {
        assert(a + b =~= a);
    } else {
        assert((a + b).drop_last() =~= a + b.drop_last());
        lemma_bag_join(a, b.drop_last());
    }
}

proof fn lemma_bag_push(a: Seq<DepthPrimitive>, entry: DepthPrimitive)
    ensures
        bag(a.push(entry)) == bag(a).insert(entry),
{
    assert(a.push(entry).drop_last() =~= a);
}

proof fn lemma_bag_prefix(a: Seq<DepthPrimitive>, i: int)
    requires
        0 <= i < a.len(),
    ensures
        bag(a.subrange(0, i + 1)) == bag(a.subrange(0, i)).insert(a[i]),
{
    assert(a.subrange(0, i + 1).drop_last() =~= a.subrange(0, i));
}

/// Two sorted runs on the way to becoming one.
struct Merge {
    left: Vec<DepthPrimitive>,
    right: Vec<DepthPrimitive>,
    i: usize,
    j: usize,
    out: Vec<DepthPrimitive>,
}

impl Merge {
    spec fn valid(self) -> bool {
        &&& sorted(self.left@)
        &&& sorted(self.right@)
        &&& sorted(self.out@)
        &&& self.i <= self.left@.len()
        &&& self.j <= self.right@.len()
        &&& forall|k: int, m: int|
            0 <= k < self.out@.len() && self.i <= m < self.left@.len() ==> ordered(
                #[trigger] self.out@[k],
                #[trigger] self.left@[m],
            )
        &&& forall|k: int, m: int|
            0 <= k < self.out@.len() && self.j <= m < self.right@.len() ==> ordered(
                #[trigger] self.out@[k],
                #[trigger] self.right@[m],
            )
        &&& bag(self.out@) == bag(self.left@.subrange(0, self.i as int)).add(
            bag(self.right@.subrange(0, self.j as int)),
        )
    }

    spec fn finished(self) -> bool {
        self.i == self.left@.len() && self.j == self.right@.len()
    }

    /// Everything in both runs.
    spec fn contents(self) -> Multiset<DepthPrimitive> {
        bag(self.left@).add(bag(self.right@))
    }

    fn begin(left: Vec<DepthPrimitive>, right: Vec<DepthPrimitive>) -> (r: Merge)
        requires
            sorted(left@),
            sorted(right@),
        ensures
            r.valid(),
            r.contents() == bag(left@).add(bag(right@)),
            r.i == 0,
            r.j == 0,
    {
        let out: Vec<DepthPrimitive> = Vec::new();
        assert(left@.subrange(0, 0) =~= Seq::empty());
        assert(right@.subrange(0, 0) =~= Seq::empty());
        assert(bag(out@) =~= bag(left@.subrange(0, 0)).add(bag(right@.subrange(0, 0))));
        Merge { left, right, i: 0, j: 0, out }
    }

    fn is_finished(&self) -> (r: bool)
        ensures
            r == self.finished(),
    {
        self.i == self.left.len() && self.j == self.right.len()
    }

    /// Move one entry. An entry of the first run goes before an equal one of
    /// the second.
    fn advance(&mut self)
        requires
            old(self).valid(),
            !old(self).finished(),
        ensures
            final(self).valid(),
            final(self).contents() == old(self).contents(),
            final(self).left == old(self).left,
            final(self).right == old(self).right,
            final(self).i + final(self).j == old(self).i + old(self).j + 1,
    {
        let ghost before = *self;
        let take_left: bool = self.j >= self.right.len() || (self.i < self.left.len() && in_order(
            &self.left[self.i],
            &self.right[self.j],
        ));
        let (total_left, total_right): (usize, usize) = (self.left.len(), self.right.len());
        assert(self.i < total_left || self.j < total_right);
        if take_left {
            let entry: DepthPrimitive = self.left[self.i];
            proof {
                lemma_bag_prefix(self.left@, self.i as int);
                lemma_bag_push(self.out@, entry);
            }
            self.out.push(entry);
            self.i = self.i + 1;
        } else {
            let entry: DepthPrimitive = self.right[self.j];
            proof {
                lemma_bag_prefix(self.right@, self.j as int);
                lemma_bag_push(self.out@, entry);
            }
            self.out.push(entry);
            self.j = self.j + 1;
        }
        proof {
            let entry = self.out@.last();
            assert(self.out@.drop_last() =~= before.out@);
            assert(bag(self.out@) =~= bag(self.left@.subrange(0, self.i as int)).add(
                bag(self.right@.subrange(0, self.j as int)),
            ));
            assert forall|k: int, m: int| 0 <= k < self.out@.len() && self.i <= m
                < self.left@.len() implies ordered(
                #[trigger] self.out@[k],
                #[trigger] self.left@[m],
            ) by {
                if k < before.out@.len() {
                    assert(self.out@[k] == before.out@[k]);
                } else if take_left {
                    assert(ordered(before.left@[before.i as int], before.left@[m]));
                } else {
                    if m > before.i {
                        assert(ordered(before.left@[before.i as int], before.left@[m]));
                    }
                }
            }
            assert forall|k: int, m: int| 0 <= k < self.out@.len() && self.j <= m
                < self.right@.len() implies ordered(
                #[trigger] self.out@[k],
                #[trigger] self.right@[m],
            ) by {
                if k < before.out@.len() {
                    assert(self.out@[k] == before.out@[k]);
                } else if m > before.j {
                    assert(ordered(before.right@[before.j as int], before.right@[m]));
                }
            }
            assert forall|i: int, j: int| 0 <= i < j < self.out@.len() implies ordered(
                #[trigger] self.out@[i],
                #[trigger] self.out@[j],
            ) by {
                assert(self.out@[i] == before.out@[i]);
                if j < before.out@.len() {
                    assert(self.out@[j] == before.out@[j]);
                } else if take_left {
                    assert(ordered(before.out@[i], before.left@[before.i as int]));
                } else {
                    assert(ordered(before.out@[i], before.right@[before.j as int]));
                }
            }
        }
    }

    /// The run that the two have become.
    fn into_run(self) -> (r: Vec<DepthPrimitive>)
        requires
            self.valid(),
            self.finished(),
        ensures
            sorted(r@),
            bag(r@) == self.contents(),
    {
        assert(self.left@.subrange(0, self.i as int) =~= self.left@);
        assert(self.right@.subrange(0, self.j as int) =~= self.right@);
        self.out
    }
}

/// Sort some primitives at once.
pub fn sort_depths(order: &Vec<DepthPrimitive>, start: usize, end: usize) -> (r: Vec<
    DepthPrimitive,
>)
    requires
        start <= end <= order@.len(),
    ensures
        sorted(r@),
        bag(r@) == bag(order@.subrange(start as int, end as int)),
    decreases end - start,
{
    let ghost all = order@.subrange(start as int, end as int);
    if end - start <= 1 {
        let mut out: Vec<DepthPrimitive> = Vec::new();
        if start < end {
            out.push(order[start]);
        }
        assert(out@ =~= all);
        return out;
    }
    let middle: usize = start + (end - start) / 2;
    let left: Vec<DepthPrimitive> = sort_depths(order, start, middle);
    let right: Vec<DepthPrimitive> = sort_depths(order, middle, end);
    proof {
        let (a, b) = (
            order@.subrange(start as int, middle as int),
            order@.subrange(middle as int, end as int),
        );
        assert(all =~= a + b);
        lemma_bag_join(a, b);
    }
    let mut merge: Merge = Merge::begin(left, right);
    while !merge.is_finished()
        invariant
            merge.valid(),
            merge.contents() == bag(all),
        decreases merge.left@.len() + merge.right@.len() - merge.i - merge.j,
    {
        merge.advance();
    }
    merge.into_run()
}

/// Everything in some runs.
spec fn bags(runs: Seq<Vec<DepthPrimitive>>) -> Multiset<DepthPrimitive>
    decreases runs.len(),
{
    if runs.len() == 0 {
        Multiset::empty()
    } else {
        bags(runs.drop_last()).add(bag(runs.last()@))
    }
}

spec fn all_sorted(runs: Seq<Vec<DepthPrimitive>>) -> bool {
    forall|i: int| 0 <= i < runs.len() ==> sorted((#[trigger] runs[i])@)
}

/// The first of two measures is below the second, the earlier numbers deciding.
pub open spec fn nearer(a: (nat, nat, nat), b: (nat, nat, nat)) -> bool {
    a.0 < b.0 || a.0 == b.0 && (a.1 < b.1 || a.1 == b.1 && a.2 < b.2)
}

/// Sorts in bounded runs and merges those runs cooperatively: every step does a
/// bounded amount of work, so that whoever takes the steps can yield between
/// them, or stop.
pub struct DepthSorter {
    rest: Vec<DepthPrimitive>,
    runs: Vec<Vec<DepthPrimitive>>,
    merged: Vec<Vec<DepthPrimitive>>,
    merge: Option<Merge>,
    count: usize,
    all: Ghost<Multiset<DepthPrimitive>>,
}

impl DepthSorter {
    pub closed spec fn contents(self) -> Multiset<DepthPrimitive> {
        self.all@
    }

    pub closed spec fn length(self) -> usize {
        self.count
    }

    pub closed spec fn valid(self) -> bool {
        &&& all_sorted(self.runs@)
        &&& all_sorted(self.merged@)
        &&& self.merge matches Some(merge) ==> merge.valid()
        &&& self.all@ =~= bag(self.rest@).add(bags(self.runs@)).add(bags(self.merged@)).add(
            match self.merge {
                Some(merge) => merge.contents(),
                None => Multiset::empty(),
            },
        )
    }

    /// How far the end is: runs that are still to be sorted or merged, entries
    /// of a merge, and what a pass still has to set aside.
    pub closed spec fn left(self) -> (nat, nat, nat) {
        (
            2 * self.rest@.len() + self.runs@.len() + self.merged@.len() + (if self.merge is Some {
                1nat
            } else {
                0
            }),
            match self.merge {
                Some(merge) => (merge.left@.len() + merge.right@.len() - merge.i - merge.j
                    + 1) as nat,
                None => 0,
            },
            if self.runs@.len() >= 2 {
                0
            } else if self.runs@.len() == 0 {
                1
            } else {
                2
            },
        )
    }

    pub closed spec fn finished(self) -> bool {
        self.rest@.len() == 0 && self.runs@.len() == 0 && self.merged@.len() <= 1
            && self.merge is None
    }

    pub fn new(order: Vec<DepthPrimitive>) -> (r: DepthSorter)
        ensures
            r.valid(),
            r.contents() == bag(order@),
            r.length() == order@.len(),
    {
        let count: usize = order.len();
        DepthSorter {
            rest: order,
            runs: Vec::new(),
            merged: Vec::new(),
            merge: None,
            count,
            all: Ghost(bag(order@)),
        }
    }

    pub fn is_finished(&self) -> (r: bool)
        ensures
            r == self.finished(),
    {
        self.rest.len() == 0 && self.runs.len() == 0 && self.merged.len() <= 1
            && self.merge.is_none()
    }

    /// Sort one run of the entries that are left.
    fn sort_run(&mut self)
        requires
            old(self).valid(),
            old(self).rest@.len() > 0,
        ensures
            final(self).valid(),
            final(self).contents() == old(self).contents(),
            final(self).length() == old(self).length(),
            final(self).rest@.len() < old(self).rest@.len(),
            nearer(final(self).left(), old(self).left()),
    {
        let ghost before = *self;
        let total: usize = self.rest.len();
        let start: usize = if total > SVG_LINES_PER_BATCH {
            total - SVG_LINES_PER_BATCH
        } else {
            0
        };
        let run: Vec<DepthPrimitive> = sort_depths(&self.rest, start, total);
        self.rest.truncate(start);
        let ghost sorted_run = run;
        self.runs.push(run);
        proof {
            let (a, b) = (
                before.rest@.subrange(0, start as int),
                before.rest@.subrange(start as int, total as int),
            );
            assert(before.rest@ =~= a + b);
            lemma_bag_join(a, b);
            assert(self.rest@ =~= a);
            assert(self.runs@.drop_last() =~= before.runs@);
            assert(bags(self.runs@) == bags(before.runs@).add(bag(sorted_run@)));
            assert forall|i: int| 0 <= i < self.runs@.len() implies sorted(
                (#[trigger] self.runs@[i])@,
            ) by {
                if i < before.runs@.len() {
                    assert(self.runs@[i] == before.runs@[i]);
                }
            }
        }
    }

    /// Begin the next merge, or the next pass over the merged runs.
    fn schedule(&mut self) -> (r: bool)
        requires
            old(self).valid(),
            old(self).merge is None,
            !old(self).finished(),
            old(self).rest@.len() == 0,
        ensures
            final(self).valid(),
            final(self).contents() == old(self).contents(),
            final(self).length() == old(self).length(),
            final(self).rest@.len() == 0,
            nearer(final(self).left(), old(self).left()),
    {
        let ghost before = *self;
        match self.runs.pop() {
            None => {
                // A pass is over: what it has merged is merged again.
                let mut next: Vec<Vec<DepthPrimitive>> = Vec::new();
                std::mem::swap(&mut self.merged, &mut next);
                self.runs = next;
                proof {
                    assert(self.runs@ == before.merged@);
                    assert(self.merged@ =~= Seq::empty());
                    assert(before.runs@ =~= Seq::empty());
                    assert(bags(self.merged@) =~= Multiset::empty());
                    assert(bags(before.runs@) =~= Multiset::empty());
                    assert(self.valid());
                }
                true
            },
            Some(left) => {
                let ghost first = left;
                assert(before.runs@.drop_last() =~= self.runs@);
                assert(sorted(before.runs@[before.runs@.len() - 1]@));
                assert(all_sorted(self.runs@)) by {
                    assert forall|i: int| 0 <= i < self.runs@.len() implies sorted(
                        (#[trigger] self.runs@[i])@,
                    ) by {
                        assert(self.runs@[i] == before.runs@[i]);
                    }
                }
                let ghost middle = self.runs@;
                match self.runs.pop() {
                    None => {
                        self.merged.push(left);
                        proof {
                            assert(self.merged@.drop_last() =~= before.merged@);
                            assert forall|i: int| 0 <= i < self.merged@.len() implies sorted(
                                (#[trigger] self.merged@[i])@,
                            ) by {
                                if i < before.merged@.len() {
                                    assert(self.merged@[i] == before.merged@[i]);
                                }
                            }
                            assert(bags(middle) =~= Multiset::empty());
                            assert(bags(before.runs@) == bags(middle).add(bag(first@)));
                            assert(bags(self.merged@) == bags(before.merged@).add(bag(first@)));
                            assert(self.runs@ =~= Seq::empty());
                            assert(self.valid());
                        }
                        true
                    },
                    Some(right) => {
                        let ghost second = right;
                        proof {
                            assert(middle.drop_last() =~= self.runs@);
                            assert(sorted(middle[middle.len() - 1]@));
                            assert forall|i: int| 0 <= i < self.runs@.len() implies sorted(
                                (#[trigger] self.runs@[i])@,
                            ) by {
                                assert(self.runs@[i] == middle[i]);
                            }
                        }
                        let mut merge: Merge = Merge::begin(left, right);
                        let size: usize = self.count;
                        let room: bool = reserve_exact(&mut merge.out, size);
                        assert(merge.valid());
                        self.merge = Some(merge);
                        proof {
                            assert(bags(before.runs@) == bags(middle).add(bag(first@)));
                            assert(bags(middle) == bags(self.runs@).add(bag(second@)));
                            assert(merge.contents() == bag(first@).add(bag(second@)));
                            assert(all_sorted(self.runs@));
                            assert(self.valid());
                        }
                        room
                    },
                }
            },
        }
    }

    /// Do a bounded amount of work. The cancellation hook is asked once before
    /// it, also where nothing is left to do; a yes ends the sorting with the
    /// primitives as they are. Room for merging may be refused.
    pub fn step<F: Fn() -> bool>(&mut self, hook: &mut Hook<F>) -> (r: Result<(), CanvasError>)
        requires
            old(self).valid(),
            old(hook).ready(),
        ensures
            final(hook).ready(),
            final(hook).follows(*old(hook)),
            final(hook).since(*old(hook)).len() == 1,
            final(self).valid(),
            final(self).contents() == old(self).contents(),
            final(self).length() == old(self).length(),
            match r {
                Ok(()) => calm(final(hook).since(*old(hook))),
                Err(error) => {
                    ||| error@ == CanvasFault::Cancelled && stopped(final(hook).since(*old(hook)))
                        && *final(self) == *old(self)
                    ||| calm(final(hook).since(*old(hook))) && !old(self).finished() && error@ == (
                    CanvasFault::ResourceExhausted {
                        operation: "merge ordered spatial SVG primitives"@,
                        requested_items: old(self).length(),
                    })
                },
            },
            old(self).finished() ==> *final(self) == *old(self),
            !old(self).finished() && calm(final(hook).since(*old(hook))) ==> nearer(
                final(self).left(),
                old(self).left(),
            ),
    {
        let ghost entry = *hook;
        proof {
            lemma_unasked(entry);
        }
        let cancelled: bool = hook.ask(Ghost(entry));
        if cancelled {
            return Err(CanvasError::Cancelled);
        }
        if self.is_finished() {
            return Ok(());
        }
        if self.rest.len() > 0 {
            self.sort_run();
            return Ok(());
        }
        let mut budget: usize = SVG_LINES_PER_BATCH;
        while budget > 0 && !self.is_finished()
            invariant
                self.valid(),
                self.contents() == old(self).contents(),
                self.length() == old(self).length(),
                self.rest@.len() == 0,
                !old(self).finished(),
                hook.ready(),
                hook.follows(*old(hook)),
                hook.since(*old(hook)).len() == 1,
                calm(hook.since(*old(hook))),
                budget == SVG_LINES_PER_BATCH ==> *self == *old(self),
                budget < SVG_LINES_PER_BATCH ==> nearer(self.left(), old(self).left()),
                budget <= SVG_LINES_PER_BATCH,
            decreases budget,
        {
            let ghost before = *self;
            match self.merge.take() {
                None => {
                    self.merge = None;
                    assert(*self == before);
                    if !self.schedule() {
                        return Err(
                            CanvasError::ResourceExhausted {
                                operation: "merge ordered spatial SVG primitives",
                                requested_items: self.count,
                            },
                        );
                    }
                },
                Some(merge) => {
                    let mut merge: Merge = merge;
                    if merge.is_finished() {
                        let ghost whole = merge.contents();
                        let run: Vec<DepthPrimitive> = merge.into_run();
                        let ghost sorted_run = run;
                        self.merged.push(run);
                        self.merge = None;
                        proof {
                            assert(self.merged@.drop_last() =~= before.merged@);
                            assert forall|i: int| 0 <= i < self.merged@.len() implies sorted(
                                (#[trigger] self.merged@[i])@,
                            ) by {
                                if i < before.merged@.len() {
                                    assert(self.merged@[i] == before.merged@[i]);
                                }
                            }
                            assert(bags(self.merged@) == bags(before.merged@).add(
                                bag(sorted_run@),
                            ));
                        }
                    } else {
                        merge.advance();
                        self.merge = Some(merge);
                    }
                },
            }
            budget = budget - 1;
        }
        Ok(())
    }

    /// The primitives in order, once they are.
    pub fn into_order(self) -> (r: Option<Vec<DepthPrimitive>>)
        requires
            self.valid(),
        ensures
            match r {
                Some(order) => self.finished() && sorted(order@) && bag(order@)
                    =~= self.contents(),
                None => !self.finished(),
            },
    {
        if !self.is_finished() {
            return None;
        }
        let mut merged: Vec<Vec<DepthPrimitive>> = self.merged;
        let ghost before = merged@;
        assert(bags(self.runs@) =~= Multiset::empty());
        assert(bag(self.rest@) =~= Multiset::empty());
        match merged.pop() {
            Some(run) => {
                assert(before.drop_last() =~= Seq::empty());
                assert(bags(before.drop_last()) =~= Multiset::empty());
                assert(sorted(before[0]@));
                Some(run)
            },
            None => {
                assert(bags(before) =~= Multiset::empty());
                Some(Vec::new())
            },
        }
    }
}

/// How many of some offsets are at most a place.
pub open spec fn offsets_up_to(offsets: Seq<usize>, place: int) -> int
    decreases offsets.len(),
{
    if offsets.len() == 0 {
        0
    } else {
        offsets_up_to(offsets.drop_last(), place) + if offsets.last() <= place {
            1int
        } else {
            0
        }
    }
}

/// Offsets come in ascending order.
pub open spec fn offsets_ascend(offsets: Seq<usize>) -> bool {
    forall|i: int, j: int|
        0 <= i <= j < offsets.len() ==> #[trigger] offsets[i] <= #[trigger] offsets[j]
}

/// Whether offsets come in ascending order.
pub fn offsets_in_order(offsets: &[usize]) -> (r: bool)
    ensures
        r == offsets_ascend(offsets@),
{
    let mut i: usize = 1;
    while i < offsets.len()
        invariant
            1 <= i,
            i <= offsets@.len() || offsets@.len() == 0,
            forall|a: int, b: int|
                0 <= a <= b < i && b < offsets@.len() ==> #[trigger] offsets@[a]
                    <= #[trigger] offsets@[b],
        decreases offsets@.len() - i,
    {
        if offsets[i] < offsets[i - 1] {
            assert(offsets@[i - 1] > offsets@[i as int]);
            return false;
        }
        assert forall|a: int, b: int| 0 <= a <= b < i + 1 implies #[trigger] offsets@[a]
            <= #[trigger] offsets@[b] by {
            if b == i && a < i {
                assert(offsets@[a] <= offsets@[i - 1]);
            }
        }
        i = i + 1;
    }
    true
}

/// A sum that stays within the limit of counts.
pub open spec fn up_to_limit(n: int) -> int {
    if n > usize::MAX {
        usize::MAX as int
    } else {
        n
    }
}

proof fn lemma_offsets_split(offsets: Seq<usize>, place: int, at: int)
    requires
        0 <= at <= offsets.len(),
        forall|i: int| 0 <= i < at ==> #[trigger] offsets[i] <= place,
        forall|i: int| at <= i < offsets.len() ==> #[trigger] offsets[i] > place,
    ensures
        offsets_up_to(offsets, place) == at,
    decreases offsets.len(),
{
    if offsets.len() > 0 {
        let init = offsets.drop_last();
        if at == offsets.len() {
            assert(offsets[offsets.len() - 1] <= place);
            lemma_offsets_split(init, place, at - 1);
        } else {
            assert(offsets[offsets.len() - 1] > place);
            lemma_offsets_split(init, place, at);
        }
    }
}

/// The place of a line among all primitives. `offsets` says of each polygon how
/// many lines come before it, and ascends.
pub fn spatial_line_source_position(index: usize, offsets: &[usize]) -> (r: usize)
    ensures
        offsets_ascend(offsets@) ==> r == up_to_limit(
            index + offsets_up_to(offsets@, index as int),
        ),
        index <= r,
{
    let mut low: usize = 0;
    let mut high: usize = offsets.len();
    while low < high
        invariant
            low <= high <= offsets@.len(),
            offsets_ascend(offsets@) ==> forall|i: int|
                0 <= i < low ==> #[trigger] offsets@[i] <= index,
            offsets_ascend(offsets@) ==> forall|i: int|
                high <= i < offsets@.len() ==> #[trigger] offsets@[i] > index,
        decreases high - low,
    {
        let middle: usize = low + (high - low) / 2;
        if offsets[middle] <= index {
            low = middle + 1;
        } else {
            high = middle;
        }
    }
    proof {
        if offsets_ascend(offsets@) {
            lemma_offsets_split(offsets@, index as int, low as int);
        }
    }
    index.saturating_add(low)
}

/// The place of a polygon among all primitives.
pub fn spatial_polygon_source_position(index: usize, lines_before: usize) -> (r: usize)
    ensures
        r == up_to_limit(lines_before + index),
{
    lines_before.saturating_add(index)
}

/// Lines and polygons never share a place: the compact offsets give back the
/// order in which they were emitted.
pub proof fn source_positions_differ(offsets: Seq<usize>, line: int, polygon: int)
    requires
        offsets_ascend(offsets),
        0 <= line,
        0 <= polygon < offsets.len(),
    ensures
        line + offsets_up_to(offsets, line) != offsets[polygon] + polygon,
        line + offsets_up_to(offsets, line) < offsets[polygon] + polygon <==> line
            < offsets[polygon],
{
    lemma_offsets_bound(offsets, line, polygon);
}

/// A line stands at a place among all primitives.
pub open spec fn line_at(offsets: Seq<usize>, lines: int, line: int, place: int) -> bool {
    0 <= line < lines && line + offsets_up_to(offsets, line) == place
}

/// A polygon stands at a place among all primitives.
pub open spec fn polygon_at(offsets: Seq<usize>, polygon: int, place: int) -> bool {
    0 <= polygon < offsets.len() && offsets[polygon] + polygon == place
}

/// Lines and polygons together take every place once: at each there is one
/// line or one polygon, and not both.
pub proof fn source_positions_cover_every_place(offsets: Seq<usize>, lines: int, place: int)
    requires
        offsets_ascend(offsets),
        forall|i: int| 0 <= i < offsets.len() ==> #[trigger] offsets[i] <= lines,
        0 <= place < lines + offsets.len(),
    ensures
        (exists|line: int| #[trigger] line_at(offsets, lines, line, place)) != (exists|polygon: int|
         #[trigger] polygon_at(offsets, polygon, place)),
        forall|a: int, b: int| #[trigger]
            line_at(offsets, lines, a, place) && #[trigger] line_at(offsets, lines, b, place)
                ==> a == b,
        forall|a: int, b: int| #[trigger]
            polygon_at(offsets, a, place) && #[trigger] polygon_at(offsets, b, place) ==> a == b,
{
    let k = lemma_polygons_before(offsets, place);
    if k < offsets.len() && offsets[k] + k == place {
        assert(polygon_at(offsets, k, place));
    } else {
        let line = place - k;
        assert forall|i: int| 0 <= i < k implies #[trigger] offsets[i] <= line by {
            assert(offsets[i] <= offsets[k - 1]);
            assert(offsets[k - 1] + (k - 1) < place);
        }
        assert forall|i: int| k <= i < offsets.len() implies #[trigger] offsets[i] > line by {
            assert(offsets[k] <= offsets[i]);
        }
        lemma_offsets_split(offsets, line, k);
        if k > 0 {
            assert(offsets[k - 1] + (k - 1) < place);
        }
        assert(line_at(offsets, lines, line, place));
    }
    assert forall|line: int, polygon: int| #[trigger]
        line_at(offsets, lines, line, place) && #[trigger] polygon_at(
            offsets,
            polygon,
            place,
        ) implies false by {
        source_positions_differ(offsets, line, polygon);
    }
    assert forall|a: int, b: int| #[trigger]
        line_at(offsets, lines, a, place) && #[trigger] line_at(
            offsets,
            lines,
            b,
            place,
        ) implies a == b by {
        if a < b {
            lemma_offsets_grow(offsets, a, b);
        } else if b < a {
            lemma_offsets_grow(offsets, b, a);
        }
    }
    assert forall|a: int, b: int| #[trigger]
        polygon_at(offsets, a, place) && #[trigger] polygon_at(offsets, b, place) implies a
        == b by {
        if a < b {
            assert(offsets[a] <= offsets[b]);
        } else if b < a {
            assert(offsets[b] <= offsets[a]);
        }
    }
}

/// How many polygons stand before a place.
proof fn lemma_polygons_before(offsets: Seq<usize>, place: int) -> (k: int)
    requires
        offsets_ascend(offsets),
    ensures
        0 <= k <= offsets.len(),
        forall|i: int| 0 <= i < k ==> #[trigger] offsets[i] + i < place,
        k < offsets.len() ==> offsets[k] + k >= place,
    decreases offsets.len(),
{
    if offsets.len() == 0 {
        0
    } else {
        let init = offsets.drop_last();
        assert forall|i: int, j: int| 0 <= i <= j < init.len() implies #[trigger] init[i]
            <= #[trigger] init[j] by {
            assert(init[i] == offsets[i] && init[j] == offsets[j]);
        }
        let k = lemma_polygons_before(init, place);
        assert forall|i: int| 0 <= i < k implies #[trigger] offsets[i] + i < place by {
            assert(offsets[i] == init[i]);
        }
        if k < init.len() {
            assert(init[k] == offsets[k]);
            k
        } else if offsets.last() + k < place {
            k + 1
        } else {
            k
        }
    }
}

proof fn lemma_offsets_grow(offsets: Seq<usize>, a: int, b: int)
    requires
        a <= b,
    ensures
        offsets_up_to(offsets, a) <= offsets_up_to(offsets, b),
    decreases offsets.len(),
{
    if offsets.len() > 0 {
        lemma_offsets_grow(offsets.drop_last(), a, b);
    }
}

proof fn lemma_offsets_bound(offsets: Seq<usize>, line: int, polygon: int)
    requires
        offsets_ascend(offsets),
        0 <= polygon < offsets.len(),
    ensures
        offsets[polygon] <= line ==> offsets_up_to(offsets, line) >= polygon + 1,
        offsets[polygon] > line ==> offsets_up_to(offsets, line) <= polygon,
    decreases offsets.len(),
{
    let init = offsets.drop_last();
    lemma_offsets_range(init, line);
    if polygon < offsets.len() - 1 {
        assert forall|i: int, j: int| 0 <= i <= j < init.len() implies #[trigger] init[i]
            <= #[trigger] init[j] by {
            assert(init[i] == offsets[i] && init[j] == offsets[j]);
        }
        lemma_offsets_bound(init, line, polygon);
        assert(offsets[polygon] <= offsets[offsets.len() - 1]);
    } else if offsets[polygon] <= line {
        assert forall|i: int| 0 <= i < offsets.len() implies #[trigger] offsets[i] <= line by {
            assert(offsets[i] <= offsets[polygon]);
        }
        lemma_offsets_split(offsets, line, offsets.len() as int);
    }
}

proof fn lemma_offsets_range(offsets: Seq<usize>, line: int)
    ensures
        0 <= offsets_up_to(offsets, line) <= offsets.len(),
    decreases offsets.len(),
{
    if offsets.len() > 0 {
        lemma_offsets_range(offsets.drop_last(), line);
    }
}

pub fn spatial_primitive_count(line_count: usize, polygon_count: usize) -> (r: Result<
    usize,
    CanvasError,
>)
    ensures
        match r {
            Ok(count) => count == line_count + polygon_count,
            Err(error) => line_count + polygon_count > usize::MAX && error@ == (
            CanvasFault::ResourceExhausted {
                operation: "order spatial Canvas primitives"@,
                requested_items: usize::MAX,
            }),
        },
{
    match line_count.checked_add(polygon_count) {
        Some(count) => Ok(count),
        None => Err(
            CanvasError::ResourceExhausted {
                operation: "order spatial Canvas primitives",
                requested_items: usize::MAX,
            },
        ),
    }
}

/// A line of a sample with its depth.
pub open spec fn sampled_line(
    output: int,
    selected: int,
    total: int,
    offsets: Seq<usize>,
    depths: spec_fn(SpatialPrimitive) -> Real,
) -> DepthPrimitive {
    let index = sample_place(output, selected, total) as usize;
    DepthPrimitive {
        depth: depths(SpatialPrimitive::Line(index)),
        primitive: SpatialPrimitive::Line(index),
        source_order: up_to_limit(index + offsets_up_to(offsets, index as int)) as usize,
    }
}

/// A polygon with its depth.
pub open spec fn placed_polygon(
    index: int,
    offsets: Seq<usize>,
    depths: spec_fn(SpatialPrimitive) -> Real,
) -> DepthPrimitive {
    DepthPrimitive {
        depth: depths(SpatialPrimitive::Polygon(index as usize)),
        primitive: SpatialPrimitive::Polygon(index as usize),
        source_order: up_to_limit(offsets[index] + index) as usize,
    }
}

/// The primitives of a view before they are ordered: sampled lines, then every
/// polygon.
pub open spec fn view_primitives(
    selected: int,
    total: int,
    offsets: Seq<usize>,
    depths: spec_fn(SpatialPrimitive) -> Real,
) -> Seq<DepthPrimitive> {
    Seq::new(
        selected as nat,
        |i: int| sampled_line(i, selected, total, offsets, depths),
    ) + Seq::new(offsets.len(), |i: int| placed_polygon(i, offsets, depths))
}

/// List the primitives of a view.
fn list_primitives<D: Fn(SpatialPrimitive) -> Real>(
    selected: usize,
    total: usize,
    offsets: &Vec<usize>,
    depth_of: &D,
    order: Vec<DepthPrimitive>,
) -> (r: Vec<DepthPrimitive>)
    requires
        consistent::<SpatialPrimitive, Real, D>(*depth_of),
        selected <= total,
        offsets_ascend(offsets@),
        order@.len() == 0,
    ensures
        r@ == view_primitives(
            selected as int,
            total as int,
            offsets@,
            function_of::<SpatialPrimitive, Real, D>(*depth_of),
        ),
{
    let ghost depths = function_of::<SpatialPrimitive, Real, D>(*depth_of);
    let ghost all = view_primitives(selected as int, total as int, offsets@, depths);
    let mut order: Vec<DepthPrimitive> = order;
    let mut output: usize = 0;
    assert(order@ =~= all.subrange(0, 0));
    while output < selected
        invariant
            consistent::<SpatialPrimitive, Real, D>(*depth_of),
            depths == function_of::<SpatialPrimitive, Real, D>(*depth_of),
            all == view_primitives(selected as int, total as int, offsets@, depths),
            offsets_ascend(offsets@),
            output <= selected <= total,
            order@ == all.subrange(0, output as int),
        decreases selected - output,
    {
        let index: usize = representative_index(output, selected, total);
        let primitive: SpatialPrimitive = SpatialPrimitive::Line(index);
        let depth: Real = ask(depth_of, primitive);
        let source_order: usize = spatial_line_source_position(index, offsets.as_slice());
        order.push(DepthPrimitive { depth, primitive, source_order });
        assert(order@.last() == all[output as int]);
        output = output + 1;
        assert(order@ =~= all.subrange(0, output as int));
    }
    let mut index: usize = 0;
    while index < offsets.len()
        invariant
            consistent::<SpatialPrimitive, Real, D>(*depth_of),
            depths == function_of::<SpatialPrimitive, Real, D>(*depth_of),
            all == view_primitives(selected as int, total as int, offsets@, depths),
            index <= offsets@.len(),
            order@ == all.subrange(0, selected + index),
        decreases offsets@.len() - index,
    {
        let primitive: SpatialPrimitive = SpatialPrimitive::Polygon(index);
        let depth: Real = ask(depth_of, primitive);
        let source_order: usize = spatial_polygon_source_position(index, offsets[index]);
        order.push(DepthPrimitive { depth, primitive, source_order });
        assert(order@.last() == all[selected + index]);
        index = index + 1;
        assert(order@ =~= all.subrange(0, selected + index));
    }
    assert(order@ =~= all);
    order
}

/// Order the primitives of a view for painting. Room for them may be refused.
pub fn spatial_primitive_order<D: Fn(SpatialPrimitive) -> Real>(
    selected: usize,
    total: usize,
    offsets: &Vec<usize>,
    depth_of: &D,
) -> (r: Result<Vec<DepthPrimitive>, CanvasError>)
    requires
        consistent::<SpatialPrimitive, Real, D>(*depth_of),
        selected <= total,
        offsets_ascend(offsets@),
    ensures
        match r {
            Ok(order) => sorted(order@) && bag(order@) =~= bag(
                view_primitives(
                    selected as int,
                    total as int,
                    offsets@,
                    function_of::<SpatialPrimitive, Real, D>(*depth_of),
                ),
            ),
            Err(error) => error@ matches CanvasFault::ResourceExhausted {
                operation,
                requested_items,
            } && operation == "order spatial Canvas primitives"@ && requested_items == up_to_limit(
                selected + offsets@.len(),
            ),
        },
{
    let count: usize = match spatial_primitive_count(selected, offsets.len()) {
        Ok(count) => count,
        Err(error) => {
            return Err(error);
        },
    };
    let mut order: Vec<DepthPrimitive> = Vec::new();
    if !reserve_exact(&mut order, count) {
        return Err(
            CanvasError::ResourceExhausted {
                operation: "order spatial Canvas primitives",
                requested_items: count,
            },
        );
    }
    let listed: Vec<DepthPrimitive> = list_primitives(selected, total, offsets, depth_of, order);
    let end: usize = listed.len();
    assert(listed@.subrange(0, end as int) =~= listed@);
    Ok(sort_depths(&listed, 0, end))
}

/// The depth of a line from those of its ends.
pub open spec fn line_depth(start: Real, end: Real, ev: spec_fn(Arithmetic) -> Real) -> Real {
    finite_else(
        ev(
            Arithmetic::Product(ev(Arithmetic::Sum(start, end)), Real { bits: HALF_BITS }),
        ),
        Real { bits: 0 },
    )
}

pub fn spatial_line_depth<C: Fn(Arithmetic) -> Real>(start: Real, end: Real, calc: &C) -> (r: Real)
    requires
        calculates(*calc),
    ensures
        r == line_depth(start, end, answers(*calc)),
{
    let sum: Real = calculate(calc, Arithmetic::Sum(start, end));
    let middle: Real = calculate(calc, Arithmetic::Product(sum, Real { bits: HALF_BITS }));
    finite_or(middle, Real { bits: 0 })
}

/// The running mean of some points with one more.
pub open spec fn mean_with(
    mean: Option<(Real, Real, Real)>,
    point: (Real, Real, Real),
    index: usize,
    ev: spec_fn(Arithmetic) -> Real,
) -> (Real, Real, Real) {
    match mean {
        None => point,
        Some(mean) => {
            let weight = ev(
                Arithmetic::Quotient(
                    Real { bits: ONE_BITS },
                    ev(Arithmetic::Count((index + 1) as usize)),
                ),
            );
            (
                drawn_to(mean.0, point.0, weight, ev),
                drawn_to(mean.1, point.1, weight, ev),
                drawn_to(mean.2, point.2, weight, ev),
            )
        },
    }
}

pub fn include_spatial_centroid_point<C: Fn(Arithmetic) -> Real>(
    centroid: &mut Option<(Real, Real, Real)>,
    point: (Real, Real, Real),
    index: usize,
    calc: &C,
)
    requires
        calculates(*calc),
        index < usize::MAX,
    ensures
        *final(centroid) == Some(mean_with(*old(centroid), point, index, answers(*calc))),
{
    match *centroid {
        None => {
            *centroid = Some(point);
        },
        Some(mean) => {
            let count: Real = calculate(calc, Arithmetic::Count(index + 1));
            let weight: Real = calculate(
                calc,
                Arithmetic::Quotient(Real { bits: ONE_BITS }, count),
            );
            *centroid = Some(
                (
                    draw_to(mean.0, point.0, weight, calc),
                    draw_to(mean.1, point.1, weight, calc),
                    draw_to(mean.2, point.2, weight, calc),
                ),
            );
        },
    }
}

/// The running mean of some points.
pub open spec fn mean_of(points: Seq<(Real, Real, Real)>, ev: spec_fn(Arithmetic) -> Real) -> Option<
    (Real, Real, Real),
>
    decreases points.len(),
{
    if points.len() == 0 {
        None
    } else {
        Some(
            mean_with(
                mean_of(points.drop_last(), ev),
                points.last(),
                (points.len() - 1) as usize,
                ev,
            ),
        )
    }
}

pub fn spatial_polygon_centroid<C: Fn(Arithmetic) -> Real>(
    vertices: &Vec<(Real, Real, Real)>,
    calc: &C,
) -> (r: Option<(Real, Real, Real)>)
    requires
        calculates(*calc),
    ensures
        r == mean_of(vertices@, answers(*calc)),
{
    let mut centroid: Option<(Real, Real, Real)> = None;
    let mut i: usize = 0;
    while i < vertices.len()
        invariant
            calculates(*calc),
            i <= vertices@.len(),
            centroid == mean_of(vertices@.subrange(0, i as int), answers(*calc)),
        decreases vertices@.len() - i,
    {
        assert(vertices@.subrange(0, i + 1).drop_last() =~= vertices@.subrange(0, i as int));
        include_spatial_centroid_point(&mut centroid, vertices[i], i, calc);
        i = i + 1;
    }
    assert(vertices@.subrange(0, i as int) =~= vertices@);
    centroid
}

/// What is painted first stays first: the order of painting is settled by the
/// depths and the places, wherever places differ.
pub proof fn painting_order_is_unique(a: Seq<DepthPrimitive>, b: Seq<DepthPrimitive>)
    requires
        sorted(a),
        sorted(b),
        bag(a) == bag(b),
        forall|i: int, j: int|
            0 <= i < a.len() && 0 <= j < a.len() && i != j ==> (#[trigger] a[i]).source_order != (
            #[trigger] a[j]).source_order,
    ensures
        a == b,
    decreases a.len(),
{
    lemma_bag_len(a);
    lemma_bag_len(b);
    if a.len() == 0 {
        assert(a =~= b);
    } else {
        let (x, y) = (a.last(), b.last());
        assert(bag(a).count(x) > 0);
        assert(bag(b).count(y) > 0);
        lemma_bag_holds(b, x);
        lemma_bag_holds(a, y);
        let i = choose|i: int| 0 <= i < b.len() && b[i] == x;
        let j = choose|j: int| 0 <= j < a.len() && a[j] == y;
        assert(x == y) by {
            if j < a.len() - 1 {
                assert(ordered(a[j], a[a.len() - 1]));
                assert(a[j].source_order != a[a.len() - 1].source_order);
                if i < b.len() - 1 {
                    assert(ordered(b[i], b[b.len() - 1]));
                }
            }
        }
        let (c, d) = (a.drop_last(), b.drop_last());
        assert(bag(c) =~= bag(a).remove(x));
        assert(bag(d) =~= bag(b).remove(y));
        assert forall|i: int, j: int| 0 <= i < j < c.len() implies ordered(
            #[trigger] c[i],
            #[trigger] c[j],
        ) by {
            assert(c[i] == a[i] && c[j] == a[j]);
        }
        assert forall|i: int, j: int| 0 <= i < j < d.len() implies ordered(
            #[trigger] d[i],
            #[trigger] d[j],
        ) by {
            assert(d[i] == b[i] && d[j] == b[j]);
        }
        assert forall|i: int, j: int|
            0 <= i < c.len() && 0 <= j < c.len() && i != j implies (#[trigger] c[i]).source_order
            != (#[trigger] c[j]).source_order by {
            assert(c[i] == a[i] && c[j] == a[j]);
        }
        painting_order_is_unique(c, d);
        assert(a =~= c.push(x));
        assert(b =~= d.push(y));
    }
}

proof fn lemma_bag_len(a: Seq<DepthPrimitive>)
    ensures
        bag(a).len() == a.len(),
    decreases a.len(),
{
    if a.len() > 0 {
        lemma_bag_len(a.drop_last());
    }
}

proof fn lemma_bag_holds(a: Seq<DepthPrimitive>, entry: DepthPrimitive)
    requires
        bag(a).count(entry) > 0,
    ensures
        exists|i: int| 0 <= i < a.len() && a[i] == entry,
    decreases a.len(),
{
    if a.len() > 0 {
        if a.last() == entry {
            assert(a[a.len() - 1] == entry);
        } else {
            lemma_bag_holds(a.drop_last(), entry);
            let i = choose|i: int| 0 <= i < a.drop_last().len() && a.drop_last()[i] == entry;
            assert(a[i] == entry);
        }
    }
}

} // verus!
