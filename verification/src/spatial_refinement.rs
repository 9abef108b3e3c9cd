//! The exact drawing of a large spatial scene, far to near, in bounded batches.
//!
//! A canvas has no depth of its own. Lines are first sorted into buckets by
//! depth, a bounded number at a time, and then painted bucket by bucket.

use vstd::prelude::*;

use crate::canvas::{
    bad_metadata, BasePlan, CanvasError, CanvasFault, RefinementProgress, RenderKey, DEPTH_BUCKETS,
    EXACT_LINES_PER_BATCH, PREVIEW_LINES,
};
use crate::oracle::{ask, consistent, function_of};
use crate::stream_2d::reserve_exact;

verus! {

/// The lines in a bucket, in source order, where each line has been given one.
pub open spec fn members(places: Seq<usize>, bucket: int) -> Seq<usize>
    decreases places.len(),
{
    if places.len() == 0 {
        Seq::empty()
    } else {
        let before = members(places.drop_last(), bucket);
        if places.last() == bucket {
            before.push((places.len() - 1) as usize)
        } else {
            before
        }
    }
}

/// The lines of the first buckets, bucket by bucket.
pub open spec fn painted(places: Seq<usize>, buckets: int) -> Seq<usize>
    decreases buckets,
{
    if buckets <= 0 {
        Seq::empty()
    } else {
        painted(places, buckets - 1) + members(places, buckets - 1)
    }
}

/// How many lines have been given a bucket below a limit.
spec fn count_below(places: Seq<usize>, limit: int) -> int
    decreases places.len(),
{
    if places.len() == 0 {
        0
    } else {
        count_below(places.drop_last(), limit) + if places.last() < limit {
            1int
        } else {
            0
        }
    }
}

proof fn lemma_members_count(places: Seq<usize>, bucket: int)
    ensures
        count_below(places, bucket + 1) == count_below(places, bucket) + members(
            places,
            bucket,
        ).len(),
    decreases places.len(),
{
    if places.len() > 0 {
        lemma_members_count(places.drop_last(), bucket);
    }
}

proof fn lemma_painted_length(places: Seq<usize>, buckets: int)
    requires
        buckets >= 0,
    ensures
        painted(places, buckets).len() == count_below(places, buckets),
    decreases buckets,
{
    if buckets > 0 {
        lemma_painted_length(places, buckets - 1);
        lemma_members_count(places, buckets - 1);
    } else {
        lemma_none_below(places);
    }
}

proof fn lemma_none_below(places: Seq<usize>)
    ensures
        count_below(places, 0) == 0,
    decreases places.len(),
{
    if places.len() > 0 {
        lemma_none_below(places.drop_last());
    }
}

proof fn lemma_all_below(places: Seq<usize>, limit: int)
    requires
        forall|i: int| 0 <= i < places.len() ==> (#[trigger] places[i]) < limit,
    ensures
        count_below(places, limit) == places.len(),
    decreases places.len(),
{
    if places.len() > 0 {
        let init = places.drop_last();
        assert forall|i: int| 0 <= i < init.len() implies (#[trigger] init[i]) < limit by {
            assert(init[i] == places[i]);
        }
        lemma_all_below(init, limit);
        assert(places[places.len() - 1] < limit);
    }
}

proof fn lemma_member(places: Seq<usize>, line: int)
    requires
        0 <= line < places.len(),
        places.len() <= usize::MAX,
    ensures
        members(places, places[line] as int).contains(line as usize),
    decreases places.len(),
{
    let bucket = places[line] as int;
    let all = members(places, bucket);
    if line == places.len() - 1 {
        assert(all[all.len() - 1] == line as usize);
    } else {
        lemma_member(places.drop_last(), line);
        let before = members(places.drop_last(), bucket);
        let k = choose|k: int| 0 <= k < before.len() && before[k] == line as usize;
        assert(all[k] == line as usize);
    }
}

proof fn lemma_painted_holds(places: Seq<usize>, buckets: int, line: int)
    requires
        0 <= line < places.len(),
        places.len() <= usize::MAX,
        places[line] < buckets,
    ensures
        painted(places, buckets).contains(line as usize),
    decreases buckets,
{
    let all = painted(places, buckets);
    let before = painted(places, buckets - 1);
    if places[line] == buckets - 1 {
        lemma_member(places, line);
        let own = members(places, buckets - 1);
        let k = choose|k: int| 0 <= k < own.len() && own[k] == line as usize;
        assert(all[before.len() + k] == line as usize);
    } else {
        lemma_painted_holds(places, buckets - 1, line);
        let k = choose|k: int| 0 <= k < before.len() && before[k] == line as usize;
        assert(all[k] == line as usize);
    }
}

/// Once every line has a bucket, painting bucket by bucket paints as many lines
/// as there are, and every one of them: each exactly once.
pub proof fn every_line_is_painted_once(places: Seq<usize>, line: int)
    requires
        places.len() <= usize::MAX,
        forall|i: int| 0 <= i < places.len() ==> (#[trigger] places[i]) < DEPTH_BUCKETS,
        0 <= line < places.len(),
    ensures
        painted(places, DEPTH_BUCKETS as int).len() == places.len(),
        painted(places, DEPTH_BUCKETS as int).contains(line as usize),
{
    lemma_painted_length(places, DEPTH_BUCKETS as int);
    lemma_all_below(places, DEPTH_BUCKETS as int);
    lemma_painted_holds(places, DEPTH_BUCKETS as int, line);
}

/// The exact drawing of one view.
pub struct SpatialPass {
    pub key: RenderKey,
    pub buckets: Vec<Vec<usize>>,
    /// How many lines have been given a bucket.
    pub scanned: usize,
    pub bucket: usize,
    pub offset: usize,
    /// How many lines have been painted.
    pub drawn: usize,
    /// The bucket of each line that has one.
    pub places: Ghost<Seq<usize>>,
}

impl SpatialPass {
    pub open spec fn valid(self) -> bool {
        &&& self.buckets@.len() == DEPTH_BUCKETS
        &&& self.places@.len() == self.scanned
        &&& forall|i: int|
            0 <= i < self.places@.len() ==> (#[trigger] self.places@[i]) < DEPTH_BUCKETS
        &&& forall|b: int|
            0 <= b < DEPTH_BUCKETS ==> (#[trigger] self.buckets@[b])@ == members(self.places@, b)
        &&& self.bucket <= DEPTH_BUCKETS
        &&& self.bucket < DEPTH_BUCKETS ==> self.offset <= self.buckets@[self.bucket as int]@.len()
        &&& self.bucket == DEPTH_BUCKETS ==> self.offset == 0
        &&& self.drawn == painted(self.places@, self.bucket as int).len() + self.offset
    }

    fn begin(key: RenderKey) -> (r: SpatialPass)
        ensures
            r.valid(),
            r.key == key,
            r.scanned == 0,
            r.drawn == 0,
            r.places@.len() == 0,
            r.bucket == 0,
            r.offset == 0,
    {
        let mut buckets: Vec<Vec<usize>> = Vec::new();
        while buckets.len() < DEPTH_BUCKETS
            invariant
                buckets@.len() <= DEPTH_BUCKETS,
                forall|b: int| 0 <= b < buckets@.len() ==> (#[trigger] buckets@[b])@.len() == 0,
            decreases DEPTH_BUCKETS - buckets@.len(),
        {
            buckets.push(Vec::new());
        }
        let ghost none: Seq<usize> = Seq::empty();
        assert forall|b: int| 0 <= b < DEPTH_BUCKETS implies (#[trigger] buckets@[b])@ == members(
            none,
            b,
        ) by {
            assert(buckets@[b]@ =~= members(none, b));
        }
        SpatialPass {
            key,
            buckets,
            scanned: 0,
            bucket: 0,
            offset: 0,
            drawn: 0,
            places: Ghost(none),
        }
    }

    /// Give one more line a bucket. Room for it may be refused.
    fn scan(&mut self, place: usize) -> (r: bool)
        requires
            old(self).valid(),
            place < DEPTH_BUCKETS,
            old(self).drawn == 0,
            old(self).bucket == 0,
            old(self).offset == 0,
            old(self).scanned < usize::MAX,
        ensures
            final(self).valid(),
            final(self).key == old(self).key,
            final(self).drawn == 0,
            final(self).bucket == 0,
            final(self).offset == 0,
            if r {
                final(self).places@ == old(self).places@.push(place)
            } else {
                final(self).places@ == old(self).places@
            },
    {
        let ghost before = *self;
        let ghost grown = self.places@.push(place);
        match self.buckets[place].try_reserve(1) {
            Ok(_) => {},
            Err(_) => {
                assert(self.buckets@[place as int]@ == before.buckets@[place as int]@);
                assert forall|b: int| 0 <= b < DEPTH_BUCKETS implies (
                #[trigger] self.buckets@[b])@ == members(self.places@, b) by {
                    if b != place {
                        assert(self.buckets@[b] == before.buckets@[b]);
                    }
                }
                return false;
            },
        }
        let index: usize = self.scanned;
        self.buckets[place].push(index);
        self.scanned = index + 1;
        self.places = Ghost(grown);
        proof {
            assert(grown.drop_last() =~= before.places@);
            assert forall|b: int| 0 <= b < DEPTH_BUCKETS implies (#[trigger] self.buckets@[b])@
                == members(grown, b) by {
                if b != place {
                    assert(self.buckets@[b] == before.buckets@[b]);
                } else {
                    assert(self.buckets@[b]@ == before.buckets@[b]@.push(index));
                }
            }
            assert forall|i: int| 0 <= i < grown.len() implies (#[trigger] grown[i])
                < DEPTH_BUCKETS by {
                if i < before.places@.len() {
                    assert(grown[i] == before.places@[i]);
                }
            }
            assert(painted(grown, 0) =~= painted(before.places@, 0));
        }
        true
    }

    /// Take the next lines to paint, at most so many as make a batch.
    fn take_batch(&mut self, indices: Vec<usize>) -> (r: Vec<usize>)
        requires
            old(self).valid(),
            indices@.len() == 0,
        ensures
            final(self).valid(),
            final(self).key == old(self).key,
            final(self).places == old(self).places,
            final(self).scanned == old(self).scanned,
            ({
                let all = painted(old(self).places@, DEPTH_BUCKETS as int);
                &&& old(self).drawn <= all.len()
                &&& r@ == all.subrange(old(self).drawn as int, final(self).drawn as int)
                &&& final(self).drawn == if all.len() - old(self).drawn > EXACT_LINES_PER_BATCH {
                    (old(self).drawn + EXACT_LINES_PER_BATCH) as int
                } else {
                    all.len() as int
                }
            }),
    {
        let ghost places = self.places@;
        let ghost all = painted(places, DEPTH_BUCKETS as int);
        let ghost start = self.drawn as int;
        let mut indices: Vec<usize> = indices;
        proof {
            lemma_painted_prefix(places, self.bucket as int, DEPTH_BUCKETS as int);
            lemma_painted_length(places, DEPTH_BUCKETS as int);
            lemma_all_below(places, DEPTH_BUCKETS as int);
            if self.bucket < DEPTH_BUCKETS {
                lemma_painted_prefix(places, self.bucket + 1, DEPTH_BUCKETS as int);
            }
            assert(indices@ =~= all.subrange(start, start));
        }
        while indices.len() < EXACT_LINES_PER_BATCH && self.bucket < self.buckets.len()
            invariant
                self.valid(),
                self.key == old(self).key,
                self.places@ == places,
                self.places == old(self).places,
                self.scanned == old(self).scanned,
                all == painted(places, DEPTH_BUCKETS as int),
                all.len() == places.len(),
                0 <= start <= self.drawn <= all.len(),
                start == old(self).drawn,
                indices@.len() <= EXACT_LINES_PER_BATCH,
                self.drawn == start + indices@.len(),
                indices@ == all.subrange(start, self.drawn as int),
            decreases
                    DEPTH_BUCKETS - self.bucket,
                    all.len() - self.drawn,
        {
            let ghost before = *self;
            let ghost bucket = self.bucket as int;
            let length: usize = self.buckets[self.bucket].len();
            proof {
                lemma_painted_prefix(places, bucket, DEPTH_BUCKETS as int);
                lemma_painted_prefix(places, bucket + 1, DEPTH_BUCKETS as int);
                lemma_painted_length(places, bucket + 1);
                assert(self.buckets@[bucket]@ == members(places, bucket));
                assert(painted(places, bucket + 1) =~= painted(places, bucket) + members(
                    places,
                    bucket,
                ));
            }
            if self.offset >= length {
                self.bucket = self.bucket + 1;
                self.offset = 0;
            } else {
                let index: usize = self.buckets[self.bucket][self.offset];
                proof {
                    assert(painted(places, bucket + 1)[self.drawn as int] == members(
                        places,
                        bucket,
                    )[self.offset as int]);
                    assert(all[self.drawn as int] == index);
                }
                indices.push(index);
                self.offset = self.offset + 1;
                self.drawn = self.drawn + 1;
                assert(indices@ =~= all.subrange(start, self.drawn as int));
            }
        }
        proof {
            if self.bucket == DEPTH_BUCKETS {
                assert(self.drawn == all.len());
            } else {
                lemma_painted_prefix(places, self.bucket + 1, DEPTH_BUCKETS as int);
            }
        }
        indices
    }
}

proof fn lemma_painted_prefix(places: Seq<usize>, few: int, many: int)
    requires
        0 <= few <= many,
    ensures
        painted(places, few).len() <= painted(places, many).len(),
        painted(places, many).subrange(0, painted(places, few).len() as int) == painted(
            places,
            few,
        ),
        forall|i: int|
            0 <= i < painted(places, few).len() ==> #[trigger] painted(places, many)[i] == painted(
                places,
                few,
            )[i],
    decreases many,
{
    if few < many {
        lemma_painted_prefix(places, few, many - 1);
        let all = painted(places, many);
        let before = painted(places, many - 1);
        let prefix = painted(places, few);
        assert forall|i: int| 0 <= i < prefix.len() implies #[trigger] all[i] == prefix[i] by {
            assert(all[i] == before[i]);
        }
    }
    assert(painted(places, many).subrange(0, painted(places, few).len() as int) =~= painted(
        places,
        few,
    ));
}

/// What is drawn into the overlay of a spatial view.
#[derive(Debug)]
pub struct SpatialExactPlan {
    pub clear: bool,
    /// The lines to paint, in this order.
    pub indices: Vec<usize>,
    pub progress: RefinementProgress,
}

/// How far the exact drawing of a spatial scene has come.
pub struct SpatialRefinement {
    pub line_count: usize,
    pub polygon_count: usize,
    pub refined: usize,
    pub cancelled: bool,
    pub pass: Option<SpatialPass>,
}

impl SpatialRefinement {
    pub open spec fn overlay(self) -> bool {
        self.polygon_count == 0 && self.line_count > PREVIEW_LINES
    }

    pub open spec fn valid(self) -> bool {
        &&& self.refined <= self.line_count
        &&& !self.overlay() ==> self.refined == self.line_count
        &&& self.line_count + self.polygon_count <= usize::MAX
        &&& self.pass matches Some(pass) ==> pass.valid() && pass.scanned <= self.line_count
            && pass.drawn == self.refined && (pass.scanned < self.line_count ==> pass.drawn == 0
            && pass.bucket == 0 && pass.offset == 0)
    }

    pub open spec fn state(self) -> RefinementProgress {
        RefinementProgress {
            completed: self.refined,
            total: self.line_count,
            cancelled: self.cancelled,
            uses_exact_overlay: self.overlay(),
        }
    }

    /// The lines of the current view in painting order, as far as they have
    /// been given a bucket.
    pub open spec fn order(self) -> Seq<usize> {
        match self.pass {
            Some(pass) => painted(pass.places@, DEPTH_BUCKETS as int),
            None => Seq::empty(),
        }
    }

    /// The buckets that lines of the current view have been given.
    pub open spec fn places(self) -> Seq<usize> {
        match self.pass {
            Some(pass) => pass.places@,
            None => Seq::empty(),
        }
    }

    pub open spec fn shows(self, key: RenderKey) -> bool {
        self.pass is Some && self.pass->Some_0.key == key
    }

    pub fn uses_exact_overlay(&self) -> (r: bool)
        ensures
            r == self.overlay(),
    {
        self.polygon_count == 0 && self.line_count > PREVIEW_LINES
    }

    /// The state for a scene that has arrived, unless it has too many elements.
    pub fn for_scene(line_count: usize, polygon_count: usize) -> (r: Result<
        SpatialRefinement,
        CanvasError,
    >)
        ensures
            match r {
                Ok(state) => {
                    &&& state.valid()
                    &&& state.line_count == line_count
                    &&& state.polygon_count == polygon_count
                    &&& state.refined == (if state.overlay() { 0 } else { line_count })
                    &&& !state.cancelled
                    &&& state.pass is None
                },
                Err(error) => line_count + polygon_count > usize::MAX && error@
                    == CanvasFault::InvalidMetadata(
                    "browser spatial scene contains too many elements"@,
                ),
            },
    {
        match line_count.checked_add(polygon_count) {
            Some(_) => {},
            None => {
                return Err(bad_metadata("browser spatial scene contains too many elements"));
            },
        }
        let overlay: bool = polygon_count == 0 && line_count > PREVIEW_LINES;
        Ok(
            SpatialRefinement {
                line_count,
                polygon_count,
                refined: if overlay {
                    0
                } else {
                    line_count
                },
                cancelled: false,
                pass: None,
            },
        )
    }

    pub fn element_count(&self) -> (r: usize)
        requires
            self.valid(),
        ensures
            r == self.line_count + self.polygon_count,
    {
        self.line_count + self.polygon_count
    }

    pub fn navigation_enabled(&self) -> (r: bool)
        requires
            self.valid(),
        ensures
            r == (self.line_count > 0 || self.polygon_count > 0),
    {
        self.element_count() > 0
    }

    pub fn refinement_progress(&self) -> (r: RefinementProgress)
        ensures
            r == self.state(),
    {
        RefinementProgress {
            completed: self.refined,
            total: self.line_count,
            cancelled: self.cancelled,
            uses_exact_overlay: self.uses_exact_overlay(),
        }
    }

    /// Cancellation is sticky across camera changes. The result says whether a
    /// partial layer is to be cleared.
    pub fn cancel_refinement(&mut self) -> (r: bool)
        requires
            old(self).valid(),
        ensures
            final(self).valid(),
            if old(self).state().refining() {
                *final(self) == (SpatialRefinement { cancelled: true, pass: None, ..*old(self) })
                    && r == old(self).pass is Some
            } else {
                *final(self) == *old(self) && !r
            },
    {
        if !self.refinement_progress().is_refining() {
            return false;
        }
        self.cancelled = true;
        let clear: bool = self.pass.is_some();
        self.pass = None;
        clear
    }

    /// What a new view leaves of an exact drawing.
    pub open spec fn begun_again(self) -> SpatialRefinement {
        SpatialRefinement {
            refined: if !self.cancelled && self.overlay() {
                0
            } else {
                self.refined
            },
            pass: None,
            ..self
        }
    }

    /// Starts an exact pass for a settled view unless manual cancellation was
    /// requested. The result says whether a layer is to be cleared.
    pub fn restart_view_refinement(&mut self) -> (r: bool)
        requires
            old(self).valid(),
        ensures
            final(self).valid(),
            *final(self) == old(self).begun_again(),
            r == old(self).pass is Some,
    {
        let clear: bool = self.pass.is_some();
        self.pass = None;
        if !self.cancelled && self.uses_exact_overlay() {
            self.refined = 0;
        }
        clear
    }

    /// Plan the base of a view.
    pub fn base_plan(&mut self, key: RenderKey, with_preview_lines: bool) -> (r: BasePlan)
        requires
            old(self).valid(),
        ensures
            final(self).valid(),
            ({
                let stale = old(self).pass is Some && !old(self).shows(key);
                &&& *final(self) == if stale { old(self).begun_again() } else { *old(self) }
                &&& r.clear_overlay == stale
                &&& r.selected == (if !old(self).overlay() {
                    old(self).line_count
                } else if with_preview_lines {
                    PREVIEW_LINES
                } else {
                    0
                })
                &&& r.placeholder == (old(self).line_count == 0 && old(self).polygon_count == 0)
            }),
    {
        let stale: bool = match &self.pass {
            Some(pass) => pass.key != key,
            None => false,
        };
        if stale {
            let _ = self.restart_view_refinement();
        }
        let selected: usize = if !self.uses_exact_overlay() {
            self.line_count
        } else if with_preview_lines {
            PREVIEW_LINES
        } else {
            0
        };
        BasePlan { clear_overlay: stale, selected, placeholder: self.element_count() == 0 }
    }

    /// Do the next part of the exact drawing: while lines without a bucket are
    /// left, give the next of them one; then paint the next of them, far to
    /// near. Room may be refused.
    ///
    /// `fresh` says that the canvas is another one or was resized, and
    /// `place_of` gives the bucket of a line in this view.
    #[verifier::rlimit(60)]
    pub fn exact_batch<P: Fn(usize) -> usize>(
        &mut self,
        fresh: bool,
        key: RenderKey,
        place_of: &P,
    ) -> (r: Result<SpatialExactPlan, CanvasError>)
        requires
            old(self).valid(),
            consistent::<usize, usize, P>(*place_of),
            forall|line: usize|
                (#[trigger] function_of::<usize, usize, P>(*place_of)(line)) < DEPTH_BUCKETS,
        ensures
            final(self).valid(),
            final(self).line_count == old(self).line_count,
            final(self).polygon_count == old(self).polygon_count,
            final(self).cancelled == old(self).cancelled,
            ({
                let going = old(self).overlay() && !old(self).cancelled;
                let same = !fresh && old(self).shows(key);
                let start = if same { old(self).places() } else { Seq::empty() };
                let total = old(self).line_count as int;
                match r {
                    Ok(plan) => {
                        &&& plan.progress == final(self).state()
                        &&& if !going {
                            *final(self) == *old(self) && plan.clear && plan.indices@.len() == 0
                        } else {
                            &&& final(self).shows(key)
                            &&& plan.clear == !same
                            &&& if start.len() < total {
                                let end = if total - start.len() > EXACT_LINES_PER_BATCH {
                                    start.len() + EXACT_LINES_PER_BATCH
                                } else {
                                    total
                                };
                                &&& plan.indices@.len() == 0
                                &&& final(self).refined == 0
                                &&& final(self).places() == start + Seq::new(
                                    (end - start.len()) as nat,
                                    |i: int|
                                        function_of::<usize, usize, P>(*place_of)(
                                            (start.len() + i) as usize,
                                        ),
                                )
                            } else {
                                &&& final(self).places() == start
                                &&& plan.indices@ == old(self).order().subrange(
                                    old(self).refined as int,
                                    final(self).refined as int,
                                )
                                &&& final(self).refined == if total - old(self).refined
                                    > EXACT_LINES_PER_BATCH {
                                    (old(self).refined + EXACT_LINES_PER_BATCH) as int
                                } else {
                                    total
                                }
                            }
                        }
                    },
                    Err(error) => {
                        &&& going
                        &&& {
                            ||| error@ == (CanvasFault::ResourceExhausted {
                                operation: "order exact spatial lines"@,
                                requested_items: old(self).line_count,
                            })
                            ||| error@ == (CanvasFault::ResourceExhausted {
                                operation: "prepare an exact spatial line batch"@,
                                requested_items: EXACT_LINES_PER_BATCH,
                            })
                        }
                    },
                }
            }),
    {
        let ghost whole = *self;
        let none: Vec<usize> = Vec::new();
        if !self.uses_exact_overlay() || self.cancelled {
            return Ok(
                SpatialExactPlan {
                    clear: true,
                    indices: none,
                    progress: self.refinement_progress(),
                },
            );
        }
        let same: bool = !fresh && match &self.pass {
            Some(pass) => pass.key == key,
            None => false,
        };
        let kept: Option<SpatialPass> = self.pass.take();
        let mut pass: SpatialPass = match kept {
            Some(pass) => if same {
                pass
            } else {
                SpatialPass::begin(key)
            },
            None => SpatialPass::begin(key),
        };
        let ghost start = pass.places@;
        if !same {
            assert(start =~= Seq::empty());
        }
        if pass.scanned < self.line_count {
            let ghost f = function_of::<usize, usize, P>(*place_of);
            let first: usize = pass.scanned;
            let end: usize = if self.line_count - first > EXACT_LINES_PER_BATCH {
                first + EXACT_LINES_PER_BATCH
            } else {
                self.line_count
            };
            let ghost added = Seq::new((end - first) as nat, |i: int| f((first + i) as usize));
            assert(pass.places@ =~= start + added.subrange(0, 0));
            while pass.scanned < end
                invariant
                    consistent::<usize, usize, P>(*place_of),
                    f == function_of::<usize, usize, P>(*place_of),
                    forall|line: usize| (#[trigger] f(line)) < DEPTH_BUCKETS,
                    first <= pass.scanned <= end <= self.line_count,
                    pass.valid(),
                    pass.key == key,
                    pass.drawn == 0,
                    pass.bucket == 0,
                    pass.offset == 0,
                    start.len() == first,
                    added == Seq::new((end - first) as nat, |i: int| f((first + i) as usize)),
                    pass.places@ == start + added.subrange(0, pass.scanned - first),
                    self.line_count == whole.line_count,
                    self.polygon_count == whole.polygon_count,
                    self.cancelled == whole.cancelled,
                    self.pass is None,
                    whole == *old(self),
                    whole.valid(),
                    whole.overlay(),
                    !whole.cancelled,
                decreases end - pass.scanned,
            {
                let place: usize = ask(place_of, pass.scanned);
                let ghost at = pass.scanned;
                assert(place == f(at));
                if !pass.scan(place) {
                    self.refined = 0;
                    self.pass = Some(pass);
                    return Err(
                        CanvasError::ResourceExhausted {
                            operation: "order exact spatial lines",
                            requested_items: self.line_count,
                        },
                    );
                }
                assert(added.subrange(0, at + 1 - first) =~= added.subrange(0, at - first).push(
                    f(at),
                ));
                assert(pass.places@ =~= start + added.subrange(0, pass.scanned - first));
            }
            assert(added.subrange(0, end - first) =~= added);
            self.refined = 0;
            self.pass = Some(pass);
            return Ok(
                SpatialExactPlan {
                    clear: !same,
                    indices: none,
                    progress: self.refinement_progress(),
                },
            );
        }
        proof {
            lemma_painted_length(pass.places@, DEPTH_BUCKETS as int);
            lemma_all_below(pass.places@, DEPTH_BUCKETS as int);
        }
        let mut indices: Vec<usize> = none;
        if !reserve_exact(&mut indices, EXACT_LINES_PER_BATCH) {
            self.pass = Some(pass);
            return Err(
                CanvasError::ResourceExhausted {
                    operation: "prepare an exact spatial line batch",
                    requested_items: EXACT_LINES_PER_BATCH,
                },
            );
        }
        let indices: Vec<usize> = pass.take_batch(indices);
        self.refined = pass.drawn;
        self.pass = Some(pass);
        Ok(SpatialExactPlan { clear: !same, indices, progress: self.refinement_progress() })
    }
}

} // verus!
