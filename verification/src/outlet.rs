//! The way out of a stream: a caller's cancellation hook and sink, with a
//! record of everything that was asked of the one and handed to the other.

use vstd::prelude::*;

use crate::error::{Failure, VisualizeError};

verus! {

/// One exchange with a caller.
pub enum Exchange<B> {
    /// The cancellation hook was asked, and gave this answer.
    Asked(bool),
    /// The sink was handed this.
    Handed(B),
}

/// What a sink was handed, in order.
pub open spec fn handed<B>(log: Seq<Exchange<B>>) -> Seq<B>
    decreases log.len(),
{
    if log.len() == 0 {
        Seq::empty()
    } else {
        match log.last() {
            Exchange::Asked(_) => handed(log.drop_last()),
            Exchange::Handed(b) => handed(log.drop_last()).push(b),
        }
    }
}

/// How often a hook was asked.
pub open spec fn asked<B>(log: Seq<Exchange<B>>) -> nat
    decreases log.len(),
{
    if log.len() == 0 {
        0
    } else {
        asked(log.drop_last()) + if log.last() is Asked {
            1nat
        } else {
            0nat
        }
    }
}

/// The hook never said that the work is cancelled.
pub open spec fn quiet<B>(log: Seq<Exchange<B>>) -> bool {
    forall|i: int| 0 <= i < log.len() ==> #[trigger] log[i] != Exchange::<B>::Asked(true)
}

/// Something was handed over at a place.
pub open spec fn handed_at<B>(log: Seq<Exchange<B>>, i: int) -> bool {
    0 <= i < log.len() && log[i] is Handed
}

/// The hook was asked directly before everything that was handed over.
pub open spec fn led<B>(log: Seq<Exchange<B>>) -> bool {
    forall|i: int| #[trigger] handed_at(log, i) ==> i > 0 && log[i - 1] is Asked
}

/// Before the `n`th thing was handed over, the hook had been asked at least
/// `pace(n)` times.
pub open spec fn paced<B>(log: Seq<Exchange<B>>, pace: spec_fn(nat) -> int) -> bool {
    forall|i: int| #[trigger]
        handed_at(log, i) ==> asked(log.subrange(0, i)) >= pace(
            handed(log.subrange(0, i)).len() + 1,
        )
}

/// The sink accepted everything that it was handed.
pub open spec fn accepted<B, E: Fn(B) -> Result<(), VisualizeError>>(
    log: Seq<Exchange<B>>,
    sink: E,
) -> bool {
    forall|i: int|
        0 <= i < log.len() ==> (#[trigger] log[i] matches Exchange::Handed(b) ==> call_ensures(
            sink,
            (b,),
            Ok::<(), VisualizeError>(()),
        ))
}

/// Every answer on record is one that a hook gives.
pub open spec fn answered<B, F: Fn() -> bool>(log: Seq<Exchange<B>>, hook: F) -> bool {
    forall|i: int|
        0 <= i < log.len() ==> (#[trigger] log[i] matches Exchange::Asked(answer)
            ==> call_ensures(hook, (), answer))
}

/// Nothing was handed over.
pub open spec fn questions<B>(log: Seq<Exchange<B>>) -> bool {
    forall|i: int| 0 <= i < log.len() ==> #[trigger] log[i] is Asked
}

/// Neither the hook nor the sink stood in the way.
pub open spec fn undisturbed<B, E: Fn(B) -> Result<(), VisualizeError>>(
    log: Seq<Exchange<B>>,
    sink: E,
) -> bool {
    quiet(log) && accepted(log, sink)
}

/// The last thing that happened was that the hook said that the work is
/// cancelled; it had not said so before.
pub open spec fn called_off<B, E: Fn(B) -> Result<(), VisualizeError>>(
    log: Seq<Exchange<B>>,
    sink: E,
) -> bool {
    log.len() > 0 && log.last() == Exchange::<B>::Asked(true) && undisturbed(log.drop_last(), sink)
}

/// The last thing that happened was that the sink answered with this error; it
/// had accepted everything before.
pub open spec fn turned_away<B, E: Fn(B) -> Result<(), VisualizeError>>(
    log: Seq<Exchange<B>>,
    sink: E,
    error: VisualizeError,
) -> bool {
    &&& log.len() > 0
    &&& log.last() matches Exchange::Handed(b) && call_ensures(
        sink,
        (b,),
        Err::<(), VisualizeError>(error),
    )
    &&& undisturbed(log.drop_last(), sink)
}

/// Work ended with an error because of the hook or because of the sink.
pub open spec fn stopped_by_caller<B, E: Fn(B) -> Result<(), VisualizeError>>(
    log: Seq<Exchange<B>>,
    sink: E,
    error: VisualizeError,
) -> bool {
    ||| called_off(log, sink) && error@ == Failure::Cancelled
    ||| turned_away(log, sink, error)
}

/// A cancellation hook and a sink.
///
/// They are called through this type alone, so what it records is all that
/// was asked and all that was handed over, in order.
pub struct Outlet<B, F: Fn() -> bool, E: Fn(B) -> Result<(), VisualizeError>> {
    is_cancelled: F,
    emit: E,
    log: Ghost<Seq<Exchange<B>>>,
}

impl<B, F: Fn() -> bool, E: Fn(B) -> Result<(), VisualizeError>> Outlet<B, F, E> {
    /// The exchanges so far, in order.
    pub closed spec fn log(self) -> Seq<Exchange<B>> {
        self.log@
    }

    pub closed spec fn hook(self) -> F {
        self.is_cancelled
    }

    pub closed spec fn sink(self) -> E {
        self.emit
    }

    /// The hook can be asked, and the sink takes anything; every answer on
    /// record is one that the hook gives.
    pub open spec fn ready(self) -> bool {
        &&& call_requires(self.hook(), ())
        &&& answered(self.log(), self.hook())
        &&& forall|b: B| #[trigger] call_requires(self.sink(), (b,))
    }

    /// The same outlet, perhaps after more exchanges.
    pub open spec fn follows(self, before: Self) -> bool {
        &&& self.hook() == before.hook()
        &&& self.sink() == before.sink()
        &&& before.log().len() <= self.log().len()
        &&& self.log().subrange(0, before.log().len() as int) == before.log()
    }

    /// The exchanges since an earlier moment.
    pub open spec fn since(self, before: Self) -> Seq<Exchange<B>> {
        self.log().subrange(before.log().len() as int, self.log().len() as int)
    }

    /// An outlet on which nothing has happened yet.
    pub fn new(is_cancelled: F, emit: E) -> (r: Self)
        ensures
            r.hook() == is_cancelled,
            r.sink() == emit,
            r.log() == Seq::<Exchange<B>>::empty(),
    {
        Outlet { is_cancelled, emit, log: Ghost(Seq::empty()) }
    }

    /// Ask the hook whether the work is cancelled.
    pub fn cancelled(&mut self) -> (r: bool)
        requires
            old(self).ready(),
        ensures
            final(self).ready(),
            final(self).hook() == old(self).hook(),
            final(self).sink() == old(self).sink(),
            final(self).log() == old(self).log().push(Exchange::Asked(r)),
            call_ensures(old(self).hook(), (), r),
    {
        let is_cancelled: &F = &self.is_cancelled;
        let answer: bool = is_cancelled();
        let ghost before = *self;
        self.log = Ghost(self.log@.push(Exchange::Asked(answer)));
        assert forall|b: B| #[trigger] call_requires(self.sink(), (b,)) by {
            assert(call_requires(before.sink(), (b,)));
        }
        answer
    }

    /// Ask the hook once more in a row of questions that has heard no yes yet.
    pub(crate) fn ask(&mut self, Ghost(start): Ghost<Self>) -> (r: bool)
        requires
            old(self).listening(start),
        ensures
            final(self).hook() == old(self).hook(),
            final(self).sink() == old(self).sink(),
            final(self).ready(),
            final(self).heard(start) == old(self).heard(start) + 1,
            if r {
                final(self).interrupted(start)
            } else {
                final(self).listening(start)
            },
    {
        let ghost before = *self;
        let answer: bool = self.cancelled();
        proof {
            let log = before.since(start);
            lemma_one_more(start, before, *self, Exchange::Asked(answer));
            lemma_questions(log, start.sink());
            lemma_asked_once(log, answer);
        }
        answer
    }

    /// Nothing but questions since a moment, and no yes.
    pub closed spec fn listening(self, start: Self) -> bool {
        &&& self.ready()
        &&& self.follows(start)
        &&& questions(self.since(start))
        &&& quiet(self.since(start))
    }

    /// Nothing but questions since a moment, and the last one was answered yes.
    pub closed spec fn interrupted(self, start: Self) -> bool {
        &&& self.ready()
        &&& self.follows(start)
        &&& questions(self.since(start))
        &&& called_off(self.since(start), start.sink())
    }

    /// How much happened since a moment.
    pub closed spec fn heard(self, start: Self) -> nat {
        self.since(start).len()
    }

    /// Hand something to the sink.
    pub fn hand(&mut self, b: B) -> (r: Result<(), VisualizeError>)
        requires
            old(self).ready(),
        ensures
            final(self).ready(),
            final(self).hook() == old(self).hook(),
            final(self).sink() == old(self).sink(),
            final(self).log() == old(self).log().push(Exchange::Handed(b)),
            call_ensures(old(self).sink(), (b,), r),
    {
        let emit: &E = &self.emit;
        let ghost given = b;
        let ghost before = *self;
        assert(call_requires(self.sink(), (b,)));
        let reply: Result<(), VisualizeError> = emit(b);
        self.log = Ghost(self.log@.push(Exchange::Handed(given)));
        assert forall|b: B| #[trigger] call_requires(self.sink(), (b,)) by {
            assert(call_requires(before.sink(), (b,)));
        }
        reply
    }
}

/// One more exchange.
pub proof fn lemma_one_more<B, F: Fn() -> bool, E: Fn(B) -> Result<(), VisualizeError>>(
    start: Outlet<B, F, E>,
    before: Outlet<B, F, E>,
    after: Outlet<B, F, E>,
    one: Exchange<B>,
)
    requires
        before.follows(start),
        after.hook() == before.hook(),
        after.sink() == before.sink(),
        after.log() == before.log().push(one),
    ensures
        after.follows(start),
        after.since(start) == before.since(start).push(one),
{
    let n = start.log().len() as int;
    assert(after.log().subrange(0, n) =~= before.log().subrange(0, n));
    assert(after.since(start) =~= before.since(start).push(one));
}

/// Nothing has happened since this moment.
pub proof fn lemma_nothing_since<B, F: Fn() -> bool, E: Fn(B) -> Result<(), VisualizeError>>(
    outlet: Outlet<B, F, E>,
)
    ensures
        outlet.follows(outlet),
        outlet.since(outlet) == Seq::<Exchange<B>>::empty(),
{
    assert(outlet.log().subrange(0, outlet.log().len() as int) =~= outlet.log());
    assert(outlet.since(outlet) =~= Seq::empty());
}

/// What happened since a moment is what happened up to a later one, and then
/// what happened since that.
pub proof fn lemma_since_joins<B, F: Fn() -> bool, E: Fn(B) -> Result<(), VisualizeError>>(
    start: Outlet<B, F, E>,
    middle: Outlet<B, F, E>,
    end: Outlet<B, F, E>,
)
    requires
        middle.follows(start),
        end.follows(middle),
    ensures
        end.follows(start),
        end.since(start) == middle.since(start) + end.since(middle),
{
    let a = start.log().len() as int;
    let b = middle.log().len() as int;
    assert(end.log().subrange(0, a) =~= end.log().subrange(0, b).subrange(0, a));
    assert forall|i: int| a <= i < b implies end.log()[i] == middle.log()[i] by {
        assert(end.log().subrange(0, b)[i] == middle.log()[i]);
    }
    assert(end.since(start) =~= middle.since(start) + end.since(middle));
}

/// What one more question adds.
pub proof fn lemma_asked_once<B>(log: Seq<Exchange<B>>, answer: bool)
    ensures
        handed(log.push(Exchange::Asked(answer))) == handed(log),
        asked(log.push(Exchange::Asked(answer))) == asked(log) + 1,
        log.push(Exchange::<B>::Asked(answer)).drop_last() == log,
        led(log) ==> led(log.push(Exchange::Asked(answer))),
        quiet(log) && !answer ==> quiet(log.push(Exchange::Asked(answer))),
{
    let more = log.push(Exchange::Asked(answer));
    assert(more.drop_last() =~= log);
    if led(log) {
        assert forall|i: int| #[trigger] handed_at(more, i) implies i > 0 && more[i - 1] is Asked by {
            assert(handed_at(log, i));
        }
    }
}

/// What one more thing handed over adds.
pub proof fn lemma_handed_once<B>(log: Seq<Exchange<B>>, b: B)
    ensures
        handed(log.push(Exchange::Handed(b))) == handed(log).push(b),
        asked(log.push(Exchange::Handed(b))) == asked(log),
        log.push(Exchange::<B>::Handed(b)).drop_last() == log,
        quiet(log) ==> quiet(log.push(Exchange::Handed(b))),
        led(log) && log.len() > 0 && log.last() is Asked ==> led(log.push(Exchange::Handed(b))),
{
    let more = log.push(Exchange::Handed(b));
    assert(more.drop_last() =~= log);
    if led(log) && log.len() > 0 && log.last() is Asked {
        assert forall|i: int| #[trigger] handed_at(more, i) implies i > 0 && more[i - 1] is Asked by {
            if i < log.len() {
                assert(handed_at(log, i));
            }
        }
    }
}

/// Questions alone hand nothing over.
pub proof fn lemma_questions<B, E: Fn(B) -> Result<(), VisualizeError>>(
    log: Seq<Exchange<B>>,
    sink: E,
)
    requires
        questions(log),
    ensures
        handed(log) == Seq::<B>::empty(),
        asked(log) == log.len(),
        led(log),
        accepted(log, sink),
        log.len() > 0 ==> questions(log.drop_last()) && accepted(log.drop_last(), sink),
    decreases log.len(),
{
    if log.len() > 0 {
        assert(questions(log.drop_last()));
        lemma_questions(log.drop_last(), sink);
    }
}

/// What two conversations come to, one after the other.
pub proof fn lemma_logs_join<B>(a: Seq<Exchange<B>>, b: Seq<Exchange<B>>)
    ensures
        handed(a + b) == handed(a) + handed(b),
        asked(a + b) == asked(a) + asked(b),
        quiet(a) && quiet(b) ==> quiet(a + b),
        led(a) && led(b) ==> led(a + b),
        b.len() > 0 ==> (a + b).last() == b.last() && (a + b).drop_last() == a + b.drop_last(),
    decreases b.len(),
{
    if b.len() == 0 {
        assert(a + b =~= a);
        assert(handed(a) + handed(b) =~= handed(a));
    } else {
        assert((a + b).drop_last() =~= a + b.drop_last());
        lemma_logs_join(a, b.drop_last());
        match b.last() {
            Exchange::Asked(_) => {},
            Exchange::Handed(x) => {
                assert(handed(a) + handed(b.drop_last()).push(x) =~= (handed(a) + handed(
                    b.drop_last(),
                )).push(x));
            },
        }
    }
    if led(a) && led(b) {
        let both = a + b;
        assert forall|i: int| #[trigger] handed_at(both, i) implies i > 0 && both[i - 1] is Asked by {
            if i < a.len() {
                assert(handed_at(a, i));
            } else {
                assert(handed_at(b, i - a.len()));
            }
        }
    }
}

/// Conversations that nobody disturbed make up one that nobody disturbed, and
/// one that a caller stopped stays stopped behind them.
pub proof fn lemma_endings_join<B, E: Fn(B) -> Result<(), VisualizeError>>(
    a: Seq<Exchange<B>>,
    b: Seq<Exchange<B>>,
    sink: E,
)
    requires
        undisturbed(a, sink),
    ensures
        undisturbed(b, sink) ==> undisturbed(a + b, sink),
        called_off(b, sink) ==> called_off(a + b, sink),
        forall|error: VisualizeError| #[trigger]
            turned_away(b, sink, error) ==> turned_away(a + b, sink, error),
{
    if b.len() > 0 {
        assert((a + b).drop_last() =~= a + b.drop_last());
    }
}

/// Questions alone keep the pace of what was handed over before them.
pub proof fn lemma_pace_kept<B>(
    a: Seq<Exchange<B>>,
    b: Seq<Exchange<B>>,
    pace: spec_fn(nat) -> int,
)
    requires
        paced(a, pace),
        handed(b).len() == 0,
    ensures
        paced(a + b, pace),
    decreases b.len(),
{
    if b.len() == 0 {
        assert(a + b =~= a);
    } else {
        lemma_pace_kept(a, b.drop_last(), pace);
        let front = a + b.drop_last();
        assert((a + b).drop_last() =~= front);
        assert forall|i: int| #[trigger] handed_at(a + b, i) implies asked(
            (a + b).subrange(0, i),
        ) >= pace(handed((a + b).subrange(0, i)).len() + 1) by {
            assert((a + b)[i] is Handed);
            assert(i < front.len());
            assert(handed_at(front, i));
            assert((a + b).subrange(0, i) =~= front.subrange(0, i));
        }
    }
}

/// Questions ahead of a conversation keep its pace.
pub proof fn lemma_pace_ahead<B>(
    a: Seq<Exchange<B>>,
    b: Seq<Exchange<B>>,
    pace: spec_fn(nat) -> int,
)
    requires
        questions(a),
        paced(b, pace),
    ensures
        paced(a + b, pace),
{
    let both = a + b;
    assert forall|i: int| #[trigger] handed_at(both, i) implies asked(
        both.subrange(0, i),
    ) >= pace(handed(both.subrange(0, i)).len() + 1) by {
        if i < a.len() {
            assert(a[i] is Asked);
        }
        let k = i - a.len();
        assert(handed_at(b, k));
        assert(both.subrange(0, i) =~= a + b.subrange(0, k));
        lemma_logs_join(a, b.subrange(0, k));
        lemma_no_handing(a);
        assert(handed(a) + handed(b.subrange(0, k)) =~= handed(b.subrange(0, k)));
    }
}

proof fn lemma_no_handing<B>(log: Seq<Exchange<B>>)
    requires
        questions(log),
    ensures
        handed(log) == Seq::<B>::empty(),
        asked(log) == log.len(),
    decreases log.len(),
{
    if log.len() > 0 {
        assert(questions(log.drop_last()));
        lemma_no_handing(log.drop_last());
    }
}

/// Handing something over keeps the pace where enough was asked before.
pub proof fn lemma_pace_handed<B>(log: Seq<Exchange<B>>, b: B, pace: spec_fn(nat) -> int)
    requires
        paced(log, pace),
        asked(log) >= pace(handed(log).len() + 1),
    ensures
        paced(log.push(Exchange::Handed(b)), pace),
{
    let more = log.push(Exchange::Handed(b));
    assert forall|i: int| #[trigger] handed_at(more, i) implies asked(
        more.subrange(0, i),
    ) >= pace(handed(more.subrange(0, i)).len() + 1) by {
        assert(more.subrange(0, i) =~= log.subrange(0, i));
        if i < log.len() {
            assert(handed_at(log, i));
        } else {
            assert(log.subrange(0, i) =~= log);
        }
    }
}

/// A hook that says yes, wherever it is asked, is the last thing asked: work
/// that was not called off heard no such answer.
pub proof fn a_yes_ends_the_work<B, E: Fn(B) -> Result<(), VisualizeError>>(
    log: Seq<Exchange<B>>,
    sink: E,
    i: int,
)
    requires
        0 <= i < log.len(),
        log[i] == Exchange::<B>::Asked(true),
        called_off(log, sink) || undisturbed(log, sink) || exists|error: VisualizeError|
            turned_away(log, sink, error),
    ensures
        called_off(log, sink),
        i == log.len() - 1,
{
    if i < log.len() - 1 {
        assert(log.drop_last()[i] == log[i]);
    }
}

/// A row of questions begins.
pub(crate) proof fn lemma_listening_starts<
    B,
    F: Fn() -> bool,
    E: Fn(B) -> Result<(), VisualizeError>,
>(outlet: Outlet<B, F, E>)
    requires
        outlet.ready(),
    ensures
        outlet.listening(outlet),
        outlet.heard(outlet) == 0,
{
    lemma_nothing_since(outlet);
}

/// What a row of questions comes to.
pub(crate) proof fn lemma_listened<B, F: Fn() -> bool, E: Fn(B) -> Result<(), VisualizeError>>(
    start: Outlet<B, F, E>,
    now: Outlet<B, F, E>,
)
    ensures
        now.listening(start) ==> now.ready() && now.follows(start) && questions(now.since(start))
            && quiet(now.since(start)),
        now.interrupted(start) ==> now.ready() && now.follows(start) && questions(now.since(start))
            && called_off(now.since(start), start.sink()),
        now.heard(start) == now.since(start).len(),
{
}

/// What went out so far is right: the hook was asked often enough before each,
/// where that is strict also directly before it, and these many things were
/// handed over, each the right one.
pub open spec fn delivered<B>(
    log: Seq<Exchange<B>>,
    strict: bool,
    pace: spec_fn(nat) -> int,
    right: spec_fn(int, B) -> bool,
    sent: int,
) -> bool {
    &&& strict ==> led(log)
    &&& paced(log, pace)
    &&& handed(log).len() == sent
    &&& forall|i: int| 0 <= i < sent ==> right(i, #[trigger] handed(log)[i])
}

/// A stream that is still going on.
#[verifier::opaque]
pub open spec fn sending<B, F: Fn() -> bool, E: Fn(B) -> Result<(), VisualizeError>>(
    start: Outlet<B, F, E>,
    now: Outlet<B, F, E>,
    strict: bool,
    pace: spec_fn(nat) -> int,
    right: spec_fn(int, B) -> bool,
    sent: int,
    questions: int,
) -> bool {
    let log = now.since(start);
    &&& now.ready()
    &&& now.follows(start)
    &&& undisturbed(log, start.sink())
    &&& delivered(log, strict, pace, right, sent)
    &&& asked(log) >= questions
}

pub(crate) proof fn lemma_sending_starts<
    B,
    F: Fn() -> bool,
    E: Fn(B) -> Result<(), VisualizeError>,
>(start: Outlet<B, F, E>, strict: bool, pace: spec_fn(nat) -> int, right: spec_fn(int, B) -> bool)
    requires
        start.ready(),
    ensures
        sending(start, start, strict, pace, right, 0, 0),
{
    reveal(sending);
    lemma_nothing_since(start);
    assert(start.since(start) =~= Seq::empty());
}

/// A stream asks the hook.
pub(crate) proof fn lemma_sending_asks<
    B,
    F: Fn() -> bool,
    E: Fn(B) -> Result<(), VisualizeError>,
>(
    start: Outlet<B, F, E>,
    before: Outlet<B, F, E>,
    now: Outlet<B, F, E>,
    strict: bool,
    pace: spec_fn(nat) -> int,
    right: spec_fn(int, B) -> bool,
    sent: int,
    many: int,
)
    requires
        sending(start, before, strict, pace, right, sent, many),
        now.ready(),
        now.follows(before),
        questions(now.since(before)),
    ensures
        now.follows(start),
        quiet(now.since(before)) ==> sending(
            start,
            now,
            strict,
            pace,
            right,
            sent,
            many + now.since(before).len(),
        ),
        quiet(now.since(before)) && now.since(before).len() > 0 ==> now.since(start).len() > 0
            && now.since(start).last() is Asked,
        called_off(now.since(before), start.sink()) ==> called_off(now.since(start), start.sink())
            && delivered(now.since(start), strict, pace, right, sent),
{
    reveal(sending);
    let a = before.since(start);
    let b = now.since(before);
    lemma_since_joins(start, before, now);
    lemma_questions(b, start.sink());
    lemma_logs_join(a, b);
    lemma_endings_join(a, b, start.sink());
    lemma_pace_kept(a, b, pace);
    assert(handed(a) + handed(b) =~= handed(a));
}

/// A stream hands something over.
pub(crate) proof fn lemma_sending_hands<
    B,
    F: Fn() -> bool,
    E: Fn(B) -> Result<(), VisualizeError>,
>(
    start: Outlet<B, F, E>,
    before: Outlet<B, F, E>,
    now: Outlet<B, F, E>,
    strict: bool,
    pace: spec_fn(nat) -> int,
    right: spec_fn(int, B) -> bool,
    sent: int,
    many: int,
    b: B,
    reply: Result<(), VisualizeError>,
)
    requires
        sending(start, before, strict, pace, right, sent, many),
        sent >= 0,
        many >= pace((sent + 1) as nat),
        strict ==> before.since(start).len() > 0 && before.since(start).last() is Asked,
        right(sent, b),
        now.ready(),
        now.hook() == before.hook(),
        now.sink() == before.sink(),
        now.log() == before.log().push(Exchange::Handed(b)),
        call_ensures(before.sink(), (b,), reply),
    ensures
        now.follows(start),
        delivered(now.since(start), strict, pace, right, sent + 1),
        match reply {
            Ok(_) => sending(start, now, strict, pace, right, sent + 1, many),
            Err(error) => turned_away(now.since(start), start.sink(), error),
        },
{
    reveal(sending);
    let log = before.since(start);
    lemma_one_more(start, before, now, Exchange::Handed(b));
    lemma_handed_once(log, b);
    assert(handed(log).len() + 1 == (sent + 1) as nat);
    lemma_pace_handed(log, b, pace);
    match reply {
        Ok(nothing) => {
            assert(nothing == ());
            assert(reply == Ok::<(), VisualizeError>(()));
        },
        Err(_) => {},
    }
}

pub(crate) proof fn lemma_sending_less<
    B,
    F: Fn() -> bool,
    E: Fn(B) -> Result<(), VisualizeError>,
>(
    start: Outlet<B, F, E>,
    now: Outlet<B, F, E>,
    strict: bool,
    pace: spec_fn(nat) -> int,
    right: spec_fn(int, B) -> bool,
    sent: int,
    many: int,
    fewer: int,
)
    requires
        sending(start, now, strict, pace, right, sent, many),
        fewer <= many,
    ensures
        sending(start, now, strict, pace, right, sent, fewer),
{
    reveal(sending);
}

/// What a stream comes to where nobody stopped it.
pub(crate) proof fn lemma_sending_ends<
    B,
    F: Fn() -> bool,
    E: Fn(B) -> Result<(), VisualizeError>,
>(
    start: Outlet<B, F, E>,
    now: Outlet<B, F, E>,
    strict: bool,
    pace: spec_fn(nat) -> int,
    right: spec_fn(int, B) -> bool,
    sent: int,
    many: int,
)
    requires
        sending(start, now, strict, pace, right, sent, many),
    ensures
        now.ready(),
        now.follows(start),
        undisturbed(now.since(start), start.sink()),
        delivered(now.since(start), strict, pace, right, sent),
        asked(now.since(start)) >= many,
        handed(now.since(start)).len() == sent,
{
    reveal(sending);
}

impl<B, F: Fn() -> bool, E: Fn(B) -> Result<(), VisualizeError>> Outlet<B, F, E> {
    /// Ask the hook in the course of a stream.
    pub(crate) fn ask_within(
        &mut self,
        Ghost(start): Ghost<Self>,
        Ghost(strict): Ghost<bool>,
        Ghost(pace): Ghost<spec_fn(nat) -> int>,
        Ghost(right): Ghost<spec_fn(int, B) -> bool>,
        Ghost(sent): Ghost<int>,
        Ghost(many): Ghost<int>,
    ) -> (r: bool)
        requires
            sending(start, *old(self), strict, pace, right, sent, many),
        ensures
            final(self).ready(),
            final(self).follows(start),
            final(self).since(start).len() > 0 && final(self).since(start).last() is Asked,
            if r {
                called_off(final(self).since(start), start.sink()) && delivered(
                    final(self).since(start),
                    strict,
                    pace,
                    right,
                    sent,
                )
            } else {
                sending(start, *final(self), strict, pace, right, sent, many + 1)
            },
    {
        let ghost before = *self;
        proof {
            lemma_sending_ends(start, before, strict, pace, right, sent, many);
            lemma_listening_starts(before);
        }
        let answer: bool = self.ask(Ghost(before));
        proof {
            lemma_listened(before, *self);
            lemma_sending_asks(start, before, *self, strict, pace, right, sent, many);
            if answer {
                lemma_since_joins(start, before, *self);
            }
        }
        answer
    }

    /// Hand something to the sink in the course of a stream.
    pub(crate) fn hand_within(
        &mut self,
        b: B,
        Ghost(start): Ghost<Self>,
        Ghost(strict): Ghost<bool>,
        Ghost(pace): Ghost<spec_fn(nat) -> int>,
        Ghost(right): Ghost<spec_fn(int, B) -> bool>,
        Ghost(sent): Ghost<int>,
        Ghost(many): Ghost<int>,
    ) -> (r: Result<(), VisualizeError>)
        requires
            sending(start, *old(self), strict, pace, right, sent, many),
            sent >= 0,
            many >= pace((sent + 1) as nat),
            strict ==> old(self).since(start).len() > 0 && old(self).since(start).last() is Asked,
            right(sent, b),
        ensures
            final(self).ready(),
            final(self).follows(start),
            delivered(final(self).since(start), strict, pace, right, sent + 1),
            match r {
                Ok(()) => sending(start, *final(self), strict, pace, right, sent + 1, many),
                Err(error) => turned_away(final(self).since(start), start.sink(), error),
            },
    {
        let ghost before = *self;
        let ghost given = b;
        proof {
            lemma_sending_ends(start, before, strict, pace, right, sent, many);
        }
        let reply: Result<(), VisualizeError> = self.hand(b);
        proof {
            lemma_sending_hands(
                start,
                before,
                *self,
                strict,
                pace,
                right,
                sent,
                many,
                given,
                reply,
            );
        }
        reply
    }
}

/// The right thing at a place is what a list holds there.
pub open spec fn from_list<B>(full: Seq<B>) -> spec_fn(int, B) -> bool {
    |i: int, b: B| 0 <= i < full.len() && b == full[i]
}

/// The first things of a list were handed over, in order.
pub open spec fn told<B>(log: Seq<Exchange<B>>, full: Seq<B>, sent: int) -> bool {
    0 <= sent <= full.len() && handed(log) == full.subrange(0, sent)
}

pub(crate) proof fn lemma_told<B>(
    log: Seq<Exchange<B>>,
    strict: bool,
    pace: spec_fn(nat) -> int,
    full: Seq<B>,
    sent: int,
)
    requires
        delivered(log, strict, pace, from_list(full), sent),
    ensures
        told(log, full, sent),
        sent == full.len() ==> handed(log) == full,
{
    let right = from_list(full);
    if sent > 0 {
        assert(right(sent - 1, handed(log)[sent - 1]));
    }
    assert forall|i: int| 0 <= i < sent implies handed(log)[i] == full[i] by {
        assert(right(i, handed(log)[i]));
    }
    assert(handed(log) =~= full.subrange(0, sent));
    if sent == full.len() {
        assert(full.subrange(0, sent) =~= full);
    }
}

/// A list goes on to be handed over.
pub(crate) proof fn lemma_told_more<B, F: Fn() -> bool, E: Fn(B) -> Result<(), VisualizeError>>(
    start: Outlet<B, F, E>,
    before: Outlet<B, F, E>,
    now: Outlet<B, F, E>,
    full: Seq<B>,
    sent: int,
    more: int,
)
    requires
        before.follows(start),
        undisturbed(before.since(start), start.sink()),
        told(before.since(start), full, sent),
        now.follows(before),
        0 <= more,
        sent + more <= full.len(),
        handed(now.since(before)) == full.subrange(sent, sent + more),
    ensures
        now.follows(start),
        before.since(start).len() > 0 ==> now.since(start).len() > 0 && now.since(start)[0]
            == before.since(start)[0],
        told(now.since(start), full, sent + more),
        asked(now.since(start)) == asked(before.since(start)) + asked(now.since(before)),
        undisturbed(now.since(before), start.sink()) ==> undisturbed(
            now.since(start),
            start.sink(),
        ),
        called_off(now.since(before), start.sink()) ==> called_off(
            now.since(start),
            start.sink(),
        ),
        forall|error: VisualizeError| #[trigger]
            turned_away(now.since(before), start.sink(), error) ==> turned_away(
                now.since(start),
                start.sink(),
                error,
            ),
{
    let a = before.since(start);
    let b = now.since(before);
    lemma_since_joins(start, before, now);
    lemma_logs_join(a, b);
    lemma_endings_join(a, b, start.sink());
    assert(full.subrange(0, sent) + full.subrange(sent, sent + more) =~= full.subrange(
        0,
        sent + more,
    ));
}

/// Work is not called off where the hook never says yes, and not turned away
/// where the sink accepts everything.
pub proof fn a_patient_caller_stops_nothing<
    B,
    F: Fn() -> bool,
    E: Fn(B) -> Result<(), VisualizeError>,
>(start: Outlet<B, F, E>, now: Outlet<B, F, E>, error: VisualizeError)
    requires
        now.ready(),
        now.follows(start),
        stopped_by_caller(now.since(start), start.sink(), error),
    ensures
        call_ensures(start.hook(), (), true) || exists|b: B| #[trigger]
            call_ensures(start.sink(), (b,), Err::<(), VisualizeError>(error)),
{
    let log = now.since(start);
    assert(log.last() == now.log()[now.log().len() - 1]);
}

/// What is right by one measure and by another has gone out by either.
pub(crate) proof fn lemma_delivered_otherwise<B>(
    log: Seq<Exchange<B>>,
    strict: bool,
    pace: spec_fn(nat) -> int,
    right: spec_fn(int, B) -> bool,
    other: spec_fn(int, B) -> bool,
    sent: int,
)
    requires
        delivered(log, strict, pace, right, sent),
        forall|i: int, b: B| 0 <= i < sent && #[trigger] right(i, b) ==> other(i, b),
    ensures
        delivered(log, strict, pace, other, sent),
{
    assert forall|i: int| 0 <= i < sent implies other(i, #[trigger] handed(log)[i]) by {
        assert(right(i, handed(log)[i]));
    }
}

pub(crate) proof fn lemma_sending_otherwise<
    B,
    F: Fn() -> bool,
    E: Fn(B) -> Result<(), VisualizeError>,
>(
    start: Outlet<B, F, E>,
    now: Outlet<B, F, E>,
    strict: bool,
    pace: spec_fn(nat) -> int,
    right: spec_fn(int, B) -> bool,
    other: spec_fn(int, B) -> bool,
    sent: int,
    many: int,
)
    requires
        sending(start, now, strict, pace, right, sent, many),
        forall|i: int, b: B| 0 <= i < sent && #[trigger] right(i, b) ==> other(i, b),
    ensures
        sending(start, now, strict, pace, other, sent, many),
{
    reveal(sending);
    lemma_delivered_otherwise(now.since(start), strict, pace, right, other, sent);
}

/// Where nothing was handed over, there were only questions.
pub(crate) proof fn lemma_nothing_handed<B>(log: Seq<Exchange<B>>)
    requires
        handed(log).len() == 0,
    ensures
        questions(log),
    decreases log.len(),
{
    if log.len() > 0 {
        match log.last() {
            Exchange::Asked(_) => {
                lemma_nothing_handed(log.drop_last());
                assert forall|i: int| 0 <= i < log.len() implies #[trigger] log[i] is Asked by {
                    if i < log.len() - 1 {
                        assert(log.drop_last()[i] is Asked);
                    }
                }
            },
            Exchange::Handed(b) => {},
        }
    }
}

/// Questions ahead of what went out change nothing about it.
pub(crate) proof fn lemma_delivered_ahead<B>(
    a: Seq<Exchange<B>>,
    b: Seq<Exchange<B>>,
    strict: bool,
    pace: spec_fn(nat) -> int,
    right: spec_fn(int, B) -> bool,
    sent: int,
)
    requires
        questions(a),
        delivered(b, strict, pace, right, sent),
    ensures
        delivered(a + b, strict, pace, right, sent),
        handed(a + b) == handed(b),
        asked(a + b) == a.len() + asked(b),
        questions(b) ==> questions(a + b),
{
    lemma_logs_join(a, b);
    lemma_no_handing(a);
    lemma_pace_ahead(a, b, pace);
    assert(handed(a) + handed(b) =~= handed(b));
    assert(led(a));
}

/// A hook that never says yes calls nothing off.
pub(crate) proof fn lemma_never_called_off<
    B,
    F: Fn() -> bool,
    E: Fn(B) -> Result<(), VisualizeError>,
>(start: Outlet<B, F, E>, now: Outlet<B, F, E>)
    requires
        now.ready(),
        now.follows(start),
        forall|answer: bool| #[trigger] call_ensures(start.hook(), (), answer) ==> !answer,
    ensures
        !called_off(now.since(start), start.sink()),
        now.since(start).len() > 0 ==> now.since(start).last() != Exchange::<B>::Asked(true),
{
    let log = now.since(start);
    if log.len() > 0 {
        assert(log.last() == now.log()[now.log().len() - 1]);
    }
}

/// Where the hook is asked first and only ever says yes, that one question is
/// all that happens.
pub proof fn a_constant_yes_is_all_that_is_heard<
    B,
    F: Fn() -> bool,
    E: Fn(B) -> Result<(), VisualizeError>,
>(start: Outlet<B, F, E>, now: Outlet<B, F, E>)
    requires
        now.ready(),
        now.follows(start),
        now.since(start).len() > 0,
        now.since(start)[0] is Asked,
        forall|answer: bool| #[trigger] call_ensures(start.hook(), (), answer) ==> answer,
        called_off(now.since(start), start.sink()) || undisturbed(now.since(start), start.sink())
            || exists|error: VisualizeError| #[trigger]
            turned_away(now.since(start), start.sink(), error),
    ensures
        called_off(now.since(start), start.sink()),
        now.since(start).len() == 1,
        handed(now.since(start)).len() == 0,
        !undisturbed(now.since(start), start.sink()),
        forall|error: VisualizeError| !#[trigger]
            turned_away(now.since(start), start.sink(), error),
{
    let log = now.since(start);
    assert(log[0] == now.log()[start.log().len() as int]);
    assert(log[0] == Exchange::<B>::Asked(true));
    if log.len() > 1 {
        assert(log.drop_last()[0] == log[0]);
    }
    assert(log =~= seq![Exchange::<B>::Asked(true)]);
    assert(log.drop_last() =~= Seq::empty());
    assert(questions(log));
    lemma_questions(log, start.sink());
}

} // verus!
