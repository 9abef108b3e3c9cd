//! A cancellation hook, with a record of what it answered.

use vstd::prelude::*;

verus! {

/// No answer said that the work is cancelled.
pub open spec fn calm(heard: Seq<bool>) -> bool {
    forall|i: int| 0 <= i < heard.len() ==> !#[trigger] heard[i]
}

/// The last answer said that the work is cancelled, and none before it did.
pub open spec fn stopped(heard: Seq<bool>) -> bool {
    heard.len() > 0 && heard.last() && calm(heard.drop_last())
}

/// A cancellation hook.
///
/// It is asked through this type alone, so what it records are all the
/// answers, in order.
pub struct Hook<F: Fn() -> bool> {
    is_cancelled: F,
    heard: Ghost<Seq<bool>>,
}

impl<F: Fn() -> bool> Hook<F> {
    /// The answers so far, in order.
    pub closed spec fn heard(self) -> Seq<bool> {
        self.heard@
    }

    pub closed spec fn asks(self) -> F {
        self.is_cancelled
    }

    /// The hook can be asked, and every answer on record is one that it gives.
    pub open spec fn ready(self) -> bool {
        &&& call_requires(self.asks(), ())
        &&& forall|i: int|
            0 <= i < self.heard().len() ==> call_ensures(
                self.asks(),
                (),
                #[trigger] self.heard()[i],
            )
    }

    /// The same hook, perhaps after more questions.
    pub open spec fn follows(self, before: Self) -> bool {
        &&& self.asks() == before.asks()
        &&& before.heard().len() <= self.heard().len()
        &&& self.heard().subrange(0, before.heard().len() as int) == before.heard()
    }

    /// The answers since an earlier moment.
    pub open spec fn since(self, before: Self) -> Seq<bool> {
        self.heard().subrange(before.heard().len() as int, self.heard().len() as int)
    }

    /// A hook that has not been asked yet.
    pub fn new(is_cancelled: F) -> (r: Self)
        ensures
            r.asks() == is_cancelled,
            r.heard() == Seq::<bool>::empty(),
    {
        Hook { is_cancelled, heard: Ghost(Seq::empty()) }
    }

    /// Ask once more where no answer since a moment was yes.
    pub(crate) fn ask(&mut self, Ghost(start): Ghost<Self>) -> (r: bool)
        requires
            old(self).ready(),
            old(self).follows(start),
            calm(old(self).since(start)),
        ensures
            final(self).ready(),
            final(self).follows(start),
            final(self).since(start).len() == old(self).since(start).len() + 1,
            if r {
                stopped(final(self).since(start))
            } else {
                calm(final(self).since(start))
            },
    {
        let is_cancelled: &F = &self.is_cancelled;
        let answer: bool = is_cancelled();
        let ghost before = *self;
        self.heard = Ghost(self.heard@.push(answer));
        proof {
            let n = start.heard().len() as int;
            assert(self.heard().subrange(0, n) =~= before.heard().subrange(0, n));
            assert(self.since(start) =~= before.since(start).push(answer));
            assert(self.since(start).drop_last() =~= before.since(start));
            assert forall|i: int| 0 <= i < self.heard().len() implies call_ensures(
                self.asks(),
                (),
                #[trigger] self.heard()[i],
            ) by {
                if i < before.heard().len() {
                    assert(self.heard()[i] == before.heard()[i]);
                }
            }
        }
        answer
    }
}

/// Nothing was asked since this moment.
pub(crate) proof fn lemma_unasked<F: Fn() -> bool>(hook: Hook<F>)
    ensures
        hook.follows(hook),
        hook.since(hook).len() == 0,
        calm(hook.since(hook)),
{
    assert(hook.heard().subrange(0, hook.heard().len() as int) =~= hook.heard());
}

/// Work that goes on only while its hook says no hears no yes but a last one.
pub proof fn a_yes_is_the_last_answer(heard: Seq<bool>, i: int)
    requires
        calm(heard) || stopped(heard),
        0 <= i < heard.len(),
        heard[i],
    ensures
        stopped(heard),
        i == heard.len() - 1,
{
    if i < heard.len() - 1 && stopped(heard) {
        assert(heard.drop_last()[i] == heard[i]);
    }
}

} // verus!
