//! What follows when the work of a frame has been painted, or could not be.

use vstd::prelude::*;
use vstd::string::*;

use crate::number::Real;
use crate::session::{Session, SessionModel};
use crate::work::{maybe_text, Effect};

verus! {

/// How the painting in a frame went. A failure is told in words.
#[derive(Debug)]
pub enum Painted {
    /// Nothing was to be painted.
    Nothing,
    /// A transition; it may be complete.
    Transition { complete: bool, failure: Option<String> },
    /// The target of a transition that is complete.
    Target { failure: Option<String> },
    /// A batch of the exact drawing; the drawing may be complete.
    Batch { complete: bool, failure: Option<String> },
    /// The base without its lines, under a complete exact drawing.
    Base { failure: Option<String> },
}

/// What is to be painted before the frame is over.
#[derive(Debug, Clone, Copy, PartialEq, Eq, Structural)]
pub enum NextPaint {
    Nothing,
    /// The target of a transition; report it as `Target`.
    Target,
    /// The base without its lines; report it as `Base`.
    Base,
}

/// The failure that is told of, if there is one.
pub open spec fn failure_of(painted: Painted) -> Option<Seq<char>> {
    match painted {
        Painted::Nothing => None,
        Painted::Transition { failure, .. } => maybe_text(failure),
        Painted::Target { failure } => maybe_text(failure),
        Painted::Batch { failure, .. } => maybe_text(failure),
        Painted::Base { failure } => maybe_text(failure),
    }
}

/// What comes next in the frame.
pub open spec fn next_paint(painted: Painted) -> NextPaint {
    if failure_of(painted) is Some {
        NextPaint::Nothing
    } else {
        match painted {
            Painted::Transition { complete, .. } => if complete {
                NextPaint::Target
            } else {
                NextPaint::Nothing
            },
            Painted::Batch { complete, .. } => if complete {
                NextPaint::Base
            } else {
                NextPaint::Nothing
            },
            _ => NextPaint::Nothing,
        }
    }
}

/// Whether the page is shown anew.
pub open spec fn painting_refreshes(painted: Painted) -> bool {
    match painted {
        Painted::Nothing => false,
        Painted::Transition { complete, failure } => complete || failure is Some,
        Painted::Target { .. } => true,
        Painted::Batch { complete, failure } => complete || failure is Some,
        Painted::Base { .. } => true,
    }
}

impl SessionModel {
    /// What painting changes, before the next frame is asked for.
    #[verifier::opaque]
    pub open spec fn painting_taken(self, painted: Painted, now: Real) -> (
        SessionModel,
        Seq<Effect>,
    ) {
        match failure_of(painted) {
            Some(failure) => self.canvas_failed(failure),
            None => match painted {
                Painted::Transition { complete: true, .. } => self.animation_completed(now),
                Painted::Target { .. } => {
                    let (work, effects) = self.work.next_queued(now);
                    (SessionModel { work, ..self }, effects)
                },
                _ => (self, Seq::empty()),
            },
        }
    }

    /// What painting leads to. Once nothing is left to paint the next frame is
    /// asked for.
    #[verifier::opaque]
    pub open spec fn painting_done(self, painted: Painted, now: Real) -> (
        SessionModel,
        Seq<Effect>,
    ) {
        let (next, effects) = self.painting_taken(painted, now);
        if next_paint(painted) == NextPaint::Nothing {
            let (last, requested) = next.frame_requested();
            (last, effects + requested)
        } else {
            (next, effects)
        }
    }
}

/// What is to be done after painting.
pub struct PaintPlan {
    pub effects: Vec<Effect>,
    pub next: NextPaint,
    pub refresh: bool,
}

impl Session {
    fn fail_if(&mut self, failure: &Option<String>, effects: &mut Vec<Effect>) -> (r: bool)
        requires
            old(self).valid(),
        ensures
            final(self).valid(),
            r == (*failure is Some),
            match *failure {
                Some(error) => {
                    &&& final(self)@ == old(self)@.canvas_failed(error@).0
                    &&& final(effects)@ == old(effects)@ + old(self)@.canvas_failed(error@).1
                },
                None => *final(self) == *old(self) && *final(effects) == *old(effects),
            },
    {
        match failure {
            Some(error) => {
                self.record_canvas_failure(error.as_str(), effects);
                true
            },
            None => false,
        }
    }

    fn take_painting(&mut self, painted: &Painted, now: Real, effects: &mut Vec<Effect>) -> (r:
        NextPaint)
        requires
            old(self).valid(),
        ensures
            final(self).valid(),
            final(self)@ == old(self)@.painting_taken(*painted, now).0,
            final(effects)@ == old(effects)@ + old(self)@.painting_taken(*painted, now).1,
            r == next_paint(*painted),
    {
        proof {
            reveal(SessionModel::painting_taken);
        }
        let ghost before = effects@;
        assert(before =~= before + Seq::<Effect>::empty());
        match painted {
            Painted::Nothing => NextPaint::Nothing,
            Painted::Transition { complete, failure } => {
                if self.fail_if(failure, effects) {
                    NextPaint::Nothing
                } else if *complete {
                    self.complete_animation(now, effects);
                    NextPaint::Target
                } else {
                    NextPaint::Nothing
                }
            },
            Painted::Target { failure } => {
                if !self.fail_if(failure, effects) {
                    self.promotion_painted(now, effects);
                }
                NextPaint::Nothing
            },
            Painted::Batch { complete, failure } => {
                if self.fail_if(failure, effects) || !*complete {
                    NextPaint::Nothing
                } else {
                    NextPaint::Base
                }
            },
            Painted::Base { failure } => {
                self.fail_if(failure, effects);
                NextPaint::Nothing
            },
        }
    }

    /// Take in how the painting in a frame went.
    pub fn finish_painting(&mut self, painted: Painted, now: Real) -> (r: PaintPlan)
        requires
            old(self).valid(),
        ensures
            final(self).valid(),
            (final(self)@, r.effects@) == old(self)@.painting_done(painted, now),
            r.next == next_paint(painted),
            r.refresh == painting_refreshes(painted),
    {
        proof {
            reveal(SessionModel::painting_done);
        }
        let mut effects: Vec<Effect> = Vec::new();
        assert(effects@ =~= Seq::empty());
        let next: NextPaint = self.take_painting(&painted, now, &mut effects);
        let ghost taken = old(self)@.painting_taken(painted, now);
        assert(effects@ =~= taken.1);
        if next == NextPaint::Nothing {
            self.schedule_frame(&mut effects);
        }
        let refresh: bool = match &painted {
            Painted::Nothing => false,
            Painted::Transition { complete, failure } => *complete || failure.is_some(),
            Painted::Target { .. } => true,
            Painted::Batch { complete, failure } => *complete || failure.is_some(),
            Painted::Base { .. } => true,
        };
        PaintPlan { effects, next, refresh }
    }
}

/// A canvas that fails ends the frame: nothing more is painted, the failure is
/// told, and no route goes on.
pub proof fn failed_painting_ends_the_route(model: SessionModel, painted: Painted, now: Real)
    requires
        failure_of(painted) is Some,
    ensures
        next_paint(painted) == NextPaint::Nothing,
        painting_refreshes(painted),
        ({
            let next = model.painting_taken(painted, now).0;
            &&& next.work.route is None
            &&& next.work.animation is None
            &&& next.work.failure == Some(
                "Canvas display failed: "@ + failure_of(painted)->Some_0,
            )
            &&& !next.work.canvas_dirty
        }),
{
    reveal(SessionModel::painting_taken);
    reveal(SessionModel::canvas_failed);
    reveal(crate::work::WorkModel::canvas_failed);
}

} // verus!
