//! What follows when the page has been shown: where the drawing goes on, what
//! is painted, and where the page is looked at.

use vstd::prelude::*;

use crate::number::{answers, calculates, Arithmetic, Real};
use crate::session::{Focus, Motion, Panels, PanelsModel, Session, SessionModel};
use crate::update::Response;
use crate::work::{Effect, Work, WorkModel};

verus! {

/// What is on the canvas.
#[derive(Debug, Clone, Copy, PartialEq, Eq, Structural)]
pub enum Picture {
    /// The drawing is not seen: nothing is painted.
    Unseen,
    /// The transition, on a cleared overlay.
    Transition,
    /// A preview of the scene, on a cleared overlay.
    Scene,
    /// Nothing, on both canvases.
    Blank,
}

impl SessionModel {
    /// What is to be on the canvas.
    pub open spec fn picture(self, measured: bool) -> Picture {
        if !self.panels.visible() || !measured {
            Picture::Unseen
        } else if self.work.animation is Some {
            Picture::Transition
        } else if self.work.displayed is Some {
            Picture::Scene
        } else {
            Picture::Blank
        }
    }

    /// What a drawing that has come into sight, or gone out of it, does.
    #[verifier::opaque]
    pub open spec fn sighted(self, now: Real, ev: spec_fn(Arithmetic) -> Real) -> (
        SessionModel,
        Seq<Effect>,
    ) {
        if self.panels.visible() {
            self.resumed(now, ev)
        } else {
            (
                SessionModel {
                    work: self.work.paused(now),
                    motion: Motion { autorotate_last: None, ..self.motion },
                    panels: PanelsModel { canvas_size: None, ..self.panels },
                    ..self
                },
                Seq::empty(),
            )
        }
    }

    /// The page was shown, with a drawing of this size. The last value says
    /// whether the drawing is to be painted.
    #[verifier::opaque]
    pub open spec fn page_shown(
        self,
        size: Option<(i32, i32)>,
        now: Real,
        ev: spec_fn(Arithmetic) -> Real,
    ) -> (SessionModel, Seq<Effect>, bool) {
        let (first, resumed) = self.sighted(now, ev);
        let resized = first.canvas_resized(size, now);
        let (last, requested) = resized.next.taken_over().frame_requested();
        (last.looked_at(), resumed + resized.effects + requested, resized.next.paints())
    }

    /// The drawing is to be painted.
    pub open spec fn paints(self) -> bool {
        self.work.canvas_dirty && self.panels.visible()
    }

    /// What is to be painted is taken over.
    #[verifier::opaque]
    pub open spec fn taken_over(self) -> SessionModel {
        SessionModel {
            work: WorkModel {
                canvas_dirty: self.work.canvas_dirty && !self.paints(),
                ..self.work
            },
            ..self
        }
    }

    /// Where the page is looked at is settled.
    #[verifier::opaque]
    pub open spec fn looked_at(self) -> SessionModel {
        SessionModel { panels: PanelsModel { focus: None, scroll: None, ..self.panels }, ..self }
    }
}

/// What is to be done with a page that has been shown.
pub struct PagePlan {
    pub effects: Vec<Effect>,
    pub paint: bool,
    pub focus: Option<Focus>,
    pub scroll: Option<Real>,
}

impl Session {
    /// What is to be on the canvas, if it has a size.
    pub fn picture(&self, measured: bool) -> (r: Picture)
        requires
            self.valid(),
        ensures
            r == self@.picture(measured),
    {
        proof {
            reveal(Work::model);
        }
        if !self.panels.canvas_visible() || !measured {
            Picture::Unseen
        } else if self.work.animation.is_some() {
            Picture::Transition
        } else if self.work.displayed.is_some() {
            Picture::Scene
        } else {
            Picture::Blank
        }
    }

    fn sight<C: Fn(Arithmetic) -> Real>(&mut self, now: Real, effects: &mut Vec<Effect>, calc: &C)
        requires
            old(self).valid(),
            calculates(*calc),
        ensures
            final(self).valid(),
            final(self)@ == old(self)@.sighted(now, answers(*calc)).0,
            final(effects)@ == old(effects)@ + old(self)@.sighted(now, answers(*calc)).1,
    {
        proof {
            reveal(SessionModel::sighted);
            reveal(Panels::model);
        }
        let ghost before = effects@;
        if self.panels.canvas_visible() {
            self.resume_animation(now, effects, calc);
        } else {
            self.work.pause_animation(now);
            self.motion.autorotate_last = None;
            self.panels.canvas_size = None;
            assert(effects@ =~= before + Seq::<Effect>::empty());
        }
    }

    fn take_paint(&mut self) -> (r: bool)
        requires
            old(self).valid(),
        ensures
            final(self).valid(),
            final(self)@ == old(self)@.taken_over(),
            r == old(self)@.paints(),
    {
        proof {
            reveal(Work::model);
            reveal(SessionModel::taken_over);
        }
        let paint: bool = self.work.canvas_dirty && self.panels.canvas_visible();
        if paint {
            self.work.canvas_dirty = false;
        }
        paint
    }

    fn look(&mut self)
        requires
            old(self).valid(),
        ensures
            final(self).valid(),
            final(self)@ == old(self)@.looked_at(),
    {
        proof {
            reveal(Panels::model);
            reveal(SessionModel::looked_at);
        }
        self.panels.focus_after_render = None;
        self.panels.scroll_after_render = None;
    }

    /// The page was shown, with a drawing of this size.
    pub fn rendered<C: Fn(Arithmetic) -> Real>(
        &mut self,
        size: Option<(i32, i32)>,
        now: Real,
        calc: &C,
    ) -> (r: PagePlan)
        requires
            old(self).valid(),
            calculates(*calc),
        ensures
            final(self).valid(),
            (final(self)@, r.effects@, r.paint) == old(self)@.page_shown(
                size,
                now,
                answers(*calc),
            ),
            r.focus == old(self)@.panels.focus,
            r.scroll == old(self)@.panels.scroll,
    {
        let ghost start = self@;
        let focus: Option<Focus> = self.panels.focus_after_render;
        let scroll: Option<Real> = self.panels.scroll_after_render;
        assert(focus == start.panels.focus && scroll == start.panels.scroll) by {
            reveal(Panels::model);
        }
        let mut effects: Vec<Effect> = Vec::new();
        self.sight(now, &mut effects, calc);
        let response: Response = self.resize_canvas(size, now);
        let mut resized: Vec<Effect> = response.effects;
        effects.append(&mut resized);
        let paint: bool = self.take_paint();
        self.schedule_frame(&mut effects);
        self.look();
        proof {
            reveal(SessionModel::page_shown);
            assert(effects@ =~= start.page_shown(size, now, answers(*calc)).1);
        }
        PagePlan { effects, paint, focus, scroll }
    }
}

/// A page that has been shown is looked at once: nothing is left to focus or to
/// scroll to, and what was to be painted is taken over.
pub proof fn shown_pages_are_settled(
    model: SessionModel,
    size: Option<(i32, i32)>,
    now: Real,
    ev: spec_fn(Arithmetic) -> Real,
)
    ensures
        ({
            let (next, effects, paints) = model.page_shown(size, now, ev);
            &&& next.panels.focus is None
            &&& next.panels.scroll is None
            &&& next.panels.visible() ==> !next.work.canvas_dirty
        }),
{
    reveal(SessionModel::page_shown);
    reveal(SessionModel::frame_requested);
    reveal(SessionModel::taken_over);
    reveal(SessionModel::looked_at);
}

} // verus!
