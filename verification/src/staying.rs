//! What stays on screen, whatever the user does.

use vstd::prelude::*;

use crate::controls::PresetChoice;
use crate::identity::{settings_of, Identity};
use crate::number::{Arithmetic, Real};
use crate::session::{concerns_panels, concerns_settings, Event, Moment, SessionModel};
use crate::work::{Shown, WorkModel};

verus! {

/// The same scene of the same iteration, perhaps with its refinement stopped
/// or begun anew.
pub open spec fn same_scene(before: Shown, after: Shown) -> bool {
    &&& after.scene == before.scene || after.scene == before.scene.stopped() || after.scene
        == before.scene.restarted()
    &&& after.iteration == before.iteration
    &&& after.identity == before.identity
    &&& after.view_epoch == before.view_epoch
    &&& after.elapsed_millis == before.elapsed_millis
    &&& after.backend == before.backend
}

/// What is shown stays shown, and where nothing is shown nothing appears.
pub open spec fn keeps_scene(before: WorkModel, after: WorkModel) -> bool {
    match (before.displayed, after.displayed) {
        (Some(a), Some(b)) => same_scene(a, b),
        (None, None) => true,
        _ => false,
    }
}

proof fn lemma_small_steps_keep(work: WorkModel, now: Real, ev: spec_fn(Arithmetic) -> Real)
    ensures
        keeps_scene(work, work),
        work.paused(now).displayed == work.displayed,
        work.resumed(now, ev).displayed == work.displayed,
        work.discarded().displayed == work.displayed,
        work.export_replaced().0.displayed == work.displayed,
        keeps_scene(work, work.restarted(now).0),
        keeps_scene(work, work.invalidated(now).0),
        keeps_scene(work, work.stopped().0),
        work.set_aside().0.displayed == work.stopped().0.displayed,
        keeps_scene(work, work.obsolete().0),
        keeps_scene(work, work.cancelled().0),
{
    reveal(WorkModel::paused);
    reveal(WorkModel::resumed);
    reveal(WorkModel::discarded);
    reveal(WorkModel::export_replaced);
    reveal(WorkModel::restarted);
    reveal(WorkModel::invalidated);
    reveal(WorkModel::stopped);
    reveal(WorkModel::set_aside);
    reveal(WorkModel::obsolete);
    reveal(WorkModel::cancelled);
}

proof fn lemma_failing_keeps(work: WorkModel, error: Seq<char>)
    ensures
        keeps_scene(work, work.canvas_failed(error).0),
{
    reveal(WorkModel::canvas_failed);
    reveal(WorkModel::stopped);
}

proof fn lemma_rendering_keeps(
    work: WorkModel,
    iterations: usize,
    identity: Identity,
    now: Real,
)
    ensures
        keeps_scene(work, work.exact_begun(iterations, now).0),
        keeps_scene(work, work.next_queued(now).0),
        keeps_scene(work, work.route_begun(iterations, identity, now).0),
{
    reveal(WorkModel::exact_begun);
    reveal(WorkModel::next_queued);
    reveal(WorkModel::route_begun);
    reveal(WorkModel::queued);
    reveal(WorkModel::set_aside);
    reveal(WorkModel::stopped);
    reveal(WorkModel::export_replaced);
    reveal(WorkModel::discarded);
}

/// Whatever is rendered next, what is shown stays.
proof fn lemma_renderings_keep(now: Real)
    ensures
        forall|s: SessionModel| keeps_scene(s.work, (#[trigger] s.exact(now)).0.work),
        forall|s: SessionModel| keeps_scene(s.work, (#[trigger] s.routed(now)).0.work),
        forall|s: SessionModel|
            keeps_scene(s.work, (#[trigger] s.rendered_exactly(now)).next.work),
        forall|s: SessionModel|
            keeps_scene(s.work, (#[trigger] s.rendered_stepwise(now)).next.work),
{
    assert forall|s: SessionModel| keeps_scene(s.work, (#[trigger] s.exact(now)).0.work) by {
        reveal(SessionModel::exact);
        lemma_rendering_keeps(s.work, s.controls.iterations, s.controls.identity(), now);
    }
    assert forall|s: SessionModel| keeps_scene(s.work, (#[trigger] s.routed(now)).0.work) by {
        reveal(SessionModel::routed);
        lemma_rendering_keeps(s.work, s.controls.iterations, s.controls.identity(), now);
        let settled = SessionModel { controls: s.controls.settled(), ..s };
        assert(keeps_scene(settled.work, settled.exact(now).0.work));
    }
    assert forall|s: SessionModel| keeps_scene(
        s.work,
        (#[trigger] s.rendered_exactly(now)).next.work,
    ) by {
        reveal(SessionModel::rendered_exactly);
        assert(keeps_scene(s.work, s.exact(now).0.work));
    }
    assert forall|s: SessionModel| keeps_scene(
        s.work,
        (#[trigger] s.rendered_stepwise(now)).next.work,
    ) by {
        reveal(SessionModel::rendered_stepwise);
        assert(keeps_scene(s.work, s.routed(now).0.work));
    }
}

/// An animation that goes on, or an editor that closes, leaves what is shown.
proof fn lemma_resuming_keeps(now: Real, ev: spec_fn(Arithmetic) -> Real)
    ensures
        forall|s: SessionModel|
            (#[trigger] s.resumed(now, ev)).0.work.displayed == s.work.displayed,
        forall|s: SessionModel|
            (#[trigger] s.editor_closed(now, ev)).0.work.displayed == s.work.displayed,
{
    assert forall|s: SessionModel| (#[trigger] s.resumed(now, ev)).0.work.displayed
        == s.work.displayed by {
        reveal(SessionModel::resumed);
        reveal(SessionModel::frame_requested);
        reveal(WorkModel::resumed);
    }
    assert forall|s: SessionModel| (#[trigger] s.editor_closed(now, ev)).0.work.displayed
        == s.work.displayed by {
        reveal(SessionModel::editor_closed);
    }
}

proof fn lemma_preset_keeps(
    session: SessionModel,
    index: usize,
    choice: Option<PresetChoice>,
    seed: Result<u64, String>,
    now: Real,
)
    ensures
        keeps_scene(
            session.work,
            session.preset_selected(index, choice, seed, now).next.work,
        ),
{
    reveal(SessionModel::preset_selected);
    lemma_renderings_keep(now);
    match choice {
        Some(choice) => {
            reveal(SessionModel::preset_taken);
        },
        None => {},
    }
}

proof fn lemma_settings_keep(session: SessionModel, event: Event, moment: Moment)
    requires
        concerns_settings(event),
    ensures
        keeps_scene(session.work, session.settings_updated(event, moment).next.work),
{
    let now = moment.now;
    reveal(SessionModel::settings_updated);
    match event {
        Event::SourceChanged(source) => {
            reveal(SessionModel::source_changed);
            reveal(WorkModel::obsolete);
            reveal(WorkModel::set_aside);
            reveal(WorkModel::stopped);
            reveal(WorkModel::export_replaced);
            reveal(WorkModel::discarded);
        },
        Event::LineWidthChanged(percent) => {
            reveal(SessionModel::line_width_changed);
            reveal(WorkModel::export_replaced);
            reveal(WorkModel::invalidated);
            reveal(WorkModel::restarted);
        },
        Event::PresetSelected { index, choice, seed } => {
            lemma_preset_keeps(session, index, choice, seed, now);
        },
        _ => {
            lemma_renderings_keep(now);
            reveal(SessionModel::angle_set);
            reveal(SessionModel::iterations_chosen);
            reveal(SessionModel::iterations_typed);
            reveal(SessionModel::seed_typed);
        },
    }
}

proof fn lemma_draft_keeps(session: SessionModel, now: Real, ev: spec_fn(Arithmetic) -> Real)
    ensures
        keeps_scene(session.work, session.draft_applied(now, ev).next.work),
{
    reveal(SessionModel::draft_applied);
    reveal(SessionModel::draft_rendered);
    lemma_renderings_keep(now);
    lemma_resuming_keeps(now, ev);
}

proof fn lemma_panels_keep(
    session: SessionModel,
    event: Event,
    moment: Moment,
    ev: spec_fn(Arithmetic) -> Real,
)
    requires
        concerns_panels(event),
    ensures
        keeps_scene(session.work, session.panels_updated(event, moment, ev).next.work),
{
    let now = moment.now;
    reveal(SessionModel::panels_updated);
    match event {
        Event::ApplyDraft => {
            lemma_draft_keeps(session, now, ev);
        },
        Event::CloseCatalog => {
            reveal(SessionModel::catalog_closed);
            lemma_resuming_keeps(now, ev);
        },
        Event::CloseEditor => {
            lemma_resuming_keeps(now, ev);
        },
        Event::CycleTheme => {
            reveal(SessionModel::theme_cycled);
            reveal(SessionModel::themed);
            lemma_small_steps_keep(session.work, now, ev);
        },
        Event::SystemTheme(_) => {
            reveal(SessionModel::system_theme_changed);
            reveal(SessionModel::themed);
            lemma_small_steps_keep(session.work, now, ev);
        },
        _ => {
            reveal(SessionModel::catalog_opened);
            reveal(SessionModel::editor_opened);
            reveal(SessionModel::reduced_motion_changed);
            reveal(SessionModel::window_resized);
            reveal(SessionModel::canvas_resized);
            reveal(SessionModel::export_begun);
            reveal(SessionModel::export_cancelled);
            reveal(SessionModel::exported);
            lemma_small_steps_keep(session.work, now, ev);
        },
    }
}

proof fn lemma_view_keeps(
    session: SessionModel,
    event: Event,
    moment: Moment,
    ev: spec_fn(Arithmetic) -> Real,
)
    requires
        !(event is Worker),
    ensures
        keeps_scene(session.work, session.view_updated(event, moment, ev).next.work),
{
    let now = moment.now;
    reveal(SessionModel::view_updated);
    reveal(SessionModel::input_cancelled);
    reveal(SessionModel::work_cancelled);
    reveal(SessionModel::pointer_pressed);
    reveal(SessionModel::pointer_moved);
    reveal(SessionModel::pointer_released);
    reveal(SessionModel::touched);
    reveal(SessionModel::wheel_zoomed);
    reveal(SessionModel::wheel_settled);
    reveal(SessionModel::zoomed);
    reveal(SessionModel::view_fitted);
    reveal(SessionModel::canvas_failed);
    reveal(SessionModel::view_settled);
    reveal(SessionModel::resumed);
    reveal(SessionModel::frame_requested);
    reveal(WorkModel::resumed);
    reveal(WorkModel::invalidated);
    reveal(WorkModel::restarted);
    lemma_small_steps_keep(session.work, now, ev);
    match event {
        Event::CanvasFailed(error) => {
            lemma_failing_keeps(session.work, error@);
        },
        _ => {},
    }
}

/// Whatever the user does, the scene that is shown stays shown, with the same
/// iteration: only its refinement may stop or begin anew. Nothing but an
/// answer of the worker, or a frame that completes an animation, puts another
/// scene in its place.
pub proof fn only_the_worker_replaces_the_scene(
    session: SessionModel,
    event: Event,
    moment: Moment,
    ev: spec_fn(Arithmetic) -> Real,
)
    requires
        !(event is Worker),
    ensures
        keeps_scene(session.work, session.updated(event, moment, ev).next.work),
        session.work.displayed matches Some(before) ==> {
            let after = session.updated(event, moment, ev).next.work.displayed;
            &&& after is Some
            &&& same_scene(before, after->Some_0)
        },
{
    if concerns_settings(event) {
        lemma_settings_keep(session, event, moment);
    } else if concerns_panels(event) {
        lemma_panels_keep(session, event, moment, ev);
    } else {
        lemma_view_keeps(session, event, moment, ev);
    }
}

/// Whatever is rendered next, and whatever animation goes on, the turtle stays.
proof fn lemma_renderings_keep_turtle(now: Real, ev: spec_fn(Arithmetic) -> Real)
    ensures
        forall|s: SessionModel|
            (#[trigger] s.exact(now)).0.controls.settings == s.controls.settings,
        forall|s: SessionModel|
            (#[trigger] s.routed(now)).0.controls.settings == s.controls.settings,
        forall|s: SessionModel|
            (#[trigger] s.rendered_exactly(now)).next.controls.settings == s.controls.settings,
        forall|s: SessionModel|
            (#[trigger] s.rendered_stepwise(now)).next.controls.settings == s.controls.settings,
        forall|s: SessionModel|
            (#[trigger] s.resumed(now, ev)).0.controls.settings == s.controls.settings,
        forall|s: SessionModel|
            (#[trigger] s.editor_closed(now, ev)).0.controls.settings == s.controls.settings,
        forall|s: SessionModel|
            (#[trigger] s.view_settled(now, ev)).0.controls.settings == s.controls.settings,
{
    reveal(SessionModel::exact);
    reveal(SessionModel::routed);
    reveal(SessionModel::rendered_exactly);
    reveal(SessionModel::rendered_stepwise);
    reveal(SessionModel::frame_requested);
    reveal(SessionModel::resumed);
    reveal(SessionModel::editor_closed);
    reveal(SessionModel::view_settled);
}

proof fn lemma_settings_keep_turtle(session: SessionModel, event: Event, moment: Moment)
    requires
        concerns_settings(event),
        !(event is PresetSelected),
    ensures
        session.settings_updated(event, moment).next.controls.settings
            == session.controls.settings,
{
    reveal(SessionModel::settings_updated);
    lemma_renderings_keep_turtle(moment.now, |a: Arithmetic| Real { bits: 0 });
    match event {
        Event::SourceChanged(source) => {
            reveal(SessionModel::source_changed);
        },
        Event::LineWidthChanged(percent) => {
            reveal(SessionModel::line_width_changed);
        },
        _ => {
            reveal(SessionModel::angle_set);
            reveal(SessionModel::iterations_chosen);
            reveal(SessionModel::iterations_typed);
            reveal(SessionModel::seed_typed);
        },
    }
}

proof fn lemma_panels_keep_turtle(
    session: SessionModel,
    event: Event,
    moment: Moment,
    ev: spec_fn(Arithmetic) -> Real,
)
    requires
        concerns_panels(event),
    ensures
        session.panels_updated(event, moment, ev).next.controls.settings
            == session.controls.settings,
{
    reveal(SessionModel::panels_updated);
    lemma_renderings_keep_turtle(moment.now, ev);
    match event {
        Event::ApplyDraft => {
            reveal(SessionModel::draft_applied);
            reveal(SessionModel::draft_rendered);
        },
        Event::CycleTheme => {
            reveal(SessionModel::theme_cycled);
            reveal(SessionModel::themed);
        },
        Event::SystemTheme(_) => {
            reveal(SessionModel::system_theme_changed);
            reveal(SessionModel::themed);
        },
        _ => {
            reveal(SessionModel::catalog_opened);
            reveal(SessionModel::catalog_closed);
            reveal(SessionModel::editor_opened);
            reveal(SessionModel::reduced_motion_changed);
            reveal(SessionModel::window_resized);
            reveal(SessionModel::canvas_resized);
            reveal(SessionModel::export_begun);
            reveal(SessionModel::export_cancelled);
            reveal(SessionModel::exported);
        },
    }
}

proof fn lemma_view_keeps_turtle(
    session: SessionModel,
    event: Event,
    moment: Moment,
    ev: spec_fn(Arithmetic) -> Real,
)
    requires
        !(event is Worker),
    ensures
        session.view_updated(event, moment, ev).next.controls.settings
            == session.controls.settings,
{
    reveal(SessionModel::view_updated);
    lemma_renderings_keep_turtle(moment.now, ev);
    reveal(SessionModel::input_cancelled);
    reveal(SessionModel::work_cancelled);
    reveal(SessionModel::pointer_pressed);
    reveal(SessionModel::pointer_moved);
    reveal(SessionModel::pointer_released);
    reveal(SessionModel::touched);
    reveal(SessionModel::wheel_zoomed);
    reveal(SessionModel::wheel_settled);
    reveal(SessionModel::zoomed);
    reveal(SessionModel::view_fitted);
    reveal(SessionModel::canvas_failed);
}

/// The turtle's settings, what it turns by among them, are those of the preset
/// that was chosen last: nothing else that the user does changes them.
pub proof fn only_a_preset_changes_the_turtle(
    session: SessionModel,
    event: Event,
    moment: Moment,
    ev: spec_fn(Arithmetic) -> Real,
)
    requires
        !(event is Worker),
    ensures
        match event {
            Event::PresetSelected { choice: Some(choice), .. } => session.updated(
                event,
                moment,
                ev,
            ).next.controls.settings == settings_of(choice.config),
            _ => session.updated(event, moment, ev).next.controls.settings
                == session.controls.settings,
        },
{
    match event {
        Event::PresetSelected { index, choice, seed } => {
            reveal(SessionModel::settings_updated);
            reveal(SessionModel::preset_selected);
            reveal(SessionModel::preset_taken);
            lemma_renderings_keep_turtle(moment.now, ev);
        },
        _ => {
            if concerns_settings(event) {
                lemma_settings_keep_turtle(session, event, moment);
            } else if concerns_panels(event) {
                lemma_panels_keep_turtle(session, event, moment, ev);
            } else {
                lemma_view_keeps_turtle(session, event, moment, ev);
            }
        },
    }
}

} // verus!
