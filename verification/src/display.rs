//! The scene on display: planar or spatial, and how far it is refined.

use vstd::prelude::*;

use crate::canvas::{planar_navigation_enabled, Refinement, RefinementProgress};
use crate::spatial_refinement::SpatialRefinement;

verus! {

/// A scene that has been accepted. The tag stays with the scene, so that
/// another visualizer that is still at work cannot change how it is shown.
pub enum DisplayScene {
    TwoD(Refinement),
    ThreeD(SpatialRefinement),
}

impl DisplayScene {
    pub open spec fn valid(self) -> bool {
        match self {
            DisplayScene::TwoD(scene) => scene.valid(),
            DisplayScene::ThreeD(scene) => scene.valid(),
        }
    }

    pub open spec fn spatial(self) -> bool {
        self is ThreeD
    }

    pub open spec fn elements(self) -> int {
        match self {
            DisplayScene::TwoD(scene) => scene.line_count + scene.polygon_count + scene.text_count,
            DisplayScene::ThreeD(scene) => scene.line_count + scene.polygon_count,
        }
    }

    /// Whether the view of the scene can be changed.
    pub open spec fn navigable(self) -> bool {
        match self {
            DisplayScene::TwoD(scene) => (scene.line_count > 0 || scene.polygon_count > 0)
                && scene.text_count == 0,
            DisplayScene::ThreeD(scene) => scene.line_count > 0 || scene.polygon_count > 0,
        }
    }

    pub open spec fn progress(self) -> RefinementProgress {
        match self {
            DisplayScene::TwoD(scene) => scene.state(),
            DisplayScene::ThreeD(scene) => scene.state(),
        }
    }

    /// Whether the overlay shows anything of the scene.
    pub open spec fn overlaid(self) -> bool {
        match self {
            DisplayScene::TwoD(scene) => scene.target is Some,
            DisplayScene::ThreeD(scene) => scene.pass is Some,
        }
    }

    pub open spec fn stopped(self) -> DisplayScene {
        if self.progress().refining() {
            match self {
                DisplayScene::TwoD(scene) => DisplayScene::TwoD(
                    Refinement { cancelled: true, target: None, ..scene },
                ),
                DisplayScene::ThreeD(scene) => DisplayScene::ThreeD(
                    SpatialRefinement { cancelled: true, pass: None, ..scene },
                ),
            }
        } else {
            self
        }
    }

    pub open spec fn restarted(self) -> DisplayScene {
        match self {
            DisplayScene::TwoD(scene) => DisplayScene::TwoD(scene.begun_again()),
            DisplayScene::ThreeD(scene) => DisplayScene::ThreeD(scene.begun_again()),
        }
    }

    pub fn is_spatial(&self) -> (r: bool)
        ensures
            r == self.spatial(),
    {
        match self {
            DisplayScene::TwoD(_) => false,
            DisplayScene::ThreeD(_) => true,
        }
    }

    pub fn element_count(&self) -> (r: usize)
        requires
            self.valid(),
        ensures
            r == self.elements(),
    {
        match self {
            DisplayScene::TwoD(scene) => scene.element_count(),
            DisplayScene::ThreeD(scene) => scene.element_count(),
        }
    }

    pub fn navigation_enabled(&self) -> (r: bool)
        requires
            self.valid(),
        ensures
            r == self.navigable(),
    {
        match self {
            DisplayScene::TwoD(scene) => planar_navigation_enabled(
                scene.line_count,
                scene.polygon_count,
                scene.text_count,
            ),
            DisplayScene::ThreeD(scene) => scene.navigation_enabled(),
        }
    }

    pub fn refinement_progress(&self) -> (r: RefinementProgress)
        ensures
            r == self.progress(),
    {
        match self {
            DisplayScene::TwoD(scene) => scene.refinement_progress(),
            DisplayScene::ThreeD(scene) => scene.refinement_progress(),
        }
    }

    /// Stop refining. The result says whether the overlay is to be cleared.
    pub fn cancel_refinement(&mut self) -> (r: bool)
        requires
            old(self).valid(),
        ensures
            final(self).valid(),
            *final(self) == old(self).stopped(),
            r == (old(self).progress().refining() && old(self).overlaid()),
    {
        match self {
            DisplayScene::TwoD(scene) => scene.cancel_refinement(),
            DisplayScene::ThreeD(scene) => scene.cancel_refinement(),
        }
    }

    /// Refine anew for another view. The result says whether the overlay is to
    /// be cleared.
    pub fn restart_view_refinement(&mut self) -> (r: bool)
        requires
            old(self).valid(),
        ensures
            final(self).valid(),
            *final(self) == old(self).restarted(),
            r == old(self).overlaid(),
    {
        match self {
            DisplayScene::TwoD(scene) => scene.restart_view_refinement(),
            DisplayScene::ThreeD(scene) => scene.restart_view_refinement(),
        }
    }
}

/// A scene that was stopped stays stopped when its view changes.
pub proof fn stopped_scenes_stay_stopped(scene: DisplayScene)
    requires
        scene.progress().refining(),
    ensures
        !scene.stopped().restarted().progress().refining(),
        scene.stopped().progress().completed == scene.progress().completed,
{
}

} // verus!
