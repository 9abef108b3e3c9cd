//! Scenes as they arrive from the worker: every part is checked before a scene
//! is shown.

use vstd::prelude::*;

use crate::canvas::{
    bad_metadata, bounds_including_polygons, bounds_valid, bounds_valid_3d, bounds_with_polygons,
    polygons_finite, transfer_fault, transfer_valid, validate_bounds, validate_bounds_3d,
    validate_chunks, validate_line_length, validate_transition, validate_width_reference,
    CanvasError, CanvasFault, PlanarBounds, Refinement,
};
use crate::display::DisplayScene;
use crate::geometry::{Bounds3d, Point3d};
use crate::number::{answers, calculate, calculates, Arithmetic, Real, ONE_BITS};
use crate::single::Single;
use crate::spatial_refinement::SpatialRefinement;
use crate::stroke::usable;

verus! {

/// The bounds with one more vertex inside.
pub open spec fn spatial_with_vertex(bounds: Option<Bounds3d>, vertex: Point3d) -> Bounds3d {
    match bounds {
        Some(bounds) => Bounds3d {
            min: (
                bounds.min.0.lower(vertex.0),
                bounds.min.1.lower(vertex.1),
                bounds.min.2.lower(vertex.2),
            ),
            max: (
                bounds.max.0.upper(vertex.0),
                bounds.max.1.upper(vertex.1),
                bounds.max.2.upper(vertex.2),
            ),
        },
        None => Bounds3d { min: vertex, max: vertex },
    }
}

pub open spec fn spatial_with_vertices(bounds: Option<Bounds3d>, vertices: Seq<Point3d>) -> Option<
    Bounds3d,
>
    decreases vertices.len(),
{
    if vertices.len() == 0 {
        bounds
    } else {
        Some(
            spatial_with_vertex(
                spatial_with_vertices(bounds, vertices.drop_last()),
                vertices.last(),
            ),
        )
    }
}

/// The bounds with some more polygons inside.
pub open spec fn spatial_with_polygons(
    bounds: Option<Bounds3d>,
    polygons: Seq<Vec<Point3d>>,
) -> Option<Bounds3d>
    decreases polygons.len(),
{
    if polygons.len() == 0 {
        bounds
    } else {
        spatial_with_vertices(
            spatial_with_polygons(bounds, polygons.drop_last()),
            polygons.last()@,
        )
    }
}

pub open spec fn vertex_finite(vertex: Point3d) -> bool {
    vertex.0.finite() && vertex.1.finite() && vertex.2.finite()
}

pub open spec fn spatial_vertices_finite(vertices: Seq<Point3d>) -> bool {
    forall|i: int| 0 <= i < vertices.len() ==> vertex_finite(#[trigger] vertices[i])
}

pub open spec fn spatial_polygons_finite(polygons: Seq<Vec<Point3d>>) -> bool {
    forall|i: int| 0 <= i < polygons.len() ==> spatial_vertices_finite((#[trigger] polygons[i])@)
}

/// Fold polygon vertices into the bounds of the lines.
pub fn bounds_3d_including_polygons(
    bounds: Option<Bounds3d>,
    polygons: &Vec<Vec<Point3d>>,
) -> (r: Result<Option<Bounds3d>, CanvasError>)
    ensures
        match r {
            Ok(all) => spatial_polygons_finite(polygons@) && all == spatial_with_polygons(
                bounds,
                polygons@,
            ),
            Err(error) => !spatial_polygons_finite(polygons@) && error@
                == CanvasFault::InvalidMetadata(
                "browser worker returned a spatial polygon with a non-finite vertex"@,
            ),
        },
{
    let mut all: Option<Bounds3d> = bounds;
    let mut i: usize = 0;
    assert(polygons@.subrange(0, 0) =~= Seq::empty());
    while i < polygons.len()
        invariant
            i <= polygons@.len(),
            all == spatial_with_polygons(bounds, polygons@.subrange(0, i as int)),
            forall|k: int| 0 <= k < i ==> spatial_vertices_finite((#[trigger] polygons@[k])@),
        decreases polygons@.len() - i,
    {
        let vertices: &Vec<Point3d> = &polygons[i];
        let ghost before = all;
        let mut k: usize = 0;
        assert(vertices@.subrange(0, 0) =~= Seq::empty());
        while k < vertices.len()
            invariant
                i < polygons@.len(),
                vertices == polygons@[i as int],
                k <= vertices@.len(),
                all == spatial_with_vertices(before, vertices@.subrange(0, k as int)),
                forall|m: int| 0 <= m < k ==> vertex_finite(#[trigger] vertices@[m]),
            decreases vertices@.len() - k,
        {
            let (x, y, z): Point3d = vertices[k];
            if !x.is_finite() || !y.is_finite() || !z.is_finite() {
                assert(!spatial_vertices_finite(vertices@)) by {
                    assert(!vertex_finite(vertices@[k as int]));
                }
                assert(!spatial_polygons_finite(polygons@)) by {
                    assert(!spatial_vertices_finite(polygons@[i as int]@));
                }
                return Err(
                    bad_metadata(
                        "browser worker returned a spatial polygon with a non-finite vertex",
                    ),
                );
            }
            assert(vertices@.subrange(0, k + 1).drop_last() =~= vertices@.subrange(0, k as int));
            all = Some(
                match all {
                    Some(known) => Bounds3d {
                        min: (known.min.0.min(x), known.min.1.min(y), known.min.2.min(z)),
                        max: (known.max.0.max(x), known.max.1.max(y), known.max.2.max(z)),
                    },
                    None => Bounds3d { min: (x, y, z), max: (x, y, z) },
                },
            );
            k = k + 1;
        }
        assert(vertices@.subrange(0, k as int) =~= vertices@);
        assert(polygons@.subrange(0, i + 1).drop_last() =~= polygons@.subrange(0, i as int));
        i = i + 1;
    }
    assert(polygons@.subrange(0, i as int) =~= polygons@);
    Ok(all)
}

/// The chunks of lines that came with a scene: how many values each holds, if
/// it is one, and how they are to be read.
#[derive(Debug)]
pub struct Transfer {
    pub lengths: Vec<Option<usize>>,
    pub lines_per_chunk: usize,
    pub values_per_line: usize,
}

/// The shapes of a scene apart from its lines.
#[derive(Debug)]
pub enum ArrivedShapes {
    TwoD {
        polygons: Vec<Vec<(Real, Real)>>,
        text_count: usize,
        bounds: Option<[Single; 4]>,
    },
    ThreeD { surfaces: Vec<Vec<Point3d>>, limits: Option<[Single; 6]> },
}

/// What the worker says about a scene.
#[derive(Debug)]
pub struct ArrivedScene {
    pub line_count: usize,
    pub total_line_length: Option<Real>,
    pub width_reference: Option<Real>,
    pub shapes: ArrivedShapes,
    pub has_transition: bool,
}

/// Planar bounds as they are worked with.
pub open spec fn planar_bounds(bounds: Option<[Single; 4]>, ev: spec_fn(Arithmetic) -> Real) -> Option<
    PlanarBounds,
> {
    match bounds {
        None => None,
        Some(bounds) => Some(
            PlanarBounds {
                min_x: ev(Arithmetic::Widened(bounds[0].bits)),
                max_x: ev(Arithmetic::Widened(bounds[1].bits)),
                min_y: ev(Arithmetic::Widened(bounds[2].bits)),
                max_y: ev(Arithmetic::Widened(bounds[3].bits)),
            },
        ),
    }
}

/// Spatial bounds as they are worked with.
pub open spec fn spatial_bounds(bounds: Option<[Single; 6]>, ev: spec_fn(Arithmetic) -> Real) -> Option<
    Bounds3d,
> {
    match bounds {
        None => None,
        Some(bounds) => Some(
            Bounds3d {
                min: (
                    ev(Arithmetic::Widened(bounds[0].bits)),
                    ev(Arithmetic::Widened(bounds[2].bits)),
                    ev(Arithmetic::Widened(bounds[4].bits)),
                ),
                max: (
                    ev(Arithmetic::Widened(bounds[1].bits)),
                    ev(Arithmetic::Widened(bounds[3].bits)),
                    ev(Arithmetic::Widened(bounds[5].bits)),
                ),
            },
        ),
    }
}

/// The first thing that is wrong with a planar scene, its lines apart.
pub open spec fn planar_defect(arrived: ArrivedScene) -> Option<Seq<char>> {
    match arrived.shapes {
        ArrivedShapes::ThreeD { .. } => Some(
            "three-dimensional Worker geometry was sent to the planar renderer"@,
        ),
        ArrivedShapes::TwoD { polygons, text_count, bounds } => if arrived.line_count
            + polygons@.len() + text_count > usize::MAX {
            Some("browser scene contains too many elements"@)
        } else if bounds is Some && !bounds_valid(bounds->Some_0) {
            Some("browser worker returned invalid "@ + "target"@ + " bounds"@)
        } else if !polygons_finite(polygons@) {
            Some("browser worker returned a polygon with a non-finite vertex"@)
        } else if arrived.total_line_length is Some && !usable(
            arrived.total_line_length->Some_0,
        ) {
            Some("browser worker returned an invalid "@ + "target"@ + " line-length summary"@)
        } else {
            None
        },
    }
}

/// The first thing that is wrong with a spatial scene, its lines apart.
pub open spec fn spatial_defect(arrived: ArrivedScene) -> Option<Seq<char>> {
    match arrived.shapes {
        ArrivedShapes::TwoD { .. } => Some(
            "planar Worker geometry was sent to the three-dimensional renderer"@,
        ),
        ArrivedShapes::ThreeD { surfaces: polygons, limits: bounds } => if arrived.has_transition {
            Some("three-dimensional Worker geometry cannot contain transition data"@)
        } else if arrived.line_count + polygons@.len() > usize::MAX {
            Some("browser spatial scene contains too many elements"@)
        } else if bounds is Some && !bounds_valid_3d(bounds->Some_0) {
            Some("browser worker returned invalid "@ + "target"@ + " spatial bounds"@)
        } else if !spatial_polygons_finite(polygons@) {
            Some("browser worker returned a spatial polygon with a non-finite vertex"@)
        } else if arrived.total_line_length is Some && !usable(
            arrived.total_line_length->Some_0,
        ) {
            Some("browser worker returned an invalid "@ + "target"@ + " line-length summary"@)
        } else if !(arrived.width_reference is Some && arrived.width_reference->Some_0.finite()
            && (Real { bits: ONE_BITS }).at_most(arrived.width_reference->Some_0)) {
            Some("browser Worker produced an invalid 3D width reference"@)
        } else {
            None
        },
    }
}

/// A scene that was refused: for the first thing that is wrong, or for its
/// lines.
pub open spec fn scene_refused(
    defect: Option<Seq<char>>,
    line_count: usize,
    transfer: Transfer,
    kind: Seq<char>,
    error: CanvasFault,
) -> bool {
    match defect {
        Some(message) => error == CanvasFault::InvalidMetadata(message),
        None => transfer_fault(
            transfer.lengths@,
            line_count,
            transfer.lines_per_chunk,
            transfer.values_per_line,
            kind,
            error,
        ),
    }
}

/// A planar scene that can be shown. Without bounds there is nothing to fit.
#[derive(Debug)]
pub struct PlanarScene {
    pub state: Refinement,
    pub bounds: Option<PlanarBounds>,
}

impl PlanarScene {
    /// Validates Worker metadata and every transferred chunk boundary.
    pub fn from_worker<C: Fn(Arithmetic) -> Real>(
        arrived: &ArrivedScene,
        transfer: &Transfer,
        calc: &C,
    ) -> (r: Result<PlanarScene, CanvasError>)
        requires
            calculates(*calc),
            transfer.lines_per_chunk > 0,
        ensures
            match r {
                Ok(scene) => {
                    &&& planar_defect(*arrived) is None
                    &&& transfer_valid(
                        transfer.lengths@,
                        arrived.line_count as int,
                        transfer.lines_per_chunk as int,
                        transfer.values_per_line as int,
                    )
                    &&& scene.state.valid()
                    &&& scene.state.line_count == arrived.line_count
                    &&& scene.state.polygon_count == arrived.shapes->polygons@.len()
                    &&& scene.state.text_count == arrived.shapes->text_count
                    &&& scene.state.refined == (if scene.state.overlay() {
                        0
                    } else {
                        arrived.line_count
                    })
                    &&& !scene.state.cancelled
                    &&& scene.state.target is None
                    &&& scene.bounds == bounds_with_polygons(
                        planar_bounds(arrived.shapes->bounds, answers(*calc)),
                        arrived.shapes->polygons@,
                    )
                },
                Err(error) => scene_refused(
                    planar_defect(*arrived),
                    arrived.line_count,
                    *transfer,
                    "line"@,
                    error@,
                ),
            },
    {
        match &arrived.shapes {
            ArrivedShapes::ThreeD { .. } => Err(
                bad_metadata("three-dimensional Worker geometry was sent to the planar renderer"),
            ),
            ArrivedShapes::TwoD { polygons, text_count, bounds } => {
                let state: Refinement = match Refinement::for_scene(
                    arrived.line_count,
                    polygons.len(),
                    *text_count,
                ) {
                    Ok(state) => state,
                    Err(error) => {
                        return Err(error);
                    },
                };
                let line_bounds: Option<PlanarBounds> = match validate_bounds(
                    *bounds,
                    "target",
                    calc,
                ) {
                    Ok(bounds) => bounds,
                    Err(error) => {
                        return Err(error);
                    },
                };
                let all: Option<PlanarBounds> = match bounds_including_polygons(
                    line_bounds,
                    polygons,
                ) {
                    Ok(all) => all,
                    Err(error) => {
                        return Err(error);
                    },
                };
                match validate_line_length(arrived.total_line_length, "target") {
                    Ok(()) => {},
                    Err(error) => {
                        return Err(error);
                    },
                }
                match validate_chunks(
                    &transfer.lengths,
                    arrived.line_count,
                    transfer.lines_per_chunk,
                    transfer.values_per_line,
                    "line",
                ) {
                    Ok(()) => {},
                    Err(error) => {
                        return Err(error);
                    },
                }
                Ok(PlanarScene { state, bounds: all })
            },
        }
    }
}

/// A spatial scene that can be shown.
pub struct SpatialArrival {
    pub state: SpatialRefinement,
    pub bounds: Option<Bounds3d>,
    pub width_reference: Real,
}

fn widen_bounds<C: Fn(Arithmetic) -> Real>(bounds: Option<[Single; 6]>, calc: &C) -> (r: Option<
    Bounds3d,
>)
    requires
        calculates(*calc),
    ensures
        r == spatial_bounds(bounds, answers(*calc)),
{
    match bounds {
        None => None,
        Some(bounds) => Some(
            Bounds3d {
                min: (
                    calculate(calc, Arithmetic::Widened(bounds[0].bits)),
                    calculate(calc, Arithmetic::Widened(bounds[2].bits)),
                    calculate(calc, Arithmetic::Widened(bounds[4].bits)),
                ),
                max: (
                    calculate(calc, Arithmetic::Widened(bounds[1].bits)),
                    calculate(calc, Arithmetic::Widened(bounds[3].bits)),
                    calculate(calc, Arithmetic::Widened(bounds[5].bits)),
                ),
            },
        ),
    }
}

impl SpatialArrival {
    /// Validates Worker metadata and every transferred chunk boundary.
    pub fn from_worker<C: Fn(Arithmetic) -> Real>(
        arrived: &ArrivedScene,
        transfer: &Transfer,
        calc: &C,
    ) -> (r: Result<SpatialArrival, CanvasError>)
        requires
            calculates(*calc),
            transfer.lines_per_chunk > 0,
        ensures
            match r {
                Ok(scene) => {
                    &&& spatial_defect(*arrived) is None
                    &&& transfer_valid(
                        transfer.lengths@,
                        arrived.line_count as int,
                        transfer.lines_per_chunk as int,
                        transfer.values_per_line as int,
                    )
                    &&& scene.state.valid()
                    &&& scene.state.line_count == arrived.line_count
                    &&& scene.state.polygon_count == arrived.shapes->surfaces@.len()
                    &&& scene.state.refined == (if scene.state.overlay() {
                        0
                    } else {
                        arrived.line_count
                    })
                    &&& !scene.state.cancelled
                    &&& scene.state.pass is None
                    &&& arrived.width_reference == Some(scene.width_reference)
                    &&& scene.bounds == spatial_with_polygons(
                        spatial_bounds(arrived.shapes->limits, answers(*calc)),
                        arrived.shapes->surfaces@,
                    )
                },
                Err(error) => scene_refused(
                    spatial_defect(*arrived),
                    arrived.line_count,
                    *transfer,
                    "three-dimensional line"@,
                    error@,
                ),
            },
    {
        match &arrived.shapes {
            ArrivedShapes::TwoD { .. } => Err(
                bad_metadata("planar Worker geometry was sent to the three-dimensional renderer"),
            ),
            ArrivedShapes::ThreeD { surfaces: polygons, limits: bounds } => {
                if arrived.has_transition {
                    return Err(
                        bad_metadata(
                            "three-dimensional Worker geometry cannot contain transition data",
                        ),
                    );
                }
                let state: SpatialRefinement = match SpatialRefinement::for_scene(
                    arrived.line_count,
                    polygons.len(),
                ) {
                    Ok(state) => state,
                    Err(error) => {
                        return Err(error);
                    },
                };
                match validate_bounds_3d(*bounds, "target") {
                    Ok(()) => {},
                    Err(error) => {
                        return Err(error);
                    },
                }
                let line_bounds: Option<Bounds3d> = widen_bounds(*bounds, calc);
                let all: Option<Bounds3d> = match bounds_3d_including_polygons(
                    line_bounds,
                    polygons,
                ) {
                    Ok(all) => all,
                    Err(error) => {
                        return Err(error);
                    },
                };
                match validate_line_length(arrived.total_line_length, "target") {
                    Ok(()) => {},
                    Err(error) => {
                        return Err(error);
                    },
                }
                let width_reference: Real = match validate_width_reference(
                    arrived.width_reference,
                ) {
                    Ok(reference) => reference,
                    Err(error) => {
                        return Err(error);
                    },
                };
                match validate_chunks(
                    &transfer.lengths,
                    arrived.line_count,
                    transfer.lines_per_chunk,
                    transfer.values_per_line,
                    "three-dimensional line",
                ) {
                    Ok(()) => {},
                    Err(error) => {
                        return Err(error);
                    },
                }
                Ok(SpatialArrival { state, bounds: all, width_reference })
            },
        }
    }
}

/// Where a scene that was accepted reaches.
#[derive(Debug, Clone, Copy, PartialEq, Eq)]
pub enum SceneBounds {
    TwoD(Option<PlanarBounds>),
    ThreeD(Option<Bounds3d>, Real),
}

/// Accept a scene, planar or spatial as the worker says it is.
pub fn accept_scene<C: Fn(Arithmetic) -> Real>(
    arrived: &ArrivedScene,
    transfer: &Transfer,
    calc: &C,
) -> (r: Result<(DisplayScene, SceneBounds), CanvasError>)
    requires
        calculates(*calc),
        transfer.lines_per_chunk > 0,
    ensures
        match r {
            Ok((scene, bounds)) => {
                &&& scene.valid()
                &&& scene.spatial() == (arrived.shapes is ThreeD)
                &&& transfer_valid(
                    transfer.lengths@,
                    arrived.line_count as int,
                    transfer.lines_per_chunk as int,
                    transfer.values_per_line as int,
                )
                &&& !scene.overlaid() && !scene.progress().cancelled
                &&& scene.progress().total == arrived.line_count
                &&& scene.progress().completed == (if scene.progress().uses_exact_overlay {
                    0
                } else {
                    arrived.line_count
                })
                &&& match arrived.shapes {
                    ArrivedShapes::TwoD { polygons, text_count, bounds: given } => {
                        &&& planar_defect(*arrived) is None
                        &&& scene.elements() == arrived.line_count + polygons@.len() + text_count
                        &&& bounds == SceneBounds::TwoD(
                            bounds_with_polygons(
                                planar_bounds(given, answers(*calc)),
                                polygons@,
                            ),
                        )
                    },
                    ArrivedShapes::ThreeD { surfaces: polygons, limits: given } => {
                        &&& spatial_defect(*arrived) is None
                        &&& scene.elements() == arrived.line_count + polygons@.len()
                        &&& bounds == SceneBounds::ThreeD(
                            spatial_with_polygons(
                                spatial_bounds(given, answers(*calc)),
                                polygons@,
                            ),
                            arrived.width_reference->Some_0,
                        )
                    },
                }
            },
            Err(error) => if arrived.shapes is ThreeD {
                scene_refused(
                    spatial_defect(*arrived),
                    arrived.line_count,
                    *transfer,
                    "three-dimensional line"@,
                    error@,
                )
            } else {
                scene_refused(
                    planar_defect(*arrived),
                    arrived.line_count,
                    *transfer,
                    "line"@,
                    error@,
                )
            },
        },
{
    match &arrived.shapes {
        ArrivedShapes::ThreeD { .. } => match SpatialArrival::from_worker(arrived, transfer, calc) {
            Ok(scene) => Ok(
                (
                    DisplayScene::ThreeD(scene.state),
                    SceneBounds::ThreeD(scene.bounds, scene.width_reference),
                ),
            ),
            Err(error) => Err(error),
        },
        ArrivedShapes::TwoD { .. } => match PlanarScene::from_worker(arrived, transfer, calc) {
            Ok(scene) => Ok((DisplayScene::TwoD(scene.state), SceneBounds::TwoD(scene.bounds))),
            Err(error) => Err(error),
        },
    }
}

/// What the worker says about a transition.
#[derive(Debug)]
pub struct ArrivedTransition {
    pub from_iteration: usize,
    pub to_iteration: usize,
    pub source_total_line_length: Option<Real>,
    pub source_bounds: Option<[Single; 4]>,
    pub morph_count: usize,
}

/// The first thing that is wrong with a transition, its lines apart.
pub open spec fn transition_defect(arrived: ArrivedTransition) -> Option<Seq<char>> {
    if arrived.from_iteration != arrived.to_iteration + 1 && arrived.to_iteration
        != arrived.from_iteration + 1 {
        Some("browser transition iterations are not adjacent"@)
    } else if arrived.source_total_line_length is Some && !usable(
        arrived.source_total_line_length->Some_0,
    ) {
        Some(
            "browser worker returned an invalid "@ + "transition source"@
                + " line-length summary"@,
        )
    } else if arrived.source_bounds is Some && !bounds_valid(arrived.source_bounds->Some_0) {
        Some("browser worker returned invalid "@ + "transition source"@ + " bounds"@)
    } else {
        None
    }
}

/// Accept a transition, with the bounds of where it starts from.
pub fn accept_transition<C: Fn(Arithmetic) -> Real>(
    arrived: &ArrivedTransition,
    transfer: &Transfer,
    calc: &C,
) -> (r: Result<Option<PlanarBounds>, CanvasError>)
    requires
        calculates(*calc),
        transfer.lines_per_chunk > 0,
    ensures
        match r {
            Ok(bounds) => {
                &&& transition_defect(*arrived) is None
                &&& transfer_valid(
                    transfer.lengths@,
                    arrived.morph_count as int,
                    transfer.lines_per_chunk as int,
                    transfer.values_per_line as int,
                )
                &&& bounds == planar_bounds(arrived.source_bounds, answers(*calc))
            },
            Err(error) => scene_refused(
                transition_defect(*arrived),
                arrived.morph_count,
                *transfer,
                "morph"@,
                error@,
            ),
        },
{
    match validate_transition(arrived.from_iteration, arrived.to_iteration) {
        Ok(()) => {},
        Err(error) => {
            return Err(error);
        },
    }
    match validate_line_length(arrived.source_total_line_length, "transition source") {
        Ok(()) => {},
        Err(error) => {
            return Err(error);
        },
    }
    let bounds: Option<PlanarBounds> = match validate_bounds(
        arrived.source_bounds,
        "transition source",
        calc,
    ) {
        Ok(bounds) => bounds,
        Err(error) => {
            return Err(error);
        },
    };
    match validate_chunks(
        &transfer.lengths,
        arrived.morph_count,
        transfer.lines_per_chunk,
        transfer.values_per_line,
        "morph",
    ) {
        Ok(()) => Ok(bounds),
        Err(error) => Err(error),
    }
}

} // verus!
