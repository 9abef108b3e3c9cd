//! What bounds hold.

use vstd::prelude::*;

use crate::arrival::spatial_with_vertex;
use crate::canvas::{bounds_with_vertex, PlanarBounds};
use crate::geometry::{bounds_with_2d, bounds_with_3d, Bounds2d, Bounds3d, Line2d, Line3d, Point3d};
use crate::number::Real;
use crate::spatial::with_finite;
use crate::stream_2d::{bounds_after_2d, Event2d};
use crate::walk::{Emission, Event};

verus! {

/// Limits reach from before a value to behind it.
pub open spec fn reach(low: Real, high: Real, v: Real) -> bool {
    low.at_most(v) && v.at_most(high)
}

/// New limits hold the old ones and two more values, and are among them.
pub open spec fn grown(
    old: Option<(Real, Real)>,
    new: (Real, Real),
    a: Real,
    b: Real,
) -> bool {
    &&& reach(new.0, new.1, a) && reach(new.0, new.1, b)
    &&& match old {
        Some(old) => {
            &&& new.0.at_most(old.0) && old.1.at_most(new.1)
            &&& new.0 == old.0 || new.0 == a || new.0 == b
            &&& new.1 == old.1 || new.1 == a || new.1 == b
        },
        None => {
            &&& new.0 == a || new.0 == b
            &&& new.1 == a || new.1 == b
        },
    }
}

/// Limits are finite and in order.
pub open spec fn in_order(limits: (Real, Real)) -> bool {
    limits.0.finite() && limits.1.finite() && limits.0.at_most(limits.1)
}

/// Bounds of lines grow by both ends of every line, and no further.
pub proof fn line_bounds_grow_by_both_ends(bounds: Option<Bounds2d>, line: Line2d)
    requires
        line.0.0.finite() && line.0.1.finite() && line.1.0.finite() && line.1.1.finite(),
        bounds matches Some(b) ==> in_order((b.min.0, b.max.0)) && in_order((b.min.1, b.max.1)),
    ensures
        bounds_with_2d(bounds, line) matches Some(new) && {
            &&& in_order((new.min.0, new.max.0)) && in_order((new.min.1, new.max.1))
            &&& grown(
                match bounds {
                    Some(b) => Some((b.min.0, b.max.0)),
                    None => None,
                },
                (new.min.0, new.max.0),
                line.0.0,
                line.1.0,
            )
            &&& grown(
                match bounds {
                    Some(b) => Some((b.min.1, b.max.1)),
                    None => None,
                },
                (new.min.1, new.max.1),
                line.0.1,
                line.1.1,
            )
        },
{
}

/// Bounds of lines in space grow by both ends of every line, and no further.
pub proof fn spatial_bounds_grow_by_both_ends(bounds: Option<Bounds3d>, line: Line3d)
    requires
        line.0.0.finite() && line.0.1.finite() && line.0.2.finite(),
        line.1.0.finite() && line.1.1.finite() && line.1.2.finite(),
        bounds matches Some(b) ==> in_order((b.min.0, b.max.0)) && in_order((b.min.1, b.max.1))
            && in_order((b.min.2, b.max.2)),
    ensures
        bounds_with_3d(bounds, line) matches Some(new) && {
            &&& in_order((new.min.0, new.max.0)) && in_order((new.min.1, new.max.1)) && in_order(
                (new.min.2, new.max.2),
            )
            &&& grown(
                match bounds {
                    Some(b) => Some((b.min.0, b.max.0)),
                    None => None,
                },
                (new.min.0, new.max.0),
                line.0.0,
                line.1.0,
            )
            &&& grown(
                match bounds {
                    Some(b) => Some((b.min.1, b.max.1)),
                    None => None,
                },
                (new.min.1, new.max.1),
                line.0.1,
                line.1.1,
            )
            &&& grown(
                match bounds {
                    Some(b) => Some((b.min.2, b.max.2)),
                    None => None,
                },
                (new.min.2, new.max.2),
                line.0.2,
                line.1.2,
            )
        },
{
}

/// Bounds of polygons grow by every vertex, and no further.
pub proof fn polygon_bounds_grow_by_vertices(bounds: Option<PlanarBounds>, vertex: (Real, Real))
    requires
        vertex.0.finite() && vertex.1.finite(),
        bounds matches Some(b) ==> in_order((b.min_x, b.max_x)) && in_order((b.min_y, b.max_y)),
    ensures
        ({
            let new = bounds_with_vertex(bounds, vertex);
            &&& grown(
                match bounds {
                    Some(b) => Some((b.min_x, b.max_x)),
                    None => None,
                },
                (new.min_x, new.max_x),
                vertex.0,
                vertex.0,
            )
            &&& grown(
                match bounds {
                    Some(b) => Some((b.min_y, b.max_y)),
                    None => None,
                },
                (new.min_y, new.max_y),
                vertex.1,
                vertex.1,
            )
        }),
{
}

/// Bounds of points in space grow by every finite point, and no further.
pub proof fn point_bounds_grow_by_points(bounds: Option<Bounds3d>, point: Point3d)
    requires
        point.0.finite() && point.1.finite() && point.2.finite(),
        bounds matches Some(b) ==> in_order((b.min.0, b.max.0)) && in_order((b.min.1, b.max.1))
            && in_order((b.min.2, b.max.2)),
    ensures
        with_finite(bounds, point) == Some(spatial_with_vertex(bounds, point)),
        ({
            let new = spatial_with_vertex(bounds, point);
            &&& grown(
                match bounds {
                    Some(b) => Some((b.min.0, b.max.0)),
                    None => None,
                },
                (new.min.0, new.max.0),
                point.0,
                point.0,
            )
            &&& grown(
                match bounds {
                    Some(b) => Some((b.min.1, b.max.1)),
                    None => None,
                },
                (new.min.1, new.max.1),
                point.1,
                point.1,
            )
            &&& grown(
                match bounds {
                    Some(b) => Some((b.min.2, b.max.2)),
                    None => None,
                },
                (new.min.2, new.max.2),
                point.2,
                point.2,
            )
        }),
{
}

/// The bounds of a stream grow with every line that is drawn and with nothing
/// else.
pub proof fn stream_bounds_follow_lines(
    bounds: Option<Bounds2d>,
    events: Seq<Event2d>,
    event: Event2d,
)
    ensures
        bounds_after_2d(bounds, events.push(event)) == match event {
            Event::Visited { emission: Emission::Line(line), .. } => bounds_with_2d(
                bounds_after_2d(bounds, events),
                line.line,
            ),
            _ => bounds_after_2d(bounds, events),
        },
{
    assert(events.push(event).drop_last() =~= events);
}

} // verus!
