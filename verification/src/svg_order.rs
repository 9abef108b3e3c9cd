//! The primitives of a spatial export, listed a bounded amount at a time
//! before they are sorted.

use vstd::prelude::*;

use crate::canvas::{CanvasError, CanvasFault, SVG_LINES_PER_BATCH};
use crate::depth::{
    include_spatial_centroid_point, mean_of, offsets_ascend, offsets_up_to,
    spatial_line_source_position, spatial_polygon_source_position, spatial_primitive_count,
    up_to_limit, DepthPrimitive, SpatialPrimitive,
};
use crate::geometry::Point3d;
use crate::hook::{calm, lemma_unasked, stopped, Hook};
use crate::number::{answers, calculates, Arithmetic, Real};
use crate::oracle::{ask, consistent, function_of};
use crate::stream_2d::reserve_exact;

verus! {

/// The depth of a polygon: that of its centroid, or zero without one.
pub open spec fn polygon_depth(
    vertices: Seq<Point3d>,
    depths: spec_fn(Point3d) -> Real,
    ev: spec_fn(Arithmetic) -> Real,
) -> Real {
    match mean_of(vertices, ev) {
        Some(centroid) => depths(centroid),
        None => Real { bits: 0 },
    }
}

/// What an export lists at a place: every line, then every polygon.
pub open spec fn listed_primitive(
    at: int,
    line_count: int,
    offsets: Seq<usize>,
    polygons: Seq<Vec<Point3d>>,
    lines: spec_fn(usize) -> Real,
    depths: spec_fn(Point3d) -> Real,
    ev: spec_fn(Arithmetic) -> Real,
) -> DepthPrimitive {
    if at < line_count {
        DepthPrimitive {
            depth: lines(at as usize),
            primitive: SpatialPrimitive::Line(at as usize),
            source_order: up_to_limit(at + offsets_up_to(offsets, at)) as usize,
        }
    } else {
        let index = at - line_count;
        DepthPrimitive {
            depth: polygon_depth(polygons[index]@, depths, ev),
            primitive: SpatialPrimitive::Polygon(index as usize),
            source_order: up_to_limit(offsets[index] + index) as usize,
        }
    }
}

/// The first primitives that an export lists.
pub open spec fn listed(
    count: nat,
    line_count: int,
    offsets: Seq<usize>,
    polygons: Seq<Vec<Point3d>>,
    lines: spec_fn(usize) -> Real,
    depths: spec_fn(Point3d) -> Real,
    ev: spec_fn(Arithmetic) -> Real,
) -> Seq<DepthPrimitive> {
    Seq::new(
        count,
        |at: int| listed_primitive(at, line_count, offsets, polygons, lines, depths, ev),
    )
}

/// The list of an export as far as it has come.
pub struct SvgOrder<'a> {
    line_count: usize,
    offsets: &'a Vec<usize>,
    polygons: &'a Vec<Vec<Point3d>>,
    order: Vec<DepthPrimitive>,
    vertex: usize,
    centroid: Option<Point3d>,
}

impl<'a> SvgOrder<'a> {
    pub closed spec fn lines(self) -> int {
        self.line_count as int
    }

    pub closed spec fn befores(self) -> Seq<usize> {
        self.offsets@
    }

    pub closed spec fn shapes(self) -> Seq<Vec<Point3d>> {
        self.polygons@
    }

    pub open spec fn total(self) -> int {
        self.lines() + self.shapes().len()
    }

    /// How many primitives are listed.
    pub closed spec fn done(self) -> nat {
        self.order@.len()
    }

    /// How many vertices of the next polygon are counted.
    pub closed spec fn counted(self) -> int {
        self.vertex as int
    }

    pub closed spec fn valid(
        self,
        lines: spec_fn(usize) -> Real,
        depths: spec_fn(Point3d) -> Real,
        ev: spec_fn(Arithmetic) -> Real,
    ) -> bool {
        &&& self.line_count + self.polygons@.len() <= usize::MAX
        &&& self.offsets@.len() == self.polygons@.len()
        &&& offsets_ascend(self.offsets@)
        &&& self.order@.len() <= self.line_count + self.polygons@.len()
        &&& self.order@ == listed(
            self.order@.len(),
            self.line_count as int,
            self.offsets@,
            self.polygons@,
            lines,
            depths,
            ev,
        )
        &&& self.order@.len() < self.line_count || self.order@.len() == self.total()
            ==> self.vertex == 0
        &&& self.vertex > 0 ==> self.vertex <= self.polygons@[self.order@.len()
            - self.line_count]@.len()
        &&& self.vertex == 0 ==> self.centroid is None
        &&& self.vertex > 0 ==> self.centroid == mean_of(
            self.polygons@[self.order@.len() - self.line_count]@.subrange(0, self.vertex as int),
            ev,
        )
    }

    /// Begin a list. `offsets` says of each polygon how many lines come before
    /// it. Room for the list may be refused.
    pub fn new(
        line_count: usize,
        offsets: &'a Vec<usize>,
        polygons: &'a Vec<Vec<Point3d>>,
    ) -> (r: Result<SvgOrder<'a>, CanvasError>)
        requires
            offsets@.len() == polygons@.len(),
            offsets_ascend(offsets@),
        ensures
            match r {
                Ok(list) => {
                    &&& list.lines() == line_count
                    &&& list.befores() == offsets@
                    &&& list.shapes() == polygons@
                    &&& list.done() == 0
                    &&& list.counted() == 0
                    &&& forall|
                        lines: spec_fn(usize) -> Real,
                        depths: spec_fn(Point3d) -> Real,
                        ev: spec_fn(Arithmetic) -> Real,
                    | #[trigger]
                        list.valid(lines, depths, ev)
                },
                Err(error) => if line_count + polygons@.len() > usize::MAX {
                    error@ == (CanvasFault::ResourceExhausted {
                        operation: "order spatial Canvas primitives"@,
                        requested_items: usize::MAX,
                    })
                } else {
                    error@ == (CanvasFault::ResourceExhausted {
                        operation: "order spatial SVG primitives"@,
                        requested_items: (line_count + polygons@.len()) as usize,
                    })
                },
            },
    {
        let count: usize = match spatial_primitive_count(line_count, polygons.len()) {
            Ok(count) => count,
            Err(error) => {
                return Err(error);
            },
        };
        let mut order: Vec<DepthPrimitive> = Vec::new();
        if !reserve_exact(&mut order, count) {
            return Err(
                CanvasError::ResourceExhausted {
                    operation: "order spatial SVG primitives",
                    requested_items: count,
                },
            );
        }
        let list: SvgOrder<'a> = SvgOrder {
            line_count,
            offsets,
            polygons,
            order,
            vertex: 0,
            centroid: None,
        };
        assert forall|
            lines: spec_fn(usize) -> Real,
            depths: spec_fn(Point3d) -> Real,
            ev: spec_fn(Arithmetic) -> Real,
        | #[trigger] list.valid(lines, depths, ev) by {
            assert(list.order@ =~= listed(
                0,
                line_count as int,
                offsets@,
                polygons@,
                lines,
                depths,
                ev,
            ));
        }
        Ok(list)
    }

    pub fn is_complete(&self) -> (r: bool)
        ensures
            r == (self.done() >= self.total()),
    {
        self.order.len() >= self.line_count && self.order.len() - self.line_count
            >= self.polygons.len()
    }

    /// List the next primitive, or count the next vertex of a polygon.
    fn advance<L: Fn(usize) -> Real, D: Fn(Point3d) -> Real, C: Fn(Arithmetic) -> Real>(
        &mut self,
        line_depth: &L,
        depth_of: &D,
        calc: &C,
    )
        requires
            calculates(*calc),
            consistent::<usize, Real, L>(*line_depth),
            consistent::<Point3d, Real, D>(*depth_of),
            old(self).valid(
                function_of::<usize, Real, L>(*line_depth),
                function_of::<Point3d, Real, D>(*depth_of),
                answers(*calc),
            ),
            old(self).done() < old(self).total(),
        ensures
            final(self).valid(
                function_of::<usize, Real, L>(*line_depth),
                function_of::<Point3d, Real, D>(*depth_of),
                answers(*calc),
            ),
            final(self).lines() == old(self).lines(),
            final(self).befores() == old(self).befores(),
            final(self).shapes() == old(self).shapes(),
            final(self).done() == old(self).done() + 1 && final(self).counted() == 0
                || final(self).done() == old(self).done() && final(self).counted()
                == old(self).counted() + 1,
    {
        let ghost lines = function_of::<usize, Real, L>(*line_depth);
        let ghost depths = function_of::<Point3d, Real, D>(*depth_of);
        let ghost ev = answers(*calc);
        let at: usize = self.order.len();
        if at < self.line_count {
            let entry: DepthPrimitive = DepthPrimitive {
                depth: ask(line_depth, at),
                primitive: SpatialPrimitive::Line(at),
                source_order: spatial_line_source_position(at, self.offsets.as_slice()),
            };
            self.order.push(entry);
        } else {
            let index: usize = at - self.line_count;
            let vertices: &Vec<Point3d> = &self.polygons[index];
            if self.vertex < vertices.len() {
                assert(vertices@.subrange(0, self.vertex + 1).drop_last()
                    =~= vertices@.subrange(0, self.vertex as int));
                let mut centroid: Option<Point3d> = self.centroid;
                include_spatial_centroid_point(
                    &mut centroid,
                    vertices[self.vertex],
                    self.vertex,
                    calc,
                );
                self.centroid = centroid;
                self.vertex = self.vertex + 1;
                return;
            }
            assert(vertices@.subrange(0, self.vertex as int) =~= vertices@);
            let depth: Real = match self.centroid {
                Some(centroid) => ask(depth_of, centroid),
                None => Real { bits: 0 },
            };
            let entry: DepthPrimitive = DepthPrimitive {
                depth,
                primitive: SpatialPrimitive::Polygon(index),
                source_order: spatial_polygon_source_position(index, self.offsets[index]),
            };
            self.order.push(entry);
            self.vertex = 0;
            self.centroid = None;
        }
        assert(self.order@ =~= listed(
            self.order@.len(),
            self.line_count as int,
            self.offsets@,
            self.polygons@,
            lines,
            depths,
            ev,
        ));
    }

    /// Do a bounded amount of work. The cancellation hook is asked before every
    /// piece of it.
    pub fn step<
        F: Fn() -> bool,
        L: Fn(usize) -> Real,
        D: Fn(Point3d) -> Real,
        C: Fn(Arithmetic) -> Real,
    >(&mut self, hook: &mut Hook<F>, line_depth: &L, depth_of: &D, calc: &C) -> (r: Result<
        (),
        CanvasError,
    >)
        requires
            calculates(*calc),
            old(hook).ready(),
            consistent::<usize, Real, L>(*line_depth),
            consistent::<Point3d, Real, D>(*depth_of),
            old(self).valid(
                function_of::<usize, Real, L>(*line_depth),
                function_of::<Point3d, Real, D>(*depth_of),
                answers(*calc),
            ),
        ensures
            final(self).valid(
                function_of::<usize, Real, L>(*line_depth),
                function_of::<Point3d, Real, D>(*depth_of),
                answers(*calc),
            ),
            final(self).lines() == old(self).lines(),
            final(self).befores() == old(self).befores(),
            final(self).shapes() == old(self).shapes(),
            final(self).done() >= old(self).done(),
            final(hook).ready(),
            final(hook).follows(*old(hook)),
            match r {
                Ok(()) => {
                    &&& calm(final(hook).since(*old(hook)))
                    &&& old(self).done() < old(self).total() ==> final(hook).since(
                        *old(hook),
                    ).len() > 0
                },
                Err(error) => error@ == CanvasFault::Cancelled && stopped(
                    final(hook).since(*old(hook)),
                ),
            },
            r is Ok && old(self).done() < old(self).total() ==> final(self).done()
                > old(self).done() || final(self).counted() > old(self).counted(),
    {
        let mut left: usize = SVG_LINES_PER_BATCH;
        let ghost start = *self;
        let ghost entry = *hook;
        proof {
            lemma_unasked(entry);
        }
        while left > 0 && !self.is_complete()
            invariant
                calculates(*calc),
                entry == *old(hook),
                hook.ready(),
                hook.follows(entry),
                calm(hook.since(entry)),
                left < SVG_LINES_PER_BATCH ==> hook.since(entry).len() > 0,
                consistent::<usize, Real, L>(*line_depth),
                consistent::<Point3d, Real, D>(*depth_of),
                self.valid(
                    function_of::<usize, Real, L>(*line_depth),
                    function_of::<Point3d, Real, D>(*depth_of),
                    answers(*calc),
                ),
                start == *old(self),
                self.lines() == start.lines(),
                self.befores() == start.befores(),
                self.shapes() == start.shapes(),
                left <= SVG_LINES_PER_BATCH,
                self.done() >= start.done(),
                left < SVG_LINES_PER_BATCH ==> self.done() > start.done() || self.counted()
                    > start.counted(),
                left == SVG_LINES_PER_BATCH ==> *self == start,
            decreases left,
        {
            let cancelled: bool = hook.ask(Ghost(entry));
            if cancelled {
                return Err(CanvasError::Cancelled);
            }
            self.advance(line_depth, depth_of, calc);
            left = left - 1;
        }
        Ok(())
    }

    /// The list, if it is complete.
    pub fn finish<L: Fn(usize) -> Real, D: Fn(Point3d) -> Real, C: Fn(Arithmetic) -> Real>(
        self,
        line_depth: &L,
        depth_of: &D,
        calc: &C,
    ) -> (r: Option<Vec<DepthPrimitive>>)
        requires
            self.valid(
                function_of::<usize, Real, L>(*line_depth),
                function_of::<Point3d, Real, D>(*depth_of),
                answers(*calc),
            ),
        ensures
            match r {
                Some(order) => self.done() == self.total() && order@ == listed(
                    self.total() as nat,
                    self.lines(),
                    self.befores(),
                    self.shapes(),
                    function_of::<usize, Real, L>(*line_depth),
                    function_of::<Point3d, Real, D>(*depth_of),
                    answers(*calc),
                ),
                None => self.done() < self.total(),
            },
    {
        if self.is_complete() {
            Some(self.order)
        } else {
            None
        }
    }
}

} // verus!
