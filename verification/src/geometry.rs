//! Points, styled lines and polygons, and the scenes made of them.

use vstd::prelude::*;

use crate::number::{Real, ONE_BITS};
use crate::kind::VisualizerBackend;

verus! {

pub type Point2d = (Real, Real);

pub type Point3d = (Real, Real, Real);

#[derive(Debug, Clone, Copy, PartialEq, Eq)]
pub struct Line2d(pub Point2d, pub Point2d);

#[derive(Debug, Clone, Copy, PartialEq, Eq)]
pub struct Line3d(pub Point3d, pub Point3d);

#[derive(Debug, Clone, PartialEq, Eq)]
pub struct Lines2d(pub Vec<Line2d>);

/// Color attached to turtle geometry.
///
/// `ThemeDefault` preserves the display's theme-aware styling. Palette commands
/// switch subsequent geometry away from that default; an RGB value is used when
/// the source supplies an exact palette, while `PaletteIndex` lets the display
/// choose a light or dark fallback palette when it does not.
#[derive(Debug, Clone, Copy, PartialEq, Eq)]
pub enum StrokeColor {
    ThemeDefault,
    PaletteIndex(u16),
    Rgb([u8; 3]),
}

impl Default for StrokeColor {
    fn default() -> (r: Self)
        ensures
            r == StrokeColor::ThemeDefault,
    {
        StrokeColor::ThemeDefault
    }
}

/// Two colours are the same.
pub fn same_rgb(a: [u8; 3], b: [u8; 3]) -> (r: bool)
    ensures
        r == (a@ == b@),
        r == (a == b),
{
    let r: bool = a[0] == b[0] && a[1] == b[1] && a[2] == b[2];
    proof {
        if r {
            assert(a@ =~= b@);
            assert(a =~= b);
        }
    }
    r
}

impl StrokeColor {
    pub fn same_as(self, other: StrokeColor) -> (r: bool)
        ensures
            r == (self == other),
    {
        match (self, other) {
            (StrokeColor::ThemeDefault, StrokeColor::ThemeDefault) => true,
            (StrokeColor::PaletteIndex(a), StrokeColor::PaletteIndex(b)) => a == b,
            (StrokeColor::Rgb(a), StrokeColor::Rgb(b)) => same_rgb(a, b),
            _ => false,
        }
    }
}

#[derive(Debug, Clone, Copy, PartialEq, Eq)]
pub struct StyledLine2d {
    pub line: Line2d,
    /// Multiplier applied to the output target's automatic base stroke width.
    /// Zero suppresses the segment.
    pub width: Real,
    pub color: StrokeColor,
}

/// Styled line segment retained in turtle-world three-dimensional coordinates.
#[derive(Debug, Clone, Copy, PartialEq, Eq)]
pub struct StyledLine3d {
    pub line: Line3d,
    /// Multiplier applied to the output target's automatic base stroke width.
    /// Zero suppresses the segment.
    pub width: Real,
    pub color: StrokeColor,
}

/// Filled polygon emitted by turtle polygon capture commands.
///
/// Between `PolygonBegin` and `PolygonEnd`, `Vertex` records the current
/// position explicitly and `F`/`f` advances trace contour edges implicitly.
/// Other configured draw and move modules do not trace the contour.
#[derive(Debug, Clone, PartialEq, Eq)]
pub struct Polygon2d {
    pub vertices: Vec<Point2d>,
    pub color: StrokeColor,
}

/// Filled polygon retained in turtle-world three-dimensional coordinates.
#[derive(Debug, Clone, PartialEq, Eq)]
pub struct Polygon3d {
    pub vertices: Vec<Point3d>,
    pub color: StrokeColor,
}

/// Axis-aligned bounds accumulated while traversing a two-dimensional turtle.
#[derive(Debug, Clone, Copy, PartialEq, Eq)]
pub struct Bounds2d {
    pub min: Point2d,
    pub max: Point2d,
}

impl Bounds2d {
    pub open spec fn of_line(line: Line2d) -> Bounds2d {
        Bounds2d {
            min: (line.0.0.lower(line.1.0), line.0.1.lower(line.1.1)),
            max: (line.0.0.upper(line.1.0), line.0.1.upper(line.1.1)),
        }
    }

    pub open spec fn with_line(self, line: Line2d) -> Bounds2d {
        Bounds2d {
            min: (
                self.min.0.lower(line.0.0).lower(line.1.0),
                self.min.1.lower(line.0.1).lower(line.1.1),
            ),
            max: (
                self.max.0.upper(line.0.0).upper(line.1.0),
                self.max.1.upper(line.0.1).upper(line.1.1),
            ),
        }
    }

    pub fn from_line(line: Line2d) -> (r: Bounds2d)
        ensures
            r == Bounds2d::of_line(line),
    {
        Bounds2d {
            min: (line.0.0.min(line.1.0), line.0.1.min(line.1.1)),
            max: (line.0.0.max(line.1.0), line.0.1.max(line.1.1)),
        }
    }

    pub fn include_line(&mut self, line: Line2d)
        ensures
            *final(self) == old(self).with_line(line),
    {
        self.min = (
            self.min.0.min(line.0.0).min(line.1.0),
            self.min.1.min(line.0.1).min(line.1.1),
        );
        self.max = (
            self.max.0.max(line.0.0).max(line.1.0),
            self.max.1.max(line.0.1).max(line.1.1),
        );
    }
}

/// The bounds with one more line inside.
pub open spec fn bounds_with_2d(bounds: Option<Bounds2d>, line: Line2d) -> Option<Bounds2d> {
    match bounds {
        Some(bounds) => Some(bounds.with_line(line)),
        None => Some(Bounds2d::of_line(line)),
    }
}

pub fn include_bounds_2d(bounds: &mut Option<Bounds2d>, line: Line2d)
    ensures
        *final(bounds) == bounds_with_2d(*old(bounds), line),
{
    let mut next: Bounds2d = match *bounds {
        Some(current) => current,
        None => Bounds2d::from_line(line),
    };
    if bounds.is_some() {
        next.include_line(line);
    }
    *bounds = Some(next);
}

/// Axis-aligned bounds accumulated while traversing a three-dimensional turtle.
#[derive(Debug, Clone, Copy, PartialEq, Eq)]
pub struct Bounds3d {
    pub min: Point3d,
    pub max: Point3d,
}

impl Bounds3d {
    pub open spec fn of_line(line: Line3d) -> Bounds3d {
        Bounds3d {
            min: (
                line.0.0.lower(line.1.0),
                line.0.1.lower(line.1.1),
                line.0.2.lower(line.1.2),
            ),
            max: (
                line.0.0.upper(line.1.0),
                line.0.1.upper(line.1.1),
                line.0.2.upper(line.1.2),
            ),
        }
    }

    pub open spec fn with_line(self, line: Line3d) -> Bounds3d {
        Bounds3d {
            min: (
                self.min.0.lower(line.0.0).lower(line.1.0),
                self.min.1.lower(line.0.1).lower(line.1.1),
                self.min.2.lower(line.0.2).lower(line.1.2),
            ),
            max: (
                self.max.0.upper(line.0.0).upper(line.1.0),
                self.max.1.upper(line.0.1).upper(line.1.1),
                self.max.2.upper(line.0.2).upper(line.1.2),
            ),
        }
    }

    pub fn from_line(line: Line3d) -> (r: Bounds3d)
        ensures
            r == Bounds3d::of_line(line),
    {
        Bounds3d {
            min: (line.0.0.min(line.1.0), line.0.1.min(line.1.1), line.0.2.min(line.1.2)),
            max: (line.0.0.max(line.1.0), line.0.1.max(line.1.1), line.0.2.max(line.1.2)),
        }
    }

    pub fn include_line(&mut self, line: Line3d)
        ensures
            *final(self) == old(self).with_line(line),
    {
        self.min = (
            self.min.0.min(line.0.0).min(line.1.0),
            self.min.1.min(line.0.1).min(line.1.1),
            self.min.2.min(line.0.2).min(line.1.2),
        );
        self.max = (
            self.max.0.max(line.0.0).max(line.1.0),
            self.max.1.max(line.0.1).max(line.1.1),
            self.max.2.max(line.0.2).max(line.1.2),
        );
    }
}

/// The bounds with one more line inside.
pub open spec fn bounds_with_3d(bounds: Option<Bounds3d>, line: Line3d) -> Option<Bounds3d> {
    match bounds {
        Some(bounds) => Some(bounds.with_line(line)),
        None => Some(Bounds3d::of_line(line)),
    }
}

/// The bounds with some more points inside.
pub open spec fn bounds_with_points_3d(
    bounds: Option<Bounds3d>,
    points: Seq<Point3d>,
) -> Option<Bounds3d>
    decreases points.len(),
{
    if points.len() == 0 {
        bounds
    } else {
        bounds_with_3d(
            bounds_with_points_3d(bounds, points.drop_last()),
            Line3d(points.last(), points.last()),
        )
    }
}

pub fn include_bounds_3d(bounds: &mut Option<Bounds3d>, line: Line3d)
    ensures
        *final(bounds) == bounds_with_3d(*old(bounds), line),
{
    let mut next: Bounds3d = match *bounds {
        Some(current) => current,
        None => Bounds3d::from_line(line),
    };
    if bounds.is_some() {
        next.include_line(line);
    }
    *bounds = Some(next);
}

pub fn include_points_3d(bounds: &mut Option<Bounds3d>, points: &Vec<Point3d>)
    ensures
        *final(bounds) == bounds_with_points_3d(*old(bounds), points@),
{
    let mut i: usize = 0;
    assert(points@.subrange(0, 0) =~= Seq::empty());
    while i < points.len()
        invariant
            i <= points.len(),
            *bounds == bounds_with_points_3d(*old(bounds), points@.subrange(0, i as int)),
        decreases points.len() - i,
    {
        let point: Point3d = points[i];
        include_bounds_3d(bounds, Line3d(point, point));
        let ghost next = points@.subrange(0, i + 1);
        assert(next.drop_last() =~= points@.subrange(0, i as int));
        i = i + 1;
    }
    assert(points@.subrange(0, i as int) =~= points@);
}

#[derive(Debug, Clone, Copy, PartialEq, Eq, Structural)]
pub enum TextRole {
    Title,
    Heading,
    Body,
    Muted,
    Error,
}

#[derive(Debug, PartialEq, Eq)]
pub struct Text2d {
    pub position: Point2d,
    pub content: String,
    pub size: Real,
    pub role: TextRole,
}

impl Clone for Text2d {
    fn clone(&self) -> (r: Self)
        ensures
            r == *self,
    {
        Text2d {
            position: self.position,
            content: self.content.clone(),
            size: self.size,
            role: self.role,
        }
    }
}

#[derive(Debug, Clone, PartialEq, Eq)]
pub enum Primitive2d {
    Line(StyledLine2d),
    Polygon(Polygon2d),
    Text(Text2d),
}

#[derive(Debug, Clone, PartialEq, Eq)]
pub enum Primitive3d {
    Line(StyledLine3d),
    Polygon(Polygon3d),
}

#[derive(Debug, Clone, PartialEq, Eq)]
pub struct Scene2d {
    pub primitives: Vec<Primitive2d>,
    /// Exact source background, when one was declared. `None` keeps the
    /// target's normal light or dark background.
    pub background: Option<[u8; 3]>,
}

impl Scene2d {
    /// A scene of unstyled lines.
    pub fn lines(lines: Lines2d) -> (r: Scene2d)
        ensures
            r.background is None,
            r.primitives@.len() == lines.0@.len(),
            forall|i: int|
                0 <= i < lines.0@.len() ==> #[trigger] r.primitives@[i] == Primitive2d::Line(
                    StyledLine2d {
                        line: lines.0@[i],
                        width: Real { bits: ONE_BITS },
                        color: StrokeColor::ThemeDefault,
                    },
                ),
    {
        let mut primitives: Vec<Primitive2d> = Vec::new();
        let mut i: usize = 0;
        while i < lines.0.len()
            invariant
                i <= lines.0@.len(),
                primitives@.len() == i,
                forall|j: int|
                    0 <= j < i ==> #[trigger] primitives@[j] == Primitive2d::Line(
                        StyledLine2d {
                            line: lines.0@[j],
                            width: Real { bits: ONE_BITS },
                            color: StrokeColor::ThemeDefault,
                        },
                    ),
            decreases lines.0@.len() - i,
        {
            primitives.push(
                Primitive2d::Line(
                    StyledLine2d {
                        line: lines.0[i],
                        width: Real { bits: ONE_BITS },
                        color: StrokeColor::ThemeDefault,
                    },
                ),
            );
            i = i + 1;
        }
        Scene2d { primitives, background: None }
    }
}

#[derive(Debug, Clone, PartialEq, Eq)]
pub struct Scene3d {
    pub primitives: Vec<Primitive3d>,
    /// Exact source background, when one was declared. `None` keeps the
    /// target's normal light or dark background.
    pub background: Option<[u8; 3]>,
}

#[derive(Debug, Clone, PartialEq, Eq)]
pub enum Visualization {
    Scene2d(Scene2d),
    Scene3d(Scene3d),
}

/// A completed visualization together with the backend that produced it.
#[derive(Debug, Clone, PartialEq, Eq)]
pub struct VisualizationResult {
    pub visualization: Visualization,
    pub backend_used: VisualizerBackend,
}

} // verus!
