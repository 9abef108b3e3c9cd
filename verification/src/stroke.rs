//! Automatic stroke widths from path length, scene detail, and source styles.

use vstd::prelude::*;

use crate::geometry::{Line2d, Line3d, StyledLine3d};
use crate::number::{answers, calculate, calculates, Arithmetic, Real, ONE_BITS};

verus! {

/// The pattern of the share of the distance between tracks that ink takes.
pub const INK_BITS: u64 = 0x3fe4_cccc_cccc_cccd;

/// The pattern of the largest fitted width, ten.
pub const WIDEST_BITS: u64 = 0x4024_0000_0000_0000;

/// The pattern of two: paths of up to two diagonals are sparse.
pub const SPARSE_BITS: u64 = 0x4000_0000_0000_0000;

/// The pattern of the largest fitted width of spatial rods, two and a half.
pub const SPATIAL_WIDEST_BITS: u64 = 0x4004_0000_0000_0000;

/// The pattern of the nominal long edge of a drawing, five hundred.
pub const NOMINAL_EDGE_BITS: u64 = 0x407f_4000_0000_0000;

/// The pattern of the largest normalized spatial width, three.
pub const NORMALIZED_WIDEST_BITS: u64 = 0x4008_0000_0000_0000;

/// The pattern of the largest finite number.
pub const LARGEST_BITS: u64 = 0x7fef_ffff_ffff_ffff;

/// A finite number above zero.
pub open spec fn usable(value: Real) -> bool {
    value.finite() && (Real { bits: 0 }).below(value)
}

fn is_usable(value: Real) -> (r: bool)
    ensures
        r == usable(value),
{
    value.is_finite() && value.is_positive()
}

/// A number that is usable, if it is.
pub open spec fn usable_length(value: Option<Real>) -> Option<Real> {
    match value {
        Some(value) => if usable(value) {
            Some(value)
        } else {
            None
        },
        None => None,
    }
}

/// Streaming summary of the unstyled length of rendered line segments.
///
/// Stroke styles are excluded: the summary describes geometry, while the width
/// of a line remains a multiplier applied by the output target. Zero-length and
/// non-finite segments do not contribute.
#[derive(Debug, Clone, Copy, PartialEq, Eq, Structural)]
pub struct StrokeWidthEstimator {
    pub total: Real,
    pub count: usize,
}

impl Default for StrokeWidthEstimator {
    fn default() -> (r: Self)
        ensures
            r == StrokeWidthEstimator::fresh(),
    {
        StrokeWidthEstimator { total: Real { bits: 0 }, count: 0 }
    }
}

/// The length of a segment.
pub open spec fn length_2d(line: Line2d, ev: spec_fn(Arithmetic) -> Real) -> Real {
    ev(
        Arithmetic::Hypotenuse(
            ev(Arithmetic::Difference(line.1.0, line.0.0)),
            ev(Arithmetic::Difference(line.1.1, line.0.1)),
        ),
    )
}

impl StrokeWidthEstimator {
    /// The summary of nothing.
    pub open spec fn fresh() -> StrokeWidthEstimator {
        StrokeWidthEstimator { total: Real { bits: 0 }, count: 0 }
    }

    /// The summary with one more segment in it.
    pub open spec fn with_line(
        self,
        line: Line2d,
        ev: spec_fn(Arithmetic) -> Real,
    ) -> StrokeWidthEstimator {
        let length = length_2d(line, ev);
        if usable(length) {
            let total = ev(Arithmetic::Sum(self.total, length));
            StrokeWidthEstimator {
                total: if total.finite() {
                    total
                } else {
                    Real { bits: LARGEST_BITS }
                },
                count: if self.count == usize::MAX {
                    usize::MAX
                } else {
                    (self.count + 1) as usize
                },
            }
        } else {
            self
        }
    }

    /// Include one segment in the total unstyled path length.
    pub fn observe<C: Fn(Arithmetic) -> Real>(&mut self, line: Line2d, calc: &C)
        requires
            calculates(*calc),
        ensures
            *final(self) == old(self).with_line(line, answers(*calc)),
    {
        let dx: Real = calculate(calc, Arithmetic::Difference(line.1.0, line.0.0));
        let dy: Real = calculate(calc, Arithmetic::Difference(line.1.1, line.0.1));
        let length: Real = calculate(calc, Arithmetic::Hypotenuse(dx, dy));
        if !is_usable(length) {
            return;
        }
        let total: Real = calculate(calc, Arithmetic::Sum(self.total, length));
        self.total = if total.is_finite() {
            total
        } else {
            Real { bits: LARGEST_BITS }
        };
        self.count = self.count.saturating_add(1);
    }

    /// Sum of the observed positive, finite segment lengths.
    pub fn total_line_length(self) -> (r: Option<Real>)
        ensures
            r == (if (Real { bits: 0 }).below(self.total) {
                Some(self.total)
            } else {
                None
            }),
    {
        if self.total.is_positive() {
            Some(self.total)
        } else {
            None
        }
    }

    /// Number of observed positive, finite segments.
    pub fn line_count(self) -> (r: usize)
        ensures
            r == self.count,
    {
        self.count
    }
}

/// The width that the density of a path asks for, in fitted units.
pub open spec fn density_width(
    total_line_length: Option<Real>,
    extent: (Real, Real),
    scale: Real,
    ev: spec_fn(Arithmetic) -> Real,
) -> Real {
    let widest = Real { bits: WIDEST_BITS };
    let zero = Real { bits: 0 };
    match usable_length(total_line_length) {
        None => widest,
        Some(length) => {
            let diagonal = ev(Arithmetic::Hypotenuse(extent.0, extent.1));
            let area = ev(Arithmetic::Product(extent.0, extent.1));
            let fitted = ev(
                Arithmetic::Product(
                    ev(
                        Arithmetic::Product(
                            ev(Arithmetic::Quotient(area, length)),
                            scale,
                        ),
                    ),
                    Real { bits: INK_BITS },
                ),
            );
            if !usable(scale) || !extent.0.finite() || extent.0.below(zero) || !extent.1.finite()
                || extent.1.below(zero) {
                widest
            } else if diagonal.at_most(zero) || length.at_most(
                ev(Arithmetic::Product(diagonal, Real { bits: SPARSE_BITS })),
            ) {
                widest
            } else if !area.finite() || area.at_most(zero) || !fitted.finite() {
                widest
            } else {
                fitted.within(zero, widest)
            }
        },
    }
}

/// Select an automatic, unstyled stroke width in fitted target units.
///
/// For a two-dimensional drawing, `area / total_line_length` estimates the
/// average distance between neighboring tracks. The default stroke consumes
/// 65% of that distance, leaving a visible gap where the output resolution can
/// represent one. Sparse and degenerate paths use the fitted maximum. There is
/// no positive minimum: dense scenes need fractional pixel coverage.
pub fn adaptive_stroke_width<C: Fn(Arithmetic) -> Real>(
    total_line_length: Option<Real>,
    drawing_extent: (Real, Real),
    fitted_scale: Real,
    calc: &C,
) -> (r: Real)
    requires
        calculates(*calc),
    ensures
        r == density_width(total_line_length, drawing_extent, fitted_scale, answers(*calc)),
{
    let widest: Real = Real { bits: WIDEST_BITS };
    let zero: Real = Real { bits: 0 };
    if !is_usable(fitted_scale) {
        return widest;
    }
    let length: Real = match total_line_length {
        Some(length) => if is_usable(length) {
            length
        } else {
            return widest;
        },
        None => {
            return widest;
        },
    };
    let (width, height) = drawing_extent;
    if !width.is_finite() || width.is_negative() || !height.is_finite() || height.is_negative() {
        return widest;
    }
    let diagonal: Real = calculate(calc, Arithmetic::Hypotenuse(width, height));
    let sparse: Real = calculate(
        calc,
        Arithmetic::Product(diagonal, Real { bits: SPARSE_BITS }),
    );
    if diagonal.less_equal(zero) || length.less_equal(sparse) {
        return widest;
    }
    let area: Real = calculate(calc, Arithmetic::Product(width, height));
    if !area.is_finite() || area.less_equal(zero) {
        return widest;
    }
    let track: Real = calculate(calc, Arithmetic::Quotient(area, length));
    let scaled: Real = calculate(calc, Arithmetic::Product(track, fitted_scale));
    let fitted: Real = calculate(calc, Arithmetic::Product(scaled, Real { bits: INK_BITS }));
    if fitted.is_finite() {
        fitted.clamp(zero, widest)
    } else {
        widest
    }
}

/// The width that keeps the tracks of a scene of equal steps apart.
pub open spec fn detail_width(
    line_count: usize,
    extent: (Real, Real),
    scale: Real,
    ev: spec_fn(Arithmetic) -> Real,
) -> Real {
    let edge = ev(Arithmetic::Product(extent.0.upper(extent.1), scale));
    ev(
        Arithmetic::Quotient(
            ev(Arithmetic::Product(edge, Real { bits: INK_BITS })),
            ev(Arithmetic::SquareRoot(ev(Arithmetic::Count(line_count)))),
        ),
    )
}

/// The width that the mean segment length asks for. Steps below one unit count
/// by their square root.
pub open spec fn segment_width(
    length: Real,
    line_count: usize,
    scale: Real,
    ev: spec_fn(Arithmetic) -> Real,
) -> Real {
    let mean = ev(
        Arithmetic::Product(
            ev(Arithmetic::Quotient(length, ev(Arithmetic::Count(line_count)))),
            scale,
        ),
    );
    let step = if mean.below(Real { bits: ONE_BITS }) {
        ev(Arithmetic::SquareRoot(mean))
    } else {
        mean
    };
    ev(Arithmetic::Product(step, Real { bits: INK_BITS }))
}

/// A width with an upper limit that counts only when it is usable.
pub open spec fn limited(width: Real, limit: Real) -> Real {
    if usable(limit) {
        width.lower(limit)
    } else {
        width
    }
}

/// The width that path density and scene detail ask for, in fitted units.
pub open spec fn scene_width(
    total_line_length: Option<Real>,
    line_count: usize,
    extent: (Real, Real),
    scale: Real,
    ev: spec_fn(Arithmetic) -> Real,
) -> Real {
    let density = density_width(total_line_length, extent, scale, ev);
    if line_count == 0 || !usable(scale) || !usable(extent.0) || !usable(extent.1) {
        density
    } else {
        let detailed = limited(density, detail_width(line_count, extent, scale, ev));
        match usable_length(total_line_length) {
            None => detailed,
            Some(length) => limited(detailed, segment_width(length, line_count, scale, ev)),
        }
    }
}

/// Select an automatic stroke width using both path density and scene detail.
///
/// To the density estimate this adds two caps: 65% of the fitted long edge over
/// the square root of the line count, and one derived from the fitted mean
/// segment length. The narrowest estimate wins. Empty and one-dimensional
/// scenes retain the density-only result.
pub fn adaptive_scene_stroke_width<C: Fn(Arithmetic) -> Real>(
    total_line_length: Option<Real>,
    line_count: usize,
    drawing_extent: (Real, Real),
    fitted_scale: Real,
    calc: &C,
) -> (r: Real)
    requires
        calculates(*calc),
    ensures
        r == scene_width(
            total_line_length,
            line_count,
            drawing_extent,
            fitted_scale,
            answers(*calc),
        ),
{
    let density: Real = adaptive_stroke_width(
        total_line_length,
        drawing_extent,
        fitted_scale,
        calc,
    );
    let (width, height) = drawing_extent;
    if line_count == 0 || !is_usable(fitted_scale) || !is_usable(width) || !is_usable(height) {
        return density;
    }
    let edge: Real = calculate(calc, Arithmetic::Product(width.max(height), fitted_scale));
    let inked: Real = calculate(calc, Arithmetic::Product(edge, Real { bits: INK_BITS }));
    let count: Real = calculate(calc, Arithmetic::Count(line_count));
    let root: Real = calculate(calc, Arithmetic::SquareRoot(count));
    let detail: Real = calculate(calc, Arithmetic::Quotient(inked, root));
    let mut fitted: Real = if is_usable(detail) {
        density.min(detail)
    } else {
        density
    };
    match total_line_length {
        Some(length) => {
            if is_usable(length) {
                let mean: Real = calculate(calc, Arithmetic::Quotient(length, count));
                let scaled: Real = calculate(calc, Arithmetic::Product(mean, fitted_scale));
                let step: Real = if scaled.less_than(Real { bits: ONE_BITS }) {
                    calculate(calc, Arithmetic::SquareRoot(scaled))
                } else {
                    scaled
                };
                let segment: Real = calculate(
                    calc,
                    Arithmetic::Product(step, Real { bits: INK_BITS }),
                );
                if is_usable(segment) {
                    fitted = fitted.min(segment);
                }
            }
        },
        None => {},
    }
    fitted
}

/// Select the automatic base width for a fitted three-dimensional line scene:
/// that of a planar scene, with the narrower cap of rods.
pub fn adaptive_spatial_scene_stroke_width<C: Fn(Arithmetic) -> Real>(
    total_line_length: Option<Real>,
    line_count: usize,
    drawing_extent: (Real, Real),
    fitted_scale: Real,
    calc: &C,
) -> (r: Real)
    requires
        calculates(*calc),
    ensures
        r == scene_width(
            total_line_length,
            line_count,
            drawing_extent,
            fitted_scale,
            answers(*calc),
        ).lower(Real { bits: SPATIAL_WIDEST_BITS }),
{
    adaptive_scene_stroke_width(
        total_line_length,
        line_count,
        drawing_extent,
        fitted_scale,
        calc,
    ).min(Real { bits: SPATIAL_WIDEST_BITS })
}

/// The scale that fits a view to the nominal long edge.
pub open spec fn nominal_scale(view_extent: Real, ev: spec_fn(Arithmetic) -> Real) -> Real {
    ev(Arithmetic::Quotient(Real { bits: NOMINAL_EDGE_BITS }, view_extent))
}

/// Select an automatic stroke width expressed in SVG view-box units.
pub fn adaptive_svg_stroke_width<C: Fn(Arithmetic) -> Real>(
    total_line_length: Option<Real>,
    drawing_extent: (Real, Real),
    view_extent: Real,
    calc: &C,
) -> (r: Real)
    requires
        calculates(*calc),
    ensures
        ({
            let ev = answers(*calc);
            let scale = nominal_scale(view_extent, ev);
            r == if usable(view_extent) {
                ev(
                    Arithmetic::Quotient(
                        density_width(total_line_length, drawing_extent, scale, ev),
                        scale,
                    ),
                )
            } else {
                Real { bits: WIDEST_BITS }
            }
        }),
{
    if !is_usable(view_extent) {
        return Real { bits: WIDEST_BITS };
    }
    let scale: Real = calculate(
        calc,
        Arithmetic::Quotient(Real { bits: NOMINAL_EDGE_BITS }, view_extent),
    );
    let width: Real = adaptive_stroke_width(total_line_length, drawing_extent, scale, calc);
    calculate(calc, Arithmetic::Quotient(width, scale))
}

/// The scene width in view-box units.
pub open spec fn scene_svg_width(
    total_line_length: Option<Real>,
    line_count: usize,
    drawing_extent: (Real, Real),
    view_extent: Real,
    ev: spec_fn(Arithmetic) -> Real,
) -> Real {
    let scale = nominal_scale(view_extent, ev);
    if usable(view_extent) {
        ev(
            Arithmetic::Quotient(
                scene_width(total_line_length, line_count, drawing_extent, scale, ev),
                scale,
            ),
        )
    } else {
        Real { bits: WIDEST_BITS }
    }
}

/// Select a scene-detail-aware automatic width in SVG view-box units.
pub fn adaptive_scene_svg_stroke_width<C: Fn(Arithmetic) -> Real>(
    total_line_length: Option<Real>,
    line_count: usize,
    drawing_extent: (Real, Real),
    view_extent: Real,
    calc: &C,
) -> (r: Real)
    requires
        calculates(*calc),
    ensures
        r == scene_svg_width(
            total_line_length,
            line_count,
            drawing_extent,
            view_extent,
            answers(*calc),
        ),
{
    if !is_usable(view_extent) {
        return Real { bits: WIDEST_BITS };
    }
    let scale: Real = calculate(
        calc,
        Arithmetic::Quotient(Real { bits: NOMINAL_EDGE_BITS }, view_extent),
    );
    let width: Real = adaptive_scene_stroke_width(
        total_line_length,
        line_count,
        drawing_extent,
        scale,
        calc,
    );
    calculate(calc, Arithmetic::Quotient(width, scale))
}

/// The scene width of spatial rods in view-box units.
pub open spec fn spatial_svg_width(
    total_line_length: Option<Real>,
    line_count: usize,
    drawing_extent: (Real, Real),
    view_extent: Real,
    ev: spec_fn(Arithmetic) -> Real,
) -> Real {
    let width = scene_svg_width(total_line_length, line_count, drawing_extent, view_extent, ev);
    let cap = Real { bits: SPATIAL_WIDEST_BITS };
    if usable(view_extent) {
        width.lower(
            ev(
                Arithmetic::Quotient(
                    ev(Arithmetic::Product(cap, view_extent)),
                    Real { bits: NOMINAL_EDGE_BITS },
                ),
            ),
        )
    } else {
        width.lower(cap)
    }
}

/// Select a spatial automatic base width in SVG view-box units.
pub fn adaptive_spatial_scene_svg_stroke_width<C: Fn(Arithmetic) -> Real>(
    total_line_length: Option<Real>,
    line_count: usize,
    drawing_extent: (Real, Real),
    view_extent: Real,
    calc: &C,
) -> (r: Real)
    requires
        calculates(*calc),
    ensures
        r == spatial_svg_width(
            total_line_length,
            line_count,
            drawing_extent,
            view_extent,
            answers(*calc),
        ),
{
    let width: Real = adaptive_scene_svg_stroke_width(
        total_line_length,
        line_count,
        drawing_extent,
        view_extent,
        calc,
    );
    let cap: Real = Real { bits: SPATIAL_WIDEST_BITS };
    if !is_usable(view_extent) {
        return width.min(cap);
    }
    let scaled: Real = calculate(calc, Arithmetic::Product(cap, view_extent));
    let limit: Real = calculate(
        calc,
        Arithmetic::Quotient(scaled, Real { bits: NOMINAL_EDGE_BITS }),
    );
    width.min(limit)
}

/// Incrementally computes the length-weighted source-width reference used by
/// automatic three-dimensional displays.
///
/// Samples with a non-finite or non-positive length do not affect the result.
/// A non-finite or non-positive width contributes zero to the weighted
/// numerator while its valid length still contributes to the denominator.
#[derive(Debug, Clone, Copy, PartialEq, Eq, Structural)]
pub struct Turtle3dWidthReferenceEstimator {
    pub length_scale: Real,
    pub scaled_total_length: Real,
    pub mean_width: Real,
}

impl Default for Turtle3dWidthReferenceEstimator {
    fn default() -> (r: Self)
        ensures
            r == Turtle3dWidthReferenceEstimator::fresh(),
    {
        Turtle3dWidthReferenceEstimator {
            length_scale: Real { bits: 0 },
            scaled_total_length: Real { bits: 0 },
            mean_width: Real { bits: 0 },
        }
    }
}

/// The length of a spatial segment.
pub open spec fn length_3d(line: Line3d, ev: spec_fn(Arithmetic) -> Real) -> Real {
    ev(
        Arithmetic::Hypotenuse(
            ev(
                Arithmetic::Hypotenuse(
                    ev(Arithmetic::Difference(line.1.0, line.0.0)),
                    ev(Arithmetic::Difference(line.1.1, line.0.1)),
                ),
            ),
            ev(Arithmetic::Difference(line.1.2, line.0.2)),
        ),
    )
}

impl Turtle3dWidthReferenceEstimator {
    /// An estimator without samples.
    pub open spec fn fresh() -> Turtle3dWidthReferenceEstimator {
        Turtle3dWidthReferenceEstimator {
            length_scale: Real { bits: 0 },
            scaled_total_length: Real { bits: 0 },
            mean_width: Real { bits: 0 },
        }
    }

    /// The estimator with one more sample. Lengths are kept relative to the
    /// longest one seen.
    pub open spec fn with_sample(
        self,
        length: Real,
        source_width: Real,
        ev: spec_fn(Arithmetic) -> Real,
    ) -> Turtle3dWidthReferenceEstimator {
        let width = if usable(source_width) {
            source_width
        } else {
            Real { bits: 0 }
        };
        if !usable(length) {
            self
        } else if self.scaled_total_length.same(Real { bits: 0 }) {
            Turtle3dWidthReferenceEstimator {
                length_scale: length,
                scaled_total_length: Real { bits: ONE_BITS },
                mean_width: width,
            }
        } else {
            let longer = self.length_scale.below(length);
            let previous = if longer {
                ev(
                    Arithmetic::Product(
                        self.scaled_total_length,
                        ev(Arithmetic::Quotient(self.length_scale, length)),
                    ),
                )
            } else {
                self.scaled_total_length
            };
            let sample = if longer {
                Real { bits: ONE_BITS }
            } else {
                ev(Arithmetic::Quotient(length, self.length_scale))
            };
            let total = ev(Arithmetic::Sum(previous, sample));
            let change = ev(
                Arithmetic::Product(
                    ev(Arithmetic::Quotient(sample, total)),
                    ev(Arithmetic::Difference(width, self.mean_width)),
                ),
            );
            Turtle3dWidthReferenceEstimator {
                length_scale: if longer {
                    length
                } else {
                    self.length_scale
                },
                scaled_total_length: total,
                mean_width: ev(Arithmetic::Sum(self.mean_width, change)),
            }
        }
    }

    /// The estimator with one more line.
    pub open spec fn with_line(
        self,
        line: StyledLine3d,
        ev: spec_fn(Arithmetic) -> Real,
    ) -> Turtle3dWidthReferenceEstimator {
        self.with_sample(length_3d(line.line, ev), line.width, ev)
    }

    /// The reference that the samples give: at least one.
    pub open spec fn reference(self) -> Real {
        if self.mean_width.finite() {
            self.mean_width.upper(Real { bits: ONE_BITS })
        } else {
            Real { bits: ONE_BITS }
        }
    }

    /// Include one `(segment length, source width)` sample.
    pub fn observe<C: Fn(Arithmetic) -> Real>(
        &mut self,
        segment_length: Real,
        source_width: Real,
        calc: &C,
    )
        requires
            calculates(*calc),
        ensures
            *final(self) == old(self).with_sample(segment_length, source_width, answers(*calc)),
    {
        if !is_usable(segment_length) {
            return;
        }
        let width: Real = if is_usable(source_width) {
            source_width
        } else {
            Real { bits: 0 }
        };
        if self.scaled_total_length.equals(Real { bits: 0 }) {
            self.length_scale = segment_length;
            self.scaled_total_length = Real { bits: ONE_BITS };
            self.mean_width = width;
            return;
        }
        let mut previous: Real = self.scaled_total_length;
        let mut sample: Real = Real { bits: ONE_BITS };
        if self.length_scale.less_than(segment_length) {
            let rescale: Real = calculate(
                calc,
                Arithmetic::Quotient(self.length_scale, segment_length),
            );
            previous = calculate(calc, Arithmetic::Product(previous, rescale));
            self.length_scale = segment_length;
        } else {
            sample = calculate(calc, Arithmetic::Quotient(segment_length, self.length_scale));
        }
        let total: Real = calculate(calc, Arithmetic::Sum(previous, sample));
        let contribution: Real = calculate(calc, Arithmetic::Quotient(sample, total));
        let difference: Real = calculate(calc, Arithmetic::Difference(width, self.mean_width));
        let change: Real = calculate(calc, Arithmetic::Product(contribution, difference));
        self.mean_width = calculate(calc, Arithmetic::Sum(self.mean_width, change));
        self.scaled_total_length = total;
    }

    /// Include one retained three-dimensional line without projecting it.
    pub fn observe_line<C: Fn(Arithmetic) -> Real>(&mut self, line: &StyledLine3d, calc: &C)
        requires
            calculates(*calc),
        ensures
            *final(self) == old(self).with_line(*line, answers(*calc)),
    {
        let Line3d(start, end) = line.line;
        let dx: Real = calculate(calc, Arithmetic::Difference(end.0, start.0));
        let dy: Real = calculate(calc, Arithmetic::Difference(end.1, start.1));
        let dz: Real = calculate(calc, Arithmetic::Difference(end.2, start.2));
        let flat: Real = calculate(calc, Arithmetic::Hypotenuse(dx, dy));
        let length: Real = calculate(calc, Arithmetic::Hypotenuse(flat, dz));
        self.observe(length, line.width, calc);
    }

    /// Return `max(1, sum(length * positive_width) / sum(length))`.
    pub fn width_reference(&self) -> (r: Real)
        ensures
            r == self.reference(),
            r.finite(),
            (Real { bits: ONE_BITS }).at_most(r),
    {
        let one: Real = Real { bits: ONE_BITS };
        if self.mean_width.is_finite() {
            self.mean_width.max(one)
        } else {
            one
        }
    }
}

/// The display multiplier of a retained width.
pub open spec fn normalized_width(
    source_width: Real,
    width_reference: Real,
    ev: spec_fn(Arithmetic) -> Real,
) -> Real {
    let one = Real { bits: ONE_BITS };
    let reference = if width_reference.finite() && one.at_most(width_reference) {
        width_reference
    } else {
        one
    };
    if usable(source_width) {
        ev(Arithmetic::Quotient(source_width, reference)).within(
            Real { bits: 0 },
            Real { bits: NORMALIZED_WIDEST_BITS },
        )
    } else {
        Real { bits: 0 }
    }
}

/// Convert a retained raw turtle width into its automatic 3D display
/// multiplier. Zero and negative widths suppress the segment.
pub fn normalized_turtle_3d_width<C: Fn(Arithmetic) -> Real>(
    source_width: Real,
    width_reference: Real,
    calc: &C,
) -> (r: Real)
    requires
        calculates(*calc),
    ensures
        r == normalized_width(source_width, width_reference, answers(*calc)),
{
    if !is_usable(source_width) {
        return Real { bits: 0 };
    }
    let one: Real = Real { bits: ONE_BITS };
    let reference: Real = if width_reference.is_finite() && one.less_equal(width_reference) {
        width_reference
    } else {
        one
    };
    calculate(calc, Arithmetic::Quotient(source_width, reference)).clamp(
        Real { bits: 0 },
        Real { bits: NORMALIZED_WIDEST_BITS },
    )
}

/// Automatic widths lie between nothing and their maximum; scene detail only
/// ever narrows them, and rods in space have a smaller maximum.
pub proof fn automatic_widths_are_bounded(
    total_line_length: Option<Real>,
    line_count: usize,
    extent: (Real, Real),
    scale: Real,
    ev: spec_fn(Arithmetic) -> Real,
)
    ensures
        ({
            let zero = Real { bits: 0 };
            let density = density_width(total_line_length, extent, scale, ev);
            let scene = scene_width(total_line_length, line_count, extent, scale, ev);
            let spatial = scene.lower(Real { bits: SPATIAL_WIDEST_BITS });
            &&& zero.at_most(density) && density.at_most(Real { bits: WIDEST_BITS })
            &&& zero.at_most(scene) && scene.at_most(density)
            &&& zero.at_most(spatial) && spatial.at_most(scene) && spatial.at_most(
                Real { bits: SPATIAL_WIDEST_BITS },
            )
        }),
{
}

/// Display multipliers that are numbers lie between zero and three, and widths
/// that are not above zero suppress their segment.
pub proof fn display_multipliers_are_bounded(
    source_width: Real,
    width_reference: Real,
    ev: spec_fn(Arithmetic) -> Real,
)
    ensures
        ({
            let width = normalized_width(source_width, width_reference, ev);
            &&& width.nan() || (Real { bits: 0 }).at_most(width) && width.at_most(
                Real { bits: NORMALIZED_WIDEST_BITS },
            )
            &&& !usable(source_width) ==> width == (Real { bits: 0 })
        }),
{
}

/// Segments that have no usable length leave every summary as it was, and the
/// reference of widths is at least one.
pub proof fn unusable_segments_do_not_count(
    planar: StrokeWidthEstimator,
    flat: Line2d,
    widths: Turtle3dWidthReferenceEstimator,
    rod: StyledLine3d,
    ev: spec_fn(Arithmetic) -> Real,
)
    ensures
        !usable(length_2d(flat, ev)) ==> planar.with_line(flat, ev) == planar,
        !usable(length_3d(rod.line, ev)) ==> widths.with_line(rod, ev) == widths,
        widths.reference().finite(),
        (Real { bits: ONE_BITS }).at_most(widths.reference()),
{
}

} // verus!
