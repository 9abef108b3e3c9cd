//! What a canvas shows of a scene: checks of what arrives, and how a large
//! drawing is refined in bounded batches.

use vstd::prelude::*;
use vstd::string::*;

use crate::geometry::{Point2d, StrokeColor, TextRole};
use crate::number::{answers, calculate, calculates, Arithmetic, Real, HALF_BITS, ONE_BITS};
use crate::palette::{turtle_stroke_rgb, Palette, SPATIAL_THEME_DEFAULT_COLOR_BUCKETS};
use crate::single::Single;
use crate::spatial::{finite_else, finite_or};
use crate::stream_2d::reserve_exact;
use crate::stroke::{normalized_turtle_3d_width, normalized_width, usable};
use crate::svg_encoder::CanvasText;
use crate::text::{decimal, push_decimal};

verus! {

/// Maximum number of representative segments painted into the immediate base
/// preview. Sampling spans the complete stream, including its final segment.
pub const PREVIEW_LINES: usize = 4096;

/// Exact work performed by one animation-frame callback.
pub const EXACT_LINES_PER_BATCH: usize = 2048;

/// SVG work performed before yielding to the browser event loop.
pub const SVG_LINES_PER_BATCH: usize = 2048;

/// How many segments one path holds.
pub const MAX_PATH_SEGMENTS: usize = 2048;

/// Into how many depths the lines of a spatial scene are sorted.
pub const DEPTH_BUCKETS: usize = 256;

/// Failures at the boundary to the worker and the canvas are reported rather
/// than silently replacing data or retrying an unbounded allocation.
#[derive(Debug, Clone, PartialEq, Eq)]
pub enum CanvasError {
    InvalidTransfer { kind: &'static str, expected_values: usize, actual_values: usize },
    InvalidMetadata(String),
    ResourceExhausted { operation: &'static str, requested_items: usize },
    Browser { operation: &'static str, detail: String },
    Cancelled,
    IncompleteSvg { completed: usize, total: usize },
}

/// A failure with its texts as character sequences.
pub enum CanvasFault {
    InvalidTransfer { kind: Seq<char>, expected_values: usize, actual_values: usize },
    InvalidMetadata(Seq<char>),
    ResourceExhausted { operation: Seq<char>, requested_items: usize },
    Browser { operation: Seq<char>, detail: Seq<char> },
    Cancelled,
    IncompleteSvg { completed: usize, total: usize },
}

impl View for CanvasError {
    type V = CanvasFault;

    open spec fn view(&self) -> CanvasFault {
        match *self {
            CanvasError::InvalidTransfer { kind, expected_values, actual_values } =>
            CanvasFault::InvalidTransfer { kind: kind@, expected_values, actual_values },
            CanvasError::InvalidMetadata(message) => CanvasFault::InvalidMetadata(message@),
            CanvasError::ResourceExhausted { operation, requested_items } =>
            CanvasFault::ResourceExhausted { operation: operation@, requested_items },
            CanvasError::Browser { operation, detail } => CanvasFault::Browser {
                operation: operation@,
                detail: detail@,
            },
            CanvasError::Cancelled => CanvasFault::Cancelled,
            CanvasError::IncompleteSvg { completed, total } => CanvasFault::IncompleteSvg {
                completed,
                total,
            },
        }
    }
}

impl CanvasFault {
    /// What a user is told.
    pub open spec fn message(self) -> Seq<char> {
        match self {
            CanvasFault::InvalidTransfer { kind, expected_values, actual_values } =>
            "render worker transferred "@ + decimal(actual_values as int) + " "@ + kind
                + " values; expected "@ + decimal(expected_values as int),
            CanvasFault::InvalidMetadata(message) => message,
            CanvasFault::ResourceExhausted { operation, requested_items } =>
            "not enough browser memory to "@ + operation + " for "@ + decimal(
                requested_items as int,
            ) + " items"@,
            CanvasFault::Browser { operation, detail } => "could not "@ + operation + ": "@
                + detail,
            CanvasFault::Cancelled => "SVG export cancelled"@,
            CanvasFault::IncompleteSvg { completed, total } => "SVG encoding stopped after "@
                + decimal(completed as int) + " of "@ + decimal(total as int) + " lines"@,
        }
    }
}

impl CanvasError {
    /// What a user is told.
    pub fn message(&self) -> (r: String)
        ensures
            r@ == self@.message(),
    {
        match self {
            CanvasError::InvalidTransfer { kind, expected_values, actual_values } => {
                let mut out: String = "render worker transferred ".to_owned();
                push_decimal(&mut out, *actual_values as u128);
                out.append(" ");
                out.append(kind);
                out.append(" values; expected ");
                push_decimal(&mut out, *expected_values as u128);
                out
            },
            CanvasError::InvalidMetadata(message) => message.clone(),
            CanvasError::ResourceExhausted { operation, requested_items } => {
                let mut out: String = "not enough browser memory to ".to_owned();
                out.append(operation);
                out.append(" for ");
                push_decimal(&mut out, *requested_items as u128);
                out.append(" items");
                out
            },
            CanvasError::Browser { operation, detail } => {
                let mut out: String = "could not ".to_owned();
                out.append(operation);
                out.append(": ");
                out.append(detail.as_str());
                out
            },
            CanvasError::Cancelled => "SVG export cancelled".to_owned(),
            CanvasError::IncompleteSvg { completed, total } => {
                let mut out: String = "SVG encoding stopped after ".to_owned();
                push_decimal(&mut out, *completed as u128);
                out.append(" of ");
                push_decimal(&mut out, *total as u128);
                out.append(" lines");
                out
            },
        }
    }
}

/// Metadata that cannot be used.
pub fn bad_metadata(message: &str) -> (r: CanvasError)
    ensures
        r@ == CanvasFault::InvalidMetadata(message@),
{
    CanvasError::InvalidMetadata(message.to_owned())
}

/// How many lines the chunk at a place has.
pub open spec fn chunk_lines(line_count: int, lines_per_chunk: int, chunk: int) -> int {
    let rest = line_count - chunk * lines_per_chunk;
    if rest < 0 {
        0
    } else if rest < lines_per_chunk {
        rest
    } else {
        lines_per_chunk
    }
}

/// How many chunks some lines take.
pub open spec fn chunk_count(line_count: int, lines_per_chunk: int) -> int {
    (line_count + lines_per_chunk - 1) / lines_per_chunk
}

/// Transferred chunks are what was announced. A length is missing where a chunk
/// does not hold numbers.
pub open spec fn transfer_valid(
    lengths: Seq<Option<usize>>,
    line_count: int,
    lines_per_chunk: int,
    values_per_line: int,
) -> bool {
    &&& lengths.len() == chunk_count(line_count, lines_per_chunk)
    &&& forall|i: int|
        0 <= i < lengths.len() ==> (#[trigger] lengths[i] matches Some(length) && length
            == chunk_lines(line_count, lines_per_chunk, i) * values_per_line)
}

/// The sum of some lengths, as far as they are known.
pub open spec fn values_before(lengths: Seq<Option<usize>>) -> int
    decreases lengths.len(),
{
    if lengths.len() == 0 {
        0
    } else {
        let sum = values_before(lengths.drop_last()) + match lengths.last() {
            Some(length) => length as int,
            None => 0,
        };
        if sum > usize::MAX {
            usize::MAX as int
        } else {
            sum
        }
    }
}

/// Why some chunks are turned down: at the first that is not as announced,
/// with the values up to it and, where it holds numbers, in it.
pub open spec fn transfer_fault(
    lengths: Seq<Option<usize>>,
    line_count: usize,
    lines_per_chunk: usize,
    values_per_line: usize,
    kind: Seq<char>,
    failure: CanvasFault,
) -> bool {
    let expected = line_count * values_per_line;
    if expected > usize::MAX {
        failure == (CanvasFault::InvalidTransfer {
            kind,
            expected_values: usize::MAX,
            actual_values: 0,
        })
    } else if lengths.len() != chunk_count(line_count as int, lines_per_chunk as int) {
        failure == (CanvasFault::InvalidTransfer {
            kind,
            expected_values: expected as usize,
            actual_values: 0,
        })
    } else {
        ||| failure == (CanvasFault::ResourceExhausted {
            operation: "retain transferred geometry"@,
            requested_items: line_count,
        })
        ||| exists|i: int|
            0 <= i < lengths.len() && #[trigger] lengths[i] != Some(
                (chunk_lines(line_count as int, lines_per_chunk as int, i) * values_per_line) as usize,
            ) && failure == (CanvasFault::InvalidTransfer {
                kind,
                expected_values: expected as usize,
                actual_values: values_before(
                    lengths.subrange(
                        0,
                        if lengths[i] is Some {
                            i + 1
                        } else {
                            i
                        },
                    ),
                ) as usize,
            }) && transfer_valid_before(
                lengths,
                line_count as int,
                lines_per_chunk as int,
                values_per_line as int,
                i,
            )
    }
}

/// The first chunks are what was announced.
pub open spec fn transfer_valid_before(
    lengths: Seq<Option<usize>>,
    line_count: int,
    lines_per_chunk: int,
    values_per_line: int,
    count: int,
) -> bool {
    forall|i: int|
        0 <= i < count ==> (#[trigger] lengths[i] matches Some(length) && length == chunk_lines(
            line_count,
            lines_per_chunk,
            i,
        ) * values_per_line)
}

/// Check transferred chunks before they are kept. Room to keep them may be
/// refused.
pub fn validate_chunks(
    lengths: &Vec<Option<usize>>,
    line_count: usize,
    lines_per_chunk: usize,
    values_per_line: usize,
    kind: &'static str,
) -> (r: Result<(), CanvasError>)
    requires
        lines_per_chunk > 0,
    ensures
        match r {
            Ok(()) => transfer_valid(
                lengths@,
                line_count as int,
                lines_per_chunk as int,
                values_per_line as int,
            ) && line_count * values_per_line <= usize::MAX,
            Err(error) => transfer_fault(
                lengths@,
                line_count,
                lines_per_chunk,
                values_per_line,
                kind@,
                error@,
            ),
        },
{
    let expected_values: usize = match line_count.checked_mul(values_per_line) {
        Some(values) => values,
        None => {
            return Err(
                CanvasError::InvalidTransfer {
                    kind,
                    expected_values: usize::MAX,
                    actual_values: 0,
                },
            );
        },
    };
    let whole: usize = line_count / lines_per_chunk;
    proof {
        let (n, d) = (line_count as int, lines_per_chunk as int);
        assert(n % d != 0 ==> n / d < n) by (nonlinear_arith)
            requires
                n >= 0,
                d > 0,
        ;
    }
    let expected_chunks: usize = if line_count % lines_per_chunk == 0 {
        whole
    } else {
        whole + 1
    };
    proof {
        lemma_chunk_count(line_count as int, lines_per_chunk as int);
    }
    if lengths.len() != expected_chunks {
        return Err(CanvasError::InvalidTransfer { kind, expected_values, actual_values: 0 });
    }
    let mut room: Vec<usize> = Vec::new();
    if !reserve_exact(&mut room, expected_chunks) {
        return Err(
            CanvasError::ResourceExhausted {
                operation: "retain transferred geometry",
                requested_items: line_count,
            },
        );
    }
    let ghost all = lengths@;
    let mut actual_values: usize = 0;
    let mut i: usize = 0;
    let mut remaining: usize = line_count;
    assert(all.subrange(0, 0) =~= Seq::empty());
    while i < lengths.len()
        invariant
            all == lengths@,
            lines_per_chunk > 0,
            i <= all.len(),
            all.len() == chunk_count(line_count as int, lines_per_chunk as int),
            expected_values == line_count * values_per_line,
            actual_values == values_before(all.subrange(0, i as int)),
            remaining == if line_count >= i * lines_per_chunk {
                line_count - i * lines_per_chunk
            } else {
                0
            },
            transfer_valid_before(
                all,
                line_count as int,
                lines_per_chunk as int,
                values_per_line as int,
                i as int,
            ),
        decreases all.len() - i,
    {
        proof {
            assert(all.subrange(0, i + 1).drop_last() =~= all.subrange(0, i as int));
        }
        let lines: usize = if remaining < lines_per_chunk {
            remaining
        } else {
            lines_per_chunk
        };
        proof {
            assert(lines == chunk_lines(line_count as int, lines_per_chunk as int, i as int));
            assert(0 <= lines * values_per_line <= line_count * values_per_line)
                by (nonlinear_arith)
                requires
                    0 <= lines <= line_count,
                    values_per_line >= 0,
            ;
        }
        let expected_chunk_values: usize = lines * values_per_line;
        let chunk_values: usize = match lengths[i] {
            Some(length) => length,
            None => {
                return Err(CanvasError::InvalidTransfer { kind, expected_values, actual_values });
            },
        };
        if chunk_values != expected_chunk_values {
            return Err(
                CanvasError::InvalidTransfer {
                    kind,
                    expected_values,
                    actual_values: actual_values.saturating_add(chunk_values),
                },
            );
        }
        actual_values = actual_values.saturating_add(chunk_values);
        proof {
            assert((i + 1) * lines_per_chunk == i * lines_per_chunk + lines_per_chunk)
                by (nonlinear_arith);
        }
        remaining = if remaining < lines_per_chunk {
            0
        } else {
            remaining - lines_per_chunk
        };
        i = i + 1;
    }
    Ok(())
}

proof fn lemma_chunk_count(line_count: int, lines_per_chunk: int)
    requires
        line_count >= 0,
        lines_per_chunk > 0,
    ensures
        chunk_count(line_count, lines_per_chunk) == if line_count % lines_per_chunk == 0 {
            line_count / lines_per_chunk
        } else {
            line_count / lines_per_chunk + 1
        },
{
    let q = line_count / lines_per_chunk;
    let m = line_count % lines_per_chunk;
    assert(line_count == q * lines_per_chunk + m && 0 <= m < lines_per_chunk) by (nonlinear_arith)
        requires
            q == line_count / lines_per_chunk,
            m == line_count % lines_per_chunk,
            lines_per_chunk > 0,
            line_count >= 0,
    ;
    if m == 0 {
        assert((q * lines_per_chunk + lines_per_chunk - 1) / lines_per_chunk == q)
            by (nonlinear_arith)
            requires
                lines_per_chunk > 0,
        ;
    } else {
        assert((q * lines_per_chunk + m + lines_per_chunk - 1) / lines_per_chunk == q + 1)
            by (nonlinear_arith)
            requires
                0 < m < lines_per_chunk,
        ;
    }
}

/// Where the values of a line begin: its chunk, and its place in it.
pub open spec fn slot_of(index: int, lines_per_chunk: int, values_per_line: int) -> (int, int) {
    (index / lines_per_chunk, (index % lines_per_chunk) * values_per_line)
}

pub fn line_slot(index: usize, lines_per_chunk: usize, values_per_line: usize) -> (r: (usize, usize))
    requires
        lines_per_chunk > 0,
        lines_per_chunk * values_per_line <= usize::MAX,
    ensures
        (r.0 as int, r.1 as int) == slot_of(
            index as int,
            lines_per_chunk as int,
            values_per_line as int,
        ),
{
    let place: usize = index % lines_per_chunk;
    assert(place * values_per_line <= lines_per_chunk * values_per_line) by (nonlinear_arith)
        requires
            0 <= place <= lines_per_chunk,
            values_per_line >= 0,
    ;
    (index / lines_per_chunk, place * values_per_line)
}

/// In a transfer that was accepted, every line lies within its chunk.
pub proof fn accepted_lines_are_in_their_chunks(
    lengths: Seq<Option<usize>>,
    line_count: int,
    lines_per_chunk: int,
    values_per_line: int,
    index: int,
)
    requires
        lines_per_chunk > 0,
        values_per_line >= 0,
        transfer_valid(lengths, line_count, lines_per_chunk, values_per_line),
        0 <= index < line_count,
    ensures
        ({
            let (chunk, offset) = slot_of(index, lines_per_chunk, values_per_line);
            &&& 0 <= chunk < lengths.len()
            &&& 0 <= offset
            &&& lengths[chunk] is Some
            &&& offset + values_per_line <= lengths[chunk]->Some_0
        }),
{
    let chunk = index / lines_per_chunk;
    let place = index % lines_per_chunk;
    lemma_chunk_count(line_count, lines_per_chunk);
    assert(index == chunk * lines_per_chunk + place && 0 <= place < lines_per_chunk && 0 <= chunk)
        by (nonlinear_arith)
        requires
            chunk == index / lines_per_chunk,
            place == index % lines_per_chunk,
            lines_per_chunk > 0,
            index >= 0,
    ;
    let q = line_count / lines_per_chunk;
    let m = line_count % lines_per_chunk;
    assert(line_count == q * lines_per_chunk + m && 0 <= m < lines_per_chunk) by (nonlinear_arith)
        requires
            q == line_count / lines_per_chunk,
            m == line_count % lines_per_chunk,
            lines_per_chunk > 0,
            line_count >= 0,
    ;
    assert(chunk <= q && (m == 0 ==> chunk < q)) by (nonlinear_arith)
        requires
            chunk * lines_per_chunk + place < q * lines_per_chunk + m,
            0 <= place,
            0 <= m < lines_per_chunk,
    ;
    assert(lengths[chunk] is Some);
    let lines = chunk_lines(line_count, lines_per_chunk, chunk);
    assert(place + 1 <= lines);
    assert(place * values_per_line + values_per_line <= lines * values_per_line && 0 <= place
        * values_per_line) by (nonlinear_arith)
        requires
            0 <= place,
            place + 1 <= lines,
            values_per_line >= 0,
    ;
}

/// The place in a stream that an item of a sample is taken from.
pub open spec fn sample_place(output_index: int, selected: int, total: int) -> int {
    if selected == total {
        output_index
    } else if selected <= 1 {
        total / 2
    } else {
        (output_index * (total - 1)) / (selected - 1)
    }
}

pub fn representative_index(output_index: usize, selected: usize, total: usize) -> (r: usize)
    requires
        output_index < selected <= total,
    ensures
        r == sample_place(output_index as int, selected as int, total as int),
        r < total,
{
    if selected == total {
        output_index
    } else if selected <= 1 {
        total / 2
    } else {
        proof {
            assert(output_index * (total - 1) <= 0xffff_ffff_ffff_ffff * 0xffff_ffff_ffff_ffff)
                by (nonlinear_arith)
                requires
                    0 <= output_index <= 0xffff_ffff_ffff_ffff,
                    0 <= total - 1 <= 0xffff_ffff_ffff_ffff,
            ;
            samples_span_the_stream(output_index as int, selected as int, total as int);
        }
        let product: u128 = (output_index as u128) * ((total - 1) as u128);
        (product / ((selected - 1) as u128)) as usize
    }
}

/// A sample is taken from within the stream, in its order and without
/// repetition, and reaches from its first item to its last.
pub proof fn samples_span_the_stream(output_index: int, selected: int, total: int)
    requires
        0 <= output_index < selected <= total,
    ensures
        0 <= sample_place(output_index, selected, total) < total,
        selected > 1 && output_index == 0 ==> sample_place(output_index, selected, total) == 0,
        selected > 1 && output_index == selected - 1 ==> sample_place(
            output_index,
            selected,
            total,
        ) == total - 1,
        output_index + 1 < selected ==> sample_place(output_index, selected, total)
            < sample_place(output_index + 1, selected, total),
{
    if selected != total && selected > 1 {
        let (n, d) = (total - 1, selected - 1);
        let i = output_index;
        assert(0 <= i * n / d <= n && (i == 0 ==> i * n / d == 0) && (i == d ==> i * n / d == n))
            by (nonlinear_arith)
            requires
                0 <= i <= d,
                d > 0,
                n >= 0,
        ;
        assert(i * n / d < (i + 1) * n / d) by (nonlinear_arith)
            requires
                0 <= i,
                0 < d < n,
        {
            assert((i + 1) * n == i * n + n);
            assert((i * n + n) / d >= (i * n + d) / d);
            assert((i * n + d) / d == i * n / d + 1);
        }
    }
}

/// How far an exact drawing has come.
#[derive(Debug, Clone, Copy, PartialEq, Eq, Structural)]
pub struct RefinementProgress {
    pub completed: usize,
    pub total: usize,
    pub cancelled: bool,
    /// True only when exact lines belong on the transparent overlay.
    pub uses_exact_overlay: bool,
}

impl RefinementProgress {
    pub open spec fn done(self) -> bool {
        self.completed >= self.total
    }

    pub open spec fn refining(self) -> bool {
        self.uses_exact_overlay && !self.cancelled && !self.done()
    }

    pub fn is_complete(self) -> (r: bool)
        ensures
            r == self.done(),
    {
        self.completed >= self.total
    }

    pub fn is_refining(self) -> (r: bool)
        ensures
            r == self.refining(),
    {
        self.uses_exact_overlay && !self.cancelled && !self.is_complete()
    }
}

/// Camera gestures apply to geometric turtle scenes, including filled
/// polygons. Inspector text retains its fixed presentation semantics.
pub fn planar_navigation_enabled(
    line_count: usize,
    polygon_count: usize,
    text_count: usize,
) -> (r: bool)
    ensures
        r == ((line_count > 0 || polygon_count > 0) && text_count == 0),
{
    (line_count > 0 || polygon_count > 0) && text_count == 0
}

/// What identifies the pixels of a view: two views with equal keys look the
/// same. Numbers stand for themselves by their patterns.
#[derive(Debug, Clone, Copy, PartialEq, Eq, Structural)]
pub struct RenderKey {
    pub logical_width: u64,
    pub logical_height: u64,
    pub device_pixel_ratio: u64,
    pub backing_width: u32,
    pub backing_height: u32,
    /// The zoom and the focus of a planar view, or the four components of the
    /// orientation of a spatial one.
    pub camera: CameraKey,
    pub dark: bool,
    pub line_width_scale: u64,
}

#[derive(Debug, Clone, Copy, PartialEq, Eq, Structural)]
pub enum CameraKey {
    Planar { zoom: u64, focus_x: u64, focus_y: u64 },
    Spatial { w: u64, x: u64, y: u64, z: u64 },
}

/// The size of a canvas.
#[derive(Debug, Clone, Copy, PartialEq, Eq, Structural)]
pub struct CanvasViewport {
    pub logical_width: Real,
    pub logical_height: Real,
    pub device_pixel_ratio: Real,
    pub backing_width: u32,
    pub backing_height: u32,
}

/// A width scale, where it can be used.
pub open spec fn width_scale(value: Real) -> Real {
    if usable(value) {
        value
    } else {
        Real { bits: ONE_BITS }
    }
}

pub fn valid_line_width_scale(value: Real) -> (r: Real)
    ensures
        r == width_scale(value),
{
    positive_finite_or(value, Real { bits: ONE_BITS })
}

pub fn positive_finite_or(value: Real, fallback: Real) -> (r: Real)
    ensures
        r == if usable(value) { value } else { fallback },
{
    if value.is_finite() && value.is_positive() {
        value
    } else {
        fallback
    }
}

impl RenderKey {
    pub fn new(
        viewport: CanvasViewport,
        camera: CameraKey,
        dark: bool,
        line_width_scale: Real,
    ) -> (r: RenderKey)
        ensures
            r == (RenderKey {
                logical_width: viewport.logical_width.bits,
                logical_height: viewport.logical_height.bits,
                device_pixel_ratio: viewport.device_pixel_ratio.bits,
                backing_width: viewport.backing_width,
                backing_height: viewport.backing_height,
                camera,
                dark,
                line_width_scale: width_scale(line_width_scale).bits,
            }),
    {
        RenderKey {
            logical_width: viewport.logical_width.bits,
            logical_height: viewport.logical_height.bits,
            device_pixel_ratio: viewport.device_pixel_ratio.bits,
            backing_width: viewport.backing_width,
            backing_height: viewport.backing_height,
            camera,
            dark,
            line_width_scale: valid_line_width_scale(line_width_scale).bits,
        }
    }
}

/// What is drawn into the base of a view.
#[derive(Debug, Clone, Copy, PartialEq, Eq, Structural)]
pub struct BasePlan {
    /// Whether the overlay shows another view and is to be cleared.
    pub clear_overlay: bool,
    /// How many lines are drawn, spread over the whole stream.
    pub selected: usize,
    /// Whether a frame stands for a scene without anything in it.
    pub placeholder: bool,
}

/// What is drawn into the overlay of a view.
#[derive(Debug, Clone, Copy, PartialEq, Eq)]
pub struct ExactPlan {
    pub clear: bool,
    /// The lines from the first up to, but not with, the second are drawn.
    pub lines: (usize, usize),
    pub progress: RefinementProgress,
}

/// How far the exact drawing of a planar scene has come.
#[derive(Debug)]
pub struct Refinement {
    pub line_count: usize,
    pub polygon_count: usize,
    pub text_count: usize,
    pub refined: usize,
    pub cancelled: bool,
    /// The view that the overlay shows.
    pub target: Option<RenderKey>,
}

impl Refinement {
    /// Only lines alone go to the overlay: their order among fills and texts
    /// would be lost there.
    pub open spec fn overlay(self) -> bool {
        self.polygon_count == 0 && self.text_count == 0 && self.line_count > PREVIEW_LINES
    }

    pub open spec fn valid(self) -> bool {
        &&& self.refined <= self.line_count
        &&& !self.overlay() ==> self.refined == self.line_count
        &&& self.line_count + self.polygon_count + self.text_count <= usize::MAX
    }

    pub open spec fn state(self) -> RefinementProgress {
        RefinementProgress {
            completed: self.refined,
            total: self.line_count,
            cancelled: self.cancelled,
            uses_exact_overlay: self.overlay(),
        }
    }

    /// What a new view leaves of an exact drawing.
    pub open spec fn begun_again(self) -> Refinement {
        Refinement {
            refined: if !self.cancelled && self.overlay() {
                0
            } else {
                self.refined
            },
            target: None,
            ..self
        }
    }

    pub fn uses_exact_overlay(&self) -> (r: bool)
        ensures
            r == self.overlay(),
    {
        self.polygon_count == 0 && self.text_count == 0 && self.line_count > PREVIEW_LINES
    }

    /// The state for a scene that has arrived, unless it has too many elements.
    pub fn for_scene(line_count: usize, polygon_count: usize, text_count: usize) -> (r: Result<
        Refinement,
        CanvasError,
    >)
        ensures
            match r {
                Ok(state) => {
                    &&& state.valid()
                    &&& state.line_count == line_count
                    &&& state.polygon_count == polygon_count
                    &&& state.text_count == text_count
                    &&& state.refined == (if state.overlay() { 0 } else { line_count })
                    &&& !state.cancelled
                    &&& state.target is None
                },
                Err(error) => line_count + polygon_count + text_count > usize::MAX && error@
                    == CanvasFault::InvalidMetadata("browser scene contains too many elements"@),
            },
    {
        let fits: bool = match line_count.checked_add(polygon_count) {
            Some(count) => match count.checked_add(text_count) {
                Some(_) => true,
                None => false,
            },
            None => false,
        };
        if !fits {
            return Err(bad_metadata("browser scene contains too many elements"));
        }
        let mut state: Refinement = Refinement {
            line_count,
            polygon_count,
            text_count,
            refined: line_count,
            cancelled: false,
            target: None,
        };
        if state.uses_exact_overlay() {
            state.refined = 0;
        }
        Ok(state)
    }

    pub fn element_count(&self) -> (r: usize)
        requires
            self.valid(),
        ensures
            r == self.line_count + self.polygon_count + self.text_count,
    {
        self.line_count + self.polygon_count + self.text_count
    }

    pub fn refinement_progress(&self) -> (r: RefinementProgress)
        ensures
            r == self.state(),
    {
        RefinementProgress {
            completed: self.refined,
            total: self.line_count,
            cancelled: self.cancelled,
            uses_exact_overlay: self.uses_exact_overlay(),
        }
    }

    /// Cancellation is sticky across camera changes. Any partial exact layer
    /// is to be cleared at once so the complete representative preview
    /// remains: the result says whether there is one.
    pub fn cancel_refinement(&mut self) -> (r: bool)
        requires
            old(self).valid(),
        ensures
            final(self).valid(),
            if old(self).state().refining() {
                *final(self) == (Refinement { cancelled: true, target: None, ..*old(self) }) && r
                    == old(self).target is Some
            } else {
                *final(self) == *old(self) && !r
            },
    {
        if !self.refinement_progress().is_refining() {
            return false;
        }
        self.cancelled = true;
        let clear: bool = self.target.is_some();
        self.target = None;
        clear
    }

    /// Starts an exact pass for a settled view unless manual cancellation was
    /// requested. The result says whether a layer is to be cleared.
    pub fn restart_view_refinement(&mut self) -> (r: bool)
        requires
            old(self).valid(),
        ensures
            final(self).valid(),
            *final(self) == old(self).begun_again(),
            r == old(self).target is Some,
    {
        let clear: bool = self.target.is_some();
        self.target = None;
        if !self.cancelled && self.uses_exact_overlay() {
            self.refined = 0;
        }
        clear
    }

    /// Plan the base of a view. Mixed scenes always have all lines here,
    /// because they have no exact overlay.
    pub fn base_plan(&mut self, key: RenderKey, with_preview_lines: bool) -> (r: BasePlan)
        requires
            old(self).valid(),
        ensures
            final(self).valid(),
            ({
                let stale = old(self).target is Some && old(self).target != Some(key);
                &&& *final(self) == if stale { old(self).begun_again() } else { *old(self) }
                &&& r.clear_overlay == stale
                &&& r.selected == (if !old(self).overlay() {
                    old(self).line_count
                } else if with_preview_lines {
                    PREVIEW_LINES
                } else {
                    0
                })
                &&& r.placeholder == (old(self).line_count == 0 && old(self).polygon_count == 0
                    && old(self).text_count == 0)
            }),
    {
        let stale: bool = match self.target {
            Some(target) => target != key,
            None => false,
        };
        if stale {
            let _ = self.restart_view_refinement();
        }
        let selected: usize = if !self.uses_exact_overlay() {
            self.line_count
        } else if with_preview_lines {
            PREVIEW_LINES
        } else {
            0
        };
        BasePlan { clear_overlay: stale, selected, placeholder: self.element_count() == 0 }
    }

    /// The exact drawing after one more batch, and what the batch draws.
    pub open spec fn exact_step(self, fresh: bool, key: RenderKey) -> (Refinement, ExactPlan) {
        let none = (0usize, 0usize);
        if !self.overlay() || self.cancelled {
            (self, ExactPlan { clear: true, lines: none, progress: self.state() })
        } else {
            let same = !fresh && self.target == Some(key);
            let start = if same { self.refined } else { 0 };
            let at = Refinement { refined: start, target: Some(key), ..self };
            if start >= self.line_count {
                (at, ExactPlan { clear: !same, lines: none, progress: at.state() })
            } else {
                let end = if start + EXACT_LINES_PER_BATCH < self.line_count {
                    (start + EXACT_LINES_PER_BATCH) as usize
                } else {
                    self.line_count
                };
                let next = Refinement { refined: end, ..at };
                (
                    next,
                    ExactPlan {
                        clear: !same || start == 0,
                        lines: (start, end),
                        progress: next.state(),
                    },
                )
            }
        }
    }

    /// Plan the next batch of at most 2,048 exact segments. The first batch for
    /// a new canvas or view clears stale pixels. `fresh` says that the canvas
    /// is another one or was resized.
    pub fn exact_batch(&mut self, fresh: bool, key: RenderKey) -> (r: ExactPlan)
        requires
            old(self).valid(),
        ensures
            final(self).valid(),
            (*final(self), r) == old(self).exact_step(fresh, key),
    {
        if !self.uses_exact_overlay() || self.cancelled {
            return ExactPlan {
                clear: true,
                lines: (0, 0),
                progress: self.refinement_progress(),
            };
        }
        let same: bool = !fresh && match self.target {
            Some(target) => target == key,
            None => false,
        };
        if !same {
            self.refined = 0;
        }
        self.target = Some(key);
        let start: usize = self.refined;
        if start >= self.line_count {
            return ExactPlan {
                clear: !same,
                lines: (0, 0),
                progress: self.refinement_progress(),
            };
        }
        let end: usize = if self.line_count - start > EXACT_LINES_PER_BATCH {
            start + EXACT_LINES_PER_BATCH
        } else {
            self.line_count
        };
        self.refined = end;
        ExactPlan {
            clear: !same || start == 0,
            lines: (start, end),
            progress: self.refinement_progress(),
        }
    }
}

/// The exact drawing after so many batches of one view.
pub open spec fn refined_after(state: Refinement, key: RenderKey, batches: nat) -> Refinement
    decreases batches,
{
    if batches == 0 {
        state
    } else {
        refined_after(state.exact_step(false, key).0, key, (batches - 1) as nat)
    }
}

/// In a view that does not change, batches draw the lines from the first to
/// the last, each once: a batch begins where the one before it ended.
pub proof fn exact_batches_follow_each_other(state: Refinement, key: RenderKey)
    requires
        state.valid(),
        state.overlay(),
        !state.cancelled,
        state.target == Some(key),
    ensures
        ({
            let (next, plan) = state.exact_step(false, key);
            &&& next.target == Some(key) && next.overlay() && !next.cancelled && next.valid()
            &&& state.refined < state.line_count ==> plan.lines == (state.refined, next.refined)
                && state.refined < next.refined <= state.line_count
            &&& state.refined == state.line_count ==> plan.lines == (0usize, 0usize)
                && next.refined == state.refined
            &&& next.refined - state.refined <= EXACT_LINES_PER_BATCH
        }),
{
}

/// Enough batches complete a view.
pub proof fn exact_drawing_completes(state: Refinement, key: RenderKey, batches: nat)
    requires
        state.valid(),
        state.overlay(),
        !state.cancelled,
        state.target == Some(key),
        batches * EXACT_LINES_PER_BATCH >= state.line_count - state.refined,
    ensures
        refined_after(state, key, batches).refined == state.line_count,
        refined_after(state, key, batches).state().done(),
    decreases batches,
{
    exact_batches_follow_each_other(state, key);
    if batches > 0 {
        let next = state.exact_step(false, key).0;
        assert((batches - 1) * EXACT_LINES_PER_BATCH == batches * EXACT_LINES_PER_BATCH
            - EXACT_LINES_PER_BATCH) by (nonlinear_arith);
        if state.refined == state.line_count {
            assert(0 <= (batches - 1) * EXACT_LINES_PER_BATCH) by (nonlinear_arith)
                requires
                    batches > 0,
            ;
        }
        exact_drawing_completes(next, key, (batches - 1) as nat);
    }
}

/// A cancelled drawing stays cancelled, whatever the view does.
pub proof fn cancellation_is_sticky(state: Refinement, key: RenderKey, fresh: bool)
    requires
        state.cancelled,
    ensures
        state.begun_again().cancelled,
        state.begun_again().refined == state.refined,
        state.exact_step(fresh, key).0 == state,
        !state.state().refining(),
{
}

/// A number of device pixels, or why there is none.
pub open spec fn pixels_of(logical: Real, scale: Real, ev: spec_fn(Arithmetic) -> Real) -> Option<
    int,
> {
    let pixels = ev(Arithmetic::Ceiling(ev(Arithmetic::Product(logical, scale))));
    if usable(pixels) && pixels.at_most(Real { bits: LARGEST_U32_BITS }) {
        Some(pixels.floor_up_to(u32::MAX as int))
    } else {
        None
    }
}

/// The pattern of the largest 32-bit whole number.
pub const LARGEST_U32_BITS: u64 = 0x41ef_ffff_ffe0_0000;

pub fn backing_dimension<C: Fn(Arithmetic) -> Real>(logical: Real, scale: Real, calc: &C) -> (r:
    Result<u32, CanvasError>)
    requires
        calculates(*calc),
    ensures
        match r {
            Ok(pixels) => pixels_of(logical, scale, answers(*calc)) == Some(pixels as int),
            Err(error) => pixels_of(logical, scale, answers(*calc)) is None && error@
                == CanvasFault::InvalidMetadata(
                "browser canvas dimensions are outside the supported range"@,
            ),
        },
{
    let product: Real = calculate(calc, Arithmetic::Product(logical, scale));
    let pixels: Real = calculate(calc, Arithmetic::Ceiling(product));
    if !pixels.is_finite() || !pixels.is_positive() || !pixels.less_equal(
        Real { bits: LARGEST_U32_BITS },
    ) {
        return Err(bad_metadata("browser canvas dimensions are outside the supported range"));
    }
    Ok(pixels.floored(0xffff_ffff) as u32)
}

/// The bounds of a planar scene.
#[derive(Debug, Clone, Copy, PartialEq, Eq, Structural)]
pub struct PlanarBounds {
    pub min_x: Real,
    pub max_x: Real,
    pub min_y: Real,
    pub max_y: Real,
}

/// Bounds that arrived are finite and in order.
pub open spec fn bounds_valid(bounds: [Single; 4]) -> bool {
    &&& bounds[0].finite() && bounds[1].finite() && bounds[2].finite() && bounds[3].finite()
    &&& bounds[0].rank() <= bounds[1].rank()
    &&& bounds[2].rank() <= bounds[3].rank()
}

/// Spatial bounds that arrived are finite and in order.
pub open spec fn bounds_valid_3d(bounds: [Single; 6]) -> bool {
    &&& bounds[0].finite() && bounds[1].finite() && bounds[2].finite() && bounds[3].finite()
    &&& bounds[4].finite() && bounds[5].finite()
    &&& bounds[0].rank() <= bounds[1].rank()
    &&& bounds[2].rank() <= bounds[3].rank()
    &&& bounds[4].rank() <= bounds[5].rank()
}

fn invalid_bounds(label: &str, spatial: bool) -> (r: CanvasError)
    ensures
        r@ == CanvasFault::InvalidMetadata(
            "browser worker returned invalid "@ + label@ + if spatial {
                " spatial bounds"@
            } else {
                " bounds"@
            },
        ),
{
    let mut message: String = "browser worker returned invalid ".to_owned();
    message.append(label);
    if spatial {
        message.append(" spatial bounds");
    } else {
        message.append(" bounds");
    }
    CanvasError::InvalidMetadata(message)
}

fn widened<C: Fn(Arithmetic) -> Real>(value: Single, calc: &C) -> (r: Real)
    requires
        calculates(*calc),
    ensures
        r == answers(*calc)(Arithmetic::Widened(value.bits)),
{
    calculate(calc, Arithmetic::Widened(value.bits))
}

/// Check bounds that arrived.
pub fn validate_bounds<C: Fn(Arithmetic) -> Real>(
    bounds: Option<[Single; 4]>,
    label: &'static str,
    calc: &C,
) -> (r: Result<Option<PlanarBounds>, CanvasError>)
    requires
        calculates(*calc),
    ensures
        match r {
            Ok(checked) => match bounds {
                None => checked is None,
                Some(bounds) => bounds_valid(bounds) && checked == Some(
                    PlanarBounds {
                        min_x: answers(*calc)(Arithmetic::Widened(bounds[0].bits)),
                        max_x: answers(*calc)(Arithmetic::Widened(bounds[1].bits)),
                        min_y: answers(*calc)(Arithmetic::Widened(bounds[2].bits)),
                        max_y: answers(*calc)(Arithmetic::Widened(bounds[3].bits)),
                    },
                ),
            },
            Err(error) => bounds is Some && !bounds_valid(bounds->Some_0) && error@
                == CanvasFault::InvalidMetadata(
                "browser worker returned invalid "@ + label@ + " bounds"@,
            ),
        },
{
    match bounds {
        None => Ok(None),
        Some(bounds) => {
            let (a, b, c, d): (Single, Single, Single, Single) = (
                bounds[0],
                bounds[1],
                bounds[2],
                bounds[3],
            );
            if !a.is_finite() || !b.is_finite() || !c.is_finite() || !d.is_finite() || a.exceeds(b)
                || c.exceeds(d) {
                return Err(invalid_bounds(label, false));
            }
            Ok(
                Some(
                    PlanarBounds {
                        min_x: widened(a, calc),
                        max_x: widened(b, calc),
                        min_y: widened(c, calc),
                        max_y: widened(d, calc),
                    },
                ),
            )
        },
    }
}

/// Check spatial bounds that arrived.
pub fn validate_bounds_3d(bounds: Option<[Single; 6]>, label: &'static str) -> (r: Result<
    (),
    CanvasError,
>)
    ensures
        match r {
            Ok(()) => bounds is Some ==> bounds_valid_3d(bounds->Some_0),
            Err(error) => bounds is Some && !bounds_valid_3d(bounds->Some_0) && error@
                == CanvasFault::InvalidMetadata(
                "browser worker returned invalid "@ + label@ + " spatial bounds"@,
            ),
        },
{
    match bounds {
        None => Ok(()),
        Some(bounds) => {
            let (a, b, c): (Single, Single, Single) = (bounds[0], bounds[1], bounds[2]);
            let (d, e, f): (Single, Single, Single) = (bounds[3], bounds[4], bounds[5]);
            if !a.is_finite() || !b.is_finite() || !c.is_finite() || !d.is_finite()
                || !e.is_finite() || !f.is_finite() || a.exceeds(b) || c.exceeds(d)
                || e.exceeds(f) {
                return Err(invalid_bounds(label, true));
            }
            Ok(())
        },
    }
}

/// The bounds with one more vertex inside.
pub open spec fn bounds_with_vertex(bounds: Option<PlanarBounds>, vertex: (Real, Real)) -> PlanarBounds {
    match bounds {
        Some(bounds) => PlanarBounds {
            min_x: bounds.min_x.lower(vertex.0),
            max_x: bounds.max_x.upper(vertex.0),
            min_y: bounds.min_y.lower(vertex.1),
            max_y: bounds.max_y.upper(vertex.1),
        },
        None => PlanarBounds {
            min_x: vertex.0,
            max_x: vertex.0,
            min_y: vertex.1,
            max_y: vertex.1,
        },
    }
}

pub open spec fn bounds_with_vertices(
    bounds: Option<PlanarBounds>,
    vertices: Seq<(Real, Real)>,
) -> Option<PlanarBounds>
    decreases vertices.len(),
{
    if vertices.len() == 0 {
        bounds
    } else {
        Some(
            bounds_with_vertex(
                bounds_with_vertices(bounds, vertices.drop_last()),
                vertices.last(),
            ),
        )
    }
}

pub open spec fn vertices_finite(vertices: Seq<(Real, Real)>) -> bool {
    forall|i: int|
        0 <= i < vertices.len() ==> (#[trigger] vertices[i]).0.finite() && vertices[i].1.finite()
}

/// The bounds with some more polygons inside.
pub open spec fn bounds_with_polygons(
    bounds: Option<PlanarBounds>,
    polygons: Seq<Vec<(Real, Real)>>,
) -> Option<PlanarBounds>
    decreases polygons.len(),
{
    if polygons.len() == 0 {
        bounds
    } else {
        bounds_with_vertices(bounds_with_polygons(bounds, polygons.drop_last()), polygons.last()@)
    }
}

pub open spec fn polygons_finite(polygons: Seq<Vec<(Real, Real)>>) -> bool {
    forall|i: int| 0 <= i < polygons.len() ==> vertices_finite((#[trigger] polygons[i])@)
}

/// Line bounds exclude separately transferred fills. Fold polygon vertices in,
/// so that filled or polygon-only scenes fit exactly.
pub fn bounds_including_polygons(
    bounds: Option<PlanarBounds>,
    polygons: &Vec<Vec<(Real, Real)>>,
) -> (r: Result<Option<PlanarBounds>, CanvasError>)
    ensures
        match r {
            Ok(all) => polygons_finite(polygons@) && all == bounds_with_polygons(
                bounds,
                polygons@,
            ),
            Err(error) => !polygons_finite(polygons@) && error@ == CanvasFault::InvalidMetadata(
                "browser worker returned a polygon with a non-finite vertex"@,
            ),
        },
{
    let mut all: Option<PlanarBounds> = bounds;
    let mut i: usize = 0;
    assert(polygons@.subrange(0, 0) =~= Seq::empty());
    while i < polygons.len()
        invariant
            i <= polygons@.len(),
            all == bounds_with_polygons(bounds, polygons@.subrange(0, i as int)),
            forall|k: int| 0 <= k < i ==> vertices_finite((#[trigger] polygons@[k])@),
        decreases polygons@.len() - i,
    {
        let vertices: &Vec<(Real, Real)> = &polygons[i];
        let ghost before = all;
        let mut k: usize = 0;
        assert(vertices@.subrange(0, 0) =~= Seq::empty());
        while k < vertices.len()
            invariant
                i < polygons@.len(),
                vertices == polygons@[i as int],
                k <= vertices@.len(),
                all == bounds_with_vertices(before, vertices@.subrange(0, k as int)),
                forall|m: int|
                    0 <= m < k ==> (#[trigger] vertices@[m]).0.finite() && vertices@[m].1.finite(),
            decreases vertices@.len() - k,
        {
            let (x, y): (Real, Real) = vertices[k];
            if !x.is_finite() || !y.is_finite() {
                assert(!vertices_finite(vertices@)) by {
                    assert(!(vertices@[k as int].0.finite() && vertices@[k as int].1.finite()));
                }
                assert(!polygons_finite(polygons@)) by {
                    assert(!vertices_finite(polygons@[i as int]@));
                }
                return Err(
                    bad_metadata("browser worker returned a polygon with a non-finite vertex"),
                );
            }
            assert(vertices@.subrange(0, k + 1).drop_last() =~= vertices@.subrange(0, k as int));
            all = Some(
                match all {
                    Some(known) => PlanarBounds {
                        min_x: known.min_x.min(x),
                        max_x: known.max_x.max(x),
                        min_y: known.min_y.min(y),
                        max_y: known.max_y.max(y),
                    },
                    None => PlanarBounds { min_x: x, max_x: x, min_y: y, max_y: y },
                },
            );
            k = k + 1;
        }
        assert(vertices@.subrange(0, k as int) =~= vertices@);
        assert(polygons@.subrange(0, i + 1).drop_last() =~= polygons@.subrange(0, i as int));
        i = i + 1;
    }
    assert(polygons@.subrange(0, i as int) =~= polygons@);
    Ok(all)
}

/// Check the summary of line lengths that arrived.
pub fn validate_line_length(length: Option<Real>, label: &'static str) -> (r: Result<
    (),
    CanvasError,
>)
    ensures
        match r {
            Ok(()) => length is Some ==> usable(length->Some_0),
            Err(error) => length is Some && !usable(length->Some_0) && error@
                == CanvasFault::InvalidMetadata(
                "browser worker returned an invalid "@ + label@ + " line-length summary"@,
            ),
        },
{
    match length {
        None => Ok(()),
        Some(length) => {
            if length.is_finite() && length.is_positive() {
                Ok(())
            } else {
                let mut message: String = "browser worker returned an invalid ".to_owned();
                message.append(label);
                message.append(" line-length summary");
                Err(CanvasError::InvalidMetadata(message))
            }
        },
    }
}

/// Check the reference of spatial widths that arrived: a finite number of at
/// least one.
pub fn validate_width_reference(reference: Option<Real>) -> (r: Result<Real, CanvasError>)
    ensures
        match r {
            Ok(value) => reference == Some(value) && value.finite() && (Real {
                bits: ONE_BITS,
            }).at_most(value),
            Err(error) => !(reference is Some && reference->Some_0.finite() && (Real {
                bits: ONE_BITS,
            }).at_most(reference->Some_0)) && error@ == CanvasFault::InvalidMetadata(
                "browser Worker produced an invalid 3D width reference"@,
            ),
        },
{
    match reference {
        Some(value) => {
            if value.is_finite() && (Real { bits: ONE_BITS }).less_equal(value) {
                return Ok(value);
            }
        },
        None => {},
    }
    Err(bad_metadata("browser Worker produced an invalid 3D width reference"))
}

/// The widths of a line, where it is drawn.
pub open spec fn drawn_width(width: Single, ev: spec_fn(Arithmetic) -> Real) -> Option<Real> {
    if width.finite() && width.rank() > 0 {
        Some(ev(Arithmetic::Widened(width.bits)))
    } else {
        None
    }
}

pub fn positive_width<C: Fn(Arithmetic) -> Real>(width: Single, calc: &C) -> (r: Option<Real>)
    requires
        calculates(*calc),
    ensures
        r == drawn_width(width, answers(*calc)),
{
    if width.is_usable() {
        Some(widened(width, calc))
    } else {
        None
    }
}

/// The multiplier of a spatial line, where it is drawn.
pub open spec fn spatial_multiplier(
    width: Single,
    reference: Real,
    ev: spec_fn(Arithmetic) -> Real,
) -> Option<Real> {
    let multiplier = normalized_width(ev(Arithmetic::Widened(width.bits)), reference, ev);
    if (Real { bits: 0 }).below(multiplier) {
        Some(multiplier)
    } else {
        None
    }
}

pub fn spatial_width_multiplier<C: Fn(Arithmetic) -> Real>(
    width: Single,
    width_reference: Real,
    calc: &C,
) -> (r: Option<Real>)
    requires
        calculates(*calc),
    ensures
        r == spatial_multiplier(width, width_reference, answers(*calc)),
{
    let source: Real = widened(width, calc);
    let multiplier: Real = normalized_turtle_3d_width(source, width_reference, calc);
    if multiplier.is_positive() {
        Some(multiplier)
    } else {
        None
    }
}

/// A width that can be drawn with, if it can.
pub open spec fn drawable(width: Real) -> Option<Real> {
    if usable(width) {
        Some(width)
    } else {
        None
    }
}

fn drawable_width(width: Real) -> (r: Option<Real>)
    ensures
        r == drawable(width),
{
    if width.is_finite() && width.is_positive() {
        Some(width)
    } else {
        None
    }
}

/// The width that a planar line is drawn with, where it is drawn.
pub fn planar_line_width<C: Fn(Arithmetic) -> Real>(width: Single, base_width: Real, calc: &C) -> (r:
    Option<Real>)
    requires
        calculates(*calc),
    ensures
        r == match drawn_width(width, answers(*calc)) {
            Some(multiplier) => drawable(
                answers(*calc)(Arithmetic::Product(base_width, multiplier)),
            ),
            None => None,
        },
{
    match positive_width(width, calc) {
        Some(multiplier) => drawable_width(
            calculate(calc, Arithmetic::Product(base_width, multiplier)),
        ),
        None => None,
    }
}

/// The width that a spatial line is drawn with, where it is drawn.
pub fn spatial_line_width<C: Fn(Arithmetic) -> Real>(
    width: Single,
    width_reference: Real,
    base_width: Real,
    scale: Real,
    calc: &C,
) -> (r: Option<Real>)
    requires
        calculates(*calc),
    ensures
        r == match spatial_multiplier(width, width_reference, answers(*calc)) {
            Some(multiplier) => drawable(
                answers(*calc)(
                    Arithmetic::Product(
                        answers(*calc)(Arithmetic::Product(base_width, multiplier)),
                        scale,
                    ),
                ),
            ),
            None => None,
        },
{
    match spatial_width_multiplier(width, width_reference, calc) {
        Some(multiplier) => {
            let based: Real = calculate(calc, Arithmetic::Product(base_width, multiplier));
            drawable_width(calculate(calc, Arithmetic::Product(based, scale)))
        },
        None => None,
    }
}

pub fn target_palette(dark: bool) -> (r: Palette)
    ensures
        r == if dark { Palette::Dark } else { Palette::Light },
{
    if dark {
        Palette::Dark
    } else {
        Palette::Light
    }
}

/// The background that is shown.
pub open spec fn background_of(source: Option<[u8; 3]>, dark: bool) -> [u8; 3] {
    match source {
        Some(rgb) => rgb,
        None => if dark {
            [15u8, 20, 32]
        } else {
            [242u8, 245, 249]
        },
    }
}

pub fn display_background(source: Option<[u8; 3]>, dark: bool) -> (r: [u8; 3])
    ensures
        r == background_of(source, dark),
{
    match source {
        Some(rgb) => rgb,
        None => if dark {
            [15, 20, 32]
        } else {
            [242, 245, 249]
        },
    }
}

pub fn themed_foreground(dark: bool) -> (r: [u8; 3])
    ensures
        r == if dark { [238u8, 242, 248] } else { [38u8, 50, 71] },
{
    if dark {
        [238, 242, 248]
    } else {
        [38, 50, 71]
    }
}

/// The colour in which a text is painted, by its role.
pub fn painted_text_rgb(role: TextRole, dark: bool) -> (r: [u8; 3])
    ensures
        r == match role {
            TextRole::Muted => [125u8, 137, 154],
            TextRole::Error => [220u8, 80, 80],
            _ => if dark {
                [238u8, 242, 248]
            } else {
                [38u8, 50, 71]
            },
        },
{
    match role {
        TextRole::Muted => [125, 137, 154],
        TextRole::Error => [220, 80, 80],
        _ => themed_foreground(dark),
    }
}

/// The pattern of sixteen.
pub const DEFAULT_TEXT_SIZE_BITS: u64 = 0x4030_0000_0000_0000;

/// The size and the place at which a text is painted: sixteen pixels where its
/// own size is none, and zero where a coordinate is none.
pub fn painted_text_place(text: &CanvasText) -> (r: (Real, Point2d))
    ensures
        r.0 == if text.size.finite() && (Real { bits: 0 }).below(text.size) {
            text.size
        } else {
            Real { bits: DEFAULT_TEXT_SIZE_BITS }
        },
        r.1 == (
            finite_else(text.x, Real { bits: 0 }),
            finite_else(text.y, Real { bits: 0 }),
        ),
{
    let zero: Real = Real { bits: 0 };
    let size: Real = if text.size.is_finite() && zero.less_than(text.size) {
        text.size
    } else {
        Real { bits: DEFAULT_TEXT_SIZE_BITS }
    };
    (size, (finite_or(text.x, zero), finite_or(text.y, zero)))
}

/// The colour that fills a planar polygon: the selected one, or the middle of
/// the theme's ramp.
pub fn planar_fill_color(color: StrokeColor, dark: bool) -> (r: ResolvedColor)
    ensures
        r == match crate::palette::stroke_rgb(
            color,
            if dark { Palette::Dark } else { Palette::Light },
        ) {
            Some(rgb) => ResolvedColor::Rgb(rgb),
            None => ResolvedColor::Palette(SPATIAL_THEME_DEFAULT_COLOR_BUCKETS / 2),
        },
{
    resolve_styled_color(color, SPATIAL_THEME_DEFAULT_COLOR_BUCKETS / 2, dark)
}

/// A colour in the notation of style sheets.
pub open spec fn css_text(rgb: [u8; 3]) -> Seq<char> {
    "rgb("@ + decimal(rgb[0] as int) + " "@ + decimal(rgb[1] as int) + " "@ + decimal(
        rgb[2] as int,
    ) + ")"@
}

pub fn css_rgb(rgb: [u8; 3]) -> (r: String)
    ensures
        r@ == css_text(rgb),
{
    let mut out: String = "rgb(".to_owned();
    push_decimal(&mut out, rgb[0] as u128);
    out.append(" ");
    push_decimal(&mut out, rgb[1] as u128);
    out.append(" ");
    push_decimal(&mut out, rgb[2] as u128);
    out.append(")");
    out
}

/// A colour that is settled, or a bucket of the theme's ramp.
#[derive(Debug, Clone, Copy, PartialEq, Eq)]
pub enum ResolvedColor {
    Palette(usize),
    Rgb([u8; 3]),
}

/// The colour of a planar line: the selected one, or the bucket of its place.
pub fn resolve_styled_color(color: StrokeColor, bucket: usize, dark: bool) -> (r: ResolvedColor)
    ensures
        r == match crate::palette::stroke_rgb(
            color,
            if dark { Palette::Dark } else { Palette::Light },
        ) {
            Some(rgb) => ResolvedColor::Rgb(rgb),
            None => ResolvedColor::Palette(bucket),
        },
{
    match turtle_stroke_rgb(color, target_palette(dark)) {
        Some(rgb) => ResolvedColor::Rgb(rgb),
        None => ResolvedColor::Palette(bucket),
    }
}

/// The style of a path that is being drawn.
#[derive(Debug, Clone, Copy, PartialEq, Eq, Structural)]
pub struct StrokeStyle {
    /// A number for the colour: equal colours have equal numbers.
    pub color: u64,
    pub width_bits: u64,
}

/// What is to be done before a segment is added to a path.
#[derive(Debug, Clone, Copy, PartialEq, Eq, Structural)]
pub struct SegmentPlan {
    /// Draw the path so far.
    pub stroke: bool,
    /// Begin another path.
    pub begin: bool,
    /// Set colour and width.
    pub set_style: bool,
}

/// Neighbouring segments of one style are drawn as one path.
#[derive(Debug, Clone, Copy, PartialEq, Eq, Structural)]
pub struct StrokeBatch {
    pub style: Option<StrokeStyle>,
    pub segments: usize,
}

impl Default for StrokeBatch {
    fn default() -> (r: Self)
        ensures
            r.style is None,
            r.segments == 0,
    {
        StrokeBatch { style: None, segments: 0 }
    }
}

impl StrokeBatch {
    /// Paths hold a bounded number of segments, all of one style.
    pub open spec fn valid(self) -> bool {
        self.segments <= MAX_PATH_SEGMENTS && (self.segments > 0 ==> self.style is Some)
    }

    pub open spec fn pushed(self, style: StrokeStyle) -> (StrokeBatch, SegmentPlan) {
        let changed = self.style != Some(style);
        let stroke = self.segments > 0 && (changed || self.segments >= MAX_PATH_SEGMENTS);
        let begin = stroke || self.segments == 0;
        (
            StrokeBatch {
                style: if begin {
                    Some(style)
                } else {
                    self.style
                },
                segments: if begin {
                    1
                } else {
                    (self.segments + 1) as usize
                },
            },
            SegmentPlan { stroke, begin, set_style: begin && changed },
        )
    }

    /// Add a segment.
    pub fn push(&mut self, style: StrokeStyle) -> (r: SegmentPlan)
        requires
            old(self).valid(),
        ensures
            final(self).valid(),
            (*final(self), r) == old(self).pushed(style),
            final(self).style == Some(style),
    {
        let changed: bool = match self.style {
            Some(current) => current != style,
            None => true,
        };
        let mut plan: SegmentPlan = SegmentPlan { stroke: false, begin: false, set_style: false };
        if self.segments > 0 && (changed || self.segments >= MAX_PATH_SEGMENTS) {
            plan.stroke = true;
            self.segments = 0;
        }
        if self.segments == 0 {
            plan.begin = true;
            if changed {
                plan.set_style = true;
                self.style = Some(style);
            }
        }
        self.segments = self.segments + 1;
        plan
    }

    /// End the path. The result says whether there is anything to draw.
    pub fn finish(&mut self) -> (r: bool)
        requires
            old(self).valid(),
        ensures
            final(self).valid(),
            *final(self) == (StrokeBatch { segments: 0, ..*old(self) }),
            r == (old(self).segments > 0),
    {
        let stroke: bool = self.segments > 0;
        self.segments = 0;
        stroke
    }
}

/// A path never mixes styles: where a segment of another style comes, the path
/// before it is drawn first and the new style is set.
pub proof fn paths_have_one_style(batch: StrokeBatch, style: StrokeStyle)
    requires
        batch.valid(),
    ensures
        ({
            let (next, plan) = batch.pushed(style);
            &&& next.style == Some(style)
            &&& batch.segments > 0 && batch.style != Some(style) ==> plan.stroke && plan.set_style
            &&& !plan.stroke && batch.segments > 0 ==> batch.style == Some(style)
        }),
{
}

/// How two iterations are joined by a transition, or why they are not.
pub fn validate_transition(from_iteration: usize, to_iteration: usize) -> (r: Result<
    (),
    CanvasError,
>)
    ensures
        match r {
            Ok(()) => from_iteration == to_iteration + 1 || to_iteration == from_iteration + 1,
            Err(error) => from_iteration != to_iteration + 1 && to_iteration != from_iteration + 1
                && error@ == CanvasFault::InvalidMetadata(
                "browser transition iterations are not adjacent"@,
            ),
        },
{
    let apart: usize = if from_iteration < to_iteration {
        to_iteration - from_iteration
    } else {
        from_iteration - to_iteration
    };
    if apart == 1 {
        Ok(())
    } else {
        Err(bad_metadata("browser transition iterations are not adjacent"))
    }
}

/// A value part of the way between two.
pub open spec fn blended(left: Real, right: Real, progress: Real, ev: spec_fn(Arithmetic) -> Real) -> Real {
    ev(
        Arithmetic::Sum(
            left,
            ev(Arithmetic::Product(ev(Arithmetic::Difference(right, left)), progress)),
        ),
    )
}

pub fn lerp<C: Fn(Arithmetic) -> Real>(left: Real, right: Real, progress: Real, calc: &C) -> (r:
    Real)
    requires
        calculates(*calc),
    ensures
        r == blended(left, right, progress, answers(*calc)),
{
    let apart: Real = calculate(calc, Arithmetic::Difference(right, left));
    let step: Real = calculate(calc, Arithmetic::Product(apart, progress));
    calculate(calc, Arithmetic::Sum(left, step))
}

/// The depth bucket of a primitive: from the far side of the fitted sphere to
/// its near side.
pub open spec fn bucket_of(depth: Real, radius: Real, ev: spec_fn(Arithmetic) -> Real) -> int {
    let half = Real { bits: HALF_BITS };
    let one = Real { bits: ONE_BITS };
    let ratio = ev(
        Arithmetic::Product(
            ev(Arithmetic::Sum(ev(Arithmetic::Quotient(depth, radius)), one)),
            half,
        ),
    );
    let normalized = if ratio.finite() {
        ratio.within(Real { bits: 0 }, one)
    } else {
        half
    };
    ev(
        Arithmetic::Product(normalized, ev(Arithmetic::Count((DEPTH_BUCKETS - 1) as usize))),
    ).floor_up_to(DEPTH_BUCKETS - 1)
}

pub fn depth_bucket<C: Fn(Arithmetic) -> Real>(depth: Real, radius: Real, calc: &C) -> (r: usize)
    requires
        calculates(*calc),
    ensures
        r == bucket_of(depth, radius, answers(*calc)),
        r < DEPTH_BUCKETS,
{
    let half: Real = Real { bits: HALF_BITS };
    let one: Real = Real { bits: ONE_BITS };
    let quotient: Real = calculate(calc, Arithmetic::Quotient(depth, radius));
    let raised: Real = calculate(calc, Arithmetic::Sum(quotient, one));
    let ratio: Real = calculate(calc, Arithmetic::Product(raised, half));
    let normalized: Real = if ratio.is_finite() {
        ratio.clamp(Real { bits: 0 }, one)
    } else {
        half
    };
    let last: Real = calculate(calc, Arithmetic::Count(DEPTH_BUCKETS - 1));
    calculate(calc, Arithmetic::Product(normalized, last)).floored(DEPTH_BUCKETS - 1)
}

} // verus!
