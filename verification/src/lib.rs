//! Target-neutral visualization of calculated L-system generations, and the
//! state machines of the browser frontend that displays them.
//!
//! Floating-point values travel through the library as their bit patterns
//! ([`Real`], [`Single`]). Comparisons and classifications read the bits; every
//! rounding operation is named ([`Arithmetic`], [`SingleArithmetic`]) and
//! carried out by a calculator that the caller supplies.

pub mod action;
pub mod agreement;
pub mod arrival;
pub mod canvas;
pub mod chance;
pub mod config;
pub mod controls;
pub mod cuda;
pub mod depth;
pub mod device;
pub mod display;
pub mod edges;
pub mod error;
pub mod frames;
pub mod frequency;
pub mod generation;
pub mod geometry;
pub mod hook;
pub mod identity;
pub mod inspector;
pub mod kind;
pub mod laws_2d;
pub mod laws_3d;
pub mod laws_bounds;
pub mod laws_device;
pub mod laws_fit;
pub mod laws_morph;
pub mod laws_ramp;
pub mod laws_rounding;
pub mod laws_session;
pub mod laws_stroke;
pub mod laws_svg;
pub mod laws_text;
pub mod laws_tui;
pub mod laws_view;
pub mod model;
pub mod morph;
pub mod number;
pub mod oracle;
pub mod outlet;
pub mod page;
pub mod painted;
pub mod palette;
pub mod preview;
pub mod rounding;
pub mod session;
pub mod shading;
pub mod single;
pub mod spatial;
pub mod spatial_refinement;
pub mod spatial_svg;
pub mod startup;
pub mod staying;
pub mod status;
pub mod stream_2d;
pub mod stream_3d;
pub mod streamer;
pub mod stroke;
pub mod svg;
pub mod svg_encoder;
pub mod svg_order;
pub mod text;
pub mod transform;
pub mod transitions;
pub mod tui;
pub mod tuning;
pub mod turtle_2d;
pub mod turtle_3d;
pub mod update;
pub mod value;
pub mod visualize;
pub mod walk;
pub mod words;
pub mod work;
pub mod worker;

pub use config::{
    AssetConfig, AxialTreeConfig, Cellwork3dConfig, InspectorConfig, PlanarMapConfig, PlotConfig,
    PolygonConfig, SequenceConfig, SphericalMapConfig, Turtle2dConfig, Turtle3dConfig,
    VisualizerConfig,
};
pub use error::VisualizeError;
pub use generation::{Generation, GenerationItem, Module, Value};
pub use geometry::{
    Bounds2d, Bounds3d, Line2d, Line3d, Lines2d, Point2d, Point3d, Polygon2d, Polygon3d,
    Primitive2d, Primitive3d, Scene2d, Scene3d, StrokeColor, StyledLine2d, StyledLine3d, Text2d,
    TextRole, Visualization, VisualizationResult,
};
pub use hook::Hook;
pub use inspector::{
    stream_inspector, InspectorPhase, InspectorProgress, InspectorStreamRequest,
    VisualizationContext,
};
pub use kind::{
    visualizer_metadata, ParseVisualizerKindError, TargetKind, VisualizerBackend, VisualizerKind,
    VisualizerMetadataError,
};
pub use number::{Arithmetic, Real};
pub use outlet::{Exchange, Outlet};
pub use palette::{turtle_stroke_rgb, Palette};
pub use single::{Single, SingleArithmetic};
pub use stream_2d::{
    stream_turtle_2d, IndexedModulePosition2d, Turtle2dBatch, Turtle2dStreamRequest,
    Turtle2dStreamSummary,
};
pub use stream_3d::{
    stream_turtle_3d, Turtle3dBatch, Turtle3dPrimitiveKind, Turtle3dProgress,
    Turtle3dStreamRequest, Turtle3dStreamSummary,
};
pub use streamer::Turtle2dStreamer;
pub use stroke::{normalized_turtle_3d_width, StrokeWidthEstimator, Turtle3dWidthReferenceEstimator};
pub use transitions::{build_line_transition, IndexedLine2d, MorphCoordinateSpace, MorphLine2d};
pub use visualize::{
    canonical_project_point_3d, visualize, visualize_with_backend, VisualizeRequest,
};
pub use walk::Turtle2dProgress;
