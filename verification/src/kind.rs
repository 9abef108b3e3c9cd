//! Visualizers, backends, and output targets by name.

use std::str::FromStr;

use vstd::prelude::*;
use vstd::string::*;

use crate::text::{chars_of, lines_of, next_line, quoted, quoted_text, same_text, string_of};
use crate::text::{behind_prefix, strip_prefix, trim, trim_start, trimmed, trimmed_start};

verus! {

#[derive(Debug, Clone, Copy, PartialEq, Eq, Structural, Hash)]
pub enum VisualizerKind {
    Inspector,
    Sequence,
    Turtle2d,
    Turtle3d,
    AxialTree,
    Asset,
    Polygon,
    Plot,
    PlanarMap,
    SphericalMap,
    Cellwork3d,
}

impl Default for VisualizerKind {
    fn default() -> (r: Self)
        ensures
            r == VisualizerKind::Inspector,
    {
        VisualizerKind::Inspector
    }
}

impl VisualizerKind {
    /// Every kind, in declaration order.
    pub const ALL: [VisualizerKind; 11] = [
        VisualizerKind::Inspector,
        VisualizerKind::Sequence,
        VisualizerKind::Turtle2d,
        VisualizerKind::Turtle3d,
        VisualizerKind::AxialTree,
        VisualizerKind::Asset,
        VisualizerKind::Polygon,
        VisualizerKind::Plot,
        VisualizerKind::PlanarMap,
        VisualizerKind::SphericalMap,
        VisualizerKind::Cellwork3d,
    ];

    /// The name that source files use.
    pub open spec fn name(self) -> Seq<char> {
        match self {
            VisualizerKind::Inspector => "inspector"@,
            VisualizerKind::Sequence => "sequence"@,
            VisualizerKind::Turtle2d => "turtle_2d"@,
            VisualizerKind::Turtle3d => "turtle_3d"@,
            VisualizerKind::AxialTree => "axial_tree"@,
            VisualizerKind::Asset => "asset"@,
            VisualizerKind::Polygon => "polygon"@,
            VisualizerKind::Plot => "plot"@,
            VisualizerKind::PlanarMap => "planar_map"@,
            VisualizerKind::SphericalMap => "spherical_map"@,
            VisualizerKind::Cellwork3d => "cellwork_3d"@,
        }
    }

    pub fn as_str(self) -> (r: &'static str)
        ensures
            r@ == self.name(),
    {
        match self {
            VisualizerKind::Inspector => "inspector",
            VisualizerKind::Sequence => "sequence",
            VisualizerKind::Turtle2d => "turtle_2d",
            VisualizerKind::Turtle3d => "turtle_3d",
            VisualizerKind::AxialTree => "axial_tree",
            VisualizerKind::Asset => "asset",
            VisualizerKind::Polygon => "polygon",
            VisualizerKind::Plot => "plot",
            VisualizerKind::PlanarMap => "planar_map",
            VisualizerKind::SphericalMap => "spherical_map",
            VisualizerKind::Cellwork3d => "cellwork_3d",
        }
    }

    /// The kind with the given name.
    pub fn parse(value: &str) -> (r: Result<VisualizerKind, ParseVisualizerKindError>)
        ensures
            match r {
                Ok(kind) => kind.name() == value@,
                Err(error) => error@ == value@ && forall|kind: VisualizerKind|
                    kind.name() != value@,
            },
    {
        let all: [VisualizerKind; 11] = VisualizerKind::ALL;
        let mut i: usize = 0;
        while i < 11
            invariant
                i <= 11,
                all@ == VisualizerKind::ALL@,
                forall|j: int| 0 <= j < i ==> (#[trigger] all@[j]).name() != value@,
            decreases 11 - i,
        {
            let kind: VisualizerKind = all[i];
            if same_text(kind.as_str(), value) {
                return Ok(kind);
            }
            i = i + 1;
        }
        assert forall|kind: VisualizerKind| kind.name() != value@ by {
            let j = match kind {
                VisualizerKind::Inspector => 0int,
                VisualizerKind::Sequence => 1,
                VisualizerKind::Turtle2d => 2,
                VisualizerKind::Turtle3d => 3,
                VisualizerKind::AxialTree => 4,
                VisualizerKind::Asset => 5,
                VisualizerKind::Polygon => 6,
                VisualizerKind::Plot => 7,
                VisualizerKind::PlanarMap => 8,
                VisualizerKind::SphericalMap => 9,
                VisualizerKind::Cellwork3d => 10,
            };
            assert(all@[j] == kind);
        }
        Err(ParseVisualizerKindError(value.to_owned()))
    }
}

/// A name that no visualizer has.
#[derive(Debug, Clone, PartialEq, Eq)]
pub struct ParseVisualizerKindError(String);

impl View for ParseVisualizerKindError {
    type V = Seq<char>;

    closed spec fn view(&self) -> Seq<char> {
        self.0@
    }
}

impl ParseVisualizerKindError {
    /// What a user is told.
    pub fn message(&self) -> (r: String)
        ensures
            r@ == "unknown visualizer "@ + quoted_text(self@),
    {
        let mut out: String = "unknown visualizer ".to_owned();
        let name: String = quoted(self.0.as_str());
        out.append(name.as_str());
        out
    }
}

impl FromStr for VisualizerKind {
    type Err = ParseVisualizerKindError;

    fn from_str(value: &str) -> (r: Result<VisualizerKind, ParseVisualizerKindError>)
        ensures
            match r {
                Ok(kind) => kind.name() == value@,
                Err(error) => error@ == value@ && forall|kind: VisualizerKind|
                    kind.name() != value@,
            },
    {
        VisualizerKind::parse(value)
    }
}

#[derive(Debug, Clone, PartialEq, Eq)]
pub enum VisualizerMetadataError {
    Duplicate,
    Invalid(ParseVisualizerKindError),
}

impl VisualizerMetadataError {
    /// What a user is told.
    pub fn message(&self) -> (r: String)
        ensures
            match *self {
                VisualizerMetadataError::Duplicate => r@
                    == "source contains more than one Visualizer declaration"@,
                VisualizerMetadataError::Invalid(error) => r@ == "unknown visualizer "@
                    + quoted_text(error@),
            },
    {
        match self {
            VisualizerMetadataError::Duplicate => "source contains more than one Visualizer declaration".to_owned(),
            VisualizerMetadataError::Invalid(error) => error.message(),
        }
    }
}

/// The value that a line declares as its visualizer.
pub open spec fn declared_visualizer(line: Seq<char>) -> Option<Seq<char>> {
    match behind_prefix(trimmed_start(line), "# Visualizer:"@) {
        Some(rest) => Some(trimmed(rest)),
        None => None,
    }
}

/// The declared values of some lines, in order.
pub open spec fn visualizer_values(lines: Seq<Seq<char>>) -> Seq<Seq<char>>
    decreases lines.len(),
{
    if lines.len() == 0 {
        Seq::empty()
    } else {
        let rest = visualizer_values(lines.subrange(1, lines.len() as int));
        match declared_visualizer(lines[0]) {
            Some(value) => seq![value] + rest,
            None => rest,
        }
    }
}

/// The visualizer that a source declares, if it declares one.
pub fn visualizer_metadata(source: &str) -> (r: Result<
    Option<VisualizerKind>,
    VisualizerMetadataError,
>)
    ensures
        ({
            let values = visualizer_values(lines_of(source@));
            match r {
                Ok(None) => values.len() == 0,
                Ok(Some(kind)) => values.len() == 1 && kind.name() == values[0],
                Err(VisualizerMetadataError::Duplicate) => values.len() >= 2,
                Err(VisualizerMetadataError::Invalid(error)) => values.len() == 1 && error@
                    == values[0] && forall|kind: VisualizerKind| kind.name() != values[0],
            }
        }),
{
    let chars: Vec<char> = chars_of(source);
    let prefix: Vec<char> = chars_of("# Visualizer:");
    let mut rest: &[char] = chars.as_slice();
    let mut found: Option<&[char]> = None;
    let ghost mut seen: Seq<Seq<char>> = Seq::empty();
    assert(seen + visualizer_values(lines_of(rest@)) =~= visualizer_values(lines_of(source@)));
    while rest.len() > 0
        invariant
            prefix@ == "# Visualizer:"@,
            seen + visualizer_values(lines_of(rest@)) == visualizer_values(lines_of(source@)),
            match found {
                Some(value) => seen == seq![value@],
                None => seen == Seq::<Seq<char>>::empty(),
            },
        decreases rest.len(),
    {
        let (line, behind) = next_line(rest);
        let ghost all = lines_of(rest@);
        assert(all.subrange(1, all.len() as int) =~= lines_of(behind@));
        assert(all[0] == line@);
        match strip_prefix(trim_start(line), prefix.as_slice()) {
            Some(value) => {
                let value: &[char] = trim(value);
                assert(visualizer_values(all) == seq![value@] + visualizer_values(
                    lines_of(behind@),
                ));
                if found.is_some() {
                    assert(visualizer_values(lines_of(source@)).len() >= 2);
                    return Err(VisualizerMetadataError::Duplicate);
                }
                found = Some(value);
                proof {
                    seen = seq![value@];
                }
                assert(seen + visualizer_values(lines_of(behind@)) =~= visualizer_values(
                    lines_of(source@),
                ));
            },
            None => {},
        }
        rest = behind;
    }
    assert(visualizer_values(lines_of(rest@)) =~= Seq::empty());
    assert(seen =~= visualizer_values(lines_of(source@)));
    match found {
        None => Ok(None),
        Some(value) => {
            let name: String = string_of(value);
            match VisualizerKind::parse(name.as_str()) {
                Ok(kind) => Ok(Some(kind)),
                Err(error) => Err(VisualizerMetadataError::Invalid(error)),
            }
        },
    }
}

#[derive(Debug, Clone, Copy, PartialEq, Eq, Structural)]
pub enum VisualizerBackend {
    /// Prefer a supported native accelerator, currently CUDA for the
    /// branch-free scalar 2D turtle subset, with CPU fallback only before
    /// accelerator work starts.
    /// Visualizers without an accelerated implementation use CPU.
    Auto,
    /// Run the visualizer's CPU implementation.
    Cpu,
    /// Require a native CUDA implementation. Unsupported targets, visualizers,
    /// or input features give a typed error rather than a fallback.
    Cuda,
}

impl Default for VisualizerBackend {
    fn default() -> (r: Self)
        ensures
            r == VisualizerBackend::Auto,
    {
        VisualizerBackend::Auto
    }
}

impl VisualizerBackend {
    pub open spec fn name(self) -> Seq<char> {
        match self {
            VisualizerBackend::Auto => "Auto"@,
            VisualizerBackend::Cpu => "Cpu"@,
            VisualizerBackend::Cuda => "Cuda"@,
        }
    }

    pub fn as_str(self) -> (r: &'static str)
        ensures
            r@ == self.name(),
    {
        match self {
            VisualizerBackend::Auto => "Auto",
            VisualizerBackend::Cpu => "Cpu",
            VisualizerBackend::Cuda => "Cuda",
        }
    }
}

/// The form of the output.
#[derive(Debug, Clone, Copy, PartialEq, Eq, Structural)]
pub enum TargetKind {
    Auto,
    Tui,
    Svg,
    Png,
}

impl Default for TargetKind {
    fn default() -> (r: Self)
        ensures
            r == TargetKind::Auto,
    {
        TargetKind::Auto
    }
}

/// No two kinds share a name.
pub proof fn kind_names_differ(a: VisualizerKind, b: VisualizerKind)
    ensures
        a.name() == b.name() <==> a == b,
{
    reveal_strlit("inspector");
    reveal_strlit("sequence");
    reveal_strlit("turtle_2d");
    reveal_strlit("turtle_3d");
    reveal_strlit("axial_tree");
    reveal_strlit("asset");
    reveal_strlit("polygon");
    reveal_strlit("plot");
    reveal_strlit("planar_map");
    reveal_strlit("spherical_map");
    reveal_strlit("cellwork_3d");
    let distinct = a.name().len() != b.name().len() || a.name()[0] != b.name()[0] || a.name()[7]
        != b.name()[7] || a.name()[8] != b.name()[8];
    assert(a != b ==> distinct);
}

} // verus!
