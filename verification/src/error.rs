//! What a visualization can fail with.

use vstd::prelude::*;
use vstd::string::*;

use crate::kind::{VisualizerBackend, VisualizerKind};
use crate::text::{decimal, push_decimal};

verus! {

#[derive(Debug, Clone, PartialEq, Eq)]
pub enum VisualizeError {
    Unimplemented { visualizer: VisualizerKind, backend: VisualizerBackend },
    BackendUnavailable { backend: VisualizerBackend },
    /// The selected backend cannot represent a valid input feature.
    UnsupportedInput { visualizer: VisualizerKind, backend: VisualizerBackend, reason: String },
    /// A backend was selected successfully but failed while preparing or
    /// executing work.
    BackendRuntime { backend: VisualizerBackend, operation: &'static str, reason: String },
    /// The caller no longer needs this visualization.
    Cancelled,
    /// A fallible allocation or size calculation could not be satisfied.
    ResourceExhausted { resource: &'static str, requested: Option<usize> },
    InvalidConfiguration(String),
}

/// A failure with its texts as character sequences.
pub enum Failure {
    Unimplemented { visualizer: VisualizerKind, backend: VisualizerBackend },
    BackendUnavailable { backend: VisualizerBackend },
    UnsupportedInput { visualizer: VisualizerKind, backend: VisualizerBackend, reason: Seq<char> },
    BackendRuntime { backend: VisualizerBackend, operation: Seq<char>, reason: Seq<char> },
    Cancelled,
    ResourceExhausted { resource: Seq<char>, requested: Option<usize> },
    InvalidConfiguration(Seq<char>),
}

impl View for VisualizeError {
    type V = Failure;

    open spec fn view(&self) -> Failure {
        match *self {
            VisualizeError::Unimplemented { visualizer, backend } => Failure::Unimplemented {
                visualizer,
                backend,
            },
            VisualizeError::BackendUnavailable { backend } => Failure::BackendUnavailable {
                backend,
            },
            VisualizeError::UnsupportedInput { visualizer, backend, reason } =>
            Failure::UnsupportedInput { visualizer, backend, reason: reason@ },
            VisualizeError::BackendRuntime { backend, operation, reason } =>
            Failure::BackendRuntime { backend, operation: operation@, reason: reason@ },
            VisualizeError::Cancelled => Failure::Cancelled,
            VisualizeError::ResourceExhausted { resource, requested } =>
            Failure::ResourceExhausted { resource: resource@, requested },
            VisualizeError::InvalidConfiguration(message) => Failure::InvalidConfiguration(
                message@,
            ),
        }
    }
}

impl Failure {
    /// What a user is told.
    pub open spec fn message(self) -> Seq<char> {
        match self {
            Failure::Unimplemented { visualizer, backend } => "visualizer "@ + visualizer.name()
                + " is not implemented for "@ + backend.name(),
            Failure::BackendUnavailable { backend } => "visualization backend "@ + backend.name()
                + " is unavailable"@,
            Failure::UnsupportedInput { visualizer, backend, reason } => "visualizer "@
                + visualizer.name() + " does not support this input on "@ + backend.name() + ": "@
                + reason,
            Failure::BackendRuntime { backend, operation, reason } => "visualization backend "@
                + backend.name() + " failed during "@ + operation + ": "@ + reason,
            Failure::Cancelled => "visualization was cancelled"@,
            Failure::ResourceExhausted { resource, requested } => match requested {
                Some(requested) => "not enough resources for "@ + resource + " (requested "@
                    + decimal(requested as int) + " entries)"@,
                None => "not enough resources for "@ + resource,
            },
            Failure::InvalidConfiguration(message) => message,
        }
    }
}

impl VisualizeError {
    /// What a user is told.
    pub fn message(&self) -> (r: String)
        ensures
            r@ == self@.message(),
    {
        match self {
            VisualizeError::Unimplemented { visualizer, backend } => {
                let mut out: String = "visualizer ".to_owned();
                out.append(visualizer.as_str());
                out.append(" is not implemented for ");
                out.append(backend.as_str());
                out
            },
            VisualizeError::BackendUnavailable { backend } => {
                let mut out: String = "visualization backend ".to_owned();
                out.append(backend.as_str());
                out.append(" is unavailable");
                out
            },
            VisualizeError::UnsupportedInput { visualizer, backend, reason } => {
                let mut out: String = "visualizer ".to_owned();
                out.append(visualizer.as_str());
                out.append(" does not support this input on ");
                out.append(backend.as_str());
                out.append(": ");
                out.append(reason.as_str());
                out
            },
            VisualizeError::BackendRuntime { backend, operation, reason } => {
                let mut out: String = "visualization backend ".to_owned();
                out.append(backend.as_str());
                out.append(" failed during ");
                out.append(operation);
                out.append(": ");
                out.append(reason.as_str());
                out
            },
            VisualizeError::Cancelled => "visualization was cancelled".to_owned(),
            VisualizeError::ResourceExhausted { resource, requested } => {
                let mut out: String = "not enough resources for ".to_owned();
                out.append(resource);
                match requested {
                    Some(requested) => {
                        out.append(" (requested ");
                        push_decimal(&mut out, *requested as u128);
                        out.append(" entries)");
                    },
                    None => {},
                }
                out
            },
            VisualizeError::InvalidConfiguration(message) => message.clone(),
        }
    }
}

/// The failure to obtain a number of entries.
pub open spec fn exhausted(resource: Seq<char>, requested: usize) -> Failure {
    Failure::ResourceExhausted { resource, requested: Some(requested) }
}

pub fn resource_error(resource: &'static str, requested: usize) -> (r: VisualizeError)
    ensures
        r@ == exhausted(resource@, requested),
{
    VisualizeError::ResourceExhausted { resource, requested: Some(requested) }
}

/// A configuration error with the given message.
pub fn invalid(message: &str) -> (r: VisualizeError)
    ensures
        r@ == Failure::InvalidConfiguration(message@),
{
    VisualizeError::InvalidConfiguration(message.to_owned())
}

/// The next count, or the failure of a counter that is full.
pub fn checked_increment(value: usize, resource: &'static str) -> (r: Result<
    usize,
    VisualizeError,
>)
    ensures
        match r {
            Ok(next) => next == value + 1,
            Err(error) => value == usize::MAX && error@ == exhausted(resource@, usize::MAX),
        },
{
    match value.checked_add(1) {
        Some(next) => Ok(next),
        None => Err(resource_error(resource, usize::MAX)),
    }
}

} // verus!
