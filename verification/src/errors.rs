//! The pipeline's fatal error kinds. Every one aborts the run; no partially
//! transformed buffer is handed to the renderer.

use vstd::prelude::*;

verus! {

/// Why a pipeline run failed.
#[derive(Clone, Copy, Debug, PartialEq, Eq, Structural)]
pub enum PipelineError {
    /// A scale or blur operation would leave a literally empty buffer.
    InvalidDimension,
    /// The overlay image could not be decoded.
    DecodeFailure,
    /// The display enumeration collaborator failed.
    MonitorQueryFailure,
    /// Writing bytes to the renderer's input stream failed.
    RenderHandoffFailure,
}

} // verus!
