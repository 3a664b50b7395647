//! Errors of the analysis pipeline.

use vstd::prelude::*;

verus! {

/// Why a frame could not be produced.
#[derive(Clone, Copy, Debug, PartialEq, Eq, Structural)]
pub enum AnalysisError {
    /// An input that no frame can be computed from: an empty sample
    /// sequence handed to the transform, or a window of zero length.
    InvalidInput,
    /// The sink that draws the bars reported a failure.
    RenderFailure,
}

} // verus!
