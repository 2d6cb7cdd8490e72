//! The ways in which the pipeline fails. Each of them ends the run.

use vstd::prelude::*;

verus! {

/// The log store could not be reached, so a flush did not go through.
#[derive(Clone, Copy, Debug, PartialEq, Eq, Structural)]
pub struct SinkUnavailable;

/// The arguments that were to bound the range of blocks are not two block heights.
#[derive(Clone, Copy, Debug, PartialEq, Eq, Structural)]
pub struct MalformedArgument;

/// Why a run of the pipeline ended before its feed did.
#[derive(Clone, Copy, Debug, PartialEq, Eq, Structural)]
pub enum PipelineError {
    /// The feed did not deliver the next block.
    FeedUnavailable,
    /// A flush to the log store failed.
    SinkUnavailable,
}

} // verus!
