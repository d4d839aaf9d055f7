//! Failure taxonomy for a normalization run.

use vstd::prelude::*;

verus! {

/// What can go wrong during a run: the measurement subprocess could not be
/// run, its structured payload was missing or unparsable, or the final
/// encode subprocess could not be spawned.
#[derive(Clone, Copy, Debug, PartialEq, Eq, Structural)]
pub enum NormError {
    AnalysisFailed,
    MalformedAnalysisOutput,
    EncodeSpawnFailed,
}

impl NormError {
    /// A fixed user-facing description of the failure.
    pub fn message(&self) -> (r: &'static str)
        ensures
            *self is AnalysisFailed ==> r@ == "analysis pass failed to run"@,
            *self is MalformedAnalysisOutput ==> r@ == "analysis output was malformed"@,
            *self is EncodeSpawnFailed ==> r@ == "encode pass failed to spawn"@,
    {
        match self {
            NormError::AnalysisFailed => "analysis pass failed to run",
            NormError::MalformedAnalysisOutput => "analysis output was malformed",
            NormError::EncodeSpawnFailed => "encode pass failed to spawn",
        }
    }
}

} // verus!
