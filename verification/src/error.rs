//! Conditions that a pipeline stage reports instead of making progress.

use vstd::prelude::*;

verus! {

/// Why an operation of the relay did not take effect.
#[derive(Clone, Copy, Debug, PartialEq, Eq, Structural)]
pub enum PipelineError {
    /// The pipeline has shut down; no buffer moves any more.
    PipelineClosed,
    /// The raw capture is not a whole number of samples inside the raw buffer.
    MalformedCapture,
    /// No buffer is waiting for the stage: it must wait and ask again.
    WouldBlock,
    /// The stage already holds a buffer and cannot take a second one.
    StageBusy,
    /// The stage holds no buffer to fill, read or hand on.
    StageIdle,
    /// The frame byte budget holds no whole sample.
    FrameTooSmall,
}

/// The diagnostic text of a condition.
pub open spec fn description(error: PipelineError) -> Seq<char> {
    match error {
        PipelineError::PipelineClosed => "pipeline closed"@,
        PipelineError::MalformedCapture => "malformed capture"@,
        PipelineError::WouldBlock => "no buffer available"@,
        PipelineError::StageBusy => "stage already holds a buffer"@,
        PipelineError::StageIdle => "stage holds no buffer"@,
        PipelineError::FrameTooSmall => "frame budget below one sample"@,
    }
}

impl PipelineError {
    /// A short diagnostic text.
    pub fn describe(&self) -> (text: &'static str)
        ensures
            text@ == description(*self),
    {
        match self {
            PipelineError::PipelineClosed => "pipeline closed",
            PipelineError::MalformedCapture => "malformed capture",
            PipelineError::WouldBlock => "no buffer available",
            PipelineError::StageBusy => "stage already holds a buffer",
            PipelineError::StageIdle => "stage holds no buffer",
            PipelineError::FrameTooSmall => "frame budget below one sample",
        }
    }
}

} // verus!
