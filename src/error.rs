//! Failures of the volume-manager operations.
use vstd::prelude::*;

verus! {

/// The three processes of a replication pipeline, in stream order.
#[derive(Clone, Copy, Debug, PartialEq, Eq, Structural)]
pub enum Stage {
    /// The sending side of the stream.
    Send,
    /// The rate and progress monitor between the two ends.
    Monitor,
    /// The receiving side of the stream.
    Receive,
}

#[derive(Debug)]
pub enum ZfsError {
    /// An external command exited with a failure status; the text names it.
    ToolInvocation(String),
    /// A line of a tool's output had an unexpected shape; it is kept here.
    MalformedOutput(String),
    /// The dry-run send's trailer held no size.
    SizeEstimate,
    /// A stage of the replication pipeline failed.
    PipelineStage(Stage),
    /// A snapshot record came before the record of its volume.
    StructuralViolation(String),
}

pub enum ZfsErrorView {
    ToolInvocation(Seq<char>),
    MalformedOutput(Seq<char>),
    SizeEstimate,
    PipelineStage(Stage),
    StructuralViolation(Seq<char>),
}

impl View for ZfsError {
    type V = ZfsErrorView;

    open spec fn view(&self) -> ZfsErrorView {
        match self {
            ZfsError::ToolInvocation(s) => ZfsErrorView::ToolInvocation(s@),
            ZfsError::MalformedOutput(s) => ZfsErrorView::MalformedOutput(s@),
            ZfsError::SizeEstimate => ZfsErrorView::SizeEstimate,
            ZfsError::PipelineStage(st) => ZfsErrorView::PipelineStage(*st),
            ZfsError::StructuralViolation(s) => ZfsErrorView::StructuralViolation(s@),
        }
    }
}

} // verus!
