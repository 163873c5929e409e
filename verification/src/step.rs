//! Outcomes of one step of an operation that may have to wait.

use crate::ids::Errno;
use vstd::prelude::*;

verus! {

/// Progress of a step that has no partial result.
#[derive(Clone, Copy, Debug, PartialEq, Eq, Structural)]
pub struct NoProgress;

/// Bytes transferred so far.
#[derive(Clone, Copy, Debug, PartialEq, Eq, Structural)]
pub struct ByteProgress(pub usize);

impl ByteProgress {
    pub fn new(bytes: usize) -> (progress: Self)
        ensures
            progress == ByteProgress(bytes),
    {
        ByteProgress(bytes)
    }

    pub fn bytes(&self) -> (bytes: usize)
        ensures
            bytes == self.0,
    {
        self.0
    }
}

/// Pages transferred so far.
#[derive(Clone, Copy, Debug, PartialEq, Eq, Structural)]
pub struct PageProgress(pub u32);

impl PageProgress {
    pub fn new(pages: u32) -> (progress: Self)
        ensures
            progress == PageProgress(pages),
    {
        PageProgress(pages)
    }
}

/// What a yielding step waits for.
#[derive(Clone, Copy, Debug, PartialEq, Eq, Structural)]
pub enum YieldShape {
    /// A wait source, and the readiness bits of interest on it.
    OnWaitSource { source: u64, interests: u64 },
    /// Another agent, which no wait source stands for.
    OnAgent,
}

/// Result of one step.
#[derive(Debug, PartialEq, Eq)]
pub enum StepOutcome<T, P> {
    Done(T),
    /// Call again at once.
    Continue { progress: P },
    /// Call again after the wait.
    Yield { progress: P, shape: YieldShape },
    Error(Errno),
}

/// Readiness bit that a page wait source raises.
pub const PAGE_READY: u64 = 1;

/// The wait source and interests of a yield, if it names a source.
pub fn wait_source_parts(shape: &YieldShape) -> (parts: Option<(u64, u64)>)
    ensures
        parts == spec_wait_source_parts(*shape),
{
    match shape {
        YieldShape::OnWaitSource { source, interests } => Some((*source, *interests)),
        YieldShape::OnAgent => None,
    }
}

pub open spec fn spec_wait_source_parts(shape: YieldShape) -> Option<(u64, u64)> {
    match shape {
        YieldShape::OnWaitSource { source, interests } => Some((source, interests)),
        YieldShape::OnAgent => None,
    }
}

pub fn is_wait_source(shape: &YieldShape) -> (named: bool)
    ensures
        named == (*shape is OnWaitSource),
{
    match shape {
        YieldShape::OnWaitSource { .. } => true,
        YieldShape::OnAgent => false,
    }
}

/// Yield until `source` raises one of `interests`.
pub fn yield_on_wait_source<T, P>(progress: P, source: u64, interests: u64) -> (outcome:
    StepOutcome<T, P>)
    ensures
        outcome == (StepOutcome::<T, P>::Yield {
            progress,
            shape: YieldShape::OnWaitSource { source, interests },
        }),
{
    StepOutcome::Yield { progress, shape: YieldShape::OnWaitSource { source, interests } }
}

/// Yield until the page wait source `source` reports its page ready.
pub fn yield_on_page_ready_source<T, P>(progress: P, source: u64) -> (outcome: StepOutcome<T, P>)
    ensures
        outcome == (StepOutcome::<T, P>::Yield {
            progress,
            shape: YieldShape::OnWaitSource { source, interests: PAGE_READY },
        }),
{
    yield_on_wait_source(progress, source, PAGE_READY)
}

} // verus!
