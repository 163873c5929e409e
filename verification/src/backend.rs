//! What a mount's backend planner answers to a page request.

use crate::block_runtime::BioPlan;
use crate::ids::{Errno, Ppn};
use crate::io::PageIoCompletion;
use vstd::prelude::*;

verus! {

/// A page request that a plan completes at once.
#[derive(Clone, Copy, Debug)]
pub struct PlannedCompletion {
    pub completion: PageIoCompletion,
    pub frame: Option<Ppn>,
}

#[derive(Debug)]
pub enum BackendPlan {
    Complete(Vec<PlannedCompletion>),
    SubmitBios(Vec<BioPlan>),
    SubmitGraph,
    MetadataFirst,
    Yield,
    Failed(Errno),
}

} // verus!
