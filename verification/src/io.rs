//! Page I/O requests, completions and the data they move.

use crate::ids::{Errno, IoDataLeaseId, PageGeneration, PageIoRequestId, Ppn};
use vstd::prelude::*;

verus! {

/// `page_count` file pages from `start_page` on.
#[derive(Clone, Copy, Debug, PartialEq, Eq, Structural)]
pub struct PageIoRange {
    pub start_page: u64,
    pub page_count: u64,
}

impl PageIoRange {
    pub fn new(start_page: u64, page_count: u64) -> (range: Self)
        ensures
            range == (PageIoRange { start_page, page_count }),
    {
        PageIoRange { start_page, page_count }
    }
}

#[derive(Clone, Copy, Debug, PartialEq, Eq, Structural)]
pub enum PageIoOp {
    Read,
    Readahead,
    Writeback,
    Fsync,
    Checkpoint,
}

#[derive(Clone, Copy, Debug, PartialEq, Eq, Structural)]
pub enum PageIoPriority {
    Demand,
    ForegroundWrite,
    Fsync,
    BackgroundWriteback,
}

#[derive(Clone, Copy, Debug, PartialEq, Eq, Structural)]
pub enum PageIoFlags {
    Demand,
    Writeback,
    Barrier,
}

#[derive(Clone, Copy, Debug, PartialEq, Eq, Structural)]
pub struct PageIoRequest {
    pub id: PageIoRequestId,
    pub range: PageIoRange,
    pub op: PageIoOp,
    pub priority: PageIoPriority,
    pub flags: PageIoFlags,
    pub generation_hint: Option<PageGeneration>,
}

impl PageIoRequest {
    pub fn new(
        id: PageIoRequestId,
        range: PageIoRange,
        op: PageIoOp,
        priority: PageIoPriority,
        flags: PageIoFlags,
        generation_hint: Option<PageGeneration>,
    ) -> (request: Self)
        ensures
            request == (PageIoRequest { id, range, op, priority, flags, generation_hint }),
    {
        PageIoRequest { id, range, op, priority, flags, generation_hint }
    }
}

#[derive(Clone, Copy, Debug, PartialEq, Eq, Structural)]
pub enum PageIoResult {
    Done,
    Failed(Errno),
}

impl PageIoResult {
    pub open spec fn result(self) -> Result<(), Errno> {
        match self {
            PageIoResult::Done => Ok(()),
            PageIoResult::Failed(errno) => Err(errno),
        }
    }

    pub fn to_result(self) -> (result: Result<(), Errno>)
        ensures
            result == self.result(),
    {
        match self {
            PageIoResult::Done => Ok(()),
            PageIoResult::Failed(errno) => Err(errno),
        }
    }
}

#[derive(Clone, Copy, Debug, PartialEq, Eq, Structural)]
pub enum PageIoCompletionKind {
    ReadInstalled,
    WritebackFinished,
    Noop,
}

#[derive(Clone, Copy, Debug, PartialEq, Eq, Structural)]
pub struct PageIoCompletion {
    pub id: PageIoRequestId,
    pub range: PageIoRange,
    pub result: PageIoResult,
    pub generation: PageGeneration,
    pub kind: PageIoCompletionKind,
}

impl PageIoCompletion {
    pub fn new(
        id: PageIoRequestId,
        range: PageIoRange,
        result: PageIoResult,
        generation: PageGeneration,
        kind: PageIoCompletionKind,
    ) -> (completion: Self)
        ensures
            completion == (PageIoCompletion { id, range, result, generation, kind }),
    {
        PageIoCompletion { id, range, result, generation, kind }
    }
}

/// A task parked on a page wait source.
#[derive(Clone, Copy, Debug, PartialEq, Eq, Structural)]
pub struct PageWaiter {
    pub source_id: u64,
    pub interests: u64,
}

/// A completion on its way to the container that owns the request.
#[derive(Clone, Copy, Debug, PartialEq, Eq, Structural)]
pub struct PageCompletionRoute {
    pub completion: PageIoCompletion,
    /// The frame that the backend filled, where it names one.
    pub frame: Option<Ppn>,
    /// Whether anybody waits for the request.
    pub has_waiters: bool,
}

/// One segment of a transfer: `len` bytes from `offset` in frame `frame`.
#[derive(Clone, Copy, Debug, PartialEq, Eq, Structural)]
pub struct BioVec {
    pub frame: u64,
    pub offset: u32,
    pub len: u32,
}

impl BioVec {
    pub fn new(frame: u64, offset: u32, len: u32) -> (vec: Self)
        ensures
            vec == (BioVec { frame, offset, len }),
    {
        BioVec { frame, offset, len }
    }
}

/// Where the data of a write comes from.
#[derive(Debug, PartialEq, Eq)]
pub enum IoDataSource {
    Absent,
    PageCache { lease: IoDataLeaseId, frame: Ppn, offset: u32, len: u32 },
    Direct { lease: IoDataLeaseId, vecs: Vec<BioVec> },
}

impl IoDataSource {
    pub fn lease(&self) -> (lease: Option<IoDataLeaseId>)
        ensures
            lease == match *self {
                IoDataSource::Absent => None,
                IoDataSource::PageCache { lease, .. } => Some(lease),
                IoDataSource::Direct { lease, .. } => Some(lease),
            },
    {
        match self {
            IoDataSource::Absent => None,
            IoDataSource::PageCache { lease, .. } => Some(*lease),
            IoDataSource::Direct { lease, .. } => Some(*lease),
        }
    }
}

/// Where the data of a read goes.
#[derive(Debug, PartialEq, Eq)]
pub enum IoDataTarget {
    Absent,
    PageCache { lease: IoDataLeaseId, frame: Ppn, offset: u32, len: u32 },
    Direct { lease: IoDataLeaseId, vecs: Vec<BioVec> },
}

impl IoDataTarget {
    pub fn lease(&self) -> (lease: Option<IoDataLeaseId>)
        ensures
            lease == match *self {
                IoDataTarget::Absent => None,
                IoDataTarget::PageCache { lease, .. } => Some(lease),
                IoDataTarget::Direct { lease, .. } => Some(lease),
            },
    {
        match self {
            IoDataTarget::Absent => None,
            IoDataTarget::PageCache { lease, .. } => Some(*lease),
            IoDataTarget::Direct { lease, .. } => Some(*lease),
        }
    }
}

/// A list of segments with the same contents.
pub fn copy_bio_vecs(vecs: &Vec<BioVec>) -> (copy: Vec<BioVec>)
    ensures
        copy@ == vecs@,
{
    let mut copy: Vec<BioVec> = Vec::new();
    let mut i: usize = 0;
    while i < vecs.len()
        invariant
            i <= vecs@.len(),
            copy@ == vecs@.take(i as int),
        decreases vecs@.len() - i,
    {
        copy.push(vecs[i]);
        assert(vecs@.take(i as int).push(vecs@[i as int]) =~= vecs@.take(i + 1));
        i += 1;
    }
    assert(vecs@.take(i as int) =~= vecs@);
    copy
}

} // verus!
