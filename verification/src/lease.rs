//! What an admitted file request keeps alive until its one terminal result.

use crate::frame::{CachedFrame, PageLease};
use crate::ids::{IoDataLeaseId, PageGeneration, PageIndex, Ppn};
use crate::io::{
    BioVec, IoDataSource, IoDataTarget, PageIoCompletionKind, PageIoOp, PageIoRequest,
    PageIoResult,
};
use vstd::prelude::*;

verus! {

/// Bytes that one page contributes to a transfer.
pub const SEGMENT_BYTES: u32 = 4096;

#[derive(Clone, Copy, Debug, PartialEq, Eq, Structural)]
pub enum PageDataLeaseError {
    /// A lease covers at least one page.
    Empty,
    /// More pages than one transfer may carry.
    TooManyPages,
    /// Pages and captured generations do not pair up.
    Unpaired,
}

/// The frames of one writeback. A filesystem planner sees only the neutral
/// projection `source`; the pins stay here.
#[derive(Debug)]
pub struct PageDataLease {
    pub id: IoDataLeaseId,
    pub pages: Vec<PageLease>,
    /// The page and version that each frame carries, where it was captured.
    pub generations: Vec<(PageIndex, PageGeneration)>,
}

/// The segments that transfer `pages` whole.
pub open spec fn whole_page_vecs(pages: Seq<PageLease>) -> Seq<BioVec> {
    Seq::new(
        pages.len(),
        |i: int| BioVec { frame: pages[i].ppn.0 as u64, offset: 0, len: SEGMENT_BYTES },
    )
}

/// A lease as a value.
#[verifier::ext_equal]
pub struct LeaseView {
    pub id: IoDataLeaseId,
    pub pages: Seq<PageLease>,
    pub generations: Seq<(PageIndex, PageGeneration)>,
}

impl View for PageDataLease {
    type V = LeaseView;

    open spec fn view(&self) -> LeaseView {
        LeaseView { id: self.id, pages: self.pages@, generations: self.generations@ }
    }
}

impl LeaseView {
    /// Whether `source` is the projection of this lease: one page as a
    /// page-cache source, several as a list of whole-page segments.
    pub open spec fn projects(self, source: IoDataSource) -> bool {
        if self.pages.len() == 1 {
            source == (IoDataSource::PageCache {
                lease: self.id,
                frame: self.pages[0].ppn,
                offset: 0,
                len: SEGMENT_BYTES,
            })
        } else {
            source matches IoDataSource::Direct { lease, vecs } && lease == self.id && vecs@
                == whole_page_vecs(self.pages)
        }
    }
}

impl PageDataLease {
    pub open spec fn wf(&self) -> bool {
        self.pages@.len() > 0
    }

    pub fn single(id: IoDataLeaseId, page: PageLease) -> (lease: Self)
        ensures
            lease.wf(),
            lease.id == id,
            lease.pages@ == seq![page],
            lease.generations@.len() == 0,
    {
        let mut pages: Vec<PageLease> = Vec::new();
        pages.push(page);
        assert(pages@ =~= seq![page]);
        PageDataLease { id, pages, generations: Vec::new() }
    }

    pub fn from_pages(id: IoDataLeaseId, pages: Vec<PageLease>) -> (lease: Result<
        Self,
        PageDataLeaseError,
    >)
        ensures
            match lease {
                Ok(lease) => {
                    &&& pages@.len() > 0
                    &&& lease.wf()
                    &&& lease.id == id
                    &&& lease.pages@ == pages@
                    &&& lease.generations@.len() == 0
                },
                Err(error) => pages@.len() == 0 && error == PageDataLeaseError::Empty,
            },
    {
        if pages.len() == 0 {
            return Err(PageDataLeaseError::Empty);
        }
        Ok(PageDataLease { id, pages, generations: Vec::new() })
    }

    /// A lease on up to `limit` pages whose versions were captured.
    pub fn from_segments(
        id: IoDataLeaseId,
        limit: usize,
        pages: Vec<PageLease>,
        generations: Vec<(PageIndex, PageGeneration)>,
    ) -> (lease: Result<Self, PageDataLeaseError>)
        ensures
            match lease {
                Ok(lease) => {
                    &&& 0 < pages@.len() <= limit
                    &&& pages@.len() == generations@.len()
                    &&& lease.wf()
                    &&& lease.id == id
                    &&& lease.pages@ == pages@
                    &&& lease.generations@ == generations@
                },
                Err(PageDataLeaseError::Empty) => pages@.len() == 0,
                Err(PageDataLeaseError::TooManyPages) => pages@.len() > 0 && pages@.len() > limit,
                Err(PageDataLeaseError::Unpaired) => {
                    &&& 0 < pages@.len() <= limit
                    &&& pages@.len() != generations@.len()
                },
            },
    {
        if pages.len() == 0 {
            return Err(PageDataLeaseError::Empty);
        }
        if pages.len() > limit {
            return Err(PageDataLeaseError::TooManyPages);
        }
        if pages.len() != generations.len() {
            return Err(PageDataLeaseError::Unpaired);
        }
        Ok(PageDataLease { id, pages, generations })
    }

    /// The same lease under another identity.
    pub fn with_id(self, id: IoDataLeaseId) -> (lease: Self)
        requires
            self.wf(),
        ensures
            lease.wf(),
            lease.id == id,
            lease.pages@ == self.pages@,
            lease.generations@ == self.generations@,
    {
        PageDataLease { id, pages: self.pages, generations: self.generations }
    }

    pub fn source(&self) -> (source: IoDataSource)
        requires
            self.wf(),
        ensures
            self@.projects(source),
    {
        if self.pages.len() == 1 {
            return IoDataSource::PageCache {
                lease: self.id,
                frame: self.pages[0].ppn(),
                offset: 0,
                len: SEGMENT_BYTES,
            };
        }
        let mut vecs: Vec<BioVec> = Vec::new();
        let mut i: usize = 0;
        while i < self.pages.len()
            invariant
                i <= self.pages@.len(),
                vecs@ == whole_page_vecs(self.pages@).take(i as int),
            decreases self.pages@.len() - i,
        {
            vecs.push(BioVec::new(self.pages[i].ppn().0 as u64, 0, SEGMENT_BYTES));
            assert(vecs@ =~= whole_page_vecs(self.pages@).take(i + 1));
            i += 1;
        }
        assert(vecs@ =~= whole_page_vecs(self.pages@));
        IoDataSource::Direct { lease: self.id, vecs }
    }
}

#[derive(Debug)]
pub enum FileIoPayload {
    Writeback { lease: PageDataLease },
    Read { target: CachedFrame },
    Control,
}

/// What a request retains, as a value.
#[verifier::ext_equal]
pub enum PayloadView {
    Writeback { lease: LeaseView },
    Read { target: CachedFrame },
    Control,
}

impl View for FileIoPayload {
    type V = PayloadView;

    open spec fn view(&self) -> PayloadView {
        match *self {
            FileIoPayload::Writeback { lease } => PayloadView::Writeback { lease: lease@ },
            FileIoPayload::Read { target } => PayloadView::Read { target },
            FileIoPayload::Control => PayloadView::Control,
        }
    }
}

/// How a file request ended.
#[derive(Clone, Copy, Debug, PartialEq, Eq)]
pub enum FileIoTerminalResult {
    /// It never reached a backend executor.
    SubmitFailure,
    Completion {
        result: PageIoResult,
        kind: PageIoCompletionKind,
        generation: PageGeneration,
        frame: Option<Ppn>,
        notify_waiters: bool,
    },
}

/// The sole record that retains a request's resources until the terminal route
/// consumes it.
#[derive(Debug)]
pub struct OwnedFileIoRequest {
    pub request: PageIoRequest,
    pub payload: FileIoPayload,
}

/// An owned request as a value.
#[verifier::ext_equal]
pub struct OwnerView {
    pub request: PageIoRequest,
    pub payload: PayloadView,
}

impl View for OwnedFileIoRequest {
    type V = OwnerView;

    open spec fn view(&self) -> OwnerView {
        OwnerView { request: self.request, payload: self.payload@ }
    }
}

impl OwnerView {
    /// Whether a device completion of `op` may settle the page: only while the
    /// request retains the matching resource.
    pub open spec fn may_complete(self, op: PageIoOp) -> bool {
        ||| self.payload is Writeback && op == PageIoOp::Writeback
        ||| self.payload is Read && op == PageIoOp::Read
    }
}

impl OwnedFileIoRequest {
    pub open spec fn wf(&self) -> bool {
        match self.payload {
            FileIoPayload::Writeback { lease } => lease.wf(),
            FileIoPayload::Read { target } => target.wf(),
            FileIoPayload::Control => true,
        }
    }

    pub fn writeback(request: PageIoRequest, lease: PageDataLease) -> (owned: Self)
        ensures
            owned == (OwnedFileIoRequest { request, payload: FileIoPayload::Writeback { lease } }),
    {
        OwnedFileIoRequest { request, payload: FileIoPayload::Writeback { lease } }
    }

    pub fn read(request: PageIoRequest, target: CachedFrame) -> (owned: Self)
        ensures
            owned == (OwnedFileIoRequest { request, payload: FileIoPayload::Read { target } }),
    {
        OwnedFileIoRequest { request, payload: FileIoPayload::Read { target } }
    }

    pub fn control(request: PageIoRequest) -> (owned: Self)
        ensures
            owned == (OwnedFileIoRequest { request, payload: FileIoPayload::Control }),
    {
        OwnedFileIoRequest { request, payload: FileIoPayload::Control }
    }

    pub fn request(&self) -> (request: PageIoRequest)
        ensures
            request == self.request,
    {
        self.request
    }

    /// The data that a backend is to write.
    pub fn source(&self) -> (source: IoDataSource)
        requires
            self.wf(),
        ensures
            match self.payload {
                FileIoPayload::Writeback { lease } => lease@.projects(source),
                _ => source == IoDataSource::Absent,
            },
    {
        match &self.payload {
            FileIoPayload::Writeback { lease } => lease.source(),
            FileIoPayload::Read { .. } => IoDataSource::Absent,
            FileIoPayload::Control => IoDataSource::Absent,
        }
    }

    /// The frame that a backend is to fill.
    pub fn target(&self) -> (target: IoDataTarget)
        ensures
            target == match self.payload {
                FileIoPayload::Read { target } => IoDataTarget::PageCache {
                    lease: IoDataLeaseId(self.request.id.0),
                    frame: target.ppn,
                    offset: 0,
                    len: SEGMENT_BYTES,
                },
                _ => IoDataTarget::Absent,
            },
    {
        match &self.payload {
            FileIoPayload::Read { target } => IoDataTarget::PageCache {
                lease: IoDataLeaseId::new(self.request.id.raw()),
                frame: target.ppn,
                offset: 0,
                len: SEGMENT_BYTES,
            },
            FileIoPayload::Writeback { .. } => IoDataTarget::Absent,
            FileIoPayload::Control => IoDataTarget::Absent,
        }
    }

    pub fn take_payload(self) -> (payload: FileIoPayload)
        ensures
            payload == self.payload,
    {
        self.payload
    }

    pub fn completes(&self, op: PageIoOp) -> (may: bool)
        ensures
            may == self@.may_complete(op),
    {
        match (&self.payload, op) {
            (FileIoPayload::Writeback { .. }, PageIoOp::Writeback) => true,
            (FileIoPayload::Read { .. }, PageIoOp::Read) => true,
            _ => false,
        }
    }

    pub fn is_writeback(&self) -> (writeback: bool)
        ensures
            writeback == (self.payload is Writeback),
    {
        match self.payload {
            FileIoPayload::Writeback { .. } => true,
            _ => false,
        }
    }

    pub fn is_read(&self) -> (read: bool)
        ensures
            read == (self.payload is Read),
    {
        match self.payload {
            FileIoPayload::Read { .. } => true,
            _ => false,
        }
    }
}

} // verus!
