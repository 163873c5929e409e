//! User buffers of direct I/O, and the records of direct I/O in flight.

use crate::frame::Grant;
use crate::ids::{AllocError, Errno, IoDataLeaseId, PageIndex, Ppn, USER_PAGE_SIZE};
use crate::io::{copy_bio_vecs, BioVec, IoDataSource, IoDataTarget};
use crate::range::{
    PageRange, RangeReservation, RangeReservationError, RangeReservationId, RangeReservationKind,
};
use vstd::prelude::*;

verus! {

#[derive(Clone, Copy, Debug, PartialEq, Eq, Structural)]
pub enum DirectIoBufferError {
    InvalidRange,
    NotMaterialized,
    PermissionDenied,
    DmaPin(AllocError),
}

#[derive(Clone, Copy, Debug, PartialEq, Eq, Structural)]
pub enum DirectIoOperation {
    Read,
    Write,
}

impl DirectIoOperation {
    /// What the operation reserves its range for.
    pub open spec fn reservation_kind(self) -> RangeReservationKind {
        match self {
            DirectIoOperation::Read => RangeReservationKind::DirectRead,
            DirectIoOperation::Write => RangeReservationKind::DirectWrite,
        }
    }
}

/// How the kernel is going to touch a user buffer.
#[derive(Clone, Copy, Debug, PartialEq, Eq, Structural)]
pub enum UserAccessKind {
    Read,
    Write,
}

/// A user page as the page table shows it.
#[derive(Clone, Copy, Debug, PartialEq, Eq, Structural)]
pub struct UserPageSnapshot {
    pub ppn: Ppn,
    pub readable: bool,
    pub writable: bool,
}

impl UserPageSnapshot {
    pub open spec fn permits(self, access: UserAccessKind) -> bool {
        match access {
            UserAccessKind::Read => self.readable,
            UserAccessKind::Write => self.writable,
        }
    }
}

/// A page-aligned range of user addresses.
#[derive(Clone, Copy, Debug, PartialEq, Eq, Structural)]
pub struct UserRange {
    pub start: usize,
    pub len: usize,
}

impl UserRange {
    pub open spec fn pages(self) -> nat {
        (self.len / USER_PAGE_SIZE) as nat
    }

    pub fn page_count(self) -> (count: usize)
        ensures
            count == self.pages(),
    {
        self.len / USER_PAGE_SIZE
    }
}

/// Whether `len` bytes at `addr` are a buffer whose pages can be told: neither
/// the address nor the length is zero, and the end can be rounded up to a page.
pub open spec fn buffer_range_valid(addr: usize, len: usize) -> bool {
    addr != 0 && len != 0 && addr + len + (USER_PAGE_SIZE - 1) <= usize::MAX
}

/// The pages that hold `len` bytes at `addr`.
pub open spec fn buffer_range(addr: usize, len: usize) -> UserRange {
    let start = addr - addr % USER_PAGE_SIZE;
    let end = (addr + len + (USER_PAGE_SIZE - 1)) as int;
    UserRange { start: start as usize, len: ((end - end % 4096) - start) as usize }
}

/// The pages that hold `len` bytes at `addr`, and where in the first one they
/// begin.
pub fn user_range(addr: usize, len: usize) -> (r: Result<(UserRange, usize), DirectIoBufferError>)
    ensures
        match r {
            Ok((range, first_offset)) => {
                &&& buffer_range_valid(addr, len)
                &&& range == buffer_range(addr, len)
                &&& first_offset == addr % USER_PAGE_SIZE
                &&& range.start + first_offset == addr
                &&& range.start % USER_PAGE_SIZE == 0
                &&& range.len % USER_PAGE_SIZE == 0
                &&& first_offset + len <= range.len < first_offset + len + USER_PAGE_SIZE
            },
            Err(error) => {
                &&& !buffer_range_valid(addr, len)
                &&& error == DirectIoBufferError::InvalidRange
            },
        },
{
    if addr == 0 || len == 0 {
        return Err(DirectIoBufferError::InvalidRange);
    }
    let end: usize = match addr.checked_add(len) {
        Some(end) => end,
        None => {
            return Err(DirectIoBufferError::InvalidRange);
        },
    };
    let rounded: usize = match end.checked_add(USER_PAGE_SIZE - 1) {
        Some(rounded) => rounded,
        None => {
            return Err(DirectIoBufferError::InvalidRange);
        },
    };
    let first_offset: usize = addr % USER_PAGE_SIZE;
    let start: usize = addr - first_offset;
    let page_end: usize = rounded - rounded % USER_PAGE_SIZE;
    Ok((UserRange { start, len: page_end - start }, first_offset))
}

/// Length of the part of a buffer in its page `index`, when the buffer has
/// `len` bytes and begins `first_offset` bytes into its first page.
pub open spec fn segment_len(first_offset: int, len: int, index: int) -> int {
    let offset = if index == 0 {
        first_offset
    } else {
        0
    };
    let before = if index == 0 {
        0
    } else {
        index * 4096 - first_offset
    };
    let remaining = len - before;
    let available = 4096 - offset;
    if remaining <= available {
        remaining
    } else {
        available
    }
}

/// The segments of a buffer over `pages`.
pub open spec fn buffer_vecs(pages: Seq<UserPageSnapshot>, first_offset: int, len: int) -> Seq<
    BioVec,
> {
    Seq::new(
        pages.len(),
        |i: int| BioVec {
            frame: pages[i].ppn.0 as u64,
            offset: (if i == 0 {
                first_offset
            } else {
                0
            }) as u32,
            len: segment_len(first_offset, len, i) as u32,
        },
    )
}

/// Bytes that `vecs` carry together.
pub open spec fn total_len(vecs: Seq<BioVec>) -> int
    decreases vecs.len(),
{
    if vecs.len() == 0 {
        0
    } else {
        total_len(vecs.drop_last()) + vecs.last().len
    }
}

/// A pinned user buffer. It names frames and byte ranges only, never a user
/// address, and keeps the frames alive until it is dropped.
#[derive(Debug)]
pub struct DirectIoBuffer {
    pub range: UserRange,
    pub len: usize,
    pub lease: IoDataLeaseId,
    pub vecs: Vec<BioVec>,
    pub pins: Vec<Ppn>,
}

/// Why `pin` refuses a buffer, in the order in which it finds out.
pub open spec fn pin_error(
    addr: usize,
    len: usize,
    access: UserAccessKind,
    pages: Seq<UserPageSnapshot>,
    dma: Seq<Grant>,
) -> Option<DirectIoBufferError> {
    if !buffer_range_valid(addr, len) {
        Some(DirectIoBufferError::InvalidRange)
    } else if pages.len() != buffer_range(addr, len).pages() {
        Some(DirectIoBufferError::NotMaterialized)
    } else if exists|i: int| 0 <= i < pages.len() && !(#[trigger] pages[i]).permits(access) {
        Some(DirectIoBufferError::PermissionDenied)
    } else if exists|i: int| first_refusal(dma.take(pages.len() as int), i) {
        let i = choose|i: int| first_refusal(dma.take(pages.len() as int), i);
        Some(DirectIoBufferError::DmaPin(dma[i]->Err_0))
    } else {
        None
    }
}

/// Whether `i` is the first refusal among `grants`.
pub open spec fn first_refusal(grants: Seq<Grant>, i: int) -> bool {
    &&& 0 <= i < grants.len()
    &&& grants[i] is Err
    &&& forall|j: int| 0 <= j < i ==> (#[trigger] grants[j]) is Ok
}

impl DirectIoBuffer {
    /// Pin `len` bytes at user address `addr`. `pages` is what the page table
    /// shows of the buffer's pages, `dma` the allocator's answer for each of
    /// them, and `ticket` a number that no other buffer was given.
    pub fn pin(
        addr: usize,
        len: usize,
        access: UserAccessKind,
        pages: &Vec<UserPageSnapshot>,
        dma: &Vec<Grant>,
        ticket: u64,
    ) -> (r: Result<Self, DirectIoBufferError>)
        requires
            dma@.len() == pages@.len(),
        ensures
            match pin_error(addr, len, access, pages@, dma@) {
                Some(error) => r is Err && r->Err_0 == error,
                None => {
                    &&& r is Ok
                    &&& r->Ok_0.range == buffer_range(addr, len)
                    &&& r->Ok_0.len == len
                    &&& r->Ok_0.lease.0 == (if ticket == 0 {
                        1
                    } else {
                        ticket
                    })
                    &&& r->Ok_0.vecs@ == buffer_vecs(
                        pages@,
                        (addr % USER_PAGE_SIZE) as int,
                        len as int,
                    )
                    &&& r->Ok_0.pins@ == pages@.map_values(|page: UserPageSnapshot| page.ppn)
                },
            },
    {
        let (range, first_offset) = match user_range(addr, len) {
            Ok(parts) => parts,
            Err(error) => {
                return Err(error);
            },
        };
        if pages.len() != range.page_count() {
            return Err(DirectIoBufferError::NotMaterialized);
        }
        let mut i: usize = 0;
        while i < pages.len()
            invariant
                i <= pages@.len(),
                pages@.len() == buffer_range(addr, len).pages(),
                buffer_range_valid(addr, len),
                forall|j: int| 0 <= j < i ==> (#[trigger] pages@[j]).permits(access),
            decreases pages@.len() - i,
        {
            let permitted = match access {
                UserAccessKind::Read => pages[i].readable,
                UserAccessKind::Write => pages[i].writable,
            };
            if !permitted {
                assert(!pages@[i as int].permits(access));
                return Err(DirectIoBufferError::PermissionDenied);
            }
            i += 1;
        }
        let mut pins: Vec<Ppn> = Vec::new();
        let ghost asked = dma@.take(pages@.len() as int);
        let mut i: usize = 0;
        while i < pages.len()
            invariant
                i <= pages@.len(),
                dma@.len() == pages@.len(),
                asked == dma@.take(pages@.len() as int),
                buffer_range_valid(addr, len),
                pages@.len() == buffer_range(addr, len).pages(),
                forall|j: int| 0 <= j < pages@.len() ==> (#[trigger] pages@[j]).permits(access),
                forall|j: int| 0 <= j < i ==> (#[trigger] asked[j]) is Ok,
                pins@ == pages@.map_values(|page: UserPageSnapshot| page.ppn).take(i as int),
            decreases pages@.len() - i,
        {
            match dma[i] {
                Ok(()) => {
                    pins.push(pages[i].ppn);
                    assert(pins@ =~= pages@.map_values(|page: UserPageSnapshot| page.ppn).take(
                        i + 1,
                    ));
                },
                Err(error) => {
                    assert(first_refusal(asked, i as int));
                    assert forall|k: int| first_refusal(asked, k) implies k == i by {
                        if k < i {
                            assert(asked[k] is Ok);
                        } else if k > i {
                            assert(asked[i as int] is Ok);
                        }
                    }
                    return Err(DirectIoBufferError::DmaPin(error));
                },
            }
            i += 1;
        }
        assert(pins@ =~= pages@.map_values(|page: UserPageSnapshot| page.ppn));
        let mut vecs: Vec<BioVec> = Vec::new();
        let mut remaining: usize = len;
        let mut i: usize = 0;
        while i < pages.len()
            invariant
                i <= pages@.len(),
                first_offset < 4096,
                first_offset + len <= range.len < first_offset + len + 4096,
                range.len == pages@.len() * 4096,
                len > 0,
                vecs@ == buffer_vecs(pages@, first_offset as int, len as int).take(i as int),
                remaining == (if i == 0 {
                    len as int
                } else if i * 4096 - first_offset <= len {
                    len - (i * 4096 - first_offset)
                } else {
                    0
                }),
            decreases pages@.len() - i,
        {
            let offset: usize = if i == 0 {
                first_offset
            } else {
                0
            };
            let available: usize = USER_PAGE_SIZE - offset;
            let segment: usize = if remaining <= available {
                remaining
            } else {
                available
            };
            assert(i < pages@.len() ==> (i as int) * 4096 <= range.len - 4096);
            assert(segment == segment_len(first_offset as int, len as int, i as int));
            vecs.push(BioVec::new(pages[i].ppn.0 as u64, offset as u32, segment as u32));
            remaining -= segment;
            assert(vecs@ =~= buffer_vecs(pages@, first_offset as int, len as int).take(i + 1));
            i += 1;
        }
        assert(vecs@ =~= buffer_vecs(pages@, first_offset as int, len as int));
        let lease = IoDataLeaseId::new(
            if ticket == 0 {
                1
            } else {
                ticket
            },
        );
        Ok(DirectIoBuffer { range, len, lease, vecs, pins })
    }

    pub fn range(&self) -> (range: UserRange)
        ensures
            range == self.range,
    {
        self.range
    }

    pub fn len(&self) -> (len: usize)
        ensures
            len == self.len,
    {
        self.len
    }

    pub fn vecs(&self) -> (vecs: &Vec<BioVec>)
        ensures
            vecs@ == self.vecs@,
    {
        &self.vecs
    }

    pub fn lease_id(&self) -> (lease: IoDataLeaseId)
        ensures
            lease == self.lease,
    {
        self.lease
    }

    pub fn pin_count(&self) -> (count: usize)
        ensures
            count == self.pins@.len(),
    {
        self.pins.len()
    }

    pub fn as_source(&self) -> (source: IoDataSource)
        ensures
            source matches IoDataSource::Direct { lease, vecs } && lease == self.lease && vecs@
                == self.vecs@,
    {
        IoDataSource::Direct { lease: self.lease, vecs: copy_bio_vecs(&self.vecs) }
    }

    pub fn as_target(&self) -> (target: IoDataTarget)
        ensures
            target matches IoDataTarget::Direct { lease, vecs } && lease == self.lease && vecs@
                == self.vecs@,
    {
        IoDataTarget::Direct { lease: self.lease, vecs: copy_bio_vecs(&self.vecs) }
    }
}

/// What the filesystem planner is told of an admitted direct transfer.
#[derive(Debug)]
pub struct DirectIoSubmission {
    pub lease: IoDataLeaseId,
    pub range: PageRange,
    pub operation: DirectIoOperation,
    pub source: Option<IoDataSource>,
    pub target: Option<IoDataTarget>,
}

impl DirectIoSubmission {
    /// Whether this describes `operation` on `range` with `buffer`: a read has
    /// the buffer as its target, a write as its source.
    pub open spec fn describes(
        &self,
        range: PageRange,
        buffer: DirectIoBuffer,
        operation: DirectIoOperation,
    ) -> bool {
        &&& self.lease == buffer.lease
        &&& self.range == range
        &&& self.operation == operation
        &&& match operation {
            DirectIoOperation::Read => {
                &&& self.source is None
                &&& self.target matches Some(IoDataTarget::Direct { lease, vecs }) && lease
                    == buffer.lease && vecs@ == buffer.vecs@
            },
            DirectIoOperation::Write => {
                &&& self.target is None
                &&& self.source matches Some(IoDataSource::Direct { lease, vecs }) && lease
                    == buffer.lease && vecs@ == buffer.vecs@
            },
        }
    }

    pub fn read(range: PageRange, buffer: &DirectIoBuffer) -> (submission: Self)
        ensures
            submission.describes(range, *buffer, DirectIoOperation::Read),
    {
        DirectIoSubmission {
            lease: buffer.lease_id(),
            range,
            operation: DirectIoOperation::Read,
            source: None,
            target: Some(buffer.as_target()),
        }
    }

    pub fn write(range: PageRange, buffer: &DirectIoBuffer) -> (submission: Self)
        ensures
            submission.describes(range, *buffer, DirectIoOperation::Write),
    {
        DirectIoSubmission {
            lease: buffer.lease_id(),
            range,
            operation: DirectIoOperation::Write,
            source: Some(buffer.as_source()),
            target: None,
        }
    }

    pub fn lease_id(&self) -> (lease: IoDataLeaseId)
        ensures
            lease == self.lease,
    {
        self.lease
    }

    pub fn range(&self) -> (range: PageRange)
        ensures
            range == self.range,
    {
        self.range
    }

    pub fn operation(&self) -> (operation: DirectIoOperation)
        ensures
            operation == self.operation,
    {
        self.operation
    }

    pub fn source(&self) -> (source: Option<&IoDataSource>)
        ensures
            match source {
                Some(source) => self.source == Some(*source),
                None => self.source is None,
            },
    {
        self.source.as_ref()
    }

    pub fn target(&self) -> (target: Option<&IoDataTarget>)
        ensures
            match target {
                Some(target) => self.target == Some(*target),
                None => self.target is None,
            },
    {
        self.target.as_ref()
    }
}

/// An admitted direct transfer whose end can be waited for.
#[derive(Debug)]
pub struct DirectIoWaitableSubmission {
    pub submission: DirectIoSubmission,
    pub wait_source: u64,
}

impl DirectIoWaitableSubmission {
    pub fn lease_id(&self) -> (lease: IoDataLeaseId)
        ensures
            lease == self.submission.lease,
    {
        self.submission.lease_id()
    }

    pub fn wait_source_id(&self) -> (source: u64)
        ensures
            source == self.wait_source,
    {
        self.wait_source
    }
}

#[derive(Clone, Copy, Debug, PartialEq, Eq, Structural)]
pub enum DirectIoCompletion {
    Read,
    Write { invalidated: usize },
}

#[derive(Clone, Copy, Debug, PartialEq, Eq, Structural)]
pub enum DirectIoBusy {
    Dirty,
    Writeback,
    Fetching,
}

#[derive(Clone, Copy, Debug, PartialEq, Eq, Structural)]
pub enum DirectIoAdmissionError {
    UnsupportedKind,
    OutOfBounds,
    Range(RangeReservationError),
    DuplicateLease(IoDataLeaseId),
    Busy { page: PageIndex, state: DirectIoBusy },
}

impl From<RangeReservationError> for DirectIoAdmissionError {
    fn from(error: RangeReservationError) -> (admission: Self) {
        DirectIoAdmissionError::Range(error)
    }
}

impl vstd::std_specs::convert::FromSpecImpl<RangeReservationError> for DirectIoAdmissionError {
    open spec fn obeys_from_spec() -> bool {
        true
    }

    open spec fn from_spec(error: RangeReservationError) -> Self {
        DirectIoAdmissionError::Range(error)
    }
}

#[derive(Clone, Copy, Debug, PartialEq, Eq, Structural)]
pub enum DirectIoCompletionError {
    UnknownLease(IoDataLeaseId),
    UnknownReservation(RangeReservationId),
    WrongReservationKind { expected: RangeReservationKind, actual: RangeReservationKind },
    Backend(Errno),
}

#[derive(Clone, Copy, Debug, PartialEq, Eq, Structural)]
pub enum DirectIoSubmissionError {
    UnknownLease(IoDataLeaseId),
    OperationMismatch,
    Busy(IoDataLeaseId),
    MissingBackendPlanner,
    Backend(Errno),
    UnsupportedBackendPlan,
    Queue(Errno),
}

#[derive(Clone, Copy, Debug, PartialEq, Eq)]
pub enum DirectIoInFlightState {
    Admitted,
    Planning,
    Queued,
    /// The device is done; coherency with the cache is still to be restored.
    CompletionPending { result: Result<(), Errno> },
}

#[derive(Debug)]
pub struct DirectIoInFlight {
    pub reservation: RangeReservation,
    pub buffer: DirectIoBuffer,
    pub operation: DirectIoOperation,
    pub state: DirectIoInFlightState,
    /// The wait source of a submitter that waits for the end.
    pub completion_wait: Option<u64>,
}

/// The end of a direct transfer, kept for its submitter.
#[derive(Debug)]
pub struct DirectIoCompleted {
    pub result: Result<DirectIoCompletion, DirectIoCompletionError>,
    pub wait: u64,
}

proof fn lemma_total_prefix(
    pages: Seq<UserPageSnapshot>,
    first_offset: int,
    len: int,
    count: int,
)
    requires
        0 <= first_offset < 4096,
        0 < len,
        first_offset + len <= pages.len() * 4096 < first_offset + len + 4096,
        0 <= count <= pages.len(),
        forall|i: int|
            0 <= i < pages.len() ==> 0 <= (#[trigger] segment_len(first_offset, len, i)) <= 4096,
    ensures
        total_len(buffer_vecs(pages, first_offset, len).take(count)) == if count == 0 {
            0
        } else if count * 4096 - first_offset <= len {
            count * 4096 - first_offset
        } else {
            len
        },
    decreases count,
{
    let vecs = buffer_vecs(pages, first_offset, len);
    if count > 0 {
        lemma_total_prefix(pages, first_offset, len, count - 1);
        assert(vecs.take(count).drop_last() =~= vecs.take(count - 1));
        assert(vecs.take(count).last() == vecs[count - 1]);
        assert(vecs[count - 1].len == segment_len(first_offset, len, count - 1));
    }
}

/// The segments of a pinned buffer carry exactly its bytes.
pub proof fn law_buffer_segments_cover_the_buffer(
    addr: usize,
    len: usize,
    pages: Seq<UserPageSnapshot>,
)
    requires
        buffer_range_valid(addr, len),
        pages.len() == buffer_range(addr, len).pages(),
    ensures
        total_len(buffer_vecs(pages, (addr % USER_PAGE_SIZE) as int, len as int)) == len,
{
    let first_offset = (addr % USER_PAGE_SIZE) as int;
    let range = buffer_range(addr, len);
    assert(pages.len() * 4096 == range.len);
    assert forall|i: int| 0 <= i < pages.len() implies 0 <= (#[trigger] segment_len(
        first_offset,
        len as int,
        i,
    )) <= 4096 by {
        assert(i * 4096 <= range.len - 4096);
    }
    lemma_total_prefix(pages, first_offset, len as int, pages.len() as int);
    let vecs = buffer_vecs(pages, first_offset, len as int);
    assert(vecs.take(pages.len() as int) =~= vecs);
    assert(pages.len() > 0);
}

} // verus!
