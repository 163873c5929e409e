//! The page container: one object's cached pages with everything that is
//! going on around them.

use crate::block_runtime::{BlockSubmissionHandle, BlockView};
use crate::direct_io::{DirectIoCompleted, DirectIoInFlight};
use crate::frame::PageCacheError;
use crate::fsync_submission::FsyncSubmission;
use crate::ids::{
    bump_nonzero, next_nonzero, FsObjectId, PageGeneration, PageIndex, PageIoRequestId, Ppn,
    PAGE_BYTES,
};
use crate::page_cache::{PageCacheEntry, PageCacheIndex, PageMarks};
use crate::page_submission::{PageSubmission, SubmissionView};
use crate::range::{RangeReservation, RangeReservationKind, RangeReservationTable};
use crate::resident::{ResidentCell, ResidentRoot};
use crate::slot::{PageSlot, PageSlotSnapshot, PageSlotState};
use crate::sparse_index::SparseMap;
use vstd::prelude::*;

verus! {

#[derive(Clone, Copy, Debug, PartialEq, Eq, Structural)]
pub enum AnonSwapPolicy {
    Reclaimable,
    Persistent,
}

/// A mounted filesystem, as far as its page containers care.
#[derive(Clone, Copy, Debug, PartialEq, Eq, Structural)]
pub struct MountPin {
    pub trace_id: u64,
    /// Whether the mount has a backend planner, which turns page requests into
    /// block transfers.
    pub backend_planner: bool,
}

#[derive(Clone, Copy, Debug, PartialEq, Eq, Structural)]
pub enum PageContainerKind {
    Anon { swap_policy: AnonSwapPolicy },
    File { mount: MountPin, fs_object_id: FsObjectId },
    Device { base_ppn: Ppn, page_count: u64 },
}

#[derive(Clone, Copy, Debug, PartialEq, Eq, Structural)]
pub enum MaterializeAccess {
    Read,
    Write,
}

#[derive(Clone, Copy, Debug, PartialEq, Eq, Structural)]
pub struct FilePageFetchId(pub u64);

/// A fetch of one file page that is under way.
#[derive(Clone, Copy, Debug, PartialEq, Eq, Structural)]
pub struct FilePageFetch {
    pub id: FilePageFetchId,
    pub generation: PageGeneration,
    pub request_id: Option<PageIoRequestId>,
    pub source_id: Option<u64>,
    pub joined: bool,
}

impl FilePageFetch {
    pub fn new(id: FilePageFetchId) -> (fetch: Self)
        ensures
            fetch == (FilePageFetch {
                id,
                generation: PageGeneration(id.0),
                request_id: None,
                source_id: None,
                joined: false,
            }),
    {
        FilePageFetch::with_l4_request(id, None)
    }

    pub fn with_l4_request(id: FilePageFetchId, request_id: Option<PageIoRequestId>) -> (fetch:
        Self)
        ensures
            fetch == (FilePageFetch {
                id,
                generation: PageGeneration(id.0),
                request_id,
                source_id: None,
                joined: false,
            }),
    {
        FilePageFetch::with_l4_request_generation(id, PageGeneration::new(id.0), request_id)
    }

    pub fn with_l4_request_generation(
        id: FilePageFetchId,
        generation: PageGeneration,
        request_id: Option<PageIoRequestId>,
    ) -> (fetch: Self)
        ensures
            fetch == (FilePageFetch {
                id,
                generation,
                request_id,
                source_id: None,
                joined: false,
            }),
    {
        FilePageFetch { id, generation, request_id, source_id: None, joined: false }
    }
}

/// Most pages that one writeback request carries.
pub const MAX_FILE_WRITEBACK_BATCH_PAGES: usize = 64;

/// Requests that a container keeps pending at most.
pub const PAGE_SUBMISSION_CAPACITY: usize = 1024;

/// Transfers that wait for the device at most.
pub const BLOCK_QUEUE_CAPACITY: usize = 1024;

/// Transfers that are at the device at most.
pub const BLOCK_QUEUE_DEPTH: usize = 16;

pub struct PageContainer {
    pub kind: PageContainerKind,
    pub page_count: u64,
    pub size_bytes: u64,
    /// Size that the backing store has, where that is known.
    pub stored_size: Option<u64>,
    /// Whether pages were flushed since the backing store was last told the
    /// exact size.
    pub eof_pending: bool,
    pub resident: ResidentRoot,
    pub resident_sequence: u64,
    pub direct_io_active: u64,
    pub page_submission: PageSubmission,
    pub block_submission: BlockSubmissionHandle,
    pub pages: PageCacheIndex,
    pub page_slots: SparseMap<PageSlot>,
    pub in_flight_file_pages: SparseMap<FilePageFetch>,
    pub fsync_submissions: SparseMap<FsyncSubmission>,
    pub range_reservations: RangeReservationTable,
    pub direct_io_in_flight: SparseMap<DirectIoInFlight>,
    pub direct_io_completed: SparseMap<DirectIoCompleted>,
    /// Page wait sources. They outlive the fetch, so that a task that was told
    /// to wait can still register.
    pub file_page_waits: SparseMap<u64>,
    pub next_file_fetch_id: u64,
}

/// A container as a value.
#[verifier::ext_equal]
pub struct ContainerView {
    pub kind: PageContainerKind,
    pub page_count: u64,
    pub size_bytes: u64,
    pub stored_size: Option<u64>,
    pub eof_pending: bool,
    /// Published bindings.
    pub root: Map<u64, ResidentCell>,
    pub sequence: u64,
    pub direct_active: u64,
    pub submission: SubmissionView,
    pub block: BlockView,
    /// Cached pages.
    pub pages: Map<u64, PageCacheEntry>,
    pub slots: Map<u64, PageSlot>,
    pub fetches: Map<u64, FilePageFetch>,
    pub fsyncs: Map<u64, FsyncSubmission>,
    pub reservations: Seq<RangeReservation>,
    pub next_reservation: u64,
    pub direct: Map<u64, DirectIoInFlight>,
    pub direct_done: Map<u64, DirectIoCompleted>,
    pub waits: Map<u64, u64>,
    pub next_fetch: u64,
}

impl View for PageContainer {
    type V = ContainerView;

    open spec fn view(&self) -> ContainerView {
        ContainerView {
            kind: self.kind,
            page_count: self.page_count,
            size_bytes: self.size_bytes,
            stored_size: self.stored_size,
            eof_pending: self.eof_pending,
            root: self.resident@,
            sequence: self.resident_sequence,
            direct_active: self.direct_io_active,
            submission: self.page_submission@,
            block: self.block_submission@,
            pages: self.pages@,
            slots: self.page_slots@,
            fetches: self.in_flight_file_pages@,
            fsyncs: self.fsync_submissions@,
            reservations: self.range_reservations@,
            next_reservation: self.range_reservations.next_id,
            direct: self.direct_io_in_flight@,
            direct_done: self.direct_io_completed@,
            waits: self.file_page_waits@,
            next_fetch: self.next_file_fetch_id,
        }
    }
}

/// How many of `live` belong to direct I/O.
pub open spec fn direct_count(live: Seq<RangeReservation>) -> nat
    decreases live.len(),
{
    if live.len() == 0 {
        0
    } else {
        direct_count(live.drop_last()) + is_direct(live.last().kind)
    }
}

pub open spec fn is_direct(kind: RangeReservationKind) -> nat {
    if kind is DirectRead || kind is DirectWrite {
        1
    } else {
        0
    }
}

/// Whether `token` is no forgery: a live reservation with its identity, if there
/// is one, is `token` itself.
pub open spec fn honest(live: Seq<RangeReservation>, token: RangeReservation) -> bool {
    forall|i: int| 0 <= i < live.len() && (#[trigger] live[i]).id == token.id ==> live[i] == token
}

/// Whether `token` was given out by the table whose next identity is `next_id`.
pub open spec fn genuine(live: Seq<RangeReservation>, next_id: u64, token: RangeReservation) -> bool {
    token.id.0 < next_id && honest(live, token)
}

/// Whether a slot holds contents that are not on the backing store.
pub open spec fn holds_dirt(slot: PageSlotSnapshot) -> bool {
    slot.state is Dirty || slot.state is Writeback
}

pub fn page_slot_is_dirty(snapshot: PageSlotSnapshot) -> (dirty: bool)
    ensures
        dirty == holds_dirt(snapshot),
{
    match snapshot.state {
        PageSlotState::Dirty { .. } => true,
        PageSlotState::Writeback { .. } => true,
        _ => false,
    }
}

impl ContainerView {
    pub open spec fn cached(self, page: PageIndex) -> bool {
        self.pages.contains_key(page.0)
    }

    pub open spec fn frame_of(self, page: PageIndex) -> Option<Ppn> {
        if self.cached(page) {
            Some(self.pages[page.0].ppn)
        } else {
            None
        }
    }

    /// The state of a page. A page without a slot is in the initial state.
    pub open spec fn slot(self, page: PageIndex) -> PageSlotSnapshot {
        if self.slots.contains_key(page.0) {
            self.slots[page.0].inner
        } else {
            PageSlotSnapshot::empty()
        }
    }

    pub open spec fn with_slot(self, page: PageIndex, slot: PageSlotSnapshot) -> Self {
        ContainerView { slots: self.slots.insert(page.0, PageSlot { inner: slot }), ..self }
    }

    /// With a slot for `page`, in whatever state it is.
    pub open spec fn touched(self, page: PageIndex) -> Self {
        self.with_slot(page, self.slot(page))
    }

    pub open spec fn with_pages(self, pages: Map<u64, PageCacheEntry>) -> Self {
        ContainerView { pages, ..self }
    }

    /// The marks of a cached page.
    pub open spec fn marks(self, page: PageIndex) -> Option<PageMarks> {
        if self.cached(page) {
            let marks = self.pages[page.0].marks;
            Some(
                PageMarks {
                    dirty: holds_dirt(self.slot(page)),
                    writeback: self.slot(page).state is Writeback,
                    referenced: marks.referenced,
                    no_reclaim: marks.no_reclaim,
                },
            )
        } else {
            None
        }
    }

    /// Bytes that the container can hold, if that is a number.
    pub open spec fn capacity(self) -> Option<u64> {
        if self.page_count * PAGE_BYTES <= u64::MAX {
            Some((self.page_count * PAGE_BYTES) as u64)
        } else {
            None
        }
    }

    /// The kind, the size and the number of pages are those of `other`.
    pub open spec fn same_shape(self, other: Self) -> bool {
        &&& self.kind == other.kind
        &&& self.size_bytes == other.size_bytes
        &&& self.stored_size == other.stored_size
        &&& self.eof_pending == other.eof_pending
        &&& self.page_count == other.page_count
    }

    /// A slot that names a frame is that of a cached page.
    pub open spec fn frames_are_cached(self) -> bool {
        forall|k: u64| #[trigger]
            self.slots.contains_key(k) && self.slots[k].inner.state.frame() is Some
                ==> self.pages.contains_key(k)
    }

    /// A fetch with a request is of an absent page, whose slot waits for the
    /// version that is fetched.
    pub open spec fn fetches_in_order(self) -> bool {
        forall|k: u64| #[trigger]
            self.fetches.contains_key(k) && self.fetches[k].request_id is Some ==> {
                &&& !self.pages.contains_key(k)
                &&& self.slots.contains_key(k)
                &&& self.slots[k].inner.state is Fetching
                &&& self.slots[k].inner.generation == self.fetches[k].generation
            }
    }

    /// The parts agree: every cached page has a slot, which names no other
    /// frame; only slots of cached pages name frames; every published binding
    /// is a cached page; requested fetches are in order; the tokens of direct
    /// I/O in flight are genuine; and the count of direct I/O is right.
    pub open spec fn consistent(self) -> bool {
        &&& self.frames_are_cached()
        &&& self.fetches_in_order()
        &&& forall|k: u64| #[trigger]
            self.pages.contains_key(k) ==> {
                &&& self.slots.contains_key(k)
                &&& self.slots[k].inner.state.frame() matches Some(ppn) ==> ppn
                    == self.pages[k].ppn
            }
        &&& forall|k: u64| #[trigger]
            self.root.contains_key(k) ==> {
                &&& self.pages.contains_key(k)
                &&& self.root[k] == self.pages[k].binding()
            }
        &&& forall|k: u64| #[trigger]
            self.direct.contains_key(k) ==> {
                &&& genuine(self.reservations, self.next_reservation, self.direct[k].reservation)
                &&& self.direct[k].reservation.kind == self.direct[k].operation.reservation_kind()
                &&& self.direct[k].buffer.lease.0 == k
            }
        &&& self.direct_active == direct_count(self.reservations)
    }

    /// Whether every fetch here is one of `before`, for the same version and, if
    /// for any, for the same request.
    pub open spec fn fetches_of(self, before: Self) -> bool {
        forall|k: u64| #[trigger]
            self.fetches.contains_key(k) ==> {
                &&& before.fetches.contains_key(k)
                &&& self.fetches[k].generation == before.fetches[k].generation
                &&& self.fetches[k].request_id is Some ==> self.fetches[k].request_id
                    == before.fetches[k].request_id
            }
    }

    /// Consistency concerns the cache, the root, the slots, the fetches, direct
    /// I/O and the reservations only.
    pub proof fn lemma_consistent_frame(self, other: Self)
        requires
            self.consistent(),
            other.fetches_of(self),
            other.pages == self.pages,
            other.slots == self.slots,
            other.root == self.root,
            other.direct.submap_of(self.direct),
            other.reservations == self.reservations,
            other.next_reservation == self.next_reservation,
            other.direct_active == self.direct_active,
        ensures
            other.consistent(),
    {
        assert forall|k: u64| #[trigger] other.direct.contains_key(k) implies {
            &&& genuine(other.reservations, other.next_reservation, other.direct[k].reservation)
            &&& other.direct[k].reservation.kind == other.direct[k].operation.reservation_kind()
            &&& other.direct[k].buffer.lease.0 == k
        } by {
            assert(self.direct.contains_key(k));
        }
    }
}

impl PageContainer {
    pub open spec fn wf(&self) -> bool {
        self.parts_wf() && self@.consistent()
    }

    /// As it should be but for the fetch of `page`, which is still to be ended.
    pub open spec fn wf_but_fetch(&self, page: PageIndex) -> bool {
        self.parts_wf() && self@.without_fetch(page).consistent()
    }

    /// The parts are as they should be, each by itself.
    pub open spec fn parts_wf(&self) -> bool {
        &&& self.resident.wf()
        &&& self.page_submission.wf()
        &&& self.block_submission.wf()
        &&& self.pages.wf()
        &&& self.page_slots.wf()
        &&& self.in_flight_file_pages.wf()
        &&& self.fsync_submissions.wf()
        &&& self.range_reservations.wf()
        &&& self.range_reservations.ids_unique()
        &&& self.direct_io_in_flight.wf()
        &&& self.direct_io_completed.wf()
        &&& self.file_page_waits.wf()
    }

    /// An empty container of `page_count` pages, visible up to its capacity,
    /// which is the size that the backing store is taken to have.
    pub fn new(kind: PageContainerKind, page_count: u64) -> (pc: Self)
        ensures
            pc.wf(),
            pc@ == (ContainerView {
                kind,
                page_count,
                size_bytes: if page_count * PAGE_BYTES <= u64::MAX {
                    (page_count * PAGE_BYTES) as u64
                } else {
                    u64::MAX
                },
                stored_size: Some(
                    if page_count * PAGE_BYTES <= u64::MAX {
                        (page_count * PAGE_BYTES) as u64
                    } else {
                        u64::MAX
                    },
                ),
                eof_pending: false,
                root: Map::empty(),
                sequence: 0,
                direct_active: 0,
                submission: SubmissionView::empty(PAGE_SUBMISSION_CAPACITY),
                block: BlockView::empty(BLOCK_QUEUE_CAPACITY, BLOCK_QUEUE_DEPTH),
                pages: Map::empty(),
                slots: Map::empty(),
                fetches: Map::empty(),
                fsyncs: Map::empty(),
                reservations: Seq::empty(),
                next_reservation: 1,
                direct: Map::empty(),
                direct_done: Map::empty(),
                waits: Map::empty(),
                next_fetch: 1,
            }),
    {
        let size_bytes: u64 = match page_count.checked_mul(PAGE_BYTES) {
            Some(capacity) => capacity,
            None => u64::MAX,
        };
        PageContainer {
            kind,
            page_count,
            size_bytes,
            stored_size: Some(size_bytes),
            eof_pending: false,
            resident: ResidentRoot::empty(),
            resident_sequence: 0,
            direct_io_active: 0,
            page_submission: PageSubmission::new(PAGE_SUBMISSION_CAPACITY),
            block_submission: BlockSubmissionHandle::new(BLOCK_QUEUE_CAPACITY, BLOCK_QUEUE_DEPTH),
            pages: PageCacheIndex::new(),
            page_slots: SparseMap::new(),
            in_flight_file_pages: SparseMap::new(),
            fsync_submissions: SparseMap::new(),
            range_reservations: RangeReservationTable::new(),
            direct_io_in_flight: SparseMap::new(),
            direct_io_completed: SparseMap::new(),
            file_page_waits: SparseMap::new(),
            next_file_fetch_id: 1,
        }
    }

    pub fn kind(&self) -> (kind: PageContainerKind)
        ensures
            kind == self@.kind,
    {
        self.kind
    }

    pub fn is_file(&self) -> (file: bool)
        ensures
            file == (self@.kind is File),
    {
        match self.kind {
            PageContainerKind::File { .. } => true,
            _ => false,
        }
    }

    pub fn is_device(&self) -> (device: bool)
        ensures
            device == (self@.kind is Device),
    {
        match self.kind {
            PageContainerKind::Device { .. } => true,
            _ => false,
        }
    }

    pub fn page_count(&self) -> (page_count: u64)
        ensures
            page_count == self@.page_count,
    {
        self.page_count
    }

    pub fn size_bytes(&self) -> (size: u64)
        ensures
            size == self@.size_bytes,
    {
        self.size_bytes
    }

    pub fn resident_pages(&self) -> (count: usize)
        requires
            self.wf(),
        ensures
            count == self@.pages.len(),
    {
        self.pages.len()
    }

    pub fn lookup(&self, page: PageIndex) -> (ppn: Option<Ppn>)
        requires
            self.wf(),
        ensures
            ppn == self@.frame_of(page),
    {
        self.pages.lookup(page)
    }

    /// The published binding of `page`.
    pub fn lookup_resident(&self, page: PageIndex) -> (cell: Option<ResidentCell>)
        requires
            self.wf(),
        ensures
            cell == (if self@.root.contains_key(page.0) {
                Some(self@.root[page.0])
            } else {
                None
            }),
    {
        self.resident.lookup(page)
    }

    /// The published root, for a reader to keep.
    pub fn resident_root(&self) -> (root: ResidentRoot)
        requires
            self.wf(),
        ensures
            root.wf(),
            root@ == self@.root,
    {
        self.resident.snapshot()
    }

    /// The state of a page that has a slot.
    pub fn page_slot_snapshot(&self, page: PageIndex) -> (snapshot: Option<PageSlotSnapshot>)
        requires
            self.parts_wf(),
        ensures
            snapshot == (if self@.slots.contains_key(page.0) {
                Some(self@.slot(page))
            } else {
                None
            }),
    {
        match self.page_slots.get(page.0) {
            Some(slot) => Some(slot.snapshot()),
            None => None,
        }
    }

    pub fn page_marks(&self, page: PageIndex) -> (marks: Option<PageMarks>)
        requires
            self.wf(),
        ensures
            marks == self@.marks(page),
    {
        match self.pages.marks(page) {
            None => None,
            Some(marks) => {
                let mut marks = marks;
                match self.page_slots.get(page.0) {
                    Some(slot) => match slot.snapshot().state {
                        PageSlotState::Dirty { .. } => {
                            marks.dirty = true;
                        },
                        PageSlotState::Writeback { .. } => {
                            marks.dirty = true;
                            marks.writeback = true;
                        },
                        _ => {},
                    },
                    None => {},
                }
                Some(marks)
            },
        }
    }

    pub fn check_bounds(&self, page: PageIndex) -> (r: Result<(), PageCacheError>)
        ensures
            r == (if page.0 >= self@.page_count {
                Err::<(), PageCacheError>(PageCacheError::OutOfBounds)
            } else {
                Ok(())
            }),
    {
        if page.0 >= self.page_count {
            return Err(PageCacheError::OutOfBounds);
        }
        Ok(())
    }

    pub fn byte_capacity(&self) -> (capacity: Option<u64>)
        ensures
            capacity == self@.capacity(),
    {
        self.page_count.checked_mul(PAGE_BYTES)
    }

    /// Set the visible size. The backing store is not told.
    pub fn set_size_bytes(&mut self, size: u64)
        requires
            old(self).wf(),
        ensures
            final(self).wf(),
            final(self)@ == (ContainerView { size_bytes: size, ..old(self)@ }),
    {
        self.size_bytes = size;
    }

    /// Set the visible size to the one that the backing store has.
    pub fn set_size_bytes_persisted(&mut self, size: u64)
        requires
            old(self).wf(),
        ensures
            final(self).wf(),
            final(self)@ == (ContainerView {
                size_bytes: size,
                stored_size: Some(size),
                eof_pending: false,
                ..old(self)@
            }),
    {
        self.size_bytes = size;
        self.stored_size = Some(size);
        self.eof_pending = false;
    }

    /// Make at least `new_size` bytes visible.
    pub fn grow_size_to(&mut self, new_size: u64)
        requires
            old(self).wf(),
        ensures
            final(self).wf(),
            final(self)@ == (ContainerView {
                size_bytes: if new_size > old(self)@.size_bytes {
                    new_size
                } else {
                    old(self)@.size_bytes
                },
                ..old(self)@
            }),
    {
        if new_size > self.size_bytes {
            self.size_bytes = new_size;
        }
    }

    pub fn allocate_file_fetch_id(&mut self) -> (id: FilePageFetchId)
        requires
            old(self).wf(),
        ensures
            final(self).wf(),
            id == FilePageFetchId(old(self)@.next_fetch),
            final(self)@ == (ContainerView {
                next_fetch: next_nonzero(old(self)@.next_fetch),
                ..old(self)@
            }),
    {
        let id = FilePageFetchId(self.next_file_fetch_id);
        self.next_file_fetch_id = bump_nonzero(self.next_file_fetch_id);
        id
    }

    /// Make sure that `page` has a slot.
    pub fn resident_slot(&mut self, page: PageIndex)
        requires
            old(self).wf(),
        ensures
            final(self).wf(),
            final(self)@ == old(self)@.touched(page),
    {
        let ghost before = self@;
        if !self.page_slots.contains_key(page.0) {
            let _previous = self.page_slots.insert(page.0, PageSlot::new());
        }
        proof {
            assert(self@.slots =~= before.touched(page).slots);
            assert(self@ =~= before.touched(page));
        }
    }

}

} // verus!
