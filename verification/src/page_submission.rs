//! The requests that a container has admitted and that have not ended yet.

use crate::ids::{bump_nonzero, next_nonzero, PageGeneration, PageIoRequestId};
use crate::io::{
    IoDataSource, IoDataTarget, PageIoFlags, PageIoOp, PageIoPriority, PageIoRange, PageIoRequest,
    PageWaiter,
};
use crate::lease::{FileIoPayload, OwnedFileIoRequest, OwnerView, PayloadView};
use crate::sparse_index::{ascending, SparseMap};
use vstd::prelude::*;

verus! {

#[derive(Debug)]
pub struct PageSubmission {
    /// Most requests that may be pending at once.
    pub capacity: usize,
    pub next_id: u64,
    pub rows: SparseMap<PageIoRequest>,
    /// What the pending file requests keep alive.
    pub owners: SparseMap<OwnedFileIoRequest>,
    pub waiters: SparseMap<Vec<PageWaiter>>,
    /// Requests that stand for background graphs.
    pub background: SparseMap<bool>,
}

#[verifier::ext_equal]
pub struct SubmissionView {
    pub capacity: usize,
    pub next_id: u64,
    pub rows: Map<u64, PageIoRequest>,
    pub owners: Map<u64, OwnerView>,
    pub waiters: Map<u64, Seq<PageWaiter>>,
    pub background: Set<u64>,
}

impl View for PageSubmission {
    type V = SubmissionView;

    open spec fn view(&self) -> SubmissionView {
        SubmissionView {
            capacity: self.capacity,
            next_id: self.next_id,
            rows: self.rows@,
            owners: self.owners@.map_values(|owned: OwnedFileIoRequest| owned@),
            waiters: self.waiters@.map_values(|waiters: Vec<PageWaiter>| waiters@),
            background: self.background@.dom(),
        }
    }
}

impl SubmissionView {
    pub open spec fn empty(capacity: usize) -> Self {
        SubmissionView {
            capacity,
            next_id: 1,
            rows: Map::empty(),
            owners: Map::empty(),
            waiters: Map::empty(),
            background: Set::empty(),
        }
    }

    /// Whether another request is admitted: there is room, and its identity is
    /// not in use.
    pub open spec fn admits(self) -> bool {
        &&& self.rows.len() < self.capacity
        &&& !self.rows.contains_key(self.next_id)
        &&& !self.owners.contains_key(self.next_id)
    }

    /// The request that is admitted next.
    pub open spec fn next_request(
        self,
        range: PageIoRange,
        op: PageIoOp,
        priority: PageIoPriority,
        flags: PageIoFlags,
        generation_hint: Option<PageGeneration>,
    ) -> PageIoRequest {
        PageIoRequest {
            id: PageIoRequestId(self.next_id),
            range,
            op,
            priority,
            flags,
            generation_hint,
        }
    }

    /// With `request` pending.
    pub open spec fn with_row(self, request: PageIoRequest) -> Self {
        SubmissionView {
            next_id: next_nonzero(self.next_id),
            rows: self.rows.insert(request.id.0, request),
            ..self
        }
    }

    /// With `request` pending and retaining `payload`.
    pub open spec fn with_owner(self, request: PageIoRequest, payload: PayloadView) -> Self {
        SubmissionView {
            owners: self.owners.insert(request.id.0, OwnerView { request, payload }),
            ..self.with_row(request)
        }
    }

    /// With every trace of request `id` removed.
    pub open spec fn retired(self, id: PageIoRequestId) -> Self {
        SubmissionView {
            rows: self.rows.remove(id.0),
            owners: self.owners.remove(id.0),
            waiters: self.waiters.remove(id.0),
            ..self
        }
    }

    pub open spec fn owner(self, id: PageIoRequestId) -> Option<OwnerView> {
        if self.owners.contains_key(id.0) {
            Some(self.owners[id.0])
        } else {
            None
        }
    }

    pub open spec fn waiters_of(self, id: PageIoRequestId) -> Seq<PageWaiter> {
        if self.waiters.contains_key(id.0) {
            self.waiters[id.0]
        } else {
            Seq::empty()
        }
    }

    /// With `waiter` waiting for request `id`, if it is a request.
    pub open spec fn with_waiter(self, id: Option<PageIoRequestId>, waiter: PageWaiter) -> Self {
        match id {
            None => self,
            Some(id) => SubmissionView {
                waiters: self.waiters.insert(id.0, self.waiters_of(id).push(waiter)),
                ..self
            },
        }
    }
}

impl PageSubmission {
    pub open spec fn wf(&self) -> bool {
        &&& self.rows.wf()
        &&& self.owners.wf()
        &&& self.waiters.wf()
        &&& self.background.wf()
        &&& forall|k: u64| #[trigger]
            self.owners@.contains_key(k) ==> self.owners@[k].wf() && self.owners@[k].request.id.0
                == k
    }

    pub fn new(capacity: usize) -> (submission: Self)
        ensures
            submission.wf(),
            submission@ == SubmissionView::empty(capacity),
    {
        let submission = PageSubmission {
            capacity,
            next_id: 1,
            rows: SparseMap::new(),
            owners: SparseMap::new(),
            waiters: SparseMap::new(),
            background: SparseMap::new(),
        };
        assert(submission@ =~= SubmissionView::empty(capacity));
        submission
    }

    fn has_room(&self) -> (room: bool)
        requires
            self.wf(),
        ensures
            room == self@.admits(),
    {
        self.rows.len() < self.capacity && !self.rows.contains_key(self.next_id)
            && !self.owners.contains_key(self.next_id)
    }

    /// Admit a request that retains nothing.
    pub fn submit(
        &mut self,
        range: PageIoRange,
        op: PageIoOp,
        priority: PageIoPriority,
        flags: PageIoFlags,
        generation_hint: Option<PageGeneration>,
    ) -> (id: Option<PageIoRequestId>)
        requires
            old(self).wf(),
        ensures
            final(self).wf(),
            ({
                let request = old(self)@.next_request(range, op, priority, flags, generation_hint);
                if old(self)@.admits() {
                    id == Some(request.id) && final(self)@ == old(self)@.with_row(request)
                } else {
                    id is None && final(self)@ == old(self)@
                }
            }),
    {
        if !self.has_room() {
            return None;
        }
        let id = PageIoRequestId::new(self.next_id);
        let request = PageIoRequest::new(id, range, op, priority, flags, generation_hint);
        self.next_id = bump_nonzero(self.next_id);
        let _previous = self.rows.insert(id.0, request);
        assert(self@ =~= old(self)@.with_row(request));
        Some(id)
    }

    /// Admit a file request together with what it keeps alive. A refused
    /// payload is dropped.
    pub fn submit_owned_file_request(
        &mut self,
        range: PageIoRange,
        op: PageIoOp,
        priority: PageIoPriority,
        flags: PageIoFlags,
        generation_hint: Option<PageGeneration>,
        payload: FileIoPayload,
    ) -> (id: Option<PageIoRequestId>)
        requires
            old(self).wf(),
            match payload {
                FileIoPayload::Writeback { lease } => lease.wf(),
                FileIoPayload::Read { target } => target.wf(),
                FileIoPayload::Control => true,
            },
        ensures
            final(self).wf(),
            ({
                let request = old(self)@.next_request(range, op, priority, flags, generation_hint);
                if old(self)@.admits() {
                    id == Some(request.id) && final(self)@ == old(self)@.with_owner(
                        request,
                        payload@,
                    )
                } else {
                    id is None && final(self)@ == old(self)@
                }
            }),
    {
        if !self.has_room() {
            return None;
        }
        let id = PageIoRequestId::new(self.next_id);
        let request = PageIoRequest::new(id, range, op, priority, flags, generation_hint);
        self.next_id = bump_nonzero(self.next_id);
        let _previous_row = self.rows.insert(id.0, request);
        let _previous_owner = self.owners.insert(id.0, OwnedFileIoRequest { request, payload });
        assert(self@ =~= old(self)@.with_owner(request, payload@));
        Some(id)
    }

    /// Record `owned` as the owner of its request, unless it has one.
    pub fn admit_file_request(&mut self, owned: OwnedFileIoRequest) -> (admitted: bool)
        requires
            old(self).wf(),
            owned.wf(),
        ensures
            final(self).wf(),
            admitted == !old(self)@.owners.contains_key(owned.request.id.0),
            admitted ==> final(self)@ == (SubmissionView {
                owners: old(self)@.owners.insert(owned.request.id.0, owned@),
                ..old(self)@
            }),
            !admitted ==> final(self)@ == old(self)@,
    {
        let id: u64 = owned.request.id.raw();
        if self.owners.contains_key(id) {
            return false;
        }
        let _previous = self.owners.insert(id, owned);
        assert(self@ =~= (SubmissionView {
            owners: old(self)@.owners.insert(id, owned@),
            ..old(self)@
        }));
        true
    }

    pub fn register_waiter(&mut self, id: PageIoRequestId, waiter: PageWaiter)
        requires
            old(self).wf(),
        ensures
            final(self).wf(),
            final(self)@ == old(self)@.with_waiter(Some(id), waiter),
    {
        let ghost before = self@;
        if self.waiters.contains_key(id.0) {
            let list = self.waiters.get_mut(id.0);
            list.push(waiter);
        } else {
            let mut list: Vec<PageWaiter> = Vec::new();
            list.push(waiter);
            assert(list@ =~= Seq::<PageWaiter>::empty().push(waiter));
            let _previous = self.waiters.insert(id.0, list);
        }
        assert(self@.waiters =~= before.with_waiter(Some(id), waiter).waiters);
        assert(self@ =~= before.with_waiter(Some(id), waiter));
    }

    pub fn waiter_count(&self, id: PageIoRequestId) -> (count: usize)
        requires
            self.wf(),
        ensures
            count == self@.waiters_of(id).len(),
    {
        match self.waiters.get(id.0) {
            Some(list) => list.len(),
            None => 0,
        }
    }

    /// The oldest pending request for `range` with `op`.
    pub fn find_submission(&self, range: PageIoRange, op: PageIoOp) -> (found: Option<
        PageIoRequest,
    >)
        requires
            self.wf(),
        ensures
            match found {
                Some(request) => {
                    &&& request.range == range
                    &&& request.op == op
                    &&& exists|k: u64| #[trigger]
                        self@.rows.contains_key(k) && self@.rows[k] == request && forall|other: u64|
                            #[trigger]
                            self@.rows.contains_key(other) && self@.rows[other].range == range
                                && self@.rows[other].op == op ==> k <= other
                },
                None => forall|k: u64| #[trigger]
                    self@.rows.contains_key(k) ==> !(self@.rows[k].range == range
                        && self@.rows[k].op == op),
            },
    {
        let mut i: usize = 0;
        while i < self.rows.len()
            invariant
                self.wf(),
                i <= self.rows.order().len(),
                forall|j: int|
                    0 <= j < i ==> !(self@.rows[#[trigger] self.rows.order()[j]].range == range
                        && self@.rows[self.rows.order()[j]].op == op),
            decreases self.rows.order().len() - i,
        {
            let request = *self.rows.value_at(i);
            if request.range == range && request.op == op {
                proof {
                    let k = self.rows.order()[i as int];
                    assert forall|other: u64| #[trigger]
                        self@.rows.contains_key(other) && self@.rows[other].range == range
                            && self@.rows[other].op == op implies k <= other by {
                        let j = self.rows.order().index_of(other);
                        assert(self.rows.order()[j] == other);
                        if j != i {
                            assert(j > i);
                            assert(self.rows.order()[i as int] < self.rows.order()[j]);
                        }
                    }
                    assert(self@.rows.contains_key(k));
                }
                return Some(request);
            }
            i += 1;
        }
        proof {
            assert forall|k: u64| #[trigger] self@.rows.contains_key(k) implies !(
            self@.rows[k].range == range && self@.rows[k].op == op) by {
                let j = self.rows.order().index_of(k);
                assert(self.rows.order()[j] == k);
            }
        }
        None
    }

    /// Remove every trace of request `id`, and hand out what it kept alive and
    /// who waited for it.
    pub fn take_file_request(&mut self, id: PageIoRequestId) -> (taken: (
        Option<OwnedFileIoRequest>,
        Vec<PageWaiter>,
    ))
        requires
            old(self).wf(),
        ensures
            final(self).wf(),
            final(self)@ == old(self)@.retired(id),
            match taken.0 {
                Some(owned) => old(self)@.owner(id) == Some(owned@),
                None => old(self)@.owner(id) is None,
            },
            taken.1@ == old(self)@.waiters_of(id),
            taken.0 matches Some(owned) ==> owned.wf(),
    {
        let ghost before = self@;
        let _row = self.rows.remove(id.0);
        let owner = self.owners.remove(id.0);
        let waiters = match self.waiters.remove(id.0) {
            Some(list) => list,
            None => Vec::new(),
        };
        assert(self@.waiters =~= before.retired(id).waiters);
        assert(self@ =~= before.retired(id));
        assert(waiters@ =~= before.waiters_of(id));
        (owner, waiters)
    }

    /// The request that `id` owns.
    pub fn file_request(&self, id: PageIoRequestId) -> (request: Option<PageIoRequest>)
        requires
            self.wf(),
        ensures
            request == match self@.owner(id) {
                Some(owned) => Some(owned.request),
                None => None,
            },
    {
        match self.owners.get(id.0) {
            Some(owned) => Some(owned.request()),
            None => None,
        }
    }

    /// The data that the owner of `id` exposes to a backend.
    pub fn file_request_data(&self, id: PageIoRequestId) -> (data: (IoDataSource, IoDataTarget))
        requires
            self.wf(),
        ensures
            match self@.owner(id) {
                Some(owned) => owned_data(owned, data.0, data.1),
                None => data.0 == IoDataSource::Absent && data.1 == IoDataTarget::Absent,
            },
    {
        match self.owners.get(id.0) {
            Some(owned) => (owned.source(), owned.target()),
            None => (IoDataSource::Absent, IoDataTarget::Absent),
        }
    }

    pub fn submission_len(&self) -> (len: usize)
        requires
            self.wf(),
        ensures
            len == self@.rows.len(),
    {
        self.rows.len()
    }

    pub fn admitted_file_request_count(&self) -> (len: usize)
        requires
            self.wf(),
        ensures
            len == self@.owners.len(),
    {
        assert(self@.owners.dom() =~= self.owners@.dom());
        self.owners.len()
    }

    /// How many owners retain writeback frames.
    pub fn admitted_file_writeback_count(&self) -> (count: usize)
        requires
            self.wf(),
        ensures
            count == count_owners(ascending(self@.owners.dom()), self@.owners, true),
    {
        self.count_kind(true)
    }

    /// How many owners retain a read target.
    pub fn admitted_file_read_count(&self) -> (count: usize)
        requires
            self.wf(),
        ensures
            count == count_owners(ascending(self@.owners.dom()), self@.owners, false),
    {
        self.count_kind(false)
    }

    fn count_kind(&self, writeback: bool) -> (count: usize)
        requires
            self.wf(),
        ensures
            count == count_owners(ascending(self@.owners.dom()), self@.owners, writeback),
    {
        let mut count: usize = 0;
        let mut i: usize = 0;
        while i < self.owners.len()
            invariant
                self.wf(),
                i <= self.owners.order().len(),
                count <= i,
                count == count_owners(self.owners.order().take(i as int), self@.owners, writeback),
            decreases self.owners.order().len() - i,
        {
            let owned = self.owners.value_at(i);
            let counted = if writeback {
                owned.is_writeback()
            } else {
                owned.is_read()
            };
            if counted {
                count += 1;
            }
            assert(self.owners.order().take(i + 1).drop_last() =~= self.owners.order().take(
                i as int,
            ));
            i += 1;
        }
        proof {
            assert(self.owners.order().take(i as int) =~= self.owners.order());
            self.owners.lemma_order_ascending();
            assert(self@.owners.dom() =~= self.owners@.dom());
        }
        count
    }

    /// Set a request aside for a background graph.
    pub fn reserve_background_request(&mut self, range: PageIoRange) -> (request: Option<
        PageIoRequest,
    >)
        requires
            old(self).wf(),
        ensures
            final(self).wf(),
            ({
                let next = old(self)@.next_request(
                    range,
                    PageIoOp::Checkpoint,
                    PageIoPriority::BackgroundWriteback,
                    PageIoFlags::Writeback,
                    None,
                );
                if old(self)@.admits() {
                    request == Some(next) && final(self)@ == old(self)@.with_row(next)
                } else {
                    request is None && final(self)@ == old(self)@
                }
            }),
    {
        match self.submit(
            range,
            PageIoOp::Checkpoint,
            PageIoPriority::BackgroundWriteback,
            PageIoFlags::Writeback,
            None,
        ) {
            None => None,
            Some(id) => Some(
                PageIoRequest::new(
                    id,
                    range,
                    PageIoOp::Checkpoint,
                    PageIoPriority::BackgroundWriteback,
                    PageIoFlags::Writeback,
                    None,
                ),
            ),
        }
    }

    pub fn mark_background_graph(&mut self, id: PageIoRequestId)
        requires
            old(self).wf(),
        ensures
            final(self).wf(),
            final(self)@ == (SubmissionView {
                background: old(self)@.background.insert(id.0),
                ..old(self)@
            }),
    {
        let ghost before = self@;
        let _previous = self.background.insert(id.0, true);
        assert(self@.background =~= before.background.insert(id.0));
        assert(self@ =~= (SubmissionView {
            background: before.background.insert(id.0),
            ..before
        }));
    }

    /// Whether `id` stood for a background graph, which it then no longer does.
    pub fn take_background_graph(&mut self, id: PageIoRequestId) -> (taken: bool)
        requires
            old(self).wf(),
        ensures
            final(self).wf(),
            taken == old(self)@.background.contains(id.0),
            final(self)@ == (SubmissionView {
                background: old(self)@.background.remove(id.0),
                ..old(self)@
            }),
    {
        let ghost before = self@;
        let taken = self.background.remove(id.0).is_some();
        assert(self@.background =~= before.background.remove(id.0));
        assert(self@ =~= (SubmissionView {
            background: before.background.remove(id.0),
            ..before
        }));
        taken
    }
}

/// What an owner exposes to a backend.
pub open spec fn owned_data(owned: OwnerView, source: IoDataSource, target: IoDataTarget) -> bool {
    &&& match owned.payload {
        PayloadView::Writeback { lease } => lease.projects(source),
        _ => source == IoDataSource::Absent,
    }
    &&& target == match owned.payload {
        PayloadView::Read { target } => IoDataTarget::PageCache {
            lease: crate::ids::IoDataLeaseId(owned.request.id.0),
            frame: target.ppn,
            offset: 0,
            len: crate::lease::SEGMENT_BYTES,
        },
        _ => IoDataTarget::Absent,
    }
}

/// How many of `keys` own writeback frames, or read targets.
pub open spec fn count_owners(
    keys: Seq<u64>,
    owners: Map<u64, OwnerView>,
    writeback: bool,
) -> nat
    decreases keys.len(),
{
    if keys.len() == 0 {
        0
    } else {
        let payload = owners[keys.last()].payload;
        let one: nat = if (writeback && payload is Writeback) || (!writeback && payload is Read) {
            1
        } else {
            0
        };
        count_owners(keys.drop_last(), owners, writeback) + one
    }
}

} // verus!
