//! Direct I/O on a file container: admission against the page cache, the life
//! of a lease, and coherency when the device is done.

use crate::backend::BackendPlan;
use crate::block_runtime::{direct_queue_errno, queue_errno, BioPlan, MergedBio};
use crate::container::{
    direct_count, genuine, holds_dirt, honest, is_direct, ContainerView, PageContainer, PageContainerKind,
};
use crate::direct_io::{
    DirectIoAdmissionError, DirectIoBuffer, DirectIoBusy, DirectIoCompleted, DirectIoCompletion,
    DirectIoCompletionError, DirectIoInFlight, DirectIoInFlightState, DirectIoOperation,
    DirectIoSubmission, DirectIoSubmissionError, DirectIoWaitableSubmission,
};
use crate::frame::PageCacheError;
use crate::ids::{Errno, IoDataLeaseId, PageGeneration, PageIndex, PageIoRequestId, Ppn};
use crate::io::{PageIoFlags, PageIoOp, PageIoPriority, PageIoRange, PageIoRequest};
use crate::page_cache::{lemma_selected, lemma_selected_increasing, selected};
use crate::range::{
    blocked, first_with_id, has_id, released, reservation_outcome, source_index, without_index, PageRange,
    RangeReservation, RangeReservationError, RangeReservationId, RangeReservationKind,
};
use crate::residency::{distinct_pages, pages_of};
use crate::slot::{PageSlotSnapshot, PageSlotState};
use crate::sparse_index::{ascending, lemma_picked, picked};
use vstd::prelude::*;

verus! {

/// What keeps direct I/O away from a page in this state.
pub open spec fn busy_state(slot: PageSlotSnapshot) -> Option<DirectIoBusy> {
    match slot.state {
        PageSlotState::Dirty { .. } => Some(DirectIoBusy::Dirty),
        PageSlotState::Writeback { .. } => Some(DirectIoBusy::Writeback),
        PageSlotState::Fetching => Some(DirectIoBusy::Fetching),
        _ => None,
    }
}

fn direct_busy(slot: PageSlotSnapshot) -> (busy: Option<DirectIoBusy>)
    ensures
        busy == busy_state(slot),
{
    match slot.state {
        PageSlotState::Dirty { .. } => Some(DirectIoBusy::Dirty),
        PageSlotState::Writeback { .. } => Some(DirectIoBusy::Writeback),
        PageSlotState::Fetching => Some(DirectIoBusy::Fetching),
        _ => None,
    }
}

/// Whether `k` is the lowest member of `set`.
pub open spec fn lowest(set: Set<u64>, k: u64) -> bool {
    set.contains(k) && forall|j: u64| #[trigger] set.contains(j) ==> k <= j
}

/// The page request that a direct transfer is planned as.
pub open spec fn direct_request(
    lease: IoDataLeaseId,
    range: PageRange,
    operation: DirectIoOperation,
) -> PageIoRequest {
    PageIoRequest {
        id: PageIoRequestId(lease.0),
        range: PageIoRange { start_page: range.start.0, page_count: range.page_count },
        op: match operation {
            DirectIoOperation::Read => PageIoOp::Read,
            DirectIoOperation::Write => PageIoOp::Writeback,
        },
        priority: match operation {
            DirectIoOperation::Read => PageIoPriority::Demand,
            DirectIoOperation::Write => PageIoPriority::ForegroundWrite,
        },
        flags: match operation {
            DirectIoOperation::Read => PageIoFlags::Demand,
            DirectIoOperation::Write => PageIoFlags::Writeback,
        },
        generation_hint: Some(PageGeneration(lease.0)),
    }
}

/// The end of a direct transfer, with what is left for the caller to do.
#[derive(Clone, Copy, Debug)]
pub struct DirectIoTerminal {
    pub completion: Result<DirectIoCompletion, DirectIoCompletionError>,
    /// The block service has to run again, to retry this completion.
    pub kick_block: bool,
    /// The wait source to be notified.
    pub notify: Option<u64>,
}

/// The outcome of a submission, with what is left for the caller to do.
#[derive(Clone, Copy, Debug)]
pub struct DirectIoEnqueued {
    pub result: Result<(), DirectIoSubmissionError>,
    pub kick_block: bool,
    pub notify: Option<u64>,
}

/// The outcome of retrying the completions that wait for a root credit.
#[derive(Debug)]
pub struct DirectIoRetried {
    pub result: Result<bool, DirectIoCompletionError>,
    pub kick_block: bool,
    pub notify: Vec<u64>,
}

/// The outcome of retrying some completions, as a value.
#[verifier::ext_equal]
pub struct RetryView {
    pub view: ContainerView,
    pub still_pending: bool,
    pub kick_block: bool,
    pub notify: Seq<u64>,
    pub failed: Option<DirectIoCompletionError>,
}

impl ContainerView {
    /// The pages of `range` that a slot keeps busy.
    pub open spec fn busy_pages(self, range: PageRange) -> Set<u64> {
        Set::new(
            |k: u64|
                {
                    &&& self.slots.contains_key(k)
                    &&& range.holds(PageIndex(k))
                    &&& busy_state(self.slots[k].inner) is Some
                },
        )
    }

    /// The pages of `range` that are being fetched.
    pub open spec fn fetched_pages(self, range: PageRange) -> Set<u64> {
        Set::new(|k: u64| self.fetches.contains_key(k) && range.holds(PageIndex(k)))
    }

    /// Outcome of asking for direct I/O of `kind` on `range`.
    pub open spec fn direct_admission(self, range: PageRange, kind: RangeReservationKind) -> Result<
        RangeReservation,
        DirectIoAdmissionError,
    > {
        if self.kind !is File {
            Err(DirectIoAdmissionError::UnsupportedKind)
        } else if !range.fits() {
            Err(DirectIoAdmissionError::Range(RangeReservationError::Overflow))
        } else if range.limit() > self.page_count {
            Err(DirectIoAdmissionError::OutOfBounds)
        } else if exists|k: u64| lowest(self.busy_pages(range), k) {
            let k = choose|k: u64| lowest(self.busy_pages(range), k);
            Err(
                DirectIoAdmissionError::Busy {
                    page: PageIndex(k),
                    state: busy_state(self.slots[k].inner)->Some_0,
                },
            )
        } else if exists|k: u64| lowest(self.fetched_pages(range), k) {
            let k = choose|k: u64| lowest(self.fetched_pages(range), k);
            Err(
                DirectIoAdmissionError::Busy { page: PageIndex(k), state: DirectIoBusy::Fetching },
            )
        } else {
            match reservation_outcome(self.reservations, self.next_reservation, range, kind) {
                Ok(reservation) => Ok(reservation),
                Err(error) => Err(DirectIoAdmissionError::Range(error)),
            }
        }
    }

    /// With `reservation` live, as direct I/O.
    pub open spec fn with_direct_reservation(self, reservation: RangeReservation) -> Self {
        ContainerView {
            reservations: self.reservations.push(reservation),
            next_reservation: (self.next_reservation + 1) as u64,
            direct_active: (self.direct_active + 1) as u64,
            ..self
        }
    }

    pub open spec fn begin_direct(self, range: PageRange, kind: RangeReservationKind) -> (
        Self,
        Result<RangeReservation, DirectIoAdmissionError>,
    ) {
        match self.direct_admission(range, kind) {
            Ok(reservation) => (self.with_direct_reservation(reservation), Ok(reservation)),
            Err(error) => (self, Err(error)),
        }
    }

    /// With the direct reservation `id` ended.
    pub open spec fn without_direct_reservation(self, id: RangeReservationId) -> Self {
        ContainerView {
            reservations: released(self.reservations, id),
            direct_active: (self.direct_active - 1) as u64,
            ..self
        }
    }

    /// Outcome of ending a direct read: cached pages stay.
    pub open spec fn complete_direct_read(
        self,
        token: RangeReservation,
        result: Result<(), Errno>,
    ) -> (Self, Result<(), DirectIoCompletionError>) {
        if token.kind != RangeReservationKind::DirectRead {
            (
                self,
                Err(
                    DirectIoCompletionError::WrongReservationKind {
                        expected: RangeReservationKind::DirectRead,
                        actual: token.kind,
                    },
                ),
            )
        } else if !has_id(self.reservations, token.id) {
            (self, Err(DirectIoCompletionError::UnknownReservation(token.id)))
        } else {
            (
                self.without_direct_reservation(token.id),
                match result {
                    Ok(()) => Ok(()),
                    Err(errno) => Err(DirectIoCompletionError::Backend(errno)),
                },
            )
        }
    }

    /// The clean cached pages of `range`.
    pub open spec fn clean_pages(self, range: PageRange) -> Set<u64> {
        Set::new(
            |k: u64|
                {
                    &&& self.pages.contains_key(k)
                    &&& range.holds(PageIndex(k))
                    &&& self.withdrawable(PageIndex(k), self.pages[k].ppn, true)
                },
        )
    }

    /// Outcome of ending a direct write: after a success the clean cached pages
    /// that it overwrote are withdrawn, and only then the range is free.
    pub open spec fn complete_direct_write(
        self,
        token: RangeReservation,
        result: Result<(), Errno>,
        retire: bool,
    ) -> (Self, Result<usize, DirectIoCompletionError>) {
        if token.kind != RangeReservationKind::DirectWrite {
            (
                self,
                Err(
                    DirectIoCompletionError::WrongReservationKind {
                        expected: RangeReservationKind::DirectWrite,
                        actual: token.kind,
                    },
                ),
            )
        } else if !has_id(self.reservations, token.id) {
            (self, Err(DirectIoCompletionError::UnknownReservation(token.id)))
        } else {
            match result {
                Err(errno) => (
                    self.without_direct_reservation(token.id),
                    Err(DirectIoCompletionError::Backend(errno)),
                ),
                Ok(()) => {
                    let (after, withdrawn) = self.withdraw_all(
                        self.clean_pages(token.range),
                        retire,
                    );
                    match withdrawn {
                        Ok(count) => (after.without_direct_reservation(token.id), Ok(count)),
                        Err(PageCacheError::Backend(Errno::EAGAIN)) => (
                            after,
                            Err(DirectIoCompletionError::Backend(Errno::EAGAIN)),
                        ),
                        Err(_) => (after, Err(DirectIoCompletionError::Backend(Errno::ESTALE))),
                    }
                },
            }
        }
    }

    pub open spec fn without_direct(self, lease: IoDataLeaseId) -> Self {
        ContainerView { direct: self.direct.remove(lease.0), ..self }
    }

    pub open spec fn with_direct(self, lease: IoDataLeaseId, entry: DirectIoInFlight) -> Self {
        ContainerView { direct: self.direct.insert(lease.0, entry), ..self }
    }

    pub open spec fn with_direct_state(
        self,
        lease: IoDataLeaseId,
        state: DirectIoInFlightState,
    ) -> Self {
        self.with_direct(lease, DirectIoInFlight { state, ..self.direct[lease.0] })
    }

    /// The device result that counts for `lease`: the first one that came.
    pub open spec fn effective_result(
        self,
        lease: IoDataLeaseId,
        result: Result<(), Errno>,
    ) -> Result<(), Errno> {
        match self.direct[lease.0].state {
            DirectIoInFlightState::CompletionPending { result } => result,
            _ => result,
        }
    }

    /// Outcome of ending the reservation behind `lease`.
    pub open spec fn settle_direct(
        self,
        lease: IoDataLeaseId,
        result: Result<(), Errno>,
        retire: bool,
    ) -> (Self, Result<DirectIoCompletion, DirectIoCompletionError>) {
        let entry = self.direct[lease.0];
        let taken = self.without_direct(lease);
        match entry.operation {
            DirectIoOperation::Read => {
                let (after, done) = taken.complete_direct_read(entry.reservation, result);
                (
                    after,
                    match done {
                        Ok(()) => Ok(DirectIoCompletion::Read),
                        Err(error) => Err(error),
                    },
                )
            },
            DirectIoOperation::Write => {
                let (after, done) = taken.complete_direct_write(entry.reservation, result, retire);
                (
                    after,
                    match done {
                        Ok(invalidated) => Ok(DirectIoCompletion::Write { invalidated }),
                        Err(error) => Err(error),
                    },
                )
            },
        }
    }

    /// Outcome of the end of a direct transfer. While the root cannot be
    /// published, the lease stays in flight with its result.
    pub open spec fn complete_direct(
        self,
        lease: IoDataLeaseId,
        result: Result<(), Errno>,
        retire: bool,
    ) -> (Self, DirectIoTerminal) {
        if !self.direct.contains_key(lease.0) {
            (
                self,
                DirectIoTerminal {
                    completion: Err(DirectIoCompletionError::UnknownLease(lease)),
                    kick_block: false,
                    notify: None,
                },
            )
        } else {
            let entry = self.direct[lease.0];
            let effective = self.effective_result(lease, result);
            let (after, completion) = self.settle_direct(lease, effective, retire);
            if effective is Ok && completion == Err::<DirectIoCompletion, DirectIoCompletionError>(
                DirectIoCompletionError::Backend(Errno::EAGAIN),
            ) {
                (
                    after.with_direct(
                        lease,
                        DirectIoInFlight {
                            state: DirectIoInFlightState::CompletionPending { result: effective },
                            ..entry
                        },
                    ),
                    DirectIoTerminal { completion, kick_block: true, notify: None },
                )
            } else {
                (
                    match entry.completion_wait {
                        Some(wait) => ContainerView {
                            direct_done: after.direct_done.insert(
                                lease.0,
                                DirectIoCompleted { result: completion, wait },
                            ),
                            ..after
                        },
                        None => after,
                    },
                    DirectIoTerminal {
                        completion,
                        kick_block: false,
                        notify: entry.completion_wait,
                    },
                )
            }
        }
    }

    /// The leases whose completion waits for a root credit.
    pub open spec fn pending_direct(self) -> Set<u64> {
        Set::new(
            |k: u64|
                self.direct.contains_key(k) && self.direct[k].state is CompletionPending,
        )
    }

    /// Outcome of retrying the first `count` of `leases`, each with its answer
    /// from `retires`. An answer that is not there is a refusal.
    pub open spec fn retry_direct(self, leases: Seq<u64>, retires: Seq<bool>, count: nat) -> RetryView
        decreases count,
    {
        if count == 0 {
            RetryView {
                view: self,
                still_pending: false,
                kick_block: false,
                notify: Seq::empty(),
                failed: None,
            }
        } else {
            let before = self.retry_direct(leases, retires, (count - 1) as nat);
            if before.failed is Some {
                before
            } else {
                let (after, end) = before.view.complete_direct(
                    IoDataLeaseId(leases[count - 1]),
                    Ok(()),
                    count - 1 < retires.len() && retires[count - 1],
                );
                let notify = match end.notify {
                    Some(source) => before.notify.push(source),
                    None => before.notify,
                };
                let kick_block = before.kick_block || end.kick_block;
                match end.completion {
                    Ok(_) => RetryView { view: after, notify, kick_block, ..before },
                    Err(DirectIoCompletionError::Backend(Errno::EAGAIN)) => RetryView {
                        view: after,
                        still_pending: true,
                        notify,
                        kick_block,
                        ..before
                    },
                    Err(error) => RetryView {
                        view: after,
                        notify,
                        kick_block,
                        failed: Some(error),
                        ..before
                    },
                }
            }
        }
    }

    /// Outcome of taking an admitted lease into planning.
    pub open spec fn begin_direct_plan(
        self,
        lease: IoDataLeaseId,
        range: PageRange,
        operation: DirectIoOperation,
    ) -> (Self, Result<PageIoRequest, DirectIoEnqueued>) {
        if !self.direct.contains_key(lease.0) {
            (self, Err(enqueue_refused(DirectIoSubmissionError::UnknownLease(lease), None)))
        } else if self.direct[lease.0].operation != operation {
            (self, Err(enqueue_refused(DirectIoSubmissionError::OperationMismatch, None)))
        } else if self.direct[lease.0].state !is Admitted {
            (self, Err(enqueue_refused(DirectIoSubmissionError::Busy(lease), None)))
        } else {
            let planning = self.with_direct_state(lease, DirectIoInFlightState::Planning);
            if self.kind !is File {
                let (after, end) = planning.fail_direct(lease, Errno::ENOSYS);
                (
                    after,
                    Err(
                        enqueue_refused(DirectIoSubmissionError::MissingBackendPlanner, end.notify),
                    ),
                )
            } else {
                (planning, Ok(direct_request(lease, range, operation)))
            }
        }
    }

    /// Outcome of giving up a direct transfer.
    pub open spec fn fail_direct(self, lease: IoDataLeaseId, errno: Errno) -> (
        Self,
        DirectIoTerminal,
    ) {
        self.complete_direct(lease, Err(errno), false)
    }

    /// Outcome of giving up a direct transfer with `error`.
    pub open spec fn refuse_direct(
        self,
        lease: IoDataLeaseId,
        errno: Errno,
        error: DirectIoSubmissionError,
    ) -> (Self, DirectIoEnqueued) {
        let (after, end) = self.fail_direct(lease, errno);
        (after, enqueue_refused(error, end.notify))
    }

    /// With the transfer `plan` of `lease` queued, or merged with a waiting one.
    pub open spec fn with_direct_bio(
        self,
        lease: IoDataLeaseId,
        plan: BioPlan,
        merged: Option<MergedBio>,
    ) -> Self {
        let id = self.block.submission(plan, merged)->Ok_0.request();
        ContainerView {
            block: self.block.with_bio(plan, merged, false).with_direct_route(lease, id),
            ..self
        }
    }

    /// Outcome of the planner's answer for a lease in planning. Only a plan of a
    /// single transfer is accepted, which the queue may merge.
    pub open spec fn finish_direct_plan(
        self,
        lease: IoDataLeaseId,
        planned: Option<BackendPlan>,
        merged: Option<MergedBio>,
    ) -> (Self, DirectIoEnqueued) {
        match planned {
            None => self.refuse_direct(
                lease,
                Errno::ENOSYS,
                DirectIoSubmissionError::MissingBackendPlanner,
            ),
            Some(BackendPlan::Failed(errno)) => self.refuse_direct(
                lease,
                errno,
                DirectIoSubmissionError::Backend(errno),
            ),
            Some(BackendPlan::SubmitBios(bios)) => if bios@.len() != 1 {
                self.refuse_direct(
                    lease,
                    Errno::ENOSYS,
                    DirectIoSubmissionError::UnsupportedBackendPlan,
                )
            } else if !self.direct.contains_key(lease.0) {
                (self, enqueue_refused(DirectIoSubmissionError::UnknownLease(lease), None))
            } else if self.direct[lease.0].state !is Planning {
                (self, enqueue_refused(DirectIoSubmissionError::Busy(lease), None))
            } else {
                match self.block.submission(bios@[0], merged) {
                    Ok(_) => (
                        self.with_direct_bio(lease, bios@[0], merged).with_direct_state(
                            lease,
                            DirectIoInFlightState::Queued,
                        ),
                        DirectIoEnqueued { result: Ok(()), kick_block: true, notify: None },
                    ),
                    Err(error) => self.with_direct_state(
                        lease,
                        DirectIoInFlightState::Admitted,
                    ).refuse_direct(
                        lease,
                        queue_errno(error),
                        DirectIoSubmissionError::Queue(queue_errno(error)),
                    ),
                }
            },
            Some(_) => self.refuse_direct(
                lease,
                Errno::ENOSYS,
                DirectIoSubmissionError::UnsupportedBackendPlan,
            ),
        }
    }

    /// Outcome of planning and queueing an admitted lease.
    pub open spec fn enqueue_direct(
        self,
        lease: IoDataLeaseId,
        range: PageRange,
        operation: DirectIoOperation,
        planned: Option<BackendPlan>,
        merged: Option<MergedBio>,
    ) -> (Self, DirectIoEnqueued) {
        match self.begin_direct_plan(lease, range, operation) {
            (after, Err(refused)) => (after, refused),
            (planning, Ok(_)) => planning.finish_direct_plan(lease, planned, merged),
        }
    }

    /// Outcome of admitting a direct transfer of `buffer`.
    pub open spec fn submit_direct(
        self,
        range: PageRange,
        buffer: DirectIoBuffer,
        operation: DirectIoOperation,
        wait: Option<u64>,
        retire: bool,
    ) -> (Self, Result<(), DirectIoAdmissionError>) {
        match self.begin_direct(range, operation.reservation_kind()) {
            (after, Err(error)) => (after, Err(error)),
            (after, Ok(reservation)) => if self.direct.contains_key(buffer.lease.0) {
                (
                    match operation {
                        DirectIoOperation::Read => after.complete_direct_read(reservation, Ok(())).0,
                        DirectIoOperation::Write => after.complete_direct_write(
                            reservation,
                            Ok(()),
                            retire,
                        ).0,
                    },
                    Err(DirectIoAdmissionError::DuplicateLease(buffer.lease)),
                )
            } else {
                (
                    after.with_direct(
                        buffer.lease,
                        DirectIoInFlight {
                            reservation,
                            buffer,
                            operation,
                            state: DirectIoInFlightState::Admitted,
                            completion_wait: wait,
                        },
                    ),
                    Ok(()),
                )
            },
        }
    }
}

pub open spec fn enqueue_refused(error: DirectIoSubmissionError, notify: Option<u64>) -> DirectIoEnqueued {
    DirectIoEnqueued { result: Err(error), kick_block: false, notify }
}

fn refused(error: DirectIoSubmissionError, notify: Option<u64>) -> (e: DirectIoEnqueued)
    ensures
        e == enqueue_refused(error, notify),
{
    DirectIoEnqueued { result: Err(error), kick_block: false, notify }
}

proof fn lemma_direct_count_update(live: Seq<RangeReservation>, i: int, r: RangeReservation)
    requires
        0 <= i < live.len(),
    ensures
        direct_count(live.update(i, r)) == direct_count(live) - is_direct(live[i].kind) + is_direct(
            r.kind,
        ),
    decreases live.len(),
{
    let after = live.update(i, r);
    if i == live.len() - 1 {
        assert(after.drop_last() =~= live.drop_last());
    } else {
        lemma_direct_count_update(live.drop_last(), i, r);
        assert(after.drop_last() =~= live.drop_last().update(i, r));
    }
}

/// Counting direct I/O: at most everything that is live.
proof fn lemma_direct_count_bound(live: Seq<RangeReservation>)
    ensures
        direct_count(live) <= live.len(),
    decreases live.len(),
{
    if live.len() > 0 {
        lemma_direct_count_bound(live.drop_last());
    }
}

/// What ending a reservation does to the live ones.
pub proof fn lemma_released(live: Seq<RangeReservation>, id: RangeReservationId)
    requires
        has_id(live, id),
    ensures
        exists|i: int| first_with_id(live, id, i),
        forall|k: int|
            0 <= k < released(live, id).len() ==> live.contains(#[trigger] released(live, id)[k]),
        forall|i: int| #[trigger]
            first_with_id(live, id, i) ==> direct_count(released(live, id)) == direct_count(live)
                - is_direct(live[i].kind),
{
    let found = choose|i: int| 0 <= i < live.len() && (#[trigger] live[i]).id == id;
    lemma_first_with_id(live, id, found);
    let at = choose|i: int| first_with_id(live, id, i);
    let rest = released(live, id);
    assert forall|k: int| 0 <= k < rest.len() implies live.contains(#[trigger] rest[k]) by {
        assert(rest[k] == live[source_index(live.len(), at, k)]);
    }
    let moved = live.update(at, live.last());
    lemma_direct_count_update(live, at, live.last());
    assert(direct_count(moved) == direct_count(moved.drop_last()) + is_direct(moved.last().kind));
    assert(moved.last() == live.last());
    assert forall|i: int| #[trigger] first_with_id(live, id, i) implies i == at by {
        if i < at {
            assert(live[i].id != id);
        }
        if at < i {
            assert(live[at].id != id);
        }
    }
}

proof fn lemma_first_with_id(live: Seq<RangeReservation>, id: RangeReservationId, i: int)
    requires
        0 <= i < live.len(),
        live[i].id == id,
    ensures
        exists|j: int| first_with_id(live, id, j),
    decreases i,
{
    if forall|j: int| 0 <= j < i ==> (#[trigger] live[j]).id != id {
        assert(first_with_id(live, id, i));
    } else {
        let j = choose|j: int| 0 <= j < i && (#[trigger] live[j]).id == id;
        lemma_first_with_id(live, id, j);
    }
}

impl PageContainer {
    /// The lowest page of `range` that a slot keeps busy.
    fn find_busy_page(&self, range: PageRange) -> (found: Option<(PageIndex, DirectIoBusy)>)
        requires
            self.wf(),
            range.fits(),
        ensures
            match found {
                Some((page, busy)) => lowest(self@.busy_pages(range), page.0) && busy_state(
                    self@.slots[page.0].inner,
                ) == Some(busy),
                None => self@.busy_pages(range) == Set::<u64>::empty(),
            },
    {
        let ghost order = self.page_slots.order();
        proof {
            self.page_slots.lemma_order();
        }
        let mut i: usize = 0;
        while i < self.page_slots.len()
            invariant
                self.wf(),
                range.fits(),
                order == self.page_slots.order(),
                crate::sparse_index::increasing(order),
                i <= order.len(),
                forall|j: int| 0 <= j < i ==> !self@.busy_pages(range).contains(#[trigger] order[j]),
            decreases order.len() - i,
        {
            let page = PageIndex::new(self.page_slots.key_at(i));
            if range.contains(page) {
                let slot = self.page_slots.value_at(i);
                match direct_busy(slot.snapshot()) {
                    Some(busy) => {
                        proof {
                            assert forall|k: u64| #[trigger]
                                self@.busy_pages(range).contains(k) implies page.0 <= k by {
                                let j = order.index_of(k);
                                assert(order[j] == k);
                                if j < i {
                                    assert(!self@.busy_pages(range).contains(order[j]));
                                } else if j > i {
                                    assert(order[i as int] < order[j]);
                                }
                            }
                        }
                        return Some((page, busy));
                    },
                    None => {},
                }
            }
            i += 1;
        }
        proof {
            assert forall|k: u64| !self@.busy_pages(range).contains(k) by {
                if self@.busy_pages(range).contains(k) {
                    let j = order.index_of(k);
                    assert(order[j] == k);
                }
            }
            assert(self@.busy_pages(range) =~= Set::<u64>::empty());
        }
        None
    }

    /// The lowest page of `range` that is being fetched.
    fn find_fetched_page(&self, range: PageRange) -> (found: Option<PageIndex>)
        requires
            self.wf(),
            range.fits(),
        ensures
            match found {
                Some(page) => lowest(self@.fetched_pages(range), page.0),
                None => self@.fetched_pages(range) == Set::<u64>::empty(),
            },
    {
        let ghost order = self.in_flight_file_pages.order();
        proof {
            self.in_flight_file_pages.lemma_order();
        }
        let mut i: usize = 0;
        while i < self.in_flight_file_pages.len()
            invariant
                self.wf(),
                range.fits(),
                order == self.in_flight_file_pages.order(),
                crate::sparse_index::increasing(order),
                i <= order.len(),
                forall|j: int|
                    0 <= j < i ==> !self@.fetched_pages(range).contains(#[trigger] order[j]),
            decreases order.len() - i,
        {
            let page = PageIndex::new(self.in_flight_file_pages.key_at(i));
            if range.contains(page) {
                proof {
                    assert forall|k: u64| #[trigger]
                        self@.fetched_pages(range).contains(k) implies page.0 <= k by {
                        let j = order.index_of(k);
                        assert(order[j] == k);
                        if j < i {
                            assert(!self@.fetched_pages(range).contains(order[j]));
                        } else if j > i {
                            assert(order[i as int] < order[j]);
                        }
                    }
                }
                return Some(page);
            }
            i += 1;
        }
        proof {
            assert forall|k: u64| !self@.fetched_pages(range).contains(k) by {
                if self@.fetched_pages(range).contains(k) {
                    let j = order.index_of(k);
                    assert(order[j] == k);
                }
            }
            assert(self@.fetched_pages(range) =~= Set::<u64>::empty());
        }
        None
    }

    /// Reserve an idle range of a file for direct I/O.
    pub fn begin_file_direct_io(&mut self, range: PageRange, kind: RangeReservationKind) -> (r:
        Result<RangeReservation, DirectIoAdmissionError>)
        requires
            old(self).wf(),
            old(self)@.next_reservation < u64::MAX,
            kind is DirectRead || kind is DirectWrite,
        ensures
            final(self).wf(),
            (final(self)@, r) == old(self)@.begin_direct(range, kind),
    {
        match self.kind {
            PageContainerKind::File { .. } => {},
            _ => {
                return Err(DirectIoAdmissionError::UnsupportedKind);
            },
        }
        let end = match range.end() {
            Some(end) => end,
            None => {
                return Err(DirectIoAdmissionError::Range(RangeReservationError::Overflow));
            },
        };
        if end.0 > self.page_count {
            return Err(DirectIoAdmissionError::OutOfBounds);
        }
        match self.find_busy_page(range) {
            Some((page, state)) => {
                proof {
                    let chosen = choose|k: u64| lowest(self@.busy_pages(range), k);
                    assert(lowest(self@.busy_pages(range), page.0));
                    assert(chosen == page.0);
                }
                return Err(DirectIoAdmissionError::Busy { page, state });
            },
            None => {},
        }
        match self.find_fetched_page(range) {
            Some(page) => {
                proof {
                    let chosen = choose|k: u64| lowest(self@.fetched_pages(range), k);
                    assert(lowest(self@.fetched_pages(range), page.0));
                    assert(chosen == page.0);
                }
                return Err(
                    DirectIoAdmissionError::Busy { page, state: DirectIoBusy::Fetching },
                );
            },
            None => {},
        }
        let ghost before = self@;
        let reservation = match self.range_reservations.try_reserve(range, kind) {
            Ok(reservation) => reservation,
            Err(error) => {
                return Err(DirectIoAdmissionError::from(error));
            },
        };
        proof {
            let live = self@.reservations;
            lemma_direct_count_bound(live);
            assert(live.drop_last() =~= before.reservations);
            assert(self.range_reservations.reservations.len() <= usize::MAX);
            assert forall|k: u64| #[trigger] self@.direct.contains_key(k) implies genuine(
                live,
                self@.next_reservation,
                self@.direct[k].reservation,
            ) by {
                let token = self@.direct[k].reservation;
                assert(genuine(before.reservations, before.next_reservation, token));
                assert forall|i: int|
                    0 <= i < live.len() && (#[trigger] live[i]).id
                        == token.id implies live[i] == token by {
                    if i < before.reservations.len() {
                        assert(live[i] == before.reservations[i]);
                    }
                }
            }
        }
        self.direct_io_active = self.direct_io_active + 1;
        Ok(reservation)
    }

    pub fn begin_file_direct_write(&mut self, range: PageRange) -> (r: Result<
        RangeReservation,
        DirectIoAdmissionError,
    >)
        requires
            old(self).wf(),
            old(self)@.next_reservation < u64::MAX,
        ensures
            final(self).wf(),
            (final(self)@, r) == old(self)@.begin_direct(range, RangeReservationKind::DirectWrite),
    {
        self.begin_file_direct_io(range, RangeReservationKind::DirectWrite)
    }

    pub fn begin_file_direct_read(&mut self, range: PageRange) -> (r: Result<
        RangeReservation,
        DirectIoAdmissionError,
    >)
        requires
            old(self).wf(),
            old(self)@.next_reservation < u64::MAX,
        ensures
            final(self).wf(),
            (final(self)@, r) == old(self)@.begin_direct(range, RangeReservationKind::DirectRead),
    {
        self.begin_file_direct_io(range, RangeReservationKind::DirectRead)
    }

    /// End a live direct reservation.
    fn end_direct_reservation(&mut self, token: RangeReservation)
        requires
            old(self).wf(),
            has_id(old(self)@.reservations, token.id),
            honest(old(self)@.reservations, token),
            token.kind is DirectRead || token.kind is DirectWrite,
        ensures
            final(self).wf(),
            final(self)@ == old(self)@.without_direct_reservation(token.id),
    {
        let ghost before = self@;
        let _released = self.range_reservations.release(token.id);
        proof {
            lemma_released(before.reservations, token.id);
            let at = choose|i: int| first_with_id(before.reservations, token.id, i);
            assert(before.reservations[at] == token);
            let live = self@.reservations;
            assert forall|k: u64| #[trigger] self@.direct.contains_key(k) implies genuine(
                live,
                self@.next_reservation,
                self@.direct[k].reservation,
            ) by {
                let held = self@.direct[k].reservation;
                assert(genuine(before.reservations, before.next_reservation, held));
                assert forall|i: int|
                    0 <= i < live.len() && (#[trigger] live[i]).id
                        == held.id implies live[i] == held by {
                    let j = before.reservations.index_of(live[i]);
                    assert(before.reservations[j] == live[i]);
                }
            }
        }
        self.direct_io_active = self.direct_io_active - 1;
    }

    /// End a direct read. Cached pages stay as they are.
    pub fn complete_file_direct_read(
        &mut self,
        reservation: RangeReservation,
        result: Result<(), Errno>,
    ) -> (r: Result<(), DirectIoCompletionError>)
        requires
            old(self).wf(),
            honest(old(self)@.reservations, reservation),
        ensures
            final(self).wf(),
            (final(self)@, r) == old(self)@.complete_direct_read(reservation, result),
    {
        if reservation.kind != RangeReservationKind::DirectRead {
            return Err(
                DirectIoCompletionError::WrongReservationKind {
                    expected: RangeReservationKind::DirectRead,
                    actual: reservation.kind,
                },
            );
        }
        if !self.range_reservations.contains(reservation.id) {
            return Err(DirectIoCompletionError::UnknownReservation(reservation.id));
        }
        self.end_direct_reservation(reservation);
        match result {
            Ok(()) => Ok(()),
            Err(errno) => Err(DirectIoCompletionError::Backend(errno)),
        }
    }

    /// End a direct write. After a success the clean cached pages of the range
    /// are withdrawn before the range is free again.
    pub fn complete_file_direct_write(
        &mut self,
        reservation: RangeReservation,
        result: Result<(), Errno>,
        retire: bool,
    ) -> (r: Result<usize, DirectIoCompletionError>)
        requires
            old(self).wf(),
            honest(old(self)@.reservations, reservation),
        ensures
            final(self).wf(),
            (final(self)@, r) == old(self)@.complete_direct_write(reservation, result, retire),
    {
        if reservation.kind != RangeReservationKind::DirectWrite {
            return Err(
                DirectIoCompletionError::WrongReservationKind {
                    expected: RangeReservationKind::DirectWrite,
                    actual: reservation.kind,
                },
            );
        }
        if !self.range_reservations.contains(reservation.id) {
            return Err(DirectIoCompletionError::UnknownReservation(reservation.id));
        }
        match result {
            Ok(()) => {},
            Err(errno) => {
                self.end_direct_reservation(reservation);
                return Err(DirectIoCompletionError::Backend(errno));
            },
        }
        let ghost before = self@;
        let candidates = self.pages.clean_pages_in_range(reservation.range);
        proof {
            let i = choose|i: int|
                0 <= i < before.reservations.len() && (#[trigger] before.reservations[i]).id
                    == reservation.id;
            assert(before.reservations[i] == reservation);
            assert(reservation.range.fits());
            self.lemma_clean_candidates(candidates@, reservation.range);
            before.lemma_eligible(candidates@, true);
        }
        match self.withdraw_resident_batch_published(&candidates, true, retire) {
            Ok(invalidated) => {
                self.end_direct_reservation(reservation);
                Ok(invalidated)
            },
            Err(PageCacheError::Backend(Errno::EAGAIN)) => Err(
                DirectIoCompletionError::Backend(Errno::EAGAIN),
            ),
            Err(_) => Err(DirectIoCompletionError::Backend(Errno::ESTALE)),
        }
    }

    /// The cached pages of a range, as candidates for withdrawal.
    proof fn lemma_clean_candidates(&self, candidates: Seq<(PageIndex, Ppn)>, range: PageRange)
        requires
            self.wf(),
            range.fits(),
            candidates == selected(
                self.pages.order(),
                self.pages@,
                |k: u64| range.fits() && range.holds(PageIndex(k)),
            ),
        ensures
            distinct_pages(candidates),
            pages_of(self@.eligible(candidates, true)) == self@.clean_pages(range),
    {
        let keep = |k: u64| range.fits() && range.holds(PageIndex(k));
        let keys = self.pages.order();
        lemma_selected(keys, self.pages@, keep);
        self.pages.pages.lemma_order();
        lemma_selected_increasing(keys, self.pages@, keep);
        self@.lemma_eligible(candidates, true);
        let chosen = self@.eligible(candidates, true);
        assert(distinct_pages(candidates)) by {
            assert forall|i: int, j: int| 0 <= i < j < candidates.len() implies (
            #[trigger] candidates[i]).0 != (#[trigger] candidates[j]).0 by {
                assert(candidates[i].0.0 < candidates[j].0.0);
            }
        }
        assert forall|k: u64|
            pages_of(chosen).contains(k) == self@.clean_pages(range).contains(k) by {
            if pages_of(chosen).contains(k) {
                let i = choose|i: int| 0 <= i < chosen.len() && (#[trigger] chosen[i]).0.0 == k;
                let j = candidates.index_of(chosen[i]);
                assert(candidates[j] == chosen[i]);
            }
            if self@.clean_pages(range).contains(k) {
                assert(keys.contains(k));
                let item = (PageIndex(k), self.pages@[k].ppn);
                assert(candidates.contains(item));
                let j = candidates.index_of(item);
                assert(candidates[j] == item);
                assert(chosen.contains(candidates[j]));
                let i = chosen.index_of(item);
                assert(chosen[i].0.0 == k);
            }
        }
        assert(pages_of(chosen) =~= self@.clean_pages(range));
    }

    /// Admit a direct transfer and keep its buffer pinned until its end.
    pub fn submit_file_direct_io_with_wait(
        &mut self,
        range: PageRange,
        buffer: DirectIoBuffer,
        operation: DirectIoOperation,
        completion_wait: Option<u64>,
        retire: bool,
    ) -> (r: Result<DirectIoSubmission, DirectIoAdmissionError>)
        requires
            old(self).wf(),
            old(self)@.next_reservation < u64::MAX,
        ensures
            final(self).wf(),
            ({
                let (after, outcome) = old(self)@.submit_direct(
                    range,
                    buffer,
                    operation,
                    completion_wait,
                    retire,
                );
                &&& final(self)@ == after
                &&& match r {
                    Ok(submission) => outcome is Ok && submission.describes(
                        range,
                        buffer,
                        operation,
                    ),
                    Err(error) => outcome == Err::<(), DirectIoAdmissionError>(error),
                }
            }),
    {
        let ghost before = self@;
        let begun = match operation {
            DirectIoOperation::Read => self.begin_file_direct_read(range),
            DirectIoOperation::Write => self.begin_file_direct_write(range),
        };
        let reservation = match begun {
            Ok(reservation) => reservation,
            Err(error) => {
                return Err(error);
            },
        };
        let submission = match operation {
            DirectIoOperation::Read => DirectIoSubmission::read(range, &buffer),
            DirectIoOperation::Write => DirectIoSubmission::write(range, &buffer),
        };
        let lease = buffer.lease_id();
        proof {
            let live = self@.reservations;
            assert(live == before.reservations.push(reservation));
            assert forall|i: int|
                0 <= i < live.len() && (#[trigger] live[i]).id == reservation.id implies live[i]
                == reservation by {
                if i < before.reservations.len() {
                    assert(live[i] == before.reservations[i]);
                    assert(live[live.len() - 1] == reservation);
                    assert(self.range_reservations@[i].id
                        != self.range_reservations@[live.len() - 1].id);
                }
            }
            assert(honest(live, reservation));
            assert(live[live.len() - 1] == reservation);
        }
        if self.direct_io_in_flight.contains_key(lease.0) {
            match operation {
                DirectIoOperation::Read => {
                    let _released = self.complete_file_direct_read(reservation, Ok(()));
                },
                DirectIoOperation::Write => {
                    let _released = self.complete_file_direct_write(reservation, Ok(()), retire);
                },
            }
            return Err(DirectIoAdmissionError::DuplicateLease(lease));
        }
        let _previous = self.direct_io_in_flight.insert(
            lease.0,
            DirectIoInFlight {
                reservation,
                buffer,
                operation,
                state: DirectIoInFlightState::Admitted,
                completion_wait,
            },
        );
        Ok(submission)
    }

    pub fn submit_file_direct_io(
        &mut self,
        range: PageRange,
        buffer: DirectIoBuffer,
        operation: DirectIoOperation,
        retire: bool,
    ) -> (r: Result<DirectIoSubmission, DirectIoAdmissionError>)
        requires
            old(self).wf(),
            old(self)@.next_reservation < u64::MAX,
        ensures
            final(self).wf(),
            ({
                let (after, outcome) = old(self)@.submit_direct(
                    range,
                    buffer,
                    operation,
                    None,
                    retire,
                );
                &&& final(self)@ == after
                &&& match r {
                    Ok(submission) => outcome is Ok && submission.describes(
                        range,
                        buffer,
                        operation,
                    ),
                    Err(error) => outcome == Err::<(), DirectIoAdmissionError>(error),
                }
            }),
    {
        self.submit_file_direct_io_with_wait(range, buffer, operation, None, retire)
    }

    /// Admit a direct transfer whose end can be waited for at `wait_source`.
    pub fn submit_file_direct_io_waitable(
        &mut self,
        range: PageRange,
        buffer: DirectIoBuffer,
        operation: DirectIoOperation,
        wait_source: u64,
        retire: bool,
    ) -> (r: Result<DirectIoWaitableSubmission, DirectIoAdmissionError>)
        requires
            old(self).wf(),
            old(self)@.next_reservation < u64::MAX,
        ensures
            final(self).wf(),
            ({
                let (after, outcome) = old(self)@.submit_direct(
                    range,
                    buffer,
                    operation,
                    Some(wait_source),
                    retire,
                );
                &&& final(self)@ == after
                &&& match r {
                    Ok(waitable) => {
                        &&& outcome is Ok
                        &&& waitable.submission.describes(range, buffer, operation)
                        &&& waitable.wait_source == wait_source
                    },
                    Err(error) => outcome == Err::<(), DirectIoAdmissionError>(error),
                }
            }),
    {
        match self.submit_file_direct_io_with_wait(
            range,
            buffer,
            operation,
            Some(wait_source),
            retire,
        ) {
            Ok(submission) => Ok(DirectIoWaitableSubmission { submission, wait_source }),
            Err(error) => Err(error),
        }
    }

    pub fn submit_file_direct_read(
        &mut self,
        range: PageRange,
        buffer: DirectIoBuffer,
    ) -> (r: Result<DirectIoSubmission, DirectIoAdmissionError>)
        requires
            old(self).wf(),
            old(self)@.next_reservation < u64::MAX,
        ensures
            final(self).wf(),
            ({
                let (after, outcome) = old(self)@.submit_direct(
                    range,
                    buffer,
                    DirectIoOperation::Read,
                    None,
                    false,
                );
                &&& final(self)@ == after
                &&& match r {
                    Ok(submission) => outcome is Ok && submission.describes(
                        range,
                        buffer,
                        DirectIoOperation::Read,
                    ),
                    Err(error) => outcome == Err::<(), DirectIoAdmissionError>(error),
                }
            }),
    {
        self.submit_file_direct_io(range, buffer, DirectIoOperation::Read, false)
    }

    pub fn submit_file_direct_read_waitable(
        &mut self,
        range: PageRange,
        buffer: DirectIoBuffer,
        wait_source: u64,
    ) -> (r: Result<DirectIoWaitableSubmission, DirectIoAdmissionError>)
        requires
            old(self).wf(),
            old(self)@.next_reservation < u64::MAX,
        ensures
            final(self).wf(),
            ({
                let (after, outcome) = old(self)@.submit_direct(
                    range,
                    buffer,
                    DirectIoOperation::Read,
                    Some(wait_source),
                    false,
                );
                &&& final(self)@ == after
                &&& match r {
                    Ok(waitable) => {
                        &&& outcome is Ok
                        &&& waitable.submission.describes(range, buffer, DirectIoOperation::Read)
                        &&& waitable.wait_source == wait_source
                    },
                    Err(error) => outcome == Err::<(), DirectIoAdmissionError>(error),
                }
            }),
    {
        self.submit_file_direct_io_waitable(
            range,
            buffer,
            DirectIoOperation::Read,
            wait_source,
            false,
        )
    }

    /// `retire` answers for the root credit that giving a colliding lease's
    /// range back may need.
    pub fn submit_file_direct_write(
        &mut self,
        range: PageRange,
        buffer: DirectIoBuffer,
        retire: bool,
    ) -> (r: Result<DirectIoSubmission, DirectIoAdmissionError>)
        requires
            old(self).wf(),
            old(self)@.next_reservation < u64::MAX,
        ensures
            final(self).wf(),
            ({
                let (after, outcome) = old(self)@.submit_direct(
                    range,
                    buffer,
                    DirectIoOperation::Write,
                    None,
                    retire,
                );
                &&& final(self)@ == after
                &&& match r {
                    Ok(submission) => outcome is Ok && submission.describes(
                        range,
                        buffer,
                        DirectIoOperation::Write,
                    ),
                    Err(error) => outcome == Err::<(), DirectIoAdmissionError>(error),
                }
            }),
    {
        self.submit_file_direct_io(range, buffer, DirectIoOperation::Write, retire)
    }

    pub fn submit_file_direct_write_waitable(
        &mut self,
        range: PageRange,
        buffer: DirectIoBuffer,
        wait_source: u64,
        retire: bool,
    ) -> (r: Result<DirectIoWaitableSubmission, DirectIoAdmissionError>)
        requires
            old(self).wf(),
            old(self)@.next_reservation < u64::MAX,
        ensures
            final(self).wf(),
            ({
                let (after, outcome) = old(self)@.submit_direct(
                    range,
                    buffer,
                    DirectIoOperation::Write,
                    Some(wait_source),
                    retire,
                );
                &&& final(self)@ == after
                &&& match r {
                    Ok(waitable) => {
                        &&& outcome is Ok
                        &&& waitable.submission.describes(range, buffer, DirectIoOperation::Write)
                        &&& waitable.wait_source == wait_source
                    },
                    Err(error) => outcome == Err::<(), DirectIoAdmissionError>(error),
                }
            }),
    {
        self.submit_file_direct_io_waitable(
            range,
            buffer,
            DirectIoOperation::Write,
            wait_source,
            retire,
        )
    }

    /// Consume the end of a waitable transfer.
    pub fn take_file_direct_submission_result(
        &mut self,
        submission: &DirectIoWaitableSubmission,
    ) -> (r: Option<Result<DirectIoCompletion, DirectIoCompletionError>>)
        requires
            old(self).wf(),
        ensures
            final(self).wf(),
            r == (if old(self)@.direct_done.contains_key(submission.submission.lease.0) {
                Some(old(self)@.direct_done[submission.submission.lease.0].result)
            } else {
                None
            }),
            final(self)@ == (ContainerView {
                direct_done: old(self)@.direct_done.remove(submission.submission.lease.0),
                ..old(self)@
            }),
    {
        match self.direct_io_completed.remove(submission.lease_id().0) {
            Some(completed) => Some(completed.result),
            None => None,
        }
    }

    /// Apply the end of a direct transfer and release its buffer. A completion
    /// that has to wait for a root credit keeps lease, range and result.
    pub fn complete_file_direct_submission(
        &mut self,
        lease: IoDataLeaseId,
        result: Result<(), Errno>,
        retire: bool,
    ) -> (end: DirectIoTerminal)
        requires
            old(self).wf(),
        ensures
            final(self).wf(),
            (final(self)@, end) == old(self)@.complete_direct(lease, result, retire),
    {
        let ghost before = self@;
        let in_flight = match self.direct_io_in_flight.remove(lease.0) {
            Some(in_flight) => in_flight,
            None => {
                assert(before.direct.remove(lease.0) =~= before.direct);
                return DirectIoTerminal {
                    completion: Err(DirectIoCompletionError::UnknownLease(lease)),
                    kick_block: false,
                    notify: None,
                };
            },
        };
        let mut in_flight = in_flight;
        proof {
            assert(before.direct.contains_key(lease.0));
            before.lemma_consistent_frame(self@);
        }
        let result = match in_flight.state {
            DirectIoInFlightState::CompletionPending { result } => result,
            _ => result,
        };
        let completion = match in_flight.operation {
            DirectIoOperation::Read => match self.complete_file_direct_read(
                in_flight.reservation,
                result,
            ) {
                Ok(()) => Ok(DirectIoCompletion::Read),
                Err(error) => Err(error),
            },
            DirectIoOperation::Write => match self.complete_file_direct_write(
                in_flight.reservation,
                result,
                retire,
            ) {
                Ok(invalidated) => Ok(DirectIoCompletion::Write { invalidated }),
                Err(error) => Err(error),
            },
        };
        let again = match completion {
            Err(DirectIoCompletionError::Backend(Errno::EAGAIN)) => result.is_ok(),
            _ => false,
        };
        if again {
            in_flight.state = DirectIoInFlightState::CompletionPending { result };
            let _previous = self.direct_io_in_flight.insert(lease.0, in_flight);
            return DirectIoTerminal { completion, kick_block: true, notify: None };
        }
        let notify = in_flight.completion_wait;
        match notify {
            Some(wait) => {
                let _previous = self.direct_io_completed.insert(
                    lease.0,
                    DirectIoCompleted { result: completion, wait },
                );
            },
            None => {},
        }
        DirectIoTerminal { completion, kick_block: false, notify }
    }

    fn fail_file_direct_submission(&mut self, lease: IoDataLeaseId, errno: Errno) -> (notify: Option<
        u64,
    >)
        requires
            old(self).wf(),
        ensures
            final(self).wf(),
            final(self)@ == old(self)@.fail_direct(lease, errno).0,
            notify == old(self)@.fail_direct(lease, errno).1.notify,
    {
        self.complete_file_direct_submission(lease, Err(errno), false).notify
    }

    /// The leases whose completion waits for a root credit, in order.
    pub fn pending_direct_leases(&self) -> (leases: Vec<u64>)
        requires
            self.wf(),
        ensures
            leases@ == ascending(self@.pending_direct()),
    {
        let ghost order = self.direct_io_in_flight.order();
        let mut leases: Vec<u64> = Vec::new();
        let mut i: usize = 0;
        while i < self.direct_io_in_flight.len()
            invariant
                self.wf(),
                order == self.direct_io_in_flight.order(),
                i <= order.len(),
                leases@ == picked(order.take(i as int), self@.pending_direct()),
            decreases order.len() - i,
        {
            let lease: u64 = self.direct_io_in_flight.key_at(i);
            let in_flight = self.direct_io_in_flight.value_at(i);
            assert(order.take(i + 1).drop_last() =~= order.take(i as int));
            match in_flight.state {
                DirectIoInFlightState::CompletionPending { .. } => {
                    leases.push(lease);
                },
                _ => {},
            }
            i += 1;
        }
        proof {
            assert(order.take(i as int) =~= order);
            self.direct_io_in_flight.lemma_order();
            lemma_picked(order, self@.pending_direct());
        }
        leases
    }

    /// Retry every completion that waits for a root credit, in order. The `i`-th
    /// of them is answered by `retires[i]`; where there is none, no credit was
    /// granted.
    pub fn retry_pending_direct_io_completions(&mut self, retires: &Vec<bool>) -> (retried:
        DirectIoRetried)
        requires
            old(self).wf(),
        ensures
            final(self).wf(),
            ({
                let leases = ascending(old(self)@.pending_direct());
                let outcome = old(self)@.retry_direct(leases, retires@, leases.len());
                &&& final(self)@ == outcome.view
                &&& retried.kick_block == outcome.kick_block
                &&& retried.notify@ == outcome.notify
                &&& retried.result == match outcome.failed {
                    Some(error) => Err::<bool, DirectIoCompletionError>(error),
                    None => Ok(outcome.still_pending),
                }
            }),
    {
        let ghost before = self@;
        let leases = self.pending_direct_leases();
        let mut still_pending = false;
        let mut kick_block = false;
        let mut notify: Vec<u64> = Vec::new();
        let mut i: usize = 0;
        while i < leases.len()
            invariant
                self.wf(),
                i <= leases@.len(),
                leases@ == ascending(before.pending_direct()),
                before.retry_direct(leases@, retires@, i as nat) == (RetryView {
                    view: self@,
                    still_pending,
                    kick_block,
                    notify: notify@,
                    failed: None,
                }),
                before == old(self)@,
            decreases leases@.len() - i,
        {
            let retire = i < retires.len() && retires[i];
            let end = self.complete_file_direct_submission(
                IoDataLeaseId::new(leases[i]),
                Ok(()),
                retire,
            );
            kick_block = kick_block || end.kick_block;
            match end.notify {
                Some(source) => {
                    notify.push(source);
                },
                None => {},
            }
            i += 1;
            match end.completion {
                Ok(_) => {},
                Err(DirectIoCompletionError::Backend(Errno::EAGAIN)) => {
                    still_pending = true;
                },
                Err(error) => {
                    proof {
                        lemma_retry_stops(before, leases@, retires@, i as nat, leases@.len());
                    }
                    return DirectIoRetried { result: Err(error), kick_block, notify };
                },
            }
        }
        DirectIoRetried { result: Ok(still_pending), kick_block, notify }
    }

    pub fn direct_io_completion_is_pending(&self, lease: IoDataLeaseId) -> (pending: bool)
        requires
            self.wf(),
        ensures
            pending == self@.pending_direct().contains(lease.0),
    {
        match self.direct_io_in_flight.get(lease.0) {
            Some(in_flight) => match in_flight.state {
                DirectIoInFlightState::CompletionPending { .. } => true,
                _ => false,
            },
            None => false,
        }
    }

    /// Take an admitted lease into planning. The answer is the page request
    /// that the backend planner is asked about.
    pub fn begin_file_direct_plan(&mut self, submission: &DirectIoSubmission) -> (r: Result<
        PageIoRequest,
        DirectIoEnqueued,
    >)
        requires
            old(self).wf(),
        ensures
            final(self).wf(),
            (final(self)@, r) == old(self)@.begin_direct_plan(
                submission.lease,
                submission.range,
                submission.operation,
            ),
    {
        let ghost before = self@;
        let lease = submission.lease_id();
        let operation = submission.operation();
        match self.direct_io_in_flight.get(lease.0) {
            None => {
                return Err(refused(DirectIoSubmissionError::UnknownLease(lease), None));
            },
            Some(in_flight) => {
                if in_flight.operation != operation {
                    return Err(refused(DirectIoSubmissionError::OperationMismatch, None));
                }
                match in_flight.state {
                    DirectIoInFlightState::Admitted => {},
                    _ => {
                        return Err(refused(DirectIoSubmissionError::Busy(lease), None));
                    },
                }
            },
        }
        self.set_direct_state(lease, DirectIoInFlightState::Planning);
        if !self.is_file() {
            let notify = self.fail_file_direct_submission(lease, Errno::ENOSYS);
            return Err(refused(DirectIoSubmissionError::MissingBackendPlanner, notify));
        }
        let (op, priority, flags) = match operation {
            DirectIoOperation::Read => (
                PageIoOp::Read,
                PageIoPriority::Demand,
                PageIoFlags::Demand,
            ),
            DirectIoOperation::Write => (
                PageIoOp::Writeback,
                PageIoPriority::ForegroundWrite,
                PageIoFlags::Writeback,
            ),
        };
        let range = submission.range();
        Ok(
            PageIoRequest::new(
                PageIoRequestId::new(lease.0),
                PageIoRange::new(range.start.0, range.page_count),
                op,
                priority,
                flags,
                Some(PageGeneration::new(lease.0)),
            ),
        )
    }

    fn set_direct_state(&mut self, lease: IoDataLeaseId, state: DirectIoInFlightState)
        requires
            old(self).wf(),
            old(self)@.direct.contains_key(lease.0),
        ensures
            final(self).wf(),
            final(self)@ == old(self)@.with_direct_state(lease, state),
    {
        let in_flight = self.direct_io_in_flight.get_mut(lease.0);
        in_flight.state = state;
    }

    /// Apply the planner's answer to a lease in planning. `merged` is the block
    /// queue's answer, if it merges the transfer with a waiting one.
    pub fn finish_file_direct_plan(
        &mut self,
        lease: IoDataLeaseId,
        planned: Option<BackendPlan>,
        merged: Option<MergedBio>,
    ) -> (enqueued: DirectIoEnqueued)
        requires
            old(self).wf(),
            old(self)@.block.next_id < u64::MAX,
        ensures
            final(self).wf(),
            (final(self)@, enqueued) == old(self)@.finish_direct_plan(lease, planned, merged),
    {
        let mut bios: Vec<BioPlan> = match planned {
            None => {
                let notify = self.fail_file_direct_submission(lease, Errno::ENOSYS);
                return refused(DirectIoSubmissionError::MissingBackendPlanner, notify);
            },
            Some(BackendPlan::Failed(errno)) => {
                let notify = self.fail_file_direct_submission(lease, errno);
                return refused(DirectIoSubmissionError::Backend(errno), notify);
            },
            Some(BackendPlan::SubmitBios(bios)) => bios,
            Some(_) => {
                let notify = self.fail_file_direct_submission(lease, Errno::ENOSYS);
                return refused(DirectIoSubmissionError::UnsupportedBackendPlan, notify);
            },
        };
        if bios.len() != 1 {
            let notify = self.fail_file_direct_submission(lease, Errno::ENOSYS);
            return refused(DirectIoSubmissionError::UnsupportedBackendPlan, notify);
        }
        match self.direct_io_in_flight.get(lease.0) {
            None => {
                return refused(DirectIoSubmissionError::UnknownLease(lease), None);
            },
            Some(in_flight) => match in_flight.state {
                DirectIoInFlightState::Planning => {},
                _ => {
                    return refused(DirectIoSubmissionError::Busy(lease), None);
                },
            },
        }
        let bio = bios.remove(0);
        let ghost before = self@;
        match self.block_submission.submit_direct(lease, bio, merged) {
            Ok(_) => {
                proof {
                    before.lemma_consistent_frame(self@);
                }
                self.set_direct_state(lease, DirectIoInFlightState::Queued);
                DirectIoEnqueued { result: Ok(()), kick_block: true, notify: None }
            },
            Err(error) => {
                self.set_direct_state(lease, DirectIoInFlightState::Admitted);
                let errno = direct_queue_errno(error);
                let notify = self.fail_file_direct_submission(lease, errno);
                refused(DirectIoSubmissionError::Queue(errno), notify)
            },
        }
    }

    /// Plan an admitted lease and queue its transfer. `planned` is the backend
    /// planner's answer to the page request of the lease, and `merged` that of
    /// the block queue, if it merges the transfer with a waiting one; neither
    /// counts where the lease is refused before.
    pub fn enqueue_file_direct_submission(
        &mut self,
        submission: &DirectIoSubmission,
        planned: Option<BackendPlan>,
        merged: Option<MergedBio>,
    ) -> (enqueued: DirectIoEnqueued)
        requires
            old(self).wf(),
            old(self)@.block.next_id < u64::MAX,
        ensures
            final(self).wf(),
            (final(self)@, enqueued) == old(self)@.enqueue_direct(
                submission.lease,
                submission.range,
                submission.operation,
                planned,
                merged,
            ),
    {
        match self.begin_file_direct_plan(submission) {
            Err(refused) => refused,
            Ok(_) => self.finish_file_direct_plan(submission.lease_id(), planned, merged),
        }
    }
}

proof fn lemma_retry_stops(
    view: ContainerView,
    leases: Seq<u64>,
    retires: Seq<bool>,
    at: nat,
    count: nat,
)
    requires
        at <= count,
        view.retry_direct(leases, retires, at).failed is Some,
    ensures
        view.retry_direct(leases, retires, count) == view.retry_direct(leases, retires, at),
    decreases count,
{
    if at < count {
        lemma_retry_stops(view, leases, retires, at, (count - 1) as nat);
    }
}

proof fn lemma_lowest_exists(set: Set<u64>, k: u64)
    requires
        set.contains(k),
    ensures
        exists|j: u64| lowest(set, j),
    decreases k,
{
    if forall|j: u64| #[trigger] set.contains(j) ==> k <= j {
        assert(lowest(set, k));
    } else {
        let j = choose|j: u64| #[trigger] set.contains(j) && j < k;
        lemma_lowest_exists(set, j);
    }
}

/// Direct I/O is admitted only on an idle range: no page of it is dirty, in
/// writeback or being fetched, and no reservation that excludes it is live there.
pub proof fn law_direct_admission_excludes_busy_pages(
    view: ContainerView,
    range: PageRange,
    kind: RangeReservationKind,
    page: PageIndex,
)
    requires
        view.direct_admission(range, kind) is Ok,
        range.holds(page),
    ensures
        !holds_dirt(view.slot(page)),
        view.slot(page).state !is Fetching,
        !view.fetches.contains_key(page.0),
        !blocked(view.reservations, range, kind),
        page.0 < view.page_count,
{
    if view.busy_pages(range).contains(page.0) {
        lemma_lowest_exists(view.busy_pages(range), page.0);
    }
    if view.fetched_pages(range).contains(page.0) {
        lemma_lowest_exists(view.fetched_pages(range), page.0);
    }
}

/// However a direct transfer ends, unless it has to be retried, its range is
/// free again and its lease is gone.
pub proof fn law_direct_end_frees_the_range(
    view: ContainerView,
    lease: IoDataLeaseId,
    result: Result<(), Errno>,
    retire: bool,
    i: int,
    j: int,
)
    requires
        view.direct.contains_key(lease.0),
        view.consistent(),
        0 <= i < view.reservations.len(),
        view.reservations[i] == view.direct[lease.0].reservation,
        forall|a: int, b: int|
            0 <= a < b < view.reservations.len() ==> (#[trigger] view.reservations[a]).id != (
            #[trigger] view.reservations[b]).id,
        view.root.dom() == view.pages.dom(),
        0 <= j < view.complete_direct(lease, result, retire).0.reservations.len(),
    ensures
        ({
            let (after, end) = view.complete_direct(lease, result, retire);
            !end.kick_block ==> {
                &&& !after.direct.contains_key(lease.0)
                &&& after.reservations[j].id != view.direct[lease.0].reservation.id
            }
        }),
{
    let token = view.direct[lease.0].reservation;
    let live = view.reservations;
    assert(live[i].id == token.id);
    assert(has_id(live, token.id));
    let taken = view.without_direct(lease);
    let gone = taken.clean_pages(token.range);
    assert(gone.subset_of(taken.root.dom())) by {
        assert forall|k: u64| gone.contains(k) implies taken.root.dom().contains(k) by {
            assert(view.pages.dom().contains(k));
        }
    }
    lemma_released(live, token.id);
    let at = choose|p: int| first_with_id(live, token.id, p);
    assert(first_with_id(live, token.id, at));
    let rest = released(live, token.id);
    assert(at == i) by {
        if at < i {
            assert(live[at].id != live[i].id);
        }
        if i < at {
            assert(live[i].id != live[at].id);
        }
    }
    assert forall|k: int| 0 <= k < rest.len() implies (#[trigger] rest[k]).id != token.id by {
        let p = source_index(live.len(), at, k);
        assert(rest == without_index(live, at));
        assert(rest[k] == live[p]);
        if p < at {
            assert(live[p].id != live[at].id);
        } else {
            assert(live[at].id != live[p].id);
        }
    }
}

/// A direct write that failed at the device, and every direct read, leave the
/// cache, the root and the slots as they were.
pub proof fn law_only_a_written_range_is_invalidated(
    view: ContainerView,
    lease: IoDataLeaseId,
    result: Result<(), Errno>,
    retire: bool,
)
    requires
        view.direct.contains_key(lease.0),
        view.effective_result(lease, result) is Err || view.direct[lease.0].operation is Read,
    ensures
        ({
            let after = view.complete_direct(lease, result, retire).0;
            after.pages == view.pages && after.root == view.root && after.slots == view.slots
        }),
{
}

/// After a direct write no clean cached page of its range is left.
pub proof fn law_written_range_is_invalidated(
    view: ContainerView,
    token: RangeReservation,
    retire: bool,
    page: PageIndex,
)
    requires
        view.complete_direct_write(token, Ok(()), retire).1 is Ok,
        token.range.holds(page),
    ensures
        ({
            let after = view.complete_direct_write(token, Ok(()), retire).0;
            after.cached(page) ==> after.slot(page).state !is Resident || after.slot(
                page,
            ).state.frame() != after.frame_of(page)
        }),
{
    let gone = view.clean_pages(token.range);
    if gone == Set::<u64>::empty() {
        assert(!gone.contains(page.0));
    }
}

/// A completion that waits for a root credit keeps its device result: whatever
/// a retry reports, the first result counts.
pub proof fn law_first_device_result_counts(
    view: ContainerView,
    lease: IoDataLeaseId,
    first: Result<(), Errno>,
    second: Result<(), Errno>,
    retire: bool,
)
    requires
        view.complete_direct(lease, first, false).1.kick_block,
    ensures
        ({
            let pending = view.complete_direct(lease, first, false).0;
            &&& pending.pending_direct().contains(lease.0)
            &&& pending.effective_result(lease, second) == view.effective_result(lease, first)
            &&& pending.complete_direct(lease, second, retire) == pending.complete_direct(
                lease,
                first,
                retire,
            )
        }),
{
}

} // verus!
