//! What direct transfers come to: which ranges they get, what is asked of the
//! device, and what a caller, the cache and the range see of their end.

use crate::backend::BackendPlan;
use crate::block_runtime::{BlockRequestId, MergedBio};
use crate::container::ContainerView;
use crate::direct::{lowest, DirectIoTerminal};
use crate::direct_io::{
    DirectIoAdmissionError, DirectIoBuffer, DirectIoBusy, DirectIoCompletion,
    DirectIoCompletionError, DirectIoInFlightState, DirectIoOperation, DirectIoSubmissionError,
};
use crate::ids::{Errno, IoDataLeaseId, PageIndex};
use crate::io::PageIoRequest;
use crate::range::{
    first_with_id, has_id, released, PageRange, RangeReservation, RangeReservationError,
    RangeReservationKind,
};
use crate::range_meaning::{
    covers, ends, in_the_way, is_proper, law_a_free_range_is_granted,
    law_a_refusal_names_the_reason, law_a_release_ends_one,
};
use crate::residency_meaning::{can_publish, have_left, published_once};
use crate::slot::PageSlotState;
use vstd::prelude::*;

verus! {

/// What keeps direct I/O away from page number `page`, where anything does.
pub open spec fn occupied(view: ContainerView, page: u64) -> Option<DirectIoBusy> {
    if view.slots.contains_key(page) && view.slots[page].inner.state is Dirty {
        Some(DirectIoBusy::Dirty)
    } else if view.slots.contains_key(page) && view.slots[page].inner.state is Writeback {
        Some(DirectIoBusy::Writeback)
    } else if view.slots.contains_key(page) && view.slots[page].inner.state is Fetching {
        Some(DirectIoBusy::Fetching)
    } else {
        None
    }
}

/// Whether no page of `range` is written, written back or fetched.
pub open spec fn is_idle(view: ContainerView, range: PageRange) -> bool {
    forall|k: u64| #[trigger]
        covers(range, k as int) ==> occupied(view, k) is None && !view.fetches.contains_key(k)
}

/// Whether nobody holds a page of `range` against `kind`.
pub open spec fn is_free(view: ContainerView, range: PageRange, kind: RangeReservationKind) -> bool {
    forall|i: int|
        0 <= i < view.reservations.len() ==> !in_the_way(
            #[trigger] view.reservations[i],
            range,
            kind,
        )
}

/// Whether every range that is held has a page and an end.
pub open spec fn held_properly(view: ContainerView) -> bool {
    forall|i: int|
        0 <= i < view.reservations.len() ==> is_proper((#[trigger] view.reservations[i]).range)
}

proof fn lemma_lowest(set: Set<u64>, k: u64)
    requires
        set.contains(k),
    ensures
        exists|j: u64| lowest(set, j),
    decreases k,
{
    if forall|j: u64| #[trigger] set.contains(j) ==> k <= j {
        assert(lowest(set, k));
    } else {
        let j = choose|j: u64| #[trigger] set.contains(j) && j < k;
        lemma_lowest(set, j);
    }
}

proof fn lemma_idle(view: ContainerView, range: PageRange)
    ensures
        is_idle(view, range) == !((exists|k: u64| lowest(view.busy_pages(range), k)) || (exists|
            k: u64,
        | lowest(view.fetched_pages(range), k))),
{
    assert forall|k: u64| #[trigger] covers(range, k as int) == range.holds(PageIndex(k)) by {}
    if is_idle(view, range) {
        assert forall|k: u64| !lowest(view.busy_pages(range), k) && !lowest(
            view.fetched_pages(range),
            k,
        ) by {
            assert(covers(range, k as int) ==> occupied(view, k) is None);
        }
    } else {
        let k = choose|k: u64| #[trigger]
            covers(range, k as int) && !(occupied(view, k) is None && !view.fetches.contains_key(
                k,
            ));
        if view.busy_pages(range).contains(k) {
            lemma_lowest(view.busy_pages(range), k);
        } else {
            assert(view.fetched_pages(range).contains(k));
            lemma_lowest(view.fetched_pages(range), k);
        }
    }
}

/// A range of a file is given to direct I/O exactly where it lies in the file, all
/// its pages are idle and nobody is in the way. It is then held under the next
/// number, and nothing else changes.
pub proof fn law_an_idle_range_is_given_to_direct_io(
    view: ContainerView,
    range: PageRange,
    kind: RangeReservationKind,
)
    requires
        held_properly(view),
        view.next_reservation < u64::MAX,
        view.direct_active < u64::MAX,
    ensures
        ({
            let (after, result) = view.begin_direct(range, kind);
            &&& result is Ok == {
                &&& view.kind is File
                &&& is_proper(range)
                &&& range.start.0 + range.page_count <= view.page_count
                &&& is_idle(view, range)
                &&& is_free(view, range, kind)
            }
            &&& result matches Ok(held) ==> {
                &&& held.id.0 == view.next_reservation
                &&& held.range == range
                &&& held.kind == kind
                &&& after.reservations == view.reservations.push(held)
                &&& after.next_reservation == view.next_reservation + 1
                &&& after.direct_active == view.direct_active + 1
                &&& after == ContainerView {
                    reservations: after.reservations,
                    next_reservation: after.next_reservation,
                    direct_active: after.direct_active,
                    ..view
                }
            }
            &&& result is Err ==> after == view
        }),
{
    lemma_idle(view, range);
    law_a_free_range_is_granted(view.reservations, view.next_reservation, range, kind);
}

/// A refusal of direct I/O says why: the container is no file, the range has no
/// end, lies beyond the file, has a busy page, of which it names the lowest, is
/// empty, or is held.
pub proof fn law_a_refused_direct_range_says_why(
    view: ContainerView,
    range: PageRange,
    kind: RangeReservationKind,
)
    requires
        held_properly(view),
    ensures
        view.begin_direct(range, kind).1 matches Err(error) ==> {
            &&& error is UnsupportedKind == view.kind !is File
            &&& view.kind is File ==> {
                &&& !ends(range) ==> error == DirectIoAdmissionError::Range(
                    RangeReservationError::Overflow,
                )
                &&& error is OutOfBounds == (ends(range) && range.start.0 + range.page_count
                    > view.page_count)
            }
            &&& error matches DirectIoAdmissionError::Busy { page, state } ==> {
                &&& covers(range, page.0 as int)
                &&& occupied(view, page.0) == Some(state) || (view.fetches.contains_key(page.0)
                    && state is Fetching && forall|k: u64| #[trigger]
                    covers(range, k as int) ==> occupied(view, k) is None)
                &&& forall|k: u64| #[trigger]
                    covers(range, k as int) && k < page.0 ==> occupied(view, k) is None
                &&& occupied(view, page.0) is None ==> forall|k: u64| #[trigger]
                    covers(range, k as int) && k < page.0 ==> !view.fetches.contains_key(k)
            }
            &&& error is Busy == (view.kind is File && ends(range) && range.start.0
                + range.page_count <= view.page_count && !is_idle(view, range))
            &&& error matches DirectIoAdmissionError::Range(
                RangeReservationError::Conflict { existing, kind: held },
            ) ==> exists|i: int|
                {
                    &&& 0 <= i < view.reservations.len()
                    &&& in_the_way(#[trigger] view.reservations[i], range, kind)
                    &&& existing == view.reservations[i].id
                    &&& held == view.reservations[i].kind
                }
            &&& error !is DuplicateLease
        },
{
    lemma_idle(view, range);
    law_a_refusal_names_the_reason(view.reservations, view.next_reservation, range, kind);
    assert forall|k: u64| #[trigger] covers(range, k as int) == range.holds(PageIndex(k)) by {}
    let busy = view.busy_pages(range);
    let fetched = view.fetched_pages(range);
    assert forall|k: u64| #[trigger]
        covers(range, k as int) implies busy.contains(k) == occupied(view, k) is Some by {}
    assert forall|k: u64| #[trigger]
        covers(range, k as int) implies fetched.contains(k) == view.fetches.contains_key(k) by {}
    assert forall|k: u64| busy.contains(k) implies exists|j: u64| lowest(busy, j) by {
        lemma_lowest(busy, k);
    }
    if exists|k: u64| lowest(busy, k) {
        let k = choose|k: u64| lowest(busy, k);
        assert(covers(range, k as int));
    } else if exists|k: u64| lowest(fetched, k) {
        let k = choose|k: u64| lowest(fetched, k);
        assert(covers(range, k as int));
    }
}

/// A submitted transfer is in flight, admitted and with its buffer, exactly where
/// its range is given to it and its lease is not in flight yet.
pub proof fn law_a_submitted_transfer_is_in_flight(
    view: ContainerView,
    range: PageRange,
    buffer: DirectIoBuffer,
    operation: DirectIoOperation,
    wait: Option<u64>,
    retire: bool,
)
    ensures
        ({
            let kind = if operation is Read {
                RangeReservationKind::DirectRead
            } else {
                RangeReservationKind::DirectWrite
            };
            let (given, grant) = view.begin_direct(range, kind);
            let (after, result) = view.submit_direct(range, buffer, operation, wait, retire);
            &&& grant matches Err(error) ==> result == Err::<(), DirectIoAdmissionError>(error)
            &&& grant is Ok && view.direct.contains_key(buffer.lease.0) ==> result == Err::<
                (),
                DirectIoAdmissionError,
            >(DirectIoAdmissionError::DuplicateLease(buffer.lease))
            &&& result is Err ==> after.direct == view.direct && after.direct_done
                == view.direct_done && after.block == view.block
            &&& result is Ok == (grant is Ok && !view.direct.contains_key(buffer.lease.0))
            &&& result is Ok ==> {
                &&& after.direct.contains_key(buffer.lease.0)
                &&& after.direct[buffer.lease.0].reservation == grant->Ok_0
                &&& after.direct[buffer.lease.0].buffer == buffer
                &&& after.direct[buffer.lease.0].operation == operation
                &&& after.direct[buffer.lease.0].state is Admitted
                &&& after.direct[buffer.lease.0].completion_wait == wait
                &&& after == ContainerView { direct: after.direct, ..given }
                &&& after.direct.remove(buffer.lease.0) =~= view.direct.remove(buffer.lease.0)
            }
        }),
{
}

/// A transfer whose lease is in flight already gives its range back: what is held
/// is what was held.
pub proof fn law_a_doubled_lease_gives_its_range_back(
    view: ContainerView,
    range: PageRange,
    buffer: DirectIoBuffer,
    operation: DirectIoOperation,
    wait: Option<u64>,
)
    requires
        view.direct.contains_key(buffer.lease.0),
        view.direct_active < u64::MAX,
        forall|i: int|
            0 <= i < view.reservations.len() ==> (#[trigger] view.reservations[i]).id.0
                < view.next_reservation,
        operation is Read,
    ensures
        ({
            let after = view.submit_direct(range, buffer, operation, wait, true).0;
            &&& after.reservations == view.reservations
            &&& after.direct_active == view.direct_active
            &&& after.pages == view.pages
            &&& after.slots == view.slots
            &&& after.root == view.root
        }),
{
    let kind = operation.reservation_kind();
    let (given, grant) = view.begin_direct(range, kind);
    if grant is Ok {
        let live = given.reservations;
        let last = live.len() - 1;
        let id = grant->Ok_0.id;
        assert(live[last].id == id);
        assert(has_id(live, id));
        assert forall|j: int| 0 <= j < last implies (#[trigger] live[j]).id != id by {
            assert(live[j] == view.reservations[j]);
        }
        assert(first_with_id(live, id, last));
        let at = choose|i: int| first_with_id(live, id, i);
        assert(at == last);
        assert(released(live, id) =~= view.reservations);
    }
}

/// A write whose lease is in flight already drops the clean pages of its range as if
/// it had been done, and gives its range back once that is published; until then it
/// holds on to it.
pub proof fn law_a_doubled_write_lease_drops_its_pages(
    view: ContainerView,
    range: PageRange,
    buffer: DirectIoBuffer,
    wait: Option<u64>,
    retire: bool,
    gone: Set<u64>,
)
    requires
        view.direct.contains_key(buffer.lease.0),
        view.direct_active < u64::MAX,
        view.root.dom() == view.pages.dom(),
        forall|i: int|
            0 <= i < view.reservations.len() ==> (#[trigger] view.reservations[i]).id.0
                < view.next_reservation,
        forall|k: u64| #[trigger] gone.contains(k) == is_clean_in(view, range, k),
        view.begin_direct(range, RangeReservationKind::DirectWrite).1 is Ok,
    ensures
        ({
            let after = view.submit_direct(
                range,
                buffer,
                DirectIoOperation::Write,
                wait,
                retire,
            ).0;
            if gone == Set::<u64>::empty() || can_publish(view, retire) {
                &&& after.reservations == view.reservations
                &&& after.direct_active == view.direct_active
                &&& have_left(view, after, gone)
            } else {
                &&& after.reservations.len() == view.reservations.len() + 1
                &&& after.reservations.last().range == range
                &&& after.reservations.last().kind is DirectWrite
                &&& after.direct_active == view.direct_active + 1
                &&& same_cache(after, view)
            }
        }),
{
    let (given, grant) = view.begin_direct(range, RangeReservationKind::DirectWrite);
    let live = given.reservations;
    let last = live.len() - 1;
    let id = grant->Ok_0.id;
    assert(live[last].id == id);
    assert(has_id(live, id));
    assert forall|j: int| 0 <= j < last implies (#[trigger] live[j]).id != id by {
        assert(live[j] == view.reservations[j]);
    }
    assert(first_with_id(live, id, last));
    let at = choose|i: int| first_with_id(live, id, i);
    assert(at == last);
    assert(released(live, id) =~= view.reservations);
    assert(given.clean_pages(range) =~= gone) by {
        assert forall|k: u64| given.clean_pages(range).contains(k) == gone.contains(k) by {
            assert(covers(range, k as int) == range.holds(PageIndex(k)));
        }
    }
    assert(gone.subset_of(view.root.dom())) by {
        assert forall|k: u64| gone.contains(k) implies view.root.dom().contains(k) by {
            assert(view.pages.dom().contains(k));
        }
    }
}

/// The result of the device that counts: what it said first.
pub open spec fn device_said(
    view: ContainerView,
    lease: IoDataLeaseId,
    result: Result<(), Errno>,
) -> Result<(), Errno> {
    match view.direct[lease.0].state {
        DirectIoInFlightState::CompletionPending { result: first } => first,
        _ => result,
    }
}

/// Whether page number `k` of `range` is cached and clean.
pub open spec fn is_clean_in(view: ContainerView, range: PageRange, k: u64) -> bool {
    &&& covers(range, k as int)
    &&& view.pages.contains_key(k)
    &&& view.slots.contains_key(k)
    &&& view.slots[k].inner.state == (PageSlotState::Resident { ppn: view.pages[k].ppn })
}

/// Whether the books are those of before but for the end of `lease`: it is no
/// longer in flight, its range is free, and whoever waits for it can take
/// `completion`.
pub open spec fn closed(
    before: ContainerView,
    after: ContainerView,
    lease: IoDataLeaseId,
    completion: Result<DirectIoCompletion, DirectIoCompletionError>,
) -> bool {
    &&& !after.direct.contains_key(lease.0)
    &&& after.direct == before.direct.remove(lease.0)
    &&& after.direct_active == before.direct_active - 1
    &&& after.reservations.len() == before.reservations.len() - 1
    &&& forall|r: RangeReservation| #[trigger]
        after.reservations.contains(r) == (before.reservations.contains(r) && r
            != before.direct[lease.0].reservation)
    &&& match before.direct[lease.0].completion_wait {
        Some(wait) => {
            &&& after.direct_done.contains_key(lease.0)
            &&& after.direct_done[lease.0].result == completion
            &&& after.direct_done[lease.0].wait == wait
            &&& after.direct_done.remove(lease.0) =~= before.direct_done.remove(lease.0)
        },
        None => after.direct_done == before.direct_done,
    }
    &&& after == ContainerView {
        direct: after.direct,
        direct_active: after.direct_active,
        reservations: after.reservations,
        direct_done: after.direct_done,
        pages: after.pages,
        slots: after.slots,
        root: after.root,
        sequence: after.sequence,
        ..before
    }
}

/// Whether the cache is the same.
pub open spec fn same_cache(a: ContainerView, b: ContainerView) -> bool {
    a.pages == b.pages && a.slots == b.slots && a.root == b.root && a.sequence == b.sequence
}

/// A transfer that is over at the device ends by what the device said. A read, and
/// a write that failed, leave the cache alone. A write drops the clean pages of its
/// range, all at once, before the range is free; while that cannot be published
/// the transfer stays in flight, with its range and the device's word, and the
/// block service has to run again.
pub proof fn law_a_direct_transfer_ends(
    view: ContainerView,
    lease: IoDataLeaseId,
    result: Result<(), Errno>,
    retire: bool,
    gone: Set<u64>,
    i: int,
)
    requires
        view.consistent(),
        view.root.dom() == view.pages.dom(),
        view.direct.contains_key(lease.0),
        view.direct_active > 0,
        0 <= i < view.reservations.len(),
        view.reservations[i] == view.direct[lease.0].reservation,
        forall|a: int, b: int|
            0 <= a < b < view.reservations.len() ==> (#[trigger] view.reservations[a]).id != (
            #[trigger] view.reservations[b]).id,
        forall|k: u64| #[trigger]
            gone.contains(k) == is_clean_in(view, view.direct[lease.0].reservation.range, k),
    ensures
        ({
            let (after, end) = view.complete_direct(lease, result, retire);
            let operation = view.direct[lease.0].operation;
            let said = device_said(view, lease, result);
            if operation is Read || said is Err {
                &&& end.completion == match said {
                    Ok(()) => Ok::<DirectIoCompletion, DirectIoCompletionError>(
                        DirectIoCompletion::Read,
                    ),
                    Err(errno) => Err(DirectIoCompletionError::Backend(errno)),
                }
                &&& !end.kick_block
                &&& end.notify == view.direct[lease.0].completion_wait
                &&& closed(view, after, lease, end.completion)
                &&& same_cache(after, view)
            } else if gone == Set::<u64>::empty() || can_publish(view, retire) {
                &&& end.completion == Ok::<DirectIoCompletion, DirectIoCompletionError>(
                    DirectIoCompletion::Write { invalidated: #[verifier::truncate] (gone.len() as usize) },
                )
                &&& !end.kick_block
                &&& end.notify == view.direct[lease.0].completion_wait
                &&& closed(view, after, lease, end.completion)
                &&& have_left(view, after, gone)
                &&& gone == Set::<u64>::empty() ==> same_cache(after, view)
                &&& gone != Set::<u64>::empty() ==> published_once(view, after)
            } else {
                &&& end.completion == Err::<DirectIoCompletion, DirectIoCompletionError>(
                    DirectIoCompletionError::Backend(Errno::EAGAIN),
                )
                &&& end.kick_block
                &&& end.notify is None
                &&& same_cache(after, view)
                &&& after.reservations == view.reservations
                &&& after.direct_active == view.direct_active
                &&& after.direct_done == view.direct_done
                &&& after.direct.contains_key(lease.0)
                &&& after.direct[lease.0].state is CompletionPending
                &&& after.direct[lease.0].state->result is Ok
                &&& after.direct[lease.0].reservation == view.direct[lease.0].reservation
                &&& after.direct[lease.0].buffer == view.direct[lease.0].buffer
                &&& after.direct[lease.0].operation == operation
                &&& after.direct[lease.0].completion_wait == view.direct[lease.0].completion_wait
            }
        }),
{
    let token = view.direct[lease.0].reservation;
    let live = view.reservations;
    assert(live[i].id == token.id);
    assert(has_id(live, token.id));
    law_a_release_ends_one(live, i);
    let taken = view.without_direct(lease);
    assert(taken.clean_pages(token.range) =~= gone) by {
        assert forall|k: u64| taken.clean_pages(token.range).contains(k) == gone.contains(k) by {
            assert(covers(token.range, k as int) == token.range.holds(PageIndex(k)));
        }
    }
    assert(gone.subset_of(view.root.dom())) by {
        assert forall|k: u64| gone.contains(k) implies view.root.dom().contains(k) by {
            assert(view.pages.dom().contains(k));
        }
    }
}

/// The end of a lease that is not in flight is an error and changes nothing.
pub proof fn law_an_unknown_lease_does_not_end(
    view: ContainerView,
    lease: IoDataLeaseId,
    result: Result<(), Errno>,
    retire: bool,
)
    requires
        !view.direct.contains_key(lease.0),
    ensures
        view.complete_direct(lease, result, retire).0 == view,
        view.complete_direct(lease, result, retire).1.completion == Err::<
            DirectIoCompletion,
            DirectIoCompletionError,
        >(DirectIoCompletionError::UnknownLease(lease)),
        !view.complete_direct(lease, result, retire).1.kick_block,
        view.complete_direct(lease, result, retire).1.notify is None,
{
}

/// What a retried completion answered to its caller.
pub open spec fn has_to_wait(end: DirectIoTerminal) -> bool {
    end.completion == Err::<DirectIoCompletion, DirectIoCompletionError>(
        DirectIoCompletionError::Backend(Errno::EAGAIN),
    )
}

/// Retrying goes through the leases in order, each with its own credit, and none
/// without one. It says whether one still has to wait, and whom to wake.
pub proof fn law_every_pending_completion_is_retried(
    view: ContainerView,
    leases: Seq<u64>,
    retires: Seq<bool>,
    states: Seq<ContainerView>,
    ends: Seq<DirectIoTerminal>,
)
    requires
        states.len() == leases.len() + 1,
        ends.len() == leases.len(),
        states[0] == view,
        forall|i: int|
            0 <= i < leases.len() ==> (states[i + 1], #[trigger] ends[i])
                == states[i].complete_direct(
                IoDataLeaseId(leases[i]),
                Ok(()),
                i < retires.len() && retires[i],
            ),
        forall|i: int| 0 <= i < ends.len() ==> (#[trigger] ends[i]).completion is Ok || has_to_wait(
            ends[i],
        ),
    ensures
        ({
            let retried = view.retry_direct(leases, retires, leases.len());
            &&& retried.view == states.last()
            &&& retried.failed is None
            &&& retried.still_pending == exists|i: int|
                0 <= i < ends.len() && has_to_wait(#[trigger] ends[i])
            &&& retried.kick_block == exists|i: int|
                0 <= i < ends.len() && (#[trigger] ends[i]).kick_block
            &&& forall|i: int|
                0 <= i < ends.len() && (#[trigger] ends[i]).notify is Some
                    ==> retried.notify.contains(ends[i].notify->Some_0)
        }),
{
    lemma_retries(view, leases, retires, states, ends, leases.len());
}

proof fn lemma_retries(
    view: ContainerView,
    leases: Seq<u64>,
    retires: Seq<bool>,
    states: Seq<ContainerView>,
    ends: Seq<DirectIoTerminal>,
    count: nat,
)
    requires
        count <= leases.len(),
        states.len() == leases.len() + 1,
        ends.len() == leases.len(),
        states[0] == view,
        forall|i: int|
            0 <= i < leases.len() ==> (states[i + 1], #[trigger] ends[i])
                == states[i].complete_direct(
                IoDataLeaseId(leases[i]),
                Ok(()),
                i < retires.len() && retires[i],
            ),
        forall|i: int| 0 <= i < ends.len() ==> (#[trigger] ends[i]).completion is Ok || has_to_wait(
            ends[i],
        ),
    ensures
        ({
            let retried = view.retry_direct(leases, retires, count);
            &&& retried.view == states[count as int]
            &&& retried.failed is None
            &&& retried.still_pending == exists|i: int|
                0 <= i < count && has_to_wait(#[trigger] ends[i])
            &&& retried.kick_block == exists|i: int|
                0 <= i < count && (#[trigger] ends[i]).kick_block
            &&& forall|i: int|
                0 <= i < count && (#[trigger] ends[i]).notify is Some ==> retried.notify.contains(
                    ends[i].notify->Some_0,
                )
        }),
    decreases count,
{
    if count > 0 {
        let last = count - 1;
        lemma_retries(view, leases, retires, states, ends, last as nat);
        let before = view.retry_direct(leases, retires, last as nat);
        let retried = view.retry_direct(leases, retires, count);
        let end = ends[last];
        assert((states[last + 1], end) == states[last].complete_direct(
            IoDataLeaseId(leases[last]),
            Ok(()),
            last < retires.len() && retires[last],
        ));
        assert forall|i: int| 0 <= i < count && (#[trigger] ends[i]).notify is Some implies
            retried.notify.contains(ends[i].notify->Some_0) by {
            let source = ends[i].notify->Some_0;
            if i < last {
                let at = before.notify.index_of(source);
                assert(before.notify[at] == source);
                assert(retried.notify[at] == source);
            } else {
                assert(retried.notify[retried.notify.len() - 1] == source);
            }
        }
        if before.still_pending {
            let i = choose|i: int| 0 <= i < last && has_to_wait(#[trigger] ends[i]);
            assert(has_to_wait(ends[i]));
        }
        if before.kick_block {
            let i = choose|i: int| 0 <= i < last && (#[trigger] ends[i]).kick_block;
            assert(ends[i].kick_block);
        }
    }
}

/// Whether `request` asks for exactly the pages of `range`, into or out of the
/// leased buffer.
pub open spec fn asks_for(
    request: PageIoRequest,
    lease: IoDataLeaseId,
    range: PageRange,
    operation: DirectIoOperation,
) -> bool {
    &&& request.id.0 == lease.0
    &&& request.range.start_page == range.start.0
    &&& request.range.page_count == range.page_count
    &&& request.op is Read == operation is Read
    &&& request.op is Writeback == operation is Write
    &&& request.priority is Demand == operation is Read
    &&& request.priority is ForegroundWrite == operation is Write
    &&& request.flags is Demand == operation is Read
    &&& request.flags is Writeback == operation is Write
    &&& request.generation_hint is Some
    &&& request.generation_hint->Some_0.0 == lease.0
}

/// Only an admitted transfer of a file, for the operation that it was admitted
/// for, is planned: the planner is asked for its pages, and nobody plans it twice.
pub proof fn law_an_admitted_transfer_is_planned_once(
    view: ContainerView,
    lease: IoDataLeaseId,
    range: PageRange,
    operation: DirectIoOperation,
)
    requires
        view.kind is File,
    ensures
        ({
            let (after, result) = view.begin_direct_plan(lease, range, operation);
            let known = view.direct.contains_key(lease.0);
            &&& result is Ok == (known && view.direct[lease.0].operation == operation
                && view.direct[lease.0].state is Admitted)
            &&& result matches Ok(request) ==> {
                &&& asks_for(request, lease, range, operation)
                &&& after.direct.contains_key(lease.0)
                &&& after.direct[lease.0].state is Planning
                &&& after.direct[lease.0].buffer == view.direct[lease.0].buffer
                &&& after.direct[lease.0].reservation == view.direct[lease.0].reservation
                &&& after.direct[lease.0].completion_wait == view.direct[lease.0].completion_wait
                &&& after == ContainerView { direct: after.direct, ..view }
                &&& after.direct.remove(lease.0) =~= view.direct.remove(lease.0)
                &&& after.begin_direct_plan(lease, range, operation).1 is Err
            }
            &&& result matches Err(refused) ==> {
                &&& after == view
                &&& !refused.kick_block
                &&& refused.notify is None
                &&& refused.result == Err::<(), DirectIoSubmissionError>(
                    if !known {
                        DirectIoSubmissionError::UnknownLease(lease)
                    } else if view.direct[lease.0].operation != operation {
                        DirectIoSubmissionError::OperationMismatch
                    } else {
                        DirectIoSubmissionError::Busy(lease)
                    },
                )
            }
        }),
{
}

/// Whether a planner's answer is one transfer.
pub open spec fn is_one_transfer(planned: Option<BackendPlan>) -> bool {
    planned matches Some(BackendPlan::SubmitBios(bios)) && bios@.len() == 1
}

/// A planned transfer is queued exactly where the plan is one transfer of at least
/// one block and the queue has room for it or a place to merge it. Its end is then
/// routed to the lease.
pub proof fn law_one_planned_transfer_is_queued(
    view: ContainerView,
    lease: IoDataLeaseId,
    planned: Option<BackendPlan>,
)
    requires
        view.direct.contains_key(lease.0),
        view.direct[lease.0].state is Planning,
        view.block.next_id < u64::MAX,
        is_one_transfer(planned),
    ensures
        ({
            let (after, end) = view.finish_direct_plan(lease, planned, None);
            let bio = planned->Some_0->SubmitBios_0@[0];
            let id = view.block.next_id;
            &&& end.result is Ok == (bio.range.count > 0 && view.block.queue.len()
                < view.block.max_pending)
            &&& end.result is Ok ==> {
                &&& end.kick_block
                &&& end.notify is None
                &&& after.direct.contains_key(lease.0)
                &&& after.direct[lease.0].state is Queued
                &&& after.direct[lease.0].buffer == view.direct[lease.0].buffer
                &&& after.direct[lease.0].reservation == view.direct[lease.0].reservation
                &&& after.block.queue.len() == view.block.queue.len() + 1
                &&& after.block.queue.last().plan == bio
                &&& after.block.queue.last().id == BlockRequestId(id)
                &&& !after.block.queue.last().blocked
                &&& after.block.queue.drop_last() =~= view.block.queue
                &&& after.block.next_id == id + 1
                &&& after.block.tags == view.block.tags
                &&& after.block.pages == view.block.pages
                &&& after.block.direct.contains_key(id)
                &&& after.block.direct[id].contains(lease)
                &&& after.reservations == view.reservations
                &&& same_cache(after, view)
            }
            &&& end.result matches Err(error) ==> {
                &&& error == DirectIoSubmissionError::Queue(
                    if bio.range.count == 0 {
                        Errno::EINVAL
                    } else {
                        Errno::EAGAIN
                    },
                )
                &&& !end.kick_block
                &&& end.notify == view.direct[lease.0].completion_wait
                &&& !after.direct.contains_key(lease.0)
                &&& after.block == view.block
            }
        }),
{
    let known = crate::block_runtime::leases_of(
        view.block.direct,
        BlockRequestId(view.block.next_id),
    );
    if !known.contains(lease) {
        assert(known.push(lease)[known.len() as int] == lease);
    }
}

/// A plan that is none, that failed, or that is anything but one transfer gives the
/// transfer up: it is no longer in flight, whoever waits for it is told, and the
/// caller learns why.
pub proof fn law_a_transfer_without_a_plan_is_given_up(
    view: ContainerView,
    lease: IoDataLeaseId,
    planned: Option<BackendPlan>,
    merged: Option<MergedBio>,
)
    requires
        view.direct.contains_key(lease.0),
        view.direct[lease.0].state is Planning,
        !is_one_transfer(planned),
    ensures
        ({
            let (after, end) = view.finish_direct_plan(lease, planned, merged);
            &&& end.result == Err::<(), DirectIoSubmissionError>(
                match planned {
                    None => DirectIoSubmissionError::MissingBackendPlanner,
                    Some(BackendPlan::Failed(errno)) => DirectIoSubmissionError::Backend(errno),
                    Some(_) => DirectIoSubmissionError::UnsupportedBackendPlan,
                },
            )
            &&& !end.kick_block
            &&& end.notify == view.direct[lease.0].completion_wait
            &&& !after.direct.contains_key(lease.0)
            &&& after.block == view.block
            &&& same_cache(after, view)
        }),
{
}

/// The error that a transfer given up leaves for its submitter: what the planner
/// said, and else that there is no such call.
pub proof fn law_a_transfer_given_up_leaves_its_error(
    view: ContainerView,
    lease: IoDataLeaseId,
    planned: Option<BackendPlan>,
    merged: Option<MergedBio>,
)
    requires
        view.consistent(),
        view.direct.contains_key(lease.0),
        view.direct[lease.0].state is Planning,
        view.direct[lease.0].completion_wait is Some,
        has_id(view.reservations, view.direct[lease.0].reservation.id),
        !is_one_transfer(planned),
    ensures
        ({
            let (after, end) = view.finish_direct_plan(lease, planned, merged);
            &&& after.direct_done.contains_key(lease.0)
            &&& after.direct_done[lease.0].wait == view.direct[lease.0].completion_wait->Some_0
            &&& after.direct_done[lease.0].result == Err::<
                DirectIoCompletion,
                DirectIoCompletionError,
            >(
                DirectIoCompletionError::Backend(
                    match planned {
                        Some(BackendPlan::Failed(errno)) => errno,
                        _ => Errno::ENOSYS,
                    },
                ),
            )
        }),
{
}

/// Planning and queueing in one go is planning, then queueing.
pub proof fn law_a_transfer_is_planned_then_queued(
    view: ContainerView,
    lease: IoDataLeaseId,
    range: PageRange,
    operation: DirectIoOperation,
    planned: Option<BackendPlan>,
    merged: Option<MergedBio>,
)
    requires
        view.kind is File,
    ensures
        ({
            let admitted = view.direct.contains_key(lease.0) && view.direct[lease.0].operation
                == operation && view.direct[lease.0].state is Admitted;
            let (planning, _) = view.begin_direct_plan(lease, range, operation);
            let (after, end) = view.enqueue_direct(lease, range, operation, planned, merged);
            &&& admitted ==> (after, end) == planning.finish_direct_plan(lease, planned, merged)
            &&& !admitted ==> after == view && end.result is Err && !end.kick_block
        }),
{
}

/// A completion that cannot be retried ends the retries: nothing behind it is looked
/// at, and the caller learns why.
pub proof fn law_a_failed_retry_ends_the_retries(
    view: ContainerView,
    leases: Seq<u64>,
    retires: Seq<bool>,
    i: nat,
)
    requires
        i < leases.len(),
    ensures
        ({
            let before = view.retry_direct(leases, retires, i);
            let after = view.retry_direct(leases, retires, i + 1);
            let (settled, end) = before.view.complete_direct(
                IoDataLeaseId(leases[i as int]),
                Ok(()),
                i < retires.len() && retires[i as int],
            );
            &&& before.failed is Some ==> after == before
            &&& before.failed is None ==> {
                &&& after.view == settled
                &&& after.failed is Some == (end.completion is Err && !has_to_wait(end))
                &&& after.failed matches Some(error) ==> end.completion == Err::<
                    DirectIoCompletion,
                    DirectIoCompletionError,
                >(error)
                &&& after.still_pending == (before.still_pending || has_to_wait(end))
                &&& after.kick_block == (before.kick_block || end.kick_block)
                &&& after.notify == match end.notify {
                    Some(source) => before.notify.push(source),
                    None => before.notify,
                }
            }
        }),
{
}

/// A plan of one transfer for a lease that is not being planned is refused: unknown
/// where it is not in flight, and busy where it is further on. Nothing changes.
pub proof fn law_a_plan_is_for_a_lease_in_planning(
    view: ContainerView,
    lease: IoDataLeaseId,
    planned: Option<BackendPlan>,
    merged: Option<MergedBio>,
)
    requires
        is_one_transfer(planned),
        !(view.direct.contains_key(lease.0) && view.direct[lease.0].state is Planning),
    ensures
        ({
            let (after, end) = view.finish_direct_plan(lease, planned, merged);
            &&& after == view
            &&& !end.kick_block
            &&& end.notify is None
            &&& end.result == Err::<(), DirectIoSubmissionError>(
                if view.direct.contains_key(lease.0) {
                    DirectIoSubmissionError::Busy(lease)
                } else {
                    DirectIoSubmissionError::UnknownLease(lease)
                },
            )
        }),
{
}

/// A transfer of a container that is no file has no planner: it is given up, and
/// whoever waits for it is told.
pub proof fn law_only_files_have_a_planner(
    view: ContainerView,
    lease: IoDataLeaseId,
    range: PageRange,
    operation: DirectIoOperation,
)
    requires
        view.kind !is File,
        view.direct.contains_key(lease.0),
        view.direct[lease.0].operation == operation,
        view.direct[lease.0].state is Admitted,
    ensures
        ({
            let (after, result) = view.begin_direct_plan(lease, range, operation);
            &&& result matches Err(refused) && {
                &&& refused.result matches Err(error) && error is MissingBackendPlanner
                &&& !refused.kick_block
                &&& refused.notify == view.direct[lease.0].completion_wait
            }
            &&& !after.direct.contains_key(lease.0)
            &&& same_cache(after, view)
        }),
{
}

/// A transfer that joins one that waits is routed with it: both leases hear of the
/// end, and the queue is no longer than before.
pub proof fn law_a_joined_transfer_is_queued(
    view: ContainerView,
    lease: IoDataLeaseId,
    planned: Option<BackendPlan>,
    merged: MergedBio,
)
    requires
        view.direct.contains_key(lease.0),
        view.direct[lease.0].state is Planning,
        is_one_transfer(planned),
        planned->Some_0->SubmitBios_0@[0].range.count > 0,
        crate::block_meaning::waits(view.block, merged.id),
    ensures
        ({
            let (after, end) = view.finish_direct_plan(lease, planned, Some(merged));
            &&& end.result is Ok
            &&& end.kick_block
            &&& after.direct.contains_key(lease.0)
            &&& after.direct[lease.0].state is Queued
            &&& after.block.queue.len() == view.block.queue.len()
            &&& after.block.next_id == view.block.next_id
            &&& after.block.direct.contains_key(merged.id.0)
            &&& after.block.direct[merged.id.0].contains(lease)
        }),
{
    let plan = planned->Some_0->SubmitBios_0@[0];
    crate::block_meaning::law_a_joining_transfer_takes_no_place(view.block, plan, merged, false);
    crate::block_meaning::law_a_lease_hears_of_its_transfer_once(
        view.block.with_bio(plan, Some(merged), false),
        lease,
        merged.id,
    );
}

} // verus!
