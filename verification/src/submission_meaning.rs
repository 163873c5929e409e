//! What pending page requests come to: when one is admitted and under which
//! number, who waits for it, and what is left of it when it has ended.

use crate::error_seq::{ErrorCursor, ErrorSeq};
use crate::ids::{PageGeneration, PageIoRequestId};
use crate::io::{
    IoDataSource, IoDataTarget, PageIoFlags, PageIoOp, PageIoPriority, PageIoRange, PageWaiter,
};
use crate::lease::{OwnerView, PayloadView};
use crate::page_submission::{count_owners, owned_data, SubmissionView};
use vstd::prelude::*;

verus! {

/// Nothing that is kept of another request than number `id` differs.
pub open spec fn same_for_others(a: SubmissionView, b: SubmissionView, id: u64) -> bool {
    &&& a.capacity == b.capacity
    &&& a.background == b.background
    &&& a.rows.remove(id) =~= b.rows.remove(id)
    &&& a.owners.remove(id) =~= b.owners.remove(id)
    &&& a.waiters.remove(id) =~= b.waiters.remove(id)
}

/// A request is admitted under the next number, as it was asked for. It is pending
/// and owned from then on, the number moves on by one and never to zero, and no
/// other request is touched.
pub proof fn law_an_admitted_request_is_pending(
    view: SubmissionView,
    range: PageIoRange,
    op: PageIoOp,
    priority: PageIoPriority,
    flags: PageIoFlags,
    generation_hint: Option<PageGeneration>,
    payload: PayloadView,
)
    ensures
        view.admits() == (view.rows.len() < view.capacity && !view.rows.contains_key(view.next_id)
            && !view.owners.contains_key(view.next_id)),
        ({
            let request = view.next_request(range, op, priority, flags, generation_hint);
            let row = view.with_row(request);
            let owned = view.with_owner(request, payload);
            let id = view.next_id;
            &&& request.id.0 == id
            &&& request.range == range
            &&& request.op == op
            &&& request.priority == priority
            &&& request.flags == flags
            &&& request.generation_hint == generation_hint
            &&& row.rows.contains_key(id) && row.rows[id] == request
            &&& row.owners == view.owners
            &&& row.waiters == view.waiters
            &&& owned.rows == row.rows
            &&& owned.owners.contains_key(id)
            &&& owned.owners[id].request == request
            &&& owned.owners[id].payload == payload
            &&& owned.waiters == view.waiters
            &&& same_for_others(row, view, id)
            &&& same_for_others(owned, view, id)
            &&& row.next_id == owned.next_id
            &&& row.next_id == if view.next_id == u64::MAX {
                1int
            } else {
                view.next_id + 1
            }
        }),
{
}

/// Nothing is kept of a request that has ended: it is not pending, owns nothing,
/// and nobody waits for it. Other requests are not touched, and its number is not
/// given out again by that.
pub proof fn law_an_ended_request_leaves_nothing(view: SubmissionView, id: PageIoRequestId)
    ensures
        ({
            let after = view.retired(id);
            &&& !after.rows.contains_key(id.0)
            &&& !after.owners.contains_key(id.0)
            &&& !after.waiters.contains_key(id.0)
            &&& after.owner(id) is None
            &&& after.waiters_of(id).len() == 0
            &&& after.next_id == view.next_id
            &&& same_for_others(after, view, id.0)
        }),
{
}

/// Whoever comes to wait for a request waits behind those that wait already. Who
/// names no request waits for none.
pub proof fn law_waiters_wait_in_order(view: SubmissionView, id: PageIoRequestId, waiter: PageWaiter)
    ensures
        ({
            let after = view.with_waiter(Some(id), waiter);
            &&& after.waiters_of(id).len() == view.waiters_of(id).len() + 1
            &&& after.waiters_of(id).last() == waiter
            &&& after.waiters_of(id).drop_last() =~= view.waiters_of(id)
            &&& after.rows == view.rows
            &&& after.owners == view.owners
            &&& after.next_id == view.next_id
            &&& same_for_others(after, view, id.0)
        }),
        view.with_waiter(None, waiter) == view,
        view.waiters.contains_key(id.0) ==> view.waiters_of(id) == view.waiters[id.0],
        !view.waiters.contains_key(id.0) ==> view.waiters_of(id).len() == 0,
        view.owner(id) is Some == view.owners.contains_key(id.0),
        view.owner(id) matches Some(owned) ==> owned == view.owners[id.0],
{
}

/// Whether `owned` keeps the frames of a writeback, or the target of a read.
pub open spec fn keeps(owned: OwnerView, writeback: bool) -> bool {
    if writeback {
        owned.payload is Writeback
    } else {
        owned.payload is Read
    }
}

/// The owners that are counted are those that keep such a payload, each once.
pub proof fn law_owners_are_counted_once(
    keys: Seq<u64>,
    owners: Map<u64, OwnerView>,
    writeback: bool,
)
    ensures
        count_owners(keys, owners, writeback) == keys.filter(
            |k: u64| keeps(owners[k], writeback),
        ).len(),
    decreases keys.len(),
{
    reveal(Seq::filter);
    if keys.len() > 0 {
        law_owners_are_counted_once(keys.drop_last(), owners, writeback);
    }
}

/// A backend is given the frame of a read's target as a whole, and nothing to read
/// from; of other requests it is given no target, and of all but a writeback no
/// source.
pub proof fn law_a_backend_reads_into_the_target(
    owned: OwnerView,
    source: IoDataSource,
    target: IoDataTarget,
)
    requires
        owned_data(owned, source, target),
    ensures
        target is PageCache == owned.payload is Read,
        target matches IoDataTarget::PageCache { lease, frame, offset, len } ==> {
            &&& lease.0 == owned.request.id.0
            &&& frame == owned.payload->target.ppn
            &&& offset == 0
            &&& len == 4096
        },
        owned.payload !is Writeback ==> source is Absent,
{
}

/// An observer that is not up to date is told of the latest error, one that is up
/// to date of none.
pub proof fn law_an_observer_is_told_the_latest_error(errors: ErrorSeq, cursor: ErrorCursor)
    ensures
        cursor.observed == errors.sequence ==> errors.report(cursor) is None,
        cursor.observed != errors.sequence ==> errors.report(cursor) == errors.latest,
{
}

} // verus!
