//! What block submission comes to: which transfers go to the device and in which
//! order, where a new one waits, and to whom its end is routed.

use crate::block_runtime::{
    blocked_count, dispatchable, leases_of, merge_of, queue_errno, routed, waiting,
    BackendSubmitOutcome, BioPlan, BlockRequestId, BlockView, MergedBio, PageL6SubmitFailure,
    QueuedBio, QueueError, SubmitOutcome,
};
use crate::ids::IoDataLeaseId;
use crate::io::PageIoRequest;
use vstd::prelude::*;

verus! {

/// Whether the first `count` transfers of the queue may go to the device in a turn
/// of `budget`.
pub open spec fn may_go(view: BlockView, budget: usize, count: int) -> bool {
    &&& 0 <= count <= budget
    &&& count <= view.queue.len()
    &&& count > 0 ==> view.tags.len() + count <= view.depth
    &&& forall|i: int| 0 <= i < count ==> !(#[trigger] view.queue[i]).blocked
}

proof fn lemma_dispatchable(view: BlockView, room: nat)
    ensures
        dispatchable(view.queue, room) <= room,
        dispatchable(view.queue, room) <= view.queue.len(),
        forall|i: int|
            0 <= i < dispatchable(view.queue, room) ==> !(#[trigger] view.queue[i]).blocked,
        dispatchable(view.queue, room) < room && dispatchable(view.queue, room)
            < view.queue.len() ==> view.queue[dispatchable(view.queue, room) as int].blocked,
    decreases room,
{
    if room > 0 {
        lemma_dispatchable(view, (room - 1) as nat);
    }
}

/// A turn sends as many transfers as may go, and no more: from the front of the
/// queue up to the first that is held back, within the budget and the depth of the
/// device.
pub proof fn law_a_turn_sends_what_may_go(view: BlockView, budget: usize, more: int)
    ensures
        may_go(view, budget, view.dispatch_count(budget) as int),
        more > view.dispatch_count(budget) ==> !may_go(view, budget, more),
{
    let free: nat = if view.tags.len() < view.depth {
        (view.depth - view.tags.len()) as nat
    } else {
        0
    };
    let room: nat = if budget as nat <= free {
        budget as nat
    } else {
        free
    };
    lemma_dispatchable(view, room);
}

/// Transfers leave the queue from the front. Each is at the device under a tag of
/// its own, the next in turn, and the others move up in order.
pub proof fn law_sent_transfers_are_at_the_device(view: BlockView, count: nat)
    requires
        count <= view.queue.len(),
        view.next_tag + count <= u64::MAX,
        forall|tag: u64| #[trigger] view.tags.contains_key(tag) ==> tag < view.next_tag,
    ensures
        ({
            let after = view.dispatched(count);
            &&& after.next_tag == view.next_tag + count
            &&& after.queue.len() == view.queue.len() - count
            &&& forall|i: int|
                0 <= i < after.queue.len() ==> #[trigger] after.queue[i] == view.queue[i + count]
            &&& forall|tag: u64| #[trigger]
                after.tags.contains_key(tag) == (view.tags.contains_key(tag) || view.next_tag
                    <= tag < view.next_tag + count)
            &&& forall|tag: u64| #[trigger]
                after.tags.contains_key(tag) ==> after.tags[tag] == if tag < view.next_tag {
                    view.tags[tag]
                } else {
                    view.queue[tag - view.next_tag].id
                }
            &&& after == BlockView {
                next_tag: after.next_tag,
                queue: after.queue,
                tags: after.tags,
                ..view
            }
        }),
    decreases count,
{
    if count > 0 {
        law_sent_transfers_are_at_the_device(view, (count - 1) as nat);
        let before = view.dispatched((count - 1) as nat);
        assert(before.queue[0] == view.queue[count - 1]);
        let after = view.dispatched(count);
        assert forall|i: int| 0 <= i < after.queue.len() implies #[trigger] after.queue[i]
            == view.queue[i + count] by {
            assert(after.queue[i] == before.queue[i + 1]);
        }
    }
}

/// What the device is told of a sent transfer is its place in the queue: its plan,
/// under the tag by which its end will be known.
pub proof fn law_the_device_gets_the_plan(view: BlockView, count: nat, i: int)
    requires
        0 <= i < count <= view.queue.len(),
        view.next_tag + count <= u64::MAX,
        forall|tag: u64| #[trigger] view.tags.contains_key(tag) ==> tag < view.next_tag,
    ensures
        view.dispatch(i).plan == view.queue[i].plan,
        view.dispatched(count).tags.contains_key(view.dispatch(i).tag.0),
        view.dispatched(count).tags[view.dispatch(i).tag.0] == view.dispatch(i).id,
        view.dispatch(i).id == view.queue[i].id,
        forall|j: int|
            0 <= j < i ==> (#[trigger] view.dispatch(j)).tag.0 < view.dispatch(i).tag.0,
{
    law_sent_transfers_are_at_the_device(view, count);
    let tag = view.dispatch(i).tag.0;
    assert(view.dispatched(count).tags.contains_key(tag));
    assert(tag - view.next_tag == i);
}

/// The service runs while the front can go, sleeps when nothing waits and nothing
/// is at the device, and else waits for the device. What a turn announces counts
/// what waits alone.
pub proof fn law_the_service_says_how_it_goes_on(view: BlockView)
    ensures
        view.next_step() is Runnable == may_go(view, 1, 1),
        view.announced_step() is Runnable == may_go(view, 1, 1),
        view.next_step() is Sleeping == (view.queue.len() == 0 && view.tags.len() == 0),
        view.announced_step() is Sleeping == (view.queue.len() == 0),
        view.can_dispatch() == (view.dispatch_count(1) == 1),
{
    law_a_turn_sends_what_may_go(view, 1, 1);
    law_a_turn_sends_what_may_go(view, 1, 2);
}

proof fn lemma_waiting(view: BlockView, id: BlockRequestId, i: nat)
    ensures
        match waiting(view.queue, id, i) {
            Some(at) => {
                &&& i <= at < view.queue.len()
                &&& view.queue[at as int].id == id
                &&& forall|j: int| i <= j < at ==> (#[trigger] view.queue[j]).id != id
            },
            None => forall|j: int| i <= j < view.queue.len() ==> (#[trigger] view.queue[j]).id
                != id,
        },
    decreases view.queue.len() - i,
{
    if i < view.queue.len() {
        lemma_waiting(view, id, i + 1);
    }
}

/// Whether a transfer with identity `id` waits.
pub open spec fn waits(view: BlockView, id: BlockRequestId) -> bool {
    exists|i: int| 0 <= i < view.queue.len() && (#[trigger] view.queue[i]).id == id
}

/// A transfer of at least one block is accepted where it joins one that waits or
/// the queue has room. On its own it waits at the end, under the next number.
pub proof fn law_a_transfer_waits_at_the_end(view: BlockView, plan: BioPlan, blocked: bool)
    requires
        view.next_id < u64::MAX,
    ensures
        view.submission(plan, None) is Ok == (plan.range.count > 0 && view.queue.len()
            < view.max_pending),
        view.submission(plan, None) matches Ok(outcome) ==> outcome is Queued && outcome->Queued_0.0
            == view.next_id,
        view.submission(plan, None) matches Err(error) ==> error is EmptyRange == (plan.range.count
            == 0) && error !is DispatchDepthFull,
        ({
            let after = view.with_bio(plan, None, blocked);
            &&& after.queue.len() == view.queue.len() + 1
            &&& forall|i: int| 0 <= i < view.queue.len() ==> #[trigger] after.queue[i]
                == view.queue[i]
            &&& after.queue.last().id.0 == view.next_id
            &&& after.queue.last().plan == plan
            &&& after.queue.last().blocked == blocked
            &&& after.next_id == view.next_id + 1
            &&& after == BlockView { queue: after.queue, next_id: after.next_id, ..view }
        }),
{
}

/// A transfer that joins one that waits takes no place and no number: that one
/// becomes what holds both, and is held back if either is. Where nobody of that
/// identity waits, the transfer is on its own.
pub proof fn law_a_joining_transfer_takes_no_place(
    view: BlockView,
    plan: BioPlan,
    merged: MergedBio,
    blocked: bool,
)
    ensures
        waits(view, merged.id) && plan.range.count > 0 ==> view.submission(plan, Some(merged))
            == Ok::<SubmitOutcome, QueueError>(SubmitOutcome::Merged(merged.id)),
        !waits(view, merged.id) ==> {
            &&& view.submission(plan, Some(merged)) == view.submission(plan, None)
            &&& view.with_bio(plan, Some(merged), blocked) == view.with_bio(plan, None, blocked)
        },
        waits(view, merged.id) ==> {
            let after = view.with_bio(plan, Some(merged), blocked);
            &&& after.queue.len() == view.queue.len()
            &&& after.next_id == view.next_id
            &&& exists|at: int|
                {
                    &&& 0 <= at < view.queue.len()
                    &&& view.queue[at].id == merged.id
                    &&& (#[trigger] after.queue[at]).id == merged.id
                    &&& after.queue[at].plan == merged.plan
                    &&& after.queue[at].blocked == (blocked || view.queue[at].blocked)
                    &&& forall|i: int|
                        0 <= i < view.queue.len() && i != at ==> #[trigger] after.queue[i]
                            == view.queue[i]
                }
            &&& after == BlockView { queue: after.queue, ..view }
        },
{
    lemma_waiting(view, merged.id, 0);
    if waits(view, merged.id) {
        let i = choose|i: int| 0 <= i < view.queue.len() && (#[trigger] view.queue[i]).id
            == merged.id;
        let at = waiting(view.queue, merged.id, 0)->Some_0 as int;
        let after = view.with_bio(plan, Some(merged), blocked);
        assert(after.queue[at].id == merged.id);
    }
}

/// Transfers of one request, none of which joins another, are accepted in order up
/// to the first that is empty or finds no room. Each accepted one waits behind the
/// one before, under the next number, held back.
pub proof fn law_transfers_of_a_request_are_accepted_in_order(
    view: BlockView,
    plans: Seq<BioPlan>,
    count: nat,
)
    requires
        count <= plans.len() <= usize::MAX,
        view.next_id + plans.len() <= u64::MAX,
    ensures
        ({
            let all = view.submit_all(plans, Seq::empty(), count);
            let accepted = all.submitted.len();
            &&& accepted <= count
            &&& all.failure is None == (accepted == count)
            &&& all.view.queue.len() == view.queue.len() + accepted
            &&& all.view.next_id == view.next_id + accepted
            &&& forall|i: int|
                0 <= i < accepted ==> {
                    &&& #[trigger] all.submitted[i] is Queued
                    &&& all.submitted[i]->Queued_0.0 == view.next_id + i
                    &&& plans[i].range.count > 0
                    &&& view.queue.len() + i < view.max_pending
                }
            &&& forall|i: int|
                0 <= i < view.queue.len() ==> #[trigger] all.view.queue[i] == view.queue[i]
            &&& forall|i: int|
                view.queue.len() <= i < all.view.queue.len() ==> {
                    &&& (#[trigger] all.view.queue[i]).plan == plans[i - view.queue.len()]
                    &&& all.view.queue[i].id.0 == view.next_id + (i - view.queue.len())
                    &&& all.view.queue[i].blocked
                }
            &&& all.failure matches Some(failure) ==> {
                &&& failure.failed_index == accepted
                &&& failure.error == if plans[accepted as int].range.count == 0 {
                    QueueError::EmptyRange
                } else {
                    QueueError::Full
                }
                &&& failure.error is Full ==> view.queue.len() + accepted >= view.max_pending
            }
            &&& all.view == BlockView { queue: all.view.queue, next_id: all.view.next_id, ..view }
        }),
    decreases count,
{
    if count > 0 {
        law_transfers_of_a_request_are_accepted_in_order(view, plans, (count - 1) as nat);
        assert(merge_of(Seq::<Option<MergedBio>>::empty(), count - 1) is None);
    }
}

/// Transfers of one request go on in the order of the plan whether they join others
/// or not: how far the first ones came does not depend on the rest.
pub proof fn law_a_refusal_ends_the_request(
    view: BlockView,
    plans: Seq<BioPlan>,
    merges: Seq<Option<MergedBio>>,
    count: nat,
)
    requires
        count < plans.len() <= usize::MAX,
        view.submit_all(plans, merges, count).failure is None,
    ensures
        ({
            let before = view.submit_all(plans, merges, count);
            let after = view.submit_all(plans, merges, count + 1);
            match before.view.submission(
                plans[count as int],
                if count < merges.len() {
                    merges[count as int]
                } else {
                    None
                },
            ) {
                Ok(outcome) => {
                    &&& after.failure is None
                    &&& after.submitted.len() == before.submitted.len() + 1
                    &&& after.submitted.last() == outcome
                    &&& after.submitted.drop_last() =~= before.submitted
                },
                Err(error) => {
                    &&& after.failure == Some(
                        PageL6SubmitFailure { failed_index: count as usize, error },
                    )
                    &&& after.view == before.view
                    &&& after.submitted == before.submitted
                    &&& view.submit_all(plans, merges, count + 2) == after
                },
            }
        }),
{
    reveal_with_fuel(BlockView::submit_all, 3);
}

/// Whether `outcomes` name block request `id`.
pub open spec fn names(outcomes: Seq<SubmitOutcome>, id: u64) -> bool {
    exists|i: int|
        0 <= i < outcomes.len() && match #[trigger] outcomes[i] {
            SubmitOutcome::Queued(request) => request.0 == id,
            SubmitOutcome::Merged(request) => request.0 == id,
        }
}

/// Once the transfers of a request are recorded, the end of each of them is routed
/// to the request, after those that it was routed to before. The ends of others are
/// routed as before.
pub proof fn law_a_request_hears_of_its_transfers(
    pages: Map<u64, Seq<PageIoRequest>>,
    request: PageIoRequest,
    submitted: Seq<SubmitOutcome>,
    id: u64,
)
    ensures
        ({
            let after = routed(pages, request, submitted);
            &&& after.contains_key(id) == (pages.contains_key(id) || names(submitted, id))
            &&& names(submitted, id) ==> after[id].last() == request && after[id].len() > 0
            &&& !names(submitted, id) && pages.contains_key(id) ==> after[id] == pages[id]
            &&& pages.contains_key(id) ==> {
                &&& after[id].len() >= pages[id].len()
                &&& after[id].take(pages[id].len() as int) =~= pages[id]
            }
            &&& after.contains_key(id) ==> forall|i: int|
                (if pages.contains_key(id) {
                    pages[id].len()
                } else {
                    0
                }) <= i < after[id].len() ==> #[trigger] after[id][i] == request
        }),
    decreases submitted.len(),
{
    if submitted.len() > 0 {
        let init = submitted.drop_last();
        law_a_request_hears_of_its_transfers(pages, request, init, id);
        let last = submitted.last();
        assert(names(submitted, id) == (names(init, id) || last.request().0 == id)) by {
            if names(init, id) {
                let i = choose|i: int|
                    0 <= i < init.len() && match #[trigger] init[i] {
                        SubmitOutcome::Queued(request) => request.0 == id,
                        SubmitOutcome::Merged(request) => request.0 == id,
                    };
                assert(submitted[i] == init[i]);
            }
            if last.request().0 == id {
                assert(submitted[submitted.len() - 1] == last);
            }
            if names(submitted, id) {
                let i = choose|i: int|
                    0 <= i < submitted.len() && match #[trigger] submitted[i] {
                        SubmitOutcome::Queued(request) => request.0 == id,
                        SubmitOutcome::Merged(request) => request.0 == id,
                    };
                if i < init.len() {
                    assert(init[i] == submitted[i]);
                }
            }
        }
        let before = routed(pages, request, init);
        let after = routed(pages, request, submitted);
        if pages.contains_key(id) {
            assert(before.contains_key(id));
            assert forall|i: int| 0 <= i < pages[id].len() implies after[id][i] == pages[id][i] by {
                assert(before[id].take(pages[id].len() as int)[i] == pages[id][i]);
            }
        }
    }
}

/// Recording what was queued frees the transfers that it names and no others; the
/// queue keeps its order.
pub proof fn law_recording_frees_what_it_names(view: BlockView, outcome: BackendSubmitOutcome, i: int)
    requires
        0 <= i < view.queue.len(),
    ensures
        ({
            let after = view.recorded(outcome);
            let named = match outcome {
                BackendSubmitOutcome::BlockBiosQueued { submitted, .. } => names(
                    submitted@,
                    view.queue[i].id.0,
                ),
                BackendSubmitOutcome::MetadataFirstQueued { submitted } => names(
                    submitted@,
                    view.queue[i].id.0,
                ),
                BackendSubmitOutcome::BlockGraphQueued { submitted } => names(
                    submitted@,
                    view.queue[i].id.0,
                ),
                _ => false,
            };
            &&& after.queue.len() == view.queue.len()
            &&& after.queue[i].id == view.queue[i].id
            &&& after.queue[i].plan == view.queue[i].plan
            &&& after.queue[i].blocked == (view.queue[i].blocked && !named)
            &&& outcome !is BlockBiosQueued ==> after.pages == view.pages
            &&& after == BlockView { queue: after.queue, pages: after.pages, ..view }
        }),
{
    let outcomes = outcome.queued();
    let id = view.queue[i].id;
    assert(names(outcomes, id.0) == exists|j: int|
        0 <= j < outcomes.len() && (#[trigger] outcomes[j]).request() == id) by {
        if names(outcomes, id.0) {
            let j = choose|j: int|
                0 <= j < outcomes.len() && match #[trigger] outcomes[j] {
                    SubmitOutcome::Queued(request) => request.0 == id.0,
                    SubmitOutcome::Merged(request) => request.0 == id.0,
                };
            assert(outcomes[j].request() == id);
        }
        if exists|j: int| 0 <= j < outcomes.len() && (#[trigger] outcomes[j]).request() == id {
            let j = choose|j: int| 0 <= j < outcomes.len() && (#[trigger] outcomes[j]).request()
                == id;
            assert(match outcomes[j] {
                SubmitOutcome::Queued(request) => request.0 == id.0,
                SubmitOutcome::Merged(request) => request.0 == id.0,
            });
        }
    }
}

/// A block request is routed to a lease once, behind those that it carries already;
/// other block requests are not touched.
pub proof fn law_a_lease_hears_of_its_transfer_once(
    view: BlockView,
    lease: IoDataLeaseId,
    id: BlockRequestId,
)
    ensures
        ({
            let after = view.with_direct_route(lease, id);
            let known = if view.direct.contains_key(id.0) {
                view.direct[id.0]
            } else {
                Seq::empty()
            };
            &&& after.direct.contains_key(id.0)
            &&& after.direct[id.0].contains(lease)
            &&& known.contains(lease) ==> after.direct[id.0] == known
            &&& !known.contains(lease) ==> {
                &&& after.direct[id.0].len() == known.len() + 1
                &&& after.direct[id.0].drop_last() =~= known
            }
            &&& after.direct.remove(id.0) =~= view.direct.remove(id.0)
            &&& after == BlockView { direct: after.direct, ..view }
        }),
{
    let known = leases_of(view.direct, id);
    if !known.contains(lease) {
        assert(known.push(lease)[known.len() as int] == lease);
    }
}

/// Whoever finds no room has to come again; whoever asks for nothing asked wrongly.
pub proof fn law_a_full_queue_means_come_again(error: QueueError)
    ensures
        queue_errno(error) is EINVAL == error is EmptyRange,
        queue_errno(error) is EAGAIN == (error is Full || error is DispatchDepthFull),
{
}

/// The transfers that count as held back are those that are.
pub proof fn law_held_back_transfers_are_counted(queue: Seq<QueuedBio>)
    ensures
        blocked_count(queue) == queue.filter(|bio: QueuedBio| bio.blocked).len(),
    decreases queue.len(),
{
    reveal(Seq::filter);
    if queue.len() > 0 {
        law_held_back_transfers_are_counted(queue.drop_last());
    }
}

} // verus!
