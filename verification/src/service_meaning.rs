//! What turns of the page service and of the block service come to: what becomes
//! of each request and each completion, and what a turn reports.

use crate::block_runtime::{
    BackendSubmitOutcome, BlockDeviceCompletion, BlockServiceNext, BlockView, PageL6Action,
    PageL6Receipt, QueueError,
};
use crate::completion::{CompletionAnswers, PlannerNotice};
use crate::container::{ContainerView, PageContainerKind};
use crate::direct_meaning::has_to_wait;
use crate::fsync_submission::FsyncSubmissionState;
use crate::ids::{Errno, IoDataLeaseId, PageGeneration, PageIoRequestId};
use crate::io::{PageCompletionRoute, PageIoRequest, PageIoResult};
use crate::lease::{FileIoTerminalResult, LeaseView, PayloadView};
use crate::service::{
    accepted_kicks, routes_after, submit_errno, terminal_error, waits_for_completion, BackendReply,
    BackendSubmission, BackendSubmitError, BlockTurnError, BlockTurnView, DeviceEvent,
    FileBlockSubmissionTarget, PageServiceBackendDriven, PreparedRoutes, ServiceDrivenWork,
    ServiceItem, ServiceItemEnd,
};
use crate::slot::PageSlotState;
use vstd::prelude::*;

verus! {

/// What the page service makes of a plan, before any block service has a say.
pub open spec fn applied(submission: BackendSubmission) -> Result<
    BackendSubmitOutcome,
    BackendSubmitError,
> {
    match submission {
        BackendSubmission::Settled(outcome) => outcome,
        BackendSubmission::Submit { applied, .. } => applied,
    }
}

/// Whether the plan of a request is accepted: there is one, the block service of
/// the turn can end it, and it is under way.
pub open spec fn is_accepted(reply: BackendReply, target: FileBlockSubmissionTarget) -> bool {
    reply matches BackendReply::Planned { graph, submission } && !(graph && target is External)
        && (applied(submission) matches Ok(outcome) && outcome !is Error)
}

/// Why the plan of a request is not accepted.
pub open spec fn refusal(reply: BackendReply, target: FileBlockSubmissionTarget) -> Errno {
    match reply {
        BackendReply::Unplanned => Errno::ENOSYS,
        BackendReply::Planned { graph, submission } => if graph && target is External {
            Errno::ENOSYS
        } else {
            match applied(submission) {
                Ok(BackendSubmitOutcome::Error { errno, .. }) => errno,
                Err(BackendSubmitError::BlockQueue(QueueError::EmptyRange)) => Errno::EINVAL,
                Err(BackendSubmitError::BlockQueue(_)) => Errno::EAGAIN,
                _ => Errno::EIO,
            }
        },
    }
}

/// An accepted request stays pending: nothing of the container changes but the
/// queue of its own block service, where the turn has one. The turn reports what
/// became of the plan.
pub proof fn law_an_accepted_request_is_under_way(
    view: ContainerView,
    request: PageIoRequest,
    reply: BackendReply,
    answers: CompletionAnswers,
    target: FileBlockSubmissionTarget,
)
    requires
        is_accepted(reply, target),
    ensures
        ({
            let (after, end) = view.serve(
                ServiceItem::Submission { request, reply, answers },
                target,
            );
            let submission = reply->submission;
            &&& end.work == ServiceDrivenWork::BackendSubmission(applied(submission)->Ok_0)
            &&& end.notify is None
            &&& end.planner is None
            &&& end.completion is None
            &&& after == (ContainerView { block: after.block, ..view })
            &&& target is External || submission is Settled ==> after.block == view.block
            &&& target is Owned && submission is Submit ==> {
                let action = submission->action;
                let queued = view.block.submit_all(
                    action.bios@,
                    action.merges@,
                    action.bios@.len(),
                ).view;
                after.block == queued.recorded(applied(submission)->Ok_0)
            }
        }),
{
}

/// A request whose plan is not accepted is over: nothing of it is left, and the
/// turn reports why. A durability request is answered by a completion that failed
/// with that error; others are told through their pages.
pub proof fn law_a_request_that_is_not_accepted_is_over(
    view: ContainerView,
    request: PageIoRequest,
    reply: BackendReply,
    answers: CompletionAnswers,
    target: FileBlockSubmissionTarget,
)
    requires
        !is_accepted(reply, target),
    ensures
        ({
            let (after, end) = view.serve(
                ServiceItem::Submission { request, reply, answers },
                target,
            );
            &&& end.completion is Some == request.op is Fsync
            &&& end.completion matches Some(completion) ==> {
                &&& completion.id == request.id
                &&& completion.range == request.range
                &&& completion.result == PageIoResult::Failed(refusal(reply, target))
                &&& completion.kind is Noop
                &&& completion.generation == match request.generation_hint {
                    Some(generation) => generation,
                    None => PageGeneration(0),
                }
            }
            &&& match reply {
                BackendReply::Unplanned => end.work == ServiceDrivenWork::UnplannedSubmission(
                    request,
                ),
                BackendReply::Planned { graph, submission } => {
                    &&& graph && target is External ==> end.work
                        == ServiceDrivenWork::BackendSubmission(
                        BackendSubmitOutcome::Error { request, errno: Errno::ENOSYS },
                    )
                    &&& !(graph && target is External) ==> end.work == match applied(submission) {
                        Ok(outcome) => ServiceDrivenWork::BackendSubmission(outcome),
                        Err(error) => ServiceDrivenWork::BackendSubmitError(error),
                    }
                },
            }
        }),
{
}

/// The pages of a request for writeback that is not accepted are dirty again, in
/// the version that they have: nothing that was written is lost.
pub proof fn law_pages_that_are_not_accepted_are_dirty_again(
    view: ContainerView,
    request: PageIoRequest,
    reply: BackendReply,
    answers: CompletionAnswers,
    target: FileBlockSubmissionTarget,
    lease: LeaseView,
    i: int,
)
    requires
        !is_accepted(reply, target),
        request.op is Writeback,
        view.submission.owners.contains_key(request.id.0),
        view.submission.owners[request.id.0].payload == (PayloadView::Writeback { lease }),
        crate::writeback_meaning::captured_once(lease.generations),
        0 <= i < lease.generations.len(),
        view.slots.contains_key(lease.generations[i].0.0),
    ensures
        ({
            let after = view.serve(ServiceItem::Submission { request, reply, answers }, target).0;
            let (page, generation) = lease.generations[i];
            let was = view.slots[page.0].inner;
            let is = after.slots[page.0].inner;
            &&& is.generation == was.generation
            &&& was.state is Writeback && was.state->submitted_generation == generation ==> is.state
                == (PageSlotState::Dirty { ppn: was.state->Writeback_ppn })
            &&& !(was.state is Writeback && was.state->submitted_generation == generation)
                ==> is.state == was.state
            &&& !after.submission.owners.contains_key(request.id.0)
            &&& !after.submission.rows.contains_key(request.id.0)
        }),
{
    let planned = view.with_plan(reply, target);
    crate::writeback_meaning::law_a_writeback_ends_page_by_page(
        planned,
        request,
        FileIoTerminalResult::SubmitFailure,
        answers,
        lease,
        crate::completion::WritebackEnd::Abort,
    );
}

/// The error of a refused plan: that of the queue where it was the queue, and else
/// an input and output error.
pub proof fn law_a_refused_plan_has_an_errno(error: BackendSubmitError)
    ensures
        error matches BackendSubmitError::BlockQueue(error) ==> submit_errno(
            BackendSubmitError::BlockQueue(error),
        ) == if error is EmptyRange {
            Errno::EINVAL
        } else {
            Errno::EAGAIN
        },
        error !is BlockQueue ==> submit_errno(error) is EIO,
{
}

/// A turn serves its items in order, each on what the ones before it left, and
/// reports on each of them.
pub proof fn law_a_turn_serves_its_items_in_order(
    view: ContainerView,
    items: Seq<ServiceItem>,
    target: FileBlockSubmissionTarget,
    states: Seq<ContainerView>,
    ends: Seq<ServiceItemEnd>,
    count: nat,
)
    requires
        count <= items.len(),
        states.len() == items.len() + 1,
        ends.len() == items.len(),
        states[0] == view,
        forall|i: int|
            0 <= i < items.len() ==> (states[i + 1], #[trigger] ends[i]) == states[i].serve(
                items[i],
                target,
            ),
    ensures
        view.served(items, target, count) == states[count as int],
        count == items.len() ==> view.served_ends(items, target) =~= ends,
    decreases count,
{
    if count > 0 {
        law_a_turn_serves_its_items_in_order(view, items, target, states, ends, (count - 1) as nat);
        assert((states[count as int], ends[count - 1]) == states[count - 1].serve(
            items[count - 1],
            target,
        ));
    }
    if count == items.len() {
        assert forall|i: int| 0 <= i < items.len() implies view.served_ends(items, target)[i]
            == ends[i] by {
            lemma_served(view, items, target, states, ends, i as nat);
            assert((states[i + 1], ends[i]) == states[i].serve(items[i], target));
        }
    }
}

proof fn lemma_served(
    view: ContainerView,
    items: Seq<ServiceItem>,
    target: FileBlockSubmissionTarget,
    states: Seq<ContainerView>,
    ends: Seq<ServiceItemEnd>,
    count: nat,
)
    requires
        count < items.len(),
        states.len() == items.len() + 1,
        ends.len() == items.len(),
        states[0] == view,
        forall|i: int|
            0 <= i < items.len() ==> (states[i + 1], #[trigger] ends[i]) == states[i].serve(
                items[i],
                target,
            ),
    ensures
        view.served(items, target, count) == states[count as int],
    decreases count,
{
    if count > 0 {
        lemma_served(view, items, target, states, ends, (count - 1) as nat);
        assert((states[count as int], ends[count - 1]) == states[count - 1].serve(
            items[count - 1],
            target,
        ));
    }
}

/// The object whose planner hears of ends.
pub open spec fn planner_of(view: ContainerView) -> Option<crate::ids::FsObjectId> {
    match view.kind {
        PageContainerKind::File { mount, fs_object_id } if mount.backend_planner => Some(
            fs_object_id,
        ),
        _ => None,
    }
}

/// What a request's result says.
pub open spec fn said(result: PageIoResult) -> Result<(), Errno> {
    match result {
        PageIoResult::Done => Ok(()),
        PageIoResult::Failed(errno) => Err(errno),
    }
}

/// The end of a background graph is told to the planner, once, with its result. It
/// touches nothing else.
pub proof fn law_a_background_graph_ends_once(
    view: ContainerView,
    route: PageCompletionRoute,
    answers: CompletionAnswers,
)
    requires
        route.completion.kind is Noop,
        view.submission.background.contains(route.completion.id.0),
    ensures
        ({
            let (after, end) = view.apply_route(route, answers);
            let id = route.completion.id;
            &&& !after.submission.background.contains(id.0)
            &&& forall|other: u64|
                other != id.0 ==> #[trigger] after.submission.background.contains(other)
                    == view.submission.background.contains(other)
            &&& after.submission.rows == view.submission.rows
            &&& after.submission.owners == view.submission.owners
            &&& after.submission.waiters == view.submission.waiters
            &&& after == ContainerView { submission: after.submission, ..view }
            &&& end.result is None
            &&& end.notify is None
            &&& end.planner is Some == planner_of(view) is Some
            &&& end.planner matches Some(notice) ==> notice == (PlannerNotice::BackgroundGraph {
                object: planner_of(view)->Some_0,
                result: said(route.completion.result),
            })
        }),
{
}

/// The end of a durability request that is waited for is kept for whoever waits,
/// and told to the planner. One that nobody waits for, or that has ended, changes
/// nothing.
pub proof fn law_a_durability_request_ends_once(
    view: ContainerView,
    route: PageCompletionRoute,
    answers: CompletionAnswers,
)
    requires
        route.completion.kind is Noop,
        !view.submission.background.contains(route.completion.id.0),
    ensures
        ({
            let (after, end) = view.apply_route(route, answers);
            let id = route.completion.id;
            let waited = view.fsyncs.contains_key(id.0) && view.fsyncs[id.0].state is Queued;
            &&& end.result is None
            &&& end.notify is None
            &&& waited ==> {
                &&& after.fsyncs.contains_key(id.0)
                &&& after.fsyncs[id.0].id == view.fsyncs[id.0].id
                &&& after.fsyncs[id.0].state == FsyncSubmissionState::Complete(
                    said(route.completion.result),
                )
                &&& after.fsyncs.remove(id.0) =~= view.fsyncs.remove(id.0)
                &&& after == ContainerView { fsyncs: after.fsyncs, ..view }
                &&& end.planner is Some == planner_of(view) is Some
                &&& end.planner matches Some(notice) ==> notice == (PlannerNotice::Fsync {
                    object: planner_of(view)->Some_0,
                    id,
                    result: route.completion.result,
                })
                &&& after.take_fsync(id).1 is Some
                &&& after.apply_route(route, answers).0 == after
            }
            &&& !waited ==> after == view && end.planner is None
        }),
{
}

/// A completion among the items of a turn is what it is when it comes alone.
pub proof fn law_a_turn_settles_completions(
    view: ContainerView,
    route: PageCompletionRoute,
    answers: CompletionAnswers,
    target: FileBlockSubmissionTarget,
)
    ensures
        ({
            let (after, end) = view.serve(ServiceItem::Completion { route, answers }, target);
            let (alone, came) = view.apply_route(route, answers);
            &&& after == alone
            &&& end.work == ServiceDrivenWork::Completion(route)
            &&& end.notify == came.notify
            &&& end.planner == came.planner
            &&& end.completion is None
        }),
{
}

/// Whether `end` reports an error of request `id`.
pub open spec fn reports(end: ServiceItemEnd, id: PageIoRequestId) -> bool {
    end.work matches ServiceDrivenWork::BackendSubmission(outcome) && (outcome matches
        BackendSubmitOutcome::Error { request, .. } && request.id == id)
}

/// What a turn says of a request is the first error that it reports for it; without
/// a request, or without such a report, it says nothing.
pub proof fn law_the_first_error_of_a_request_counts(
    work: Seq<ServiceItemEnd>,
    id: PageIoRequestId,
)
    ensures
        terminal_error(work, None) is None,
        match terminal_error(work, Some(id)) {
            Some(errno) => exists|i: int|
                {
                    &&& 0 <= i < work.len()
                    &&& reports(#[trigger] work[i], id)
                    &&& work[i].work->BackendSubmission_0->Error_errno == errno
                    &&& forall|j: int| 0 <= j < i ==> !reports(#[trigger] work[j], id)
                },
            None => forall|i: int| 0 <= i < work.len() ==> !reports(#[trigger] work[i], id),
        },
    decreases work.len(),
{
    if work.len() > 0 {
        let init = work.drop_last();
        law_the_first_error_of_a_request_counts(init, id);
        assert(forall|i: int| 0 <= i < init.len() ==> #[trigger] init[i] == work[i]);
        match terminal_error(init, Some(id)) {
            Some(errno) => {
                let i = choose|i: int|
                    {
                        &&& 0 <= i < init.len()
                        &&& reports(#[trigger] init[i], id)
                        &&& init[i].work->BackendSubmission_0->Error_errno == errno
                        &&& forall|j: int| 0 <= j < i ==> !reports(#[trigger] init[j], id)
                    };
                assert(reports(work[i], id));
                assert forall|j: int| 0 <= j < i implies !reports(#[trigger] work[j], id) by {
                    assert(!reports(init[j], id));
                }
            },
            None => {
                let last = work.len() - 1;
                assert forall|j: int| 0 <= j < last implies !reports(#[trigger] work[j], id) by {
                    assert(!reports(init[j], id));
                }
                assert(work[last] == work.last());
                if reports(work.last(), id) {
                    assert(reports(work[last], id));
                }
            },
        }
    }
}

/// A turn has to wait exactly where it put transfers under way.
pub proof fn law_a_turn_waits_for_its_transfers(work: Seq<ServiceItemEnd>)
    ensures
        waits_for_completion(work) == exists|i: int|
            0 <= i < work.len() && match (#[trigger] work[i]).work {
                ServiceDrivenWork::BackendSubmission(outcome) => match outcome {
                    BackendSubmitOutcome::BlockBiosQueued { .. } => true,
                    BackendSubmitOutcome::BlockGraphQueued { .. } => true,
                    BackendSubmitOutcome::MetadataFirstQueued { .. } => true,
                    BackendSubmitOutcome::QueuedPageCompletions { .. } => false,
                    BackendSubmitOutcome::Yield => false,
                    BackendSubmitOutcome::Error { .. } => false,
                },
                _ => false,
            },
{
    if waits_for_completion(work) {
        let i = choose|i: int|
            0 <= i < work.len() && ((#[trigger] work[i]).work matches
                ServiceDrivenWork::BackendSubmission(outcome) && (outcome is BlockBiosQueued
                || outcome is BlockGraphQueued || outcome is MetadataFirstQueued));
        assert(match work[i].work {
            ServiceDrivenWork::BackendSubmission(outcome) => outcome is BlockBiosQueued
                || outcome is BlockGraphQueued || outcome is MetadataFirstQueued,
            _ => false,
        });
    }
}

/// A block service that is told of a turn records its submissions in order, and
/// nothing else of it.
pub proof fn law_a_turn_is_recorded_in_order(block: BlockView, ends: Seq<ServiceItemEnd>)
    requires
        ends.len() > 0,
    ensures
        ({
            let before = routes_after(block, ends.drop_last());
            let after = routes_after(block, ends);
            &&& ends.last().work matches ServiceDrivenWork::BackendSubmission(outcome) ==> after
                == before.recorded(outcome)
            &&& ends.last().work !is BackendSubmission ==> after == before
        }),
        routes_after(block, Seq::empty()) == block,
{
}

/// With a device completion its tag is free and its routes are taken, before anyone
/// is told; the leases that it carried end with what the device said.
pub proof fn law_a_device_completion_is_taken_once(
    view: ContainerView,
    completion: BlockDeviceCompletion,
)
    requires
        view.block.tags.contains_key(completion.tag.0),
    ensures
        ({
            let id = view.block.tags[completion.tag.0].0;
            let taken = view.without_block_request(completion);
            let ends = view.direct_ends(completion);
            &&& taken.block.tags =~= view.block.tags.remove(completion.tag.0)
            &&& taken.block.direct =~= view.block.direct.remove(id)
            &&& taken.block.pages =~= view.block.pages.remove(id)
            &&& taken.block.queue == view.block.queue
            &&& taken.block.next_id == view.block.next_id
            &&& taken == ContainerView { block: taken.block, ..view }
            &&& view.block.direct.contains_key(id) ==> {
                &&& ends.len() == view.block.direct[id].len()
                &&& forall|i: int|
                    0 <= i < ends.len() ==> (#[trigger] ends[i]).0 == view.block.direct[id][i]
                        && ends[i].1 == completion.result
            }
            &&& !view.block.direct.contains_key(id) ==> ends.len() == 0
        }),
{
}

/// The direct transfers of a device completion end in order, each with its credit.
/// One that waits for a credit stays pending; one that fails otherwise ends the
/// turn.
pub proof fn law_direct_transfers_end_in_order(
    view: ContainerView,
    ends: Seq<(IoDataLeaseId, Result<(), Errno>)>,
    retires: Seq<bool>,
    i: nat,
)
    requires
        i < ends.len(),
        !view.end_direct_transfers(ends, retires, i).failed,
    ensures
        ({
            let before = view.end_direct_transfers(ends, retires, i);
            let after = view.end_direct_transfers(ends, retires, i + 1);
            let (lease, result) = ends[i as int];
            let (settled, end) = before.view.complete_direct(
                lease,
                result,
                i < retires.len() && retires[i as int],
            );
            let waits = has_to_wait(end) && settled.direct.contains_key(lease.0)
                && settled.direct[lease.0].state is CompletionPending;
            &&& after.view == settled
            &&& after.failed == (end.completion is Err && !waits)
            &&& after.pending == (before.pending || waits)
            &&& end.notify is None ==> after.notify == before.notify
            &&& end.notify matches Some(source) ==> after.notify.len() == before.notify.len() + 1
                && after.notify.last() == source && after.notify.drop_last() =~= before.notify
        }),
        view.end_direct_transfers(ends, retires, 0).view == view,
        view.end_direct_transfers(ends, retires, 0).notify.len() == 0,
        !view.end_direct_transfers(ends, retires, 0).pending,
        !view.end_direct_transfers(ends, retires, 0).failed,
{
}

/// The actions that a completion brings are queued in order, and recorded as the
/// page service made of them. A refused receipt ends them. What they bring to the
/// page service adds up, and one that wakes it is enough.
pub proof fn law_actions_of_a_completion_are_queued_in_order(
    view: ContainerView,
    routes: PreparedRoutes,
    i: nat,
)
    requires
        i < routes.actions@.len(),
        !view.route_actions(routes, i).failed,
    ensures
        ({
            let before = view.route_actions(routes, i);
            let after = view.route_actions(routes, i + 1);
            let action = routes.actions@[i as int].action;
            let applied = routes.actions@[i as int].applied;
            let queued = before.view.block.submit_all(
                action.bios@,
                action.merges@,
                action.bios@.len(),
            );
            &&& after.failed == applied is None
            &&& after.view == ContainerView { block: after.view.block, ..before.view }
            &&& applied is None ==> after.view.block == queued.view
            &&& applied matches Some(outcome) ==> {
                &&& after.view.block == queued.view.recorded(outcome)
                &&& after.block_submitted == (before.block_submitted || queued.submitted.len() > 0)
                &&& outcome matches BackendSubmitOutcome::QueuedPageCompletions {
                    queued: more,
                    wake,
                } ==> after.queued == before.queued + more && after.wake == (before.wake || wake)
                &&& outcome !is QueuedPageCompletions ==> after.queued == before.queued
                    && after.wake == before.wake
            }
        }),
        view.route_actions(routes, 0).view == view,
        view.route_actions(routes, 0).queued == routes.queued,
        view.route_actions(routes, 0).wake == routes.wake,
        !view.route_actions(routes, 0).block_submitted,
        !view.route_actions(routes, 0).failed,
{
}

/// A device completion whose tag nobody has is an error and changes nothing. One
/// whose routes the page service refused is taken all the same. Else its page
/// routes are settled first and its direct transfers end then, unless either fails;
/// the turn counts it, what it brought, and the kicks that are due for it.
pub proof fn law_a_device_completion_is_settled(
    view: ContainerView,
    turn: BlockTurnView,
    event: DeviceEvent,
)
    ensures
        ({
            let (after, result) = view.apply_event(turn, event);
            let tag = event.completion.tag;
            let taken = view.without_block_request(event.completion);
            if !view.block.tags.contains_key(tag.0) {
                &&& after == view
                &&& result matches Err(BlockTurnError::UnknownTag(unknown)) && unknown.0 == tag
            } else if event.routes is None {
                &&& after == taken
                &&& result matches Err(BlockTurnError::RefusedRoutes)
            } else {
                let routes = event.routes->Some_0;
                let routed = taken.route_actions(routes, routes.actions@.len());
                let direct = view.direct_ends(event.completion);
                let ends = routed.view.end_direct_transfers(direct, event.retires@, direct.len());
                if routed.failed {
                    &&& after == routed.view
                    &&& result matches Err(BlockTurnError::ExternalCompletion)
                } else if ends.failed {
                    &&& after == ends.view
                    &&& result matches Err(BlockTurnError::ExternalCompletion)
                } else {
                    &&& after == ends.view
                    &&& result matches Ok(next) && {
                        &&& next.dispatched == turn.dispatched
                        &&& next.driven_kicks == turn.driven_kicks
                        &&& next.device_completions == turn.device_completions + 1
                        &&& next.page_completions == turn.page_completions + routed.queued
                        &&& next.page_kicks == if routed.wake {
                            turn.page_kicks + 1
                        } else {
                            turn.page_kicks
                        }
                        &&& next.block_kicks == if routed.block_submitted {
                            turn.block_kicks + 1
                        } else {
                            turn.block_kicks
                        }
                        &&& next.next == if routed.block_submitted {
                            BlockServiceNext::Runnable
                        } else {
                            turn.next
                        }
                        &&& next.pending_direct == (turn.pending_direct || ends.pending)
                        &&& next.notify == turn.notify + ends.notify
                    }
                }
            }
        }),
{
}

/// Completions of a turn are settled in order; the first that fails ends the turn.
pub proof fn law_a_failure_ends_the_block_turn(
    view: ContainerView,
    turn: BlockTurnView,
    events: Seq<DeviceEvent>,
    i: nat,
)
    requires
        i < events.len(),
    ensures
        ({
            let (before, result) = view.apply_events(turn, events, i);
            let next = view.apply_events(turn, events, i + 1);
            &&& result matches Ok(at) ==> next == before.apply_event(at, events[i as int])
            &&& result is Err ==> next.0 == before && next.1 == result
        }),
        view.apply_events(turn, events, 0).0 == view,
        view.apply_events(turn, events, 0).1 == Ok::<BlockTurnView, BlockTurnError>(turn),
{
}

/// A block turn first retries what waits for a root credit, then sends what may go,
/// and starts to count from there. A retry that fails ends the turn before anything
/// is sent.
pub proof fn law_a_block_turn_starts_with_what_waits(
    view: ContainerView,
    budget: usize,
    retires: Seq<bool>,
    driven_kicks: usize,
    leases: Seq<u64>,
)
    requires
        crate::sparse_index::lists(leases, view.pending_direct()),
    ensures
        ({
            let (after, result) = view.begin_block_turn(budget, retires, driven_kicks);
            let retried = view.retry_direct(leases, retires, leases.len());
            let count = view.block.dispatch_count(budget);
            &&& result is Err == retried.failed is Some
            &&& result matches Err(error) ==> error is ExternalCompletion && after == retried.view
            &&& result matches Ok(turn) ==> {
                &&& after == ContainerView { block: after.block, ..retried.view }
                &&& after.block == view.block.dispatched(count)
                &&& turn.dispatched == count
                &&& turn.device_completions == 0
                &&& turn.page_completions == 0
                &&& turn.page_kicks == 0
                &&& turn.block_kicks == 0
                &&& turn.driven_kicks == driven_kicks
                &&& turn.next == after.block.announced_step()
                &&& turn.pending_direct == retried.still_pending
                &&& turn.notify == retried.notify
            }
        }),
{
    crate::sparse_index::lemma_ascending(leases, view.pending_direct());
}

/// The kicks that count are those that were accepted, of those that were due: one
/// for each time a service has to run, and one for what waits for a root credit.
/// While that waits, the block service has to run again.
pub proof fn law_a_block_turn_counts_accepted_kicks(turn: BlockTurnView, accepted: Seq<bool>)
    requires
        turn.dispatched <= usize::MAX,
        turn.device_completions <= usize::MAX,
        turn.page_completions <= usize::MAX,
        turn.driven_kicks + turn.kicks_due() <= usize::MAX,
        turn.kicks_due() <= accepted.len(),
    ensures
        ({
            let done = turn.done(accepted);
            let due = turn.page_kicks + turn.block_kicks + if turn.pending_direct {
                1int
            } else {
                0int
            };
            &&& turn.kicks_due() == due
            &&& done.dispatched == turn.dispatched
            &&& done.device_completions == turn.device_completions
            &&& done.page_completions == turn.page_completions
            &&& done.next == if turn.pending_direct {
                BlockServiceNext::Runnable
            } else {
                turn.next
            }
            &&& done.kicks == turn.driven_kicks + accepted.take(due).filter(|yes: bool| yes).len()
        }),
{
    lemma_accepted_kicks(accepted, turn.kicks_due());
}

proof fn lemma_accepted_kicks(accepted: Seq<bool>, count: nat)
    requires
        count <= accepted.len(),
    ensures
        accepted_kicks(accepted, count) == accepted.take(count as int).filter(
            |yes: bool| yes,
        ).len(),
        accepted_kicks(accepted, count) <= count,
    decreases count,
{
    reveal(Seq::filter);
    if count > 0 {
        lemma_accepted_kicks(accepted, (count - 1) as nat);
        assert(accepted.take(count as int).drop_last() =~= accepted.take(count - 1));
    }
}

/// A page service that has more to do says so and is kicked; the kick counts where it
/// is accepted.
pub proof fn law_a_service_with_more_to_do_is_kicked(
    driven: PageServiceBackendDriven,
    runnable: bool,
    accepted: bool,
)
    requires
        driven.ends_turn(runnable, accepted),
    ensures
        driven.next is Runnable == runnable,
        driven.next is Sleeping == !runnable,
        driven.kicks == 1 || driven.kicks == 0,
        driven.kicks == 1 <==> runnable && accepted,
{
}

/// A receipt tells how far the transfers of its action got, and why no further.
pub proof fn law_a_receipt_tells_how_far_an_action_got(
    view: ContainerView,
    action: PageL6Action,
    receipt: PageL6Receipt,
)
    requires
        view.acknowledges(action, receipt),
        action.merges@.len() == 0,
        action.bios@.len() <= usize::MAX,
        view.block.next_id + action.bios@.len() <= u64::MAX,
    ensures
        receipt.id == action.id,
        receipt.submitted@.len() <= action.bios@.len(),
        receipt.failure is None == (receipt.submitted@.len() == action.bios@.len()),
        receipt.failure matches Some(failure) ==> failure.failed_index == receipt.submitted@.len(),
        forall|i: int|
            0 <= i < receipt.submitted@.len() ==> (#[trigger] receipt.submitted@[i]) is Queued
                && receipt.submitted@[i]->Queued_0.0 == view.block.next_id + i,
{
    assert(action.merges@ =~= Seq::empty());
    crate::block_meaning::law_transfers_of_a_request_are_accepted_in_order(
        view.block,
        action.bios@,
        action.bios@.len(),
    );
}

} // verus!
