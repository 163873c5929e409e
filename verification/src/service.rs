//! Service turns of a file container: the page service settles completions and
//! submissions, the block service moves transfers to the device and back.

use crate::block_runtime::{
    direct_queue_errno, lemma_submit_bound, queue_errno, BackendSubmitOutcome,
    BlockDeviceCompletion,
    BlockDispatch, BlockManagerCompletionReceipt, BlockPageCompletion, BlockRequestId,
    BlockServiceNext, BlockSubmissionHandle, BlockView, PageL6Action, PageL6Receipt, QueueError,
    SubmitOutcome, UnknownTag,
};
use crate::completion::{
    fsync_failure, lemma_finish_keeps_block, lemma_finish_keeps_requests_gone,
    lemma_route_keeps_block, CompletionAnswers, PlannerNotice, WritebackEnd,
};
use crate::container::{ContainerView, PageContainer, PageContainerKind};
use crate::direct_io::DirectIoCompletionError;
use crate::ids::{
    Errno, FsObjectId, IoDataLeaseId, PageGeneration, PageIndex, PageIoRequestId, Ppn,
};
use crate::io::{
    PageCompletionRoute, PageIoCompletion, PageIoFlags, PageIoOp, PageIoPriority, PageIoRange,
    PageIoRequest,
};
use crate::lease::{FileIoTerminalResult, PayloadView};
use crate::page_submission::SubmissionView;
use crate::slot::PageSlotState;
use crate::sparse_index::ascending;
use vstd::prelude::*;

verus! {

/// Why a backend plan could not be queued.
#[derive(Clone, Copy, Debug, PartialEq, Eq, Structural)]
pub enum BackendSubmitError {
    BlockQueue(QueueError),
    Graph,
    DuplicateGraph,
    UnknownAction,
}

pub open spec fn submit_errno(error: BackendSubmitError) -> Errno {
    match error {
        BackendSubmitError::BlockQueue(error) => queue_errno(error),
        _ => Errno::EIO,
    }
}

pub fn backend_submit_errno(error: BackendSubmitError) -> (errno: Errno)
    ensures
        errno == submit_errno(error),
{
    match error {
        BackendSubmitError::BlockQueue(error) => direct_queue_errno(error),
        _ => Errno::EIO,
    }
}

/// How the page service hands a plan to a block service.
#[derive(Debug)]
pub enum BackendSubmission {
    /// No transfers of the container's own block service are needed.
    Settled(Result<BackendSubmitOutcome, BackendSubmitError>),
    /// The transfers to be queued, and what the page service makes of the
    /// receipt for them.
    Submit { action: PageL6Action, applied: Result<BackendSubmitOutcome, BackendSubmitError> },
}

impl BackendSubmission {
    /// What becomes of the plan.
    pub open spec fn outcome(self) -> Result<BackendSubmitOutcome, BackendSubmitError> {
        match self {
            BackendSubmission::Settled(outcome) => outcome,
            BackendSubmission::Submit { applied, .. } => applied,
        }
    }

    /// The number of transfers that are to be queued.
    pub open spec fn bios(self) -> nat {
        match self {
            BackendSubmission::Settled(_) => 0,
            BackendSubmission::Submit { action, .. } => action.bios@.len(),
        }
    }
}

fn submission_bios(submission: &BackendSubmission) -> (count: u64)
    ensures
        count == submission.bios(),
{
    match submission {
        BackendSubmission::Settled(_) => 0,
        BackendSubmission::Submit { action, .. } => {
            let count: usize = action.bios.len();
            count as u64
        },
    }
}

/// What came of asking the backend planner about a request.
#[derive(Debug)]
pub enum BackendReply {
    /// There is no plan.
    Unplanned,
    /// A plan, which may be a graph of transfers.
    Planned { graph: bool, submission: BackendSubmission },
}

/// One item of a page service turn, with the outside answers to it.
#[derive(Debug)]
pub enum ServiceItem {
    Completion { route: PageCompletionRoute, answers: CompletionAnswers },
    /// A new request, or one that resumes.
    Submission { request: PageIoRequest, reply: BackendReply, answers: CompletionAnswers },
}

#[derive(Debug)]
pub enum ServiceDrivenWork {
    Completion(PageCompletionRoute),
    UnplannedSubmission(PageIoRequest),
    BackendSubmission(BackendSubmitOutcome),
    BackendSubmitError(BackendSubmitError),
}

/// What one item came to, with what is left for the caller to do.
#[derive(Debug)]
pub struct ServiceItemEnd {
    pub work: ServiceDrivenWork,
    pub notify: Option<u64>,
    pub planner: Option<PlannerNotice>,
    /// A completion that enters the page service.
    pub completion: Option<PageIoCompletion>,
}

/// What the page service of a file asks its mount about.
#[derive(Clone, Copy, Debug, PartialEq, Eq, Structural)]
pub struct FileBackendContext {
    pub object: FsObjectId,
    /// Whether there is a backend planner to ask.
    pub planner: bool,
}

/// Whether the page service has more to do.
#[derive(Clone, Copy, Debug, PartialEq, Eq, Structural)]
pub enum PageServiceNext {
    Runnable,
    Sleeping,
}

/// A turn of the page service.
#[derive(Debug)]
pub struct PageServiceBackendDriven {
    pub work: Vec<ServiceItemEnd>,
    pub next: PageServiceNext,
    /// Kicks of the page service that were accepted.
    pub kicks: usize,
}

impl PageServiceBackendDriven {
    /// Whether the turn ends as it has to: a service with more to do is kicked.
    pub open spec fn ends_turn(self, runnable: bool, accepted: bool) -> bool {
        &&& (self.next is Runnable) == runnable
        &&& self.kicks == if runnable && accepted {
            1nat
        } else {
            0nat
        }
    }
}

/// Whether the transfers of a turn go to the container's own block service.
#[derive(Clone, Copy, Debug, PartialEq, Eq, Structural)]
pub enum FileBlockSubmissionTarget {
    External,
    Owned,
}

/// What a plan came to. An external block service cannot route the completions
/// of a graph back, so it takes none.
pub open spec fn plan_outcome(
    request: PageIoRequest,
    reply: BackendReply,
    target: FileBlockSubmissionTarget,
) -> Option<Result<BackendSubmitOutcome, BackendSubmitError>> {
    match reply {
        BackendReply::Unplanned => None,
        BackendReply::Planned { graph, submission } => if graph && target is External {
            Some(Ok(BackendSubmitOutcome::Error { request, errno: Errno::ENOSYS }))
        } else {
            Some(submission.outcome())
        },
    }
}

impl ServiceItem {
    /// The number of transfers that the item may queue.
    pub open spec fn bios(self) -> nat {
        match self {
            ServiceItem::Submission {
                reply: BackendReply::Planned { submission, .. },
                ..
            } => submission.bios(),
            _ => 0,
        }
    }
}

/// The number of transfers that `items` may queue.
pub open spec fn items_bios(items: Seq<ServiceItem>) -> nat
    decreases items.len(),
{
    if items.len() == 0 {
        0
    } else {
        items_bios(items.drop_last()) + items.last().bios()
    }
}

impl ContainerView {
    /// With the transfers of an action queued, as far as they are accepted.
    pub open spec fn with_action(self, action: PageL6Action) -> Self {
        ContainerView {
            block: self.block.submit_all(
                action.bios@,
                action.merges@,
                action.bios@.len(),
            ).view,
            ..self
        }
    }

    /// Whether `receipt` tells which transfers of `action` are queued here, and
    /// why the rest is not.
    pub open spec fn acknowledges(self, action: PageL6Action, receipt: PageL6Receipt) -> bool {
        let all = self.block.submit_all(action.bios@, action.merges@, action.bios@.len());
        &&& receipt.id == action.id
        &&& receipt.submitted@ == all.submitted
        &&& receipt.failure == all.failure
    }

    /// Whether request `id` has begun to write back `page` as of `generation`.
    pub open spec fn writes_back(
        self,
        id: PageIoRequestId,
        page: PageIndex,
        generation: PageGeneration,
    ) -> bool {
        &&& self.submission.owner(id) matches Some(owner)
        &&& owner.payload matches PayloadView::Writeback { lease }
        &&& lease.generations.contains((page, generation))
        &&& self.slots.contains_key(page.0)
        &&& self.slot(page).state matches PageSlotState::Writeback { submitted_generation, .. }
        &&& submitted_generation == generation
    }

    /// With a plan handed to the container's own block service.
    pub open spec fn with_submission(self, submission: BackendSubmission) -> Self {
        match submission {
            BackendSubmission::Settled(_) => self,
            BackendSubmission::Submit { action, applied } => {
                let queued = self.with_action(action);
                match applied {
                    Ok(outcome) => ContainerView {
                        block: queued.block.recorded(outcome),
                        ..queued
                    },
                    Err(_) => queued,
                }
            },
        }
    }

    /// With the plan of an item handed to the block service of a turn.
    pub open spec fn with_plan(self, reply: BackendReply, target: FileBlockSubmissionTarget) -> Self {
        match reply {
            BackendReply::Planned { submission, .. } if target is Owned => self.with_submission(
                submission,
            ),
            _ => self,
        }
    }

    /// Outcome of giving up a request with `errno`.
    pub open spec fn fail_unsubmitted(
        self,
        request: PageIoRequest,
        errno: Errno,
        answers: CompletionAnswers,
        work: ServiceDrivenWork,
    ) -> (Self, ServiceItemEnd) {
        let (after, end) = self.finish_request(
            request,
            FileIoTerminalResult::SubmitFailure,
            answers,
        );
        (
            after,
            ServiceItemEnd {
                work,
                notify: end.notify,
                planner: end.planner,
                completion: fsync_failure(request, errno),
            },
        )
    }

    /// Outcome of one item of a page service turn.
    pub open spec fn serve(self, item: ServiceItem, target: FileBlockSubmissionTarget) -> (
        Self,
        ServiceItemEnd,
    ) {
        match item {
            ServiceItem::Completion { route, answers } => {
                let (after, end) = self.apply_route(route, answers);
                (
                    after,
                    ServiceItemEnd {
                        work: ServiceDrivenWork::Completion(route),
                        notify: end.notify,
                        planner: end.planner,
                        completion: None,
                    },
                )
            },
            ServiceItem::Submission { request, reply, answers } => {
                let planned = self.with_plan(reply, target);
                match plan_outcome(request, reply, target) {
                    None => planned.fail_unsubmitted(
                        request,
                        Errno::ENOSYS,
                        answers,
                        ServiceDrivenWork::UnplannedSubmission(request),
                    ),
                    Some(Err(error)) => planned.fail_unsubmitted(
                        request,
                        submit_errno(error),
                        answers,
                        ServiceDrivenWork::BackendSubmitError(error),
                    ),
                    Some(Ok(outcome)) => match outcome {
                        BackendSubmitOutcome::Error { errno, .. } => planned.fail_unsubmitted(
                            request,
                            errno,
                            answers,
                            ServiceDrivenWork::BackendSubmission(outcome),
                        ),
                        _ => (
                            planned,
                            ServiceItemEnd {
                                work: ServiceDrivenWork::BackendSubmission(outcome),
                                notify: None,
                                planner: None,
                                completion: None,
                            },
                        ),
                    },
                }
            },
        }
    }

    /// The container after the first `count` items of a turn.
    pub open spec fn served(
        self,
        items: Seq<ServiceItem>,
        target: FileBlockSubmissionTarget,
        count: nat,
    ) -> Self
        decreases count,
    {
        if count == 0 {
            self
        } else {
            self.served(items, target, (count - 1) as nat).serve(items[count - 1], target).0
        }
    }

    /// What the items of a turn came to.
    pub open spec fn served_ends(self, items: Seq<ServiceItem>, target: FileBlockSubmissionTarget) -> Seq<
        ServiceItemEnd,
    > {
        Seq::new(
            items.len(),
            |i: int| self.served(items, target, i as nat).serve(items[i], target).1,
        )
    }
}

proof fn lemma_item_totals(items: Seq<ServiceItem>, count: int)
    requires
        0 <= count <= items.len(),
    ensures
        items_bios(items.take(count)) <= items_bios(items),
    decreases items.len(),
{
    if count == items.len() {
        assert(items.take(count) =~= items);
    } else {
        assert(items.drop_last().take(count) =~= items.take(count));
        lemma_item_totals(items.drop_last(), count);
    }
}

/// An item adds no more transfers than it holds.
proof fn lemma_serve_bound(view: ContainerView, item: ServiceItem, target: FileBlockSubmissionTarget)
    requires
        view.block.next_id + item.bios() <= u64::MAX,
    ensures
        view.serve(item, target).0.block.next_id <= view.block.next_id + item.bios(),
{
    match item {
        ServiceItem::Completion { route, answers } => {
            lemma_route_keeps_block(view, route, answers);
        },
        ServiceItem::Submission { request, reply, answers } => {
            match reply {
                BackendReply::Planned {
                    submission: BackendSubmission::Submit { action, .. },
                    ..
                } => {
                    lemma_submit_bound(view.block, action.bios@, action.merges@, action.bios@.len());
                },
                _ => {},
            }
            lemma_finish_keeps_block(
                view.with_plan(reply, target),
                request,
                FileIoTerminalResult::SubmitFailure,
                answers,
            );
        },
    }
}

proof fn lemma_end_writeback_keeps_shape(
    view: ContainerView,
    generations: Seq<(PageIndex, PageGeneration)>,
    end: WritebackEnd,
    count: nat,
)
    ensures
        view.end_writeback(generations, end, count).view.same_shape(view),
    decreases count,
{
    if count > 0 {
        lemma_end_writeback_keeps_shape(view, generations, end, (count - 1) as nat);
    }
}

proof fn lemma_finish_keeps_shape(
    view: ContainerView,
    request: PageIoRequest,
    terminal: FileIoTerminalResult,
    answers: CompletionAnswers,
)
    ensures
        view.finish_request(request, terminal, answers).0.same_shape(view),
{
    let taken = view.without_request(request.id);
    if let Some(owner) = view.submission.owner(request.id) {
        if let PayloadView::Writeback { lease } = owner.payload {
            lemma_end_writeback_keeps_shape(
                taken,
                lease.generations,
                WritebackEnd::Abort,
                lease.generations.len(),
            );
            if let FileIoTerminalResult::Completion { result, .. } = terminal {
                lemma_end_writeback_keeps_shape(
                    taken,
                    lease.generations,
                    WritebackEnd::Complete(result.result()),
                    lease.generations.len(),
                );
            }
        }
    }
}

proof fn lemma_serve_keeps_shape(
    view: ContainerView,
    item: ServiceItem,
    target: FileBlockSubmissionTarget,
)
    ensures
        view.serve(item, target).0.same_shape(view),
{
    match item {
        ServiceItem::Completion { route, answers } => {
            if let Some(owner) = view.submission.owner(route.completion.id) {
                lemma_finish_keeps_shape(
                    view,
                    owner.request,
                    FileIoTerminalResult::SubmitFailure,
                    answers,
                );
                lemma_finish_keeps_shape(
                    view,
                    owner.request,
                    FileIoTerminalResult::Completion {
                        result: route.completion.result,
                        kind: route.completion.kind,
                        generation: route.completion.generation,
                        frame: route.frame,
                        notify_waiters: route.has_waiters,
                    },
                    answers,
                );
            }
        },
        ServiceItem::Submission { request, reply, answers } => {
            lemma_finish_keeps_shape(
                view.with_plan(reply, target),
                request,
                FileIoTerminalResult::SubmitFailure,
                answers,
            );
        },
    }
}

/// A turn adds no more transfers than its items hold, and leaves the shape of
/// the container alone.
pub proof fn lemma_served_bound(
    view: ContainerView,
    items: Seq<ServiceItem>,
    target: FileBlockSubmissionTarget,
    count: nat,
)
    requires
        count <= items.len(),
    ensures
        view.served(items, target, count).same_shape(view),
        view.block.next_id + items_bios(items) <= u64::MAX ==> view.served(
            items,
            target,
            count,
        ).block.next_id <= view.block.next_id + items_bios(items.take(count as int)),
        items_bios(items.take(count as int)) <= items_bios(items),
    decreases count,
{
    lemma_item_totals(items, count as int);
    if count > 0 {
        let done = (count - 1) as nat;
        lemma_served_bound(view, items, target, done);
        let before = view.served(items, target, done);
        assert(items.take(count as int).drop_last() =~= items.take(done as int));
        assert(items.take(count as int).last() == items[done as int]);
        lemma_serve_keeps_shape(before, items[done as int], target);
        if view.block.next_id + items_bios(items) <= u64::MAX {
            lemma_serve_bound(before, items[done as int], target);
        }
    }
}

/// A plan can be handed on step by step: to queue its transfers, to record what
/// the page service makes of the receipt, and to settle the item with that, is
/// to serve the item with the plan.
pub proof fn law_a_plan_is_handed_on_in_steps(
    view: ContainerView,
    request: PageIoRequest,
    graph: bool,
    action: PageL6Action,
    applied: Result<BackendSubmitOutcome, BackendSubmitError>,
    answers: CompletionAnswers,
)
    ensures
        ({
            let target = FileBlockSubmissionTarget::Owned;
            let queued = view.with_action(action);
            let recorded = match applied {
                Ok(outcome) => ContainerView { block: queued.block.recorded(outcome), ..queued },
                Err(_) => queued,
            };
            let settled = BackendSubmission::Settled(applied);
            let whole = BackendSubmission::Submit { action, applied };
            recorded.serve(
                ServiceItem::Submission {
                    request,
                    reply: BackendReply::Planned { graph, submission: settled },
                    answers,
                },
                target,
            ) == view.serve(
                ServiceItem::Submission {
                    request,
                    reply: BackendReply::Planned { graph, submission: whole },
                    answers,
                },
                target,
            )
        }),
{
}

/// Whether any of `work` put transfers under way whose end comes later.
pub open spec fn waits_for_completion(work: Seq<ServiceItemEnd>) -> bool {
    exists|i: int|
        0 <= i < work.len() && ((#[trigger] work[i]).work matches
            ServiceDrivenWork::BackendSubmission(outcome) && (outcome is BlockBiosQueued
            || outcome is BlockGraphQueued || outcome is MetadataFirstQueued))
}

pub fn file_service_work_waits_for_async_completion(work: &Vec<ServiceItemEnd>) -> (waits: bool)
    ensures
        waits == waits_for_completion(work@),
{
    let mut i: usize = 0;
    while i < work.len()
        invariant
            i <= work@.len(),
            forall|j: int|
                0 <= j < i ==> !((#[trigger] work@[j]).work matches
                    ServiceDrivenWork::BackendSubmission(outcome) && (outcome is BlockBiosQueued
                    || outcome is BlockGraphQueued || outcome is MetadataFirstQueued)),
        decreases work@.len() - i,
    {
        match &work[i].work {
            ServiceDrivenWork::BackendSubmission(outcome) => match outcome {
                BackendSubmitOutcome::BlockBiosQueued { .. } => {
                    return true;
                },
                BackendSubmitOutcome::BlockGraphQueued { .. } => {
                    return true;
                },
                BackendSubmitOutcome::MetadataFirstQueued { .. } => {
                    return true;
                },
                _ => {},
            },
            _ => {},
        }
        i += 1;
    }
    false
}

/// The error that `end` reports for request `id`.
pub open spec fn reported_error(end: ServiceItemEnd, id: Option<PageIoRequestId>) -> Option<Errno> {
    match end.work {
        ServiceDrivenWork::BackendSubmission(BackendSubmitOutcome::Error { request, errno }) => {
            if id == Some(request.id) {
                Some(errno)
            } else {
                None
            }
        },
        _ => None,
    }
}

/// The first error that `work` reports for request `id`.
pub open spec fn terminal_error(work: Seq<ServiceItemEnd>, id: Option<PageIoRequestId>) -> Option<Errno>
    decreases work.len(),
{
    if work.len() == 0 {
        None
    } else {
        match terminal_error(work.drop_last(), id) {
            Some(errno) => Some(errno),
            None => reported_error(work.last(), id),
        }
    }
}

pub fn file_service_terminal_error_for_request(
    work: &Vec<ServiceItemEnd>,
    request_id: Option<PageIoRequestId>,
) -> (error: Option<Errno>)
    ensures
        error == terminal_error(work@, request_id),
{
    let mut found: Option<Errno> = None;
    let mut i: usize = 0;
    while i < work.len()
        invariant
            i <= work@.len(),
            found == terminal_error(work@.take(i as int), request_id),
        decreases work@.len() - i,
    {
        assert(work@.take(i + 1).drop_last() =~= work@.take(i as int));
        if found.is_none() {
            match &work[i].work {
                ServiceDrivenWork::BackendSubmission(outcome) => match outcome {
                    BackendSubmitOutcome::Error { request, errno } => {
                        if request_id == Some(request.id) {
                            found = Some(*errno);
                        }
                    },
                    _ => {},
                },
                _ => {},
            }
        }
        i += 1;
    }
    assert(work@.take(i as int) =~= work@);
    found
}

impl PageContainer {
    /// The backend context of a file.
    pub fn file_backend_context(&self) -> (context: Option<FileBackendContext>)
        ensures
            context == (if self@.kind is File {
                Some(FileBackendContext { object: self@.object(), planner: self@.planned() })
            } else {
                None
            }),
    {
        match self.kind {
            PageContainerKind::File { mount, fs_object_id } => Some(
                FileBackendContext { object: fs_object_id, planner: mount.backend_planner },
            ),
            _ => None,
        }
    }

    /// Whether the identities of block requests last for the transfers of
    /// `items`.
    pub fn can_number_items(&self, items: &Vec<ServiceItem>) -> (can: bool)
        ensures
            can == (self@.block.next_id + items_bios(items@) <= u64::MAX),
    {
        let mut left: u64 = u64::MAX - self.block_submission.next_id;
        let mut i: usize = 0;
        assert(items@.take(0) =~= Seq::empty());
        while i < items.len()
            invariant
                i <= items@.len(),
                left == u64::MAX - self@.block.next_id - items_bios(items@.take(i as int)),
            decreases items@.len() - i,
        {
            proof {
                assert(items@.take(i + 1).drop_last() =~= items@.take(i as int));
                lemma_item_totals(items@, i + 1);
            }
            let count: u64 = match &items[i] {
                ServiceItem::Submission {
                    reply: BackendReply::Planned { submission, .. },
                    ..
                } => submission_bios(submission),
                _ => 0,
            };
            if count > left {
                return false;
            }
            left = left - count;
            i += 1;
        }
        assert(items@.take(i as int) =~= items@);
        true
    }

    /// Whether the identities of block requests last for the transfers of
    /// `submission`.
    pub fn can_number_submission(&self, submission: &BackendSubmission) -> (can: bool)
        ensures
            can == (self@.block.next_id + submission.bios() <= u64::MAX),
    {
        submission_bios(submission) <= u64::MAX - self.block_submission.next_id
    }

    fn fail_service_request(
        &mut self,
        request: PageIoRequest,
        errno: Errno,
        answers: CompletionAnswers,
        work: ServiceDrivenWork,
    ) -> (end: ServiceItemEnd)
        requires
            old(self).wf(),
        ensures
            final(self).wf(),
            (final(self)@, end) == old(self)@.fail_unsubmitted(request, errno, answers, work),
    {
        let (end, completion) = self.fail_unsubmitted_file_io_request(request, errno, answers);
        ServiceItemEnd { work, notify: end.notify, planner: end.planner, completion }
    }

    /// Queue the transfers that the page service asks for.
    pub fn submit_page_action(&mut self, action: PageL6Action) -> (receipt: PageL6Receipt)
        requires
            old(self).wf(),
            old(self)@.block.next_id + action.bios@.len() <= u64::MAX,
        ensures
            final(self).wf(),
            final(self)@ == old(self)@.with_action(action),
            old(self)@.acknowledges(action, receipt),
    {
        let ghost before = self@;
        let receipt = self.block_submission.submit_page_action(action);
        proof {
            assert(receipt.submitted.len() == receipt.submitted@.len());
            before.lemma_consistent_frame(self@);
            assert(self@ =~= before.with_action(action));
        }
        receipt
    }

    /// Record what the page service made of a receipt.
    pub fn record_page_outcome(&mut self, outcome: &BackendSubmitOutcome)
        requires
            old(self).wf(),
        ensures
            final(self).wf(),
            final(self)@ == (ContainerView {
                block: old(self)@.block.recorded(*outcome),
                ..old(self)@
            }),
    {
        let ghost before = self@;
        self.block_submission.record_page_outcome(outcome);
        proof {
            before.lemma_consistent_frame(self@);
        }
    }

    /// Hand a plan to the container's own block service: its transfers are
    /// queued, and can be dispatched once the page service has accepted the
    /// receipt, which is handed out as well. A caller that needs the receipt
    /// before it can say what the page service makes of it takes the two steps
    /// of this one by one.
    pub fn submit_owned_file_backend_outcome(&mut self, submission: BackendSubmission) -> (r: (
        Result<BackendSubmitOutcome, BackendSubmitError>,
        Option<PageL6Receipt>,
    ))
        requires
            old(self).wf(),
            old(self)@.block.next_id + submission.bios() <= u64::MAX,
        ensures
            final(self).wf(),
            final(self)@ == old(self)@.with_submission(submission),
            r.0 == submission.outcome(),
            match submission {
                BackendSubmission::Settled(_) => r.1 is None,
                BackendSubmission::Submit { action, .. } => r.1 matches Some(receipt) && old(
                    self,
                )@.acknowledges(action, receipt),
            },
    {
        match submission {
            BackendSubmission::Settled(outcome) => (outcome, None),
            BackendSubmission::Submit { action, applied } => {
                let receipt = self.submit_page_action(action);
                match applied {
                    Ok(outcome) => {
                        self.record_page_outcome(&outcome);
                        (Ok(outcome), Some(receipt))
                    },
                    Err(error) => (Err(error), Some(receipt)),
                }
            },
        }
    }

    /// Settle one item of a page service turn.
    pub fn serve_file_io_item(&mut self, item: ServiceItem, target: FileBlockSubmissionTarget) -> (end:
        ServiceItemEnd)
        requires
            old(self).wf(),
            old(self)@.block.next_id + item.bios() <= u64::MAX,
        ensures
            final(self).wf(),
            (final(self)@, end) == old(self)@.serve(item, target),
    {
        match item {
            ServiceItem::Completion { route, answers } => {
                let end = self.apply_file_io_completion_route(&route, answers);
                ServiceItemEnd {
                    work: ServiceDrivenWork::Completion(route),
                    notify: end.notify,
                    planner: end.planner,
                    completion: None,
                }
            },
            ServiceItem::Submission { request, reply, answers } => {
                let queued = match reply {
                    BackendReply::Unplanned => {
                        return self.fail_service_request(
                            request,
                            Errno::ENOSYS,
                            answers,
                            ServiceDrivenWork::UnplannedSubmission(request),
                        );
                    },
                    BackendReply::Planned { graph, submission } => match target {
                        FileBlockSubmissionTarget::Owned => {
                            let (queued, _receipt) = self.submit_owned_file_backend_outcome(
                                submission,
                            );
                            queued
                        },
                        FileBlockSubmissionTarget::External => if graph {
                            Ok(BackendSubmitOutcome::Error { request, errno: Errno::ENOSYS })
                        } else {
                            match submission {
                                BackendSubmission::Settled(outcome) => outcome,
                                BackendSubmission::Submit { applied, .. } => applied,
                            }
                        },
                    },
                };
                match queued {
                    Err(error) => self.fail_service_request(
                        request,
                        backend_submit_errno(error),
                        answers,
                        ServiceDrivenWork::BackendSubmitError(error),
                    ),
                    Ok(BackendSubmitOutcome::Error { request: failed, errno }) => {
                        self.fail_service_request(
                            request,
                            errno,
                            answers,
                            ServiceDrivenWork::BackendSubmission(
                                BackendSubmitOutcome::Error { request: failed, errno },
                            ),
                        )
                    },
                    Ok(outcome) => ServiceItemEnd {
                        work: ServiceDrivenWork::BackendSubmission(outcome),
                        notify: None,
                        planner: None,
                        completion: None,
                    },
                }
            },
        }
    }

    /// Queue a background graph of the filesystem. `submission` is how the page
    /// service hands the graph on, for which it is asked only if a request was
    /// reserved. What is returned is the error that the planner is told of.
    pub fn queue_file_background_graph(&mut self, submission: BackendSubmission) -> (failed: Option<
        Errno,
    >)
        requires
            old(self).wf(),
            old(self)@.block.next_id + submission.bios() <= u64::MAX,
        ensures
            final(self).wf(),
            ({
                let request = old(self)@.submission.next_request(
                    PageIoRange { start_page: 0, page_count: old(self)@.page_count },
                    PageIoOp::Checkpoint,
                    PageIoPriority::BackgroundWriteback,
                    PageIoFlags::Writeback,
                    None,
                );
                let reserved = ContainerView {
                    submission: old(self)@.submission.with_row(request),
                    ..old(self)@
                };
                if !old(self)@.submission.admits() {
                    failed == Some(Errno::EBUSY) && final(self)@ == old(self)@
                } else {
                    match submission.outcome() {
                        Ok(BackendSubmitOutcome::Error { errno, .. }) => {
                            &&& failed == Some(errno)
                            &&& final(self)@ == reserved.with_submission(submission)
                        },
                        Ok(_) => {
                            let queued = reserved.with_submission(submission);
                            &&& failed is None
                            &&& final(self)@ == (ContainerView {
                                submission: SubmissionView {
                                    background: queued.submission.background.insert(request.id.0),
                                    ..queued.submission
                                },
                                ..queued
                            })
                        },
                        Err(_) => {
                            &&& failed == Some(Errno::EIO)
                            &&& final(self)@ == reserved.with_submission(submission)
                        },
                    }
                }
            }),
    {
        let ghost before = self@;
        let range = PageIoRange::new(0, self.page_count);
        let request = match self.page_submission.reserve_background_request(range) {
            Some(request) => request,
            None => {
                return Some(Errno::EBUSY);
            },
        };
        proof {
            before.lemma_consistent_frame(self@);
        }
        let (queued, _receipt) = self.submit_owned_file_backend_outcome(submission);
        match queued {
            Ok(BackendSubmitOutcome::Error { errno, .. }) => Some(errno),
            Ok(_) => {
                let ghost submitted = self@;
                self.page_submission.mark_background_graph(request.id);
                proof {
                    submitted.lemma_consistent_frame(self@);
                }
                None
            },
            Err(_) => Some(Errno::EIO),
        }
    }

    /// One turn of the page service over `items`. Only files have one.
    /// `runnable` tells whether the service has more to do afterwards, and
    /// `accepted` whether the kick that this calls for was accepted.
    fn drive_file_io_service_once_inner(
        &mut self,
        items: Vec<ServiceItem>,
        target: FileBlockSubmissionTarget,
        runnable: bool,
        accepted: bool,
    ) -> (driven: Option<PageServiceBackendDriven>)
        requires
            old(self).wf(),
            old(self)@.block.next_id + items_bios(items@) <= u64::MAX,
        ensures
            final(self).wf(),
            match driven {
                Some(driven) => {
                    &&& old(self)@.kind is File
                    &&& driven.ends_turn(runnable, accepted)
                    &&& driven.work@ == old(self)@.served_ends(items@, target)
                    &&& final(self)@ == old(self)@.served(items@, target, items@.len())
                },
                None => old(self)@.kind !is File && final(self)@ == old(self)@,
            },
    {
        if self.file_backend_context().is_none() {
            return None;
        }
        let ghost before = self@;
        let ghost all = items@;
        let mut rest = items;
        let mut work: Vec<ServiceItemEnd> = Vec::new();
        while rest.len() > 0
            invariant
                self.wf(),
                rest@.len() <= all.len(),
                rest@ == all.skip(all.len() - rest@.len()),
                work@.len() == all.len() - rest@.len(),
                self@ == before.served(all, target, work@.len()),
                before.block.next_id + items_bios(all) <= u64::MAX,
                self@.block.next_id <= before.block.next_id + items_bios(
                    all.take(work@.len() as int),
                ),
                forall|i: int|
                    0 <= i < work@.len() ==> #[trigger] work@[i] == before.served_ends(
                        all,
                        target,
                    )[i],
            decreases rest@.len(),
        {
            let ghost at = work@.len() as int;
            let item = rest.remove(0);
            assert(item == all[at]);
            assert(rest@ =~= all.skip(at + 1));
            proof {
                lemma_item_totals(all, at + 1);
                assert(all.take(at + 1).drop_last() =~= all.take(at));
                lemma_serve_bound(self@, item, target);
            }
            let end = self.serve_file_io_item(item, target);
            work.push(end);
        }
        assert(work@ =~= before.served_ends(all, target));
        Some(
            PageServiceBackendDriven {
                work,
                next: if runnable {
                    PageServiceNext::Runnable
                } else {
                    PageServiceNext::Sleeping
                },
                kicks: if runnable && accepted {
                    1
                } else {
                    0
                },
            },
        )
    }

    /// One turn of the page service whose transfers go to a block service of
    /// the caller.
    pub fn drive_file_io_service_once(
        &mut self,
        items: Vec<ServiceItem>,
        runnable: bool,
        accepted: bool,
    ) -> (driven: Option<PageServiceBackendDriven>)
        requires
            old(self).wf(),
            old(self)@.block.next_id + items_bios(items@) <= u64::MAX,
        ensures
            final(self).wf(),
            match driven {
                Some(driven) => {
                    let target = FileBlockSubmissionTarget::External;
                    &&& old(self)@.kind is File
                    &&& driven.ends_turn(runnable, accepted)
                    &&& driven.work@ == old(self)@.served_ends(items@, target)
                    &&& final(self)@ == old(self)@.served(items@, target, items@.len())
                },
                None => old(self)@.kind !is File && final(self)@ == old(self)@,
            },
    {
        self.drive_file_io_service_once_inner(
            items,
            FileBlockSubmissionTarget::External,
            runnable,
            accepted,
        )
    }

    /// One turn of the page service whose transfers go to the caller's block
    /// service `block`, which learns where their completions belong.
    pub fn drive_file_io_service_once_with_tracker(
        &mut self,
        items: Vec<ServiceItem>,
        block: &mut BlockSubmissionHandle,
        runnable: bool,
        accepted: bool,
    ) -> (driven: Option<PageServiceBackendDriven>)
        requires
            old(self).wf(),
            old(block).wf(),
            old(self)@.block.next_id + items_bios(items@) <= u64::MAX,
        ensures
            final(self).wf(),
            final(block).wf(),
            match driven {
                Some(driven) => {
                    let target = FileBlockSubmissionTarget::External;
                    &&& old(self)@.kind is File
                    &&& driven.ends_turn(runnable, accepted)
                    &&& driven.work@ == old(self)@.served_ends(items@, target)
                    &&& final(self)@ == old(self)@.served(items@, target, items@.len())
                    &&& final(block)@ == routes_after(old(block)@, driven.work@)
                },
                None => old(self)@.kind !is File && final(self)@ == old(self)@ && final(block)@
                    == old(block)@,
            },
    {
        let driven = match self.drive_file_io_service_once(items, runnable, accepted) {
            Some(driven) => driven,
            None => {
                return None;
            },
        };
        record_file_service_block_submissions(block, &driven.work);
        Some(driven)
    }

    /// One turn of the page service whose transfers go to the container's own
    /// block service.
    pub fn drive_file_io_service_once_owned(
        &mut self,
        items: Vec<ServiceItem>,
        runnable: bool,
        accepted: bool,
    ) -> (driven: Option<PageServiceBackendDriven>)
        requires
            old(self).wf(),
            old(self)@.block.next_id + items_bios(items@) <= u64::MAX,
        ensures
            final(self).wf(),
            match driven {
                Some(driven) => {
                    let target = FileBlockSubmissionTarget::Owned;
                    &&& old(self)@.kind is File
                    &&& driven.ends_turn(runnable, accepted)
                    &&& driven.work@ == old(self)@.served_ends(items@, target)
                    &&& final(self)@ == old(self)@.served(items@, target, items@.len())
                },
                None => old(self)@.kind !is File && final(self)@ == old(self)@,
            },
    {
        self.drive_file_io_service_once_inner(
            items,
            FileBlockSubmissionTarget::Owned,
            runnable,
            accepted,
        )
    }
}

/// The routes of a block service after the submissions among `ends`.
pub open spec fn routes_after(block: BlockView, ends: Seq<ServiceItemEnd>) -> BlockView
    decreases ends.len(),
{
    if ends.len() == 0 {
        block
    } else {
        let before = routes_after(block, ends.drop_last());
        match ends.last().work {
            ServiceDrivenWork::BackendSubmission(outcome) => before.recorded(outcome),
            _ => before,
        }
    }
}

/// Tell a block service where the completions of the submissions belong.
fn record_file_service_block_submissions(
    block: &mut BlockSubmissionHandle,
    ends: &Vec<ServiceItemEnd>,
)
    requires
        old(block).wf(),
    ensures
        final(block).wf(),
        final(block)@ == routes_after(old(block)@, ends@),
{
    let mut i: usize = 0;
    assert(ends@.take(0) =~= Seq::<ServiceItemEnd>::empty());
    while i < ends.len()
        invariant
            block.wf(),
            i <= ends@.len(),
            block@ == routes_after(old(block)@, ends@.take(i as int)),
        decreases ends@.len() - i,
    {
        assert(ends@.take(i + 1).drop_last() =~= ends@.take(i as int));
        match &ends[i].work {
            ServiceDrivenWork::BackendSubmission(outcome) => {
                block.record_page_outcome(outcome);
            },
            _ => {},
        }
        i += 1;
    }
    assert(ends@.take(i as int) =~= ends@);
}

/// Transfers that the page service goes on with, and what it made of the
/// receipt for them: nothing if it refused the receipt.
#[derive(Debug)]
pub struct RoutedAction {
    pub action: PageL6Action,
    pub applied: Option<BackendSubmitOutcome>,
}

/// What the page service made of the page routes of a device completion.
#[derive(Debug)]
pub struct PreparedRoutes {
    /// Page completions that were queued.
    pub queued: usize,
    /// Whether the page service has to run.
    pub wake: bool,
    pub actions: Vec<RoutedAction>,
}

/// A device completion, with the outside answers to it.
#[derive(Debug)]
pub struct DeviceEvent {
    pub completion: BlockDeviceCompletion,
    /// Nothing if the page service refused the routes.
    pub routes: Option<PreparedRoutes>,
    /// Root credits for the direct transfers that end, in order.
    pub retires: Vec<bool>,
}

/// Why a block service turn failed.
#[derive(Clone, Copy, Debug, PartialEq, Eq, Structural)]
pub enum BlockTurnError {
    UnknownTag(UnknownTag),
    /// The page service refused the routes of a completion.
    RefusedRoutes,
    /// A receipt was refused, or a direct transfer could not be ended.
    ExternalCompletion,
}

/// The outcome of a block service turn.
#[derive(Clone, Copy, Debug, PartialEq, Eq, Structural)]
pub struct FileBlockServiceTurn {
    pub dispatched: usize,
    pub device_completions: usize,
    pub page_completions: usize,
    pub next: BlockServiceNext,
    /// Kicks that were accepted.
    pub kicks: usize,
}

/// What the page routes of a completion have come to.
#[derive(Clone, Copy, Debug, PartialEq, Eq, Structural)]
pub struct RoutedWork {
    pub queued: usize,
    pub wake: bool,
    /// Whether further transfers were queued.
    pub block_submitted: bool,
}

/// The page completions that the page service queued for a receipt.
pub open spec fn outcome_queued(outcome: BackendSubmitOutcome) -> nat {
    match outcome {
        BackendSubmitOutcome::QueuedPageCompletions { queued, .. } => queued as nat,
        _ => 0,
    }
}

pub open spec fn outcome_wakes(outcome: BackendSubmitOutcome) -> bool {
    match outcome {
        BackendSubmitOutcome::QueuedPageCompletions { wake, .. } => wake,
        _ => false,
    }
}

/// The page routes of a completion under way, as a value.
#[verifier::ext_equal]
pub struct RoutedView {
    pub view: ContainerView,
    pub queued: nat,
    pub wake: bool,
    pub block_submitted: bool,
    pub failed: bool,
}

/// The page completions that `actions` bring.
pub open spec fn actions_queued(actions: Seq<RoutedAction>) -> nat
    decreases actions.len(),
{
    if actions.len() == 0 {
        0
    } else {
        actions_queued(actions.drop_last()) + match actions.last().applied {
            Some(outcome) => outcome_queued(outcome),
            None => 0,
        }
    }
}

/// The transfers that `actions` hold.
pub open spec fn actions_bios(actions: Seq<RoutedAction>) -> nat
    decreases actions.len(),
{
    if actions.len() == 0 {
        0
    } else {
        actions_bios(actions.drop_last()) + actions.last().action.bios@.len()
    }
}

impl DeviceEvent {
    /// The page completions that the event brings.
    pub open spec fn queued(self) -> nat {
        match self.routes {
            Some(routes) => routes.queued as nat + actions_queued(routes.actions@),
            None => 0,
        }
    }

    /// The transfers that the event holds.
    pub open spec fn bios(self) -> nat {
        match self.routes {
            Some(routes) => actions_bios(routes.actions@),
            None => 0,
        }
    }
}

/// The ends of several direct transfers, as a value.
#[verifier::ext_equal]
pub struct DirectEndsView {
    pub view: ContainerView,
    pub pending: bool,
    pub notify: Seq<u64>,
    pub failed: bool,
}

impl ContainerView {
    /// Outcome of ending the first `count` direct transfers of a completion. One
    /// that has to wait for a root credit is no failure.
    pub open spec fn end_direct_transfers(
        self,
        ends: Seq<(IoDataLeaseId, Result<(), Errno>)>,
        retires: Seq<bool>,
        count: nat,
    ) -> DirectEndsView
        decreases count,
    {
        if count == 0 {
            DirectEndsView { view: self, pending: false, notify: Seq::empty(), failed: false }
        } else {
            let before = self.end_direct_transfers(ends, retires, (count - 1) as nat);
            if before.failed {
                before
            } else {
                let (lease, result) = ends[count - 1];
                let (after, end) = before.view.complete_direct(
                    lease,
                    result,
                    count - 1 < retires.len() && retires[count - 1],
                );
                let notify = match end.notify {
                    Some(source) => before.notify.push(source),
                    None => before.notify,
                };
                match end.completion {
                    Ok(_) => DirectEndsView { view: after, notify, ..before },
                    Err(DirectIoCompletionError::Backend(Errno::EAGAIN)) => {
                        if after.pending_direct().contains(lease.0) {
                            DirectEndsView { view: after, notify, pending: true, ..before }
                        } else {
                            DirectEndsView { view: after, notify, failed: true, ..before }
                        }
                    },
                    Err(_) => DirectEndsView { view: after, notify, failed: true, ..before },
                }
            }
        }
    }

    /// With the tag and the routes of a device completion taken.
    pub open spec fn without_block_request(self, completion: BlockDeviceCompletion) -> Self {
        let id = self.block.tags[completion.tag.0];
        ContainerView {
            block: BlockView {
                tags: self.block.tags.remove(completion.tag.0),
                direct: self.block.direct.remove(id.0),
                pages: self.block.pages.remove(id.0),
                ..self.block
            },
            ..self
        }
    }

    /// The direct transfers that end with a device completion.
    pub open spec fn direct_ends(self, completion: BlockDeviceCompletion) -> Seq<
        (IoDataLeaseId, Result<(), Errno>),
    > {
        crate::block_runtime::reported(
            crate::block_runtime::leases_of(
                self.block.direct,
                self.block.tags[completion.tag.0],
            ),
            completion.result,
        )
    }

    /// Outcome of the first `count` actions of a completion's page routes. A
    /// refused receipt ends them.
    pub open spec fn route_actions(self, routes: PreparedRoutes, count: nat) -> RoutedView
        decreases count,
    {
        if count == 0 {
            RoutedView {
                view: self,
                queued: routes.queued as nat,
                wake: routes.wake,
                block_submitted: false,
                failed: false,
            }
        } else {
            let before = self.route_actions(routes, (count - 1) as nat);
            if before.failed {
                before
            } else {
                let routed = routes.actions@[count - 1];
                let submitted = before.view.with_action(routed.action);
                match routed.applied {
                    None => RoutedView { view: submitted, failed: true, ..before },
                    Some(outcome) => RoutedView {
                        view: ContainerView {
                            block: submitted.block.recorded(outcome),
                            ..submitted
                        },
                        queued: before.queued + outcome_queued(outcome),
                        wake: before.wake || outcome_wakes(outcome),
                        block_submitted: before.block_submitted || before.view.block.submit_all(
                            routed.action.bios@,
                            routed.action.merges@,
                            routed.action.bios@.len(),
                        ).submitted.len() > 0,
                        failed: false,
                    },
                }
            }
        }
    }
}

/// A block service turn under way.
#[derive(Debug)]
pub struct BlockTurn {
    pub dispatched: usize,
    pub device_completions: usize,
    pub page_completions: usize,
    pub next: BlockServiceNext,
    /// Kicks that were accepted while transfers were dispatched.
    pub driven_kicks: usize,
    /// The page service has to run this often.
    pub page_kicks: usize,
    /// The block service has to run this often.
    pub block_kicks: usize,
    /// Whether a direct completion waits for a root credit.
    pub pending_direct: bool,
    /// The wait sources to be notified.
    pub notify: Vec<u64>,
}

/// A block service turn as a value.
#[verifier::ext_equal]
pub struct BlockTurnView {
    pub dispatched: nat,
    pub device_completions: nat,
    pub page_completions: nat,
    pub next: BlockServiceNext,
    pub driven_kicks: nat,
    pub page_kicks: nat,
    pub block_kicks: nat,
    pub pending_direct: bool,
    pub notify: Seq<u64>,
}

impl View for BlockTurn {
    type V = BlockTurnView;

    open spec fn view(&self) -> BlockTurnView {
        BlockTurnView {
            dispatched: self.dispatched as nat,
            device_completions: self.device_completions as nat,
            page_completions: self.page_completions as nat,
            next: self.next,
            driven_kicks: self.driven_kicks as nat,
            page_kicks: self.page_kicks as nat,
            block_kicks: self.block_kicks as nat,
            pending_direct: self.pending_direct,
            notify: self.notify@,
        }
    }
}

pub open spec fn one_if(condition: bool) -> nat {
    if condition {
        1
    } else {
        0
    }
}

/// How many of the first `count` kicks were accepted.
pub open spec fn accepted_kicks(answers: Seq<bool>, count: nat) -> nat
    decreases count,
{
    if count == 0 {
        0
    } else {
        accepted_kicks(answers, (count - 1) as nat) + one_if(
            count - 1 < answers.len() && answers[count - 1],
        )
    }
}

impl BlockTurnView {
    /// With a device completion counted whose page routes came to `routed` and
    /// which ended direct transfers as `ends`.
    pub open spec fn counted(
        self,
        queued: nat,
        wake: bool,
        block_submitted: bool,
        ends: DirectEndsView,
    ) -> Self {
        BlockTurnView {
            device_completions: self.device_completions + 1,
            page_completions: self.page_completions + queued,
            page_kicks: self.page_kicks + one_if(wake),
            block_kicks: self.block_kicks + one_if(block_submitted),
            next: if block_submitted {
                BlockServiceNext::Runnable
            } else {
                self.next
            },
            pending_direct: self.pending_direct || ends.pending,
            notify: self.notify + ends.notify,
            ..self
        }
    }

    /// The kicks that the turn calls for.
    pub open spec fn kicks_due(self) -> nat {
        self.page_kicks + self.block_kicks + one_if(self.pending_direct)
    }

    /// The turn when everything has been polled.
    pub open spec fn done(self, accepted: Seq<bool>) -> FileBlockServiceTurn {
        FileBlockServiceTurn {
            dispatched: self.dispatched as usize,
            device_completions: self.device_completions as usize,
            page_completions: self.page_completions as usize,
            next: if self.pending_direct {
                BlockServiceNext::Runnable
            } else {
                self.next
            },
            kicks: (self.driven_kicks + accepted_kicks(accepted, self.kicks_due())) as usize,
        }
    }
}

impl ContainerView {
    /// Outcome of starting a block service turn.
    pub open spec fn begin_block_turn(
        self,
        budget: usize,
        retires: Seq<bool>,
        driven_kicks: usize,
    ) -> (Self, Result<BlockTurnView, BlockTurnError>) {
        let leases = ascending(self.pending_direct());
        let retried = self.retry_direct(leases, retires, leases.len());
        match retried.failed {
            Some(_) => (retried.view, Err(BlockTurnError::ExternalCompletion)),
            None => {
                let count = self.block.dispatch_count(budget);
                let after = self.block.dispatched(count);
                (
                    ContainerView { block: after, ..retried.view },
                    Ok(
                        BlockTurnView {
                            dispatched: count,
                            device_completions: 0,
                            page_completions: 0,
                            next: after.announced_step(),
                            driven_kicks: driven_kicks as nat,
                            page_kicks: 0,
                            block_kicks: 0,
                            pending_direct: retried.still_pending,
                            notify: retried.notify,
                        },
                    ),
                )
            },
        }
    }

    /// Outcome of ending the direct transfers of a completion whose page routes
    /// are settled.
    pub open spec fn end_completion(
        self,
        turn: BlockTurnView,
        direct: Seq<(IoDataLeaseId, Result<(), Errno>)>,
        queued: nat,
        wake: bool,
        block_submitted: bool,
        retires: Seq<bool>,
    ) -> (Self, Result<BlockTurnView, BlockTurnError>) {
        let ends = self.end_direct_transfers(direct, retires, direct.len());
        if ends.failed {
            (ends.view, Err(BlockTurnError::ExternalCompletion))
        } else {
            (ends.view, Ok(turn.counted(queued, wake, block_submitted, ends)))
        }
    }

    /// Outcome of one polled device completion: its routes are taken, then the
    /// page routes are settled, then the direct transfers end.
    pub open spec fn apply_event(self, turn: BlockTurnView, event: DeviceEvent) -> (
        Self,
        Result<BlockTurnView, BlockTurnError>,
    ) {
        if !self.block.tags.contains_key(event.completion.tag.0) {
            (self, Err(BlockTurnError::UnknownTag(UnknownTag(event.completion.tag))))
        } else {
            let taken = self.without_block_request(event.completion);
            match event.routes {
                None => (taken, Err(BlockTurnError::RefusedRoutes)),
                Some(routes) => {
                    let routed = taken.route_actions(routes, routes.actions@.len());
                    if routed.failed {
                        (routed.view, Err(BlockTurnError::ExternalCompletion))
                    } else {
                        routed.view.end_completion(
                            turn,
                            self.direct_ends(event.completion),
                            routed.queued,
                            routed.wake,
                            routed.block_submitted,
                            event.retires@,
                        )
                    }
                },
            }
        }
    }

    /// Outcome of the first `count` polled completions. A failure ends the turn.
    pub open spec fn apply_events(self, turn: BlockTurnView, events: Seq<DeviceEvent>, count: nat) -> (
        Self,
        Result<BlockTurnView, BlockTurnError>,
    )
        decreases count,
    {
        if count == 0 {
            (self, Ok(turn))
        } else {
            match self.apply_events(turn, events, (count - 1) as nat) {
                (before, Err(error)) => (before, Err(error)),
                (before, Ok(at)) => before.apply_event(at, events[count - 1]),
            }
        }
    }

    /// Outcome of a block service turn.
    pub open spec fn block_turn(
        self,
        budget: usize,
        retires: Seq<bool>,
        driven_kicks: usize,
        events: Seq<DeviceEvent>,
        accepted: Seq<bool>,
    ) -> (Self, Result<FileBlockServiceTurn, BlockTurnError>) {
        match self.begin_block_turn(budget, retires, driven_kicks) {
            (begun, Err(error)) => (begun, Err(error)),
            (begun, Ok(turn)) => match begun.apply_events(turn, events, events.len()) {
                (after, Err(error)) => (after, Err(error)),
                (after, Ok(turn)) => (after, Ok(turn.done(accepted))),
            },
        }
    }
}

/// The page completions that `events` bring.
pub open spec fn queued_total(events: Seq<DeviceEvent>) -> nat
    decreases events.len(),
{
    if events.len() == 0 {
        0
    } else {
        queued_total(events.drop_last()) + events.last().queued()
    }
}

/// The transfers that `events` hold.
pub open spec fn bios_total(events: Seq<DeviceEvent>) -> nat
    decreases events.len(),
{
    if events.len() == 0 {
        0
    } else {
        bios_total(events.drop_last()) + events.last().bios()
    }
}

proof fn lemma_event_totals(events: Seq<DeviceEvent>, count: int)
    requires
        0 <= count <= events.len(),
    ensures
        queued_total(events.take(count)) <= queued_total(events),
        bios_total(events.take(count)) <= bios_total(events),
    decreases events.len(),
{
    if count == events.len() {
        assert(events.take(count) =~= events);
    } else {
        assert(events.drop_last().take(count) =~= events.take(count));
        lemma_event_totals(events.drop_last(), count);
    }
}

proof fn lemma_action_totals(actions: Seq<RoutedAction>, count: int)
    requires
        0 <= count <= actions.len(),
    ensures
        actions_queued(actions.take(count)) <= actions_queued(actions),
        actions_bios(actions.take(count)) <= actions_bios(actions),
    decreases actions.len(),
{
    if count == actions.len() {
        assert(actions.take(count) =~= actions);
    } else {
        assert(actions.drop_last().take(count) =~= actions.take(count));
        lemma_action_totals(actions.drop_last(), count);
    }
}

proof fn lemma_routes_bound(view: ContainerView, routes: PreparedRoutes, count: nat)
    requires
        count <= routes.actions@.len(),
        view.block.next_id + actions_bios(routes.actions@) <= u64::MAX,
    ensures
        view.route_actions(routes, count).view.block.next_id <= view.block.next_id + actions_bios(
            routes.actions@.take(count as int),
        ),
        view.route_actions(routes, count).queued <= routes.queued + actions_queued(
            routes.actions@.take(count as int),
        ),
    decreases count,
{
    let actions = routes.actions@;
    if count > 0 {
        let before = view.route_actions(routes, (count - 1) as nat);
        lemma_routes_bound(view, routes, (count - 1) as nat);
        lemma_action_totals(actions, count as int);
        assert(actions.take(count as int).drop_last() =~= actions.take(count - 1));
        let action = actions[count - 1].action;
        if !before.failed {
            lemma_submit_bound(
                before.view.block,
                action.bios@,
                action.merges@,
                action.bios@.len(),
            );
        }
    }
}

proof fn lemma_direct_ends_keep_block(
    view: ContainerView,
    ends: Seq<(IoDataLeaseId, Result<(), Errno>)>,
    retires: Seq<bool>,
    count: nat,
)
    ensures
        view.end_direct_transfers(ends, retires, count).view.block == view.block,
    decreases count,
{
    if count > 0 {
        lemma_direct_ends_keep_block(view, ends, retires, (count - 1) as nat);
    }
}

/// An event adds no more transfers than it holds.
proof fn lemma_event_bound(view: ContainerView, turn: BlockTurnView, event: DeviceEvent)
    requires
        view.block.next_id + event.bios() <= u64::MAX,
    ensures
        view.apply_event(turn, event).0.block.next_id <= view.block.next_id + event.bios(),
        view.apply_event(turn, event).1 matches Ok(after) ==> {
            &&& after.page_completions <= turn.page_completions + event.queued()
            &&& after.page_kicks <= turn.page_kicks + 1
            &&& after.block_kicks <= turn.block_kicks + 1
            &&& after.device_completions == turn.device_completions + 1
            &&& after.driven_kicks == turn.driven_kicks
            &&& after.dispatched == turn.dispatched
        },
{
    if view.block.tags.contains_key(event.completion.tag.0) {
        let taken = view.without_block_request(event.completion);
        match event.routes {
            Some(routes) => {
                let count = routes.actions@.len();
                lemma_routes_bound(taken, routes, count);
                assert(routes.actions@.take(count as int) =~= routes.actions@);
                let direct = view.direct_ends(event.completion);
                lemma_direct_ends_keep_block(
                    taken.route_actions(routes, count).view,
                    direct,
                    event.retires@,
                    direct.len(),
                );
            },
            None => {},
        }
    }
}

fn append(sources: &mut Vec<u64>, more: &Vec<u64>)
    ensures
        final(sources)@ == old(sources)@ + more@,
{
    let ghost before = sources@;
    let mut i: usize = 0;
    while i < more.len()
        invariant
            i <= more@.len(),
            sources@ == before + more@.take(i as int),
        decreases more@.len() - i,
    {
        sources.push(more[i]);
        i += 1;
        assert(sources@ =~= before + more@.take(i as int));
    }
    assert(more@.take(i as int) =~= more@);
}

impl RoutedWork {
    /// The page routes as the page service hands them over.
    pub fn of(queued: usize, wake: bool) -> (work: Self)
        ensures
            work == (RoutedWork { queued, wake, block_submitted: false }),
    {
        RoutedWork { queued, wake, block_submitted: false }
    }

    /// With the outcome of an action counted of which `submitted` transfers
    /// were accepted.
    pub fn counting(self, submitted: usize, outcome: &BackendSubmitOutcome) -> (work: Self)
        requires
            self.queued + outcome_queued(*outcome) <= usize::MAX,
        ensures
            work.queued == self.queued + outcome_queued(*outcome),
            work.wake == (self.wake || outcome_wakes(*outcome)),
            work.block_submitted == (self.block_submitted || submitted > 0),
    {
        let block_submitted = self.block_submitted || submitted > 0;
        match outcome {
            BackendSubmitOutcome::QueuedPageCompletions { queued, wake } => RoutedWork {
                queued: self.queued + *queued,
                wake: self.wake || *wake,
                block_submitted,
            },
            _ => RoutedWork { queued: self.queued, wake: self.wake, block_submitted },
        }
    }
}

impl PageContainer {
    /// Start a block service turn: retry the direct completions that wait for a
    /// root credit, then dispatch up to `budget` transfers. The caller submits
    /// the dispatches and polls for completions. `driven_kicks` is the number of
    /// kicks that were accepted for the dispatching.
    pub fn begin_file_block_io_turn(
        &mut self,
        budget: usize,
        retires: &Vec<bool>,
        driven_kicks: usize,
    ) -> (r: Result<(BlockTurn, Vec<BlockDispatch>), BlockTurnError>)
        requires
            old(self).wf(),
            old(self)@.block.next_tag + budget <= u64::MAX,
        ensures
            final(self).wf(),
            ({
                let (after, begun) = old(self)@.begin_block_turn(budget, retires@, driven_kicks);
                &&& final(self)@ == after
                &&& match r {
                    Ok((turn, dispatches)) => {
                        &&& begun == Ok::<BlockTurnView, BlockTurnError>(turn@)
                        &&& dispatches@ == Seq::new(
                            turn@.dispatched,
                            |i: int| old(self)@.block.dispatch(i),
                        )
                    },
                    Err(error) => begun == Err::<BlockTurnView, BlockTurnError>(error),
                }
            }),
    {
        let ghost before = self@;
        let retried = self.retry_pending_direct_io_completions(retires);
        let pending_direct = match retried.result {
            Ok(pending) => pending,
            Err(_) => {
                return Err(BlockTurnError::ExternalCompletion);
            },
        };
        let ghost settled = self@;
        proof {
            let leases = ascending(before.pending_direct());
            lemma_retry_keeps_block(before, leases, retires@, leases.len());
        }
        let driven = self.block_submission.drive(budget);
        proof {
            settled.lemma_consistent_frame(self@);
        }
        let turn = BlockTurn {
            dispatched: driven.dispatches.len(),
            device_completions: 0,
            page_completions: 0,
            next: driven.next,
            driven_kicks,
            page_kicks: 0,
            block_kicks: 0,
            pending_direct,
            notify: retried.notify,
        };
        Ok((turn, driven.dispatches))
    }

    /// Take the routes of a device completion. The page service is to be asked
    /// about those of page requests.
    pub fn take_device_completion(&mut self, completion: BlockDeviceCompletion) -> (r: Result<
        BlockManagerCompletionReceipt,
        BlockTurnError,
    >)
        requires
            old(self).wf(),
        ensures
            final(self).wf(),
            match r {
                Ok(receipt) => {
                    let id = old(self)@.block.tags[completion.tag.0];
                    &&& old(self)@.block.tags.contains_key(completion.tag.0)
                    &&& receipt.block.id == id
                    &&& receipt.block.result == completion.result
                    &&& receipt.page@ == old(self)@.block.requests_of(id).map_values(
                        |request: PageIoRequest|
                            BlockPageCompletion { request, result: completion.result },
                    )
                    &&& receipt.direct@ == old(self)@.direct_ends(completion)
                    &&& final(self)@ == old(self)@.without_block_request(completion)
                },
                Err(error) => {
                    &&& !old(self)@.block.tags.contains_key(completion.tag.0)
                    &&& error == BlockTurnError::UnknownTag(UnknownTag(completion.tag))
                    &&& final(self)@ == old(self)@
                },
            },
    {
        let ghost before = self@;
        match self.block_submission.complete_receipt(completion) {
            Ok(receipt) => {
                proof {
                    assert(self@ =~= before.without_block_request(completion));
                    before.lemma_consistent_frame(self@);
                }
                Ok(receipt)
            },
            Err(unknown) => Err(BlockTurnError::UnknownTag(unknown)),
        }
    }

    /// Settle the page routes of a completion.
    fn route_actions(&mut self, routes: PreparedRoutes) -> (r: Result<RoutedWork, BlockTurnError>)
        requires
            old(self).wf(),
            routes.queued + actions_queued(routes.actions@) <= usize::MAX,
            old(self)@.block.next_id + actions_bios(routes.actions@) <= u64::MAX,
        ensures
            final(self).wf(),
            ({
                let routed = old(self)@.route_actions(routes, routes.actions@.len());
                &&& final(self)@ == routed.view
                &&& match r {
                    Ok(work) => {
                        &&& !routed.failed
                        &&& work.queued == routed.queued
                        &&& work.wake == routed.wake
                        &&& work.block_submitted == routed.block_submitted
                    },
                    Err(error) => routed.failed && error == BlockTurnError::ExternalCompletion,
                }
            }),
    {
        let ghost before = self@;
        let ghost all = routes.actions@;
        let ghost given = routes;
        let PreparedRoutes { queued, wake, actions } = routes;
        let mut rest = actions;
        let mut work = RoutedWork::of(queued, wake);
        let ghost mut count: nat = 0;
        assert(all.skip(0) =~= all);
        while rest.len() > 0
            invariant
                self.wf(),
                given == routes,
                given.actions@ == all,
                count <= all.len(),
                rest@ == all.skip(count as int),
                given.queued + actions_queued(all) <= usize::MAX,
                before.block.next_id + actions_bios(all) <= u64::MAX,
                ({
                    let routed = before.route_actions(given, count);
                    &&& self@ == routed.view
                    &&& !routed.failed
                    &&& work.queued == routed.queued
                    &&& work.wake == routed.wake
                    &&& work.block_submitted == routed.block_submitted
                }),
                before == old(self)@,
            decreases rest@.len(),
        {
            proof {
                lemma_routes_bound(before, given, count);
                lemma_action_totals(all, count as int + 1);
                assert(all.take(count as int + 1).drop_last() =~= all.take(count as int));
            }
            let routed = rest.remove(0);
            let RoutedAction { action, applied } = routed;
            let ghost at = self@;
            proof {
                assert(routed == all[count as int]);
                assert(rest@ =~= all.skip(count as int + 1));
                lemma_submit_bound(at.block, action.bios@, action.merges@, action.bios@.len());
            }
            let receipt = self.submit_page_action(action);
            proof {
                count = count + 1;
            }
            match applied {
                None => {
                    proof {
                        lemma_routes_stop(before, given, count, all.len());
                    }
                    return Err(BlockTurnError::ExternalCompletion);
                },
                Some(outcome) => {
                    self.record_page_outcome(&outcome);
                    work = work.counting(receipt.submitted.len(), &outcome);
                },
            }
        }
        assert(count == all.len());
        Ok(work)
    }

    /// End the direct transfers of a device completion.
    fn end_direct_transfers(
        &mut self,
        ends: &Vec<(IoDataLeaseId, Result<(), Errno>)>,
        retires: &Vec<bool>,
    ) -> (r: (bool, Vec<u64>, bool))
        requires
            old(self).wf(),
        ensures
            final(self).wf(),
            ({
                let outcome = old(self)@.end_direct_transfers(ends@, retires@, ends@.len());
                &&& final(self)@ == outcome.view
                &&& r.0 == outcome.pending
                &&& r.1@ == outcome.notify
                &&& r.2 == outcome.failed
            }),
    {
        let ghost before = self@;
        let mut pending = false;
        let mut notify: Vec<u64> = Vec::new();
        let mut i: usize = 0;
        while i < ends.len()
            invariant
                self.wf(),
                before == old(self)@,
                i <= ends@.len(),
                before.end_direct_transfers(ends@, retires@, i as nat) == (DirectEndsView {
                    view: self@,
                    pending,
                    notify: notify@,
                    failed: false,
                }),
            decreases ends@.len() - i,
        {
            let (lease, result) = ends[i];
            let retire = i < retires.len() && retires[i];
            let end = self.complete_file_direct_submission(lease, result, retire);
            match end.notify {
                Some(source) => {
                    notify.push(source);
                },
                None => {},
            }
            i += 1;
            let failed = match end.completion {
                Ok(_) => false,
                Err(DirectIoCompletionError::Backend(Errno::EAGAIN)) => {
                    if self.direct_io_completion_is_pending(lease) {
                        pending = true;
                        false
                    } else {
                        true
                    }
                },
                Err(_) => true,
            };
            if failed {
                proof {
                    lemma_direct_ends_stop(before, ends@, retires@, i as nat, ends@.len());
                }
                return (pending, notify, true);
            }
        }
        (pending, notify, false)
    }

    /// End the direct transfers of a completion whose page routes are settled.
    pub fn end_device_completion(
        &mut self,
        turn: BlockTurn,
        direct: &Vec<(IoDataLeaseId, Result<(), Errno>)>,
        routed: RoutedWork,
        retires: &Vec<bool>,
    ) -> (r: Result<BlockTurn, BlockTurnError>)
        requires
            old(self).wf(),
            turn.device_completions < usize::MAX,
            turn.page_completions + routed.queued <= usize::MAX,
            turn.page_kicks < usize::MAX,
            turn.block_kicks < usize::MAX,
        ensures
            final(self).wf(),
            ({
                let (after, ended) = old(self)@.end_completion(
                    turn@,
                    direct@,
                    routed.queued as nat,
                    routed.wake,
                    routed.block_submitted,
                    retires@,
                );
                &&& final(self)@ == after
                &&& match r {
                    Ok(turn) => ended == Ok::<BlockTurnView, BlockTurnError>(turn@),
                    Err(error) => ended == Err::<BlockTurnView, BlockTurnError>(error),
                }
            }),
    {
        let (pending, notify, failed) = self.end_direct_transfers(direct, retires);
        if failed {
            return Err(BlockTurnError::ExternalCompletion);
        }
        let BlockTurn {
            dispatched,
            device_completions,
            page_completions,
            next,
            driven_kicks,
            page_kicks,
            block_kicks,
            pending_direct,
            notify: sources,
        } = turn;
        let mut sources = sources;
        append(&mut sources, &notify);
        Ok(
            BlockTurn {
                dispatched,
                device_completions: device_completions + 1,
                page_completions: page_completions + routed.queued,
                next: if routed.block_submitted {
                    BlockServiceNext::Runnable
                } else {
                    next
                },
                driven_kicks,
                page_kicks: if routed.wake {
                    page_kicks + 1
                } else {
                    page_kicks
                },
                block_kicks: if routed.block_submitted {
                    block_kicks + 1
                } else {
                    block_kicks
                },
                pending_direct: pending_direct || pending,
                notify: sources,
            },
        )
    }

    /// Apply one polled device completion.
    pub fn apply_device_event(&mut self, turn: BlockTurn, event: DeviceEvent) -> (r: Result<
        BlockTurn,
        BlockTurnError,
    >)
        requires
            old(self).wf(),
            turn.device_completions < usize::MAX,
            turn.page_completions + event.queued() <= usize::MAX,
            turn.page_kicks < usize::MAX,
            turn.block_kicks < usize::MAX,
            old(self)@.block.next_id + event.bios() <= u64::MAX,
        ensures
            final(self).wf(),
            ({
                let (after, applied) = old(self)@.apply_event(turn@, event);
                &&& final(self)@ == after
                &&& match r {
                    Ok(turn) => applied == Ok::<BlockTurnView, BlockTurnError>(turn@),
                    Err(error) => applied == Err::<BlockTurnView, BlockTurnError>(error),
                }
            }),
    {
        let DeviceEvent { completion, routes, retires } = event;
        let receipt = match self.take_device_completion(completion) {
            Ok(receipt) => receipt,
            Err(error) => {
                return Err(error);
            },
        };
        let routes = match routes {
            Some(routes) => routes,
            None => {
                return Err(BlockTurnError::RefusedRoutes);
            },
        };
        proof {
            lemma_routes_bound(self@, routes, routes.actions@.len());
            assert(routes.actions@.take(routes.actions@.len() as int) =~= routes.actions@);
        }
        match self.route_actions(routes) {
            Ok(routed) => self.end_device_completion(turn, &receipt.direct, routed, &retires),
            Err(error) => Err(error),
        }
    }

    /// A whole block service turn. `events` are the completions that were polled
    /// after the dispatches were submitted, and `accepted` the answers to the
    /// kicks, in the order in which they are due.
    pub fn drive_file_block_io_service_once(
        &mut self,
        budget: usize,
        retires: &Vec<bool>,
        driven_kicks: usize,
        events: Vec<DeviceEvent>,
        accepted: &Vec<bool>,
    ) -> (r: Result<FileBlockServiceTurn, BlockTurnError>)
        requires
            old(self).wf(),
            old(self)@.block.next_tag + budget <= u64::MAX,
            old(self)@.block.next_id + bios_total(events@) <= u64::MAX,
            queued_total(events@) <= usize::MAX,
            driven_kicks + events@.len() * 2 < usize::MAX,
        ensures
            final(self).wf(),
            (final(self)@, r) == old(self)@.block_turn(
                budget,
                retires@,
                driven_kicks,
                events@,
                accepted@,
            ),
    {
        let (turn, _dispatches) = match self.begin_file_block_io_turn(
            budget,
            retires,
            driven_kicks,
        ) {
            Ok(begun) => begun,
            Err(error) => {
                return Err(error);
            },
        };
        let ghost begun = self@;
        let ghost start = turn@;
        let ghost all = events@;
        let ghost mut count: nat = 0;
        let mut rest = events;
        let mut turn = turn;
        proof {
            assert(all.skip(0) =~= all);
            lemma_dispatch_adds_nothing(old(self)@.block, turn@.dispatched);
        }
        while rest.len() > 0
            invariant
                self.wf(),
                all == events@,
                begun == old(self)@.begin_block_turn(budget, retires@, driven_kicks).0,
                old(self)@.begin_block_turn(budget, retires@, driven_kicks).1 == Ok::<
                    BlockTurnView,
                    BlockTurnError,
                >(start),
                count <= all.len(),
                rest@ == all.skip(count as int),
                driven_kicks + all.len() * 2 < usize::MAX,
                queued_total(all) <= usize::MAX,
                begun.block.next_id + bios_total(all) <= u64::MAX,
                self@.block.next_id <= begun.block.next_id + bios_total(all.take(count as int)),
                begun.apply_events(start, all, count) == (
                    self@,
                    Ok::<BlockTurnView, BlockTurnError>(turn@),
                ),
                turn.device_completions == count,
                turn.page_completions <= queued_total(all.take(count as int)),
                turn.driven_kicks == driven_kicks,
                turn.page_kicks <= count,
                turn.block_kicks <= count,
            decreases rest@.len(),
        {
            let ghost before = self@;
            let ghost at = turn@;
            let event = rest.remove(0);
            proof {
                assert(event == all[count as int]);
                assert(rest@ =~= all.skip(count as int + 1));
                lemma_event_totals(all, count as int + 1);
                assert(all.take(count as int + 1).drop_last() =~= all.take(count as int));
                lemma_event_bound(before, at, event);
                count = count + 1;
            }
            match self.apply_device_event(turn, event) {
                Ok(next) => {
                    turn = next;
                },
                Err(error) => {
                    proof {
                        lemma_events_stop(begun, start, all, count, all.len());
                    }
                    return Err(error);
                },
            }
        }
        assert(count == all.len());
        Ok(finish_file_block_io_turn(&turn, accepted))
    }
}

proof fn lemma_routes_stop(view: ContainerView, routes: PreparedRoutes, at: nat, count: nat)
    requires
        at <= count,
        view.route_actions(routes, at).failed,
    ensures
        view.route_actions(routes, count) == view.route_actions(routes, at),
    decreases count,
{
    if at < count {
        lemma_routes_stop(view, routes, at, (count - 1) as nat);
    }
}

proof fn lemma_events_stop(
    view: ContainerView,
    turn: BlockTurnView,
    events: Seq<DeviceEvent>,
    at: nat,
    count: nat,
)
    requires
        at <= count,
        view.apply_events(turn, events, at).1 is Err,
    ensures
        view.apply_events(turn, events, count) == view.apply_events(turn, events, at),
    decreases count,
{
    if at < count {
        lemma_events_stop(view, turn, events, at, (count - 1) as nat);
    }
}

/// End a block service turn. A direct completion that waits for a root credit
/// keeps the service running. `accepted` are the answers to the kicks that are
/// due, in order.
pub fn finish_file_block_io_turn(turn: &BlockTurn, accepted: &Vec<bool>) -> (done:
    FileBlockServiceTurn)
    requires
        turn.driven_kicks + turn.page_kicks + turn.block_kicks < usize::MAX,
    ensures
        done == turn@.done(accepted@),
{
    let due: usize = if turn.pending_direct {
        turn.page_kicks + turn.block_kicks + 1
    } else {
        turn.page_kicks + turn.block_kicks
    };
    let mut kicks: usize = turn.driven_kicks;
    let mut i: usize = 0;
    while i < due
        invariant
            i <= due,
            turn.driven_kicks + due <= usize::MAX,
            kicks <= turn.driven_kicks + i,
            kicks == turn.driven_kicks + accepted_kicks(accepted@, i as nat),
        decreases due - i,
    {
        if i < accepted.len() && accepted[i] {
            kicks += 1;
        }
        i += 1;
    }
    FileBlockServiceTurn {
        dispatched: turn.dispatched,
        device_completions: turn.device_completions,
        page_completions: turn.page_completions,
        next: if turn.pending_direct {
            BlockServiceNext::Runnable
        } else {
            turn.next
        },
        kicks,
    }
}

proof fn lemma_direct_ends_stop(
    view: ContainerView,
    ends: Seq<(IoDataLeaseId, Result<(), Errno>)>,
    retires: Seq<bool>,
    at: nat,
    count: nat,
)
    requires
        at <= count,
        view.end_direct_transfers(ends, retires, at).failed,
    ensures
        view.end_direct_transfers(ends, retires, count) == view.end_direct_transfers(
            ends,
            retires,
            at,
        ),
    decreases count,
{
    if at < count {
        lemma_direct_ends_stop(view, ends, retires, at, (count - 1) as nat);
    }
}

proof fn lemma_dispatch_adds_nothing(view: BlockView, count: nat)
    ensures
        view.dispatched(count).next_id == view.next_id,
    decreases count,
{
    if count > 0 {
        lemma_dispatch_adds_nothing(view, (count - 1) as nat);
    }
}

proof fn lemma_retry_keeps_block(
    view: ContainerView,
    leases: Seq<u64>,
    retires: Seq<bool>,
    count: nat,
)
    ensures
        view.retry_direct(leases, retires, count).view.block == view.block,
    decreases count,
{
    if count > 0 {
        lemma_retry_keeps_block(view, leases, retires, (count - 1) as nat);
    }
}

proof fn lemma_aborted_pages(
    view: ContainerView,
    generations: Seq<(PageIndex, PageGeneration)>,
    count: nat,
    page: PageIndex,
    generation: PageGeneration,
    ppn: Ppn,
)
    requires
        count <= generations.len(),
        view.slots.contains_key(page.0),
        view.slot(page).state matches PageSlotState::Writeback {
            ppn: bound,
            submitted_generation,
            ..
        } && bound == ppn && submitted_generation == generation,
    ensures
        ({
            let after = view.end_writeback(generations, WritebackEnd::Abort, count).view;
            &&& after.slots.contains_key(page.0)
            &&& after.slot(page).state == (PageSlotState::Dirty { ppn }) || (after.slot(page)
                == view.slot(page) && !generations.take(count as int).contains((page, generation)))
        }),
    decreases count,
{
    if count > 0 {
        let last = count - 1;
        lemma_aborted_pages(view, generations, last as nat, page, generation, ppn);
        let before = view.end_writeback(generations, WritebackEnd::Abort, last as nat).view;
        let after = view.end_writeback(generations, WritebackEnd::Abort, count).view;
        let taken = generations.take(count as int);
        assert(taken.drop_last() =~= generations.take(last as int));
        if after.slot(page) == view.slot(page) {
            if taken.contains((page, generation)) {
                let i = taken.index_of((page, generation));
                if i < last {
                    assert(generations.take(last as int)[i] == (page, generation));
                }
            }
        }
    }
}

/// A request whose plan is refused is given up whole: nothing of it is left,
/// and every page whose writeback it had begun is dirty again.
pub proof fn law_refused_plan_gives_the_request_up(
    view: ContainerView,
    request: PageIoRequest,
    reply: BackendReply,
    answers: CompletionAnswers,
    target: FileBlockSubmissionTarget,
)
    requires
        match plan_outcome(request, reply, target) {
            None => true,
            Some(Err(_)) => true,
            Some(Ok(outcome)) => outcome is Error,
        },
    ensures
        ({
            let (after, end) = view.serve(
                ServiceItem::Submission { request, reply, answers },
                target,
            );
            &&& !after.submission.owners.contains_key(request.id.0)
            &&& !after.submission.rows.contains_key(request.id.0)
            &&& !after.submission.waiters.contains_key(request.id.0)
            &&& request.op is Writeback ==> forall|page: PageIndex, generation: PageGeneration|
                #![trigger view.writes_back(request.id, page, generation)]
                view.writes_back(request.id, page, generation) ==> after.slot(page).state
                    is Dirty
        }),
{
    let planned = view.with_plan(reply, target);
    lemma_finish_keeps_requests_gone(
        planned,
        request,
        FileIoTerminalResult::SubmitFailure,
        answers,
    );
    let after = view.serve(ServiceItem::Submission { request, reply, answers }, target).0;
    assert forall|page: PageIndex, generation: PageGeneration|
        #![trigger view.writes_back(request.id, page, generation)]
        request.op is Writeback && view.writes_back(
            request.id,
            page,
            generation,
        ) implies after.slot(page).state is Dirty by {
        let owner = view.submission.owner(request.id)->Some_0;
        let generations = owner.payload->lease.generations;
        let taken = planned.without_request(request.id);
        match view.slot(page).state {
            PageSlotState::Writeback { ppn, .. } => {
                lemma_aborted_pages(taken, generations, generations.len(), page, generation, ppn);
                assert(generations.take(generations.len() as int) =~= generations);
            },
            _ => {},
        }
    }
}

} // verus!
