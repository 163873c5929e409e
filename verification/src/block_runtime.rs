//! Block submission: the queue of transfers that wait for a device, the tags of
//! those at the device, and the routes by which a completion finds its owner.
//!
//! A route is removed before its owner is told of the completion, so that no
//! completion can reach an owner twice.

use crate::ids::{Errno, IoDataLeaseId, PageIoRequestId};
use crate::io::{BioVec, PageIoRequest};
use crate::sparse_index::SparseMap;
use vstd::prelude::*;

verus! {

#[derive(Clone, Copy, Debug, PartialEq, Eq, Structural)]
pub struct BlockRequestId(pub u64);

#[derive(Clone, Copy, Debug, PartialEq, Eq, Structural)]
pub struct BlockTag(pub u64);

#[derive(Clone, Copy, Debug, PartialEq, Eq, Structural)]
pub enum BlockOp {
    Read,
    Write,
    Flush,
}

#[derive(Clone, Copy, Debug, PartialEq, Eq, Structural)]
pub struct LbaRange {
    pub start: u64,
    pub count: u64,
}

/// One transfer between a device and memory.
#[derive(Debug)]
pub struct BioPlan {
    pub device: u64,
    pub op: BlockOp,
    pub range: LbaRange,
    pub vecs: Vec<BioVec>,
}

#[derive(Clone, Copy, Debug, PartialEq, Eq, Structural)]
pub enum QueueError {
    Full,
    DispatchDepthFull,
    EmptyRange,
}

/// The errno that a refused direct submission reports.
pub open spec fn queue_errno(error: QueueError) -> Errno {
    match error {
        QueueError::Full => Errno::EAGAIN,
        QueueError::DispatchDepthFull => Errno::EAGAIN,
        QueueError::EmptyRange => Errno::EINVAL,
    }
}

pub fn direct_queue_errno(error: QueueError) -> (errno: Errno)
    ensures
        errno == queue_errno(error),
{
    match error {
        QueueError::Full => Errno::EAGAIN,
        QueueError::DispatchDepthFull => Errno::EAGAIN,
        QueueError::EmptyRange => Errno::EINVAL,
    }
}

#[derive(Clone, Copy, Debug, PartialEq, Eq, Structural)]
pub enum SubmitOutcome {
    Queued(BlockRequestId),
    Merged(BlockRequestId),
}

impl SubmitOutcome {
    pub open spec fn request(self) -> BlockRequestId {
        match self {
            SubmitOutcome::Queued(id) => id,
            SubmitOutcome::Merged(id) => id,
        }
    }
}

pub fn block_request_id(outcome: SubmitOutcome) -> (id: BlockRequestId)
    ensures
        id == outcome.request(),
{
    match outcome {
        SubmitOutcome::Queued(id) => id,
        SubmitOutcome::Merged(id) => id,
    }
}

/// What the queue made of a transfer that it merged: the waiting transfer with
/// identity `id` has become `plan`, which holds both.
#[derive(Debug)]
pub struct MergedBio {
    pub id: BlockRequestId,
    pub plan: BioPlan,
}

/// A transfer that waits for the device. A blocked one may not be dispatched
/// before its route is recorded.
#[derive(Debug)]
pub struct QueuedBio {
    pub id: BlockRequestId,
    pub plan: BioPlan,
    pub blocked: bool,
}

#[derive(Debug)]
pub struct BlockDispatch {
    pub tag: BlockTag,
    pub id: BlockRequestId,
    pub plan: BioPlan,
}

/// The end of a transfer, as its device reports it.
#[derive(Clone, Copy, Debug)]
pub struct BlockDeviceCompletion {
    pub tag: BlockTag,
    pub result: Result<(), Errno>,
}

#[derive(Clone, Copy, Debug)]
pub struct BlockCompletion {
    pub id: BlockRequestId,
    pub result: Result<(), Errno>,
}

/// A page request that a finished transfer belonged to.
#[derive(Clone, Copy, Debug)]
pub struct BlockPageCompletion {
    pub request: PageIoRequest,
    pub result: Result<(), Errno>,
}

/// A completion whose tag is not in flight.
#[derive(Clone, Copy, Debug, PartialEq, Eq, Structural)]
pub struct UnknownTag(pub BlockTag);

/// What a completion is routed to.
#[derive(Debug)]
pub struct BlockManagerCompletionReceipt {
    pub block: BlockCompletion,
    pub page: Vec<BlockPageCompletion>,
    pub direct: Vec<(IoDataLeaseId, Result<(), Errno>)>,
}

#[derive(Clone, Copy, Debug, PartialEq, Eq, Structural)]
pub enum BlockServiceNext {
    Runnable,
    WaitingForCompletion,
    Sleeping,
}

#[derive(Debug)]
pub struct BlockManagerDriven {
    pub dispatches: Vec<BlockDispatch>,
    pub next: BlockServiceNext,
}

/// The transfers of one page request, to be queued together.
#[derive(Debug)]
pub struct PageL6Action {
    pub id: PageIoRequestId,
    pub bios: Vec<BioPlan>,
    /// With which waiting transfer the queue merges each of them, if any. An
    /// answer that is not there is that it does not.
    pub merges: Vec<Option<MergedBio>>,
}

/// The queue's answer to the `i`-th transfer.
pub open spec fn merge_of(merges: Seq<Option<MergedBio>>, i: int) -> Option<MergedBio> {
    if i < merges.len() {
        merges[i]
    } else {
        None
    }
}

/// The place of the first waiting transfer with identity `id` from `i` on.
pub open spec fn waiting(queue: Seq<QueuedBio>, id: BlockRequestId, i: nat) -> Option<nat>
    decreases queue.len() - i,
{
    if i >= queue.len() {
        None
    } else if queue[i as int].id == id {
        Some(i)
    } else {
        waiting(queue, id, i + 1)
    }
}

proof fn lemma_waiting(queue: Seq<QueuedBio>, id: BlockRequestId, i: nat)
    ensures
        waiting(queue, id, i) matches Some(at) ==> i <= at < queue.len() && queue[at as int].id
            == id,
    decreases queue.len() - i,
{
    if i < queue.len() {
        lemma_waiting(queue, id, i + 1);
    }
}

#[derive(Clone, Copy, Debug, PartialEq, Eq, Structural)]
pub struct PageL6SubmitFailure {
    pub failed_index: usize,
    pub error: QueueError,
}

/// How far the transfers of an action were accepted.
#[derive(Debug)]
pub struct PageL6Receipt {
    pub id: PageIoRequestId,
    pub submitted: Vec<SubmitOutcome>,
    pub failure: Option<PageL6SubmitFailure>,
}

/// What became of a backend plan.
#[derive(Debug)]
pub enum BackendSubmitOutcome {
    BlockBiosQueued { request: PageIoRequest, submitted: Vec<SubmitOutcome> },
    MetadataFirstQueued { submitted: Vec<SubmitOutcome> },
    BlockGraphQueued { submitted: Vec<SubmitOutcome> },
    /// `queued` completions entered the page service, which may have to be
    /// woken.
    QueuedPageCompletions { queued: usize, wake: bool },
    Yield,
    Error { request: PageIoRequest, errno: Errno },
}

impl BackendSubmitOutcome {
    /// The transfers that were queued.
    pub open spec fn queued(&self) -> Seq<SubmitOutcome> {
        match *self {
            BackendSubmitOutcome::BlockBiosQueued { submitted, .. } => submitted@,
            BackendSubmitOutcome::MetadataFirstQueued { submitted } => submitted@,
            BackendSubmitOutcome::BlockGraphQueued { submitted } => submitted@,
            _ => Seq::empty(),
        }
    }
}

#[derive(Clone, Copy, Debug, PartialEq, Eq, Structural)]
pub struct BlockSubmissionDiagnosticSnapshot {
    pub queued: usize,
    pub dispatch_blocked: usize,
    pub front_dispatch_blocked: bool,
    pub page_routes: usize,
    pub direct_routes: usize,
    pub depth_limit: usize,
    pub tags_in_flight: usize,
}

/// Which direct transfers a block request carries.
#[derive(Debug)]
pub struct DirectIoBlockTracker {
    pub pending: SparseMap<Vec<IoDataLeaseId>>,
}

impl View for DirectIoBlockTracker {
    type V = Map<u64, Seq<IoDataLeaseId>>;

    open spec fn view(&self) -> Map<u64, Seq<IoDataLeaseId>> {
        self.pending@.map_values(|leases: Vec<IoDataLeaseId>| leases@)
    }
}

/// The leases carried by block request `id`.
pub open spec fn leases_of(routes: Map<u64, Seq<IoDataLeaseId>>, id: BlockRequestId) -> Seq<
    IoDataLeaseId,
> {
    if routes.contains_key(id.0) {
        routes[id.0]
    } else {
        Seq::empty()
    }
}

/// `leases` with every one of them reported as `result`.
pub open spec fn reported(leases: Seq<IoDataLeaseId>, result: Result<(), Errno>) -> Seq<
    (IoDataLeaseId, Result<(), Errno>),
> {
    leases.map_values(|lease: IoDataLeaseId| (lease, result))
}

impl DirectIoBlockTracker {
    pub open spec fn wf(&self) -> bool {
        self.pending.wf()
    }

    pub fn new() -> (tracker: Self)
        ensures
            tracker.wf(),
            tracker@ == Map::<u64, Seq<IoDataLeaseId>>::empty(),
    {
        let tracker = DirectIoBlockTracker { pending: SparseMap::new() };
        assert(tracker@ =~= Map::<u64, Seq<IoDataLeaseId>>::empty());
        tracker
    }

    pub fn len(&self) -> (len: usize)
        requires
            self.wf(),
        ensures
            len == self@.dom().len(),
    {
        assert(self@.dom() =~= self.pending@.dom());
        self.pending.len()
    }

    /// Route the block request of `outcome` to `lease`, once.
    pub fn record(&mut self, lease: IoDataLeaseId, outcome: SubmitOutcome)
        requires
            old(self).wf(),
        ensures
            final(self).wf(),
            final(self)@ == ({
                let known = leases_of(old(self)@, outcome.request());
                old(self)@.insert(
                    outcome.request().0,
                    if known.contains(lease) {
                        known
                    } else {
                        known.push(lease)
                    },
                )
            }),
    {
        let ghost before = self@;
        let id = block_request_id(outcome);
        let mut leases: Vec<IoDataLeaseId> = match self.pending.remove(id.0) {
            Some(leases) => leases,
            None => Vec::new(),
        };
        let ghost known = leases@;
        assert(known == leases_of(before, id));
        let mut present = false;
        let mut i: usize = 0;
        while i < leases.len()
            invariant
                i <= leases.len(),
                leases@ == known,
                present == known.take(i as int).contains(lease),
            decreases leases.len() - i,
        {
            let ghost seen = known.take(i as int);
            let ghost next = known.take(i + 1);
            if leases[i] == lease {
                assert(next[i as int] == lease);
                present = true;
            } else if present {
                let ghost j = seen.index_of(lease);
                assert(next[j] == seen[j]);
            } else {
                assert(!next.contains(lease)) by {
                    if next.contains(lease) {
                        let j = next.index_of(lease);
                        assert(j < i ==> seen[j] == next[j]);
                    }
                }
            }
            i += 1;
        }
        assert(known.take(known.len() as int) =~= known);
        if !present {
            leases.push(lease);
        }
        let _previous = self.pending.insert(id.0, leases);
        assert(self@ =~= before.insert(id.0, leases@));
    }

    /// Take the route of a finished block request.
    pub fn complete(&mut self, completion: BlockCompletion) -> (direct: Vec<
        (IoDataLeaseId, Result<(), Errno>),
    >)
        requires
            old(self).wf(),
        ensures
            final(self).wf(),
            final(self)@ == old(self)@.remove(completion.id.0),
            direct@ == reported(leases_of(old(self)@, completion.id), completion.result),
    {
        let ghost before = self@;
        let leases: Vec<IoDataLeaseId> = match self.pending.remove(completion.id.0) {
            Some(leases) => leases,
            None => Vec::new(),
        };
        assert(self@ =~= before.remove(completion.id.0));
        let mut direct: Vec<(IoDataLeaseId, Result<(), Errno>)> = Vec::new();
        let mut i: usize = 0;
        while i < leases.len()
            invariant
                i <= leases.len(),
                direct@ == reported(leases@.take(i as int), completion.result),
            decreases leases.len() - i,
        {
            direct.push((leases[i], completion.result));
            i += 1;
            assert(direct@ =~= reported(leases@.take(i as int), completion.result));
        }
        assert(leases@.take(i as int) =~= leases@);
        direct
    }
}

/// The submission state of one page-backed object.
#[derive(Debug)]
pub struct BlockSubmissionHandle {
    pub max_pending: usize,
    pub depth: usize,
    pub next_id: u64,
    pub next_tag: u64,
    pub queue: Vec<QueuedBio>,
    pub tags: SparseMap<BlockRequestId>,
    pub tracker: SparseMap<Vec<PageIoRequest>>,
    pub direct_tracker: DirectIoBlockTracker,
}

/// Block submission state as a value.
#[verifier::ext_equal]
pub struct BlockView {
    pub max_pending: usize,
    pub depth: usize,
    pub next_id: u64,
    pub next_tag: u64,
    pub queue: Seq<QueuedBio>,
    pub tags: Map<u64, BlockRequestId>,
    pub pages: Map<u64, Seq<PageIoRequest>>,
    pub direct: Map<u64, Seq<IoDataLeaseId>>,
}

impl View for BlockSubmissionHandle {
    type V = BlockView;

    open spec fn view(&self) -> BlockView {
        BlockView {
            max_pending: self.max_pending,
            depth: self.depth,
            next_id: self.next_id,
            next_tag: self.next_tag,
            queue: self.queue@,
            tags: self.tags@,
            pages: self.tracker@.map_values(|requests: Vec<PageIoRequest>| requests@),
            direct: self.direct_tracker@,
        }
    }
}

/// The transfers of an action after they have been handed to the queue.
#[verifier::ext_equal]
pub struct SubmittedView {
    pub view: BlockView,
    pub submitted: Seq<SubmitOutcome>,
    pub failure: Option<PageL6SubmitFailure>,
}

/// How many of the first `room` queued transfers can be dispatched: dispatch
/// keeps the order, so a blocked one stops it.
pub open spec fn dispatchable(queue: Seq<QueuedBio>, room: nat) -> nat
    decreases room,
{
    if room == 0 {
        0
    } else {
        let before = dispatchable(queue, (room - 1) as nat);
        if before == room - 1 && before < queue.len() && !queue[before as int].blocked {
            room
        } else {
            before
        }
    }
}

proof fn lemma_dispatchable(queue: Seq<QueuedBio>, room: nat)
    ensures
        dispatchable(queue, room) <= room,
        dispatchable(queue, room) <= queue.len(),
        forall|i: int| 0 <= i < dispatchable(queue, room) ==> !(#[trigger] queue[i]).blocked,
        dispatchable(queue, room) < room && dispatchable(queue, room) < queue.len()
            ==> queue[dispatchable(queue, room) as int].blocked,
    decreases room,
{
    if room > 0 {
        lemma_dispatchable(queue, (room - 1) as nat);
    }
}

/// How many of `queue` are blocked.
pub open spec fn blocked_count(queue: Seq<QueuedBio>) -> nat
    decreases queue.len(),
{
    if queue.len() == 0 {
        0
    } else {
        blocked_count(queue.drop_last()) + if queue.last().blocked {
            1nat
        } else {
            0nat
        }
    }
}

/// `queue` with the transfers of `outcomes` free to be dispatched.
pub open spec fn unblocked(queue: Seq<QueuedBio>, outcomes: Seq<SubmitOutcome>) -> Seq<QueuedBio> {
    queue.map_values(
        |bio: QueuedBio|
            QueuedBio {
                blocked: bio.blocked && !(exists|i: int|
                    0 <= i < outcomes.len() && (#[trigger] outcomes[i]).request() == bio.id),
                ..bio
            },
    )
}

impl BlockView {
    /// Nothing queued, at the device or routed.
    pub open spec fn empty(max_pending: usize, depth: usize) -> Self {
        BlockView {
            max_pending,
            depth,
            next_id: 1,
            next_tag: 1,
            queue: Seq::empty(),
            tags: Map::empty(),
            pages: Map::empty(),
            direct: Map::empty(),
        }
    }

    /// Whether the front of the queue can go to the device.
    pub open spec fn can_dispatch(self) -> bool {
        &&& self.queue.len() > 0
        &&& !self.queue[0].blocked
        &&& self.tags.len() < self.depth
    }

    pub open spec fn next_step(self) -> BlockServiceNext {
        if self.can_dispatch() {
            BlockServiceNext::Runnable
        } else if self.queue.len() == 0 && self.tags.len() == 0 {
            BlockServiceNext::Sleeping
        } else {
            BlockServiceNext::WaitingForCompletion
        }
    }

    /// What a turn announces before the device is polled: transfers at the
    /// device count only where they keep others from it.
    pub open spec fn announced_step(self) -> BlockServiceNext {
        if self.can_dispatch() {
            BlockServiceNext::Runnable
        } else if self.queue.len() == 0 {
            BlockServiceNext::Sleeping
        } else {
            BlockServiceNext::WaitingForCompletion
        }
    }

    /// The place of the waiting transfer that the queue's answer `merged` names.
    /// One that names none counts for nothing.
    pub open spec fn joins(self, merged: Option<MergedBio>) -> Option<nat> {
        match merged {
            Some(merged) => waiting(self.queue, merged.id, 0),
            None => None,
        }
    }

    /// Outcome of queueing `plan`, which the queue may merge with a waiting
    /// transfer.
    pub open spec fn submission(self, plan: BioPlan, merged: Option<MergedBio>) -> Result<
        SubmitOutcome,
        QueueError,
    > {
        if plan.range.count == 0 {
            Err(QueueError::EmptyRange)
        } else if self.joins(merged) is Some {
            Ok(SubmitOutcome::Merged(merged->Some_0.id))
        } else if self.queue.len() >= self.max_pending {
            Err(QueueError::Full)
        } else {
            Ok(SubmitOutcome::Queued(BlockRequestId(self.next_id)))
        }
    }

    /// With `plan` at the end of the queue, or merged.
    pub open spec fn with_bio(self, plan: BioPlan, merged: Option<MergedBio>, blocked: bool) -> Self {
        match self.joins(merged) {
            Some(at) => BlockView {
                queue: self.queue.update(
                    at as int,
                    QueuedBio {
                        id: merged->Some_0.id,
                        plan: merged->Some_0.plan,
                        blocked: blocked || self.queue[at as int].blocked,
                    },
                ),
                ..self
            },
            None => BlockView {
                next_id: (self.next_id + 1) as u64,
                queue: self.queue.push(
                    QueuedBio { id: BlockRequestId(self.next_id), plan, blocked },
                ),
                ..self
            },
        }
    }

    /// With block request `id` routed to `lease`, once.
    pub open spec fn with_direct_route(self, lease: IoDataLeaseId, id: BlockRequestId) -> Self {
        let known = leases_of(self.direct, id);
        BlockView {
            direct: self.direct.insert(
                id.0,
                if known.contains(lease) {
                    known
                } else {
                    known.push(lease)
                },
            ),
            ..self
        }
    }

    /// The first `count` of `plans` on their way to the queue, up to the first
    /// refusal. All are blocked.
    pub open spec fn submit_all(
        self,
        plans: Seq<BioPlan>,
        merges: Seq<Option<MergedBio>>,
        count: nat,
    ) -> SubmittedView
        decreases count,
    {
        if count == 0 {
            SubmittedView { view: self, submitted: Seq::empty(), failure: None }
        } else {
            let before = self.submit_all(plans, merges, (count - 1) as nat);
            if before.failure is Some {
                before
            } else {
                let plan = plans[count - 1];
                let merged = merge_of(merges, count - 1);
                match before.view.submission(plan, merged) {
                    Ok(outcome) => SubmittedView {
                        view: before.view.with_bio(plan, merged, true),
                        submitted: before.submitted.push(outcome),
                        failure: None,
                    },
                    Err(error) => SubmittedView {
                        failure: Some(
                            PageL6SubmitFailure { failed_index: (count - 1) as usize, error },
                        ),
                        ..before
                    },
                }
            }
        }
    }

    /// How many transfers a turn of `budget` dispatches.
    pub open spec fn dispatch_count(self, budget: usize) -> nat {
        let free: nat = if self.tags.len() < self.depth {
            (self.depth - self.tags.len()) as nat
        } else {
            0
        };
        dispatchable(
            self.queue,
            if budget as nat <= free {
                budget as nat
            } else {
                free
            },
        )
    }

    /// The `i`-th dispatch of a turn.
    pub open spec fn dispatch(self, i: int) -> BlockDispatch {
        BlockDispatch {
            tag: BlockTag((self.next_tag + i) as u64),
            id: self.queue[i].id,
            plan: self.queue[i].plan,
        }
    }

    /// With the first `count` queued transfers at the device.
    pub open spec fn dispatched(self, count: nat) -> Self
        decreases count,
    {
        if count == 0 {
            self
        } else {
            let before = self.dispatched((count - 1) as nat);
            BlockView {
                next_tag: (before.next_tag + 1) as u64,
                queue: before.queue.skip(1),
                tags: before.tags.insert(before.next_tag, before.queue[0].id),
                ..before
            }
        }
    }

    /// With the routes of an accepted plan recorded and its transfers free to go.
    pub open spec fn recorded(self, outcome: BackendSubmitOutcome) -> Self {
        BlockView {
            queue: unblocked(self.queue, outcome.queued()),
            pages: match outcome {
                BackendSubmitOutcome::BlockBiosQueued { request, submitted } => routed(
                    self.pages,
                    request,
                    submitted@,
                ),
                _ => self.pages,
            },
            ..self
        }
    }

    /// The page requests that block request `id` belongs to.
    pub open spec fn requests_of(self, id: BlockRequestId) -> Seq<PageIoRequest> {
        if self.pages.contains_key(id.0) {
            self.pages[id.0]
        } else {
            Seq::empty()
        }
    }
}

/// `pages` with every transfer of `submitted` routed to `request`.
pub open spec fn routed(
    pages: Map<u64, Seq<PageIoRequest>>,
    request: PageIoRequest,
    submitted: Seq<SubmitOutcome>,
) -> Map<u64, Seq<PageIoRequest>>
    decreases submitted.len(),
{
    if submitted.len() == 0 {
        pages
    } else {
        let before = routed(pages, request, submitted.drop_last());
        let id = submitted.last().request().0;
        before.insert(
            id,
            if before.contains_key(id) {
                before[id].push(request)
            } else {
                seq![request]
            },
        )
    }
}

impl BlockSubmissionHandle {
    pub open spec fn wf(&self) -> bool {
        &&& self.tags.wf()
        &&& self.tracker.wf()
        &&& self.direct_tracker.wf()
        &&& forall|k: u64| #[trigger] self.tags@.contains_key(k) ==> k < self.next_tag
        &&& self.tags@.len() <= self.depth
    }

    pub fn new(max_pending: usize, queue_depth: usize) -> (handle: Self)
        ensures
            handle.wf(),
            handle@ == BlockView::empty(max_pending, queue_depth),
    {
        let handle = BlockSubmissionHandle {
            max_pending,
            depth: queue_depth,
            next_id: 1,
            next_tag: 1,
            queue: Vec::new(),
            tags: SparseMap::new(),
            tracker: SparseMap::new(),
            direct_tracker: DirectIoBlockTracker::new(),
        };
        assert(handle@.pages =~= Map::<u64, Seq<PageIoRequest>>::empty());
        handle
    }

    pub fn has_in_flight(&self) -> (in_flight: bool)
        requires
            self.wf(),
        ensures
            in_flight == (self@.tags.len() > 0),
    {
        self.tags.len() > 0
    }

    fn can_dispatch_next(&self) -> (can: bool)
        requires
            self.wf(),
        ensures
            can == self@.can_dispatch(),
    {
        self.queue.len() > 0 && !self.queue[0].blocked && self.tags.len() < self.depth
    }

    pub fn has_immediate_work(&self) -> (work: bool)
        requires
            self.wf(),
        ensures
            work == (self@.can_dispatch() || self@.tags.len() > 0),
    {
        self.can_dispatch_next() || self.tags.len() > 0
    }

    /// What the service does next, observed after completions have returned
    /// their tags.
    pub fn service_next(&self) -> (next: BlockServiceNext)
        requires
            self.wf(),
        ensures
            next == self@.next_step(),
    {
        if self.can_dispatch_next() {
            BlockServiceNext::Runnable
        } else if self.queue.len() == 0 && self.tags.len() == 0 {
            BlockServiceNext::Sleeping
        } else {
            BlockServiceNext::WaitingForCompletion
        }
    }

    pub fn diagnostic_snapshot(&self) -> (snapshot: BlockSubmissionDiagnosticSnapshot)
        requires
            self.wf(),
        ensures
            snapshot.queued == self@.queue.len(),
            snapshot.dispatch_blocked == blocked_count(self@.queue),
            snapshot.front_dispatch_blocked == (self@.queue.len() > 0 && self@.queue[0].blocked),
            snapshot.page_routes == self@.pages.dom().len(),
            snapshot.direct_routes == self@.direct.dom().len(),
            snapshot.depth_limit == self@.depth,
            snapshot.tags_in_flight == self@.tags.len(),
    {
        let mut blocked: usize = 0;
        let mut i: usize = 0;
        while i < self.queue.len()
            invariant
                i <= self.queue@.len(),
                blocked <= i,
                blocked == blocked_count(self.queue@.take(i as int)),
            decreases self.queue@.len() - i,
        {
            assert(self.queue@.take(i + 1).drop_last() =~= self.queue@.take(i as int));
            if self.queue[i].blocked {
                blocked += 1;
            }
            i += 1;
        }
        assert(self.queue@.take(i as int) =~= self.queue@);
        BlockSubmissionDiagnosticSnapshot {
            queued: self.queue.len(),
            dispatch_blocked: blocked,
            front_dispatch_blocked: self.queue.len() > 0 && self.queue[0].blocked,
            page_routes: self.tracker_len(),
            direct_routes: self.direct_tracker.len(),
            depth_limit: self.depth,
            tags_in_flight: self.tags.len(),
        }
    }

    pub fn queue_len(&self) -> (len: usize)
        ensures
            len == self@.queue.len(),
    {
        self.queue.len()
    }

    pub fn tracker_len(&self) -> (len: usize)
        requires
            self.wf(),
        ensures
            len == self@.pages.dom().len(),
    {
        assert(self@.pages.dom() =~= self.tracker@.dom());
        self.tracker.len()
    }

    pub fn direct_tracker_len(&self) -> (len: usize)
        requires
            self.wf(),
        ensures
            len == self@.direct.dom().len(),
    {
        self.direct_tracker.len()
    }

    /// The place of the waiting transfer that `merged` names.
    fn find_joined(&self, merged: &Option<MergedBio>) -> (found: Option<usize>)
        ensures
            match found {
                Some(at) => at < self@.queue.len() && self@.joins(*merged) == Some(at as nat),
                None => self@.joins(*merged) is None,
            },
    {
        let id = match merged {
            Some(merged) => merged.id,
            None => {
                return None;
            },
        };
        let mut i: usize = 0;
        while i < self.queue.len()
            invariant
                i <= self.queue@.len(),
                *merged matches Some(merged) && merged.id == id,
                waiting(self.queue@, id, 0) == waiting(self.queue@, id, i as nat),
            decreases self.queue@.len() - i,
        {
            if self.queue[i].id == id {
                return Some(i);
            }
            i += 1;
        }
        None
    }

    fn submit(&mut self, plan: BioPlan, merged: Option<MergedBio>, blocked: bool) -> (r: Result<
        SubmitOutcome,
        QueueError,
    >)
        requires
            old(self).wf(),
            old(self)@.next_id < u64::MAX,
        ensures
            final(self).wf(),
            r == old(self)@.submission(plan, merged),
            final(self)@ == match r {
                Ok(_) => old(self)@.with_bio(plan, merged, blocked),
                Err(_) => old(self)@,
            },
    {
        if plan.range.count == 0 {
            return Err(QueueError::EmptyRange);
        }
        match self.find_joined(&merged) {
            Some(at) => {
                match merged {
                    Some(MergedBio { id, plan }) => {
                        let held = blocked || self.queue[at].blocked;
                        self.queue.set(at, QueuedBio { id, plan, blocked: held });
                        return Ok(SubmitOutcome::Merged(id));
                    },
                    None => {},
                }
            },
            None => {},
        }
        if self.queue.len() >= self.max_pending {
            return Err(QueueError::Full);
        }
        let id = BlockRequestId(self.next_id);
        self.next_id = self.next_id + 1;
        self.queue.push(QueuedBio { id, plan, blocked });
        Ok(SubmitOutcome::Queued(id))
    }

    /// Queue the transfer of a direct lease. `merged` is the queue's answer, if
    /// it merges the transfer with a waiting one.
    pub fn submit_direct(
        &mut self,
        lease: IoDataLeaseId,
        plan: BioPlan,
        merged: Option<MergedBio>,
    ) -> (r: Result<SubmitOutcome, QueueError>)
        requires
            old(self).wf(),
            old(self)@.next_id < u64::MAX,
        ensures
            final(self).wf(),
            r == old(self)@.submission(plan, merged),
            final(self)@ == match r {
                Ok(outcome) => old(self)@.with_bio(plan, merged, false).with_direct_route(
                    lease,
                    outcome.request(),
                ),
                Err(_) => old(self)@,
            },
    {
        match self.submit(plan, merged, false) {
            Ok(outcome) => {
                self.direct_tracker.record(lease, outcome);
                Ok(outcome)
            },
            Err(error) => Err(error),
        }
    }

    /// Queue the transfers of a page request, up to the first refusal. None of
    /// them is dispatched before its route is recorded.
    pub fn submit_page_action(&mut self, action: PageL6Action) -> (receipt: PageL6Receipt)
        requires
            old(self).wf(),
            old(self)@.next_id + action.bios@.len() <= u64::MAX,
        ensures
            final(self).wf(),
            receipt.id == action.id,
            (SubmittedView {
                view: final(self)@,
                submitted: receipt.submitted@,
                failure: receipt.failure,
            }) == old(self)@.submit_all(action.bios@, action.merges@, action.bios@.len()),
    {
        let PageL6Action { id, bios, merges } = action;
        let ghost before = self@;
        let ghost plans = bios@;
        let ghost answers = merges@;
        let total: usize = bios.len();
        let mut rest = bios;
        let mut left = merges;
        let mut submitted: Vec<SubmitOutcome> = Vec::new();
        let mut index: usize = 0;
        assert(plans.skip(0) =~= plans);
        assert(answers.skip(0) =~= answers);
        while rest.len() > 0
            invariant
                self.wf(),
                plans == action.bios@,
                answers == action.merges@,
                before == old(self)@,
                id == action.id,
                plans.len() == total,
                index <= total,
                before.next_id + plans.len() <= u64::MAX,
                self@.next_id <= before.next_id + index,
                rest@ == plans.skip(index as int),
                left@ == if index <= answers.len() {
                    answers.skip(index as int)
                } else {
                    Seq::empty()
                },
                (SubmittedView { view: self@, submitted: submitted@, failure: None })
                    == before.submit_all(plans, answers, index as nat),
            decreases rest@.len(),
        {
            let plan = rest.remove(0);
            let ghost held = left@;
            let merged = if left.len() > 0 {
                left.remove(0)
            } else {
                None
            };
            proof {
                assert(plan == plans[index as int]);
                assert(rest@ =~= plans.skip(index + 1));
                assert(merged == merge_of(answers, index as int));
                if index + 1 <= answers.len() {
                    assert(left@ =~= answers.skip(index + 1));
                } else {
                    assert(left@ =~= Seq::empty());
                }
            }
            match self.submit(plan, merged, true) {
                Ok(outcome) => {
                    submitted.push(outcome);
                    index += 1;
                    assert((SubmittedView { view: self@, submitted: submitted@, failure: None })
                        =~= before.submit_all(plans, answers, index as nat));
                },
                Err(error) => {
                    let failure = Some(PageL6SubmitFailure { failed_index: index, error });
                    proof {
                        lemma_submit_stops(
                            before,
                            plans,
                            answers,
                            (index + 1) as nat,
                            plans.len(),
                        );
                    }
                    return PageL6Receipt { id, submitted, failure };
                },
            }
        }
        PageL6Receipt { id, submitted, failure: None }
    }

    /// Record the routes of an accepted plan and make its transfers
    /// dispatchable.
    pub fn record_page_outcome(&mut self, outcome: &BackendSubmitOutcome)
        requires
            old(self).wf(),
        ensures
            final(self).wf(),
            final(self)@ == old(self)@.recorded(*outcome),
    {
        match outcome {
            BackendSubmitOutcome::BlockBiosQueued { request, submitted } => {
                self.record_page_submissions(*request, submitted);
                self.unblock(submitted);
            },
            BackendSubmitOutcome::MetadataFirstQueued { submitted } => {
                self.unblock(submitted);
            },
            BackendSubmitOutcome::BlockGraphQueued { submitted } => {
                self.unblock(submitted);
            },
            _ => {
                assert(unblocked(self@.queue, Seq::empty()) =~= self@.queue);
            },
        }
        assert(self@ =~= old(self)@.recorded(*outcome));
    }

    fn record_page_submissions(&mut self, request: PageIoRequest, submitted: &Vec<SubmitOutcome>)
        requires
            old(self).wf(),
        ensures
            final(self).wf(),
            final(self)@ == (BlockView {
                pages: routed(old(self)@.pages, request, submitted@),
                ..old(self)@
            }),
    {
        let mut i: usize = 0;
        assert(submitted@.take(0) =~= Seq::empty());
        while i < submitted.len()
            invariant
                i <= submitted@.len(),
                self.wf(),
                self@ == (BlockView {
                    pages: routed(old(self)@.pages, request, submitted@.take(i as int)),
                    ..old(self)@
                }),
            decreases submitted@.len() - i,
        {
            let ghost at = self@.pages;
            let id = block_request_id(submitted[i]);
            let mut requests: Vec<PageIoRequest> = match self.tracker.remove(id.0) {
                Some(requests) => requests,
                None => Vec::new(),
            };
            requests.push(request);
            let _previous = self.tracker.insert(id.0, requests);
            proof {
                assert(submitted@.take(i + 1).drop_last() =~= submitted@.take(i as int));
                assert(requests@ =~= if at.contains_key(id.0) {
                    at[id.0].push(request)
                } else {
                    seq![request]
                });
                assert(self@.pages =~= at.insert(id.0, requests@));
            }
            i += 1;
        }
        assert(submitted@.take(i as int) =~= submitted@);
    }

    fn unblock(&mut self, outcomes: &Vec<SubmitOutcome>)
        requires
            old(self).wf(),
        ensures
            final(self).wf(),
            final(self)@ == (BlockView {
                queue: unblocked(old(self)@.queue, outcomes@),
                ..old(self)@
            }),
    {
        let ghost before = self@;
        let mut i: usize = 0;
        while i < self.queue.len()
            invariant
                i <= self.queue@.len(),
                self.wf(),
                self@ == (BlockView { queue: self.queue@, ..before }),
                self.queue@.len() == before.queue.len(),
                forall|k: int|
                    0 <= k < i ==> #[trigger] self.queue@[k] == unblocked(
                        before.queue,
                        outcomes@,
                    )[k],
                forall|k: int|
                    i <= k < self.queue@.len() ==> #[trigger] self.queue@[k] == before.queue[k],
            decreases self.queue@.len() - i,
        {
            let id = self.queue[i].id;
            let mut freed = false;
            let mut j: usize = 0;
            while j < outcomes.len()
                invariant
                    j <= outcomes@.len(),
                    freed == exists|k: int|
                        0 <= k < j && (#[trigger] outcomes@[k]).request() == id,
                decreases outcomes@.len() - j,
            {
                if block_request_id(outcomes[j]) == id {
                    assert(outcomes@[j as int].request() == id);
                    freed = true;
                }
                j += 1;
            }
            if freed {
                self.queue[i].blocked = false;
            }
            i += 1;
        }
        assert(self.queue@ =~= unblocked(before.queue, outcomes@));
    }

    /// Take the tag and the routes of a finished transfer.
    pub fn complete_receipt(&mut self, completion: BlockDeviceCompletion) -> (r: Result<
        BlockManagerCompletionReceipt,
        UnknownTag,
    >)
        requires
            old(self).wf(),
        ensures
            final(self).wf(),
            match r {
                Ok(receipt) => {
                    let id = old(self)@.tags[completion.tag.0];
                    &&& old(self)@.tags.contains_key(completion.tag.0)
                    &&& receipt.block == (BlockCompletion { id, result: completion.result })
                    &&& receipt.direct@ == reported(
                        leases_of(old(self)@.direct, id),
                        completion.result,
                    )
                    &&& receipt.page@ == old(self)@.requests_of(id).map_values(
                        |request: PageIoRequest|
                            BlockPageCompletion { request, result: completion.result },
                    )
                    &&& final(self)@ == (BlockView {
                        tags: old(self)@.tags.remove(completion.tag.0),
                        direct: old(self)@.direct.remove(id.0),
                        pages: old(self)@.pages.remove(id.0),
                        ..old(self)@
                    })
                },
                Err(error) => {
                    &&& !old(self)@.tags.contains_key(completion.tag.0)
                    &&& error == UnknownTag(completion.tag)
                    &&& final(self)@ == old(self)@
                },
            },
    {
        let ghost before = self@;
        proof {
            self.tags.lemma_len();
        }
        let id = match self.tags.remove(completion.tag.0) {
            Some(id) => id,
            None => {
                assert(before.tags.remove(completion.tag.0) =~= before.tags);
                return Err(UnknownTag(completion.tag));
            },
        };
        let block = BlockCompletion { id, result: completion.result };
        let direct = self.direct_tracker.complete(block);
        let requests: Vec<PageIoRequest> = match self.tracker.remove(id.0) {
            Some(requests) => requests,
            None => Vec::new(),
        };
        assert(requests@ =~= before.requests_of(id));
        let mut page: Vec<BlockPageCompletion> = Vec::new();
        let ghost ends = |request: PageIoRequest|
            BlockPageCompletion { request, result: completion.result };
        let mut i: usize = 0;
        while i < requests.len()
            invariant
                i <= requests@.len(),
                ends == (|request: PageIoRequest|
                    BlockPageCompletion { request, result: completion.result }),
                page@ == requests@.take(i as int).map_values(ends),
            decreases requests@.len() - i,
        {
            page.push(BlockPageCompletion { request: requests[i], result: completion.result });
            i += 1;
            assert(page@ =~= requests@.take(i as int).map_values(ends));
        }
        proof {
            assert(requests@.take(i as int) =~= requests@);
            assert(self@.pages =~= before.pages.remove(id.0));
        }
        Ok(BlockManagerCompletionReceipt { block, page, direct })
    }

    /// Dispatch up to `budget` transfers, in order, as far as tags are free.
    pub fn drive(&mut self, budget: usize) -> (driven: BlockManagerDriven)
        requires
            old(self).wf(),
            old(self)@.next_tag + budget <= u64::MAX,
        ensures
            final(self).wf(),
            ({
                let count = old(self)@.dispatch_count(budget);
                &&& driven.dispatches@ == Seq::new(count, |i: int| old(self)@.dispatch(i))
                &&& final(self)@ == old(self)@.dispatched(count)
                &&& driven.next == final(self)@.announced_step()
            }),
    {
        let ghost before = self@;
        let used: usize = self.tags.len();
        let free: usize = if used < self.depth {
            self.depth - used
        } else {
            0
        };
        let room: usize = if budget <= free {
            budget
        } else {
            free
        };
        let mut dispatches: Vec<BlockDispatch> = Vec::new();
        let mut count: usize = 0;
        while count < room && self.queue.len() > 0 && !self.queue[0].blocked
            invariant
                count <= room,
                room <= budget,
                before.next_tag + budget <= u64::MAX,
                self.wf(),
                self@ == before.dispatched(count as nat),
                self@.queue == before.queue.skip(count as int),
                self@.next_tag == before.next_tag + count,
                self.tags@.len() == used + count,
                self.depth == before.depth,
                used <= self.depth,
                room <= self.depth - used,
                count <= before.queue.len(),
                forall|i: int| 0 <= i < count ==> !(#[trigger] before.queue[i]).blocked,
                dispatches@ == Seq::new(count as nat, |i: int| before.dispatch(i)),
            decreases room - count,
        {
            assert(self.queue@[0] == before.queue[count as int]);
            let bio = self.queue.remove(0);
            let tag: u64 = self.next_tag;
            proof {
                self.tags.lemma_len();
            }
            self.next_tag = tag + 1;
            let _previous = self.tags.insert(tag, bio.id);
            dispatches.push(BlockDispatch { tag: BlockTag(tag), id: bio.id, plan: bio.plan });
            count += 1;
            proof {
                assert(self@.queue =~= before.queue.skip(count as int));
                assert(before.queue.skip(count - 1).skip(1) =~= before.queue.skip(count as int));
                assert(self@ =~= before.dispatched(count as nat));
                assert(dispatches@ =~= Seq::new(count as nat, |i: int| before.dispatch(i)));
            }
        }
        proof {
            lemma_dispatchable(before.queue, room as nat);
            lemma_dispatch_stops(before.queue, room as nat, count as nat);
        }
        let next = if self.can_dispatch_next() {
            BlockServiceNext::Runnable
        } else if self.queue.len() == 0 {
            BlockServiceNext::Sleeping
        } else {
            BlockServiceNext::WaitingForCompletion
        };
        BlockManagerDriven { dispatches, next }
    }
}

proof fn lemma_submit_stops(
    view: BlockView,
    plans: Seq<BioPlan>,
    merges: Seq<Option<MergedBio>>,
    at: nat,
    count: nat,
)
    requires
        at <= count,
        view.submit_all(plans, merges, at).failure is Some,
    ensures
        view.submit_all(plans, merges, count) == view.submit_all(plans, merges, at),
    decreases count,
{
    if at < count {
        lemma_submit_stops(view, plans, merges, at, (count - 1) as nat);
    }
}

/// Transfers take no more identities than there are transfers.
pub proof fn lemma_submit_bound(
    view: BlockView,
    plans: Seq<BioPlan>,
    merges: Seq<Option<MergedBio>>,
    count: nat,
)
    requires
        view.next_id + count <= u64::MAX,
    ensures
        view.submit_all(plans, merges, count).view.next_id <= view.next_id + count,
        view.submit_all(plans, merges, count).submitted.len() <= count,
    decreases count,
{
    if count > 0 {
        lemma_submit_bound(view, plans, merges, (count - 1) as nat);
    }
}

proof fn lemma_dispatch_stops(queue: Seq<QueuedBio>, room: nat, count: nat)
    requires
        count <= room,
        count <= queue.len(),
        forall|i: int| 0 <= i < count ==> !(#[trigger] queue[i]).blocked,
        count == room || count == queue.len() || queue[count as int].blocked,
    ensures
        dispatchable(queue, room) == count,
{
    lemma_dispatchable(queue, room);
    let found = dispatchable(queue, room);
    if found < count {
        assert(!queue[found as int].blocked);
    }
    if found > count {
        assert(!queue[count as int].blocked);
    }
}

/// A completion reaches its owners once: its tag and its routes are gone when
/// the owners are told, and a second completion under the tag finds nothing.
pub proof fn law_completion_routes_are_removed_first(before: BlockView, tag: BlockTag)
    requires
        before.tags.contains_key(tag.0),
    ensures
        ({
            let id = before.tags[tag.0];
            let after = BlockView {
                tags: before.tags.remove(tag.0),
                direct: before.direct.remove(id.0),
                pages: before.pages.remove(id.0),
                ..before
            };
            &&& !after.tags.contains_key(tag.0)
            &&& leases_of(after.direct, id) == Seq::<IoDataLeaseId>::empty()
            &&& after.requests_of(id) == Seq::<PageIoRequest>::empty()
        }),
{
}

/// Whether a waiting transfer with identity `id` is held back, so that no turn
/// dispatches it.
pub open spec fn held_back(view: BlockView, id: BlockRequestId) -> bool {
    exists|i: int|
        0 <= i < view.queue.len() && (#[trigger] view.queue[i]).id == id && view.queue[i].blocked
}

proof fn lemma_held_back(
    before: BlockView,
    plans: Seq<BioPlan>,
    merges: Seq<Option<MergedBio>>,
    count: nat,
    j: int,
)
    requires
        0 <= j < before.submit_all(plans, merges, count).submitted.len(),
    ensures
        ({
            let all = before.submit_all(plans, merges, count);
            held_back(all.view, all.submitted[j].request())
        }),
    decreases count,
{
    let all = before.submit_all(plans, merges, count);
    let prior = before.submit_all(plans, merges, (count - 1) as nat);
    if prior.failure is None && all.failure is None {
        let plan = plans[count - 1];
        let merged = merge_of(merges, count - 1);
        if let Some(merged) = merged {
            lemma_waiting(prior.view.queue, merged.id, 0);
        }
        if j < prior.submitted.len() {
            lemma_held_back(before, plans, merges, (count - 1) as nat, j);
            let id = all.submitted[j].request();
            let i = choose|i: int|
                0 <= i < prior.view.queue.len() && (#[trigger] prior.view.queue[i]).id == id
                    && prior.view.queue[i].blocked;
            assert(all.view.queue[i].id == id && all.view.queue[i].blocked);
        } else {
            match prior.view.joins(merged) {
                Some(at) => {
                    assert(all.view.queue[at as int].blocked);
                },
                None => {
                    assert(all.view.queue[prior.view.queue.len() as int].blocked);
                },
            }
        }
    } else {
        lemma_held_back(before, plans, merges, (count - 1) as nat, j);
    }
}

/// Transfers that were queued for a page request are held back until their
/// routes are recorded, those merged with others too: however much room there
/// is, a turn does not reach them.
pub proof fn law_unrecorded_transfers_are_held_back(
    before: BlockView,
    plans: Seq<BioPlan>,
    merges: Seq<Option<MergedBio>>,
    j: int,
    budget: usize,
)
    requires
        0 <= j < before.submit_all(plans, merges, plans.len()).submitted.len(),
    ensures
        ({
            let all = before.submit_all(plans, merges, plans.len());
            exists|i: int|
                {
                    &&& all.view.dispatch_count(budget) <= i < all.view.queue.len()
                    &&& (#[trigger] all.view.queue[i]).id == all.submitted[j].request()
                    &&& all.view.queue[i].blocked
                }
        }),
{
    let all = before.submit_all(plans, merges, plans.len());
    lemma_held_back(before, plans, merges, plans.len(), j);
    let free: nat = if all.view.tags.len() < all.view.depth {
        (all.view.depth - all.view.tags.len()) as nat
    } else {
        0
    };
    let room: nat = if budget as nat <= free {
        budget as nat
    } else {
        free
    };
    lemma_dispatchable(all.view.queue, room);
    let i = choose|i: int|
        0 <= i < all.view.queue.len() && (#[trigger] all.view.queue[i]).id
            == all.submitted[j].request() && all.view.queue[i].blocked;
    assert(all.view.dispatch_count(budget) <= i);
}

/// Recording an outcome frees every transfer that it names.
pub proof fn law_recorded_transfers_can_go(before: BlockView, outcome: BackendSubmitOutcome, i: int, j: int)
    requires
        0 <= i < before.queue.len(),
        0 <= j < outcome.queued().len(),
        outcome.queued()[j].request() == before.queue[i].id,
    ensures
        !before.recorded(outcome).queue[i].blocked,
        before.recorded(outcome).queue[i].id == before.queue[i].id,
{
}

/// A merged transfer is one request with the transfer that it joined: the end of
/// that request reaches the owners of both.
pub proof fn law_merged_transfers_end_together(
    before: BlockView,
    plan: BioPlan,
    merged: MergedBio,
    lease: IoDataLeaseId,
    owner: IoDataLeaseId,
)
    requires
        before.submission(plan, Some(merged)) == Ok::<SubmitOutcome, QueueError>(
            SubmitOutcome::Merged(merged.id),
        ),
        leases_of(before.direct, merged.id).contains(owner),
    ensures
        ({
            let after = before.with_bio(plan, Some(merged), false).with_direct_route(
                lease,
                merged.id,
            );
            &&& leases_of(after.direct, merged.id).contains(owner)
            &&& leases_of(after.direct, merged.id).contains(lease)
            &&& after.queue.len() == before.queue.len()
            &&& after.next_id == before.next_id
        }),
{
    let known = leases_of(before.direct, merged.id);
    let at = known.index_of(owner);
    if !known.contains(lease) {
        assert(known.push(lease)[at] == owner);
        assert(known.push(lease)[known.len() as int] == lease);
    }
    lemma_waiting(before.queue, merged.id, 0);
}

} // verus!
