//! A page access from its first step to its outcome.

use crate::container::{ContainerView, FilePageFetchId, MaterializeAccess, PageContainer};
use crate::frame::{Frame, Grant, MaterializedPage, PageCacheError, PageLease};
use crate::ids::{Errno, PageIndex};
use crate::lifecycle::FsReply;
use crate::materialize::{
    lease_materialized_page, leased, materialize_page_now, page_at_once, PinGrants,
};
use crate::page_access::{AccessAnswers, AccessStep, AccessTurn};
use crate::planned_fetch::DriveReplies;
use crate::service::{lemma_served_bound, FileBlockSubmissionTarget, ServiceItemEnd};
use crate::step::{NoProgress, StepOutcome};
use vstd::prelude::*;

verus! {

/// The outcome of one page access.
pub type PageOutcome = StepOutcome<MaterializedPage, NoProgress>;

/// What the outside world answers while a filesystem fetches a page.
#[derive(Debug)]
pub struct FetchReplies {
    pub fetched: StepOutcome<Frame, NoProgress>,
    /// The cache pin of the frame.
    pub pinned: Grant,
    /// The answer to giving back the temporary ownership of the frame.
    pub released: Grant,
    pub pins: PinGrants,
    /// Whether a retire credit for the old root was granted.
    pub retire: bool,
}

/// What the outside world answers in the course of one access. An answer to a
/// question that does not come up is not looked at.
#[derive(Debug)]
pub struct AccessReplies {
    pub first: AccessAnswers,
    /// What the filesystem says to the write being prepared.
    pub prepared: FsReply,
    pub after_prepare: AccessAnswers,
    pub drive: DriveReplies,
    pub fetch: FetchReplies,
}

impl AccessReplies {
    pub open spec fn wf(self) -> bool {
        self.first.wf() && self.after_prepare.wf()
    }

    /// The number of transfers that the access may queue.
    pub open spec fn bios(self) -> nat {
        self.drive.bios()
    }
}

/// What happened outside while an access to a file page stood at a step.
#[derive(Debug)]
pub enum AccessEvent {
    /// The filesystem has answered a prepared write.
    Prepared { reply: FsReply, answers: AccessAnswers },
    /// The page service has run for a planned fetch.
    Driven {
        fetch: FilePageFetchId,
        failed: Option<Errno>,
        waits: bool,
        pins: PinGrants,
        fresh: u64,
    },
    /// The filesystem has answered a fetch.
    Fetched { fetch: FilePageFetchId, replies: FetchReplies },
}

impl AccessEvent {
    pub open spec fn wf(self) -> bool {
        self matches AccessEvent::Prepared { answers, .. } ==> answers.wf()
    }
}

impl ContainerView {
    /// Outcome of the step that follows `event`.
    pub open spec fn access_event(
        self,
        page: PageIndex,
        access: MaterializeAccess,
        event: AccessEvent,
    ) -> (Self, AccessTurn) {
        match event {
            AccessEvent::Prepared { reply, answers } => self.access_prepared(
                page,
                access,
                reply,
                answers,
            ),
            AccessEvent::Driven { fetch, failed, waits, pins, fresh } => self.access_driven(
                page,
                access,
                fetch,
                failed,
                waits,
                pins,
                fresh,
            ),
            AccessEvent::Fetched { fetch, replies } => {
                let (view, outcome, notify) = self.access_fetched(
                    page,
                    access,
                    fetch,
                    replies.fetched,
                    replies.pinned,
                    replies.released,
                    replies.pins,
                    replies.retire,
                );
                (view, AccessTurn { step: AccessStep::Finished(outcome), notify, kick_block: false })
            },
        }
    }
}

/// The transfers that the first `count` accesses may queue.
pub open spec fn replies_bios(replies: Seq<AccessReplies>, count: nat) -> nat
    decreases count,
{
    if count == 0 {
        0
    } else {
        replies_bios(replies, (count - 1) as nat) + replies[count - 1].bios()
    }
}

/// Whether a container can take the accesses that `replies` answer.
pub open spec fn answerable(view: ContainerView, replies: Seq<AccessReplies>) -> bool {
    &&& forall|i: int| 0 <= i < replies.len() ==> (#[trigger] replies[i]).wf()
    &&& view.block.next_id + replies_bios(replies, replies.len()) <= u64::MAX
}

/// Fewer accesses queue no more transfers.
pub proof fn lemma_replies_bios(replies: Seq<AccessReplies>, few: nat, many: nat)
    requires
        few <= many,
    ensures
        replies_bios(replies, few) <= replies_bios(replies, many),
    decreases many,
{
    if few < many {
        lemma_replies_bios(replies, few, (many - 1) as nat);
    }
}

/// What accesses leave for the caller to do.
#[derive(Debug)]
pub struct AccessNotes {
    /// Wait sources to be notified, in order.
    pub notify: Vec<u64>,
    /// The block service has work.
    pub kick_block: bool,
    /// What the turns of the page service came to.
    pub work: Vec<ServiceItemEnd>,
}

/// What accesses leave to be done, as a value.
#[verifier::ext_equal]
pub struct NotesView {
    pub notify: Seq<u64>,
    pub kick_block: bool,
    pub work: Seq<ServiceItemEnd>,
}

impl View for AccessNotes {
    type V = NotesView;

    open spec fn view(&self) -> NotesView {
        NotesView { notify: self.notify@, kick_block: self.kick_block, work: self.work@ }
    }
}

impl NotesView {
    /// Nothing is left to be done.
    pub open spec fn none() -> Self {
        NotesView { notify: Seq::empty(), kick_block: false, work: Seq::empty() }
    }

    pub open spec fn told(self, source: Option<u64>) -> Self {
        match source {
            Some(source) => NotesView { notify: self.notify.push(source), ..self },
            None => self,
        }
    }

    pub open spec fn turned(self, turn: AccessTurn) -> Self {
        NotesView { kick_block: self.kick_block || turn.kick_block, ..self.told(turn.notify) }
    }

    pub open spec fn worked(self, work: Seq<ServiceItemEnd>) -> Self {
        NotesView { work: self.work + work, ..self }
    }
}

impl AccessNotes {
    pub fn new() -> (notes: Self)
        ensures
            notes@ == NotesView::none(),
    {
        let notes = AccessNotes { notify: Vec::new(), kick_block: false, work: Vec::new() };
        assert(notes@ =~= NotesView::none());
        notes
    }

    fn tell(&mut self, source: Option<u64>)
        ensures
            final(self)@ == old(self)@.told(source),
    {
        match source {
            Some(source) => {
                self.notify.push(source);
            },
            None => {},
        }
    }

    /// Take note of one step, and say how the access goes on.
    fn note(&mut self, turn: AccessTurn) -> (step: AccessStep)
        ensures
            final(self)@ == old(self)@.turned(turn),
            step == turn.step,
    {
        self.tell(turn.notify);
        self.kick_block = self.kick_block || turn.kick_block;
        turn.step
    }

    fn work_done(&mut self, work: Vec<ServiceItemEnd>)
        ensures
            final(self)@ == old(self)@.worked(work@),
    {
        let mut work = work;
        self.work.append(&mut work);
    }
}

/// An access at its end.
#[verifier::ext_equal]
pub struct AccessView {
    pub view: ContainerView,
    pub outcome: PageOutcome,
    pub notes: NotesView,
}

impl ContainerView {
    /// The end of an access that stands at `step`: the filesystem fetches the
    /// page, if that is the step.
    pub open spec fn access_last(
        self,
        page: PageIndex,
        access: MaterializeAccess,
        step: AccessStep,
        replies: FetchReplies,
        notes: NotesView,
    ) -> AccessView {
        match step {
            AccessStep::Fetch { fetch, .. } => {
                let (view, outcome, notify) = self.access_fetched(
                    page,
                    access,
                    fetch,
                    replies.fetched,
                    replies.pinned,
                    replies.released,
                    replies.pins,
                    replies.retire,
                );
                AccessView { view, outcome, notes: notes.told(notify) }
            },
            other => AccessView { view: self, outcome: other->Finished_0, notes },
        }
    }

    /// The end of an access that stands at `step`, with its write, if it is
    /// one, prepared: a planner serves the page, if that is the step.
    pub open spec fn access_rest(
        self,
        page: PageIndex,
        access: MaterializeAccess,
        step: AccessStep,
        drive: DriveReplies,
        replies: FetchReplies,
        notes: NotesView,
    ) -> AccessView {
        match step {
            AccessStep::Drive { fetch } => {
                let (view, turn) = self.access_planned(page, access, fetch, drive);
                view.access_last(
                    page,
                    access,
                    turn.step,
                    replies,
                    notes.worked(self.planned_work(page, drive)).turned(turn),
                )
            },
            other => self.access_last(page, access, other, replies, notes),
        }
    }

    /// An access to `page` from its first step to its outcome, with what is
    /// left to be done added to `notes`.
    #[verifier::opaque]
    pub open spec fn access_whole(
        self,
        page: PageIndex,
        access: MaterializeAccess,
        replies: AccessReplies,
        notes: NotesView,
    ) -> AccessView {
        let (begun, first) = self.access_page(page, access, replies.first);
        match first.step {
            AccessStep::PrepareWrite { .. } => {
                let (view, turn) = begun.access_prepared(
                    page,
                    access,
                    replies.prepared,
                    replies.after_prepare,
                );
                view.access_rest(
                    page,
                    access,
                    turn.step,
                    replies.drive,
                    replies.fetch,
                    notes.turned(first).turned(turn),
                )
            },
            other => begun.access_rest(
                page,
                access,
                other,
                replies.drive,
                replies.fetch,
                notes.turned(first),
            ),
        }
    }
}

/// The first steps of an access leave the shape of a container and its block
/// service alone.
proof fn lemma_steps_frame(
    view: ContainerView,
    page: PageIndex,
    access: MaterializeAccess,
    answers: AccessAnswers,
    prepared: FsReply,
)
    ensures
        view.access_page(page, access, answers).0.same_shape(view),
        view.access_page(page, access, answers).0.block == view.block,
        view.access_prepared(page, access, prepared, answers).0.same_shape(view),
        view.access_prepared(page, access, prepared, answers).0.block == view.block,
        view.access_prepared(page, access, prepared, answers).1.step !is PrepareWrite,
        view.kind !is File ==> view.access_page(page, access, answers).1.step is Finished,
{
}

proof fn lemma_fetched_frame(
    view: ContainerView,
    page: PageIndex,
    access: MaterializeAccess,
    fetch: FilePageFetchId,
    replies: FetchReplies,
)
    ensures
        ({
            let after = view.access_fetched(
                page,
                access,
                fetch,
                replies.fetched,
                replies.pinned,
                replies.released,
                replies.pins,
                replies.retire,
            ).0;
            after.same_shape(view) && after.block == view.block
        }),
{
}

proof fn lemma_driven_frame(
    view: ContainerView,
    page: PageIndex,
    access: MaterializeAccess,
    fetch: FilePageFetchId,
    failed: Option<Errno>,
    waits: bool,
    pins: PinGrants,
    fresh: u64,
)
    ensures
        ({
            let (after, turn) = view.access_driven(page, access, fetch, failed, waits, pins, fresh);
            &&& after.same_shape(view)
            &&& after.block == view.block
            &&& turn.step is Finished || turn.step is Fetch
        }),
{
}

proof fn lemma_planned_frame(
    view: ContainerView,
    page: PageIndex,
    access: MaterializeAccess,
    fetch: FilePageFetchId,
    replies: DriveReplies,
)
    ensures
        ({
            let (after, turn) = view.access_planned(page, access, fetch, replies);
            &&& after.same_shape(view)
            &&& view.block.next_id + replies.bios() <= u64::MAX ==> after.block.next_id
                <= view.block.next_id + replies.bios()
            &&& turn.step is Finished || turn.step is Fetch
        }),
{
    let target = FileBlockSubmissionTarget::Owned;
    let first = replies.first.items@;
    let second = replies.second.items@;
    lemma_served_bound(view, first, target, first.len());
    lemma_served_bound(view.turned(replies.first), second, target, second.len());
    assert(first.take(first.len() as int) =~= first);
    assert(second.take(second.len() as int) =~= second);
    let driven = view.drive_fetch(view.fetch_request(page), replies.first, replies.second);
    lemma_driven_frame(
        driven.view,
        page,
        access,
        fetch,
        driven.failed,
        driven.waits,
        replies.pins,
        replies.fresh,
    );
}

/// An access leaves the kind, the size and the number of pages of a container
/// alone, and queues no more transfers than its answers hold.
pub proof fn lemma_access_frame(
    view: ContainerView,
    page: PageIndex,
    access: MaterializeAccess,
    replies: AccessReplies,
    notes: NotesView,
)
    ensures
        ({
            let after = view.access_whole(page, access, replies, notes).view;
            &&& after.same_shape(view)
            &&& view.block.next_id + replies.bios() <= u64::MAX ==> after.block.next_id
                <= view.block.next_id + replies.bios()
        }),
{
    reveal(ContainerView::access_whole);
    lemma_steps_frame(view, page, access, replies.first, replies.prepared);
    let (begun, first) = view.access_page(page, access, replies.first);
    lemma_steps_frame(begun, page, access, replies.after_prepare, replies.prepared);
    let (ready, turn) = if first.step is PrepareWrite {
        begun.access_prepared(page, access, replies.prepared, replies.after_prepare)
    } else {
        (begun, first)
    };
    match turn.step {
        AccessStep::Drive { fetch } => {
            lemma_planned_frame(ready, page, access, fetch, replies.drive);
            let (driven, next) = ready.access_planned(page, access, fetch, replies.drive);
            if let AccessStep::Fetch { fetch, .. } = next.step {
                lemma_fetched_frame(driven, page, access, fetch, replies.fetch);
            }
        },
        AccessStep::Fetch { fetch, .. } => {
            lemma_fetched_frame(ready, page, access, fetch, replies.fetch);
        },
        _ => {},
    }
}

impl PageContainer {
    /// The step of an access to a file page that follows `event`.
    pub fn resume_access(
        &mut self,
        page: PageIndex,
        access: MaterializeAccess,
        event: AccessEvent,
    ) -> (t: AccessTurn)
        requires
            old(self).wf(),
            old(self)@.kind is File,
            event.wf(),
        ensures
            final(self).wf(),
            (final(self)@, t) == old(self)@.access_event(page, access, event),
    {
        match event {
            AccessEvent::Prepared { reply, answers } => self.resume_prepared_write(
                page,
                access,
                reply,
                answers,
            ),
            AccessEvent::Driven { fetch, failed, waits, pins, fresh } => self.resume_driven_fetch(
                page,
                access,
                fetch,
                failed,
                waits,
                pins,
                fresh,
            ),
            AccessEvent::Fetched { fetch, replies } => {
                let (outcome, notify) = self.resume_fetched_page(
                    page,
                    access,
                    fetch,
                    replies.fetched,
                    replies.pinned,
                    replies.released,
                    replies.pins,
                    replies.retire,
                );
                AccessTurn { step: AccessStep::Finished(outcome), notify, kick_block: false }
            },
        }
    }

    fn end_access(
        &mut self,
        page: PageIndex,
        access: MaterializeAccess,
        step: AccessStep,
        replies: FetchReplies,
        notes: &mut AccessNotes,
    ) -> (outcome: PageOutcome)
        requires
            old(self).wf(),
            step is Finished || step is Fetch,
        ensures
            final(self).wf(),
            (AccessView { view: final(self)@, outcome, notes: final(notes)@ }) == old(
                self,
            )@.access_last(page, access, step, replies, old(notes)@),
    {
        match step {
            AccessStep::Finished(outcome) => outcome,
            AccessStep::Fetch { fetch, .. } => {
                let (outcome, notify) = self.resume_fetched_page(
                    page,
                    access,
                    fetch,
                    replies.fetched,
                    replies.pinned,
                    replies.released,
                    replies.pins,
                    replies.retire,
                );
                notes.tell(notify);
                outcome
            },
            _ => StepOutcome::Error(Errno::EIO),
        }
    }

    /// Access `page`, from the first step to the outcome. What is left for the
    /// caller to do is added to `notes`.
    pub fn materialize_page_whole(
        &mut self,
        page: PageIndex,
        access: MaterializeAccess,
        replies: AccessReplies,
        notes: &mut AccessNotes,
    ) -> (outcome: PageOutcome)
        requires
            old(self).wf(),
            replies.wf(),
            old(self)@.block.next_id + replies.bios() <= u64::MAX,
        ensures
            final(self).wf(),
            (AccessView { view: final(self)@, outcome, notes: final(notes)@ }) == old(
                self,
            )@.access_whole(page, access, replies, old(notes)@),
    {
        let ghost before = self@;
        let AccessReplies { first, prepared, after_prepare, drive, fetch: fetch_replies } = replies;
        proof {
            reveal(ContainerView::access_whole);
            lemma_steps_frame(before, page, access, first, prepared);
            lemma_steps_frame(
                before.access_page(page, access, first).0,
                page,
                access,
                after_prepare,
                prepared,
            );
        }
        let turn = self.materialize_page(page, access, first);
        let mut step = notes.note(turn);
        match step {
            AccessStep::PrepareWrite { .. } => {
                let turn = self.resume_prepared_write(page, access, prepared, after_prepare);
                step = notes.note(turn);
            },
            _ => {},
        }
        match step {
            AccessStep::Drive { fetch } => {
                proof {
                    lemma_planned_frame(self@, page, access, fetch, drive);
                }
                let (turn, work) = self.try_materialize_file_page_from_backend_plan(
                    page,
                    access,
                    fetch,
                    drive,
                );
                notes.work_done(work);
                step = notes.note(turn);
            },
            _ => {},
        }
        self.end_access(page, access, step, fetch_replies, notes)
    }

    /// Access `page` for a caller that cannot wait.
    pub fn materialize_page_now(
        &mut self,
        page: PageIndex,
        access: MaterializeAccess,
        replies: AccessReplies,
        notes: &mut AccessNotes,
    ) -> (r: Result<MaterializedPage, PageCacheError>)
        requires
            old(self).wf(),
            replies.wf(),
            old(self)@.block.next_id + replies.bios() <= u64::MAX,
        ensures
            final(self).wf(),
            ({
                let done = old(self)@.access_whole(page, access, replies, old(notes)@);
                &&& final(self)@ == done.view
                &&& final(notes)@ == done.notes
                &&& r == page_at_once(done.outcome)
            }),
    {
        let outcome = self.materialize_page_whole(page, access, replies, notes);
        materialize_page_now(outcome)
    }

    /// Access `page` to resolve a fault that cannot wait.
    pub fn materialize_page_for_fault(
        &mut self,
        page: PageIndex,
        access: MaterializeAccess,
        replies: AccessReplies,
        notes: &mut AccessNotes,
    ) -> (r: Result<MaterializedPage, PageCacheError>)
        requires
            old(self).wf(),
            replies.wf(),
            old(self)@.block.next_id + replies.bios() <= u64::MAX,
        ensures
            final(self).wf(),
            ({
                let done = old(self)@.access_whole(page, access, replies, old(notes)@);
                &&& final(self)@ == done.view
                &&& final(notes)@ == done.notes
                &&& r == page_at_once(done.outcome)
            }),
    {
        self.materialize_page_now(page, access, replies, notes)
    }

    /// Lease `page`: as it is where that can be decided, and else once it has
    /// been materialized for reading. `pinned` answers the cache pin of the
    /// lease.
    pub fn export_page_lease(
        &mut self,
        page: PageIndex,
        replies: AccessReplies,
        notes: &mut AccessNotes,
        pinned: Grant,
    ) -> (lease: StepOutcome<PageLease, NoProgress>)
        requires
            old(self).wf(),
            replies.wf(),
            old(self)@.block.next_id + replies.bios() <= u64::MAX,
        ensures
            final(self).wf(),
            match old(self)@.lease_without_materializing(page, pinned) {
                Some(outcome) => {
                    &&& lease == outcome
                    &&& final(self)@ == old(self)@
                    &&& final(notes)@ == old(notes)@
                },
                None => {
                    let done = old(self)@.access_whole(
                        page,
                        MaterializeAccess::Read,
                        replies,
                        old(notes)@,
                    );
                    &&& lease == leased(done.outcome, pinned)
                    &&& final(self)@ == done.view
                    &&& final(notes)@ == done.notes
                },
            },
    {
        match self.lease_page_at_once(page, pinned) {
            Some(outcome) => outcome,
            None => {
                let outcome = self.materialize_page_whole(
                    page,
                    MaterializeAccess::Read,
                    replies,
                    notes,
                );
                lease_materialized_page(outcome, pinned)
            },
        }
    }
}

} // verus!
