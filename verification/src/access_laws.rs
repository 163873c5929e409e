//! What page accesses keep: what was written stays dirty, and what is cached
//! stays cached.

use crate::access_run::{AccessReplies, FetchReplies, NotesView};
use crate::completion::{CompletionAnswers, WritebackEnd};
use crate::container::{ContainerView, FilePageFetchId, MaterializeAccess};
use crate::ids::{Errno, PageGeneration, PageIndex, Ppn};
use crate::io::PageIoRequest;
use crate::lease::{FileIoTerminalResult, PayloadView};
use crate::lifecycle::FsReply;
use crate::page_access::{AccessAnswers, AccessStep};
use crate::planned_fetch::DriveReplies;
use crate::service::{FileBlockSubmissionTarget, ServiceItem};
use crate::slot::{PageSlotSnapshot, PageSlotState};
use crate::step::StepOutcome;
use vstd::prelude::*;

verus! {

/// Whether a slot holds contents that no writeback under way will save.
pub open spec fn unsaved(slot: PageSlotSnapshot) -> bool {
    match slot.state {
        PageSlotState::Dirty { .. } => true,
        PageSlotState::Writeback { redirtied, .. } => redirtied,
        _ => false,
    }
}

impl ContainerView {
    /// Whether `page` is cached with contents that no writeback under way will
    /// save.
    pub open spec fn written_at(self, page: PageIndex) -> bool {
        self.cached(page) && unsaved(self.slot(page))
    }

    /// Whether slots and fetches are as those of a consistent container.
    pub open spec fn serviceable(self) -> bool {
        self.frames_are_cached() && self.fetches_in_order()
    }

    /// Whether only cached pages are published.
    pub open spec fn publishes_cached_pages(self) -> bool {
        forall|k: u64| #[trigger] self.root.contains_key(k) ==> self.pages.contains_key(k)
    }

    /// Whether what `before` had written or cached of `page` is so here too.
    pub open spec fn keeps(self, before: Self, page: PageIndex) -> bool {
        &&& before.publishes_cached_pages() ==> self.publishes_cached_pages()
        &&& before.written_at(page) ==> self.written_at(page)
        &&& before.cached(page) ==> self.cached(page)
    }
}

proof fn lemma_end_writeback_keeps(
    view: ContainerView,
    generations: Seq<(PageIndex, PageGeneration)>,
    end: WritebackEnd,
    count: nat,
    page: PageIndex,
)
    requires
        view.serviceable(),
    ensures
        ({
            let after = view.end_writeback(generations, end, count).view;
            &&& after.serviceable()
            &&& after.keeps(view, page)
        }),
    decreases count,
{
    if count > 0 {
        lemma_end_writeback_keeps(view, generations, end, (count - 1) as nat, page);
    }
}

proof fn lemma_finish_keeps(
    view: ContainerView,
    request: PageIoRequest,
    terminal: FileIoTerminalResult,
    answers: CompletionAnswers,
    page: PageIndex,
)
    requires
        view.serviceable(),
    ensures
        ({
            let after = view.finish_request(request, terminal, answers).0;
            &&& after.serviceable()
            &&& after.keeps(view, page)
        }),
{
    let taken = view.without_request(request.id);
    if let Some(owner) = view.submission.owner(request.id) {
        if let PayloadView::Writeback { lease } = owner.payload {
            lemma_end_writeback_keeps(
                taken,
                lease.generations,
                WritebackEnd::Abort,
                lease.generations.len(),
                page,
            );
            if let FileIoTerminalResult::Completion { result, .. } = terminal {
                lemma_end_writeback_keeps(
                    taken,
                    lease.generations,
                    WritebackEnd::Complete(result.result()),
                    lease.generations.len(),
                    page,
                );
            }
        }
    }
}

proof fn lemma_serve_keeps(
    view: ContainerView,
    item: ServiceItem,
    target: FileBlockSubmissionTarget,
    page: PageIndex,
)
    requires
        view.serviceable(),
    ensures
        ({
            let after = view.serve(item, target).0;
            &&& after.serviceable()
            &&& after.keeps(view, page)
        }),
{
    match item {
        ServiceItem::Completion { route, answers } => {
            if let Some(owner) = view.submission.owner(route.completion.id) {
                lemma_finish_keeps(
                    view,
                    owner.request,
                    FileIoTerminalResult::SubmitFailure,
                    answers,
                    page,
                );
                lemma_finish_keeps(
                    view,
                    owner.request,
                    FileIoTerminalResult::Completion {
                        result: route.completion.result,
                        kind: route.completion.kind,
                        generation: route.completion.generation,
                        frame: route.frame,
                        notify_waiters: route.has_waiters,
                    },
                    answers,
                    page,
                );
            }
        },
        ServiceItem::Submission { request, reply, answers } => {
            lemma_finish_keeps(
                view.with_plan(reply, target),
                request,
                FileIoTerminalResult::SubmitFailure,
                answers,
                page,
            );
        },
    }
}

/// A turn of the page service takes nothing that was written, or cached, away.
pub proof fn lemma_served_keeps(
    view: ContainerView,
    items: Seq<ServiceItem>,
    target: FileBlockSubmissionTarget,
    count: nat,
    page: PageIndex,
)
    requires
        view.serviceable(),
        count <= items.len(),
    ensures
        ({
            let after = view.served(items, target, count);
            &&& after.serviceable()
            &&& after.keeps(view, page)
        }),
    decreases count,
{
    if count > 0 {
        let done = (count - 1) as nat;
        lemma_served_keeps(view, items, target, done, page);
        lemma_serve_keeps(view.served(items, target, done), items[done as int], target, page);
    }
}

proof fn lemma_file_start_keeps(
    view: ContainerView,
    page: PageIndex,
    access: MaterializeAccess,
    answers: AccessAnswers,
    other: PageIndex,
)
    requires
        view.serviceable(),
    ensures
        ({
            let (begun, turn) = view.access_file_page(page, access, answers);
            &&& begun.kind == view.kind
            &&& begun.serviceable()
            &&& begun.keeps(view, other)
            &&& turn.step matches AccessStep::Finished(StepOutcome::Done(_)) ==> (
            view.publishes_cached_pages() ==> begun.cached(page)) && (access is Write
                && view.kind !is Device ==> begun.written_at(page))
            &&& turn.step is Drive ==> view.planned()
            &&& turn.step is Fetch ==> !begun.cached(page)
        }),
{
}

proof fn lemma_prepared_keeps(
    view: ContainerView,
    page: PageIndex,
    access: MaterializeAccess,
    prepared: FsReply,
    answers: AccessAnswers,
    other: PageIndex,
)
    requires
        view.serviceable(),
    ensures
        ({
            let (begun, turn) = view.access_prepared(page, access, prepared, answers);
            &&& begun.kind == view.kind
            &&& begun.serviceable()
            &&& begun.keeps(view, other)
            &&& turn.step matches AccessStep::Finished(StepOutcome::Done(_)) ==> (
            view.publishes_cached_pages() ==> begun.cached(page)) && (access is Write
                && view.kind !is Device ==> begun.written_at(page))
            &&& turn.step is Drive ==> view.planned()
            &&& turn.step is Fetch ==> !begun.cached(page)
        }),
{
    lemma_file_start_keeps(view, page, access, answers, other);
}

proof fn lemma_start_keeps(
    view: ContainerView,
    page: PageIndex,
    access: MaterializeAccess,
    answers: AccessAnswers,
    other: PageIndex,
)
    requires
        view.serviceable(),
    ensures
        ({
            let (begun, turn) = view.access_page(page, access, answers);
            &&& begun.kind == view.kind
            &&& begun.serviceable()
            &&& begun.keeps(view, other)
            &&& turn.step matches AccessStep::Finished(StepOutcome::Done(_)) ==> (
            view.publishes_cached_pages() ==> begun.cached(page)) && (access is Write
                && view.kind !is Device ==> begun.written_at(page))
            &&& turn.step is Drive ==> view.planned()
            &&& turn.step is Fetch ==> !begun.cached(page)
        }),
{
    lemma_file_start_keeps(view, page, access, answers, other);
}

proof fn lemma_fetched_keeps(
    view: ContainerView,
    page: PageIndex,
    access: MaterializeAccess,
    fetch: FilePageFetchId,
    replies: FetchReplies,
    other: PageIndex,
)
    requires
        view.serviceable(),
        !view.cached(page),
    ensures
        ({
            let (after, outcome, _) = view.access_fetched(
                page,
                access,
                fetch,
                replies.fetched,
                replies.pinned,
                replies.released,
                replies.pins,
                replies.retire,
            );
            &&& after.serviceable()
            &&& after.keeps(view, other)
            &&& outcome is Done ==> after.cached(page) && (access is Write && view.kind !is Device
                ==> after.written_at(page))
        }),
{
}

proof fn lemma_planned_keeps(
    view: ContainerView,
    page: PageIndex,
    access: MaterializeAccess,
    fetch: FilePageFetchId,
    replies: DriveReplies,
    other: PageIndex,
)
    requires
        view.planned(),
        view.serviceable(),
    ensures
        ({
            let (after, turn) = view.access_planned(page, access, fetch, replies);
            &&& after.planned()
            &&& after.serviceable()
            &&& after.keeps(view, other)
            &&& turn.step is Fetch ==> !after.cached(page)
            &&& turn.step matches AccessStep::Finished(StepOutcome::Done(_)) ==> after.cached(page)
                && (access is Write ==> after.written_at(page))
        }),
{
    let target = FileBlockSubmissionTarget::Owned;
    let first = replies.first.items@;
    let second = replies.second.items@;
    crate::service::lemma_served_bound(view, first, target, first.len());
    lemma_served_keeps(view, first, target, first.len(), other);
    let once = view.turned(replies.first);
    crate::service::lemma_served_bound(once, second, target, second.len());
    lemma_served_keeps(once, second, target, second.len(), other);
    let driven = view.drive_fetch(view.fetch_request(page), replies.first, replies.second);
    lemma_driven_keeps(driven.view, page, access, fetch, driven.failed, driven.waits, replies, other);
}

proof fn lemma_driven_keeps(
    view: ContainerView,
    page: PageIndex,
    access: MaterializeAccess,
    fetch: FilePageFetchId,
    failed: Option<Errno>,
    waits: bool,
    replies: DriveReplies,
    other: PageIndex,
)
    requires
        view.planned(),
        view.serviceable(),
    ensures
        ({
            let (after, turn) = view.access_driven(
                page,
                access,
                fetch,
                failed,
                waits,
                replies.pins,
                replies.fresh,
            );
            &&& after.planned()
            &&& after.serviceable()
            &&& after.keeps(view, other)
            &&& turn.step is Fetch ==> !after.cached(page)
            &&& turn.step matches AccessStep::Finished(StepOutcome::Done(_)) ==> after.cached(page)
                && (access is Write ==> after.written_at(page))
        }),
{
}

/// An access keeps slots and fetches as they should be, and what was written or
/// cached.
pub proof fn lemma_access_keeps(
    view: ContainerView,
    page: PageIndex,
    access: MaterializeAccess,
    replies: AccessReplies,
    notes: NotesView,
    other: PageIndex,
)
    requires
        view.serviceable(),
    ensures
        ({
            let done = view.access_whole(page, access, replies, notes);
            &&& done.view.serviceable()
            &&& done.view.keeps(view, other)
            &&& done.outcome is Done && view.publishes_cached_pages() ==> done.view.cached(page)
            &&& done.outcome is Done && access is Write && view.kind !is Device
                ==> done.view.written_at(page)
        }),
{
    reveal(ContainerView::access_whole);
    crate::access_run::lemma_access_frame(view, page, access, replies, notes);
    lemma_start_keeps(view, page, access, replies.first, other);
    let (begun, first) = view.access_page(page, access, replies.first);
    lemma_prepared_keeps(
        begun,
        page,
        access,
        replies.prepared,
        replies.after_prepare,
        other,
    );
    let (ready, turn) = if first.step is PrepareWrite {
        begun.access_prepared(page, access, replies.prepared, replies.after_prepare)
    } else {
        (begun, first)
    };
    match turn.step {
        AccessStep::Drive { fetch } => {
            lemma_planned_keeps(ready, page, access, fetch, replies.drive, other);
            let (driven, next) = ready.access_planned(page, access, fetch, replies.drive);
            if let AccessStep::Fetch { fetch, .. } = next.step {
                lemma_fetched_keeps(driven, page, access, fetch, replies.fetch, other);
            }
        },
        AccessStep::Fetch { fetch, .. } => {
            lemma_fetched_keeps(ready, page, access, fetch, replies.fetch, other);
        },
        _ => {},
    }
}

/// A page access that is done leaves its page cached, and dirty if it was for
/// writing; and whatever becomes of it, no page that is cached is given up, and
/// none that was written counts as saved.
pub proof fn law_access_keeps_what_was_written(
    view: ContainerView,
    page: PageIndex,
    access: MaterializeAccess,
    replies: AccessReplies,
    notes: NotesView,
    other: PageIndex,
)
    requires
        view.consistent(),
    ensures
        ({
            let done = view.access_whole(page, access, replies, notes);
            &&& done.view.keeps(view, other)
            &&& done.outcome is Done ==> done.view.cached(page)
            &&& done.outcome is Done && access is Write && view.kind !is Device
                ==> done.view.written_at(page)
        }),
{
    lemma_access_keeps(view, page, access, replies, notes, other);
}

proof fn lemma_reclaim_keeps(
    view: ContainerView,
    candidates: Seq<(PageIndex, Ppn)>,
    retires: Seq<bool>,
    count: nat,
    page: PageIndex,
)
    requires
        view.written_at(page),
    ensures
        view.reclaim_pages(candidates, retires, count).view.written_at(page),
    decreases count,
{
    if count > 0 {
        lemma_reclaim_keeps(view, candidates, retires, (count - 1) as nat, page);
    }
}

/// Reclaim between accesses gives up nothing that was written.
pub proof fn law_reclaim_keeps_what_was_written(
    view: ContainerView,
    budget: usize,
    retires: Seq<bool>,
    page: PageIndex,
)
    requires
        view.written_at(page),
    ensures
        view.reclaim(budget, retires).view.written_at(page),
{
    let candidates = view.reclaim_candidates(budget);
    lemma_reclaim_keeps(view, candidates, retires, candidates.len(), page);
}

} // verus!
