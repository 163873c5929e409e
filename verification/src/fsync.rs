//! One fsync invocation: a frontier captured once, writeback until everything
//! in it is written, then the durability request.

use crate::container::{holds_dirt, ContainerView, PageContainer};
use crate::frame::Grant;
use crate::fsync_submission::FsyncSubmissionState;
use crate::ids::{Errno, PageGeneration, PageIndex, PageIoRequestId};
use crate::lease::PayloadView;
use crate::slot::PageSlotState;
use crate::sparse_index::ascending;
use crate::writeback::{lemma_run_end, run_end, FileFsyncFrontier, FileFsyncFrontierAdvance};
use vstd::prelude::*;

verus! {

/// Fsync state that survives yields without borrowing the container.
#[derive(Debug)]
pub struct FileFsyncState {
    pub frontier: Option<FileFsyncFrontier>,
    pub request: Option<PageIoRequestId>,
    pub backend_result: Option<Result<(), Errno>>,
}

/// Fsync state as a value.
#[verifier::ext_equal]
pub struct FsyncStateView {
    pub frontier: Option<Seq<(PageIndex, PageGeneration)>>,
    pub request: Option<PageIoRequestId>,
    pub backend_result: Option<Result<(), Errno>>,
}

impl View for FileFsyncState {
    type V = FsyncStateView;

    open spec fn view(&self) -> FsyncStateView {
        FsyncStateView {
            frontier: match self.frontier {
                Some(frontier) => Some(frontier@),
                None => None,
            },
            request: self.request,
            backend_result: self.backend_result,
        }
    }
}

/// The advance of an fsync whose durability request ended with `result`.
pub open spec fn finished(result: Result<(), Errno>) -> Result<FileFsyncFrontierAdvance, Errno> {
    match result {
        Ok(()) => Ok(FileFsyncFrontierAdvance::Complete),
        Err(errno) => Err(errno),
    }
}

fn finish(result: Result<(), Errno>) -> (advance: Result<FileFsyncFrontierAdvance, Errno>)
    ensures
        advance == finished(result),
{
    match result {
        Ok(()) => Ok(FileFsyncFrontierAdvance::Complete),
        Err(errno) => Err(errno),
    }
}

impl FsyncStateView {
    pub open spec fn fresh() -> Self {
        FsyncStateView { frontier: None, request: None, backend_result: None }
    }

    /// The frontier, captured from `pc` if it has not been yet.
    pub open spec fn frontier_in(self, pc: ContainerView) -> Seq<(PageIndex, PageGeneration)> {
        match self.frontier {
            Some(frontier) => frontier,
            None => pc.fsync_frontier(),
        }
    }

    /// Outcome of one step of the fsync on `pc`.
    pub open spec fn advance(
        self,
        pc: ContainerView,
        batch_pins: Seq<Grant>,
        page_pins: Seq<Grant>,
    ) -> (Self, ContainerView, Result<FileFsyncFrontierAdvance, Errno>) {
        match self.backend_result {
            Some(result) => (self, pc, finished(result)),
            None => {
                let frontier = self.frontier_in(pc);
                let held = FsyncStateView { frontier: Some(frontier), ..self };
                let (after, advance) = pc.advance_frontier(frontier, batch_pins, page_pins);
                match advance {
                    FileFsyncFrontierAdvance::Error(errno) => (held, after, Err(errno)),
                    FileFsyncFrontierAdvance::Complete => match self.request {
                        None => (held, after, Ok(advance)),
                        Some(id) => match after.fsync_state(id) {
                            Some(FsyncSubmissionState::Queued) => (
                                held,
                                after,
                                Ok(FileFsyncFrontierAdvance::Waiting),
                            ),
                            Some(FsyncSubmissionState::Complete(result)) => (
                                FsyncStateView {
                                    request: None,
                                    backend_result: Some(result),
                                    ..held
                                },
                                after.take_fsync(id).0,
                                finished(result),
                            ),
                            _ => (held, after, Err(Errno::EIO)),
                        },
                    },
                    _ => (held, after, Ok(advance)),
                }
            },
        }
    }

    /// Outcome of submitting the durability request, once.
    pub open spec fn submit_backend(self, pc: ContainerView) -> (
        Self,
        ContainerView,
        Result<(), Errno>,
    ) {
        if self.request is None && self.backend_result is None {
            match pc.submit_fsync() {
                (after, Some(id)) => (FsyncStateView { request: Some(id), ..self }, after, Ok(())),
                (after, None) => (self, after, Err(Errno::EIO)),
            }
        } else {
            (self, pc, Ok(()))
        }
    }
}

impl FileFsyncState {
    pub fn new() -> (state: Self)
        ensures
            state@ == FsyncStateView::fresh(),
    {
        FileFsyncState { frontier: None, request: None, backend_result: None }
    }

    pub fn from_frontier(frontier: FileFsyncFrontier) -> (state: Self)
        ensures
            state@ == (FsyncStateView { frontier: Some(frontier@), ..FsyncStateView::fresh() }),
    {
        FileFsyncState { frontier: Some(frontier), request: None, backend_result: None }
    }

    pub fn frontier(&self) -> (frontier: Option<&FileFsyncFrontier>)
        ensures
            match frontier {
                Some(frontier) => self@.frontier == Some(frontier@),
                None => self@.frontier is None,
            },
    {
        self.frontier.as_ref()
    }

    /// Take one step. The first one captures the frontier, which needs a file.
    pub fn advance(
        &mut self,
        pc: &mut PageContainer,
        batch_pins: &Vec<Grant>,
        page_pins: &Vec<Grant>,
    ) -> (r: Result<FileFsyncFrontierAdvance, Errno>)
        requires
            old(pc).wf(),
            old(self)@.frontier is None && old(self)@.backend_result is None ==> old(pc)@.kind is File,
        ensures
            final(pc).wf(),
            (final(self)@, final(pc)@, r) == old(self)@.advance(
                old(pc)@,
                batch_pins@,
                page_pins@,
            ),
    {
        match self.backend_result {
            Some(result) => {
                return finish(result);
            },
            None => {},
        }
        let held = match self.frontier.take() {
            Some(frontier) => frontier,
            None => match pc.snapshot_file_fsync_frontier() {
                Some(frontier) => frontier,
                None => FileFsyncFrontier::empty(),
            },
        };
        let advance = pc.advance_file_fsync_frontier(&held, batch_pins, page_pins);
        self.frontier = Some(held);
        match advance {
            FileFsyncFrontierAdvance::Error(errno) => Err(errno),
            FileFsyncFrontierAdvance::Complete => match self.request {
                None => Ok(advance),
                Some(id) => match pc.file_fsync_submission_state(id) {
                    Some(FsyncSubmissionState::Queued) => Ok(FileFsyncFrontierAdvance::Waiting),
                    Some(FsyncSubmissionState::Complete(_)) => {
                        match pc.take_file_fsync_submission(id) {
                            Some(result) => {
                                self.request = None;
                                self.backend_result = Some(result);
                                finish(result)
                            },
                            None => Err(Errno::EIO),
                        }
                    },
                    _ => Err(Errno::EIO),
                },
            },
            _ => Ok(advance),
        }
    }

    /// Submit the durability request, unless that has been done.
    pub fn submit_backend_fsync(&mut self, pc: &mut PageContainer) -> (r: Result<(), Errno>)
        requires
            old(pc).wf(),
        ensures
            final(pc).wf(),
            (final(self)@, final(pc)@, r) == old(self)@.submit_backend(old(pc)@),
    {
        if self.request.is_none() && self.backend_result.is_none() {
            match pc.submit_file_fsync() {
                Some(id) => {
                    self.request = Some(id);
                },
                None => {
                    return Err(Errno::EIO);
                },
            }
        }
        Ok(())
    }

    pub fn backend_finished(&self) -> (finished: bool)
        ensures
            finished == (self@.backend_result is Some),
    {
        self.backend_result.is_some()
    }
}

impl Default for FileFsyncState {
    fn default() -> (state: Self)
        ensures
            state@ == FsyncStateView::fresh(),
    {
        FileFsyncState::new()
    }
}

/// An fsync's view of a container: the versions captured at entry.
#[derive(Debug)]
pub struct FileFsyncSession {
    pub frontier: FileFsyncFrontier,
}

impl FileFsyncSession {
    pub fn frontier(&self) -> (frontier: &FileFsyncFrontier)
        ensures
            *frontier == self.frontier,
    {
        &self.frontier
    }

    /// Submit or observe writeback of the versions captured at entry.
    pub fn advance(
        &self,
        pc: &mut PageContainer,
        batch_pins: &Vec<Grant>,
        page_pins: &Vec<Grant>,
    ) -> (advance: FileFsyncFrontierAdvance)
        requires
            old(pc).wf(),
        ensures
            final(pc).wf(),
            (final(pc)@, advance) == old(pc)@.advance_frontier(
                self.frontier@,
                batch_pins@,
                page_pins@,
            ),
    {
        pc.advance_file_fsync_frontier(&self.frontier, batch_pins, page_pins)
    }
}

impl PageContainer {
    /// Start an fsync of a file with the versions that are unsaved now.
    pub fn begin_file_fsync_session(&self) -> (session: Option<FileFsyncSession>)
        requires
            self.wf(),
        ensures
            match session {
                Some(session) => self@.kind is File && session.frontier@ == self@.fsync_frontier(),
                None => self@.kind !is File,
            },
    {
        match self.snapshot_file_fsync_frontier() {
            Some(frontier) => Some(FileFsyncSession { frontier }),
            None => None,
        }
    }
}

/// A frontier captures every page whose contents are not on the backing store,
/// at its current version, and nothing else.
pub proof fn law_frontier_captures_every_unsaved_page(
    pc: PageContainer,
    page: PageIndex,
    generation: PageGeneration,
)
    requires
        pc.wf(),
    ensures
        pc@.fsync_frontier().contains((page, generation)) <==> holds_dirt(pc@.slot(page))
            && generation == pc@.slot(page).generation,
{
    let set = pc@.unsaved_pages();
    let order = pc.page_slots.order();
    pc.page_slots.lemma_order();
    crate::sparse_index::lemma_picked(order, set);
    let keys = ascending(set);
    let frontier = pc@.fsync_frontier();
    let item = (page, generation);
    if frontier.contains(item) {
        let i = frontier.index_of(item);
        assert(frontier[i] == item);
        assert(keys.contains(keys[i]));
        assert(keys[i] == page.0);
    }
    if holds_dirt(pc@.slot(page)) && generation == pc@.slot(page).generation {
        assert(set.contains(page.0));
        assert(keys.contains(page.0));
        let i = keys.index_of(page.0);
        assert(frontier[i] == item);
    }
}

proof fn lemma_singles_answer(
    view: ContainerView,
    candidates: Seq<PageIndex>,
    pins: Seq<Grant>,
    start: nat,
    end: nat,
)
    requires
        start < end,
    ensures
        view.queue_singles(candidates, pins, start, end).admitted > 0 || view.queue_singles(
            candidates,
            pins,
            start,
            end,
        ).refused,
{
}

/// Candidates are answered: some page is admitted, or some page is refused.
proof fn lemma_runs_answer(
    view: ContainerView,
    candidates: Seq<PageIndex>,
    batch_pins: Seq<Grant>,
    page_pins: Seq<Grant>,
)
    requires
        candidates.len() > 0,
    ensures
        view.queue_runs(candidates, batch_pins, page_pins, 0).admitted > 0 || view.queue_runs(
            candidates,
            batch_pins,
            page_pins,
            0,
        ).refused,
{
    lemma_run_end(candidates, 0, 1);
    let end = run_end(candidates, 0, 1);
    let (after, id) = view.queue_batch(candidates.subrange(0, end as int), batch_pins, 0);
    if id is None {
        lemma_singles_answer(after, candidates, page_pins, 0, end);
    }
}

proof fn lemma_needs_empty(
    view: ContainerView,
    pages: Seq<(PageIndex, PageGeneration)>,
    i: int,
)
    requires
        view.frontier_needs(pages).len() == 0,
        0 <= i < pages.len(),
    ensures
        view.frontier_status(pages[i]) !is NeedsWriteback,
    decreases pages.len(),
{
    if i < pages.len() - 1 {
        lemma_needs_empty(view, pages.drop_last(), i);
        assert(pages.drop_last()[i] == pages[i]);
    }
}

proof fn lemma_no_error(view: ContainerView, pages: Seq<(PageIndex, PageGeneration)>, i: int)
    requires
        view.frontier_error(pages) is None,
        0 <= i < pages.len(),
    ensures
        view.frontier_status(pages[i]) !is Error,
    decreases pages.len(),
{
    if i < pages.len() - 1 {
        lemma_no_error(view, pages.drop_last(), i);
        assert(pages.drop_last()[i] == pages[i]);
    }
}

/// An fsync step is complete only when every captured version is on the backing
/// store: its page is not in writeback, has not failed, and is dirty at most as
/// a later version. It then changes nothing.
pub proof fn law_fsync_completes_only_when_written(
    view: ContainerView,
    frontier: Seq<(PageIndex, PageGeneration)>,
    batch_pins: Seq<Grant>,
    page_pins: Seq<Grant>,
    i: int,
)
    requires
        view.advance_frontier(frontier, batch_pins, page_pins).1 is Complete,
        0 <= i < frontier.len(),
    ensures
        ({
            let slot = view.slot(frontier[i].0);
            &&& slot.state !is Writeback
            &&& slot.state !is Error
            &&& slot.state is Dirty ==> slot.generation.0 > (frontier[i].1).0
        }),
        view.advance_frontier(frontier, batch_pins, page_pins).0 == view,
{
    let needs = view.frontier_needs(frontier);
    if needs.len() > 0 {
        lemma_runs_answer(view, needs, batch_pins, page_pins);
    }
    lemma_needs_empty(view, frontier, i);
    lemma_no_error(view, frontier, i);
    let status = view.frontier_status(frontier[i]);
    assert(!(status is WaitingForWriteback || status is WaitingForEarlierWriteback));
}

/// A write after the capture does not extend the fsync: later steps look at the
/// versions captured first, whatever happens to the container.
pub proof fn law_frontier_is_captured_once(
    state: FsyncStateView,
    first: ContainerView,
    batch_pins: Seq<Grant>,
    page_pins: Seq<Grant>,
    later: ContainerView,
    later_batch_pins: Seq<Grant>,
    later_page_pins: Seq<Grant>,
)
    requires
        state.backend_result is None,
    ensures
        ({
            let once = state.advance(first, batch_pins, page_pins).0;
            let twice = once.advance(later, later_batch_pins, later_page_pins).0;
            &&& once.frontier == Some(state.frontier_in(first))
            &&& twice.frontier == once.frontier
        }),
{
}

/// Admission to writeback is all or nothing: a refused batch of dirty pages
/// leaves the container as it was.
pub proof fn law_refused_writeback_changes_nothing(
    view: ContainerView,
    pages: Seq<PageIndex>,
    pins: Seq<Grant>,
)
    requires
        view.queue_batch(pages, pins, 0).1 is None,
        forall|i: int|
            0 <= i < pages.len() ==> view.slot(#[trigger] pages[i]).state is Dirty
                || !view.writable_back(pages[i]),
    ensures
        view.queue_batch(pages, pins, 0).0 == view,
{
    let after = view.queue_batch(pages, pins, 0).0;
    if view.kind is File && crate::writeback::valid_batch(pages) {
        let held = view.held_pages(pages, pins, 0, pages.len());
        lemma_held_writable(view, pages, pins, pages.len());
        let begun: nat = if held < pages.len() && view.writable_back(pages[held as int]) {
            held + 1
        } else {
            held
        };
        assert forall|k: u64|
            view.slots.contains_key(k) && pages[0].0 <= k < pages[0].0 + begun implies
            view.slots[k].inner.state is Dirty by {
            let i = k - pages[0].0;
            crate::writeback::lemma_contiguous(pages, i);
            assert(pages[i].0 == k);
            assert(view.writable_back(pages[i]));
        }
        assert(after.slots =~= view.slots);
        assert(after =~= view);
    }
}

proof fn lemma_held_writable(
    view: ContainerView,
    pages: Seq<PageIndex>,
    pins: Seq<Grant>,
    count: nat,
)
    requires
        count <= pages.len(),
    ensures
        view.held_pages(pages, pins, 0, count) <= count,
        forall|i: int|
            0 <= i < view.held_pages(pages, pins, 0, count) ==> view.writable_back(
                #[trigger] pages[i],
            ),
    decreases count,
{
    if count > 0 {
        lemma_held_writable(view, pages, pins, (count - 1) as nat);
    }
}

/// An admitted batch is in writeback as a whole, each page at the version that
/// the request's lease names, and the request is pending.
pub proof fn law_admitted_writeback_holds_every_page(
    view: ContainerView,
    pages: Seq<PageIndex>,
    pins: Seq<Grant>,
    i: int,
)
    requires
        view.queue_batch(pages, pins, 0).1 is Some,
        0 <= i < pages.len(),
    ensures
        ({
            let (after, id) = view.queue_batch(pages, pins, 0);
            let generation = view.slot(pages[i]).generation;
            &&& after.slot(pages[i]).state matches PageSlotState::Writeback {
                submitted_generation,
                redirtied,
                ..
            } && submitted_generation == generation && !redirtied
            &&& after.submission.owner(id->Some_0) matches Some(owned)
                && owned.payload matches PayloadView::Writeback { lease }
                && lease.generations[i] == (pages[i], generation)
            &&& after.pages == view.pages
        }),
{
    lemma_held_writable(view, pages, pins, pages.len());
    crate::writeback::lemma_contiguous(pages, i);
    assert(view.writable_back(pages[i]));
}

} // verus!
