//! Writeback admission and fsync frontiers of a file container.

use crate::container::{
    holds_dirt, ContainerView, PageContainer, MAX_FILE_WRITEBACK_BATCH_PAGES,
};
use crate::frame::{CachePin, Grant, PageLease};
use crate::fsync_submission::{FsyncSubmission, FsyncSubmissionState};
use crate::ids::{Errno, IoDataLeaseId, PageGeneration, PageIndex, PageIoRequestId};
use crate::io::{PageIoFlags, PageIoOp, PageIoPriority, PageIoRange};
use crate::lease::{FileIoPayload, LeaseView, PageDataLease, PayloadView};
use crate::slot::{PageSlot, PageSlotFsyncStatus, PageSlotState};
use crate::sparse_index::{ascending, lemma_picked, picked, SparseMap};
use vstd::prelude::*;

verus! {

/// Whether the `i`-th pin was granted. An answer that is not there is a refusal.
pub open spec fn granted(pins: Seq<Grant>, i: int) -> bool {
    0 <= i < pins.len() && pins[i] is Ok
}

/// Whether every page follows its predecessor.
pub open spec fn contiguous(pages: Seq<PageIndex>) -> bool {
    forall|i: int|
        #![trigger pages[i]]
        0 < i < pages.len() ==> pages[i].0 == pages[i - 1].0 + 1
}

/// Whether `pages` can make up one writeback request.
pub open spec fn valid_batch(pages: Seq<PageIndex>) -> bool {
    0 < pages.len() <= MAX_FILE_WRITEBACK_BATCH_PAGES && contiguous(pages)
}

/// Consecutive pages are determined by the first.
pub proof fn lemma_contiguous(pages: Seq<PageIndex>, i: int)
    requires
        contiguous(pages),
        0 <= i < pages.len(),
    ensures
        pages[i].0 == pages[0].0 + i,
    decreases i,
{
    if i > 0 {
        lemma_contiguous(pages, i - 1);
    }
}

/// What became of a list of writeback candidates.
#[verifier::ext_equal]
pub struct RunsView {
    pub view: ContainerView,
    /// Pages that were admitted.
    pub admitted: nat,
    /// Whether any page was refused.
    pub refused: bool,
}

/// Where the run of consecutive candidates that starts at `start` ends, from
/// `end` on.
pub open spec fn run_end(candidates: Seq<PageIndex>, start: nat, end: nat) -> nat
    decreases candidates.len() - end,
{
    if end < candidates.len() && end - start < MAX_FILE_WRITEBACK_BATCH_PAGES
        && candidates[end as int].0 == saturating_next(candidates[end - 1].0) {
        run_end(candidates, start, end + 1)
    } else {
        end
    }
}

pub open spec fn saturating_next(page: u64) -> u64 {
    if page == u64::MAX {
        u64::MAX
    } else {
        (page + 1) as u64
    }
}

/// A run has at least one member and ends among the candidates.
pub proof fn lemma_run_end(candidates: Seq<PageIndex>, start: nat, end: nat)
    requires
        start < end <= candidates.len(),
        end - start <= MAX_FILE_WRITEBACK_BATCH_PAGES,
    ensures
        end <= run_end(candidates, start, end) <= candidates.len(),
        run_end(candidates, start, end) - start <= MAX_FILE_WRITEBACK_BATCH_PAGES,
    decreases candidates.len() - end,
{
    if end < candidates.len() && end - start < MAX_FILE_WRITEBACK_BATCH_PAGES
        && candidates[end as int].0 == saturating_next(candidates[end - 1].0) {
        lemma_run_end(candidates, start, end + 1);
    }
}

impl ContainerView {
    /// Whether the slot of `page` lets writeback begin.
    pub open spec fn writable_back(self, page: PageIndex) -> bool {
        self.slots.contains_key(page.0) && self.slot(page).writeback_begun() is Ok
    }

    /// How many of the first `count` pages can be held for writeback: their
    /// slots let it begin, they are cached, and their pins were granted.
    pub open spec fn held_pages(
        self,
        pages: Seq<PageIndex>,
        pins: Seq<Grant>,
        offset: nat,
        count: nat,
    ) -> nat
        decreases count,
    {
        if count == 0 {
            0
        } else {
            let before = self.held_pages(pages, pins, offset, (count - 1) as nat);
            let page = pages[count - 1];
            if before == count - 1 && self.writable_back(page) && self.cached(page) && granted(
                pins,
                offset + count - 1,
            ) {
                count
            } else {
                before
            }
        }
    }

    /// With `count` pages from `first` on in writeback.
    pub open spec fn with_writeback(self, first: PageIndex, count: nat) -> Self {
        ContainerView {
            slots: Map::new(
                |k: u64| self.slots.contains_key(k),
                |k: u64|
                    if first.0 <= k < first.0 + count {
                        PageSlot { inner: self.slots[k].inner.writeback_begun()->Ok_0 }
                    } else {
                        self.slots[k]
                    },
            ),
            ..self
        }
    }

    /// With a begun writeback of `count` pages from `first` on undone: the pages
    /// are dirty, as the same versions.
    pub open spec fn rolled_back(self, first: PageIndex, count: nat) -> Self {
        ContainerView {
            slots: Map::new(
                |k: u64| self.slots.contains_key(k),
                |k: u64|
                    if first.0 <= k < first.0 + count {
                        PageSlot {
                            inner: self.slots[k].inner.in_state(
                                PageSlotState::Dirty {
                                    ppn: self.slots[k].inner.state.frame()->Some_0,
                                },
                            ),
                        }
                    } else {
                        self.slots[k]
                    },
            ),
            ..self
        }
    }

    /// What a writeback request of `pages` retains.
    pub open spec fn writeback_lease(self, id: u64, pages: Seq<PageIndex>) -> LeaseView {
        LeaseView {
            id: IoDataLeaseId(id),
            pages: Seq::new(
                pages.len(),
                |i: int| PageLease::allocated(self.pages[pages[i].0].ppn),
            ),
            generations: Seq::new(pages.len(), |i: int| (pages[i], self.slot(pages[i]).generation)),
        }
    }

    /// Outcome of admitting `pages` to writeback as one request: all of them or
    /// none. Page `i` is pinned by answer `offset + i`.
    pub open spec fn queue_batch(self, pages: Seq<PageIndex>, pins: Seq<Grant>, offset: nat) -> (
        Self,
        Option<PageIoRequestId>,
    ) {
        if self.kind !is File || !valid_batch(pages) {
            (self, None)
        } else {
            let held = self.held_pages(pages, pins, offset, pages.len());
            if held < pages.len() {
                let begun: nat = if self.writable_back(pages[held as int]) {
                    held + 1
                } else {
                    held
                };
                (self.rolled_back(pages[0], begun), None)
            } else if !self.submission.admits() {
                (self.rolled_back(pages[0], pages.len()), None)
            } else {
                let request = self.submission.next_request(
                    PageIoRange { start_page: pages[0].0, page_count: pages.len() as u64 },
                    PageIoOp::Writeback,
                    PageIoPriority::BackgroundWriteback,
                    PageIoFlags::Writeback,
                    Some(self.slot(pages[0]).generation),
                );
                (
                    ContainerView {
                        submission: self.submission.with_owner(
                            request,
                            PayloadView::Writeback {
                                lease: self.writeback_lease(request.id.0, pages),
                            },
                        ),
                        ..self.with_writeback(pages[0], pages.len())
                    },
                    Some(request.id),
                )
            }
        }
    }

    /// Outcome of admitting the candidates from `start` to `end` one by one.
    pub open spec fn queue_singles(
        self,
        candidates: Seq<PageIndex>,
        pins: Seq<Grant>,
        start: nat,
        end: nat,
    ) -> RunsView
        decreases end - start,
    {
        if start >= end {
            RunsView { view: self, admitted: 0, refused: false }
        } else {
            let (after, id) = self.queue_batch(seq![candidates[start as int]], pins, start);
            let rest = after.queue_singles(candidates, pins, start + 1, end);
            if id is Some {
                RunsView { admitted: rest.admitted + 1, ..rest }
            } else {
                RunsView { refused: true, ..rest }
            }
        }
    }

    /// Outcome of admitting the candidates from `start` on: run by run, and page
    /// by page where a run is refused.
    pub open spec fn queue_runs(
        self,
        candidates: Seq<PageIndex>,
        batch_pins: Seq<Grant>,
        page_pins: Seq<Grant>,
        start: nat,
    ) -> RunsView
        decreases candidates.len() - start,
    {
        if start >= candidates.len() {
            RunsView { view: self, admitted: 0, refused: false }
        } else {
            let end = run_end(candidates, start, start + 1);
            proof {
                lemma_run_end(candidates, start, start + 1);
            }
            let (after, id) = self.queue_batch(
                candidates.subrange(start as int, end as int),
                batch_pins,
                start,
            );
            if id is Some {
                let rest = after.queue_runs(candidates, batch_pins, page_pins, end);
                RunsView { admitted: rest.admitted + (end - start) as nat, ..rest }
            } else {
                let singles = after.queue_singles(candidates, page_pins, start, end);
                let rest = singles.view.queue_runs(candidates, batch_pins, page_pins, end);
                RunsView {
                    view: rest.view,
                    admitted: singles.admitted + rest.admitted,
                    refused: singles.refused || rest.refused,
                }
            }
        }
    }

    /// Pages whose contents are not on the backing store.
    pub open spec fn unsaved_pages(self) -> Set<u64> {
        Set::new(|k: u64| self.slots.contains_key(k) && holds_dirt(self.slots[k].inner))
    }

    /// Dirty pages that no writeback has picked up.
    pub open spec fn dirty_pages(self) -> Set<u64> {
        Set::new(|k: u64| self.slots.contains_key(k) && self.slots[k].inner.state is Dirty)
    }

    /// The versions that an fsync issued now has to see written.
    pub open spec fn fsync_frontier(self) -> Seq<(PageIndex, PageGeneration)> {
        ascending(self.unsaved_pages()).map_values(
            |k: u64| (PageIndex(k), self.slots[k].inner.generation),
        )
    }

    /// Where a captured version stands.
    pub open spec fn frontier_status(self, captured: (PageIndex, PageGeneration)) -> PageSlotFsyncStatus {
        self.slot(captured.0).fsync_status(captured.1)
    }

    /// The first failure among the captured versions.
    pub open spec fn frontier_error(self, pages: Seq<(PageIndex, PageGeneration)>) -> Option<Errno>
        decreases pages.len(),
    {
        if pages.len() == 0 {
            None
        } else {
            match self.frontier_error(pages.drop_last()) {
                Some(errno) => Some(errno),
                None => match self.frontier_status(pages.last()) {
                    PageSlotFsyncStatus::Error { errno } => Some(errno),
                    _ => None,
                },
            }
        }
    }

    /// The captured pages that still need a writeback, in order.
    pub open spec fn frontier_needs(self, pages: Seq<(PageIndex, PageGeneration)>) -> Seq<PageIndex>
        decreases pages.len(),
    {
        if pages.len() == 0 {
            Seq::empty()
        } else {
            let rest = self.frontier_needs(pages.drop_last());
            if self.frontier_status(pages.last()) is NeedsWriteback {
                rest.push(pages.last().0)
            } else {
                rest
            }
        }
    }

    /// Whether a captured version is being written.
    pub open spec fn frontier_waits(self, pages: Seq<(PageIndex, PageGeneration)>) -> bool {
        exists|i: int|
            0 <= i < pages.len() && {
                let status = self.frontier_status(#[trigger] pages[i]);
                status is WaitingForWriteback || status is WaitingForEarlierWriteback
            }
    }

    /// Outcome of one step towards the durability of the captured versions.
    pub open spec fn advance_frontier(
        self,
        pages: Seq<(PageIndex, PageGeneration)>,
        batch_pins: Seq<Grant>,
        page_pins: Seq<Grant>,
    ) -> (Self, FileFsyncFrontierAdvance) {
        match self.frontier_error(pages) {
            Some(errno) => (self, FileFsyncFrontierAdvance::Error(errno)),
            None => {
                let runs = self.queue_runs(self.frontier_needs(pages), batch_pins, page_pins, 0);
                (
                    runs.view,
                    if runs.admitted > 0 {
                        FileFsyncFrontierAdvance::Submitted {
                            pages: if runs.admitted <= u32::MAX {
                                runs.admitted as u32
                            } else {
                                u32::MAX
                            },
                        }
                    } else if self.frontier_waits(pages) || runs.refused {
                        FileFsyncFrontierAdvance::Waiting
                    } else {
                        FileFsyncFrontierAdvance::Complete
                    },
                )
            },
        }
    }

    /// Outcome of submitting the durability request itself.
    pub open spec fn submit_fsync(self) -> (Self, Option<PageIoRequestId>) {
        if self.kind !is File || !self.submission.admits() {
            (self, None)
        } else {
            let request = self.submission.next_request(
                PageIoRange {
                    start_page: 0,
                    page_count: if self.page_count == 0 {
                        1
                    } else {
                        self.page_count
                    },
                },
                PageIoOp::Fsync,
                PageIoPriority::Fsync,
                PageIoFlags::Barrier,
                None,
            );
            (
                ContainerView {
                    submission: self.submission.with_row(request),
                    fsyncs: self.fsyncs.insert(
                        request.id.0,
                        FsyncSubmission { id: request.id, state: FsyncSubmissionState::Queued },
                    ),
                    ..self
                },
                Some(request.id),
            )
        }
    }

    pub open spec fn fsync_state(self, id: PageIoRequestId) -> Option<FsyncSubmissionState> {
        if self.fsyncs.contains_key(id.0) {
            Some(self.fsyncs[id.0].state)
        } else {
            None
        }
    }

    /// Outcome of consuming the result of a durability request.
    pub open spec fn take_fsync(self, id: PageIoRequestId) -> (Self, Option<Result<(), Errno>>) {
        match self.fsync_state(id) {
            Some(FsyncSubmissionState::Complete(result)) => (
                ContainerView { fsyncs: self.fsyncs.remove(id.0), ..self },
                Some(result),
            ),
            _ => (self, None),
        }
    }
}

/// The page versions that one fsync is about.
#[derive(Debug)]
pub struct FileFsyncFrontier(pub Vec<(PageIndex, PageGeneration)>);

impl View for FileFsyncFrontier {
    type V = Seq<(PageIndex, PageGeneration)>;

    open spec fn view(&self) -> Seq<(PageIndex, PageGeneration)> {
        self.0@
    }
}

/// Consecutive pages of a frontier that were captured at one generation.
#[derive(Clone, Copy, Debug, PartialEq, Eq, Structural)]
pub struct FrontierBatch {
    pub range: PageIoRange,
    pub generation: PageGeneration,
}

impl FrontierBatch {
    pub fn range(self) -> (range: PageIoRange)
        ensures
            range == self.range,
    {
        self.range
    }

    pub fn generation(self) -> (generation: PageGeneration)
        ensures
            generation == self.generation,
    {
        self.generation
    }
}

/// The captured generation of each page. A page captured twice counts with its
/// later generation.
pub open spec fn captured(pages: Seq<(PageIndex, PageGeneration)>) -> Map<u64, PageGeneration>
    decreases pages.len(),
{
    if pages.len() == 0 {
        Map::empty()
    } else {
        captured(pages.drop_last()).insert(pages.last().0.0, pages.last().1)
    }
}

/// `keys` in batches of consecutive pages with equal generations.
pub open spec fn batches(keys: Seq<u64>, generations: Map<u64, PageGeneration>) -> Seq<
    FrontierBatch,
>
    decreases keys.len(),
{
    if keys.len() == 0 {
        Seq::empty()
    } else {
        let rest = batches(keys.drop_last(), generations);
        let key = keys.last();
        let generation = generations[key];
        if rest.len() > 0 && rest.last().generation == generation && rest.last().range.start_page
            + rest.last().range.page_count == key {
            rest.drop_last().push(
                FrontierBatch {
                    range: PageIoRange {
                        page_count: (rest.last().range.page_count + 1) as u64,
                        ..rest.last().range
                    },
                    ..rest.last()
                },
            )
        } else {
            rest.push(
                FrontierBatch { range: PageIoRange { start_page: key, page_count: 1 }, generation },
            )
        }
    }
}

impl FileFsyncFrontier {
    pub fn empty() -> (frontier: Self)
        ensures
            frontier@ == Seq::<(PageIndex, PageGeneration)>::empty(),
    {
        FileFsyncFrontier(Vec::new())
    }

    pub fn pages(&self) -> (pages: &Vec<(PageIndex, PageGeneration)>)
        ensures
            pages@ == self@,
    {
        &self.0
    }

    /// A frontier of given versions.
    pub fn from_pages_for_test(pages: Vec<(PageIndex, PageGeneration)>) -> (frontier: Self)
        ensures
            frontier@ == pages@,
    {
        FileFsyncFrontier(pages)
    }

    /// The captured pages, in order, in batches of consecutive pages with equal
    /// generations.
    pub fn contiguous_batches(&self) -> (groups: Vec<FrontierBatch>)
        ensures
            groups@ == batches(ascending(captured(self@).dom()), captured(self@)),
    {
        let mut pages: SparseMap<PageGeneration> = SparseMap::new();
        let mut i: usize = 0;
        while i < self.0.len()
            invariant
                pages.wf(),
                i <= self@.len(),
                pages@ == captured(self@.take(i as int)),
            decreases self@.len() - i,
        {
            let (page, generation) = self.0[i];
            assert(self@.take(i + 1).drop_last() =~= self@.take(i as int));
            let _previous = pages.insert(page.0, generation);
            i += 1;
        }
        assert(self@.take(i as int) =~= self@);
        let ghost order = pages.order();
        let mut groups: Vec<FrontierBatch> = Vec::new();
        let mut i: usize = 0;
        while i < pages.len()
            invariant
                pages.wf(),
                pages@ == captured(self@),
                order == pages.order(),
                i <= order.len(),
                groups@ == batches(order.take(i as int), pages@),
                forall|j: int|
                    0 <= j < groups@.len() ==> (#[trigger] groups@[j]).range.page_count <= i,
            decreases order.len() - i,
        {
            let key: u64 = pages.key_at(i);
            let generation = *pages.value_at(i);
            assert(order.take(i + 1).drop_last() =~= order.take(i as int));
            assert(order.take(i + 1).last() == key);
            let count: usize = groups.len();
            let ghost before = groups@;
            let mut extended = false;
            if count > 0 {
                let last = groups[count - 1];
                let end: Option<u64> = last.range.start_page.checked_add(last.range.page_count);
                if last.generation == generation && end == Some(key) {
                    assert(last.range.page_count < u64::MAX);
                    groups.pop();
                    groups.push(
                        FrontierBatch {
                            range: PageIoRange::new(
                                last.range.start_page,
                                last.range.page_count + 1,
                            ),
                            generation,
                        },
                    );
                    extended = true;
                }
            }
            if !extended {
                groups.push(FrontierBatch { range: PageIoRange::new(key, 1), generation });
            }
            assert(groups@ =~= batches(order.take(i + 1), pages@));
            i += 1;
        }
        proof {
            assert(order.take(i as int) =~= order);
            pages.lemma_order_ascending();
        }
        groups
    }
}

#[derive(Clone, Copy, Debug, PartialEq, Eq, Structural)]
pub enum FileFsyncFrontierAdvance {
    Complete,
    Submitted { pages: u32 },
    Waiting,
    Error(Errno),
}

impl PageContainer {
    /// Undo the writeback that `queue_run` has begun on the first `count` pages.
    fn rollback_file_writeback_slots(
        &mut self,
        generations: &Vec<(PageIndex, PageGeneration)>,
        Ghost(before): Ghost<ContainerView>,
        Ghost(pages): Ghost<Seq<PageIndex>>,
    )
        requires
            old(self).wf(),
            before.consistent(),
            contiguous(pages),
            0 < pages.len(),
            generations@.len() <= pages.len(),
            old(self)@ == before.with_writeback(pages[0], generations@.len()),
            forall|i: int|
                0 <= i < generations@.len() ==> {
                    &&& #[trigger] generations@[i] == (pages[i], before.slot(pages[i]).generation)
                    &&& before.writable_back(pages[i])
                },
        ensures
            final(self).wf(),
            final(self)@ == before.rolled_back(pages[0], generations@.len()),
    {
        let ghost begun = self@;
        let ghost total = generations@.len();
        let mut i: usize = 0;
        proof {
            assert(begun.rolled_back(pages[0], 0).slots =~= begun.slots);
        }
        while i < generations.len()
            invariant
                self.wf(),
                before.consistent(),
                contiguous(pages),
                total == generations@.len(),
                i <= total <= pages.len(),
                begun == before.with_writeback(pages[0], total),
                forall|j: int|
                    0 <= j < generations@.len() ==> {
                        &&& #[trigger] generations@[j] == (
                            pages[j],
                            before.slot(pages[j]).generation,
                        )
                        &&& before.writable_back(pages[j])
                    },
                self@ == begun.rolled_back(pages[0], i as nat),
            decreases generations@.len() - i,
        {
            let (page, generation) = generations[i];
            proof {
                lemma_contiguous(pages, i as int);
                assert(generations@[i as int] == (
                    pages[i as int],
                    before.slot(pages[i as int]).generation,
                ));
                assert(before.writable_back(page));
            }
            let ghost at = self@;
            let slot = self.page_slots.get_mut(page.0);
            let _aborted = slot.abort_writeback(generation);
            proof {
                let next = begun.rolled_back(pages[0], (i + 1) as nat);
                assert(self@.slots =~= next.slots);
                assert(self@ =~= next);
            }
            i += 1;
        }
        proof {
            assert forall|k: u64|
                pages[0].0 <= k < pages[0].0 + total && begun.slots.contains_key(
                    k,
                ) implies before.slots[k].inner.writeback_begun() is Ok by {
                let j = k - pages[0].0;
                lemma_contiguous(pages, j);
                assert(generations@[j] == (pages[j], before.slot(pages[j]).generation));
            }
            assert(self@.slots =~= before.rolled_back(pages[0], total).slots);
            assert(self@ =~= before.rolled_back(pages[0], total));
        }
    }

    /// Let writeback of `page` begin, if its slot allows it.
    fn begin_page_writeback(&mut self, page: PageIndex) -> (generation: Option<PageGeneration>)
        requires
            old(self).wf(),
        ensures
            final(self).wf(),
            match generation {
                Some(generation) => {
                    &&& old(self)@.writable_back(page)
                    &&& generation == old(self)@.slot(page).generation
                    &&& final(self)@ == old(self)@.with_slot(
                        page,
                        old(self)@.slot(page).writeback_begun()->Ok_0,
                    )
                },
                None => !old(self)@.writable_back(page) && final(self)@ == old(self)@,
            },
    {
        let ghost before = self@;
        if !self.page_slots.contains_key(page.0) {
            return None;
        }
        let slot = self.page_slots.get_mut(page.0);
        match slot.begin_writeback() {
            Ok(writeback) => Some(writeback.generation),
            Err(_) => {
                proof {
                    assert(self@.slots =~= before.slots);
                    assert(self@ =~= before);
                }
                None
            },
        }
    }

    /// Admit the candidates from `start` to `end` to writeback as one request.
    #[verifier::spinoff_prover]
    #[verifier::rlimit(60)]
    fn queue_run(
        &mut self,
        candidates: &Vec<PageIndex>,
        start: usize,
        end: usize,
        pins: &Vec<Grant>,
        offset: usize,
    ) -> (id: Option<PageIoRequestId>)
        requires
            old(self).wf(),
            start <= end <= candidates@.len(),
            offset + (end - start) <= usize::MAX,
        ensures
            final(self).wf(),
            (final(self)@, id) == old(self)@.queue_batch(
                candidates@.subrange(start as int, end as int),
                pins@,
                offset as nat,
            ),
    {
        let ghost before = self@;
        let ghost pages = candidates@.subrange(start as int, end as int);
        if !self.is_file() {
            return None;
        }
        if start == end || end - start > MAX_FILE_WRITEBACK_BATCH_PAGES {
            return None;
        }
        if !is_run(candidates, start, end) {
            return None;
        }
        assert(valid_batch(pages));
        let first = candidates[start];
        let mut leases: Vec<PageLease> = Vec::new();
        let mut generations: Vec<(PageIndex, PageGeneration)> = Vec::new();
        let mut i: usize = 0;
        proof {
            assert(before.with_writeback(first, 0).slots =~= before.slots);
            assert(before.with_writeback(first, 0) =~= before);
        }
        while i < end - start
            invariant
                self.wf(),
                before.consistent(),
                before.kind is File,
                start < end <= candidates@.len(),
                offset + (end - start) <= usize::MAX,
                i <= end - start,
                pages == candidates@.subrange(start as int, end as int),
                valid_batch(pages),
                first == pages[0],
                before.held_pages(pages, pins@, offset as nat, i as nat) == i,
                self@ == before.with_writeback(first, i as nat),
                leases@ == Seq::new(
                    i as nat,
                    |j: int| PageLease::allocated(before.pages[pages[j].0].ppn),
                ),
                generations@ == Seq::new(
                    i as nat,
                    |j: int| (pages[j], before.slot(pages[j]).generation),
                ),
                forall|j: int| 0 <= j < i ==> before.writable_back(#[trigger] pages[j]),
                before == old(self)@,
            decreases end - start - i,
        {
            let page = candidates[start + i];
            proof {
                assert(page == pages[i as int]);
                lemma_contiguous(pages, i as int);
            }
            let ghost at = self@;
            let generation = match self.begin_page_writeback(page) {
                Some(generation) => generation,
                None => {
                    proof {
                        lemma_held_stops(
                            before,
                            pages,
                            pins@,
                            offset as nat,
                            i as nat,
                            pages.len(),
                        );
                    }
                    self.rollback_file_writeback_slots(&generations, Ghost(before), Ghost(pages));
                    return None;
                },
            };
            proof {
                let next = before.with_writeback(first, (i + 1) as nat);
                assert(self@.slots =~= next.slots);
                assert(self@ =~= next);
            }
            generations.push((page, generation));
            proof {
                assert(generations@ =~= Seq::new(
                    (i + 1) as nat,
                    |j: int| (pages[j], before.slot(pages[j]).generation),
                ));
            }
            let ppn = match self.pages.lookup(page) {
                Some(ppn) => ppn,
                None => {
                    proof {
                        lemma_held_stops(
                            before,
                            pages,
                            pins@,
                            offset as nat,
                            i as nat,
                            pages.len(),
                        );
                    }
                    self.rollback_file_writeback_slots(&generations, Ghost(before), Ghost(pages));
                    return None;
                },
            };
            let pinned = offset + i < pins.len() && pins[offset + i].is_ok();
            if !pinned {
                proof {
                    lemma_held_stops(before, pages, pins@, offset as nat, i as nat, pages.len());
                }
                self.rollback_file_writeback_slots(&generations, Ghost(before), Ghost(pages));
                return None;
            }
            leases.push(PageLease::from_pin(CachePin { ppn }));
            proof {
                assert(leases@ =~= Seq::new(
                    (i + 1) as nat,
                    |j: int| PageLease::allocated(before.pages[pages[j].0].ppn),
                ));
            }
            i += 1;
        }
        let first_generation = generations[0].1;
        let ghost held_generations = generations@;
        let kept = copy_generations(&generations);
        let id = IoDataLeaseId::new(self.page_submission.next_id);
        match PageDataLease::from_segments(
            id,
            MAX_FILE_WRITEBACK_BATCH_PAGES,
            leases,
            generations,
        ) {
            Err(_) => {
                self.rollback_file_writeback_slots(&kept, Ghost(before), Ghost(pages));
                None
            },
            Ok(lease) => {
                assert(lease@ =~= before.writeback_lease(before.submission.next_id, pages));
                let ghost payload = FileIoPayload::Writeback { lease };
                match self.page_submission.submit_owned_file_request(
                    PageIoRange::new(first.0, (end - start) as u64),
                    PageIoOp::Writeback,
                    PageIoPriority::BackgroundWriteback,
                    PageIoFlags::Writeback,
                    Some(first_generation),
                    FileIoPayload::Writeback { lease },
                ) {
                    Some(id) => {
                        proof {
                            before.with_writeback(first, pages.len()).lemma_consistent_frame(self@);
                        }
                        Some(id)
                    },
                    None => {
                        self.rollback_file_writeback_slots(&kept, Ghost(before), Ghost(pages));
                        None
                    },
                }
            },
        }
    }

    /// Admit a bounded run of consecutive pages to writeback as one request:
    /// all of them or none. `pins[i]` answers for the pin of `pages[i]`.
    pub fn queue_file_writeback_batch(&mut self, pages: &Vec<PageIndex>, pins: &Vec<Grant>) -> (id:
        Option<PageIoRequestId>)
        requires
            old(self).wf(),
        ensures
            final(self).wf(),
            (final(self)@, id) == old(self)@.queue_batch(pages@, pins@, 0),
    {
        assert(pages@.subrange(0, pages@.len() as int) =~= pages@);
        self.queue_run(pages, 0, pages.len(), pins, 0)
    }

    /// Admit one page to writeback.
    pub fn queue_file_page_writeback(&mut self, page: PageIndex, pin: Grant) -> (id: Option<
        PageIoRequestId,
    >)
        requires
            old(self).wf(),
        ensures
            final(self).wf(),
            (final(self)@, id) == old(self)@.queue_batch(seq![page], seq![pin], 0),
    {
        let mut pages: Vec<PageIndex> = Vec::new();
        pages.push(page);
        let mut pins: Vec<Grant> = Vec::new();
        pins.push(pin);
        assert(pages@ =~= seq![page]);
        assert(pins@ =~= seq![pin]);
        self.queue_file_writeback_batch(&pages, &pins)
    }

    /// Admit the candidates, run by run.
    fn queue_candidates(
        &mut self,
        candidates: &Vec<PageIndex>,
        batch_pins: &Vec<Grant>,
        page_pins: &Vec<Grant>,
    ) -> (r: (usize, bool))
        requires
            old(self).wf(),
        ensures
            final(self).wf(),
            ({
                let runs = old(self)@.queue_runs(candidates@, batch_pins@, page_pins@, 0);
                &&& final(self)@ == runs.view
                &&& r.0 == runs.admitted
                &&& r.1 == runs.refused
            }),
    {
        let ghost all = self@.queue_runs(candidates@, batch_pins@, page_pins@, 0);
        let mut admitted: usize = 0;
        let mut refused = false;
        let mut start: usize = 0;
        while start < candidates.len()
            invariant
                self.wf(),
                start <= candidates@.len(),
                admitted <= start,
                ({
                    let rest = self@.queue_runs(
                        candidates@,
                        batch_pins@,
                        page_pins@,
                        start as nat,
                    );
                    &&& all.view == rest.view
                    &&& all.admitted == admitted + rest.admitted
                    &&& all.refused == (refused || rest.refused)
                }),
            decreases candidates@.len() - start,
        {
            let mut end: usize = start + 1;
            while end < candidates.len() && end - start < MAX_FILE_WRITEBACK_BATCH_PAGES
                && candidates[end].0 == candidates[end - 1].0.saturating_add(1)
                invariant
                    start < end <= candidates@.len(),
                    end - start <= MAX_FILE_WRITEBACK_BATCH_PAGES,
                    run_end(candidates@, start as nat, (start + 1) as nat) == run_end(
                        candidates@,
                        start as nat,
                        end as nat,
                    ),
                decreases candidates@.len() - end,
            {
                end += 1;
            }
            match self.queue_run(candidates, start, end, batch_pins, start) {
                Some(_) => {
                    admitted += end - start;
                },
                None => {
                    let ghost singles = self@.queue_singles(
                        candidates@,
                        page_pins@,
                        start as nat,
                        end as nat,
                    );
                    let ghost admitted_before = admitted;
                    let ghost refused_before = refused;
                    let mut at: usize = start;
                    while at < end
                        invariant
                            self.wf(),
                            start <= at <= end <= candidates@.len(),
                            admitted <= at,
                            ({
                                let rest = self@.queue_singles(
                                    candidates@,
                                    page_pins@,
                                    at as nat,
                                    end as nat,
                                );
                                &&& singles.view == rest.view
                                &&& admitted_before + singles.admitted == admitted + rest.admitted
                                &&& (refused_before || singles.refused) == (refused
                                    || rest.refused)
                            }),
                        decreases end - at,
                    {
                        assert(candidates@.subrange(at as int, at + 1) =~= seq![
                            candidates@[at as int],
                        ]);
                        match self.queue_run(candidates, at, at + 1, page_pins, at) {
                            Some(_) => {
                                admitted += 1;
                            },
                            None => {
                                refused = true;
                            },
                        }
                        at += 1;
                    }
                },
            }
            start = end;
        }
        (admitted, refused)
    }

    /// Admit every dirty page to background writeback, and say how many were
    /// admitted. The page service has to run if any was. The pin answers are
    /// those for the dirty pages in ascending order: first as members of a run,
    /// then one by one where the run was refused.
    pub fn queue_dirty_file_writeback(&mut self, batch_pins: &Vec<Grant>, page_pins: &Vec<Grant>) -> (
    admitted: usize)
        requires
            old(self).wf(),
        ensures
            final(self).wf(),
            ({
                let candidates = ascending(old(self)@.dirty_pages()).map_values(
                    |k: u64| PageIndex(k),
                );
                let runs = old(self)@.queue_runs(candidates, batch_pins@, page_pins@, 0);
                if old(self)@.kind is File {
                    admitted == runs.admitted && final(self)@ == runs.view
                } else {
                    admitted == 0 && final(self)@ == old(self)@
                }
            }),
    {
        if !self.is_file() {
            return 0;
        }
        let ghost order = self.page_slots.order();
        let ghost name = |k: u64| PageIndex(k);
        let mut candidates: Vec<PageIndex> = Vec::new();
        let mut i: usize = 0;
        while i < self.page_slots.len()
            invariant
                self.wf(),
                order == self.page_slots.order(),
                name == (|k: u64| PageIndex(k)),
                i <= order.len(),
                candidates@ == picked(order.take(i as int), self@.dirty_pages()).map_values(name),
                self@ == old(self)@,
            decreases order.len() - i,
        {
            let key: u64 = self.page_slots.key_at(i);
            let slot = self.page_slots.value_at(i);
            assert(order.take(i + 1).drop_last() =~= order.take(i as int));
            match slot.snapshot().state {
                PageSlotState::Dirty { .. } => {
                    candidates.push(PageIndex::new(key));
                },
                _ => {},
            }
            assert(candidates@ =~= picked(order.take(i + 1), self@.dirty_pages()).map_values(name));
            i += 1;
        }
        proof {
            assert(order.take(i as int) =~= order);
            self.page_slots.lemma_order();
            lemma_picked(order, self@.dirty_pages());
        }
        let (admitted, _refused) = self.queue_candidates(&candidates, batch_pins, page_pins);
        admitted
    }

    /// Capture the versions that an fsync issued now is about.
    pub fn snapshot_file_fsync_frontier(&self) -> (frontier: Option<FileFsyncFrontier>)
        requires
            self.wf(),
        ensures
            match frontier {
                Some(frontier) => self@.kind is File && frontier@ == self@.fsync_frontier(),
                None => self@.kind !is File,
            },
    {
        if !self.is_file() {
            return None;
        }
        let ghost order = self.page_slots.order();
        let ghost name = |k: u64| (PageIndex(k), self@.slots[k].inner.generation);
        let mut pages: Vec<(PageIndex, PageGeneration)> = Vec::new();
        let mut i: usize = 0;
        while i < self.page_slots.len()
            invariant
                self.wf(),
                order == self.page_slots.order(),
                name == (|k: u64| (PageIndex(k), self@.slots[k].inner.generation)),
                i <= order.len(),
                pages@ == picked(order.take(i as int), self@.unsaved_pages()).map_values(name),
            decreases order.len() - i,
        {
            let key: u64 = self.page_slots.key_at(i);
            let slot = self.page_slots.value_at(i);
            let snapshot = slot.snapshot();
            assert(order.take(i + 1).drop_last() =~= order.take(i as int));
            if crate::container::page_slot_is_dirty(snapshot) {
                pages.push((PageIndex::new(key), snapshot.generation));
            }
            assert(pages@ =~= picked(order.take(i + 1), self@.unsaved_pages()).map_values(name));
            i += 1;
        }
        proof {
            assert(order.take(i as int) =~= order);
            self.page_slots.lemma_order();
            lemma_picked(order, self@.unsaved_pages());
        }
        Some(FileFsyncFrontier(pages))
    }

    /// The captured pages that still need a writeback. Those are the pages, in
    /// order, whose pins the next advance of the frontier asks for.
    pub fn file_fsync_frontier_needs(&self, frontier: &FileFsyncFrontier) -> (pages: Vec<PageIndex>)
        requires
            self.wf(),
        ensures
            pages@ == self@.frontier_needs(frontier@),
    {
        let mut pages: Vec<PageIndex> = Vec::new();
        let mut i: usize = 0;
        while i < frontier.0.len()
            invariant
                self.wf(),
                i <= frontier@.len(),
                pages@ == self@.frontier_needs(frontier@.take(i as int)),
            decreases frontier@.len() - i,
        {
            let (page, generation) = frontier.0[i];
            assert(frontier@.take(i + 1).drop_last() =~= frontier@.take(i as int));
            let status = match self.page_slots.get(page.0) {
                Some(slot) => slot.fsync_status(generation),
                None => PageSlotFsyncStatus::Clean,
            };
            assert(status == self@.frontier_status(frontier@.take(i + 1).last()));
            match status {
                PageSlotFsyncStatus::NeedsWriteback { .. } => {
                    pages.push(page);
                },
                _ => {},
            }
            i += 1;
        }
        assert(frontier@.take(i as int) =~= frontier@);
        pages
    }

    /// Submit or observe writeback of the captured versions.
    pub fn advance_file_fsync_frontier(
        &mut self,
        frontier: &FileFsyncFrontier,
        batch_pins: &Vec<Grant>,
        page_pins: &Vec<Grant>,
    ) -> (advance: FileFsyncFrontierAdvance)
        requires
            old(self).wf(),
        ensures
            final(self).wf(),
            (final(self)@, advance) == old(self)@.advance_frontier(
                frontier@,
                batch_pins@,
                page_pins@,
            ),
    {
        let ghost before = self@;
        let mut waiting = false;
        let mut candidates: Vec<PageIndex> = Vec::new();
        let mut i: usize = 0;
        while i < frontier.0.len()
            invariant
                self.wf(),
                self@ == before,
                before == old(self)@,
                i <= frontier@.len(),
                before.frontier_error(frontier@.take(i as int)) is None,
                candidates@ == before.frontier_needs(frontier@.take(i as int)),
                waiting == before.frontier_waits(frontier@.take(i as int)),
            decreases frontier@.len() - i,
        {
            let (page, generation) = frontier.0[i];
            let ghost seen = frontier@.take(i as int);
            let ghost next = frontier@.take(i + 1);
            assert(next.drop_last() =~= seen);
            let status = match self.page_slots.get(page.0) {
                Some(slot) => slot.fsync_status(generation),
                None => PageSlotFsyncStatus::Clean,
            };
            assert(status == before.frontier_status(next.last()));
            proof {
                if before.frontier_waits(seen) {
                    let j = choose|j: int|
                        0 <= j < seen.len() && {
                            let status = before.frontier_status(#[trigger] seen[j]);
                            status is WaitingForWriteback || status is WaitingForEarlierWriteback
                        };
                    assert(next[j] == seen[j]);
                }
                if before.frontier_waits(next) && !(status is WaitingForWriteback
                    || status is WaitingForEarlierWriteback) {
                    let j = choose|j: int|
                        0 <= j < next.len() && {
                            let status = before.frontier_status(#[trigger] next[j]);
                            status is WaitingForWriteback || status is WaitingForEarlierWriteback
                        };
                    assert(j < i);
                    assert(seen[j] == next[j]);
                }
                assert(next[i as int] == (page, generation));
            }
            match status {
                PageSlotFsyncStatus::NeedsWriteback { .. } => {
                    candidates.push(page);
                },
                PageSlotFsyncStatus::WaitingForWriteback { .. } => {
                    waiting = true;
                },
                PageSlotFsyncStatus::WaitingForEarlierWriteback { .. } => {
                    waiting = true;
                },
                PageSlotFsyncStatus::Error { errno } => {
                    proof {
                        lemma_error_stays(before, frontier@, (i + 1) as int);
                    }
                    return FileFsyncFrontierAdvance::Error(errno);
                },
                PageSlotFsyncStatus::Clean => {},
            }
            i += 1;
        }
        assert(frontier@.take(i as int) =~= frontier@);
        let (admitted, refused) = self.queue_candidates(&candidates, batch_pins, page_pins);
        if admitted != 0 {
            let pages: u32 = if admitted <= u32::MAX as usize {
                admitted as u32
            } else {
                u32::MAX
            };
            FileFsyncFrontierAdvance::Submitted { pages }
        } else if waiting || refused {
            FileFsyncFrontierAdvance::Waiting
        } else {
            FileFsyncFrontierAdvance::Complete
        }
    }

    /// Submit the durability request of an fsync.
    pub fn submit_file_fsync(&mut self) -> (id: Option<PageIoRequestId>)
        requires
            old(self).wf(),
        ensures
            final(self).wf(),
            (final(self)@, id) == old(self)@.submit_fsync(),
    {
        if !self.is_file() {
            return None;
        }
        let ghost before = self@;
        let page_count: u64 = if self.page_count == 0 {
            1
        } else {
            self.page_count
        };
        match self.page_submission.submit(
            PageIoRange::new(0, page_count),
            PageIoOp::Fsync,
            PageIoPriority::Fsync,
            PageIoFlags::Barrier,
            None,
        ) {
            None => None,
            Some(id) => {
                let _previous = self.fsync_submissions.insert(id.0, FsyncSubmission::new(id));
                proof {
                    before.lemma_consistent_frame(self@);
                }
                Some(id)
            },
        }
    }

    pub fn file_fsync_submission_state(&self, id: PageIoRequestId) -> (state: Option<
        FsyncSubmissionState,
    >)
        requires
            self.wf(),
        ensures
            state == self@.fsync_state(id),
    {
        match self.fsync_submissions.get(id.0) {
            Some(row) => Some(row.state()),
            None => None,
        }
    }

    /// Consume the result of a durability request.
    pub fn take_file_fsync_submission(&mut self, id: PageIoRequestId) -> (result: Option<
        Result<(), Errno>,
    >)
        requires
            old(self).wf(),
        ensures
            final(self).wf(),
            (final(self)@, result) == old(self)@.take_fsync(id),
    {
        let ghost before = self@;
        match self.file_fsync_submission_state(id) {
            Some(FsyncSubmissionState::Complete(result)) => {
                let _row = self.fsync_submissions.remove(id.0);
                proof {
                    before.lemma_consistent_frame(self@);
                }
                Some(result)
            },
            _ => None,
        }
    }
}

/// Whether the candidates from `start` to `end` follow one another.
fn is_run(candidates: &Vec<PageIndex>, start: usize, end: usize) -> (run: bool)
    requires
        start < end <= candidates@.len(),
    ensures
        run == contiguous(candidates@.subrange(start as int, end as int)),
{
    let ghost pages = candidates@.subrange(start as int, end as int);
    let mut i: usize = start + 1;
    while i < end
        invariant
            start < i <= end <= candidates@.len(),
            pages == candidates@.subrange(start as int, end as int),
            forall|j: int|
                #![trigger pages[j]]
                0 < j < i - start ==> pages[j].0 == pages[j - 1].0 + 1,
        decreases end - i,
    {
        assert(pages[i - start] == candidates@[i as int]);
        assert(pages[i - start - 1] == candidates@[i - 1]);
        if candidates[i - 1].0.checked_add(1) != Some(candidates[i].0) {
            return false;
        }
        i += 1;
    }
    true
}

fn copy_generations(generations: &Vec<(PageIndex, PageGeneration)>) -> (copy: Vec<
    (PageIndex, PageGeneration),
>)
    ensures
        copy@ == generations@,
{
    let mut copy: Vec<(PageIndex, PageGeneration)> = Vec::new();
    let mut i: usize = 0;
    while i < generations.len()
        invariant
            i <= generations@.len(),
            copy@ == generations@.take(i as int),
        decreases generations@.len() - i,
    {
        copy.push(generations[i]);
        assert(copy@ =~= generations@.take(i + 1));
        i += 1;
    }
    assert(copy@ =~= generations@);
    copy
}

proof fn lemma_held_stops(
    view: ContainerView,
    pages: Seq<PageIndex>,
    pins: Seq<Grant>,
    offset: nat,
    held: nat,
    count: nat,
)
    requires
        held < count <= pages.len(),
        view.held_pages(pages, pins, offset, held) == held,
        !(view.writable_back(pages[held as int]) && view.cached(pages[held as int]) && granted(
            pins,
            (offset + held) as int,
        )),
    ensures
        view.held_pages(pages, pins, offset, count) == held,
    decreases count,
{
    if count > held + 1 {
        lemma_held_stops(view, pages, pins, offset, held, (count - 1) as nat);
    }
}

proof fn lemma_error_stays(view: ContainerView, pages: Seq<(PageIndex, PageGeneration)>, at: int)
    requires
        0 <= at <= pages.len(),
        view.frontier_error(pages.take(at)) is Some,
    ensures
        view.frontier_error(pages) == view.frontier_error(pages.take(at)),
    decreases pages.len(),
{
    if at == pages.len() {
        assert(pages.take(at) =~= pages);
    } else {
        let init = pages.drop_last();
        assert(init.take(at) =~= pages.take(at));
        lemma_error_stays(view, init, at);
    }
}

} // verus!
