//! Size changes and synchronous writeback of a whole container.

use crate::container::{ContainerView, PageContainer, PageContainerKind};
use crate::frame::Grant;
use crate::fsync::{FileFsyncState, FsyncStateView};
use crate::ids::{Errno, FsObjectId, PageGeneration, PageIndex, Ppn, PAGE_BYTES};
use crate::slot::{after, PageSlotState};
use crate::sparse_index::{ascending, lemma_picked, lists, picked};
use crate::step::{
    wait_source_parts, yield_on_wait_source, NoProgress, PageProgress, StepOutcome, YieldShape,
};
use crate::writeback::FileFsyncFrontierAdvance;
use vstd::prelude::*;

verus! {

/// A call that the filesystem has to serve.
#[derive(Clone, Copy, Debug, PartialEq, Eq, Structural)]
pub enum FsCall {
    /// Write one page.
    FlushPage { object: FsObjectId, offset: u64, ppn: Ppn },
    /// Set the stored size.
    Truncate { object: FsObjectId, size: u64 },
    /// Reserve store up to a size.
    Fallocate { object: FsObjectId, size: u64 },
    /// Make everything written durable.
    SyncFile { object: FsObjectId },
}

/// The filesystem's answer to one call.
pub type FsReply = StepOutcome<(), NoProgress>;

/// A dirty page as it was captured.
#[derive(Clone, Copy, Debug, PartialEq, Eq, Structural)]
pub struct DirtyPage {
    pub page: PageIndex,
    pub ppn: Ppn,
    pub generation: PageGeneration,
}

/// Bytes of a cached frame that have to be cleared.
#[derive(Clone, Copy, Debug, PartialEq, Eq, Structural)]
pub struct ZeroTail {
    pub ppn: Ppn,
    pub offset: usize,
    pub len: usize,
}

/// The first page that holds no byte of a file of `size` bytes.
pub open spec fn pages_for(size: u64) -> int {
    (size + PAGE_BYTES - 1) / PAGE_BYTES as int
}

/// The first page that lies wholly beyond `size`. There is none if rounding up
/// overflows.
pub fn first_page_after_size(size: u64) -> (page: Option<PageIndex>)
    ensures
        page == (if size + PAGE_BYTES - 1 <= u64::MAX {
            Some(PageIndex(pages_for(size) as u64))
        } else {
            None
        }),
{
    if size == 0 {
        return Some(PageIndex::new(0));
    }
    match size.checked_add(PAGE_BYTES - 1) {
        Some(rounded) => Some(PageIndex::new(rounded / PAGE_BYTES)),
        None => None,
    }
}

/// How a wait that the filesystem asks for is passed on.
pub open spec fn passed_on<T>(shape: YieldShape, progress: PageProgress) -> StepOutcome<
    T,
    PageProgress,
> {
    if shape is OnWaitSource {
        StepOutcome::Yield { progress, shape }
    } else {
        StepOutcome::Error(Errno::EIO)
    }
}

fn pass_on<T>(shape: &YieldShape, progress: PageProgress) -> (outcome: StepOutcome<T, PageProgress>)
    ensures
        outcome == passed_on::<T>(*shape, progress),
{
    match wait_source_parts(shape) {
        Some((source, interests)) => yield_on_wait_source(progress, source, interests),
        None => StepOutcome::Error(Errno::EIO),
    }
}

/// Outcome of a step that stops at `reply`. A call that is done does not stop
/// it.
pub open spec fn stopped_by<T>(reply: FsReply, progress: PageProgress) -> Option<
    StepOutcome<T, PageProgress>,
> {
    match reply {
        StepOutcome::Done(()) => None,
        StepOutcome::Continue { .. } => Some(StepOutcome::Continue { progress }),
        StepOutcome::Yield { shape, .. } => Some(passed_on(shape, progress)),
        StepOutcome::Error(errno) => Some(StepOutcome::Error(errno)),
    }
}

pub(crate) fn stop_at<T>(reply: &FsReply, progress: PageProgress) -> (outcome: Option<
    StepOutcome<T, PageProgress>,
>)
    ensures
        outcome == stopped_by::<T>(*reply, progress),
{
    match reply {
        StepOutcome::Done(()) => None,
        StepOutcome::Continue { .. } => Some(StepOutcome::Continue { progress }),
        StepOutcome::Yield { shape, .. } => Some(pass_on(shape, progress)),
        StepOutcome::Error(errno) => Some(StepOutcome::Error(*errno)),
    }
}

pub open spec fn saturating_count(n: u32) -> u32 {
    if n == u32::MAX {
        n
    } else {
        (n + 1) as u32
    }
}

/// What a flush did.
#[verifier::ext_equal]
pub struct FlushView {
    pub view: ContainerView,
    pub outcome: StepOutcome<u32, PageProgress>,
    /// The calls that were made, in order.
    pub calls: Seq<FsCall>,
}

/// What an fsync did.
#[verifier::ext_equal]
pub struct SyncView {
    pub view: ContainerView,
    pub outcome: StepOutcome<(), PageProgress>,
    pub calls: Seq<FsCall>,
}

/// Filesystem answers for one fsync step: to the flushes in page order, to the
/// correction of the stored size, and to the sync itself. A flush whose answer
/// is not there is not made: the step stops before it.
#[derive(Debug)]
pub struct FsyncReplies {
    pub flushes: Vec<FsReply>,
    pub truncate: FsReply,
    pub sync: FsReply,
}

impl ContainerView {
    /// Cached pages with contents that the backing store lacks and that no
    /// writeback has picked up.
    pub open spec fn flushable(self) -> Set<u64> {
        Set::new(|k: u64| self.pages.contains_key(k) && self.slot(PageIndex(k)).state is Dirty)
    }

    pub open spec fn captured_page(self, k: u64) -> DirtyPage {
        DirtyPage {
            page: PageIndex(k),
            ppn: self.pages[k].ppn,
            generation: self.slot(PageIndex(k)).generation,
        }
    }

    /// The pages that a flush writes, in order.
    pub open spec fn flush_list(self) -> Seq<DirtyPage> {
        ascending(self.flushable()).map_values(|k: u64| self.captured_page(k))
    }

    /// After the page has been written as it was captured. A flush writes whole
    /// pages, so that the end of the stored file is not certain any more and
    /// has to be corrected.
    pub open spec fn page_flushed(self, dirty: DirtyPage) -> Self {
        let slot = self.slot(dirty.page);
        let unsure = ContainerView { stored_size: None, eof_pending: true, ..self };
        if self.slots.contains_key(dirty.page.0) {
            unsure.with_slot(dirty.page, after(slot, slot.cleaned(dirty.generation, dirty.ppn)))
        } else {
            unsure
        }
    }

    /// Outcome of flushing `dirty` from index `i` on, after `flushed` pages and
    /// the calls `made`.
    pub open spec fn flush_from(
        self,
        dirty: Seq<DirtyPage>,
        replies: Seq<FsReply>,
        i: nat,
        flushed: u32,
        made: Seq<FsCall>,
    ) -> FlushView
        decreases dirty.len() - i,
    {
        if i >= dirty.len() {
            FlushView { view: self, outcome: StepOutcome::Done(flushed), calls: made }
        } else if dirty[i as int].page.0 * PAGE_BYTES > u64::MAX {
            FlushView { view: self, outcome: StepOutcome::Error(Errno::EINVAL), calls: made }
        } else if i >= replies.len() {
            FlushView {
                view: self,
                outcome: StepOutcome::Continue { progress: PageProgress(flushed) },
                calls: made,
            }
        } else {
            let one = dirty[i as int];
            let calls = made.push(
                FsCall::FlushPage {
                    object: self.object(),
                    offset: (one.page.0 * PAGE_BYTES) as u64,
                    ppn: one.ppn,
                },
            );
            match stopped_by::<u32>(replies[i as int], PageProgress(flushed)) {
                Some(outcome) => FlushView { view: self, outcome, calls },
                None => self.page_flushed(one).flush_from(
                    dirty,
                    replies,
                    i + 1,
                    saturating_count(flushed),
                    calls,
                ),
            }
        }
    }

    /// Outcome of flushing every dirty page of a file.
    pub open spec fn flush_dirty(self, replies: Seq<FsReply>) -> FlushView {
        if self.kind is File {
            self.flush_from(self.flush_list(), replies, 0, 0, Seq::empty())
        } else {
            FlushView { view: self, outcome: StepOutcome::Done(0), calls: Seq::empty() }
        }
    }

    /// Whether an fsync has to tell the backing store the exact size: pages were
    /// flushed since it was last told.
    pub open spec fn corrects_eof(self) -> bool {
        self.kind is File && self.eof_pending
    }

    /// Whether the backing store is not known to have the exact size.
    pub open spec fn size_unstored(self) -> bool {
        self.kind is File && self.stored_size != Some(self.size_bytes)
    }

    pub open spec fn size_call(self) -> FsCall {
        FsCall::Truncate { object: self.object(), size: self.size_bytes }
    }

    /// After the backing store was told the exact size.
    pub open spec fn size_told(self, reply: FsReply) -> Self {
        if reply is Done {
            ContainerView { stored_size: Some(self.size_bytes), eof_pending: false, ..self }
        } else {
            self
        }
    }

    /// Outcome of one fsync step: flush, correct the stored size, sync.
    pub open spec fn fsync_step(
        self,
        flushes: Seq<FsReply>,
        truncate: FsReply,
        sync: FsReply,
    ) -> SyncView {
        let flushed = self.flush_dirty(flushes);
        if self.kind !is File {
            SyncView { view: self, outcome: StepOutcome::Done(()), calls: Seq::empty() }
        } else {
            match flushed.outcome {
                StepOutcome::Continue { progress } => SyncView {
                    view: flushed.view,
                    outcome: StepOutcome::Continue { progress },
                    calls: flushed.calls,
                },
                StepOutcome::Yield { progress, shape } => SyncView {
                    view: flushed.view,
                    outcome: StepOutcome::Yield { progress, shape },
                    calls: flushed.calls,
                },
                StepOutcome::Error(errno) => SyncView {
                    view: flushed.view,
                    outcome: StepOutcome::Error(errno),
                    calls: flushed.calls,
                },
                StepOutcome::Done(pages) => {
                    let asked = flushed.view.corrects_eof();
                    let view = if asked {
                        flushed.view.size_told(truncate)
                    } else {
                        flushed.view
                    };
                    let calls = if asked {
                        flushed.calls.push(flushed.view.size_call())
                    } else {
                        flushed.calls
                    };
                    match stopped_by::<()>(truncate, PageProgress(0)) {
                        Some(outcome) if asked => SyncView { view, outcome, calls },
                        _ => SyncView {
                            view,
                            outcome: synced(sync, pages),
                            calls: calls.push(FsCall::SyncFile { object: self.object() }),
                        },
                    }
                },
            }
        }
    }
}

/// Outcome of the sync that ends an fsync step which has flushed `pages` pages.
pub open spec fn synced(sync: FsReply, pages: u32) -> StepOutcome<(), PageProgress> {
    match stopped_by::<()>(sync, PageProgress(pages)) {
        Some(outcome) => outcome,
        None => StepOutcome::Done(()),
    }
}

/// A flush as it went.
#[derive(Debug)]
pub struct FlushReport {
    pub outcome: StepOutcome<u32, PageProgress>,
    pub calls: Vec<FsCall>,
}

/// A step that talked to the filesystem.
#[derive(Debug)]
pub struct SyncReport {
    pub outcome: StepOutcome<(), PageProgress>,
    pub calls: Vec<FsCall>,
}

impl PageContainer {
    /// The object of a file.
    pub(crate) fn backing_object(&self) -> (object: Option<FsObjectId>)
        ensures
            object == (if self@.kind is File {
                Some(self@.object())
            } else {
                None
            }),
    {
        match self.kind {
            PageContainerKind::File { fs_object_id, .. } => Some(fs_object_id),
            _ => None,
        }
    }

    /// The pages that a flush has to write, in order, as they are now.
    pub fn dirty_pages_snapshot(&self) -> (dirty: Vec<DirtyPage>)
        requires
            self.wf(),
        ensures
            dirty@ == self@.flush_list(),
    {
        let ghost order = self.pages.order();
        let ghost name = |k: u64| self@.captured_page(k);
        let mut dirty: Vec<DirtyPage> = Vec::new();
        let mut i: usize = 0;
        while i < self.pages.pages.len()
            invariant
                self.wf(),
                order == self.pages.order(),
                name == (|k: u64| self@.captured_page(k)),
                i <= order.len(),
                dirty@ == picked(order.take(i as int), self@.flushable()).map_values(name),
            decreases order.len() - i,
        {
            let key: u64 = self.pages.pages.key_at(i);
            proof {
                assert(order.take(i + 1).drop_last() =~= order.take(i as int));
                assert(order.contains(order[i as int]));
                assert(self@.pages.contains_key(key));
            }
            let ppn = self.pages.pages.value_at(i).ppn();
            match self.page_slots.get(key) {
                Some(slot) => {
                    let snapshot = slot.snapshot();
                    match snapshot.state {
                        PageSlotState::Dirty { .. } => {
                            dirty.push(
                                DirtyPage {
                                    page: PageIndex::new(key),
                                    ppn,
                                    generation: snapshot.generation,
                                },
                            );
                        },
                        _ => {},
                    }
                },
                None => {},
            }
            assert(dirty@ =~= picked(order.take(i + 1), self@.flushable()).map_values(name));
            i += 1;
        }
        proof {
            assert(order.take(i as int) =~= order);
            self.pages.pages.lemma_order();
            lemma_picked(order, self@.flushable());
        }
        dirty
    }

    /// Note that a captured page has been written. A page that was written to
    /// since stays dirty.
    pub fn finish_page_flush(&mut self, dirty: DirtyPage)
        requires
            old(self).wf(),
        ensures
            final(self).wf(),
            final(self)@ == old(self)@.page_flushed(dirty),
    {
        let ghost before = self@;
        self.stored_size = None;
        self.eof_pending = true;
        if self.page_slots.contains_key(dirty.page.0) {
            let slot = self.page_slots.get_mut(dirty.page.0);
            let _cleaned = slot.mark_clean_if_matches(dirty.generation, dirty.ppn);
        }
        proof {
            let expected = before.page_flushed(dirty);
            assert(self@.slots =~= expected.slots);
            assert(self@ =~= expected);
        }
    }

    /// Write every dirty page of a file, and say how many were written.
    pub fn flush_dirty_pages_to_file_backing(&mut self, replies: &Vec<FsReply>) -> (report:
        FlushReport)
        requires
            old(self).wf(),
        ensures
            final(self).wf(),
            ({
                let flush = old(self)@.flush_dirty(replies@);
                &&& final(self)@ == flush.view
                &&& report.outcome == flush.outcome
                &&& report.calls@ == flush.calls
            }),
    {
        let object = match self.backing_object() {
            Some(object) => object,
            None => {
                return FlushReport { outcome: StepOutcome::Done(0), calls: Vec::new() };
            },
        };
        let dirty = self.dirty_pages_snapshot();
        let mut calls: Vec<FsCall> = Vec::new();
        let mut flushed: u32 = 0;
        let mut i: usize = 0;
        while i < dirty.len()
            invariant
                self.wf(),
                i <= dirty@.len(),
                self@.kind == old(self)@.kind,
                self@.kind is File,
                object == self@.object(),
                old(self)@.flush_dirty(replies@) == self@.flush_from(
                    dirty@,
                    replies@,
                    i as nat,
                    flushed,
                    calls@,
                ),
            decreases dirty@.len() - i,
        {
            let one = dirty[i];
            let offset: u64 = match one.page.0.checked_mul(PAGE_BYTES) {
                Some(offset) => offset,
                None => {
                    return FlushReport { outcome: StepOutcome::Error(Errno::EINVAL), calls };
                },
            };
            if i >= replies.len() {
                return FlushReport {
                    outcome: StepOutcome::Continue { progress: PageProgress::new(flushed) },
                    calls,
                };
            }
            calls.push(FsCall::FlushPage { object, offset, ppn: one.ppn });
            match stop_at(&replies[i], PageProgress::new(flushed)) {
                Some(outcome) => {
                    return FlushReport { outcome, calls };
                },
                None => {},
            }
            self.finish_page_flush(one);
            if flushed < u32::MAX {
                flushed += 1;
            }
            i += 1;
        }
        FlushReport { outcome: StepOutcome::Done(flushed), calls }
    }

    /// The call by which an fsync tells the backing store the exact size, if
    /// pages were flushed since it was last told.
    pub fn eof_correction(&self) -> (call: Option<FsCall>)
        ensures
            call == (if self@.corrects_eof() {
                Some(self@.size_call())
            } else {
                None
            }),
    {
        match self.backing_object() {
            None => None,
            Some(object) => {
                if self.eof_pending {
                    Some(FsCall::Truncate { object, size: self.size_bytes })
                } else {
                    None
                }
            },
        }
    }

    /// The call that tells the backing store the exact size, if it is not known
    /// to have it.
    pub fn size_correction(&self) -> (call: Option<FsCall>)
        ensures
            call == (if self@.size_unstored() {
                Some(self@.size_call())
            } else {
                None
            }),
    {
        match self.backing_object() {
            None => None,
            Some(object) => {
                let stored = match self.stored_size {
                    Some(stored) => stored == self.size_bytes,
                    None => false,
                };
                if stored {
                    None
                } else {
                    Some(FsCall::Truncate { object, size: self.size_bytes })
                }
            },
        }
    }

    /// Note the filesystem's answer to the correction of the stored size.
    pub fn finish_size_correction(&mut self, reply: &FsReply)
        requires
            old(self).wf(),
        ensures
            final(self).wf(),
            final(self)@ == old(self)@.size_told(*reply),
    {
        match reply {
            StepOutcome::Done(()) => {
                self.stored_size = Some(self.size_bytes);
                self.eof_pending = false;
            },
            _ => {},
        }
    }

    /// Write every dirty page for others to see once the file is closed,
    /// without waiting for durability. The answer to the correction of the
    /// stored size decides nothing.
    pub fn flush_dirty_pages_for_close_visibility(
        &mut self,
        replies: &Vec<FsReply>,
        truncate: &FsReply,
    ) -> (report: SyncReport)
        requires
            old(self).wf(),
        ensures
            final(self).wf(),
            ({
                let flush = old(self)@.flush_dirty(replies@);
                let tells = flush.outcome matches StepOutcome::Done(pages) && pages > 0;
                &&& final(self)@ == if tells {
                    flush.view.size_told(*truncate)
                } else {
                    flush.view
                }
                &&& report.outcome == match flush.outcome {
                    StepOutcome::Done(_) => StepOutcome::<(), PageProgress>::Done(()),
                    StepOutcome::Continue { progress } => StepOutcome::Continue { progress },
                    StepOutcome::Yield { progress, shape } => StepOutcome::Yield { progress, shape },
                    StepOutcome::Error(errno) => StepOutcome::Error(errno),
                }
                &&& report.calls@ == if tells {
                    flush.calls.push(flush.view.size_call())
                } else {
                    flush.calls
                }
            }),
    {
        let FlushReport { outcome, calls } = self.flush_dirty_pages_to_file_backing(replies);
        let mut calls = calls;
        proof {
            let list = old(self)@.flush_list();
            lemma_flush_keeps_kind(old(self)@, list, replies@, 0, 0, Seq::empty());
        }
        match outcome {
            StepOutcome::Done(pages) => {
                if pages > 0 {
                    match self.backing_object() {
                        Some(object) => {
                            calls.push(FsCall::Truncate { object, size: self.size_bytes });
                            self.finish_size_correction(truncate);
                        },
                        None => {},
                    }
                }
                SyncReport { outcome: StepOutcome::Done(()), calls }
            },
            StepOutcome::Continue { progress } => SyncReport {
                outcome: StepOutcome::Continue { progress },
                calls,
            },
            StepOutcome::Yield { progress, shape } => SyncReport {
                outcome: StepOutcome::Yield { progress, shape },
                calls,
            },
            StepOutcome::Error(errno) => SyncReport { outcome: StepOutcome::Error(errno), calls },
        }
    }

    /// Tell the backing store the exact size when a file is closed. Page
    /// contents are left to writeback.
    pub fn publish_exact_size_for_close_visibility(&mut self, reply: &FsReply) -> (report: SyncReport)
        requires
            old(self).wf(),
        ensures
            final(self).wf(),
            old(self)@.size_unstored() ==> {
                &&& final(self)@ == old(self)@.size_told(*reply)
                &&& report.outcome == synced(*reply, 0)
                &&& report.calls@ == seq![old(self)@.size_call()]
            },
            !old(self)@.size_unstored() ==> {
                &&& final(self)@ == old(self)@
                &&& report.outcome == StepOutcome::<(), PageProgress>::Done(())
                &&& report.calls@ == Seq::<FsCall>::empty()
            },
    {
        let mut calls: Vec<FsCall> = Vec::new();
        match self.size_correction() {
            None => SyncReport { outcome: StepOutcome::Done(()), calls },
            Some(call) => {
                calls.push(call);
                self.finish_size_correction(reply);
                let outcome = match stop_at(reply, PageProgress::new(0)) {
                    Some(outcome) => outcome,
                    None => StepOutcome::Done(()),
                };
                assert(calls@ =~= seq![old(self)@.size_call()]);
                SyncReport { outcome, calls }
            },
        }
    }
}

/// Make a file durable: write its dirty pages, correct the stored size, sync.
/// Nothing is to be done for other containers.
pub fn step_fsync(pc: &mut PageContainer, replies: &FsyncReplies) -> (report: SyncReport)
    requires
        old(pc).wf(),
    ensures
        final(pc).wf(),
        ({
            let sync = old(pc)@.fsync_step(replies.flushes@, replies.truncate, replies.sync);
            &&& final(pc)@ == sync.view
            &&& report.outcome == sync.outcome
            &&& report.calls@ == sync.calls
        }),
{
    let object = match pc.backing_object() {
        Some(object) => object,
        None => {
            return SyncReport { outcome: StepOutcome::Done(()), calls: Vec::new() };
        },
    };
    let FlushReport { outcome, calls } = pc.flush_dirty_pages_to_file_backing(&replies.flushes);
    let mut calls = calls;
    proof {
        let list = old(pc)@.flush_list();
        lemma_flush_keeps_kind(old(pc)@, list, replies.flushes@, 0, 0, Seq::empty());
    }
    let pages: u32 = match outcome {
        StepOutcome::Done(pages) => pages,
        StepOutcome::Continue { progress } => {
            return SyncReport { outcome: StepOutcome::Continue { progress }, calls };
        },
        StepOutcome::Yield { progress, shape } => {
            return SyncReport { outcome: StepOutcome::Yield { progress, shape }, calls };
        },
        StepOutcome::Error(errno) => {
            return SyncReport { outcome: StepOutcome::Error(errno), calls };
        },
    };
    match pc.eof_correction() {
        Some(call) => {
            calls.push(call);
            pc.finish_size_correction(&replies.truncate);
            match stop_at(&replies.truncate, PageProgress::new(0)) {
                Some(outcome) => {
                    return SyncReport { outcome, calls };
                },
                None => {},
            }
        },
        None => {},
    }
    calls.push(FsCall::SyncFile { object });
    let outcome = match stop_at(&replies.sync, PageProgress::new(pages)) {
        Some(outcome) => outcome,
        None => StepOutcome::Done(()),
    };
    SyncReport { outcome, calls }
}

/// What a size change did.
#[verifier::ext_equal]
pub struct ResizeView {
    pub view: ContainerView,
    pub outcome: StepOutcome<(), PageProgress>,
    /// Bytes that have to be cleared.
    pub zero_tail: Option<ZeroTail>,
    /// Wait sources to notify, in page order.
    pub notify: Seq<u64>,
    /// The cached pages could not be given up yet: only that is to be tried
    /// again.
    pub pending: bool,
}

impl ResizeView {
    /// Ended with `outcome`, without an effect.
    pub open spec fn only(view: ContainerView, outcome: StepOutcome<(), PageProgress>) -> Self {
        ResizeView { view, outcome, zero_tail: None, notify: Seq::empty(), pending: false }
    }
}

/// Outcome of a size change that the filesystem has answered with done, or with
/// a wish to be called again.
pub open spec fn resized(advanced: bool) -> StepOutcome<(), PageProgress> {
    if advanced {
        StepOutcome::Continue { progress: PageProgress(0) }
    } else {
        StepOutcome::Done(())
    }
}

impl ContainerView {
    /// Fetches under way for pages from `first` on.
    pub open spec fn fetches_from(self, first: PageIndex) -> Set<u64> {
        Set::new(|k: u64| self.fetches.contains_key(k) && k >= first.0)
    }

    /// Outcome of giving up the fetches of `pages`, with the sources to notify.
    pub open spec fn retire_fetches(self, pages: Seq<u64>) -> (Self, Seq<u64>)
        decreases pages.len(),
    {
        if pages.len() == 0 {
            (self, Seq::empty())
        } else {
            let (rest, notices) = self.retire_fetches(pages.drop_last());
            let page = PageIndex(pages.last());
            (
                rest.fetch_retired(page),
                match rest.fetch_notice(page, rest.fetches[page.0]) {
                    Some(source) => notices.push(source),
                    None => notices,
                },
            )
        }
    }

    /// Bytes of the cached last page that lie beyond `size`.
    pub open spec fn tail_beyond(self, size: u64) -> Option<ZeroTail> {
        let within = size % PAGE_BYTES;
        match self.frame_of(PageIndex(size / PAGE_BYTES)) {
            Some(ppn) if within != 0 => Some(
                ZeroTail { ppn, offset: within as usize, len: (PAGE_BYTES - within) as usize },
            ),
            _ => None,
        }
    }

    /// Whether the container can have `size` bytes.
    pub open spec fn resizable(self, size: u64) -> bool {
        self.kind !is Device && (self.capacity() matches Some(capacity) && size <= capacity)
    }

    /// Outcome of giving the container `size` bytes, once the filesystem agrees.
    pub open spec fn commit_size(self, size: u64, advanced: bool, retire: bool) -> ResizeView {
        if size < self.size_bytes {
            let first = PageIndex(pages_for(size) as u64);
            let (withdrawn, done) = self.withdraw_from(first, retire);
            if !done {
                ResizeView {
                    pending: true,
                    ..ResizeView::only(
                        self,
                        StepOutcome::Continue { progress: PageProgress(0) },
                    )
                }
            } else {
                let (quiet, notify) = withdrawn.retire_fetches(ascending(self.fetches_from(first)));
                ResizeView {
                    view: ContainerView { size_bytes: size, ..quiet },
                    outcome: resized(advanced),
                    zero_tail: withdrawn.tail_beyond(size),
                    notify,
                    pending: false,
                }
            }
        } else {
            ResizeView::only(ContainerView { size_bytes: size, ..self }, resized(advanced))
        }
    }

    /// After the filesystem has set the stored size to `size`, for good or for
    /// now.
    pub open spec fn store_resized(self, size: u64, advanced: bool) -> Self {
        ContainerView {
            stored_size: if advanced {
                None
            } else {
                Some(size)
            },
            eof_pending: self.eof_pending && advanced,
            ..self
        }
    }

    /// Outcome of truncating to `size`. `reply` is the filesystem's answer,
    /// which counts for a file only.
    pub open spec fn truncate_step(self, size: u64, reply: FsReply, retire: bool) -> ResizeView {
        if !self.resizable(size) {
            ResizeView::only(self, StepOutcome::Error(Errno::EINVAL))
        } else if self.kind is File {
            match reply {
                StepOutcome::Done(()) => self.store_resized(size, false).commit_size(
                    size,
                    false,
                    retire,
                ),
                StepOutcome::Continue { .. } => self.store_resized(size, true).commit_size(
                    size,
                    true,
                    retire,
                ),
                StepOutcome::Yield { shape, .. } => ResizeView::only(
                    self,
                    passed_on(shape, PageProgress(0)),
                ),
                StepOutcome::Error(errno) => ResizeView::only(self, StepOutcome::Error(errno)),
            }
        } else {
            self.commit_size(size, false, retire)
        }
    }

    /// Outcome of reserving store up to `size`, which only ever grows a
    /// container.
    pub open spec fn fallocate_step(self, size: u64, reply: FsReply) -> (
        Self,
        StepOutcome<(), PageProgress>,
    ) {
        if !self.resizable(size) {
            (self, StepOutcome::Error(Errno::EINVAL))
        } else if size <= self.size_bytes {
            (self, StepOutcome::Done(()))
        } else if self.kind is File {
            match reply {
                StepOutcome::Done(()) => (
                    ContainerView {
                        size_bytes: size,
                        stored_size: Some(size),
                        ..self
                    },
                    StepOutcome::Done(()),
                ),
                StepOutcome::Continue { .. } => (
                    ContainerView { size_bytes: size, ..self.store_resized(size, true) },
                    StepOutcome::Continue { progress: PageProgress(0) },
                ),
                StepOutcome::Yield { shape, .. } => (self, passed_on(shape, PageProgress(0))),
                StepOutcome::Error(errno) => (self, StepOutcome::Error(errno)),
            }
        } else {
            (ContainerView { size_bytes: size, ..self }, StepOutcome::Done(()))
        }
    }
}

/// A size change as it went.
#[derive(Debug)]
pub struct ResizeReport {
    pub outcome: StepOutcome<(), PageProgress>,
    pub zero_tail: Option<ZeroTail>,
    pub notify: Vec<u64>,
    pub pending: bool,
}

impl ResizeReport {
    /// Whether this reports `resize`.
    pub open spec fn reports(self, resize: ResizeView) -> bool {
        &&& self.outcome == resize.outcome
        &&& self.zero_tail == resize.zero_tail
        &&& self.notify@ == resize.notify
        &&& self.pending == resize.pending
    }

    fn only(outcome: StepOutcome<(), PageProgress>) -> (report: Self)
        ensures
            forall|view: ContainerView| #[trigger]
                report.reports(ResizeView::only(view, outcome)),
    {
        ResizeReport { outcome, zero_tail: None, notify: Vec::new(), pending: false }
    }
}

fn resize_outcome(advanced: bool) -> (outcome: StepOutcome<(), PageProgress>)
    ensures
        outcome == resized(advanced),
{
    if advanced {
        StepOutcome::Continue { progress: PageProgress::new(0) }
    } else {
        StepOutcome::Done(())
    }
}

impl PageContainer {
    /// Whether the container can have `size` bytes.
    pub fn can_resize(&self, size: u64) -> (can: bool)
        ensures
            can == self@.resizable(size),
    {
        if self.is_device() {
            return false;
        }
        match self.byte_capacity() {
            Some(capacity) => size <= capacity,
            None => false,
        }
    }

    /// The call that a truncation to `size` starts with, if it makes one.
    pub fn truncate_call(&self, size: u64) -> (call: Option<FsCall>)
        ensures
            call == (if self@.kind is File && self@.resizable(size) {
                Some(FsCall::Truncate { object: self@.object(), size })
            } else {
                None
            }),
    {
        if !self.can_resize(size) {
            return None;
        }
        match self.backing_object() {
            Some(object) => Some(FsCall::Truncate { object, size }),
            None => None,
        }
    }

    /// The call that a reservation up to `size` starts with, if it makes one.
    pub fn fallocate_call(&self, size: u64) -> (call: Option<FsCall>)
        ensures
            call == (if self@.kind is File && self@.resizable(size) && size > self@.size_bytes {
                Some(FsCall::Fallocate { object: self@.object(), size })
            } else {
                None
            }),
    {
        if !self.can_resize(size) || size <= self.size_bytes {
            return None;
        }
        match self.backing_object() {
            Some(object) => Some(FsCall::Fallocate { object, size }),
            None => None,
        }
    }

    /// Give up every fetch from `first` on, and say whom to notify.
    fn retire_fetches_from(&mut self, first: PageIndex) -> (notify: Vec<u64>)
        requires
            old(self).wf(),
        ensures
            final(self).wf(),
            (final(self)@, notify@) == old(self)@.retire_fetches(
                ascending(old(self)@.fetches_from(first)),
            ),
    {
        let ghost before = self@;
        let ghost order = self.in_flight_file_pages.order();
        let ghost set = before.fetches_from(first);
        let mut pages: Vec<u64> = Vec::new();
        let mut i: usize = 0;
        while i < self.in_flight_file_pages.len()
            invariant
                self.wf(),
                self@ == before,
                order == self.in_flight_file_pages.order(),
                set == before.fetches_from(first),
                i <= order.len(),
                pages@ == picked(order.take(i as int), set),
            decreases order.len() - i,
        {
            let key: u64 = self.in_flight_file_pages.key_at(i);
            proof {
                assert(order.take(i + 1).drop_last() =~= order.take(i as int));
                self.in_flight_file_pages.lemma_order();
                assert(order.contains(order[i as int]));
            }
            if key >= first.0 {
                pages.push(key);
            }
            i += 1;
        }
        proof {
            assert(order.take(i as int) =~= order);
            self.in_flight_file_pages.lemma_order();
            lemma_picked(order, set);
        }
        let mut notify: Vec<u64> = Vec::new();
        let mut i: usize = 0;
        assert(pages@.take(0) =~= Seq::<u64>::empty());
        while i < pages.len()
            invariant
                self.wf(),
                i <= pages@.len(),
                set == before.fetches_from(first),
                lists(pages@, set),
                forall|k: u64|
                    before.fetches.contains_key(k) && !(#[trigger] pages@.take(i as int).contains(
                        k,
                    )) ==> self@.fetches.contains_key(k),
                (self@, notify@) == before.retire_fetches(pages@.take(i as int)),
            decreases pages@.len() - i,
        {
            let page = PageIndex::new(pages[i]);
            let ghost fewer = pages@.take(i as int);
            proof {
                assert(pages@.take(i + 1).drop_last() =~= fewer);
                assert(pages@.contains(pages@[i as int]));
                if fewer.contains(page.0) {
                    let j = fewer.index_of(page.0);
                    assert(pages@[j] < pages@[i as int]);
                }
                assert(!fewer.contains(page.0));
                assert(self@.fetches.contains_key(page.0));
            }
            match self.retire_file_page_fetch_wait(page) {
                Some(source) => {
                    notify.push(source);
                },
                None => {},
            }
            proof {
                let more = pages@.take(i + 1);
                assert forall|k: u64|
                    before.fetches.contains_key(k) && !(#[trigger] more.contains(
                        k,
                    )) implies self@.fetches.contains_key(k) by {
                    if fewer.contains(k) {
                        let j = fewer.index_of(k);
                        assert(more[j] == k);
                    }
                    assert(more[i as int] == page.0);
                }
            }
            i += 1;
        }
        assert(pages@.take(i as int) =~= pages@);
        notify
    }

    /// Bytes of the cached last page that lie beyond `size` and have to be
    /// cleared, so that growing again does not bring them back.
    pub fn partial_eof_tail(&self, size: u64) -> (tail: Option<ZeroTail>)
        requires
            self.wf(),
        ensures
            tail == self@.tail_beyond(size),
    {
        let within: u64 = size % PAGE_BYTES;
        if within == 0 {
            return None;
        }
        match self.lookup(PageIndex::new(size / PAGE_BYTES)) {
            Some(ppn) => Some(
                ZeroTail { ppn, offset: within as usize, len: (PAGE_BYTES - within) as usize },
            ),
            None => None,
        }
    }

    /// Give the container `size` bytes. Shrinking drops every cached page that
    /// lies wholly beyond, or changes nothing.
    pub fn commit_size(&mut self, size: u64, advanced: bool, retire: bool) -> (report: ResizeReport)
        requires
            old(self).wf(),
            old(self)@.resizable(size),
        ensures
            final(self).wf(),
            final(self)@ == old(self)@.commit_size(size, advanced, retire).view,
            report.reports(old(self)@.commit_size(size, advanced, retire)),
    {
        if size >= self.size_bytes {
            self.set_size_bytes(size);
            return ResizeReport::only(resize_outcome(advanced));
        }
        let first = PageIndex::new(
            if size == 0 {
                0
            } else {
                (size - 1) / PAGE_BYTES + 1
            },
        );
        assert(first.0 == pages_for(size) as u64);
        let ghost before = self@;
        if !self.withdraw_cached_pages_from(first, retire) {
            return ResizeReport {
                outcome: StepOutcome::Continue { progress: PageProgress::new(0) },
                zero_tail: None,
                notify: Vec::new(),
                pending: true,
            };
        }
        assert(self@.fetches_from(first) =~= before.fetches_from(first));
        let zero_tail = self.partial_eof_tail(size);
        let notify = self.retire_fetches_from(first);
        self.set_size_bytes(size);
        ResizeReport { outcome: resize_outcome(advanced), zero_tail, notify, pending: false }
    }
}

/// Truncate the container to `new_size` bytes. `reply` answers the call that
/// `truncate_call` names.
pub fn step_truncate(pc: &mut PageContainer, new_size: u64, reply: &FsReply, retire: bool) -> (report:
    ResizeReport)
    requires
        old(pc).wf(),
    ensures
        final(pc).wf(),
        final(pc)@ == old(pc)@.truncate_step(new_size, *reply, retire).view,
        report.reports(old(pc)@.truncate_step(new_size, *reply, retire)),
{
    if !pc.can_resize(new_size) {
        return ResizeReport::only(StepOutcome::Error(Errno::EINVAL));
    }
    if !pc.is_file() {
        return pc.commit_size(new_size, false, retire);
    }
    match reply {
        StepOutcome::Done(()) => {
            pc.stored_size = Some(new_size);
            pc.eof_pending = false;
            pc.commit_size(new_size, false, retire)
        },
        StepOutcome::Continue { .. } => {
            pc.stored_size = None;
            pc.commit_size(new_size, true, retire)
        },
        StepOutcome::Yield { shape, .. } => ResizeReport::only(pass_on(shape, PageProgress::new(0))),
        StepOutcome::Error(errno) => ResizeReport::only(StepOutcome::Error(*errno)),
    }
}

/// Reserve store for `new_size` bytes and make them visible. `reply` answers
/// the call that `fallocate_call` names.
pub fn step_fallocate(pc: &mut PageContainer, new_size: u64, reply: &FsReply) -> (outcome:
    StepOutcome<(), PageProgress>)
    requires
        old(pc).wf(),
    ensures
        final(pc).wf(),
        (final(pc)@, outcome) == old(pc)@.fallocate_step(new_size, *reply),
{
    if !pc.can_resize(new_size) {
        return StepOutcome::Error(Errno::EINVAL);
    }
    if new_size <= pc.size_bytes {
        return StepOutcome::Done(());
    }
    if !pc.is_file() {
        pc.set_size_bytes(new_size);
        return StepOutcome::Done(());
    }
    match reply {
        StepOutcome::Done(()) => {
            pc.stored_size = Some(new_size);
            pc.set_size_bytes(new_size);
            StepOutcome::Done(())
        },
        StepOutcome::Continue { .. } => {
            pc.stored_size = None;
            pc.set_size_bytes(new_size);
            StepOutcome::Continue { progress: PageProgress::new(0) }
        },
        StepOutcome::Yield { shape, .. } => pass_on(shape, PageProgress::new(0)),
        StepOutcome::Error(errno) => StepOutcome::Error(*errno),
    }
}

/// How far a truncation has come.
#[derive(Clone, Copy, Debug, PartialEq, Eq, Structural)]
pub enum TruncatePhase {
    /// The filesystem has to be asked.
    Ask,
    /// The filesystem agreed: only the container has to follow.
    Commit { advanced: bool },
}

/// A truncation that can be stepped again.
#[derive(Clone, Copy, Debug, PartialEq, Eq, Structural)]
pub struct TruncateOp {
    pub new_size: u64,
    pub phase: TruncatePhase,
}

impl TruncateOp {
    pub fn new(new_size: u64) -> (op: Self)
        ensures
            op == (TruncateOp { new_size, phase: TruncatePhase::Ask }),
    {
        TruncateOp { new_size, phase: TruncatePhase::Ask }
    }

    /// Outcome of one step on `pc`.
    pub open spec fn stepped(self, pc: ContainerView, reply: FsReply, retire: bool) -> ResizeView {
        match self.phase {
            TruncatePhase::Ask => pc.truncate_step(self.new_size, reply, retire),
            TruncatePhase::Commit { advanced } => if pc.resizable(self.new_size) {
                pc.commit_size(self.new_size, advanced, retire)
            } else {
                ResizeView::only(pc, StepOutcome::Error(Errno::EINVAL))
            },
        }
    }

    /// The phase that a step leads to.
    pub open spec fn next_phase(self, pc: ContainerView, reply: FsReply, retire: bool) -> TruncatePhase {
        if !self.stepped(pc, reply, retire).pending {
            TruncatePhase::Ask
        } else {
            match self.phase {
                TruncatePhase::Ask => TruncatePhase::Commit {
                    advanced: pc.kind is File && reply is Continue,
                },
                TruncatePhase::Commit { .. } => self.phase,
            }
        }
    }

    /// The call that the next step needs an answer to, if any.
    pub fn call(&self, pc: &PageContainer) -> (call: Option<FsCall>)
        ensures
            call == (if self.phase is Ask && pc@.kind is File && pc@.resizable(self.new_size) {
                Some(FsCall::Truncate { object: pc@.object(), size: self.new_size })
            } else {
                None
            }),
    {
        match self.phase {
            TruncatePhase::Ask => pc.truncate_call(self.new_size),
            TruncatePhase::Commit { .. } => None,
        }
    }

    pub fn step(&mut self, pc: &mut PageContainer, reply: &FsReply, retire: bool) -> (report:
        ResizeReport)
        requires
            old(pc).wf(),
        ensures
            final(pc).wf(),
            final(pc)@ == old(self).stepped(old(pc)@, *reply, retire).view,
            report.reports(old(self).stepped(old(pc)@, *reply, retire)),
            *final(self) == (TruncateOp {
                new_size: old(self).new_size,
                phase: old(self).next_phase(old(pc)@, *reply, retire),
            }),
    {
        match self.phase {
            TruncatePhase::Ask => {
                let advanced = pc.is_file() && match reply {
                    StepOutcome::Continue { .. } => true,
                    _ => false,
                };
                let report = step_truncate(pc, self.new_size, reply, retire);
                if report.pending {
                    self.phase = TruncatePhase::Commit { advanced };
                }
                report
            },
            TruncatePhase::Commit { advanced } => {
                if !pc.can_resize(self.new_size) {
                    self.phase = TruncatePhase::Ask;
                    return ResizeReport::only(StepOutcome::Error(Errno::EINVAL));
                }
                let report = pc.commit_size(self.new_size, advanced, retire);
                if !report.pending {
                    self.phase = TruncatePhase::Ask;
                }
                report
            },
        }
    }
}

/// A reservation of store that can be stepped again.
#[derive(Clone, Copy, Debug, PartialEq, Eq, Structural)]
pub struct FallocateOp {
    pub new_size: u64,
}

impl FallocateOp {
    pub fn step(&self, pc: &mut PageContainer, reply: &FsReply) -> (outcome: StepOutcome<
        (),
        PageProgress,
    >)
        requires
            old(pc).wf(),
        ensures
            final(pc).wf(),
            (final(pc)@, outcome) == old(pc)@.fallocate_step(self.new_size, *reply),
    {
        step_fallocate(pc, self.new_size, reply)
    }
}

/// Outcome of an fsync through a backend planner whose writeback stands at
/// `advance`; the filesystem is asked to sync once it is complete.
pub open spec fn planned_sync(advance: Result<FileFsyncFrontierAdvance, Errno>, sync: FsReply) ->
    StepOutcome<(), PageProgress> {
    match advance {
        Err(errno) => StepOutcome::Error(errno),
        Ok(FileFsyncFrontierAdvance::Error(errno)) => StepOutcome::Error(errno),
        Ok(FileFsyncFrontierAdvance::Complete) => synced(sync, 0),
        Ok(_) => StepOutcome::Continue { progress: PageProgress(0) },
    }
}

/// An fsync that can be stepped again.
#[derive(Debug)]
pub struct FsyncOp {
    pub state: FileFsyncState,
}

impl FsyncOp {
    pub fn new() -> (op: Self)
        ensures
            op.state@ == FsyncStateView::fresh(),
    {
        FsyncOp { state: FileFsyncState::new() }
    }

    /// Take one step. With a backend planner the pages go through writeback;
    /// without one they are flushed here.
    pub fn step(
        &mut self,
        pc: &mut PageContainer,
        batch_pins: &Vec<Grant>,
        page_pins: &Vec<Grant>,
        replies: &FsyncReplies,
    ) -> (report: SyncReport)
        requires
            old(pc).wf(),
        ensures
            final(pc).wf(),
            !old(pc)@.planned() ==> {
                let sync = old(pc)@.fsync_step(replies.flushes@, replies.truncate, replies.sync);
                &&& final(self).state@ == old(self).state@
                &&& final(pc)@ == sync.view
                &&& report.outcome == sync.outcome
                &&& report.calls@ == sync.calls
            },
            old(pc)@.planned() ==> {
                let (state, view, advance) = old(self).state@.advance(
                    old(pc)@,
                    batch_pins@,
                    page_pins@,
                );
                &&& final(self).state@ == state
                &&& final(pc)@ == view
                &&& report.outcome == planned_sync(advance, replies.sync)
                &&& report.calls@ == if advance == Ok::<_, Errno>(
                    FileFsyncFrontierAdvance::Complete,
                ) {
                    seq![FsCall::SyncFile { object: old(pc)@.object() }]
                } else {
                    Seq::empty()
                }
            },
    {
        if !pc.has_backend_planner() {
            return step_fsync(pc, replies);
        }
        let object = pc.backing_object();
        let mut calls: Vec<FsCall> = Vec::new();
        match self.state.advance(pc, batch_pins, page_pins) {
            Err(errno) => SyncReport { outcome: StepOutcome::Error(errno), calls },
            Ok(FileFsyncFrontierAdvance::Error(errno)) => SyncReport {
                outcome: StepOutcome::Error(errno),
                calls,
            },
            Ok(FileFsyncFrontierAdvance::Complete) => {
                match object {
                    Some(object) => {
                        calls.push(FsCall::SyncFile { object });
                        assert(calls@ =~= seq![FsCall::SyncFile { object }]);
                    },
                    None => {},
                }
                let outcome = match stop_at(&replies.sync, PageProgress::new(0)) {
                    Some(outcome) => outcome,
                    None => StepOutcome::Done(()),
                };
                SyncReport { outcome, calls }
            },
            Ok(_) => SyncReport {
                outcome: StepOutcome::Continue { progress: PageProgress::new(0) },
                calls,
            },
        }
    }
}

/// After a truncation that went through, the container has the new size, and no
/// page that lies wholly beyond it is cached, published or being fetched.
pub proof fn law_truncate_leaves_nothing_beyond(
    pc: PageContainer,
    size: u64,
    reply: FsReply,
    retire: bool,
    page: PageIndex,
)
    requires
        pc.wf(),
        size < pc@.size_bytes,
        page.0 >= pages_for(size),
        ({
            let resize = pc@.truncate_step(size, reply, retire);
            &&& !resize.pending
            &&& resize.outcome is Done || resize.outcome is Continue
        }),
    ensures
        ({
            let after = pc@.truncate_step(size, reply, retire).view;
            &&& after.size_bytes == size
            &&& !after.cached(page)
            &&& !after.root.contains_key(page.0)
            &&& !after.fetches.contains_key(page.0)
        }),
{
    let first = PageIndex(pages_for(size) as u64);
    assert(first.0 == pages_for(size));
    let advanced = pc@.kind is File && reply is Continue;
    let told = if pc@.kind is File {
        pc@.store_resized(size, advanced)
    } else {
        pc@
    };
    let withdrawn = told.withdraw_from(first, retire).0;
    let set = told.fetches_from(first);
    assert(set =~= pc@.fetches_from(first));
    lemma_picked(pc.in_flight_file_pages.order(), set);
    pc.in_flight_file_pages.lemma_order();
    lemma_retired_fetches(withdrawn, ascending(set));
    assert(!withdrawn.cached(page)) by {
        if withdrawn.cached(page) {
            assert(told.cached_from(first).contains(page.0));
        }
    }
    if withdrawn.root.contains_key(page.0) {
        assert(told.root.contains_key(page.0));
        assert(told.pages.contains_key(page.0));
        assert(told.cached_from(first).contains(page.0));
    }
    if pc@.fetches.contains_key(page.0) {
        assert(set.contains(page.0));
        assert(ascending(set).contains(page.0));
    }
}

/// Giving up fetches removes exactly them, and touches neither the cache nor
/// the root nor the size.
pub proof fn lemma_retired_fetches(view: ContainerView, pages: Seq<u64>)
    ensures
        ({
            let done = view.retire_fetches(pages).0;
            &&& done == (ContainerView {
                fetches: done.fetches,
                submission: done.submission,
                ..view
            })
            &&& forall|k: u64| #[trigger]
                done.fetches.contains_key(k) <==> view.fetches.contains_key(k) && !pages.contains(k)
        }),
    decreases pages.len(),
{
    if pages.len() > 0 {
        let init = pages.drop_last();
        lemma_retired_fetches(view, init);
        let done = view.retire_fetches(pages).0;
        assert forall|k: u64| #[trigger]
            done.fetches.contains_key(k) <==> view.fetches.contains_key(k) && !pages.contains(k) by {
            if pages.contains(k) && k != pages.last() {
                let i = pages.index_of(k);
                assert(init[i] == k);
            }
            if init.contains(k) {
                let i = init.index_of(k);
                assert(pages[i] == k);
            }
            assert(pages[pages.len() - 1] == pages.last());
        }
    }
}

/// A truncation that the filesystem refuses or delays, or whose pages cannot be
/// given up yet, changes nothing that is visible: not the size, not what is
/// cached, published, in a slot or being fetched.
pub proof fn law_unfinished_truncate_changes_nothing(
    view: ContainerView,
    size: u64,
    reply: FsReply,
    retire: bool,
)
    requires
        ({
            let resize = view.truncate_step(size, reply, retire);
            resize.pending || resize.outcome is Error || resize.outcome is Yield
        }),
    ensures
        ({
            let after = view.truncate_step(size, reply, retire).view;
            after == (ContainerView {
                stored_size: after.stored_size,
                eof_pending: after.eof_pending,
                ..view
            })
        }),
        !view.truncate_step(size, reply, retire).pending ==> view.truncate_step(
            size,
            reply,
            retire,
        ).view == view,
{
}

/// The filesystem is not asked twice: a truncation whose pages could not be
/// given up ends as it would have ended, whatever the filesystem would answer
/// now, once they can be given up.
pub proof fn law_truncate_retries_only_the_commit(
    op: TruncateOp,
    pc: ContainerView,
    first: FsReply,
    again: FsReply,
)
    requires
        op.phase is Ask,
        op.stepped(pc, first, false).pending,
        pc.sequence % 2 == 0,
    ensures
        ({
            let blocked = op.stepped(pc, first, false).view;
            let later = TruncateOp { phase: op.next_phase(pc, first, false), ..op };
            &&& later.phase is Commit
            &&& later.stepped(blocked, again, true) == op.stepped(pc, first, true)
            &&& !later.stepped(blocked, again, true).pending
        }),
{
    let advanced = pc.kind is File && first is Continue;
    let told = if pc.kind is File {
        pc.store_resized(op.new_size, advanced)
    } else {
        pc
    };
    assert(op.stepped(pc, first, false).view == told);
}

/// Truncating and reserving keep the visible size within the capacity.
pub proof fn law_size_stays_within_capacity(
    view: ContainerView,
    size: u64,
    reply: FsReply,
    retire: bool,
)
    requires
        view.capacity() matches Some(capacity) && view.size_bytes <= capacity,
    ensures
        view.truncate_step(size, reply, retire).view.size_bytes <= view.capacity()->Some_0,
        view.fallocate_step(size, reply).0.size_bytes <= view.capacity()->Some_0,
        view.fallocate_step(size, reply).0.size_bytes >= view.size_bytes,
{
}

/// The call that writes a captured page of `object`.
pub open spec fn flush_call(object: FsObjectId, dirty: DirtyPage) -> FsCall {
    FsCall::FlushPage { object, offset: (dirty.page.0 * PAGE_BYTES) as u64, ppn: dirty.ppn }
}

/// Whether the pages of `dirty` from `i` on are as they were captured.
spec fn still_dirty(view: ContainerView, dirty: Seq<DirtyPage>, i: nat) -> bool {
    forall|j: int|
        i <= j < dirty.len() ==> {
            let one = #[trigger] dirty[j];
            &&& view.slots.contains_key(one.page.0)
            &&& view.slot(one.page).generation == one.generation
            &&& view.slot(one.page).state == PageSlotState::Dirty { ppn: one.ppn }
        }
}

/// A flush that runs to its end has written every page, in order, and left
/// nothing else changed.
proof fn lemma_flush_cleans(
    view: ContainerView,
    dirty: Seq<DirtyPage>,
    replies: Seq<FsReply>,
    i: nat,
    flushed: u32,
    made: Seq<FsCall>,
)
    requires
        i <= dirty.len(),
        forall|j: int, k: int|
            0 <= j < k < dirty.len() ==> (#[trigger] dirty[j]).page != (#[trigger] dirty[k]).page,
        still_dirty(view, dirty, i),
    ensures
        ({
            let flush = view.flush_from(dirty, replies, i, flushed, made);
            flush.outcome is Done ==> {
                &&& forall|j: int|
                    i <= j < dirty.len() ==> flush.view.slot(
                        (#[trigger] dirty[j]).page,
                    ).state is Resident
                &&& forall|page: PageIndex|
                    (forall|j: int| i <= j < dirty.len() ==> (#[trigger] dirty[j]).page != page)
                        ==> #[trigger] flush.view.slot(page) == view.slot(page)
                &&& flush.calls == made + Seq::new(
                    (dirty.len() - i) as nat,
                    |j: int| flush_call(view.object(), dirty[i + j]),
                )
            }
        }),
    decreases dirty.len() - i,
{
    let flush = view.flush_from(dirty, replies, i, flushed, made);
    let object = view.object();
    if i >= dirty.len() {
        assert(made =~= made + Seq::new(0, |j: int| flush_call(object, dirty[i + j])));
    } else if flush.outcome is Done {
        let one = dirty[i as int];
        let next = view.page_flushed(one);
        let calls = made.push(flush_call(object, one));
        assert(still_dirty(next, dirty, i + 1)) by {
            assert forall|j: int| i + 1 <= j < dirty.len() implies {
                let other = #[trigger] dirty[j];
                &&& next.slots.contains_key(other.page.0)
                &&& next.slot(other.page).generation == other.generation
                &&& next.slot(other.page).state == PageSlotState::Dirty { ppn: other.ppn }
            } by {
                assert(dirty[i as int].page != dirty[j].page);
            }
        }
        lemma_flush_cleans(next, dirty, replies, i + 1, saturating_count(flushed), calls);
        let rest = Seq::new(
            (dirty.len() - i - 1) as nat,
            |j: int| flush_call(object, dirty[i + 1 + j]),
        );
        let all = Seq::new((dirty.len() - i) as nat, |j: int| flush_call(object, dirty[i + j]));
        assert(calls + rest =~= made + all);
        assert(next.slot(one.page).state is Resident);
        assert forall|j: int| i <= j < dirty.len() implies flush.view.slot(
            (#[trigger] dirty[j]).page,
        ).state is Resident by {
            if j == i {
                assert forall|k: int| i + 1 <= k < dirty.len() implies (
                #[trigger] dirty[k]).page != one.page by {
                    assert(dirty[i as int].page != dirty[k].page);
                }
            }
        }
        assert forall|page: PageIndex|
            (forall|j: int| i <= j < dirty.len() ==> (#[trigger] dirty[j]).page
                != page) implies #[trigger] flush.view.slot(page) == view.slot(page) by {
            assert(dirty[i as int].page != page);
        }
    }
}

/// An fsync that is done has written every dirty page of the file in page
/// order, told the backing store the exact size if any page was written since it
/// was last told, and then asked for a sync: no cached page is dirty any more,
/// and no correction of the size is pending.
pub proof fn law_done_fsync_has_written_everything(
    pc: PageContainer,
    flushes: Seq<FsReply>,
    truncate: FsReply,
    sync: FsReply,
)
    requires
        pc.wf(),
        pc@.kind is File,
        pc@.fsync_step(flushes, truncate, sync).outcome is Done,
    ensures
        ({
            let end = pc@.fsync_step(flushes, truncate, sync);
            let list = pc@.flush_list();
            let told = pc@.flush_dirty(flushes).view.corrects_eof();
            let written = Seq::new(list.len(), |j: int| flush_call(pc@.object(), list[j]));
            &&& end.view.flushable() == Set::<u64>::empty()
            &&& told == (list.len() > 0 || pc@.eof_pending)
            &&& told ==> end.view.stored_size == Some(end.view.size_bytes)
            &&& !end.view.eof_pending
            &&& end.view.size_bytes == pc@.size_bytes
            &&& end.calls == if told {
                written.push(pc@.size_call()).push(FsCall::SyncFile { object: pc@.object() })
            } else {
                written.push(FsCall::SyncFile { object: pc@.object() })
            }
        }),
{
    let list = pc@.flush_list();
    let set = pc@.flushable();
    let keys = ascending(set);
    let order = pc.pages.order();
    pc.pages.pages.lemma_order();
    lemma_picked(order, set);
    assert forall|j: int, k: int| 0 <= j < k < list.len() implies (#[trigger] list[j]).page != (
    #[trigger] list[k]).page by {
        assert(keys[j] < keys[k]);
    }
    assert(still_dirty(pc@, list, 0)) by {
        assert forall|j: int| 0 <= j < list.len() implies {
            let one = #[trigger] list[j];
            &&& pc@.slots.contains_key(one.page.0)
            &&& pc@.slot(one.page).generation == one.generation
            &&& pc@.slot(one.page).state == PageSlotState::Dirty { ppn: one.ppn }
        } by {
            assert(keys.contains(keys[j]));
            assert(pc@.pages.contains_key(keys[j]));
        }
    }
    lemma_flush_cleans(pc@, list, flushes, 0, 0, Seq::empty());
    lemma_flush_keeps_kind(pc@, list, flushes, 0, 0, Seq::empty());
    let flush = pc@.flush_dirty(flushes);
    let end = pc@.fsync_step(flushes, truncate, sync);
    let written = Seq::new(list.len(), |j: int| flush_call(pc@.object(), list[j]));
    assert(flush.calls =~= written);
    assert(flush.outcome is Done);
    assert forall|k: u64| !end.view.flushable().contains(k) by {
        if pc@.pages.contains_key(k) {
            let page = PageIndex(k);
            if set.contains(k) {
                assert(keys.contains(k));
                let j = keys.index_of(k);
                assert(list[j].page == page);
            } else {
                assert forall|j: int| 0 <= j < list.len() implies (#[trigger] list[j]).page
                    != page by {
                    assert(keys.contains(keys[j]));
                }
                assert(flush.view.slot(page) == pc@.slot(page));
            }
        }
    }
    assert(end.view.flushable() =~= Set::<u64>::empty());
}

/// A flush changes slots and the knowledge of the stored size only, which it
/// leaves to be corrected if it wrote a page.
pub proof fn lemma_flush_keeps_kind(
    view: ContainerView,
    dirty: Seq<DirtyPage>,
    replies: Seq<FsReply>,
    i: nat,
    flushed: u32,
    made: Seq<FsCall>,
)
    ensures
        ({
            let done = view.flush_from(dirty, replies, i, flushed, made).view;
            done == (ContainerView {
                slots: done.slots,
                stored_size: done.stored_size,
                eof_pending: done.eof_pending,
                ..view
            })
        }),
        view.flush_from(dirty, replies, i, flushed, made).outcome is Done ==> view.flush_from(
            dirty,
            replies,
            i,
            flushed,
            made,
        ).view.eof_pending == (view.eof_pending || i < dirty.len()),
    decreases dirty.len() - i,
{
    if i < dirty.len() && i < replies.len() && dirty[i as int].page.0 * PAGE_BYTES <= u64::MAX {
        if stopped_by::<u32>(replies[i as int], PageProgress(flushed)) is None {
            let one = dirty[i as int];
            let calls = made.push(
                FsCall::FlushPage {
                    object: view.object(),
                    offset: (one.page.0 * PAGE_BYTES) as u64,
                    ppn: one.ppn,
                },
            );
            lemma_flush_keeps_kind(
                view.page_flushed(one),
                dirty,
                replies,
                i + 1,
                saturating_count(flushed),
                calls,
            );
        }
    }
}

} // verus!
