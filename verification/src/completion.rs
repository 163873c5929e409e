//! The one terminal route of every admitted file request.

use crate::block_runtime::BlockPageCompletion;
use crate::container::{ContainerView, PageContainer, PageContainerKind};
use crate::frame::{
    adopted, cached_frame_from_frame, page_cache_error_to_errno, CachedFrame, Frame, Grant,
};
use crate::fsync_submission::{FsyncSubmission, FsyncSubmissionState};
use crate::ids::{Errno, FsObjectId, PageGeneration, PageIndex, PageIoRequestId, Ppn};
use crate::io::{
    IoDataSource, IoDataTarget, PageCompletionRoute, PageIoCompletion, PageIoCompletionKind,
    PageIoOp, PageIoRequest, PageIoResult,
};
use crate::lease::{FileIoPayload, FileIoTerminalResult, PayloadView};
use crate::page_submission::SubmissionView;
use crate::slot::{after, PageSlotCompletionError, PageSlotSnapshot, PageSlotState, SlotResult};
use vstd::prelude::*;

verus! {

/// What a writeback's end does to each of its pages.
#[derive(Clone, Copy, Debug)]
pub enum WritebackEnd {
    /// It was never submitted.
    Abort,
    Complete(Result<(), Errno>),
}

pub open spec fn writeback_ended(
    slot: PageSlotSnapshot,
    generation: PageGeneration,
    end: WritebackEnd,
) -> SlotResult {
    match end {
        WritebackEnd::Abort => slot.writeback_aborted(generation),
        WritebackEnd::Complete(result) => slot.writeback_completed(generation, result),
    }
}

/// The ends of several pages, as a value.
#[verifier::ext_equal]
pub struct BatchView {
    pub view: ContainerView,
    pub first_done: Option<PageSlotSnapshot>,
    pub first_error: Option<PageSlotCompletionError>,
}

impl BatchView {
    /// An error of any page counts before the success of others.
    pub open spec fn result(self) -> Option<SlotResult> {
        match (self.first_error, self.first_done) {
            (Some(error), _) => Some(Err(error)),
            (None, Some(snapshot)) => Some(Ok(snapshot)),
            (None, None) => None,
        }
    }
}

/// What the outside world answers to a terminal route.
#[derive(Clone, Copy, Debug)]
pub struct CompletionAnswers {
    /// The cache pin of a frame that the backend names itself.
    pub pinned: Grant,
    /// Whether a retire credit for the old root was granted.
    pub retire: bool,
}

/// What the filesystem planner is to be told.
#[allow(inconsistent_fields)]
#[derive(Clone, Copy, Debug, PartialEq, Eq)]
pub enum PlannerNotice {
    BackgroundGraph { object: FsObjectId, result: Result<(), Errno> },
    /// The end of a durability request. After a success the planner may have a
    /// background graph to queue.
    Fsync { object: FsObjectId, id: PageIoRequestId, result: PageIoResult },
}

/// The object whose planner is asked for a background graph, once it has been
/// told of `notice`: only the success of a durability request calls for that.
pub fn graph_wanted_after(notice: PlannerNotice) -> (object: Option<FsObjectId>)
    ensures
        object == match notice {
            PlannerNotice::Fsync { object, result: PageIoResult::Done, .. } => Some(object),
            _ => None,
        },
{
    match notice {
        PlannerNotice::Fsync { object, result: PageIoResult::Done, .. } => Some(object),
        _ => None,
    }
}

/// The end of a route, with what is left for the caller to do.
#[derive(Clone, Copy, Debug)]
pub struct RouteEnd {
    pub result: Option<SlotResult>,
    /// The wait source to be notified.
    pub notify: Option<u64>,
    pub planner: Option<PlannerNotice>,
}

pub open spec fn route_end(result: Option<SlotResult>, notify: Option<u64>) -> RouteEnd {
    RouteEnd { result, notify, planner: None }
}

/// Whether a completion of `kind` can end a request for `op`.
pub open spec fn kind_matches(op: PageIoOp, kind: PageIoCompletionKind) -> bool {
    match kind {
        PageIoCompletionKind::ReadInstalled => op is Read || op is Readahead,
        PageIoCompletionKind::WritebackFinished => op is Writeback,
        PageIoCompletionKind::Noop => op is Fsync || op is Checkpoint,
    }
}

impl ContainerView {
    /// With the slot of `page`, if it has one, after `result`.
    pub open spec fn settled(self, page: PageIndex, result: SlotResult) -> Self {
        if self.slots.contains_key(page.0) {
            self.with_slot(page, after(self.slot(page), result))
        } else {
            self
        }
    }

    /// Outcome of ending the writeback of the first `count` captured versions.
    pub open spec fn end_writeback(
        self,
        generations: Seq<(PageIndex, PageGeneration)>,
        end: WritebackEnd,
        count: nat,
    ) -> BatchView
        decreases count,
    {
        if count == 0 {
            BatchView { view: self, first_done: None, first_error: None }
        } else {
            let before = self.end_writeback(generations, end, (count - 1) as nat);
            let (page, generation) = generations[count - 1];
            let result = writeback_ended(before.view.slot(page), generation, end);
            let view = before.view.settled(page, result);
            match result {
                Ok(snapshot) => BatchView {
                    view,
                    first_done: if before.first_done is None {
                        Some(snapshot)
                    } else {
                        before.first_done
                    },
                    ..before
                },
                Err(error) => BatchView {
                    view,
                    first_error: if before.first_error is None {
                        Some(error)
                    } else {
                        before.first_error
                    },
                    ..before
                },
            }
        }
    }

    /// Without any trace of request `id`.
    pub open spec fn without_request(self, id: PageIoRequestId) -> Self {
        ContainerView { submission: self.submission.retired(id), ..self }
    }

    /// Outcome of a read that ended with its data in `frame`.
    pub open spec fn read_into(
        self,
        page: PageIndex,
        generation: PageGeneration,
        frame: CachedFrame,
        retire: bool,
    ) -> (Self, SlotResult) {
        match self.frame_of(page) {
            Some(ppn) => {
                let result = self.slot(page).fetch_completed(generation, Ok(ppn));
                (self.settled(page, result), result)
            },
            None => match self.install_fetched(page, generation, frame, retire) {
                (done, Ok(_)) => (done, Ok(done.slot(page))),
                (done, Err(error)) => (done, Err(PageSlotCompletionError::Backend(error.errno()))),
            },
        }
    }

    /// Outcome of a read that failed with `errno`.
    pub open spec fn read_failed(self, page: PageIndex, generation: PageGeneration, errno: Errno) -> (
        Self,
        SlotResult,
    ) {
        let result = self.slot(page).fetch_completed(generation, Err(errno));
        (self.settled(page, result), result)
    }

    /// Outcome of a read that the backend put into its own frame `ppn`.
    pub open spec fn read_into_frame(
        self,
        page: PageIndex,
        generation: PageGeneration,
        ppn: Ppn,
        answers: CompletionAnswers,
    ) -> (Self, SlotResult) {
        match adopted(Frame { ppn, owned_handoff: false }, answers.pinned, Ok(())) {
            Err(error) => if self.slots.contains_key(page.0) {
                self.read_failed(page, generation, error.errno())
            } else {
                (self, PageSlotSnapshot::empty().not_fetching())
            },
            Ok(frame) => self.read_into(page, generation, frame, answers.retire),
        }
    }

    /// Outcome of the end of a read request that retained `target`.
    pub open spec fn read_ended(
        self,
        page: PageIndex,
        generation: PageGeneration,
        result: PageIoResult,
        frame: Option<Ppn>,
        target: CachedFrame,
        answers: CompletionAnswers,
    ) -> (Self, SlotResult) {
        match result {
            PageIoResult::Failed(errno) => self.read_failed(page, generation, errno),
            PageIoResult::Done => match frame {
                Some(ppn) if ppn != target.ppn => self.read_into_frame(
                    page,
                    generation,
                    ppn,
                    answers,
                ),
                _ => self.read_into(page, generation, target, answers.retire),
            },
        }
    }

    /// The fetch that request `id` serves.
    pub open spec fn fetch_of(self, page: PageIndex, id: PageIoRequestId) -> bool {
        self.fetches.contains_key(page.0) && self.fetches[page.0].request_id == Some(id)
    }

    /// Outcome of the end of a read request.
    pub open spec fn finish_read(
        self,
        request: PageIoRequest,
        payload: PayloadView,
        terminal: FileIoTerminalResult,
        answers: CompletionAnswers,
    ) -> (Self, RouteEnd) {
        let page = PageIndex(request.range.start_page);
        match terminal {
            FileIoTerminalResult::SubmitFailure => if self.fetch_of(page, request.id) {
                let (done, notify) = self.fetch_failed(page, self.fetches[page.0].id);
                (done, route_end(None, notify))
            } else {
                (self, route_end(None, None))
            },
            FileIoTerminalResult::Completion {
                result,
                kind: PageIoCompletionKind::ReadInstalled,
                generation,
                frame,
                notify_waiters,
            } => {
                if result is Failed && !self.slots.contains_key(page.0) {
                    (self, route_end(None, None))
                } else {
                    let (done, ended) = self.read_ended(
                        page,
                        generation,
                        result,
                        frame,
                        payload->target,
                        answers,
                    );
                    if ended is Ok {
                        let (last, notify) = done.fetch_settled(page, generation, notify_waiters);
                        (last, route_end(Some(ended), notify))
                    } else {
                        (done, route_end(Some(ended), None))
                    }
                }
            },
            _ => (self, route_end(None, None)),
        }
    }

    /// Outcome of the end of a writeback request that retained `lease`.
    pub open spec fn finish_writeback(
        self,
        request: PageIoRequest,
        generations: Seq<(PageIndex, PageGeneration)>,
        terminal: FileIoTerminalResult,
    ) -> (Self, RouteEnd) {
        match terminal {
            FileIoTerminalResult::SubmitFailure => {
                let batch = self.end_writeback(
                    generations,
                    WritebackEnd::Abort,
                    generations.len(),
                );
                (batch.view, route_end(batch.result(), None))
            },
            FileIoTerminalResult::Completion {
                result,
                kind: PageIoCompletionKind::WritebackFinished,
                generation,
                ..
            } => if Some(generation) != request.generation_hint {
                let current = if generations.len() > 0 {
                    self.slot(generations[0].0).generation
                } else {
                    PageGeneration(0)
                };
                (
                    self,
                    route_end(
                        Some(
                            Err(
                                PageSlotCompletionError::GenerationMismatch {
                                    current,
                                    completed: generation,
                                },
                            ),
                        ),
                        None,
                    ),
                )
            } else {
                let batch = self.end_writeback(
                    generations,
                    WritebackEnd::Complete(result.result()),
                    generations.len(),
                );
                (batch.view, route_end(batch.result(), None))
            },
            _ => (self, route_end(None, None)),
        }
    }

    /// Outcome of the end of a file request. Whatever it does, it removes every
    /// trace of the request.
    pub open spec fn finish_request(
        self,
        request: PageIoRequest,
        terminal: FileIoTerminalResult,
        answers: CompletionAnswers,
    ) -> (Self, RouteEnd) {
        let taken = self.without_request(request.id);
        match self.submission.owner(request.id) {
            None => (taken, route_end(None, None)),
            Some(owner) => if terminal is Completion && !owner.may_complete(request.op) {
                (taken, route_end(None, None))
            } else {
                match request.op {
                    PageIoOp::Writeback => match owner.payload {
                        PayloadView::Writeback { lease } => taken.finish_writeback(
                            request,
                            lease.generations,
                            terminal,
                        ),
                        _ => (taken, route_end(None, None)),
                    },
                    PageIoOp::Read => taken.finish_read(request, owner.payload, terminal, answers),
                    _ => (taken, route_end(None, None)),
                }
            },
        }
    }

    /// Whether the durability request `id` accepts its result.
    pub open spec fn fsync_queued(self, id: PageIoRequestId) -> bool {
        self.fsync_state(id) == Some(FsyncSubmissionState::Queued)
    }

    /// With the result of durability request `id` recorded, if it is waited for.
    pub open spec fn fsync_ended(self, id: PageIoRequestId, result: Result<(), Errno>) -> Self {
        if self.fsync_queued(id) {
            ContainerView {
                fsyncs: self.fsyncs.insert(
                    id.0,
                    FsyncSubmission {
                        id: self.fsyncs[id.0].id,
                        state: FsyncSubmissionState::Complete(result),
                    },
                ),
                ..self
            }
        } else {
            self
        }
    }

    /// The planner that is told of ends, if there is one.
    pub open spec fn planner_object(self) -> Option<FsObjectId> {
        match self.kind {
            PageContainerKind::File { mount, fs_object_id } => if mount.backend_planner {
                Some(fs_object_id)
            } else {
                None
            },
            _ => None,
        }
    }

    /// Outcome of a completion that has come to its container.
    pub open spec fn apply_route(self, route: PageCompletionRoute, answers: CompletionAnswers) -> (
        Self,
        RouteEnd,
    ) {
        let completion = route.completion;
        if completion.kind is Noop {
            if self.submission.background.contains(completion.id.0) {
                (
                    ContainerView {
                        submission: SubmissionView {
                            background: self.submission.background.remove(completion.id.0),
                            ..self.submission
                        },
                        ..self
                    },
                    RouteEnd {
                        result: None,
                        notify: None,
                        planner: match self.planner_object() {
                            Some(object) => Some(
                                PlannerNotice::BackgroundGraph {
                                    object,
                                    result: completion.result.result(),
                                },
                            ),
                            None => None,
                        },
                    },
                )
            } else if self.fsync_queued(completion.id) {
                (
                    self.fsync_ended(completion.id, completion.result.result()),
                    RouteEnd {
                        result: None,
                        notify: None,
                        planner: match self.planner_object() {
                            Some(object) => Some(
                                PlannerNotice::Fsync {
                                    object,
                                    id: completion.id,
                                    result: completion.result,
                                },
                            ),
                            None => None,
                        },
                    },
                )
            } else {
                (self, route_end(None, None))
            }
        } else {
            match self.submission.owner(completion.id) {
                None => (self, route_end(None, None)),
                Some(owner) => {
                    let request = owner.request;
                    if completion.range != request.range || (request.op is Read
                        && request.range.page_count != 1) || !kind_matches(
                        request.op,
                        completion.kind,
                    ) {
                        self.finish_request(request, FileIoTerminalResult::SubmitFailure, answers)
                    } else {
                        self.finish_request(
                            request,
                            FileIoTerminalResult::Completion {
                                result: completion.result,
                                kind: completion.kind,
                                generation: completion.generation,
                                frame: route.frame,
                                notify_waiters: route.has_waiters,
                            },
                            answers,
                        )
                    }
                },
            }
        }
    }
}

/// The completion that stands for a durability request which was never
/// submitted.
pub open spec fn fsync_failure(request: PageIoRequest, errno: Errno) -> Option<PageIoCompletion> {
    if request.op is Fsync {
        Some(
            PageIoCompletion {
                id: request.id,
                range: request.range,
                result: PageIoResult::Failed(errno),
                generation: match request.generation_hint {
                    Some(generation) => generation,
                    None => PageGeneration(0),
                },
                kind: PageIoCompletionKind::Noop,
            },
        )
    } else {
        None
    }
}

proof fn lemma_end_writeback_keeps_block(
    view: ContainerView,
    generations: Seq<(PageIndex, PageGeneration)>,
    end: WritebackEnd,
    count: nat,
)
    ensures
        view.end_writeback(generations, end, count).view.block == view.block,
    decreases count,
{
    if count > 0 {
        lemma_end_writeback_keeps_block(view, generations, end, (count - 1) as nat);
    }
}

/// The end of a request does not touch the block service.
pub proof fn lemma_finish_keeps_block(
    view: ContainerView,
    request: PageIoRequest,
    terminal: FileIoTerminalResult,
    answers: CompletionAnswers,
)
    ensures
        view.finish_request(request, terminal, answers).0.block == view.block,
{
    let taken = view.without_request(request.id);
    match view.submission.owner(request.id) {
        Some(owner) => match owner.payload {
            PayloadView::Writeback { lease } => {
                lemma_end_writeback_keeps_block(
                    taken,
                    lease.generations,
                    WritebackEnd::Abort,
                    lease.generations.len(),
                );
                match terminal {
                    FileIoTerminalResult::Completion { result, .. } => {
                        lemma_end_writeback_keeps_block(
                            taken,
                            lease.generations,
                            WritebackEnd::Complete(result.result()),
                            lease.generations.len(),
                        );
                    },
                    _ => {},
                }
            },
            _ => {},
        },
        None => {},
    }
}

/// A completion that has come to its container does not touch the block service.
pub proof fn lemma_route_keeps_block(
    view: ContainerView,
    route: PageCompletionRoute,
    answers: CompletionAnswers,
)
    ensures
        view.apply_route(route, answers).0.block == view.block,
{
    match view.submission.owner(route.completion.id) {
        Some(owner) => {
            lemma_finish_keeps_block(
                view,
                owner.request,
                FileIoTerminalResult::SubmitFailure,
                answers,
            );
            lemma_finish_keeps_block(
                view,
                owner.request,
                FileIoTerminalResult::Completion {
                    result: route.completion.result,
                    kind: route.completion.kind,
                    generation: route.completion.generation,
                    frame: route.frame,
                    notify_waiters: route.has_waiters,
                },
                answers,
            );
        },
        None => {},
    }
}

fn ended_with(result: Option<SlotResult>, notify: Option<u64>) -> (end: RouteEnd)
    ensures
        end == route_end(result, notify),
{
    RouteEnd { result, notify, planner: None }
}

impl PageContainer {
    /// Move the slot of `page`, if it has one, through the end of a writeback.
    fn end_page_writeback(
        &mut self,
        page: PageIndex,
        generation: PageGeneration,
        end: WritebackEnd,
    ) -> (result: SlotResult)
        requires
            old(self).wf(),
        ensures
            final(self).wf(),
            result == writeback_ended(old(self)@.slot(page), generation, end),
            final(self)@ == old(self)@.settled(page, result),
    {
        if !self.page_slots.contains_key(page.0) {
            return Err(
                PageSlotCompletionError::NotFetching {
                    state: PageSlotState::Empty,
                    generation: PageGeneration::new(0),
                },
            );
        }
        let slot = self.page_slots.get_mut(page.0);
        match end {
            WritebackEnd::Abort => slot.abort_writeback(generation),
            WritebackEnd::Complete(result) => slot.complete_writeback(generation, result),
        }
    }

    /// End the writeback of every captured version.
    fn end_batch_writeback(
        &mut self,
        generations: &Vec<(PageIndex, PageGeneration)>,
        end: WritebackEnd,
    ) -> (result: Option<SlotResult>)
        requires
            old(self).wf(),
        ensures
            final(self).wf(),
            ({
                let batch = old(self)@.end_writeback(generations@, end, generations@.len());
                final(self)@ == batch.view && result == batch.result()
            }),
    {
        let ghost before = self@;
        let mut first_done: Option<PageSlotSnapshot> = None;
        let mut first_error: Option<PageSlotCompletionError> = None;
        let mut i: usize = 0;
        while i < generations.len()
            invariant
                self.wf(),
                i <= generations@.len(),
                before.end_writeback(generations@, end, i as nat) == (BatchView {
                    view: self@,
                    first_done,
                    first_error,
                }),
            decreases generations@.len() - i,
        {
            let (page, generation) = generations[i];
            match self.end_page_writeback(page, generation, end) {
                Ok(snapshot) => {
                    if first_done.is_none() {
                        first_done = Some(snapshot);
                    }
                },
                Err(error) => {
                    if first_error.is_none() {
                        first_error = Some(error);
                    }
                },
            }
            i += 1;
        }
        match first_error {
            Some(error) => Some(Err(error)),
            None => match first_done {
                Some(snapshot) => Some(Ok(snapshot)),
                None => None,
            },
        }
    }

    /// Complete the fetch of `generation` in the slot of `page`.
    fn settle_fetch(
        &mut self,
        page: PageIndex,
        generation: PageGeneration,
        result: Result<Ppn, Errno>,
    ) -> (r: SlotResult)
        requires
            old(self).wf(),
            old(self)@.slots.contains_key(page.0),
            result matches Ok(ppn) ==> old(self)@.frame_of(page) == Some(ppn),
        ensures
            final(self).wf_but_fetch(page),
            !old(self)@.requested(page) || r is Err ==> final(self).wf(),
            r == old(self)@.slot(page).fetch_completed(generation, result),
            final(self)@ == old(self)@.settled(page, r),
    {
        let slot = self.page_slots.get_mut(page.0);
        slot.complete_fetch(generation, result)
    }

    /// Install a completed read, unless the page is cached by now. The fetch is
    /// still to be ended.
    pub fn apply_file_io_cached_read_completion(
        &mut self,
        page: PageIndex,
        generation: PageGeneration,
        cached: CachedFrame,
        retire: bool,
    ) -> (result: SlotResult)
        requires
            old(self).wf(),
            cached.wf(),
        ensures
            final(self).wf_but_fetch(page),
            !old(self)@.requested(page) || result is Err ==> final(self).wf(),
            (final(self)@, result) == old(self)@.read_into(page, generation, cached, retire),
    {
        match self.pages.lookup(page) {
            Some(ppn) => {
                return self.settle_fetch(page, generation, Ok(ppn));
            },
            None => {},
        }
        match self.install_fetched_resident_if_absent_published(page, generation, cached, retire) {
            Ok(_) => match self.page_slot_snapshot(page) {
                Some(snapshot) => Ok(snapshot),
                None => Err(
                    PageSlotCompletionError::NotFetching {
                        state: PageSlotState::Empty,
                        generation: PageGeneration::new(0),
                    },
                ),
            },
            Err(error) => Err(PageSlotCompletionError::Backend(page_cache_error_to_errno(error))),
        }
    }

    /// Install a read that the backend put into its own frame. The fetch is
    /// still to be ended.
    pub fn apply_file_io_read_frame_completion(
        &mut self,
        page: PageIndex,
        generation: PageGeneration,
        ppn: Ppn,
        answers: CompletionAnswers,
    ) -> (result: SlotResult)
        requires
            old(self).wf(),
        ensures
            final(self).wf_but_fetch(page),
            !old(self)@.requested(page) || result is Err ==> final(self).wf(),
            (final(self)@, result) == old(self)@.read_into_frame(page, generation, ppn, answers),
    {
        match cached_frame_from_frame(Frame::new(ppn), answers.pinned, Ok(())) {
            Ok(frame) => self.apply_file_io_cached_read_completion(
                page,
                generation,
                frame,
                answers.retire,
            ),
            Err(error) => {
                if !self.page_slots.contains_key(page.0) {
                    return Err(
                        PageSlotCompletionError::NotFetching {
                            state: PageSlotState::Empty,
                            generation: PageGeneration::new(0),
                        },
                    );
                }
                let errno = page_cache_error_to_errno(error);
                self.settle_fetch(page, generation, Err(errno))
            },
        }
    }

    fn finish_owned_read(
        &mut self,
        request: PageIoRequest,
        payload: FileIoPayload,
        terminal: FileIoTerminalResult,
        answers: CompletionAnswers,
    ) -> (end: RouteEnd)
        requires
            old(self).wf(),
            payload matches FileIoPayload::Read { target } ==> target.wf(),
            terminal is Completion ==> payload is Read,
        ensures
            final(self).wf(),
            (final(self)@, end) == old(self)@.finish_read(request, payload@, terminal, answers),
    {
        let page = PageIndex::new(request.range.start_page);
        match terminal {
            FileIoTerminalResult::SubmitFailure => {
                let fetch_id = match self.in_flight_file_pages.get(page.0) {
                    Some(fetch) => {
                        if fetch.request_id != Some(request.id) {
                            return ended_with(None, None);
                        }
                        fetch.id
                    },
                    None => {
                        return ended_with(None, None);
                    },
                };
                let notify = self.finish_file_page_fetch_without_install(page, fetch_id);
                ended_with(None, notify)
            },
            FileIoTerminalResult::Completion { result, kind, generation, frame, notify_waiters } => {
                match kind {
                    PageIoCompletionKind::ReadInstalled => {},
                    _ => {
                        return ended_with(None, None);
                    },
                }
                let target = match payload {
                    FileIoPayload::Read { target } => target,
                    _ => {
                        return ended_with(None, None);
                    },
                };
                let ended = match result {
                    PageIoResult::Failed(errno) => {
                        if !self.page_slots.contains_key(page.0) {
                            return ended_with(None, None);
                        }
                        self.settle_fetch(page, generation, Err(errno))
                    },
                    PageIoResult::Done => match frame {
                        Some(ppn) => {
                            if ppn == target.ppn {
                                self.apply_file_io_cached_read_completion(
                                    page,
                                    generation,
                                    target,
                                    answers.retire,
                                )
                            } else {
                                self.apply_file_io_read_frame_completion(
                                    page,
                                    generation,
                                    ppn,
                                    answers,
                                )
                            }
                        },
                        None => self.apply_file_io_cached_read_completion(
                            page,
                            generation,
                            target,
                            answers.retire,
                        ),
                    },
                };
                let notify = if ended.is_ok() {
                    self.finish_file_page_fetch_after_service_completion(
                        page,
                        generation,
                        notify_waiters,
                    )
                } else {
                    None
                };
                ended_with(Some(ended), notify)
            },
        }
    }

    fn finish_owned_writeback(
        &mut self,
        request: PageIoRequest,
        generations: &Vec<(PageIndex, PageGeneration)>,
        terminal: FileIoTerminalResult,
    ) -> (end: RouteEnd)
        requires
            old(self).wf(),
        ensures
            final(self).wf(),
            (final(self)@, end) == old(self)@.finish_writeback(request, generations@, terminal),
    {
        match terminal {
            FileIoTerminalResult::SubmitFailure => {
                let result = self.end_batch_writeback(generations, WritebackEnd::Abort);
                ended_with(result, None)
            },
            FileIoTerminalResult::Completion { result, kind, generation, .. } => {
                match kind {
                    PageIoCompletionKind::WritebackFinished => {},
                    _ => {
                        return ended_with(None, None);
                    },
                }
                if request.generation_hint != Some(generation) {
                    let current = if generations.len() > 0 {
                        match self.page_slots.get(generations[0].0.0) {
                            Some(slot) => slot.generation(),
                            None => PageGeneration::new(0),
                        }
                    } else {
                        PageGeneration::new(0)
                    };
                    return ended_with(
                        Some(
                            Err(
                                PageSlotCompletionError::GenerationMismatch {
                                    current,
                                    completed: generation,
                                },
                            ),
                        ),
                        None,
                    );
                }
                let result = self.end_batch_writeback(
                    generations,
                    WritebackEnd::Complete(result.to_result()),
                );
                ended_with(result, None)
            },
        }
    }

    /// Consume the owner of a request and perform its one terminal transition.
    /// A stale end still releases what the request retained.
    pub fn finish_owned_file_io_request(
        &mut self,
        request: PageIoRequest,
        terminal: FileIoTerminalResult,
        answers: CompletionAnswers,
    ) -> (end: RouteEnd)
        requires
            old(self).wf(),
        ensures
            final(self).wf(),
            (final(self)@, end) == old(self)@.finish_request(request, terminal, answers),
    {
        let ghost before = self@;
        let (owner, _waiters) = self.page_submission.take_file_request(request.id);
        proof {
            before.lemma_consistent_frame(self@);
        }
        let owner = match owner {
            Some(owner) => owner,
            None => {
                return ended_with(None, None);
            },
        };
        let completed = match terminal {
            FileIoTerminalResult::Completion { .. } => true,
            FileIoTerminalResult::SubmitFailure => false,
        };
        if completed && !owner.completes(request.op) {
            return ended_with(None, None);
        }
        match request.op {
            PageIoOp::Writeback => match owner.take_payload() {
                FileIoPayload::Writeback { lease } => self.finish_owned_writeback(
                    request,
                    &lease.generations,
                    terminal,
                ),
                _ => ended_with(None, None),
            },
            PageIoOp::Read => {
                let payload = owner.take_payload();
                self.finish_owned_read(request, payload, terminal, answers)
            },
            _ => ended_with(None, None),
        }
    }

    /// Give up a request that never reached an executor. A durability request
    /// still owes its submitter a completion, which is returned.
    pub fn fail_unsubmitted_file_io_request(
        &mut self,
        request: PageIoRequest,
        errno: Errno,
        answers: CompletionAnswers,
    ) -> (r: (RouteEnd, Option<PageIoCompletion>))
        requires
            old(self).wf(),
        ensures
            final(self).wf(),
            (final(self)@, r.0) == old(self)@.finish_request(
                request,
                FileIoTerminalResult::SubmitFailure,
                answers,
            ),
            r.1 == fsync_failure(request, errno),
    {
        let end = self.finish_owned_file_io_request(
            request,
            FileIoTerminalResult::SubmitFailure,
            answers,
        );
        if request.op != PageIoOp::Fsync {
            return (end, None);
        }
        let generation = match request.generation_hint {
            Some(generation) => generation,
            None => PageGeneration::new(0),
        };
        (
            end,
            Some(
                PageIoCompletion::new(
                    request.id,
                    request.range,
                    PageIoResult::Failed(errno),
                    generation,
                    PageIoCompletionKind::Noop,
                ),
            ),
        )
    }

    /// Record the result of a durability request, if it is waited for.
    pub fn terminalize_file_fsync_submission(&mut self, completion: PageIoCompletion) -> (accepted:
        bool)
        requires
            old(self).wf(),
        ensures
            final(self).wf(),
            accepted == old(self)@.fsync_queued(completion.id),
            final(self)@ == old(self)@.fsync_ended(completion.id, completion.result.result()),
    {
        let ghost before = self@;
        let result = completion.result.to_result();
        if !self.fsync_submissions.contains_key(completion.id.0) {
            return false;
        }
        let row = self.fsync_submissions.get_mut(completion.id.0);
        let accepted = row.complete(result);
        proof {
            let expected = before.fsync_ended(completion.id, completion.result.result());
            assert(self@.fsyncs =~= expected.fsyncs);
            assert(self@ =~= expected);
            before.lemma_consistent_frame(self@);
        }
        accepted
    }

    fn planner(&self) -> (object: Option<FsObjectId>)
        ensures
            object == self@.planner_object(),
    {
        match self.kind {
            PageContainerKind::File { mount, fs_object_id } => {
                if mount.backend_planner {
                    Some(fs_object_id)
                } else {
                    None
                }
            },
            _ => None,
        }
    }

    /// Apply a completion that has come to its container.
    pub fn apply_file_io_completion_route(
        &mut self,
        route: &PageCompletionRoute,
        answers: CompletionAnswers,
    ) -> (end: RouteEnd)
        requires
            old(self).wf(),
        ensures
            final(self).wf(),
            (final(self)@, end) == old(self)@.apply_route(*route, answers),
    {
        let completion = route.completion;
        match completion.kind {
            PageIoCompletionKind::Noop => {
                let ghost before = self@;
                if self.page_submission.take_background_graph(completion.id) {
                    proof {
                        before.lemma_consistent_frame(self@);
                    }
                    let planner = match self.planner() {
                        Some(object) => Some(
                            PlannerNotice::BackgroundGraph {
                                object,
                                result: completion.result.to_result(),
                            },
                        ),
                        None => None,
                    };
                    return RouteEnd { result: None, notify: None, planner };
                }
                if self.terminalize_file_fsync_submission(completion) {
                    let planner = match self.planner() {
                        Some(object) => Some(
                            PlannerNotice::Fsync {
                                object,
                                id: completion.id,
                                result: completion.result,
                            },
                        ),
                        None => None,
                    };
                    return RouteEnd { result: None, notify: None, planner };
                }
                ended_with(None, None)
            },
            _ => {
                let request = match self.page_submission.file_request(completion.id) {
                    Some(request) => request,
                    None => {
                        return ended_with(None, None);
                    },
                };
                proof {
                    assert(self.page_submission.owners@.contains_key(completion.id.0));
                }
                let matches_kind = match (request.op, completion.kind) {
                    (PageIoOp::Read, PageIoCompletionKind::ReadInstalled) => true,
                    (PageIoOp::Readahead, PageIoCompletionKind::ReadInstalled) => true,
                    (PageIoOp::Writeback, PageIoCompletionKind::WritebackFinished) => true,
                    (PageIoOp::Fsync, PageIoCompletionKind::Noop) => true,
                    (PageIoOp::Checkpoint, PageIoCompletionKind::Noop) => true,
                    _ => false,
                };
                if completion.range != request.range || (request.op == PageIoOp::Read
                    && request.range.page_count != 1) || !matches_kind {
                    return self.finish_owned_file_io_request(
                        request,
                        FileIoTerminalResult::SubmitFailure,
                        answers,
                    );
                }
                self.finish_owned_file_io_request(
                    request,
                    FileIoTerminalResult::Completion {
                        result: completion.result,
                        kind: completion.kind,
                        generation: completion.generation,
                        frame: route.frame,
                        notify_waiters: route.has_waiters,
                    },
                    answers,
                )
            },
        }
    }

    /// The data that a request exposes to the backend planner.
    pub fn prepare_owned_file_io_request(&self, request: &PageIoRequest) -> (data: (
        IoDataSource,
        IoDataTarget,
    ))
        requires
            self.wf(),
        ensures
            match self@.submission.owner(request.id) {
                Some(owned) => crate::page_submission::owned_data(owned, data.0, data.1),
                None => data.0 == IoDataSource::Absent && data.1 == IoDataTarget::Absent,
            },
    {
        self.page_submission.file_request_data(request.id)
    }

    /// The frame that a completed read has filled: the target that the request
    /// retained, whatever other requests the transfer was merged with.
    pub fn file_io_read_target_for_completion(&self, completion: &BlockPageCompletion) -> (frame:
        Option<Ppn>)
        requires
            self.wf(),
        ensures
            frame == (if completion.result is Ok && (completion.request.op is Read
                || completion.request.op is Readahead) {
                match self@.submission.owner(completion.request.id) {
                    Some(owned) => match owned.payload {
                        PayloadView::Read { target } => Some(target.ppn),
                        _ => None,
                    },
                    None => None,
                }
            } else {
                None
            }),
    {
        if completion.result.is_err() {
            return None;
        }
        match completion.request.op {
            PageIoOp::Read => {},
            PageIoOp::Readahead => {},
            _ => {
                return None;
            },
        }
        let (_source, target) = self.page_submission.file_request_data(completion.request.id);
        match target {
            IoDataTarget::PageCache { frame, offset, len, .. } => {
                if offset == 0 && len != 0 {
                    Some(frame)
                } else {
                    None
                }
            },
            _ => None,
        }
    }
}

/// A request ends once: its end removes its owner, and a second end finds none
/// and changes nothing.
pub proof fn law_request_ends_once(
    view: ContainerView,
    request: PageIoRequest,
    terminal: FileIoTerminalResult,
    answers: CompletionAnswers,
    again: FileIoTerminalResult,
    again_answers: CompletionAnswers,
)
    ensures
        ({
            let ended = view.finish_request(request, terminal, answers).0;
            &&& ended.submission.owner(request.id) is None
            &&& ended.finish_request(request, again, again_answers) == (
                ended,
                route_end(None, None),
            )
        }),
{
    let taken = view.without_request(request.id);
    let ended = view.finish_request(request, terminal, answers).0;
    lemma_finish_keeps_requests_gone(view, request, terminal, answers);
    assert(ended.without_request(request.id) =~= ended);
}

proof fn lemma_end_writeback_frame(
    view: ContainerView,
    generations: Seq<(PageIndex, PageGeneration)>,
    end: WritebackEnd,
    count: nat,
)
    ensures
        view.end_writeback(generations, end, count).view.submission == view.submission,
        view.end_writeback(generations, end, count).view.pages == view.pages,
        view.end_writeback(generations, end, count).view.root == view.root,
    decreases count,
{
    if count > 0 {
        lemma_end_writeback_frame(view, generations, end, (count - 1) as nat);
    }
}

/// The end of a request leaves no trace of it.
pub proof fn lemma_finish_keeps_requests_gone(
    view: ContainerView,
    request: PageIoRequest,
    terminal: FileIoTerminalResult,
    answers: CompletionAnswers,
)
    ensures
        ({
            let ended = view.finish_request(request, terminal, answers).0;
            &&& !ended.submission.owners.contains_key(request.id.0)
            &&& !ended.submission.rows.contains_key(request.id.0)
            &&& !ended.submission.waiters.contains_key(request.id.0)
        }),
{
    let taken = view.without_request(request.id);
    match view.submission.owner(request.id) {
        Some(owner) => match owner.payload {
            PayloadView::Writeback { lease } => {
                let generations = lease.generations;
                lemma_end_writeback_frame(
                    taken,
                    generations,
                    WritebackEnd::Abort,
                    generations.len(),
                );
                match terminal {
                    FileIoTerminalResult::Completion { result, .. } => {
                        lemma_end_writeback_frame(
                            taken,
                            generations,
                            WritebackEnd::Complete(result.result()),
                            generations.len(),
                        );
                    },
                    _ => {},
                }
            },
            _ => {},
        },
        None => {},
    }
}

/// A writeback that ends as it was submitted cleans exactly the pages that were
/// not written meanwhile; a page written meanwhile stays dirty as the newer
/// version.
pub proof fn law_writeback_end_keeps_newer_writes(
    slot: PageSlotSnapshot,
    generation: PageGeneration,
    result: Result<(), Errno>,
)
    requires
        slot.state matches PageSlotState::Writeback { submitted_generation, .. }
            && submitted_generation == generation,
    ensures
        ({
            let ended = after(
                slot,
                writeback_ended(slot, generation, WritebackEnd::Complete(result)),
            );
            &&& ended.generation == slot.generation
            &&& slot.state->redirtied ==> ended.state is Dirty
            &&& !slot.state->redirtied && result is Ok ==> ended.state is Resident
            &&& !slot.state->redirtied && result is Err ==> ended.state is Error
        }),
{
}

} // verus!
