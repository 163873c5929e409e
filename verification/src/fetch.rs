//! Fetches of file pages: one owner per page and version, everybody else waits
//! for it.

use crate::container::{
    page_slot_is_dirty, holds_dirt, ContainerView, FilePageFetch, FilePageFetchId,
    MaterializeAccess, PageContainer, PageContainerKind,
};
use crate::frame::{
    adopted, cached_frame_from_frame, page_cache_error_to_errno, CachedFrame, Frame, Grant, MapPin,
    MaterializedPage, MaterializedPagePin, PageCacheError,
};
use crate::ids::{next_nonzero, Errno, PageGeneration, PageIndex};
use crate::io::{PageIoFlags, PageIoOp, PageIoPriority, PageIoRange, PageWaiter};
use crate::lease::{FileIoPayload, PayloadView};
use crate::materialize::{materialize_outcome, materialized_outcome, PinGrants};
use crate::slot::{PageSlotFetch, PageSlotSnapshot, PageSlotState};
use crate::step::{yield_on_page_ready_source, NoProgress, StepOutcome, YieldShape, PAGE_READY};
use vstd::prelude::*;

verus! {

/// How the caller of a fetch goes on.
#[derive(Debug)]
pub enum FilePageFetchStart {
    /// The page is there.
    Cached(Result<MaterializedPage, PageCacheError>),
    /// Somebody else fetches it: wait for the source.
    Joined(u64),
    /// The caller fetches it.
    Owner(FilePageFetchId),
}

/// The slot after a fetch has been asked for: only one that names no frame
/// starts a version.
pub open spec fn fetch_begun(slot: PageSlotSnapshot) -> PageSlotSnapshot {
    match slot.state {
        PageSlotState::Empty => slot.renewed(PageSlotState::Fetching),
        PageSlotState::Error { .. } => slot.renewed(PageSlotState::Fetching),
        _ => slot,
    }
}

/// The waiter record of page wait source `source`.
pub open spec fn page_waiter(source: u64) -> PageWaiter {
    PageWaiter { source_id: source, interests: PAGE_READY }
}

/// The slot after the fetch of `generation` has been given up.
pub open spec fn fetch_cancelled(slot: PageSlotSnapshot, generation: PageGeneration) -> PageSlotSnapshot {
    if slot.generation == generation {
        slot.renewed(PageSlotState::Empty)
    } else {
        slot
    }
}

impl ContainerView {
    /// Whether the mount has a backend planner.
    pub open spec fn planned(self) -> bool {
        self.kind matches PageContainerKind::File { mount, .. } && mount.backend_planner
    }

    pub open spec fn with_fetch(self, page: PageIndex, fetch: FilePageFetch) -> Self {
        ContainerView { fetches: self.fetches.insert(page.0, fetch), ..self }
    }

    pub open spec fn without_fetch(self, page: PageIndex) -> Self {
        ContainerView { fetches: self.fetches.remove(page.0), ..self }
    }

    /// The wait source that a waiter for `page` is sent to; `fresh` if there is
    /// none yet.
    pub open spec fn wait_source(self, page: PageIndex, fresh: u64) -> u64 {
        if self.waits.contains_key(page.0) {
            self.waits[page.0]
        } else {
            fresh
        }
    }

    /// With a waiter on the fetch of `page`, recorded as `source`.
    pub open spec fn with_fetch_waiter(self, page: PageIndex, source: u64, fresh: u64) -> Self {
        let fetch = self.fetches[page.0];
        ContainerView {
            waits: self.waits.insert(page.0, self.wait_source(page, fresh)),
            submission: self.submission.with_waiter(fetch.request_id, page_waiter(source)),
            ..self.with_fetch(page, FilePageFetch { source_id: Some(source), joined: true, ..fetch })
        }
    }

    /// Outcome of joining the fetch of `page` that is under way.
    pub open spec fn join_fetch(self, page: PageIndex, fresh: u64) -> (Self, u64) {
        let source = match self.fetches[page.0].source_id {
            Some(source) if self.waits.contains_key(page.0) => source,
            _ => self.wait_source(page, fresh),
        };
        (self.with_fetch_waiter(page, source, fresh), self.wait_source(page, fresh))
    }

    /// Outcome of starting a fetch of `page`. With a planner the read retains
    /// `target`, which the backend fills. A fetch without a request keeps no
    /// version.
    pub open spec fn own_fetch(self, page: PageIndex, target: Option<CachedFrame>) -> (
        Self,
        FilePageFetchId,
    ) {
        let id = FilePageFetchId(self.next_fetch);
        let begun = fetch_begun(self.slot(page));
        let generation = begun.generation;
        let request = self.submission.next_request(
            PageIoRange { start_page: page.0, page_count: 1 },
            PageIoOp::Read,
            PageIoPriority::Demand,
            PageIoFlags::Demand,
            Some(generation),
        );
        let admitted = self.submission.admits() && (self.planned() ==> target is Some);
        let counted = ContainerView { next_fetch: next_nonzero(self.next_fetch), ..self };
        let fetch = FilePageFetch {
            id,
            generation,
            request_id: if admitted {
                Some(request.id)
            } else {
                None
            },
            source_id: None,
            joined: false,
        };
        (
            if admitted {
                ContainerView {
                    submission: if self.planned() {
                        self.submission.with_owner(
                            request,
                            PayloadView::Read { target: target->Some_0 },
                        )
                    } else {
                        self.submission.with_row(request)
                    },
                    ..counted.with_slot(page, begun).with_fetch(page, fetch)
                }
            } else {
                counted.with_slot(page, begun.renewed(PageSlotState::Empty)).with_fetch(page, fetch)
            },
            id,
        )
    }

    /// Outcome of asking for a file page.
    pub open spec fn begin_page_fetch(
        self,
        page: PageIndex,
        access: MaterializeAccess,
        target: Option<CachedFrame>,
        pins: PinGrants,
        fresh: u64,
    ) -> (Self, FilePageFetchStart) {
        if self.cached(page) {
            let (done, result) = self.materialize_existing(page, access, false, pins);
            (done, FilePageFetchStart::Cached(result))
        } else if self.fetches.contains_key(page.0) {
            let (done, source) = self.join_fetch(page, fresh);
            (done, FilePageFetchStart::Joined(source))
        } else {
            let (done, id) = self.own_fetch(page, target);
            (done, FilePageFetchStart::Owner(id))
        }
    }

    /// Whether a fetch of `page` is under way for which there is a request.
    pub open spec fn requested(self, page: PageIndex) -> bool {
        self.fetches.contains_key(page.0) && self.fetches[page.0].request_id is Some
    }

    /// Whether `id` is the fetch of `page` that is under way.
    pub open spec fn owns_fetch(self, page: PageIndex, id: FilePageFetchId) -> bool {
        self.fetches.contains_key(page.0) && self.fetches[page.0].id == id
    }

    /// The wait source to notify when `fetch` of `page` ends.
    pub open spec fn fetch_notice(self, page: PageIndex, fetch: FilePageFetch) -> Option<u64> {
        match fetch.request_id {
            Some(id) => if self.submission.waiters_of(id).len() > 0 && self.waits.contains_key(
                page.0,
            ) {
                Some(self.waits[page.0])
            } else {
                None
            },
            None => None,
        }
    }

    /// With the fetch of `page` and its request gone.
    pub open spec fn fetch_retired(self, page: PageIndex) -> Self {
        let fetch = self.fetches[page.0];
        ContainerView {
            submission: match fetch.request_id {
                Some(id) => self.submission.retired(id),
                None => self.submission,
            },
            ..self.without_fetch(page)
        }
    }

    /// Outcome of ending a fetch that brought nothing.
    pub open spec fn fetch_failed(self, page: PageIndex, id: FilePageFetchId) -> (Self, Option<u64>) {
        if !self.owns_fetch(page, id) {
            (self, None)
        } else {
            let fetch = self.fetches[page.0];
            let cancelled = if self.slots.contains_key(page.0) {
                self.with_slot(page, fetch_cancelled(self.slot(page), fetch.generation))
            } else {
                self
            };
            (cancelled.fetch_retired(page), self.fetch_notice(page, fetch))
        }
    }

    /// Outcome of ending a fetch whose page a plan has installed.
    pub open spec fn fetch_installed(self, page: PageIndex, id: FilePageFetchId) -> (
        Self,
        Option<u64>,
    ) {
        if !self.owns_fetch(page, id) {
            (self, None)
        } else {
            (self.fetch_retired(page), self.fetch_notice(page, self.fetches[page.0]))
        }
    }

    /// Outcome of ending the fetch of `generation` that a service completion
    /// has settled.
    pub open spec fn fetch_settled(
        self,
        page: PageIndex,
        generation: PageGeneration,
        notify_waiters: bool,
    ) -> (Self, Option<u64>) {
        if !self.fetches.contains_key(page.0) || self.fetches[page.0].generation != generation {
            (self, None)
        } else {
            (
                self.without_fetch(page),
                if notify_waiters && self.waits.contains_key(page.0) {
                    Some(self.waits[page.0])
                } else {
                    None
                },
            )
        }
    }

    /// Outcome of installing the frame that the owner of a fetch brought.
    pub open spec fn install_from_owner(
        self,
        page: PageIndex,
        access: MaterializeAccess,
        frame: Result<CachedFrame, PageCacheError>,
        pins: PinGrants,
        id: FilePageFetchId,
        retire: bool,
    ) -> (Self, StepOutcome<MaterializedPage, NoProgress>, Option<u64>) {
        match (frame, pins.map) {
            (Err(error), _) => {
                let (done, notify) = self.fetch_failed(page, id);
                (done, StepOutcome::Error(error.errno()), notify)
            },
            (Ok(_), Err(error)) => {
                let (done, notify) = self.fetch_failed(page, id);
                (done, StepOutcome::Error(PageCacheError::Alloc(error).errno()), notify)
            },
            (Ok(frame), Ok(())) => if !self.owns_fetch(page, id) {
                (self, StepOutcome::Error(Errno::EAGAIN), None)
            } else {
                let fetch = self.fetches[page.0];
                let notify = self.fetch_notice(page, fetch);
                let taken = self.fetch_retired(page);
                match taken.install_fetched(page, fetch.generation, frame, retire) {
                    (done, Ok(true)) => {
                        let last = if access == MaterializeAccess::Write {
                            done.written(page)
                        } else {
                            done
                        };
                        (
                            last,
                            StepOutcome::Done(
                                MaterializedPage {
                                    ppn: frame.ppn,
                                    map_pin: MaterializedPagePin::Allocated(
                                        MapPin { ppn: frame.ppn },
                                    ),
                                    newly_installed: true,
                                    dirty: holds_dirt(last.slot(page)),
                                },
                            ),
                            notify,
                        )
                    },
                    (done, Ok(false)) => {
                        let marked = if access == MaterializeAccess::Write {
                            done.referenced(page)
                        } else {
                            done
                        };
                        let (last, result) = marked.materialize_existing(page, access, false, pins);
                        (last, materialize_outcome(result), notify)
                    },
                    (done, Err(PageCacheError::Backend(Errno::EAGAIN))) => (
                        done,
                        StepOutcome::Continue { progress: NoProgress },
                        notify,
                    ),
                    (done, Err(error)) => (done, StepOutcome::Error(error.errno()), notify),
                }
            },
        }
    }

    /// Outcome of parking the owner of a fetch until its page is ready. There
    /// is none if the fetch is not the owner's any more.
    pub open spec fn park_on_fetch(
        self,
        page: PageIndex,
        access: MaterializeAccess,
        id: FilePageFetchId,
        pins: PinGrants,
        fresh: u64,
    ) -> (Self, Option<StepOutcome<MaterializedPage, NoProgress>>) {
        if self.cached(page) {
            let (done, result) = self.materialize_existing(page, access, false, pins);
            (done, Some(materialize_outcome(result)))
        } else if !self.owns_fetch(page, id) {
            (self, None)
        } else {
            let source = self.wait_source(page, fresh);
            (
                self.with_fetch_waiter(page, source, fresh),
                Some(
                    StepOutcome::Yield {
                        progress: NoProgress,
                        shape: YieldShape::OnWaitSource { source, interests: PAGE_READY },
                    },
                ),
            )
        }
    }
}

impl PageContainer {
    pub fn has_backend_planner(&self) -> (planned: bool)
        ensures
            planned == self@.planned(),
    {
        match self.kind {
            PageContainerKind::File { mount, .. } => mount.backend_planner,
            _ => false,
        }
    }

    /// Record a waiter on the fetch of `page`.
    fn register_fetch_waiter(&mut self, page: PageIndex, source: u64, fresh: u64)
        requires
            old(self).wf(),
            old(self)@.fetches.contains_key(page.0),
        ensures
            final(self).wf(),
            final(self)@ == old(self)@.with_fetch_waiter(page, source, fresh),
    {
        let ghost before = self@;
        if !self.file_page_waits.contains_key(page.0) {
            let _previous = self.file_page_waits.insert(page.0, fresh);
        }
        let fetch = self.in_flight_file_pages.get_mut(page.0);
        fetch.source_id = Some(source);
        fetch.joined = true;
        let request_id = fetch.request_id;
        match request_id {
            Some(id) => {
                self.page_submission.register_waiter(
                    id,
                    PageWaiter { source_id: source, interests: PAGE_READY },
                );
            },
            None => {},
        }
        proof {
            let expected = before.with_fetch_waiter(page, source, fresh);
            assert(self@.waits =~= expected.waits);
            assert(self@ =~= expected);
            before.lemma_consistent_frame(self@);
        }
    }

    /// Ask for a file page. `target` is a fresh frame for a planned read, and
    /// `fresh` a wait source of its own.
    pub fn begin_file_page_fetch(
        &mut self,
        page: PageIndex,
        access: MaterializeAccess,
        target: Option<CachedFrame>,
        pins: PinGrants,
        fresh: u64,
    ) -> (start: FilePageFetchStart)
        requires
            old(self).wf(),
            target matches Some(frame) ==> frame.wf(),
        ensures
            final(self).wf(),
            (final(self)@, start) == old(self)@.begin_page_fetch(page, access, target, pins, fresh),
    {
        match self.materialize_cached_page(page, access, pins) {
            Some(materialized) => {
                return FilePageFetchStart::Cached(materialized);
            },
            None => {},
        }
        if self.in_flight_file_pages.contains_key(page.0) {
            let known: Option<u64> = match self.in_flight_file_pages.get(page.0) {
                Some(fetch) => fetch.source_id,
                None => None,
            };
            let (source, endpoint): (u64, u64) = match self.file_page_waits.get(page.0) {
                Some(wait) => match known {
                    Some(source) => (source, *wait),
                    None => (*wait, *wait),
                },
                None => (fresh, fresh),
            };
            self.register_fetch_waiter(page, source, fresh);
            return FilePageFetchStart::Joined(endpoint);
        }
        FilePageFetchStart::Owner(self.own_file_page_fetch(page, target))
    }

    /// Start a fetch of a page that is neither cached nor being fetched.
    fn own_file_page_fetch(&mut self, page: PageIndex, target: Option<CachedFrame>) -> (id:
        FilePageFetchId)
        requires
            old(self).wf(),
            !old(self)@.cached(page),
            target matches Some(frame) ==> frame.wf(),
        ensures
            final(self).wf(),
            (final(self)@, id) == old(self)@.own_fetch(page, target),
    {
        let ghost before = self@;
        let planned = self.has_backend_planner();
        let id = self.allocate_file_fetch_id();
        self.resident_slot(page);
        let slot = self.page_slots.get_mut(page.0);
        let generation = match slot.begin_fetch() {
            PageSlotFetch::Owner { generation } => generation,
            PageSlotFetch::Joined { generation } => generation,
            PageSlotFetch::Resident { generation, .. } => generation,
            PageSlotFetch::Blocked { generation, .. } => generation,
        };
        let range = PageIoRange::new(page.0, 1);
        let request_id = if planned {
            match target {
                Some(target) => self.page_submission.submit_owned_file_request(
                    range,
                    PageIoOp::Read,
                    PageIoPriority::Demand,
                    PageIoFlags::Demand,
                    Some(generation),
                    FileIoPayload::Read { target },
                ),
                None => None,
            }
        } else {
            self.page_submission.submit(
                range,
                PageIoOp::Read,
                PageIoPriority::Demand,
                PageIoFlags::Demand,
                Some(generation),
            )
        };
        if request_id.is_none() {
            let slot = self.page_slots.get_mut(page.0);
            let _cancelled = slot.invalidate_if_generation(generation);
        }
        let _previous = self.in_flight_file_pages.insert(
            page.0,
            FilePageFetch::with_l4_request_generation(id, generation, request_id),
        );
        proof {
            let expected = before.own_fetch(page, target).0;
            assert(self@.slots =~= expected.slots);
            assert(self@ =~= expected);
            assert forall|k: u64| #[trigger] self@.pages.contains_key(k) implies {
                &&& self@.slots.contains_key(k)
                &&& self@.slots[k].inner.state.frame() matches Some(ppn) ==> ppn
                    == self@.pages[k].ppn
            } by {
                assert(before.pages.contains_key(k));
            }
        }
        id
    }

    /// Remove the fetch of `page` with its request, and say whom to notify.
    pub(crate) fn retire_file_page_fetch_wait(&mut self, page: PageIndex) -> (notify: Option<u64>)
        requires
            old(self).wf(),
            old(self)@.fetches.contains_key(page.0),
        ensures
            final(self).wf(),
            final(self)@ == old(self)@.fetch_retired(page),
            notify == old(self)@.fetch_notice(page, old(self)@.fetches[page.0]),
    {
        let ghost before = self@;
        let fetch = match self.in_flight_file_pages.remove(page.0) {
            Some(fetch) => fetch,
            None => {
                return None;
            },
        };
        let mut notify: Option<u64> = None;
        match fetch.request_id {
            Some(id) => {
                let (_owner, waiters) = self.page_submission.take_file_request(id);
                if waiters.len() > 0 {
                    notify = match self.file_page_waits.get(page.0) {
                        Some(wait) => Some(*wait),
                        None => None,
                    };
                }
            },
            None => {},
        }
        proof {
            before.lemma_consistent_frame(self@);
        }
        notify
    }

    fn owns_file_page_fetch(&self, page: PageIndex, id: FilePageFetchId) -> (owner: bool)
        requires
            self.wf(),
        ensures
            owner == self@.owns_fetch(page, id),
    {
        match self.in_flight_file_pages.get(page.0) {
            Some(fetch) => fetch.id == id,
            None => false,
        }
    }

    /// End a fetch that brought nothing.
    pub fn finish_file_page_fetch_without_install(
        &mut self,
        page: PageIndex,
        fetch_id: FilePageFetchId,
    ) -> (notify: Option<u64>)
        requires
            old(self).wf(),
        ensures
            final(self).wf(),
            (final(self)@, notify) == old(self)@.fetch_failed(page, fetch_id),
    {
        let generation = match self.in_flight_file_pages.get(page.0) {
            Some(fetch) => {
                if fetch.id != fetch_id {
                    return None;
                }
                fetch.generation
            },
            None => {
                return None;
            },
        };
        let ghost before = self@;
        let notify = self.retire_file_page_fetch_wait(page);
        if self.page_slots.contains_key(page.0) {
            let slot = self.page_slots.get_mut(page.0);
            let _cancelled = slot.invalidate_if_generation(generation);
        }
        proof {
            let expected = before.fetch_failed(page, fetch_id).0;
            assert(self@.slots =~= expected.slots);
            assert(self@ =~= expected);
        }
        notify
    }

    /// End a fetch whose page a plan has installed.
    pub fn finish_file_page_fetch_after_planned_install(
        &mut self,
        page: PageIndex,
        fetch_id: FilePageFetchId,
    ) -> (notify: Option<u64>)
        requires
            old(self).wf(),
        ensures
            final(self).wf(),
            (final(self)@, notify) == old(self)@.fetch_installed(page, fetch_id),
    {
        if !self.owns_file_page_fetch(page, fetch_id) {
            return None;
        }
        self.retire_file_page_fetch_wait(page)
    }

    /// End the fetch of `generation` that a service completion has settled.
    pub fn finish_file_page_fetch_after_service_completion(
        &mut self,
        page: PageIndex,
        generation: PageGeneration,
        notify_waiters: bool,
    ) -> (notify: Option<u64>)
        requires
            old(self).wf_but_fetch(page),
            old(self)@.fetches.contains_key(page.0) && old(self)@.fetches[page.0].generation
                != generation ==> old(self).wf(),
        ensures
            final(self).wf(),
            (final(self)@, notify) == old(self)@.fetch_settled(page, generation, notify_waiters),
    {
        match self.in_flight_file_pages.get(page.0) {
            Some(fetch) => {
                if fetch.generation != generation {
                    return None;
                }
            },
            None => {
                assert(self@.without_fetch(page).fetches =~= self@.fetches);
                assert(self@.without_fetch(page) =~= self@);
                return None;
            },
        }
        let ghost before = self@;
        let _fetch = self.in_flight_file_pages.remove(page.0);
        assert(self@ =~= before.without_fetch(page));
        if !notify_waiters {
            return None;
        }
        match self.file_page_waits.get(page.0) {
            Some(wait) => Some(*wait),
            None => None,
        }
    }

    /// Install the frame that the owner of a fetch brought. `pinned` and
    /// `released` are the allocator's answers for taking the frame over.
    pub fn install_fetched_file_page_from_owner(
        &mut self,
        page: PageIndex,
        access: MaterializeAccess,
        frame: Frame,
        pinned: Grant,
        released: Grant,
        pins: PinGrants,
        fetch_id: FilePageFetchId,
        retire: bool,
    ) -> (r: (StepOutcome<MaterializedPage, NoProgress>, Option<u64>))
        requires
            old(self).wf(),
        ensures
            final(self).wf(),
            (final(self)@, r.0, r.1) == old(self)@.install_from_owner(
                page,
                access,
                adopted(frame, pinned, released),
                pins,
                fetch_id,
                retire,
            ),
    {
        let frame = match cached_frame_from_frame(frame, pinned, released) {
            Ok(frame) => frame,
            Err(error) => {
                let notify = self.finish_file_page_fetch_without_install(page, fetch_id);
                return (StepOutcome::Error(page_cache_error_to_errno(error)), notify);
            },
        };
        match pins.map {
            Ok(()) => {},
            Err(error) => {
                let notify = self.finish_file_page_fetch_without_install(page, fetch_id);
                let errno = page_cache_error_to_errno(PageCacheError::Alloc(error));
                return (StepOutcome::Error(errno), notify);
            },
        }
        let ppn = frame.ppn;
        let generation = match self.in_flight_file_pages.get(page.0) {
            Some(fetch) => {
                if fetch.id != fetch_id {
                    return (StepOutcome::Error(Errno::EAGAIN), None);
                }
                fetch.generation
            },
            None => {
                return (StepOutcome::Error(Errno::EAGAIN), None);
            },
        };
        let notify = self.retire_file_page_fetch_wait(page);
        match self.install_fetched_resident_if_absent_published(page, generation, frame, retire) {
            Ok(true) => {
                if access == MaterializeAccess::Write {
                    self.write_cached(page);
                }
                let dirty = match self.page_slots.get(page.0) {
                    Some(slot) => page_slot_is_dirty(slot.snapshot()),
                    None => false,
                };
                (
                    StepOutcome::Done(
                        MaterializedPage {
                            ppn,
                            map_pin: MaterializedPagePin::Allocated(MapPin { ppn }),
                            newly_installed: true,
                            dirty,
                        },
                    ),
                    notify,
                )
            },
            Ok(false) => {
                if access == MaterializeAccess::Write {
                    self.mark_referenced(page);
                }
                let result = self.materialize_existing_page(page, access, false, pins);
                (materialized_outcome(result), notify)
            },
            Err(PageCacheError::Backend(Errno::EAGAIN)) => (
                StepOutcome::Continue { progress: NoProgress },
                notify,
            ),
            Err(error) => (StepOutcome::Error(page_cache_error_to_errno(error)), notify),
        }
    }

    /// Park the owner of a fetch until its page is ready.
    pub fn yield_on_file_page_fetch(
        &mut self,
        page: PageIndex,
        access: MaterializeAccess,
        fetch_id: FilePageFetchId,
        pins: PinGrants,
        fresh: u64,
    ) -> (outcome: Option<StepOutcome<MaterializedPage, NoProgress>>)
        requires
            old(self).wf(),
        ensures
            final(self).wf(),
            (final(self)@, outcome) == old(self)@.park_on_fetch(
                page,
                access,
                fetch_id,
                pins,
                fresh,
            ),
    {
        match self.materialize_cached_page(page, access, pins) {
            Some(result) => {
                return Some(materialized_outcome(result));
            },
            None => {},
        }
        if !self.owns_file_page_fetch(page, fetch_id) {
            return None;
        }
        let source: u64 = match self.file_page_waits.get(page.0) {
            Some(wait) => *wait,
            None => fresh,
        };
        self.register_fetch_waiter(page, source, fresh);
        Some(yield_on_page_ready_source(NoProgress, source))
    }
}

/// A page has one owner of its fetch: while it is being fetched nobody else
/// becomes an owner, and everybody who asks is sent to the same wait source.
pub proof fn law_a_page_is_fetched_once(
    view: ContainerView,
    page: PageIndex,
    access: MaterializeAccess,
    target: Option<CachedFrame>,
    pins: PinGrants,
    fresh: u64,
    later_access: MaterializeAccess,
    later_target: Option<CachedFrame>,
    later_pins: PinGrants,
    later_fresh: u64,
)
    requires
        !view.cached(page),
        view.fetches.contains_key(page.0),
    ensures
        ({
            let (once, first) = view.begin_page_fetch(page, access, target, pins, fresh);
            let (_, second) = once.begin_page_fetch(
                page,
                later_access,
                later_target,
                later_pins,
                later_fresh,
            );
            &&& first matches FilePageFetchStart::Joined(source)
            &&& second == first
            &&& once.fetches[page.0].id == view.fetches[page.0].id
        }),
{
}

/// A fetch that ended is of no effect any more: ending it again, or bringing its
/// frame, changes nothing.
pub proof fn law_fetch_ends_once(
    view: ContainerView,
    page: PageIndex,
    access: MaterializeAccess,
    frame: CachedFrame,
    pins: PinGrants,
    id: FilePageFetchId,
    retire: bool,
)
    requires
        pins.map is Ok,
    ensures
        ({
            let ended = view.fetch_failed(page, id).0;
            &&& ended.fetch_failed(page, id) == (ended, None::<u64>)
            &&& ended.fetch_installed(page, id) == (ended, None::<u64>)
            &&& ended.install_from_owner(page, access, Ok(frame), pins, id, retire).0 == ended
        }),
{
}

/// A fetch that brought nothing leaves no binding behind, and its version is
/// over: its frame is refused when it comes late.
pub proof fn law_failed_fetch_leaves_no_version(
    view: ContainerView,
    page: PageIndex,
    id: FilePageFetchId,
    frame: CachedFrame,
    retire: bool,
)
    requires
        view.owns_fetch(page, id),
        view.slots.contains_key(page.0),
    ensures
        ({
            let ended = view.fetch_failed(page, id).0;
            let generation = view.fetches[page.0].generation;
            &&& ended.pages == view.pages
            &&& ended.root == view.root
            &&& ended.install_fetched(page, generation, frame, retire).1 != Ok::<
                bool,
                PageCacheError,
            >(true)
        }),
{
    crate::slot::law_renewal_changes_the_generation(view.slot(page), PageSlotState::Empty);
}

} // verus!
