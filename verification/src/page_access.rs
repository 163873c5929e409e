//! Access to one page of a container, in steps: the filesystem and the backend
//! planner work between them.

use crate::container::{
    ContainerView, FilePageFetchId, MaterializeAccess, PageContainer, PageContainerKind,
};
use crate::fetch::FilePageFetchStart;
use crate::frame::{
    adopted, page_cache_error_to_errno, CachedFrame, Frame, Grant, MaterializedPage,
    PageCacheError,
};
use crate::ids::{Errno, FsObjectId, PageIndex, PAGE_BYTES, USER_PAGE_SIZE};
use crate::materialize::{materialize_outcome, materialized_outcome, PinGrants};
use crate::step::{
    wait_source_parts, yield_on_page_ready_source, yield_on_wait_source, NoProgress, StepOutcome,
    YieldShape, PAGE_READY,
};
use vstd::prelude::*;

verus! {

/// What the outside world answers to an access.
#[derive(Debug)]
pub struct AccessAnswers {
    pub pins: PinGrants,
    /// Whether a retire credit for the old root was granted.
    pub retire: bool,
    /// A zeroed frame, for an absent anonymous page or a planned read.
    pub allocated: Result<CachedFrame, PageCacheError>,
    /// A page wait source of its own.
    pub fresh: u64,
}

impl AccessAnswers {
    pub open spec fn wf(self) -> bool {
        self.allocated matches Ok(frame) ==> frame.wf()
    }
}

/// How an access goes on.
#[derive(Debug)]
pub enum AccessStep {
    Finished(StepOutcome<MaterializedPage, NoProgress>),
    /// Let the filesystem prepare a write of `len` bytes at `offset`.
    PrepareWrite { object: FsObjectId, offset: u64, len: usize },
    /// Run the page service, whose planner may bring the page.
    Drive { fetch: FilePageFetchId },
    /// Let the filesystem fetch the page at `offset`.
    Fetch { fetch: FilePageFetchId, object: FsObjectId, offset: u64 },
}

/// One step of an access, with what is left for the caller to do.
#[derive(Debug)]
pub struct AccessTurn {
    pub step: AccessStep,
    /// The wait source to be notified.
    pub notify: Option<u64>,
    /// The block service has work.
    pub kick_block: bool,
}

pub open spec fn turn(step: AccessStep) -> AccessTurn {
    AccessTurn { step, notify: None, kick_block: false }
}

pub open spec fn finished(outcome: StepOutcome<MaterializedPage, NoProgress>) -> AccessTurn {
    turn(AccessStep::Finished(outcome))
}

fn quiet(step: AccessStep) -> (t: AccessTurn)
    ensures
        t == turn(step),
{
    AccessTurn { step, notify: None, kick_block: false }
}

fn end(outcome: StepOutcome<MaterializedPage, NoProgress>) -> (t: AccessTurn)
    ensures
        t == finished(outcome),
{
    quiet(AccessStep::Finished(outcome))
}

/// Where a page starts in its file, if that is an offset.
pub open spec fn page_offset(page: PageIndex) -> Option<u64> {
    if page.0 * PAGE_BYTES <= u64::MAX {
        Some((page.0 * PAGE_BYTES) as u64)
    } else {
        None
    }
}

/// The outcome of an access that a filesystem's `shape` makes wait.
pub open spec fn waiting(shape: YieldShape) -> StepOutcome<MaterializedPage, NoProgress> {
    match shape {
        YieldShape::OnWaitSource { source, interests } => StepOutcome::Yield {
            progress: NoProgress,
            shape: YieldShape::OnWaitSource { source, interests },
        },
        YieldShape::OnAgent => StepOutcome::Error(Errno::EIO),
    }
}

fn wait_on(shape: YieldShape) -> (outcome: StepOutcome<MaterializedPage, NoProgress>)
    ensures
        outcome == waiting(shape),
{
    match wait_source_parts(&shape) {
        Some((source, interests)) => yield_on_wait_source(NoProgress, source, interests),
        None => StepOutcome::Error(Errno::EIO),
    }
}

impl ContainerView {
    pub open spec fn object(self) -> FsObjectId {
        self.kind->fs_object_id
    }

    /// The step that lets the filesystem fetch `page` for its owner.
    pub open spec fn fetch_step(self, page: PageIndex, id: FilePageFetchId) -> (Self, AccessTurn) {
        match page_offset(page) {
            Some(offset) => (
                self,
                turn(AccessStep::Fetch { fetch: id, object: self.object(), offset }),
            ),
            None => {
                let (done, notify) = self.fetch_failed(page, id);
                (
                    done,
                    AccessTurn {
                        notify,
                        ..finished(StepOutcome::Error(Errno::EINVAL))
                    },
                )
            },
        }
    }

    /// Outcome of an access that may start a fetch.
    pub open spec fn access_file_page(
        self,
        page: PageIndex,
        access: MaterializeAccess,
        answers: AccessAnswers,
    ) -> (Self, AccessTurn) {
        let target = if self.planned() {
            match answers.allocated {
                Ok(frame) => Some(frame),
                Err(_) => None,
            }
        } else {
            None
        };
        match self.begin_page_fetch(page, access, target, answers.pins, answers.fresh) {
            (done, FilePageFetchStart::Cached(result)) => (
                done,
                finished(materialize_outcome(result)),
            ),
            (done, FilePageFetchStart::Joined(source)) => (
                done,
                finished(
                    StepOutcome::Yield {
                        progress: NoProgress,
                        shape: YieldShape::OnWaitSource { source, interests: PAGE_READY },
                    },
                ),
            ),
            (done, FilePageFetchStart::Owner(fetch)) => if self.planned() {
                (done, turn(AccessStep::Drive { fetch }))
            } else {
                done.fetch_step(page, fetch)
            },
        }
    }

    /// Outcome of the first step of an access.
    pub open spec fn access_page(
        self,
        page: PageIndex,
        access: MaterializeAccess,
        answers: AccessAnswers,
    ) -> (Self, AccessTurn) {
        if page.0 >= self.page_count {
            (self, finished(StepOutcome::Error(PageCacheError::OutOfBounds.errno())))
        } else if self.kind is File && self.direct_active != 0 && self.access_conflicts(
            page,
            access,
        ) {
            (self, finished(StepOutcome::Error(Errno::EBUSY)))
        } else if access is Read && self.published_read(page, answers.pins.map) is Some {
            (
                self,
                finished(
                    materialize_outcome(self.published_read(page, answers.pins.map)->Some_0),
                ),
            )
        } else {
            match self.kind {
                PageContainerKind::Anon { .. } => {
                    let (done, result) = self.materialize_anon(
                        page,
                        access,
                        answers.allocated,
                        answers.pins,
                        answers.retire,
                    );
                    (done, finished(materialize_outcome(result)))
                },
                PageContainerKind::Device { base_ppn, page_count } => {
                    let (done, outcome) = self.materialize_device(
                        page,
                        base_ppn,
                        page_count,
                        answers.pins,
                        answers.retire,
                    );
                    (done, finished(outcome))
                },
                PageContainerKind::File { .. } => if self.access_conflicts(page, access) {
                    (self, finished(StepOutcome::Error(Errno::EBUSY)))
                } else if access is Read {
                    self.access_file_page(page, access, answers)
                } else {
                    match page_offset(page) {
                        None => (self, finished(StepOutcome::Error(Errno::EINVAL))),
                        Some(offset) => (
                            self,
                            turn(
                                AccessStep::PrepareWrite {
                                    object: self.object(),
                                    offset,
                                    len: USER_PAGE_SIZE,
                                },
                            ),
                        ),
                    }
                },
            }
        }
    }

    /// Outcome of the step after the filesystem has prepared a write.
    pub open spec fn access_prepared(
        self,
        page: PageIndex,
        access: MaterializeAccess,
        prepared: StepOutcome<(), NoProgress>,
        answers: AccessAnswers,
    ) -> (Self, AccessTurn) {
        match prepared {
            StepOutcome::Done(_) => self.access_file_page(page, access, answers),
            StepOutcome::Continue { .. } => (self, finished(StepOutcome::Error(Errno::EAGAIN))),
            StepOutcome::Yield { shape, .. } => (self, finished(waiting(shape))),
            StepOutcome::Error(errno) => (self, finished(StepOutcome::Error(errno))),
        }
    }

    /// Outcome of the step after the page service has run for a fetch. `failed`
    /// is the error that the planner gave its request, and `waits` tells
    /// whether transfers were queued.
    pub open spec fn access_driven(
        self,
        page: PageIndex,
        access: MaterializeAccess,
        fetch: FilePageFetchId,
        failed: Option<Errno>,
        waits: bool,
        pins: PinGrants,
        fresh: u64,
    ) -> (Self, AccessTurn) {
        match failed {
            Some(errno) => (self, finished(StepOutcome::Error(errno))),
            None => if self.cached(page) {
                let (ended, notify) = self.fetch_installed(page, fetch);
                let (done, result) = ended.materialize_existing(page, access, true, pins);
                (done, AccessTurn { notify, ..finished(materialize_outcome(result)) })
            } else if waits {
                match self.park_on_fetch(page, access, fetch, pins, fresh) {
                    (done, Some(outcome)) => (
                        done,
                        AccessTurn { kick_block: true, ..finished(outcome) },
                    ),
                    (done, None) => {
                        let (last, next) = done.fetch_step(page, fetch);
                        (last, AccessTurn { kick_block: true, ..next })
                    },
                }
            } else {
                self.fetch_step(page, fetch)
            },
        }
    }

    /// Outcome of the step after the filesystem has fetched a page.
    pub open spec fn access_fetched(
        self,
        page: PageIndex,
        access: MaterializeAccess,
        fetch: FilePageFetchId,
        fetched: StepOutcome<Frame, NoProgress>,
        pinned: Grant,
        released: Grant,
        pins: PinGrants,
        retire: bool,
    ) -> (Self, StepOutcome<MaterializedPage, NoProgress>, Option<u64>) {
        match fetched {
            StepOutcome::Done(frame) => self.install_from_owner(
                page,
                access,
                adopted(frame, pinned, released),
                pins,
                fetch,
                retire,
            ),
            StepOutcome::Continue { .. } => {
                let (done, notify) = self.fetch_failed(page, fetch);
                (done, StepOutcome::Error(Errno::EAGAIN), notify)
            },
            StepOutcome::Yield { shape, .. } => {
                let (done, notify) = self.fetch_failed(page, fetch);
                (done, waiting(shape), notify)
            },
            StepOutcome::Error(errno) => {
                let (done, notify) = self.fetch_failed(page, fetch);
                (done, StepOutcome::Error(errno), notify)
            },
        }
    }
}

fn offset_of(page: PageIndex) -> (offset: Option<u64>)
    ensures
        offset == page_offset(page),
{
    page.0.checked_mul(PAGE_BYTES)
}

impl PageContainer {
    /// The filesystem object behind a file container.
    fn file_object(&self) -> (object: FsObjectId)
        requires
            self@.kind is File,
        ensures
            object == self@.object(),
    {
        match self.kind {
            PageContainerKind::File { fs_object_id, .. } => fs_object_id,
            _ => FsObjectId::new(0),
        }
    }

    fn file_fetch_step(&mut self, page: PageIndex, fetch: FilePageFetchId) -> (t: AccessTurn)
        requires
            old(self).wf(),
            old(self)@.kind is File,
        ensures
            final(self).wf(),
            (final(self)@, t) == old(self)@.fetch_step(page, fetch),
    {
        match offset_of(page) {
            Some(offset) => {
                let object = self.file_object();
                quiet(AccessStep::Fetch { fetch, object, offset })
            },
            None => {
                let notify = self.finish_file_page_fetch_without_install(page, fetch);
                AccessTurn {
                    step: AccessStep::Finished(StepOutcome::Error(Errno::EINVAL)),
                    notify,
                    kick_block: false,
                }
            },
        }
    }

    fn start_file_page_access(
        &mut self,
        page: PageIndex,
        access: MaterializeAccess,
        answers: AccessAnswers,
    ) -> (t: AccessTurn)
        requires
            old(self).wf(),
            old(self)@.kind is File,
            answers.wf(),
        ensures
            final(self).wf(),
            (final(self)@, t) == old(self)@.access_file_page(page, access, answers),
    {
        let planned = self.has_backend_planner();
        let target = if planned {
            match answers.allocated {
                Ok(frame) => Some(frame),
                Err(_) => None,
            }
        } else {
            None
        };
        match self.begin_file_page_fetch(page, access, target, answers.pins, answers.fresh) {
            FilePageFetchStart::Cached(result) => end(materialized_outcome(result)),
            FilePageFetchStart::Joined(source) => end(
                yield_on_page_ready_source(NoProgress, source),
            ),
            FilePageFetchStart::Owner(fetch) => {
                if planned {
                    quiet(AccessStep::Drive { fetch })
                } else {
                    self.file_fetch_step(page, fetch)
                }
            },
        }
    }

    /// The first step of an access to `page`. The reclaim that low memory calls
    /// for comes with the registry of reclaim.
    pub fn materialize_page(
        &mut self,
        page: PageIndex,
        access: MaterializeAccess,
        answers: AccessAnswers,
    ) -> (t: AccessTurn)
        requires
            old(self).wf(),
            answers.wf(),
        ensures
            final(self).wf(),
            (final(self)@, t) == old(self)@.access_page(page, access, answers),
    {
        match self.check_bounds(page) {
            Ok(()) => {},
            Err(error) => {
                return end(StepOutcome::Error(page_cache_error_to_errno(error)));
            },
        }
        if self.is_file() && self.direct_io_active != 0
            && self.file_page_access_conflicts_with_reservation(page, access) {
            return end(StepOutcome::Error(Errno::EBUSY));
        }
        if access == MaterializeAccess::Read {
            match self.materialize_published_read(page, answers.pins.map) {
                Some(result) => {
                    return end(materialized_outcome(result));
                },
                None => {},
            }
        }
        match self.kind {
            PageContainerKind::Anon { .. } => {
                let result = self.materialize_anon(
                    page,
                    access,
                    answers.allocated,
                    answers.pins,
                    answers.retire,
                );
                end(materialized_outcome(result))
            },
            PageContainerKind::Device { base_ppn, page_count } => end(
                self.materialize_device_page(
                    page,
                    base_ppn,
                    page_count,
                    answers.pins,
                    answers.retire,
                ),
            ),
            PageContainerKind::File { .. } => self.materialize_file_page(page, access, answers),
        }
    }

    /// The first step of an access to a file page that no published binding
    /// serves.
    pub fn materialize_file_page(
        &mut self,
        page: PageIndex,
        access: MaterializeAccess,
        answers: AccessAnswers,
    ) -> (t: AccessTurn)
        requires
            old(self).wf(),
            old(self)@.kind is File,
            answers.wf(),
        ensures
            final(self).wf(),
            (final(self)@, t) == (if old(self)@.access_conflicts(page, access) {
                (old(self)@, finished(StepOutcome::Error(Errno::EBUSY)))
            } else if access is Read {
                old(self)@.access_file_page(page, access, answers)
            } else {
                match page_offset(page) {
                    None => (old(self)@, finished(StepOutcome::Error(Errno::EINVAL))),
                    Some(offset) => (
                        old(self)@,
                        turn(
                            AccessStep::PrepareWrite {
                                object: old(self)@.object(),
                                offset,
                                len: USER_PAGE_SIZE,
                            },
                        ),
                    ),
                }
            }),
    {
        if self.file_page_access_conflicts_with_reservation(page, access) {
            return end(StepOutcome::Error(Errno::EBUSY));
        }
        match access {
            MaterializeAccess::Read => self.start_file_page_access(page, access, answers),
            MaterializeAccess::Write => match offset_of(page) {
                None => end(StepOutcome::Error(Errno::EINVAL)),
                Some(offset) => {
                    let object = self.file_object();
                    quiet(AccessStep::PrepareWrite { object, offset, len: USER_PAGE_SIZE })
                },
            },
        }
    }

    /// The step after the filesystem has answered a prepared write.
    pub fn resume_prepared_write(
        &mut self,
        page: PageIndex,
        access: MaterializeAccess,
        prepared: StepOutcome<(), NoProgress>,
        answers: AccessAnswers,
    ) -> (t: AccessTurn)
        requires
            old(self).wf(),
            old(self)@.kind is File,
            answers.wf(),
        ensures
            final(self).wf(),
            (final(self)@, t) == old(self)@.access_prepared(page, access, prepared, answers),
    {
        match prepared {
            StepOutcome::Done(_) => self.start_file_page_access(page, access, answers),
            StepOutcome::Continue { .. } => end(StepOutcome::Error(Errno::EAGAIN)),
            StepOutcome::Yield { shape, .. } => end(wait_on(shape)),
            StepOutcome::Error(errno) => end(StepOutcome::Error(errno)),
        }
    }

    /// The step after the page service has run for a planned fetch.
    pub fn resume_driven_fetch(
        &mut self,
        page: PageIndex,
        access: MaterializeAccess,
        fetch: FilePageFetchId,
        failed: Option<Errno>,
        waits: bool,
        pins: PinGrants,
        fresh: u64,
    ) -> (t: AccessTurn)
        requires
            old(self).wf(),
            old(self)@.kind is File,
        ensures
            final(self).wf(),
            (final(self)@, t) == old(self)@.access_driven(
                page,
                access,
                fetch,
                failed,
                waits,
                pins,
                fresh,
            ),
    {
        match failed {
            Some(errno) => {
                return end(StepOutcome::Error(errno));
            },
            None => {},
        }
        if self.pages.lookup(page).is_some() {
            let notify = self.finish_file_page_fetch_after_planned_install(page, fetch);
            let result = self.materialize_existing_page(page, access, true, pins);
            return AccessTurn {
                step: AccessStep::Finished(materialized_outcome(result)),
                notify,
                kick_block: false,
            };
        }
        if waits {
            match self.yield_on_file_page_fetch(page, access, fetch, pins, fresh) {
                Some(outcome) => {
                    return AccessTurn {
                        step: AccessStep::Finished(outcome),
                        notify: None,
                        kick_block: true,
                    };
                },
                None => {
                    let next = self.file_fetch_step(page, fetch);
                    return AccessTurn { step: next.step, notify: next.notify, kick_block: true };
                },
            }
        }
        self.file_fetch_step(page, fetch)
    }

    /// The step after the filesystem has answered a fetch.
    pub fn resume_fetched_page(
        &mut self,
        page: PageIndex,
        access: MaterializeAccess,
        fetch: FilePageFetchId,
        fetched: StepOutcome<Frame, NoProgress>,
        pinned: Grant,
        released: Grant,
        pins: PinGrants,
        retire: bool,
    ) -> (r: (StepOutcome<MaterializedPage, NoProgress>, Option<u64>))
        requires
            old(self).wf(),
        ensures
            final(self).wf(),
            (final(self)@, r.0, r.1) == old(self)@.access_fetched(
                page,
                access,
                fetch,
                fetched,
                pinned,
                released,
                pins,
                retire,
            ),
    {
        match fetched {
            StepOutcome::Done(frame) => self.install_fetched_file_page_from_owner(
                page,
                access,
                frame,
                pinned,
                released,
                pins,
                fetch,
                retire,
            ),
            StepOutcome::Continue { .. } => {
                let notify = self.finish_file_page_fetch_without_install(page, fetch);
                (StepOutcome::Error(Errno::EAGAIN), notify)
            },
            StepOutcome::Yield { shape, .. } => {
                let notify = self.finish_file_page_fetch_without_install(page, fetch);
                (wait_on(shape), notify)
            },
            StepOutcome::Error(errno) => {
                let notify = self.finish_file_page_fetch_without_install(page, fetch);
                (StepOutcome::Error(errno), notify)
            },
        }
    }

    /// The first step of an access that resolves a fault. Device memory is not
    /// faulted in.
    pub fn materialize_page_for_fault_step(
        &mut self,
        page: PageIndex,
        access: MaterializeAccess,
        answers: AccessAnswers,
    ) -> (t: AccessTurn)
        requires
            old(self).wf(),
            answers.wf(),
        ensures
            final(self).wf(),
            (final(self)@, t) == (if old(self)@.kind is Device {
                (old(self)@, finished(StepOutcome::Error(Errno::EINVAL)))
            } else {
                old(self)@.access_page(page, access, answers)
            }),
    {
        if self.is_device() {
            return end(
                StepOutcome::Error(page_cache_error_to_errno(PageCacheError::UnsupportedKind)),
            );
        }
        self.materialize_page(page, access, answers)
    }
}

/// A direct transfer keeps the cache away from its range: while it is in flight,
/// an access to a page of it is refused as busy and changes nothing.
pub proof fn law_direct_io_excludes_buffered_access(
    view: ContainerView,
    i: int,
    page: PageIndex,
    access: MaterializeAccess,
    answers: AccessAnswers,
)
    requires
        view.kind is File,
        page.0 < view.page_count,
        0 <= i < view.reservations.len(),
        view.reservations[i].kind is DirectRead || view.reservations[i].kind is DirectWrite,
        view.reservations[i].range.fits(),
        view.reservations[i].range.holds(page),
        view.direct_active == crate::container::direct_count(view.reservations),
    ensures
        view.access_page(page, access, answers) == (
            view,
            finished(StepOutcome::Error(Errno::EBUSY)),
        ),
{
    lemma_counts(view.reservations, i);
    let range = crate::range::PageRange { start: page, page_count: 1 };
    assert(view.reservations[i].blocks(range, crate::materialize::buffered_kind(access)));
}

proof fn lemma_counts(live: Seq<crate::range::RangeReservation>, i: int)
    requires
        0 <= i < live.len(),
        crate::container::is_direct(live[i].kind) == 1,
    ensures
        crate::container::direct_count(live) > 0,
    decreases live.len(),
{
    if i < live.len() - 1 {
        assert(live.drop_last()[i] == live[i]);
        lemma_counts(live.drop_last(), i);
    }
}

/// A read of a page that is published and unchanged in its slot needs nothing
/// but the mapping pin, and leaves the container as it is.
pub proof fn law_published_read_changes_nothing(
    view: ContainerView,
    page: PageIndex,
    answers: AccessAnswers,
)
    requires
        page.0 < view.page_count,
        view.published_read(page, answers.pins.map) is Some,
    ensures
        view.access_page(page, MaterializeAccess::Read, answers).0 == view,
{
}

/// A write access that succeeds leaves its page dirty, as a newer version than
/// before.
pub proof fn law_written_page_is_dirty(
    view: ContainerView,
    page: PageIndex,
    newly_installed: bool,
    pins: PinGrants,
)
    requires
        view.kind !is Device,
        view.materialize_existing(page, MaterializeAccess::Write, newly_installed, pins).1 is Ok,
    ensures
        ({
            let (after, result) = view.materialize_existing(
                page,
                MaterializeAccess::Write,
                newly_installed,
                pins,
            );
            &&& crate::container::holds_dirt(after.slot(page))
            &&& result->Ok_0.dirty
            &&& result->Ok_0.ppn == view.pages[page.0].ppn
            &&& after.slot(page).generation != view.slot(page).generation
                || view.slot(page).state.frame() is None
        }),
{
    crate::slot::law_renewal_changes_the_generation(view.slot(page), view.slot(page).state);
}

} // verus!
