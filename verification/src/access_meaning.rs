//! What a page access does: which frame comes out, what is asked of the
//! filesystem, and what of the container changes.

use crate::access_run::{AccessReplies, NotesView};
use crate::container::{
    ContainerView, FilePageFetchId, MaterializeAccess, PageContainerKind,
};
use crate::frame::{
    DeviceFrame, Frame, MapPin, MaterializedPage, MaterializedPagePin, PageCacheError,
};
use crate::ids::{Errno, PageIndex, Ppn, PAGE_BYTES};
use crate::materialize::PinGrants;
use crate::page_access::{AccessAnswers, AccessStep, AccessTurn};
use crate::planned_fetch::ServiceTurn;
use crate::service::{FileBlockSubmissionTarget, ServiceDrivenWork, ServiceItemEnd};
use crate::slot::PageSlotState;
use crate::step::{NoProgress, StepOutcome, YieldShape};
use vstd::prelude::*;

verus! {

/// Whether a live reservation of `page` keeps an access away: any but one for
/// buffered reads, which other reads share.
pub open spec fn is_busy(view: ContainerView, page: PageIndex, access: MaterializeAccess) -> bool {
    exists|i: int|
        0 <= i < view.reservations.len() && {
            let held = #[trigger] view.reservations[i];
            &&& held.range.start.0 <= page.0 < held.range.start.0 + held.range.page_count
            &&& held.range.start.0 + held.range.page_count <= u64::MAX
            &&& !(access is Read && held.kind is BufferedRead)
        }
}

/// The two containers agree on every page but `page`.
pub open spec fn agree_elsewhere(a: ContainerView, b: ContainerView, page: PageIndex) -> bool {
    forall|k: u64|
        k != page.0 ==> {
            &&& #[trigger] a.pages.contains_key(k) == b.pages.contains_key(k)
            &&& a.pages.contains_key(k) ==> a.pages[k] == b.pages[k]
            &&& a.slots.contains_key(k) == b.slots.contains_key(k)
            &&& a.slots.contains_key(k) ==> a.slots[k] == b.slots[k]
            &&& a.root.contains_key(k) == b.root.contains_key(k)
            &&& a.root.contains_key(k) ==> a.root[k] == b.root[k]
            &&& a.fetches.contains_key(k) == b.fetches.contains_key(k)
            &&& a.fetches.contains_key(k) ==> a.fetches[k] == b.fetches[k]
        }
}

/// Whether slot, cache and root bind `page` to `ppn`, the slot in `state`.
pub open spec fn is_bound(view: ContainerView, page: PageIndex, ppn: Ppn, state: PageSlotState) -> bool {
    &&& view.pages.contains_key(page.0)
    &&& view.pages[page.0].ppn == ppn
    &&& view.root.contains_key(page.0)
    &&& view.root[page.0].ppn == ppn
    &&& view.slots.contains_key(page.0)
    &&& view.slots[page.0].inner.state == state
}

/// A page of the allocator that came out of an access.
pub open spec fn mapped_page(ppn: Ppn, newly_installed: bool, dirty: bool) -> MaterializedPage {
    MaterializedPage {
        ppn,
        map_pin: MaterializedPagePin::Allocated(MapPin { ppn }),
        newly_installed,
        dirty,
    }
}

/// Whether `step` asks the filesystem about `page` of its object: for the bytes
/// of that page, at the offset where the page starts.
pub open spec fn asks_about(step: AccessStep, view: ContainerView, page: PageIndex) -> bool {
    match step {
        AccessStep::Fetch { object, offset, fetch } => {
            &&& view.kind matches PageContainerKind::File { fs_object_id, .. } && object
                == fs_object_id
            &&& offset == page.0 * PAGE_BYTES
        },
        AccessStep::PrepareWrite { object, offset, len } => {
            &&& view.kind matches PageContainerKind::File { fs_object_id, .. } && object
                == fs_object_id
            &&& offset == page.0 * PAGE_BYTES
            &&& len == PAGE_BYTES
        },
        _ => true,
    }
}

/// Whatever the filesystem is asked in the course of an access is about the
/// page that is accessed: its object, the offset of the page number times the
/// size of a page, and for a write one page. Only a write is prepared.
pub proof fn law_the_filesystem_is_asked_about_the_page(
    view: ContainerView,
    page: PageIndex,
    access: MaterializeAccess,
    answers: AccessAnswers,
    prepared: StepOutcome<(), NoProgress>,
    fetch: FilePageFetchId,
    failed: Option<Errno>,
    waits: bool,
    pins: PinGrants,
    fresh: u64,
)
    ensures
        asks_about(view.access_page(page, access, answers).1.step, view, page),
        view.access_page(page, access, answers).1.step is PrepareWrite ==> access is Write,
        view.kind is File ==> asks_about(
            view.access_prepared(page, access, prepared, answers).1.step,
            view,
            page,
        ),
        view.kind is File ==> asks_about(
            view.access_driven(page, access, fetch, failed, waits, pins, fresh).1.step,
            view,
            page,
        ),
        view.access_driven(page, access, fetch, failed, waits, pins, fresh).1.step matches
            AccessStep::Fetch { fetch: asked, .. } ==> asked == fetch,
{
}

/// A page beyond the container is refused, and nothing changes.
pub proof fn law_an_access_beyond_the_container_is_refused(
    view: ContainerView,
    page: PageIndex,
    access: MaterializeAccess,
    answers: AccessAnswers,
)
    requires
        page.0 >= view.page_count,
    ensures
        view.access_page(page, access, answers) == (
            view,
            AccessTurn {
                step: AccessStep::Finished(StepOutcome::Error(Errno::EINVAL)),
                notify: None,
                kick_block: false,
            },
        ),
{
}

/// A reserved page of a file is busy to an access unless both only read through
/// the cache, and only a reserved page is.
pub proof fn law_a_reserved_page_is_busy(
    view: ContainerView,
    page: PageIndex,
    access: MaterializeAccess,
)
    requires
        page.0 < view.page_count,
        forall|i: int|
            0 <= i < view.reservations.len() ==> (#[trigger] view.reservations[i]).range.page_count
                > 0,
    ensures
        view.access_conflicts(page, access) <==> is_busy(view, page, access),
{
    let range = crate::range::PageRange { start: page, page_count: 1 };
    let kind = crate::materialize::buffered_kind(access);
    if is_busy(view, page, access) {
        let i = choose|i: int|
            0 <= i < view.reservations.len() && {
                let held = #[trigger] view.reservations[i];
                &&& held.range.start.0 <= page.0 < held.range.start.0 + held.range.page_count
                &&& held.range.start.0 + held.range.page_count <= u64::MAX
                &&& !(access is Read && held.kind is BufferedRead)
            };
        assert(view.reservations[i].blocks(range, kind));
    }
    if view.access_conflicts(page, access) {
        let i = choose|i: int|
            0 <= i < view.reservations.len() && (#[trigger] view.reservations[i]).blocks(
                range,
                kind,
            );
        let held = view.reservations[i];
        assert(held.range.start.0 <= page.0 < held.range.start.0 + held.range.page_count);
    }
}

/// An absent page of anonymous memory becomes the zeroed frame that was
/// allocated, and that frame comes out: clean for a read, dirty for a write. No
/// other page is touched. Nothing is installed where the frame, its mapping or
/// the publication is refused.
pub proof fn law_an_absent_anonymous_page_is_zero_filled(
    view: ContainerView,
    page: PageIndex,
    access: MaterializeAccess,
    answers: AccessAnswers,
)
    requires
        view.consistent(),
        view.kind is Anon,
        page.0 < view.page_count,
        !view.pages.contains_key(page.0),
        !view.slots.contains_key(page.0) || view.slots[page.0].inner.state !is Fetching,
    ensures
        ({
            let (after, turn) = view.access_page(page, access, answers);
            let dirty = access is Write;
            &&& turn.notify is None && !turn.kick_block
            &&& agree_elsewhere(after, view, page)
            &&& turn.step == AccessStep::Finished(
                match answers.allocated {
                    Err(error) => StepOutcome::Error(error.errno()),
                    Ok(frame) => if answers.pins.map is Err {
                        StepOutcome::Error(Errno::ENOMEM)
                    } else if !answers.retire || view.sequence % 2 != 0 {
                        StepOutcome::Error(Errno::EAGAIN)
                    } else {
                        StepOutcome::Done(mapped_page(frame.ppn, true, dirty))
                    },
                },
            )
            &&& turn.step matches AccessStep::Finished(StepOutcome::Done(_)) ==> {
                let ppn = answers.allocated->Ok_0.ppn;
                &&& is_bound(
                    after,
                    page,
                    ppn,
                    if dirty {
                        PageSlotState::Dirty { ppn }
                    } else {
                        PageSlotState::Resident { ppn }
                    },
                )
                &&& after.pages[page.0].pin == answers.allocated->Ok_0.pin
            }
            &&& turn.step matches AccessStep::Finished(StepOutcome::Error(_)) ==> {
                &&& after.pages == view.pages
                &&& after.root == view.root
                &&& after.slot(page) == view.slot(page)
            }
        }),
{
}

/// A page of device memory is the frame as far into the aperture as the page is
/// into the container. It needs no pin and is never dirty. A page outside the
/// aperture is refused.
pub proof fn law_a_device_page_is_its_place_in_the_aperture(
    view: ContainerView,
    page: PageIndex,
    access: MaterializeAccess,
    answers: AccessAnswers,
    base: Ppn,
    count: u64,
)
    requires
        view.consistent(),
        view.kind == (PageContainerKind::Device { base_ppn: base, page_count: count }),
        page.0 < view.page_count,
        !view.pages.contains_key(page.0),
        !view.slots.contains_key(page.0) || view.slots[page.0].inner.state !is Fetching,
        answers.retire,
        view.sequence % 2 == 0,
    ensures
        ({
            let (after, turn) = view.access_page(page, access, answers);
            let ppn = Ppn((base.0 + page.0) as usize);
            &&& page.0 < count && base.0 + page.0 <= usize::MAX ==> {
                &&& turn.step == AccessStep::Finished(
                    StepOutcome::Done(
                        MaterializedPage {
                            ppn,
                            map_pin: MaterializedPagePin::Device(DeviceFrame { ppn }),
                            newly_installed: true,
                            dirty: false,
                        },
                    ),
                )
                &&& is_bound(after, page, ppn, PageSlotState::Resident { ppn })
                &&& agree_elsewhere(after, view, page)
            }
            &&& page.0 >= count || base.0 + page.0 > usize::MAX ==> {
                &&& after == view
                &&& turn.step == AccessStep::Finished(StepOutcome::Error(Errno::EINVAL))
            }
        }),
{
}

/// An access to a cached page comes out with the frame in which the page is
/// cached. A read changes nothing but an unbound slot; a write makes the page
/// dirty as a new version, and one that is being written back dirty anew. A
/// refused pin is an error.
pub proof fn law_a_cached_page_comes_out_with_its_frame(
    view: ContainerView,
    page: PageIndex,
    access: MaterializeAccess,
    newly_installed: bool,
    pins: PinGrants,
)
    requires
        view.consistent(),
        view.kind !is Device,
        view.pages.contains_key(page.0),
        view.pages[page.0].pin is Allocated,
        view.slots[page.0].inner.state !is Fetching,
    ensures
        ({
            let (after, result) = view.materialize_existing(page, access, newly_installed, pins);
            let ppn = view.pages[page.0].ppn;
            let before = view.slots[page.0].inner;
            let slot = after.slots[page.0].inner;
            &&& result == if pins.cache is Err {
                Err(PageCacheError::Alloc(pins.cache->Err_0))
            } else if pins.map is Err {
                Err(PageCacheError::Alloc(pins.map->Err_0))
            } else {
                Ok(
                    mapped_page(
                        ppn,
                        newly_installed,
                        access is Write || before.state is Dirty || before.state is Writeback,
                    ),
                )
            }
            &&& after.slots.contains_key(page.0)
            &&& after.pages.contains_key(page.0) && after.pages[page.0].ppn == ppn
            &&& after.root == view.root
            &&& agree_elsewhere(after, view, page)
            &&& access is Read ==> after.pages == view.pages
            &&& access is Write ==> {
                &&& after.pages[page.0].marks.referenced
                &&& after.pages[page.0].marks.no_reclaim == view.pages[page.0].marks.no_reclaim
                &&& slot.generation != before.generation || before.state is Empty
                    || before.state is Error
                &&& slot.state == match before.state {
                    PageSlotState::Writeback { submitted_generation, .. } => {
                        PageSlotState::Writeback { ppn, submitted_generation, redirtied: true }
                    },
                    _ => PageSlotState::Dirty { ppn },
                }
            }
            &&& access is Read ==> match before.state {
                PageSlotState::Empty => slot.state == (PageSlotState::Resident { ppn }),
                PageSlotState::Error { .. } => slot.state == (PageSlotState::Resident { ppn }),
                _ => slot == before,
            }
        }),
{
}

/// What the answers to an access grant all that it asks for.
pub open spec fn all_granted(answers: AccessAnswers) -> bool {
    &&& answers.pins.cache is Ok
    &&& answers.pins.map is Ok
    &&& answers.retire
}

/// From the first step to its outcome, an access to a cached page of memory or
/// of a file comes out with the frame of the page, dirty after a write.
pub proof fn law_a_cached_page_is_accessed(
    view: ContainerView,
    page: PageIndex,
    access: MaterializeAccess,
    replies: AccessReplies,
    notes: NotesView,
)
    requires
        view.consistent(),
        view.kind !is Device,
        page.0 < view.page_count,
        page.0 * PAGE_BYTES <= u64::MAX,
        view.pages.contains_key(page.0),
        view.pages[page.0].pin is Allocated,
        view.slots[page.0].inner.state !is Fetching,
        forall|i: int|
            0 <= i < view.reservations.len() ==> (#[trigger] view.reservations[i]).range.page_count
                > 0,
        view.kind is Anon || !is_busy(view, page, access),
        all_granted(replies.first),
        all_granted(replies.after_prepare),
        replies.prepared is Done,
    ensures
        ({
            let done = view.access_whole(page, access, replies, notes);
            let before = view.slots[page.0].inner.state;
            &&& done.outcome == StepOutcome::<MaterializedPage, NoProgress>::Done(
                mapped_page(
                    view.pages[page.0].ppn,
                    false,
                    access is Write || before is Dirty || before is Writeback,
                ),
            )
            &&& done.notes == notes
            &&& done.view.pages.contains_key(page.0)
            &&& done.view.pages[page.0].ppn == view.pages[page.0].ppn
            &&& access is Write ==> done.view.slots[page.0].inner.state is Dirty
                || done.view.slots[page.0].inner.state is Writeback
            &&& agree_elsewhere(done.view, view, page)
        }),
{
    reveal(ContainerView::access_whole);
    law_a_reserved_page_is_busy(view, page, access);
    law_a_cached_page_comes_out_with_its_frame(view, page, access, false, replies.first.pins);
    law_a_cached_page_comes_out_with_its_frame(
        view,
        page,
        access,
        false,
        replies.after_prepare.pins,
    );
}

/// A busy page of a file is refused at the first step, and nothing changes.
pub proof fn law_a_busy_page_is_refused(
    view: ContainerView,
    page: PageIndex,
    access: MaterializeAccess,
    answers: AccessAnswers,
)
    requires
        view.kind is File,
        page.0 < view.page_count,
        forall|i: int|
            0 <= i < view.reservations.len() ==> (#[trigger] view.reservations[i]).range.page_count
                > 0,
        is_busy(view, page, access),
        !view.root.contains_key(page.0) || access is Write || view.direct_active > 0,
    ensures
        view.access_page(page, access, answers).0 == view,
        view.access_page(page, access, answers).1.step == AccessStep::Finished(
            StepOutcome::Error(Errno::EBUSY),
        ),
{
    law_a_reserved_page_is_busy(view, page, access);
}

/// Whether there is room for another page request.
pub open spec fn has_room(view: ContainerView) -> bool {
    &&& view.submission.rows.len() < view.submission.capacity
    &&& !view.submission.rows.contains_key(view.submission.next_id)
    &&& !view.submission.owners.contains_key(view.submission.next_id)
}

/// Who first asks for an absent page of a file fetches it, with an identity of
/// its own, and the page's slot waits for the fetch. With a planner the page
/// service is run for it, without one the filesystem is asked. Who asks
/// meanwhile is sent to the wait source of the page, and no second fetch starts.
pub proof fn law_an_absent_file_page_is_fetched_by_one(
    view: ContainerView,
    page: PageIndex,
    access: MaterializeAccess,
    answers: AccessAnswers,
)
    requires
        view.consistent(),
        view.kind is File,
        page.0 * PAGE_BYTES <= u64::MAX,
        !view.pages.contains_key(page.0),
    ensures
        ({
            let (after, turn) = view.access_file_page(page, access, answers);
            let planner = view.kind->mount.backend_planner;
            &&& after.pages == view.pages
            &&& after.root == view.root
            &&& agree_elsewhere(after, view, page)
            &&& !view.fetches.contains_key(page.0) ==> {
                let id = FilePageFetchId(view.next_fetch);
                &&& after.fetches.contains_key(page.0)
                &&& after.fetches[page.0].id == id
                &&& after.next_fetch != view.next_fetch
                &&& after.waits == view.waits
                &&& turn.notify is None && !turn.kick_block
                &&& planner ==> turn.step == (AccessStep::Drive { fetch: id })
                &&& !planner ==> turn.step == (AccessStep::Fetch {
                    fetch: id,
                    object: view.kind->fs_object_id,
                    offset: (page.0 * PAGE_BYTES) as u64,
                })
                &&& has_room(view) && (planner ==> answers.allocated is Ok) ==> {
                    let request = after.fetches[page.0].request_id;
                    &&& request is Some && request->Some_0.0 == view.submission.next_id
                    &&& after.slots[page.0].inner.state is Fetching
                    &&& after.slots[page.0].inner.generation == after.fetches[page.0].generation
                    &&& after.submission.rows.contains_key(view.submission.next_id)
                    &&& ({
                        let row = after.submission.rows[view.submission.next_id];
                        &&& row.id.0 == view.submission.next_id
                        &&& row.range.start_page == page.0
                        &&& row.range.page_count == 1
                        &&& row.op is Read
                        &&& row.generation_hint == Some(after.fetches[page.0].generation)
                    })
                    &&& planner ==> after.submission.owners.contains_key(view.submission.next_id)
                        && (after.submission.owners[view.submission.next_id].payload matches
                        crate::lease::PayloadView::Read { target } && target
                        == answers.allocated->Ok_0)
                }
                &&& !has_room(view) ==> after.fetches[page.0].request_id is None
                    && after.submission == view.submission
            }
            &&& view.fetches.contains_key(page.0) ==> {
                let source = if view.waits.contains_key(page.0) {
                    view.waits[page.0]
                } else {
                    answers.fresh
                };
                &&& turn.step == AccessStep::Finished(
                    StepOutcome::Yield {
                        progress: NoProgress,
                        shape: YieldShape::OnWaitSource { source, interests: 1 },
                    },
                )
                &&& after.waits == view.waits.insert(page.0, source)
                &&& after.fetches[page.0].id == view.fetches[page.0].id
                &&& after.fetches[page.0].generation == view.fetches[page.0].generation
                &&& after.fetches[page.0].request_id == view.fetches[page.0].request_id
                &&& after.fetches[page.0].joined
                &&& after.slots == view.slots
                &&& after.next_fetch == view.next_fetch
            }
        }),
{
}

/// The frame that the filesystem brings for the owner of a fetch becomes the
/// page: cached, published, and dirty after a write. The fetch is over.
pub proof fn law_a_fetched_frame_becomes_the_page(
    view: ContainerView,
    page: PageIndex,
    access: MaterializeAccess,
    fetch: FilePageFetchId,
    frame: Frame,
    pins: PinGrants,
)
    requires
        view.consistent(),
        view.sequence % 2 == 0,
        view.fetches.contains_key(page.0),
        view.fetches[page.0].id == fetch,
        view.fetches[page.0].request_id is Some,
        pins.map is Ok,
    ensures
        ({
            let (after, outcome, notify) = view.access_fetched(
                page,
                access,
                fetch,
                StepOutcome::Done(frame),
                Ok(()),
                Ok(()),
                pins,
                true,
            );
            let request = view.fetches[page.0].request_id->Some_0;
            &&& outcome == StepOutcome::<MaterializedPage, NoProgress>::Done(
                mapped_page(frame.ppn, true, access is Write),
            )
            &&& is_bound(
                after,
                page,
                frame.ppn,
                if access is Write {
                    PageSlotState::Dirty { ppn: frame.ppn }
                } else {
                    PageSlotState::Resident { ppn: frame.ppn }
                },
            )
            &&& after.pages[page.0].pin is Allocated
            &&& !after.fetches.contains_key(page.0)
            &&& !after.submission.rows.contains_key(request.0)
            &&& !after.submission.owners.contains_key(request.0)
            &&& agree_elsewhere(after, view, page)
            &&& notify is Some ==> view.waits.contains_key(page.0) && notify
                == Some(view.waits[page.0])
            &&& view.submission.waiters.contains_key(request.0)
                && view.submission.waiters[request.0].len() > 0 && view.waits.contains_key(page.0)
                ==> notify is Some
        }),
{
}

/// A fetch that brings nothing ends with its reason: an error is passed on, a
/// wait too if it names a source, and a filesystem that wants to be asked again
/// is reported as such. The page stays absent and nobody fetches it any more.
pub proof fn law_a_fetch_that_brings_nothing_is_over(
    view: ContainerView,
    page: PageIndex,
    access: MaterializeAccess,
    fetch: FilePageFetchId,
    fetched: StepOutcome<Frame, NoProgress>,
    pinned: Result<(), crate::ids::AllocError>,
    pins: PinGrants,
    retire: bool,
)
    requires
        view.consistent(),
        view.fetches.contains_key(page.0),
        view.fetches[page.0].id == fetch,
        fetched !is Done || pinned is Err || pins.map is Err,
    ensures
        ({
            let (after, outcome, notify) = view.access_fetched(
                page,
                access,
                fetch,
                fetched,
                pinned,
                Ok(()),
                pins,
                retire,
            );
            &&& outcome == match fetched {
                StepOutcome::Done(_) => StepOutcome::<MaterializedPage, NoProgress>::Error(
                    Errno::ENOMEM,
                ),
                StepOutcome::Continue { .. } => StepOutcome::Error(Errno::EAGAIN),
                StepOutcome::Yield { shape: YieldShape::OnWaitSource { source, interests }, .. } => {
                    StepOutcome::Yield {
                        progress: NoProgress,
                        shape: YieldShape::OnWaitSource { source, interests },
                    }
                },
                StepOutcome::Yield { .. } => StepOutcome::Error(Errno::EIO),
                StepOutcome::Error(errno) => StepOutcome::Error(errno),
            }
            &&& after.pages == view.pages
            &&& after.root == view.root
            &&& !after.fetches.contains_key(page.0)
            &&& view.fetches[page.0].request_id is Some ==> after.slots[page.0].inner.state is Empty
            &&& agree_elsewhere(after, view, page)
            &&& notify is Some ==> view.waits.contains_key(page.0) && notify
                == Some(view.waits[page.0])
        }),
{
}

/// A write is not begun unless the filesystem has prepared it: its refusal or
/// its wait is the outcome, and nothing changes.
pub proof fn law_an_unprepared_write_changes_nothing(
    view: ContainerView,
    page: PageIndex,
    access: MaterializeAccess,
    prepared: StepOutcome<(), NoProgress>,
    answers: AccessAnswers,
)
    requires
        prepared !is Done,
    ensures
        ({
            let (after, turn) = view.access_prepared(page, access, prepared, answers);
            &&& after == view
            &&& turn.step == AccessStep::Finished(
                match prepared {
                    StepOutcome::Yield {
                        shape: YieldShape::OnWaitSource { source, interests },
                        ..
                    } => StepOutcome::Yield {
                        progress: NoProgress,
                        shape: YieldShape::OnWaitSource { source, interests },
                    },
                    StepOutcome::Error(errno) => StepOutcome::Error(errno),
                    StepOutcome::Continue { .. } => StepOutcome::Error(Errno::EAGAIN),
                    _ => StepOutcome::Error(Errno::EIO),
                },
            )
        }),
{
}

/// A write to a file page that nobody keeps away is prepared before anything
/// else, and leaves the container alone until then.
pub proof fn law_a_file_write_is_prepared_first(
    view: ContainerView,
    page: PageIndex,
    answers: AccessAnswers,
)
    requires
        view.kind is File,
        page.0 < view.page_count,
        page.0 * PAGE_BYTES <= u64::MAX,
        forall|i: int|
            0 <= i < view.reservations.len() ==> (#[trigger] view.reservations[i]).range.page_count
                > 0,
        !is_busy(view, page, MaterializeAccess::Write),
    ensures
        view.access_page(page, MaterializeAccess::Write, answers) == (
            view,
            AccessTurn {
                step: AccessStep::PrepareWrite {
                    object: view.kind->fs_object_id,
                    offset: (page.0 * PAGE_BYTES) as u64,
                    len: PAGE_BYTES as usize,
                },
                notify: None,
                kick_block: false,
            },
        ),
{
    law_a_reserved_page_is_busy(view, page, MaterializeAccess::Write);
}

/// From the first step to its outcome, an access to an absent page of a file
/// without a planner comes out with the frame that the filesystem brings for
/// that page, and the page is cached in it.
pub proof fn law_an_absent_file_page_comes_from_the_filesystem(
    view: ContainerView,
    page: PageIndex,
    access: MaterializeAccess,
    replies: AccessReplies,
    notes: NotesView,
    frame: Frame,
)
    requires
        view.consistent(),
        view.sequence % 2 == 0,
        view.kind is File,
        !view.kind->mount.backend_planner,
        page.0 < view.page_count,
        page.0 * PAGE_BYTES <= u64::MAX,
        !view.pages.contains_key(page.0),
        !view.fetches.contains_key(page.0),
        has_room(view),
        forall|i: int|
            0 <= i < view.reservations.len() ==> (#[trigger] view.reservations[i]).range.page_count
                > 0,
        !is_busy(view, page, access),
        replies.prepared is Done,
        replies.fetch.fetched == StepOutcome::<Frame, NoProgress>::Done(frame),
        replies.fetch.pinned is Ok,
        replies.fetch.released is Ok,
        replies.fetch.pins.map is Ok,
        replies.fetch.retire,
    ensures
        ({
            let done = view.access_whole(page, access, replies, notes);
            &&& done.outcome == StepOutcome::<MaterializedPage, NoProgress>::Done(
                mapped_page(frame.ppn, true, access is Write),
            )
            &&& is_bound(
                done.view,
                page,
                frame.ppn,
                if access is Write {
                    PageSlotState::Dirty { ppn: frame.ppn }
                } else {
                    PageSlotState::Resident { ppn: frame.ppn }
                },
            )
            &&& !done.view.fetches.contains_key(page.0)
            &&& agree_elsewhere(done.view, view, page)
        }),
{
    reveal(ContainerView::access_whole);
    law_a_reserved_page_is_busy(view, page, access);
}

/// A fetch that a planner serves ends by what became of it: a failure of its
/// request is the outcome; a page that is there comes out with its frame and
/// ends the fetch; where transfers are under way the owner waits at the page's
/// source and the block service is kicked; else the filesystem is asked.
pub proof fn law_a_planned_fetch_ends_by_what_became_of_it(
    view: ContainerView,
    page: PageIndex,
    access: MaterializeAccess,
    fetch: FilePageFetchId,
    failed: Option<Errno>,
    waits: bool,
    pins: PinGrants,
    fresh: u64,
)
    requires
        view.consistent(),
        view.kind is File,
        page.0 * PAGE_BYTES <= u64::MAX,
    ensures
        ({
            let (after, turn) = view.access_driven(page, access, fetch, failed, waits, pins, fresh);
            let source = if view.waits.contains_key(page.0) {
                view.waits[page.0]
            } else {
                fresh
            };
            let owned = view.fetches.contains_key(page.0) && view.fetches[page.0].id == fetch;
            &&& failed matches Some(errno) ==> after == view && turn.step == AccessStep::Finished(
                StepOutcome::Error(errno),
            )
            &&& failed is None && view.pages.contains_key(page.0) && pins.cache is Ok && pins.map
                is Ok && view.pages[page.0].pin is Allocated && view.slots[page.0].inner.state
                !is Fetching ==> {
                &&& turn.step matches AccessStep::Finished(StepOutcome::Done(out))
                &&& out.ppn == view.pages[page.0].ppn
                &&& out.newly_installed
                &&& access is Write ==> out.dirty
                &&& owned ==> !after.fetches.contains_key(page.0)
                &&& !turn.kick_block
            }
            &&& failed is None && !view.pages.contains_key(page.0) && waits && owned ==> {
                &&& turn.step == AccessStep::Finished(
                    StepOutcome::Yield {
                        progress: NoProgress,
                        shape: YieldShape::OnWaitSource { source, interests: 1 },
                    },
                )
                &&& turn.kick_block
                &&& after.waits == view.waits.insert(page.0, source)
                &&& after.fetches[page.0].id == fetch
                &&& after.pages == view.pages && after.slots == view.slots
            }
            &&& failed is None && !view.pages.contains_key(page.0) && (!waits || !owned) ==> {
                &&& after == view
                &&& turn.step == (AccessStep::Fetch {
                    fetch,
                    object: view.kind->fs_object_id,
                    offset: (page.0 * PAGE_BYTES) as u64,
                })
                &&& turn.kick_block == waits
            }
        }),
{
}

/// Whether `work` reports that the planner failed request `id` with `errno`.
pub open spec fn reports_failure(
    work: ServiceItemEnd,
    id: crate::ids::PageIoRequestId,
    errno: Errno,
) -> bool {
    work.work matches ServiceDrivenWork::BackendSubmission(
        crate::block_runtime::BackendSubmitOutcome::Error { request, errno: reported },
    ) && request.id == id && reported == errno
}

/// Whether `work` put transfers under way.
pub open spec fn queued_transfers(work: ServiceItemEnd) -> bool {
    work.work matches ServiceDrivenWork::BackendSubmission(outcome) && (outcome is BlockBiosQueued
        || outcome is BlockGraphQueued || outcome is MetadataFirstQueued)
}

proof fn lemma_terminal_error(work: Seq<ServiceItemEnd>, id: Option<crate::ids::PageIoRequestId>)
    ensures
        crate::service::terminal_error(work, id) matches Some(errno) ==> id matches Some(id)
            && exists|i: int| 0 <= i < work.len() && #[trigger] reports_failure(work[i], id, errno),
        crate::service::terminal_error(work, id) is None ==> (id matches Some(id)
            ==> forall|i: int, errno: Errno|
            0 <= i < work.len() ==> !#[trigger] reports_failure(work[i], id, errno)),
    decreases work.len(),
{
    if work.len() > 0 {
        lemma_terminal_error(work.drop_last(), id);
        let rest = work.drop_last();
        assert forall|i: int| 0 <= i < rest.len() implies #[trigger] rest[i] == work[i] by {}
        match crate::service::terminal_error(rest, id) {
            Some(errno) => {
                let i = choose|i: int|
                    0 <= i < rest.len() && #[trigger] reports_failure(
                        rest[i],
                        id->Some_0,
                        errno,
                    );
                assert(reports_failure(work[i], id->Some_0, errno));
            },
            None => {
                if let Some(errno) = crate::service::terminal_error(work, id) {
                    assert(reports_failure(work[work.len() - 1], id->Some_0, errno));
                }
                assert forall|i: int, errno: Errno|
                    0 <= i < work.len() && id is Some && crate::service::terminal_error(work, id)
                        is None implies !#[trigger] reports_failure(
                    work[i],
                    id->Some_0,
                    errno,
                ) by {
                    if i < rest.len() {
                        assert(rest[i] == work[i]);
                    }
                }
            },
        }
    }
}

/// Whether any of `work` reports a failure of request `id`.
pub open spec fn any_failure(work: Seq<ServiceItemEnd>, id: Option<crate::ids::PageIoRequestId>) -> bool {
    id is Some && exists|i: int, errno: Errno|
        0 <= i < work.len() && #[trigger] reports_failure(work[i], id->Some_0, errno)
}

/// Whether any of `work` reports `errno` for request `id`.
pub open spec fn failure_reported(
    work: Seq<ServiceItemEnd>,
    id: Option<crate::ids::PageIoRequestId>,
    errno: Errno,
) -> bool {
    id is Some && exists|i: int|
        0 <= i < work.len() && #[trigger] reports_failure(work[i], id->Some_0, errno)
}

/// Whether any of `work` put transfers under way.
pub open spec fn any_transfers(work: Seq<ServiceItemEnd>) -> bool {
    exists|i: int| 0 <= i < work.len() && #[trigger] queued_transfers(work[i])
}

proof fn lemma_any_transfers(work: Seq<ServiceItemEnd>)
    ensures
        crate::service::waits_for_completion(work) == any_transfers(work),
{
    if any_transfers(work) {
        let i = choose|i: int| 0 <= i < work.len() && #[trigger] queued_transfers(work[i]);
        assert(work[i].work is BackendSubmission);
    }
    if crate::service::waits_for_completion(work) {
        let i = choose|i: int|
            0 <= i < work.len() && ((#[trigger] work[i]).work matches
                ServiceDrivenWork::BackendSubmission(outcome) && (outcome is BlockBiosQueued
                || outcome is BlockGraphQueued || outcome is MetadataFirstQueued));
        assert(queued_transfers(work[i]));
    }
}

proof fn lemma_turns(
    one: Seq<ServiceItemEnd>,
    two: Seq<ServiceItemEnd>,
    id: Option<crate::ids::PageIoRequestId>,
)
    ensures
        crate::service::terminal_error(one, id) is Some == any_failure(one, id),
        crate::service::terminal_error(one, id) matches Some(errno) ==> failure_reported(
            one,
            id,
            errno,
        ),
        crate::service::terminal_error(two, id) matches Some(errno) ==> failure_reported(
            one + two,
            id,
            errno,
        ),
        crate::service::waits_for_completion(one) == any_transfers(one),
        (crate::service::waits_for_completion(one) || crate::service::waits_for_completion(two))
            == any_transfers(one + two),
{
    lemma_terminal_error(one, id);
    lemma_terminal_error(two, id);
    lemma_any_transfers(one);
    lemma_any_transfers(two);
    let both = one + two;
    if let Some(errno) = crate::service::terminal_error(two, id) {
        let i = choose|i: int|
            0 <= i < two.len() && #[trigger] reports_failure(two[i], id->Some_0, errno);
        assert(both[one.len() + i] == two[i]);
        assert(reports_failure(both[one.len() + i], id->Some_0, errno));
    }
    if any_transfers(one) {
        let i = choose|i: int| 0 <= i < one.len() && #[trigger] queued_transfers(one[i]);
        assert(both[i] == one[i]);
        assert(queued_transfers(both[i]));
    }
    if any_transfers(two) {
        let i = choose|i: int| 0 <= i < two.len() && #[trigger] queued_transfers(two[i]);
        assert(both[one.len() + i] == two[i]);
        assert(queued_transfers(both[one.len() + i]));
    }
    if any_transfers(both) {
        let i = choose|i: int| 0 <= i < both.len() && #[trigger] queued_transfers(both[i]);
        if i < one.len() {
            assert(queued_transfers(one[i]));
        } else {
            assert(both[i] == two[i - one.len()]);
            assert(queued_transfers(two[i - one.len()]));
        }
    }
}

/// The page service runs for a fetch at most twice, and a second time only if
/// the first turn left more to do and did not fail the request. A reported
/// failure is one that a turn reports for that request; without one, the fetch
/// waits exactly if a turn that was run put transfers under way.
pub proof fn law_the_page_service_runs_for_a_fetch_at_most_twice(
    view: ContainerView,
    id: Option<crate::ids::PageIoRequestId>,
    first: ServiceTurn,
    second: ServiceTurn,
)
    ensures
        ({
            let target = FileBlockSubmissionTarget::Owned;
            let driven = view.drive_fetch(id, first, second);
            let once = view.served(first.items@, target, first.items@.len());
            let one = view.served_ends(first.items@, target);
            let two = once.served_ends(second.items@, target);
            let failed_first = any_failure(one, id);
            &&& failed_first || !first.runnable ==> driven.view == once && driven.work == one
            &&& failed_first ==> driven.failed is Some
            &&& !failed_first && first.runnable ==> {
                &&& driven.view == once.served(second.items@, target, second.items@.len())
                &&& driven.work == one + two
            }
            &&& driven.failed matches Some(errno) ==> failure_reported(driven.work, id, errno)
            &&& driven.failed is None ==> driven.waits == any_transfers(driven.work)
        }),
{
    let target = FileBlockSubmissionTarget::Owned;
    let once = view.served(first.items@, target, first.items@.len());
    lemma_turns(
        view.served_ends(first.items@, target),
        once.served_ends(second.items@, target),
        id,
    );
}

} // verus!
