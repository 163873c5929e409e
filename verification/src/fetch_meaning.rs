//! What the fetch of a file page comes to: who brings the page, who waits for it
//! and where, who is told at its end, and which version it has.

use crate::container::{ContainerView, FilePageFetchId, MaterializeAccess, PageContainerKind};
use crate::fetch::FilePageFetchStart;
use crate::frame::{
    CachePin, CachedFrame, DeviceFrame, Frame, Grant, MapPin, MaterializedPage,
    MaterializedPagePin, MaterializedPageSnapshot, PageCacheError, PageCachePin, PageLease,
};
use crate::ids::{Errno, PageGeneration, PageIndex, Ppn};
use crate::lease::PayloadView;
use crate::materialize::{captured_page, leased, page_at_once, PinGrants};
use crate::residency_meaning::{same_books, state_of};
use crate::slot::PageSlotState;
use crate::slot_meaning::follows;
use crate::step::{NoProgress, StepOutcome, YieldShape};
use vstd::prelude::*;

verus! {

/// Whether the mount of the file has a planner.
pub open spec fn has_planner(view: ContainerView) -> bool {
    view.kind matches PageContainerKind::File { mount, .. } && mount.backend_planner
}

/// Whether a read of one page can be asked for: there is room for a request, and
/// where a planner fills a frame there is a frame to fill.
pub open spec fn can_ask(view: ContainerView, target: Option<CachedFrame>) -> bool {
    &&& view.submission.rows.len() < view.submission.capacity
    &&& !view.submission.rows.contains_key(view.submission.next_id)
    &&& !view.submission.owners.contains_key(view.submission.next_id)
    &&& has_planner(view) ==> target is Some
}

/// Nothing that is kept of the fetches of other pages differs.
pub open spec fn same_other_fetches(a: ContainerView, b: ContainerView, page: PageIndex) -> bool {
    a.fetches.remove(page.0) =~= b.fetches.remove(page.0)
}

/// Whoever asks first for an absent page that nobody fetches brings it. A request
/// for that one page, urgent and for the new version of it, is pending then, with
/// the frame that a planner is to fill; the page waits for that version.
pub proof fn law_the_first_to_ask_brings_the_page(
    view: ContainerView,
    page: PageIndex,
    access: MaterializeAccess,
    target: Option<CachedFrame>,
    pins: PinGrants,
    fresh: u64,
)
    requires
        !view.pages.contains_key(page.0),
        !view.fetches.contains_key(page.0),
        state_of(view, page).state is Empty || state_of(view, page).state is Error,
        can_ask(view, target),
    ensures
        ({
            let (after, start) = view.begin_page_fetch(page, access, target, pins, fresh);
            let id = view.submission.next_id;
            let request = after.submission.rows[id];
            &&& start == FilePageFetchStart::Owner(FilePageFetchId(view.next_fetch))
            &&& after.fetches.contains_key(page.0)
            &&& after.fetches[page.0].id == FilePageFetchId(view.next_fetch)
            &&& after.fetches[page.0].request_id matches Some(asked) && asked.0 == id
            &&& after.fetches[page.0].generation == after.slots[page.0].inner.generation
            &&& after.fetches[page.0].source_id is None
            &&& !after.fetches[page.0].joined
            &&& after.slots.contains_key(page.0)
            &&& after.slots[page.0].inner.state is Fetching
            &&& follows(state_of(view, page), after.slots[page.0].inner)
            &&& after.submission.rows.contains_key(id)
            &&& request.id.0 == id
            &&& request.range.start_page == page.0
            &&& request.range.page_count == 1
            &&& request.op is Read
            &&& request.priority is Demand
            &&& request.flags is Demand
            &&& request.generation_hint == Some(after.slots[page.0].inner.generation)
            &&& has_planner(view) ==> {
                &&& after.submission.owners.contains_key(id)
                &&& after.submission.owners[id].request == request
                &&& after.submission.owners[id].payload == (PayloadView::Read {
                    target: target->Some_0,
                })
            }
            &&& !has_planner(view) ==> after.submission.owners == view.submission.owners
            &&& after.next_fetch != view.next_fetch
            &&& after.pages == view.pages
            &&& after.root == view.root
            &&& after.waits == view.waits
            &&& same_other_fetches(after, view, page)
            &&& after.slots.remove(page.0) =~= view.slots.remove(page.0)
        }),
{
}

/// Where no request can be asked for, whoever asked first brings the page all the
/// same, and the page waits for no version.
pub proof fn law_a_page_is_brought_without_a_request(
    view: ContainerView,
    page: PageIndex,
    access: MaterializeAccess,
    target: Option<CachedFrame>,
    pins: PinGrants,
    fresh: u64,
)
    requires
        !view.pages.contains_key(page.0),
        !view.fetches.contains_key(page.0),
        !can_ask(view, target),
    ensures
        ({
            let (after, start) = view.begin_page_fetch(page, access, target, pins, fresh);
            &&& start == FilePageFetchStart::Owner(FilePageFetchId(view.next_fetch))
            &&& after.fetches.contains_key(page.0)
            &&& after.fetches[page.0].id == FilePageFetchId(view.next_fetch)
            &&& after.fetches[page.0].request_id is None
            &&& after.slots.contains_key(page.0)
            &&& after.slots[page.0].inner.state is Empty
            &&& after.slots[page.0].inner.generation != after.fetches[page.0].generation
            &&& after.submission == view.submission
            &&& after.pages == view.pages
            &&& same_other_fetches(after, view, page)
        }),
{
}

/// The wait source of a page: the one it has, and else the fresh one.
pub open spec fn source_of(view: ContainerView, page: PageIndex, fresh: u64) -> u64 {
    if view.waits.contains_key(page.0) {
        view.waits[page.0]
    } else {
        fresh
    }
}

/// Whether somebody more waits between `before` and `after`: the source of the page
/// is known, and the request, where there is one, has one more waiter, the last,
/// for the page to be ready.
pub open spec fn one_more_waits(
    before: ContainerView,
    after: ContainerView,
    page: PageIndex,
    fresh: u64,
) -> bool {
    let asked = before.fetches[page.0].request_id;
    &&& after.waits.contains_key(page.0)
    &&& after.waits[page.0] == source_of(before, page, fresh)
    &&& after.waits.remove(page.0) =~= before.waits.remove(page.0)
    &&& after.fetches.contains_key(page.0)
    &&& after.fetches[page.0].joined
    &&& after.fetches[page.0].source_id is Some
    &&& after.fetches[page.0].id == before.fetches[page.0].id
    &&& after.fetches[page.0].generation == before.fetches[page.0].generation
    &&& after.fetches[page.0].request_id == asked
    &&& same_other_fetches(after, before, page)
    &&& after.pages == before.pages
    &&& after.slots == before.slots
    &&& after.root == before.root
    &&& after.submission.rows == before.submission.rows
    &&& after.submission.owners == before.submission.owners
    &&& asked is None ==> after.submission == before.submission
    &&& asked matches Some(id) ==> {
        &&& after.submission.waiters.contains_key(id.0)
        &&& after.submission.waiters[id.0].len() == if before.submission.waiters.contains_key(
            id.0,
        ) {
            before.submission.waiters[id.0].len() + 1
        } else {
            1
        }
        &&& after.submission.waiters[id.0].last().source_id
            == after.fetches[page.0].source_id->Some_0
        &&& before.submission.waiters.contains_key(id.0)
            ==> after.submission.waiters[id.0].drop_last() =~= before.submission.waiters[id.0]
    }
}

/// Whoever asks later joins: the fetch is the same, and everybody is sent to the
/// one source of the page.
pub proof fn law_later_ones_wait_at_the_source_of_the_page(
    view: ContainerView,
    page: PageIndex,
    access: MaterializeAccess,
    target: Option<CachedFrame>,
    pins: PinGrants,
    fresh: u64,
)
    requires
        !view.pages.contains_key(page.0),
        view.fetches.contains_key(page.0),
    ensures
        ({
            let (after, start) = view.begin_page_fetch(page, access, target, pins, fresh);
            &&& start == FilePageFetchStart::Joined(source_of(view, page, fresh))
            &&& one_more_waits(view, after, page, fresh)
            &&& after.fetches[page.0].source_id == if view.fetches[page.0].source_id is Some
                && view.waits.contains_key(page.0) {
                view.fetches[page.0].source_id
            } else {
                Some(source_of(view, page, fresh))
            }
            &&& after.next_fetch == view.next_fetch
        }),
{
}

/// The owner of a fetch can wait for its own page at the same source. One whose
/// fetch is over is told so.
pub proof fn law_an_owner_waits_at_the_source_of_the_page(
    view: ContainerView,
    page: PageIndex,
    access: MaterializeAccess,
    id: FilePageFetchId,
    pins: PinGrants,
    fresh: u64,
)
    requires
        !view.pages.contains_key(page.0),
    ensures
        ({
            let (after, parked) = view.park_on_fetch(page, access, id, pins, fresh);
            let owner = view.fetches.contains_key(page.0) && view.fetches[page.0].id == id;
            &&& parked is Some == owner
            &&& !owner ==> after == view
            &&& owner ==> {
                &&& one_more_waits(view, after, page, fresh)
                &&& after.fetches[page.0].source_id == Some(source_of(view, page, fresh))
                &&& parked->Some_0 matches StepOutcome::Yield { shape, .. } && (shape matches
                    YieldShape::OnWaitSource { source, .. } && source == source_of(
                    view,
                    page,
                    fresh,
                ))
            }
        }),
{
}

/// Whether somebody waits for the page whose fetch ends.
pub open spec fn awaited(view: ContainerView, page: PageIndex) -> bool {
    &&& view.fetches[page.0].request_id is Some
    &&& view.submission.waiters.contains_key(view.fetches[page.0].request_id->Some_0.0)
    &&& view.submission.waiters[view.fetches[page.0].request_id->Some_0.0].len() > 0
    &&& view.waits.contains_key(page.0)
}

/// Whether nothing is left of the fetch of `page`, nor of its request.
pub open spec fn fetch_is_over(before: ContainerView, after: ContainerView, page: PageIndex) -> bool {
    let asked = before.fetches[page.0].request_id;
    &&& !after.fetches.contains_key(page.0)
    &&& same_other_fetches(after, before, page)
    &&& asked is None ==> after.submission == before.submission
    &&& asked matches Some(id) ==> {
        &&& !after.submission.rows.contains_key(id.0)
        &&& !after.submission.owners.contains_key(id.0)
        &&& !after.submission.waiters.contains_key(id.0)
        &&& after.submission.rows =~= before.submission.rows.remove(id.0)
        &&& after.submission.owners =~= before.submission.owners.remove(id.0)
        &&& after.submission.waiters =~= before.submission.waiters.remove(id.0)
    }
}

/// A fetch that brought nothing is over for its owner alone: nothing is left of it,
/// the page is empty again in a new version if it still waited for this one, and
/// whoever waited is told.
pub proof fn law_a_failed_fetch_is_over(view: ContainerView, page: PageIndex, id: FilePageFetchId)
    ensures
        ({
            let (after, notify) = view.fetch_failed(page, id);
            let owner = view.fetches.contains_key(page.0) && view.fetches[page.0].id == id;
            &&& !owner ==> after == view && notify is None
            &&& owner ==> {
                &&& fetch_is_over(view, after, page)
                &&& notify is Some == awaited(view, page)
                &&& notify matches Some(source) ==> source == view.waits[page.0]
                &&& after.pages == view.pages
                &&& after.root == view.root
                &&& after.waits == view.waits
                &&& view.slots.contains_key(page.0) ==> {
                    let was = view.slots[page.0].inner;
                    let is = after.slots[page.0].inner;
                    if was.generation == view.fetches[page.0].generation {
                        is.state is Empty && follows(was, is)
                    } else {
                        is == was
                    }
                }
                &&& after.slots.remove(page.0) =~= view.slots.remove(page.0)
            }
        }),
{
}

/// A fetch whose page is installed is over for its owner alone: nothing is left of
/// it, and whoever waited is told. The page stays.
pub proof fn law_an_installed_fetch_is_over(
    view: ContainerView,
    page: PageIndex,
    id: FilePageFetchId,
)
    ensures
        ({
            let (after, notify) = view.fetch_installed(page, id);
            let owner = view.fetches.contains_key(page.0) && view.fetches[page.0].id == id;
            &&& !owner ==> after == view && notify is None
            &&& owner ==> {
                &&& fetch_is_over(view, after, page)
                &&& notify is Some == awaited(view, page)
                &&& notify matches Some(source) ==> source == view.waits[page.0]
                &&& after.pages == view.pages
                &&& after.slots == view.slots
                &&& after.root == view.root
                &&& after.waits == view.waits
            }
        }),
{
}

/// A completion ends the fetch of its own version, and no other; the waiters of the
/// page are told where the completion says that there are any.
pub proof fn law_a_completion_ends_the_fetch_of_its_version(
    view: ContainerView,
    page: PageIndex,
    generation: PageGeneration,
    waiters: bool,
)
    ensures
        ({
            let (after, notify) = view.fetch_settled(page, generation, waiters);
            let own = view.fetches.contains_key(page.0) && view.fetches[page.0].generation
                == generation;
            &&& !own ==> after == view && notify is None
            &&& own ==> {
                &&& !after.fetches.contains_key(page.0)
                &&& same_other_fetches(after, view, page)
                &&& after == ContainerView { fetches: after.fetches, ..view }
                &&& notify is Some == (waiters && view.waits.contains_key(page.0))
                &&& notify matches Some(source) ==> source == view.waits[page.0]
            }
        }),
{
}

/// The frame that an owner brought becomes the page where the page still waits for
/// it: clean after a read and dirty after a write, newly installed, and whoever
/// waited is told. Nothing is left of the fetch.
pub proof fn law_the_owner_installs_what_it_brought(
    view: ContainerView,
    page: PageIndex,
    access: MaterializeAccess,
    frame: CachedFrame,
    pins: PinGrants,
    id: FilePageFetchId,
)
    requires
        view.consistent(),
        view.sequence % 2 == 0,
        !view.pages.contains_key(page.0),
        view.fetches.contains_key(page.0),
        view.fetches[page.0].id == id,
        view.fetches[page.0].request_id is Some,
        pins.map is Ok,
    ensures
        ({
            let (after, outcome, notify) = view.install_from_owner(
                page,
                access,
                Ok(frame),
                pins,
                id,
                true,
            );
            let ppn = frame.ppn;
            &&& outcome == StepOutcome::<MaterializedPage, NoProgress>::Done(
                MaterializedPage {
                    ppn,
                    map_pin: MaterializedPagePin::Allocated(MapPin { ppn }),
                    newly_installed: true,
                    dirty: access is Write,
                },
            )
            &&& after.pages.contains_key(page.0)
            &&& after.pages[page.0].ppn == ppn
            &&& after.pages[page.0].pin == frame.pin
            &&& after.root.contains_key(page.0)
            &&& after.root[page.0].ppn == ppn
            &&& after.slots[page.0].inner.state == if access is Write {
                PageSlotState::Dirty { ppn }
            } else {
                PageSlotState::Resident { ppn }
            }
            &&& access is Read ==> after.slots[page.0].inner.generation
                == view.fetches[page.0].generation
            &&& access is Write ==> follows(view.slots[page.0].inner, after.slots[page.0].inner)
            &&& fetch_is_over(view, after, page)
            &&& notify is Some == awaited(view, page)
            &&& notify matches Some(source) ==> source == view.waits[page.0]
            &&& after.pages.remove(page.0) =~= view.pages.remove(page.0)
            &&& after.slots.remove(page.0) =~= view.slots.remove(page.0)
            &&& after.root.remove(page.0) =~= view.root.remove(page.0)
        }),
{
}

/// Where the frame or the mapping is refused, the fetch is over without a page, and
/// the owner learns why. Where the root cannot be published the owner has to come
/// again, and where the fetch is not its own any more likewise.
pub proof fn law_an_owner_without_a_page_learns_why(
    view: ContainerView,
    page: PageIndex,
    access: MaterializeAccess,
    frame: Result<CachedFrame, PageCacheError>,
    pins: PinGrants,
    id: FilePageFetchId,
    retire: bool,
)
    requires
        !view.pages.contains_key(page.0),
    ensures
        ({
            let (after, outcome, notify) = view.install_from_owner(
                page,
                access,
                frame,
                pins,
                id,
                retire,
            );
            let owner = view.fetches.contains_key(page.0) && view.fetches[page.0].id == id;
            &&& frame matches Err(error) ==> outcome == StepOutcome::<
                MaterializedPage,
                NoProgress,
            >::Error(error.errno())
            &&& frame is Ok && pins.map is Err ==> outcome == StepOutcome::<
                MaterializedPage,
                NoProgress,
            >::Error(Errno::ENOMEM)
            &&& frame is Err || pins.map is Err ==> (after, notify) == view.fetch_failed(page, id)
            &&& frame is Ok && pins.map is Ok && !owner ==> {
                &&& outcome == StepOutcome::<MaterializedPage, NoProgress>::Error(Errno::EAGAIN)
                &&& after == view
                &&& notify is None
            }
            &&& frame is Ok && pins.map is Ok && owner && !(view.sequence % 2 == 0 && retire) ==> {
                &&& outcome is Continue
                &&& !after.pages.contains_key(page.0)
                &&& fetch_is_over(view, after, page)
                &&& notify is Some == awaited(view, page)
            }
        }),
{
}

/// What a caller that cannot wait gets: the page, or the error, or that it has to
/// come again where waiting is all there is to do.
pub proof fn law_who_cannot_wait_comes_again(outcome: StepOutcome<MaterializedPage, NoProgress>)
    ensures
        match outcome {
            StepOutcome::Done(page) => page_at_once(outcome) matches Ok(got) && got == page,
            StepOutcome::Error(errno) => page_at_once(outcome) matches Err(
                PageCacheError::Backend(got),
            ) && got == errno,
            StepOutcome::Continue { .. } => page_at_once(outcome) matches Err(
                PageCacheError::Backend(got),
            ) && got is EAGAIN,
            StepOutcome::Yield { shape: YieldShape::OnWaitSource { .. }, .. } => page_at_once(
                outcome,
            ) matches Err(PageCacheError::Backend(got)) && got is EAGAIN,
            StepOutcome::Yield { .. } => page_at_once(outcome) matches Err(
                PageCacheError::Backend(got),
            ) && got is EIO,
        },
{
}

/// A lease is for the frame of the page, pinned as cache contents; without a pin
/// there is no lease, and without a page the access goes on as it does.
pub proof fn law_a_lease_is_for_the_frame_of_the_page(
    outcome: StepOutcome<MaterializedPage, NoProgress>,
    pinned: Grant,
)
    ensures
        outcome matches StepOutcome::Done(page) ==> {
            &&& pinned is Ok ==> (leased(outcome, pinned) matches StepOutcome::Done(lease)
                && lease.ppn == page.ppn && lease.cache_pin == PageCachePin::Allocated(
                CachePin { ppn: page.ppn },
            ))
            &&& pinned is Err ==> leased(outcome, pinned) == StepOutcome::<
                PageLease,
                NoProgress,
            >::Error(Errno::ENOMEM)
        },
        outcome is Continue ==> leased(outcome, pinned) is Continue,
        outcome matches StepOutcome::Yield { shape, .. } ==> (leased(outcome, pinned) matches
            StepOutcome::Yield { shape: passed, .. } && passed == shape),
        outcome matches StepOutcome::Error(errno) ==> leased(outcome, pinned) == StepOutcome::<
            PageLease,
            NoProgress,
        >::Error(errno),
{
}

/// Without an access only two things are known of a lease: a device has none, and a
/// published page of persistent memory is leased in its published frame.
pub proof fn law_some_leases_need_no_access(view: ContainerView, page: PageIndex, pinned: Grant)
    ensures
        ({
            let known = view.lease_without_materializing(page, pinned);
            let kept = (view.kind matches PageContainerKind::Anon { swap_policy } && swap_policy
                is Persistent) && view.root.contains_key(page.0);
            &&& known is Some == (view.kind is Device || kept)
            &&& view.kind is Device ==> known == Some(
                StepOutcome::<PageLease, NoProgress>::Error(Errno::EINVAL),
            )
            &&& kept && pinned is Ok ==> (known matches Some(StepOutcome::Done(lease)) && lease.ppn
                == view.root[page.0].ppn && lease.cache_pin == PageCachePin::Allocated(
                CachePin { ppn: view.root[page.0].ppn },
            ))
            &&& kept && pinned is Err ==> known == Some(
                StepOutcome::<PageLease, NoProgress>::Error(Errno::ENOMEM),
            )
        }),
{
}

/// A published page is read without anything else exactly where its slot names the
/// published frame. The page that comes out is that frame; a device frame is mapped
/// as such and needs no pin.
pub proof fn law_a_published_page_is_read_as_it_is(view: ContainerView, page: PageIndex, map: Grant)
    ensures
        ({
            let read = view.published_read(page, map);
            let slot = state_of(view, page);
            let cell = view.root[page.0];
            let current = view.root.contains_key(page.0) && match slot.state {
                PageSlotState::Resident { ppn } => ppn == cell.ppn,
                PageSlotState::Dirty { ppn } => ppn == cell.ppn,
                PageSlotState::Writeback { ppn, .. } => ppn == cell.ppn,
                _ => false,
            };
            &&& read is Some == current
            &&& read matches Some(Ok(got)) ==> {
                &&& got.ppn == cell.ppn
                &&& !got.newly_installed
                &&& got.dirty == (slot.state is Dirty || slot.state is Writeback)
                &&& got.map_pin == if cell.device {
                    MaterializedPagePin::Device(DeviceFrame { ppn: cell.ppn })
                } else {
                    MaterializedPagePin::Allocated(MapPin { ppn: cell.ppn })
                }
            }
            &&& read matches Some(Err(error)) ==> {
                &&& !cell.device
                &&& map is Err
                &&& error == PageCacheError::Alloc(map->Err_0)
            }
            &&& current && (cell.device || map is Ok) ==> read->Some_0 is Ok
        }),
{
}

/// A captured page is mapped under the pins that it needs: both for a frame of the
/// allocator, none for a device frame.
pub proof fn law_a_captured_page_is_mapped_under_its_pins(
    snapshot: MaterializedPageSnapshot,
    pins: PinGrants,
)
    ensures
        captured_page(snapshot, pins) is Ok == (snapshot.device || (pins.cache is Ok && pins.map
            is Ok)),
        captured_page(snapshot, pins) matches Ok(page) ==> {
            &&& page.ppn == snapshot.ppn
            &&& page.newly_installed == snapshot.newly_installed
            &&& page.dirty == snapshot.dirty
            &&& page.map_pin == if snapshot.device {
                MaterializedPagePin::Device(DeviceFrame { ppn: snapshot.ppn })
            } else {
                MaterializedPagePin::Allocated(MapPin { ppn: snapshot.ppn })
            }
        },
        captured_page(snapshot, pins) matches Err(error) ==> error == PageCacheError::Alloc(
            if pins.cache is Err {
                pins.cache->Err_0
            } else {
                pins.map->Err_0
            },
        ),
{
}

/// A frame from a filesystem is taken under a pin, and given up by the filesystem
/// where that handed it over.
pub proof fn law_a_frame_from_a_filesystem_is_pinned(frame: Frame, pinned: Grant, released: Grant)
    ensures
        ({
            let taken = crate::frame::adopted(frame, pinned, released);
            &&& taken is Ok == (pinned is Ok && (frame.owned_handoff ==> released is Ok))
            &&& taken matches Ok(cached) ==> cached.ppn == frame.ppn && cached.pin
                == PageCachePin::Allocated(CachePin { ppn: frame.ppn })
            &&& taken matches Err(error) ==> error == PageCacheError::Alloc(
                if pinned is Err {
                    pinned->Err_0
                } else {
                    released->Err_0
                },
            )
        }),
{
}

/// A page of device memory is the page of the aperture at its place. It is cached
/// on first access, mapped as a device frame, and clean. Beyond the aperture, and
/// where there is no such frame, the access is refused.
pub proof fn law_a_device_page_is_cached_in_its_place(
    view: ContainerView,
    page: PageIndex,
    base_ppn: Ppn,
    page_count: u64,
    pins: PinGrants,
)
    requires
        view.consistent(),
        view.sequence % 2 == 0,
        !view.pages.contains_key(page.0),
        state_of(view, page).state !is Fetching,
    ensures
        ({
            let (after, outcome) = view.materialize_device(page, base_ppn, page_count, pins, true);
            let place = base_ppn.0 + page.0;
            if page.0 >= page_count || place > usize::MAX {
                &&& outcome == StepOutcome::<MaterializedPage, NoProgress>::Error(Errno::EINVAL)
                &&& after == view
            } else {
                &&& outcome matches StepOutcome::Done(got) && {
                    &&& got.ppn.0 == place
                    &&& got.map_pin == MaterializedPagePin::Device(DeviceFrame { ppn: got.ppn })
                    &&& got.newly_installed
                    &&& !got.dirty
                }
                &&& after.pages.contains_key(page.0)
                &&& after.pages[page.0].ppn.0 == place
                &&& after.pages[page.0].pin is Device
                &&& after.root.contains_key(page.0)
                &&& after.root[page.0].ppn.0 == place
                &&& after.root[page.0].device
                &&& after.pages.remove(page.0) =~= view.pages.remove(page.0)
                &&& same_books(after, view)
            }
        }),
{
}

/// A page that came to be cached while it was fetched stays: what the owner brought is
/// dropped, the fetch is over, and the cached page comes out, not newly installed and
/// dirty after a write.
pub proof fn law_a_cached_page_outlives_a_fetch(
    view: ContainerView,
    page: PageIndex,
    access: MaterializeAccess,
    frame: CachedFrame,
    pins: PinGrants,
    id: FilePageFetchId,
    retire: bool,
)
    requires
        view.consistent(),
        view.kind is File,
        view.pages.contains_key(page.0),
        view.pages[page.0].pin is Allocated,
        view.slots[page.0].inner.state is Resident,
        view.fetches.contains_key(page.0),
        view.fetches[page.0].id == id,
        pins.map is Ok,
        pins.cache is Ok,
    ensures
        ({
            let (after, outcome, notify) = view.install_from_owner(
                page,
                access,
                Ok(frame),
                pins,
                id,
                retire,
            );
            let ppn = view.pages[page.0].ppn;
            &&& outcome == StepOutcome::<MaterializedPage, NoProgress>::Done(
                MaterializedPage {
                    ppn,
                    map_pin: MaterializedPagePin::Allocated(MapPin { ppn }),
                    newly_installed: false,
                    dirty: access is Write,
                },
            )
            &&& after.pages[page.0].ppn == ppn
            &&& after.slots[page.0].inner.state == if access is Write {
                PageSlotState::Dirty { ppn }
            } else {
                PageSlotState::Resident { ppn }
            }
            &&& after.root == view.root
            &&& fetch_is_over(view, after, page)
            &&& notify is Some == awaited(view, page)
        }),
{
}

/// Anonymous memory is accessed in a container of it, within its pages, where a frame
/// and its mapping are granted; else the access is refused by the first of these that
/// fails, and nothing changes.
pub proof fn law_an_anonymous_page_is_refused_without_a_frame(
    view: ContainerView,
    page: PageIndex,
    access: MaterializeAccess,
    allocated: Result<CachedFrame, PageCacheError>,
    pins: PinGrants,
    retire: bool,
)
    requires
        !view.pages.contains_key(page.0),
        view.kind !is Anon || page.0 >= view.page_count || allocated is Err || pins.map is Err,
    ensures
        ({
            let (after, result) = view.materialize_anon(page, access, allocated, pins, retire);
            &&& after == view
            &&& result == Err::<MaterializedPage, PageCacheError>(
                if view.kind !is Anon {
                    PageCacheError::UnsupportedKind
                } else if page.0 >= view.page_count {
                    PageCacheError::OutOfBounds
                } else if allocated is Err {
                    allocated->Err_0
                } else {
                    PageCacheError::Alloc(pins.map->Err_0)
                },
            )
        }),
{
}

} // verus!
