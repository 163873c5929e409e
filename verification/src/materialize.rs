//! Bringing a page of a container into a frame that can be mapped or copied.

use crate::container::{
    holds_dirt, page_slot_is_dirty, AnonSwapPolicy, ContainerView, MaterializeAccess, PageContainer,
    PageContainerKind,
};
use crate::frame::{
    page_cache_error_to_errno, CachePin, CachedFrame, Grant, MapPin, MaterializedPage,
    MaterializedPagePin, MaterializedPageSnapshot, PageCacheError, PageLease,
};
use crate::ids::{Errno, PageIndex, Ppn};
use crate::page_cache::PageCacheMark;
use crate::range::{blocked, PageRange, RangeReservationKind};
use crate::residency::{ensured, page_slot_completion_error_to_page_cache_error, slot_error};
use crate::step::{is_wait_source, NoProgress, StepOutcome};
use vstd::prelude::*;

verus! {

/// The allocator's answers for the pins that a materialization takes.
#[derive(Clone, Copy, Debug)]
pub struct PinGrants {
    /// The pin that keeps the cached frame while it is captured.
    pub cache: Grant,
    /// The pin that the mapping gets.
    pub map: Grant,
}

/// A materialization that ended with `result`.
pub open spec fn materialize_outcome(result: Result<MaterializedPage, PageCacheError>) -> StepOutcome<
    MaterializedPage,
    NoProgress,
> {
    match result {
        Ok(page) => StepOutcome::Done(page),
        Err(error) => StepOutcome::Error(error.errno()),
    }
}

pub(crate) fn materialized_outcome(result: Result<MaterializedPage, PageCacheError>) -> (outcome:
    StepOutcome<MaterializedPage, NoProgress>)
    ensures
        outcome == materialize_outcome(result),
{
    match result {
        Ok(page) => StepOutcome::Done(page),
        Err(error) => StepOutcome::Error(page_cache_error_to_errno(error)),
    }
}

/// The kind of reservation that an access through the cache has to respect.
pub open spec fn buffered_kind(access: MaterializeAccess) -> RangeReservationKind {
    match access {
        MaterializeAccess::Read => RangeReservationKind::BufferedRead,
        MaterializeAccess::Write => RangeReservationKind::BufferedWrite,
    }
}

/// The page that the answers `pins` make of a snapshot.
pub open spec fn captured_page(snapshot: MaterializedPageSnapshot, pins: PinGrants) -> Result<
    MaterializedPage,
    PageCacheError,
> {
    if !snapshot.device && pins.cache is Err {
        Err(PageCacheError::Alloc(pins.cache->Err_0))
    } else {
        snapshot.materialized(pins.map)
    }
}

impl ContainerView {
    /// The cached page as it stands.
    pub open spec fn page_snapshot(self, page: PageIndex, newly_installed: bool) -> Result<
        MaterializedPageSnapshot,
        PageCacheError,
    > {
        if !self.cached(page) {
            Err(PageCacheError::MissingPage)
        } else if self.slot(page).state.frame() != self.frame_of(page) {
            Err(PageCacheError::Backend(Errno::ESTALE))
        } else {
            Ok(
                MaterializedPageSnapshot {
                    ppn: self.pages[page.0].ppn,
                    device: self.pages[page.0].pin is Device,
                    newly_installed,
                    dirty: holds_dirt(self.slot(page)),
                },
            )
        }
    }

    pub open spec fn materialize_snapshot(
        self,
        page: PageIndex,
        newly_installed: bool,
        pins: PinGrants,
    ) -> Result<MaterializedPage, PageCacheError> {
        match self.page_snapshot(page, newly_installed) {
            Ok(snapshot) => captured_page(snapshot, pins),
            Err(error) => Err(error),
        }
    }

    /// With `page` marked as used.
    pub open spec fn referenced(self, page: PageIndex) -> Self {
        self.with_pages(
            self.pages.insert(
                page.0,
                self.pages[page.0].marked(PageCacheMark::Referenced, true),
            ),
        )
    }

    /// With a write to the cached `page` begun, whose slot is `bound`.
    pub open spec fn written(self, page: PageIndex) -> Self {
        self.referenced(page).with_slot(page, self.slot(page).dirtied()->Ok_0)
    }

    /// Outcome of accessing a page that is cached.
    pub open spec fn materialize_existing(
        self,
        page: PageIndex,
        access: MaterializeAccess,
        newly_installed: bool,
        pins: PinGrants,
    ) -> (Self, Result<MaterializedPage, PageCacheError>) {
        match self.frame_of(page) {
            None => (self, Err(PageCacheError::MissingPage)),
            Some(ppn) => match ensured(self.slot(page), ppn) {
                Err(error) => (self, Err(slot_error(error))),
                Ok(bound) => {
                    let held = self.with_slot(page, bound);
                    let after = if access == MaterializeAccess::Write && self.kind !is Device {
                        held.written(page)
                    } else {
                        held
                    };
                    (after, after.materialize_snapshot(page, newly_installed, pins))
                },
            },
        }
    }

    /// Outcome of accessing a page of anonymous memory. `allocated` is the
    /// zeroed frame that an absent page gets.
    pub open spec fn materialize_anon(
        self,
        page: PageIndex,
        access: MaterializeAccess,
        allocated: Result<CachedFrame, PageCacheError>,
        pins: PinGrants,
        retire: bool,
    ) -> (Self, Result<MaterializedPage, PageCacheError>) {
        if self.kind !is Anon {
            (self, Err(PageCacheError::UnsupportedKind))
        } else if page.0 >= self.page_count {
            (self, Err(PageCacheError::OutOfBounds))
        } else if self.cached(page) {
            self.materialize_existing(page, access, false, pins)
        } else {
            match allocated {
                Err(error) => (self, Err(error)),
                Ok(frame) => match pins.map {
                    Err(error) => (self, Err(PageCacheError::Alloc(error))),
                    Ok(()) => match self.install(page, frame, false, retire) {
                        (after, Err(error)) => (after, Err(error)),
                        (after, Ok(_)) => {
                            let last = if access == MaterializeAccess::Write {
                                after.written(page)
                            } else {
                                after
                            };
                            (
                                last,
                                Ok(
                                    MaterializedPage {
                                        ppn: frame.ppn,
                                        map_pin: MaterializedPagePin::Allocated(
                                            MapPin { ppn: frame.ppn },
                                        ),
                                        newly_installed: true,
                                        dirty: holds_dirt(last.slot(page)),
                                    },
                                ),
                            )
                        },
                    },
                },
            }
        }
    }

    /// Outcome of accessing a page of device memory.
    pub open spec fn materialize_device(
        self,
        page: PageIndex,
        base_ppn: Ppn,
        page_count: u64,
        pins: PinGrants,
        retire: bool,
    ) -> (Self, StepOutcome<MaterializedPage, NoProgress>) {
        if page.0 >= page_count || base_ppn.0 + page.0 > usize::MAX {
            (self, StepOutcome::Error(Errno::EINVAL))
        } else {
            let frame = CachedFrame::of_device(Ppn((base_ppn.0 + page.0) as usize));
            match self.install(page, frame, false, retire) {
                (after, Err(error)) => (after, StepOutcome::Error(error.errno())),
                (after, Ok(installed)) => (
                    after,
                    materialize_outcome(after.materialize_snapshot(page, installed, pins)),
                ),
            }
        }
    }

    /// Outcome of a read through the published root alone. Without a published
    /// binding that the slot confirms there is none.
    pub open spec fn published_read(self, page: PageIndex, map: Grant) -> Option<
        Result<MaterializedPage, PageCacheError>,
    > {
        if !self.root.contains_key(page.0) || !self.root[page.0].is_current(self.slot(page)) {
            None
        } else {
            let cell = self.root[page.0];
            Some(
                MaterializedPageSnapshot {
                    ppn: cell.ppn,
                    device: cell.device,
                    newly_installed: false,
                    dirty: holds_dirt(self.slot(page)),
                }.materialized(map),
            )
        }
    }

    /// Whether a live reservation keeps an access through the cache away.
    pub open spec fn access_conflicts(self, page: PageIndex, access: MaterializeAccess) -> bool {
        blocked(
            self.reservations,
            PageRange { start: page, page_count: 1 },
            buffered_kind(access),
        )
    }

    /// Outcome of leasing a page, once it is known to be in `ppn`.
    pub open spec fn lease_outcome(ppn: Ppn, pinned: Grant) -> StepOutcome<PageLease, NoProgress> {
        match pinned {
            Ok(()) => StepOutcome::Done(PageLease::allocated(ppn)),
            Err(error) => StepOutcome::Error(PageCacheError::Alloc(error).errno()),
        }
    }

    /// Outcome of leasing a page without materializing it, where that can be
    /// decided: devices have no leases, and a published page of persistent
    /// anonymous memory is leased as it is.
    pub open spec fn lease_without_materializing(self, page: PageIndex, pinned: Grant) -> Option<
        StepOutcome<PageLease, NoProgress>,
    > {
        match self.kind {
            PageContainerKind::Device { .. } => Some(
                StepOutcome::Error(PageCacheError::UnsupportedKind.errno()),
            ),
            PageContainerKind::Anon { swap_policy: AnonSwapPolicy::Persistent } => {
                if self.root.contains_key(page.0) {
                    Some(Self::lease_outcome(self.root[page.0].ppn, pinned))
                } else {
                    None
                }
            },
            _ => None,
        }
    }
}

impl PageContainer {
    /// The cached page as it stands.
    fn materialized_snapshot(&self, page: PageIndex, newly_installed: bool) -> (r: Result<
        MaterializedPageSnapshot,
        PageCacheError,
    >)
        requires
            self.wf(),
        ensures
            r == self@.page_snapshot(page, newly_installed),
    {
        let (ppn, device) = match self.pages.load(page) {
            Some(entry) => (entry.ppn(), entry.pin.is_device()),
            None => {
                return Err(PageCacheError::MissingPage);
            },
        };
        let snapshot = match self.page_slots.get(page.0) {
            Some(slot) => slot.snapshot(),
            None => {
                return Err(PageCacheError::MissingPage);
            },
        };
        match snapshot.state.resident_ppn() {
            Some(slot_ppn) => {
                if slot_ppn != ppn {
                    return Err(PageCacheError::Backend(Errno::ESTALE));
                }
            },
            None => {
                return Err(PageCacheError::Backend(Errno::ESTALE));
            },
        }
        Ok(
            MaterializedPageSnapshot {
                ppn,
                device,
                newly_installed,
                dirty: page_slot_is_dirty(snapshot),
            },
        )
    }

    fn materialize_captured(&self, page: PageIndex, newly_installed: bool, pins: PinGrants) -> (r:
        Result<MaterializedPage, PageCacheError>)
        requires
            self.wf(),
        ensures
            r == self@.materialize_snapshot(page, newly_installed, pins),
    {
        match self.materialized_snapshot(page, newly_installed) {
            Ok(snapshot) => {
                if !snapshot.device {
                    match pins.cache {
                        Ok(()) => {},
                        Err(error) => {
                            return Err(PageCacheError::Alloc(error));
                        },
                    }
                }
                snapshot.into_materialized(pins.map)
            },
            Err(error) => Err(error),
        }
    }

    pub(crate) fn mark_referenced(&mut self, page: PageIndex)
        requires
            old(self).wf(),
            old(self)@.cached(page),
        ensures
            final(self).wf(),
            final(self)@ == old(self)@.referenced(page),
    {
        let ghost before = self@;
        let _marked = self.pages.set_mark(page, PageCacheMark::Referenced);
        proof {
            assert forall|k: u64| #[trigger] self@.root.contains_key(k) implies self@.root[k]
                == self@.pages[k].binding() by {
                assert(before.root.contains_key(k));
            }
        }
    }

    /// Record a write to a cached page whose slot is bound.
    pub(crate) fn write_cached(&mut self, page: PageIndex)
        requires
            old(self).wf(),
            old(self)@.cached(page),
            old(self)@.slot(page).state.frame() is Some,
        ensures
            final(self).wf(),
            final(self)@ == old(self)@.written(page),
    {
        let ghost before = self@;
        self.mark_referenced(page);
        let slot = self.page_slots.get_mut(page.0);
        let _dirtied = slot.mark_dirty();
        proof {
            assert(self@.slots =~= before.written(page).slots);
            assert(self@ =~= before.written(page));
        }
    }

    /// Access a page that is cached. A write dirties it before the mapping pin
    /// is asked for.
    pub fn materialize_existing_page(
        &mut self,
        page: PageIndex,
        access: MaterializeAccess,
        newly_installed: bool,
        pins: PinGrants,
    ) -> (r: Result<MaterializedPage, PageCacheError>)
        requires
            old(self).wf(),
        ensures
            final(self).wf(),
            (final(self)@, r) == old(self)@.materialize_existing(
                page,
                access,
                newly_installed,
                pins,
            ),
    {
        let ghost before = self@;
        let ppn = match self.pages.lookup(page) {
            Some(ppn) => ppn,
            None => {
                return Err(PageCacheError::MissingPage);
            },
        };
        match self.ensure_resident_page_slot(page, ppn) {
            Ok(_) => {},
            Err(error) => {
                proof {
                    assert(self@.slots =~= before.slots);
                    assert(self@ =~= before);
                }
                return Err(page_slot_completion_error_to_page_cache_error(error));
            },
        }
        if access == MaterializeAccess::Write && !self.is_device() {
            self.write_cached(page);
        }
        self.materialize_captured(page, newly_installed, pins)
    }

    /// Access a page if it is cached.
    pub fn materialize_cached_page(
        &mut self,
        page: PageIndex,
        access: MaterializeAccess,
        pins: PinGrants,
    ) -> (r: Option<Result<MaterializedPage, PageCacheError>>)
        requires
            old(self).wf(),
        ensures
            final(self).wf(),
            match r {
                Some(r) => {
                    &&& old(self)@.cached(page)
                    &&& (final(self)@, r) == old(self)@.materialize_existing(
                        page,
                        access,
                        false,
                        pins,
                    )
                },
                None => !old(self)@.cached(page) && final(self)@ == old(self)@,
            },
    {
        if self.pages.lookup(page).is_none() {
            return None;
        }
        Some(self.materialize_existing_page(page, access, false, pins))
    }

    /// Access a page of anonymous memory. An absent page becomes the zeroed
    /// frame `allocated`, before which the caller reclaims if memory is low.
    pub fn materialize_anon(
        &mut self,
        page: PageIndex,
        access: MaterializeAccess,
        allocated: Result<CachedFrame, PageCacheError>,
        pins: PinGrants,
        retire: bool,
    ) -> (r: Result<MaterializedPage, PageCacheError>)
        requires
            old(self).wf(),
            allocated matches Ok(frame) ==> frame.wf(),
        ensures
            final(self).wf(),
            (final(self)@, r) == old(self)@.materialize_anon(page, access, allocated, pins, retire),
    {
        match self.kind {
            PageContainerKind::Anon { .. } => {},
            _ => {
                return Err(PageCacheError::UnsupportedKind);
            },
        }
        match self.check_bounds(page) {
            Ok(()) => {},
            Err(error) => {
                return Err(error);
            },
        }
        if self.pages.lookup(page).is_some() {
            return self.materialize_existing_page(page, access, false, pins);
        }
        let frame = match allocated {
            Ok(frame) => frame,
            Err(error) => {
                return Err(error);
            },
        };
        match pins.map {
            Ok(()) => {},
            Err(error) => {
                return Err(PageCacheError::Alloc(error));
            },
        }
        let ppn = frame.ppn;
        match self.install_resident_if_absent_published(page, frame, retire) {
            Ok(_) => {},
            Err(error) => {
                return Err(error);
            },
        }
        if access == MaterializeAccess::Write {
            self.write_cached(page);
        }
        let dirty = match self.page_slots.get(page.0) {
            Some(slot) => page_slot_is_dirty(slot.snapshot()),
            None => false,
        };
        Ok(
            MaterializedPage {
                ppn,
                map_pin: MaterializedPagePin::Allocated(MapPin { ppn }),
                newly_installed: true,
                dirty,
            },
        )
    }

    /// Access a page of device memory.
    pub fn materialize_device_page(
        &mut self,
        page: PageIndex,
        base_ppn: Ppn,
        page_count: u64,
        pins: PinGrants,
        retire: bool,
    ) -> (outcome: StepOutcome<MaterializedPage, NoProgress>)
        requires
            old(self).wf(),
        ensures
            final(self).wf(),
            (final(self)@, outcome) == old(self)@.materialize_device(
                page,
                base_ppn,
                page_count,
                pins,
                retire,
            ),
    {
        if page.0 >= page_count {
            return StepOutcome::Error(Errno::EINVAL);
        }
        if page.0 > usize::MAX as u64 {
            return StepOutcome::Error(Errno::EINVAL);
        }
        let ppn = match base_ppn.0.checked_add(page.0 as usize) {
            Some(ppn) => Ppn(ppn),
            None => {
                return StepOutcome::Error(Errno::EINVAL);
            },
        };
        let frame = CachedFrame::from_device(ppn);
        match self.install_resident_if_absent_published(page, frame, retire) {
            Ok(installed) => materialized_outcome(self.materialize_captured(page, installed, pins)),
            Err(error) => StepOutcome::Error(page_cache_error_to_errno(error)),
        }
    }

    /// Read a page through the published root alone, if it is there and its
    /// slot confirms it.
    pub fn materialize_published_read(&self, page: PageIndex, map: Grant) -> (r: Option<
        Result<MaterializedPage, PageCacheError>,
    >)
        requires
            self.wf(),
        ensures
            r == self@.published_read(page, map),
    {
        let cell = match self.resident.lookup(page) {
            Some(cell) => cell,
            None => {
                return None;
            },
        };
        let snapshot = match self.page_slots.get(page.0) {
            Some(slot) => slot.snapshot(),
            None => {
                return None;
            },
        };
        if !cell.slot_is_current(&snapshot) {
            return None;
        }
        Some(
            MaterializedPageSnapshot {
                ppn: cell.ppn,
                device: cell.device,
                newly_installed: false,
                dirty: page_slot_is_dirty(snapshot),
            }.into_materialized(map),
        )
    }

    pub fn file_page_access_conflicts_with_reservation(
        &self,
        page: PageIndex,
        access: MaterializeAccess,
    ) -> (conflict: bool)
        requires
            self.wf(),
        ensures
            conflict == self@.access_conflicts(page, access),
    {
        let kind = match access {
            MaterializeAccess::Read => RangeReservationKind::BufferedRead,
            MaterializeAccess::Write => RangeReservationKind::BufferedWrite,
        };
        self.range_reservations.conflicts(PageRange::new(page, 1), kind)
    }

    /// Lease a page without materializing it, where that can be decided.
    pub fn lease_page_at_once(&self, page: PageIndex, pinned: Grant) -> (outcome: Option<
        StepOutcome<PageLease, NoProgress>,
    >)
        requires
            self.wf(),
        ensures
            outcome == self@.lease_without_materializing(page, pinned),
    {
        match self.kind {
            PageContainerKind::Device { .. } => Some(
                StepOutcome::Error(page_cache_error_to_errno(PageCacheError::UnsupportedKind)),
            ),
            PageContainerKind::Anon { swap_policy: AnonSwapPolicy::Persistent } => {
                match self.resident.lookup(page) {
                    Some(cell) => Some(lease_frame(cell.ppn, pinned)),
                    None => None,
                }
            },
            _ => None,
        }
    }
}

fn lease_frame(ppn: Ppn, pinned: Grant) -> (outcome: StepOutcome<PageLease, NoProgress>)
    ensures
        outcome == ContainerView::lease_outcome(ppn, pinned),
{
    match pinned {
        Ok(()) => StepOutcome::Done(PageLease::from_pin(CachePin { ppn })),
        Err(error) => StepOutcome::Error(page_cache_error_to_errno(PageCacheError::Alloc(error))),
    }
}

/// The lease that a materialized page yields, where the allocator answers
/// `pinned`.
pub open spec fn leased(outcome: StepOutcome<MaterializedPage, NoProgress>, pinned: Grant) -> StepOutcome<
    PageLease,
    NoProgress,
> {
    match outcome {
        StepOutcome::Done(page) => ContainerView::lease_outcome(page.ppn, pinned),
        StepOutcome::Continue { progress } => StepOutcome::Continue { progress },
        StepOutcome::Yield { progress, shape } => StepOutcome::Yield { progress, shape },
        StepOutcome::Error(errno) => StepOutcome::Error(errno),
    }
}

/// The lease that a materialized page yields.
pub fn lease_materialized_page(
    outcome: StepOutcome<MaterializedPage, NoProgress>,
    pinned: Grant,
) -> (lease: StepOutcome<PageLease, NoProgress>)
    ensures
        lease == leased(outcome, pinned),
{
    match outcome {
        StepOutcome::Done(page) => lease_frame(page.ppn, pinned),
        StepOutcome::Continue { progress } => StepOutcome::Continue { progress },
        StepOutcome::Yield { progress, shape } => StepOutcome::Yield { progress, shape },
        StepOutcome::Error(errno) => StepOutcome::Error(errno),
    }
}

/// What a materialization amounts to for a caller that cannot wait.
pub open spec fn page_at_once(outcome: StepOutcome<MaterializedPage, NoProgress>) -> Result<
    MaterializedPage,
    PageCacheError,
> {
    match outcome {
        StepOutcome::Done(page) => Ok(page),
        StepOutcome::Error(errno) => Err(PageCacheError::Backend(errno)),
        StepOutcome::Continue { .. } => Err(PageCacheError::Backend(Errno::EAGAIN)),
        StepOutcome::Yield { shape, .. } => if shape is OnWaitSource {
            Err(PageCacheError::Backend(Errno::EAGAIN))
        } else {
            Err(PageCacheError::Backend(Errno::EIO))
        },
    }
}

/// The page of a materialization, for a caller that cannot wait.
pub fn materialize_page_now(outcome: StepOutcome<MaterializedPage, NoProgress>) -> (r: Result<
    MaterializedPage,
    PageCacheError,
>)
    ensures
        r == page_at_once(outcome),
{
    match outcome {
        StepOutcome::Done(page) => Ok(page),
        StepOutcome::Error(errno) => Err(PageCacheError::Backend(errno)),
        StepOutcome::Continue { .. } => Err(PageCacheError::Backend(Errno::EAGAIN)),
        StepOutcome::Yield { shape, .. } => {
            if is_wait_source(&shape) {
                Err(PageCacheError::Backend(Errno::EAGAIN))
            } else {
                Err(PageCacheError::Backend(Errno::EIO))
            }
        },
    }
}

} // verus!
