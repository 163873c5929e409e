//! Frames that several containers share, and frames that are handed over.

use crate::container::{ContainerView, PageContainer};
use crate::frame::{CachePin, CachedFrame, Grant, PageCacheError, PageLease};
use crate::ids::{AllocError, PageIndex, Ppn};
use crate::residency::{ensured, page_slot_completion_error_to_page_cache_error, slot_error};
use vstd::prelude::*;

verus! {

/// What the allocator answers when a shared frame is made private.
#[derive(Debug)]
pub struct CowAnswers {
    /// A zeroed frame.
    pub reserved: Result<Ppn, AllocError>,
    /// Whether the contents were copied into it.
    pub copied: Grant,
    pub pinned: Grant,
    /// Whether a retire credit for the old root was granted.
    pub retire: bool,
}

impl CowAnswers {
    /// The private frame, with the contents of the shared one.
    pub open spec fn private_frame(self) -> Result<CachedFrame, PageCacheError> {
        match (self.reserved, self.copied, self.pinned) {
            (Err(error), _, _) => Err(PageCacheError::Alloc(error)),
            (_, Err(error), _) => Err(PageCacheError::Alloc(error)),
            (_, _, Err(error)) => Err(PageCacheError::Alloc(error)),
            (Ok(ppn), Ok(()), Ok(())) => Ok(CachedFrame::allocated(ppn)),
        }
    }
}

impl ContainerView {
    /// Outcome of caching the live frame `ppn` of another container for `page`.
    pub open spec fn share(self, page: PageIndex, ppn: Ppn, pinned: Grant, retire: bool) -> (
        Self,
        Result<(), PageCacheError>,
    ) {
        if self.kind is Device {
            (self, Err(PageCacheError::UnsupportedKind))
        } else {
            match pinned {
                Err(error) => (self, Err(PageCacheError::Alloc(error))),
                Ok(()) => match self.install(page, CachedFrame::allocated(ppn), false, retire) {
                    (done, Ok(true)) => (done, Ok(())),
                    (done, Ok(false)) => (
                        done,
                        Err(PageCacheError::AlreadyPresent { current: self.pages[page.0].ppn }),
                    ),
                    (done, Err(error)) => (done, Err(error)),
                },
            }
        }
    }

    /// Outcome of moving a cached page to a private copy of its frame.
    pub open spec fn make_private(self, page: PageIndex, answers: CowAnswers) -> (
        Self,
        Result<Ppn, PageCacheError>,
    ) {
        if self.kind is Device {
            (self, Err(PageCacheError::UnsupportedKind))
        } else {
            match self.frame_of(page) {
                None => (self, Err(PageCacheError::MissingPage)),
                Some(shared) => match ensured(self.slot(page), shared) {
                    Err(error) => (self.touched(page), Err(slot_error(error))),
                    Ok(bound) => {
                        let ready = self.with_slot(page, bound);
                        match answers.private_frame() {
                            Err(error) => (ready, Err(error)),
                            Ok(frame) => ready.replace(
                                page,
                                shared,
                                bound.generation,
                                frame,
                                answers.retire,
                            ),
                        }
                    },
                },
            }
        }
    }

    /// Outcome of writing over a cached page as a whole.
    pub open spec fn overwrite(self, page: PageIndex) -> (Self, Result<bool, PageCacheError>) {
        match ensured(self.slot(page), self.pages[page.0].ppn) {
            Err(error) => (self.touched(page), Err(slot_error(error))),
            Ok(bound) => (self.with_slot(page, bound.dirtied()->Ok_0), Ok(false)),
        }
    }

    /// Outcome of taking over a leased frame: the frame is shared where the
    /// page is absent, and copied where it is not.
    pub open spec fn take_lease(
        self,
        page: PageIndex,
        lease: PageLease,
        pinned: Grant,
        copied: Grant,
        retire: bool,
    ) -> (Self, Result<bool, PageCacheError>) {
        match lease.confirmed() {
            Err(error) => (self, Err(error)),
            Ok(()) => match self.share(page, lease.ppn, pinned, retire) {
                (done, Ok(())) => (done, Ok(true)),
                (done, Err(PageCacheError::AlreadyPresent { .. })) => match copied {
                    Err(error) => (done, Err(PageCacheError::Alloc(error))),
                    Ok(()) => done.referenced(page).overwrite(page),
                },
                (done, Err(error)) => (done, Err(error)),
            },
        }
    }

    /// Outcome of taking over the frame of a user page: it becomes the dirty
    /// page where that is absent, and is copied where it is not.
    pub open spec fn take_gift(
        self,
        page: PageIndex,
        gift: Ppn,
        pinned: Grant,
        copied: Grant,
        retire: bool,
    ) -> (Self, Result<bool, PageCacheError>) {
        if self.kind is Device {
            (self, Err(PageCacheError::UnsupportedKind))
        } else if page.0 >= self.page_count {
            (self, Err(PageCacheError::OutOfBounds))
        } else {
            match pinned {
                Err(error) => (self, Err(PageCacheError::Alloc(error))),
                Ok(()) => match self.install(page, CachedFrame::allocated(gift), true, retire) {
                    (done, Ok(false)) => match copied {
                        Err(error) => (done, Err(PageCacheError::Alloc(error))),
                        Ok(()) => done.overwrite(page),
                    },
                    (done, result) => (done, result),
                },
            }
        }
    }
}

/// Cache the live frame `source_ppn` of another container for `page`.
pub fn install_shared_page(
    pc: &mut PageContainer,
    page: PageIndex,
    source_ppn: Ppn,
    pinned: Grant,
    retire: bool,
) -> (r: Result<(), PageCacheError>)
    requires
        old(pc).wf(),
    ensures
        final(pc).wf(),
        (final(pc)@, r) == old(pc)@.share(page, source_ppn, pinned, retire),
{
    if pc.is_device() {
        return Err(PageCacheError::UnsupportedKind);
    }
    match pinned {
        Ok(()) => {},
        Err(error) => {
            return Err(PageCacheError::Alloc(error));
        },
    }
    let frame = CachedFrame::from_pin(CachePin { ppn: source_ppn });
    match pc.install_resident_if_absent_published(page, frame, retire) {
        Ok(true) => Ok(()),
        Ok(false) => match pc.lookup(page) {
            Some(current) => Err(PageCacheError::AlreadyPresent { current }),
            None => Err(PageCacheError::MissingPage),
        },
        Err(error) => Err(error),
    }
}

/// Move a cached page from a shared frame to a private copy of it, and say
/// which frame that is.
pub fn cow_replace_into_private(pc: &mut PageContainer, page: PageIndex, answers: CowAnswers) -> (r:
    Result<Ppn, PageCacheError>)
    requires
        old(pc).wf(),
    ensures
        final(pc).wf(),
        (final(pc)@, r) == old(pc)@.make_private(page, answers),
{
    if pc.is_device() {
        return Err(PageCacheError::UnsupportedKind);
    }
    let shared = match pc.lookup(page) {
        Some(ppn) => ppn,
        None => {
            return Err(PageCacheError::MissingPage);
        },
    };
    let generation = match pc.ensure_resident_page_slot(page, shared) {
        Ok(snapshot) => snapshot.generation,
        Err(error) => {
            return Err(page_slot_completion_error_to_page_cache_error(error));
        },
    };
    let private = match answers.reserved {
        Ok(ppn) => ppn,
        Err(error) => {
            return Err(PageCacheError::Alloc(error));
        },
    };
    match answers.copied {
        Ok(()) => {},
        Err(error) => {
            return Err(PageCacheError::Alloc(error));
        },
    }
    match answers.pinned {
        Ok(()) => {},
        Err(error) => {
            return Err(PageCacheError::Alloc(error));
        },
    }
    let frame = CachedFrame::from_pin(CachePin { ppn: private });
    pc.replace_resident_if_match_published(page, shared, generation, frame, answers.retire)
}

impl PageContainer {
    /// Note that a cached page was written over as a whole.
    fn overwrite_cached(&mut self, page: PageIndex) -> (r: Result<bool, PageCacheError>)
        requires
            old(self).wf(),
            old(self)@.cached(page),
        ensures
            final(self).wf(),
            (final(self)@, r) == old(self)@.overwrite(page),
    {
        let ghost before = self@;
        let current = match self.lookup(page) {
            Some(current) => current,
            None => {
                return Err(PageCacheError::MissingPage);
            },
        };
        match self.ensure_resident_page_slot(page, current) {
            Err(error) => Err(page_slot_completion_error_to_page_cache_error(error)),
            Ok(_) => {
                let slot = self.page_slots.get_mut(page.0);
                let _dirtied = slot.mark_dirty();
                proof {
                    assert(self@.slots =~= before.overwrite(page).0.slots);
                    assert(self@ =~= before.overwrite(page).0);
                }
                Ok(false)
            },
        }
    }

    /// Take over a leased frame as `page`, and say whether it is shared now;
    /// else its contents went into the cached page. `copied` answers the copy
    /// into the frame of the cached page.
    pub fn install_page_lease_or_copy(
        &mut self,
        page: PageIndex,
        lease: PageLease,
        pinned: Grant,
        copied: Grant,
        retire: bool,
    ) -> (r: Result<bool, PageCacheError>)
        requires
            old(self).wf(),
        ensures
            final(self).wf(),
            (final(self)@, r) == old(self)@.take_lease(page, lease, pinned, copied, retire),
    {
        match lease.confirm() {
            Ok(()) => {},
            Err(error) => {
                return Err(error);
            },
        }
        match install_shared_page(self, page, lease.ppn, pinned, retire) {
            Ok(()) => Ok(true),
            Err(PageCacheError::AlreadyPresent { .. }) => match copied {
                Err(error) => Err(PageCacheError::Alloc(error)),
                Ok(()) => {
                    self.mark_referenced(page);
                    self.overwrite_cached(page)
                },
            },
            Err(error) => Err(error),
        }
    }

    /// Take over the frame of a user page as `page`, and say whether it is the
    /// cached page now; else its contents went into the cached page.
    pub fn install_user_gift_or_copy(
        &mut self,
        page: PageIndex,
        gift: Ppn,
        pinned: Grant,
        copied: Grant,
        retire: bool,
    ) -> (r: Result<bool, PageCacheError>)
        requires
            old(self).wf(),
        ensures
            final(self).wf(),
            (final(self)@, r) == old(self)@.take_gift(page, gift, pinned, copied, retire),
    {
        if self.is_device() {
            return Err(PageCacheError::UnsupportedKind);
        }
        match self.check_bounds(page) {
            Ok(()) => {},
            Err(error) => {
                return Err(error);
            },
        }
        match pinned {
            Ok(()) => {},
            Err(error) => {
                return Err(PageCacheError::Alloc(error));
            },
        }
        let frame = CachedFrame::from_pin(CachePin { ppn: gift });
        match self.install_resident_if_absent_published_with(page, frame, true, retire) {
            Ok(false) => match copied {
                Err(error) => Err(PageCacheError::Alloc(error)),
                Ok(()) => self.overwrite_cached(page),
            },
            result => result,
        }
    }
}

/// Making a page private touches that page only: it gets the new frame, and
/// whoever shares the old one keeps it.
pub proof fn law_private_copy_leaves_other_pages_alone(
    pc: PageContainer,
    page: PageIndex,
    answers: CowAnswers,
    other: PageIndex,
)
    requires
        pc.wf(),
    ensures
        ({
            let (after, result) = pc@.make_private(page, answers);
            &&& other != page ==> after.frame_of(other) == pc@.frame_of(other) && after.slot(other)
                == pc@.slot(other)
            &&& result matches Ok(ppn) ==> {
                &&& after.frame_of(page) == Some(ppn)
                &&& answers.reserved == Ok::<Ppn, AllocError>(ppn)
                &&& after.slot(page).state.frame() == Some(ppn)
                &&& after.slot(page).generation != pc@.slot(page).generation
            }
            &&& result is Err ==> after.frame_of(page) == pc@.frame_of(page)
        }),
{
    let slot = pc@.slot(page);
    crate::slot::law_renewal_changes_the_generation(slot, slot.state);
}

/// Sharing never displaces a page that is there, and a gift is never lost: the
/// page holds the given contents, marked as unsaved.
pub proof fn law_taken_contents_are_unsaved(
    pc: PageContainer,
    page: PageIndex,
    frame: Ppn,
    pinned: Grant,
    copied: Grant,
    retire: bool,
)
    requires
        pc.wf(),
    ensures
        ({
            let (after, result) = pc@.share(page, frame, pinned, retire);
            &&& pc@.cached(page) ==> result is Err && after == pc@
            &&& result is Ok ==> after.frame_of(page) == Some(frame)
        }),
        ({
            let (after, result) = pc@.take_gift(page, frame, pinned, copied, retire);
            &&& result is Ok ==> crate::container::holds_dirt(after.slot(page))
            &&& result == Ok::<bool, PageCacheError>(true) ==> after.frame_of(page) == Some(frame)
            &&& pc@.cached(page) ==> after.frame_of(page) == pc@.frame_of(page)
        }),
{
}

} // verus!
