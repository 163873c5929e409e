//! What caching, moving, withdrawing and sharing pages come to: when each can be
//! done, where the page is afterwards, and what stays as it was.

use crate::access_meaning::{agree_elsewhere, is_bound};
use crate::container::ContainerView;
use crate::frame::{
    CachePin, CachedFrame, Grant, PageCacheError, PageCachePin, PageLease,
};
use crate::ids::{AllocError, Errno, PageGeneration, PageIndex, Ppn};
use crate::residency::{distinct_pages, pages_of};
use crate::share::CowAnswers;
use crate::slot::{PageSlotSnapshot, PageSlotState};
use crate::slot_meaning::follows;
use vstd::prelude::*;

verus! {

/// Whether the root of `view` can be published: nobody publishes now, and the
/// old root can be retired.
pub open spec fn can_publish(view: ContainerView, retire: bool) -> bool {
    view.sequence % 2 == 0 && retire
}

/// Whether exactly one publication lies between the two.
pub open spec fn published_once(before: ContainerView, after: ContainerView) -> bool {
    if before.sequence + 2 <= u64::MAX {
        after.sequence == before.sequence + 2
    } else {
        after.sequence == 2
    }
}

/// Nothing differs but the pages, their slots and the root.
pub open spec fn same_books(a: ContainerView, b: ContainerView) -> bool {
    a == ContainerView {
        slots: a.slots,
        pages: a.pages,
        root: a.root,
        sequence: a.sequence,
        ..b
    }
}

/// Nothing differs but that `b` may have a slot for `page`, which then says what
/// the absence of one says.
pub open spec fn same_but_for_a_slot(a: ContainerView, b: ContainerView, page: PageIndex) -> bool {
    &&& same_books(a, b)
    &&& a.pages == b.pages
    &&& a.root == b.root
    &&& a.sequence == b.sequence
    &&& forall|k: u64|
        k != page.0 ==> {
            &&& #[trigger] a.slots.contains_key(k) == b.slots.contains_key(k)
            &&& a.slots.contains_key(k) ==> a.slots[k] == b.slots[k]
        }
    &&& state_of(a, page) == state_of(b, page)
}

/// The slot of `page`: empty and without a version where there is none yet.
pub open spec fn state_of(view: ContainerView, page: PageIndex) -> PageSlotSnapshot {
    if view.slots.contains_key(page.0) {
        view.slots[page.0].inner
    } else {
        PageSlotSnapshot { state: PageSlotState::Empty, generation: PageGeneration(0) }
    }
}

/// Whether `page` is cached in `frame`, published, freshly referenced and with no
/// other mark.
pub open spec fn newly_cached(view: ContainerView, page: PageIndex, frame: CachedFrame) -> bool {
    &&& view.pages.contains_key(page.0)
    &&& view.pages[page.0].ppn == frame.ppn
    &&& view.pages[page.0].pin == frame.pin
    &&& view.pages[page.0].marks.referenced
    &&& !view.pages[page.0].marks.dirty
    &&& !view.pages[page.0].marks.writeback
    &&& !view.pages[page.0].marks.no_reclaim
    &&& view.root.contains_key(page.0)
    &&& view.root[page.0].ppn == frame.ppn
    &&& view.root[page.0].device == (frame.pin is Device)
}

/// The frame `ppn` of the allocator, pinned for a cache.
pub open spec fn pinned_frame(ppn: Ppn) -> CachedFrame {
    CachedFrame { ppn, pin: PageCachePin::Allocated(CachePin { ppn }) }
}

/// What is answered where the caller has to come again.
pub open spec fn come_again<T>() -> Result<T, PageCacheError> {
    Err(PageCacheError::Backend(Errno::EAGAIN))
}

/// What is answered where the page is not in a state for it.
pub open spec fn gone_stale<T>() -> Result<T, PageCacheError> {
    Err(PageCacheError::Backend(Errno::ESTALE))
}

/// A frame becomes an absent page, clean or dirty as asked, in a new version,
/// unless the page is being fetched or the root cannot be published. A page that
/// is there stays.
pub proof fn law_a_frame_becomes_an_absent_page(
    view: ContainerView,
    page: PageIndex,
    frame: CachedFrame,
    dirty: bool,
    retire: bool,
)
    requires
        view.consistent(),
    ensures
        ({
            let (after, result) = view.install(page, frame, dirty, retire);
            let fetching = state_of(view, page).state is Fetching;
            if view.pages.contains_key(page.0) {
                result == Ok::<bool, PageCacheError>(false) && after == view
            } else if !can_publish(view, retire) {
                result == come_again::<bool>() && same_but_for_a_slot(view, after, page)
            } else if fetching {
                result == gone_stale::<bool>() && same_but_for_a_slot(view, after, page)
            } else {
                &&& result == Ok::<bool, PageCacheError>(true)
                &&& newly_cached(after, page, frame)
                &&& after.slots.contains_key(page.0)
                &&& after.slots[page.0].inner.state == if dirty {
                    PageSlotState::Dirty { ppn: frame.ppn }
                } else {
                    PageSlotState::Resident { ppn: frame.ppn }
                }
                &&& !dirty ==> follows(state_of(view, page), after.slots[page.0].inner)
                &&& after.slots[page.0].inner.generation != state_of(view, page).generation
                &&& agree_elsewhere(view, after, page)
                &&& same_books(after, view)
                &&& published_once(view, after)
            }
        }),
{
}

/// A frame that a fetch brought becomes the page exactly where the page is
/// absent, still waits for that version, and the root can be published. The
/// version is the one that was fetched.
pub proof fn law_a_brought_frame_becomes_the_page(
    view: ContainerView,
    page: PageIndex,
    generation: PageGeneration,
    frame: CachedFrame,
    retire: bool,
)
    requires
        view.consistent(),
    ensures
        ({
            let (after, result) = view.install_fetched(page, generation, frame, retire);
            let slot = state_of(view, page);
            if view.pages.contains_key(page.0) {
                result == Ok::<bool, PageCacheError>(false) && after == view
            } else if !can_publish(view, retire) {
                result == come_again::<bool>() && same_but_for_a_slot(view, after, page)
            } else if slot.state !is Fetching || slot.generation != generation {
                result == gone_stale::<bool>() && same_but_for_a_slot(view, after, page)
            } else {
                &&& result == Ok::<bool, PageCacheError>(true)
                &&& newly_cached(after, page, frame)
                &&& is_bound(after, page, frame.ppn, PageSlotState::Resident { ppn: frame.ppn })
                &&& after.slots[page.0].inner.generation == generation
                &&& agree_elsewhere(view, after, page)
                &&& same_books(after, view)
                &&& published_once(view, after)
            }
        }),
{
}

/// A page moves to another frame exactly where it is cached in the named one, in
/// the named version, clean or dirty, and the root can be published. It keeps its
/// marks and stays as clean as it was, in a new version.
pub proof fn law_a_cached_page_moves_to_another_frame(
    view: ContainerView,
    page: PageIndex,
    expected: Ppn,
    generation: PageGeneration,
    frame: CachedFrame,
    retire: bool,
)
    requires
        view.consistent(),
    ensures
        ({
            let (after, result) = view.replace(page, expected, generation, frame, retire);
            let slot = state_of(view, page);
            if !view.pages.contains_key(page.0) {
                result == Err::<Ppn, PageCacheError>(PageCacheError::MissingPage) && after == view
            } else if view.pages[page.0].ppn != expected || slot.generation != generation {
                &&& result == Err::<Ppn, PageCacheError>(
                    PageCacheError::MismatchedFrame { current: view.pages[page.0].ppn },
                )
                &&& after == view
            } else if !can_publish(view, retire) {
                result == come_again::<Ppn>() && after == view
            } else if slot.state !is Resident && slot.state !is Dirty {
                result == gone_stale::<Ppn>() && after == view
            } else {
                &&& result == Ok::<Ppn, PageCacheError>(frame.ppn)
                &&& after.pages.contains_key(page.0)
                &&& after.pages[page.0].pin == frame.pin
                &&& after.pages[page.0].marks == view.pages[page.0].marks
                &&& is_bound(
                    after,
                    page,
                    frame.ppn,
                    if slot.state is Dirty {
                        PageSlotState::Dirty { ppn: frame.ppn }
                    } else {
                        PageSlotState::Resident { ppn: frame.ppn }
                    },
                )
                &&& after.root[page.0].device == (frame.pin is Device)
                &&& follows(slot, after.slots[page.0].inner)
                &&& agree_elsewhere(view, after, page)
                &&& same_books(after, view)
                &&& published_once(view, after)
            }
        }),
{
}

/// Whether slot and cache agree that `page` lies in `ppn`, and it is clean if
/// that is asked for.
pub open spec fn can_go(
    view: ContainerView,
    page: PageIndex,
    ppn: Ppn,
    require_clean: bool,
) -> bool {
    &&& view.pages.contains_key(page.0)
    &&& view.pages[page.0].ppn == ppn
    &&& match state_of(view, page).state {
        PageSlotState::Resident { ppn: frame } => frame == ppn,
        PageSlotState::Dirty { ppn: frame } => !require_clean && frame == ppn,
        PageSlotState::Writeback { ppn: frame, .. } => !require_clean && frame == ppn,
        _ => false,
    }
}

/// Whether the pages of `gone`, and no others, have left between the two: their
/// slots are empty, in the next version, and neither cache nor root knows them.
pub open spec fn have_left(before: ContainerView, after: ContainerView, gone: Set<u64>) -> bool {
    forall|k: u64| #![trigger gone.contains(k)]
        {
            &&& after.slots.contains_key(k) == before.slots.contains_key(k)
            &&& after.fetches.contains_key(k) == before.fetches.contains_key(k)
            &&& if gone.contains(k) {
                &&& !after.pages.contains_key(k)
                &&& !after.root.contains_key(k)
                &&& before.slots.contains_key(k) ==> {
                    &&& after.slots[k].inner.state is Empty
                    &&& follows(before.slots[k].inner, after.slots[k].inner)
                }
            } else {
                &&& after.pages.contains_key(k) == before.pages.contains_key(k)
                &&& after.pages.contains_key(k) ==> after.pages[k] == before.pages[k]
                &&& after.root.contains_key(k) == before.root.contains_key(k)
                &&& after.root.contains_key(k) ==> after.root[k] == before.root[k]
                &&& before.slots.contains_key(k) ==> after.slots[k] == before.slots[k]
            }
        }
}

/// A published page in the named frame can be withdrawn, where it need be clean
/// only if that is asked for. Nothing but that page goes.
pub proof fn law_a_page_is_withdrawn(
    view: ContainerView,
    page: PageIndex,
    expected: Ppn,
    require_clean: bool,
    retire: bool,
)
    requires
        view.consistent(),
        view.root.dom() == view.pages.dom(),
    ensures
        ({
            let (after, result) = view.withdraw(page, expected, require_clean, retire);
            if !can_go(view, page, expected, require_clean) {
                result == Ok::<bool, PageCacheError>(false) && after == view
            } else if !can_publish(view, retire) {
                result == come_again::<bool>() && after == view
            } else {
                &&& result == Ok::<bool, PageCacheError>(true)
                &&& have_left(view, after, set![page.0])
                &&& same_books(after, view)
                &&& published_once(view, after)
            }
        }),
{
    assert(view.pages.dom().contains(page.0) == view.pages.contains_key(page.0));
    assert(view.root.dom().contains(page.0) == view.root.contains_key(page.0));
}

/// Of pages that are each named once, those that can go are withdrawn together
/// with one publication, or none is.
pub proof fn law_pages_are_withdrawn_together(
    view: ContainerView,
    candidates: Seq<(PageIndex, Ppn)>,
    require_clean: bool,
    retire: bool,
    gone: Set<u64>,
)
    requires
        view.consistent(),
        view.root.dom() == view.pages.dom(),
        distinct_pages(candidates),
        forall|k: u64| #[trigger]
            gone.contains(k) == exists|i: int|
                {
                    &&& 0 <= i < candidates.len()
                    &&& (#[trigger] candidates[i]).0.0 == k
                    &&& can_go(view, candidates[i].0, candidates[i].1, require_clean)
                },
    ensures
        ({
            let (after, result) = view.withdraw_batch(candidates, require_clean, retire);
            if gone == Set::<u64>::empty() {
                result == Ok::<usize, PageCacheError>(0) && after == view
            } else if !can_publish(view, retire) {
                result == come_again::<usize>() && after == view
            } else {
                &&& result == Ok::<usize, PageCacheError>(gone.len() as usize)
                &&& have_left(view, after, gone)
                &&& same_books(after, view)
                &&& published_once(view, after)
            }
        }),
{
    let chosen = view.eligible(candidates, require_clean);
    view.lemma_eligible(candidates, require_clean);
    assert(pages_of(chosen) =~= gone) by {
        assert forall|k: u64| pages_of(chosen).contains(k) == gone.contains(k) by {
            if pages_of(chosen).contains(k) {
                let i = choose|i: int| 0 <= i < chosen.len() && (#[trigger] chosen[i]).0.0 == k;
                let at = candidates.index_of(chosen[i]);
                assert(candidates[at] == chosen[i]);
                assert(can_go(view, candidates[at].0, candidates[at].1, require_clean));
            }
            if gone.contains(k) {
                let i = choose|i: int|
                    {
                        &&& 0 <= i < candidates.len()
                        &&& (#[trigger] candidates[i]).0.0 == k
                        &&& can_go(view, candidates[i].0, candidates[i].1, require_clean)
                    };
                assert(chosen.contains(candidates[i]));
                let at = chosen.index_of(candidates[i]);
                assert(chosen[at].0.0 == k);
            }
        }
    }
    assert(gone.subset_of(view.root.dom())) by {
        assert forall|k: u64| gone.contains(k) implies view.root.dom().contains(k) by {
            assert(view.pages.dom().contains(k));
        }
    }
}

/// The live frame of another container becomes an absent page, clean; a page that
/// is there stays, and the refusal names its frame. Devices share nothing.
pub proof fn law_a_shared_frame_becomes_an_absent_page(
    view: ContainerView,
    page: PageIndex,
    ppn: Ppn,
    pinned: Grant,
    retire: bool,
)
    requires
        view.consistent(),
    ensures
        ({
            let (after, result) = view.share(page, ppn, pinned, retire);
            if view.kind is Device {
                result == Err::<(), PageCacheError>(PageCacheError::UnsupportedKind) && after == view
            } else if pinned is Err {
                &&& result == Err::<(), PageCacheError>(PageCacheError::Alloc(pinned->Err_0))
                &&& after == view
            } else if view.pages.contains_key(page.0) {
                &&& result == Err::<(), PageCacheError>(
                    PageCacheError::AlreadyPresent { current: view.pages[page.0].ppn },
                )
                &&& after == view
            } else if !can_publish(view, retire) {
                result == come_again::<()>() && same_but_for_a_slot(view, after, page)
            } else if state_of(view, page).state is Fetching {
                result == gone_stale::<()>() && same_but_for_a_slot(view, after, page)
            } else {
                &&& result is Ok
                &&& newly_cached(after, page, pinned_frame(ppn))
                &&& is_bound(after, page, ppn, PageSlotState::Resident { ppn })
                &&& agree_elsewhere(view, after, page)
                &&& same_books(after, view)
            }
        }),
{
}

/// Whether every answer of the allocator grants the private copy.
pub open spec fn copy_granted(answers: CowAnswers) -> bool {
    answers.reserved is Ok && answers.copied is Ok && answers.pinned is Ok
}

/// The first of the allocator's refusals.
pub open spec fn copy_refused(answers: CowAnswers) -> AllocError {
    if answers.reserved is Err {
        answers.reserved->Err_0
    } else if answers.copied is Err {
        answers.copied->Err_0
    } else {
        answers.pinned->Err_0
    }
}

/// A cached page that no writeback reads moves to the private frame once the
/// allocator has granted everything and the root can be published. It is dirty
/// afterwards exactly where it was before.
pub proof fn law_a_page_gets_a_private_frame(
    view: ContainerView,
    page: PageIndex,
    answers: CowAnswers,
)
    requires
        view.consistent(),
        view.kind !is Device,
        view.pages.contains_key(page.0),
        state_of(view, page).state is Resident || state_of(view, page).state is Dirty,
    ensures
        ({
            let (after, result) = view.make_private(page, answers);
            let slot = state_of(view, page);
            if !copy_granted(answers) {
                &&& result == Err::<Ppn, PageCacheError>(
                    PageCacheError::Alloc(copy_refused(answers)),
                )
                &&& same_but_for_a_slot(view, after, page)
            } else if !can_publish(view, answers.retire) {
                result == come_again::<Ppn>() && same_but_for_a_slot(view, after, page)
            } else {
                let ppn = answers.reserved->Ok_0;
                &&& result == Ok::<Ppn, PageCacheError>(ppn)
                &&& is_bound(
                    after,
                    page,
                    ppn,
                    if slot.state is Dirty {
                        PageSlotState::Dirty { ppn }
                    } else {
                        PageSlotState::Resident { ppn }
                    },
                )
                &&& after.pages[page.0].pin == pinned_frame(ppn).pin
                &&& after.pages[page.0].marks == view.pages[page.0].marks
                &&& follows(slot, after.slots[page.0].inner)
                &&& agree_elsewhere(view, after, page)
                &&& same_books(after, view)
                &&& published_once(view, after)
            }
        }),
{
}

/// No private frame for a device, for a page that is not cached, or for one that
/// a writeback reads.
pub proof fn law_a_page_keeps_its_shared_frame(
    view: ContainerView,
    page: PageIndex,
    answers: CowAnswers,
)
    requires
        view.consistent(),
    ensures
        ({
            let (after, result) = view.make_private(page, answers);
            &&& view.kind is Device ==> result == Err::<Ppn, PageCacheError>(
                PageCacheError::UnsupportedKind,
            ) && after == view
            &&& view.kind !is Device && !view.pages.contains_key(page.0) ==> result == Err::<
                Ppn,
                PageCacheError,
            >(PageCacheError::MissingPage) && after == view
            &&& view.kind !is Device && view.pages.contains_key(page.0) && state_of(
                view,
                page,
            ).state is Writeback ==> {
                &&& same_but_for_a_slot(view, after, page)
                &&& copy_granted(answers) && can_publish(view, answers.retire) ==> result
                    == gone_stale::<Ppn>()
                &&& result is Err
            }
        }),
{
}

/// Whether a page was written over in its frame: same frame, new version, owed to
/// the store.
pub open spec fn written_over(before: ContainerView, after: ContainerView, page: PageIndex) -> bool {
    &&& after.pages.contains_key(page.0)
    &&& after.pages[page.0].ppn == before.pages[page.0].ppn
    &&& after.pages[page.0].pin == before.pages[page.0].pin
    &&& after.root == before.root
    &&& after.sequence == before.sequence
    &&& after.slots.contains_key(page.0)
    &&& after.slots[page.0].inner.generation != state_of(before, page).generation
    &&& match after.slots[page.0].inner.state {
        PageSlotState::Dirty { ppn } => ppn == before.pages[page.0].ppn && state_of(
            before,
            page,
        ).state !is Writeback,
        PageSlotState::Writeback { ppn, redirtied, submitted_generation } => {
            &&& ppn == before.pages[page.0].ppn
            &&& redirtied
            &&& state_of(before, page).state is Writeback
            &&& submitted_generation == state_of(before, page).state->submitted_generation
        },
        _ => false,
    }
}

/// A gift becomes an absent page of the container, dirty, and says so; where the
/// page is there, the contents are copied over it. It is refused to a device and
/// beyond the last page.
pub proof fn law_a_gift_becomes_the_page_or_is_copied(
    view: ContainerView,
    page: PageIndex,
    gift: Ppn,
    pinned: Grant,
    copied: Grant,
    retire: bool,
)
    requires
        view.consistent(),
    ensures
        ({
            let (after, result) = view.take_gift(page, gift, pinned, copied, retire);
            if view.kind is Device {
                &&& result == Err::<bool, PageCacheError>(PageCacheError::UnsupportedKind)
                &&& after == view
            } else if page.0 >= view.page_count {
                &&& result == Err::<bool, PageCacheError>(PageCacheError::OutOfBounds)
                &&& after == view
            } else if pinned is Err {
                &&& result == Err::<bool, PageCacheError>(PageCacheError::Alloc(pinned->Err_0))
                &&& after == view
            } else if view.pages.contains_key(page.0) {
                if copied is Err {
                    &&& result == Err::<bool, PageCacheError>(PageCacheError::Alloc(copied->Err_0))
                    &&& after == view
                } else if state_of(view, page).state is Fetching {
                    result == gone_stale::<bool>() && same_but_for_a_slot(view, after, page)
                } else {
                    &&& result == Ok::<bool, PageCacheError>(false)
                    &&& written_over(view, after, page)
                    &&& after.pages == view.pages
                    &&& agree_elsewhere(view, after, page)
                    &&& same_books(after, view)
                }
            } else if !can_publish(view, retire) {
                result == come_again::<bool>() && same_but_for_a_slot(view, after, page)
            } else if state_of(view, page).state is Fetching {
                result == gone_stale::<bool>() && same_but_for_a_slot(view, after, page)
            } else {
                &&& result == Ok::<bool, PageCacheError>(true)
                &&& newly_cached(after, page, pinned_frame(gift))
                &&& is_bound(after, page, gift, PageSlotState::Dirty { ppn: gift })
                &&& agree_elsewhere(view, after, page)
                &&& same_books(after, view)
            }
        }),
{
}

/// A leased frame becomes an absent page, clean, and says so; where the page is
/// there, the contents are copied over it. A lease whose pin is not for its frame,
/// or is for a device, is refused before anything happens.
pub proof fn law_a_lease_becomes_the_page_or_is_copied(
    view: ContainerView,
    page: PageIndex,
    lease: PageLease,
    pinned: Grant,
    copied: Grant,
    retire: bool,
)
    requires
        view.consistent(),
    ensures
        ({
            let (after, result) = view.take_lease(page, lease, pinned, copied, retire);
            if lease.cache_pin is Device {
                &&& result == Err::<bool, PageCacheError>(PageCacheError::UnsupportedKind)
                &&& after == view
            } else if lease.cache_pin != (PageCachePin::Allocated(CachePin { ppn: lease.ppn })) {
                &&& result == Err::<bool, PageCacheError>(
                    PageCacheError::MismatchedFrame { current: lease.ppn },
                )
                &&& after == view
            } else if view.kind is Device {
                &&& result == Err::<bool, PageCacheError>(PageCacheError::UnsupportedKind)
                &&& after == view
            } else if pinned is Err {
                &&& result == Err::<bool, PageCacheError>(PageCacheError::Alloc(pinned->Err_0))
                &&& after == view
            } else if view.pages.contains_key(page.0) {
                if copied is Err {
                    &&& result == Err::<bool, PageCacheError>(PageCacheError::Alloc(copied->Err_0))
                    &&& after == view
                } else if state_of(view, page).state is Fetching {
                    &&& result == gone_stale::<bool>()
                    &&& after.pages[page.0].marks.referenced
                    &&& after.pages[page.0].ppn == view.pages[page.0].ppn
                    &&& state_of(after, page) == state_of(view, page)
                } else {
                    &&& result == Ok::<bool, PageCacheError>(false)
                    &&& written_over(view, after, page)
                    &&& after.pages[page.0].marks.referenced
                    &&& agree_elsewhere(view, after, page)
                    &&& same_books(after, view)
                }
            } else if !can_publish(view, retire) {
                result == come_again::<bool>() && same_but_for_a_slot(view, after, page)
            } else if state_of(view, page).state is Fetching {
                result == gone_stale::<bool>() && same_but_for_a_slot(view, after, page)
            } else {
                &&& result == Ok::<bool, PageCacheError>(true)
                &&& newly_cached(after, page, pinned_frame(lease.ppn))
                &&& is_bound(after, page, lease.ppn, PageSlotState::Resident { ppn: lease.ppn })
                &&& agree_elsewhere(view, after, page)
                &&& same_books(after, view)
            }
        }),
{
}

/// What a caller is told of a failure: no memory where the allocator refused, an
/// invalid argument for what the container cannot have, the store's own error,
/// and else that the page has moved on.
pub proof fn law_a_failure_is_told_by_its_cause(error: PageCacheError)
    ensures
        error.errno() is ENOMEM == (error is Alloc || error == PageCacheError::Backend(
            Errno::ENOMEM,
        )),
        error is OutOfBounds || error is UnsupportedKind ==> error.errno() is EINVAL,
        error is AlreadyPresent || error is MissingPage || error is MismatchedFrame
            ==> error.errno() is ESTALE,
        error matches PageCacheError::Backend(errno) ==> error.errno() == errno,
{
}

} // verus!
