//! What the calls that change or read a single piece of state come to: a page, a
//! published binding, a durability request, a size.

use crate::container::{FilePageFetchId, PageContainer};
use crate::frame::PageCacheError;
use crate::fsync_submission::FsyncSubmission;
use crate::ids::{Errno, PageGeneration, PageIndex, Ppn};
use crate::page_cache::PageMarks;
use crate::resident::{resident_radix_levels, span, ResidentCell, ResidentRoot};
use crate::slot::{PageSlot, PageSlotSnapshot, PageSlotState, SlotResult};
use crate::slot_meaning::{follows, lies_in};
use vstd::prelude::*;

verus! {

/// Whether a transition left the page as it says: a refusal changes nothing, and
/// else the page is what comes out.
pub open spec fn as_it_says(before: PageSlotSnapshot, after: PageSlotSnapshot, result: SlotResult) -> bool {
    match result {
        Ok(slot) => after == slot,
        Err(_) => after == before,
    }
}

/// Every transition of a page tells what became of it.
pub proof fn law_a_page_becomes_what_a_transition_says(
    fetched: &mut PageSlot,
    dirtied: &mut PageSlot,
    begun: &mut PageSlot,
    completed: &mut PageSlot,
    aborted: &mut PageSlot,
    generation: PageGeneration,
    frame: Result<Ppn, Errno>,
    done: Result<(), Errno>,
    results: (SlotResult, SlotResult, SlotResult, SlotResult, SlotResult),
)
    requires
        call_ensures(PageSlot::complete_fetch, (fetched, generation, frame), results.0),
        call_ensures(PageSlot::mark_dirty, (dirtied,), results.1),
        call_ensures(PageSlot::begin_writeback, (begun,), results.2),
        call_ensures(PageSlot::complete_writeback, (completed, generation, done), results.3),
        call_ensures(PageSlot::abort_writeback, (aborted, generation), results.4),
    ensures
        as_it_says(old(fetched).inner, final(fetched).inner, results.0),
        as_it_says(old(dirtied).inner, final(dirtied).inner, results.1),
        as_it_says(old(begun).inner, final(begun).inner, results.2),
        as_it_says(old(completed).inner, final(completed).inner, results.3),
        as_it_says(old(aborted).inner, final(aborted).inner, results.4),
{
}

/// Every change of a page's frame tells what became of the page, and happens for the
/// named frame and version alone.
pub proof fn law_a_frame_changes_as_a_transition_says(
    withdrawn: &mut PageSlot,
    moved: &mut PageSlot,
    cleaned: &mut PageSlot,
    cancelled: &mut PageSlot,
    generation: PageGeneration,
    ppn: Ppn,
    replacement: Ppn,
    results: (SlotResult, SlotResult, SlotResult, SlotResult),
)
    requires
        call_ensures(PageSlot::withdraw_if_matches, (withdrawn, generation, ppn), results.0),
        call_ensures(PageSlot::replace_if_matches, (moved, generation, ppn, replacement), results.1),
        call_ensures(PageSlot::mark_clean_if_matches, (cleaned, generation, ppn), results.2),
        call_ensures(PageSlot::invalidate_if_generation, (cancelled, generation), results.3),
    ensures
        as_it_says(old(withdrawn).inner, final(withdrawn).inner, results.0),
        as_it_says(old(moved).inner, final(moved).inner, results.1),
        as_it_says(old(cleaned).inner, final(cleaned).inner, results.2),
        as_it_says(old(cancelled).inner, final(cancelled).inner, results.3),
        results.0 is Ok ==> {
            &&& lies_in(old(withdrawn).inner, ppn)
            &&& final(withdrawn).inner.state is Empty
        },
        results.1 is Ok ==> lies_in(old(moved).inner, ppn) && lies_in(
            final(moved).inner,
            replacement,
        ),
        results.2 is Ok ==> lies_in(old(cleaned).inner, ppn) && lies_in(final(cleaned).inner, ppn),
        results.3 is Ok == (old(cancelled).inner.generation == generation),
        results.3 is Ok ==> {
            &&& final(cancelled).inner.state is Empty
            &&& follows(old(cancelled).inner, final(cancelled).inner)
        },
{
}

/// A page that is written, written back and done is clean again in its frame and in
/// the version that was written; what is written in between stays.
pub proof fn law_a_written_page_becomes_clean(
    slot: &mut PageSlot,
    dirtied: SlotResult,
    next: &mut PageSlot,
    begun: SlotResult,
    last: &mut PageSlot,
    generation: PageGeneration,
    done: SlotResult,
    ppn: Ppn,
)
    requires
        call_ensures(PageSlot::mark_dirty, (slot,), dirtied),
        call_ensures(PageSlot::begin_writeback, (next,), begun),
        call_ensures(PageSlot::complete_writeback, (last, generation, Ok(())), done),
        old(slot).inner.state == (PageSlotState::Resident { ppn }),
    ensures
        final(slot).inner.state == (PageSlotState::Dirty { ppn }),
        *old(next) == *final(slot) ==> final(next).inner.state is Writeback,
        ({
            &&& *old(next) == *final(slot)
            &&& *old(last) == *final(next)
            &&& generation == final(slot).inner.generation
        }) ==> {
            &&& final(last).inner.state == (PageSlotState::Resident { ppn })
            &&& final(last).inner.generation == final(slot).inner.generation
        },
{
}

/// What is published for a page is found for it, and what is published for others is
/// found as before; what is taken back is not found.
pub proof fn law_published_bindings_are_found(
    root: ResidentRoot,
    page: PageIndex,
    cell: ResidentCell,
    next: ResidentRoot,
    without: ResidentRoot,
    other: PageIndex,
    before: Option<ResidentCell>,
    found: Option<ResidentCell>,
    left: Option<ResidentCell>,
)
    requires
        call_ensures(ResidentRoot::with_cell, (root, page, cell), next),
        call_ensures(ResidentRoot::without_cell, (root, page), without),
        call_ensures(ResidentRoot::lookup, (&root, other), before),
        call_ensures(ResidentRoot::lookup, (&next, other), found),
        call_ensures(ResidentRoot::lookup, (&without, other), left),
    ensures
        other == page ==> found == Some(cell) && left is None,
        other != page ==> found == before && left == before,
{
}

/// The result of a durability request is kept where it is waited for, and handed out
/// once.
pub proof fn law_a_durability_result_is_handed_out_once(
    request: &mut FsyncSubmission,
    result: Result<(), Errno>,
    accepted: bool,
    next: &mut FsyncSubmission,
    taken: Option<Result<(), Errno>>,
    last: &mut FsyncSubmission,
    again: Option<Result<(), Errno>>,
)
    requires
        call_ensures(FsyncSubmission::complete, (request, result), accepted),
        call_ensures(FsyncSubmission::take, (next,), taken),
        call_ensures(FsyncSubmission::take, (last,), again),
    ensures
        accepted == old(request).state is Queued,
        !accepted ==> *final(request) == *old(request),
        final(request).id == old(request).id,
        accepted && *old(next) == *final(request) ==> taken == Some(result),
        *old(last) == *final(next) ==> again is None,
        old(next).state !is Complete ==> taken is None && *final(next) == *old(next),
{
}

/// What a container shows of a page is what it holds: its frame, whether its contents
/// are on the store, whether it is being written, and the marks that were set.
pub proof fn law_a_container_shows_what_it_holds(
    pc: &PageContainer,
    page: PageIndex,
    ppn: Option<Ppn>,
    marks: Option<PageMarks>,
    within: Result<(), PageCacheError>,
    capacity: Option<u64>,
)
    requires
        call_ensures(PageContainer::lookup, (pc, page), ppn),
        call_ensures(PageContainer::page_marks, (pc, page), marks),
        call_ensures(PageContainer::check_bounds, (pc, page), within),
        call_ensures(PageContainer::byte_capacity, (pc,), capacity),
        pc.wf(),
    ensures
        ({
            let there = pc@.pages.contains_key(page.0);
            let state = pc@.slots[page.0].inner.state;
            &&& ppn is Some == there
            &&& there ==> ppn == Some(pc@.pages[page.0].ppn)
            &&& marks is Some == there
            &&& there ==> {
                &&& marks->Some_0.dirty == (state is Dirty || state is Writeback)
                &&& marks->Some_0.writeback == state is Writeback
                &&& marks->Some_0.referenced == pc@.pages[page.0].marks.referenced
                &&& marks->Some_0.no_reclaim == pc@.pages[page.0].marks.no_reclaim
            }
            &&& within is Ok == (page.0 < pc@.page_count)
            &&& within is Err ==> within->Err_0 is OutOfBounds
            &&& capacity is Some == (pc@.page_count * 4096 <= u64::MAX)
            &&& capacity matches Some(bytes) ==> bytes == pc@.page_count * 4096
        }),
{
}

/// A size only grows to what it is grown to, and one that is set as stored is known to
/// be stored.
pub proof fn law_a_size_is_grown_or_set(
    grown: &mut PageContainer,
    stored: &mut PageContainer,
    size: u64,
)
    requires
        call_ensures(PageContainer::grow_size_to, (grown, size), ()),
        call_ensures(PageContainer::set_size_bytes_persisted, (stored, size), ()),
    ensures
        final(grown)@.size_bytes >= size,
        final(grown)@.size_bytes >= old(grown)@.size_bytes,
        final(grown)@.size_bytes == size || final(grown)@.size_bytes == old(grown)@.size_bytes,
        final(grown)@.pages == old(grown)@.pages,
        final(grown)@.stored_size == old(grown)@.stored_size,
        final(stored)@.size_bytes == size,
        final(stored)@.stored_size == Some(size),
        !final(stored)@.eof_pending,
{
}

/// Fetches have numbers of their own, none of which is zero.
pub proof fn law_fetches_are_told_apart(
    pc: &mut PageContainer,
    id: FilePageFetchId,
    later: &mut PageContainer,
    next: FilePageFetchId,
)
    requires
        call_ensures(PageContainer::allocate_file_fetch_id, (pc,), id),
        call_ensures(PageContainer::allocate_file_fetch_id, (later,), next),
    ensures
        old(later)@ == final(pc)@ ==> next != id && next.0 != 0,
        final(pc)@.fetches == old(pc)@.fetches,
{
}

/// Each level tells sixteen times as many pages apart.
proof fn lemma_span(levels: nat)
    ensures
        span(levels) == vstd::arithmetic::power::pow(16, levels),
    decreases levels,
{
    reveal(vstd::arithmetic::power::pow);
    if levels > 0 {
        lemma_span((levels - 1) as nat);
    }
}

/// A root has as many levels of sixteen as the number of the page needs, at least one
/// and no more.
pub proof fn law_a_page_needs_levels_of_sixteen(key: u64, levels: usize)
    requires
        call_ensures(resident_radix_levels, (key,), levels),
    ensures
        levels >= 1,
        key < vstd::arithmetic::power::pow(16, levels as nat),
        levels > 1 ==> key >= vstd::arithmetic::power::pow(16, (levels - 1) as nat),
{
    lemma_span(levels as nat);
    lemma_span((levels - 1) as nat);
}

} // verus!
