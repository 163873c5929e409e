//! What calls that admit, hold and give back come to: requests, writeback, ranges,
//! buffers, frames and the turns of the services.

use crate::block_runtime::BackendSubmitOutcome;
use crate::container::{MaterializeAccess, PageContainer, PageContainerKind};
use crate::direct_io::{
    DirectIoBuffer, DirectIoBufferError, DirectIoSubmission, UserAccessKind, UserPageSnapshot,
};
use crate::frame::Grant;
use crate::ids::{AllocError, Errno, PageGeneration, PageIndex, PageIoRequestId, Ppn};
use crate::io::{
    IoDataSource, IoDataTarget, PageIoFlags, PageIoOp, PageIoPriority, PageIoRange, PageIoRequest,
    PageWaiter,
};
use crate::lease::OwnedFileIoRequest;
use crate::object_meaning::{
    law_a_buffer_is_pinned_where_all_its_pages_can_be, law_every_byte_of_a_buffer_has_its_place,
};
use crate::page_access::{AccessAnswers, AccessStep, AccessTurn};
use crate::page_submission::PageSubmission;
use crate::range::{
    PageRange, RangeReservation, RangeReservationError, RangeReservationId, RangeReservationKind,
    RangeReservationTable,
};
use crate::range_meaning::{
    in_the_way, is_proper, law_a_free_range_is_granted, law_a_release_ends_one,
};
use crate::reclaim::{reclaim_round, reserve_frame_with_reclaim, ReclaimRegistry};
use crate::residency::{retire_step, ResidentMutationClaim, RetireAnswer, RetireStep};
use crate::service::BackendSubmission;
use crate::slot::PageSlotState;
use crate::step::{ByteProgress, StepOutcome};
use crate::transfer::CopyCursor;
use crate::writeback_meaning::{
    all_dirty, batch_is_possible, has_room_for, in_writeback, law_a_possible_batch_is_admitted,
    law_dirty_pages_are_all_admitted,
};
use vstd::prelude::*;

verus! {

/// Whatever a file's filesystem is asked for an access is about the accessed page: at
/// the offset of the page number times the size of a page, and a write for one page.
pub proof fn law_an_access_asks_at_the_offset_of_its_page(
    pc: &mut PageContainer,
    page: PageIndex,
    access: MaterializeAccess,
    answers: AccessAnswers,
    turn: AccessTurn,
)
    requires
        call_ensures(PageContainer::materialize_page, (pc, page, access, answers), turn),
    ensures
        turn.step matches AccessStep::Fetch { offset, object, .. } ==> {
            &&& offset == page.0 * 4096
            &&& old(pc)@.kind is File
            &&& object == old(pc)@.kind->fs_object_id
            &&& access is Read
        },
        turn.step matches AccessStep::PrepareWrite { offset, object, len } ==> {
            &&& offset == page.0 * 4096
            &&& len == 4096
            &&& old(pc)@.kind is File
            &&& object == old(pc)@.kind->fs_object_id
            &&& access is Write
            &&& final(pc)@ == old(pc)@
        },
        page.0 >= old(pc)@.page_count ==> turn.step == AccessStep::Finished(
            StepOutcome::Error(Errno::EINVAL),
        ),
{
}

/// Pages that can be written back together are taken into one request, which keeps
/// the frame of every one of them, in order.
pub proof fn law_a_batch_keeps_every_frame(
    pc: &mut PageContainer,
    pages: &Vec<PageIndex>,
    pins: &Vec<Grant>,
    id: Option<PageIoRequestId>,
)
    requires
        call_ensures(PageContainer::queue_file_writeback_batch, (pc, pages, pins), id),
        old(pc)@.consistent(),
        batch_is_possible(old(pc)@, pages@, pins@, 0),
    ensures
        id is Some,
        ({
            let owner = final(pc)@.submission.owners[id->Some_0.0];
            let lease = owner.payload->lease;
            &&& final(pc)@.submission.owners.contains_key(id->Some_0.0)
            &&& owner.payload is Writeback
            &&& owner.request.range.start_page == pages@[0].0
            &&& owner.request.range.page_count == pages@.len()
            &&& lease.pages.len() == pages@.len()
            &&& forall|i: int|
                0 <= i < pages@.len() ==> {
                    &&& (#[trigger] lease.pages[i]).ppn == old(pc)@.pages[pages@[i].0].ppn
                    &&& lease.generations[i] == (
                        pages@[i],
                        old(pc)@.slots[pages@[i].0].inner.generation,
                    )
                }
        }),
{
    law_a_possible_batch_is_admitted(old(pc)@, pages@, pins@, 0);
    let lease = final(pc)@.submission.owners[id->Some_0.0].payload->lease;
    assert forall|i: int| 0 <= i < pages@.len() implies {
        &&& (#[trigger] lease.pages[i]).ppn == old(pc)@.pages[pages@[i].0].ppn
        &&& lease.generations[i] == (pages@[i], old(pc)@.slots[pages@[i].0].inner.generation)
    } by {
        assert(pages@[i].0 == pages@[i].0);
    }
}

/// Every dirty page of a file goes into writeback, as the version that it has, where
/// the pins are granted and there is room, and no other page does. The count says
/// how many.
pub proof fn law_all_dirty_pages_go_into_writeback(
    pc: &mut PageContainer,
    batch_pins: &Vec<Grant>,
    page_pins: &Vec<Grant>,
    admitted: usize,
    dirty: Seq<u64>,
    k: u64,
)
    requires
        call_ensures(
            PageContainer::queue_dirty_file_writeback,
            (pc, batch_pins, page_pins),
            admitted,
        ),
        old(pc)@.kind is File,
        old(pc)@.consistent(),
        crate::sparse_index::increasing(dirty),
        forall|p: u64| #[trigger]
            dirty.contains(p) == (old(pc)@.slots.contains_key(p) && old(pc)@.slots[p].inner.state
                is Dirty),
        dirty.len() <= batch_pins@.len(),
        forall|i: int| 0 <= i < batch_pins@.len() ==> (#[trigger] batch_pins@[i]) is Ok,
        has_room_for(old(pc)@, dirty.len()),
    ensures
        admitted == dirty.len(),
        dirty.contains(k) ==> in_writeback(final(pc)@, old(pc)@, k),
        !dirty.contains(k) && old(pc)@.slots.contains_key(k) ==> final(pc)@.slots[k]
            == old(pc)@.slots[k],
        final(pc)@.pages == old(pc)@.pages,
{
    let before = old(pc)@;
    assert(crate::sparse_index::lists(dirty, before.dirty_pages()));
    crate::sparse_index::lemma_ascending(dirty, before.dirty_pages());
    let candidates = dirty.map_values(|p: u64| PageIndex(p));
    assert(all_dirty(before, candidates, batch_pins@, 0)) by {
        assert forall|i: int| 0 <= i < candidates.len() implies {
            &&& before.pages.contains_key((#[trigger] candidates[i]).0)
            &&& before.slots.contains_key(candidates[i].0)
            &&& before.slots[candidates[i].0].inner.state == (PageSlotState::Dirty {
                ppn: before.pages[candidates[i].0].ppn,
            })
            &&& i < batch_pins@.len()
            &&& batch_pins@[i] is Ok
        } by {
            assert(dirty.contains(dirty[i]));
            assert(before.slots.contains_key(dirty[i]) && before.slots[dirty[i]].inner.state.frame()
                is Some);
        }
    }
    law_dirty_pages_are_all_admitted(before, candidates, batch_pins@, page_pins@);
    if dirty.contains(k) {
        let i = dirty.index_of(k);
        assert(candidates[i].0 == k);
    } else {
        assert forall|i: int| 0 <= i < candidates.len() implies (#[trigger] candidates[i]).0
            != k by {
            assert(dirty.contains(dirty[i]));
        }
    }
}

/// A range that is given is held against everybody that it excludes until it is given
/// back; who gives it back frees just that.
pub proof fn law_a_held_range_keeps_others_out(
    table: &mut RangeReservationTable,
    range: PageRange,
    kind: RangeReservationKind,
    held: Result<RangeReservation, RangeReservationError>,
    later: &mut RangeReservationTable,
    other: PageRange,
    purpose: RangeReservationKind,
    second: Result<RangeReservation, RangeReservationError>,
)
    requires
        call_ensures(RangeReservationTable::try_reserve, (table, range, kind), held),
        call_ensures(RangeReservationTable::try_reserve, (later, other, purpose), second),
        old(table).wf(),
        held is Ok,
    ensures
        held->Ok_0.range == range,
        held->Ok_0.kind == kind,
        final(table)@.len() == old(table)@.len() + 1,
        final(table)@.last() == held->Ok_0,
        final(table)@.drop_last() =~= old(table)@,
        old(later)@ == final(table)@ && in_the_way(held->Ok_0, other, purpose) ==> second is Err,
{
    let live = old(table)@;
    assert forall|i: int| 0 <= i < live.len() implies is_proper((#[trigger] live[i]).range) by {}
    law_a_free_range_is_granted(live, old(table).next_id, range, kind);
    let after = live.push(held->Ok_0);
    assert forall|i: int| 0 <= i < after.len() implies is_proper((#[trigger] after[i]).range) by {
        if i < live.len() {
            assert(after[i] == live[i]);
        }
    }
    law_a_free_range_is_granted(after, old(later).next_id, other, purpose);
    assert(after[live.len() as int] == held->Ok_0);
}

/// A release is of a range that is held under that number; it ends that one alone.
pub proof fn law_a_range_is_given_back_once(
    table: &mut RangeReservationTable,
    id: RangeReservationId,
    released: bool,
    i: int,
)
    requires
        call_ensures(RangeReservationTable::release, (table, id), released),
        forall|a: int, b: int|
            0 <= a < b < old(table)@.len() ==> (#[trigger] old(table)@[a]).id != (
            #[trigger] old(table)@[b]).id,
        0 <= i < old(table)@.len(),
        old(table)@[i].id == id,
    ensures
        released,
        final(table)@.len() == old(table)@.len() - 1,
        forall|r: RangeReservation| #[trigger]
            final(table)@.contains(r) == (old(table)@.contains(r) && r != old(table)@[i]),
{
    law_a_release_ends_one(old(table)@, i);
    assert(crate::range::has_id(old(table)@, id));
}

/// Two requests that are admitted one after the other have different numbers, and
/// both are pending as they were asked for.
pub proof fn law_admitted_requests_are_told_apart(
    submission: &mut PageSubmission,
    range: PageIoRange,
    op: PageIoOp,
    priority: PageIoPriority,
    flags: PageIoFlags,
    hint: Option<PageGeneration>,
    first: Option<PageIoRequestId>,
    later: &mut PageSubmission,
    other: PageIoRange,
    second: Option<PageIoRequestId>,
)
    requires
        call_ensures(PageSubmission::submit, (submission, range, op, priority, flags, hint), first),
        call_ensures(PageSubmission::submit, (later, other, op, priority, flags, hint), second),
    ensures
        first is None ==> final(submission)@ == old(submission)@,
        first matches Some(id) ==> {
            &&& !old(submission)@.rows.contains_key(id.0)
            &&& final(submission)@.rows.contains_key(id.0)
            &&& final(submission)@.rows[id.0] == (PageIoRequest {
                id,
                range,
                op,
                priority,
                flags,
                generation_hint: hint,
            })
        },
        old(later)@ == final(submission)@ && first is Some && second is Some ==> {
            &&& first != second
            &&& final(later)@.rows.contains_key(first->Some_0.0)
            &&& final(later)@.rows[first->Some_0.0].range == range
            &&& final(later)@.rows[second->Some_0.0].range == other
        },
{
}

/// A pending request is handed out once, with what it keeps and who waits for it, in
/// the order in which they came; nothing of it is left.
pub proof fn law_a_request_is_handed_out_once(
    submission: &mut PageSubmission,
    id: PageIoRequestId,
    taken: (Option<OwnedFileIoRequest>, Vec<PageWaiter>),
    later: &mut PageSubmission,
    again: (Option<OwnedFileIoRequest>, Vec<PageWaiter>),
)
    requires
        call_ensures(PageSubmission::take_file_request, (submission, id), taken),
        call_ensures(PageSubmission::take_file_request, (later, id), again),
    ensures
        taken.0 is Some == old(submission)@.owners.contains_key(id.0),
        taken.0 matches Some(owned) ==> owned@ == old(submission)@.owners[id.0],
        old(submission)@.waiters.contains_key(id.0) ==> taken.1@
            == old(submission)@.waiters[id.0],
        !old(submission)@.waiters.contains_key(id.0) ==> taken.1@.len() == 0,
        !final(submission)@.rows.contains_key(id.0),
        old(later)@ == final(submission)@ ==> again.0 is None && again.1@.len() == 0,
{
}

/// A pinned buffer holds every byte of the user's range in the frame of its page, at
/// its place, and no other byte; it is for the whole length.
pub proof fn law_a_pinned_buffer_holds_every_byte(
    addr: usize,
    len: usize,
    access: UserAccessKind,
    pages: &Vec<UserPageSnapshot>,
    dma: &Vec<Grant>,
    ticket: u64,
    pinned: Result<DirectIoBuffer, DirectIoBufferError>,
    i: int,
    b: int,
)
    requires
        call_ensures(DirectIoBuffer::pin, (addr, len, access, pages, dma, ticket), pinned),
        dma@.len() == pages@.len(),
        pinned is Ok,
        0 <= i < pages@.len(),
        0 <= b < 4096,
    ensures
        ({
            let buffer = pinned->Ok_0;
            let vec = buffer.vecs@[i];
            let at = (addr - addr % 4096) + i * 4096 + b;
            &&& buffer.len == len
            &&& buffer.lease.0 != 0
            &&& ticket != 0 ==> buffer.lease.0 == ticket
            &&& buffer.vecs@.len() == pages@.len()
            &&& buffer.pins@.len() == pages@.len()
            &&& buffer.pins@[i] == pages@[i].ppn
            &&& vec.frame == pages@[i].ppn.0
            &&& (vec.offset <= b < vec.offset + vec.len) == (addr <= at < addr + len)
        }),
{
    law_a_buffer_is_pinned_where_all_its_pages_can_be(addr, len, access, pages@, dma@);
    law_every_byte_of_a_buffer_has_its_place(addr, len, pages@, i, b);
}

/// A direct read has the pinned buffer as its target, a direct write as its source;
/// both name the range that was asked for.
pub proof fn law_a_direct_transfer_names_its_buffer(
    range: PageRange,
    buffer: &DirectIoBuffer,
    read: DirectIoSubmission,
    write: DirectIoSubmission,
)
    requires
        call_ensures(DirectIoSubmission::read, (range, buffer), read),
        call_ensures(DirectIoSubmission::write, (range, buffer), write),
    ensures
        read.range == range && write.range == range,
        read.lease == buffer.lease && write.lease == buffer.lease,
        read.operation is Read && write.operation is Write,
        read.source is None && write.target is None,
        read.target matches Some(IoDataTarget::Direct { lease, vecs }) && lease == buffer.lease
            && vecs@ == buffer.vecs@,
        write.source matches Some(IoDataSource::Direct { lease, vecs }) && lease == buffer.lease
            && vecs@ == buffer.vecs@,
{
}

/// A frame is asked for again only where none was free, after one round of reclaim
/// for two hundred and fifty-six pages; else the first answer stands and nothing is
/// reclaimed.
pub proof fn law_a_frame_is_asked_for_again_after_reclaim(
    registry: &mut ReclaimRegistry,
    first: Result<Ppn, AllocError>,
    second: Result<Ppn, AllocError>,
    retires: &Vec<Vec<bool>>,
    frame: Result<Ppn, AllocError>,
)
    requires
        call_ensures(reserve_frame_with_reclaim, (registry, first, second, retires), frame),
    ensures
        first matches Err(AllocError::Exhausted) ==> frame == second && final(registry).holds(
            reclaim_round(old(registry)@, 256, retires@, old(registry)@.len()),
        ),
        !(first matches Err(AllocError::Exhausted)) ==> frame == first && *final(registry)
            == *old(registry),
{
}

/// Only one can be about to publish a root: while it is, nobody else gets the claim.
pub proof fn law_one_claim_at_a_time(
    sequence: &mut u64,
    claim: Option<ResidentMutationClaim>,
    later: &mut u64,
    second: Option<ResidentMutationClaim>,
)
    requires
        call_ensures(ResidentMutationClaim::try_acquire, (sequence,), claim),
        call_ensures(ResidentMutationClaim::try_acquire, (later,), second),
    ensures
        claim is Some == (*old(sequence) % 2 == 0),
        *old(later) == *final(sequence) ==> second is None,
{
}

/// A credit that is not free is asked for again after draining, four times in all; one
/// that is refused is not.
pub proof fn law_a_credit_is_asked_for_again(attempt: usize, answer: RetireAnswer, step: RetireStep)
    requires
        call_ensures(retire_step, (attempt, answer), step),
    ensures
        step is Granted == answer is Reserved,
        step is DrainAndRetry == (answer is Exhausted && attempt < 3),
        step is Backpressured == (answer is Refused || (answer is Exhausted && attempt >= 3)),
{
}

/// A part of a copy counts once its bytes are moved; frames that cannot be addressed
/// end the copy where it stands.
pub proof fn law_moved_bytes_count(
    copy: &mut CopyCursor,
    mapped: bool,
    end: Option<StepOutcome<usize, ByteProgress>>,
)
    requires
        call_ensures(CopyCursor::copied, (copy, mapped), end),
        old(copy).wf(),
        old(copy).advanced < old(copy).len,
    ensures
        mapped ==> {
            &&& final(copy).advanced == old(copy).advanced + old(copy).next_chunk().len
            &&& end is Some == (final(copy).advanced == old(copy).len)
            &&& end matches Some(outcome) ==> outcome == StepOutcome::<usize, ByteProgress>::Done(
                old(copy).len,
            )
        },
        !mapped ==> {
            &&& *final(copy) == *old(copy)
            &&& end == Some(
                if old(copy).advanced == 0 {
                    StepOutcome::<usize, ByteProgress>::Error(Errno::EIO)
                } else {
                    StepOutcome::Done(old(copy).advanced)
                },
            )
        },
{
}

/// A background graph is queued under a number of its own: a checkpoint of the whole
/// file in the background. It stands for a graph once its plan is accepted; without
/// room the caller has to come back.
pub proof fn law_a_background_graph_is_a_checkpoint_of_the_file(
    pc: &mut PageContainer,
    submission: BackendSubmission,
    failed: Option<Errno>,
)
    requires
        call_ensures(PageContainer::queue_file_background_graph, (pc, submission), failed),
    ensures
        ({
            let before = old(pc)@.submission;
            let after = final(pc)@.submission;
            let id = before.next_id;
            let room = before.rows.len() < before.capacity && !before.rows.contains_key(id)
                && !before.owners.contains_key(id);
            let applied = crate::service_meaning::applied(submission);
            &&& !room ==> failed == Some(Errno::EBUSY) && final(pc)@ == old(pc)@
            &&& room ==> {
                &&& after.rows.contains_key(id)
                &&& after.rows[id].op is Checkpoint
                &&& after.rows[id].priority is BackgroundWriteback
                &&& after.rows[id].range.start_page == 0
                &&& after.rows[id].range.page_count == old(pc)@.page_count
                &&& failed is None == (applied matches Ok(outcome) && outcome !is Error)
                &&& failed is None ==> after.background == before.background.insert(id)
                &&& failed is Some ==> after.background == before.background
                &&& applied matches Ok(BackendSubmitOutcome::Error { errno, .. }) ==> failed
                    == Some(errno)
                &&& applied is Err ==> failed == Some(Errno::EIO)
            }
        }),
{
}

/// A new container is as large as its pages, and knows that much to be stored.
pub proof fn law_a_new_container_is_as_large_as_its_pages(
    kind: PageContainerKind,
    page_count: u64,
    pc: PageContainer,
)
    requires
        call_ensures(PageContainer::new, (kind, page_count), pc),
    ensures
        pc@.kind == kind,
        pc@.page_count == page_count,
        page_count * 4096 <= u64::MAX ==> pc@.size_bytes == page_count * 4096,
        page_count * 4096 > u64::MAX ==> pc@.size_bytes == u64::MAX,
        pc@.stored_size == Some(pc@.size_bytes),
        forall|k: u64| !(#[trigger] pc@.pages.contains_key(k)),
        pc@.reservations.len() == 0,
{
}

} // verus!
