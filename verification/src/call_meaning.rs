//! What calls of the library come to for their callers: what a result says of the
//! state before and after, and how one call bears on the next.

use crate::access_run::{AccessNotes, AccessReplies};
use crate::block_runtime::{
    BlockDeviceCompletion, BlockManagerCompletionReceipt, BlockManagerDriven,
    BlockSubmissionHandle, UnknownTag,
};
use crate::container::{MountPin, PageContainer};
use crate::direct_io::{DirectIoCompletion, DirectIoCompletionError, DirectIoWaitableSubmission};
use crate::error_seq::{ErrorCursor, ErrorSeq};
use crate::frame::{CachePin, CachedFrame, Grant, PageCacheError, PageCachePin};
use crate::fs_page_backing::after_flush;
use crate::identity::{FileCap, FileIdentities};
use crate::ids::{AllocError, Errno, FsObjectId, PageIndex, Ppn};
use crate::lifecycle::{
    step_truncate, FsCall, FsReply, FsyncOp, FsyncReplies, ResizeReport, SyncReport,
};
use crate::lifecycle_meaning::{
    caches_beyond, law_a_shrinking_truncation_cuts_at_the_size,
    law_a_truncation_waits_for_its_pages,
};
use crate::object_meaning::{
    is_of, law_a_file_has_the_pages_that_hold_it, law_the_first_container_of_a_file_is_found,
};
use crate::page_cache::{PageCacheEntry, PageCacheIndex};
use crate::slot::{PageSlot, PageSlotFetch};
use crate::slot_meaning::follows;
use crate::step::{ByteProgress, PageProgress, StepOutcome};
use crate::transfer::{step_read, step_write, OpenFile, TransferStart};
use vstd::prelude::*;

verus! {

/// Whether a file's offset has moved by what a transfer that ended with `outcome`
/// brought, and not at all where it has not ended or failed.
pub open spec fn offset_follows(
    before: OpenFile,
    after: OpenFile,
    outcome: Option<StepOutcome<usize, ByteProgress>>,
) -> bool {
    match outcome {
        Some(StepOutcome::Done(count)) => after.offset == before.offset + count,
        Some(StepOutcome::Yield { progress, .. }) => after.offset == before.offset + progress.0,
        _ => after.offset == before.offset,
    }
}

/// A read moves the offset of the file by the bytes that it brought, at most those
/// that were asked for, and leaves the size alone.
pub proof fn law_a_read_moves_the_offset(
    pc: &mut PageContainer,
    file: &mut OpenFile,
    len: usize,
    replies: Vec<AccessReplies>,
    notes: &mut AccessNotes,
    outcome: Option<StepOutcome<usize, ByteProgress>>,
)
    requires
        call_ensures(step_read, (pc, file, len, replies, notes), outcome),
    ensures
        offset_follows(*old(file), *final(file), outcome),
        outcome matches Some(StepOutcome::Done(count)) ==> count <= len,
        final(pc).size_bytes == old(pc).size_bytes,
{
    match old(pc)@.read_start(old(file).offset, len) {
        TransferStart::Run(cursor) => {
            cursor.lemma_run(old(pc)@, old(notes)@, replies@, 0);
        },
        TransferStart::Finished(_) => {},
    }
}

/// A write moves the offset of the file by the bytes that it brought, at most those
/// that were given. The file reaches to the new offset then, and does not shrink.
pub proof fn law_a_write_moves_the_offset(
    pc: &mut PageContainer,
    file: &mut OpenFile,
    len: usize,
    replies: Vec<AccessReplies>,
    notes: &mut AccessNotes,
    outcome: Option<StepOutcome<usize, ByteProgress>>,
)
    requires
        call_ensures(step_write, (pc, file, len, replies, notes), outcome),
    ensures
        offset_follows(*old(file), *final(file), outcome),
        outcome matches Some(StepOutcome::Done(count)) ==> count <= len,
        final(file).offset > old(file).offset ==> final(pc).size_bytes >= final(file).offset,
        final(pc).size_bytes >= old(pc).size_bytes,
        final(pc).size_bytes == old(pc).size_bytes || final(pc).size_bytes == final(file).offset,
{
    match old(pc)@.write_start(old(file).offset, len) {
        TransferStart::Run(cursor) => {
            cursor.lemma_run(old(pc)@, old(notes)@, replies@, 0);
        },
        TransferStart::Finished(_) => {},
    }
}

/// A transfer starts where it is asked for: a write as a whole, a read up to the end
/// of the file.
pub proof fn law_a_transfer_starts_where_it_is_asked_for(
    pc: &PageContainer,
    offset: u64,
    len: usize,
    read: TransferStart,
    write: TransferStart,
)
    requires
        call_ensures(PageContainer::begin_read, (pc, offset, len), read),
        call_ensures(PageContainer::begin_write, (pc, offset, len), write),
        pc.page_count * 4096 <= u64::MAX,
    ensures
        ({
            let end = if pc.size_bytes <= pc.page_count * 4096 {
                pc.size_bytes as int
            } else {
                pc.page_count * 4096
            };
            &&& read is Run == (len > 0 && offset < end)
            &&& read matches TransferStart::Run(range) ==> {
                &&& range.start == offset
                &&& range.advanced == 0
                &&& range.len == if len <= end - offset {
                    len as int
                } else {
                    end - offset
                }
                &&& range.kind is Read
            }
            &&& read matches TransferStart::Finished(outcome) ==> outcome == StepOutcome::<
                usize,
                ByteProgress,
            >::Done(0)
            &&& write is Run == (len > 0 && pc@.kind !is Device && offset + len <= pc.page_count
                * 4096)
            &&& write matches TransferStart::Run(range) ==> {
                &&& range.start == offset
                &&& range.advanced == 0
                &&& range.len == len
                &&& range.kind is Write
            }
            &&& write matches TransferStart::Finished(outcome) ==> outcome == if len == 0 {
                StepOutcome::<usize, ByteProgress>::Done(0)
            } else {
                StepOutcome::Error(Errno::EINVAL)
            }
        }),
{
}

/// A truncation that is done has set the size. Where it cuts a cached page, the bytes
/// of that page from the new size on are to be cleared in its frame; no cached page
/// lies beyond.
pub proof fn law_a_done_truncation_has_set_the_size(
    pc: &mut PageContainer,
    size: u64,
    reply: &FsReply,
    retire: bool,
    report: ResizeReport,
)
    requires
        call_ensures(step_truncate, (pc, size, reply, retire), report),
        report.outcome is Done,
        old(pc).wf(),
    ensures
        final(pc).size_bytes == size,
        size < old(pc).size_bytes ==> {
            let page = (size / 4096) as u64;
            let cut = size % 4096 != 0 && old(pc)@.pages.contains_key(page);
            &&& report.zero_tail is Some == cut
            &&& report.zero_tail matches Some(tail) ==> {
                &&& tail.ppn == old(pc)@.pages[page].ppn
                &&& tail.offset == size % 4096
                &&& tail.offset + tail.len == 4096
            }
            &&& forall|k: u64| #[trigger]
                final(pc)@.pages.contains_key(k) ==> k * 4096 < size
                    && old(pc)@.pages.contains_key(k) && final(pc)@.pages[k] == old(pc)@.pages[k]
        },
        size >= old(pc).size_bytes ==> report.zero_tail is None && final(pc)@.pages
            == old(pc)@.pages,
{
    let before = *old(pc);
    if size < before.size_bytes {
        if caches_beyond(before@, size) && !(retire && before@.sequence % 2 == 0) {
            law_a_truncation_waits_for_its_pages(before@, size, *reply, retire);
        }
        law_a_shrinking_truncation_cuts_at_the_size(before, size, *reply, retire);
    }
}

/// A page that has been asked for once is fetched by whoever asked first; whoever
/// asks again joins that version.
pub proof fn law_a_page_is_asked_for_once(
    slot: &mut PageSlot,
    first: PageSlotFetch,
    again: &mut PageSlot,
    second: PageSlotFetch,
)
    requires
        call_ensures(PageSlot::begin_fetch, (slot,), first),
        call_ensures(PageSlot::begin_fetch, (again,), second),
    ensures
        first is Owner == (old(slot).inner.state is Empty || old(slot).inner.state is Error),
        first is Joined == old(slot).inner.state is Fetching,
        first is Resident == (old(slot).inner.state is Resident || old(slot).inner.state is Dirty),
        first is Blocked == old(slot).inner.state is Writeback,
        first matches PageSlotFetch::Owner { generation } ==> {
            &&& final(slot).inner.state is Fetching
            &&& final(slot).inner.generation == generation
            &&& follows(old(slot).inner, final(slot).inner)
        },
        first !is Owner ==> final(slot).inner == old(slot).inner,
        first matches PageSlotFetch::Resident { ppn, generation } ==> {
            &&& crate::slot_meaning::lies_in(old(slot).inner, ppn)
            &&& generation == old(slot).inner.generation
        },
        old(again).inner == final(slot).inner && first is Owner ==> {
            &&& second is Joined
            &&& second->Joined_generation == first->Owner_generation
            &&& final(again).inner == final(slot).inner
        },
{
}

/// The end of a transfer reaches everyone that it is routed to, with the result of
/// the device, and reaches nobody twice.
pub proof fn law_the_end_of_a_transfer_reaches_its_owners_once(
    handle: &mut BlockSubmissionHandle,
    completion: BlockDeviceCompletion,
    result: Result<BlockManagerCompletionReceipt, UnknownTag>,
    later: &mut BlockSubmissionHandle,
    again: Result<BlockManagerCompletionReceipt, UnknownTag>,
)
    requires
        call_ensures(BlockSubmissionHandle::complete_receipt, (handle, completion), result),
        call_ensures(BlockSubmissionHandle::complete_receipt, (later, completion), again),
    ensures
        ({
            let before = old(handle)@;
            let known = before.tags.contains_key(completion.tag.0);
            let id = before.tags[completion.tag.0];
            &&& result is Ok == known
            &&& result matches Err(unknown) ==> unknown.0 == completion.tag && final(handle)@
                == before
            &&& result matches Ok(receipt) ==> {
                &&& receipt.block.id == id
                &&& receipt.block.result == completion.result
                &&& receipt.page@.len() == if before.pages.contains_key(id.0) {
                    before.pages[id.0].len()
                } else {
                    0
                }
                &&& forall|i: int|
                    0 <= i < receipt.page@.len() ==> (#[trigger] receipt.page@[i]).request
                        == before.pages[id.0][i] && receipt.page@[i].result == completion.result
                &&& receipt.direct@.len() == if before.direct.contains_key(id.0) {
                    before.direct[id.0].len()
                } else {
                    0
                }
                &&& forall|i: int|
                    0 <= i < receipt.direct@.len() ==> (#[trigger] receipt.direct@[i]).0
                        == before.direct[id.0][i] && receipt.direct@[i].1 == completion.result
                &&& !final(handle)@.tags.contains_key(completion.tag.0)
                &&& !final(handle)@.pages.contains_key(id.0)
                &&& !final(handle)@.direct.contains_key(id.0)
                &&& final(handle)@.queue == before.queue
            }
            &&& old(later)@ == final(handle)@ ==> again is Err
        }),
{
}

/// A turn of the block service sends the front of the queue, in order, as it is: as
/// many transfers as the budget and the device allow and none that is held back. The
/// sent ones are gone from the queue and known by their tags.
pub proof fn law_a_turn_sends_the_front_of_the_queue(
    handle: &mut BlockSubmissionHandle,
    budget: usize,
    driven: BlockManagerDriven,
)
    requires
        call_ensures(BlockSubmissionHandle::drive, (handle, budget), driven),
        old(handle)@.next_tag + budget <= u64::MAX,
        forall|tag: u64| #[trigger]
            old(handle)@.tags.contains_key(tag) ==> tag < old(handle)@.next_tag,
    ensures
        ({
            let before = old(handle)@;
            let after = final(handle)@;
            let sent = driven.dispatches@;
            let count = sent.len() as int;
            &&& crate::block_meaning::may_go(before, budget, count)
            &&& !crate::block_meaning::may_go(before, budget, count + 1)
            &&& forall|i: int|
                0 <= i < count ==> {
                    &&& (#[trigger] sent[i]).plan == before.queue[i].plan
                    &&& sent[i].id == before.queue[i].id
                    &&& sent[i].tag.0 == before.next_tag + i
                    &&& after.tags.contains_key(sent[i].tag.0)
                    &&& after.tags[sent[i].tag.0] == sent[i].id
                }
            &&& after.queue.len() == before.queue.len() - count
            &&& forall|i: int|
                0 <= i < after.queue.len() ==> #[trigger] after.queue[i] == before.queue[i + count]
            &&& driven.next is Sleeping == (after.queue.len() == 0)
        }),
{
    let before = old(handle)@;
    let count = before.dispatch_count(budget);
    crate::block_meaning::law_a_turn_sends_what_may_go(before, budget, count as int + 1);
    crate::block_meaning::law_sent_transfers_are_at_the_device(before, count);
    assert forall|i: int| 0 <= i < count implies {
        &&& (#[trigger] driven.dispatches@[i]).tag.0 == before.next_tag + i
        &&& final(handle)@.tags.contains_key(driven.dispatches@[i].tag.0)
        &&& final(handle)@.tags[driven.dispatches@[i].tag.0] == driven.dispatches@[i].id
    } by {
        crate::block_meaning::law_the_device_gets_the_plan(before, count, i);
    }
}

/// A file has one container: the one that is alive, and else a new one of as many
/// pages as its size takes, and as many as are asked for at least.
pub proof fn law_a_file_gets_its_container(
    identities: &mut FileIdentities,
    mount: MountPin,
    object: FsObjectId,
    size: u64,
    minimum: u64,
    live: &Vec<bool>,
    key: Option<u64>,
    cap: FileCap,
)
    requires
        call_ensures(
            FileIdentities::find_or_create_file_cap,
            (identities, mount, object, size, minimum, live, key),
            cap,
        ),
    ensures
        cap matches FileCap::Created { key: given, container } ==> {
            &&& key == Some(given)
            &&& container@.page_count * 4096 >= size
            &&& container@.page_count >= minimum
            &&& container@.page_count > minimum ==> (container@.page_count - 1) * 4096 < size
            &&& container@.size_bytes == size
            &&& final(identities).entries@.len() > 0
            &&& final(identities).entries@.last().container == given
            &&& final(identities).entries@.last().mount_trace_id == mount.trace_id
            &&& final(identities).entries@.last().fs_object_id == object
        },
        cap matches FileCap::Existing(known) ==> exists|i: int|
            {
                &&& 0 <= i < final(identities).entries@.len()
                &&& #[trigger] is_of(final(identities).entries@, mount.trace_id, object, i)
                &&& final(identities).entries@[i].container == known
            },
        cap is Refused ==> key is None,
        cap !is Existing ==> forall|i: int|
            0 <= i < final(identities).entries@.len() - (if cap is Created {
                1int
            } else {
                0
            }) ==> !#[trigger] is_of(final(identities).entries@, mount.trace_id, object, i),
{
    let kept = crate::identity::alive(old(identities).entries@, live@);
    law_the_first_container_of_a_file_is_found(kept, mount.trace_id, object, 0);
    law_a_file_has_the_pages_that_hold_it(size);
    if cap is Created {
        assert forall|i: int| 0 <= i < kept.len() implies !#[trigger] is_of(
            final(identities).entries@,
            mount.trace_id,
            object,
            i,
        ) by {
            assert(!is_of(kept, mount.trace_id, object, i));
        }
    }
    if cap is Existing {
        let at = crate::identity::position(kept, mount.trace_id, object, 0)->Some_0 as int;
        assert(is_of(final(identities).entries@, mount.trace_id, object, at));
    }
}

/// The container of a file is retired by itself alone: another container that is
/// alive stays the file's. One that is dead is forgotten.
pub proof fn law_a_container_retires_itself_alone(
    identities: &mut FileIdentities,
    mount: MountPin,
    object: FsObjectId,
    container: u64,
    live: bool,
    retired: bool,
    i: int,
)
    requires
        call_ensures(
            FileIdentities::retire_file_identity,
            (identities, mount, object, container, live),
            retired,
        ),
        0 <= i < old(identities).entries@.len(),
        is_of(old(identities).entries@, mount.trace_id, object, i),
        forall|j: int|
            0 <= j < i ==> !#[trigger] is_of(
                old(identities).entries@,
                mount.trace_id,
                object,
                j,
            ),
    ensures
        ({
            let before = old(identities).entries@;
            let own = before[i].container == container;
            &&& retired == (live && own)
            &&& live && !own ==> final(identities).entries@ == before
            &&& !live || own ==> final(identities).entries@ == before.remove(i)
        }),
{
    let before = old(identities).entries@;
    law_the_first_container_of_a_file_is_found(before, mount.trace_id, object, 0);
}

/// What is flushed before a file is closed are its dirty pages. Where there were any
/// and all are written, the store is told the size last, and whatever it answers the
/// flush is done.
pub proof fn law_a_close_tells_the_size_after_its_pages(
    pc: &mut PageContainer,
    replies: &Vec<FsReply>,
    truncate: &FsReply,
    report: SyncReport,
)
    requires
        call_ensures(
            PageContainer::flush_dirty_pages_for_close_visibility,
            (pc, replies, truncate),
            report,
        ),
        old(pc)@.kind is File,
    ensures
        ({
            let flush = old(pc)@.flush_dirty(replies@);
            let wrote = flush.outcome is Done && flush.outcome->Done_0 > 0;
            &&& report.outcome is Done == flush.outcome is Done
            &&& flush.outcome matches StepOutcome::Error(errno) ==> report.outcome
                == StepOutcome::<(), PageProgress>::Error(errno)
            &&& wrote ==> {
                &&& report.calls@.len() == flush.calls.len() + 1
                &&& report.calls@.drop_last() =~= flush.calls
                &&& report.calls@.last() == (FsCall::Truncate {
                    object: old(pc)@.kind->fs_object_id,
                    size: final(pc)@.size_bytes,
                })
                &&& truncate is Done ==> final(pc)@.stored_size == Some(final(pc)@.size_bytes)
                    && !final(pc)@.eof_pending
                &&& truncate !is Done ==> final(pc)@ == flush.view
            }
            &&& !wrote ==> report.calls@ == flush.calls && final(pc)@ == flush.view
        }),
{
    crate::lifecycle::lemma_flush_keeps_kind(
        old(pc)@,
        old(pc)@.flush_list(),
        replies@,
        0,
        0,
        Seq::empty(),
    );
}

/// The exact size is told to the store where it is not known to have it, and else
/// nothing is asked. Once told, it is known.
pub proof fn law_the_exact_size_is_told_once(
    pc: &mut PageContainer,
    reply: &FsReply,
    report: SyncReport,
)
    requires
        call_ensures(
            PageContainer::publish_exact_size_for_close_visibility,
            (pc, reply),
            report,
        ),
        old(pc)@.kind is File,
    ensures
        old(pc)@.stored_size == Some(old(pc)@.size_bytes) ==> {
            &&& report.calls@.len() == 0
            &&& report.outcome is Done
            &&& final(pc)@ == old(pc)@
        },
        old(pc)@.stored_size != Some(old(pc)@.size_bytes) ==> {
            &&& report.calls@ =~= seq![
                FsCall::Truncate {
                    object: old(pc)@.kind->fs_object_id,
                    size: old(pc)@.size_bytes,
                },
            ]
            &&& report.outcome is Done == reply is Done
            &&& reply is Done ==> final(pc)@.stored_size == Some(old(pc)@.size_bytes)
                && !final(pc)@.eof_pending
            &&& reply !is Done ==> final(pc)@ == old(pc)@
        },
{
}

/// An fsync that is done without a planner has had its last call, the sync of the
/// file, done.
pub proof fn law_a_done_fsync_has_synced(
    op: &mut FsyncOp,
    pc: &mut PageContainer,
    batch_pins: &Vec<Grant>,
    page_pins: &Vec<Grant>,
    replies: &FsyncReplies,
    report: SyncReport,
)
    requires
        call_ensures(FsyncOp::step, (op, pc, batch_pins, page_pins, replies), report),
        old(pc)@.kind is File,
        report.outcome is Done,
    ensures
        report.calls@.len() > 0,
        report.calls@.last() == (FsCall::SyncFile { object: old(pc)@.kind->fs_object_id }),
        replies.sync is Done,
{
    crate::lifecycle::lemma_flush_keeps_kind(
        old(pc)@,
        old(pc)@.flush_list(),
        replies.flushes@,
        0,
        0,
        Seq::empty(),
    );
}

/// An observer is told of an error that was recorded since it looked last, and not
/// again unless another one is recorded.
pub proof fn law_a_recorded_error_is_observed_once(
    errors: &mut ErrorSeq,
    errno: Errno,
    look: &ErrorSeq,
    cursor: &mut ErrorCursor,
    told: Option<Errno>,
    next: &mut ErrorCursor,
    then: Option<Errno>,
)
    requires
        call_ensures(ErrorSeq::record, (errors, errno), ()),
        call_ensures(ErrorSeq::observe, (look, cursor), told),
        call_ensures(ErrorSeq::observe, (look, next), then),
    ensures
        *look == *final(errors) && old(cursor).observed == old(errors).sequence ==> told == Some(
            errno,
        ),
        *old(next) == *final(cursor) ==> then is None,
{
}

/// The result of a direct transfer can be taken once.
pub proof fn law_a_direct_result_is_taken_once(
    pc: &mut PageContainer,
    submission: &DirectIoWaitableSubmission,
    taken: Option<Result<DirectIoCompletion, DirectIoCompletionError>>,
    later: &mut PageContainer,
    again: Option<Result<DirectIoCompletion, DirectIoCompletionError>>,
)
    requires
        call_ensures(PageContainer::take_file_direct_submission_result, (pc, submission), taken),
        call_ensures(PageContainer::take_file_direct_submission_result, (later, submission), again),
    ensures
        ({
            let lease = submission.submission.lease.0;
            let done = old(pc)@.direct_done;
            &&& taken is Some == done.contains_key(lease)
            &&& taken matches Some(result) ==> result == done[lease].result
            &&& final(pc)@.direct_done =~= done.remove(lease)
            &&& final(pc)@.direct == old(pc)@.direct
            &&& final(pc)@.pages == old(pc)@.pages
            &&& old(later)@ == final(pc)@ ==> again is None
        }),
{
}

/// A cached page is exchanged exactly where it lies in the named frame, and its old
/// entry comes out; nothing else changes. A refusal names the frame it lies in.
pub proof fn law_a_cached_page_is_exchanged_by_its_frame(
    index: &mut PageCacheIndex,
    page: PageIndex,
    expected: Ppn,
    replacement: Option<PageCacheEntry>,
    result: Result<PageCacheEntry, PageCacheError>,
)
    requires
        call_ensures(PageCacheIndex::compare_replace, (index, page, expected, replacement), result),
    ensures
        ({
            let before = old(index)@;
            let after = final(index)@;
            let there = before.contains_key(page.0);
            &&& result is Ok == (there && before[page.0].ppn == expected)
            &&& result matches Ok(entry) ==> {
                &&& entry == before[page.0]
                &&& after.contains_key(page.0) == replacement is Some
                &&& replacement matches Some(new) ==> after[page.0] == new
                &&& after.remove(page.0) =~= before.remove(page.0)
            }
            &&& result is Err ==> after == before
            &&& result matches Err(PageCacheError::MismatchedFrame { current }) ==> there && current
                == before[page.0].ppn
            &&& (result matches Err(PageCacheError::MissingPage)) == !there
        }),
{
}

/// The page after one that was written starts a page further on; a page that was not
/// written, or that is the last there can be, ends the run.
pub proof fn law_pages_of_a_run_follow_one_another(
    offset: u64,
    reply: FsReply,
    next: Result<u64, FsReply>,
)
    requires
        call_ensures(after_flush, (offset, reply), next),
    ensures
        next is Ok == (reply is Done && offset + 4096 <= u64::MAX),
        next matches Ok(at) ==> at == offset + 4096,
        reply !is Done ==> next == Err::<u64, FsReply>(reply),
        reply is Done && next is Err ==> next->Err_0 == StepOutcome::<
            (),
            crate::step::NoProgress,
        >::Error(Errno::EINVAL),
{
}

/// A frame of the allocator is cached where it is reserved and pinned; the first
/// refusal is told.
pub proof fn law_an_allocated_frame_is_pinned(
    reserved: Result<Ppn, AllocError>,
    pinned: Grant,
    frame: Result<CachedFrame, PageCacheError>,
)
    requires
        call_ensures(crate::frame::allocate_cached_frame, (reserved, pinned), frame),
    ensures
        frame is Ok == (reserved is Ok && pinned is Ok),
        frame matches Ok(cached) ==> cached.ppn == reserved->Ok_0 && cached.pin
            == PageCachePin::Allocated(CachePin { ppn: cached.ppn }),
        frame matches Err(error) ==> error == PageCacheError::Alloc(
            if reserved is Err {
                reserved->Err_0
            } else {
                pinned->Err_0
            },
        ),
{
}

} // verus!
