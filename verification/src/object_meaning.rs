//! What files and user buffers come to in pages: how many a size takes, which
//! container is a file's, where the bytes of a buffer lie, and what a selection of
//! cached pages holds.

use crate::container::{ContainerView, MountPin, PageContainerKind};
use crate::direct_io::{
    buffer_range, buffer_vecs, pin_error, DirectIoBufferError, UserAccessKind, UserPageSnapshot,
};
use crate::frame::{CachedFrame, Grant, PageCacheError, PageLease};
use crate::fs_page_backing::replayed;
use crate::identity::{alive, file_pages, max_pages, position, FilePageContainerIdentity};
use crate::ids::{Errno, FsObjectId, PageIndex};
use crate::lease::whole_page_vecs;
use crate::lifecycle::FsReply;
use crate::page_cache::{
    installed_if_absent, lemma_selected, lemma_selected_increasing, selected, PageCacheEntry,
    PageCacheMark, PageMarks,
};
use crate::sparse_index::increasing;
use crate::step::StepOutcome;
use vstd::prelude::*;

verus! {

/// A file has as many pages as hold its bytes, and no more.
pub proof fn law_a_file_has_the_pages_that_hold_it(size: u64)
    ensures
        file_pages(size) * 4096 >= size,
        size > 0 ==> (file_pages(size) - 1) * 4096 < size,
        size == 0 ==> file_pages(size) == 0,
{
}

/// The larger of two numbers of pages is one of them and no smaller than either.
pub proof fn law_the_larger_number_of_pages_is_taken(a: u64, b: u64)
    ensures
        max_pages(a, b) >= a,
        max_pages(a, b) >= b,
        max_pages(a, b) == a || max_pages(a, b) == b,
{
}

/// A new container of a file knows the size and that it is stored, and holds
/// nothing: no page, no request, no reservation, no transfer.
pub proof fn law_a_new_file_container_holds_nothing(
    view: ContainerView,
    mount: MountPin,
    object: FsObjectId,
    size: u64,
    page_count: u64,
)
    requires
        view.fresh_file(mount, object, size, page_count),
    ensures
        view.kind == (PageContainerKind::File { mount, fs_object_id: object }),
        view.page_count == page_count,
        view.size_bytes == size,
        view.stored_size == Some(size),
        !view.eof_pending,
        view.pages == Map::<u64, PageCacheEntry>::empty(),
        view.root.dom() =~= Set::empty(),
        view.slots.dom() =~= Set::empty(),
        view.fetches.dom() =~= Set::empty(),
        view.fsyncs.dom() =~= Set::empty(),
        view.direct.dom() =~= Set::empty(),
        view.direct_done.dom() =~= Set::empty(),
        view.waits.dom() =~= Set::empty(),
        view.reservations.len() == 0,
        view.direct_active == 0,
        view.sequence == 0,
        view.next_reservation == 1,
        view.next_fetch == 1,
        view.submission.rows.dom() =~= Set::empty(),
        view.submission.owners.dom() =~= Set::empty(),
        view.submission.waiters.dom() =~= Set::empty(),
        view.submission.next_id == 1,
        view.submission.capacity == 1024,
        view.block.max_pending == 1024,
        view.block.depth == 16,
        view.block.queue.len() == 0,
        view.block.tags.dom() =~= Set::empty(),
        view.block.next_id == 1,
        view.block.next_tag == 1,
{
}

/// Whether place `i` of `entries` names the object in the mount.
pub open spec fn is_of(
    entries: Seq<FilePageContainerIdentity>,
    mount: u64,
    object: FsObjectId,
    i: int,
) -> bool {
    entries[i].mount_trace_id == mount && entries[i].fs_object_id == object
}

/// The container of a file is the first that is named for its object in its mount;
/// where none is named there is none.
pub proof fn law_the_first_container_of_a_file_is_found(
    entries: Seq<FilePageContainerIdentity>,
    mount: u64,
    object: FsObjectId,
    from: nat,
)
    ensures
        match position(entries, mount, object, from) {
            Some(at) => {
                &&& from <= at < entries.len()
                &&& is_of(entries, mount, object, at as int)
                &&& forall|i: int| from <= i < at ==> !#[trigger] is_of(entries, mount, object, i)
            },
            None => forall|i: int|
                from <= i < entries.len() ==> !#[trigger] is_of(entries, mount, object, i),
        },
    decreases entries.len() - from,
{
    if from < entries.len() {
        law_the_first_container_of_a_file_is_found(entries, mount, object, from + 1);
        assert(is_of(entries, mount, object, from as int) == entries[from as int].names(
            mount,
            object,
        ));
    }
}

/// Of the known containers those that are alive are kept, in order, and no others.
pub proof fn law_live_containers_are_kept(
    entries: Seq<FilePageContainerIdentity>,
    live: Seq<bool>,
    i: int,
)
    requires
        0 <= i < entries.len(),
    ensures
        ({
            let kept = alive(entries, live);
            let before = alive(entries.take(i), live);
            let with = alive(entries.take(i + 1), live);
            &&& i < live.len() && live[i] ==> {
                &&& kept.contains(entries[i])
                &&& with.len() == before.len() + 1
                &&& with.last() == entries[i]
                &&& with.drop_last() =~= before
            }
            &&& !(i < live.len() && live[i]) ==> with == before
            &&& kept.len() <= entries.len()
        }),
        alive(Seq::empty(), live).len() == 0,
    decreases entries.len(),
{
    assert(entries.take(i + 1).drop_last() =~= entries.take(i));
    let init = entries.drop_last();
    if i < init.len() {
        law_live_containers_are_kept(init, live, i);
        assert(init.take(i) =~= entries.take(i));
        assert(init.take(i + 1) =~= entries.take(i + 1));
        let kept = alive(entries, live);
        let rest = alive(init, live);
        if i < live.len() && live[i] {
            let at = rest.index_of(entries[i]);
            assert(kept[at] == entries[i]);
        }
    } else {
        assert(entries.take(i + 1) =~= entries);
        assert(entries.take(i) =~= init);
        let kept = alive(entries, live);
        if i < live.len() && live[i] {
            assert(kept[kept.len() - 1] == entries[i]);
        }
        lemma_alive_len(init, live);
    }
}

proof fn lemma_alive_len(entries: Seq<FilePageContainerIdentity>, live: Seq<bool>)
    ensures
        alive(entries, live).len() <= entries.len(),
    decreases entries.len(),
{
    if entries.len() > 0 {
        lemma_alive_len(entries.drop_last(), live);
    }
}

/// Pages written one by one are done when each is; the first that is not done is
/// the answer, and nothing behind it is asked for. A run that would go beyond the
/// last offset is refused there.
pub proof fn law_a_run_of_pages_is_written_in_order(
    offset: u64,
    count: nat,
    replies: Seq<FsReply>,
    from: nat,
    stop: nat,
)
    requires
        from <= stop <= count,
        stop <= replies.len(),
        forall|i: int| from <= i < stop ==> (#[trigger] replies[i]) is Done,
        offset + (stop - from) * 4096 <= u64::MAX,
    ensures
        stop == count ==> replayed(offset, count, replies, from) == Some(
            StepOutcome::<(), crate::step::NoProgress>::Done(()),
        ),
        stop < count && stop < replies.len() && replies[stop as int] !is Done ==> replayed(
            offset,
            count,
            replies,
            from,
        ) == Some(replies[stop as int]),
        stop < count && stop < replies.len() && replies[stop as int] is Done && offset + (stop
            - from + 1) * 4096 > u64::MAX ==> replayed(offset, count, replies, from) == Some(
            StepOutcome::<(), crate::step::NoProgress>::Error(Errno::EINVAL),
        ),
        stop < count && stop == replies.len() ==> replayed(offset, count, replies, from) is None,
    decreases stop - from,
{
    if from < stop {
        assert(replies[from as int] is Done);
        assert(offset + 4096 <= u64::MAX) by {
            assert((stop - from) * 4096 >= 4096);
        }
        law_a_run_of_pages_is_written_in_order(
            (offset + 4096) as u64,
            count,
            replies,
            from + 1,
            stop,
        );
    }
}

/// Every byte of a user buffer is in one segment: that of the page in which its
/// address lies, at its place in that page. No segment holds a byte beside the
/// buffer.
pub proof fn law_every_byte_of_a_buffer_has_its_place(
    addr: usize,
    len: usize,
    pages: Seq<UserPageSnapshot>,
    i: int,
    b: int,
)
    requires
        addr > 0,
        len > 0,
        addr + len + 4095 <= usize::MAX,
        pages.len() * 4096 == buffer_range(addr, len).len,
        0 <= i < pages.len(),
        0 <= b < 4096,
    ensures
        ({
            let range = buffer_range(addr, len);
            let vec = buffer_vecs(pages, (addr % 4096) as int, len as int)[i];
            let at = range.start + i * 4096 + b;
            &&& range.start % 4096 == 0
            &&& range.start <= addr
            &&& addr + len <= range.start + range.len
            &&& vec.frame == pages[i].ppn.0
            &&& (vec.offset <= b < vec.offset + vec.len) == (addr <= at < addr + len)
        }),
        buffer_vecs(pages, (addr % 4096) as int, len as int).len() == pages.len(),
{
    let range = buffer_range(addr, len);
    let first = (addr % 4096) as int;
    assert(range.start == addr - first);
    let end = addr + len + 4095;
    assert(range.start + range.len == end - end % 4096);
    let at = range.start + i * 4096 + b;
    let segment = crate::direct_io::segment_len(first, len as int, i);
    assert(i * 4096 + 4096 <= range.len) by {
        assert((i + 1) * 4096 <= pages.len() * 4096) by (nonlinear_arith)
            requires
                i + 1 <= pages.len(),
        ;
    }
    assert(0 <= segment <= 4096);
    assert(pages[i].ppn.0 as u64 == pages[i].ppn.0);
}

/// Whether `i` is the first of the pins that is refused.
pub open spec fn first_refused(dma: Seq<Grant>, i: int) -> bool {
    &&& 0 <= i < dma.len()
    &&& dma[i] is Err
    &&& forall|j: int| 0 <= j < i ==> (#[trigger] dma[j]) is Ok
}

/// A buffer is pinned exactly where it has an address, a length and an end, all its
/// pages are there and allow the access, and every pin is granted. Else the first of
/// these that fails is told.
pub proof fn law_a_buffer_is_pinned_where_all_its_pages_can_be(
    addr: usize,
    len: usize,
    access: UserAccessKind,
    pages: Seq<UserPageSnapshot>,
    dma: Seq<Grant>,
)
    requires
        dma.len() == pages.len(),
    ensures
        ({
            let error = pin_error(addr, len, access, pages, dma);
            let proper = addr != 0 && len != 0 && addr + len + 4095 <= usize::MAX;
            let there = proper && pages.len() == buffer_range(addr, len).len / 4096;
            let allowed = forall|i: int|
                0 <= i < pages.len() ==> match access {
                    UserAccessKind::Read => (#[trigger] pages[i]).readable,
                    UserAccessKind::Write => pages[i].writable,
                };
            let granted = forall|i: int| 0 <= i < dma.len() ==> (#[trigger] dma[i]) is Ok;
            &&& error is None == (there && allowed && granted)
            &&& (error matches Some(DirectIoBufferError::InvalidRange)) == !proper
            &&& (error matches Some(DirectIoBufferError::NotMaterialized)) == (proper && !there)
            &&& (error matches Some(DirectIoBufferError::PermissionDenied)) == (there && !allowed)
            &&& error matches Some(DirectIoBufferError::DmaPin(refused)) ==> exists|i: int|
                #[trigger] first_refused(dma, i) && dma[i]->Err_0 == refused
        }),
{
    assert(dma.take(pages.len() as int) =~= dma);
    let allowed = forall|i: int|
        0 <= i < pages.len() ==> match access {
            UserAccessKind::Read => (#[trigger] pages[i]).readable,
            UserAccessKind::Write => pages[i].writable,
        };
    assert(allowed == !(exists|i: int|
        0 <= i < pages.len() && !(#[trigger] pages[i]).permits(access))) by {
        assert forall|i: int| 0 <= i < pages.len() implies (#[trigger] pages[i]).permits(access)
            == match access {
            UserAccessKind::Read => pages[i].readable,
            UserAccessKind::Write => pages[i].writable,
        } by {}
    }
    if exists|i: int| 0 <= i < dma.len() && (#[trigger] dma[i]) is Err {
        let i = choose|i: int| 0 <= i < dma.len() && (#[trigger] dma[i]) is Err;
        lemma_first_refused(dma, i);
        let first = choose|j: int| first_refused(dma, j);
        assert(crate::direct_io::first_refusal(dma, first));
        let told = choose|j: int| crate::direct_io::first_refusal(dma, j);
        assert(first_refused(dma, told));
    }
}

proof fn lemma_first_refused(dma: Seq<Grant>, i: int)
    requires
        0 <= i < dma.len(),
        dma[i] is Err,
    ensures
        exists|j: int| first_refused(dma, j),
    decreases i,
{
    if forall|j: int| 0 <= j < i ==> (#[trigger] dma[j]) is Ok {
        assert(first_refused(dma, i));
    } else {
        let j = choose|j: int| 0 <= j < i && (#[trigger] dma[j]) is Err;
        lemma_first_refused(dma, j);
    }
}

/// A lease of several pages is transferred page by page, each frame as a whole and
/// in the order of the lease.
pub proof fn law_leased_frames_are_transferred_whole(pages: Seq<PageLease>, i: int)
    requires
        0 <= i < pages.len(),
    ensures
        whole_page_vecs(pages).len() == pages.len(),
        whole_page_vecs(pages)[i].frame == pages[i].ppn.0,
        whole_page_vecs(pages)[i].offset == 0,
        whole_page_vecs(pages)[i].len == 4096,
{
    assert(pages[i].ppn.0 as u64 == pages[i].ppn.0);
}

/// A frame is cached where the page is absent, newly referenced and with no other
/// mark; a page that is there keeps its frame, which the refusal names.
pub proof fn law_an_absent_page_takes_the_frame(
    index: Map<u64, PageCacheEntry>,
    page: PageIndex,
    frame: CachedFrame,
)
    ensures
        ({
            let (after, result) = installed_if_absent(index, page, frame);
            if index.contains_key(page.0) {
                &&& after == index
                &&& result matches Err(PageCacheError::AlreadyPresent { current }) && current
                    == index[page.0].ppn
            } else {
                &&& result is Ok
                &&& after.contains_key(page.0)
                &&& after[page.0].ppn == frame.ppn
                &&& after[page.0].pin == frame.pin
                &&& after[page.0].marks.referenced
                &&& !after[page.0].marks.dirty
                &&& !after[page.0].marks.writeback
                &&& !after[page.0].marks.no_reclaim
                &&& after.remove(page.0) =~= index.remove(page.0)
            }
        }),
{
}

/// A mark that is set is read back, and no other mark changes; nor does the frame.
pub proof fn law_marks_are_kept_apart(
    entry: PageCacheEntry,
    mark: PageCacheMark,
    other: PageCacheMark,
    value: bool,
)
    ensures
        entry.marked(mark, value).marks.has(mark) == value,
        mark != other ==> entry.marked(mark, value).marks.has(other) == entry.marks.has(other),
        entry.marked(mark, value).ppn == entry.ppn,
        entry.marked(mark, value).pin == entry.pin,
        !PageMarks::none().has(mark),
        entry.marks.has(PageCacheMark::Referenced) == entry.marks.referenced,
        entry.marks.has(PageCacheMark::NoReclaim) == entry.marks.no_reclaim,
{
}

/// A selection of cached pages names each page that qualifies once, in order, in
/// its frame, and names no other.
pub proof fn law_a_selection_names_the_pages_that_qualify(
    keys: Seq<u64>,
    pages: Map<u64, PageCacheEntry>,
    keep: spec_fn(u64) -> bool,
    k: u64,
)
    requires
        increasing(keys),
    ensures
        ({
            let items = selected(keys, pages, keep);
            &&& (keys.contains(k) && keep(k)) == exists|i: int|
                0 <= i < items.len() && (#[trigger] items[i]).0.0 == k
            &&& forall|i: int|
                0 <= i < items.len() ==> (#[trigger] items[i]).1 == pages[items[i].0.0].ppn
            &&& forall|i: int, j: int|
                0 <= i < j < items.len() ==> (#[trigger] items[i]).0.0 < (
                #[trigger] items[j]).0.0
        }),
{
    lemma_selected(keys, pages, keep);
    lemma_selected_increasing(keys, pages, keep);
    let items = selected(keys, pages, keep);
    if keys.contains(k) && keep(k) {
        let item = (PageIndex(k), pages[k].ppn);
        assert(items.contains(item));
        let i = items.index_of(item);
        assert(items[i].0.0 == k);
    }
}

} // verus!
