//! What size changes and fsyncs do, said of bytes and pages.

use crate::container::{ContainerView, PageContainer};
use crate::ids::{Errno, FsObjectId, PageIndex, PageIoRequestId, PAGE_BYTES};
use crate::lifecycle::{lemma_retired_fetches, DirtyPage, FsCall, FsReply, ZeroTail};
use crate::slot::PageSlotState;
use crate::sparse_index::{ascending, lemma_picked};
use crate::step::{PageProgress, StepOutcome, YieldShape};
use vstd::prelude::*;

verus! {

/// Whether the container can have `size` bytes: it is no device, and they fit
/// its pages.
pub open spec fn can_have(view: ContainerView, size: u64) -> bool {
    &&& view.kind !is Device
    &&& view.page_count * PAGE_BYTES <= u64::MAX
    &&& size <= view.page_count * PAGE_BYTES
}

/// How a step ends that a filesystem call stops after `pages` pages.
pub open spec fn call_stops(reply: FsReply, pages: int) -> StepOutcome<(), PageProgress> {
    match reply {
        StepOutcome::Done(()) => StepOutcome::Done(()),
        StepOutcome::Continue { .. } => StepOutcome::Continue {
            progress: PageProgress(pages as u32),
        },
        StepOutcome::Yield { shape: YieldShape::OnWaitSource { source, interests }, .. } => {
            StepOutcome::Yield {
                progress: PageProgress(pages as u32),
                shape: YieldShape::OnWaitSource { source, interests },
            }
        },
        StepOutcome::Yield { .. } => StepOutcome::Error(Errno::EIO),
        StepOutcome::Error(errno) => StepOutcome::Error(errno),
    }
}

/// A size that the container cannot have is refused. For a file so is one that
/// the filesystem refuses or makes wait, with its own reason. Nothing changes.
pub proof fn law_a_refused_truncation_leaves_no_trace(
    view: ContainerView,
    size: u64,
    reply: FsReply,
    retire: bool,
)
    requires
        !can_have(view, size) || (view.kind is File && (reply is Yield || reply is Error)),
    ensures
        ({
            let resize = view.truncate_step(size, reply, retire);
            &&& resize.view == view
            &&& resize.zero_tail is None
            &&& resize.notify.len() == 0
            &&& !resize.pending
            &&& resize.outcome == if !can_have(view, size) {
                StepOutcome::<(), PageProgress>::Error(Errno::EINVAL)
            } else {
                call_stops(reply, 0)
            }
        }),
{
}

/// Whether the filesystem agrees to a truncation, as far as it is asked.
pub open spec fn agreed(view: ContainerView, reply: FsReply) -> bool {
    view.kind is File ==> reply is Done || reply is Continue
}

/// The outcome of a truncation that goes through: a filesystem that wants to be
/// called again is passed on.
pub open spec fn gone_through(view: ContainerView, reply: FsReply) -> StepOutcome<
    (),
    PageProgress,
> {
    if view.kind is File && reply is Continue {
        StepOutcome::Continue { progress: PageProgress(0) }
    } else {
        StepOutcome::Done(())
    }
}

/// Whether the size is known to be stored, or not, as the filesystem said.
pub open spec fn store_knows(
    after: ContainerView,
    before: ContainerView,
    size: u64,
    reply: FsReply,
) -> bool {
    if before.kind !is File {
        after.stored_size == before.stored_size && after.eof_pending == before.eof_pending
    } else if reply is Done {
        after.stored_size == Some(size) && !after.eof_pending
    } else {
        after.stored_size is None && after.eof_pending == before.eof_pending
    }
}

/// A truncation to the same size or a larger one sets the size and touches no
/// page.
pub proof fn law_a_growing_truncation_sets_the_size(
    view: ContainerView,
    size: u64,
    reply: FsReply,
    retire: bool,
)
    requires
        can_have(view, size),
        agreed(view, reply),
        size >= view.size_bytes,
    ensures
        ({
            let resize = view.truncate_step(size, reply, retire);
            &&& resize.outcome == gone_through(view, reply)
            &&& resize.zero_tail is None
            &&& resize.notify.len() == 0
            &&& !resize.pending
            &&& store_knows(resize.view, view, size, reply)
            &&& resize.view == (ContainerView {
                size_bytes: size,
                stored_size: resize.view.stored_size,
                eof_pending: resize.view.eof_pending,
                ..view
            })
        }),
{
}

/// Whether `view` has a page cached all of whose bytes lie beyond `size`.
pub open spec fn caches_beyond(view: ContainerView, size: u64) -> bool {
    exists|k: u64| #[trigger] view.pages.contains_key(k) && k * PAGE_BYTES >= size
}

/// What has to be cleared when a container is cut to `size` bytes: the rest of
/// the page that the last byte lies in, if `size` ends within a page and that
/// page is cached.
pub open spec fn rest_of_last_page(view: ContainerView, size: u64) -> Option<ZeroTail> {
    let last = (size as int / (PAGE_BYTES as int)) as u64;
    let within = size as int % (PAGE_BYTES as int);
    if within != 0 && view.pages.contains_key(last) {
        Some(
            ZeroTail {
                ppn: view.pages[last].ppn,
                offset: within as usize,
                len: (PAGE_BYTES - within) as usize,
            },
        )
    } else {
        None
    }
}

proof fn lemma_withdrawn(view: ContainerView, size: u64, retire: bool)
    requires
        view.consistent(),
        !caches_beyond(view, size) || (retire && view.sequence % 2 == 0),
    ensures
        ({
            let first = PageIndex(crate::lifecycle::pages_for(size) as u64);
            let (withdrawn, done) = view.withdraw_from(first, retire);
            &&& first.0 == crate::lifecycle::pages_for(size)
            &&& forall|k: u64| k >= first.0 <==> #[trigger] (k * PAGE_BYTES) >= size
            &&& done
            &&& forall|k: u64| #[trigger]
                withdrawn.pages.contains_key(k) <==> view.pages.contains_key(k) && k < first.0
            &&& forall|k: u64| #[trigger]
                withdrawn.pages.contains_key(k) ==> withdrawn.pages[k] == view.pages[k]
            &&& forall|k: u64| #[trigger]
                withdrawn.root.contains_key(k) <==> view.root.contains_key(k) && k < first.0
            &&& forall|k: u64| #[trigger]
                withdrawn.root.contains_key(k) ==> withdrawn.root[k] == view.root[k]
            &&& forall|k: u64| #[trigger]
                withdrawn.slots.contains_key(k) <==> view.slots.contains_key(k)
            &&& forall|k: u64| #[trigger]
                withdrawn.slots.contains_key(k) ==> {
                    if k >= first.0 && view.pages.contains_key(k) {
                        withdrawn.slots[k].inner.state is Empty
                    } else {
                        withdrawn.slots[k] == view.slots[k]
                    }
                }
            &&& withdrawn == (ContainerView {
                pages: withdrawn.pages,
                root: withdrawn.root,
                slots: withdrawn.slots,
                sequence: withdrawn.sequence,
                ..view
            })
        }),
{
    let first = PageIndex(crate::lifecycle::pages_for(size) as u64);
    assert forall|k: u64| k >= first.0 <==> #[trigger] (k * PAGE_BYTES) >= size by {}
    let set = view.cached_from(first);
    if set == Set::<u64>::empty() {
        assert forall|k: u64| #[trigger] view.pages.contains_key(k) implies k < first.0 by {
            if k >= first.0 {
                assert(set.contains(k));
            }
        }
    } else {
        assert(exists|k: u64| set.contains(k)) by {
            if forall|k: u64| !set.contains(k) {
                assert(set =~= Set::<u64>::empty());
            }
        }
        let k = choose|k: u64| set.contains(k);
        assert(view.pages.contains_key(k) && k * PAGE_BYTES >= size);
        assert(caches_beyond(view, size));
    }
}

/// Whether `pages` are pages being fetched, none named twice.
pub open spec fn fetched_once(view: ContainerView, pages: Seq<u64>) -> bool {
    &&& forall|i: int| 0 <= i < pages.len() ==> view.fetches.contains_key(#[trigger] pages[i])
    &&& pages.no_duplicates()
}

/// Whether the fetch of page `k` has somebody waiting for it, at the wait source
/// of the page.
pub open spec fn is_waited_for(view: ContainerView, k: u64) -> bool {
    &&& view.fetches.contains_key(k)
    &&& view.fetches[k].request_id matches Some(id)
    &&& view.submission.waiters.contains_key(id.0)
    &&& view.submission.waiters[id.0].len() > 0
    &&& view.waits.contains_key(k)
}

/// Whether `source` is the wait source of one of `pages`.
pub open spec fn source_of_one(view: ContainerView, pages: Seq<u64>, source: u64) -> bool {
    exists|i: int|
        0 <= i < pages.len() && view.waits.contains_key(#[trigger] pages[i])
            && view.waits[pages[i]] == source
}

/// Whether `source` is the wait source of a page being fetched all of whose
/// bytes lie beyond `size`.
pub open spec fn source_beyond(view: ContainerView, size: u64, source: u64) -> bool {
    exists|k: u64|
        (#[trigger] view.fetches.contains_key(k)) && k * PAGE_BYTES >= size
            && view.waits.contains_key(k) && view.waits[k] == source
}

/// Whether no two fetches share a request.
pub open spec fn requests_differ(view: ContainerView) -> bool {
    forall|a: u64, b: u64|
        a != b && #[trigger] view.fetches.contains_key(a) && #[trigger] view.fetches.contains_key(b)
            && view.fetches[a].request_id is Some ==> view.fetches[a].request_id
            != view.fetches[b].request_id
}

proof fn lemma_kept_fetches(view: ContainerView, pages: Seq<u64>)
    requires
        fetched_once(view, pages),
    ensures
        ({
            let done = view.retire_fetches(pages).0;
            &&& forall|k: u64| #[trigger]
                done.fetches.contains_key(k) <==> view.fetches.contains_key(k) && !pages.contains(k)
            &&& forall|k: u64| #[trigger]
                done.fetches.contains_key(k) ==> done.fetches[k] == view.fetches[k]
            &&& done.waits == view.waits
            &&& forall|id: u64| #[trigger]
                done.submission.waiters.contains_key(id) ==> view.submission.waiters.contains_key(
                    id,
                ) && done.submission.waiters[id] == view.submission.waiters[id]
            &&& forall|id: u64|
                #![trigger view.submission.waiters.contains_key(id)]
                view.submission.waiters.contains_key(id) && !done.submission.waiters.contains_key(
                    id,
                ) ==> exists|i: int|
                    0 <= i < pages.len() && view.fetches[#[trigger] pages[i]].request_id == Some(
                        PageIoRequestId(id),
                    )
        }),
    decreases pages.len(),
{
    if pages.len() > 0 {
        let init = pages.drop_last();
        let last = pages.last();
        assert(fetched_once(view, init)) by {
            assert forall|i: int| 0 <= i < init.len() implies view.fetches.contains_key(
                #[trigger] init[i],
            ) by {
                assert(pages[i] == init[i]);
            }
            assert forall|i: int, j: int|
                0 <= i < init.len() && 0 <= j < init.len() && i != j implies init[i]
                != init[j] by {
                assert(pages[i] != pages[j]);
            }
        }
        lemma_kept_fetches(view, init);
        lemma_retired_fetches(view, pages);
        let rest = view.retire_fetches(init).0;
        let done = view.retire_fetches(pages).0;
        assert(!init.contains(last)) by {
            if init.contains(last) {
                let i = init.index_of(last);
                assert(pages[i] != pages[pages.len() - 1]);
            }
        }
        assert(view.fetches.contains_key(pages[pages.len() - 1]));
        assert(rest.fetches.contains_key(last));
        assert(rest.fetches[last] == view.fetches[last]);
        assert forall|id: u64|
            #![trigger view.submission.waiters.contains_key(id)]
            view.submission.waiters.contains_key(id) && !done.submission.waiters.contains_key(
                id,
            ) implies exists|i: int|
            0 <= i < pages.len() && view.fetches[#[trigger] pages[i]].request_id == Some(
                PageIoRequestId(id),
            ) by {
            if rest.submission.waiters.contains_key(id) {
                assert(view.fetches[pages[pages.len() - 1]].request_id == Some(
                    PageIoRequestId(id),
                ));
            } else {
                let i = choose|i: int|
                    0 <= i < init.len() && view.fetches[#[trigger] init[i]].request_id == Some(
                        PageIoRequestId(id),
                    );
                assert(view.fetches[pages[i]].request_id == Some(PageIoRequestId(id)));
            }
        }
    }
}

proof fn lemma_notices(view: ContainerView, pages: Seq<u64>)
    requires
        fetched_once(view, pages),
    ensures
        ({
            let notices = view.retire_fetches(pages).1;
            &&& forall|j: int|
                0 <= j < notices.len() ==> source_of_one(view, pages, #[trigger] notices[j])
            &&& requests_differ(view) ==> forall|i: int|
                0 <= i < pages.len() && is_waited_for(view, #[trigger] pages[i])
                    ==> notices.contains(view.waits[pages[i]])
        }),
    decreases pages.len(),
{
    if pages.len() > 0 {
        let init = pages.drop_last();
        let last = pages.last();
        let top = pages.len() - 1;
        assert(fetched_once(view, init)) by {
            assert forall|i: int| 0 <= i < init.len() implies view.fetches.contains_key(
                #[trigger] init[i],
            ) by {
                assert(pages[i] == init[i]);
            }
            assert forall|i: int, j: int|
                0 <= i < init.len() && 0 <= j < init.len() && i != j implies init[i]
                != init[j] by {
                assert(pages[i] != pages[j]);
            }
        }
        lemma_notices(view, init);
        lemma_kept_fetches(view, init);
        let (rest, before) = view.retire_fetches(init);
        let notices = view.retire_fetches(pages).1;
        assert(!init.contains(last)) by {
            if init.contains(last) {
                let i = init.index_of(last);
                assert(pages[i] != pages[top]);
            }
        }
        assert(view.fetches.contains_key(pages[top]));
        assert(rest.fetches.contains_key(last));
        assert forall|j: int| 0 <= j < notices.len() implies source_of_one(
            view,
            pages,
            #[trigger] notices[j],
        ) by {
            if j < before.len() {
                assert(before[j] == notices[j]);
                let i = choose|i: int|
                    0 <= i < init.len() && view.waits.contains_key(#[trigger] init[i])
                        && view.waits[init[i]] == before[j];
                assert(pages[i] == init[i]);
                assert(view.waits.contains_key(pages[i]));
            } else {
                assert(view.waits.contains_key(pages[top]));
            }
        }
        if requests_differ(view) {
            assert forall|i: int|
                0 <= i < pages.len() && is_waited_for(
                    view,
                    #[trigger] pages[i],
                ) implies notices.contains(view.waits[pages[i]]) by {
                if i < top {
                    assert(init[i] == pages[i]);
                    assert(before.contains(view.waits[init[i]]));
                    let at = before.index_of(view.waits[init[i]]);
                    assert(notices[at] == before[at]);
                } else {
                    let id = view.fetches[last].request_id->Some_0;
                    if !rest.submission.waiters.contains_key(id.0) {
                        let j = choose|j: int|
                            0 <= j < init.len() && view.fetches[#[trigger] init[j]].request_id
                                == Some(PageIoRequestId(id.0));
                        assert(view.fetches.contains_key(init[j]));
                        assert(init[j] == pages[j] && pages[j] != pages[top]);
                        assert(view.fetches.contains_key(last));
                    }
                    assert(notices[notices.len() - 1] == view.waits[last]);
                }
            }
        }
    }
}

/// A truncation to a smaller size that goes through drops every page all of
/// whose bytes lie beyond the size, with its fetch, and no other: the others
/// stay cached and published in their frames and as they are in their slots. The
/// rest of the last page has to be cleared. Who waits for a dropped fetch is
/// notified.
pub proof fn law_a_shrinking_truncation_cuts_at_the_size(
    pc: PageContainer,
    size: u64,
    reply: FsReply,
    retire: bool,
)
    requires
        pc.wf(),
        can_have(pc@, size),
        agreed(pc@, reply),
        size < pc@.size_bytes,
        !caches_beyond(pc@, size) || (retire && pc@.sequence % 2 == 0),
    ensures
        ({
            let before = pc@;
            let resize = before.truncate_step(size, reply, retire);
            let after = resize.view;
            &&& resize.outcome == gone_through(before, reply)
            &&& !resize.pending
            &&& resize.zero_tail == rest_of_last_page(before, size)
            &&& after.size_bytes == size
            &&& store_knows(after, before, size, reply)
            &&& after.kind == before.kind && after.page_count == before.page_count
            &&& after.waits == before.waits && after.reservations == before.reservations
            &&& forall|k: u64|
                {
                    let kept = #[trigger] (k * PAGE_BYTES) < size;
                    &&& after.pages.contains_key(k) == (before.pages.contains_key(k) && kept)
                    &&& after.root.contains_key(k) == (before.root.contains_key(k) && kept)
                    &&& after.fetches.contains_key(k) == (before.fetches.contains_key(k) && kept)
                    &&& after.slots.contains_key(k) == before.slots.contains_key(k)
                    &&& after.pages.contains_key(k) ==> after.pages[k] == before.pages[k]
                    &&& after.root.contains_key(k) ==> after.root[k] == before.root[k]
                    &&& after.fetches.contains_key(k) ==> after.fetches[k] == before.fetches[k]
                    &&& kept && after.slots.contains_key(k) ==> after.slots[k] == before.slots[k]
                    &&& !kept && before.pages.contains_key(k) ==> after.slots[k].inner.state is Empty
                }
            &&& forall|j: int|
                0 <= j < resize.notify.len() ==> source_beyond(
                    before,
                    size,
                    #[trigger] resize.notify[j],
                )
            &&& requests_differ(before) ==> forall|k: u64|
                k * PAGE_BYTES >= size && #[trigger] is_waited_for(before, k)
                    ==> resize.notify.contains(before.waits[k])
        }),
{
    let before = pc@;
    let advanced = before.kind is File && reply is Continue;
    let told = if before.kind is File {
        before.store_resized(size, advanced)
    } else {
        before
    };
    assert(told.consistent());
    assert(caches_beyond(told, size) ==> caches_beyond(before, size)) by {
        if caches_beyond(told, size) {
            let k = choose|k: u64| #[trigger]
                told.pages.contains_key(k) && k * PAGE_BYTES >= size;
            assert(before.pages.contains_key(k));
        }
    }
    lemma_withdrawn(told, size, retire);
    let first = PageIndex(crate::lifecycle::pages_for(size) as u64);
    let withdrawn = told.withdraw_from(first, retire).0;
    let set = told.fetches_from(first);
    assert(set =~= before.fetches_from(first));
    pc.in_flight_file_pages.lemma_order();
    lemma_picked(pc.in_flight_file_pages.order(), set);
    let pages = ascending(set);
    assert(fetched_once(withdrawn, pages)) by {
        assert forall|i: int| 0 <= i < pages.len() implies withdrawn.fetches.contains_key(
            #[trigger] pages[i],
        ) by {
            assert(pages.contains(pages[i]));
        }
        assert forall|i: int, j: int|
            0 <= i < pages.len() && 0 <= j < pages.len() && i != j implies pages[i] != pages[j] by {
            if i < j {
                assert(pages[i] < pages[j]);
            } else {
                assert(pages[j] < pages[i]);
            }
        }
    }
    lemma_retired_fetches(withdrawn, pages);
    lemma_kept_fetches(withdrawn, pages);
    lemma_notices(withdrawn, pages);
    let resize = before.truncate_step(size, reply, retire);
    let after = resize.view;
    let last = (size as int / (PAGE_BYTES as int)) as u64;
    assert(size as int % (PAGE_BYTES as int) != 0 ==> last * PAGE_BYTES < size);
    assert forall|k: u64|
        {
            let kept = #[trigger] (k * PAGE_BYTES) < size;
            &&& after.pages.contains_key(k) == (before.pages.contains_key(k) && kept)
            &&& after.root.contains_key(k) == (before.root.contains_key(k) && kept)
            &&& after.fetches.contains_key(k) == (before.fetches.contains_key(k) && kept)
            &&& after.slots.contains_key(k) == before.slots.contains_key(k)
            &&& after.pages.contains_key(k) ==> after.pages[k] == before.pages[k]
            &&& after.root.contains_key(k) ==> after.root[k] == before.root[k]
            &&& after.fetches.contains_key(k) ==> after.fetches[k] == before.fetches[k]
            &&& kept && after.slots.contains_key(k) ==> after.slots[k] == before.slots[k]
            &&& !kept && before.pages.contains_key(k) ==> after.slots[k].inner.state is Empty
        } by {
        assert(set.contains(k) == pages.contains(k));
    }
    assert forall|j: int| 0 <= j < resize.notify.len() implies source_beyond(
        before,
        size,
        #[trigger] resize.notify[j],
    ) by {
        assert(source_of_one(withdrawn, pages, resize.notify[j]));
        let i = choose|i: int|
            0 <= i < pages.len() && withdrawn.waits.contains_key(#[trigger] pages[i])
                && withdrawn.waits[pages[i]] == resize.notify[j];
        assert(pages.contains(pages[i]));
        assert(set.contains(pages[i]));
        assert(before.fetches.contains_key(pages[i]));
        assert(pages[i] * PAGE_BYTES >= size);
    }
    if requests_differ(before) {
        assert(requests_differ(withdrawn)) by {
            assert forall|a: u64, b: u64|
                a != b && #[trigger] withdrawn.fetches.contains_key(a)
                    && #[trigger] withdrawn.fetches.contains_key(b)
                    && withdrawn.fetches[a].request_id is Some implies withdrawn.fetches[a].request_id
                != withdrawn.fetches[b].request_id by {
                assert(before.fetches.contains_key(a) && before.fetches.contains_key(b));
            }
        }
        assert forall|k: u64|
            k * PAGE_BYTES >= size && #[trigger] is_waited_for(
                before,
                k,
            ) implies resize.notify.contains(before.waits[k]) by {
            assert(set.contains(k));
            assert(pages.contains(k));
            let i = pages.index_of(k);
            assert(is_waited_for(withdrawn, pages[i]));
        }
    }
}

/// A truncation to a smaller size whose pages cannot be given up yet has to be
/// tried again: the container keeps its size and its pages.
pub proof fn law_a_truncation_waits_for_its_pages(
    view: ContainerView,
    size: u64,
    reply: FsReply,
    retire: bool,
)
    requires
        can_have(view, size),
        agreed(view, reply),
        size < view.size_bytes,
        caches_beyond(view, size),
        !retire || view.sequence % 2 != 0,
    ensures
        ({
            let resize = view.truncate_step(size, reply, retire);
            &&& resize.pending
            &&& resize.outcome == (StepOutcome::<(), PageProgress>::Continue {
                progress: PageProgress(0),
            })
            &&& resize.zero_tail is None
            &&& resize.notify.len() == 0
            &&& resize.view == (ContainerView {
                stored_size: resize.view.stored_size,
                eof_pending: resize.view.eof_pending,
                ..view
            })
        }),
{
    let first = PageIndex(crate::lifecycle::pages_for(size) as u64);
    let k = choose|k: u64| #[trigger] view.pages.contains_key(k) && k * PAGE_BYTES >= size;
    assert(k >= first.0);
    assert(view.cached_from(first).contains(k));
    let told = view.store_resized(size, reply is Continue);
    assert(told.cached_from(first).contains(k));
}

/// Store is reserved for a container that can have the size: the size grows to
/// it if it is larger and the filesystem, for a file, agrees. No page changes.
/// Nothing is taken away from a larger container.
pub proof fn law_an_allocation_only_grows(view: ContainerView, size: u64, reply: FsReply)
    ensures
        ({
            let (after, outcome) = view.fallocate_step(size, reply);
            let grows = can_have(view, size) && size > view.size_bytes && agreed(view, reply);
            &&& after == (ContainerView {
                size_bytes: if grows {
                    size
                } else {
                    view.size_bytes
                },
                stored_size: after.stored_size,
                ..view
            })
            &&& !grows || view.kind !is File ==> after == (ContainerView {
                size_bytes: after.size_bytes,
                ..view
            })
            &&& grows && view.kind is File ==> after.stored_size == if reply is Done {
                Some(size)
            } else {
                None
            }
            &&& outcome == if !can_have(view, size) {
                StepOutcome::<(), PageProgress>::Error(Errno::EINVAL)
            } else if size <= view.size_bytes || view.kind !is File {
                StepOutcome::Done(())
            } else {
                call_stops(reply, 0)
            }
        }),
{
}

/// The call that writes the `j`-th captured page: its frame, at the offset where
/// the page starts.
pub open spec fn writes(object: FsObjectId, dirty: Seq<DirtyPage>, j: int) -> FsCall {
    FsCall::FlushPage {
        object,
        offset: (dirty[j].page.0 * PAGE_BYTES) as u64,
        ppn: dirty[j].ppn,
    }
}

/// An fsync writes the pages of a file that are cached and dirty, each once, in
/// ascending order, from the frames in which they are cached.
pub proof fn law_an_fsync_captures_the_dirty_pages(pc: PageContainer)
    requires
        pc.wf(),
    ensures
        ({
            let list = pc@.flush_list();
            &&& forall|i: int, j: int|
                0 <= i < j < list.len() ==> (#[trigger] list[i]).page.0 < (
                #[trigger] list[j]).page.0
            &&& forall|i: int|
                0 <= i < list.len() ==> {
                    let one = #[trigger] list[i];
                    &&& pc@.pages.contains_key(one.page.0)
                    &&& pc@.pages[one.page.0].ppn == one.ppn
                    &&& pc@.slots[one.page.0].inner.state is Dirty
                    &&& pc@.slots[one.page.0].inner.generation == one.generation
                }
            &&& forall|k: u64| #[trigger]
                pc@.pages.contains_key(k) && pc@.slots[k].inner.state is Dirty ==> exists|i: int|
                    0 <= i < list.len() && (#[trigger] list[i]).page.0 == k
        }),
{
    let set = pc@.flushable();
    let keys = ascending(set);
    let list = pc@.flush_list();
    pc.pages.pages.lemma_order();
    lemma_picked(pc.pages.order(), set);
    assert forall|i: int| 0 <= i < list.len() implies {
        let one = #[trigger] list[i];
        &&& pc@.pages.contains_key(one.page.0)
        &&& pc@.pages[one.page.0].ppn == one.ppn
        &&& pc@.slots[one.page.0].inner.state is Dirty
        &&& pc@.slots[one.page.0].inner.generation == one.generation
    } by {
        assert(keys.contains(keys[i]));
        assert(set.contains(keys[i]));
    }
    assert forall|k: u64| #[trigger]
        pc@.pages.contains_key(k) && pc@.slots[k].inner.state is Dirty implies exists|i: int|
        0 <= i < list.len() && (#[trigger] list[i]).page.0 == k by {
        assert(set.contains(k));
        assert(keys.contains(k));
        let i = keys.index_of(k);
        assert(list[i].page.0 == k);
    }
}

proof fn lemma_flush_stops(
    view: ContainerView,
    dirty: Seq<DirtyPage>,
    replies: Seq<FsReply>,
    i: nat,
    made: Seq<FsCall>,
    at: nat,
)
    requires
        i <= at < dirty.len(),
        at < replies.len(),
        at < u32::MAX,
        forall|j: int| i <= j < at ==> (#[trigger] replies[j]) is Done,
        replies[at as int] !is Done,
        forall|j: int| 0 <= j < dirty.len() ==> (#[trigger] dirty[j]).page.0 * PAGE_BYTES <= u64::MAX,
        made.len() == i,
    ensures
        ({
            let flush = view.flush_from(dirty, replies, i, i as u32, made);
            &&& flush.outcome == match call_stops(replies[at as int], at as int) {
                StepOutcome::Continue { progress } => StepOutcome::<u32, PageProgress>::Continue {
                    progress,
                },
                StepOutcome::Yield { progress, shape } => StepOutcome::Yield { progress, shape },
                StepOutcome::Error(errno) => StepOutcome::Error(errno),
                StepOutcome::Done(()) => StepOutcome::Done(0),
            }
            &&& flush.calls.len() == at + 1
            &&& forall|j: int| 0 <= j < i ==> #[trigger] flush.calls[j] == made[j]
            &&& forall|j: int|
                i <= j <= at ==> #[trigger] flush.calls[j] == writes(view.object(), dirty, j)
        }),
    decreases dirty.len() - i,
{
    if i < at {
        assert(replies[i as int] is Done);
        let one = dirty[i as int];
        let call = writes(view.object(), dirty, i as int);
        lemma_flush_stops(view.page_flushed(one), dirty, replies, i + 1, made.push(call), at);
        let flush = view.flush_from(dirty, replies, i, i as u32, made);
        assert(flush.calls[i as int] == made.push(call)[i as int]);
        assert forall|j: int| 0 <= j < i implies #[trigger] flush.calls[j] == made[j] by {
            assert(made.push(call)[j] == made[j]);
        }
    }
}

/// An fsync that the write of a page stops reports the pages written before, has
/// made the calls up to there in page order, and asks for nothing further.
pub proof fn law_an_fsync_stops_at_the_first_page_not_written(
    view: ContainerView,
    flushes: Seq<FsReply>,
    truncate: FsReply,
    sync: FsReply,
    at: nat,
)
    requires
        view.kind is File,
        at < view.flush_list().len(),
        at < flushes.len(),
        at < u32::MAX,
        forall|j: int| 0 <= j < at ==> (#[trigger] flushes[j]) is Done,
        flushes[at as int] !is Done,
        forall|j: int|
            0 <= j < view.flush_list().len() ==> (#[trigger] view.flush_list()[j]).page.0
                * PAGE_BYTES <= u64::MAX,
    ensures
        ({
            let step = view.fsync_step(flushes, truncate, sync);
            &&& step.outcome == call_stops(flushes[at as int], at as int)
            &&& step.calls.len() == at + 1
            &&& forall|j: int|
                0 <= j <= at ==> #[trigger] step.calls[j] == writes(
                    view.kind->fs_object_id,
                    view.flush_list(),
                    j,
                )
        }),
{
    lemma_flush_stops(view, view.flush_list(), flushes, 0, Seq::empty(), at);
}

/// A fsync of what is no file is done at once.
pub proof fn law_only_files_are_synced(
    view: ContainerView,
    flushes: Seq<FsReply>,
    truncate: FsReply,
    sync: FsReply,
)
    requires
        view.kind !is File,
    ensures
        ({
            let step = view.fsync_step(flushes, truncate, sync);
            &&& step.view == view
            &&& step.outcome == StepOutcome::<(), PageProgress>::Done(())
            &&& step.calls.len() == 0
        }),
{
}

/// An fsync whose pages are written, or that has none to write, ends by the
/// filesystem's answers: the correction of the size, if one is due, stops it
/// unless it is done, and else the sync decides.
pub proof fn law_an_fsync_ends_by_the_sync(
    view: ContainerView,
    flushes: Seq<FsReply>,
    truncate: FsReply,
    sync: FsReply,
    pages: u32,
)
    requires
        view.kind is File,
        view.flush_dirty(flushes).outcome == StepOutcome::<u32, PageProgress>::Done(pages),
    ensures
        ({
            let flush = view.flush_dirty(flushes);
            let step = view.fsync_step(flushes, truncate, sync);
            let object = view.kind->fs_object_id;
            let corrects = flush.view.eof_pending;
            let size = FsCall::Truncate { object, size: view.size_bytes };
            let last = FsCall::SyncFile { object };
            &&& corrects && truncate !is Done ==> {
                &&& step.outcome == call_stops(truncate, 0)
                &&& step.calls == flush.calls.push(size)
                &&& step.view.eof_pending
            }
            &&& corrects && truncate is Done ==> {
                &&& step.outcome == call_stops(sync, pages as int)
                &&& step.calls == flush.calls.push(size).push(last)
                &&& !step.view.eof_pending
                &&& step.view.stored_size == Some(view.size_bytes)
            }
            &&& !corrects ==> {
                &&& step.outcome == call_stops(sync, pages as int)
                &&& step.calls == flush.calls.push(last)
                &&& step.view == flush.view
            }
        }),
{
    crate::lifecycle::lemma_flush_keeps_kind(view, view.flush_list(), flushes, 0, 0, Seq::empty());
}

/// A page that was written as it was captured is clean, in the same frame and
/// version; one that has changed since stays as it is. Pages are written whole, so
/// that the size is to be told to the store again.
pub proof fn law_a_page_written_as_captured_is_clean(view: ContainerView, dirty: DirtyPage)
    ensures
        ({
            let after = view.page_flushed(dirty);
            let k = dirty.page.0;
            &&& after.eof_pending
            &&& after.stored_size is None
            &&& after.size_bytes == view.size_bytes
            &&& after.pages == view.pages
            &&& after.root == view.root
            &&& forall|other: u64| #[trigger]
                after.slots.contains_key(other) == view.slots.contains_key(other)
            &&& view.slots.contains_key(k) ==> {
                let was = view.slots[k].inner;
                let is = after.slots[k].inner;
                let same = was.generation == dirty.generation && was.state
                    == (PageSlotState::Dirty { ppn: dirty.ppn });
                &&& is.generation == was.generation
                &&& same ==> is.state == (PageSlotState::Resident { ppn: dirty.ppn })
                &&& !same ==> is.state == was.state
            }
            &&& forall|other: u64| #[trigger]
                view.slots.contains_key(other) && other != k ==> after.slots[other]
                    == view.slots[other]
        }),
{
}

proof fn lemma_flush_done(
    view: ContainerView,
    dirty: Seq<DirtyPage>,
    replies: Seq<FsReply>,
    i: nat,
    made: Seq<FsCall>,
)
    requires
        i <= dirty.len(),
        dirty.len() <= replies.len(),
        dirty.len() < u32::MAX,
        forall|j: int| 0 <= j < dirty.len() ==> (#[trigger] replies[j]) is Done,
        forall|j: int| 0 <= j < dirty.len() ==> (#[trigger] dirty[j]).page.0 * PAGE_BYTES <= u64::MAX,
        forall|a: int, b: int|
            0 <= a < b < dirty.len() ==> (#[trigger] dirty[a]).page.0 < (
            #[trigger] dirty[b]).page.0,
        made.len() == i,
    ensures
        ({
            let flush = view.flush_from(dirty, replies, i, i as u32, made);
            &&& flush.outcome == StepOutcome::<u32, PageProgress>::Done(dirty.len() as u32)
            &&& flush.calls.len() == dirty.len()
            &&& forall|j: int| 0 <= j < i ==> #[trigger] flush.calls[j] == made[j]
            &&& forall|j: int|
                i <= j < dirty.len() ==> #[trigger] flush.calls[j] == writes(
                    view.object(),
                    dirty,
                    j,
                )
            &&& flush.view.size_bytes == view.size_bytes
            &&& flush.view.pages == view.pages
            &&& flush.view.eof_pending == (view.eof_pending || i < dirty.len())
            &&& flush.view.stored_size == if i < dirty.len() {
                None
            } else {
                view.stored_size
            }
            &&& forall|k: u64| #[trigger]
                flush.view.slots.contains_key(k) == view.slots.contains_key(k)
            &&& forall|j: int|
                i <= j < dirty.len() && view.slots.contains_key((#[trigger] dirty[j]).page.0)
                    && view.slots[dirty[j].page.0].inner.generation == dirty[j].generation
                    && view.slots[dirty[j].page.0].inner.state
                    == (PageSlotState::Dirty { ppn: dirty[j].ppn })
                    ==> flush.view.slots[dirty[j].page.0].inner.state
                    == (PageSlotState::Resident { ppn: dirty[j].ppn })
                    && flush.view.slots[dirty[j].page.0].inner.generation == dirty[j].generation
            &&& forall|k: u64|
                (forall|j: int| i <= j < dirty.len() ==> (#[trigger] dirty[j]).page.0 != k)
                    && #[trigger] view.slots.contains_key(k) ==> flush.view.slots[k]
                    == view.slots[k]
        }),
    decreases dirty.len() - i,
{
    if i < dirty.len() {
        assert(replies[i as int] is Done);
        let one = dirty[i as int];
        let call = writes(view.object(), dirty, i as int);
        let after = view.page_flushed(one);
        lemma_flush_done(after, dirty, replies, i + 1, made.push(call));
        let flush = view.flush_from(dirty, replies, i, i as u32, made);
        assert(flush.calls[i as int] == made.push(call)[i as int]);
        assert forall|j: int| 0 <= j < i implies #[trigger] flush.calls[j] == made[j] by {
            assert(made.push(call)[j] == made[j]);
        }
        assert forall|j: int| i < j < dirty.len() implies (#[trigger] dirty[j]).page.0
            != one.page.0 by {
            assert(dirty[i as int].page.0 < dirty[j].page.0);
        }
        assert forall|k: u64|
            (forall|j: int| i <= j < dirty.len() ==> (#[trigger] dirty[j]).page.0 != k)
                && #[trigger] view.slots.contains_key(k) implies flush.view.slots[k]
            == view.slots[k] by {
            assert(dirty[i as int].page.0 != k);
            assert(after.slots.contains_key(k));
        }
        assert forall|j: int|
            i <= j < dirty.len() && view.slots.contains_key((#[trigger] dirty[j]).page.0)
                && view.slots[dirty[j].page.0].inner.generation == dirty[j].generation
                && view.slots[dirty[j].page.0].inner.state == (PageSlotState::Dirty {
                ppn: dirty[j].ppn,
            }) implies flush.view.slots[dirty[j].page.0].inner.state
            == (PageSlotState::Resident { ppn: dirty[j].ppn })
            && flush.view.slots[dirty[j].page.0].inner.generation == dirty[j].generation by {
            let k = dirty[j].page.0;
            assert(after.slots.contains_key(k));
            if j == i {
                assert(flush.view.slots[k] == after.slots[k]);
            } else {
                assert(after.slots[k] == view.slots[k]);
            }
        }
    }
}

/// A flush that the filesystem lets go through writes every dirty cached page of the
/// file, in order, and says how many. All of them are clean then, in their frames and
/// versions, no other page changes, and the size is to be told again.
pub proof fn law_a_flush_writes_every_dirty_page(
    pc: PageContainer,
    flushes: Seq<FsReply>,
    i: int,
    k: u64,
)
    requires
        pc.wf(),
        pc@.kind is File,
        pc@.flush_list().len() <= flushes.len(),
        pc@.flush_list().len() < u32::MAX,
        0 <= i < pc@.flush_list().len(),
        forall|j: int| 0 <= j < flushes.len() ==> (#[trigger] flushes[j]) is Done,
        forall|j: int|
            0 <= j < pc@.flush_list().len() ==> (#[trigger] pc@.flush_list()[j]).page.0
                * PAGE_BYTES <= u64::MAX,
    ensures
        ({
            let list = pc@.flush_list();
            let flush = pc@.flush_dirty(flushes);
            let page = list[i].page.0;
            &&& flush.outcome == StepOutcome::<u32, PageProgress>::Done(list.len() as u32)
            &&& flush.calls.len() == list.len()
            &&& flush.calls[i] == writes(pc@.kind->fs_object_id, list, i)
            &&& flush.view.slots[page].inner.state == (PageSlotState::Resident {
                ppn: pc@.pages[page].ppn,
            })
            &&& flush.view.slots[page].inner.generation == pc@.slots[page].inner.generation
            &&& flush.view.eof_pending
            &&& flush.view.stored_size is None
            &&& flush.view.pages == pc@.pages
            &&& flush.view.size_bytes == pc@.size_bytes
            &&& pc@.slots.contains_key(k) && pc@.slots[k].inner.state !is Dirty
                ==> flush.view.slots[k] == pc@.slots[k]
        }),
{
    law_an_fsync_captures_the_dirty_pages(pc);
    let list = pc@.flush_list();
    lemma_flush_done(pc@, list, flushes, 0, Seq::empty());
    let one = list[i];
    assert(pc@.pages.contains_key(one.page.0));
    if pc@.slots.contains_key(k) && pc@.slots[k].inner.state !is Dirty {
        assert forall|j: int| 0 <= j < list.len() implies (#[trigger] list[j]).page.0 != k by {
            assert(pc@.slots[list[j].page.0].inner.state is Dirty);
        }
    }
}

proof fn lemma_flush_waits(
    view: ContainerView,
    dirty: Seq<DirtyPage>,
    replies: Seq<FsReply>,
    i: nat,
    made: Seq<FsCall>,
)
    requires
        i <= replies.len() < dirty.len(),
        replies.len() < u32::MAX,
        forall|j: int| 0 <= j < replies.len() ==> (#[trigger] replies[j]) is Done,
        forall|j: int| 0 <= j < dirty.len() ==> (#[trigger] dirty[j]).page.0 * PAGE_BYTES <= u64::MAX,
        made.len() == i,
    ensures
        ({
            let flush = view.flush_from(dirty, replies, i, i as u32, made);
            &&& flush.outcome == StepOutcome::<u32, PageProgress>::Continue {
                progress: PageProgress(replies.len() as u32),
            }
            &&& flush.calls.len() == replies.len()
        }),
    decreases dirty.len() - i,
{
    if i < replies.len() {
        assert(replies[i as int] is Done);
        let call = writes(view.object(), dirty, i as int);
        lemma_flush_waits(
            view.page_flushed(dirty[i as int]),
            dirty,
            replies,
            i + 1,
            made.push(call),
        );
    }
}

/// A flush whose answers do not last goes on later: it says how many pages are written,
/// which is as many as were answered.
pub proof fn law_a_flush_goes_on_after_its_answers(view: ContainerView, flushes: Seq<FsReply>)
    requires
        view.kind is File,
        flushes.len() < view.flush_list().len(),
        flushes.len() < u32::MAX,
        forall|j: int| 0 <= j < flushes.len() ==> (#[trigger] flushes[j]) is Done,
        forall|j: int|
            0 <= j < view.flush_list().len() ==> (#[trigger] view.flush_list()[j]).page.0
                * PAGE_BYTES <= u64::MAX,
    ensures
        view.flush_dirty(flushes).outcome == (StepOutcome::<u32, PageProgress>::Continue {
            progress: PageProgress(flushes.len() as u32),
        }),
        view.flush_dirty(flushes).calls.len() == flushes.len(),
{
    lemma_flush_waits(view, view.flush_list(), flushes, 0, Seq::empty());
}

} // verus!
