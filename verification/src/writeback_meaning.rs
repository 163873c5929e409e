//! What writeback does: which pages it admits, which frames it writes, and what
//! becomes of the pages when it ends.

use crate::access_meaning::{agree_elsewhere, has_room, is_bound};
use crate::completion::{CompletionAnswers, WritebackEnd};
use crate::container::ContainerView;
use crate::frame::{CachePin, CachedFrame, Grant, PageCachePin, PageLease};
use crate::ids::{Errno, PageGeneration, PageIndex, PageIoRequestId, Ppn};
use crate::io::{
    BioVec, IoDataSource, IoDataTarget, PageCompletionRoute, PageIoCompletionKind, PageIoFlags,
    PageIoOp, PageIoPriority, PageIoRequest, PageIoResult,
};
use crate::lease::{FileIoTerminalResult, LeaseView, OwnerView, PayloadView};
use crate::slot::{PageSlotSnapshot, PageSlotState};
use crate::writeback::FileFsyncFrontierAdvance;
use vstd::prelude::*;

verus! {

/// Whether the slot of page `k` is in a state from which writeback begins.
pub open spec fn can_be_written_back(view: ContainerView, k: u64) -> bool {
    &&& view.slots.contains_key(k)
    &&& view.slots[k].inner.state is Dirty || view.slots[k].inner.state is Resident
}

/// Whether `pages` can be admitted to writeback as one request: they are up to
/// 64 consecutive pages of a file, all cached and in a state from which
/// writeback begins, their pins are granted, and there is room for the request.
pub open spec fn batch_is_possible(
    view: ContainerView,
    pages: Seq<PageIndex>,
    pins: Seq<Grant>,
    offset: nat,
) -> bool {
    &&& view.kind is File
    &&& 0 < pages.len() <= 64
    &&& forall|i: int| 0 <= i < pages.len() ==> (#[trigger] pages[i]).0 == pages[0].0 + i
    &&& forall|i: int|
        0 <= i < pages.len() ==> {
            &&& view.pages.contains_key((#[trigger] pages[i]).0)
            &&& can_be_written_back(view, pages[i].0)
            &&& offset + i < pins.len()
            &&& pins[offset + i] is Ok
        }
    &&& has_room(view)
}

proof fn lemma_held(view: ContainerView, pages: Seq<PageIndex>, pins: Seq<Grant>, offset: nat, count: nat)
    requires
        count <= pages.len(),
    ensures
        view.held_pages(pages, pins, offset, count) <= count,
        forall|i: int|
            0 <= i < view.held_pages(pages, pins, offset, count) ==> {
                &&& view.pages.contains_key((#[trigger] pages[i]).0)
                &&& can_be_written_back(view, pages[i].0)
                &&& offset + i < pins.len()
                &&& pins[offset + i] is Ok
            },
        (forall|i: int|
            0 <= i < count ==> {
                &&& view.pages.contains_key((#[trigger] pages[i]).0)
                &&& can_be_written_back(view, pages[i].0)
                &&& offset + i < pins.len()
                &&& pins[offset + i] is Ok
            }) ==> view.held_pages(pages, pins, offset, count) == count,
    decreases count,
{
    if count > 0 {
        lemma_held(view, pages, pins, offset, (count - 1) as nat);
        let page = pages[count - 1];
        assert(view.writable_back(page) == can_be_written_back(view, page.0));
    }
}

proof fn lemma_consecutive(pages: Seq<PageIndex>)
    requires
        pages.len() > 0,
    ensures
        crate::writeback::contiguous(pages) <==> forall|i: int|
            0 <= i < pages.len() ==> (#[trigger] pages[i]).0 == pages[0].0 + i,
{
    if crate::writeback::contiguous(pages) {
        assert forall|i: int| 0 <= i < pages.len() implies (#[trigger] pages[i]).0 == pages[0].0
            + i by {
            crate::writeback::lemma_contiguous(pages, i);
        }
    }
}

/// Pages that can be written back together are, as one request over just their
/// range. The request keeps the frame of every page, in page order, with the
/// version that it holds; every page is in writeback as that version. Nothing
/// else changes.
pub proof fn law_a_possible_batch_is_admitted(
    view: ContainerView,
    pages: Seq<PageIndex>,
    pins: Seq<Grant>,
    offset: nat,
)
    requires
        view.consistent(),
        batch_is_possible(view, pages, pins, offset),
    ensures
        ({
            let (after, id) = view.queue_batch(pages, pins, offset);
            let row = view.submission.next_id;
            let request = PageIoRequest {
                id: PageIoRequestId(row),
                range: crate::io::PageIoRange {
                    start_page: pages[0].0,
                    page_count: pages.len() as u64,
                },
                op: PageIoOp::Writeback,
                priority: PageIoPriority::BackgroundWriteback,
                flags: PageIoFlags::Writeback,
                generation_hint: Some(view.slots[pages[0].0].inner.generation),
            };
            &&& id == Some(PageIoRequestId(row))
            &&& after == (ContainerView {
                slots: after.slots,
                submission: after.submission,
                ..view
            })
            &&& after.submission.rows == view.submission.rows.insert(row, request)
            &&& after.submission.next_id != view.submission.next_id
            &&& after.submission.capacity == view.submission.capacity
            &&& after.submission.waiters == view.submission.waiters
            &&& after.submission.background == view.submission.background
            &&& after.submission.owners == view.submission.owners.insert(
                row,
                after.submission.owners[row],
            )
            &&& after.submission.owners[row].request == request
            &&& after.submission.owners[row].payload matches PayloadView::Writeback { lease }
            &&& lease.id.0 == row
            &&& lease.pages.len() == pages.len()
            &&& lease.generations.len() == pages.len()
            &&& forall|i: int|
                0 <= i < pages.len() ==> {
                    let k = (#[trigger] pages[i]).0;
                    let ppn = view.pages[k].ppn;
                    let generation = view.slots[k].inner.generation;
                    &&& lease.pages[i] == (PageLease {
                        ppn,
                        cache_pin: PageCachePin::Allocated(CachePin { ppn }),
                    })
                    &&& lease.generations[i] == (pages[i], generation)
                    &&& after.slots[k].inner == (PageSlotSnapshot {
                        state: PageSlotState::Writeback {
                            ppn,
                            submitted_generation: generation,
                            redirtied: false,
                        },
                        generation,
                    })
                }
            &&& forall|k: u64| #[trigger]
                after.slots.contains_key(k) <==> view.slots.contains_key(k)
            &&& forall|k: u64| #[trigger]
                view.slots.contains_key(k) && !(pages[0].0 <= k < pages[0].0 + pages.len())
                    ==> after.slots[k] == view.slots[k]
        }),
{
    lemma_consecutive(pages);
    lemma_held(view, pages, pins, offset, pages.len());
    let (after, id) = view.queue_batch(pages, pins, offset);
    assert forall|i: int| 0 <= i < pages.len() implies {
        let k = (#[trigger] pages[i]).0;
        let ppn = view.pages[k].ppn;
        let generation = view.slots[k].inner.generation;
        after.slots[k].inner == (PageSlotSnapshot {
            state: PageSlotState::Writeback {
                ppn,
                submitted_generation: generation,
                redirtied: false,
            },
            generation,
        })
    } by {
        assert(view.pages.contains_key(pages[i].0));
        assert(can_be_written_back(view, pages[i].0));
    }
}

/// Pages that cannot be written back together are not: no request is made, and
/// no page changes but that one which was clean may count as dirty.
pub proof fn law_an_impossible_batch_is_refused(
    view: ContainerView,
    pages: Seq<PageIndex>,
    pins: Seq<Grant>,
    offset: nat,
)
    requires
        view.consistent(),
        !batch_is_possible(view, pages, pins, offset),
    ensures
        ({
            let (after, id) = view.queue_batch(pages, pins, offset);
            &&& id is None
            &&& after == (ContainerView { slots: after.slots, ..view })
            &&& forall|k: u64| #[trigger]
                after.slots.contains_key(k) <==> view.slots.contains_key(k)
            &&& forall|k: u64| #[trigger]
                view.slots.contains_key(k) ==> {
                    let was = view.slots[k].inner;
                    let is = after.slots[k].inner;
                    ||| is == was
                    ||| {
                        &&& was.state is Resident
                        &&& is == (PageSlotSnapshot {
                            state: PageSlotState::Dirty { ppn: was.state->Resident_ppn },
                            generation: was.generation,
                        })
                        &&& exists|i: int| 0 <= i < pages.len() && (#[trigger] pages[i]).0 == k
                    }
                }
        }),
{
    let (after, id) = view.queue_batch(pages, pins, offset);
    if pages.len() > 0 {
        lemma_consecutive(pages);
    }
    lemma_held(view, pages, pins, offset, pages.len());
    if view.kind is File && crate::writeback::valid_batch(pages) {
        let held = view.held_pages(pages, pins, offset, pages.len());
        let begun: nat = if held < pages.len() {
            if view.writable_back(pages[held as int]) {
                held + 1
            } else {
                held
            }
        } else {
            pages.len()
        };
        assert forall|k: u64| #[trigger] view.slots.contains_key(k) implies {
            let was = view.slots[k].inner;
            let is = after.slots[k].inner;
            ||| is == was
            ||| {
                &&& was.state is Resident
                &&& is == (PageSlotSnapshot {
                    state: PageSlotState::Dirty { ppn: was.state->Resident_ppn },
                    generation: was.generation,
                })
                &&& exists|i: int| 0 <= i < pages.len() && (#[trigger] pages[i]).0 == k
            }
        } by {
            if pages[0].0 <= k < pages[0].0 + begun {
                let i = k - pages[0].0;
                assert(pages[i].0 == k);
                if i == held {
                    assert(view.writable_back(pages[held as int]));
                }
                assert(can_be_written_back(view, k));
            }
        }
    }
}

/// What a backend is given for a writeback are the frames that the request
/// keeps, whole, each once and in order; for a read it is the frame that the
/// request keeps, whole.
pub proof fn law_a_backend_gets_the_frames_of_the_request(
    owned: OwnerView,
    source: IoDataSource,
    target: IoDataTarget,
)
    requires
        crate::page_submission::owned_data(owned, source, target),
    ensures
        match owned.payload {
            PayloadView::Writeback { lease } => {
                &&& target is Absent
                &&& lease.pages.len() == 1 ==> source == (IoDataSource::PageCache {
                    lease: lease.id,
                    frame: lease.pages[0].ppn,
                    offset: 0,
                    len: 4096,
                })
                &&& lease.pages.len() != 1 ==> {
                    &&& source matches IoDataSource::Direct { lease: id, vecs }
                    &&& id == lease.id
                    &&& vecs@.len() == lease.pages.len()
                    &&& forall|i: int|
                        0 <= i < lease.pages.len() ==> #[trigger] vecs@[i] == (BioVec {
                            frame: lease.pages[i].ppn.0 as u64,
                            offset: 0,
                            len: 4096,
                        })
                }
            },
            PayloadView::Read { target: kept } => {
                &&& source is Absent
                &&& target == (IoDataTarget::PageCache {
                    lease: crate::ids::IoDataLeaseId(owned.request.id.0),
                    frame: kept.ppn,
                    offset: 0,
                    len: 4096,
                })
            },
            PayloadView::Control => source is Absent && target is Absent,
        },
{
}

/// Whether there is room for `count` more requests, and identities for them.
pub open spec fn has_room_for(view: ContainerView, count: nat) -> bool {
    &&& view.submission.rows.dom().finite()
    &&& view.submission.rows.len() + count <= view.submission.capacity
    &&& view.submission.next_id + count <= u64::MAX
    &&& forall|id: u64|
        id >= view.submission.next_id ==> !(#[trigger] view.submission.rows.contains_key(id))
    &&& forall|id: u64|
        id >= view.submission.next_id ==> !(#[trigger] view.submission.owners.contains_key(id))
}

/// Whether page `k` is in writeback as the version that it had in `before`.
pub open spec fn in_writeback(after: ContainerView, before: ContainerView, k: u64) -> bool {
    &&& after.slots.contains_key(k)
    &&& after.slots[k].inner == (PageSlotSnapshot {
        state: PageSlotState::Writeback {
            ppn: before.pages[k].ppn,
            submitted_generation: before.slots[k].inner.generation,
            redirtied: false,
        },
        generation: before.slots[k].inner.generation,
    })
}

/// Whether the candidates from `start` on are distinct pages in ascending order,
/// cached and dirty, with their pins granted.
pub open spec fn all_dirty(
    view: ContainerView,
    candidates: Seq<PageIndex>,
    pins: Seq<Grant>,
    start: nat,
) -> bool {
    &&& forall|i: int, j: int|
        start <= i < j < candidates.len() ==> (#[trigger] candidates[i]).0 < (
        #[trigger] candidates[j]).0
    &&& forall|i: int|
        start <= i < candidates.len() ==> {
            &&& view.pages.contains_key((#[trigger] candidates[i]).0)
            &&& view.slots.contains_key(candidates[i].0)
            &&& view.slots[candidates[i].0].inner.state == (PageSlotState::Dirty {
                ppn: view.pages[candidates[i].0].ppn,
            })
            &&& i < pins.len()
            &&& pins[i] is Ok
        }
}

proof fn lemma_run_consecutive(candidates: Seq<PageIndex>, start: nat, end: nat)
    requires
        start < end <= candidates.len(),
        end - start <= 64,
        forall|i: int, j: int|
            start <= i < j < candidates.len() ==> (#[trigger] candidates[i]).0 < (
            #[trigger] candidates[j]).0,
        forall|i: int|
            start <= i < end ==> (#[trigger] candidates[i]).0 == candidates[start as int].0 + (i
                - start),
    ensures
        ({
            let last = crate::writeback::run_end(candidates, start, end);
            &&& end <= last <= candidates.len()
            &&& last - start <= 64
            &&& forall|i: int|
                start <= i < last ==> (#[trigger] candidates[i]).0 == candidates[start as int].0
                    + (i - start)
        }),
    decreases candidates.len() - end,
{
    if end < candidates.len() && end - start < 64 && candidates[end as int].0
        == crate::writeback::saturating_next(candidates[end - 1].0) {
        assert(candidates[end - 1].0 < candidates[end as int].0);
        lemma_run_consecutive(candidates, start, end + 1);
    }
}

proof fn lemma_runs(
    view: ContainerView,
    candidates: Seq<PageIndex>,
    batch_pins: Seq<Grant>,
    page_pins: Seq<Grant>,
    start: nat,
)
    requires
        start <= candidates.len(),
        view.kind is File,
        all_dirty(view, candidates, batch_pins, start),
        has_room_for(view, (candidates.len() - start) as nat),
    ensures
        ({
            let runs = view.queue_runs(candidates, batch_pins, page_pins, start);
            &&& runs.admitted == candidates.len() - start
            &&& !runs.refused
            &&& runs.view.pages == view.pages
            &&& forall|i: int|
                start <= i < candidates.len() ==> in_writeback(
                    runs.view,
                    view,
                    (#[trigger] candidates[i]).0,
                )
            &&& forall|k: u64| #[trigger]
                runs.view.slots.contains_key(k) <==> view.slots.contains_key(k)
            &&& forall|k: u64|
                (forall|i: int| start <= i < candidates.len() ==> (#[trigger] candidates[i]).0 != k)
                    && #[trigger] view.slots.contains_key(k) ==> runs.view.slots[k]
                    == view.slots[k]
        }),
    decreases candidates.len() - start,
{
    if start < candidates.len() {
        lemma_run_consecutive(candidates, start, start + 1);
        let end = crate::writeback::run_end(candidates, start, start + 1);
        let pages = candidates.subrange(start as int, end as int);
        assert forall|i: int| 0 <= i < pages.len() implies (#[trigger] pages[i]).0 == pages[0].0
            + i by {
            assert(pages[i] == candidates[start + i]);
            assert(candidates[start + i].0 == candidates[start as int].0 + i);
        }
        lemma_consecutive(pages);
        assert forall|i: int| 0 <= i < pages.len() implies {
            &&& view.pages.contains_key((#[trigger] pages[i]).0)
            &&& can_be_written_back(view, pages[i].0)
            &&& start + i < batch_pins.len()
            &&& batch_pins[start + i] is Ok
        } by {
            assert(pages[i] == candidates[start + i]);
        }
        lemma_held(view, pages, batch_pins, start, pages.len());
        assert(!view.submission.rows.contains_key(view.submission.next_id));
        assert(!view.submission.owners.contains_key(view.submission.next_id));
        let (after, id) = view.queue_batch(pages, batch_pins, start);
        assert(id is Some);
        assert(after.submission.rows.dom() =~= view.submission.rows.dom().insert(
            view.submission.next_id,
        ));
        assert forall|i: int| start <= i < end implies in_writeback(
            after,
            view,
            (#[trigger] candidates[i]).0,
        ) by {
            assert(candidates[i].0 == candidates[start as int].0 + (i - start));
        }
        assert forall|i: int| end <= i < candidates.len() implies (#[trigger] candidates[i]).0
            >= candidates[start as int].0 + (end - start) by {
            assert(candidates[end - 1].0 == candidates[start as int].0 + (end - 1 - start));
            assert(candidates[end - 1].0 < candidates[i].0);
        }
        assert(all_dirty(after, candidates, batch_pins, end)) by {
            assert forall|i: int| end <= i < candidates.len() implies {
                &&& after.pages.contains_key((#[trigger] candidates[i]).0)
                &&& after.slots.contains_key(candidates[i].0)
                &&& after.slots[candidates[i].0].inner.state == (PageSlotState::Dirty {
                    ppn: after.pages[candidates[i].0].ppn,
                })
                &&& i < batch_pins.len()
                &&& batch_pins[i] is Ok
            } by {
                assert(view.slots.contains_key(candidates[i].0));
            }
        }
        lemma_runs(after, candidates, batch_pins, page_pins, end);
        let runs = view.queue_runs(candidates, batch_pins, page_pins, start);
        assert forall|i: int| start <= i < candidates.len() implies in_writeback(
            runs.view,
            view,
            (#[trigger] candidates[i]).0,
        ) by {
            if i < end {
                assert(in_writeback(after, view, candidates[i].0));
                assert forall|j: int| end <= j < candidates.len() implies (
                #[trigger] candidates[j]).0 != candidates[i].0 by {
                    assert(candidates[i].0 < candidates[j].0);
                }
                assert(after.slots.contains_key(candidates[i].0));
            } else {
                assert(view.slots.contains_key(candidates[i].0));
                assert(in_writeback(runs.view, after, candidates[i].0));
            }
        }
        assert forall|k: u64|
            (forall|i: int| start <= i < candidates.len() ==> (#[trigger] candidates[i]).0 != k)
                && #[trigger] view.slots.contains_key(k) implies runs.view.slots[k]
            == view.slots[k] by {
            assert(after.slots.contains_key(k));
            if candidates[start as int].0 <= k < candidates[start as int].0 + (end - start) {
                let i = start + (k - candidates[start as int].0);
                assert(candidates[i].0 == candidates[start as int].0 + (i - start));
            }
        }
    }
}

/// Dirty pages of a file are all admitted to writeback where their pins are
/// granted and there is room: each is in writeback as the version that it has,
/// and no other page changes.
pub proof fn law_dirty_pages_are_all_admitted(
    view: ContainerView,
    candidates: Seq<PageIndex>,
    batch_pins: Seq<Grant>,
    page_pins: Seq<Grant>,
)
    requires
        view.kind is File,
        all_dirty(view, candidates, batch_pins, 0),
        has_room_for(view, candidates.len()),
    ensures
        ({
            let runs = view.queue_runs(candidates, batch_pins, page_pins, 0);
            &&& runs.admitted == candidates.len()
            &&& !runs.refused
            &&& runs.view.pages == view.pages
            &&& forall|i: int|
                0 <= i < candidates.len() ==> in_writeback(
                    runs.view,
                    view,
                    (#[trigger] candidates[i]).0,
                )
            &&& forall|k: u64|
                (forall|i: int| 0 <= i < candidates.len() ==> (#[trigger] candidates[i]).0 != k)
                    && #[trigger] view.slots.contains_key(k) ==> runs.view.slots[k]
                    == view.slots[k]
        }),
{
    lemma_runs(view, candidates, batch_pins, page_pins, 0);
}

/// Whether no page is captured twice.
pub open spec fn captured_once(generations: Seq<(PageIndex, PageGeneration)>) -> bool {
    forall|i: int, j: int|
        0 <= i < j < generations.len() ==> (#[trigger] generations[i]).0 != (
        #[trigger] generations[j]).0
}

/// What a page in writeback as `generation` becomes when that writeback ends. One
/// that was written meanwhile is dirty, whatever the result; else the result
/// decides. A writeback that was never submitted leaves it dirty.
pub open spec fn state_after_writeback(
    slot: PageSlotSnapshot,
    generation: PageGeneration,
    end: WritebackEnd,
) -> PageSlotState {
    match slot.state {
        PageSlotState::Writeback { ppn, submitted_generation, redirtied } if submitted_generation
            == generation => match end {
            WritebackEnd::Complete(Ok(())) if !redirtied => PageSlotState::Resident { ppn },
            WritebackEnd::Complete(Err(errno)) if !redirtied => PageSlotState::Error { errno },
            _ => PageSlotState::Dirty { ppn },
        },
        other => other,
    }
}

proof fn lemma_end_writeback(
    view: ContainerView,
    generations: Seq<(PageIndex, PageGeneration)>,
    end: WritebackEnd,
    count: nat,
)
    requires
        captured_once(generations),
        count <= generations.len(),
    ensures
        ({
            let after = view.end_writeback(generations, end, count).view;
            &&& after == (ContainerView { slots: after.slots, ..view })
            &&& forall|k: u64| #[trigger]
                after.slots.contains_key(k) <==> view.slots.contains_key(k)
            &&& forall|i: int|
                0 <= i < count && view.slots.contains_key((#[trigger] generations[i]).0.0) ==> {
                    let (page, generation) = generations[i];
                    let was = view.slots[page.0].inner;
                    after.slots[page.0].inner == (PageSlotSnapshot {
                        state: state_after_writeback(was, generation, end),
                        generation: was.generation,
                    })
                }
            &&& forall|k: u64|
                (forall|i: int| 0 <= i < count ==> (#[trigger] generations[i]).0.0 != k)
                    && #[trigger] view.slots.contains_key(k) ==> after.slots[k] == view.slots[k]
        }),
    decreases count,
{
    if count > 0 {
        let before = view.end_writeback(generations, end, (count - 1) as nat).view;
        let after = view.end_writeback(generations, end, count).view;
        lemma_end_writeback(view, generations, end, (count - 1) as nat);
        let (page, generation) = generations[count - 1];
        assert forall|i: int| 0 <= i < count - 1 implies (#[trigger] generations[i]).0.0
            != page.0 by {
            assert(generations[i].0 != generations[count - 1].0);
        }
        if view.slots.contains_key(page.0) {
            assert(before.slots[page.0] == view.slots[page.0]);
        }
    }
}

/// The end of a writeback request settles each of its pages by itself, as the
/// version that was submitted, and no other page. No trace of the request is
/// left. It writes nothing into the cache and takes nothing out.
pub proof fn law_a_writeback_ends_page_by_page(
    view: ContainerView,
    request: PageIoRequest,
    terminal: FileIoTerminalResult,
    answers: CompletionAnswers,
    lease: LeaseView,
    end: WritebackEnd,
)
    requires
        view.submission.owners.contains_key(request.id.0),
        view.submission.owners[request.id.0].payload == (PayloadView::Writeback { lease }),
        request.op == PageIoOp::Writeback,
        captured_once(lease.generations),
        match terminal {
            FileIoTerminalResult::SubmitFailure => end == WritebackEnd::Abort,
            FileIoTerminalResult::Completion { result, kind, generation, .. } => {
                &&& kind is WritebackFinished
                &&& request.generation_hint == Some(generation)
                &&& end == WritebackEnd::Complete(
                    match result {
                        PageIoResult::Done => Ok::<(), Errno>(()),
                        PageIoResult::Failed(errno) => Err(errno),
                    },
                )
            },
        },
    ensures
        ({
            let after = view.finish_request(request, terminal, answers).0;
            &&& after == (ContainerView {
                slots: after.slots,
                submission: after.submission,
                ..view
            })
            &&& after.submission.rows == view.submission.rows.remove(request.id.0)
            &&& after.submission.owners == view.submission.owners.remove(request.id.0)
            &&& after.submission.waiters == view.submission.waiters.remove(request.id.0)
            &&& forall|i: int|
                0 <= i < lease.generations.len() && view.slots.contains_key(
                    (#[trigger] lease.generations[i]).0.0,
                ) ==> {
                    let (page, generation) = lease.generations[i];
                    let was = view.slots[page.0].inner;
                    after.slots[page.0].inner == (PageSlotSnapshot {
                        state: state_after_writeback(was, generation, end),
                        generation: was.generation,
                    })
                }
            &&& forall|k: u64|
                (forall|i: int|
                    0 <= i < lease.generations.len() ==> (#[trigger] lease.generations[i]).0.0 != k)
                    && #[trigger] view.slots.contains_key(k) ==> after.slots[k] == view.slots[k]
        }),
{
    let taken = view.without_request(request.id);
    lemma_end_writeback(taken, lease.generations, end, lease.generations.len());
}

/// A read that is done puts its data where the page is: the frame that the
/// request kept, or the one that the backend names, becomes the page, clean and
/// published. The fetch is over and its waiters, if any, are notified.
pub proof fn law_a_finished_read_becomes_the_page(
    view: ContainerView,
    request: PageIoRequest,
    kept: CachedFrame,
    frame: Option<Ppn>,
    has_waiters: bool,
    answers: CompletionAnswers,
)
    requires
        view.consistent(),
        view.sequence % 2 == 0,
        view.submission.owners.contains_key(request.id.0),
        view.submission.owners[request.id.0].payload == (PayloadView::Read { target: kept }),
        request.op == PageIoOp::Read,
        view.fetches.contains_key(request.range.start_page),
        view.fetches[request.range.start_page].request_id == Some(request.id),
        kept.wf(),
        answers.retire,
        answers.pinned is Ok,
    ensures
        ({
            let k = request.range.start_page;
            let (after, end) = view.finish_request(
                request,
                FileIoTerminalResult::Completion {
                    result: PageIoResult::Done,
                    kind: PageIoCompletionKind::ReadInstalled,
                    generation: view.fetches[k].generation,
                    frame,
                    notify_waiters: has_waiters,
                },
                answers,
            );
            let ppn = match frame {
                Some(named) => named,
                None => kept.ppn,
            };
            &&& is_bound(after, PageIndex(k), ppn, PageSlotState::Resident { ppn })
            &&& !after.fetches.contains_key(k)
            &&& agree_elsewhere(after, view, PageIndex(k))
            &&& after.waits == view.waits
            &&& end.notify == if has_waiters && view.waits.contains_key(k) {
                Some(view.waits[k])
            } else {
                None
            }
        }),
{
}

/// A read that fails leaves its page absent and in error, and one that could not
/// be submitted leaves it absent, for the next access to fetch.
pub proof fn law_a_failed_read_leaves_the_page_absent(
    view: ContainerView,
    request: PageIoRequest,
    kept: CachedFrame,
    errno: Errno,
    has_waiters: bool,
    answers: CompletionAnswers,
)
    requires
        view.consistent(),
        view.submission.owners.contains_key(request.id.0),
        view.submission.owners[request.id.0].payload == (PayloadView::Read { target: kept }),
        request.op == PageIoOp::Read,
        view.fetches.contains_key(request.range.start_page),
        view.fetches[request.range.start_page].request_id == Some(request.id),
    ensures
        ({
            let k = request.range.start_page;
            let (failed, end) = view.finish_request(
                request,
                FileIoTerminalResult::Completion {
                    result: PageIoResult::Failed(errno),
                    kind: PageIoCompletionKind::ReadInstalled,
                    generation: view.fetches[k].generation,
                    frame: None,
                    notify_waiters: has_waiters,
                },
                answers,
            );
            let given_up = view.finish_request(
                request,
                FileIoTerminalResult::SubmitFailure,
                answers,
            ).0;
            &&& failed.pages == view.pages && given_up.pages == view.pages
            &&& failed.root == view.root && given_up.root == view.root
            &&& failed.slots[k].inner.state == (PageSlotState::Error { errno })
            &&& given_up.slots[k].inner.state is Empty
            &&& !failed.fetches.contains_key(k) && !given_up.fetches.contains_key(k)
            &&& agree_elsewhere(failed, view, PageIndex(k))
            &&& agree_elsewhere(given_up, view, PageIndex(k))
            &&& end.notify == if has_waiters && view.waits.contains_key(k) {
                Some(view.waits[k])
            } else {
                None
            }
        }),
{
}

/// A completion counts only for the request that it is of: one of another range
/// or kind ends the request as never submitted, and one of no request changes
/// nothing.
pub proof fn law_a_completion_has_to_fit_its_request(
    view: ContainerView,
    route: PageCompletionRoute,
    answers: CompletionAnswers,
)
    requires
        route.completion.kind !is Noop,
    ensures
        ({
            let id = route.completion.id;
            let owners = view.submission.owners;
            let (after, end) = view.apply_route(route, answers);
            let request = owners[id.0].request;
            let fits = route.completion.range == request.range && match route.completion.kind {
                PageIoCompletionKind::ReadInstalled => request.op is Readahead || (request.op
                    is Read && request.range.page_count == 1),
                PageIoCompletionKind::WritebackFinished => request.op is Writeback,
                PageIoCompletionKind::Noop => false,
            };
            &&& !owners.contains_key(id.0) ==> after == view && end.result is None && end.notify
                is None && end.planner is None
            &&& owners.contains_key(id.0) && !fits ==> (after, end) == view.finish_request(
                request,
                FileIoTerminalResult::SubmitFailure,
                answers,
            )
            &&& owners.contains_key(id.0) && fits ==> (after, end) == view.finish_request(
                request,
                FileIoTerminalResult::Completion {
                    result: route.completion.result,
                    kind: route.completion.kind,
                    generation: route.completion.generation,
                    frame: route.frame,
                    notify_waiters: route.has_waiters,
                },
                answers,
            )
        }),
{
}

/// Whether version `generation` of page `k` still has to be written.
pub open spec fn needs_writing(view: ContainerView, k: u64, generation: PageGeneration) -> bool {
    &&& view.slots.contains_key(k)
    &&& view.slots[k].inner.state is Dirty
    &&& view.slots[k].inner.generation.0 <= generation.0
}

/// Whether page `k` is being written.
pub open spec fn being_written(view: ContainerView, k: u64) -> bool {
    view.slots.contains_key(k) && view.slots[k].inner.state is Writeback
}

/// Whether page `k` is in error.
pub open spec fn in_error(view: ContainerView, k: u64) -> bool {
    view.slots.contains_key(k) && view.slots[k].inner.state is Error
}

/// Whether `page` was captured in a version that still has to be written.
pub open spec fn captured_unwritten(
    view: ContainerView,
    pages: Seq<(PageIndex, PageGeneration)>,
    page: PageIndex,
) -> bool {
    exists|i: int|
        0 <= i < pages.len() && (#[trigger] pages[i]).0 == page && needs_writing(
            view,
            page.0,
            pages[i].1,
        )
}

proof fn lemma_frontier(view: ContainerView, pages: Seq<(PageIndex, PageGeneration)>)
    ensures
        view.frontier_error(pages) is None <==> forall|i: int|
            0 <= i < pages.len() ==> !in_error(view, (#[trigger] pages[i]).0.0),
        view.frontier_error(pages) matches Some(errno) ==> exists|i: int|
            0 <= i < pages.len() && in_error(view, (#[trigger] pages[i]).0.0)
                && view.slots[pages[i].0.0].inner.state == (PageSlotState::Error { errno }),
        view.frontier_needs(pages).len() == 0 <==> forall|i: int|
            0 <= i < pages.len() ==> !needs_writing(
                view,
                (#[trigger] pages[i]).0.0,
                pages[i].1,
            ),
        forall|j: int|
            0 <= j < view.frontier_needs(pages).len() ==> captured_unwritten(
                view,
                pages,
                #[trigger] view.frontier_needs(pages)[j],
            ),
    decreases pages.len(),
{
    if pages.len() > 0 {
        let init = pages.drop_last();
        let top = pages.len() - 1;
        lemma_frontier(view, init);
        let last = pages[top];
        assert forall|i: int| 0 <= i < init.len() implies #[trigger] init[i] == pages[i] by {}
        assert((view.frontier_status(last) is Error) == in_error(view, last.0.0));
        assert((view.frontier_status(last) is NeedsWriteback) == needs_writing(
            view,
            last.0.0,
            last.1,
        ));
        if view.frontier_error(init) is Some {
            let errno = view.frontier_error(init)->Some_0;
            let i = choose|i: int|
                0 <= i < init.len() && in_error(view, (#[trigger] init[i]).0.0)
                    && view.slots[init[i].0.0].inner.state == (PageSlotState::Error { errno });
            assert(pages[i] == init[i]);
            assert(in_error(view, pages[i].0.0));
        } else {
            assert forall|i: int| 0 <= i < init.len() implies !in_error(
                view,
                (#[trigger] pages[i]).0.0,
            ) by {
                assert(init[i] == pages[i]);
            }
        }
        let rest = view.frontier_needs(init);
        let all = view.frontier_needs(pages);
        assert forall|j: int| 0 <= j < all.len() implies captured_unwritten(
            view,
            pages,
            #[trigger] all[j],
        ) by {
            if j < rest.len() {
                assert(all[j] == rest[j]);
                assert(captured_unwritten(view, init, rest[j]));
                let i = choose|i: int|
                    0 <= i < init.len() && (#[trigger] init[i]).0 == rest[j] && needs_writing(
                        view,
                        init[i].0.0,
                        init[i].1,
                    );
                assert(pages[i] == init[i]);
                assert(pages[i].0 == all[j]);
            } else {
                assert(pages[top].0 == all[j]);
            }
        }
        if all.len() == 0 {
            assert forall|i: int| 0 <= i < pages.len() implies !needs_writing(
                view,
                (#[trigger] pages[i]).0.0,
                pages[i].1,
            ) by {
                if i < top {
                    assert(init[i] == pages[i]);
                }
            }
        } else if rest.len() > 0 {
            assert(captured_unwritten(view, init, rest[0]));
            let i = choose|i: int|
                0 <= i < init.len() && (#[trigger] init[i]).0 == rest[0] && needs_writing(
                    view,
                    init[i].0.0,
                    init[i].1,
                );
            assert(needs_writing(view, pages[i].0.0, pages[i].1));
        } else {
            assert(needs_writing(view, pages[top].0.0, pages[top].1));
        }
    }
}

/// The frontier of an fsync is complete exactly if none of its pages is in error
/// or being written and none still has to be written in its captured version;
/// then nothing changes. A page in error fails the fsync with its error. While
/// pages are only being written, the fsync waits.
pub proof fn law_a_frontier_is_complete_when_it_is_written(
    view: ContainerView,
    pages: Seq<(PageIndex, PageGeneration)>,
    batch_pins: Seq<Grant>,
    page_pins: Seq<Grant>,
)
    ensures
        ({
            let (after, advance) = view.advance_frontier(pages, batch_pins, page_pins);
            let failed = exists|i: int|
                0 <= i < pages.len() && in_error(view, (#[trigger] pages[i]).0.0);
            let writing = exists|i: int|
                0 <= i < pages.len() && being_written(view, (#[trigger] pages[i]).0.0);
            let needs = exists|i: int|
                0 <= i < pages.len() && needs_writing(view, (#[trigger] pages[i]).0.0, pages[i].1);
            &&& failed ==> after == view && (advance matches FileFsyncFrontierAdvance::Error(errno)
                && exists|i: int|
                0 <= i < pages.len() && in_error(view, (#[trigger] pages[i]).0.0)
                    && view.slots[pages[i].0.0].inner.state == (PageSlotState::Error { errno }))
            &&& !failed ==> advance !is Error
            &&& !failed && !needs ==> after == view && advance == if writing {
                FileFsyncFrontierAdvance::Waiting
            } else {
                FileFsyncFrontierAdvance::Complete
            }
            &&& !failed && needs ==> advance !is Complete
        }),
{
    lemma_frontier(view, pages);
    let needs = view.frontier_needs(pages);
    assert forall|i: int| 0 <= i < pages.len() implies being_written(
        view,
        (#[trigger] pages[i]).0.0,
    ) == (view.frontier_status(pages[i]) is WaitingForWriteback || view.frontier_status(pages[i])
        is WaitingForEarlierWriteback) by {}
    if exists|i: int| 0 <= i < pages.len() && being_written(view, (#[trigger] pages[i]).0.0) {
        let i = choose|i: int|
            0 <= i < pages.len() && being_written(view, (#[trigger] pages[i]).0.0);
        assert(view.frontier_status(pages[i]) is WaitingForWriteback || view.frontier_status(
            pages[i],
        ) is WaitingForEarlierWriteback);
        assert(view.frontier_waits(pages));
    }
    if needs.len() > 0 {
        lemma_some_run(view, needs, batch_pins, page_pins, 0);
    }
}

proof fn lemma_singles(
    view: ContainerView,
    candidates: Seq<PageIndex>,
    pins: Seq<Grant>,
    start: nat,
    end: nat,
)
    requires
        start < end,
    ensures
        ({
            let singles = view.queue_singles(candidates, pins, start, end);
            singles.admitted > 0 || singles.refused
        }),
    decreases end - start,
{
    let (after, id) = view.queue_batch(seq![candidates[start as int]], pins, start);
    if start + 1 < end {
        lemma_singles(after, candidates, pins, start + 1, end);
    }
}

proof fn lemma_some_run(
    view: ContainerView,
    candidates: Seq<PageIndex>,
    batch_pins: Seq<Grant>,
    page_pins: Seq<Grant>,
    start: nat,
)
    requires
        start < candidates.len(),
    ensures
        ({
            let runs = view.queue_runs(candidates, batch_pins, page_pins, start);
            runs.admitted > 0 || runs.refused
        }),
{
    crate::writeback::lemma_run_end(candidates, start, start + 1);
    let end = crate::writeback::run_end(candidates, start, start + 1);
    let (after, id) = view.queue_batch(
        candidates.subrange(start as int, end as int),
        batch_pins,
        start,
    );
    if id is None {
        lemma_singles(after, candidates, page_pins, start, end);
    }
}

/// Whether a batch gets as far as to begin the writeback of its page `i`: that page
/// lets it begin, and all before it are held.
pub open spec fn begins(
    view: ContainerView,
    pages: Seq<PageIndex>,
    pins: Seq<Grant>,
    offset: nat,
    i: int,
) -> bool {
    &&& can_be_written_back(view, pages[i].0)
    &&& forall|j: int|
        0 <= j < i ==> {
            &&& view.pages.contains_key((#[trigger] pages[j]).0)
            &&& can_be_written_back(view, pages[j].0)
            &&& offset + j < pins.len()
            &&& pins[offset + j] is Ok
        }
}

proof fn lemma_held_exactly(
    view: ContainerView,
    pages: Seq<PageIndex>,
    pins: Seq<Grant>,
    offset: nat,
    count: nat,
)
    requires
        count <= pages.len(),
    ensures
        ({
            let held = view.held_pages(pages, pins, offset, count);
            held < count ==> !({
                let page = pages[held as int];
                &&& view.pages.contains_key(page.0)
                &&& can_be_written_back(view, page.0)
                &&& offset + held < pins.len()
                &&& pins[(offset + held) as int] is Ok
            })
        }),
        view.held_pages(pages, pins, offset, count) <= count,
    decreases count,
{
    if count > 0 {
        lemma_held_exactly(view, pages, pins, offset, (count - 1) as nat);
        lemma_held(view, pages, pins, offset, (count - 1) as nat);
        let page = pages[count - 1];
        assert(view.writable_back(page) == can_be_written_back(view, page.0));
    }
}

/// A batch that is refused after it began undoes what it began: every page whose
/// writeback it had begun is dirty, in the frame and version that it has.
pub proof fn law_a_refused_batch_undoes_what_it_began(
    view: ContainerView,
    pages: Seq<PageIndex>,
    pins: Seq<Grant>,
    offset: nat,
    i: int,
)
    requires
        view.kind is File,
        0 <= i < pages.len() <= 64,
        forall|j: int| 0 <= j < pages.len() ==> (#[trigger] pages[j]).0 == pages[0].0 + j,
        !batch_is_possible(view, pages, pins, offset),
    ensures
        ({
            let after = view.queue_batch(pages, pins, offset).0;
            let k = pages[i].0;
            let was = view.slots[k].inner;
            &&& begins(view, pages, pins, offset, i) ==> {
                &&& after.slots.contains_key(k)
                &&& after.slots[k].inner.generation == was.generation
                &&& after.slots[k].inner.state == (PageSlotState::Dirty {
                    ppn: match was.state {
                        PageSlotState::Resident { ppn } => ppn,
                        PageSlotState::Dirty { ppn } => ppn,
                        _ => arbitrary(),
                    },
                })
            }
            &&& !begins(view, pages, pins, offset, i) && view.slots.contains_key(k)
                ==> after.slots[k] == view.slots[k]
        }),
{
    lemma_consecutive(pages);
    lemma_held(view, pages, pins, offset, pages.len());
    lemma_held_exactly(view, pages, pins, offset, pages.len());
    let held = view.held_pages(pages, pins, offset, pages.len()) as int;
    let k = pages[i].0;
    assert(k == pages[0].0 + i);
    assert(view.writable_back(pages[i]) == can_be_written_back(view, k));
    if begins(view, pages, pins, offset, i) && held < i {
        assert(view.pages.contains_key(pages[held].0));
    }
    if i < held {
        assert(begins(view, pages, pins, offset, i)) by {
            assert(can_be_written_back(view, pages[i].0));
        }
    }
    if i == held {
        assert forall|j: int| 0 <= j < i implies {
            &&& view.pages.contains_key((#[trigger] pages[j]).0)
            &&& can_be_written_back(view, pages[j].0)
            &&& offset + j < pins.len()
            &&& pins[offset + j] is Ok
        } by {}
    }
}

/// Candidates that are tried one by one are each a request of their own, with their
/// own pins, each on what the ones before it left. As many are admitted as get a
/// request; one that gets none is refused.
pub proof fn law_candidates_are_tried_one_by_one(
    view: ContainerView,
    candidates: Seq<PageIndex>,
    pins: Seq<Grant>,
    start: nat,
    end: nat,
)
    requires
        start < end <= candidates.len(),
    ensures
        ({
            let all = view.queue_singles(candidates, pins, start, end);
            let one = seq![candidates[start as int]];
            let (after, id) = view.queue_batch(one, pins, start);
            let rest = after.queue_singles(candidates, pins, start + 1, end);
            &&& all.view == rest.view
            &&& id is Some ==> all.admitted == rest.admitted + 1 && all.refused == rest.refused
            &&& id is None ==> all.admitted == rest.admitted && all.refused
        }),
        ({
            let none = view.queue_singles(candidates, pins, end, end);
            none.view == view && none.admitted == 0 && !none.refused
        }),
{
}

/// Candidates are tried run by run, each run as one request; one that is refused is
/// tried page by page. What the runs admit adds up, and any refused page counts.
pub proof fn law_candidates_are_tried_run_by_run(
    view: ContainerView,
    candidates: Seq<PageIndex>,
    batch_pins: Seq<Grant>,
    page_pins: Seq<Grant>,
    start: nat,
)
    requires
        start < candidates.len(),
    ensures
        ({
            let all = view.queue_runs(candidates, batch_pins, page_pins, start);
            let end = crate::writeback::run_end(candidates, start, start + 1);
            let run = candidates.subrange(start as int, end as int);
            let (after, id) = view.queue_batch(run, batch_pins, start);
            let singles = after.queue_singles(candidates, page_pins, start, end);
            &&& start < end <= candidates.len()
            &&& id is Some ==> {
                let rest = after.queue_runs(candidates, batch_pins, page_pins, end);
                &&& all.view == rest.view
                &&& all.admitted == rest.admitted + run.len()
                &&& all.refused == rest.refused
            }
            &&& id is None ==> {
                let rest = singles.view.queue_runs(candidates, batch_pins, page_pins, end);
                &&& all.view == rest.view
                &&& all.admitted == rest.admitted + singles.admitted
                &&& all.refused == (singles.refused || rest.refused)
            }
        }),
        ({
            let len = candidates.len();
            let none = view.queue_runs(candidates, batch_pins, page_pins, len);
            none.view == view && none.admitted == 0 && !none.refused
        }),
{
    crate::writeback::lemma_run_end(candidates, start, start + 1);
}

/// Whether page number `k`, captured as `generation`, is not in that writeback.
pub open spec fn is_not_in_writeback(view: ContainerView, k: u64, generation: PageGeneration) -> bool {
    ||| !view.slots.contains_key(k)
    ||| !(view.slots[k].inner.state matches PageSlotState::Writeback { submitted_generation, .. }
        && submitted_generation == generation)
}

proof fn lemma_batch_result(
    view: ContainerView,
    generations: Seq<(PageIndex, PageGeneration)>,
    end: WritebackEnd,
    count: nat,
)
    requires
        captured_once(generations),
        count <= generations.len(),
    ensures
        ({
            let batch = view.end_writeback(generations, end, count);
            &&& batch.first_error is Some == exists|i: int|
                0 <= i < count && is_not_in_writeback(
                    view,
                    (#[trigger] generations[i]).0.0,
                    generations[i].1,
                )
            &&& batch.first_done is Some == exists|i: int|
                0 <= i < count && !is_not_in_writeback(
                    view,
                    (#[trigger] generations[i]).0.0,
                    generations[i].1,
                )
        }),
    decreases count,
{
    if count > 0 {
        let before = view.end_writeback(generations, end, (count - 1) as nat);
        let batch = view.end_writeback(generations, end, count);
        lemma_batch_result(view, generations, end, (count - 1) as nat);
        lemma_end_writeback(view, generations, end, (count - 1) as nat);
        let (page, generation) = generations[count - 1];
        assert forall|i: int| 0 <= i < count - 1 implies (#[trigger] generations[i]).0.0
            != page.0 by {
            assert(generations[i].0 != generations[count - 1].0);
        }
        assert(before.view.slots.contains_key(page.0) == view.slots.contains_key(page.0));
        if view.slots.contains_key(page.0) {
            assert(before.view.slots[page.0] == view.slots[page.0]);
        }
        let last_fails = is_not_in_writeback(view, page.0, generation);
        if before.first_error is Some {
            let i = choose|i: int|
                0 <= i < count - 1 && is_not_in_writeback(
                    view,
                    (#[trigger] generations[i]).0.0,
                    generations[i].1,
                );
            assert(is_not_in_writeback(view, generations[i].0.0, generations[i].1));
        }
        if before.first_done is Some {
            let i = choose|i: int|
                0 <= i < count - 1 && !is_not_in_writeback(
                    view,
                    (#[trigger] generations[i]).0.0,
                    generations[i].1,
                );
            assert(!is_not_in_writeback(view, generations[i].0.0, generations[i].1));
        }
        assert(batch.first_error is Some == (before.first_error is Some || last_fails));
        assert(batch.first_done is Some == (before.first_done is Some || !last_fails));
    }
}

/// What a writeback request reports is an error where any of its pages was not in
/// that writeback, and else the success of its first page.
pub proof fn law_any_page_out_of_writeback_is_an_error(
    view: ContainerView,
    generations: Seq<(PageIndex, PageGeneration)>,
    end: WritebackEnd,
)
    requires
        captured_once(generations),
    ensures
        ({
            let reported = view.end_writeback(generations, end, generations.len()).result();
            let strayed = exists|i: int|
                0 <= i < generations.len() && is_not_in_writeback(
                    view,
                    (#[trigger] generations[i]).0.0,
                    generations[i].1,
                );
            &&& reported is Some == (generations.len() > 0)
            &&& reported matches Some(result) ==> result is Err == strayed
        }),
{
    lemma_batch_result(view, generations, end, generations.len());
    if generations.len() > 0 {
        assert(generations[0] == generations[0]);
        let first = is_not_in_writeback(view, generations[0].0.0, generations[0].1);
    }
}

/// A completion that names another version than the request settles no page; the
/// request is over all the same, and the mismatch is reported.
pub proof fn law_a_completion_of_another_version_settles_nothing(
    view: ContainerView,
    request: PageIoRequest,
    lease: LeaseView,
    result: PageIoResult,
    generation: PageGeneration,
    frame: Option<Ppn>,
    has_waiters: bool,
    answers: CompletionAnswers,
)
    requires
        view.submission.owners.contains_key(request.id.0),
        view.submission.owners[request.id.0].payload == (PayloadView::Writeback { lease }),
        request.op is Writeback,
        request.generation_hint != Some(generation),
    ensures
        ({
            let (after, end) = view.finish_request(
                request,
                FileIoTerminalResult::Completion {
                    result,
                    kind: PageIoCompletionKind::WritebackFinished,
                    generation,
                    frame,
                    notify_waiters: has_waiters,
                },
                answers,
            );
            &&& after == (ContainerView { submission: after.submission, ..view })
            &&& !after.submission.owners.contains_key(request.id.0)
            &&& !after.submission.rows.contains_key(request.id.0)
            &&& end.result matches Some(Err(error)) && (error matches
                crate::slot::PageSlotCompletionError::GenerationMismatch { completed, .. }
                && completed == generation)
            &&& end.notify is None
        }),
{
}

/// A request that keeps another payload than its operation takes is over without
/// touching a page.
pub proof fn law_a_request_with_another_payload_settles_nothing(
    view: ContainerView,
    request: PageIoRequest,
    terminal: FileIoTerminalResult,
    answers: CompletionAnswers,
)
    requires
        terminal is Completion,
        view.submission.owners.contains_key(request.id.0),
        ({
            let payload = view.submission.owners[request.id.0].payload;
            !(payload is Writeback && request.op is Writeback) && !(payload is Read && request.op
                is Read)
        }),
    ensures
        ({
            let (after, end) = view.finish_request(request, terminal, answers);
            &&& after == (ContainerView { submission: after.submission, ..view })
            &&& !after.submission.owners.contains_key(request.id.0)
            &&& end.result is None
            &&& end.notify is None
        }),
{
}

/// A read whose request is not submitted brings no page: the fetch is over, and the
/// page is empty in a new version, so that the next access starts over.
pub proof fn law_a_read_that_is_not_submitted_is_over(
    view: ContainerView,
    request: PageIoRequest,
    answers: CompletionAnswers,
)
    requires
        view.consistent(),
        request.op is Read,
        view.submission.owners.contains_key(request.id.0),
        view.fetches.contains_key(request.range.start_page),
        view.fetches[request.range.start_page].request_id == Some(request.id),
    ensures
        ({
            let k = request.range.start_page;
            let (after, end) = view.finish_request(
                request,
                FileIoTerminalResult::SubmitFailure,
                answers,
            );
            &&& !after.fetches.contains_key(k)
            &&& after.fetches =~= view.fetches.remove(k)
            &&& after.slots[k].inner.state is Empty
            &&& after.slots[k].inner.generation != view.slots[k].inner.generation
            &&& after.slots.remove(k) =~= view.slots.remove(k)
            &&& after.pages == view.pages
            &&& after.root == view.root
            &&& !after.submission.owners.contains_key(request.id.0)
            &&& !after.submission.rows.contains_key(request.id.0)
            &&& end.result is None
        }),
{
}

/// A finished read of a page that is cached already keeps the cached frame: what
/// was read is dropped.
pub proof fn law_a_cached_page_outlives_a_read(
    view: ContainerView,
    page: PageIndex,
    generation: PageGeneration,
    frame: CachedFrame,
    retire: bool,
)
    requires
        view.pages.contains_key(page.0),
        view.slots.contains_key(page.0),
    ensures
        ({
            let (after, result) = view.read_into(page, generation, frame, retire);
            let slot = view.slots[page.0].inner;
            let waits = slot.state is Fetching && slot.generation == generation;
            &&& after.pages == view.pages
            &&& after.root == view.root
            &&& result is Ok == waits
            &&& waits ==> after.slots[page.0].inner == (PageSlotSnapshot {
                state: PageSlotState::Resident { ppn: view.pages[page.0].ppn },
                generation,
            })
            &&& !waits ==> after.slots[page.0].inner == slot
        }),
{
}

/// A read that the backend put into a frame of its own fails for want of memory where
/// that frame cannot be pinned; the page that waits for it is in error.
pub proof fn law_a_frame_that_cannot_be_pinned_fails_the_read(
    view: ContainerView,
    page: PageIndex,
    generation: PageGeneration,
    ppn: Ppn,
    answers: CompletionAnswers,
)
    requires
        answers.pinned is Err,
    ensures
        ({
            let (after, result) = view.read_into_frame(page, generation, ppn, answers);
            let waits = view.slots.contains_key(page.0) && view.slots[page.0].inner.state
                is Fetching && view.slots[page.0].inner.generation == generation;
            &&& after.pages == view.pages
            &&& after.root == view.root
            &&& result is Ok == waits
            &&& waits ==> after.slots[page.0].inner == (PageSlotSnapshot {
                state: PageSlotState::Error { errno: Errno::ENOMEM },
                generation,
            })
            &&& !waits ==> after.slots =~= view.slots
        }),
{
}

proof fn lemma_all_need(view: ContainerView, pages: Seq<(PageIndex, PageGeneration)>)
    requires
        forall|i: int|
            0 <= i < pages.len() ==> needs_writing(view, (#[trigger] pages[i]).0.0, pages[i].1),
    ensures
        view.frontier_error(pages) is None,
        view.frontier_needs(pages).len() == pages.len(),
        forall|i: int|
            0 <= i < pages.len() ==> #[trigger] view.frontier_needs(pages)[i] == pages[i].0,
    decreases pages.len(),
{
    if pages.len() > 0 {
        let init = pages.drop_last();
        assert forall|i: int| 0 <= i < init.len() implies needs_writing(
            view,
            (#[trigger] init[i]).0.0,
            init[i].1,
        ) by {
            assert(needs_writing(view, pages[i].0.0, pages[i].1));
        }
        lemma_all_need(view, init);
        let last = pages.len() - 1;
        assert(needs_writing(view, pages[last].0.0, pages[last].1));
        assert(view.frontier_status(pages.last()) is NeedsWriteback);
        assert forall|i: int| 0 <= i < pages.len() implies #[trigger] view.frontier_needs(
            pages,
        )[i] == pages[i].0 by {
            if i < last {
                assert(view.frontier_needs(init)[i] == init[i].0);
            }
        }
    }
}

/// A step of an fsync whose captured pages all have to be written puts every one of
/// them into writeback, as the version that it has, where the pins are granted and
/// there is room, and says how many.
pub proof fn law_a_step_of_an_fsync_submits_its_pages(
    view: ContainerView,
    pages: Seq<(PageIndex, PageGeneration)>,
    batch_pins: Seq<Grant>,
    page_pins: Seq<Grant>,
    i: int,
)
    requires
        view.kind is File,
        view.consistent(),
        0 <= i < pages.len() <= u32::MAX,
        forall|a: int, b: int|
            0 <= a < b < pages.len() ==> (#[trigger] pages[a]).0.0 < (#[trigger] pages[b]).0.0,
        forall|j: int|
            0 <= j < pages.len() ==> needs_writing(view, (#[trigger] pages[j]).0.0, pages[j].1),
        pages.len() <= batch_pins.len(),
        forall|j: int| 0 <= j < batch_pins.len() ==> (#[trigger] batch_pins[j]) is Ok,
        has_room_for(view, pages.len()),
    ensures
        ({
            let (after, advance) = view.advance_frontier(pages, batch_pins, page_pins);
            &&& advance == (FileFsyncFrontierAdvance::Submitted { pages: pages.len() as u32 })
            &&& in_writeback(after, view, pages[i].0.0)
        }),
{
    lemma_all_need(view, pages);
    let needs = view.frontier_needs(pages);
    assert(all_dirty(view, needs, batch_pins, 0)) by {
        assert forall|a: int, b: int| 0 <= a < b < needs.len() implies (#[trigger] needs[a]).0 < (
        #[trigger] needs[b]).0 by {
            assert(needs[a] == pages[a].0 && needs[b] == pages[b].0);
        }
        assert forall|j: int| 0 <= j < needs.len() implies {
            &&& view.pages.contains_key((#[trigger] needs[j]).0)
            &&& view.slots.contains_key(needs[j].0)
            &&& view.slots[needs[j].0].inner.state == (PageSlotState::Dirty {
                ppn: view.pages[needs[j].0].ppn,
            })
            &&& j < batch_pins.len()
            &&& batch_pins[j] is Ok
        } by {
            let k = needs[j].0;
            assert(needs[j] == pages[j].0);
            assert(needs_writing(view, pages[j].0.0, pages[j].1));
            assert(view.slots.contains_key(k) && view.slots[k].inner.state.frame() is Some);
        }
    }
    law_dirty_pages_are_all_admitted(view, needs, batch_pins, page_pins);
    assert(needs[i] == pages[i].0);
}

} // verus!
