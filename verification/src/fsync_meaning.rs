//! What an fsync comes to: how captured pages are put together, what it asks of
//! the page service, and when it is through.

use crate::container::ContainerView;
use crate::frame::Grant;
use crate::fsync::FsyncStateView;
use crate::fsync_run::FsyncNextView;
use crate::fsync_submission::FsyncSubmissionState;
use crate::ids::{Errno, PageGeneration, PageIndex, PageIoRequestId};
use crate::lifecycle::FsCall;
use crate::sparse_index::increasing;
use crate::step::{PageProgress, StepOutcome};
use crate::writeback::{
    batches, captured, run_end, FileFsyncFrontierAdvance, FrontierBatch,
};
use vstd::prelude::*;

verus! {

/// Whether page number `k` is captured at place `i`, and nowhere later.
pub open spec fn last_captured(
    pages: Seq<(PageIndex, PageGeneration)>,
    k: u64,
    i: int,
) -> bool {
    &&& 0 <= i < pages.len()
    &&& pages[i].0.0 == k
    &&& forall|j: int| i < j < pages.len() ==> (#[trigger] pages[j]).0.0 != k
}

/// The captured pages are those that are named, each with the version that is named
/// last for it.
pub proof fn law_the_last_captured_version_counts(
    pages: Seq<(PageIndex, PageGeneration)>,
    k: u64,
    i: int,
)
    ensures
        last_captured(pages, k, i) ==> captured(pages).contains_key(k) && captured(pages)[k]
            == pages[i].1,
        captured(pages).contains_key(k) == exists|j: int|
            0 <= j < pages.len() && (#[trigger] pages[j]).0.0 == k,
    decreases pages.len(),
{
    if pages.len() > 0 {
        let init = pages.drop_last();
        let last = pages.len() - 1;
        law_the_last_captured_version_counts(init, k, i);
        assert(forall|j: int| 0 <= j < init.len() ==> #[trigger] init[j] == pages[j]);
        if pages.last().0.0 == k {
            assert(pages[last].0.0 == k);
        }
        if exists|j: int| 0 <= j < init.len() && (#[trigger] init[j]).0.0 == k {
            let j = choose|j: int| 0 <= j < init.len() && (#[trigger] init[j]).0.0 == k;
            assert(pages[j].0.0 == k);
        }
        if exists|j: int| 0 <= j < pages.len() && (#[trigger] pages[j]).0.0 == k {
            let j = choose|j: int| 0 <= j < pages.len() && (#[trigger] pages[j]).0.0 == k;
            if j < last {
                assert(init[j].0.0 == k);
            }
        }
        if last_captured(pages, k, i) && i < last {
            assert(pages[last].0.0 != k);
            assert(last_captured(init, k, i));
        }
    }
}

/// Whether page number `k` is one of the pages of `batch`.
pub open spec fn is_in(batch: FrontierBatch, k: int) -> bool {
    batch.range.start_page <= k < batch.range.start_page + batch.range.page_count
}

/// Whether `later` starts behind `batch` and does not go on with it.
pub open spec fn parts(batch: FrontierBatch, later: FrontierBatch) -> bool {
    let end = batch.range.start_page + batch.range.page_count;
    &&& end <= later.range.start_page
    &&& end == later.range.start_page ==> batch.generation != later.generation
}

/// Every captured page is in a batch, with its version.
pub open spec fn all_batched(
    groups: Seq<FrontierBatch>,
    keys: Seq<u64>,
    generations: Map<u64, PageGeneration>,
) -> bool {
    forall|i: int|
        0 <= i < keys.len() ==> exists|g: int|
            {
                &&& 0 <= g < groups.len()
                &&& is_in(#[trigger] groups[g], #[trigger] keys[i] as int)
                &&& groups[g].generation == generations[keys[i]]
            }
}

/// Every page of a batch is captured, with the version of the batch.
pub open spec fn only_captured(
    groups: Seq<FrontierBatch>,
    keys: Seq<u64>,
    generations: Map<u64, PageGeneration>,
) -> bool {
    forall|g: int, k: u64|
        0 <= g < groups.len() && #[trigger] is_in(groups[g], k as int) ==> {
            &&& keys.contains(k)
            &&& generations[k] == groups[g].generation
        }
}

/// Captured pages in ascending order come in batches: each page in one batch, with
/// its version; only captured pages; and neighbours of one version together.
pub proof fn law_neighbours_of_one_version_are_batched(
    keys: Seq<u64>,
    generations: Map<u64, PageGeneration>,
)
    requires
        increasing(keys),
        keys.len() <= u64::MAX,
    ensures
        ({
            let groups = batches(keys, generations);
            &&& all_batched(groups, keys, generations)
            &&& only_captured(groups, keys, generations)
            &&& forall|g: int|
                0 <= g < groups.len() ==> 0 < (#[trigger] groups[g]).range.page_count <= keys.len()
            &&& forall|g: int|
                0 < g < groups.len() ==> parts(groups[g - 1], #[trigger] groups[g])
            &&& keys.len() > 0 ==> groups.len() > 0 && groups.last().range.start_page
                + groups.last().range.page_count == keys.last() + 1
        }),
    decreases keys.len(),
{
    if keys.len() > 0 {
        let init = keys.drop_last();
        let last = keys.last();
        let at = keys.len() - 1;
        assert forall|i: int, j: int| 0 <= i < j < init.len() implies (#[trigger] init[i]) < (
        #[trigger] init[j]) by {
            assert(keys[i] < keys[j]);
        }
        law_neighbours_of_one_version_are_batched(init, generations);
        let rest = batches(init, generations);
        let groups = batches(keys, generations);
        if init.len() > 0 {
            assert(keys[at - 1] < keys[at]);
            assert(init.last() == keys[at - 1]);
        } else {
            assert(rest.len() == 0);
        }
        let end = groups.len() - 1;
        let joins = rest.len() > 0 && rest.last().generation == generations[last]
            && rest.last().range.start_page + rest.last().range.page_count == last;
        if joins {
            assert(rest[rest.len() - 1].range.page_count <= init.len());
            assert(groups[end].range.start_page == rest.last().range.start_page);
            assert(groups[end].range.page_count == rest.last().range.page_count + 1);
        } else {
            assert(groups[end].range.start_page == last && groups[end].range.page_count == 1);
        }
        assert(groups[end].generation == generations[last]);
        assert(is_in(groups[end], last as int));
        assert(forall|g: int| 0 <= g < end ==> #[trigger] groups[g] == rest[g]);
        assert forall|i: int| 0 <= i < keys.len() implies exists|g: int|
            {
                &&& 0 <= g < groups.len()
                &&& is_in(#[trigger] groups[g], #[trigger] keys[i] as int)
                &&& groups[g].generation == generations[keys[i]]
            } by {
            if i < at {
                assert(init[i] == keys[i]);
                let g = choose|g: int|
                    {
                        &&& 0 <= g < rest.len()
                        &&& is_in(#[trigger] rest[g], init[i] as int)
                        &&& rest[g].generation == generations[init[i]]
                    };
                if g < end {
                    assert(groups[g] == rest[g]);
                } else {
                    assert(joins && g == end);
                }
                assert(is_in(groups[g], keys[i] as int));
            } else {
                assert(is_in(groups[end], keys[i] as int));
            }
        }
        assert forall|g: int, k: u64|
            0 <= g < groups.len() && #[trigger] is_in(groups[g], k as int) implies {
            &&& keys.contains(k)
            &&& generations[k] == groups[g].generation
        } by {
            if k == last {
                assert(keys[at] == k);
                if g < end {
                    assert(is_in(rest[g], k as int));
                    assert(init.contains(k));
                    let i = init.index_of(k);
                    assert(keys[i] < keys[at]);
                }
            } else {
                if g == end {
                    assert(joins);
                }
                assert(is_in(rest[g], k as int));
                assert(init.contains(k));
                let i = init.index_of(k);
                assert(keys[i] == k);
            }
        }
        assert forall|g: int| 0 < g < groups.len() implies parts(
            groups[g - 1],
            #[trigger] groups[g],
        ) by {
            if g < rest.len() {
                assert(parts(rest[g - 1], rest[g]));
                assert(groups[g - 1] == rest[g - 1]);
            } else {
                assert(!joins && g == end);
                assert(groups[g - 1] == rest.last());
            }
        }
    }
}

/// A run of writeback candidates goes on while each page follows the one before, up
/// to sixty-four pages, and stops only where one does not.
pub proof fn law_a_run_goes_as_far_as_it_can(candidates: Seq<PageIndex>, start: nat, end: nat)
    requires
        start < end <= candidates.len(),
        end - start <= 64,
        forall|i: int, j: int|
            0 <= i < j < candidates.len() ==> (#[trigger] candidates[i]).0 < (
            #[trigger] candidates[j]).0,
        forall|i: int|
            start < i < end ==> (#[trigger] candidates[i]).0 == candidates[i - 1].0 + 1,
    ensures
        ({
            let stop = run_end(candidates, start, end) as int;
            &&& end <= stop <= candidates.len()
            &&& stop - start <= 64
            &&& forall|i: int|
                start < i < stop ==> (#[trigger] candidates[i]).0 == candidates[i - 1].0 + 1
            &&& stop < candidates.len() && stop - start < 64 ==> candidates[stop].0
                != candidates[stop - 1].0 + 1
        }),
    decreases candidates.len() - end,
{
    if end < candidates.len() && end - start < 64 && candidates[end as int].0
        == candidates[end - 1].0 + 1 {
        law_a_run_goes_as_far_as_it_can(candidates, start, end + 1);
    } else if end < candidates.len() {
        assert(candidates[end - 1].0 < candidates[end as int].0);
    }
}

/// A durability request of a file is submitted where there is room: for the whole
/// file, at least one page, as a barrier. It is waited for from then on.
pub proof fn law_a_durability_request_is_for_the_whole_file(view: ContainerView)
    ensures
        ({
            let (after, submitted) = view.submit_fsync();
            let id = view.submission.next_id;
            &&& submitted is Some == (view.kind is File && view.submission.rows.len()
                < view.submission.capacity && !view.submission.rows.contains_key(id)
                && !view.submission.owners.contains_key(id))
            &&& submitted is None ==> after == view
            &&& submitted matches Some(given) ==> {
                &&& given.0 == id
                &&& after.submission.rows.contains_key(id)
                &&& ({
                    let request = after.submission.rows[id];
                    &&& request.id == given
                    &&& request.op is Fsync
                    &&& request.priority is Fsync
                    &&& request.flags is Barrier
                    &&& request.generation_hint is None
                    &&& request.range.start_page == 0
                    &&& request.range.page_count == if view.page_count == 0 {
                        1
                    } else {
                        view.page_count
                    }
                })
                &&& after.submission.rows.remove(id) =~= view.submission.rows.remove(id)
                &&& after.submission.owners == view.submission.owners
                &&& after.submission.waiters == view.submission.waiters
                &&& after.fsyncs.contains_key(id)
                &&& after.fsyncs[id].id == given
                &&& after.fsyncs[id].state is Queued
                &&& after.fsyncs.remove(id) =~= view.fsyncs.remove(id)
                &&& after == ContainerView {
                    submission: after.submission,
                    fsyncs: after.fsyncs,
                    ..view
                }
                &&& after.take_fsync(given).1 is None
            }
        }),
{
}

/// The result of a durability request can be taken once it is there, and once.
pub proof fn law_a_durability_result_is_taken_once(view: ContainerView, id: PageIoRequestId)
    ensures
        ({
            let (after, taken) = view.take_fsync(id);
            let there = view.fsyncs.contains_key(id.0) && view.fsyncs[id.0].state is Complete;
            &&& taken is Some == there
            &&& taken matches Some(result) ==> {
                &&& view.fsyncs[id.0].state == FsyncSubmissionState::Complete(result)
                &&& !after.fsyncs.contains_key(id.0)
                &&& after.fsyncs =~= view.fsyncs.remove(id.0)
                &&& after.take_fsync(id).1 is None
            }
            &&& !there ==> after == view
            &&& after == ContainerView { fsyncs: after.fsyncs, ..view }
        }),
{
}

/// What an fsync is told of a durability result.
pub open spec fn through(result: Result<(), Errno>) -> Result<FileFsyncFrontierAdvance, Errno> {
    match result {
        Ok(()) => Ok(FileFsyncFrontierAdvance::Complete),
        Err(errno) => Err(errno),
    }
}

/// An fsync whose durability request has ended stands by that result, whatever is
/// written since.
pub proof fn law_a_durability_result_stands(
    state: FsyncStateView,
    view: ContainerView,
    batch_pins: Seq<Grant>,
    page_pins: Seq<Grant>,
)
    requires
        state.backend_result is Some,
    ensures
        ({
            let (kept, after, advance) = state.advance(view, batch_pins, page_pins);
            &&& kept == state
            &&& after == view
            &&& advance == through(state.backend_result->Some_0)
        }),
{
}

/// An fsync goes on with its captured pages, captured once. Only when these are
/// written does its durability request count: without one it is through, with one it
/// waits for the end of it and takes the result, and one that is lost is an error.
pub proof fn law_an_fsync_waits_for_its_pages_then_for_its_request(
    state: FsyncStateView,
    view: ContainerView,
    batch_pins: Seq<Grant>,
    page_pins: Seq<Grant>,
)
    requires
        state.backend_result is None,
    ensures
        ({
            let (kept, after, advance) = state.advance(view, batch_pins, page_pins);
            let pages = if state.frontier is Some {
                state.frontier->Some_0
            } else {
                view.fsync_frontier()
            };
            let (stepped, step) = view.advance_frontier(pages, batch_pins, page_pins);
            let id = state.request->Some_0;
            let known = stepped.fsyncs.contains_key(id.0);
            &&& kept.frontier == Some(pages)
            &&& step matches FileFsyncFrontierAdvance::Error(errno) ==> advance == Err::<
                FileFsyncFrontierAdvance,
                Errno,
            >(errno)
            &&& step !is Error && (step !is Complete || state.request is None) ==> advance == Ok::<
                FileFsyncFrontierAdvance,
                Errno,
            >(step)
            &&& step !is Complete || state.request is None ==> after == stepped && kept.request
                == state.request && kept.backend_result is None
            &&& step is Complete && state.request is Some ==> {
                if known && stepped.fsyncs[id.0].state is Complete {
                    let result = stepped.fsyncs[id.0].state->Complete_0;
                    &&& advance == through(result)
                    &&& kept.request is None
                    &&& kept.backend_result == Some(result)
                    &&& !after.fsyncs.contains_key(id.0)
                    &&& after == ContainerView { fsyncs: after.fsyncs, ..stepped }
                } else {
                    &&& after == stepped
                    &&& kept.request == state.request
                    &&& kept.backend_result is None
                    &&& advance == if known && stepped.fsyncs[id.0].state is Queued {
                        Ok::<FileFsyncFrontierAdvance, Errno>(FileFsyncFrontierAdvance::Waiting)
                    } else {
                        Err(Errno::EIO)
                    }
                }
            }
        }),
{
}

/// An fsync submits one durability request. Where it has one, or a result, it does
/// nothing; where none is admitted, that is an error.
pub proof fn law_an_fsync_submits_one_request(state: FsyncStateView, view: ContainerView)
    ensures
        ({
            let (kept, after, result) = state.submit_backend(view);
            let (submitted, id) = view.submit_fsync();
            let due = state.request is None && state.backend_result is None;
            &&& !due ==> kept == state && after == view && result is Ok
            &&& due && id is Some ==> {
                &&& result is Ok
                &&& kept.request == id
                &&& kept.frontier == state.frontier
                &&& kept.backend_result is None
                &&& after == submitted
                &&& kept.submit_backend(after).1 == after
            }
            &&& due && id is None ==> {
                &&& result matches Err(errno) && errno is EIO
                &&& kept == state
                &&& after == view
            }
        }),
{
}

/// An fsync through a planner asks for the sync exactly when the writeback of its
/// pages is complete; an error ends it, and else it goes on later.
pub proof fn law_a_planned_fsync_syncs_when_the_pages_are_written(
    view: ContainerView,
    advance: Result<FileFsyncFrontierAdvance, Errno>,
)
    requires
        view.kind is File,
    ensures
        match advance {
            Ok(FileFsyncFrontierAdvance::Complete) => view.planned_fsync_begun(advance) matches
                FsyncNextView::Call { call, run } && call == (FsCall::SyncFile {
                object: view.kind->fs_object_id,
            }) && run.phase is Sync && run.flushed == 0 && run.dirty.len() == 0,
            Ok(FileFsyncFrontierAdvance::Error(errno)) => view.planned_fsync_begun(advance)
                == FsyncNextView::Ended(StepOutcome::Error(errno)),
            Err(errno) => view.planned_fsync_begun(advance) == FsyncNextView::Ended(
                StepOutcome::Error(errno),
            ),
            Ok(_) => view.planned_fsync_begun(advance) == FsyncNextView::Ended(
                StepOutcome::Continue { progress: PageProgress(0) },
            ),
        },
{
}

} // verus!
