//! What reclaim comes to: which pages it looks at, which of them a container gives
//! up, and how the containers of a system share a round.

use crate::container::ContainerView;
use crate::direct_meaning::{held_properly, same_cache};
use crate::ids::{AllocError, PageIndex, Ppn};
use crate::page_cache::{lemma_selected, lemma_selected_increasing, selected};
use crate::range::{PageRange, RangeReservationKind};
use crate::range_meaning::{covers, in_the_way, law_a_free_range_is_granted};
use crate::reclaim::{is_low, reclaim_round, PAGE_CACHE_RECLAIM_BATCH};
use crate::residency_meaning::{can_publish, have_left};
use crate::slot::PageSlotState;
use crate::sparse_index::{lemma_ascending, lists};
use vstd::prelude::*;

verus! {

/// Whether reclaim may look at page number `k`.
pub open spec fn is_reclaimable(view: ContainerView, k: u64) -> bool {
    view.pages.contains_key(k) && !view.pages[k].marks.no_reclaim
}

/// Whether the container can do without page number `k`: it is clean, and nobody
/// holds it.
pub open spec fn is_spare(view: ContainerView, k: u64) -> bool {
    &&& view.pages.contains_key(k)
    &&& view.slots.contains_key(k)
    &&& view.slots[k].inner.state == (PageSlotState::Resident { ppn: view.pages[k].ppn })
    &&& forall|i: int|
        0 <= i < view.reservations.len() ==> !covers(
            (#[trigger] view.reservations[i]).range,
            k as int,
        )
}

/// Whether `candidates` name page number `k`.
pub open spec fn looked_at(candidates: Seq<(PageIndex, Ppn)>, k: u64) -> bool {
    exists|i: int| 0 <= i < candidates.len() && (#[trigger] candidates[i]).0.0 == k
}

/// Reclaim looks at the lowest pages that it may look at, as many as the budget
/// says: each of them once, in order, in its frame. It passes one over only where
/// the budget is used up by lower ones.
pub proof fn law_reclaim_looks_at_the_lowest_pages(
    view: ContainerView,
    budget: usize,
    order: Seq<u64>,
    k: u64,
)
    requires
        lists(order, view.pages.dom()),
    ensures
        ({
            let candidates = view.reclaim_candidates(budget);
            &&& candidates.len() <= budget
            &&& forall|i: int|
                0 <= i < candidates.len() ==> {
                    &&& is_reclaimable(view, (#[trigger] candidates[i]).0.0)
                    &&& candidates[i].1 == view.pages[candidates[i].0.0].ppn
                }
            &&& forall|i: int, j: int|
                0 <= i < j < candidates.len() ==> (#[trigger] candidates[i]).0.0 < (
                #[trigger] candidates[j]).0.0
            &&& is_reclaimable(view, k) && !looked_at(candidates, k) ==> {
                &&& candidates.len() == budget
                &&& forall|i: int|
                    0 <= i < candidates.len() ==> (#[trigger] candidates[i]).0.0 < k
            }
        }),
{
    lemma_ascending(order, view.pages.dom());
    let keep = |k: u64| !view.pages[k].marks.no_reclaim;
    lemma_selected(order, view.pages, keep);
    lemma_selected_increasing(order, view.pages, keep);
    let all = selected(order, view.pages, keep);
    let candidates = view.reclaim_candidates(budget);
    assert forall|i: int| 0 <= i < candidates.len() implies {
        &&& is_reclaimable(view, (#[trigger] candidates[i]).0.0)
        &&& candidates[i].1 == view.pages[candidates[i].0.0].ppn
    } by {
        assert(candidates[i] == all[i]);
        assert(view.pages.dom().contains(all[i].0.0));
    }
    if is_reclaimable(view, k) {
        assert(view.pages.dom().contains(k));
        assert(order.contains(k));
        let item = (PageIndex(k), view.pages[k].ppn);
        assert(all.contains(item));
        let j = all.index_of(item);
        if j < candidates.len() {
            assert(candidates[j] == item);
        } else {
            assert forall|i: int| 0 <= i < candidates.len() implies (
            #[trigger] candidates[i]).0.0 < k by {
                assert(candidates[i] == all[i]);
                assert(all[i].0.0 < all[j].0.0);
            }
        }
    }
}

/// Nothing of `view` changes in reclaim but the cache and the next number of a
/// reservation.
pub open spec fn same_but_cache(a: ContainerView, view: ContainerView) -> bool {
    a == ContainerView {
        slots: a.slots,
        pages: a.pages,
        root: a.root,
        sequence: a.sequence,
        next_reservation: a.next_reservation,
        ..view
    }
}

/// A page is given up exactly where it lies in the named frame, is spare, and the
/// root can be published; where it cannot, reclaim is over. Any other page is
/// passed over. Nobody holds more or less than before.
pub proof fn law_a_spare_page_is_given_up(
    view: ContainerView,
    page: PageIndex,
    ppn: Ppn,
    retire: bool,
)
    requires
        view.root.dom() == view.pages.dom(),
        held_properly(view),
        view.next_reservation < u64::MAX,
        page.0 < u64::MAX,
    ensures
        ({
            let one = view.reclaim_page(page, ppn, retire);
            let spare = is_spare(view, page.0) && view.pages[page.0].ppn == ppn;
            &&& one.reclaimed == if spare && can_publish(view, retire) {
                1nat
            } else {
                0nat
            }
            &&& one.stopped == (spare && !can_publish(view, retire))
            &&& one.reclaimed == 0 ==> same_cache(one.view, view)
            &&& one.reclaimed == 1 ==> have_left(view, one.view, set![page.0])
                && one.view.sequence % 2 == 0
            &&& same_but_cache(one.view, view)
            &&& view.next_reservation <= one.view.next_reservation <= view.next_reservation + 1
        }),
{
    let range = PageRange { start: page, page_count: 1 };
    law_a_free_range_is_granted(
        view.reservations,
        view.next_reservation,
        range,
        RangeReservationKind::Reclaim,
    );
    assert forall|i: int| 0 <= i < view.reservations.len() implies in_the_way(
        #[trigger] view.reservations[i],
        range,
        RangeReservationKind::Reclaim,
    ) == covers(view.reservations[i].range, page.0 as int) by {
        let held = view.reservations[i].range;
        if covers(held, page.0 as int) {
            assert(covers(range, page.0 as int));
        }
        if crate::range_meaning::share_a_page(held, range) {
            let p = choose|p: int| #[trigger] covers(held, p) && covers(range, p);
            assert(p == page.0);
        }
    }
    assert(view.pages.dom().contains(page.0) == view.pages.contains_key(page.0));
    assert(view.root.dom().contains(page.0) == view.root.contains_key(page.0));
}

/// Whether every look has a credit.
pub open spec fn credits_for(retires: Seq<bool>, count: int) -> bool {
    &&& count <= retires.len()
    &&& forall|i: int| 0 <= i < count ==> #[trigger] retires[i]
}

/// With credits for all of them, the spare pages among the first `count` candidates
/// are given up, and nothing else changes in the cache.
proof fn lemma_reclaimed(
    view: ContainerView,
    candidates: Seq<(PageIndex, Ppn)>,
    retires: Seq<bool>,
    count: nat,
)
    requires
        view.root.dom() == view.pages.dom(),
        held_properly(view),
        view.next_reservation + candidates.len() <= u64::MAX,
        view.sequence % 2 == 0,
        count <= candidates.len(),
        credits_for(retires, candidates.len() as int),
        forall|i: int, j: int|
            0 <= i < j < candidates.len() ==> (#[trigger] candidates[i]).0.0 < (
            #[trigger] candidates[j]).0.0,
        forall|i: int|
            0 <= i < candidates.len() ==> {
                &&& is_reclaimable(view, (#[trigger] candidates[i]).0.0)
                &&& candidates[i].1 == view.pages[candidates[i].0.0].ppn
                &&& candidates[i].0.0 < u64::MAX
            },
    ensures
        ({
            let round = view.reclaim_pages(candidates, retires, count);
            &&& !round.stopped
            &&& round.view.sequence % 2 == 0
            &&& round.view.root.dom() == round.view.pages.dom()
            &&& same_but_cache(round.view, view)
            &&& round.view.next_reservation <= view.next_reservation + count
            &&& forall|k: u64|
                {
                    let gone = looked_at(candidates.take(count as int), k) && is_spare(view, k);
                    &&& #[trigger] round.view.pages.contains_key(k) == (view.pages.contains_key(k)
                        && !gone)
                    &&& round.view.pages.contains_key(k) ==> round.view.pages[k] == view.pages[k]
                    &&& round.view.slots.contains_key(k) == view.slots.contains_key(k)
                    &&& view.slots.contains_key(k) && !gone ==> round.view.slots[k]
                        == view.slots[k]
                }
        }),
    decreases count,
{
    if count > 0 {
        let prev = (count - 1) as nat;
        lemma_reclaimed(view, candidates, retires, prev);
        let before = view.reclaim_pages(candidates, retires, prev).view;
        let after = view.reclaim_pages(candidates, retires, count).view;
        let (page, ppn) = candidates[count - 1];
        let seen = candidates.take(prev as int);
        let all = candidates.take(count as int);
        assert(!looked_at(seen, page.0)) by {
            if looked_at(seen, page.0) {
                let i = choose|i: int| 0 <= i < seen.len() && (#[trigger] seen[i]).0.0 == page.0;
                assert(candidates[i].0.0 < candidates[count - 1].0.0);
            }
        }
        assert forall|k: u64| looked_at(all, k) == (looked_at(seen, k) || k == page.0) by {
            if looked_at(seen, k) {
                let i = choose|i: int| 0 <= i < seen.len() && (#[trigger] seen[i]).0.0 == k;
                assert(all[i] == seen[i]);
            }
            if looked_at(all, k) {
                let i = choose|i: int| 0 <= i < all.len() && (#[trigger] all[i]).0.0 == k;
                if i < prev {
                    assert(seen[i] == all[i]);
                }
            }
            assert(all[count - 1].0 == page);
        }
        assert(is_reclaimable(view, candidates[count - 1].0.0));
        assert(before.pages.contains_key(page.0));
        assert(is_spare(before, page.0) == is_spare(view, page.0));
        law_a_spare_page_is_given_up(before, page, ppn, true);
        assert(retires[count - 1]);
        assert forall|k: u64|
            {
                let gone = looked_at(all, k) && is_spare(view, k);
                &&& #[trigger] after.pages.contains_key(k) == (view.pages.contains_key(k) && !gone)
                &&& after.pages.contains_key(k) ==> after.pages[k] == view.pages[k]
                &&& after.slots.contains_key(k) == view.slots.contains_key(k)
                &&& view.slots.contains_key(k) && !gone ==> after.slots[k] == view.slots[k]
            } by {
            assert(before.pages.contains_key(k) == (view.pages.contains_key(k) && !(looked_at(
                seen,
                k,
            ) && is_spare(view, k))));
            assert(set![page.0].contains(k) == (k == page.0));
        }
        assert(after.root.dom() =~= after.pages.dom()) by {
            assert forall|k: u64| after.root.dom().contains(k) == after.pages.dom().contains(k) by {
                assert(set![page.0].contains(k) == (k == page.0));
                assert(before.root.dom().contains(k) == before.pages.dom().contains(k));
            }
        }
    } else {
        assert(candidates.take(0).len() == 0);
    }
}

/// A file whose root can be published gives up every spare page that reclaim looks
/// at, and no other page; what stays is as it was.
pub proof fn law_a_file_gives_up_its_spare_pages(
    view: ContainerView,
    budget: usize,
    retires: Seq<bool>,
    order: Seq<u64>,
    k: u64,
)
    requires
        view.kind is File,
        view.root.dom() == view.pages.dom(),
        held_properly(view),
        view.sequence % 2 == 0,
        lists(order, view.pages.dom()),
        !view.pages.contains_key(u64::MAX),
        view.next_reservation + budget <= u64::MAX,
        credits_for(retires, budget as int),
    ensures
        ({
            let after = view.reclaim(budget, retires).view;
            let given_up = is_spare(view, k) && looked_at(view.reclaim_candidates(budget), k);
            &&& after.pages.contains_key(k) == (view.pages.contains_key(k) && !given_up)
            &&& after.root.contains_key(k) == after.pages.contains_key(k)
            &&& after.pages.contains_key(k) ==> {
                &&& after.pages[k] == view.pages[k]
                &&& view.slots.contains_key(k) ==> after.slots[k] == view.slots[k]
            }
            &&& after.reservations == view.reservations
            &&& same_but_cache(after, view)
            &&& !view.reclaim(budget, retires).stopped
        }),
{
    let candidates = view.reclaim_candidates(budget);
    law_reclaim_looks_at_the_lowest_pages(view, budget, order, k);
    lemma_reclaimed(view, candidates, retires, candidates.len());
    assert(candidates.take(candidates.len() as int) =~= candidates);
    let after = view.reclaim(budget, retires).view;
    assert(after.root.dom().contains(k) == after.pages.dom().contains(k));
    assert(after.pages.contains_key(k) == after.pages.dom().contains(k));
}

/// The number that reclaim reports is the number of pages that left.
pub proof fn law_reclaim_counts_what_left(
    view: ContainerView,
    candidates: Seq<(PageIndex, Ppn)>,
    retires: Seq<bool>,
    count: nat,
)
    requires
        view.pages.dom().finite(),
        count <= candidates.len(),
    ensures
        ({
            let round = view.reclaim_pages(candidates, retires, count);
            &&& round.view.pages.dom().finite()
            &&& round.view.pages.len() + round.reclaimed == view.pages.len()
        }),
    decreases count,
{
    if count > 0 {
        law_reclaim_counts_what_left(view, candidates, retires, (count - 1) as nat);
        let before = view.reclaim_pages(candidates, retires, (count - 1) as nat).view;
        let after = view.reclaim_pages(candidates, retires, count).view;
        let page = candidates[count - 1].0.0;
        if after.pages != before.pages {
            assert(after.pages.dom() =~= before.pages.dom().remove(page));
        }
        if before.pages.contains_key(page) && !after.pages.contains_key(page) {
            assert(before.pages.dom().contains(page));
        }
        assert(before.pages.remove_keys(set![page]).dom() =~= before.pages.dom().remove(page));
    }
}

/// Only files give pages up.
pub proof fn law_only_files_are_reclaimed(view: ContainerView, budget: usize, retires: Seq<bool>)
    requires
        view.kind !is File,
    ensures
        view.reclaim(budget, retires).view == view,
        view.reclaim(budget, retires).reclaimed == 0,
{
}

/// In a round each container that is still there is asked, in order, for what the
/// ones before it left of the budget, with its own credits; once the budget is used
/// up the rest keep their pages. A container that is gone leaves the list.
pub proof fn law_containers_share_the_budget(
    containers: Seq<Option<ContainerView>>,
    budget: usize,
    retires: Seq<Vec<bool>>,
    i: nat,
)
    requires
        i < containers.len(),
        i < retires.len(),
    ensures
        ({
            let before = reclaim_round(containers, budget, retires, i);
            let after = reclaim_round(containers, budget, retires, i + 1);
            match containers[i as int] {
                None => after == before,
                Some(container) => {
                    &&& after.containers.len() == before.containers.len() + 1
                    &&& after.containers.drop_last() =~= before.containers
                    &&& before.reclaimed >= budget ==> after.containers.last() == container
                        && after.reclaimed == before.reclaimed
                    &&& before.reclaimed < budget ==> {
                        let left = (budget - before.reclaimed) as usize;
                        let own = container.reclaim(left, retires[i as int]@);
                        &&& after.containers.last() == own.view
                        &&& after.reclaimed == before.reclaimed + own.reclaimed
                    }
                },
            }
        }),
        reclaim_round(containers, budget, retires, 0).reclaimed == 0,
        reclaim_round(containers, budget, retires, 0).containers.len() == 0,
{
}

/// Reclaim sets in at a thousand and twenty-four free frames, and is after two
/// hundred and fifty-six pages. Where the allocator does not say, it stays away.
pub proof fn law_reclaim_sets_in_when_frames_are_few(free: Result<usize, AllocError>)
    ensures
        is_low(free) == (free is Ok && free->Ok_0 <= 1024),
        PAGE_CACHE_RECLAIM_BATCH == 256,
{
}

/// Candidates are looked at in order, each with its own credit and on what the ones
/// before it left; one without a credit that would have left ends the round.
pub proof fn law_candidates_are_looked_at_in_order(
    view: ContainerView,
    candidates: Seq<(PageIndex, Ppn)>,
    retires: Seq<bool>,
    i: nat,
)
    requires
        i < candidates.len(),
    ensures
        ({
            let before = view.reclaim_pages(candidates, retires, i);
            let after = view.reclaim_pages(candidates, retires, i + 1);
            let (page, ppn) = candidates[i as int];
            let credit = i < retires.len() && retires[i as int];
            let one = before.view.reclaim_page(page, ppn, credit);
            &&& before.stopped ==> after == before
            &&& !before.stopped ==> {
                &&& after.view == one.view
                &&& after.reclaimed == before.reclaimed + one.reclaimed
                &&& after.stopped == one.stopped
            }
        }),
        view.reclaim_pages(candidates, retires, 0).view == view,
        view.reclaim_pages(candidates, retires, 0).reclaimed == 0,
        !view.reclaim_pages(candidates, retires, 0).stopped,
{
}

/// An access takes a frame where it is to a page of anonymous memory that is not
/// there; a fetch has begun where one was numbered.
pub proof fn law_reclaim_is_for_accesses_that_take_a_frame(
    view: ContainerView,
    after: ContainerView,
    page: PageIndex,
)
    ensures
        view.takes_a_frame(page) == (view.kind is Anon && page.0 < view.page_count
            && !view.pages.contains_key(page.0)),
        after.began_a_fetch(view) == (after.next_fetch != view.next_fetch),
{
}

} // verus!
