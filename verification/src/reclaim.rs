//! Reclaim of clean file pages.

use crate::container::{ContainerView, MaterializeAccess, PageContainer, PageContainerKind};
use crate::frame::{CachePin, Grant, PageCacheError, PageLease};
use crate::ids::{AllocError, Errno, PageIndex, Ppn};
use crate::page_access::{AccessAnswers, AccessStep, AccessTurn};
use crate::page_cache::selected;
use crate::range::{
    first_with_id, has_id, released, reservation_outcome, without_index, PageRange,
    RangeReservation, RangeReservationKind,
};
use crate::sparse_index::ascending;
use crate::step::{NoProgress, StepOutcome};
use vstd::prelude::*;

verus! {

/// Free frames at or below which reclaim sets in.
pub const PAGE_CACHE_RECLAIM_LOW_WATERMARK: usize = 1024;

/// Pages that one round of reclaim is after.
pub const PAGE_CACHE_RECLAIM_BATCH: usize = 256;

/// What became of some reclaim candidates.
#[verifier::ext_equal]
pub struct ReclaimView {
    pub view: ContainerView,
    pub reclaimed: nat,
    /// No root credit was granted: the rest is not tried.
    pub stopped: bool,
}

impl ContainerView {
    /// Up to `budget` cached pages that may be reclaimed, in order.
    pub open spec fn reclaim_candidates(self, budget: usize) -> Seq<(PageIndex, Ppn)> {
        let all = selected(
            ascending(self.pages.dom()),
            self.pages,
            |k: u64| !self.pages[k].marks.no_reclaim,
        );
        all.take(
            if budget <= all.len() {
                budget as int
            } else {
                all.len() as int
            },
        )
    }

    /// Outcome of reclaiming one page: it is reserved for that, and given up if
    /// it is clean.
    pub open spec fn reclaim_page(self, page: PageIndex, ppn: Ppn, retire: bool) -> ReclaimView {
        let reservable = reservation_outcome(
            self.reservations,
            self.next_reservation,
            PageRange { start: page, page_count: 1 },
            RangeReservationKind::Reclaim,
        ) is Ok;
        if self.frame_of(page) != Some(ppn) || !reservable {
            ReclaimView { view: self, reclaimed: 0, stopped: false }
        } else {
            let (after, result) = self.withdraw(page, ppn, true, retire);
            ReclaimView {
                view: ContainerView {
                    next_reservation: (self.next_reservation + 1) as u64,
                    ..after
                },
                reclaimed: if result == Ok::<bool, PageCacheError>(true) {
                    1
                } else {
                    0
                },
                stopped: result == Err::<bool, PageCacheError>(
                    PageCacheError::Backend(Errno::EAGAIN),
                ),
            }
        }
    }

    /// Outcome of reclaiming the first `count` candidates, each with its answer
    /// from `retires`. An answer that is not there is a refusal.
    pub open spec fn reclaim_pages(
        self,
        candidates: Seq<(PageIndex, Ppn)>,
        retires: Seq<bool>,
        count: nat,
    ) -> ReclaimView
        decreases count,
    {
        if count == 0 {
            ReclaimView { view: self, reclaimed: 0, stopped: false }
        } else {
            let before = self.reclaim_pages(candidates, retires, (count - 1) as nat);
            if before.stopped {
                before
            } else {
                let (page, ppn) = candidates[count - 1];
                let one = before.view.reclaim_page(
                    page,
                    ppn,
                    count - 1 < retires.len() && retires[count - 1],
                );
                ReclaimView { reclaimed: before.reclaimed + one.reclaimed, ..one }
            }
        }
    }

    /// Outcome of reclaiming up to `budget` pages. Only files give pages up.
    pub open spec fn reclaim(self, budget: usize, retires: Seq<bool>) -> ReclaimView {
        if self.kind !is File {
            ReclaimView { view: self, reclaimed: 0, stopped: false }
        } else {
            let candidates = self.reclaim_candidates(budget);
            self.reclaim_pages(candidates, retires, candidates.len())
        }
    }

    /// Whether the reservations that a round of reclaim makes have identities.
    pub open spec fn can_reserve_every_page(self) -> bool {
        self.next_reservation + self.pages.len() <= u64::MAX
    }
}

/// Ending the newest reservation restores the live ones.
proof fn lemma_release_newest(live: Seq<RangeReservation>, newest: RangeReservation)
    requires
        forall|i: int| 0 <= i < live.len() ==> (#[trigger] live[i]).id != newest.id,
    ensures
        has_id(live.push(newest), newest.id),
        released(live.push(newest), newest.id) == live,
{
    let all = live.push(newest);
    let last = live.len() as int;
    assert(all[last].id == newest.id);
    assert forall|j: int| 0 <= j < last implies (#[trigger] all[j]).id != newest.id by {
        assert(all[j] == live[j]);
    }
    assert(first_with_id(all, newest.id, last));
    let at = choose|i: int| first_with_id(all, newest.id, i);
    assert(at == last);
    assert(without_index(all, last) =~= live);
}

impl PageContainer {
    /// Reclaim one page, if it is clean and nothing keeps it reserved.
    fn reclaim_file_page(&mut self, page: PageIndex, ppn: Ppn, retire: bool) -> (r: (bool, bool))
        requires
            old(self).wf(),
            old(self)@.next_reservation < u64::MAX,
        ensures
            final(self).wf(),
            ({
                let one = old(self)@.reclaim_page(page, ppn, retire);
                &&& final(self)@ == one.view
                &&& one.reclaimed == if r.0 {
                    1nat
                } else {
                    0nat
                }
                &&& r.1 == one.stopped
            }),
    {
        match self.pages.lookup(page) {
            Some(current) => {
                if current != ppn {
                    return (false, false);
                }
            },
            None => {
                return (false, false);
            },
        }
        let ghost before = self@;
        let ghost table = self.range_reservations;
        let reservation = match self.range_reservations.try_reserve(
            PageRange::new(page, 1),
            RangeReservationKind::Reclaim,
        ) {
            Ok(reservation) => reservation,
            Err(_) => {
                return (false, false);
            },
        };
        proof {
            assert forall|i: int| 0 <= i < before.reservations.len() implies (
            #[trigger] before.reservations[i]).id != reservation.id by {
                assert(table@[i].id.0 < table.next_id);
            }
            lemma_release_newest(before.reservations, reservation);
            self.lemma_reserved(before, reservation);
        }
        let ghost reserved = self@;
        let result = self.withdraw_resident_if_match_published(page, ppn, true, retire);
        let ghost withdrawn = self@;
        let _released = self.range_reservations.release(reservation.id);
        proof {
            assert(withdrawn.reservations == before.reservations.push(reservation));
            assert(self@.reservations == before.reservations);
            let expected = before.reclaim_page(page, ppn, retire).view;
            assert(self@ =~= expected);
            lemma_withdraw_frame(before, reserved, page, ppn, retire);
            assert forall|k: u64| #[trigger] self@.direct.contains_key(k) implies
                crate::container::genuine(
                self@.reservations,
                self@.next_reservation,
                self@.direct[k].reservation,
            ) by {
                assert(before.direct.contains_key(k));
            }
        }
        match result {
            Ok(true) => (true, false),
            Ok(false) => (false, false),
            Err(PageCacheError::Backend(Errno::EAGAIN)) => (false, true),
            Err(_) => (false, false),
        }
    }

    /// A reservation for reclaim keeps the container consistent.
    proof fn lemma_reserved(&self, before: ContainerView, reservation: RangeReservation)
        requires
            before.consistent(),
            before.next_reservation < u64::MAX,
            reservation.id.0 == before.next_reservation,
            reservation.kind is Reclaim,
            self@ == (ContainerView {
                reservations: before.reservations.push(reservation),
                next_reservation: (before.next_reservation + 1) as u64,
                ..before
            }),
        ensures
            self@.consistent(),
    {
        let live = self@.reservations;
        assert(live.drop_last() =~= before.reservations);
        assert forall|k: u64| #[trigger] self@.direct.contains_key(k) implies {
            &&& crate::container::genuine(
                live,
                self@.next_reservation,
                self@.direct[k].reservation,
            )
            &&& self@.direct[k].reservation.kind == self@.direct[k].operation.reservation_kind()
            &&& self@.direct[k].buffer.lease.0 == k
        } by {
            assert(before.direct.contains_key(k));
            let token = before.direct[k].reservation;
            assert forall|i: int|
                0 <= i < live.len() && (#[trigger] live[i]).id == token.id implies live[i]
                == token by {
                if i < before.reservations.len() {
                    assert(live[i] == before.reservations[i]);
                }
            }
        }
    }

    /// Reclaim up to `budget` clean pages of a file, and say how many.
    pub fn reclaim_clean_file_pages(&mut self, budget: usize, retires: &Vec<bool>) -> (reclaimed:
        usize)
        requires
            old(self).wf(),
            old(self)@.can_reserve_every_page(),
        ensures
            final(self).wf(),
            final(self)@ == old(self)@.reclaim(budget, retires@).view,
            reclaimed == old(self)@.reclaim(budget, retires@).reclaimed,
            reclaimed <= budget,
    {
        if !self.is_file() {
            return 0;
        }
        let ghost before = self@;
        let candidates = self.pages.clean_pages(budget);
        proof {
            self.pages.pages.lemma_order_ascending();
            self.pages.pages.lemma_len();
            assert(candidates@ =~= before.reclaim_candidates(budget));
            crate::page_cache::lemma_selected(
                self.pages.order(),
                self.pages@,
                |k: u64| !self.pages@[k].marks.no_reclaim,
            );
        }
        let mut reclaimed: usize = 0;
        let mut i: usize = 0;
        while i < candidates.len()
            invariant
                self.wf(),
                before == old(self)@,
                before.kind is File,
                i <= candidates@.len(),
                candidates@ == before.reclaim_candidates(budget),
                candidates@.len() <= budget,
                candidates@.len() <= before.pages.len(),
                before.can_reserve_every_page(),
                self@.next_reservation <= before.next_reservation + i,
                reclaimed <= i,
                before.reclaim_pages(candidates@, retires@, i as nat) == (ReclaimView {
                    view: self@,
                    reclaimed: reclaimed as nat,
                    stopped: false,
                }),
            decreases candidates@.len() - i,
        {
            let (page, ppn) = candidates[i];
            let retire = i < retires.len() && retires[i];
            let (gone, stop) = self.reclaim_file_page(page, ppn, retire);
            if gone {
                reclaimed += 1;
            }
            i += 1;
            if stop {
                proof {
                    lemma_reclaim_stops(before, candidates@, retires@, i as nat, candidates@.len());
                }
                return reclaimed;
            }
        }
        reclaimed
    }
}

proof fn lemma_withdraw_frame(
    before: ContainerView,
    reserved: ContainerView,
    page: PageIndex,
    ppn: Ppn,
    retire: bool,
)
    requires
        reserved == (ContainerView {
            reservations: reserved.reservations,
            next_reservation: reserved.next_reservation,
            ..before
        }),
    ensures
        reserved.withdraw(page, ppn, true, retire).0 == (ContainerView {
            reservations: reserved.reservations,
            next_reservation: reserved.next_reservation,
            ..before.withdraw(page, ppn, true, retire).0
        }),
        reserved.withdraw(page, ppn, true, retire).1 == before.withdraw(page, ppn, true, retire).1,
{
    let gone = set![page.0];
    assert(reserved.without_pages(gone) =~= (ContainerView {
        reservations: reserved.reservations,
        next_reservation: reserved.next_reservation,
        ..before.without_pages(gone)
    }));
}

proof fn lemma_reclaim_stops(
    view: ContainerView,
    candidates: Seq<(PageIndex, Ppn)>,
    retires: Seq<bool>,
    at: nat,
    count: nat,
)
    requires
        at <= count,
        view.reclaim_pages(candidates, retires, at).stopped,
    ensures
        view.reclaim_pages(candidates, retires, count) == view.reclaim_pages(
            candidates,
            retires,
            at,
        ),
    decreases count,
{
    if at < count {
        lemma_reclaim_stops(view, candidates, retires, at, (count - 1) as nat);
    }
}

/// The containers that reclaim looks at, oldest first. One that is gone is
/// dropped from the list by the next round.
pub struct ReclaimRegistry {
    pub containers: Vec<Option<PageContainer>>,
}

/// The registry after a round of reclaim, with the number of pages reclaimed.
#[verifier::ext_equal]
pub struct ReclaimRound {
    pub containers: Seq<ContainerView>,
    pub reclaimed: nat,
}

/// Outcome of a round over the first `count` containers: each live one is asked
/// for what is left of the budget, if anything is.
pub open spec fn reclaim_round(
    containers: Seq<Option<ContainerView>>,
    budget: usize,
    retires: Seq<Vec<bool>>,
    count: nat,
) -> ReclaimRound
    decreases count,
{
    if count == 0 {
        ReclaimRound { containers: Seq::empty(), reclaimed: 0 }
    } else {
        let before = reclaim_round(containers, budget, retires, (count - 1) as nat);
        match containers[count - 1] {
            None => before,
            Some(container) => if before.reclaimed < budget {
                let one = container.reclaim(
                    (budget - before.reclaimed) as usize,
                    if count - 1 < retires.len() {
                        retires[count - 1]@
                    } else {
                        Seq::empty()
                    },
                );
                ReclaimRound {
                    containers: before.containers.push(one.view),
                    reclaimed: before.reclaimed + one.reclaimed,
                }
            } else {
                ReclaimRound { containers: before.containers.push(container), ..before }
            },
        }
    }
}

impl View for ReclaimRegistry {
    type V = Seq<Option<ContainerView>>;

    open spec fn view(&self) -> Seq<Option<ContainerView>> {
        self.containers@.map_values(
            |entry: Option<PageContainer>|
                match entry {
                    Some(container) => Some(container@),
                    None => None,
                },
        )
    }
}

/// Whether `free` frames are so few that clean pages are reclaimed.
pub open spec fn is_low(free: Result<usize, AllocError>) -> bool {
    free matches Ok(count) && count <= PAGE_CACHE_RECLAIM_LOW_WATERMARK
}

impl ReclaimRegistry {
    pub open spec fn wf(&self) -> bool {
        forall|i: int|
            0 <= i < self.containers@.len() ==> ((#[trigger] self.containers@[i]) matches Some(
                container,
            ) ==> container.wf() && container@.can_reserve_every_page())
    }

    /// Whether this registry holds exactly the containers of `round`.
    pub open spec fn holds(&self, round: ReclaimRound) -> bool {
        &&& self.containers@.len() == round.containers.len()
        &&& forall|i: int|
            0 <= i < self.containers@.len() ==> ((#[trigger] self.containers@[i]) matches Some(
                container,
            ) && container.wf() && container@ == round.containers[i])
    }

    pub fn new() -> (registry: Self)
        ensures
            registry.containers@.len() == 0,
            registry.wf(),
    {
        ReclaimRegistry { containers: Vec::new() }
    }
}

/// Reclaim up to `budget` clean file pages. `retires[i]` answers for the
/// root credits of the `i`-th container.
pub fn reclaim_clean_file_pages(
    registry: &mut ReclaimRegistry,
    budget: usize,
    retires: &Vec<Vec<bool>>,
) -> (reclaimed: usize)
    requires
        old(registry).wf(),
    ensures
        budget == 0 ==> reclaimed == 0 && *final(registry) == *old(registry),
        budget > 0 ==> {
            let round = reclaim_round(
                old(registry)@,
                budget,
                retires@,
                old(registry)@.len(),
            );
            reclaimed == round.reclaimed && final(registry).holds(round)
        },
{
    if budget == 0 {
        return 0;
    }
    let ghost all = registry@;
    let ghost entries = registry.containers@;
    let total: usize = registry.containers.len();
    let mut rest: Vec<Option<PageContainer>> = Vec::new();
    std::mem::swap(&mut rest, &mut registry.containers);
    let mut reclaimed: usize = 0;
    let mut index: usize = 0;
    let none: Vec<bool> = Vec::new();
    while rest.len() > 0
        invariant
            old(registry).wf(),
            entries == old(registry).containers@,
            entries.len() == all.len(),
            all == old(registry)@,
            none@ == Seq::<bool>::empty(),
            all.len() == total,
            index + rest@.len() == all.len(),
            rest@ == entries.skip(index as int),
            reclaimed <= budget,
            reclaimed == reclaim_round(all, budget, retires@, index as nat).reclaimed,
            registry.holds(reclaim_round(all, budget, retires@, index as nat)),
        decreases rest@.len(),
    {
        let ghost before = reclaim_round(all, budget, retires@, index as nat);
        let ghost next = reclaim_round(all, budget, retires@, (index + 1) as nat);
        let entry = rest.remove(0);
        assert(entry == entries[index as int]);
        assert(rest@ =~= entries.skip(index + 1));
        match entry {
            None => {},
            Some(container) => {
                let mut container = container;
                if reclaimed < budget {
                    let credits = if index < retires.len() {
                        &retires[index]
                    } else {
                        &none
                    };
                    let count: usize = container.reclaim_clean_file_pages(
                        budget - reclaimed,
                        credits,
                    );
                    reclaimed += count;
                }
                let ghost kept = registry.containers@;
                registry.containers.push(Some(container));
                proof {
                    assert forall|i: int| 0 <= i < registry.containers@.len() implies ((
                    #[trigger] registry.containers@[i]) matches Some(container) && container.wf()
                        && container@ == next.containers[i]) by {
                        if i < kept.len() {
                            assert(registry.containers@[i] == kept[i]);
                            assert(next.containers[i] == before.containers[i]);
                        }
                    }
                }
            },
        }
        index += 1;
    }
    reclaimed
}

/// Reclaim a batch if `free` frames are few. Without a count nothing is done.
pub fn reclaim_clean_file_pages_if_low(
    registry: &mut ReclaimRegistry,
    free: Result<usize, AllocError>,
    retires: &Vec<Vec<bool>>,
) -> (reclaimed: usize)
    requires
        old(registry).wf(),
    ensures
        is_low(free) ==> {
            let round = reclaim_round(
                old(registry)@,
                PAGE_CACHE_RECLAIM_BATCH,
                retires@,
                old(registry)@.len(),
            );
            reclaimed == round.reclaimed && final(registry).holds(round)
        },
        !is_low(free) ==> reclaimed == 0 && *final(registry) == *old(registry),
{
    match free {
        Ok(count) => {
            if count <= PAGE_CACHE_RECLAIM_LOW_WATERMARK {
                reclaim_clean_file_pages(registry, PAGE_CACHE_RECLAIM_BATCH, retires)
            } else {
                0
            }
        },
        Err(_) => 0,
    }
}

/// Reserve a frame, reclaiming once if there is none. `first` and `second`
/// are the allocator's answers before and after the reclaim.
pub fn reserve_frame_with_reclaim(
    registry: &mut ReclaimRegistry,
    first: Result<Ppn, AllocError>,
    second: Result<Ppn, AllocError>,
    retires: &Vec<Vec<bool>>,
) -> (frame: Result<Ppn, AllocError>)
    requires
        old(registry).wf(),
    ensures
        first == Err::<Ppn, AllocError>(AllocError::Exhausted) ==> frame == second && final(registry).holds(
            reclaim_round(
                old(registry)@,
                PAGE_CACHE_RECLAIM_BATCH,
                retires@,
                old(registry)@.len(),
            ),
        ),
        first != Err::<Ppn, AllocError>(AllocError::Exhausted) ==> frame == first
            && *final(registry) == *old(registry),
{
    match first {
        Ok(frame) => Ok(frame),
        Err(AllocError::Exhausted) => {
            let _reclaimed: usize = reclaim_clean_file_pages(
                registry,
                PAGE_CACHE_RECLAIM_BATCH,
                retires,
            );
            second
        },
        Err(error) => Err(error),
    }
}

/// A lease on a freshly allocated frame that no page cache indexes. The frame is
/// reserved as above, and `pinned` is the allocator's answer to its cache pin.
pub fn reserve_page_lease_with_reclaim(
    registry: &mut ReclaimRegistry,
    first: Result<Ppn, AllocError>,
    second: Result<Ppn, AllocError>,
    retires: &Vec<Vec<bool>>,
    pinned: Grant,
) -> (lease: Result<PageLease, PageCacheError>)
    requires
        old(registry).wf(),
    ensures
        ({
            let exhausted = first == Err::<Ppn, AllocError>(AllocError::Exhausted);
            let reserved = if exhausted {
                second
            } else {
                first
            };
            &&& lease == match (reserved, pinned) {
                (Err(error), _) => Err(PageCacheError::Alloc(error)),
                (Ok(_), Err(error)) => Err(PageCacheError::Alloc(error)),
                (Ok(ppn), Ok(())) => Ok(PageLease::allocated(ppn)),
            }
            &&& if exhausted {
                final(registry).holds(
                    reclaim_round(
                        old(registry)@,
                        PAGE_CACHE_RECLAIM_BATCH,
                        retires@,
                        old(registry)@.len(),
                    ),
                )
            } else {
                *final(registry) == *old(registry)
            }
        }),
{
    match reserve_frame_with_reclaim(registry, first, second, retires) {
        Err(error) => Err(PageCacheError::Alloc(error)),
        Ok(ppn) => match pinned {
            Err(error) => Err(PageCacheError::Alloc(error)),
            Ok(()) => Ok(PageLease::from_pin(CachePin { ppn })),
        },
    }
}

impl ContainerView {
    /// Whether an access to `page` takes a fresh frame of anonymous memory.
    pub open spec fn takes_a_frame(self, page: PageIndex) -> bool {
        self.kind is Anon && page.0 < self.page_count && !self.cached(page)
    }

    /// Whether a fetch has been begun since `before`.
    pub open spec fn began_a_fetch(self, before: Self) -> bool {
        self.next_fetch != before.next_fetch
    }
}

/// The first step of an access to a page that belongs to no file, of a container
/// that reclaim does not look at. Before an absent page of anonymous memory is
/// given a frame, clean file pages are reclaimed if `free` frames are few.
pub fn materialize_page_with_reclaim(
    registry: &mut ReclaimRegistry,
    pc: &mut PageContainer,
    page: PageIndex,
    access: MaterializeAccess,
    free: Result<usize, AllocError>,
    retires: &Vec<Vec<bool>>,
    answers: AccessAnswers,
) -> (t: AccessTurn)
    requires
        old(registry).wf(),
        old(pc).wf(),
        old(pc)@.kind !is File,
        answers.wf(),
    ensures
        final(pc).wf(),
        (final(pc)@, t) == old(pc)@.access_page(page, access, answers),
        if old(pc)@.takes_a_frame(page) && is_low(free) {
            final(registry).holds(
                reclaim_round(
                    old(registry)@,
                    PAGE_CACHE_RECLAIM_BATCH,
                    retires@,
                    old(registry)@.len(),
                ),
            )
        } else {
            *final(registry) == *old(registry)
        },
{
    let anonymous = match pc.kind {
        PageContainerKind::Anon { .. } => true,
        _ => false,
    };
    if anonymous && page.0 < pc.page_count && pc.lookup(page).is_none() {
        let _reclaimed: usize = reclaim_clean_file_pages_if_low(registry, free, retires);
    }
    pc.materialize_page(page, access, answers)
}

/// A first step at a file page neither caches nor gives up a page.
proof fn lemma_file_step_keeps_pages(
    view: ContainerView,
    page: PageIndex,
    access: MaterializeAccess,
    prepared: StepOutcome<(), NoProgress>,
    answers: AccessAnswers,
)
    requires
        view.kind is File,
    ensures
        view.access_page(page, access, answers).0.pages.dom() == view.pages.dom(),
        view.access_page(page, access, answers).0.next_reservation == view.next_reservation,
        view.access_prepared(page, access, prepared, answers).0.pages.dom() == view.pages.dom(),
        view.access_prepared(page, access, prepared, answers).0.next_reservation
            == view.next_reservation,
{
    let existing = view.materialize_existing(page, access, false, answers.pins).0;
    assert(existing.pages.dom() =~= view.pages.dom());
}

impl ReclaimRegistry {
    /// Whether this is what is left of `stepped` after a step: a fetch that was
    /// begun is preceded by a reclaim if `free` frames are few.
    pub open spec fn stepped(
        &self,
        stepped: Seq<Option<ContainerView>>,
        began: bool,
        free: Result<usize, AllocError>,
        retires: Seq<Vec<bool>>,
    ) -> bool {
        if began && is_low(free) {
            self.holds(reclaim_round(stepped, PAGE_CACHE_RECLAIM_BATCH, retires, stepped.len()))
        } else {
            self@ == stepped && self.wf()
        }
    }

    /// The first step of an access to a page of the file in place `index`. The
    /// owner of a fetch reclaims, if `free` frames are few, before it goes on;
    /// that may take clean pages of this file too.
    pub fn materialize_file_page_with_reclaim(
        &mut self,
        index: usize,
        page: PageIndex,
        access: MaterializeAccess,
        answers: AccessAnswers,
        free: Result<usize, AllocError>,
        retires: &Vec<Vec<bool>>,
    ) -> (t: AccessTurn)
        requires
            old(self).wf(),
            index < old(self)@.len(),
            old(self)@[index as int] matches Some(view) && view.kind is File,
            answers.wf(),
        ensures
            ({
                let before = old(self)@[index as int]->Some_0;
                let (after, turn) = before.access_page(page, access, answers);
                &&& t == turn
                &&& final(self).stepped(
                    old(self)@.update(index as int, Some(after)),
                    after.began_a_fetch(before),
                    free,
                    retires@,
                )
            }),
    {
        let mut entry: Option<PageContainer> = None;
        std::mem::swap(&mut entry, &mut self.containers[index]);
        match entry {
            Some(container) => {
                let mut container = container;
                let ghost before = container@;
                proof {
                    lemma_file_step_keeps_pages(
                        before,
                        page,
                        access,
                        StepOutcome::Done(()),
                        answers,
                    );
                }
                let last: u64 = container.next_file_fetch_id;
                let turn = container.materialize_page(page, access, answers);
                let began = container.next_file_fetch_id != last;
                assert(self@.update(index as int, Some(container@)) =~= old(self)@.update(
                    index as int,
                    Some(container@),
                ));
                self.put_back(index, container, began, free, retires);
                turn
            },
            None => AccessTurn {
                step: AccessStep::Finished(StepOutcome::Error(Errno::ESTALE)),
                notify: None,
                kick_block: false,
            },
        }
    }

    /// The step after the filesystem has answered a write prepared for a page
    /// of the file in place `index`, with the reclaim of a fetch's owner.
    pub fn resume_prepared_write_with_reclaim(
        &mut self,
        index: usize,
        page: PageIndex,
        access: MaterializeAccess,
        prepared: StepOutcome<(), NoProgress>,
        answers: AccessAnswers,
        free: Result<usize, AllocError>,
        retires: &Vec<Vec<bool>>,
    ) -> (t: AccessTurn)
        requires
            old(self).wf(),
            index < old(self)@.len(),
            old(self)@[index as int] matches Some(view) && view.kind is File,
            answers.wf(),
        ensures
            ({
                let before = old(self)@[index as int]->Some_0;
                let (after, turn) = before.access_prepared(page, access, prepared, answers);
                &&& t == turn
                &&& final(self).stepped(
                    old(self)@.update(index as int, Some(after)),
                    after.began_a_fetch(before),
                    free,
                    retires@,
                )
            }),
    {
        let mut entry: Option<PageContainer> = None;
        std::mem::swap(&mut entry, &mut self.containers[index]);
        match entry {
            Some(container) => {
                let mut container = container;
                proof {
                    lemma_file_step_keeps_pages(container@, page, access, prepared, answers);
                }
                let last: u64 = container.next_file_fetch_id;
                let turn = container.resume_prepared_write(page, access, prepared, answers);
                let began = container.next_file_fetch_id != last;
                assert(self@.update(index as int, Some(container@)) =~= old(self)@.update(
                    index as int,
                    Some(container@),
                ));
                self.put_back(index, container, began, free, retires);
                turn
            },
            None => AccessTurn {
                step: AccessStep::Finished(StepOutcome::Error(Errno::ESTALE)),
                notify: None,
                kick_block: false,
            },
        }
    }

    /// Put a container back in its place, and reclaim if that has to be.
    fn put_back(
        &mut self,
        index: usize,
        container: PageContainer,
        began: bool,
        free: Result<usize, AllocError>,
        retires: &Vec<Vec<bool>>,
    )
        requires
            old(self).wf(),
            index < old(self)@.len(),
            container.wf(),
            container@.can_reserve_every_page(),
        ensures
            final(self).stepped(
                old(self)@.update(index as int, Some(container@)),
                began,
                free,
                retires@,
            ),
    {
        let ghost before = self.containers@;
        self.containers.set(index, Some(container));
        proof {
            assert(self@ =~= old(self)@.update(index as int, Some(container@)));
            assert forall|i: int| 0 <= i < self.containers@.len() implies ((
            #[trigger] self.containers@[i]) matches Some(held) ==> held.wf()
                && held@.can_reserve_every_page()) by {
                if i != index {
                    assert(self.containers@[i] == before[i]);
                }
            }
        }
        if began {
            let _reclaimed: usize = reclaim_clean_file_pages_if_low(self, free, retires);
        }
    }
}

/// Reclaim gives up clean pages only: a page that is dirty, in writeback or not
/// settled in its slot stays cached, and a page that goes was clean.
pub proof fn law_reclaim_takes_clean_pages_only(
    view: ContainerView,
    page: PageIndex,
    ppn: Ppn,
    retire: bool,
    other: PageIndex,
)
    ensures
        ({
            let after = view.reclaim_page(page, ppn, retire).view;
            &&& view.cached(other) && !after.cached(other) ==> other == page && view.slot(
                page,
            ).state is Resident
            &&& view.slot(other).state !is Resident ==> after.slot(other) == view.slot(other)
                && after.cached(other) == view.cached(other)
        }),
{
}

/// A reserved range keeps its pages: reclaim leaves a page alone while any
/// reservation covers it.
pub proof fn law_reserved_page_is_not_reclaimed(
    view: ContainerView,
    i: int,
    page: PageIndex,
    ppn: Ppn,
    retire: bool,
)
    requires
        0 <= i < view.reservations.len(),
        view.reservations[i].range.fits(),
        view.reservations[i].range.holds(page),
    ensures
        view.reclaim_page(page, ppn, retire).view == view,
{
    let range = PageRange { start: page, page_count: 1 };
    if range.fits() {
        assert(view.reservations[i].blocks(range, RangeReservationKind::Reclaim));
    }
}

} // verus!
