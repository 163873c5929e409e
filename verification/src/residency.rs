//! Caching and publication: every binding enters and leaves the cache, the slot
//! and the published root together.

use crate::container::{ContainerView, PageContainer};
use crate::frame::{CachedFrame, PageCacheError};
use crate::ids::{Errno, PageGeneration, PageIndex, Ppn};
use crate::page_cache::PageCacheEntry;
use crate::resident::ResidentRoot;
use crate::slot::{
    PageSlot, PageSlotCompletionError, PageSlotFetch, PageSlotSnapshot, PageSlotState, SlotResult,
};
use vstd::prelude::*;

verus! {

/// How often a root publication asks for a retire credit before it gives up.
pub const RESIDENT_ROOT_RETIRE_MAINTENANCE_ATTEMPTS: usize = 4;

/// The answer to one request for a retire credit.
#[derive(Clone, Copy, Debug, PartialEq, Eq, Structural)]
pub enum RetireAnswer {
    Reserved,
    Exhausted,
    Refused,
}

/// What a publication does about an answer.
#[derive(Clone, Copy, Debug, PartialEq, Eq, Structural)]
pub enum RetireStep {
    Granted,
    /// Drain some retired roots and ask again.
    DrainAndRetry,
    /// Give up for now: the caller reports that it has to be tried again.
    Backpressured,
}

/// Decide about the answer to the `attempt`-th request for a retire credit,
/// counted from zero.
pub fn retire_step(attempt: usize, answer: RetireAnswer) -> (step: RetireStep)
    ensures
        step == match answer {
            RetireAnswer::Reserved => RetireStep::Granted,
            RetireAnswer::Exhausted => if attempt < RESIDENT_ROOT_RETIRE_MAINTENANCE_ATTEMPTS - 1 {
                RetireStep::DrainAndRetry
            } else {
                RetireStep::Backpressured
            },
            RetireAnswer::Refused => RetireStep::Backpressured,
        },
{
    match answer {
        RetireAnswer::Reserved => RetireStep::Granted,
        RetireAnswer::Exhausted => {
            if attempt < RESIDENT_ROOT_RETIRE_MAINTENANCE_ATTEMPTS - 1 {
                RetireStep::DrainAndRetry
            } else {
                RetireStep::Backpressured
            }
        },
        RetireAnswer::Refused => RetireStep::Backpressured,
    }
}

/// The one admitted writer of the resident root. Even sequence numbers are
/// stable; an odd one belongs to a writer at work.
#[derive(Debug)]
pub struct ResidentMutationClaim {
    pub base: u64,
}

/// The sequence number after a committed mutation of `base`.
pub open spec fn committed_sequence(base: u64) -> u64 {
    if base >= u64::MAX - 1 {
        2
    } else {
        (base + 2) as u64
    }
}

impl ResidentMutationClaim {
    /// Claim the root, unless another writer is at work.
    pub fn try_acquire(sequence: &mut u64) -> (claim: Option<Self>)
        ensures
            match claim {
                Some(claim) => {
                    &&& *old(sequence) % 2 == 0
                    &&& claim.base == *old(sequence)
                    &&& *final(sequence) == *old(sequence) + 1
                },
                None => *old(sequence) % 2 == 1 && *final(sequence) == *old(sequence),
            },
    {
        let base: u64 = *sequence;
        if base % 2 != 0 {
            return None;
        }
        assert(base < u64::MAX);
        *sequence = base + 1;
        Some(ResidentMutationClaim { base })
    }

    /// Publish: move on to the next stable number.
    pub fn commit(self, sequence: &mut u64)
        ensures
            *final(sequence) == committed_sequence(self.base),
    {
        *sequence = if self.base >= u64::MAX - 1 {
            2
        } else {
            self.base + 2
        };
    }

    /// Give the claim up without publishing.
    pub fn release(self, sequence: &mut u64)
        ensures
            *final(sequence) == self.base,
    {
        *sequence = self.base;
    }
}

/// While a writer is at work nobody else can claim the root; giving up restores
/// the number that was claimed, and committing yields another stable one.
pub proof fn law_claim_is_exclusive(base: u64)
    requires
        base % 2 == 0,
    ensures
        (base + 1) % 2 == 1,
        committed_sequence(base) % 2 == 0,
        committed_sequence(base) != base,
        committed_sequence(base) != 0,
{
}

/// The page-cache error that a refused slot transition amounts to.
pub open spec fn slot_error(error: PageSlotCompletionError) -> PageCacheError {
    match error {
        PageSlotCompletionError::Backend(errno) => PageCacheError::Backend(errno),
        _ => PageCacheError::Backend(Errno::ESTALE),
    }
}

pub fn page_slot_completion_error_to_page_cache_error(error: PageSlotCompletionError) -> (e:
    PageCacheError)
    ensures
        e == slot_error(error),
{
    match error {
        PageSlotCompletionError::Backend(errno) => PageCacheError::Backend(errno),
        _ => PageCacheError::Backend(Errno::ESTALE),
    }
}

/// Outcome of making sure that a slot is bound to `ppn`: an unbound slot takes
/// the frame as a new version, a bound one has to name it already, and a slot
/// that is being fetched is left to its owner.
pub open spec fn ensured(slot: PageSlotSnapshot, ppn: Ppn) -> SlotResult {
    match slot.state.frame() {
        Some(current) => if current == ppn {
            Ok(slot)
        } else {
            Err(PageSlotCompletionError::MismatchedFrame { expected: ppn, current })
        },
        None => if slot.state is Fetching {
            slot.not_fetching()
        } else {
            Ok(slot.renewed(PageSlotState::Resident { ppn }))
        },
    }
}

/// The error of a root publication that has to be tried again.
pub open spec fn again<T>() -> Result<T, PageCacheError> {
    Err(PageCacheError::Backend(Errno::EAGAIN))
}

impl ContainerView {
    /// Whether a root mutation can be published now.
    pub open spec fn publishes(self, retire: bool) -> bool {
        self.sequence % 2 == 0 && retire
    }

    /// With `frame` cached and published for `page`, whose slot becomes `slot`.
    pub open spec fn with_binding(
        self,
        page: PageIndex,
        entry: PageCacheEntry,
        slot: PageSlotSnapshot,
    ) -> Self {
        ContainerView {
            slots: self.slots.insert(page.0, PageSlot { inner: slot }),
            pages: self.pages.insert(page.0, entry),
            root: self.root.insert(page.0, entry.binding()),
            sequence: committed_sequence(self.sequence),
            ..self
        }
    }

    /// Outcome of caching `frame` for `page`, clean or `dirty`.
    pub open spec fn install(
        self,
        page: PageIndex,
        frame: CachedFrame,
        dirty: bool,
        retire: bool,
    ) -> (Self, Result<bool, PageCacheError>) {
        let seen = self.touched(page);
        if self.cached(page) {
            (self, Ok(false))
        } else if !self.publishes(retire) {
            (seen, again())
        } else {
            match ensured(seen.slot(page), frame.ppn) {
                Err(error) => (seen, Err(slot_error(error))),
                Ok(bound) => (
                    seen.with_binding(
                        page,
                        PageCacheEntry::installed(frame),
                        if dirty {
                            bound.dirtied()->Ok_0
                        } else {
                            bound
                        },
                    ),
                    Ok(true),
                ),
            }
        }
    }

    /// Outcome of caching `frame`, which the fetch of `generation` brought.
    pub open spec fn install_fetched(
        self,
        page: PageIndex,
        generation: PageGeneration,
        frame: CachedFrame,
        retire: bool,
    ) -> (Self, Result<bool, PageCacheError>) {
        let seen = self.touched(page);
        if self.cached(page) {
            (self, Ok(false))
        } else if !self.publishes(retire) {
            (seen, again())
        } else {
            match seen.slot(page).fetch_completed(generation, Ok(frame.ppn)) {
                Err(error) => (seen, Err(slot_error(error))),
                Ok(bound) => (
                    seen.with_binding(page, PageCacheEntry::installed(frame), bound),
                    Ok(true),
                ),
            }
        }
    }

    /// Outcome of moving `page` from frame `expected`, as of `generation`, to
    /// `frame`.
    pub open spec fn replace(
        self,
        page: PageIndex,
        expected: Ppn,
        generation: PageGeneration,
        frame: CachedFrame,
        retire: bool,
    ) -> (Self, Result<Ppn, PageCacheError>) {
        match self.frame_of(page) {
            None => (self, Err(PageCacheError::MissingPage)),
            Some(current) => if current != expected || self.slot(page).generation != generation {
                (self, Err(PageCacheError::MismatchedFrame { current }))
            } else if !self.publishes(retire) {
                (self, again())
            } else {
                match self.slot(page).replaced(generation, expected, frame.ppn) {
                    Err(error) => (self, Err(slot_error(error))),
                    Ok(moved) => (
                        self.with_binding(
                            page,
                            PageCacheEntry {
                                ppn: frame.ppn,
                                pin: frame.pin,
                                marks: self.pages[page.0].marks,
                            },
                            moved,
                        ),
                        Ok(frame.ppn),
                    ),
                }
            },
        }
    }

    /// Whether `page` is cached in `ppn` and its slot agrees, in a clean state
    /// if that is asked for.
    pub open spec fn withdrawable(self, page: PageIndex, ppn: Ppn, require_clean: bool) -> bool {
        &&& self.frame_of(page) == Some(ppn)
        &&& self.slot(page).state.frame() == Some(ppn)
        &&& require_clean ==> self.slot(page).state is Resident
    }

    /// Without the pages of `gone`: their slots start a new version, and
    /// neither the cache nor the root knows them.
    pub open spec fn without_pages(self, gone: Set<u64>) -> Self {
        ContainerView {
            slots: Map::new(
                |k: u64| self.slots.contains_key(k),
                |k: u64|
                    if gone.contains(k) {
                        PageSlot { inner: self.slots[k].inner.renewed(PageSlotState::Empty) }
                    } else {
                        self.slots[k]
                    },
            ),
            pages: self.pages.remove_keys(gone),
            root: self.root.remove_keys(gone),
            sequence: committed_sequence(self.sequence),
            ..self
        }
    }

    /// Outcome of withdrawing `page` from the cache.
    pub open spec fn withdraw(
        self,
        page: PageIndex,
        expected: Ppn,
        require_clean: bool,
        retire: bool,
    ) -> (Self, Result<bool, PageCacheError>) {
        if !self.withdrawable(page, expected, require_clean) {
            (self, Ok(false))
        } else if self.sequence % 2 != 0 {
            (self, again())
        } else if !self.root.contains_key(page.0) {
            (self, Ok(false))
        } else if !retire {
            (self, again())
        } else {
            (self.without_pages(set![page.0]), Ok(true))
        }
    }

    /// The candidates that can be withdrawn, in order.
    pub open spec fn eligible(
        self,
        candidates: Seq<(PageIndex, Ppn)>,
        require_clean: bool,
    ) -> Seq<(PageIndex, Ppn)>
        decreases candidates.len(),
    {
        if candidates.len() == 0 {
            Seq::empty()
        } else {
            let rest = self.eligible(candidates.drop_last(), require_clean);
            let last = candidates.last();
            if self.withdrawable(last.0, last.1, require_clean) {
                rest.push(last)
            } else {
                rest
            }
        }
    }

    /// What the eligible candidates are.
    pub proof fn lemma_eligible(self, candidates: Seq<(PageIndex, Ppn)>, require_clean: bool)
        ensures
            self.eligible(candidates, require_clean).len() <= candidates.len(),
            forall|i: int|
                0 <= i < self.eligible(candidates, require_clean).len() ==> {
                    let item = #[trigger] self.eligible(candidates, require_clean)[i];
                    &&& candidates.contains(item)
                    &&& self.withdrawable(item.0, item.1, require_clean)
                },
            forall|i: int|
                0 <= i < candidates.len() && self.withdrawable(
                    candidates[i].0,
                    candidates[i].1,
                    require_clean,
                ) ==> self.eligible(candidates, require_clean).contains(#[trigger] candidates[i]),
            distinct_pages(candidates) ==> distinct_pages(self.eligible(candidates, require_clean)),
        decreases candidates.len(),
    {
        if candidates.len() > 0 {
            let init = candidates.drop_last();
            let rest = self.eligible(init, require_clean);
            let all = self.eligible(candidates, require_clean);
            self.lemma_eligible(init, require_clean);
            assert forall|i: int| 0 <= i < all.len() implies {
                let item = #[trigger] all[i];
                &&& candidates.contains(item)
                &&& self.withdrawable(item.0, item.1, require_clean)
            } by {
                if i < rest.len() {
                    assert(all[i] == rest[i]);
                    let at = init.index_of(rest[i]);
                    assert(init[at] == rest[i] && candidates[at] == rest[i]);
                } else {
                    assert(candidates[candidates.len() - 1] == candidates.last());
                }
            }
            assert forall|i: int|
                0 <= i < candidates.len() && self.withdrawable(
                    candidates[i].0,
                    candidates[i].1,
                    require_clean,
                ) implies all.contains(#[trigger] candidates[i]) by {
                if i < init.len() {
                    assert(init[i] == candidates[i]);
                    let at = rest.index_of(init[i]);
                    assert(all[at] == rest[at]);
                } else {
                    assert(all[all.len() - 1] == candidates[i]);
                }
            }
            if distinct_pages(candidates) {
                assert forall|i: int, j: int| 0 <= i < j < init.len() implies (
                #[trigger] init[i]).0 != (#[trigger] init[j]).0 by {
                    assert(candidates[i].0 != candidates[j].0);
                }
                assert forall|i: int, j: int| 0 <= i < j < all.len() implies (
                #[trigger] all[i]).0 != (#[trigger] all[j]).0 by {
                    assert(all[i] == rest[i]);
                    if j < rest.len() {
                        assert(all[j] == rest[j]);
                    } else {
                        let at = init.index_of(rest[i]);
                        assert(init[at] == rest[i]);
                        assert(candidates[at].0 != candidates[candidates.len() - 1].0);
                    }
                }
            }
        }
    }

    /// Outcome of withdrawing the pages of `gone`, which can be withdrawn, with
    /// a single publication.
    pub open spec fn withdraw_all(self, gone: Set<u64>, retire: bool) -> (
        Self,
        Result<usize, PageCacheError>,
    ) {
        if gone == Set::<u64>::empty() {
            (self, Ok(0))
        } else if self.sequence % 2 != 0 {
            (self, again())
        } else if !gone.subset_of(self.root.dom()) {
            (self, Err(PageCacheError::MissingPage))
        } else if !retire {
            (self, again())
        } else {
            (self.without_pages(gone), Ok(gone.len() as usize))
        }
    }

    /// Outcome of withdrawing the eligible ones of `candidates`. One that names
    /// a page a second time finds it gone, which undoes all of them.
    pub open spec fn withdraw_batch(
        self,
        candidates: Seq<(PageIndex, Ppn)>,
        require_clean: bool,
        retire: bool,
    ) -> (Self, Result<usize, PageCacheError>) {
        let chosen = self.eligible(candidates, require_clean);
        if distinct_pages(chosen) {
            self.withdraw_all(pages_of(chosen), retire)
        } else if self.sequence % 2 != 0 {
            (self, again())
        } else {
            (self, Err(PageCacheError::MissingPage))
        }
    }

    /// The cached pages from `first` on.
    pub open spec fn cached_from(self, first: PageIndex) -> Set<u64> {
        Set::new(|k: u64| self.pages.contains_key(k) && k >= first.0)
    }

    /// Outcome of dropping every cached page from `first` on, whatever its
    /// state, with a single publication.
    pub open spec fn withdraw_from(self, first: PageIndex, retire: bool) -> (Self, bool) {
        if self.cached_from(first) == Set::<u64>::empty() {
            (self, true)
        } else if !self.publishes(retire) {
            (self, false)
        } else {
            (self.without_pages(self.cached_from(first)), true)
        }
    }
}

/// The pages named by `items`.
pub open spec fn pages_of(items: Seq<(PageIndex, Ppn)>) -> Set<u64> {
    Set::new(|k: u64| exists|i: int| 0 <= i < items.len() && (#[trigger] items[i]).0.0 == k)
}

/// Whether no page is named twice.
pub open spec fn distinct_pages(items: Seq<(PageIndex, Ppn)>) -> bool {
    forall|i: int, j: int|
        0 <= i < j < items.len() ==> (#[trigger] items[i]).0 != (#[trigger] items[j]).0
}

/// Distinct pages make a set of as many members.
pub proof fn lemma_pages_of(items: Seq<(PageIndex, Ppn)>)
    requires
        distinct_pages(items),
    ensures
        pages_of(items).finite(),
        pages_of(items).len() == items.len(),
    decreases items.len(),
{
    if items.len() == 0 {
        assert(pages_of(items) =~= Set::empty());
    } else {
        let init = items.drop_last();
        assert forall|i: int, j: int| 0 <= i < j < init.len() implies (#[trigger] init[i]).0 != (
        #[trigger] init[j]).0 by {
            assert(items[i].0 != items[j].0);
        }
        lemma_pages_of(init);
        let last = items.last().0.0;
        assert(pages_of(items) =~= pages_of(init).insert(last)) by {
            assert forall|k: u64| pages_of(items).contains(k) == pages_of(init).insert(
                last,
            ).contains(k) by {
                if pages_of(items).contains(k) {
                    let i = choose|i: int|
                        0 <= i < items.len() && (#[trigger] items[i]).0.0 == k;
                    if i < init.len() {
                        assert(init[i].0.0 == k);
                    }
                }
                if pages_of(init).contains(k) {
                    let i = choose|i: int| 0 <= i < init.len() && (#[trigger] init[i]).0.0 == k;
                    assert(items[i].0.0 == k);
                }
                assert(items[items.len() - 1].0.0 == last);
            }
        }
        if pages_of(init).contains(last) {
            let i = choose|i: int| 0 <= i < init.len() && (#[trigger] init[i]).0.0 == last;
            assert(items[i].0 != items[items.len() - 1].0);
        }
    }
}

impl PageContainer {
    /// Make sure that the slot of `page` is bound to `ppn`. If the page is not
    /// cached, it is still to be.
    pub(crate) fn ensure_resident_page_slot(&mut self, page: PageIndex, ppn: Ppn) -> (r: SlotResult)
        requires
            old(self).wf(),
            old(self)@.frame_of(page) matches Some(current) ==> current == ppn,
        ensures
            final(self).parts_wf(),
            old(self)@.cached(page) || r is Err ==> final(self).wf(),
            r == ensured(old(self)@.slot(page), ppn),
            final(self)@ == match r {
                Ok(slot) => old(self)@.with_slot(page, slot),
                Err(_) => old(self)@.touched(page),
            },
    {
        self.resident_slot(page);
        let ghost before = self@;
        let slot = self.page_slots.get_mut(page.0);
        let snapshot = slot.snapshot();
        let r = match snapshot.state.resident_ppn() {
            Some(current) => {
                if current == ppn {
                    Ok(snapshot)
                } else {
                    Err(PageSlotCompletionError::MismatchedFrame { expected: ppn, current })
                }
            },
            None => match snapshot.state {
                PageSlotState::Fetching => Err(
                    PageSlotCompletionError::NotFetching {
                        state: snapshot.state,
                        generation: snapshot.generation,
                    },
                ),
                _ => match slot.begin_fetch() {
                    PageSlotFetch::Owner { generation } => slot.complete_fetch(generation, Ok(ppn)),
                    _ => Err(
                        PageSlotCompletionError::NotFetching {
                            state: snapshot.state,
                            generation: snapshot.generation,
                        },
                    ),
                },
            },
        };
        proof {
            let expected = match r {
                Ok(slot) => old(self)@.with_slot(page, slot),
                Err(_) => old(self)@.touched(page),
            };
            assert(self@.slots =~= expected.slots);
            assert(self@ =~= expected);
        }
        r
    }

    /// Cache `frame` for `page` and publish it, unless the page is cached. With
    /// `dirty` the contents count as written before they are published.
    /// `retire` tells whether a retire credit for the old root was granted.
    pub fn install_resident_if_absent_published_with(
        &mut self,
        page: PageIndex,
        frame: CachedFrame,
        dirty: bool,
        retire: bool,
    ) -> (r: Result<bool, PageCacheError>)
        requires
            old(self).wf(),
            frame.wf(),
        ensures
            final(self).wf(),
            (final(self)@, r) == old(self)@.install(page, frame, dirty, retire),
    {
        let ppn = frame.ppn;
        if self.pages.lookup(page).is_some() {
            return Ok(false);
        }
        self.resident_slot(page);
        let ghost seen = self@;
        let claim = match ResidentMutationClaim::try_acquire(&mut self.resident_sequence) {
            Some(claim) => claim,
            None => {
                return Err(PageCacheError::Backend(Errno::EAGAIN));
            },
        };
        if !retire {
            claim.release(&mut self.resident_sequence);
            return Err(PageCacheError::Backend(Errno::EAGAIN));
        }
        match self.ensure_resident_page_slot(page, ppn) {
            Ok(_) => {},
            Err(error) => {
                claim.release(&mut self.resident_sequence);
                proof {
                    assert(self@.slots =~= seen.slots);
                    assert(self@ =~= seen);
                }
                return Err(page_slot_completion_error_to_page_cache_error(error));
            },
        }
        if dirty {
            let slot = self.page_slots.get_mut(page.0);
            let _dirtied = slot.mark_dirty();
        }
        let entry = PageCacheEntry::new(frame);
        self.publish_entry(page, entry, claim);
        proof {
            let expected = old(self)@.install(page, frame, dirty, retire).0;
            assert(self@.slots =~= expected.slots);
            assert(self@ =~= expected);
        }
        Ok(true)
    }

    /// Put `entry` into the cache and the root under `claim`.
    fn publish_entry(&mut self, page: PageIndex, entry: PageCacheEntry, claim: ResidentMutationClaim)
        requires
            old(self).resident.wf(),
            old(self).pages.wf(),
            entry.wf(),
            old(self).resident@.dom().subset_of(old(self).pages@.dom()),
        ensures
            final(self).resident.wf(),
            final(self).pages.wf(),
            final(self)@ == (ContainerView {
                pages: old(self)@.pages.insert(page.0, entry),
                root: old(self)@.root.insert(page.0, entry.binding()),
                sequence: committed_sequence(claim.base),
                ..old(self)@
            }),
            final(self).page_submission == old(self).page_submission,
            final(self).block_submission == old(self).block_submission,
            final(self).page_slots == old(self).page_slots,
            final(self).in_flight_file_pages == old(self).in_flight_file_pages,
            final(self).fsync_submissions == old(self).fsync_submissions,
            final(self).range_reservations == old(self).range_reservations,
            final(self).direct_io_in_flight == old(self).direct_io_in_flight,
            final(self).direct_io_completed == old(self).direct_io_completed,
            final(self).file_page_waits == old(self).file_page_waits,
    {
        let cell = entry.cell();
        let _previous = self.pages.pages.insert(page.0, entry);
        proof {
            let published = self.resident@.dom().insert(page.0);
            self.pages.pages.lemma_len();
            assert(self.pages.pages.keys.len() <= usize::MAX);
            assert(published.subset_of(self.pages@.dom()));
            vstd::set_lib::lemma_len_subset(published, self.pages@.dom());
        }
        let mut root = ResidentRoot::empty();
        std::mem::swap(&mut root, &mut self.resident);
        root = root.with_cell(page, cell);
        self.resident = root;
        claim.commit(&mut self.resident_sequence);
    }

    /// Cache `frame` for `page` and publish it clean, unless the page is cached.
    pub fn install_resident_if_absent_published(
        &mut self,
        page: PageIndex,
        frame: CachedFrame,
        retire: bool,
    ) -> (r: Result<bool, PageCacheError>)
        requires
            old(self).wf(),
            frame.wf(),
        ensures
            final(self).wf(),
            (final(self)@, r) == old(self)@.install(page, frame, false, retire),
    {
        self.install_resident_if_absent_published_with(page, frame, false, retire)
    }

    /// Cache and publish the frame that the fetch of `generation` brought,
    /// unless the page is cached. The fetch is still to be ended.
    pub fn install_fetched_resident_if_absent_published(
        &mut self,
        page: PageIndex,
        generation: PageGeneration,
        frame: CachedFrame,
        retire: bool,
    ) -> (r: Result<bool, PageCacheError>)
        requires
            old(self).wf(),
            frame.wf(),
        ensures
            final(self).wf_but_fetch(page),
            !old(self)@.requested(page) || r !is Ok || !r->Ok_0 ==> final(self).wf(),
            (final(self)@, r) == old(self)@.install_fetched(page, generation, frame, retire),
    {
        let ppn = frame.ppn;
        if self.pages.lookup(page).is_some() {
            return Ok(false);
        }
        self.resident_slot(page);
        let ghost seen = self@;
        let claim = match ResidentMutationClaim::try_acquire(&mut self.resident_sequence) {
            Some(claim) => claim,
            None => {
                return Err(PageCacheError::Backend(Errno::EAGAIN));
            },
        };
        if !retire {
            claim.release(&mut self.resident_sequence);
            return Err(PageCacheError::Backend(Errno::EAGAIN));
        }
        let slot = self.page_slots.get_mut(page.0);
        match slot.complete_fetch(generation, Ok(ppn)) {
            Ok(_) => {},
            Err(error) => {
                claim.release(&mut self.resident_sequence);
                proof {
                    assert(self@.slots =~= seen.slots);
                    assert(self@ =~= seen);
                }
                return Err(page_slot_completion_error_to_page_cache_error(error));
            },
        }
        let entry = PageCacheEntry::new(frame);
        self.publish_entry(page, entry, claim);
        proof {
            let expected = old(self)@.install_fetched(page, generation, frame, retire).0;
            assert(self@.slots =~= expected.slots);
            assert(self@ =~= expected);
        }
        Ok(true)
    }

    /// Move `page` to `frame`, if it is still cached in `expected_ppn` as of
    /// `expected_generation`. Marks move with it.
    pub fn replace_resident_if_match_published(
        &mut self,
        page: PageIndex,
        expected_ppn: Ppn,
        expected_generation: PageGeneration,
        frame: CachedFrame,
        retire: bool,
    ) -> (r: Result<Ppn, PageCacheError>)
        requires
            old(self).wf(),
            frame.wf(),
        ensures
            final(self).wf(),
            (final(self)@, r) == old(self)@.replace(
                page,
                expected_ppn,
                expected_generation,
                frame,
                retire,
            ),
    {
        let replacement = frame.ppn;
        let (current, marks) = match self.pages.load(page) {
            Some(entry) => (entry.ppn(), entry.marks),
            None => {
                return Err(PageCacheError::MissingPage);
            },
        };
        if current != expected_ppn {
            return Err(PageCacheError::MismatchedFrame { current });
        }
        let ghost before = self@;
        let slot = self.page_slots.get_mut(page.0);
        let generation = slot.generation();
        if generation != expected_generation {
            proof {
                assert(self@.slots =~= before.slots);
                assert(self@ =~= before);
            }
            return Err(PageCacheError::MismatchedFrame { current });
        }
        let claim = match ResidentMutationClaim::try_acquire(&mut self.resident_sequence) {
            Some(claim) => claim,
            None => {
                proof {
                    assert(self@.slots =~= before.slots);
                    assert(self@ =~= before);
                }
                return Err(PageCacheError::Backend(Errno::EAGAIN));
            },
        };
        if !retire {
            claim.release(&mut self.resident_sequence);
            proof {
                assert(self@.slots =~= before.slots);
                assert(self@ =~= before);
            }
            return Err(PageCacheError::Backend(Errno::EAGAIN));
        }
        let slot = self.page_slots.get_mut(page.0);
        match slot.replace_if_matches(expected_generation, expected_ppn, replacement) {
            Ok(_) => {},
            Err(error) => {
                claim.release(&mut self.resident_sequence);
                proof {
                    assert(self@.slots =~= before.slots);
                    assert(self@ =~= before);
                }
                return Err(page_slot_completion_error_to_page_cache_error(error));
            },
        }
        let entry = PageCacheEntry { ppn: replacement, pin: frame.pin, marks };
        self.publish_entry(page, entry, claim);
        proof {
            let expected = old(self)@.replace(
                page,
                expected_ppn,
                expected_generation,
                frame,
                retire,
            ).0;
            assert(self@.slots =~= expected.slots);
            assert(self@ =~= expected);
        }
        Ok(replacement)
    }

    /// Whether `page` is cached in `ppn` and its slot agrees, in a clean state
    /// if that is asked for.
    pub fn withdrawable_generation(&self, page: PageIndex, ppn: Ppn, require_clean: bool) -> (found:
        Option<PageGeneration>)
        requires
            self.wf(),
        ensures
            found == (if self@.withdrawable(page, ppn, require_clean) {
                Some(self@.slot(page).generation)
            } else {
                None
            }),
    {
        match self.pages.lookup(page) {
            None => {
                return None;
            },
            Some(current) => {
                if current != ppn {
                    return None;
                }
            },
        }
        let snapshot = match self.page_slots.get(page.0) {
            Some(slot) => slot.snapshot(),
            None => {
                return None;
            },
        };
        let clean = match snapshot.state {
            PageSlotState::Resident { .. } => true,
            _ => false,
        };
        match snapshot.state.resident_ppn() {
            Some(found) => {
                if found != ppn || (require_clean && !clean) {
                    return None;
                }
            },
            None => {
                return None;
            },
        }
        Some(snapshot.generation)
    }

    /// Drop one validated binding from the slot, the cache and the root.
    fn unbind(&mut self, page: PageIndex, ppn: Ppn, generation: PageGeneration)
        requires
            old(self).resident.wf(),
            old(self).pages.wf(),
            old(self).page_slots.wf(),
            old(self)@.slots.contains_key(page.0),
            old(self)@.slot(page).generation == generation,
            old(self)@.slot(page).state.frame() == Some(ppn),
        ensures
            final(self).resident.wf(),
            final(self).pages.wf(),
            final(self).page_slots.wf(),
            final(self)@ == (ContainerView {
                sequence: old(self)@.sequence,
                ..old(self)@.without_pages(set![page.0])
            }),
            final(self).page_submission == old(self).page_submission,
            final(self).block_submission == old(self).block_submission,
            final(self).in_flight_file_pages == old(self).in_flight_file_pages,
            final(self).fsync_submissions == old(self).fsync_submissions,
            final(self).range_reservations == old(self).range_reservations,
            final(self).direct_io_in_flight == old(self).direct_io_in_flight,
            final(self).direct_io_completed == old(self).direct_io_completed,
            final(self).file_page_waits == old(self).file_page_waits,
    {
        let ghost before = self@;
        let slot = self.page_slots.get_mut(page.0);
        let _withdrawn = slot.withdraw_if_matches(generation, ppn);
        let mut root = ResidentRoot::empty();
        std::mem::swap(&mut root, &mut self.resident);
        self.resident = root.without_cell(page);
        let _previous = self.pages.erase(page);
        proof {
            let expected = before.without_pages(set![page.0]);
            assert(self@.slots =~= expected.slots);
            assert(self@.pages =~= expected.pages);
            assert(self@.root =~= expected.root);
        }
    }

    /// Withdraw `page` from the cache, if it is still bound to `expected_ppn`.
    pub fn withdraw_resident_if_match_published(
        &mut self,
        page: PageIndex,
        expected_ppn: Ppn,
        require_clean: bool,
        retire: bool,
    ) -> (r: Result<bool, PageCacheError>)
        requires
            old(self).wf(),
        ensures
            final(self).wf(),
            (final(self)@, r) == old(self)@.withdraw(page, expected_ppn, require_clean, retire),
    {
        let generation = match self.withdrawable_generation(page, expected_ppn, require_clean) {
            Some(generation) => generation,
            None => {
                return Ok(false);
            },
        };
        let claim = match ResidentMutationClaim::try_acquire(&mut self.resident_sequence) {
            Some(claim) => claim,
            None => {
                return Err(PageCacheError::Backend(Errno::EAGAIN));
            },
        };
        if self.resident.lookup(page).is_none() {
            claim.release(&mut self.resident_sequence);
            return Ok(false);
        }
        if !retire {
            claim.release(&mut self.resident_sequence);
            return Err(PageCacheError::Backend(Errno::EAGAIN));
        }
        self.unbind(page, expected_ppn, generation);
        claim.commit(&mut self.resident_sequence);
        Ok(true)
    }

    /// Whether the published root has the pages of `items`, one after the other.
    fn all_published_once(&self, items: &Vec<(PageIndex, Ppn)>) -> (all: bool)
        requires
            self.resident.wf(),
        ensures
            all == (distinct_pages(items@) && pages_of(items@).subset_of(self@.root.dom())),
    {
        let mut root = self.resident.snapshot();
        let mut i: usize = 0;
        proof {
            assert(items@.take(0) =~= Seq::empty());
            assert(pages_of(items@.take(0)) =~= Set::empty());
            assert(root@ =~= self@.root.remove_keys(pages_of(items@.take(0))));
        }
        while i < items.len()
            invariant
                i <= items.len(),
                self.resident.wf(),
                root.wf(),
                distinct_pages(items@.take(i as int)),
                pages_of(items@.take(i as int)).subset_of(self@.root.dom()),
                root@ == self@.root.remove_keys(pages_of(items@.take(i as int))),
            decreases items.len() - i,
        {
            let page = items[i].0;
            let ghost seen = items@.take(i as int);
            let ghost more = items@.take(i + 1);
            if root.lookup(page).is_none() {
                proof {
                    if self@.root.contains_key(page.0) {
                        assert(pages_of(seen).contains(page.0));
                        let j = choose|j: int|
                            0 <= j < seen.len() && (#[trigger] seen[j]).0.0 == page.0;
                        assert(items@[j].0 == items@[i as int].0);
                    } else {
                        assert(items@[i as int].0.0 == page.0);
                        assert(pages_of(items@).contains(page.0));
                    }
                }
                return false;
            }
            root = root.without_cell(page);
            proof {
                assert(!pages_of(seen).contains(page.0));
                assert(more =~= seen.push(items@[i as int]));
                assert(distinct_pages(more)) by {
                    assert forall|a: int, b: int| 0 <= a < b < more.len() implies (
                    #[trigger] more[a]).0 != (#[trigger] more[b]).0 by {
                        assert(more[a] == seen[a]);
                        if b < seen.len() {
                            assert(more[b] == seen[b]);
                        } else if more[a].0 == more[b].0 {
                            assert(pages_of(seen).contains(seen[a].0.0));
                        }
                    }
                }
                assert forall|k: u64| pages_of(more).contains(k) == pages_of(seen).insert(
                    page.0,
                ).contains(k) by {
                    if pages_of(more).contains(k) {
                        let j = choose|j: int| 0 <= j < more.len() && (#[trigger] more[j]).0.0 == k;
                        if j < seen.len() {
                            assert(seen[j] == more[j]);
                        }
                    }
                    if pages_of(seen).contains(k) {
                        let j = choose|j: int| 0 <= j < seen.len() && (#[trigger] seen[j]).0.0 == k;
                        assert(more[j] == seen[j]);
                    }
                    assert(more[i as int].0.0 == page.0);
                }
                assert(pages_of(more) =~= pages_of(seen).insert(page.0));
                assert(root@ =~= self@.root.remove_keys(pages_of(more)));
            }
            i += 1;
        }
        assert(items@.take(i as int) =~= items@);
        true
    }

    /// Withdraw every eligible candidate with one publication.
    pub fn withdraw_resident_batch_published(
        &mut self,
        candidates: &Vec<(PageIndex, Ppn)>,
        require_clean: bool,
        retire: bool,
    ) -> (r: Result<usize, PageCacheError>)
        requires
            old(self).wf(),
        ensures
            final(self).wf(),
            (final(self)@, r) == old(self)@.withdraw_batch(candidates@, require_clean, retire),
    {
        let ghost before = self@;
        let ghost chosen = before.eligible(candidates@, require_clean);
        let mut expected: Vec<(PageIndex, Ppn)> = Vec::new();
        let mut generations: Vec<PageGeneration> = Vec::new();
        let mut i: usize = 0;
        while i < candidates.len()
            invariant
                i <= candidates.len(),
                self.wf(),
                self@ == before,
                expected@ == before.eligible(candidates@.take(i as int), require_clean),
                generations@.len() == expected@.len(),
                forall|j: int|
                    0 <= j < generations@.len() ==> #[trigger] generations@[j] == before.slot(
                        expected@[j].0,
                    ).generation,
            decreases candidates.len() - i,
        {
            let (page, ppn) = candidates[i];
            assert(candidates@.take(i + 1).drop_last() =~= candidates@.take(i as int));
            match self.withdrawable_generation(page, ppn, require_clean) {
                Some(generation) => {
                    expected.push((page, ppn));
                    generations.push(generation);
                },
                None => {},
            }
            i += 1;
        }
        proof {
            assert(candidates@.take(candidates@.len() as int) =~= candidates@);
            before.lemma_eligible(candidates@, require_clean);
            if distinct_pages(chosen) {
                lemma_pages_of(chosen);
            }
            if chosen.len() > 0 {
                assert(pages_of(chosen).contains(chosen[0].0.0));
            } else {
                assert(pages_of(chosen) =~= Set::empty());
            }
        }
        if expected.len() == 0 {
            return Ok(0);
        }
        let claim = match ResidentMutationClaim::try_acquire(&mut self.resident_sequence) {
            Some(claim) => claim,
            None => {
                return Err(PageCacheError::Backend(Errno::EAGAIN));
            },
        };
        let published = self.all_published_once(&expected);
        if !published {
            claim.release(&mut self.resident_sequence);
            return Err(PageCacheError::MissingPage);
        }
        if !retire {
            claim.release(&mut self.resident_sequence);
            return Err(PageCacheError::Backend(Errno::EAGAIN));
        }
        let ghost claimed = self@.sequence;
        let mut i: usize = 0;
        proof {
            assert(chosen.take(0) =~= Seq::empty());
            let none = ContainerView { sequence: claimed, ..before.without_pages(
                pages_of(chosen.take(0)),
            ) };
            assert(none.slots =~= before.slots);
            assert(none.pages =~= before.pages);
            assert(none.root =~= before.root);
        }
        while i < expected.len()
            invariant
                i <= expected.len(),
                expected@ == chosen,
                chosen.len() == generations@.len(),
                distinct_pages(chosen),
                before.consistent(),
                forall|j: int|
                    0 <= j < chosen.len() ==> {
                        let item = #[trigger] chosen[j];
                        before.withdrawable(item.0, item.1, require_clean)
                    },
                forall|j: int|
                    0 <= j < generations@.len() ==> #[trigger] generations@[j] == before.slot(
                        chosen[j].0,
                    ).generation,
                self.resident.wf(),
                self.pages.wf(),
                self.page_slots.wf(),
                self.page_submission == old(self).page_submission,
                self.block_submission == old(self).block_submission,
                self.in_flight_file_pages == old(self).in_flight_file_pages,
                self.fsync_submissions == old(self).fsync_submissions,
                self.range_reservations == old(self).range_reservations,
                self.direct_io_in_flight == old(self).direct_io_in_flight,
                self.direct_io_completed == old(self).direct_io_completed,
                self.file_page_waits == old(self).file_page_waits,
                self@ == (ContainerView {
                    sequence: claimed,
                    ..before.without_pages(pages_of(chosen.take(i as int)))
                }),
            decreases expected.len() - i,
        {
            let (page, ppn) = expected[i];
            let ghost gone = pages_of(chosen.take(i as int));
            let ghost more = pages_of(chosen.take(i + 1));
            proof {
                assert(chosen[i as int] == (page, ppn));
                assert(before.withdrawable(page, ppn, require_clean));
                assert(!gone.contains(page.0)) by {
                    if gone.contains(page.0) {
                        let j = choose|j: int|
                            0 <= j < chosen.take(i as int).len() && (#[trigger] chosen.take(
                                i as int,
                            )[j]).0.0 == page.0;
                        assert(chosen[j].0 != chosen[i as int].0);
                    }
                }
                assert(generations@[i as int] == before.slot(page).generation);
            }
            let ghost at = self@;
            self.unbind(page, ppn, generations[i]);
            proof {
                assert(more =~= gone.insert(page.0)) by {
                    assert forall|k: u64| more.contains(k) == gone.insert(page.0).contains(k) by {
                        if more.contains(k) {
                            let j = choose|j: int|
                                0 <= j < chosen.take(i + 1).len() && (#[trigger] chosen.take(
                                    i + 1,
                                )[j]).0.0 == k;
                            if j < i {
                                assert(chosen.take(i as int)[j] == chosen[j]);
                            }
                        }
                        if gone.contains(k) {
                            let j = choose|j: int|
                                0 <= j < chosen.take(i as int).len() && (#[trigger] chosen.take(
                                    i as int,
                                )[j]).0.0 == k;
                            assert(chosen.take(i + 1)[j] == chosen[j]);
                        }
                        if k == page.0 {
                            assert(chosen.take(i + 1)[i as int] == chosen[i as int]);
                        }
                    }
                }
                let expected_view = before.without_pages(more);
                assert(self@.slots =~= expected_view.slots);
                assert(self@.pages =~= expected_view.pages);
                assert(self@.root =~= expected_view.root);
            }
            i += 1;
        }
        claim.commit(&mut self.resident_sequence);
        proof {
            assert(chosen.take(chosen.len() as int) =~= chosen);
        }
        Ok(expected.len())
    }
}

impl PageContainer {
    /// Whether any page from `first` on is cached.
    fn caches_from(&self, first: PageIndex) -> (any: bool)
        requires
            self.wf(),
        ensures
            any == (self@.cached_from(first) != Set::<u64>::empty()),
    {
        let count: usize = self.pages.pages.len();
        proof {
            self.pages.pages.lemma_order();
        }
        if count == 0 {
            assert(self@.cached_from(first) =~= Set::<u64>::empty()) by {
                assert forall|k: u64| !self@.cached_from(first).contains(k) by {
                    assert(!self.pages.order().contains(k));
                }
            }
            return false;
        }
        let last: u64 = self.pages.pages.key_at(count - 1);
        proof {
            let order = self.pages.order();
            assert(order[count - 1] == last);
            assert(order.contains(last));
            if last >= first.0 {
                assert(self@.cached_from(first).contains(last));
            } else {
                assert forall|k: u64| !self@.cached_from(first).contains(k) by {
                    if self@.pages.contains_key(k) {
                        let i = order.index_of(k);
                        assert(order[i] == k);
                        assert(i < count - 1 ==> order[i] < order[count - 1]);
                    }
                }
                assert(self@.cached_from(first) =~= Set::<u64>::empty());
            }
        }
        last >= first.0
    }

    /// Drop every cached page from `first` on with one publication, and say
    /// whether that could be done.
    pub fn withdraw_cached_pages_from(&mut self, first: PageIndex, retire: bool) -> (done: bool)
        requires
            old(self).wf(),
        ensures
            final(self).wf(),
            (final(self)@, done) == old(self)@.withdraw_from(first, retire),
    {
        if !self.caches_from(first) {
            return true;
        }
        let claim = match ResidentMutationClaim::try_acquire(&mut self.resident_sequence) {
            Some(claim) => claim,
            None => {
                return false;
            },
        };
        if !retire {
            claim.release(&mut self.resident_sequence);
            return false;
        }
        let ghost before = old(self)@;
        let ghost gone = before.cached_from(first);
        let dropped = self.pages.pages.split_off(first.0);
        let ghost order = dropped.order();
        let mut i: usize = 0;
        proof {
            dropped.lemma_order();
            assert forall|k: u64| #[trigger] order.contains(k) <==> gone.contains(k) by {
                assert(dropped@.contains_key(k) <==> order.contains(k));
            }
            assert(self@.pages =~= before.pages.remove_keys(gone));
            assert(order.take(0) =~= Seq::<u64>::empty());
            let none = before.without_pages(order.take(0).to_set());
            assert(none.slots =~= before.slots);
            assert(none.root =~= before.root);
        }
        while i < dropped.len()
            invariant
                i <= order.len(),
                dropped.wf(),
                order == dropped.order(),
                before == old(self)@,
                before.consistent(),
                gone == before.cached_from(first),
                forall|k: u64| #[trigger] order.contains(k) <==> gone.contains(k),
                claim.base == before.sequence,
                self.resident.wf(),
                self.pages.wf(),
                self.page_slots.wf(),
                self.page_submission == old(self).page_submission,
                self.block_submission == old(self).block_submission,
                self.in_flight_file_pages == old(self).in_flight_file_pages,
                self.fsync_submissions == old(self).fsync_submissions,
                self.range_reservations == old(self).range_reservations,
                self.direct_io_in_flight == old(self).direct_io_in_flight,
                self.direct_io_completed == old(self).direct_io_completed,
                self.file_page_waits == old(self).file_page_waits,
                self@ == (ContainerView {
                    sequence: self@.sequence,
                    pages: before.pages.remove_keys(gone),
                    ..before.without_pages(order.take(i as int).to_set())
                }),
            decreases order.len() - i,
        {
            let ghost at = self@;
            let page = PageIndex::new(dropped.key_at(i));
            proof {
                assert(order[i as int] == page.0);
                assert(order.contains(page.0));
                assert(before.pages.contains_key(page.0));
                assert(before.slots.contains_key(page.0));
                dropped.lemma_order();
                assert(!order.take(i as int).contains(page.0)) by {
                    if order.take(i as int).contains(page.0) {
                        let j = order.take(i as int).index_of(page.0);
                        assert(order[j] == page.0);
                        assert(order[j] < order[i as int]);
                    }
                }
            }
            let slot = self.page_slots.get_mut(page.0);
            let _forgotten = slot.invalidate();
            let mut root = ResidentRoot::empty();
            std::mem::swap(&mut root, &mut self.resident);
            self.resident = root.without_cell(page);
            proof {
                let fewer = order.take(i as int);
                let more = order.take(i + 1);
                assert(more =~= fewer.push(page.0));
                assert(more.to_set() =~= fewer.to_set().insert(page.0)) by {
                    assert forall|k: u64| more.contains(k) == (fewer.contains(k) || k == page.0) by {
                        if fewer.contains(k) {
                            let j = fewer.index_of(k);
                            assert(more[j] == k);
                        }
                        if k == page.0 {
                            assert(more[i as int] == k);
                        }
                        if more.contains(k) && k != page.0 {
                            let j = more.index_of(k);
                            assert(fewer[j] == k);
                        }
                    }
                }
                let expected = before.without_pages(more.to_set());
                assert(self@.slots =~= expected.slots);
                assert(self@.root =~= expected.root);
            }
            i += 1;
        }
        claim.commit(&mut self.resident_sequence);
        proof {
            assert(order.take(i as int) =~= order);
            assert(order.to_set() =~= gone);
            assert(self@ =~= before.without_pages(gone));
        }
        true
    }
}

/// A published binding is always backed by the cache, and the cache by a slot
/// that names the same frame or none: installing, replacing and withdrawing
/// keep it so, whatever their outcome.
pub proof fn law_publication_keeps_consistency(
    view: ContainerView,
    page: PageIndex,
    frame: CachedFrame,
    dirty: bool,
    generation: PageGeneration,
    expected: Ppn,
    candidates: Seq<(PageIndex, Ppn)>,
    require_clean: bool,
    retire: bool,
)
    requires
        view.consistent(),
        frame.wf(),
    ensures
        view.install(page, frame, dirty, retire).0.consistent(),
        view.install_fetched(page, generation, frame, retire).0.without_fetch(page).consistent(),
        !view.requested(page) ==> view.install_fetched(
            page,
            generation,
            frame,
            retire,
        ).0.consistent(),
        view.replace(page, expected, generation, frame, retire).0.consistent(),
        view.withdraw(page, expected, require_clean, retire).0.consistent(),
        view.withdraw_batch(candidates, require_clean, retire).0.consistent(),
        view.withdraw_from(page, retire).0.consistent(),
{
}

/// Backpressure has no effect on what is cached, published or in a slot: it
/// can only leave a fresh slot behind.
pub proof fn law_backpressure_changes_nothing(
    view: ContainerView,
    page: PageIndex,
    frame: CachedFrame,
    dirty: bool,
    generation: PageGeneration,
    expected: Ppn,
    candidates: Seq<(PageIndex, Ppn)>,
    require_clean: bool,
)
    ensures
        ({
            let after = view.install(page, frame, dirty, false).0;
            &&& after.pages == view.pages
            &&& after.root == view.root
            &&& after.slot(page) == view.slot(page)
        }),
        ({
            let after = view.install_fetched(page, generation, frame, false).0;
            &&& after.pages == view.pages
            &&& after.root == view.root
            &&& after.slot(page) == view.slot(page)
        }),
        view.replace(page, expected, generation, frame, false).0 == view,
        view.withdraw(page, expected, require_clean, false).0 == view,
        view.withdraw_batch(candidates, require_clean, false).0 == view,
        view.withdraw_from(page, false).0 == view,
{
}

} // verus!
