//! Reservations of page ranges, which keep incompatible operations apart.
//!
//! A reservation is not held across a wait: an operation that is going to yield
//! releases its range first and reserves it again when it is woken.

use crate::ids::{bump_nonzero, next_nonzero, PageIndex};
use vstd::prelude::*;

verus! {

#[derive(Clone, Copy, Debug, PartialEq, Eq, PartialOrd, Ord, Hash, Structural)]
pub struct RangeReservationId(pub u64);

impl RangeReservationId {
    pub fn new(raw: u64) -> (id: Self)
        ensures
            id == RangeReservationId(raw),
    {
        RangeReservationId(raw)
    }

    pub fn raw(self) -> (raw: u64)
        ensures
            raw == self.0,
    {
        self.0
    }
}

/// `page_count` pages from `start` on.
#[derive(Clone, Copy, Debug, PartialEq, Eq, Structural)]
pub struct PageRange {
    pub start: PageIndex,
    pub page_count: u64,
}

impl PageRange {
    pub fn new(start: PageIndex, page_count: u64) -> (range: Self)
        ensures
            range == (PageRange { start, page_count }),
    {
        PageRange { start, page_count }
    }

    pub fn start(self) -> (start: PageIndex)
        ensures
            start == self.start,
    {
        self.start
    }

    pub fn page_count(self) -> (page_count: u64)
        ensures
            page_count == self.page_count,
    {
        self.page_count
    }

    /// One past the last page, as a number without a limit.
    pub open spec fn limit(self) -> int {
        self.start.0 + self.page_count
    }

    /// Whether the end of the range is a page index.
    pub open spec fn fits(self) -> bool {
        self.limit() <= u64::MAX
    }

    /// Whether `page` is one of the pages of the range.
    pub open spec fn holds(self, page: PageIndex) -> bool {
        self.start.0 <= page.0 < self.limit()
    }

    /// Whether two ranges meet. A range whose end is no page index meets nothing.
    pub open spec fn meets(self, other: Self) -> bool {
        &&& self.fits()
        &&& other.fits()
        &&& self.start.0 < other.limit()
        &&& other.start.0 < self.limit()
    }

    pub fn end(self) -> (end: Option<PageIndex>)
        ensures
            end is Some == self.fits(),
            end is Some ==> (end->Some_0).0 == self.limit(),
    {
        match self.start.0.checked_add(self.page_count) {
            Some(end) => Some(PageIndex::new(end)),
            None => None,
        }
    }

    pub fn is_empty(self) -> (empty: bool)
        ensures
            empty == (self.page_count == 0),
    {
        self.page_count == 0
    }

    /// Whether `page` lies in the range. A range whose end is no page index
    /// contains nothing.
    pub fn contains(self, page: PageIndex) -> (contained: bool)
        ensures
            contained == (self.fits() && self.holds(page)),
    {
        match self.end() {
            Some(end) => self.start.0 <= page.0 && page.0 < end.0,
            None => false,
        }
    }

    pub fn overlaps(self, other: Self) -> (overlapping: bool)
        ensures
            overlapping == self.meets(other),
    {
        match (self.end(), other.end()) {
            (Some(self_end), Some(other_end)) => self.start.0 < other_end.0 && other.start.0
                < self_end.0,
            _ => false,
        }
    }
}

/// What a range is reserved for.
#[derive(Clone, Copy, Debug, PartialEq, Eq, Structural)]
pub enum RangeReservationKind {
    BufferedRead,
    BufferedWrite,
    Fsync,
    Truncate,
    Fallocate,
    DirectRead,
    DirectWrite,
    Writeback,
    Reclaim,
}

impl RangeReservationKind {
    /// Two reads of the same sort share a range; nothing else does.
    pub open spec fn excludes(self, other: Self) -> bool {
        !(self == other && (self is BufferedRead || self is DirectRead))
    }

    pub fn conflicts_with(self, other: Self) -> (conflict: bool)
        ensures
            conflict == self.excludes(other),
    {
        match (self, other) {
            (RangeReservationKind::BufferedRead, RangeReservationKind::BufferedRead) => false,
            (RangeReservationKind::DirectRead, RangeReservationKind::DirectRead) => false,
            _ => true,
        }
    }
}

#[derive(Clone, Copy, Debug, PartialEq, Eq, Structural)]
pub struct RangeReservation {
    pub id: RangeReservationId,
    pub range: PageRange,
    pub kind: RangeReservationKind,
}

impl RangeReservation {
    pub fn id(self) -> (id: RangeReservationId)
        ensures
            id == self.id,
    {
        self.id
    }

    pub fn range(self) -> (range: PageRange)
        ensures
            range == self.range,
    {
        self.range
    }

    pub fn kind(self) -> (kind: RangeReservationKind)
        ensures
            kind == self.kind,
    {
        self.kind
    }

    /// Whether this reservation stands in the way of `kind` on `range`.
    pub open spec fn blocks(self, range: PageRange, kind: RangeReservationKind) -> bool {
        range.meets(self.range) && kind.excludes(self.kind)
    }
}

#[derive(Clone, Copy, Debug, PartialEq, Eq, Structural)]
pub enum RangeReservationError {
    EmptyRange,
    Overflow,
    Conflict { existing: RangeReservationId, kind: RangeReservationKind },
}

/// Whether any of `live` stands in the way of `kind` on `range`.
pub open spec fn blocked(
    live: Seq<RangeReservation>,
    range: PageRange,
    kind: RangeReservationKind,
) -> bool {
    exists|i: int| 0 <= i < live.len() && (#[trigger] live[i]).blocks(range, kind)
}

/// Whether `i` is the first of `live` that stands in the way of `kind` on `range`.
pub open spec fn first_blocker(
    live: Seq<RangeReservation>,
    range: PageRange,
    kind: RangeReservationKind,
    i: int,
) -> bool {
    &&& 0 <= i < live.len()
    &&& live[i].blocks(range, kind)
    &&& forall|j: int| 0 <= j < i ==> !(#[trigger] live[j]).blocks(range, kind)
}

/// Whether `i` is the first of `live` with identity `id`.
pub open spec fn first_with_id(live: Seq<RangeReservation>, id: RangeReservationId, i: int) -> bool {
    &&& 0 <= i < live.len()
    &&& live[i].id == id
    &&& forall|j: int| 0 <= j < i ==> (#[trigger] live[j]).id != id
}

/// Whether any of `live` has identity `id`.
pub open spec fn has_id(live: Seq<RangeReservation>, id: RangeReservationId) -> bool {
    exists|i: int| 0 <= i < live.len() && (#[trigger] live[i]).id == id
}

/// `live` without its element `i`, whose place the last one takes.
pub open spec fn without_index(live: Seq<RangeReservation>, i: int) -> Seq<RangeReservation> {
    live.update(i, live.last()).drop_last()
}

/// `live` after the reservation with identity `id` has ended.
pub open spec fn released(live: Seq<RangeReservation>, id: RangeReservationId) -> Seq<
    RangeReservation,
> {
    if has_id(live, id) {
        without_index(live, choose|i: int| first_with_id(live, id, i))
    } else {
        live
    }
}

/// Outcome of reserving `range` for `kind` under the identity `next_id`.
pub open spec fn reservation_outcome(
    live: Seq<RangeReservation>,
    next_id: u64,
    range: PageRange,
    kind: RangeReservationKind,
) -> Result<RangeReservation, RangeReservationError> {
    if range.page_count == 0 {
        Err(RangeReservationError::EmptyRange)
    } else if !range.fits() {
        Err(RangeReservationError::Overflow)
    } else if blocked(live, range, kind) {
        let i = choose|i: int| first_blocker(live, range, kind, i);
        Err(RangeReservationError::Conflict { existing: live[i].id, kind: live[i].kind })
    } else {
        Ok(RangeReservation { id: RangeReservationId(next_id), range, kind })
    }
}

/// The live reservations of one page-backed object.
#[derive(Debug)]
pub struct RangeReservationTable {
    pub next_id: u64,
    pub reservations: Vec<RangeReservation>,
}

impl View for RangeReservationTable {
    type V = Seq<RangeReservation>;

    open spec fn view(&self) -> Seq<RangeReservation> {
        self.reservations@
    }
}

impl RangeReservationTable {
    /// Every live range is a proper one, and no two live reservations that
    /// exclude each other meet.
    pub open spec fn wf(&self) -> bool {
        &&& forall|i: int|
            0 <= i < self@.len() ==> (#[trigger] self@[i]).range.page_count > 0
                && self@[i].range.fits()
        &&& forall|i: int, j: int|
            0 <= i < j < self@.len() ==> !(#[trigger] self@[i]).blocks(
                (#[trigger] self@[j]).range,
                self@[j].kind,
            )
    }

    /// The identities have not wrapped yet: live ones differ, and all are older
    /// than the next one.
    pub open spec fn ids_unique(&self) -> bool {
        &&& forall|i: int| 0 <= i < self@.len() ==> (#[trigger] self@[i]).id.0 < self.next_id
        &&& forall|i: int, j: int|
            0 <= i < j < self@.len() ==> (#[trigger] self@[i]).id != (#[trigger] self@[j]).id
    }

    pub fn new() -> (table: Self)
        ensures
            table@ == Seq::<RangeReservation>::empty(),
            table.next_id == 1,
            table.wf(),
            table.ids_unique(),
    {
        RangeReservationTable { next_id: 1, reservations: Vec::new() }
    }

    pub fn len(&self) -> (len: usize)
        ensures
            len == self@.len(),
    {
        self.reservations.len()
    }

    pub fn is_empty(&self) -> (empty: bool)
        ensures
            empty == (self@.len() == 0),
    {
        self.reservations.len() == 0
    }

    /// The first live reservation that stands in the way of `kind` on `range`.
    fn find_blocker(&self, range: PageRange, kind: RangeReservationKind) -> (found: Option<usize>)
        ensures
            match found {
                Some(i) => first_blocker(self@, range, kind, i as int),
                None => !blocked(self@, range, kind),
            },
    {
        let mut i: usize = 0;
        while i < self.reservations.len()
            invariant
                i <= self@.len(),
                forall|j: int| 0 <= j < i ==> !(#[trigger] self@[j]).blocks(range, kind),
            decreases self@.len() - i,
        {
            let existing = self.reservations[i];
            if range.overlaps(existing.range) && kind.conflicts_with(existing.kind) {
                return Some(i);
            }
            i += 1;
        }
        None
    }

    /// Whether `kind` on `range` would be refused because of a live reservation.
    pub fn conflicts(&self, range: PageRange, kind: RangeReservationKind) -> (conflict: bool)
        ensures
            conflict == blocked(self@, range, kind),
    {
        match self.find_blocker(range, kind) {
            Some(i) => {
                assert(self@[i as int].blocks(range, kind));
                true
            },
            None => false,
        }
    }

    /// Reserve `range` for `kind`.
    pub fn try_reserve(&mut self, range: PageRange, kind: RangeReservationKind) -> (reserved: Result<
        RangeReservation,
        RangeReservationError,
    >)
        requires
            old(self).wf(),
        ensures
            final(self).wf(),
            reserved == reservation_outcome(old(self)@, old(self).next_id, range, kind),
            match reserved {
                Ok(reservation) => {
                    &&& final(self)@ == old(self)@.push(reservation)
                    &&& final(self).next_id == next_nonzero(old(self).next_id)
                    &&& old(self).ids_unique() && old(self).next_id < u64::MAX
                        ==> final(self).ids_unique()
                },
                Err(_) => *final(self) == *old(self),
            },
    {
        if range.is_empty() {
            return Err(RangeReservationError::EmptyRange);
        }
        if range.end().is_none() {
            return Err(RangeReservationError::Overflow);
        }
        match self.find_blocker(range, kind) {
            Some(i) => {
                let existing = self.reservations[i];
                proof {
                    assert(self@[i as int].blocks(range, kind));
                    let chosen = choose|i: int| first_blocker(self@, range, kind, i);
                    assert(first_blocker(self@, range, kind, i as int));
                    assert(chosen == i);
                }
                return Err(
                    RangeReservationError::Conflict { existing: existing.id, kind: existing.kind },
                );
            },
            None => {},
        }
        let ghost before = *self;
        let reservation = RangeReservation {
            id: RangeReservationId::new(self.next_id),
            range,
            kind,
        };
        self.next_id = bump_nonzero(self.next_id);
        self.reservations.push(reservation);
        proof {
            assert forall|i: int, j: int| 0 <= i < j < self@.len() implies !(
            #[trigger] self@[i]).blocks((#[trigger] self@[j]).range, self@[j].kind) by {
                if j == before@.len() {
                    assert(before@[i] == self@[i]);
                    assert(!before@[i].blocks(range, kind));
                } else {
                    assert(before@[i] == self@[i] && before@[j] == self@[j]);
                }
            }
            if before.ids_unique() && before.next_id < u64::MAX {
                assert forall|i: int| 0 <= i < self@.len() implies (#[trigger] self@[i]).id.0
                    < self.next_id by {
                    if i < before@.len() {
                        assert(before@[i] == self@[i]);
                    }
                }
                assert forall|i: int, j: int| 0 <= i < j < self@.len() implies (
                #[trigger] self@[i]).id != (#[trigger] self@[j]).id by {
                    assert(before@[i] == self@[i]);
                    if j < before@.len() {
                        assert(before@[j] == self@[j]);
                    }
                }
            }
        }
        Ok(reservation)
    }

    /// The first live reservation with identity `id`.
    fn find_id(&self, id: RangeReservationId) -> (found: Option<usize>)
        ensures
            match found {
                Some(i) => first_with_id(self@, id, i as int),
                None => !has_id(self@, id),
            },
    {
        let mut i: usize = 0;
        while i < self.reservations.len()
            invariant
                i <= self@.len(),
                forall|j: int| 0 <= j < i ==> (#[trigger] self@[j]).id != id,
            decreases self@.len() - i,
        {
            if self.reservations[i].id == id {
                return Some(i);
            }
            i += 1;
        }
        None
    }

    /// End the reservation with identity `id`, if it is live.
    pub fn release(&mut self, id: RangeReservationId) -> (released: bool)
        requires
            old(self).wf(),
        ensures
            final(self).wf(),
            final(self).next_id == old(self).next_id,
            released == has_id(old(self)@, id),
            final(self)@ == self::released(old(self)@, id),
            old(self).ids_unique() ==> final(self).ids_unique() && !has_id(final(self)@, id),
    {
        match self.find_id(id) {
            None => false,
            Some(i) => {
                let ghost before = *self;
                let _removed = self.reservations.swap_remove(i);
                proof {
                    lemma_without_index(before, *self, i as int);
                    assert(before@[i as int].id == id);
                    let chosen = choose|i: int| first_with_id(before@, id, i);
                    assert(first_with_id(before@, id, i as int));
                    assert(chosen == i);
                }
                true
            },
        }
    }

    pub fn contains(&self, id: RangeReservationId) -> (live: bool)
        ensures
            live == has_id(self@, id),
    {
        match self.find_id(id) {
            Some(i) => {
                assert(self@[i as int].id == id);
                true
            },
            None => false,
        }
    }
}

impl Default for RangeReservationTable {
    fn default() -> (table: Self)
        ensures
            table@ == Seq::<RangeReservation>::empty(),
            table.next_id == 0,
            table.wf(),
            table.ids_unique(),
    {
        RangeReservationTable { next_id: 0, reservations: Vec::new() }
    }
}

/// Where each element of a table stood before element `i` was taken out.
pub open spec fn source_index(len: nat, i: int, k: int) -> int {
    if k == i {
        len - 1
    } else {
        k
    }
}

proof fn lemma_blocks_symmetric(a: RangeReservation, b: RangeReservation)
    ensures
        a.blocks(b.range, b.kind) == b.blocks(a.range, a.kind),
{
}

proof fn lemma_without_index(before: RangeReservationTable, after: RangeReservationTable, i: int)
    requires
        before.wf(),
        0 <= i < before@.len(),
        after@ == without_index(before@, i),
        after.next_id == before.next_id,
    ensures
        after.wf(),
        before.ids_unique() ==> after.ids_unique() && !has_id(after@, before@[i].id),
{
    let n = before@.len();
    assert(after@.len() == n - 1);
    assert forall|k: int| 0 <= k < after@.len() implies #[trigger] after@[k] == before@[source_index(
        n,
        i,
        k,
    )] by {}
    assert forall|k: int, l: int| 0 <= k < l < after@.len() implies !(#[trigger] after@[k]).blocks(
        (#[trigger] after@[l]).range,
        after@[l].kind,
    ) by {
        let p = source_index(n, i, k);
        let q = source_index(n, i, l);
        if p < q {
            assert(!before@[p].blocks(before@[q].range, before@[q].kind));
        } else {
            lemma_blocks_symmetric(before@[p], before@[q]);
            assert(!before@[q].blocks(before@[p].range, before@[p].kind));
        }
    }
    if before.ids_unique() {
        assert forall|k: int| 0 <= k < after@.len() implies (#[trigger] after@[k]).id.0
            < after.next_id && after@[k].id != before@[i].id by {
            let p = source_index(n, i, k);
            assert(after@[k] == before@[p]);
            if p < i {
                assert(before@[p].id != before@[i].id);
            } else {
                assert(before@[i].id != before@[p].id);
            }
        }
        assert forall|k: int, l: int| 0 <= k < l < after@.len() implies (#[trigger] after@[k]).id
            != (#[trigger] after@[l]).id by {
            let p = source_index(n, i, k);
            let q = source_index(n, i, l);
            assert(after@[k] == before@[p] && after@[l] == before@[q]);
            if p < q {
                assert(before@[p].id != before@[q].id);
            } else {
                assert(before@[q].id != before@[p].id);
            }
        }
    }
}

/// Proper ranges meet exactly when they have a page in common.
pub proof fn law_meeting_ranges_share_a_page(a: PageRange, b: PageRange)
    requires
        a.page_count > 0,
        b.page_count > 0,
        a.fits(),
        b.fits(),
    ensures
        a.meets(b) <==> exists|page: PageIndex| a.holds(page) && b.holds(page),
{
    if a.meets(b) {
        let shared = if a.start.0 <= b.start.0 {
            b.start
        } else {
            a.start
        };
        assert(a.holds(shared) && b.holds(shared));
    }
}

/// Exclusion between kinds does not depend on which came first.
pub proof fn law_exclusion_is_symmetric(a: RangeReservationKind, b: RangeReservationKind)
    ensures
        a.excludes(b) == b.excludes(a),
{
}

/// Releasing the only reservation in the way lets the refused one through.
pub proof fn law_release_admits_the_refused_range(
    live: Seq<RangeReservation>,
    range: PageRange,
    kind: RangeReservationKind,
    i: int,
)
    requires
        0 <= i < live.len(),
        forall|j: int| 0 <= j < live.len() && j != i ==> !(#[trigger] live[j]).blocks(range, kind),
    ensures
        !blocked(without_index(live, i), range, kind),
{
    let rest = without_index(live, i);
    assert forall|k: int| 0 <= k < rest.len() implies !(#[trigger] rest[k]).blocks(
        range,
        kind,
    ) by {
        assert(rest[k] == live[source_index(live.len(), i, k)]);
    }
}

} // verus!
