//! What reservations of page ranges come to: who shares a page with whom, and
//! which request meets which refusal.

use crate::ids::PageIndex;
use crate::range::{
    blocked, first_blocker, first_with_id, has_id, released, reservation_outcome, without_index,
    PageRange, RangeReservation, RangeReservationError, RangeReservationId, RangeReservationKind,
};
use vstd::prelude::*;

verus! {

/// Whether page number `page` is one of the `page_count` pages from `start` on.
pub open spec fn covers(range: PageRange, page: int) -> bool {
    range.start.0 <= page < range.start.0 + range.page_count
}

/// Whether the two ranges have a page in common.
pub open spec fn share_a_page(a: PageRange, b: PageRange) -> bool {
    exists|page: int| #[trigger] covers(a, page) && covers(b, page)
}

/// Whether a range of this kind may be held by several at once.
pub open spec fn is_shared(kind: RangeReservationKind) -> bool {
    kind is BufferedRead || kind is DirectRead
}

/// Whether the last page of the range has a successor.
pub open spec fn ends(range: PageRange) -> bool {
    range.start.0 + range.page_count <= u64::MAX
}

/// Whether `held` leaves no room for `kind` on `range`.
pub open spec fn in_the_way(
    held: RangeReservation,
    range: PageRange,
    kind: RangeReservationKind,
) -> bool {
    share_a_page(held.range, range) && !(held.kind == kind && is_shared(kind))
}

/// Whether the range holds a page and has an end.
pub open spec fn is_proper(range: PageRange) -> bool {
    range.page_count > 0 && ends(range)
}

proof fn lemma_in_the_way(held: RangeReservation, range: PageRange, kind: RangeReservationKind)
    requires
        is_proper(held.range),
        is_proper(range),
    ensures
        held.blocks(range, kind) == in_the_way(held, range, kind),
{
    let a = held.range;
    if range.meets(a) {
        let page = if a.start.0 <= range.start.0 {
            range.start.0 as int
        } else {
            a.start.0 as int
        };
        assert(covers(a, page) && covers(range, page));
    }
    if share_a_page(a, range) {
        let page = choose|page: int| #[trigger] covers(a, page) && covers(range, page);
        assert(covers(range, page));
    }
}

proof fn lemma_first_blocker(
    live: Seq<RangeReservation>,
    range: PageRange,
    kind: RangeReservationKind,
    i: int,
)
    requires
        0 <= i < live.len(),
        live[i].blocks(range, kind),
    ensures
        exists|j: int| first_blocker(live, range, kind, j),
    decreases i,
{
    if forall|j: int| 0 <= j < i ==> !(#[trigger] live[j]).blocks(range, kind) {
        assert(first_blocker(live, range, kind, i));
    } else {
        let j = choose|j: int| 0 <= j < i && (#[trigger] live[j]).blocks(range, kind);
        lemma_first_blocker(live, range, kind, j);
    }
}

/// A range is granted exactly where it has a page and an end and nobody is in the
/// way. Who gets it gets that range, for that purpose, under the next number.
pub proof fn law_a_free_range_is_granted(
    live: Seq<RangeReservation>,
    next_id: u64,
    range: PageRange,
    kind: RangeReservationKind,
)
    requires
        forall|i: int| 0 <= i < live.len() ==> is_proper((#[trigger] live[i]).range),
    ensures
        reservation_outcome(live, next_id, range, kind) is Ok == (is_proper(range) && forall|i: int|
            0 <= i < live.len() ==> !in_the_way(#[trigger] live[i], range, kind)),
        reservation_outcome(live, next_id, range, kind) matches Ok(granted) ==> {
            &&& granted.id.0 == next_id
            &&& granted.range == range
            &&& granted.kind == kind
        },
{
    if is_proper(range) {
        assert forall|i: int| 0 <= i < live.len() implies live[i].blocks(range, kind)
            == in_the_way(#[trigger] live[i], range, kind) by {
            lemma_in_the_way(live[i], range, kind);
        }
        if blocked(live, range, kind) {
            let i = choose|i: int|
                0 <= i < live.len() && (#[trigger] live[i]).blocks(range, kind);
            assert(in_the_way(live[i], range, kind));
        }
    }
}

/// A refused range is empty, has no end, or meets one that is held; the refusal
/// names the one that has been held first.
pub proof fn law_a_refusal_names_the_reason(
    live: Seq<RangeReservation>,
    next_id: u64,
    range: PageRange,
    kind: RangeReservationKind,
)
    requires
        forall|i: int| 0 <= i < live.len() ==> is_proper((#[trigger] live[i]).range),
    ensures
        reservation_outcome(live, next_id, range, kind) matches Err(error) ==> {
            &&& error is EmptyRange == (range.page_count == 0)
            &&& error is Overflow == (range.page_count > 0 && !ends(range))
            &&& error matches RangeReservationError::Conflict { existing, kind: held }
                ==> exists|i: int|
                {
                    &&& 0 <= i < live.len()
                    &&& in_the_way(#[trigger] live[i], range, kind)
                    &&& existing == live[i].id
                    &&& held == live[i].kind
                    &&& forall|j: int| 0 <= j < i ==> !in_the_way(#[trigger] live[j], range, kind)
                }
        },
{
    if is_proper(range) && blocked(live, range, kind) {
        let some = choose|i: int| 0 <= i < live.len() && (#[trigger] live[i]).blocks(range, kind);
        lemma_first_blocker(live, range, kind, some);
        let first = choose|i: int| first_blocker(live, range, kind, i);
        lemma_in_the_way(live[first], range, kind);
        assert forall|j: int| 0 <= j < first implies !in_the_way(
            #[trigger] live[j],
            range,
            kind,
        ) by {
            lemma_in_the_way(live[j], range, kind);
        }
        assert(in_the_way(live[first], range, kind));
    }
}

/// Where two are held at once on a page, both read, in the same way.
pub proof fn law_only_readers_share_a_page(a: RangeReservationKind, b: RangeReservationKind)
    ensures
        !a.excludes(b) == ((a is BufferedRead && b is BufferedRead) || (a is DirectRead && b
            is DirectRead)),
{
}

/// Ranges meet exactly in the pages that both hold.
pub proof fn law_ranges_meet_in_a_page(a: PageRange, b: PageRange)
    requires
        is_proper(a),
        is_proper(b),
    ensures
        a.meets(b) == share_a_page(a, b),
        forall|page: PageIndex| #[trigger] a.holds(page) == covers(a, page.0 as int),
{
    lemma_in_the_way(
        RangeReservation { id: RangeReservationId(0), range: b, kind: RangeReservationKind::Fsync },
        a,
        RangeReservationKind::Fsync,
    );
    assert forall|page: int| #[trigger] covers(a, page) && covers(b, page) implies share_a_page(
        b,
        a,
    ) by {
        assert(covers(b, page));
    }
    assert forall|page: int| #[trigger] covers(b, page) && covers(a, page) implies share_a_page(
        a,
        b,
    ) by {
        assert(covers(a, page));
    }
}

/// A release ends the one that is named and no other.
pub proof fn law_a_release_ends_one(live: Seq<RangeReservation>, i: int)
    requires
        0 <= i < live.len(),
        forall|a: int, b: int|
            0 <= a < b < live.len() ==> (#[trigger] live[a]).id != (#[trigger] live[b]).id,
    ensures
        ({
            let rest = released(live, live[i].id);
            &&& rest.len() == live.len() - 1
            &&& forall|r: RangeReservation| #[trigger]
                rest.contains(r) == (live.contains(r) && r != live[i])
        }),
{
    let id = live[i].id;
    assert(has_id(live, id));
    assert(first_with_id(live, id, i)) by {
        assert forall|j: int| 0 <= j < i implies (#[trigger] live[j]).id != id by {
            assert(live[j].id != live[i].id);
        }
    }
    let at = choose|k: int| first_with_id(live, id, k);
    assert(at == i) by {
        if at < i {
            assert(live[at].id != live[i].id);
        } else if i < at {
            assert(live[i].id != live[at].id);
        }
    }
    let rest = released(live, id);
    assert(rest == without_index(live, i));
    assert forall|r: RangeReservation| #[trigger] rest.contains(r) == (live.contains(r) && r
        != live[i]) by {
        if rest.contains(r) {
            let k = choose|k: int| 0 <= k < rest.len() && rest[k] == r;
            let p: int = if k == i {
                live.len() - 1
            } else {
                k
            };
            assert(rest[k] == live[p]);
            if p < i {
                assert(live[p].id != live[i].id);
            } else {
                assert(live[i].id != live[p].id);
            }
        }
        if live.contains(r) && r != live[i] {
            let p = choose|p: int| 0 <= p < live.len() && live[p] == r;
            if p == live.len() - 1 {
                assert(rest[i] == r);
            } else {
                assert(rest[p] == r);
            }
        }
    }
}

/// A release of a number that nobody holds ends nothing.
pub proof fn law_a_release_of_nothing_changes_nothing(
    live: Seq<RangeReservation>,
    id: RangeReservationId,
)
    requires
        forall|i: int| 0 <= i < live.len() ==> (#[trigger] live[i]).id != id,
    ensures
        released(live, id) == live,
{
}

} // verus!
