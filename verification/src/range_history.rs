//! A reservation table over its whole history.

use crate::ids::next_nonzero;
use crate::range::{
    first_with_id, has_id, released, reservation_outcome, source_index, without_index, PageRange,
    RangeReservation, RangeReservationId, RangeReservationKind,
};
use vstd::prelude::*;

verus! {

/// One call that may change a reservation table.
pub enum RangeCall {
    Reserve { range: PageRange, kind: RangeReservationKind },
    Release { id: RangeReservationId },
}

/// What a table holds.
pub struct RangeTableState {
    pub live: Seq<RangeReservation>,
    pub next_id: u64,
}

impl RangeTableState {
    /// What a table holds after `call`.
    pub open spec fn after(self, call: RangeCall) -> Self {
        match call {
            RangeCall::Reserve { range, kind } => match reservation_outcome(
                self.live,
                self.next_id,
                range,
                kind,
            ) {
                Ok(reservation) => RangeTableState {
                    live: self.live.push(reservation),
                    next_id: next_nonzero(self.next_id),
                },
                Err(_) => self,
            },
            RangeCall::Release { id } => RangeTableState {
                live: released(self.live, id),
                next_id: self.next_id,
            },
        }
    }

    /// The identity that `call` reserves, if it succeeds.
    pub open spec fn reserves(self, call: RangeCall) -> Option<RangeReservationId> {
        match call {
            RangeCall::Reserve { range, kind } => match reservation_outcome(
                self.live,
                self.next_id,
                range,
                kind,
            ) {
                Ok(reservation) => Some(reservation.id),
                Err(_) => None,
            },
            RangeCall::Release { .. } => None,
        }
    }

    /// The identity that `call` releases, if it is live.
    pub open spec fn releases(self, call: RangeCall) -> Option<RangeReservationId> {
        match call {
            RangeCall::Reserve { .. } => None,
            RangeCall::Release { id } => if has_id(self.live, id) {
                Some(id)
            } else {
                None
            },
        }
    }

    /// The live identities differ and are older than the next one.
    pub open spec fn ids_unique(self) -> bool {
        &&& forall|i: int| 0 <= i < self.live.len() ==> (#[trigger] self.live[i]).id.0 < self.next_id
        &&& forall|i: int, j: int|
            0 <= i < j < self.live.len() ==> (#[trigger] self.live[i]).id != (
            #[trigger] self.live[j]).id
    }
}

/// What a new table holds after the first `n` of `calls`.
pub open spec fn table_after(calls: Seq<RangeCall>, n: nat) -> RangeTableState
    decreases n,
{
    if n == 0 {
        RangeTableState { live: Seq::empty(), next_id: 1 }
    } else {
        table_after(calls, (n - 1) as nat).after(calls[n - 1])
    }
}

/// The identity that the `i`-th of `calls` reserved.
pub open spec fn reserved_by(calls: Seq<RangeCall>, i: int) -> Option<RangeReservationId> {
    table_after(calls, i as nat).reserves(calls[i])
}

/// The identity that the `i`-th of `calls` released.
pub open spec fn released_by(calls: Seq<RangeCall>, i: int) -> Option<RangeReservationId> {
    table_after(calls, i as nat).releases(calls[i])
}

/// How many of the first `n` calls reserved a range.
pub open spec fn reservations_made(calls: Seq<RangeCall>, n: nat) -> nat
    decreases n,
{
    if n == 0 {
        0
    } else {
        reservations_made(calls, (n - 1) as nat) + if reserved_by(calls, n - 1) is Some {
            1nat
        } else {
            0nat
        }
    }
}

/// How many of the first `n` calls released a reservation.
pub open spec fn releases_made(calls: Seq<RangeCall>, n: nat) -> nat
    decreases n,
{
    if n == 0 {
        0
    } else {
        releases_made(calls, (n - 1) as nat) + if released_by(calls, n - 1) is Some {
            1nat
        } else {
            0nat
        }
    }
}

/// Whether one of the first `n` calls reserved `id` and none after it released
/// it.
pub open spec fn still_reserved(calls: Seq<RangeCall>, n: nat, id: RangeReservationId) -> bool {
    exists|i: int| #[trigger] reserved_last(calls, n, id, i)
}

/// Whether the `i`-th of the first `n` calls reserved `id` and none after it
/// released it.
pub open spec fn reserved_last(
    calls: Seq<RangeCall>,
    n: nat,
    id: RangeReservationId,
    i: int,
) -> bool {
    &&& 0 <= i < n
    &&& reserved_by(calls, i) == Some(id)
    &&& forall|j: int| i < j < n ==> #[trigger] released_by(calls, j) != Some(id)
}

proof fn lemma_first_with_id(live: Seq<RangeReservation>, id: RangeReservationId, n: int) -> (i: int)
    requires
        0 <= n < live.len(),
        live[n].id == id,
    ensures
        first_with_id(live, id, i),
    decreases n,
{
    if exists|j: int| 0 <= j < n && (#[trigger] live[j]).id == id {
        let j = choose|j: int| 0 <= j < n && (#[trigger] live[j]).id == id;
        lemma_first_with_id(live, id, j)
    } else {
        n
    }
}

/// A live reservation ends when it is released, and no other one does.
proof fn lemma_released(state: RangeTableState, id: RangeReservationId, other: RangeReservationId)
    requires
        has_id(state.live, id),
    ensures
        released(state.live, id).len() == state.live.len() - 1,
        state.ids_unique() ==> {
            let after = state.after(RangeCall::Release { id });
            &&& after.ids_unique()
            &&& has_id(after.live, other) == (has_id(state.live, other) && other != id)
        },
{
    let live = state.live;
    let n = choose|n: int| 0 <= n < live.len() && (#[trigger] live[n]).id == id;
    let found = lemma_first_with_id(live, id, n);
    let at = choose|i: int| first_with_id(live, id, i);
    let rest = without_index(live, at);
    assert(released(live, id) == rest);
    assert forall|k: int| 0 <= k < rest.len() implies #[trigger] rest[k] == live[source_index(
        live.len(),
        at,
        k,
    )] by {}
    if state.ids_unique() {
        let after = state.after(RangeCall::Release { id });
        assert forall|k: int, l: int| 0 <= k < l < rest.len() implies (#[trigger] rest[k]).id != (
        #[trigger] rest[l]).id by {
            let p = source_index(live.len(), at, k);
            let q = source_index(live.len(), at, l);
            assert(rest[k] == live[p] && rest[l] == live[q]);
            if p < q {
                assert(live[p].id != live[q].id);
            } else {
                assert(live[q].id != live[p].id);
            }
        }
        assert forall|k: int| 0 <= k < rest.len() implies (#[trigger] rest[k]).id != id by {
            let p = source_index(live.len(), at, k);
            assert(rest[k] == live[p]);
            if p < at {
                assert(live[p].id != live[at].id);
            } else {
                assert(live[at].id != live[p].id);
            }
        }
        if has_id(live, other) && other != id {
            let k = choose|k: int| 0 <= k < live.len() && (#[trigger] live[k]).id == other;
            if k == live.len() - 1 {
                assert(rest[at].id == other);
            } else {
                assert(rest[k].id == other);
            }
        }
        if has_id(rest, other) {
            let k = choose|k: int| 0 <= k < rest.len() && (#[trigger] rest[k]).id == other;
            assert(live[source_index(live.len(), at, k)].id == other);
        }
    }
}

proof fn lemma_history(calls: Seq<RangeCall>, n: nat, id: RangeReservationId)
    requires
        n <= calls.len(),
        reservations_made(calls, n) < u64::MAX,
    ensures
        table_after(calls, n).ids_unique(),
        table_after(calls, n).next_id == reservations_made(calls, n) + 1,
        has_id(table_after(calls, n).live, id) <==> still_reserved(calls, n, id),
    decreases n,
{
    if n > 0 {
        let m = (n - 1) as nat;
        lemma_history(calls, m, id);
        let before = table_after(calls, m);
        let after = table_after(calls, n);
        let call = calls[m as int];
        if let Some(new) = before.reserves(call) {
            assert(reserved_by(calls, m as int) == Some(new));
            assert(after.live[before.live.len() as int].id == new);
            assert forall|i: int, j: int| 0 <= i < j < after.live.len() implies (
            #[trigger] after.live[i]).id != (#[trigger] after.live[j]).id by {
                assert(after.live[i] == before.live[i]);
                if j < before.live.len() {
                    assert(after.live[j] == before.live[j]);
                }
            }
            assert forall|i: int| 0 <= i < after.live.len() implies (#[trigger] after.live[i]).id.0
                < after.next_id by {
                if i < before.live.len() {
                    assert(after.live[i] == before.live[i]);
                }
            }
            if id == new {
                assert(reserved_last(calls, n, id, m as int));
            }
            if has_id(before.live, id) {
                let k = choose|k: int|
                    0 <= k < before.live.len() && (#[trigger] before.live[k]).id == id;
                assert(after.live[k].id == id);
            }
            if has_id(after.live, id) && id != new {
                let k = choose|k: int|
                    0 <= k < after.live.len() && (#[trigger] after.live[k]).id == id;
                assert(before.live[k].id == id);
            }
        }
        if let RangeCall::Release { id: gone } = call {
            if has_id(before.live, gone) {
                lemma_released(before, gone, id);
                assert(released_by(calls, m as int) == Some(gone));
            }
        }
        if still_reserved(calls, m, id) && released_by(calls, m as int) != Some(id) {
            let i = choose|i: int| #[trigger] reserved_last(calls, m, id, i);
            assert forall|j: int| i < j < n implies #[trigger] released_by(calls, j) != Some(
                id,
            ) by {}
            assert(reserved_last(calls, n, id, i));
        }
        if still_reserved(calls, n, id) {
            let i = choose|i: int| #[trigger] reserved_last(calls, n, id, i);
            if i < m {
                assert(released_by(calls, m as int) != Some(id));
                assert(reserved_last(calls, m, id, i));
            }
        }
    } else {
        assert(!still_reserved(calls, 0, id));
    }
}

/// A table contains an identity exactly if an earlier call reserved it and no
/// later one released it, as long as the identities last.
pub proof fn law_contains_what_was_reserved_and_not_released(
    calls: Seq<RangeCall>,
    id: RangeReservationId,
)
    requires
        reservations_made(calls, calls.len()) < u64::MAX,
    ensures
        has_id(table_after(calls, calls.len()).live, id) <==> still_reserved(
            calls,
            calls.len(),
            id,
        ),
{
    lemma_history(calls, calls.len(), id);
}

proof fn lemma_len(calls: Seq<RangeCall>, n: nat)
    requires
        n <= calls.len(),
    ensures
        table_after(calls, n).live.len() == reservations_made(calls, n) - releases_made(calls, n),
    decreases n,
{
    if n > 0 {
        let m = (n - 1) as nat;
        lemma_len(calls, m);
        if let RangeCall::Release { id } = calls[m as int] {
            if has_id(table_after(calls, m).live, id) {
                lemma_released(table_after(calls, m), id, id);
            }
        }
    }
}

/// A table is as long as the reservations that were made and not released.
pub proof fn law_len_counts_reservations_less_releases(calls: Seq<RangeCall>)
    ensures
        table_after(calls, calls.len()).live.len() == reservations_made(calls, calls.len())
            - releases_made(calls, calls.len()),
{
    lemma_len(calls, calls.len());
}

} // verus!
