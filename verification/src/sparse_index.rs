//! A sparse map from 64-bit keys, in ascending key order.

use vstd::prelude::*;

verus! {

/// Entries sorted by key, without duplicates.
#[derive(Debug)]
pub struct SparseMap<V> {
    pub keys: Vec<u64>,
    pub values: Vec<V>,
}

/// Whether `s` is strictly increasing.
pub open spec fn increasing(s: Seq<u64>) -> bool {
    forall|i: int, j: int| 0 <= i < j < s.len() ==> (#[trigger] s[i]) < (#[trigger] s[j])
}

impl<V> View for SparseMap<V> {
    type V = Map<u64, V>;

    open spec fn view(&self) -> Map<u64, V> {
        Map::new(
            |k: u64| self.keys@.contains(k),
            |k: u64| self.values@[self.keys@.index_of(k)],
        )
    }
}

impl<V> SparseMap<V> {
    pub open spec fn wf(&self) -> bool {
        &&& self.keys@.len() == self.values@.len()
        &&& increasing(self.keys@)
    }

    /// The keys, in ascending order.
    pub open spec fn order(&self) -> Seq<u64> {
        self.keys@
    }

    pub fn new() -> (map: Self)
        ensures
            map.wf(),
            map@ == Map::<u64, V>::empty(),
            map.order() == Seq::<u64>::empty(),
    {
        let map = SparseMap { keys: Vec::new(), values: Vec::new() };
        assert(map@ =~= Map::<u64, V>::empty());
        map
    }

    /// Where `key` stands, or where it would have to stand.
    fn find(&self, key: u64) -> (found: Result<usize, usize>)
        requires
            self.wf(),
        ensures
            match found {
                Ok(i) => i < self.keys@.len() && self.keys@[i as int] == key,
                Err(i) => {
                    &&& i <= self.keys@.len()
                    &&& !self@.contains_key(key)
                    &&& forall|j: int| 0 <= j < i ==> (#[trigger] self.keys@[j]) < key
                    &&& forall|j: int| i <= j < self.keys@.len() ==> (#[trigger] self.keys@[j])
                        > key
                },
            },
    {
        let mut low: usize = 0;
        let mut high: usize = self.keys.len();
        while low < high
            invariant
                self.wf(),
                low <= high <= self.keys@.len(),
                forall|j: int| 0 <= j < low ==> (#[trigger] self.keys@[j]) < key,
                forall|j: int| high <= j < self.keys@.len() ==> (#[trigger] self.keys@[j]) > key,
            decreases high - low,
        {
            let middle: usize = low + (high - low) / 2;
            let probe: u64 = self.keys[middle];
            if probe == key {
                return Ok(middle);
            }
            if probe < key {
                low = middle + 1;
            } else {
                high = middle;
            }
        }
        Err(low)
    }

    pub fn len(&self) -> (len: usize)
        requires
            self.wf(),
        ensures
            len == self@.len(),
            len == self.order().len(),
    {
        proof {
            self.lemma_len();
        }
        self.keys.len()
    }

    pub fn is_empty(&self) -> (empty: bool)
        requires
            self.wf(),
        ensures
            empty == (self@ == Map::<u64, V>::empty()),
    {
        proof {
            if self.keys@.len() == 0 {
                assert(self@ =~= Map::<u64, V>::empty());
            } else {
                self.lemma_at(0);
            }
        }
        self.keys.len() == 0
    }

    /// The `index`-th smallest key.
    pub fn key_at(&self, index: usize) -> (key: u64)
        requires
            self.wf(),
            index < self.order().len(),
        ensures
            key == self.order()[index as int],
            self@.contains_key(key),
    {
        proof {
            self.lemma_at(index as int);
        }
        self.keys[index]
    }

    /// The value under the `index`-th smallest key.
    pub fn value_at(&self, index: usize) -> (value: &V)
        requires
            self.wf(),
            index < self.order().len(),
        ensures
            self@.contains_key(self.order()[index as int]),
            *value == self@[self.order()[index as int]],
    {
        proof {
            self.lemma_at(index as int);
        }
        &self.values[index]
    }

    pub fn contains_key(&self, key: u64) -> (present: bool)
        requires
            self.wf(),
        ensures
            present == self@.contains_key(key),
    {
        match self.find(key) {
            Ok(i) => {
                proof {
                    self.lemma_at(i as int);
                }
                true
            },
            Err(_) => false,
        }
    }

    pub fn get(&self, key: u64) -> (value: Option<&V>)
        requires
            self.wf(),
        ensures
            match value {
                Some(v) => self@.contains_key(key) && *v == self@[key],
                None => !self@.contains_key(key),
            },
    {
        match self.find(key) {
            Ok(i) => {
                proof {
                    self.lemma_at(i as int);
                }
                Some(&self.values[i])
            },
            Err(_) => None,
        }
    }

    /// A value to be changed in place.
    pub fn get_mut(&mut self, key: u64) -> (value: &mut V)
        requires
            old(self).wf(),
            old(self)@.contains_key(key),
        ensures
            *value == old(self)@[key],
            final(self).wf(),
            final(self).order() == old(self).order(),
            final(self)@ == old(self)@.insert(key, *final(value)),
    {
        let i: usize = match self.find(key) {
            Ok(i) => i,
            Err(i) => i,
        };
        proof {
            self.lemma_at(i as int);
            assert forall|v: V| #![trigger self.values@.update(i as int, v)] true implies {
                let changed = self.values@.update(i as int, v);
                Map::new(
                    |k: u64| self.keys@.contains(k),
                    |k: u64| changed[self.keys@.index_of(k)],
                ) == self@.insert(key, v)
            } by {
                let changed = self.values@.update(i as int, v);
                let after = Map::new(
                    |k: u64| self.keys@.contains(k),
                    |k: u64| changed[self.keys@.index_of(k)],
                );
                assert forall|k: u64| self.keys@.contains(k) implies after[k] == self@.insert(
                    key,
                    v,
                )[k] by {
                    let at = self.keys@.index_of(k);
                    assert(self.keys@[at] == k);
                }
                assert(after =~= self@.insert(key, v));
            }
        }
        &mut self.values[i]
    }

    /// Bind `key` to `value`, and return what it was bound to.
    pub fn insert(&mut self, key: u64, value: V) -> (previous: Option<V>)
        requires
            old(self).wf(),
        ensures
            final(self).wf(),
            final(self)@ == old(self)@.insert(key, value),
            match previous {
                Some(v) => {
                    &&& old(self)@.contains_key(key)
                    &&& v == old(self)@[key]
                    &&& final(self).order() == old(self).order()
                },
                None => !old(self)@.contains_key(key),
            },
    {
        let ghost before = *self;
        match self.find(key) {
            Ok(i) => {
                proof {
                    self.lemma_at(i as int);
                }
                let mut value = value;
                let ghost new_value = value;
                let slot = &mut self.values[i];
                std::mem::swap(slot, &mut value);
                proof {
                    assert(self.values@ == before.values@.update(i as int, new_value));
                    assert forall|k: u64| self.keys@.contains(k) implies self@[k]
                        == before@.insert(key, new_value)[k] by {
                        let at = self.keys@.index_of(k);
                        assert(self.keys@[at] == k);
                    }
                    assert(self@ =~= before@.insert(key, new_value));
                }
                Some(value)
            },
            Err(i) => {
                let ghost new_value = value;
                self.keys.insert(i, key);
                self.values.insert(i, value);
                proof {
                    assert(self.keys@ == before.keys@.insert(i as int, key));
                    assert(self.values@ == before.values@.insert(i as int, new_value));
                    assert(increasing(self.keys@)) by {
                        assert forall|a: int, b: int| 0 <= a < b < self.keys@.len() implies (
                        #[trigger] self.keys@[a]) < (#[trigger] self.keys@[b]) by {
                            let pa = if a < i {
                                a
                            } else {
                                a - 1
                            };
                            let pb = if b < i {
                                b
                            } else {
                                b - 1
                            };
                            if a != i {
                                assert(self.keys@[a] == before.keys@[pa]);
                            }
                            if b != i {
                                assert(self.keys@[b] == before.keys@[pb]);
                            }
                        }
                    }
                    assert forall|k: u64| #[trigger]
                        self@.contains_key(k) == before@.insert(key, new_value).contains_key(k)
                        && (self@.contains_key(k) ==> self@[k] == before@.insert(
                        key,
                        new_value,
                    )[k]) by {
                        lemma_inserted(before, *self, i as int, key, new_value, k);
                    }
                    assert(self@ =~= before@.insert(key, new_value));
                }
                None
            },
        }
    }

    /// Unbind `key`, and return what it was bound to.
    pub fn remove(&mut self, key: u64) -> (previous: Option<V>)
        requires
            old(self).wf(),
        ensures
            final(self).wf(),
            final(self)@ == old(self)@.remove(key),
            match previous {
                Some(v) => old(self)@.contains_key(key) && v == old(self)@[key],
                None => !old(self)@.contains_key(key) && *final(self) == *old(self),
            },
    {
        let ghost before = *self;
        match self.find(key) {
            Ok(i) => {
                proof {
                    self.lemma_at(i as int);
                }
                let _key: u64 = self.keys.remove(i);
                let value = self.values.remove(i);
                proof {
                    assert(increasing(self.keys@)) by {
                        assert forall|a: int, b: int| 0 <= a < b < self.keys@.len() implies (
                        #[trigger] self.keys@[a]) < (#[trigger] self.keys@[b]) by {
                            let pa = if a < i {
                                a
                            } else {
                                a + 1
                            };
                            let pb = if b < i {
                                b
                            } else {
                                b + 1
                            };
                            assert(self.keys@[a] == before.keys@[pa]);
                            assert(self.keys@[b] == before.keys@[pb]);
                        }
                    }
                    assert forall|k: u64| #[trigger]
                        self@.contains_key(k) == before@.remove(key).contains_key(k) && (
                    self@.contains_key(k) ==> self@[k] == before@.remove(key)[k]) by {
                        lemma_removed(before, *self, i as int, k);
                    }
                    assert(self@ =~= before@.remove(key));
                }
                Some(value)
            },
            Err(_) => {
                assert(self@.remove(key) =~= self@);
                None
            },
        }
    }

    /// Take out every entry from key `first` on.
    pub fn split_off(&mut self, first: u64) -> (taken: Self)
        requires
            old(self).wf(),
        ensures
            final(self).wf(),
            taken.wf(),
            forall|k: u64| #[trigger]
                final(self)@.contains_key(k) <==> old(self)@.contains_key(k) && k < first,
            forall|k: u64| #[trigger]
                taken@.contains_key(k) <==> old(self)@.contains_key(k) && k >= first,
            forall|k: u64| #[trigger]
                final(self)@.contains_key(k) ==> final(self)@[k] == old(self)@[k],
            forall|k: u64| #[trigger] taken@.contains_key(k) ==> taken@[k] == old(self)@[k],
    {
        let ghost before = *self;
        let at: usize = match self.find(first) {
            Ok(i) => i,
            Err(i) => i,
        };
        let keys = self.keys.split_off(at);
        let values = self.values.split_off(at);
        let taken = SparseMap { keys, values };
        proof {
            assert forall|k: u64|
                (#[trigger] self@.contains_key(k) <==> before@.contains_key(k) && k < first) && (
                self@.contains_key(k) ==> self@[k] == before@[k]) by {
                if self@.contains_key(k) {
                    let i = self.keys@.index_of(k);
                    assert(before.keys@[i] == k);
                    before.lemma_at(i);
                    self.lemma_at(i);
                }
                if before@.contains_key(k) && k < first {
                    let i = before.keys@.index_of(k);
                    assert(before.keys@[i] == k);
                    assert(i < at);
                    assert(self.keys@[i] == k);
                }
            }
            assert forall|k: u64|
                (#[trigger] taken@.contains_key(k) <==> before@.contains_key(k) && k >= first) && (
                taken@.contains_key(k) ==> taken@[k] == before@[k]) by {
                if taken@.contains_key(k) {
                    let i = taken.keys@.index_of(k);
                    assert(before.keys@[i + at] == k);
                    before.lemma_at(i + at);
                    taken.lemma_at(i);
                }
                if before@.contains_key(k) && k >= first {
                    let i = before.keys@.index_of(k);
                    assert(before.keys@[i] == k);
                    assert(i >= at);
                    assert(taken.keys@[i - at] == k);
                }
            }
        }
        taken
    }

    /// The entry at position `i` of the order is the one under its key.
    pub proof fn lemma_at(&self, i: int)
        requires
            self.wf(),
            0 <= i < self.keys@.len(),
        ensures
            self.keys@.contains(self.keys@[i]),
            self.keys@.index_of(self.keys@[i]) == i,
            self@.contains_key(self.order()[i]),
            self@[self.order()[i]] == self.values@[i],
    {
        let at = self.keys@.index_of(self.keys@[i]);
        assert(self.keys@[at] == self.keys@[i]);
        if at < i {
            assert(self.keys@[at] < self.keys@[i]);
        } else if i < at {
            assert(self.keys@[i] < self.keys@[at]);
        }
    }

    /// The order lists the domain, each key once.
    pub proof fn lemma_order(&self)
        requires
            self.wf(),
        ensures
            forall|k: u64| #[trigger] self@.contains_key(k) <==> self.order().contains(k),
            increasing(self.order()),
    {
    }

    pub proof fn lemma_len(&self)
        requires
            self.wf(),
        ensures
            self@.dom().finite(),
            self@.len() == self.keys@.len(),
    {
        assert(self.keys@.no_duplicates()) by {
            assert forall|i: int, j: int|
                0 <= i < self.keys@.len() && 0 <= j < self.keys@.len() && i
                    != j implies self.keys@[i] != self.keys@[j] by {
                if i < j {
                    assert(self.keys@[i] < self.keys@[j]);
                } else {
                    assert(self.keys@[j] < self.keys@[i]);
                }
            }
        }
        self.keys@.unique_seq_to_set();
        assert(self@.dom() =~= self.keys@.to_set());
    }
}

proof fn lemma_inserted<V>(
    before: SparseMap<V>,
    after: SparseMap<V>,
    i: int,
    key: u64,
    value: V,
    k: u64,
)
    requires
        before.wf(),
        after.wf(),
        0 <= i <= before.keys@.len(),
        !before@.contains_key(key),
        after.keys@ == before.keys@.insert(i, key),
        after.values@ == before.values@.insert(i, value),
    ensures
        after@.contains_key(k) == before@.insert(key, value).contains_key(k),
        after@.contains_key(k) ==> after@[k] == before@.insert(key, value)[k],
{
    assert(after.keys@[i] == key);
    after.lemma_at(i);
    if before@.contains_key(k) {
        let at = before.keys@.index_of(k);
        assert(before.keys@[at] == k);
        before.lemma_at(at);
        let moved = if at < i {
            at
        } else {
            at + 1
        };
        assert(after.keys@[moved] == k);
        after.lemma_at(moved);
    }
    if after@.contains_key(k) && k != key {
        let at = after.keys@.index_of(k);
        assert(after.keys@[at] == k);
        let moved = if at < i {
            at
        } else {
            at - 1
        };
        assert(before.keys@[moved] == k);
        before.lemma_at(moved);
    }
}

proof fn lemma_removed<V>(before: SparseMap<V>, after: SparseMap<V>, i: int, k: u64)
    requires
        before.wf(),
        after.wf(),
        0 <= i < before.keys@.len(),
        after.keys@ == before.keys@.remove(i),
        after.values@ == before.values@.remove(i),
    ensures
        after@.contains_key(k) == before@.remove(before.keys@[i]).contains_key(k),
        after@.contains_key(k) ==> after@[k] == before@.remove(before.keys@[i])[k],
{
    before.lemma_at(i);
    if before@.contains_key(k) && k != before.keys@[i] {
        let at = before.keys@.index_of(k);
        assert(before.keys@[at] == k);
        let moved = if at < i {
            at
        } else {
            at - 1
        };
        assert(after.keys@[moved] == k);
        after.lemma_at(moved);
    }
    if after@.contains_key(k) {
        let at = after.keys@.index_of(k);
        assert(after.keys@[at] == k);
        let moved = if at < i {
            at
        } else {
            at + 1
        };
        assert(before.keys@[moved] == k);
        before.lemma_at(moved);
        after.lemma_at(at);
        if k == before.keys@[i] {
            if moved < i {
                assert(before.keys@[moved] < before.keys@[i]);
            } else {
                assert(before.keys@[i] < before.keys@[moved]);
            }
        }
    }
}

/// The members of `set` in ascending order.
pub open spec fn ascending(set: Set<u64>) -> Seq<u64> {
    choose|order: Seq<u64>| lists(order, set)
}

/// Whether `order` lists the members of `set` in ascending order.
pub open spec fn lists(order: Seq<u64>, set: Set<u64>) -> bool {
    increasing(order) && forall|k: u64| #[trigger] order.contains(k) <==> set.contains(k)
}

proof fn lemma_lists_unique(a: Seq<u64>, b: Seq<u64>, set: Set<u64>)
    requires
        lists(a, set),
        lists(b, set),
    ensures
        a == b,
    decreases a.len(),
{
    if a.len() == 0 {
        if b.len() > 0 {
            assert(b.contains(b[0]));
            assert(a.contains(b[0]));
        }
        assert(a =~= b);
    } else {
        let last = a.last();
        assert(a.contains(a[a.len() - 1]));
        assert(b.contains(last));
        let top = b.last();
        assert(b.contains(b[b.len() - 1]));
        assert(a.contains(top));
        let i = a.index_of(top);
        assert(a[i] == top);
        let j = b.index_of(last);
        assert(b[j] == last);
        if top < last {
            assert(b[j] <= b[b.len() - 1]);
        }
        if last < top {
            assert(a[i] <= a[a.len() - 1]);
        }
        assert(top == last);
        let rest = set.remove(last);
        lemma_lists_drop_last(a, set);
        lemma_lists_drop_last(b, set);
        lemma_lists_unique(a.drop_last(), b.drop_last(), rest);
        assert(a =~= a.drop_last().push(last));
        assert(b =~= b.drop_last().push(last));
    }
}

/// Without its last member a listing lists the rest.
pub proof fn lemma_lists_drop_last(order: Seq<u64>, set: Set<u64>)
    requires
        lists(order, set),
        order.len() > 0,
    ensures
        lists(order.drop_last(), set.remove(order.last())),
{
    let init = order.drop_last();
    assert forall|i: int, j: int| 0 <= i < j < init.len() implies (#[trigger] init[i]) < (
    #[trigger] init[j]) by {
        assert(order[i] < order[j]);
    }
    assert forall|k: u64| #[trigger] init.contains(k) <==> set.remove(order.last()).contains(k) by {
        if init.contains(k) {
            let i = init.index_of(k);
            assert(order[i] == k);
            assert(order.contains(k));
            assert(order[i] < order[order.len() - 1]);
        }
        if set.contains(k) && k != order.last() {
            assert(order.contains(k));
            let i = order.index_of(k);
            assert(order[i] == k);
            assert(init[i] == k);
        }
    }
}

/// There is one ascending listing of a set.
pub proof fn lemma_ascending(order: Seq<u64>, set: Set<u64>)
    requires
        lists(order, set),
    ensures
        ascending(set) == order,
        lists(ascending(set), set),
{
    lemma_lists_unique(ascending(set), order, set);
}

impl<V> SparseMap<V> {
    /// The keys of a map stand in ascending order.
    pub proof fn lemma_order_ascending(&self)
        requires
            self.wf(),
        ensures
            self.order() == ascending(self@.dom()),
    {
        assert forall|k: u64| #[trigger] self.order().contains(k) <==> self@.dom().contains(k) by {}
        lemma_ascending(self.order(), self@.dom());
    }
}

/// The members of `order` that lie in `set`, in the same order.
pub open spec fn picked(order: Seq<u64>, set: Set<u64>) -> Seq<u64>
    decreases order.len(),
{
    if order.len() == 0 {
        Seq::empty()
    } else {
        let rest = picked(order.drop_last(), set);
        if set.contains(order.last()) {
            rest.push(order.last())
        } else {
            rest
        }
    }
}

proof fn lemma_picked_lists(order: Seq<u64>, set: Set<u64>)
    requires
        increasing(order),
    ensures
        increasing(picked(order, set)),
        forall|k: u64| #[trigger]
            picked(order, set).contains(k) <==> order.contains(k) && set.contains(k),
    decreases order.len(),
{
    if order.len() > 0 {
        let init = order.drop_last();
        let rest = picked(init, set);
        let all = picked(order, set);
        let last = order.last();
        assert forall|i: int, j: int| 0 <= i < j < init.len() implies (#[trigger] init[i]) < (
        #[trigger] init[j]) by {
            assert(order[i] < order[j]);
        }
        lemma_picked_lists(init, set);
        assert forall|i: int| 0 <= i < rest.len() implies (#[trigger] rest[i]) < last by {
            assert(rest.contains(rest[i]));
            let at = init.index_of(rest[i]);
            assert(init[at] == rest[i]);
            assert(order[at] < order[order.len() - 1]);
        }
        assert forall|k: u64| #[trigger] all.contains(k) <==> order.contains(k) && set.contains(
            k,
        ) by {
            if all.contains(k) {
                let i = all.index_of(k);
                if i < rest.len() {
                    assert(rest[i] == k);
                    assert(rest.contains(k));
                    let at = init.index_of(k);
                    assert(order[at] == k);
                } else {
                    assert(order[order.len() - 1] == k);
                }
            }
            if order.contains(k) && set.contains(k) {
                let at = order.index_of(k);
                if k == last {
                    assert(all[all.len() - 1] == k);
                } else {
                    assert(init[at] == k);
                    assert(rest.contains(k));
                    let i = rest.index_of(k);
                    assert(all[i] == k);
                }
            }
        }
    }
}

/// Picking the members of `set` out of an ascending listing that has them all
/// lists them.
pub proof fn lemma_picked(order: Seq<u64>, set: Set<u64>)
    requires
        increasing(order),
        forall|k: u64| #[trigger] set.contains(k) ==> order.contains(k),
    ensures
        picked(order, set) == ascending(set),
        lists(ascending(set), set),
{
    lemma_picked_lists(order, set);
    lemma_ascending(picked(order, set), set);
}

} // verus!
