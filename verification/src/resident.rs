//! The published projection of the resident pages: an immutable radix tree.
//!
//! Every mutation builds a new root that shares the untouched subtrees with the
//! old one, so a reader that holds an old root keeps seeing exactly what it
//! published. The tree is as deep as its largest key needs.

use crate::ids::{PageIndex, Ppn};
use crate::slot::{PageSlotSnapshot, PageSlotState};
use std::sync::Arc;
use vstd::arithmetic::div_mod::{
    lemma_basic_div, lemma_div_denominator, lemma_fundamental_div_mod, lemma_mod_breakdown,
    lemma_small_mod,
};
use vstd::arithmetic::power2::{lemma2_to64, lemma2_to64_rest, lemma_pow2_adds, pow2};
use vstd::bits::lemma_u64_shr_is_div;
use vstd::prelude::*;

verus! {

/// One resident binding: the frame, and whether it belongs to a device aperture.
#[derive(Clone, Copy, Debug, PartialEq, Eq, Structural)]
pub struct ResidentCell {
    pub ppn: Ppn,
    pub device: bool,
}

impl ResidentCell {
    pub fn ppn(&self) -> (ppn: Ppn)
        ensures
            ppn == self.ppn,
    {
        self.ppn
    }

    /// Whether the page's slot still names the frame of this cell.
    pub open spec fn is_current(self, slot: PageSlotSnapshot) -> bool {
        slot.state.frame() == Some(self.ppn)
    }

    pub fn slot_is_current(&self, slot: &PageSlotSnapshot) -> (current: bool)
        ensures
            current == self.is_current(*slot),
    {
        match slot.state {
            PageSlotState::Resident { ppn } => ppn == self.ppn,
            PageSlotState::Dirty { ppn } => ppn == self.ppn,
            PageSlotState::Writeback { ppn, .. } => ppn == self.ppn,
            _ => false,
        }
    }
}

/// Children of one node.
pub const RESIDENT_RADIX_FANOUT: usize = 16;

/// Deepest tree a 64-bit key can need.
pub const RESIDENT_RADIX_MAX_LEVELS: usize = 16;

/// How many keys a tree of `levels` levels tells apart.
pub open spec fn span(levels: nat) -> nat
    decreases levels,
{
    if levels == 0 {
        1
    } else {
        16 * span((levels - 1) as nat)
    }
}

/// Which child of a node with `depth` levels below it leads to `key`.
pub open spec fn digit(key: nat, depth: nat) -> nat {
    (key / span((depth - 1) as nat)) % 16
}

proof fn lemma_span_positive(levels: nat)
    ensures
        span(levels) > 0,
    decreases levels,
{
    if levels > 0 {
        lemma_span_positive((levels - 1) as nat);
    }
}

proof fn lemma_span_monotonic(a: nat, b: nat)
    requires
        a <= b,
    ensures
        span(a) <= span(b),
    decreases b,
{
    if a < b {
        lemma_span_monotonic(a, (b - 1) as nat);
        lemma_span_positive((b - 1) as nat);
    }
}

proof fn lemma_span_is_pow2(levels: nat)
    ensures
        span(levels) == pow2(4 * levels),
    decreases levels,
{
    lemma2_to64();
    if levels > 0 {
        lemma_span_is_pow2((levels - 1) as nat);
        lemma_pow2_adds(4, (4 * (levels - 1)) as nat);
        assert(4 + 4 * (levels - 1) == 4 * levels);
    }
}

proof fn lemma_span_16()
    ensures
        span(16) == 0x1_0000_0000_0000_0000,
{
    lemma_span_is_pow2(16);
    lemma2_to64_rest();
}

/// Keys agree below `depth` levels exactly when they take the same child and
/// agree below it.
proof fn lemma_same_path(a: nat, b: nat, depth: nat)
    requires
        depth > 0,
    ensures
        a % span(depth) == b % span(depth) <==> (digit(a, depth) == digit(b, depth) && a % span(
            (depth - 1) as nat,
        ) == b % span((depth - 1) as nat)),
        digit(a, depth) < 16,
{
    let p = span((depth - 1) as nat) as int;
    lemma_span_positive((depth - 1) as nat);
    assert(span(depth) == p * 16);
    lemma_mod_breakdown(a as int, p, 16);
    lemma_mod_breakdown(b as int, p, 16);
    let da = digit(a, depth) as int;
    let db = digit(b, depth) as int;
    let ra = a as int % p;
    let rb = b as int % p;
    assert(p * da + ra == p * db + rb ==> da == db && ra == rb) by (nonlinear_arith)
        requires
            0 <= ra < p,
            0 <= rb < p,
    ;
}

/// A key below the span of one level less takes child zero; any other key of
/// the tree takes another child.
proof fn lemma_leading_digit(key: nat, depth: nat)
    requires
        depth > 0,
        key < span(depth),
    ensures
        key < span((depth - 1) as nat) <==> digit(key, depth) == 0,
{
    let p = span((depth - 1) as nat) as int;
    lemma_span_positive((depth - 1) as nat);
    let q = key as int / p;
    lemma_fundamental_div_mod(key as int, p);
    assert(0 <= q < 16) by (nonlinear_arith)
        requires
            p > 0,
            key as int == p * q + (key as int % p),
            0 <= key as int % p < p,
            key < 16 * p,
    ;
    lemma_small_mod(q as nat, 16);
    if key < p {
        lemma_basic_div(key as int, p);
    } else if q == 0 {
        assert(p * q == 0) by (nonlinear_arith)
            requires
                q == 0,
        ;
    }
}

/// One node. Inner nodes have children only, leaves a cell only.
pub struct ResidentRadixNode {
    pub children: Vec<Option<Arc<ResidentRadixNode>>>,
    pub cell: Option<ResidentCell>,
}

impl ResidentRadixNode {
    /// Whether this is a node with `depth` levels below it.
    pub open spec fn wf(self, depth: nat) -> bool
        decreases depth,
    {
        &&& self.children@.len() == 16
        &&& if depth == 0 {
            forall|i: int| 0 <= i < 16 ==> (#[trigger] self.children@[i]) is None
        } else {
            &&& self.cell is None
            &&& forall|i: int|
                0 <= i < 16 ==> ((#[trigger] self.children@[i]) matches Some(child) ==> child.wf(
                    (depth - 1) as nat,
                ))
        }
    }

    /// The cell that `key` leads to from this node.
    pub open spec fn find(self, key: nat, depth: nat) -> Option<ResidentCell>
        decreases depth,
    {
        if depth == 0 {
            self.cell
        } else {
            match self.children@[digit(key, depth) as int] {
                None => None,
                Some(child) => child.find(key, (depth - 1) as nat),
            }
        }
    }

    /// Only the digits below the node decide where a key leads.
    proof fn lemma_find_by_path(&self, a: nat, b: nat, depth: nat)
        requires
            a % span(depth) == b % span(depth),
        ensures
            self.find(a, depth) == self.find(b, depth),
        decreases depth,
    {
        if depth > 0 {
            lemma_same_path(a, b, depth);
            match self.children@[digit(a, depth) as int] {
                None => {},
                Some(child) => {
                    child.lemma_find_by_path(a, b, (depth - 1) as nat);
                },
            }
        }
    }

    fn empty() -> (node: Self)
        ensures
            node.cell is None,
            node.children@.len() == 16,
            forall|i: int| 0 <= i < 16 ==> (#[trigger] node.children@[i]) is None,
            forall|depth: nat| #[trigger] node.wf(depth),
    {
        let mut children: Vec<Option<Arc<ResidentRadixNode>>> = Vec::new();
        let mut i: usize = 0;
        while i < RESIDENT_RADIX_FANOUT
            invariant
                i <= 16,
                children@.len() == i,
                forall|j: int| 0 <= j < i ==> (#[trigger] children@[j]) is None,
            decreases 16 - i,
        {
            children.push(None);
            i += 1;
        }
        ResidentRadixNode { children, cell: None }
    }

    /// A node with the same children and cell.
    fn share(&self) -> (node: Self)
        ensures
            node.children@ == self.children@,
            node.cell == self.cell,
    {
        let mut children: Vec<Option<Arc<ResidentRadixNode>>> = Vec::new();
        let mut i: usize = 0;
        while i < self.children.len()
            invariant
                i <= self.children@.len(),
                children@ == self.children@.take(i as int),
            decreases self.children@.len() - i,
        {
            let child = match &self.children[i] {
                Some(child) => Some(Arc::clone(child)),
                None => None,
            };
            children.push(child);
            assert(self.children@.take(i as int).push(self.children@[i as int])
                =~= self.children@.take(i + 1));
            i += 1;
        }
        assert(self.children@.take(i as int) =~= self.children@);
        ResidentRadixNode { children, cell: self.cell }
    }

    /// `digit`, by shifting.
    fn child_index(key: u64, depth: usize) -> (index: usize)
        requires
            0 < depth <= RESIDENT_RADIX_MAX_LEVELS,
        ensures
            index == digit(key as nat, depth as nat),
            index < 16,
    {
        let shift: u64 = ((depth - 1) * 4) as u64;
        let shifted: u64 = key >> shift;
        proof {
            lemma_u64_shr_is_div(key, shift);
            lemma_span_is_pow2((depth - 1) as nat);
            assert(shifted & 15 == shifted % 16) by (bit_vector);
        }
        (shifted & 15) as usize
    }

    fn lookup(&self, key: u64, depth: usize) -> (cell: Option<ResidentCell>)
        requires
            self.wf(depth as nat),
            depth <= RESIDENT_RADIX_MAX_LEVELS,
        ensures
            cell == self.find(key as nat, depth as nat),
        decreases depth,
    {
        if depth == 0 {
            return self.cell;
        }
        let index: usize = Self::child_index(key, depth);
        match &self.children[index] {
            None => None,
            Some(child) => child.lookup(key, depth - 1),
        }
    }

    /// The subtree with `key` bound to `cell`, and whether it was bound before.
    fn insert(current: Option<&Arc<Self>>, key: u64, depth: usize, cell: ResidentCell) -> (r: (
        Arc<Self>,
        bool,
    ))
        requires
            depth <= RESIDENT_RADIX_MAX_LEVELS,
            current matches Some(node) ==> node.wf(depth as nat),
        ensures
            r.0.wf(depth as nat),
            forall|k: nat| #[trigger]
                r.0.find(k, depth as nat) == if k % span(depth as nat) == key as nat % span(
                    depth as nat,
                ) {
                    Some(cell)
                } else {
                    find_in(current_node(current), k, depth as nat)
                },
            r.1 == (find_in(current_node(current), key as nat, depth as nat) is Some),
        decreases depth,
    {
        let mut next = match current {
            Some(node) => node.share(),
            None => Self::empty(),
        };
        let ghost base = next;
        if depth == 0 {
            let replaced = next.cell.is_some();
            next.cell = Some(cell);
            return (Arc::new(next), replaced);
        }
        let index: usize = Self::child_index(key, depth);
        let below = match &next.children[index] {
            Some(child) => Some(Arc::clone(child)),
            None => None,
        };
        assert(below == base.children@[index as int]);
        let (child, replaced) = Self::insert(below.as_ref(), key, depth - 1, cell);
        next.children.set(index, Some(child));
        proof {
            let d = depth as nat;
            let below_d = (depth - 1) as nat;
            assert forall|k: nat| #[trigger] next.find(k, d) == if k % span(d) == key as nat % span(
                d,
            ) {
                Some(cell)
            } else {
                find_in(current_node(current), k, d)
            } by {
                lemma_same_path(k, key as nat, d);
                if digit(k, d) == index {
                    assert(next.children@[digit(k, d) as int] == Some(child));
                    assert(child.find(k, below_d) == if k % span(below_d) == key as nat % span(
                        below_d,
                    ) {
                        Some(cell)
                    } else {
                        find_in(below, k, below_d)
                    });
                } else {
                    assert(next.children@[digit(k, d) as int] == base.children@[digit(
                        k,
                        d,
                    ) as int]);
                }
            }
            lemma_same_path(key as nat, key as nat, d);
        }
        (Arc::new(next), replaced)
    }

    fn has_children(&self) -> (some: bool)
        requires
            self.children@.len() == 16,
        ensures
            some == exists|i: int| 0 <= i < 16 && (#[trigger] self.children@[i]) is Some,
    {
        let mut i: usize = 0;
        while i < RESIDENT_RADIX_FANOUT
            invariant
                i <= 16,
                self.children@.len() == 16,
                forall|j: int| 0 <= j < i ==> (#[trigger] self.children@[j]) is None,
            decreases 16 - i,
        {
            if self.children[i].is_some() {
                return true;
            }
            i += 1;
        }
        false
    }

    /// The subtree with `key` unbound, and whether it was bound. A subtree that
    /// is left empty is dropped.
    #[verifier::spinoff_prover]
    #[verifier::rlimit(50)]
    fn remove(current: Option<&Arc<Self>>, key: u64, depth: usize) -> (r: (
        Option<Arc<Self>>,
        bool,
    ))
        requires
            depth <= RESIDENT_RADIX_MAX_LEVELS,
            current matches Some(node) ==> node.wf(depth as nat),
        ensures
            r.0 matches Some(node) ==> node.wf(depth as nat),
            forall|k: nat| #[trigger]
                find_in(r.0, k, depth as nat) == if k % span(depth as nat) == key as nat % span(
                    depth as nat,
                ) {
                    None
                } else {
                    find_in(current_node(current), k, depth as nat)
                },
            r.1 == (find_in(current_node(current), key as nat, depth as nat) is Some),
        decreases depth,
    {
        let ghost d = depth as nat;
        match current {
            None => {
                assert forall|k: nat| #[trigger] find_in(None, k, d) is None by {}
                (None, false)
            },
            Some(node) => {
                let mut next = node.share();
                let removed: bool;
                if depth == 0 {
                    removed = next.cell.is_some();
                    next.cell = None;
                    assert forall|k: nat| #[trigger] next.find(k, d) == if k % span(d)
                        == key as nat % span(d) {
                        None
                    } else {
                        node.find(k, d)
                    } by {
                        assert(span(0) == 1);
                    }
                } else {
                    let index: usize = Self::child_index(key, depth);
                    let below = match &next.children[index] {
                        Some(child) => Some(Arc::clone(child)),
                        None => None,
                    };
                    assert(below == node.children@[index as int]);
                    let (child, below_removed) = Self::remove(below.as_ref(), key, depth - 1);
                    if !below_removed {
                        proof {
                            lemma_same_path(key as nat, key as nat, d);
                            assert(node.find(key as nat, d) is None);
                            assert forall|k: nat|
                                k % span(d) == key as nat % span(d) implies #[trigger] node.find(
                                k,
                                d,
                            ) is None by {
                                node.lemma_find_by_path(k, key as nat, d);
                            }
                        }
                        return (Some(Arc::clone(node)), false);
                    }
                    next.children.set(index, child);
                    removed = below_removed;
                    proof {
                        let below_d = (depth - 1) as nat;
                        assert forall|k: nat| #[trigger] next.find(k, d) == if k % span(d)
                            == key as nat % span(d) {
                            None
                        } else {
                            node.find(k, d)
                        } by {
                            lemma_same_path(k, key as nat, d);
                            if digit(k, d) == index {
                                assert(next.children@[digit(k, d) as int] == child);
                                assert(find_in(child, k, below_d) == if k % span(below_d)
                                    == key as nat % span(below_d) {
                                    None
                                } else {
                                    find_in(below, k, below_d)
                                });
                            } else {
                                assert(next.children@[digit(k, d) as int] == node.children@[digit(
                                    k,
                                    d,
                                ) as int]);
                            }
                        }
                    }
                }
                if next.cell.is_none() && !next.has_children() {
                    proof {
                        assert forall|k: nat| #[trigger] next.find(k, d) is None by {
                            if depth > 0 {
                                lemma_same_path(k, k, d);
                                assert(next.children@[digit(k, d) as int] is None);
                            }
                        }
                        assert forall|k: nat| #[trigger] find_in(None, k, d) == if k % span(d)
                            == key as nat % span(d) {
                            None
                        } else {
                            find_in(current_node(current), k, d)
                        } by {
                            assert(next.find(k, d) is None);
                        }
                    }
                    (None, removed)
                } else {
                    let node = Arc::new(next);
                    assert forall|k: nat| #[trigger] find_in(Some(node), k, d) == if k % span(d)
                        == key as nat % span(d) {
                        None
                    } else {
                        find_in(current_node(current), k, d)
                    } by {
                        assert(find_in(Some(node), k, d) == next.find(k, d));
                    }
                    (Some(node), removed)
                }
            },
        }
    }
}

/// `ResidentRadixNode::find` on a subtree that may be missing.
pub open spec fn find_in(node: Option<Arc<ResidentRadixNode>>, key: nat, depth: nat) -> Option<
    ResidentCell,
> {
    match node {
        None => None,
        Some(node) => node.find(key, depth),
    }
}

pub open spec fn current_node(node: Option<&Arc<ResidentRadixNode>>) -> Option<
    Arc<ResidentRadixNode>,
> {
    match node {
        None => None,
        Some(node) => Some(*node),
    }
}

/// Immutable projection of the resident bindings.
pub struct ResidentRoot {
    pub root: Option<Arc<ResidentRadixNode>>,
    pub levels: usize,
    pub len: usize,
}

/// The bindings that a tree publishes: keys beyond its span are not truncated
/// into it.
pub open spec fn bindings(root: Option<Arc<ResidentRadixNode>>, levels: nat) -> Map<
    u64,
    ResidentCell,
> {
    Map::new(
        |k: u64| (k as nat) < span(levels) && find_in(root, k as nat, levels) is Some,
        |k: u64| find_in(root, k as nat, levels)->Some_0,
    )
}

impl View for ResidentRoot {
    type V = Map<u64, ResidentCell>;

    open spec fn view(&self) -> Map<u64, ResidentCell> {
        bindings(self.root, self.levels as nat)
    }
}

/// Whether `root` has nothing but its first child.
pub open spec fn is_narrow(root: Option<Arc<ResidentRadixNode>>) -> bool {
    root matches Some(node) && node.cell is None && node.children@[0] is Some && forall|i: int|
        1 <= i < 16 ==> (#[trigger] node.children@[i]) is None
}

impl ResidentRoot {
    /// Whether no level at the top could be given up.
    pub open spec fn is_trimmed(&self) -> bool {
        self.levels > 1 ==> !is_narrow(self.root)
    }

    pub open spec fn wf(&self) -> bool {
        &&& self.levels <= RESIDENT_RADIX_MAX_LEVELS
        &&& self.root is None <==> self.levels == 0
        &&& self.root matches Some(node) ==> node.wf(self.levels as nat)
        &&& self@.dom().finite()
        &&& self.len == self@.len()
    }

    pub fn empty() -> (root: Self)
        ensures
            root.wf(),
            root@ == Map::<u64, ResidentCell>::empty(),
            root.levels == 0,
    {
        let root = ResidentRoot { root: None, levels: 0, len: 0 };
        assert(root@ =~= Map::<u64, ResidentCell>::empty());
        root
    }

    /// Another handle on the same projection.
    pub fn snapshot(&self) -> (root: Self)
        ensures
            root == *self,
    {
        let root = match &self.root {
            Some(node) => Some(Arc::clone(node)),
            None => None,
        };
        ResidentRoot { root, levels: self.levels, len: self.len }
    }

    pub fn lookup(&self, page: PageIndex) -> (cell: Option<ResidentCell>)
        requires
            self.wf(),
        ensures
            cell == (if self@.contains_key(page.0) {
                Some(self@[page.0])
            } else {
                None
            }),
    {
        let levels: usize = resident_radix_levels(page.0);
        proof {
            lemma_levels_bound(page.0, self.levels as nat);
        }
        if levels > self.levels {
            return None;
        }
        match &self.root {
            None => None,
            Some(node) => node.lookup(page.0, self.levels),
        }
    }

    /// This projection with `page` bound to `cell`. It grows by the levels that
    /// `page` needs and no more.
    pub fn with_cell(self, page: PageIndex, cell: ResidentCell) -> (next: Self)
        requires
            self.wf(),
            self@.contains_key(page.0) || self@.len() < usize::MAX,
        ensures
            next.wf(),
            next@ == self@.insert(page.0, cell),
            if self.levels > 0 && (page.0 as nat) < span(self.levels as nat) {
                next.levels == self.levels
            } else {
                next.levels > self.levels && levels_for(page.0, next.levels as nat)
            },
    {
        let ghost before = self@;
        let ResidentRoot { root, levels, len } = self;
        let mut root = root;
        let mut levels: usize = levels;
        let required: usize = resident_radix_levels(page.0);
        proof {
            lemma_levels_bound(page.0, levels as nat);
        }
        while levels < required
            invariant
                self.levels <= levels,
                levels <= required || levels == self.levels,
                levels <= RESIDENT_RADIX_MAX_LEVELS,
                required <= RESIDENT_RADIX_MAX_LEVELS,
                root matches Some(node) ==> node.wf(levels as nat),
                root is None ==> levels == 0,
                bindings(root, levels as nat) == before,
            decreases required - levels,
        {
            let mut expanded = ResidentRadixNode::empty();
            let ghost old_root = root;
            expanded.children.set(0, root);
            root = Some(Arc::new(expanded));
            proof {
                lemma_expanded(old_root, root->Some_0, levels as nat);
            }
            levels += 1;
        }
        proof {
            lemma_levels_bound(page.0, levels as nat);
        }
        let ghost expanded_root = root;
        let (node, replaced) = ResidentRadixNode::insert(root.as_ref(), page.0, levels, cell);
        proof {
            lemma_small_mod(page.0 as nat, span(levels as nat));
            assert(replaced == bindings(expanded_root, levels as nat).contains_key(page.0));
        }
        let next = ResidentRoot {
            root: Some(node),
            levels,
            len: if replaced {
                len
            } else {
                len + 1
            },
        };
        proof {
            let d = levels as nat;
            assert forall|k: u64| (k as nat) < span(d) implies #[trigger] find_in(
                next.root,
                k as nat,
                d,
            ) == if k == page.0 {
                Some(cell)
            } else {
                find_in(expanded_root, k as nat, d)
            } by {
                lemma_small_mod(k as nat, span(d));
                lemma_small_mod(page.0 as nat, span(d));
            }
            assert(next@ =~= before.insert(page.0, cell));
        }
        next
    }

    /// This projection without `page`. Levels that the rest does not need are
    /// given up, if `page` is one that this root can hold.
    pub fn without_cell(self, page: PageIndex) -> (next: Self)
        requires
            self.wf(),
        ensures
            next.wf(),
            next@ == self@.remove(page.0),
            next.levels <= self.levels,
            (page.0 as nat) < span(self.levels as nat) ==> next.is_trimmed(),
            (page.0 as nat) >= span(self.levels as nat) ==> next == self,
    {
        let ghost before = self@;
        let needed: usize = resident_radix_levels(page.0);
        proof {
            lemma_levels_bound(page.0, self.levels as nat);
        }
        if needed > self.levels {
            assert(before.remove(page.0) =~= before);
            return self;
        }
        let ResidentRoot { root, levels, len } = self;
        let (pruned, removed) = ResidentRadixNode::remove(root.as_ref(), page.0, levels);
        let mut root = pruned;
        let mut levels: usize = levels;
        proof {
            if removed {
                assert(before.dom().contains(page.0));
                assert(before.dom().remove(page.0).len() == before.dom().len() - 1);
            }
        }
        let len: usize = if removed {
            len - 1
        } else {
            len
        };
        let ghost after = before.remove(page.0);
        proof {
            let d = levels as nat;
            assert forall|k: u64| (k as nat) < span(d) implies #[trigger] find_in(
                root,
                k as nat,
                d,
            ) == if k == page.0 {
                None
            } else {
                find_in(self.root, k as nat, d)
            } by {
                lemma_small_mod(k as nat, span(d));
                lemma_small_mod(page.0 as nat, span(d));
            }
            assert(bindings(root, d) =~= after);
            assert(after.dom().finite());
            assert(after.len() == len);
        }
        while levels > 1
            invariant_except_break
                1 <= levels,
            invariant
                levels <= RESIDENT_RADIX_MAX_LEVELS,
                root matches Some(node) ==> node.wf(levels as nat) && levels >= 1,
                bindings(root, levels as nat) == after,
                levels <= self.levels,
            ensures
                levels > 1 ==> !is_narrow(root),
            decreases levels,
        {
            let inner = match &root {
                None => None,
                Some(node) => node.only_first_child(),
            };
            match inner {
                None => {
                    break;
                },
                Some(child) => {
                    proof {
                        lemma_expanded(Some(child), root->Some_0, (levels - 1) as nat);
                    }
                    root = Some(child);
                    levels -= 1;
                },
            }
        }
        if root.is_none() {
            assert(bindings(root, 0) =~= bindings(root, levels as nat));
            levels = 0;
        }
        ResidentRoot { root, levels, len }
    }

    pub fn len(&self) -> (len: usize)
        requires
            self.wf(),
        ensures
            len == self@.len(),
    {
        self.len
    }

    pub fn levels(&self) -> (levels: usize)
        ensures
            levels == self.levels,
    {
        self.levels
    }
}

impl ResidentRadixNode {
    /// The first child, if it is the only one.
    fn only_first_child(&self) -> (child: Option<Arc<ResidentRadixNode>>)
        requires
            self.children@.len() == 16,
        ensures
            child == (if self.cell is None && forall|i: int|
                1 <= i < 16 ==> (#[trigger] self.children@[i]) is None {
                self.children@[0]
            } else {
                None
            }),
    {
        if self.cell.is_some() {
            return None;
        }
        let mut i: usize = 1;
        while i < RESIDENT_RADIX_FANOUT
            invariant
                1 <= i <= 16,
                self.children@.len() == 16,
                forall|j: int| 1 <= j < i ==> (#[trigger] self.children@[j]) is None,
            decreases 16 - i,
        {
            if self.children[i].is_some() {
                return None;
            }
            i += 1;
        }
        match &self.children[0] {
            Some(child) => Some(Arc::clone(child)),
            None => None,
        }
    }
}

/// A root whose only child is its first publishes what that child publishes.
proof fn lemma_expanded(
    inner: Option<Arc<ResidentRadixNode>>,
    outer: Arc<ResidentRadixNode>,
    levels: nat,
)
    requires
        inner matches Some(node) ==> node.wf(levels),
        inner is None ==> levels == 0,
        outer.cell is None,
        outer.children@.len() == 16,
        outer.children@[0] == inner,
        forall|i: int| 1 <= i < 16 ==> (#[trigger] outer.children@[i]) is None,
    ensures
        outer.wf(levels + 1),
        bindings(Some(outer), levels + 1) == bindings(inner, levels),
{
    let d = levels + 1;
    lemma_span_positive(levels);
    assert forall|i: int| 0 <= i < 16 implies ((#[trigger] outer.children@[i]) matches Some(child)
        ==> child.wf(levels)) by {
        if i > 0 {
            assert(outer.children@[i] is None);
        }
    }
    let wide = bindings(Some(outer), d);
    let narrow = bindings(inner, levels);
    assert forall|k: u64| #[trigger] wide.contains_key(k) == narrow.contains_key(k) && (
    narrow.contains_key(k) ==> wide[k] == narrow[k]) by {
        if (k as nat) < span(d) {
            lemma_leading_digit(k as nat, d);
            lemma_same_path(k as nat, k as nat, d);
            if (k as nat) >= span(levels) {
                assert(outer.children@[digit(k as nat, d) as int] is None);
            } else {
                assert(outer.children@[digit(k as nat, d) as int] == inner);
            }
        }
    }
    assert(wide =~= narrow);
}

/// The fewest levels, at least one, whose span holds `key`.
pub open spec fn levels_for(key: u64, levels: nat) -> bool {
    &&& levels >= 1
    &&& (key as nat) < span(levels)
    &&& levels > 1 ==> key as nat >= span((levels - 1) as nat)
}

pub fn resident_radix_levels(key: u64) -> (levels: usize)
    ensures
        levels_for(key, levels as nat),
        1 <= levels <= RESIDENT_RADIX_MAX_LEVELS,
{
    let mut levels: usize = 1;
    let mut rest: u64 = key / 16;
    proof {
        assert(span(1) == 16) by {
            assert(span(0) == 1);
        }
    }
    while rest != 0
        invariant
            1 <= levels <= 16,
            rest == key as nat / span(levels as nat),
            levels > 1 ==> key as nat >= span((levels - 1) as nat),
        decreases rest,
    {
        proof {
            let p = span(levels as nat) as int;
            lemma_span_positive(levels as nat);
            lemma_span_16();
            if levels == 16 {
                lemma_basic_div(key as int, p);
            }
            lemma_div_denominator(key as int, p, 16);
            assert(p * 16 == span((levels + 1) as nat));
            if (key as int) < p {
                lemma_basic_div(key as int, p);
            }
        }
        rest = rest / 16;
        levels += 1;
    }
    proof {
        let p = span(levels as nat) as int;
        lemma_span_positive(levels as nat);
        lemma_fundamental_div_mod(key as int, p);
        assert(p * 0 == 0);
    }
    levels
}

/// A tree has enough levels for a key exactly when the key is within its span.
proof fn lemma_levels_bound(key: u64, levels: nat)
    ensures
        forall|n: nat| #[trigger]
            levels_for(key, n) && levels >= 1 ==> (n <= levels <==> (key as nat) < span(levels)),
{
    assert forall|n: nat| #[trigger] levels_for(key, n) && levels >= 1 implies (n <= levels <==> (
    key as nat) < span(levels)) by {
        if n <= levels {
            lemma_span_monotonic(n, levels);
        } else {
            lemma_span_monotonic(levels, (n - 1) as nat);
        }
    }
}

/// A new root changes the binding of its page only; every other page reads as
/// in the old root, and the old root itself still reads as before.
pub proof fn law_publication_touches_one_page(
    old_root: ResidentRoot,
    next: ResidentRoot,
    page: PageIndex,
    cell: ResidentCell,
    other: PageIndex,
)
    requires
        next@ == old_root@.insert(page.0, cell),
        other != page,
    ensures
        next@.contains_key(page.0),
        next@[page.0] == cell,
        next@.contains_key(other.0) == old_root@.contains_key(other.0),
        old_root@.contains_key(other.0) ==> next@[other.0] == old_root@[other.0],
{
}

/// Taking a page that was not published back out restores the projection.
pub proof fn law_withdrawal_undoes_publication(
    old_root: ResidentRoot,
    published: ResidentRoot,
    withdrawn: ResidentRoot,
    page: PageIndex,
    cell: ResidentCell,
)
    requires
        !old_root@.contains_key(page.0),
        published@ == old_root@.insert(page.0, cell),
        withdrawn@ == published@.remove(page.0),
    ensures
        withdrawn@ == old_root@,
{
    assert(withdrawn@ =~= old_root@);
}

/// What is bound reads back, until it is taken out; meanwhile and afterwards every
/// other page reads as it did, and each root has as many bindings as it should.
pub proof fn law_a_binding_comes_and_goes(
    old_root: ResidentRoot,
    published: ResidentRoot,
    withdrawn: ResidentRoot,
    page: PageIndex,
    cell: ResidentCell,
    other: PageIndex,
)
    requires
        old_root.wf(),
        published.wf(),
        withdrawn.wf(),
        published@ == old_root@.insert(page.0, cell),
        withdrawn@ == published@.remove(page.0),
        other != page,
    ensures
        published@.contains_key(page.0) && published@[page.0] == cell,
        !withdrawn@.contains_key(page.0),
        published@.contains_key(other.0) == old_root@.contains_key(other.0),
        withdrawn@.contains_key(other.0) == old_root@.contains_key(other.0),
        old_root@.contains_key(other.0) ==> published@[other.0] == old_root@[other.0]
            && withdrawn@[other.0] == old_root@[other.0],
        published.len == old_root.len + if old_root@.contains_key(page.0) {
            0int
        } else {
            1int
        },
        withdrawn.len == published.len - 1,
{
    let before = old_root@.dom();
    if before.contains(page.0) {
        assert(published@.dom() =~= before);
    } else {
        assert(published@.dom() =~= before.insert(page.0));
    }
    assert(withdrawn@.dom() =~= published@.dom().remove(page.0));
}

/// Two pages never share a binding because a root is too shallow to tell them
/// apart: a page outside the span of a root is not published by it.
pub proof fn law_shallow_root_does_not_alias(root: ResidentRoot, page: PageIndex)
    requires
        root.wf(),
        page.0 as nat >= span(root.levels as nat),
    ensures
        !root@.contains_key(page.0),
{
}

} // verus!
