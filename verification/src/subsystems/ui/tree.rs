//! Bounded retained UI tree with generational handles and deterministic
//! order.
//!
//! The tree owns the hierarchy: slots, generations, parent and child links,
//! dirty flags and layout rectangles. What a node displays is its content,
//! a value the tree stores and hands back without reading it; rectangles are
//! carried as the bit patterns of their `f32` coordinates. Content and
//! rectangles are validated by the caller before they are stored.
use vstd::prelude::*;

use crate::subsystems::ui::budget::UiError;
use crate::subsystems::ui::id::UiNodeId;

verus! {

broadcast use {UiNodeId::lemma_spec_new, UiNodeId::lemma_rebuild};

struct UiNode<C> {
    id: UiNodeId,
    parent: Option<UiNodeId>,
    children: Vec<UiNodeId>,
    content: C,
    rect: [u32; 4],
    dirty: bool,
}

pub struct UiTree<C> {
    slots: Vec<Option<UiNode<C>>>,
    generations: Vec<u32>,
    free: Vec<u32>,
    root: UiNodeId,
    count: usize,
    max_nodes: usize,
    max_depth: usize,
    /// Distance of each occupied slot's node from the root.
    depths: Ghost<Seq<nat>>,
    /// Strict upper bound of every depth.
    bound: Ghost<nat>,
}

/// Number of occupied slots.
#[verifier::opaque]
spec fn live_count<C>(s: Seq<Option<UiNode<C>>>) -> nat
    decreases s.len(),
{
    if s.len() == 0 {
        0
    } else {
        live_count(s.drop_last()) + if s.last() is Some {
            1nat
        } else {
            0nat
        }
    }
}

/// Replacing one slot changes the count by what left and what came.
proof fn lemma_live_count_update<C>(s: Seq<Option<UiNode<C>>>, i: int, v: Option<UiNode<C>>)
    requires
        0 <= i < s.len(),
    ensures
        live_count(s.update(i, v)) + (if s[i] is Some {
            1int
        } else {
            0int
        }) == live_count(s) + (if v is Some {
            1int
        } else {
            0int
        }),
    decreases s.len(),
{
    reveal(live_count);
    let t = s.update(i, v);
    if i == s.len() - 1 {
        assert(t.drop_last() =~= s.drop_last());
    } else {
        assert(t.drop_last() =~= s.drop_last().update(i, v));
        lemma_live_count_update(s.drop_last(), i, v);
    }
}

/// Slots occupied in the same places hold the same number of nodes.
proof fn lemma_live_count_same<C>(a: Seq<Option<UiNode<C>>>, b: Seq<Option<UiNode<C>>>)
    requires
        a.len() == b.len(),
        forall|i: int| 0 <= i < a.len() ==> (#[trigger] a[i] is Some) == (b[i] is Some),
    ensures
        live_count(a) == live_count(b),
    decreases a.len(),
{
    reveal(live_count);
    if a.len() > 0 {
        lemma_live_count_same(a.drop_last(), b.drop_last());
    }
}

/// At least the occupied slot `i` is counted.
proof fn lemma_live_count_positive<C>(s: Seq<Option<UiNode<C>>>, i: int)
    requires
        0 <= i < s.len(),
        s[i] is Some,
    ensures
        live_count(s) >= 1,
    decreases s.len(),
{
    reveal(live_count);
    if i < s.len() - 1 {
        lemma_live_count_positive(s.drop_last(), i);
    }
}

/// Number of occupied slots whose node is dirty.
spec fn dirty_in<C>(s: Seq<Option<UiNode<C>>>) -> nat
    decreases s.len(),
{
    if s.len() == 0 {
        0
    } else {
        dirty_in(s.drop_last()) + if s.last() is Some && s.last().unwrap().dirty {
            1nat
        } else {
            0nat
        }
    }
}

/// Two nodes agree on every field, children by their contents.
spec fn node_eq<C>(a: UiNode<C>, b: UiNode<C>) -> bool {
    &&& a.id == b.id
    &&& a.parent == b.parent
    &&& a.children@ == b.children@
    &&& a.content == b.content
    &&& a.rect == b.rect
    &&& a.dirty == b.dirty
}

/// Slot `i` belongs to one of `removed[j..]`.
spec fn removed_from(removed: Seq<UiNodeId>, j: int, i: int) -> bool {
    exists|m: int| j <= m < removed.len() && #[trigger] removed[m].spec_index() == i
}

/// The slots of `removed[j..]`, last first.
spec fn freed_from(removed: Seq<UiNodeId>, j: int) -> Seq<u32> {
    Seq::new((removed.len() - j) as nat, |m: int| removed[removed.len() - 1 - m].spec_index())
}

proof fn lemma_removed_after(removed: Seq<UiNodeId>, j: int)
    requires
        0 <= j < removed.len(),
    ensures
        forall|i: int| #[trigger] removed_from(removed, j, i) == (removed_from(removed, j + 1, i)
            || removed[j].spec_index() == i),
        freed_from(removed, j) == freed_from(removed, j + 1).push(removed[j].spec_index()),
{
    assert forall|i: int| #[trigger] removed_from(removed, j, i) == (removed_from(removed, j + 1, i)
        || removed[j].spec_index() == i) by {
        if removed_from(removed, j, i) {
            let m = choose|m: int| j <= m < removed.len() && #[trigger] removed[m].spec_index() == i;
            if m > j {
                assert(removed_from(removed, j + 1, i));
            }
        }
        if removed_from(removed, j + 1, i) {
            let m = choose|m: int| j + 1 <= m < removed.len() && #[trigger] removed[m].spec_index() == i;
            assert(j <= m);
        }
    }
    assert(freed_from(removed, j) =~= freed_from(removed, j + 1).push(removed[j].spec_index()));
}

/// Live handles in different places of a list without repeats sit in
/// different slots.
proof fn lemma_live_distinct_slots<C>(t: UiTree<C>, removed: Seq<UiNodeId>, a: int, b: int)
    requires
        t.wf(),
        removed.no_duplicates(),
        forall|y: UiNodeId| #[trigger] removed.contains(y) ==> t.spec_contains(y),
        0 <= a < removed.len(),
        0 <= b < removed.len(),
        a != b,
    ensures
        removed[a].spec_index() != removed[b].spec_index(),
{
    assert(removed.contains(removed[a]));
    assert(removed.contains(removed[b]));
    if removed[a].spec_index() == removed[b].spec_index() {
        assert(t.at(removed[a]).id == removed[a]);
        assert(t.at(removed[b]).id == removed[b]);
    }
}

/// The children `cs` without `id`, in order.
fn without_child(cs: &Vec<UiNodeId>, id: UiNodeId) -> (r: Vec<UiNodeId>)
    ensures
        r@ == cs@.filter(|c: UiNodeId| c != id),
        forall|c: UiNodeId| #[trigger] r@.contains(c) <==> (cs@.contains(c) && c != id),
        cs@.no_duplicates() ==> r@.no_duplicates(),
{
    let mut r: Vec<UiNodeId> = Vec::new();
    let mut k: usize = 0;
    while k < cs.len()
        invariant
            k <= cs@.len(),
            r@ == cs@.take(k as int).filter(|c: UiNodeId| c != id),
            forall|c: UiNodeId| #[trigger] r@.contains(c) <==> (cs@.take(k as int).contains(c) && c != id),
            cs@.no_duplicates() ==> r@.no_duplicates(),
        decreases cs@.len() - k,
    {
        let c = cs[k];
        let ghost before = r@;
        proof {
            reveal(Seq::filter);
            assert(cs@.take(k as int + 1).drop_last() =~= cs@.take(k as int));
            assert(cs@.take(k as int + 1).last() == c);
        }
        if c != id {
            r.push(c);
            proof {
                if cs@.no_duplicates() {
                    assert(!before.contains(c)) by {
                        if before.contains(c) {
                            let t0 = cs@.take(k as int);
                            assert(t0.contains(c));
                            let m = choose|m: int| 0 <= m < t0.len() && t0[m] == c;
                            assert(cs@[m] == cs@[k as int]);
                        }
                    }
                    assert forall|a: int, b: int| 0 <= a < b < r@.len() implies r@[a] != r@[b] by {
                        if b == r@.len() - 1 {
                            assert(before.contains(r@[a]));
                        }
                    }
                }
            }
        }
        proof {
            let t1 = cs@.take(k as int + 1);
            let t0 = cs@.take(k as int);
            assert forall|x: UiNodeId| #[trigger] r@.contains(x) <==> (t1.contains(x) && x != id) by {
                if t1.contains(x) && x != id {
                    let m = choose|m: int| 0 <= m < t1.len() && t1[m] == x;
                    if m < k {
                        assert(t0[m] == x);
                        assert(before.contains(x));
                        let q = choose|q: int| 0 <= q < before.len() && before[q] == x;
                        assert(r@[q] == x);
                    } else {
                        assert(r@[r@.len() - 1] == x);
                    }
                }
                if r@.contains(x) {
                    let q = choose|q: int| 0 <= q < r@.len() && r@[q] == x;
                    if q < before.len() {
                        assert(before[q] == x);
                        assert(before.contains(x));
                        let m = choose|m: int| 0 <= m < t0.len() && t0[m] == x;
                        assert(t1[m] == x);
                    } else {
                        assert(x == c);
                        assert(t1[k as int] == x);
                    }
                }
            }
        }
        k = k + 1;
    }
    proof {
        assert(cs@.take(cs@.len() as int) =~= cs@);
    }
    r
}

impl<C> UiTree<C> {
    /// `self` and `other` differ at most in how their child lists are held.
    spec fn same_state(&self, other: &Self) -> bool {
        &&& self.slots@.len() == other.slots@.len()
        &&& forall|i: int|
            0 <= i < self.slots@.len() ==> (#[trigger] self.slots@[i] is Some) == (other.slots@[i] is Some)
        &&& forall|i: int| #[trigger] self.occupied(i) ==> node_eq(self.node(i), other.node(i))
        &&& self.generations@ == other.generations@
        &&& self.free@ == other.free@
        &&& self.root == other.root
        &&& self.count == other.count
        &&& self.max_nodes == other.max_nodes
        &&& self.max_depth == other.max_depth
        &&& self.depths@ == other.depths@
        &&& self.bound@ == other.bound@
    }

    spec fn occupied(&self, i: int) -> bool {
        0 <= i < self.slots@.len() && self.slots@[i] is Some
    }

    spec fn node(&self, i: int) -> UiNode<C> {
        self.slots@[i].unwrap()
    }

    spec fn at(&self, id: UiNodeId) -> UiNode<C> {
        self.node(id.spec_index() as int)
    }

    /// `id` names a live node.
    pub closed spec fn spec_contains(&self, id: UiNodeId) -> bool {
        self.occupied(id.spec_index() as int) && self.at(id).id == id
    }

    pub closed spec fn spec_parent(&self, id: UiNodeId) -> Option<UiNodeId> {
        self.at(id).parent
    }

    pub closed spec fn spec_children(&self, id: UiNodeId) -> Seq<UiNodeId> {
        self.at(id).children@
    }

    pub closed spec fn spec_content(&self, id: UiNodeId) -> C {
        self.at(id).content
    }

    pub closed spec fn spec_rect(&self, id: UiNodeId) -> [u32; 4] {
        self.at(id).rect
    }

    pub closed spec fn spec_dirty(&self, id: UiNodeId) -> bool {
        self.at(id).dirty
    }

    /// Number of parent steps from `id` up to the root.
    pub closed spec fn spec_depth(&self, id: UiNodeId) -> nat {
        self.depths@[id.spec_index() as int]
    }

    /// The node `k` parent steps above `id` (the root stays put).
    pub closed spec fn spec_ancestor(&self, id: UiNodeId, k: nat) -> UiNodeId
        decreases k,
    {
        if k == 0 {
            id
        } else {
            match self.at(id).parent {
                Some(p) => self.spec_ancestor(p, (k - 1) as nat),
                None => id,
            }
        }
    }

    /// `x` lies on the path from `id` up to the root.
    pub closed spec fn spec_on_root_path(&self, x: UiNodeId, id: UiNodeId) -> bool {
        exists|k: nat| k <= self.spec_depth(id) && #[trigger] self.spec_ancestor(id, k) == x
    }

    /// `x` followed, child by child, by the subtrees of its children, with
    /// `fuel` levels to spend.
    spec fn pre_fuel(&self, x: UiNodeId, fuel: nat) -> Seq<UiNodeId>
        decreases fuel, 0nat,
    {
        if fuel == 0 {
            Seq::empty()
        } else {
            seq![x] + self.pre_list(self.at(x).children@, (fuel - 1) as nat)
        }
    }

    /// The subtrees of `cs`, in order, with `fuel` levels to spend.
    spec fn pre_list(&self, cs: Seq<UiNodeId>, fuel: nat) -> Seq<UiNodeId>
        decreases fuel, cs.len(),
    {
        if cs.len() == 0 {
            Seq::empty()
        } else {
            self.pre_list(cs.drop_last(), fuel) + self.pre_fuel(cs.last(), fuel)
        }
    }

    /// The subtree of `id` in depth-first preorder: `id`, then the subtree
    /// of each child in order.
    pub closed spec fn spec_subtree_order(&self, id: UiNodeId) -> Seq<UiNodeId> {
        self.pre_fuel(id, (self.bound@ - self.spec_depth(id)) as nat)
    }

    /// Depths after moving the subtree of `id` under `np`: every node of
    /// that subtree shifts by the same amount.
    spec fn shifted_depths(&self, id: UiNodeId, np: UiNodeId) -> Seq<nat> {
        Seq::new(
            self.depths@.len(),
            |i: int|
                if self.occupied(i) && self.spec_on_root_path(id, self.node(i).id) {
                    (self.depths@[i] - self.spec_depth(id) + self.spec_depth(np) + 1) as nat
                } else {
                    self.depths@[i]
                },
        )
    }

    pub closed spec fn spec_root(&self) -> UiNodeId {
        self.root
    }

    /// Number of live nodes awaiting layout.
    pub closed spec fn spec_dirty_count(&self) -> nat {
        dirty_in(self.slots@)
    }

    /// `x` names a slot whose generation has moved past `x`: the node it
    /// named was removed, and the handle can never name a node again.
    pub closed spec fn spec_retired(&self, x: UiNodeId) -> bool {
        x.spec_index() < self.generations@.len() && x.spec_generation() < self.generations@[x.spec_index() as int]
    }

    /// No slot's generation went back since `before`, so every handle
    /// retired then is retired now.
    pub closed spec fn generations_advanced(&self, before: &Self) -> bool {
        &&& before.generations@.len() <= self.generations@.len()
        &&& forall|i: int|
            0 <= i < before.generations@.len() ==> before.generations@[i] <= #[trigger] self.generations@[i]
    }

    /// A retired handle names no live node.
    pub proof fn lemma_retired_is_dead(&self, x: UiNodeId)
        requires
            self.wf(),
            self.spec_retired(x),
        ensures
            !self.spec_contains(x),
    {
        if self.spec_contains(x) {
            assert(self.occupied(x.spec_index() as int));
        }
    }

    /// Once retired, a handle stays retired, and so names no live node,
    /// across every later change that only advances generations (every
    /// operation of the tree does).
    pub proof fn lemma_retired_stays_retired(before: &Self, after: &Self, x: UiNodeId)
        requires
            after.wf(),
            after.generations_advanced(before),
            before.spec_retired(x),
        ensures
            after.spec_retired(x),
            !after.spec_contains(x),
    {
        assert(before.generations@[x.spec_index() as int] <= after.generations@[x.spec_index() as int]);
        after.lemma_retired_is_dead(x);
    }

    /// Advancing generations composes.
    pub proof fn lemma_generations_advanced_trans(a: &Self, b: &Self, c: &Self)
        requires
            b.generations_advanced(a),
            c.generations_advanced(b),
        ensures
            c.generations_advanced(a),
    {
        assert forall|i: int| 0 <= i < a.generations@.len() implies a.generations@[i] <= #[trigger] c.generations@[i] by {
            assert(a.generations@[i] <= b.generations@[i]);
        }
    }

    pub closed spec fn spec_len(&self) -> nat {
        self.count as nat
    }

    pub closed spec fn spec_max_nodes(&self) -> nat {
        self.max_nodes as nat
    }

    pub closed spec fn spec_max_depth(&self) -> nat {
        self.max_depth as nat
    }

    /// Every slot, live or free, has an index below this.
    pub closed spec fn spec_slot_count(&self) -> nat {
        self.slots@.len()
    }

    /// The handle the next created node gets: the most recently freed slot
    /// at its current generation, or a new slot at generation 1.
    pub closed spec fn spec_next_id(&self) -> UiNodeId {
        if self.free@.len() > 0 {
            let i = self.free@.last();
            UiNodeId::spec_new(i, self.generations@[i as int])
        } else {
            UiNodeId::spec_new(self.slots@.len() as u32, 1)
        }
    }

    /// Creating a node would need a new slot.
    pub closed spec fn spec_needs_slot(&self) -> bool {
        self.free@.len() == 0
    }

    spec fn parent_ok(&self, i: int) -> bool {
        let n = self.node(i);
        &&& n.parent is Some
        &&& self.spec_contains(n.parent.unwrap())
        &&& self.depths@[i] == self.depths@[n.parent.unwrap().spec_index() as int] + 1
        &&& self.at(n.parent.unwrap()).children@.contains(n.id)
    }

    spec fn child_ok(&self, i: int, c: UiNodeId) -> bool {
        &&& self.spec_contains(c)
        &&& c.spec_index() != 0
        &&& self.at(c).parent == Some(self.node(i).id)
    }

    spec fn children_ok(&self, i: int) -> bool {
        &&& self.node(i).children@.no_duplicates()
        &&& forall|k: int|
            0 <= k < self.node(i).children@.len() ==> self.child_ok(i, #[trigger] self.node(i).children@[k])
    }

    spec fn free_ok(&self, f: u32) -> bool {
        f < self.slots@.len() && f != 0 && self.slots@[f as int] is None
    }

    /// The tree's invariant: every live node sits in the slot of its index
    /// at that slot's generation; the root is slot 0 at generation 1 and has
    /// no parent; every other live node has a live parent that lists it
    /// among its children and is one step closer to the root; every listed
    /// child is a live non-root node whose parent is the lister; free slots
    /// are empty and listed once.
    pub closed spec fn wf(&self) -> bool {
        let s = self.slots@;
        let g = self.generations@;
        let d = self.depths@;
        &&& s.len() == g.len() && s.len() == d.len()
        &&& 1 <= s.len() <= 0x1_0000_0000
        &&& self.root == UiNodeId::spec_new(0, 1)
        &&& g[0] == 1
        &&& self.occupied(0) && self.node(0).parent is None && self.node(0).id == self.root
        &&& d[0] == 0
        &&& forall|i: int| #[trigger] self.occupied(i) ==> self.node(i).id == UiNodeId::spec_new(i as u32, g[i])
        &&& forall|i: int| 0 < i && #[trigger] self.occupied(i) ==> self.parent_ok(i)
        &&& forall|i: int| #[trigger] self.occupied(i) ==> self.children_ok(i)
        &&& forall|i: int| 0 <= i < s.len() ==> #[trigger] d[i] < self.bound@
        &&& forall|k: int| 0 <= k < self.free@.len() ==> self.free_ok(#[trigger] self.free@[k])
        &&& self.free@.no_duplicates()
        &&& 1 <= self.count <= self.max_nodes
        &&& self.count == live_count(self.slots@)
        &&& self.max_depth >= 1
    }

    /// `self` and `other` hold the same live nodes with the same links,
    /// contents, rectangles and flags.
    pub closed spec fn same_nodes(&self, other: &Self) -> bool {
        &&& self.root == other.root
        &&& self.count == other.count
        &&& self.max_nodes == other.max_nodes
        &&& self.max_depth == other.max_depth
        &&& forall|id: UiNodeId| #[trigger] self.spec_contains(id) == other.spec_contains(id)
        &&& forall|id: UiNodeId| #[trigger] self.spec_contains(id) ==> self.same_node(other, id)
    }

    /// A tree holding only the root, whose content is `root`, for at most
    /// `max_nodes` nodes and depth below `max_depth`. Zero for either limit
    /// is `InvalidValue`.
    pub fn try_new(max_nodes: usize, max_depth: usize, root: C) -> (r: Result<Self, UiError>)
        ensures
            max_nodes == 0 || max_depth == 0 ==> r == Err::<Self, UiError>(UiError::InvalidValue),
            r == Err::<Self, UiError>(UiError::InvalidValue) ==> max_nodes == 0 || max_depth == 0,
            r matches Err(e) ==> e == UiError::InvalidValue || e == UiError::AllocationFailed,
            r matches Ok(t) ==> {
                &&& t.wf()
                &&& t.spec_len() == 1
                &&& t.spec_max_nodes() == max_nodes
                &&& t.spec_max_depth() == max_depth
                &&& t.spec_root() == UiNodeId::spec_new(0, 1)
                &&& t.spec_contains(t.spec_root())
                &&& t.spec_parent(t.spec_root()) is None
                &&& t.spec_children(t.spec_root()).len() == 0
                &&& t.spec_content(t.spec_root()) == root
                &&& t.spec_dirty(t.spec_root())
                &&& t.spec_rect(t.spec_root())@ == seq![0u32, 0, 0, 0]
                &&& forall|id: UiNodeId| #[trigger] t.spec_contains(id) ==> id == t.spec_root()
                &&& t.spec_next_id() == UiNodeId::spec_new(1, 1)
            },
    {
        if max_nodes == 0 || max_depth == 0 {
            return Err(UiError::InvalidValue);
        }
        let root_id = UiNodeId::new(0, 1);
        let root_node = UiNode {
            id: root_id,
            parent: None,
            children: Vec::new(),
            content: root,
            rect: [0u32; 4],
            dirty: true,
        };
        let mut slots: Vec<Option<UiNode<C>>> = Vec::new();
        let mut generations: Vec<u32> = Vec::new();
        if slots.try_reserve(max_nodes).is_err() {
            return Err(UiError::AllocationFailed);
        }
        if generations.try_reserve(max_nodes).is_err() {
            return Err(UiError::AllocationFailed);
        }
        slots.push(Some(root_node));
        generations.push(1);
        let ghost depths: Seq<nat> = seq![0nat];
        let t = UiTree {
            slots,
            generations,
            free: Vec::new(),
            root: root_id,
            count: 1,
            max_nodes,
            max_depth,
            depths: Ghost(depths),
            bound: Ghost(1nat),
        };
        proof {
            reveal_with_fuel(live_count, 2);
            assert(t.slots@.drop_last() =~= Seq::<Option<UiNode<C>>>::empty());
            assert(t.occupied(0));
            assert forall|i: int| #[trigger] t.occupied(i) implies t.children_ok(i) by {
                assert(i == 0);
            }
            assert forall|id: UiNodeId| #[trigger] t.spec_contains(id) implies id == t.spec_root() by {
                assert(id.spec_index() == 0);
            }
        }
        Ok(t)
    }

    pub fn root(&self) -> (r: UiNodeId)
        ensures
            r == self.spec_root(),
    {
        self.root
    }

    pub fn len(&self) -> (r: usize)
        ensures
            r == self.spec_len(),
    {
        self.count
    }

    /// Never true: the root always exists.
    pub fn is_empty(&self) -> (r: bool)
        requires
            self.wf(),
        ensures
            r == (self.spec_len() == 0),
            !r,
    {
        self.count == 0
    }

    pub fn max_nodes(&self) -> (r: usize)
        ensures
            r == self.spec_max_nodes(),
    {
        self.max_nodes
    }

    pub fn max_depth(&self) -> (r: usize)
        ensures
            r == self.spec_max_depth(),
    {
        self.max_depth
    }

    /// The slot of `id` when it holds the live node `id`.
    fn slot_of(&self, id: UiNodeId) -> (r: Option<usize>)
        requires
            self.wf(),
        ensures
            self.spec_contains(id) ==> r == Some(id.spec_index() as usize),
            !self.spec_contains(id) ==> r is None,
    {
        let index = id.index() as usize;
        if index >= self.slots.len() {
            return None;
        }
        match &self.slots[index] {
            Some(node) => {
                if node.id == id {
                    Some(index)
                } else {
                    None
                }
            },
            None => None,
        }
    }

    /// `id` names a live node: its slot is occupied at `id`'s generation.
    pub fn contains(&self, id: UiNodeId) -> (r: bool)
        requires
            self.wf(),
        ensures
            r == self.spec_contains(id),
    {
        let index = id.index() as usize;
        if index >= self.generations.len() || self.generations[index] != id.generation() {
            proof {
                if self.spec_contains(id) {
                    assert(self.occupied(index as int));
                }
            }
            return false;
        }
        let r = match &self.slots[index] {
            Some(_) => true,
            None => false,
        };
        proof {
            if r {
                assert(self.occupied(index as int));
                assert(self.node(index as int).id == UiNodeId::spec_new(index as u32, self.generations@[index as int]));
            }
        }
        r
    }

    pub fn content(&self, id: UiNodeId) -> (r: Result<&C, UiError>)
        requires
            self.wf(),
        ensures
            self.spec_contains(id) ==> r == Ok::<&C, UiError>(&self.spec_content(id)),
            !self.spec_contains(id) ==> r == Err::<&C, UiError>(UiError::InvalidNode),
    {
        match self.slot_of(id) {
            Some(index) => match &self.slots[index] {
                Some(node) => Ok(&node.content),
                None => Err(UiError::InvalidNode),
            },
            None => Err(UiError::InvalidNode),
        }
    }

    /// Mutable access to the content of `id`. Only that content can change
    /// through it: the links, rectangles and dirty flags stay as they are.
    pub fn content_mut(&mut self, id: UiNodeId) -> (r: Result<&mut C, UiError>)
        requires
            old(self).wf(),
        ensures
            final(self).generations_advanced(&*old(self)),
            !old(self).spec_contains(id) ==> r == Err::<&mut C, UiError>(UiError::InvalidNode)
                && *final(self) == *old(self),
            old(self).spec_contains(id) ==> r is Ok,
            old(self).spec_contains(id) ==> *r->Ok_0 == old(self).spec_content(id),
            old(self).spec_contains(id) ==> final(self).content_edited(&*old(self), id),
            old(self).spec_contains(id) ==> final(self).wf(),
            old(self).spec_contains(id) ==> final(self).same_shape(&*old(self)),
            old(self).spec_contains(id) ==> final(self).spec_content(id) == *final(r->Ok_0),
            old(self).spec_contains(id) ==> forall|x: UiNodeId|
                    #[trigger] old(self).spec_contains(x) ==> final(self).spec_rect(x) == old(self).spec_rect(x)
                        && final(self).spec_dirty(x) == old(self).spec_dirty(x)
                        && (x != id ==> final(self).spec_content(x) == old(self).spec_content(x)),
    {
        broadcast use lemma_content_edited;

        match self.slot_of(id) {
            Some(index) => {
                proof {
                    assert(self.occupied(index as int));
                }
                match &mut self.slots[index] {
                    Some(node) => Ok(&mut node.content),
                    None => Err(UiError::InvalidNode),
                }
            },
            None => Err(UiError::InvalidNode),
        }
    }

    /// `self` is `before` with at most the content of the live node `id`
    /// changed.
    pub closed spec fn content_edited(&self, before: &Self, id: UiNodeId) -> bool {
        let i = id.spec_index() as int;
        &&& before.wf()
        &&& before.spec_contains(id)
        &&& self.slots@.len() == before.slots@.len()
        &&& forall|j: int|
            0 <= j < before.slots@.len() && j != i ==> #[trigger] self.slots@[j] == before.slots@[j]
        &&& self.slots@[i] is Some
        &&& self.node(i).id == before.node(i).id
        &&& self.node(i).parent == before.node(i).parent
        &&& self.node(i).children@ == before.node(i).children@
        &&& self.node(i).rect == before.node(i).rect
        &&& self.node(i).dirty == before.node(i).dirty
        &&& self.generations@ == before.generations@
        &&& self.free@ == before.free@
        &&& self.root == before.root
        &&& self.count == before.count
        &&& self.max_nodes == before.max_nodes
        &&& self.max_depth == before.max_depth
        &&& self.depths@ == before.depths@
        &&& self.bound@ == before.bound@
    }

    pub fn parent(&self, id: UiNodeId) -> (r: Result<Option<UiNodeId>, UiError>)
        requires
            self.wf(),
        ensures
            self.spec_contains(id) ==> r == Ok::<Option<UiNodeId>, UiError>(self.spec_parent(id)),
            !self.spec_contains(id) ==> r == Err::<Option<UiNodeId>, UiError>(UiError::InvalidNode),
    {
        match self.slot_of(id) {
            Some(index) => match &self.slots[index] {
                Some(node) => Ok(node.parent),
                None => Err(UiError::InvalidNode),
            },
            None => Err(UiError::InvalidNode),
        }
    }

    pub fn children(&self, id: UiNodeId) -> (r: Result<&[UiNodeId], UiError>)
        requires
            self.wf(),
        ensures
            self.spec_contains(id) ==> (r matches Ok(c) && c@ == self.spec_children(id)),
            !self.spec_contains(id) ==> r == Err::<&[UiNodeId], UiError>(UiError::InvalidNode),
    {
        match self.slot_of(id) {
            Some(index) => match &self.slots[index] {
                Some(node) => Ok(node.children.as_slice()),
                None => Err(UiError::InvalidNode),
            },
            None => Err(UiError::InvalidNode),
        }
    }

    /// The layout rectangle of `id`, as `f32` bit patterns.
    pub fn rect(&self, id: UiNodeId) -> (r: Result<[u32; 4], UiError>)
        requires
            self.wf(),
        ensures
            self.spec_contains(id) ==> r == Ok::<[u32; 4], UiError>(self.spec_rect(id)),
            !self.spec_contains(id) ==> r == Err::<[u32; 4], UiError>(UiError::InvalidNode),
    {
        match self.slot_of(id) {
            Some(index) => match &self.slots[index] {
                Some(node) => Ok(node.rect),
                None => Err(UiError::InvalidNode),
            },
            None => Err(UiError::InvalidNode),
        }
    }

    pub fn is_dirty(&self, id: UiNodeId) -> (r: Result<bool, UiError>)
        requires
            self.wf(),
        ensures
            self.spec_contains(id) ==> r == Ok::<bool, UiError>(self.spec_dirty(id)),
            !self.spec_contains(id) ==> r == Err::<bool, UiError>(UiError::InvalidNode),
    {
        match self.slot_of(id) {
            Some(index) => match &self.slots[index] {
                Some(node) => Ok(node.dirty),
                None => Err(UiError::InvalidNode),
            },
            None => Err(UiError::InvalidNode),
        }
    }

    /// `x` is the same node in `self` and `other`: same links, content,
    /// rectangle, flag and depth.
    pub closed spec fn same_node(&self, other: &Self, x: UiNodeId) -> bool {
        node_eq(self.at(x), other.at(x)) && self.spec_depth(x) == other.spec_depth(x)
    }

    /// `x` is the same node in `self` and `other` except, perhaps, for its
    /// children.
    pub closed spec fn same_node_but_children(&self, other: &Self, x: UiNodeId) -> bool {
        &&& self.at(x).id == other.at(x).id
        &&& self.at(x).parent == other.at(x).parent
        &&& self.at(x).content == other.at(x).content
        &&& self.at(x).rect == other.at(x).rect
        &&& self.at(x).dirty == other.at(x).dirty
        &&& self.spec_depth(x) == other.spec_depth(x)
    }

    /// `self` and `other` hold the same live nodes with the same links and
    /// depths (contents, rectangles and flags may differ).
    pub closed spec fn same_shape(&self, other: &Self) -> bool {
        &&& self.root == other.root
        &&& self.count == other.count
        &&& self.max_nodes == other.max_nodes
        &&& self.max_depth == other.max_depth
        &&& self.spec_next_id() == other.spec_next_id()
        &&& self.spec_slot_count() == other.spec_slot_count()
        &&& forall|x: UiNodeId| #[trigger] self.spec_contains(x) == other.spec_contains(x)
        &&& forall|x: UiNodeId|
            #[trigger] other.spec_contains(x) ==> self.at(x).parent == other.at(x).parent && self.at(x).children@
                == other.at(x).children@ && self.spec_depth(x) == other.spec_depth(x)
    }

    /// Number of live nodes awaiting layout.
    pub fn dirty_count(&self) -> (r: usize)
        ensures
            r == self.spec_dirty_count(),
    {
        let mut count: usize = 0;
        let mut k: usize = 0;
        while k < self.slots.len()
            invariant
                k <= self.slots@.len(),
                count == dirty_in(self.slots@.take(k as int)),
                count <= k,
            decreases self.slots@.len() - k,
        {
            proof {
                assert(self.slots@.take(k as int + 1).drop_last() =~= self.slots@.take(k as int));
            }
            let dirty = match &self.slots[k] {
                Some(node) => node.dirty,
                None => false,
            };
            if dirty {
                count = count + 1;
            }
            k = k + 1;
        }
        proof {
            assert(self.slots@.take(self.slots@.len() as int) =~= self.slots@);
        }
        count
    }

    /// Distance of `id` from the root, refused once it reaches `max_depth`.
    fn depth(&self, id: UiNodeId) -> (r: Result<usize, UiError>)
        requires
            self.wf(),
            self.spec_contains(id),
        ensures
            self.spec_depth(id) < self.spec_max_depth() ==> r == Ok::<usize, UiError>(
                self.spec_depth(id) as usize,
            ),
            self.spec_depth(id) >= self.spec_max_depth() ==> r == Err::<usize, UiError>(
                UiError::DepthExceeded,
            ),
    {
        let mut depth: usize = 0;
        let mut cur = id;
        loop
            invariant_except_break
                self.spec_contains(cur),
                depth + self.spec_depth(cur) == self.spec_depth(id),
                depth < self.max_depth,
            invariant
                self.wf(),
                self.spec_contains(id),
            ensures
                self.spec_depth(id) < self.spec_max_depth() ==> depth == self.spec_depth(id),
                self.spec_depth(id) >= self.spec_max_depth() ==> depth >= self.max_depth,
            decreases self.spec_depth(cur),
        {
            let index = cur.index() as usize;
            proof {
                assert(self.occupied(index as int));
            }
            let parent = match &self.slots[index] {
                Some(node) => node.parent,
                None => None,
            };
            match parent {
                None => {
                    proof {
                        if index != 0 {
                            assert(self.parent_ok(index as int));
                        }
                    }
                    break;
                },
                Some(p) => {
                    proof {
                        assert(index != 0);
                        assert(self.parent_ok(index as int));
                    }
                    depth = depth + 1;
                    if depth >= self.max_depth {
                        break;
                    }
                    cur = p;
                },
            }
        }
        if depth >= self.max_depth {
            Err(UiError::DepthExceeded)
        } else {
            Ok(depth)
        }
    }

    /// Replaces what live node `i` holds, keeping its links.
    fn set_payload(&mut self, i: usize, content: Option<C>, rect: Option<[u32; 4]>, dirty: bool)
        requires
            old(self).wf(),
            old(self).occupied(i as int),
        ensures
            final(self).slots@.len() == old(self).slots@.len(),
            forall|j: int| 0 <= j < old(self).slots@.len() && j != i ==> #[trigger] final(self).slots@[j] == old(self).slots@[j],
            final(self).slots@[i as int] is Some,
            final(self).node(i as int).id == old(self).node(i as int).id,
            final(self).node(i as int).parent == old(self).node(i as int).parent,
            final(self).node(i as int).children@ == old(self).node(i as int).children@,
            final(self).node(i as int).content == match content {
                Some(c) => c,
                None => old(self).node(i as int).content,
            },
            final(self).node(i as int).rect == match rect {
                Some(r) => r,
                None => old(self).node(i as int).rect,
            },
            final(self).node(i as int).dirty == dirty,
            final(self).generations@ == old(self).generations@,
            final(self).free@ == old(self).free@,
            final(self).root == old(self).root,
            final(self).count == old(self).count,
            final(self).max_nodes == old(self).max_nodes,
            final(self).max_depth == old(self).max_depth,
            final(self).depths@ == old(self).depths@,
            final(self).bound@ == old(self).bound@,
    {
        let mut node = match self.slots[i].take() {
            Some(n) => n,
            None => {
                proof {
                    assert(false);
                }
                return;
            },
        };
        match content {
            Some(c) => {
                node.content = c;
            },
            None => {},
        }
        match rect {
            Some(r) => {
                node.rect = r;
            },
            None => {},
        }
        node.dirty = dirty;
        self.slots.set(i, Some(node));
    }

    /// Marks `id` and every node above it dirty.
    fn mark_ancestors_dirty(&mut self, id: UiNodeId)
        requires
            old(self).wf(),
            old(self).spec_contains(id),
        ensures
            final(self).wf(),
            final(self).same_shape(&*old(self)),
            final(self).generations@ == old(self).generations@,
            forall|x: UiNodeId|
                #[trigger] old(self).spec_contains(x) ==> final(self).spec_content(x) == old(self).spec_content(x)
                    && final(self).spec_rect(x) == old(self).spec_rect(x) && final(self).spec_dirty(x) == (
                old(self).spec_dirty(x) || old(self).spec_on_root_path(x, id)),
    {
        let ghost t0 = *self;
        let mut cur = id;
        let ghost mut steps: nat = 0;
        proof {
            lemma_ancestor_live(t0, id, 0);
        }
        loop
            invariant_except_break
                t0.spec_contains(cur),
                cur == t0.spec_ancestor(id, steps),
                steps + t0.spec_depth(cur) == t0.spec_depth(id),
                forall|x: UiNodeId|
                    #[trigger] t0.spec_contains(x) ==> self.spec_dirty(x) == (t0.spec_dirty(x) || exists|j: nat|
                        j < steps && #[trigger] t0.spec_ancestor(id, j) == x),
            invariant
                t0 == *old(self),
                t0.wf(),
                t0.spec_contains(id),
                self.wf(),
                self.same_shape(&t0),
                self.generations@ == t0.generations@,
                forall|x: UiNodeId|
                    #[trigger] t0.spec_contains(x) ==> self.spec_content(x) == t0.spec_content(x)
                        && self.spec_rect(x) == t0.spec_rect(x),
            ensures
                forall|x: UiNodeId|
                    #[trigger] t0.spec_contains(x) ==> self.spec_dirty(x) == (t0.spec_dirty(x)
                        || t0.spec_on_root_path(x, id)),
            decreases t0.spec_depth(cur),
        {
            let i = cur.index() as usize;
            let ghost t1 = *self;
            proof {
                assert(t1.spec_contains(cur));
                assert(t1.occupied(i as int));
            }
            let parent = match &self.slots[i] {
                Some(n) => n.parent,
                None => None,
            };
            self.set_payload(i, None, None, true);
            proof {
                lemma_mark_step(t0, t1, *self, id, cur, steps);
                lemma_ancestor_step(t0, id, steps);
                assert(t0.at(cur).parent == parent);
            }
            match parent {
                None => {
                    proof {
                        if i != 0 {
                            assert(t0.occupied(i as int));
                            assert(t0.parent_ok(i as int));
                        }
                        assert(t0.occupied(0));
                        assert(t0.spec_depth(cur) == 0);
                        lemma_mark_done(t0, *self, id, steps);
                    }
                    break;
                },
                Some(p) => {
                    proof {
                        assert(i != 0) by {
                            assert(t0.occupied(0));
                        }
                        assert(t0.occupied(i as int));
                        assert(t0.parent_ok(i as int));
                        steps = steps + 1;
                    }
                    cur = p;
                },
            }
        }
    }

    /// Replaces the content of `id` and marks it and its ancestors dirty.
    /// The caller has validated the content.
    pub fn set_content(&mut self, id: UiNodeId, content: C) -> (r: Result<(), UiError>)
        requires
            old(self).wf(),
        ensures
            final(self).generations_advanced(&*old(self)),
            final(self).wf(),
            !old(self).spec_contains(id) ==> r == Err::<(), UiError>(UiError::InvalidNode)
                && final(self).same_nodes(&*old(self)),
            old(self).spec_contains(id) ==> {
                &&& r is Ok
                &&& final(self).same_shape(&*old(self))
                &&& final(self).spec_content(id) == content
                &&& forall|x: UiNodeId|
                    #[trigger] old(self).spec_contains(x) ==> final(self).spec_rect(x) == old(self).spec_rect(x)
                        && (x != id ==> final(self).spec_content(x) == old(self).spec_content(x))
                        && final(self).spec_dirty(x) == (old(self).spec_dirty(x) || old(self).spec_on_root_path(x, id))
            },
    {
        let i = match self.slot_of(id) {
            Some(i) => i,
            None => {
                proof {
                    lemma_same_state(*self, *self);
                }
                return Err(UiError::InvalidNode);
            },
        };
        let ghost t0 = *self;
        proof {
            assert(self.occupied(i as int));
        }
        let dirty = match &self.slots[i] {
            Some(n) => n.dirty,
            None => false,
        };
        self.set_payload(i, Some(content), None, dirty);
        let ghost t1 = *self;
        proof {
            lemma_payload(t0, t1, i as int);
            assert forall|x: UiNodeId| #[trigger] t0.spec_contains(x) implies t1.at(x).parent == t0.at(x).parent by {}
            assert forall|x: UiNodeId, k: nat| #[trigger] t1.spec_ancestor(x, k) == t0.spec_ancestor(x, k)
                || !t0.spec_contains(x) by {
                if t0.spec_contains(x) {
                    lemma_ancestor_same(t0, t1, x, k);
                }
            }
        }
        proof {
            assert(t1.same_shape(&t0));
            assert(t1.spec_dirty(id) == t0.spec_dirty(id));
            assert(t1.spec_content(id) == content);
        }
        self.mark_ancestors_dirty(id);
        proof {
            assert(self.same_shape(&t0)) by {
                assert forall|x: UiNodeId| #[trigger] self.spec_contains(x) == t0.spec_contains(x) by {
                    assert(t1.spec_contains(x) == t0.spec_contains(x));
                }
                assert forall|x: UiNodeId| #[trigger] t0.spec_contains(x) implies self.at(x).parent == t0.at(x).parent
                    && self.at(x).children@ == t0.at(x).children@ && self.spec_depth(x) == t0.spec_depth(x) by {
                    assert(t1.spec_contains(x));
                }
            }
            assert forall|x: UiNodeId| #[trigger] t0.spec_contains(x) implies t1.spec_on_root_path(x, id)
                == t0.spec_on_root_path(x, id) by {
                if t0.spec_on_root_path(x, id) {
                    let k = choose|k: nat| k <= t0.spec_depth(id) && #[trigger] t0.spec_ancestor(id, k) == x;
                    lemma_ancestor_same(t0, t1, id, k);
                }
                if t1.spec_on_root_path(x, id) {
                    let k = choose|k: nat| k <= t1.spec_depth(id) && #[trigger] t1.spec_ancestor(id, k) == x;
                    lemma_ancestor_same(t0, t1, id, k);
                }
            }
            assert forall|x: UiNodeId| #[trigger] t0.spec_contains(x) && x != id implies t1.spec_content(x)
                == t0.spec_content(x) by {
                assert(x.spec_index() != i) by {
                    assert(t0.at(x).id == x);
                    assert(t0.at(id).id == id);
                }
                assert(t1.same_node(&t0, x));
            }
            assert(t1.spec_contains(id));
            assert(self.spec_content(id) == content);
            assert forall|x: UiNodeId| #[trigger] t0.spec_contains(x) implies self.spec_rect(x) == t0.spec_rect(x) by {
                assert(t1.spec_contains(x));
                if x != id {
                    assert(t1.same_node(&t0, x));
                }
            }
            assert forall|x: UiNodeId| #[trigger] t0.spec_contains(x) implies self.spec_dirty(x) == (t0.spec_dirty(x)
                || t0.spec_on_root_path(x, id)) by {
                assert(t1.spec_contains(x));
                assert(self.spec_dirty(x) == (t1.spec_dirty(x) || t1.spec_on_root_path(x, id)));
                if x != id {
                    assert(t1.same_node(&t0, x));
                }
            }
            assert forall|x: UiNodeId| #[trigger] t0.spec_contains(x) && x != id implies self.spec_content(x)
                == t0.spec_content(x) by {
                assert(t1.spec_contains(x));
                assert(t1.spec_content(x) == t0.spec_content(x));
            }
        }
        Ok(())
    }

    /// Stores the laid-out rectangle of `id` (as `f32` bit patterns) and
    /// marks it clean. The caller has validated the rectangle.
    pub fn set_rect(&mut self, id: UiNodeId, rect: [u32; 4]) -> (r: Result<(), UiError>)
        requires
            old(self).wf(),
        ensures
            final(self).generations_advanced(&*old(self)),
            final(self).wf(),
            !old(self).spec_contains(id) ==> r == Err::<(), UiError>(UiError::InvalidNode)
                && final(self).same_nodes(&*old(self)),
            old(self).spec_contains(id) ==> {
                &&& r is Ok
                &&& final(self).same_shape(&*old(self))
                &&& final(self).spec_rect(id) == rect
                &&& !final(self).spec_dirty(id)
                &&& final(self).spec_content(id) == old(self).spec_content(id)
                &&& forall|x: UiNodeId| #[trigger] old(self).spec_contains(x) && x != id ==> final(self).same_node(&*old(self), x)
            },
    {
        let i = match self.slot_of(id) {
            Some(i) => i,
            None => {
                proof {
                    lemma_same_state(*self, *self);
                }
                return Err(UiError::InvalidNode);
            },
        };
        let ghost t0 = *self;
        proof {
            assert(self.occupied(i as int));
        }
        self.set_payload(i, None, Some(rect), false);
        proof {
            lemma_payload(t0, *self, i as int);
            assert forall|x: UiNodeId| #[trigger] t0.spec_contains(x) && x != id implies self.same_node(&t0, x) by {
                assert(x.spec_index() != i) by {
                    assert(t0.at(x).id == x);
                    assert(t0.at(id).id == id);
                }
            }
        }
        Ok(())
    }

    /// Preorder from the root lists every live node exactly once: the
    /// order `preorder` fills holds each live handle once and nothing else.
    pub proof fn lemma_preorder_lists_every_node_once(&self)
        requires
            self.wf(),
        ensures
            self.spec_subtree_order(self.spec_root()).no_duplicates(),
            forall|y: UiNodeId| #[trigger] self.spec_subtree_order(self.spec_root()).contains(y)
                <==> self.spec_contains(y),
    {
        assert(self.occupied(0));
        lemma_subtree_distinct(*self, self.root);
        lemma_subtree_members(*self, self.root);
        assert forall|y: UiNodeId| #[trigger] self.spec_contains(y) implies self.spec_on_root_path(self.root, y) by {
            lemma_ancestor_live(*self, y, self.spec_depth(y));
            assert(self.spec_ancestor(y, self.spec_depth(y)) == self.root);
        }
    }

    /// Appends the subtree of `id` to `out` in depth-first preorder. A
    /// handle that names no live node is appended and refused.
    fn collect_subtree(&self, id: UiNodeId, out: &mut Vec<UiNodeId>) -> (r: Result<(), UiError>)
        requires
            self.wf(),
        ensures
            !self.spec_contains(id) ==> r == Err::<(), UiError>(UiError::InvalidNode) && final(out)@
                == old(out)@.push(id),
            self.spec_contains(id) ==> r is Ok && final(out)@ == old(out)@ + self.spec_subtree_order(id),
        decreases (if self.spec_contains(id) {
            self.bound@ - self.spec_depth(id)
        } else {
            0
        }),
    {
        out.push(id);
        let children = match self.children(id) {
            Ok(c) => c,
            Err(e) => return Err(e),
        };
        let ghost fuel: nat = (self.bound@ - self.spec_depth(id)) as nat;
        proof {
            let i = id.spec_index() as int;
            assert(self.occupied(i));
            assert(self.depths@[i] < self.bound@);
            assert(fuel > 0);
            assert(self.spec_subtree_order(id) == seq![id] + self.pre_list(children@, (fuel - 1) as nat));
        }
        let mut k: usize = 0;
        while k < children.len()
            invariant
                self.wf(),
                self.spec_contains(id),
                fuel == self.bound@ - self.spec_depth(id),
                fuel > 0,
                children@ == self.spec_children(id),
                k <= children@.len(),
                out@ == old(out)@.push(id) + self.pre_list(children@.take(k as int), (fuel - 1) as nat),
            decreases children@.len() - k,
        {
            let child = children[k];
            proof {
                let i = id.spec_index() as int;
                assert(self.occupied(i));
                assert(self.children_ok(i));
                assert(self.child_ok(i, children@[k as int]));
                assert(self.parent_ok(child.spec_index() as int)) by {
                    assert(self.occupied(child.spec_index() as int));
                }
                assert(self.spec_depth(child) == self.spec_depth(id) + 1);
            }
            let ghost before = out@;
            match self.collect_subtree(child, out) {
                Ok(()) => {},
                Err(e) => return Err(e),
            }
            proof {
                let taken = children@.take(k as int + 1);
                assert(taken.drop_last() =~= children@.take(k as int));
                assert(taken.last() == child);
                assert(self.spec_subtree_order(child) == self.pre_fuel(child, (fuel - 1) as nat));
                assert(out@ =~= old(out)@.push(id) + self.pre_list(taken, (fuel - 1) as nat));
            }
            k = k + 1;
        }
        proof {
            assert(children@.take(children@.len() as int) =~= children@);
            assert(out@ =~= old(out)@ + self.spec_subtree_order(id));
        }
        Ok(())
    }

    /// Fills `output` with every live node in depth-first preorder from the
    /// root. A failed allocation is `AllocationFailed`.
    pub fn preorder(&self, output: &mut Vec<UiNodeId>) -> (r: Result<(), UiError>)
        requires
            self.wf(),
        ensures
            r is Ok ==> final(output)@ == self.spec_subtree_order(self.spec_root()),
            r matches Err(e) ==> e == UiError::AllocationFailed,
    {
        output.clear();
        if output.try_reserve(self.count).is_err() {
            return Err(UiError::AllocationFailed);
        }
        let root = self.root;
        proof {
            assert(self.occupied(0));
        }
        match self.collect_subtree(root, output) {
            Ok(()) => {
                Ok(())
            },
            Err(e) => Err(e),
        }
    }

    /// Removes `id` and its whole subtree. The root cannot be removed and a
    /// dead handle names nothing (`InvalidNode`); a slot whose generation
    /// cannot advance refuses the removal (`IndexOverflow`) before anything
    /// changes. Removed slots advance their generation, so every handle to
    /// a removed node goes stale, and are freed in reverse preorder (the
    /// slot of `id` is reused first). A failed allocation changes nothing.
    pub fn destroy(&mut self, id: UiNodeId) -> (r: Result<(), UiError>)
        requires
            old(self).wf(),
        ensures
            final(self).generations_advanced(&*old(self)),
            r is Ok ==> final(self).spec_retired(id),
            r is Ok ==> forall|x: UiNodeId| #[trigger] old(self).spec_subtree_order(id).contains(x) ==> final(self).spec_retired(x),
            final(self).wf(),
            final(self).spec_root() == old(self).spec_root(),
            final(self).spec_max_nodes() == old(self).spec_max_nodes(),
            final(self).spec_max_depth() == old(self).spec_max_depth(),
            id == old(self).spec_root() ==> r == Err::<(), UiError>(UiError::InvalidNode),
            id != old(self).spec_root() && !old(self).spec_contains(id) ==> r == Err::<(), UiError>(
                UiError::InvalidNode,
            ) || r == Err::<(), UiError>(UiError::AllocationFailed),
            old(self).spec_contains(id) && (exists|k: int|
                0 <= k < old(self).spec_subtree_order(id).len()
                    && (#[trigger] old(self).spec_subtree_order(id)[k]).spec_generation() == u32::MAX)
                ==> r is Err,
            r matches Err(e) ==> final(self).same_nodes(&*old(self)) && (e == UiError::InvalidNode || e
                == UiError::AllocationFailed || e == UiError::IndexOverflow),
            r is Ok ==> {
                let parent = old(self).spec_parent(id).unwrap();
                let removed = old(self).spec_subtree_order(id);
                &&& id != old(self).spec_root()
                &&& old(self).spec_contains(id)
                &&& old(self).spec_parent(id) is Some
                &&& forall|x: UiNodeId| #[trigger] final(self).spec_contains(x) == (old(self).spec_contains(x)
                    && !removed.contains(x))
                &&& final(self).spec_children(parent) == old(self).spec_children(parent).filter(
                    |c: UiNodeId| c != id,
                )
                &&& final(self).same_node_but_children(&*old(self), parent)
                &&& forall|x: UiNodeId| #[trigger] final(self).spec_contains(x) && x != parent
                    ==> final(self).same_node(&*old(self), x)
                &&& final(self).spec_len() == old(self).spec_len() - removed.len()
                &&& final(self).spec_next_id() == UiNodeId::spec_new(
                    id.spec_index(),
                    (id.spec_generation() + 1) as u32,
                )
            },
    {
        if id == self.root {
            proof {
                lemma_same_state(*self, *self);
            }
            return Err(UiError::InvalidNode);
        }
        let ghost t0 = *self;
        let mut order: Vec<UiNodeId> = Vec::new();
        if order.try_reserve(self.max_depth).is_err() {
            proof {
                lemma_same_state(t0, *self);
            }
            return Err(UiError::AllocationFailed);
        }
        match self.collect_subtree(id, &mut order) {
            Ok(()) => {},
            Err(e) => {
                proof {
                    lemma_same_state(t0, *self);
                }
                return Err(e);
            },
        }
        proof {
            assert(order@ =~= t0.spec_subtree_order(id));
        }
        if self.free.try_reserve(order.len()).is_err() {
            proof {
                lemma_same_state(t0, *self);
            }
            return Err(UiError::AllocationFailed);
        }
        proof {
            lemma_same_state(t0, *self);
            lemma_subtree_members(t0, id);
            lemma_subtree_distinct(t0, id);
        }
        let ghost t1 = *self;
        let mut k: usize = 0;
        while k < order.len()
            invariant
                *self == t1,
                t0 == *old(self),
                id != t0.root,
                t1.same_state(&t0),
                t0.wf(),
                t0.spec_contains(id),
                order@ == t0.spec_subtree_order(id),
                forall|y: UiNodeId| #[trigger] order@.contains(y) ==> t0.spec_contains(y),
                k <= order@.len(),
                forall|m: int| 0 <= m < k ==> (#[trigger] order@[m]).spec_generation() < u32::MAX,
            decreases order@.len() - k,
        {
            let current = order[k];
            proof {
                assert(order@.contains(current));
                assert(t0.occupied(current.spec_index() as int));
            }
            if self.generations[current.index() as usize] == u32::MAX {
                proof {
                    lemma_same_state(t0, *self);
                }
                return Err(UiError::IndexOverflow);
            }
            k = k + 1;
        }
        let parent = match self.parent(id) {
            Ok(Some(p)) => p,
            _ => {
                proof {
                    assert(false) by {
                        let i = id.spec_index() as int;
                        assert(t0.occupied(i));
                        assert(i != 0) by {
                            assert(t0.occupied(0));
                        }
                        assert(t0.parent_ok(i));
                    }
                }
                return Err(UiError::InvalidNode);
            },
        };
        let pidx = parent.index() as usize;
        proof {
            let i = id.spec_index() as int;
            assert(t0.occupied(i));
            assert(i != 0) by {
                assert(t0.occupied(0));
            }
            assert(t0.parent_ok(i));
            assert(t0.occupied(pidx as int));
        }
        let mut pnode = match self.slots[pidx].take() {
            Some(n) => n,
            None => {
                proof {
                    assert(false);
                }
                return Err(UiError::InvalidNode);
            },
        };
        let ghost before_children = pnode.children@;
        let kept = without_child(&pnode.children, id);
        pnode.children = kept;
        self.slots.set(pidx, Some(pnode));
        let ghost t2 = *self;
        proof {
            assert(before_children == t1.node(pidx as int).children@);
            assert(t1.occupied(pidx as int));
            assert(t1.children_ok(pidx as int)) by {
                lemma_same_state(t0, t1);
                assert(t1.wf());
            }
        }
        let ghost removed = order@;
        proof {
            lemma_live_count_update(t1.slots@, pidx as int, self.slots@[pidx as int]);
            assert(self.slots@ =~= t1.slots@.update(pidx as int, self.slots@[pidx as int]));
            assert(t1.count == live_count(t1.slots@)) by {
                lemma_same_state(t0, t1);
            }
            assert(self.free@ =~= t2.free@ + freed_from(removed, order@.len() as int));
        }
        let mut j: usize = order.len();
        while j > 0
            invariant
                t0.wf(),
                t0.spec_contains(id),
                t1.same_state(&t0),
                removed == order@,
                removed == t0.spec_subtree_order(id),
                removed.no_duplicates(),
                forall|y: UiNodeId| #[trigger] removed.contains(y) ==> t0.spec_contains(y),
                forall|m: int| 0 <= m < removed.len() ==> (#[trigger] removed[m]).spec_generation() < u32::MAX,
                j <= removed.len(),
                self.slots@.len() == t2.slots@.len(),
                self.generations@.len() == t2.generations@.len(),
                forall|i: int|
                    0 <= i < t2.slots@.len() ==> #[trigger] self.slots@[i] == if removed_from(removed, j as int, i) {
                        None
                    } else {
                        t2.slots@[i]
                    },
                forall|i: int|
                    0 <= i < t2.generations@.len() ==> #[trigger] self.generations@[i] == if removed_from(
                        removed,
                        j as int,
                        i,
                    ) {
                        (t2.generations@[i] + 1) as u32
                    } else {
                        t2.generations@[i]
                    },
                self.free@ == t2.free@ + freed_from(removed, j as int),
                self.count == live_count(self.slots@),
                self.count + (removed.len() - j) == t2.count,
                self.root == t2.root,
                self.max_nodes == t2.max_nodes,
                self.max_depth == t2.max_depth,
                self.depths@ == t2.depths@,
                self.bound@ == t2.bound@,
                t2.slots@.len() == t0.slots@.len(),
                t2.generations@ == t0.generations@,
                t2.free@ == t0.free@,
                t2.count == t0.count,
                forall|i: int| 0 <= i < t0.slots@.len() && i != pidx ==> #[trigger] t2.slots@[i] == t1.slots@[i],
                0 <= pidx < t0.slots@.len(),
                t2.slots@[pidx as int] is Some,
            decreases j,
        {
            j = j - 1;
            let current = order[j];
            let index = current.index() as usize;
            let ghost s0 = self.slots@;
            proof {
                lemma_removed_step(t0, t1, t2, removed, j as int, id, pidx as int);
                assert(self.slots@[index as int] is Some);
                assert(self.generations@[index as int] < u32::MAX);
            }
            self.slots.set(index, None);
            let g = self.generations[index];
            self.generations.set(index, g + 1);
            self.free.push(current.index());
            proof {
                lemma_live_count_update(s0, index as int, None);
                assert(self.count >= 1);
            }
            self.count = self.count - 1;
            proof {
                lemma_removed_after(removed, j as int);
                assert forall|i: int|
                    0 <= i < t2.slots@.len() implies #[trigger] self.slots@[i] == if removed_from(removed, j as int, i) {
                        None
                    } else {
                        t2.slots@[i]
                    } by {
                    if i != index {
                        assert(removed_from(removed, j as int, i) == removed_from(removed, j as int + 1, i));
                    }
                }
                assert forall|i: int|
                    0 <= i < t2.generations@.len() implies #[trigger] self.generations@[i] == if removed_from(
                        removed,
                        j as int,
                        i,
                    ) {
                        (t2.generations@[i] + 1) as u32
                    } else {
                        t2.generations@[i]
                    } by {
                    if i != index {
                        assert(removed_from(removed, j as int, i) == removed_from(removed, j as int + 1, i));
                    }
                }
                assert(self.free@ =~= t2.free@ + freed_from(removed, j as int));
            }
        }
        proof {
            lemma_destroy_wf(t0, t1, t2, *self, id, parent, removed);
            assert forall|i: int| 0 <= i < t0.generations@.len() implies t0.generations@[i]
                <= #[trigger] self.generations@[i] by {
                if removed_from(removed, 0, i) {
                    let m = choose|m: int| 0 <= m < removed.len() && #[trigger] removed[m].spec_index() == i;
                    assert(removed.contains(removed[m]));
                    assert(t0.spec_contains(removed[m]));
                    assert(t0.occupied(i));
                }
            }
        }
        Ok(())
    }

    /// Moves `id` (with its subtree) to the end of `new_parent`'s children
    /// and marks it and its new ancestors dirty. The root cannot move and
    /// the new parent must be live (`InvalidParent`); it must not lie in the
    /// moved subtree (`Cycle`), and the moved node must stay below the depth
    /// limit (`DepthExceeded`); a dead `id` is `InvalidNode`. A failed
    /// allocation changes nothing.
    #[verifier::rlimit(100)]
    pub fn reparent(&mut self, id: UiNodeId, new_parent: UiNodeId) -> (r: Result<(), UiError>)
        requires
            old(self).wf(),
        ensures
            final(self).generations_advanced(&*old(self)),
            final(self).wf(),
            id == old(self).spec_root() || !old(self).spec_contains(new_parent) ==> r == Err::<(), UiError>(
                UiError::InvalidParent,
            ),
            id != old(self).spec_root() && old(self).spec_contains(new_parent) && old(self).spec_on_root_path(
                id,
                new_parent,
            ) ==> r == Err::<(), UiError>(UiError::Cycle),
            id != old(self).spec_root() && old(self).spec_contains(new_parent) && !old(self).spec_on_root_path(
                id,
                new_parent,
            ) && old(self).spec_depth(new_parent) + 1 >= old(self).spec_max_depth() ==> r == Err::<
                (),
                UiError,
            >(UiError::DepthExceeded),
            id != old(self).spec_root() && old(self).spec_contains(new_parent) && !old(self).spec_on_root_path(
                id,
                new_parent,
            ) && old(self).spec_depth(new_parent) + 1 < old(self).spec_max_depth() && !old(self).spec_contains(
                id,
            ) ==> r == Err::<(), UiError>(UiError::InvalidNode),
            r matches Err(e) ==> final(self).same_nodes(&*old(self)) && (e == UiError::InvalidParent || e
                == UiError::Cycle || e == UiError::DepthExceeded || e == UiError::InvalidNode || e
                == UiError::AllocationFailed),
            r is Ok ==> {
                let op = old(self).spec_parent(id).unwrap();
                &&& id != old(self).spec_root()
                &&& old(self).spec_contains(id)
                &&& old(self).spec_contains(new_parent)
                &&& !old(self).spec_on_root_path(id, new_parent)
                &&& old(self).spec_depth(new_parent) + 1 < old(self).spec_max_depth()
                &&& old(self).spec_parent(id) is Some
                &&& forall|x: UiNodeId| #[trigger] final(self).spec_contains(x) == old(self).spec_contains(x)
                &&& final(self).spec_parent(id) == Some(new_parent)
                &&& final(self).spec_children(new_parent) == (if op == new_parent {
                    old(self).spec_children(op).filter(|c: UiNodeId| c != id)
                } else {
                    old(self).spec_children(new_parent)
                }).push(id)
                &&& op != new_parent ==> final(self).spec_children(op) == old(self).spec_children(op).filter(
                    |c: UiNodeId| c != id,
                )
                &&& forall|x: UiNodeId|
                    #[trigger] old(self).spec_contains(x) ==> {
                        &&& final(self).spec_content(x) == old(self).spec_content(x)
                        &&& final(self).spec_rect(x) == old(self).spec_rect(x)
                        &&& final(self).spec_dirty(x) == (old(self).spec_dirty(x) || final(self).spec_on_root_path(
                            x,
                            id,
                        ))
                        &&& x != id ==> final(self).spec_parent(x) == old(self).spec_parent(x)
                        &&& x != op && x != new_parent ==> final(self).spec_children(x) == old(
                            self,
                        ).spec_children(x)
                        &&& final(self).spec_depth(x) == if old(self).spec_on_root_path(id, x) {
                            old(self).spec_depth(x) - old(self).spec_depth(id) + old(self).spec_depth(new_parent)
                                + 1
                        } else {
                            old(self).spec_depth(x) as int
                        }
                    }
            },
    {
        if id == self.root || !self.contains(new_parent) {
            proof {
                lemma_same_state(*self, *self);
            }
            return Err(UiError::InvalidParent);
        }
        let ghost t0 = *self;
        let mut cursor = new_parent;
        let ghost mut k: nat = 0;
        proof {
            lemma_ancestor_live(t0, new_parent, 0);
        }
        loop
            invariant_except_break
                t0.spec_contains(cursor),
                cursor == t0.spec_ancestor(new_parent, k),
                k + t0.spec_depth(cursor) == t0.spec_depth(new_parent),
                forall|j: nat| j < k ==> #[trigger] t0.spec_ancestor(new_parent, j) != id,
            invariant
                *self == t0,
                t0 == *old(self),
                id != t0.root,
                t0.wf(),
                t0.spec_contains(new_parent),
            ensures
                forall|j: nat| j <= t0.spec_depth(new_parent) ==> #[trigger] t0.spec_ancestor(new_parent, j) != id,
            decreases t0.spec_depth(cursor),
        {
            if cursor == id {
                proof {
                    lemma_same_state(t0, *self);
                    assert(t0.spec_on_root_path(id, new_parent));
                }
                return Err(UiError::Cycle);
            }
            proof {
                lemma_ancestor_step(t0, new_parent, k);
            }
            match self.parent(cursor) {
                Ok(Some(p)) => {
                    proof {
                        let ci = cursor.spec_index() as int;
                        assert(t0.occupied(ci));
                        assert(ci != 0) by {
                            assert(t0.occupied(0));
                            if ci == 0 {
                                assert(t0.at(cursor).parent is None);
                            }
                        }
                        assert(t0.parent_ok(ci));
                        assert forall|j: nat| j < k + 1 implies #[trigger] t0.spec_ancestor(new_parent, j) != id by {
                            if j == k {
                            }
                        }
                        k = k + 1;
                    }
                    cursor = p;
                },
                Ok(None) => {
                    proof {
                        let ci = cursor.spec_index() as int;
                        assert(t0.occupied(ci));
                        if ci != 0 {
                            assert(t0.parent_ok(ci));
                        }
                        assert(t0.spec_depth(cursor) == 0);
                        assert forall|j: nat| j <= t0.spec_depth(new_parent) implies #[trigger] t0.spec_ancestor(
                            new_parent,
                            j,
                        ) != id by {
                            if j == k {
                            }
                        }
                    }
                    break;
                },
                Err(e) => {
                    proof {
                        lemma_same_state(t0, *self);
                    }
                    return Err(e);
                },
            }
        }
        proof {
            assert(!t0.spec_on_root_path(id, new_parent)) by {
                if t0.spec_on_root_path(id, new_parent) {
                    let j = choose|j: nat| j <= t0.spec_depth(new_parent) && #[trigger] t0.spec_ancestor(new_parent, j) == id;
                }
            }
        }
        let depth = match self.depth(new_parent) {
            Ok(d) => d,
            Err(e) => {
                proof {
                    lemma_same_state(t0, *self);
                }
                return Err(e);
            },
        };
        if depth + 1 >= self.max_depth {
            proof {
                lemma_same_state(t0, *self);
            }
            return Err(UiError::DepthExceeded);
        }
        let old_parent = match self.parent(id) {
            Ok(Some(p)) => p,
            Ok(None) => {
                proof {
                    let i = id.spec_index() as int;
                    assert(t0.occupied(i));
                    assert(i != 0) by {
                        assert(t0.occupied(0));
                    }
                    assert(t0.parent_ok(i));
                }
                return Err(UiError::InvalidParent);
            },
            Err(e) => {
                proof {
                    lemma_same_state(t0, *self);
                }
                return Err(e);
            },
        };
        let ix = id.index() as usize;
        let np = new_parent.index() as usize;
        let op = old_parent.index() as usize;
        proof {
            assert(t0.occupied(ix as int));
            assert(ix != 0) by {
                assert(t0.occupied(0));
            }
            assert(t0.parent_ok(ix as int));
            assert(t0.occupied(op as int));
            assert(t0.occupied(np as int));
            assert(ix != np) by {
                assert(t0.spec_ancestor(new_parent, 0) == new_parent);
                assert(t0.at(new_parent).id == new_parent);
                assert(t0.at(id).id == id);
            }
            assert(ix != op) by {
                assert(t0.depths@[ix as int] == t0.depths@[op as int] + 1);
            }
        }
        // Reserve room for the moved node before anything changes.
        let mut pnode = match self.slots[np].take() {
            Some(n) => n,
            None => {
                proof {
                    assert(false);
                }
                return Err(UiError::InvalidNode);
            },
        };
        if pnode.children.try_reserve(1).is_err() {
            self.slots.set(np, Some(pnode));
            proof {
                assert forall|i: int| #[trigger] self.occupied(i) implies node_eq(self.node(i), t0.node(i)) by {
                    if i != np {
                        assert(self.slots@[i] == t0.slots@[i]);
                    }
                }
                lemma_same_state(t0, *self);
            }
            return Err(UiError::AllocationFailed);
        }
        self.slots.set(np, Some(pnode));
        let ghost t1 = *self;
        proof {
            assert forall|i: int| #[trigger] self.occupied(i) implies node_eq(self.node(i), t0.node(i)) by {
                if i != np {
                    assert(self.slots@[i] == t0.slots@[i]);
                }
            }
            lemma_same_state(t0, t1);
        }
        // Unlink from the old parent.
        let mut onode = match self.slots[op].take() {
            Some(n) => n,
            None => {
                proof {
                    assert(false);
                }
                return Err(UiError::InvalidNode);
            },
        };
        let kept = without_child(&onode.children, id);
        onode.children = kept;
        let ghost on = onode;
        self.slots.set(op, Some(onode));
        // Link under the new parent.
        let mut nnode = match self.slots[np].take() {
            Some(n) => n,
            None => {
                proof {
                    assert(false);
                }
                return Err(UiError::InvalidNode);
            },
        };
        nnode.children.push(id);
        let ghost nn = nnode;
        self.slots.set(np, Some(nnode));
        let mut inode = match self.slots[ix].take() {
            Some(n) => n,
            None => {
                proof {
                    assert(false);
                }
                return Err(UiError::InvalidNode);
            },
        };
        inode.parent = Some(new_parent);
        let ghost inn = inode;
        self.slots.set(ix, Some(inode));
        proof {
            self.depths@ = t0.shifted_depths(id, new_parent);
            self.bound@ = t0.bound@ + t0.spec_depth(new_parent) + 1;
            assert(self.slots@ =~= t1.slots@.update(op as int, Some(on)).update(np as int, Some(nn)).update(
                ix as int,
                Some(inn),
            ));
            lemma_reparent_wf(t0, t1, *self, id, new_parent, old_parent, on, nn, inn);
        }
        let ghost t2 = *self;
        self.mark_ancestors_dirty(id);
        proof {
            lemma_reparent_done(t0, t2, *self, id, new_parent, old_parent);
        }
        Ok(())
    }

    /// Adds a node holding `content` as the last child of `parent`. The
    /// parent must be live (`InvalidParent`), the child must stay below the
    /// depth limit (`DepthExceeded`) and the tree below its node limit
    /// (`CapacityExceeded`). The node takes the most recently freed slot, or
    /// a new one (`IndexOverflow` past `u32` indices). It starts dirty, with
    /// an empty rectangle and no children. A failed allocation leaves the
    /// live nodes as they were.
    #[verifier::rlimit(60)]
    pub fn create(&mut self, parent: UiNodeId, content: C) -> (r: Result<UiNodeId, UiError>)
        requires
            old(self).wf(),
        ensures
            final(self).generations_advanced(&*old(self)),
            final(self).wf(),
            final(self).spec_root() == old(self).spec_root(),
            final(self).spec_max_nodes() == old(self).spec_max_nodes(),
            final(self).spec_max_depth() == old(self).spec_max_depth(),
            !old(self).spec_contains(parent) ==> r == Err::<UiNodeId, UiError>(UiError::InvalidParent),
            old(self).spec_contains(parent) && old(self).spec_depth(parent) + 1 >= old(self).spec_max_depth()
                ==> r == Err::<UiNodeId, UiError>(UiError::DepthExceeded),
            old(self).spec_contains(parent) && old(self).spec_depth(parent) + 1 < old(self).spec_max_depth()
                && old(self).spec_len() >= old(self).spec_max_nodes() ==> r == Err::<UiNodeId, UiError>(
                UiError::CapacityExceeded,
            ),
            old(self).spec_contains(parent) && old(self).spec_depth(parent) + 1 < old(self).spec_max_depth()
                && old(self).spec_len() < old(self).spec_max_nodes() && old(self).spec_needs_slot()
                && old(self).spec_slot_count() > u32::MAX ==> r == Err::<UiNodeId, UiError>(
                UiError::IndexOverflow,
            ),
            r matches Err(e) ==> final(self).same_nodes(&*old(self)) && (e == UiError::InvalidParent || e
                == UiError::DepthExceeded || e == UiError::CapacityExceeded || e == UiError::IndexOverflow
                || e == UiError::AllocationFailed),
            r matches Ok(id) ==> {
                &&& old(self).spec_contains(parent)
                &&& old(self).spec_depth(parent) + 1 < old(self).spec_max_depth()
                &&& old(self).spec_len() < old(self).spec_max_nodes()
                &&& id == old(self).spec_next_id()
                &&& !old(self).spec_contains(id)
                &&& final(self).spec_contains(id)
                &&& final(self).spec_parent(id) == Some(parent)
                &&& final(self).spec_children(id).len() == 0
                &&& final(self).spec_content(id) == content
                &&& final(self).spec_dirty(id)
                &&& final(self).spec_rect(id)@ == seq![0u32, 0, 0, 0]
                &&& final(self).spec_depth(id) == old(self).spec_depth(parent) + 1
                &&& final(self).spec_children(parent) == old(self).spec_children(parent).push(id)
                &&& final(self).same_node_but_children(&*old(self), parent)
                &&& final(self).spec_len() == old(self).spec_len() + 1
                &&& forall|x: UiNodeId| x != id ==> #[trigger] final(self).spec_contains(x) == old(self).spec_contains(x)
                &&& forall|x: UiNodeId|
                    #[trigger] old(self).spec_contains(x) && x != parent ==> final(self).same_node(&*old(self), x)
            },
    {
        if !self.contains(parent) {
            return Err(UiError::InvalidParent);
        }
        let parent_depth = match self.depth(parent) {
            Ok(d) => d,
            Err(e) => return Err(e),
        };
        if parent_depth + 1 >= self.max_depth {
            return Err(UiError::DepthExceeded);
        }
        if self.count >= self.max_nodes {
            return Err(UiError::CapacityExceeded);
        }
        if self.free.len() == 0 && self.slots.len() > 0xFFFF_FFFFusize {
            return Err(UiError::IndexOverflow);
        }
        let ghost t0 = *self;
        let (index, generation) = if self.free.len() > 0 {
            let i = match self.free.pop() {
                Some(i) => i,
                None => 0,
            };
            proof {
                assert(t0.free@.last() == i);
                assert(t0.free_ok(t0.free@[t0.free@.len() - 1]));
                assert(self.free@ =~= t0.free@.drop_last());
                assert forall|k: int| 0 <= k < self.free@.len() implies self.free_ok(#[trigger] self.free@[k])
                    && self.free@[k] != i by {
                    assert(self.free@[k] == t0.free@[k]);
                    assert(t0.free_ok(t0.free@[k]));
                    assert(t0.free@[k] != t0.free@[t0.free@.len() - 1]);
                }
                assert forall|a: int, b: int| 0 <= a < b < self.free@.len() implies self.free@[a] != self.free@[b] by {
                    assert(t0.free@[a] != t0.free@[b]);
                }
                lemma_free_pop(t0, *self);
            }
            (i, self.generations[i as usize])
        } else {
            let i = self.slots.len() as u32;
            if self.slots.try_reserve(1).is_err() {
                proof {
                    lemma_same_state(t0, *self);
                }
                return Err(UiError::AllocationFailed);
            }
            if self.generations.try_reserve(1).is_err() {
                proof {
                    lemma_same_state(t0, *self);
                }
                return Err(UiError::AllocationFailed);
            }
            self.slots.push(None);
            self.generations.push(1);
            proof {
                self.depths@ = self.depths@.push(0);
                lemma_slot_push(t0, *self);
            }
            (i, 1u32)
        };
        let ghost t1 = *self;
        let id = UiNodeId::new(index, generation);
        let mut children: Vec<UiNodeId> = Vec::new();
        if children.try_reserve(4).is_err() {
            proof {
                lemma_same_state(t1, *self);
            }
            return Err(UiError::AllocationFailed);
        }
        let pidx = parent.index() as usize;
        let mut pnode = match self.slots[pidx].take() {
            Some(n) => n,
            None => {
                proof {
                    assert(false);
                }
                return Err(UiError::InvalidNode);
            },
        };
        if pnode.children.try_reserve(1).is_err() {
            self.slots.set(pidx, Some(pnode));
            proof {
                assert forall|i: int| #[trigger] self.occupied(i) implies node_eq(self.node(i), t1.node(i)) by {
                    if i != pidx {
                        assert(self.slots@[i] == t1.slots@[i]);
                    }
                }
                lemma_same_state(t1, *self);
            }
            return Err(UiError::AllocationFailed);
        }
        pnode.children.push(id);
        self.slots.set(pidx, Some(pnode));
        let rect: [u32; 4] = [0, 0, 0, 0];
        proof {
            assert(rect@ =~= seq![0u32, 0, 0, 0]);
        }
        let node = UiNode {
            id,
            parent: Some(parent),
            children,
            content,
            rect,
            dirty: true,
        };
        self.slots.set(index as usize, Some(node));
        self.count = self.count + 1;
        proof {
            assert(self.slots@ =~= t1.slots@.update(pidx as int, self.slots@[pidx as int]).update(
                index as int,
                self.slots@[index as int],
            ));
            assert(!t1.occupied(index as int));
            assert(forall|k: int| 0 <= k < t1.free@.len() ==> t1.free@[k] != index);
            assert(t1.spec_contains(parent));
            assert(self.node(pidx as int).children@ == t1.node(pidx as int).children@.push(id));
            let dp = t1.depths@[pidx as int];
            self.depths@ = t1.depths@.update(index as int, dp + 1);
            if self.bound@ < dp + 2 {
                self.bound@ = dp + 2;
            }
            lemma_create_wf(t1, *self, parent, id, content);
        }
        Ok(id)
    }

}

/// The tree after linking a fresh node `id` (in the free slot `id`'s index)
/// under `parent` is well formed, and it differs from `t1` exactly there.
proof fn lemma_create_wf<C>(t1: UiTree<C>, t2: UiTree<C>, parent: UiNodeId, id: UiNodeId, content: C)
    requires
        t1.wf(),
        t1.spec_contains(parent),
        t1.spec_depth(parent) + 1 < t1.max_depth,
        t1.count < t1.max_nodes,
        ({
            let ix = id.spec_index() as int;
            let px = parent.spec_index() as int;
            let pn = t1.node(px);
            let node = t2.node(ix);
            &&& 0 < ix < t1.slots@.len()
            &&& !t1.occupied(ix)
            &&& id == UiNodeId::spec_new(ix as u32, t1.generations@[ix])
            &&& forall|k: int| 0 <= k < t1.free@.len() ==> t1.free@[k] != ix
            &&& t2.slots@ == t1.slots@.update(px, t2.slots@[px]).update(ix, t2.slots@[ix])
            &&& t2.slots@[px] is Some
            &&& t2.slots@[ix] is Some
            &&& t2.node(px) == (UiNode { children: t2.node(px).children, ..pn })
            &&& t2.node(px).children@ == pn.children@.push(id)
            &&& node.id == id
            &&& node.parent == Some(parent)
            &&& node.children@.len() == 0
            &&& node.content == content
            &&& node.rect@ == seq![0u32, 0, 0, 0]
            &&& node.dirty
            &&& t2.generations@ == t1.generations@
            &&& t2.free@ == t1.free@
            &&& t2.root == t1.root
            &&& t2.count == t1.count + 1
            &&& t2.max_nodes == t1.max_nodes
            &&& t2.max_depth == t1.max_depth
            &&& t2.depths@ == t1.depths@.update(ix, t1.depths@[px] + 1)
            &&& t2.bound@ >= t1.bound@ && t2.bound@ > t1.depths@[px] + 1
        }),
    ensures
        t2.wf(),
        !t1.spec_contains(id),
        t2.spec_contains(id),
        t2.spec_parent(id) == Some(parent),
        t2.spec_children(id).len() == 0,
        t2.spec_content(id) == content,
        t2.spec_dirty(id),
        t2.spec_rect(id)@ == seq![0u32, 0, 0, 0],
        t2.spec_depth(id) == t1.spec_depth(parent) + 1,
        t2.spec_children(parent) == t1.spec_children(parent).push(id),
        t2.same_node_but_children(&t1, parent),
        forall|x: UiNodeId| x != id ==> #[trigger] t2.spec_contains(x) == t1.spec_contains(x),
        forall|x: UiNodeId| #[trigger] t1.spec_contains(x) && x != parent ==> t2.same_node(&t1, x),
{
    let ix = id.spec_index() as int;
    let px = parent.spec_index() as int;
    assert(px != ix) by {
        assert(t1.occupied(px));
    }
    assert(t1.occupied(px));
    let mid = t1.slots@.update(px, t2.slots@[px]);
    lemma_live_count_update(t1.slots@, px, t2.slots@[px]);
    lemma_live_count_update(mid, ix, t2.slots@[ix]);
    assert(mid[ix] == t1.slots@[ix]);
    assert(t2.occupied(ix));
    assert(t2.occupied(px));
    // Slots other than the parent's and the new one are untouched.
    assert forall|j: int| 0 <= j < t2.slots@.len() && j != ix && j != px implies #[trigger] t2.slots@[j] == t1.slots@[j] by {}
    assert forall|j: int| #[trigger] t2.occupied(j) implies (j == ix || t1.occupied(j)) by {
        if j != ix && j != px {
            assert(t2.slots@[j] == t1.slots@[j]);
        }
    }
    assert forall|x: UiNodeId| x != id implies #[trigger] t2.spec_contains(x) == t1.spec_contains(x) by {
        let j = x.spec_index() as int;
        if j == ix {
            UiNodeId::lemma_rebuild(x);
            if t2.spec_contains(x) {
                assert(t2.at(x).id == id);
            }
        } else if j != px && 0 <= j < t2.slots@.len() {
            assert(t2.slots@[j] == t1.slots@[j]);
        }
    }
    assert(!t1.spec_contains(id));
    assert forall|x: UiNodeId| #[trigger] t1.spec_contains(x) && x != parent implies t2.same_node(&t1, x) by {
        let j = x.spec_index() as int;
        assert(j != ix);
        if j == px {
            assert(t1.at(x).id == x);
            assert(t1.at(parent).id == parent);
        }
        assert(t2.slots@[j] == t1.slots@[j]);
    }
    // The invariant, clause by clause.
    assert forall|i: int| #[trigger] t2.occupied(i) implies t2.node(i).id == UiNodeId::spec_new(
        i as u32,
        t2.generations@[i],
    ) by {
        if i != ix && i != px {
            assert(t2.slots@[i] == t1.slots@[i]);
            assert(t1.occupied(i));
        }
        if i == px {
            assert(t1.occupied(px));
        }
    }
    assert forall|i: int| 0 < i && #[trigger] t2.occupied(i) implies t2.parent_ok(i) by {
        if i == ix {
            assert(t2.node(px).children@.last() == id);
            assert(t2.node(px).children@.contains(id));
            assert(t2.at(parent) == t2.node(px));
            assert(t1.at(parent).id == parent);
        } else {
            assert(t1.occupied(i));
            assert(t1.parent_ok(i));
            let p = t1.node(i).parent.unwrap();
            assert(t2.node(i).parent == t1.node(i).parent);
            assert(t2.node(i).id == t1.node(i).id);
            assert(t1.spec_contains(p));
            let pj = p.spec_index() as int;
            assert(pj != ix);
            assert(t2.spec_contains(p)) by {
                if pj != px {
                    assert(t2.slots@[pj] == t1.slots@[pj]);
                }
            }
            assert(t2.depths@[i] == t1.depths@[i]);
            assert(t2.depths@[pj] == t1.depths@[pj]);
            if pj == px {
                let c = t1.node(i).id;
                assert(t1.node(px).children@.contains(c));
                let k = choose|k: int| 0 <= k < t1.node(px).children@.len() && t1.node(px).children@[k] == c;
                assert(t2.node(px).children@[k] == c);
            } else {
                assert(t2.slots@[pj] == t1.slots@[pj]);
            }
        }
    }
    assert forall|i: int| #[trigger] t2.occupied(i) implies t2.children_ok(i) by {
        if i == ix {
            assert(t2.node(ix).children@ =~= Seq::<UiNodeId>::empty());
        } else {
            assert(t1.occupied(i));
            assert(t1.children_ok(i));
            let cs2 = t2.node(i).children@;
            let cs1 = t1.node(i).children@;
            assert forall|k: int| 0 <= k < cs2.len() implies t2.child_ok(i, #[trigger] cs2[k]) by {
                let c = cs2[k];
                if i == px && k == cs1.len() {
                    assert(c == id);
                    assert(t2.node(i).id == parent) by {
                        assert(t1.at(parent).id == parent);
                    }
                } else {
                    assert(c == cs1[k]);
                    assert(t1.child_ok(i, cs1[k]));
                    let cj = c.spec_index() as int;
                    assert(cj != ix);
                    if cj != px {
                        assert(t2.slots@[cj] == t1.slots@[cj]);
                    }
                    assert(t2.node(i).id == t1.node(i).id);
                }
            }
            if i == px {
                assert forall|a: int, b: int| 0 <= a < b < cs2.len() implies cs2[a] != cs2[b] by {
                    if b == cs1.len() {
                        assert(t1.child_ok(i, cs1[a]));
                        assert(cs2[a] == cs1[a]);
                    } else {
                        assert(cs2[a] == cs1[a] && cs2[b] == cs1[b]);
                    }
                }
            }
        }
    }
    assert forall|i: int| 0 <= i < t2.slots@.len() implies #[trigger] t2.depths@[i] < t2.bound@ by {
        if i != ix {
            assert(t1.depths@[i] < t1.bound@);
        }
    }
    assert forall|k: int| 0 <= k < t2.free@.len() implies t2.free_ok(#[trigger] t2.free@[k]) by {
        assert(t1.free_ok(t1.free@[k]));
        let f = t1.free@[k] as int;
        assert(f != px) by {
            assert(t1.occupied(px));
        }
        assert(t2.slots@[f] == t1.slots@[f]);
    }
    assert(t2.occupied(0) && t2.node(0).parent == t1.node(0).parent && t2.node(0).id == t1.node(0).id) by {
        assert(t1.occupied(0));
        if px != 0 {
            assert(t2.slots@[0] == t1.slots@[0]);
        }
    }
    assert(t2.node(0).parent is None);
    assert(t2.at(id) == t2.node(ix));
}

proof fn lemma_same_state<C>(a: UiTree<C>, b: UiTree<C>)
    requires
        a.wf(),
        b.same_state(&a),
    ensures
        b.wf(),
        b.same_nodes(&a),
{
    lemma_live_count_same(a.slots@, b.slots@);
    assert forall|i: int| #[trigger] b.occupied(i) implies a.occupied(i) && node_eq(b.node(i), a.node(i)) by {}
    assert forall|i: int| #[trigger] a.occupied(i) implies b.occupied(i) by {
        assert(b.slots@[i] is Some == a.slots@[i] is Some);
    }
    assert forall|i: int| #[trigger] b.occupied(i) implies b.node(i).id == UiNodeId::spec_new(
        i as u32,
        b.generations@[i],
    ) by {
        assert(a.occupied(i));
    }
    assert forall|i: int| 0 < i && #[trigger] b.occupied(i) implies b.parent_ok(i) by {
        assert(a.occupied(i));
        assert(a.parent_ok(i));
        let p = a.node(i).parent.unwrap();
        assert(a.spec_contains(p));
        assert(a.occupied(p.spec_index() as int));
        assert(b.occupied(p.spec_index() as int));
    }
    assert forall|i: int| #[trigger] b.occupied(i) implies b.children_ok(i) by {
        assert(a.occupied(i));
        assert(a.children_ok(i));
        assert forall|k: int| 0 <= k < b.node(i).children@.len() implies b.child_ok(i, #[trigger] b.node(i).children@[k]) by {
            let c = a.node(i).children@[k];
            assert(a.child_ok(i, c));
            assert(a.occupied(c.spec_index() as int));
            assert(b.occupied(c.spec_index() as int));
        }
    }
    assert forall|k: int| 0 <= k < b.free@.len() implies b.free_ok(#[trigger] b.free@[k]) by {
        assert(a.free_ok(a.free@[k]));
        let f = a.free@[k] as int;
        assert(b.slots@[f] is Some == a.slots@[f] is Some);
    }
    assert(a.occupied(0));
    assert(b.occupied(0));
    assert forall|id: UiNodeId| #[trigger] b.spec_contains(id) == a.spec_contains(id) by {
        let j = id.spec_index() as int;
        if 0 <= j < a.slots@.len() {
            if a.occupied(j) {
                assert(b.occupied(j));
            }
            if b.occupied(j) {
                assert(a.occupied(j));
            }
        }
    }
}

/// Dropping the last free slot from the list keeps the tree well formed.
proof fn lemma_free_pop<C>(a: UiTree<C>, b: UiTree<C>)
    requires
        a.wf(),
        a.free@.len() > 0,
        b.free@ == a.free@.drop_last(),
        b.slots@ == a.slots@,
        b.generations@ == a.generations@,
        b.root == a.root,
        b.count == a.count,
        b.max_nodes == a.max_nodes,
        b.max_depth == a.max_depth,
        b.depths@ == a.depths@,
        b.bound@ == a.bound@,
    ensures
        b.wf(),
        b.same_nodes(&a),
{
    assert forall|i: int| #[trigger] b.occupied(i) implies a.occupied(i) by {}
    assert forall|i: int| 0 < i && #[trigger] b.occupied(i) implies b.parent_ok(i) by {
        assert(a.parent_ok(i));
    }
    assert forall|i: int| #[trigger] b.occupied(i) implies b.children_ok(i) by {
        assert(a.children_ok(i));
    }
    assert forall|k: int| 0 <= k < b.free@.len() implies b.free_ok(#[trigger] b.free@[k]) by {
        assert(b.free@[k] == a.free@[k]);
        assert(a.free_ok(a.free@[k]));
    }
    assert(a.occupied(0));
}

/// Appending an empty slot keeps the tree well formed.
proof fn lemma_slot_push<C>(a: UiTree<C>, b: UiTree<C>)
    requires
        a.wf(),
        a.slots@.len() < 0x1_0000_0000,
        b.slots@ == a.slots@.push(None),
        b.generations@ == a.generations@.push(1),
        b.free@ == a.free@,
        b.root == a.root,
        b.count == a.count,
        b.max_nodes == a.max_nodes,
        b.max_depth == a.max_depth,
        b.depths@ == a.depths@.push(0),
        b.bound@ == a.bound@,
    ensures
        b.wf(),
        b.same_nodes(&a),
{
    assert(b.slots@.drop_last() =~= a.slots@);
    assert(live_count(b.slots@) == live_count(a.slots@)) by {
        reveal(live_count);
    }
    assert forall|i: int| #[trigger] b.occupied(i) implies a.occupied(i) && b.node(i) == a.node(i)
        && b.generations@[i] == a.generations@[i] && b.depths@[i] == a.depths@[i] by {
        assert(i < a.slots@.len());
    }
    assert forall|i: int| #[trigger] a.occupied(i) implies b.occupied(i) by {}
    assert forall|i: int| #[trigger] b.occupied(i) implies b.node(i).id == UiNodeId::spec_new(
        i as u32,
        b.generations@[i],
    ) by {
        assert(a.occupied(i));
    }
    assert forall|i: int| 0 < i && #[trigger] b.occupied(i) implies b.parent_ok(i) by {
        assert(a.parent_ok(i));
        let p = a.node(i).parent.unwrap();
        assert(a.occupied(p.spec_index() as int));
    }
    assert forall|i: int| #[trigger] b.occupied(i) implies b.children_ok(i) by {
        assert(a.children_ok(i));
        assert forall|k: int| 0 <= k < b.node(i).children@.len() implies b.child_ok(i, #[trigger] b.node(i).children@[k]) by {
            let c = a.node(i).children@[k];
            assert(a.child_ok(i, c));
            assert(a.occupied(c.spec_index() as int));
        }
    }
    assert forall|i: int| 0 <= i < b.slots@.len() implies #[trigger] b.depths@[i] < b.bound@ by {
        if i < a.slots@.len() {
            assert(a.depths@[i] < a.bound@);
        }
    }
    assert forall|k: int| 0 <= k < b.free@.len() implies b.free_ok(#[trigger] b.free@[k]) by {
        assert(a.free_ok(a.free@[k]));
    }
    assert(a.occupied(0));
    assert forall|id: UiNodeId| #[trigger] b.spec_contains(id) == a.spec_contains(id) by {
        let j = id.spec_index() as int;
        if b.occupied(j) {
            assert(a.occupied(j));
        }
        if a.occupied(j) {
            assert(b.occupied(j));
        }
    }
}

/// One more step up from the `k`-th ancestor is the `k + 1`-th.
proof fn lemma_ancestor_step<C>(t: UiTree<C>, id: UiNodeId, k: nat)
    ensures
        t.spec_ancestor(id, k + 1) == match t.at(t.spec_ancestor(id, k)).parent {
            Some(p) => p,
            None => t.spec_ancestor(id, k),
        },
    decreases k,
{
    if k == 0 {
        reveal_with_fuel(UiTree::spec_ancestor, 2);
    } else {
        match t.at(id).parent {
            Some(p) => {
                lemma_ancestor_step(t, p, (k - 1) as nat);
            },
            None => {},
        }
    }
}

/// Ancestors of live nodes are live, and `k` steps up lower the depth by `k`
/// (until the root).
proof fn lemma_ancestor_live<C>(t: UiTree<C>, id: UiNodeId, k: nat)
    requires
        t.wf(),
        t.spec_contains(id),
    ensures
        t.spec_contains(t.spec_ancestor(id, k)),
        k <= t.spec_depth(id) ==> t.spec_depth(t.spec_ancestor(id, k)) == t.spec_depth(id) - k,
        k >= t.spec_depth(id) ==> t.spec_ancestor(id, k) == t.spec_root(),
    decreases k,
{
    let i = id.spec_index() as int;
    assert(t.occupied(i));
    if i != 0 {
        assert(t.parent_ok(i));
    } else {
        assert(t.occupied(0));
    }
    if k > 0 {
        match t.at(id).parent {
            Some(p) => {
                lemma_ancestor_live(t, p, (k - 1) as nat);
            },
            None => {},
        }
    }
}

/// Trees whose live nodes have the same parents walk up the same way.
proof fn lemma_ancestor_same<C>(a: UiTree<C>, b: UiTree<C>, id: UiNodeId, k: nat)
    requires
        a.wf(),
        a.spec_contains(id),
        forall|x: UiNodeId| #[trigger] a.spec_contains(x) ==> b.at(x).parent == a.at(x).parent,
    ensures
        b.spec_ancestor(id, k) == a.spec_ancestor(id, k),
    decreases k,
{
    if k > 0 {
        let i = id.spec_index() as int;
        assert(a.occupied(i));
        match a.at(id).parent {
            Some(p) => {
                assert(i != 0) by {
                    assert(a.occupied(0));
                }
                assert(a.parent_ok(i));
                lemma_ancestor_same(a, b, p, (k - 1) as nat);
            },
            None => {},
        }
    }
}

/// Changing what live node `i` holds (its content, rectangle or flag) keeps
/// the tree's shape.
/// Editing the content of one live node keeps the tree well formed and
/// changes nothing else.
broadcast proof fn lemma_content_edited<C>(a: UiTree<C>, b: UiTree<C>, id: UiNodeId)
    ensures
        #[trigger] b.content_edited(&a, id) ==> {
            &&& b.wf()
            &&& b.same_shape(&a)
            &&& b.spec_content(id) == b.node(id.spec_index() as int).content
            &&& forall|x: UiNodeId|
                #[trigger] a.spec_contains(x) ==> b.spec_rect(x) == a.spec_rect(x) && b.spec_dirty(x)
                    == a.spec_dirty(x) && (x != id ==> b.spec_content(x) == a.spec_content(x))
        },
{
    if b.content_edited(&a, id) {
        let i = id.spec_index() as int;
        assert(a.occupied(i));
        lemma_payload(a, b, i);
        assert forall|x: UiNodeId, k: nat| #[trigger] b.spec_ancestor(x, k) == a.spec_ancestor(x, k)
            || !a.spec_contains(x) by {
            if a.spec_contains(x) {
                lemma_ancestor_same(a, b, x, k);
            }
        }
        assert forall|x: UiNodeId| #[trigger] a.spec_contains(x) implies b.spec_rect(x) == a.spec_rect(x)
            && b.spec_dirty(x) == a.spec_dirty(x) && (x != id ==> b.spec_content(x) == a.spec_content(x)) by {
            if x != id {
                assert(x.spec_index() != i) by {
                    assert(a.at(x).id == x);
                    assert(a.at(id).id == id);
                }
                assert(b.same_node(&a, x));
            }
        }
        assert(b.same_shape(&a));
    }
}

proof fn lemma_payload<C>(a: UiTree<C>, b: UiTree<C>, i: int)
    requires
        a.wf(),
        a.occupied(i),
        b.slots@.len() == a.slots@.len(),
        forall|j: int| 0 <= j < a.slots@.len() && j != i ==> #[trigger] b.slots@[j] == a.slots@[j],
        b.slots@[i] is Some,
        b.node(i).id == a.node(i).id,
        b.node(i).parent == a.node(i).parent,
        b.node(i).children@ == a.node(i).children@,
        b.generations@ == a.generations@,
        b.free@ == a.free@,
        b.root == a.root,
        b.count == a.count,
        b.max_nodes == a.max_nodes,
        b.max_depth == a.max_depth,
        b.depths@ == a.depths@,
        b.bound@ == a.bound@,
    ensures
        b.wf(),
        forall|x: UiNodeId| #[trigger] b.spec_contains(x) == a.spec_contains(x),
        forall|x: UiNodeId|
            #[trigger] a.spec_contains(x) ==> b.at(x).parent == a.at(x).parent && b.at(x).children@
                == a.at(x).children@ && b.spec_depth(x) == a.spec_depth(x),
        forall|x: UiNodeId| #[trigger] a.spec_contains(x) && x.spec_index() != i ==> b.same_node(&a, x),
{
    assert forall|j: int| #[trigger] b.occupied(j) <==> a.occupied(j) by {
        if j != i && 0 <= j < a.slots@.len() {
            assert(b.slots@[j] == a.slots@[j]);
        }
    }
    assert forall|j: int| 0 <= j < a.slots@.len() implies (#[trigger] a.slots@[j] is Some) == (b.slots@[j] is Some) by {
        if j != i {
            assert(b.slots@[j] == a.slots@[j]);
        }
    }
    lemma_live_count_same(a.slots@, b.slots@);
    assert forall|j: int| #[trigger] b.occupied(j) implies b.node(j).id == a.node(j).id && b.node(j).parent
        == a.node(j).parent && b.node(j).children@ == a.node(j).children@ by {
        if j != i {
            assert(b.slots@[j] == a.slots@[j]);
        }
    }
    assert forall|j: int| #[trigger] b.occupied(j) implies b.node(j).id == UiNodeId::spec_new(
        j as u32,
        b.generations@[j],
    ) by {
        assert(a.occupied(j));
    }
    assert forall|j: int| 0 < j && #[trigger] b.occupied(j) implies b.parent_ok(j) by {
        assert(a.occupied(j));
        assert(a.parent_ok(j));
        let p = a.node(j).parent.unwrap();
        assert(a.occupied(p.spec_index() as int));
        assert(b.occupied(p.spec_index() as int));
    }
    assert forall|j: int| #[trigger] b.occupied(j) implies b.children_ok(j) by {
        assert(a.occupied(j));
        assert(a.children_ok(j));
        assert forall|k: int| 0 <= k < b.node(j).children@.len() implies b.child_ok(j, #[trigger] b.node(j).children@[k]) by {
            let c = a.node(j).children@[k];
            assert(a.child_ok(j, c));
            assert(a.occupied(c.spec_index() as int));
            assert(b.occupied(c.spec_index() as int));
        }
    }
    assert forall|k: int| 0 <= k < b.free@.len() implies b.free_ok(#[trigger] b.free@[k]) by {
        assert(a.free_ok(a.free@[k]));
        let f = a.free@[k] as int;
        assert(!a.occupied(f));
        assert(!b.occupied(f));
    }
    assert(a.occupied(0));
    assert(b.occupied(0));
    assert forall|x: UiNodeId| #[trigger] b.spec_contains(x) == a.spec_contains(x) by {
        let j = x.spec_index() as int;
        if b.occupied(j) {
            assert(a.occupied(j));
        }
        if a.occupied(j) {
            assert(b.occupied(j));
        }
    }
    assert forall|x: UiNodeId| #[trigger] a.spec_contains(x) && x.spec_index() != i implies b.same_node(&a, x) by {
        let j = x.spec_index() as int;
        assert(b.slots@[j] == a.slots@[j]);
    }
    assert forall|x: UiNodeId|
        #[trigger] a.spec_contains(x) implies b.at(x).parent == a.at(x).parent && b.at(x).children@
            == a.at(x).children@ && b.spec_depth(x) == a.spec_depth(x) by {
        assert(a.occupied(x.spec_index() as int));
    }
}

/// A node is in the subtrees of a list exactly when it is in the subtree of
/// one of its members.
proof fn lemma_pre_list_contains<C>(t: UiTree<C>, cs: Seq<UiNodeId>, fuel: nat, y: UiNodeId)
    ensures
        t.pre_list(cs, fuel).contains(y) <==> exists|k: int|
            0 <= k < cs.len() && #[trigger] t.pre_fuel(cs[k], fuel).contains(y),
    decreases cs.len(),
{
    if cs.len() > 0 {
        let init = cs.drop_last();
        lemma_pre_list_contains(t, init, fuel, y);
        let a = t.pre_list(init, fuel);
        let b = t.pre_fuel(cs.last(), fuel);
        assert(t.pre_list(cs, fuel) == a + b);
        if (a + b).contains(y) {
            let i = choose|i: int| 0 <= i < (a + b).len() && (a + b)[i] == y;
            if i < a.len() {
                assert(a[i] == y);
                assert(a.contains(y));
                let k = choose|k: int| 0 <= k < init.len() && #[trigger] t.pre_fuel(init[k], fuel).contains(y);
                assert(cs[k] == init[k]);
            } else {
                assert(b[i - a.len()] == y);
                assert(t.pre_fuel(cs[cs.len() - 1], fuel).contains(y));
            }
        }
        if exists|k: int| 0 <= k < cs.len() && #[trigger] t.pre_fuel(cs[k], fuel).contains(y) {
            let k = choose|k: int| 0 <= k < cs.len() && #[trigger] t.pre_fuel(cs[k], fuel).contains(y);
            if k < init.len() {
                assert(init[k] == cs[k]);
                assert(a.contains(y));
                let i = choose|i: int| 0 <= i < a.len() && a[i] == y;
                assert((a + b)[i] == y);
            } else {
                assert(b.contains(y));
                let i = choose|i: int| 0 <= i < b.len() && b[i] == y;
                assert((a + b)[a.len() + i] == y);
            }
        }
    }
}

/// The child of `x` on the path up from `y`, when `y` lies strictly below
/// `x`.
proof fn lemma_child_on_path<C>(t: UiTree<C>, x: UiNodeId, y: UiNodeId, k: nat)
    requires
        t.wf(),
        t.spec_contains(y),
        0 < k <= t.spec_depth(y),
        t.spec_ancestor(y, k) == x,
    ensures
        t.spec_contains(t.spec_ancestor(y, (k - 1) as nat)),
        t.at(t.spec_ancestor(y, (k - 1) as nat)).parent == Some(x),
        t.spec_children(x).contains(t.spec_ancestor(y, (k - 1) as nat)),
        t.spec_depth(t.spec_ancestor(y, (k - 1) as nat)) == t.spec_depth(x) + 1,
{
    let c = t.spec_ancestor(y, (k - 1) as nat);
    lemma_ancestor_live(t, y, (k - 1) as nat);
    lemma_ancestor_live(t, y, k);
    lemma_ancestor_step(t, y, (k - 1) as nat);
    let ci = c.spec_index() as int;
    assert(t.occupied(ci));
    assert(ci != 0) by {
        assert(t.occupied(0));
        if ci == 0 {
            assert(t.at(c).id == UiNodeId::spec_new(0, t.generations@[0]));
        }
    }
    assert(t.parent_ok(ci));
    assert(t.at(c).id == c);
}

/// The subtree order of `x` lists exactly the live nodes at or below `x`.
proof fn lemma_subtree_members<C>(t: UiTree<C>, x: UiNodeId)
    requires
        t.wf(),
        t.spec_contains(x),
    ensures
        forall|y: UiNodeId|
            #[trigger] t.spec_subtree_order(x).contains(y) <==> (t.spec_contains(y) && t.spec_on_root_path(x, y)),
    decreases t.bound@ - t.spec_depth(x),
{
    let i = x.spec_index() as int;
    assert(t.occupied(i));
    assert(t.depths@[i] < t.bound@);
    let fuel = (t.bound@ - t.spec_depth(x)) as nat;
    let cs = t.spec_children(x);
    assert(t.spec_subtree_order(x) == seq![x] + t.pre_list(cs, (fuel - 1) as nat));
    assert(t.children_ok(i));
    assert forall|k: int| 0 <= k < cs.len() implies t.spec_contains(#[trigger] cs[k]) && t.spec_depth(cs[k])
        == t.spec_depth(x) + 1 && t.pre_fuel(cs[k], (fuel - 1) as nat) == t.spec_subtree_order(cs[k]) by {
        assert(t.child_ok(i, cs[k]));
        assert(t.occupied(cs[k].spec_index() as int));
        assert(t.parent_ok(cs[k].spec_index() as int));
        assert(t.at(x).id == x);
    }
    assert forall|y: UiNodeId|
        #[trigger] t.spec_subtree_order(x).contains(y) implies t.spec_contains(y) && t.spec_on_root_path(x, y) by {
        let whole = t.spec_subtree_order(x);
        let rest = t.pre_list(cs, (fuel - 1) as nat);
        let j = choose|j: int| 0 <= j < whole.len() && whole[j] == y;
        if j == 0 {
            assert(y == x);
            assert(t.spec_ancestor(x, 0) == x);
        } else {
            assert(rest[j - 1] == y);
            assert(rest.contains(y));
            lemma_pre_list_contains(t, cs, (fuel - 1) as nat, y);
            let k = choose|k: int| 0 <= k < cs.len() && #[trigger] t.pre_fuel(cs[k], (fuel - 1) as nat).contains(y);
            let c = cs[k];
            assert(t.spec_contains(c));
            lemma_subtree_members(t, c);
            assert(t.spec_subtree_order(c).contains(y));
            let m = choose|m: nat| m <= t.spec_depth(y) && #[trigger] t.spec_ancestor(y, m) == c;
            lemma_ancestor_live(t, y, m);
            lemma_ancestor_step(t, y, m);
            assert(t.child_ok(i, c));
            assert(t.at(c).parent == Some(x)) by {
                assert(t.at(x).id == x);
            }
            assert(t.spec_ancestor(y, m + 1) == x);
        }
    }
    assert forall|y: UiNodeId|
        t.spec_contains(y) && t.spec_on_root_path(x, y) implies #[trigger] t.spec_subtree_order(x).contains(y) by {
        let whole = t.spec_subtree_order(x);
        let rest = t.pre_list(cs, (fuel - 1) as nat);
        let m = choose|m: nat| m <= t.spec_depth(y) && #[trigger] t.spec_ancestor(y, m) == x;
        if m == 0 {
            assert(whole[0] == x);
        } else {
            lemma_child_on_path(t, x, y, m);
            let c = t.spec_ancestor(y, (m - 1) as nat);
            let k = choose|k: int| 0 <= k < cs.len() && cs[k] == c;
            lemma_subtree_members(t, c);
            assert(t.spec_on_root_path(c, y));
            assert(t.pre_fuel(cs[k], (fuel - 1) as nat).contains(y));
            lemma_pre_list_contains(t, cs, (fuel - 1) as nat, y);
            assert(rest.contains(y));
            let j = choose|j: int| 0 <= j < rest.len() && rest[j] == y;
            assert(whole[j + 1] == y);
        }
    }
}

/// Two lists without repeats and without a common element concatenate to a
/// list without repeats.
proof fn lemma_concat_distinct<A>(a: Seq<A>, b: Seq<A>)
    requires
        a.no_duplicates(),
        b.no_duplicates(),
        forall|y: A| a.contains(y) ==> !b.contains(y),
    ensures
        (a + b).no_duplicates(),
{
    let c = a + b;
    assert forall|i: int, j: int| 0 <= i < c.len() && 0 <= j < c.len() && i != j implies c[i] != c[j] by {
        if i < a.len() && j < a.len() {
        } else if i >= a.len() && j >= a.len() {
            assert(c[i] == b[i - a.len()] && c[j] == b[j - a.len()]);
        } else if i < a.len() {
            assert(a.contains(c[i]));
            assert(c[j] == b[j - a.len()]);
            assert(b.contains(c[j]));
        } else {
            assert(a.contains(c[j]));
            assert(c[i] == b[i - a.len()]);
            assert(b.contains(c[i]));
        }
    }
}

/// A node in the subtree of `c` is `c` or below it: `c` is its ancestor at
/// the depth difference.
proof fn lemma_subtree_ancestor<C>(t: UiTree<C>, c: UiNodeId, y: UiNodeId)
    requires
        t.wf(),
        t.spec_contains(c),
        t.spec_subtree_order(c).contains(y),
    ensures
        t.spec_contains(y),
        t.spec_depth(y) >= t.spec_depth(c),
        t.spec_ancestor(y, (t.spec_depth(y) - t.spec_depth(c)) as nat) == c,
{
    lemma_subtree_members(t, c);
    let m = choose|m: nat| m <= t.spec_depth(y) && #[trigger] t.spec_ancestor(y, m) == c;
    lemma_ancestor_live(t, y, m);
}

/// The subtrees of the first `n` children of `x`, in order, repeat nothing.
proof fn lemma_pre_list_distinct<C>(t: UiTree<C>, x: UiNodeId, n: int)
    requires
        t.wf(),
        t.spec_contains(x),
        0 <= n <= t.spec_children(x).len(),
    ensures
        t.pre_list(
            t.spec_children(x).take(n),
            (t.bound@ - t.spec_depth(x) - 1) as nat,
        ).no_duplicates(),
    decreases t.bound@ - t.spec_depth(x), n,
{
    let i = x.spec_index() as int;
    let cs = t.spec_children(x);
    let fuel = (t.bound@ - t.spec_depth(x) - 1) as nat;
    assert(t.occupied(i));
    assert(t.depths@[i] < t.bound@);
    assert(t.children_ok(i));
    if n == 0 {
        assert(cs.take(0) =~= Seq::<UiNodeId>::empty());
        assert(t.pre_list(cs.take(0), fuel) =~= Seq::<UiNodeId>::empty());
    } else {
        let init = cs.take(n - 1);
        let c = cs[n - 1];
        assert(cs.take(n).drop_last() =~= init);
        assert(cs.take(n).last() == c);
        lemma_pre_list_distinct(t, x, n - 1);
        assert(t.child_ok(i, c));
        assert(t.spec_contains(c));
        assert(t.parent_ok(c.spec_index() as int)) by {
            assert(t.occupied(c.spec_index() as int));
        }
        assert(t.at(x).id == x);
        assert(t.spec_depth(c) == t.spec_depth(x) + 1);
        assert(t.pre_fuel(c, fuel) == t.spec_subtree_order(c));
        lemma_subtree_distinct(t, c);
        let a = t.pre_list(init, fuel);
        let b = t.pre_fuel(c, fuel);
        assert forall|y: UiNodeId| a.contains(y) implies !b.contains(y) by {
            lemma_pre_list_contains(t, init, fuel, y);
            let k = choose|k: int| 0 <= k < init.len() && #[trigger] t.pre_fuel(init[k], fuel).contains(y);
            let d = init[k];
            assert(d == cs[k]);
            assert(t.child_ok(i, d));
            assert(t.spec_contains(d));
            assert(t.parent_ok(d.spec_index() as int)) by {
                assert(t.occupied(d.spec_index() as int));
            }
            assert(t.spec_depth(d) == t.spec_depth(x) + 1);
            assert(t.pre_fuel(d, fuel) == t.spec_subtree_order(d));
            lemma_subtree_ancestor(t, d, y);
            if b.contains(y) {
                lemma_subtree_ancestor(t, c, y);
                assert(d == c);
                assert(cs[k] == cs[n - 1]);
            }
        }
        lemma_concat_distinct(a, b);
    }
}

/// The subtree order of `x` repeats nothing.
proof fn lemma_subtree_distinct<C>(t: UiTree<C>, x: UiNodeId)
    requires
        t.wf(),
        t.spec_contains(x),
    ensures
        t.spec_subtree_order(x).no_duplicates(),
    decreases t.bound@ - t.spec_depth(x), t.spec_children(x).len() + 1,
{
    let i = x.spec_index() as int;
    let cs = t.spec_children(x);
    assert(t.occupied(i));
    assert(t.depths@[i] < t.bound@);
    let fuel = (t.bound@ - t.spec_depth(x)) as nat;
    let rest = t.pre_list(cs, (fuel - 1) as nat);
    assert(t.spec_subtree_order(x) == seq![x] + rest);
    lemma_pre_list_distinct(t, x, cs.len() as int);
    assert(cs.take(cs.len() as int) =~= cs);
    assert(t.children_ok(i));
    assert forall|y: UiNodeId| seq![x].contains(y) implies !rest.contains(y) by {
        assert(y == x);
        if rest.contains(x) {
            lemma_pre_list_contains(t, cs, (fuel - 1) as nat, x);
            let k = choose|k: int| 0 <= k < cs.len() && #[trigger] t.pre_fuel(cs[k], (fuel - 1) as nat).contains(x);
            let d = cs[k];
            assert(t.child_ok(i, d));
            assert(t.parent_ok(d.spec_index() as int)) by {
                assert(t.occupied(d.spec_index() as int));
            }
            assert(t.at(x).id == x);
            assert(t.spec_depth(d) == t.spec_depth(x) + 1);
            assert(t.pre_fuel(d, (fuel - 1) as nat) == t.spec_subtree_order(d));
            lemma_subtree_ancestor(t, d, x);
        }
    }
    lemma_concat_distinct(seq![x], rest);
}

/// Before removing `removed[j]`, its slot is still occupied and its
/// generation can advance.
proof fn lemma_removed_step<C>(
    t0: UiTree<C>,
    t1: UiTree<C>,
    t2: UiTree<C>,
    removed: Seq<UiNodeId>,
    j: int,
    id: UiNodeId,
    pidx: int,
)
    requires
        t0.wf(),
        t1.same_state(&t0),
        0 <= j < removed.len(),
        removed.no_duplicates(),
        forall|y: UiNodeId| #[trigger] removed.contains(y) ==> t0.spec_contains(y),
        t2.slots@.len() == t0.slots@.len(),
        t2.generations@ == t0.generations@,
        0 <= pidx < t0.slots@.len(),
        t2.slots@[pidx] is Some,
        forall|i: int| 0 <= i < t0.slots@.len() && i != pidx ==> #[trigger] t2.slots@[i] == t1.slots@[i],
    ensures
        !removed_from(removed, j + 1, removed[j].spec_index() as int),
        t2.slots@[removed[j].spec_index() as int] is Some,
        t2.generations@[removed[j].spec_index() as int] == removed[j].spec_generation(),
        (removed[j].spec_index() as int) < t2.slots@.len(),
{
    let y = removed[j];
    let i = y.spec_index() as int;
    assert(removed.contains(y));
    assert(t0.occupied(i));
    if removed_from(removed, j + 1, i) {
        let m = choose|m: int| j + 1 <= m < removed.len() && #[trigger] removed[m].spec_index() == i;
        lemma_live_distinct_slots(t0, removed, j, m);
    }
    if i != pidx {
        assert(t2.slots@[i] == t1.slots@[i]);
        assert(t1.slots@[i] is Some == t0.slots@[i] is Some);
    }
    assert(t0.at(y).id == y);
}

/// Below a node on the path from `id` lies another such node.
proof fn lemma_below_path<C>(t: UiTree<C>, id: UiNodeId, x: UiNodeId)
    requires
        t.wf(),
        t.spec_contains(x),
        x.spec_index() != 0,
        t.spec_on_root_path(id, t.spec_parent(x).unwrap()),
    ensures
        t.spec_on_root_path(id, x),
{
    let i = x.spec_index() as int;
    assert(t.occupied(i));
    assert(t.parent_ok(i));
    let p = t.spec_parent(x).unwrap();
    let k = choose|k: nat| k <= t.spec_depth(p) && #[trigger] t.spec_ancestor(p, k) == id;
    assert(t.spec_ancestor(x, k + 1) == t.spec_ancestor(p, k));
    assert(t.at(x).id == x);
}

/// Above a node strictly below `id` lies a node on the path from `id`.
proof fn lemma_above_path<C>(t: UiTree<C>, id: UiNodeId, c: UiNodeId)
    requires
        t.wf(),
        t.spec_contains(c),
        c != id,
        t.spec_on_root_path(id, c),
    ensures
        c.spec_index() != 0,
        t.spec_parent(c) is Some,
        t.spec_on_root_path(id, t.spec_parent(c).unwrap()),
{
    let i = c.spec_index() as int;
    assert(t.occupied(i));
    let k = choose|k: nat| k <= t.spec_depth(c) && #[trigger] t.spec_ancestor(c, k) == id;
    assert(k != 0);
    assert(t.spec_depth(c) >= 1);
    assert(i != 0) by {
        assert(t.occupied(0));
        if i == 0 {
            assert(t.at(c).id == UiNodeId::spec_new(0, t.generations@[0]));
        }
    }
    assert(t.parent_ok(i));
    let p = t.spec_parent(c).unwrap();
    assert(t.at(c).id == c);
    assert(t.spec_ancestor(c, k) == t.spec_ancestor(p, (k - 1) as nat));
    assert(t.spec_depth(c) == t.spec_depth(p) + 1);
}

/// After the subtree of `id` is unlinked from `parent` and its slots are
/// freed, the tree is well formed and holds exactly the other nodes.
#[verifier::rlimit(60)]
proof fn lemma_destroy_wf<C>(
    t0: UiTree<C>,
    t1: UiTree<C>,
    t2: UiTree<C>,
    t3: UiTree<C>,
    id: UiNodeId,
    parent: UiNodeId,
    removed: Seq<UiNodeId>,
)
    requires
        t0.wf(),
        t0.spec_contains(id),
        id != t0.root,
        t0.spec_parent(id) == Some(parent),
        t1.same_state(&t0),
        removed == t0.spec_subtree_order(id),
        removed.no_duplicates(),
        forall|y: UiNodeId| #[trigger] removed.contains(y) <==> (t0.spec_contains(y) && t0.spec_on_root_path(id, y)),
        forall|m: int| 0 <= m < removed.len() ==> (#[trigger] removed[m]).spec_generation() < u32::MAX,
        t2.slots@.len() == t0.slots@.len(),
        forall|i: int|
            0 <= i < t0.slots@.len() && i != parent.spec_index() ==> #[trigger] t2.slots@[i] == t1.slots@[i],
        t2.slots@[parent.spec_index() as int] is Some,
        ({
            let pn = t2.node(parent.spec_index() as int);
            let qn = t1.node(parent.spec_index() as int);
            &&& pn.id == qn.id
            &&& pn.parent == qn.parent
            &&& pn.content == qn.content
            &&& pn.rect == qn.rect
            &&& pn.dirty == qn.dirty
            &&& pn.children@ == qn.children@.filter(|c: UiNodeId| c != id)
            &&& pn.children@.no_duplicates()
            &&& forall|c: UiNodeId| #[trigger] pn.children@.contains(c) <==> (qn.children@.contains(c) && c != id)
        }),
        t2.generations@ == t0.generations@,
        t2.free@ == t0.free@,
        t2.count == t0.count,
        t2.root == t0.root,
        t2.max_nodes == t0.max_nodes,
        t2.max_depth == t0.max_depth,
        t2.depths@ == t0.depths@,
        t2.bound@ == t0.bound@,
        t3.slots@.len() == t2.slots@.len(),
        t3.generations@.len() == t2.generations@.len(),
        forall|i: int|
            0 <= i < t2.slots@.len() ==> #[trigger] t3.slots@[i] == if removed_from(removed, 0, i) {
                None
            } else {
                t2.slots@[i]
            },
        forall|i: int|
            0 <= i < t2.generations@.len() ==> #[trigger] t3.generations@[i] == if removed_from(removed, 0, i) {
                (t2.generations@[i] + 1) as u32
            } else {
                t2.generations@[i]
            },
        t3.free@ == t2.free@ + freed_from(removed, 0),
        t3.count == live_count(t3.slots@),
        t3.count + removed.len() == t2.count,
        t3.root == t2.root,
        t3.max_nodes == t2.max_nodes,
        t3.max_depth == t2.max_depth,
        t3.depths@ == t2.depths@,
        t3.bound@ == t2.bound@,
    ensures
        t3.wf(),
        forall|x: UiNodeId| #[trigger] t3.spec_contains(x) == (t0.spec_contains(x) && !removed.contains(x)),
        t3.spec_children(parent) == t0.spec_children(parent).filter(|c: UiNodeId| c != id),
        t3.same_node_but_children(&t0, parent),
        forall|x: UiNodeId| #[trigger] t3.spec_contains(x) && x != parent ==> t3.same_node(&t0, x),
        t3.spec_next_id() == UiNodeId::spec_new(id.spec_index(), (id.spec_generation() + 1) as u32),
{
    let pidx = parent.spec_index() as int;
    let n = t0.slots@.len();
    // Slot-level facts.
    assert forall|m: int| 0 <= m < removed.len() implies t0.spec_contains(#[trigger] removed[m])
        && (removed[m].spec_index() as int) < n && t0.occupied(removed[m].spec_index() as int) by {
        assert(removed.contains(removed[m]));
    }
    assert(t0.occupied(id.spec_index() as int));
    let iid = id.spec_index() as int;
    assert(iid != 0) by {
        assert(t0.occupied(0));
    }
    assert(t0.parent_ok(iid));
    assert(t0.spec_contains(parent));
    assert(t0.occupied(pidx));
    assert(t0.at(id).id == id);
    // The parent and the root stay.
    assert(!removed.contains(parent)) by {
        if removed.contains(parent) {
            let k = choose|k: nat| k <= t0.spec_depth(parent) && #[trigger] t0.spec_ancestor(parent, k) == id;
            lemma_ancestor_live(t0, parent, k);
        }
    }
    assert(t0.occupied(0));
    assert(t0.spec_contains(t0.root));
    assert(!removed.contains(t0.root)) by {
        if removed.contains(t0.root) {
            let k = choose|k: nat| k <= t0.spec_depth(t0.root) && #[trigger] t0.spec_ancestor(t0.root, k) == id;
            assert(t0.spec_depth(t0.root) == 0);
        }
    }
    // A slot is freed exactly when it held a removed node.
    assert forall|i: int| 0 <= i < n implies (#[trigger] removed_from(removed, 0, i) <==> (t0.occupied(i)
        && removed.contains(t0.node(i).id))) by {
        if removed_from(removed, 0, i) {
            let m = choose|m: int| 0 <= m < removed.len() && #[trigger] removed[m].spec_index() == i;
            assert(removed.contains(removed[m]));
            assert(t0.at(removed[m]).id == removed[m]);
        }
        if t0.occupied(i) && removed.contains(t0.node(i).id) {
            let y = t0.node(i).id;
            let m = choose|m: int| 0 <= m < removed.len() && removed[m] == y;
            assert(removed[m].spec_index() == i);
        }
    }
    assert(!removed_from(removed, 0, pidx)) by {
        assert(t0.node(pidx).id == parent);
    }
    assert(!removed_from(removed, 0, 0)) by {
        assert(t0.node(0).id == t0.root);
    }
    // Occupancy and nodes of the result.
    assert forall|i: int| #[trigger] t3.occupied(i) implies t0.occupied(i) && !removed.contains(t0.node(i).id)
        && (i != pidx ==> node_eq(t3.node(i), t0.node(i))) && t3.generations@[i] == t0.generations@[i] by {
        assert(!removed_from(removed, 0, i));
        assert(t3.slots@[i] == t2.slots@[i]);
        if i != pidx {
            assert(t2.slots@[i] == t1.slots@[i]);
            assert(t1.slots@[i] is Some == t0.slots@[i] is Some);
            assert(t1.occupied(i));
            assert(node_eq(t1.node(i), t0.node(i)));
        }
        assert(t0.occupied(i));
    }
    assert forall|i: int| #[trigger] t0.occupied(i) && !removed.contains(t0.node(i).id) implies t3.occupied(i) by {
        assert(!removed_from(removed, 0, i));
        assert(t3.slots@[i] == t2.slots@[i]);
        if i != pidx {
            assert(t2.slots@[i] == t1.slots@[i]);
            assert(t1.slots@[i] is Some == t0.slots@[i] is Some);
        }
    }
    let pn3 = t3.node(pidx);
    assert(pn3 == t2.node(pidx)) by {
        assert(t3.slots@[pidx] == t2.slots@[pidx]);
    }
    assert(t1.slots@[pidx] is Some == t0.slots@[pidx] is Some);
    assert(t1.occupied(pidx));
    assert(node_eq(t1.node(pidx), t0.node(pidx)));
    assert(removed[0] == id) by {
        let i = id.spec_index() as int;
        assert(t0.depths@[i] < t0.bound@);
    }
    assert(removed.contains(id));
    assert forall|x: UiNodeId| #[trigger] t3.spec_contains(x) == (t0.spec_contains(x) && !removed.contains(x)) by {
        let i = x.spec_index() as int;
        if t3.spec_contains(x) {
            assert(t3.occupied(i));
            assert(t0.occupied(i));
            if i == pidx {
                assert(t3.node(i).id == t0.node(i).id);
            }
        }
        if t0.spec_contains(x) && !removed.contains(x) {
            assert(t0.occupied(i));
            assert(t0.node(i).id == x);
            assert(t3.occupied(i));
            if i == pidx {
                assert(t3.node(i).id == t0.node(i).id);
            }
        }
    }
    // The invariant.
    assert forall|i: int| #[trigger] t3.occupied(i) implies t3.node(i).id == UiNodeId::spec_new(
        i as u32,
        t3.generations@[i],
    ) by {
        assert(t0.occupied(i));
        if i == pidx {
            assert(t3.node(i).id == t0.node(i).id);
        }
    }
    assert forall|i: int| 0 < i && #[trigger] t3.occupied(i) implies t3.parent_ok(i) by {
        assert(t0.occupied(i));
        assert(t0.parent_ok(i));
        let x = t0.node(i).id;
        let p = t0.node(i).parent.unwrap();
        assert(t3.node(i).id == x && t3.node(i).parent == Some(p)) by {
            if i == pidx {
            } else {
                assert(node_eq(t3.node(i), t0.node(i)));
            }
        }
        assert(t0.at(x).id == x);
        assert(!removed.contains(p)) by {
            if removed.contains(p) {
                assert(t0.spec_parent(x) == Some(p));
                lemma_below_path(t0, id, x);
                assert(removed.contains(x));
            }
        }
        assert(t3.spec_contains(p));
        let pj = p.spec_index() as int;
        assert(t0.occupied(pj));
        assert(t0.at(p).children@.contains(x));
        if pj == pidx {
            assert(p == parent) by {
                assert(t0.node(pj).id == p);
            }
            assert(x != id);
            assert(t1.node(pidx).children@ == t0.node(pidx).children@);
            assert(pn3.children@.contains(x));
        } else {
            assert(node_eq(t3.node(pj), t0.node(pj)));
        }
    }
    assert forall|i: int| #[trigger] t3.occupied(i) implies t3.children_ok(i) by {
        assert(t0.occupied(i));
        assert(t0.children_ok(i));
        let s = t0.node(i).id;
        let cs3 = t3.node(i).children@;
        assert(cs3.no_duplicates()) by {
            if i != pidx {
                assert(node_eq(t3.node(i), t0.node(i)));
            }
        }
        assert forall|k: int| 0 <= k < cs3.len() implies t3.child_ok(i, #[trigger] cs3[k]) by {
            let c = cs3[k];
            assert(cs3.contains(c));
            assert(t0.node(i).children@.contains(c) && (i == pidx ==> c != id)) by {
                if i == pidx {
                    assert(pn3.children@.contains(c));
                    assert(t1.node(pidx).children@ == t0.node(pidx).children@);
                } else {
                    assert(node_eq(t3.node(i), t0.node(i)));
                }
            }
            let kk = choose|kk: int| 0 <= kk < t0.node(i).children@.len() && t0.node(i).children@[kk] == c;
            assert(t0.child_ok(i, t0.node(i).children@[kk]));
            assert(t3.node(i).id == s) by {
                if i != pidx {
                    assert(node_eq(t3.node(i), t0.node(i)));
                }
            }
            assert(!removed.contains(c)) by {
                if removed.contains(c) {
                    if c == id {
                        assert(t0.at(id).parent == Some(s));
                        assert(s == parent);
                        assert(i == pidx) by {
                            assert(t0.node(i).id == s);
                        }
                    } else {
                        lemma_above_path(t0, id, c);
                        assert(t0.spec_parent(c) == Some(s));
                        assert(removed.contains(s));
                        assert(!t3.occupied(i));
                    }
                }
            }
            assert(t3.spec_contains(c));
            let cj = c.spec_index() as int;
            assert(t0.occupied(cj));
            assert(t3.occupied(cj));
            assert(t3.node(cj).parent == t0.node(cj).parent) by {
                if cj == pidx {
                    assert(pn3.parent == t0.node(pidx).parent);
                } else {
                    assert(node_eq(t3.node(cj), t0.node(cj)));
                }
            }
        }
    }
    assert forall|i: int| 0 <= i < t3.slots@.len() implies #[trigger] t3.depths@[i] < t3.bound@ by {
        assert(t0.depths@[i] < t0.bound@);
    }
    // Free slots.
    let fr = freed_from(removed, 0);
    assert forall|m: int| 0 <= m < fr.len() implies t3.free_ok(#[trigger] fr[m]) by {
        let q = removed.len() - 1 - m;
        assert(fr[m] == removed[q].spec_index());
        assert(removed_from(removed, 0, fr[m] as int));
        assert(removed.contains(removed[q]));
        assert(fr[m] != 0) by {
            if fr[m] == 0 {
                assert(t0.node(0).id == removed[q]) by {
                    assert(t0.at(removed[q]).id == removed[q]);
                }
            }
        }
    }
    assert forall|k: int| 0 <= k < t3.free@.len() implies t3.free_ok(#[trigger] t3.free@[k]) by {
        if k < t0.free@.len() {
            assert(t3.free@[k] == t0.free@[k]);
            assert(t0.free_ok(t0.free@[k]));
            let f = t0.free@[k] as int;
            assert(!t0.occupied(f));
            assert(f != pidx);
            if !removed_from(removed, 0, f) {
                assert(t3.slots@[f] == t2.slots@[f]);
                assert(t2.slots@[f] == t1.slots@[f]);
                assert(t1.slots@[f] is Some == t0.slots@[f] is Some);
            }
        } else {
            assert(t3.free@[k] == fr[k - t0.free@.len()]);
        }
    }
    assert(fr.no_duplicates()) by {
        assert forall|a: int, b: int| 0 <= a < b < fr.len() implies fr[a] != fr[b] by {
            let qa = removed.len() - 1 - a;
            let qb = removed.len() - 1 - b;
            lemma_live_distinct_slots(t0, removed, qa, qb);
        }
    }
    assert forall|y: u32| t0.free@.contains(y) implies !fr.contains(y) by {
        let k = choose|k: int| 0 <= k < t0.free@.len() && t0.free@[k] == y;
        assert(t0.free_ok(t0.free@[k]));
        if fr.contains(y) {
            let m = choose|m: int| 0 <= m < fr.len() && fr[m] == y;
            let q = removed.len() - 1 - m;
            assert(fr[m] == removed[q].spec_index());
            assert(t0.occupied(removed[q].spec_index() as int));
        }
    }
    lemma_concat_distinct(t0.free@, fr);
    // The count.
    lemma_live_count_positive(t3.slots@, 0);
    assert(t3.occupied(0)) by {
        assert(t3.slots@[0] == t2.slots@[0]);
        if pidx != 0 {
            assert(t2.slots@[0] == t1.slots@[0]);
            assert(t1.slots@[0] is Some == t0.slots@[0] is Some);
        }
    }
    assert(t3.node(0).parent is None && t3.node(0).id == t3.root) by {
        assert(t3.slots@[0] == t2.slots@[0]);
        if pidx != 0 {
            assert(node_eq(t3.node(0), t0.node(0)));
        }
    }
    assert(t3.generations@[0] == 1);
    // What the caller sees.
    assert forall|x: UiNodeId| #[trigger] t3.spec_contains(x) && x != parent implies t3.same_node(&t0, x) by {
        let i = x.spec_index() as int;
        assert(t3.occupied(i));
        assert(i != pidx) by {
            if i == pidx {
                assert(t3.node(i).id == parent);
            }
        }
    }
    assert(t3.spec_children(parent) == t0.spec_children(parent).filter(|c: UiNodeId| c != id)) by {
        assert(t1.node(pidx).children@ == t0.node(pidx).children@);
    }
    assert(removed[0] == id) by {
        let i = id.spec_index() as int;
        assert(t0.depths@[i] < t0.bound@);
    }
    assert(t3.free@.last() == id.spec_index());
    assert(removed_from(removed, 0, iid)) by {
        assert(removed[0].spec_index() == iid);
    }
    assert(t3.generations@[iid] == (t0.generations@[iid] + 1) as u32);
    assert(t0.node(iid).id == UiNodeId::spec_new(iid as u32, t0.generations@[iid]));
}

/// After relinking `id` from `op` to `np` and shifting the depths of its
/// subtree, the tree is well formed with the same nodes.
#[verifier::rlimit(60)]
proof fn lemma_reparent_wf<C>(
    t0: UiTree<C>,
    t1: UiTree<C>,
    t2: UiTree<C>,
    id: UiNodeId,
    np: UiNodeId,
    op: UiNodeId,
    on: UiNode<C>,
    nn: UiNode<C>,
    inn: UiNode<C>,
)
    requires
        t0.wf(),
        t1.same_state(&t0),
        id != t0.root,
        t0.spec_contains(id),
        t0.spec_contains(np),
        !t0.spec_on_root_path(id, np),
        t0.spec_parent(id) == Some(op),
        t2.slots@ == t1.slots@.update(op.spec_index() as int, Some(on)).update(
            np.spec_index() as int,
            Some(nn),
        ).update(id.spec_index() as int, Some(inn)),
        ({
            let b = t1.node(id.spec_index() as int);
            &&& inn == (UiNode { parent: Some(np), ..b })
        }),
        ({
            let b = t1.node(op.spec_index() as int);
            &&& on.id == b.id && on.content == b.content && on.rect == b.rect && on.dirty == b.dirty
            &&& on.parent == b.parent
            &&& on.children@ == b.children@.filter(|c: UiNodeId| c != id)
            &&& on.children@.no_duplicates()
            &&& forall|c: UiNodeId| #[trigger] on.children@.contains(c) <==> (b.children@.contains(c) && c != id)
        }),
        ({
            let b = if op == np {
                on
            } else {
                t1.node(np.spec_index() as int)
            };
            &&& nn == (UiNode { children: nn.children, ..b })
            &&& nn.children@ == b.children@.push(id)
        }),
        t2.generations@ == t0.generations@,
        t2.free@ == t0.free@,
        t2.root == t0.root,
        t2.count == t0.count,
        t2.max_nodes == t0.max_nodes,
        t2.max_depth == t0.max_depth,
        t2.depths@ == t0.shifted_depths(id, np),
        t2.bound@ == t0.bound@ + t0.spec_depth(np) + 1,
    ensures
        t2.wf(),
        forall|x: UiNodeId| #[trigger] t2.spec_contains(x) == t0.spec_contains(x),
        forall|x: UiNodeId|
            #[trigger] t0.spec_contains(x) ==> {
                &&& t2.spec_content(x) == t0.spec_content(x)
                &&& t2.spec_rect(x) == t0.spec_rect(x)
                &&& t2.spec_dirty(x) == t0.spec_dirty(x)
                &&& x != id ==> t2.spec_parent(x) == t0.spec_parent(x)
                &&& x != op && x != np ==> t2.spec_children(x) == t0.spec_children(x)
                &&& t2.spec_depth(x) == if t0.spec_on_root_path(id, x) {
                    t0.spec_depth(x) - t0.spec_depth(id) + t0.spec_depth(np) + 1
                } else {
                    t0.spec_depth(x) as int
                }
            },
{
    let ix = id.spec_index() as int;
    let npx = np.spec_index() as int;
    let opx = op.spec_index() as int;
    let n = t0.slots@.len();
    assert(t0.occupied(ix));
    assert(t0.occupied(0));
    assert(ix != 0);
    assert(t0.parent_ok(ix));
    assert(t0.spec_contains(op));
    assert(t0.occupied(opx));
    assert(t0.occupied(npx));
    assert(t0.at(id).id == id);
    assert(t0.at(np).id == np);
    assert(t0.at(op).id == op);
    // Membership in the moved subtree.
    assert(t0.spec_on_root_path(id, id)) by {
        assert(t0.spec_ancestor(id, 0) == id);
    }
    assert(!t0.spec_on_root_path(id, op)) by {
        if t0.spec_on_root_path(id, op) {
            let k = choose|k: nat| k <= t0.spec_depth(op) && #[trigger] t0.spec_ancestor(op, k) == id;
            lemma_ancestor_live(t0, op, k);
        }
    }
    assert(ix != npx && ix != opx) by {
        if ix == npx {
            assert(t0.spec_ancestor(np, 0) == np);
        }
    }
    assert(t1.slots@[ix] is Some == t0.slots@[ix] is Some);
    assert(t1.slots@[opx] is Some == t0.slots@[opx] is Some);
    assert(t1.slots@[npx] is Some == t0.slots@[npx] is Some);
    assert(t1.occupied(ix) && t1.occupied(opx) && t1.occupied(npx));
    assert(node_eq(t1.node(ix), t0.node(ix)));
    assert(node_eq(t1.node(opx), t0.node(opx)));
    assert(node_eq(t1.node(npx), t0.node(npx)));
    assert(t2.slots@.len() == n);
    assert forall|i: int|
        0 <= i < n && i != ix && i != npx && i != opx implies #[trigger] t2.slots@[i] == t1.slots@[i] by {}
    assert(t2.slots@[ix] == Some(inn));
    assert(t2.slots@[npx] == Some(nn));
    assert(op != np ==> t2.slots@[opx] == Some(on));
    assert(op == np ==> t2.slots@[opx] == Some(nn));
    // Every slot keeps whether it is occupied, and untouched ones their node.
    assert forall|i: int| 0 <= i < n implies (#[trigger] t2.slots@[i] is Some) == (t0.slots@[i] is Some) by {
        if i != ix && i != npx && i != opx {
            assert(t2.slots@[i] == t1.slots@[i]);
            assert(t1.slots@[i] is Some == t0.slots@[i] is Some);
        }
    }
    assert forall|i: int| #[trigger] t2.occupied(i) <==> t0.occupied(i) by {
        if 0 <= i < n {
            assert(t2.slots@[i] is Some == t0.slots@[i] is Some);
        }
    }
    assert forall|i: int| #[trigger] t0.occupied(i) && i != ix && i != npx && i != opx implies node_eq(
        t2.node(i),
        t0.node(i),
    ) by {
        assert(t2.slots@[i] == t1.slots@[i]);
        assert(t1.occupied(i));
    }
    assert forall|i: int| #[trigger] t0.occupied(i) implies t2.node(i).id == t0.node(i).id && (i != ix
        ==> t2.node(i).parent == t0.node(i).parent) && t2.node(i).content == t0.node(i).content
        && t2.node(i).rect == t0.node(i).rect && t2.node(i).dirty == t0.node(i).dirty by {
        if i != ix && i != npx && i != opx {
            assert(node_eq(t2.node(i), t0.node(i)));
        }
    }
    lemma_live_count_same(t2.slots@, t0.slots@);
    assert forall|x: UiNodeId| #[trigger] t2.spec_contains(x) == t0.spec_contains(x) by {
        let i = x.spec_index() as int;
        if t0.occupied(i) {
            assert(t2.node(i).id == t0.node(i).id);
        }
    }
    // Depths.
    assert forall|i: int| #[trigger] t0.occupied(i) implies t2.depths@[i] == if t0.spec_on_root_path(
        id,
        t0.node(i).id,
    ) {
        t0.depths@[i] - t0.spec_depth(id) + t0.spec_depth(np) + 1
    } else {
        t0.depths@[i] as int
    } && (t0.spec_on_root_path(id, t0.node(i).id) ==> t0.depths@[i] >= t0.spec_depth(id)) by {
        let x = t0.node(i).id;
        if t0.spec_on_root_path(id, x) {
            assert(t0.at(x).id == x);
            let k = choose|k: nat| k <= t0.spec_depth(x) && #[trigger] t0.spec_ancestor(x, k) == id;
            lemma_ancestor_live(t0, x, k);
        }
    }
    assert(t2.depths@[npx] == t0.depths@[npx]);
    assert(t2.depths@[ix] == t0.depths@[npx] + 1);
    // The invariant, clause by clause.
    assert forall|i: int| #[trigger] t2.occupied(i) implies t2.node(i).id == UiNodeId::spec_new(
        i as u32,
        t2.generations@[i],
    ) by {}
    assert forall|i: int| 0 < i && #[trigger] t2.occupied(i) implies t2.parent_ok(i) by {
        let x = t0.node(i).id;
        assert(t0.at(x).id == x);
        if i == ix {
            assert(t2.node(npx).children@.contains(id)) by {
                assert(t2.node(npx).children@.last() == id);
            }
        } else {
            assert(t0.parent_ok(i));
            let p = t0.node(i).parent.unwrap();
            let pj = p.spec_index() as int;
            assert(t0.occupied(pj));
            assert(t0.at(p).id == p);
            assert(t2.node(i).parent == Some(p));
            assert(t2.spec_contains(p));
            // Depths move together.
            if t0.spec_on_root_path(id, x) {
                assert(x != id);
                lemma_above_path(t0, id, x);
                assert(t0.spec_on_root_path(id, p));
            } else {
                if t0.spec_on_root_path(id, p) {
                    lemma_below_path(t0, id, x);
                }
            }
            // The parent still lists it.
            assert(t0.node(pj).children@.contains(x));
            if pj == opx || pj == npx {
                if pj == opx {
                    assert(x != id);
                    if op == np {
                        let b = t0.node(npx).children@;
                        let base = b.filter(|c: UiNodeId| c != id);
                        assert(base.contains(x));
                        let q = choose|q: int| 0 <= q < base.len() && base[q] == x;
                        assert(t2.node(npx).children@[q] == x);
                    } else {
                        assert(t2.node(opx).children@.contains(x));
                    }
                } else {
                    assert(op != np);
                    let q = choose|q: int| 0 <= q < t0.node(npx).children@.len() && t0.node(npx).children@[q] == x;
                    assert(t2.node(npx).children@[q] == x);
                }
            } else if pj == ix {
                assert(t2.node(pj).children@ == t0.node(pj).children@);
            } else {
                assert(node_eq(t2.node(pj), t0.node(pj)));
            }
        }
    }
    assert forall|i: int| #[trigger] t2.occupied(i) implies t2.children_ok(i) by {
        assert(t0.children_ok(i));
        let s = t0.node(i).id;
        let cs0 = t0.node(i).children@;
        let cs2 = t2.node(i).children@;
        assert(t2.node(i).id == s);
        if i == npx {
            let base = if op == np {
                cs0.filter(|c: UiNodeId| c != id)
            } else {
                cs0
            };
            assert(!base.contains(id)) by {
                if base.contains(id) && op != np {
                    let q = choose|q: int| 0 <= q < cs0.len() && cs0[q] == id;
                    assert(t0.child_ok(i, cs0[q]));
                }
            }
            assert forall|a: int, b: int| 0 <= a < b < cs2.len() implies cs2[a] != cs2[b] by {
                if b == cs2.len() - 1 {
                    assert(cs2[a] == base[a]);
                    assert(base.contains(cs2[a]));
                } else {
                    assert(cs2[a] == base[a] && cs2[b] == base[b]);
                }
            }
            assert forall|k: int| 0 <= k < cs2.len() implies t2.child_ok(i, #[trigger] cs2[k]) by {
                let c = cs2[k];
                if k == cs2.len() - 1 {
                    assert(c == id);
                    assert(t2.spec_contains(id));
                } else {
                    assert(c == base[k]);
                    assert(base.contains(c));
                    if op == np {
                        assert(cs0.contains(c) && c != id);
                    } else {
                        assert(cs0[k] == c);
                        assert(c != id);
                    }
                    let q = choose|q: int| 0 <= q < cs0.len() && cs0[q] == c;
                    assert(t0.child_ok(i, cs0[q]));
                    let cj = c.spec_index() as int;
                    assert(t0.occupied(cj));
                    assert(cj != ix) by {
                        assert(t0.at(c).id == c);
                    }
                }
            }
        } else if i == opx {
            assert forall|k: int| 0 <= k < cs2.len() implies t2.child_ok(i, #[trigger] cs2[k]) by {
                let c = cs2[k];
                assert(cs2.contains(c));
                assert(cs0.contains(c) && c != id);
                let q = choose|q: int| 0 <= q < cs0.len() && cs0[q] == c;
                assert(t0.child_ok(i, cs0[q]));
                let cj = c.spec_index() as int;
                assert(t0.occupied(cj));
                assert(cj != ix) by {
                    assert(t0.at(c).id == c);
                }
            }
        } else {
            if i != ix {
                assert(node_eq(t2.node(i), t0.node(i)));
            }
            assert(cs2 == cs0);
            assert forall|k: int| 0 <= k < cs2.len() implies t2.child_ok(i, #[trigger] cs2[k]) by {
                let c = cs2[k];
                assert(t0.child_ok(i, cs0[k]));
                let cj = c.spec_index() as int;
                assert(t0.occupied(cj));
                assert(cj != ix) by {
                    if cj == ix {
                        assert(t0.at(c).id == c);
                        assert(c == id);
                        assert(t0.at(id).parent == Some(s));
                        assert(s == op);
                        assert(t0.at(s).id == s);
                    }
                }
            }
        }
    }
    assert forall|i: int| 0 <= i < t2.slots@.len() implies #[trigger] t2.depths@[i] < t2.bound@ by {
        assert(t0.depths@[i] < t0.bound@);
    }
    assert forall|k: int| 0 <= k < t2.free@.len() implies t2.free_ok(#[trigger] t2.free@[k]) by {
        assert(t0.free_ok(t0.free@[k]));
        let f = t0.free@[k] as int;
        assert(t2.slots@[f] is Some == t0.slots@[f] is Some);
    }
    assert(t2.node(0).parent is None && t2.node(0).id == t2.root) by {
        assert(t2.node(0).id == t0.node(0).id);
    }
    assert forall|x: UiNodeId|
        #[trigger] t0.spec_contains(x) implies {
            &&& t2.spec_content(x) == t0.spec_content(x)
            &&& t2.spec_rect(x) == t0.spec_rect(x)
            &&& t2.spec_dirty(x) == t0.spec_dirty(x)
            &&& x != id ==> t2.spec_parent(x) == t0.spec_parent(x)
            &&& x != op && x != np ==> t2.spec_children(x) == t0.spec_children(x)
            &&& t2.spec_depth(x) == if t0.spec_on_root_path(id, x) {
                t0.spec_depth(x) - t0.spec_depth(id) + t0.spec_depth(np) + 1
            } else {
                t0.spec_depth(x) as int
            }
        } by {
        let i = x.spec_index() as int;
        assert(t0.occupied(i));
        assert(t0.at(x).id == x);
        if x != op && x != np && x != id {
            assert(i != opx && i != npx && i != ix);
            assert(node_eq(t2.node(i), t0.node(i)));
        }
        if x == id {
            assert(i == ix);
        }
    }
}

/// What `reparent` reports: the relinked tree, then marked dirty along the
/// new path of `id`.
proof fn lemma_reparent_done<C>(t0: UiTree<C>, t2: UiTree<C>, t3: UiTree<C>, id: UiNodeId, np: UiNodeId, op: UiNodeId)
    requires
        t0.wf(),
        t2.wf(),
        t0.spec_contains(id),
        t0.spec_contains(np),
        t0.spec_parent(id) == Some(op),
        forall|x: UiNodeId| #[trigger] t2.spec_contains(x) == t0.spec_contains(x),
        t2.spec_parent(id) == Some(np),
        t2.spec_children(np) == (if op == np {
            t0.spec_children(op).filter(|c: UiNodeId| c != id)
        } else {
            t0.spec_children(np)
        }).push(id),
        op != np ==> t2.spec_children(op) == t0.spec_children(op).filter(|c: UiNodeId| c != id),
        forall|x: UiNodeId|
            #[trigger] t0.spec_contains(x) ==> {
                &&& t2.spec_content(x) == t0.spec_content(x)
                &&& t2.spec_rect(x) == t0.spec_rect(x)
                &&& t2.spec_dirty(x) == t0.spec_dirty(x)
                &&& x != id ==> t2.spec_parent(x) == t0.spec_parent(x)
                &&& x != op && x != np ==> t2.spec_children(x) == t0.spec_children(x)
                &&& t2.spec_depth(x) == if t0.spec_on_root_path(id, x) {
                    t0.spec_depth(x) - t0.spec_depth(id) + t0.spec_depth(np) + 1
                } else {
                    t0.spec_depth(x) as int
                }
            },
        t3.same_shape(&t2),
        forall|x: UiNodeId|
            #[trigger] t2.spec_contains(x) ==> t3.spec_content(x) == t2.spec_content(x) && t3.spec_rect(x)
                == t2.spec_rect(x) && t3.spec_dirty(x) == (t2.spec_dirty(x) || t2.spec_on_root_path(x, id)),
    ensures
        forall|x: UiNodeId| #[trigger] t3.spec_contains(x) == t0.spec_contains(x),
        t3.spec_parent(id) == Some(np),
        t3.spec_children(np) == (if op == np {
            t0.spec_children(op).filter(|c: UiNodeId| c != id)
        } else {
            t0.spec_children(np)
        }).push(id),
        op != np ==> t3.spec_children(op) == t0.spec_children(op).filter(|c: UiNodeId| c != id),
        forall|x: UiNodeId|
            #[trigger] t0.spec_contains(x) ==> {
                &&& t3.spec_content(x) == t0.spec_content(x)
                &&& t3.spec_rect(x) == t0.spec_rect(x)
                &&& t3.spec_dirty(x) == (t0.spec_dirty(x) || t3.spec_on_root_path(x, id))
                &&& x != id ==> t3.spec_parent(x) == t0.spec_parent(x)
                &&& x != op && x != np ==> t3.spec_children(x) == t0.spec_children(x)
                &&& t3.spec_depth(x) == if t0.spec_on_root_path(id, x) {
                    t0.spec_depth(x) - t0.spec_depth(id) + t0.spec_depth(np) + 1
                } else {
                    t0.spec_depth(x) as int
                }
            },
{
    assert(t2.spec_contains(np));
    assert forall|x: UiNodeId| #[trigger] t3.spec_contains(x) == t0.spec_contains(x) by {
        assert(t3.spec_contains(x) == t2.spec_contains(x));
    }
    assert(t2.spec_contains(id));
    assert(t2.spec_contains(op)) by {
        assert(t0.occupied(id.spec_index() as int));
        if id.spec_index() != 0 {
            assert(t0.parent_ok(id.spec_index() as int));
        } else {
            assert(t0.occupied(0));
        }
    }
    // Both trees walk up alike from every node.
    assert forall|x: UiNodeId| #[trigger] t2.spec_contains(x) implies t3.at(x).parent == t2.at(x).parent by {}
    assert forall|x: UiNodeId|
        #[trigger] t0.spec_contains(x) implies t3.spec_on_root_path(x, id) == t2.spec_on_root_path(x, id) by {
        assert(t3.spec_depth(id) == t2.spec_depth(id));
        if t2.spec_on_root_path(x, id) {
            let k = choose|k: nat| k <= t2.spec_depth(id) && #[trigger] t2.spec_ancestor(id, k) == x;
            lemma_ancestor_same(t2, t3, id, k);
        }
        if t3.spec_on_root_path(x, id) {
            let k = choose|k: nat| k <= t3.spec_depth(id) && #[trigger] t3.spec_ancestor(id, k) == x;
            lemma_ancestor_same(t2, t3, id, k);
        }
    }
    assert forall|x: UiNodeId|
        #[trigger] t0.spec_contains(x) implies {
            &&& t3.spec_content(x) == t0.spec_content(x)
            &&& t3.spec_rect(x) == t0.spec_rect(x)
            &&& t3.spec_dirty(x) == (t0.spec_dirty(x) || t3.spec_on_root_path(x, id))
            &&& x != id ==> t3.spec_parent(x) == t0.spec_parent(x)
            &&& x != op && x != np ==> t3.spec_children(x) == t0.spec_children(x)
            &&& t3.spec_depth(x) == if t0.spec_on_root_path(id, x) {
                t0.spec_depth(x) - t0.spec_depth(id) + t0.spec_depth(np) + 1
            } else {
                t0.spec_depth(x) as int
            }
        } by {
        assert(t2.spec_contains(x));
        assert(t3.at(x).parent == t2.at(x).parent);
        assert(t3.at(x).children@ == t2.at(x).children@);
        assert(t3.spec_depth(x) == t2.spec_depth(x));
    }
    assert(t3.at(id).parent == t2.at(id).parent);
    assert(t3.at(np).children@ == t2.at(np).children@);
    if op != np {
        assert(t3.at(op).children@ == t2.at(op).children@);
    }
}

/// One marking step: `cur`, the `steps`-th node above `id`, becomes dirty.
proof fn lemma_mark_step<C>(t0: UiTree<C>, t1: UiTree<C>, t2: UiTree<C>, id: UiNodeId, cur: UiNodeId, steps: nat)
    requires
        t0.wf(),
        t0.spec_contains(id),
        t0.spec_contains(cur),
        cur == t0.spec_ancestor(id, steps),
        t1.wf(),
        t1.same_shape(&t0),
        forall|x: UiNodeId|
            #[trigger] t0.spec_contains(x) ==> t1.spec_content(x) == t0.spec_content(x) && t1.spec_rect(x)
                == t0.spec_rect(x),
        forall|x: UiNodeId|
            #[trigger] t0.spec_contains(x) ==> t1.spec_dirty(x) == (t0.spec_dirty(x) || exists|j: nat|
                j < steps && #[trigger] t0.spec_ancestor(id, j) == x),
        t1.occupied(cur.spec_index() as int),
        t2.slots@.len() == t1.slots@.len(),
        forall|j: int|
            0 <= j < t1.slots@.len() && j != cur.spec_index() ==> #[trigger] t2.slots@[j] == t1.slots@[j],
        t2.slots@[cur.spec_index() as int] is Some,
        t2.node(cur.spec_index() as int).id == t1.node(cur.spec_index() as int).id,
        t2.node(cur.spec_index() as int).parent == t1.node(cur.spec_index() as int).parent,
        t2.node(cur.spec_index() as int).children@ == t1.node(cur.spec_index() as int).children@,
        t2.node(cur.spec_index() as int).content == t1.node(cur.spec_index() as int).content,
        t2.node(cur.spec_index() as int).rect == t1.node(cur.spec_index() as int).rect,
        t2.node(cur.spec_index() as int).dirty,
        t2.generations@ == t1.generations@,
        t2.free@ == t1.free@,
        t2.root == t1.root,
        t2.count == t1.count,
        t2.max_nodes == t1.max_nodes,
        t2.max_depth == t1.max_depth,
        t2.depths@ == t1.depths@,
        t2.bound@ == t1.bound@,
    ensures
        t2.wf(),
        t2.same_shape(&t0),
        forall|x: UiNodeId|
            #[trigger] t0.spec_contains(x) ==> t2.spec_content(x) == t0.spec_content(x) && t2.spec_rect(x)
                == t0.spec_rect(x),
        forall|x: UiNodeId|
            #[trigger] t0.spec_contains(x) ==> t2.spec_dirty(x) == (t0.spec_dirty(x) || exists|j: nat|
                j < steps + 1 && #[trigger] t0.spec_ancestor(id, j) == x),
{
    let i = cur.spec_index() as int;
    lemma_payload(t1, t2, i);
    assert(t1.spec_contains(cur));
    assert forall|x: UiNodeId| #[trigger] t2.spec_contains(x) == t0.spec_contains(x) by {
        assert(t1.spec_contains(x) == t0.spec_contains(x));
    }
    assert forall|x: UiNodeId|
        #[trigger] t0.spec_contains(x) implies t2.at(x).parent == t0.at(x).parent && t2.at(x).children@
            == t0.at(x).children@ && t2.spec_depth(x) == t0.spec_depth(x) by {
        assert(t1.spec_contains(x));
    }
    assert(t2.same_shape(&t0));
    assert forall|x: UiNodeId|
        #[trigger] t0.spec_contains(x) implies t2.spec_content(x) == t0.spec_content(x) && t2.spec_rect(x)
            == t0.spec_rect(x) && t2.spec_dirty(x) == (t0.spec_dirty(x) || exists|j: nat|
            j < steps + 1 && #[trigger] t0.spec_ancestor(id, j) == x) by {
        assert(t1.spec_contains(x));
        if x == cur {
            assert(t0.spec_ancestor(id, steps) == x);
        } else {
            assert(x.spec_index() != i) by {
                assert(t1.at(x).id == x);
                assert(t1.at(cur).id == cur);
            }
            assert(t2.same_node(&t1, x));
            if exists|j: nat| j < steps + 1 && #[trigger] t0.spec_ancestor(id, j) == x {
                let j = choose|j: nat| j < steps + 1 && #[trigger] t0.spec_ancestor(id, j) == x;
                assert(j < steps);
            }
        }
    }
}

/// Marking stops at the root, having covered the whole path from `id`.
proof fn lemma_mark_done<C>(t0: UiTree<C>, t2: UiTree<C>, id: UiNodeId, steps: nat)
    requires
        steps == t0.spec_depth(id),
        forall|x: UiNodeId|
            #[trigger] t0.spec_contains(x) ==> t2.spec_dirty(x) == (t0.spec_dirty(x) || exists|j: nat|
                j < steps + 1 && #[trigger] t0.spec_ancestor(id, j) == x),
    ensures
        forall|x: UiNodeId|
            #[trigger] t0.spec_contains(x) ==> t2.spec_dirty(x) == (t0.spec_dirty(x) || t0.spec_on_root_path(x, id)),
{
    assert forall|x: UiNodeId|
        #[trigger] t0.spec_contains(x) implies t2.spec_dirty(x) == (t0.spec_dirty(x) || t0.spec_on_root_path(x, id)) by {
        if t0.spec_on_root_path(x, id) {
            let k = choose|k: nat| k <= t0.spec_depth(id) && #[trigger] t0.spec_ancestor(id, k) == x;
            assert(k < steps + 1);
        }
        if exists|j: nat| j < steps + 1 && #[trigger] t0.spec_ancestor(id, j) == x {
            let j = choose|j: nat| j < steps + 1 && #[trigger] t0.spec_ancestor(id, j) == x;
            assert(j <= t0.spec_depth(id));
        }
    }
}

} // verus!
