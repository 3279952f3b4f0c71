//! What a slab's walk yields when the arena holds a proper tree.
//!
//! The walk of `slab` is defined on every arena, as a machine with a stack
//! and a budget. Here the arena is asked to hold a tree, and the walk is
//! shown to be the tree's orders from left to right, or from right to left.

use crate::dex::slab::{
    far_child, first_of, near_child, pending, slot_node, LeafNode, SlabNode, SlabView,
};
use vstd::prelude::*;
use vstd::seq_lib::lemma_no_dup_in_concat;
use vstd::set_lib::{lemma_int_range, lemma_len_subset, set_int_range};

verus! {

/// Whether slot `i` roots a tree of forks and orders that is at most
/// `depth` slots deep: every slot below it lies in the arena and is a fork
/// or an order.
pub open spec fn is_tree(nodes: Seq<SlabNode>, i: u32, depth: nat) -> bool
    decreases depth,
{
    &&& depth > 0
    &&& i < nodes.len()
    &&& match nodes[i as int] {
        SlabNode::Leaf(_) => true,
        SlabNode::Inner(inner) => is_tree(nodes, inner.left, (depth - 1) as nat) && is_tree(
            nodes,
            inner.right,
            (depth - 1) as nat,
        ),
        _ => false,
    }
}

/// The slots of the tree at `i`, each fork before what lies below it.
pub open spec fn tree_slots(nodes: Seq<SlabNode>, i: u32, depth: nat) -> Seq<int>
    decreases depth,
{
    if depth == 0 {
        Seq::empty()
    } else {
        match slot_node(nodes, i) {
            SlabNode::Leaf(_) => seq![i as int],
            SlabNode::Inner(inner) => seq![i as int] + tree_slots(
                nodes,
                inner.left,
                (depth - 1) as nat,
            ) + tree_slots(nodes, inner.right, (depth - 1) as nat),
            _ => Seq::empty(),
        }
    }
}

/// The slots of the orders of the tree at `i`, from left to right.
pub open spec fn leaf_slots(nodes: Seq<SlabNode>, i: u32, depth: nat) -> Seq<int>
    decreases depth,
{
    if depth == 0 {
        Seq::empty()
    } else {
        match slot_node(nodes, i) {
            SlabNode::Leaf(_) => seq![i as int],
            SlabNode::Inner(inner) => leaf_slots(nodes, inner.left, (depth - 1) as nat)
                + leaf_slots(nodes, inner.right, (depth - 1) as nat),
            _ => Seq::empty(),
        }
    }
}

/// The orders of the tree at `i`: from left to right if `ascending`, else
/// from right to left.
pub open spec fn tree_leaves(nodes: Seq<SlabNode>, i: u32, depth: nat, ascending: bool) -> Seq<
    LeafNode,
>
    decreases depth,
{
    if depth == 0 {
        Seq::empty()
    } else {
        match slot_node(nodes, i) {
            SlabNode::Leaf(leaf) => seq![leaf],
            SlabNode::Inner(inner) => tree_leaves(
                nodes,
                near_child(inner, ascending),
                (depth - 1) as nat,
                ascending,
            ) + tree_leaves(nodes, far_child(inner, ascending), (depth - 1) as nat, ascending),
            _ => Seq::empty(),
        }
    }
}

/// Whether the tree at `i` is a search tree: at every fork, each key on the
/// left is below each key on the right.
pub open spec fn is_search_tree(nodes: Seq<SlabNode>, i: u32, depth: nat) -> bool
    decreases depth,
{
    depth > 0 ==> match slot_node(nodes, i) {
        SlabNode::Inner(inner) => {
            let left = tree_leaves(nodes, inner.left, (depth - 1) as nat, true);
            let right = tree_leaves(nodes, inner.right, (depth - 1) as nat, true);
            &&& is_search_tree(nodes, inner.left, (depth - 1) as nat)
            &&& is_search_tree(nodes, inner.right, (depth - 1) as nat)
            &&& forall|x: int, y: int|
                0 <= x < left.len() && 0 <= y < right.len() ==> (#[trigger] left[x]).key < (
                #[trigger] right[y]).key
        },
        _ => true,
    }
}

/// Whether the keys of `s` rise strictly.
pub open spec fn keys_rise(s: Seq<LeafNode>) -> bool {
    forall|x: int, y: int| 0 <= x < y < s.len() ==> (#[trigger] s[x]).key < (#[trigger] s[y]).key
}

impl SlabView {
    /// Whether the arena holds what the header promises: below the root a
    /// tree of forks and orders in which no slot is reached twice, with as
    /// many orders as the header counts. A header that counts no orders
    /// promises nothing.
    pub open spec fn well_formed(&self) -> bool {
        self.leaf_count > 0 ==> {
            &&& is_tree(self.nodes, self.root, self.nodes.len())
            &&& tree_slots(self.nodes, self.root, self.nodes.len()).no_duplicates()
            &&& leaf_slots(self.nodes, self.root, self.nodes.len()).to_set().len()
                == self.leaf_count
        }
    }

    /// Whether the tree below the root is a search tree by key.
    pub open spec fn is_sorted(&self) -> bool {
        self.leaf_count > 0 ==> is_search_tree(self.nodes, self.root, self.nodes.len())
    }

    /// The orders of the tree below the root, read off the tree itself.
    pub open spec fn tree_order(&self, ascending: bool) -> Seq<LeafNode> {
        if self.leaf_count > 0 {
            tree_leaves(self.nodes, self.root, self.nodes.len(), ascending)
        } else {
            Seq::empty()
        }
    }
}

/// The number of forks in the tree at `i`.
pub open spec fn fork_count(nodes: Seq<SlabNode>, i: u32, depth: nat) -> nat
    decreases depth,
{
    if depth == 0 {
        0
    } else {
        match slot_node(nodes, i) {
            SlabNode::Inner(inner) => 1 + fork_count(nodes, inner.left, (depth - 1) as nat)
                + fork_count(nodes, inner.right, (depth - 1) as nat),
            _ => 0,
        }
    }
}

/// A walk that finds the tree at `i` on top of its stack, with budget for
/// each of its forks, yields the orders of that tree and goes on with the
/// rest of the stack and what is left of the budget.
pub proof fn lemma_walk_subtree(
    nodes: Seq<SlabNode>,
    rest: Seq<u32>,
    i: u32,
    depth: nat,
    budget: nat,
    ascending: bool,
)
    requires
        is_tree(nodes, i, depth),
        budget >= fork_count(nodes, i, depth),
    ensures
        pending(nodes, rest.push(i), budget, ascending) == tree_leaves(nodes, i, depth, ascending)
            + pending(nodes, rest, (budget - fork_count(nodes, i, depth)) as nat, ascending),
    decreases depth,
{
    let stack = rest.push(i);
    assert(stack.last() == i);
    assert(stack.drop_last() =~= rest);
    match nodes[i as int] {
        SlabNode::Inner(inner) => {
            let d = (depth - 1) as nat;
            let near = near_child(inner, ascending);
            let far = far_child(inner, ascending);
            let forks_near = fork_count(nodes, near, d);
            let forks_far = fork_count(nodes, far, d);
            assert(fork_count(nodes, i, depth) == 1 + forks_near + forks_far);
            lemma_walk_subtree(nodes, rest.push(far), near, d, (budget - 1) as nat, ascending);
            lemma_walk_subtree(nodes, rest, far, d, (budget - 1 - forks_near) as nat, ascending);
            assert(pending(nodes, stack, budget, ascending) =~= tree_leaves(
                nodes,
                i,
                depth,
                ascending,
            ) + pending(nodes, rest, (budget - 1 - forks_near - forks_far) as nat, ascending));
        },
        _ => {},
    }
}

proof fn lemma_forks_among_slots(nodes: Seq<SlabNode>, i: u32, depth: nat)
    ensures
        fork_count(nodes, i, depth) <= tree_slots(nodes, i, depth).len(),
    decreases depth,
{
    if depth > 0 {
        match slot_node(nodes, i) {
            SlabNode::Inner(inner) => {
                lemma_forks_among_slots(nodes, inner.left, (depth - 1) as nat);
                lemma_forks_among_slots(nodes, inner.right, (depth - 1) as nat);
            },
            _ => {},
        }
    }
}

proof fn lemma_tree_slots_in_arena(nodes: Seq<SlabNode>, i: u32, depth: nat)
    requires
        is_tree(nodes, i, depth),
    ensures
        forall|k: int|
            0 <= k < tree_slots(nodes, i, depth).len() ==> 0 <= #[trigger] tree_slots(
                nodes,
                i,
                depth,
            )[k] < nodes.len(),
    decreases depth,
{
    let all = tree_slots(nodes, i, depth);
    match nodes[i as int] {
        SlabNode::Inner(inner) => {
            let a = tree_slots(nodes, inner.left, (depth - 1) as nat);
            let b = tree_slots(nodes, inner.right, (depth - 1) as nat);
            lemma_tree_slots_in_arena(nodes, inner.left, (depth - 1) as nat);
            lemma_tree_slots_in_arena(nodes, inner.right, (depth - 1) as nat);
            assert(all =~= seq![i as int] + a + b);
            assert forall|k: int| 0 <= k < all.len() implies 0 <= #[trigger] all[k] < nodes.len() by {
                if k == 0 {
                } else if k < 1 + a.len() {
                    assert(all[k] == a[k - 1]);
                } else {
                    assert(all[k] == b[k - 1 - a.len()]);
                }
            }
        },
        _ => {},
    }
}

/// A tree in which no slot is reached twice has no more slots than the
/// arena.
pub proof fn lemma_tree_fits_arena(nodes: Seq<SlabNode>, i: u32, depth: nat)
    requires
        is_tree(nodes, i, depth),
        tree_slots(nodes, i, depth).no_duplicates(),
    ensures
        tree_slots(nodes, i, depth).len() <= nodes.len(),
{
    let slots = tree_slots(nodes, i, depth);
    let arena = set_int_range(0, nodes.len() as int);
    lemma_tree_slots_in_arena(nodes, i, depth);
    lemma_int_range(0, nodes.len() as int);
    assert forall|x: int| slots.to_set().contains(x) implies arena.contains(x) by {
        let k = choose|k: int| 0 <= k < slots.len() && slots[k] == x;
        assert(0 <= slots[k] < nodes.len());
    }
    lemma_len_subset(slots.to_set(), arena);
    slots.unique_seq_to_set();
}

proof fn lemma_leaf_slots_distinct(nodes: Seq<SlabNode>, i: u32, depth: nat)
    requires
        is_tree(nodes, i, depth),
        tree_slots(nodes, i, depth).no_duplicates(),
    ensures
        leaf_slots(nodes, i, depth).no_duplicates(),
        forall|k: int|
            0 <= k < leaf_slots(nodes, i, depth).len() ==> tree_slots(nodes, i, depth).contains(
                #[trigger] leaf_slots(nodes, i, depth)[k],
            ),
    decreases depth,
{
    let all = tree_slots(nodes, i, depth);
    match nodes[i as int] {
        SlabNode::Inner(inner) => {
            let d = (depth - 1) as nat;
            let a = tree_slots(nodes, inner.left, d);
            let b = tree_slots(nodes, inner.right, d);
            let la = leaf_slots(nodes, inner.left, d);
            let lb = leaf_slots(nodes, inner.right, d);
            assert(all =~= seq![i as int] + a + b);
            assert forall|x: int| 0 <= x < a.len() implies a[x] == all[1 + x] by {}
            assert forall|y: int| 0 <= y < b.len() implies b[y] == all[1 + a.len() + y] by {}
            assert(a.no_duplicates()) by {
                assert forall|x: int, y: int| 0 <= x < a.len() && 0 <= y < a.len() && x != y implies a[x]
                    != a[y] by {
                    assert(a[x] == all[1 + x] && a[y] == all[1 + y]);
                }
            }
            assert(b.no_duplicates()) by {
                assert forall|x: int, y: int| 0 <= x < b.len() && 0 <= y < b.len() && x != y implies b[x]
                    != b[y] by {
                    assert(b[x] == all[1 + a.len() + x] && b[y] == all[1 + a.len() + y]);
                }
            }
            lemma_leaf_slots_distinct(nodes, inner.left, d);
            lemma_leaf_slots_distinct(nodes, inner.right, d);
            assert forall|x: int, y: int| 0 <= x < la.len() && 0 <= y < lb.len() implies la[x]
                != lb[y] by {
                assert(a.contains(la[x]));
                assert(b.contains(lb[y]));
                let p = choose|p: int| 0 <= p < a.len() && a[p] == la[x];
                let q = choose|q: int| 0 <= q < b.len() && b[q] == lb[y];
                assert(a[p] == all[1 + p] && b[q] == all[1 + a.len() + q]);
            }
            lemma_no_dup_in_concat(la, lb);
            assert forall|k: int| 0 <= k < (la + lb).len() implies all.contains(
                #[trigger] (la + lb)[k],
            ) by {
                if k < la.len() {
                    assert(a.contains(la[k]));
                    let p = choose|p: int| 0 <= p < a.len() && a[p] == la[k];
                    assert(all[1 + p] == la[k]);
                } else {
                    assert(b.contains(lb[k - la.len()]));
                    let q = choose|q: int| 0 <= q < b.len() && b[q] == lb[k - la.len()];
                    assert(all[1 + a.len() + q] == lb[k - la.len()]);
                }
            }
        },
        SlabNode::Leaf(_) => {
            assert(all[0] == i as int);
        },
        _ => {},
    }
}

proof fn lemma_leaves_len(nodes: Seq<SlabNode>, i: u32, depth: nat, ascending: bool)
    ensures
        tree_leaves(nodes, i, depth, ascending).len() == leaf_slots(nodes, i, depth).len(),
    decreases depth,
{
    if depth > 0 {
        match slot_node(nodes, i) {
            SlabNode::Inner(inner) => {
                lemma_leaves_len(nodes, inner.left, (depth - 1) as nat, ascending);
                lemma_leaves_len(nodes, inner.right, (depth - 1) as nat, ascending);
            },
            _ => {},
        }
    }
}

/// Read from right to left, a tree gives its orders in the reverse of the
/// order from left to right.
pub proof fn lemma_tree_leaves_reverse(nodes: Seq<SlabNode>, i: u32, depth: nat)
    ensures
        tree_leaves(nodes, i, depth, false) == tree_leaves(nodes, i, depth, true).reverse(),
    decreases depth,
{
    let up = tree_leaves(nodes, i, depth, true);
    let down = tree_leaves(nodes, i, depth, false);
    if depth > 0 {
        match slot_node(nodes, i) {
            SlabNode::Inner(inner) => {
                let d = (depth - 1) as nat;
                lemma_tree_leaves_reverse(nodes, inner.left, d);
                lemma_tree_leaves_reverse(nodes, inner.right, d);
                let l = tree_leaves(nodes, inner.left, d, true);
                let r = tree_leaves(nodes, inner.right, d, true);
                assert(up == l + r);
                assert(down == r.reverse() + l.reverse());
                assert(down =~= up.reverse());
            },
            _ => {
                assert(down =~= up.reverse());
            },
        }
    } else {
        assert(down =~= up.reverse());
    }
}

/// Read from left to right, a search tree gives its orders by strictly
/// rising key.
pub proof fn lemma_search_tree_keys_rise(nodes: Seq<SlabNode>, i: u32, depth: nat)
    requires
        is_search_tree(nodes, i, depth),
    ensures
        keys_rise(tree_leaves(nodes, i, depth, true)),
    decreases depth,
{
    if depth > 0 {
        match slot_node(nodes, i) {
            SlabNode::Inner(inner) => {
                let d = (depth - 1) as nat;
                lemma_search_tree_keys_rise(nodes, inner.left, d);
                lemma_search_tree_keys_rise(nodes, inner.right, d);
                let l = tree_leaves(nodes, inner.left, d, true);
                let r = tree_leaves(nodes, inner.right, d, true);
                let s = tree_leaves(nodes, i, depth, true);
                assert(s == l + r);
                assert forall|x: int, y: int| 0 <= x < y < s.len() implies (#[trigger] s[x]).key < (
                #[trigger] s[y]).key by {
                    if y < l.len() {
                        assert(s[x] == l[x] && s[y] == l[y]);
                    } else if x >= l.len() {
                        assert(s[x] == r[x - l.len()] && s[y] == r[y - l.len()]);
                    } else {
                        assert(s[x] == l[x] && s[y] == r[y - l.len()]);
                    }
                }
            },
            _ => {},
        }
    }
}

/// On a well-formed slab a full walk yields the orders of the tree below
/// the root, from left to right or from right to left: the budget covers
/// every fork of the tree.
pub proof fn lemma_walk_is_tree_order(slab: SlabView, ascending: bool)
    requires
        slab.well_formed(),
    ensures
        slab.leaves(ascending) == slab.tree_order(ascending),
{
    if slab.leaf_count > 0 {
        let n = slab.nodes.len();
        lemma_tree_fits_arena(slab.nodes, slab.root, n);
        lemma_forks_among_slots(slab.nodes, slab.root, n);
        lemma_walk_subtree(slab.nodes, Seq::empty(), slab.root, n, n, ascending);
        assert(Seq::<u32>::empty().push(slab.root) =~= slab.start());
        assert(slab.leaves(ascending) =~= slab.tree_order(ascending));
    }
}

/// On a well-formed slab a full walk, in either direction, yields exactly
/// as many orders as the header counts.
pub proof fn lemma_walk_yields_leaf_count(slab: SlabView, ascending: bool)
    requires
        slab.well_formed(),
    ensures
        slab.leaves(ascending).len() == slab.leaf_count,
{
    lemma_walk_is_tree_order(slab, ascending);
    if slab.leaf_count > 0 {
        let n = slab.nodes.len();
        lemma_leaves_len(slab.nodes, slab.root, n, ascending);
        lemma_leaf_slots_distinct(slab.nodes, slab.root, n);
        leaf_slots(slab.nodes, slab.root, n).unique_seq_to_set();
    }
}

/// On a well-formed slab the walk by falling key yields the exact reverse
/// of the walk by rising key.
pub proof fn lemma_descending_is_reverse(slab: SlabView)
    requires
        slab.well_formed(),
    ensures
        slab.leaves(false) == slab.leaves(true).reverse(),
{
    lemma_walk_is_tree_order(slab, true);
    lemma_walk_is_tree_order(slab, false);
    if slab.leaf_count > 0 {
        lemma_tree_leaves_reverse(slab.nodes, slab.root, slab.nodes.len());
    } else {
        assert(slab.leaves(false) =~= slab.leaves(true).reverse());
    }
}

/// On a well-formed slab whose tree is a search tree, the walk by rising
/// key yields strictly rising keys.
pub proof fn lemma_ascending_keys_rise(slab: SlabView)
    requires
        slab.well_formed(),
        slab.is_sorted(),
    ensures
        keys_rise(slab.leaves(true)),
{
    lemma_walk_is_tree_order(slab, true);
    if slab.leaf_count > 0 {
        lemma_search_tree_keys_rise(slab.nodes, slab.root, slab.nodes.len());
    }
}

/// On a well-formed slab whose tree is a search tree, the first order of
/// the rising walk has the lowest key of all, and the first order of the
/// falling walk is the last of the rising walk and has the highest.
pub proof fn lemma_min_and_max(slab: SlabView)
    requires
        slab.well_formed(),
        slab.is_sorted(),
    ensures
        forall|k: int|
            0 < k < slab.leaves(true).len() ==> slab.leaves(true)[0].key < (
            #[trigger] slab.leaves(true)[k]).key,
        slab.leaves(true).len() > 0 ==> first_of(slab.leaves(false)) == Some(
            slab.leaves(true).last(),
        ),
        forall|k: int|
            0 <= k < slab.leaves(true).len() - 1 ==> (#[trigger] slab.leaves(true)[k]).key
                < slab.leaves(true).last().key,
{
    lemma_ascending_keys_rise(slab);
    lemma_descending_is_reverse(slab);
    let up = slab.leaves(true);
    if up.len() > 0 {
        assert(up.reverse()[0] == up.last());
    }
}

/// The best order of a book is the first of the falling walk for bids and
/// the first of the rising walk for asks.
pub proof fn lemma_best_of_side(slab: SlabView)
    ensures
        slab.is_bids() ==> first_of(slab.leaves_best_first()) == first_of(slab.leaves(false)),
        !slab.is_bids() ==> first_of(slab.leaves_best_first()) == first_of(slab.leaves(true)),
{
}

} // verus!
