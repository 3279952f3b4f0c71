//! One side of the order book: an arena of fixed-size node slots that holds
//! a binary tree of resting orders.

use crate::dex::bytes::{
    ends_with_tail_tag, has_head_tag, has_tail_tag, le_u128, le_u32, le_u64, read_u128, read_u32,
    read_u64, starts_with_head_tag,
};
use crate::dex::cast::{record, slots};
use crate::dex::error::FormatError;
use crate::dex::flags::{flag_word, lemma_slab_flags_one_side, slab_flags_ok, AccountFlag, Side};
use crate::pubkey::{pubkey_at, Pubkey};
use vstd::prelude::*;
use vstd::slice::slice_subrange;

verus! {

/// The length in bytes of a slab's header.
pub const SLAB_HEADER_LEN: usize = 45;

/// The length in bytes of one node slot: a 4-byte tag and 68 bytes of
/// payload.
pub const SLAB_NODE_LEN: usize = 72;

/// A fork of the tree: the keys below it share `prefix_len` leading bits,
/// and its two children, `left` before `right`, are slots of the same arena.
#[derive(Clone, Copy, Debug, PartialEq, Eq, Structural)]
pub struct InnerNode {
    pub prefix_len: u32,
    pub key: u128,
    pub left: u32,
    pub right: u32,
}

/// A resting order. The upper 64 bits of `key` are its price in lots, the
/// lower 64 bits break ties by time of arrival.
#[derive(Clone, Copy, Debug, PartialEq, Eq, Structural)]
pub struct LeafNode {
    pub owner_slot: u8,
    pub fee_tier: u8,
    pub key: u128,
    pub control: Pubkey,
    pub quantity: u64,
    pub client_order_id: u64,
}

/// What one slot of the arena holds, told by its tag.
#[derive(Clone, Copy, Debug, PartialEq, Eq, Structural)]
pub enum SlabNode {
    Uninitialized,
    Inner(InnerNode),
    Leaf(LeafNode),
    Free,
    LastFree,
}

/// The fork that the payload of the 72-byte slot `b` spells.
pub open spec fn inner_at(b: Seq<u8>) -> InnerNode {
    InnerNode {
        prefix_len: le_u32(b, 4) as u32,
        key: le_u128(b, 8) as u128,
        left: le_u32(b, 24) as u32,
        right: le_u32(b, 28) as u32,
    }
}

/// The order that the payload of the 72-byte slot `b` spells.
pub open spec fn leaf_at(b: Seq<u8>) -> LeafNode {
    LeafNode {
        owner_slot: b[4],
        fee_tier: b[5],
        key: le_u128(b, 8) as u128,
        control: pubkey_at(b, 24),
        quantity: le_u64(b, 56) as u64,
        client_order_id: le_u64(b, 64) as u64,
    }
}

/// Whether the tag of the slot `b` is one of the five defined ones.
pub open spec fn tag_known(b: Seq<u8>) -> bool {
    le_u32(b, 0) <= 4
}

/// The node that the 72-byte slot `b` spells: tag 1 is a fork, 2 an order,
/// 3 and 4 links of the free list. Tag 0 is an unused slot, and so reads
/// every tag that is not defined.
pub open spec fn node_at(b: Seq<u8>) -> SlabNode {
    let tag = le_u32(b, 0);
    if tag == 1 {
        SlabNode::Inner(inner_at(b))
    } else if tag == 2 {
        SlabNode::Leaf(leaf_at(b))
    } else if tag == 3 {
        SlabNode::Free
    } else if tag == 4 {
        SlabNode::LastFree
    } else {
        SlabNode::Uninitialized
    }
}

impl LeafNode {
    /// The price of the order in lots: the upper half of its key.
    pub open spec fn price_lots(&self) -> u64 {
        (self.key / 0x1_0000_0000_0000_0000) as u64
    }

    /// The price of the order in lots, which an order on the book never
    /// has at zero.
    pub fn price(&self) -> (r: u64)
        requires
            self.price_lots() != 0,
        ensures
            r == self.price_lots(),
            r != 0,
    {
        (self.key / 0x1_0000_0000_0000_0000) as u64
    }
}

impl SlabNode {
    /// Decodes one slot by its tag. A tag above 4 is refused.
    pub fn load(slot: &[u8; 72]) -> (r: Result<SlabNode, FormatError>)
        ensures
            r == if tag_known(slot@) {
                Ok::<SlabNode, FormatError>(node_at(slot@))
            } else {
                Err(FormatError::UnknownTag)
            },
    {
        let b: &[u8] = slot.as_slice();
        let tag: u32 = read_u32(b, 0);
        if tag == 0 {
            Ok(SlabNode::Uninitialized)
        } else if tag == 1 {
            Ok(
                SlabNode::Inner(
                    InnerNode {
                        prefix_len: read_u32(b, 4),
                        key: read_u128(b, 8),
                        left: read_u32(b, 24),
                        right: read_u32(b, 28),
                    },
                ),
            )
        } else if tag == 2 {
            Ok(
                SlabNode::Leaf(
                    LeafNode {
                        owner_slot: b[4],
                        fee_tier: b[5],
                        key: read_u128(b, 8),
                        control: Pubkey::read(b, 24),
                        quantity: read_u64(b, 56),
                        client_order_id: read_u64(b, 64),
                    },
                ),
            )
        } else if tag == 3 {
            Ok(SlabNode::Free)
        } else if tag == 4 {
            Ok(SlabNode::LastFree)
        } else {
            Err(FormatError::UnknownTag)
        }
    }
}

/// A slab as a mathematical value: the header's fields and the decoded
/// slots of the arena.
pub struct SlabView {
    pub account_flags: u64,
    pub bump_index: u32,
    pub free_list_len: u32,
    pub free_list_head: u32,
    pub root: u32,
    pub leaf_count: u32,
    pub nodes: Seq<SlabNode>,
}

/// The number of whole slots that follow the header in a buffer of `len`
/// bytes.
pub open spec fn slot_count(len: nat) -> nat {
    ((len - SLAB_HEADER_LEN) / (SLAB_NODE_LEN as int)) as nat
}

/// The bytes of slot `i` in the buffer `b`.
pub open spec fn slot_bytes(b: Seq<u8>, i: int) -> Seq<u8> {
    b.subrange(SLAB_HEADER_LEN + i * SLAB_NODE_LEN, SLAB_HEADER_LEN + i * SLAB_NODE_LEN + SLAB_NODE_LEN)
}

/// Why a buffer is no slab, or `None` if it is one. In this order: it is
/// too short for the header; a tag is missing; the flags are not those of
/// one side of a book; a slot carries an unknown tag.
pub open spec fn slab_error(b: Seq<u8>) -> Option<FormatError> {
    if b.len() < SLAB_HEADER_LEN {
        Some(FormatError::SizeMismatch)
    } else if !has_head_tag(b) || !has_tail_tag(b) {
        Some(FormatError::BadMagic)
    } else if !slab_flags_ok(le_u64(b, 5) as u64) {
        Some(FormatError::BadFlags)
    } else if exists|i: int| 0 <= i < slot_count(b.len()) && !tag_known(#[trigger] slot_bytes(b, i)) {
        Some(FormatError::UnknownTag)
    } else {
        None
    }
}

/// A buffer that holds a whole header, both tags and only known slot tags
/// decodes exactly when its flags hold initialized and one of bids and
/// asks, not both; otherwise it is refused for its flags.
pub proof fn lemma_slab_accepts_one_side(b: Seq<u8>, flags: Set<AccountFlag>)
    requires
        b.len() >= SLAB_HEADER_LEN,
        has_head_tag(b),
        has_tail_tag(b),
        forall|i: int| 0 <= i < slot_count(b.len()) ==> tag_known(#[trigger] slot_bytes(b, i)),
        le_u64(b, 5) == flag_word(flags),
    ensures
        slab_error(b) is None <==> flags.contains(AccountFlag::Initialized) && (flags.contains(
            AccountFlag::Bids,
        ) != flags.contains(AccountFlag::Asks)),
        slab_error(b) is Some ==> slab_error(b) == Some(FormatError::BadFlags),
{
    lemma_slab_flags_one_side(flags);
}

/// The slab that the bytes of `b` spell: the header's fields at their fixed
/// places, then as many whole slots as fit. Bytes after the last whole slot
/// belong to no slot.
pub open spec fn slab_at(b: Seq<u8>) -> SlabView {
    SlabView {
        account_flags: le_u64(b, 5) as u64,
        bump_index: le_u32(b, 13) as u32,
        free_list_len: le_u32(b, 21) as u32,
        free_list_head: le_u32(b, 29) as u32,
        root: le_u32(b, 33) as u32,
        leaf_count: le_u32(b, 37) as u32,
        nodes: Seq::new(slot_count(b.len()), |i: int| node_at(slot_bytes(b, i))),
    }
}

/// What slot `i` holds; a slot outside the arena holds nothing.
pub open spec fn slot_node(nodes: Seq<SlabNode>, i: u32) -> SlabNode {
    if i < nodes.len() {
        nodes[i as int]
    } else {
        SlabNode::Uninitialized
    }
}

/// The orders that a walk still yields, in order, when `stack` holds the
/// slots yet to visit (the next one last) and `budget` forks may still be
/// opened.
///
/// A visit takes the last slot off the stack. An order is yielded; a fork
/// puts its two children on the stack, the nearer one last, and costs one
/// of the budget; any other slot, and a slot outside the arena, yields
/// nothing. The walk ends when the stack is empty, or at a fork that the
/// budget no longer covers: so it ends on every arena, also one whose links
/// run in a circle.
pub open spec fn pending(nodes: Seq<SlabNode>, stack: Seq<u32>, budget: nat, ascending: bool) -> Seq<
    LeafNode,
>
    decreases budget, stack.len(),
{
    if stack.len() == 0 {
        Seq::empty()
    } else {
        let rest = stack.drop_last();
        match slot_node(nodes, stack.last()) {
            SlabNode::Leaf(leaf) => seq![leaf] + pending(nodes, rest, budget, ascending),
            SlabNode::Inner(inner) => if budget == 0 {
                Seq::empty()
            } else {
                pending(
                    nodes,
                    rest.push(far_child(inner, ascending)).push(near_child(inner, ascending)),
                    (budget - 1) as nat,
                    ascending,
                )
            },
            _ => pending(nodes, rest, budget, ascending),
        }
    }
}

/// The child that a walk in the given direction enters first.
pub open spec fn near_child(inner: InnerNode, ascending: bool) -> u32 {
    if ascending {
        inner.left
    } else {
        inner.right
    }
}

/// The child that a walk in the given direction enters second.
pub open spec fn far_child(inner: InnerNode, ascending: bool) -> u32 {
    if ascending {
        inner.right
    } else {
        inner.left
    }
}

/// The first element of a sequence, if it has one.
pub open spec fn first_of(s: Seq<LeafNode>) -> Option<LeafNode> {
    if s.len() > 0 {
        Some(s[0])
    } else {
        None
    }
}

impl SlabView {
    /// Whether this is the bids side of the book.
    pub open spec fn is_bids(&self) -> bool {
        AccountFlag::Bids.is_set_in(self.account_flags)
    }

    /// Whether this is the asks side of the book.
    pub open spec fn is_asks(&self) -> bool {
        AccountFlag::Asks.is_set_in(self.account_flags)
    }

    /// The slots from which a walk starts: the root, unless the header
    /// counts no orders.
    pub open spec fn start(&self) -> Seq<u32> {
        if self.leaf_count > 0 {
            seq![self.root]
        } else {
            Seq::empty()
        }
    }

    /// All orders of the book in the order of a full walk: by rising key
    /// if `ascending`, else by falling key. A walk opens at most as many
    /// forks as the arena has slots.
    pub open spec fn leaves(&self, ascending: bool) -> Seq<LeafNode> {
        pending(self.nodes, self.start(), self.nodes.len(), ascending)
    }

    /// All orders of the book, the best one first: bids by falling key,
    /// asks by rising key.
    pub open spec fn leaves_best_first(&self) -> Seq<LeafNode> {
        self.leaves(!self.is_bids())
    }
}

/// One side of the order book, read in place from a borrowed buffer.
#[derive(Clone, Copy, Debug)]
pub struct Slab<'a> {
    account_flags: u64,
    bump_index: u32,
    free_list_len: u32,
    free_list_head: u32,
    root: u32,
    leaf_count: u32,
    nodes: &'a [[u8; 72]],
}

impl<'a> View for Slab<'a> {
    type V = SlabView;

    closed spec fn view(&self) -> SlabView {
        SlabView {
            account_flags: self.account_flags,
            bump_index: self.bump_index,
            free_list_len: self.free_list_len,
            free_list_head: self.free_list_head,
            root: self.root,
            leaf_count: self.leaf_count,
            nodes: Seq::new(self.nodes@.len(), |i: int| node_at(self.nodes@[i]@)),
        }
    }
}

proof fn lemma_slot_bytes(buf: Seq<u8>, tail: Seq<u8>, slots: Seq<[u8; 72]>, i: int)
    requires
        buf.len() >= SLAB_HEADER_LEN,
        slots.len() == slot_count(buf.len()),
        tail == buf.subrange(SLAB_HEADER_LEN as int, SLAB_HEADER_LEN + slots.len() * SLAB_NODE_LEN),
        forall|i: int, j: int|
            0 <= i < slots.len() && 0 <= j < 72 ==> #[trigger] slots[i]@[j] == tail[i * 72 + j],
        0 <= i < slots.len(),
    ensures
        slots[i]@ == slot_bytes(buf, i),
{
    let a = slots[i]@;
    let b = slot_bytes(buf, i);
    assert(a.len() == 72);
    assert forall|j: int| 0 <= j < 72 implies a[j] == b[j] by {
        assert(slots[i]@[j] == tail[i * 72 + j]);
    }
    assert(a =~= b);
}

impl<'a> Slab<'a> {
    #[verifier::type_invariant]
    spec fn well_tagged(&self) -> bool {
        &&& slab_flags_ok(self.account_flags)
        &&& forall|i: int| 0 <= i < self.nodes@.len() ==> tag_known(#[trigger] self.nodes@[i]@)
    }

    /// Decodes a slab. The buffer is accepted if and only if it holds a
    /// whole header, opens and closes with the two tags, is flagged as
    /// exactly one side of a book, and every slot carries a known tag.
    pub fn deserialize(buf: &'a [u8]) -> (r: Result<Slab<'a>, FormatError>)
        ensures
            match slab_error(buf@) {
                Some(e) => r == Err::<Slab<'a>, FormatError>(e),
                None => r is Ok && r->Ok_0@ == slab_at(buf@),
            },
    {
        if buf.len() < SLAB_HEADER_LEN {
            return Err(FormatError::SizeMismatch);
        }
        let (head, tail) = buf.split_at(SLAB_HEADER_LEN);
        let head: &[u8; 45] = match record::<45>(head) {
            Ok(head) => head,
            Err(_) => {
                return Err(FormatError::SizeMismatch);
            },
        };
        let whole: usize = tail.len() - tail.len() % SLAB_NODE_LEN;
        let tail: &[u8] = slice_subrange(tail, 0, whole);
        let nodes: &[[u8; 72]] = match slots::<72>(tail) {
            Ok(nodes) => nodes,
            Err(_) => {
                return Err(FormatError::SizeMismatch);
            },
        };
        let ghost count = slot_count(buf@.len());
        assert(nodes@.len() == count && whole == count * 72) by {
            assert(nodes@.len() * 72 == whole);
        }
        assert(tail@ =~= buf@.subrange(SLAB_HEADER_LEN as int, SLAB_HEADER_LEN + nodes@.len() * 72));
        if !starts_with_head_tag(buf) || !ends_with_tail_tag(buf) {
            return Err(FormatError::BadMagic);
        }
        let h: &[u8] = head.as_slice();
        assert(forall|k: int| 0 <= k < 45 ==> h@[k] == buf@[k]);
        let account_flags: u64 = read_u64(h, 5);
        if !(AccountFlag::Initialized.is_set(account_flags) && (AccountFlag::Bids.is_set(
            account_flags,
        ) != AccountFlag::Asks.is_set(account_flags))) {
            return Err(FormatError::BadFlags);
        }
        let mut i: usize = 0;
        while i < nodes.len()
            invariant
                i <= nodes@.len(),
                buf@.len() >= SLAB_HEADER_LEN,
                has_head_tag(buf@),
                has_tail_tag(buf@),
                slab_flags_ok(le_u64(buf@, 5) as u64),
                nodes@.len() == slot_count(buf@.len()),
                tail@ == buf@.subrange(SLAB_HEADER_LEN as int, SLAB_HEADER_LEN + nodes@.len() * 72),
                forall|i: int, j: int|
                    0 <= i < nodes@.len() && 0 <= j < 72 ==> #[trigger] nodes@[i]@[j] == tail@[i
                        * 72 + j],
                forall|k: int| 0 <= k < i ==> tag_known(#[trigger] slot_bytes(buf@, k)),
            decreases nodes@.len() - i,
        {
            let tag: u32 = read_u32(nodes[i].as_slice(), 0);
            proof {
                lemma_slot_bytes(buf@, tail@, nodes@, i as int);
            }
            if tag > 4 {
                assert(!tag_known(slot_bytes(buf@, i as int)));
                return Err(FormatError::UnknownTag);
            }
            i += 1;
        }
        assert forall|k: int| 0 <= k < nodes@.len() implies tag_known(#[trigger] nodes@[k]@) by {
            lemma_slot_bytes(buf@, tail@, nodes@, k);
            assert(tag_known(slot_bytes(buf@, k)));
        }
        let slab = Slab {
            account_flags,
            bump_index: read_u32(h, 13),
            free_list_len: read_u32(h, 21),
            free_list_head: read_u32(h, 29),
            root: read_u32(h, 33),
            leaf_count: read_u32(h, 37),
            nodes,
        };
        proof {
            assert forall|k: int| 0 <= k < nodes@.len() implies node_at(nodes@[k]@) == node_at(
                slot_bytes(buf@, k),
            ) by {
                lemma_slot_bytes(buf@, tail@, nodes@, k);
            }
            assert(slab@.nodes =~= slab_at(buf@).nodes);
        }
        Ok(slab)
    }

    /// Whether this is the bids side of the book.
    pub fn is_bids(&self) -> (r: bool)
        ensures
            r == self@.is_bids(),
    {
        AccountFlag::Bids.is_set(self.account_flags)
    }

    /// Whether this is the asks side of the book. A slab is always exactly
    /// one of the two.
    pub fn is_asks(&self) -> (r: bool)
        ensures
            r == self@.is_asks(),
            r != self@.is_bids(),
    {
        proof {
            use_type_invariant(self);
        }
        AccountFlag::Asks.is_set(self.account_flags)
    }

    /// The side of the book that this slab holds.
    pub fn side(&self) -> (r: Side)
        ensures
            r == Side::Bid <==> self@.is_bids(),
            r == Side::Ask <==> self@.is_asks(),
    {
        proof {
            use_type_invariant(self);
        }
        if self.is_bids() {
            Side::Bid
        } else {
            Side::Ask
        }
    }

    /// The node in slot `i`; a slot outside the arena holds nothing.
    pub fn node(&self, i: u32) -> (r: SlabNode)
        ensures
            r == slot_node(self@.nodes, i),
    {
        if (i as usize) < self.nodes.len() {
            match SlabNode::load(&self.nodes[i as usize]) {
                Ok(node) => node,
                Err(_) => SlabNode::Uninitialized,
            }
        } else {
            SlabNode::Uninitialized
        }
    }

    fn walk(&self, ascending: bool) -> (r: SlabIter<'a>)
        ensures
            r.remaining() == self@.leaves(ascending),
    {
        let mut stack: Vec<u32> = Vec::new();
        if self.leaf_count > 0 {
            stack.push(self.root);
        }
        assert(stack@ =~= self@.start());
        SlabIter { slab: *self, stack, ascending, budget: self.nodes.len() }
    }

    /// A walk over the orders by rising key.
    pub fn iter_front(&self) -> (r: SlabIter<'a>)
        ensures
            r.remaining() == self@.leaves(true),
    {
        self.walk(true)
    }

    /// A walk over the orders by falling key.
    pub fn iter_back(&self) -> (r: SlabIter<'a>)
        ensures
            r.remaining() == self@.leaves(false),
    {
        self.walk(false)
    }

    /// A walk over the orders from the best one on: the highest bid, or the
    /// lowest ask.
    pub fn iter_best(&self) -> (r: SlabIter<'a>)
        ensures
            r.remaining() == self@.leaves_best_first(),
    {
        if self.is_bids() {
            self.iter_back()
        } else {
            self.iter_front()
        }
    }

    /// The order with the lowest key, if the book has any.
    pub fn get_min(&self) -> (r: Option<LeafNode>)
        ensures
            r == first_of(self@.leaves(true)),
    {
        let mut it = self.iter_front();
        it.next()
    }

    /// The order with the highest key, if the book has any.
    pub fn get_max(&self) -> (r: Option<LeafNode>)
        ensures
            r == first_of(self@.leaves(false)),
    {
        let mut it = self.iter_back();
        it.next()
    }

    /// The best order of the book, if it has any: the highest bid, or the
    /// lowest ask.
    pub fn get_best(&self) -> (r: Option<LeafNode>)
        ensures
            r == first_of(self@.leaves_best_first()),
    {
        let mut it = self.iter_best();
        it.next()
    }
}

/// A walk over the orders of a slab, one order per call of `next`.
#[derive(Debug)]
pub struct SlabIter<'a> {
    slab: Slab<'a>,
    stack: Vec<u32>,
    ascending: bool,
    budget: usize,
}

impl<'a> SlabIter<'a> {
    /// The orders that the walk has yet to yield, in order.
    pub closed spec fn remaining(&self) -> Seq<LeafNode> {
        pending(self.slab@.nodes, self.stack@, self.budget as nat, self.ascending)
    }

    /// The next order of the walk, or `None` when the walk is over. Once
    /// over, a walk stays over.
    pub fn next(&mut self) -> (r: Option<LeafNode>)
        ensures
            match r {
                Some(leaf) => {
                    &&& old(self).remaining().len() > 0
                    &&& leaf == old(self).remaining()[0]
                    &&& final(self).remaining() == old(self).remaining().drop_first()
                },
                None => old(self).remaining().len() == 0 && final(self).remaining().len() == 0,
            },
    {
        loop
            invariant
                self.remaining() == old(self).remaining(),
            decreases self.budget, self.stack@.len(),
        {
            let top: u32 = match self.stack.pop() {
                Some(top) => top,
                None => {
                    return None;
                },
            };
            match self.slab.node(top) {
                SlabNode::Leaf(leaf) => {
                    assert(old(self).remaining().drop_first() =~= self.remaining());
                    return Some(leaf);
                },
                SlabNode::Inner(inner) => {
                    if self.budget == 0 {
                        self.stack.clear();
                        return None;
                    }
                    self.budget = self.budget - 1;
                    if self.ascending {
                        self.stack.push(inner.right);
                        self.stack.push(inner.left);
                    } else {
                        self.stack.push(inner.left);
                        self.stack.push(inner.right);
                    }
                },
                _ => {},
            }
        }
    }
}

} // verus!
