use vstd::prelude::*;

use crate::error::AoError;
use crate::state::{clone_bytes, spec_price_of, Side};

verus! {

/// A resting order.
pub struct LeafNode {
    /// Composite key: price in the high bits, masked sequence number low.
    pub order_id: u128,
    /// Remaining base quantity; always positive while the leaf is in a slab.
    pub asset_quantity: u64,
    /// Opaque owner tag of the market's fixed width.
    pub callback_info: Vec<u8>,
}

/// The mathematical image of a `LeafNode`.
#[verifier::ext_equal]
pub ghost struct LeafView {
    pub order_id: u128,
    pub asset_quantity: u64,
    pub callback_info: Seq<u8>,
}

impl View for LeafNode {
    type V = LeafView;

    open spec fn view(&self) -> LeafView {
        LeafView {
            order_id: self.order_id,
            asset_quantity: self.asset_quantity,
            callback_info: self.callback_info@,
        }
    }
}

impl LeafNode {
    pub fn new(order_id: u128, callback_info: Vec<u8>, asset_quantity: u64) -> (r: LeafNode)
        ensures
            r@ == (LeafView { order_id, asset_quantity, callback_info: callback_info@ }),
    {
        LeafNode { order_id, asset_quantity, callback_info }
    }

    /// The Q32.32 price packed in the high 64 bits of the key.
    pub fn price(&self) -> (r: u64)
        ensures
            r == spec_price_of(self.order_id),
    {
        let q: u128 = self.order_id / 0x1_0000_0000_0000_0000u128;
        assert(q < 0x1_0000_0000_0000_0000) by {
            vstd::arithmetic::div_mod::lemma_multiply_divide_lt(
                self.order_id as int,
                0x1_0000_0000_0000_0000,
                0x1_0000_0000_0000_0000,
            );
        }
        q as u64
    }

    /// An owned copy of the leaf.
    pub fn duplicate(&self) -> (r: LeafNode)
        ensures
            r@ == self@,
    {
        LeafNode {
            order_id: self.order_id,
            asset_quantity: self.asset_quantity,
            callback_info: clone_bytes(&self.callback_info),
        }
    }
}

/// The slab header flushed back to the backing buffer after each operation.
/// Only `leaf_count` and `market_state` describe this in-memory model: the
/// model keeps its orders in key order, so the arena cursors (`bump_index`,
/// `free_list_head`, `callback_memory_offset`, `root_handle`) are host-owned
/// bookkeeping of the backing buffer's allocator, carried through unchanged
/// so that `write_header` flushes back what the host handed in.
#[derive(Clone, Copy, Debug, PartialEq, Eq, Structural)]
pub struct SlabHeader {
    pub bump_index: u64,
    pub free_list_head: u64,
    pub callback_memory_offset: u64,
    pub leaf_count: u64,
    pub root_handle: u64,
    /// Tag identifying which side of the book this slab holds.
    pub market_state: Side,
}

/// One side of the book: a fixed-capacity arena of resting orders, kept in
/// ascending key order so that either key extreme is the best-priority order
/// of the side.
pub struct Slab {
    header: SlabHeader,
    leaves: Vec<LeafNode>,
    capacity: usize,
    callback_info_len: usize,
}

/// True when some leaf of `s` has key `key`.
pub open spec fn has_key(s: Seq<LeafView>, key: u128) -> bool {
    exists|i: int| 0 <= i < s.len() && (#[trigger] s[i]).order_id == key
}

/// The index of the (unique) leaf of `s` with key `key`.
pub open spec fn key_index(s: Seq<LeafView>, key: u128) -> int {
    choose|i: int| 0 <= i < s.len() && (#[trigger] s[i]).order_id == key
}

impl Slab {
    /// The resting orders in ascending key order.
    pub closed spec fn leaves(&self) -> Seq<LeafView> {
        self.leaves@.map_values(|l: LeafNode| l@)
    }

    pub closed spec fn spec_capacity(&self) -> int {
        self.capacity as int
    }

    pub closed spec fn spec_cb_len(&self) -> int {
        self.callback_info_len as int
    }

    pub closed spec fn spec_header(&self) -> SlabHeader {
        self.header
    }

    pub open spec fn side(&self) -> Side {
        self.spec_header().market_state
    }

    /// Well-formedness: keys strictly ascending (hence unique), quantities
    /// positive, callback tags of the market's width, the arena within its
    /// capacity and the header's leaf count exact.
    pub open spec fn wf(&self) -> bool {
        &&& 1 <= self.spec_capacity()
        &&& self.leaves().len() <= self.spec_capacity()
        &&& self.spec_header().leaf_count == self.leaves().len()
        &&& forall|i: int|
            0 <= i < self.leaves().len() ==> (#[trigger] self.leaves()[i]).asset_quantity > 0
        &&& forall|i: int|
            0 <= i < self.leaves().len() ==> spec_price_of(
                (#[trigger] self.leaves()[i]).order_id,
            ) > 0
        &&& forall|i: int|
            0 <= i < self.leaves().len() ==> (#[trigger] self.leaves()[i]).callback_info.len()
                == self.spec_cb_len()
        &&& forall|i: int, j: int|
            #![trigger self.leaves()[i], self.leaves()[j]]
            0 <= i < j < self.leaves().len() ==> self.leaves()[i].order_id
                < self.leaves()[j].order_id
    }

    /// An empty slab for the given side.
    pub fn new(side: Side, capacity: usize, callback_info_len: usize) -> (r: Slab)
        requires
            capacity >= 1,
        ensures
            r.wf(),
            r.leaves() =~= Seq::<LeafView>::empty(),
            r.side() == side,
            r.spec_capacity() == capacity,
            r.spec_cb_len() == callback_info_len,
            r.spec_header().bump_index == 0,
            r.spec_header().free_list_head == 0,
            r.spec_header().callback_memory_offset == 0,
            r.spec_header().root_handle == 0,
    {
        Slab {
            header: SlabHeader {
                bump_index: 0,
                free_list_head: 0,
                callback_memory_offset: 0,
                leaf_count: 0,
                root_handle: 0,
                market_state: side,
            },
            leaves: Vec::new(),
            capacity,
            callback_info_len,
        }
    }

    /// Checks that the header tags this slab with the expected side.
    pub fn check(&self, side: Side) -> (r: bool)
        ensures
            r == (self.side() == side),
    {
        self.header.market_state == side
    }

    pub fn len(&self) -> (r: usize)
        ensures
            r == self.leaves().len(),
    {
        self.leaves.len()
    }

    pub fn capacity(&self) -> (r: usize)
        ensures
            r == self.spec_capacity(),
    {
        self.capacity
    }

    pub fn callback_len(&self) -> (r: usize)
        ensures
            r == self.spec_cb_len(),
    {
        self.callback_info_len
    }

    pub fn get_header(&self) -> (r: SlabHeader)
        ensures
            r == self.spec_header(),
    {
        self.header
    }

    /// An owned copy of the leaf at handle `h`.
    pub fn get_leaf(&self, h: usize) -> (r: LeafNode)
        requires
            h < self.leaves().len(),
        ensures
            r@ == self.leaves()[h as int],
    {
        self.leaves[h].duplicate()
    }

    /// Handle of the leaf with the lowest key, if any.
    pub fn find_min(&self) -> (r: Option<usize>)
        requires
            self.wf(),
        ensures
            match r {
                None => self.leaves().len() == 0,
                Some(h) => h < self.leaves().len() && forall|i: int|
                    0 <= i < self.leaves().len() ==> self.leaves()[h as int].order_id <= (
                    #[trigger] self.leaves()[i]).order_id,
            },
    {
        if self.leaves.len() == 0 {
            None
        } else {
            Some(0)
        }
    }

    /// Handle of the leaf with the highest key, if any.
    pub fn find_max(&self) -> (r: Option<usize>)
        requires
            self.wf(),
        ensures
            match r {
                None => self.leaves().len() == 0,
                Some(h) => h < self.leaves().len() && forall|i: int|
                    0 <= i < self.leaves().len() ==> self.leaves()[h as int].order_id >= (
                    #[trigger] self.leaves()[i]).order_id,
            },
    {
        if self.leaves.len() == 0 {
            None
        } else {
            Some(self.leaves.len() - 1)
        }
    }

    /// Overwrites the remaining quantity of the leaf at handle `h`.
    pub fn set_leaf_quantity(&mut self, h: usize, asset_quantity: u64)
        requires
            old(self).wf(),
            h < old(self).leaves().len(),
            asset_quantity > 0,
        ensures
            final(self).wf(),
            final(self).leaves() =~= old(self).leaves().update(
                h as int,
                LeafView { asset_quantity, ..old(self).leaves()[h as int] },
            ),
            final(self).spec_header() == old(self).spec_header(),
            final(self).spec_capacity() == old(self).spec_capacity(),
            final(self).spec_cb_len() == old(self).spec_cb_len(),
    {
        self.leaves[h].asset_quantity = asset_quantity;
        proof {
            let lv = LeafView { asset_quantity, ..old(self).leaves()[h as int] };
            assert(self.leaves@[h as int]@ == lv);
            assert(self.leaves() =~= old(self).leaves().update(h as int, lv));
            assert(forall|k: int|
                0 <= k < self.leaves().len() && k != h ==> #[trigger] self.leaves()[k] == old(
                    self,
                ).leaves()[k]);
        }
    }

    /// Splices a new resting order into the arena, keeping keys ascending.
    /// Returns the handle it was stored at, or `SlabOutOfSpace` when the
    /// arena is full.
    pub fn insert_leaf(&mut self, leaf: &LeafNode) -> (r: Result<usize, AoError>)
        requires
            old(self).wf(),
            leaf@.asset_quantity > 0,
            spec_price_of(leaf.order_id) > 0,
            leaf@.callback_info.len() == old(self).spec_cb_len(),
            !has_key(old(self).leaves(), leaf.order_id),
        ensures
            final(self).wf(),
            final(self).spec_capacity() == old(self).spec_capacity(),
            final(self).spec_cb_len() == old(self).spec_cb_len(),
            final(self).spec_header().market_state == old(self).spec_header().market_state,
            final(self).spec_header() == (SlabHeader {
                leaf_count: final(self).leaves().len() as u64,
                ..old(self).spec_header()
            }),
            match r {
                Ok(h) => {
                    &&& old(self).leaves().len() < old(self).spec_capacity()
                    &&& h <= old(self).leaves().len()
                    &&& final(self).leaves() =~= old(self).leaves().insert(h as int, leaf@)
                },
                Err(e) => {
                    &&& e == AoError::SlabOutOfSpace
                    &&& old(self).leaves().len() == old(self).spec_capacity()
                    &&& final(self).leaves() =~= old(self).leaves()
                    &&& final(self).spec_header() == old(self).spec_header()
                },
            },
    {
        if self.leaves.len() == self.capacity {
            return Err(AoError::SlabOutOfSpace);
        }
        let ghost s0 = self.leaves();
        let n = self.leaves.len();
        let mut i: usize = 0;
        while i < n && self.leaves[i].order_id < leaf.order_id
            invariant
                i <= n,
                n == self.leaves().len(),
                *self == *old(self),
                forall|j: int| 0 <= j < i ==> (#[trigger] self.leaves()[j]).order_id < leaf@.order_id,
        decreases n - i,
        {
            i = i + 1;
        }
        proof {
            assert(forall|j: int|
                i <= j < n ==> leaf@.order_id < (#[trigger] s0[j]).order_id) by {
                if i < n {
                    assert(!(s0[i as int].order_id < leaf@.order_id));
                    assert(s0[i as int].order_id != leaf@.order_id);
                    assert(forall|j: int|
                        i < j < n ==> s0[i as int].order_id < (#[trigger] s0[j]).order_id);
                }
            }
        }
        self.leaves.insert(i, leaf.duplicate());
        self.header.leaf_count = self.header.leaf_count + 1;
        proof {
            assert(self.leaves() =~= s0.insert(i as int, leaf@)) by {
                assert(self.leaves@ =~= old(self).leaves@.insert(i as int, self.leaves@[i as int]));
                assert(forall|k: int|
                    0 <= k < self.leaves@.len() ==> (#[trigger] self.leaves()[k])
                        == self.leaves@[k]@);
            }
        }
        Ok(i)
    }

    /// Removes and returns the leaf with the given key, if present.
    pub fn remove_by_key(&mut self, search_key: u128) -> (r: Option<LeafNode>)
        requires
            old(self).wf(),
        ensures
            final(self).wf(),
            final(self).spec_capacity() == old(self).spec_capacity(),
            final(self).spec_cb_len() == old(self).spec_cb_len(),
            final(self).spec_header().market_state == old(self).spec_header().market_state,
            final(self).spec_header() == (SlabHeader {
                leaf_count: final(self).leaves().len() as u64,
                ..old(self).spec_header()
            }),
            r is Some <==> has_key(old(self).leaves(), search_key),
            match r {
                Some(l) => {
                    &&& l@ == old(self).leaves()[key_index(old(self).leaves(), search_key)]
                    &&& l@.order_id == search_key
                    &&& final(self).leaves() =~= old(self).leaves().remove(
                        key_index(old(self).leaves(), search_key),
                    )
                },
                None => {
                    &&& final(self).leaves() =~= old(self).leaves()
                    &&& final(self).spec_header() == old(self).spec_header()
                },
            },
    {
        let ghost s0 = self.leaves();
        let n = self.leaves.len();
        let mut i: usize = 0;
        while i < n && self.leaves[i].order_id != search_key
            invariant
                i <= n,
                n == self.leaves().len(),
                *self == *old(self),
                forall|j: int| 0 <= j < i ==> (#[trigger] self.leaves()[j]).order_id != search_key,
        decreases n - i,
        {
            i = i + 1;
        }
        if i == n {
            assert(!has_key(s0, search_key));
            return None;
        }
        assert(s0[i as int].order_id == search_key);
        assert(has_key(s0, search_key));
        proof {
            let k = key_index(s0, search_key);
            assert(0 <= k < s0.len() && s0[k].order_id == search_key);
            if k != i as int {
                if k < i as int {
                    assert(s0[k].order_id < s0[i as int].order_id);
                } else {
                    assert(s0[i as int].order_id < s0[k].order_id);
                }
            }
            assert(k == i as int);
        }
        let removed = self.leaves.remove(i);
        self.header.leaf_count = self.header.leaf_count - 1;
        proof {
            assert(self.leaves() =~= s0.remove(i as int));
        }
        Some(removed)
    }

    /// Removes and returns the leaf with the lowest key, if any.
    pub fn remove_min(&mut self) -> (r: Option<LeafNode>)
        requires
            old(self).wf(),
        ensures
            final(self).wf(),
            final(self).spec_capacity() == old(self).spec_capacity(),
            final(self).spec_cb_len() == old(self).spec_cb_len(),
            final(self).spec_header().market_state == old(self).spec_header().market_state,
            final(self).spec_header() == (SlabHeader {
                leaf_count: final(self).leaves().len() as u64,
                ..old(self).spec_header()
            }),
            match r {
                None => old(self).leaves().len() == 0 && final(self).leaves() =~= old(
                    self,
                ).leaves() && final(self).spec_header() == old(self).spec_header(),
                Some(l) => {
                    &&& old(self).leaves().len() > 0
                    &&& l@ == old(self).leaves()[0]
                    &&& final(self).leaves() =~= old(self).leaves().remove(0)
                    &&& forall|i: int|
                        0 <= i < old(self).leaves().len() ==> l@.order_id <= (#[trigger] old(
                            self,
                        ).leaves()[i]).order_id
                },
            },
    {
        if self.leaves.len() == 0 {
            return None;
        }
        let removed = self.leaves.remove(0);
        self.header.leaf_count = self.header.leaf_count - 1;
        proof {
            let s0 = old(self).leaves();
            assert(removed@ == s0[0]);
            assert(self.leaves() =~= s0.remove(0));
            assert(forall|k: int|
                0 <= k < self.leaves().len() ==> #[trigger] self.leaves()[k] == s0[k + 1]);
        }
        Some(removed)
    }

    /// Removes and returns the leaf with the highest key, if any.
    pub fn remove_max(&mut self) -> (r: Option<LeafNode>)
        requires
            old(self).wf(),
        ensures
            final(self).wf(),
            final(self).spec_capacity() == old(self).spec_capacity(),
            final(self).spec_cb_len() == old(self).spec_cb_len(),
            final(self).spec_header().market_state == old(self).spec_header().market_state,
            final(self).spec_header() == (SlabHeader {
                leaf_count: final(self).leaves().len() as u64,
                ..old(self).spec_header()
            }),
            match r {
                None => old(self).leaves().len() == 0 && final(self).leaves() =~= old(
                    self,
                ).leaves() && final(self).spec_header() == old(self).spec_header(),
                Some(l) => {
                    &&& old(self).leaves().len() > 0
                    &&& l@ == old(self).leaves().last()
                    &&& final(self).leaves() =~= old(self).leaves().drop_last()
                    &&& forall|i: int|
                        0 <= i < old(self).leaves().len() ==> l@.order_id >= (#[trigger] old(
                            self,
                        ).leaves()[i]).order_id
                },
            },
    {
        if self.leaves.len() == 0 {
            return None;
        }
        let removed = self.leaves.remove(self.leaves.len() - 1);
        self.header.leaf_count = self.header.leaf_count - 1;
        proof {
            let s0 = old(self).leaves();
            assert(removed@ == s0.last());
            assert(self.leaves() =~= s0.drop_last());
            assert(forall|k: int|
                0 <= k < self.leaves().len() ==> #[trigger] self.leaves()[k] == s0[k]);
        }
        Some(removed)
    }
}

} // verus!
