//! Wire layouts: fixed-width little-endian integers, single-byte tags for
//! enum variants, and callback blobs of the market's fixed width.
use vstd::prelude::*;

use vstd::bytes::{
    lemma_auto_spec_u128_to_from_le_bytes, lemma_auto_spec_u64_to_from_le_bytes,
    spec_u128_from_le_bytes, spec_u128_to_le_bytes, spec_u64_from_le_bytes, spec_u64_to_le_bytes,
    u128_from_le_bytes, u128_to_le_bytes, u64_from_le_bytes, u64_to_le_bytes,
};
use vstd::slice::slice_subrange;

use crate::critbit::SlabHeader;
use crate::orderbook::OrderSummary;
use crate::state::{Event, EventView, Side};

verus! {

/// The serialized size of a slab header.
pub const SLAB_HEADER_LEN: usize = 41;

pub open spec fn spec_side_tag(side: Side) -> u8 {
    match side {
        Side::Bid => 0u8,
        Side::Ask => 1u8,
    }
}

pub fn side_to_tag(side: Side) -> (r: u8)
    ensures
        r == spec_side_tag(side),
{
    match side {
        Side::Bid => 0,
        Side::Ask => 1,
    }
}

pub fn side_from_tag(tag: u8) -> (r: Option<Side>)
    ensures
        r == spec_side_from_tag(tag),
{
    if tag == 0 {
        Some(Side::Bid)
    } else if tag == 1 {
        Some(Side::Ask)
    } else {
        None
    }
}

pub open spec fn spec_side_from_tag(tag: u8) -> Option<Side> {
    if tag == 0 {
        Some(Side::Bid)
    } else if tag == 1 {
        Some(Side::Ask)
    } else {
        None
    }
}

pub open spec fn zero_bytes(n: int) -> Seq<u8> {
    Seq::new(n as nat, |i| 0u8)
}

/// An owned copy of a byte slice.
fn slice_to_bytes(s: &[u8]) -> (r: Vec<u8>)
    ensures
        r@ == s@,
{
    let mut out: Vec<u8> = Vec::new();
    let mut k: usize = 0;
    while k < s.len()
        invariant
            k <= s@.len(),
            out@ =~= s@.take(k as int),
        decreases s@.len() - k,
    {
        out.push(s[k]);
        proof {
            assert(out@ =~= s@.take(k + 1 as int));
        }
        k = k + 1;
    }
    proof {
        assert(s@.take(s@.len() as int) =~= s@);
    }
    out
}

/// Appends `n` zero bytes.
fn push_zeros(out: &mut Vec<u8>, n: usize)
    ensures
        final(out)@ =~= old(out)@ + zero_bytes(n as int),
{
    let mut k: usize = 0;
    while k < n
        invariant
            k <= n,
            out@ =~= old(out)@ + zero_bytes(k as int),
        decreases n - k,
    {
        out.push(0);
        proof {
            assert(out@ =~= old(out)@ + zero_bytes(k + 1 as int));
        }
        k = k + 1;
    }
}

// --- OrderSummary: 1-byte discriminant, 16-byte id, two 8-byte totals ---

pub open spec fn spec_serialize_order_summary(s: OrderSummary) -> Seq<u8> {
    (match s.posted_order_id {
        None => seq![0u8] + spec_u128_to_le_bytes(0),
        Some(id) => seq![1u8] + spec_u128_to_le_bytes(id),
    }) + spec_u64_to_le_bytes(s.total_asset_qty) + spec_u64_to_le_bytes(s.total_quote_qty)
}

pub open spec fn spec_deserialize_order_summary(b: Seq<u8>) -> Option<OrderSummary> {
    if b.len() != 33 {
        None
    } else {
        let id = spec_u128_from_le_bytes(b.subrange(1, 17));
        let total_asset_qty = spec_u64_from_le_bytes(b.subrange(17, 25));
        let total_quote_qty = spec_u64_from_le_bytes(b.subrange(25, 33));
        if b[0] == 0 && id == 0 {
            Some(OrderSummary { posted_order_id: None, total_asset_qty, total_quote_qty })
        } else if b[0] == 1 {
            Some(OrderSummary { posted_order_id: Some(id), total_asset_qty, total_quote_qty })
        } else {
            None
        }
    }
}

pub fn serialize_order_summary(s: &OrderSummary) -> (r: Vec<u8>)
    ensures
        r@ == spec_serialize_order_summary(*s),
        r@.len() == 33,
{
    proof {
        lemma_auto_spec_u64_to_from_le_bytes();
        lemma_auto_spec_u128_to_from_le_bytes();
    }
    let mut out: Vec<u8> = Vec::new();
    match s.posted_order_id {
        None => {
            out.push(0);
            let mut b = u128_to_le_bytes(0);
            out.append(&mut b);
        },
        Some(id) => {
            out.push(1);
            let mut b = u128_to_le_bytes(id);
            out.append(&mut b);
        },
    }
    let mut b = u64_to_le_bytes(s.total_asset_qty);
    out.append(&mut b);
    let mut b2 = u64_to_le_bytes(s.total_quote_qty);
    out.append(&mut b2);
    proof {
        assert(out@ =~= spec_serialize_order_summary(*s));
    }
    out
}

pub fn deserialize_order_summary(b: &[u8]) -> (r: Option<OrderSummary>)
    ensures
        match r {
            Some(s) => spec_deserialize_order_summary(b@) == Some(s),
            None => spec_deserialize_order_summary(b@) is None,
        },
{
    if b.len() != 33 {
        return None;
    }
    let id = u128_from_le_bytes(slice_subrange(b, 1, 17));
    let total_asset_qty = u64_from_le_bytes(slice_subrange(b, 17, 25));
    let total_quote_qty = u64_from_le_bytes(slice_subrange(b, 25, 33));
    let tag = b[0];
    if tag == 0 && id == 0 {
        Some(OrderSummary { posted_order_id: None, total_asset_qty, total_quote_qty })
    } else if tag == 1 {
        Some(OrderSummary { posted_order_id: Some(id), total_asset_qty, total_quote_qty })
    } else {
        None
    }
}

/// Serializing an order summary and reading the bytes back yields the same
/// summary, so re-serializing yields a byte-identical buffer.
pub proof fn lemma_order_summary_round_trip(s: OrderSummary)
    ensures
        spec_deserialize_order_summary(spec_serialize_order_summary(s)) == Some(s),
{
    lemma_auto_spec_u64_to_from_le_bytes();
    lemma_auto_spec_u128_to_from_le_bytes();
    let b = spec_serialize_order_summary(s);
    match s.posted_order_id {
        None => {
            assert(b.subrange(1, 17) =~= spec_u128_to_le_bytes(0));
        },
        Some(id) => {
            assert(b.subrange(1, 17) =~= spec_u128_to_le_bytes(id));
        },
    }
    assert(b.subrange(17, 25) =~= spec_u64_to_le_bytes(s.total_asset_qty));
    assert(b.subrange(25, 33) =~= spec_u64_to_le_bytes(s.total_quote_qty));
}

// --- Events: a fixed record stride, 1-byte discriminant (0 = Fill, 1 = Out),
// --- fields in declaration order, callback blobs of the market's width.

pub open spec fn spec_event_stride(callback_info_len: int) -> int {
    34 + 2 * callback_info_len
}

pub open spec fn spec_serialize_event(e: EventView, callback_info_len: int) -> Seq<u8> {
    match e {
        EventView::Fill {
            taker_side,
            maker_order_id,
            quote_size,
            asset_size,
            maker_callback_info,
            taker_callback_info,
        } => seq![0u8, spec_side_tag(taker_side)] + spec_u128_to_le_bytes(maker_order_id)
            + spec_u64_to_le_bytes(quote_size) + spec_u64_to_le_bytes(asset_size)
            + maker_callback_info + taker_callback_info,
        EventView::Out { side, order_id, asset_size, callback_info } => seq![
            1u8,
            spec_side_tag(side),
        ] + spec_u128_to_le_bytes(order_id) + spec_u64_to_le_bytes(asset_size) + callback_info
            + zero_bytes(8 + callback_info_len),
    }
}

pub open spec fn spec_deserialize_event(b: Seq<u8>, callback_info_len: int) -> Option<EventView> {
    if b.len() != spec_event_stride(callback_info_len) || callback_info_len < 0 {
        None
    } else {
        let cb = callback_info_len;
        match spec_side_from_tag(b[1]) {
            None => None,
            Some(side) => if b[0] == 0 {
                Some(
                    EventView::Fill {
                        taker_side: side,
                        maker_order_id: spec_u128_from_le_bytes(b.subrange(2, 18)),
                        quote_size: spec_u64_from_le_bytes(b.subrange(18, 26)),
                        asset_size: spec_u64_from_le_bytes(b.subrange(26, 34)),
                        maker_callback_info: b.subrange(34, 34 + cb),
                        taker_callback_info: b.subrange(34 + cb, 34 + 2 * cb),
                    },
                )
            } else if b[0] == 1 && b.subrange(26 + cb, 34 + 2 * cb) =~= zero_bytes(8 + cb) {
                Some(
                    EventView::Out {
                        side,
                        order_id: spec_u128_from_le_bytes(b.subrange(2, 18)),
                        asset_size: spec_u64_from_le_bytes(b.subrange(18, 26)),
                        callback_info: b.subrange(26, 26 + cb),
                    },
                )
            } else {
                None
            },
        }
    }
}

pub fn serialize_event(e: &Event, callback_info_len: usize) -> (r: Vec<u8>)
    requires
        crate::state::event_wf(e@, callback_info_len as int),
        34 + 2 * (callback_info_len as int) <= usize::MAX,
    ensures
        r@ == spec_serialize_event(e@, callback_info_len as int),
        r@.len() == spec_event_stride(callback_info_len as int),
{
    proof {
        lemma_auto_spec_u64_to_from_le_bytes();
        lemma_auto_spec_u128_to_from_le_bytes();
    }
    let mut out: Vec<u8> = Vec::new();
    match e {
        Event::Fill {
            taker_side,
            maker_order_id,
            quote_size,
            asset_size,
            maker_callback_info,
            taker_callback_info,
        } => {
            out.push(0);
            out.push(side_to_tag(*taker_side));
            let mut b = u128_to_le_bytes(*maker_order_id);
            out.append(&mut b);
            let mut b = u64_to_le_bytes(*quote_size);
            out.append(&mut b);
            let mut b = u64_to_le_bytes(*asset_size);
            out.append(&mut b);
            let mut b = crate::state::clone_bytes(maker_callback_info);
            out.append(&mut b);
            let mut b = crate::state::clone_bytes(taker_callback_info);
            out.append(&mut b);
            proof {
                assert(out@ =~= spec_serialize_event(e@, callback_info_len as int));
            }
        },
        Event::Out { side, order_id, asset_size, callback_info } => {
            out.push(1);
            out.push(side_to_tag(*side));
            let mut b = u128_to_le_bytes(*order_id);
            out.append(&mut b);
            let mut b = u64_to_le_bytes(*asset_size);
            out.append(&mut b);
            let mut b = crate::state::clone_bytes(callback_info);
            out.append(&mut b);
            push_zeros(&mut out, 8 + callback_info_len);
            proof {
                assert(out@ =~= spec_serialize_event(e@, callback_info_len as int));
            }
        },
    }
    out
}

pub fn deserialize_event(b: &[u8], callback_info_len: usize) -> (r: Option<Event>)
    requires
        34 + 2 * (callback_info_len as int) <= usize::MAX,
    ensures
        match r {
            Some(e) => spec_deserialize_event(b@, callback_info_len as int) == Some(e@),
            None => spec_deserialize_event(b@, callback_info_len as int) is None,
        },
{
    let cb = callback_info_len;
    if b.len() != 34 + 2 * cb {
        return None;
    }
    let side = match side_from_tag(b[1]) {
        None => {
            return None;
        },
        Some(s) => s,
    };
    let disc = b[0];
    if disc == 0 {
        let maker_order_id = u128_from_le_bytes(slice_subrange(b, 2, 18));
        let quote_size = u64_from_le_bytes(slice_subrange(b, 18, 26));
        let asset_size = u64_from_le_bytes(slice_subrange(b, 26, 34));
        let maker_callback_info = slice_to_bytes(slice_subrange(b, 34, 34 + cb));
        let taker_callback_info = slice_to_bytes(slice_subrange(b, 34 + cb, 34 + 2 * cb));
        Some(
            Event::Fill {
                taker_side: side,
                maker_order_id,
                quote_size,
                asset_size,
                maker_callback_info,
                taker_callback_info,
            },
        )
    } else if disc == 1 {
        let pad = slice_subrange(b, 26 + cb, 34 + 2 * cb);
        let mut k: usize = 0;
        while k < pad.len()
            invariant
                k <= pad@.len(),
                callback_info_len == cb,
                b@.len() == 34 + 2 * (cb as int),
                b@[0] == 1u8,
                pad@ == b@.subrange(26 + cb as int, 34 + 2 * (cb as int)),
                forall|j: int| 0 <= j < k ==> pad@[j] == 0u8,
            decreases pad@.len() - k,
        {
            if pad[k] != 0 {
                proof {
                    assert(b@.subrange(26 + cb as int, 34 + 2 * (cb as int))[k as int] != 0u8);
                    assert(!(b@.subrange(26 + cb as int, 34 + 2 * (cb as int)) =~= zero_bytes(
                        8 + cb as int,
                    )));
                }
                return None;
            }
            k = k + 1;
        }
        proof {
            assert(b@.subrange(26 + cb as int, 34 + 2 * (cb as int)) =~= zero_bytes(
                8 + cb as int,
            ));
        }
        let order_id = u128_from_le_bytes(slice_subrange(b, 2, 18));
        let asset_size = u64_from_le_bytes(slice_subrange(b, 18, 26));
        let callback_info = slice_to_bytes(slice_subrange(b, 26, 26 + cb));
        Some(Event::Out { side, order_id, asset_size, callback_info })
    } else {
        None
    }
}

/// Serializing an event and reading the bytes back yields the same event.
pub proof fn lemma_event_round_trip(e: EventView, callback_info_len: int)
    requires
        crate::state::event_wf(e, callback_info_len),
        callback_info_len >= 0,
    ensures
        spec_deserialize_event(spec_serialize_event(e, callback_info_len), callback_info_len)
            is Some,
        spec_deserialize_event(
            spec_serialize_event(e, callback_info_len),
            callback_info_len,
        ).unwrap() =~= e,
{
    lemma_auto_spec_u64_to_from_le_bytes();
    lemma_auto_spec_u128_to_from_le_bytes();
    let cb = callback_info_len;
    let b = spec_serialize_event(e, cb);
    match e {
        EventView::Fill {
            taker_side,
            maker_order_id,
            quote_size,
            asset_size,
            maker_callback_info,
            taker_callback_info,
        } => {
            assert(b.subrange(2, 18) =~= spec_u128_to_le_bytes(maker_order_id));
            assert(b.subrange(18, 26) =~= spec_u64_to_le_bytes(quote_size));
            assert(b.subrange(26, 34) =~= spec_u64_to_le_bytes(asset_size));
            assert(b.subrange(34, 34 + cb) =~= maker_callback_info);
            assert(b.subrange(34 + cb, 34 + 2 * cb) =~= taker_callback_info);
        },
        EventView::Out { side, order_id, asset_size, callback_info } => {
            assert(b.subrange(2, 18) =~= spec_u128_to_le_bytes(order_id));
            assert(b.subrange(18, 26) =~= spec_u64_to_le_bytes(asset_size));
            assert(b.subrange(26, 26 + cb) =~= callback_info);
            assert(b.subrange(26 + cb, 34 + 2 * cb) =~= zero_bytes(8 + cb));
        },
    }
}

// --- Slab header: 1-byte side tag, then five 8-byte little-endian fields ---

pub open spec fn spec_serialize_slab_header(h: SlabHeader) -> Seq<u8> {
    seq![spec_side_tag(h.market_state)] + spec_u64_to_le_bytes(h.bump_index)
        + spec_u64_to_le_bytes(h.free_list_head) + spec_u64_to_le_bytes(h.callback_memory_offset)
        + spec_u64_to_le_bytes(h.leaf_count) + spec_u64_to_le_bytes(h.root_handle)
}

pub open spec fn spec_deserialize_slab_header(b: Seq<u8>) -> Option<SlabHeader> {
    if b.len() != 41 {
        None
    } else {
        match spec_side_from_tag(b[0]) {
            None => None,
            Some(market_state) => Some(
                SlabHeader {
                    bump_index: spec_u64_from_le_bytes(b.subrange(1, 9)),
                    free_list_head: spec_u64_from_le_bytes(b.subrange(9, 17)),
                    callback_memory_offset: spec_u64_from_le_bytes(b.subrange(17, 25)),
                    leaf_count: spec_u64_from_le_bytes(b.subrange(25, 33)),
                    root_handle: spec_u64_from_le_bytes(b.subrange(33, 41)),
                    market_state,
                },
            ),
        }
    }
}

pub fn serialize_slab_header(h: &SlabHeader) -> (r: Vec<u8>)
    ensures
        r@ == spec_serialize_slab_header(*h),
        r@.len() == 41,
{
    proof {
        lemma_auto_spec_u64_to_from_le_bytes();
    }
    let mut out: Vec<u8> = Vec::new();
    out.push(side_to_tag(h.market_state));
    let mut b = u64_to_le_bytes(h.bump_index);
    out.append(&mut b);
    let mut b = u64_to_le_bytes(h.free_list_head);
    out.append(&mut b);
    let mut b = u64_to_le_bytes(h.callback_memory_offset);
    out.append(&mut b);
    let mut b = u64_to_le_bytes(h.leaf_count);
    out.append(&mut b);
    let mut b = u64_to_le_bytes(h.root_handle);
    out.append(&mut b);
    proof {
        assert(out@ =~= spec_serialize_slab_header(*h));
    }
    out
}

pub fn deserialize_slab_header(b: &[u8]) -> (r: Option<SlabHeader>)
    ensures
        r == spec_deserialize_slab_header(b@),
{
    if b.len() != 41 {
        return None;
    }
    let market_state = match side_from_tag(b[0]) {
        None => {
            return None;
        },
        Some(s) => s,
    };
    Some(
        SlabHeader {
            bump_index: u64_from_le_bytes(slice_subrange(b, 1, 9)),
            free_list_head: u64_from_le_bytes(slice_subrange(b, 9, 17)),
            callback_memory_offset: u64_from_le_bytes(slice_subrange(b, 17, 25)),
            leaf_count: u64_from_le_bytes(slice_subrange(b, 25, 33)),
            root_handle: u64_from_le_bytes(slice_subrange(b, 33, 41)),
            market_state,
        },
    )
}

/// Serializing a slab header and reading the bytes back yields the same
/// header, so re-serializing yields a byte-identical buffer.
pub proof fn lemma_slab_header_round_trip(h: SlabHeader)
    ensures
        spec_deserialize_slab_header(spec_serialize_slab_header(h)) == Some(h),
{
    lemma_auto_spec_u64_to_from_le_bytes();
    let b = spec_serialize_slab_header(h);
    assert(b.subrange(1, 9) =~= spec_u64_to_le_bytes(h.bump_index));
    assert(b.subrange(9, 17) =~= spec_u64_to_le_bytes(h.free_list_head));
    assert(b.subrange(17, 25) =~= spec_u64_to_le_bytes(h.callback_memory_offset));
    assert(b.subrange(25, 33) =~= spec_u64_to_le_bytes(h.leaf_count));
    assert(b.subrange(33, 41) =~= spec_u64_to_le_bytes(h.root_handle));
}

} // verus!
