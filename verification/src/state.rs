use vstd::prelude::*;

use crate::utils::spec_fp32_mul;

verus! {

/// The two sides of the book.
#[derive(Clone, Copy, Debug, PartialEq, Eq, Structural)]
pub enum Side {
    Bid,
    Ask,
}

impl Side {
    pub open spec fn spec_opposite(self) -> Side {
        match self {
            Side::Bid => Side::Ask,
            Side::Ask => Side::Bid,
        }
    }

    /// The side that an incoming order of side `self` matches against.
    #[verifier::when_used_as_spec(spec_opposite)]
    pub fn opposite(self) -> (r: Side)
        ensures
            r == self.spec_opposite(),
    {
        match self {
            Side::Bid => Side::Ask,
            Side::Ask => Side::Bid,
        }
    }
}

/// What to do when an incoming order would trade against a resting order
/// that carries the same callback information.
#[derive(Clone, Copy, Debug, PartialEq, Eq, Structural)]
pub enum SelfTradeBehavior {
    /// Trade normally; both sides of the match belong to the same owner.
    DecrementTake,
    /// Cancel the resting order and keep matching.
    CancelProvide,
    /// Fail the whole new-order call.
    AbortTransaction,
}

/// An order id packs a Q32.32 price in the high 64 bits and a masked
/// sequence number in the low 64 bits. Bids store the complement of the
/// sequence number so that, for both sides, the best-priority resting order
/// is at the key extreme: highest key for bids, lowest key for asks, with
/// price ties broken towards the smallest sequence number.
pub open spec fn spec_seq_mask(seq_number: u64, side: Side) -> u64 {
    match side {
        Side::Bid => (u64::MAX - seq_number) as u64,
        Side::Ask => seq_number,
    }
}

/// The composite order id: `price * 2^64 + masked sequence number`.
pub open spec fn spec_order_id(limit_price: u64, seq_number: u64, side: Side) -> u128 {
    ((limit_price as int) * 0x1_0000_0000_0000_0000 + spec_seq_mask(seq_number, side)) as u128
}

/// The low 64 bits of an order id: the masked sequence number.
pub open spec fn spec_key_low(order_id: u128) -> u64 {
    (order_id % 0x1_0000_0000_0000_0000) as u64
}

/// The sequence number that generated an order id of the given side.
pub open spec fn spec_key_seq(order_id: u128, side: Side) -> u64 {
    match side {
        Side::Bid => (u64::MAX - spec_key_low(order_id)) as u64,
        Side::Ask => spec_key_low(order_id),
    }
}

/// The Q32.32 limit price packed in the high 64 bits of an order id.
pub open spec fn spec_price_of(order_id: u128) -> u64 {
    (order_id / 0x1_0000_0000_0000_0000) as u64
}

/// How an order id decomposes: the high bits are the price, the low bits
/// the masked sequence number, and unmasking recovers the sequence number.
pub proof fn lemma_order_id_parts(limit_price: u64, seq_number: u64, side: Side)
    ensures
        spec_price_of(spec_order_id(limit_price, seq_number, side)) == limit_price,
        spec_key_low(spec_order_id(limit_price, seq_number, side)) == spec_seq_mask(
            seq_number,
            side,
        ),
        spec_key_seq(spec_order_id(limit_price, seq_number, side), side) == seq_number,
{
    let low = spec_seq_mask(seq_number, side);
    vstd::arithmetic::mul::lemma_mul_is_commutative(limit_price as int, 0x1_0000_0000_0000_0000);
    vstd::arithmetic::div_mod::lemma_div_multiples_vanish_fancy(
        limit_price as int,
        low as int,
        0x1_0000_0000_0000_0000,
    );
    vstd::arithmetic::div_mod::lemma_mod_multiples_vanish(
        limit_price as int,
        low as int,
        0x1_0000_0000_0000_0000,
    );
    vstd::arithmetic::div_mod::lemma_small_mod(low as nat, 0x1_0000_0000_0000_0000nat);
}

/// An event appended to the queue by the matching engine.
#[derive(Debug)]
pub enum Event {
    Fill {
        taker_side: Side,
        maker_order_id: u128,
        quote_size: u64,
        asset_size: u64,
        maker_callback_info: Vec<u8>,
        taker_callback_info: Vec<u8>,
    },
    Out {
        side: Side,
        order_id: u128,
        asset_size: u64,
        callback_info: Vec<u8>,
    },
}

/// The mathematical image of an `Event`.
#[verifier::ext_equal]
pub ghost enum EventView {
    Fill {
        taker_side: Side,
        maker_order_id: u128,
        quote_size: u64,
        asset_size: u64,
        maker_callback_info: Seq<u8>,
        taker_callback_info: Seq<u8>,
    },
    Out {
        side: Side,
        order_id: u128,
        asset_size: u64,
        callback_info: Seq<u8>,
    },
}

impl View for Event {
    type V = EventView;

    open spec fn view(&self) -> EventView {
        match self {
            Event::Fill {
                taker_side,
                maker_order_id,
                quote_size,
                asset_size,
                maker_callback_info,
                taker_callback_info,
            } => EventView::Fill {
                taker_side: *taker_side,
                maker_order_id: *maker_order_id,
                quote_size: *quote_size,
                asset_size: *asset_size,
                maker_callback_info: maker_callback_info@,
                taker_callback_info: taker_callback_info@,
            },
            Event::Out { side, order_id, asset_size, callback_info } => EventView::Out {
                side: *side,
                order_id: *order_id,
                asset_size: *asset_size,
                callback_info: callback_info@,
            },
        }
    }
}

/// Both callback blobs of an event have the market's fixed width.
pub open spec fn event_wf(e: EventView, callback_info_len: int) -> bool {
    match e {
        EventView::Fill { maker_callback_info, taker_callback_info, .. } => {
            &&& maker_callback_info.len() == callback_info_len
            &&& taker_callback_info.len() == callback_info_len
        },
        EventView::Out { callback_info, .. } => callback_info.len() == callback_info_len,
    }
}

/// A fill's quote size is the fp32 product of its asset size and the maker's
/// price, read off the maker's order id.
pub open spec fn fill_ok(e: EventView) -> bool {
    match e {
        EventView::Fill { maker_order_id, quote_size, asset_size, .. } => quote_size
            == spec_fp32_mul(asset_size, spec_price_of(maker_order_id)),
        EventView::Out { .. } => true,
    }
}

/// An event that the matching loop itself can emit for a taker of side
/// `taker_side`: a fill, or an out for a cancelled resting order on the
/// opposite side. The only other event a new-order call emits is the
/// eviction out, which is tagged with the taker's own side.
pub open spec fn matching_phase_event(e: EventView, taker_side: Side) -> bool {
    match e {
        EventView::Fill { .. } => true,
        EventView::Out { side, .. } => side == taker_side.spec_opposite(),
    }
}

pub open spec fn event_fill_asset(e: EventView) -> int {
    match e {
        EventView::Fill { asset_size, .. } => asset_size as int,
        EventView::Out { .. } => 0,
    }
}

pub open spec fn event_fill_quote(e: EventView) -> int {
    match e {
        EventView::Fill { quote_size, .. } => quote_size as int,
        EventView::Out { .. } => 0,
    }
}

/// Total base quantity traded by the fills of an event sequence.
pub open spec fn fill_asset_sum(events: Seq<EventView>) -> int
    decreases events.len(),
{
    if events.len() == 0 {
        0
    } else {
        fill_asset_sum(events.drop_last()) + event_fill_asset(events.last())
    }
}

/// Total quote quantity traded by the fills of an event sequence.
pub open spec fn fill_quote_sum(events: Seq<EventView>) -> int
    decreases events.len(),
{
    if events.len() == 0 {
        0
    } else {
        fill_quote_sum(events.drop_last()) + event_fill_quote(events.last())
    }
}

pub proof fn lemma_fill_sums_push(s: Seq<EventView>, e: EventView)
    ensures
        fill_asset_sum(s.push(e)) == fill_asset_sum(s) + event_fill_asset(e),
        fill_quote_sum(s.push(e)) == fill_quote_sum(s) + event_fill_quote(e),
{
    assert(s.push(e).drop_last() =~= s);
    assert(s.push(e).last() == e);
}

pub proof fn lemma_fill_sums_cons(e: EventView, s: Seq<EventView>)
    ensures
        fill_asset_sum(seq![e] + s) == event_fill_asset(e) + fill_asset_sum(s),
        fill_quote_sum(seq![e] + s) == event_fill_quote(e) + fill_quote_sum(s),
    decreases s.len(),
{
    if s.len() == 0 {
        let t = seq![e] + s;
        assert(t.drop_last() =~= Seq::<EventView>::empty());
        assert(t.last() == e);
        assert(fill_asset_sum(t.drop_last()) == 0);
        assert(fill_quote_sum(t.drop_last()) == 0);
        assert(fill_asset_sum(s) == 0);
        assert(fill_quote_sum(s) == 0);
        assert(fill_asset_sum(t) == fill_asset_sum(t.drop_last()) + event_fill_asset(t.last()));
        assert(fill_quote_sum(t) == fill_quote_sum(t.drop_last()) + event_fill_quote(t.last()));
    } else {
        assert((seq![e] + s).drop_last() =~= seq![e] + s.drop_last());
        assert((seq![e] + s).last() == s.last());
        lemma_fill_sums_cons(e, s.drop_last());
        lemma_fill_sums_push(s.drop_last(), s.last());
        assert(s.drop_last().push(s.last()) =~= s);
    }
}

pub proof fn lemma_skip_push(s: Seq<EventView>, e: EventView, k: int)
    requires
        0 <= k <= s.len(),
    ensures
        s.push(e).skip(k) =~= s.skip(k).push(e),
{
}

impl Event {
    /// An owned copy of the event.
    pub fn duplicate(&self) -> (r: Event)
        ensures
            r@ == self@,
    {
        match self {
            Event::Fill {
                taker_side,
                maker_order_id,
                quote_size,
                asset_size,
                maker_callback_info,
                taker_callback_info,
            } => Event::Fill {
                taker_side: *taker_side,
                maker_order_id: *maker_order_id,
                quote_size: *quote_size,
                asset_size: *asset_size,
                maker_callback_info: clone_bytes(maker_callback_info),
                taker_callback_info: clone_bytes(taker_callback_info),
            },
            Event::Out { side, order_id, asset_size, callback_info } => Event::Out {
                side: *side,
                order_id: *order_id,
                asset_size: *asset_size,
                callback_info: clone_bytes(callback_info),
            },
        }
    }
}

/// An owned copy of a byte vector.
pub fn clone_bytes(v: &Vec<u8>) -> (r: Vec<u8>)
    ensures
        r@ == v@,
{
    let mut out: Vec<u8> = Vec::new();
    let mut i: usize = 0;
    while i < v.len()
        invariant
            i <= v.len(),
            out@ =~= v@.take(i as int),
        decreases v.len() - i,
    {
        out.push(v[i]);
        proof {
            assert(out@ =~= v@.take(i + 1 as int));
        }
        i = i + 1;
    }
    proof {
        assert(v@.take(v@.len() as int) =~= v@);
    }
    out
}

/// Byte-for-byte equality of two byte vectors.
pub fn bytes_eq(a: &Vec<u8>, b: &Vec<u8>) -> (r: bool)
    ensures
        r == (a@ =~= b@),
{
    if a.len() != b.len() {
        return false;
    }
    let mut i: usize = 0;
    while i < a.len()
        invariant
            i <= a.len(),
            a@.len() == b@.len(),
            forall|j: int| 0 <= j < i ==> a@[j] == b@[j],
        decreases a.len() - i,
    {
        if a[i] != b[i] {
            return false;
        }
        i = i + 1;
    }
    true
}

} // verus!
