use vstd::prelude::*;

use crate::codec::{serialize_slab_header, spec_serialize_slab_header};
use crate::critbit::{has_key, key_index, LeafNode, LeafView, Slab, SlabHeader};
use crate::error::AoError;
use crate::event_queue::EventQueue;
use crate::new_order::Params;
use crate::state::{
    bytes_eq, clone_bytes, fill_asset_sum, fill_ok, fill_quote_sum,
    lemma_fill_sums_push, lemma_order_id_parts, lemma_skip_push, matching_phase_event, spec_key_seq,
    spec_order_id, spec_price_of, Event, EventView, SelfTradeBehavior, Side,
};
use crate::utils::{fp32_div, fp32_mul, lemma_fp32_mul_of_div_le, spec_fp32_div, spec_fp32_mul};

verus! {

/// Written back into the event queue's register after each new-order call.
/// The quantities are the total order amounts that were either matched
/// against resting orders or posted into the book.
#[derive(Debug)]
pub struct OrderSummary {
    /// When applicable, the order id of the newly created resting order.
    pub posted_order_id: Option<u128>,
    pub total_asset_qty: u64,
    pub total_quote_qty: u64,
}

/// The serialized size of an `OrderSummary` object.
pub const ORDER_SUMMARY_SIZE: u32 = 33;

/// Whether an incoming order of side `side` with the given limit trades
/// against a resting order priced at `best_price`.
pub open spec fn crosses(side: Side, limit_price: u64, best_price: u64) -> bool {
    match side {
        Side::Bid => limit_price >= best_price,
        Side::Ask => limit_price <= best_price,
    }
}

/// Every resting order of `leaves` was generated from a sequence number
/// below `seq_number`, so ids generated from `seq_number` on are fresh.
pub open spec fn fresh_order_ids(leaves: Seq<LeafView>, side: Side, seq_number: u64) -> bool {
    forall|i: int|
        0 <= i < leaves.len() ==> spec_key_seq((#[trigger] leaves[i]).order_id, side) < seq_number
}

/// Some resting order of `leaves` carries this callback tag.
pub open spec fn has_callback(leaves: Seq<LeafView>, callback_info: Seq<u8>) -> bool {
    exists|i: int| 0 <= i < leaves.len() && (#[trigger] leaves[i]).callback_info == callback_info
}

/// `l`'s callback tag occurs in `s`.
pub open spec fn callback_from(s: Seq<LeafView>, l: LeafView) -> bool {
    exists|j: int| 0 <= j < s.len() && (#[trigger] s[j]).callback_info == l.callback_info
}

/// The two slabs agree on everything the contracts speak of: contents,
/// header, capacity and callback width.
pub open spec fn slab_eqv(a: Slab, b: Slab) -> bool {
    &&& a.leaves() =~= b.leaves()
    &&& a.spec_header() == b.spec_header()
    &&& a.spec_capacity() == b.spec_capacity()
    &&& a.spec_cb_len() == b.spec_cb_len()
}

/// The best-priority resting order of a side: highest key for bids, lowest
/// for asks.
pub open spec fn spec_best(leaves: Seq<LeafView>, side: Side) -> LeafView
    recommends
        leaves.len() > 0,
{
    match side {
        Side::Bid => leaves.last(),
        Side::Ask => leaves[0],
    }
}

/// The least aggressive resting order of a side: lowest price for bids,
/// highest for asks; the victim of a book-full eviction.
pub open spec fn spec_worst(leaves: Seq<LeafView>, side: Side) -> LeafView
    recommends
        leaves.len() > 0,
{
    match side {
        Side::Bid => leaves[0],
        Side::Ask => leaves.last(),
    }
}

/// The quantity that rests in the book after matching: bids are capped by
/// the remaining quote budget at the limit price, asks are not.
pub open spec fn spec_post_qty(side: Side, asset_rem: u64, quote_rem: u64, limit_price: u64) -> u64
    recommends
        limit_price > 0,
{
    match side {
        Side::Bid => if spec_fp32_div(quote_rem, limit_price) < asset_rem {
            spec_fp32_div(quote_rem, limit_price)
        } else {
            asset_rem
        },
        Side::Ask => asset_rem,
    }
}

/// Every event the matching fold emits is a correctly priced fill or an
/// opposite-side out, and the emitted fills account exactly for the spent
/// budgets, which never grow.
pub proof fn lemma_match_properties(
    opp_leaves: Seq<LeafView>,
    opp_side: Side,
    side: Side,
    limit_price: u64,
    callback_info: Seq<u8>,
    self_trade_behavior: SelfTradeBehavior,
    post_only: bool,
    match_limit: u64,
    asset_qty_remaining: u64,
    quote_qty_remaining: u64,
    crossed: bool,
)
    requires
        opp_side == side.spec_opposite(),
        forall|i: int|
            0 <= i < opp_leaves.len() ==> spec_price_of(
                (#[trigger] opp_leaves[i]).order_id,
            ) > 0,
    ensures
        ({
            let m = spec_match(
                opp_leaves,
                opp_side,
                side,
                limit_price,
                callback_info,
                self_trade_behavior,
                post_only,
                match_limit,
                asset_qty_remaining,
                quote_qty_remaining,
                crossed,
            );
            &&& forall|i: int|
                0 <= i < m.events.len() ==> fill_ok(#[trigger] m.events[i])
                    && matching_phase_event(m.events[i], side)
            &&& fill_asset_sum(m.events) == asset_qty_remaining - m.asset_qty_remaining
            &&& fill_quote_sum(m.events) == quote_qty_remaining - m.quote_qty_remaining
            &&& m.asset_qty_remaining <= asset_qty_remaining
            &&& m.quote_qty_remaining <= quote_qty_remaining
        }),
    decreases match_limit + opp_leaves.len(),
{
    reveal_with_fuel(spec_match, 1);
    let m = spec_match(
        opp_leaves,
        opp_side,
        side,
        limit_price,
        callback_info,
        self_trade_behavior,
        post_only,
        match_limit,
        asset_qty_remaining,
        quote_qty_remaining,
        crossed,
    );
    if match_limit == 0 || opp_leaves.len() == 0 || post_only {
        assert(m.events =~= Seq::<EventView>::empty());
    } else {
        let best = spec_best(opp_leaves, opp_side);
        let trade_price = spec_price_of(best.order_id);
        let now_crossed = crosses(side, limit_price, trade_price);
        let asset_trade_qty = spec_trade_qty(best, asset_qty_remaining, quote_qty_remaining);
        if asset_trade_qty == 0 {
            assert(m.events =~= Seq::<EventView>::empty());
        } else if self_trade_behavior != SelfTradeBehavior::DecrementTake && best.callback_info
            == callback_info {
            if self_trade_behavior == SelfTradeBehavior::AbortTransaction {
                assert(m.events =~= Seq::<EventView>::empty());
            } else {
                let ov = EventView::Out {
                    side: opp_side,
                    order_id: best.order_id,
                    asset_size: best.asset_quantity,
                    callback_info: best.callback_info,
                };
                assert(forall|i: int|
                    0 <= i < spec_best_removed(opp_leaves, opp_side).len() ==> spec_price_of(
                        (#[trigger] spec_best_removed(opp_leaves, opp_side)[i]).order_id,
                    ) > 0) by {
                    assert(forall|i: int|
                        0 <= i < spec_best_removed(opp_leaves, opp_side).len() ==> (
                        #[trigger] spec_best_removed(opp_leaves, opp_side)[i]) == opp_leaves[
                            if opp_side == Side::Bid {
                                i
                            } else {
                                i + 1
                            }]);
                }
                lemma_match_properties(
                    spec_best_removed(opp_leaves, opp_side),
                    opp_side,
                    side,
                    limit_price,
                    callback_info,
                    self_trade_behavior,
                    post_only,
                    match_limit,
                    asset_qty_remaining,
                    quote_qty_remaining,
                    now_crossed,
                );
                let rest = spec_match(
                    spec_best_removed(opp_leaves, opp_side),
                    opp_side,
                    side,
                    limit_price,
                    callback_info,
                    self_trade_behavior,
                    post_only,
                    match_limit,
                    asset_qty_remaining,
                    quote_qty_remaining,
                    now_crossed,
                );
                assert(m.events =~= seq![ov] + rest.events);
                crate::state::lemma_fill_sums_cons(ov, rest.events);
                assert(forall|i: int|
                    1 <= i < m.events.len() ==> #[trigger] m.events[i] == rest.events[i - 1]);
            }
        } else {
            assert(trade_price > 0) by {
                if opp_side == Side::Bid {
                    assert(spec_price_of(opp_leaves[opp_leaves.len() - 1].order_id) > 0);
                } else {
                    assert(spec_price_of(opp_leaves[0].order_id) > 0);
                }
            }
            lemma_fp32_mul_of_div_le(asset_trade_qty, quote_qty_remaining, trade_price);
            let quote_maker_qty = spec_fp32_mul(asset_trade_qty, trade_price);
            let fv = EventView::Fill {
                taker_side: side,
                maker_order_id: best.order_id,
                quote_size: quote_maker_qty,
                asset_size: asset_trade_qty,
                maker_callback_info: best.callback_info,
                taker_callback_info: callback_info,
            };
            let next_leaves = if best.asset_quantity == asset_trade_qty {
                spec_best_removed(opp_leaves, opp_side)
            } else {
                spec_best_updated(
                    opp_leaves,
                    opp_side,
                    (best.asset_quantity - asset_trade_qty) as u64,
                )
            };
            assert(forall|i: int|
                0 <= i < next_leaves.len() ==> spec_price_of(
                    (#[trigger] next_leaves[i]).order_id,
                ) > 0) by {
                if best.asset_quantity == asset_trade_qty {
                    assert(forall|i: int|
                        0 <= i < next_leaves.len() ==> (#[trigger] next_leaves[i]) == opp_leaves[
                            if opp_side == Side::Bid {
                                i
                            } else {
                                i + 1
                            }]);
                } else {
                    assert(forall|i: int|
                        0 <= i < next_leaves.len() ==> (#[trigger] next_leaves[i]).order_id
                            == opp_leaves[i].order_id);
                }
            }
            lemma_match_properties(
                next_leaves,
                opp_side,
                side,
                limit_price,
                callback_info,
                self_trade_behavior,
                post_only,
                (match_limit - 1) as u64,
                (asset_qty_remaining - asset_trade_qty) as u64,
                (quote_qty_remaining - quote_maker_qty) as u64,
                now_crossed,
            );
            let rest = spec_match(
                next_leaves,
                opp_side,
                side,
                limit_price,
                callback_info,
                self_trade_behavior,
                post_only,
                (match_limit - 1) as u64,
                (asset_qty_remaining - asset_trade_qty) as u64,
                (quote_qty_remaining - quote_maker_qty) as u64,
                now_crossed,
            );
            assert(m.events =~= seq![fv] + rest.events);
            crate::state::lemma_fill_sums_cons(fv, rest.events);
            assert(forall|i: int|
                1 <= i < m.events.len() ==> #[trigger] m.events[i] == rest.events[i - 1]);
        }
    }
}

/// The value of the `crossed` flag after the matching loop peeked at the
/// book once and stopped, as a post-only order does.
pub open spec fn crossed_after_peek(
    match_limit: u64,
    opp_leaves: Seq<LeafView>,
    opp_side: Side,
    side: Side,
    limit_price: u64,
) -> bool {
    if match_limit == 0 {
        true
    } else if opp_leaves.len() == 0 {
        false
    } else {
        crosses(side, limit_price, spec_price_of(spec_best(opp_leaves, opp_side).order_id))
    }
}

/// The smaller of two quantities.
pub open spec fn spec_min_u64(a: u64, b: u64) -> u64 {
    if a < b {
        a
    } else {
        b
    }
}

/// The book with its best-priority resting order removed.
pub open spec fn spec_best_removed(leaves: Seq<LeafView>, side: Side) -> Seq<LeafView>
    recommends
        leaves.len() > 0,
{
    match side {
        Side::Bid => leaves.drop_last(),
        Side::Ask => leaves.skip(1),
    }
}

/// The book with its best-priority resting order's quantity overwritten.
pub open spec fn spec_best_updated(
    leaves: Seq<LeafView>,
    side: Side,
    asset_quantity: u64,
) -> Seq<LeafView>
    recommends
        leaves.len() > 0,
{
    match side {
        Side::Bid => leaves.update(
            leaves.len() - 1,
            LeafView { asset_quantity, ..leaves.last() },
        ),
        Side::Ask => leaves.update(0, LeafView { asset_quantity, ..leaves[0] }),
    }
}

/// The base quantity one matching step trades: the maker's offer capped by
/// the taker's remaining base budget and by what the remaining quote budget
/// affords at the maker's price.
pub open spec fn spec_trade_qty(
    best: LeafView,
    asset_qty_remaining: u64,
    quote_qty_remaining: u64,
) -> u64 {
    spec_min_u64(
        spec_min_u64(best.asset_quantity, asset_qty_remaining),
        spec_fp32_div(quote_qty_remaining, spec_price_of(best.order_id)),
    )
}

/// What one run of the matching loop leaves behind.
#[verifier::ext_equal]
pub ghost struct MatchOutcome {
    /// The fills and self-trade cancellation outs, in emission order.
    pub events: Seq<EventView>,
    /// The opposite side's resting orders after matching.
    pub opp_leaves: Seq<LeafView>,
    pub asset_qty_remaining: u64,
    pub quote_qty_remaining: u64,
    /// Whether the last inspected best opposite order crossed the limit.
    pub crossed: bool,
    /// An aborting self-trade was hit.
    pub aborted: bool,
}

/// The price-time-priority matching fold: exactly what the matching loop of
/// `new_order` emits, consumes and leaves behind, computed from the opposite
/// side's resting orders and the incoming order alone.
#[verifier::opaque]
pub open spec fn spec_match(
    opp_leaves: Seq<LeafView>,
    opp_side: Side,
    side: Side,
    limit_price: u64,
    callback_info: Seq<u8>,
    self_trade_behavior: SelfTradeBehavior,
    post_only: bool,
    match_limit: u64,
    asset_qty_remaining: u64,
    quote_qty_remaining: u64,
    crossed: bool,
) -> MatchOutcome
    decreases match_limit + opp_leaves.len(),
{
    if match_limit == 0 {
        MatchOutcome {
            events: Seq::<EventView>::empty(),
            opp_leaves,
            asset_qty_remaining,
            quote_qty_remaining,
            crossed,
            aborted: false,
        }
    } else if opp_leaves.len() == 0 {
        MatchOutcome {
            events: Seq::<EventView>::empty(),
            opp_leaves,
            asset_qty_remaining,
            quote_qty_remaining,
            crossed: false,
            aborted: false,
        }
    } else {
        let best = spec_best(opp_leaves, opp_side);
        let now_crossed = crosses(side, limit_price, spec_price_of(best.order_id));
        if post_only {
            MatchOutcome {
                events: Seq::<EventView>::empty(),
                opp_leaves,
                asset_qty_remaining,
                quote_qty_remaining,
                crossed: now_crossed,
                aborted: false,
            }
        } else {
            let asset_trade_qty = spec_trade_qty(best, asset_qty_remaining, quote_qty_remaining);
            if asset_trade_qty == 0 {
                MatchOutcome {
                    events: Seq::<EventView>::empty(),
                    opp_leaves,
                    asset_qty_remaining,
                    quote_qty_remaining,
                    crossed: now_crossed,
                    aborted: false,
                }
            } else if self_trade_behavior != SelfTradeBehavior::DecrementTake
                && best.callback_info == callback_info {
                if self_trade_behavior == SelfTradeBehavior::AbortTransaction {
                    MatchOutcome {
                        events: Seq::<EventView>::empty(),
                        opp_leaves,
                        asset_qty_remaining,
                        quote_qty_remaining,
                        crossed: now_crossed,
                        aborted: true,
                    }
                } else {
                    let rest = spec_match(
                        spec_best_removed(opp_leaves, opp_side),
                        opp_side,
                        side,
                        limit_price,
                        callback_info,
                        self_trade_behavior,
                        post_only,
                        match_limit,
                        asset_qty_remaining,
                        quote_qty_remaining,
                        now_crossed,
                    );
                    MatchOutcome {
                        events: seq![
                            EventView::Out {
                                side: opp_side,
                                order_id: best.order_id,
                                asset_size: best.asset_quantity,
                                callback_info: best.callback_info,
                            },
                        ] + rest.events,
                        ..rest
                    }
                }
            } else {
                let quote_maker_qty = spec_fp32_mul(
                    asset_trade_qty,
                    spec_price_of(best.order_id),
                );
                let next_leaves = if best.asset_quantity == asset_trade_qty {
                    spec_best_removed(opp_leaves, opp_side)
                } else {
                    spec_best_updated(
                        opp_leaves,
                        opp_side,
                        (best.asset_quantity - asset_trade_qty) as u64,
                    )
                };
                let rest = spec_match(
                    next_leaves,
                    opp_side,
                    side,
                    limit_price,
                    callback_info,
                    self_trade_behavior,
                    post_only,
                    (match_limit - 1) as u64,
                    (asset_qty_remaining - asset_trade_qty) as u64,
                    (quote_qty_remaining - quote_maker_qty) as u64,
                    now_crossed,
                );
                MatchOutcome {
                    events: seq![
                        EventView::Fill {
                            taker_side: side,
                            maker_order_id: best.order_id,
                            quote_size: quote_maker_qty,
                            asset_size: asset_trade_qty,
                            maker_callback_info: best.callback_info,
                            taker_callback_info: callback_info,
                        },
                    ] + rest.events,
                    ..rest
                }
            }
        }
    }
}

/// Both sides of the book. A new-order call holds exclusive access to the
/// two slabs and the event queue for its whole duration.
pub struct OrderBookState {
    bids: Slab,
    asks: Slab,
}

impl OrderBookState {
    pub closed spec fn spec_bids(&self) -> Slab {
        self.bids
    }

    pub closed spec fn spec_asks(&self) -> Slab {
        self.asks
    }

    /// The slab holding the given side.
    pub open spec fn tree(&self, side: Side) -> Slab {
        match side {
            Side::Bid => self.spec_bids(),
            Side::Ask => self.spec_asks(),
        }
    }

    pub open spec fn spec_cb_len(&self) -> int {
        self.spec_bids().spec_cb_len()
    }

    pub open spec fn wf(&self) -> bool {
        &&& self.spec_bids().wf()
        &&& self.spec_asks().wf()
        &&& self.spec_bids().side() == Side::Bid
        &&& self.spec_asks().side() == Side::Ask
        &&& self.spec_bids().spec_cb_len() == self.spec_asks().spec_cb_len()
    }

    /// Pairs the two slabs after checking that each is tagged with the
    /// side it is supposed to hold.
    pub fn new_safe(bids: Slab, asks: Slab) -> (r: Option<OrderBookState>)
        requires
            bids.wf(),
            asks.wf(),
            bids.spec_cb_len() == asks.spec_cb_len(),
        ensures
            r is Some <==> (bids.side() == Side::Bid && asks.side() == Side::Ask),
            match r {
                Some(ob) => ob.wf() && ob.spec_bids() == bids && ob.spec_asks() == asks,
                None => true,
            },
    {
        if !(bids.check(Side::Bid) && asks.check(Side::Ask)) {
            return None;
        }
        Some(OrderBookState { bids, asks })
    }

    /// Handle of the best-priority resting order of the given side.
    pub fn find_bbo(&self, side: Side) -> (r: Option<usize>)
        requires
            self.wf(),
        ensures
            match r {
                None => self.tree(side).leaves().len() == 0,
                Some(h) => {
                    &&& h < self.tree(side).leaves().len()
                    &&& self.tree(side).leaves()[h as int] == spec_best(
                        self.tree(side).leaves(),
                        side,
                    )
                    &&& h as int == (match side {
                        Side::Bid => self.tree(side).leaves().len() - 1,
                        Side::Ask => 0int,
                    })
                },
            },
    {
        match side {
            Side::Bid => {
                let r = self.bids.find_max();
                match r {
                    None => None,
                    Some(h) => {
                        proof {
                            let lv = self.bids.leaves();
                            if h + 1 < lv.len() {
                                assert(lv[h as int].order_id < lv[lv.len() - 1].order_id);
                            }
                            assert(h as int == lv.len() - 1);
                        }
                        Some(h)
                    },
                }
            },
            Side::Ask => {
                let r = self.asks.find_min();
                match r {
                    None => None,
                    Some(h) => {
                        proof {
                            let lv = self.asks.leaves();
                            if 0 < h {
                                assert(lv[0].order_id < lv[h as int].order_id);
                            }
                            assert(h as int == 0);
                        }
                        Some(h)
                    },
                }
            },
        }
    }

    /// The slab holding the given side.
    pub fn get_tree(&self, side: Side) -> (r: &Slab)
        ensures
            *r == self.tree(side),
    {
        match side {
            Side::Bid => &self.bids,
            Side::Ask => &self.asks,
        }
    }

    /// Serializes both slab headers for the backing buffers, bids first.
    pub fn commit_changes(&self) -> (r: (Vec<u8>, Vec<u8>))
        ensures
            r.0@ == spec_serialize_slab_header(self.spec_bids().spec_header()),
            r.1@ == spec_serialize_slab_header(self.spec_asks().spec_header()),
    {
        (serialize_slab_header(&self.bids.get_header()), serialize_slab_header(
            &self.asks.get_header(),
        ))
    }

    /// Forwards `Slab::insert_leaf` to the slab of the given side.
    fn tree_insert(&mut self, side: Side, leaf: &LeafNode) -> (r: Result<usize, AoError>)
        requires
            old(self).wf(),
            leaf@.asset_quantity > 0,
            spec_price_of(leaf.order_id) > 0,
            leaf@.callback_info.len() == old(self).spec_cb_len(),
            !has_key(old(self).tree(side).leaves(), leaf.order_id),
        ensures
            final(self).wf(),
            final(self).spec_cb_len() == old(self).spec_cb_len(),
            final(self).tree(side.spec_opposite()) == old(self).tree(side.spec_opposite()),
            final(self).tree(side).spec_capacity() == old(self).tree(side).spec_capacity(),
            final(self).tree(side).spec_header() == (SlabHeader {
                leaf_count: final(self).tree(side).leaves().len() as u64,
                ..old(self).tree(side).spec_header()
            }),
            match r {
                Ok(h) => {
                    &&& old(self).tree(side).leaves().len() < old(self).tree(side).spec_capacity()
                    &&& h <= old(self).tree(side).leaves().len()
                    &&& final(self).tree(side).leaves() =~= old(self).tree(side).leaves().insert(
                        h as int,
                        leaf@,
                    )
                },
                Err(e) => {
                    &&& e == AoError::SlabOutOfSpace
                    &&& old(self).tree(side).leaves().len() == old(self).tree(side).spec_capacity()
                    &&& slab_eqv(final(self).tree(side), old(self).tree(side))
                },
            },
    {
        match side {
            Side::Bid => self.bids.insert_leaf(leaf),
            Side::Ask => self.asks.insert_leaf(leaf),
        }
    }

    /// Forwards `Slab::remove_by_key` to the slab of the given side.
    fn tree_remove_by_key(&mut self, side: Side, key: u128) -> (r: Option<LeafNode>)
        requires
            old(self).wf(),
        ensures
            final(self).wf(),
            final(self).spec_cb_len() == old(self).spec_cb_len(),
            final(self).tree(side.spec_opposite()) == old(self).tree(side.spec_opposite()),
            final(self).tree(side).spec_capacity() == old(self).tree(side).spec_capacity(),
            final(self).tree(side).spec_header() == (SlabHeader {
                leaf_count: final(self).tree(side).leaves().len() as u64,
                ..old(self).tree(side).spec_header()
            }),
            r is Some <==> has_key(old(self).tree(side).leaves(), key),
            match r {
                Some(l) => {
                    &&& l@ == old(self).tree(side).leaves()[key_index(
                        old(self).tree(side).leaves(),
                        key,
                    )]
                    &&& l@.order_id == key
                    &&& final(self).tree(side).leaves() =~= old(self).tree(side).leaves().remove(
                        key_index(old(self).tree(side).leaves(), key),
                    )
                },
                None => slab_eqv(final(self).tree(side), old(self).tree(side)),
            },
    {
        match side {
            Side::Bid => self.bids.remove_by_key(key),
            Side::Ask => self.asks.remove_by_key(key),
        }
    }

    /// Overwrites the quantity of the leaf at handle `h` on the given side.
    fn tree_set_qty(&mut self, side: Side, h: usize, asset_quantity: u64)
        requires
            old(self).wf(),
            h < old(self).tree(side).leaves().len(),
            asset_quantity > 0,
        ensures
            final(self).wf(),
            final(self).spec_cb_len() == old(self).spec_cb_len(),
            final(self).tree(side.spec_opposite()) == old(self).tree(side.spec_opposite()),
            final(self).tree(side).spec_capacity() == old(self).tree(side).spec_capacity(),
            final(self).tree(side).spec_header() == (SlabHeader {
                leaf_count: final(self).tree(side).leaves().len() as u64,
                ..old(self).tree(side).spec_header()
            }),
            final(self).tree(side).leaves() =~= old(self).tree(side).leaves().update(
                h as int,
                LeafView { asset_quantity, ..old(self).tree(side).leaves()[h as int] },
            ),
    {
        match side {
            Side::Bid => self.bids.set_leaf_quantity(h, asset_quantity),
            Side::Ask => self.asks.set_leaf_quantity(h, asset_quantity),
        }
    }

    /// Removes the least aggressive resting order of the given side: the
    /// lowest bid or the highest ask.
    fn tree_remove_worst(&mut self, side: Side) -> (r: Option<LeafNode>)
        requires
            old(self).wf(),
        ensures
            final(self).wf(),
            final(self).spec_cb_len() == old(self).spec_cb_len(),
            final(self).tree(side.spec_opposite()) == old(self).tree(side.spec_opposite()),
            final(self).tree(side).spec_capacity() == old(self).tree(side).spec_capacity(),
            final(self).tree(side).spec_header() == (SlabHeader {
                leaf_count: final(self).tree(side).leaves().len() as u64,
                ..old(self).tree(side).spec_header()
            }),
            match r {
                None => old(self).tree(side).leaves().len() == 0 && slab_eqv(
                    final(self).tree(side),
                    old(self).tree(side),
                ),
                Some(l) => {
                    &&& old(self).tree(side).leaves().len() > 0
                    &&& l@ == spec_worst(old(self).tree(side).leaves(), side)
                    &&& final(self).tree(side).leaves().len() == old(
                        self,
                    ).tree(side).leaves().len() - 1
                    &&& (forall|i: int|
                        0 <= i < final(self).tree(side).leaves().len()
                            ==> callback_from(
                            old(self).tree(side).leaves(),
                            #[trigger] final(self).tree(side).leaves()[i],
                        ))
                    &&& (forall|i: int|
                        0 <= i < final(self).tree(side).leaves().len() ==> has_key(
                            old(self).tree(side).leaves(),
                            (#[trigger] final(self).tree(side).leaves()[i]).order_id,
                        ))
                },
            },
    {
        let r = match side {
            Side::Bid => self.bids.remove_min(),
            Side::Ask => self.asks.remove_max(),
        };
        proof {
            if r is Some {
                let s0 = old(self).tree(side).leaves();
                let s1 = self.tree(side).leaves();
                assert(forall|i: int|
                    0 <= i < s1.len() ==> (#[trigger] s1[i]) == s0[
                        if side == Side::Bid { i + 1 } else { i }]);
                assert(forall|i: int|
                    0 <= i < s1.len() ==> callback_from(s0, #[trigger] s1[i]));
                assert(forall|i: int|
                    0 <= i < s1.len() ==> has_key(s0, (#[trigger] s1[i]).order_id));
            }
        }
        r
    }

    /// Crosses the incoming order against the best resting orders of the
    /// opposite side in price-time priority, emitting a `Fill` per match and
    /// an `Out` per self-trade cancellation, then rests any remainder that
    /// the crossed flag and `post_allowed` permit, evicting the least
    /// aggressive same-side order when the book is full.
    #[verifier::rlimit(100)]
    pub fn new_order(&mut self, params: Params, event_queue: &mut EventQueue) -> (r: Result<
        OrderSummary,
        AoError,
    >)
        requires
            old(self).wf(),
            old(event_queue).wf(),
            old(self).spec_cb_len() == old(event_queue).spec_cb_len(),
            params.callback_info@.len() == old(event_queue).spec_cb_len(),
            params.limit_price > 0,
            old(event_queue).spec_seq_num() < u64::MAX,
            fresh_order_ids(
                old(self).tree(Side::Bid).leaves(),
                Side::Bid,
                old(event_queue).spec_seq_num(),
            ),
            fresh_order_ids(
                old(self).tree(Side::Ask).leaves(),
                Side::Ask,
                old(event_queue).spec_seq_num(),
            ),
        ensures
            final(self).wf(),
            final(event_queue).wf(),
            final(self).spec_cb_len() == old(self).spec_cb_len(),
            final(self).tree(Side::Bid).spec_capacity() == old(self).tree(
                Side::Bid,
            ).spec_capacity(),
            final(self).tree(Side::Ask).spec_capacity() == old(self).tree(
                Side::Ask,
            ).spec_capacity(),
            final(event_queue).spec_capacity() == old(event_queue).spec_capacity(),
            final(event_queue).spec_cb_len() == old(event_queue).spec_cb_len(),
            final(event_queue).register_view() == old(event_queue).register_view(),
            // the queue is only appended to
            final(event_queue).events().len() >= old(event_queue).events().len(),
            final(event_queue).events().take(old(event_queue).events().len() as int) =~= old(
                event_queue,
            ).events(),
            // every emitted fill prices its quote size off the maker's id
            forall|i: int|
                old(event_queue).events().len() <= i < final(event_queue).events().len()
                    ==> fill_ok(#[trigger] final(event_queue).events()[i]),
            // ids stay fresh for later calls
            fresh_order_ids(
                final(self).tree(Side::Bid).leaves(),
                Side::Bid,
                final(event_queue).spec_seq_num(),
            ),
            fresh_order_ids(
                final(self).tree(Side::Ask).leaves(),
                Side::Ask,
                final(event_queue).spec_seq_num(),
            ),
            final(event_queue).spec_seq_num() >= old(event_queue).spec_seq_num(),
            // the only errors, and when they arise
            match r {
                Ok(_) => true,
                Err(e) => e == AoError::WouldSelfTrade || e == AoError::EventQueueFull,
            },
            r == Err::<OrderSummary, AoError>(AoError::WouldSelfTrade) ==> (
            params.self_trade_behavior == SelfTradeBehavior::AbortTransaction && has_callback(
                old(self).tree(params.side.spec_opposite()).leaves(),
                params.callback_info@,
            )),
            r == Err::<OrderSummary, AoError>(AoError::EventQueueFull) ==> final(event_queue).events().len() == final(event_queue).spec_capacity(),
            // success is owed when the queue cannot run out and no
            // aborting self-trade can occur
            ((params.self_trade_behavior != SelfTradeBehavior::AbortTransaction || !has_callback(
                old(self).tree(params.side.spec_opposite()).leaves(),
                params.callback_info@,
            )) && old(event_queue).events().len() + old(self).tree(
                params.side.spec_opposite(),
            ).leaves().len() + params.match_limit + 1 <= old(event_queue).spec_capacity()) ==> r
                is Ok,
            // totals never exceed the submitted budgets
            (match r {
                Ok(s) => s.total_asset_qty <= params.max_asset_qty && s.total_quote_qty
                    <= params.max_quote_qty,
                Err(_) => true,
            }),
            // what was traded plus what was posted accounts for the totals
            ({
                let app = final(event_queue).events().skip(old(event_queue).events().len() as int);
                match r {
                    Ok(s) => match s.posted_order_id {
                        Some(id) => {
                            &&& id == spec_order_id(
                                params.limit_price,
                                old(event_queue).spec_seq_num(),
                                params.side,
                            )
                            &&& final(event_queue).spec_seq_num() == old(
                                event_queue,
                            ).spec_seq_num() + 1
                            &&& has_key(final(self).tree(params.side).leaves(), id)
                            &&& {
                                let q = final(self).tree(params.side).leaves()[key_index(
                                    final(self).tree(params.side).leaves(),
                                    id,
                                )].asset_quantity;
                                &&& fill_asset_sum(app) + q == s.total_asset_qty
                                &&& s.total_quote_qty == fill_quote_sum(app) + vstd::math::min(
                                    spec_fp32_mul(q, params.limit_price) as int,
                                    params.max_quote_qty - fill_quote_sum(app),
                                )
                            }
                        },
                        None => {
                            &&& fill_asset_sum(app) == s.total_asset_qty
                            &&& fill_quote_sum(app) == s.total_quote_qty
                            &&& final(self).tree(params.side) == old(self).tree(params.side)
                            &&& final(event_queue).spec_seq_num() == old(
                                event_queue,
                            ).spec_seq_num()
                        },
                    },
                    Err(_) => true,
                }
            }),
            // a match-limit of zero does nothing at all
            params.match_limit == 0 ==> (r matches Ok(s) && s.posted_order_id is None
                && s.total_asset_qty == 0 && s.total_quote_qty == 0 && final(event_queue).events() =~= old(event_queue).events() && slab_eqv(
                final(self).tree(Side::Bid),
                old(self).tree(Side::Bid),
            ) && slab_eqv(final(self).tree(Side::Ask), old(self).tree(Side::Ask))),
            // a post-only order never takes
            params.post_only ==> (forall|i: int|
                old(event_queue).events().len() <= i < final(event_queue).events().len() ==> !((
                #[trigger] final(event_queue).events()[i]) is Fill)),
            // post-only against a crossing book: nothing happens
            (params.post_only && params.match_limit > 0 && old(self).tree(
                params.side.spec_opposite(),
            ).leaves().len() > 0 && crosses(
                params.side,
                params.limit_price,
                spec_price_of(
                    spec_best(
                        old(self).tree(params.side.spec_opposite()).leaves(),
                        params.side.spec_opposite(),
                    ).order_id,
                ),
            )) ==> (r matches Ok(s) && s.posted_order_id is None && s.total_asset_qty == 0
                && s.total_quote_qty == 0 && final(event_queue).events() =~= old(
                event_queue,
            ).events() && slab_eqv(
                final(self).tree(params.side.spec_opposite()),
                old(self).tree(params.side.spec_opposite()),
            )),
            // post-only with no crossing best: the full remainder posts
            (params.post_only && params.post_allowed && params.match_limit > 0 && (old(self).tree(
                params.side.spec_opposite(),
            ).leaves().len() == 0 || !crosses(
                params.side,
                params.limit_price,
                spec_price_of(
                    spec_best(
                        old(self).tree(params.side.spec_opposite()).leaves(),
                        params.side.spec_opposite(),
                    ).order_id,
                ),
            ))) ==> (r matches Ok(s) ==> (if spec_post_qty(
                params.side,
                params.max_asset_qty,
                params.max_quote_qty,
                params.limit_price,
            ) > 0 {
                s.posted_order_id is Some
            } else {
                s.posted_order_id is None
            })),
            // a quote budget below one base unit at the best price: no fills
            (opp_best_unaffordable(
                *old(self),
                params,
            )) ==> (forall|i: int|
                old(event_queue).events().len() <= i < final(event_queue).events().len() ==> !((
                #[trigger] final(event_queue).events()[i]) is Fill)),
            // without an eviction, only fills and opposite-side outs are
            // emitted; the eviction out, tagged with the taker's side, comes
            // last and names the evicted (least aggressive) resting order
            ({
                let ob = *old(self);
                let oq = *old(event_queue);
                let evicting = r matches Ok(s) && s.posted_order_id is Some && ob.tree(
                    params.side,
                ).leaves().len() == ob.tree(params.side).spec_capacity();
                if evicting {
                    &&& final(event_queue).events().len() > oq.events().len()
                    &&& final(event_queue).events().last() =~= (EventView::Out {
                        side: params.side,
                        order_id: spec_worst(ob.tree(params.side).leaves(), params.side).order_id,
                        asset_size: spec_worst(
                            ob.tree(params.side).leaves(),
                            params.side,
                        ).asset_quantity,
                        callback_info: spec_worst(
                            ob.tree(params.side).leaves(),
                            params.side,
                        ).callback_info,
                    })
                    &&& forall|i: int|
                        oq.events().len() <= i < final(event_queue).events().len() - 1
                            ==> matching_phase_event(
                            #[trigger] final(event_queue).events()[i],
                            params.side,
                        )
                } else {
                    forall|i: int|
                        oq.events().len() <= i < final(event_queue).events().len()
                            ==> matching_phase_event(
                            #[trigger] final(event_queue).events()[i],
                            params.side,
                        )
                }
            }),
            // the matching loop's work is exactly the price-time fold of
            // the opposite side against the incoming order
            ({
                let m = spec_match(
                    old(self).tree(params.side.spec_opposite()).leaves(),
                    params.side.spec_opposite(),
                    params.side,
                    params.limit_price,
                    params.callback_info@,
                    params.self_trade_behavior,
                    params.post_only,
                    params.match_limit,
                    params.max_asset_qty,
                    params.max_quote_qty,
                    true,
                );
                &&& (r == Err::<OrderSummary, AoError>(AoError::WouldSelfTrade) ==> m.aborted
                    && final(event_queue).events() =~= old(event_queue).events() + m.events
                    && final(self).tree(params.side.spec_opposite()).leaves() =~= m.opp_leaves
                    && final(self).tree(params.side) == old(self).tree(params.side))
                &&& ((m.aborted && old(event_queue).events().len() + old(self).tree(
                    params.side.spec_opposite(),
                ).leaves().len() + params.match_limit + 1 <= old(event_queue).spec_capacity())
                    ==> r == Err::<OrderSummary, AoError>(AoError::WouldSelfTrade))
                &&& (r matches Ok(s) ==> {
                    &&& !m.aborted
                    &&& final(self).tree(params.side.spec_opposite()).leaves() =~= m.opp_leaves
                    &&& (s.posted_order_id is Some <==> (!m.crossed && params.post_allowed
                        && spec_post_qty(
                        params.side,
                        m.asset_qty_remaining,
                        m.quote_qty_remaining,
                        params.limit_price,
                    ) > 0))
                    &&& (s.posted_order_id is None ==> final(event_queue).events() =~= old(
                        event_queue,
                    ).events() + m.events && s.total_asset_qty == params.max_asset_qty
                        - m.asset_qty_remaining && s.total_quote_qty == params.max_quote_qty
                        - m.quote_qty_remaining)
                    &&& (s.posted_order_id is Some ==> {
                        let q = spec_post_qty(
                            params.side,
                            m.asset_qty_remaining,
                            m.quote_qty_remaining,
                            params.limit_price,
                        );
                        &&& final(self).tree(params.side).leaves()[key_index(
                            final(self).tree(params.side).leaves(),
                            spec_order_id(
                                params.limit_price,
                                old(event_queue).spec_seq_num(),
                                params.side,
                            ),
                        )].asset_quantity == q
                        &&& s.total_asset_qty == params.max_asset_qty - m.asset_qty_remaining + q
                        &&& s.total_quote_qty == params.max_quote_qty - m.quote_qty_remaining
                            + vstd::math::min(
                            spec_fp32_mul(q, params.limit_price) as int,
                            m.quote_qty_remaining as int,
                        )
                        &&& (if old(self).tree(params.side).leaves().len() == old(self).tree(
                            params.side,
                        ).spec_capacity() {
                            final(event_queue).events() =~= old(event_queue).events() + m.events
                                + seq![
                                EventView::Out {
                                    side: params.side,
                                    order_id: spec_worst(
                                        old(self).tree(params.side).leaves(),
                                        params.side,
                                    ).order_id,
                                    asset_size: spec_worst(
                                        old(self).tree(params.side).leaves(),
                                        params.side,
                                    ).asset_quantity,
                                    callback_info: spec_worst(
                                        old(self).tree(params.side).leaves(),
                                        params.side,
                                    ).callback_info,
                                },
                            ]
                        } else {
                            final(event_queue).events() =~= old(event_queue).events() + m.events
                        })
                    })
                })
            }),
    {
        let Params {
            max_asset_qty,
            max_quote_qty,
            side,
            limit_price,
            callback_info,
            post_only,
            post_allowed,
            self_trade_behavior,
            mut match_limit,
        } = params;
        let opp_side = side.opposite();

        let ghost e0 = old(event_queue).events().len() as int;
        let ghost opp0 = old(self).tree(opp_side).leaves();
        let ghost cb = params.callback_info@;
        let ghost m0 = spec_match(
            opp0,
            opp_side,
            side,
            limit_price,
            cb,
            self_trade_behavior,
            post_only,
            params.match_limit,
            max_asset_qty,
            max_quote_qty,
            true,
        );

        let mut asset_qty_remaining = max_asset_qty;
        let mut quote_qty_remaining = max_quote_qty;
        let mut crossed = true;
        let mut done = false;
        let mut failure: Option<AoError> = None;

        #[verifier::rlimit(100)]
        while !done
            invariant
                side == params.side,
                opp_side == params.side.spec_opposite(),
                limit_price == params.limit_price,
                max_asset_qty == params.max_asset_qty,
                max_quote_qty == params.max_quote_qty,
                post_only == params.post_only,
                post_allowed == params.post_allowed,
                self_trade_behavior == params.self_trade_behavior,
                callback_info@ == cb,
                cb == params.callback_info@,
                e0 == old(event_queue).events().len(),
                opp0 == old(self).tree(opp_side).leaves(),
                old(self).wf(),
                old(event_queue).wf(),
                limit_price > 0,
                self.wf(),
                event_queue.wf(),
                self.spec_cb_len() == event_queue.spec_cb_len(),
                callback_info@.len() == event_queue.spec_cb_len(),
                self.tree(side) == old(self).tree(side),
                self.tree(opp_side).spec_capacity() == old(self).tree(opp_side).spec_capacity(),
                event_queue.spec_capacity() == old(event_queue).spec_capacity(),
                event_queue.spec_cb_len() == old(event_queue).spec_cb_len(),
                event_queue.spec_header().seq_num == old(event_queue).spec_seq_num(),
                event_queue.spec_header().head == old(event_queue).spec_header().head,
                event_queue.spec_header().account_tag == old(
                    event_queue,
                ).spec_header().account_tag,
                event_queue.register_view() == old(event_queue).register_view(),
                event_queue.events().len() >= e0,
                event_queue.events().take(e0) =~= old(event_queue).events(),
                event_queue.events().len() - e0 <= (opp0.len() - self.tree(
                    opp_side,
                ).leaves().len()) + (params.match_limit - match_limit),
                match_limit <= params.match_limit,
                self.tree(opp_side).leaves().len() <= opp0.len(),
                forall|i: int|
                    0 <= i < self.tree(opp_side).leaves().len() ==> callback_from(
                        opp0,
                        #[trigger] self.tree(opp_side).leaves()[i],
                    ),
                fresh_order_ids(
                    self.tree(opp_side).leaves(),
                    opp_side,
                    old(event_queue).spec_seq_num(),
                ),
                fresh_order_ids(
                    self.tree(side).leaves(),
                    side,
                    old(event_queue).spec_seq_num(),
                ),
                self.tree(opp_side).spec_header() == (SlabHeader {
                    leaf_count: self.tree(opp_side).leaves().len() as u64,
                    ..old(self).tree(opp_side).spec_header()
                }),
                m0 == spec_match(
                    opp0,
                    opp_side,
                    side,
                    limit_price,
                    cb,
                    self_trade_behavior,
                    post_only,
                    params.match_limit,
                    max_asset_qty,
                    max_quote_qty,
                    true,
                ),
                ({
                    let cur = spec_match(
                        self.tree(opp_side).leaves(),
                        opp_side,
                        side,
                        limit_price,
                        cb,
                        self_trade_behavior,
                        post_only,
                        match_limit,
                        asset_qty_remaining,
                        quote_qty_remaining,
                        crossed,
                    );
                    &&& m0.events =~= event_queue.events().skip(e0) + cur.events
                    &&& m0.opp_leaves =~= cur.opp_leaves
                    &&& m0.asset_qty_remaining == cur.asset_qty_remaining
                    &&& m0.quote_qty_remaining == cur.quote_qty_remaining
                    &&& m0.crossed == cur.crossed
                    &&& m0.aborted == cur.aborted
                    &&& (done && failure is None ==> cur.events
                        =~= Seq::<EventView>::empty() && cur.opp_leaves =~= self.tree(
                        opp_side,
                    ).leaves() && cur.asset_qty_remaining == asset_qty_remaining
                        && cur.quote_qty_remaining == quote_qty_remaining && cur.crossed
                        == crossed && !cur.aborted)
                }),
                failure is Some ==> done,
                params.match_limit == 0 ==> failure is None,
                post_only ==> failure is None,
                failure == Some(AoError::WouldSelfTrade) ==> (params.self_trade_behavior
                    == SelfTradeBehavior::AbortTransaction && has_callback(opp0, cb) && m0.aborted
                    && m0.events =~= event_queue.events().skip(e0) && m0.opp_leaves =~= self.tree(
                    opp_side,
                ).leaves()),
                failure == Some(AoError::EventQueueFull) ==> event_queue.events().len()
                    == event_queue.spec_capacity(),
                failure is Some ==> (failure == Some(AoError::WouldSelfTrade) || failure == Some(
                    AoError::EventQueueFull,
                )),
            decreases (if done {
                0int
            } else {
                1int
            }), match_limit + self.tree(opp_side).leaves().len(),
        {
            let ghost ml_pre = match_limit;
            let ghost ar_pre = asset_qty_remaining;
            let ghost qr_pre = quote_qty_remaining;
            let ghost crossed_pre = crossed;
            let ghost leaves_it = self.tree(opp_side).leaves();
            let ghost emitted_it = event_queue.events().skip(e0);
            let ghost cur_pre = spec_match(
                leaves_it,
                opp_side,
                side,
                limit_price,
                cb,
                self_trade_behavior,
                post_only,
                ml_pre,
                ar_pre,
                qr_pre,
                crossed_pre,
            );
            if match_limit == 0 {
                done = true;
                proof {
                    assert(cur_pre.events =~= Seq::<EventView>::empty()
                        && cur_pre.opp_leaves =~= leaves_it && cur_pre.asset_qty_remaining
                        == ar_pre && cur_pre.quote_qty_remaining == qr_pre && cur_pre.crossed
                        == crossed_pre && !cur_pre.aborted) by {
                        reveal_with_fuel(spec_match, 1);
                    }
                }
            } else {
                match self.find_bbo(opp_side) {
                    None => {
                        crossed = false;
                        done = true;
                        proof {
                            let cur_new = spec_match(
                                leaves_it,
                                opp_side,
                                side,
                                limit_price,
                                cb,
                                self_trade_behavior,
                                post_only,
                                ml_pre,
                                ar_pre,
                                qr_pre,
                                false,
                            );
                            assert(cur_pre.events =~= Seq::<EventView>::empty()
                                && cur_new.events =~= Seq::<EventView>::empty()
                                && cur_new.opp_leaves =~= leaves_it
                                && cur_new.asset_qty_remaining == ar_pre
                                && cur_new.quote_qty_remaining == qr_pre && !cur_new.crossed
                                && !cur_pre.crossed && !cur_new.aborted && !cur_pre.aborted
                                && cur_pre.opp_leaves =~= leaves_it
                                && cur_pre.asset_qty_remaining == ar_pre
                                && cur_pre.quote_qty_remaining == qr_pre) by {
                                reveal_with_fuel(spec_match, 1);
                            }
                        }
                    },
                    Some(h) => {
                        let best = self.get_tree(opp_side).get_leaf(h);
                        let trade_price = best.price();
                        crossed = match side {
                            Side::Bid => limit_price >= trade_price,
                            Side::Ask => limit_price <= trade_price,
                        };
                        if post_only {
                            done = true;
                            proof {
                                assert(best@ == spec_best(leaves_it, opp_side));
                                let cur_new = spec_match(
                                    leaves_it,
                                    opp_side,
                                    side,
                                    limit_price,
                                    cb,
                                    self_trade_behavior,
                                    post_only,
                                    ml_pre,
                                    ar_pre,
                                    qr_pre,
                                    crossed,
                                );
                                assert(cur_pre.events =~= Seq::<EventView>::empty()
                                    && cur_new.events =~= Seq::<EventView>::empty()
                                    && cur_new.crossed == crossed && cur_pre.crossed == crossed
                                    && cur_new.opp_leaves =~= leaves_it && cur_pre.opp_leaves
                                    =~= leaves_it && cur_new.asset_qty_remaining == ar_pre
                                    && cur_pre.asset_qty_remaining == ar_pre
                                    && cur_new.quote_qty_remaining == qr_pre
                                    && cur_pre.quote_qty_remaining == qr_pre
                                    && !cur_new.aborted && !cur_pre.aborted) by {
                                    reveal_with_fuel(spec_match, 1);
                                }
                            }
                        } else {
                            let offer_size = best.asset_quantity;
                            let max_by_quote = fp32_div(quote_qty_remaining, trade_price);
                            let mut asset_trade_qty = offer_size;
                            if asset_qty_remaining < asset_trade_qty {
                                asset_trade_qty = asset_qty_remaining;
                            }
                            if max_by_quote < asset_trade_qty {
                                asset_trade_qty = max_by_quote;
                            }
                            if asset_trade_qty == 0 {
                                done = true;
                                proof {
                                    assert(best@ == spec_best(leaves_it, opp_side));
                                    assert(asset_trade_qty == spec_trade_qty(
                                        best@,
                                        ar_pre,
                                        qr_pre,
                                    ));
                                    let cur_new = spec_match(
                                        leaves_it,
                                        opp_side,
                                        side,
                                        limit_price,
                                        cb,
                                        self_trade_behavior,
                                        post_only,
                                        ml_pre,
                                        ar_pre,
                                        qr_pre,
                                        crossed,
                                    );
                                    assert(cur_pre.events =~= Seq::<EventView>::empty()
                                        && cur_new.events =~= Seq::<EventView>::empty()
                                        && cur_new.crossed == crossed && cur_pre.crossed
                                        == crossed && cur_new.opp_leaves =~= leaves_it
                                        && cur_pre.opp_leaves =~= leaves_it
                                        && cur_new.asset_qty_remaining == ar_pre
                                        && cur_pre.asset_qty_remaining == ar_pre
                                        && cur_new.quote_qty_remaining == qr_pre
                                        && cur_pre.quote_qty_remaining == qr_pre
                                        && !cur_new.aborted && !cur_pre.aborted) by {
                                        reveal_with_fuel(spec_match, 1);
                                    }
                                }
                            } else {
                                let mut order_would_self_trade = false;
                                if !(self_trade_behavior == SelfTradeBehavior::DecrementTake) {
                                    order_would_self_trade = bytes_eq(
                                        &callback_info,
                                        &best.callback_info,
                                    );
                                }
                                if order_would_self_trade && self_trade_behavior
                                    == SelfTradeBehavior::AbortTransaction {
                                    proof {
                                        assert(callback_from(
                                            opp0,
                                            self.tree(opp_side).leaves()[h as int],
                                        ));
                                        assert(has_callback(opp0, cb));
                                        assert(best@ == spec_best(leaves_it, opp_side));
                                        assert(asset_trade_qty == spec_trade_qty(
                                            best@,
                                            ar_pre,
                                            qr_pre,
                                        ));
                                        assert(best@.callback_info == cb);
                                        assert(cur_pre.aborted && cur_pre.events
                                            =~= Seq::<EventView>::empty() && cur_pre.opp_leaves
                                            =~= leaves_it) by {
                                            reveal_with_fuel(spec_match, 1);
                                        }
                                        assert(m0.aborted);
                                        assert(m0.events =~= event_queue.events().skip(e0));
                                        assert(m0.opp_leaves =~= self.tree(opp_side).leaves());
                                    }
                                    failure = Some(AoError::WouldSelfTrade);
                                    done = true;
                                    proof {
                                        let cur_end = spec_match(
                                            leaves_it,
                                            opp_side,
                                            side,
                                            limit_price,
                                            cb,
                                            self_trade_behavior,
                                            post_only,
                                            ml_pre,
                                            ar_pre,
                                            qr_pre,
                                            crossed,
                                        );
                                        assert(cur_end.events =~= cur_pre.events && cur_end.opp_leaves
                                            =~= cur_pre.opp_leaves && cur_end.asset_qty_remaining
                                            == cur_pre.asset_qty_remaining && cur_end.quote_qty_remaining
                                            == cur_pre.quote_qty_remaining && cur_end.crossed == cur_pre.crossed
                                            && cur_end.aborted == cur_pre.aborted) by {
                                            reveal_with_fuel(spec_match, 1);
                                        }
                                    }
                                } else if order_would_self_trade {
                                    // CancelProvide: cancel the resting
                                    // order and keep matching, spending no
                                    // taker budget and no match-limit step
                                    let ghost pre_events = event_queue.events();
                                    let out = Event::Out {
                                        side: opp_side,
                                        order_id: best.order_id,
                                        asset_size: best.asset_quantity,
                                        callback_info: clone_bytes(&best.callback_info),
                                    };
                                    let ghost ov = out@;
                                    match event_queue.push_back(out) {
                                        Err(_) => {
                                            failure = Some(AoError::EventQueueFull);
                                            done = true;
                                            proof {
                                                let cur_end = spec_match(
                                                    leaves_it,
                                                    opp_side,
                                                    side,
                                                    limit_price,
                                                    cb,
                                                    self_trade_behavior,
                                                    post_only,
                                                    ml_pre,
                                                    ar_pre,
                                                    qr_pre,
                                                    crossed,
                                                );
                                                assert(cur_end.events =~= cur_pre.events && cur_end.opp_leaves
                                                    =~= cur_pre.opp_leaves && cur_end.asset_qty_remaining
                                                    == cur_pre.asset_qty_remaining && cur_end.quote_qty_remaining
                                                    == cur_pre.quote_qty_remaining && cur_end.crossed == cur_pre.crossed
                                                    && cur_end.aborted == cur_pre.aborted) by {
                                                    reveal_with_fuel(spec_match, 1);
                                                }
                                            }
                                        },
                                        Ok(_) => {
                                        proof {
                                            lemma_skip_push(pre_events, ov, e0);
                                        }
                                        let ghost pre_leaves = self.tree(opp_side).leaves();
                                        assert(pre_leaves[h as int].order_id == best.order_id);
                                        let removed = self.tree_remove_by_key(
                                            opp_side,
                                            best.order_id,
                                        );
                                        proof {
                                            assert(removed is Some);
                                            let k = key_index(pre_leaves, best@.order_id);
                                            let post_leaves = self.tree(opp_side).leaves();
                                            assert(forall|i: int|
                                                0 <= i < post_leaves.len() ==> (
                                                #[trigger] post_leaves[i]) == pre_leaves[
                                                    if i < k {
                                                        i
                                                    } else {
                                                        i + 1
                                                    }]);
                                            if k != h as int {
                                                if k < h as int {
                                                    assert(pre_leaves[k].order_id < pre_leaves[
                                                        h as int].order_id);
                                                } else {
                                                    assert(pre_leaves[h as int].order_id
                                                        < pre_leaves[k].order_id);
                                                }
                                            }
                                            assert(k == h as int);
                                            assert(best@ == spec_best(leaves_it, opp_side));
                                            assert(asset_trade_qty == spec_trade_qty(
                                                best@,
                                                ar_pre,
                                                qr_pre,
                                            ));
                                            assert(best@.callback_info == cb);
                                            assert(post_leaves =~= spec_best_removed(
                                                leaves_it,
                                                opp_side,
                                            ));
                                            assert(ov =~= (EventView::Out {
                                                side: opp_side,
                                                order_id: best@.order_id,
                                                asset_size: best@.asset_quantity,
                                                callback_info: best@.callback_info,
                                            }));
                                            let cur_new = spec_match(
                                                post_leaves,
                                                opp_side,
                                                side,
                                                limit_price,
                                                cb,
                                                self_trade_behavior,
                                                post_only,
                                                ml_pre,
                                                ar_pre,
                                                qr_pre,
                                                crossed,
                                            );
                                            assert(cur_pre.events =~= seq![ov] + cur_new.events
                                                && cur_pre.opp_leaves =~= cur_new.opp_leaves
                                                && cur_pre.asset_qty_remaining
                                                == cur_new.asset_qty_remaining
                                                && cur_pre.quote_qty_remaining
                                                == cur_new.quote_qty_remaining && cur_pre.crossed
                                                == cur_new.crossed && cur_pre.aborted
                                                == cur_new.aborted) by {
                                                reveal_with_fuel(spec_match, 1);
                                            }
                                            assert(event_queue.events().skip(e0) =~= emitted_it.push(
                                                ov,
                                            ));
                                            assert(emitted_it.push(ov) + cur_new.events
                                                =~= emitted_it + (seq![ov] + cur_new.events));
                                            assert(m0.events =~= event_queue.events().skip(e0)
                                                + cur_new.events);
                                        }
                                        },
                                    }
                                } else {
                                    let quote_maker_qty = fp32_mul(asset_trade_qty, trade_price);
                                    proof {
                                        lemma_fp32_mul_of_div_le(
                                            asset_trade_qty,
                                            quote_qty_remaining,
                                            trade_price,
                                        );
                                    }
                                    let ghost pre_events = event_queue.events();
                                    let maker_fill = Event::Fill {
                                        taker_side: side,
                                        maker_order_id: best.order_id,
                                        quote_size: quote_maker_qty,
                                        asset_size: asset_trade_qty,
                                        maker_callback_info: clone_bytes(&best.callback_info),
                                        taker_callback_info: clone_bytes(&callback_info),
                                    };
                                    let ghost fv = maker_fill@;
                                    match event_queue.push_back(maker_fill) {
                                        Err(_) => {
                                            failure = Some(AoError::EventQueueFull);
                                            done = true;
                                            proof {
                                                let cur_end = spec_match(
                                                    leaves_it,
                                                    opp_side,
                                                    side,
                                                    limit_price,
                                                    cb,
                                                    self_trade_behavior,
                                                    post_only,
                                                    ml_pre,
                                                    ar_pre,
                                                    qr_pre,
                                                    crossed,
                                                );
                                                assert(cur_end.events =~= cur_pre.events && cur_end.opp_leaves
                                                    =~= cur_pre.opp_leaves && cur_end.asset_qty_remaining
                                                    == cur_pre.asset_qty_remaining && cur_end.quote_qty_remaining
                                                    == cur_pre.quote_qty_remaining && cur_end.crossed == cur_pre.crossed
                                                    && cur_end.aborted == cur_pre.aborted) by {
                                                    reveal_with_fuel(spec_match, 1);
                                                }
                                            }
                                        },
                                        Ok(_) => {
                                        proof {
                                            lemma_skip_push(pre_events, fv, e0);
                                        }
                                        let remaining_qty = best.asset_quantity - asset_trade_qty;
                                        if remaining_qty == 0 {
                                            let ghost pre_leaves = self.tree(opp_side).leaves();
                                            assert(pre_leaves[h as int].order_id == best.order_id);
                                            let removed = self.tree_remove_by_key(
                                                opp_side,
                                                best.order_id,
                                            );
                                            proof {
                                                assert(removed is Some);
                                                let k = key_index(pre_leaves, best@.order_id);
                                                let post_leaves = self.tree(opp_side).leaves();
                                                assert(forall|i: int|
                                                    0 <= i < post_leaves.len() ==> (
                                                    #[trigger] post_leaves[i]) == pre_leaves[
                                                        if i < k {
                                                            i
                                                        } else {
                                                            i + 1
                                                        }]);
                                                if k != h as int {
                                                    if k < h as int {
                                                        assert(pre_leaves[k].order_id < pre_leaves[
                                                            h as int].order_id);
                                                    } else {
                                                        assert(pre_leaves[h as int].order_id
                                                            < pre_leaves[k].order_id);
                                                    }
                                                }
                                                assert(k == h as int);
                                                assert(post_leaves =~= spec_best_removed(
                                                    leaves_it,
                                                    opp_side,
                                                ));
                                            }
                                        } else {
                                            let ghost pre_leaves = self.tree(opp_side).leaves();
                                            self.tree_set_qty(opp_side, h, remaining_qty);
                                            proof {
                                                let post_leaves = self.tree(opp_side).leaves();
                                                assert(forall|i: int|
                                                    0 <= i < post_leaves.len() && i != h ==> (
                                                    #[trigger] post_leaves[i]) == pre_leaves[i]);
                                                assert(post_leaves[h as int].order_id
                                                    == pre_leaves[h as int].order_id
                                                    && post_leaves[h as int].callback_info
                                                    == pre_leaves[h as int].callback_info);
                                                assert(post_leaves =~= spec_best_updated(
                                                    leaves_it,
                                                    opp_side,
                                                    remaining_qty,
                                                ));
                                            }
                                        }
                                        asset_qty_remaining = asset_qty_remaining - asset_trade_qty;
                                        quote_qty_remaining = quote_qty_remaining - quote_maker_qty;
                                        match_limit = match_limit - 1;
                                        proof {
                                            let leaves_new = self.tree(opp_side).leaves();
                                            assert(best@ == spec_best(leaves_it, opp_side));
                                            assert(trade_price == spec_price_of(best@.order_id));
                                            assert(asset_trade_qty == spec_trade_qty(
                                                best@,
                                                ar_pre,
                                                qr_pre,
                                            ));
                                            if self_trade_behavior
                                                != SelfTradeBehavior::DecrementTake {
                                                if best@.callback_info == cb {
                                                    assert(callback_info@ =~= best@.callback_info);
                                                }
                                            }
                                            assert(!(self_trade_behavior
                                                != SelfTradeBehavior::DecrementTake
                                                && best@.callback_info == cb));
                                            assert(quote_maker_qty == spec_fp32_mul(
                                                asset_trade_qty,
                                                spec_price_of(best@.order_id),
                                            ));
                                            assert(leaves_new =~= (if best@.asset_quantity
                                                == asset_trade_qty {
                                                spec_best_removed(leaves_it, opp_side)
                                            } else {
                                                spec_best_updated(
                                                    leaves_it,
                                                    opp_side,
                                                    (best@.asset_quantity - asset_trade_qty) as u64,
                                                )
                                            }));
                                            let cur_new = spec_match(
                                                leaves_new,
                                                opp_side,
                                                side,
                                                limit_price,
                                                cb,
                                                self_trade_behavior,
                                                post_only,
                                                match_limit,
                                                asset_qty_remaining,
                                                quote_qty_remaining,
                                                crossed,
                                            );
                                            assert(fv =~= (EventView::Fill {
                                                taker_side: side,
                                                maker_order_id: best@.order_id,
                                                quote_size: quote_maker_qty,
                                                asset_size: asset_trade_qty,
                                                maker_callback_info: best@.callback_info,
                                                taker_callback_info: cb,
                                            }));
                                            assert(match_limit == (ml_pre - 1) as u64
                                                && asset_qty_remaining == (ar_pre
                                                - asset_trade_qty) as u64 && quote_qty_remaining == (
                                            qr_pre - quote_maker_qty) as u64);
                                            assert(cur_pre.events =~= seq![fv] + cur_new.events
                                                && cur_pre.opp_leaves =~= cur_new.opp_leaves
                                                && cur_pre.asset_qty_remaining
                                                == cur_new.asset_qty_remaining
                                                && cur_pre.quote_qty_remaining
                                                == cur_new.quote_qty_remaining && cur_pre.crossed
                                                == cur_new.crossed && cur_pre.aborted
                                                == cur_new.aborted) by {
                                                reveal_with_fuel(spec_match, 1);
                                            }
                                            assert(event_queue.events().skip(e0) =~= emitted_it.push(
                                                fv,
                                            ));
                                            assert(emitted_it.push(fv) + cur_new.events
                                                =~= emitted_it + (seq![fv] + cur_new.events));
                                            assert(m0.events =~= event_queue.events().skip(e0)
                                                + cur_new.events);
                                        }
                                        },
                                    }
                                }
                            }
                        }
                    },
                }
            }
        }
        proof {
            lemma_match_properties(
                opp0,
                opp_side,
                side,
                limit_price,
                cb,
                self_trade_behavior,
                post_only,
                params.match_limit,
                max_asset_qty,
                max_quote_qty,
                true,
            );
            assert(forall|i: int|
                e0 <= i < event_queue.events().len() ==> #[trigger] event_queue.events()[i]
                    == m0.events[i - e0]);
            assert(forall|i: int|
                e0 <= i < event_queue.events().len() ==> fill_ok(
                    #[trigger] event_queue.events()[i],
                ));
            assert(forall|i: int|
                e0 <= i < event_queue.events().len() ==> matching_phase_event(
                    #[trigger] event_queue.events()[i],
                    side,
                ));
            if params.match_limit == 0 {
                assert(m0.events =~= Seq::<EventView>::empty() && m0.opp_leaves =~= opp0
                    && m0.asset_qty_remaining == max_asset_qty && m0.quote_qty_remaining
                    == max_quote_qty && m0.crossed) by {
                    reveal_with_fuel(spec_match, 1);
                }
            }
            if post_only {
                assert(m0.events =~= Seq::<EventView>::empty() && m0.opp_leaves =~= opp0
                    && m0.asset_qty_remaining == max_asset_qty && m0.quote_qty_remaining
                    == max_quote_qty && m0.crossed == crossed_after_peek(
                    params.match_limit,
                    opp0,
                    opp_side,
                    side,
                    limit_price,
                ) && !m0.aborted) by {
                    reveal_with_fuel(spec_match, 1);
                }
            }
            if !post_only && opp0.len() > 0 && spec_fp32_div(
                max_quote_qty,
                spec_price_of(spec_best(opp0, opp_side).order_id),
            ) == 0 {
                assert(m0.events =~= Seq::<EventView>::empty()) by {
                    reveal_with_fuel(spec_match, 1);
                }
            }
        }
        match failure {
            Some(e) => {
                proof {
                    assert(event_queue.events() =~= old(event_queue).events()
                        + event_queue.events().skip(e0));
                }
                return Err(e);
            },
            None => {},
        }
        proof {
            assert(m0.events =~= event_queue.events().skip(e0));
            assert(event_queue.events() =~= old(event_queue).events() + event_queue.events().skip(
                e0,
            ));
            assert(fill_asset_sum(event_queue.events().skip(e0)) == max_asset_qty
                - asset_qty_remaining);
            assert(fill_quote_sum(event_queue.events().skip(e0)) == max_quote_qty
                - quote_qty_remaining);
            assert(asset_qty_remaining <= max_asset_qty);
            assert(quote_qty_remaining <= max_quote_qty);
        }
        let mut asset_qty_to_post: u64 = 0;
        if !crossed && post_allowed {
            asset_qty_to_post = match side {
                Side::Bid => {
                    let cap_by_quote = fp32_div(quote_qty_remaining, limit_price);
                    if cap_by_quote < asset_qty_remaining {
                        cap_by_quote
                    } else {
                        asset_qty_remaining
                    }
                },
                Side::Ask => asset_qty_remaining,
            };
            proof {
                assert(asset_qty_to_post == spec_post_qty(
                    side,
                    asset_qty_remaining,
                    quote_qty_remaining,
                    limit_price,
                ));
            }
        }
        if asset_qty_to_post == 0 {
            return Ok(
                OrderSummary {
                    posted_order_id: None,
                    total_asset_qty: max_asset_qty - asset_qty_remaining,
                    total_quote_qty: max_quote_qty - quote_qty_remaining,
                },
            );
        }
        let ghost mid_events = event_queue.events();
        let ghost mid_taker = self.tree(side).leaves();
        let ghost was_full = mid_taker.len() == self.tree(side).spec_capacity();
        let new_leaf_order_id = match self.post_order(
            event_queue,
            side,
            limit_price,
            callback_info,
            asset_qty_to_post,
        ) {
            Err(e) => {
                return Err(e);
            },
            Ok(id) => id,
        };
        proof {
            let ov = EventView::Out {
                side,
                order_id: spec_worst(mid_taker, side).order_id,
                asset_size: spec_worst(mid_taker, side).asset_quantity,
                callback_info: spec_worst(mid_taker, side).callback_info,
            };
            if was_full {
                assert(event_queue.events() =~= mid_events.push(ov));
                lemma_skip_push(mid_events, ov, e0);
                lemma_fill_sums_push(mid_events.skip(e0), ov);
                assert(event_queue.events().take(e0) =~= mid_events.take(e0));
                assert(event_queue.events() =~= old(event_queue).events() + m0.events + seq![ov]);
            } else {
                assert(event_queue.events() =~= mid_events);
                assert(event_queue.events().take(e0) =~= mid_events.take(e0));
                assert(event_queue.events().skip(e0) =~= mid_events.skip(e0));
                assert(event_queue.events() =~= old(event_queue).events() + m0.events);
            }
        }
        asset_qty_remaining = asset_qty_remaining - asset_qty_to_post;
        let post_quote = fp32_mul(asset_qty_to_post, limit_price);
        proof {
            if side == Side::Bid {
                lemma_fp32_mul_of_div_le(asset_qty_to_post, quote_qty_remaining, limit_price);
            }
        }
        let quote_paid = if post_quote > quote_qty_remaining {
            quote_qty_remaining
        } else {
            post_quote
        };
        quote_qty_remaining = quote_qty_remaining - quote_paid;
        Ok(
            OrderSummary {
                posted_order_id: Some(new_leaf_order_id),
                total_asset_qty: max_asset_qty - asset_qty_remaining,
                total_quote_qty: max_quote_qty - quote_qty_remaining,
            },
        )
    }

    /// Rests the remainder of an order: generates its id, splices the new
    /// leaf into the taker-side slab, and when that slab is full first
    /// evicts its least aggressive resting order and reports it out, tagged
    /// with the inserting side.
    #[verifier::rlimit(100)]
    fn post_order(
        &mut self,
        event_queue: &mut EventQueue,
        side: Side,
        limit_price: u64,
        callback_info: Vec<u8>,
        asset_qty_to_post: u64,
    ) -> (r: Result<u128, AoError>)
        requires
            old(self).wf(),
            old(event_queue).wf(),
            old(self).spec_cb_len() == old(event_queue).spec_cb_len(),
            callback_info@.len() == old(event_queue).spec_cb_len(),
            limit_price > 0,
            old(event_queue).spec_seq_num() < u64::MAX,
            asset_qty_to_post > 0,
            fresh_order_ids(
                old(self).tree(side).leaves(),
                side,
                old(event_queue).spec_seq_num(),
            ),
            fresh_order_ids(
                old(self).tree(side.spec_opposite()).leaves(),
                side.spec_opposite(),
                old(event_queue).spec_seq_num(),
            ),
        ensures
            final(self).wf(),
            final(event_queue).wf(),
            final(self).spec_cb_len() == old(self).spec_cb_len(),
            final(self).tree(side.spec_opposite()) == old(self).tree(side.spec_opposite()),
            final(self).tree(side).spec_capacity() == old(self).tree(side).spec_capacity(),
            final(event_queue).spec_capacity() == old(event_queue).spec_capacity(),
            final(event_queue).spec_cb_len() == old(event_queue).spec_cb_len(),
            final(event_queue).register_view() == old(event_queue).register_view(),
            final(event_queue).spec_header().head == old(event_queue).spec_header().head,
            final(event_queue).spec_header().account_tag == old(
                event_queue,
            ).spec_header().account_tag,
            final(event_queue).spec_seq_num() == old(event_queue).spec_seq_num() + 1,
            fresh_order_ids(
                final(self).tree(side).leaves(),
                side,
                final(event_queue).spec_seq_num(),
            ),
            fresh_order_ids(
                final(self).tree(side.spec_opposite()).leaves(),
                side.spec_opposite(),
                final(event_queue).spec_seq_num(),
            ),
            match r {
                Ok(id) => {
                    &&& id == spec_order_id(limit_price, old(event_queue).spec_seq_num(), side)
                    &&& has_key(final(self).tree(side).leaves(), id)
                    &&& final(self).tree(side).leaves()[key_index(
                        final(self).tree(side).leaves(),
                        id,
                    )].asset_quantity == asset_qty_to_post
                    &&& if old(self).tree(side).leaves().len() == old(self).tree(
                        side,
                    ).spec_capacity() {
                        final(event_queue).events() =~= old(event_queue).events().push(
                            EventView::Out {
                                side,
                                order_id: spec_worst(
                                    old(self).tree(side).leaves(),
                                    side,
                                ).order_id,
                                asset_size: spec_worst(
                                    old(self).tree(side).leaves(),
                                    side,
                                ).asset_quantity,
                                callback_info: spec_worst(
                                    old(self).tree(side).leaves(),
                                    side,
                                ).callback_info,
                            },
                        )
                    } else {
                        final(event_queue).events() =~= old(event_queue).events()
                    }
                },
                Err(e) => {
                    &&& e == AoError::EventQueueFull
                    &&& final(event_queue).events() =~= old(event_queue).events()
                    &&& final(event_queue).events().len() == final(event_queue).spec_capacity()
                    &&& old(self).tree(side).leaves().len() == old(self).tree(
                        side,
                    ).spec_capacity()
                },
            },
    {
        let new_leaf_order_id = event_queue.gen_order_id(limit_price, side);
        proof {
            lemma_order_id_parts(limit_price, old(event_queue).spec_seq_num(), side);
            assert(!has_key(self.tree(side).leaves(), new_leaf_order_id)) by {
                if has_key(self.tree(side).leaves(), new_leaf_order_id) {
                    let i = choose|i: int|
                        0 <= i < self.tree(side).leaves().len() && (#[trigger] self.tree(
                            side,
                        ).leaves()[i]).order_id == new_leaf_order_id;
                    assert(spec_key_seq(self.tree(side).leaves()[i].order_id, side) < old(
                        event_queue,
                    ).spec_seq_num());
                }
            }
        }
        let new_leaf = LeafNode::new(new_leaf_order_id, callback_info, asset_qty_to_post);
        let ghost taker0 = old(self).tree(side).leaves();
        let insert_result = self.tree_insert(side, &new_leaf);
        match insert_result {
            Err(_) => {
                // the book is full: evict the least aggressive same-side
                // order, report it out, and retry; eviction frees a slot
                let evicted = match self.tree_remove_worst(side) {
                    Some(l) => l,
                    None => {
                        proof {
                            assert(false);
                        }
                        return Err(AoError::SlabOutOfSpace);
                    },
                };
                let ghost pre_events = event_queue.events();
                let out = Event::Out {
                    side,
                    order_id: evicted.order_id,
                    asset_size: evicted.asset_quantity,
                    callback_info: evicted.callback_info,
                };
                let ghost ov = out@;
                match event_queue.push_back(out) {
                    Err(_) => {
                        return Err(AoError::EventQueueFull);
                    },
                    Ok(_) => {},
                }
                proof {
                    assert(!has_key(self.tree(side).leaves(), new_leaf_order_id)) by {
                        if has_key(self.tree(side).leaves(), new_leaf_order_id) {
                            let i = choose|i: int|
                                0 <= i < self.tree(side).leaves().len() && (#[trigger] self.tree(
                                    side,
                                ).leaves()[i]).order_id == new_leaf_order_id;
                            assert(has_key(taker0, new_leaf_order_id));
                            let j = choose|j: int|
                                0 <= j < taker0.len() && (#[trigger] taker0[j]).order_id
                                    == new_leaf_order_id;
                            assert(spec_key_seq(taker0[j].order_id, side) < old(
                                event_queue,
                            ).spec_seq_num());
                        }
                    }
                }
                match self.tree_insert(side, &new_leaf) {
                    Err(_) => {
                        proof {
                            assert(false);
                        }
                        return Err(AoError::SlabOutOfSpace);
                    },
                    Ok(ph) => {
                        proof {
                            assert(self.tree(side).leaves()[ph as int] =~= new_leaf@);
                            assert(has_key(self.tree(side).leaves(), new_leaf_order_id));
                        }
                    },
                }
            },
            Ok(ph) => {
                proof {
                    assert(self.tree(side).leaves()[ph as int] =~= new_leaf@);
                    assert(has_key(self.tree(side).leaves(), new_leaf_order_id));
                }
            },
        }
        proof {
            let fl = self.tree(side).leaves();
            assert(has_key(fl, new_leaf_order_id));
            let k = key_index(fl, new_leaf_order_id);
            assert(0 <= k < fl.len() && fl[k].order_id == new_leaf_order_id);
            assert(fl[k].asset_quantity == asset_qty_to_post && fl[k].callback_info == callback_info@) by {
                assert(forall|j: int|
                    0 <= j < fl.len() && (#[trigger] fl[j]).order_id == new_leaf_order_id ==> fl[j]
                        =~= new_leaf@);
            }
        }
        Ok(new_leaf_order_id)
    }
}

/// The quote budget cannot afford one base unit at the best opposite price:
/// the book is non-empty and the fp32 quotient of the budget by that price
/// is zero.
pub open spec fn opp_best_unaffordable(ob: OrderBookState, params: Params) -> bool {
    &&& !params.post_only
    &&& ob.tree(params.side.spec_opposite()).leaves().len() > 0
    &&& spec_fp32_div(
        params.max_quote_qty,
        spec_price_of(
            spec_best(
                ob.tree(params.side.spec_opposite()).leaves(),
                params.side.spec_opposite(),
            ).order_id,
        ),
    ) == 0
}

} // verus!
