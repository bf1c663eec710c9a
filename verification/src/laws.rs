//! The ordering and uniqueness laws of the composite order-id encoding.
use vstd::prelude::*;

use vstd::arithmetic::mul::lemma_mul_inequality;

use crate::state::{lemma_order_id_parts, spec_order_id, Side};

verus! {

/// Keys with the low half below 2^64 order first by the high half, then by
/// the low half.
proof fn lemma_key_order(p1: u64, l1: u64, p2: u64, l2: u64)
    ensures
        ((p1 as int) * 0x1_0000_0000_0000_0000 + l1 > (p2 as int) * 0x1_0000_0000_0000_0000 + l2)
            <==> (p1 > p2 || (p1 == p2 && l1 > l2)),
{
    if p1 > p2 {
        assert((p2 as int) + 1 <= p1 as int);
        lemma_mul_inequality((p2 as int) + 1, p1 as int, 0x1_0000_0000_0000_0000);
        assert(((p2 as int) + 1) * 0x1_0000_0000_0000_0000 == (p2 as int) * 0x1_0000_0000_0000_0000
            + 0x1_0000_0000_0000_0000) by (nonlinear_arith);
    }
    if p2 > p1 {
        assert((p1 as int) + 1 <= p2 as int);
        lemma_mul_inequality((p1 as int) + 1, p2 as int, 0x1_0000_0000_0000_0000);
        assert(((p1 as int) + 1) * 0x1_0000_0000_0000_0000 == (p1 as int) * 0x1_0000_0000_0000_0000
            + 0x1_0000_0000_0000_0000) by (nonlinear_arith);
    }
}

/// Price-time priority of bid keys: among bid order ids, the larger key is
/// the one with the higher price, and at equal prices the one generated
/// first (the smaller sequence number). `find_max` on a bid slab therefore
/// returns the best-priority bid.
pub proof fn lemma_bid_key_priority(p1: u64, s1: u64, p2: u64, s2: u64)
    ensures
        spec_order_id(p1, s1, Side::Bid) > spec_order_id(p2, s2, Side::Bid) <==> (p1 > p2 || (p1
            == p2 && s1 < s2)),
{
    lemma_key_order(p1, (u64::MAX - s1) as u64, p2, (u64::MAX - s2) as u64);
}

/// Price-time priority of ask keys: among ask order ids, the smaller key is
/// the one with the lower price, and at equal prices the one generated
/// first (the smaller sequence number). `find_min` on an ask slab therefore
/// returns the best-priority ask.
pub proof fn lemma_ask_key_priority(p1: u64, s1: u64, p2: u64, s2: u64)
    ensures
        spec_order_id(p1, s1, Side::Ask) < spec_order_id(p2, s2, Side::Ask) <==> (p1 < p2 || (p1
            == p2 && s1 < s2)),
{
    lemma_key_order(p2, s2, p1, s1);
}

/// Order ids generated from distinct sequence numbers are distinct: always
/// on the same side, and across sides except in the single corner where
/// the prices coincide and the two sequence numbers sum to `u64::MAX`, so
/// that the ask's raw low half collides with the bid's complemented one.
pub proof fn lemma_order_id_unique(p1: u64, s1: u64, side1: Side, p2: u64, s2: u64, side2: Side)
    requires
        s1 != s2,
        side1 == side2 || p1 != p2 || (s1 as int) + (s2 as int) != u64::MAX as int,
    ensures
        spec_order_id(p1, s1, side1) != spec_order_id(p2, s2, side2),
{
    lemma_order_id_parts(p1, s1, side1);
    lemma_order_id_parts(p2, s2, side2);
    if spec_order_id(p1, s1, side1) == spec_order_id(p2, s2, side2) {
        assert(p1 == p2);
        if side1 == side2 {
            assert(s1 == s2);
        }
    }
}

} // verus!
