use agnostic_orderbook::codec::{
    deserialize_event, deserialize_order_summary, deserialize_slab_header, serialize_event,
    serialize_order_summary, serialize_slab_header,
};
use agnostic_orderbook::consume_events;
use agnostic_orderbook::critbit::{LeafNode, Slab, SlabHeader};
use agnostic_orderbook::error::AoError;
use agnostic_orderbook::event_queue::{EventQueue, EventQueueHeader};
use agnostic_orderbook::orderbook::{OrderBookState, OrderSummary};
use agnostic_orderbook::state::{Event, Side};
use agnostic_orderbook::utils::{check_unitialized, fp32_div, fp32_mul};

fn fresh_queue(seq_num: u64, capacity: usize, cb_len: usize) -> EventQueue {
    EventQueue::new_safe(
        EventQueueHeader { account_tag: 0, head: 0, count: 0, seq_num },
        Vec::new(),
        capacity,
        cb_len,
    )
    .unwrap()
}

fn an_out(tag: u8) -> Event {
    Event::Out { side: Side::Ask, order_id: tag as u128, asset_size: 1, callback_info: vec![tag, tag] }
}

#[test]
fn fp32_mul_exact_values() {
    assert_eq!(fp32_mul(4, 100u64 << 32), 400);
    assert_eq!(fp32_mul(3, (5u64 << 32) + (1u64 << 31)), 16);
    assert_eq!(fp32_mul(0, u64::MAX), 0);
    assert_eq!(fp32_mul(1, 1u64 << 32), 1);
}

#[test]
fn fp32_div_exact_values() {
    assert_eq!(fp32_div(10, 4u64 << 32), 2);
    assert_eq!(fp32_div(1, 3u64 << 32), 0);
    assert_eq!(fp32_div(400, 100u64 << 32), 4);
    assert_eq!(fp32_div(7, 1u64 << 31), 14);
}

#[test]
fn order_summary_round_trip() {
    let s = OrderSummary { posted_order_id: Some(77_u128 << 64), total_asset_qty: 5, total_quote_qty: 9 };
    let bytes = serialize_order_summary(&s);
    assert_eq!(bytes.len(), 33);
    let back = deserialize_order_summary(bytes.as_slice()).unwrap();
    assert_eq!(back.posted_order_id, s.posted_order_id);
    assert_eq!(back.total_asset_qty, 5);
    assert_eq!(back.total_quote_qty, 9);
    assert_eq!(serialize_order_summary(&back), bytes);

    let none = OrderSummary { posted_order_id: None, total_asset_qty: 1, total_quote_qty: 2 };
    let nb = serialize_order_summary(&none);
    let back = deserialize_order_summary(nb.as_slice()).unwrap();
    assert!(back.posted_order_id.is_none());
    assert_eq!(serialize_order_summary(&back), nb);
}

#[test]
fn fill_event_round_trip() {
    let e = Event::Fill {
        taker_side: Side::Bid,
        maker_order_id: (100u128 << 96) | 3,
        quote_size: 400,
        asset_size: 4,
        maker_callback_info: vec![1, 2],
        taker_callback_info: vec![3, 4],
    };
    let bytes = serialize_event(&e, 2);
    assert_eq!(bytes.len(), 34 + 2 * 2);
    assert_eq!(bytes[0], 0);
    let back = deserialize_event(bytes.as_slice(), 2).unwrap();
    assert_eq!(serialize_event(&back, 2), bytes);
    match back {
        Event::Fill { taker_side, maker_order_id, quote_size, asset_size, maker_callback_info, taker_callback_info } => {
            assert_eq!(taker_side, Side::Bid);
            assert_eq!(maker_order_id, (100u128 << 96) | 3);
            assert_eq!(quote_size, 400);
            assert_eq!(asset_size, 4);
            assert_eq!(maker_callback_info, vec![1, 2]);
            assert_eq!(taker_callback_info, vec![3, 4]);
        },
        _ => panic!("expected a fill"),
    }
}

#[test]
fn out_event_round_trip() {
    let e = Event::Out { side: Side::Ask, order_id: 42, asset_size: 7, callback_info: vec![8, 9, 10] };
    let bytes = serialize_event(&e, 3);
    assert_eq!(bytes.len(), 34 + 2 * 3);
    assert_eq!(bytes[0], 1);
    assert_eq!(bytes[1], 1);
    let back = deserialize_event(bytes.as_slice(), 3).unwrap();
    assert_eq!(serialize_event(&back, 3), bytes);
    match back {
        Event::Out { side, order_id, asset_size, callback_info } => {
            assert_eq!(side, Side::Ask);
            assert_eq!(order_id, 42);
            assert_eq!(asset_size, 7);
            assert_eq!(callback_info, vec![8, 9, 10]);
        },
        _ => panic!("expected an out"),
    }
}

#[test]
fn slab_header_round_trip() {
    let h = SlabHeader {
        bump_index: 11,
        free_list_head: 22,
        callback_memory_offset: 33,
        leaf_count: 44,
        root_handle: 55,
        market_state: Side::Ask,
    };
    let bytes = serialize_slab_header(&h);
    assert_eq!(bytes.len(), 41);
    let back = deserialize_slab_header(bytes.as_slice()).unwrap();
    assert_eq!(back, h);
    assert_eq!(serialize_slab_header(&back), bytes);
}

#[test]
fn commit_changes_serializes_both_headers() {
    let bids = Slab::new(Side::Bid, 4, 2);
    let asks = Slab::new(Side::Ask, 4, 2);
    let book = OrderBookState::new_safe(bids, asks).unwrap();
    let (b, a) = book.commit_changes();
    let hb = deserialize_slab_header(b.as_slice()).unwrap();
    let ha = deserialize_slab_header(a.as_slice()).unwrap();
    assert_eq!(hb.market_state, Side::Bid);
    assert_eq!(ha.market_state, Side::Ask);
    assert_eq!(hb.leaf_count, 0);
}

#[test]
fn new_safe_rejects_mismatched_sides() {
    let bids = Slab::new(Side::Ask, 4, 2);
    let asks = Slab::new(Side::Ask, 4, 2);
    assert!(OrderBookState::new_safe(bids, asks).is_none());
}

#[test]
fn gen_order_id_monotonic_and_unique() {
    let mut queue = fresh_queue(5, 4, 2);
    let a1 = queue.gen_order_id(100u64 << 32, Side::Ask);
    let a2 = queue.gen_order_id(100u64 << 32, Side::Ask);
    assert_eq!(a1, ((100u128 << 32) << 64) | 5);
    assert_eq!(a2, ((100u128 << 32) << 64) | 6);
    assert!(a1 < a2);
    let b1 = queue.gen_order_id(100u64 << 32, Side::Bid);
    let b2 = queue.gen_order_id(100u64 << 32, Side::Bid);
    assert_eq!(b1, ((100u128 << 32) << 64) | ((u64::MAX - 7) as u128));
    assert!(b2 < b1);
    assert_eq!(queue.get_header().seq_num, 9);
    let ids = [a1, a2, b1, b2];
    for i in 0..4 {
        for j in 0..4 {
            if i != j {
                assert_ne!(ids[i], ids[j]);
            }
        }
    }
}

#[test]
fn queue_is_fifo_and_pop_n_caps() {
    let mut queue = fresh_queue(0, 8, 2);
    queue.push_back(an_out(1)).unwrap();
    queue.push_back(an_out(2)).unwrap();
    queue.push_back(an_out(3)).unwrap();
    assert_eq!(queue.count(), 3);
    queue.pop_n(2);
    assert_eq!(queue.count(), 1);
    match queue.get_event(0) {
        Event::Out { order_id, .. } => assert_eq!(order_id, 3),
        _ => panic!("expected an out"),
    }
    queue.pop_n(100);
    assert_eq!(queue.count(), 0);
}

#[test]
fn push_back_reports_full_queue() {
    let mut queue = fresh_queue(0, 1, 2);
    queue.push_back(an_out(1)).unwrap();
    let r = queue.push_back(an_out(2));
    assert_eq!(r.unwrap_err(), AoError::EventQueueFull);
}

#[test]
fn write_register_holds_last_summary() {
    let mut queue = fresh_queue(0, 2, 2);
    let s = OrderSummary { posted_order_id: None, total_asset_qty: 3, total_quote_qty: 4 };
    queue.write_register(&s);
    let reg = queue.get_register();
    assert_eq!(reg, serialize_order_summary(&s));
}

#[test]
fn consume_events_prorates_reward() {
    let mut queue = fresh_queue(0, 8, 2);
    for t in 0..4u8 {
        queue.push_back(an_out(t)).unwrap();
    }
    let reward = consume_events::process(
        &mut queue,
        100,
        &consume_events::Params { number_of_entries_to_consume: 2 },
    )
    .unwrap();
    assert_eq!(reward, 50);
    assert_eq!(queue.count(), 2);
}

#[test]
fn consume_events_empty_queue_is_no_operations() {
    let mut queue = fresh_queue(0, 8, 2);
    let r = consume_events::process(
        &mut queue,
        100,
        &consume_events::Params { number_of_entries_to_consume: 2 },
    );
    assert_eq!(r.unwrap_err(), AoError::NoOperations);
}

#[test]
fn uninitialized_guard() {
    assert!(check_unitialized(0).is_ok());
    assert_eq!(check_unitialized(7).unwrap_err(), AoError::AlreadyInitialized);
}

#[test]
fn slab_remove_by_key_and_extremes() {
    let cb = vec![0u8; 2];
    let mut asks = Slab::new(Side::Ask, 8, 2);
    asks.insert_leaf(&LeafNode::new((5u128 << 64) | 1, cb.clone(), 10)).unwrap();
    asks.insert_leaf(&LeafNode::new((7u128 << 64) | 2, cb.clone(), 20)).unwrap();
    asks.insert_leaf(&LeafNode::new((6u128 << 64) | 3, cb.clone(), 30)).unwrap();
    assert_eq!(asks.len(), 3);
    let gone = asks.remove_by_key((6u128 << 64) | 3).unwrap();
    assert_eq!(gone.asset_quantity, 30);
    assert!(asks.remove_by_key((6u128 << 64) | 3).is_none());
    let lo = asks.remove_min().unwrap();
    assert_eq!(lo.order_id, (5u128 << 64) | 1);
    let hi = asks.remove_max().unwrap();
    assert_eq!(hi.order_id, (7u128 << 64) | 2);
    assert!(asks.remove_min().is_none());
    assert_eq!(asks.get_header().leaf_count, 0);
}
