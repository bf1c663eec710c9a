use agnostic_orderbook::critbit::{LeafNode, Slab};
use agnostic_orderbook::error::AoError;
use agnostic_orderbook::event_queue::{EventQueue, EventQueueHeader};
use agnostic_orderbook::new_order::Params;
use agnostic_orderbook::orderbook::OrderBookState;
use agnostic_orderbook::state::{Event, SelfTradeBehavior, Side};

fn px(units: u64) -> u64 {
    units << 32
}

fn bid_id(price: u64, seq: u64) -> u128 {
    ((price as u128) << 64) | ((u64::MAX - seq) as u128)
}

fn ask_id(price: u64, seq: u64) -> u128 {
    ((price as u128) << 64) | (seq as u128)
}

fn empty_queue(seq_num: u64, capacity: usize, cb_len: usize) -> EventQueue {
    EventQueue::new_safe(
        EventQueueHeader { account_tag: 0, head: 0, count: 0, seq_num },
        Vec::new(),
        capacity,
        cb_len,
    )
    .unwrap()
}

fn book_with(bid_leaves: Vec<LeafNode>, ask_leaves: Vec<LeafNode>, cb_len: usize) -> OrderBookState {
    let mut bids = Slab::new(Side::Bid, 8, cb_len);
    let mut asks = Slab::new(Side::Ask, 8, cb_len);
    for l in bid_leaves {
        bids.insert_leaf(&l).unwrap();
    }
    for l in ask_leaves {
        asks.insert_leaf(&l).unwrap();
    }
    OrderBookState::new_safe(bids, asks).unwrap()
}

fn bid_params(
    limit_price: u64,
    max_asset_qty: u64,
    max_quote_qty: u64,
    callback_info: Vec<u8>,
) -> Params {
    Params {
        max_asset_qty,
        max_quote_qty,
        limit_price,
        side: Side::Bid,
        callback_info,
        post_only: false,
        post_allowed: true,
        self_trade_behavior: SelfTradeBehavior::DecrementTake,
        match_limit: 16,
    }
}

#[test]
fn simple_cross() {
    let cb = vec![1u8, 2, 3, 4];
    let taker = vec![9u8, 9, 9, 9];
    let mut book = book_with(
        vec![],
        vec![LeafNode::new(ask_id(px(100), 0), cb.clone(), 10)],
        4,
    );
    let mut queue = empty_queue(1, 16, 4);
    let summary = book
        .new_order(bid_params(px(110), 4, u64::MAX, taker.clone()), &mut queue)
        .unwrap();
    assert!(summary.posted_order_id.is_none());
    assert_eq!(summary.total_asset_qty, 4);
    assert_eq!(summary.total_quote_qty, 400);
    assert_eq!(queue.count(), 1);
    match queue.get_event(0) {
        Event::Fill { taker_side, maker_order_id, quote_size, asset_size, .. } => {
            assert_eq!(taker_side, Side::Bid);
            assert_eq!(maker_order_id, ask_id(px(100), 0));
            assert_eq!(quote_size, 400);
            assert_eq!(asset_size, 4);
        },
        _ => panic!("expected a fill"),
    }
    let asks = book.get_tree(Side::Ask);
    assert_eq!(asks.len(), 1);
    assert_eq!(asks.get_leaf(0).asset_quantity, 6);
}

#[test]
fn partial_fill_then_post() {
    let cb = vec![1u8, 2, 3, 4];
    let taker = vec![9u8, 9, 9, 9];
    let mut book = book_with(
        vec![],
        vec![LeafNode::new(ask_id(px(100), 0), cb.clone(), 3)],
        4,
    );
    let mut queue = empty_queue(7, 16, 4);
    let summary = book
        .new_order(bid_params(px(100), 5, 500, taker.clone()), &mut queue)
        .unwrap();
    assert_eq!(summary.total_asset_qty, 5);
    assert_eq!(summary.total_quote_qty, 500);
    assert_eq!(summary.posted_order_id, Some(bid_id(px(100), 7)));
    assert_eq!(queue.count(), 1);
    match queue.get_event(0) {
        Event::Fill { quote_size, asset_size, .. } => {
            assert_eq!(quote_size, 300);
            assert_eq!(asset_size, 3);
        },
        _ => panic!("expected a fill"),
    }
    assert_eq!(book.get_tree(Side::Ask).len(), 0);
    let bids = book.get_tree(Side::Bid);
    assert_eq!(bids.len(), 1);
    let leaf = bids.get_leaf(0);
    assert_eq!(leaf.order_id, bid_id(px(100), 7));
    assert_eq!(leaf.asset_quantity, 2);
}

#[test]
fn self_trade_cancel_provide() {
    let owner = vec![5u8, 5, 5, 5];
    let mut book = book_with(
        vec![],
        vec![LeafNode::new(ask_id(px(100), 0), owner.clone(), 7)],
        4,
    );
    let mut queue = empty_queue(1, 16, 4);
    let mut params = bid_params(px(100), 4, u64::MAX, owner.clone());
    params.self_trade_behavior = SelfTradeBehavior::CancelProvide;
    params.post_allowed = false;
    let summary = book.new_order(params, &mut queue).unwrap();
    assert_eq!(summary.total_asset_qty, 0);
    assert_eq!(summary.total_quote_qty, 0);
    assert!(summary.posted_order_id.is_none());
    assert_eq!(queue.count(), 1);
    match queue.get_event(0) {
        Event::Out { side, order_id, asset_size, .. } => {
            assert_eq!(side, Side::Ask);
            assert_eq!(order_id, ask_id(px(100), 0));
            assert_eq!(asset_size, 7);
        },
        _ => panic!("expected an out"),
    }
    assert_eq!(book.get_tree(Side::Ask).len(), 0);
}

#[test]
fn self_trade_abort_transaction() {
    let owner = vec![5u8, 5, 5, 5];
    let mut book = book_with(
        vec![],
        vec![LeafNode::new(ask_id(px(100), 0), owner.clone(), 7)],
        4,
    );
    let mut queue = empty_queue(1, 16, 4);
    let mut params = bid_params(px(100), 4, u64::MAX, owner.clone());
    params.self_trade_behavior = SelfTradeBehavior::AbortTransaction;
    let r = book.new_order(params, &mut queue);
    assert_eq!(r.unwrap_err(), AoError::WouldSelfTrade);
    assert_eq!(queue.count(), 0);
    let asks = book.get_tree(Side::Ask);
    assert_eq!(asks.len(), 1);
    assert_eq!(asks.get_leaf(0).asset_quantity, 7);
}

#[test]
fn post_only_crosses_does_nothing() {
    let cb = vec![1u8, 2, 3, 4];
    let mut book = book_with(
        vec![],
        vec![LeafNode::new(ask_id(px(100), 0), cb.clone(), 1)],
        4,
    );
    let mut queue = empty_queue(1, 16, 4);
    let mut params = bid_params(px(100), 5, u64::MAX, vec![9u8, 9, 9, 9]);
    params.post_only = true;
    let summary = book.new_order(params, &mut queue).unwrap();
    assert!(summary.posted_order_id.is_none());
    assert_eq!(summary.total_asset_qty, 0);
    assert_eq!(summary.total_quote_qty, 0);
    assert_eq!(queue.count(), 0);
}

#[test]
fn post_only_uncrossed_posts_full_quantity() {
    let mut book = book_with(vec![], vec![], 4);
    let mut queue = empty_queue(3, 16, 4);
    let mut params = bid_params(px(100), 5, u64::MAX, vec![9u8, 9, 9, 9]);
    params.post_only = true;
    let summary = book.new_order(params, &mut queue).unwrap();
    assert_eq!(summary.posted_order_id, Some(bid_id(px(100), 3)));
    assert_eq!(summary.total_asset_qty, 5);
    let bids = book.get_tree(Side::Bid);
    assert_eq!(bids.len(), 1);
    assert_eq!(bids.get_leaf(0).asset_quantity, 5);
    assert_eq!(queue.count(), 0);
}

#[test]
fn match_limit_zero_does_nothing() {
    let cb = vec![1u8, 2, 3, 4];
    let mut book = book_with(
        vec![],
        vec![LeafNode::new(ask_id(px(100), 0), cb.clone(), 10)],
        4,
    );
    let mut queue = empty_queue(1, 16, 4);
    let mut params = bid_params(px(110), 4, u64::MAX, vec![9u8, 9, 9, 9]);
    params.match_limit = 0;
    let summary = book.new_order(params, &mut queue).unwrap();
    assert!(summary.posted_order_id.is_none());
    assert_eq!(summary.total_asset_qty, 0);
    assert_eq!(summary.total_quote_qty, 0);
    assert_eq!(queue.count(), 0);
    assert_eq!(book.get_tree(Side::Ask).len(), 1);
}

#[test]
fn quote_budget_below_one_unit_no_fills() {
    let cb = vec![1u8, 2, 3, 4];
    let mut book = book_with(
        vec![],
        vec![LeafNode::new(ask_id(px(100), 0), cb.clone(), 10)],
        4,
    );
    let mut queue = empty_queue(1, 16, 4);
    let summary = book
        .new_order(bid_params(px(110), 4, 50, vec![9u8, 9, 9, 9]), &mut queue)
        .unwrap();
    assert_eq!(summary.total_asset_qty, 0);
    assert_eq!(summary.total_quote_qty, 0);
    assert!(summary.posted_order_id.is_none());
    assert_eq!(queue.count(), 0);
    assert_eq!(book.get_tree(Side::Ask).get_leaf(0).asset_quantity, 10);
}

#[test]
fn book_full_eviction() {
    let cb = vec![1u8, 2, 3, 4];
    let mut bid_leaves = Vec::new();
    for i in 0..8u64 {
        bid_leaves.push(LeafNode::new(bid_id(px(10 + i), i), cb.clone(), i + 1));
    }
    let mut book = book_with(bid_leaves, vec![], 4);
    let mut queue = empty_queue(8, 16, 4);
    let summary = book
        .new_order(bid_params(px(100), 3, u64::MAX, vec![9u8, 9, 9, 9]), &mut queue)
        .unwrap();
    assert_eq!(summary.posted_order_id, Some(bid_id(px(100), 8)));
    assert_eq!(queue.count(), 1);
    match queue.get_event(0) {
        Event::Out { side, order_id, asset_size, .. } => {
            assert_eq!(side, Side::Bid);
            assert_eq!(order_id, bid_id(px(10), 0));
            assert_eq!(asset_size, 1);
        },
        _ => panic!("expected the eviction out"),
    }
    let bids = book.get_tree(Side::Bid);
    assert_eq!(bids.len(), 8);
    let best = bids.find_max().unwrap();
    let leaf = bids.get_leaf(best);
    assert_eq!(leaf.order_id, bid_id(px(100), 8));
    assert_eq!(leaf.asset_quantity, 3);
}

#[test]
fn event_queue_full_mid_matching() {
    let cb = vec![1u8, 2, 3, 4];
    let mut book = book_with(
        vec![],
        vec![
            LeafNode::new(ask_id(px(100), 0), cb.clone(), 1),
            LeafNode::new(ask_id(px(100), 1), cb.clone(), 1),
        ],
        4,
    );
    let mut queue = empty_queue(5, 1, 4);
    let r = book.new_order(bid_params(px(110), 2, u64::MAX, vec![9u8, 9, 9, 9]), &mut queue);
    assert_eq!(r.unwrap_err(), AoError::EventQueueFull);
    assert_eq!(queue.count(), 1);
}

#[test]
fn ask_side_cross() {
    let cb = vec![1u8, 2, 3, 4];
    let mut book = book_with(
        vec![LeafNode::new(bid_id(px(100), 0), cb.clone(), 10)],
        vec![],
        4,
    );
    let mut queue = empty_queue(1, 16, 4);
    let params = Params {
        max_asset_qty: 4,
        max_quote_qty: u64::MAX,
        limit_price: px(90),
        side: Side::Ask,
        callback_info: vec![9u8, 9, 9, 9],
        post_only: false,
        post_allowed: false,
        self_trade_behavior: SelfTradeBehavior::DecrementTake,
        match_limit: 16,
    };
    let summary = book.new_order(params, &mut queue).unwrap();
    assert_eq!(summary.total_asset_qty, 4);
    assert_eq!(summary.total_quote_qty, 400);
    assert!(summary.posted_order_id.is_none());
    assert_eq!(book.get_tree(Side::Bid).get_leaf(0).asset_quantity, 6);
}

#[test]
fn price_time_priority_on_ties() {
    let cb = vec![0u8; 4];
    let mut bids = Slab::new(Side::Bid, 8, 4);
    bids.insert_leaf(&LeafNode::new(bid_id(px(100), 0), cb.clone(), 1)).unwrap();
    bids.insert_leaf(&LeafNode::new(bid_id(px(100), 1), cb.clone(), 1)).unwrap();
    bids.insert_leaf(&LeafNode::new(bid_id(px(90), 2), cb.clone(), 1)).unwrap();
    let best = bids.find_max().unwrap();
    assert_eq!(bids.get_leaf(best).order_id, bid_id(px(100), 0));

    let mut asks = Slab::new(Side::Ask, 8, 4);
    asks.insert_leaf(&LeafNode::new(ask_id(px(100), 3), cb.clone(), 1)).unwrap();
    asks.insert_leaf(&LeafNode::new(ask_id(px(100), 4), cb.clone(), 1)).unwrap();
    asks.insert_leaf(&LeafNode::new(ask_id(px(110), 5), cb.clone(), 1)).unwrap();
    let best = asks.find_min().unwrap();
    assert_eq!(asks.get_leaf(best).order_id, ask_id(px(100), 3));
}

#[test]
fn slab_out_of_space_on_insert() {
    let cb = vec![0u8; 4];
    let mut bids = Slab::new(Side::Bid, 1, 4);
    bids.insert_leaf(&LeafNode::new(bid_id(px(10), 0), cb.clone(), 1)).unwrap();
    let r = bids.insert_leaf(&LeafNode::new(bid_id(px(11), 1), cb.clone(), 1));
    assert_eq!(r.unwrap_err(), AoError::SlabOutOfSpace);
}

#[test]
fn ask_book_full_eviction_tags_ask_side() {
    let cb = vec![1u8, 2, 3, 4];
    let mut ask_leaves = Vec::new();
    for i in 0..8u64 {
        ask_leaves.push(LeafNode::new(ask_id(px(10 + i), i), cb.clone(), 2));
    }
    let mut book = book_with(vec![], ask_leaves, 4);
    let mut queue = empty_queue(8, 16, 4);
    let params = Params {
        max_asset_qty: 5,
        max_quote_qty: u64::MAX,
        limit_price: px(9),
        side: Side::Ask,
        callback_info: vec![9u8, 9, 9, 9],
        post_only: false,
        post_allowed: true,
        self_trade_behavior: SelfTradeBehavior::DecrementTake,
        match_limit: 16,
    };
    let summary = book.new_order(params, &mut queue).unwrap();
    assert_eq!(summary.posted_order_id, Some(ask_id(px(9), 8)));
    assert_eq!(queue.count(), 1);
    match queue.get_event(0) {
        Event::Out { side, order_id, asset_size, .. } => {
            assert_eq!(side, Side::Ask);
            assert_eq!(order_id, ask_id(px(17), 7));
            assert_eq!(asset_size, 2);
        },
        _ => panic!("expected the eviction out"),
    }
    assert_eq!(book.get_tree(Side::Ask).len(), 8);
}

#[test]
fn sequential_orders_share_the_queue() {
    let mut book = book_with(vec![], vec![], 4);
    let mut queue = empty_queue(0, 16, 4);
    let maker = vec![1u8, 1, 1, 1];
    let taker = vec![2u8, 2, 2, 2];
    let first = book
        .new_order(bid_params(px(100), 10, u64::MAX, maker.clone()), &mut queue)
        .unwrap();
    assert_eq!(first.posted_order_id, Some(bid_id(px(100), 0)));
    let params = Params {
        max_asset_qty: 4,
        max_quote_qty: u64::MAX,
        limit_price: px(100),
        side: Side::Ask,
        callback_info: taker,
        post_only: false,
        post_allowed: true,
        self_trade_behavior: SelfTradeBehavior::DecrementTake,
        match_limit: 16,
    };
    let second = book.new_order(params, &mut queue).unwrap();
    assert_eq!(second.total_asset_qty, 4);
    assert_eq!(second.total_quote_qty, 400);
    assert!(second.posted_order_id.is_none());
    assert_eq!(queue.count(), 1);
    match queue.get_event(0) {
        Event::Fill { taker_side, maker_order_id, asset_size, .. } => {
            assert_eq!(taker_side, Side::Ask);
            assert_eq!(maker_order_id, bid_id(px(100), 0));
            assert_eq!(asset_size, 4);
        },
        _ => panic!("expected a fill"),
    }
    assert_eq!(book.get_tree(Side::Bid).get_leaf(0).asset_quantity, 6);
    assert_eq!(queue.get_header().seq_num, 1);
}
