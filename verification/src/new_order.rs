use vstd::prelude::*;

use crate::state::{SelfTradeBehavior, Side};

verus! {

/// The arguments of a new-order call.
pub struct Params {
    /// Maximum base quantity to trade or post.
    pub max_asset_qty: u64,
    /// Maximum quote quantity to spend or receive.
    pub max_quote_qty: u64,
    /// Q32.32 limit price.
    pub limit_price: u64,
    pub side: Side,
    /// Opaque owner tag of the market's fixed width.
    pub callback_info: Vec<u8>,
    /// Never take liquidity; abandon matching when the book crosses.
    pub post_only: bool,
    /// Allow any unfilled remainder to rest in the book.
    pub post_allowed: bool,
    pub self_trade_behavior: SelfTradeBehavior,
    /// Maximum number of fills before matching stops.
    pub match_limit: u64,
}

} // verus!
