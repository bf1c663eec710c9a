use vstd::prelude::*;

verus! {

/// Domain errors surfaced by the order book core, in their stable order.
#[derive(Clone, Copy, Debug, PartialEq, Eq, Structural)]
pub enum AoError {
    /// A self-trade was detected while the order asked for the transaction
    /// to be aborted in that case.
    WouldSelfTrade,
    /// The bounded event queue was exhausted mid-matching or mid-posting.
    EventQueueFull,
    /// The slab arena cannot hold another resting order. The matcher absorbs
    /// this by eviction and never surfaces it from a new-order call.
    SlabOutOfSpace,
    /// Division-by-zero guard in the consume-events reward proration.
    NoOperations,
    /// Initialization guard: the account was already initialized.
    AlreadyInitialized,
}

pub type AoResult = Result<(), AoError>;

} // verus!
