use vstd::prelude::*;

verus! {

/// Envelope of a streamed order-book update message.
pub struct WsOrderbookUpdate {
    pub topic: String,
    pub ts: u64,
    pub data: WsOrderbookUpdateData,
}

/// Payload of a streamed order-book update: the levels that changed since the
/// update stamped `prev_ts`.
pub struct WsOrderbookUpdateData {
    pub s: String,
    pub prev_ts: u64,
    pub bids: Vec<BidAsk>,
    pub asks: Vec<BidAsk>,
    pub ts: u64,
}

/// One price level as the feed writes it: price and quantity as decimal text.
pub struct BidAsk {
    pub price: String,
    pub quantity: String,
}

/// A full order-book state as the snapshot endpoint returns it.
pub struct OrderbookSnapshot {
    pub success: bool,
    pub timestamp: u64,
    pub data: OrderbookSnapshotData,
}

/// Both sides of an `OrderbookSnapshot`.
pub struct OrderbookSnapshotData {
    pub asks: Vec<BidAsk>,
    pub bids: Vec<BidAsk>,
}

} // verus!
