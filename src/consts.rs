//! Default settings of the feed and of the replica.
use vstd::prelude::*;

verus! {

/// Endpoint of the streamed feed.
pub const WEBSOCKET_URL: &'static str = "wss://wss.woox.io/v3/public";

/// Depth of the streamed order-book updates subscribed to.
pub const DEPTH: usize = 50;

/// Trading pair followed.
pub const TICKER: &'static str = "PERP_ETH_USDT";

/// Capacity of the queue between the feed reader and the book.
pub const CHANNEL_BUFFER_SIZE: usize = 10000;

/// Levels per side asked of the snapshot endpoint.
pub const SNAPSHOT_MAX_LEVEL: usize = 5;

/// Endpoint of order-book snapshots.
pub const SNAPSHOT_URL: &'static str = "https://api.woox.io/v3/public/orderbook";

} // verus!
