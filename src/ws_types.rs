//! The streamed message types, under the names the feed client uses.
pub use crate::dto::{BidAsk, WsOrderbookUpdate, WsOrderbookUpdateData};
