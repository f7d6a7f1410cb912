//! A bounded-depth replica of an exchange order book, rebuilt from snapshots and
//! kept current from a stream of deltas.
use vstd::prelude::*;

pub mod consts;
pub mod decimal;
pub mod dto;
pub mod orderbook;
pub mod orderbook_service;
pub mod side;
pub mod ws_client;
pub mod ws_types;

verus! {

} // verus!
