use woo_orderbook::decimal::parse_fixed;
use woo_orderbook::dto::{BidAsk, OrderbookSnapshot, OrderbookSnapshotData, WsOrderbookUpdateData};
use woo_orderbook::orderbook::{NumericParseError, Orderbook, DEFAULT_DEPTH};
use woo_orderbook::orderbook_service::{decide_sync, SyncAction};
use woo_orderbook::side::Level;
use woo_orderbook::ws_client::is_orderbook_topic;

const UNIT: u64 = 100_000_000;

fn ba(price: &str, quantity: &str) -> BidAsk {
    BidAsk { price: price.to_string(), quantity: quantity.to_string() }
}

fn lvl(price: u64, quantity: u64) -> Level {
    Level { price, quantity }
}

fn snapshot(ts: u64, bids: Vec<BidAsk>, asks: Vec<BidAsk>) -> OrderbookSnapshot {
    OrderbookSnapshot { success: true, timestamp: ts, data: OrderbookSnapshotData { asks, bids } }
}

fn delta(prev_ts: u64, ts: u64, bids: Vec<BidAsk>, asks: Vec<BidAsk>) -> WsOrderbookUpdateData {
    WsOrderbookUpdateData { s: "PERP_ETH_USDT".to_string(), prev_ts, bids, asks, ts }
}

fn scenario_a_book() -> Orderbook {
    let mut book = Orderbook::new();
    book.apply_snapshot(&snapshot(100, vec![ba("10", "1")], vec![ba("11", "1")])).unwrap();
    book
}

#[test]
fn new_book_is_empty() {
    let book = Orderbook::new();
    assert_eq!(book.last_ts(), 0);
    assert_eq!(book.depth(), DEFAULT_DEPTH);
    assert!(book.bids().is_empty());
    assert!(book.asks().is_empty());
}

#[test]
fn snapshot_scenario_a() {
    let book = scenario_a_book();
    assert_eq!(book.last_ts(), 100);
    assert_eq!(book.bids(), &vec![lvl(10 * UNIT, UNIT)]);
    assert_eq!(book.asks(), &vec![lvl(11 * UNIT, UNIT)]);
}

#[test]
fn delta_scenario_b_removes_bid() {
    let mut book = scenario_a_book();
    let r = book.sync_update(&delta(100, 101, vec![ba("10", "0")], vec![]));
    assert_eq!(r, Ok(SyncAction::Apply));
    assert!(book.bids().is_empty());
    assert_eq!(book.asks(), &vec![lvl(11 * UNIT, UNIT)]);
    assert_eq!(book.last_ts(), 101);
}

#[test]
fn gap_scenario_c_asks_for_resync() {
    let mut book = scenario_a_book();
    let r = book.sync_update(&delta(105, 106, vec![ba("10", "0"), ba("12", "3")], vec![]));
    assert_eq!(r, Ok(SyncAction::Resync));
    assert_eq!(book.last_ts(), 100);
    assert_eq!(book.bids(), &vec![lvl(10 * UNIT, UNIT)]);
    assert_eq!(book.asks(), &vec![lvl(11 * UNIT, UNIT)]);
}

#[test]
fn depth_scenario_d_evicts_worst_bid() {
    let mut book = Orderbook::with_depth(2);
    book.apply_snapshot(&snapshot(1, vec![ba("10", "1"), ba("9", "1")], vec![])).unwrap();
    book.update(&delta(1, 2, vec![ba("9.5", "1")], vec![])).unwrap();
    assert_eq!(book.bids(), &vec![lvl(10 * UNIT, UNIT), lvl(950_000_000, UNIT)]);
    assert_eq!(book.last_ts(), 2);
}

#[test]
fn stale_delta_is_discarded() {
    let mut book = scenario_a_book();
    let r = book.sync_update(&delta(99, 100, vec![ba("8", "4")], vec![ba("11", "0")]));
    assert_eq!(r, Ok(SyncAction::Discard));
    assert_eq!(book.last_ts(), 100);
    assert_eq!(book.bids(), &vec![lvl(10 * UNIT, UNIT)]);
    assert_eq!(book.asks(), &vec![lvl(11 * UNIT, UNIT)]);
}

#[test]
fn decide_sync_trichotomy() {
    assert_eq!(decide_sync(100, 100), SyncAction::Apply);
    assert_eq!(decide_sync(100, 105), SyncAction::Resync);
    assert_eq!(decide_sync(100, 99), SyncAction::Discard);
}

#[test]
fn snapshot_sorts_truncates_and_replaces() {
    let mut book = Orderbook::new();
    book.apply_snapshot(&snapshot(7, vec![ba("1", "1"), ba("2", "1")], vec![ba("50", "1")])).unwrap();
    let bids = vec![ba("3", "1"), ba("7", "2"), ba("1", "1"), ba("5", "1"), ba("6", "1"), ba("2", "1"), ba("4", "1")];
    let asks = vec![ba("13", "1"), ba("11", "1"), ba("12", "1")];
    book.apply_snapshot(&snapshot(42, bids, asks)).unwrap();
    assert_eq!(book.last_ts(), 42);
    assert_eq!(
        book.bids(),
        &vec![lvl(7 * UNIT, 2 * UNIT), lvl(6 * UNIT, UNIT), lvl(5 * UNIT, UNIT), lvl(4 * UNIT, UNIT), lvl(3 * UNIT, UNIT)]
    );
    assert_eq!(book.asks(), &vec![lvl(11 * UNIT, UNIT), lvl(12 * UNIT, UNIT), lvl(13 * UNIT, UNIT)]);
}

#[test]
fn snapshot_twice_is_idempotent() {
    let snap = snapshot(9, vec![ba("2", "1"), ba("3", "0.5")], vec![ba("4", "1"), ba("5", "2")]);
    let mut once = Orderbook::new();
    once.apply_snapshot(&snap).unwrap();
    let mut twice = Orderbook::new();
    twice.apply_snapshot(&snap).unwrap();
    twice.apply_snapshot(&snap).unwrap();
    assert_eq!(once.bids(), twice.bids());
    assert_eq!(once.asks(), twice.asks());
    assert_eq!(once.last_ts(), twice.last_ts());
}

#[test]
fn snapshot_keeps_one_level_per_price() {
    let mut book = Orderbook::new();
    book.apply_snapshot(&snapshot(3, vec![ba("2", "1"), ba("2", "4"), ba("1", "0")], vec![])).unwrap();
    assert_eq!(book.bids(), &vec![lvl(2 * UNIT, 4 * UNIT)]);
}

#[test]
fn delta_updates_quantity_in_place() {
    let mut book = Orderbook::new();
    book.apply_snapshot(&snapshot(1, vec![ba("10", "1"), ba("9", "1")], vec![ba("11", "1"), ba("12", "1")])).unwrap();
    book.update(&delta(1, 2, vec![ba("9", "3")], vec![ba("11", "0.25")])).unwrap();
    assert_eq!(book.bids(), &vec![lvl(10 * UNIT, UNIT), lvl(9 * UNIT, 3 * UNIT)]);
    assert_eq!(book.asks(), &vec![lvl(11 * UNIT, 25_000_000), lvl(12 * UNIT, UNIT)]);
}

#[test]
fn zero_quantity_for_absent_price_is_noop() {
    let mut book = scenario_a_book();
    book.update(&delta(100, 101, vec![ba("9", "0")], vec![ba("12", "0")])).unwrap();
    assert_eq!(book.bids(), &vec![lvl(10 * UNIT, UNIT)]);
    assert_eq!(book.asks(), &vec![lvl(11 * UNIT, UNIT)]);
    assert_eq!(book.last_ts(), 101);
}

#[test]
fn zero_quantity_removes_only_that_level() {
    let mut book = Orderbook::new();
    book.apply_snapshot(&snapshot(1, vec![ba("10", "1"), ba("9", "2"), ba("8", "3")], vec![])).unwrap();
    book.update(&delta(1, 2, vec![ba("9", "0")], vec![])).unwrap();
    assert_eq!(book.bids(), &vec![lvl(10 * UNIT, UNIT), lvl(8 * UNIT, 3 * UNIT)]);
}

#[test]
fn deltas_in_order_keep_sides_sorted_and_bounded() {
    let mut book = Orderbook::with_depth(3);
    book.apply_snapshot(&snapshot(1, vec![ba("10", "1")], vec![ba("11", "1")])).unwrap();
    let steps = vec![
        delta(1, 2, vec![ba("12", "1"), ba("8", "1")], vec![ba("10.5", "1"), ba("13", "1")]),
        delta(2, 3, vec![ba("9", "1"), ba("11", "2")], vec![ba("10.75", "1"), ba("10.25", "1")]),
        delta(3, 4, vec![ba("12", "0"), ba("7", "1")], vec![ba("10.25", "0")]),
    ];
    for d in steps.iter() {
        assert_eq!(book.sync_update(d), Ok(SyncAction::Apply));
        let bids = book.bids();
        let asks = book.asks();
        assert!(bids.len() <= 3 && asks.len() <= 3);
        assert!(bids.windows(2).all(|w| w[0].price > w[1].price));
        assert!(asks.windows(2).all(|w| w[0].price < w[1].price));
    }
    assert_eq!(book.last_ts(), 4);
    assert_eq!(book.bids(), &vec![lvl(11 * UNIT, 2 * UNIT), lvl(10 * UNIT, UNIT), lvl(7 * UNIT, UNIT)]);
    assert_eq!(book.asks(), &vec![lvl(1_050_000_000, UNIT), lvl(1_075_000_000, UNIT)]);
}

#[test]
fn bad_number_in_delta_leaves_book_unchanged() {
    let mut book = scenario_a_book();
    let r = book.sync_update(&delta(100, 101, vec![ba("10", "0")], vec![ba("abc", "1")]));
    assert_eq!(r, Err(NumericParseError));
    assert_eq!(book.last_ts(), 100);
    assert_eq!(book.bids(), &vec![lvl(10 * UNIT, UNIT)]);
}

#[test]
fn bad_number_in_snapshot_leaves_book_unchanged() {
    let mut book = scenario_a_book();
    let r = book.apply_snapshot(&snapshot(200, vec![ba("10", "")], vec![]));
    assert_eq!(r, Err(NumericParseError));
    assert_eq!(book.last_ts(), 100);
    assert_eq!(book.asks(), &vec![lvl(11 * UNIT, UNIT)]);
}

#[test]
fn parse_fixed_values() {
    assert_eq!(parse_fixed("0"), Some(0));
    assert_eq!(parse_fixed("10"), Some(1_000_000_000));
    assert_eq!(parse_fixed("9.5"), Some(950_000_000));
    assert_eq!(parse_fixed("2345.67"), Some(234_567_000_000));
    assert_eq!(parse_fixed("0.00000001"), Some(1));
    assert_eq!(parse_fixed("0.0"), Some(0));
    assert_eq!(parse_fixed("184467440737.09551615"), Some(u64::MAX));
}

#[test]
fn parse_fixed_rejects() {
    assert_eq!(parse_fixed(""), None);
    assert_eq!(parse_fixed("."), None);
    assert_eq!(parse_fixed("1."), None);
    assert_eq!(parse_fixed(".5"), None);
    assert_eq!(parse_fixed("-1"), None);
    assert_eq!(parse_fixed("1e5"), None);
    assert_eq!(parse_fixed("1.2.3"), None);
    assert_eq!(parse_fixed("0.000000001"), None);
    assert_eq!(parse_fixed("184467440737.09551616"), None);
    assert_eq!(parse_fixed("99999999999999999999999"), None);
    assert_eq!(parse_fixed(" 1"), None);
}

#[test]
fn topic_filter() {
    assert!(is_orderbook_topic("orderbookupdate@PERP_ETH_USDT@50"));
    assert!(is_orderbook_topic("orderbookupdate"));
    assert!(!is_orderbook_topic("orderbook@PERP_ETH_USDT@50"));
    assert!(!is_orderbook_topic("trade@PERP_ETH_USDT"));
    assert!(!is_orderbook_topic(""));
}
