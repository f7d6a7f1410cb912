//! The local replica of the book: two bounded sorted sides and the stamp of the
//! last snapshot or delta merged into it.
use vstd::prelude::*;
use crate::decimal::{fixed_of_text, parse_fixed};
use crate::dto::{BidAsk, OrderbookSnapshot, WsOrderbookUpdateData};
use crate::side::{
    apply_levels, apply_levels_side, build_side, lemma_apply_levels_wf, side_wf, snapshot_side,
    Level,
};

verus! {

/// Depth kept per side unless another is asked for.
pub const DEFAULT_DEPTH: usize = 5;

/// A price or quantity on the wire was no plain decimal numeral that fits.
#[derive(Clone, Copy, Debug, PartialEq, Eq, Structural)]
pub struct NumericParseError;

/// The level that a wire level stands for, where both of its numbers read.
pub open spec fn parse_level(b: BidAsk) -> Option<Level> {
    match (fixed_of_text(b.price@), fixed_of_text(b.quantity@)) {
        (Some(p), Some(q)) => Some(Level { price: p, quantity: q }),
        _ => None,
    }
}

/// The levels that a list of wire levels stands for, where every one reads.
pub open spec fn parse_levels(bs: Seq<BidAsk>) -> Option<Seq<Level>>
    decreases bs.len(),
{
    if bs.len() == 0 {
        Some(Seq::empty())
    } else {
        match (parse_levels(bs.drop_last()), parse_level(bs.last())) {
            (Some(ls), Some(l)) => Some(ls.push(l)),
            _ => None,
        }
    }
}

/// What a book holds, as values.
pub ghost struct BookView {
    pub bids: Seq<Level>,
    pub asks: Seq<Level>,
    pub last_ts: u64,
    pub depth: nat,
}

impl BookView {
    /// Both sides sorted best first, one level per price, at most `depth` levels.
    pub open spec fn wf(self) -> bool {
        side_wf(self.bids, true, self.depth) && side_wf(self.asks, false, self.depth)
    }

    /// The book after a snapshot with these levels and this stamp.
    pub open spec fn with_snapshot(self, bids: Seq<Level>, asks: Seq<Level>, ts: u64) -> BookView {
        BookView {
            bids: snapshot_side(bids, true, self.depth),
            asks: snapshot_side(asks, false, self.depth),
            last_ts: ts,
            depth: self.depth,
        }
    }

    /// The book after a delta with these levels and this stamp.
    pub open spec fn with_delta(self, bids: Seq<Level>, asks: Seq<Level>, ts: u64) -> BookView {
        BookView {
            bids: apply_levels(self.bids, bids, true, self.depth),
            asks: apply_levels(self.asks, asks, false, self.depth),
            last_ts: ts,
            depth: self.depth,
        }
    }
}

/// The replica: bids best (highest) first, asks best (lowest) first.
pub struct Orderbook {
    bids: Vec<Level>,
    asks: Vec<Level>,
    last_ts: u64,
    depth: usize,
}

impl View for Orderbook {
    type V = BookView;

    closed spec fn view(&self) -> BookView {
        BookView {
            bids: self.bids@,
            asks: self.asks@,
            last_ts: self.last_ts,
            depth: self.depth as nat,
        }
    }
}

/// Reads every wire level of a list, or fails on the first that does not read.
pub fn parse_side(bs: &Vec<BidAsk>) -> (r: Result<Vec<Level>, NumericParseError>)
    ensures
        match r {
            Ok(ls) => parse_levels(bs@) == Some(ls@),
            Err(_) => parse_levels(bs@) is None,
        },
{
    let mut out: Vec<Level> = Vec::new();
    let mut i: usize = 0;
    while i < bs.len()
        invariant
            i <= bs@.len(),
            parse_levels(bs@.take(i as int)) == Some(out@),
        decreases bs@.len() - i,
    {
        assert(bs@.take(i + 1).drop_last() =~= bs@.take(i as int));
        let b = &bs[i];
        let p = parse_fixed(b.price.as_str());
        let q = parse_fixed(b.quantity.as_str());
        match (p, q) {
            (Some(price), Some(quantity)) => {
                out.push(Level { price, quantity });
            },
            _ => {
                proof {
                    lemma_parse_levels_prefix_none(bs@, i as int + 1);
                }
                return Err(NumericParseError);
            },
        }
        i = i + 1;
    }
    assert(bs@.take(i as int) =~= bs@);
    Ok(out)
}

/// Where a prefix of a list does not read, neither does the list.
proof fn lemma_parse_levels_prefix_none(bs: Seq<BidAsk>, j: int)
    requires
        0 <= j <= bs.len(),
        parse_levels(bs.take(j)) is None,
    ensures
        parse_levels(bs) is None,
    decreases bs.len(),
{
    if j < bs.len() {
        assert(bs.drop_last().take(j) =~= bs.take(j));
        lemma_parse_levels_prefix_none(bs.drop_last(), j);
    } else {
        assert(bs.take(j) =~= bs);
    }
}

impl Orderbook {
    /// The book's invariant: both sides valid for its depth.
    pub closed spec fn wf(&self) -> bool {
        self@.wf()
    }

    /// An empty book of depth `DEFAULT_DEPTH`, stamped 0.
    pub fn new() -> (r: Self)
        ensures
            r.wf(),
            r@ == (BookView {
                bids: Seq::empty(),
                asks: Seq::empty(),
                last_ts: 0,
                depth: DEFAULT_DEPTH as nat,
            }),
    {
        Self::with_depth(DEFAULT_DEPTH)
    }

    /// An empty book that keeps at most `depth` levels per side, stamped 0.
    pub fn with_depth(depth: usize) -> (r: Self)
        ensures
            r.wf(),
            r@ == (BookView { bids: Seq::empty(), asks: Seq::empty(), last_ts: 0, depth: depth as nat }),
    {
        let r = Orderbook { bids: Vec::new(), asks: Vec::new(), last_ts: 0, depth };
        assert(r@.bids =~= Seq::empty());
        r
    }

    /// The stamp of the last snapshot or delta merged.
    pub fn last_ts(&self) -> (r: u64)
        ensures
            r == self@.last_ts,
    {
        self.last_ts
    }

    /// The most levels kept per side.
    pub fn depth(&self) -> (r: usize)
        ensures
            r as nat == self@.depth,
    {
        self.depth
    }

    /// The bids, best (highest price) first.
    pub fn bids(&self) -> (r: &Vec<Level>)
        ensures
            r@ == self@.bids,
    {
        &self.bids
    }

    /// The asks, best (lowest price) first.
    pub fn asks(&self) -> (r: &Vec<Level>)
        ensures
            r@ == self@.asks,
    {
        &self.asks
    }

    /// Replaces the whole book with a snapshot: each side sorted, one level per
    /// price, cut to the depth, and the stamp set to the snapshot's. Where a
    /// number of the snapshot does not read, the book is left as it was.
    pub fn apply_snapshot(&mut self, snapshot: &OrderbookSnapshot) -> (r: Result<(), NumericParseError>)
        requires
            old(self).wf(),
        ensures
            final(self).wf(),
            match (parse_levels(snapshot.data.bids@), parse_levels(snapshot.data.asks@)) {
                (Some(bids), Some(asks)) => r is Ok && final(self)@ == old(self)@.with_snapshot(
                    bids,
                    asks,
                    snapshot.timestamp,
                ),
                _ => r is Err && final(self)@ == old(self)@,
            },
    {
        let bids = match parse_side(&snapshot.data.bids) {
            Ok(v) => v,
            Err(e) => return Err(e),
        };
        let asks = match parse_side(&snapshot.data.asks) {
            Ok(v) => v,
            Err(e) => return Err(e),
        };
        self.bids = build_side(&bids, true, self.depth);
        self.asks = build_side(&asks, false, self.depth);
        self.last_ts = snapshot.timestamp;
        Ok(())
    }

    /// Merges a delta into the book, level by level (bids, then asks), and sets
    /// the stamp to the delta's. It does not look at `prev_ts`: whether the delta
    /// follows on from the book is the caller's decision. Where a number of the
    /// delta does not read, the book is left as it was.
    pub fn update(&mut self, update: &WsOrderbookUpdateData) -> (r: Result<(), NumericParseError>)
        requires
            old(self).wf(),
        ensures
            final(self).wf(),
            match (parse_levels(update.bids@), parse_levels(update.asks@)) {
                (Some(bids), Some(asks)) => r is Ok && final(self)@ == old(self)@.with_delta(
                    bids,
                    asks,
                    update.ts,
                ),
                _ => r is Err && final(self)@ == old(self)@,
            },
    {
        let bids = match parse_side(&update.bids) {
            Ok(v) => v,
            Err(e) => return Err(e),
        };
        let asks = match parse_side(&update.asks) {
            Ok(v) => v,
            Err(e) => return Err(e),
        };
        let depth = self.depth;
        apply_levels_side(&mut self.bids, &bids, true, depth);
        apply_levels_side(&mut self.asks, &asks, false, depth);
        self.last_ts = update.ts;
        Ok(())
    }
}

/// The book after a run of deltas, each given as its bid levels, ask levels and
/// stamp, merged in order.
pub open spec fn apply_deltas(b: BookView, ds: Seq<(Seq<Level>, Seq<Level>, u64)>) -> BookView
    decreases ds.len(),
{
    if ds.len() == 0 {
        b
    } else {
        let d = ds.last();
        apply_deltas(b, ds.drop_last()).with_delta(d.0, d.1, d.2)
    }
}

/// However many deltas are merged, in order, into a valid book, both sides stay
/// sorted best first (bids strictly descending, asks strictly ascending), hold
/// one level per price, and keep at most `depth` levels.
pub proof fn lemma_deltas_keep_book_valid(b: BookView, ds: Seq<(Seq<Level>, Seq<Level>, u64)>)
    requires
        b.wf(),
    ensures
        apply_deltas(b, ds).wf(),
        apply_deltas(b, ds).depth == b.depth,
    decreases ds.len(),
{
    if ds.len() > 0 {
        lemma_deltas_keep_book_valid(b, ds.drop_last());
        let prev = apply_deltas(b, ds.drop_last());
        let d = ds.last();
        lemma_apply_levels_wf(prev.bids, d.0, true, prev.depth);
        lemma_apply_levels_wf(prev.asks, d.1, false, prev.depth);
    }
}

/// A snapshot replaces the book whole: the result does not depend on what the
/// book held before (only on its depth), and merging the same snapshot a second
/// time changes nothing.
pub proof fn lemma_snapshot_replaces(
    b1: BookView,
    b2: BookView,
    bids: Seq<Level>,
    asks: Seq<Level>,
    ts: u64,
)
    requires
        b1.depth == b2.depth,
    ensures
        b1.with_snapshot(bids, asks, ts) == b2.with_snapshot(bids, asks, ts),
        b1.with_snapshot(bids, asks, ts).with_snapshot(bids, asks, ts) == b1.with_snapshot(
            bids,
            asks,
            ts,
        ),
{
}

} // verus!
