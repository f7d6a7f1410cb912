//! The reconciliation rule: for each streamed delta, whether the book follows on
//! from it, has missed deltas and must be rebuilt from a snapshot, or has already
//! moved past it.
use vstd::prelude::*;
use crate::dto::WsOrderbookUpdateData;
use crate::orderbook::{parse_levels, BookView, NumericParseError, Orderbook};
use crate::side::Level;

verus! {

/// What to do with a streamed delta.
#[derive(Clone, Copy, Debug, PartialEq, Eq, Structural)]
pub enum SyncAction {
    /// The delta follows on from the book: merge it.
    Apply,
    /// Deltas were missed: drop this one and rebuild the book from a fresh snapshot.
    Resync,
    /// The book has moved past this delta: drop it.
    Discard,
}

/// The action for a delta that follows the stamp `prev_ts`, on a book stamped `last_ts`.
pub open spec fn sync_action(last_ts: u64, prev_ts: u64) -> SyncAction {
    if last_ts == prev_ts {
        SyncAction::Apply
    } else if last_ts < prev_ts {
        SyncAction::Resync
    } else {
        SyncAction::Discard
    }
}

/// The book after a delta has been handled: merged where it follows on from the
/// book, otherwise unchanged.
pub open spec fn on_delta(b: BookView, prev_ts: u64, bids: Seq<Level>, asks: Seq<Level>, ts: u64) -> BookView {
    if sync_action(b.last_ts, prev_ts) == SyncAction::Apply {
        b.with_delta(bids, asks, ts)
    } else {
        b
    }
}

/// Compares the book's stamp with the stamp a delta follows.
pub fn decide_sync(last_ts: u64, prev_ts: u64) -> (r: SyncAction)
    ensures
        r == sync_action(last_ts, prev_ts),
{
    if last_ts == prev_ts {
        SyncAction::Apply
    } else if last_ts < prev_ts {
        SyncAction::Resync
    } else {
        SyncAction::Discard
    }
}

impl Orderbook {
    /// Handles one streamed delta: merges it where it follows on from the book and
    /// otherwise leaves the book as it is. The action returned tells the caller
    /// whether a fresh snapshot is owed (`Resync`). A delta that should be merged
    /// but whose numbers do not read leaves the book unchanged and gives `Err`.
    pub fn sync_update(&mut self, update: &WsOrderbookUpdateData) -> (r: Result<SyncAction, NumericParseError>)
        requires
            old(self).wf(),
        ensures
            final(self).wf(),
            sync_action(old(self)@.last_ts, update.prev_ts) != SyncAction::Apply ==> r == Ok::<
                SyncAction,
                NumericParseError,
            >(sync_action(old(self)@.last_ts, update.prev_ts)) && final(self)@ == old(self)@,
            sync_action(old(self)@.last_ts, update.prev_ts) == SyncAction::Apply ==> match (
                parse_levels(update.bids@),
                parse_levels(update.asks@),
            ) {
                (Some(bids), Some(asks)) => r == Ok::<SyncAction, NumericParseError>(
                    SyncAction::Apply,
                ) && final(self)@ == on_delta(old(self)@, update.prev_ts, bids, asks, update.ts),
                _ => r is Err && final(self)@ == old(self)@,
            },
    {
        let action = decide_sync(self.last_ts(), update.prev_ts);
        match action {
            SyncAction::Apply => match self.update(update) {
                Ok(()) => Ok(SyncAction::Apply),
                Err(e) => Err(e),
            },
            _ => Ok(action),
        }
    }
}

/// Gap rule: a delta that follows a stamp later than the book's calls for a
/// fresh snapshot, and none of its levels reach the book.
pub proof fn lemma_gap_rule(b: BookView, prev_ts: u64, bids: Seq<Level>, asks: Seq<Level>, ts: u64)
    requires
        b.last_ts < prev_ts,
    ensures
        sync_action(b.last_ts, prev_ts) == SyncAction::Resync,
        on_delta(b, prev_ts, bids, asks, ts) == b,
{
}

/// Stale rule: a delta that follows a stamp earlier than the book's leaves the
/// book unchanged.
pub proof fn lemma_stale_rule(b: BookView, prev_ts: u64, bids: Seq<Level>, asks: Seq<Level>, ts: u64)
    requires
        prev_ts < b.last_ts,
    ensures
        sync_action(b.last_ts, prev_ts) == SyncAction::Discard,
        on_delta(b, prev_ts, bids, asks, ts) == b,
{
}

} // verus!
