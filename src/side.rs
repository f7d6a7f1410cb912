//! One side of the book: price levels kept sorted from best to worst, one level
//! per price, and the operations that merge changes into it.
use vstd::prelude::*;

verus! {

/// A resting price level; price and quantity are fixed-point values
/// (see `decimal::SCALE_DIGITS`).
#[derive(Clone, Copy, Debug, PartialEq, Eq, Structural)]
pub struct Level {
    pub price: u64,
    pub quantity: u64,
}

/// Whether price `a` ranks ahead of price `b`: higher for bids, lower for asks.
pub open spec fn better(a: u64, b: u64, is_bid: bool) -> bool {
    if is_bid {
        a > b
    } else {
        a < b
    }
}

/// Each level ranks strictly ahead of every later one, so prices are unique.
pub open spec fn side_sorted(s: Seq<Level>, is_bid: bool) -> bool {
    forall|i: int, j: int| 0 <= i < j < s.len() ==> better(#[trigger] s[i].price, #[trigger] s[j].price, is_bid)
}

/// A valid side of a book of depth `depth`.
pub open spec fn side_wf(s: Seq<Level>, is_bid: bool, depth: nat) -> bool {
    side_sorted(s, is_bid) && s.len() <= depth
}

pub open spec fn has_price_at(s: Seq<Level>, price: u64, i: int) -> bool {
    0 <= i < s.len() && s[i].price == price
}

/// `k` is where a level at `price` belongs: after every level that ranks ahead
/// of it and before all others.
pub open spec fn slot_at(s: Seq<Level>, price: u64, is_bid: bool, k: int) -> bool {
    &&& 0 <= k <= s.len()
    &&& forall|j: int| 0 <= j < k ==> better(#[trigger] s[j].price, price, is_bid)
    &&& forall|j: int| k <= j < s.len() ==> !better(#[trigger] s[j].price, price, is_bid)
}

/// Merges one level into a side: quantity zero removes the level at that price
/// (if any); otherwise the level at that price takes the new quantity, or the
/// level is inserted in rank order.
pub open spec fn upsert(s: Seq<Level>, l: Level, is_bid: bool) -> Seq<Level> {
    if exists|i: int| has_price_at(s, l.price, i) {
        let i = choose|i: int| has_price_at(s, l.price, i);
        if l.quantity == 0 {
            s.remove(i)
        } else {
            s.update(i, l)
        }
    } else if l.quantity == 0 {
        s
    } else {
        let k = choose|k: int| slot_at(s, l.price, is_bid, k);
        s.insert(k, l)
    }
}

/// The best `depth` levels of a side.
pub open spec fn cap(s: Seq<Level>, depth: nat) -> Seq<Level> {
    if s.len() > depth {
        s.take(depth as int)
    } else {
        s
    }
}

/// One level of a delta merged into a side of depth `depth`.
pub open spec fn apply_level(s: Seq<Level>, l: Level, is_bid: bool, depth: nat) -> Seq<Level> {
    cap(upsert(s, l, is_bid), depth)
}

/// The levels of a delta merged into a side one after the other.
pub open spec fn apply_levels(s: Seq<Level>, ls: Seq<Level>, is_bid: bool, depth: nat) -> Seq<
    Level,
>
    decreases ls.len(),
{
    if ls.len() == 0 {
        s
    } else {
        apply_level(apply_levels(s, ls.drop_last(), is_bid, depth), ls.last(), is_bid, depth)
    }
}

/// The levels of a snapshot merged, without a bound, into an empty side.
pub open spec fn upsert_all(ls: Seq<Level>, is_bid: bool) -> Seq<Level>
    decreases ls.len(),
{
    if ls.len() == 0 {
        Seq::empty()
    } else {
        upsert(upsert_all(ls.drop_last(), is_bid), ls.last(), is_bid)
    }
}

/// The side that a snapshot's levels give: sorted by rank, one level per price
/// (a later level for a price overrides an earlier one, quantity zero leaves none),
/// and cut to the best `depth`.
pub open spec fn snapshot_side(ls: Seq<Level>, is_bid: bool, depth: nat) -> Seq<Level> {
    cap(upsert_all(ls, is_bid), depth)
}

pub fn is_better(a: u64, b: u64, is_bid: bool) -> (r: bool)
    ensures
        r == better(a, b, is_bid),
{
    if is_bid {
        a > b
    } else {
        a < b
    }
}

/// Finds the level at `price` by a linear scan (sides are a few levels deep).
fn find_price(v: &Vec<Level>, price: u64) -> (r: Option<usize>)
    ensures
        match r {
            Some(i) => has_price_at(v@, price, i as int),
            None => forall|i: int| !has_price_at(v@, price, i),
        },
{
    let mut i: usize = 0;
    while i < v.len()
        invariant
            i <= v@.len(),
            forall|j: int| 0 <= j < i ==> v@[j].price != price,
        decreases v@.len() - i,
    {
        if v[i].price == price {
            return Some(i);
        }
        i = i + 1;
    }
    None
}

/// Finds where a level at `price` belongs in a sorted side.
fn find_slot(v: &Vec<Level>, price: u64, is_bid: bool) -> (k: usize)
    requires
        side_sorted(v@, is_bid),
    ensures
        slot_at(v@, price, is_bid, k as int),
{
    let mut k: usize = 0;
    while k < v.len() && is_better(v[k].price, price, is_bid)
        invariant
            k <= v@.len(),
            forall|j: int| 0 <= j < k ==> better(#[trigger] v@[j].price, price, is_bid),
        decreases v@.len() - k,
    {
        k = k + 1;
    }
    proof {
        if k < v@.len() {
            assert forall|j: int| k <= j < v@.len() implies !better(
                #[trigger] v@[j].price,
                price,
                is_bid,
            ) by {
                if j > k {
                    assert(better(v@[k as int].price, v@[j].price, is_bid));
                }
            }
        }
    }
    k
}

proof fn lemma_price_unique(s: Seq<Level>, is_bid: bool, price: u64, i: int)
    requires
        side_sorted(s, is_bid),
        has_price_at(s, price, i),
    ensures
        (choose|j: int| has_price_at(s, price, j)) == i,
{
    let j = choose|j: int| has_price_at(s, price, j);
    if j < i {
        assert(better(s[j].price, s[i].price, is_bid));
    } else if j > i {
        assert(better(s[i].price, s[j].price, is_bid));
    }
}

proof fn lemma_slot_unique(s: Seq<Level>, is_bid: bool, price: u64, k: int)
    requires
        slot_at(s, price, is_bid, k),
    ensures
        (choose|j: int| slot_at(s, price, is_bid, j)) == k,
{
    let j = choose|j: int| slot_at(s, price, is_bid, j);
    if j < k {
        assert(better(s[j].price, price, is_bid));
    } else if j > k {
        assert(better(s[k].price, price, is_bid));
    }
}

/// Merging one level keeps a side sorted.
pub proof fn lemma_upsert_sorted(s: Seq<Level>, l: Level, is_bid: bool)
    requires
        side_sorted(s, is_bid),
    ensures
        side_sorted(upsert(s, l, is_bid), is_bid),
        upsert(s, l, is_bid).len() <= s.len() + 1,
        upsert(s, l, is_bid).len() <= s.len() || !(exists|i: int| has_price_at(s, l.price, i)),
{
    let r = upsert(s, l, is_bid);
    if exists|i: int| has_price_at(s, l.price, i) {
        let i = choose|i: int| has_price_at(s, l.price, i);
        if l.quantity == 0 {
            assert forall|a: int, b: int| 0 <= a < b < r.len() implies better(
                #[trigger] r[a].price,
                #[trigger] r[b].price,
                is_bid,
            ) by {
                let a2 = if a < i { a } else { a + 1 };
                let b2 = if b < i { b } else { b + 1 };
                assert(r[a] == s[a2] && r[b] == s[b2]);
                assert(better(s[a2].price, s[b2].price, is_bid));
            }
        } else {
            assert forall|a: int, b: int| 0 <= a < b < r.len() implies better(
                #[trigger] r[a].price,
                #[trigger] r[b].price,
                is_bid,
            ) by {
                assert(r[a].price == s[a].price && r[b].price == s[b].price);
                assert(better(s[a].price, s[b].price, is_bid));
            }
        }
    } else if l.quantity != 0 {
        lemma_slot_exists(s, l.price, is_bid);
        let k = choose|k: int| slot_at(s, l.price, is_bid, k);
        assert forall|a: int, b: int| 0 <= a < b < r.len() implies better(
            #[trigger] r[a].price,
            #[trigger] r[b].price,
            is_bid,
        ) by {
            if a < k && b < k {
                assert(better(s[a].price, s[b].price, is_bid));
            } else if a < k && b == k {
                assert(better(s[a].price, l.price, is_bid));
            } else if a < k {
                assert(better(s[a].price, s[b - 1].price, is_bid));
            } else if a == k {
                assert(!better(s[b - 1].price, l.price, is_bid));
                assert(!has_price_at(s, l.price, b - 1));
            } else {
                assert(better(s[a - 1].price, s[b - 1].price, is_bid));
            }
        }
    }
}

/// A sorted side always has a slot for any price.
proof fn lemma_slot_exists(s: Seq<Level>, price: u64, is_bid: bool)
    requires
        side_sorted(s, is_bid),
    ensures
        exists|k: int| slot_at(s, price, is_bid, k),
    decreases s.len(),
{
    if s.len() == 0 {
        assert(slot_at(s, price, is_bid, 0));
    } else {
        let t = s.drop_last();
        let n = t.len() as int;
        assert(side_sorted(t, is_bid)) by {
            assert forall|a: int, b: int| 0 <= a < b < t.len() implies better(
                #[trigger] t[a].price,
                #[trigger] t[b].price,
                is_bid,
            ) by {
                assert(better(s[a].price, s[b].price, is_bid));
            }
        }
        lemma_slot_exists(t, price, is_bid);
        let k = choose|k: int| slot_at(t, price, is_bid, k);
        assert forall|j: int| 0 <= j < n implies #[trigger] t[j] == s[j] by {}
        if k < n {
            assert(better(s[k].price, s[n].price, is_bid));
            assert forall|j: int| k <= j < s.len() implies !better(
                #[trigger] s[j].price,
                price,
                is_bid,
            ) by {
                assert(t[k] == s[k]);
                assert(!better(t[k].price, price, is_bid));
                if j < n {
                    assert(t[j] == s[j]);
                    assert(!better(t[j].price, price, is_bid));
                }
            }
            assert forall|j: int| 0 <= j < k implies better(#[trigger] s[j].price, price, is_bid) by {
                assert(t[j] == s[j]);
                assert(better(t[j].price, price, is_bid));
            }
            assert(slot_at(s, price, is_bid, k));
        } else if better(s[n].price, price, is_bid) {
            assert(slot_at(s, price, is_bid, n + 1));
        } else {
            assert forall|j: int| 0 <= j < n implies better(#[trigger] s[j].price, price, is_bid) by {
                assert(t[j] == s[j]);
                assert(better(t[j].price, price, is_bid));
            }
            assert(slot_at(s, price, is_bid, n));
        }
    }
}

/// Cutting a sorted side to its best levels keeps it sorted.
pub proof fn lemma_cap_sorted(s: Seq<Level>, is_bid: bool, depth: nat)
    requires
        side_sorted(s, is_bid),
    ensures
        side_sorted(cap(s, depth), is_bid),
        cap(s, depth).len() <= depth || cap(s, depth) == s,
        cap(s, depth).len() <= s.len(),
{
    if s.len() > depth {
        let t = s.take(depth as int);
        assert forall|a: int, b: int| 0 <= a < b < t.len() implies better(
            #[trigger] t[a].price,
            #[trigger] t[b].price,
            is_bid,
        ) by {
            assert(better(s[a].price, s[b].price, is_bid));
        }
    }
}

/// Merging one level into a valid side gives a valid side.
pub proof fn lemma_apply_level_wf(s: Seq<Level>, l: Level, is_bid: bool, depth: nat)
    requires
        side_wf(s, is_bid, depth),
    ensures
        side_wf(apply_level(s, l, is_bid, depth), is_bid, depth),
{
    lemma_upsert_sorted(s, l, is_bid);
    lemma_cap_sorted(upsert(s, l, is_bid), is_bid, depth);
}

/// Merges one level into a sorted side, without a bound on its length.
fn upsert_side(v: &mut Vec<Level>, l: Level, is_bid: bool)
    requires
        side_sorted(old(v)@, is_bid),
    ensures
        final(v)@ == upsert(old(v)@, l, is_bid),
        side_sorted(final(v)@, is_bid),
{
    proof {
        lemma_upsert_sorted(v@, l, is_bid);
    }
    match find_price(v, l.price) {
        Some(i) => {
            proof {
                lemma_price_unique(v@, is_bid, l.price, i as int);
            }
            if l.quantity == 0 {
                v.remove(i);
            } else {
                v.set(i, l);
            }
        },
        None => {
            if l.quantity != 0 {
                let k = find_slot(v, l.price, is_bid);
                proof {
                    lemma_slot_unique(v@, is_bid, l.price, k as int);
                }
                v.insert(k, l);
            }
        },
    }
}

/// Merges one level of a delta into a valid side of depth `depth`.
pub fn apply_level_side(v: &mut Vec<Level>, l: Level, is_bid: bool, depth: usize)
    requires
        side_wf(old(v)@, is_bid, depth as nat),
    ensures
        final(v)@ == apply_level(old(v)@, l, is_bid, depth as nat),
        side_wf(final(v)@, is_bid, depth as nat),
{
    proof {
        lemma_apply_level_wf(v@, l, is_bid, depth as nat);
    }
    upsert_side(v, l, is_bid);
    v.truncate(depth);
    assert(v@ =~= apply_level(old(v)@, l, is_bid, depth as nat));
}

/// Merges the levels of a delta, in order, into a valid side of depth `depth`.
pub fn apply_levels_side(v: &mut Vec<Level>, ls: &Vec<Level>, is_bid: bool, depth: usize)
    requires
        side_wf(old(v)@, is_bid, depth as nat),
    ensures
        final(v)@ == apply_levels(old(v)@, ls@, is_bid, depth as nat),
        side_wf(final(v)@, is_bid, depth as nat),
{
    let ghost start = v@;
    let mut i: usize = 0;
    while i < ls.len()
        invariant
            i <= ls@.len(),
            v@ == apply_levels(start, ls@.take(i as int), is_bid, depth as nat),
            side_wf(v@, is_bid, depth as nat),
        decreases ls@.len() - i,
    {
        assert(ls@.take(i + 1).drop_last() =~= ls@.take(i as int));
        apply_level_side(v, ls[i], is_bid, depth);
        i = i + 1;
    }
    assert(ls@.take(i as int) =~= ls@);
}

/// Builds the side that a snapshot's levels give (see `snapshot_side`).
pub fn build_side(ls: &Vec<Level>, is_bid: bool, depth: usize) -> (r: Vec<Level>)
    ensures
        r@ == snapshot_side(ls@, is_bid, depth as nat),
        side_wf(r@, is_bid, depth as nat),
{
    let mut v: Vec<Level> = Vec::new();
    let mut i: usize = 0;
    while i < ls.len()
        invariant
            i <= ls@.len(),
            v@ == upsert_all(ls@.take(i as int), is_bid),
            side_sorted(v@, is_bid),
        decreases ls@.len() - i,
    {
        assert(ls@.take(i + 1).drop_last() =~= ls@.take(i as int));
        upsert_side(&mut v, ls[i], is_bid);
        i = i + 1;
    }
    assert(ls@.take(i as int) =~= ls@);
    proof {
        lemma_cap_sorted(v@, is_bid, depth as nat);
    }
    v.truncate(depth);
    v
}

/// Merging any levels, one after the other, into a valid side gives a valid side.
pub proof fn lemma_apply_levels_wf(s: Seq<Level>, ls: Seq<Level>, is_bid: bool, depth: nat)
    requires
        side_wf(s, is_bid, depth),
    ensures
        side_wf(apply_levels(s, ls, is_bid, depth), is_bid, depth),
    decreases ls.len(),
{
    if ls.len() > 0 {
        lemma_apply_levels_wf(s, ls.drop_last(), is_bid, depth);
        lemma_apply_level_wf(apply_levels(s, ls.drop_last(), is_bid, depth), ls.last(), is_bid, depth);
    }
}

/// A level of quantity zero removes the level at its price from a valid side,
/// and only that level; at a price the side does not hold it changes nothing.
pub proof fn lemma_zero_quantity_removes(s: Seq<Level>, price: u64, is_bid: bool, depth: nat)
    requires
        side_wf(s, is_bid, depth),
    ensures
        forall|i: int|
            has_price_at(s, price, i) ==> #[trigger] apply_level(
                s,
                Level { price, quantity: 0 },
                is_bid,
                depth,
            ) == s.remove(i),
        (forall|i: int| !has_price_at(s, price, i)) ==> apply_level(
            s,
            Level { price, quantity: 0 },
            is_bid,
            depth,
        ) == s,
{
    assert forall|i: int| has_price_at(s, price, i) implies #[trigger] apply_level(
        s,
        Level { price, quantity: 0 },
        is_bid,
        depth,
    ) == s.remove(i) by {
        lemma_price_unique(s, is_bid, price, i);
        let l = Level { price, quantity: 0 };
        assert(l.price == price);
        assert(exists|j: int| has_price_at(s, l.price, j));
        assert(upsert(s, l, is_bid) == s.remove(i));
        assert(s.remove(i).len() <= depth);
    }
}

} // verus!
