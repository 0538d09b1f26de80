//! Order-book reconstruction from a snapshot plus an incremental diff feed.
//!
//! Each side holds at most one level per price and never a level of
//! quantity zero. A delta update `(price, 0)` removes the level, a nonzero
//! quantity overwrites or inserts it. Before a batch of bid updates is
//! merged, any update priced below the least resting bid is discarded, and
//! symmetrically an ask update above the greatest resting ask; a side that
//! is empty therefore admits no update until the next snapshot. This bounds
//! the visible book to the range the snapshot covered; it is kept here as a
//! deliberate design choice, stated exactly by `admits`, so that a widening
//! book must arrive through `apply_snapshot`.

use vstd::prelude::*;

use crate::bucket::{group_pairs, groups_exactly};

verus! {

/// One resting level: an absolute quantity at a price, both fixed-point.
#[derive(Clone, Copy, Debug, PartialEq, Eq, Structural)]
pub struct Order {
    pub price: u64,
    pub quantity: u64,
}

/// True when some level of `s` has price `p`.
pub open spec fn has_price(s: Seq<Order>, p: u64) -> bool {
    exists|i: int| 0 <= i < s.len() && s[i].price == p
}

/// A well-formed side: at most one level per price, no zero quantities.
pub open spec fn wf_side(s: Seq<Order>) -> bool {
    &&& forall|i: int, j: int|
        0 <= i < j < s.len() ==> (#[trigger] s[i].price) != (#[trigger] s[j].price)
    &&& forall|i: int| 0 <= i < s.len() ==> (#[trigger] s[i].quantity) > 0
}

/// The mapping from price to resting quantity that a side represents.
pub open spec fn side_map(s: Seq<Order>) -> Map<u64, u64>
    decreases s.len(),
{
    if s.len() == 0 {
        Map::empty()
    } else {
        side_map(s.drop_last()).insert(s.last().price, s.last().quantity)
    }
}

/// What one delta update does to a side: quantity zero removes the price,
/// a nonzero quantity overwrites or inserts it.
pub open spec fn merge_map(m: Map<u64, u64>, u: (u64, u64)) -> Map<u64, u64> {
    if u.1 == 0 {
        m.remove(u.0)
    } else {
        m.insert(u.0, u.1)
    }
}

/// A batch of updates applied in arrival order.
pub open spec fn apply_updates_map(m: Map<u64, u64>, ups: Seq<(u64, u64)>) -> Map<u64, u64>
    decreases ups.len(),
{
    if ups.len() == 0 {
        m
    } else {
        merge_map(apply_updates_map(m, ups.drop_last()), ups.last())
    }
}

/// Whether a side whose levels are `s` admits an update at price `p`:
/// a bid no lower than the least resting bid, an ask no higher than the
/// greatest resting ask. An empty side admits nothing.
pub open spec fn admits(s: Seq<Order>, p: u64, is_bid: bool) -> bool {
    if is_bid {
        exists|i: int| 0 <= i < s.len() && (#[trigger] s[i].price) <= p
    } else {
        exists|i: int| 0 <= i < s.len() && (#[trigger] s[i].price) >= p
    }
}

/// The subsequence of a batch that the side admits, judged against the
/// levels resting before the batch, in arrival order.
pub open spec fn admitted(s: Seq<Order>, ups: Seq<(u64, u64)>, is_bid: bool) -> Seq<(u64, u64)>
    decreases ups.len(),
{
    if ups.len() == 0 {
        Seq::empty()
    } else {
        let rest = admitted(s, ups.drop_last(), is_bid);
        if admits(s, ups.last().0, is_bid) {
            rest.push(ups.last())
        } else {
            rest
        }
    }
}

/// Replacing the quantity at an occupied price updates the side's mapping.
proof fn lemma_side_map_update(s: Seq<Order>, i: int, q: u64)
    requires
        wf_side(s),
        0 <= i < s.len(),
    ensures
        side_map(s.update(i, Order { price: s[i].price, quantity: q })) == side_map(s).insert(
            s[i].price,
            q,
        ),
    decreases s.len(),
{
    let p = s[i].price;
    let t = s.update(i, Order { price: p, quantity: q });
    if i == s.len() - 1 {
        assert(t.drop_last() =~= s.drop_last());
        assert(side_map(t) == side_map(s.drop_last()).insert(p, q));
        assert(side_map(s.drop_last()).insert(p, s.last().quantity).insert(p, q) =~= side_map(
            s.drop_last(),
        ).insert(p, q));
    } else {
        assert(wf_side(s.drop_last()));
        assert(s.drop_last()[i] == s[i]);
        lemma_side_map_update(s.drop_last(), i, q);
        assert(t.drop_last() =~= s.drop_last().update(i, Order { price: p, quantity: q }));
        assert(t.last() == s.last());
        assert(s.last().price != p);
        assert(side_map(t) == side_map(s.drop_last()).insert(p, q).insert(
            s.last().price,
            s.last().quantity,
        ));
        assert(side_map(s.drop_last()).insert(p, q).insert(s.last().price, s.last().quantity)
            =~= side_map(s.drop_last()).insert(s.last().price, s.last().quantity).insert(p, q));
    }
}

/// Merges one admitted update into a side, preserving well-formedness.
fn merge_update(levels: &mut Vec<Order>, p: u64, q: u64)
    requires
        wf_side(old(levels)@),
    ensures
        wf_side(final(levels)@),
        side_map(final(levels)@) == merge_map(side_map(old(levels)@), (p, q)),
        forall|r: u64| has_price(final(levels)@, r) ==> has_price(old(levels)@, r) || r == p,
{
    if q == 0 {
        let mut out: Vec<Order> = Vec::new();
        let n = levels.len();
        let mut i: usize = 0;
        while i < n
            invariant
                0 <= i <= n == levels@.len(),
                wf_side(levels@),
                wf_side(out@),
                side_map(out@) == side_map(levels@.take(i as int)).remove(p),
                forall|r: u64| has_price(out@, r) ==> has_price(levels@.take(i as int), r),
                forall|k: int| 0 <= k < out@.len() ==> (#[trigger] out@[k].price) != p,
            decreases n - i,
        {
            let o = levels[i];
            let ghost pre = out@;
            let ghost taken = levels@.take(i as int);
            assert(levels@.take(i + 1).drop_last() =~= taken);
            assert(levels@.take(i + 1).last() == o);
            if o.price != p {
                proof {
                    if has_price(pre, o.price) {
                        let k = choose|k: int|
                            0 <= k < taken.len() && #[trigger] taken[k].price == o.price;
                        assert(taken[k] == levels@[k]);
                        assert(false);
                    }
                }
                out.push(o);
                proof {
                    assert(out@.drop_last() =~= pre);
                    assert(side_map(out@) == side_map(pre).insert(o.price, o.quantity));
                    assert(side_map(taken).remove(p).insert(o.price, o.quantity) =~= side_map(
                        taken,
                    ).insert(o.price, o.quantity).remove(p));
                    assert forall|r: u64| has_price(out@, r) implies has_price(
                        levels@.take(i + 1),
                        r,
                    ) by {
                        let k = choose|k: int|
                            0 <= k < out@.len() && #[trigger] out@[k].price == r;
                        if k < pre.len() {
                            assert(has_price(pre, r));
                            let j = choose|j: int|
                                0 <= j < taken.len() && #[trigger] taken[j].price == r;
                            assert(levels@.take(i + 1)[j].price == r);
                        } else {
                            assert(levels@.take(i + 1)[i as int].price == r);
                        }
                    }
                }
            } else {
                proof {
                    assert(side_map(levels@.take(i + 1)) == side_map(taken).insert(
                        o.price,
                        o.quantity,
                    ));
                    assert(side_map(taken).insert(p, o.quantity).remove(p) =~= side_map(
                        taken,
                    ).remove(p));
                    assert forall|r: u64| has_price(out@, r) implies has_price(
                        levels@.take(i + 1),
                        r,
                    ) by {
                        let j = choose|j: int|
                            0 <= j < taken.len() && #[trigger] taken[j].price == r;
                        assert(levels@.take(i + 1)[j].price == r);
                    }
                }
            }
            i = i + 1;
        }
        assert(levels@.take(n as int) =~= levels@);
        *levels = out;
    } else {
        // Search for an existing level at this price.
        let n = levels.len();
        let mut i: usize = 0;
        while i < n
            invariant
                0 <= i <= n == levels@.len(),
                q != 0,
                levels@ == old(levels)@,
                wf_side(levels@),
                forall|k: int| 0 <= k < i ==> (#[trigger] levels@[k].price) != p,
            decreases n - i,
        {
            if levels[i].price == p {
                let ghost pre = levels@;
                levels.set(i, Order { price: p, quantity: q });
                proof {
                    assert(levels@ =~= pre.update(i as int, Order { price: p, quantity: q }));
                    lemma_side_map_update(pre, i as int, q);
                    assert forall|k: int| 0 <= k < levels@.len() implies (
                    #[trigger] levels@[k].price) == pre[k].price by {
                        if k != i {
                            assert(levels@[k] == pre[k]);
                        }
                    }
                    assert(wf_side(levels@));
                    assert(has_price(pre, p));
                    assert forall|r: u64| has_price(levels@, r) implies has_price(pre, r) || r
                        == p by {
                        let k = choose|k: int|
                            0 <= k < levels@.len() && #[trigger] levels@[k].price == r;
                        assert(pre[k].price == r);
                    }
                }
                return ;
            }
            i = i + 1;
        }
        let ghost pre = levels@;
        levels.push(Order { price: p, quantity: q });
        proof {
            assert(levels@.drop_last() =~= pre);
            assert(side_map(levels@) == side_map(pre).insert(p, q));
            assert forall|r: u64| has_price(levels@, r) implies has_price(pre, r) || r == p by {
                let k = choose|k: int| 0 <= k < levels@.len() && #[trigger] levels@[k].price == r;
                if k < pre.len() {
                    assert(pre[k].price == r);
                }
            }
        }
    }
}

/// A two-sided book rebuilt from a snapshot and kept current by deltas.
#[derive(Debug)]
pub struct PriceLevelBook {
    pub bids: Vec<Order>,
    pub asks: Vec<Order>,
    pub last_update_id: u64,
}

impl PriceLevelBook {
    /// Both sides are well-formed.
    pub open spec fn wf(self) -> bool {
        wf_side(self.bids@) && wf_side(self.asks@)
    }

    /// An empty book.
    pub fn new() -> (r: PriceLevelBook)
        ensures
            r.wf(),
            r.bids@.len() == 0,
            r.asks@.len() == 0,
            r.last_update_id == 0,
    {
        PriceLevelBook { bids: Vec::new(), asks: Vec::new(), last_update_id: 0 }
    }

    /// Replaces both sides wholesale from decoded snapshot rows, applied in
    /// order onto empty sides, and records the snapshot's sequence marker.
    /// A row of quantity zero is dropped rather than stored, so the book
    /// invariant holds of whatever the feed sent.
    pub fn apply_snapshot(&mut self, bids: &Vec<(u64, u64)>, asks: &Vec<(u64, u64)>, sequence_id: u64)
        ensures
            final(self).wf(),
            side_map(final(self).bids@) == apply_updates_map(Map::empty(), bids@),
            side_map(final(self).asks@) == apply_updates_map(Map::empty(), asks@),
            final(self).last_update_id == sequence_id,
    {
        self.bids = Self::build_side(bids);
        self.asks = Self::build_side(asks);
        self.last_update_id = sequence_id;
    }

    fn build_side(rows: &Vec<(u64, u64)>) -> (r: Vec<Order>)
        ensures
            wf_side(r@),
            side_map(r@) == apply_updates_map(Map::empty(), rows@),
    {
        let mut out: Vec<Order> = Vec::new();
        let n = rows.len();
        let mut i: usize = 0;
        while i < n
            invariant
                0 <= i <= n == rows@.len(),
                wf_side(out@),
                side_map(out@) == apply_updates_map(Map::empty(), rows@.take(i as int)),
            decreases n - i,
        {
            let (p, q) = rows[i];
            proof {
                assert(rows@.take(i + 1).drop_last() =~= rows@.take(i as int));
                assert(rows@.take(i + 1).last() == (p, q));
            }
            merge_update(&mut out, p, q);
            i = i + 1;
        }
        assert(rows@.take(n as int) =~= rows@);
        out
    }

    /// Merges one batch of bid updates. Each update the resting side admits
    /// (see `admits`) is applied in arrival order; the rest are discarded.
    pub fn apply_delta_bids(&mut self, ups: &Vec<(u64, u64)>)
        requires
            old(self).wf(),
        ensures
            final(self).wf(),
            side_map(final(self).bids@) == apply_updates_map(
                side_map(old(self).bids@),
                admitted(old(self).bids@, ups@, true),
            ),
            final(self).asks@ == old(self).asks@,
            final(self).last_update_id == old(self).last_update_id,
    {
        apply_side(&mut self.bids, ups, true);
    }

    /// Merges one batch of ask updates, symmetrically to `apply_delta_bids`.
    pub fn apply_delta_asks(&mut self, ups: &Vec<(u64, u64)>)
        requires
            old(self).wf(),
        ensures
            final(self).wf(),
            side_map(final(self).asks@) == apply_updates_map(
                side_map(old(self).asks@),
                admitted(old(self).asks@, ups@, false),
            ),
            final(self).bids@ == old(self).bids@,
            final(self).last_update_id == old(self).last_update_id,
    {
        apply_side(&mut self.asks, ups, false);
    }

    /// A consistent point-in-time copy of both sides: the caller may read it
    /// while the book keeps changing.
    pub fn read(&self) -> (r: (Vec<Order>, Vec<Order>))
        ensures
            r.0@ == self.bids@,
            r.1@ == self.asks@,
    {
        let b = self.bids.clone();
        let a = self.asks.clone();
        assert(b@ =~= self.bids@);
        assert(a@ =~= self.asks@);
        (b, a)
    }
}

/// Applies a batch of updates to one side, discarding what the resting
/// levels do not admit.
fn apply_side(levels: &mut Vec<Order>, ups: &Vec<(u64, u64)>, is_bid: bool)
    requires
        wf_side(old(levels)@),
    ensures
        wf_side(final(levels)@),
        side_map(final(levels)@) == apply_updates_map(
            side_map(old(levels)@),
            admitted(old(levels)@, ups@, is_bid),
        ),
{
    let ghost s0 = levels@;
    // The admission threshold: least bid or greatest ask now resting.
    let n0 = levels.len();
    if n0 == 0 {
        proof {
            lemma_admitted_empty_side(s0, ups@, is_bid);
        }
        return ;
    }
    let mut extreme: u64 = levels[0].price;
    let ghost mut wi: int = 0;
    let mut k: usize = 1;
    while k < n0
        invariant
            1 <= k <= n0 == s0.len(),
            levels@ == s0,
            0 <= wi < k,
            s0[wi].price == extreme,
            forall|j: int|
                0 <= j < k ==> (if is_bid {
                    extreme <= (#[trigger] s0[j].price)
                } else {
                    extreme >= (#[trigger] s0[j].price)
                }),
        decreases n0 - k,
    {
        let pk = levels[k].price;
        if is_bid && pk < extreme {
            extreme = pk;
            proof {
                wi = k as int;
            }
        }
        if !is_bid && pk > extreme {
            extreme = pk;
            proof {
                wi = k as int;
            }
        }
        k = k + 1;
    }
    let n = ups.len();
    let mut i: usize = 0;
    while i < n
        invariant
            0 <= i <= n == ups@.len(),
            wf_side(levels@),
            side_map(levels@) == apply_updates_map(
                side_map(s0),
                admitted(s0, ups@.take(i as int), is_bid),
            ),
            0 <= wi < s0.len(),
            s0[wi].price == extreme,
            forall|j: int|
                0 <= j < s0.len() ==> (if is_bid {
                    extreme <= (#[trigger] s0[j].price)
                } else {
                    extreme >= (#[trigger] s0[j].price)
                }),
        decreases n - i,
    {
        let (p, q) = ups[i];
        let ghost adm = admitted(s0, ups@.take(i as int), is_bid);
        proof {
            assert(ups@.take(i + 1).drop_last() =~= ups@.take(i as int));
            assert(ups@.take(i + 1).last() == (p, q));
            assert(adm.push((p, q)).drop_last() =~= adm);
        }
        let pass = if is_bid {
            p >= extreme
        } else {
            p <= extreme
        };
        proof {
            if pass {
                assert(admits(s0, p, is_bid));
            } else {
                if admits(s0, p, is_bid) {
                    if is_bid {
                        let j = choose|j: int| 0 <= j < s0.len() && (#[trigger] s0[j].price) <= p;
                        assert(false);
                    } else {
                        let j = choose|j: int| 0 <= j < s0.len() && (#[trigger] s0[j].price) >= p;
                        assert(false);
                    }
                }
            }
        }
        if pass {
            merge_update(levels, p, q);
        }
        i = i + 1;
    }
    assert(ups@.take(n as int) =~= ups@);
}

/// The `(price, quantity)` pairs a side's levels stand for.
pub open spec fn order_pairs(s: Seq<Order>) -> Seq<(u64, u64)> {
    s.map_values(|o: Order| (o.price, o.quantity))
}

/// Groups a side's resting levels by price bucket for display. The levels
/// themselves are read, never changed; only the returned view is bucketed.
pub fn group_orders(bucket_size: u64, orders: &Vec<Order>) -> (g: Vec<(u64, u128)>)
    requires
        bucket_size > 0,
    ensures
        groups_exactly(order_pairs(orders@), bucket_size, g@),
{
    let mut pairs: Vec<(u64, u64)> = Vec::new();
    let n = orders.len();
    let mut i: usize = 0;
    while i < n
        invariant
            0 <= i <= n == orders@.len(),
            pairs@ == order_pairs(orders@.take(i as int)),
        decreases n - i,
    {
        let o = orders[i];
        pairs.push((o.price, o.quantity));
        proof {
            assert(order_pairs(orders@.take(i + 1)) =~= order_pairs(orders@.take(i as int)).push(
                (o.price, o.quantity),
            ));
        }
        i = i + 1;
    }
    assert(orders@.take(n as int) =~= orders@);
    group_pairs(&pairs, bucket_size)
}

/// An empty side admits no update, so a whole batch is discarded.
proof fn lemma_admitted_empty_side(s: Seq<Order>, ups: Seq<(u64, u64)>, is_bid: bool)
    requires
        s.len() == 0,
    ensures
        admitted(s, ups, is_bid) =~= Seq::<(u64, u64)>::empty(),
    decreases ups.len(),
{
    if ups.len() > 0 {
        lemma_admitted_empty_side(s, ups.drop_last(), is_bid);
    }
}

/// A zero-quantity update for price `p` leaves the side without `p` and
/// keeps every other price's quantity unchanged.
pub proof fn lemma_zero_quantity_removes(m: Map<u64, u64>, p: u64)
    ensures
        !merge_map(m, (p, 0)).dom().contains(p),
        forall|r: u64|
            r != p ==> (#[trigger] merge_map(m, (p, 0)).dom().contains(r) <==> m.dom().contains(
                r,
            )),
        forall|r: u64|
            r != p && m.dom().contains(r) ==> (#[trigger] merge_map(m, (p, 0))[r]) == m[r],
{
}

/// Re-adding price `p` with quantity `q > 0` after removing it restores the
/// level with exactly `q`, leaving every other price unchanged.
pub proof fn lemma_readd_restores(m: Map<u64, u64>, p: u64, q: u64)
    requires
        q > 0,
    ensures
        merge_map(merge_map(m, (p, 0)), (p, q)).dom().contains(p),
        merge_map(merge_map(m, (p, 0)), (p, q))[p] == q,
        forall|r: u64|
            r != p ==> (#[trigger] merge_map(merge_map(m, (p, 0)), (p, q)).dom().contains(r)
                <==> m.dom().contains(r)),
        forall|r: u64|
            r != p && m.dom().contains(r) ==> (#[trigger] merge_map(merge_map(m, (p, 0)), (p, q))[
                r
            ]) == m[r],
{
}

} // verus!
