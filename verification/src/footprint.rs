//! Per-candle raw-trade storage with price-bucketed views on demand.
//!
//! Each open candle owns two append-only lists of `(price, quantity)`
//! pairs, buyer-initiated and seller-initiated. Bucketing happens only at
//! query time, so the stored pairs keep full precision and the bucket size
//! may change between queries without touching what is stored.

use vstd::prelude::*;

use crate::bucket::{group_pairs, groups_exactly};
use crate::events::Trade;

verus! {

/// The raw trades attached to one candle, split by initiating side.
#[derive(Clone, Debug)]
pub struct TradeGroups {
    pub buy_trades: Vec<(u64, u64)>,
    pub sell_trades: Vec<(u64, u64)>,
}

/// A price-bucketed view of one candle's trades, one total per occupied
/// bucket, keyed by the fixed-point bucket price.
#[derive(Clone, Debug)]
pub struct GroupedTrades {
    pub buys: Vec<(u64, u128)>,
    pub sells: Vec<(u64, u128)>,
}

/// The two raw sides a `TradeGroups` value holds.
pub open spec fn group_view(g: TradeGroups) -> (Seq<(u64, u64)>, Seq<(u64, u64)>) {
    (g.buy_trades@, g.sell_trades@)
}

/// The mapping from candle key to raw trade sides that the storage holds.
pub open spec fn groups_map(s: Seq<(u64, TradeGroups)>) -> Map<u64, (Seq<(u64, u64)>, Seq<
    (u64, u64),
>)>
    decreases s.len(),
{
    if s.len() == 0 {
        Map::empty()
    } else {
        groups_map(s.drop_last()).insert(s.last().0, group_view(s.last().1))
    }
}

/// The sides stored for a candle, or two empty sides when none are.
pub open spec fn group_or_empty(
    m: Map<u64, (Seq<(u64, u64)>, Seq<(u64, u64)>)>,
    key: u64,
) -> (Seq<(u64, u64)>, Seq<(u64, u64)>) {
    if m.dom().contains(key) {
        m[key]
    } else {
        (Seq::empty(), Seq::empty())
    }
}

/// One trade appended to the side it initiated.
pub open spec fn routed_one(
    g: (Seq<(u64, u64)>, Seq<(u64, u64)>),
    t: Trade,
) -> (Seq<(u64, u64)>, Seq<(u64, u64)>) {
    if t.is_seller_initiated {
        (g.0, g.1.push((t.price, t.quantity)))
    } else {
        (g.0.push((t.price, t.quantity)), g.1)
    }
}

/// A whole batch of trades appended in arrival order.
pub open spec fn routed_all(
    g: (Seq<(u64, u64)>, Seq<(u64, u64)>),
    ts: Seq<Trade>,
) -> (Seq<(u64, u64)>, Seq<(u64, u64)>)
    decreases ts.len(),
{
    if ts.len() == 0 {
        g
    } else {
        routed_one(routed_all(g, ts.drop_last()), ts.last())
    }
}

/// Storage keys are unique: one trade group per candle.
pub open spec fn wf_groups(s: Seq<(u64, TradeGroups)>) -> bool {
    forall|i: int, j: int| 0 <= i < j < s.len() ==> (#[trigger] s[i].0) != (#[trigger] s[j].0)
}

/// An entry at a key pins the mapping's binding for that key.
proof fn lemma_groups_map_index(s: Seq<(u64, TradeGroups)>, i: int)
    requires
        wf_groups(s),
        0 <= i < s.len(),
    ensures
        groups_map(s).dom().contains(s[i].0),
        groups_map(s)[s[i].0] == group_view(s[i].1),
    decreases s.len(),
{
    if i == s.len() - 1 {
        assert(s[i] == s.last());
    } else {
        assert(forall|k: int|
            0 <= k < s.drop_last().len() ==> s.drop_last()[k] == (#[trigger] s[k]));
        lemma_groups_map_index(s.drop_last(), i);
        assert(s.last().0 != s[i].0) by {
            assert(s[s.len() - 1] == s.last());
        }
    }
}

/// A key no entry holds is outside the mapping's domain.
proof fn lemma_groups_map_absent(s: Seq<(u64, TradeGroups)>, key: u64)
    requires
        forall|i: int| 0 <= i < s.len() ==> (#[trigger] s[i].0) != key,
    ensures
        !groups_map(s).dom().contains(key),
    decreases s.len(),
{
    if s.len() > 0 {
        assert(forall|k: int|
            0 <= k < s.drop_last().len() ==> s.drop_last()[k] == (#[trigger] s[k]));
        lemma_groups_map_absent(s.drop_last(), key);
        assert(s[s.len() - 1] == s.last());
    }
}

/// Replacing the group at an occupied key updates the mapping's binding.
proof fn lemma_groups_map_update(s: Seq<(u64, TradeGroups)>, i: int, g: TradeGroups)
    requires
        wf_groups(s),
        0 <= i < s.len(),
    ensures
        groups_map(s.update(i, (s[i].0, g))) == groups_map(s).insert(s[i].0, group_view(g)),
    decreases s.len(),
{
    let key = s[i].0;
    let t = s.update(i, (key, g));
    if i == s.len() - 1 {
        assert(t.drop_last() =~= s.drop_last());
        assert(groups_map(s.drop_last()).insert(key, group_view(s.last().1)).insert(
            key,
            group_view(g),
        ) =~= groups_map(s.drop_last()).insert(key, group_view(g)));
    } else {
        assert(wf_groups(s.drop_last())) by {
            assert(forall|k: int|
                0 <= k < s.drop_last().len() ==> s.drop_last()[k] == (#[trigger] s[k]));
        }
        assert(s.drop_last()[i] == s[i]);
        lemma_groups_map_update(s.drop_last(), i, g);
        assert(t.drop_last() =~= s.drop_last().update(i, (key, g)));
        assert(t.last() == s.last());
        assert(s.last().0 != key) by {
            assert(s[s.len() - 1] == s.last());
        }
        assert(groups_map(s.drop_last()).insert(key, group_view(g)).insert(
            s.last().0,
            group_view(s.last().1),
        ) =~= groups_map(s.drop_last()).insert(s.last().0, group_view(s.last().1)).insert(
            key,
            group_view(g),
        ));
    }
}

/// Associates raw trades with candles and buckets them on demand.
#[derive(Debug)]
pub struct FootprintAggregator {
    pub groups: Vec<(u64, TradeGroups)>,
}

impl FootprintAggregator {
    /// One trade group per candle key.
    pub open spec fn wf(self) -> bool {
        wf_groups(self.groups@)
    }

    /// An empty aggregator.
    pub fn new() -> (r: FootprintAggregator)
        ensures
            r.wf(),
            r.groups@.len() == 0,
    {
        FootprintAggregator { groups: Vec::new() }
    }

    /// Appends one trade to the group of the candle keyed `open_time`,
    /// creating the group when the candle has none yet. Only that group
    /// changes.
    pub fn route_trade(&mut self, open_time: u64, t: &Trade)
        requires
            old(self).wf(),
        ensures
            final(self).wf(),
            groups_map(final(self).groups@) == groups_map(old(self).groups@).insert(
                open_time,
                routed_one(group_or_empty(groups_map(old(self).groups@), open_time), *t),
            ),
    {
        let ghost s0 = self.groups@;
        let n = self.groups.len();
        let mut i: usize = 0;
        while i < n
            invariant
                0 <= i <= n == self.groups@.len(),
                self.groups@ == s0,
                s0 == old(self).groups@,
                wf_groups(s0),
                forall|k: int| 0 <= k < i ==> (#[trigger] s0[k].0) != open_time,
            decreases n - i,
        {
            if self.groups[i].0 == open_time {
                proof {
                    lemma_groups_map_index(s0, i as int);
                }
                let entry = self.groups.remove(i);
                let mut tg = entry.1;
                if t.is_seller_initiated {
                    tg.sell_trades.push((t.price, t.quantity));
                } else {
                    tg.buy_trades.push((t.price, t.quantity));
                }
                proof {
                    assert(group_view(tg) == routed_one(group_view(entry.1), *t));
                }
                let ghost tgsnap = tg;
                self.groups.insert(i, (open_time, tg));
                proof {
                    assert(self.groups@ =~= s0.update(i as int, (open_time, tgsnap)));
                    lemma_groups_map_update(s0, i as int, tgsnap);
                    assert(wf_groups(self.groups@)) by {
                        assert(forall|k: int|
                            0 <= k < self.groups@.len() ==> (#[trigger] self.groups@[k].0) == s0[
                                k
                            ].0);
                    }
                }
                return ;
            }
            i = i + 1;
        }
        // No group yet for this candle: open one with just this trade.
        proof {
            lemma_groups_map_absent(s0, open_time);
        }
        let mut tg = TradeGroups { buy_trades: Vec::new(), sell_trades: Vec::new() };
        if t.is_seller_initiated {
            tg.sell_trades.push((t.price, t.quantity));
        } else {
            tg.buy_trades.push((t.price, t.quantity));
        }
        proof {
            assert(group_view(tg) == routed_one(
                (Seq::<(u64, u64)>::empty(), Seq::<(u64, u64)>::empty()),
                *t,
            )) by {
                if t.is_seller_initiated {
                    assert(tg.sell_trades@ =~= Seq::<(u64, u64)>::empty().push(
                        (t.price, t.quantity),
                    ));
                    assert(tg.buy_trades@ =~= Seq::<(u64, u64)>::empty());
                } else {
                    assert(tg.buy_trades@ =~= Seq::<(u64, u64)>::empty().push(
                        (t.price, t.quantity),
                    ));
                    assert(tg.sell_trades@ =~= Seq::<(u64, u64)>::empty());
                }
            }
        }
        let ghost pre = self.groups@;
        let ghost tgsnap = tg;
        self.groups.push((open_time, tg));
        proof {
            assert(self.groups@.drop_last() =~= pre);
            assert(self.groups@.last() == (open_time, tgsnap));
            assert(wf_groups(self.groups@)) by {
                assert(forall|k: int| 0 <= k < pre.len() ==> (#[trigger] self.groups@[k]) == pre[
                    k
                ]);
            }
        }
    }

    /// Opens an empty trade group for the candle keyed `open_time` when it
    /// has none yet, as the live path does before draining its buffer.
    fn ensure_group(&mut self, open_time: u64)
        requires
            old(self).wf(),
        ensures
            final(self).wf(),
            groups_map(final(self).groups@) == groups_map(old(self).groups@).insert(
                open_time,
                group_or_empty(groups_map(old(self).groups@), open_time),
            ),
    {
        let ghost s0 = self.groups@;
        let n = self.groups.len();
        let mut i: usize = 0;
        while i < n
            invariant
                0 <= i <= n == self.groups@.len(),
                self.groups@ == s0,
                s0 == old(self).groups@,
                wf_groups(s0),
                forall|k: int| 0 <= k < i ==> (#[trigger] s0[k].0) != open_time,
            decreases n - i,
        {
            if self.groups[i].0 == open_time {
                proof {
                    lemma_groups_map_index(s0, i as int);
                    assert(groups_map(s0).insert(
                        open_time,
                        group_or_empty(groups_map(s0), open_time),
                    ) =~= groups_map(s0));
                }
                return ;
            }
            i = i + 1;
        }
        proof {
            lemma_groups_map_absent(s0, open_time);
        }
        let tg = TradeGroups { buy_trades: Vec::new(), sell_trades: Vec::new() };
        let ghost tgsnap = tg;
        self.groups.push((open_time, tg));
        proof {
            assert(self.groups@.drop_last() =~= s0);
            assert(self.groups@.last() == (open_time, tgsnap));
            assert(group_view(tgsnap) == (Seq::<(u64, u64)>::empty(), Seq::<(u64, u64)>::empty()))
                by {
                assert(tgsnap.buy_trades@ =~= Seq::<(u64, u64)>::empty());
                assert(tgsnap.sell_trades@ =~= Seq::<(u64, u64)>::empty());
            }
            assert(wf_groups(self.groups@)) by {
                assert(forall|k: int| 0 <= k < s0.len() ==> (#[trigger] self.groups@[k]) == s0[k]);
            }
        }
    }

    /// Routes a whole buffered batch to the candle keyed `open_time`, in
    /// arrival order. The candle's group is opened first, so it exists even
    /// for an empty batch, as the live path's drain does.
    pub fn route_batch(&mut self, open_time: u64, batch: &Vec<Trade>)
        requires
            old(self).wf(),
        ensures
            final(self).wf(),
            groups_map(final(self).groups@) == groups_map(old(self).groups@).insert(
                open_time,
                routed_all(group_or_empty(groups_map(old(self).groups@), open_time), batch@),
            ),
    {
        let ghost m0 = groups_map(self.groups@);
        let ghost g0 = group_or_empty(m0, open_time);
        self.ensure_group(open_time);
        proof {
            assert(routed_all(g0, batch@.take(0)) == g0);
        }
        let n = batch.len();
        let mut i: usize = 0;
        while i < n
            invariant
                0 <= i <= n == batch@.len(),
                self.wf(),
                groups_map(self.groups@) == m0.insert(
                    open_time,
                    routed_all(g0, batch@.take(i as int)),
                ),
            decreases n - i,
        {
            let ghost mpre = groups_map(self.groups@);
            proof {
                assert(batch@.take(i + 1).drop_last() =~= batch@.take(i as int));
                assert(batch@.take(i + 1).last() == batch@[i as int]);
                assert(mpre.dom().contains(open_time));
                assert(group_or_empty(mpre, open_time) == routed_all(g0, batch@.take(i as int)));
            }
            let t = batch[i];
            self.route_trade(open_time, &t);
            proof {
                assert(groups_map(self.groups@) =~= m0.insert(
                    open_time,
                    routed_all(g0, batch@.take(i + 1)),
                ));
            }
            i = i + 1;
        }
        proof {
            assert(batch@.take(n as int) =~= batch@);
        }
    }

    /// Replaces the group of the candle keyed `open_time` with a batch of
    /// historical trades, routed by side in order.
    pub fn set_group(&mut self, open_time: u64, batch: &Vec<Trade>)
        requires
            old(self).wf(),
        ensures
            final(self).wf(),
            groups_map(final(self).groups@) == groups_map(old(self).groups@).insert(
                open_time,
                routed_all((Seq::empty(), Seq::empty()), batch@),
            ),
    {
        let mut tg = TradeGroups { buy_trades: Vec::new(), sell_trades: Vec::new() };
        let n = batch.len();
        let mut i: usize = 0;
        while i < n
            invariant
                0 <= i <= n == batch@.len(),
                group_view(tg) == routed_all(
                    (Seq::<(u64, u64)>::empty(), Seq::<(u64, u64)>::empty()),
                    batch@.take(i as int),
                ),
            decreases n - i,
        {
            let t = batch[i];
            proof {
                assert(batch@.take(i + 1).drop_last() =~= batch@.take(i as int));
                assert(batch@.take(i + 1).last() == t);
            }
            if t.is_seller_initiated {
                tg.sell_trades.push((t.price, t.quantity));
            } else {
                tg.buy_trades.push((t.price, t.quantity));
            }
            i = i + 1;
        }
        assert(batch@.take(n as int) =~= batch@);
        let ghost s0 = self.groups@;
        let m = self.groups.len();
        let mut j: usize = 0;
        while j < m
            invariant
                0 <= j <= m == self.groups@.len(),
                self.groups@ == s0,
                s0 == old(self).groups@,
                group_view(tg) == routed_all(
                    (Seq::<(u64, u64)>::empty(), Seq::<(u64, u64)>::empty()),
                    batch@,
                ),
                wf_groups(s0),
                forall|k: int| 0 <= k < j ==> (#[trigger] s0[k].0) != open_time,
            decreases m - j,
        {
            if self.groups[j].0 == open_time {
                let ghost tgsnap = tg;
                self.groups.set(j, (open_time, tg));
                proof {
                    assert(self.groups@ =~= s0.update(j as int, (s0[j as int].0, tgsnap)));
                    lemma_groups_map_update(s0, j as int, tgsnap);
                    assert(wf_groups(self.groups@)) by {
                        assert(forall|k: int|
                            0 <= k < self.groups@.len() ==> (#[trigger] self.groups@[k].0) == s0[
                                k
                            ].0);
                    }
                }
                return ;
            }
            j = j + 1;
        }
        proof {
            lemma_groups_map_absent(s0, open_time);
        }
        let ghost pre = self.groups@;
        let ghost tgsnap = tg;
        self.groups.push((open_time, tg));
        proof {
            assert(self.groups@.drop_last() =~= pre);
            assert(self.groups@.last() == (open_time, tgsnap));
            assert(wf_groups(self.groups@)) by {
                assert(forall|k: int| 0 <= k < pre.len() ==> (#[trigger] self.groups@[k]) == pre[
                    k
                ]);
            }
        }
    }

    /// Buckets the trades of the candle keyed `open_time` at the given
    /// bucket size. Each side of the result groups exactly the raw pairs
    /// stored for that candle; a candle without trades yields empty sides.
    /// The storage itself is only read, so the bucket size may change
    /// freely between queries.
    pub fn query_grouped(&self, open_time: u64, bucket_size: u64) -> (r: GroupedTrades)
        requires
            self.wf(),
            bucket_size > 0,
        ensures
            groups_exactly(
                group_or_empty(groups_map(self.groups@), open_time).0,
                bucket_size,
                r.buys@,
            ),
            groups_exactly(
                group_or_empty(groups_map(self.groups@), open_time).1,
                bucket_size,
                r.sells@,
            ),
    {
        let ghost s0 = self.groups@;
        let n = self.groups.len();
        let mut i: usize = 0;
        while i < n
            invariant
                0 <= i <= n == self.groups@.len(),
                self.groups@ == s0,
                self.wf(),
                bucket_size > 0,
                forall|k: int| 0 <= k < i ==> (#[trigger] s0[k].0) != open_time,
            decreases n - i,
        {
            if self.groups[i].0 == open_time {
                proof {
                    lemma_groups_map_index(s0, i as int);
                }
                let buys = group_pairs(&self.groups[i].1.buy_trades, bucket_size);
                let sells = group_pairs(&self.groups[i].1.sell_trades, bucket_size);
                return GroupedTrades { buys, sells };
            }
            i = i + 1;
        }
        proof {
            lemma_groups_map_absent(s0, open_time);
        }
        let empty_pairs: Vec<(u64, u64)> = Vec::new();
        let buys = group_pairs(&empty_pairs, bucket_size);
        let sells = group_pairs(&empty_pairs, bucket_size);
        GroupedTrades { buys, sells }
    }

    /// Forgets every stored trade group.
    pub fn clear(&mut self)
        ensures
            final(self).wf(),
            final(self).groups@.len() == 0,
    {
        self.groups.clear();
    }
}

} // verus!
