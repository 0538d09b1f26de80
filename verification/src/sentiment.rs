//! A rolling fixed-duration window of trades and per-update trade counts.
//!
//! Each ingested batch first prunes everything older than the window
//! relative to the batch timestamp, then records one buy count and one sell
//! count keyed by that timestamp, then appends the batch's trades. The
//! subtraction saturates at zero, so early timestamps never wrap.

use vstd::prelude::*;

use crate::events::Trade;

verus! {

/// The oldest instant the window keeps at timestamp `ts`: `ts` minus the
/// window, floored at zero.
pub open spec fn cutoff(ts: u64, w: u64) -> int {
    if ts >= w {
        ts - w
    } else {
        0
    }
}

/// The trades of `s` no older than `c`, in order.
pub open spec fn pruned_trades(s: Seq<Trade>, c: int) -> Seq<Trade>
    decreases s.len(),
{
    if s.len() == 0 {
        Seq::empty()
    } else {
        let rest = pruned_trades(s.drop_last(), c);
        if s.last().time >= c {
            rest.push(s.last())
        } else {
            rest
        }
    }
}

/// The counter entries of `s` no older than `c`, with any entry keyed `ts`
/// dropped so a fresh count can take its place.
pub open spec fn pruned_counts(s: Seq<(u64, usize)>, c: int, ts: u64) -> Seq<(u64, usize)>
    decreases s.len(),
{
    if s.len() == 0 {
        Seq::empty()
    } else {
        let rest = pruned_counts(s.drop_last(), c, ts);
        if s.last().0 >= c && s.last().0 != ts {
            rest.push(s.last())
        } else {
            rest
        }
    }
}

/// How many trades of `s` were initiated by the given side.
pub open spec fn count_matching(s: Seq<Trade>, seller: bool) -> nat
    decreases s.len(),
{
    if s.len() == 0 {
        0
    } else {
        count_matching(s.drop_last(), seller) + if s.last().is_seller_initiated == seller {
            1nat
        } else {
            0nat
        }
    }
}

/// At most one counter entry per timestamp.
pub open spec fn unique_times(s: Seq<(u64, usize)>) -> bool {
    forall|i: int, j: int| 0 <= i < j < s.len() ==> (#[trigger] s[i].0) != (#[trigger] s[j].0)
}

/// Some entry of `s` is keyed `k`.
pub open spec fn has_time(s: Seq<(u64, usize)>, k: u64) -> bool {
    exists|i: int| 0 <= i < s.len() && s[i].0 == k
}

/// Every pruned counter entry is on or after the cutoff and never keyed `ts`.
proof fn lemma_pruned_counts_bounds(s: Seq<(u64, usize)>, c: int, ts: u64)
    ensures
        forall|i: int|
            0 <= i < pruned_counts(s, c, ts).len() ==> (#[trigger] pruned_counts(s, c, ts)[i].0)
                >= c && pruned_counts(s, c, ts)[i].0 != ts,
    decreases s.len(),
{
    if s.len() > 0 {
        lemma_pruned_counts_bounds(s.drop_last(), c, ts);
        let r = pruned_counts(s, c, ts);
        let rd = pruned_counts(s.drop_last(), c, ts);
        assert forall|i: int| 0 <= i < r.len() implies (#[trigger] r[i].0) >= c && r[i].0 != ts by {
            if s.last().0 >= c && s.last().0 != ts {
                if i < rd.len() {
                    assert(r[i] == rd[i]);
                } else {
                    assert(r[i] == s.last());
                }
            } else {
                assert(r[i] == rd[i]);
            }
        }
    }
}

/// Every pruned trade is on or after the cutoff.
proof fn lemma_pruned_trades(s: Seq<Trade>, c: int)
    ensures
        forall|i: int|
            0 <= i < pruned_trades(s, c).len() ==> (#[trigger] pruned_trades(s, c)[i].time) >= c,
    decreases s.len(),
{
    if s.len() > 0 {
        lemma_pruned_trades(s.drop_last(), c);
        let r = pruned_trades(s, c);
        let rd = pruned_trades(s.drop_last(), c);
        assert forall|i: int| 0 <= i < r.len() implies (#[trigger] r[i].time) >= c by {
            if s.last().time >= c {
                if i < rd.len() {
                    assert(r[i] == rd[i]);
                } else {
                    assert(r[i] == s.last());
                }
            } else {
                assert(r[i] == rd[i]);
            }
        }
    }
}

/// A rolling window of raw trades and per-update buy/sell counts, pruned
/// to a fixed trailing duration at every ingest.
#[derive(Debug)]
pub struct SentimentWindow {
    /// The trailing duration kept, in milliseconds.
    pub window_ms: u64,
    /// The timestamp of the most recent ingest.
    pub latest: u64,
    pub trades: Vec<Trade>,
    pub buy_counts: Vec<(u64, usize)>,
    pub sell_counts: Vec<(u64, usize)>,
}

impl SentimentWindow {
    /// Counter timestamps are unique on both sides.
    pub open spec fn wf(self) -> bool {
        unique_times(self.buy_counts@) && unique_times(self.sell_counts@)
    }

    /// An empty window keeping the given trailing duration.
    pub fn new(window_ms: u64) -> (r: SentimentWindow)
        ensures
            r.wf(),
            r.window_ms == window_ms,
            r.latest == 0,
            r.trades@.len() == 0,
            r.buy_counts@.len() == 0,
            r.sell_counts@.len() == 0,
    {
        SentimentWindow {
            window_ms,
            latest: 0,
            trades: Vec::new(),
            buy_counts: Vec::new(),
            sell_counts: Vec::new(),
        }
    }

    /// Ingests one batch stamped `ts`: prunes every trade and counter
    /// older than the window relative to `ts`, stores one buy and one sell
    /// count keyed `ts`, and appends the batch's trades in order.
    pub fn ingest(&mut self, batch: &Vec<Trade>, ts: u64)
        requires
            old(self).wf(),
        ensures
            final(self).wf(),
            final(self).window_ms == old(self).window_ms,
            final(self).latest == ts,
            final(self).trades@ == pruned_trades(
                old(self).trades@,
                cutoff(ts, old(self).window_ms),
            ) + batch@,
            final(self).buy_counts@ == pruned_counts(
                old(self).buy_counts@,
                cutoff(ts, old(self).window_ms),
                ts,
            ).push((ts, count_matching(batch@, false) as usize)),
            final(self).sell_counts@ == pruned_counts(
                old(self).sell_counts@,
                cutoff(ts, old(self).window_ms),
                ts,
            ).push((ts, count_matching(batch@, true) as usize)),
    {
        let c: u64 = if ts >= self.window_ms {
            ts - self.window_ms
        } else {
            0
        };
        let ghost co = cutoff(ts, self.window_ms);
        // Prune the retained trades, then append the batch.
        let mut kept: Vec<Trade> = Vec::new();
        let n = self.trades.len();
        let mut i: usize = 0;
        while i < n
            invariant
                0 <= i <= n == self.trades@.len(),
                c == co,
                kept@ == pruned_trades(self.trades@.take(i as int), co),
            decreases n - i,
        {
            let t = self.trades[i];
            proof {
                assert(self.trades@.take(i + 1).drop_last() =~= self.trades@.take(i as int));
                assert(self.trades@.take(i + 1).last() == t);
            }
            if t.time >= c {
                kept.push(t);
            }
            i = i + 1;
        }
        assert(self.trades@.take(n as int) =~= self.trades@);
        let m = batch.len();
        let mut j: usize = 0;
        while j < m
            invariant
                0 <= j <= m == batch@.len(),
                kept@ == pruned_trades(self.trades@, co) + batch@.take(j as int),
            decreases m - j,
        {
            kept.push(batch[j]);
            proof {
                assert(pruned_trades(self.trades@, co) + batch@.take(j + 1) =~= (pruned_trades(
                    self.trades@,
                    co,
                ) + batch@.take(j as int)).push(batch@[j as int]));
            }
            j = j + 1;
        }
        assert(batch@.take(m as int) =~= batch@);
        // Count the batch by initiating side.
        let mut buy_count: usize = 0;
        let mut sell_count: usize = 0;
        let mut k: usize = 0;
        while k < m
            invariant
                0 <= k <= m == batch@.len(),
                buy_count == count_matching(batch@.take(k as int), false),
                sell_count == count_matching(batch@.take(k as int), true),
                buy_count + sell_count <= k,
            decreases m - k,
        {
            proof {
                assert(batch@.take(k + 1).drop_last() =~= batch@.take(k as int));
                assert(batch@.take(k + 1).last() == batch@[k as int]);
            }
            if batch[k].is_seller_initiated {
                sell_count = sell_count + 1;
            } else {
                buy_count = buy_count + 1;
            }
            k = k + 1;
        }
        assert(batch@.take(m as int) =~= batch@);
        // Prune both counters and record this batch's counts.
        let buy_counts = Self::prune_counts(&self.buy_counts, c, ts, Ghost(co));
        let sell_counts = Self::prune_counts(&self.sell_counts, c, ts, Ghost(co));
        let mut buy_counts = buy_counts;
        let mut sell_counts = sell_counts;
        buy_counts.push((ts, buy_count));
        sell_counts.push((ts, sell_count));
        proof {
            assert(unique_times(buy_counts@)) by {
                assert(forall|x: int|
                    0 <= x < buy_counts@.len() - 1 ==> (#[trigger] buy_counts@[x]) == pruned_counts(
                        self.buy_counts@,
                        co,
                        ts,
                    )[x]);
            }
            assert(unique_times(sell_counts@)) by {
                assert(forall|x: int|
                    0 <= x < sell_counts@.len() - 1 ==> (#[trigger] sell_counts@[x])
                        == pruned_counts(self.sell_counts@, co, ts)[x]);
            }
        }
        self.trades = kept;
        self.buy_counts = buy_counts;
        self.sell_counts = sell_counts;
        self.latest = ts;
    }

    /// Drops counter entries older than the cutoff or keyed `ts`.
    fn prune_counts(s: &Vec<(u64, usize)>, c: u64, ts: u64, Ghost(co): Ghost<int>) -> (r: Vec<
        (u64, usize),
    >)
        requires
            c == co,
        ensures
            r@ == pruned_counts(s@, co, ts),
            unique_times(s@) ==> unique_times(r@),
            forall|i: int| 0 <= i < r@.len() ==> (#[trigger] r@[i].0) != ts,
    {
        let mut out: Vec<(u64, usize)> = Vec::new();
        let n = s.len();
        let mut i: usize = 0;
        while i < n
            invariant
                0 <= i <= n == s@.len(),
                c == co,
                out@ == pruned_counts(s@.take(i as int), co, ts),
                unique_times(s@) ==> unique_times(out@),
                forall|x: int| 0 <= x < out@.len() ==> (#[trigger] out@[x].0) != ts,
                forall|k: u64| has_time(out@, k) ==> has_time(s@.take(i as int), k),
            decreases n - i,
        {
            let (time, count) = s[i];
            let ghost pre = out@;
            proof {
                assert(s@.take(i + 1).drop_last() =~= s@.take(i as int));
                assert(s@.take(i + 1).last() == (time, count));
            }
            if time >= c && time != ts {
                proof {
                    if unique_times(s@) && has_time(pre, time) {
                        let k = choose|k: int|
                            0 <= k < pre.len() && (#[trigger] pre[k]).0 == time;
                        let j = choose|j: int|
                            0 <= j < s@.take(i as int).len() && (#[trigger] s@.take(i as int)[
                                j
                            ]).0 == time;
                        assert(s@[j].0 == s@[i as int].0);
                        assert(false);
                    }
                }
                out.push((time, count));
                proof {
                    assert(out@.drop_last() =~= pre);
                    if unique_times(s@) {
                        assert forall|x: int, y: int| 0 <= x < y < out@.len() implies (
                        #[trigger] out@[x].0) != (#[trigger] out@[y].0) by {
                            if y < pre.len() {
                                assert(out@[x] == pre[x] && out@[y] == pre[y]);
                            } else {
                                assert(out@[x] == pre[x]);
                                assert(out@[y] == (time, count));
                                assert(!has_time(pre, time));
                            }
                        }
                    }
                    assert forall|k: u64| has_time(out@, k) implies has_time(
                        s@.take(i + 1),
                        k,
                    ) by {
                        let x = choose|x: int|
                            0 <= x < out@.len() && (#[trigger] out@[x]).0 == k;
                        if x < pre.len() {
                            assert(has_time(pre, k));
                            let j = choose|j: int|
                                0 <= j < s@.take(i as int).len() && (#[trigger] s@.take(
                                    i as int,
                                )[j]).0 == k;
                            assert(s@.take(i + 1)[j].0 == k);
                        } else {
                            assert(s@.take(i + 1)[i as int].0 == k);
                        }
                    }
                }
            } else {
                proof {
                    assert forall|k: u64| has_time(out@, k) implies has_time(
                        s@.take(i + 1),
                        k,
                    ) by {
                        let j = choose|j: int|
                            0 <= j < s@.take(i as int).len() && (#[trigger] s@.take(i as int)[
                                j
                            ]).0 == k;
                        assert(s@.take(i + 1)[j].0 == k);
                    }
                }
            }
            i = i + 1;
        }
        assert(s@.take(n as int) =~= s@);
        out
    }

    /// The current windowed view: retained trades and both time-keyed
    /// counters, already pruned, as copies the caller may keep.
    pub fn snapshot(&self) -> (r: (Vec<Trade>, Vec<(u64, usize)>, Vec<(u64, usize)>))
        ensures
            r.0@ == self.trades@,
            r.1@ == self.buy_counts@,
            r.2@ == self.sell_counts@,
    {
        let t = self.trades.clone();
        assert(t@ =~= self.trades@);
        let b = Self::copy_counts(&self.buy_counts);
        let s = Self::copy_counts(&self.sell_counts);
        (t, b, s)
    }

    /// The greatest retained trade quantity, for bubble scaling.
    pub fn max_quantity(&self) -> (r: Option<u64>)
        ensures
            qty_extreme_ok(self.trades@, r),
    {
        let n = self.trades.len();
        if n == 0 {
            return None;
        }
        let mut m: u64 = self.trades[0].quantity;
        let ghost mut w: int = 0;
        let mut i: usize = 1;
        while i < n
            invariant
                1 <= i <= n == self.trades@.len(),
                0 <= w < i,
                self.trades@[w].quantity == m,
                forall|j: int| 0 <= j < i ==> m >= (#[trigger] self.trades@[j].quantity),
            decreases n - i,
        {
            if self.trades[i].quantity > m {
                m = self.trades[i].quantity;
                proof {
                    w = i as int;
                }
            }
            i = i + 1;
        }
        Some(m)
    }

    /// Tight bounds on the retained trade prices, for bubble scaling.
    pub fn price_bounds(&self) -> (r: (Option<u64>, Option<u64>))
        ensures
            trade_price_bounds_ok(self.trades@, r.0, r.1),
    {
        let n = self.trades.len();
        if n == 0 {
            return (None, None);
        }
        let mut lo: u64 = self.trades[0].price;
        let mut hi: u64 = self.trades[0].price;
        let ghost mut li: int = 0;
        let ghost mut hj: int = 0;
        let mut i: usize = 1;
        while i < n
            invariant
                1 <= i <= n == self.trades@.len(),
                0 <= li < i,
                0 <= hj < i,
                self.trades@[li].price == lo,
                self.trades@[hj].price == hi,
                forall|j: int| 0 <= j < i ==> lo <= (#[trigger] self.trades@[j].price),
                forall|j: int| 0 <= j < i ==> hi >= (#[trigger] self.trades@[j].price),
            decreases n - i,
        {
            if self.trades[i].price < lo {
                lo = self.trades[i].price;
                proof {
                    li = i as int;
                }
            }
            if self.trades[i].price > hi {
                hi = self.trades[i].price;
                proof {
                    hj = i as int;
                }
            }
            i = i + 1;
        }
        (Some(lo), Some(hi))
    }

    /// The greatest retained per-update count on either side, for scaling
    /// the count curves; zero when no counter is retained.
    pub fn max_count(&self) -> (r: usize)
        ensures
            count_extreme_ok(self.buy_counts@, self.sell_counts@, r),
    {
        let mut m: usize = 0;
        let ghost mut wb: Option<int> = None;
        let ghost mut wa: Option<int> = None;
        let nb = self.buy_counts.len();
        let mut i: usize = 0;
        while i < nb
            invariant
                0 <= i <= nb == self.buy_counts@.len(),
                forall|j: int| 0 <= j < i ==> m >= (#[trigger] self.buy_counts@[j].1),
                wb matches Some(k) ==> 0 <= k < i && self.buy_counts@[k].1 == m,
                wb.is_none() ==> m == 0,
            decreases nb - i,
        {
            if self.buy_counts[i].1 > m {
                m = self.buy_counts[i].1;
                proof {
                    wb = Some(i as int);
                }
            }
            i = i + 1;
        }
        let ns = self.sell_counts.len();
        let mut j: usize = 0;
        while j < ns
            invariant
                0 <= j <= ns == self.sell_counts@.len(),
                nb == self.buy_counts@.len(),
                forall|k: int| 0 <= k < nb ==> m >= (#[trigger] self.buy_counts@[k].1),
                forall|k: int| 0 <= k < j ==> m >= (#[trigger] self.sell_counts@[k].1),
                wb matches Some(k) ==> 0 <= k < nb && self.buy_counts@[k].1 == m,
                wa matches Some(k) ==> 0 <= k < j && self.sell_counts@[k].1 == m,
                wb.is_none() && wa.is_none() ==> m == 0,
            decreases ns - j,
        {
            if self.sell_counts[j].1 > m {
                m = self.sell_counts[j].1;
                proof {
                    wa = Some(j as int);
                    wb = None;
                }
            }
            j = j + 1;
        }
        proof {
            if self.buy_counts@.len() > 0 || self.sell_counts@.len() > 0 {
                if m == 0 {
                    if self.buy_counts@.len() > 0 {
                        assert(self.buy_counts@[0].1 == 0);
                    } else {
                        assert(self.sell_counts@[0].1 == 0);
                    }
                }
            }
        }
        m
    }

    fn copy_counts(s: &Vec<(u64, usize)>) -> (r: Vec<(u64, usize)>)
        ensures
            r@ == s@,
    {
        let mut out: Vec<(u64, usize)> = Vec::new();
        let n = s.len();
        let mut i: usize = 0;
        while i < n
            invariant
                0 <= i <= n == s@.len(),
                out@ == s@.take(i as int),
            decreases n - i,
        {
            out.push(s[i]);
            assert(out@ =~= s@.take(i + 1));
            i = i + 1;
        }
        assert(s@.take(n as int) =~= s@);
        out
    }

    /// Forgets everything retained.
    pub fn clear(&mut self)
        ensures
            final(self).wf(),
            final(self).window_ms == old(self).window_ms,
            final(self).latest == 0,
            final(self).trades@.len() == 0,
            final(self).buy_counts@.len() == 0,
            final(self).sell_counts@.len() == 0,
    {
        self.trades.clear();
        self.buy_counts.clear();
        self.sell_counts.clear();
        self.latest = 0;
    }
}

/// `v` is the greatest retained trade quantity, absent exactly when no
/// trade is retained.
pub open spec fn qty_extreme_ok(s: Seq<Trade>, v: Option<u64>) -> bool {
    &&& v.is_some() <==> s.len() > 0
    &&& v matches Some(m) ==> (forall|i: int| 0 <= i < s.len() ==> m >= (#[trigger] s[i].quantity))
        && (exists|i: int| 0 <= i < s.len() && m == (#[trigger] s[i].quantity))
}

/// `lo` and `hi` bound the retained trade prices tightly, absent exactly
/// when no trade is retained.
pub open spec fn trade_price_bounds_ok(s: Seq<Trade>, lo: Option<u64>, hi: Option<u64>) -> bool {
    &&& lo.is_some() <==> s.len() > 0
    &&& hi.is_some() <==> s.len() > 0
    &&& lo matches Some(v) ==> (forall|i: int| 0 <= i < s.len() ==> v <= (#[trigger] s[i].price))
        && (exists|i: int| 0 <= i < s.len() && v == (#[trigger] s[i].price))
    &&& hi matches Some(v) ==> (forall|i: int| 0 <= i < s.len() ==> v >= (#[trigger] s[i].price))
        && (exists|i: int| 0 <= i < s.len() && v == (#[trigger] s[i].price))
}

/// `m` bounds every retained buy and sell count and is one of them, or
/// zero when no counter is retained.
pub open spec fn count_extreme_ok(
    buys: Seq<(u64, usize)>,
    sells: Seq<(u64, usize)>,
    m: usize,
) -> bool {
    &&& forall|i: int| 0 <= i < buys.len() ==> m >= (#[trigger] buys[i].1)
    &&& forall|i: int| 0 <= i < sells.len() ==> m >= (#[trigger] sells[i].1)
    &&& buys.len() == 0 && sells.len() == 0 ==> m == 0
    &&& buys.len() > 0 || sells.len() > 0 ==> (exists|i: int|
        0 <= i < buys.len() && m == (#[trigger] buys[i].1)) || (exists|i: int|
        0 <= i < sells.len() && m == (#[trigger] sells[i].1))
}

/// After an ingest stamped `ts`, nothing retained — no trade and no counter
/// entry — is older than the window relative to `ts`, provided every trade
/// in the batch itself is no older than the window at `ts`. The retained
/// trades are exactly the pruned old trades followed by the batch, and the
/// counters are the pruned old counters plus the `ts` entry, as `ingest`
/// ensures.
pub proof fn lemma_window_never_retains_stale(
    trades: Seq<Trade>,
    counts: Seq<(u64, usize)>,
    batch: Seq<Trade>,
    ts: u64,
    w: u64,
    n: usize,
)
    requires
        forall|i: int| 0 <= i < batch.len() ==> (#[trigger] batch[i].time) >= cutoff(ts, w),
    ensures
        forall|i: int|
            0 <= i < (pruned_trades(trades, cutoff(ts, w)) + batch).len() ==> (#[trigger] (
            pruned_trades(trades, cutoff(ts, w)) + batch)[i].time) >= cutoff(ts, w),
        forall|i: int|
            0 <= i < pruned_counts(counts, cutoff(ts, w), ts).push((ts, n)).len() ==> (
            #[trigger] pruned_counts(counts, cutoff(ts, w), ts).push((ts, n))[i].0) >= cutoff(
                ts,
                w,
            ),
{
    let c = cutoff(ts, w);
    lemma_pruned_trades(trades, c);
    lemma_pruned_counts_bounds(counts, c, ts);
    let pt = pruned_trades(trades, c);
    assert forall|i: int| 0 <= i < (pt + batch).len() implies (#[trigger] (pt + batch)[i].time)
        >= c by {
        if i < pt.len() {
            assert((pt + batch)[i] == pt[i]);
        } else {
            assert((pt + batch)[i] == batch[i - pt.len()]);
        }
    }
    let pc = pruned_counts(counts, c, ts);
    assert forall|i: int| 0 <= i < pc.push((ts, n)).len() implies (#[trigger] pc.push(
        (ts, n),
    )[i].0) >= c by {
        if i < pc.len() {
            assert(pc.push((ts, n))[i] == pc[i]);
        } else {
            assert(pc.push((ts, n))[i] == (ts, n));
        }
    }
}

} // verus!
