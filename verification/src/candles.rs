//! Fixed-interval candles with a running cumulative volume delta.
//!
//! The feed repeats the open candle's `open_time` while it is still open and
//! moves to a new `open_time` when it closes. A repeated key revises the
//! open candle in place; its earlier contribution to the running cumulative
//! volume delta is subtracted first, so the statistic never double-counts a
//! revision. Backfill folds historical rows through the very same step, so
//! it reproduces exactly the values the live path would have produced.
//!
//! Volumes are capped at `VOL_MAX`, which keeps the running delta inside
//! `i128` for any number of candles a vector can hold; a larger volume is
//! treated as malformed and the record is dropped.

use vstd::prelude::*;

verus! {

/// Largest accepted candle volume (`2^61` fixed-point units).
pub const VOL_MAX: u64 = 0x2000_0000_0000_0000;

/// One candle: prices and volumes fixed-point, times in epoch millis.
#[derive(Clone, Copy, Debug, PartialEq, Eq, Structural)]
pub struct Kline {
    pub open_time: u64,
    pub open: u64,
    pub high: u64,
    pub low: u64,
    pub close: u64,
    pub buy_volume: u64,
    pub sell_volume: u64,
    pub cum_volume_delta: i128,
    pub close_time: u64,
}

/// One decoded candle record as the feed or the backfill delivers it.
#[derive(Clone, Copy, Debug, PartialEq, Eq, Structural)]
pub struct CandleInput {
    pub open_time: u64,
    pub open: u64,
    pub high: u64,
    pub low: u64,
    pub close: u64,
    pub volume: u64,
    pub buy_volume: u64,
    pub close_time: u64,
}

/// Why a candle record was rejected.
#[derive(Clone, Copy, Debug, PartialEq, Eq, Structural)]
pub enum CandleError {
    /// `buy_volume` exceeds `volume`, so the sell volume would be negative.
    VolumeMismatch,
    /// `volume` exceeds `VOL_MAX`.
    VolumeTooLarge,
    /// `open_time` lies before the latest stored candle.
    OutOfOrder,
}

/// A candle's contribution to the cumulative volume delta.
pub open spec fn delta(k: Kline) -> int {
    k.buy_volume - k.sell_volume
}

/// Sum of the buy-minus-sell deltas of a candle sequence.
pub open spec fn delta_sum(s: Seq<Kline>) -> int
    decreases s.len(),
{
    if s.len() == 0 {
        0
    } else {
        delta_sum(s.drop_last()) + delta(s.last())
    }
}

/// Well-formed candle storage: keys strictly increasing, volumes within the
/// cap, and every candle's running delta equal to the sum of the deltas up
/// to and including it.
pub open spec fn wf_klines(s: Seq<Kline>) -> bool {
    &&& forall|i: int, j: int|
        0 <= i < j < s.len() ==> (#[trigger] s[i].open_time) < (#[trigger] s[j].open_time)
    &&& forall|i: int|
        0 <= i < s.len() ==> (#[trigger] s[i].buy_volume) <= VOL_MAX && s[i].sell_volume
            <= VOL_MAX
    &&& forall|i: int|
        0 <= i < s.len() ==> (#[trigger] s[i].cum_volume_delta) == delta_sum(s.take(i + 1))
}

/// A record the aggregator accepts at state `s`: consistent volumes within
/// the cap, keyed no earlier than the latest stored candle.
pub open spec fn accepts(s: Seq<Kline>, c: CandleInput) -> bool {
    &&& c.buy_volume <= c.volume
    &&& c.volume <= VOL_MAX
    &&& (s.len() == 0 || s.last().open_time <= c.open_time)
}

/// The stored sequence after one accepted record: a repeated key revises
/// the open candle in place, replacing its contribution to the running
/// delta; a new key appends a closed-over candle and extends the sum.
pub open spec fn live_step(s: Seq<Kline>, c: CandleInput) -> Seq<Kline> {
    let bv = c.buy_volume;
    let sv = (c.volume - c.buy_volume) as u64;
    if s.len() > 0 && s.last().open_time == c.open_time {
        let cvd = s.last().cum_volume_delta - delta(s.last()) + (bv - sv);
        s.update(
            s.len() - 1,
            Kline {
                open_time: c.open_time,
                open: c.open,
                high: c.high,
                low: c.low,
                close: c.close,
                buy_volume: bv,
                sell_volume: sv,
                cum_volume_delta: cvd as i128,
                close_time: c.close_time,
            },
        )
    } else {
        let prev = if s.len() == 0 {
            0int
        } else {
            s.last().cum_volume_delta as int
        };
        s.push(
            Kline {
                open_time: c.open_time,
                open: c.open,
                high: c.high,
                low: c.low,
                close: c.close,
                buy_volume: bv,
                sell_volume: sv,
                cum_volume_delta: (prev + (bv - sv)) as i128,
                close_time: c.close_time,
            },
        )
    }
}

/// A backfill response folded row by row: an accepted row steps the state
/// exactly as the live path would, a malformed or out-of-order row is
/// dropped whole.
pub open spec fn fold_rows(s: Seq<Kline>, rows: Seq<CandleInput>) -> Seq<Kline>
    decreases rows.len(),
{
    if rows.len() == 0 {
        s
    } else {
        let prev = fold_rows(s, rows.drop_last());
        if accepts(prev, rows.last()) {
            live_step(prev, rows.last())
        } else {
            prev
        }
    }
}

/// The running delta is bounded by the candle count times the volume cap.
proof fn lemma_delta_sum_bound(s: Seq<Kline>)
    requires
        forall|i: int|
            0 <= i < s.len() ==> (#[trigger] s[i].buy_volume) <= VOL_MAX && s[i].sell_volume
                <= VOL_MAX,
    ensures
        -(s.len() * (VOL_MAX as int)) <= delta_sum(s) <= s.len() * (VOL_MAX as int),
    decreases s.len(),
{
    if s.len() > 0 {
        assert(forall|i: int|
            0 <= i < s.drop_last().len() ==> s.drop_last()[i] == (#[trigger] s[i]));
        lemma_delta_sum_bound(s.drop_last());
        assert(s[s.len() - 1] == s.last());
        assert((s.len() - 1) * (VOL_MAX as int) + (VOL_MAX as int) == s.len() * (VOL_MAX as int))
            by (nonlinear_arith);
    }
}

/// Builds minute candles from the live feed and from backfill, keyed by
/// `open_time`, with the running cumulative volume delta kept exact.
#[derive(Debug)]
pub struct CandleAggregator {
    pub klines: Vec<Kline>,
}

impl CandleAggregator {
    /// The stored candles are well-formed.
    pub open spec fn wf(self) -> bool {
        wf_klines(self.klines@)
    }

    /// An empty aggregator.
    pub fn new() -> (r: CandleAggregator)
        ensures
            r.wf(),
            r.klines@.len() == 0,
    {
        CandleAggregator { klines: Vec::new() }
    }

    /// Ingests one live candle tick. Success is owed exactly when the
    /// record is consistent, within the volume cap, and not out of order;
    /// each error names the one check that failed, and a rejected record
    /// leaves the state untouched.
    pub fn ingest_live_candle(&mut self, c: CandleInput) -> (r: Result<(), CandleError>)
        requires
            old(self).wf(),
        ensures
            final(self).wf(),
            c.buy_volume > c.volume ==> r == Err::<(), CandleError>(CandleError::VolumeMismatch)
                && final(self).klines@ == old(self).klines@,
            c.buy_volume <= c.volume && c.volume > VOL_MAX ==> r == Err::<(), CandleError>(
                CandleError::VolumeTooLarge,
            ) && final(self).klines@ == old(self).klines@,
            c.buy_volume <= c.volume && c.volume <= VOL_MAX && !(old(self).klines@.len() == 0 || old(
                self,
            ).klines@.last().open_time <= c.open_time) ==> r == Err::<(), CandleError>(
                CandleError::OutOfOrder,
            ) && final(self).klines@ == old(self).klines@,
            accepts(old(self).klines@, c) ==> r == Ok::<(), CandleError>(()) && final(self).klines@
                == live_step(old(self).klines@, c),
    {
        if c.buy_volume > c.volume {
            return Err(CandleError::VolumeMismatch);
        }
        if c.volume > VOL_MAX {
            return Err(CandleError::VolumeTooLarge);
        }
        let n = self.klines.len();
        let sell_volume = c.volume - c.buy_volume;
        let ghost s0 = self.klines@;
        if n > 0 {
            let last = self.klines[n - 1];
            proof {
                assert(s0[n - 1] == s0.last());
            }
            if c.open_time < last.open_time {
                return Err(CandleError::OutOfOrder);
            }
            proof {
                lemma_delta_sum_bound(s0);
                lemma_delta_sum_bound(s0.drop_last());
                assert(forall|i: int|
                    0 <= i < s0.drop_last().len() ==> s0.drop_last()[i] == (#[trigger] s0[i]));
                assert(s0.len() * (VOL_MAX as int) + 2 * (VOL_MAX as int) < i128::MAX) by (
                nonlinear_arith)
                    requires
                        s0.len() <= u64::MAX,
                ;
                assert(last.cum_volume_delta == delta_sum(s0.take(n as int)));
                assert(s0.take(n as int) =~= s0);
            }
            if c.open_time == last.open_time {
                // Revise the still-open candle: replace its contribution.
                let old_delta: i128 = (last.buy_volume as i128) - (last.sell_volume as i128);
                let new_delta: i128 = (c.buy_volume as i128) - (sell_volume as i128);
                let cvd: i128 = last.cum_volume_delta - old_delta + new_delta;
                let k = Kline {
                    open_time: c.open_time,
                    open: c.open,
                    high: c.high,
                    low: c.low,
                    close: c.close,
                    buy_volume: c.buy_volume,
                    sell_volume,
                    cum_volume_delta: cvd,
                    close_time: c.close_time,
                };
                self.klines.set(n - 1, k);
                proof {
                    let s1 = self.klines@;
                    assert(s1 =~= s0.update(n - 1, k));
                    assert(s1.drop_last() =~= s0.drop_last());
                    assert(delta_sum(s0) == delta_sum(s0.drop_last()) + delta(s0.last()));
                    assert(delta_sum(s1) == delta_sum(s1.drop_last()) + delta(s1.last()));
                    assert(s1.last() == k);
                    assert forall|i: int|
                        0 <= i < s1.len() implies (#[trigger] s1[i].cum_volume_delta) == delta_sum(
                        s1.take(i + 1),
                    ) by {
                        if i < n - 1 {
                            assert(s1[i] == s0[i]);
                            assert(s1.take(i + 1) =~= s0.take(i + 1));
                        } else {
                            assert(s1.take(i + 1) =~= s1);
                        }
                    }
                    assert(wf_klines(s1)) by {
                        assert(forall|i: int|
                            0 <= i < s1.len() ==> (#[trigger] s1[i].open_time) == s0[i].open_time);
                        assert(forall|i: int|
                            i != n - 1 && 0 <= i < s1.len() ==> (#[trigger] s1[i]) == s0[i]);
                    }
                }
                return Ok(());
            }
        }
        // A new candle has opened: extend the running delta.
        let prev_cvd: i128 = if n > 0 {
            proof {
                lemma_delta_sum_bound(s0);
                assert(s0.take(n as int) =~= s0);
                assert(s0[n - 1] == s0.last());
                assert(s0.len() * (VOL_MAX as int) + 2 * (VOL_MAX as int) < i128::MAX) by (
                nonlinear_arith)
                    requires
                        s0.len() <= u64::MAX,
                ;
            }
            self.klines[n - 1].cum_volume_delta
        } else {
            0
        };
        let new_delta: i128 = (c.buy_volume as i128) - (sell_volume as i128);
        let cvd: i128 = prev_cvd + new_delta;
        let k = Kline {
            open_time: c.open_time,
            open: c.open,
            high: c.high,
            low: c.low,
            close: c.close,
            buy_volume: c.buy_volume,
            sell_volume,
            cum_volume_delta: cvd,
            close_time: c.close_time,
        };
        self.klines.push(k);
        proof {
            let s1 = self.klines@;
            assert(s1.drop_last() =~= s0);
            assert(s1.last() == k);
            assert(delta_sum(s1) == delta_sum(s0) + delta(k));
            if n > 0 {
                assert(s0[n - 1] == s0.last());
                assert(s0.take(n as int) =~= s0);
            }
            assert forall|i: int|
                0 <= i < s1.len() implies (#[trigger] s1[i].cum_volume_delta) == delta_sum(
                s1.take(i + 1),
            ) by {
                if i < n {
                    assert(s1[i] == s0[i]);
                    assert(s1.take(i + 1) =~= s0.take(i + 1));
                } else {
                    assert(s1.take(i + 1) =~= s1);
                }
            }
            assert(wf_klines(s1)) by {
                assert(forall|i: int| 0 <= i < s0.len() ==> (#[trigger] s1[i]) == s0[i]);
            }
        }
        Ok(())
    }

    /// Folds a backfill response in ascending `open_time` order through the
    /// live step, dropping each rejected row whole, so backfill reproduces
    /// exactly the candles and running deltas the live path would have
    /// produced from the same records.
    pub fn ingest_backfill(&mut self, rows: &Vec<CandleInput>)
        requires
            old(self).wf(),
        ensures
            final(self).wf(),
            final(self).klines@ == fold_rows(old(self).klines@, rows@),
    {
        let ghost s0 = self.klines@;
        let n = rows.len();
        let mut i: usize = 0;
        while i < n
            invariant
                0 <= i <= n == rows@.len(),
                self.wf(),
                self.klines@ == fold_rows(s0, rows@.take(i as int)),
            decreases n - i,
        {
            let row = rows[i];
            proof {
                assert(rows@.take(i + 1).drop_last() =~= rows@.take(i as int));
                assert(rows@.take(i + 1).last() == row);
            }
            let ghost pre = self.klines@;
            let _ = self.ingest_live_candle(row);
            proof {
                if accepts(pre, row) {
                    assert(self.klines@ == live_step(pre, row));
                } else {
                    assert(self.klines@ == pre);
                }
            }
            i = i + 1;
        }
        assert(rows@.take(n as int) =~= rows@);
    }

    /// The `open_time` keys of the stored candles, in order.
    pub fn keys(&self) -> (r: Vec<u64>)
        ensures
            r@ == self.klines@.map_values(|k: Kline| k.open_time),
    {
        let mut out: Vec<u64> = Vec::new();
        let n = self.klines.len();
        let mut i: usize = 0;
        while i < n
            invariant
                0 <= i <= n == self.klines@.len(),
                out@ == self.klines@.take(i as int).map_values(|k: Kline| k.open_time),
            decreases n - i,
        {
            out.push(self.klines[i].open_time);
            proof {
                assert(self.klines@.take(i + 1).map_values(|k: Kline| k.open_time)
                    =~= self.klines@.take(i as int).map_values(|k: Kline| k.open_time).push(
                    self.klines@[i as int].open_time,
                ));
            }
            i = i + 1;
        }
        assert(self.klines@.take(n as int) =~= self.klines@);
        out
    }

    /// The key of the latest stored candle — the one still open.
    pub fn last_open_time(&self) -> (r: Option<u64>)
        ensures
            self.klines@.len() == 0 ==> r.is_none(),
            self.klines@.len() > 0 ==> r == Some(self.klines@.last().open_time),
    {
        let n = self.klines.len();
        if n == 0 {
            None
        } else {
            Some(self.klines[n - 1].open_time)
        }
    }

    /// The candles whose `open_time` lies in `[t0, t1]`, in order.
    pub fn visible(&self, t0: u64, t1: u64) -> (r: Vec<Kline>)
        ensures
            r@ == self.klines@.filter(|k: Kline| t0 <= k.open_time <= t1),
    {
        let mut out: Vec<Kline> = Vec::new();
        let n = self.klines.len();
        let mut i: usize = 0;
        while i < n
            invariant
                0 <= i <= n == self.klines@.len(),
                out@ == self.klines@.take(i as int).filter(|k: Kline| t0 <= k.open_time <= t1),
            decreases n - i,
        {
            let k = self.klines[i];
            proof {
                assert(self.klines@.take(i + 1).drop_last() =~= self.klines@.take(i as int));
                reveal(Seq::filter);
            }
            if t0 <= k.open_time && k.open_time <= t1 {
                out.push(k);
            }
            i = i + 1;
        }
        assert(self.klines@.take(n as int) =~= self.klines@);
        out
    }

    /// Forgets every stored candle.
    pub fn clear(&mut self)
        ensures
            final(self).wf(),
            final(self).klines@.len() == 0,
    {
        self.klines.clear();
    }
}

/// The cumulative volume delta at any stored candle equals the sum of the
/// buy-minus-sell deltas of all candles up to and including it — however
/// many in-place revisions each open candle received before closing, since
/// a revision replaces its own earlier contribution.
pub proof fn lemma_cvd_is_delta_sum(s: Seq<Kline>, i: int)
    requires
        wf_klines(s),
        0 <= i < s.len(),
    ensures
        s[i].cum_volume_delta == delta_sum(s.take(i + 1)),
{
}

} // verus!
