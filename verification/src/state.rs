//! The coordinator that owns every collection and routes typed events.
//!
//! One inbound event kind maps to one entry point; within a frame the fixed
//! order is book first, trade routing second, candle state third, matching
//! the dependency of trade routing on the open-candle marker. Trade prints
//! are buffered and drained into the footprint and the sentiment window on
//! the next book delta, once a candle is open — the cadence the feed
//! delivers. `render_snapshot` returns copies only, never live references,
//! so a caller may use them after the coordinator moves on. `reset` clears
//! every collection wholesale for an instrument switch.

use vstd::prelude::*;

use crate::book::{
    admitted, apply_updates_map, order_pairs, side_map, Order, PriceLevelBook,
};
use crate::bucket::groups_exactly;
use crate::candles::{accepts, fold_rows, live_step, CandleAggregator, Kline};
use crate::events::{
    candle_of, candle_ok, decode_candle, decode_candles, decode_oi, decode_pairs, decode_trade,
    decode_trades, decoded_candles, decoded_pairs, decoded_trades, field_ok, field_val, trade_of,
    RawCandle, RawOiSample, RawPair, RawTrade, Trade,
};
use crate::footprint::{
    group_or_empty, groups_map, routed_all, FootprintAggregator, GroupedTrades,
};
use crate::oi::OpenInterestSeries;
use crate::sentiment::{
    count_matching, cutoff, pruned_counts, pruned_trades, SentimentWindow,
};

verus! {

/// A point-in-time, copy-only view of everything a frame needs.
#[derive(Debug)]
pub struct RenderModel {
    /// The candles whose `open_time` lies in the visible range, in order.
    pub candles: Vec<Kline>,
    /// For each visible candle, its bucketed buy and sell trade totals.
    pub trades: Vec<(u64, GroupedTrades)>,
    /// The resting bids, bucketed at the configured bucket size.
    pub bids: Vec<(u64, u128)>,
    /// The resting asks, bucketed at the configured bucket size.
    pub asks: Vec<(u64, u128)>,
    /// The open-interest points in the visible range, in stored order.
    pub oi_points: Vec<(u64, u64)>,
    /// Least low among the visible candles, if any are visible.
    pub price_low: Option<u64>,
    /// Greatest high among the visible candles.
    pub price_high: Option<u64>,
    /// Greatest of the visible candles' buy and sell volumes.
    pub max_volume: Option<u64>,
    /// Least cumulative volume delta among the visible candles.
    pub cvd_low: Option<i128>,
    /// Greatest cumulative volume delta among the visible candles.
    pub cvd_high: Option<i128>,
    /// Greatest resting quantity on either raw book side.
    pub book_max_quantity: u64,
    /// Greatest bucketed trade total among the visible candles' sides.
    pub trade_max_quantity: u128,
    /// The time marker of the book's most recent delta.
    pub last_depth_update: u64,
}

/// Owns the book, the candle, footprint and sentiment aggregators and the
/// open-interest series; routes each typed event to the collections it
/// touches and answers render queries with copies.
#[derive(Debug)]
pub struct StateCoordinator {
    pub book: PriceLevelBook,
    pub candles: CandleAggregator,
    pub footprint: FootprintAggregator,
    pub sentiment: SentimentWindow,
    pub oi: OpenInterestSeries,
    /// Trade prints awaiting the next book delta to be drained.
    pub trades_buffer: Vec<Trade>,
    /// The key of the candle currently open, once one has been seen.
    pub current_open: Option<u64>,
    pub last_depth_update: u64,
    /// Decimal digits carried by every price field.
    pub price_scale: u32,
    /// Decimal digits carried by every quantity and volume field.
    pub qty_scale: u32,
    /// The instrument's tick, fixed-point.
    pub tick_size: u64,
    /// The display bucket, fixed-point; always positive.
    pub bucket_size: u64,
}

impl StateCoordinator {
    /// Every owned collection is well-formed and the configuration sane.
    pub open spec fn wf(self) -> bool {
        &&& self.book.wf()
        &&& self.candles.wf()
        &&& self.footprint.wf()
        &&& self.sentiment.wf()
        &&& self.price_scale <= 19
        &&& self.qty_scale <= 19
        &&& self.tick_size > 0
        &&& self.bucket_size > 0
    }

    /// Empty state for one instrument: all collections empty, tick and
    /// bucket at the finest grid until `set_symbol_info` configures them.
    pub fn new(price_scale: u32, qty_scale: u32, window_ms: u64) -> (r: StateCoordinator)
        requires
            price_scale <= 19,
            qty_scale <= 19,
        ensures
            r.wf(),
            r.book.bids@.len() == 0,
            r.book.asks@.len() == 0,
            r.candles.klines@.len() == 0,
            r.footprint.groups@.len() == 0,
            r.sentiment.trades@.len() == 0,
            r.oi.points@.len() == 0,
            r.trades_buffer@.len() == 0,
            r.current_open.is_none(),
            r.last_depth_update == 0,
            r.price_scale == price_scale,
            r.qty_scale == qty_scale,
            r.tick_size == 1,
            r.bucket_size == 1,
            r.sentiment.window_ms == window_ms,
    {
        StateCoordinator {
            book: PriceLevelBook::new(),
            candles: CandleAggregator::new(),
            footprint: FootprintAggregator::new(),
            sentiment: SentimentWindow::new(window_ms),
            oi: OpenInterestSeries::new(),
            trades_buffer: Vec::new(),
            current_open: None,
            last_depth_update: 0,
            price_scale,
            qty_scale,
            tick_size: 1,
            bucket_size: 1,
        }
    }

    /// Buffers one trade print; a print with a malformed field is dropped,
    /// and so is one arriving before any candle has opened, since no
    /// bucket exists to attach it to. Nothing else changes until the next
    /// book delta drains the buffer.
    pub fn on_trade(&mut self, raw: &RawTrade)
        requires
            old(self).wf(),
        ensures
            final(self).wf(),
            old(self).current_open.is_some() && field_ok(
                raw.price@,
                old(self).price_scale as nat,
            ) && field_ok(raw.quantity@, old(self).qty_scale as nat) ==> final(self).trades_buffer@ == old(self).trades_buffer@.push(
                trade_of(*raw, old(self).price_scale as nat, old(self).qty_scale as nat),
            ),
            !(old(self).current_open.is_some() && field_ok(
                raw.price@,
                old(self).price_scale as nat,
            ) && field_ok(raw.quantity@, old(self).qty_scale as nat)) ==> final(self).trades_buffer@ == old(self).trades_buffer@,
            final(self).book == old(self).book,
            final(self).candles == old(self).candles,
            final(self).footprint == old(self).footprint,
            final(self).sentiment == old(self).sentiment,
            final(self).oi == old(self).oi,
            final(self).current_open == old(self).current_open,
            final(self).last_depth_update == old(self).last_depth_update,
            final(self).price_scale == old(self).price_scale,
            final(self).qty_scale == old(self).qty_scale,
            final(self).tick_size == old(self).tick_size,
            final(self).bucket_size == old(self).bucket_size,
    {
        if self.current_open.is_none() {
            return ;
        }
        match decode_trade(raw, self.price_scale, self.qty_scale) {
            Some(t) => {
                self.trades_buffer.push(t);
            },
            None => {},
        }
    }

    /// Applies one book delta frame: bid updates, then ask updates, each
    /// row decoded and malformed rows skipped individually, each admitted
    /// update merged in arrival order. Records the frame's time marker,
    /// and — once a candle is open — drains the buffered trades into the
    /// sentiment window and the open candle's footprint, in that order.
    pub fn on_depth(&mut self, bids: &Vec<RawPair>, asks: &Vec<RawPair>, update_time: u64)
        requires
            old(self).wf(),
        ensures
            final(self).wf(),
            side_map(final(self).book.bids@) == apply_updates_map(
                side_map(old(self).book.bids@),
                admitted(
                    old(self).book.bids@,
                    decoded_pairs(bids@, old(self).price_scale as nat, old(self).qty_scale as nat),
                    true,
                ),
            ),
            side_map(final(self).book.asks@) == apply_updates_map(
                side_map(old(self).book.asks@),
                admitted(
                    old(self).book.asks@,
                    decoded_pairs(asks@, old(self).price_scale as nat, old(self).qty_scale as nat),
                    false,
                ),
            ),
            final(self).book.last_update_id == old(self).book.last_update_id,
            final(self).last_depth_update == update_time,
            final(self).current_open == old(self).current_open,
            old(self).current_open matches Some(open) ==> {
                &&& final(self).trades_buffer@.len() == 0
                &&& groups_map(final(self).footprint.groups@) == groups_map(
                    old(self).footprint.groups@,
                ).insert(
                    open,
                    routed_all(
                        group_or_empty(groups_map(old(self).footprint.groups@), open),
                        old(self).trades_buffer@,
                    ),
                )
                &&& final(self).sentiment.latest == update_time
                &&& final(self).sentiment.trades@ == pruned_trades(
                    old(self).sentiment.trades@,
                    cutoff(update_time, old(self).sentiment.window_ms),
                ) + old(self).trades_buffer@
                &&& final(self).sentiment.buy_counts@ == pruned_counts(
                    old(self).sentiment.buy_counts@,
                    cutoff(update_time, old(self).sentiment.window_ms),
                    update_time,
                ).push((update_time, count_matching(old(self).trades_buffer@, false) as usize))
                &&& final(self).sentiment.sell_counts@ == pruned_counts(
                    old(self).sentiment.sell_counts@,
                    cutoff(update_time, old(self).sentiment.window_ms),
                    update_time,
                ).push((update_time, count_matching(old(self).trades_buffer@, true) as usize))
            },
            old(self).current_open.is_none() ==> {
                &&& final(self).trades_buffer@ == old(self).trades_buffer@
                &&& final(self).footprint == old(self).footprint
                &&& final(self).sentiment == old(self).sentiment
            },
            final(self).candles == old(self).candles,
            final(self).oi == old(self).oi,
            final(self).price_scale == old(self).price_scale,
            final(self).qty_scale == old(self).qty_scale,
            final(self).tick_size == old(self).tick_size,
            final(self).bucket_size == old(self).bucket_size,
            final(self).sentiment.window_ms == old(self).sentiment.window_ms,
    {
        let bid_ups = decode_pairs(bids, self.price_scale, self.qty_scale);
        let ask_ups = decode_pairs(asks, self.price_scale, self.qty_scale);
        self.book.apply_delta_bids(&bid_ups);
        self.book.apply_delta_asks(&ask_ups);
        self.last_depth_update = update_time;
        match self.current_open {
            Some(open) => {
                self.sentiment.ingest(&self.trades_buffer, update_time);
                self.footprint.route_batch(open, &self.trades_buffer);
                self.trades_buffer.clear();
            },
            None => {},
        }
    }

    /// Ingests one live candle tick. A tick with a malformed field is
    /// dropped whole; an accepted tick steps the candle state and records
    /// its key as the open-candle marker used to route trades.
    pub fn on_candle_tick(&mut self, raw: &RawCandle)
        requires
            old(self).wf(),
        ensures
            final(self).wf(),
            !candle_ok(*raw, old(self).price_scale as nat, old(self).qty_scale as nat) ==> final(self).candles == old(self).candles && final(self).current_open == old(self).current_open,
            candle_ok(*raw, old(self).price_scale as nat, old(self).qty_scale as nat) ==> {
                let c = candle_of(*raw, old(self).price_scale as nat, old(self).qty_scale as nat);
                &&& accepts(old(self).candles.klines@, c) ==> final(self).candles.klines@
                    == live_step(old(self).candles.klines@, c) && final(self).current_open
                    == Some(c.open_time)
                &&& !accepts(old(self).candles.klines@, c) ==> final(self).candles.klines@ == old(self).candles.klines@ && final(self).current_open == old(self).current_open
            },
            final(self).book == old(self).book,
            final(self).footprint == old(self).footprint,
            final(self).sentiment == old(self).sentiment,
            final(self).oi == old(self).oi,
            final(self).trades_buffer@ == old(self).trades_buffer@,
            final(self).last_depth_update == old(self).last_depth_update,
            final(self).price_scale == old(self).price_scale,
            final(self).qty_scale == old(self).qty_scale,
            final(self).tick_size == old(self).tick_size,
            final(self).bucket_size == old(self).bucket_size,
    {
        match decode_candle(raw, self.price_scale, self.qty_scale) {
            Some(c) => {
                match self.candles.ingest_live_candle(c) {
                    Ok(()) => {
                        self.current_open = Some(c.open_time);
                    },
                    Err(_) => {},
                }
            },
            None => {},
        }
    }

    /// Seeds the candle state from a historical backfill: rows decoded,
    /// each malformed row dropped whole, the rest folded in order through
    /// the same step the live path uses.
    pub fn on_candle_backfill(&mut self, rows: &Vec<RawCandle>)
        requires
            old(self).wf(),
        ensures
            final(self).wf(),
            final(self).candles.klines@ == fold_rows(
                old(self).candles.klines@,
                decoded_candles(rows@, old(self).price_scale as nat, old(self).qty_scale as nat),
            ),
            final(self).book == old(self).book,
            final(self).footprint == old(self).footprint,
            final(self).sentiment == old(self).sentiment,
            final(self).oi == old(self).oi,
            final(self).trades_buffer@ == old(self).trades_buffer@,
            final(self).current_open == old(self).current_open,
            final(self).last_depth_update == old(self).last_depth_update,
            final(self).price_scale == old(self).price_scale,
            final(self).qty_scale == old(self).qty_scale,
            final(self).tick_size == old(self).tick_size,
            final(self).bucket_size == old(self).bucket_size,
    {
        let decoded = decode_candles(rows, self.price_scale, self.qty_scale);
        self.candles.ingest_backfill(&decoded);
    }

    /// Attaches a batch of historical trades to the candle keyed
    /// `open_time`, replacing whatever that candle held; malformed prints
    /// are skipped individually.
    pub fn on_trades_backfill(&mut self, open_time: u64, rows: &Vec<RawTrade>)
        requires
            old(self).wf(),
        ensures
            final(self).wf(),
            groups_map(final(self).footprint.groups@) == groups_map(
                old(self).footprint.groups@,
            ).insert(
                open_time,
                routed_all(
                    (Seq::empty(), Seq::empty()),
                    decoded_trades(rows@, old(self).price_scale as nat, old(self).qty_scale as nat),
                ),
            ),
            final(self).book == old(self).book,
            final(self).candles == old(self).candles,
            final(self).sentiment == old(self).sentiment,
            final(self).oi == old(self).oi,
            final(self).trades_buffer@ == old(self).trades_buffer@,
            final(self).current_open == old(self).current_open,
            final(self).last_depth_update == old(self).last_depth_update,
            final(self).price_scale == old(self).price_scale,
            final(self).qty_scale == old(self).qty_scale,
            final(self).tick_size == old(self).tick_size,
            final(self).bucket_size == old(self).bucket_size,
    {
        let decoded = decode_trades(rows, self.price_scale, self.qty_scale);
        self.footprint.set_group(open_time, &decoded);
    }

    /// Replaces the book wholesale from a snapshot; each malformed row is
    /// skipped, and the snapshot's sequence marker is recorded.
    pub fn on_book_snapshot(&mut self, bids: &Vec<RawPair>, asks: &Vec<RawPair>, last_update_id: u64)
        requires
            old(self).wf(),
        ensures
            final(self).wf(),
            side_map(final(self).book.bids@) == apply_updates_map(
                Map::empty(),
                decoded_pairs(bids@, old(self).price_scale as nat, old(self).qty_scale as nat),
            ),
            side_map(final(self).book.asks@) == apply_updates_map(
                Map::empty(),
                decoded_pairs(asks@, old(self).price_scale as nat, old(self).qty_scale as nat),
            ),
            final(self).book.last_update_id == last_update_id,
            final(self).candles == old(self).candles,
            final(self).footprint == old(self).footprint,
            final(self).sentiment == old(self).sentiment,
            final(self).oi == old(self).oi,
            final(self).trades_buffer@ == old(self).trades_buffer@,
            final(self).current_open == old(self).current_open,
            final(self).last_depth_update == old(self).last_depth_update,
            final(self).price_scale == old(self).price_scale,
            final(self).qty_scale == old(self).qty_scale,
            final(self).tick_size == old(self).tick_size,
            final(self).bucket_size == old(self).bucket_size,
    {
        let bid_rows = decode_pairs(bids, self.price_scale, self.qty_scale);
        let ask_rows = decode_pairs(asks, self.price_scale, self.qty_scale);
        self.book.apply_snapshot(&bid_rows, &ask_rows, last_update_id);
    }

    /// Appends one open-interest sample; a malformed value is dropped.
    pub fn on_oi(&mut self, raw: &RawOiSample)
        requires
            old(self).wf(),
        ensures
            final(self).wf(),
            field_ok(raw.value@, old(self).qty_scale as nat) ==> final(self).oi.points@ == old(self).oi.points@.push((raw.time, field_val(raw.value@, old(self).qty_scale as nat) as u64)),
            !field_ok(raw.value@, old(self).qty_scale as nat) ==> final(self).oi == old(self).oi,
            final(self).book == old(self).book,
            final(self).candles == old(self).candles,
            final(self).footprint == old(self).footprint,
            final(self).sentiment == old(self).sentiment,
            final(self).trades_buffer@ == old(self).trades_buffer@,
            final(self).current_open == old(self).current_open,
            final(self).last_depth_update == old(self).last_depth_update,
            final(self).price_scale == old(self).price_scale,
            final(self).qty_scale == old(self).qty_scale,
            final(self).tick_size == old(self).tick_size,
            final(self).bucket_size == old(self).bucket_size,
    {
        match decode_oi(raw, self.qty_scale) {
            Some((time, value)) => {
                self.oi.push(time, value);
            },
            None => {},
        }
    }

    /// The stored candle keys, oldest first.
    pub fn get_kline_ohlcv_keys(&self) -> (r: Vec<u64>)
        ensures
            r@ == self.candles.klines@.map_values(|k: Kline| k.open_time),
    {
        self.candles.keys()
    }

    /// Configures the instrument's tick and the display bucket as tick
    /// times the user's setting. Succeeds exactly when both are positive
    /// and the product fits; otherwise nothing changes.
    pub fn set_symbol_info(&mut self, default_tick_size: u64, user_tick_setting: u64) -> (r: bool)
        requires
            old(self).wf(),
        ensures
            final(self).wf(),
            r <==> default_tick_size > 0 && user_tick_setting > 0 && default_tick_size
                * user_tick_setting <= u64::MAX,
            r ==> final(self).tick_size == default_tick_size && final(self).bucket_size
                == default_tick_size * user_tick_setting,
            !r ==> final(self).tick_size == old(self).tick_size && final(self).bucket_size == old(self).bucket_size,
            final(self).book == old(self).book,
            final(self).candles == old(self).candles,
            final(self).footprint == old(self).footprint,
            final(self).sentiment == old(self).sentiment,
            final(self).oi == old(self).oi,
            final(self).trades_buffer@ == old(self).trades_buffer@,
            final(self).current_open == old(self).current_open,
            final(self).last_depth_update == old(self).last_depth_update,
            final(self).price_scale == old(self).price_scale,
            final(self).qty_scale == old(self).qty_scale,
    {
        if default_tick_size == 0 || user_tick_setting == 0 {
            return false;
        }
        match default_tick_size.checked_mul(user_tick_setting) {
            Some(bucket) => {
                proof {
                    assert(bucket > 0) by (nonlinear_arith)
                        requires
                            bucket == default_tick_size * user_tick_setting,
                            default_tick_size >= 1,
                            user_tick_setting >= 1,
                    ;
                }
                self.tick_size = default_tick_size;
                self.bucket_size = bucket;
                true
            },
            None => false,
        }
    }

    /// Rescales the display bucket as the user's setting times the
    /// configured tick. Succeeds exactly when the setting is positive and
    /// the product fits; otherwise nothing changes.
    pub fn set_tick_size(&mut self, user_tick_setting: u64) -> (r: bool)
        requires
            old(self).wf(),
        ensures
            final(self).wf(),
            r <==> user_tick_setting > 0 && user_tick_setting * old(self).tick_size <= u64::MAX,
            r ==> final(self).bucket_size == user_tick_setting * old(self).tick_size,
            !r ==> final(self).bucket_size == old(self).bucket_size,
            final(self).tick_size == old(self).tick_size,
            final(self).book == old(self).book,
            final(self).candles == old(self).candles,
            final(self).footprint == old(self).footprint,
            final(self).sentiment == old(self).sentiment,
            final(self).oi == old(self).oi,
            final(self).trades_buffer@ == old(self).trades_buffer@,
            final(self).current_open == old(self).current_open,
            final(self).last_depth_update == old(self).last_depth_update,
            final(self).price_scale == old(self).price_scale,
            final(self).qty_scale == old(self).qty_scale,
    {
        if user_tick_setting == 0 {
            return false;
        }
        let tick = self.tick_size;
        match user_tick_setting.checked_mul(tick) {
            Some(bucket) => {
                proof {
                    assert(bucket > 0) by (nonlinear_arith)
                        requires
                            bucket == user_tick_setting * tick,
                            tick >= 1,
                            user_tick_setting >= 1,
                    ;
                }
                self.bucket_size = bucket;
                true
            },
            None => false,
        }
    }

    /// The sentiment window's current view, as copies.
    pub fn sentiment_snapshot(&self) -> (r: (Vec<Trade>, Vec<(u64, usize)>, Vec<(u64, usize)>))
        ensures
            r.0@ == self.sentiment.trades@,
            r.1@ == self.sentiment.buy_counts@,
            r.2@ == self.sentiment.sell_counts@,
    {
        self.sentiment.snapshot()
    }

    /// Clears every collection for an instrument switch: book, candles,
    /// footprint, sentiment, open interest, the trade buffer and both
    /// markers. Configuration and scales stay.
    pub fn reset(&mut self)
        requires
            old(self).wf(),
        ensures
            final(self).wf(),
            final(self).book.bids@.len() == 0,
            final(self).book.asks@.len() == 0,
            final(self).book.last_update_id == 0,
            final(self).candles.klines@.len() == 0,
            final(self).footprint.groups@.len() == 0,
            final(self).sentiment.trades@.len() == 0,
            final(self).sentiment.buy_counts@.len() == 0,
            final(self).sentiment.sell_counts@.len() == 0,
            final(self).oi.points@.len() == 0,
            final(self).trades_buffer@.len() == 0,
            final(self).current_open.is_none(),
            final(self).last_depth_update == 0,
            final(self).price_scale == old(self).price_scale,
            final(self).qty_scale == old(self).qty_scale,
            final(self).tick_size == old(self).tick_size,
            final(self).bucket_size == old(self).bucket_size,
            final(self).sentiment.window_ms == old(self).sentiment.window_ms,
    {
        self.book = PriceLevelBook::new();
        self.candles.clear();
        self.footprint.clear();
        self.sentiment.clear();
        self.oi.clear();
        self.trades_buffer.clear();
        self.current_open = None;
        self.last_depth_update = 0;
    }

    /// Builds the frame's view: the candles, bucketed trades, bucketed
    /// book, open interest and scaling extrema for the visible time range,
    /// all as copies. The coordinator itself is only read.
    pub fn render_snapshot(&self, t0: u64, t1: u64) -> (r: RenderModel)
        requires
            self.wf(),
        ensures
            r.candles@ == self.candles.klines@.filter(|k: Kline| t0 <= k.open_time <= t1),
            r.oi_points@ == self.oi.points@.filter(|p: (u64, u64)| t0 <= p.0 <= t1),
            groups_exactly(order_pairs(self.book.bids@), self.bucket_size, r.bids@),
            groups_exactly(order_pairs(self.book.asks@), self.bucket_size, r.asks@),
            r.trades@.len() == r.candles@.len(),
            forall|i: int|
                0 <= i < r.trades@.len() ==> (#[trigger] r.trades@[i]).0 == r.candles@[i].open_time
                    && groups_exactly(
                    group_or_empty(groups_map(self.footprint.groups@), r.candles@[i].open_time).0,
                    self.bucket_size,
                    r.trades@[i].1.buys@,
                ) && groups_exactly(
                    group_or_empty(groups_map(self.footprint.groups@), r.candles@[i].open_time).1,
                    self.bucket_size,
                    r.trades@[i].1.sells@,
                ),
            price_extreme_ok(r.candles@, r.price_low, r.price_high),
            volume_extreme_ok(r.candles@, r.max_volume),
            cvd_extreme_ok(r.candles@, r.cvd_low, r.cvd_high),
            book_max_ok(self.book.bids@, self.book.asks@, r.book_max_quantity),
            trades_max_ok(r.trades@, r.trade_max_quantity),
            r.last_depth_update == self.last_depth_update,
    {
        let candles = self.candles.visible(t0, t1);
        let oi_points = self.oi.visible(t0, t1);
        let bids = crate::book::group_orders(self.bucket_size, &self.book.bids);
        let asks = crate::book::group_orders(self.bucket_size, &self.book.asks);
        let mut trades: Vec<(u64, GroupedTrades)> = Vec::new();
        let n = candles.len();
        let mut i: usize = 0;
        while i < n
            invariant
                0 <= i <= n == candles@.len(),
                self.wf(),
                trades@.len() == i,
                forall|j: int|
                    0 <= j < i ==> (#[trigger] trades@[j]).0 == candles@[j].open_time
                        && groups_exactly(
                        group_or_empty(
                            groups_map(self.footprint.groups@),
                            candles@[j].open_time,
                        ).0,
                        self.bucket_size,
                        trades@[j].1.buys@,
                    ) && groups_exactly(
                        group_or_empty(
                            groups_map(self.footprint.groups@),
                            candles@[j].open_time,
                        ).1,
                        self.bucket_size,
                        trades@[j].1.sells@,
                    ),
            decreases n - i,
        {
            let key = candles[i].open_time;
            let g = self.footprint.query_grouped(key, self.bucket_size);
            trades.push((key, g));
            i = i + 1;
        }
        let (price_low, price_high) = price_extremes(&candles);
        let max_volume = volume_extreme(&candles);
        let (cvd_low, cvd_high) = cvd_extremes(&candles);
        let book_max_quantity = book_max(&self.book.bids, &self.book.asks);
        let trade_max_quantity = trades_max(&trades);
        RenderModel {
            candles,
            trades,
            bids,
            asks,
            oi_points,
            price_low,
            price_high,
            max_volume,
            cvd_low,
            cvd_high,
            book_max_quantity,
            trade_max_quantity,
            last_depth_update: self.last_depth_update,
        }
    }
}

/// `lo` and `hi` are the least low and greatest high of `s`, absent
/// exactly when `s` is empty.
pub open spec fn price_extreme_ok(s: Seq<Kline>, lo: Option<u64>, hi: Option<u64>) -> bool {
    &&& lo.is_some() <==> s.len() > 0
    &&& hi.is_some() <==> s.len() > 0
    &&& lo matches Some(v) ==> (forall|i: int| 0 <= i < s.len() ==> v <= (#[trigger] s[i].low))
        && (exists|i: int| 0 <= i < s.len() && v == (#[trigger] s[i].low))
    &&& hi matches Some(v) ==> (forall|i: int| 0 <= i < s.len() ==> v >= (#[trigger] s[i].high))
        && (exists|i: int| 0 <= i < s.len() && v == (#[trigger] s[i].high))
}

/// `v` is the greatest buy or sell volume of `s`, absent exactly when `s`
/// is empty.
pub open spec fn volume_extreme_ok(s: Seq<Kline>, v: Option<u64>) -> bool {
    &&& v.is_some() <==> s.len() > 0
    &&& v matches Some(m) ==> (forall|i: int|
        0 <= i < s.len() ==> m >= (#[trigger] s[i].buy_volume) && m >= s[i].sell_volume) && (
    exists|i: int| 0 <= i < s.len() && (m == (#[trigger] s[i].buy_volume) || m == s[i].sell_volume))
}

/// `lo` and `hi` bound the cumulative volume delta of `s` tightly, absent
/// exactly when `s` is empty.
pub open spec fn cvd_extreme_ok(s: Seq<Kline>, lo: Option<i128>, hi: Option<i128>) -> bool {
    &&& lo.is_some() <==> s.len() > 0
    &&& hi.is_some() <==> s.len() > 0
    &&& lo matches Some(v) ==> (forall|i: int|
        0 <= i < s.len() ==> v <= (#[trigger] s[i].cum_volume_delta)) && (exists|i: int|
        0 <= i < s.len() && v == (#[trigger] s[i].cum_volume_delta))
    &&& hi matches Some(v) ==> (forall|i: int|
        0 <= i < s.len() ==> v >= (#[trigger] s[i].cum_volume_delta)) && (exists|i: int|
        0 <= i < s.len() && v == (#[trigger] s[i].cum_volume_delta))
}

/// `m` bounds every resting quantity on both sides and is one of them, or
/// zero when both sides are empty.
pub open spec fn book_max_ok(bids: Seq<Order>, asks: Seq<Order>, m: u64) -> bool {
    &&& forall|i: int| 0 <= i < bids.len() ==> m >= (#[trigger] bids[i].quantity)
    &&& forall|i: int| 0 <= i < asks.len() ==> m >= (#[trigger] asks[i].quantity)
    &&& bids.len() == 0 && asks.len() == 0 ==> m == 0
    &&& bids.len() > 0 || asks.len() > 0 ==> (exists|i: int|
        0 <= i < bids.len() && m == (#[trigger] bids[i].quantity)) || (exists|i: int|
        0 <= i < asks.len() && m == (#[trigger] asks[i].quantity))
}

/// `m` bounds every bucketed total on every visible candle's sides and is
/// one of them, or zero when there is none.
pub open spec fn trades_max_ok(ts: Seq<(u64, GroupedTrades)>, m: u128) -> bool {
    &&& forall|i: int, j: int|
        0 <= i < ts.len() && 0 <= j < ts[i].1.buys@.len() ==> m >= (#[trigger] ts[i].1.buys@[
            j
        ]).1
    &&& forall|i: int, j: int|
        0 <= i < ts.len() && 0 <= j < ts[i].1.sells@.len() ==> m >= (#[trigger] ts[i].1.sells@[
            j
        ]).1
    &&& m == 0 || (exists|i: int, j: int|
        0 <= i < ts.len() && 0 <= j < ts[i].1.buys@.len() && m == (#[trigger] ts[i].1.buys@[
            j
        ]).1) || (exists|i: int, j: int|
        0 <= i < ts.len() && 0 <= j < ts[i].1.sells@.len() && m == (#[trigger] ts[i].1.sells@[
            j
        ]).1)
}

/// Raises `cur` to the greatest total of one bucketed side.
fn side_total_max(cur: u128, v: &Vec<(u64, u128)>) -> (r: u128)
    ensures
        r >= cur,
        forall|j: int| 0 <= j < v@.len() ==> r >= (#[trigger] v@[j]).1,
        r == cur || (exists|j: int| 0 <= j < v@.len() && r == (#[trigger] v@[j]).1),
{
    let mut m: u128 = cur;
    let ghost mut w: Option<int> = None;
    let n = v.len();
    let mut j: usize = 0;
    while j < n
        invariant
            0 <= j <= n == v@.len(),
            m >= cur,
            forall|k: int| 0 <= k < j ==> m >= (#[trigger] v@[k]).1,
            w matches Some(k) ==> 0 <= k < j && v@[k].1 == m,
            w.is_none() ==> m == cur,
        decreases n - j,
    {
        if v[j].1 > m {
            m = v[j].1;
            proof {
                w = Some(j as int);
            }
        }
        j = j + 1;
    }
    m
}

/// The greatest bucketed trade total over all visible candles.
fn trades_max(ts: &Vec<(u64, GroupedTrades)>) -> (r: u128)
    ensures
        trades_max_ok(ts@, r),
{
    let mut m: u128 = 0;
    let ghost mut w: Option<(int, bool)> = None;
    let n = ts.len();
    let mut i: usize = 0;
    while i < n
        invariant
            0 <= i <= n == ts@.len(),
            forall|x: int, j: int|
                0 <= x < i && 0 <= j < ts@[x].1.buys@.len() ==> m >= (#[trigger] ts@[x].1.buys@[
                    j
                ]).1,
            forall|x: int, j: int|
                0 <= x < i && 0 <= j < ts@[x].1.sells@.len() ==> m >= (#[trigger] ts@[x].1.sells@[
                    j
                ]).1,
            w matches Some(e) ==> 0 <= e.0 < i && (if e.1 {
                exists|j: int| 0 <= j < ts@[e.0].1.buys@.len() && m == (#[trigger] ts@[e.0].1.buys@[
                    j
                ]).1
            } else {
                exists|j: int|
                    0 <= j < ts@[e.0].1.sells@.len() && m == (#[trigger] ts@[e.0].1.sells@[j]).1
            }),
            w.is_none() ==> m == 0,
        decreases n - i,
    {
        let before_buys = m;
        m = side_total_max(m, &ts[i].1.buys);
        proof {
            if m != before_buys {
                w = Some((i as int, true));
            }
        }
        let before_sells = m;
        m = side_total_max(m, &ts[i].1.sells);
        proof {
            if m != before_sells {
                w = Some((i as int, false));
            }
        }
        i = i + 1;
    }
    m
}

/// The least low and greatest high of the given candles.
fn price_extremes(s: &Vec<Kline>) -> (r: (Option<u64>, Option<u64>))
    ensures
        price_extreme_ok(s@, r.0, r.1),
{
    let n = s.len();
    if n == 0 {
        return (None, None);
    }
    let mut lo: u64 = s[0].low;
    let mut hi: u64 = s[0].high;
    let ghost mut li: int = 0;
    let ghost mut hj: int = 0;
    let mut i: usize = 1;
    while i < n
        invariant
            1 <= i <= n == s@.len(),
            0 <= li < i,
            0 <= hj < i,
            s@[li].low == lo,
            s@[hj].high == hi,
            forall|j: int| 0 <= j < i ==> lo <= (#[trigger] s@[j].low),
            forall|j: int| 0 <= j < i ==> hi >= (#[trigger] s@[j].high),
        decreases n - i,
    {
        if s[i].low < lo {
            lo = s[i].low;
            proof {
                li = i as int;
            }
        }
        if s[i].high > hi {
            hi = s[i].high;
            proof {
                hj = i as int;
            }
        }
        i = i + 1;
    }
    (Some(lo), Some(hi))
}

/// The greatest buy or sell volume of the given candles.
fn volume_extreme(s: &Vec<Kline>) -> (r: Option<u64>)
    ensures
        volume_extreme_ok(s@, r),
{
    let n = s.len();
    if n == 0 {
        return None;
    }
    let mut m: u64 = s[0].buy_volume;
    let ghost mut w: int = 0;
    let mut i: usize = 0;
    while i < n
        invariant
            0 <= i <= n == s@.len(),
            0 <= w < n,
            s@[w].buy_volume == m || s@[w].sell_volume == m,
            forall|j: int| 0 <= j < i ==> m >= (#[trigger] s@[j].buy_volume) && m >= s@[j].sell_volume,
        decreases n - i,
    {
        if s[i].buy_volume > m {
            m = s[i].buy_volume;
            proof {
                w = i as int;
            }
        }
        if s[i].sell_volume > m {
            m = s[i].sell_volume;
            proof {
                w = i as int;
            }
        }
        i = i + 1;
    }
    Some(m)
}

/// The tight bounds on the cumulative volume delta of the given candles.
fn cvd_extremes(s: &Vec<Kline>) -> (r: (Option<i128>, Option<i128>))
    ensures
        cvd_extreme_ok(s@, r.0, r.1),
{
    let n = s.len();
    if n == 0 {
        return (None, None);
    }
    let mut lo: i128 = s[0].cum_volume_delta;
    let mut hi: i128 = s[0].cum_volume_delta;
    let ghost mut li: int = 0;
    let ghost mut hj: int = 0;
    let mut i: usize = 1;
    while i < n
        invariant
            1 <= i <= n == s@.len(),
            0 <= li < i,
            0 <= hj < i,
            s@[li].cum_volume_delta == lo,
            s@[hj].cum_volume_delta == hi,
            forall|j: int| 0 <= j < i ==> lo <= (#[trigger] s@[j].cum_volume_delta),
            forall|j: int| 0 <= j < i ==> hi >= (#[trigger] s@[j].cum_volume_delta),
        decreases n - i,
    {
        if s[i].cum_volume_delta < lo {
            lo = s[i].cum_volume_delta;
            proof {
                li = i as int;
            }
        }
        if s[i].cum_volume_delta > hi {
            hi = s[i].cum_volume_delta;
            proof {
                hj = i as int;
            }
        }
        i = i + 1;
    }
    (Some(lo), Some(hi))
}

/// The greatest resting quantity on either book side, zero for an empty
/// book.
fn book_max(bids: &Vec<Order>, asks: &Vec<Order>) -> (r: u64)
    ensures
        book_max_ok(bids@, asks@, r),
{
    let mut m: u64 = 0;
    let ghost mut wb: Option<int> = None;
    let ghost mut wa: Option<int> = None;
    let nb = bids.len();
    let mut i: usize = 0;
    while i < nb
        invariant
            0 <= i <= nb == bids@.len(),
            forall|j: int| 0 <= j < i ==> m >= (#[trigger] bids@[j].quantity),
            m > 0 || i == 0 || (forall|j: int| 0 <= j < i ==> (#[trigger] bids@[j].quantity) == 0),
            wb matches Some(k) ==> 0 <= k < i && bids@[k].quantity == m,
            wb.is_none() ==> m == 0,
        decreases nb - i,
    {
        if bids[i].quantity > m {
            m = bids[i].quantity;
            proof {
                wb = Some(i as int);
            }
        }
        i = i + 1;
    }
    let na = asks.len();
    let mut j: usize = 0;
    while j < na
        invariant
            0 <= j <= na == asks@.len(),
            forall|k: int| 0 <= k < nb ==> m >= (#[trigger] bids@[k].quantity),
            forall|k: int| 0 <= k < j ==> m >= (#[trigger] asks@[k].quantity),
            wb matches Some(k) ==> 0 <= k < nb && bids@[k].quantity == m,
            wa matches Some(k) ==> 0 <= k < j && asks@[k].quantity == m,
            wb.is_none() && wa.is_none() ==> m == 0,
            nb == bids@.len(),
        decreases na - j,
    {
        if asks[j].quantity > m {
            m = asks[j].quantity;
            proof {
                wa = Some(j as int);
                wb = None;
            }
        }
        j = j + 1;
    }
    proof {
        if bids@.len() > 0 || asks@.len() > 0 {
            if m == 0 {
                if bids@.len() > 0 {
                    assert(bids@[0].quantity == 0);
                } else {
                    assert(asks@[0].quantity == 0);
                }
            }
        }
    }
    m
}

} // verus!
