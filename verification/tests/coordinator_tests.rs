use marketflow::events::{RawCandle, RawOiSample, RawPair, RawTrade};
use marketflow::oi::OpenInterestSeries;
use marketflow::state::StateCoordinator;

fn raw_pair(price: &str, qty: &str) -> RawPair {
    RawPair { price: price.as_bytes().to_vec(), quantity: qty.as_bytes().to_vec() }
}

fn raw_trade(price: &str, qty: &str, time: u64, seller: bool) -> RawTrade {
    RawTrade {
        price: price.as_bytes().to_vec(),
        quantity: qty.as_bytes().to_vec(),
        time,
        is_seller_initiated: seller,
    }
}

fn raw_candle(open_time: u64, volume: &str, buy_volume: &str) -> RawCandle {
    RawCandle {
        open_time,
        open: b"100.00".to_vec(),
        high: b"101.00".to_vec(),
        low: b"99.00".to_vec(),
        close: b"100.50".to_vec(),
        volume: volume.as_bytes().to_vec(),
        buy_volume: buy_volume.as_bytes().to_vec(),
        close_time: open_time + 59_999,
    }
}

fn coordinator() -> StateCoordinator {
    StateCoordinator::new(2, 3, 30_000)
}

#[test]
fn candle_tick_decodes_and_opens_the_candle() {
    let mut c = coordinator();
    c.on_candle_tick(&raw_candle(60_000, "7", "5"));
    assert_eq!(c.current_open, Some(60_000));
    assert_eq!(c.candles.klines.len(), 1);
    // Volumes carry three decimals, prices two.
    assert_eq!(c.candles.klines[0].buy_volume, 5_000);
    assert_eq!(c.candles.klines[0].sell_volume, 2_000);
    assert_eq!(c.candles.klines[0].open, 10_000);
    assert_eq!(c.candles.klines[0].cum_volume_delta, 3_000);
}

#[test]
fn malformed_candle_tick_is_dropped_whole() {
    let mut c = coordinator();
    c.on_candle_tick(&raw_candle(60_000, "oops", "5"));
    assert!(c.candles.klines.is_empty());
    assert_eq!(c.current_open, None);
}

#[test]
fn trades_buffer_until_a_depth_frame_drains_them() {
    let mut c = coordinator();
    c.on_candle_tick(&raw_candle(60_000, "7", "5"));
    c.on_trade(&raw_trade("100.04", "1", 60_010, false));
    c.on_trade(&raw_trade("100.06", "2", 60_020, false));
    c.on_trade(&raw_trade("bad", "2", 60_025, false)); // dropped
    assert_eq!(c.trades_buffer.len(), 2);
    c.on_depth(&Vec::new(), &Vec::new(), 60_030);
    assert!(c.trades_buffer.is_empty());
    let g = c.footprint.query_grouped(60_000, 10);
    assert_eq!(g.buys, vec![(10_000, 3_000)]);
    let (trades, buys, sells) = c.sentiment_snapshot();
    assert_eq!(trades.len(), 2);
    assert_eq!(buys, vec![(60_030, 2)]);
    assert_eq!(sells, vec![(60_030, 0)]);
    assert_eq!(c.last_depth_update, 60_030);
}

#[test]
fn trades_before_any_candle_are_discarded() {
    let mut c = coordinator();
    c.on_trade(&raw_trade("100.04", "1", 60_010, false));
    assert!(c.trades_buffer.is_empty());
    c.on_depth(&Vec::new(), &Vec::new(), 60_030);
    assert!(c.footprint.groups.is_empty());
}

#[test]
fn depth_frame_updates_the_book_with_skips() {
    let mut c = coordinator();
    c.on_book_snapshot(
        &vec![raw_pair("100.00", "1"), raw_pair("99.00", "2")],
        &vec![raw_pair("101.00", "1")],
        42,
    );
    assert_eq!(c.book.last_update_id, 42);
    c.on_depth(
        &vec![
            raw_pair("100.00", "0"),   // removes the level
            raw_pair("98.00", "5"),    // below the least bid: discarded
            raw_pair("bad", "5"),      // malformed: skipped
            raw_pair("99.50", "3"),    // admitted insert
        ],
        &Vec::new(),
        43,
    );
    let (mut bids, _) = c.book.read();
    bids.sort_by_key(|o| o.price);
    let pairs: Vec<(u64, u64)> = bids.iter().map(|o| (o.price, o.quantity)).collect();
    assert_eq!(pairs, vec![(9_900, 2_000), (9_950, 3_000)]);
}

#[test]
fn candle_backfill_seeds_the_running_delta() {
    let mut c = coordinator();
    c.on_candle_backfill(&vec![
        raw_candle(60_000, "7", "5"),
        raw_candle(120_000, "10", "2"),
    ]);
    let cvds: Vec<i128> = c.candles.klines.iter().map(|k| k.cum_volume_delta).collect();
    assert_eq!(cvds, vec![3_000, 3_000 - 6_000]);
    // The live path continues the same fold.
    c.on_candle_tick(&raw_candle(180_000, "4", "4"));
    assert_eq!(c.candles.klines[2].cum_volume_delta, -3_000 + 4_000);
}

#[test]
fn trades_backfill_fills_one_candle_group() {
    let mut c = coordinator();
    c.on_trades_backfill(
        60_000,
        &vec![
            raw_trade("100.04", "1", 60_010, false),
            raw_trade("100.11", "4", 60_020, true),
        ],
    );
    let g = c.footprint.query_grouped(60_000, 10);
    assert_eq!(g.buys, vec![(10_000, 1_000)]);
    assert_eq!(g.sells, vec![(10_010, 4_000)]);
}

#[test]
fn oi_samples_append_and_malformed_values_drop() {
    let mut c = coordinator();
    c.on_oi(&RawOiSample { time: 1, value: b"12.5".to_vec() });
    c.on_oi(&RawOiSample { time: 2, value: b"nope".to_vec() });
    c.on_oi(&RawOiSample { time: 3, value: b"13".to_vec() });
    assert_eq!(c.oi.points, vec![(1, 12_500), (3, 13_000)]);
}

#[test]
fn oi_series_extends_and_windows() {
    let mut oi = OpenInterestSeries::new();
    oi.push(1, 10);
    oi.extend(&vec![(2, 20), (3, 30)]);
    assert_eq!(oi.points, vec![(1, 10), (2, 20), (3, 30)]);
    assert_eq!(oi.visible(2, 3), vec![(2, 20), (3, 30)]);
    oi.clear();
    assert!(oi.points.is_empty());
}

#[test]
fn render_snapshot_windows_and_groups_everything() {
    let mut c = coordinator();
    assert!(c.set_symbol_info(10, 1)); // tick 0.10, bucket 0.10
    c.on_book_snapshot(
        &vec![raw_pair("100.00", "1"), raw_pair("99.95", "2")],
        &vec![raw_pair("100.10", "4")],
        7,
    );
    c.on_candle_backfill(&vec![
        raw_candle(60_000, "7", "5"),
        raw_candle(120_000, "10", "2"),
        raw_candle(180_000, "4", "4"),
    ]);
    c.on_candle_tick(&raw_candle(180_000, "4", "4"));
    c.on_trade(&raw_trade("100.04", "1", 180_010, false));
    c.on_depth(&Vec::new(), &Vec::new(), 180_020);
    c.on_oi(&RawOiSample { time: 130_000, value: b"12".to_vec() });
    c.on_oi(&RawOiSample { time: 190_000, value: b"13".to_vec() });

    let r = c.render_snapshot(120_000, 200_000);
    let keys: Vec<u64> = r.candles.iter().map(|k| k.open_time).collect();
    assert_eq!(keys, vec![120_000, 180_000]);
    assert_eq!(r.oi_points, vec![(130_000, 12_000), (190_000, 13_000)]);
    // Book grouped at bucket 10: 10000 and 9995 share a bucket.
    let mut bids = r.bids.clone();
    bids.sort_by_key(|e| e.0);
    assert_eq!(bids, vec![(9_990, 2_000), (10_000, 1_000)]);
    assert_eq!(r.asks, vec![(10_010, 4_000)]);
    // Footprint of the visible open candle.
    assert_eq!(r.trades.len(), 2);
    assert_eq!(r.trades[1].0, 180_000);
    assert_eq!(r.trades[1].1.buys, vec![(10_000, 1_000)]);
    // Extrema over the visible candles.
    assert_eq!(r.price_low, Some(9_900));
    assert_eq!(r.price_high, Some(10_100));
    assert_eq!(r.max_volume, Some(8_000));
    assert_eq!(r.cvd_low, Some(-3_000));
    assert_eq!(r.cvd_high, Some(-3_000 + 4_000));
    assert_eq!(r.book_max_quantity, 4_000);
    assert_eq!(r.trade_max_quantity, 1_000);
    assert_eq!(r.last_depth_update, 180_020);
}

#[test]
fn configuration_rejects_zero_and_overflow() {
    let mut c = coordinator();
    assert!(!c.set_symbol_info(0, 5));
    assert!(!c.set_symbol_info(5, 0));
    assert!(!c.set_symbol_info(u64::MAX, 2));
    assert_eq!(c.tick_size, 1);
    assert_eq!(c.bucket_size, 1);
    assert!(c.set_symbol_info(10, 5));
    assert_eq!(c.tick_size, 10);
    assert_eq!(c.bucket_size, 50);
    assert!(c.set_tick_size(3));
    assert_eq!(c.bucket_size, 30);
    assert!(!c.set_tick_size(0));
    assert!(!c.set_tick_size(u64::MAX));
    assert_eq!(c.bucket_size, 30);
}

#[test]
fn reset_clears_every_collection() {
    let mut c = coordinator();
    c.on_candle_tick(&raw_candle(60_000, "7", "5"));
    c.on_trade(&raw_trade("100.04", "1", 60_010, false));
    c.on_depth(&vec![raw_pair("100.00", "1")], &Vec::new(), 60_020);
    c.on_book_snapshot(&vec![raw_pair("100.00", "1")], &Vec::new(), 9);
    c.on_oi(&RawOiSample { time: 1, value: b"12".to_vec() });
    c.reset();
    assert!(c.book.bids.is_empty() && c.book.asks.is_empty());
    assert!(c.candles.klines.is_empty());
    assert!(c.footprint.groups.is_empty());
    assert!(c.sentiment.trades.is_empty());
    assert!(c.oi.points.is_empty());
    assert!(c.trades_buffer.is_empty());
    assert_eq!(c.current_open, None);
    assert_eq!(c.last_depth_update, 0);
    assert_eq!(c.get_kline_ohlcv_keys(), Vec::<u64>::new());
}
