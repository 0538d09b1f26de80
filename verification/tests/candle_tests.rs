use marketflow::candles::{CandleAggregator, CandleError, CandleInput, VOL_MAX};

fn tick(open_time: u64, volume: u64, buy_volume: u64) -> CandleInput {
    CandleInput {
        open_time,
        open: 100,
        high: 110,
        low: 90,
        close: 105,
        volume,
        buy_volume,
        close_time: open_time + 59_999,
    }
}

#[test]
fn revision_replaces_cvd_contribution() {
    // Candle {open_time 1000, buy 5, sell 2}, revised to {buy 7, sell 2}:
    // the running delta ends at 5, not 3 + 5.
    let mut agg = CandleAggregator::new();
    agg.ingest_live_candle(tick(1000, 7, 5)).unwrap();
    assert_eq!(agg.klines[0].cum_volume_delta, 3);
    agg.ingest_live_candle(tick(1000, 9, 7)).unwrap();
    assert_eq!(agg.klines.len(), 1);
    assert_eq!(agg.klines[0].buy_volume, 7);
    assert_eq!(agg.klines[0].sell_volume, 2);
    assert_eq!(agg.klines[0].cum_volume_delta, 5);
}

#[test]
fn cvd_is_running_sum_over_closed_candles() {
    let mut agg = CandleAggregator::new();
    agg.ingest_live_candle(tick(1000, 7, 5)).unwrap(); // delta 3
    agg.ingest_live_candle(tick(1000, 9, 7)).unwrap(); // revised delta 5
    agg.ingest_live_candle(tick(61_000, 10, 2)).unwrap(); // delta -6
    agg.ingest_live_candle(tick(121_000, 4, 4)).unwrap(); // delta 4
    let cvds: Vec<i128> = agg.klines.iter().map(|k| k.cum_volume_delta).collect();
    assert_eq!(cvds, vec![5, -1, 3]);
}

#[test]
fn backfill_reproduces_live_fold() {
    let rows = vec![
        tick(1000, 7, 5),
        tick(1000, 9, 7),
        tick(61_000, 10, 2),
        tick(121_000, 4, 4),
    ];
    let mut live = CandleAggregator::new();
    for row in &rows {
        let _ = live.ingest_live_candle(*row);
    }
    let mut backfilled = CandleAggregator::new();
    backfilled.ingest_backfill(&rows);
    assert_eq!(live.klines, backfilled.klines);
}

#[test]
fn buy_volume_above_volume_is_rejected() {
    let mut agg = CandleAggregator::new();
    assert_eq!(
        agg.ingest_live_candle(tick(1000, 3, 5)),
        Err(CandleError::VolumeMismatch)
    );
    assert!(agg.klines.is_empty());
}

#[test]
fn oversized_volume_is_rejected() {
    let mut agg = CandleAggregator::new();
    assert_eq!(
        agg.ingest_live_candle(tick(1000, VOL_MAX + 1, 1)),
        Err(CandleError::VolumeTooLarge)
    );
    assert!(agg.klines.is_empty());
}

#[test]
fn out_of_order_candle_is_rejected() {
    let mut agg = CandleAggregator::new();
    agg.ingest_live_candle(tick(61_000, 7, 5)).unwrap();
    assert_eq!(
        agg.ingest_live_candle(tick(1000, 7, 5)),
        Err(CandleError::OutOfOrder)
    );
    assert_eq!(agg.klines.len(), 1);
    assert_eq!(agg.klines[0].open_time, 61_000);
}

#[test]
fn backfill_drops_rejected_rows_individually() {
    let rows = vec![
        tick(1000, 7, 5),
        tick(61_000, 3, 5),  // buy above volume: dropped
        tick(121_000, 6, 6), // delta 6
    ];
    let mut agg = CandleAggregator::new();
    agg.ingest_backfill(&rows);
    assert_eq!(agg.keys(), vec![1000, 121_000]);
    assert_eq!(agg.klines[1].cum_volume_delta, 3 + 6);
}

#[test]
fn visible_selects_by_open_time() {
    let mut agg = CandleAggregator::new();
    agg.ingest_live_candle(tick(1000, 1, 1)).unwrap();
    agg.ingest_live_candle(tick(61_000, 1, 1)).unwrap();
    agg.ingest_live_candle(tick(121_000, 1, 1)).unwrap();
    let vis = agg.visible(1001, 121_000);
    let keys: Vec<u64> = vis.iter().map(|k| k.open_time).collect();
    assert_eq!(keys, vec![61_000, 121_000]);
    assert_eq!(agg.last_open_time(), Some(121_000));
}
