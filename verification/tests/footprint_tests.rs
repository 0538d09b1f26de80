use marketflow::events::Trade;
use marketflow::footprint::FootprintAggregator;

fn buy(price: u64, quantity: u64, time: u64) -> Trade {
    Trade { price, quantity, time, is_seller_initiated: false }
}

fn sell(price: u64, quantity: u64, time: u64) -> Trade {
    Trade { price, quantity, time, is_seller_initiated: true }
}

#[test]
fn nearby_prices_share_one_bucket() {
    // Prices 100.04 and 100.06 at scale 2 with bucket 0.1 (scaled 10):
    // both land in the bucket keyed 10000, combined quantity 3.
    let mut fp = FootprintAggregator::new();
    fp.route_trade(1000, &buy(10004, 1, 5));
    fp.route_trade(1000, &buy(10006, 2, 6));
    let g = fp.query_grouped(1000, 10);
    assert_eq!(g.buys, vec![(10000, 3)]);
    assert!(g.sells.is_empty());
}

#[test]
fn bucket_totals_sum_raw_quantities_per_side() {
    let mut fp = FootprintAggregator::new();
    fp.route_trade(1000, &buy(10004, 1, 5));
    fp.route_trade(1000, &sell(10011, 4, 6));
    fp.route_trade(1000, &buy(10006, 2, 7));
    fp.route_trade(1000, &sell(10019, 5, 8));
    let g = fp.query_grouped(1000, 10);
    assert_eq!(g.buys, vec![(10000, 3)]);
    assert_eq!(g.sells, vec![(10010, 9)]);
}

#[test]
fn requerying_with_another_bucket_size_reads_same_raw_trades() {
    let mut fp = FootprintAggregator::new();
    fp.route_trade(1000, &buy(10004, 1, 5));
    fp.route_trade(1000, &buy(10006, 2, 6));
    let coarse = fp.query_grouped(1000, 10);
    assert_eq!(coarse.buys, vec![(10000, 3)]);
    let fine = fp.query_grouped(1000, 5);
    assert_eq!(fine.buys, vec![(10000, 1), (10005, 2)]);
    // The stored raw pairs are untouched by either query.
    assert_eq!(fp.groups.len(), 1);
    assert_eq!(fp.groups[0].0, 1000);
    assert_eq!(fp.groups[0].1.buy_trades, vec![(10004, 1), (10006, 2)]);
    assert!(fp.groups[0].1.sell_trades.is_empty());
}

#[test]
fn query_for_unknown_candle_is_empty() {
    let fp = FootprintAggregator::new();
    let g = fp.query_grouped(1000, 10);
    assert!(g.buys.is_empty());
    assert!(g.sells.is_empty());
}

#[test]
fn trades_attach_to_their_own_candle() {
    let mut fp = FootprintAggregator::new();
    fp.route_trade(1000, &buy(10004, 1, 5));
    fp.route_trade(61_000, &buy(10008, 2, 6));
    assert_eq!(fp.query_grouped(1000, 10).buys, vec![(10000, 1)]);
    assert_eq!(fp.query_grouped(61_000, 10).buys, vec![(10000, 2)]);
}

#[test]
fn set_group_replaces_a_candles_trades() {
    let mut fp = FootprintAggregator::new();
    fp.route_trade(1000, &buy(10004, 1, 5));
    fp.set_group(1000, &vec![sell(10011, 4, 6), buy(10021, 2, 7)]);
    let g = fp.query_grouped(1000, 10);
    assert_eq!(g.buys, vec![(10020, 2)]);
    assert_eq!(g.sells, vec![(10010, 4)]);
}

#[test]
fn route_batch_appends_in_order_and_drains_nothing_else() {
    let mut fp = FootprintAggregator::new();
    fp.route_trade(1000, &buy(10004, 1, 5));
    fp.route_batch(1000, &vec![buy(10006, 2, 6), sell(10011, 4, 7)]);
    assert_eq!(fp.groups[0].1.buy_trades, vec![(10004, 1), (10006, 2)]);
    assert_eq!(fp.groups[0].1.sell_trades, vec![(10011, 4)]);
}
