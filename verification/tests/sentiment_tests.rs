use marketflow::events::Trade;
use marketflow::sentiment::SentimentWindow;

fn trade(time: u64, seller: bool) -> Trade {
    Trade { price: 10000, quantity: 1, time, is_seller_initiated: seller }
}

#[test]
fn ingest_counts_both_sides_per_timestamp() {
    let mut w = SentimentWindow::new(30_000);
    let batch = vec![
        trade(100_000, false),
        trade(100_010, true),
        trade(100_020, false),
    ];
    w.ingest(&batch, 100_050);
    let (trades, buys, sells) = w.snapshot();
    assert_eq!(trades.len(), 3);
    assert_eq!(buys, vec![(100_050, 2)]);
    assert_eq!(sells, vec![(100_050, 1)]);
    assert_eq!(w.latest, 100_050);
}

#[test]
fn window_prunes_trades_and_counters() {
    let mut w = SentimentWindow::new(30_000);
    w.ingest(&vec![trade(100_000, false)], 100_000);
    w.ingest(&vec![trade(125_000, true)], 125_000);
    // Everything from the first ingest is within 30 s of 125 000 and stays.
    assert_eq!(w.trades.len(), 2);
    assert_eq!(w.buy_counts.len(), 2);
    // A third ingest at 140 000 prunes what predates 110 000.
    w.ingest(&Vec::new(), 140_000);
    let (trades, buys, sells) = w.snapshot();
    assert_eq!(trades.len(), 1);
    assert_eq!(trades[0].time, 125_000);
    assert_eq!(buys, vec![(125_000, 0), (140_000, 0)]);
    assert_eq!(sells, vec![(125_000, 1), (140_000, 0)]);
}

#[test]
fn nothing_retained_is_older_than_the_window() {
    let mut w = SentimentWindow::new(30_000);
    w.ingest(&vec![trade(100_000, false), trade(100_020, true)], 100_050);
    w.ingest(&vec![trade(126_000, false)], 126_000);
    w.ingest(&vec![trade(141_000, true)], 141_000);
    let cutoff = w.latest - w.window_ms;
    let (trades, buys, sells) = w.snapshot();
    assert!(trades.iter().all(|t| t.time >= cutoff));
    assert!(buys.iter().all(|(t, _)| *t >= cutoff));
    assert!(sells.iter().all(|(t, _)| *t >= cutoff));
}

#[test]
fn repeated_timestamp_replaces_its_counter() {
    let mut w = SentimentWindow::new(30_000);
    w.ingest(&vec![trade(100_000, false)], 100_000);
    w.ingest(&vec![trade(100_001, true), trade(100_002, true)], 100_000);
    assert_eq!(w.buy_counts, vec![(100_000, 0)]);
    assert_eq!(w.sell_counts, vec![(100_000, 2)]);
}

#[test]
fn early_timestamp_does_not_wrap_the_cutoff() {
    let mut w = SentimentWindow::new(30_000);
    w.ingest(&vec![trade(5, false)], 10);
    assert_eq!(w.trades.len(), 1);
    assert_eq!(w.buy_counts, vec![(10, 1)]);
}

#[test]
fn clear_forgets_everything() {
    let mut w = SentimentWindow::new(30_000);
    w.ingest(&vec![trade(100_000, false)], 100_000);
    w.clear();
    assert!(w.trades.is_empty());
    assert!(w.buy_counts.is_empty());
    assert!(w.sell_counts.is_empty());
    assert_eq!(w.latest, 0);
    assert_eq!(w.window_ms, 30_000);
}

#[test]
fn scaling_queries_report_tight_extremes() {
    let mut w = SentimentWindow::new(30_000);
    assert_eq!(w.max_quantity(), None);
    assert_eq!(w.price_bounds(), (None, None));
    assert_eq!(w.max_count(), 0);
    let batch = vec![
        Trade { price: 10004, quantity: 3, time: 100_000, is_seller_initiated: false },
        Trade { price: 10011, quantity: 7, time: 100_010, is_seller_initiated: true },
        Trade { price: 9_998, quantity: 2, time: 100_020, is_seller_initiated: false },
    ];
    w.ingest(&batch, 100_050);
    assert_eq!(w.max_quantity(), Some(7));
    assert_eq!(w.price_bounds(), (Some(9_998), Some(10011)));
    assert_eq!(w.max_count(), 2);
}
