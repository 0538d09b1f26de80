use marketflow::book::{group_orders, Order, PriceLevelBook};

fn book_with_bids(bids: Vec<(u64, u64)>) -> PriceLevelBook {
    let mut book = PriceLevelBook::new();
    book.apply_snapshot(&bids, &Vec::new(), 1);
    book
}

#[test]
fn zero_quantity_delta_removes_level() {
    // Bids {10:1, 9:2}; delta [[10,0]] leaves {9:2}.
    let mut book = book_with_bids(vec![(10, 1), (9, 2)]);
    book.apply_delta_bids(&vec![(10, 0)]);
    let (bids, asks) = book.read();
    assert_eq!(bids, vec![Order { price: 9, quantity: 2 }]);
    assert!(asks.is_empty());
}

#[test]
fn removed_level_restores_with_exact_quantity() {
    // Remove price 10, then re-add it with quantity 5 in the same batch.
    let mut book = book_with_bids(vec![(10, 1), (9, 2)]);
    book.apply_delta_bids(&vec![(10, 0), (10, 5)]);
    let (mut bids, _) = book.read();
    bids.sort_by_key(|o| o.price);
    assert_eq!(
        bids,
        vec![Order { price: 9, quantity: 2 }, Order { price: 10, quantity: 5 }]
    );
}

#[test]
fn nonzero_delta_overwrites_quantity() {
    let mut book = book_with_bids(vec![(10, 1), (9, 2)]);
    book.apply_delta_bids(&vec![(9, 7)]);
    let (mut bids, _) = book.read();
    bids.sort_by_key(|o| o.price);
    assert_eq!(
        bids,
        vec![Order { price: 9, quantity: 7 }, Order { price: 10, quantity: 1 }]
    );
}

#[test]
fn bid_below_minimum_is_discarded() {
    let mut book = book_with_bids(vec![(10, 1), (9, 2)]);
    book.apply_delta_bids(&vec![(8, 4)]);
    let (bids, _) = book.read();
    assert_eq!(bids.len(), 2);
    assert!(bids.iter().all(|o| o.price != 8));
}

#[test]
fn ask_above_maximum_is_discarded() {
    let mut book = PriceLevelBook::new();
    book.apply_snapshot(&Vec::new(), &vec![(11, 1), (12, 2)], 1);
    book.apply_delta_asks(&vec![(13, 4)]);
    book.apply_delta_asks(&vec![(11, 9)]);
    let (_, mut asks) = book.read();
    asks.sort_by_key(|o| o.price);
    assert_eq!(
        asks,
        vec![Order { price: 11, quantity: 9 }, Order { price: 12, quantity: 2 }]
    );
}

#[test]
fn empty_side_admits_no_delta() {
    let mut book = PriceLevelBook::new();
    book.apply_delta_bids(&vec![(10, 1), (9, 2)]);
    let (bids, _) = book.read();
    assert!(bids.is_empty());
}

#[test]
fn snapshot_replaces_wholesale_and_drops_zero_rows() {
    let mut book = book_with_bids(vec![(10, 1), (9, 2)]);
    book.apply_snapshot(&vec![(20, 3), (21, 0), (20, 6)], &vec![(30, 1)], 77);
    let (bids, asks) = book.read();
    // The later duplicate row wins; the zero-quantity row is not stored.
    assert_eq!(bids, vec![Order { price: 20, quantity: 6 }]);
    assert_eq!(asks, vec![Order { price: 30, quantity: 1 }]);
    assert_eq!(book.last_update_id, 77);
}

#[test]
fn groups_orders_on_the_price_grid() {
    let orders = vec![
        Order { price: 10, quantity: 1 },
        Order { price: 9, quantity: 2 },
        Order { price: 11, quantity: 4 },
    ];
    let grouped = group_orders(2, &orders);
    // 10 and 11 share the bucket keyed 10; 9 falls in the bucket keyed 8.
    assert_eq!(grouped, vec![(10, 5), (8, 2)]);
}
