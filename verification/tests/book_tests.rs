use arbfinder::book::{FastOrderBook, OrderBookSnapshot, OrderBookUpdate, PriceLevel};
use arbfinder::builder::OrderBookBuilder;
use arbfinder::fixed::Decimal;
use arbfinder::types::{Side, Symbol};

#[test]
fn test_orderbook_creation() {
    let symbol = Symbol::new("BTC", "USDT");
    let book = FastOrderBook::new(symbol.clone(), Some(100));

    assert_eq!(book.symbol, symbol);
    assert!(book.is_empty());
    assert_eq!(book.get_sequence(), 0);
}

#[test]
fn test_bid_ask_updates() {
    let symbol = Symbol::new("BTC", "USDT");
    let mut book = FastOrderBook::new(symbol, None);

    book.update_bid(Decimal::from_int(50000), Decimal::from_int(1), None).unwrap();
    book.update_bid(Decimal::from_int(49999), Decimal::from_int(2), None).unwrap();
    book.update_ask(Decimal::from_int(50001), Decimal::from_int(1), None).unwrap();
    book.update_ask(Decimal::from_int(50002), Decimal::from_int(2), None).unwrap();

    assert_eq!(book.best_bid_price(), Some(Decimal::from_int(50000)));
    assert_eq!(book.best_ask_price(), Some(Decimal::from_int(50001)));
    assert_eq!(book.spread(), Some(Decimal::from_int(1)));
    assert_eq!(book.mid_price(), Some(Decimal::new(500005, 1)));
}

#[test]
fn test_volume_calculations() {
    let symbol = Symbol::new("BTC", "USDT");
    let mut book = FastOrderBook::new(symbol, None);

    book.update_bid(Decimal::from_int(50000), Decimal::from_int(1), None).unwrap();
    book.update_bid(Decimal::from_int(49999), Decimal::from_int(2), None).unwrap();
    book.update_ask(Decimal::from_int(50001), Decimal::from_int(1), None).unwrap();
    book.update_ask(Decimal::from_int(50002), Decimal::from_int(2), None).unwrap();

    assert_eq!(book.total_bid_volume(None), Decimal::from_int(3));
    assert_eq!(book.total_ask_volume(None), Decimal::from_int(3));

    let imbalance = book.imbalance_ratio(None).unwrap();
    assert_eq!(imbalance, Decimal::new(5, 1));
}

#[test]
fn test_vwap_calculation() {
    let symbol = Symbol::new("BTC", "USDT");
    let mut book = FastOrderBook::new(symbol, None);

    book.update_ask(Decimal::from_int(50001), Decimal::from_int(1), None).unwrap();
    book.update_ask(Decimal::from_int(50002), Decimal::from_int(2), None).unwrap();

    let vwap = book.get_volume_weighted_price(Side::Ask, Decimal::from_int(2)).unwrap();
    let expected = Decimal::new(500015, 1);
    assert_eq!(vwap, expected);
}

#[test]
fn test_slippage_calculation() {
    let symbol = Symbol::new("BTC", "USDT");
    let mut book = FastOrderBook::new(symbol, None);

    book.update_ask(Decimal::from_int(50000), Decimal::from_int(1), None).unwrap();
    book.update_ask(Decimal::from_int(50100), Decimal::from_int(1), None).unwrap();

    let slippage = book.calculate_slippage(Side::Ask, Decimal::from_int(2)).unwrap();
    assert!(slippage > Decimal::zero());
}

#[test]
fn test_orderbook_crossing() {
    let symbol = Symbol::new("BTC", "USDT");
    let mut book = FastOrderBook::new(symbol, None);

    book.update_bid(Decimal::from_int(50000), Decimal::from_int(1), None).unwrap();
    book.update_ask(Decimal::from_int(50001), Decimal::from_int(1), None).unwrap();
    assert!(!book.is_crossed());

    book.update_bid(Decimal::from_int(50002), Decimal::from_int(1), None).unwrap();
    assert!(book.is_crossed());
}

#[test]
fn test_sequence_management() {
    let symbol = Symbol::new("BTC", "USDT");
    let mut book = FastOrderBook::new(symbol, None);

    assert_eq!(book.get_sequence(), 0);

    book.update_bid(Decimal::from_int(50000), Decimal::from_int(1), None).unwrap();
    assert_eq!(book.get_sequence(), 1);

    book.update_ask(Decimal::from_int(50001), Decimal::from_int(1), None).unwrap();
    assert_eq!(book.get_sequence(), 2);
}

#[test]
fn test_checksum() {
    let symbol = Symbol::new("BTC", "USDT");
    let mut book = FastOrderBook::new(symbol, None);

    book.update_bid(Decimal::from_int(50000), Decimal::from_int(1), None).unwrap();
    book.update_ask(Decimal::from_int(50001), Decimal::from_int(1), None).unwrap();

    let checksum = book.calculate_checksum();
    assert!(book.validate_checksum(checksum));
    assert!(!book.validate_checksum(checksum + 1));
}

#[test]
fn deletion_is_absolute() {
    let symbol = Symbol::new("BTC", "USDT");
    let mut book = FastOrderBook::new(symbol, None);

    book.update_bid(Decimal::from_int(50000), Decimal::from_int(1), None).unwrap();
    book.update_bid(Decimal::from_int(49999), Decimal::from_int(2), None).unwrap();
    book.update_bid(Decimal::from_int(50000), Decimal::zero(), None).unwrap();

    let best = book.best_bid().unwrap();
    assert_eq!(best.price, Decimal::from_int(49999));
    for level in book.get_bids(None) {
        assert_ne!(level.price, Decimal::from_int(50000));
    }
}

#[test]
fn deleting_absent_price_advances_sequence_only() {
    let symbol = Symbol::new("BTC", "USDT");
    let mut book = FastOrderBook::new(symbol, None);

    book.update_bid(Decimal::from_int(50000), Decimal::from_int(1), None).unwrap();
    let before_bids = book.get_bids(None);
    let seq_before = book.get_sequence();

    book.update_bid(Decimal::from_int(47000), Decimal::zero(), None).unwrap();

    let after_bids = book.get_bids(None);
    assert_eq!(before_bids.len(), after_bids.len());
    for (a, b) in before_bids.iter().zip(after_bids.iter()) {
        assert_eq!(a, b);
    }
    assert_eq!(book.get_sequence(), seq_before + 1);
}

#[test]
fn mid_price_sits_between_quotes() {
    let symbol = Symbol::new("ETH", "USDT");
    let mut book = FastOrderBook::new(symbol, None);
    book.update_bid(Decimal::from_int(2000), Decimal::from_int(1), None).unwrap();
    book.update_ask(Decimal::from_int(2001), Decimal::from_int(1), None).unwrap();

    let mid = book.mid_price().unwrap();
    assert!(book.best_bid_price().unwrap() <= mid);
    assert!(mid <= book.best_ask_price().unwrap());
    assert!(!book.is_crossed());
}

#[test]
fn snapshot_application_is_idempotent() {
    let symbol = Symbol::new("BTC", "USDT");
    let mut source = FastOrderBook::new(symbol.clone(), None);
    source.update_bid(Decimal::from_int(50000), Decimal::from_int(1), None).unwrap();
    source.update_bid(Decimal::from_int(49999), Decimal::from_int(2), None).unwrap();
    source.update_ask(Decimal::from_int(50001), Decimal::from_int(3), None).unwrap();
    let snapshot = OrderBookSnapshot::from_fast_orderbook(&source);

    let mut book = FastOrderBook::new(symbol, None);
    snapshot.apply_to_book(&mut book).unwrap();
    let first_checksum = book.calculate_checksum();
    let first_bids = book.get_bids(None);
    let first_asks = book.get_asks(None);

    let seq_after_first = book.get_sequence();
    snapshot.apply_to_book(&mut book).unwrap();
    assert_eq!(book.calculate_checksum(), first_checksum);
    assert_eq!(book.get_bids(None), first_bids);
    assert_eq!(book.get_asks(None), first_asks);
    // the counter still advances: one message per replaced side
    assert_eq!(book.get_sequence(), seq_after_first + 2);
}

#[test]
fn snapshot_round_trip_restores_book() {
    let symbol = Symbol::new("BTC", "USDT");
    let mut book = FastOrderBook::new(symbol.clone(), None);
    book.update_bid(Decimal::from_int(50000), Decimal::from_int(1), None).unwrap();
    book.update_bid(Decimal::from_int(49998), Decimal::new(15, 1), None).unwrap();
    book.update_ask(Decimal::from_int(50001), Decimal::from_int(2), None).unwrap();

    let snapshot = OrderBookSnapshot::from_fast_orderbook(&book);
    let mut rebuilt = FastOrderBook::new(symbol, None);
    snapshot.apply_to_book(&mut rebuilt).unwrap();

    assert_eq!(rebuilt.best_bid_price(), book.best_bid_price());
    assert_eq!(rebuilt.best_ask_price(), book.best_ask_price());
    assert_eq!(rebuilt.bid_count(), book.bid_count());
    assert_eq!(rebuilt.ask_count(), book.ask_count());
    assert_eq!(rebuilt.calculate_checksum(), book.calculate_checksum());
    // the fresh book counted the two side replacements as messages
    assert_eq!(rebuilt.get_sequence(), 2);
}

#[test]
fn malformed_updates_are_rejected_and_harmless() {
    let symbol = Symbol::new("BTC", "USDT");
    let mut book = FastOrderBook::new(symbol, None);
    book.update_bid(Decimal::from_int(50000), Decimal::from_int(1), None).unwrap();
    let checksum = book.calculate_checksum();
    let seq = book.get_sequence();

    assert!(book.update_bid(Decimal::zero(), Decimal::from_int(1), None).is_err());
    assert!(book.update_bid(Decimal::from_int(-5), Decimal::from_int(1), None).is_err());
    assert!(book.update_ask(Decimal::from_int(5), Decimal::from_int(-1), None).is_err());
    assert!(book.update_bid(Decimal::from_int(2_000_000_000), Decimal::from_int(1), None).is_err());

    assert_eq!(book.calculate_checksum(), checksum);
    assert_eq!(book.get_sequence(), seq);
}

#[test]
fn batch_update_applies_in_order() {
    let symbol = Symbol::new("BTC", "USDT");
    let mut book = FastOrderBook::new(symbol, None);
    let updates = vec![
        OrderBookUpdate::new(Side::Bid, Decimal::from_int(50000), Decimal::from_int(1)),
        OrderBookUpdate::new(Side::Ask, Decimal::from_int(50001), Decimal::from_int(2)),
        OrderBookUpdate::new(Side::Bid, Decimal::from_int(50000), Decimal::zero()),
    ];
    book.batch_update(updates).unwrap();

    assert_eq!(book.get_sequence(), 3);
    assert!(book.best_bid().is_none());
    assert_eq!(book.best_ask_price(), Some(Decimal::from_int(50001)));
}

#[test]
fn depth_trimming_evicts_worst_level() {
    let symbol = Symbol::new("BTC", "USDT");
    let mut book = FastOrderBook::new(symbol, Some(2));
    book.update_bid(Decimal::from_int(100), Decimal::from_int(1), None).unwrap();
    book.update_bid(Decimal::from_int(99), Decimal::from_int(1), None).unwrap();
    book.update_bid(Decimal::from_int(101), Decimal::from_int(1), None).unwrap();

    assert_eq!(book.bid_count(), 2);
    let bids = book.get_bids(None);
    assert_eq!(bids[0].price, Decimal::from_int(101));
    assert_eq!(bids[1].price, Decimal::from_int(100));
}

#[test]
fn vwap_insufficient_depth_is_none() {
    let symbol = Symbol::new("BTC", "USDT");
    let mut book = FastOrderBook::new(symbol, None);
    book.update_ask(Decimal::from_int(50001), Decimal::from_int(1), None).unwrap();

    assert!(book.get_volume_weighted_price(Side::Ask, Decimal::from_int(5)).is_none());
    assert!(book.get_volume_weighted_price(Side::Ask, Decimal::zero()).is_none());
}

#[test]
fn checksum_is_deterministic_across_construction_order() {
    let symbol = Symbol::new("BTC", "USDT");
    let mut a = FastOrderBook::new(symbol.clone(), None);
    a.update_bid(Decimal::from_int(50000), Decimal::from_int(1), None).unwrap();
    a.update_bid(Decimal::from_int(49999), Decimal::from_int(2), None).unwrap();

    let mut b = FastOrderBook::new(symbol, None);
    b.update_bid(Decimal::from_int(49999), Decimal::from_int(2), None).unwrap();
    b.update_bid(Decimal::from_int(50000), Decimal::from_int(1), None).unwrap();

    assert_eq!(a.calculate_checksum(), b.calculate_checksum());
}

#[test]
fn spread_bps_rounds_toward_zero() {
    let symbol = Symbol::new("BTC", "USDT");
    let mut book = FastOrderBook::new(symbol, None);
    book.update_bid(Decimal::from_int(10000), Decimal::from_int(1), None).unwrap();
    book.update_ask(Decimal::from_int(10003), Decimal::from_int(1), None).unwrap();

    // 3 / 10000 = 3 basis points exactly
    assert_eq!(book.spread_bps(), Some(3));
}

#[test]
fn test_builder_basic() {
    let symbol = Symbol::new("BTC", "USDT");
    let book = OrderBookBuilder::new().symbol(symbol.clone()).max_depth(100).build().unwrap();

    assert_eq!(book.symbol, symbol);
    assert!(book.is_empty());
}

#[test]
fn test_builder_with_levels() {
    let symbol = Symbol::new("BTC", "USDT");
    let bid = PriceLevel::new(Decimal::from_int(50000), Decimal::from_int(1));
    let ask = PriceLevel::new(Decimal::from_int(50001), Decimal::from_int(1));

    let book = OrderBookBuilder::new()
        .symbol(symbol)
        .with_bids(vec![bid])
        .with_asks(vec![ask])
        .build()
        .unwrap();

    assert!(!book.is_empty());
    assert!(book.best_bid().is_some());
    assert!(book.best_ask().is_some());
}

#[test]
fn builder_requires_symbol() {
    assert!(OrderBookBuilder::new().build().is_err());
}

#[test]
fn crossed_book_mid_violates_quote_ordering() {
    let symbol = Symbol::new("BTC", "USDT");
    let mut book = FastOrderBook::new(symbol, None);
    book.update_bid(Decimal::from_int(50010), Decimal::from_int(1), None).unwrap();
    book.update_ask(Decimal::from_int(50000), Decimal::from_int(1), None).unwrap();

    assert!(book.is_crossed());
    let mid = book.mid_price().unwrap();
    let ordered = book.best_bid_price().unwrap() <= mid && mid <= book.best_ask_price().unwrap();
    assert!(!ordered);
}
