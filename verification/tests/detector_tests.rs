use arbfinder::arbitrage::CrossExchangeArbitrageDetector;
use arbfinder::book::FastOrderBook;
use arbfinder::fixed::Decimal;
use arbfinder::types::{Symbol, VenueId};

fn create_test_orderbook(
    best_bid_price: Decimal,
    best_ask_price: Decimal,
    quantity: Decimal,
) -> FastOrderBook {
    let symbol = Symbol::new("BTC", "USDT");
    let mut book = FastOrderBook::new(symbol, None);
    book.update_bid(best_bid_price, quantity, None).unwrap();
    book.update_ask(best_ask_price, quantity, None).unwrap();
    book
}

#[test]
fn test_detect_simple_arbitrage() {
    let detector = CrossExchangeArbitrageDetector::new(10, Decimal::from_int(100));

    let symbol = Symbol::new("BTC", "USDT");
    let mut orderbooks: Vec<(VenueId, FastOrderBook)> = Vec::new();

    // lower prices here: buy on this venue
    let book_a = create_test_orderbook(
        Decimal::from_int(100),
        Decimal::from_int(101),
        Decimal::from_int(1),
    );
    orderbooks.push((VenueId::Binance, book_a));

    // higher prices here: sell on this venue
    let book_b = create_test_orderbook(
        Decimal::from_int(102),
        Decimal::from_int(103),
        Decimal::from_int(1),
    );
    orderbooks.push((VenueId::Coinbase, book_b));

    let opportunities = detector.detect_opportunities(&symbol, &orderbooks);

    assert!(!opportunities.is_empty(), "Should find at least one arbitrage opportunity");

    let opp = &opportunities[0];
    assert_eq!(opp.buy_venue, VenueId::Binance);
    assert_eq!(opp.sell_venue, VenueId::Coinbase);
    assert_eq!(opp.buy_price, Decimal::from_int(101));
    assert_eq!(opp.sell_price, Decimal::from_int(102));
}

#[test]
fn test_no_arbitrage_when_prices_equal() {
    let detector = CrossExchangeArbitrageDetector::new(10, Decimal::from_int(100));

    let symbol = Symbol::new("BTC", "USDT");
    let mut orderbooks: Vec<(VenueId, FastOrderBook)> = Vec::new();

    let book_a = create_test_orderbook(
        Decimal::from_int(100),
        Decimal::from_int(101),
        Decimal::from_int(1),
    );
    let book_b = create_test_orderbook(
        Decimal::from_int(100),
        Decimal::from_int(101),
        Decimal::from_int(1),
    );

    orderbooks.push((VenueId::Binance, book_a));
    orderbooks.push((VenueId::Coinbase, book_b));

    let opportunities = detector.detect_opportunities(&symbol, &orderbooks);

    assert!(opportunities.is_empty(), "Should not find arbitrage with equal prices");
}

#[test]
fn test_no_arbitrage_below_profit_threshold() {
    let detector = CrossExchangeArbitrageDetector::new(100, Decimal::from_int(100));

    let symbol = Symbol::new("BTC", "USDT");
    let mut orderbooks: Vec<(VenueId, FastOrderBook)> = Vec::new();

    // only half a percent of edge against a one percent threshold
    let book_a = create_test_orderbook(
        Decimal::from_int(100),
        Decimal::from_int(100),
        Decimal::from_int(1),
    );
    let book_b = create_test_orderbook(
        Decimal::new(1005, 1),
        Decimal::new(1005, 1),
        Decimal::from_int(1),
    );

    orderbooks.push((VenueId::Binance, book_a));
    orderbooks.push((VenueId::Coinbase, book_b));

    let opportunities = detector.detect_opportunities(&symbol, &orderbooks);

    assert!(opportunities.is_empty(), "Should not find arbitrage below profit threshold");
}

#[test]
fn test_volume_limit() {
    let detector = CrossExchangeArbitrageDetector::new(10, Decimal::from_int(100));

    let symbol = Symbol::new("BTC", "USDT");
    let mut orderbooks: Vec<(VenueId, FastOrderBook)> = Vec::new();

    let book_a = create_test_orderbook(
        Decimal::from_int(100),
        Decimal::from_int(101),
        Decimal::new(5, 1),
    );
    let book_b = create_test_orderbook(
        Decimal::from_int(105),
        Decimal::from_int(106),
        Decimal::from_int(2),
    );

    orderbooks.push((VenueId::Binance, book_a));
    orderbooks.push((VenueId::Coinbase, book_b));

    let opportunities = detector.detect_opportunities(&symbol, &orderbooks);

    if let Some(opp) = opportunities.first() {
        assert!(opp.max_volume <= Decimal::new(5, 1), "Volume should be limited by smaller side");
    }
}

#[test]
fn test_fees_reduce_profit() {
    let mut detector = CrossExchangeArbitrageDetector::new(10, Decimal::from_int(100));

    detector.set_trading_fee(VenueId::Binance, Decimal::new(5, 3)).unwrap();
    detector.set_trading_fee(VenueId::Coinbase, Decimal::new(5, 3)).unwrap();

    let symbol = Symbol::new("BTC", "USDT");
    let mut orderbooks: Vec<(VenueId, FastOrderBook)> = Vec::new();

    // one and a half percent of edge against one percent of fees
    let book_a = create_test_orderbook(
        Decimal::from_int(100),
        Decimal::from_int(100),
        Decimal::from_int(1),
    );
    let book_b = create_test_orderbook(
        Decimal::new(1015, 1),
        Decimal::new(1015, 1),
        Decimal::from_int(1),
    );

    orderbooks.push((VenueId::Binance, book_a));
    orderbooks.push((VenueId::Coinbase, book_b));

    let opportunities = detector.detect_opportunities(&symbol, &orderbooks);

    if let Some(opp) = opportunities.first() {
        assert!(opp.profit_percentage < Decimal::new(1, 2), "Profit should be less than 1% after fees");
        assert!(opp.profit_percentage > Decimal::zero(), "Should still be profitable");
    }
}

#[test]
fn wide_cross_venue_spread_is_detected() {
    // ask 50,010 for 1.5 at one venue, bid 50,120 for 1.2 at the other;
    // both venues pay 0.1%; the edge is about 22 basis points gross, about
    // 2 net, so a 1 basis-point floor admits exactly one opportunity
    let mut detector = CrossExchangeArbitrageDetector::new(1, Decimal::from_int(100));
    detector.set_trading_fee(VenueId::Binance, Decimal::new(1, 3)).unwrap();
    detector.set_trading_fee(VenueId::Coinbase, Decimal::new(1, 3)).unwrap();

    let symbol = Symbol::new("BTC", "USDT");
    let mut orderbooks: Vec<(VenueId, FastOrderBook)> = Vec::new();

    let book_a = create_test_orderbook(
        Decimal::from_int(50000),
        Decimal::from_int(50010),
        Decimal::new(15, 1),
    );
    let book_b = create_test_orderbook(
        Decimal::from_int(50120),
        Decimal::from_int(50130),
        Decimal::new(12, 1),
    );

    orderbooks.push((VenueId::Binance, book_a));
    orderbooks.push((VenueId::Coinbase, book_b));

    let opportunities = detector.detect_opportunities(&symbol, &orderbooks);

    assert_eq!(opportunities.len(), 1);
    let opp = &opportunities[0];
    assert_eq!(opp.buy_venue, VenueId::Binance);
    assert_eq!(opp.sell_venue, VenueId::Coinbase);
    assert_eq!(opp.buy_price, Decimal::from_int(50010));
    assert_eq!(opp.sell_price, Decimal::from_int(50120));
    assert_eq!(opp.max_volume, Decimal::new(12, 1));
    assert!(opp.profit_percentage > Decimal::zero());
}

#[test]
fn same_numbers_fall_below_ten_bp_floor_after_fees() {
    // the same books against a 10 basis-point floor: roughly 22 gross minus
    // 20 of fees leaves about 2, so nothing is emitted
    let mut detector = CrossExchangeArbitrageDetector::new(10, Decimal::from_int(100));
    detector.set_trading_fee(VenueId::Binance, Decimal::new(1, 3)).unwrap();
    detector.set_trading_fee(VenueId::Coinbase, Decimal::new(1, 3)).unwrap();

    let symbol = Symbol::new("BTC", "USDT");
    let mut orderbooks: Vec<(VenueId, FastOrderBook)> = Vec::new();

    let book_a = create_test_orderbook(
        Decimal::from_int(50000),
        Decimal::from_int(50010),
        Decimal::new(15, 1),
    );
    let book_b = create_test_orderbook(
        Decimal::from_int(50120),
        Decimal::from_int(50130),
        Decimal::new(12, 1),
    );

    orderbooks.push((VenueId::Binance, book_a));
    orderbooks.push((VenueId::Coinbase, book_b));

    let opportunities = detector.detect_opportunities(&symbol, &orderbooks);
    assert!(opportunities.is_empty());
}

#[test]
fn volume_floor_rejects_thin_notional() {
    let detector = CrossExchangeArbitrageDetector::new(1, Decimal::from_int(1_000_000));

    let symbol = Symbol::new("BTC", "USDT");
    let mut orderbooks: Vec<(VenueId, FastOrderBook)> = Vec::new();
    let book_a = create_test_orderbook(
        Decimal::from_int(100),
        Decimal::from_int(101),
        Decimal::from_int(1),
    );
    let book_b = create_test_orderbook(
        Decimal::from_int(110),
        Decimal::from_int(111),
        Decimal::from_int(1),
    );
    orderbooks.push((VenueId::Binance, book_a));
    orderbooks.push((VenueId::Coinbase, book_b));

    let opportunities = detector.detect_opportunities(&symbol, &orderbooks);
    assert!(opportunities.is_empty());
}

#[test]
fn invalid_fee_rate_is_rejected() {
    let mut detector = CrossExchangeArbitrageDetector::new(10, Decimal::from_int(100));
    assert!(detector.set_trading_fee(VenueId::Binance, Decimal::from_int(-1)).is_err());
    assert!(detector.set_trading_fee(VenueId::Binance, Decimal::from_int(2)).is_err());
    assert!(detector.set_trading_fee(VenueId::Binance, Decimal::new(2, 3)).is_ok());
}

#[test]
fn net_profit_subtracts_both_fees() {
    let detector = CrossExchangeArbitrageDetector::new(1, Decimal::from_int(10));
    let symbol = Symbol::new("BTC", "USDT");
    let mut orderbooks: Vec<(VenueId, FastOrderBook)> = Vec::new();
    orderbooks.push((
        VenueId::Binance,
        create_test_orderbook(Decimal::from_int(99), Decimal::from_int(100), Decimal::from_int(1)),
    ));
    orderbooks.push((
        VenueId::Coinbase,
        create_test_orderbook(Decimal::from_int(110), Decimal::from_int(111), Decimal::from_int(1)),
    ));

    let opps = detector.detect_opportunities(&symbol, &orderbooks);
    let opp = &opps[0];
    let fees = arbfinder::arbitrage::TradingFeePair {
        buy_exchange_fee: Decimal::new(1, 2),
        sell_exchange_fee: Decimal::new(1, 2),
    };
    // 110 - 100 - 1% of 100 - 1% of 110 = 10 - 1 - 1.1 = 7.9
    assert_eq!(opp.calculate_net_profit(&fees), Decimal::new(79, 1));
}
