use arbfinder::aggregator::AggregatedOrderBook;
use arbfinder::book::{FastOrderBook, OrderBookSnapshot, OrderBookUpdate};
use arbfinder::cache::OrderBookCache;
use arbfinder::events::{
    dispatch_events, LoggingEventHandler, MetricsEventHandler, OrderBookEvent,
    OrderBookEventHandler, OrderBookEventProcessor,
};
use arbfinder::fixed::Decimal;
use arbfinder::manager::OrderBookManager;
use arbfinder::types::{Side, Symbol, VenueId};

#[test]
fn test_aggregated_orderbook() {
    let symbol = Symbol::new("BTC", "USDT");
    let mut agg_book = AggregatedOrderBook::new(symbol.clone());

    assert!(agg_book.is_empty());
    assert_eq!(agg_book.venue_count(), 0);

    let book1 = FastOrderBook::new(symbol.clone(), None);
    agg_book.add_venue(VenueId::Binance, book1).unwrap();

    assert_eq!(agg_book.venue_count(), 1);
}

#[test]
fn aggregate_best_quotes_prefer_earlier_venue_on_ties() {
    let symbol = Symbol::new("BTC", "USDT");
    let mut agg = AggregatedOrderBook::new(symbol.clone());

    let mut b1 = FastOrderBook::new(symbol.clone(), None);
    b1.update_bid(Decimal::from_int(100), Decimal::from_int(1), None).unwrap();
    b1.update_ask(Decimal::from_int(102), Decimal::from_int(1), None).unwrap();
    agg.add_venue(VenueId::Binance, b1).unwrap();

    let mut b2 = FastOrderBook::new(symbol.clone(), None);
    b2.update_bid(Decimal::from_int(100), Decimal::from_int(5), None).unwrap();
    b2.update_ask(Decimal::from_int(101), Decimal::from_int(5), None).unwrap();
    agg.add_venue(VenueId::Coinbase, b2).unwrap();

    let (bid_venue, bid_level) = agg.best_bid_across_venues().unwrap();
    assert_eq!(bid_venue, VenueId::Binance);
    assert_eq!(bid_level.price, Decimal::from_int(100));

    let (ask_venue, ask_level) = agg.best_ask_across_venues().unwrap();
    assert_eq!(ask_venue, VenueId::Coinbase);
    assert_eq!(ask_level.price, Decimal::from_int(101));

    assert_eq!(agg.cross_venue_spread().unwrap(), Decimal::from_int(1));
    assert!(!agg.has_crossed_venues());
}

#[test]
fn aggregate_cross_venue_spread_can_go_negative() {
    let symbol = Symbol::new("BTC", "USDT");
    let mut agg = AggregatedOrderBook::new(symbol.clone());

    let mut b1 = FastOrderBook::new(symbol.clone(), None);
    b1.update_bid(Decimal::from_int(105), Decimal::from_int(1), None).unwrap();
    b1.update_ask(Decimal::from_int(106), Decimal::from_int(1), None).unwrap();
    agg.add_venue(VenueId::Binance, b1).unwrap();

    let mut b2 = FastOrderBook::new(symbol.clone(), None);
    b2.update_bid(Decimal::from_int(99), Decimal::from_int(1), None).unwrap();
    b2.update_ask(Decimal::from_int(100), Decimal::from_int(1), None).unwrap();
    agg.add_venue(VenueId::Coinbase, b2).unwrap();

    // the best bid (105) sits above the best ask (100): venues cross
    assert_eq!(agg.cross_venue_spread().unwrap(), Decimal::from_int(-5));
}

#[test]
fn aggregate_depth_is_price_sorted_and_annotated() {
    let symbol = Symbol::new("BTC", "USDT");
    let mut agg = AggregatedOrderBook::new(symbol.clone());

    let mut b1 = FastOrderBook::new(symbol.clone(), None);
    b1.update_bid(Decimal::from_int(100), Decimal::from_int(1), None).unwrap();
    b1.update_ask(Decimal::from_int(104), Decimal::from_int(1), None).unwrap();
    agg.add_venue(VenueId::Binance, b1).unwrap();

    let mut b2 = FastOrderBook::new(symbol.clone(), None);
    b2.update_bid(Decimal::from_int(101), Decimal::from_int(2), None).unwrap();
    b2.update_ask(Decimal::from_int(103), Decimal::from_int(2), None).unwrap();
    agg.add_venue(VenueId::Coinbase, b2).unwrap();

    let (bids, asks) = agg.aggregate_depth(10);
    assert_eq!(bids.len(), 2);
    assert_eq!(asks.len(), 2);
    assert_eq!(bids[0].price, Decimal::from_int(101));
    assert_eq!(bids[0].venue, VenueId::Coinbase);
    assert_eq!(bids[1].price, Decimal::from_int(100));
    assert_eq!(asks[0].price, Decimal::from_int(103));
    assert_eq!(asks[1].price, Decimal::from_int(104));
}

#[test]
fn manager_creates_books_idempotently() {
    let mut manager = OrderBookManager::new(100);
    let symbol = Symbol::new("BTC", "USDT");

    assert!(!manager.has_book(&VenueId::Binance, &symbol));

    manager.get_or_create_book(VenueId::Binance, symbol.clone());
    assert!(manager.has_book(&VenueId::Binance, &symbol));
    assert_eq!(manager.get_book_count(), 1);

    manager.get_or_create_book(VenueId::Binance, symbol.clone());
    assert_eq!(manager.get_book_count(), 1);
}

#[test]
fn manager_removes_books() {
    let mut manager = OrderBookManager::new(100);
    let symbol = Symbol::new("BTC", "USDT");

    manager.get_or_create_book(VenueId::Binance, symbol.clone());
    assert_eq!(manager.get_book_count(), 1);

    assert!(manager.remove_book(&VenueId::Binance, &symbol).is_some());
    assert_eq!(manager.get_book_count(), 0);
    assert!(manager.remove_book(&VenueId::Binance, &symbol).is_none());
}

#[test]
fn manager_applies_snapshots_and_updates() {
    let mut manager = OrderBookManager::new(100);
    let symbol = Symbol::new("BTC", "USDT");

    let mut source = FastOrderBook::new(symbol.clone(), None);
    source.update_bid(Decimal::from_int(50000), Decimal::from_int(1), None).unwrap();
    source.update_ask(Decimal::from_int(50001), Decimal::from_int(2), None).unwrap();
    let snapshot = OrderBookSnapshot::from_fast_orderbook(&source);

    manager.apply_snapshot(VenueId::Binance, snapshot).unwrap();
    let snap = manager.get_snapshot(&VenueId::Binance, &symbol).unwrap();
    assert_eq!(snap.bids.len(), 1);
    assert_eq!(snap.asks.len(), 1);

    let updates = vec![
        OrderBookUpdate::new(Side::Bid, Decimal::from_int(50002), Decimal::from_int(3)),
    ];
    manager.apply_updates(VenueId::Binance, symbol.clone(), updates).unwrap();
    let book = manager.get_book(&VenueId::Binance, &symbol).unwrap();
    assert_eq!(book.best_bid_price(), Some(Decimal::from_int(50002)));

    let health = manager.health_check();
    assert_eq!(health.total_books, 1);
    assert_eq!(health.empty_books, 0);
    assert_eq!(health.crossed_books, 1);
    assert!(!health.healthy);
}

#[test]
fn manager_clears_venues() {
    let mut manager = OrderBookManager::new(100);
    manager.get_or_create_book(VenueId::Binance, Symbol::new("BTC", "USDT"));
    manager.get_or_create_book(VenueId::Binance, Symbol::new("ETH", "USDT"));
    manager.get_or_create_book(VenueId::Kraken, Symbol::new("BTC", "USDT"));

    assert_eq!(manager.get_venues().len(), 2);
    assert_eq!(manager.get_symbols_for_venue(&VenueId::Binance).len(), 2);

    manager.clear_venue(&VenueId::Binance);
    assert_eq!(manager.get_book_count(), 1);
    assert_eq!(manager.get_symbols_for_venue(&VenueId::Binance).len(), 0);

    manager.clear_all();
    assert_eq!(manager.get_book_count(), 0);
}

#[test]
fn cache_stores_and_invalidates() {
    let mut cache = OrderBookCache::new(10, 60);
    let symbol = Symbol::new("BTC", "USDT");
    let mut book = FastOrderBook::new(symbol.clone(), None);
    book.update_bid(Decimal::from_int(50000), Decimal::from_int(1), None).unwrap();

    cache.put(VenueId::Binance, book);
    assert_eq!(cache.size(), 1);

    let retrieved = cache.get(&VenueId::Binance, &symbol);
    assert!(retrieved.is_some());
    assert_eq!(retrieved.unwrap().best_bid_price(), Some(Decimal::from_int(50000)));

    cache.invalidate(&VenueId::Binance, &symbol);
    assert_eq!(cache.size(), 0);
    assert!(cache.get(&VenueId::Binance, &symbol).is_none());
}

#[test]
fn cache_evicts_at_capacity() {
    let mut cache = OrderBookCache::new(1, 60);
    let s1 = Symbol::new("BTC", "USDT");
    let s2 = Symbol::new("ETH", "USDT");
    cache.put(VenueId::Binance, FastOrderBook::new(s1.clone(), None));
    cache.put(VenueId::Binance, FastOrderBook::new(s2.clone(), None));

    assert_eq!(cache.size(), 1);
    assert!(cache.get(&VenueId::Binance, &s2).is_some());

    let stats = cache.get_stats();
    assert_eq!(stats.size, 1);
    assert_eq!(stats.max_size, 1);
}

#[test]
fn test_event_processor() {
    let mut processor = OrderBookEventProcessor::new();
    let mut metrics_handler = MetricsEventHandler::new();

    let symbol = Symbol::new("BTC", "USDT");
    let mut book = FastOrderBook::new(symbol, None);

    book.update_bid(Decimal::from_int(50000), Decimal::from_int(1), None).unwrap();
    book.update_ask(Decimal::from_int(50001), Decimal::from_int(1), None).unwrap();

    let events = processor.process_book_update(VenueId::Binance, &book);
    dispatch_events(&mut metrics_handler, &events);

    book.update_bid(Decimal::from_int(50001), Decimal::from_int(1), None).unwrap();
    let events = processor.process_book_update(VenueId::Binance, &book);
    dispatch_events(&mut metrics_handler, &events);

    assert!(metrics_handler.get_event_count("best_bid_ask_update") >= 1);
    assert!(metrics_handler.get_event_count("price_movement") >= 1);
    assert_eq!(metrics_handler.get_event_count("snapshot"), 0);
}

#[test]
fn test_crossing_detection() {
    let symbol = Symbol::new("BTC", "USDT");
    let mut book = FastOrderBook::new(symbol, None);
    let mut processor = OrderBookEventProcessor::new();

    book.update_bid(Decimal::from_int(50000), Decimal::from_int(1), None).unwrap();
    book.update_ask(Decimal::from_int(49999), Decimal::from_int(1), None).unwrap();

    let events = processor.process_book_update(VenueId::Binance, &book);
    let mut found_crossing = false;
    for e in &events {
        if let OrderBookEvent::CrossingDetected(evt) = e {
            found_crossing = true;
            assert_eq!(evt.cross_amount, Decimal::from_int(1));
        }
    }
    assert!(found_crossing);
}

#[test]
fn crossing_severity_classification() {
    let symbol = Symbol::new("BTC", "USDT");
    let mut processor = OrderBookEventProcessor::new();

    let mut book = FastOrderBook::new(symbol, None);
    book.update_bid(Decimal::from_int(50200), Decimal::from_int(1), None).unwrap();
    book.update_ask(Decimal::from_int(50000), Decimal::from_int(1), None).unwrap();

    let events = processor.process_book_update(VenueId::Binance, &book);
    let mut found = false;
    for e in &events {
        if let OrderBookEvent::CrossingDetected(evt) = e {
            found = true;
            assert_eq!(evt.severity, arbfinder::events::CrossingSeverity::Severe);
        }
    }
    assert!(found);
}

#[test]
fn liquidity_gap_detection() {
    let symbol = Symbol::new("BTC", "USDT");
    let mut processor = OrderBookEventProcessor::new();

    let mut book = FastOrderBook::new(symbol, None);
    // a two percent hole between adjacent asks crosses the one percent bar
    book.update_ask(Decimal::from_int(100), Decimal::from_int(1), None).unwrap();
    book.update_ask(Decimal::from_int(102), Decimal::from_int(1), None).unwrap();

    let events = processor.process_book_update(VenueId::Binance, &book);
    let mut found = false;
    for e in &events {
        if let OrderBookEvent::LiquidityGap(evt) = e {
            found = true;
            assert_eq!(evt.side, Side::Ask);
            assert_eq!(evt.gap_start, Decimal::from_int(100));
            assert_eq!(evt.gap_end, Decimal::from_int(102));
            assert_eq!(evt.gap_size, Decimal::from_int(2));
        }
    }
    assert!(found);
}

#[test]
fn volume_shift_event_needs_threshold() {
    let symbol = Symbol::new("BTC", "USDT");
    let mut processor = OrderBookEventProcessor::new();
    let mut handler = MetricsEventHandler::new();

    let mut book = FastOrderBook::new(symbol, None);
    book.update_bid(Decimal::from_int(100), Decimal::from_int(10), None).unwrap();
    let events = processor.process_book_update(VenueId::Binance, &book);
    dispatch_events(&mut handler, &events);
    assert_eq!(handler.get_event_count("volume_update"), 0);

    // more than ten percent of extra volume arrives
    book.update_bid(Decimal::from_int(99), Decimal::from_int(5), None).unwrap();
    let events = processor.process_book_update(VenueId::Binance, &book);
    dispatch_events(&mut handler, &events);
    assert_eq!(handler.get_event_count("volume_update"), 1);
}

#[test]
fn logging_handler_accepts_events() {
    let mut processor = OrderBookEventProcessor::new();
    let mut sink = LoggingEventHandler::new();

    let symbol = Symbol::new("BTC", "USDT");
    let mut book = FastOrderBook::new(symbol, None);
    book.update_bid(Decimal::from_int(100), Decimal::from_int(1), None).unwrap();
    book.update_ask(Decimal::from_int(99), Decimal::from_int(1), None).unwrap();

    let events = processor.process_book_update(VenueId::Binance, &book);
    assert!(!events.is_empty());
    dispatch_events(&mut sink, &events);
    sink.handle_event(&events[0]);
}
