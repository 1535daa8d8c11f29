use arbfinder::fixed::Decimal;
use arbfinder::ids::{
    generate_order_id, generate_trade_id, generate_uuid, IdGenerator,
};
use arbfinder::math::{
    calculate_basis_points, calculate_notional_value, calculate_percentage_change,
    calculate_weighted_average_price, round_to_lot_size, round_to_tick_size,
};
use arbfinder::types::Symbol;
use arbfinder::validation::{
    is_valid_asset_name, is_valid_order_id, normalize_symbol_pair, sanitize_string,
    validate_api_key, validate_price, validate_quantity, validate_spread_bps, validate_symbol,
    validate_symbol_pair,
};

#[test]
fn test_id_generation() {
    let mut generator = IdGenerator::new(1);

    let uuid1 = generator.generate_uuid();
    let uuid2 = generator.generate_uuid();
    assert_ne!(uuid1, uuid2);
    assert_eq!(uuid1.len(), 36);

    let order_id1 = generator.generate_order_id();
    let order_id2 = generator.generate_order_id();
    assert_ne!(order_id1, order_id2);
    assert!(order_id1.starts_with("ORD-"));

    let trade_id = generator.generate_trade_id();
    assert!(trade_id.starts_with("TRD-"));

    let arb_id = generator.generate_opportunity_id();
    assert!(arb_id.starts_with("ARB-"));
}

#[test]
fn test_snowflake_id() {
    let mut generator = IdGenerator::new(1);

    let id1 = generator.generate_snowflake_id();
    let id2 = generator.generate_snowflake_id();

    assert_ne!(id1, id2);
    assert!(id1 > 0);
    assert!(id2 > 0);
}

#[test]
fn test_client_order_id() {
    let mut generator = IdGenerator::new(1);

    let binance_id = generator.generate_client_order_id("binance");
    let coinbase_id = generator.generate_client_order_id("coinbase");

    assert!(binance_id.starts_with("BINANCE-"));
    assert!(coinbase_id.starts_with("COINBASE-"));
    assert_ne!(binance_id, coinbase_id);
}

#[test]
fn test_nonce_generation() {
    let mut generator = IdGenerator::new(1);

    let nonce1 = generator.generate_nonce();
    let nonce2 = generator.generate_nonce();

    assert_ne!(nonce1, nonce2);
    assert!(nonce2 > nonce1);
}

#[test]
fn test_counter_operations() {
    let mut generator = IdGenerator::new(1);

    let initial = generator.get_counter();
    generator.generate_order_id();
    let after_gen = generator.get_counter();

    assert!(after_gen > initial);

    generator.reset_counter();
    let after_reset = generator.get_counter();
    assert_eq!(after_reset, 0);
}

#[test]
fn test_global_functions() {
    let uuid = generate_uuid();
    let order_id = generate_order_id();
    let trade_id = generate_trade_id();

    assert_eq!(uuid.len(), 36);
    assert!(order_id.starts_with("ORD-"));
    assert!(trade_id.starts_with("TRD-"));
}

#[test]
fn test_is_valid_asset_name() {
    assert!(is_valid_asset_name("BTC"));
    assert!(is_valid_asset_name("USDT"));
    assert!(!is_valid_asset_name(""));
    assert!(!is_valid_asset_name("BTC-USD"));
    assert!(!is_valid_asset_name("verylongassetnamethatexceedsthelimit"));
}

#[test]
fn test_normalize_symbol_pair() {
    assert_eq!(normalize_symbol_pair("btc_usdt"), "BTC/USDT");
    assert_eq!(normalize_symbol_pair("eth/usd"), "ETH/USD");
    assert_eq!(normalize_symbol_pair("BTC/USDT"), "BTC/USDT");
}

#[test]
fn test_validate_symbol() {
    let valid_symbol = Symbol::new("BTC", "USDT");
    assert!(validate_symbol(&valid_symbol).is_ok());

    let invalid_symbol = Symbol::new("", "USDT");
    assert!(validate_symbol(&invalid_symbol).is_err());

    let same_assets = Symbol::new("BTC", "BTC");
    assert!(validate_symbol(&same_assets).is_err());
}

#[test]
fn test_validate_price() {
    assert!(validate_price(Decimal::from_int(100)).is_ok());
    assert!(validate_price(Decimal::zero()).is_err());
    assert!(validate_price(Decimal::from_int(-10)).is_err());
}

#[test]
fn test_validate_quantity() {
    assert!(validate_quantity(Decimal::from_int(1)).is_ok());
    assert!(validate_quantity(Decimal::zero()).is_err());
    assert!(validate_quantity(Decimal::from_int(-1)).is_err());
}

#[test]
fn spread_bps_validation_bounds() {
    assert!(validate_spread_bps(0).is_ok());
    assert!(validate_spread_bps(10000).is_ok());
    assert!(validate_spread_bps(-1).is_err());
    assert!(validate_spread_bps(10001).is_err());
}

#[test]
fn api_key_length_bounds() {
    assert!(validate_api_key("").is_err());
    assert!(validate_api_key("short").is_err());
    assert!(validate_api_key("0123456789abcdef").is_ok());
}

#[test]
fn order_id_characters() {
    assert!(is_valid_order_id("ORD-123_abc"));
    assert!(!is_valid_order_id(""));
    assert!(!is_valid_order_id("bad id"));
}

#[test]
fn sanitize_filters_and_truncates() {
    assert_eq!(sanitize_string("a!b@c", 10), "abc");
    assert_eq!(sanitize_string("hello world", 5), "hello");
    assert_eq!(sanitize_string("a-b_c d", 10), "a-b_c d");
}

#[test]
fn symbol_pair_parsing() {
    let sym = validate_symbol_pair("BTC/USDT").unwrap();
    assert_eq!(sym.base, "BTC");
    assert_eq!(sym.quote, "USDT");
    assert!(validate_symbol_pair("BTCUSDT").is_err());
    assert!(validate_symbol_pair("BTC/BTC").is_err());
}

#[test]
fn test_calculate_percentage_change() {
    assert_eq!(
        calculate_percentage_change(Decimal::from_int(100), Decimal::from_int(110)),
        Decimal::from_int(10)
    );
    assert_eq!(
        calculate_percentage_change(Decimal::from_int(100), Decimal::from_int(90)),
        Decimal::from_int(-10)
    );
    assert_eq!(
        calculate_percentage_change(Decimal::zero(), Decimal::from_int(100)),
        Decimal::zero()
    );
}

#[test]
fn test_calculate_basis_points() {
    assert_eq!(calculate_basis_points(Decimal::from_int(1), Decimal::from_int(100)), 100);
    assert_eq!(calculate_basis_points(Decimal::from_int(5), Decimal::from_int(100)), 500);
}

#[test]
fn test_round_to_tick_size() {
    let price = Decimal::new(123456, 3);
    let tick_size = Decimal::new(1, 2);
    let rounded = round_to_tick_size(price, tick_size);
    assert_eq!(rounded, Decimal::new(12346, 2));
}

#[test]
fn test_weighted_average_price() {
    let prices = vec![
        (Decimal::from_int(100), Decimal::from_int(10)),
        (Decimal::from_int(110), Decimal::from_int(20)),
        (Decimal::from_int(120), Decimal::from_int(30)),
    ];
    let wap = calculate_weighted_average_price(&prices);
    assert!(wap > Decimal::from_int(110) && wap < Decimal::from_int(115));
}

#[test]
fn lot_rounding_floors() {
    let qty = Decimal::new(17, 1);
    let lot = Decimal::new(5, 1);
    assert_eq!(round_to_lot_size(qty, lot), Decimal::new(15, 1));
}

#[test]
fn notional_is_exact() {
    assert_eq!(
        calculate_notional_value(Decimal::from_int(100), Decimal::new(15, 1)),
        Decimal::from_int(150)
    );
}
