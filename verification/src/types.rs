//! Core market-domain types: venues, symbols, sides, order vocabulary and the
//! crate's error type.

use vstd::prelude::*;

verus! {

/// One side of an order book.
#[derive(Clone, Copy, Debug, PartialEq, Eq, Structural, Hash)]
pub enum Side {
    Bid,
    Ask,
}

/// A trading venue.
#[derive(Debug, PartialEq, Eq, Hash)]
pub enum VenueId {
    Binance,
    Coinbase,
    Kraken,
    Bitfinex,
    Huobi,
    OKX,
    Custom(String),
}

impl Clone for VenueId {
    /// An exact copy.
    fn clone(&self) -> (r: VenueId)
        ensures
            r == *self,
    {
        match self {
            VenueId::Binance => VenueId::Binance,
            VenueId::Coinbase => VenueId::Coinbase,
            VenueId::Kraken => VenueId::Kraken,
            VenueId::Bitfinex => VenueId::Bitfinex,
            VenueId::Huobi => VenueId::Huobi,
            VenueId::OKX => VenueId::OKX,
            VenueId::Custom(s) => VenueId::Custom(s.clone()),
        }
    }
}

/// Key equality on venues: named venues match by variant, custom venues by
/// their name's characters.
pub open spec fn venue_key_eq(a: VenueId, b: VenueId) -> bool {
    match (a, b) {
        (VenueId::Binance, VenueId::Binance) => true,
        (VenueId::Coinbase, VenueId::Coinbase) => true,
        (VenueId::Kraken, VenueId::Kraken) => true,
        (VenueId::Bitfinex, VenueId::Bitfinex) => true,
        (VenueId::Huobi, VenueId::Huobi) => true,
        (VenueId::OKX, VenueId::OKX) => true,
        (VenueId::Custom(x), VenueId::Custom(y)) => x@ == y@,
        _ => false,
    }
}

/// Key equality on venues is reflexive.
pub proof fn lemma_venue_key_eq_refl(a: VenueId)
    ensures
        venue_key_eq(a, a),
{
}

/// Run-time venue key comparison.
pub fn venue_eq(a: &VenueId, b: &VenueId) -> (r: bool)
    ensures
        r == venue_key_eq(*a, *b),
{
    match (a, b) {
        (VenueId::Binance, VenueId::Binance) => true,
        (VenueId::Coinbase, VenueId::Coinbase) => true,
        (VenueId::Kraken, VenueId::Kraken) => true,
        (VenueId::Bitfinex, VenueId::Bitfinex) => true,
        (VenueId::Huobi, VenueId::Huobi) => true,
        (VenueId::OKX, VenueId::OKX) => true,
        (VenueId::Custom(x), VenueId::Custom(y)) => x.eq(y),
        _ => false,
    }
}

/// A traded pair: base asset and quote asset.
#[derive(Debug, PartialEq, Eq, Hash)]
pub struct Symbol {
    pub base: String,
    pub quote: String,
}

impl Clone for Symbol {
    /// An exact copy.
    fn clone(&self) -> (r: Symbol)
        ensures
            r == *self,
    {
        Symbol { base: self.base.clone(), quote: self.quote.clone() }
    }
}

/// Key equality on symbols: both asset names match character for character.
pub open spec fn symbol_key_eq(a: Symbol, b: Symbol) -> bool {
    a.base@ == b.base@ && a.quote@ == b.quote@
}

impl Symbol {
    /// Builds a symbol from its two asset names.
    pub fn new(base: &str, quote: &str) -> (r: Symbol)
        ensures
            r.base@ == base@,
            r.quote@ == quote@,
    {
        Symbol { base: base.to_owned(), quote: quote.to_owned() }
    }

    /// The base asset name.
    pub fn base(&self) -> (r: &str)
        ensures
            r@ == self.base@,
    {
        self.base.as_str()
    }

    /// The quote asset name.
    pub fn quote(&self) -> (r: &str)
        ensures
            r@ == self.quote@,
    {
        self.quote.as_str()
    }

    /// Splits a pair such as a base and quote joined by a slash at the first
    /// slash; `None` when no slash occurs.
    pub fn from_pair(pair: &str) -> (r: Option<Symbol>)
        ensures
            (exists|i: int| 0 <= i < pair@.len() && pair@[i] == '/') <==> r is Some,
            r matches Some(sym) ==> ({
                let i = first_slash(pair@);
                &&& 0 <= i < pair@.len() && pair@[i] == '/'
                &&& sym.base@ == pair@.subrange(0, i)
                &&& sym.quote@ == pair@.subrange(i + 1, pair@.len() as int)
            }),
    {
        let n: usize = pair.unicode_len();
        let mut i: usize = 0;
        while i < n
            invariant
                i <= n == pair@.len(),
                forall|k: int| 0 <= k < i ==> pair@[k] != '/',
            decreases n - i,
        {
            if pair.get_char(i) == '/' {
                proof {
                    lemma_first_slash(pair@, i as int);
                }
                let base = pair.substring_char(0, i).to_owned();
                let quote = pair.substring_char(i + 1, n).to_owned();
                return Some(Symbol { base, quote });
            }
            i = i + 1;
        }
        None
    }

    /// The pair written with a slash between base and quote.
    pub fn to_pair(&self) -> (r: String)
        ensures
            r@ == self.base@ + "/"@ + self.quote@,
    {
        self.base.clone().concat("/").concat(self.quote.as_str())
    }

    /// Run-time symbol key comparison.
    pub fn key_eq(&self, other: &Symbol) -> (r: bool)
        ensures
            r == symbol_key_eq(*self, *other),
    {
        let b: bool = self.base.eq(&other.base);
        let q: bool = self.quote.eq(&other.quote);
        b && q
    }
}

/// The index of the first slash in a sequence of characters (the sequence
/// length when none occurs).
pub open spec fn first_slash(s: Seq<char>) -> int
    decreases s.len(),
{
    if s.len() == 0 {
        0
    } else if s[0] == '/' {
        0
    } else {
        1 + first_slash(s.drop_first())
    }
}

/// A found slash with a slash-free prefix is the first slash.
pub proof fn lemma_first_slash(s: Seq<char>, i: int)
    requires
        0 <= i < s.len(),
        s[i] == '/',
        forall|k: int| 0 <= k < i ==> s[k] != '/',
    ensures
        first_slash(s) == i,
    decreases i,
{
    if i > 0 {
        assert(forall|k: int| 0 <= k < i - 1 ==> s.drop_first()[k] == s[k + 1]);
        assert(s.drop_first()[i - 1] == s[i]);
        lemma_first_slash(s.drop_first(), i - 1);
    }
}

/// Direction of an order.
#[derive(Clone, Copy, Debug, PartialEq, Eq, Structural, Hash)]
pub enum OrderSide {
    Buy,
    Sell,
}

/// Execution style of an order.
#[derive(Clone, Copy, Debug, PartialEq, Eq, Structural, Hash)]
pub enum OrderType {
    Market,
    Limit,
    StopMarket,
    StopLimit,
    PostOnly,
    FillOrKill,
    ImmediateOrCancel,
}

/// How long an order stays working.
#[derive(Clone, Copy, Debug, PartialEq, Eq, Structural, Hash)]
pub enum TimeInForce {
    GoodTillCanceled,
    ImmediateOrCancel,
    FillOrKill,
    GoodTillDate,
}

/// Lifecycle state of an order.
#[derive(Clone, Copy, Debug, PartialEq, Eq, Structural, Hash)]
pub enum OrderStatus {
    Pending,
    Open,
    PartiallyFilled,
    Filled,
    Canceled,
    Rejected,
    Expired,
}

/// Family of arbitrage strategy.
#[derive(Clone, Copy, Debug, PartialEq, Eq, Structural, Hash)]
pub enum ArbitrageStrategy {
    Simple,
    Triangular,
    StatisticalMeanReversion,
    SpotFutures,
    CrossExchange,
}

/// Overall state of a multi-leg execution.
#[derive(Clone, Copy, Debug, PartialEq, Eq, Structural, Hash)]
pub enum ExecutionStatus {
    Pending,
    InProgress,
    Completed,
    PartiallyCompleted,
    Failed,
    Canceled,
}

/// State of a single execution leg.
#[derive(Clone, Copy, Debug, PartialEq, Eq, Structural, Hash)]
pub enum LegStatus {
    Pending,
    Submitted,
    PartiallyFilled,
    Filled,
    Failed,
    Canceled,
}

/// Kind of trading signal.
#[derive(Clone, Copy, Debug, PartialEq, Eq, Structural, Hash)]
pub enum SignalType {
    MeanReversion,
    Momentum,
    Spread,
    Volatility,
    Volume,
    News,
    Technical,
}

/// Kind of detected market inefficiency.
#[derive(Clone, Copy, Debug, PartialEq, Eq, Structural, Hash)]
pub enum InefficiencyType {
    PriceDiscrepancy,
    VolumeImbalance,
    LatencyArbitrage,
    FundingRateDeviation,
    LiquidityGap,
}

/// Kind of market-data record.
#[derive(Clone, Copy, Debug, PartialEq, Eq, Structural, Hash)]
pub enum MarketDataType {
    OrderBook,
    Trade,
    Ticker,
    Candle,
}

/// Connectivity state of a venue.
#[derive(Clone, Copy, Debug, PartialEq, Eq, Structural, Hash)]
pub enum VenueStatus {
    Online,
    Offline,
    Maintenance,
    RateLimited,
    AuthenticationError,
}

/// Request-rate allowances of a venue.
#[derive(Clone, Copy, Debug, PartialEq, Eq, Structural, Hash)]
pub struct RateLimits {
    pub requests_per_second: u32,
    pub requests_per_minute: u32,
    pub orders_per_second: u32,
    pub orders_per_day: u32,
}

impl Default for RateLimits {
    /// Conservative venue-agnostic defaults.
    fn default() -> (r: RateLimits)
        ensures
            r.requests_per_second == 10,
            r.requests_per_minute == 1200,
            r.orders_per_second == 10,
            r.orders_per_day == 200000,
    {
        RateLimits {
            requests_per_second: 10,
            requests_per_minute: 1200,
            orders_per_second: 10,
            orders_per_day: 200000,
        }
    }
}

/// API credentials for a venue.
#[derive(Clone, Debug, PartialEq, Eq)]
pub struct VenueCredentials {
    pub api_key: String,
    pub secret_key: String,
    pub passphrase: Option<String>,
    pub sandbox: bool,
}

/// The crate's error type; each variant carries a human-readable detail.
#[derive(Clone, Debug, PartialEq, Eq)]
pub enum ArbFinderError {
    Exchange(String),
    WebSocket(String),
    Database(String),
    OrderBook(String),
    Strategy(String),
    Risk(String),
    Execution(String),
    Authentication(String),
    RateLimit(String),
    InvalidData(String),
    Timeout(String),
    InsufficientBalance(String),
    InvalidOrder(String),
    MarketClosed(String),
    SymbolNotFound(String),
    Parse(String),
    Internal(String),
}

} // verus!
