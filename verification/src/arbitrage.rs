//! Cross-venue arbitrage detection.
//!
//! The detector compares every unordered pair of venues in both directions:
//! buying at one venue's best ask and selling at the other's best bid. A
//! direction yields an opportunity exactly when a gross edge exists, the
//! fee-adjusted profit in basis points reaches the configured threshold, and
//! the top-of-book executable notional reaches the configured volume floor.

use vstd::prelude::*;

use crate::book::{min_int, FastOrderBook, MAX_UNIT_MANTISSA};
use crate::fixed::{Decimal, abs_int, scaled_div, scaled_mul, trunc_div, SCALE_FACTOR};
use crate::time::now_timestamp_ms;
use crate::types::{venue_eq, venue_key_eq, ArbFinderError, Symbol, VenueId};

verus! {

/// Default fee rate assumed for a venue without configuration: 0.1%.
pub const DEFAULT_FEE_MANTISSA: i128 = 1_000_000;

/// The two fee rates an opportunity's round trip pays.
#[derive(Clone, Copy, Debug, PartialEq, Eq, Structural)]
pub struct TradingFeePair {
    pub buy_exchange_fee: Decimal,
    pub sell_exchange_fee: Decimal,
}

/// One executable cross-venue opportunity.
#[derive(Debug, Clone)]
pub struct ArbitrageOpportunity {
    pub symbol: Symbol,
    pub buy_venue: VenueId,
    pub sell_venue: VenueId,
    pub buy_price: Decimal,
    pub sell_price: Decimal,
    pub profit_percentage: Decimal,
    pub max_volume: Decimal,
    pub estimated_profit: Decimal,
    pub timestamp: u64,
}

impl ArbitrageOpportunity {
    /// Profit per unit after both venues' fees, at this opportunity's prices.
    pub fn calculate_net_profit(&self, trading_fees: &TradingFeePair) -> (r: Decimal)
        requires
            0 < self.buy_price@ <= MAX_UNIT_MANTISSA as int,
            0 < self.sell_price@ <= MAX_UNIT_MANTISSA as int,
            0 <= trading_fees.buy_exchange_fee@ <= SCALE_FACTOR as int,
            0 <= trading_fees.sell_exchange_fee@ <= SCALE_FACTOR as int,
        ensures
            r@ == self.sell_price@ - self.buy_price@ - scaled_mul(
                self.buy_price@,
                trading_fees.buy_exchange_fee@,
            ) - scaled_mul(self.sell_price@, trading_fees.sell_exchange_fee@),
    {
        let gross_profit = self.sell_price.sub(self.buy_price);
        proof {
            lemma_fee_product_bounds(self.buy_price@, trading_fees.buy_exchange_fee@);
            lemma_fee_product_bounds(self.sell_price@, trading_fees.sell_exchange_fee@);
        }
        let buy_fee = self.buy_price.mul(trading_fees.buy_exchange_fee);
        let sell_fee = self.sell_price.mul(trading_fees.sell_exchange_fee);
        gross_profit.sub(buy_fee).sub(sell_fee)
    }
}

/// A fee applied to a valid price multiplies safely and stays within one
/// price unit of headroom.
pub proof fn lemma_fee_product_bounds(p: int, f: int)
    requires
        0 < p <= MAX_UNIT_MANTISSA as int,
        0 <= f <= SCALE_FACTOR as int,
    ensures
        abs_int(p) * abs_int(f) <= i128::MAX,
        0 <= scaled_mul(p, f) <= MAX_UNIT_MANTISSA as int,
{
    crate::fixed::lemma_mul_sign(p, f);
    assert(p * f <= (MAX_UNIT_MANTISSA as int) * (SCALE_FACTOR as int)) by (nonlinear_arith)
        requires
            0 < p <= MAX_UNIT_MANTISSA as int,
            0 <= f <= SCALE_FACTOR as int,
    ;
    assert(p * f >= 0) by (nonlinear_arith)
        requires
            p > 0,
            f >= 0,
    ;
    crate::fixed::lemma_div_le_dividend(p * f, SCALE_FACTOR as int);
    assert((p * f) / (SCALE_FACTOR as int) <= ((MAX_UNIT_MANTISSA as int) * (SCALE_FACTOR as int))
        / (SCALE_FACTOR as int)) by (nonlinear_arith)
        requires
            0 <= p * f <= (MAX_UNIT_MANTISSA as int) * (SCALE_FACTOR as int),
            SCALE_FACTOR == 1_000_000_000i128,
    ;
    assert(((MAX_UNIT_MANTISSA as int) * (SCALE_FACTOR as int)) / (SCALE_FACTOR as int)
        == MAX_UNIT_MANTISSA as int) by (nonlinear_arith)
        requires
            SCALE_FACTOR == 1_000_000_000i128,
            MAX_UNIT_MANTISSA == 1_000_000_000_000_000_000i128,
    ;
}

/// The fee rate configured for a venue; the first matching entry wins and an
/// unconfigured venue pays the default rate.
pub open spec fn spec_fee_lookup(fees: Seq<(VenueId, Decimal)>, v: VenueId) -> int
    decreases fees.len(),
{
    if fees.len() == 0 {
        DEFAULT_FEE_MANTISSA as int
    } else if venue_key_eq(fees[0].0, v) {
        fees[0].1@
    } else {
        spec_fee_lookup(fees.drop_first(), v)
    }
}

/// Every fee a well-formed detector can look up lies between zero and one.
pub proof fn lemma_fee_lookup_bounds(fees: Seq<(VenueId, Decimal)>, v: VenueId)
    requires
        forall|k: int| 0 <= k < fees.len() ==> 0 <= (#[trigger] fees[k]).1@ <= SCALE_FACTOR as int,
    ensures
        0 <= spec_fee_lookup(fees, v) <= SCALE_FACTOR as int,
    decreases fees.len(),
{
    if fees.len() > 0 && !venue_key_eq(fees[0].0, v) {
        assert(forall|k: int|
            0 <= k < fees.drop_first().len() ==> 0 <= (#[trigger] fees.drop_first()[k]).1@
                <= SCALE_FACTOR as int) by {
            assert(forall|k: int|
                0 <= k < fees.drop_first().len() ==> fees.drop_first()[k] == fees[k + 1]);
        }
        lemma_fee_lookup_bounds(fees.drop_first(), v);
    }
}

/// The outcome of checking one direction of one venue pair: buy and sell
/// prices, net profit per ten-thousand, executable quantity, and estimated
/// absolute profit (all as mantissas).
pub open spec fn spec_check_direction(
    det: CrossExchangeArbitrageDetector,
    buy_venue: VenueId,
    sell_venue: VenueId,
    buy_book: FastOrderBook,
    sell_book: FastOrderBook,
) -> Option<(int, int, int, int, int)> {
    if buy_book.asks@.len() == 0 || sell_book.bids@.len() == 0 {
        None
    } else {
        let buy = buy_book.asks@[0].price@;
        let sell = sell_book.bids@[0].price@;
        if sell <= buy {
            None
        } else {
            let gross_bps = scaled_div(sell - buy, buy) * 10000;
            let buy_fee = spec_fee_lookup(det.trading_fees@, buy_venue);
            let sell_fee = spec_fee_lookup(det.trading_fees@, sell_venue);
            let net_bps = gross_bps - (buy_fee + sell_fee) * 10000;
            if net_bps < det.min_profit_threshold@ * 10000 {
                None
            } else {
                let vol = min_int(buy_book.asks@[0].quantity@, sell_book.bids@[0].quantity@);
                if scaled_mul(vol, buy) < det.min_volume_threshold@ {
                    None
                } else {
                    let npu = (sell - buy) - scaled_mul(buy, buy_fee) - scaled_mul(sell, sell_fee);
                    Some((buy, sell, trunc_div(net_bps, 10000), vol, scaled_mul(npu, vol)))
                }
            }
        }
    }
}

/// The observable data of an emitted opportunity.
pub open spec fn opp_data(o: ArbitrageOpportunity) -> (
    VenueId,
    VenueId,
    (int, int, int, int, int),
) {
    (
        o.buy_venue,
        o.sell_venue,
        (o.buy_price@, o.sell_price@, o.profit_percentage@, o.max_volume@, o.estimated_profit@),
    )
}

/// The observable data of a list of opportunities.
pub open spec fn opps_data(s: Seq<ArbitrageOpportunity>) -> Seq<
    (VenueId, VenueId, (int, int, int, int, int)),
> {
    s.map_values(|o: ArbitrageOpportunity| opp_data(o))
}

/// The opportunities one venue pair contributes, both directions in order.
pub open spec fn spec_pair_opps(
    det: CrossExchangeArbitrageDetector,
    a: (VenueId, FastOrderBook),
    b: (VenueId, FastOrderBook),
) -> Seq<(VenueId, VenueId, (int, int, int, int, int))> {
    let d1 = spec_check_direction(det, a.0, b.0, a.1, b.1);
    let d2 = spec_check_direction(det, b.0, a.0, b.1, a.1);
    let s1: Seq<(VenueId, VenueId, (int, int, int, int, int))> = match d1 {
        Some(v) => seq![(a.0, b.0, v)],
        None => Seq::empty(),
    };
    let s2: Seq<(VenueId, VenueId, (int, int, int, int, int))> = match d2 {
        Some(v) => seq![(b.0, a.0, v)],
        None => Seq::empty(),
    };
    s1 + s2
}

/// All opportunities venue `i` forms with venues from `j` on.
pub open spec fn spec_detect_inner(
    det: CrossExchangeArbitrageDetector,
    books: Seq<(VenueId, FastOrderBook)>,
    i: int,
    j: int,
) -> Seq<(VenueId, VenueId, (int, int, int, int, int))>
    decreases books.len() - j,
{
    if j < 0 || j >= books.len() || !(0 <= i < books.len()) {
        Seq::empty()
    } else {
        spec_pair_opps(det, books[i], books[j]) + spec_detect_inner(det, books, i, j + 1)
    }
}

/// All opportunities among venues from `i` on.
pub open spec fn spec_detect_outer(
    det: CrossExchangeArbitrageDetector,
    books: Seq<(VenueId, FastOrderBook)>,
    i: int,
) -> Seq<(VenueId, VenueId, (int, int, int, int, int))>
    decreases books.len() - i,
{
    if i < 0 || i >= books.len() {
        Seq::empty()
    } else {
        spec_detect_inner(det, books, i, i + 1) + spec_detect_outer(det, books, i + 1)
    }
}

/// Detects fee-adjusted price discrepancies between pairs of venues.
pub struct CrossExchangeArbitrageDetector {
    /// Minimum net profit, as a fraction (basis points over ten thousand).
    pub min_profit_threshold: Decimal,
    /// Minimum executable notional, in quote-currency units.
    pub min_volume_threshold: Decimal,
    /// Per-venue fee rates; the first entry for a venue wins.
    pub trading_fees: Vec<(VenueId, Decimal)>,
}

impl CrossExchangeArbitrageDetector {
    /// The detector's standing invariant: every configured fee rate lies
    /// between zero and one, and the profit threshold is within range.
    pub open spec fn wf(&self) -> bool {
        &&& forall|k: int|
            0 <= k < self.trading_fees@.len() ==> 0 <= (#[trigger] self.trading_fees@[k]).1@
                <= SCALE_FACTOR as int
        &&& abs_int(self.min_profit_threshold@) <= 1_000_000_000_000_000
    }

    /// A detector with the given profit threshold (whole basis points) and
    /// volume floor, and the stock venue fee schedule.
    pub fn new(min_profit_bps: i32, min_volume: Decimal) -> (r: CrossExchangeArbitrageDetector)
        ensures
            r.wf(),
            r.min_profit_threshold@ == min_profit_bps * 100_000,
            r.min_volume_threshold == min_volume,
            r.trading_fees@.len() == 3,
            r.trading_fees@[0].0 == VenueId::Binance && r.trading_fees@[0].1@ == 1_000_000,
            r.trading_fees@[1].0 == VenueId::Coinbase && r.trading_fees@[1].1@ == 5_000_000,
            r.trading_fees@[2].0 == VenueId::Kraken && r.trading_fees@[2].1@ == 2_600_000,
    {
        let mut trading_fees: Vec<(VenueId, Decimal)> = Vec::new();
        trading_fees.push((VenueId::Binance, Decimal::new(1, 3)));
        trading_fees.push((VenueId::Coinbase, Decimal::new(5, 3)));
        trading_fees.push((VenueId::Kraken, Decimal::new(26, 4)));
        proof {
            crate::fixed::lemma_pow10_le_9(6);
            crate::fixed::lemma_pow10_le_9(5);
            assert(crate::fixed::pow10(6) == 1_000_000) by {
                reveal_with_fuel(crate::fixed::pow10, 8);
            }
            assert(crate::fixed::pow10(5) == 100_000) by {
                reveal_with_fuel(crate::fixed::pow10, 8);
            }
            assert(min_profit_bps * 100_000 <= i32::MAX * 100_000 && i32::MIN * 100_000
                <= min_profit_bps * 100_000) by (nonlinear_arith)
                requires
                    i32::MIN <= min_profit_bps <= i32::MAX,
            ;
        }
        CrossExchangeArbitrageDetector {
            min_profit_threshold: Decimal::new(min_profit_bps as i64, 4),
            min_volume_threshold: min_volume,
            trading_fees,
        }
    }

    /// Overwrites (or installs) one venue's fee rate. A rate outside the
    /// range zero to one is rejected and leaves the schedule unchanged.
    pub fn set_trading_fee(&mut self, venue: VenueId, fee: Decimal) -> (r: Result<
        (),
        ArbFinderError,
    >)
        requires
            old(self).wf(),
        ensures
            final(self).wf(),
            r is Ok <==> 0 <= fee@ <= SCALE_FACTOR as int,
            r is Err ==> *final(self) == *old(self),
            r is Err ==> r matches Err(ArbFinderError::InvalidData(_)),
            r is Ok ==> spec_fee_lookup(final(self).trading_fees@, venue) == fee@,
            r is Ok ==> forall|w: VenueId|
                !venue_key_eq(venue, w) ==> spec_fee_lookup(final(self).trading_fees@, w)
                    == spec_fee_lookup(old(self).trading_fees@, w),
            r is Ok ==> final(self).min_profit_threshold == old(self).min_profit_threshold
                && final(self).min_volume_threshold == old(self).min_volume_threshold,
    {
        proof {
            crate::fixed::lemma_pow10_units();
        }
        let one = Decimal::new(1, 0);
        if fee.lt(Decimal::zero()) || fee.gt(one) {
            return Err(
                ArbFinderError::InvalidData("Fee rate must lie between zero and one".to_owned()),
            );
        }
        let ghost fees0 = self.trading_fees@;
        let mut i: usize = 0;
        while i < self.trading_fees.len()
            invariant
                i <= self.trading_fees@.len(),
                *self == *old(self),
                old(self).wf(),
                self.trading_fees@ == fees0,
                0 <= fee@ <= SCALE_FACTOR as int,
                forall|k: int| 0 <= k < i ==> !venue_key_eq((#[trigger] fees0[k]).0, venue),
            decreases self.trading_fees.len() - i,
        {
            if venue_eq(&self.trading_fees[i].0, &venue) {
                let ghost hit = i as int;
                self.trading_fees.set(i, (venue.clone(), fee));
                proof {
                    lemma_fee_lookup_update(fees0, hit, venue, fee);
                    assert forall|k: int| 0 <= k < self.trading_fees@.len() implies 0 <= (
                    #[trigger] self.trading_fees@[k]).1@ <= SCALE_FACTOR as int by {
                        if k != hit {
                            assert(self.trading_fees@[k] == fees0[k]);
                        }
                    }
                }
                return Ok(());
            }
            i = i + 1;
        }
        self.trading_fees.push((venue.clone(), fee));
        proof {
            lemma_fee_lookup_append(fees0, venue, fee);
            assert forall|k: int| 0 <= k < self.trading_fees@.len() implies 0 <= (
            #[trigger] self.trading_fees@[k]).1@ <= SCALE_FACTOR as int by {
                if k < fees0.len() {
                    assert(self.trading_fees@[k] == fees0[k]);
                }
            }
        }
        Ok(())
    }

    /// Checks one direction of one venue pair: buy at `buy_book`'s best ask,
    /// sell at `sell_book`'s best bid. Emits an opportunity exactly when the
    /// spec-level check does, with matching prices, profit, size and venues.
    pub fn check_arbitrage_direction(
        &self,
        symbol: &Symbol,
        buy_venue: VenueId,
        sell_venue: VenueId,
        buy_book: &FastOrderBook,
        sell_book: &FastOrderBook,
    ) -> (r: Option<ArbitrageOpportunity>)
        requires
            self.wf(),
            buy_book.wf(),
            sell_book.wf(),
        ensures
            ({
                let sc = spec_check_direction(*self, buy_venue, sell_venue, *buy_book, *sell_book);
                &&& (sc is None ==> r is None)
                &&& (sc matches Some(v) ==> (r matches Some(o) && o.symbol == *symbol
                    && o.buy_venue == buy_venue && o.sell_venue == sell_venue && o.buy_price@
                    == v.0 && o.sell_price@ == v.1 && o.profit_percentage@ == v.2 && o.max_volume@
                    == v.3 && o.estimated_profit@ == v.4))
            }),
    {
        let best_ask: crate::book::PriceLevel = match buy_book.best_ask() {
            Some(l) => *l,
            None => {
                return None;
            },
        };
        let best_bid: crate::book::PriceLevel = match sell_book.best_bid() {
            Some(l) => *l,
            None => {
                return None;
            },
        };
        let buy_price = best_ask.price;
        let sell_price = best_bid.price;
        proof {
            assert(crate::book::level_valid(buy_book.asks@[0]));
            assert(crate::book::level_valid(sell_book.bids@[0]));
        }
        if sell_price.le(buy_price) {
            return None;
        }
        let diff = sell_price.sub(buy_price);
        proof {
            crate::book::lemma_scaled_div_bound(diff@, buy_price@);
        }
        let gross_bps = diff.div(buy_price).mul_int(10000);
        let buy_fee = self.get_fee(&buy_venue);
        let sell_fee = self.get_fee(&sell_venue);
        proof {
            lemma_fee_lookup_bounds(self.trading_fees@, buy_venue);
            lemma_fee_lookup_bounds(self.trading_fees@, sell_venue);
        }
        let fee_bps = buy_fee.add(sell_fee).mul_int(10000);
        let net_bps = gross_bps.sub(fee_bps);
        let threshold = self.min_profit_threshold.mul_int(10000);
        if net_bps.lt(threshold) {
            return None;
        }
        let max_volume = best_ask.quantity.min(best_bid.quantity);
        proof {
            assert(abs_int(max_volume@) * abs_int(buy_price@) <= i128::MAX) by (nonlinear_arith)
                requires
                    0 < max_volume@ <= MAX_UNIT_MANTISSA as int,
                    0 < buy_price@ <= MAX_UNIT_MANTISSA as int,
                    MAX_UNIT_MANTISSA == 1_000_000_000_000_000_000i128,
            ;
        }
        let volume_value = max_volume.mul(buy_price);
        if volume_value.lt(self.min_volume_threshold) {
            return None;
        }
        proof {
            lemma_fee_product_bounds(buy_price@, spec_fee_lookup(self.trading_fees@, buy_venue));
            lemma_fee_product_bounds(sell_price@, spec_fee_lookup(self.trading_fees@, sell_venue));
        }
        let net_per_unit = sell_price.sub(buy_price).sub(buy_price.mul(buy_fee)).sub(
            sell_price.mul(sell_fee),
        );
        proof {
            assert(abs_int(net_per_unit@) * abs_int(max_volume@) <= i128::MAX) by (nonlinear_arith)
                requires
                    abs_int(net_per_unit@) <= 3 * (MAX_UNIT_MANTISSA as int),
                    0 < max_volume@ <= MAX_UNIT_MANTISSA as int,
                    MAX_UNIT_MANTISSA == 1_000_000_000_000_000_000i128,
            ;
        }
        let estimated_profit = net_per_unit.mul(max_volume);
        let profit_percentage = net_bps.div_int(10000);
        Some(
            ArbitrageOpportunity {
                symbol: symbol.clone(),
                buy_venue,
                sell_venue,
                buy_price,
                sell_price,
                profit_percentage,
                max_volume,
                estimated_profit,
                timestamp: now_timestamp_ms(),
            },
        )
    }

    /// Detects opportunities across every unordered pair of the given venues,
    /// both directions considered, in the books' given order.
    pub fn detect_opportunities(
        &self,
        symbol: &Symbol,
        orderbooks: &Vec<(VenueId, FastOrderBook)>,
    ) -> (r: Vec<ArbitrageOpportunity>)
        requires
            self.wf(),
            forall|k: int| 0 <= k < orderbooks@.len() ==> (#[trigger] orderbooks@[k]).1.wf(),
        ensures
            opps_data(r@) == spec_detect_outer(*self, orderbooks@, 0),
            forall|k: int| 0 <= k < r@.len() ==> (#[trigger] r@[k]).symbol == *symbol,
    {
        let mut out: Vec<ArbitrageOpportunity> = Vec::new();
        let n: usize = orderbooks.len();
        let mut i: usize = 0;
        proof {
            assert(opps_data(out@) =~= Seq::<(VenueId, VenueId, (int, int, int, int, int))>::empty());
            assert(opps_data(out@) + spec_detect_outer(*self, orderbooks@, 0) =~= spec_detect_outer(
                *self,
                orderbooks@,
                0,
            ));
        }
        while i < n
            invariant
                i <= n == orderbooks@.len(),
                self.wf(),
                forall|k: int| 0 <= k < orderbooks@.len() ==> (#[trigger] orderbooks@[k]).1.wf(),
                forall|k: int| 0 <= k < out@.len() ==> (#[trigger] out@[k]).symbol == *symbol,
                opps_data(out@) + spec_detect_outer(*self, orderbooks@, i as int)
                    == spec_detect_outer(*self, orderbooks@, 0),
            decreases n - i,
        {
            let mut j: usize = i + 1;
            proof {
                assert(spec_detect_outer(*self, orderbooks@, i as int) == spec_detect_inner(
                    *self,
                    orderbooks@,
                    i as int,
                    i + 1,
                ) + spec_detect_outer(*self, orderbooks@, i + 1));
                assert(opps_data(out@) + (spec_detect_inner(*self, orderbooks@, i as int, i + 1)
                    + spec_detect_outer(*self, orderbooks@, i + 1)) =~= (opps_data(out@)
                    + spec_detect_inner(*self, orderbooks@, i as int, i + 1)) + spec_detect_outer(
                    *self,
                    orderbooks@,
                    i + 1,
                ));
            }
            while j < n
                invariant
                    i < j <= n == orderbooks@.len(),
                    i < n,
                    self.wf(),
                    forall|k: int|
                        0 <= k < orderbooks@.len() ==> (#[trigger] orderbooks@[k]).1.wf(),
                    forall|k: int| 0 <= k < out@.len() ==> (#[trigger] out@[k]).symbol == *symbol,
                    (opps_data(out@) + spec_detect_inner(*self, orderbooks@, i as int, j as int))
                        + spec_detect_outer(*self, orderbooks@, i + 1) == spec_detect_outer(
                        *self,
                        orderbooks@,
                        0,
                    ),
                decreases n - j,
            {
                let ghost out_before = out@;
                let venue_a: VenueId = orderbooks[i].0.clone();
                let venue_b: VenueId = orderbooks[j].0.clone();
                let d1 = self.check_arbitrage_direction(
                    symbol,
                    venue_a.clone(),
                    venue_b.clone(),
                    &orderbooks[i].1,
                    &orderbooks[j].1,
                );
                if let Some(o) = d1 {
                    out.push(o);
                }
                let d2 = self.check_arbitrage_direction(
                    symbol,
                    venue_b,
                    venue_a,
                    &orderbooks[j].1,
                    &orderbooks[i].1,
                );
                if let Some(o) = d2 {
                    out.push(o);
                }
                proof {
                    let pair = spec_pair_opps(*self, orderbooks@[i as int], orderbooks@[j as int]);
                    assert(opps_data(out@) =~= opps_data(out_before) + pair);
                    assert(spec_detect_inner(*self, orderbooks@, i as int, j as int) == pair
                        + spec_detect_inner(*self, orderbooks@, i as int, j + 1));
                    assert((opps_data(out_before) + spec_detect_inner(
                        *self,
                        orderbooks@,
                        i as int,
                        j as int,
                    )) =~= (opps_data(out@) + spec_detect_inner(
                        *self,
                        orderbooks@,
                        i as int,
                        j + 1,
                    )));
                }
                j = j + 1;
            }
            proof {
                assert(spec_detect_inner(*self, orderbooks@, i as int, j as int)
                    =~= Seq::<(VenueId, VenueId, (int, int, int, int, int))>::empty());
                assert((opps_data(out@) + spec_detect_inner(*self, orderbooks@, i as int, j as int))
                    =~= opps_data(out@));
            }
            i = i + 1;
        }
        proof {
            assert(spec_detect_outer(*self, orderbooks@, i as int) =~= Seq::<
                (VenueId, VenueId, (int, int, int, int, int)),
            >::empty());
            assert(opps_data(out@) + spec_detect_outer(*self, orderbooks@, i as int) =~= opps_data(
                out@,
            ));
        }
        out
    }

    /// The fee rate charged at a venue (the default when unconfigured).
    pub fn get_fee(&self, venue: &VenueId) -> (r: Decimal)
        ensures
            r@ == spec_fee_lookup(self.trading_fees@, *venue),
    {
        let mut i: usize = 0;
        proof {
            assert(self.trading_fees@.skip(0) =~= self.trading_fees@);
        }
        while i < self.trading_fees.len()
            invariant
                i <= self.trading_fees@.len(),
                spec_fee_lookup(self.trading_fees@.skip(i as int), *venue) == spec_fee_lookup(
                    self.trading_fees@,
                    *venue,
                ),
            decreases self.trading_fees.len() - i,
    {
            proof {
                assert(self.trading_fees@.skip(i as int)[0] == self.trading_fees@[i as int]);
                assert(self.trading_fees@.skip(i as int).drop_first() =~= self.trading_fees@.skip(
                    i + 1 as int,
                ));
            }
            if venue_eq(&self.trading_fees[i].0, venue) {
                return self.trading_fees[i].1;
            }
            i = i + 1;
        }
        proof {
            crate::fixed::lemma_pow10_le_9(6);
            assert(crate::fixed::pow10(6) == 1_000_000) by {
                reveal_with_fuel(crate::fixed::pow10, 8);
            }
        }
        Decimal::new(1, 3)
    }
}

/// Overwriting the first matching entry changes that venue's looked-up fee
/// and no other venue's.
proof fn lemma_fee_lookup_update(fees: Seq<(VenueId, Decimal)>, i: int, v: VenueId, f: Decimal)
    requires
        0 <= i < fees.len(),
        venue_key_eq(fees[i].0, v),
        forall|k: int| 0 <= k < i ==> !venue_key_eq((#[trigger] fees[k]).0, v),
    ensures
        spec_fee_lookup(fees.update(i, (v, f)), v) == f@,
        forall|w: VenueId|
            !venue_key_eq(v, w) ==> spec_fee_lookup(fees.update(i, (v, f)), w) == spec_fee_lookup(
                fees,
                w,
            ),
    decreases i,
{
    let upd = fees.update(i, (v, f));
    if i == 0 {
        assert(venue_key_eq(upd[0].0, v)) by {
            lemma_venue_key_eq_refl_local(v);
        }
        assert forall|w: VenueId| !venue_key_eq(v, w) implies spec_fee_lookup(upd, w)
            == spec_fee_lookup(fees, w) by {
            lemma_venue_key_eq_sym(fees[0].0, w);
            lemma_venue_key_eq_sym(v, w);
            lemma_venue_key_eq_trans(fees[0].0, v, w);
            assert(upd.drop_first() =~= fees.drop_first());
        }
    } else {
        assert(upd.drop_first() =~= fees.drop_first().update(i - 1, (v, f)));
        assert(forall|k: int|
            0 <= k < i - 1 ==> !venue_key_eq((#[trigger] fees.drop_first()[k]).0, v)) by {
            assert(forall|k: int|
                0 <= k < fees.drop_first().len() ==> fees.drop_first()[k] == fees[k + 1]);
        }
        lemma_fee_lookup_update(fees.drop_first(), i - 1, v, f);
        assert(!venue_key_eq(upd[0].0, v));
    }
}

/// Appending an entry for a venue with no earlier entry sets that venue's
/// looked-up fee and no other venue's.
proof fn lemma_fee_lookup_append(fees: Seq<(VenueId, Decimal)>, v: VenueId, f: Decimal)
    requires
        forall|k: int| 0 <= k < fees.len() ==> !venue_key_eq((#[trigger] fees[k]).0, v),
    ensures
        spec_fee_lookup(fees.push((v, f)), v) == f@,
        forall|w: VenueId|
            !venue_key_eq(v, w) ==> spec_fee_lookup(fees.push((v, f)), w) == spec_fee_lookup(
                fees,
                w,
            ),
    decreases fees.len(),
{
    let ext = fees.push((v, f));
    assert(ext[fees.len() as int] == (v, f));
    if fees.len() == 0 {
        assert(venue_key_eq(ext[0].0, v)) by {
            lemma_venue_key_eq_refl_local(v);
        }
        assert forall|w: VenueId| !venue_key_eq(v, w) implies spec_fee_lookup(ext, w)
            == spec_fee_lookup(fees, w) by {
            lemma_venue_key_eq_sym(v, w);
            assert(ext.drop_first() =~= Seq::<(VenueId, Decimal)>::empty());
            assert(spec_fee_lookup(ext.drop_first(), w) == DEFAULT_FEE_MANTISSA as int);
        }
    } else {
        assert(ext.drop_first() =~= fees.drop_first().push((v, f)));
        assert(forall|k: int|
            0 <= k < fees.drop_first().len() ==> !venue_key_eq(
                (#[trigger] fees.drop_first()[k]).0,
                v,
            )) by {
            assert(forall|k: int|
                0 <= k < fees.drop_first().len() ==> fees.drop_first()[k] == fees[k + 1]);
        }
        lemma_fee_lookup_append(fees.drop_first(), v, f);
        assert(!venue_key_eq(ext[0].0, v));
    }
}

/// Venue key equality is reflexive.
proof fn lemma_venue_key_eq_refl_local(a: VenueId)
    ensures
        venue_key_eq(a, a),
{
}

/// Venue key equality is symmetric.
proof fn lemma_venue_key_eq_sym(a: VenueId, b: VenueId)
    ensures
        venue_key_eq(a, b) == venue_key_eq(b, a),
{
}

/// Venue key equality is transitive.
proof fn lemma_venue_key_eq_trans(a: VenueId, b: VenueId, c: VenueId)
    ensures
        venue_key_eq(a, b) && venue_key_eq(b, c) ==> venue_key_eq(a, c),
{
}

} // verus!
