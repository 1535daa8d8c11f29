//! Change-event derivation from successive order-book states.
//!
//! The processor retains one previous observation per feed and, on each new
//! observation of a book, emits discrete events: best-quote changes, spread
//! changes, windowed volume shifts beyond a relative threshold, per-side
//! price movements, crossings with a severity class, and liquidity gaps
//! between adjacent levels. Event generation is a pure function of the
//! previous and current observations, stated exactly below.

use vstd::prelude::*;

use crate::book::{
    all_levels_valid, level_valid, min_int, spec_sum_qty, FastOrderBook, OrderBookSnapshot,
    OrderBookUpdate, PriceLevel, MAX_BOOK_DEPTH, MAX_UNIT_MANTISSA,
};
use crate::fixed::{abs_int, scaled_div, spec_dec, trunc_div, Decimal, SCALE_FACTOR};
use crate::time::now_timestamp_ms;
use crate::types::{Side, Symbol, VenueId};

verus! {

/// Relative windowed-volume change (0.1 = ten percent) above which a volume
/// event is emitted.
pub const VOLUME_CHANGE_THRESHOLD_MANTISSA: i128 = 100_000_000;

/// Relative price discontinuity (0.01 = one percent) above which a liquidity
/// gap is reported.
pub const GAP_THRESHOLD_MANTISSA: i128 = 10_000_000;

/// Crossings deeper than one hundred quote units are severe.
pub const SEVERE_CROSS_MANTISSA: i128 = 100_000_000_000;

/// Crossings deeper than ten quote units are moderate.
pub const MODERATE_CROSS_MANTISSA: i128 = 10_000_000_000;

/// How badly a crossed book is crossed.
#[derive(Clone, Copy, Debug, PartialEq, Eq, Structural, Hash)]
pub enum CrossingSeverity {
    Minor,
    Moderate,
    Severe,
}

/// Whether a best-price change helped or hurt that side's takers.
#[derive(Clone, Copy, Debug, PartialEq, Eq, Structural, Hash)]
pub enum PriceMovementType {
    Improvement,
    Degradation,
    Neutral,
}

/// A whole-book snapshot notification.
#[derive(Clone, Debug)]
pub struct OrderBookSnapshotEvent {
    pub venue_id: VenueId,
    pub symbol: Symbol,
    pub snapshot: OrderBookSnapshot,
    pub timestamp: u64,
}

/// An incremental-update notification.
#[derive(Clone, Debug)]
pub struct OrderBookUpdateEvent {
    pub venue_id: VenueId,
    pub symbol: Symbol,
    pub updates: Vec<OrderBookUpdate>,
    pub sequence: u64,
    pub timestamp: u64,
}

/// The best quote on either side changed.
#[derive(Clone, Debug)]
pub struct BestBidAskEvent {
    pub venue_id: VenueId,
    pub symbol: Symbol,
    pub best_bid: Option<PriceLevel>,
    pub best_ask: Option<PriceLevel>,
    pub previous_best_bid: Option<PriceLevel>,
    pub previous_best_ask: Option<PriceLevel>,
    pub timestamp: u64,
}

/// The spread changed.
#[derive(Clone, Debug)]
pub struct SpreadUpdateEvent {
    pub venue_id: VenueId,
    pub symbol: Symbol,
    pub spread: Option<Decimal>,
    pub spread_bps: Option<i32>,
    pub previous_spread: Option<Decimal>,
    pub mid_price: Option<Decimal>,
    pub timestamp: u64,
}

/// The windowed volume moved by more than the configured threshold.
#[derive(Clone, Debug)]
pub struct VolumeUpdateEvent {
    pub venue_id: VenueId,
    pub symbol: Symbol,
    pub total_bid_volume: Decimal,
    pub total_ask_volume: Decimal,
    pub imbalance_ratio: Option<Decimal>,
    pub depth: usize,
    pub timestamp: u64,
}

/// The book is crossed.
#[derive(Clone, Debug)]
pub struct CrossingEvent {
    pub venue_id: VenueId,
    pub symbol: Symbol,
    pub best_bid: PriceLevel,
    pub best_ask: PriceLevel,
    pub cross_amount: Decimal,
    pub severity: CrossingSeverity,
    pub timestamp: u64,
}

/// A price discontinuity between adjacent levels.
#[derive(Clone, Debug)]
pub struct LiquidityGapEvent {
    pub venue_id: VenueId,
    pub symbol: Symbol,
    pub side: Side,
    pub gap_start: Decimal,
    pub gap_end: Decimal,
    pub gap_size: Decimal,
    pub depth_level: usize,
    pub timestamp: u64,
}

/// One side's best price moved.
#[derive(Clone, Debug)]
pub struct PriceMovementEvent {
    pub venue_id: VenueId,
    pub symbol: Symbol,
    pub side: Side,
    pub old_price: Decimal,
    pub new_price: Decimal,
    pub change_bps: i32,
    pub movement_type: PriceMovementType,
    pub timestamp: u64,
}

/// A discrete change derived from one book transition.
#[derive(Clone, Debug)]
pub enum OrderBookEvent {
    Snapshot(OrderBookSnapshotEvent),
    Update(OrderBookUpdateEvent),
    BestBidAskUpdate(BestBidAskEvent),
    SpreadUpdate(SpreadUpdateEvent),
    VolumeUpdate(VolumeUpdateEvent),
    CrossingDetected(CrossingEvent),
    LiquidityGap(LiquidityGapEvent),
    PriceMovement(PriceMovementEvent),
}

/// What the processor remembers of the last observation of a book.
#[derive(Clone, Debug)]
pub struct OrderBookState {
    pub best_bid: Option<PriceLevel>,
    pub best_ask: Option<PriceLevel>,
    pub spread: Option<Decimal>,
    pub total_bid_volume: Decimal,
    pub total_ask_volume: Decimal,
    pub imbalance_ratio: Option<Decimal>,
}

/// The spread in whole basis points, as the book itself reports it.
pub open spec fn spec_spread_bps_opt(b: FastOrderBook) -> Option<i32> {
    if b.bids@.len() == 0 || b.asks@.len() == 0 {
        None
    } else {
        let bps = trunc_div(
            scaled_div(b.asks@[0].price@ - b.bids@[0].price@, b.bids@[0].price@) * 10000,
            SCALE_FACTOR as int,
        );
        if i32::MIN <= bps <= i32::MAX {
            Some(bps as i32)
        } else {
            None
        }
    }
}

/// The midpoint, as the book itself reports it.
pub open spec fn spec_mid_opt(b: FastOrderBook) -> Option<Decimal> {
    if b.bids@.len() == 0 || b.asks@.len() == 0 {
        None
    } else {
        Some(spec_dec(trunc_div(b.bids@[0].price@ + b.asks@[0].price@, 2)))
    }
}

/// The windowed bid volume of a book (top ten levels).
pub open spec fn spec_windowed_bid_volume(b: FastOrderBook) -> int {
    spec_sum_qty(b.bids@.take(min_int(10, b.bids@.len() as int)))
}

/// The windowed ask volume of a book (top ten levels).
pub open spec fn spec_windowed_ask_volume(b: FastOrderBook) -> int {
    spec_sum_qty(b.asks@.take(min_int(10, b.asks@.len() as int)))
}

/// The observation the processor takes of a book.
pub open spec fn obs_of_book(o: OrderBookState, b: FastOrderBook) -> bool {
    let bv = spec_windowed_bid_volume(b);
    let av = spec_windowed_ask_volume(b);
    &&& o.best_bid == FastOrderBook::spec_best(b.bids@)
    &&& o.best_ask == FastOrderBook::spec_best(b.asks@)
    &&& o.spread == (if b.bids@.len() == 0 || b.asks@.len() == 0 {
        None
    } else {
        Some(spec_dec(b.asks@[0].price@ - b.bids@[0].price@))
    })
    &&& o.total_bid_volume == spec_dec(bv)
    &&& o.total_ask_volume == spec_dec(av)
    &&& o.imbalance_ratio == (if bv + av == 0 {
        None
    } else {
        Some(spec_dec(scaled_div(bv, bv + av)))
    })
}

/// The numeric ranges an observation of a well-formed book lies in.
pub open spec fn obs_bounded(o: OrderBookState) -> bool {
    &&& (match o.best_bid {
        Some(l) => level_valid(l),
        None => true,
    })
    &&& (match o.best_ask {
        Some(l) => level_valid(l),
        None => true,
    })
    &&& 0 <= o.total_bid_volume@ <= (MAX_BOOK_DEPTH as int) * (MAX_UNIT_MANTISSA as int)
    &&& 0 <= o.total_ask_volume@ <= (MAX_BOOK_DEPTH as int) * (MAX_UNIT_MANTISSA as int)
}

/// The basis-point change between two prices, saturating to zero when the
/// figure leaves the 32-bit range (and for a zero base price).
pub open spec fn spec_change_bps(old_price: int, new_price: int) -> i32 {
    if old_price == 0 {
        0i32
    } else {
        let bps = trunc_div(
            scaled_div(new_price - old_price, old_price) * 10000,
            SCALE_FACTOR as int,
        );
        if i32::MIN <= bps <= i32::MAX {
            bps as i32
        } else {
            0i32
        }
    }
}

/// Severity class of a crossing of the given magnitude.
pub open spec fn spec_severity(cross_amount: int) -> CrossingSeverity {
    if cross_amount > SEVERE_CROSS_MANTISSA as int {
        CrossingSeverity::Severe
    } else if cross_amount > MODERATE_CROSS_MANTISSA as int {
        CrossingSeverity::Moderate
    } else {
        CrossingSeverity::Minor
    }
}

/// The best-quote event, if either best level changed.
pub open spec fn spec_maybe_best_event(
    venue: VenueId,
    symbol: Symbol,
    prev: OrderBookState,
    cur: OrderBookState,
    ts: u64,
) -> Seq<OrderBookEvent> {
    if prev.best_bid != cur.best_bid || prev.best_ask != cur.best_ask {
        seq![
            OrderBookEvent::BestBidAskUpdate(
                BestBidAskEvent {
                    venue_id: venue,
                    symbol: symbol,
                    best_bid: cur.best_bid,
                    best_ask: cur.best_ask,
                    previous_best_bid: prev.best_bid,
                    previous_best_ask: prev.best_ask,
                    timestamp: ts,
                },
            ),
        ]
    } else {
        Seq::empty()
    }
}

/// The spread event, if the spread changed.
pub open spec fn spec_maybe_spread_event(
    venue: VenueId,
    b: FastOrderBook,
    prev: OrderBookState,
    cur: OrderBookState,
    ts: u64,
) -> Seq<OrderBookEvent> {
    if prev.spread != cur.spread {
        seq![
            OrderBookEvent::SpreadUpdate(
                SpreadUpdateEvent {
                    venue_id: venue,
                    symbol: b.symbol,
                    spread: cur.spread,
                    spread_bps: spec_spread_bps_opt(b),
                    previous_spread: prev.spread,
                    mid_price: spec_mid_opt(b),
                    timestamp: ts,
                },
            ),
        ]
    } else {
        Seq::empty()
    }
}

/// The volume event, if the windowed volume moved beyond the threshold.
pub open spec fn spec_maybe_volume_event(
    venue: VenueId,
    symbol: Symbol,
    prev: OrderBookState,
    cur: OrderBookState,
    ts: u64,
) -> Seq<OrderBookEvent> {
    let prev_total = prev.total_bid_volume@ + prev.total_ask_volume@;
    let cur_total = cur.total_bid_volume@ + cur.total_ask_volume@;
    if prev_total > 0 && abs_int(scaled_div(cur_total - prev_total, prev_total))
        > VOLUME_CHANGE_THRESHOLD_MANTISSA as int {
        seq![
            OrderBookEvent::VolumeUpdate(
                VolumeUpdateEvent {
                    venue_id: venue,
                    symbol: symbol,
                    total_bid_volume: cur.total_bid_volume,
                    total_ask_volume: cur.total_ask_volume,
                    imbalance_ratio: cur.imbalance_ratio,
                    depth: 10usize,
                    timestamp: ts,
                },
            ),
        ]
    } else {
        Seq::empty()
    }
}

/// The bid-side movement event, if both observations quote a bid and its
/// price moved.
pub open spec fn spec_maybe_bid_move(
    venue: VenueId,
    symbol: Symbol,
    prev: OrderBookState,
    cur: OrderBookState,
    ts: u64,
) -> Seq<OrderBookEvent> {
    match (prev.best_bid, cur.best_bid) {
        (Some(p), Some(c)) => if p.price != c.price {
            seq![
                OrderBookEvent::PriceMovement(
                    PriceMovementEvent {
                        venue_id: venue,
                        symbol: symbol,
                        side: Side::Bid,
                        old_price: p.price,
                        new_price: c.price,
                        change_bps: spec_change_bps(p.price@, c.price@),
                        movement_type: if c.price@ > p.price@ {
                            PriceMovementType::Improvement
                        } else {
                            PriceMovementType::Degradation
                        },
                        timestamp: ts,
                    },
                ),
            ]
        } else {
            Seq::empty()
        },
        _ => Seq::empty(),
    }
}

/// The ask-side movement event, if both observations quote an ask and its
/// price moved.
pub open spec fn spec_maybe_ask_move(
    venue: VenueId,
    symbol: Symbol,
    prev: OrderBookState,
    cur: OrderBookState,
    ts: u64,
) -> Seq<OrderBookEvent> {
    match (prev.best_ask, cur.best_ask) {
        (Some(p), Some(c)) => if p.price != c.price {
            seq![
                OrderBookEvent::PriceMovement(
                    PriceMovementEvent {
                        venue_id: venue,
                        symbol: symbol,
                        side: Side::Ask,
                        old_price: p.price,
                        new_price: c.price,
                        change_bps: spec_change_bps(p.price@, c.price@),
                        movement_type: if c.price@ < p.price@ {
                            PriceMovementType::Improvement
                        } else {
                            PriceMovementType::Degradation
                        },
                        timestamp: ts,
                    },
                ),
            ]
        } else {
            Seq::empty()
        },
        _ => Seq::empty(),
    }
}

/// The crossing event, if the book is crossed.
pub open spec fn spec_maybe_crossing(
    venue: VenueId,
    b: FastOrderBook,
    cur: OrderBookState,
    ts: u64,
) -> Seq<OrderBookEvent> {
    if b.bids@.len() > 0 && b.asks@.len() > 0 && b.bids@[0].price@ >= b.asks@[0].price@ {
        match (cur.best_bid, cur.best_ask) {
            (Some(bb), Some(ba)) => seq![
                OrderBookEvent::CrossingDetected(
                    CrossingEvent {
                        venue_id: venue,
                        symbol: b.symbol,
                        best_bid: bb,
                        best_ask: ba,
                        cross_amount: spec_dec(bb.price@ - ba.price@),
                        severity: spec_severity(bb.price@ - ba.price@),
                        timestamp: ts,
                    },
                ),
            ],
            _ => Seq::empty(),
        }
    } else {
        Seq::empty()
    }
}

/// Liquidity-gap events between adjacent levels of one side's window, from
/// position `k` on.
pub open spec fn spec_gaps(
    venue: VenueId,
    symbol: Symbol,
    s: Seq<PriceLevel>,
    k: int,
    is_bid: bool,
    ts: u64,
) -> Seq<OrderBookEvent>
    decreases s.len() - k,
{
    if k < 0 || k + 1 >= s.len() {
        Seq::empty()
    } else {
        let lo_price = if is_bid {
            s[k + 1].price@
        } else {
            s[k].price@
        };
        let hi_price = if is_bid {
            s[k].price@
        } else {
            s[k + 1].price@
        };
        let rest = spec_gaps(venue, symbol, s, k + 1, is_bid, ts);
        if scaled_div(hi_price - lo_price, lo_price) > GAP_THRESHOLD_MANTISSA as int {
            seq![
                OrderBookEvent::LiquidityGap(
                    LiquidityGapEvent {
                        venue_id: venue,
                        symbol: symbol,
                        side: if is_bid {
                            Side::Bid
                        } else {
                            Side::Ask
                        },
                        gap_start: spec_dec(lo_price),
                        gap_end: spec_dec(hi_price),
                        gap_size: spec_dec(hi_price - lo_price),
                        depth_level: (k + 1) as usize,
                        timestamp: ts,
                    },
                ),
            ] + rest
        } else {
            rest
        }
    }
}

/// Every event one observation of a book generates, in emission order:
/// best-quote, spread, volume and movement events (only when a previous
/// observation exists), then crossing, then bid-side and ask-side gaps over
/// the top twenty levels.
pub open spec fn spec_generate_events(
    venue: VenueId,
    b: FastOrderBook,
    prev: Option<OrderBookState>,
    cur: OrderBookState,
    ts: u64,
) -> Seq<OrderBookEvent> {
    let diffed: Seq<OrderBookEvent> = match prev {
        Some(p) => spec_maybe_best_event(venue, b.symbol, p, cur, ts) + spec_maybe_spread_event(
            venue,
            b,
            p,
            cur,
            ts,
        ) + spec_maybe_volume_event(venue, b.symbol, p, cur, ts) + spec_maybe_bid_move(
            venue,
            b.symbol,
            p,
            cur,
            ts,
        ) + spec_maybe_ask_move(venue, b.symbol, p, cur, ts),
        None => Seq::empty(),
    };
    diffed + spec_maybe_crossing(venue, b, cur, ts) + spec_gaps(
        venue,
        b.symbol,
        b.bids@.take(min_int(20, b.bids@.len() as int)),
        0,
        true,
        ts,
    ) + spec_gaps(venue, b.symbol, b.asks@.take(min_int(20, b.asks@.len() as int)), 0, false, ts)
}

/// Value equality of optional levels.
fn opt_level_eq(a: &Option<PriceLevel>, b: &Option<PriceLevel>) -> (r: bool)
    ensures
        r == (a == b),
{
    match (a, b) {
        (Some(x), Some(y)) => *x == *y,
        (None, None) => true,
        _ => false,
    }
}

/// Value equality of optional decimals.
fn opt_dec_eq(a: &Option<Decimal>, b: &Option<Decimal>) -> (r: bool)
    ensures
        r == (a == b),
{
    match (a, b) {
        (Some(x), Some(y)) => *x == *y,
        (None, None) => true,
        _ => false,
    }
}

/// Takes the observation of a book that the processor retains and diffs.
fn compute_observation(book: &FastOrderBook) -> (o: OrderBookState)
    requires
        book.wf(),
    ensures
        obs_of_book(o, *book),
        obs_bounded(o),
{
    let best_bid: Option<PriceLevel> = match book.best_bid() {
        Some(l) => Some(*l),
        None => None,
    };
    let best_ask: Option<PriceLevel> = match book.best_ask() {
        Some(l) => Some(*l),
        None => None,
    };
    let spread = book.spread();
    let tbv = book.total_bid_volume(Some(10));
    let tav = book.total_ask_volume(Some(10));
    let imb = book.imbalance_ratio(Some(10));
    proof {
        if book.bids@.len() > 0 {
            assert(level_valid(book.bids@[0]));
        }
        if book.asks@.len() > 0 {
            assert(level_valid(book.asks@[0]));
        }
        crate::fixed::lemma_spec_dec_id(tbv);
        crate::fixed::lemma_spec_dec_id(tav);
        if let Some(d) = spread {
            crate::fixed::lemma_spec_dec_id(d);
        }
        if let Some(d) = imb {
            crate::fixed::lemma_spec_dec_id(d);
        }
        let bseq = book.bids@.take(min_int(10, book.bids@.len() as int));
        let aseq = book.asks@.take(min_int(10, book.asks@.len() as int));
        assert(all_levels_valid(bseq)) by {
            assert forall|i: int| 0 <= i < bseq.len() implies level_valid(#[trigger] bseq[i]) by {
                assert(bseq[i] == book.bids@[i]);
            }
        }
        assert(all_levels_valid(aseq)) by {
            assert forall|i: int| 0 <= i < aseq.len() implies level_valid(#[trigger] aseq[i]) by {
                assert(aseq[i] == book.asks@[i]);
            }
        }
        crate::book::lemma_sum_qty_bounds(bseq);
        crate::book::lemma_sum_qty_bounds(aseq);
    }
    OrderBookState {
        best_bid,
        best_ask,
        spread,
        total_bid_volume: tbv,
        total_ask_volume: tav,
        imbalance_ratio: imb,
    }
}

/// The basis-point change between two prices (zero when out of range).
fn calc_change_bps(old_price: Decimal, new_price: Decimal) -> (r: i32)
    requires
        0 <= old_price@ <= MAX_UNIT_MANTISSA as int,
        0 <= new_price@ <= MAX_UNIT_MANTISSA as int,
    ensures
        r == spec_change_bps(old_price@, new_price@),
{
    if old_price.is_zero() {
        return 0;
    }
    let diff = new_price.sub(old_price);
    proof {
        assert(abs_int(diff@) * (SCALE_FACTOR as int) <= i128::MAX) by (nonlinear_arith)
            requires
                abs_int(diff@) <= 2 * (MAX_UNIT_MANTISSA as int),
                SCALE_FACTOR == 1_000_000_000i128,
                MAX_UNIT_MANTISSA == 1_000_000_000_000_000_000i128,
        ;
        crate::fixed::lemma_scaled_div_range(diff@, old_price@);
        assert(abs_int(scaled_div(diff@, old_price@)) * 10000 <= i128::MAX) by (nonlinear_arith)
            requires
                abs_int(scaled_div(diff@, old_price@)) <= 2_000_000_000_000_000_000_000_000_000,
        ;
    }
    let bps = diff.div(old_price).mul_int(10000);
    match bps.to_i32() {
        Some(v) => v,
        None => 0,
    }
}

/// Appends the liquidity-gap events of one side's window.
fn push_gap_events(
    out: &mut Vec<OrderBookEvent>,
    venue_id: &VenueId,
    symbol: &Symbol,
    s: &Vec<PriceLevel>,
    is_bid: bool,
    ts: u64,
)
    requires
        all_levels_valid(s@),
    ensures
        final(out)@ == old(out)@ + spec_gaps(*venue_id, *symbol, s@, 0, is_bid, ts),
{
    let ghost base = old(out)@;
    let mut k: usize = 0;
    proof {
        assert(base + spec_gaps(*venue_id, *symbol, s@, 0, is_bid, ts) =~= out@ + spec_gaps(
            *venue_id,
            *symbol,
            s@,
            0,
            is_bid,
            ts,
        ));
    }
    let n: usize = s.len();
    let limit: usize = if n == 0 {
        0
    } else {
        n - 1
    };
    while k < limit
        invariant
            limit == (if s@.len() == 0 {
                0int
            } else {
                s@.len() - 1
            }),
            k <= s@.len(),
            all_levels_valid(s@),
            out@ + spec_gaps(*venue_id, *symbol, s@, k as int, is_bid, ts) == base + spec_gaps(
                *venue_id,
                *symbol,
                s@,
                0,
                is_bid,
                ts,
            ),
        decreases s.len() - k,
    {
        let ghost out_before = out@;
        let lo: Decimal = if is_bid {
            s[k + 1].price
        } else {
            s[k].price
        };
        let hi: Decimal = if is_bid {
            s[k].price
        } else {
            s[k + 1].price
        };
        proof {
            assert(level_valid(s@[k as int]));
            assert(level_valid(s@[k + 1 as int]));
        }
        let gap = hi.sub(lo);
        proof {
            assert(abs_int(gap@) * (SCALE_FACTOR as int) <= i128::MAX) by (nonlinear_arith)
                requires
                    abs_int(gap@) <= 2 * (MAX_UNIT_MANTISSA as int),
                    SCALE_FACTOR == 1_000_000_000i128,
                    MAX_UNIT_MANTISSA == 1_000_000_000_000_000_000i128,
            ;
            crate::fixed::lemma_scaled_div_range(gap@, lo@);
            crate::fixed::lemma_pow10_le_9(7);
            assert(crate::fixed::pow10(7) == 10_000_000) by {
                reveal_with_fuel(crate::fixed::pow10, 9);
            }
            crate::fixed::lemma_spec_dec_id(lo);
            crate::fixed::lemma_spec_dec_id(hi);
            crate::fixed::lemma_spec_dec_id(gap);
        }
        let pct = gap.div(lo);
        let thr = Decimal::new(1, 2);
        if pct.gt(thr) {
            out.push(
                OrderBookEvent::LiquidityGap(
                    LiquidityGapEvent {
                        venue_id: venue_id.clone(),
                        symbol: symbol.clone(),
                        side: if is_bid {
                            Side::Bid
                        } else {
                            Side::Ask
                        },
                        gap_start: lo,
                        gap_end: hi,
                        gap_size: gap,
                        depth_level: k + 1,
                        timestamp: ts,
                    },
                ),
            );
        }
        proof {
            assert(out_before + spec_gaps(*venue_id, *symbol, s@, k as int, is_bid, ts) =~= out@
                + spec_gaps(*venue_id, *symbol, s@, k + 1 as int, is_bid, ts));
        }
        k = k + 1;
    }
    proof {
        assert(spec_gaps(*venue_id, *symbol, s@, k as int, is_bid, ts) =~= Seq::<
            OrderBookEvent,
        >::empty());
        assert(out@ + spec_gaps(*venue_id, *symbol, s@, k as int, is_bid, ts) =~= out@);
    }
}

/// Derives every event of one book transition, in emission order.
fn generate_events(
    venue_id: &VenueId,
    book: &FastOrderBook,
    prev: &Option<OrderBookState>,
    cur: &OrderBookState,
    ts: u64,
) -> (r: Vec<OrderBookEvent>)
    requires
        book.wf(),
        obs_of_book(*cur, *book),
        obs_bounded(*cur),
        match *prev {
            Some(p) => obs_bounded(p),
            None => true,
        },
    ensures
        r@ == spec_generate_events(*venue_id, *book, *prev, *cur, ts),
{
    let mut out: Vec<OrderBookEvent> = Vec::new();
    let ghost v = *venue_id;
    let ghost b = *book;
    if let Some(p) = prev {
        // best-quote change
        if !opt_level_eq(&p.best_bid, &cur.best_bid) || !opt_level_eq(&p.best_ask, &cur.best_ask) {
            out.push(
                OrderBookEvent::BestBidAskUpdate(
                    BestBidAskEvent {
                        venue_id: venue_id.clone(),
                        symbol: book.symbol.clone(),
                        best_bid: cur.best_bid,
                        best_ask: cur.best_ask,
                        previous_best_bid: p.best_bid,
                        previous_best_ask: p.best_ask,
                        timestamp: ts,
                    },
                ),
            );
        }
        proof {
            assert(out@ =~= spec_maybe_best_event(v, b.symbol, *p, *cur, ts));
        }
        let ghost s1 = out@;
        // spread change
        if !opt_dec_eq(&p.spread, &cur.spread) {
            let bps = book.spread_bps();
            let mid = book.mid_price();
            proof {
                assert(bps == spec_spread_bps_opt(b));
                if let Some(d) = mid {
                    crate::fixed::lemma_spec_dec_id(d);
                }
                assert(mid == spec_mid_opt(b));
            }
            out.push(
                OrderBookEvent::SpreadUpdate(
                    SpreadUpdateEvent {
                        venue_id: venue_id.clone(),
                        symbol: book.symbol.clone(),
                        spread: cur.spread,
                        spread_bps: bps,
                        previous_spread: p.spread,
                        mid_price: mid,
                        timestamp: ts,
                    },
                ),
            );
        }
        proof {
            assert(out@ =~= s1 + spec_maybe_spread_event(v, b, *p, *cur, ts));
        }
        let ghost s2 = out@;
        // windowed volume shift
        let prev_total = p.total_bid_volume.add(p.total_ask_volume);
        let cur_total = cur.total_bid_volume.add(cur.total_ask_volume);
        if prev_total.gt(Decimal::zero()) {
            let diff = cur_total.sub(prev_total);
            proof {
                assert(abs_int(diff@) * (SCALE_FACTOR as int) <= i128::MAX) by (nonlinear_arith)
                    requires
                        abs_int(diff@) <= 4 * (MAX_BOOK_DEPTH as int) * (MAX_UNIT_MANTISSA as int),
                        SCALE_FACTOR == 1_000_000_000i128,
                        MAX_UNIT_MANTISSA == 1_000_000_000_000_000_000i128,
                        MAX_BOOK_DEPTH == 1_000_000usize,
                ;
                crate::fixed::lemma_scaled_div_range(diff@, prev_total@);
                crate::fixed::lemma_pow10_le_9(8);
                assert(crate::fixed::pow10(8) == 100_000_000) by {
                    reveal_with_fuel(crate::fixed::pow10, 10);
                }
            }
            let change = diff.div(prev_total).abs();
            let thr = Decimal::new(1, 1);
            if change.gt(thr) {
                out.push(
                    OrderBookEvent::VolumeUpdate(
                        VolumeUpdateEvent {
                            venue_id: venue_id.clone(),
                            symbol: book.symbol.clone(),
                            total_bid_volume: cur.total_bid_volume,
                            total_ask_volume: cur.total_ask_volume,
                            imbalance_ratio: cur.imbalance_ratio,
                            depth: 10,
                            timestamp: ts,
                        },
                    ),
                );
            }
        }
        proof {
            assert(out@ =~= s2 + spec_maybe_volume_event(v, b.symbol, *p, *cur, ts));
        }
        let ghost s3 = out@;
        // bid-side movement
        match (p.best_bid, cur.best_bid) {
            (Some(pb), Some(cb)) => {
                if !(pb.price == cb.price) {
                    proof {
                        Decimal::lemma_view_injective(pb.price, cb.price);
                    }
                    let change_bps = calc_change_bps(pb.price, cb.price);
                    out.push(
                        OrderBookEvent::PriceMovement(
                            PriceMovementEvent {
                                venue_id: venue_id.clone(),
                                symbol: book.symbol.clone(),
                                side: Side::Bid,
                                old_price: pb.price,
                                new_price: cb.price,
                                change_bps,
                                movement_type: if cb.price.gt(pb.price) {
                                    PriceMovementType::Improvement
                                } else {
                                    PriceMovementType::Degradation
                                },
                                timestamp: ts,
                            },
                        ),
                    );
                }
            },
            _ => {},
        }
        proof {
            assert(out@ =~= s3 + spec_maybe_bid_move(v, b.symbol, *p, *cur, ts));
        }
        let ghost s4 = out@;
        // ask-side movement
        match (p.best_ask, cur.best_ask) {
            (Some(pa), Some(ca)) => {
                if !(pa.price == ca.price) {
                    proof {
                        Decimal::lemma_view_injective(pa.price, ca.price);
                    }
                    let change_bps = calc_change_bps(pa.price, ca.price);
                    out.push(
                        OrderBookEvent::PriceMovement(
                            PriceMovementEvent {
                                venue_id: venue_id.clone(),
                                symbol: book.symbol.clone(),
                                side: Side::Ask,
                                old_price: pa.price,
                                new_price: ca.price,
                                change_bps,
                                movement_type: if ca.price.lt(pa.price) {
                                    PriceMovementType::Improvement
                                } else {
                                    PriceMovementType::Degradation
                                },
                                timestamp: ts,
                            },
                        ),
                    );
                }
            },
            _ => {},
        }
        proof {
            assert(out@ =~= s4 + spec_maybe_ask_move(v, b.symbol, *p, *cur, ts));
        }
    }
    let ghost diffed = out@;
    // crossing
    if book.is_crossed() {
        match (cur.best_bid, cur.best_ask) {
            (Some(bb), Some(ba)) => {
                let cross_amount = bb.price.sub(ba.price);
                let severity = if cross_amount.gt(Decimal::from_int(100)) {
                    CrossingSeverity::Severe
                } else if cross_amount.gt(Decimal::from_int(10)) {
                    CrossingSeverity::Moderate
                } else {
                    CrossingSeverity::Minor
                };
                proof {
                    crate::fixed::lemma_pow10_units();
                    crate::fixed::lemma_spec_dec_id(cross_amount);
                }
                out.push(
                    OrderBookEvent::CrossingDetected(
                        CrossingEvent {
                            venue_id: venue_id.clone(),
                            symbol: book.symbol.clone(),
                            best_bid: bb,
                            best_ask: ba,
                            cross_amount,
                            severity,
                            timestamp: ts,
                        },
                    ),
                );
            },
            _ => {},
        }
    }
    proof {
        assert(out@ =~= diffed + spec_maybe_crossing(v, b, *cur, ts));
    }
    let ghost with_cross = out@;
    // liquidity gaps over the top twenty levels of each side
    let top_bids = book.get_bids(Some(20));
    let top_asks = book.get_asks(Some(20));
    proof {
        assert(all_levels_valid(top_bids@)) by {
            assert forall|i: int| 0 <= i < top_bids@.len() implies level_valid(
                #[trigger] top_bids@[i],
            ) by {
                assert(top_bids@[i] == book.bids@[i]);
            }
        }
        assert(all_levels_valid(top_asks@)) by {
            assert forall|i: int| 0 <= i < top_asks@.len() implies level_valid(
                #[trigger] top_asks@[i],
            ) by {
                assert(top_asks@[i] == book.asks@[i]);
            }
        }
    }
    push_gap_events(&mut out, venue_id, &book.symbol, &top_bids, true, ts);
    push_gap_events(&mut out, venue_id, &book.symbol, &top_asks, false, ts);
    proof {
        assert(out@ =~= spec_generate_events(v, b, *prev, *cur, ts));
    }
    out
}

/// Stateful diff engine: retains one previous observation and derives the
/// events of each new observation.
#[derive(Debug)]
pub struct OrderBookEventProcessor {
    /// What the processor saw last, if it has observed a book before.
    pub previous_state: Option<OrderBookState>,
}

impl OrderBookEventProcessor {
    /// The retained observation, when present, lies in a book's ranges.
    pub open spec fn wf(&self) -> bool {
        match self.previous_state {
            Some(p) => obs_bounded(p),
            None => true,
        }
    }

    /// A processor that has observed nothing yet.
    pub fn new() -> (r: OrderBookEventProcessor)
        ensures
            r.previous_state is None,
            r.wf(),
    {
        OrderBookEventProcessor { previous_state: None }
    }

    /// Observes a book once and returns the derived events; the observation
    /// becomes the retained previous state. Feed one call per logical update
    /// batch.
    pub fn process_book_update(&mut self, venue_id: VenueId, book: &FastOrderBook) -> (r: Vec<
        OrderBookEvent,
    >)
        requires
            old(self).wf(),
            book.wf(),
        ensures
            final(self).wf(),
            final(self).previous_state matches Some(cur) && obs_of_book(cur, *book),
            exists|ts: u64|
                r@ == #[trigger] spec_generate_events(
                    venue_id,
                    *book,
                    old(self).previous_state,
                    final(self).previous_state->Some_0,
                    ts,
                ),
    {
        let cur = compute_observation(book);
        let ts: u64 = now_timestamp_ms();
        let events = generate_events(&venue_id, book, &self.previous_state, &cur, ts);
        let ghost cur_g = cur;
        self.previous_state = Some(cur);
        proof {
            assert(events@ == spec_generate_events(
                venue_id,
                *book,
                old(self).previous_state,
                cur_g,
                ts,
            ));
        }
        events
    }
}

impl Default for OrderBookEventProcessor {
    /// The same empty processor `new` builds.
    fn default() -> (r: OrderBookEventProcessor)
        ensures
            r.previous_state is None,
    {
        OrderBookEventProcessor::new()
    }
}

/// A consumer of derived book events.
pub trait OrderBookEventHandler {
    /// The events this handler has absorbed, in arrival order.
    spec fn absorbed(&self) -> Seq<OrderBookEvent>;

    /// Receives one event, absorbing it after everything seen so far.
    fn handle_event(&mut self, event: &OrderBookEvent)
        ensures
            final(self).absorbed() == old(self).absorbed().push(*event),
    ;
}

/// Hands every event of a batch to a handler: afterwards the handler has
/// absorbed exactly the batch, in order, after everything it had before.
pub fn dispatch_events<H: OrderBookEventHandler>(handler: &mut H, events: &Vec<OrderBookEvent>)
    ensures
        final(handler).absorbed() == old(handler).absorbed() + events@,
{
    let mut i: usize = 0;
    proof {
        assert(handler.absorbed() + events@.take(0) =~= handler.absorbed());
    }
    while i < events.len()
        invariant
            i <= events@.len(),
            handler.absorbed() == old(handler).absorbed() + events@.take(i as int),
        decreases events.len() - i,
    {
        let ghost before = handler.absorbed();
        handler.handle_event(&events[i]);
        proof {
            assert(events@.take(i + 1 as int) =~= events@.take(i as int).push(events@[i as int]));
            assert(handler.absorbed() =~= old(handler).absorbed() + events@.take(i + 1 as int));
        }
        i = i + 1;
    }
    proof {
        assert(events@.take(events@.len() as int) =~= events@);
    }
}

/// An event sink that merely acknowledges events; the crate itself keeps no
/// log output, so only the absorbed history remains observable.
pub struct LoggingEventHandler {
    /// The acknowledged events (specification state only).
    pub seen: Ghost<Seq<OrderBookEvent>>,
}

impl LoggingEventHandler {
    /// A sink that has acknowledged nothing yet.
    pub fn new() -> (r: LoggingEventHandler)
        ensures
            r.absorbed() == Seq::<OrderBookEvent>::empty(),
    {
        LoggingEventHandler { seen: Ghost(Seq::empty()) }
    }
}

impl OrderBookEventHandler for LoggingEventHandler {
    open spec fn absorbed(&self) -> Seq<OrderBookEvent> {
        self.seen@
    }

    fn handle_event(&mut self, event: &OrderBookEvent) {
        self.seen = Ghost(self.seen@.push(*event));
    }
}

/// Saturating increment of an event counter.
pub open spec fn sat_inc(c: u64) -> u64 {
    if c == u64::MAX {
        c
    } else {
        (c + 1) as u64
    }
}

/// The eight counters of a metrics handler as one tuple, in event order:
/// snapshots, updates, best-quote, spread, volume, crossing, gap, movement.
pub open spec fn metrics_counts(h: MetricsEventHandler) -> (
    u64,
    u64,
    u64,
    u64,
    u64,
    u64,
    u64,
    u64,
) {
    (
        h.snapshots,
        h.updates,
        h.best_bid_ask_updates,
        h.spread_updates,
        h.volume_updates,
        h.crossings_detected,
        h.liquidity_gaps,
        h.price_movements,
    )
}

/// The counters after absorbing one event.
pub open spec fn spec_bump(
    c: (u64, u64, u64, u64, u64, u64, u64, u64),
    e: OrderBookEvent,
) -> (u64, u64, u64, u64, u64, u64, u64, u64) {
    match e {
        OrderBookEvent::Snapshot(_) => (sat_inc(c.0), c.1, c.2, c.3, c.4, c.5, c.6, c.7),
        OrderBookEvent::Update(_) => (c.0, sat_inc(c.1), c.2, c.3, c.4, c.5, c.6, c.7),
        OrderBookEvent::BestBidAskUpdate(_) => (c.0, c.1, sat_inc(c.2), c.3, c.4, c.5, c.6, c.7),
        OrderBookEvent::SpreadUpdate(_) => (c.0, c.1, c.2, sat_inc(c.3), c.4, c.5, c.6, c.7),
        OrderBookEvent::VolumeUpdate(_) => (c.0, c.1, c.2, c.3, sat_inc(c.4), c.5, c.6, c.7),
        OrderBookEvent::CrossingDetected(_) => (c.0, c.1, c.2, c.3, c.4, sat_inc(c.5), c.6, c.7),
        OrderBookEvent::LiquidityGap(_) => (c.0, c.1, c.2, c.3, c.4, c.5, sat_inc(c.6), c.7),
        OrderBookEvent::PriceMovement(_) => (c.0, c.1, c.2, c.3, c.4, c.5, c.6, sat_inc(c.7)),
    }
}

/// Counts the events it receives, by kind.
#[derive(Clone, Copy)]
pub struct MetricsEventHandler {
    pub snapshots: u64,
    pub updates: u64,
    pub best_bid_ask_updates: u64,
    pub spread_updates: u64,
    pub volume_updates: u64,
    pub crossings_detected: u64,
    pub liquidity_gaps: u64,
    pub price_movements: u64,
    /// The counted events (specification state only).
    pub history: Ghost<Seq<OrderBookEvent>>,
}

impl MetricsEventHandler {
    /// A handler with every counter at zero.
    pub fn new() -> (r: MetricsEventHandler)
        ensures
            metrics_counts(r) == (0u64, 0u64, 0u64, 0u64, 0u64, 0u64, 0u64, 0u64),
            r.absorbed() == Seq::<OrderBookEvent>::empty(),
    {
        MetricsEventHandler {
            snapshots: 0,
            updates: 0,
            best_bid_ask_updates: 0,
            spread_updates: 0,
            volume_updates: 0,
            crossings_detected: 0,
            liquidity_gaps: 0,
            price_movements: 0,
            history: Ghost(Seq::empty()),
        }
    }

    /// Absorbs one event: the counter of its kind is bumped (saturating) and
    /// every other counter is untouched.
    pub fn record(&mut self, event: &OrderBookEvent)
        ensures
            metrics_counts(*final(self)) == spec_bump(metrics_counts(*old(self)), *event),
            final(self).history@ == old(self).history@.push(*event),
    {
        match event {
            OrderBookEvent::Snapshot(_) => {
                self.snapshots = bump(self.snapshots);
            },
            OrderBookEvent::Update(_) => {
                self.updates = bump(self.updates);
            },
            OrderBookEvent::BestBidAskUpdate(_) => {
                self.best_bid_ask_updates = bump(self.best_bid_ask_updates);
            },
            OrderBookEvent::SpreadUpdate(_) => {
                self.spread_updates = bump(self.spread_updates);
            },
            OrderBookEvent::VolumeUpdate(_) => {
                self.volume_updates = bump(self.volume_updates);
            },
            OrderBookEvent::CrossingDetected(_) => {
                self.crossings_detected = bump(self.crossings_detected);
            },
            OrderBookEvent::LiquidityGap(_) => {
                self.liquidity_gaps = bump(self.liquidity_gaps);
            },
            OrderBookEvent::PriceMovement(_) => {
                self.price_movements = bump(self.price_movements);
            },
        }
        self.history = Ghost(self.history@.push(*event));
    }

    /// The count recorded for one event-kind name (zero for unknown names).
    pub fn get_event_count(&self, event_type: &str) -> (r: u64)
        ensures
            r == (if event_type@ == "snapshot"@ {
                self.snapshots
            } else if event_type@ == "update"@ {
                self.updates
            } else if event_type@ == "best_bid_ask_update"@ {
                self.best_bid_ask_updates
            } else if event_type@ == "spread_update"@ {
                self.spread_updates
            } else if event_type@ == "volume_update"@ {
                self.volume_updates
            } else if event_type@ == "crossing_detected"@ {
                self.crossings_detected
            } else if event_type@ == "liquidity_gap"@ {
                self.liquidity_gaps
            } else if event_type@ == "price_movement"@ {
                self.price_movements
            } else {
                0u64
            }),
    {
        let key: String = event_type.to_owned();
        if key.eq(&"snapshot".to_owned()) {
            self.snapshots
        } else if key.eq(&"update".to_owned()) {
            self.updates
        } else if key.eq(&"best_bid_ask_update".to_owned()) {
            self.best_bid_ask_updates
        } else if key.eq(&"spread_update".to_owned()) {
            self.spread_updates
        } else if key.eq(&"volume_update".to_owned()) {
            self.volume_updates
        } else if key.eq(&"crossing_detected".to_owned()) {
            self.crossings_detected
        } else if key.eq(&"liquidity_gap".to_owned()) {
            self.liquidity_gaps
        } else if key.eq(&"price_movement".to_owned()) {
            self.price_movements
        } else {
            0
        }
    }
}

impl Default for MetricsEventHandler {
    /// The same zeroed handler `new` builds.
    fn default() -> (r: MetricsEventHandler)
        ensures
            metrics_counts(r) == (0u64, 0u64, 0u64, 0u64, 0u64, 0u64, 0u64, 0u64),
    {
        MetricsEventHandler::new()
    }
}

impl OrderBookEventHandler for MetricsEventHandler {
    open spec fn absorbed(&self) -> Seq<OrderBookEvent> {
        self.history@
    }

    fn handle_event(&mut self, event: &OrderBookEvent) {
        self.record(event);
    }
}

/// Saturating counter increment.
fn bump(c: u64) -> (r: u64)
    ensures
        r == sat_inc(c),
{
    if c == u64::MAX {
        c
    } else {
        c + 1
    }
}

} // verus!
