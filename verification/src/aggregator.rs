//! Cross-venue aggregation of order books for one symbol.
//!
//! The aggregate holds at most one book per venue, exposes the best bid and
//! ask across venues (ties broken by the earliest-added venue, a fixed and
//! documented rule), the cross-venue spread (negative exactly when venues
//! cross each other), combined liquidity, and a merged price-sorted ladder.

use vstd::prelude::*;
use vstd::seq_lib::*;

use crate::book::{
    all_levels_valid, level_valid, min_int, pred_ask_liq, pred_bid_liq, spec_sum_qty,
    FastOrderBook, PriceLevel, MAX_UNIT_MANTISSA,
};
use crate::fixed::Decimal;
use crate::time::now_timestamp_ms;
use crate::types::{venue_eq, venue_key_eq, ArbFinderError, Side, Symbol, VenueId};

verus! {

/// Hard bound on the number of venues one aggregate may hold.
pub const MAX_VENUES: usize = 100_000;

/// One rung of the merged ladder: a venue's level annotated with its origin.
#[derive(Clone, Debug)]
pub struct AggregatedLevel {
    pub price: Decimal,
    pub quantity: Decimal,
    pub venue: VenueId,
    pub order_count: u32,
}

/// The book stored for a venue: the first entry with a matching key.
pub open spec fn spec_venue_book(
    s: Seq<(VenueId, FastOrderBook)>,
    v: VenueId,
) -> Option<FastOrderBook>
    decreases s.len(),
{
    if s.len() == 0 {
        None
    } else if venue_key_eq(s[0].0, v) {
        Some(s[0].1)
    } else {
        spec_venue_book(s.drop_first(), v)
    }
}

/// A candidate best quote: the venue and its best level.
pub open spec fn head_bid(e: (VenueId, FastOrderBook)) -> Option<(VenueId, PriceLevel)> {
    match FastOrderBook::spec_best(e.1.bids@) {
        Some(l) => Some((e.0, l)),
        None => None,
    }
}

/// A candidate best ask quote.
pub open spec fn head_ask(e: (VenueId, FastOrderBook)) -> Option<(VenueId, PriceLevel)> {
    match FastOrderBook::spec_best(e.1.asks@) {
        Some(l) => Some((e.0, l)),
        None => None,
    }
}

/// Of two bid candidates, the later one wins only with a strictly higher
/// price: ties keep the earlier venue.
pub open spec fn combine_bid(
    a: Option<(VenueId, PriceLevel)>,
    b: Option<(VenueId, PriceLevel)>,
) -> Option<(VenueId, PriceLevel)> {
    match (a, b) {
        (None, r) => r,
        (Some(c), None) => Some(c),
        (Some(c), Some(r)) => if r.1.price@ > c.1.price@ {
            Some(r)
        } else {
            Some(c)
        },
    }
}

/// Of two ask candidates, the later one wins only with a strictly lower
/// price: ties keep the earlier venue.
pub open spec fn combine_ask(
    a: Option<(VenueId, PriceLevel)>,
    b: Option<(VenueId, PriceLevel)>,
) -> Option<(VenueId, PriceLevel)> {
    match (a, b) {
        (None, r) => r,
        (Some(c), None) => Some(c),
        (Some(c), Some(r)) => if r.1.price@ < c.1.price@ {
            Some(r)
        } else {
            Some(c)
        },
    }
}

/// The best bid quote across the venues, earliest venue winning ties.
pub open spec fn spec_best_bid_across(s: Seq<(VenueId, FastOrderBook)>) -> Option<
    (VenueId, PriceLevel),
>
    decreases s.len(),
{
    if s.len() == 0 {
        None
    } else {
        combine_bid(head_bid(s[0]), spec_best_bid_across(s.drop_first()))
    }
}

/// The best ask quote across the venues, earliest venue winning ties.
pub open spec fn spec_best_ask_across(s: Seq<(VenueId, FastOrderBook)>) -> Option<
    (VenueId, PriceLevel),
>
    decreases s.len(),
{
    if s.len() == 0 {
        None
    } else {
        combine_ask(head_ask(s[0]), spec_best_ask_across(s.drop_first()))
    }
}

/// Preferring-earlier maximum selection is associative.
proof fn lemma_combine_bid_assoc(
    a: Option<(VenueId, PriceLevel)>,
    b: Option<(VenueId, PriceLevel)>,
    c: Option<(VenueId, PriceLevel)>,
)
    ensures
        combine_bid(combine_bid(a, b), c) == combine_bid(a, combine_bid(b, c)),
{
}

/// Preferring-earlier minimum selection is associative.
proof fn lemma_combine_ask_assoc(
    a: Option<(VenueId, PriceLevel)>,
    b: Option<(VenueId, PriceLevel)>,
    c: Option<(VenueId, PriceLevel)>,
)
    ensures
        combine_ask(combine_ask(a, b), c) == combine_ask(a, combine_ask(b, c)),
{
}

/// A best quote selected across well-formed books is a valid level.
proof fn lemma_best_across_valid(s: Seq<(VenueId, FastOrderBook)>, is_bid: bool)
    requires
        forall|k: int| 0 <= k < s.len() ==> (#[trigger] s[k]).1.wf(),
    ensures
        is_bid ==> (match spec_best_bid_across(s) {
            Some(r) => level_valid(r.1),
            None => true,
        }),
        !is_bid ==> (match spec_best_ask_across(s) {
            Some(r) => level_valid(r.1),
            None => true,
        }),
    decreases s.len(),
{
    if s.len() > 0 {
        assert(forall|k: int|
            0 <= k < s.drop_first().len() ==> (#[trigger] s.drop_first()[k]).1.wf()) by {
            assert(forall|k: int|
                0 <= k < s.drop_first().len() ==> s.drop_first()[k] == s[k + 1]);
        }
        lemma_best_across_valid(s.drop_first(), is_bid);
        assert(s[0].1.wf());
        if s[0].1.bids@.len() > 0 {
            assert(level_valid(s[0].1.bids@[0]));
        }
        if s[0].1.asks@.len() > 0 {
            assert(level_valid(s[0].1.asks@[0]));
        }
    }
}

/// Liquidity at or better than a price, summed over every venue.
pub open spec fn spec_total_liq(s: Seq<(VenueId, FastOrderBook)>, p: int, is_bid: bool) -> int
    decreases s.len(),
{
    if s.len() == 0 {
        0
    } else {
        spec_side_liq(s[0].1, p, is_bid) + spec_total_liq(s.drop_first(), p, is_bid)
    }
}

/// One book's liquidity at or better than a price.
pub open spec fn spec_side_liq(b: FastOrderBook, p: int, is_bid: bool) -> int {
    if is_bid {
        spec_sum_qty(b.bids@.filter(pred_bid_liq(p)))
    } else {
        spec_sum_qty(b.asks@.filter(pred_ask_liq(p)))
    }
}

/// One book's threshold liquidity lies within the book-wide volume bound.
proof fn lemma_side_liq_bounds(b: FastOrderBook, p: int, is_bid: bool)
    requires
        b.wf(),
    ensures
        0 <= spec_side_liq(b, p, is_bid) <= 1_000_000 * (MAX_UNIT_MANTISSA as int),
{
    if is_bid {
        let f = b.bids@.filter(pred_bid_liq(p));
        crate::book::lemma_filter_preserves_sorted(b.bids@, pred_bid_liq(p), true);
        b.bids@.lemma_filter_len(pred_bid_liq(p));
        assert(all_levels_valid(f)) by {
            assert forall|i: int| 0 <= i < f.len() implies level_valid(#[trigger] f[i]) by {
                assert(f.contains(f[i]));
                let k = choose|k: int| 0 <= k < b.bids@.len() && b.bids@[k] == f[i];
            }
        }
        crate::book::lemma_sum_qty_bounds(f);
    } else {
        let f = b.asks@.filter(pred_ask_liq(p));
        crate::book::lemma_filter_preserves_sorted(b.asks@, pred_ask_liq(p), false);
        b.asks@.lemma_filter_len(pred_ask_liq(p));
        assert(all_levels_valid(f)) by {
            assert forall|i: int| 0 <= i < f.len() implies level_valid(#[trigger] f[i]) by {
                assert(f.contains(f[i]));
                let k = choose|k: int| 0 <= k < b.asks@.len() && b.asks@[k] == f[i];
            }
        }
        crate::book::lemma_sum_qty_bounds(f);
    }
}

/// A venue's top-of-window levels annotated with their origin.
pub open spec fn spec_annotate(v: VenueId, levels: Seq<PriceLevel>) -> Seq<AggregatedLevel> {
    levels.map_values(
        |l: PriceLevel| AggregatedLevel {
            price: l.price,
            quantity: l.quantity,
            venue: v,
            order_count: l.order_count,
        },
    )
}

/// The unsorted merged ladder of one side: each venue's top `depth` levels.
pub open spec fn spec_collect(
    s: Seq<(VenueId, FastOrderBook)>,
    depth: int,
    is_bid: bool,
) -> Seq<AggregatedLevel>
    decreases s.len(),
{
    if s.len() == 0 {
        Seq::empty()
    } else {
        let side = if is_bid {
            s[0].1.bids@
        } else {
            s[0].1.asks@
        };
        spec_annotate(s[0].0, side.take(min_int(depth, side.len() as int))) + spec_collect(
            s.drop_first(),
            depth,
            is_bid,
        )
    }
}

/// Descending ladder order (equal prices allowed).
pub open spec fn ladder_sorted_desc(s: Seq<AggregatedLevel>) -> bool {
    forall|i: int, j: int|
        #![trigger s[i], s[j]]
        0 <= i < j < s.len() ==> s[i].price@ >= s[j].price@
}

/// Ascending ladder order (equal prices allowed).
pub open spec fn ladder_sorted_asc(s: Seq<AggregatedLevel>) -> bool {
    forall|i: int, j: int|
        #![trigger s[i], s[j]]
        0 <= i < j < s.len() ==> s[i].price@ <= s[j].price@
}

/// Inserts one rung into a price-sorted ladder, keeping it sorted and adding
/// exactly that rung.
fn ladder_insert(out: &mut Vec<AggregatedLevel>, x: AggregatedLevel, desc: bool)
    requires
        desc ==> ladder_sorted_desc(old(out)@),
        !desc ==> ladder_sorted_asc(old(out)@),
    ensures
        desc ==> ladder_sorted_desc(final(out)@),
        !desc ==> ladder_sorted_asc(final(out)@),
        final(out)@.to_multiset() == old(out)@.to_multiset().insert(x),
        final(out)@.len() == old(out)@.len() + 1,
{
    let ghost xp = x.price@;
    let n: usize = out.len();
    let mut i: usize = 0;
    loop
        invariant
            i <= n == out.len(),
            xp == x.price@,
            desc ==> ladder_sorted_desc(out@),
            !desc ==> ladder_sorted_asc(out@),
            *out == *old(out),
            forall|k: int|
                0 <= k < i ==> (if desc {
                    (#[trigger] out@[k]).price@ >= xp
                } else {
                    out@[k].price@ <= xp
                }),
        ensures
            i <= n,
            *out == *old(out),
            forall|k: int|
                0 <= k < i ==> (if desc {
                    (#[trigger] out@[k]).price@ >= xp
                } else {
                    out@[k].price@ <= xp
                }),
            i < n ==> (if desc {
                out@[i as int].price@ < xp
            } else {
                out@[i as int].price@ > xp
            }),
        decreases n - i,
    {
        if i == n {
            break ;
        }
        let keep_scanning: bool = if desc {
            out[i].price.ge(x.price)
        } else {
            out[i].price.le(x.price)
        };
        if !keep_scanning {
            break ;
        }
        i = i + 1;
    }
    let ghost before = out@;
    out.insert(i, x);
    proof {
        broadcast use vstd::seq_lib::to_multiset_insert;

        assert(out@ == before.insert(i as int, x));
        assert forall|p: int, q: int|
            #![trigger out@[p], out@[q]]
            0 <= p < q < out@.len() implies (if desc {
            out@[p].price@ >= out@[q].price@
        } else {
            out@[p].price@ <= out@[q].price@
        }) by {
            if p < i && q < i {
                assert(out@[p] == before[p] && out@[q] == before[q]);
            } else if p < i && q == i {
                assert(out@[p] == before[p]);
            } else if p < i && q > i {
                assert(out@[p] == before[p] && out@[q] == before[q - 1]);
            } else if p == i && q > i {
                assert(out@[q] == before[q - 1]);
                if q - 1 > i - 1 {
                }
            } else {
                assert(out@[p] == before[p - 1] && out@[q] == before[q - 1]);
            }
        }
    }
}

/// Sorts a ladder by price, descending or ascending, preserving its rungs.
fn sort_ladder(v: Vec<AggregatedLevel>, desc: bool) -> (r: Vec<AggregatedLevel>)
    ensures
        desc ==> ladder_sorted_desc(r@),
        !desc ==> ladder_sorted_asc(r@),
        r@.to_multiset() == v@.to_multiset(),
        r@.len() == v@.len(),
{
    let mut out: Vec<AggregatedLevel> = Vec::new();
    let mut i: usize = 0;
    proof {
        broadcast use vstd::seq_lib::group_to_multiset_ensures;

        assert(v@.take(0) =~= Seq::<AggregatedLevel>::empty());
        assert(out@.to_multiset() =~= v@.take(0).to_multiset());
    }
    while i < v.len()
        invariant
            i <= v.len(),
            desc ==> ladder_sorted_desc(out@),
            !desc ==> ladder_sorted_asc(out@),
            out@.to_multiset() == v@.take(i as int).to_multiset(),
            out@.len() == i,
        decreases v.len() - i,
    {
        let x = aggregated_level_clone(&v[i]);
        proof {
            broadcast use vstd::seq_lib::group_to_multiset_ensures;

            assert(v@.take(i + 1 as int) =~= v@.take(i as int).push(v@[i as int]));
        }
        ladder_insert(&mut out, x, desc);
        i = i + 1;
    }
    proof {
        assert(v@.take(v@.len() as int) =~= v@);
    }
    out
}

/// An exact copy of a ladder rung.
fn aggregated_level_clone(l: &AggregatedLevel) -> (r: AggregatedLevel)
    ensures
        r == *l,
{
    AggregatedLevel {
        price: l.price,
        quantity: l.quantity,
        venue: l.venue.clone(),
        order_count: l.order_count,
    }
}

/// Aggregated order book combining one symbol's books across venues.
#[derive(Debug)]
pub struct AggregatedOrderBook {
    /// The traded pair all member books quote.
    pub symbol: Symbol,
    /// The member books, keyed by venue; at most one book per venue.
    pub venues: Vec<(VenueId, FastOrderBook)>,
    /// Timestamp of the last aggregate mutation.
    pub last_update: u64,
}

impl AggregatedOrderBook {
    /// The aggregate's standing invariant: member books well-formed, venue
    /// keys pairwise distinct, member count bounded.
    pub open spec fn wf(&self) -> bool {
        &&& forall|k: int| 0 <= k < self.venues@.len() ==> (#[trigger] self.venues@[k]).1.wf()
        &&& forall|i: int, j: int|
            #![trigger self.venues@[i], self.venues@[j]]
            0 <= i < j < self.venues@.len() ==> !venue_key_eq(
                self.venues@[i].0,
                self.venues@[j].0,
            )
        &&& self.venues@.len() <= MAX_VENUES
    }

    /// An empty aggregate for one symbol.
    pub fn new(symbol: Symbol) -> (r: AggregatedOrderBook)
        ensures
            r.wf(),
            r.symbol == symbol,
            r.venues@.len() == 0,
    {
        AggregatedOrderBook { symbol, venues: Vec::new(), last_update: now_timestamp_ms() }
    }

    /// Number of member venues.
    pub fn venue_count(&self) -> (r: usize)
        ensures
            r == self.venues@.len(),
    {
        self.venues.len()
    }

    /// True exactly when no member venue quotes anything.
    pub fn is_empty(&self) -> (r: bool)
        ensures
            r == (self.venues@.len() == 0 || (forall|k: int|
                0 <= k < self.venues@.len() ==> ((#[trigger] self.venues@[k]).1.bids@.len() == 0
                    && self.venues@[k].1.asks@.len() == 0))),
    {
        let mut i: usize = 0;
        while i < self.venues.len()
            invariant
                i <= self.venues@.len(),
                forall|k: int|
                    0 <= k < i ==> ((#[trigger] self.venues@[k]).1.bids@.len() == 0
                        && self.venues@[k].1.asks@.len() == 0),
            decreases self.venues.len() - i,
        {
            if !self.venues[i].1.is_empty() {
                return false;
            }
            i = i + 1;
        }
        true
    }

    /// Installs (or replaces) one venue's book. Rejected only when a new
    /// venue would exceed the member bound; the aggregate is then unchanged.
    pub fn add_venue(&mut self, venue_id: VenueId, orderbook: FastOrderBook) -> (r: Result<
        (),
        ArbFinderError,
    >)
        requires
            old(self).wf(),
            orderbook.wf(),
        ensures
            final(self).wf(),
            r is Ok <==> (spec_venue_book(old(self).venues@, venue_id) is Some || old(
                self,
            ).venues@.len() < MAX_VENUES),
            r is Err ==> *final(self) == *old(self),
            r is Ok ==> spec_venue_book(final(self).venues@, venue_id) == Some(orderbook),
            r is Ok ==> forall|w: VenueId|
                !venue_key_eq(venue_id, w) ==> spec_venue_book(final(self).venues@, w)
                    == spec_venue_book(old(self).venues@, w),
            r is Ok ==> final(self).symbol == old(self).symbol,
            r is Ok ==> final(self).venues@.len() == (if spec_venue_book(
                old(self).venues@,
                venue_id,
            ) is Some {
                old(self).venues@.len() as int
            } else {
                (old(self).venues@.len() + 1) as int
            }),
    {
        let ghost vs0 = self.venues@;
        let mut i: usize = 0;
        while i < self.venues.len()
            invariant
                i <= self.venues@.len(),
                *self == *old(self),
                old(self).wf(),
                orderbook.wf(),
                self.venues@ == vs0,
                forall|k: int| 0 <= k < i ==> !venue_key_eq((#[trigger] vs0[k]).0, venue_id),
            decreases self.venues.len() - i,
        {
            if venue_eq(&self.venues[i].0, &venue_id) {
                let ghost hit = i as int;
                self.venues.set(i, (venue_id, orderbook));
                self.last_update = now_timestamp_ms();
                proof {
                    lemma_venue_book_update(vs0, hit, venue_id, orderbook);
                    assert(spec_venue_book(vs0, venue_id) is Some) by {
                        lemma_venue_book_found(vs0, hit, venue_id);
                    }
                    assert forall|p: int, q: int|
                        #![trigger final(self).venues@[p], final(self).venues@[q]]
                        0 <= p < q < final(self).venues@.len() implies !venue_key_eq(
                        final(self).venues@[p].0,
                        final(self).venues@[q].0,
                    ) by {
                        if p != hit && q != hit {
                            assert(final(self).venues@[p] == vs0[p] && final(self).venues@[q]
                                == vs0[q]);
                        } else if p == hit {
                            assert(final(self).venues@[q] == vs0[q]);
                            assert(!venue_key_eq(vs0[hit].0, vs0[q].0));
                            crate::types::lemma_venue_key_eq_refl(venue_id);
                            if venue_key_eq(venue_id, vs0[q].0) {
                                assert(venue_key_eq(vs0[hit].0, venue_id));
                                assert(venue_key_eq(vs0[hit].0, vs0[q].0));
                            }
                        } else {
                            assert(final(self).venues@[p] == vs0[p]);
                            if venue_key_eq(vs0[p].0, venue_id) {
                            }
                        }
                    }
                }
                return Ok(());
            }
            i = i + 1;
        }
        proof {
            lemma_venue_book_none(vs0, venue_id);
        }
        if self.venues.len() >= MAX_VENUES {
            return Err(ArbFinderError::Internal("Venue capacity reached".to_owned()));
        }
        self.venues.push((venue_id, orderbook));
        self.last_update = now_timestamp_ms();
        proof {
            lemma_venue_book_append(vs0, venue_id, orderbook);
            assert(spec_venue_book(vs0, venue_id) is None) by {
                lemma_venue_book_none(vs0, venue_id);
            }
            assert forall|p: int, q: int|
                #![trigger final(self).venues@[p], final(self).venues@[q]]
                0 <= p < q < final(self).venues@.len() implies !venue_key_eq(
                final(self).venues@[p].0,
                final(self).venues@[q].0,
            ) by {
                if q < vs0.len() {
                    assert(final(self).venues@[p] == vs0[p] && final(self).venues@[q] == vs0[q]);
                } else {
                    assert(final(self).venues@[p] == vs0[p]);
                    assert(final(self).venues@[q].0 == venue_id);
                    crate::types::lemma_venue_key_eq_refl(venue_id);
                    if venue_key_eq(vs0[p].0, venue_id) {
                    }
                }
            }
        }
        Ok(())
    }

    /// Removes one venue's book and hands it back, if present.
    pub fn remove_venue(&mut self, venue_id: &VenueId) -> (r: Option<FastOrderBook>)
        requires
            old(self).wf(),
        ensures
            final(self).wf(),
            r == spec_venue_book(old(self).venues@, *venue_id),
            spec_venue_book(final(self).venues@, *venue_id) is None,
            forall|w: VenueId|
                !venue_key_eq(*venue_id, w) ==> spec_venue_book(final(self).venues@, w)
                    == spec_venue_book(old(self).venues@, w),
            final(self).symbol == old(self).symbol,
    {
        let ghost vs0 = self.venues@;
        let mut i: usize = 0;
        while i < self.venues.len()
            invariant
                i <= self.venues@.len(),
                *self == *old(self),
                old(self).wf(),
                self.venues@ == vs0,
                forall|k: int| 0 <= k < i ==> !venue_key_eq((#[trigger] vs0[k]).0, *venue_id),
            decreases self.venues.len() - i,
        {
            if venue_eq(&self.venues[i].0, venue_id) {
                let ghost hit = i as int;
                let entry = self.venues.remove(i);
                self.last_update = now_timestamp_ms();
                proof {
                    lemma_venue_book_remove(vs0, hit, *venue_id);
                    lemma_venue_book_found(vs0, hit, *venue_id);
                    assert(final(self).venues@ == vs0.remove(hit));
                    assert forall|p: int, q: int|
                        #![trigger final(self).venues@[p], final(self).venues@[q]]
                        0 <= p < q < final(self).venues@.len() implies !venue_key_eq(
                        final(self).venues@[p].0,
                        final(self).venues@[q].0,
                    ) by {
                        let p0 = if p < hit {
                            p
                        } else {
                            p + 1
                        };
                        let q0 = if q < hit {
                            q
                        } else {
                            q + 1
                        };
                        assert(final(self).venues@[p] == vs0[p0] && final(self).venues@[q]
                            == vs0[q0]);
                    }
                    assert forall|k: int|
                        0 <= k < final(self).venues@.len() implies (#[trigger] final(self).venues@[k]).1.wf() by {
                        let k0 = if k < hit {
                            k
                        } else {
                            k + 1
                        };
                        assert(final(self).venues@[k] == vs0[k0]);
                    }
                }
                return Some(entry.1);
            }
            i = i + 1;
        }
        self.last_update = now_timestamp_ms();
        proof {
            lemma_venue_book_none(vs0, *venue_id);
        }
        None
    }

    /// A read handle to one venue's book, if present.
    pub fn get_venue_book(&self, venue_id: &VenueId) -> (r: Option<&FastOrderBook>)
        ensures
            match r {
                Some(b) => spec_venue_book(self.venues@, *venue_id) == Some(*b),
                None => spec_venue_book(self.venues@, *venue_id) is None,
            },
    {
        let mut i: usize = 0;
        proof {
            assert(self.venues@.skip(0) =~= self.venues@);
        }
        while i < self.venues.len()
            invariant
                i <= self.venues@.len(),
                spec_venue_book(self.venues@.skip(i as int), *venue_id) == spec_venue_book(
                    self.venues@,
                    *venue_id,
                ),
            decreases self.venues.len() - i,
        {
            proof {
                assert(self.venues@.skip(i as int)[0] == self.venues@[i as int]);
                assert(self.venues@.skip(i as int).drop_first() =~= self.venues@.skip(i + 1 as int));
            }
            if venue_eq(&self.venues[i].0, venue_id) {
                return Some(&self.venues[i].1);
            }
            i = i + 1;
        }
        None
    }

    /// The best bid across the member venues, with its venue; ties go to the
    /// earliest-added venue.
    pub fn best_bid_across_venues(&self) -> (r: Option<(VenueId, PriceLevel)>)
        requires
            self.wf(),
        ensures
            r == spec_best_bid_across(self.venues@),
    {
        let mut acc: Option<(VenueId, PriceLevel)> = None;
        let mut i: usize = 0;
        proof {
            assert(self.venues@.skip(0) =~= self.venues@);
        }
        while i < self.venues.len()
            invariant
                i <= self.venues@.len(),
                combine_bid(acc, spec_best_bid_across(self.venues@.skip(i as int)))
                    == spec_best_bid_across(self.venues@),
            decreases self.venues.len() - i,
        {
            let ghost acc0 = acc;
            proof {
                assert(self.venues@.skip(i as int)[0] == self.venues@[i as int]);
                assert(self.venues@.skip(i as int).drop_first() =~= self.venues@.skip(i + 1 as int));
            }
            match self.venues[i].1.best_bid() {
                Some(l) => {
                    let lv: PriceLevel = *l;
                    let take_new: bool = match &acc {
                        None => true,
                        Some(c) => lv.price.gt(c.1.price),
                    };
                    if take_new {
                        acc = Some((self.venues[i].0.clone(), lv));
                    }
                },
                None => {},
            }
            proof {
                assert(acc == combine_bid(acc0, head_bid(self.venues@[i as int])));
                lemma_combine_bid_assoc(
                    acc0,
                    head_bid(self.venues@[i as int]),
                    spec_best_bid_across(self.venues@.skip(i + 1 as int)),
                );
            }
            i = i + 1;
        }
        proof {
            assert(spec_best_bid_across(self.venues@.skip(i as int)) is None);
        }
        acc
    }

    /// The best ask across the member venues, with its venue; ties go to the
    /// earliest-added venue.
    pub fn best_ask_across_venues(&self) -> (r: Option<(VenueId, PriceLevel)>)
        requires
            self.wf(),
        ensures
            r == spec_best_ask_across(self.venues@),
    {
        let mut acc: Option<(VenueId, PriceLevel)> = None;
        let mut i: usize = 0;
        proof {
            assert(self.venues@.skip(0) =~= self.venues@);
        }
        while i < self.venues.len()
            invariant
                i <= self.venues@.len(),
                combine_ask(acc, spec_best_ask_across(self.venues@.skip(i as int)))
                    == spec_best_ask_across(self.venues@),
            decreases self.venues.len() - i,
        {
            let ghost acc0 = acc;
            proof {
                assert(self.venues@.skip(i as int)[0] == self.venues@[i as int]);
                assert(self.venues@.skip(i as int).drop_first() =~= self.venues@.skip(i + 1 as int));
            }
            match self.venues[i].1.best_ask() {
                Some(l) => {
                    let lv: PriceLevel = *l;
                    let take_new: bool = match &acc {
                        None => true,
                        Some(c) => lv.price.lt(c.1.price),
                    };
                    if take_new {
                        acc = Some((self.venues[i].0.clone(), lv));
                    }
                },
                None => {},
            }
            proof {
                assert(acc == combine_ask(acc0, head_ask(self.venues@[i as int])));
                lemma_combine_ask_assoc(
                    acc0,
                    head_ask(self.venues@[i as int]),
                    spec_best_ask_across(self.venues@.skip(i + 1 as int)),
                );
            }
            i = i + 1;
        }
        proof {
            assert(spec_best_ask_across(self.venues@.skip(i as int)) is None);
        }
        acc
    }

    /// Best cross-venue ask minus best cross-venue bid; negative exactly when
    /// venues cross each other. `None` unless both sides quote somewhere.
    pub fn cross_venue_spread(&self) -> (r: Option<Decimal>)
        requires
            self.wf(),
        ensures
            match (spec_best_bid_across(self.venues@), spec_best_ask_across(self.venues@)) {
                (Some(bb), Some(ba)) => r matches Some(d) && d@ == ba.1.price@ - bb.1.price@,
                _ => r is None,
            },
    {
        let bb = self.best_bid_across_venues();
        let ba = self.best_ask_across_venues();
        proof {
            lemma_best_across_valid(self.venues@, true);
            lemma_best_across_valid(self.venues@, false);
        }
        match (bb, ba) {
            (Some(b), Some(a)) => Some(a.1.price.sub(b.1.price)),
            _ => None,
        }
    }

    /// Quantity resting at or better than `price` across every member venue.
    pub fn total_liquidity_at_price(&self, price: Decimal, is_bid: bool) -> (r: Decimal)
        requires
            self.wf(),
        ensures
            r@ == spec_total_liq(self.venues@, price@, is_bid),
    {
        let mut acc: Decimal = Decimal::zero();
        let mut i: usize = 0;
        proof {
            assert(self.venues@.skip(0) =~= self.venues@);
        }
        while i < self.venues.len()
            invariant
                i <= self.venues@.len(),
                self.wf(),
                0 <= acc@ <= i * 1_000_000 * (MAX_UNIT_MANTISSA as int),
                acc@ + spec_total_liq(self.venues@.skip(i as int), price@, is_bid)
                    == spec_total_liq(self.venues@, price@, is_bid),
            decreases self.venues.len() - i,
        {
            proof {
                assert(self.venues@.skip(i as int)[0] == self.venues@[i as int]);
                assert(self.venues@.skip(i as int).drop_first() =~= self.venues@.skip(i + 1 as int));
                assert(self.venues@[i as int].1.wf());
                lemma_side_liq_bounds(self.venues@[i as int].1, price@, is_bid);
            }
            let side = if is_bid {
                Side::Bid
            } else {
                Side::Ask
            };
            let liq = self.venues[i].1.get_liquidity_at_price(side, price);
            acc = acc.add(liq);
            i = i + 1;
        }
        proof {
            assert(spec_total_liq(self.venues@.skip(i as int), price@, is_bid) == 0);
        }
        acc
    }

    /// The combined ladder: each venue's top `depth` levels of both sides,
    /// merged and price-sorted (bids descending, asks ascending), each rung
    /// annotated with its venue.
    pub fn aggregate_depth(&self, depth: usize) -> (r: (
        Vec<AggregatedLevel>,
        Vec<AggregatedLevel>,
    ))
        requires
            self.wf(),
        ensures
            ladder_sorted_desc(r.0@),
            ladder_sorted_asc(r.1@),
            r.0@.to_multiset() == spec_collect(self.venues@, depth as int, true).to_multiset(),
            r.1@.to_multiset() == spec_collect(self.venues@, depth as int, false).to_multiset(),
    {
        let all_bids = self.collect_side(depth, true);
        let all_asks = self.collect_side(depth, false);
        (sort_ladder(all_bids, true), sort_ladder(all_asks, false))
    }

    /// Collects one side's unsorted merged ladder.
    fn collect_side(&self, depth: usize, is_bid: bool) -> (r: Vec<AggregatedLevel>)
        requires
            self.wf(),
        ensures
            r@ == spec_collect(self.venues@, depth as int, is_bid),
    {
        let mut out: Vec<AggregatedLevel> = Vec::new();
        let mut i: usize = 0;
        proof {
            assert(self.venues@.skip(0) =~= self.venues@);
            assert(out@ + spec_collect(self.venues@.skip(0), depth as int, is_bid) =~= spec_collect(
                self.venues@,
                depth as int,
                is_bid,
            ));
        }
        while i < self.venues.len()
            invariant
                i <= self.venues@.len(),
                self.wf(),
                out@ + spec_collect(self.venues@.skip(i as int), depth as int, is_bid)
                    == spec_collect(self.venues@, depth as int, is_bid),
            decreases self.venues.len() - i,
        {
            let ghost out0 = out@;
            proof {
                assert(self.venues@.skip(i as int)[0] == self.venues@[i as int]);
                assert(self.venues@.skip(i as int).drop_first() =~= self.venues@.skip(i + 1 as int));
            }
            let levels = self.venues[i].1.get_depth(
                if is_bid {
                    Side::Bid
                } else {
                    Side::Ask
                },
                depth,
            );
            let mut k: usize = 0;
            proof {
                let ghost ann = spec_annotate(self.venues@[i as int].0, levels@);
                assert(out@ =~= out0 + ann.take(0));
            }
            while k < levels.len()
                invariant
                    k <= levels@.len(),
                    i < self.venues@.len(),
                    out@ == out0 + spec_annotate(self.venues@[i as int].0, levels@).take(k as int),
                decreases levels.len() - k,
            {
                out.push(
                    AggregatedLevel {
                        price: levels[k].price,
                        quantity: levels[k].quantity,
                        venue: self.venues[i].0.clone(),
                        order_count: levels[k].order_count,
                    },
                );
                proof {
                    let ann = spec_annotate(self.venues@[i as int].0, levels@);
                    assert(out@ =~= out0 + ann.take(k + 1 as int));
                }
                k = k + 1;
            }
            proof {
                let ann = spec_annotate(self.venues@[i as int].0, levels@);
                assert(ann.take(ann.len() as int) =~= ann);
                let side = if is_bid {
                    self.venues@[i as int].1.bids@
                } else {
                    self.venues@[i as int].1.asks@
                };
                assert(levels@ == side.take(min_int(depth as int, side.len() as int)));
                assert((out0 + ann) + spec_collect(
                    self.venues@.skip(i + 1 as int),
                    depth as int,
                    is_bid,
                ) =~= out0 + (ann + spec_collect(
                    self.venues@.skip(i + 1 as int),
                    depth as int,
                    is_bid,
                )));
            }
            i = i + 1;
        }
        proof {
            assert(spec_collect(self.venues@.skip(i as int), depth as int, is_bid) =~= Seq::<
                AggregatedLevel,
            >::empty());
            assert(out@ + spec_collect(self.venues@.skip(i as int), depth as int, is_bid)
                =~= out@);
        }
        out
    }

    /// True exactly when some member book is itself crossed.
    pub fn has_crossed_venues(&self) -> (r: bool)
        ensures
            r == (exists|k: int|
                0 <= k < self.venues@.len() && {
                    let b = (#[trigger] self.venues@[k]).1;
                    b.bids@.len() > 0 && b.asks@.len() > 0 && b.bids@[0].price@
                        >= b.asks@[0].price@
                }),
    {
        let mut i: usize = 0;
        while i < self.venues.len()
            invariant
                i <= self.venues@.len(),
                forall|k: int|
                    0 <= k < i ==> !{
                        let b = (#[trigger] self.venues@[k]).1;
                        b.bids@.len() > 0 && b.asks@.len() > 0 && b.bids@[0].price@
                            >= b.asks@[0].price@
                    },
            decreases self.venues.len() - i,
        {
            if self.venues[i].1.is_crossed() {
                return true;
            }
            i = i + 1;
        }
        false
    }
}

/// A match at a scanned index means the lookup finds something.
proof fn lemma_venue_book_found(s: Seq<(VenueId, FastOrderBook)>, i: int, v: VenueId)
    requires
        0 <= i < s.len(),
        venue_key_eq(s[i].0, v),
        forall|k: int| 0 <= k < i ==> !venue_key_eq((#[trigger] s[k]).0, v),
    ensures
        spec_venue_book(s, v) == Some(s[i].1),
    decreases i,
{
    if i == 0 {
    } else {
        assert(forall|k: int|
            0 <= k < i - 1 ==> !venue_key_eq((#[trigger] s.drop_first()[k]).0, v)) by {
            assert(forall|k: int| 0 <= k < s.drop_first().len() ==> s.drop_first()[k] == s[k + 1]);
        }
        assert(s.drop_first()[i - 1] == s[i]);
        lemma_venue_book_found(s.drop_first(), i - 1, v);
    }
}

/// No match anywhere means the lookup finds nothing.
proof fn lemma_venue_book_none(s: Seq<(VenueId, FastOrderBook)>, v: VenueId)
    requires
        forall|k: int| 0 <= k < s.len() ==> !venue_key_eq((#[trigger] s[k]).0, v),
    ensures
        spec_venue_book(s, v) is None,
    decreases s.len(),
{
    if s.len() > 0 {
        assert(forall|k: int|
            0 <= k < s.drop_first().len() ==> !venue_key_eq((#[trigger] s.drop_first()[k]).0, v))
            by {
            assert(forall|k: int| 0 <= k < s.drop_first().len() ==> s.drop_first()[k] == s[k + 1]);
        }
        lemma_venue_book_none(s.drop_first(), v);
    }
}

/// Overwriting the first matching entry rebinds that venue and no other.
proof fn lemma_venue_book_update(
    s: Seq<(VenueId, FastOrderBook)>,
    i: int,
    v: VenueId,
    b: FastOrderBook,
)
    requires
        0 <= i < s.len(),
        venue_key_eq(s[i].0, v),
        forall|k: int| 0 <= k < i ==> !venue_key_eq((#[trigger] s[k]).0, v),
    ensures
        spec_venue_book(s.update(i, (v, b)), v) == Some(b),
        forall|w: VenueId|
            !venue_key_eq(v, w) ==> spec_venue_book(s.update(i, (v, b)), w) == spec_venue_book(
                s,
                w,
            ),
    decreases i,
{
    let upd = s.update(i, (v, b));
    if i == 0 {
        crate::types::lemma_venue_key_eq_refl(v);
        assert forall|w: VenueId| !venue_key_eq(v, w) implies spec_venue_book(upd, w)
            == spec_venue_book(s, w) by {
            if venue_key_eq(s[0].0, w) && !venue_key_eq(upd[0].0, w) {
                assert(venue_key_eq(s[0].0, v));
            }
            if venue_key_eq(upd[0].0, w) {
                assert(venue_key_eq(v, w));
            }
            assert(upd.drop_first() =~= s.drop_first());
        }
    } else {
        assert(upd.drop_first() =~= s.drop_first().update(i - 1, (v, b)));
        assert(forall|k: int|
            0 <= k < i - 1 ==> !venue_key_eq((#[trigger] s.drop_first()[k]).0, v)) by {
            assert(forall|k: int| 0 <= k < s.drop_first().len() ==> s.drop_first()[k] == s[k + 1]);
        }
        assert(s.drop_first()[i - 1] == s[i]);
        lemma_venue_book_update(s.drop_first(), i - 1, v, b);
        assert(!venue_key_eq(upd[0].0, v));
    }
}

/// Appending an entry for an unbound venue binds it and no other.
proof fn lemma_venue_book_append(s: Seq<(VenueId, FastOrderBook)>, v: VenueId, b: FastOrderBook)
    requires
        forall|k: int| 0 <= k < s.len() ==> !venue_key_eq((#[trigger] s[k]).0, v),
    ensures
        spec_venue_book(s.push((v, b)), v) == Some(b),
        forall|w: VenueId|
            !venue_key_eq(v, w) ==> spec_venue_book(s.push((v, b)), w) == spec_venue_book(s, w),
    decreases s.len(),
{
    let ext = s.push((v, b));
    assert(ext[s.len() as int] == (v, b));
    if s.len() == 0 {
        crate::types::lemma_venue_key_eq_refl(v);
        assert forall|w: VenueId| !venue_key_eq(v, w) implies spec_venue_book(ext, w)
            == spec_venue_book(s, w) by {
            assert(ext.drop_first() =~= Seq::<(VenueId, FastOrderBook)>::empty());
            assert(spec_venue_book(ext.drop_first(), w) is None);
        }
    } else {
        assert(ext.drop_first() =~= s.drop_first().push((v, b)));
        assert(forall|k: int|
            0 <= k < s.drop_first().len() ==> !venue_key_eq((#[trigger] s.drop_first()[k]).0, v))
            by {
            assert(forall|k: int| 0 <= k < s.drop_first().len() ==> s.drop_first()[k] == s[k + 1]);
        }
        lemma_venue_book_append(s.drop_first(), v, b);
        assert(!venue_key_eq(ext[0].0, v));
    }
}

/// Removing the first matching entry unbinds that venue and no other
/// (assuming, as the aggregate's invariant gives, that keys are unique).
proof fn lemma_venue_book_remove(s: Seq<(VenueId, FastOrderBook)>, i: int, v: VenueId)
    requires
        0 <= i < s.len(),
        venue_key_eq(s[i].0, v),
        forall|k: int| 0 <= k < i ==> !venue_key_eq((#[trigger] s[k]).0, v),
        forall|p: int, q: int|
            #![trigger s[p], s[q]]
            0 <= p < q < s.len() ==> !venue_key_eq(s[p].0, s[q].0),
    ensures
        spec_venue_book(s.remove(i), v) is None,
        forall|w: VenueId|
            !venue_key_eq(v, w) ==> spec_venue_book(s.remove(i), w) == spec_venue_book(s, w),
    decreases i,
{
    let rem = s.remove(i);
    if i == 0 {
        assert(rem =~= s.drop_first());
        assert forall|k: int| 0 <= k < rem.len() implies !venue_key_eq(
            (#[trigger] rem[k]).0,
            v,
        ) by {
            assert(rem[k] == s[k + 1]);
            assert(!venue_key_eq(s[0].0, s[k + 1].0));
            if venue_key_eq(s[k + 1].0, v) {
                lemma_key_eq_chain(s[0].0, v, s[k + 1].0);
            }
        }
        lemma_venue_book_none(rem, v);
        assert forall|w: VenueId| !venue_key_eq(v, w) implies spec_venue_book(rem, w)
            == spec_venue_book(s, w) by {
            if venue_key_eq(s[0].0, w) {
                assert(venue_key_eq(s[0].0, v));
                lemma_key_eq_chain2(s[0].0, v, w);
            }
        }
    } else {
        assert(rem.drop_first() =~= s.drop_first().remove(i - 1));
        assert(rem[0] == s[0]);
        assert(forall|k: int|
            0 <= k < i - 1 ==> !venue_key_eq((#[trigger] s.drop_first()[k]).0, v)) by {
            assert(forall|k: int| 0 <= k < s.drop_first().len() ==> s.drop_first()[k] == s[k + 1]);
        }
        assert(s.drop_first()[i - 1] == s[i]);
        assert(forall|p: int, q: int|
            #![trigger s.drop_first()[p], s.drop_first()[q]]
            0 <= p < q < s.drop_first().len() ==> !venue_key_eq(
                s.drop_first()[p].0,
                s.drop_first()[q].0,
            )) by {
            assert(forall|k: int| 0 <= k < s.drop_first().len() ==> s.drop_first()[k] == s[k + 1]);
        }
        lemma_venue_book_remove(s.drop_first(), i - 1, v);
        assert(!venue_key_eq(rem[0].0, v));
    }
}

/// Key equality chains across a shared middle key.
proof fn lemma_key_eq_chain(a: VenueId, v: VenueId, c: VenueId)
    requires
        venue_key_eq(a, v),
        venue_key_eq(c, v),
    ensures
        venue_key_eq(a, c),
{
}

/// Key equality transfers along an equal key.
proof fn lemma_key_eq_chain2(a: VenueId, v: VenueId, w: VenueId)
    requires
        venue_key_eq(a, v),
        venue_key_eq(a, w),
    ensures
        venue_key_eq(v, w),
{
}

} // verus!
