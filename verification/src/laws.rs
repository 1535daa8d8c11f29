//! The library's stated laws: facts that relate several operations, proved
//! once and for all inputs from the operations' own contracts.

use vstd::prelude::*;

use crate::arbitrage::{spec_check_direction, CrossExchangeArbitrageDetector};
use crate::book::{
    lemma_filter_is_prefix, lemma_remove_props, pred_after, pred_before, ranks_before,
    side_sorted, spec_apply_levels, spec_book_checksum, spec_replace_side, spec_trim,
    spec_update_one, spec_upsert, wrap_inc, FastOrderBook, PriceLevel,
};
use crate::fixed::{scaled_div, trunc_div};
use crate::types::VenueId;

verus! {

/// Deletion is absolute: after an update with quantity zero at a price, no
/// level at that price rests on the side, so neither best quote can quote
/// it, whatever updates came before.
pub proof fn lemma_deletion_absolute(s: Seq<PriceLevel>, l: PriceLevel, is_bid: bool, depth: int)
    requires
        side_sorted(s, is_bid),
        l.quantity@ == 0,
    ensures
        forall|x: PriceLevel|
            #[trigger] spec_update_one(s, l, is_bid, depth).contains(x) ==> x.price@ != l.price@,
        match FastOrderBook::spec_best(spec_update_one(s, l, is_bid, depth)) {
            Some(b) => b.price@ != l.price@,
            None => true,
        },
{
    lemma_remove_props(s, l.price@, is_bid);
    let r = spec_update_one(s, l, is_bid, depth);
    if r.len() > 0 {
        assert(r.contains(r[0]));
    }
}

/// The midpoint lies between the best bid and the best ask exactly as long
/// as the book is not crossed; in a strictly crossed book (best bid above
/// best ask) the ordering is violated. A book whose best bid equals its best
/// ask is crossed yet the ordering degenerately holds; that boundary input
/// is excluded from the second claim.
pub proof fn lemma_mid_between(bid: int, ask: int)
    requires
        0 < bid,
        0 < ask,
    ensures
        bid <= ask ==> bid <= trunc_div(bid + ask, 2) <= ask,
        bid > ask ==> !(bid <= trunc_div(bid + ask, 2) && trunc_div(bid + ask, 2) <= ask),
{
    let m = trunc_div(bid + ask, 2);
    assert(m == (bid + ask) / 2);
    if bid <= ask {
        assert(bid <= (bid + ask) / 2 <= ask) by (nonlinear_arith)
            requires
                0 < bid <= ask,
        ;
    } else {
        assert((bid + ask) / 2 < bid) by (nonlinear_arith)
            requires
                0 < ask < bid,
        ;
    }
}

/// Installing the same snapshot twice yields the same book state: the sides
/// a snapshot application produces depend only on the snapshot's levels and
/// the book's retained depth, and the checksum only on the sides — while the
/// sequence counter still advances, so the re-applied book's counter never
/// equals the first application's.
pub proof fn lemma_snapshot_idempotent(
    bids: Seq<PriceLevel>,
    asks: Seq<PriceLevel>,
    depth: int,
    b1: FastOrderBook,
    b2: FastOrderBook,
)
    requires
        b1.bids@ == spec_trim(spec_replace_side(bids, true), depth),
        b1.asks@ == spec_trim(spec_replace_side(asks, false), depth),
        b2.bids@ == spec_trim(spec_replace_side(bids, true), depth),
        b2.asks@ == spec_trim(spec_replace_side(asks, false), depth),
        b2.sequence == wrap_inc(wrap_inc(b1.sequence)),
    ensures
        b1.bids@ == b2.bids@,
        b1.asks@ == b2.asks@,
        spec_book_checksum(b1.bids@, b1.asks@) == spec_book_checksum(b2.bids@, b2.asks@),
        b2.sequence != b1.sequence,
{
    lemma_sequence_still_advances(b1.sequence);
}

/// Two wrapping increments never return a counter to where it stood.
pub proof fn lemma_sequence_still_advances(s: u64)
    ensures
        wrap_inc(wrap_inc(s)) != s,
{
}

/// Inserting levels that all rank behind a sorted accumulator appends them.
proof fn lemma_apply_sorted(acc: Seq<PriceLevel>, rest: Seq<PriceLevel>, is_bid: bool)
    requires
        side_sorted(acc, is_bid),
        side_sorted(rest, is_bid),
        forall|i: int, j: int|
            #![trigger acc[i], rest[j]]
            0 <= i < acc.len() && 0 <= j < rest.len() ==> ranks_before(
                acc[i].price@,
                rest[j].price@,
                is_bid,
            ),
    ensures
        spec_apply_levels(acc, rest, is_bid) == acc + rest,
    decreases rest.len(),
{
    if rest.len() == 0 {
        assert(acc + rest =~= acc);
    } else {
        let l = rest[0];
        let p = l.price@;
        assert forall|k: int| 0 <= k < acc.len() implies pred_before(p, is_bid)(
            #[trigger] acc[k],
        ) by {
            assert(ranks_before(acc[k].price@, rest[0].price@, is_bid));
        }
        lemma_filter_is_prefix(acc, pred_before(p, is_bid), acc.len() as int);
        assert(acc.subrange(0, acc.len() as int) =~= acc);
        assert forall|k: int| 0 <= k < acc.len() implies !pred_after(p, is_bid)(
            #[trigger] acc[k],
        ) by {
            assert(ranks_before(acc[k].price@, rest[0].price@, is_bid));
        }
        lemma_filter_is_prefix(acc, pred_after(p, is_bid), 0);
        assert(acc.subrange(0, 0) =~= Seq::<PriceLevel>::empty());
        assert(spec_upsert(acc, l, is_bid) =~= acc.push(l));
        let acc2 = acc.push(l);
        let rest2 = rest.drop_first();
        assert(side_sorted(acc2, is_bid)) by {
            assert forall|i: int, j: int|
                #![trigger acc2[i], acc2[j]]
                0 <= i < j < acc2.len() implies ranks_before(
                acc2[i].price@,
                acc2[j].price@,
                is_bid,
            ) by {
                if j < acc2.len() - 1 {
                    assert(acc2[i] == acc[i] && acc2[j] == acc[j]);
                } else {
                    assert(acc2[j] == rest[0]);
                    if i < acc.len() {
                        assert(acc2[i] == acc[i]);
                        assert(ranks_before(acc[i].price@, rest[0].price@, is_bid));
                    }
                }
            }
        }
        assert(side_sorted(rest2, is_bid)) by {
            assert(forall|k: int| 0 <= k < rest2.len() ==> rest2[k] == rest[k + 1]);
        }
        assert forall|i: int, j: int|
            #![trigger acc2[i], rest2[j]]
            0 <= i < acc2.len() && 0 <= j < rest2.len() implies ranks_before(
            acc2[i].price@,
            rest2[j].price@,
            is_bid,
        ) by {
            assert(rest2[j] == rest[j + 1]);
            if i < acc.len() {
                assert(acc2[i] == acc[i]);
                assert(ranks_before(acc[i].price@, rest[j + 1].price@, is_bid));
            } else {
                assert(acc2[i] == rest[0]);
                assert(ranks_before(rest[0].price@, rest[j + 1].price@, is_bid));
            }
        }
        lemma_apply_sorted(acc2, rest2, is_bid);
        assert(acc2 + rest2 =~= acc + rest);
    }
}

/// Round trip: rebuilding a side from its own sorted, valid levels (as a
/// snapshot taken from a book carries them) restores it exactly.
pub proof fn lemma_replace_roundtrip(s: Seq<PriceLevel>, is_bid: bool, depth: int)
    requires
        side_sorted(s, is_bid),
        s.len() <= depth,
    ensures
        spec_trim(spec_replace_side(s, is_bid), depth) == s,
{
    lemma_apply_sorted(Seq::empty(), s, is_bid);
    assert(Seq::<PriceLevel>::empty() + s =~= s);
}

/// Round trip at the book level: a book rebuilt from a snapshot of another
/// book with the same (or deeper) retained depth carries the same sides,
/// hence the same best quotes, depth and checksum.
pub proof fn lemma_snapshot_roundtrip(b: FastOrderBook, nb: FastOrderBook, d: int)
    requires
        b.wf(),
        b.bids@.len() <= d,
        b.asks@.len() <= d,
        nb.bids@ == spec_trim(spec_replace_side(b.bids@, true), d),
        nb.asks@ == spec_trim(spec_replace_side(b.asks@, false), d),
    ensures
        nb.bids@ == b.bids@,
        nb.asks@ == b.asks@,
        FastOrderBook::spec_best(nb.bids@) == FastOrderBook::spec_best(b.bids@),
        FastOrderBook::spec_best(nb.asks@) == FastOrderBook::spec_best(b.asks@),
        spec_book_checksum(nb.bids@, nb.asks@) == spec_book_checksum(b.bids@, b.asks@),
{
    lemma_replace_roundtrip(b.bids@, true, d);
    lemma_replace_roundtrip(b.asks@, false, d);
}

/// The fee-adjusted profit a direction reports, in basis points.
pub open spec fn spec_net_profit_bps(buy: int, sell: int, buy_fee: int, sell_fee: int) -> int {
    scaled_div(sell - buy, buy) * 10000 - (buy_fee + sell_fee) * 10000
}

/// Raising either venue's fee rate never raises the reported net profit,
/// for any fixed pair of prices.
pub proof fn lemma_fee_monotonicity(
    buy: int,
    sell: int,
    buy_fee1: int,
    sell_fee1: int,
    buy_fee2: int,
    sell_fee2: int,
)
    requires
        buy_fee1 <= buy_fee2,
        sell_fee1 <= sell_fee2,
    ensures
        spec_net_profit_bps(buy, sell, buy_fee2, sell_fee2) <= spec_net_profit_bps(
            buy,
            sell,
            buy_fee1,
            sell_fee1,
        ),
{
    assert((buy_fee1 + sell_fee1) * 10000 <= (buy_fee2 + sell_fee2) * 10000) by (nonlinear_arith)
        requires
            buy_fee1 + sell_fee1 <= buy_fee2 + sell_fee2,
    ;
}

/// Truncating division toward zero by a positive divisor is monotone in the
/// dividend, so the profit figure carried on an emitted opportunity obeys
/// the same fee monotonicity as the basis-point value it truncates.
pub proof fn lemma_trunc_div_monotone(a: int, b: int, d: int)
    requires
        a <= b,
        d > 0,
    ensures
        trunc_div(a, d) <= trunc_div(b, d),
{
    if a >= 0 {
        assert(a / d <= b / d) by (nonlinear_arith)
            requires
                0 <= a <= b,
                d > 0,
        ;
    } else if b < 0 {
        assert((-b) / d <= (-a) / d) by (nonlinear_arith)
            requires
                0 < -b <= -a,
                d > 0,
        ;
    } else {
        assert((-a) / d >= 0 && b / d >= 0) by (nonlinear_arith)
            requires
                -a >= 0,
                b >= 0,
                d > 0,
        ;
    }
}

/// Volume sizing: every emitted opportunity is sized by the thinner side's
/// top-of-book quantity, never beyond either.
pub proof fn lemma_volume_sizing(
    det: CrossExchangeArbitrageDetector,
    buy_venue: VenueId,
    sell_venue: VenueId,
    buy_book: FastOrderBook,
    sell_book: FastOrderBook,
)
    requires
        spec_check_direction(det, buy_venue, sell_venue, buy_book, sell_book) is Some,
    ensures
        ({
            let v = spec_check_direction(det, buy_venue, sell_venue, buy_book, sell_book)->Some_0;
            &&& v.3 <= buy_book.asks@[0].quantity@
            &&& v.3 <= sell_book.bids@[0].quantity@
        }),
{
}

} // verus!
