//! Decimal market arithmetic helpers: relative changes, basis points, tick
//! and lot rounding, notional values and weighted averages.

use vstd::prelude::*;

use crate::book::MAX_UNIT_MANTISSA;
use crate::fixed::{
    abs_int, round_half_even, scaled_div, scaled_mul, trunc_div, Decimal, SCALE_FACTOR,
};

verus! {

/// Relative change from `old_value` to `new_value`, as a percentage
/// (zero when the base is zero).
pub fn calculate_percentage_change(old_value: Decimal, new_value: Decimal) -> (r: Decimal)
    requires
        abs_int(old_value@) <= MAX_UNIT_MANTISSA as int,
        abs_int(new_value@) <= MAX_UNIT_MANTISSA as int,
    ensures
        old_value@ == 0 ==> r@ == 0,
        old_value@ != 0 ==> r@ == scaled_div(new_value@ - old_value@, old_value@) * 100,
{
    if old_value.is_zero() {
        return Decimal::zero();
    }
    let diff = new_value.sub(old_value);
    proof {
        crate::book::lemma_scaled_div_bound(diff@, old_value@);
        assert(abs_int(scaled_div(diff@, old_value@)) * abs_int(100) <= abs_int(
            scaled_div(diff@, old_value@),
        ) * 10000) by (nonlinear_arith)
            requires
                abs_int(scaled_div(diff@, old_value@)) >= 0,
        ;
    }
    diff.div(old_value).mul_int(100)
}

/// `value` over `base` in whole basis points, truncated toward zero; zero
/// for a zero base or a figure outside the 32-bit range.
pub fn calculate_basis_points(value: Decimal, base: Decimal) -> (r: i32)
    requires
        abs_int(value@) <= MAX_UNIT_MANTISSA as int,
        abs_int(base@) <= MAX_UNIT_MANTISSA as int,
    ensures
        base@ == 0 ==> r == 0,
        base@ != 0 ==> r == ({
            let bps = trunc_div(scaled_div(value@, base@) * 10000, SCALE_FACTOR as int);
            if i32::MIN <= bps <= i32::MAX {
                bps as i32
            } else {
                0i32
            }
        }),
{
    if base.is_zero() {
        return 0;
    }
    proof {
        crate::book::lemma_scaled_div_bound(value@, base@);
    }
    let x = value.div(base).mul_int(10000);
    match x.to_i32() {
        Some(v) => v,
        None => 0,
    }
}

/// The fraction one basis-point count stands for.
pub fn basis_points_to_decimal(bps: i32) -> (r: Decimal)
    ensures
        r@ == bps * 100_000,
{
    proof {
        crate::fixed::lemma_pow10_le_9(5);
        assert(crate::fixed::pow10(5) == 100_000) by {
            reveal_with_fuel(crate::fixed::pow10, 7);
        }
    }
    Decimal::new(bps as i64, 4)
}

/// Exact notional: price times quantity.
pub fn calculate_notional_value(price: Decimal, quantity: Decimal) -> (r: Decimal)
    requires
        0 <= price@ <= MAX_UNIT_MANTISSA as int,
        0 <= quantity@ <= MAX_UNIT_MANTISSA as int,
    ensures
        r@ == scaled_mul(price@, quantity@),
{
    proof {
        assert(abs_int(price@) * abs_int(quantity@) <= i128::MAX) by (nonlinear_arith)
            requires
                0 <= price@ <= MAX_UNIT_MANTISSA as int,
                0 <= quantity@ <= MAX_UNIT_MANTISSA as int,
                MAX_UNIT_MANTISSA == 1_000_000_000_000_000_000i128,
        ;
    }
    price.mul(quantity)
}

/// The quotient and its rounding bounds used by tick rounding.
proof fn lemma_tick_bounds(p: int, t: int)
    requires
        0 <= p <= MAX_UNIT_MANTISSA as int,
        0 < t <= MAX_UNIT_MANTISSA as int,
    ensures
        0 <= scaled_div(p, t) <= (MAX_UNIT_MANTISSA as int) * (SCALE_FACTOR as int),
        abs_int(scaled_div(p, t)) + (SCALE_FACTOR as int) <= i128::MAX,
{
    let s = SCALE_FACTOR as int;
    crate::fixed::lemma_mul_sign(p, s);
    crate::fixed::lemma_div_le_dividend(p * s, t);
    assert(p * s <= (MAX_UNIT_MANTISSA as int) * s) by (nonlinear_arith)
        requires
            0 <= p <= MAX_UNIT_MANTISSA as int,
            s > 0,
    ;
}

/// Rounds a price to the nearest multiple of a tick (halves to the even
/// multiple); a zero tick leaves the price unchanged.
pub fn round_to_tick_size(price: Decimal, tick_size: Decimal) -> (r: Decimal)
    requires
        0 <= price@ <= MAX_UNIT_MANTISSA as int,
        0 <= tick_size@ <= MAX_UNIT_MANTISSA as int,
    ensures
        tick_size@ == 0 ==> r == price,
        tick_size@ != 0 ==> r@ == scaled_mul(
            round_half_even(scaled_div(price@, tick_size@), SCALE_FACTOR as int) * (
            SCALE_FACTOR as int),
            tick_size@,
        ),
{
    if tick_size.is_zero() {
        return price;
    }
    proof {
        lemma_tick_bounds(price@, tick_size@);
    }
    let q = price.div(tick_size);
    let rounded = q.round_units();
    proof {
        let qv = scaled_div(price@, tick_size@);
        let sf = SCALE_FACTOR as int;
        lemma_quotient_remul(price@, tick_size@);
        assert(0 <= round_half_even(qv, sf) <= qv / sf + 1) by {
            assert(qv / sf >= 0) by (nonlinear_arith)
                requires
                    qv >= 0,
                    sf > 0,
            ;
        }
        assert(rounded@ == round_half_even(qv, sf) * sf);
        assert(rounded@ <= qv + sf) by (nonlinear_arith)
            requires
                rounded@ == round_half_even(qv, sf) * sf,
                round_half_even(qv, sf) <= qv / sf + 1,
                (qv / sf) * sf <= qv,
                sf > 0,
        ;
        assert(rounded@ * tick_size@ <= (qv + sf) * tick_size@) by (nonlinear_arith)
            requires
                0 <= rounded@ <= qv + sf,
                tick_size@ > 0,
        ;
        assert(rounded@ >= 0) by (nonlinear_arith)
            requires
                rounded@ == round_half_even(qv, sf) * sf,
                round_half_even(qv, sf) >= 0,
                sf > 0,
        ;
        assert(round_half_even(qv, sf) >= 0) by (nonlinear_arith)
            requires
                qv >= 0,
                sf > 0,
        ;
        assert(abs_int(rounded@) * abs_int(tick_size@) <= i128::MAX);
    }
    rounded.mul(tick_size)
}

/// Rounds a quantity down to a whole multiple of a lot; a zero lot leaves
/// the quantity unchanged.
pub fn round_to_lot_size(quantity: Decimal, lot_size: Decimal) -> (r: Decimal)
    requires
        0 <= quantity@ <= MAX_UNIT_MANTISSA as int,
        0 <= lot_size@ <= MAX_UNIT_MANTISSA as int,
    ensures
        lot_size@ == 0 ==> r == quantity,
        lot_size@ != 0 ==> r@ == scaled_mul(
            trunc_div(scaled_div(quantity@, lot_size@), SCALE_FACTOR as int) * (
            SCALE_FACTOR as int),
            lot_size@,
        ),
{
    if lot_size.is_zero() {
        return quantity;
    }
    proof {
        lemma_tick_bounds(quantity@, lot_size@);
    }
    let q = quantity.div(lot_size);
    let units = q.div_int(SCALE_FACTOR);
    proof {
        let qv = scaled_div(quantity@, lot_size@);
        let sf = SCALE_FACTOR as int;
        lemma_quotient_remul(quantity@, lot_size@);
        crate::fixed::lemma_div_le_dividend(qv, sf);
        assert(abs_int(units@) * abs_int(sf) <= i128::MAX) by (nonlinear_arith)
            requires
                0 <= units@ <= qv,
                0 <= qv,
                qv * lot_size@ <= quantity@ * sf,
                quantity@ <= MAX_UNIT_MANTISSA as int,
                lot_size@ >= 1,
                sf == 1_000_000_000,
                MAX_UNIT_MANTISSA == 1_000_000_000_000_000_000i128,
        ;
    }
    let floored = units.mul_int(SCALE_FACTOR);
    proof {
        let qv = scaled_div(quantity@, lot_size@);
        let sf = SCALE_FACTOR as int;
        assert(floored@ == trunc_div(qv, sf) * sf);
        assert(floored@ <= qv && floored@ >= 0) by (nonlinear_arith)
            requires
                floored@ == (qv / sf) * sf,
                qv >= 0,
                sf > 0,
        ;
        assert(floored@ * lot_size@ <= qv * lot_size@) by (nonlinear_arith)
            requires
                0 <= floored@ <= qv,
                lot_size@ > 0,
        ;
        assert(abs_int(floored@) * abs_int(lot_size@) <= i128::MAX);
    }
    floored.mul(lot_size)
}

/// Remultiplying the (rounded) scaled quotient of `p` by `t` stays within
/// the multiplication range: the product essentially reproduces `p`.
proof fn lemma_quotient_remul(p: int, t: int)
    requires
        0 <= p <= MAX_UNIT_MANTISSA as int,
        0 < t <= MAX_UNIT_MANTISSA as int,
    ensures
        0 <= scaled_div(p, t),
        scaled_div(p, t) * t <= p * (SCALE_FACTOR as int),
        (scaled_div(p, t) + (SCALE_FACTOR as int)) * t <= i128::MAX,
{
    let sf = SCALE_FACTOR as int;
    let qv = scaled_div(p, t);
    crate::fixed::lemma_mul_sign(p, sf);
    assert(qv == (p * sf) / t);
    assert(qv >= 0) by (nonlinear_arith)
        requires
            qv == (p * sf) / t,
            p * sf >= 0,
            t > 0,
    ;
    assert(qv * t <= p * sf) by (nonlinear_arith)
        requires
            qv == (p * sf) / t,
            p * sf >= 0,
            t > 0,
    ;
    assert(p * sf <= (MAX_UNIT_MANTISSA as int) * sf) by (nonlinear_arith)
        requires
            0 <= p <= MAX_UNIT_MANTISSA as int,
            sf > 0,
    ;
    assert(sf * t <= sf * (MAX_UNIT_MANTISSA as int)) by (nonlinear_arith)
        requires
            0 < t <= MAX_UNIT_MANTISSA as int,
            sf > 0,
    ;
    assert((qv + sf) * t == qv * t + sf * t) by (nonlinear_arith);
}

/// Cost and quantity totals of a list of price/quantity pairs.
pub open spec fn spec_wap_sums(s: Seq<(Decimal, Decimal)>) -> (int, int)
    decreases s.len(),
{
    if s.len() == 0 {
        (0, 0)
    } else {
        let rest = spec_wap_sums(s.drop_last());
        (rest.0 + scaled_mul(s.last().0@, s.last().1@), rest.1 + s.last().1@)
    }
}

/// Bounds on the running totals of a valid price/quantity list.
proof fn lemma_wap_bounds(s: Seq<(Decimal, Decimal)>)
    requires
        forall|i: int|
            0 <= i < s.len() ==> (0 <= (#[trigger] s[i]).0@ <= MAX_UNIT_MANTISSA as int && 0
                <= s[i].1@ <= MAX_UNIT_MANTISSA as int),
    ensures
        0 <= spec_wap_sums(s).1 <= s.len() * (MAX_UNIT_MANTISSA as int),
        0 <= spec_wap_sums(s).0 <= spec_wap_sums(s).1 * (SCALE_FACTOR as int),
    decreases s.len(),
{
    if s.len() > 0 {
        assert(forall|i: int|
            0 <= i < s.drop_last().len() ==> (0 <= (#[trigger] s.drop_last()[i]).0@
                <= MAX_UNIT_MANTISSA as int && 0 <= s.drop_last()[i].1@
                <= MAX_UNIT_MANTISSA as int)) by {
            assert(forall|i: int| 0 <= i < s.drop_last().len() ==> s.drop_last()[i] == s[i]);
        }
        lemma_wap_bounds(s.drop_last());
        assert(s[s.len() - 1] == s.last());
        crate::book::lemma_cost_step_bound(s.last().1@, if s.last().0@ == 0 {
            1int
        } else {
            s.last().0@
        });
        if s.last().0@ == 0 {
            crate::fixed::lemma_mul_sign(s.last().0@, s.last().1@);
            assert(scaled_mul(s.last().0@, s.last().1@) == 0);
        } else {
            assert(scaled_mul(s.last().1@, s.last().0@) == scaled_mul(s.last().0@, s.last().1@))
                by {
                assert(s.last().1@ * s.last().0@ == s.last().0@ * s.last().1@) by (nonlinear_arith);
            }
        }
        let prev = spec_wap_sums(s.drop_last());
        assert(prev.0 + scaled_mul(s.last().0@, s.last().1@) <= (prev.1 + s.last().1@) * (
        SCALE_FACTOR as int)) by (nonlinear_arith)
            requires
                prev.0 <= prev.1 * (SCALE_FACTOR as int),
                scaled_mul(s.last().0@, s.last().1@) <= s.last().1@ * (SCALE_FACTOR as int),
        ;
    }
}

/// Quantity-weighted average of a list of price/quantity pairs; zero for an
/// empty list or a zero total quantity.
pub fn calculate_weighted_average_price(prices: &Vec<(Decimal, Decimal)>) -> (r: Decimal)
    requires
        prices@.len() <= 100,
        forall|i: int|
            0 <= i < prices@.len() ==> (0 <= (#[trigger] prices@[i]).0@
                <= MAX_UNIT_MANTISSA as int && 0 <= prices@[i].1@ <= MAX_UNIT_MANTISSA as int),
    ensures
        prices@.len() == 0 || spec_wap_sums(prices@).1 == 0 ==> r@ == 0,
        prices@.len() > 0 && spec_wap_sums(prices@).1 != 0 ==> r@ == scaled_div(
            spec_wap_sums(prices@).0,
            spec_wap_sums(prices@).1,
        ),
{
    if prices.len() == 0 {
        return Decimal::zero();
    }
    let mut total_value: Decimal = Decimal::zero();
    let mut total_quantity: Decimal = Decimal::zero();
    let mut i: usize = 0;
    while i < prices.len()
        invariant
            i <= prices@.len() <= 100,
            forall|k: int|
                0 <= k < prices@.len() ==> (0 <= (#[trigger] prices@[k]).0@
                    <= MAX_UNIT_MANTISSA as int && 0 <= prices@[k].1@
                    <= MAX_UNIT_MANTISSA as int),
            (total_value@, total_quantity@) == spec_wap_sums(prices@.take(i as int)),
            0 <= total_quantity@ <= i * (MAX_UNIT_MANTISSA as int),
            0 <= total_value@ <= total_quantity@ * (SCALE_FACTOR as int),
        decreases prices.len() - i,
    {
        proof {
            assert(prices@.take(i + 1 as int).drop_last() =~= prices@.take(i as int));
            assert(prices@.take(i + 1 as int).last() == prices@[i as int]);
            assert(abs_int(prices@[i as int].0@) * abs_int(prices@[i as int].1@) <= i128::MAX)
                by (nonlinear_arith)
                requires
                    0 <= prices@[i as int].0@ <= MAX_UNIT_MANTISSA as int,
                    0 <= prices@[i as int].1@ <= MAX_UNIT_MANTISSA as int,
                    MAX_UNIT_MANTISSA == 1_000_000_000_000_000_000i128,
            ;
            crate::book::lemma_cost_step_bound(prices@[i as int].1@, if prices@[i as int].0@ == 0 {
                1int
            } else {
                prices@[i as int].0@
            });
            if prices@[i as int].0@ == 0 {
                crate::fixed::lemma_mul_sign(prices@[i as int].0@, prices@[i as int].1@);
            } else {
                assert(prices@[i as int].1@ * prices@[i as int].0@ == prices@[i as int].0@
                    * prices@[i as int].1@) by (nonlinear_arith);
            }
            assert(total_value@ + scaled_mul(prices@[i as int].0@, prices@[i as int].1@) <= (
            total_quantity@ + prices@[i as int].1@) * (SCALE_FACTOR as int)) by (nonlinear_arith)
                requires
                    total_value@ <= total_quantity@ * (SCALE_FACTOR as int),
                    scaled_mul(prices@[i as int].0@, prices@[i as int].1@) <= prices@[i as int].1@
                        * (SCALE_FACTOR as int),
            ;
        }
        let cost = prices[i].0.mul(prices[i].1);
        total_value = total_value.add(cost);
        total_quantity = total_quantity.add(prices[i].1);
        i = i + 1;
    }
    proof {
        assert(prices@.take(prices@.len() as int) =~= prices@);
    }
    if total_quantity.is_zero() {
        Decimal::zero()
    } else {
        proof {
            assert(abs_int(total_value@) * (SCALE_FACTOR as int) <= i128::MAX) by (nonlinear_arith)
                requires
                    0 <= total_value@ <= total_quantity@ * (SCALE_FACTOR as int),
                    0 <= total_quantity@ <= 100 * (MAX_UNIT_MANTISSA as int),
                    SCALE_FACTOR == 1_000_000_000i128,
                    MAX_UNIT_MANTISSA == 1_000_000_000_000_000_000i128,
            ;
        }
        total_value.div(total_quantity)
    }
}

} // verus!
