//! Fixed-point decimal arithmetic.
//!
//! Every price, quantity, fee rate and derived figure in this crate is a
//! `Decimal`: an integer mantissa carrying nine fractional decimal digits.
//! All operations state their exact integer semantics, so callers can reason
//! about book and detector arithmetic without rounding surprises.

use vstd::prelude::*;

verus! {

/// Number of fractional decimal digits carried by every `Decimal`.
pub const DECIMAL_SCALE: u32 = 9;

/// `10^DECIMAL_SCALE`: the mantissa that represents the value one.
pub const SCALE_FACTOR: i128 = 1_000_000_000;

/// `10^e` as a mathematical integer.
pub open spec fn pow10(e: nat) -> int
    decreases e,
{
    if e == 0 {
        1
    } else {
        10 * pow10((e - 1) as nat)
    }
}

/// Absolute value of a mathematical integer.
pub open spec fn abs_int(a: int) -> int {
    if a >= 0 {
        a
    } else {
        -a
    }
}

/// Division truncating toward zero, the semantics of every `Decimal` division.
pub open spec fn trunc_div(a: int, b: int) -> int {
    let q = abs_int(a) / abs_int(b);
    if (a < 0) != (b < 0) {
        -q
    } else {
        q
    }
}

/// Rounding `a / d` to the nearest whole quotient, halves to the even side,
/// for a non-negative dividend and a positive divisor.
pub open spec fn round_half_even(a: int, d: int) -> int {
    let q = a / d;
    let r = a % d;
    if 2 * r < d {
        q
    } else if 2 * r > d {
        q + 1
    } else if q % 2 == 0 {
        q
    } else {
        q + 1
    }
}

/// Product of two scaled mantissas, rescaled back (truncating toward zero).
pub open spec fn scaled_mul(a: int, b: int) -> int {
    trunc_div(a * b, SCALE_FACTOR as int)
}

/// Quotient of two scaled mantissas, rescaled (truncating toward zero).
pub open spec fn scaled_div(a: int, b: int) -> int {
    trunc_div(a * (SCALE_FACTOR as int), b)
}

/// A fixed-point decimal number; the represented value is `mantissa / 10^9`.
///
/// The view of a `Decimal` is its mantissa as a mathematical integer.
#[derive(Clone, Copy, Debug, PartialEq, Eq, Structural, PartialOrd, Ord, Hash)]
pub struct Decimal {
    m: i128,
}

impl View for Decimal {
    type V = int;

    closed spec fn view(&self) -> int {
        self.m as int
    }
}

/// The decimal whose mantissa is `m` (for mantissas within the type bound).
pub closed spec fn spec_dec(m: int) -> Decimal {
    Decimal { m: m as i128 }
}

/// Within the mantissa range, `spec_dec` is the inverse of the view.
pub proof fn lemma_spec_dec(m: int)
    requires
        i128::MIN <= m <= i128::MAX,
    ensures
        spec_dec(m)@ == m,
{
}

/// Every decimal is the image of its own view.
pub proof fn lemma_spec_dec_id(d: Decimal)
    ensures
        spec_dec(d@) == d,
{
}

impl Decimal {
    /// Two decimals are the same value exactly when their views agree.
    pub proof fn lemma_view_injective(a: Decimal, b: Decimal)
        ensures
            (a@ == b@) <==> (a == b),
    {
    }

    /// The zero value.
    pub fn zero() -> (r: Decimal)
        ensures
            r@ == 0,
    {
        Decimal { m: 0 }
    }

    /// The value `n`.
    pub fn from_int(n: i64) -> (r: Decimal)
        ensures
            r@ == n * pow10(9),
    {
        proof {
            lemma_pow10_units();
            assert(n * 1_000_000_000 <= i64::MAX * 1_000_000_000) by (nonlinear_arith)
                requires
                    n <= i64::MAX,
            ;
            assert(i64::MIN * 1_000_000_000 <= n * 1_000_000_000) by (nonlinear_arith)
                requires
                    i64::MIN <= n,
            ;
        }
        Decimal { m: n as i128 * SCALE_FACTOR }
    }

    /// The value `num / 10^scale`, as in a mantissa/scale decimal literal.
    pub fn new(num: i64, scale: u32) -> (r: Decimal)
        requires
            scale <= 9,
        ensures
            r@ == num * pow10((9 - scale) as nat),
    {
        let f: i128 = pow10_exec(9 - scale);
        proof {
            lemma_pow10_le_9((9 - scale) as nat);
            assert(num * f <= i64::MAX * 1_000_000_000) by (nonlinear_arith)
                requires
                    n_le(num as int, i64::MAX as int),
                    0 < f <= 1_000_000_000,
            ;
            assert(i64::MIN * 1_000_000_000 <= num * f) by (nonlinear_arith)
                requires
                    n_le(i64::MIN as int, num as int),
                    0 < f <= 1_000_000_000,
            ;
        }
        Decimal { m: num as i128 * f }
    }

    /// True exactly when the value is zero.
    pub fn is_zero(&self) -> (r: bool)
        ensures
            r == (self@ == 0),
    {
        self.m == 0
    }

    /// True exactly when the value is strictly negative.
    pub fn is_negative(&self) -> (r: bool)
        ensures
            r == (self@ < 0),
    {
        self.m < 0
    }

    /// Exact sum of two decimals.
    pub fn add(self, rhs: Decimal) -> (r: Decimal)
        requires
            i128::MIN <= self@ + rhs@ <= i128::MAX,
        ensures
            r@ == self@ + rhs@,
    {
        Decimal { m: self.m + rhs.m }
    }

    /// Exact difference of two decimals.
    pub fn sub(self, rhs: Decimal) -> (r: Decimal)
        requires
            i128::MIN <= self@ - rhs@ <= i128::MAX,
        ensures
            r@ == self@ - rhs@,
    {
        Decimal { m: self.m - rhs.m }
    }

    /// Absolute value.
    pub fn abs(self) -> (r: Decimal)
        requires
            self@ > i128::MIN,
        ensures
            r@ == abs_int(self@),
    {
        if self.m < 0 {
            Decimal { m: -self.m }
        } else {
            self
        }
    }

    /// Strictly-less comparison on the represented values.
    pub fn lt(self, rhs: Decimal) -> (r: bool)
        ensures
            r == (self@ < rhs@),
    {
        self.m < rhs.m
    }

    /// Less-or-equal comparison on the represented values.
    pub fn le(self, rhs: Decimal) -> (r: bool)
        ensures
            r == (self@ <= rhs@),
    {
        self.m <= rhs.m
    }

    /// Strictly-greater comparison on the represented values.
    pub fn gt(self, rhs: Decimal) -> (r: bool)
        ensures
            r == (self@ > rhs@),
    {
        self.m > rhs.m
    }

    /// Greater-or-equal comparison on the represented values.
    pub fn ge(self, rhs: Decimal) -> (r: bool)
        ensures
            r == (self@ >= rhs@),
    {
        self.m >= rhs.m
    }

    /// Product of two decimals, truncated toward zero at nine fractional digits.
    pub fn mul(self, rhs: Decimal) -> (r: Decimal)
        requires
            self@ > i128::MIN,
            rhs@ > i128::MIN,
            abs_int(self@) * abs_int(rhs@) <= i128::MAX,
        ensures
            r@ == scaled_mul(self@, rhs@),
    {
        let neg: bool = (self.m < 0) != (rhs.m < 0);
        let am: u128 = abs_u128(self.m);
        let bm: u128 = abs_u128(rhs.m);
        proof {
            lemma_mul_sign(self@, rhs@);
        }
        let p: u128 = am * bm;
        let q: u128 = p / (SCALE_FACTOR as u128);
        proof {
            lemma_div_le_dividend(p as int, SCALE_FACTOR as int);
        }
        if neg && q > 0 {
            Decimal { m: -(q as i128) }
        } else {
            Decimal { m: q as i128 }
        }
    }

    /// Quotient of two decimals, truncated toward zero at nine fractional digits.
    pub fn div(self, rhs: Decimal) -> (r: Decimal)
        requires
            self@ > i128::MIN,
            rhs@ != 0,
            rhs@ > i128::MIN,
            abs_int(self@) * (SCALE_FACTOR as int) <= i128::MAX,
        ensures
            r@ == scaled_div(self@, rhs@),
    {
        let neg: bool = (self.m < 0) != (rhs.m < 0);
        let am: u128 = abs_u128(self.m);
        let bm: u128 = abs_u128(rhs.m);
        proof {
            lemma_mul_sign(self@, SCALE_FACTOR as int);
        }
        let p: u128 = am * (SCALE_FACTOR as u128);
        let q: u128 = p / bm;
        proof {
            lemma_div_le_dividend(p as int, bm as int);
        }
        if neg && q > 0 {
            Decimal { m: -(q as i128) }
        } else {
            Decimal { m: q as i128 }
        }
    }

    /// Rounds to a whole number of units, halves to the even neighbour.
    pub fn round_units(self) -> (r: Decimal)
        requires
            self@ > i128::MIN,
            abs_int(self@) + (SCALE_FACTOR as int) <= i128::MAX,
        ensures
            r@ == if self@ >= 0 {
                round_half_even(self@, SCALE_FACTOR as int) * (SCALE_FACTOR as int)
            } else {
                -(round_half_even(-self@, SCALE_FACTOR as int) * (SCALE_FACTOR as int))
            },
    {
        let neg: bool = self.m < 0;
        let am: u128 = abs_u128(self.m);
        let s: u128 = SCALE_FACTOR as u128;
        let q: u128 = am / s;
        let rem: u128 = am % s;
        let qr: u128 = if 2 * rem < s {
            q
        } else if 2 * rem > s {
            q + 1
        } else if q % 2 == 0 {
            q
        } else {
            q + 1
        };
        proof {
            assert(q * s <= am && (q + 1) * s <= am + s) by (nonlinear_arith)
                requires
                    q == am as int / s as int,
                    s >= 1,
                    am >= 0,
            ;
        }
        let mr: u128 = qr * s;
        if neg && mr > 0 {
            Decimal { m: -(mr as i128) }
        } else {
            Decimal { m: mr as i128 }
        }
    }

    /// Truncation of the value to an `i32` count of whole units, when it fits.
    pub fn to_i32(self) -> (r: Option<i32>)
        requires
            self@ > i128::MIN,
        ensures
            r == if i32::MIN <= trunc_div(self@, SCALE_FACTOR as int) <= i32::MAX {
                Some(trunc_div(self@, SCALE_FACTOR as int) as i32)
            } else {
                None::<i32>
            },
    {
        let neg: bool = self.m < 0;
        let am: u128 = abs_u128(self.m);
        let q: u128 = am / (SCALE_FACTOR as u128);
        if neg {
            if q <= 0x8000_0000u128 {
                Some(-(q as i64) as i32)
            } else {
                None
            }
        } else {
            if q <= 0x7fff_ffffu128 {
                Some(q as i32)
            } else {
                None
            }
        }
    }

    /// Exact product with an integer factor (no rescaling).
    pub fn mul_int(self, k: i128) -> (r: Decimal)
        requires
            self@ > i128::MIN,
            k > i128::MIN,
            abs_int(self@) * abs_int(k as int) <= i128::MAX,
        ensures
            r@ == self@ * k,
    {
        let neg: bool = (self.m < 0) != (k < 0);
        let am: u128 = abs_u128(self.m);
        let bm: u128 = abs_u128(k);
        proof {
            lemma_mul_sign(self@, k as int);
        }
        let p: u128 = am * bm;
        if neg && p > 0 {
            Decimal { m: -(p as i128) }
        } else {
            Decimal { m: p as i128 }
        }
    }

    /// Quotient by an integer divisor, truncated toward zero (no rescaling).
    pub fn div_int(self, k: i128) -> (r: Decimal)
        requires
            self@ > i128::MIN,
            k != 0,
            k > i128::MIN,
        ensures
            r@ == trunc_div(self@, k as int),
    {
        let neg: bool = (self.m < 0) != (k < 0);
        let am: u128 = abs_u128(self.m);
        let bm: u128 = abs_u128(k);
        let q: u128 = am / bm;
        proof {
            lemma_div_le_dividend(am as int, bm as int);
        }
        if neg && q > 0 {
            Decimal { m: -(q as i128) }
        } else {
            Decimal { m: q as i128 }
        }
    }

    /// Half of an exact sum, truncated toward zero: the midpoint of two values.
    pub fn half_sum(a: Decimal, b: Decimal) -> (r: Decimal)
        requires
            i128::MIN < a@ + b@ <= i128::MAX,
        ensures
            r@ == trunc_div(a@ + b@, 2),
    {
        let s: Decimal = Decimal { m: a.m + b.m };
        s.div_int(2)
    }

    /// The magnitude's low and high 32-bit decimal-mantissa chunks and the sign,
    /// for values whose magnitude fits 64 bits; used by the book checksum.
    pub fn split_u32(self) -> (r: (u32, u32, bool))
        requires
            0 <= abs_int(self@) < 0x1_0000_0000_0000_0000,
        ensures
            r.0 == abs_int(self@) % 0x1_0000_0000,
            r.1 == abs_int(self@) / 0x1_0000_0000,
            r.2 == (self@ < 0),
    {
        proof {
            assert(self@ > i128::MIN);
        }
        let am: u128 = abs_u128(self.m);
        let lo: u128 = am % 0x1_0000_0000;
        let hi: u128 = am / 0x1_0000_0000;
        (lo as u32, hi as u32, self.m < 0)
    }

    /// The smaller of the two values.
    pub fn min(self, rhs: Decimal) -> (r: Decimal)
        ensures
            r@ == if self@ <= rhs@ {
                self@
            } else {
                rhs@
            },
    {
        if self.m <= rhs.m {
            self
        } else {
            rhs
        }
    }
}

/// Helper spec alias used to feed plain bounds into nonlinear proofs.
pub open spec fn n_le(a: int, b: int) -> bool {
    a <= b
}

/// Magnitude of an `i128` as a `u128`.
fn abs_u128(x: i128) -> (r: u128)
    requires
        x > i128::MIN,
    ensures
        r == abs_int(x as int),
{
    if x < 0 {
        (-x) as u128
    } else {
        x as u128
    }
}

/// Sign and magnitude facts about an integer product.
pub proof fn lemma_mul_sign(a: int, b: int)
    ensures
        abs_int(a * b) == abs_int(a) * abs_int(b),
        ((a < 0) != (b < 0)) && a != 0 && b != 0 ==> a * b < 0,
        !((a < 0) != (b < 0)) ==> a * b >= 0,
        a == 0 || b == 0 ==> a * b == 0,
{
    if a == 0 || b == 0 {
        assert(a * b == 0) by (nonlinear_arith)
            requires
                a == 0 || b == 0,
        ;
        let ga = abs_int(a);
        let gb = abs_int(b);
        assert(ga * gb == 0) by (nonlinear_arith)
            requires
                ga == 0 || gb == 0,
        ;
    } else if a > 0 && b > 0 {
        assert(a * b > 0) by (nonlinear_arith)
            requires
                a > 0 && b > 0,
        ;
    } else if a < 0 && b < 0 {
        assert(a * b > 0 && a * b == (-a) * (-b)) by (nonlinear_arith)
            requires
                a < 0 && b < 0,
        ;
    } else if a > 0 && b < 0 {
        assert(a * b < 0 && -(a * b) == a * (-b)) by (nonlinear_arith)
            requires
                a > 0 && b < 0,
        ;
    } else {
        assert(a * b < 0 && -(a * b) == (-a) * b) by (nonlinear_arith)
            requires
                a < 0 && b > 0,
        ;
    }
}

/// A scaled quotient is no larger in magnitude than the scaled dividend.
pub proof fn lemma_scaled_div_range(a: int, b: int)
    requires
        b != 0,
        abs_int(a) * (SCALE_FACTOR as int) <= i128::MAX,
    ensures
        abs_int(scaled_div(a, b)) <= abs_int(a) * (SCALE_FACTOR as int),
        i128::MIN < scaled_div(a, b) <= i128::MAX,
{
    let s = SCALE_FACTOR as int;
    lemma_mul_sign(a, s);
    lemma_div_le_dividend(abs_int(a * s), abs_int(b));
}

/// Dividing a non-negative integer by a positive one never grows it.
pub proof fn lemma_div_le_dividend(p: int, d: int)
    requires
        p >= 0,
        d >= 1,
    ensures
        0 <= p / d <= p,
{
    assert(0 <= p / d <= p) by (nonlinear_arith)
        requires
            p >= 0 && d >= 1,
    ;
}

/// `10^e` computed at run time for exponents up to nine.
pub fn pow10_exec(e: u32) -> (r: i128)
    requires
        e <= 9,
    ensures
        r == pow10(e as nat),
{
    let mut r: i128 = 1;
    let mut i: u32 = 0;
    while i < e
        invariant
            i <= e <= 9,
            r == pow10(i as nat),
        decreases e - i,
    {
        proof {
            lemma_pow10_le_9((i + 1) as nat);
        }
        r = r * 10;
        i = i + 1;
    }
    r
}

/// `10^e` is positive and at most `10^9` for exponents up to nine.
pub proof fn lemma_pow10_le_9(e: nat)
    requires
        e <= 9,
    ensures
        0 < pow10(e) <= 1_000_000_000,
{
    reveal_with_fuel(pow10, 11);
}

/// The mantissa of the value one is `10^9`.
pub proof fn lemma_pow10_units()
    ensures
        pow10(9) == 1_000_000_000,
{
    reveal_with_fuel(pow10, 11);
}

} // verus!
