//! A single venue's limit order book.
//!
//! Each side is a vector of price levels kept strictly sorted best-first:
//! bids by descending price, asks by ascending price. Updates insert,
//! overwrite or delete one level; replacements install a whole side. The
//! sortedness, uniqueness of prices and validity of every resting level are
//! stated as the book's well-formedness and preserved by every operation.

use vstd::prelude::*;
use vstd::seq_lib::*;

use crate::fixed::{Decimal, abs_int, trunc_div, scaled_mul, scaled_div, SCALE_FACTOR};
use crate::time::now_timestamp_ms;
use crate::types::{ArbFinderError, Side, Symbol};

verus! {

/// Largest mantissa a valid price or quantity may carry (the value 10^9).
pub const MAX_UNIT_MANTISSA: i128 = 1_000_000_000_000_000_000;

/// Hard upper bound on the retained depth of a book side.
pub const MAX_BOOK_DEPTH: usize = 1_000_000;

/// Depth used when a book is created without an explicit bound.
pub const DEFAULT_BOOK_DEPTH: usize = 1000;

/// One resting price level: price, aggregate quantity, contributing order
/// count and the timestamp of its last change.
#[derive(Clone, Copy, Debug, PartialEq, Eq, Structural)]
pub struct PriceLevel {
    pub price: Decimal,
    pub quantity: Decimal,
    pub order_count: u32,
    pub last_updated: u64,
}

/// A level is valid when price and quantity are strictly positive and at most
/// one billion units.
pub open spec fn level_valid(l: PriceLevel) -> bool {
    &&& 0 < l.price@ <= MAX_UNIT_MANTISSA as int
    &&& 0 < l.quantity@ <= MAX_UNIT_MANTISSA as int
}

/// Every level of the sequence is valid.
pub open spec fn all_levels_valid(s: Seq<PriceLevel>) -> bool {
    forall|i: int| 0 <= i < s.len() ==> level_valid(#[trigger] s[i])
}

/// Price `a` is quoted ahead of price `b` on the side: higher bids first,
/// lower asks first.
pub open spec fn ranks_before(a: int, b: int, is_bid: bool) -> bool {
    if is_bid {
        a > b
    } else {
        a < b
    }
}

/// The side is strictly sorted best-first; in particular no price repeats.
pub open spec fn side_sorted(s: Seq<PriceLevel>, is_bid: bool) -> bool {
    forall|i: int, j: int|
        #![trigger s[i], s[j]]
        0 <= i < j < s.len() ==> ranks_before(s[i].price@, s[j].price@, is_bid)
}

/// Levels quoted strictly ahead of price `p`.
pub open spec fn pred_before(p: int, is_bid: bool) -> spec_fn(PriceLevel) -> bool {
    |l: PriceLevel| ranks_before(l.price@, p, is_bid)
}

/// Levels quoted strictly behind price `p`.
pub open spec fn pred_after(p: int, is_bid: bool) -> spec_fn(PriceLevel) -> bool {
    |l: PriceLevel| ranks_before(p, l.price@, is_bid)
}

/// Levels whose price differs from `p`.
pub open spec fn pred_price_ne(p: int) -> spec_fn(PriceLevel) -> bool {
    |l: PriceLevel| l.price@ != p
}

/// The side after deleting the level at price `p`, if any.
pub open spec fn spec_remove_price(s: Seq<PriceLevel>, p: int) -> Seq<PriceLevel> {
    s.filter(pred_price_ne(p))
}

/// The side after inserting or overwriting the level at `l.price`.
pub open spec fn spec_upsert(s: Seq<PriceLevel>, l: PriceLevel, is_bid: bool) -> Seq<PriceLevel> {
    s.filter(pred_before(l.price@, is_bid)) + seq![l] + s.filter(pred_after(l.price@, is_bid))
}

/// The side after evicting levels beyond the retained depth (worst last).
pub open spec fn spec_trim(s: Seq<PriceLevel>, depth: int) -> Seq<PriceLevel> {
    if s.len() > depth {
        s.take(depth)
    } else {
        s
    }
}

/// When a predicate holds exactly on the first `c` elements, filtering keeps
/// exactly that prefix.
pub proof fn lemma_filter_is_prefix(s: Seq<PriceLevel>, pred: spec_fn(PriceLevel) -> bool, c: int)
    requires
        0 <= c <= s.len(),
        forall|k: int| 0 <= k < c ==> pred(#[trigger] s[k]),
        forall|k: int| c <= k < s.len() ==> !pred(#[trigger] s[k]),
    ensures
        s.filter(pred) == s.subrange(0, c),
    decreases s.len(),
{
    reveal(Seq::filter);
    if s.len() == 0 {
        assert(s.filter(pred) =~= s.subrange(0, c));
    } else {
        let dl = s.drop_last();
        if c == s.len() {
            lemma_filter_is_prefix(dl, pred, c - 1);
            assert(dl =~= s.subrange(0, c - 1));
            assert(s.filter(pred) =~= s.subrange(0, c));
        } else {
            lemma_filter_is_prefix(dl, pred, c);
            assert(dl.subrange(0, c) =~= s.subrange(0, c));
            assert(s.filter(pred) =~= s.subrange(0, c));
        }
    }
}

/// When a predicate holds exactly from position `c` on, filtering keeps
/// exactly that suffix.
pub proof fn lemma_filter_is_suffix(s: Seq<PriceLevel>, pred: spec_fn(PriceLevel) -> bool, c: int)
    requires
        0 <= c <= s.len(),
        forall|k: int| 0 <= k < c ==> !pred(#[trigger] s[k]),
        forall|k: int| c <= k < s.len() ==> pred(#[trigger] s[k]),
    ensures
        s.filter(pred) == s.subrange(c, s.len() as int),
    decreases s.len(),
{
    reveal(Seq::filter);
    if s.len() == 0 {
        assert(s.filter(pred) =~= s.subrange(c, s.len() as int));
    } else {
        let dl = s.drop_last();
        if c == s.len() {
            lemma_filter_is_suffix(dl, pred, c - 1);
            assert(dl.subrange(c - 1, dl.len() as int) =~= Seq::<PriceLevel>::empty());
            assert(s.filter(pred) =~= s.subrange(c, s.len() as int));
        } else {
            lemma_filter_is_suffix(dl, pred, c);
            assert(dl.subrange(c, dl.len() as int) =~= s.subrange(c, s.len() as int).drop_last());
            assert(s.filter(pred) =~= s.subrange(c, s.len() as int));
        }
    }
}

/// Filtering a strictly sorted side leaves it strictly sorted.
pub proof fn lemma_filter_preserves_sorted(
    s: Seq<PriceLevel>,
    pred: spec_fn(PriceLevel) -> bool,
    is_bid: bool,
)
    requires
        side_sorted(s, is_bid),
    ensures
        side_sorted(s.filter(pred), is_bid),
        forall|x: PriceLevel| #[trigger] s.filter(pred).contains(x) ==> s.contains(x) && pred(x),
        forall|x: PriceLevel| s.contains(x) && pred(x) ==> #[trigger] s.filter(pred).contains(x),
    decreases s.len(),
{
    reveal(Seq::filter);
    if s.len() == 0 {
    } else {
        let dl = s.drop_last();
        let last = s.last();
        assert(side_sorted(dl, is_bid));
        lemma_filter_preserves_sorted(dl, pred, is_bid);
        let f = s.filter(pred);
        let fdl = dl.filter(pred);
        if pred(last) {
            assert(f == fdl.push(last));
            assert forall|i: int, j: int|
                #![trigger f[i], f[j]]
                0 <= i < j < f.len() implies ranks_before(f[i].price@, f[j].price@, is_bid) by {
                if j < f.len() - 1 {
                    assert(fdl[i] == f[i] && fdl[j] == f[j]);
                } else {
                    assert(f[j] == last);
                    assert(fdl.contains(f[i]));
                    let k = choose|k: int| 0 <= k < dl.len() && dl[k] == f[i];
                    assert(ranks_before(s[k].price@, s[s.len() - 1].price@, is_bid));
                }
            }
            assert forall|x: PriceLevel| #[trigger] f.contains(x) implies s.contains(x) && pred(x) by {
                if x == last {
                    assert(s[s.len() - 1] == x);
                } else {
                    let i = choose|i: int| 0 <= i < f.len() && f[i] == x;
                    assert(fdl.contains(x));
                    let k = choose|k: int| 0 <= k < dl.len() && dl[k] == x;
                    assert(s[k] == x);
                }
            }
            assert forall|x: PriceLevel| s.contains(x) && pred(x) implies #[trigger] f.contains(x) by {
                let k = choose|k: int| 0 <= k < s.len() && s[k] == x;
                if k == s.len() - 1 {
                    assert(f[f.len() - 1] == x);
                } else {
                    assert(dl[k] == x);
                    assert(dl.contains(x));
                    assert(fdl.contains(x));
                    let i = choose|i: int| 0 <= i < fdl.len() && fdl[i] == x;
                    assert(f[i] == x);
                }
            }
        } else {
            assert(f == fdl);
            assert forall|x: PriceLevel| #[trigger] f.contains(x) implies s.contains(x) && pred(x) by {
                let k = choose|k: int| 0 <= k < dl.len() && dl[k] == x;
                assert(s[k] == x);
            }
            assert forall|x: PriceLevel| s.contains(x) && pred(x) implies #[trigger] f.contains(x) by {
                let k = choose|k: int| 0 <= k < s.len() && s[k] == x;
                assert(k != s.len() - 1);
                assert(dl[k] == x);
                assert(dl.contains(x));
            }
        }
    }
}

/// What inserting or overwriting a level does to a sorted side: the result is
/// sorted, the new level is present, levels at other prices are kept, and the
/// side grows by at most one.
pub proof fn lemma_upsert_props(s: Seq<PriceLevel>, l: PriceLevel, is_bid: bool)
    requires
        side_sorted(s, is_bid),
    ensures
        side_sorted(spec_upsert(s, l, is_bid), is_bid),
        forall|x: PriceLevel| #[trigger] spec_upsert(s, l, is_bid).contains(x) <==> (x == l || (
        s.contains(x) && x.price@ != l.price@)),
        s.len() <= spec_upsert(s, l, is_bid).len() <= s.len() + 1,
        all_levels_valid(s) && level_valid(l) ==> all_levels_valid(spec_upsert(s, l, is_bid)),
{
    let p = l.price@;
    let f1 = s.filter(pred_before(p, is_bid));
    let f2 = s.filter(pred_after(p, is_bid));
    let r = spec_upsert(s, l, is_bid);
    lemma_filter_preserves_sorted(s, pred_before(p, is_bid), is_bid);
    lemma_filter_preserves_sorted(s, pred_after(p, is_bid), is_bid);
    // sortedness across the three parts
    assert forall|i: int, j: int|
        #![trigger r[i], r[j]]
        0 <= i < j < r.len() implies ranks_before(r[i].price@, r[j].price@, is_bid) by {
        let n1 = f1.len() as int;
        let n2 = f2.len() as int;
        if i < n1 {
            assert(f1.contains(f1[i]));
            assert(pred_before(p, is_bid)(f1[i]));
        }
        if j < n1 {
            assert(f1[i] == r[i] && f1[j] == r[j]);
        } else if j == n1 {
            assert(r[j] == l);
        } else {
            assert(f2.contains(f2[j - n1 - 1]));
            assert(pred_after(p, is_bid)(f2[j - n1 - 1]));
            if i > n1 {
                assert(f2[i - n1 - 1] == r[i] && f2[j - n1 - 1] == r[j]);
            }
        }
    }
    // membership characterization
    assert forall|x: PriceLevel| #[trigger] r.contains(x) implies (x == l || (s.contains(x)
        && x.price@ != l.price@)) by {
        if x != l {
            let i = choose|i: int| 0 <= i < r.len() && r[i] == x;
            let n1 = f1.len() as int;
            if i < n1 {
                assert(f1[i] == x);
                assert(f1.contains(x));
            } else if i > n1 {
                assert(f2[i - n1 - 1] == x);
                assert(f2.contains(x));
            }
        }
    }
    assert forall|x: PriceLevel| (x == l || (s.contains(x) && x.price@ != l.price@)) implies
        #[trigger] r.contains(x) by {
        let n1 = f1.len() as int;
        if x == l {
            assert(r[n1] == x);
        } else {
            if ranks_before(x.price@, p, is_bid) {
                assert(f1.contains(x));
                let i = choose|i: int| 0 <= i < f1.len() && f1[i] == x;
                assert(r[i] == x);
            } else {
                assert(ranks_before(p, x.price@, is_bid));
                assert(f2.contains(x));
                let i = choose|i: int| 0 <= i < f2.len() && f2[i] == x;
                assert(r[n1 + 1 + i] == x);
            }
        }
    }
    // length bounds
    lemma_filter_disjoint_len(s, pred_before(p, is_bid), pred_after(p, is_bid));
    // the side can shrink only by replacement, never below its old length minus one;
    // in fact it never shrinks: every old level at another price is kept and
    // at most one level (the one at price p) is dropped
    lemma_filter_pair_len_ge(s, pred_before(p, is_bid), pred_after(p, is_bid), p);
    // validity
    if all_levels_valid(s) && level_valid(l) {
        assert forall|i: int| 0 <= i < r.len() implies level_valid(#[trigger] r[i]) by {
            assert(r.contains(r[i]));
            if r[i] != l {
                let k = choose|k: int| 0 <= k < s.len() && s[k] == r[i];
            }
        }
    }
}

/// Two disjoint predicates keep at most every element between them.
proof fn lemma_filter_disjoint_len(
    s: Seq<PriceLevel>,
    p1: spec_fn(PriceLevel) -> bool,
    p2: spec_fn(PriceLevel) -> bool,
)
    requires
        forall|x: PriceLevel| !(#[trigger] p1(x) && p2(x)),
    ensures
        s.filter(p1).len() + s.filter(p2).len() <= s.len(),
    decreases s.len(),
{
    reveal(Seq::filter);
    if s.len() > 0 {
        lemma_filter_disjoint_len(s.drop_last(), p1, p2);
    }
}

/// Predicates that differ only at one price together keep all but at most one
/// element.
proof fn lemma_filter_pair_len_ge(
    s: Seq<PriceLevel>,
    p1: spec_fn(PriceLevel) -> bool,
    p2: spec_fn(PriceLevel) -> bool,
    p: int,
)
    requires
        forall|x: PriceLevel| x.price@ != p ==> (#[trigger] p1(x) || p2(x)),
        forall|i: int, j: int|
            #![trigger s[i], s[j]]
            0 <= i < j < s.len() ==> s[i].price@ != s[j].price@,
    ensures
        s.filter(p1).len() + s.filter(p2).len() >= s.len() - 1,
    decreases s.len(),
{
    reveal(Seq::filter);
    if s.len() > 0 {
        let dl = s.drop_last();
        let last = s.last();
        if last.price@ == p {
            // no other element carries price p
            assert forall|x: PriceLevel| dl.contains(x) implies x.price@ != p by {
                let k = choose|k: int| 0 <= k < dl.len() && dl[k] == x;
                assert(s[k].price@ != s[s.len() - 1].price@);
            }
            lemma_filter_all_kept(dl, p1, p2, p);
        } else {
            lemma_filter_pair_len_ge(dl, p1, p2, p);
        }
    }
}

/// When every element misses price `p`, the two predicates together keep all.
proof fn lemma_filter_all_kept(
    s: Seq<PriceLevel>,
    p1: spec_fn(PriceLevel) -> bool,
    p2: spec_fn(PriceLevel) -> bool,
    p: int,
)
    requires
        forall|x: PriceLevel| x.price@ != p ==> (#[trigger] p1(x) || p2(x)),
        forall|x: PriceLevel| #[trigger] s.contains(x) ==> x.price@ != p,
    ensures
        s.filter(p1).len() + s.filter(p2).len() >= s.len(),
    decreases s.len(),
{
    reveal(Seq::filter);
    if s.len() > 0 {
        let dl = s.drop_last();
        assert(s.contains(s.last()));
        assert forall|x: PriceLevel| #[trigger] dl.contains(x) implies x.price@ != p by {
            let k = choose|k: int| 0 <= k < dl.len() && dl[k] == x;
            assert(s[k] == x);
            assert(s.contains(x));
        }
        lemma_filter_all_kept(dl, p1, p2, p);
    }
}

/// Run-time comparison in quote-priority order.
fn level_ranks_before(a: Decimal, b: Decimal, is_bid: bool) -> (r: bool)
    ensures
        r == ranks_before(a@, b@, is_bid),
{
    if is_bid {
        a.gt(b)
    } else {
        a.lt(b)
    }
}

/// Inserts or overwrites the level at `l.price` in a sorted side.
fn side_upsert(v: &Vec<PriceLevel>, l: PriceLevel, is_bid: bool) -> (out: Vec<PriceLevel>)
    requires
        side_sorted(v@, is_bid),
    ensures
        out@ == spec_upsert(v@, l, is_bid),
{
    let ghost p: int = l.price@;
    let n: usize = v.len();
    let mut i: usize = 0;
    loop
        invariant
            p == l.price@,
            i <= n == v.len(),
            side_sorted(v@, is_bid),
            forall|k: int| 0 <= k < i ==> ranks_before(#[trigger] v@[k].price@, p, is_bid),
        ensures
            i <= n,
            forall|k: int| 0 <= k < i ==> ranks_before(#[trigger] v@[k].price@, p, is_bid),
            i < n ==> !ranks_before(v@[i as int].price@, p, is_bid),
        decreases n - i,
    {
        if i == n {
            break ;
        }
        if !level_ranks_before(v[i].price, l.price, is_bid) {
            break ;
        }
        i = i + 1;
    }
    let replacing: bool = i < n && v[i].price == l.price;
    proof {
        if i < n {
            Decimal::lemma_view_injective(v@[i as int].price, l.price);
        }
    }
    let j0: usize = if replacing {
        i + 1
    } else {
        i
    };
    let mut out: Vec<PriceLevel> = Vec::new();
    let mut k: usize = 0;
    while k < i
        invariant
            k <= i <= n == v.len(),
            out@ == v@.subrange(0, k as int),
        decreases i - k,
    {
        out.push(v[k]);
        proof {
            assert(out@ =~= v@.subrange(0, k + 1 as int));
        }
        k = k + 1;
    }
    out.push(l);
    let mut j: usize = j0;
    while j < n
        invariant
            j0 <= j <= n == v.len(),
            i <= j0,
            out@ == v@.subrange(0, i as int) + seq![l] + v@.subrange(j0 as int, j as int),
        decreases n - j,
    {
        out.push(v[j]);
        proof {
            assert(out@ =~= v@.subrange(0, i as int) + seq![l] + v@.subrange(
                j0 as int,
                j + 1 as int,
            ));
        }
        j = j + 1;
    }
    proof {
        assert forall|k2: int| 0 <= k2 < i implies pred_before(p, is_bid)(#[trigger] v@[k2]) by {}
        assert forall|k2: int| i <= k2 < n implies !pred_before(p, is_bid)(#[trigger] v@[k2]) by {
            if k2 > i {
                assert(ranks_before(v@[i as int].price@, v@[k2].price@, is_bid));
            }
        }
        lemma_filter_is_prefix(v@, pred_before(p, is_bid), i as int);
        assert forall|k2: int| 0 <= k2 < j0 implies !pred_after(p, is_bid)(#[trigger] v@[k2]) by {}
        assert forall|k2: int| j0 <= k2 < n implies pred_after(p, is_bid)(#[trigger] v@[k2]) by {
            if replacing {
                if k2 > i {
                    assert(ranks_before(v@[i as int].price@, v@[k2].price@, is_bid));
                }
            } else {
                assert(!ranks_before(v@[i as int].price@, p, is_bid));
                assert(v@[i as int].price@ != p);
                if k2 > i {
                    assert(ranks_before(v@[i as int].price@, v@[k2].price@, is_bid));
                }
            }
        }
        lemma_filter_is_suffix(v@, pred_after(p, is_bid), j0 as int);
        assert(out@ =~= spec_upsert(v@, l, is_bid));
    }
    out
}

/// Deletes the level at price `p`, if present, from a side.
fn side_remove(v: &Vec<PriceLevel>, p: Decimal) -> (out: Vec<PriceLevel>)
    ensures
        out@ == spec_remove_price(v@, p@),
{
    let mut out: Vec<PriceLevel> = Vec::new();
    let mut i: usize = 0;
    while i < v.len()
        invariant
            i <= v.len(),
            out@ == v@.subrange(0, i as int).filter(pred_price_ne(p@)),
        decreases v.len() - i,
    {
        let keep: bool = !(v[i].price == p);
        proof {
            Decimal::lemma_view_injective(v@[i as int].price, p);
            assert(v@.subrange(0, i + 1 as int) =~= v@.subrange(0, i as int).push(v@[i as int]));
            v@.subrange(0, i as int).lemma_filter_push(v@[i as int], pred_price_ne(p@));
        }
        if keep {
            out.push(v[i]);
        }
        i = i + 1;
    }
    proof {
        assert(v@.subrange(0, v@.len() as int) =~= v@);
    }
    out
}

/// Evicts levels beyond the retained depth (the worst-priced come last).
fn side_trim(v: &mut Vec<PriceLevel>, depth: usize)
    ensures
        final(v)@ == spec_trim(old(v)@, depth as int),
{
    if v.len() > depth {
        v.truncate(depth);
    }
}

/// Trimming keeps sortedness, validity and the depth bound.
pub proof fn lemma_trim_props(s: Seq<PriceLevel>, depth: int, is_bid: bool)
    requires
        side_sorted(s, is_bid),
        depth >= 0,
    ensures
        side_sorted(spec_trim(s, depth), is_bid),
        spec_trim(s, depth).len() <= depth || spec_trim(s, depth).len() == s.len(),
        spec_trim(s, depth).len() <= s.len(),
        all_levels_valid(s) ==> all_levels_valid(spec_trim(s, depth)),
        forall|x: PriceLevel| #[trigger] spec_trim(s, depth).contains(x) ==> s.contains(x),
{
    let r = spec_trim(s, depth);
    assert forall|x: PriceLevel| #[trigger] r.contains(x) implies s.contains(x) by {
        let k = choose|k: int| 0 <= k < r.len() && r[k] == x;
        assert(s[k] == x);
    }
}

/// What deleting a price does to a sorted side.
pub proof fn lemma_remove_props(s: Seq<PriceLevel>, p: int, is_bid: bool)
    requires
        side_sorted(s, is_bid),
    ensures
        side_sorted(spec_remove_price(s, p), is_bid),
        forall|x: PriceLevel| #[trigger] spec_remove_price(s, p).contains(x) <==> (s.contains(x)
            && x.price@ != p),
        spec_remove_price(s, p).len() <= s.len(),
        all_levels_valid(s) ==> all_levels_valid(spec_remove_price(s, p)),
{
    let r = spec_remove_price(s, p);
    lemma_filter_preserves_sorted(s, pred_price_ne(p), is_bid);
    s.lemma_filter_len(pred_price_ne(p));
    assert forall|x: PriceLevel| #[trigger] r.contains(x) implies (s.contains(x) && x.price@ != p)
        by {
        assert(pred_price_ne(p)(x));
    }
    if all_levels_valid(s) {
        assert forall|i: int| 0 <= i < r.len() implies level_valid(#[trigger] r[i]) by {
            assert(r.contains(r[i]));
            let k = choose|k: int| 0 <= k < s.len() && s[k] == r[i];
        }
    }
}

/// An order count defaults to one contributing order.
pub open spec fn spec_count(oc: Option<u32>) -> u32 {
    match oc {
        Some(c) => c,
        None => 1u32,
    }
}

/// The sequence counter after one more message (wrapping at the type bound).
pub open spec fn wrap_inc(s: u64) -> u64 {
    if s == u64::MAX {
        0u64
    } else {
        (s + 1) as u64
    }
}

/// A price is accepted when strictly positive and at most one billion units.
pub open spec fn price_input_valid(p: int) -> bool {
    0 < p <= MAX_UNIT_MANTISSA as int
}

/// A quantity is accepted when non-negative (zero deletes) and at most one
/// billion units.
pub open spec fn qty_input_valid(q: int) -> bool {
    0 <= q <= MAX_UNIT_MANTISSA as int
}

/// The validation message for a rejected price/quantity pair.
pub open spec fn spec_level_input_msg(p: int, q: int) -> Seq<char> {
    if p <= 0 {
        "Price must be positive"@
    } else if p > MAX_UNIT_MANTISSA as int {
        "Price is too large"@
    } else if q < 0 {
        "Quantity cannot be negative"@
    } else {
        "Quantity is too large"@
    }
}

/// One side after a single update instruction: a zero quantity deletes the
/// price, a positive one installs the level and trims to the retained depth.
pub open spec fn spec_update_one(
    s: Seq<PriceLevel>,
    l: PriceLevel,
    is_bid: bool,
    depth: int,
) -> Seq<PriceLevel> {
    if l.quantity@ == 0 {
        spec_remove_price(s, l.price@)
    } else {
        spec_trim(spec_upsert(s, l, is_bid), depth)
    }
}

/// The value one billion: the largest valid price or quantity.
fn max_unit_value() -> (r: Decimal)
    ensures
        r@ == MAX_UNIT_MANTISSA as int,
{
    proof {
        crate::fixed::lemma_pow10_units();
    }
    Decimal::new(1_000_000_000, 0)
}

/// Rejects a malformed price or quantity before it can reach a book,
/// naming the offending field.
fn check_level_input(price: Decimal, quantity: Decimal) -> (r: Result<(), ArbFinderError>)
    ensures
        r is Ok <==> (price_input_valid(price@) && qty_input_valid(quantity@)),
        r is Err ==> (r matches Err(ArbFinderError::InvalidData(m)) && m@ == spec_level_input_msg(
            price@,
            quantity@,
        )),
{
    let top: Decimal = max_unit_value();
    if price.le(Decimal::zero()) {
        Err(ArbFinderError::InvalidData("Price must be positive".to_owned()))
    } else if price.gt(top) {
        Err(ArbFinderError::InvalidData("Price is too large".to_owned()))
    } else if quantity.lt(Decimal::zero()) {
        Err(ArbFinderError::InvalidData("Quantity cannot be negative".to_owned()))
    } else if quantity.gt(top) {
        Err(ArbFinderError::InvalidData("Quantity is too large".to_owned()))
    } else {
        Ok(())
    }
}

/// The rejection for the first malformed instruction of a batch, if any.
pub(crate) fn first_invalid_update(updates: &Vec<OrderBookUpdate>) -> (r: Option<ArbFinderError>)
    ensures
        r is None <==> (forall|i: int|
            0 <= i < updates@.len() ==> price_input_valid((#[trigger] updates@[i]).price@)
                && qty_input_valid(updates@[i].quantity@)),
        r matches Some(e) ==> e matches ArbFinderError::InvalidData(_),
{
    let top: Decimal = max_unit_value();
    let mut i: usize = 0;
    while i < updates.len()
        invariant
            i <= updates.len(),
            top@ == MAX_UNIT_MANTISSA as int,
            forall|k: int|
                0 <= k < i ==> price_input_valid((#[trigger] updates@[k]).price@)
                    && qty_input_valid(updates@[k].quantity@),
        decreases updates.len() - i,
    {
        let u = updates[i];
        if u.price.le(Decimal::zero()) || u.price.gt(top) || u.quantity.lt(Decimal::zero())
            || u.quantity.gt(top) {
            proof {
                assert(u == updates@[i as int]);
            }
            return Some(ArbFinderError::InvalidData("Batch update is out of range".to_owned()));
        }
        proof {
            assert(u == updates@[i as int]);
            assert(price_input_valid(updates@[i as int].price@) && qty_input_valid(
                updates@[i as int].quantity@,
            ));
        }
        i = i + 1;
    }
    None
}

impl PriceLevel {
    /// A fresh level with one contributing order, stamped with the current time.
    pub fn new(price: Decimal, quantity: Decimal) -> (r: PriceLevel)
        ensures
            r.price == price,
            r.quantity == quantity,
            r.order_count == 1,
    {
        PriceLevel { price, quantity, order_count: 1, last_updated: now_timestamp_ms() }
    }

    /// A fresh level with an explicit order count.
    pub fn with_order_count(price: Decimal, quantity: Decimal, order_count: u32) -> (r: PriceLevel)
        ensures
            r.price == price,
            r.quantity == quantity,
            r.order_count == order_count,
    {
        PriceLevel { price, quantity, order_count, last_updated: now_timestamp_ms() }
    }

    /// Overwrites quantity and, when given, the order count; restamps the level.
    pub fn update(&mut self, quantity: Decimal, order_count: Option<u32>)
        ensures
            final(self).price == old(self).price,
            final(self).quantity == quantity,
            final(self).order_count == match order_count {
                Some(c) => c,
                None => old(self).order_count,
            },
    {
        self.quantity = quantity;
        if let Some(count) = order_count {
            self.order_count = count;
        }
        self.last_updated = now_timestamp_ms();
    }

    /// True exactly when no quantity rests at this level.
    pub fn is_empty(&self) -> (r: bool)
        ensures
            r == (self.quantity@ == 0),
    {
        self.quantity.is_zero()
    }
}

/// A single venue's order book: both sides kept strictly sorted best-first,
/// a wrapping message-sequence counter, and a bounded retained depth.
#[derive(Debug)]
pub struct FastOrderBook {
    /// The traded pair this book quotes.
    pub symbol: Symbol,
    /// Bid levels, strictly descending by price (best bid first).
    pub bids: Vec<PriceLevel>,
    /// Ask levels, strictly ascending by price (best ask first).
    pub asks: Vec<PriceLevel>,
    /// Count of update messages applied, wrapping at the type bound.
    pub sequence: u64,
    /// Timestamp of the most recent mutation, in milliseconds.
    pub last_update: u64,
    /// The checksum supplied by the venue for the current state, if any.
    pub checksum: Option<u32>,
    /// Largest number of levels retained per side.
    pub max_depth: usize,
}

/// Two books agree on every observable field (level sequences compared by
/// their contents).
pub open spec fn books_equal(a: FastOrderBook, b: FastOrderBook) -> bool {
    &&& a.symbol == b.symbol
    &&& a.bids@ == b.bids@
    &&& a.asks@ == b.asks@
    &&& a.sequence == b.sequence
    &&& a.last_update == b.last_update
    &&& a.checksum == b.checksum
    &&& a.max_depth == b.max_depth
}

impl Clone for FastOrderBook {
    /// An exact copy of the book.
    fn clone(&self) -> (r: FastOrderBook)
        ensures
            books_equal(r, *self),
    {
        let bids: Vec<PriceLevel> = self.bids.clone();
        let asks: Vec<PriceLevel> = self.asks.clone();
        proof {
            assert(bids@ =~= self.bids@);
            assert(asks@ =~= self.asks@);
        }
        FastOrderBook {
            symbol: self.symbol.clone(),
            bids,
            asks,
            sequence: self.sequence,
            last_update: self.last_update,
            checksum: self.checksum,
            max_depth: self.max_depth,
        }
    }
}

impl FastOrderBook {
    /// The book's standing invariant: both sides strictly sorted best-first,
    /// every resting level valid, and neither side beyond the retained depth.
    pub open spec fn wf(&self) -> bool {
        &&& side_sorted(self.bids@, true)
        &&& side_sorted(self.asks@, false)
        &&& all_levels_valid(self.bids@)
        &&& all_levels_valid(self.asks@)
        &&& self.max_depth <= MAX_BOOK_DEPTH
        &&& self.bids@.len() <= self.max_depth
        &&& self.asks@.len() <= self.max_depth
    }

    /// The best (first) level of a side, if any.
    pub open spec fn spec_best(s: Seq<PriceLevel>) -> Option<PriceLevel> {
        if s.len() > 0 {
            Some(s[0])
        } else {
            None
        }
    }

    /// A new empty book; an absent depth means the default, and any requested
    /// depth is capped at the hard bound.
    pub fn new(symbol: Symbol, max_depth: Option<usize>) -> (r: FastOrderBook)
        ensures
            r.wf(),
            r.symbol == symbol,
            r.bids@.len() == 0,
            r.asks@.len() == 0,
            r.sequence == 0,
            r.checksum is None,
            r.max_depth == (match max_depth {
                Some(d) => if d > MAX_BOOK_DEPTH {
                    MAX_BOOK_DEPTH as int
                } else {
                    d as int
                },
                None => DEFAULT_BOOK_DEPTH as int,
            }),
    {
        let depth: usize = match max_depth {
            Some(d) => if d > MAX_BOOK_DEPTH {
                MAX_BOOK_DEPTH
            } else {
                d
            },
            None => DEFAULT_BOOK_DEPTH,
        };
        FastOrderBook {
            symbol,
            bids: Vec::new(),
            asks: Vec::new(),
            sequence: 0,
            last_update: now_timestamp_ms(),
            checksum: None,
            max_depth: depth,
        }
    }

    /// The number of update messages applied so far.
    pub fn get_sequence(&self) -> (r: u64)
        ensures
            r == self.sequence,
    {
        self.sequence
    }

    /// Overwrites the sequence counter (used when adopting a snapshot).
    pub fn set_sequence(&mut self, sequence: u64)
        ensures
            final(self).sequence == sequence,
            final(self).bids == old(self).bids,
            final(self).asks == old(self).asks,
            final(self).symbol == old(self).symbol,
            final(self).last_update == old(self).last_update,
            final(self).checksum == old(self).checksum,
            final(self).max_depth == old(self).max_depth,
    {
        self.sequence = sequence;
    }

    /// Applies one update instruction to the chosen side: a positive quantity
    /// installs or overwrites the level at that price, a zero quantity deletes
    /// it. The sequence counter advances even when the deletion was a no-op; a
    /// malformed price or quantity is rejected and leaves the book unchanged.
    pub fn update_side(
        &mut self,
        side: Side,
        price: Decimal,
        quantity: Decimal,
        order_count: Option<u32>,
    ) -> (r: Result<(), ArbFinderError>)
        requires
            old(self).wf(),
        ensures
            final(self).wf(),
            r is Ok <==> (price_input_valid(price@) && qty_input_valid(quantity@)),
            r is Err ==> *final(self) == *old(self),
            r is Err ==> (r matches Err(ArbFinderError::InvalidData(m)) && m@
                == spec_level_input_msg(price@, quantity@)),
            r is Ok ==> final(self).sequence == wrap_inc(old(self).sequence),
            r is Ok ==> final(self).symbol == old(self).symbol && final(self).max_depth == old(self).max_depth && final(self).checksum == old(self).checksum,
            r is Ok && side == Side::Bid ==> final(self).asks@ == old(self).asks@ && final(self).bids@ == spec_update_one(
                old(self).bids@,
                (PriceLevel {
                    price,
                    quantity,
                    order_count: spec_count(order_count),
                    last_updated: final(self).last_update,
                }),
                true,
                old(self).max_depth as int,
            ),
            r is Ok && side == Side::Ask ==> final(self).bids@ == old(self).bids@ && final(self).asks@ == spec_update_one(
                old(self).asks@,
                (PriceLevel {
                    price,
                    quantity,
                    order_count: spec_count(order_count),
                    last_updated: final(self).last_update,
                }),
                false,
                old(self).max_depth as int,
            ),
    {
        let ghost s0 = *self;
        if let Err(e) = check_level_input(price, quantity) {
            return Err(e);
        }
        let ts: u64 = now_timestamp_ms();
        let cnt: u32 = match order_count {
            Some(c) => c,
            None => 1,
        };
        let l = PriceLevel { price, quantity, order_count: cnt, last_updated: ts };
        match side {
            Side::Bid => {
                if quantity.is_zero() {
                    self.bids = side_remove(&self.bids, price);
                    proof {
                        lemma_remove_props(s0.bids@, price@, true);
                    }
                } else {
                    self.bids = side_upsert(&self.bids, l, true);
                    proof {
                        lemma_upsert_props(s0.bids@, l, true);
                    }
                    side_trim(&mut self.bids, self.max_depth);
                    proof {
                        lemma_trim_props(spec_upsert(s0.bids@, l, true), s0.max_depth as int, true);
                    }
                }
            },
            Side::Ask => {
                if quantity.is_zero() {
                    self.asks = side_remove(&self.asks, price);
                    proof {
                        lemma_remove_props(s0.asks@, price@, false);
                    }
                } else {
                    self.asks = side_upsert(&self.asks, l, false);
                    proof {
                        lemma_upsert_props(s0.asks@, l, false);
                    }
                    side_trim(&mut self.asks, self.max_depth);
                    proof {
                        lemma_trim_props(
                            spec_upsert(s0.asks@, l, false),
                            s0.max_depth as int,
                            false,
                        );
                    }
                }
            },
        }
        self.sequence = self.sequence.wrapping_add(1);
        self.last_update = ts;
        Ok(())
    }

    /// Applies one update to the bid side.
    pub fn update_bid(
        &mut self,
        price: Decimal,
        quantity: Decimal,
        order_count: Option<u32>,
    ) -> (r: Result<(), ArbFinderError>)
        requires
            old(self).wf(),
        ensures
            final(self).wf(),
            r is Ok <==> (price_input_valid(price@) && qty_input_valid(quantity@)),
            r is Err ==> *final(self) == *old(self),
            r is Ok ==> final(self).sequence == wrap_inc(old(self).sequence),
            r is Ok ==> final(self).symbol == old(self).symbol && final(self).max_depth == old(self).max_depth && final(self).checksum == old(self).checksum,
            r is Ok ==> final(self).asks@ == old(self).asks@ && final(self).bids@
                == spec_update_one(
                old(self).bids@,
                (PriceLevel {
                    price,
                    quantity,
                    order_count: spec_count(order_count),
                    last_updated: final(self).last_update,
                }),
                true,
                old(self).max_depth as int,
            ),
    {
        self.update_side(Side::Bid, price, quantity, order_count)
    }

    /// Applies one update to the ask side.
    pub fn update_ask(
        &mut self,
        price: Decimal,
        quantity: Decimal,
        order_count: Option<u32>,
    ) -> (r: Result<(), ArbFinderError>)
        requires
            old(self).wf(),
        ensures
            final(self).wf(),
            r is Ok <==> (price_input_valid(price@) && qty_input_valid(quantity@)),
            r is Err ==> *final(self) == *old(self),
            r is Ok ==> final(self).sequence == wrap_inc(old(self).sequence),
            r is Ok ==> final(self).symbol == old(self).symbol && final(self).max_depth == old(self).max_depth && final(self).checksum == old(self).checksum,
            r is Ok ==> final(self).bids@ == old(self).bids@ && final(self).asks@
                == spec_update_one(
                old(self).asks@,
                (PriceLevel {
                    price,
                    quantity,
                    order_count: spec_count(order_count),
                    last_updated: final(self).last_update,
                }),
                false,
                old(self).max_depth as int,
            ),
    {
        self.update_side(Side::Ask, price, quantity, order_count)
    }

    /// The best bid, if the bid side is non-empty.
    pub fn best_bid(&self) -> (r: Option<&PriceLevel>)
        ensures
            match r {
                Some(l) => self.bids@.len() > 0 && *l == self.bids@[0],
                None => self.bids@.len() == 0,
            },
    {
        if self.bids.len() > 0 {
            Some(&self.bids[0])
        } else {
            None
        }
    }

    /// The best ask, if the ask side is non-empty.
    pub fn best_ask(&self) -> (r: Option<&PriceLevel>)
        ensures
            match r {
                Some(l) => self.asks@.len() > 0 && *l == self.asks@[0],
                None => self.asks@.len() == 0,
            },
    {
        if self.asks.len() > 0 {
            Some(&self.asks[0])
        } else {
            None
        }
    }

    /// The best bid price, if any.
    pub fn best_bid_price(&self) -> (r: Option<Decimal>)
        ensures
            match r {
                Some(p) => self.bids@.len() > 0 && p == self.bids@[0].price,
                None => self.bids@.len() == 0,
            },
    {
        if self.bids.len() > 0 {
            Some(self.bids[0].price)
        } else {
            None
        }
    }

    /// The best ask price, if any.
    pub fn best_ask_price(&self) -> (r: Option<Decimal>)
        ensures
            match r {
                Some(p) => self.asks@.len() > 0 && p == self.asks@[0].price,
                None => self.asks@.len() == 0,
            },
    {
        if self.asks.len() > 0 {
            Some(self.asks[0].price)
        } else {
            None
        }
    }

    /// Best ask minus best bid; `None` unless both sides are non-empty.
    pub fn spread(&self) -> (r: Option<Decimal>)
        requires
            self.wf(),
        ensures
            match r {
                Some(d) => self.bids@.len() > 0 && self.asks@.len() > 0 && d@ == self.asks@[0].price@
                    - self.bids@[0].price@,
                None => self.bids@.len() == 0 || self.asks@.len() == 0,
            },
    {
        if self.bids.len() > 0 && self.asks.len() > 0 {
            Some(self.asks[0].price.sub(self.bids[0].price))
        } else {
            None
        }
    }

    /// Midpoint of best bid and best ask, truncated toward zero; `None`
    /// unless both sides are non-empty.
    pub fn mid_price(&self) -> (r: Option<Decimal>)
        requires
            self.wf(),
        ensures
            match r {
                Some(d) => self.bids@.len() > 0 && self.asks@.len() > 0 && d@ == trunc_div(
                    self.bids@[0].price@ + self.asks@[0].price@,
                    2,
                ),
                None => self.bids@.len() == 0 || self.asks@.len() == 0,
            },
    {
        if self.bids.len() > 0 && self.asks.len() > 0 {
            Some(Decimal::half_sum(self.bids[0].price, self.asks[0].price))
        } else {
            None
        }
    }

    /// The spread in whole basis points of the best bid, rounded toward zero;
    /// `None` unless both sides are non-empty and the figure fits an `i32`.
    pub fn spread_bps(&self) -> (r: Option<i32>)
        requires
            self.wf(),
        ensures
            self.bids@.len() == 0 || self.asks@.len() == 0 ==> r is None,
            self.bids@.len() > 0 && self.asks@.len() > 0 ==> {
                let bps = trunc_div(
                    scaled_div(self.asks@[0].price@ - self.bids@[0].price@, self.bids@[0].price@)
                        * 10000,
                    SCALE_FACTOR as int,
                );
                r == if i32::MIN <= bps <= i32::MAX {
                    Some(bps as i32)
                } else {
                    None::<i32>
                }
            },
    {
        if self.bids.len() > 0 && self.asks.len() > 0 {
            let bid = self.bids[0].price;
            let ask = self.asks[0].price;
            let diff = ask.sub(bid);
            proof {
                assert(abs_int(diff@) * (SCALE_FACTOR as int) <= i128::MAX) by (nonlinear_arith)
                    requires
                        abs_int(diff@) <= 2 * (MAX_UNIT_MANTISSA as int),
                        SCALE_FACTOR == 1_000_000_000i128,
                        MAX_UNIT_MANTISSA == 1_000_000_000_000_000_000i128,
                ;
            }
            let ratio = diff.div(bid);
            proof {
                lemma_scaled_div_bound(diff@, bid@);
            }
            let bps = ratio.mul_int(10000);
            bps.to_i32()
        } else {
            None
        }
    }

    /// True exactly when both sides quote and the best bid is at or above the
    /// best ask.
    pub fn is_crossed(&self) -> (r: bool)
        ensures
            r == (self.bids@.len() > 0 && self.asks@.len() > 0 && self.bids@[0].price@
                >= self.asks@[0].price@),
    {
        if self.bids.len() > 0 && self.asks.len() > 0 {
            self.bids[0].price.ge(self.asks[0].price)
        } else {
            false
        }
    }

    /// Empties both sides and resets sequence and checksum.
    pub fn clear(&mut self)
        requires
            old(self).wf(),
        ensures
            final(self).wf(),
            final(self).bids@.len() == 0,
            final(self).asks@.len() == 0,
            final(self).sequence == 0,
            final(self).checksum is None,
            final(self).symbol == old(self).symbol,
            final(self).max_depth == old(self).max_depth,
    {
        self.bids = Vec::new();
        self.asks = Vec::new();
        self.sequence = 0;
        self.last_update = now_timestamp_ms();
        self.checksum = None;
    }

    /// True exactly when neither side quotes.
    pub fn is_empty(&self) -> (r: bool)
        ensures
            r == (self.bids@.len() == 0 && self.asks@.len() == 0),
    {
        self.bids.is_empty() && self.asks.is_empty()
    }

    /// Number of resting bid levels.
    pub fn bid_count(&self) -> (r: usize)
        ensures
            r == self.bids@.len(),
    {
        self.bids.len()
    }

    /// Number of resting ask levels.
    pub fn ask_count(&self) -> (r: usize)
        ensures
            r == self.asks@.len(),
    {
        self.asks.len()
    }

    /// The best `depth` bid levels (all retained levels when `depth` is absent).
    pub fn get_bids(&self, depth: Option<usize>) -> (r: Vec<PriceLevel>)
        ensures
            r@ == self.bids@.take(
                min_int(
                    spec_depth_limit(depth, self.max_depth as int),
                    self.bids@.len() as int,
                ),
            ),
    {
        let limit: usize = match depth {
            Some(d) => d,
            None => self.max_depth,
        };
        take_levels(&self.bids, limit)
    }

    /// The best `depth` ask levels (all retained levels when `depth` is absent).
    pub fn get_asks(&self, depth: Option<usize>) -> (r: Vec<PriceLevel>)
        ensures
            r@ == self.asks@.take(
                min_int(
                    spec_depth_limit(depth, self.max_depth as int),
                    self.asks@.len() as int,
                ),
            ),
    {
        let limit: usize = match depth {
            Some(d) => d,
            None => self.max_depth,
        };
        take_levels(&self.asks, limit)
    }

    /// The best `depth` levels of the chosen side.
    pub fn get_depth(&self, side: Side, depth: usize) -> (r: Vec<PriceLevel>)
        ensures
            side == Side::Bid ==> r@ == self.bids@.take(
                min_int(depth as int, self.bids@.len() as int),
            ),
            side == Side::Ask ==> r@ == self.asks@.take(
                min_int(depth as int, self.asks@.len() as int),
            ),
    {
        match side {
            Side::Bid => self.get_bids(Some(depth)),
            Side::Ask => self.get_asks(Some(depth)),
        }
    }

    /// Total quantity resting on the best `depth` bid levels.
    pub fn total_bid_volume(&self, depth: Option<usize>) -> (r: Decimal)
        requires
            self.wf(),
        ensures
            r@ == spec_sum_qty(
                self.bids@.take(
                    min_int(
                        spec_depth_limit(depth, self.max_depth as int),
                        self.bids@.len() as int,
                    ),
                ),
            ),
    {
        let levels = self.get_bids(depth);
        proof {
            assert(all_levels_valid(levels@)) by {
                assert forall|i: int| 0 <= i < levels@.len() implies level_valid(
                    #[trigger] levels@[i],
                ) by {
                    assert(levels@[i] == self.bids@[i]);
                }
            }
        }
        sum_level_quantities(&levels)
    }

    /// Total quantity resting on the best `depth` ask levels.
    pub fn total_ask_volume(&self, depth: Option<usize>) -> (r: Decimal)
        requires
            self.wf(),
        ensures
            r@ == spec_sum_qty(
                self.asks@.take(
                    min_int(
                        spec_depth_limit(depth, self.max_depth as int),
                        self.asks@.len() as int,
                    ),
                ),
            ),
    {
        let levels = self.get_asks(depth);
        proof {
            assert(all_levels_valid(levels@)) by {
                assert forall|i: int| 0 <= i < levels@.len() implies level_valid(
                    #[trigger] levels@[i],
                ) by {
                    assert(levels@[i] == self.asks@[i]);
                }
            }
        }
        sum_level_quantities(&levels)
    }

    /// Quantity available at prices at least as favourable as `target_price`:
    /// bids at or above it, asks at or below it.
    pub fn get_liquidity_at_price(&self, side: Side, target_price: Decimal) -> (r: Decimal)
        requires
            self.wf(),
        ensures
            side == Side::Bid ==> r@ == spec_sum_qty(
                self.bids@.filter(pred_bid_liq(target_price@)),
            ),
            side == Side::Ask ==> r@ == spec_sum_qty(
                self.asks@.filter(pred_ask_liq(target_price@)),
            ),
    {
        match side {
            Side::Bid => sum_if_qty(&self.bids, target_price, true),
            Side::Ask => sum_if_qty(&self.asks, target_price, false),
        }
    }

    /// Share of the windowed volume resting on the bid side, if any volume
    /// rests at all.
    pub fn imbalance_ratio(&self, depth: Option<usize>) -> (r: Option<Decimal>)
        requires
            self.wf(),
        ensures
            ({
                let bv = spec_sum_qty(
                    self.bids@.take(
                        min_int(
                            spec_depth_limit(depth, self.max_depth as int),
                            self.bids@.len() as int,
                        ),
                    ),
                );
                let av = spec_sum_qty(
                    self.asks@.take(
                        min_int(
                            spec_depth_limit(depth, self.max_depth as int),
                            self.asks@.len() as int,
                        ),
                    ),
                );
                &&& (bv + av == 0 ==> r is None)
                &&& (bv + av != 0 ==> (r matches Some(d) && d@ == scaled_div(bv, bv + av)))
            }),
    {
        let bv = self.total_bid_volume(depth);
        let av = self.total_ask_volume(depth);
        proof {
            lemma_sum_qty_bounds(
                self.bids@.take(
                    min_int(
                        spec_depth_limit(depth, self.max_depth as int),
                        self.bids@.len() as int,
                    ),
                ),
            );
            lemma_sum_qty_bounds(
                self.asks@.take(
                    min_int(
                        spec_depth_limit(depth, self.max_depth as int),
                        self.asks@.len() as int,
                    ),
                ),
            );
        }
        let total = bv.add(av);
        if total.is_zero() {
            None
        } else {
            proof {
                assert(abs_int(bv@) * (SCALE_FACTOR as int) <= i128::MAX) by (nonlinear_arith)
                    requires
                        0 <= bv@ <= 1_000_000 * (MAX_UNIT_MANTISSA as int),
                        SCALE_FACTOR == 1_000_000_000i128,
                        MAX_UNIT_MANTISSA == 1_000_000_000_000_000_000i128,
                ;
            }
            let ratio = bv.div(total);
            Some(ratio)
        }
    }

    /// The average price obtained by consuming resting liquidity from the
    /// best price outward until `quantity` is filled; `None` for a zero
    /// request or when the side's whole depth cannot satisfy it.
    pub fn get_volume_weighted_price(&self, side: Side, quantity: Decimal) -> (r: Option<Decimal>)
        requires
            self.wf(),
            qty_input_valid(quantity@),
        ensures
            ({
                let s = if side == Side::Bid {
                    self.bids@
                } else {
                    self.asks@
                };
                &&& (quantity@ == 0 || spec_fill(s, quantity@).1 != 0 ==> r is None)
                &&& (quantity@ != 0 && spec_fill(s, quantity@).1 == 0 ==> (r matches Some(d) && d@
                    == scaled_div(spec_fill(s, quantity@).0, quantity@)))
            }),
    {
        if quantity.is_zero() {
            return None;
        }
        let levels = match side {
            Side::Bid => &self.bids,
            Side::Ask => &self.asks,
        };
        match fill_from_side(levels, quantity) {
            Some(total_cost) => {
                proof {
                    lemma_fill_bounds(levels@, quantity@);
                    assert(abs_int(total_cost@) * (SCALE_FACTOR as int) <= i128::MAX)
                        by (nonlinear_arith)
                        requires
                            0 <= total_cost@ <= (MAX_UNIT_MANTISSA as int) * (SCALE_FACTOR as int),
                            SCALE_FACTOR == 1_000_000_000i128,
                            MAX_UNIT_MANTISSA == 1_000_000_000_000_000_000i128,
                    ;
                }
                let avg = total_cost.div(quantity);
                Some(avg)
            },
            None => None,
        }
    }

    /// Relative worsening of the average fill price against the best quote,
    /// as a non-negative percentage; `None` when the side is empty or the
    /// request cannot be filled.
    pub fn calculate_slippage(&self, side: Side, quantity: Decimal) -> (r: Option<Decimal>)
        requires
            self.wf(),
            qty_input_valid(quantity@),
        ensures
            ({
                let s = if side == Side::Bid {
                    self.bids@
                } else {
                    self.asks@
                };
                &&& (s.len() == 0 || quantity@ == 0 || spec_fill(s, quantity@).1 != 0 ==> r is None)
                &&& (s.len() > 0 && quantity@ != 0 && spec_fill(s, quantity@).1 == 0 ==> (
                r matches Some(d) && d@ == abs_int(
                    scaled_div(
                        spec_slip_diff(
                            side == Side::Bid,
                            s[0].price@,
                            scaled_div(spec_fill(s, quantity@).0, quantity@),
                        ),
                        s[0].price@,
                    ),
                ) * 100))
            }),
    {
        let is_bid: bool = match side {
            Side::Bid => true,
            Side::Ask => false,
        };
        let best: Decimal = if is_bid {
            match self.best_bid_price() {
                Some(p) => p,
                None => {
                    return None;
                },
            }
        } else {
            match self.best_ask_price() {
                Some(p) => p,
                None => {
                    return None;
                },
            }
        };
        let avg: Decimal = match self.get_volume_weighted_price(side, quantity) {
            Some(a) => a,
            None => {
                return None;
            },
        };
        proof {
            let s = if side == Side::Bid {
                self.bids@
            } else {
                self.asks@
            };
            lemma_fill_bounds(s, quantity@);
            lemma_avg_price_bound(spec_fill(s, quantity@).0, quantity@);
            assert(level_valid(s[0]));
        }
        let diff: Decimal = if is_bid {
            best.sub(avg)
        } else {
            avg.sub(best)
        };
        proof {
            lemma_scaled_div_bound(diff@, best@);
        }
        let ratio = diff.div(best);
        proof {
            assert(abs_int(ratio@) * abs_int(100) <= abs_int(ratio@) * 10000) by (nonlinear_arith)
                requires
                    abs_int(ratio@) >= 0,
            ;
        }
        let pct = ratio.abs().mul_int(100);
        proof {
            crate::fixed::lemma_mul_sign(abs_int(ratio@), 100);
        }
        Some(pct)
    }

    /// The deterministic checksum over the top ten levels of both sides.
    pub fn calculate_checksum(&self) -> (r: u32)
        requires
            self.wf(),
        ensures
            r == spec_book_checksum(self.bids@, self.asks@),
    {
        let top_bids = self.get_bids(Some(10));
        let top_asks = self.get_asks(Some(10));
        proof {
            assert(all_levels_valid(top_bids@)) by {
                assert forall|i: int| 0 <= i < top_bids@.len() implies level_valid(
                    #[trigger] top_bids@[i],
                ) by {
                    assert(top_bids@[i] == self.bids@[i]);
                }
            }
            assert(all_levels_valid(top_asks@)) by {
                assert forall|i: int| 0 <= i < top_asks@.len() implies level_valid(
                    #[trigger] top_asks@[i],
                ) by {
                    assert(top_asks@[i] == self.asks@[i]);
                }
            }
        }
        let h = hash_side(CHECKSUM_SEED, &top_bids);
        hash_side(h, &top_asks)
    }

    /// True exactly when the book's own checksum equals the expected one.
    pub fn validate_checksum(&self, expected_checksum: u32) -> (r: bool)
        requires
            self.wf(),
        ensures
            r == (spec_book_checksum(self.bids@, self.asks@) == expected_checksum),
    {
        self.calculate_checksum() == expected_checksum
    }

    /// Replaces the whole bid side from an authoritative list of levels; any
    /// invalid level rejects the replacement and leaves the book unchanged.
    pub fn replace_bids(&mut self, levels: Vec<PriceLevel>) -> (r: Result<(), ArbFinderError>)
        requires
            old(self).wf(),
        ensures
            final(self).wf(),
            r is Ok <==> all_levels_valid(levels@),
            r is Err ==> *final(self) == *old(self),
            r is Err ==> r matches Err(ArbFinderError::InvalidData(_)),
            r is Ok ==> final(self).bids@ == spec_trim(
                spec_replace_side(levels@, true),
                old(self).max_depth as int,
            ) && final(self).asks@ == old(self).asks@ && final(self).sequence == wrap_inc(
                old(self).sequence,
            ) && final(self).symbol == old(self).symbol && final(self).max_depth == old(
                self,
            ).max_depth && final(self).checksum == old(self).checksum,
    {
        if !check_levels_valid(&levels) {
            return Err(
                ArbFinderError::InvalidData("Replacement level is out of range".to_owned()),
            );
        }
        let mut side = replace_side_impl(&levels, true);
        side_trim(&mut side, self.max_depth);
        proof {
            lemma_trim_props(spec_replace_side(levels@, true), self.max_depth as int, true);
        }
        self.bids = side;
        self.sequence = self.sequence.wrapping_add(1);
        self.last_update = now_timestamp_ms();
        Ok(())
    }

    /// Replaces the whole ask side from an authoritative list of levels; any
    /// invalid level rejects the replacement and leaves the book unchanged.
    pub fn replace_asks(&mut self, levels: Vec<PriceLevel>) -> (r: Result<(), ArbFinderError>)
        requires
            old(self).wf(),
        ensures
            final(self).wf(),
            r is Ok <==> all_levels_valid(levels@),
            r is Err ==> *final(self) == *old(self),
            r is Err ==> r matches Err(ArbFinderError::InvalidData(_)),
            r is Ok ==> final(self).asks@ == spec_trim(
                spec_replace_side(levels@, false),
                old(self).max_depth as int,
            ) && final(self).bids@ == old(self).bids@ && final(self).sequence == wrap_inc(
                old(self).sequence,
            ) && final(self).symbol == old(self).symbol && final(self).max_depth == old(
                self,
            ).max_depth && final(self).checksum == old(self).checksum,
    {
        if !check_levels_valid(&levels) {
            return Err(
                ArbFinderError::InvalidData("Replacement level is out of range".to_owned()),
            );
        }
        let mut side = replace_side_impl(&levels, false);
        side_trim(&mut side, self.max_depth);
        proof {
            lemma_trim_props(spec_replace_side(levels@, false), self.max_depth as int, false);
        }
        self.asks = side;
        self.sequence = self.sequence.wrapping_add(1);
        self.last_update = now_timestamp_ms();
        Ok(())
    }

    /// Applies a batch of updates atomically: if any instruction carries a
    /// malformed price or quantity the whole batch is rejected and the book
    /// is unchanged; otherwise the updates are applied in list order and the
    /// sequence counter advances once per instruction.
    pub fn batch_update(&mut self, updates: Vec<OrderBookUpdate>) -> (r: Result<
        (),
        ArbFinderError,
    >)
        requires
            old(self).wf(),
        ensures
            final(self).wf(),
            r is Ok <==> (forall|i: int|
                0 <= i < updates@.len() ==> price_input_valid((#[trigger] updates@[i]).price@)
                    && qty_input_valid(updates@[i].quantity@)),
            r is Err ==> *final(self) == *old(self),
            r is Err ==> r matches Err(ArbFinderError::InvalidData(_)),
            r is Ok ==> final(self).sequence == wrap_add_u64(
                old(self).sequence,
                updates@.len() as nat,
            ),
            r is Ok ==> final(self).symbol == old(self).symbol && final(self).max_depth == old(
                self,
            ).max_depth && final(self).checksum == old(self).checksum,
            r is Ok ==> exists|tss: Seq<u64>|
                tss.len() == updates@.len() && (final(self).bids@, final(self).asks@)
                    == spec_apply_updates(
                    old(self).bids@,
                    old(self).asks@,
                    updates@,
                    tss,
                    old(self).max_depth as int,
                ),
    {
        let ghost s0 = *self;
        let top: Decimal = max_unit_value();
        let mut i: usize = 0;
        while i < updates.len()
            invariant
                i <= updates.len(),
                top@ == MAX_UNIT_MANTISSA as int,
                old(self).wf(),
                *self == *old(self),
                forall|k: int|
                    0 <= k < i ==> price_input_valid((#[trigger] updates@[k]).price@)
                        && qty_input_valid(updates@[k].quantity@),
            decreases updates.len() - i,
        {
            let u = updates[i];
            if u.price.le(Decimal::zero()) || u.price.gt(top) || u.quantity.lt(Decimal::zero())
                || u.quantity.gt(top) {
                proof {
                    assert(!(price_input_valid(updates@[i as int].price@) && qty_input_valid(
                        updates@[i as int].quantity@,
                    )));
                }
                return Err(ArbFinderError::InvalidData("Batch update is out of range".to_owned()));
            }
            proof {
                assert(u == updates@[i as int]);
                assert(price_input_valid(updates@[i as int].price@) && qty_input_valid(
                    updates@[i as int].quantity@,
                ));
            }
            i = i + 1;
        }
        let ghost mut tss: Seq<u64> = Seq::empty();
        let mut j: usize = 0;
        proof {
            assert(updates@.take(0) =~= Seq::<OrderBookUpdate>::empty());
        }
        while j < updates.len()
            invariant
                j <= updates.len(),
                self.wf(),
                tss.len() == j,
                forall|k: int|
                    0 <= k < updates@.len() ==> price_input_valid((#[trigger] updates@[k]).price@)
                        && qty_input_valid(updates@[k].quantity@),
                self.symbol == s0.symbol,
                self.max_depth == s0.max_depth,
                self.checksum == s0.checksum,
                self.sequence == wrap_add_u64(s0.sequence, j as nat),
                (self.bids@, self.asks@) == spec_apply_updates(
                    s0.bids@,
                    s0.asks@,
                    updates@.take(j as int),
                    tss,
                    s0.max_depth as int,
                ),
            decreases updates.len() - j,
        {
            let u = updates[j];
            let res = self.update_side(u.side, u.price, u.quantity, u.order_count);
            proof {
                assert(res is Ok);
                let tss_prev = tss;
                tss = tss.push(self.last_update);
                assert(updates@.take(j + 1 as int).drop_last() =~= updates@.take(j as int));
                assert(updates@.take(j + 1 as int).last() == updates@[j as int]);
                assert(tss.drop_last() =~= tss_prev);
                assert(tss.last() == self.last_update);
            }
            j = j + 1;
        }
        proof {
            assert(updates@.take(updates@.len() as int) =~= updates@);
        }
        Ok(())
    }
}

/// A single incremental book instruction: side, price, quantity (zero
/// deletes), and optional order count and timestamp.
#[derive(Clone, Copy, Debug, PartialEq, Eq)]
pub struct OrderBookUpdate {
    pub side: Side,
    pub price: Decimal,
    pub quantity: Decimal,
    pub order_count: Option<u32>,
    pub timestamp: Option<u64>,
}

impl OrderBookUpdate {
    /// An instruction without an explicit order count, stamped now.
    pub fn new(side: Side, price: Decimal, quantity: Decimal) -> (r: OrderBookUpdate)
        ensures
            r.side == side,
            r.price == price,
            r.quantity == quantity,
            r.order_count is None,
            r.timestamp is Some,
    {
        OrderBookUpdate {
            side,
            price,
            quantity,
            order_count: None,
            timestamp: Some(now_timestamp_ms()),
        }
    }

    /// An instruction carrying an explicit order count, stamped now.
    pub fn with_order_count(
        side: Side,
        price: Decimal,
        quantity: Decimal,
        order_count: u32,
    ) -> (r: OrderBookUpdate)
        ensures
            r.side == side,
            r.price == price,
            r.quantity == quantity,
            r.order_count == Some(order_count),
            r.timestamp is Some,
    {
        OrderBookUpdate {
            side,
            price,
            quantity,
            order_count: Some(order_count),
            timestamp: Some(now_timestamp_ms()),
        }
    }

    /// True exactly when this instruction deletes its price level.
    pub fn is_delete(&self) -> (r: bool)
        ensures
            r == (self.quantity@ == 0),
    {
        self.quantity.is_zero()
    }
}

/// Two snapshots agree on every field (level lists compared by contents).
pub open spec fn snapshots_equal(a: OrderBookSnapshot, b: OrderBookSnapshot) -> bool {
    &&& a.symbol == b.symbol
    &&& a.bids@ == b.bids@
    &&& a.asks@ == b.asks@
    &&& a.sequence == b.sequence
    &&& a.timestamp == b.timestamp
}

/// An immutable point-in-time capture of a book's full depth, sequence
/// number and timestamp.
#[derive(Debug)]
pub struct OrderBookSnapshot {
    pub symbol: Symbol,
    pub bids: Vec<PriceLevel>,
    pub asks: Vec<PriceLevel>,
    pub sequence: u64,
    pub timestamp: u64,
}

impl Clone for OrderBookSnapshot {
    /// An exact copy of the snapshot.
    fn clone(&self) -> (r: OrderBookSnapshot)
        ensures
            snapshots_equal(r, *self),
    {
        let bids: Vec<PriceLevel> = self.bids.clone();
        let asks: Vec<PriceLevel> = self.asks.clone();
        proof {
            assert(bids@ =~= self.bids@);
            assert(asks@ =~= self.asks@);
        }
        OrderBookSnapshot {
            symbol: self.symbol.clone(),
            bids,
            asks,
            sequence: self.sequence,
            timestamp: self.timestamp,
        }
    }
}

impl OrderBookSnapshot {
    /// Captures a book's full retained depth, sequence and timestamp.
    pub fn from_fast_orderbook(book: &FastOrderBook) -> (r: OrderBookSnapshot)
        requires
            book.wf(),
        ensures
            r.symbol == book.symbol,
            r.bids@ == book.bids@,
            r.asks@ == book.asks@,
            r.sequence == book.sequence,
            r.timestamp == book.last_update,
    {
        let bids = book.get_bids(None);
        let asks = book.get_asks(None);
        proof {
            assert(bids@ =~= book.bids@);
            assert(asks@ =~= book.asks@);
        }
        OrderBookSnapshot {
            symbol: book.symbol.clone(),
            bids,
            asks,
            sequence: book.sequence,
            timestamp: book.last_update,
        }
    }

    /// Installs the snapshot wholesale into a book: both sides replaced and
    /// the snapshot's timestamp adopted. Each side replacement counts as one
    /// message, so the book's sequence counter advances twice — re-applying
    /// the same snapshot reproduces the levels and checksum while the
    /// counter still moves. Any invalid level rejects the whole application
    /// and leaves the book unchanged.
    pub fn apply_to_book(&self, book: &mut FastOrderBook) -> (r: Result<(), ArbFinderError>)
        requires
            old(book).wf(),
        ensures
            final(book).wf(),
            r is Ok <==> (all_levels_valid(self.bids@) && all_levels_valid(self.asks@)),
            r is Err ==> *final(book) == *old(book),
            r is Err ==> r matches Err(ArbFinderError::InvalidData(_)),
            r is Ok ==> final(book).symbol == self.symbol && final(book).bids@ == spec_trim(
                spec_replace_side(self.bids@, true),
                old(book).max_depth as int,
            ) && final(book).asks@ == spec_trim(
                spec_replace_side(self.asks@, false),
                old(book).max_depth as int,
            ) && final(book).sequence == wrap_inc(wrap_inc(old(book).sequence))
                && final(book).last_update == self.timestamp
                && final(book).max_depth == old(book).max_depth && final(book).checksum == old(
                book,
            ).checksum,
    {
        if !check_levels_valid(&self.bids) || !check_levels_valid(&self.asks) {
            return Err(ArbFinderError::InvalidData("Snapshot level is out of range".to_owned()));
        }
        let mut new_bids = replace_side_impl(&self.bids, true);
        side_trim(&mut new_bids, book.max_depth);
        let mut new_asks = replace_side_impl(&self.asks, false);
        side_trim(&mut new_asks, book.max_depth);
        proof {
            lemma_trim_props(spec_replace_side(self.bids@, true), old(book).max_depth as int, true);
            lemma_trim_props(
                spec_replace_side(self.asks@, false),
                old(book).max_depth as int,
                false,
            );
        }
        book.symbol = self.symbol.clone();
        book.bids = new_bids;
        book.asks = new_asks;
        book.sequence = book.sequence.wrapping_add(1);
        book.sequence = book.sequence.wrapping_add(1);
        book.last_update = self.timestamp;
        Ok(())
    }
}

/// Copies the first `limit` levels of a side (all of them when shorter).
fn take_levels(v: &Vec<PriceLevel>, limit: usize) -> (r: Vec<PriceLevel>)
    ensures
        r@ == v@.take(min_int(limit as int, v@.len() as int)),
{
    let n: usize = if limit < v.len() {
        limit
    } else {
        v.len()
    };
    let mut out: Vec<PriceLevel> = Vec::new();
    let mut i: usize = 0;
    while i < n
        invariant
            i <= n <= v.len(),
            out@ == v@.subrange(0, i as int),
        decreases n - i,
    {
        out.push(v[i]);
        proof {
            assert(out@ =~= v@.subrange(0, i + 1 as int));
        }
        i = i + 1;
    }
    proof {
        assert(out@ =~= v@.take(min_int(limit as int, v@.len() as int)));
    }
    out
}

/// Sums the quantities of a sequence of valid levels.
fn sum_level_quantities(v: &Vec<PriceLevel>) -> (r: Decimal)
    requires
        all_levels_valid(v@),
        v@.len() <= MAX_BOOK_DEPTH,
    ensures
        r@ == spec_sum_qty(v@),
{
    let mut acc: Decimal = Decimal::zero();
    let mut i: usize = 0;
    while i < v.len()
        invariant
            i <= v.len() <= MAX_BOOK_DEPTH,
            all_levels_valid(v@),
            acc@ == spec_sum_qty(v@.take(i as int)),
            0 <= acc@ <= i * (MAX_UNIT_MANTISSA as int),
        decreases v.len() - i,
    {
        proof {
            assert(level_valid(v@[i as int]));
            assert(v@.take(i + 1 as int).drop_last() =~= v@.take(i as int));
            assert(v@.take(i + 1 as int).last() == v@[i as int]);
        }
        acc = acc.add(v[i].quantity);
        i = i + 1;
    }
    proof {
        assert(v@.take(v@.len() as int) =~= v@);
    }
    acc
}

/// Sums the quantities of the levels at or better than a threshold price.
fn sum_if_qty(v: &Vec<PriceLevel>, target: Decimal, is_bid: bool) -> (r: Decimal)
    requires
        all_levels_valid(v@),
        v@.len() <= MAX_BOOK_DEPTH,
    ensures
        is_bid ==> r@ == spec_sum_qty(v@.filter(pred_bid_liq(target@))),
        !is_bid ==> r@ == spec_sum_qty(v@.filter(pred_ask_liq(target@))),
{
    let ghost pred = if is_bid {
        pred_bid_liq(target@)
    } else {
        pred_ask_liq(target@)
    };
    let mut acc: Decimal = Decimal::zero();
    let mut i: usize = 0;
    while i < v.len()
        invariant
            i <= v.len() <= MAX_BOOK_DEPTH,
            all_levels_valid(v@),
            pred == if is_bid {
                pred_bid_liq(target@)
            } else {
                pred_ask_liq(target@)
            },
            acc@ == spec_sum_qty(v@.take(i as int).filter(pred)),
            0 <= acc@ <= i * (MAX_UNIT_MANTISSA as int),
        decreases v.len() - i,
    {
        let keep: bool = if is_bid {
            v[i].price.ge(target)
        } else {
            v[i].price.le(target)
        };
        proof {
            assert(level_valid(v@[i as int]));
            assert(v@.take(i + 1 as int) =~= v@.take(i as int).push(v@[i as int]));
            v@.take(i as int).lemma_filter_push(v@[i as int], pred);
            v@.take(i as int).lemma_filter_len(pred);
            assert(keep == pred(v@[i as int]));
            if keep {
                let f = v@.take(i as int).filter(pred);
                assert(f.push(v@[i as int]).drop_last() =~= f);
                assert(f.push(v@[i as int]).last() == v@[i as int]);
            }
        }
        if keep {
            acc = acc.add(v[i].quantity);
        }
        i = i + 1;
    }
    proof {
        assert(v@.take(v@.len() as int) =~= v@);
    }
    acc
}

/// Walks a side consuming up to `quantity`; the accumulated cost when the
/// request can be filled, `None` when depth is insufficient.
fn fill_from_side(v: &Vec<PriceLevel>, quantity: Decimal) -> (r: Option<Decimal>)
    requires
        all_levels_valid(v@),
        0 < quantity@ <= MAX_UNIT_MANTISSA as int,
    ensures
        spec_fill(v@, quantity@).1 != 0 ==> r is None,
        spec_fill(v@, quantity@).1 == 0 ==> (r matches Some(c) && c@ == spec_fill(v@, quantity@).0),
{
    let ghost target = quantity@;
    let mut remaining: Decimal = quantity;
    let mut acc: Decimal = Decimal::zero();
    let mut i: usize = 0;
    proof {
        assert(v@.skip(0) =~= v@);
    }
    while i < v.len()
        invariant
            i <= v.len(),
            all_levels_valid(v@),
            0 < target <= MAX_UNIT_MANTISSA as int,
            0 <= remaining@ <= target,
            0 <= acc@ <= (target - remaining@) * (SCALE_FACTOR as int),
            spec_fill(v@, target).0 == acc@ + spec_fill(v@.skip(i as int), remaining@).0,
            spec_fill(v@, target).1 == spec_fill(v@.skip(i as int), remaining@).1,
        decreases v.len() - i,
    {
        proof {
            assert(level_valid(v@[i as int]));
            assert(v@.skip(i as int)[0] == v@[i as int]);
            assert(v@.skip(i as int).drop_first() =~= v@.skip(i + 1 as int));
        }
        if remaining.is_zero() {
            proof {
                assert(spec_fill(v@.skip(i as int), 0) == (0int, 0int));
                assert(spec_fill(v@.skip(i + 1 as int), 0) == (0int, 0int));
            }
            i = i + 1;
        } else {
            let available = v[i].quantity.min(remaining);
            proof {
                lemma_cost_step_bound(min_int(v@[i as int].quantity@, remaining@), v@[i as int].price@);
                assert(abs_int(available@) * abs_int(v@[i as int].price@) <= i128::MAX)
                    by (nonlinear_arith)
                    requires
                        0 <= available@ <= MAX_UNIT_MANTISSA as int,
                        0 < v@[i as int].price@ <= MAX_UNIT_MANTISSA as int,
                        MAX_UNIT_MANTISSA == 1_000_000_000_000_000_000i128,
                ;
                assert((target - remaining@) * (SCALE_FACTOR as int) + available@ * (
                SCALE_FACTOR as int) == (target - (remaining@ - available@)) * (SCALE_FACTOR as int))
                    by (nonlinear_arith)
                ;
            }
            let cost = available.mul(v[i].price);
            acc = acc.add(cost);
            remaining = remaining.sub(available);
            i = i + 1;
        }
    }
    proof {
        assert(v@.skip(v@.len() as int) =~= Seq::<PriceLevel>::empty());
    }
    if remaining.is_zero() {
        Some(acc)
    } else {
        None
    }
}

/// The smaller of two integers.
pub open spec fn min_int(a: int, b: int) -> int {
    if a <= b {
        a
    } else {
        b
    }
}

/// The level count a depth request asks for: an absent depth means the
/// book's own retained depth.
pub open spec fn spec_depth_limit(d: Option<usize>, max_depth: int) -> int {
    match d {
        Some(x) => x as int,
        None => max_depth,
    }
}

/// Total quantity resting in a sequence of levels.
pub open spec fn spec_sum_qty(s: Seq<PriceLevel>) -> int
    decreases s.len(),
{
    if s.len() == 0 {
        0
    } else {
        spec_sum_qty(s.drop_last()) + s.last().quantity@
    }
}

/// The sum of valid quantities is bounded by one billion units per level.
pub proof fn lemma_sum_qty_bounds(s: Seq<PriceLevel>)
    requires
        all_levels_valid(s),
    ensures
        0 <= spec_sum_qty(s) <= s.len() * (MAX_UNIT_MANTISSA as int),
    decreases s.len(),
{
    if s.len() > 0 {
        assert(all_levels_valid(s.drop_last()));
        assert(level_valid(s[s.len() - 1]));
        lemma_sum_qty_bounds(s.drop_last());
    }
}

/// Bid levels at or above a threshold price.
pub open spec fn pred_bid_liq(p: int) -> spec_fn(PriceLevel) -> bool {
    |l: PriceLevel| l.price@ >= p
}

/// Ask levels at or below a threshold price.
pub open spec fn pred_ask_liq(p: int) -> spec_fn(PriceLevel) -> bool {
    |l: PriceLevel| l.price@ <= p
}

/// Walking a side from the best price outward: the cost of consuming up to
/// `remaining` units and what is still unfilled afterwards.
pub open spec fn spec_fill(s: Seq<PriceLevel>, remaining: int) -> (int, int)
    decreases s.len(),
{
    if remaining <= 0 || s.len() == 0 {
        (0, remaining)
    } else {
        let take_q = min_int(s[0].quantity@, remaining);
        let rest = spec_fill(s.drop_first(), remaining - take_q);
        (scaled_mul(take_q, s[0].price@) + rest.0, rest.1)
    }
}

/// One fill step's cost is non-negative and at most the consumed quantity
/// times one unit of price headroom.
pub proof fn lemma_cost_step_bound(q: int, p: int)
    requires
        0 <= q,
        0 < p <= MAX_UNIT_MANTISSA as int,
    ensures
        0 <= scaled_mul(q, p) <= q * (SCALE_FACTOR as int),
{
    let x = q * p;
    crate::fixed::lemma_mul_sign(q, p);
    assert(x <= q * (MAX_UNIT_MANTISSA as int)) by (nonlinear_arith)
        requires
            x == q * p,
            0 <= q,
            0 < p <= MAX_UNIT_MANTISSA as int,
    ;
    assert(x >= 0);
    crate::fixed::lemma_div_le_dividend(x, SCALE_FACTOR as int);
    assert(x / (SCALE_FACTOR as int) <= (q * (MAX_UNIT_MANTISSA as int)) / (SCALE_FACTOR as int))
        by (nonlinear_arith)
        requires
            0 <= x <= q * (MAX_UNIT_MANTISSA as int),
            SCALE_FACTOR == 1_000_000_000i128,
    ;
    assert((q * (MAX_UNIT_MANTISSA as int)) / (SCALE_FACTOR as int) == q * (SCALE_FACTOR as int))
        by (nonlinear_arith)
        requires
            MAX_UNIT_MANTISSA == 1_000_000_000_000_000_000i128,
            SCALE_FACTOR == 1_000_000_000i128,
            0 <= q,
    ;
}

/// Bounds on a whole fill walk over valid levels: cost and leftover stay in
/// range, and the leftover never exceeds the request.
pub proof fn lemma_fill_bounds(s: Seq<PriceLevel>, remaining: int)
    requires
        all_levels_valid(s),
        remaining >= 0,
    ensures
        0 <= spec_fill(s, remaining).1 <= remaining,
        0 <= spec_fill(s, remaining).0 <= (remaining - spec_fill(s, remaining).1) * (
        SCALE_FACTOR as int),
    decreases s.len(),
{
    if remaining <= 0 || s.len() == 0 {
    } else {
        assert(level_valid(s[0]));
        let take_q = min_int(s[0].quantity@, remaining);
        assert(all_levels_valid(s.drop_first())) by {
            assert forall|i: int| 0 <= i < s.drop_first().len() implies level_valid(
                #[trigger] s.drop_first()[i],
            ) by {
                assert(s.drop_first()[i] == s[i + 1]);
            }
        }
        lemma_fill_bounds(s.drop_first(), remaining - take_q);
        lemma_cost_step_bound(take_q, s[0].price@);
        let rest = spec_fill(s.drop_first(), remaining - take_q);
        assert(take_q * (SCALE_FACTOR as int) + (remaining - take_q - rest.1) * (
        SCALE_FACTOR as int) == (remaining - rest.1) * (SCALE_FACTOR as int)) by (nonlinear_arith);
    }
}

/// Seed of the book checksum fold.
pub const CHECKSUM_SEED: u32 = 2166136261;

/// A whole side rebuilt by inserting the given levels in order into an empty
/// side (later duplicates of a price overwrite earlier ones).
pub open spec fn spec_replace_side(levels: Seq<PriceLevel>, is_bid: bool) -> Seq<PriceLevel> {
    spec_apply_levels(Seq::empty(), levels, is_bid)
}

/// Folding a list of levels into a side by repeated insertion.
pub open spec fn spec_apply_levels(
    acc: Seq<PriceLevel>,
    levels: Seq<PriceLevel>,
    is_bid: bool,
) -> Seq<PriceLevel>
    decreases levels.len(),
{
    if levels.len() == 0 {
        acc
    } else {
        spec_apply_levels(spec_upsert(acc, levels[0], is_bid), levels.drop_first(), is_bid)
    }
}

/// Repeated insertion preserves sortedness and validity and bounds the length.
pub proof fn lemma_apply_levels_props(acc: Seq<PriceLevel>, levels: Seq<PriceLevel>, is_bid: bool)
    requires
        side_sorted(acc, is_bid),
        all_levels_valid(acc),
        all_levels_valid(levels),
    ensures
        side_sorted(spec_apply_levels(acc, levels, is_bid), is_bid),
        all_levels_valid(spec_apply_levels(acc, levels, is_bid)),
        spec_apply_levels(acc, levels, is_bid).len() <= acc.len() + levels.len(),
    decreases levels.len(),
{
    if levels.len() > 0 {
        assert(level_valid(levels[0]));
        lemma_upsert_props(acc, levels[0], is_bid);
        assert(all_levels_valid(levels.drop_first())) by {
            assert forall|i: int| 0 <= i < levels.drop_first().len() implies level_valid(
                #[trigger] levels.drop_first()[i],
            ) by {
                assert(levels.drop_first()[i] == levels[i + 1]);
            }
        }
        lemma_apply_levels_props(spec_upsert(acc, levels[0], is_bid), levels.drop_first(), is_bid);
    }
}

/// The sequence counter after `n` more messages.
pub open spec fn wrap_add_u64(s: u64, n: nat) -> u64
    decreases n,
{
    if n == 0 {
        s
    } else {
        wrap_inc(wrap_add_u64(s, (n - 1) as nat))
    }
}

/// The level a single update instruction installs, given its stamp.
pub open spec fn spec_update_level(u: OrderBookUpdate, ts: u64) -> PriceLevel {
    PriceLevel {
        price: u.price,
        quantity: u.quantity,
        order_count: spec_count(u.order_count),
        last_updated: ts,
    }
}

/// Both sides after a batch of updates, each stamped from `tss` in order.
pub open spec fn spec_apply_updates(
    b: Seq<PriceLevel>,
    a: Seq<PriceLevel>,
    ups: Seq<OrderBookUpdate>,
    tss: Seq<u64>,
    depth: int,
) -> (Seq<PriceLevel>, Seq<PriceLevel>)
    decreases ups.len(),
{
    if ups.len() == 0 {
        (b, a)
    } else {
        let prev = spec_apply_updates(b, a, ups.drop_last(), tss.drop_last(), depth);
        let l = spec_update_level(ups.last(), tss.last());
        if ups.last().side == Side::Bid {
            (spec_update_one(prev.0, l, true, depth), prev.1)
        } else {
            (prev.0, spec_update_one(prev.1, l, false, depth))
        }
    }
}

/// Builds a whole sorted side from a list of levels.
fn replace_side_impl(levels: &Vec<PriceLevel>, is_bid: bool) -> (out: Vec<PriceLevel>)
    requires
        all_levels_valid(levels@),
    ensures
        out@ == spec_replace_side(levels@, is_bid),
        side_sorted(out@, is_bid),
        all_levels_valid(out@),
        out@.len() <= levels@.len(),
{
    let mut out: Vec<PriceLevel> = Vec::new();
    let mut i: usize = 0;
    proof {
        assert(levels@.skip(0) =~= levels@);
    }
    while i < levels.len()
        invariant
            i <= levels@.len(),
            all_levels_valid(levels@),
            side_sorted(out@, is_bid),
            all_levels_valid(out@),
            out@.len() <= i,
            spec_apply_levels(out@, levels@.skip(i as int), is_bid) == spec_replace_side(
                levels@,
                is_bid,
            ),
        decreases levels.len() - i,
    {
        proof {
            assert(level_valid(levels@[i as int]));
            assert(levels@.skip(i as int)[0] == levels@[i as int]);
            assert(levels@.skip(i as int).drop_first() =~= levels@.skip(i + 1 as int));
            lemma_upsert_props(out@, levels@[i as int], is_bid);
        }
        out = side_upsert(&out, levels[i], is_bid);
        i = i + 1;
    }
    out
}

/// True exactly when every level of the list is valid.
pub(crate) fn check_levels_valid(v: &Vec<PriceLevel>) -> (r: bool)
    ensures
        r == all_levels_valid(v@),
{
    let top: Decimal = max_unit_value();
    let mut i: usize = 0;
    while i < v.len()
        invariant
            i <= v.len(),
            top@ == MAX_UNIT_MANTISSA as int,
            forall|k: int| 0 <= k < i ==> level_valid(#[trigger] v@[k]),
        decreases v.len() - i,
    {
        let l = v[i];
        if l.price.le(Decimal::zero()) || l.price.gt(top) || l.quantity.le(Decimal::zero())
            || l.quantity.gt(top) {
            proof {
                assert(!level_valid(v@[i as int]));
            }
            return false;
        }
        i = i + 1;
    }
    true
}

/// The directed difference a slippage figure is built from: how much worse
/// the average fill price is than the best quote, in the side's own
/// unfavourable direction.
pub open spec fn spec_slip_diff(is_bid: bool, best: int, avg: int) -> int {
    if is_bid {
        best - avg
    } else {
        avg - best
    }
}

/// An average fill price over valid levels never exceeds one billion units.
pub proof fn lemma_avg_price_bound(cost: int, q: int)
    requires
        0 < q <= MAX_UNIT_MANTISSA as int,
        0 <= cost <= q * (SCALE_FACTOR as int),
    ensures
        0 <= scaled_div(cost, q) <= MAX_UNIT_MANTISSA as int,
{
    let s = SCALE_FACTOR as int;
    crate::fixed::lemma_mul_sign(cost, s);
    crate::fixed::lemma_div_le_dividend(cost * s, q);
    assert(cost * s <= (q * s) * s) by (nonlinear_arith)
        requires
            0 <= cost <= q * s,
            s > 0,
    ;
    assert((cost * s) / q <= ((q * s) * s) / q) by (nonlinear_arith)
        requires
            0 <= cost * s <= (q * s) * s,
            q > 0,
    ;
    assert(((q * s) * s) / q == s * s) by (nonlinear_arith)
        requires
            q > 0,
    ;
    assert(s * s == MAX_UNIT_MANTISSA as int) by (nonlinear_arith)
        requires
            s == 1_000_000_000,
            MAX_UNIT_MANTISSA == 1_000_000_000_000_000_000i128,
    ;
}

/// One step of the checksum fold: multiply by 31 and add a chunk, wrapping.
pub open spec fn wstep(h: u32, x: u32) -> u32 {
    ((((h * 31) % 0x1_0000_0000) + x) % 0x1_0000_0000) as u32
}

/// The low 32-bit chunk of a mantissa's magnitude.
pub open spec fn lo32(v: int) -> u32 {
    (abs_int(v) % 0x1_0000_0000) as u32
}

/// The high 32-bit chunk of a mantissa's magnitude.
pub open spec fn hi32(v: int) -> u32 {
    ((abs_int(v) / 0x1_0000_0000) % 0x1_0000_0000) as u32
}

/// Folding one level's price and quantity chunks into the checksum.
pub open spec fn spec_hash_level(h: u32, l: PriceLevel) -> u32 {
    wstep(wstep(wstep(wstep(h, lo32(l.price@)), hi32(l.price@)), lo32(l.quantity@)), hi32(l.quantity@))
}

/// Folding a sequence of levels into the checksum, best level first.
pub open spec fn spec_hash_side(h: u32, s: Seq<PriceLevel>) -> u32
    decreases s.len(),
{
    if s.len() == 0 {
        h
    } else {
        spec_hash_side(spec_hash_level(h, s[0]), s.drop_first())
    }
}

/// The deterministic checksum of the top ten levels of both sides.
pub open spec fn spec_book_checksum(bids: Seq<PriceLevel>, asks: Seq<PriceLevel>) -> u32 {
    spec_hash_side(
        spec_hash_side(CHECKSUM_SEED, bids.take(min_int(10, bids.len() as int))),
        asks.take(min_int(10, asks.len() as int)),
    )
}

/// One exec step of the checksum fold.
fn wstep_exec(h: u32, x: u32) -> (r: u32)
    ensures
        r == wstep(h, x),
{
    h.wrapping_mul(31).wrapping_add(x)
}

/// Folds one level into the running checksum.
fn hash_level(h: u32, l: &PriceLevel) -> (r: u32)
    requires
        level_valid(*l),
    ensures
        r == spec_hash_level(h, *l),
{
    proof {
        assert(abs_int(l.price@) < 0x1_0000_0000_0000_0000) by (nonlinear_arith)
            requires
                0 < l.price@ <= 1_000_000_000_000_000_000i128,
        ;
        assert(abs_int(l.quantity@) < 0x1_0000_0000_0000_0000) by (nonlinear_arith)
            requires
                0 < l.quantity@ <= 1_000_000_000_000_000_000i128,
        ;
    }
    let (plo, phi, _psign) = l.price.split_u32();
    let (qlo, qhi, _qsign) = l.quantity.split_u32();
    proof {
        assert(phi == hi32(l.price@)) by (nonlinear_arith)
            requires
                phi == abs_int(l.price@) / 0x1_0000_0000,
                0 <= abs_int(l.price@) < 0x1_0000_0000_0000_0000,
                hi32(l.price@) == (abs_int(l.price@) / 0x1_0000_0000) % 0x1_0000_0000,
        ;
        assert(qhi == hi32(l.quantity@)) by (nonlinear_arith)
            requires
                qhi == abs_int(l.quantity@) / 0x1_0000_0000,
                0 <= abs_int(l.quantity@) < 0x1_0000_0000_0000_0000,
                hi32(l.quantity@) == (abs_int(l.quantity@) / 0x1_0000_0000) % 0x1_0000_0000,
        ;
    }
    wstep_exec(wstep_exec(wstep_exec(wstep_exec(h, plo), phi), qlo), qhi)
}

/// Folds a whole side into the running checksum.
fn hash_side(h0: u32, v: &Vec<PriceLevel>) -> (r: u32)
    requires
        all_levels_valid(v@),
    ensures
        r == spec_hash_side(h0, v@),
{
    let mut h: u32 = h0;
    let mut i: usize = 0;
    proof {
        assert(v@.skip(0) =~= v@);
    }
    while i < v.len()
        invariant
            i <= v.len(),
            all_levels_valid(v@),
            spec_hash_side(h0, v@) == spec_hash_side(h, v@.skip(i as int)),
        decreases v.len() - i,
    {
        proof {
            assert(level_valid(v@[i as int]));
            assert(v@.skip(i as int)[0] == v@[i as int]);
            assert(v@.skip(i as int).drop_first() =~= v@.skip(i + 1 as int));
        }
        h = hash_level(h, &v[i]);
        i = i + 1;
    }
    h
}

/// A quotient of two valid magnitudes stays well within the multiplication
/// range that basis-point scaling needs.
pub proof fn lemma_scaled_div_bound(a: int, b: int)
    requires
        abs_int(a) <= 2 * (MAX_UNIT_MANTISSA as int),
        b != 0,
    ensures
        abs_int(scaled_div(a, b)) <= 2_000_000_000_000_000_000_000_000_000,
        abs_int(scaled_div(a, b)) * 10000 <= i128::MAX,
        scaled_div(a, b) > i128::MIN,
{
    let s = SCALE_FACTOR as int;
    let q = abs_int(a * s) / abs_int(b);
    crate::fixed::lemma_mul_sign(a, s);
    assert(abs_int(a) * s <= 2_000_000_000_000_000_000_000_000_000) by (nonlinear_arith)
        requires
            abs_int(a) <= 2_000_000_000_000_000_000,
            s == 1_000_000_000,
    ;
    crate::fixed::lemma_div_le_dividend(abs_int(a * s), abs_int(b));
    assert(abs_int(scaled_div(a, b)) <= abs_int(a * s));
    assert(abs_int(scaled_div(a, b)) * 10000 <= 2_000_000_000_000_000_000_000_000_000 * 10000)
        by (nonlinear_arith)
        requires
            abs_int(scaled_div(a, b)) <= 2_000_000_000_000_000_000_000_000_000,
    ;
}

} // verus!
