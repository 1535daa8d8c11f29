//! The order-book registry: one book per venue and symbol.
//!
//! The registry is the sole owner and point of creation of books. Creation
//! is idempotent, snapshot and batch ingestion resolve or create the target
//! book and mutate it atomically, and a health check reports how many books
//! are held, empty, or crossed. An optional bounded cache can sit in front
//! for read-mostly consumers.

use vstd::prelude::*;

use crate::assoc::{
    assoc_find, lemma_assoc_append, lemma_assoc_found, lemma_assoc_none, lemma_assoc_remove,
};
use crate::book::{
    all_levels_valid, books_equal, price_input_valid, qty_input_valid, spec_apply_updates,
    spec_replace_side, spec_trim, wrap_add_u64, wrap_inc, FastOrderBook, OrderBookSnapshot,
    OrderBookUpdate, MAX_BOOK_DEPTH,
};
use crate::cache::{
    lemma_pair_key_eq_rel, pair_key_eq, pair_key_eq_fn, spec_cache_find, OrderBookCache,
};
use crate::types::{venue_key_eq, ArbFinderError, Symbol, VenueId};

verus! {

/// The book registered under a venue and symbol, if any.
pub open spec fn spec_mgr_book(
    s: Seq<((VenueId, Symbol), FastOrderBook)>,
    v: VenueId,
    sym: Symbol,
) -> Option<FastOrderBook> {
    assoc_find(s, pair_key_eq_fn(), (v, sym))
}

/// Counts of held, empty and crossed books.
#[derive(Debug, Clone, Copy, PartialEq, Eq, Structural)]
pub struct ManagerHealthStatus {
    pub total_books: usize,
    pub empty_books: usize,
    pub crossed_books: usize,
    pub healthy: bool,
}

/// How many registered books are entirely empty.
pub open spec fn spec_count_empty(s: Seq<((VenueId, Symbol), FastOrderBook)>) -> int
    decreases s.len(),
{
    if s.len() == 0 {
        0
    } else {
        spec_count_empty(s.drop_last()) + (if s.last().1.bids@.len() == 0
            && s.last().1.asks@.len() == 0 {
            1int
        } else {
            0int
        })
    }
}

/// How many registered books are crossed.
pub open spec fn spec_count_crossed(s: Seq<((VenueId, Symbol), FastOrderBook)>) -> int
    decreases s.len(),
{
    if s.len() == 0 {
        0
    } else {
        spec_count_crossed(s.drop_last()) + (if s.last().1.bids@.len() > 0
            && s.last().1.asks@.len() > 0 && s.last().1.bids@[0].price@
            >= s.last().1.asks@[0].price@ {
            1int
        } else {
            0int
        })
    }
}

/// Filtering uniquely-keyed, well-formed entries keeps both properties.
proof fn lemma_entries_filter_ok(
    s: Seq<((VenueId, Symbol), FastOrderBook)>,
    pred: spec_fn(((VenueId, Symbol), FastOrderBook)) -> bool,
)
    requires
        forall|p: int, q: int|
            #![trigger s[p], s[q]]
            0 <= p < q < s.len() ==> !(pair_key_eq_fn())(s[p].0, s[q].0),
        forall|k: int| 0 <= k < s.len() ==> (#[trigger] s[k]).1.wf(),
    ensures
        forall|p: int, q: int|
            #![trigger s.filter(pred)[p], s.filter(pred)[q]]
            0 <= p < q < s.filter(pred).len() ==> !(pair_key_eq_fn())(
                s.filter(pred)[p].0,
                s.filter(pred)[q].0,
            ),
        forall|k: int| 0 <= k < s.filter(pred).len() ==> (#[trigger] s.filter(pred)[k]).1.wf(),
        s.filter(pred).len() <= s.len(),
    decreases s.len(),
{
    reveal(Seq::filter);
    s.lemma_filter_len(pred);
    if s.len() > 0 {
        let dl = s.drop_last();
        let last = s.last();
        assert(forall|p: int, q: int|
            #![trigger dl[p], dl[q]]
            0 <= p < q < dl.len() ==> !(pair_key_eq_fn())(dl[p].0, dl[q].0));
        assert(forall|k: int| 0 <= k < dl.len() ==> (#[trigger] dl[k]).1.wf());
        lemma_entries_filter_ok(dl, pred);
        let f = s.filter(pred);
        let fdl = dl.filter(pred);
        if pred(last) {
            assert(f == fdl.push(last));
            assert forall|p: int, q: int|
                #![trigger f[p], f[q]]
                0 <= p < q < f.len() implies !(pair_key_eq_fn())(f[p].0, f[q].0) by {
                if q < f.len() - 1 {
                    assert(f[p] == fdl[p] && f[q] == fdl[q]);
                } else {
                    assert(f[q] == last);
                    assert(fdl[p] == f[p]);
                    assert(fdl.contains(f[p]));
                    dl.lemma_filter_contains_rev(pred, f[p]);
                    let k = choose|k: int| 0 <= k < dl.len() && dl[k] == f[p];
                    assert(!(pair_key_eq_fn())(s[k].0, s[s.len() - 1].0));
                }
            }
            assert forall|k: int| 0 <= k < f.len() implies (#[trigger] f[k]).1.wf() by {
                if k < f.len() - 1 {
                    assert(f[k] == fdl[k]);
                } else {
                    assert(f[k] == last);
                    assert(s[s.len() - 1] == last);
                }
            }
        } else {
            assert(f == fdl);
        }
    }
}

/// After a successful batch: the target book's sides are the fold of the
/// updates over its previous sides (empty for a fresh book) under some
/// per-update stamps, and its sequence advanced once per instruction.
pub open spec fn updates_applied(
    old_books: Seq<((VenueId, Symbol), FastOrderBook)>,
    new_books: Seq<((VenueId, Symbol), FastOrderBook)>,
    v: VenueId,
    sym: Symbol,
    updates: Seq<OrderBookUpdate>,
    new_depth: int,
) -> bool {
    let b0_bids = match spec_mgr_book(old_books, v, sym) {
        Some(ob) => ob.bids@,
        None => Seq::<crate::book::PriceLevel>::empty(),
    };
    let b0_asks = match spec_mgr_book(old_books, v, sym) {
        Some(ob) => ob.asks@,
        None => Seq::<crate::book::PriceLevel>::empty(),
    };
    let b0_seq = match spec_mgr_book(old_books, v, sym) {
        Some(ob) => ob.sequence,
        None => 0u64,
    };
    let d = match spec_mgr_book(old_books, v, sym) {
        Some(ob) => ob.max_depth as int,
        None => new_depth,
    };
    spec_mgr_book(new_books, v, sym) matches Some(b) && b.sequence == wrap_add_u64(
        b0_seq,
        updates.len() as nat,
    ) && exists|tss: Seq<u64>|
        tss.len() == updates.len() && (b.bids@, b.asks@) == spec_apply_updates(
            b0_bids,
            b0_asks,
            updates,
            tss,
            d,
        )
}

/// Every name in `vs` is distinct and comes from some registered book.
pub open spec fn venues_sound(
    books: Seq<((VenueId, Symbol), FastOrderBook)>,
    vs: Seq<VenueId>,
) -> bool {
    &&& forall|p: int, q: int|
        #![trigger vs[p], vs[q]]
        0 <= p < q < vs.len() ==> !venue_key_eq(vs[p], vs[q])
    &&& forall|j: int|
        0 <= j < vs.len() ==> exists|k: int|
            0 <= k < books.len() && venue_key_eq(#[trigger] vs[j], books[k].0.0)
}

/// Every one of the first `n` registered books has its venue named in `vs`.
pub open spec fn venues_complete_upto(
    books: Seq<((VenueId, Symbol), FastOrderBook)>,
    vs: Seq<VenueId>,
    n: int,
) -> bool {
    forall|k: int|
        0 <= k < n ==> exists|j: int|
            0 <= j < vs.len() && venue_key_eq((#[trigger] books[k]).0.0, vs[j])
}

/// `vs` names each venue of `books` exactly once: its entries are pairwise
/// distinct, every registered venue appears, and nothing else does.
pub open spec fn venues_cover(
    books: Seq<((VenueId, Symbol), FastOrderBook)>,
    vs: Seq<VenueId>,
) -> bool {
    &&& venues_sound(books, vs)
    &&& venues_complete_upto(books, vs, books.len() as int)
}

/// True exactly when some listed venue matches the given one.
fn venue_list_contains(out: &Vec<VenueId>, v: &VenueId) -> (r: bool)
    ensures
        r == (exists|m: int| 0 <= m < out@.len() && venue_key_eq(*v, #[trigger] out@[m])),
{
    let mut j: usize = 0;
    while j < out.len()
        invariant
            j <= out@.len(),
            forall|m: int| 0 <= m < j ==> !venue_key_eq(*v, #[trigger] out@[m]),
        decreases out.len() - j,
    {
        if crate::types::venue_eq(v, &out[j]) {
            proof {
                assert(venue_key_eq(*v, out@[j as int]));
            }
            return true;
        }
        j = j + 1;
    }
    false
}

/// Manages the order books of every venue and symbol pair.
#[derive(Debug)]
pub struct OrderBookManager {
    /// The registered books; keys are pairwise distinct.
    pub books: Vec<((VenueId, Symbol), FastOrderBook)>,
    /// An optional read cache updated on ingestion.
    pub cache: Option<OrderBookCache>,
    /// Depth bound handed to newly created books.
    pub max_depth: usize,
}

impl OrderBookManager {
    /// The registry's standing invariant: distinct keys, well-formed books,
    /// a well-formed cache when present.
    pub open spec fn wf(&self) -> bool {
        &&& forall|p: int, q: int|
            #![trigger self.books@[p], self.books@[q]]
            0 <= p < q < self.books@.len() ==> !(pair_key_eq_fn())(
                self.books@[p].0,
                self.books@[q].0,
            )
        &&& forall|k: int| 0 <= k < self.books@.len() ==> (#[trigger] self.books@[k]).1.wf()
        &&& (match self.cache {
            Some(c) => c.wf(),
            None => true,
        })
    }

    /// The depth bound a book created by this registry actually carries.
    pub open spec fn spec_new_book_depth(&self) -> int {
        if self.max_depth > MAX_BOOK_DEPTH {
            MAX_BOOK_DEPTH as int
        } else {
            self.max_depth as int
        }
    }

    /// An empty registry whose books will retain `max_depth` levels a side.
    pub fn new(max_depth: usize) -> (r: OrderBookManager)
        ensures
            r.wf(),
            r.books@.len() == 0,
            r.cache is None,
            r.max_depth == max_depth,
    {
        OrderBookManager { books: Vec::new(), cache: None, max_depth }
    }

    /// The same registry with a cache in front.
    pub fn with_cache(self, cache: OrderBookCache) -> (r: OrderBookManager)
        requires
            self.wf(),
            cache.wf(),
        ensures
            r.wf(),
            r.books@ == self.books@,
            r.max_depth == self.max_depth,
            r.cache is Some,
    {
        OrderBookManager { books: self.books, cache: Some(cache), max_depth: self.max_depth }
    }

    /// Number of registered books.
    pub fn get_book_count(&self) -> (r: usize)
        ensures
            r == self.books@.len(),
    {
        self.books.len()
    }

    /// True exactly when a book is registered under the venue and symbol.
    pub fn has_book(&self, venue_id: &VenueId, symbol: &Symbol) -> (r: bool)
        ensures
            r == (spec_mgr_book(self.books@, *venue_id, *symbol) is Some),
    {
        let mut i: usize = 0;
        proof {
            assert(self.books@.skip(0) =~= self.books@);
        }
        while i < self.books.len()
            invariant
                i <= self.books@.len(),
                assoc_find(self.books@.skip(i as int), pair_key_eq_fn(), (*venue_id, *symbol))
                    == assoc_find(self.books@, pair_key_eq_fn(), (*venue_id, *symbol)),
            decreases self.books.len() - i,
        {
            proof {
                assert(self.books@.skip(i as int)[0] == self.books@[i as int]);
                assert(self.books@.skip(i as int).drop_first() =~= self.books@.skip(i + 1 as int));
            }
            let key: (VenueId, Symbol) = (venue_id.clone(), symbol.clone());
            if pair_key_eq(&self.books[i].0, &key) {
                return true;
            }
            i = i + 1;
        }
        false
    }

    /// A read handle to the registered book, if any.
    pub fn get_book(&self, venue_id: &VenueId, symbol: &Symbol) -> (r: Option<&FastOrderBook>)
        ensures
            match r {
                Some(b) => spec_mgr_book(self.books@, *venue_id, *symbol) == Some(*b),
                None => spec_mgr_book(self.books@, *venue_id, *symbol) is None,
            },
    {
        let mut i: usize = 0;
        proof {
            assert(self.books@.skip(0) =~= self.books@);
        }
        while i < self.books.len()
            invariant
                i <= self.books@.len(),
                assoc_find(self.books@.skip(i as int), pair_key_eq_fn(), (*venue_id, *symbol))
                    == assoc_find(self.books@, pair_key_eq_fn(), (*venue_id, *symbol)),
            decreases self.books.len() - i,
        {
            proof {
                assert(self.books@.skip(i as int)[0] == self.books@[i as int]);
                assert(self.books@.skip(i as int).drop_first() =~= self.books@.skip(i + 1 as int));
            }
            let key: (VenueId, Symbol) = (venue_id.clone(), symbol.clone());
            if pair_key_eq(&self.books[i].0, &key) {
                return Some(&self.books[i].1);
            }
            i = i + 1;
        }
        None
    }

    /// Ensures a book is registered under the venue and symbol, creating an
    /// empty one when absent; an existing book is untouched (idempotence).
    pub fn get_or_create_book(&mut self, venue_id: VenueId, symbol: Symbol)
        requires
            old(self).wf(),
        ensures
            final(self).wf(),
            final(self).max_depth == old(self).max_depth,
            final(self).cache == old(self).cache,
            spec_mgr_book(final(self).books@, venue_id, symbol) is Some,
            spec_mgr_book(old(self).books@, venue_id, symbol) is Some ==> *final(self) == *old(self),
            spec_mgr_book(old(self).books@, venue_id, symbol) is None ==> (final(self).books@.len()
                == old(self).books@.len() + 1 && (spec_mgr_book(
                final(self).books@,
                venue_id,
                symbol,
            ) matches Some(b) && b.wf() && b.bids@.len() == 0 && b.asks@.len() == 0 && b.sequence
                == 0 && b.symbol == symbol && b.max_depth == old(self).spec_new_book_depth())),
            forall|w: (VenueId, Symbol)|
                !(pair_key_eq_fn())((venue_id, symbol), w) ==> assoc_find(
                    final(self).books@,
                    pair_key_eq_fn(),
                    w,
                ) == assoc_find(old(self).books@, pair_key_eq_fn(), w),
    {
        let ghost bs0 = self.books@;
        let ghost eq = pair_key_eq_fn();
        let key: (VenueId, Symbol) = (venue_id.clone(), symbol.clone());
        let mut i: usize = 0;
        while i < self.books.len()
            invariant
                i <= self.books@.len(),
                *self == *old(self),
                old(self).wf(),
                eq == pair_key_eq_fn(),
                key.0 == venue_id && key.1 == symbol,
                self.books@ == bs0,
                forall|j: int| 0 <= j < i ==> !eq((#[trigger] bs0[j]).0, key),
            decreases self.books.len() - i,
        {
            if pair_key_eq(&self.books[i].0, &key) {
                proof {
                    lemma_pair_key_eq_rel();
                    lemma_assoc_found(bs0, eq, i as int, key);
                }
                return ;
            }
            i = i + 1;
        }
        proof {
            lemma_pair_key_eq_rel();
            lemma_assoc_none(bs0, eq, key);
        }
        let book = FastOrderBook::new(symbol.clone(), Some(self.max_depth));
        self.books.push((key, book));
        proof {
            lemma_assoc_append(bs0, eq, (venue_id, symbol), self.books@[bs0.len() as int].1);
            assert forall|p: int, q: int|
                #![trigger final(self).books@[p], final(self).books@[q]]
                0 <= p < q < final(self).books@.len() implies !eq(
                final(self).books@[p].0,
                final(self).books@[q].0,
            ) by {
                if q < final(self).books@.len() - 1 {
                    assert(final(self).books@[p] == bs0[p] && final(self).books@[q] == bs0[q]);
                } else {
                    assert(final(self).books@[p] == bs0[p]);
                }
            }
            assert forall|k: int| 0 <= k < final(self).books@.len() implies (#[trigger] final(self).books@[k]).1.wf() by {
                if k < final(self).books@.len() - 1 {
                    assert(final(self).books@[k] == bs0[k]);
                }
            }
        }
    }

    /// Removes the book registered under the venue and symbol and hands it
    /// back, if any; every other book stays registered.
    pub fn remove_book(&mut self, venue_id: &VenueId, symbol: &Symbol) -> (r: Option<
        FastOrderBook,
    >)
        requires
            old(self).wf(),
        ensures
            final(self).wf(),
            final(self).max_depth == old(self).max_depth,
            r == spec_mgr_book(old(self).books@, *venue_id, *symbol),
            spec_mgr_book(final(self).books@, *venue_id, *symbol) is None,
            forall|w: (VenueId, Symbol)|
                !(pair_key_eq_fn())((*venue_id, *symbol), w) ==> assoc_find(
                    final(self).books@,
                    pair_key_eq_fn(),
                    w,
                ) == assoc_find(old(self).books@, pair_key_eq_fn(), w),
            r is Some ==> (final(self).cache matches Some(c) ==> spec_cache_find(
                c.entries@,
                *venue_id,
                *symbol,
            ) is None),
            r is None ==> final(self).cache == old(self).cache,
            old(self).cache is None ==> final(self).cache is None,
    {
        let ghost bs0 = self.books@;
        let ghost eq = pair_key_eq_fn();
        let key: (VenueId, Symbol) = (venue_id.clone(), symbol.clone());
        let mut i: usize = 0;
        while i < self.books.len()
            invariant
                i <= self.books@.len(),
                *self == *old(self),
                old(self).wf(),
                eq == pair_key_eq_fn(),
                key.0 == *venue_id && key.1 == *symbol,
                self.books@ == bs0,
                forall|j: int| 0 <= j < i ==> !eq((#[trigger] bs0[j]).0, key),
            decreases self.books.len() - i,
        {
            if pair_key_eq(&self.books[i].0, &key) {
                let ghost hit = i as int;
                let entry = self.books.remove(i);
                if let Some(c) = &mut self.cache {
                    c.invalidate(venue_id, symbol);
                }
                proof {
                    lemma_pair_key_eq_rel();
                    lemma_assoc_found(bs0, eq, hit, key);
                    lemma_assoc_remove(bs0, eq, hit, key);
                    assert forall|p: int, q: int|
                        #![trigger final(self).books@[p], final(self).books@[q]]
                        0 <= p < q < final(self).books@.len() implies !eq(
                        final(self).books@[p].0,
                        final(self).books@[q].0,
                    ) by {
                        let p0 = if p < hit {
                            p
                        } else {
                            p + 1
                        };
                        let q0 = if q < hit {
                            q
                        } else {
                            q + 1
                        };
                        assert(final(self).books@[p] == bs0[p0] && final(self).books@[q]
                            == bs0[q0]);
                    }
                    assert forall|k: int| 0 <= k < final(self).books@.len() implies (#[trigger] final(self).books@[k]).1.wf() by {
                        let k0 = if k < hit {
                            k
                        } else {
                            k + 1
                        };
                        assert(final(self).books@[k] == bs0[k0]);
                    }
                }
                return Some(entry.1);
            }
            i = i + 1;
        }
        proof {
            lemma_pair_key_eq_rel();
            lemma_assoc_none(bs0, eq, key);
        }
        None
    }

    /// Drops every book of one venue.
    pub fn clear_venue(&mut self, venue_id: &VenueId)
        requires
            old(self).wf(),
        ensures
            final(self).wf(),
            final(self).max_depth == old(self).max_depth,
            final(self).books@ == old(self).books@.filter(
                |e: ((VenueId, Symbol), FastOrderBook)| !venue_key_eq(e.0.0, *venue_id),
            ),
    {
        let ghost bs0 = self.books@;
        let ghost pred = |e: ((VenueId, Symbol), FastOrderBook)| !venue_key_eq(e.0.0, *venue_id);
        let mut i: usize = 0;
        let ghost mut p: int = 0;
        proof {
            assert(bs0.take(0).filter(pred) =~= Seq::<((VenueId, Symbol), FastOrderBook)>::empty());
            assert(self.books@ =~= bs0.take(0).filter(pred) + bs0.skip(0));
        }
        loop
            invariant
                0 <= p <= bs0.len(),
                old(self).wf(),
                self.max_depth == old(self).max_depth,
                self.cache == old(self).cache,
                bs0 == old(self).books@,
                pred == (|e: ((VenueId, Symbol), FastOrderBook)| !venue_key_eq(e.0.0, *venue_id)),
                i == bs0.take(p).filter(pred).len(),
                self.books@ == bs0.take(p).filter(pred) + bs0.skip(p),
            ensures
                self.books@ == bs0.take(p).filter(pred),
                p == bs0.len(),
                bs0 == old(self).books@,
                pred == (|e: ((VenueId, Symbol), FastOrderBook)| !venue_key_eq(e.0.0, *venue_id)),
                self.max_depth == old(self).max_depth,
                self.cache == old(self).cache,
            decreases bs0.len() - p,
        {
            if i == self.books.len() {
                proof {
                    bs0.take(p).lemma_filter_len(pred);
                    assert(bs0.skip(p).len() == 0);
                    assert(p == bs0.len());
                    assert(self.books@ =~= bs0.take(p).filter(pred));
                }
                break ;
            }
            proof {
                bs0.take(p).lemma_filter_len(pred);
                assert(self.books@[i as int] == bs0[p]);
                assert(bs0.take(p + 1) =~= bs0.take(p).push(bs0[p]));
                bs0.take(p).lemma_filter_push(bs0[p], pred);
            }
            let keep: bool = !crate::types::venue_eq(&self.books[i].0.0, venue_id);
            if keep {
                proof {
                    assert(self.books@ =~= bs0.take(p + 1).filter(pred) + bs0.skip(p + 1));
                }
                i = i + 1;
            } else {
                let ghost pre = self.books@;
                let _ = self.books.remove(i);
                proof {
                    assert(self.books@ =~= bs0.take(p + 1).filter(pred) + bs0.skip(p + 1));
                }
            }
            proof {
                p = p + 1;
            }
        }
        proof {
            assert(bs0.take(bs0.len() as int) =~= bs0);
            lemma_entries_filter_ok(bs0, pred);
        }
    }

    /// Drops every book (and empties the cache, when present).
    pub fn clear_all(&mut self)
        requires
            old(self).wf(),
        ensures
            final(self).wf(),
            final(self).books@.len() == 0,
            final(self).max_depth == old(self).max_depth,
    {
        self.books = Vec::new();
        if let Some(c) = &mut self.cache {
            c.clear();
        }
    }

    /// Installs a snapshot wholesale into the named book, creating it first
    /// when absent. A snapshot carrying any invalid level is rejected and
    /// nothing changes.
    pub fn apply_snapshot(&mut self, venue_id: VenueId, snapshot: OrderBookSnapshot) -> (r: Result<
        (),
        ArbFinderError,
    >)
        requires
            old(self).wf(),
        ensures
            final(self).wf(),
            final(self).max_depth == old(self).max_depth,
            r is Ok <==> (all_levels_valid(snapshot.bids@) && all_levels_valid(snapshot.asks@)),
            r is Err ==> *final(self) == *old(self),
            r is Ok ==> ({
                let d = match spec_mgr_book(old(self).books@, venue_id, snapshot.symbol) {
                    Some(ob) => ob.max_depth as int,
                    None => old(self).spec_new_book_depth(),
                };
                let s0 = match spec_mgr_book(old(self).books@, venue_id, snapshot.symbol) {
                    Some(ob) => ob.sequence,
                    None => 0u64,
                };
                spec_mgr_book(final(self).books@, venue_id, snapshot.symbol) matches Some(b)
                    && b.bids@ == spec_trim(spec_replace_side(snapshot.bids@, true), d) && b.asks@
                    == spec_trim(spec_replace_side(snapshot.asks@, false), d) && b.sequence
                    == wrap_inc(wrap_inc(s0)) && b.last_update == snapshot.timestamp && b.symbol
                    == snapshot.symbol
            }),
            r is Ok && old(self).cache is None ==> final(self).cache is None,
            r is Ok ==> (final(self).cache matches Some(c) ==> (spec_cache_find(
                c.entries@,
                venue_id,
                snapshot.symbol,
            ) matches Some(e) && (spec_mgr_book(final(self).books@, venue_id, snapshot.symbol)
                matches Some(b) && books_equal(e.book, b)))),
            r is Ok ==> forall|w: (VenueId, Symbol)|
                !(pair_key_eq_fn())((venue_id, snapshot.symbol), w) ==> assoc_find(
                    final(self).books@,
                    pair_key_eq_fn(),
                    w,
                ) == assoc_find(old(self).books@, pair_key_eq_fn(), w),
    {
        if !crate::book::check_levels_valid(&snapshot.bids) || !crate::book::check_levels_valid(
            &snapshot.asks,
        ) {
            return Err(ArbFinderError::InvalidData("Snapshot level is out of range".to_owned()));
        }
        let mut book: FastOrderBook = match self.remove_entry(&venue_id, &snapshot.symbol) {
            Some(b) => b,
            None => FastOrderBook::new(snapshot.symbol.clone(), Some(self.max_depth)),
        };
        let res = snapshot.apply_to_book(&mut book);
        proof {
            assert(res is Ok);
        }
        self.insert_entry(venue_id, snapshot.symbol.clone(), book);
        Ok(())
    }

    /// Applies a batch of updates to the named book, creating it first when
    /// absent. A batch carrying any malformed instruction is rejected and
    /// nothing changes.
    #[verifier::rlimit(60)]
    pub fn apply_updates(
        &mut self,
        venue_id: VenueId,
        symbol: Symbol,
        updates: Vec<OrderBookUpdate>,
    ) -> (r: Result<(), ArbFinderError>)
        requires
            old(self).wf(),
        ensures
            final(self).wf(),
            final(self).max_depth == old(self).max_depth,
            r is Ok <==> (forall|i: int|
                0 <= i < updates@.len() ==> price_input_valid((#[trigger] updates@[i]).price@)
                    && qty_input_valid(updates@[i].quantity@)),
            r is Err ==> *final(self) == *old(self),
            r is Ok ==> updates_applied(
                old(self).books@,
                final(self).books@,
                venue_id,
                symbol,
                updates@,
                old(self).spec_new_book_depth(),
            ),
            r is Ok && old(self).cache is None ==> final(self).cache is None,
            r is Ok ==> (spec_mgr_book(final(self).books@, venue_id, symbol) matches Some(b) && (
            final(self).cache matches Some(c) ==> (spec_cache_find(c.entries@, venue_id, b.symbol)
                matches Some(e) && books_equal(e.book, b)))),
            r is Ok ==> forall|w: (VenueId, Symbol)|
                !(pair_key_eq_fn())((venue_id, symbol), w) ==> assoc_find(
                    final(self).books@,
                    pair_key_eq_fn(),
                    w,
                ) == assoc_find(old(self).books@, pair_key_eq_fn(), w),
    {
        if let Some(bad) = crate::book::first_invalid_update(&updates) {
            return Err(bad);
        }
        let ghost existed = spec_mgr_book(old(self).books@, venue_id, symbol);
        let mut book: FastOrderBook = match self.remove_entry(&venue_id, &symbol) {
            Some(b) => b,
            None => FastOrderBook::new(symbol.clone(), Some(self.max_depth)),
        };
        proof {
            if existed is None {
                assert(book.bids@ =~= Seq::<crate::book::PriceLevel>::empty());
                assert(book.asks@ =~= Seq::<crate::book::PriceLevel>::empty());
            }
        }
        let ghost b0 = book;
        let res = book.batch_update(updates);
        proof {
            assert(res is Ok);
        }
        let ghost bb = book;
        self.insert_entry(venue_id, symbol, book);
        proof {
            let tss = choose|tss: Seq<u64>|
                tss.len() == updates@.len() && (bb.bids@, bb.asks@) == spec_apply_updates(
                    b0.bids@,
                    b0.asks@,
                    updates@,
                    tss,
                    b0.max_depth as int,
                );
            assert(tss.len() == updates@.len() && (bb.bids@, bb.asks@) == spec_apply_updates(
                b0.bids@,
                b0.asks@,
                updates@,
                tss,
                b0.max_depth as int,
            ));
            assert(updates_applied(
                old(self).books@,
                final(self).books@,
                venue_id,
                symbol,
                updates@,
                old(self).spec_new_book_depth(),
            ));
        }
        Ok(())
    }

    /// A point-in-time snapshot of the registered book, if any.
    pub fn get_snapshot(&self, venue_id: &VenueId, symbol: &Symbol) -> (r: Option<
        OrderBookSnapshot,
    >)
        requires
            self.wf(),
        ensures
            match r {
                Some(s) => spec_mgr_book(self.books@, *venue_id, *symbol) matches Some(b)
                    && s.symbol == b.symbol && s.bids@ == b.bids@ && s.asks@ == b.asks@
                    && s.sequence == b.sequence && s.timestamp == b.last_update,
                None => spec_mgr_book(self.books@, *venue_id, *symbol) is None,
            },
    {
        let ghost eq = pair_key_eq_fn();
        let mut i: usize = 0;
        proof {
            assert(self.books@.skip(0) =~= self.books@);
        }
        while i < self.books.len()
            invariant
                i <= self.books@.len(),
                self.wf(),
                assoc_find(self.books@.skip(i as int), pair_key_eq_fn(), (*venue_id, *symbol))
                    == assoc_find(self.books@, pair_key_eq_fn(), (*venue_id, *symbol)),
            decreases self.books.len() - i,
        {
            proof {
                assert(self.books@.skip(i as int)[0] == self.books@[i as int]);
                assert(self.books@.skip(i as int).drop_first() =~= self.books@.skip(i + 1 as int));
            }
            let key: (VenueId, Symbol) = (venue_id.clone(), symbol.clone());
            if pair_key_eq(&self.books[i].0, &key) {
                proof {
                    assert(self.books@[i as int].1.wf());
                }
                return Some(OrderBookSnapshot::from_fast_orderbook(&self.books[i].1));
            }
            i = i + 1;
        }
        None
    }

    /// The venues with at least one registered book, each named once.
    pub fn get_venues(&self) -> (r: Vec<VenueId>)
        ensures
            venues_cover(self.books@, r@),
    {
        let mut out: Vec<VenueId> = Vec::new();
        let mut i: usize = 0;
        while i < self.books.len()
            invariant
                i <= self.books@.len(),
                venues_sound(self.books@, out@),
                venues_complete_upto(self.books@, out@, i as int),
            decreases self.books.len() - i,
        {
            let ghost out0 = out@;
            let ghost cur = self.books@[i as int].0.0;
            let seen: bool = venue_list_contains(&out, &self.books[i].0.0);
            if !seen {
                out.push(self.books[i].0.0.clone());
            }
            proof {
                crate::types::lemma_venue_key_eq_refl(cur);
                if !seen {
                    assert(out@ == out0.push(cur));
                    assert(out@[out@.len() - 1] == cur);
                    assert forall|p: int, q: int|
                        #![trigger out@[p], out@[q]]
                        0 <= p < q < out@.len() implies !venue_key_eq(out@[p], out@[q]) by {
                        if q < out@.len() - 1 {
                            assert(out@[p] == out0[p] && out@[q] == out0[q]);
                        } else {
                            assert(out@[p] == out0[p]);
                            assert(!venue_key_eq(cur, out0[p]));
                            assert(venue_key_eq(out0[p], cur) == venue_key_eq(cur, out0[p]));
                        }
                    }
                    assert forall|jj: int| 0 <= jj < out@.len() implies exists|k: int|
                        0 <= k < self.books@.len() && venue_key_eq(
                            #[trigger] out@[jj],
                            self.books@[k].0.0,
                        ) by {
                        if jj < out0.len() {
                            assert(out@[jj] == out0[jj]);
                            assert(venues_sound(self.books@, out0));
                            let k = choose|k: int|
                                0 <= k < self.books@.len() && venue_key_eq(
                                    out0[jj],
                                    self.books@[k].0.0,
                                );
                            assert(0 <= k < self.books@.len() && venue_key_eq(
                                out@[jj],
                                self.books@[k].0.0,
                            ));
                        } else {
                            assert(out@[jj] == cur);
                            assert(venue_key_eq(out@[jj], self.books@[i as int].0.0));
                        }
                    }
                }
                assert(venues_sound(self.books@, out@));
                assert(venues_complete_upto(self.books@, out0, i as int));
                assert forall|k: int| 0 <= k < i + 1 implies exists|jj: int|
                    0 <= jj < out@.len() && venue_key_eq(
                        (#[trigger] self.books@[k]).0.0,
                        out@[jj],
                    ) by {
                    if k < i {
                        let jj = choose|jj: int|
                            0 <= jj < out0.len() && venue_key_eq(self.books@[k].0.0, out0[jj]);
                        assert(out@[jj] == out0[jj]);
                        assert(venue_key_eq(self.books@[k].0.0, out@[jj]));
                    } else {
                        if seen {
                            let m = choose|m: int|
                                0 <= m < out0.len() && venue_key_eq(cur, out0[m]);
                            assert(out@[m] == out0[m]);
                            assert(venue_key_eq(self.books@[k].0.0, out@[m]));
                        } else {
                            assert(venue_key_eq(self.books@[k].0.0, out@[out@.len() - 1]));
                        }
                    }
                }
                assert(venues_complete_upto(self.books@, out@, i + 1));
            }
            i = i + 1;
        }
        proof {
            assert(i == self.books@.len());
            assert(venues_cover(self.books@, out@));
        }
        out
    }

    /// The symbols of every book one venue has registered, in registry order.
    pub fn get_symbols_for_venue(&self, venue_id: &VenueId) -> (r: Vec<Symbol>)
        ensures
            r@ == self.books@.filter(
                |e: ((VenueId, Symbol), FastOrderBook)| venue_key_eq(e.0.0, *venue_id),
            ).map_values(|e: ((VenueId, Symbol), FastOrderBook)| e.0.1),
    {
        let ghost pred = |e: ((VenueId, Symbol), FastOrderBook)| venue_key_eq(e.0.0, *venue_id);
        let ghost proj = |e: ((VenueId, Symbol), FastOrderBook)| e.0.1;
        let mut out: Vec<Symbol> = Vec::new();
        let mut i: usize = 0;
        proof {
            assert(out@ =~= self.books@.take(0).filter(pred).map_values(proj));
        }
        while i < self.books.len()
            invariant
                i <= self.books@.len(),
                pred == (|e: ((VenueId, Symbol), FastOrderBook)| venue_key_eq(e.0.0, *venue_id)),
                proj == (|e: ((VenueId, Symbol), FastOrderBook)| e.0.1),
                out@ == self.books@.take(i as int).filter(pred).map_values(proj),
            decreases self.books.len() - i,
        {
            proof {
                assert(self.books@.take(i + 1 as int) =~= self.books@.take(i as int).push(
                    self.books@[i as int],
                ));
                self.books@.take(i as int).lemma_filter_push(self.books@[i as int], pred);
            }
            if crate::types::venue_eq(&self.books[i].0.0, venue_id) {
                out.push(self.books[i].0.1.clone());
                proof {
                    assert(out@ =~= self.books@.take(i + 1 as int).filter(pred).map_values(proj));
                }
            } else {
                proof {
                    assert(out@ =~= self.books@.take(i + 1 as int).filter(pred).map_values(proj));
                }
            }
            i = i + 1;
        }
        proof {
            assert(self.books@.take(self.books@.len() as int) =~= self.books@);
        }
        out
    }

    /// Copies of every registered book, each with its venue and symbol, in
    /// registry order.
    pub fn get_all_books(&self) -> (r: Vec<(VenueId, Symbol, FastOrderBook)>)
        ensures
            r@.len() == self.books@.len(),
            forall|k: int|
                0 <= k < r@.len() ==> ((#[trigger] r@[k]).0 == self.books@[k].0.0 && r@[k].1
                    == self.books@[k].0.1 && books_equal(r@[k].2, self.books@[k].1)),
    {
        let mut out: Vec<(VenueId, Symbol, FastOrderBook)> = Vec::new();
        let mut i: usize = 0;
        while i < self.books.len()
            invariant
                i <= self.books@.len(),
                out@.len() == i,
                forall|k: int|
                    0 <= k < i ==> ((#[trigger] out@[k]).0 == self.books@[k].0.0 && out@[k].1
                        == self.books@[k].0.1 && books_equal(out@[k].2, self.books@[k].1)),
            decreases self.books.len() - i,
        {
            out.push(
                (
                    self.books[i].0.0.clone(),
                    self.books[i].0.1.clone(),
                    self.books[i].1.clone(),
                ),
            );
            i = i + 1;
        }
        out
    }

    /// Counts of total, empty and crossed books; healthy exactly when no
    /// book is crossed.
    pub fn health_check(&self) -> (r: ManagerHealthStatus)
        requires
            self.wf(),
        ensures
            r.total_books == self.books@.len(),
            r.empty_books == spec_count_empty(self.books@),
            r.crossed_books == spec_count_crossed(self.books@),
            r.healthy == (spec_count_crossed(self.books@) == 0),
    {
        let mut empty_books: usize = 0;
        let mut crossed_books: usize = 0;
        let mut i: usize = 0;
        while i < self.books.len()
            invariant
                i <= self.books@.len(),
                empty_books <= i,
                crossed_books <= i,
                empty_books == spec_count_empty(self.books@.take(i as int)),
                crossed_books == spec_count_crossed(self.books@.take(i as int)),
            decreases self.books.len() - i,
        {
            proof {
                assert(self.books@.take(i + 1 as int).drop_last() =~= self.books@.take(i as int));
                assert(self.books@.take(i + 1 as int).last() == self.books@[i as int]);
            }
            if self.books[i].1.is_empty() {
                empty_books = empty_books + 1;
            }
            if self.books[i].1.is_crossed() {
                crossed_books = crossed_books + 1;
            }
            i = i + 1;
        }
        proof {
            assert(self.books@.take(self.books@.len() as int) =~= self.books@);
        }
        ManagerHealthStatus {
            total_books: self.books.len(),
            empty_books,
            crossed_books,
            healthy: crossed_books == 0,
        }
    }

    /// Takes the registered book out of the registry, if any (the private
    /// first step of ingestion).
    fn remove_entry(&mut self, venue_id: &VenueId, symbol: &Symbol) -> (r: Option<FastOrderBook>)
        requires
            old(self).wf(),
        ensures
            final(self).wf(),
            final(self).max_depth == old(self).max_depth,
            final(self).cache == old(self).cache,
            r == spec_mgr_book(old(self).books@, *venue_id, *symbol),
            r matches Some(b) ==> b.wf(),
            spec_mgr_book(final(self).books@, *venue_id, *symbol) is None,
            forall|w: (VenueId, Symbol)|
                !(pair_key_eq_fn())((*venue_id, *symbol), w) ==> assoc_find(
                    final(self).books@,
                    pair_key_eq_fn(),
                    w,
                ) == assoc_find(old(self).books@, pair_key_eq_fn(), w),
            forall|j: int|
                0 <= j < final(self).books@.len() ==> !(pair_key_eq_fn())(
                    (#[trigger] final(self).books@[j]).0,
                    (*venue_id, *symbol),
                ),
    {
        let ghost bs0 = self.books@;
        let ghost eq = pair_key_eq_fn();
        let key: (VenueId, Symbol) = (venue_id.clone(), symbol.clone());
        let mut i: usize = 0;
        while i < self.books.len()
            invariant
                i <= self.books@.len(),
                *self == *old(self),
                old(self).wf(),
                eq == pair_key_eq_fn(),
                key.0 == *venue_id && key.1 == *symbol,
                self.books@ == bs0,
                forall|j: int| 0 <= j < i ==> !eq((#[trigger] bs0[j]).0, key),
            decreases self.books.len() - i,
        {
            if pair_key_eq(&self.books[i].0, &key) {
                let ghost hit = i as int;
                let entry = self.books.remove(i);
                proof {
                    lemma_pair_key_eq_rel();
                    lemma_assoc_found(bs0, eq, hit, key);
                    lemma_assoc_remove(bs0, eq, hit, key);
                    assert forall|p: int, q: int|
                        #![trigger final(self).books@[p], final(self).books@[q]]
                        0 <= p < q < final(self).books@.len() implies !eq(
                        final(self).books@[p].0,
                        final(self).books@[q].0,
                    ) by {
                        let p0 = if p < hit {
                            p
                        } else {
                            p + 1
                        };
                        let q0 = if q < hit {
                            q
                        } else {
                            q + 1
                        };
                        assert(final(self).books@[p] == bs0[p0] && final(self).books@[q]
                            == bs0[q0]);
                    }
                    assert forall|k: int| 0 <= k < final(self).books@.len() implies (
                    #[trigger] final(self).books@[k]).1.wf() by {
                        let k0 = if k < hit {
                            k
                        } else {
                            k + 1
                        };
                        assert(final(self).books@[k] == bs0[k0]);
                    }
                    assert forall|j: int| 0 <= j < final(self).books@.len() implies !eq(
                        (#[trigger] final(self).books@[j]).0,
                        key,
                    ) by {
                        let j0 = if j < hit {
                            j
                        } else {
                            j + 1
                        };
                        assert(final(self).books@[j] == bs0[j0]);
                        if j0 > hit {
                            assert(!eq(bs0[hit].0, bs0[j0].0));
                            if eq(bs0[j0].0, key) {
                                assert(eq(bs0[hit].0, key));
                            }
                        }
                    }
                }
                return Some(entry.1);
            }
            i = i + 1;
        }
        proof {
            lemma_pair_key_eq_rel();
            lemma_assoc_none(bs0, eq, key);
        }
        None
    }

    /// Registers a book under a key no current entry matches (the private
    /// second step of ingestion); the book is also offered to the cache.
    fn insert_entry(&mut self, venue_id: VenueId, symbol: Symbol, book: FastOrderBook)
        requires
            old(self).wf(),
            book.wf(),
            forall|j: int|
                0 <= j < old(self).books@.len() ==> !(pair_key_eq_fn())(
                    (#[trigger] old(self).books@[j]).0,
                    (venue_id, symbol),
                ),
        ensures
            final(self).wf(),
            final(self).max_depth == old(self).max_depth,
            spec_mgr_book(final(self).books@, venue_id, symbol) == Some(book),
            forall|w: (VenueId, Symbol)|
                !(pair_key_eq_fn())((venue_id, symbol), w) ==> assoc_find(
                    final(self).books@,
                    pair_key_eq_fn(),
                    w,
                ) == assoc_find(old(self).books@, pair_key_eq_fn(), w),
            old(self).cache is None ==> final(self).cache is None,
            final(self).cache matches Some(c) ==> (spec_cache_find(
                c.entries@,
                venue_id,
                book.symbol,
            ) matches Some(e) && books_equal(e.book, book)),
    {
        let ghost bs0 = self.books@;
        let ghost eq = pair_key_eq_fn();
        if let Some(c) = &mut self.cache {
            let cached_venue = venue_id.clone();
            let cached_book = book.clone();
            let ghost cb = cached_book;
            c.put(cached_venue, cached_book);
            proof {
                assert(cb.symbol == book.symbol);
            }
        }
        let key: (VenueId, Symbol) = (venue_id, symbol);
        self.books.push((key, book));
        proof {
            lemma_pair_key_eq_rel();
            lemma_assoc_append(bs0, eq, final(self).books@[bs0.len() as int].0, final(self).books@[bs0.len() as int].1);
            assert forall|p: int, q: int|
                #![trigger final(self).books@[p], final(self).books@[q]]
                0 <= p < q < final(self).books@.len() implies !eq(
                final(self).books@[p].0,
                final(self).books@[q].0,
            ) by {
                if q < final(self).books@.len() - 1 {
                    assert(final(self).books@[p] == bs0[p] && final(self).books@[q] == bs0[q]);
                } else {
                    assert(final(self).books@[p] == bs0[p]);
                }
            }
            assert forall|k: int| 0 <= k < final(self).books@.len() implies (#[trigger] final(self).books@[k]).1.wf() by {
                if k < final(self).books@.len() - 1 {
                    assert(final(self).books@[k] == bs0[k]);
                }
            }
        }
    }
}

} // verus!
