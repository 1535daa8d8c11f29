//! A bounded, time-expiring cache of order books.
//!
//! Entries are keyed by venue and symbol; reads refresh an entry's access
//! time, a stale entry is dropped on access, and inserting into a full cache
//! evicts the least-recently-used entry. The whole read decision is the
//! verified `get_with_now`, exact for any given clock reading; the clocked
//! `get` draws the reading and states that some reading produced its
//! outcome.

use vstd::prelude::*;

use crate::assoc::{
    assoc_find, eq_rel, lemma_assoc_append, lemma_assoc_found, lemma_assoc_none,
    lemma_assoc_remove, lemma_assoc_update,
};
use crate::book::{books_equal, FastOrderBook};
use crate::time::now_timestamp_ms;
use crate::types::{symbol_key_eq, venue_eq, venue_key_eq, Symbol, VenueId};

verus! {

/// One cached book with its access metadata.
#[derive(Debug)]
pub struct CacheEntry {
    pub book: FastOrderBook,
    pub last_accessed: u64,
    pub access_count: u64,
}

/// Key equality for cache and registry entries: venue and symbol both match.
pub open spec fn pair_key_eq_fn() -> spec_fn((VenueId, Symbol), (VenueId, Symbol)) -> bool {
    |a: (VenueId, Symbol), b: (VenueId, Symbol)| venue_key_eq(a.0, b.0) && symbol_key_eq(a.1, b.1)
}

/// Venue/symbol key equality is an equivalence.
pub proof fn lemma_pair_key_eq_rel()
    ensures
        eq_rel(pair_key_eq_fn()),
{
    let eq = pair_key_eq_fn();
    assert forall|a: (VenueId, Symbol)| #[trigger] eq(a, a) by {
        crate::types::lemma_venue_key_eq_refl(a.0);
    }
    assert forall|a: (VenueId, Symbol), b: (VenueId, Symbol)| #[trigger] eq(a, b) == eq(b, a) by {}
    assert forall|a: (VenueId, Symbol), b: (VenueId, Symbol), c: (VenueId, Symbol)| #[trigger]
        eq(a, b) && #[trigger] eq(b, c) implies eq(a, c) by {}
}

/// Run-time venue/symbol key comparison.
pub fn pair_key_eq(a: &(VenueId, Symbol), b: &(VenueId, Symbol)) -> (r: bool)
    ensures
        r == pair_key_eq_fn()((a.0, a.1), (b.0, b.1)),
{
    let v: bool = venue_eq(&a.0, &b.0);
    let s: bool = a.1.key_eq(&b.1);
    v && s
}

/// The cached entry stored under a key.
pub open spec fn spec_cache_find(
    s: Seq<((VenueId, Symbol), CacheEntry)>,
    v: VenueId,
    sym: Symbol,
) -> Option<CacheEntry> {
    assoc_find(s, pair_key_eq_fn(), (v, sym))
}

/// An entry last touched at `last` is still served at time `now` under the
/// given time-to-live (a clock that moved backwards never expires entries).
pub open spec fn spec_cache_fresh(now: u64, last: u64, ttl: u64) -> bool {
    if now >= last {
        now - last < ttl
    } else {
        true
    }
}

/// Saturating increment of an access count.
pub open spec fn bump_count(c: u64) -> u64 {
    if c == u64::MAX {
        c
    } else {
        (c + 1) as u64
    }
}

/// What one read at clock reading `now` does: a miss changes nothing; a
/// fresh hit returns the stored book and re-stamps the entry; a stale entry
/// is dropped and the read misses. Every other key keeps its entry.
pub open spec fn spec_get_outcome(
    pre: OrderBookCache,
    post: OrderBookCache,
    r: Option<FastOrderBook>,
    v: VenueId,
    sym: Symbol,
    now: u64,
) -> bool {
    &&& post.max_size == pre.max_size
    &&& post.ttl_ms == pre.ttl_ms
    &&& (match assoc_find(pre.entries@, pair_key_eq_fn(), (v, sym)) {
        None => r is None && post.entries@ == pre.entries@,
        Some(e) => if spec_cache_fresh(now, e.last_accessed, pre.ttl_ms) {
            &&& (r matches Some(b) && books_equal(b, e.book))
            &&& (assoc_find(post.entries@, pair_key_eq_fn(), (v, sym)) matches Some(e2)
                && books_equal(e2.book, e.book) && e2.last_accessed == now && e2.access_count
                == bump_count(e.access_count))
            &&& post.entries@.len() == pre.entries@.len()
        } else {
            &&& r is None
            &&& assoc_find(post.entries@, pair_key_eq_fn(), (v, sym)) is None
            &&& post.entries@.len() == pre.entries@.len() - 1
        },
    })
    &&& (forall|w: (VenueId, Symbol)|
        !(pair_key_eq_fn())((v, sym), w) ==> assoc_find(post.entries@, pair_key_eq_fn(), w)
            == assoc_find(pre.entries@, pair_key_eq_fn(), w))
}

/// Usage summary of a cache.
#[derive(Debug, Clone, Copy, PartialEq, Eq, Structural)]
pub struct CacheStats {
    pub size: usize,
    pub max_size: usize,
    pub total_accesses: u64,
    pub oldest_entry: Option<u64>,
    pub newest_entry: Option<u64>,
}

/// Saturating sum of all access counts.
pub open spec fn spec_total_accesses(s: Seq<((VenueId, Symbol), CacheEntry)>) -> u64
    decreases s.len(),
{
    if s.len() == 0 {
        0u64
    } else {
        let rest = spec_total_accesses(s.drop_last());
        if rest + s.last().1.access_count > u64::MAX {
            u64::MAX
        } else {
            (rest + s.last().1.access_count) as u64
        }
    }
}

/// The smallest access stamp of any entry, if any.
pub open spec fn spec_oldest(s: Seq<((VenueId, Symbol), CacheEntry)>) -> Option<u64>
    decreases s.len(),
{
    if s.len() == 0 {
        None
    } else {
        match spec_oldest(s.drop_last()) {
            None => Some(s.last().1.last_accessed),
            Some(m) => if s.last().1.last_accessed < m {
                Some(s.last().1.last_accessed)
            } else {
                Some(m)
            },
        }
    }
}

/// The largest access stamp of any entry, if any.
pub open spec fn spec_newest(s: Seq<((VenueId, Symbol), CacheEntry)>) -> Option<u64>
    decreases s.len(),
{
    if s.len() == 0 {
        None
    } else {
        match spec_newest(s.drop_last()) {
            None => Some(s.last().1.last_accessed),
            Some(m) => if s.last().1.last_accessed > m {
                Some(s.last().1.last_accessed)
            } else {
                Some(m)
            },
        }
    }
}

/// Bounded, time-expiring order-book cache with least-recently-used
/// eviction.
#[derive(Debug)]
pub struct OrderBookCache {
    /// The cached entries; keys are pairwise distinct.
    pub entries: Vec<((VenueId, Symbol), CacheEntry)>,
    /// Largest number of entries retained.
    pub max_size: usize,
    /// How long an untouched entry stays served, in milliseconds.
    pub ttl_ms: u64,
}

impl OrderBookCache {
    /// The cache's standing invariant: distinct keys, size within bound.
    pub open spec fn wf(&self) -> bool {
        &&& forall|p: int, q: int|
            #![trigger self.entries@[p], self.entries@[q]]
            0 <= p < q < self.entries@.len() ==> !(pair_key_eq_fn())(
                self.entries@[p].0,
                self.entries@[q].0,
            )
        &&& self.entries@.len() <= self.max_size
        &&& self.max_size >= 1
    }

    /// An empty cache holding at most `max_size` entries (at least one) for
    /// `ttl_seconds` each (a non-positive time-to-live expires immediately).
    pub fn new(max_size: usize, ttl_seconds: i64) -> (r: OrderBookCache)
        ensures
            r.wf(),
            r.entries@.len() == 0,
            r.max_size == (if max_size >= 1 {
                max_size as int
            } else {
                1int
            }),
            r.ttl_ms == (if ttl_seconds <= 0 {
                0int
            } else if ttl_seconds * 1000 > u64::MAX {
                u64::MAX as int
            } else {
                ttl_seconds * 1000
            }),
    {
        let size: usize = if max_size >= 1 {
            max_size
        } else {
            1
        };
        let ttl: u64 = if ttl_seconds <= 0 {
            0
        } else {
            let ts: u64 = ttl_seconds as u64;
            if ts > u64::MAX / 1000 {
                u64::MAX
            } else {
                proof {
                    assert(ts * 1000 <= (u64::MAX as int / 1000) * 1000) by (nonlinear_arith)
                        requires
                            0 <= ts <= u64::MAX as int / 1000,
                    ;
                }
                ts * 1000
            }
        };
        proof {
            if ttl_seconds > 0 && ttl_seconds as u64 > u64::MAX / 1000 {
                assert(ttl_seconds * 1000 > u64::MAX) by (nonlinear_arith)
                    requires
                        ttl_seconds >= u64::MAX as int / 1000 + 1,
                ;
            }
        }
        OrderBookCache { entries: Vec::new(), max_size: size, ttl_ms: ttl }
    }

    /// Number of live entries.
    pub fn size(&self) -> (r: usize)
        ensures
            r == self.entries@.len(),
    {
        self.entries.len()
    }

    /// Drops every entry.
    pub fn clear(&mut self)
        requires
            old(self).wf(),
        ensures
            final(self).wf(),
            final(self).entries@.len() == 0,
            final(self).max_size == old(self).max_size,
            final(self).ttl_ms == old(self).ttl_ms,
    {
        self.entries = Vec::new();
    }

    /// Drops the entry under one key, if present; every other key keeps its
    /// entry.
    pub fn invalidate(&mut self, venue_id: &VenueId, symbol: &Symbol)
        requires
            old(self).wf(),
        ensures
            final(self).wf(),
            spec_cache_find(final(self).entries@, *venue_id, *symbol) is None,
            forall|w: (VenueId, Symbol)|
                !(pair_key_eq_fn())((*venue_id, *symbol), w) ==> assoc_find(
                    final(self).entries@,
                    pair_key_eq_fn(),
                    w,
                ) == assoc_find(old(self).entries@, pair_key_eq_fn(), w),
            final(self).max_size == old(self).max_size,
            final(self).ttl_ms == old(self).ttl_ms,
    {
        let ghost es0 = self.entries@;
        let ghost eq = pair_key_eq_fn();
        let key: (VenueId, Symbol) = (venue_id.clone(), symbol.clone());
        let mut i: usize = 0;
        while i < self.entries.len()
            invariant
                i <= self.entries@.len(),
                *self == *old(self),
                old(self).wf(),
                eq == pair_key_eq_fn(),
                key.0 == *venue_id && key.1 == *symbol,
                self.entries@ == es0,
                forall|j: int| 0 <= j < i ==> !eq((#[trigger] es0[j]).0, key),
            decreases self.entries.len() - i,
        {
            if pair_key_eq(&self.entries[i].0, &key) {
                let ghost hit = i as int;
                let _ = self.entries.remove(i);
                proof {
                    lemma_pair_key_eq_rel();
                    lemma_assoc_remove(es0, eq, hit, key);
                    lemma_entries_remove_distinct(es0, hit);
                }
                return ;
            }
            i = i + 1;
        }
        proof {
            lemma_assoc_none(es0, eq, key);
            lemma_pair_key_eq_rel();
        }
    }
}

impl OrderBookCache {
    /// One cache read at an explicit clock reading: exactly the outcome
    /// `spec_get_outcome` states for that reading.
    pub fn get_with_now(&mut self, venue_id: &VenueId, symbol: &Symbol, now: u64) -> (r: Option<
        FastOrderBook,
    >)
        requires
            old(self).wf(),
        ensures
            final(self).wf(),
            spec_get_outcome(*old(self), *final(self), r, *venue_id, *symbol, now),
    {
        let ghost es0 = self.entries@;
        let ghost eq = pair_key_eq_fn();
        let key: (VenueId, Symbol) = (venue_id.clone(), symbol.clone());
        let mut i: usize = 0;
        while i < self.entries.len()
            invariant
                i <= self.entries@.len(),
                *self == *old(self),
                old(self).wf(),
                eq == pair_key_eq_fn(),
                key.0 == *venue_id && key.1 == *symbol,
                self.entries@ == es0,
                forall|j: int| 0 <= j < i ==> !eq((#[trigger] es0[j]).0, key),
            decreases self.entries.len() - i,
        {
            if pair_key_eq(&self.entries[i].0, &key) {
                let ghost hit = i as int;
                proof {
                    lemma_pair_key_eq_rel();
                    lemma_assoc_found(es0, eq, hit, key);
                }
                let la: u64 = self.entries[i].1.last_accessed;
                let fresh: bool = if now >= la {
                    now - la < self.ttl_ms
                } else {
                    true
                };
                if fresh {
                    let b: FastOrderBook = self.entries[i].1.book.clone();
                    let ac: u64 = self.entries[i].1.access_count;
                    let new_count: u64 = if ac == u64::MAX {
                        ac
                    } else {
                        ac + 1
                    };
                    let b2: FastOrderBook = b.clone();
                    self.entries.set(
                        i,
                        (key, CacheEntry { book: b2, last_accessed: now, access_count: new_count }),
                    );
                    proof {
                        lemma_assoc_update(
                            es0,
                            eq,
                            hit,
                            (*venue_id, *symbol),
                            self.entries@[hit].1,
                        );
                        assert forall|p: int, q: int|
                            #![trigger self.entries@[p], self.entries@[q]]
                            0 <= p < q < self.entries@.len() implies !eq(
                            self.entries@[p].0,
                            self.entries@[q].0,
                        ) by {
                            if p != hit && q != hit {
                                assert(self.entries@[p] == es0[p] && self.entries@[q] == es0[q]);
                            } else if p == hit {
                                assert(self.entries@[q] == es0[q]);
                                if eq(self.entries@[p].0, self.entries@[q].0) {
                                    assert(eq(es0[hit].0, key));
                                }
                            } else {
                                assert(self.entries@[p] == es0[p]);
                                if eq(self.entries@[p].0, self.entries@[q].0) {
                                    assert(eq(es0[hit].0, key));
                                }
                            }
                        }
                    }
                    return Some(b);
                } else {
                    let _ = self.entries.remove(i);
                    proof {
                        lemma_pair_key_eq_rel();
                        lemma_assoc_remove(es0, eq, hit, key);
                        lemma_entries_remove_distinct(es0, hit);
                    }
                    return None;
                }
            }
            i = i + 1;
        }
        proof {
            lemma_assoc_none(es0, eq, key);
            lemma_pair_key_eq_rel();
        }
        None
    }

    /// A cached book, when the key is present and its entry is still fresh
    /// at the clock reading this call draws: some reading produced exactly
    /// the outcome `spec_get_outcome` states. A miss is not an error; the
    /// caller falls through to the authoritative registry.
    pub fn get(&mut self, venue_id: &VenueId, symbol: &Symbol) -> (r: Option<FastOrderBook>)
        requires
            old(self).wf(),
        ensures
            final(self).wf(),
            exists|now: u64|
                #[trigger] spec_get_outcome(
                    *old(self),
                    *final(self),
                    r,
                    *venue_id,
                    *symbol,
                    now,
                ),
    {
        let now: u64 = now_timestamp_ms();
        let r = self.get_with_now(venue_id, symbol, now);
        proof {
            assert(spec_get_outcome(*old(self), *final(self), r, *venue_id, *symbol, now));
        }
        r
    }

    /// Stores a book under its venue and symbol, re-stamping the entry. When
    /// the cache is full and the key is new, the least-recently-used entry
    /// is evicted first; no other key's entry changes.
    pub fn put(&mut self, venue_id: VenueId, book: FastOrderBook)
        requires
            old(self).wf(),
        ensures
            final(self).wf(),
            final(self).max_size == old(self).max_size,
            final(self).ttl_ms == old(self).ttl_ms,
            (spec_cache_find(final(self).entries@, venue_id, book.symbol) matches Some(e)
                && e.book == book),
            spec_cache_find(old(self).entries@, venue_id, book.symbol) is Some ==> (forall|
                w: (VenueId, Symbol),
            |
                !(pair_key_eq_fn())((venue_id, book.symbol), w) ==> assoc_find(
                    final(self).entries@,
                    pair_key_eq_fn(),
                    w,
                ) == assoc_find(old(self).entries@, pair_key_eq_fn(), w)) && final(self).entries@.len() == old(self).entries@.len(),
            (spec_cache_find(old(self).entries@, venue_id, book.symbol) is None && old(self).entries@.len() < old(self).max_size) ==> (forall|w: (VenueId, Symbol)|
                !(pair_key_eq_fn())((venue_id, book.symbol), w) ==> assoc_find(
                    final(self).entries@,
                    pair_key_eq_fn(),
                    w,
                ) == assoc_find(old(self).entries@, pair_key_eq_fn(), w)) && final(self).entries@.len() == old(self).entries@.len() + 1,
            (spec_cache_find(old(self).entries@, venue_id, book.symbol) is None && old(self).entries@.len() >= old(self).max_size) ==> (final(self).entries@.len() == old(self).entries@.len() && exists|j: int|
                0 <= j < old(self).entries@.len() && (forall|k: int|
                    0 <= k < old(self).entries@.len() ==> (#[trigger] old(
                        self,
                    ).entries@[k]).1.last_accessed >= old(self).entries@[j].1.last_accessed)
                    && (forall|w: (VenueId, Symbol)|
                    !(pair_key_eq_fn())((venue_id, book.symbol), w) && !(pair_key_eq_fn())(
                        (#[trigger] old(self).entries@[j]).0,
                        w,
                    ) ==> assoc_find(final(self).entries@, pair_key_eq_fn(), w) == assoc_find(
                        old(self).entries@,
                        pair_key_eq_fn(),
                        w,
                    ))),
    {
        let ghost eq = pair_key_eq_fn();
        let key: (VenueId, Symbol) = (venue_id, book.symbol.clone());
        let now: u64 = now_timestamp_ms();
        let ghost es0 = self.entries@;
        let mut i: usize = 0;
        while i < self.entries.len()
            invariant
                i <= self.entries@.len(),
                *self == *old(self),
                old(self).wf(),
                eq == pair_key_eq_fn(),
                key.0 == venue_id && key.1 == book.symbol,
                self.entries@ == es0,
                forall|j: int| 0 <= j < i ==> !eq((#[trigger] es0[j]).0, key),
            decreases self.entries.len() - i,
        {
            if pair_key_eq(&self.entries[i].0, &key) {
                let ghost hit = i as int;
                proof {
                    lemma_pair_key_eq_rel();
                    lemma_assoc_found(es0, eq, hit, key);
                }
                self.entries.set(
                    i,
                    (key, CacheEntry { book, last_accessed: now, access_count: 1 }),
                );
                proof {
                    lemma_assoc_update(es0, eq, hit, (venue_id, self.entries@[hit].1.book.symbol), self.entries@[hit].1);
                    assert forall|p: int, q: int|
                        #![trigger self.entries@[p], self.entries@[q]]
                        0 <= p < q < self.entries@.len() implies !eq(
                        self.entries@[p].0,
                        self.entries@[q].0,
                    ) by {
                        if p != hit && q != hit {
                            assert(self.entries@[p] == es0[p] && self.entries@[q] == es0[q]);
                        } else if p == hit {
                            assert(self.entries@[q] == es0[q]);
                            if eq(self.entries@[p].0, self.entries@[q].0) {
                                assert(eq(es0[hit].0, key));
                            }
                        } else {
                            assert(self.entries@[p] == es0[p]);
                            if eq(self.entries@[p].0, self.entries@[q].0) {
                                assert(eq(es0[hit].0, key));
                            }
                        }
                    }
                }
                return ;
            }
            i = i + 1;
        }
        proof {
            lemma_pair_key_eq_rel();
            lemma_assoc_none(es0, eq, key);
        }
        if self.entries.len() >= self.max_size {
            // evict the least-recently-used entry
            let mut best: usize = 0;
            let mut j: usize = 1;
            while j < self.entries.len()
                invariant
                    self.entries@.len() > 0,
                    best < j <= self.entries@.len(),
                    self.entries@ == es0,
                    *self == *old(self),
                    old(self).wf(),
                    eq == pair_key_eq_fn(),
                    forall|k: int|
                        0 <= k < j ==> (#[trigger] es0[k]).1.last_accessed
                            >= es0[best as int].1.last_accessed,
                decreases self.entries.len() - j,
            {
                if self.entries[j].1.last_accessed < self.entries[best].1.last_accessed {
                    best = j;
                }
                j = j + 1;
            }
            let ghost bi = best as int;
            let _ = self.entries.remove(best);
            proof {
                assert(forall|k: int| 0 <= k < bi ==> !eq((#[trigger] es0[k]).0, es0[bi].0));
                lemma_assoc_remove(es0, eq, bi, es0[bi].0);
                lemma_entries_remove_distinct(es0, bi);
                assert forall|k: int| 0 <= k < self.entries@.len() implies !eq(
                    (#[trigger] self.entries@[k]).0,
                    key,
                ) by {
                    let k0 = if k < bi {
                        k
                    } else {
                        k + 1
                    };
                    assert(self.entries@[k] == es0[k0]);
                }
            }
            let ghost es1 = self.entries@;
            self.entries.push((key, CacheEntry { book, last_accessed: now, access_count: 1 }));
            proof {
                lemma_assoc_append(es1, eq, (venue_id, self.entries@[self.entries@.len() - 1].1.book.symbol), self.entries@[self.entries@.len() - 1].1);
                assert forall|p: int, q: int|
                    #![trigger self.entries@[p], self.entries@[q]]
                    0 <= p < q < self.entries@.len() implies !eq(
                    self.entries@[p].0,
                    self.entries@[q].0,
                ) by {
                    if q < self.entries@.len() - 1 {
                        assert(self.entries@[p] == es1[p] && self.entries@[q] == es1[q]);
                    } else {
                        assert(self.entries@[p] == es1[p]);
                    }
                }
            }
        } else {
            let ghost es1 = self.entries@;
            self.entries.push((key, CacheEntry { book, last_accessed: now, access_count: 1 }));
            proof {
                lemma_assoc_append(es1, eq, (venue_id, self.entries@[self.entries@.len() - 1].1.book.symbol), self.entries@[self.entries@.len() - 1].1);
                assert forall|p: int, q: int|
                    #![trigger self.entries@[p], self.entries@[q]]
                    0 <= p < q < self.entries@.len() implies !eq(
                    self.entries@[p].0,
                    self.entries@[q].0,
                ) by {
                    if q < self.entries@.len() - 1 {
                        assert(self.entries@[p] == es1[p] && self.entries@[q] == es1[q]);
                    } else {
                        assert(self.entries@[p] == es1[p]);
                    }
                }
            }
        }
    }

    /// A usage summary: entry count, capacity, saturating total accesses,
    /// and the extreme access stamps.
    pub fn get_stats(&self) -> (r: CacheStats)
        ensures
            r.size == self.entries@.len(),
            r.max_size == self.max_size,
            r.total_accesses == spec_total_accesses(self.entries@),
            r.oldest_entry == spec_oldest(self.entries@),
            r.newest_entry == spec_newest(self.entries@),
    {
        let mut total: u64 = 0;
        let mut oldest: Option<u64> = None;
        let mut newest: Option<u64> = None;
        let mut i: usize = 0;
        while i < self.entries.len()
            invariant
                i <= self.entries@.len(),
                total == spec_total_accesses(self.entries@.take(i as int)),
                oldest == spec_oldest(self.entries@.take(i as int)),
                newest == spec_newest(self.entries@.take(i as int)),
            decreases self.entries.len() - i,
        {
            proof {
                assert(self.entries@.take(i + 1 as int).drop_last() =~= self.entries@.take(
                    i as int,
                ));
                assert(self.entries@.take(i + 1 as int).last() == self.entries@[i as int]);
            }
            let ac: u64 = self.entries[i].1.access_count;
            total = if total > u64::MAX - ac {
                u64::MAX
            } else {
                total + ac
            };
            let la: u64 = self.entries[i].1.last_accessed;
            oldest = match oldest {
                None => Some(la),
                Some(m) => if la < m {
                    Some(la)
                } else {
                    Some(m)
                },
            };
            newest = match newest {
                None => Some(la),
                Some(m) => if la > m {
                    Some(la)
                } else {
                    Some(m)
                },
            };
            i = i + 1;
        }
        proof {
            assert(self.entries@.take(self.entries@.len() as int) =~= self.entries@);
        }
        CacheStats {
            size: self.entries.len(),
            max_size: self.max_size,
            total_accesses: total,
            oldest_entry: oldest,
            newest_entry: newest,
        }
    }
}

/// Removing any entry keeps the remaining keys pairwise distinct.
pub proof fn lemma_entries_remove_distinct(s: Seq<((VenueId, Symbol), CacheEntry)>, i: int)
    requires
        0 <= i < s.len(),
        forall|p: int, q: int|
            #![trigger s[p], s[q]]
            0 <= p < q < s.len() ==> !(pair_key_eq_fn())(s[p].0, s[q].0),
    ensures
        forall|p: int, q: int|
            #![trigger s.remove(i)[p], s.remove(i)[q]]
            0 <= p < q < s.remove(i).len() ==> !(pair_key_eq_fn())(
                s.remove(i)[p].0,
                s.remove(i)[q].0,
            ),
{
    let rem = s.remove(i);
    assert forall|p: int, q: int|
        #![trigger rem[p], rem[q]]
        0 <= p < q < rem.len() implies !(pair_key_eq_fn())(rem[p].0, rem[q].0) by {
        let p0 = if p < i {
            p
        } else {
            p + 1
        };
        let q0 = if q < i {
            q
        } else {
            q + 1
        };
        assert(rem[p] == s[p0] && rem[q] == s[q0]);
    }
}

} // verus!
