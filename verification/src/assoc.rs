//! First-match association sequences.
//!
//! The registry and cache key their entries by venue/symbol pairs. This
//! module states what a first-match lookup finds and how overwriting,
//! appending and removing entries change it, generically over the key and
//! payload types and the key-equality relation.

use vstd::prelude::*;

verus! {

/// The payload of the first entry whose key matches, if any.
pub open spec fn assoc_find<K, T>(s: Seq<(K, T)>, eq: spec_fn(K, K) -> bool, k: K) -> Option<T>
    decreases s.len(),
{
    if s.len() == 0 {
        None
    } else if eq(s[0].0, k) {
        Some(s[0].1)
    } else {
        assoc_find(s.drop_first(), eq, k)
    }
}

/// Key equality relations usable for lookups: reflexive, symmetric and
/// transitive.
pub open spec fn eq_rel<K>(eq: spec_fn(K, K) -> bool) -> bool {
    &&& forall|a: K| #[trigger] eq(a, a)
    &&& forall|a: K, b: K| #[trigger] eq(a, b) == eq(b, a)
    &&& forall|a: K, b: K, c: K| #[trigger] eq(a, b) && #[trigger] eq(b, c) ==> eq(a, c)
}

/// A match at a scanned index pins what the lookup finds.
pub proof fn lemma_assoc_found<K, T>(s: Seq<(K, T)>, eq: spec_fn(K, K) -> bool, i: int, k: K)
    requires
        0 <= i < s.len(),
        eq(s[i].0, k),
        forall|j: int| 0 <= j < i ==> !eq((#[trigger] s[j]).0, k),
    ensures
        assoc_find(s, eq, k) == Some(s[i].1),
    decreases i,
{
    if i > 0 {
        assert(forall|j: int| 0 <= j < i - 1 ==> !eq((#[trigger] s.drop_first()[j]).0, k)) by {
            assert(forall|j: int| 0 <= j < s.drop_first().len() ==> s.drop_first()[j] == s[j + 1]);
        }
        assert(s.drop_first()[i - 1] == s[i]);
        lemma_assoc_found(s.drop_first(), eq, i - 1, k);
    }
}

/// No match anywhere means the lookup finds nothing.
pub proof fn lemma_assoc_none<K, T>(s: Seq<(K, T)>, eq: spec_fn(K, K) -> bool, k: K)
    requires
        forall|j: int| 0 <= j < s.len() ==> !eq((#[trigger] s[j]).0, k),
    ensures
        assoc_find(s, eq, k) is None,
    decreases s.len(),
{
    if s.len() > 0 {
        assert(forall|j: int|
            0 <= j < s.drop_first().len() ==> !eq((#[trigger] s.drop_first()[j]).0, k)) by {
            assert(forall|j: int| 0 <= j < s.drop_first().len() ==> s.drop_first()[j] == s[j + 1]);
        }
        lemma_assoc_none(s.drop_first(), eq, k);
    }
}

/// Overwriting the first matching entry rebinds that key and no other.
pub proof fn lemma_assoc_update<K, T>(
    s: Seq<(K, T)>,
    eq: spec_fn(K, K) -> bool,
    i: int,
    k: K,
    t: T,
)
    requires
        eq_rel(eq),
        0 <= i < s.len(),
        eq(s[i].0, k),
        forall|j: int| 0 <= j < i ==> !eq((#[trigger] s[j]).0, k),
    ensures
        assoc_find(s.update(i, (k, t)), eq, k) == Some(t),
        forall|w: K|
            !eq(k, w) ==> assoc_find(s.update(i, (k, t)), eq, w) == assoc_find(s, eq, w),
    decreases i,
{
    let upd = s.update(i, (k, t));
    if i == 0 {
        assert(eq(upd[0].0, k));
        assert forall|w: K| !eq(k, w) implies assoc_find(upd, eq, w) == assoc_find(s, eq, w) by {
            if eq(s[0].0, w) {
                assert(eq(w, s[0].0));
                assert(eq(w, k));
                assert(eq(k, w));
            }
            if eq(upd[0].0, w) {
                assert(eq(k, w));
            }
            assert(upd.drop_first() =~= s.drop_first());
        }
    } else {
        assert(upd.drop_first() =~= s.drop_first().update(i - 1, (k, t)));
        assert(forall|j: int| 0 <= j < i - 1 ==> !eq((#[trigger] s.drop_first()[j]).0, k)) by {
            assert(forall|j: int| 0 <= j < s.drop_first().len() ==> s.drop_first()[j] == s[j + 1]);
        }
        assert(s.drop_first()[i - 1] == s[i]);
        lemma_assoc_update(s.drop_first(), eq, i - 1, k, t);
        assert(!eq(upd[0].0, k));
        assert(upd[0] == s[0]);
        assert forall|w: K| !eq(k, w) implies assoc_find(upd, eq, w) == assoc_find(s, eq, w) by {
            if !eq(s[0].0, w) {
                assert(assoc_find(upd.drop_first(), eq, w) == assoc_find(s.drop_first(), eq, w));
            }
        }
    }
}

/// Appending an entry for an unbound key binds it and no other.
pub proof fn lemma_assoc_append<K, T>(s: Seq<(K, T)>, eq: spec_fn(K, K) -> bool, k: K, t: T)
    requires
        eq_rel(eq),
        forall|j: int| 0 <= j < s.len() ==> !eq((#[trigger] s[j]).0, k),
    ensures
        assoc_find(s.push((k, t)), eq, k) == Some(t),
        forall|w: K| !eq(k, w) ==> assoc_find(s.push((k, t)), eq, w) == assoc_find(s, eq, w),
    decreases s.len(),
{
    let ext = s.push((k, t));
    assert(ext[s.len() as int] == (k, t));
    if s.len() == 0 {
        assert(eq(ext[0].0, k));
        assert forall|w: K| !eq(k, w) implies assoc_find(ext, eq, w) == assoc_find(s, eq, w) by {
            assert(ext.drop_first() =~= Seq::<(K, T)>::empty());
            assert(assoc_find(ext.drop_first(), eq, w) is None);
        }
    } else {
        assert(ext.drop_first() =~= s.drop_first().push((k, t)));
        assert(forall|j: int|
            0 <= j < s.drop_first().len() ==> !eq((#[trigger] s.drop_first()[j]).0, k)) by {
            assert(forall|j: int| 0 <= j < s.drop_first().len() ==> s.drop_first()[j] == s[j + 1]);
        }
        lemma_assoc_append(s.drop_first(), eq, k, t);
        assert(!eq(ext[0].0, k));
        assert(ext[0] == s[0]);
        assert forall|w: K| !eq(k, w) implies assoc_find(ext, eq, w) == assoc_find(s, eq, w) by {
            if !eq(s[0].0, w) {
                assert(assoc_find(ext.drop_first(), eq, w) == assoc_find(s.drop_first(), eq, w));
            }
        }
    }
}

/// Removing the first matching entry of a uniquely-keyed sequence unbinds
/// that key and no other.
pub proof fn lemma_assoc_remove<K, T>(s: Seq<(K, T)>, eq: spec_fn(K, K) -> bool, i: int, k: K)
    requires
        eq_rel(eq),
        0 <= i < s.len(),
        eq(s[i].0, k),
        forall|j: int| 0 <= j < i ==> !eq((#[trigger] s[j]).0, k),
        forall|p: int, q: int|
            #![trigger s[p], s[q]]
            0 <= p < q < s.len() ==> !eq(s[p].0, s[q].0),
    ensures
        assoc_find(s.remove(i), eq, k) is None,
        forall|w: K| !eq(k, w) ==> assoc_find(s.remove(i), eq, w) == assoc_find(s, eq, w),
    decreases i,
{
    let rem = s.remove(i);
    if i == 0 {
        assert(rem =~= s.drop_first());
        assert forall|j: int| 0 <= j < rem.len() implies !eq((#[trigger] rem[j]).0, k) by {
            assert(rem[j] == s[j + 1]);
            assert(!eq(s[0].0, s[j + 1].0));
            if eq(s[j + 1].0, k) {
                assert(eq(k, s[j + 1].0));
                assert(eq(s[0].0, k));
                assert(eq(s[0].0, s[j + 1].0));
            }
        }
        lemma_assoc_none(rem, eq, k);
        assert forall|w: K| !eq(k, w) implies assoc_find(rem, eq, w) == assoc_find(s, eq, w) by {
            if eq(s[0].0, w) {
                assert(eq(s[0].0, k));
                assert(eq(k, s[0].0));
                assert(eq(k, w));
            }
        }
    } else {
        assert(rem.drop_first() =~= s.drop_first().remove(i - 1));
        assert(rem[0] == s[0]);
        assert(forall|j: int| 0 <= j < i - 1 ==> !eq((#[trigger] s.drop_first()[j]).0, k)) by {
            assert(forall|j: int| 0 <= j < s.drop_first().len() ==> s.drop_first()[j] == s[j + 1]);
        }
        assert(s.drop_first()[i - 1] == s[i]);
        assert(forall|p: int, q: int|
            #![trigger s.drop_first()[p], s.drop_first()[q]]
            0 <= p < q < s.drop_first().len() ==> !eq(s.drop_first()[p].0, s.drop_first()[q].0))
            by {
            assert(forall|j: int| 0 <= j < s.drop_first().len() ==> s.drop_first()[j] == s[j + 1]);
        }
        lemma_assoc_remove(s.drop_first(), eq, i - 1, k);
        assert(!eq(rem[0].0, k));
        assert forall|w: K| !eq(k, w) implies assoc_find(rem, eq, w) == assoc_find(s, eq, w) by {
            if !eq(s[0].0, w) {
                assert(assoc_find(rem.drop_first(), eq, w) == assoc_find(s.drop_first(), eq, w));
            }
        }
    }
}

} // verus!
