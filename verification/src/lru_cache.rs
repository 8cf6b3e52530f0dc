//! Least-recently-used caches of the `lru` crate, and what their operations do to the entries.
//!
//! The entries of a cache are a sequence with the most recently used entry first.

use lru::LruCache;
use vstd::prelude::*;

verus! {

/// `lru::LruCache`, as an opaque value.
#[verifier::external_type_specification]
#[verifier::external_body]
#[verifier::reject_recursive_types(K)]
#[verifier::reject_recursive_types(V)]
#[verifier::reject_recursive_types(S)]
pub struct ExLruCache<K, V, S>(lru::LruCache<K, V, S>);

/// The hasher that a cache is made with, as an opaque value.
#[verifier::external_type_specification]
#[verifier::external_body]
pub struct ExDefaultHasher(lru::DefaultHasher);

/// The largest capacity for which a cache may be made.
pub const MAX_CACHE_CAPACITY: usize = usize::MAX / 128;

/// The entries without the one of key `k`.
pub open spec fn without_key<V>(s: Seq<(usize, V)>, k: usize) -> Seq<(usize, V)>
    decreases s.len(),
{
    if s.len() == 0 {
        s
    } else if s.last().0 == k {
        without_key(s.drop_last(), k)
    } else {
        without_key(s.drop_last(), k).push(s.last())
    }
}

/// The value under key `k`, if there is one.
pub open spec fn lookup<V>(s: Seq<(usize, V)>, k: usize) -> Option<V>
    decreases s.len(),
{
    if s.len() == 0 {
        None
    } else if s[0].0 == k {
        Some(s[0].1)
    } else {
        lookup(s.skip(1), k)
    }
}

/// The entry of key `k` becomes the most recent one, with value `v`.
pub open spec fn moved_to_front<V>(s: Seq<(usize, V)>, k: usize, v: V) -> Seq<(usize, V)> {
    seq![(k, v)] + without_key(s, k)
}

/// The entries after `v` was put under key `k` in a cache of capacity `cap`.
pub open spec fn after_put<V>(s: Seq<(usize, V)>, cap: nat, k: usize, v: V) -> Seq<(usize, V)> {
    if lookup(s, k) is Some {
        moved_to_front(s, k, v)
    } else if s.len() == cap {
        seq![(k, v)] + s.drop_last()
    } else {
        seq![(k, v)] + s
    }
}

/// The entries after a read of key `k`.
pub open spec fn after_get<V>(s: Seq<(usize, V)>, k: usize) -> Seq<(usize, V)> {
    match lookup(s, k) {
        Some(v) => moved_to_front(s, k, v),
        None => s,
    }
}

/// No two entries have the same key.
pub open spec fn distinct_keys<V>(s: Seq<(usize, V)>) -> bool {
    forall|i: int, j: int| 0 <= i < j < s.len() ==> s[i].0 != s[j].0
}

/// What the entries of a cache of capacity `cap` keep.
pub open spec fn cache_entries_wf<V>(s: Seq<(usize, V)>, cap: nat) -> bool {
    &&& cap >= 1
    &&& s.len() <= cap
    &&& distinct_keys(s)
}

pub proof fn lemma_without_key<V>(s: Seq<(usize, V)>, k: usize)
    ensures
        without_key(s, k).len() <= s.len(),
        forall|i: int|
            0 <= i < without_key(s, k).len() ==> s.contains(#[trigger] without_key(s, k)[i])
                && without_key(s, k)[i].0 != k,
        distinct_keys(s) ==> distinct_keys(without_key(s, k)),
        forall|e: (usize, V)| s.contains(e) && e.0 != k ==> without_key(s, k).contains(e),
        (exists|i: int| 0 <= i < s.len() && s[i].0 == k) ==> without_key(s, k).len() < s.len(),
    decreases s.len(),
{
    if s.len() > 0 {
        let t = s.drop_last();
        lemma_without_key(t, k);
        let w = without_key(s, k);
        let wt = without_key(t, k);
        assert forall|i: int| 0 <= i < w.len() implies s.contains(#[trigger] w[i]) && w[i].0
            != k by {
            if i < wt.len() {
                assert(t.contains(wt[i]));
                let j = choose|j: int| 0 <= j < t.len() && t[j] == wt[i];
                assert(s[j] == w[i]);
            } else {
                assert(s[s.len() - 1] == w[i]);
            }
        }
        if distinct_keys(s) {
            assert(distinct_keys(t));
            assert forall|i: int, j: int| 0 <= i < j < w.len() implies w[i].0 != w[j].0 by {
                if j == wt.len() {
                    assert(t.contains(wt[i]));
                    let m = choose|m: int| 0 <= m < t.len() && t[m] == wt[i];
                    assert(s[m].0 != s[s.len() - 1].0);
                }
            }
        }
        assert forall|e: (usize, V)| s.contains(e) && e.0 != k implies w.contains(e) by {
            let m = choose|m: int| 0 <= m < s.len() && s[m] == e;
            if m < t.len() {
                assert(t[m] == e);
                assert(t.contains(e));
                let q = choose|q: int| 0 <= q < wt.len() && wt[q] == e;
                assert(w[q] == e);
            } else {
                assert(w[w.len() - 1] == e);
            }
        }
        if exists|i: int| 0 <= i < s.len() && s[i].0 == k {
            let m = choose|m: int| 0 <= m < s.len() && s[m].0 == k;
            if m < t.len() {
                assert(t[m].0 == k);
            }
        }
    }
}

pub proof fn lemma_lookup<V>(s: Seq<(usize, V)>, k: usize)
    ensures
        lookup(s, k) is Some ==> s.contains((k, lookup(s, k)->0)),
        lookup(s, k) is None ==> forall|i: int| 0 <= i < s.len() ==> (#[trigger] s[i]).0 != k,
    decreases s.len(),
{
    if s.len() > 0 {
        if s[0].0 == k {
            assert(s[0] == (k, s[0].1));
        } else {
            let t = s.skip(1);
            lemma_lookup(t, k);
            if lookup(s, k) is Some {
                let m = choose|m: int| 0 <= m < t.len() && t[m] == (k, lookup(s, k)->0);
                assert(s[m + 1] == t[m]);
            } else {
                assert forall|i: int| 0 <= i < s.len() implies (#[trigger] s[i]).0 != k by {
                    if i > 0 {
                        assert(s[i] == t[i - 1]);
                    }
                }
            }
        }
    }
}

/// A put keeps the entries well-formed, and every entry is the new one or an old one.
pub proof fn put_keeps_entries<V>(s: Seq<(usize, V)>, cap: nat, k: usize, v: V)
    requires
        cache_entries_wf(s, cap),
    ensures
        cache_entries_wf(after_put(s, cap, k, v), cap),
        forall|i: int|
            0 <= i < after_put(s, cap, k, v).len() ==> {
                let e = #[trigger] after_put(s, cap, k, v)[i];
                e == (k, v) || (s.contains(e) && e.0 != k)
            },
        after_put(s, cap, k, v)[0] == (k, v),
        after_put(s, cap, k, v).len() >= 1,
{
    lemma_without_key(s, k);
    lemma_lookup(s, k);
    let w = without_key(s, k);
    let r = after_put(s, cap, k, v);
    if lookup(s, k) is Some {
        let m = choose|m: int| 0 <= m < s.len() && s[m] == (k, lookup(s, k)->0);
        assert(s[m].0 == k);
        assert forall|i: int| 0 <= i < r.len() implies {
            let e = #[trigger] r[i];
            e == (k, v) || (s.contains(e) && e.0 != k)
        } by {
            if i > 0 {
                assert(r[i] == w[i - 1]);
            }
        }
        assert forall|i: int, j: int| 0 <= i < j < r.len() implies r[i].0 != r[j].0 by {
            assert(r[j] == w[j - 1]);
            if i > 0 {
                assert(r[i] == w[i - 1]);
            }
        }
    } else {
        assert forall|i: int| 0 <= i < r.len() implies {
            let e = #[trigger] r[i];
            e == (k, v) || (s.contains(e) && e.0 != k)
        } by {
            if i > 0 {
                assert(r[i] == s[i - 1]);
            }
        }
        assert forall|i: int, j: int| 0 <= i < j < r.len() implies r[i].0 != r[j].0 by {
            assert(r[j] == s[j - 1]);
            if i > 0 {
                assert(r[i] == s[i - 1]);
            }
        }
    }
}

/// A read keeps the entries, up to their order.
pub proof fn get_keeps_entries<V>(s: Seq<(usize, V)>, cap: nat, k: usize)
    requires
        cache_entries_wf(s, cap),
    ensures
        cache_entries_wf(after_get(s, k), cap),
        forall|i: int|
            0 <= i < after_get(s, k).len() ==> s.contains(#[trigger] after_get(s, k)[i]),
{
    lemma_lookup(s, k);
    if lookup(s, k) is Some {
        let v = lookup(s, k)->0;
        assert(after_get(s, k) == after_put(s, cap, k, v));
        put_keeps_entries(s, cap, k, v);
    } else {
        assert forall|i: int| 0 <= i < s.len() implies s.contains(#[trigger] s[i]) by {}
    }
}

/// Every key is below `n`.
pub open spec fn keys_below<V>(s: Seq<(usize, V)>, n: int) -> bool {
    forall|i: int| 0 <= i < s.len() ==> (#[trigger] s[i]).0 < n
}

/// Entries whose keys are below `n` stay so where a key below `n` is put or read.
pub proof fn keys_stay_below<V>(s: Seq<(usize, V)>, cap: nat, k: usize, v: V, n: int)
    requires
        cache_entries_wf(s, cap),
        keys_below(s, n),
    ensures
        k < n ==> keys_below(after_put(s, cap, k, v), n),
        keys_below(after_get(s, k), n),
{
    put_keeps_entries(s, cap, k, v);
    get_keeps_entries(s, cap, k);
    let p = after_put(s, cap, k, v);
    let g = after_get(s, k);
    if k < n {
        assert forall|i: int| 0 <= i < p.len() implies (#[trigger] p[i]).0 < n by {
            if p[i] != (k, v) {
                assert(s.contains(p[i]));
            }
        }
    }
    assert forall|i: int| 0 <= i < g.len() implies (#[trigger] g[i]).0 < n by {
        assert(s.contains(g[i]));
    }
}

// ---------------------------------------------------------------------------
// Entries by the contents of their values
// ---------------------------------------------------------------------------

/// The entries, with each value replaced by its contents.
pub open spec fn contents<V: View>(s: Seq<(usize, V)>) -> Seq<(usize, V::V)> {
    s.map_values(|e: (usize, V)| (e.0, e.1@))
}

pub proof fn lemma_contents_lookup<V: View>(s: Seq<(usize, V)>, k: usize)
    ensures
        match lookup(s, k) {
            Some(v) => lookup(contents(s), k) == Some(v@),
            None => lookup(contents(s), k) is None,
        },
    decreases s.len(),
{
    if s.len() > 0 && s[0].0 != k {
        lemma_contents_lookup(s.skip(1), k);
        assert(contents(s.skip(1)) =~= contents(s).skip(1));
    }
}

proof fn lemma_contents_without_key<V: View>(s: Seq<(usize, V)>, k: usize)
    ensures
        contents(without_key(s, k)) == without_key(contents(s), k),
    decreases s.len(),
{
    if s.len() > 0 {
        let init = s.drop_last();
        lemma_contents_without_key(init, k);
        assert(contents(init) =~= contents(s).drop_last());
        assert(contents(without_key(init, k).push(s.last())) =~= contents(without_key(init, k)).push(
            (s.last().0, s.last().1@),
        ));
    } else {
        assert(contents(s) =~= Seq::<(usize, V::V)>::empty());
    }
}

/// Putting a value and taking the contents can be done in either order.
pub proof fn lemma_contents_after_put<V: View>(s: Seq<(usize, V)>, cap: nat, k: usize, v: V)
    requires
        cap >= 1,
    ensures
        contents(after_put(s, cap, k, v)) == after_put(contents(s), cap, k, v@),
{
    lemma_contents_lookup(s, k);
    lemma_contents_without_key(s, k);
    assert(contents(seq![(k, v)] + without_key(s, k)) =~= seq![(k, v@)] + contents(
        without_key(s, k),
    ));
    assert(contents(seq![(k, v)] + s) =~= seq![(k, v@)] + contents(s));
    if s.len() > 0 {
        assert(contents(seq![(k, v)] + s.drop_last()) =~= seq![(k, v@)] + contents(s).drop_last());
    }
}

/// Reading a value and taking the contents can be done in either order.
pub proof fn lemma_contents_after_get<V: View>(s: Seq<(usize, V)>, k: usize)
    ensures
        contents(after_get(s, k)) == after_get(contents(s), k),
{
    lemma_contents_lookup(s, k);
    lemma_contents_without_key(s, k);
    if lookup(s, k) is Some {
        let v = lookup(s, k)->0;
        assert(contents(seq![(k, v)] + without_key(s, k)) =~= seq![(k, v@)] + contents(
            without_key(s, k),
        ));
    }
}

// ---------------------------------------------------------------------------
// Caches of byte offsets
// ---------------------------------------------------------------------------

/// The entries of a cache of byte offsets, most recently used first.
pub uninterp spec fn offset_entries(cache: LruCache<usize, u64>) -> Seq<(usize, u64)>;

/// The capacity that a cache of byte offsets was made with.
pub uninterp spec fn offset_capacity(cache: LruCache<usize, u64>) -> nat;

/// `LruCache::new` makes an empty cache of the given capacity. It allocates room for that
/// many entries at once, which is why the capacity is bounded.
#[verifier::external_body]
pub(crate) fn new_offset_cache(capacity: usize) -> (cache: LruCache<usize, u64>)
    requires
        1 <= capacity <= MAX_CACHE_CAPACITY,
    ensures
        offset_entries(cache) == Seq::<(usize, u64)>::empty(),
        offset_capacity(cache) == capacity,
{
    LruCache::new(std::num::NonZeroUsize::new(capacity).unwrap())
}

/// `LruCache::put` stores a value under a key and makes it the most recent entry. An entry of
/// the same key is replaced. A full cache drops its least recent entry.
#[verifier::external_body]
pub(crate) fn put_offset(cache: &mut LruCache<usize, u64>, index: usize, offset: u64)
    ensures
        offset_entries(*final(cache)) == after_put(
            offset_entries(*old(cache)),
            offset_capacity(*old(cache)),
            index,
            offset,
        ),
        offset_capacity(*final(cache)) == offset_capacity(*old(cache)),
{
    cache.put(index, offset);
}

/// `LruCache::get` returns the value under a key and makes its entry the most recent one.
#[verifier::external_body]
pub(crate) fn get_offset(cache: &mut LruCache<usize, u64>, index: usize) -> (r: Option<u64>)
    ensures
        r == lookup(offset_entries(*old(cache)), index),
        offset_entries(*final(cache)) == after_get(offset_entries(*old(cache)), index),
        offset_capacity(*final(cache)) == offset_capacity(*old(cache)),
{
    cache.get(&index).copied()
}

/// `LruCache::peek` returns the value under a key and leaves the order as it is.
#[verifier::external_body]
pub(crate) fn peek_offset(cache: &LruCache<usize, u64>, index: usize) -> (r: Option<u64>)
    ensures
        r == lookup(offset_entries(*cache), index),
{
    cache.peek(&index).copied()
}

/// `LruCache::iter` walks the entries from the most to the least recently used.
#[verifier::external_body]
pub(crate) fn list_offsets(cache: &LruCache<usize, u64>) -> (r: Vec<(usize, u64)>)
    ensures
        r@ == offset_entries(*cache),
{
    cache.iter().map(|(index, offset)| (*index, *offset)).collect()
}

/// `LruCache::peek_lru` returns the least recently used entry and leaves the order as it is.
#[verifier::external_body]
pub(crate) fn oldest_offset(cache: &LruCache<usize, u64>) -> (r: Option<(usize, u64)>)
    ensures
        r == (if offset_entries(*cache).len() == 0 {
            None
        } else {
            Some(offset_entries(*cache).last())
        }),
{
    cache.peek_lru().map(|(index, offset)| (*index, *offset))
}

/// `LruCache::pop_lru` takes the least recently used entry out.
#[verifier::external_body]
pub(crate) fn drop_oldest_offset(cache: &mut LruCache<usize, u64>)
    ensures
        offset_entries(*final(cache)) == (if offset_entries(*old(cache)).len() == 0 {
            offset_entries(*old(cache))
        } else {
            offset_entries(*old(cache)).drop_last()
        }),
        offset_capacity(*final(cache)) == offset_capacity(*old(cache)),
{
    cache.pop_lru();
}

// ---------------------------------------------------------------------------
// Laws
// ---------------------------------------------------------------------------

/// What was put under a key is found there; every other entry is found as before, but for the
/// least recently used one of a full cache that has to make room.
pub proof fn puts_drop_only_the_oldest<V>(
    s: Seq<(usize, V)>,
    cap: nat,
    k: usize,
    v: V,
    other: usize,
)
    requires
        cache_entries_wf(s, cap),
        other != k,
    ensures
        lookup(after_put(s, cap, k, v), k) == Some(v),
        s.len() < cap || lookup(s, k) is Some || s.last().0 != other ==> lookup(
            after_put(s, cap, k, v),
            other,
        ) == lookup(s, other),
        s.len() == cap && lookup(s, k) is None && s.last().0 == other ==> lookup(
            after_put(s, cap, k, v),
            other,
        ) is None,
        s.len() == cap && lookup(s, k) is None ==> after_put(s, cap, k, v).len() == cap,
        s.len() < cap && lookup(s, k) is None ==> after_put(s, cap, k, v).len() == s.len() + 1,
        lookup(s, k) is Some ==> after_put(s, cap, k, v).len() == s.len(),
{
    let r = after_put(s, cap, k, v);
    assert(r[0] == (k, v));
    lemma_found_behind_the_first(k, v, r.skip(1), other);
    assert(seq![(k, v)] + r.skip(1) =~= r);
    if lookup(s, k) is Some {
        assert(r.skip(1) =~= without_key(s, k));
        lemma_other_keys_are_found(s, k, other);
        lemma_one_key_less(s, k);
    } else if s.len() == cap {
        assert(r.skip(1) =~= s.drop_last());
        lemma_found_without_the_last(s, other);
    } else {
        assert(r.skip(1) =~= s);
    }
}

proof fn lemma_found_behind_the_first<V>(k: usize, v: V, s: Seq<(usize, V)>, other: usize)
    requires
        other != k,
    ensures
        lookup(seq![(k, v)] + s, other) == lookup(s, other),
{
    assert((seq![(k, v)] + s).skip(1) =~= s);
}

proof fn lemma_found<V>(s: Seq<(usize, V)>, at: int)
    requires
        distinct_keys(s),
        0 <= at < s.len(),
    ensures
        lookup(s, s[at].0) == Some(s[at].1),
    decreases s.len(),
{
    if at > 0 {
        assert(s[0].0 != s[at].0);
        assert(s.skip(1)[at - 1] == s[at]);
        lemma_found(s.skip(1), at - 1);
    }
}

proof fn lemma_other_keys_are_found<V>(s: Seq<(usize, V)>, k: usize, other: usize)
    requires
        distinct_keys(s),
        other != k,
    ensures
        lookup(without_key(s, k), other) == lookup(s, other),
{
    let w = without_key(s, k);
    lemma_without_key(s, k);
    lemma_lookup(s, other);
    lemma_lookup(w, other);
    if lookup(s, other) is Some {
        let e = (other, lookup(s, other)->0);
        assert(w.contains(e));
        let i = choose|i: int| 0 <= i < w.len() && w[i] == e;
        lemma_found(w, i);
    } else if lookup(w, other) is Some {
        let e = (other, lookup(w, other)->0);
        let i = choose|i: int| 0 <= i < w.len() && w[i] == e;
        assert(s.contains(w[i]));
        assert(false);
    }
}

proof fn lemma_one_key_less<V>(s: Seq<(usize, V)>, k: usize)
    requires
        distinct_keys(s),
        lookup(s, k) is Some,
    ensures
        without_key(s, k).len() == s.len() - 1,
{
    lemma_lookup(s, k);
    let at = choose|at: int| 0 <= at < s.len() && s[at] == (k, lookup(s, k)->0);
    lemma_one_less_at(s, at);
}

proof fn lemma_one_less_at<V>(s: Seq<(usize, V)>, at: int)
    requires
        distinct_keys(s),
        0 <= at < s.len(),
    ensures
        without_key(s, s[at].0).len() == s.len() - 1,
    decreases s.len(),
{
    let init = s.drop_last();
    if at == s.len() - 1 {
        assert forall|i: int| 0 <= i < init.len() implies (#[trigger] init[i]).0 != s[at].0 by {
            assert(init[i] == s[i]);
        }
        lemma_nothing_to_drop(init, s[at].0);
    } else {
        assert(s[at].0 != s[s.len() - 1].0);
        assert(init[at] == s[at]);
        lemma_one_less_at(init, at);
    }
}

proof fn lemma_nothing_to_drop<V>(s: Seq<(usize, V)>, k: usize)
    requires
        forall|i: int| 0 <= i < s.len() ==> (#[trigger] s[i]).0 != k,
    ensures
        without_key(s, k) == s,
    decreases s.len(),
{
    if s.len() > 0 {
        let init = s.drop_last();
        assert forall|i: int| 0 <= i < init.len() implies (#[trigger] init[i]).0 != k by {
            assert(init[i] == s[i]);
        }
        lemma_nothing_to_drop(init, k);
        assert(s[s.len() - 1].0 != k);
        assert(init.push(s.last()) =~= s);
    }
}

proof fn lemma_found_without_the_last<V>(s: Seq<(usize, V)>, other: usize)
    requires
        distinct_keys(s),
        s.len() > 0,
    ensures
        s.last().0 != other ==> lookup(s.drop_last(), other) == lookup(s, other),
        s.last().0 == other ==> lookup(s.drop_last(), other) is None,
{
    let t = s.drop_last();
    lemma_lookup(s, other);
    lemma_lookup(t, other);
    if lookup(t, other) is Some {
        let i = choose|i: int| 0 <= i < t.len() && t[i] == (other, lookup(t, other)->0);
        assert(s[i] == t[i]);
        lemma_found(s, i);
        assert(s[i].0 != s[s.len() - 1].0);
    } else if lookup(s, other) is Some {
        let i = choose|i: int| 0 <= i < s.len() && s[i] == (other, lookup(s, other)->0);
        if i < t.len() {
            assert(t[i] == s[i]);
            assert(false);
        }
    }
}

/// A read makes an entry the most recent one, and changes no value.
pub proof fn gets_change_no_value<V>(s: Seq<(usize, V)>, cap: nat, k: usize, other: usize)
    requires
        cache_entries_wf(s, cap),
    ensures
        lookup(after_get(s, k), other) == lookup(s, other),
        after_get(s, k).len() == s.len(),
        lookup(s, k) is Some ==> after_get(s, k)[0].0 == k,
        lookup(s, k) is None ==> after_get(s, k) == s,
{
    if lookup(s, k) is Some {
        let v = lookup(s, k)->0;
        assert(after_get(s, k) == after_put(s, cap, k, v));
        if other != k {
            puts_drop_only_the_oldest(s, cap, k, v, other);
        } else {
            assert(after_get(s, k)[0] == (k, v));
            lemma_one_key_less(s, k);
        }
    }
}

}
