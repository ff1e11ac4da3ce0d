//! The mathematical model of the store: a sequence of key / record pairs,
//! ordered oldest to newest by last (re)insertion, with every key appearing
//! at most once.  The contracts of the executable operations are stated over
//! the spec functions of this module.

use vstd::prelude::*;

use crate::record::deadline;
use crate::record::InternalEntry;

verus! {

/// Every key appears at most once.
pub open spec fn distinct_keys<K, V>(s: Seq<(K, InternalEntry<V>)>) -> bool {
    forall|i: int, j: int| 0 <= i < j < s.len() ==> s[i].0 != s[j].0
}

/// Some position holds the key, expired or not.
pub open spec fn has_key<K, V>(s: Seq<(K, InternalEntry<V>)>, k: K) -> bool {
    exists|i: int| 0 <= i < s.len() && s[i].0 == k
}

/// The position of `k`; meaningful when `has_key` holds and keys are distinct.
pub open spec fn key_index<K, V>(s: Seq<(K, InternalEntry<V>)>, k: K) -> int {
    choose|i: int| 0 <= i < s.len() && s[i].0 == k
}

/// The record stored under `k`; meaningful under the same conditions.
pub open spec fn record_of<K, V>(s: Seq<(K, InternalEntry<V>)>, k: K) -> InternalEntry<V> {
    s[key_index(s, k)].1
}

/// The key is present and its record is unexpired at `now`: exactly the
/// entries a lookup at `now` is allowed to see.
pub open spec fn live_at<K, V>(s: Seq<(K, InternalEntry<V>)>, k: K, now: u64) -> bool {
    has_key(s, k) && !record_of(s, k).spec_expired(now)
}

/// The sequence with the binding of `k` (if any) deleted; the relative order
/// of all other entries is kept.
pub open spec fn remove_key<K, V>(s: Seq<(K, InternalEntry<V>)>, k: K) -> Seq<
    (K, InternalEntry<V>),
> {
    if has_key(s, k) {
        s.remove(key_index(s, k))
    } else {
        s
    }
}

/// The length of the longest prefix made of expired entries only.
pub open spec fn expired_prefix_len<K, V>(s: Seq<(K, InternalEntry<V>)>, now: u64) -> int
    decreases s.len(),
{
    if s.len() == 0 || !s[0].1.spec_expired(now) {
        0
    } else {
        1 + expired_prefix_len(s.drop_first(), now)
    }
}

/// The store after the passive sweep at `now`: the longest fully expired
/// prefix is gone, and nothing behind the first live entry is touched.
pub open spec fn sweep<K, V>(s: Seq<(K, InternalEntry<V>)>, now: u64) -> Seq<
    (K, InternalEntry<V>),
> {
    s.skip(expired_prefix_len(s, now))
}

/// A record freshly created at `now` with time-to-live `ttl`.
pub open spec fn new_record<V>(v: V, ttl: u64, now: u64) -> InternalEntry<V> {
    InternalEntry { value: v, expiration: deadline(now, ttl), duration: ttl }
}

/// The store after a top-level insert at `now`: the expired prefix is swept,
/// any old binding of `k` is deleted, and the fresh record is appended at the
/// newest position.
pub open spec fn spec_insert<K, V>(
    s: Seq<(K, InternalEntry<V>)>,
    k: K,
    v: V,
    ttl: u64,
    now: u64,
) -> Seq<(K, InternalEntry<V>)> {
    remove_key(sweep(s, now), k).push((k, new_record(v, ttl, now)))
}

/// What a top-level insert at `now` returns: the prior value, but only if it
/// survived the sweep and was itself unexpired.
pub open spec fn spec_insert_prior<K, V>(s: Seq<(K, InternalEntry<V>)>, k: K, now: u64) -> Option<
    V,
> {
    if live_at(sweep(s, now), k, now) {
        Some(record_of(sweep(s, now), k).value)
    } else {
        None
    }
}

/// What a lookup at `now` returns: the stored value exactly when the entry is
/// present and unexpired.
pub open spec fn spec_get<K, V>(s: Seq<(K, InternalEntry<V>)>, k: K, now: u64) -> Option<V> {
    if live_at(s, k, now) {
        Some(record_of(s, k).value)
    } else {
        None
    }
}

/// The record with its deadline recomputed from `now` and its original
/// time-to-live.
pub open spec fn renewed<V>(r: InternalEntry<V>, now: u64) -> InternalEntry<V> {
    InternalEntry { value: r.value, expiration: deadline(now, r.duration), duration: r.duration }
}

/// The store after renewing `k` at `now`: a no-op unless the entry is live.
pub open spec fn spec_reset_ttl<K, V>(s: Seq<(K, InternalEntry<V>)>, k: K, now: u64) -> Seq<
    (K, InternalEntry<V>),
> {
    if live_at(s, k, now) {
        s.update(key_index(s, k), (s[key_index(s, k)].0, renewed(s[key_index(s, k)].1, now)))
    } else {
        s
    }
}

/// The first position in `[from, to)` whose entry is unexpired at `now`, or
/// `to` if every entry in the range is expired.
pub open spec fn first_live_index<K, V>(
    s: Seq<(K, InternalEntry<V>)>,
    from: int,
    to: int,
    now: u64,
) -> int
    decreases to - from,
{
    if from >= to {
        to
    } else if !s[from].1.spec_expired(now) {
        from
    } else {
        first_live_index(s, from + 1, to, now)
    }
}

/// The keys of the store, oldest to newest.
pub open spec fn keys_of<K, V>(s: Seq<(K, InternalEntry<V>)>) -> Seq<K> {
    s.map_values(|p: (K, InternalEntry<V>)| p.0)
}

/// With distinct keys, an occurrence of `k` is the occurrence: `key_index`
/// picks exactly it.
pub proof fn lemma_key_index_of<K, V>(s: Seq<(K, InternalEntry<V>)>, k: K, i: int)
    requires
        distinct_keys(s),
        0 <= i < s.len(),
        s[i].0 == k,
    ensures
        has_key(s, k),
        key_index(s, k) == i,
{
    assert(has_key(s, k));
    let j = key_index(s, k);
    if j < i {
        assert(s[j].0 != s[i].0);
    } else if j > i {
        assert(s[i].0 != s[j].0);
    }
}

/// Deleting one position keeps the keys distinct and drops the deleted key
/// when it occurred nowhere else.
pub proof fn lemma_remove_at<K, V>(s: Seq<(K, InternalEntry<V>)>, i: int)
    requires
        distinct_keys(s),
        0 <= i < s.len(),
    ensures
        distinct_keys(s.remove(i)),
        !has_key(s.remove(i), s[i].0),
{
    let t = s.remove(i);
    assert forall|p: int, q: int| 0 <= p < q < t.len() implies t[p].0 != t[q].0 by {
        let p0: int = if p < i {
            p
        } else {
            p + 1
        };
        let q0: int = if q < i {
            q
        } else {
            q + 1
        };
        assert(t[p] == s[p0]);
        assert(t[q] == s[q0]);
    }
    assert forall|p: int| 0 <= p < t.len() implies t[p].0 != s[i].0 by {
        let p0: int = if p < i {
            p
        } else {
            p + 1
        };
        assert(t[p] == s[p0]);
    }
}

/// Appending a key that is absent keeps the keys distinct.
pub proof fn lemma_push_fresh<K, V>(s: Seq<(K, InternalEntry<V>)>, k: K, r: InternalEntry<V>)
    requires
        distinct_keys(s),
        !has_key(s, k),
    ensures
        distinct_keys(s.push((k, r))),
{
    let t = s.push((k, r));
    assert forall|p: int, q: int| 0 <= p < q < t.len() implies t[p].0 != t[q].0 by {
        if q < s.len() {
        } else {
            assert(t[p] == s[p]);
            assert(s[p].0 != k);
        }
    }
}

/// Updating one position without changing its key keeps the keys distinct.
pub proof fn lemma_update_same_key<K, V>(
    s: Seq<(K, InternalEntry<V>)>,
    i: int,
    r: InternalEntry<V>,
)
    requires
        distinct_keys(s),
        0 <= i < s.len(),
    ensures
        distinct_keys(s.update(i, (s[i].0, r))),
{
}

/// Dropping the first entry keeps the keys distinct.
pub proof fn lemma_skip_distinct<K, V>(s: Seq<(K, InternalEntry<V>)>, n: int)
    requires
        distinct_keys(s),
        0 <= n <= s.len(),
    ensures
        distinct_keys(s.skip(n)),
{
    let t = s.skip(n);
    assert forall|p: int, q: int| 0 <= p < q < t.len() implies t[p].0 != t[q].0 by {
        assert(t[p] == s[p + n]);
        assert(t[q] == s[q + n]);
    }
}

/// The expired prefix is a prefix: no longer than the store, every entry in
/// it expired, and the entry just past it (if any) live.
pub proof fn lemma_expired_prefix<K, V>(s: Seq<(K, InternalEntry<V>)>, now: u64)
    ensures
        0 <= expired_prefix_len(s, now) <= s.len(),
        forall|i: int| 0 <= i < expired_prefix_len(s, now) ==> s[i].1.spec_expired(now),
        expired_prefix_len(s, now) < s.len() ==> !s[expired_prefix_len(s, now)].1.spec_expired(
            now,
        ),
    decreases s.len(),
{
    if s.len() == 0 || !s[0].1.spec_expired(now) {
    } else {
        lemma_expired_prefix(s.drop_first(), now);
        let n = expired_prefix_len(s, now);
        assert forall|i: int| 0 <= i < n implies s[i].1.spec_expired(now) by {
            if i > 0 {
                assert(s.drop_first()[i - 1].1.spec_expired(now));
            }
        }
        if n < s.len() {
            assert(s.drop_first()[n - 1] == s[n]);
        }
    }
}

/// One step of the sweep: removing an expired front entry leaves the swept
/// store unchanged.
pub proof fn lemma_sweep_step<K, V>(s: Seq<(K, InternalEntry<V>)>, now: u64)
    requires
        s.len() > 0,
        s[0].1.spec_expired(now),
    ensures
        sweep(s, now) == sweep(s.remove(0), now),
{
    assert(s.remove(0) =~= s.drop_first());
    let n = expired_prefix_len(s.drop_first(), now);
    lemma_expired_prefix(s.drop_first(), now);
    assert(sweep(s, now) =~= sweep(s.drop_first(), now));
}

/// A live front entry stops the sweep at once: nothing is removed, however
/// many entries behind it are already expired.
pub proof fn lemma_sweep_noop<K, V>(s: Seq<(K, InternalEntry<V>)>, now: u64)
    requires
        s.len() == 0 || !s[0].1.spec_expired(now),
    ensures
        sweep(s, now) == s,
{
    assert(sweep(s, now) =~= s);
}

/// Deleting a key keeps the keys distinct, and deletes it.
pub proof fn lemma_remove_key<K, V>(s: Seq<(K, InternalEntry<V>)>, k: K)
    requires
        distinct_keys(s),
    ensures
        distinct_keys(remove_key(s, k)),
        !has_key(remove_key(s, k), k),
{
    if has_key(s, k) {
        let i = key_index(s, k);
        assert(0 <= i < s.len() && s[i].0 == k);
        lemma_remove_at(s, i);
    }
}

/// The first live position lies in `[from, to]`, everything before it in the
/// range is expired, and it is live when it is not `to`.
pub proof fn lemma_first_live_bounds<K, V>(
    s: Seq<(K, InternalEntry<V>)>,
    from: int,
    to: int,
    now: u64,
)
    requires
        0 <= from <= to <= s.len(),
    ensures
        from <= first_live_index(s, from, to, now) <= to,
        forall|i: int|
            from <= i < first_live_index(s, from, to, now) ==> s[i].1.spec_expired(now),
        first_live_index(s, from, to, now) < to ==> !s[first_live_index(
            s,
            from,
            to,
            now,
        )].1.spec_expired(now),
    decreases to - from,
{
    if from < to && s[from].1.spec_expired(now) {
        lemma_first_live_bounds(s, from + 1, to, now);
    }
}

/// A live position within the range bounds the first live position.
pub proof fn lemma_first_live_le<K, V>(
    s: Seq<(K, InternalEntry<V>)>,
    from: int,
    to: int,
    now: u64,
    j: int,
)
    requires
        0 <= from <= j < to <= s.len(),
        !s[j].1.spec_expired(now),
    ensures
        first_live_index(s, from, to, now) <= j,
    decreases j - from,
{
    if from < j && s[from].1.spec_expired(now) {
        lemma_first_live_le(s, from + 1, to, now, j);
    }
}

/// The shape of a top-level insert: the fresh record stands alone under its
/// key, at the newest position.
pub proof fn lemma_insert_shape<K, V>(
    s: Seq<(K, InternalEntry<V>)>,
    k: K,
    v: V,
    ttl: u64,
    now: u64,
)
    requires
        distinct_keys(s),
    ensures
        ({
            let t = spec_insert(s, k, v, ttl, now);
            &&& distinct_keys(t)
            &&& has_key(t, k)
            &&& key_index(t, k) == t.len() - 1
            &&& record_of(t, k) == new_record(v, ttl, now)
            &&& t == remove_key(sweep(s, now), k).push((k, new_record(v, ttl, now)))
        }),
{
    let n = expired_prefix_len(s, now);
    lemma_expired_prefix(s, now);
    lemma_skip_distinct(s, n);
    let u = remove_key(sweep(s, now), k);
    lemma_remove_key(sweep(s, now), k);
    lemma_push_fresh(u, k, new_record(v, ttl, now));
    let t = spec_insert(s, k, v, ttl, now);
    lemma_key_index_of(t, k, t.len() - 1);
}

/// The sweep never removes a live entry: visibility at `now` is untouched.
pub proof fn lemma_sweep_preserves_live<K, V>(s: Seq<(K, InternalEntry<V>)>, k: K, now: u64)
    requires
        distinct_keys(s),
    ensures
        distinct_keys(sweep(s, now)),
        live_at(sweep(s, now), k, now) == live_at(s, k, now),
        live_at(s, k, now) ==> record_of(sweep(s, now), k) == record_of(s, k),
{
    let n = expired_prefix_len(s, now);
    lemma_expired_prefix(s, now);
    lemma_skip_distinct(s, n);
    let t = sweep(s, now);
    if live_at(s, k, now) {
        let i = key_index(s, k);
        assert(s[i].0 == k);
        assert(!s[i].1.spec_expired(now));
        assert(i >= n);
        assert(t[i - n] == s[i]);
        lemma_key_index_of(t, k, i - n);
    }
    if live_at(t, k, now) {
        let j = key_index(t, k);
        assert(t[j] == s[j + n]);
        lemma_key_index_of(s, k, j + n);
    }
}

} // verus!
