//! The laws of the store, stated over the model of `crate::model` — the same
//! spec functions the executable operations' contracts use — and proved once
//! for every store, key, value and instant.

use vstd::prelude::*;

use crate::model::distinct_keys;
use crate::model::first_live_index;
use crate::model::has_key;
use crate::model::key_index;
use crate::model::keys_of;
use crate::model::lemma_first_live_bounds;
use crate::model::lemma_first_live_le;
use crate::model::lemma_insert_shape;
use crate::model::lemma_key_index_of;
use crate::model::lemma_push_fresh;
use crate::model::lemma_remove_key;
use crate::model::lemma_sweep_noop;
use crate::model::lemma_sweep_preserves_live;
use crate::model::lemma_update_same_key;
use crate::model::live_at;
use crate::model::new_record;
use crate::model::record_of;
use crate::model::remove_key;
use crate::model::spec_get;
use crate::model::spec_insert;
use crate::model::spec_insert_prior;
use crate::model::spec_reset_ttl;
use crate::model::sweep;
use crate::record::deadline;
use crate::record::InternalEntry;

verus! {

/// Lazy invisibility.  After `k` is inserted at `now0` with time-to-live
/// `ttl`, a lookup of `k` at any `now1` sees the value exactly while `now1`
/// is no later than the deadline, and sees nothing after it — with no sweep
/// or removal needed in between, since the store itself is unchanged by
/// lookups.
pub proof fn lemma_lazy_invisibility<K, V>(
    s: Seq<(K, InternalEntry<V>)>,
    k: K,
    v: V,
    ttl: u64,
    now0: u64,
    now1: u64,
)
    requires
        distinct_keys(s),
    ensures
        spec_get(spec_insert(s, k, v, ttl, now0), k, now1) == if now1 <= deadline(now0, ttl) {
            Some(v)
        } else {
            None::<V>
        },
{
    lemma_insert_shape(s, k, v, ttl, now0);
}

/// Insert-overwrite on unexpired.  Inserting `k` a second time returns the
/// first value exactly when the second insert comes no later than the first
/// deadline; past it, the prior value is reported absent even though the key
/// was still physically present.
pub proof fn lemma_insert_overwrite<K, V>(
    s: Seq<(K, InternalEntry<V>)>,
    k: K,
    v1: V,
    ttl1: u64,
    now1: u64,
    now2: u64,
)
    requires
        distinct_keys(s),
    ensures
        spec_insert_prior(spec_insert(s, k, v1, ttl1, now1), k, now2) == if now2 <= deadline(
            now1,
            ttl1,
        ) {
            Some(v1)
        } else {
            None::<V>
        },
{
    lemma_insert_shape(s, k, v1, ttl1, now1);
    let t = spec_insert(s, k, v1, ttl1, now1);
    lemma_sweep_preserves_live(t, k, now2);
}

/// Order-move on reinsert.  Reinserting a key whose oldest entry is live (so
/// the sweep removes nothing) deletes its one old binding and appends the
/// fresh record: the keys afterwards are the old keys, in their old order,
/// with `k` moved to the newest position.
pub proof fn lemma_order_move_on_reinsert<K, V>(
    s: Seq<(K, InternalEntry<V>)>,
    k: K,
    v: V,
    ttl: u64,
    now: u64,
)
    requires
        distinct_keys(s),
        s.len() > 0,
        !s[0].1.spec_expired(now),
        has_key(s, k),
    ensures
        ({
            let t = spec_insert(s, k, v, ttl, now);
            &&& t == s.remove(key_index(s, k)).push((k, new_record(v, ttl, now)))
            &&& keys_of(t) == keys_of(s).remove(key_index(s, k)).push(k)
            &&& record_of(t, k) == new_record(v, ttl, now)
        }),
{
    lemma_sweep_noop(s, now);
    lemma_insert_shape(s, k, v, ttl, now);
    let i = key_index(s, k);
    assert(0 <= i < s.len() && s[i].0 == k);
    let t = spec_insert(s, k, v, ttl, now);
    assert(keys_of(t) =~= keys_of(s).remove(i).push(k));
}

/// Renewal.  After a touch-to-renew of a live entry at `now1`, the entry is
/// visible at any `now2` exactly while `now2` is no later than the renewed
/// deadline, `now1` plus the original time-to-live; the value is untouched.
/// (A plain lookup never extends a deadline: `get_at` leaves the store as it
/// was, and `get_mut_at` keeps every expiration, by their contracts.)
pub proof fn lemma_renewal<K, V>(s: Seq<(K, InternalEntry<V>)>, k: K, now1: u64, now2: u64)
    requires
        distinct_keys(s),
        live_at(s, k, now1),
    ensures
        ({
            let t = spec_reset_ttl(s, k, now1);
            &&& distinct_keys(t)
            &&& live_at(t, k, now2) == (now2 <= deadline(now1, record_of(s, k).duration))
            &&& record_of(t, k).value == record_of(s, k).value
        }),
{
    let i = key_index(s, k);
    assert(0 <= i < s.len() && s[i].0 == k);
    lemma_update_same_key(s, i, crate::model::renewed(s[i].1, now1));
    let t = spec_reset_ttl(s, k, now1);
    lemma_key_index_of(t, k, i);
}

/// Sweep prefix-only limitation.  The sweep trims only a contiguous oldest
/// prefix: a live oldest entry stops it at once, and an entry that expired
/// behind it — even one that expired earlier in real time — stays in the
/// store untouched.
pub proof fn lemma_sweep_prefix_only<K, V>(s: Seq<(K, InternalEntry<V>)>, now: u64, j: int)
    requires
        s.len() > 0,
        !s[0].1.spec_expired(now),
        0 <= j < s.len(),
        s[j].1.spec_expired(now),
    ensures
        sweep(s, now) == s,
        sweep(s, now)[j] == s[j],
{
    lemma_sweep_noop(s, now);
}

/// Reverse-iteration early stop.  When the newest entry of a range is
/// expired, a backward step yields nothing (by `next_back_at`'s contract),
/// yet a forward step over the same range still finds a live entry wherever
/// one exists: the two directions may disagree under heterogeneous
/// time-to-lives.
pub proof fn lemma_reverse_early_stop<K, V>(
    s: Seq<(K, InternalEntry<V>)>,
    from: int,
    to: int,
    now: u64,
    j: int,
)
    requires
        0 <= from <= j < to <= s.len(),
        s[to - 1].1.spec_expired(now),
        !s[j].1.spec_expired(now),
    ensures
        first_live_index(s, from, to, now) < to,
        first_live_index(s, from, to, now) <= j,
{
    lemma_first_live_le(s, from, to, now, j);
    lemma_first_live_bounds(s, from, to, now);
}

/// How many of a run of lookups would be hits: the number of looked-up keys
/// that are live.  Lookups leave the entries unchanged, so the count is over
/// one store.
pub open spec fn live_lookup_count<K, V>(
    s: Seq<(K, InternalEntry<V>)>,
    ks: Seq<K>,
    now: u64,
) -> int
    decreases ks.len(),
{
    if ks.len() == 0 {
        0
    } else {
        (if live_at(s, ks[0], now) {
            1int
        } else {
            0int
        }) + live_lookup_count(s, ks.drop_first(), now)
    }
}

/// The hit counter after a run of lookups, folded with the exact per-call
/// step of `get_at`'s contract.
pub open spec fn hits_after_lookups<K, V>(
    h: usize,
    s: Seq<(K, InternalEntry<V>)>,
    ks: Seq<K>,
    now: u64,
) -> usize
    decreases ks.len(),
{
    if ks.len() == 0 {
        h
    } else {
        hits_after_lookups(
            if live_at(s, ks[0], now) {
                h.saturating_add(1)
            } else {
                h
            },
            s,
            ks.drop_first(),
            now,
        )
    }
}

/// The miss counter after the same run.
pub open spec fn misses_after_lookups<K, V>(
    m: usize,
    s: Seq<(K, InternalEntry<V>)>,
    ks: Seq<K>,
    now: u64,
) -> usize
    decreases ks.len(),
{
    if ks.len() == 0 {
        m
    } else {
        misses_after_lookups(
            if live_at(s, ks[0], now) {
                m
            } else {
                m.saturating_add(1)
            },
            s,
            ks.drop_first(),
            now,
        )
    }
}

/// Stats accounting.  A run of lookups adds exactly the number of live
/// looked-up keys to the hit counter and the rest to the miss counter, as
/// long as the counters do not saturate.  (Resetting zeroes both and
/// restamps the window, by `reset_stats_counter_at`'s contract.)
pub proof fn lemma_stats_accounting<K, V>(
    h: usize,
    m: usize,
    s: Seq<(K, InternalEntry<V>)>,
    ks: Seq<K>,
    now: u64,
)
    requires
        h + ks.len() <= usize::MAX,
        m + ks.len() <= usize::MAX,
    ensures
        0 <= live_lookup_count(s, ks, now) <= ks.len(),
        hits_after_lookups(h, s, ks, now) == h + live_lookup_count(s, ks, now),
        misses_after_lookups(m, s, ks, now) == m + ks.len() - live_lookup_count(s, ks, now),
    decreases ks.len(),
{
    if ks.len() > 0 {
        if live_at(s, ks[0], now) {
            lemma_stats_accounting((h + 1) as usize, m, s, ks.drop_first(), now);
        } else {
            lemma_stats_accounting(h, (m + 1) as usize, s, ks.drop_first(), now);
        }
    }
}

/// Entry-view round trip.  On a key with no live record the view is vacant —
/// also when an expired record had to be removed first, which is exactly
/// `remove_key` — and filling the vacant view makes a lookup see the new
/// value until its deadline.
pub proof fn lemma_entry_round_trip<K, V>(
    s: Seq<(K, InternalEntry<V>)>,
    k: K,
    v: V,
    ttl: u64,
    now: u64,
    now2: u64,
)
    requires
        distinct_keys(s),
        !live_at(s, k, now),
    ensures
        ({
            let after_view = remove_key(s, k);
            let t = after_view.push((k, new_record(v, ttl, now)));
            &&& !has_key(after_view, k)
            &&& distinct_keys(t)
            &&& spec_get(t, k, now2) == if now2 <= deadline(now, ttl) {
                Some(v)
            } else {
                None::<V>
            }
        }),
{
    lemma_remove_key(s, k);
    let after_view = remove_key(s, k);
    let t = after_view.push((k, new_record(v, ttl, now)));
    lemma_push_fresh(after_view, k, new_record(v, ttl, now));
    lemma_key_index_of(t, k, t.len() - 1);
}

} // verus!
