//! The store itself: a vector of key / record pairs ordered oldest to newest
//! by last (re)insertion, with hit and miss counters beside it.

use vstd::prelude::*;

use vstd::laws_eq::obeys_concrete_eq;

use vstd::pervasive::cloned;

use crate::clock::clock_now;
use crate::model::distinct_keys;
use crate::model::first_live_index;
use crate::model::has_key;
use crate::model::key_index;
use crate::model::lemma_expired_prefix;
use crate::model::lemma_key_index_of;
use crate::model::lemma_push_fresh;
use crate::model::lemma_remove_at;
use crate::model::lemma_sweep_noop;
use crate::model::lemma_sweep_preserves_live;
use crate::model::lemma_sweep_step;
use crate::model::lemma_update_same_key;
use crate::model::live_at;
use crate::model::new_record;
use crate::model::record_of;
use crate::model::remove_key;
use crate::model::renewed;
use crate::model::spec_get;
use crate::model::spec_insert;
use crate::model::spec_insert_prior;
use crate::model::spec_reset_ttl;
use crate::model::sweep;
use crate::record::deadline;
use crate::record::InternalEntry;

verus! {

/// A key-value store whose entries each carry their own time-to-live.
///
/// Keys must compare by an equality that agrees with logical equality; every
/// operation that searches by key requires `obeys_concrete_eq::<K>()`, which
/// holds of the integer and boolean types out of the box.
pub struct TtlCache<K, V> {
    pub(crate) entries: Vec<(K, InternalEntry<V>)>,
    pub(crate) hits: usize,
    pub(crate) misses: usize,
    pub(crate) since: u64,
}

impl<K, V> View for TtlCache<K, V> {
    type V = Seq<(K, InternalEntry<V>)>;

    closed spec fn view(&self) -> Seq<(K, InternalEntry<V>)> {
        self.entries@
    }
}

impl<K, V> TtlCache<K, V> {
    /// Hits counted since the counters were last reset.
    pub closed spec fn spec_hits(&self) -> usize {
        self.hits
    }

    /// Misses counted since the counters were last reset.
    pub closed spec fn spec_misses(&self) -> usize {
        self.misses
    }

    /// The instant the counters were last reset (or the store created).
    pub closed spec fn spec_since(&self) -> u64 {
        self.since
    }

    /// The store's invariant: no key is bound twice.
    pub open spec fn wf(&self) -> bool {
        distinct_keys(self@)
    }
}

/// Key comparison, tied to logical equality by `obeys_concrete_eq`.
fn keys_equal<K: Eq>(a: &K, b: &K) -> (r: bool)
    requires
        obeys_concrete_eq::<K>(),
    ensures
        r == (a == b),
{
    proof {
        reveal(vstd::laws_eq::obeys_concrete_eq);
    }
    a == b
}

/// A mutable borrow of the value at position `i`: everything else, the key
/// and the timing fields included, stays as it was.
pub(crate) fn value_mut<K, V>(v: &mut Vec<(K, InternalEntry<V>)>, i: usize) -> (r: &mut V)
    requires
        i < old(v)@.len(),
    ensures
        *r == old(v)@[i as int].1.value,
        final(v)@ == old(v)@.update(
            i as int,
            (
                old(v)@[i as int].0,
                (InternalEntry {
                    value: *final(r),
                    expiration: old(v)@[i as int].1.expiration,
                    duration: old(v)@[i as int].1.duration,
                }),
            ),
        ),
{
    &mut v[i].1.value
}

/// Renews the record at position `i` in place.
pub(crate) fn renew_record<K, V>(v: &mut Vec<(K, InternalEntry<V>)>, i: usize, now: u64)
    requires
        i < old(v)@.len(),
    ensures
        final(v)@ == old(v)@.update(
            i as int,
            (old(v)@[i as int].0, renewed(old(v)@[i as int].1, now)),
        ),
{
    v[i].1.reset_duration(now);
}

impl<K, V> TtlCache<K, V> {
    /// An empty store whose statistics window starts at `now`.
    pub fn new_at(now: u64) -> (r: Self)
        ensures
            r@ == Seq::<(K, InternalEntry<V>)>::empty(),
            r.wf(),
            r.spec_hits() == 0,
            r.spec_misses() == 0,
            r.spec_since() == now,
    {
        TtlCache { entries: Vec::new(), hits: 0, misses: 0, since: now }
    }

    /// An empty store; the statistics window starts at the current instant.
    pub fn new() -> (r: Self)
        ensures
            r@ == Seq::<(K, InternalEntry<V>)>::empty(),
            r.wf(),
            r.spec_hits() == 0,
            r.spec_misses() == 0,
    {
        Self::new_at(clock_now())
    }

    /// Hits counted since the counters were last reset.
    pub fn hit_count(&self) -> (r: usize)
        ensures
            r == self.spec_hits(),
    {
        self.hits
    }

    /// Misses counted since the counters were last reset.
    pub fn miss_count(&self) -> (r: usize)
        ensures
            r == self.spec_misses(),
    {
        self.misses
    }

    /// The instant the statistics window was last opened: store creation or
    /// the most recent counter reset.
    pub fn stats_since(&self) -> (r: u64)
        ensures
            r == self.spec_since(),
    {
        self.since
    }

    /// Zeroes both counters and restamps the window at `now`; the entries are
    /// untouched.
    pub fn reset_stats_counter_at(&mut self, now: u64)
        ensures
            final(self)@ == old(self)@,
            final(self).spec_hits() == 0,
            final(self).spec_misses() == 0,
            final(self).spec_since() == now,
    {
        self.hits = 0;
        self.misses = 0;
        self.since = now;
    }

    /// Zeroes both counters and restamps the window at the current instant.
    pub fn reset_stats_counter(&mut self)
        ensures
            final(self)@ == old(self)@,
            final(self).spec_hits() == 0,
            final(self).spec_misses() == 0,
    {
        let now = clock_now();
        self.reset_stats_counter_at(now);
    }

    /// Removes every entry unconditionally, with no expiration check; the
    /// counters are untouched.
    pub fn clear(&mut self)
        ensures
            final(self)@ == Seq::<(K, InternalEntry<V>)>::empty(),
            final(self).wf(),
            final(self).spec_hits() == old(self).spec_hits(),
            final(self).spec_misses() == old(self).spec_misses(),
            final(self).spec_since() == old(self).spec_since(),
    {
        self.entries.clear();
    }

    /// The passive sweep at `now`: repeatedly removes the oldest entry while
    /// it is expired, and stops at the first live (or no) oldest entry.  An
    /// expired entry behind a live one is deliberately left alone.
    pub fn remove_expired_at(&mut self, now: u64)
        requires
            old(self).wf(),
        ensures
            final(self)@ == sweep(old(self)@, now),
            final(self).wf(),
            final(self).spec_hits() == old(self).spec_hits(),
            final(self).spec_misses() == old(self).spec_misses(),
            final(self).spec_since() == old(self).spec_since(),
    {
        while self.entries.len() > 0 && self.entries[0].1.is_expired(now)
            invariant
                self.wf(),
                sweep(self@, now) == sweep(old(self)@, now),
                self.spec_hits() == old(self).spec_hits(),
                self.spec_misses() == old(self).spec_misses(),
                self.spec_since() == old(self).spec_since(),
            decreases self@.len(),
        {
            proof {
                lemma_sweep_step(self@, now);
                lemma_remove_at(self@, 0);
            }
            self.entries.remove(0);
        }
        proof {
            lemma_sweep_noop(self@, now);
        }
    }

    /// The passive sweep at the current instant.  Whatever the clock read,
    /// what remains is a suffix of the entries: only a prefix of oldest
    /// entries is ever trimmed.
    pub fn remove_expired(&mut self)
        requires
            old(self).wf(),
        ensures
            final(self).wf(),
            final(self).spec_hits() == old(self).spec_hits(),
            final(self).spec_misses() == old(self).spec_misses(),
            final(self).spec_since() == old(self).spec_since(),
            exists|now: u64| final(self)@ == #[trigger] sweep(old(self)@, now),
            exists|n: int| 0 <= n <= old(self)@.len() && final(self)@ == old(self)@.skip(n),
    {
        let now = clock_now();
        self.remove_expired_at(now);
        proof {
            lemma_expired_prefix(old(self)@, now);
        }
    }
}

impl<K: Eq, V> TtlCache<K, V> {
    /// The position of `k` among the entries, expired or not.
    pub(crate) fn position_of(&self, k: &K) -> (r: Option<usize>)
        requires
            obeys_concrete_eq::<K>(),
        ensures
            match r {
                Some(i) => i < self@.len() && self@[i as int].0 == *k && forall|j: int|
                    0 <= j < i ==> self@[j].0 != *k,
                None => !has_key(self@, *k),
            },
    {
        let n = self.entries.len();
        let mut i: usize = 0;
        while i < n
            invariant
                obeys_concrete_eq::<K>(),
                n == self@.len(),
                i <= n,
                forall|j: int| 0 <= j < i ==> self@[j].0 != *k,
            decreases n - i,
        {
            if keys_equal(&self.entries[i].0, k) {
                return Some(i);
            }
            i = i + 1;
        }
        None
    }

    /// A lookup at `now`: the stored value exactly when the entry is present
    /// and unexpired; an expired entry is not removed by this call.  Counts
    /// one hit or one miss.
    pub fn get_at(&mut self, k: &K, now: u64) -> (r: Option<&V>)
        requires
            obeys_concrete_eq::<K>(),
            old(self).wf(),
        ensures
            final(self)@ == old(self)@,
            final(self).spec_since() == old(self).spec_since(),
            r.is_some() == live_at(old(self)@, *k, now),
            (r matches Some(v) ==> *v == record_of(old(self)@, *k).value),
            final(self).spec_hits() == if live_at(old(self)@, *k, now) {
                old(self).spec_hits().saturating_add(1)
            } else {
                old(self).spec_hits()
            },
            final(self).spec_misses() == if live_at(old(self)@, *k, now) {
                old(self).spec_misses()
            } else {
                old(self).spec_misses().saturating_add(1)
            },
    {
        match self.position_of(k) {
            Some(i) => {
                proof {
                    lemma_key_index_of(self@, *k, i as int);
                }
                if self.entries[i].1.is_expired(now) {
                    self.misses = self.misses.saturating_add(1);
                    None
                } else {
                    self.hits = self.hits.saturating_add(1);
                    Some(&self.entries[i].1.value)
                }
            },
            None => {
                self.misses = self.misses.saturating_add(1);
                None
            },
        }
    }

    /// A lookup at the current instant.  Whatever the clock read: only the
    /// value stored under `k` can come back, an absent key yields nothing,
    /// the entries are untouched, and exactly one counter advanced.
    pub fn get(&mut self, k: &K) -> (r: Option<&V>)
        requires
            obeys_concrete_eq::<K>(),
            old(self).wf(),
        ensures
            final(self)@ == old(self)@,
            final(self).spec_since() == old(self).spec_since(),
            (r matches Some(v) ==> has_key(old(self)@, *k) && *v == record_of(
                old(self)@,
                *k,
            ).value),
            !has_key(old(self)@, *k) ==> r.is_none(),
            exists|now: u64|
                {
                    &&& r.is_some() == #[trigger] live_at(old(self)@, *k, now)
                    &&& final(self).spec_hits() == if live_at(old(self)@, *k, now) {
                        old(self).spec_hits().saturating_add(1)
                    } else {
                        old(self).spec_hits()
                    }
                    &&& final(self).spec_misses() == if live_at(old(self)@, *k, now) {
                        old(self).spec_misses()
                    } else {
                        old(self).spec_misses().saturating_add(1)
                    }
                },
    {
        let now = clock_now();
        self.get_at(k, now)
    }

    /// `get_at`, with the same counting, as a bare presence test.
    pub fn contains_key_at(&mut self, k: &K, now: u64) -> (r: bool)
        requires
            obeys_concrete_eq::<K>(),
            old(self).wf(),
        ensures
            final(self)@ == old(self)@,
            final(self).spec_since() == old(self).spec_since(),
            r == live_at(old(self)@, *k, now),
            final(self).spec_hits() == if live_at(old(self)@, *k, now) {
                old(self).spec_hits().saturating_add(1)
            } else {
                old(self).spec_hits()
            },
            final(self).spec_misses() == if live_at(old(self)@, *k, now) {
                old(self).spec_misses()
            } else {
                old(self).spec_misses().saturating_add(1)
            },
    {
        self.get_at(k, now).is_some()
    }

    /// A presence test at the current instant, counting as `get` does.
    pub fn contains_key(&mut self, k: &K) -> (r: bool)
        requires
            obeys_concrete_eq::<K>(),
            old(self).wf(),
        ensures
            final(self)@ == old(self)@,
            final(self).spec_since() == old(self).spec_since(),
            !has_key(old(self)@, *k) ==> !r,
            exists|now: u64| r == #[trigger] live_at(old(self)@, *k, now),
    {
        let now = clock_now();
        self.contains_key_at(k, now)
    }

    /// A mutable lookup at `now`: same visibility rule as `get_at`, same
    /// counting, and no change to the entry's deadline.  Only the value
    /// behind the returned borrow can differ afterwards.
    pub fn get_mut_at(&mut self, k: &K, now: u64) -> (r: Option<&mut V>)
        requires
            obeys_concrete_eq::<K>(),
            old(self).wf(),
        ensures
            final(self).wf(),
            final(self).spec_since() == old(self).spec_since(),
            r.is_some() == live_at(old(self)@, *k, now),
            final(self).spec_hits() == if live_at(old(self)@, *k, now) {
                old(self).spec_hits().saturating_add(1)
            } else {
                old(self).spec_hits()
            },
            final(self).spec_misses() == if live_at(old(self)@, *k, now) {
                old(self).spec_misses()
            } else {
                old(self).spec_misses().saturating_add(1)
            },
            r.is_some() ==> *r.unwrap() == record_of(old(self)@, *k).value
                && final(self)@ == old(self)@.update(
                key_index(old(self)@, *k),
                (
                    *k,
                    (InternalEntry {
                        value: *final(r.unwrap()),
                        expiration: record_of(old(self)@, *k).expiration,
                        duration: record_of(old(self)@, *k).duration,
                    }),
                ),
            ),
            r.is_none() ==> final(self)@ == old(self)@,
    {
        match self.position_of(k) {
            Some(i) => {
                proof {
                    lemma_key_index_of(self@, *k, i as int);
                }
                if self.entries[i].1.is_expired(now) {
                    self.misses = self.misses.saturating_add(1);
                    None
                } else {
                    self.hits = self.hits.saturating_add(1);
                    proof {
                        assert forall|rec: InternalEntry<V>|
                            #[trigger] distinct_keys(
                                self@.update(i as int, (self@[i as int].0, rec)),
                            ) by {
                            lemma_update_same_key(self@, i as int, rec);
                        }
                    }
                    Some(value_mut(&mut self.entries, i))
                }
            },
            None => {
                self.misses = self.misses.saturating_add(1);
                None
            },
        }
    }

    /// A mutable lookup at the current instant; the deadline is never
    /// extended.
    pub fn get_mut(&mut self, k: &K) -> (r: Option<&mut V>)
        requires
            obeys_concrete_eq::<K>(),
            old(self).wf(),
        ensures
            final(self).wf(),
            final(self).spec_since() == old(self).spec_since(),
            !has_key(old(self)@, *k) ==> r.is_none(),
            r.is_some() ==> has_key(old(self)@, *k) && *r.unwrap() == record_of(
                old(self)@,
                *k,
            ).value && final(self)@ == old(self)@.update(
                key_index(old(self)@, *k),
                (
                    *k,
                    (InternalEntry {
                        value: *final(r.unwrap()),
                        expiration: record_of(old(self)@, *k).expiration,
                        duration: record_of(old(self)@, *k).duration,
                    }),
                ),
            ),
            r.is_none() ==> final(self)@ == old(self)@,
            exists|now: u64|
                {
                    &&& r.is_some() == #[trigger] live_at(old(self)@, *k, now)
                    &&& final(self).spec_hits() == if live_at(old(self)@, *k, now) {
                        old(self).spec_hits().saturating_add(1)
                    } else {
                        old(self).spec_hits()
                    }
                    &&& final(self).spec_misses() == if live_at(old(self)@, *k, now) {
                        old(self).spec_misses()
                    } else {
                        old(self).spec_misses().saturating_add(1)
                    }
                },
    {
        let now = clock_now();
        self.get_mut_at(k, now)
    }

    /// A renewing mutable lookup at `now`: on a live hit the deadline is
    /// first reset to `now` plus the entry's original time-to-live, a
    /// touch-to-renew read.  Visibility and counting are as in `get_at`.
    pub fn get_mut_prolong_at(&mut self, k: &K, now: u64) -> (r: Option<&mut V>)
        requires
            obeys_concrete_eq::<K>(),
            old(self).wf(),
        ensures
            final(self).wf(),
            final(self).spec_since() == old(self).spec_since(),
            r.is_some() == live_at(old(self)@, *k, now),
            final(self).spec_hits() == if live_at(old(self)@, *k, now) {
                old(self).spec_hits().saturating_add(1)
            } else {
                old(self).spec_hits()
            },
            final(self).spec_misses() == if live_at(old(self)@, *k, now) {
                old(self).spec_misses()
            } else {
                old(self).spec_misses().saturating_add(1)
            },
            r.is_some() ==> *r.unwrap() == record_of(old(self)@, *k).value
                && final(self)@ == old(self)@.update(
                key_index(old(self)@, *k),
                (
                    *k,
                    (InternalEntry {
                        value: *final(r.unwrap()),
                        expiration: renewed(record_of(old(self)@, *k), now).expiration,
                        duration: record_of(old(self)@, *k).duration,
                    }),
                ),
            ),
            r.is_none() ==> final(self)@ == old(self)@,
    {
        match self.position_of(k) {
            Some(i) => {
                proof {
                    lemma_key_index_of(self@, *k, i as int);
                }
                if self.entries[i].1.is_expired(now) {
                    self.misses = self.misses.saturating_add(1);
                    None
                } else {
                    self.hits = self.hits.saturating_add(1);
                    renew_record(&mut self.entries, i, now);
                    proof {
                        let s0 = old(self)@;
                        assert forall|rec: InternalEntry<V>|
                            #[trigger] distinct_keys(
                                self@.update(i as int, (self@[i as int].0, rec)),
                            ) by {
                            lemma_update_same_key(self@, i as int, rec);
                        }
                        assert forall|rec: InternalEntry<V>|
                            self@.update(i as int, (s0[i as int].0, rec)) == #[trigger] s0.update(
                                i as int,
                                (s0[i as int].0, rec),
                            ) by {
                            assert(self@.update(i as int, (s0[i as int].0, rec)) =~= s0.update(
                                i as int,
                                (s0[i as int].0, rec),
                            ));
                        }
                    }
                    Some(value_mut(&mut self.entries, i))
                }
            },
            None => {
                self.misses = self.misses.saturating_add(1);
                None
            },
        }
    }

    /// A renewing mutable lookup at the current instant.
    pub fn get_mut_prolong(&mut self, k: &K) -> (r: Option<&mut V>)
        requires
            obeys_concrete_eq::<K>(),
            old(self).wf(),
        ensures
            final(self).wf(),
            final(self).spec_since() == old(self).spec_since(),
            !has_key(old(self)@, *k) ==> r.is_none(),
            r.is_none() ==> final(self)@ == old(self)@,
            exists|now: u64|
                {
                    &&& r.is_some() == #[trigger] live_at(old(self)@, *k, now)
                    &&& (r.is_some() ==> *r.unwrap() == record_of(old(self)@, *k).value
                        && final(self)@ == old(self)@.update(
                        key_index(old(self)@, *k),
                        (
                            *k,
                            (InternalEntry {
                                value: *final(r.unwrap()),
                                expiration: renewed(record_of(old(self)@, *k), now).expiration,
                                duration: record_of(old(self)@, *k).duration,
                            }),
                        ),
                    ))
                    &&& final(self).spec_hits() == if live_at(old(self)@, *k, now) {
                        old(self).spec_hits().saturating_add(1)
                    } else {
                        old(self).spec_hits()
                    }
                    &&& final(self).spec_misses() == if live_at(old(self)@, *k, now) {
                        old(self).spec_misses()
                    } else {
                        old(self).spec_misses().saturating_add(1)
                    }
                },
    {
        let now = clock_now();
        self.get_mut_prolong_at(k, now)
    }

    /// Renews the deadline of a live entry at `now`; a no-op, not an insert,
    /// when the key is absent or already expired.  Does not count.
    pub fn reset_ttl_at(&mut self, k: &K, now: u64)
        requires
            obeys_concrete_eq::<K>(),
            old(self).wf(),
        ensures
            final(self)@ == spec_reset_ttl(old(self)@, *k, now),
            final(self).wf(),
            final(self).spec_hits() == old(self).spec_hits(),
            final(self).spec_misses() == old(self).spec_misses(),
            final(self).spec_since() == old(self).spec_since(),
    {
        match self.position_of(k) {
            Some(i) => {
                proof {
                    lemma_key_index_of(self@, *k, i as int);
                }
                if !self.entries[i].1.is_expired(now) {
                    proof {
                        lemma_update_same_key(self@, i as int, renewed(self@[i as int].1, now));
                    }
                    renew_record(&mut self.entries, i, now);
                }
            },
            None => {},
        }
    }

    /// Renews the deadline of a live entry at the current instant.
    pub fn reset_ttl(&mut self, k: &K)
        requires
            obeys_concrete_eq::<K>(),
            old(self).wf(),
        ensures
            final(self).wf(),
            final(self).spec_hits() == old(self).spec_hits(),
            final(self).spec_misses() == old(self).spec_misses(),
            final(self).spec_since() == old(self).spec_since(),
            exists|now: u64| final(self)@ == #[trigger] spec_reset_ttl(old(self)@, *k, now),
    {
        let now = clock_now();
        self.reset_ttl_at(k, now);
    }

    /// Removes the binding of `k` physically, expired or not; the value comes
    /// back only if it was live at `now`.  Does not count.
    pub fn remove_at(&mut self, k: &K, now: u64) -> (r: Option<V>)
        requires
            obeys_concrete_eq::<K>(),
            old(self).wf(),
        ensures
            final(self)@ == remove_key(old(self)@, *k),
            final(self).wf(),
            final(self).spec_hits() == old(self).spec_hits(),
            final(self).spec_misses() == old(self).spec_misses(),
            final(self).spec_since() == old(self).spec_since(),
            r == spec_get(old(self)@, *k, now),
    {
        match self.position_of(k) {
            Some(i) => {
                proof {
                    lemma_key_index_of(self@, *k, i as int);
                    lemma_remove_at(self@, i as int);
                }
                let (_, rec) = self.entries.remove(i);
                if rec.is_expired(now) {
                    None
                } else {
                    Some(rec.value)
                }
            },
            None => None,
        }
    }

    /// Removes the binding of `k` at the current instant.  Whatever the clock
    /// read, the binding is gone afterwards, and only the stored value can
    /// come back.
    pub fn remove(&mut self, k: &K) -> (r: Option<V>)
        requires
            obeys_concrete_eq::<K>(),
            old(self).wf(),
        ensures
            final(self)@ == remove_key(old(self)@, *k),
            final(self).wf(),
            final(self).spec_hits() == old(self).spec_hits(),
            final(self).spec_misses() == old(self).spec_misses(),
            final(self).spec_since() == old(self).spec_since(),
            (r matches Some(v) ==> has_key(old(self)@, *k) && v == record_of(
                old(self)@,
                *k,
            ).value),
            !has_key(old(self)@, *k) ==> r.is_none(),
            exists|now: u64| r == #[trigger] spec_get(old(self)@, *k, now),
    {
        let now = clock_now();
        self.remove_at(k, now)
    }

    /// A top-level insert at `now`: first the passive sweep runs, then the
    /// fresh record replaces any binding of `k` and takes the newest
    /// position.  The prior value comes back only if it survived the sweep
    /// and was itself unexpired; an expired prior value is discarded
    /// silently.  Does not count.
    pub fn insert_at(&mut self, k: K, v: V, ttl: u64, now: u64) -> (r: Option<V>)
        requires
            obeys_concrete_eq::<K>(),
            old(self).wf(),
        ensures
            final(self)@ == spec_insert(old(self)@, k, v, ttl, now),
            final(self).wf(),
            final(self).spec_hits() == old(self).spec_hits(),
            final(self).spec_misses() == old(self).spec_misses(),
            final(self).spec_since() == old(self).spec_since(),
            r == spec_insert_prior(old(self)@, k, now),
    {
        self.remove_expired_at(now);
        let ghost t = self@;
        let prior = match self.position_of(&k) {
            Some(i) => {
                proof {
                    lemma_key_index_of(self@, k, i as int);
                    lemma_remove_at(self@, i as int);
                }
                let (_, rec) = self.entries.remove(i);
                if rec.is_expired(now) {
                    None
                } else {
                    Some(rec.value)
                }
            },
            None => None,
        };
        proof {
            lemma_push_fresh(self@, k, new_record(v, ttl, now));
        }
        let rec = InternalEntry::new(v, ttl, now);
        self.entries.push((k, rec));
        prior
    }

    /// A top-level insert at the current instant.  Whatever the clock read:
    /// afterwards the newest entry is the fresh record for `k` and no other
    /// binding of `k` remains; what was removed besides is a swept prefix of
    /// oldest entries; and only a value previously stored under `k` can come
    /// back.
    pub fn insert(&mut self, k: K, v: V, ttl: u64) -> (r: Option<V>)
        requires
            obeys_concrete_eq::<K>(),
            old(self).wf(),
        ensures
            final(self).wf(),
            final(self).spec_hits() == old(self).spec_hits(),
            final(self).spec_misses() == old(self).spec_misses(),
            final(self).spec_since() == old(self).spec_since(),
            (r matches Some(pv) ==> has_key(old(self)@, k) && pv == record_of(
                old(self)@,
                k,
            ).value),
            !has_key(old(self)@, k) ==> r.is_none(),
            exists|now: u64|
                {
                    &&& final(self)@ == #[trigger] spec_insert(old(self)@, k, v, ttl, now)
                    &&& r == spec_insert_prior(old(self)@, k, now)
                },
    {
        let now = clock_now();
        let ghost s = self@;
        let r = self.insert_at(k, v, ttl, now);
        proof {
            if r is Some {
                lemma_sweep_preserves_live(s, k, now);
            }
        }
        r
    }
}

impl<K, V> Default for TtlCache<K, V> {
    /// An empty store, as `new` builds it.
    fn default() -> (r: Self)
        ensures
            r@ == Seq::<(K, InternalEntry<V>)>::empty(),
            r.wf(),
            r.spec_hits() == 0,
            r.spec_misses() == 0,
    {
        Self::new()
    }
}

impl<K: Copy, V: Clone> Clone for TtlCache<K, V> {
    /// A full independent copy: the keys, the order, every deadline and
    /// time-to-live, and the counters all carry over; each value is the
    /// caller's `V::clone` of the original.
    fn clone(&self) -> (r: Self)
        ensures
            r@.len() == self@.len(),
            forall|i: int|
                0 <= i < self@.len() ==> #[trigger] r@[i].0 == self@[i].0 && r@[i].1.expiration
                    == self@[i].1.expiration && r@[i].1.duration == self@[i].1.duration && cloned::<
                    V,
                >(self@[i].1.value, r@[i].1.value),
            self.wf() ==> r.wf(),
            r.spec_hits() == self.spec_hits(),
            r.spec_misses() == self.spec_misses(),
            r.spec_since() == self.spec_since(),
    {
        let n = self.entries.len();
        let mut out: Vec<(K, InternalEntry<V>)> = Vec::new();
        let mut i: usize = 0;
        while i < n
            invariant
                n == self@.len(),
                i <= n,
                out@.len() == i,
                forall|j: int|
                    0 <= j < i ==> #[trigger] out@[j].0 == self@[j].0 && out@[j].1.expiration
                        == self@[j].1.expiration && out@[j].1.duration == self@[j].1.duration
                        && cloned::<V>(self@[j].1.value, out@[j].1.value),
            decreases n - i,
        {
            let pair = &self.entries[i];
            let key = pair.0;
            let value = pair.1.value.clone();
            out.push((key, InternalEntry { value, expiration: pair.1.expiration, duration: pair.1.duration }));
            i = i + 1;
        }
        proof {
            if distinct_keys(self@) {
                assert forall|p: int, q: int| 0 <= p < q < out@.len() implies out@[p].0
                    != out@[q].0 by {
                    assert(self@[p].0 != self@[q].0);
                }
            }
        }
        TtlCache { entries: out, hits: self.hits, misses: self.misses, since: self.since }
    }
}

/// A view into a single occupied slot whose record was live when the view
/// was taken.
pub struct OccupiedEntry<K> {
    key: K,
    index: usize,
}

/// A view into the slot of a key that has no live record: the key is absent,
/// an expired record having been removed when the view was taken.
pub struct VacantEntry<K> {
    key: K,
}

/// A view into a single slot of the store, occupied or vacant, obtained from
/// `entry`.  The view carries the key and, when occupied, the slot's
/// position; an operation through the view takes the store again and
/// requires that the slot still looks as the view recorded it, so the store
/// is not to be changed between taking the view and using it.
pub enum Entry<K> {
    /// An occupied slot.
    Occupied(OccupiedEntry<K>),
    /// A vacant slot.
    Vacant(VacantEntry<K>),
}

impl<K> OccupiedEntry<K> {
    /// The key the view was taken for.
    pub closed spec fn spec_key(&self) -> K {
        self.key
    }

    /// The position of the slot in the store's order.
    pub closed spec fn spec_index(&self) -> int {
        self.index as int
    }

    /// The view still points at its slot: the store holds this key at this
    /// position.
    pub open spec fn describes<V>(&self, c: &TtlCache<K, V>) -> bool {
        &&& 0 <= self.spec_index() < c@.len()
        &&& c@[self.spec_index()].0 == self.spec_key()
    }

    /// A reference to the entry's key.
    pub fn key(&self) -> (r: &K)
        ensures
            *r == self.spec_key(),
    {
        &self.key
    }

    /// A reference to the value in the slot.
    pub fn get<'a, V>(&self, cache: &'a TtlCache<K, V>) -> (r: &'a V)
        requires
            self.describes(cache),
        ensures
            *r == cache@[self.spec_index()].1.value,
            cache.wf() ==> *r == record_of(cache@, self.spec_key()).value,
    {
        proof {
            if cache.wf() {
                lemma_key_index_of(cache@, self.spec_key(), self.spec_index());
            }
        }
        &cache.entries[self.index].1.value
    }

    /// A mutable reference to the value in the slot; the key, the deadline
    /// and the order are untouched.
    pub fn get_mut<'a, V>(&self, cache: &'a mut TtlCache<K, V>) -> (r: &'a mut V)
        requires
            self.describes(old(cache)),
        ensures
            *r == old(cache)@[self.spec_index()].1.value,
            final(cache)@ == old(cache)@.update(
                self.spec_index(),
                (
                    self.spec_key(),
                    (InternalEntry {
                        value: *final(r),
                        expiration: old(cache)@[self.spec_index()].1.expiration,
                        duration: old(cache)@[self.spec_index()].1.duration,
                    }),
                ),
            ),
            old(cache).wf() ==> final(cache).wf(),
            final(cache).spec_hits() == old(cache).spec_hits(),
            final(cache).spec_misses() == old(cache).spec_misses(),
            final(cache).spec_since() == old(cache).spec_since(),
    {
        proof {
            if old(cache).wf() {
                assert forall|rec: InternalEntry<V>|
                    #[trigger] distinct_keys(
                        cache@.update(self.spec_index(), (cache@[self.spec_index()].0, rec)),
                    ) by {
                    lemma_update_same_key(cache@, self.spec_index(), rec);
                }
            }
        }
        value_mut(&mut cache.entries, self.index)
    }

    /// Replaces the record in place at `now`: same key, same position, a
    /// fresh deadline from the given time-to-live; the old value comes back.
    /// Unlike the top-level insert, no sweep runs.
    pub fn insert_at<V>(&self, cache: &mut TtlCache<K, V>, value: V, ttl: u64, now: u64) -> (r: V)
        requires
            self.describes(old(cache)),
        ensures
            r == old(cache)@[self.spec_index()].1.value,
            final(cache)@ == old(cache)@.update(
                self.spec_index(),
                (self.spec_key(), new_record(value, ttl, now)),
            ),
            old(cache).wf() ==> final(cache).wf(),
            final(cache).spec_hits() == old(cache).spec_hits(),
            final(cache).spec_misses() == old(cache).spec_misses(),
            final(cache).spec_since() == old(cache).spec_since(),
    {
        let (k0, rec0) = cache.entries.remove(self.index);
        cache.entries.insert(self.index, (k0, InternalEntry::new(value, ttl, now)));
        proof {
            assert(cache@ =~= old(cache)@.update(
                self.spec_index(),
                (self.spec_key(), new_record(value, ttl, now)),
            ));
            if old(cache).wf() {
                lemma_update_same_key(old(cache)@, self.spec_index(), new_record(value, ttl, now));
            }
        }
        rec0.value
    }

    /// Replaces the record in place with a deadline taken from the current
    /// instant; the old value comes back whatever the clock read.
    pub fn insert<V>(&self, cache: &mut TtlCache<K, V>, value: V, ttl: u64) -> (r: V)
        requires
            self.describes(old(cache)),
        ensures
            r == old(cache)@[self.spec_index()].1.value,
            old(cache).wf() ==> final(cache).wf(),
            final(cache).spec_hits() == old(cache).spec_hits(),
            final(cache).spec_misses() == old(cache).spec_misses(),
            final(cache).spec_since() == old(cache).spec_since(),
            exists|now: u64|
                final(cache)@ == old(cache)@.update(
                    self.spec_index(),
                    (self.spec_key(), #[trigger] new_record(value, ttl, now)),
                ),
    {
        let now = clock_now();
        self.insert_at(cache, value, ttl, now)
    }
}

impl<K> VacantEntry<K> {
    /// The key the view was taken for.
    pub closed spec fn spec_key(&self) -> K {
        self.key
    }

    /// A reference to the entry's key.
    pub fn key(&self) -> (r: &K)
        ensures
            *r == self.spec_key(),
    {
        &self.key
    }

    /// Fills the vacant slot at `now`: the fresh record takes the newest
    /// position, and a mutable reference to the stored value comes back.
    /// Consuming the view makes it single-use.
    pub fn insert_at<'a, V>(
        self,
        cache: &'a mut TtlCache<K, V>,
        value: V,
        ttl: u64,
        now: u64,
    ) -> (r: &'a mut V)
        requires
            !has_key(old(cache)@, self.spec_key()),
        ensures
            *r == value,
            final(cache)@ == old(cache)@.push(
                (
                    self.spec_key(),
                    (InternalEntry {
                        value: *final(r),
                        expiration: deadline(now, ttl),
                        duration: ttl,
                    }),
                ),
            ),
            old(cache).wf() ==> final(cache).wf(),
            final(cache).spec_hits() == old(cache).spec_hits(),
            final(cache).spec_misses() == old(cache).spec_misses(),
            final(cache).spec_since() == old(cache).spec_since(),
    {
        let i = cache.entries.len();
        cache.entries.push((self.key, InternalEntry::new(value, ttl, now)));
        proof {
            let s0 = old(cache)@;
            let key = self.spec_key();
            assert forall|rec: InternalEntry<V>|
                cache@.update(i as int, (key, rec)) == #[trigger] s0.push((key, rec)) by {
                assert(cache@.update(i as int, (key, rec)) =~= s0.push((key, rec)));
            }
            if old(cache).wf() {
                assert forall|rec: InternalEntry<V>| #[trigger] distinct_keys(
                    s0.push((key, rec)),
                ) by {
                    lemma_push_fresh(s0, key, rec);
                }
            }
        }
        value_mut(&mut cache.entries, i)
    }

    /// Fills the vacant slot with a deadline taken from the current instant.
    pub fn insert<'a, V>(self, cache: &'a mut TtlCache<K, V>, value: V, ttl: u64) -> (r: &'a mut V)
        requires
            !has_key(old(cache)@, self.spec_key()),
        ensures
            *r == value,
            old(cache).wf() ==> final(cache).wf(),
            final(cache).spec_hits() == old(cache).spec_hits(),
            final(cache).spec_misses() == old(cache).spec_misses(),
            final(cache).spec_since() == old(cache).spec_since(),
            exists|now: u64|
                final(cache)@ == old(cache)@.push(
                    (
                        self.spec_key(),
                        (InternalEntry {
                            value: *final(r),
                            expiration: #[trigger] deadline(now, ttl),
                            duration: ttl,
                        }),
                    ),
                ),
    {
        let now = clock_now();
        self.insert_at(cache, value, ttl, now)
    }
}

impl<K> Entry<K> {
    /// The key the view was taken for, whichever the variant.
    pub open spec fn spec_key(&self) -> K {
        match self {
            Entry::Occupied(e) => e.spec_key(),
            Entry::Vacant(e) => e.spec_key(),
        }
    }

    /// A reference to the entry's key.
    pub fn key(&self) -> (r: &K)
        ensures
            *r == self.spec_key(),
    {
        match self {
            Entry::Occupied(e) => e.key(),
            Entry::Vacant(e) => e.key(),
        }
    }
}

impl<K: Eq, V> TtlCache<K, V> {
    /// The view of `k`'s slot at `now`.  A live record gives an occupied
    /// view at its position; otherwise the view is vacant, an expired record
    /// being physically removed first, so vacant means no live record, not
    /// merely not yet looked at.  Does not count.
    pub fn entry_at(&mut self, k: K, now: u64) -> (r: Entry<K>)
        requires
            obeys_concrete_eq::<K>(),
            old(self).wf(),
        ensures
            final(self).wf(),
            final(self).spec_hits() == old(self).spec_hits(),
            final(self).spec_misses() == old(self).spec_misses(),
            final(self).spec_since() == old(self).spec_since(),
            r.spec_key() == k,
            live_at(old(self)@, k, now) ==> final(self)@ == old(self)@ && (r matches Entry::Occupied(
                e,
            ) && e.spec_index() == key_index(old(self)@, k) && e.describes(final(self))),
            !live_at(old(self)@, k, now) ==> final(self)@ == remove_key(old(self)@, k) && (
            r matches Entry::Vacant(_e)) && !has_key(final(self)@, k),
    {
        match self.position_of(&k) {
            Some(i) => {
                proof {
                    lemma_key_index_of(self@, k, i as int);
                }
                if self.entries[i].1.is_expired(now) {
                    proof {
                        lemma_remove_at(self@, i as int);
                    }
                    self.entries.remove(i);
                    Entry::Vacant(VacantEntry { key: k })
                } else {
                    Entry::Occupied(OccupiedEntry { key: k, index: i })
                }
            },
            None => Entry::Vacant(VacantEntry { key: k }),
        }
    }

    /// The view of `k`'s slot at the current instant.  Whatever the clock
    /// read: an occupied view points at `k`'s live slot and the entries are
    /// untouched; a vacant view leaves no binding of `k` behind.
    pub fn entry(&mut self, k: K) -> (r: Entry<K>)
        requires
            obeys_concrete_eq::<K>(),
            old(self).wf(),
        ensures
            final(self).wf(),
            final(self).spec_hits() == old(self).spec_hits(),
            final(self).spec_misses() == old(self).spec_misses(),
            final(self).spec_since() == old(self).spec_since(),
            r.spec_key() == k,
            (r matches Entry::Occupied(e) ==> final(self)@ == old(self)@ && has_key(old(self)@, k)
                && e.spec_index() == key_index(old(self)@, k) && e.describes(final(self))),
            (r matches Entry::Vacant(_e) ==> final(self)@ == remove_key(old(self)@, k) && !has_key(
                final(self)@,
                k,
            )),
            exists|now: u64| (r matches Entry::Occupied(_e)) == #[trigger] live_at(
                old(self)@,
                k,
                now,
            ),
    {
        let now = clock_now();
        self.entry_at(k, now)
    }
}

/// A cursor over the store's order, oldest to newest, handed out by `iter`.
/// It holds the half-open range of positions still to visit; each step takes
/// the store again, and the store is not to be changed while iterating.
/// Forward steps skip expired entries one at a time; a backward step halts at
/// the first expired entry it meets (see `next_back_at`).
#[derive(Clone, Copy)]
pub struct Iter {
    front: usize,
    back: usize,
}

impl Iter {
    /// The oldest position still to visit.
    pub closed spec fn spec_front(&self) -> int {
        self.front as int
    }

    /// The position just past the newest still to visit.
    pub closed spec fn spec_back(&self) -> int {
        self.back as int
    }

    /// The range is ordered and lies within the store.
    pub open spec fn wf<K, V>(&self, c: &TtlCache<K, V>) -> bool {
        0 <= self.spec_front() <= self.spec_back() <= c@.len()
    }

    /// How many positions are still to visit, expired entries included.
    pub fn size_hint(&self) -> (r: (usize, Option<usize>))
        requires
            self.spec_front() <= self.spec_back(),
        ensures
            r.0 == self.spec_back() - self.spec_front(),
            r.1 == Some(r.0),
    {
        let n = self.back - self.front;
        (n, Some(n))
    }

    /// The oldest entry in the range that is live at `now`, skipping any
    /// expired entries before it; nothing once the range is exhausted.
    pub fn next_at<'a, K, V>(&mut self, cache: &'a TtlCache<K, V>, now: u64) -> (r: Option<
        (&'a K, &'a V),
    >)
        requires
            old(self).wf(cache),
        ensures
            final(self).wf(cache),
            final(self).spec_back() == old(self).spec_back(),
            ({
                let j = first_live_index(
                    cache@,
                    old(self).spec_front(),
                    old(self).spec_back(),
                    now,
                );
                &&& r.is_some() == (j < old(self).spec_back())
                &&& final(self).spec_front() == if j < old(self).spec_back() {
                    j + 1
                } else {
                    old(self).spec_back()
                }
                &&& (r matches Some(p) ==> *p.0 == cache@[j].0 && *p.1 == cache@[j].1.value)
            }),
    {
        while self.front < self.back
            invariant
                old(self).spec_front() <= self.spec_front() <= self.spec_back() <= cache@.len(),
                self.spec_back() == old(self).spec_back(),
                first_live_index(cache@, old(self).spec_front(), self.spec_back(), now)
                    == first_live_index(cache@, self.spec_front(), self.spec_back(), now),
            decreases self.spec_back() - self.spec_front(),
        {
            let i = self.front;
            self.front = i + 1;
            if !cache.entries[i].1.is_expired(now) {
                return Some((&cache.entries[i].0, &cache.entries[i].1.value));
            }
        }
        None
    }

    /// A forward step at the current instant: expiration is judged at the
    /// time of the visit, not at the time the cursor was made.
    pub fn next<'a, K, V>(&mut self, cache: &'a TtlCache<K, V>) -> (r: Option<(&'a K, &'a V)>)
        requires
            old(self).wf(cache),
        ensures
            final(self).wf(cache),
            final(self).spec_back() == old(self).spec_back(),
            exists|now: u64|
                ({
                    let j = first_live_index(
                        cache@,
                        old(self).spec_front(),
                        old(self).spec_back(),
                        now,
                    );
                    &&& r.is_some() == (#[trigger] first_live_index(
                        cache@,
                        old(self).spec_front(),
                        old(self).spec_back(),
                        now,
                    ) < old(self).spec_back())
                    &&& final(self).spec_front() == if j < old(self).spec_back() {
                        j + 1
                    } else {
                        old(self).spec_back()
                    }
                    &&& (r matches Some(p) ==> *p.0 == cache@[j].0 && *p.1 == cache@[j].1.value)
                }),
    {
        let now = clock_now();
        self.next_at(cache, now)
    }

    /// A backward step at `now`: the newest entry still in range if it is
    /// live.  If that entry is expired the step yields nothing at once - on
    /// the assumption that everything older is expired too - even when a
    /// live entry still lies further toward the front; the range shrinks by
    /// one either way.
    pub fn next_back_at<'a, K, V>(&mut self, cache: &'a TtlCache<K, V>, now: u64) -> (r: Option<
        (&'a K, &'a V),
    >)
        requires
            old(self).wf(cache),
        ensures
            final(self).wf(cache),
            final(self).spec_front() == old(self).spec_front(),
            old(self).spec_front() == old(self).spec_back() ==> r.is_none() && final(self).spec_back() == old(self).spec_back(),
            old(self).spec_front() < old(self).spec_back() ==> final(self).spec_back() == old(self).spec_back() - 1 && ({
                let e = cache@[old(self).spec_back() - 1];
                &&& r.is_some() == !e.1.spec_expired(now)
                &&& (r matches Some(p) ==> *p.0 == e.0 && *p.1 == e.1.value)
            }),
    {
        if self.front < self.back {
            let i = self.back - 1;
            self.back = i;
            if cache.entries[i].1.is_expired(now) {
                None
            } else {
                Some((&cache.entries[i].0, &cache.entries[i].1.value))
            }
        } else {
            None
        }
    }

    /// A backward step at the current instant.
    pub fn next_back<'a, K, V>(&mut self, cache: &'a TtlCache<K, V>) -> (r: Option<(&'a K, &'a V)>)
        requires
            old(self).wf(cache),
        ensures
            final(self).wf(cache),
            final(self).spec_front() == old(self).spec_front(),
            old(self).spec_front() == old(self).spec_back() ==> r.is_none() && final(self).spec_back() == old(self).spec_back(),
            old(self).spec_front() < old(self).spec_back() ==> final(self).spec_back() == old(self).spec_back() - 1 && (r matches Some(p) ==> *p.0 == cache@[old(self).spec_back() - 1].0
                && *p.1 == cache@[old(self).spec_back() - 1].1.value),
            old(self).spec_front() < old(self).spec_back() ==> exists|now: u64|
                r.is_some() == !(#[trigger] cache@[old(self).spec_back() - 1].1.spec_expired(now)),
    {
        let now = clock_now();
        let r = self.next_back_at(cache, now);
        proof {
            assert(old(self).spec_front() < old(self).spec_back() ==> r.is_some() == !(cache@[old(
                self,
            ).spec_back() - 1].1.spec_expired(now)));
        }
        r
    }
}

/// A cursor like `Iter` whose forward step hands out the value mutably; only
/// the value behind the returned borrow can change, never a key, a deadline
/// or the order.
pub struct IterMut {
    front: usize,
    back: usize,
}

impl IterMut {
    /// The oldest position still to visit.
    pub closed spec fn spec_front(&self) -> int {
        self.front as int
    }

    /// The position just past the newest still to visit.
    pub closed spec fn spec_back(&self) -> int {
        self.back as int
    }

    /// The range is ordered and lies within the store.
    pub open spec fn wf<K, V>(&self, c: &TtlCache<K, V>) -> bool {
        0 <= self.spec_front() <= self.spec_back() <= c@.len()
    }

    /// How many positions are still to visit, expired entries included.
    pub fn size_hint(&self) -> (r: (usize, Option<usize>))
        requires
            self.spec_front() <= self.spec_back(),
        ensures
            r.0 == self.spec_back() - self.spec_front(),
            r.1 == Some(r.0),
    {
        let n = self.back - self.front;
        (n, Some(n))
    }

    /// The oldest live entry in the range at `now`, its value borrowed
    /// mutably; expired entries before it are skipped, not removed.
    pub fn next_at<'a, K, V>(&mut self, cache: &'a mut TtlCache<K, V>, now: u64) -> (r: Option<
        (&'a K, &'a mut V),
    >)
        requires
            old(self).wf(old(cache)),
        ensures
            final(self).spec_back() == old(self).spec_back(),
            old(cache).wf() ==> final(cache).wf(),
            final(cache).spec_hits() == old(cache).spec_hits(),
            final(cache).spec_misses() == old(cache).spec_misses(),
            final(cache).spec_since() == old(cache).spec_since(),
            ({
                let s = old(cache)@;
                let j = first_live_index(s, old(self).spec_front(), old(self).spec_back(), now);
                &&& r.is_some() == (j < old(self).spec_back())
                &&& final(self).spec_front() == if j < old(self).spec_back() {
                    j + 1
                } else {
                    old(self).spec_back()
                }
                &&& (r.is_some() ==> *r.unwrap().0 == s[j].0 && *r.unwrap().1 == s[j].1.value
                    && final(cache)@ == s.update(
                    j,
                    (
                        s[j].0,
                        (InternalEntry {
                            value: *final(r.unwrap().1),
                            expiration: s[j].1.expiration,
                            duration: s[j].1.duration,
                        }),
                    ),
                ))
                &&& (r.is_none() ==> final(cache)@ == s)
            }),
    {
        while self.front < self.back
            invariant
                old(self).spec_front() <= self.spec_front() <= self.spec_back() <= cache@.len(),
                self.spec_back() == old(self).spec_back(),
                cache == old(cache),
                first_live_index(cache@, old(self).spec_front(), self.spec_back(), now)
                    == first_live_index(cache@, self.spec_front(), self.spec_back(), now),
            decreases self.spec_back() - self.spec_front(),
        {
            let i = self.front;
            self.front = i + 1;
            if !cache.entries[i].1.is_expired(now) {
                proof {
                    if old(cache).wf() {
                        assert forall|rec: InternalEntry<V>|
                            #[trigger] distinct_keys(
                                cache@.update(i as int, (cache@[i as int].0, rec)),
                            ) by {
                            lemma_update_same_key(cache@, i as int, rec);
                        }
                    }
                }
                return Some(pair_mut(&mut cache.entries, i));
            }
        }
        None
    }

    /// A forward step at the current instant.
    pub fn next<'a, K, V>(&mut self, cache: &'a mut TtlCache<K, V>) -> (r: Option<
        (&'a K, &'a mut V),
    >)
        requires
            old(self).wf(old(cache)),
        ensures
            final(self).spec_back() == old(self).spec_back(),
            old(cache).wf() ==> final(cache).wf(),
            final(cache).spec_hits() == old(cache).spec_hits(),
            final(cache).spec_misses() == old(cache).spec_misses(),
            final(cache).spec_since() == old(cache).spec_since(),
            exists|now: u64|
                ({
                    let s = old(cache)@;
                    let j = first_live_index(
                        s,
                        old(self).spec_front(),
                        old(self).spec_back(),
                        now,
                    );
                    &&& r.is_some() == (#[trigger] first_live_index(
                        old(cache)@,
                        old(self).spec_front(),
                        old(self).spec_back(),
                        now,
                    ) < old(self).spec_back())
                    &&& final(self).spec_front() == if j < old(self).spec_back() {
                        j + 1
                    } else {
                        old(self).spec_back()
                    }
                    &&& (r.is_some() ==> *r.unwrap().0 == s[j].0 && *r.unwrap().1 == s[j].1.value
                        && final(cache)@ == s.update(
                        j,
                        (
                            s[j].0,
                            (InternalEntry {
                                value: *final(r.unwrap().1),
                                expiration: s[j].1.expiration,
                                duration: s[j].1.duration,
                            }),
                        ),
                    ))
                    &&& (r.is_none() ==> final(cache)@ == s)
                }),
    {
        let now = clock_now();
        self.next_at(cache, now)
    }

    /// A backward step at `now`, with the early stop of `Iter::next_back_at`;
    /// a live newest entry comes back with its value borrowed mutably.
    pub fn next_back_at<'a, K, V>(&mut self, cache: &'a mut TtlCache<K, V>, now: u64) -> (r: Option<
        (&'a K, &'a mut V),
    >)
        requires
            old(self).wf(old(cache)),
        ensures
            final(self).spec_front() == old(self).spec_front(),
            old(cache).wf() ==> final(cache).wf(),
            final(cache).spec_hits() == old(cache).spec_hits(),
            final(cache).spec_misses() == old(cache).spec_misses(),
            final(cache).spec_since() == old(cache).spec_since(),
            old(self).spec_front() == old(self).spec_back() ==> r.is_none() && final(self).spec_back() == old(self).spec_back() && final(cache)@ == old(cache)@,
            old(self).spec_front() < old(self).spec_back() ==> final(self).spec_back() == old(self).spec_back() - 1 && ({
                let s = old(cache)@;
                let e = s[old(self).spec_back() - 1];
                &&& r.is_some() == !e.1.spec_expired(now)
                &&& (r.is_some() ==> *r.unwrap().0 == e.0 && *r.unwrap().1 == e.1.value && final(cache)@ == s.update(
                    old(self).spec_back() - 1,
                    (
                        e.0,
                        (InternalEntry {
                            value: *final(r.unwrap().1),
                            expiration: e.1.expiration,
                            duration: e.1.duration,
                        }),
                    ),
                ))
                &&& (r.is_none() ==> final(cache)@ == s)
            }),
    {
        if self.front < self.back {
            let i = self.back - 1;
            self.back = i;
            if cache.entries[i].1.is_expired(now) {
                None
            } else {
                proof {
                    if old(cache).wf() {
                        assert forall|rec: InternalEntry<V>|
                            #[trigger] distinct_keys(
                                cache@.update(i as int, (cache@[i as int].0, rec)),
                            ) by {
                            lemma_update_same_key(cache@, i as int, rec);
                        }
                    }
                }
                Some(pair_mut(&mut cache.entries, i))
            }
        } else {
            None
        }
    }

    /// A backward step at the current instant, with the early stop of
    /// `Iter::next_back_at`.
    pub fn next_back<'a, K, V>(&mut self, cache: &'a mut TtlCache<K, V>) -> (r: Option<
        (&'a K, &'a mut V),
    >)
        requires
            old(self).wf(old(cache)),
        ensures
            final(self).spec_front() == old(self).spec_front(),
            old(cache).wf() ==> final(cache).wf(),
            final(cache).spec_hits() == old(cache).spec_hits(),
            final(cache).spec_misses() == old(cache).spec_misses(),
            final(cache).spec_since() == old(cache).spec_since(),
            old(self).spec_front() == old(self).spec_back() ==> r.is_none() && final(self).spec_back() == old(self).spec_back() && final(cache)@ == old(cache)@,
            old(self).spec_front() < old(self).spec_back() ==> final(self).spec_back() == old(self).spec_back() - 1 && ({
                let s = old(cache)@;
                let e = s[old(self).spec_back() - 1];
                &&& (r.is_some() ==> *r.unwrap().0 == e.0 && *r.unwrap().1 == e.1.value
                    && final(cache)@ == s.update(
                    old(self).spec_back() - 1,
                    (
                        e.0,
                        (InternalEntry {
                            value: *final(r.unwrap().1),
                            expiration: e.1.expiration,
                            duration: e.1.duration,
                        }),
                    ),
                ))
                &&& (r.is_none() ==> final(cache)@ == s)
            }),
            old(self).spec_front() < old(self).spec_back() ==> exists|now: u64|
                r.is_some() == !(#[trigger] old(cache)@[old(self).spec_back() - 1].1.spec_expired(
                    now,
                )),
    {
        let now = clock_now();
        let r = self.next_back_at(cache, now);
        proof {
            assert(old(self).spec_front() < old(self).spec_back() ==> r.is_some() == !(old(cache)@[old(self).spec_back() - 1].1.spec_expired(now)));
        }
        r
    }
}

/// A shared borrow of the key and a mutable borrow of the value at position
/// `i`: everything else stays as it was.
fn pair_mut<K, V>(v: &mut Vec<(K, InternalEntry<V>)>, i: usize) -> (r: (&K, &mut V))
    requires
        i < old(v)@.len(),
    ensures
        *r.0 == old(v)@[i as int].0,
        *r.1 == old(v)@[i as int].1.value,
        final(v)@ == old(v)@.update(
            i as int,
            (
                old(v)@[i as int].0,
                (InternalEntry {
                    value: *final(r.1),
                    expiration: old(v)@[i as int].1.expiration,
                    duration: old(v)@[i as int].1.duration,
                }),
            ),
        ),
{
    let p = &mut v[i];
    (&p.0, &mut p.1.value)
}

impl<K: Eq, V> TtlCache<K, V> {
    /// A forward cursor over the whole store at `now`, after a passive sweep.
    pub fn iter_at(&mut self, now: u64) -> (it: Iter)
        requires
            old(self).wf(),
        ensures
            final(self)@ == sweep(old(self)@, now),
            final(self).wf(),
            final(self).spec_hits() == old(self).spec_hits(),
            final(self).spec_misses() == old(self).spec_misses(),
            final(self).spec_since() == old(self).spec_since(),
            it.spec_front() == 0,
            it.spec_back() == final(self)@.len(),
            it.wf(final(self)),
    {
        self.remove_expired_at(now);
        Iter { front: 0, back: self.entries.len() }
    }

    /// A cursor over the store's key-value pairs, oldest to newest, after a
    /// passive sweep at the current instant.
    pub fn iter(&mut self) -> (it: Iter)
        requires
            old(self).wf(),
        ensures
            final(self).wf(),
            final(self).spec_hits() == old(self).spec_hits(),
            final(self).spec_misses() == old(self).spec_misses(),
            final(self).spec_since() == old(self).spec_since(),
            it.spec_front() == 0,
            it.spec_back() == final(self)@.len(),
            it.wf(final(self)),
            exists|now: u64| final(self)@ == #[trigger] sweep(old(self)@, now),
    {
        let now = clock_now();
        self.iter_at(now)
    }

    /// A value-mutating cursor over the whole store at `now`, after a
    /// passive sweep.
    pub fn iter_mut_at(&mut self, now: u64) -> (it: IterMut)
        requires
            old(self).wf(),
        ensures
            final(self)@ == sweep(old(self)@, now),
            final(self).wf(),
            final(self).spec_hits() == old(self).spec_hits(),
            final(self).spec_misses() == old(self).spec_misses(),
            final(self).spec_since() == old(self).spec_since(),
            it.spec_front() == 0,
            it.spec_back() == final(self)@.len(),
            it.wf(final(self)),
    {
        self.remove_expired_at(now);
        IterMut { front: 0, back: self.entries.len() }
    }

    /// A value-mutating cursor, oldest to newest, after a passive sweep at
    /// the current instant.
    pub fn iter_mut(&mut self) -> (it: IterMut)
        requires
            old(self).wf(),
        ensures
            final(self).wf(),
            final(self).spec_hits() == old(self).spec_hits(),
            final(self).spec_misses() == old(self).spec_misses(),
            final(self).spec_since() == old(self).spec_since(),
            it.spec_front() == 0,
            it.spec_back() == final(self)@.len(),
            it.wf(final(self)),
            exists|now: u64| final(self)@ == #[trigger] sweep(old(self)@, now),
    {
        let now = clock_now();
        self.iter_mut_at(now)
    }
}

} // verus!
