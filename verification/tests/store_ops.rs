//! The store driven deterministically: every operation takes its instant
//! through the `_at` form, so expiry is exercised without waiting.

use ttl_cache::TtlCache;

const MS: u64 = 1_000_000;

#[test]
fn lazy_invisibility_before_and_after_deadline() {
    let mut c: TtlCache<u64, u64> = TtlCache::new_at(0);
    c.insert_at(1, 10, 100 * MS, 0);
    // visible strictly before and exactly at the deadline
    assert_eq!(c.get_at(&1, 50 * MS), Some(&10));
    assert_eq!(c.get_at(&1, 100 * MS), Some(&10));
    // invisible one tick past it, with no sweep or removal having run
    assert_eq!(c.get_at(&1, 100 * MS + 1), None);
    // and still invisible much later
    assert_eq!(c.get_at(&1, 500 * MS), None);
}

#[test]
fn insert_overwrite_on_unexpired_returns_prior() {
    let mut c: TtlCache<u64, &str> = TtlCache::new_at(0);
    assert_eq!(c.insert_at(1, "a", 100 * MS, 0), None);
    // second insert before expiry hands the prior value back
    assert_eq!(c.insert_at(1, "b", 100 * MS, 50 * MS), Some("a"));
    // insert after expiry: the key was present, the value is gone
    assert_eq!(c.insert_at(1, "c", 100 * MS, 151 * MS), None);
    assert_eq!(c.get_at(&1, 200 * MS), Some(&"c"));
}

#[test]
fn order_move_on_reinsert() {
    let mut c: TtlCache<u64, u64> = TtlCache::new_at(0);
    c.insert_at(1, 10, 900 * MS, 0);
    c.insert_at(2, 20, 900 * MS, 1);
    c.insert_at(3, 30, 900 * MS, 2);
    // reinserting 2 moves it to the newest position
    assert_eq!(c.insert_at(2, 22, 900 * MS, 3), Some(20));
    let mut it = c.iter_at(4);
    let mut seen: Vec<(u64, u64)> = Vec::new();
    while let Some((k, v)) = it.next_at(&c, 4) {
        seen.push((*k, *v));
    }
    assert_eq!(seen, vec![(1, 10), (3, 30), (2, 22)]);
}

#[test]
fn renewal_by_get_mut_prolong() {
    let mut c: TtlCache<u64, u64> = TtlCache::new_at(0);
    c.insert_at(1, 10, 100 * MS, 0);
    // touch-to-renew at 80ms: deadline becomes 180ms
    assert_eq!(c.get_mut_prolong_at(&1, 80 * MS), Some(&mut 10));
    // past the original deadline, under the renewed one: still visible
    assert_eq!(c.get_at(&1, 150 * MS), Some(&10));
    assert_eq!(c.get_at(&1, 180 * MS), Some(&10));
    assert_eq!(c.get_at(&1, 180 * MS + 1), None);
}

#[test]
fn get_mut_never_extends_the_deadline() {
    let mut c: TtlCache<u64, u64> = TtlCache::new_at(0);
    c.insert_at(1, 10, 100 * MS, 0);
    assert_eq!(c.get_mut_at(&1, 80 * MS), Some(&mut 10));
    // the plain mutable read left the deadline at 100ms
    assert_eq!(c.get_at(&1, 100 * MS + 1), None);
}

#[test]
fn get_mut_changes_only_the_value() {
    let mut c: TtlCache<u64, u64> = TtlCache::new_at(0);
    c.insert_at(1, 10, 100 * MS, 0);
    if let Some(v) = c.get_mut_at(&1, 10 * MS) {
        *v = 77;
    } else {
        panic!("live entry not found");
    }
    assert_eq!(c.get_at(&1, 20 * MS), Some(&77));
    // deadline untouched
    assert_eq!(c.get_at(&1, 100 * MS + 1), None);
}

#[test]
fn reset_ttl_renews_live_and_ignores_expired() {
    let mut c: TtlCache<u64, u64> = TtlCache::new_at(0);
    c.insert_at(1, 10, 100 * MS, 0);
    c.reset_ttl_at(&1, 90 * MS);
    assert_eq!(c.get_at(&1, 180 * MS), Some(&10));
    assert_eq!(c.get_at(&1, 190 * MS + 1), None);
    // on an expired entry it is a no-op, not an insert
    c.reset_ttl_at(&1, 300 * MS);
    assert_eq!(c.get_at(&1, 300 * MS), None);
    // on an absent key it is a no-op too
    c.reset_ttl_at(&9, 0);
    assert_eq!(c.get_at(&9, 0), None);
}

#[test]
fn remove_returns_live_value_only() {
    let mut c: TtlCache<u64, &str> = TtlCache::new_at(0);
    c.insert_at(2, "a", 100 * MS, 0);
    assert_eq!(c.remove_at(&1, 0), None);
    assert_eq!(c.remove_at(&2, 50 * MS), Some("a"));
    assert_eq!(c.remove_at(&2, 50 * MS), None);
    // an expired entry is removed physically but yields nothing
    c.insert_at(3, "b", 10 * MS, 0);
    assert_eq!(c.remove_at(&3, 20 * MS), None);
    assert_eq!(c.insert_at(3, "c", 10 * MS, 30 * MS), None);
}

#[test]
fn sweep_trims_only_the_oldest_prefix() {
    let mut c: TtlCache<u64, &str> = TtlCache::new_at(0);
    // A first with a long time-to-live, B second with a short one
    c.insert_at(1, "A", 1000 * MS, 0);
    c.insert_at(2, "B", 100 * MS, 0);
    // at 150ms B has expired first, but A at the front is live: the sweep
    // must not probe past it, and removes nothing
    c.remove_expired_at(150 * MS);
    let mut it = c.iter_at(150 * MS);
    assert_eq!(it.size_hint(), (2, Some(2)));
    // B is still physically present, merely invisible
    assert_eq!(c.get_at(&2, 150 * MS), None);
    assert_eq!(c.get_at(&1, 150 * MS), Some(&"A"));
}

#[test]
fn sweep_removes_expired_prefix_and_stops() {
    let mut c: TtlCache<u64, u64> = TtlCache::new_at(0);
    c.insert_at(1, 10, 10 * MS, 0);
    c.insert_at(2, 20, 20 * MS, 0);
    c.insert_at(3, 30, 500 * MS, 0);
    c.insert_at(4, 40, 30 * MS, 0);
    // at 100ms: 1, 2 and 4 are expired, 3 is live; the prefix 1, 2 goes,
    // 4 stays behind the live 3
    c.remove_expired_at(100 * MS);
    let mut it = c.iter_at(100 * MS);
    assert_eq!(it.size_hint(), (2, Some(2)));
    let first = it.next_at(&c, 100 * MS);
    assert_eq!(first, Some((&3, &30)));
    assert_eq!(it.next_at(&c, 100 * MS), None);
}

#[test]
fn insert_runs_the_sweep_first() {
    let mut c: TtlCache<u64, u64> = TtlCache::new_at(0);
    c.insert_at(1, 10, 10 * MS, 0);
    c.insert_at(2, 20, 500 * MS, 0);
    // inserting at 50ms sweeps the expired front entry 1
    c.insert_at(3, 30, 500 * MS, 50 * MS);
    let mut it = c.iter_at(50 * MS);
    assert_eq!(it.size_hint(), (2, Some(2)));
    assert_eq!(it.next_at(&c, 50 * MS), Some((&2, &20)));
    assert_eq!(it.next_at(&c, 50 * MS), Some((&3, &30)));
    assert_eq!(it.next_at(&c, 50 * MS), None);
}

#[test]
fn stats_accounting_counts_hits_and_misses() {
    let mut c: TtlCache<u64, u64> = TtlCache::new_at(7);
    assert_eq!(c.stats_since(), 7);
    c.insert_at(1, 10, 100 * MS, 0);
    c.insert_at(2, 20, 10 * MS, 0);
    // three hits on present, unexpired keys
    c.get_at(&1, 50 * MS);
    c.get_at(&1, 60 * MS);
    assert!(c.contains_key_at(&1, 70 * MS));
    // two misses: one expired, one absent
    c.get_at(&2, 50 * MS);
    c.get_at(&9, 50 * MS);
    assert_eq!(c.hit_count(), 3);
    assert_eq!(c.miss_count(), 2);
    // mutable lookups count too
    c.get_mut_at(&1, 50 * MS);
    c.get_mut_prolong_at(&9, 50 * MS);
    assert_eq!(c.hit_count(), 4);
    assert_eq!(c.miss_count(), 3);
    // insert, remove, sweep and reset_ttl never count
    c.insert_at(3, 30, MS, 0);
    c.remove_at(&3, 0);
    c.remove_expired_at(0);
    c.reset_ttl_at(&1, 50 * MS);
    assert_eq!(c.hit_count(), 4);
    assert_eq!(c.miss_count(), 3);
    // reset zeroes both and advances the window stamp
    c.reset_stats_counter_at(99);
    assert_eq!(c.hit_count(), 0);
    assert_eq!(c.miss_count(), 0);
    assert_eq!(c.stats_since(), 99);
}

#[test]
fn clear_removes_everything_unconditionally() {
    let mut c: TtlCache<u64, u64> = TtlCache::new_at(0);
    c.insert_at(1, 10, 100 * MS, 0);
    c.insert_at(2, 20, 100 * MS, 0);
    c.get_at(&9, 0);
    c.clear();
    assert_eq!(c.get_at(&1, 0), None);
    assert_eq!(c.get_at(&2, 0), None);
    let mut it = c.iter_at(0);
    assert_eq!(it.size_hint(), (0, Some(0)));
    // counters survive a clear
    assert_eq!(c.miss_count(), 3);
}

#[test]
fn contains_key_agrees_with_get() {
    let mut c: TtlCache<u64, u64> = TtlCache::new_at(0);
    c.insert_at(1, 10, 100 * MS, 0);
    assert!(c.contains_key_at(&1, 50 * MS));
    assert!(!c.contains_key_at(&1, 101 * MS));
    assert!(!c.contains_key_at(&2, 0));
}

#[test]
fn deadline_saturates_instead_of_overflowing() {
    let mut c: TtlCache<u64, u64> = TtlCache::new_at(0);
    c.insert_at(1, 10, u64::MAX, 5);
    // the deadline clamps at the largest instant: never expired
    assert_eq!(c.get_at(&1, u64::MAX), Some(&10));
}
