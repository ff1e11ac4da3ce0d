//! The entry view, the cursors, cloning, the entry record itself, and a few
//! runs against the real clock.

use ttl_cache::Entry;
use ttl_cache::InternalEntry;
use ttl_cache::TtlCache;

const MS: u64 = 1_000_000;

#[test]
fn entry_round_trip_on_absent_key() {
    let mut c: TtlCache<u64, &str> = TtlCache::new_at(0);
    match c.entry_at(5, 0) {
        Entry::Occupied(_) => panic!("absent key gave an occupied view"),
        Entry::Vacant(ve) => {
            assert_eq!(*ve.key(), 5);
            let v = ve.insert_at(&mut c, "hello", 100 * MS, 0);
            assert_eq!(*v, "hello");
        }
    }
    assert_eq!(c.get_at(&5, 50 * MS), Some(&"hello"));
    assert_eq!(c.get_at(&5, 101 * MS), None);
}

#[test]
fn entry_on_expired_key_is_vacant_and_removes_it() {
    let mut c: TtlCache<u64, u64> = TtlCache::new_at(0);
    c.insert_at(1, 10, 500 * MS, 0);
    c.insert_at(5, 50, 10 * MS, 0);
    match c.entry_at(5, 100 * MS) {
        Entry::Occupied(_) => panic!("expired key gave an occupied view"),
        Entry::Vacant(_) => {}
    }
    // the stale record was removed physically, not merely hidden
    let mut it = c.iter_at(0);
    assert_eq!(it.size_hint(), (1, Some(1)));
}

#[test]
fn occupied_entry_reads_and_writes_in_place() {
    let mut c: TtlCache<u64, u64> = TtlCache::new_at(0);
    c.insert_at(1, 10, 500 * MS, 0);
    c.insert_at(2, 20, 500 * MS, 0);
    c.insert_at(3, 30, 500 * MS, 0);
    match c.entry_at(2, 10 * MS) {
        Entry::Vacant(_) => panic!("live key gave a vacant view"),
        Entry::Occupied(oe) => {
            assert_eq!(*oe.key(), 2);
            assert_eq!(oe.get(&c), &20);
            *oe.get_mut(&mut c) = 21;
            assert_eq!(oe.get(&c), &21);
            // replace with a fresh time-to-live; the old value comes back
            assert_eq!(oe.insert_at(&mut c, 22, 100 * MS, 10 * MS), 21);
        }
    }
    // the replacement stayed in place: the order is unchanged
    let mut it = c.iter_at(10 * MS);
    let mut seen: Vec<(u64, u64)> = Vec::new();
    while let Some((k, v)) = it.next_at(&c, 10 * MS) {
        seen.push((*k, *v));
    }
    assert_eq!(seen, vec![(1, 10), (2, 22), (3, 30)]);
    // and the new deadline counts from the replacement instant
    assert_eq!(c.get_at(&2, 110 * MS), Some(&22));
    assert_eq!(c.get_at(&2, 110 * MS + 1), None);
}

#[test]
fn occupied_insert_does_not_sweep() {
    let mut c: TtlCache<u64, u64> = TtlCache::new_at(0);
    c.insert_at(1, 10, 10 * MS, 0);
    c.insert_at(2, 20, 500 * MS, 0);
    // at 100ms the front entry 1 is expired; replacing 2 through its view
    // must not sweep it, unlike a top-level insert
    match c.entry_at(2, 100 * MS) {
        Entry::Vacant(_) => panic!("live key gave a vacant view"),
        Entry::Occupied(oe) => {
            oe.insert_at(&mut c, 21, 500 * MS, 100 * MS);
        }
    }
    let mut it = c.iter_at(0);
    assert_eq!(it.size_hint(), (2, Some(2)));
}

#[test]
fn entry_key_on_both_variants() {
    let mut c: TtlCache<u64, u64> = TtlCache::new_at(0);
    c.insert_at(1, 10, 100 * MS, 0);
    assert_eq!(*c.entry_at(1, 0).key(), 1);
    assert_eq!(*c.entry_at(9, 0).key(), 9);
}

#[test]
fn forward_iteration_skips_interior_expired() {
    let mut c: TtlCache<u64, u64> = TtlCache::new_at(0);
    c.insert_at(1, 10, 500 * MS, 0);
    c.insert_at(2, 20, 10 * MS, 0);
    c.insert_at(3, 30, 500 * MS, 0);
    let now = 100 * MS;
    let mut it = c.iter_at(now);
    // the sweep removed nothing: the front is live
    assert_eq!(it.size_hint(), (3, Some(3)));
    assert_eq!(it.next_at(&c, now), Some((&1, &10)));
    // 2 is expired and skipped, one entry at a time
    assert_eq!(it.next_at(&c, now), Some((&3, &30)));
    assert_eq!(it.next_at(&c, now), None);
    assert_eq!(it.size_hint(), (0, Some(0)));
}

#[test]
fn reverse_iteration_stops_early() {
    let mut c: TtlCache<u64, u64> = TtlCache::new_at(0);
    c.insert_at(1, 10, 500 * MS, 0);
    c.insert_at(2, 20, 10 * MS, 0);
    c.insert_at(3, 30, 500 * MS, 0);
    let now = 100 * MS;
    // forward traversal still finds 1 and 3
    let mut fw = c.iter_at(now);
    assert_eq!(fw.next_at(&c, now), Some((&1, &10)));
    assert_eq!(fw.next_at(&c, now), Some((&3, &30)));
    assert_eq!(fw.next_at(&c, now), None);
    // backward traversal yields 3, then halts on the expired 2 although the
    // live 1 lies further toward the front
    let mut bw = c.iter_at(now);
    assert_eq!(bw.next_back_at(&c, now), Some((&3, &30)));
    assert_eq!(bw.next_back_at(&c, now), None);
    // the cursor can be cloned before use, as a plain copy of its range
    let bw2 = c.iter_at(now).clone();
    let _ = bw2;
}

#[test]
fn reverse_iteration_on_all_live_entries() {
    let mut c: TtlCache<u64, u64> = TtlCache::new_at(0);
    c.insert_at(1, 10, 500 * MS, 0);
    c.insert_at(2, 20, 500 * MS, 0);
    let now = 10 * MS;
    let mut it = c.iter_at(now);
    assert_eq!(it.next_back_at(&c, now), Some((&2, &20)));
    assert_eq!(it.next_back_at(&c, now), Some((&1, &10)));
    assert_eq!(it.next_back_at(&c, now), None);
}

#[test]
fn iter_mut_updates_values_in_place() {
    let mut c: TtlCache<u64, u64> = TtlCache::new_at(0);
    c.insert_at(2, 20, 500 * MS, 0);
    c.insert_at(3, 30, 500 * MS, 0);
    let now = 10 * MS;
    let mut it = c.iter_mut_at(now);
    assert_eq!(it.size_hint(), (2, Some(2)));
    let mut n: u64 = 2;
    while let Some((k, v)) = it.next_at(&mut c, now) {
        assert_eq!(*k, n);
        assert_eq!(*v, n * 10);
        *v *= 10;
        n += 1;
    }
    assert_eq!(n, 4);
    assert_eq!(c.get_at(&2, now), Some(&200));
    assert_eq!(c.get_at(&3, now), Some(&300));
}

#[test]
fn iter_mut_backward_stops_early_too() {
    let mut c: TtlCache<u64, u64> = TtlCache::new_at(0);
    c.insert_at(1, 10, 500 * MS, 0);
    c.insert_at(2, 20, 10 * MS, 0);
    c.insert_at(3, 30, 500 * MS, 0);
    let now = 100 * MS;
    let mut it = c.iter_mut_at(now);
    match it.next_back_at(&mut c, now) {
        Some((k, v)) => {
            assert_eq!(*k, 3);
            *v = 33;
        }
        None => panic!("live newest entry not yielded"),
    }
    assert_eq!(it.next_back_at(&mut c, now), None);
    assert_eq!(c.get_at(&3, now), Some(&33));
}

#[test]
fn clone_is_a_full_independent_copy() {
    let mut c: TtlCache<u64, u64> = TtlCache::new_at(3);
    c.insert_at(1, 10, 100 * MS, 0);
    c.insert_at(2, 20, 200 * MS, 0);
    c.get_at(&1, 0);
    c.get_at(&9, 0);
    let mut d = c.clone();
    // same entries, same deadlines, same counters, same window stamp
    assert_eq!(d.get_at(&1, 50 * MS), Some(&10));
    assert_eq!(d.get_at(&1, 101 * MS), None);
    assert_eq!(d.hit_count(), 1 + 1);
    assert_eq!(d.miss_count(), 1 + 1);
    assert_eq!(d.stats_since(), 3);
    // fully independent afterwards
    d.insert_at(1, 99, 100 * MS, 0);
    d.clear();
    assert_eq!(c.get_at(&1, 50 * MS), Some(&10));
    assert_eq!(c.get_at(&2, 50 * MS), Some(&20));
}

#[test]
fn internal_entry_expiry_and_renewal() {
    let e: InternalEntry<u64> = InternalEntry::new(5, 100, 1000);
    assert_eq!(e.value, 5);
    assert_eq!(e.duration, 100);
    assert_eq!(e.expiration, 1100);
    // strictly-greater: still valid exactly at the deadline
    assert!(!e.is_expired(1100));
    assert!(e.is_expired(1101));
    let mut e2 = e;
    e2.reset_duration(2000);
    assert_eq!(e2.expiration, 2100);
    assert_eq!(e2.value, 5);
    assert_eq!(e2.duration, 100);
    // the deadline saturates rather than wrapping
    let e3: InternalEntry<u64> = InternalEntry::new(1, u64::MAX, 10);
    assert_eq!(e3.expiration, u64::MAX);
}

#[test]
fn clock_driven_operations_smoke() {
    // with an hour-long time-to-live, the real clock cannot expire anything
    // while the test runs
    let hour: u64 = 3_600_000 * MS;
    let mut c: TtlCache<u64, String> = TtlCache::new();
    assert_eq!(c.insert(1, String::from("a"), hour), None);
    assert_eq!(c.get(&1), Some(&String::from("a")));
    assert!(c.contains_key(&1));
    assert_eq!(c.get(&2), None);
    assert_eq!(c.hit_count(), 2);
    assert_eq!(c.miss_count(), 1);
    if let Some(v) = c.get_mut(&1) {
        v.push('b');
    }
    assert_eq!(c.get_mut_prolong(&1), Some(&mut String::from("ab")));
    c.reset_ttl(&1);
    assert_eq!(c.insert(1, String::from("z"), hour), Some(String::from("ab")));
    match c.entry(3) {
        Entry::Occupied(_) => panic!("absent key gave an occupied view"),
        Entry::Vacant(ve) => {
            ve.insert(&mut c, String::from("v"), hour);
        }
    }
    match c.entry(3) {
        Entry::Occupied(oe) => {
            assert_eq!(oe.insert(&mut c, String::from("w"), hour), String::from("v"));
        }
        Entry::Vacant(_) => panic!("live key gave a vacant view"),
    }
    let mut it = c.iter();
    assert_eq!(it.next(&c), Some((&1, &String::from("z"))));
    let mut im = c.iter_mut();
    while let Some((_k, v)) = im.next(&mut c) {
        v.push('!');
    }
    assert_eq!(c.get(&3), Some(&String::from("w!")));
    assert_eq!(c.remove(&3), Some(String::from("w!")));
    assert_eq!(c.remove(&3), None);
    c.remove_expired();
    c.reset_stats_counter();
    assert_eq!(c.hit_count(), 0);
    assert_eq!(c.miss_count(), 0);
    let mut d: TtlCache<u64, u64> = TtlCache::default();
    assert_eq!(d.get(&1), None);
}

#[test]
fn clock_expiry_observed_with_a_short_ttl() {
    // a zero time-to-live expires one nanosecond after insertion; spin on
    // the monotonic clock until real time has certainly moved past it
    let mut c: TtlCache<u64, u64> = TtlCache::new();
    c.insert(1, 10, 0);
    let start = std::time::Instant::now();
    while start.elapsed() < std::time::Duration::from_millis(5) {
        std::hint::spin_loop();
    }
    assert_eq!(c.get(&1), None);
    assert_eq!(c.remove(&1), None);
}
