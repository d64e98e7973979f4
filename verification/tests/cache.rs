use llmpager::cache::{ExpertCache, Lookup};

#[test]
fn hit_after_miss() {
    let mut c = ExpertCache::new(1, 4, 1000);
    let Lookup::Miss { slot, evicted } = c.acquire(7) else {
        panic!("expected miss");
    };
    assert_eq!(evicted, None);
    c.publish(slot);
    c.release(slot);
    assert_eq!(c.acquire(7), Lookup::Hit(slot));
    assert!(c.is_ready(slot));
    assert_eq!(c.stats(), (1, 1));
}

#[test]
fn evicts_lowest_freq_unpinned() {
    let mut c = ExpertCache::new(1, 2, 1000);
    // Fill both slots; expert 1 gets extra hits.
    for e in [0u32, 1] {
        let Lookup::Miss { slot, .. } = c.acquire(e) else { panic!() };
        c.publish(slot);
        c.release(slot);
    }
    for _ in 0..3 {
        let Lookup::Hit(s) = c.acquire(1) else { panic!() };
        c.release(s);
    }
    // Expert 2 must evict expert 0 (freq 1) not expert 1 (freq 4).
    let Lookup::Miss { evicted, .. } = c.acquire(2) else { panic!() };
    assert_eq!(evicted, Some(0));
}

#[test]
fn pinned_slots_are_not_victims() {
    let mut c = ExpertCache::new(1, 1, 1000);
    let Lookup::Miss { slot, .. } = c.acquire(0) else { panic!() };
    // Slot still pinned: any other expert stalls.
    assert_eq!(c.acquire(1), Lookup::Stalled);
    c.release(slot);
    let Lookup::Miss { evicted, .. } = c.acquire(1) else { panic!() };
    assert_eq!(evicted, Some(0));
}

#[test]
fn decay_halves_frequencies() {
    let mut c = ExpertCache::new(1, 2, 2);
    let Lookup::Miss { slot, .. } = c.acquire(0) else { panic!() };
    c.release(slot);
    for _ in 0..7 {
        let Lookup::Hit(s) = c.acquire(0) else { panic!() };
        c.release(s);
    }
    // freq(expert 0) is now 8. Two inserts trigger one decay (interval 2).
    let Lookup::Miss { slot, .. } = c.acquire(1) else { panic!() };
    c.release(slot);
    let Lookup::Miss { slot, .. } = c.acquire(2) else { panic!() };
    c.release(slot);
    // After decay, expert 0's freq is 4; still the hottest, so a further
    // insert evicts one of the newcomers, not expert 0.
    let Lookup::Miss { evicted, .. } = c.acquire(3) else { panic!() };
    assert_ne!(evicted, Some(0));
}

#[test]
fn lookup_ready_never_inserts() {
    let mut c = ExpertCache::new(1, 2, 1000);
    assert_eq!(c.lookup_ready(3), None);
    let Lookup::Miss { slot, .. } = c.acquire(3) else { panic!() };
    // In flight: not ready yet.
    assert_eq!(c.lookup_ready(3), None);
    c.publish(slot);
    c.release(slot);
    let got = c.lookup_ready(3).expect("ready hit");
    assert_eq!(got, slot);
    c.release(got);
}

#[test]
fn layers_are_independent() {
    // Two partitions of one slot each, 128 ids per layer.
    let mut c = ExpertCache::partitioned(2, 128, 1, 1000);
    let a = ExpertCache::fold(0, 5, 128);
    let b = ExpertCache::fold(1, 5, 128);
    let Lookup::Miss { slot: s0, .. } = c.acquire(a) else { panic!() };
    let Lookup::Miss { slot: s1, .. } = c.acquire(b) else { panic!() };
    assert_ne!(s0, s1, "different layers must not share a slot");
    c.release(s0);
    c.release(s1);
    let Lookup::Hit(_) = c.acquire(a) else { panic!() };
    let Lookup::Hit(_) = c.acquire(b) else { panic!() };
}

#[test]
fn fold_round_trips_layer_and_expert() {
    assert_eq!(ExpertCache::fold(0, 0, 128), 0);
    assert_eq!(ExpertCache::fold(0, 127, 128), 127);
    assert_eq!(ExpertCache::fold(1, 0, 128), 128);
    assert_eq!(ExpertCache::fold(47, 127, 128), 47 * 128 + 127);
}

#[test]
fn one_partition_lets_a_hot_layer_take_more_slots() {
    // One global pool of 4 slots shared by two layers of 128 experts.
    let mut c = ExpertCache::partitioned(1, 128, 4, 1000);
    // Layer 0 routes to three experts, repeatedly; layer 1 to one.
    for _ in 0..3 {
        for e in 0..3u16 {
            let id = ExpertCache::fold(0, e, 128);
            let slot = match c.acquire(id) {
                Lookup::Hit(s) => s,
                Lookup::Miss { slot, .. } => {
                    c.publish(slot);
                    slot
                }
                Lookup::Stalled => panic!("stalled"),
            };
            c.release(slot);
        }
    }
    let id1 = ExpertCache::fold(1, 0, 128);
    let Lookup::Miss { slot, .. } = c.acquire(id1) else { panic!() };
    c.publish(slot);
    c.release(slot);
    // All four are resident together: layer 0 holds three of the shared
    // slots, which per-layer partitioning could never allow.
    for e in 0..3u16 {
        let id = ExpertCache::fold(0, e, 128);
        assert!(matches!(c.acquire(id), Lookup::Hit(_)), "layer 0 expert {e} evicted");
    }
    assert!(matches!(c.acquire(id1), Lookup::Hit(_)));
}

#[test]
fn wedged_only_when_everything_is_pinned_and_ready() {
    let mut c = ExpertCache::new(1, 2, 1000);
    assert!(!c.is_wedged(0));
    let Lookup::Miss { slot: a, .. } = c.acquire(0) else { panic!() };
    let Lookup::Miss { slot: b, .. } = c.acquire(1) else { panic!() };
    // Both pinned but still in flight: a fetch will release them.
    assert!(!c.is_wedged(0));
    c.publish(a);
    c.publish(b);
    assert!(c.is_wedged(0));
    c.release(a);
    assert!(!c.is_wedged(0));
}

#[test]
fn empty_slots_go_before_cold_ones() {
    // Two slots of equal frequency: the one that never held anything goes first.
    let mut c = ExpertCache::partitioned(1, 16, 3, 2);
    let Lookup::Miss { slot: a, .. } = c.acquire(0) else { panic!() };
    c.release(a);
    // The second insertion halves the counters: both experts are now at 0.
    let Lookup::Miss { slot: b, .. } = c.acquire(1) else { panic!() };
    c.release(b);
    let Lookup::Miss { slot, evicted } = c.acquire(2) else { panic!() };
    assert_eq!((slot, evicted), (2, None));
}

#[test]
fn partitions_and_totals() {
    let c = ExpertCache::partitioned(3, 8, 5, 10);
    assert_eq!(c.slots_per_partition(), 5);
    assert_eq!(c.total_slots(), 15);
    assert_eq!(c.stats(), (0, 0));
}

#[test]
fn ids_beyond_the_last_partition_use_it() {
    let mut c = ExpertCache::partitioned(2, 4, 1, 10);
    assert_eq!(c.acquire(100), Lookup::Miss { slot: 1, evicted: None });
    assert_eq!(c.acquire(4), Lookup::Stalled);
    assert_eq!(c.acquire(3), Lookup::Miss { slot: 0, evicted: None });
}

#[test]
fn a_stall_changes_nothing() {
    let mut c = ExpertCache::new(1, 1, 1000);
    let Lookup::Miss { slot, .. } = c.acquire(9) else { panic!() };
    assert_eq!(c.acquire(8), Lookup::Stalled);
    assert_eq!(c.stats(), (0, 1));
    assert_eq!(c.pins(slot), 1);
    assert!(c.can_acquire(9));
    assert_eq!(c.acquire(9), Lookup::Hit(slot));
    assert_eq!(c.pins(slot), 2);
    c.release(slot);
    assert_eq!(c.pins(slot), 1);
}

/// Over a run of calls: hits and misses count the acquisitions that did not
/// stall, every release gives back one pin, and no more experts are resident
/// than there are slots.
#[test]
fn a_run_of_calls_is_counted() {
    let mut c = ExpertCache::new(2, 2, 4);
    let mut held: Vec<u32> = Vec::new();
    let (mut hits, mut misses) = (0u64, 0u64);
    for i in 0..60u32 {
        let e = i * 5 % 7;
        match c.acquire(e) {
            Lookup::Hit(slot) => {
                hits += 1;
                held.push(slot);
            }
            Lookup::Miss { slot, .. } => {
                misses += 1;
                c.publish(slot);
                held.push(slot);
            }
            Lookup::Stalled => {}
        }
        if i % 2 == 1 {
            if let Some(slot) = held.pop() {
                c.release(slot);
            }
        }
        assert_eq!(c.stats(), (hits, misses));
    }
    assert_eq!(c.total_slots(), 4);
    for slot in held.drain(..) {
        c.release(slot);
    }
    // Every pin is back: nothing stalls.
    for e in 0..7 {
        match c.acquire(e) {
            Lookup::Hit(slot) | Lookup::Miss { slot, .. } => c.release(slot),
            Lookup::Stalled => panic!("expert {e} stalled"),
        }
    }
}
