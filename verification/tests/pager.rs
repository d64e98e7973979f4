use llmpager::metrics::{Counters, Metrics};
use llmpager::pack::{PackMeta, PackReader, PackWriter, ALIGN};
use llmpager::pager::{clamp_slots, ExpertHandle, Fill, Pager, PagerConfig, Request};
use llmpager::profile::{fetch_profile, print_profile};
use llmpager::ring::ReleaseRing;
use llmpager::tier::{preload_order, RamTier};

/// An index of `layers` x `experts` blobs of 5000 bytes each.
fn index(layers: u16, experts: u16) -> PackReader {
    let meta = PackMeta {
        model: "m".to_string(),
        num_layers: layers,
        experts_per_layer: experts,
        dtype: "raw".to_string(),
    };
    let mut w = PackWriter::create(meta.clone());
    for _ in 0..layers as usize * experts as usize {
        w.add_blob(&[7; 5000]).unwrap();
    }
    let front = w.finish(b"{}").unwrap();
    PackReader::open(meta, &front[ALIGN as usize..])
}

fn pager(slots: u32) -> Pager {
    Pager::new(index(2, 4), slots, 1000, 8192, &vec![0x10000, 0x90000]).unwrap()
}

#[test]
fn misses_are_fetched_once() {
    let mut p = pager(2);
    assert_eq!(p.slots_per_layer(), 2);
    let Request::Fetch(h, job) = p.request(1, 3) else { panic!("a fetch") };
    assert_eq!((h.layer, h.expert, h.len), (1, 3, 5000));
    // Layer 1's slots are 2 and 3; its arena starts at 0x90000.
    assert_eq!((h.slot, h.dev), (2, 0x90000));
    assert_eq!((job.layer, job.expert, job.slot, job.release_after_fill), (1, 3, 2, false));
    assert_eq!(p.fill_of(2), Fill::InFlight);
    // While it is in flight, another request shares it.
    assert!(matches!(p.request(1, 3), Request::Held(_)));
    p.filled(&job);
    assert_eq!(p.fill_of(2), Fill::Ready);
    assert!(matches!(p.request(1, 3), Request::Held(_)));
    assert_eq!(p.stats(), (2, 1));
    // The next slot of the layer.
    let Request::Fetch(h, _) = p.request(1, 0) else { panic!("a fetch") };
    assert_eq!((h.slot, h.dev), (3, 0x90000 + 8192));
}

#[test]
fn pinned_experts_stay() {
    let mut p = pager(1);
    let Request::Fetch(h, job) = p.request(0, 0) else { panic!("a fetch") };
    // In flight: stalled, but not for good.
    assert!(matches!(p.request(0, 1), Request::Stalled));
    assert!(!p.is_deadlocked(0, 1));
    p.filled(&job);
    // Ready and pinned: nothing will ever free it.
    assert!(matches!(p.request(0, 1), Request::Stalled));
    assert!(p.is_deadlocked(0, 1));
    assert!(p.can_release(h.slot));
    p.release(h.slot);
    assert!(!p.can_release(h.slot));
    assert!(matches!(p.request(0, 1), Request::Fetch(_, _)));
}

#[test]
fn prefetching_holds_nothing() {
    let mut p = pager(1);
    let job = p.prefetch(0, 2).unwrap();
    assert!(job.release_after_fill);
    // Under way, so there is nothing to do.
    assert!(p.prefetch(0, 2).is_none());
    // In flight: not evicted.
    assert!(p.prefetch(0, 3).is_none());
    p.filled(&job);
    // Unpinned after the fill: another expert may take the slot.
    assert!(!p.can_release(job.slot));
    assert!(matches!(p.request(0, 3), Request::Fetch(_, _)));
}

#[test]
fn a_request_cannot_exceed_the_layer() {
    let p = pager(2);
    assert!(p.fits(2));
    assert!(!p.fits(3));
    assert!(p.can_request(0, 0));
    assert_eq!(p.index().entry(0, 0).nbytes, 5000);
}

#[test]
fn arenas_must_have_addresses() {
    // The last slot would start behind the address space.
    assert!(Pager::new(index(1, 2), 2, 1000, 8192, &vec![u64::MAX - 8191]).is_none());
}

#[test]
fn the_reserve_is_left_free() {
    // 10 slots of 2 layers x 100 bytes, all free.
    assert_eq!(clamp_slots(10, 0, 1000, 2, 100), Some(10));
    assert_eq!(clamp_slots(10, 500, 2000, 2, 100), Some(7));
    assert_eq!(clamp_slots(3, 500, 2000, 2, 100), Some(3));
    // Not one slot beside the reserve.
    assert_eq!(clamp_slots(10, 1900, 2000, 2, 100), None);
    let cfg = PagerConfig::default();
    assert_eq!(cfg.reserve_bytes, 0);
    assert_eq!(cfg.io_threads, 4);
}

#[test]
fn ram_tier_serves_what_was_stored() {
    let mut tier = RamTier::new(250, 100, 2, 3).unwrap();
    assert_eq!(tier.capacity(), 2);
    assert_eq!(tier.get(1, 2), None);
    let slot = tier.put(1, 2).unwrap();
    // Not served before it is filled, nor stored twice.
    assert_eq!(tier.get(1, 2), None);
    assert_eq!(tier.put(1, 2), None);
    tier.stored(slot);
    assert_eq!(tier.get(1, 2), Some(slot));
    // Being copied out, it is not replaced.
    let other = tier.put(0, 0).unwrap();
    assert_ne!(other, slot);
    assert_eq!(tier.put(0, 1), None);
    tier.got(slot);
    assert_eq!(tier.hits(), 1);
    tier.stored(other);
    assert_eq!(tier.get(1, 0), None);
    assert!(tier.can_use(0, 1));
    assert!(RamTier::new(99, 100, 2, 3).is_none());
}

#[test]
fn the_hottest_experts_are_preloaded() {
    // In pack order, for near-sequential reads.
    assert_eq!(preload_order(&[3, 0, 9, 3, 1], 3), [0, 2, 3]);
    assert_eq!(preload_order(&[3, 0, 9, 3, 1], 99), [0, 2, 3, 4]);
    assert!(preload_order(&[0, 0], 5).is_empty());
}

#[test]
fn fetches_are_counted_by_latency() {
    let mut c = Counters::new(3);
    for ms in [0u64, 1, 3, 9, 40] {
        c.record(1, 100, ms * 1_000_000);
    }
    c.record(2, 50, 5_000_000_000);
    assert_eq!((c.fetches, c.bytes_fetched), (6, 550));
    assert_eq!(c.fetch_counts, [0, 5, 1]);
    assert_eq!(c.latency_ms_buckets.iter().sum::<u64>(), 6);
    assert_eq!(c.latency_ms_buckets[0], 1);
    assert_eq!(c.latency_ms_buckets[6], 1);
}

#[test]
fn histograms_print_in_order() {
    let m = Metrics {
        hits: 0,
        misses: 0,
        bytes_fetched: 0,
        fetches: 0,
        ram_hits: 0,
        latency_ms_buckets: [1, 2, 3, 4, 5, 6, 7],
    };
    assert_eq!(
        m.histogram(),
        "<1ms:1 <2ms:2 <5ms:3 <10ms:4 <20ms:5 <50ms:6 >=50ms:7"
    );
}

#[test]
fn releases_wait_for_their_event() {
    let handle = |slot| ExpertHandle { layer: 0, expert: 0, slot, dev: 0, len: 0 };
    let mut ring = ReleaseRing::new(2);
    assert_eq!(ring.oldest(), None);
    assert_eq!(ring.push(vec![handle(1)]), 0);
    assert_eq!(ring.push(vec![handle(2), handle(3)]), 1);
    assert!(ring.is_full());
    assert_eq!(ring.oldest(), Some(0));
    assert_eq!(ring.pop()[0].slot, 1);
    // The event that was waited for is the next one recorded.
    assert_eq!(ring.push(vec![]), 0);
    assert_eq!(ring.oldest(), Some(1));
    assert_eq!(ring.pop().len(), 2);
}

#[test]
fn profiles_read_back() {
    let counts = [3u64, 0, u64::MAX];
    let raw = print_profile(&counts);
    assert_eq!(raw, b"[3,0,18446744073709551615]");
    assert_eq!(fetch_profile(&raw).unwrap(), counts);
    assert_eq!(fetch_profile(b" [ 1, 2 ] ").unwrap(), [1, 2]);
    assert_eq!(fetch_profile(b"[]").unwrap(), [0u64; 0]);
    assert!(fetch_profile(b"[1, -2]").is_none());
    assert!(fetch_profile(b"[1.0]").is_none());
    assert!(fetch_profile(b"{\"a\": 1}").is_none());
    assert!(fetch_profile(b"[1").is_none());
}
