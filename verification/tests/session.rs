use llmpager::session::{common_prefix, AcquireStep, SessionStore};

fn ready(step: AcquireStep) -> (usize, usize) {
    match step {
        AcquireStep::Ready { slot, reuse } => (slot, reuse),
        other => panic!("not ready: {other:?}"),
    }
}

/// Acquires, handing out `len` copies of `tag` for every export.
fn acquire(store: &mut SessionStore, id: &str, prompt: &[u32], tag: u8) -> (usize, usize) {
    let mut step = store.acquire(id, prompt);
    loop {
        step = match step {
            AcquireStep::Export { len, wait, .. } => store.exported(wait, vec![tag; len]),
            AcquireStep::Import { restore, .. } => return store.imported(restore),
            other => return ready(other),
        };
    }
}

#[test]
fn prefixes() {
    assert_eq!(common_prefix(&[], &[1]), 0);
    assert_eq!(common_prefix(&[1, 2, 3], &[1, 2, 4, 5]), 2);
    assert_eq!(common_prefix(&[1, 2], &[1, 2, 3]), 2);
}

#[test]
fn sessions_need_a_slot_of_their_own() {
    let mut store = SessionStore::new(1, 1000);
    assert!(matches!(store.acquire("a", &[1]), AcquireStep::NoSessionSlots));
    assert_eq!(store.len(), 0);
}

#[test]
fn a_second_turn_reuses_the_first() {
    let mut store = SessionStore::new(3, 1000);
    // Slot 0 is the sessionless lane.
    assert_eq!(ready(store.acquire("a", &[1, 2, 3])), (1, 0));
    store.commit("a", vec![1, 2, 3, 4]);
    assert_eq!(ready(store.acquire("a", &[1, 2, 3, 4, 5])), (1, 4));
    // The tail is overwritten from there on: a turn that failed leaves no more
    // than the prefix to reuse.
    assert_eq!(ready(store.acquire("a", &[1, 2, 3, 4, 5])), (1, 4));
    assert_eq!(ready(store.acquire("a", &[1, 9])), (1, 1));
    assert_eq!(ready(store.acquire("a", &[1, 2, 3])), (1, 1));
    // One token is always left to run.
    store.commit("a", vec![1, 2, 3]);
    assert_eq!(ready(store.acquire("a", &[1, 2, 3])), (1, 2));
    let (id, s) = store.at(0);
    assert_eq!(id, "a");
    assert_eq!((s.turns, s.slot, s.tokens.len()), (2, Some(1), 2));
}

#[test]
fn the_least_recently_used_session_is_parked() {
    let mut store = SessionStore::new(3, 1000);
    assert_eq!(ready(store.acquire("a", &[1, 2])), (1, 0));
    store.commit("a", vec![1, 2, 3]);
    assert_eq!(ready(store.acquire("b", &[5])), (2, 0));
    store.commit("b", vec![5, 6]);
    // a is older: its 3 tokens leave slot 1.
    let AcquireStep::Export { slot, len, wait } = store.acquire("c", &[7]) else {
        panic!("an export");
    };
    assert_eq!((slot, len), (1, 3));
    assert_eq!(ready(store.exported(wait, vec![42; 30])), (1, 0));
    store.commit("c", vec![7, 8]);
    assert_eq!(store.parked_bytes(), 30);
    // a comes back in b's slot, with the bytes that were parked.
    let AcquireStep::Export { slot, len, wait } = store.acquire("a", &[1, 2, 9]) else {
        panic!("an export");
    };
    assert_eq!((slot, len), (2, 2));
    let AcquireStep::Import { slot, len, blob, restore } = store.exported(wait, vec![43; 20])
    else {
        panic!("an import");
    };
    assert_eq!((slot, len), (2, 3));
    assert_eq!(blob, [42; 30]);
    assert_eq!(store.imported(restore), (2, 2));
    assert_eq!(store.parked_bytes(), 20);
}

#[test]
fn parked_contexts_keep_the_budget() {
    let mut store = SessionStore::new(2, 25);
    assert_eq!(acquire(&mut store, "a", &[1], 1), (1, 0));
    store.commit("a", vec![1; 20]);
    assert_eq!(acquire(&mut store, "b", &[2], 1), (1, 0));
    store.commit("b", vec![2; 10]);
    assert_eq!(store.parked_bytes(), 20);
    // 20 + 10 bytes are too many: a's context goes, and with it its tokens.
    assert_eq!(acquire(&mut store, "c", &[3], 1), (1, 0));
    store.commit("c", vec![3]);
    assert_eq!(store.parked_bytes(), 10);
    let (id, s) = store.at(0);
    assert_eq!((id, s.tokens.len()), ("a", 0));
    assert_eq!(acquire(&mut store, "a", &[1; 20], 1), (1, 0));
    // b is still there.
    assert_eq!(acquire(&mut store, "b", &[2; 10], 1), (1, 9));
}

#[test]
fn an_empty_context_leaves_without_a_copy() {
    let mut store = SessionStore::new(2, 100);
    assert_eq!(ready(store.acquire("a", &[1])), (1, 0));
    assert_eq!(ready(store.acquire("b", &[1])), (1, 0));
    assert_eq!(store.parked_bytes(), 0);
}

#[test]
fn a_parked_context_without_common_prefix_is_not_restored() {
    let mut store = SessionStore::new(2, 100);
    acquire(&mut store, "a", &[1], 1);
    store.commit("a", vec![1, 2]);
    acquire(&mut store, "b", &[5], 1);
    store.commit("b", vec![5]);
    let AcquireStep::Export { wait, .. } = store.acquire("a", &[9, 9]) else {
        panic!("an export");
    };
    assert_eq!(ready(store.exported(wait, vec![0; 1])), (1, 0));
}

#[test]
fn forgetting_frees_the_slot() {
    let mut store = SessionStore::new(2, 100);
    assert_eq!(ready(store.acquire("a", &[1])), (1, 0));
    store.commit("a", vec![1, 2]);
    assert!(store.forget("a"));
    assert!(!store.forget("a"));
    assert_eq!(store.len(), 0);
    // No export: the slot is free.
    assert_eq!(ready(store.acquire("b", &[1])), (1, 0));
    // A commit of a session that is gone changes nothing.
    store.commit("a", vec![1]);
    assert_eq!(store.len(), 1);
}

#[test]
fn a_failed_restore_leaves_its_slot_unusable() {
    let mut store = SessionStore::new(2, 100);
    acquire(&mut store, "a", &[1], 1);
    store.commit("a", vec![1, 2]);
    acquire(&mut store, "b", &[5], 1);
    store.commit("b", vec![5]);
    let AcquireStep::Export { wait, .. } = store.acquire("a", &[1, 2, 3]) else {
        panic!("an export");
    };
    // The copy into the slot fails, so the restore is never reported.
    let step = store.exported(wait, vec![0; 1]);
    assert!(matches!(step, AcquireStep::Import { slot: 1, len: 2, .. }));
    assert!(matches!(store.acquire("c", &[1]), AcquireStep::NoSlotFreed));
}

/// While every copy succeeds, a slot's owner is resident, and one can always be
/// freed.
#[test]
fn a_slot_can_always_be_freed() {
    let mut store = SessionStore::new(3, 6);
    let ids = ["a", "b", "c", "d", "e"];
    for turn in 0..40u32 {
        let id = ids[(turn * 7 % 5) as usize];
        let (slot, _) = acquire(&mut store, id, &[turn % 3, 1, 2], 9);
        assert!(slot == 1 || slot == 2);
        if turn % 4 != 3 {
            store.commit(id, vec![turn % 3, 1, 2]);
        }
        if turn % 9 == 8 {
            store.forget(ids[(turn % 5) as usize]);
        }
        let mut slots: Vec<usize> =
            (0..store.len()).filter_map(|i| store.at(i).1.slot).collect();
        slots.sort_unstable();
        slots.dedup();
        assert!(slots.len() <= 2);
    }
}
