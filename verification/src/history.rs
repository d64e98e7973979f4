//! Runs of calls on an expert cache: what its state says of all the calls since
//! it was built.

use crate::cache::{
    aged_slot, claimed_slot, empty_cache, released_slot, CacheView, ExpertId, Lookup, Slot,
    SlotState,
};
use vstd::prelude::*;

verus! {

/// A call on a cache, with what it answered.
pub enum Call {
    Acquire { id: ExpertId, found: Lookup },
    LookupReady { id: ExpertId, found: Option<Slot> },
    Publish { slot: Slot },
    Release { slot: Slot },
}

/// The call takes a cache from `before` to `after`: what the functions of
/// `ExpertCache` require and ensure.
pub open spec fn steps_to(before: CacheView, call: Call, after: CacheView) -> bool {
    match call {
        Call::Acquire { id, found } => before.countable(id) && before.answers(id, found, after),
        Call::LookupReady { id, found } => {
            &&& before.pinnable(id)
            &&& match found {
                Some(slot) => {
                    &&& before.holds(id, slot as int)
                    &&& before.slots[slot as int].ready
                    &&& after == before.touched(slot as int)
                },
                None => {
                    &&& forall|s: int| #[trigger]
                        before.holds(id, s) ==> !before.slots[s].ready
                    &&& after == before
                },
            }
        },
        Call::Publish { slot } => {
            &&& slot < before.slots.len()
            &&& after == before.with_slot(
                slot as int,
                SlotState { ready: true, ..before.slots[slot as int] },
            )
        },
        Call::Release { slot } => {
            &&& slot < before.slots.len()
            &&& before.slots[slot as int].pins > 0
            &&& after == before.with_slot(
                slot as int,
                released_slot(before.slots[slot as int]),
            )
        },
    }
}

/// The states that a new cache goes through under `calls`.
pub open spec fn run(
    partitions: nat,
    ids: nat,
    slots: nat,
    decay: nat,
    calls: Seq<Call>,
    states: Seq<CacheView>,
) -> bool {
    &&& partitions > 0
    &&& slots > 0
    &&& 0 < decay <= u32::MAX
    &&& partitions * slots <= u32::MAX
    &&& partitions > 1 ==> ids > 0
    &&& states.len() == calls.len() + 1
    &&& states[0] == empty_cache(partitions, ids, slots, decay)
    &&& forall|i: int|
        0 <= i < calls.len() ==> steps_to(states[i], #[trigger] calls[i], states[i + 1])
}

/// The slot that a call pins, if it pins one.
pub open spec fn pins_slot(call: Call) -> Option<Slot> {
    match call {
        Call::Acquire { id: _, found: Lookup::Hit(slot) } => Some(slot),
        Call::Acquire { id: _, found: Lookup::Miss { slot, evicted: _ } } => Some(slot),
        Call::LookupReady { id: _, found } => found,
        _ => None,
    }
}

pub open spec fn is_hit(call: Call) -> bool {
    match call {
        Call::Acquire { id: _, found: Lookup::Hit(_) } => true,
        Call::LookupReady { id: _, found: Some(_) } => true,
        _ => false,
    }
}

pub open spec fn is_miss(call: Call) -> bool {
    call matches Call::Acquire { id: _, found: Lookup::Miss { slot: _, evicted: _ } }
}

/// How many of the first `n` calls were hits.
pub open spec fn hits_in(calls: Seq<Call>, n: nat) -> nat
    decreases n,
{
    if n == 0 {
        0
    } else {
        hits_in(calls, (n - 1) as nat) + (if is_hit(calls[n - 1]) { 1nat } else { 0 })
    }
}

/// How many of the first `n` calls were misses.
pub open spec fn misses_in(calls: Seq<Call>, n: nat) -> nat
    decreases n,
{
    if n == 0 {
        0
    } else {
        misses_in(calls, (n - 1) as nat) + (if is_miss(calls[n - 1]) { 1nat } else { 0 })
    }
}

/// Whether a call was a miss of partition `p`.
pub open spec fn misses_partition(v: CacheView, call: Call, p: int) -> bool {
    is_miss(call) && v.partition_of(call->Acquire_id) == p
}

/// How many of the first `n` calls were misses of partition `p`, in a cache
/// partitioned as `v`.
pub open spec fn partition_misses(v: CacheView, calls: Seq<Call>, p: int, n: nat) -> nat
    decreases n,
{
    if n == 0 {
        0
    } else {
        partition_misses(v, calls, p, (n - 1) as nat) + (if misses_partition(v, calls[n - 1], p) {
            1nat
        } else {
            0
        })
    }
}

/// How often the first `n` calls pinned slot `t`, less how often they released
/// it.
pub open spec fn pins_left(calls: Seq<Call>, t: int, n: nat) -> int
    decreases n,
{
    if n == 0 {
        0
    } else {
        let before = pins_left(calls, t, (n - 1) as nat);
        if pins_slot(calls[n - 1]) matches Some(s) && s == t {
            before + 1
        } else if calls[n - 1] matches Call::Release { slot } && slot == t {
            before - 1
        } else {
            before
        }
    }
}

/// The shape of a cache never changes.
pub open spec fn same_shape(a: CacheView, b: CacheView) -> bool {
    &&& a.slots.len() == b.slots.len()
    &&& a.inserts.len() == b.inserts.len()
    &&& a.slots_per_partition == b.slots_per_partition
    &&& a.ids_per_partition == b.ids_per_partition
    &&& a.decay_interval == b.decay_interval
}

pub proof fn lemma_step(before: CacheView, call: Call, after: CacheView)
    requires
        before.wf(),
        steps_to(before, call, after),
    ensures
        after.wf(),
        same_shape(before, after),
        pins_slot(call) matches Some(s) ==> s < before.slots.len(),
{
    match call {
        Call::Acquire { id, found: Lookup::Hit(slot) } => {
            before.lemma_same_ids(after);
        },
        Call::Acquire { id, found: Lookup::Miss { slot, evicted: _ } } => {
            before.lemma_inserted(id, slot as int);
        },
        Call::LookupReady { id, found: Some(slot) } => {
            before.lemma_same_ids(after);
        },
        Call::Publish { slot } => {
            before.lemma_same_ids(after);
        },
        Call::Release { slot } => {
            before.lemma_same_ids(after);
        },
        _ => {},
    }
}

proof fn lemma_empty(partitions: nat, ids: nat, slots: nat, decay: nat)
    requires
        partitions > 0,
        slots > 0,
        0 < decay <= u32::MAX,
        partitions * slots <= u32::MAX,
        partitions > 1 ==> ids > 0,
    ensures
        empty_cache(partitions, ids, slots, decay).wf(),
{
    assert(0 <= partitions * slots) by (nonlinear_arith)
        requires
            partitions > 0,
            slots > 0,
    ;
}

pub proof fn lemma_run(
    partitions: nat,
    ids: nat,
    slots: nat,
    decay: nat,
    calls: Seq<Call>,
    states: Seq<CacheView>,
    k: int,
)
    requires
        run(partitions, ids, slots, decay, calls, states),
        0 <= k <= calls.len(),
    ensures
        states[k].wf(),
        same_shape(states[0], states[k]),
    decreases k,
{
    if k == 0 {
        lemma_empty(partitions, ids, slots, decay);
    } else {
        lemma_run(partitions, ids, slots, decay, calls, states, k - 1);
        let call = calls[k - 1];
        lemma_step(states[k - 1], call, states[k]);
    }
}

/// The counters count the calls: hits are the lookups that found something,
/// misses those that claimed a slot; stalls and everything else count in
/// neither.
pub proof fn law_stats_count_calls(
    partitions: nat,
    ids: nat,
    slots: nat,
    decay: nat,
    calls: Seq<Call>,
    states: Seq<CacheView>,
    k: int,
)
    requires
        run(partitions, ids, slots, decay, calls, states),
        0 <= k <= calls.len(),
    ensures
        states[k].hits == hits_in(calls, k as nat),
        states[k].misses == misses_in(calls, k as nat),
    decreases k,
{
    if k > 0 {
        law_stats_count_calls(partitions, ids, slots, decay, calls, states, k - 1);
        assert(steps_to(states[k - 1], calls[k - 1], states[k]));
    }
}

/// A slot's pins are the calls that returned it less its releases; so as many
/// releases as lookups give a slot back, and it cannot be released more often.
pub proof fn law_pins_count_calls(
    partitions: nat,
    ids: nat,
    slots: nat,
    decay: nat,
    calls: Seq<Call>,
    states: Seq<CacheView>,
    k: int,
    t: int,
)
    requires
        run(partitions, ids, slots, decay, calls, states),
        0 <= k <= calls.len(),
        0 <= t < states[k].slots.len(),
    ensures
        states[k].slots[t].pins == pins_left(calls, t, k as nat),
        forall|id: ExpertId| #[trigger]
            states[k].victim(id, t) ==> pins_left(calls, t, k as nat) == 0,
        k < calls.len() && (calls[k] matches Call::Release { slot } && slot == t) ==> pins_left(
            calls,
            t,
            k as nat,
        ) > 0,
    decreases k,
{
    lemma_run(partitions, ids, slots, decay, calls, states, k);
    if k > 0 {
        let before = states[k - 1];
        let after = states[k];
        let call = calls[k - 1];
        lemma_run(partitions, ids, slots, decay, calls, states, k - 1);
        law_pins_count_calls(partitions, ids, slots, decay, calls, states, k - 1, t);
        assert(steps_to(before, call, after));
        lemma_step(before, call, after);
        match call {
            Call::Acquire { id, found: Lookup::Miss { slot, evicted: _ } } => {
                let claimed = before.slots.update(slot as int, claimed_slot(id));
                assert(after.slots[t].pins == claimed[t].pins);
            },
            _ => {},
        }
    }
    if k < calls.len() {
        assert(steps_to(states[k], calls[k], states[k + 1]));
    }
}

/// A release drops exactly one pin of its slot and changes nothing else.
pub proof fn law_release_drops_one_pin(before: CacheView, slot: Slot, after: CacheView)
    requires
        before.wf(),
        steps_to(before, Call::Release { slot }, after),
    ensures
        after.slots[slot as int].pins == before.slots[slot as int].pins - 1,
        after.slots[slot as int].id == before.slots[slot as int].id,
        after.slots[slot as int].ready == before.slots[slot as int].ready,
        after.slots[slot as int].freq == before.slots[slot as int].freq,
        forall|t: int|
            0 <= t < before.slots.len() && t != slot ==> #[trigger] after.slots[t]
                == before.slots[t],
        forall|id: ExpertId| #[trigger] before.resident(id) ==> after.resident(id),
        after.hits == before.hits,
        after.misses == before.misses,
        after.inserts == before.inserts,
{
    before.lemma_same_ids(after);
    assert forall|id: ExpertId| #[trigger] before.resident(id) implies after.resident(id) by {
        let s = choose|s: int| before.holds(id, s);
        assert(after.holds(id, s));
    }
}

proof fn lemma_inserts(
    partitions: nat,
    ids: nat,
    slots: nat,
    decay: nat,
    calls: Seq<Call>,
    states: Seq<CacheView>,
    k: int,
    p: int,
)
    requires
        run(partitions, ids, slots, decay, calls, states),
        0 <= k <= calls.len(),
        0 <= p < partitions,
    ensures
        states[k].inserts[p] == partition_misses(states[0], calls, p, k as nat) % decay,
    decreases k,
{
    let d = decay as int;
    if k == 0 {
        vstd::arithmetic::div_mod::lemma_small_mod(0, decay);
    } else {
        let before = states[k - 1];
        let call = calls[k - 1];
        lemma_run(partitions, ids, slots, decay, calls, states, k - 1);
        lemma_inserts(partitions, ids, slots, decay, calls, states, k - 1, p);
        assert(steps_to(before, call, states[k]));
        let m = partition_misses(states[0], calls, p, (k - 1) as nat) as int;
        if misses_partition(states[0], call, p) {
            lemma_next_mod(m, d);
        }
        match call {
            Call::Acquire { id, found: Lookup::Miss { slot, evicted: _ } } => {
                before.lemma_inserted(id, slot as int);
                assert(before.partition_of(id) == states[0].partition_of(id));
            },
            _ => {},
        }
    }
}

proof fn lemma_next_mod(m: int, d: int)
    requires
        0 <= m,
        0 < d,
    ensures
        (m + 1) % d == (if m % d + 1 >= d {
            0
        } else {
            m % d + 1
        }),
{
    let r = m % d;
    let q = m / d;
    vstd::arithmetic::div_mod::lemma_fundamental_div_mod(m, d);
    if r + 1 >= d {
        assert(m + 1 == (q + 1) * d + 0) by (nonlinear_arith)
            requires
                m == d * q + r,
                r + 1 == d,
        ;
        vstd::arithmetic::div_mod::lemma_fundamental_div_mod_converse(m + 1, d, q + 1, 0);
    } else {
        assert(m + 1 == q * d + (r + 1)) by (nonlinear_arith)
            requires
                m == d * q + r,
        ;
        vstd::arithmetic::div_mod::lemma_fundamental_div_mod_converse(m + 1, d, q, r + 1);
    }
}

/// Counters are halved by the misses of a partition: the k-th miss sets its
/// slot's counter to 1; then, where k is a multiple of the interval, every
/// counter of the partition is halved, its own too. No other counter changes,
/// and none of another partition ever does.
pub proof fn law_counters_halve_by_misses(
    partitions: nat,
    ids: nat,
    slots: nat,
    decay: nat,
    calls: Seq<Call>,
    states: Seq<CacheView>,
    i: int,
    t: int,
)
    requires
        run(partitions, ids, slots, decay, calls, states),
        0 <= i < calls.len(),
        is_miss(calls[i]),
        0 <= t < states[i].slots.len(),
    ensures
        ({
            let before = states[i];
            let after = states[i + 1];
            let p = states[0].partition_of(calls[i]->Acquire_id);
            let slot = pins_slot(calls[i])->0;
            let k = partition_misses(states[0], calls, p, (i + 1) as nat);
            let set = if t == slot {
                1u32
            } else {
                before.slots[t].freq
            };
            &&& k >= 1
            &&& states[0].in_partition(p, slot as int)
            &&& after.slots[t].freq == (if k % decay == 0 && states[0].in_partition(p, t) {
                set / 2
            } else {
                set
            })
        }),
{
    let before = states[i];
    let after = states[i + 1];
    let id = calls[i]->Acquire_id;
    let slot = pins_slot(calls[i])->0 as int;
    let p = states[0].partition_of(id);
    lemma_run(partitions, ids, slots, decay, calls, states, i);
    assert(steps_to(before, calls[i], after));
    before.lemma_inserted(id, slot);
    assert(before.partition_of(id) == p);
    lemma_inserts(partitions, ids, slots, decay, calls, states, i, p);
    let m = partition_misses(states[0], calls, p, i as nat) as int;
    lemma_next_mod(m, decay as int);
    let claimed = before.slots.update(slot, claimed_slot(id));
    if before.inserts[p] + 1 >= before.decay_interval && before.in_partition(p, t) {
        assert(after.slots[t] == aged_slot(claimed[t]));
    } else {
        assert(after.slots[t] == claimed[t]);
    }
}

/// The ids in the first `n` slots.
pub open spec fn ids_in(slots: Seq<SlotState>, n: nat) -> Set<ExpertId>
    decreases n,
{
    if n == 0 {
        Set::empty()
    } else {
        match slots[n - 1].id {
            Some(id) => ids_in(slots, (n - 1) as nat).insert(id),
            None => ids_in(slots, (n - 1) as nat),
        }
    }
}

proof fn lemma_ids_in(v: CacheView, n: nat)
    requires
        n <= v.slots.len(),
    ensures
        ids_in(v.slots, n).finite(),
        ids_in(v.slots, n).len() <= n,
        forall|id: ExpertId| #[trigger]
            ids_in(v.slots, n).contains(id) <==> exists|s: int|
                0 <= s < n && #[trigger] v.holds(id, s),
    decreases n,
{
    if n > 0 {
        lemma_ids_in(v, (n - 1) as nat);
        assert forall|id: ExpertId| #[trigger]
            ids_in(v.slots, n).contains(id) <==> exists|s: int|
                0 <= s < n && #[trigger] v.holds(id, s) by {
            if ids_in(v.slots, n).contains(id) {
                if v.slots[n - 1].id == Some(id) {
                    assert(v.holds(id, n - 1));
                }
            }
        }
    }
}

/// A cache has the slots it was built with, every slot that a lookup returns is
/// one of them, and no more ids are resident than there are slots.
pub proof fn law_residents_fit_slots(
    partitions: nat,
    ids: nat,
    slots: nat,
    decay: nat,
    calls: Seq<Call>,
    states: Seq<CacheView>,
    k: int,
)
    requires
        run(partitions, ids, slots, decay, calls, states),
        0 <= k <= calls.len(),
    ensures
        states[k].slots.len() == partitions * slots,
        k < calls.len() ==> (pins_slot(calls[k]) matches Some(s) ==> s < partitions * slots),
        ({
            let resident = Set::new(|id: ExpertId| states[k].resident(id));
            resident.finite() && resident.len() <= partitions * slots
        }),
{
    let v = states[k];
    lemma_run(partitions, ids, slots, decay, calls, states, k);
    if k < calls.len() {
        assert(steps_to(v, calls[k], states[k + 1]));
        lemma_step(v, calls[k], states[k + 1]);
    }
    let resident = Set::new(|id: ExpertId| v.resident(id));
    lemma_ids_in(v, v.slots.len());
    assert forall|id: ExpertId| #[trigger] resident.contains(id) <==> ids_in(
        v.slots,
        v.slots.len(),
    ).contains(id) by {
        if v.resident(id) {
            let s = choose|s: int| v.holds(id, s);
            assert(0 <= s < v.slots.len() && v.holds(id, s));
        }
    }
    assert(resident =~= ids_in(v.slots, v.slots.len()));
}

} // verus!
