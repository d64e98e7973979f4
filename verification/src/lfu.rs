//! The cache keeps what is used: over any run of calls, a slot's counter counts
//! the hits on it, and what is given up is what was used least.

use crate::cache::{CacheView, ExpertId, Lookup, Slot};
use crate::history::{
    is_hit, is_miss, law_counters_halve_by_misses, lemma_run, partition_misses, pins_slot, run,
    steps_to, Call,
};
use vstd::prelude::*;

verus! {

/// One more, unless at the top.
pub open spec fn one_more(n: u32) -> u32 {
    if n == u32::MAX {
        n
    } else {
        (n + 1) as u32
    }
}

/// A hit raises the counter of the slot that it returns by one, unless it is at
/// its top, and pins the slot once more. It changes no other counter, no other
/// pin, and no occupant.
pub proof fn law_hits_raise_the_counter(
    partitions: nat,
    ids: nat,
    slots: nat,
    decay: nat,
    calls: Seq<Call>,
    states: Seq<CacheView>,
    i: int,
    t: int,
)
    requires
        run(partitions, ids, slots, decay, calls, states),
        0 <= i < calls.len(),
        is_hit(calls[i]),
        0 <= t < states[i].slots.len(),
    ensures
        ({
            let s = pins_slot(calls[i])->0;
            let (x, y) = (states[i].slots[t], states[i + 1].slots[t]);
            &&& pins_slot(calls[i]) is Some
            &&& y.freq == (if t == s {
                one_more(x.freq)
            } else {
                x.freq
            })
            &&& y.pins == (if t == s {
                x.pins + 1
            } else {
                x.pins as int
            })
            &&& y.id == x.id
            &&& y.ready == x.ready
        }),
{
    assert(steps_to(states[i], calls[i], states[i + 1]));
    lemma_run(partitions, ids, slots, decay, calls, states, i);
}

/// What neither hits nor misses changes no counter and no occupant; publishing a
/// slot makes it ready, and releasing it takes one pin.
pub proof fn law_other_calls_leave_counters(
    partitions: nat,
    ids: nat,
    slots: nat,
    decay: nat,
    calls: Seq<Call>,
    states: Seq<CacheView>,
    i: int,
    t: int,
)
    requires
        run(partitions, ids, slots, decay, calls, states),
        0 <= i < calls.len(),
        !is_hit(calls[i]),
        !is_miss(calls[i]),
        0 <= t < states[i].slots.len(),
    ensures
        states[i + 1].slots[t].freq == states[i].slots[t].freq,
        states[i + 1].slots[t].id == states[i].slots[t].id,
        states[i + 1].slots[t].ready
            == (states[i].slots[t].ready || (calls[i] matches Call::Publish {
            slot,
        } && slot == t)),
        states[i + 1].slots[t].pins
            == states[i].slots[t].pins - (if calls[i] matches Call::Release {
            slot,
        } && slot == t {
            1int
        } else {
            0
        }),
{
    assert(steps_to(states[i], calls[i], states[i + 1]));
}

/// How many of the calls from `i` on, before call `k`, hit slot `t`.
pub open spec fn hits_on(calls: Seq<Call>, t: int, i: int, k: int) -> nat
    decreases k - i,
{
    if k <= i {
        0
    } else {
        hits_on(calls, t, i, k - 1) + (if is_hit(calls[k - 1]) && pins_slot(calls[k - 1]) == Some(
            t as Slot,
        ) {
            1nat
        } else {
            0
        })
    }
}

/// Between call `i` and call `k`, slot `t` is given to nobody else and the
/// counters of partition `p` are not halved; nor are they by call `i`.
pub open spec fn undisturbed(
    calls: Seq<Call>,
    first: CacheView,
    decay: nat,
    p: int,
    t: int,
    i: int,
    k: int,
) -> bool {
    forall|j: int|
        #![trigger calls[j]]
        i <= j < k && is_miss(calls[j]) ==> {
            &&& j > i ==> pins_slot(calls[j]) != Some(t as Slot)
            &&& first.partition_of(calls[j]->Acquire_id) == p ==> partition_misses(
                first,
                calls,
                p,
                (j + 1) as nat,
            ) % decay != 0
        }
}

/// Without a decay in between, a slot's counter is one plus the hits on it since
/// its expert was inserted.
pub proof fn law_counter_is_one_plus_hits(
    partitions: nat,
    ids: nat,
    slots: nat,
    decay: nat,
    calls: Seq<Call>,
    states: Seq<CacheView>,
    i: int,
    k: int,
    t: int,
)
    requires
        run(partitions, ids, slots, decay, calls, states),
        0 <= i < k <= calls.len(),
        is_miss(calls[i]),
        pins_slot(calls[i]) == Some(t as Slot),
        0 <= t < states[0].slots.len(),
        undisturbed(
            calls,
            states[0],
            decay,
            states[0].partition_of(calls[i]->Acquire_id),
            t,
            i,
            k,
        ),
        hits_on(calls, t, i + 1, k) < u32::MAX,
    ensures
        states[k].slots[t].freq == 1 + hits_on(calls, t, i + 1, k),
    decreases k,
{
    let p = states[0].partition_of(calls[i]->Acquire_id);
    let j = k - 1;
    lemma_run(partitions, ids, slots, decay, calls, states, j);
    lemma_run(partitions, ids, slots, decay, calls, states, i);
    assert(steps_to(states[i], calls[i], states[i + 1]));
    crate::history::lemma_step(states[i], calls[i], states[i + 1]);
    assert(states[0].slots.len() <= u32::MAX);
    if j == i {
        law_counters_halve_by_misses(partitions, ids, slots, decay, calls, states, i, t);
    } else {
        law_counter_is_one_plus_hits(partitions, ids, slots, decay, calls, states, i, j, t);
        let call = calls[j];
        if is_miss(call) {
            law_counters_halve_by_misses(partitions, ids, slots, decay, calls, states, j, t);
            law_counters_halve_by_misses(partitions, ids, slots, decay, calls, states, i, t);
            let q = states[0].partition_of(call->Acquire_id);
            if q != p && states[0].in_partition(q, t) {
                lemma_run(partitions, ids, slots, decay, calls, states, 0);
                crate::cache::lemma_partitions_disjoint(
                    states[0].slots_per_partition as int,
                    p,
                    q,
                    t,
                );
            }
            assert(pins_slot(calls[j]) != Some(t as Slot));
        } else if is_hit(call) {
            law_hits_raise_the_counter(partitions, ids, slots, decay, calls, states, j, t);
        } else {
            law_other_calls_leave_counters(partitions, ids, slots, decay, calls, states, j, t);
        }
    }
}

/// What is given up for an expert is unpinned, and no unpinned slot of its
/// partition was used less: one with a greater counter is never given up before
/// it. Among the least used an empty slot goes first, then the first.
pub proof fn law_least_used_goes_first(
    partitions: nat,
    ids: nat,
    slots: nat,
    decay: nat,
    calls: Seq<Call>,
    states: Seq<CacheView>,
    i: int,
    t: int,
)
    requires
        run(partitions, ids, slots, decay, calls, states),
        0 <= i < calls.len(),
        is_miss(calls[i]),
        0 <= t < states[i].slots.len(),
        states[i].usable(calls[i]->Acquire_id, t),
        states[i].slots[t].pins == 0,
    ensures
        ({
            let s = pins_slot(calls[i])->0 as int;
            let (x, y) = (states[i].slots[s], states[i].slots[t]);
            &&& x.pins == 0
            &&& states[i].usable(calls[i]->Acquire_id, s)
            &&& x.freq <= y.freq
            &&& x.freq == y.freq && y.id is None ==> x.id is None
            &&& x.freq == y.freq && (x.id is None <==> y.id is None) ==> s <= t
        }),
{
    assert(steps_to(states[i], calls[i], states[i + 1]));
    lemma_run(partitions, ids, slots, decay, calls, states, i);
}

/// What a lookup answers: a hit exactly where a slot holds the expert, and with
/// that slot; a stall exactly where none does and every slot of the expert's
/// partition is pinned. A miss leaves the expert in the slot, pinned once and
/// not ready, names who was there, and moves nobody else.
pub proof fn law_lookups_answer(
    partitions: nat,
    ids: nat,
    slots: nat,
    decay: nat,
    calls: Seq<Call>,
    states: Seq<CacheView>,
    i: int,
    id: ExpertId,
    found: Lookup,
)
    requires
        run(partitions, ids, slots, decay, calls, states),
        0 <= i < calls.len(),
        calls[i] == (Call::Acquire { id, found }),
    ensures
        ({
            let (x, y) = (states[i], states[i + 1]);
            let here = exists|s: int| 0 <= s < x.slots.len()
                && #[trigger] x.slots[s].id == Some(id);
            let stuck = forall|s: int|
                0 <= s < x.slots.len() && x.usable(id, s) ==> (#[trigger] x.slots[s]).pins > 0;
            &&& found is Hit <==> here
            &&& found == Lookup::Stalled <==> !here && stuck
            &&& match found {
                Lookup::Hit(s) => s < x.slots.len() && x.slots[s as int].id == Some(id),
                Lookup::Miss { slot, evicted } => {
                    &&& slot < x.slots.len()
                    &&& evicted == x.slots[slot as int].id
                    &&& y.slots[slot as int].id == Some(id)
                    &&& y.slots[slot as int].pins == 1
                    &&& !y.slots[slot as int].ready
                    &&& forall|t: int|
                        0 <= t < x.slots.len() && t != slot ==> (#[trigger] y.slots[t]).id
                            == x.slots[t].id && y.slots[t].pins == x.slots[t].pins
                            && y.slots[t].ready == x.slots[t].ready
                },
                Lookup::Stalled => y == x,
            }
        }),
{
    let (x, y) = (states[i], states[i + 1]);
    assert(steps_to(x, calls[i], y));
    lemma_run(partitions, ids, slots, decay, calls, states, i);
    match found {
        Lookup::Hit(s) => {
            assert(x.holds(id, s as int));
        },
        Lookup::Miss { slot, evicted } => {
            assert forall|s: int| 0 <= s < x.slots.len() implies #[trigger] x.slots[s].id != Some(
                id,
            ) by {
                assert(!x.holds(id, s));
            }
            let u = slot as int;
            assert(x.usable(id, u) && x.slots[u].pins == 0);
            let claimed = x.slots.update(u, crate::cache::claimed_slot(id));
            assert forall|t: int| 0 <= t < x.slots.len() implies (#[trigger] y.slots[t]).id
                == claimed[t].id && y.slots[t].pins == claimed[t].pins && y.slots[t].ready
                == claimed[t].ready by {}
        },
        Lookup::Stalled => {
            assert forall|s: int| 0 <= s < x.slots.len() implies #[trigger] x.slots[s].id != Some(
                id,
            ) by {
                assert(!x.holds(id, s));
            }
        },
    }
}

/// A lookup that wants a filled slot finds one exactly where the expert is
/// resident and ready, and else changes nothing.
pub proof fn law_ready_lookups_answer(
    partitions: nat,
    ids: nat,
    slots: nat,
    decay: nat,
    calls: Seq<Call>,
    states: Seq<CacheView>,
    i: int,
    id: ExpertId,
    found: Option<Slot>,
)
    requires
        run(partitions, ids, slots, decay, calls, states),
        0 <= i < calls.len(),
        calls[i] == (Call::LookupReady { id, found }),
    ensures
        ({
            let x = states[i];
            let here = exists|s: int|
                0 <= s < x.slots.len() && (#[trigger] x.slots[s]).id == Some(id)
                    && x.slots[s].ready;
            &&& found is Some <==> here
            &&& found matches Some(s) ==> s < x.slots.len() && x.slots[s as int].id == Some(id)
                && x.slots[s as int].ready
            &&& found is None ==> states[i + 1] == x
        }),
{
    let x = states[i];
    assert(steps_to(x, calls[i], states[i + 1]));
    match found {
        Some(s) => {
            assert(x.holds(id, s as int));
        },
        None => {
            assert forall|s: int|
                0 <= s < x.slots.len() && (#[trigger] x.slots[s]).id == Some(
                    id,
                ) implies !x.slots[s].ready by {
                assert(x.holds(id, s));
            }
        },
    }
}

} // verus!
