//! Where experts are held: slots of their own in device memory, and slabs of
//! host memory that serve what was stored in them.

use crate::cache::{released_slot, CacheView, Expert, ExpertId, Layer, Slot};
use crate::pager::{slot_address, Fill, Pager, PagerView};
use crate::tier::{stored_slot, tier_decay, tier_slots};
use vstd::prelude::*;

verus! {

/// Every slot has memory of its own in the arena of its layer: it lies within
/// the arena, and two slots of a layer do not overlap.
pub proof fn law_slots_lie_apart(
    arenas: Seq<u64>,
    slots_per_layer: nat,
    span: nat,
    layer: int,
    i: int,
    j: int,
)
    requires
        0 <= layer < arenas.len(),
        0 <= i < j < slots_per_layer,
    ensures
        ({
            let a = arenas[layer] as int;
            let x = slot_address(arenas, slots_per_layer, span, layer * slots_per_layer + i);
            let y = slot_address(arenas, slots_per_layer, span, layer * slots_per_layer + j);
            &&& a <= x
            &&& x + span <= y
            &&& y + span <= a + slots_per_layer * span
        }),
{
    let n = slots_per_layer as int;
    vstd::arithmetic::div_mod::lemma_fundamental_div_mod_converse(layer * n + i, n, layer, i);
    vstd::arithmetic::div_mod::lemma_fundamental_div_mod_converse(layer * n + j, n, layer, j);
    let s = span as int;
    assert(i * s + s <= j * s) by (nonlinear_arith)
        requires
            i + 1 <= j,
            0 <= s,
    ;
    assert(j * s + s <= n * s) by (nonlinear_arith)
        requires
            j + 1 <= n,
            0 <= s,
    ;
    assert(0 <= i * s) by (nonlinear_arith)
        requires
            0 <= i,
            0 <= s,
    ;
}

/// A fetch that is done leaves its expert in its slot, ready to be read, with
/// the pins it had, one fewer where the fetch's own is given back. Nothing else
/// changes.
pub proof fn law_fetch_leaves_the_expert_ready(v: PagerView, slot: int, release: bool, t: int)
    requires
        v.wf(),
        0 <= slot < v.fill.len(),
        0 <= t < v.fill.len(),
        v.fill[slot] == Fill::InFlight,
    ensures
        ({
            let w = v.filled(slot, release);
            &&& w.fill[slot] == Fill::Ready
            &&& w.cache.slots[slot].ready
            &&& w.cache.slots[slot].id == v.cache.slots[slot].id
            &&& w.cache.slots[slot].freq == v.cache.slots[slot].freq
            &&& w.cache.slots[slot].pins == v.cache.slots[slot].pins - (if release {
                1int
            } else {
                0
            })
            &&& t != slot ==> w.fill[t] == v.fill[t] && w.cache.slots[t] == v.cache.slots[t]
            &&& w.cache.hits == v.cache.hits && w.cache.misses == v.cache.misses
            &&& w.cache.inserts == v.cache.inserts
        }),
{
    assert(crate::pager::slot_agrees(v.fill[slot], v.cache.slots[slot]));
}

/// A handle is for the expert that was asked for, in the slot that it was given:
/// it has the slot's address, and the length that the pack's index gives that
/// expert.
pub proof fn law_handles_are_for_their_expert(p: Pager, layer: Layer, expert: Expert, slot: Slot)
    ensures
        ({
            let h = p.handle_for(layer, expert, slot);
            let row = layer * p.spec_index().spec_meta().experts_per_layer + expert;
            &&& h.layer == layer
            &&& h.expert == expert
            &&& h.slot == slot
            &&& h.dev == p.addresses()[slot as int]
            &&& h.len == p.spec_index().entries()[row].nbytes
        }),
{
}

/// The host memory of a tier holds as many slabs as fit into it.
pub proof fn law_tier_has_what_fits(bytes: u64, span: u64)
    requires
        span > 0,
        bytes / span <= u32::MAX,
    ensures
        tier_slots(bytes, span) * span <= bytes,
        bytes < (tier_slots(bytes, span) + 1) * span,
{
    let q = bytes as int / span as int;
    vstd::arithmetic::div_mod::lemma_fundamental_div_mod(bytes as int, span as int);
    assert(q * span == span * q) by (nonlinear_arith);
    assert((q + 1) * span == q * span + span) by (nonlinear_arith);
}

/// A tier's counters are halved after as many insertions as fill it four
/// times, and never after fewer than 256.
pub proof fn law_tier_ages_slowly(slots: u32)
    ensures
        tier_decay(slots) >= 256,
        tier_decay(slots) >= 4 * slots,
        tier_decay(slots) == 256 || tier_decay(slots) == 4 * slots,
{
}

/// What was stored is served: the slab that an expert was given and that has
/// been filled is found when the expert is looked for, and with no pin left on
/// it from the store.
pub proof fn law_stored_is_served(v: CacheView, id: ExpertId, slot: int)
    requires
        v.wf(),
        !v.resident(id),
        0 <= slot < v.slots.len(),
        v.victim(id, slot),
    ensures
        ({
            let claimed = v.inserted(id, slot);
            let w = claimed.with_slot(slot, stored_slot(claimed.slots[slot]));
            &&& w.holds(id, slot)
            &&& w.slots[slot].ready
            &&& w.slots[slot].pins == 0
            &&& forall|t: int|
                0 <= t < v.slots.len() && t != slot ==> (#[trigger] w.slots[t]).id == v.slots[t].id
                    && w.slots[t].ready == v.slots[t].ready && w.slots[t].pins == v.slots[t].pins
        }),
{
    let claimed = v.inserted(id, slot);
    let set = v.slots.update(slot, crate::cache::claimed_slot(id));
    assert forall|t: int| 0 <= t < v.slots.len() implies (#[trigger] claimed.slots[t]).id
        == set[t].id && claimed.slots[t].pins == set[t].pins && claimed.slots[t].ready
        == set[t].ready by {}
    v.lemma_inserted(id, slot);
    assert(claimed.slots[slot].pins == 1);
}

/// A copy out of a slab leaves no trace but its count: the pin that the lookup
/// took is given back, the expert stays, and it counts as used once more.
pub proof fn law_serving_counts_a_use(v: CacheView, slot: int)
    requires
        0 <= slot < v.slots.len(),
        v.slots[slot].pins < u32::MAX,
        v.slots[slot].freq < u32::MAX,
    ensures
        ({
            let t = v.touched(slot);
            let w = t.with_slot(slot, released_slot(t.slots[slot]));
            &&& w.slots[slot].id == v.slots[slot].id
            &&& w.slots[slot].ready == v.slots[slot].ready
            &&& w.slots[slot].pins == v.slots[slot].pins
            &&& w.slots[slot].freq == v.slots[slot].freq + 1
            &&& w.hits == v.hits + 1
            &&& w.misses == v.misses
        }),
{
}

} // verus!
