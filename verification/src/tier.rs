//! Host-RAM expert tier: one mapping sliced into blob-span slabs, and the
//! choice of experts to preload it with. Bookkeeping is a single-pool cache
//! whose expert id folds (layer, expert) together.

use crate::cache::{
    folded, released_slot, CacheView, Expert, ExpertCache, ExpertId, Layer, Lookup, Slot,
    SlotState, empty_cache,
};
use vstd::prelude::*;

verus! {

/// Bookkeeping of the tier. Copying into and out of the slabs is the caller's:
/// slab `s` starts at byte `s * span`.
#[derive(Debug)]
pub struct RamTier {
    cache: ExpertCache,
    slots: u32,
    span: u64,
    num_layers: u16,
    experts_per_layer: u16,
    hits: u64,
}

/// How many slabs of `span` bytes the tier has.
pub open spec fn tier_slots(bytes: u64, span: u64) -> u32 {
    (bytes / span) as u32
}

/// How many insertions halve the tier's counters.
pub open spec fn tier_decay(slots: u32) -> nat {
    (if slots > 64 { slots as nat } else { 64 }) * 4
}

/// The state when `slot` has been filled: its weights are valid and its pin is
/// dropped.
pub open spec fn stored_slot(s: SlotState) -> SlotState {
    released_slot(SlotState { ready: true, ..s })
}

impl RamTier {
    pub closed spec fn view(self) -> CacheView {
        self.cache@
    }

    pub closed spec fn spec_slots(self) -> nat {
        self.slots as nat
    }

    pub closed spec fn spec_span(self) -> u64 {
        self.span
    }

    pub closed spec fn spec_hits(self) -> nat {
        self.hits as nat
    }

    pub closed spec fn dims(self) -> (u16, u16) {
        (self.num_layers, self.experts_per_layer)
    }

    pub closed spec fn wf(self) -> bool {
        &&& self.cache.wf()
        &&& self.slots == self@.slots.len()
        &&& self.slots > 0
        &&& self.num_layers * self.experts_per_layer <= u16::MAX
    }

    pub proof fn lemma_wf(self)
        requires
            self.wf(),
        ensures
            self@.wf(),
    {
        self.cache.lemma_wf();
    }

    /// All but the cache is as in `other`.
    pub open spec fn same_layout(self, other: RamTier) -> bool {
        &&& self.spec_slots() == other.spec_slots()
        &&& self.spec_span() == other.spec_span()
        &&& self.dims() == other.dims()
    }

    pub open spec fn has(self, layer: Layer, expert: Expert) -> bool {
        layer < self.dims().0 && expert < self.dims().1
    }

    /// The id that an expert has in the tier.
    pub open spec fn id_of(self, layer: Layer, expert: Expert) -> ExpertId {
        folded(layer as nat, expert as nat, self.dims().1 as nat) as u32
    }

    /// A tier of `bytes` bytes; `None` where it would hold nothing, or where
    /// the experts are too many for it.
    #[verifier::truncate]
    pub fn new(bytes: u64, span: u64, num_layers: u16, experts_per_layer: u16) -> (tier: Option<
        Self,
    >)
        requires
            span > 0,
            tier_decay(tier_slots(bytes, span)) <= u32::MAX,
        ensures
            match tier {
                Some(tier) => {
                    &&& tier.wf()
                    &&& tier_slots(bytes, span) > 0
                    &&& num_layers * experts_per_layer <= u16::MAX
                    &&& tier.spec_slots() == tier_slots(bytes, span)
                    &&& tier.spec_span() == span
                    &&& tier.dims() == (num_layers, experts_per_layer)
                    &&& tier.spec_hits() == 0
                    &&& tier@ == empty_cache(
                        1,
                        u32::MAX as nat,
                        tier_slots(bytes, span) as nat,
                        tier_decay(tier_slots(bytes, span)),
                    )
                },
                None => tier_slots(bytes, span) == 0 || num_layers * experts_per_layer > u16::MAX,
            },
    {
        let slots: u32 = (bytes / span) as u32;
        assert(0 <= num_layers * experts_per_layer <= 0xffff * 0xffff) by (nonlinear_arith)
            requires
                0 <= num_layers <= 0xffff,
                0 <= experts_per_layer <= 0xffff,
        ;
        let total: u32 = num_layers as u32 * experts_per_layer as u32;
        if slots == 0 || total > u16::MAX as u32 {
            return None;
        }
        let base: u32 = if slots > 64 {
            slots
        } else {
            64
        };
        let cache = ExpertCache::new(1, slots, base * 4);
        Some(RamTier { cache, slots, span, num_layers, experts_per_layer, hits: 0 })
    }

    fn key(&self, layer: Layer, expert: Expert) -> (id: ExpertId)
        requires
            self.wf(),
            self.has(layer, expert),
        ensures
            id == self.id_of(layer, expert),
    {
        let e: u16 = self.experts_per_layer;
        assert(layer * e + e <= self.num_layers * e) by (nonlinear_arith)
            requires
                layer + 1 <= self.num_layers,
                0 <= e,
        ;
        ExpertCache::fold(layer, expert, e as u32)
    }

    /// How many slabs there are.
    pub fn capacity(&self) -> (n: u32)
        ensures
            n == self.spec_slots(),
    {
        self.slots
    }

    /// Fetches served from the tier.
    pub fn hits(&self) -> (n: u64)
        ensures
            n == self.spec_hits(),
    {
        self.hits
    }

    /// Whether one more lookup of the expert can be counted.
    pub fn can_use(&self, layer: Layer, expert: Expert) -> (yes: bool)
        requires
            self.wf(),
            self.has(layer, expert),
        ensures
            yes == self@.countable(self.id_of(layer, expert)),
    {
        let id: ExpertId = self.key(layer, expert);
        self.cache.can_acquire(id)
    }

    /// The slab that holds the expert, pinned until `got`.
    pub fn get(&mut self, layer: Layer, expert: Expert) -> (slot: Option<Slot>)
        requires
            old(self).wf(),
            old(self).has(layer, expert),
            old(self)@.pinnable(old(self).id_of(layer, expert)),
        ensures
            final(self).wf(),
            final(self).same_layout(*old(self)),
            final(self).spec_hits() == old(self).spec_hits(),
            ({
                let v = old(self)@;
                let id = old(self).id_of(layer, expert);
                match slot {
                    Some(slot) => {
                        &&& v.holds(id, slot as int)
                        &&& v.slots[slot as int].ready
                        &&& final(self)@ == v.touched(slot as int)
                    },
                    None => {
                        &&& forall|s: int| #[trigger] v.holds(id, s) ==> !v.slots[s].ready
                        &&& final(self)@ == v
                    },
                }
            }),
    {
        let id: ExpertId = self.key(layer, expert);
        self.cache.lookup_ready(id)
    }

    /// The expert has been copied out of `slot`: its pin is dropped and the
    /// hit is counted.
    pub fn got(&mut self, slot: Slot)
        requires
            old(self).wf(),
            slot < old(self)@.slots.len(),
            old(self)@.slots[slot as int].pins > 0,
        ensures
            final(self).wf(),
            final(self).same_layout(*old(self)),
            final(self).spec_hits() == (old(self).spec_hits() + 1) % 0x1_0000_0000_0000_0000,
            final(self)@ == old(self)@.with_slot(
                slot as int,
                released_slot(old(self)@.slots[slot as int]),
            ),
    {
        self.cache.release(slot);
        self.hits = self.hits.wrapping_add(1);
    }

    /// Write-allocate after a disk read; best-effort. The slab to copy the
    /// expert into, pinned until `stored`; nothing where it is there already
    /// or every slab is pinned.
    pub fn put(&mut self, layer: Layer, expert: Expert) -> (slot: Option<Slot>)
        requires
            old(self).wf(),
            old(self).has(layer, expert),
            old(self)@.countable(old(self).id_of(layer, expert)),
        ensures
            final(self).wf(),
            final(self).same_layout(*old(self)),
            final(self).spec_hits() == old(self).spec_hits(),
            ({
                let v = old(self)@;
                let id = old(self).id_of(layer, expert);
                match slot {
                    Some(slot) => v.answers(
                        id,
                        Lookup::Miss { slot, evicted: v.slots[slot as int].id },
                        final(self)@,
                    ),
                    None => {
                        ||| exists|s: int| #[trigger]
                            v.holds(id, s) && final(self)@ == v.touched(s).with_slot(
                                s,
                                released_slot(v.touched(s).slots[s]),
                            )
                        ||| v.answers(id, Lookup::Stalled, final(self)@)
                    },
                }
            }),
    {
        let id: ExpertId = self.key(layer, expert);
        match self.cache.acquire(id) {
            Lookup::Miss { slot, evicted: _ } => Some(slot),
            Lookup::Hit(slot) => {
                self.cache.release(slot);
                None
            },
            Lookup::Stalled => None,
        }
    }

    /// The expert has been copied into `slot`: it is valid, and its pin is
    /// dropped.
    pub fn stored(&mut self, slot: Slot)
        requires
            old(self).wf(),
            slot < old(self)@.slots.len(),
            old(self)@.slots[slot as int].pins > 0,
        ensures
            final(self).wf(),
            final(self).same_layout(*old(self)),
            final(self).spec_hits() == old(self).spec_hits(),
            final(self)@ == old(self)@.with_slot(
                slot as int,
                stored_slot(old(self)@.slots[slot as int]),
            ),
    {
        let ghost v = self@;
        self.cache.publish(slot);
        self.cache.release(slot);
        assert(self@.slots =~= v.with_slot(
            slot as int,
            stored_slot(v.slots[slot as int]),
        ).slots);
    }
}

/// Only what was stored can be got: an expert that has just been given a slab
/// is not handed out until its copy is reported done.
pub proof fn law_unfilled_is_not_served(v: CacheView, id: ExpertId, slot: int)
    requires
        v.wf(),
        !v.resident(id),
        0 <= slot < v.slots.len(),
        v.victim(id, slot),
    ensures
        forall|s: int| #[trigger]
            v.inserted(id, slot).holds(id, s) ==> !v.inserted(id, slot).slots[s].ready,
{
    v.law_insert_replaces_one(id, slot);
}

/// How many counts are above `t`.
pub open spec fn count_above(counts: Seq<u64>, t: nat, n: nat) -> nat
    decreases n,
{
    if n == 0 {
        0
    } else {
        count_above(counts, t, (n - 1) as nat) + (if counts[n - 1] > t {
            1nat
        } else {
            0nat
        })
    }
}

/// How many counts are `t`.
pub open spec fn count_equal(counts: Seq<u64>, t: nat, n: nat) -> nat
    decreases n,
{
    if n == 0 {
        0
    } else {
        count_equal(counts, t, (n - 1) as nat) + (if counts[n - 1] == t {
            1nat
        } else {
            0nat
        })
    }
}

proof fn lemma_count_split(counts: Seq<u64>, t: nat, n: nat)
    requires
        t > 0,
    ensures
        count_above(counts, (t - 1) as nat, n) == count_above(counts, t, n) + count_equal(
            counts,
            t,
            n,
        ),
    decreases n,
{
    if n > 0 {
        lemma_count_split(counts, t, (n - 1) as nat);
    }
}

proof fn lemma_count_bounds(counts: Seq<u64>, t: nat, n: nat)
    ensures
        count_above(counts, t, n) + count_equal(counts, t, n) <= n,
        t >= u64::MAX ==> count_above(counts, t, n) == 0,
    decreases n,
{
    if n > 0 {
        lemma_count_bounds(counts, t, (n - 1) as nat);
    }
}

fn above(counts: &[u64], t: u64) -> (n: usize)
    ensures
        n == count_above(counts@, t as nat, counts@.len()),
{
    let mut n: usize = 0;
    let mut i: usize = 0;
    while i < counts.len()
        invariant
            i <= counts@.len(),
            n <= i,
            n == count_above(counts@, t as nat, i as nat),
        decreases counts@.len() - i,
    {
        if counts[i] > t {
            n += 1;
        }
        i += 1;
    }
    n
}

/// `chosen` is a choice of experts to preload, in pack order: as many of those
/// ever fetched as `capacity` allows, and none of the others was fetched more
/// often than one of them.
pub open spec fn preload_choice(counts: Seq<u64>, capacity: nat, chosen: Seq<usize>) -> bool {
    let fetched = count_above(counts, 0, counts.len());
    &&& chosen.len() == (if fetched <= capacity { fetched } else { capacity })
    &&& forall|i: int, j: int|
        #![trigger chosen[i], chosen[j]]
        0 <= i < j < chosen.len() ==> chosen[i] < chosen[j]
    &&& forall|i: int|
        #![trigger chosen[i]]
        0 <= i < chosen.len() ==> chosen[i] < counts.len() && counts[chosen[i] as int] > 0
    &&& forall|i: int, k: int|
        #![trigger chosen[i], counts[k]]
        0 <= i < chosen.len() && 0 <= k < counts.len() && !chosen.contains(k as usize)
            ==> counts[k] <= counts[chosen[i] as int]
}

/// The highest-count experts of a profile (row-major layer*epl+expert counts)
/// that a tier of `capacity` slabs can take, by pack order for near-sequential
/// reads.
pub fn preload_order(counts: &[u64], capacity: usize) -> (chosen: Vec<usize>)
    ensures
        preload_choice(counts@, capacity as nat, chosen@),
{
    let n: usize = counts.len();
    // The least threshold with no more than `capacity` counts above it.
    let mut t: u64 = 0;
    if above(counts, 0) > capacity {
        let mut hi: u64 = u64::MAX;
        proof {
            lemma_count_bounds(counts@, u64::MAX as nat, n as nat);
        }
        while hi - t > 1
            invariant
                n == counts@.len(),
                t < hi,
                count_above(counts@, t as nat, n as nat) > capacity,
                count_above(counts@, hi as nat, n as nat) <= capacity,
            decreases hi - t,
        {
            let mid: u64 = t + (hi - t) / 2;
            if above(counts, mid) > capacity {
                t = mid;
            } else {
                hi = mid;
            }
        }
        t = hi;
    }
    let over: usize = above(counts, t);
    let mut ties: usize = capacity - over;
    if t == 0 {
        ties = 0;
    }
    let ghost fetched = count_above(counts@, 0, n as nat);
    let ghost want: nat = ties as nat;
    let ghost tie = t as nat;
    proof {
        if t > 0 {
            lemma_count_split(counts@, t as nat, n as nat);
        }
    }
    let mut chosen: Vec<usize> = Vec::new();
    let mut i: usize = 0;
    while i < n
        invariant
            n == counts@.len(),
            i <= n,
            ties <= want,
            tie == t,
            t == 0 ==> want == 0,
            want - ties == (if count_equal(counts@, tie, i as nat) <= want {
                count_equal(counts@, tie, i as nat)
            } else {
                want
            }),
            chosen@.len() == count_above(counts@, tie, i as nat) + (want - ties),
            forall|k: int|
                #![trigger chosen@[k]]
                0 <= k < chosen@.len() ==> {
                    &&& chosen@[k] < i
                    &&& counts@[chosen@[k] as int] >= t
                    &&& counts@[chosen@[k] as int] > 0
                },
            forall|x: int, y: int|
                #![trigger chosen@[x], chosen@[y]]
                0 <= x < y < chosen@.len() ==> chosen@[x] < chosen@[y],
            forall|k: int|
                #![trigger counts@[k]]
                0 <= k < i && !chosen@.contains(k as usize) ==> counts@[k] <= t,
        decreases n - i,
    {
        let c: u64 = counts[i];
        let ghost before = chosen@;
        if c > t {
            chosen.push(i);
            proof {
                lemma_grown(before, i);
            }
        } else if c == t && ties > 0 {
            chosen.push(i);
            ties -= 1;
            proof {
                lemma_grown(before, i);
            }
        }
        i += 1;
    }
    proof {
        lemma_count_bounds(counts@, tie, n as nat);
    }
    chosen
}

proof fn lemma_grown(before: Seq<usize>, i: usize)
    ensures
        forall|k: usize| #[trigger] before.contains(k) ==> before.push(i).contains(k),
        before.push(i).contains(i),
{
    let after = before.push(i);
    assert(after[before.len() as int] == i);
    assert forall|k: usize| #[trigger] before.contains(k) implies after.contains(k) by {
        let x = choose|x: int| 0 <= x < before.len() && before[x] == k;
        assert(after[x] == k);
    }
}

} // verus!
