//! Aged-LFU cache bookkeeping for routed experts, keyed by a flat expert id.
//!
//! Experts are identified by a single `ExpertId`; a `(layer, expert)` pair
//! folds into one as `layer * ids_per_partition + expert`. Slots are drawn
//! from *partitions*: with one partition per layer every layer has slots of
//! its own, and with a single partition every layer competes for one global
//! pool, so layers that route to many experts naturally claim more slots than
//! layers that route to few.
//!
//! A slot holds one expert's weights (the device buffer itself lives in the
//! GPU layer; here a slot is just an index, global across partitions).
//! Eviction picks the unpinned slot in the same partition with the lowest
//! frequency counter; counters halve every `decay_interval` insertions so
//! long-dead experts cannot pin the cache forever. Pinning (refcounts) keeps
//! an expert resident while a fetch or a forward pass is using it.

use std::collections::HashMap;
use vstd::prelude::*;

verus! {

pub type Layer = u16;

pub type Expert = u16;

/// Flat expert identifier: `layer * ids_per_partition + expert` for packs
/// with a layer structure, or just an index for a flat expert population.
pub type ExpertId = u32;

/// Slot index, global across every partition.
pub type Slot = u32;

#[derive(Debug, Clone, Copy, PartialEq, Eq, Structural)]
pub enum Lookup {
    /// Expert already cached; slot is pinned for the caller.
    Hit(Slot),
    /// Expert must be fetched into `slot`; previous occupant (if any) was
    /// evicted. Slot is pinned for the caller; call `publish` once filled.
    Miss { slot: Slot, evicted: Option<ExpertId> },
    /// Every slot the id could use is pinned; caller must retry after
    /// unpinning.
    Stalled,
}

/// What the cache knows of one slot.
#[derive(Debug, Clone, Copy)]
pub struct SlotState {
    pub id: Option<ExpertId>,
    pub freq: u32,
    pub pins: u32,
    /// False while a miss is in flight: the slot is claimed (and pinned) but
    /// the expert's weights are not yet valid for other readers.
    pub ready: bool,
}

#[derive(Debug)]
struct Partition {
    /// Global slot indices this partition draws from: `base .. base + len`.
    base: u32,
    len: u32,
    /// id -> global slot, for experts currently resident (ready or in flight).
    map: HashMap<ExpertId, Slot>,
    inserts_since_decay: u32,
}

#[derive(Debug)]
pub struct ExpertCache {
    slots: Vec<SlotState>,
    parts: Vec<Partition>,
    /// Ids per partition; also the fold factor for `(layer, expert)`.
    ids_per_partition: u32,
    decay_interval: u32,
    hits: u64,
    misses: u64,
}

/// The state of a cache: its slots, and for each partition the number of
/// insertions since its counters were last halved.
pub struct CacheView {
    pub slots: Seq<SlotState>,
    pub inserts: Seq<u32>,
    pub slots_per_partition: nat,
    pub ids_per_partition: nat,
    pub decay_interval: nat,
    pub hits: nat,
    pub misses: nat,
}

/// The state of a slot that has just been claimed for `id`.
pub open spec fn claimed_slot(id: ExpertId) -> SlotState {
    SlotState { id: Some(id), freq: 1, pins: 1, ready: false }
}

/// A slot pinned once more, its counter raised unless it is at its top.
pub open spec fn touched_slot(s: SlotState) -> SlotState {
    SlotState {
        freq: if s.freq < u32::MAX { (s.freq + 1) as u32 } else { s.freq },
        pins: (s.pins + 1) as u32,
        ..s
    }
}

/// A slot whose frequency counter is halved.
pub open spec fn aged_slot(s: SlotState) -> SlotState {
    SlotState { freq: s.freq / 2, ..s }
}

/// Eviction order: lower frequency first, an empty slot before an occupied
/// one of the same frequency.
pub open spec fn colder(a: SlotState, b: SlotState) -> bool {
    a.freq < b.freq || (a.freq == b.freq && a.id is None && b.id is Some)
}

impl CacheView {
    /// The partition whose slots `id` may use.
    pub open spec fn partition_of(self, id: ExpertId) -> int {
        if self.inserts.len() == 1 {
            0
        } else {
            let p = id as int / self.ids_per_partition as int;
            if p < self.inserts.len() {
                p
            } else {
                self.inserts.len() - 1
            }
        }
    }

    /// Slot `s` belongs to partition `p`.
    pub open spec fn in_partition(self, p: int, s: int) -> bool {
        p * self.slots_per_partition <= s < (p + 1) * self.slots_per_partition
    }

    /// Slot `s` is one that `id` may use.
    pub open spec fn usable(self, id: ExpertId, s: int) -> bool {
        self.in_partition(self.partition_of(id), s)
    }

    /// Slot `s` holds `id`.
    pub open spec fn holds(self, id: ExpertId, s: int) -> bool {
        0 <= s < self.slots.len() && self.slots[s].id == Some(id)
    }

    /// Some slot holds `id`.
    pub open spec fn resident(self, id: ExpertId) -> bool {
        exists|s: int| self.holds(id, s)
    }

    /// Slot `s` is the one to give up for `id`: the first of the coldest
    /// among the unpinned slots that `id` may use.
    pub open spec fn victim(self, id: ExpertId, s: int) -> bool {
        &&& self.usable(id, s)
        &&& self.slots[s].pins == 0
        &&& forall|t: int|
            #![trigger self.slots[t]]
            self.usable(id, t) && self.slots[t].pins == 0 ==> {
                ||| colder(self.slots[s], self.slots[t])
                ||| (!colder(self.slots[t], self.slots[s]) && s <= t)
            }
    }

    /// Every slot that `id` may use is pinned.
    pub open spec fn all_pinned(self, id: ExpertId) -> bool {
        forall|t: int| #![trigger self.slots[t]] self.usable(id, t) ==> self.slots[t].pins > 0
    }

    /// The state after a hit on slot `s`.
    pub open spec fn touched(self, s: int) -> CacheView {
        CacheView {
            slots: self.slots.update(s, touched_slot(self.slots[s])),
            hits: self.hits + 1,
            ..self
        }
    }

    /// The state after `id` has been given slot `s`: every `decay_interval`
    /// insertions into a partition, the counters of its slots are halved.
    pub open spec fn inserted(self, id: ExpertId, s: int) -> CacheView {
        let p = self.partition_of(id);
        let slots = self.slots.update(s, claimed_slot(id));
        if self.inserts[p] + 1 >= self.decay_interval {
            CacheView {
                slots: Seq::new(
                    slots.len(),
                    |t: int| if self.in_partition(p, t) { aged_slot(slots[t]) } else { slots[t] },
                ),
                inserts: self.inserts.update(p, 0u32),
                misses: self.misses + 1,
                ..self
            }
        } else {
            CacheView {
                slots,
                inserts: self.inserts.update(p, (self.inserts[p] + 1) as u32),
                misses: self.misses + 1,
                ..self
            }
        }
    }

    /// What looking up `id` answers, and the state it leaves: a hit where a
    /// slot holds `id`, else a miss that gives it the victim's slot, else a
    /// stall where there is no victim.
    pub open spec fn answers(self, id: ExpertId, found: Lookup, after: CacheView) -> bool {
        match found {
            Lookup::Hit(slot) => {
                &&& self.holds(id, slot as int)
                &&& after == self.touched(slot as int)
            },
            Lookup::Miss { slot, evicted } => {
                &&& !self.resident(id)
                &&& slot < self.slots.len()
                &&& self.victim(id, slot as int)
                &&& evicted == self.slots[slot as int].id
                &&& after == self.inserted(id, slot as int)
            },
            Lookup::Stalled => {
                &&& !self.resident(id)
                &&& self.all_pinned(id)
                &&& after == self
            },
        }
    }

    /// The state with slot `s` replaced.
    pub open spec fn with_slot(self, s: int, slot: SlotState) -> CacheView {
        CacheView { slots: self.slots.update(s, slot), ..self }
    }

    /// One more hit on `id` can be counted, and one more pin on the slot that
    /// holds it.
    pub open spec fn pinnable(self, id: ExpertId) -> bool {
        &&& self.hits < u64::MAX
        &&& forall|s: int| #[trigger] self.holds(id, s) ==> self.slots[s].pins < u32::MAX
    }

    /// One more `acquire` of `id` can be counted, hit or miss.
    pub open spec fn countable(self, id: ExpertId) -> bool {
        self.pinnable(id) && self.misses < u64::MAX
    }

    /// Every slot that `id` may use is pinned and filled, so no fetch that is
    /// under way will free one.
    pub open spec fn wedged(self, id: ExpertId) -> bool {
        forall|t: int|
            #![trigger self.slots[t]]
            self.usable(id, t) ==> self.slots[t].pins > 0 && self.slots[t].ready
    }

    /// The shape every cache keeps: slots are evenly partitioned, an id sits
    /// in at most one slot, and only in a slot of its own partition.
    pub open spec fn wf(self) -> bool {
        &&& self.inserts.len() > 0
        &&& self.slots_per_partition > 0
        &&& self.decay_interval > 0
        &&& self.inserts.len() > 1 ==> self.ids_per_partition > 0
        &&& self.slots.len() == self.inserts.len() * self.slots_per_partition
        &&& self.slots.len() <= u32::MAX
        &&& forall|p: int|
            0 <= p < self.inserts.len() ==> #[trigger] self.inserts[p] < self.decay_interval
        &&& forall|id: ExpertId, s: int| #[trigger] self.holds(id, s) ==> self.usable(id, s)
        &&& forall|id: ExpertId, s: int, t: int|
            #[trigger] self.holds(id, s) && #[trigger] self.holds(id, t) ==> s == t
    }
}

impl CacheView {
    /// A state with the same shape and the same occupants is well formed too,
    /// and holds what it held.
    pub proof fn lemma_same_ids(self, after: CacheView)
        requires
            self.wf(),
            after.slots.len() == self.slots.len(),
            after.inserts == self.inserts,
            after.slots_per_partition == self.slots_per_partition,
            after.ids_per_partition == self.ids_per_partition,
            after.decay_interval == self.decay_interval,
            forall|t: int| 0 <= t < self.slots.len() ==> (#[trigger] after.slots[t]).id
                == self.slots[t].id,
        ensures
            after.wf(),
            forall|k: ExpertId, t: int| #[trigger] after.holds(k, t) <==> self.holds(k, t),
    {
        assert forall|k: ExpertId, t: int| #[trigger] after.holds(k, t) <==> self.holds(k, t) by {
            if 0 <= t < self.slots.len() {
                assert(after.slots[t].id == self.slots[t].id);
            }
        }
    }

    pub proof fn lemma_inserted(self, id: ExpertId, s: int)
        requires
            self.wf(),
            !self.resident(id),
            0 <= s < self.slots.len(),
            self.usable(id, s),
        ensures
            0 <= self.partition_of(id) < self.inserts.len(),
            self.inserted(id, s).wf(),
            forall|k: ExpertId| #[trigger]
                self.inserted(id, s).partition_of(k) == self.partition_of(k),
            forall|k: ExpertId, t: int| #[trigger]
                self.inserted(id, s).holds(k, t) <==> {
                    if t == s {
                        k == id
                    } else {
                        self.holds(k, t)
                    }
                },
    {
        let after = self.inserted(id, s);
        assert(0 <= self.partition_of(id) < self.inserts.len()) by {
            if self.inserts.len() > 1 {
                assert(0 <= id as int / self.ids_per_partition as int) by (nonlinear_arith)
                    requires
                        self.ids_per_partition > 0,
                ;
            }
        }
        assert forall|k: ExpertId, t: int| #[trigger] after.holds(k, t) <==> {
            if t == s {
                k == id
            } else {
                self.holds(k, t)
            }
        } by {
            if 0 <= t < self.slots.len() {
                assert(after.slots[t].id == self.slots.update(s, claimed_slot(id))[t].id);
            }
        }
        assert forall|k: ExpertId, t: int| #[trigger] after.holds(k, t) implies after.usable(
            k,
            t,
        ) by {
            if t != s {
                assert(self.holds(k, t));
            }
        }
        assert forall|k: ExpertId, t: int, u: int| #[trigger]
            after.holds(k, t) && #[trigger] after.holds(k, u) implies t == u by {
            if t == s && u != s {
                assert(self.holds(id, u));
            }
            if u == s && t != s {
                assert(self.holds(id, t));
            }
        }
    }
}

pub proof fn lemma_partition_bounds(parts: int, spp: int, p: int)
    requires
        0 <= p < parts,
        0 < spp,
    ensures
        0 <= p * spp < (p + 1) * spp <= parts * spp,
        (p + 1) * spp == p * spp + spp,
{
    assert((p + 1) * spp == p * spp + spp) by (nonlinear_arith);
    assert(0 <= p * spp) by (nonlinear_arith)
        requires
            0 <= p,
            0 < spp,
    ;
    assert((p + 1) * spp <= parts * spp) by (nonlinear_arith)
        requires
            p + 1 <= parts,
            0 < spp,
    ;
}

pub proof fn lemma_partitions_disjoint(spp: int, p: int, q: int, s: int)
    requires
        0 < spp,
        p * spp <= s < (p + 1) * spp,
        q * spp <= s < (q + 1) * spp,
    ensures
        p == q,
{
    if p < q {
        assert((p + 1) * spp <= q * spp) by (nonlinear_arith)
            requires
                p + 1 <= q,
                0 < spp,
        ;
    }
    if q < p {
        assert((q + 1) * spp <= p * spp) by (nonlinear_arith)
            requires
                q + 1 <= p,
                0 < spp,
        ;
    }
}

impl ExpertCache {
    pub closed spec fn view(self) -> CacheView {
        CacheView {
            slots: self.slots@,
            inserts: Seq::new(self.parts@.len(), |p: int| self.parts@[p].inserts_since_decay),
            slots_per_partition: self.parts@[0].len as nat,
            ids_per_partition: self.ids_per_partition as nat,
            decay_interval: self.decay_interval as nat,
            hits: self.hits as nat,
            misses: self.misses as nat,
        }
    }

    /// The cache is well formed, and each partition's map lists exactly the
    /// ids that its slots hold.
    pub closed spec fn wf(self) -> bool {
        &&& self@.wf()
        &&& forall|p: int|
            #![trigger self.parts@[p]]
            0 <= p < self.parts@.len() ==> {
                &&& self.parts@[p].base == p * self@.slots_per_partition
                &&& self.parts@[p].len == self@.slots_per_partition
            }
        &&& forall|p: int, id: ExpertId|
            #![trigger self.parts@[p].map@.contains_key(id)]
            0 <= p < self.parts@.len() && self.parts@[p].map@.contains_key(id) ==> {
                &&& self@.partition_of(id) == p
                &&& self@.holds(id, self.parts@[p].map@[id] as int)
            }
        &&& forall|id: ExpertId, s: int|
            #[trigger] self@.holds(id, s) ==> {
                let m = self.parts@[self@.partition_of(id)].map@;
                m.contains_key(id) && m[id] == s
            }
    }

    pub proof fn lemma_wf(self)
        requires
            self.wf(),
        ensures
            self@.wf(),
    {
    }

    /// One partition per layer, `slots_per_layer` slots each — the layout
    /// used by packs with a layer structure.
    pub fn new(num_layers: u16, slots_per_layer: u32, decay_interval: u32) -> (cache: Self)
        requires
            num_layers > 0,
            slots_per_layer > 0,
            decay_interval > 0,
            num_layers * slots_per_layer <= u32::MAX,
        ensures
            cache.wf(),
            cache@ == empty_cache(num_layers as nat, u32::MAX as nat, slots_per_layer as nat, decay_interval as nat),
    {
        Self::partitioned(num_layers as u32, u32::MAX, slots_per_layer, decay_interval)
    }

    /// `partitions` slot pools of `slots_per_partition` each, with ids folded
    /// as `id / ids_per_partition` to choose a pool. `partitions == 1` gives
    /// one global pool shared by every layer.
    pub fn partitioned(
        partitions: u32,
        ids_per_partition: u32,
        slots_per_partition: u32,
        decay_interval: u32,
    ) -> (cache: Self)
        requires
            partitions > 0,
            slots_per_partition > 0,
            decay_interval > 0,
            partitions * slots_per_partition <= u32::MAX,
            partitions > 1 ==> ids_per_partition > 0,
        ensures
            cache.wf(),
            cache@ == empty_cache(
                partitions as nat,
                ids_per_partition as nat,
                slots_per_partition as nat,
                decay_interval as nat,
            ),
    {
        broadcast use vstd::std_specs::hash::group_hash_axioms;

        let total: usize = partitions as usize * slots_per_partition as usize;
        let mut parts: Vec<Partition> = Vec::new();
        let mut p: u32 = 0;
        while p < partitions
            invariant
                0 <= p <= partitions,
                slots_per_partition > 0,
                partitions * slots_per_partition <= u32::MAX,
                parts@.len() == p,
                forall|q: int|
                    #![trigger parts@[q]]
                    0 <= q < p ==> {
                        &&& parts@[q].base == q * slots_per_partition
                        &&& parts@[q].len == slots_per_partition
                        &&& parts@[q].map@ == Map::<ExpertId, Slot>::empty()
                        &&& parts@[q].inserts_since_decay == 0
                    },
            decreases partitions - p,
        {
            proof {
                lemma_partition_bounds(partitions as int, slots_per_partition as int, p as int);
            }
            parts.push(
                Partition {
                    base: p * slots_per_partition,
                    len: slots_per_partition,
                    map: HashMap::new(),
                    inserts_since_decay: 0,
                },
            );
            p += 1;
        }
        let slots: Vec<SlotState> = vec![SlotState { id: None, freq: 0, pins: 0, ready: false }; total];
        let cache = Self { slots, parts, ids_per_partition, decay_interval, hits: 0, misses: 0 };
        proof {
            let want = empty_cache(
                partitions as nat,
                ids_per_partition as nat,
                slots_per_partition as nat,
                decay_interval as nat,
            );
            assert(cache@.slots =~= want.slots);
            assert(cache@.inserts =~= want.inserts);
        }
        cache
    }

    /// Fold a `(layer, expert)` pair into a flat id. `experts_per_layer` must
    /// match the `ids_per_partition` the cache was built with.
    pub fn fold(layer: Layer, expert: Expert, experts_per_layer: u32) -> (id: ExpertId)
        requires
            layer * experts_per_layer + expert <= u32::MAX,
        ensures
            id == folded(layer as nat, expert as nat, experts_per_layer as nat),
    {
        assert(0 <= layer * experts_per_layer) by (nonlinear_arith)
            requires
                0 <= layer,
                0 <= experts_per_layer,
        ;
        layer as u32 * experts_per_layer + expert as u32
    }

    /// Slots available to a single partition. With one partition per layer
    /// this is the per-layer cache size.
    pub fn slots_per_partition(&self) -> (n: u32)
        requires
            self.wf(),
        ensures
            n == self@.slots_per_partition,
    {
        self.parts[0].len
    }

    pub fn total_slots(&self) -> (n: u32)
        requires
            self.wf(),
        ensures
            n == self@.slots.len(),
    {
        self.slots.len() as u32
    }

    fn part_of(&self, id: ExpertId) -> (p: usize)
        requires
            self.wf(),
        ensures
            p == self@.partition_of(id),
            p < self.parts@.len(),
    {
        if self.parts.len() == 1 {
            return 0;
        }
        let p: usize = (id / self.ids_per_partition) as usize;
        if p < self.parts.len() {
            p
        } else {
            self.parts.len() - 1
        }
    }

    /// The unpinned slot of partition `p` that comes first in eviction order.
    fn find_victim(&self, p: usize, Ghost(id): Ghost<ExpertId>) -> (victim: Option<Slot>)
        requires
            self.wf(),
            p == self@.partition_of(id),
            p < self.parts@.len(),
        ensures
            match victim {
                Some(s) => s < self@.slots.len() && self@.victim(id, s as int),
                None => self@.all_pinned(id),
            },
    {
        proof {
            lemma_partition_bounds(
                self@.inserts.len() as int,
                self@.slots_per_partition as int,
                p as int,
            );
        }
        let base: u32 = self.parts[p].base;
        let end: u32 = base + self.parts[p].len;
        let mut victim: Option<Slot> = None;
        let mut freq: u32 = 0;
        let mut occupied: bool = false;
        let mut i: u32 = base;
        while i < end
            invariant
                base <= i <= end <= self@.slots.len(),
                self@.slots == self.slots@,
                forall|t: int| #[trigger] self@.in_partition(p as int, t) <==> base <= t < end,
                match victim {
                    Some(s) => {
                        &&& base <= s < i
                        &&& self@.slots[s as int].pins == 0
                        &&& freq == self@.slots[s as int].freq
                        &&& occupied == (self@.slots[s as int].id is Some)
                        &&& forall|t: int|
                            #![trigger self@.slots[t]]
                            base <= t < i && self@.slots[t].pins == 0 ==> {
                                ||| colder(self@.slots[s as int], self@.slots[t])
                                ||| (!colder(self@.slots[t], self@.slots[s as int]) && s <= t)
                            }
                    },
                    None => forall|t: int|
                        #![trigger self@.slots[t]]
                        base <= t < i ==> self@.slots[t].pins > 0,
                },
            decreases end - i,
        {
            let s: SlotState = self.slots[i as usize];
            if s.pins == 0 {
                let taken: bool = s.id.is_some();
                if victim.is_none() || s.freq < freq || (s.freq == freq && !taken && occupied) {
                    victim = Some(i);
                    freq = s.freq;
                    occupied = taken;
                }
            }
            i += 1;
        }
        proof {
            assert forall|t: int| #![trigger self@.slots[t]] self@.usable(id, t) implies base <= t
                < end by {
                assert(self@.in_partition(p as int, t));
            }
            if let Some(s) = victim {
                assert(self@.in_partition(p as int, s as int));
            }
        }
        victim
    }

    /// Look up `id`, pinning the returned slot.
    ///
    /// On `Hit` the slot may still be in flight (`publish` not yet called by
    /// the fetching party); callers coordinate readiness via their own fetch
    /// tracking, keyed by slot. On `Miss` the caller owns the fetch.
    pub fn acquire(&mut self, id: ExpertId) -> (found: Lookup)
        requires
            old(self).wf(),
            old(self)@.countable(id),
        ensures
            final(self).wf(),
            old(self)@.answers(id, found, final(self)@),
    {
        broadcast use vstd::std_specs::hash::group_hash_axioms;

        let p: usize = self.part_of(id);
        let ghost before = self@;
        let resident: Option<Slot> = match self.parts[p].map.get(&id) {
            Some(slot) => Some(*slot),
            None => None,
        };
        if let Some(slot) = resident {
            self.pin_slot(slot, Ghost(id));
            return Lookup::Hit(slot);
        }
        let slot: Slot = match self.find_victim(p, Ghost(id)) {
            Some(slot) => slot,
            None => {
                return Lookup::Stalled;
            },
        };
        proof {
            lemma_partition_bounds(
                before.inserts.len() as int,
                before.slots_per_partition as int,
                p as int,
            );
            assert(before.inserts[p as int] < before.decay_interval);
        }
        let evicted: Option<ExpertId> = self.slots[slot as usize].id;
        if let Some(old_id) = evicted {
            self.parts[p].map.remove(&old_id);
        }
        self.parts[p].map.insert(id, slot);
        self.slots[slot as usize] = SlotState { id: Some(id), freq: 1, pins: 1, ready: false };
        self.misses += 1;
        self.parts[p].inserts_since_decay += 1;
        if self.parts[p].inserts_since_decay >= self.decay_interval {
            self.parts[p].inserts_since_decay = 0;
            self.halve(p);
        }
        proof {
            let after = before.inserted(id, slot as int);
            before.lemma_inserted(id, slot as int);
            assert(self@.slots =~= after.slots);
            assert(self@.inserts =~= after.inserts);
            assert(self@ == after);
            self.lemma_maps_after_insert(*old(self), id, slot as int);
        }
        Lookup::Miss { slot, evicted }
    }

    /// Whether one more `acquire` of `id` can be counted.
    pub fn can_acquire(&self, id: ExpertId) -> (yes: bool)
        requires
            self.wf(),
        ensures
            yes == self@.countable(id),
    {
        broadcast use vstd::std_specs::hash::group_hash_axioms;

        let p: usize = self.part_of(id);
        if self.hits == u64::MAX || self.misses == u64::MAX {
            return false;
        }
        match self.parts[p].map.get(&id) {
            Some(slot) => {
                assert(self@.holds(id, *slot as int));
                self.slots[*slot as usize].pins < u32::MAX
            },
            None => true,
        }
    }

    /// Hit-only lookup: pin and return the slot if the expert is resident
    /// AND published; never inserts. Used by read-through tiers (e.g. the
    /// host-RAM expert cache) where a miss is handled out of band.
    pub fn lookup_ready(&mut self, id: ExpertId) -> (found: Option<Slot>)
        requires
            old(self).wf(),
            old(self)@.pinnable(id),
        ensures
            final(self).wf(),
            match found {
                Some(slot) => {
                    &&& old(self)@.holds(id, slot as int)
                    &&& old(self)@.slots[slot as int].ready
                    &&& final(self)@ == old(self)@.touched(slot as int)
                },
                None => {
                    &&& forall|s: int| #[trigger] old(self)@.holds(id, s) ==> !old(self)@.slots[s].ready
                    &&& final(self)@ == old(self)@
                },
            },
    {
        broadcast use vstd::std_specs::hash::group_hash_axioms;

        let p: usize = self.part_of(id);
        let slot: Slot = match self.parts[p].map.get(&id) {
            Some(slot) => *slot,
            None => {
                return None;
            },
        };
        assert(self@.holds(id, slot as int));
        if !self.slots[slot as usize].ready {
            return None;
        }
        self.pin_slot(slot, Ghost(id));
        Some(slot)
    }

    /// Mark a miss-filled slot as holding valid weights.
    pub fn publish(&mut self, slot: Slot)
        requires
            old(self).wf(),
            slot < old(self)@.slots.len(),
        ensures
            final(self).wf(),
            final(self)@ == old(self)@.with_slot(
                slot as int,
                (SlotState { ready: true, ..old(self)@.slots[slot as int] }),
            ),
    {
        let ghost before = self@;
        let s: SlotState = self.slots[slot as usize];
        self.slots[slot as usize] = SlotState { ready: true, ..s };
        proof {
            assert(self@.inserts =~= before.inserts);
            before.lemma_same_ids(self@);
        }
    }

    pub fn is_ready(&self, slot: Slot) -> (ready: bool)
        requires
            self.wf(),
            slot < self@.slots.len(),
        ensures
            ready == self@.slots[slot as int].ready,
    {
        self.slots[slot as usize].ready
    }

    /// How many pins hold `slot`.
    pub fn pins(&self, slot: Slot) -> (pins: u32)
        requires
            self.wf(),
            slot < self@.slots.len(),
        ensures
            pins == self@.slots[slot as int].pins,
    {
        self.slots[slot as usize].pins
    }

    /// Release one pin taken by `acquire`.
    pub fn release(&mut self, slot: Slot)
        requires
            old(self).wf(),
            slot < old(self)@.slots.len(),
            old(self)@.slots[slot as int].pins > 0,
        ensures
            final(self).wf(),
            final(self)@ == old(self)@.with_slot(
                slot as int,
                released_slot(old(self)@.slots[slot as int]),
            ),
    {
        let ghost before = self@;
        let s: SlotState = self.slots[slot as usize];
        self.slots[slot as usize] = SlotState { pins: s.pins - 1, ..s };
        proof {
            assert(self@.inserts =~= before.inserts);
            before.lemma_same_ids(self@);
        }
    }

    /// True when every slot the id could use is pinned *and* none of them is
    /// mid-fetch — nothing will free itself, so a waiter would wait forever.
    pub fn is_wedged(&self, id: ExpertId) -> (wedged: bool)
        requires
            self.wf(),
        ensures
            wedged == self@.wedged(id),
    {
        let p: usize = self.part_of(id);
        proof {
            lemma_partition_bounds(
                self@.inserts.len() as int,
                self@.slots_per_partition as int,
                p as int,
            );
        }
        let base: u32 = self.parts[p].base;
        let end: u32 = base + self.parts[p].len;
        let mut i: u32 = base;
        while i < end
            invariant
                base <= i <= end <= self@.slots.len(),
                self@.slots == self.slots@,
                p == self@.partition_of(id),
                base == p * self@.slots_per_partition,
                end == (p + 1) * self@.slots_per_partition,
                forall|t: int|
                    #![trigger self@.slots[t]]
                    base <= t < i ==> self@.slots[t].pins > 0 && self@.slots[t].ready,
            decreases end - i,
        {
            let s: SlotState = self.slots[i as usize];
            if s.pins == 0 || !s.ready {
                assert(self@.usable(id, i as int));
                return false;
            }
            i += 1;
        }
        true
    }

    /// Hits and misses so far.
    pub fn stats(&self) -> (counts: (u64, u64))
        ensures
            counts.0 == self@.hits,
            counts.1 == self@.misses,
    {
        (self.hits, self.misses)
    }

    /// Halves the counter of every slot of partition `p`.
    fn halve(&mut self, p: usize)
        requires
            p < old(self).parts@.len(),
            old(self).parts@[p as int].base + old(self).parts@[p as int].len
                <= old(self).slots@.len() <= u32::MAX,
        ensures
            final(self).parts == old(self).parts,
            final(self).ids_per_partition == old(self).ids_per_partition,
            final(self).decay_interval == old(self).decay_interval,
            final(self).hits == old(self).hits,
            final(self).misses == old(self).misses,
            final(self).slots@.len() == old(self).slots@.len(),
            forall|t: int|
                #![trigger final(self).slots@[t]]
                0 <= t < old(self).slots@.len() ==> final(self).slots@[t] == (if old(
                    self,
                ).parts@[p as int].base <= t < old(self).parts@[p as int].base + old(
                    self,
                ).parts@[p as int].len {
                    aged_slot(old(self).slots@[t])
                } else {
                    old(self).slots@[t]
                }),
    {
        let base: u32 = self.parts[p].base;
        let end: u32 = base + self.parts[p].len;
        let mut i: u32 = base;
        while i < end
            invariant
                base <= i <= end <= self.slots@.len(),
                self.parts == old(self).parts,
                self.ids_per_partition == old(self).ids_per_partition,
                self.decay_interval == old(self).decay_interval,
                self.hits == old(self).hits,
                self.misses == old(self).misses,
                self.slots@.len() == old(self).slots@.len(),
                forall|t: int|
                    #![trigger self.slots@[t]]
                    0 <= t < self.slots@.len() ==> self.slots@[t] == (if base <= t < i {
                        aged_slot(old(self).slots@[t])
                    } else {
                        old(self).slots@[t]
                    }),
            decreases end - i,
        {
            let s: SlotState = self.slots[i as usize];
            self.slots[i as usize] = SlotState { freq: s.freq / 2, ..s };
            i += 1;
        }
    }

    proof fn lemma_maps_after_insert(self, before: Self, id: ExpertId, s: int)
        requires
            before.wf(),
            !before@.resident(id),
            0 <= s < before@.slots.len(),
            before@.victim(id, s),
            self@ == before@.inserted(id, s),
            self.parts@.len() == before.parts@.len(),
            forall|q: int|
                #![trigger self.parts@[q]]
                0 <= q < self.parts@.len() ==> {
                    &&& self.parts@[q].base == before.parts@[q].base
                    &&& self.parts@[q].len == before.parts@[q].len
                    &&& self.parts@[q].map@ == (if q == before@.partition_of(id) {
                        match before@.slots[s].id {
                            Some(out) => before.parts@[q].map@.remove(out).insert(id, s as u32),
                            None => before.parts@[q].map@.insert(id, s as u32),
                        }
                    } else {
                        before.parts@[q].map@
                    })
                },
        ensures
            self.wf(),
    {
        let p = before@.partition_of(id);
        before@.lemma_inserted(id, s);
        assert forall|q: int, k: ExpertId|
            #![trigger self.parts@[q].map@.contains_key(k)]
            0 <= q < self.parts@.len() && self.parts@[q].map@.contains_key(k) implies {
            &&& self@.partition_of(k) == q
            &&& self@.holds(k, self.parts@[q].map@[k] as int)
        } by {
            if q == p && k == id {
                assert(self@.holds(id, s));
                assert(self@.partition_of(id) == p);
            } else {
                assert(before.parts@[q].map@.contains_key(k));
                let t = before.parts@[q].map@[k] as int;
                assert(before@.holds(k, t));
                if t == s {
                    lemma_partitions_disjoint(before@.slots_per_partition as int, p, q, s);
                }
                assert(self.parts@[q].map@[k] == t);
                assert(self@.holds(k, t));
                assert(self@.partition_of(k) == before@.partition_of(k));
            }
        }
        assert forall|k: ExpertId, t: int| #[trigger] self@.holds(k, t) implies {
            let m = self.parts@[self@.partition_of(k)].map@;
            m.contains_key(k) && m[k] == t
        } by {
            if t != s {
                assert(before@.holds(k, t));
                assert(before.parts@[before@.partition_of(k)].map@.contains_key(k));
                if before@.slots[s].id == Some(k) {
                    assert(before@.holds(k, s));
                }
            }
        }
    }

    /// Pins slot `slot` once more and counts a hit.
    fn pin_slot(&mut self, slot: Slot, Ghost(id): Ghost<ExpertId>)
        requires
            old(self).wf(),
            old(self)@.holds(id, slot as int),
            old(self)@.pinnable(id),
        ensures
            final(self).wf(),
            final(self)@ == old(self)@.touched(slot as int),
    {
        let ghost before = self@;
        let s: SlotState = self.slots[slot as usize];
        self.slots[slot as usize] = SlotState {
            freq: s.freq.saturating_add(1),
            pins: s.pins + 1,
            ..s
        };
        self.hits += 1;
        proof {
            assert(self@.inserts =~= before.inserts);
            assert(self@ == before.touched(slot as int));
            before.lemma_same_ids(self@);
        }
    }
}

/// The laws of the cache, over its states.
impl CacheView {
    /// A pinned slot keeps its expert, its pins and its readiness, whatever
    /// is inserted.
    pub proof fn law_pinned_slots_stay(self, id: ExpertId, s: int, t: int)
        requires
            self.wf(),
            0 <= s < self.slots.len(),
            0 <= t < self.slots.len(),
            self.victim(id, s),
            self.slots[t].pins > 0,
        ensures
            t != s,
            self.inserted(id, s).slots[t].id == self.slots[t].id,
            self.inserted(id, s).slots[t].pins == self.slots[t].pins,
            self.inserted(id, s).slots[t].ready == self.slots[t].ready,
    {
    }

    /// After a miss the expert sits in the slot it was given and nowhere
    /// else, pinned once and not ready; the expert that held the slot is
    /// gone, and every other expert is where it was.
    pub proof fn law_insert_replaces_one(self, id: ExpertId, s: int)
        requires
            self.wf(),
            !self.resident(id),
            0 <= s < self.slots.len(),
            self.victim(id, s),
        ensures
            self.inserted(id, s).wf(),
            self.inserted(id, s).slots[s].pins == 1,
            !self.inserted(id, s).slots[s].ready,
            forall|t: int| #[trigger] self.inserted(id, s).holds(id, t) <==> t == s,
            forall|k: ExpertId| #[trigger]
                self.holds(k, s) ==> !self.inserted(id, s).resident(k),
            forall|k: ExpertId, t: int|
                t != s ==> (#[trigger] self.inserted(id, s).holds(k, t) <==> self.holds(k, t)),
    {
        self.lemma_inserted(id, s);
        let after = self.inserted(id, s);
        assert forall|t: int| #[trigger] after.holds(id, t) <==> t == s by {
            if t != s && after.holds(id, t) {
                assert(self.holds(id, t));
            }
        }
        assert forall|k: ExpertId| #[trigger] self.holds(k, s) implies !after.resident(k) by {
            if after.resident(k) {
                let t = choose|t: int| after.holds(k, t);
                assert(after.holds(k, t));
                if t == s {
                    assert(k == id);
                    assert(self.resident(id));
                } else {
                    assert(self.holds(k, t) && self.holds(k, s));
                }
            }
        }
    }

    /// Partitions are independent: an insertion leaves the slots and the
    /// decay clock of every other partition alone.
    pub proof fn law_partitions_independent(self, id: ExpertId, s: int, q: int, t: int)
        requires
            self.wf(),
            0 <= s < self.slots.len(),
            self.usable(id, s),
            0 <= q < self.inserts.len(),
            q != self.partition_of(id),
            self.in_partition(q, t),
        ensures
            self.inserted(id, s).slots[t] == self.slots[t],
            self.inserted(id, s).inserts[q] == self.inserts[q],
    {
        let p = self.partition_of(id);
        lemma_partition_bounds(self.inserts.len() as int, self.slots_per_partition as int, q);
        if self.in_partition(p, t) {
            lemma_partitions_disjoint(self.slots_per_partition as int, p, q, t);
        }
    }

    /// With a single partition every id may use every slot.
    pub proof fn law_one_partition_shares_all(self, id: ExpertId, s: int)
        requires
            self.wf(),
            self.inserts.len() == 1,
            0 <= s < self.slots.len(),
        ensures
            self.usable(id, s),
    {
    }

    /// Releasing the pin that a hit took brings the slot back to the pins,
    /// the expert and the readiness it had.
    pub proof fn law_release_undoes_pin(self, id: ExpertId, s: int)
        requires
            self.wf(),
            self.holds(id, s),
            self.pinnable(id),
        ensures
            ({
                let after = released_slot(self.touched(s).slots[s]);
                &&& after.pins == self.slots[s].pins
                &&& after.id == self.slots[s].id
                &&& after.ready == self.slots[s].ready
            }),
    {
    }

    /// A wedged cache turns a non-resident id away for good: there is no slot
    /// to give it, and nothing that is under way will free one.
    pub proof fn law_wedged_has_no_victim(self, id: ExpertId)
        requires
            self.wf(),
            self.wedged(id),
        ensures
            self.all_pinned(id),
            forall|s: int| !self.victim(id, s),
    {
        assert forall|s: int| !self.victim(id, s) by {
            if self.victim(id, s) {
                assert(self.slots[s].pins == 0);
            }
        }
    }

    /// Experts of one layer use the slots of that layer's partition.
    pub proof fn law_fold_selects_layer(self, layer: nat, expert: nat, id: ExpertId)
        requires
            self.wf(),
            layer < self.inserts.len(),
            expert < self.ids_per_partition,
            id == folded(layer, expert, self.ids_per_partition),
        ensures
            self.partition_of(id) == layer,
    {
        vstd::arithmetic::div_mod::lemma_fundamental_div_mod_converse(
            id as int,
            self.ids_per_partition as int,
            layer as int,
            expert as int,
        );
    }
}

/// No two `(layer, expert)` pairs share a flat id.
pub proof fn law_fold_is_injective(l1: nat, e1: nat, l2: nat, e2: nat, experts_per_layer: nat)
    requires
        e1 < experts_per_layer,
        e2 < experts_per_layer,
        folded(l1, e1, experts_per_layer) == folded(l2, e2, experts_per_layer),
    ensures
        l1 == l2,
        e1 == e2,
{
    let id = folded(l1, e1, experts_per_layer) as int;
    let n = experts_per_layer as int;
    vstd::arithmetic::div_mod::lemma_fundamental_div_mod_converse(id, n, l1 as int, e1 as int);
    vstd::arithmetic::div_mod::lemma_fundamental_div_mod_converse(id, n, l2 as int, e2 as int);
}

/// A slot with one pin fewer.
pub open spec fn released_slot(s: SlotState) -> SlotState {
    SlotState { pins: (s.pins - 1) as u32, ..s }
}

/// The flat id of a `(layer, expert)` pair.
pub open spec fn folded(layer: nat, expert: nat, experts_per_layer: nat) -> nat {
    layer * experts_per_layer + expert
}

/// A cache with nothing in it.
pub open spec fn empty_cache(partitions: nat, ids: nat, slots: nat, decay: nat) -> CacheView {
    CacheView {
        slots: Seq::new(
            partitions * slots,
            |i: int| SlotState { id: None, freq: 0, pins: 0, ready: false },
        ),
        inserts: Seq::new(partitions, |i: int| 0u32),
        slots_per_partition: slots,
        ids_per_partition: ids,
        decay_interval: decay,
        hits: 0,
        misses: 0,
    }
}

} // verus!
