//! Expert pager: which slot an expert gets, what has to be fetched, and when a
//! slot may be read or given up.
//!
//! The pager's state sits behind one lock; an I/O worker pool performs the
//! fetches (O_DIRECT read → pinned staging → async copy to the device) and
//! reports back.
//! - A slot being fetched holds a cache pin, so it can't be evicted while in
//!   flight; the pin belongs to the requester, or is dropped when the fetch
//!   was a prefetch.
//! - A slot that holds an expert is either in flight or ready, and ready only
//!   after its fetch was reported done.

use crate::cache::{
    aged_slot, claimed_slot, empty_cache, folded, released_slot, CacheView, Expert, ExpertCache,
    ExpertId, Layer, Lookup, Slot, SlotState,
};
use crate::pack::PackReader;
use vstd::prelude::*;

verus! {

#[derive(Debug, Clone, Copy)]
pub struct PagerConfig {
    pub slots_per_layer: u32,
    pub io_threads: usize,
    /// Cache frequency counters halve every this many insertions per layer.
    pub decay_interval: u32,
    /// O_DIRECT reads (bypass the OS page cache). True is right when the
    /// pack exceeds host RAM; false lets the page cache act as a RAM tier —
    /// misses cost a memory copy instead of a disk read once warm.
    pub direct: bool,
    /// Managed host-RAM expert tier in bytes (0 disables). For packs far
    /// larger than RAM: frequency-aware admission/eviction at expert
    /// granularity; a hit costs a host memcpy instead of a disk read.
    pub ram_bytes: u64,
    /// VRAM to leave free for other processes on the card, in bytes (0
    /// disables). The expert arena is a *cache*, so it is the right thing
    /// to give up when a co-tenant needs room: `slots_per_layer` is clamped
    /// to whatever still leaves this much free.
    pub reserve_bytes: u64,
}

impl Default for PagerConfig {
    fn default() -> (cfg: Self)
        ensures
            cfg.slots_per_layer == 32,
            cfg.io_threads == 4,
            cfg.decay_interval == 256,
            cfg.direct,
            cfg.ram_bytes == 0,
            cfg.reserve_bytes == 0,
    {
        PagerConfig {
            slots_per_layer: 32,
            io_threads: 4,
            decay_interval: 256,
            direct: true,
            ram_bytes: 0,
            reserve_bytes: 0,
        }
    }
}

/// How many slots per layer fit into `free` bytes with `reserve` left over,
/// where one slot in every layer takes `per_slot` bytes.
pub open spec fn slots_that_fit(free: nat, reserve: nat, per_slot: nat) -> nat {
    (if free >= reserve { free - reserve } else { 0 }) as nat / (if per_slot > 0 {
        per_slot
    } else {
        1
    })
}

/// The number of slots per layer that leaves the reserve free: the configured
/// one where it fits or where there is no reserve, else as many as fit. `None`
/// where not even one does.
pub open spec fn clamped(slots: u32, reserve: u64, free: u64, per_slot: nat) -> Option<u32> {
    let fits = slots_that_fit(free as nat, reserve as nat, per_slot);
    if reserve == 0 || fits >= slots {
        Some(slots)
    } else if fits == 0 {
        None
    } else {
        Some(fits as u32)
    }
}

/// The number of slots per layer that leaves the reserve free, where a slot
/// takes `span` bytes in each of `layers` layers.
pub fn clamp_slots(slots: u32, reserve: u64, free: u64, layers: u16, span: u64) -> (n: Option<u32>)
    requires
        layers * span <= u64::MAX,
    ensures
        n == clamped(slots, reserve, free, (layers * span) as nat),
{
    if reserve == 0 {
        return Some(slots);
    }
    assert(0 <= layers * span) by (nonlinear_arith)
        requires
            0 <= layers,
            0 <= span,
    ;
    let per_slot: u64 = layers as u64 * span;
    let spare: u64 = free.saturating_sub(reserve);
    let fits: u64 = spare / if per_slot > 0 { per_slot } else { 1 };
    if fits < slots as u64 {
        if fits == 0 {
            return None;
        }
        return Some(fits as u32);
    }
    Some(slots)
}

/// A clamped cache has at least one slot per layer and no more than configured;
/// it has fewer only where the reserve takes them, and then leaves the reserve
/// free with no room for one more. It fails only where not even one fits.
pub proof fn law_reserve_is_left_free(slots: u32, reserve: u64, free: u64, per_slot: nat)
    requires
        slots > 0,
        per_slot > 0,
    ensures
        match clamped(slots, reserve, free, per_slot) {
            Some(n) => {
                &&& 1 <= n <= slots
                &&& reserve > 0 ==> n * per_slot + reserve <= free
                &&& n < slots ==> reserve > 0 && (n + 1) * per_slot + reserve > free
            },
            None => reserve > 0 && per_slot + reserve > free,
        },
{
    let fits = slots_that_fit(free as nat, reserve as nat, per_slot) as int;
    let spare = (if free >= reserve { free - reserve } else { 0 }) as int;
    let p = per_slot as int;
    vstd::arithmetic::div_mod::lemma_fundamental_div_mod(spare, p);
    assert(fits * p <= spare < (fits + 1) * p) by (nonlinear_arith)
        requires
            spare == p * fits + spare % p,
            0 <= spare % p < p,
    ;
    if let Some(n) = clamped(slots, reserve, free, per_slot) {
        if reserve > 0 {
            assert(n * p <= fits * p) by (nonlinear_arith)
                requires
                    n <= fits,
                    0 < p,
            ;
            assert(n * p >= p) by (nonlinear_arith)
                requires
                    1 <= n,
                    0 < p,
            ;
        }
    }
}

/// A pinned, resident (or in-flight) expert. Wait until it is filled before
/// reading `dev`, and release it when the forward pass is done with it.
#[derive(Debug, Clone, Copy)]
pub struct ExpertHandle {
    pub layer: u16,
    pub expert: u16,
    pub slot: u32,
    /// Device address of the expert's weights.
    pub dev: u64,
    /// Valid byte length (blob size, unpadded).
    pub len: u64,
}

/// How far a slot is filled.
#[derive(Debug, Clone, Copy, PartialEq, Eq, Structural)]
pub enum Fill {
    Empty,
    InFlight,
    Ready,
}

/// A fetch for an I/O worker.
#[derive(Debug, Clone, Copy, PartialEq, Eq, Structural)]
pub struct Job {
    pub layer: u16,
    pub expert: u16,
    pub slot: u32,
    pub release_after_fill: bool,
}

/// The answer to a request for one expert.
#[derive(Debug, Clone, Copy)]
pub enum Request {
    /// The expert has a slot, pinned for the caller.
    Held(ExpertHandle),
    /// The expert has a slot, pinned for the caller, and must be fetched into
    /// it.
    Fetch(ExpertHandle, Job),
    /// Every slot of the layer is pinned.
    Stalled,
}

/// The pager's state, mathematically.
pub struct PagerView {
    pub cache: CacheView,
    pub fill: Seq<Fill>,
}

impl PagerView {
    /// What every pager keeps: an empty slot holds nothing, a slot in flight
    /// is pinned and not yet ready, a filled slot is ready.
    pub open spec fn wf(self) -> bool {
        &&& self.cache.wf()
        &&& self.fill.len() == self.cache.slots.len()
        &&& forall|s: int|
            #![trigger self.fill[s]]
            0 <= s < self.fill.len() ==> slot_agrees(self.fill[s], self.cache.slots[s])
    }

    /// Some slot of the partition that `id` may use is in flight.
    pub open spec fn in_flight(self, id: ExpertId) -> bool {
        exists|s: int|
            #![trigger self.fill[s]]
            self.cache.usable(id, s) && self.fill[s] == Fill::InFlight
    }
}

/// A slot's fill state agrees with what the cache knows of it.
pub open spec fn slot_agrees(fill: Fill, s: SlotState) -> bool {
    match fill {
        Fill::Empty => s.id is None && !s.ready && s.pins == 0,
        Fill::InFlight => s.id is Some && !s.ready && s.pins > 0,
        Fill::Ready => s.id is Some && s.ready,
    }
}

/// The state behind the pager's lock.
#[derive(Debug)]
pub struct Pager {
    cache: ExpertCache,
    fill: Vec<Fill>,
    dev: Vec<u64>,
    index: PackReader,
}

/// Device addresses of the slots: one arena per layer, sliced into slots of
/// `span` bytes.
pub open spec fn slot_address(arenas: Seq<u64>, slots_per_layer: nat, span: nat, s: int) -> nat {
    arenas[s / slots_per_layer as int] as nat + (s % slots_per_layer as int) as nat * span
}

impl Pager {
    pub closed spec fn view(self) -> PagerView {
        PagerView { cache: self.cache@, fill: self.fill@ }
    }

    pub closed spec fn addresses(self) -> Seq<u64> {
        self.dev@
    }

    pub closed spec fn spec_index(self) -> PackReader {
        self.index
    }

    pub closed spec fn wf(self) -> bool {
        &&& self.cache.wf()
        &&& self@.wf()
        &&& self.dev@.len() == self.fill@.len()
        &&& self.index.wf()
        &&& self@.cache.inserts.len() == self.index.spec_meta().num_layers
        &&& self@.cache.ids_per_partition == self.index.spec_meta().experts_per_layer
    }

    pub proof fn lemma_wf(self)
        requires
            self.wf(),
        ensures
            self@.wf(),
    {
    }

    /// The expert exists.
    pub open spec fn has(self, layer: Layer, expert: Expert) -> bool {
        &&& layer < self.spec_index().spec_meta().num_layers
        &&& expert < self.spec_index().spec_meta().experts_per_layer
    }

    /// The flat id of an expert.
    pub open spec fn id_of(self, layer: Layer, expert: Expert) -> ExpertId {
        folded(
            layer as nat,
            expert as nat,
            self.spec_index().spec_meta().experts_per_layer as nat,
        ) as u32
    }

    /// The handle for an expert in `slot`.
    pub open spec fn handle_for(self, layer: Layer, expert: Expert, slot: Slot) -> ExpertHandle {
        ExpertHandle {
            layer,
            expert,
            slot,
            dev: self.addresses()[slot as int],
            len: self.spec_index().entries()[layer * self.spec_index().spec_meta().experts_per_layer
                + expert].nbytes,
        }
    }

    /// All but the cache and the fill states is as in `other`.
    pub open spec fn same_layout(self, other: Pager) -> bool {
        self.addresses() == other.addresses() && self.spec_index() == other.spec_index()
    }
}

impl PagerView {
    /// What a request for `id` answers, and the state it leaves. On a miss
    /// the slot is in flight.
    pub open spec fn requested(self, id: ExpertId, found: Lookup, after: PagerView) -> bool {
        &&& self.cache.answers(id, found, after.cache)
        &&& after.fill == (match found {
            Lookup::Miss { slot, evicted: _ } => self.fill.update(slot as int, Fill::InFlight),
            _ => self.fill,
        })
    }

    /// The state when a fetch into `slot` is done.
    pub open spec fn filled(self, slot: int, release: bool) -> PagerView {
        let s = SlotState { ready: true, ..self.cache.slots[slot] };
        PagerView {
            cache: self.cache.with_slot(
                slot,
                if release {
                    released_slot(s)
                } else {
                    s
                },
            ),
            fill: self.fill.update(slot, Fill::Ready),
        }
    }

    /// Whatever a request answers, the state stays in shape.
    pub proof fn lemma_requested_wf(self, id: ExpertId, found: Lookup, after: PagerView)
        requires
            self.wf(),
            self.requested(id, found, after),
            after.cache.wf(),
            self.cache.countable(id),
        ensures
            after.wf(),
    {
        assert forall|s: int|
            #![trigger after.fill[s]]
            0 <= s < after.fill.len() implies slot_agrees(after.fill[s], after.cache.slots[s]) by {
            assert(slot_agrees(self.fill[s], self.cache.slots[s]));
            match found {
                Lookup::Hit(slot) => {},
                Lookup::Miss { slot, evicted } => {
                    let claimed = self.cache.slots.update(slot as int, claimed_slot(id));
                    let t = after.cache.slots[s];
                    assert(t == claimed[s] || t == aged_slot(claimed[s]));
                },
                Lookup::Stalled => {},
            }
        }
    }

    /// A slot in flight is never given to another expert.
    pub proof fn law_in_flight_is_not_evicted(self, id: ExpertId, found: Lookup, after: PagerView, s: int)
        requires
            self.wf(),
            self.requested(id, found, after),
            self.cache.countable(id),
            0 <= s < self.fill.len(),
            self.fill[s] == Fill::InFlight,
        ensures
            after.fill[s] == Fill::InFlight,
            after.cache.slots[s].id == self.cache.slots[s].id,
            after.cache.slots[s].pins >= self.cache.slots[s].pins,
            found matches Lookup::Miss { slot, evicted: _ } ==> slot != s,
    {
        assert(slot_agrees(self.fill[s], self.cache.slots[s]));
        match found {
            Lookup::Miss { slot, evicted } => {
                self.cache.law_pinned_slots_stay(id, slot as int, s);
            },
            _ => {},
        }
    }

    /// What a request hands out is pinned, and holds the expert that was asked
    /// for.
    pub proof fn law_requested_is_held(self, id: ExpertId, found: Lookup, after: PagerView)
        requires
            self.wf(),
            self.requested(id, found, after),
            self.cache.countable(id),
        ensures
            match found {
                Lookup::Hit(slot) => {
                    &&& after.cache.holds(id, slot as int)
                    &&& after.cache.slots[slot as int].pins > 0
                    &&& after.fill[slot as int] != Fill::Empty
                },
                Lookup::Miss { slot, evicted: _ } => {
                    &&& after.cache.holds(id, slot as int)
                    &&& after.cache.slots[slot as int].pins == 1
                    &&& after.fill[slot as int] == Fill::InFlight
                },
                Lookup::Stalled => after == self,
            },
    {
        match found {
            Lookup::Hit(slot) => {
                assert(slot_agrees(self.fill[slot as int], self.cache.slots[slot as int]));
                assert(self.cache.slots[slot as int].pins < u32::MAX);
            },
            Lookup::Miss { slot, evicted } => {
                self.cache.law_insert_replaces_one(id, slot as int);
            },
            Lookup::Stalled => {
                assert(after.fill =~= self.fill);
            },
        }
    }

    /// A stall with nothing in flight is a deadlock: every slot that the
    /// expert could use is pinned and filled, so nothing that is under way
    /// will ever free one.
    pub proof fn law_stall_without_flight_is_wedged(self, id: ExpertId)
        requires
            self.wf(),
            self.cache.all_pinned(id),
            !self.in_flight(id),
            forall|s: int| self.cache.usable(id, s) ==> 0 <= s < self.fill.len(),
        ensures
            self.cache.wedged(id),
    {
        assert forall|t: int| #![trigger self.cache.slots[t]] self.cache.usable(id, t) implies {
            &&& self.cache.slots[t].pins > 0
            &&& self.cache.slots[t].ready
        } by {
            assert(slot_agrees(self.fill[t], self.cache.slots[t]));
            assert(self.fill[t] != Fill::InFlight);
        }
    }
}

impl Pager {
    proof fn lemma_id(self, layer: Layer, expert: Expert)
        requires
            self.has(layer, expert),
        ensures
            layer * self.spec_index().spec_meta().experts_per_layer + expert <= u32::MAX,
            layer * self.spec_index().spec_meta().experts_per_layer + expert
                < self.spec_index().spec_meta().spec_total(),
    {
        let e = self.spec_index().spec_meta().experts_per_layer as int;
        let n = self.spec_index().spec_meta().num_layers as int;
        assert(layer * e + e <= n * e <= 0xffff * 0xffff) by (nonlinear_arith)
            requires
                0 <= layer,
                layer + 1 <= n <= 0xffff,
                0 <= e <= 0xffff,
        ;
    }

    /// A pager over a pack: `slots_per_layer` slots for each layer, in one
    /// arena per layer. `None` where the arenas lie beyond any address.
    pub fn new(
        index: PackReader,
        slots_per_layer: u32,
        decay_interval: u32,
        span: u64,
        arenas: &Vec<u64>,
    ) -> (pager: Option<Self>)
        requires
            index.wf(),
            index.spec_meta().num_layers > 0,
            index.spec_meta().experts_per_layer > 0,
            slots_per_layer > 0,
            decay_interval > 0,
            index.spec_meta().num_layers * slots_per_layer <= u32::MAX,
            arenas@.len() == index.spec_meta().num_layers,
        ensures
            match pager {
                Some(pager) => {
                    &&& pager.wf()
                    &&& pager.spec_index() == index
                    &&& pager@.cache == empty_cache(
                        index.spec_meta().num_layers as nat,
                        index.spec_meta().experts_per_layer as nat,
                        slots_per_layer as nat,
                        decay_interval as nat,
                    )
                    &&& pager@.fill == Seq::new(
                        (index.spec_meta().num_layers * slots_per_layer) as nat,
                        |i: int| Fill::Empty,
                    )
                    &&& forall|s: int|
                        0 <= s < pager.addresses().len() ==> #[trigger] pager.addresses()[s]
                            == slot_address(arenas@, slots_per_layer as nat, span as nat, s)
                },
                None => exists|s: int|
                    0 <= s < index.spec_meta().num_layers * slots_per_layer
                        && #[trigger] slot_address(arenas@, slots_per_layer as nat, span as nat, s)
                        > u64::MAX,
            },
    {
        let layers: u16 = index.meta().num_layers;
        let experts: u16 = index.meta().experts_per_layer;
        let cache = ExpertCache::partitioned(
            layers as u32,
            experts as u32,
            slots_per_layer,
            decay_interval,
        );
        let mut dev: Vec<u64> = Vec::new();
        let mut fill: Vec<Fill> = Vec::new();
        let mut l: u16 = 0;
        while l < layers
            invariant
                l <= layers,
                slots_per_layer > 0,
                arenas@.len() == layers,
                layers * slots_per_layer <= u32::MAX,
                dev@.len() == l * slots_per_layer,
                fill@.len() == l * slots_per_layer,
                forall|i: int| 0 <= i < fill@.len() ==> #[trigger] fill@[i] == Fill::Empty,
                forall|s: int|
                    0 <= s < dev@.len() ==> #[trigger] dev@[s] == slot_address(
                        arenas@,
                        slots_per_layer as nat,
                        span as nat,
                        s,
                    ),
                layers == index.spec_meta().num_layers,
            decreases layers - l,
        {
            let base: u64 = arenas[l as usize];
            assert((l + 1) * slots_per_layer == l * slots_per_layer + slots_per_layer)
                by (nonlinear_arith);
            assert((l + 1) * slots_per_layer <= layers * slots_per_layer) by (nonlinear_arith)
                requires
                    l + 1 <= layers,
                    slots_per_layer > 0,
            ;
            let mut s: u32 = 0;
            while s < slots_per_layer
                invariant
                    s <= slots_per_layer,
                    slots_per_layer > 0,
                    l < layers,
                    arenas@.len() == layers,
                    base == arenas@[l as int],
                    (l + 1) * slots_per_layer == l * slots_per_layer + slots_per_layer,
                    (l + 1) * slots_per_layer <= layers * slots_per_layer,
                    dev@.len() == l * slots_per_layer + s,
                    fill@.len() == l * slots_per_layer + s,
                    forall|i: int| 0 <= i < fill@.len() ==> #[trigger] fill@[i] == Fill::Empty,
                    forall|s: int|
                        0 <= s < dev@.len() ==> #[trigger] dev@[s] == slot_address(
                            arenas@,
                            slots_per_layer as nat,
                            span as nat,
                            s,
                        ),
                    layers == index.spec_meta().num_layers,
                decreases slots_per_layer - s,
            {
                let ghost at = l * slots_per_layer + s;
                proof {
                    vstd::arithmetic::div_mod::lemma_fundamental_div_mod_converse(
                        at,
                        slots_per_layer as int,
                        l as int,
                        s as int,
                    );
                    assert(slot_address(arenas@, slots_per_layer as nat, span as nat, at) == base
                        + s * span);
                }
                let offset: u64 = match (s as u64).checked_mul(span) {
                    Some(offset) => offset,
                    None => {
                        return None;
                    },
                };
                let addr: u64 = match base.checked_add(offset) {
                    Some(addr) => addr,
                    None => {
                        return None;
                    },
                };
                dev.push(addr);
                fill.push(Fill::Empty);
                s += 1;
            }
            l += 1;
        }
        let pager = Pager { cache, fill, dev, index };
        proof {
            assert(pager@.fill =~= Seq::new(
                (layers * slots_per_layer) as nat,
                |i: int| Fill::Empty,
            ));
            pager.cache.lemma_wf();
        }
        Some(pager)
    }

    pub fn slots_per_layer(&self) -> (n: u32)
        requires
            self.wf(),
        ensures
            n == self@.cache.slots_per_partition,
    {
        self.cache.slots_per_partition()
    }

    /// Whether a forward pass may ask for this many experts of a layer at
    /// once: each needs a slot of its own.
    pub fn fits(&self, experts: usize) -> (yes: bool)
        requires
            self.wf(),
        ensures
            yes == (experts <= self@.cache.slots_per_partition),
    {
        experts as u64 <= self.cache.slots_per_partition() as u64
    }

    /// Whether one more request for the expert can be counted.
    pub fn can_request(&self, layer: Layer, expert: Expert) -> (yes: bool)
        requires
            self.wf(),
            self.has(layer, expert),
        ensures
            yes == self@.cache.countable(self.id_of(layer, expert)),
    {
        proof {
            self.lemma_id(layer, expert);
        }
        let id: ExpertId = ExpertCache::fold(
            layer,
            expert,
            self.index.meta().experts_per_layer as u32,
        );
        self.cache.can_acquire(id)
    }

    fn handle(&self, layer: Layer, expert: Expert, slot: Slot) -> (h: ExpertHandle)
        requires
            self.wf(),
            self.has(layer, expert),
            slot < self@.fill.len(),
        ensures
            h == self.handle_for(layer, expert, slot),
    {
        proof {
            self.lemma_id(layer, expert);
        }
        ExpertHandle {
            layer,
            expert,
            slot,
            dev: self.dev[slot as usize],
            len: self.index.entry(layer, expert).nbytes,
        }
    }

    fn look_up(&mut self, layer: Layer, expert: Expert) -> (found: Lookup)
        requires
            old(self).wf(),
            old(self).has(layer, expert),
            old(self)@.cache.countable(old(self).id_of(layer, expert)),
        ensures
            final(self).wf(),
            final(self).same_layout(*old(self)),
            old(self)@.requested(old(self).id_of(layer, expert), found, final(self)@),
    {
        let ghost v = self@;
        proof {
            self.lemma_id(layer, expert);
            self.cache.lemma_wf();
        }
        let id: ExpertId = ExpertCache::fold(
            layer,
            expert,
            self.index.meta().experts_per_layer as u32,
        );
        let found: Lookup = self.cache.acquire(id);
        if let Lookup::Miss { slot, evicted: _ } = found {
            self.fill.set(slot as usize, Fill::InFlight);
        }
        proof {
            self.cache.lemma_wf();
            assert(v.requested(id, found, self@));
            v.lemma_requested_wf(id, found, self@);
        }
        found
    }

    /// Asks for a pinned handle on one expert; a miss comes with the fetch
    /// that has to be dispatched. A stall leaves everything as it was: every
    /// slot of the layer is pinned.
    pub fn request(&mut self, layer: Layer, expert: Expert) -> (r: Request)
        requires
            old(self).wf(),
            old(self).has(layer, expert),
            old(self)@.cache.countable(old(self).id_of(layer, expert)),
        ensures
            final(self).wf(),
            final(self).same_layout(*old(self)),
            match r {
                Request::Held(h) => {
                    &&& h == old(self).handle_for(layer, expert, h.slot)
                    &&& old(self)@.requested(
                        old(self).id_of(layer, expert),
                        Lookup::Hit(h.slot),
                        final(self)@,
                    )
                },
                Request::Fetch(h, job) => {
                    &&& h == old(self).handle_for(layer, expert, h.slot)
                    &&& job == (Job { layer, expert, slot: h.slot, release_after_fill: false })
                    &&& old(self)@.requested(
                        old(self).id_of(layer, expert),
                        Lookup::Miss {
                            slot: h.slot,
                            evicted: old(self)@.cache.slots[h.slot as int].id,
                        },
                        final(self)@,
                    )
                },
                Request::Stalled => old(self)@.requested(
                    old(self).id_of(layer, expert),
                    Lookup::Stalled,
                    final(self)@,
                ),
            },
    {
        match self.look_up(layer, expert) {
            Lookup::Hit(slot) => Request::Held(self.handle(layer, expert, slot)),
            Lookup::Miss { slot, evicted: _ } => Request::Fetch(
                self.handle(layer, expert, slot),
                Job { layer, expert, slot, release_after_fill: false },
            ),
            Lookup::Stalled => Request::Stalled,
        }
    }

    /// Best-effort: warm the cache for a future layer. Skips experts that are
    /// resident and those whose layer is fully pinned. The fetch's pin is
    /// dropped after the fill, so prefetched experts are evictable again.
    pub fn prefetch(&mut self, layer: Layer, expert: Expert) -> (job: Option<Job>)
        requires
            old(self).wf(),
            old(self).has(layer, expert),
            old(self)@.cache.countable(old(self).id_of(layer, expert)),
        ensures
            final(self).wf(),
            final(self).same_layout(*old(self)),
            ({
                let id = old(self).id_of(layer, expert);
                let v = old(self)@.cache;
                match job {
                    Some(job) => {
                        &&& job.layer == layer
                        &&& job.expert == expert
                        &&& job.release_after_fill
                        &&& old(self)@.requested(
                            id,
                            Lookup::Miss {
                                slot: job.slot,
                                evicted: v.slots[job.slot as int].id,
                            },
                            final(self)@,
                        )
                    },
                    None => {
                        ||| exists|s: int| #[trigger]
                            v.holds(id, s) && final(self)@ == (PagerView {
                                cache: v.touched(s).with_slot(
                                    s,
                                    released_slot(v.touched(s).slots[s]),
                                ),
                                ..old(self)@
                            })
                        ||| old(self)@.requested(id, Lookup::Stalled, final(self)@)
                    },
                }
            }),
    {
        let ghost v = self@;
        match self.look_up(layer, expert) {
            Lookup::Hit(slot) => {
                let ghost w = self@;
                proof {
                    assert(v.cache.holds(self.id_of(layer, expert), slot as int));
                    assert(slot_agrees(v.fill[slot as int], v.cache.slots[slot as int]));
                    assert(v.cache.slots[slot as int].pins < u32::MAX);
                }
                self.cache.release(slot);
                proof {
                    self.cache.lemma_wf();
                    assert forall|s: int|
                        #![trigger self@.fill[s]]
                        0 <= s < self@.fill.len() implies slot_agrees(
                        self@.fill[s],
                        self@.cache.slots[s],
                    ) by {
                        assert(slot_agrees(v.fill[s], v.cache.slots[s]));
                    }
                }
                None
            },
            Lookup::Miss { slot, evicted: _ } => Some(
                Job { layer, expert, slot, release_after_fill: true },
            ),
            Lookup::Stalled => None,
        }
    }

    /// Whether a stall on the layer will never end: nothing of it is in
    /// flight, so no pin will be dropped but by a caller.
    pub fn is_deadlocked(&self, layer: Layer, expert: Expert) -> (yes: bool)
        requires
            self.wf(),
            self.has(layer, expert),
        ensures
            yes == !self@.in_flight(self.id_of(layer, expert)),
    {
        let ghost id = self.id_of(layer, expert);
        let n: u32 = self.cache.slots_per_partition();
        proof {
            self.lemma_id(layer, expert);
            self.cache.lemma_wf();
            self@.cache.law_fold_selects_layer(layer as nat, expert as nat, id);
            assert((layer + 1) * n == layer * n + n) by (nonlinear_arith);
            assert((layer + 1) * n <= self@.cache.inserts.len() * n) by (nonlinear_arith)
                requires
                    layer + 1 <= self@.cache.inserts.len(),
                    n >= 0,
            ;
            assert(0 <= layer * n) by (nonlinear_arith)
                requires
                    0 <= layer,
                    0 <= n,
            ;
        }
        let base: u32 = layer as u32 * n;
        let mut i: u32 = 0;
        while i < n
            invariant
                i <= n,
                self.wf(),
                id == self.id_of(layer, expert),
                n == self@.cache.slots_per_partition,
                base == layer * n,
                base + n == (layer + 1) * n,
                base + n <= self@.fill.len() <= u32::MAX,
                self@.cache.partition_of(id) == layer,
                forall|s: int|
                    #![trigger self@.fill[s]]
                    base <= s < base + i ==> self@.fill[s] != Fill::InFlight,
            decreases n - i,
        {
            if self.fill[(base + i) as usize] == Fill::InFlight {
                assert(self@.fill[base + i] == Fill::InFlight);
                assert(self@.cache.usable(id, base + i));
                return false;
            }
            i += 1;
        }
        true
    }

    /// A fetch is done: its slot holds valid weights, and a prefetch drops its
    /// pin.
    pub fn filled(&mut self, job: &Job)
        requires
            old(self).wf(),
            job.slot < old(self)@.fill.len(),
            old(self)@.fill[job.slot as int] == Fill::InFlight,
        ensures
            final(self).wf(),
            final(self).same_layout(*old(self)),
            final(self)@ == old(self)@.filled(job.slot as int, job.release_after_fill),
    {
        let ghost v = self@;
        assert(slot_agrees(v.fill[job.slot as int], v.cache.slots[job.slot as int]));
        self.fill.set(job.slot as usize, Fill::Ready);
        self.cache.publish(job.slot);
        if job.release_after_fill {
            self.cache.release(job.slot);
        }
        proof {
            self.cache.lemma_wf();
            assert(self@.cache.slots =~= v.filled(
                job.slot as int,
                job.release_after_fill,
            ).cache.slots);
            assert forall|s: int|
                #![trigger self@.fill[s]]
                0 <= s < self@.fill.len() implies slot_agrees(
                self@.fill[s],
                self@.cache.slots[s],
            ) by {
                assert(slot_agrees(v.fill[s], v.cache.slots[s]));
            }
        }
    }

    /// How far `slot` is filled.
    pub fn fill_of(&self, slot: Slot) -> (fill: Fill)
        requires
            self.wf(),
            slot < self@.fill.len(),
        ensures
            fill == self@.fill[slot as int],
    {
        self.fill[slot as usize]
    }

    /// Whether a handle on `slot` may be released: it holds a pin, and not the
    /// one that keeps a fetch's slot.
    pub fn can_release(&self, slot: Slot) -> (yes: bool)
        requires
            self.wf(),
        ensures
            yes == self@.releasable(slot as int),
    {
        if slot >= self.cache.total_slots() {
            return false;
        }
        let pins: u32 = self.cache.pins(slot);
        pins > 0 && (self.fill[slot as usize] != Fill::InFlight || pins > 1)
    }

    /// Gives one pin on `slot` back.
    pub fn release(&mut self, slot: Slot)
        requires
            old(self).wf(),
            old(self)@.releasable(slot as int),
        ensures
            final(self).wf(),
            final(self).same_layout(*old(self)),
            final(self)@ == (PagerView {
                cache: old(self)@.cache.with_slot(
                    slot as int,
                    released_slot(old(self)@.cache.slots[slot as int]),
                ),
                ..old(self)@
            }),
    {
        let ghost v = self@;
        self.cache.release(slot);
        proof {
            self.cache.lemma_wf();
            assert forall|s: int|
                #![trigger self@.fill[s]]
                0 <= s < self@.fill.len() implies slot_agrees(
                self@.fill[s],
                self@.cache.slots[s],
            ) by {
                assert(slot_agrees(v.fill[s], v.cache.slots[s]));
            }
        }
    }

    /// Hits and misses so far.
    pub fn stats(&self) -> (counts: (u64, u64))
        ensures
            counts.0 == self@.cache.hits,
            counts.1 == self@.cache.misses,
    {
        self.cache.stats()
    }

    /// The pack that the experts come from.
    pub fn index(&self) -> (index: &PackReader)
        ensures
            *index == self.spec_index(),
    {
        &self.index
    }
}

impl PagerView {
    /// A pin on `slot` may be given back: there is one, and not the one that
    /// keeps a fetch's slot.
    pub open spec fn releasable(self, slot: int) -> bool {
        &&& 0 <= slot < self.fill.len()
        &&& self.cache.slots[slot].pins > 0
        &&& self.fill[slot] == Fill::InFlight ==> self.cache.slots[slot].pins > 1
    }
}

} // verus!
