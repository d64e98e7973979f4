//! Deferred expert-handle release: handles stay pinned until the compute
//! stream passes a recorded event, so no per-layer sync is needed. The event
//! ring is small; when it is full, the oldest entry has to be waited for.

use crate::pager::ExpertHandle;
use vstd::prelude::*;

verus! {

/// Handles that wait for their event, oldest first.
#[derive(Debug)]
pub struct ReleaseRing {
    depth: usize,
    pending: Vec<(usize, Vec<ExpertHandle>)>,
    next: usize,
}

impl ReleaseRing {
    /// The waiting handles with the event each waits for, oldest first.
    pub closed spec fn view(self) -> Seq<(int, Seq<ExpertHandle>)> {
        Seq::new(
            self.pending@.len(),
            |i: int| (self.pending@[i].0 as int, self.pending@[i].1@),
        )
    }

    /// How many events there are.
    pub closed spec fn spec_depth(self) -> nat {
        self.depth as nat
    }

    /// The event that the next handles will wait for.
    pub closed spec fn spec_next(self) -> int {
        self.next as int
    }

    /// Events are used in turn: those waited for end right before the next.
    pub open spec fn wf(self) -> bool {
        &&& 0 < self.spec_depth()
        &&& 0 <= self.spec_next() < self.spec_depth()
        &&& self@.len() <= self.spec_depth()
        &&& forall|i: int|
            0 <= i < self@.len() ==> (#[trigger] self@[i]).0 == (self.spec_next() + self.spec_depth()
                - self@.len() + i) % self.spec_depth() as int
    }

    /// An empty ring over `depth` events.
    pub fn new(depth: usize) -> (ring: Self)
        requires
            0 < depth,
        ensures
            ring.wf(),
            ring.spec_depth() == depth,
            ring.spec_next() == 0,
            ring@.len() == 0,
    {
        ReleaseRing { depth, pending: Vec::new(), next: 0 }
    }

    /// The event that the oldest handles wait for.
    pub fn oldest(&self) -> (event: Option<usize>)
        ensures
            match event {
                Some(e) => self@.len() > 0 && e == self@[0].0,
                None => self@.len() == 0,
            },
    {
        if self.pending.len() == 0 {
            None
        } else {
            Some(self.pending[0].0)
        }
    }

    /// Whether every event is waited for.
    pub fn is_full(&self) -> (full: bool)
        ensures
            full == (self@.len() == self.spec_depth()),
    {
        self.pending.len() == self.depth
    }

    /// Takes the oldest handles out; their event must have passed.
    pub fn pop(&mut self) -> (handles: Vec<ExpertHandle>)
        requires
            old(self).wf(),
            old(self)@.len() > 0,
        ensures
            final(self).wf(),
            final(self).spec_depth() == old(self).spec_depth(),
            final(self).spec_next() == old(self).spec_next(),
            handles@ == old(self)@[0].1,
            final(self)@ == old(self)@.skip(1),
    {
        let ghost before = self@;
        let (_, handles) = self.pending.remove(0);
        proof {
            assert(self@ =~= before.skip(1));
            assert forall|i: int| 0 <= i < self@.len() implies (#[trigger] self@[i]).0 == (
            self.spec_next() + self.spec_depth() - self@.len() + i) % self.spec_depth() as int by {
                assert(self@[i] == before[i + 1]);
            }
        }
        handles
    }

    /// Queues handles until the event that is handed back has passed; record
    /// it behind the last use of the handles.
    pub fn push(&mut self, handles: Vec<ExpertHandle>) -> (event: usize)
        requires
            old(self).wf(),
            old(self)@.len() < old(self).spec_depth(),
        ensures
            final(self).wf(),
            final(self).spec_depth() == old(self).spec_depth(),
            event == old(self).spec_next(),
            event < old(self).spec_depth(),
            final(self).spec_next() == (if event + 1 == old(self).spec_depth() {
                0
            } else {
                event + 1
            }),
            final(self)@ == old(self)@.push((event as int, handles@)),
    {
        let ghost before = self@;
        let event: usize = self.next;
        self.next = if event + 1 == self.depth {
            0
        } else {
            event + 1
        };
        self.pending.push((event, handles));
        proof {
            assert(self@ =~= before.push((event as int, handles@)));
            let d = self.depth as int;
            let n = before.len() as int;
            assert forall|i: int| 0 <= i < self@.len() implies (#[trigger] self@[i]).0 == (
            self.spec_next() + self.spec_depth() - self@.len() + i) % self.spec_depth() as int by {
                let wrapped = event + 1 == d;
                if i < n {
                    assert(self@[i] == before[i]);
                    if wrapped {
                        assert(self.next == 0);
                        let x = d - (n + 1) + i;
                        assert(event + d - n + i == x + d);
                        vstd::arithmetic::div_mod::lemma_mod_add_multiples_vanish(x, d);
                    } else {
                        assert(self.next == event + 1);
                    }
                } else {
                    if wrapped {
                        assert(self.next == 0);
                        vstd::arithmetic::div_mod::lemma_small_mod((d - 1) as nat, d as nat);
                    } else {
                        vstd::arithmetic::div_mod::lemma_mod_add_multiples_vanish(
                            event as int,
                            d,
                        );
                        vstd::arithmetic::div_mod::lemma_small_mod(event as nat, d as nat);
                        assert(self.next + d - (n + 1) + i == event + d);
                    }
                }
            }
        }
        event
    }
}

/// An event is never recorded again while handles still wait for it.
pub proof fn law_event_is_free(ring: ReleaseRing, i: int)
    requires
        ring.wf(),
        ring@.len() < ring.spec_depth(),
        0 <= i < ring@.len(),
    ensures
        ring@[i].0 != ring.spec_next(),
{
    let d = ring.spec_depth() as int;
    let n = ring.spec_next();
    let k = d - ring@.len() + i;
    assert(ring@[i].0 == (n + k) % d);
    if n + k < d {
        vstd::arithmetic::div_mod::lemma_small_mod((n + k) as nat, d as nat);
    } else {
        vstd::arithmetic::div_mod::lemma_mod_add_multiples_vanish(n + k - d, d);
        vstd::arithmetic::div_mod::lemma_small_mod((n + k - d) as nat, d as nat);
    }
}

} // verus!
