//! Who has a sequence slot is there: while every copy of an acquisition
//! succeeds, the owner of a slot is a session that is resident in it. So an
//! acquisition always finds a slot to free.

use crate::session::{
    acquired, displaced, dropped, first_free, lemma_opened_wf, settled, took_over, trimmed, AcquireStep,
    SessionView, StoreView, Waiting,
};
use vstd::prelude::*;

verus! {

/// The owner of slot `i + 1`, if it has one, is a session that is resident in
/// it.
pub open spec fn seated(v: StoreView, i: int) -> bool {
    v.owner[i] matches Some(id) ==> {
        &&& v.sessions.contains_key(id)
        &&& v.sessions[id].slot matches Some(s)
        &&& s == i + 1
    }
}

/// The owner of every slot is resident in it.
pub open spec fn owners_resident(v: StoreView) -> bool {
    forall|i: int| 0 <= i < v.owner.len() ==> #[trigger] seated(v, i)
}

/// The same of every slot but `slot`, which a session is about to move into.
pub open spec fn others_resident(v: StoreView, slot: usize) -> bool {
    forall|i: int| 0 <= i < v.owner.len() && i + 1 != slot ==> #[trigger] seated(v, i)
}

/// How far residency holds after a step of an acquisition.
pub open spec fn resident_after(step: AcquireStep, after: StoreView) -> bool {
    match step {
        AcquireStep::Import { restore, .. } => {
            &&& others_resident(after, restore.slot)
            &&& owners_resident(
                after.resident(restore.id@, restore.slot, restore.reuse as nat),
            )
        },
        AcquireStep::NoSlotFreed => false,
        _ => owners_resident(after),
    }
}

proof fn lemma_settled(
    v: StoreView,
    id: Seq<char>,
    slot: usize,
    parked: Option<Seq<u8>>,
    reuse: nat,
    stored: nat,
    step: AcquireStep,
    after: StoreView,
)
    requires
        1 <= slot <= v.owner.len(),
        v.owner[slot - 1] == Some(id),
        v.sessions.contains_key(id),
        v.sessions[id].slot is None,
        others_resident(v, slot),
        settled(v, id, slot, parked, reuse, stored, step, after),
    ensures
        resident_after(step, after),
{
    let r = if parked is Some && reuse > 0 {
        reuse
    } else {
        0
    };
    let done = v.resident(id, slot, r);
    assert forall|i: int| 0 <= i < done.owner.len() implies #[trigger] seated(done, i) by {
        if i + 1 != slot {
            assert(seated(v, i));
        }
    }
}

proof fn lemma_took_over(
    v: StoreView,
    victim: Seq<char>,
    slot: usize,
    blob: Option<Seq<u8>>,
    id: Seq<char>,
    parked: Option<Seq<u8>>,
    reuse: nat,
    stored: nat,
    step: AcquireStep,
    after: StoreView,
)
    requires
        v.wf(),
        owners_resident(v),
        v.sessions.contains_key(victim),
        v.sessions[victim].slot == Some(slot),
        v.sessions.contains_key(id),
        v.sessions[id].slot is None,
        took_over(v, victim, slot, blob, id, parked, reuse, stored, step, after),
    ensures
        resident_after(step, after),
{
    let w = v.evicted(victim, slot, blob);
    let sessions = choose|sessions: Map<Seq<char>, SessionView>|
        {
            &&& #[trigger] trimmed(w.sessions, sessions, v.ram_budget)
            &&& settled(
                (StoreView { sessions, ..w }).owned(slot - 1, Some(id)),
                id,
                slot,
                parked,
                reuse,
                stored,
                step,
                after,
            )
        };
    let x = (StoreView { sessions, ..w }).owned(slot - 1, Some(id));
    assert(1 <= slot <= v.owner.len() && v.owner[slot - 1] == Some(victim));
    assert forall|i: int| 0 <= i < x.owner.len() && i + 1 != slot implies #[trigger] seated(x, i) by {
        assert(seated(v, i));
        if v.owner[i] is Some {
            let o = v.owner[i]->0;
            assert(o != victim);
            assert(w.sessions.contains_key(o) && w.sessions[o] == v.sessions[o]);
            assert(sessions[o] == w.sessions[o] || sessions[o] == dropped(w.sessions[o]));
        }
    }
    assert(w.sessions.contains_key(id));
    assert(sessions[id] == w.sessions[id] || sessions[id] == dropped(w.sessions[id]));
    lemma_settled(x, id, slot, parked, reuse, stored, step, after);
}

proof fn lemma_opened(v: StoreView, id: Seq<char>)
    requires
        owners_resident(v),
    ensures
        owners_resident(v.opened(id)),
{
    let w = v.opened(id);
    assert forall|i: int| 0 <= i < w.owner.len() implies #[trigger] seated(w, i) by {
        assert(seated(v, i));
    }
}

proof fn lemma_first_is_free(owner: Seq<Option<Seq<char>>>, i: nat)
    ensures
        first_free(owner, i) matches Some(at) ==> i <= at < owner.len() && owner[at as int] is None,
        first_free(owner, i) is None ==> forall|k: int|
            i <= k < owner.len() ==> #[trigger] owner[k] is Some,
    decreases owner.len() - i,
{
    if i < owner.len() && owner[i as int] is Some {
        lemma_first_is_free(owner, i + 1);
    }
}

/// A store without owners has them all resident.
pub proof fn law_owners_start_resident(v: StoreView)
    requires
        forall|i: int| 0 <= i < v.owner.len() ==> #[trigger] v.owner[i] is None,
    ensures
        owners_resident(v),
{
}

/// An acquisition in a store whose owners are resident finds a slot to free if
/// it needs one, and leaves every owner resident: at once, once it goes on with
/// the copy that it asks for, or once the copy into the slot is made.
pub proof fn law_acquire_frees_a_slot(
    v: StoreView,
    id: Seq<char>,
    prompt: Seq<u32>,
    step: AcquireStep,
    after: StoreView,
)
    requires
        v.wf(),
        v.owner.len() <= usize::MAX,
        owners_resident(v),
        acquired(v, id, prompt, step, after),
    ensures
        step != AcquireStep::NoSlotFreed,
        resident_after(step, after),
{
    let s = v.session(id);
    let w = v.opened(id);
    let reuse = v.covered(id, prompt);
    let stored = s.tokens.len();
    if v.owner.len() > 0 {
        lemma_opened(v, id);
        match s.slot {
            Some(slot) => {
                assert(v.sessions.contains_key(id));
                assert(v.sessions[id].slot == Some(slot));
                assert forall|i: int| 0 <= i < after.owner.len() implies #[trigger] seated(
                    after,
                    i,
                ) by {
                    assert(seated(w, i));
                }
            },
            None => {
                lemma_first_is_free(w.owner, 0);
                match first_free(w.owner, 0) {
                    Some(i) => {
                        let x = w.owned(i as int, Some(id));
                        assert forall|k: int|
                            0 <= k < x.owner.len() && k + 1 != i + 1 implies #[trigger] seated(
                            x,
                            k,
                        ) by {
                            assert(seated(w, k));
                        }
                        lemma_settled(
                            x,
                            id,
                            (i + 1) as usize,
                            s.parked,
                            reuse,
                            stored,
                            step,
                            after,
                        );
                    },
                    None => {
                        let j = choose|j: int| #[trigger]
                            w.oldest_owner(j) && displaced(
                                w,
                                j,
                                id,
                                s.parked,
                                reuse,
                                stored,
                                step,
                                after,
                            );
                        assert(seated(w, j));
                        assert(w.owner[j] is Some);
                        let victim = w.owner[j]->0;
                        if w.sessions[victim].tokens.len() == 0 {
                            lemma_opened_wf(v, id);
                            lemma_took_over(
                                w,
                                victim,
                                (j + 1) as usize,
                                None,
                                id,
                                s.parked,
                                reuse,
                                stored,
                                step,
                                after,
                            );
                        }
                    },
                }
            },
        }
    }
}

/// The same of an acquisition that goes on with a copy out of a slot.
pub proof fn law_export_leaves_owners_resident(
    v: StoreView,
    wait: Waiting,
    blob: Seq<u8>,
    parked: Option<Seq<u8>>,
    step: AcquireStep,
    after: StoreView,
)
    requires
        v.wf(),
        owners_resident(v),
        v.awaits_export(wait),
        took_over(
            v,
            wait.victim@,
            wait.slot,
            Some(blob),
            wait.id@,
            parked,
            wait.reuse as nat,
            wait.stored as nat,
            step,
            after,
        ),
    ensures
        step != AcquireStep::NoSlotFreed,
        resident_after(step, after),
{
    lemma_took_over(
        v,
        wait.victim@,
        wait.slot,
        Some(blob),
        wait.id@,
        parked,
        wait.reuse as nat,
        wait.stored as nat,
        step,
        after,
    );
}

/// A finished generation leaves every owner resident.
pub proof fn law_commit_leaves_owners_resident(v: StoreView, id: Seq<char>, tokens: Seq<u32>)
    requires
        owners_resident(v),
    ensures
        owners_resident(v.committed(id, tokens)),
{
    let w = v.committed(id, tokens);
    assert forall|i: int| 0 <= i < w.owner.len() implies #[trigger] seated(w, i) by {
        assert(seated(v, i));
    }
}

/// A session that is forgotten leaves the other owners resident.
pub proof fn law_forget_leaves_owners_resident(v: StoreView, id: Seq<char>)
    requires
        v.wf(),
        owners_resident(v),
    ensures
        owners_resident(v.forgotten(id)),
{
    let w = v.forgotten(id);
    assert forall|i: int| 0 <= i < w.owner.len() implies #[trigger] seated(w, i) by {
        assert(seated(v, i));
        if v.sessions.contains_key(id) {
            assert(v.sessions[id].slot matches Some(s) ==> v.owner[s - 1] == Some(id));
        }
    }
}

} // verus!
