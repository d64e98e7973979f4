//! What a session saves: as much of a prompt as its tokens cover is not run
//! again, whoever is displaced was used least recently, and no other session
//! notices.

use crate::session::{
    acquired, common_prefix_len, displaced, dropped, first_free, law_common_prefix, settled,
    took_over, trimmed, AcquireStep, StoreView,
};
use vstd::prelude::*;

verus! {

/// A session's tokens are reused as far as the prompt has them, but for the
/// last token of the prompt, which is always run: at the first token that is
/// not reused, the prompt goes on otherwise, the session ends or the prompt
/// does.
pub proof fn law_reuse_is_as_long_as_can_be(v: StoreView, id: Seq<char>, prompt: Seq<u32>)
    ensures
        ({
            let r = v.covered(id, prompt);
            let tokens = v.session(id).tokens;
            &&& r <= tokens.len()
            &&& prompt.len() > 0 ==> r < prompt.len()
            &&& prompt.len() == 0 ==> r == 0
            &&& forall|i: int| 0 <= i < r ==> #[trigger] prompt[i] == tokens[i]
            &&& r < tokens.len() && r + 1 < prompt.len() ==> prompt[r as int] != tokens[r as int]
        }),
{
    let tokens = v.session(id).tokens;
    let n = common_prefix_len(tokens, prompt);
    law_common_prefix(tokens, prompt);
    assert forall|i: int| 0 <= i < n implies #[trigger] prompt[i] == tokens[i] by {
        assert(prompt.take(n as int)[i] == tokens.take(n as int)[i]);
    }
}

/// A prompt that continues a session's tokens reuses all of them.
pub proof fn law_continuation_reuses_all(v: StoreView, id: Seq<char>, more: Seq<u32>)
    requires
        more.len() > 0,
    ensures
        v.covered(id, v.session(id).tokens + more) == v.session(id).tokens.len(),
{
    let tokens = v.session(id).tokens;
    let prompt = tokens + more;
    law_reuse_is_as_long_as_can_be(v, id, prompt);
    let r = v.covered(id, prompt);
    if r < tokens.len() {
        assert(prompt[r as int] == tokens[r as int]);
    }
}

/// Sessions other than `id` are as they were.
pub open spec fn others_kept(before: StoreView, after: StoreView, id: Seq<char>) -> bool {
    forall|k: Seq<char>|
        #![trigger after.sessions[k]]
        k != id ==> (after.sessions.contains_key(k) <==> before.sessions.contains_key(k)) && (
        before.sessions.contains_key(k) ==> after.sessions[k] == before.sessions[k])
}

/// Session `id` was used after every other.
pub open spec fn newest(v: StoreView, id: Seq<char>) -> bool {
    v.sessions.contains_key(id) && forall|k: Seq<char>|
        #![trigger v.sessions[k]]
        k != id && v.sessions.contains_key(k) ==> v.sessions[k].last_used < v.sessions[id].last_used
}

/// A session that has a slot is ready in that slot at once. What is left of its
/// tokens is the part of the prompt that is skipped, it counts as the last
/// used, and no other session or slot changes.
pub proof fn law_resident_session_is_ready(
    v: StoreView,
    id: Seq<char>,
    prompt: Seq<u32>,
    step: AcquireStep,
    after: StoreView,
)
    requires
        v.wf(),
        prompt.len() <= usize::MAX,
        acquired(v, id, prompt, step, after),
        v.sessions.contains_key(id),
        v.sessions[id].slot is Some,
    ensures
        step matches AcquireStep::Ready { slot, reuse } && v.sessions[id].slot == Some(slot)
            && reuse == v.covered(id, prompt) && after.sessions[id].tokens == prompt.take(
            reuse as int,
        ),
        after.sessions[id].slot == v.sessions[id].slot,
        after.sessions[id].turns == v.sessions[id].turns,
        after.owner == v.owner,
        newest(after, id),
        others_kept(v, after, id),
{
    let s = v.sessions[id];
    let r = v.covered(id, prompt);
    law_reuse_is_as_long_as_can_be(v, id, prompt);
    assert(1 <= s.slot->0 <= v.owner.len());
    assert(after.sessions[id].tokens == s.tokens.take(r as int));
    assert(s.tokens.take(r as int) =~= prompt.take(r as int)) by {
        assert forall|i: int| 0 <= i < r implies s.tokens[i] == prompt[i] by {}
    }
    assert forall|k: Seq<char>|
        #![trigger after.sessions[k]]
        k != id && after.sessions.contains_key(k) implies after.sessions[k].last_used
        < after.sessions[id].last_used by {
        assert(v.sessions[k].last_used <= v.clock);
    }
}

proof fn lemma_first_free(owner: Seq<Option<Seq<char>>>, i: nat)
    ensures
        first_free(owner, i) matches Some(k) ==> i <= k < owner.len() && owner[k as int] is None
            && forall|j: int| i <= j < k ==> #[trigger] owner[j] is Some,
        first_free(owner, i) is None ==> forall|j: int|
            i <= j < owner.len() ==> #[trigger] owner[j] is Some,
    decreases owner.len() - i,
{
    if i < owner.len() && owner[i as int] is Some {
        lemma_first_free(owner, i + 1);
    }
}

/// While a slot is free nobody is displaced: a session without one gets a slot
/// that nobody had, what it has parked is copied in where it covers some of the
/// prompt, and no other session changes.
pub proof fn law_free_slot_is_taken_first(
    v: StoreView,
    id: Seq<char>,
    prompt: Seq<u32>,
    step: AcquireStep,
    after: StoreView,
    free: int,
)
    requires
        v.wf(),
        v.owner.len() < usize::MAX,
        acquired(v, id, prompt, step, after),
        v.session(id).slot is None,
        0 <= free < v.owner.len(),
        v.owner[free] is None,
    ensures
        others_kept(v, after, id),
        newest(after, id),
        match step {
            AcquireStep::Ready { slot, reuse } => {
                &&& reuse == 0
                &&& v.session(id).parked is None || v.covered(id, prompt) == 0
                &&& 1 <= slot <= free + 1
                &&& v.owner[slot - 1] is None
                &&& after.owner == v.owner.update(slot - 1, Some(id))
                &&& after.sessions[id].slot == Some(slot)
                &&& after.sessions[id].tokens.len() == 0
            },
            AcquireStep::Import { slot, len, blob, restore } => {
                &&& v.session(id).parked == Some(blob@)
                &&& len == v.session(id).tokens.len()
                &&& restore.reuse == v.covered(id, prompt) && restore.reuse > 0
                &&& restore.slot == slot && restore.id@ == id
                &&& 1 <= slot <= free + 1
                &&& v.owner[slot - 1] is None
                &&& after.owner == v.owner.update(slot - 1, Some(id))
            },
            _ => false,
        },
{
    lemma_first_free(v.owner, 0);
    let i = first_free(v.owner, 0)->0;
    let w = v.opened(id);
    assert(w.owner == v.owner);
    let u = w.owned(i as int, Some(id));
    assert(i <= free) by {
        if free < i {
            assert(v.owner[free] is Some);
        }
    }
    assert(v.owner[i as int] is None);
    assert forall|k: Seq<char>|
        #![trigger after.sessions[k]]
        k != id && after.sessions.contains_key(k) implies after.sessions[k].last_used
        < after.sessions[id].last_used by {
        assert(v.sessions[k].last_used <= v.clock);
    }
    if v.session(id).parked is None || v.covered(id, prompt) == 0 {
        assert(after == u.resident(id, (i + 1) as usize, 0));
        assert(after.owner == v.owner.update(i as int, Some(id)));
    }
}

/// When every slot is taken, the one who gives its slot up is the session that
/// was used least recently of all that have one, and all of its tokens are to
/// be copied out first.
pub proof fn law_displaced_was_used_least_recently(
    v: StoreView,
    id: Seq<char>,
    prompt: Seq<u32>,
    step: AcquireStep,
    after: StoreView,
    other: Seq<char>,
)
    requires
        v.wf(),
        acquired(v, id, prompt, step, after),
        v.session(id).slot is None,
        forall|i: int| 0 <= i < v.owner.len() ==> #[trigger] v.owner[i] is Some,
        v.sessions.contains_key(other),
        v.sessions[other].slot is Some,
    ensures
        step matches AcquireStep::Export { slot, len, wait } ==> {
            let victim = wait.victim@;
            &&& v.sessions.contains_key(victim)
            &&& v.sessions[victim].slot == Some(slot)
            &&& len == v.sessions[victim].tokens.len()
            &&& v.sessions[victim].last_used <= v.sessions[other].last_used
            &&& wait.id@ == id
            &&& wait.reuse == v.covered(id, prompt)
            &&& others_kept(v, after, id)
        },
{
    lemma_first_free(v.owner, 0);
    let w = v.opened(id);
    assert(w.owner == v.owner);
    let s = v.session(id);
    if v.owner.len() > 0 {
        assert(first_free(w.owner, 0) is None) by {
            if first_free(w.owner, 0) is Some {
                assert(w.owner[first_free(w.owner, 0)->0 as int] is Some);
            }
        }
        let j = choose|j: int| #[trigger]
            w.oldest_owner(j) && displaced(
                w,
                j,
                id,
                s.parked,
                v.covered(id, prompt),
                s.tokens.len(),
                step,
                after,
            );
        let slot = v.sessions[other].slot->0;
        assert(1 <= slot <= v.owner.len() && v.owner[slot - 1] == Some(other));
        assert(other != id);
        assert(w.sessions[other] == v.sessions[other]);
        assert(w.owner_age(slot - 1) == v.sessions[other].last_used);
        assert(w.owner_age(j) <= w.owner_age(slot - 1));
        if step is Export {
            let victim = w.owner[j]->0;
            assert(w.owner[j] is Some);
            assert(w.sessions.contains_key(victim) && w.sessions[victim].slot is Some);
            assert(victim != id);
            assert(w.sessions[victim] == v.sessions[victim]);
            assert(w.owner_age(j) == v.sessions[victim].last_used);
        }
    } else {
        assert(1 <= v.sessions[other].slot->0 <= v.owner.len());
    }
}

/// Who gives its slot up keeps its context: it is parked under the session, with
/// all of its tokens, unless the budget has it dropped, tokens and all. The slot
/// is the new session's, and nothing changes of any third session but that the
/// budget may have its parked context dropped.
pub proof fn law_displaced_is_parked(
    v: StoreView,
    victim: Seq<char>,
    slot: usize,
    blob: Seq<u8>,
    id: Seq<char>,
    parked: Option<Seq<u8>>,
    reuse: nat,
    stored: nat,
    step: AcquireStep,
    after: StoreView,
    other: Seq<char>,
)
    requires
        v.wf(),
        v.sessions.contains_key(victim),
        v.sessions[victim].slot == Some(slot),
        v.sessions.contains_key(id),
        id != victim,
        took_over(v, victim, slot, Some(blob), id, parked, reuse, stored, step, after),
    ensures
        after.owner[slot - 1] == Some(id),
        after.sessions.contains_key(victim),
        after.sessions[victim].slot is None,
        (after.sessions[victim].parked == Some(blob) && after.sessions[victim].tokens
            == v.sessions[victim].tokens) || (after.sessions[victim].parked is None
            && after.sessions[victim].tokens.len() == 0),
        after.sessions[victim].turns == v.sessions[victim].turns,
        other != id && other != victim && v.sessions.contains_key(other) ==> after.sessions[other]
            == v.sessions[other] || (v.sessions[other].parked is Some && after.sessions[other]
            == dropped(v.sessions[other])),
        forall|i: int|
            0 <= i < v.owner.len() && i != slot - 1 ==> #[trigger] after.owner[i] == v.owner[i],
        match parked {
            Some(b) if reuse > 0 => step matches AcquireStep::Import { slot: s, len, blob, restore }
                && s == slot && blob@ == b && len == stored && restore.reuse == reuse,
            _ => step == (AcquireStep::Ready { slot, reuse: 0 }) && after.sessions[id].slot == Some(
                slot,
            ),
        },
{
    let e = v.evicted(victim, slot, Some(blob));
    let sessions = choose|sessions: Map<Seq<char>, crate::session::SessionView>|
        {
            &&& #[trigger] trimmed(e.sessions, sessions, v.ram_budget)
            &&& settled(
                (StoreView { sessions, ..e }).owned(slot - 1, Some(id)),
                id,
                slot,
                parked,
                reuse,
                stored,
                step,
                after,
            )
        };
    assert(1 <= slot <= v.owner.len());
    assert(sessions[victim] == e.sessions[victim] || sessions[victim] == dropped(
        e.sessions[victim],
    ));
    if v.sessions.contains_key(other) {
        assert(sessions[other] == e.sessions[other] || sessions[other] == dropped(
            e.sessions[other],
        ));
    }
}

/// A generation leaves its tokens to its session: they are the session's, it
/// has had one more turn and counts as the last used, where it was it stays,
/// and no other session changes.
pub proof fn law_commit_keeps_the_tokens(v: StoreView, id: Seq<char>, tokens: Seq<u32>)
    requires
        v.wf(),
    ensures
        ({
            let w = v.committed(id, tokens);
            &&& others_kept(v, w, id)
            &&& w.owner == v.owner
            &&& w.ram_budget == v.ram_budget
            &&& v.sessions.contains_key(id) ==> {
                &&& newest(w, id)
                &&& w.sessions[id].tokens == tokens
                &&& w.sessions[id].turns == v.sessions[id].turns + 1
                &&& w.sessions[id].slot == v.sessions[id].slot
                &&& w.sessions[id].parked == v.sessions[id].parked
            }
            &&& !v.sessions.contains_key(id) ==> !w.sessions.contains_key(id)
        }),
{
    let w = v.committed(id, tokens);
    assert forall|k: Seq<char>|
        #![trigger w.sessions[k]]
        k != id && w.sessions.contains_key(k) && v.sessions.contains_key(
            id,
        ) implies w.sessions[k].last_used < w.sessions[id].last_used by {
        assert(v.sessions[k].last_used <= v.clock);
    }
}

/// A conversation goes on without being run again: when a generation has left
/// its tokens in a slot and the next prompt continues them, the session is
/// ready in that slot with all of those tokens reused.
pub proof fn law_conversation_goes_on(
    v: StoreView,
    id: Seq<char>,
    tokens: Seq<u32>,
    more: Seq<u32>,
    step: AcquireStep,
    after: StoreView,
)
    requires
        v.wf(),
        v.committed(id, tokens).wf(),
        v.sessions.contains_key(id),
        v.sessions[id].slot is Some,
        more.len() > 0,
        tokens.len() + more.len() <= usize::MAX,
        acquired(v.committed(id, tokens), id, tokens + more, step, after),
    ensures
        step matches AcquireStep::Ready { slot, reuse } && v.sessions[id].slot == Some(slot)
            && reuse == tokens.len(),
{
    let w = v.committed(id, tokens);
    law_commit_keeps_the_tokens(v, id, tokens);
    law_continuation_reuses_all(w, id, more);
    law_resident_session_is_ready(w, id, tokens + more, step, after);
}

/// A session that is forgotten is gone, with its slot, and no other session
/// changes.
pub proof fn law_forgotten_is_gone(v: StoreView, id: Seq<char>)
    requires
        v.wf(),
    ensures
        ({
            let w = v.forgotten(id);
            &&& !w.sessions.contains_key(id)
            &&& others_kept(v, w, id)
            &&& w.session(id).tokens.len() == 0
            &&& forall|i: int|
                #![trigger w.owner[i]]
                0 <= i < v.owner.len() ==> w.owner[i] == (if v.sessions.contains_key(id)
                    && v.sessions[id].slot == Some((i + 1) as usize) && i < usize::MAX {
                    None
                } else {
                    v.owner[i]
                })
        }),
{
    let w = v.forgotten(id);
    if v.sessions.contains_key(id) {
        assert(v.sessions[id].slot matches Some(s) ==> 1 <= s <= v.owner.len());
    }
}

} // verus!
