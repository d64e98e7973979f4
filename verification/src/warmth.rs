//! Which models are warm, and with how many slots: a model alone gets its big
//! cache, one among others its small one, and none is dropped that need not be.

use crate::registry::{
    asked_slots, evicted_by, grow_from, lemma_misfit, lemma_spec_index, lemma_warm_index, resumed,
    shrink_from, with_front, with_loaded, with_resized, with_room, RegistryView, WarmStage,
    WarmStepView,
};
use vstd::prelude::*;

verus! {

/// The size of a model's cache is one of its own two: the one for a model
/// alone, or the one for a model among others.
pub proof fn law_cache_size_is_the_models_own(v: RegistryView, name: Seq<char>, count: nat)
    requires
        v.knows(name),
    ensures
        exists|i: int|
            {
                &&& 0 <= i < v.specs.len()
                &&& (#[trigger] v.specs[i]).name@ == name
                &&& count > 1 ==> v.target(name, count) == v.specs[i].slots
                &&& count <= 1 ==> v.target(name, count) == v.specs[i].slots_solo
            },
{
    lemma_spec_index(v.specs, name, 0);
    let i = crate::registry::spec_index(v.specs, name, 0)->0 as int;
    assert(v.specs[i].name@ == name);
}

/// A model is loaded only once every warm model has the cache it gets when one
/// more is warm, and then with the one that it gets itself. Until then what is
/// asked for is a warm model's resize to that cache.
pub proof fn law_residents_shrink_before_a_load(v: RegistryView, name: Seq<char>)
    requires
        v.wf(),
        v.warm.len() < usize::MAX,
    ensures
        match shrink_from(v, name, 0) {
            (WarmStage::Loading, WarmStepView::Load { slots }) => {
                &&& slots == v.target(name, v.warm.len() + 1)
                &&& forall|k: int|
                    0 <= k < v.warm.len() ==> (#[trigger] v.warm[k]).1 == v.target(
                        v.warm[k].0,
                        v.warm.len() + 1,
                    )
            },
            (WarmStage::Shrinking(k), WarmStepView::Resize { model, slots }) => {
                &&& k < v.warm.len()
                &&& model == v.warm[k as int].0
                &&& slots == v.target(model, v.warm.len() + 1)
                &&& slots != v.warm[k as int].1
            },
            _ => false,
        },
{
    lemma_misfit(v, v.warm.len() + 1, 0);
}

/// A warm-up is over only once every warm model has the cache it gets among
/// those that are warm; until then what is asked for is a warm model's resize
/// to that cache.
pub proof fn law_ready_means_all_fit(v: RegistryView)
    requires
        v.warm.len() < usize::MAX,
    ensures
        match grow_from(v, 0) {
            (WarmStage::Ended, WarmStepView::Ready) => forall|k: int|
                0 <= k < v.warm.len() ==> (#[trigger] v.warm[k]).1 == v.target(
                    v.warm[k].0,
                    v.warm.len(),
                ),
            (WarmStage::Growing(k), WarmStepView::Resize { model, slots }) => {
                &&& k < v.warm.len()
                &&& model == v.warm[k as int].0
                &&& slots == v.target(model, v.warm.len())
                &&& slots != v.warm[k as int].1
            },
            _ => false,
        },
{
    lemma_misfit(v, v.warm.len(), 0);
}

/// A model that was loaded is warm, at the front, with the slots it was loaded
/// with, and every model that was warm still is, with its cache.
pub proof fn law_load_drops_nobody(v: RegistryView, name: Seq<char>, slots: u32, i: int)
    requires
        0 <= i < v.warm.len(),
    ensures
        with_loaded(v, name, slots).warm[0] == (name, slots),
        with_loaded(v, name, slots).warm[i + 1] == v.warm[i],
        with_loaded(v, name, slots).warm.len() == v.warm.len() + 1,
        with_loaded(v, name, slots).is_warm(name),
{
    let w = with_loaded(v, name, slots);
    lemma_warm_index(w.warm, name, 0);
    assert(w.warm[0].0 == name);
}

/// A resize changes the slots of one warm model and nothing else.
pub proof fn law_resize_changes_one_cache(v: RegistryView, i: int, slots: u32, k: int)
    requires
        0 <= i < v.warm.len(),
        0 <= k < v.warm.len(),
    ensures
        with_resized(v, i, slots).warm.len() == v.warm.len(),
        with_resized(v, i, slots).warm[k].0 == v.warm[k].0,
        with_resized(v, i, slots).warm[k].1 == (if k == i {
            slots
        } else {
            v.warm[k].1
        }),
        with_resized(v, i, slots).specs == v.specs,
        with_resized(v, i, slots).max_warm == v.max_warm,
{
}

/// A warm-up passes over nobody: once a warm model has been resized, it goes on
/// with the next one behind it whose cache is not of its size, and only where
/// there is none is the model loaded, or the warm-up over. The model resized has
/// the slots that came back.
pub proof fn law_warm_ups_pass_over_nobody(v: RegistryView, name: Seq<char>, i: usize, slots: u32)
    requires
        i < v.warm.len() < usize::MAX,
    ensures
        ({
            let (w, stage, step) = resumed(v, name, WarmStage::Shrinking(i), Some(slots));
            let count = v.warm.len() + 1;
            &&& w == with_resized(v, i as int, slots)
            &&& match step {
                WarmStepView::Load { slots } => {
                    &&& stage == WarmStage::Loading
                    &&& slots == v.target(name, count)
                    &&& forall|k: int|
                        i < k < v.warm.len() ==> (#[trigger] v.warm[k]).1 == v.target(
                            v.warm[k].0,
                            count,
                        )
                },
                WarmStepView::Resize { model, slots } => stage matches WarmStage::Shrinking(k) && i
                    < k < v.warm.len() && model == v.warm[k as int].0 && slots == v.target(
                    model,
                    count,
                ) && forall|j: int|
                    i < j < k ==> (#[trigger] v.warm[j]).1 == v.target(v.warm[j].0, count),
                _ => false,
            }
        }),
        ({
            let (w, stage, step) = resumed(v, name, WarmStage::Growing(i), Some(slots));
            let count = v.warm.len();
            &&& w == with_resized(v, i as int, slots)
            &&& match step {
                WarmStepView::Ready => {
                    &&& stage == WarmStage::Ended
                    &&& forall|k: int|
                        i < k < v.warm.len() ==> (#[trigger] v.warm[k]).1 == v.target(
                            v.warm[k].0,
                            count,
                        )
                },
                WarmStepView::Resize { model, slots } => stage matches WarmStage::Growing(k) && i
                    < k < v.warm.len() && model == v.warm[k as int].0 && slots == v.target(
                    model,
                    count,
                ) && forall|j: int|
                    i < j < k ==> (#[trigger] v.warm[j]).1 == v.target(v.warm[j].0, count),
                _ => false,
            }
        }),
        resumed(v, name, WarmStage::Shrinking(i), None).2 == WarmStepView::Failed,
        resumed(v, name, WarmStage::Growing(i), None).2 == WarmStepView::Failed,
{
    let w = with_resized(v, i as int, slots);
    lemma_misfit(w, v.warm.len() + 1, (i + 1) as nat);
    lemma_misfit(w, v.warm.len(), (i + 1) as nat);
    assert forall|k: int| i < k < v.warm.len() implies #[trigger] v.warm[k] == w.warm[k] by {}
    assert(forall|n: Seq<char>, c: nat| #[trigger] w.target(n, c) == v.target(n, c));
}

/// A load that fails among other warm models is tried once more with none of
/// them, with the cache for a model alone; one that fails with nothing else
/// warm has failed.
pub proof fn law_failed_load_is_tried_alone(v: RegistryView, name: Seq<char>)
    ensures
        ({
            let (w, stage, step) = resumed(v, name, WarmStage::Loading, None);
            if v.warm.len() > 0 {
                &&& w.warm.len() == 0
                &&& stage == WarmStage::Reloading
                &&& step == (WarmStepView::Reload { slots: v.target(name, 1) })
            } else {
                &&& w == v
                &&& step == WarmStepView::Failed
            }
        }),
        resumed(v, name, WarmStage::Reloading, None).2 == WarmStepView::Failed,
        resumed(v, name, WarmStage::Reloading, None).0 == v,
{
}

/// Room is made for one more and for no more than one: nobody is evicted while
/// fewer models are warm than may be, and else as many as leave one place. Who
/// is evicted was used less recently than all who stay.
pub proof fn law_no_more_are_evicted_than_need_be(v: RegistryView)
    requires
        v.wf(),
    ensures
        v.warm.len() < v.max_warm ==> evicted_by(v).len() == 0 && with_room(v).warm == v.warm,
        v.max_warm > 1 && v.warm.len() >= v.max_warm ==> with_room(v).warm.len() == v.max_warm - 1,
        v.max_warm <= 1 ==> with_room(v).warm.len() == 0,
        forall|i: int|
            0 <= i < evicted_by(v).len() ==> #[trigger] evicted_by(v)[i] == v.warm[v.warm.len() - 1
                - i].0,
        evicted_by(v).len() + with_room(v).warm.len() == v.warm.len(),
{
}

/// A request for a number of slots asks for that number, of every model; one
/// without a number asks of each model for the cache that it has when alone.
pub proof fn law_requests_ask_for_what_they_say(v: RegistryView, i: int, t: u32)
    requires
        v.wf(),
        0 <= i < v.warm.len(),
    ensures
        asked_slots(v, i, Some(t)) == t,
        exists|k: int|
            0 <= k < v.specs.len() && (#[trigger] v.specs[k]).name@ == v.warm[i].0 && asked_slots(
                v,
                i,
                None,
            ) == v.specs[k].slots_solo,
{
    assert(v.knows(v.warm[i].0));
    law_cache_size_is_the_models_own(v, v.warm[i].0, 1);
}

/// Asking for a warm model makes it the most recently used and keeps the order
/// of all others.
pub proof fn law_request_makes_most_recent(v: RegistryView, i: int, k: int)
    requires
        0 <= i < v.warm.len(),
        0 <= k < v.warm.len(),
    ensures
        with_front(v, i).warm.len() == v.warm.len(),
        with_front(v, i).warm[0] == v.warm[i],
        k < i ==> with_front(v, i).warm[k + 1] == v.warm[k],
        k > i ==> with_front(v, i).warm[k] == v.warm[k],
{
}

} // verus!
