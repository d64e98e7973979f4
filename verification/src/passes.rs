//! What a step does for each of its entries, in order: whatever the family and
//! however many entries a step has, an entry passes through the embedding, then
//! in every layer through attention and the blocks behind it, and at the end
//! through the logits, each once.

use crate::acts::{
    attention_acts, dense_acts, experts_of, logits_acts, opening, pick_waves, run_acts,
    shared_acts, wave_acts, ActView,
};
use crate::program::{only_picks, Family, ProgramView};
use crate::steps::{
    is_union, last_of_slot, picks_in, planned, wave_at, wave_count, work_of, work_views, Entry,
    Pick, Wave,
};
use vstd::prelude::*;

verus! {

/// The act is for entry `t`, and no run of routed experts.
pub open spec fn is_for(act: ActView, t: int) -> bool {
    match act {
        ActView::Embed { entry } => entry == t,
        ActView::Attend { layer: _, entry } => entry == t,
        ActView::Dense { layer: _, entry } => entry == t,
        ActView::Shared { layer: _, entry } => entry == t,
        ActView::SharedAdd { entry } => entry == t,
        ActView::Router { layer: _, entry } => entry == t,
        ActView::Logits { entry } => entry == t,
        _ => false,
    }
}

/// What acts do for entry `t`, in order, but for the routed experts.
pub open spec fn pass(acts: Seq<ActView>, t: int) -> Seq<ActView>
    decreases acts.len(),
{
    if acts.len() == 0 {
        Seq::empty()
    } else if is_for(acts.last(), t) {
        pass(acts.drop_last(), t).push(acts.last())
    } else {
        pass(acts.drop_last(), t)
    }
}

proof fn lemma_pass_push(acts: Seq<ActView>, act: ActView, t: int)
    ensures
        pass(acts.push(act), t) == (if is_for(act, t) {
            pass(acts, t).push(act)
        } else {
            pass(acts, t)
        }),
{
    assert(acts.push(act).drop_last() =~= acts);
}

proof fn lemma_opening(flush: bool, n: nat, t: int)
    requires
        0 <= t,
    ensures
        pass(opening(flush, n), t) == (if t < n {
            seq![ActView::Embed { entry: t }]
        } else {
            Seq::empty()
        }),
        flush ==> opening(flush, n).len() > 0 && opening(flush, n)[0] == ActView::Flush,
        !flush ==> !opening(flush, n).contains(ActView::Flush),
    decreases n,
{
    if n == 0 {
        let none = Seq::<ActView>::empty();
        lemma_pass_push(none, ActView::Flush, t);
        assert(seq![ActView::Flush] =~= none.push(ActView::Flush));
        assert(pass(opening(flush, n), t) =~= Seq::<ActView>::empty());
    } else {
        lemma_opening(flush, (n - 1) as nat, t);
        let before = opening(flush, (n - 1) as nat);
        let act = ActView::Embed { entry: n - 1 };
        lemma_pass_push(before, act, t);
        if t == n - 1 {
            assert(Seq::<ActView>::empty().push(act) =~= seq![act]);
        }
        if !flush {
            assert forall|i: int| 0 <= i < before.push(act).len() implies before.push(act)[i]
                != ActView::Flush by {
                if i < before.len() {
                    assert(before.contains(before[i]));
                }
            }
        }
    }
}

/// A step opens by looking up the embedding of every entry, once. One of
/// several entries of the Qwen engine first gives back what is deferred.
pub proof fn law_every_entry_is_embedded(v: ProgramView, t: int)
    requires
        0 <= t < v.entries.len(),
    ensures
        pass(v.opens(), t) == seq![ActView::Embed { entry: t }],
        !v.single && v.family is Qwen ==> v.opens()[0] == ActView::Flush,
        v.single || v.family is Kimi ==> !v.opens().contains(ActView::Flush),
{
    lemma_opening(!v.single && v.family is Qwen, v.entries.len(), t);
}

proof fn lemma_attention(layer: int, n: nat, t: int)
    requires
        0 <= t,
    ensures
        attention_acts(layer, n).len() == n,
        forall|i: int|
            0 <= i < n ==> #[trigger] attention_acts(layer, n)[i] == (ActView::Attend {
                layer,
                entry: i,
            }),
        pass(attention_acts(layer, n), t) == (if t < n {
            seq![ActView::Attend { layer, entry: t }]
        } else {
            Seq::empty()
        }),
    decreases n,
{
    if n > 0 {
        lemma_attention(layer, (n - 1) as nat, t);
        let act = ActView::Attend { layer, entry: n - 1 };
        lemma_pass_push(attention_acts(layer, (n - 1) as nat), act, t);
        if t == n - 1 {
            assert(Seq::<ActView>::empty().push(act) =~= seq![act]);
        }
    } else {
        assert(pass(attention_acts(layer, n), t) =~= Seq::<ActView>::empty());
    }
}

proof fn lemma_dense(acts: Seq<ActView>, layer: int, n: nat, t: int)
    requires
        0 <= t,
    ensures
        dense_acts(acts, layer, n).len() == acts.len() + n,
        forall|i: int|
            0 <= i < acts.len() ==> #[trigger] dense_acts(acts, layer, n)[i] == acts[i],
        pass(dense_acts(acts, layer, n), t) == (if t < n {
            pass(acts, t).push(ActView::Dense { layer, entry: t })
        } else {
            pass(acts, t)
        }),
        !acts.contains(ActView::Route { layer }) ==> !dense_acts(acts, layer, n).contains(
            ActView::Route { layer },
        ),
    decreases n,
{
    if n > 0 {
        lemma_dense(acts, layer, (n - 1) as nat, t);
        let before = dense_acts(acts, layer, (n - 1) as nat);
        let act = ActView::Dense { layer, entry: n - 1 };
        lemma_pass_push(before, act, t);
        if !acts.contains(ActView::Route { layer }) {
            assert forall|i: int| 0 <= i < before.push(act).len() implies before.push(act)[i] != (
            ActView::Route { layer }) by {
                if i < before.len() {
                    assert(before.contains(before[i]));
                }
            }
        }
    }
}

/// What comes of an entry in a layer with a shared expert.
pub open spec fn shared_pass(layer: int, t: int) -> Seq<ActView> {
    seq![
        ActView::Attend { layer, entry: t },
        ActView::Shared { layer, entry: t },
        ActView::SharedAdd { entry: t },
        ActView::Router { layer, entry: t },
    ]
}

proof fn lemma_shared(acts: Seq<ActView>, layer: int, n: nat, t: int)
    requires
        0 <= t,
    ensures
        shared_acts(acts, layer, n).len() == acts.len() + 3 * n,
        forall|i: int|
            0 <= i < acts.len() ==> #[trigger] shared_acts(acts, layer, n)[i] == acts[i],
        pass(shared_acts(acts, layer, n), t) == (if t < n {
            pass(acts, t).push(ActView::Shared { layer, entry: t }).push(
                ActView::SharedAdd { entry: t },
            ).push(ActView::Router { layer, entry: t })
        } else {
            pass(acts, t)
        }),
    decreases n,
{
    if n > 0 {
        lemma_shared(acts, layer, (n - 1) as nat, t);
        let a = shared_acts(acts, layer, (n - 1) as nat);
        let shared = ActView::Shared { layer, entry: n - 1 };
        let sum = ActView::SharedAdd { entry: n - 1 };
        let router = ActView::Router { layer, entry: n - 1 };
        lemma_pass_push(a, shared, t);
        lemma_pass_push(a.push(shared), sum, t);
        lemma_pass_push(a.push(shared).push(sum), router, t);
        assert forall|i: int| 0 <= i < acts.len() implies #[trigger] shared_acts(acts, layer, n)[i]
            == acts[i] by {
            assert(a[i] == acts[i]);
        }
    }
}

/// In every layer every entry runs attention once, behind all entries before
/// it. Behind it, a dense layer of the Kimi engine runs the dense block, and a
/// layer with experts ends in their choice: a Kimi one of several entries has
/// added the shared expert and computed the router's logits by then.
pub proof fn law_every_entry_passes_every_layer(v: ProgramView, l: int, t: int)
    requires
        0 <= t < v.entries.len(),
        v.single ==> v.entries.len() == 1,
    ensures
        forall|i: int|
            0 <= i < v.entries.len() ==> i < v.layer(l).len() && #[trigger] v.layer(l)[i] == (
            ActView::Attend { layer: l, entry: i }),
        match v.family {
            Family::Qwen { prefetch: _ } => {
                &&& pass(v.layer(l), t) == seq![ActView::Attend { layer: l, entry: t }]
                &&& v.layer(l).last() == ActView::Route { layer: l }
            },
            Family::Kimi { dense } => if l < dense {
                &&& pass(v.layer(l), t) == seq![
                    ActView::Attend { layer: l, entry: t },
                    ActView::Dense { layer: l, entry: t },
                ]
                &&& !v.layer(l).contains(ActView::Route { layer: l })
            } else {
                &&& v.layer(l).last() == ActView::Route { layer: l }
                &&& v.single ==> pass(v.layer(l), t) == seq![
                    ActView::Attend { layer: l, entry: t },
                    ActView::Router { layer: l, entry: t },
                ]
                &&& !v.single ==> pass(v.layer(l), t) == shared_pass(l, t)
            },
        },
{
    let n = v.entries.len();
    let attention = attention_acts(l, n);
    let route = ActView::Route { layer: l };
    lemma_attention(l, n, t);
    match v.family {
        Family::Qwen { prefetch: _ } => {
            lemma_pass_push(attention, route, t);
        },
        Family::Kimi { dense } => {
            if v.single {
                let none = Seq::<ActView>::empty();
                let attend = ActView::Attend { layer: l, entry: 0 };
                let block = ActView::Dense { layer: l, entry: 0 };
                let router = ActView::Router { layer: l, entry: 0 };
                lemma_pass_push(none, attend, t);
                lemma_pass_push(none.push(attend), block, t);
                lemma_pass_push(none.push(attend), router, t);
                lemma_pass_push(none.push(attend).push(router), route, t);
                if l < dense {
                    assert(v.layer(l) =~= none.push(attend).push(block));
                    assert(pass(v.layer(l), t) =~= seq![attend, block]);
                } else {
                    assert(v.layer(l) =~= none.push(attend).push(router).push(route));
                    assert(pass(v.layer(l), t) =~= seq![attend, router]);
                }
            } else if l < dense {
                assert forall|i: int| 0 <= i < attention.len() implies attention[i] != route by {}
                lemma_dense(attention, l, n, t);
                assert(pass(v.layer(l), t) =~= seq![
                    ActView::Attend { layer: l, entry: t },
                    ActView::Dense { layer: l, entry: t },
                ]);
                assert forall|i: int| 0 <= i < n implies i < v.layer(l).len() && #[trigger] v.layer(
                    l,
                )[i] == (ActView::Attend { layer: l, entry: i }) by {
                    assert(v.layer(l)[i] == attention[i]);
                }
            } else {
                lemma_shared(attention, l, n, t);
                let behind = shared_acts(attention, l, n);
                lemma_pass_push(behind, route, t);
                assert(pass(v.layer(l), t) =~= shared_pass(l, t));
                assert forall|i: int| 0 <= i < n implies i < v.layer(l).len() && #[trigger] v.layer(
                    l,
                )[i] == (ActView::Attend { layer: l, entry: i }) by {
                    assert(behind[i] == attention[i]);
                }
            }
        },
    }
}

/// The act runs only experts that the last fetch before it brought, from the
/// pack's layer.
pub open spec fn fetched_for(acts: Seq<ActView>, i: int, pack_layer: int) -> bool {
    acts[i] matches ActView::Run { entry: _, picks } ==> exists|j: int|
        {
            &&& 0 <= j < i
            &&& (#[trigger] acts[j]) matches ActView::Fetch { layer, experts }
                && layer == pack_layer
                && forall|k: int|
                0 <= k < picks.len() ==> experts.contains((#[trigger] picks[k]).expert)
            &&& forall|m: int| j < m < i ==> !(#[trigger] acts[m] is Fetch) && !(acts[m] is Release)
                && !(acts[m] is Defer)
        }
}

/// Every run is of fetched experts, and every fetch is from the pack's layer.
pub open spec fn well_fed(acts: Seq<ActView>, pack_layer: int) -> bool {
    forall|i: int|
        #![trigger acts[i]]
        0 <= i < acts.len() ==> fetched_for(acts, i, pack_layer)
            && (acts[i] matches ActView::Fetch {
            layer,
            experts: _,
        } ==> layer == pack_layer)
}

proof fn lemma_fed_push(acts: Seq<ActView>, act: ActView, pack_layer: int)
    requires
        well_fed(acts, pack_layer),
        fetched_for(acts.push(act), acts.len() as int, pack_layer),
        act matches ActView::Fetch { layer, experts: _ } ==> layer == pack_layer,
    ensures
        well_fed(acts.push(act), pack_layer),
{
    let all = acts.push(act);
    assert forall|i: int| #![trigger all[i]] 0 <= i < all.len() implies fetched_for(
        all,
        i,
        pack_layer,
    ) && (all[i] matches ActView::Fetch { layer, experts: _ } ==> layer == pack_layer) by {
        if i < acts.len() {
            assert(all[i] == acts[i]);
            match acts[i] {
                ActView::Run { entry: _, picks } => {
                    let j = choose|j: int|
                        {
                            &&& 0 <= j < i
                            &&& (#[trigger] acts[j]) matches ActView::Fetch { layer, experts }
                                && layer == pack_layer && forall|k: int|
                                0 <= k < picks.len() ==> experts.contains(
                                    (#[trigger] picks[k]).expert,
                                )
                            &&& forall|m: int|
                                j < m < i ==> !(#[trigger] acts[m] is Fetch) && !(
                                acts[m] is Release) && !(acts[m] is Defer)
                        };
                    assert(all[j] == acts[j]);
                    assert forall|m: int| j < m < i implies !(#[trigger] all[m] is Fetch) && !(
                    all[m] is Release) && !(all[m] is Defer) by {
                        assert(all[m] == acts[m]);
                    }
                },
                _ => {},
            }
        }
    }
}

proof fn lemma_share_is_of_wave(picks: Seq<Pick>, experts: Seq<u16>, k: int)
    requires
        0 <= k < picks_in(picks, experts).len(),
    ensures
        experts.contains(picks_in(picks, experts)[k].expert),
    decreases picks.len(),
{
    reveal(Seq::filter);
    let pred = |p: Pick| experts.contains(p.expert);
    assert(picks_in(picks, experts) == picks.filter(pred));
    if picks.len() > 0 {
        let front = picks.drop_last();
        assert(picks_in(front, experts) == front.filter(pred));
        if k < front.filter(pred).len() {
            lemma_share_is_of_wave(front, experts, k);
        }
    }
}

proof fn lemma_work_is_of_wave(picks: Seq<Vec<Pick>>, experts: Seq<u16>, n: nat, i: int, k: int)
    requires
        n <= picks.len(),
        0 <= i < work_of(picks, experts, n).len(),
        0 <= k < work_of(picks, experts, n)[i].1.len(),
    ensures
        experts.contains(work_of(picks, experts, n)[i].1[k].expert),
    decreases n,
{
    if n > 0 {
        let before = work_of(picks, experts, (n - 1) as nat);
        if i < before.len() {
            lemma_work_is_of_wave(picks, experts, (n - 1) as nat, i, k);
        } else {
            lemma_share_is_of_wave(picks[n - 1]@, experts, k);
        }
    }
}

/// Runs of a wave's shares behind its fetch, which stands last in `fetched`.
proof fn lemma_fed_runs(
    fetched: Seq<ActView>,
    work: Seq<(int, Seq<Pick>)>,
    n: nat,
    pack_layer: int,
    experts: Seq<u16>,
)
    requires
        n <= work.len(),
        well_fed(fetched, pack_layer),
        fetched.len() > 0,
        fetched.last() == (ActView::Fetch { layer: pack_layer, experts }),
        forall|i: int, k: int|
            #![trigger work[i].1[k]]
            0 <= i < work.len() && 0 <= k < work[i].1.len() ==> experts.contains(
                work[i].1[k].expert,
            ),
    ensures
        well_fed(run_acts(fetched, work, n), pack_layer),
        run_acts(fetched, work, n).len() == fetched.len() + n,
        run_acts(fetched, work, n)[fetched.len() - 1] == fetched.last(),
        forall|m: int|
            fetched.len() <= m < fetched.len() + n
                ==> #[trigger] run_acts(fetched, work, n)[m] is Run,
    decreases n,
{
    if n > 0 {
        lemma_fed_runs(fetched, work, (n - 1) as nat, pack_layer, experts);
        let before = run_acts(fetched, work, (n - 1) as nat);
        let act = ActView::Run { entry: work[n - 1].0, picks: work[n - 1].1 };
        let all = before.push(act);
        let j = fetched.len() - 1;
        assert(all[j] == fetched.last());
        assert forall|m: int| j < m < before.len() implies !(#[trigger] all[m] is Fetch) && !(
        all[m] is Release) && !(all[m] is Defer) by {
            assert(all[m] == before[m]);
        }
        assert(forall|k: int|
            0 <= k < work[n - 1].1.len() ==> experts.contains(
                (#[trigger] work[n - 1].1[k]).expert,
            ));
        lemma_fed_push(before, act, pack_layer);
    }
}

proof fn lemma_fed_waves(
    picks: Seq<Vec<Pick>>,
    union: Seq<u16>,
    wave: nat,
    waves: Seq<Wave>,
    pack_layer: int,
    n: nat,
)
    requires
        planned(picks, union, wave, waves),
        n <= waves.len(),
    ensures
        well_fed(wave_acts(pack_layer, waves, n), pack_layer),
    decreases n,
{
    if n > 0 {
        lemma_fed_waves(picks, union, wave, waves, pack_layer, (n - 1) as nat);
        let w = waves[n - 1];
        let before = wave_acts(pack_layer, waves, (n - 1) as nat);
        let fetch = ActView::Fetch { layer: pack_layer, experts: w.experts@ };
        lemma_fed_push(before, fetch, pack_layer);
        let fetched = before.push(fetch);
        let work = work_views(w.work@);
        assert(work == work_of(picks, w.experts@, picks.len()));
        assert forall|i: int, k: int|
            #![trigger work[i].1[k]]
            0 <= i < work.len() && 0 <= k < work[i].1.len() implies w.experts@.contains(
            work[i].1[k].expert,
        ) by {
            lemma_work_is_of_wave(picks, w.experts@, picks.len(), i, k);
        }
        lemma_fed_runs(fetched, work, w.work@.len(), pack_layer, w.experts@);
        lemma_fed_push(run_acts(fetched, work, w.work@.len()), ActView::Release, pack_layer);
    }
}

proof fn lemma_fed_pick_waves(
    acts: Seq<ActView>,
    pack_layer: int,
    picks: Seq<Pick>,
    wave: nat,
    n: nat,
)
    requires
        well_fed(acts, pack_layer),
    ensures
        well_fed(pick_waves(acts, pack_layer, picks, wave, n), pack_layer),
    decreases n,
{
    if n > 0 {
        lemma_fed_pick_waves(acts, pack_layer, picks, wave, (n - 1) as nat);
        let share = wave_at(picks, wave, n - 1);
        let before = pick_waves(acts, pack_layer, picks, wave, (n - 1) as nat);
        lemma_fed_run(before, Seq::empty(), pack_layer, share);
        let fetch = ActView::Fetch { layer: pack_layer, experts: experts_of(share) };
        let run = ActView::Run { entry: 0, picks: share };
        assert(before.push(fetch) + Seq::<ActView>::empty() =~= before.push(fetch));
        lemma_fed_push(before.push(fetch).push(run), ActView::Release, pack_layer);
    }
}

/// A run behind the fetch of its own experts, with at most prefetches between.
proof fn lemma_fed_run(
    before: Seq<ActView>,
    between: Seq<ActView>,
    pack_layer: int,
    share: Seq<Pick>,
)
    requires
        well_fed(before, pack_layer),
        between.len() <= 1,
        forall|i: int| 0 <= i < between.len() ==> #[trigger] between[i] is Prefetch,
    ensures
        ({
            let fetch = ActView::Fetch { layer: pack_layer, experts: experts_of(share) };
            well_fed(
                (before.push(fetch) + between).push(ActView::Run { entry: 0, picks: share }),
                pack_layer,
            )
        }),
{
    let fetch = ActView::Fetch { layer: pack_layer, experts: experts_of(share) };
    let run = ActView::Run { entry: 0, picks: share };
    lemma_fed_push(before, fetch, pack_layer);
    let mid = before.push(fetch) + between;
    if between.len() == 1 {
        lemma_fed_push(before.push(fetch), between[0], pack_layer);
        assert(mid =~= before.push(fetch).push(between[0]));
    } else {
        assert(mid =~= before.push(fetch));
    }
    let all = mid.push(run);
    let j = before.len() as int;
    assert(all[j] == fetch);
    assert forall|k: int| 0 <= k < share.len() implies experts_of(share).contains(
        (#[trigger] share[k]).expert,
    ) by {
        assert(experts_of(share)[k] == share[k].expert);
    }
    assert forall|m: int| j < m < mid.len() implies !(#[trigger] all[m] is Fetch) && !(
    all[m] is Release) && !(all[m] is Defer) by {
        assert(all[m] == between[m - j - 1]);
    }
    lemma_fed_push(mid, run, pack_layer);
}

/// No expert runs that is not there: whatever runs in a layer's experts was
/// brought by the last fetch before it, from the layer of the pack that holds
/// them, and has not been given back. That layer is the model's own, counted
/// from the first that has experts.
pub proof fn law_experts_run_where_they_were_fetched(
    v: ProgramView,
    l: int,
    picks: Seq<Vec<Pick>>,
    acts: Seq<ActView>,
)
    requires
        v.wave > 0,
        v.runs(l, picks, acts),
    ensures
        well_fed(
            acts,
            match v.family {
                Family::Qwen { prefetch: _ } => l,
                Family::Kimi { dense } => l - dense,
            },
        ),
{
    let p = v.pack_layer(l);
    let none = Seq::<ActView>::empty();
    if v.single {
        let only = only_picks(picks);
        match v.family {
            Family::Qwen { prefetch } => {
                let warm = prefetch && l + 1 < v.layers;
                let ids = experts_of(only);
                let fetch = ActView::Fetch { layer: l, experts: ids };
                let next = ActView::Prefetch { layer: l + 1, experts: ids };
                let run = ActView::Run { entry: 0, picks: only };
                let between = if warm {
                    seq![next]
                } else {
                    none
                };
                lemma_fed_run(none, between, p, only);
                let ran = (none.push(fetch) + between).push(run);
                lemma_fed_push(ran, ActView::Defer, p);
                assert(acts =~= ran.push(ActView::Defer));
            },
            Family::Kimi { dense: _ } => {
                let shared = ActView::Shared { layer: l, entry: 0 };
                let n = wave_count(only.len(), v.wave);
                lemma_fed_push(none, shared, p);
                assert(seq![shared] =~= none.push(shared));
                lemma_fed_pick_waves(seq![shared], p, only, v.wave, n);
                lemma_fed_push(
                    pick_waves(seq![shared], p, only, v.wave, n),
                    ActView::SharedAdd { entry: 0 },
                    p,
                );
            },
        }
    } else {
        let (union, waves) = choose|union: Seq<u16>, waves: Seq<Wave>| #[trigger]
            planned(picks, union, v.wave, waves) && is_union(picks, union) && acts == wave_acts(
                p,
                waves,
                waves.len(),
            );
        lemma_fed_waves(picks, union, v.wave, waves, p, waves.len());
    }
}

/// A layer's experts warm the next layer's cache with the same ids, once, where
/// a single token runs on the Qwen engine, prefetching is on and there is a next
/// layer; nothing else ever does.
pub proof fn law_next_layer_is_warmed(
    v: ProgramView,
    l: int,
    picks: Seq<Vec<Pick>>,
    acts: Seq<ActView>,
    i: int,
)
    requires
        v.single,
        v.wave > 0,
        v.runs(l, picks, acts),
        0 <= i < acts.len(),
    ensures
        match v.family {
            Family::Qwen { prefetch } => {
                let warm = prefetch && l + 1 < v.layers;
                let ids = experts_of(only_picks(picks));
                &&& acts[i] is Prefetch ==> warm && i == 1 && acts[i] == (ActView::Prefetch {
                    layer: l + 1,
                    experts: ids,
                })
                &&& warm ==> acts.len() > 1 && acts[1] is Prefetch
                &&& acts[0] == (ActView::Fetch { layer: l, experts: ids })
                &&& acts.last() == ActView::Defer
            },
            Family::Kimi { dense: _ } => !(acts[i] is Prefetch) && acts[0] == (ActView::Shared {
                layer: l,
                entry: 0,
            }) && acts.last() == (ActView::SharedAdd { entry: 0 }),
        },
{
    let only = only_picks(picks);
    match v.family {
        Family::Qwen { prefetch: _ } => {},
        Family::Kimi { dense: _ } => {
            let first = seq![ActView::Shared { layer: l, entry: 0 }];
            let n = wave_count(only.len(), v.wave);
            lemma_nothing_warmed(first, v.pack_layer(l), only, v.wave, n);
        },
    }
}

proof fn lemma_nothing_warmed(
    acts: Seq<ActView>,
    layer: int,
    picks: Seq<Pick>,
    wave: nat,
    n: nat,
)
    requires
        acts.len() == 1,
        !(acts[0] is Prefetch),
    ensures
        pick_waves(acts, layer, picks, wave, n).len() > 0,
        pick_waves(acts, layer, picks, wave, n)[0] == acts[0],
        forall|i: int|
            0 <= i < pick_waves(acts, layer, picks, wave, n).len() ==> !(#[trigger] pick_waves(
                acts,
                layer,
                picks,
                wave,
                n,
            )[i] is Prefetch),
    decreases n,
{
    if n > 0 {
        lemma_nothing_warmed(acts, layer, picks, wave, (n - 1) as nat);
    }
}

/// How often acts do `act`.
pub open spec fn times_done(acts: Seq<ActView>, act: ActView) -> nat
    decreases acts.len(),
{
    if acts.len() == 0 {
        0
    } else {
        times_done(acts.drop_last(), act) + (if acts.last() == act {
            1nat
        } else {
            0
        })
    }
}

proof fn lemma_done_push(acts: Seq<ActView>, last: ActView, act: ActView)
    ensures
        times_done(acts.push(last), act) == times_done(acts, act) + (if last == act {
            1nat
        } else {
            0
        }),
{
    assert(acts.push(last).drop_last() =~= acts);
}

proof fn lemma_logits(acts: Seq<ActView>, entries: Seq<Entry>, n: nat, t: int)
    requires
        n <= entries.len(),
        0 <= t,
    ensures
        pass(logits_acts(acts, entries, n), t) == (if t < n && last_of_slot(entries, t) {
            pass(acts, t).push(ActView::Logits { entry: t })
        } else {
            pass(acts, t)
        }),
        times_done(logits_acts(acts, entries, n), ActView::Tick) == times_done(acts, ActView::Tick),
    decreases n,
{
    if n > 0 {
        lemma_logits(acts, entries, (n - 1) as nat, t);
        let before = logits_acts(acts, entries, (n - 1) as nat);
        let act = ActView::Logits { entry: n - 1 };
        lemma_pass_push(before, act, t);
        lemma_done_push(before, act, ActView::Tick);
    }
}

/// A step that is asked for logits computes those of an entry once if no entry
/// behind it is of the same sequence, and else not; without being asked it
/// computes none. A step of several entries counts as one, and so does one of a
/// single token that is asked for its logits.
pub proof fn law_logits_are_of_the_last_of_each_sequence(v: ProgramView, t: int)
    requires
        0 <= t < v.entries.len(),
        v.single ==> v.entries.len() == 1,
    ensures
        pass(v.closes(), t) == (if v.want_logits && forall|u: int|
            t < u < v.entries.len() ==> (#[trigger] v.entries[u]).seq != v.entries[t].seq {
            seq![ActView::Logits { entry: t }]
        } else {
            Seq::empty()
        }),
        times_done(v.closes(), ActView::Tick) == (if v.single && !v.want_logits {
            0nat
        } else {
            1
        }),
{
    let none = Seq::<ActView>::empty();
    let tick = ActView::Tick;
    let logits = ActView::Logits { entry: t };
    assert(pass(none, t) =~= none);
    lemma_pass_push(none, tick, t);
    lemma_done_push(none, tick, tick);
    assert(seq![tick] =~= none.push(tick));
    if v.single {
        lemma_pass_push(none, logits, t);
        lemma_pass_push(none.push(logits), tick, t);
        lemma_done_push(none, logits, tick);
        lemma_done_push(none.push(logits), tick, tick);
        assert(seq![logits, tick] =~= none.push(logits).push(tick));
        assert(none.push(logits) =~= seq![logits]);
    } else {
        lemma_logits(seq![tick], v.entries, v.entries.len(), t);
        assert(none.push(logits) =~= seq![logits]);
    }
}

} // verus!
