//! A cache resize changes how experts are fetched, not what a step computes:
//! the plan and the contexts stay, and every entry still runs its picks.

use crate::acts::{kimi_single, pick_waves, qwen_single, run_acts, wave_acts, ActView};
use crate::any::{goes_on, Resize, ResizeStage, ResizeStep};
use crate::lossless::{joined_waves, law_paging_is_lossless, law_pick_waves_are_lossless, run_in};
use crate::pager::clamped;
use crate::program::{only_picks, Family, ProgramView, Stage};
use crate::steps::{
    is_union, picks_in, planned, wave_at, wave_count, work_of, work_views, Pick, Wave,
};
use vstd::multiset::Multiset;
use vstd::prelude::*;

verus! {

/// The picks that an act runs for entry `t`.
pub open spec fn share_of(act: ActView, t: int) -> Multiset<Pick> {
    match act {
        ActView::Run { entry, picks } if entry == t => picks.to_multiset(),
        _ => Multiset::empty(),
    }
}

/// The picks that acts run for entry `t`.
pub open spec fn served(acts: Seq<ActView>, t: int) -> Multiset<Pick>
    decreases acts.len(),
{
    if acts.len() == 0 {
        Multiset::empty()
    } else {
        served(acts.drop_last(), t).add(share_of(acts.last(), t))
    }
}

/// No act reads or writes a context.
pub open spec fn context_untouched(acts: Seq<ActView>) -> bool {
    forall|i: int| 0 <= i < acts.len() ==> !(#[trigger] acts[i] is Attend)
}

proof fn lemma_served_push(acts: Seq<ActView>, act: ActView, t: int)
    ensures
        served(acts.push(act), t) == served(acts, t).add(share_of(act, t)),
        !(act is Run) ==> served(acts.push(act), t) == served(acts, t),
        context_untouched(acts) && !(act is Attend) ==> context_untouched(acts.push(act)),
{
    assert(acts.push(act).drop_last() =~= acts);
    assert(served(acts, t).add(Multiset::empty()) =~= served(acts, t));
}

proof fn lemma_run_acts_prefix(
    acts: Seq<ActView>,
    work: Seq<(int, Seq<Pick>)>,
    more: Seq<(int, Seq<Pick>)>,
    n: nat,
)
    requires
        n <= work.len() <= more.len(),
        more.take(work.len() as int) == work,
    ensures
        run_acts(acts, more, n) == run_acts(acts, work, n),
    decreases n,
{
    if n > 0 {
        lemma_run_acts_prefix(acts, work, more, (n - 1) as nat);
        assert(more.take(work.len() as int)[n - 1] == more[n - 1]);
    }
}

proof fn lemma_run_acts(
    acts: Seq<ActView>,
    picks: Seq<Vec<Pick>>,
    experts: Seq<u16>,
    m: nat,
    t: int,
)
    requires
        m <= picks.len(),
        0 <= t,
        context_untouched(acts),
    ensures
        ({
            let work = work_of(picks, experts, m);
            let after = run_acts(acts, work, work.len());
            &&& served(after, t) == served(acts, t).add(
                if t < m {
                    picks_in(picks[t]@, experts).to_multiset()
                } else {
                    Multiset::empty()
                },
            )
            &&& context_untouched(after)
        }),
    decreases m,
{
    let work = work_of(picks, experts, m);
    if m == 0 {
        assert(served(acts, t).add(Multiset::empty()) =~= served(acts, t));
    } else {
        lemma_run_acts(acts, picks, experts, (m - 1) as nat, t);
        let before = work_of(picks, experts, (m - 1) as nat);
        let share = picks_in(picks[m - 1]@, experts);
        let done = run_acts(acts, before, before.len());
        if share.len() == 0 {
            if t == m - 1 {
                assert(share =~= Seq::<Pick>::empty());
                share.to_multiset_ensures();
                assert(share.to_multiset() =~= Multiset::<Pick>::empty());
            }
        } else {
            assert(work.take(before.len() as int) =~= before);
            lemma_run_acts_prefix(acts, before, work, before.len());
            let act = ActView::Run { entry: m - 1, picks: share };
            assert(run_acts(acts, work, work.len()) == done.push(act));
            lemma_served_push(done, act, t);
            if t == m - 1 {
                assert(served(acts, t).add(Multiset::empty()) =~= served(acts, t));
            } else {
                assert(served(done, t).add(Multiset::empty()) =~= served(done, t));
            }
        }
    }
}

proof fn lemma_wave_acts(
    layer: int,
    picks: Seq<Vec<Pick>>,
    union: Seq<u16>,
    wave: nat,
    waves: Seq<Wave>,
    n: nat,
    t: int,
)
    requires
        planned(picks, union, wave, waves),
        n <= waves.len(),
        0 <= t,
    ensures
        t < picks.len() ==> served(wave_acts(layer, waves, n), t) == run_in(picks[t]@, waves, n),
        context_untouched(wave_acts(layer, waves, n)),
    decreases n,
{
    if n > 0 {
        let w = waves[n - 1];
        let before = wave_acts(layer, waves, (n - 1) as nat);
        let fetch = ActView::Fetch { layer, experts: w.experts@ };
        lemma_wave_acts(layer, picks, union, wave, waves, (n - 1) as nat, t);
        lemma_served_push(before, fetch, t);
        lemma_run_acts(before.push(fetch), picks, w.experts@, picks.len(), t);
        let ran = run_acts(before.push(fetch), work_views(w.work@), w.work@.len());
        lemma_served_push(ran, ActView::Release, t);
    }
}

proof fn lemma_pick_waves(
    acts: Seq<ActView>,
    layer: int,
    picks: Seq<Pick>,
    wave: nat,
    n: nat,
)
    requires
        context_untouched(acts),
    ensures
        served(pick_waves(acts, layer, picks, wave, n), 0) == served(acts, 0).add(
            joined_waves(picks, wave, n).to_multiset(),
        ),
        context_untouched(pick_waves(acts, layer, picks, wave, n)),
    decreases n,
{
    let joined = joined_waves(picks, wave, n);
    if n == 0 {
        joined.to_multiset_ensures();
        assert(joined.to_multiset() =~= Multiset::<Pick>::empty());
        assert(served(acts, 0).add(Multiset::empty()) =~= served(acts, 0));
    } else {
        let m = (n - 1) as nat;
        lemma_pick_waves(acts, layer, picks, wave, m);
        let share = wave_at(picks, wave, n - 1);
        let before = pick_waves(acts, layer, picks, wave, m);
        let fetch = ActView::Fetch { layer, experts: crate::acts::experts_of(share) };
        let run = ActView::Run { entry: 0, picks: share };
        lemma_served_push(before, fetch, 0);
        lemma_served_push(before.push(fetch), run, 0);
        lemma_served_push(before.push(fetch).push(run), ActView::Release, 0);
        vstd::seq_lib::lemma_multiset_commutative(joined_waves(picks, wave, m), share);
        assert(served(acts, 0).add(joined.to_multiset()) =~= served(acts, 0).add(
            joined_waves(picks, wave, m).to_multiset(),
        ).add(share.to_multiset()));
    }
}

/// What an entry picked.
pub open spec fn picks_of(v: ProgramView, picks: Seq<Vec<Pick>>, t: int) -> Seq<Pick> {
    if v.single {
        only_picks(picks)
    } else {
        picks[t]@
    }
}

/// At any cache size, the experts of a layer that run for an entry are those
/// that it picked, each with its weight and as often as it picked it; contexts
/// are not touched.
pub proof fn law_experts_serve_the_picks(
    v: ProgramView,
    l: int,
    picks: Seq<Vec<Pick>>,
    acts: Seq<ActView>,
    t: int,
)
    requires
        v.wave > 0,
        v.runs(l, picks, acts),
        v.single ==> t == 0,
        0 <= t,
    ensures
        v.single || t < picks.len() ==> served(acts, t) == picks_of(v, picks, t).to_multiset(),
        context_untouched(acts),
{
    if v.single {
        let only = only_picks(picks);
        let none = Seq::<ActView>::empty();
        match v.family {
            Family::Qwen { prefetch } => {
                let warm = prefetch && l + 1 < v.layers;
                let ids = crate::acts::experts_of(only);
                let fetch = ActView::Fetch { layer: l, experts: ids };
                let fetched = seq![fetch];
                assert(fetched =~= none.push(fetch));
                lemma_served_push(none, fetch, 0);
                let next = ActView::Prefetch { layer: l + 1, experts: ids };
                lemma_served_push(fetched, next, 0);
                let warmed = if warm {
                    fetched.push(next)
                } else {
                    fetched
                };
                let run = ActView::Run { entry: 0, picks: only };
                lemma_served_push(warmed, run, 0);
                lemma_served_push(warmed.push(run), ActView::Defer, 0);
                assert(acts == qwen_single(l, only, warm));
                assert(Multiset::<Pick>::empty().add(only.to_multiset()) =~= only.to_multiset());
            },
            Family::Kimi { dense: _ } => {
                let shared = ActView::Shared { layer: l, entry: 0 };
                let first = seq![shared];
                assert(first =~= none.push(shared));
                lemma_served_push(none, shared, 0);
                let n = wave_count(only.len(), v.wave);
                lemma_pick_waves(first, v.pack_layer(l), only, v.wave, n);
                law_pick_waves_are_lossless(only, v.wave);
                let ran = pick_waves(first, v.pack_layer(l), only, v.wave, n);
                lemma_served_push(ran, ActView::SharedAdd { entry: 0 }, 0);
                assert(acts == kimi_single(l, v.pack_layer(l), only, v.wave));
                assert(Multiset::<Pick>::empty().add(only.to_multiset()) =~= only.to_multiset());
            },
        }
    } else {
        let (union, waves) = choose|union: Seq<u16>, waves: Seq<Wave>| #[trigger]
            planned(picks, union, v.wave, waves) && is_union(picks, union) && acts == wave_acts(
                v.pack_layer(l),
                waves,
                waves.len(),
            );
        lemma_wave_acts(v.pack_layer(l), picks, union, v.wave, waves, waves.len(), t);
        if t < picks.len() {
            law_paging_is_lossless(picks, union, v.wave, waves, t);
        }
    }
}

/// A step at one cache size and the same step at another do the same, but for
/// how they fetch experts: the same stages in the same order, the same acts
/// outside the experts, and the same picks for every entry in them. So contexts
/// and tokens do not depend on the cache size.
pub proof fn law_cache_size_leaves_steps(
    v: ProgramView,
    wave: nat,
    picks: Seq<Vec<Pick>>,
    a: Seq<ActView>,
    b: Seq<ActView>,
)
    requires
        v.wf(),
        wave > 0,
        v.does(picks, a),
        (ProgramView { wave, ..v }).does(picks, b),
    ensures
        (ProgramView { wave, ..v }).following() == v.following(),
        !(v.stage is Experts) ==> a == b,
        v.stage is Experts && !v.single ==> forall|t: int|
            #![trigger served(a, t)]
            0 <= t < picks.len() ==> served(a, t) == served(b, t),
        v.stage is Experts && v.single ==> served(a, 0) == served(b, 0),
        v.stage is Experts ==> context_untouched(a) && context_untouched(b),
{
    let w = ProgramView { wave, ..v };
    if v.stage is Experts {
        let l = v.stage->Experts_0 as int;
        law_experts_serve_the_picks(v, l, picks, a, 0);
        law_experts_serve_the_picks(w, l, picks, b, 0);
        if !v.single {
            assert forall|t: int|
                #![trigger served(a, t)]
                0 <= t < picks.len() implies served(a, t) == served(b, t) by {
                law_experts_serve_the_picks(v, l, picks, a, t);
                law_experts_serve_the_picks(w, l, picks, b, t);
            }
        }
    }
}

/// A device, by what it makes of its state `T`: all memory that a step works on,
/// contexts and logits among it.
#[verifier::reject_recursive_types(T)]
pub struct Device<T> {
    /// What an act makes of it.
    pub act: spec_fn(T, ActView) -> T,
    /// What the experts of a layer make of it, by what each entry runs.
    pub experts: spec_fn(T, int, Seq<Multiset<Pick>>) -> T,
    /// What its router has chosen.
    pub chosen: spec_fn(T) -> Seq<Vec<Pick>>,
}

/// The state once the first `n` acts were performed.
pub open spec fn performed<T>(d: Device<T>, before: T, acts: Seq<ActView>, n: nat) -> T
    decreases n,
{
    if n == 0 {
        before
    } else {
        (d.act)(performed(d, before, acts, (n - 1) as nat), acts[n - 1])
    }
}

/// What every entry of a step runs.
pub open spec fn all_served(v: ProgramView, acts: Seq<ActView>) -> Seq<Multiset<Pick>> {
    Seq::new(v.entries.len(), |t: int| served(acts, t))
}

/// The state once the present stage of a step is done.
pub open spec fn staged<T>(d: Device<T>, v: ProgramView, before: T, acts: Seq<ActView>) -> T {
    match v.stage {
        Stage::Experts(l) => (d.experts)(before, l as int, all_served(v, acts)),
        _ => performed(d, before, acts, acts.len()),
    }
}

/// A step after `n` of its stages.
pub open spec fn advanced(v: ProgramView, n: nat) -> ProgramView
    decreases n,
{
    if n == 0 {
        v
    } else {
        let w = advanced(v, (n - 1) as nat);
        ProgramView { stage: w.following(), ..w }
    }
}

/// The device goes through `states` where the step's stages do `acts`.
pub open spec fn runs_through<T>(
    d: Device<T>,
    v: ProgramView,
    acts: Seq<Seq<ActView>>,
    states: Seq<T>,
) -> bool {
    &&& states.len() == acts.len() + 1
    &&& forall|i: int|
        #![trigger acts[i]]
        0 <= i < acts.len() ==> {
            &&& advanced(v, i as nat).does((d.chosen)(states[i]), acts[i])
            &&& states[i + 1] == staged(d, advanced(v, i as nat), states[i], acts[i])
        }
}

proof fn lemma_advanced(v: ProgramView, wave: nat, n: nat)
    requires
        v.wf(),
        wave > 0,
    ensures
        advanced(v, n).wf(),
        advanced(ProgramView { wave, ..v }, n) == (ProgramView { wave, ..advanced(v, n) }),
        advanced(v, n).entries == v.entries,
        advanced(v, n).single == v.single,
    decreases n,
{
    if n > 0 {
        lemma_advanced(v, wave, (n - 1) as nat);
    }
}

/// A step leaves the same state behind at any cache size: contexts, logits and
/// so tokens do not depend on it. The device may do anything that depends on
/// what it has and on what each entry runs, but not on the order in which
/// experts come.
pub proof fn law_cache_size_leaves_the_state<T>(
    d: Device<T>,
    v: ProgramView,
    wave: nat,
    a: Seq<Seq<ActView>>,
    x: Seq<T>,
    b: Seq<Seq<ActView>>,
    y: Seq<T>,
)
    requires
        v.wf(),
        wave > 0,
        v.single ==> v.entries.len() == 1,
        forall|state: T| #[trigger] (d.chosen)(state).len() == v.entries.len(),
        runs_through(d, v, a, x),
        runs_through(d, (ProgramView { wave, ..v }), b, y),
        a.len() == b.len(),
        x[0] == y[0],
    ensures
        x == y,
{
    lemma_states_agree(d, v, wave, a, x, b, y, a.len());
    assert(x =~= y);
}

proof fn lemma_states_agree<T>(
    d: Device<T>,
    v: ProgramView,
    wave: nat,
    a: Seq<Seq<ActView>>,
    x: Seq<T>,
    b: Seq<Seq<ActView>>,
    y: Seq<T>,
    n: nat,
)
    requires
        v.wf(),
        wave > 0,
        v.single ==> v.entries.len() == 1,
        forall|state: T| #[trigger] (d.chosen)(state).len() == v.entries.len(),
        runs_through(d, v, a, x),
        runs_through(d, (ProgramView { wave, ..v }), b, y),
        n <= a.len() == b.len(),
        x[0] == y[0],
    ensures
        forall|i: int| #![trigger x[i]] 0 <= i <= n ==> x[i] == y[i],
    decreases n,
{
    if n > 0 {
        let i = n - 1;
        lemma_states_agree(d, v, wave, a, x, b, y, i as nat);
        lemma_advanced(v, wave, i as nat);
        let w = advanced(v, i as nat);
        let picks = (d.chosen)(x[i]);
        assert(x[i] == y[i]);
        assert(w.does(picks, a[i]));
        assert((ProgramView { wave, ..w }).does(picks, b[i]));
        law_cache_size_leaves_steps(w, wave, picks, a[i], b[i]);
        if w.stage is Experts {
            assert(all_served(w, a[i]) =~= all_served(w, b[i]));
        }
        assert(x[i + 1] == staged(d, w, x[i], a[i]));
        assert(y[i + 1] == staged(d, ProgramView { wave, ..w }, y[i], b[i]));
        assert(all_served(ProgramView { wave, ..w }, b[i]) =~= all_served(w, b[i]));
    }
}

/// A resize builds at most two pagers: that of the new size, and only where it
/// fails that of the previous size, without a reserve. It ends with a pager
/// unless both fail, and with the new size exactly where the first succeeds.
/// Without a reserve, the previous size is not clamped.
pub proof fn law_resize_falls_back_once(
    previous: u32,
    first: bool,
    second: bool,
    a: (ResizeStep, Resize),
    b: (ResizeStep, Resize),
)
    requires
        goes_on((Resize { previous, stage: ResizeStage::Wanted }), first, a.0, a.1),
        !first ==> goes_on(a.1, second, b.0, b.1),
    ensures
        a.0 == (if first {
            ResizeStep::Resized
        } else {
            ResizeStep::Build { slots: previous, reserve: 0 }
        }),
        !first ==> b.0 == (if second {
            ResizeStep::KeptPrevious
        } else {
            ResizeStep::Lost
        }),
        forall|free: u64, per_slot: nat| #[trigger]
            clamped(previous, 0, free, per_slot) == Some(previous),
{
}

} // verus!
