//! A step that was accepted can be run to its end: every act of its program
//! speaks of what is there.

use crate::acts::{
    attention_acts, closing, dense_acts, experts_of, kimi_layer, kimi_single, kimi_single_layer,
    logits_acts, opening, pick_waves, qwen_layer, qwen_single, run_acts, shared_acts,
    single_closing, wave_acts, ActView,
};
use crate::any::{AnyDecoder, Plan};
use crate::decode::CHUNK_CAP;
use crate::dispatch::{is_dense, is_routed};
use crate::kimi::{leading_dense, KimiDecoder, KimiLayer};
use crate::program::{only_picks, ProgramView, Stage};
use crate::steps::{
    entry_fault, first_fault, is_union, lemma_wave_bounds, planned, wave_at, wave_count,
    work_of, work_views, Entry, Pick, Wave,
};
use vstd::prelude::*;

verus! {

/// Every act has all that it speaks of.
pub open spec fn all_can(
    d: AnyDecoder,
    acts: Seq<ActView>,
    entries: Seq<Entry>,
    single: bool,
) -> bool {
    forall|i: int| 0 <= i < acts.len() ==> d.can(#[trigger] acts[i], entries, single)
}

/// Behind the leading dense layers, every layer has experts.
pub open spec fn dense_first(d: AnyDecoder) -> bool {
    d.plan matches Plan::Kimi(k) ==> forall|l: int|
        leading_dense(k.layers@, 0) <= l < k.layers@.len() ==> #[trigger] is_routed(k, l)
}

/// The entries of a step are at positions and sequence slots that there are,
/// and their tokens are in the vocabulary.
pub open spec fn fit_entries(d: AnyDecoder, entries: Seq<Entry>, single: bool) -> bool {
    &&& 0 < entries.len() <= CHUNK_CAP
    &&& single ==> entries.len() == 1
    &&& first_fault(entries, d.spec_max_seq(), d.spec_batch_cap(), 0) is None
    &&& d.plan matches Plan::Qwen(q) ==> forall|t: int|
        #![trigger entries[t]]
        0 <= t < entries.len() ==> entries[t].token < q.dims.vocab
}

/// The router chose for the entries, no more experts for any than the model
/// has.
pub open spec fn fit_picks(d: AnyDecoder, picks: Seq<Vec<Pick>>, n: nat) -> bool {
    &&& picks.len() <= n
    &&& forall|t: int|
        #![trigger picks[t]]
        0 <= t < picks.len() ==> picks[t]@.len() <= d.spec_top_k()
}

proof fn lemma_push(
    d: AnyDecoder,
    acts: Seq<ActView>,
    act: ActView,
    entries: Seq<Entry>,
    single: bool,
)
    requires
        all_can(d, acts, entries, single),
        d.can(act, entries, single),
    ensures
        all_can(d, acts.push(act), entries, single),
{
}

proof fn lemma_no_fault(entries: Seq<Entry>, max_seq: usize, batch_cap: usize, i: nat, t: int)
    requires
        first_fault(entries, max_seq, batch_cap, i) is None,
        i <= t < entries.len(),
    ensures
        entry_fault(entries[t], max_seq, batch_cap) is None,
    decreases t - i,
{
    if i < t {
        lemma_no_fault(entries, max_seq, batch_cap, i + 1, t);
    }
}

proof fn lemma_dense(layers: Seq<KimiLayer>, i: nat, l: int)
    requires
        i <= layers.len(),
    ensures
        i + leading_dense(layers, i) <= layers.len(),
        i <= l < i + leading_dense(layers, i) ==> layers[l].ffn is Dense,
    decreases layers.len() - i,
{
    if i < layers.len() && layers[i as int].ffn is Dense {
        lemma_dense(layers, i + 1, l);
    }
}

proof fn lemma_opening(d: AnyDecoder, entries: Seq<Entry>, single: bool, flush: bool, n: nat)
    requires
        fit_entries(d, entries, single),
        n <= entries.len(),
    ensures
        all_can(d, opening(flush, n), entries, single),
    decreases n,
{
    if n > 0 {
        lemma_opening(d, entries, single, flush, (n - 1) as nat);
        let act = ActView::Embed { entry: n - 1 };
        assert(entries[n - 1] == entries[n - 1]);
        lemma_push(d, opening(flush, (n - 1) as nat), act, entries, single);
    }
}

proof fn lemma_attention(d: AnyDecoder, entries: Seq<Entry>, single: bool, l: int, n: nat)
    requires
        fit_entries(d, entries, single),
        n <= entries.len(),
        0 <= l < d.spec_layers(),
    ensures
        all_can(d, attention_acts(l, n), entries, single),
    decreases n,
{
    if n > 0 {
        lemma_attention(d, entries, single, l, (n - 1) as nat);
        lemma_no_fault(entries, d.spec_max_seq(), d.spec_batch_cap(), 0, n - 1);
        let act = ActView::Attend { layer: l, entry: n - 1 };
        lemma_push(d, attention_acts(l, (n - 1) as nat), act, entries, single);
    }
}

proof fn lemma_dense_acts(
    d: AnyDecoder,
    k: KimiDecoder,
    entries: Seq<Entry>,
    single: bool,
    acts: Seq<ActView>,
    l: int,
    n: nat,
)
    requires
        d.plan == Plan::Kimi(k),
        is_dense(k, l),
        fit_entries(d, entries, single),
        n <= entries.len(),
        all_can(d, acts, entries, single),
    ensures
        all_can(d, dense_acts(acts, l, n), entries, single),
    decreases n,
{
    if n > 0 {
        lemma_dense_acts(d, k, entries, single, acts, l, (n - 1) as nat);
        let act = ActView::Dense { layer: l, entry: n - 1 };
        lemma_push(d, dense_acts(acts, l, (n - 1) as nat), act, entries, single);
    }
}

proof fn lemma_shared_acts(
    d: AnyDecoder,
    k: KimiDecoder,
    entries: Seq<Entry>,
    single: bool,
    acts: Seq<ActView>,
    l: int,
    n: nat,
)
    requires
        d.plan == Plan::Kimi(k),
        is_routed(k, l),
        fit_entries(d, entries, single),
        n <= entries.len(),
        all_can(d, acts, entries, single),
    ensures
        all_can(d, shared_acts(acts, l, n), entries, single),
    decreases n,
{
    if n > 0 {
        lemma_shared_acts(d, k, entries, single, acts, l, (n - 1) as nat);
        let before = shared_acts(acts, l, (n - 1) as nat);
        let a = ActView::Shared { layer: l, entry: n - 1 };
        let b = ActView::SharedAdd { entry: n - 1 };
        let c = ActView::Router { layer: l, entry: n - 1 };
        lemma_push(d, before, a, entries, single);
        lemma_push(d, before.push(a), b, entries, single);
        lemma_push(d, before.push(a).push(b), c, entries, single);
    }
}

proof fn lemma_filter_len(picks: Seq<Pick>, pred: spec_fn(Pick) -> bool)
    ensures
        picks.filter(pred).len() <= picks.len(),
    decreases picks.len(),
{
    reveal(Seq::filter);
    if picks.len() > 0 {
        lemma_filter_len(picks.drop_last(), pred);
    }
}

proof fn lemma_work(d: AnyDecoder, picks: Seq<Vec<Pick>>, experts: Seq<u16>, n: nat, k: int)
    requires
        fit_picks(d, picks, picks.len()),
        n <= picks.len(),
        0 <= k < work_of(picks, experts, n).len(),
    ensures
        0 <= work_of(picks, experts, n)[k].0 < n,
        work_of(picks, experts, n)[k].1.len() <= d.spec_top_k(),
    decreases n,
{
    if n > 0 {
        let before = work_of(picks, experts, (n - 1) as nat);
        if k < before.len() {
            lemma_work(d, picks, experts, (n - 1) as nat, k);
        } else {
            lemma_filter_len(picks[n - 1]@, |p: Pick| experts.contains(p.expert));
        }
    }
}

proof fn lemma_run_acts(
    d: AnyDecoder,
    entries: Seq<Entry>,
    acts: Seq<ActView>,
    work: Seq<(int, Seq<Pick>)>,
    n: nat,
)
    requires
        n <= work.len(),
        entries.len() <= CHUNK_CAP,
        all_can(d, acts, entries, false),
        forall|k: int|
            #![trigger work[k]]
            0 <= k < work.len() ==> 0 <= work[k].0 < entries.len() && work[k].1.len()
                <= d.spec_top_k(),
    ensures
        all_can(d, run_acts(acts, work, n), entries, false),
    decreases n,
{
    if n > 0 {
        lemma_run_acts(d, entries, acts, work, (n - 1) as nat);
        let act = ActView::Run { entry: work[n - 1].0, picks: work[n - 1].1 };
        lemma_push(d, run_acts(acts, work, (n - 1) as nat), act, entries, false);
    }
}

proof fn lemma_wave_acts(
    d: AnyDecoder,
    entries: Seq<Entry>,
    picks: Seq<Vec<Pick>>,
    union: Seq<u16>,
    wave: nat,
    waves: Seq<Wave>,
    l: int,
    n: nat,
)
    requires
        entries.len() <= CHUNK_CAP,
        fit_picks(d, picks, entries.len()),
        planned(picks, union, wave, waves),
        n <= waves.len(),
    ensures
        all_can(d, wave_acts(l, waves, n), entries, false),
    decreases n,
{
    if n > 0 {
        let w = waves[n - 1];
        let before = wave_acts(l, waves, (n - 1) as nat);
        let fetch = ActView::Fetch { layer: l, experts: w.experts@ };
        lemma_wave_acts(d, entries, picks, union, wave, waves, l, (n - 1) as nat);
        lemma_push(d, before, fetch, entries, false);
        let work = work_views(w.work@);
        assert(work == work_of(picks, w.experts@, picks.len()));
        assert forall|k: int| #![trigger work[k]] 0 <= k < work.len() implies 0 <= work[k].0
            < entries.len() && work[k].1.len() <= d.spec_top_k() by {
            lemma_work(d, picks, w.experts@, picks.len(), k);
        }
        lemma_run_acts(d, entries, before.push(fetch), work, work.len());
        let ran = run_acts(before.push(fetch), work, work.len());
        lemma_push(d, ran, ActView::Release, entries, false);
    }
}

proof fn lemma_pick_waves(
    d: AnyDecoder,
    entries: Seq<Entry>,
    acts: Seq<ActView>,
    l: int,
    picks: Seq<Pick>,
    wave: nat,
    n: nat,
)
    requires
        entries.len() == 1,
        picks.len() <= d.spec_top_k(),
        wave > 0,
        n <= wave_count(picks.len(), wave),
        all_can(d, acts, entries, true),
    ensures
        all_can(d, pick_waves(acts, l, picks, wave, n), entries, true),
    decreases n,
{
    if n > 0 {
        lemma_pick_waves(d, entries, acts, l, picks, wave, (n - 1) as nat);
        lemma_wave_bounds(picks.len(), wave, n - 1);
        let share = wave_at(picks, wave, n - 1);
        let before = pick_waves(acts, l, picks, wave, (n - 1) as nat);
        let fetch = ActView::Fetch { layer: l, experts: experts_of(share) };
        let run = ActView::Run { entry: 0, picks: share };
        lemma_push(d, before, fetch, entries, true);
        lemma_push(d, before.push(fetch), run, entries, true);
        lemma_push(d, before.push(fetch).push(run), ActView::Release, entries, true);
    }
}

proof fn lemma_logits(d: AnyDecoder, entries: Seq<Entry>, acts: Seq<ActView>, n: nat)
    requires
        entries.len() <= CHUNK_CAP,
        n <= entries.len(),
        all_can(d, acts, entries, false),
    ensures
        all_can(d, logits_acts(acts, entries, n), entries, false),
    decreases n,
{
    if n > 0 {
        lemma_logits(d, entries, acts, (n - 1) as nat);
        let before = logits_acts(acts, entries, (n - 1) as nat);
        lemma_push(d, before, ActView::Logits { entry: n - 1 }, entries, false);
    }
}

proof fn lemma_layer(d: AnyDecoder, v: ProgramView, l: int)
    requires
        d.wf(),
        dense_first(d),
        v.family == d.family(),
        v.layers == d.spec_layers(),
        v.layers <= usize::MAX,
        fit_entries(d, v.entries, v.single),
        0 <= l < v.layers,
    ensures
        all_can(d, v.layer(l), v.entries, v.single),
{
    let n = v.entries.len();
    let route = ActView::Route { layer: l };
    lemma_attention(d, v.entries, v.single, l, n);
    let attended = attention_acts(l, n);
    match d.plan {
        Plan::Qwen(_) => {
            lemma_push(d, attended, route, v.entries, v.single);
            assert(v.layer(l) == qwen_layer(l, n));
        },
        Plan::Kimi(k) => {
            let dense = leading_dense(k.layers@, 0) as int;
            lemma_dense(k.layers@, 0, l);
            lemma_no_fault(v.entries, d.spec_max_seq(), d.spec_batch_cap(), 0, 0);
            if l < dense {
                assert(is_dense(k, l));
                lemma_dense_acts(d, k, v.entries, v.single, attended, l, n);
            } else {
                assert(is_routed(k, l));
                lemma_shared_acts(d, k, v.entries, v.single, attended, l, n);
                let shared = shared_acts(attended, l, n);
                lemma_push(d, shared, route, v.entries, v.single);
            }
            if v.single {
                assert(v.layer(l) == kimi_single_layer(l, dense));
            } else {
                assert(v.layer(l) == kimi_layer(l, dense, n));
            }
        },
    }
}

proof fn lemma_experts(
    d: AnyDecoder,
    v: ProgramView,
    l: int,
    picks: Seq<Vec<Pick>>,
    acts: Seq<ActView>,
)
    requires
        d.wf(),
        dense_first(d),
        v.wave > 0,
        v.family == d.family(),
        v.layers == d.spec_layers(),
        v.layers <= usize::MAX,
        fit_entries(d, v.entries, v.single),
        fit_picks(d, picks, v.entries.len()),
        0 <= l < v.layers,
        v.has_experts(l),
        v.runs(l, picks, acts),
    ensures
        all_can(d, acts, v.entries, v.single),
{
    if v.single {
        let only = only_picks(picks);
        assert(only.len() <= d.spec_top_k());
        match d.plan {
            Plan::Qwen(_) => {
                let warm = d.prefetch_next && l + 1 < v.layers;
                assert(acts == qwen_single(l, only, warm));
            },
            Plan::Kimi(k) => {
                let dense = leading_dense(k.layers@, 0) as int;
                lemma_dense(k.layers@, 0, l);
                assert(is_routed(k, l));
                let first = seq![ActView::Shared { layer: l, entry: 0 }];
                let n = wave_count(only.len(), v.wave);
                lemma_pick_waves(d, v.entries, first, v.pack_layer(l), only, v.wave, n);
                let ran = pick_waves(first, v.pack_layer(l), only, v.wave, n);
                lemma_push(d, ran, ActView::SharedAdd { entry: 0 }, v.entries, true);
                assert(acts == kimi_single(l, v.pack_layer(l), only, v.wave));
            },
        }
    } else {
        let (union, waves) = choose|union: Seq<u16>, waves: Seq<Wave>| #[trigger]
            planned(picks, union, v.wave, waves) && is_union(picks, union) && acts == wave_acts(
                v.pack_layer(l),
                waves,
                waves.len(),
            );
        lemma_wave_acts(
            d,
            v.entries,
            picks,
            union,
            v.wave,
            waves,
            v.pack_layer(l),
            waves.len(),
        );
    }
}

/// A step that was accepted can be run to its end: at every stage of its
/// program, each act has all that it speaks of, so its launches are found.
pub proof fn law_accepted_steps_can_run(
    d: AnyDecoder,
    v: ProgramView,
    picks: Seq<Vec<Pick>>,
    acts: Seq<ActView>,
)
    requires
        d.wf(),
        dense_first(d),
        v.wf(),
        v.family == d.family(),
        v.layers == d.spec_layers(),
        fit_entries(d, v.entries, v.single),
        fit_picks(d, picks, v.entries.len()),
        v.does(picks, acts),
    ensures
        all_can(d, acts, v.entries, v.single),
{
    match v.stage {
        Stage::Opening => {
            lemma_opening(
                d,
                v.entries,
                v.single,
                !v.single && v.family is Qwen,
                v.entries.len(),
            );
        },
        Stage::Layer(l) => {
            lemma_layer(d, v, l as int);
        },
        Stage::Experts(l) => {
            lemma_experts(d, v, l as int, picks, acts);
        },
        Stage::Closing => {
            if v.single {
                assert(acts == single_closing(v.want_logits));
            } else {
                let tick = seq![ActView::Tick];
                lemma_logits(d, v.entries, tick, v.entries.len());
                assert(acts == closing(v.entries, v.want_logits));
            }
        },
        Stage::Ended => {},
    }
}

} // verus!
