//! A decode step as the acts that make it up, in order. What is chosen on the
//! way (which experts the router picks) comes back from the caller; everything
//! else follows.
//!
//! Waves release eagerly: the next wave's fetch may need every slot of the
//! layer, and nothing else would give the last wave's back. A single-token
//! step of the Qwen engine fetches at most one expert per slot and defers the
//! release instead, so that no sync is needed; a step of several entries must
//! then start by flushing what is still deferred.

use crate::steps::{last_of_slot, wave_at, wave_count, work_views, Entry, Pick, Wave, WaveWork};
use vstd::prelude::*;

verus! {

/// One act of a step.
#[derive(Debug)]
pub enum Act {
    /// Wait for every deferred release.
    Flush,
    /// Look up the embedding of an entry.
    Embed { entry: usize },
    /// Run attention of a layer for an entry.
    Attend { layer: usize, entry: usize },
    /// Run a dense feed-forward block for an entry.
    Dense { layer: usize, entry: usize },
    /// Run the shared expert for an entry, up to its output.
    Shared { layer: usize, entry: usize },
    /// Add the shared expert's output to an entry.
    SharedAdd { entry: usize },
    /// Compute the router's logits for an entry.
    Router { layer: usize, entry: usize },
    /// Read the router's logits of all entries back and choose experts.
    Route { layer: usize },
    /// Request experts of a pack layer.
    Fetch { layer: usize, experts: Vec<u16> },
    /// Warm the cache of a pack layer, without waiting.
    Prefetch { layer: usize, experts: Vec<u16> },
    /// Wait for the requested experts and run them for an entry.
    Run { entry: usize, picks: Vec<Pick> },
    /// Wait until the device is done, and give the fetched experts back.
    Release,
    /// Give the fetched experts back once the device is done.
    Defer,
    /// Count the step.
    Tick,
    /// Compute and read an entry's logits.
    Logits { entry: usize },
}

/// One act of a step, mathematically.
pub enum ActView {
    Flush,
    Embed { entry: int },
    Attend { layer: int, entry: int },
    Dense { layer: int, entry: int },
    Shared { layer: int, entry: int },
    SharedAdd { entry: int },
    Router { layer: int, entry: int },
    Route { layer: int },
    Fetch { layer: int, experts: Seq<u16> },
    Prefetch { layer: int, experts: Seq<u16> },
    Run { entry: int, picks: Seq<Pick> },
    Release,
    Defer,
    Tick,
    Logits { entry: int },
}

impl Act {
    pub open spec fn view(self) -> ActView {
        match self {
            Act::Flush => ActView::Flush,
            Act::Embed { entry } => ActView::Embed { entry: entry as int },
            Act::Attend { layer, entry } => ActView::Attend {
                layer: layer as int,
                entry: entry as int,
            },
            Act::Dense { layer, entry } => ActView::Dense {
                layer: layer as int,
                entry: entry as int,
            },
            Act::Shared { layer, entry } => ActView::Shared {
                layer: layer as int,
                entry: entry as int,
            },
            Act::SharedAdd { entry } => ActView::SharedAdd { entry: entry as int },
            Act::Router { layer, entry } => ActView::Router {
                layer: layer as int,
                entry: entry as int,
            },
            Act::Route { layer } => ActView::Route { layer: layer as int },
            Act::Fetch { layer, experts } => ActView::Fetch {
                layer: layer as int,
                experts: experts@,
            },
            Act::Prefetch { layer, experts } => ActView::Prefetch {
                layer: layer as int,
                experts: experts@,
            },
            Act::Run { entry, picks } => ActView::Run { entry: entry as int, picks: picks@ },
            Act::Release => ActView::Release,
            Act::Defer => ActView::Defer,
            Act::Tick => ActView::Tick,
            Act::Logits { entry } => ActView::Logits { entry: entry as int },
        }
    }
}

pub open spec fn act_views(acts: Seq<Act>) -> Seq<ActView> {
    Seq::new(acts.len(), |i: int| acts[i]@)
}

proof fn lemma_pushed(acts: Seq<Act>, act: Act)
    ensures
        act_views(acts.push(act)) == act_views(acts).push(act@),
{
    assert(act_views(acts.push(act)) =~= act_views(acts).push(act@));
}

fn put(acts: &mut Vec<Act>, act: Act)
    ensures
        act_views(final(acts)@) == act_views(old(acts)@).push(act@),
{
    proof {
        lemma_pushed(acts@, act);
    }
    acts.push(act);
}

fn none() -> (acts: Vec<Act>)
    ensures
        act_views(acts@) == Seq::<ActView>::empty(),
{
    let acts: Vec<Act> = Vec::new();
    assert(act_views(acts@) =~= Seq::<ActView>::empty());
    acts
}

/// The acts that open a step of `n` entries.
pub open spec fn opening(flush: bool, n: nat) -> Seq<ActView>
    decreases n,
{
    if n == 0 {
        if flush {
            seq![ActView::Flush]
        } else {
            Seq::empty()
        }
    } else {
        opening(flush, (n - 1) as nat).push(ActView::Embed { entry: n - 1 })
    }
}

/// Opens a step of `n` entries: deferred releases first, where the engine has
/// them, then the embeddings.
pub fn open_step(flush: bool, n: usize) -> (acts: Vec<Act>)
    ensures
        act_views(acts@) == opening(flush, n as nat),
{
    let mut acts: Vec<Act> = none();
    if flush {
        put(&mut acts, Act::Flush);
    }
    let mut t: usize = 0;
    while t < n
        invariant
            t <= n,
            act_views(acts@) == opening(flush, t as nat),
        decreases n - t,
    {
        put(&mut acts, Act::Embed { entry: t });
        t += 1;
    }
    acts
}

/// Attention of a layer for the first `n` entries, causally in order.
pub open spec fn attention_acts(layer: int, n: nat) -> Seq<ActView>
    decreases n,
{
    if n == 0 {
        Seq::empty()
    } else {
        attention_acts(layer, (n - 1) as nat).push(ActView::Attend { layer, entry: n - 1 })
    }
}

/// The dense block of a layer for the first `n` entries, behind `acts`.
pub open spec fn dense_acts(acts: Seq<ActView>, layer: int, n: nat) -> Seq<ActView>
    decreases n,
{
    if n == 0 {
        acts
    } else {
        dense_acts(acts, layer, (n - 1) as nat).push(ActView::Dense { layer, entry: n - 1 })
    }
}

/// The shared expert and the router of a layer for the first `n` entries,
/// behind `acts`.
pub open spec fn shared_acts(acts: Seq<ActView>, layer: int, n: nat) -> Seq<ActView>
    decreases n,
{
    if n == 0 {
        acts
    } else {
        shared_acts(acts, layer, (n - 1) as nat).push(
            ActView::Shared { layer, entry: n - 1 },
        ).push(ActView::SharedAdd { entry: n - 1 }).push(ActView::Router { layer, entry: n - 1 })
    }
}

/// What a layer of the Qwen engine does for `n` entries, up to the choice of
/// experts.
pub open spec fn qwen_layer(layer: int, n: nat) -> Seq<ActView> {
    attention_acts(layer, n).push(ActView::Route { layer })
}

/// What a layer of the Kimi engine does for `n` entries: a dense layer all of
/// it, another one up to the choice of experts.
pub open spec fn kimi_layer(layer: int, dense: int, n: nat) -> Seq<ActView> {
    if layer < dense {
        dense_acts(attention_acts(layer, n), layer, n)
    } else {
        shared_acts(attention_acts(layer, n), layer, n).push(ActView::Route { layer })
    }
}

/// What a layer of the Kimi engine does for a single token: a dense layer all
/// of it, another one up to the choice of experts.
pub open spec fn kimi_single_layer(layer: int, dense: int) -> Seq<ActView> {
    if layer < dense {
        seq![ActView::Attend { layer, entry: 0 }, ActView::Dense { layer, entry: 0 }]
    } else {
        seq![
            ActView::Attend { layer, entry: 0 },
            ActView::Router { layer, entry: 0 },
            ActView::Route { layer },
        ]
    }
}

fn attend(layer: usize, n: usize) -> (acts: Vec<Act>)
    ensures
        act_views(acts@) == attention_acts(layer as int, n as nat),
{
    let mut acts: Vec<Act> = none();
    let mut t: usize = 0;
    while t < n
        invariant
            t <= n,
            act_views(acts@) == attention_acts(layer as int, t as nat),
        decreases n - t,
    {
        put(&mut acts, Act::Attend { layer, entry: t });
        t += 1;
    }
    acts
}

/// A layer of the Qwen engine for `n` entries, up to the choice of experts.
pub fn qwen_layer_acts(layer: usize, n: usize) -> (acts: Vec<Act>)
    ensures
        act_views(acts@) == qwen_layer(layer as int, n as nat),
{
    let mut acts: Vec<Act> = attend(layer, n);
    put(&mut acts, Act::Route { layer });
    acts
}

/// A layer of the Kimi engine for `n` entries, up to the choice of experts if
/// it has any.
pub fn kimi_layer_acts(layer: usize, dense: usize, n: usize) -> (acts: Vec<Act>)
    ensures
        act_views(acts@) == kimi_layer(layer as int, dense as int, n as nat),
{
    let mut acts: Vec<Act> = attend(layer, n);
    let ghost first = act_views(acts@);
    let mut t: usize = 0;
    if layer < dense {
        while t < n
            invariant
                t <= n,
                act_views(acts@) == dense_acts(first, layer as int, t as nat),
            decreases n - t,
        {
            put(&mut acts, Act::Dense { layer, entry: t });
            t += 1;
        }
    } else {
        while t < n
            invariant
                t <= n,
                act_views(acts@) == shared_acts(first, layer as int, t as nat),
            decreases n - t,
        {
            put(&mut acts, Act::Shared { layer, entry: t });
            put(&mut acts, Act::SharedAdd { entry: t });
            put(&mut acts, Act::Router { layer, entry: t });
            t += 1;
        }
        put(&mut acts, Act::Route { layer });
    }
    acts
}

/// A layer of the Kimi engine for a single token, up to the choice of experts
/// if it has any.
pub fn kimi_single_layer_acts(layer: usize, dense: usize) -> (acts: Vec<Act>)
    ensures
        act_views(acts@) == kimi_single_layer(layer as int, dense as int),
{
    let mut acts: Vec<Act> = none();
    put(&mut acts, Act::Attend { layer, entry: 0 });
    if layer < dense {
        put(&mut acts, Act::Dense { layer, entry: 0 });
    } else {
        put(&mut acts, Act::Router { layer, entry: 0 });
        put(&mut acts, Act::Route { layer });
    }
    assert(act_views(acts@) =~= kimi_single_layer(layer as int, dense as int));
    acts
}

/// A wave's runs, behind `acts`: the first `n` shares.
pub open spec fn run_acts(acts: Seq<ActView>, work: Seq<(int, Seq<Pick>)>, n: nat) -> Seq<ActView>
    decreases n,
{
    if n == 0 {
        acts
    } else {
        run_acts(acts, work, (n - 1) as nat).push(
            ActView::Run { entry: work[n - 1].0, picks: work[n - 1].1 },
        )
    }
}

/// The first `n` waves of a pack layer: each is fetched, run for every entry
/// that picked any of it, and given back before the next is fetched.
pub open spec fn wave_acts(layer: int, waves: Seq<Wave>, n: nat) -> Seq<ActView>
    decreases n,
{
    if n == 0 {
        Seq::empty()
    } else {
        let w = waves[n - 1];
        let fetched = wave_acts(layer, waves, (n - 1) as nat).push(
            ActView::Fetch { layer, experts: w.experts@ },
        );
        run_acts(fetched, work_views(w.work@), w.work@.len()).push(ActView::Release)
    }
}

fn copy_ids(ids: &Vec<u16>) -> (copy: Vec<u16>)
    ensures
        copy@ == ids@,
{
    let mut copy: Vec<u16> = Vec::new();
    let mut i: usize = 0;
    while i < ids.len()
        invariant
            i <= ids@.len(),
            copy@ == ids@.take(i as int),
        decreases ids@.len() - i,
    {
        copy.push(ids[i]);
        i += 1;
        assert(copy@ =~= ids@.take(i as int));
    }
    assert(copy@ =~= ids@);
    copy
}

fn copy_picks(picks: &Vec<Pick>, from: usize, to: usize) -> (copy: Vec<Pick>)
    requires
        from <= to <= picks@.len(),
    ensures
        copy@ == picks@.subrange(from as int, to as int),
{
    let mut copy: Vec<Pick> = Vec::new();
    let mut i: usize = from;
    while i < to
        invariant
            from <= i <= to <= picks@.len(),
            copy@ == picks@.subrange(from as int, i as int),
        decreases to - i,
    {
        copy.push(picks[i]);
        i += 1;
        assert(copy@ =~= picks@.subrange(from as int, i as int));
    }
    copy
}

/// The acts of a pack layer's waves.
pub fn wave_step_acts(layer: usize, waves: &Vec<Wave>) -> (acts: Vec<Act>)
    ensures
        act_views(acts@) == wave_acts(layer as int, waves@, waves@.len()),
{
    let mut acts: Vec<Act> = none();
    let mut i: usize = 0;
    while i < waves.len()
        invariant
            i <= waves@.len(),
            act_views(acts@) == wave_acts(layer as int, waves@, i as nat),
        decreases waves@.len() - i,
    {
        let w: &Wave = &waves[i];
        put(&mut acts, Act::Fetch { layer, experts: copy_ids(&w.experts) });
        let ghost fetched = act_views(acts@);
        let mut k: usize = 0;
        while k < w.work.len()
            invariant
                k <= w.work@.len(),
                act_views(acts@) == run_acts(fetched, work_views(w.work@), k as nat),
            decreases w.work@.len() - k,
        {
            let share: &WaveWork = &w.work[k];
            let n: usize = share.picks.len();
            let picks: Vec<Pick> = copy_picks(&share.picks, 0, n);
            assert(picks@ =~= share.picks@);
            put(&mut acts, Act::Run { entry: share.entry, picks });
            k += 1;
        }
        put(&mut acts, Act::Release);
        i += 1;
    }
    acts
}

/// The experts of picks, in order.
pub open spec fn experts_of(picks: Seq<Pick>) -> Seq<u16> {
    Seq::new(picks.len(), |i: int| picks[i].expert)
}

fn pick_ids(picks: &Vec<Pick>) -> (ids: Vec<u16>)
    ensures
        ids@ == experts_of(picks@),
{
    let mut ids: Vec<u16> = Vec::new();
    let mut i: usize = 0;
    while i < picks.len()
        invariant
            i <= picks@.len(),
            ids@ == experts_of(picks@).take(i as int),
        decreases picks@.len() - i,
    {
        ids.push(picks[i].expert);
        i += 1;
        assert(ids@ =~= experts_of(picks@).take(i as int));
    }
    assert(ids@ =~= experts_of(picks@));
    ids
}

/// The experts of a layer in a single-token step of the Qwen engine: fetched
/// together, the next layer warmed with the same ids where that is on, run, and
/// given back later.
pub open spec fn qwen_single(layer: int, picks: Seq<Pick>, prefetch: bool) -> Seq<ActView> {
    let ids = experts_of(picks);
    let fetch = seq![ActView::Fetch { layer, experts: ids }];
    let warmed = if prefetch {
        fetch.push(ActView::Prefetch { layer: layer + 1, experts: ids })
    } else {
        fetch
    };
    warmed.push(ActView::Run { entry: 0, picks }).push(ActView::Defer)
}

/// The experts of a layer in a single-token step of the Qwen engine.
pub fn qwen_single_acts(layer: usize, picks: &Vec<Pick>, prefetch: bool) -> (acts: Vec<Act>)
    requires
        layer < usize::MAX,
    ensures
        act_views(acts@) == qwen_single(layer as int, picks@, prefetch),
{
    let ids: Vec<u16> = pick_ids(picks);
    let mut acts: Vec<Act> = none();
    put(&mut acts, Act::Fetch { layer, experts: copy_ids(&ids) });
    if prefetch {
        put(&mut acts, Act::Prefetch { layer: layer + 1, experts: ids });
    }
    let n: usize = picks.len();
    let all: Vec<Pick> = copy_picks(picks, 0, n);
    assert(all@ =~= picks@);
    put(&mut acts, Act::Run { entry: 0, picks: all });
    put(&mut acts, Act::Defer);
    acts
}

/// The first `n` waves of a single-token step of the Kimi engine, behind
/// `acts`: its top-k can exceed the layer's slots, so the picks are fetched in
/// waves, in their order.
pub open spec fn pick_waves(acts: Seq<ActView>, layer: int, picks: Seq<Pick>, wave: nat, n: nat) -> Seq<
    ActView,
>
    decreases n,
{
    if n == 0 {
        acts
    } else {
        let share = wave_at(picks, wave, n - 1);
        pick_waves(acts, layer, picks, wave, (n - 1) as nat).push(
            ActView::Fetch { layer, experts: experts_of(share) },
        ).push(ActView::Run { entry: 0, picks: share }).push(ActView::Release)
    }
}

/// The experts of a layer in a single-token step of the Kimi engine: the
/// shared expert runs while the routed ones are fetched, and is added last.
pub open spec fn kimi_single(layer: int, pack_layer: int, picks: Seq<Pick>, wave: nat) -> Seq<ActView> {
    pick_waves(
        seq![ActView::Shared { layer, entry: 0 }],
        pack_layer,
        picks,
        wave,
        wave_count(picks.len(), wave),
    ).push(ActView::SharedAdd { entry: 0 })
}

/// The experts of a layer in a single-token step of the Kimi engine.
pub fn kimi_single_acts(layer: usize, pack_layer: usize, picks: &Vec<Pick>, wave: usize) -> (acts:
    Vec<Act>)
    requires
        wave > 0,
    ensures
        act_views(acts@) == kimi_single(
            layer as int,
            pack_layer as int,
            picks@,
            wave as nat,
        ),
{
    let mut acts: Vec<Act> = none();
    put(&mut acts, Act::Shared { layer, entry: 0 });
    let ghost first = act_views(acts@);
    assert(first =~= seq![ActView::Shared { layer: layer as int, entry: 0 }]);
    let n: usize = picks.len();
    let mut at: usize = 0;
    let ghost mut k: int = 0;
    proof {
        assert(0 * wave == 0) by (nonlinear_arith);
        assert((wave - 1) as int / wave as int == 0) by (nonlinear_arith)
            requires
                wave > 0,
        ;
    }
    while at < n
        invariant
            wave > 0,
            n == picks@.len(),
            at <= n,
            k >= 0,
            at < n ==> at == k * wave,
            at == n ==> k == wave_count(n as nat, wave as nat),
            act_views(acts@) == pick_waves(
                first,
                pack_layer as int,
                picks@,
                wave as nat,
                k as nat,
            ),
        decreases n - at,
    {
        let end: usize = if n - at > wave {
            at + wave
        } else {
            n
        };
        let share: Vec<Pick> = copy_picks(picks, at, end);
        proof {
            let w = wave as int;
            assert((k + 1) * w == k * w + w) by (nonlinear_arith);
            assert(share@ =~= wave_at(picks@, wave as nat, k));
            if end == n {
                crate::steps::lemma_wave_count(n as int, w, k);
            }
        }
        put(&mut acts, Act::Fetch { layer: pack_layer, experts: pick_ids(&share) });
        put(&mut acts, Act::Run { entry: 0, picks: share });
        put(&mut acts, Act::Release);
        proof {
            k = k + 1;
        }
        at = end;
    }
    put(&mut acts, Act::SharedAdd { entry: 0 });
    acts
}

/// The logits that a step of several entries computes: those of the first `n`
/// entries that are the last of their sequence slot, behind `acts`.
pub open spec fn logits_acts(acts: Seq<ActView>, entries: Seq<Entry>, n: nat) -> Seq<ActView>
    decreases n,
{
    if n == 0 {
        acts
    } else {
        let before = logits_acts(acts, entries, (n - 1) as nat);
        if last_of_slot(entries, n - 1) {
            before.push(ActView::Logits { entry: n - 1 })
        } else {
            before
        }
    }
}

/// The acts that close a step of several entries.
pub open spec fn closing(entries: Seq<Entry>, want_logits: bool) -> Seq<ActView> {
    let tick = seq![ActView::Tick];
    if want_logits {
        logits_acts(tick, entries, entries.len())
    } else {
        tick
    }
}

/// Closes a step of several entries: same-slot prefill only needs the last
/// entry's logits, distinct slots each need theirs.
pub fn close_step(entries: &[Entry], want_logits: bool) -> (acts: Vec<Act>)
    ensures
        act_views(acts@) == closing(entries@, want_logits),
{
    let mut acts: Vec<Act> = none();
    put(&mut acts, Act::Tick);
    let ghost first = act_views(acts@);
    assert(first =~= seq![ActView::Tick]);
    if !want_logits {
        return acts;
    }
    let last: Vec<bool> = crate::steps::last_entries(entries);
    let mut t: usize = 0;
    while t < entries.len()
        invariant
            t <= entries@.len(),
            last@.len() == entries@.len(),
            forall|k: int|
                0 <= k < last@.len() ==> #[trigger] last@[k] == last_of_slot(entries@, k),
            act_views(acts@) == logits_acts(first, entries@, t as nat),
        decreases entries@.len() - t,
    {
        if last[t] {
            put(&mut acts, Act::Logits { entry: t });
        }
        t += 1;
    }
    acts
}

/// The acts that close a single-token step: without logits there is nothing
/// left to do.
pub open spec fn single_closing(want_logits: bool) -> Seq<ActView> {
    if want_logits {
        seq![ActView::Logits { entry: 0 }, ActView::Tick]
    } else {
        Seq::empty()
    }
}

/// Closes a single-token step.
pub fn close_single(want_logits: bool) -> (acts: Vec<Act>)
    ensures
        act_views(acts@) == single_closing(want_logits),
{
    let mut acts: Vec<Act> = none();
    if want_logits {
        put(&mut acts, Act::Logits { entry: 0 });
        put(&mut acts, Act::Tick);
    }
    assert(act_views(acts@) =~= single_closing(want_logits));
    acts
}

/// How many waves are held at once, behind the first `n` acts: fetched and not
/// yet given back.
pub open spec fn waves_held(acts: Seq<ActView>, n: nat) -> int
    decreases n,
{
    if n == 0 {
        0
    } else {
        waves_held(acts, (n - 1) as nat) + (match acts[n - 1] {
            ActView::Fetch { layer: _, experts: _ } => 1int,
            ActView::Release => -1int,
            _ => 0int,
        })
    }
}

proof fn lemma_held_prefix(a: Seq<ActView>, b: Seq<ActView>, n: nat)
    requires
        n <= a.len(),
        n <= b.len(),
        forall|i: int| 0 <= i < n ==> #[trigger] a[i] == b[i],
    ensures
        waves_held(a, n) == waves_held(b, n),
    decreases n,
{
    if n > 0 {
        lemma_held_prefix(a, b, (n - 1) as nat);
    }
}

proof fn lemma_runs_hold(acts: Seq<ActView>, work: Seq<(int, Seq<Pick>)>, n: nat, k: nat)
    requires
        forall|j: nat| j <= acts.len() ==> 0 <= #[trigger] waves_held(acts, j) <= 1,
        waves_held(acts, acts.len()) == 1,
        k <= run_acts(acts, work, n).len(),
    ensures
        0 <= waves_held(run_acts(acts, work, n), k) <= 1,
        waves_held(run_acts(acts, work, n), run_acts(acts, work, n).len()) == 1,
    decreases n,
{
    if n > 0 {
        let before = run_acts(acts, work, (n - 1) as nat);
        let after = run_acts(acts, work, n);
        lemma_runs_hold(acts, work, (n - 1) as nat, before.len());
        if k <= before.len() {
            lemma_runs_hold(acts, work, (n - 1) as nat, k);
            lemma_held_prefix(after, before, k);
        }
        lemma_held_prefix(after, before, before.len());
    }
}

/// Waves follow each other: at no point of a layer are two waves held, and at
/// its end none is; so a wave may use every slot of the layer.
pub proof fn law_one_wave_at_a_time(layer: int, waves: Seq<Wave>, n: nat, k: nat)
    requires
        n <= waves.len(),
        k <= wave_acts(layer, waves, n).len(),
    ensures
        0 <= waves_held(wave_acts(layer, waves, n), k) <= 1,
        waves_held(wave_acts(layer, waves, n), wave_acts(layer, waves, n).len()) == 0,
    decreases n,
{
    if n > 0 {
        let before = wave_acts(layer, waves, (n - 1) as nat);
        let w = waves[n - 1];
        let fetched = before.push(ActView::Fetch { layer, experts: w.experts@ });
        let run = run_acts(fetched, work_views(w.work@), w.work@.len());
        let after = wave_acts(layer, waves, n);
        law_one_wave_at_a_time(layer, waves, (n - 1) as nat, before.len());
        assert forall|j: nat| j <= fetched.len() implies 0 <= #[trigger] waves_held(fetched, j)
            <= 1 by {
            lemma_held_prefix(fetched, before, before.len());
            if j <= before.len() {
                law_one_wave_at_a_time(layer, waves, (n - 1) as nat, j);
                lemma_held_prefix(fetched, before, j);
            }
        }
        lemma_held_prefix(fetched, before, before.len());
        assert(waves_held(fetched, fetched.len()) == 1);
        lemma_runs_hold(fetched, work_views(w.work@), w.work@.len(), run.len());
        if k <= run.len() {
            lemma_runs_hold(fetched, work_views(w.work@), w.work@.len(), k);
            lemma_held_prefix(after, run, k);
        }
        lemma_held_prefix(after, run, run.len());
    }
}

proof fn lemma_pushed_held(acts: Seq<ActView>, act: ActView, k: nat)
    requires
        k <= acts.len() + 1,
    ensures
        k <= acts.len() ==> waves_held(acts.push(act), k) == waves_held(acts, k),
        k == acts.len() + 1 ==> waves_held(acts.push(act), k) == waves_held(acts, acts.len())
            + (match act {
            ActView::Fetch { layer: _, experts: _ } => 1int,
            ActView::Release => -1int,
            _ => 0int,
        }),
{
    let after = acts.push(act);
    if k <= acts.len() {
        lemma_held_prefix(after, acts, k);
    } else {
        lemma_held_prefix(after, acts, acts.len());
    }
}

proof fn lemma_pick_waves_held(
    acts: Seq<ActView>,
    layer: int,
    picks: Seq<Pick>,
    wave: nat,
    n: nat,
    k: nat,
)
    requires
        forall|j: nat| j <= acts.len() ==> 0 <= #[trigger] waves_held(acts, j) <= 1,
        waves_held(acts, acts.len()) == 0,
        k <= pick_waves(acts, layer, picks, wave, n).len(),
    ensures
        0 <= waves_held(pick_waves(acts, layer, picks, wave, n), k) <= 1,
        waves_held(
            pick_waves(acts, layer, picks, wave, n),
            pick_waves(acts, layer, picks, wave, n).len(),
        ) == 0,
    decreases n,
{
    if n > 0 {
        let share = wave_at(picks, wave, n - 1);
        let before = pick_waves(acts, layer, picks, wave, (n - 1) as nat);
        let fetch = ActView::Fetch { layer, experts: experts_of(share) };
        let run = ActView::Run { entry: 0, picks: share };
        let a = before.push(fetch);
        let b = a.push(run);
        let at: nat = if k <= before.len() {
            k
        } else {
            before.len()
        };
        lemma_pick_waves_held(acts, layer, picks, wave, (n - 1) as nat, at);
        lemma_pushed_held(before, fetch, a.len());
        lemma_pushed_held(a, run, b.len());
        lemma_pushed_held(b, ActView::Release, b.len() + 1);
        lemma_pushed_held(b, ActView::Release, k);
        if k <= b.len() {
            lemma_pushed_held(a, run, k);
        }
        if k <= a.len() {
            lemma_pushed_held(before, fetch, k);
        }
    }
}

/// A single token of the Kimi engine holds one wave at a time too, and none at
/// the end of a layer.
pub proof fn law_single_holds_one_wave(
    layer: int,
    pack_layer: int,
    picks: Seq<Pick>,
    wave: nat,
    k: nat,
)
    requires
        k <= kimi_single(layer, pack_layer, picks, wave).len(),
    ensures
        ({
            let acts = kimi_single(layer, pack_layer, picks, wave);
            &&& 0 <= waves_held(acts, k) <= 1
            &&& waves_held(acts, acts.len()) == 0
        }),
{
    let first = seq![ActView::Shared { layer, entry: 0 }];
    let n = wave_count(picks.len(), wave);
    let waves = pick_waves(first, pack_layer, picks, wave, n);
    let add = ActView::SharedAdd { entry: 0 };
    assert forall|j: nat| j <= first.len() implies 0 <= #[trigger] waves_held(first, j) <= 1 by {
        reveal_with_fuel(waves_held, 2);
    }
    assert(waves_held(first, first.len()) == 0) by {
        reveal_with_fuel(waves_held, 2);
    }
    let at: nat = if k <= waves.len() {
        k
    } else {
        waves.len()
    };
    lemma_pick_waves_held(first, pack_layer, picks, wave, n, at);
    lemma_pushed_held(waves, add, k);
    lemma_pushed_held(waves, add, waves.len() + 1);
}

} // verus!
