//! Planning of decode steps: which entries a step may hold, which experts a
//! layer fetches for them, and in which waves.

use crate::bytes::{le_bytes, push_le};
use crate::pager::ExpertHandle;
use crate::rank::{above, is_above, reaches, reaches_bound};
use vstd::prelude::*;

verus! {

/// One token of a step: what it is, its position, and its sequence slot.
#[derive(Debug, Clone, Copy, PartialEq, Eq, Structural)]
pub struct Entry {
    pub token: u32,
    pub pos: usize,
    pub seq: usize,
}

/// Why a step cannot run.
#[derive(Debug, Clone, Copy, PartialEq, Eq, Structural)]
pub enum StepError {
    /// No entries, or more than fit into one step.
    Count { n: usize },
    /// A position at or behind the end of the context.
    Position { pos: usize },
    /// A sequence slot that there is not.
    SequenceSlot { seq: usize },
}

/// What is wrong with one entry, if anything.
pub open spec fn entry_fault(e: Entry, max_seq: usize, batch_cap: usize) -> Option<StepError> {
    if e.pos >= max_seq {
        Some(StepError::Position { pos: e.pos })
    } else if e.seq >= batch_cap {
        Some(StepError::SequenceSlot { seq: e.seq })
    } else {
        None
    }
}

/// What is wrong with the first faulty entry at or behind `i`, if any.
pub open spec fn first_fault(entries: Seq<Entry>, max_seq: usize, batch_cap: usize, i: nat) -> Option<
    StepError,
>
    decreases entries.len() - i,
{
    if i >= entries.len() {
        None
    } else if entry_fault(entries[i as int], max_seq, batch_cap) is Some {
        entry_fault(entries[i as int], max_seq, batch_cap)
    } else {
        first_fault(entries, max_seq, batch_cap, i + 1)
    }
}

/// Whether a step may run: at least one entry and no more than `chunk_cap`,
/// each at a position and on a sequence slot that there is.
pub fn check_entries(entries: &[Entry], chunk_cap: usize, max_seq: usize, batch_cap: usize) -> (r:
    Result<(), StepError>)
    ensures
        r == (if entries@.len() == 0 || entries@.len() > chunk_cap {
            Err(StepError::Count { n: entries@.len() as usize })
        } else {
            match first_fault(entries@, max_seq, batch_cap, 0) {
                Some(e) => Err(e),
                None => Ok(()),
            }
        }),
{
    let n: usize = entries.len();
    if n == 0 || n > chunk_cap {
        return Err(StepError::Count { n });
    }
    let mut i: usize = 0;
    while i < n
        invariant
            i <= n,
            n == entries@.len(),
            0 < n <= chunk_cap,
            first_fault(entries@, max_seq, batch_cap, 0) == first_fault(
                entries@,
                max_seq,
                batch_cap,
                i as nat,
            ),
        decreases n - i,
    {
        let e: Entry = entries[i];
        if e.pos >= max_seq {
            return Err(StepError::Position { pos: e.pos });
        }
        if e.seq >= batch_cap {
            return Err(StepError::SequenceSlot { seq: e.seq });
        }
        i += 1;
    }
    Ok(())
}

/// Entries for consecutive tokens of one sequence slot.
pub open spec fn run_of(tokens: Seq<u32>, start: nat, seq: usize) -> Seq<Entry> {
    Seq::new(
        tokens.len(),
        |i: int| Entry { token: tokens[i], pos: (start + i) as usize, seq },
    )
}

/// Entries for consecutive tokens of one sequence slot, from position `start`
/// on.
pub fn run_entries(tokens: &[u32], start: usize, seq: usize) -> (entries: Vec<Entry>)
    requires
        start + tokens@.len() <= usize::MAX,
    ensures
        entries@ == run_of(tokens@, start as nat, seq),
{
    let mut entries: Vec<Entry> = Vec::new();
    let mut i: usize = 0;
    while i < tokens.len()
        invariant
            i <= tokens@.len(),
            start + tokens@.len() <= usize::MAX,
            entries@ == run_of(tokens@, start as nat, seq).take(i as int),
        decreases tokens@.len() - i,
    {
        entries.push(Entry { token: tokens[i], pos: start + i, seq });
        i += 1;
        assert(entries@ =~= run_of(tokens@, start as nat, seq).take(i as int));
    }
    assert(entries@ =~= run_of(tokens@, start as nat, seq));
    entries
}

/// An expert that the router chose, with its weight (the bits of an f32).
#[derive(Debug, Clone, Copy, PartialEq, Eq, Structural)]
pub struct Pick {
    pub expert: u16,
    pub weight: u32,
}

/// Some pick in the list is expert `e`.
pub open spec fn picks_expert(picks: Seq<Pick>, e: u16) -> bool {
    exists|i: int| 0 <= i < picks.len() && (#[trigger] picks[i]).expert == e
}

/// Some entry picked expert `e`.
pub open spec fn wanted(picks: Seq<Vec<Pick>>, e: u16) -> bool {
    exists|t: int| 0 <= t < picks.len() && picks_expert((#[trigger] picks[t])@, e)
}

/// In strictly ascending order.
pub open spec fn ascending_ids(ids: Seq<u16>) -> bool {
    forall|i: int, j: int|
        #![trigger ids[i], ids[j]]
        0 <= i < j < ids.len() ==> ids[i] < ids[j]
}

fn insert_id(ids: &mut Vec<u16>, e: u16)
    requires
        ascending_ids(old(ids)@),
    ensures
        ascending_ids(final(ids)@),
        forall|x: u16| #[trigger] final(ids)@.contains(x) <==> old(ids)@.contains(x) || x == e,
{
    let ghost before = ids@;
    let mut i: usize = 0;
    while i < ids.len() && ids[i] < e
        invariant
            i <= ids@.len(),
            ids@ == before,
            forall|k: int| 0 <= k < i ==> #[trigger] ids@[k] < e,
        decreases ids@.len() - i,
    {
        i += 1;
    }
    if i < ids.len() && ids[i] == e {
        assert(before.contains(e));
        return;
    }
    ids.insert(i, e);
    proof {
        let after = ids@;
        assert forall|x: u16| #[trigger] after.contains(x) <==> before.contains(x) || x == e by {
            if after.contains(x) {
                let k = choose|k: int| 0 <= k < after.len() && after[k] == x;
                if k < i {
                    assert(before[k] == x);
                } else if k > i {
                    assert(before[k - 1] == x);
                }
            }
            if before.contains(x) {
                let k = choose|k: int| 0 <= k < before.len() && before[k] == x;
                if k < i {
                    assert(after[k] == x);
                } else {
                    assert(after[k + 1] == x);
                }
            }
            if x == e {
                assert(after[i as int] == x);
            }
        }
        assert forall|x: int, y: int|
            #![trigger after[x], after[y]]
            0 <= x < y < after.len() implies after[x] < after[y] by {
            let u = if x < i { x } else { x - 1 };
            let v = if y < i { y } else { y - 1 };
            if x != i && y != i {
                assert(before[u] < before[v]);
            } else if x == i {
                assert(after[y] == before[v]);
                if v > i {
                    assert(before[i as int] < before[v]);
                }
            }
        }
    }
}

/// The experts that the entries of a step picked, each once, in ascending
/// order.
pub fn expert_union(picks: &Vec<Vec<Pick>>) -> (union: Vec<u16>)
    ensures
        ascending_ids(union@),
        forall|e: u16| #[trigger] union@.contains(e) <==> wanted(picks@, e),
{
    let mut union: Vec<u16> = Vec::new();
    let mut t: usize = 0;
    while t < picks.len()
        invariant
            t <= picks@.len(),
            ascending_ids(union@),
            forall|e: u16| #[trigger]
                union@.contains(e) <==> wanted(picks@.take(t as int), e),
        decreases picks@.len() - t,
    {
        let list: &Vec<Pick> = &picks[t];
        let ghost before = union@;
        let mut i: usize = 0;
        while i < list.len()
            invariant
                i <= list@.len(),
                ascending_ids(union@),
                forall|e: u16| #[trigger]
                    union@.contains(e) <==> before.contains(e) || picks_expert(
                        list@.take(i as int),
                        e,
                    ),
            decreases list@.len() - i,
        {
            let p: Pick = list[i];
            let ghost u = union@;
            insert_id(&mut union, p.expert);
            proof {
                assert forall|e: u16| #[trigger]
                    union@.contains(e) <==> before.contains(e) || picks_expert(
                        list@.take(i + 1),
                        e,
                    ) by {
                    lemma_pick_prefix(list@, i as int, e);
                }
            }
            i += 1;
        }
        proof {
            assert(list@.take(i as int) =~= list@);
            assert forall|e: u16| #[trigger]
                union@.contains(e) <==> wanted(picks@.take(t + 1), e) by {
                lemma_wanted_prefix(picks@, t as int, e);
            }
        }
        t += 1;
    }
    assert(picks@.take(t as int) =~= picks@);
    union
}

proof fn lemma_pick_prefix(list: Seq<Pick>, i: int, e: u16)
    requires
        0 <= i < list.len(),
    ensures
        picks_expert(list.take(i + 1), e) <==> picks_expert(list.take(i), e) || list[i].expert == e,
{
    let a = list.take(i);
    let b = list.take(i + 1);
    if picks_expert(b, e) {
        let k = choose|k: int| 0 <= k < b.len() && (#[trigger] b[k]).expert == e;
        if k < i {
            assert(a[k].expert == e);
        }
    }
    if picks_expert(a, e) {
        let k = choose|k: int| 0 <= k < a.len() && (#[trigger] a[k]).expert == e;
        assert(b[k].expert == e);
    }
    if list[i].expert == e {
        assert(b[i].expert == e);
    }
}

proof fn lemma_wanted_prefix(picks: Seq<Vec<Pick>>, t: int, e: u16)
    requires
        0 <= t < picks.len(),
    ensures
        wanted(picks.take(t + 1), e) <==> wanted(picks.take(t), e) || picks_expert(picks[t]@, e),
{
    let a = picks.take(t);
    let b = picks.take(t + 1);
    if wanted(b, e) {
        let k = choose|k: int| 0 <= k < b.len() && picks_expert((#[trigger] b[k])@, e);
        if k < t {
            assert(picks_expert(a[k]@, e));
        }
    }
    if wanted(a, e) {
        let k = choose|k: int| 0 <= k < a.len() && picks_expert((#[trigger] a[k])@, e);
        assert(picks_expert(b[k]@, e));
    }
    if picks_expert(picks[t]@, e) {
        assert(picks_expert(b[t]@, e));
    }
}

/// Wave `i` of a list cut into waves of `wave`.
pub open spec fn wave_at<T>(list: Seq<T>, wave: nat, i: int) -> Seq<T> {
    let end = (i + 1) * wave;
    list.subrange(i * wave, if end <= list.len() { end } else { list.len() as int })
}

/// How many waves a list of `len` is cut into.
pub open spec fn wave_count(len: nat, wave: nat) -> nat {
    (len + wave - 1) as nat / wave
}

/// The picks of one entry that belong to a wave of experts.
pub open spec fn picks_in(picks: Seq<Pick>, experts: Seq<u16>) -> Seq<Pick> {
    picks.filter(|p: Pick| experts.contains(p.expert))
}

/// The picks whose weight is at least `min`, in order; all of them where `min`
/// is not above 0.
pub open spec fn heavy_picks(picks: Seq<Pick>, min: u32, n: nat) -> Seq<Pick>
    decreases n,
{
    if n == 0 {
        Seq::empty()
    } else {
        let before = heavy_picks(picks, min, (n - 1) as nat);
        if !above(min, 0) || reaches(picks[n - 1].weight, min) {
            before.push(picks[n - 1])
        } else {
            before
        }
    }
}

/// Drops the picks whose weight is under `min`, a knob on fetch traffic.
pub fn kept_picks(picks: &Vec<Pick>, min: u32) -> (kept: Vec<Pick>)
    ensures
        kept@ == heavy_picks(picks@, min, picks@.len()),
{
    let mut kept: Vec<Pick> = Vec::new();
    let mut i: usize = 0;
    while i < picks.len()
        invariant
            i <= picks@.len(),
            kept@ == heavy_picks(picks@, min, i as nat),
        decreases picks@.len() - i,
    {
        if !is_above(min, 0) || reaches_bound(picks[i].weight, min) {
            kept.push(picks[i]);
        }
        i += 1;
    }
    kept
}

/// One entry's share of a wave.
#[derive(Debug)]
pub struct WaveWork {
    pub entry: usize,
    pub picks: Vec<Pick>,
}

/// A wave: the experts to fetch, and for each entry that picked any of them
/// those picks.
#[derive(Debug)]
pub struct Wave {
    pub experts: Vec<u16>,
    pub work: Vec<WaveWork>,
}

/// The shares of the first `n` entries in a wave: those that have one, in
/// order.
pub open spec fn work_of(picks: Seq<Vec<Pick>>, experts: Seq<u16>, n: nat) -> Seq<(int, Seq<Pick>)>
    decreases n,
{
    if n == 0 {
        Seq::empty()
    } else {
        let before = work_of(picks, experts, (n - 1) as nat);
        let share = picks_in(picks[n - 1]@, experts);
        if share.len() == 0 {
            before
        } else {
            before.push((n - 1, share))
        }
    }
}

pub open spec fn work_views(work: Seq<WaveWork>) -> Seq<(int, Seq<Pick>)> {
    Seq::new(work.len(), |i: int| (work[i].entry as int, work[i].picks@))
}

fn contains_id(ids: &Vec<u16>, e: u16) -> (yes: bool)
    ensures
        yes == ids@.contains(e),
{
    let mut i: usize = 0;
    while i < ids.len()
        invariant
            i <= ids@.len(),
            forall|k: int| 0 <= k < i ==> #[trigger] ids@[k] != e,
        decreases ids@.len() - i,
    {
        if ids[i] == e {
            return true;
        }
        i += 1;
    }
    false
}

fn share_of(picks: &Vec<Pick>, experts: &Vec<u16>) -> (share: Vec<Pick>)
    ensures
        share@ == picks_in(picks@, experts@),
{
    let mut share: Vec<Pick> = Vec::new();
    let mut i: usize = 0;
    let ghost pred = |p: Pick| experts@.contains(p.expert);
    proof {
        reveal(Seq::filter);
        assert(picks@.take(0) =~= Seq::<Pick>::empty());
        assert(picks@.take(0).filter(pred) =~= Seq::<Pick>::empty());
    }
    while i < picks.len()
        invariant
            i <= picks@.len(),
            pred == (|p: Pick| experts@.contains(p.expert)),
            share@ == picks@.take(i as int).filter(pred),
        decreases picks@.len() - i,
    {
        let p: Pick = picks[i];
        proof {
            reveal(Seq::filter);
            assert(picks@.take(i + 1).drop_last() =~= picks@.take(i as int));
            assert(picks@.take(i + 1).last() == p);
        }
        if contains_id(experts, p.expert) {
            share.push(p);
        }
        i += 1;
    }
    assert(picks@.take(i as int) =~= picks@);
    share
}

/// The waves in which a layer fetches the experts that the entries of a step
/// picked: each expert once, however many entries picked it, and never more at
/// a time than the layer has slots.
pub fn plan_waves(picks: &Vec<Vec<Pick>>, wave: usize) -> (waves: Vec<Wave>)
    requires
        wave > 0,
    ensures
        exists|union: Seq<u16>| #[trigger] is_union(picks@, union) && planned(
            picks@,
            union,
            wave as nat,
            waves@,
        ),
{
    let union: Vec<u16> = expert_union(picks);
    let n: usize = union.len();
    let mut waves: Vec<Wave> = Vec::new();
    let mut at: usize = 0;
    proof {
        assert(is_union(picks@, union@));
        assert(0 * wave == 0) by (nonlinear_arith);
        assert((wave - 1) as int / wave as int == 0) by (nonlinear_arith)
            requires
                wave > 0,
        ;
    }
    while at < n
        invariant
            wave > 0,
            n == union@.len(),
            at <= n,
            at < n ==> at == waves@.len() * wave,
            at == n ==> waves@.len() == wave_count(n as nat, wave as nat),
            forall|i: int|
                #![trigger waves@[i]]
                0 <= i < waves@.len() ==> {
                    &&& waves@[i].experts@ == wave_at(union@, wave as nat, i)
                    &&& work_views(waves@[i].work@) == work_of(
                        picks@,
                        waves@[i].experts@,
                        picks@.len(),
                    )
                },
        decreases n - at,
    {
        let end: usize = if n - at > wave {
            at + wave
        } else {
            n
        };
        let mut experts: Vec<u16> = Vec::new();
        let mut i: usize = at;
        while i < end
            invariant
                at <= i <= end <= n,
                n == union@.len(),
                experts@ == union@.subrange(at as int, i as int),
            decreases end - i,
        {
            experts.push(union[i]);
            i += 1;
            assert(experts@ =~= union@.subrange(at as int, i as int));
        }
        let mut work: Vec<WaveWork> = Vec::new();
        let mut t: usize = 0;
        assert(work_views(work@) =~= work_of(picks@, experts@, 0));
        while t < picks.len()
            invariant
                t <= picks@.len(),
                work_views(work@) == work_of(picks@, experts@, t as nat),
            decreases picks@.len() - t,
        {
            let share: Vec<Pick> = share_of(&picks[t], &experts);
            let ghost before = work@;
            if share.len() > 0 {
                let w = WaveWork { entry: t, picks: share };
                work.push(w);
                assert(work_views(work@) =~= work_views(before).push((t as int, w.picks@)));
            }
            t += 1;
        }
        let ghost count = waves@.len();
        waves.push(Wave { experts, work });
        proof {
            let w = wave as int;
            assert((count + 1) * w == count * w + w) by (nonlinear_arith);
            assert(experts@ =~= wave_at(union@, wave as nat, count as int));
            if end == n {
                lemma_wave_count(n as int, w, count as int);
            }
        }
        at = end;
    }
    assert(planned(picks@, union@, wave as nat, waves@));
    waves
}

pub proof fn lemma_wave_count(n: int, w: int, k: int)
    requires
        w > 0,
        0 <= k,
        k * w < n <= (k + 1) * w,
    ensures
        (n + w - 1) / w == k + 1,
{
    assert((k + 1) * w == k * w + w) by (nonlinear_arith);
    let r = n + w - 1 - (k + 1) * w;
    vstd::arithmetic::div_mod::lemma_fundamental_div_mod_converse(n + w - 1, w, k + 1, r);
}

/// `union` lists the experts that the entries picked, each once, in ascending
/// order.
pub open spec fn is_union(picks: Seq<Vec<Pick>>, union: Seq<u16>) -> bool {
    &&& ascending_ids(union)
    &&& forall|e: u16| #[trigger] union.contains(e) <==> wanted(picks, e)
}

/// `waves` is `union` cut into waves, each with the shares of the entries.
pub open spec fn planned(
    picks: Seq<Vec<Pick>>,
    union: Seq<u16>,
    wave: nat,
    waves: Seq<Wave>,
) -> bool {
    &&& waves.len() == wave_count(union.len(), wave)
    &&& forall|i: int|
        #![trigger waves[i]]
        0 <= i < waves.len() ==> {
            &&& waves[i].experts@ == wave_at(union, wave, i)
            &&& work_views(waves[i].work@) == work_of(picks, waves[i].experts@, picks.len())
        }
}

pub proof fn lemma_wave_bounds(len: nat, wave: nat, i: int)
    requires
        wave > 0,
        0 <= i < wave_count(len, wave),
    ensures
        0 <= i * wave < len,
        (i + 1) * wave == i * wave + wave,
{
    let c = wave_count(len, wave) as int;
    let w = wave as int;
    assert((i + 1) * w == i * w + w) by (nonlinear_arith);
    assert(0 <= i * w) by (nonlinear_arith)
        requires
            0 <= i,
            0 < w,
    ;
    vstd::arithmetic::div_mod::lemma_fundamental_div_mod((len + w - 1) as int, w);
    assert((i + 1) * w <= c * w) by (nonlinear_arith)
        requires
            i + 1 <= c,
            0 < w,
    ;
    assert(c * w == w * c) by (nonlinear_arith);
}

/// A wave never needs more slots than the layer has, and is never empty.
pub proof fn law_waves_fit(picks: Seq<Vec<Pick>>, union: Seq<u16>, wave: nat, waves: Seq<Wave>, i: int)
    requires
        wave > 0,
        planned(picks, union, wave, waves),
        0 <= i < waves.len(),
    ensures
        0 < waves[i].experts@.len() <= wave,
{
    lemma_wave_bounds(union.len(), wave, i);
}

/// Every expert is fetched at most once per step: no expert is in two waves,
/// nor twice in one.
pub proof fn law_experts_fetched_once(
    picks: Seq<Vec<Pick>>,
    union: Seq<u16>,
    wave: nat,
    waves: Seq<Wave>,
    i: int,
    a: int,
    j: int,
    b: int,
)
    requires
        wave > 0,
        is_union(picks, union),
        planned(picks, union, wave, waves),
        0 <= i < waves.len(),
        0 <= j < waves.len(),
        0 <= a < waves[i].experts@.len(),
        0 <= b < waves[j].experts@.len(),
        waves[i].experts@[a] == waves[j].experts@[b],
    ensures
        i == j,
        a == b,
{
    lemma_wave_bounds(union.len(), wave, i);
    lemma_wave_bounds(union.len(), wave, j);
    let x = i * wave + a;
    let y = j * wave + b;
    assert(union[x] == waves[i].experts@[a]);
    assert(union[y] == waves[j].experts@[b]);
    if x < y {
        assert(union[x] < union[y]);
    }
    if y < x {
        assert(union[y] < union[x]);
    }
    vstd::arithmetic::div_mod::lemma_fundamental_div_mod_converse(x, wave as int, i, a);
    vstd::arithmetic::div_mod::lemma_fundamental_div_mod_converse(x, wave as int, j, b);
}

/// Every pick of every entry is served: its expert is in some wave, and only
/// picked experts are fetched.
pub proof fn law_every_pick_is_served(
    picks: Seq<Vec<Pick>>,
    union: Seq<u16>,
    wave: nat,
    waves: Seq<Wave>,
    e: u16,
)
    requires
        wave > 0,
        is_union(picks, union),
        planned(picks, union, wave, waves),
    ensures
        wanted(picks, e) <==> exists|i: int|
            #![trigger waves[i]]
            0 <= i < waves.len() && waves[i].experts@.contains(e),
{
    if wanted(picks, e) {
        assert(union.contains(e));
        let x = choose|x: int| 0 <= x < union.len() && union[x] == e;
        let w = wave as int;
        let i = x / w;
        vstd::arithmetic::div_mod::lemma_fundamental_div_mod(x, w);
        assert(i * w == w * i) by (nonlinear_arith);
        assert((i + 1) * w == i * w + w) by (nonlinear_arith);
        assert(0 <= i) by (nonlinear_arith)
            requires
                0 <= x,
                0 < w,
                i == x / w,
        ;
        let c = wave_count(union.len(), wave) as int;
        let n = union.len() as int;
        vstd::arithmetic::div_mod::lemma_fundamental_div_mod(n + w - 1, w);
        if i >= c {
            assert(w * c <= w * i) by (nonlinear_arith)
                requires
                    c <= i,
                    0 < w,
            ;
            assert(false);
        }
        assert(waves[i].experts@[x - i * w] == e);
        assert(waves[i].experts@.contains(e));
    }
    if exists|i: int|
        #![trigger waves[i]]
        0 <= i < waves.len() && waves[i].experts@.contains(e) {
        let i = choose|i: int|
            #![trigger waves[i]]
            0 <= i < waves.len() && waves[i].experts@.contains(e);
        lemma_wave_bounds(union.len(), wave, i);
        let a = choose|a: int|
            0 <= a < waves[i].experts@.len() && waves[i].experts@[a] == e;
        assert(union[i * wave + a] == e);
        assert(union.contains(e));
    }
}

/// Whether each entry is the last of its sequence slot in a step: only that
/// one's logits are needed.
pub open spec fn last_of_slot(entries: Seq<Entry>, t: int) -> bool {
    forall|u: int| t < u < entries.len() ==> (#[trigger] entries[u]).seq != entries[t].seq
}

/// Which entries are the last of their sequence slot.
pub fn last_entries(entries: &[Entry]) -> (last: Vec<bool>)
    ensures
        last@.len() == entries@.len(),
        forall|t: int| 0 <= t < last@.len() ==> #[trigger] last@[t] == last_of_slot(entries@, t),
{
    let n: usize = entries.len();
    let mut last: Vec<bool> = Vec::new();
    let mut t: usize = 0;
    while t < n
        invariant
            t <= n,
            n == entries@.len(),
            last@.len() == t,
            forall|k: int| 0 <= k < t ==> #[trigger] last@[k] == last_of_slot(entries@, k),
        decreases n - t,
    {
        let seq: usize = entries[t].seq;
        let mut is_last: bool = true;
        let mut u: usize = t + 1;
        while u < n
            invariant
                t < u <= n,
                n == entries@.len(),
                seq == entries@[t as int].seq,
                is_last == (forall|k: int| t < k < u ==> (#[trigger] entries@[k]).seq != seq),
            decreases n - u,
        {
            if entries[u].seq == seq {
                is_last = false;
            }
            u += 1;
        }
        last.push(is_last);
        t += 1;
    }
    last
}

/// The addresses of the experts in `picks`, as the device reads them.
pub open spec fn address_bytes(handles: Seq<ExpertHandle>, picks: Seq<Pick>, n: nat) -> Seq<u8>
    decreases n,
{
    if n == 0 {
        Seq::empty()
    } else {
        address_bytes(handles, picks, (n - 1) as nat) + le_bytes(
            address_of(handles, picks[n - 1].expert, 0) as nat,
            8,
        )
    }
}

/// The address of expert `e` among the handles at or behind `i`.
pub open spec fn address_of(handles: Seq<ExpertHandle>, e: u16, i: nat) -> u64
    decreases handles.len() - i,
{
    if i >= handles.len() {
        0
    } else if handles[i as int].expert == e {
        handles[i as int].dev
    } else {
        address_of(handles, e, i + 1)
    }
}

/// Some handle is for expert `e`.
pub open spec fn held(handles: Seq<ExpertHandle>, e: u16) -> bool {
    exists|i: int| 0 <= i < handles.len() && (#[trigger] handles[i]).expert == e
}

/// The weights of `picks`, as the device reads them.
pub open spec fn weight_bytes(picks: Seq<Pick>, n: nat) -> Seq<u8>
    decreases n,
{
    if n == 0 {
        Seq::empty()
    } else {
        weight_bytes(picks, (n - 1) as nat) + le_bytes(picks[n - 1].weight as nat, 4)
    }
}

/// The expert table of a launch: addresses and weights of the picked experts,
/// in the order of the picks.
pub fn expert_table(handles: &Vec<ExpertHandle>, picks: &Vec<Pick>) -> (table: (Vec<u8>, Vec<u8>))
    requires
        forall|i: int|
            #![trigger picks@[i]]
            0 <= i < picks@.len() ==> held(handles@, picks@[i].expert),
    ensures
        table.0@ == address_bytes(handles@, picks@, picks@.len()),
        table.1@ == weight_bytes(picks@, picks@.len()),
{
    let mut addresses: Vec<u8> = Vec::new();
    let mut weights: Vec<u8> = Vec::new();
    let mut i: usize = 0;
    while i < picks.len()
        invariant
            i <= picks@.len(),
            addresses@ == address_bytes(handles@, picks@, i as nat),
            weights@ == weight_bytes(picks@, i as nat),
        decreases picks@.len() - i,
    {
        let p: Pick = picks[i];
        let mut dev: u64 = 0;
        let mut k: usize = 0;
        let mut found: bool = false;
        while k < handles.len() && !found
            invariant
                k <= handles@.len(),
                found ==> dev == address_of(handles@, p.expert, 0),
                !found ==> dev == 0 && address_of(handles@, p.expert, 0) == address_of(
                    handles@,
                    p.expert,
                    k as nat,
                ),
            decreases handles@.len() - k + (if found {
                0int
            } else {
                1int
            }),
        {
            if handles[k].expert == p.expert {
                dev = handles[k].dev;
                found = true;
            } else {
                k += 1;
            }
        }
        push_le(&mut addresses, dev, 8);
        push_le(&mut weights, p.weight as u64, 4);
        i += 1;
    }
    (addresses, weights)
}

} // verus!
