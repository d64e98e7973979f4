//! Paging is lossless at any cache size: however few slots a layer has, each
//! entry of a step runs exactly the experts it picked.

use crate::steps::{
    is_union, picks_in, planned, wanted, wave_at, wave_count, work_of, work_views, Pick, Wave,
};
use vstd::multiset::Multiset;
use vstd::prelude::*;

verus! {

/// What an entry with these picks runs in the first `n` waves.
pub open spec fn run_in(picks: Seq<Pick>, waves: Seq<Wave>, n: nat) -> Multiset<Pick>
    decreases n,
{
    if n == 0 {
        Multiset::empty()
    } else {
        run_in(picks, waves, (n - 1) as nat).add(
            picks_in(picks, waves[n - 1].experts@).to_multiset(),
        )
    }
}

proof fn lemma_filter_step(s: Seq<Pick>, pred: spec_fn(Pick) -> bool)
    requires
        s.len() > 0,
    ensures
        s.filter(pred).to_multiset() == (if pred(s.last()) {
            s.drop_last().filter(pred).to_multiset().insert(s.last())
        } else {
            s.drop_last().filter(pred).to_multiset()
        }),
{
    reveal(Seq::filter);
    let front = s.drop_last().filter(pred);
    if pred(s.last()) {
        assert(s.filter(pred) == front.push(s.last()));
        front.to_multiset_ensures();
    }
}

/// Picks of either of two disjoint kinds are those of one and those of the
/// other.
proof fn lemma_filter_union(
    s: Seq<Pick>,
    a: spec_fn(Pick) -> bool,
    b: spec_fn(Pick) -> bool,
    c: spec_fn(Pick) -> bool,
)
    requires
        forall|p: Pick| #[trigger] c(p) <==> a(p) || b(p),
        forall|p: Pick| !(#[trigger] a(p) && b(p)),
    ensures
        s.filter(c).to_multiset() =~= s.filter(a).to_multiset().add(s.filter(b).to_multiset()),
    decreases s.len(),
{
    if s.len() == 0 {
        reveal(Seq::filter);
        s.filter(c).to_multiset_ensures();
        s.filter(a).to_multiset_ensures();
        s.filter(b).to_multiset_ensures();
        assert(s.filter(c) =~= Seq::<Pick>::empty());
        assert(s.filter(a) =~= Seq::<Pick>::empty());
        assert(s.filter(b) =~= Seq::<Pick>::empty());
    } else {
        lemma_filter_union(s.drop_last(), a, b, c);
        lemma_filter_step(s, a);
        lemma_filter_step(s, b);
        lemma_filter_step(s, c);
    }
}

proof fn lemma_filter_all(s: Seq<Pick>, pred: spec_fn(Pick) -> bool)
    requires
        forall|k: int| 0 <= k < s.len() ==> pred(#[trigger] s[k]),
    ensures
        s.filter(pred) == s,
    decreases s.len(),
{
    reveal(Seq::filter);
    if s.len() > 0 {
        lemma_filter_all(s.drop_last(), pred);
        assert(s.drop_last().push(s.last()) =~= s);
    } else {
        assert(s.filter(pred) =~= s);
    }
}

/// Where the first `n` waves end in the union.
pub open spec fn waves_end(len: nat, wave: nat, n: nat) -> nat {
    if n * wave <= len {
        n * wave
    } else {
        len
    }
}

proof fn lemma_run_in(
    picks: Seq<Pick>,
    union: Seq<u16>,
    wave: nat,
    waves: Seq<Wave>,
    n: nat,
)
    requires
        wave > 0,
        n <= waves.len(),
        forall|i: int, j: int| 0 <= i < j < union.len() ==> union[i] < union[j],
        forall|i: int|
            #![trigger waves[i]]
            0 <= i < waves.len() ==> waves[i].experts@ == wave_at(union, wave, i) && i * wave
                < union.len(),
    ensures
        run_in(picks, waves, n) == picks_in(
            picks,
            union.take(waves_end(union.len(), wave, n) as int),
        ).to_multiset(),
    decreases n,
{
    let end = waves_end(union.len(), wave, n) as int;
    let seen = union.take(end);
    if n == 0 {
        assert(0 * wave == 0) by (nonlinear_arith);
        assert(seen =~= Seq::<u16>::empty());
        let pred = |p: Pick| seen.contains(p.expert);
        lemma_filter_none(picks, pred);
        picks_in(picks, seen).to_multiset_ensures();
        assert(picks_in(picks, seen).to_multiset() =~= Multiset::<Pick>::empty());
    } else {
        let i = n - 1;
        lemma_run_in(picks, union, wave, waves, i as nat);
        let w = waves[i].experts@;
        let start = i * wave;
        assert(n * wave == start + wave) by (nonlinear_arith)
            requires
                n == i + 1,
                start == i * wave,
        ;
        let before = union.take(start);
        assert(waves_end(union.len(), wave, i as nat) == start);
        assert(w == union.subrange(start, end));
        assert forall|e: u16| #[trigger] seen.contains(e) <==> before.contains(e) || w.contains(
            e,
        ) by {
            if seen.contains(e) {
                let k = choose|k: int| 0 <= k < seen.len() && seen[k] == e;
                if k < start {
                    assert(before[k] == e);
                } else {
                    assert(w[k - start] == e);
                }
            }
            if before.contains(e) {
                let k = choose|k: int| 0 <= k < before.len() && before[k] == e;
                assert(seen[k] == e);
            }
            if w.contains(e) {
                let k = choose|k: int| 0 <= k < w.len() && w[k] == e;
                assert(seen[start + k] == e);
            }
        }
        assert forall|e: u16| !(#[trigger] before.contains(e) && w.contains(e)) by {
            if before.contains(e) && w.contains(e) {
                let a = choose|a: int| 0 <= a < before.len() && before[a] == e;
                let b = choose|b: int| 0 <= b < w.len() && w[b] == e;
                assert(union[a] < union[start + b]);
            }
        }
        lemma_filter_union(
            picks,
            |p: Pick| before.contains(p.expert),
            |p: Pick| w.contains(p.expert),
            |p: Pick| seen.contains(p.expert),
        );
    }
}

proof fn lemma_filter_none(s: Seq<Pick>, pred: spec_fn(Pick) -> bool)
    requires
        forall|p: Pick| !#[trigger] pred(p),
    ensures
        s.filter(pred) == Seq::<Pick>::empty(),
    decreases s.len(),
{
    reveal(Seq::filter);
    if s.len() > 0 {
        lemma_filter_none(s.drop_last(), pred);
    } else {
        assert(s.filter(pred) =~= Seq::<Pick>::empty());
    }
}

/// Whatever the number of slots, each entry runs exactly the experts it
/// picked, each with its weight and as often as it picked it.
pub proof fn law_paging_is_lossless(
    picks: Seq<Vec<Pick>>,
    union: Seq<u16>,
    wave: nat,
    waves: Seq<Wave>,
    t: int,
)
    requires
        wave > 0,
        is_union(picks, union),
        planned(picks, union, wave, waves),
        0 <= t < picks.len(),
    ensures
        run_in(picks[t]@, waves, waves.len()) == picks[t]@.to_multiset(),
{
    let n = waves.len();
    let c = union.len() as int;
    let w = wave as int;
    assert forall|i: int| #![trigger waves[i]] 0 <= i < waves.len() implies waves[i].experts@
        == wave_at(union, wave, i) && i * wave < union.len() by {
        crate::steps::lemma_wave_bounds(union.len(), wave, i);
    }
    lemma_run_in(picks[t]@, union, wave, waves, n);
    vstd::arithmetic::div_mod::lemma_fundamental_div_mod(c + w - 1, w);
    assert(n * w >= c) by (nonlinear_arith)
        requires
            c + w - 1 == w * ((c + w - 1) / w) + (c + w - 1) % w,
            (c + w - 1) % w < w,
            n == (c + w - 1) / w,
    ;
    assert(union.take(c) =~= union);
    assert forall|k: int| 0 <= k < picks[t]@.len() implies union.contains(
        (#[trigger] picks[t]@[k]).expert,
    ) by {
        assert(wanted(picks, picks[t]@[k].expert));
    }
    lemma_filter_all(picks[t]@, |p: Pick| union.contains(p.expert));
}

/// The shares that a wave's work lists are those: an entry is listed where its
/// share is not empty, with its share.
pub proof fn law_work_lists_every_share(
    picks: Seq<Vec<Pick>>,
    union: Seq<u16>,
    wave: nat,
    waves: Seq<Wave>,
    i: int,
    t: int,
)
    requires
        planned(picks, union, wave, waves),
        0 <= i < waves.len(),
        0 <= t < picks.len(),
    ensures
        ({
            let share = picks_in(picks[t]@, waves[i].experts@);
            let work = work_views(waves[i].work@);
            &&& share.len() > 0 ==> work.contains((t, share))
            &&& forall|k: int|
                #![trigger work[k]]
                0 <= k < work.len() && work[k].0 == t ==> work[k].1 == share && share.len() > 0
        }),
{
    lemma_work_of(picks, waves[i].experts@, picks.len(), t);
}

proof fn lemma_work_of(picks: Seq<Vec<Pick>>, experts: Seq<u16>, n: nat, t: int)
    requires
        n <= picks.len(),
        0 <= t,
    ensures
        ({
            let work = work_of(picks, experts, n);
            &&& t < n && picks_in(picks[t]@, experts).len() > 0 ==> work.contains(
                (t, picks_in(picks[t]@, experts)),
            )
            &&& forall|k: int|
                #![trigger work[k]]
                0 <= k < work.len() && work[k].0 == t ==> {
                    &&& t < n
                    &&& work[k].1 == picks_in(picks[t]@, experts)
                    &&& work[k].1.len() > 0
                }
        }),
    decreases n,
{
    if n > 0 {
        lemma_work_of(picks, experts, (n - 1) as nat, t);
        let before = work_of(picks, experts, (n - 1) as nat);
        let work = work_of(picks, experts, n);
        let share = picks_in(picks[n - 1]@, experts);
        if share.len() > 0 {
            assert(work == before.push((n - 1, share)));
            if t < n - 1 && before.contains((t, picks_in(picks[t]@, experts))) {
                let k = choose|k: int|
                    0 <= k < before.len() && before[k] == (t, picks_in(picks[t]@, experts));
                assert(work[k] == before[k]);
            }
            if t == n - 1 {
                assert(work[before.len() as int] == (t, share));
            }
            assert forall|k: int|
                #![trigger work[k]]
                0 <= k < work.len() && work[k].0 == t implies {
                &&& t < n
                &&& work[k].1 == picks_in(picks[t]@, experts)
                &&& work[k].1.len() > 0
            } by {
                if k < before.len() {
                    assert(work[k] == before[k]);
                }
            }
        }
    }
}

/// The first `n` waves of picks that are fetched in their own order.
pub open spec fn joined_waves(picks: Seq<Pick>, wave: nat, n: nat) -> Seq<Pick>
    decreases n,
{
    if n == 0 {
        Seq::empty()
    } else {
        joined_waves(picks, wave, (n - 1) as nat) + wave_at(picks, wave, n - 1)
    }
}

proof fn lemma_joined_waves(picks: Seq<Pick>, wave: nat, n: nat)
    requires
        wave > 0,
        n <= wave_count(picks.len(), wave),
    ensures
        joined_waves(picks, wave, n) == picks.take(waves_end(picks.len(), wave, n) as int),
    decreases n,
{
    let end = waves_end(picks.len(), wave, n) as int;
    if n == 0 {
        assert(0 * wave == 0) by (nonlinear_arith);
        assert(picks.take(0) =~= Seq::<Pick>::empty());
    } else {
        let i = n - 1;
        lemma_joined_waves(picks, wave, i as nat);
        crate::steps::lemma_wave_bounds(picks.len(), wave, i);
        assert(picks.take(i * wave) + wave_at(picks, wave, i) =~= picks.take(end));
    }
}

/// A single token that fetches its experts wave by wave runs all of them, in
/// the order in which it picked them.
pub proof fn law_pick_waves_are_lossless(picks: Seq<Pick>, wave: nat)
    requires
        wave > 0,
    ensures
        joined_waves(picks, wave, wave_count(picks.len(), wave)) == picks,
{
    let c = picks.len() as int;
    let w = wave as int;
    let n = wave_count(picks.len(), wave) as int;
    lemma_joined_waves(picks, wave, n as nat);
    vstd::arithmetic::div_mod::lemma_fundamental_div_mod(c + w - 1, w);
    assert(n * w >= c) by (nonlinear_arith)
        requires
            c + w - 1 == w * ((c + w - 1) / w) + (c + w - 1) % w,
            (c + w - 1) % w < w,
            n == (c + w - 1) / w,
    ;
    assert(picks.take(c) =~= picks);
}

} // verus!
