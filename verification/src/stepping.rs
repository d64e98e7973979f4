//! Which steps run, and on what: entries that the context has room for, and
//! picks that are worth their fetch.

use crate::any::{decay_of, goes_on, AnyDecoder, Plan, Resize, ResizeStage, ResizeStep};
use crate::buffers::{lanes_apart, law_kimi_lanes_are_apart, law_lanes_are_apart};
use crate::decode::CHUNK_CAP;
use crate::flags::{flag_in, flag_value};
use crate::kimi::{leading_dense, KimiLayer};
use crate::program::{ProgramView, Stage};
use crate::rank::{above, reaches};
use crate::steps::{entry_fault, first_fault, heavy_picks, run_of, Entry, Pick, StepError};
use crate::text::lemma_first_index;
use vstd::prelude::*;
use vstd::string::*;

verus! {

proof fn lemma_faults(entries: Seq<Entry>, max_seq: usize, batch_cap: usize, i: nat)
    ensures
        match first_fault(entries, max_seq, batch_cap, i) {
            None => forall|k: int|
                i <= k < entries.len() ==> (#[trigger] entries[k]).pos < max_seq && entries[k].seq
                    < batch_cap,
            Some(e) => exists|k: int|
                {
                    &&& i <= k < entries.len()
                    &&& entry_fault(#[trigger] entries[k], max_seq, batch_cap) == Some(e)
                    &&& forall|j: int|
                        i <= j < k ==> (#[trigger] entries[j]).pos < max_seq && entries[j].seq
                            < batch_cap
                },
        },
    decreases entries.len() - i,
{
    if i < entries.len() {
        if entry_fault(entries[i as int], max_seq, batch_cap) is None {
            lemma_faults(entries, max_seq, batch_cap, i + 1);
        } else {
            let e = entries[i as int];
        }
    }
}

/// A step is refused for its entries exactly where one of them is at a position
/// behind the context or on a slot that there is not, and for the first such:
/// for its position where that is wrong, else for its slot.
pub proof fn law_entries_must_have_room(entries: Seq<Entry>, max_seq: usize, batch_cap: usize)
    ensures
        first_fault(entries, max_seq, batch_cap, 0) is None <==> forall|k: int|
            0 <= k < entries.len() ==> (#[trigger] entries[k]).pos < max_seq && entries[k].seq
                < batch_cap,
        first_fault(entries, max_seq, batch_cap, 0) matches Some(e) ==> exists|k: int|
            {
                &&& 0 <= k < entries.len()
                &&& e == (if (#[trigger] entries[k]).pos >= max_seq {
                    StepError::Position { pos: entries[k].pos }
                } else {
                    StepError::SequenceSlot { seq: entries[k].seq }
                })
                &&& entries[k].pos >= max_seq || entries[k].seq >= batch_cap
                &&& forall|j: int|
                    0 <= j < k ==> (#[trigger] entries[j]).pos < max_seq && entries[j].seq
                        < batch_cap
            },
{
    lemma_faults(entries, max_seq, batch_cap, 0);
    match first_fault(entries, max_seq, batch_cap, 0) {
        Some(e) => {
            let k = choose|k: int|
                {
                    &&& 0 <= k < entries.len()
                    &&& entry_fault(#[trigger] entries[k], max_seq, batch_cap) == Some(e)
                    &&& forall|j: int|
                        0 <= j < k ==> (#[trigger] entries[j]).pos < max_seq && entries[j].seq
                            < batch_cap
                };
            assert(entries[k].pos >= max_seq || entries[k].seq >= batch_cap);
        },
        None => {},
    }
}

/// A run of tokens is one entry for each, in order, at consecutive positions of
/// one slot.
pub proof fn law_runs_are_consecutive(tokens: Seq<u32>, start: nat, seq: usize, i: int)
    requires
        start + tokens.len() <= usize::MAX,
        0 <= i < tokens.len(),
    ensures
        run_of(tokens, start, seq).len() == tokens.len(),
        run_of(tokens, start, seq)[i].token == tokens[i],
        run_of(tokens, start, seq)[i].pos == start + i,
        run_of(tokens, start, seq)[i].seq == seq,
{
}

proof fn lemma_heavy(picks: Seq<Pick>, min: u32, n: nat, p: Pick)
    requires
        n <= picks.len(),
    ensures
        heavy_picks(picks, min, n).len() <= n,
        heavy_picks(picks, min, n).contains(p) <==> (exists|i: int|
            0 <= i < n && #[trigger] picks[i] == p) && (!above(min, 0) || reaches(p.weight, min)),
        !above(min, 0) ==> heavy_picks(picks, min, n) == picks.take(n as int),
    decreases n,
{
    if n > 0 {
        let m = (n - 1) as nat;
        lemma_heavy(picks, min, m, p);
        let before = heavy_picks(picks, min, m);
        let all = heavy_picks(picks, min, n);
        let last = picks[n - 1];
        assert(picks.take(n as int) =~= picks.take(m as int).push(last));
        assert(before.push(last).contains(p) <==> before.contains(p) || last == p) by {
            if before.contains(p) {
                let i = choose|i: int| 0 <= i < before.len() && before[i] == p;
                assert(before.push(last)[i] == p);
            }
            if last == p {
                assert(before.push(last)[before.len() as int] == p);
            }
            if before.push(last).contains(p) && last != p {
                let i = choose|i: int| 0 <= i < before.push(last).len()
                    && before.push(last)[i] == p;
                assert(before[i] == p);
            }
        }
        if exists|i: int| 0 <= i < n && #[trigger] picks[i] == p {
            let i = choose|i: int| 0 <= i < n && #[trigger] picks[i] == p;
            if i < m {
                assert(picks[i] == p);
            }
        }
    } else {
        assert(heavy_picks(picks, min, n) =~= picks.take(0));
    }
}

/// A bound on weights drops exactly the picks under it; no bound drops none.
pub proof fn law_light_picks_are_dropped(picks: Seq<Pick>, min: u32, p: Pick)
    ensures
        !above(min, 0) ==> heavy_picks(picks, min, picks.len()) == picks,
        above(min, 0) ==> (heavy_picks(picks, min, picks.len()).contains(p) <==> picks.contains(p)
            && reaches(p.weight, min)),
{
    lemma_heavy(picks, min, picks.len(), p);
    assert(picks.take(picks.len() as int) =~= picks);
    if picks.contains(p) {
        let i = choose|i: int| 0 <= i < picks.len() && picks[i] == p;
        assert(picks[i] == p);
    }
}

/// A step starts at its opening, with exactly the entries it is given, and goes
/// through all layers of the model there is.
pub proof fn law_steps_run_the_whole_model(
    d: AnyDecoder,
    p: ProgramView,
    single: bool,
    entries: Seq<Entry>,
    wave: usize,
    want_logits: bool,
)
    requires
        d.begins(p, single, entries, wave, want_logits),
    ensures
        p.stage == Stage::Opening,
        p.entries == entries,
        p.single == single,
        p.wave == wave,
        p.want_logits == want_logits,
        match d.plan {
            Plan::Qwen(q) => p.layers == q.core.layers@.len() && p.family is Qwen,
            Plan::Kimi(k) => p.layers == k.layers@.len() && p.family is Kimi,
        },
{
}

proof fn lemma_leading(layers: Seq<KimiLayer>, i: nat)
    requires
        i <= layers.len(),
    ensures
        ({
            let n = i + leading_dense(layers, i);
            &&& n <= layers.len()
            &&& forall|l: int| i <= l < n ==> (#[trigger] layers[l]).ffn is Dense
            &&& n < layers.len() ==> !(layers[n as int].ffn is Dense)
        }),
    decreases layers.len() - i,
{
    if i < layers.len() && layers[i as int].ffn is Dense {
        lemma_leading(layers, i + 1);
    }
}

/// The dense layers of a Kimi model are those at its front, up to the first that
/// is not.
pub proof fn law_dense_layers_lead(layers: Seq<KimiLayer>)
    ensures
        ({
            let n = leading_dense(layers, 0);
            &&& n <= layers.len()
            &&& forall|l: int| 0 <= l < n ==> (#[trigger] layers[l]).ffn is Dense
            &&& n < layers.len() ==> !(layers[n as int].ffn is Dense)
        }),
{
    lemma_leading(layers, 0);
}

/// The entries of a step have lanes of their own: what one entry's kernels write
/// to its hidden state, its normed copy and its router's logits, no other's
/// touch.
pub proof fn law_entries_have_lanes_of_their_own(d: AnyDecoder, s: int, t: int)
    requires
        d.wf(),
        0 <= s < t < CHUNK_CAP,
    ensures
        match d.plan {
            Plan::Qwen(q) => lanes_apart(
                d.lane_at(false, s),
                d.lane_at(false, t),
                q.bufs.h_buf + 64 * (4 * q.dims.hidden),
                q.bufs.hn_buf + 64 * (4 * q.dims.hidden),
                q.bufs.router_buf + 64 * (4 * q.dims.experts),
                q.dims.hidden,
                q.dims.experts,
            ),
            Plan::Kimi(k) => lanes_apart(
                d.lane_at(false, s),
                d.lane_at(false, t),
                k.bufs.h_buf + 64 * (4 * k.dims.hidden),
                k.bufs.hn_buf + 64 * (4 * k.dims.hidden),
                k.bufs.router_buf + 64 * (4 * k.dims.experts),
                k.dims.hidden,
                k.dims.experts,
            ),
        },
{
    match d.plan {
        Plan::Qwen(q) => law_lanes_are_apart(q, s as nat, t as nat),
        Plan::Kimi(k) => law_kimi_lanes_are_apart(k, s as nat, t as nat),
    }
}

/// A cache's counters are halved after as many insertions as fill a layer's
/// slots four times, and never after fewer than 64.
pub proof fn law_caches_age_slowly(slots: nat)
    ensures
        decay_of(slots) >= 64,
        decay_of(slots) >= 4 * slots,
        decay_of(slots) == 64 || decay_of(slots) == 4 * slots,
{
}

/// A resize is tried once as wanted; where that fails the size before it is
/// restored, with no reserve; where that fails too the cache is lost. Success
/// says which of the two sizes there is now.
pub proof fn law_resize_falls_back(r: Resize, ok: bool, step: ResizeStep, after: Resize)
    requires
        goes_on(r, ok, step, after),
    ensures
        r.stage == ResizeStage::Wanted && ok ==> step == ResizeStep::Resized,
        r.stage == ResizeStage::Wanted && !ok ==> step == (ResizeStep::Build {
            slots: r.previous,
            reserve: 0,
        }) && after.stage == ResizeStage::Restoring && after.previous == r.previous,
        r.stage == ResizeStage::Restoring && ok ==> step == ResizeStep::KeptPrevious,
        r.stage == ResizeStage::Restoring && !ok ==> step == ResizeStep::Lost,
        !(step is Build) ==> after.stage == ResizeStage::Ended,
{
}

/// An argument `--key=value` is the flag `key` with that value, also where the
/// value has more equals signs in it.
pub proof fn law_flags_are_key_and_value(key: Seq<char>, value: Seq<char>)
    requires
        forall|i: int| 0 <= i < key.len() ==> #[trigger] key[i] != '=',
    ensures
        flag_in("--"@ + key + seq!['='] + value) == Some((key, value)),
{
    let arg = "--"@ + key + seq!['='] + value;
    let p = "--"@;
    let rest = key + seq!['='] + value;
    assert(arg.take(p.len() as int) =~= p);
    assert(arg.skip(p.len() as int) =~= rest);
    lemma_first_index(rest, '=', key.len() as int);
    assert(rest.take(key.len() as int) =~= key);
    assert(rest.skip(key.len() as int + 1) =~= value);
}

proof fn lemma_flag_value(flags: Seq<(Seq<char>, Seq<char>)>, key: Seq<char>, i: nat)
    ensures
        match flag_value(flags, key, i) {
            Some(v) => exists|k: int|
                i <= k < flags.len() && #[trigger] flags[k] == (key, v) && forall|j: int|
                    i <= j < k ==> (#[trigger] flags[j]).0 != key,
            None => forall|k: int| i <= k < flags.len() ==> (#[trigger] flags[k]).0 != key,
        },
    decreases flags.len() - i,
{
    if i < flags.len() {
        if flags[i as int].0 == key {
            assert(flags[i as int] == (key, flags[i as int].1));
        } else {
            lemma_flag_value(flags, key, i + 1);
        }
    }
}

/// The value of a flag is that of the first flag of its name, and there is none
/// exactly where no flag has the name.
pub proof fn law_first_flag_counts(flags: Seq<(Seq<char>, Seq<char>)>, key: Seq<char>)
    ensures
        flag_value(flags, key, 0) is None <==> forall|k: int|
            0 <= k < flags.len() ==> (#[trigger] flags[k]).0 != key,
        flag_value(flags, key, 0) matches Some(v) ==> exists|k: int|
            0 <= k < flags.len() && #[trigger] flags[k] == (key, v) && forall|j: int|
                0 <= j < k ==> (#[trigger] flags[j]).0 != key,
{
    lemma_flag_value(flags, key, 0);
}

} // verus!
