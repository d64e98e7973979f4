//! How a token is chosen, and what a round of generation does with it.

use crate::generate::{active_count, active_entries, advanced, emitted, BatchStreamView};
use crate::rank::{above, is_nan, reaches};
use crate::sample::{
    candidate_count, drawn, first_above, first_at_least, nucleus_size, penalized_of, Sampling, ONE,
};
use vstd::prelude::*;

verus! {

/// Numbers compare as their bits say: positive ones as their bits do, negative
/// ones the other way round and below all positive ones, the two zeros as
/// equals, and what is no number is never above anything.
pub proof fn law_numbers_compare_by_their_bits(a: u32, b: u32)
    ensures
        b < a <= 0x7f80_0000 ==> above(a, b) && !above(b, a),
        0x8000_0000 <= a < b <= 0xff80_0000 ==> above(a, b) && !above(b, a),
        0 < a <= 0x7f80_0000 && 0x8000_0000 <= b <= 0xff80_0000 ==> above(a, b) && !above(b, a),
        !above(0, 0x8000_0000) && !above(0x8000_0000, 0),
        !above(a, a),
        0x7f80_0000 < a < 0x8000_0000 || a > 0xff80_0000 ==> is_nan(a) && !above(a, b)
            && !above(b, a)
            && !reaches(a, b) && !reaches(b, a),
        !is_nan(a) && !is_nan(b) ==> (reaches(a, b) <==> !above(b, a)),
{
}

/// A temperature of zero or below it is greedy, and any above it draws.
pub proof fn law_greedy_is_at_no_temperature(s: Sampling)
    ensures
        s.temperature == 0 || 0x8000_0000 <= s.temperature <= 0xff80_0000 ==> s.spec_greedy(),
        0 < s.temperature <= 0x7f80_0000 ==> !s.spec_greedy(),
{
}

/// The penalty looks at the trailing tokens, as many as its window has and the
/// context gives, and at none where it would change nothing.
pub proof fn law_penalty_looks_at_the_trailing_tokens(s: Sampling, recent: Seq<u32>, back: int)
    requires
        0 <= back,
    ensures
        ({
            let p = penalized_of(s, recent);
            &&& s.repeat_penalty == ONE ==> p.len() == 0
            &&& s.repeat_penalty != ONE ==> {
                &&& p.len() <= recent.len() && p.len() <= s.repeat_window
                &&& p.len() == recent.len() || p.len() == s.repeat_window
                &&& back < p.len() ==> p[p.len() - 1 - back] == recent[recent.len() - 1 - back]
            }
        }),
{
}

/// A draw has the candidates that `top_k` leaves, all logits where it leaves
/// all.
pub proof fn law_candidates_are_top_k(s: Sampling, logits: Seq<u32>)
    ensures
        s.top_k == 0 ==> candidate_count(s, logits) == logits.len(),
        s.top_k > 0 ==> candidate_count(s, logits) == s.top_k,
{
}

proof fn lemma_at_least(sums: Seq<u32>, bound: u32, i: nat)
    ensures
        match first_at_least(sums, bound, i) {
            Some(k) => i <= k < sums.len() && reaches(sums[k as int], bound) && forall|j: int|
                i <= j < k ==> !reaches(#[trigger] sums[j], bound),
            None => forall|j: int| i <= j < sums.len() ==> !reaches(#[trigger] sums[j], bound),
        },
    decreases sums.len() - i,
{
    if i < sums.len() && !reaches(sums[i as int], bound) {
        lemma_at_least(sums, bound, i + 1);
    }
}

/// The nucleus is the smallest front of the candidates that has the mass asked
/// for: what it keeps reaches the mass or is everything, and no shorter front
/// reaches it. A mass of one or more keeps everything.
pub proof fn law_nucleus_is_the_smallest(top_p: u32, sums: Seq<u32>)
    requires
        sums.len() > 0,
    ensures
        ({
            let keep = nucleus_size(top_p, sums);
            &&& 0 < keep <= sums.len()
            &&& keep < sums.len() ==> reaches(sums[keep - 1], top_p)
            &&& above(ONE, top_p) ==> forall|j: int|
                0 <= j < keep - 1 ==> !reaches(#[trigger] sums[j], top_p)
            &&& ONE <= top_p <= 0x7f80_0000 ==> keep == sums.len()
        }),
{
    lemma_at_least(sums, top_p, 0);
}

proof fn lemma_above(sums: Seq<u32>, r: u32, i: nat)
    ensures
        match first_above(sums, r, i) {
            Some(k) => i <= k < sums.len() && above(sums[k as int], r) && forall|j: int|
                i <= j < k ==> !above(#[trigger] sums[j], r),
            None => forall|j: int| i <= j < sums.len() ==> !above(#[trigger] sums[j], r),
        },
    decreases sums.len() - i,
{
    if i < sums.len() && !above(sums[i as int], r) {
        lemma_above(sums, r, i + 1);
    }
}

/// A number draws the candidate in whose share it falls: the sums before it are
/// not above the number, and its own is, unless none is and it is the last.
pub proof fn law_draw_falls_in_its_share(sums: Seq<u32>, r: u32)
    requires
        sums.len() > 0,
    ensures
        ({
            let at = drawn(sums, r);
            &&& 0 <= at < sums.len()
            &&& forall|j: int| 0 <= j < at ==> !above(#[trigger] sums[j], r)
            &&& above(sums[at], r) || at == sums.len() - 1
        }),
{
    lemma_above(sums, r, 0);
}

/// A stream of a batch emits its token unless the token ends the sequence or
/// the context is full; then it is done, and a stream that is done emits
/// nothing more.
pub proof fn law_streams_end_once(s: BatchStreamView, eos: Seq<u32>, max_seq: nat)
    ensures
        ({
            let e = emitted(s, eos, max_seq);
            &&& s.done ==> e == s
            &&& !s.done && !eos.contains(s.next) && s.pos < max_seq ==> !e.done && e.out
                == s.out.push(s.next)
            &&& !s.done && (eos.contains(s.next) || s.pos >= max_seq) ==> e.done && e.out == s.out
            &&& e.pos == s.pos && e.next == s.next
        }),
{
}

proof fn lemma_place_of_stream(streams: Seq<BatchStreamView>, n: nat, k: int)
    requires
        n <= streams.len() <= usize::MAX,
        0 <= k < active_entries(streams, n).len(),
    ensures
        active_entries(streams, n).len() == active_count(streams, n),
        ({
            let i = active_entries(streams, n)[k].seq as int;
            &&& 0 <= i < n
            &&& !streams[i].done
            &&& active_count(streams, i as nat) == k
        }),
    decreases n,
{
    lemma_counts(streams, n);
    let before = active_entries(streams, (n - 1) as nat);
    if k < before.len() {
        lemma_place_of_stream(streams, (n - 1) as nat, k);
    } else {
        lemma_counts(streams, (n - 1) as nat);
    }
}

proof fn lemma_counts(streams: Seq<BatchStreamView>, n: nat)
    ensures
        active_entries(streams, n).len() == active_count(streams, n),
    decreases n,
{
    if n > 0 {
        lemma_counts(streams, (n - 1) as nat);
    }
}

/// Every stream gets the token that was produced for it: what the step made of
/// entry `k` is the next token of the stream whose entry that was, one position
/// further on; streams that are done stay as they are.
pub proof fn law_streams_get_their_own_tokens(
    streams: Seq<BatchStreamView>,
    next: Seq<u32>,
    k: int,
    i: int,
)
    requires
        streams.len() <= usize::MAX,
        0 <= k < active_entries(streams, streams.len()).len(),
        next.len() == active_entries(streams, streams.len()).len(),
        0 <= i < streams.len(),
    ensures
        ({
            let t = active_entries(streams, streams.len())[k].seq as int;
            &&& advanced(streams, next, t).next == next[k]
            &&& advanced(streams, next, t).pos == streams[t].pos + 1
            &&& advanced(streams, next, t).out == streams[t].out
            &&& !advanced(streams, next, t).done
        }),
        streams[i].done ==> advanced(streams, next, i) == streams[i],
{
    lemma_place_of_stream(streams, streams.len(), k);
}

proof fn lemma_has_entry(streams: Seq<BatchStreamView>, n: nat, i: int)
    requires
        0 <= i < n <= streams.len() <= usize::MAX,
        !streams[i].done,
    ensures
        exists|k: int|
            0 <= k < active_entries(streams, n).len() && (#[trigger] active_entries(
                streams,
                n,
            )[k]).seq == i,
    decreases n,
{
    let before = active_entries(streams, (n - 1) as nat);
    let all = active_entries(streams, n);
    if i == n - 1 {
        assert(all[before.len() as int].seq == i);
    } else {
        lemma_has_entry(streams, (n - 1) as nat, i);
        let k = choose|k: int| 0 <= k < before.len() && (#[trigger] before[k]).seq == i;
        assert(all[k] == before[k]);
    }
}

/// No stream that goes on is left out of a round.
pub proof fn law_every_active_stream_runs(streams: Seq<BatchStreamView>, i: int)
    requires
        0 <= i < streams.len() <= usize::MAX,
        !streams[i].done,
        streams[i].pos <= usize::MAX,
    ensures
        exists|k: int|
            {
                let e = active_entries(streams, streams.len())[k];
                &&& 0 <= k < active_entries(streams, streams.len()).len()
                &&& (#[trigger] active_entries(streams, streams.len())[k]).seq == i
                &&& e.token == streams[i].next
                &&& e.pos == streams[i].pos
            },
{
    lemma_has_entry(streams, streams.len(), i);
    let all = active_entries(streams, streams.len());
    let k = choose|k: int| 0 <= k < all.len() && (#[trigger] all[k]).seq == i;
    lemma_entry_is_of_stream(streams, streams.len(), k);
    assert(all[k].seq == i);
}

proof fn lemma_entry_is_of_stream(streams: Seq<BatchStreamView>, n: nat, k: int)
    requires
        n <= streams.len() <= usize::MAX,
        0 <= k < active_entries(streams, n).len(),
    ensures
        ({
            let e = active_entries(streams, n)[k];
            &&& e.seq < n
            &&& e.token == streams[e.seq as int].next
            &&& streams[e.seq as int].pos <= usize::MAX ==> e.pos == streams[e.seq as int].pos
        }),
    decreases n,
{
    let before = active_entries(streams, (n - 1) as nat);
    if k < before.len() {
        lemma_entry_is_of_stream(streams, (n - 1) as nat, k);
    }
}

} // verus!
