//! Sampling is repeatable: one seed and the same logits give the same tokens.

use crate::rank::{above, greatest, precedes, top_of};
use crate::rng::{seeded, xorshift};
use crate::sample::{candidate_count, drawn, nucleus_size, penalized_of, Sampling, ONE};
use vstd::prelude::*;

verus! {

/// The floating-point arithmetic between the decisions, as functions of bits.
pub struct Arithmetic {
    /// The logits once the given tokens are penalized.
    pub penalty: spec_fn(Seq<u32>, u32, Seq<u32>) -> Seq<u32>,
    /// The running sums of the softmax over candidates, at a temperature.
    pub sums: spec_fn(Seq<u32>, u32, Seq<usize>) -> Seq<u32>,
    /// The same of the first candidates alone, normalized once more.
    pub kept: spec_fn(Seq<u32>, u32, Seq<usize>, nat) -> Seq<u32>,
    /// 53 random bits as a number in [0, 1).
    pub unit: spec_fn(u64) -> u32,
}

/// `token` is drawn out of the candidates `idx`.
pub open spec fn drawn_from(
    f: Arithmetic,
    s: Sampling,
    logits: Seq<u32>,
    idx: Seq<usize>,
    bits: u64,
    token: u32,
) -> bool {
    let keep = nucleus_size(s.top_p, (f.sums)(logits, s.temperature, idx));
    let sums = if above(ONE, s.top_p) {
        (f.kept)(logits, s.temperature, idx, keep)
    } else {
        (f.sums)(logits, s.temperature, idx)
    };
    &&& top_of(logits, candidate_count(s, logits), idx)
    &&& token == idx[drawn(sums, (f.unit)(bits))] as u32
}

/// The logits as they count.
pub open spec fn adjusted_by(f: Arithmetic, s: Sampling, logits: Seq<u32>, recent: Seq<u32>) -> Seq<
    u32,
> {
    if s.repeat_penalty == ONE {
        logits
    } else {
        (f.penalty)(logits, s.repeat_penalty, penalized_of(s, recent))
    }
}

/// `token` comes out of the logits behind the tokens `recent`, and takes the
/// generator from state `x` to state `y`.
pub open spec fn sampled(
    f: Arithmetic,
    s: Sampling,
    logits: Seq<u32>,
    recent: Seq<u32>,
    x: u64,
    token: u32,
    y: u64,
) -> bool {
    let adjusted = adjusted_by(f, s, logits, recent);
    if s.spec_greedy() {
        greatest(adjusted, adjusted.len() as int, token as int) && y == x
    } else {
        &&& y == xorshift(x)
        &&& exists|idx: Seq<usize>| #[trigger]
            drawn_from(f, s, adjusted, idx, xorshift(x) / 2048, token)
    }
}

/// The tokens of a generation: each is sampled from the logits that the model
/// has behind those before it. `states` are those of the generator.
pub open spec fn generated(
    f: Arithmetic,
    s: Sampling,
    model: spec_fn(Seq<u32>) -> Seq<u32>,
    tokens: Seq<u32>,
    states: Seq<u64>,
) -> bool {
    &&& states.len() == tokens.len() + 1
    &&& states[0] == seeded(s.seed)
    &&& forall|i: int|
        #![trigger tokens[i]]
        0 <= i < tokens.len() ==> sampled(
            f,
            s,
            model(tokens.take(i)),
            tokens.take(i),
            states[i],
            tokens[i],
            states[i + 1],
        )
}

/// There is one greatest logit, the first where several are equal.
pub proof fn law_greatest_is_unique(logits: Seq<u32>, n: int, a: int, b: int)
    requires
        greatest(logits, n, a),
        greatest(logits, n, b),
    ensures
        a == b,
{
    if a < b {
        assert(!above(logits[b], logits[a]));
    } else if b < a {
        assert(!above(logits[a], logits[b]));
    }
}

proof fn lemma_first_to(nums: Seq<u32>, k: nat, a: Seq<usize>, b: Seq<usize>, i: int)
    requires
        nums.len() <= usize::MAX,
        top_of(nums, k, a),
        top_of(nums, k, b),
        0 <= i < a.len(),
        forall|j: int| 0 <= j < i ==> a[j] == b[j],
        a[i] != b[i],
    ensures
        precedes(nums, a[i] as int, b[i] as int),
{
    let u = b[i] as int;
    assert(nums[u] == nums[u]);
    if a.contains(b[i]) {
        let j = choose|j: int| 0 <= j < a.len() && a[j] == b[i];
        if j < i {
            assert(b[j] == b[i]);
            assert(precedes(nums, b[j] as int, b[i] as int));
            assert(!above(nums[u], nums[u]));
        }
        assert(i < j);
        assert(precedes(nums, a[i] as int, a[j] as int));
    }
}

/// There is one list of the greatest numbers.
pub proof fn law_top_is_unique(nums: Seq<u32>, k: nat, a: Seq<usize>, b: Seq<usize>)
    requires
        nums.len() <= usize::MAX,
        top_of(nums, k, a),
        top_of(nums, k, b),
    ensures
        a == b,
{
    lemma_tops_agree(nums, k, a, b, a.len());
    assert(a =~= b);
}

proof fn lemma_tops_agree(nums: Seq<u32>, k: nat, a: Seq<usize>, b: Seq<usize>, n: nat)
    requires
        nums.len() <= usize::MAX,
        top_of(nums, k, a),
        top_of(nums, k, b),
        n <= a.len(),
    ensures
        forall|j: int| 0 <= j < n ==> a[j] == b[j],
    decreases n,
{
    if n > 0 {
        let i = n - 1;
        lemma_tops_agree(nums, k, a, b, i as nat);
        if a[i] != b[i] {
            lemma_first_to(nums, k, a, b, i);
            lemma_first_to(nums, k, b, a, i);
        }
    }
}

/// A token and the state behind it follow from the settings, the logits, the
/// recent tokens and the state of the generator.
pub proof fn law_sampling_is_deterministic(
    f: Arithmetic,
    s: Sampling,
    logits: Seq<u32>,
    recent: Seq<u32>,
    x: u64,
    a: (u32, u64),
    b: (u32, u64),
)
    requires
        forall|l: Seq<u32>, p: u32, t: Seq<u32>| #[trigger]
            (f.penalty)(l, p, t).len() == l.len(),
        logits.len() <= usize::MAX,
        sampled(f, s, logits, recent, x, a.0, a.1),
        sampled(f, s, logits, recent, x, b.0, b.1),
    ensures
        a == b,
{
    let adjusted = adjusted_by(f, s, logits, recent);
    if s.spec_greedy() {
        law_greatest_is_unique(adjusted, adjusted.len() as int, a.0 as int, b.0 as int);
    } else {
        let bits = xorshift(x) / 2048;
        let i = choose|idx: Seq<usize>| #[trigger] drawn_from(f, s, adjusted, idx, bits, a.0);
        let j = choose|idx: Seq<usize>| #[trigger] drawn_from(f, s, adjusted, idx, bits, b.0);
        law_top_is_unique(adjusted, candidate_count(s, adjusted), i, j);
    }
}

/// A seed repeats a generation: two of the same length with the same settings
/// and the same model have the same tokens.
pub proof fn law_seed_repeats_a_generation(
    f: Arithmetic,
    s: Sampling,
    model: spec_fn(Seq<u32>) -> Seq<u32>,
    a: Seq<u32>,
    x: Seq<u64>,
    b: Seq<u32>,
    y: Seq<u64>,
)
    requires
        forall|l: Seq<u32>, p: u32, t: Seq<u32>| #[trigger]
            (f.penalty)(l, p, t).len() == l.len(),
        forall|t: Seq<u32>| #[trigger] model(t).len() <= usize::MAX,
        generated(f, s, model, a, x),
        generated(f, s, model, b, y),
        a.len() == b.len(),
    ensures
        a == b,
        x == y,
{
    lemma_generations_agree(f, s, model, a, x, b, y, a.len());
    assert(a.take(a.len() as int) =~= a);
    assert(b.take(a.len() as int) =~= b);
    assert(x.take((a.len() + 1) as int) =~= x);
    assert(y.take((a.len() + 1) as int) =~= y);
}

proof fn lemma_generations_agree(
    f: Arithmetic,
    s: Sampling,
    model: spec_fn(Seq<u32>) -> Seq<u32>,
    a: Seq<u32>,
    x: Seq<u64>,
    b: Seq<u32>,
    y: Seq<u64>,
    n: nat,
)
    requires
        forall|l: Seq<u32>, p: u32, t: Seq<u32>| #[trigger]
            (f.penalty)(l, p, t).len() == l.len(),
        forall|t: Seq<u32>| #[trigger] model(t).len() <= usize::MAX,
        generated(f, s, model, a, x),
        generated(f, s, model, b, y),
        n <= a.len(),
        n <= b.len(),
    ensures
        a.take(n as int) == b.take(n as int),
        x.take((n + 1) as int) == y.take((n + 1) as int),
    decreases n,
{
    if n > 0 {
        let i = n - 1;
        lemma_generations_agree(f, s, model, a, x, b, y, i as nat);
        assert(x.take(i + 1)[i] == x[i]);
        assert(y.take(i + 1)[i] == y[i]);
        law_sampling_is_deterministic(
            f,
            s,
            model(a.take(i)),
            a.take(i),
            x[i],
            (a[i], x[i + 1]),
            (b[i], y[i + 1]),
        );
        assert(a.take(n as int) =~= a.take(i).push(a[i]));
        assert(b.take(n as int) =~= b.take(i).push(b[i]));
        assert(x.take((n + 1) as int) =~= x.take(i + 1).push(x[i + 1]));
        assert(y.take((n + 1) as int) =~= y.take(i + 1).push(y[i + 1]));
    } else {
        assert(a.take(0) =~= b.take(0));
        assert(x.take(1) =~= y.take(1));
    }
}

} // verus!
