//! Token sampling: temperature / top-k / top-p / repetition penalty over the
//! final logits. Greedy (temperature 0) is the default everywhere: benchmarks
//! and perplexity need determinism.
//!
//! Numbers are the bits of `f32` values; what is decided here only compares
//! them.

use crate::rank::{above, is_above, is_nan, reaches, reaches_bound, top_k, top_of};
use vstd::prelude::*;

verus! {

/// The bits of 1.0.
pub const ONE: u32 = 0x3f80_0000;

/// How tokens are sampled.
#[derive(Debug, Clone, Copy)]
pub struct Sampling {
    /// 0.0 => greedy argmax (default).
    pub temperature: u32,
    /// Nucleus mass; 1.0 disables.
    pub top_p: u32,
    /// Candidate cap before top-p; 0 disables.
    pub top_k: usize,
    /// >1.0 penalizes recent tokens (positive logits divided, negative
    /// multiplied).
    pub repeat_penalty: u32,
    /// How many trailing tokens the penalty looks at.
    pub repeat_window: usize,
    pub seed: u64,
}

impl Default for Sampling {
    fn default() -> (s: Self)
        ensures
            s.temperature == 0,
            s.top_p == ONE,
            s.top_k == 0,
            s.repeat_penalty == ONE,
            s.repeat_window == 64,
            s.seed == 0x5eed,
    {
        Sampling {
            temperature: 0,
            top_p: ONE,
            top_k: 0,
            repeat_penalty: ONE,
            repeat_window: 64,
            seed: 0x5eed,
        }
    }
}

/// How a token comes out of the logits.
#[derive(Debug, Clone, Copy, PartialEq, Eq, Structural)]
pub enum Method {
    /// The greatest logit.
    Greedy,
    /// The greatest logit once recent tokens are penalized.
    PenalizedGreedy,
    /// Drawn from the candidates.
    Drawn,
}

/// The tokens whose logits are penalized.
pub open spec fn penalized_of(s: Sampling, recent: Seq<u32>) -> Seq<u32> {
    if s.repeat_penalty == ONE {
        Seq::empty()
    } else if recent.len() <= s.repeat_window {
        recent
    } else {
        recent.skip(recent.len() - s.repeat_window)
    }
}

/// How many candidates a draw has.
pub open spec fn candidate_count(s: Sampling, logits: Seq<u32>) -> nat {
    if s.top_k == 0 {
        logits.len()
    } else {
        s.top_k as nat
    }
}

impl Sampling {
    /// The temperature is not above 0.
    pub open spec fn spec_greedy(self) -> bool {
        reaches(0, self.temperature)
    }

    /// The greatest logit is taken.
    pub fn is_greedy(&self) -> (yes: bool)
        ensures
            yes == self.spec_greedy(),
    {
        reaches_bound(0, self.temperature)
    }

    /// How a token comes out of the logits.
    pub fn method(&self) -> (m: Method)
        ensures
            m == (if !self.spec_greedy() {
                Method::Drawn
            } else if self.repeat_penalty == ONE {
                Method::Greedy
            } else {
                Method::PenalizedGreedy
            }),
    {
        if !self.is_greedy() {
            Method::Drawn
        } else if self.repeat_penalty == ONE {
            Method::Greedy
        } else {
            Method::PenalizedGreedy
        }
    }

    /// The tokens whose logits are penalized, in order: the last
    /// `repeat_window`, unless the penalty is 1.
    pub fn penalized<'a>(&self, recent: &'a [u32]) -> (tokens: &'a [u32])
        ensures
            tokens@ == penalized_of(*self, recent@),
    {
        let start: usize = if self.repeat_penalty == ONE {
            recent.len()
        } else if recent.len() <= self.repeat_window {
            0
        } else {
            recent.len() - self.repeat_window
        };
        let (_, tokens) = recent.split_at(start);
        assert(tokens@ =~= recent@.skip(start as int));
        assert(recent@.skip(0) =~= recent@);
        tokens
    }

    /// The candidates of a draw, in descending order of their logits: at most
    /// `top_k` of them, unless that is 0.
    pub fn candidates(&self, logits: &[u32]) -> (idx: Vec<usize>)
        requires
            forall|i: int| 0 <= i < logits@.len() ==> !is_nan(#[trigger] logits@[i]),
        ensures
            top_of(logits@, candidate_count(*self, logits@), idx@),
    {
        let k: usize = if self.top_k == 0 {
            logits.len()
        } else {
            self.top_k
        };
        top_k(logits, k)
    }

    /// How many candidates the nucleus keeps. `sums` holds, for each
    /// candidate, the probability of it and of those before it: the first that
    /// reaches `top_p` is the last that stays.
    pub fn nucleus(&self, sums: &[u32]) -> (keep: usize)
        ensures
            keep == nucleus_size(self.top_p, sums@),
    {
        let n: usize = sums.len();
        if !is_above(ONE, self.top_p) {
            return n;
        }
        match first_reaching(sums, self.top_p) {
            Some(i) => i + 1,
            None => n,
        }
    }
}

/// The first of `sums`, from `i` on, that reaches `bound`.
pub open spec fn first_at_least(sums: Seq<u32>, bound: u32, i: nat) -> Option<nat>
    decreases sums.len() - i,
{
    if i >= sums.len() {
        None
    } else if reaches(sums[i as int], bound) {
        Some(i)
    } else {
        first_at_least(sums, bound, i + 1)
    }
}

/// How many candidates a nucleus of mass `top_p` keeps.
pub open spec fn nucleus_size(top_p: u32, sums: Seq<u32>) -> nat {
    if !above(ONE, top_p) {
        sums.len()
    } else {
        match first_at_least(sums, top_p, 0) {
            Some(i) => i + 1,
            None => sums.len(),
        }
    }
}

fn first_reaching(sums: &[u32], bound: u32) -> (at: Option<usize>)
    ensures
        match at {
            Some(i) => i < sums@.len() && first_at_least(sums@, bound, 0) == Some(i as nat),
            None => first_at_least(sums@, bound, 0) is None,
        },
{
    let mut i: usize = 0;
    while i < sums.len()
        invariant
            i <= sums@.len(),
            first_at_least(sums@, bound, 0) == first_at_least(sums@, bound, i as nat),
        decreases sums@.len() - i,
    {
        if reaches_bound(sums[i], bound) {
            return Some(i);
        }
        i += 1;
    }
    None
}

/// The first of `sums`, from `i` on, that is above `r`.
pub open spec fn first_above(sums: Seq<u32>, r: u32, i: nat) -> Option<nat>
    decreases sums.len() - i,
{
    if i >= sums.len() {
        None
    } else if above(sums[i as int], r) {
        Some(i)
    } else {
        first_above(sums, r, i + 1)
    }
}

/// Which of the candidates the number `r` draws.
pub open spec fn drawn(sums: Seq<u32>, r: u32) -> int {
    match first_above(sums, r, 0) {
        Some(i) => i as int,
        None => sums.len() - 1,
    }
}

/// The candidate that the number `r` draws: the first whose sum is above it,
/// the last if rounding left none.
pub fn draw(sums: &[u32], r: u32) -> (at: usize)
    requires
        sums@.len() > 0,
    ensures
        at == drawn(sums@, r),
{
    let mut i: usize = 0;
    while i < sums.len()
        invariant
            i <= sums@.len(),
            first_above(sums@, r, 0) == first_above(sums@, r, i as nat),
        decreases sums@.len() - i,
    {
        if is_above(sums[i], r) {
            return i;
        }
        i += 1;
    }
    sums.len() - 1
}

proof fn lemma_first_at_least(sums: Seq<u32>, bound: u32, i: nat)
    ensures
        match first_at_least(sums, bound, i) {
            Some(k) => i <= k < sums.len(),
            None => true,
        },
    decreases sums.len() - i,
{
    if i < sums.len() && !reaches(sums[i as int], bound) {
        lemma_first_at_least(sums, bound, i + 1);
    }
}

pub proof fn lemma_first_above(sums: Seq<u32>, r: u32, i: nat)
    ensures
        match first_above(sums, r, i) {
            Some(k) => i <= k < sums.len(),
            None => true,
        },
    decreases sums.len() - i,
{
    if i < sums.len() && !above(sums[i as int], r) {
        lemma_first_above(sums, r, i + 1);
    }
}

/// Sampling stays in its support: whatever number is drawn, the token is one
/// of the candidates that the nucleus keeps, so with a `top_k` one of the
/// `top_k` greatest logits.
pub proof fn law_draw_stays_in_support(
    s: Sampling,
    logits: Seq<u32>,
    idx: Seq<usize>,
    sums: Seq<u32>,
    r: u32,
)
    requires
        s.top_k > 0,
        top_of(logits, s.top_k as nat, idx),
        idx.len() > 0,
        sums.len() == idx.len(),
    ensures
        ({
            let keep = nucleus_size(s.top_p, sums);
            let kept = sums.take(keep as int);
            let at = match first_above(kept, r, 0) {
                Some(i) => i as int,
                None => kept.len() - 1,
            };
            &&& 0 < keep <= s.top_k
            &&& 0 <= at < keep
            &&& forall|u: int|
                #![trigger logits[u]]
                0 <= u < logits.len() && !idx.contains(u as usize) ==> !above(
                    logits[u],
                    logits[idx[at] as int],
                )
        }),
{
    lemma_first_at_least(sums, s.top_p, 0);
    let keep = nucleus_size(s.top_p, sums);
    let kept = sums.take(keep as int);
    lemma_first_above(kept, r, 0);
}

} // verus!
