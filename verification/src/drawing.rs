//! One token out of the logits, in steps: what compares numbers is decided here,
//! and where a step asks for arithmetic on them, the caller does it and hands
//! the result to the next step.

use crate::rank::{above, any_nan, argmax, greatest, is_above, is_nan, top_of};
use crate::repeatable::{adjusted_by, drawn_from, sampled, Arithmetic};
use crate::rng::{xorshift, SampleRng};
use crate::sample::{candidate_count, draw, drawn, nucleus_size, penalized_of, Sampling, ONE};
use vstd::prelude::*;

verus! {

/// What sampling needs next.
#[derive(Debug)]
pub enum SampleStep {
    /// The token is this one.
    Token(u32),
    /// Penalize the logits of these tokens, in order, then call `adjusted`.
    Penalize { tokens: Vec<u32> },
    /// Sum up the softmax over these candidates, one running sum for each, then
    /// call `weighed`.
    Weigh { idx: Vec<usize> },
    /// Do the same for the first `keep` of them, normalized once more, then
    /// call `renormalized`.
    Renormalize { keep: usize },
    /// Divide these bits by 2^53, then call `picked`.
    Unit { bits: u64 },
    /// There are no logits, or one is not a number.
    NotNumbers,
}

/// Sampling of one token.
#[derive(Debug)]
pub struct Sampler {
    s: Sampling,
    idx: Vec<usize>,
    sums: Vec<u32>,
}

/// Sampling of one token, mathematically: the settings, the candidates and
/// their sums.
pub struct SamplerView {
    pub s: Sampling,
    pub idx: Seq<usize>,
    pub sums: Seq<u32>,
}

/// What follows once the logits are as they count.
pub open spec fn follows_logits(
    s: Sampling,
    logits: Seq<u32>,
    after: SamplerView,
    step: SampleStep,
) -> bool {
    &&& after.s == s
    &&& if s.spec_greedy() {
        step matches SampleStep::Token(t) && greatest(logits, logits.len() as int, t as int)
    } else if logits.len() == 0 || exists|i: int| 0 <= i < logits.len() && is_nan(
        #[trigger] logits[i],
    ) {
        step == SampleStep::NotNumbers
    } else {
        &&& step matches SampleStep::Weigh { idx }
        &&& idx@ == after.idx
        &&& top_of(logits, candidate_count(s, logits), after.idx)
        &&& after.idx.len() > 0
    }
}

/// How sampling starts.
pub open spec fn starts(
    s: Sampling,
    logits: Seq<u32>,
    recent: Seq<u32>,
    after: SamplerView,
    step: SampleStep,
) -> bool {
    if s.repeat_penalty == ONE {
        follows_logits(s, logits, after, step)
    } else {
        &&& after.s == s
        &&& step matches SampleStep::Penalize { tokens }
        &&& tokens@ == penalized_of(s, recent)
    }
}

/// What follows once the sums to draw from are known: a number is drawn.
pub open spec fn follows_sums(
    before: SamplerView,
    sums: Seq<u32>,
    x: u64,
    after: SamplerView,
    step: SampleStep,
    y: u64,
) -> bool {
    &&& after == (SamplerView { sums, ..before })
    &&& y == xorshift(x)
    &&& step == (SampleStep::Unit { bits: xorshift(x) / 2048 })
}

/// What follows once the candidates have been summed up.
pub open spec fn follows_weights(
    before: SamplerView,
    sums: Seq<u32>,
    x: u64,
    after: SamplerView,
    step: SampleStep,
    y: u64,
) -> bool {
    if above(ONE, before.s.top_p) {
        &&& after == before
        &&& y == x
        &&& step matches SampleStep::Renormalize { keep }
        &&& keep == nucleus_size(before.s.top_p, sums)
    } else {
        follows_sums(before, sums, x, after, step, y)
    }
}

fn copy(list: &Vec<usize>) -> (copy: Vec<usize>)
    ensures
        copy@ == list@,
{
    let mut copy: Vec<usize> = Vec::new();
    let mut i: usize = 0;
    while i < list.len()
        invariant
            i <= list@.len(),
            copy@ == list@.take(i as int),
        decreases list@.len() - i,
    {
        copy.push(list[i]);
        i += 1;
        assert(copy@ =~= list@.take(i as int));
    }
    assert(copy@ =~= list@);
    copy
}

fn copy_tokens(list: &[u32]) -> (copy: Vec<u32>)
    ensures
        copy@ == list@,
{
    let mut copy: Vec<u32> = Vec::new();
    let mut i: usize = 0;
    while i < list.len()
        invariant
            i <= list@.len(),
            copy@ == list@.take(i as int),
        decreases list@.len() - i,
    {
        copy.push(list[i]);
        i += 1;
        assert(copy@ =~= list@.take(i as int));
    }
    assert(copy@ =~= list@);
    copy
}

impl Sampler {
    pub closed spec fn view(self) -> SamplerView {
        SamplerView { s: self.s, idx: self.idx@, sums: self.sums@ }
    }

    /// Starts to sample a token behind the tokens `recent`.
    pub fn start(s: &Sampling, logits: &[u32], recent: &[u32]) -> (r: (Self, SampleStep))
        requires
            logits@.len() <= u32::MAX,
        ensures
            starts(*s, logits@, recent@, r.0@, r.1),
    {
        let mut sampler = Sampler { s: *s, idx: Vec::new(), sums: Vec::new() };
        if s.repeat_penalty == ONE {
            let step: SampleStep = sampler.adjusted(logits);
            (sampler, step)
        } else {
            let tokens: Vec<u32> = copy_tokens(s.penalized(recent));
            (sampler, SampleStep::Penalize { tokens })
        }
    }

    /// Goes on with the logits as they count.
    pub fn adjusted(&mut self, logits: &[u32]) -> (step: SampleStep)
        requires
            logits@.len() <= u32::MAX,
        ensures
            follows_logits(old(self)@.s, logits@, final(self)@, step),
    {
        if self.s.is_greedy() {
            return SampleStep::Token(argmax(logits));
        }
        if logits.len() == 0 || any_nan(logits) {
            return SampleStep::NotNumbers;
        }
        self.idx = self.s.candidates(logits);
        SampleStep::Weigh { idx: copy(&self.idx) }
    }

    /// Goes on with the running sums of all candidates.
    pub fn weighed(&mut self, sums: Vec<u32>, rng: &mut SampleRng) -> (step: SampleStep)
        ensures
            follows_weights(old(self)@, sums@, old(rng)@, final(self)@, step, final(rng)@),
    {
        if is_above(ONE, self.s.top_p) {
            SampleStep::Renormalize { keep: self.s.nucleus(sums.as_slice()) }
        } else {
            self.renormalized(sums, rng)
        }
    }

    /// Goes on with the running sums of the candidates that are kept.
    pub fn renormalized(&mut self, sums: Vec<u32>, rng: &mut SampleRng) -> (step: SampleStep)
        ensures
            follows_sums(old(self)@, sums@, old(rng)@, final(self)@, step, final(rng)@),
    {
        self.sums = sums;
        SampleStep::Unit { bits: rng.unit_bits() }
    }

    /// The token that the number `r` picks.
    pub fn picked(&self, r: u32) -> (token: u32)
        requires
            0 < self@.sums.len() <= self@.idx.len(),
        ensures
            token == self@.idx[drawn(self@.sums, r)] as u32,
    {
        proof {
            crate::sample::lemma_first_above(self.sums@, r, 0);
        }
        let at: usize = draw(self.sums.as_slice(), r);
        self.idx[at] as u32
    }
}

/// How sampling starts fixes what logits count: those given, or those that are
/// handed to the next step once the tokens that it names are penalized.
pub proof fn law_start_asks_for_penalty(
    f: Arithmetic,
    s: Sampling,
    logits: Seq<u32>,
    recent: Seq<u32>,
    after: SamplerView,
    step: SampleStep,
)
    requires
        starts(s, logits, recent, after, step),
    ensures
        match step {
            SampleStep::Penalize { tokens } => adjusted_by(f, s, logits, recent) == (f.penalty)(
                logits,
                s.repeat_penalty,
                tokens@,
            ),
            _ => follows_logits(s, adjusted_by(f, s, logits, recent), after, step),
        },
{
}

/// The steps sample a token: where the caller's arithmetic is `f`, the token and
/// the state of the generator behind it are those that `f`, the settings, the
/// logits, the recent tokens and the state before it determine. `first` is what
/// follows the logits, `second` what follows the sums of the candidates, and
/// `last` what follows the sums that are drawn from.
pub proof fn law_steps_sample(
    f: Arithmetic,
    s: Sampling,
    logits: Seq<u32>,
    recent: Seq<u32>,
    x: u64,
    first: (SamplerView, SampleStep),
    second: (SamplerView, SampleStep, u64),
    last: (SamplerView, SampleStep, u64),
    token: u32,
    y: u64,
)
    requires
        ({
            let adjusted = adjusted_by(f, s, logits, recent);
            let idx = first.0.idx;
            &&& follows_logits(s, adjusted, first.0, first.1)
            &&& match first.1 {
                SampleStep::Token(t) => token == t && y == x,
                SampleStep::Weigh { idx: _ } => {
                    &&& follows_weights(
                        first.0,
                        (f.sums)(adjusted, s.temperature, idx),
                        x,
                        second.0,
                        second.1,
                        second.2,
                    )
                    &&& match second.1 {
                        SampleStep::Renormalize { keep } => follows_sums(
                            second.0,
                            (f.kept)(adjusted, s.temperature, idx, keep as nat),
                            second.2,
                            last.0,
                            last.1,
                            last.2,
                        ),
                        _ => last == second,
                    }
                    &&& last.1 matches SampleStep::Unit { bits }
                    &&& token == last.0.idx[drawn(last.0.sums, (f.unit)(bits))] as u32
                    &&& y == last.2
                },
                _ => false,
            }
        }),
    ensures
        sampled(f, s, logits, recent, x, token, y),
{
    let adjusted = adjusted_by(f, s, logits, recent);
    if !s.spec_greedy() {
        assert(drawn_from(f, s, adjusted, first.0.idx, xorshift(x) / 2048, token));
    }
}

} // verus!
