//! Deterministic xorshift, so runs are repeatable without a rand dependency.

use crate::bytes::{le_bytes, lemma_le_bytes_len, push_le};
use vstd::prelude::*;

verus! {

/// One step of the generator.
pub open spec fn xorshift(x: u64) -> u64 {
    let a = x ^ (x << 13);
    let b = a ^ (a >> 7);
    b ^ (b << 17)
}

/// A state that is not 0 never becomes 0, so the generator never gets stuck.
pub proof fn law_xorshift_stays_nonzero(x: u64)
    requires
        x != 0,
    ensures
        xorshift(x) != 0,
{
    let a = x ^ (x << 13);
    let b = a ^ (a >> 7);
    assert(a != 0) by (bit_vector)
        requires
            x != 0,
            a == x ^ (x << 13),
    ;
    assert(b != 0) by (bit_vector)
        requires
            a != 0,
            b == a ^ (a >> 7),
    ;
    assert(b ^ (b << 17) != 0) by (bit_vector)
        requires
            b != 0,
    ;
}

fn advance(x: u64) -> (y: u64)
    ensures
        y == xorshift(x),
{
    let a: u64 = x ^ (x << 13);
    let b: u64 = a ^ (a >> 7);
    b ^ (b << 17)
}

/// The state that a seed starts from.
pub open spec fn seeded(seed: u64) -> u64 {
    if seed > 1 {
        seed
    } else {
        1
    }
}

/// A generator for workloads.
#[derive(Debug)]
pub struct Rng(u64);

impl Rng {
    pub closed spec fn view(self) -> u64 {
        self.0
    }

    pub fn new(seed: u64) -> (rng: Self)
        ensures
            rng@ == seeded(seed),
    {
        Rng(
            if seed > 1 {
                seed
            } else {
                1
            },
        )
    }

    pub fn next(&mut self) -> (x: u64)
        ensures
            x == xorshift(old(self)@),
            final(self)@ == x,
    {
        let x: u64 = advance(self.0);
        self.0 = x;
        x
    }

    pub fn below(&mut self, n: u64) -> (x: u64)
        requires
            n > 0,
        ensures
            x == xorshift(old(self)@) % n,
            final(self)@ == xorshift(old(self)@),
    {
        self.next() % n
    }

    /// The next 53 random bits; divided by 2^53 they are a number in [0, 1).
    pub fn unit_bits(&mut self) -> (bits: u64)
        ensures
            bits == xorshift(old(self)@) / 2048,
            bits < 0x20_0000_0000_0000,
            final(self)@ == xorshift(old(self)@),
    {
        self.next() / 2048
    }
}

/// A generator for sampling; one per generation stream.
#[derive(Debug)]
pub struct SampleRng(u64);

impl SampleRng {
    pub closed spec fn view(self) -> u64 {
        self.0
    }

    pub fn new(seed: u64) -> (rng: Self)
        ensures
            rng@ == seeded(seed),
    {
        SampleRng(
            if seed > 1 {
                seed
            } else {
                1
            },
        )
    }

    /// The generator of stream `stream` in a batch.
    pub fn for_stream(seed: u64, stream: usize) -> (rng: Self)
        ensures
            rng@ == seeded(((seed + stream as u64) % 0x1_0000_0000_0000_0000) as u64),
    {
        SampleRng::new(seed.wrapping_add(stream as u64))
    }

    /// The next 53 random bits; divided by 2^53 they are a number in [0, 1).
    pub fn unit_bits(&mut self) -> (bits: u64)
        ensures
            bits == xorshift(old(self)@) / 2048,
            bits < 0x20_0000_0000_0000,
            final(self)@ == xorshift(old(self)@),
    {
        let x: u64 = advance(self.0);
        self.0 = x;
        x / 2048
    }
}

/// The state after `n` steps.
pub open spec fn stepped(x: u64, n: nat) -> u64
    decreases n,
{
    if n == 0 {
        x
    } else {
        xorshift(stepped(x, (n - 1) as nat))
    }
}

/// The words of a synthetic blob: one random word after the other, each
/// changed by the blob's tag.
pub open spec fn pattern(x: u64, tag: u64, words: nat) -> Seq<u8>
    decreases words,
{
    if words == 0 {
        Seq::empty()
    } else {
        pattern(x, tag, (words - 1) as nat) + le_bytes((stepped(x, words) ^ tag) as nat, 8)
    }
}

/// How many words cover `bytes` bytes.
pub open spec fn words_for(bytes: nat) -> nat {
    (bytes + 7) / 8
}

/// Patterned, compressible-hostile filler for a synthetic pack. The last word
/// is cut where the blob ends.
pub fn synthetic_blob(rng: &mut Rng, tag: u64, bytes: usize) -> (blob: Vec<u8>)
    requires
        bytes <= usize::MAX - 8,
    ensures
        blob@ == pattern(old(rng)@, tag, words_for(bytes as nat)).take(bytes as int),
        final(rng)@ == stepped(old(rng)@, words_for(bytes as nat)),
{
    let mut blob: Vec<u8> = Vec::new();
    let words: usize = (bytes + 7) / 8;
    let mut i: usize = 0;
    while i < words
        invariant
            i <= words,
            words == words_for(bytes as nat),
            rng@ == stepped(old(rng)@, i as nat),
            blob@ == pattern(old(rng)@, tag, i as nat),
            blob@.len() == 8 * i,
        decreases words - i,
    {
        let w: u64 = rng.next() ^ tag;
        push_le(&mut blob, w, 8);
        proof {
            lemma_le_bytes_len(w as nat, 8);
        }
        i += 1;
    }
    blob.truncate(bytes);
    assert(blob@ =~= pattern(old(rng)@, tag, words_for(bytes as nat)).take(bytes as int));
    blob
}

/// The expert that position `h` of a layer's hot set stands for: the set is
/// spread over the ids of the layer.
pub fn hot_expert(h: u64, layer: u16, experts: u64) -> (e: u64)
    requires
        0 < experts <= 0xffff,
        h < experts,
    ensures
        e == (h * 2654435761 + layer * 97) % experts as int,
        e < experts,
{
    (h * 2654435761 + layer as u64 * 97) % experts
}

/// The candidate that a skewed routing draws in state `x`: with as many chances
/// in 2^53 as `cut` says one of the layer's hot set, else any expert.
pub open spec fn candidate_at(x: u64, layer: u16, experts: u64, cut: u64, hot_size: u64) -> u64 {
    let first = xorshift(x);
    let second = xorshift(first);
    let hot = if hot_size < experts {
        hot_size
    } else {
        experts
    };
    if first / 2048 < cut {
        ((second % hot * 2654435761 + layer * 97) % experts as int) as u64
    } else {
        second % experts
    }
}

/// A candidate of a skewed routing. Takes two numbers of the generator.
pub fn candidate(rng: &mut Rng, layer: u16, experts: u64, cut: u64, hot_size: u64) -> (e: u64)
    requires
        0 < experts <= 0xffff,
        hot_size > 0,
    ensures
        final(rng)@ == xorshift(xorshift(old(rng)@)),
        e == candidate_at(old(rng)@, layer, experts, cut, hot_size),
        e < experts,
{
    if rng.unit_bits() < cut {
        let hot: u64 = if hot_size < experts {
            hot_size
        } else {
            experts
        };
        let h: u64 = rng.below(hot);
        hot_expert(h, layer, experts)
    } else {
        rng.below(experts)
    }
}

/// The distinct candidates of the first `draws` draws from state `x`, in the
/// order drawn, and the state behind them. Drawing ends with `k` of them.
pub open spec fn routed(
    x: u64,
    layer: u16,
    experts: u64,
    cut: u64,
    hot_size: u64,
    k: nat,
    draws: nat,
) -> (Seq<u16>, u64)
    decreases draws,
{
    if draws == 0 {
        (Seq::empty(), x)
    } else {
        let (chosen, y) = routed(x, layer, experts, cut, hot_size, k, (draws - 1) as nat);
        let e = candidate_at(y, layer, experts, cut, hot_size) as u16;
        if chosen.len() >= k {
            (chosen, y)
        } else if chosen.contains(e) {
            (chosen, xorshift(xorshift(y)))
        } else {
            (chosen.push(e), xorshift(xorshift(y)))
        }
    }
}

proof fn lemma_routed_ends(
    x: u64,
    layer: u16,
    experts: u64,
    cut: u64,
    hot_size: u64,
    k: nat,
    n: nat,
    draws: nat,
)
    requires
        n <= draws,
        routed(x, layer, experts, cut, hot_size, k, n).0.len() >= k,
    ensures
        routed(x, layer, experts, cut, hot_size, k, draws) == routed(
            x,
            layer,
            experts,
            cut,
            hot_size,
            k,
            n,
        ),
    decreases draws,
{
    if n < draws {
        lemma_routed_ends(x, layer, experts, cut, hot_size, k, n, (draws - 1) as nat);
    }
}

/// `k` distinct experts of a skewed routing, as far as `draws` draws give them.
pub fn route(
    rng: &mut Rng,
    layer: u16,
    experts: u64,
    cut: u64,
    hot_size: u64,
    k: usize,
    draws: u64,
) -> (chosen: Vec<u16>)
    requires
        0 < experts <= 0xffff,
        hot_size > 0,
    ensures
        (chosen@, final(rng)@) == routed(
            old(rng)@,
            layer,
            experts,
            cut,
            hot_size,
            k as nat,
            draws as nat,
        ),
        chosen@.no_duplicates(),
        chosen@.len() <= k,
        forall|i: int| 0 <= i < chosen@.len() ==> #[trigger] chosen@[i] < experts,
{
    let mut chosen: Vec<u16> = Vec::new();
    let mut n: u64 = 0;
    while n < draws && chosen.len() < k
        invariant
            0 < experts <= 0xffff,
            hot_size > 0,
            n <= draws,
            (chosen@, rng@) == routed(
                old(rng)@,
                layer,
                experts,
                cut,
                hot_size,
                k as nat,
                n as nat,
            ),
            chosen@.no_duplicates(),
            chosen@.len() <= k,
            forall|i: int| 0 <= i < chosen@.len() ==> #[trigger] chosen@[i] < experts,
        decreases draws - n,
    {
        let e: u16 = candidate(rng, layer, experts, cut, hot_size) as u16;
        if !drawn(chosen.as_slice(), e) {
            chosen.push(e);
        }
        n += 1;
    }
    proof {
        if chosen@.len() >= k {
            lemma_routed_ends(
                old(rng)@,
                layer,
                experts,
                cut,
                hot_size,
                k as nat,
                n as nat,
                draws as nat,
            );
        }
    }
    chosen
}

fn drawn(chosen: &[u16], e: u16) -> (yes: bool)
    ensures
        yes == chosen@.contains(e),
{
    let mut i: usize = 0;
    while i < chosen.len()
        invariant
            i <= chosen@.len(),
            forall|j: int| 0 <= j < i ==> chosen@[j] != e,
        decreases chosen@.len() - i,
    {
        if chosen[i] == e {
            assert(chosen@[i as int] == e);
            return true;
        }
        i += 1;
    }
    false
}

} // verus!
