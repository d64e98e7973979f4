//! Little-endian integers in byte buffers.

use vstd::prelude::*;

verus! {

/// How many numbers `k` bytes can write: 256^k.
pub open spec fn span_of(k: nat) -> nat
    decreases k,
{
    if k == 0 {
        1
    } else {
        256 * span_of((k - 1) as nat)
    }
}

/// The number that `s` writes, least significant byte first.
pub open spec fn le_value(s: Seq<u8>) -> nat
    decreases s.len(),
{
    if s.len() == 0 {
        0
    } else {
        s[0] as nat + 256 * le_value(s.skip(1))
    }
}

/// `n` in `k` bytes, least significant byte first.
pub open spec fn le_bytes(n: nat, k: nat) -> Seq<u8>
    decreases k,
{
    if k == 0 {
        Seq::empty()
    } else {
        seq![(n % 256) as u8] + le_bytes(n / 256, (k - 1) as nat)
    }
}

pub proof fn lemma_le_bytes_len(n: nat, k: nat)
    ensures
        le_bytes(n, k).len() == k,
    decreases k,
{
    if k > 0 {
        lemma_le_bytes_len(n / 256, (k - 1) as nat);
    }
}

/// Reading back a written number gives the number.
pub proof fn law_le_round_trip(n: nat, k: nat)
    requires
        n < span_of(k),
    ensures
        le_value(le_bytes(n, k)) == n,
        le_bytes(n, k).len() == k,
    decreases k,
{
    if k > 0 {
        law_le_round_trip(n / 256, (k - 1) as nat);
        let s = le_bytes(n, k);
        assert(s.skip(1) =~= le_bytes(n / 256, (k - 1) as nat));
    }
}

/// Writing back a number that was read gives the bytes it was read from.
pub proof fn law_le_bytes_of_value(s: Seq<u8>)
    ensures
        le_bytes(le_value(s), s.len()) == s,
        le_value(s) < span_of(s.len()),
    decreases s.len(),
{
    if s.len() > 0 {
        law_le_bytes_of_value(s.skip(1));
        let rest = le_value(s.skip(1));
        assert((s[0] as nat + 256 * rest) % 256 == s[0] as nat);
        assert((s[0] as nat + 256 * rest) / 256 == rest);
        assert(le_bytes(le_value(s), s.len()) =~= s);
    } else {
        assert(le_bytes(0, 0) =~= s);
    }
}

pub proof fn lemma_span_values()
    ensures
        span_of(2) == 0x1_0000,
        span_of(4) == 0x1_0000_0000,
        span_of(8) == 0x1_0000_0000_0000_0000,
{
    reveal_with_fuel(span_of, 9);
}

proof fn lemma_span_monotonic(j: nat, k: nat)
    requires
        j <= k,
    ensures
        0 < span_of(j) <= span_of(k),
    decreases k,
{
    if j < k {
        lemma_span_monotonic(j, (k - 1) as nat);
    } else if j > 0 {
        lemma_span_monotonic((j - 1) as nat, (k - 1) as nat);
    }
}

/// Appends `n` in `k` bytes.
pub fn push_le(out: &mut Vec<u8>, n: u64, k: usize)
    ensures
        final(out)@ == old(out)@ + le_bytes(n as nat, k as nat),
{
    let mut rest: u64 = n;
    let mut i: usize = 0;
    assert(out@ + le_bytes(rest as nat, k as nat) =~= old(out)@ + le_bytes(n as nat, k as nat));
    while i < k
        invariant
            i <= k,
            out@ + le_bytes(rest as nat, (k - i) as nat) == old(out)@ + le_bytes(
                n as nat,
                k as nat,
            ),
        decreases k - i,
    {
        let ghost before = out@;
        let ghost tail = le_bytes(rest as nat, (k - i) as nat);
        out.push((rest % 256) as u8);
        rest = rest / 256;
        i += 1;
        assert(out@ + le_bytes(rest as nat, (k - i) as nat) =~= before + tail);
    }
    assert(out@ + le_bytes(rest as nat, 0) =~= out@);
}

/// The number in the `k` bytes of `s` that start at `at`.
pub fn read_le(s: &[u8], at: usize, k: usize) -> (n: u64)
    requires
        at + k <= s@.len(),
        k <= 8,
    ensures
        n == le_value(s@.subrange(at as int, at + k)),
{
    let len: usize = s.len();
    let mut n: u64 = 0;
    let mut i: usize = k;
    assert(s@.subrange(at + k, at + k) =~= Seq::<u8>::empty());
    while i > 0
        invariant
            i <= k <= 8,
            at + k <= len,
            len == s@.len(),
            n == le_value(s@.subrange(at + i, at + k)),
        decreases i,
    {
        i -= 1;
        proof {
            let tail = s@.subrange(at + i + 1, at + k);
            assert(s@.subrange(at + i, at + k).skip(1) =~= tail);
            law_le_bytes_of_value(tail);
            lemma_span_monotonic(tail.len(), 7);
            reveal_with_fuel(span_of, 9);
        }
        n = s[at + i] as u64 + 256 * n;
    }
    n
}

/// `n` zero bytes.
pub open spec fn zeros(n: nat) -> Seq<u8> {
    Seq::new(n, |i: int| 0u8)
}

/// Appends `n` zero bytes.
pub fn push_zeros(out: &mut Vec<u8>, n: u64)
    ensures
        final(out)@ == old(out)@ + zeros(n as nat),
{
    let mut i: u64 = 0;
    assert(out@ =~= old(out)@ + zeros(0));
    while i < n
        invariant
            i <= n,
            out@ == old(out)@ + zeros(i as nat),
        decreases n - i,
    {
        out.push(0);
        i += 1;
        assert(out@ =~= old(out)@ + zeros(i as nat));
    }
}

/// Appends `s`.
pub fn push_bytes(out: &mut Vec<u8>, s: &[u8])
    ensures
        final(out)@ == old(out)@ + s@,
{
    let mut i: usize = 0;
    assert(out@ =~= old(out)@ + s@.take(0));
    while i < s.len()
        invariant
            i <= s@.len(),
            out@ == old(out)@ + s@.take(i as int),
        decreases s@.len() - i,
    {
        out.push(s[i]);
        i += 1;
        assert(out@ =~= old(out)@ + s@.take(i as int));
    }
    assert(s@.take(i as int) =~= s@);
}

} // verus!
