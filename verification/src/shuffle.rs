//! What the generator does to its state: every bit of it goes to fixed places,
//! independently of all others, and no two states come to the same.

use crate::bytes::{law_le_round_trip, le_bytes, le_value, lemma_le_bytes_len, lemma_span_values};
use crate::rng::{law_xorshift_stays_nonzero, pattern, seeded, stepped, xorshift};
use vstd::prelude::*;

verus! {

/// A step treats every bit of the state by itself: the step of a sum without
/// carry is that sum of the steps.
pub proof fn law_xorshift_is_linear(x: u64, y: u64)
    ensures
        xorshift(x ^ y) == xorshift(x) ^ xorshift(y),
{
    assert({
        let a = x ^ (x << 13);
        let b = a ^ (a >> 7);
        let c = y ^ (y << 13);
        let d = c ^ (c >> 7);
        let z = x ^ y;
        let e = z ^ (z << 13);
        let f = e ^ (e >> 7);
        f ^ (f << 17) == (b ^ (b << 17)) ^ (d ^ (d << 17))
    }) by (bit_vector);
}

/// Where a bit goes: a step leaves it in eight places, those that shifts by 13
/// up, by 7 down and by 17 up, each taken or not, bring it to.
pub proof fn law_xorshift_spreads_a_bit(k: u64)
    requires
        7 <= k < 34,
    ensures
        xorshift(1u64 << k)
            == (1u64 << k) | (1u64 << ((k + 13) as u64)) | (1u64 << ((k - 7) as u64))
            | (1u64 << ((k + 6) as u64)) | (1u64 << ((k + 17) as u64)) | (1u64 << ((k
            + 30) as u64)) | (1u64 << ((k + 10) as u64)) | (1u64 << ((k + 23) as u64)),
{
    let (p, q, r, s, t, u, v) = (
        (k + 13) as u64,
        (k - 7) as u64,
        (k + 6) as u64,
        (k + 17) as u64,
        (k + 30) as u64,
        (k + 10) as u64,
        (k + 23) as u64,
    );
    assert({
        let x = 1u64 << k;
        let a = x ^ (x << 13);
        let b = a ^ (a >> 7);
        b ^ (b << 17) == (1u64 << k) | (1u64 << p) | (1u64 << q) | (1u64 << r) | (1u64 << s) | (1u64
            << t) | (1u64 << u) | (1u64 << v)
    }) by (bit_vector)
        requires
            7 <= k < 34,
            p == k + 13,
            q == k - 7,
            r == k + 6,
            s == k + 17,
            t == k + 30,
            u == k + 10,
            v == k + 23,
    ;
}

/// No two states come to the same: the generator repeats only once it is back
/// at a state it was in.
pub proof fn law_xorshift_is_injective(x: u64, y: u64)
    requires
        xorshift(x) == xorshift(y),
    ensures
        x == y,
{
    let z = xorshift(y);
    law_xorshift_is_linear(x, y);
    assert(z ^ z == 0) by (bit_vector);
    if x != y {
        let d = x ^ y;
        assert(d != 0) by (bit_vector)
            requires
                x != y,
                d == x ^ y,
        ;
        law_xorshift_stays_nonzero(d);
    }
}

/// A seed is the state that it starts from; only 0, from which nothing would
/// come, starts from 1.
pub proof fn law_seeds_start_where_they_say(seed: u64)
    ensures
        seed > 0 ==> seeded(seed) == seed,
        seeded(0) == 1,
{
}

proof fn lemma_pattern_len(x: u64, tag: u64, n: nat)
    ensures
        pattern(x, tag, n).len() == 8 * n,
    decreases n,
{
    if n > 0 {
        lemma_pattern_len(x, tag, (n - 1) as nat);
        lemma_le_bytes_len((stepped(x, n) ^ tag) as nat, 8);
    }
}

/// Word `i` of a synthetic blob is the generator's next number behind those of
/// the words before it, with the bits of the tag turned over.
pub proof fn law_blob_words_are_tagged_numbers(x: u64, tag: u64, n: nat, i: nat)
    requires
        i < n,
    ensures
        ({
            let word = le_value(pattern(x, tag, n).subrange(8 * i as int, 8 * i as int + 8)) as u64;
            word ^ tag == xorshift(stepped(x, i))
        }),
    decreases n,
{
    let m = (n - 1) as nat;
    lemma_pattern_len(x, tag, m);
    let w = stepped(x, n) ^ tag;
    lemma_span_values();
    law_le_round_trip(w as nat, 8);
    if i == m {
        assert(pattern(x, tag, n).subrange(8 * i as int, 8 * i as int + 8) =~= le_bytes(w as nat, 8));
        let s = stepped(x, n);
        assert((s ^ tag) ^ tag == s) by (bit_vector);
    } else {
        law_blob_words_are_tagged_numbers(x, tag, m, i);
        assert(pattern(x, tag, n).subrange(8 * i as int, 8 * i as int + 8) =~= pattern(
            x,
            tag,
            m,
        ).subrange(8 * i as int, 8 * i as int + 8));
    }
}

} // verus!
