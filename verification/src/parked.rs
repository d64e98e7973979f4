//! What is parked of a context is all of it: the bytes of every key and value
//! that attention reads for the context's positions, and no others.

use crate::decode::Decoder;
use crate::kimi::KimiDecoder;
use crate::moving::{lemma_latent_place, lemma_run_place};
use crate::parking::{context_runs, covered, in_run, latent_runs};
use vstd::prelude::*;

verus! {

/// Bytes of a number in a cache.
pub open spec fn width(d: Decoder) -> int {
    if d.kv_f16 {
        2
    } else {
        4
    }
}

/// Where head `h` of a sequence slot starts in a layer's cache of keys, or of
/// values: a slot is [kv_heads, max_seq, head_dim].
pub open spec fn head_start(d: Decoder, values: bool, l: int, seq: int, h: int) -> int {
    let base = if values {
        d.vcache@[l]
    } else {
        d.kcache@[l]
    };
    base + (seq * d.dims.kv_heads + h) * (d.dims.max_seq * d.dims.head_dim * width(d))
}

proof fn lemma_head_start(d: Decoder, values: bool, l: int, seq: nat, len: nat, h: int)
    requires
        d.wf(),
        seq < d.batch_cap,
        len <= d.dims.max_seq,
        d.kv_bytes(len) <= usize::MAX,
        0 <= l < d.kcache@.len(),
        0 <= h < d.dims.kv_heads,
    ensures
        ({
            let r = (2 * l + (if values {
                1int
            } else {
                0
            })) * d.dims.kv_heads + h;
            &&& 0 <= r < context_runs(d, seq, len).len()
            &&& context_runs(d, seq, len)[r].dev == head_start(d, values, l, seq as int, h)
            &&& context_runs(d, seq, len)[r].len == len * d.dims.head_dim * width(d)
        }),
{
    let heads = d.dims.kv_heads as int;
    let c = 2 * l + (if values {
        1int
    } else {
        0
    });
    let r = c * heads + h;
    let n = 2 * d.kcache@.len() as int;
    assert(0 <= r < n * heads) by (nonlinear_arith)
        requires
            0 <= c < n,
            0 <= h < heads,
            r == c * heads + h,
    ;
    vstd::arithmetic::div_mod::lemma_fundamental_div_mod_converse(r, heads, c, h);
    lemma_run_place(d, seq, len, r);
    let x = d.dims.max_seq * d.dims.head_dim;
    let e = width(d);
    let head = x * e;
    assert(seq * (heads * head) + h * head == (seq * heads + h) * head) by (nonlinear_arith);
}

/// All of a context is parked: of every layer, for keys and for values, every
/// byte of every number of every head at every position of the context.
pub proof fn law_all_of_a_context_is_parked(
    d: Decoder,
    seq: nat,
    len: nat,
    values: bool,
    l: int,
    h: int,
    p: int,
    i: int,
    k: int,
)
    requires
        d.wf(),
        seq < d.batch_cap,
        len <= d.dims.max_seq,
        d.kv_bytes(len) <= usize::MAX,
        0 <= l < d.kcache@.len(),
        0 <= h < d.dims.kv_heads,
        0 <= p < len,
        0 <= i < d.dims.head_dim,
        0 <= k < width(d),
    ensures
        covered(
            context_runs(d, seq, len),
            context_runs(d, seq, len).len(),
            head_start(d, values, l, seq as int, h) + (p * d.dims.head_dim + i) * width(d) + k,
        ),
{
    lemma_head_start(d, values, l, seq, len, h);
    let r = (2 * l + (if values {
        1int
    } else {
        0
    })) * d.dims.kv_heads + h;
    let dim = d.dims.head_dim as int;
    let e = width(d);
    let at = (p * dim + i) * e + k;
    assert(0 <= at < len * dim * e) by (nonlinear_arith)
        requires
            0 <= p < len,
            0 <= i < dim,
            0 <= k < e,
            at == (p * dim + i) * e + k,
    {
        assert(p * dim + i + 1 <= len * dim) by (nonlinear_arith)
            requires
                0 <= p < len,
                0 <= i < dim,
        ;
        assert(0 <= p * dim) by (nonlinear_arith)
            requires
                0 <= p,
                0 <= i < dim,
        ;
        assert((p * dim + i + 1) * e <= len * dim * e) by (nonlinear_arith)
            requires
                p * dim + i + 1 <= len * dim,
                0 < e,
        ;
        assert((p * dim + i + 1) * e == (p * dim + i) * e + e) by (nonlinear_arith);
        assert(0 <= (p * dim + i) * e) by (nonlinear_arith)
            requires
                0 <= p * dim + i,
                0 < e,
        ;
    }
    assert(in_run(context_runs(d, seq, len)[r], head_start(d, values, l, seq as int, h) + at));
}

/// Nothing else is parked: every byte that is belongs to a head of that slot in
/// some layer's keys or values, at a position of the context.
pub proof fn law_only_the_context_is_parked(d: Decoder, seq: nat, len: nat, x: int)
    requires
        d.wf(),
        seq < d.batch_cap,
        len <= d.dims.max_seq,
        d.kv_bytes(len) <= usize::MAX,
        covered(context_runs(d, seq, len), context_runs(d, seq, len).len(), x),
    ensures
        exists|values: bool, l: int, h: int|
            {
                &&& 0 <= l < d.kcache@.len()
                &&& 0 <= h < d.dims.kv_heads
                &&& #[trigger] head_start(d, values, l, seq as int, h) <= x
                &&& x < head_start(d, values, l, seq as int, h) + len * d.dims.head_dim * width(d)
            },
{
    let runs = context_runs(d, seq, len);
    let r = choose|r: int| 0 <= r < runs.len() && #[trigger] in_run(runs[r], x);
    lemma_run_place(d, seq, len, r);
    let heads = d.dims.kv_heads as int;
    let c = r / heads;
    let h = r % heads;
    let values = c % 2 == 1;
    let l = c / 2;
    lemma_head_start(d, values, l, seq, len, h);
    assert(c == 2 * l + (if values {
        1int
    } else {
        0
    }));
    assert(head_start(d, values, l, seq as int, h) == runs[r].dev);
}

/// Where a sequence slot starts in a layer's compressed cache: a slot is
/// [max_seq, kv_lora + rope].
pub open spec fn latent_start(d: KimiDecoder, l: int, seq: int) -> int {
    d.cache@[l] + seq * (d.dims.max_seq * (d.dims.kv_lora + d.dims.rope) * 4)
}

/// All of a compressed context is parked: of every layer every byte of the rows
/// at the positions of the context, and nothing else.
pub proof fn law_all_of_the_latents_is_parked(d: KimiDecoder, seq: nat, len: nat, x: int)
    requires
        d.wf(),
        seq < d.batch_cap,
        len <= d.dims.max_seq,
        d.kv_bytes(len) <= usize::MAX,
    ensures
        covered(latent_runs(d, seq, len), latent_runs(d, seq, len).len(), x) <==> exists|l: int|
            {
                &&& 0 <= l < d.cache@.len()
                &&& #[trigger] latent_start(d, l, seq as int) <= x
                &&& x < latent_start(d, l, seq as int) + len * (d.dims.kv_lora + d.dims.rope) * 4
            },
{
    let runs = latent_runs(d, seq, len);
    if covered(runs, runs.len(), x) {
        let l = choose|l: int| 0 <= l < runs.len() && #[trigger] in_run(runs[l], x);
        lemma_latent_place(d, seq, len, l);
        assert(latent_start(d, l, seq as int) == runs[l].dev);
    }
    if exists|l: int|
        {
            &&& 0 <= l < d.cache@.len()
            &&& #[trigger] latent_start(d, l, seq as int) <= x
            &&& x < latent_start(d, l, seq as int) + len * (d.dims.kv_lora + d.dims.rope) * 4
        } {
        let l = choose|l: int|
            {
                &&& 0 <= l < d.cache@.len()
                &&& #[trigger] latent_start(d, l, seq as int) <= x
                &&& x < latent_start(d, l, seq as int) + len * (d.dims.kv_lora + d.dims.rope) * 4
            };
        lemma_latent_place(d, seq, len, l);
        assert(in_run(runs[l], x));
    }
}

} // verus!
