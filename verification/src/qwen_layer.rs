//! What a layer of the Qwen engine computes: grouped-query attention over the
//! key and value caches, the router, the routed experts, and the logits.

use crate::decode::{slot_stride, Decoder, Dims, Lane};
use crate::device::{kv_head, lemma_place, numbers, ran, ran_all, spot, Arith, Numbers};
use crate::launch::Kernels;
use crate::model::LayerWeights;
use crate::vectors::{
    head, lemma_norm, lemma_norm_heads, lemma_only_two, lemma_product, lemma_rope, lemma_sum,
    normed, normed_heads, only_two, roped, sum, times,
};
use vstd::prelude::*;

verus! {

/// Head `g` of the row at position `j` of a cache, [kv_heads, max_seq, head_dim].
pub open spec fn cached<T>(m: Numbers<T>, cache: u64, g: int, j: int, d: Dims) -> Seq<T> {
    numbers(m, cache, j * d.head_dim + g * (d.max_seq * d.head_dim), d.head_dim as int)
}

/// Head `g` of a vector as a cache keeps it.
pub open spec fn kept<T>(a: Arith<T>, half: bool, x: Seq<T>, g: int, dim: int) -> Seq<T> {
    Seq::new(dim as nat, |i: int| (a.keep)(half, x[g * dim + i]))
}

/// What the heads attend to: each with its group's keys and values at the
/// positions up to `pos`, that one included.
pub open spec fn attended<T>(
    a: Arith<T>,
    half: bool,
    m: Numbers<T>,
    q: Seq<T>,
    kc: u64,
    vc: u64,
    pos: int,
    d: Dims,
) -> Seq<T> {
    let dim = d.head_dim as int;
    Seq::new(
        (d.heads * d.head_dim) as nat,
        |k: int|
            {
                let g = kv_head(k / dim, d.heads as int, d.kv_heads as int);
                (a.attend)(
                    half,
                    head(q, k / dim, dim),
                    Seq::new((pos + 1) as nat, |j: int| cached(m, kc, g, j, d)),
                    Seq::new((pos + 1) as nat, |j: int| cached(m, vc, g, j, d)),
                    d.attn_scale,
                    k % dim,
                )
            },
    )
}

proof fn lemma_rows_apart(pos: int, j: int, g: int, i: int, dim: int, max: int)
    requires
        0 <= pos < max,
        0 <= j < max,
        j != pos,
        0 <= g,
        0 <= i < dim,
    ensures
        ({
            let k = j * dim + g * (max * dim) + i;
            let at = pos * dim;
            let stride = max * dim;
            k < at || spot(k, at, stride) >= dim
        }),
{
    let stride = max * dim;
    assert(stride >= dim) by (nonlinear_arith)
        requires
            max >= 1,
            dim > 0,
            stride == max * dim,
    ;
    if j > pos {
        let s = (j - pos) * dim + i;
        assert(dim <= s < stride && j * dim - pos * dim == (j - pos) * dim) by (nonlinear_arith)
            requires
                1 <= j - pos < max,
                0 <= i < dim,
                s == (j - pos) * dim + i,
                stride == max * dim,
                j < max,
                pos >= 0,
        ;
        lemma_place(g, s, stride);
    } else if g == 0 {
        assert(j * dim + i < pos * dim) by (nonlinear_arith)
            requires
                j + 1 <= pos,
                0 <= i < dim,
        ;
    } else {
        let s = (max - (pos - j)) * dim + i;
        assert(dim <= s < stride) by (nonlinear_arith)
            requires
                1 <= pos - j < max,
                0 <= i < dim,
                s == (max - (pos - j)) * dim + i,
                stride == max * dim,
        ;
        assert(j * dim + g * stride + i - pos * dim == (g - 1) * stride + s) by (nonlinear_arith)
            requires
                s == (max - (pos - j)) * dim + i,
                stride == max * dim,
        ;
        lemma_place(g - 1, s, stride);
    }
}

/// Appending writes the keys and values of every head at one position, and
/// leaves every other position.
proof fn lemma_append<T>(
    a: Arith<T>,
    m: Numbers<T>,
    k: u64,
    v: u64,
    kc: u64,
    vc: u64,
    d: Dims,
    pos: i32,
    half: i32,
)
    requires
        d.wf(),
        0 <= pos < d.max_seq,
        kc != vc,
    ensures
        ({
            let m2 = ran(
                a,
                m,
                Kernels::kv_append_launch(
                    k,
                    v,
                    kc,
                    vc,
                    d.kv_heads,
                    d.head_dim,
                    pos,
                    d.max_seq,
                    half,
                ),
            );
            let dim = d.head_dim as int;
            let n = d.kv_heads * dim;
            &&& forall|g: int|
                #![trigger cached(m2, kc, g, pos as int, d)]
                0 <= g < d.kv_heads ==> cached(m2, kc, g, pos as int, d) == kept(
                    a,
                    half != 0,
                    numbers(m, k, 0, n),
                    g,
                    dim,
                )
            &&& forall|g: int|
                #![trigger cached(m2, vc, g, pos as int, d)]
                0 <= g < d.kv_heads ==> cached(m2, vc, g, pos as int, d) == kept(
                    a,
                    half != 0,
                    numbers(m, v, 0, n),
                    g,
                    dim,
                )
            &&& forall|c: u64, g: int, j: int|
                #![trigger cached(m2, c, g, j, d)]
                0 <= g && 0 <= j < d.max_seq && j != pos ==> cached(m2, c, g, j, d) == cached(
                    m,
                    c,
                    g,
                    j,
                    d,
                )
            &&& forall|b: u64, at: int, c: int|
                b != kc && b != vc ==> #[trigger] numbers(m2, b, at, c) == numbers(m, b, at, c)
        }),
{
    let l = Kernels::kv_append_launch(
        k,
        v,
        kc,
        vc,
        d.kv_heads,
        d.head_dim,
        pos,
        d.max_seq,
        half,
    );
    let m2 = ran(a, m, l);
    let dim = d.head_dim as int;
    let n = d.kv_heads * dim;
    let stride = d.max_seq * dim;
    assert(stride >= dim) by (nonlinear_arith)
        requires
            d.max_seq >= 1,
            dim >= 0,
            stride == d.max_seq * dim,
    ;
    assert forall|g: int|
        #![trigger cached(m2, kc, g, pos as int, d)]
        0 <= g < d.kv_heads implies cached(m2, kc, g, pos as int, d) == kept(
        a,
        half != 0,
        numbers(m, k, 0, n),
        g,
        dim,
    ) by {
        assert forall|i: int| 0 <= i < dim implies #[trigger] m2(
            kc,
            pos * dim + g * stride + i,
        ) == (a.keep)(half != 0, numbers(m, k, 0, n)[g * dim + i]) by {
            lemma_place(g, i, stride);
            lemma_in_heads(g, i, d.kv_heads as int, dim);
        }
        assert(cached(m2, kc, g, pos as int, d) =~= kept(
            a,
            half != 0,
            numbers(m, k, 0, n),
            g,
            dim,
        ));
    }
    assert forall|g: int|
        #![trigger cached(m2, vc, g, pos as int, d)]
        0 <= g < d.kv_heads implies cached(m2, vc, g, pos as int, d) == kept(
        a,
        half != 0,
        numbers(m, v, 0, n),
        g,
        dim,
    ) by {
        assert forall|i: int| 0 <= i < dim implies #[trigger] m2(
            vc,
            pos * dim + g * stride + i,
        ) == (a.keep)(half != 0, numbers(m, v, 0, n)[g * dim + i]) by {
            lemma_place(g, i, stride);
            lemma_in_heads(g, i, d.kv_heads as int, dim);
        }
        assert(cached(m2, vc, g, pos as int, d) =~= kept(
            a,
            half != 0,
            numbers(m, v, 0, n),
            g,
            dim,
        ));
    }
    assert forall|c: u64, g: int, j: int|
        #![trigger cached(m2, c, g, j, d)]
        0 <= g && 0 <= j < d.max_seq && j != pos implies cached(m2, c, g, j, d) == cached(
        m,
        c,
        g,
        j,
        d,
    ) by {
        assert forall|i: int| 0 <= i < dim implies #[trigger] m2(
            c,
            j * dim + g * stride + i,
        ) == m(c, j * dim + g * stride + i) by {
            lemma_rows_apart(pos as int, j, g, i, dim, d.max_seq as int);
        }
        assert(cached(m2, c, g, j, d) =~= cached(m, c, g, j, d));
    }
    assert forall|b: u64, at: int, c: int| b != kc && b != vc implies #[trigger] numbers(
        m2,
        b,
        at,
        c,
    ) == numbers(m, b, at, c) by {
        assert(numbers(m2, b, at, c) =~= numbers(m, b, at, c));
    }
}

proof fn lemma_in_heads(g: int, i: int, heads: int, dim: int)
    requires
        0 <= g < heads,
        0 <= i < dim,
    ensures
        0 <= g * dim + i < heads * dim,
{
    assert(0 <= g * dim + i < heads * dim) by (nonlinear_arith)
        requires
            0 <= g < heads,
            0 <= i < dim,
    ;
}

proof fn lemma_attend<T>(
    a: Arith<T>,
    m: Numbers<T>,
    q: u64,
    kc: u64,
    vc: u64,
    out: u64,
    scratch: u64,
    d: Dims,
    pos: i32,
    half: i32,
)
    requires
        d.wf(),
        0 <= pos < d.max_seq,
    ensures
        ({
            let m2 = ran(
                a,
                m,
                Kernels::attn_decode_launch(
                    q,
                    kc,
                    vc,
                    out,
                    scratch,
                    d.heads,
                    d.kv_heads,
                    d.head_dim,
                    (pos + 1) as i32,
                    d.max_seq,
                    d.attn_scale,
                    half,
                ),
            );
            let n = d.heads * d.head_dim;
            &&& numbers(m2, out, 0, n) == attended(
                a,
                half != 0,
                m,
                numbers(m, q, 0, n),
                kc,
                vc,
                pos as int,
                d,
            )
            &&& only_two(m, m2, out, scratch)
        }),
{
    let l = Kernels::attn_decode_launch(
        q,
        kc,
        vc,
        out,
        scratch,
        d.heads,
        d.kv_heads,
        d.head_dim,
        (pos + 1) as i32,
        d.max_seq,
        d.attn_scale,
        half,
    );
    let m2 = ran(a, m, l);
    let n = d.heads * d.head_dim;
    let dim = d.head_dim as int;
    let all = attended(a, half != 0, m, numbers(m, q, 0, n), kc, vc, pos as int, d);
    assert forall|k: int| 0 <= k < n implies #[trigger] m2(out, k) == all[k] by {
        crate::vectors::lemma_head(k, d.heads as int, dim);
        let h = k / dim;
        let g = kv_head(h, d.heads as int, d.kv_heads as int);
        assert(numbers(m, q, h * dim, dim) =~= head(numbers(m, q, 0, n), h, dim));
        assert(Seq::new(
            (pos + 1) as nat,
            |j: int| numbers(m, kc, j * dim + g * (d.max_seq * dim), dim),
        ) =~= Seq::new((pos + 1) as nat, |j: int| cached(m, kc, g, j, d)));
        assert(Seq::new(
            (pos + 1) as nat,
            |j: int| numbers(m, vc, j * dim + g * (d.max_seq * dim), dim),
        ) =~= Seq::new((pos + 1) as nat, |j: int| cached(m, vc, g, j, d)));
    }
    assert(numbers(m2, out, 0, n) =~= all);
    lemma_only_two(m, m2, out, scratch);
}

/// The matrices of a layer have the shapes that the model's dimensions give
/// them.
pub open spec fn has_shapes(w: LayerWeights, d: Dims) -> bool {
    &&& w.q.rows == d.heads * d.head_dim
    &&& w.k.rows == d.kv_heads * d.head_dim
    &&& w.v.rows == d.kv_heads * d.head_dim
    &&& w.o.rows == d.hidden
    &&& w.router.rows == d.experts
    &&& w.q.cols == d.hidden
    &&& w.k.cols == d.hidden
    &&& w.v.cols == d.hidden
    &&& w.o.cols == d.heads * d.head_dim
    &&& w.router.cols == d.hidden
}

/// The buffers that attention works on, but for the normed copy of the lane.
pub open spec fn attention_buffers(d: Decoder, lane: Lane, kc: u64, vc: u64) -> Seq<u64> {
    let b = d.bufs;
    seq![
        lane.h,
        b.h_norm,
        b.q,
        b.k,
        b.v,
        kc,
        vc,
        b.attn_out,
        b.proj_out,
        lane.router,
        b.attn_scratch,
    ]
}

/// The buffers that attention works on are different ones. The normed copy of
/// a lane may be the one that attention starts from.
pub open spec fn buffers_apart(d: Decoder, lane: Lane, kc: u64, vc: u64) -> bool {
    let all = attention_buffers(d, lane, kc, vc);
    &&& all.no_duplicates()
    &&& forall|i: int| 0 <= i < all.len() && i != 1 ==> lane.hn != #[trigger] all[i]
}

/// The keys of a token: projected, normed by head, and rotated to its position.
pub open spec fn keys_of<T>(a: Arith<T>, w: LayerWeights, d: Dims, x: Seq<T>, pos: int) -> Seq<T> {
    roped(
        a,
        normed_heads(a, times(a, w.k, x), w.k_norm, d.rms_eps, d.head_dim as int),
        pos,
        d.rope_theta,
        d.head_dim as int,
    )
}

/// The queries of a token.
pub open spec fn queries_of<T>(a: Arith<T>, w: LayerWeights, d: Dims, x: Seq<T>, pos: int) -> Seq<
    T,
> {
    roped(
        a,
        normed_heads(a, times(a, w.q, x), w.q_norm, d.rms_eps, d.head_dim as int),
        pos,
        d.rope_theta,
        d.head_dim as int,
    )
}

/// What attention means. With the token's hidden state normed: its keys and its
/// values go into the caches of its sequence slot at its position, and nothing
/// else there changes. Its queries attend to the positions up to its own. The
/// projection of that is added to the hidden state; normed again, it is the
/// input of the router and the experts, and the router's product is left. No
/// other buffer changes.
pub open spec fn attends<T>(
    a: Arith<T>,
    d: Decoder,
    l: int,
    pos: i32,
    seq: nat,
    lane: Lane,
    m: Numbers<T>,
    m2: Numbers<T>,
) -> bool {
    let w = d.core.layers@[l];
    let n = d.dims;
    let dim = n.head_dim as int;
    let kc = (d.kcache@[l] + seq * slot_stride(n, d.kv_f16)) as u64;
    let vc = (d.vcache@[l] + seq * slot_stride(n, d.kv_f16)) as u64;
    let before = numbers(m, lane.h, 0, n.hidden as int);
    let x = normed(a, before, w.input_ln, n.rms_eps);
    let seen = attended(a, d.kv_f16, m2, queries_of(a, w, n, x, pos as int), kc, vc, pos as int, n);
    let after = sum(a, before, times(a, w.o, seen));
    let y = normed(a, after, w.post_ln, n.rms_eps);
    &&& forall|g: int|
        #![trigger cached(m2, kc, g, pos as int, n)]
        0 <= g < n.kv_heads ==> cached(m2, kc, g, pos as int, n) == kept(
            a,
            d.kv_f16,
            keys_of(a, w, n, x, pos as int),
            g,
            dim,
        )
    &&& forall|g: int|
        #![trigger cached(m2, vc, g, pos as int, n)]
        0 <= g < n.kv_heads ==> cached(m2, vc, g, pos as int, n) == kept(
            a,
            d.kv_f16,
            times(a, w.v, x),
            g,
            dim,
        )
    &&& forall|g: int, j: int|
        #![trigger cached(m2, kc, g, j, n)]
        #![trigger cached(m2, vc, g, j, n)]
        0 <= g && 0 <= j < n.max_seq && j != pos ==> cached(m2, kc, g, j, n) == cached(
            m,
            kc,
            g,
            j,
            n,
        ) && cached(m2, vc, g, j, n) == cached(m, vc, g, j, n)
    &&& numbers(m2, lane.h, 0, n.hidden as int) == after
    &&& numbers(m2, lane.hn, 0, n.hidden as int) == y
    &&& numbers(m2, lane.router, 0, n.experts as int) == times(a, w.router, y)
    &&& forall|o: u64, at: int, c: int|
        o != lane.hn && !attention_buffers(d, lane, kc, vc).contains(o) ==> #[trigger] numbers(
            m2,
            o,
            at,
            c,
        ) == numbers(m, o, at, c)
}

/// The attention plan of a layer means that.
pub proof fn law_attention_means<T>(
    a: Arith<T>,
    d: Decoder,
    l: int,
    pos: i32,
    seq: nat,
    lane: Lane,
    m: Numbers<T>,
)
    requires
        d.wf(),
        0 <= l < d.core.layers@.len(),
        0 <= pos < d.dims.max_seq,
        seq < d.batch_cap,
        has_shapes(d.core.layers@[l], d.dims),
        buffers_apart(
            d,
            lane,
            (d.kcache@[l] + seq * slot_stride(d.dims, d.kv_f16)) as u64,
            (d.vcache@[l] + seq * slot_stride(d.dims, d.kv_f16)) as u64,
        ),
    ensures
        ({
            let plan = d.attention_launches(l, pos, seq, lane);
            attends(a, d, l, pos, seq, lane, m, ran_all(a, m, plan, plan.len()))
        }),
{
    let plan = d.attention_launches(l, pos, seq, lane);
    let w = d.core.layers@[l];
    let n = d.dims;
    let b = d.bufs;
    let hid = n.hidden as int;
    let dim = n.head_dim as int;
    let qn = n.heads * dim;
    let kn = n.kv_heads * dim;
    let half: i32 = if d.kv_f16 {
        1
    } else {
        0
    };
    let kc = (d.kcache@[l] + seq * slot_stride(n, d.kv_f16)) as u64;
    let vc = (d.vcache@[l] + seq * slot_stride(n, d.kv_f16)) as u64;
    let all = attention_buffers(d, lane, kc, vc);
    assert(all[0] == lane.h && all[1] == b.h_norm && all[2] == b.q && all[3] == b.k && all[4]
        == b.v && all[5] == kc && all[6] == vc && all[7] == b.attn_out && all[8] == b.proj_out
        && all[9] == lane.router && all[10] == b.attn_scratch);
    assert(w.wf());
    let m1 = ran(a, m, plan[0]);
    let m2 = ran(a, m1, plan[1]);
    let m3 = ran(a, m2, plan[2]);
    let m4 = ran(a, m3, plan[3]);
    let m5 = ran(a, m4, plan[4]);
    let m6 = ran(a, m5, plan[5]);
    let m7 = ran(a, m6, plan[6]);
    let m8 = ran(a, m7, plan[7]);
    let m9 = ran(a, m8, plan[8]);
    let m10 = ran(a, m9, plan[9]);
    let m11 = ran(a, m10, plan[10]);
    let m12 = ran(a, m11, plan[11]);
    let m13 = ran(a, m12, plan[12]);
    let m14 = ran(a, m13, plan[13]);
    assert(ran_all(a, m, plan, 14) == m14) by {
        reveal_with_fuel(ran_all, 15);
    }
    let before = numbers(m, lane.h, 0, hid);
    let x = normed(a, before, w.input_ln, n.rms_eps);
    lemma_norm(a, m, lane.h, w.input_ln, b.h_norm, n.hidden, n.rms_eps);
    assert(numbers(m1, b.h_norm, 0, hid) == x);
    lemma_product(a, m1, w.q, b.h_norm, b.q);
    assert(numbers(m2, b.q, 0, qn) == times(a, w.q, x));
    lemma_product(a, m2, w.k, b.h_norm, b.k);
    assert(numbers(m3, b.k, 0, kn) == times(a, w.k, x));
    lemma_product(a, m3, w.v, b.h_norm, b.v);
    assert(numbers(m4, b.v, 0, kn) == times(a, w.v, x));
    lemma_norm_heads(a, m4, b.q, w.q_norm, b.q, n.head_dim, n.rms_eps, n.heads);
    lemma_norm_heads(a, m5, b.k, w.k_norm, b.k, n.head_dim, n.rms_eps, n.kv_heads);
    lemma_rope(a, m6, b.q, n.heads, n.head_dim, pos, n.rope_theta);
    lemma_rope(a, m7, b.k, n.kv_heads, n.head_dim, pos, n.rope_theta);
    let q = queries_of(a, w, n, x, pos as int);
    let k = keys_of(a, w, n, x, pos as int);
    assert(numbers(m8, b.q, 0, qn) == q);
    assert(numbers(m8, b.k, 0, kn) == k);
    assert(numbers(m8, b.v, 0, kn) == times(a, w.v, x));
    lemma_append(a, m8, b.k, b.v, kc, vc, n, pos, half);
    lemma_attend(a, m9, b.q, kc, vc, b.attn_out, b.attn_scratch, n, pos, half);
    lemma_product(a, m10, w.o, b.attn_out, b.proj_out);
    lemma_sum(a, m11, lane.h, b.proj_out, n.hidden);
    lemma_norm(a, m12, lane.h, w.post_ln, lane.hn, n.hidden, n.rms_eps);
    lemma_product(a, m13, w.router, lane.hn, lane.router);
    assert forall|c: u64, g: int, j: int|
        #![trigger cached(m14, c, g, j, n)]
        c == kc || c == vc implies cached(m14, c, g, j, n) == cached(m9, c, g, j, n) by {
        assert(cached(m10, c, g, j, n) == cached(m9, c, g, j, n));
        assert(cached(m11, c, g, j, n) == cached(m10, c, g, j, n));
        assert(cached(m12, c, g, j, n) == cached(m11, c, g, j, n));
        assert(cached(m13, c, g, j, n) == cached(m12, c, g, j, n));
    }
    assert forall|c: u64, g: int, j: int|
        #![trigger cached(m8, c, g, j, n)]
        c == kc || c == vc implies cached(m8, c, g, j, n) == cached(m, c, g, j, n) by {
        assert(cached(m1, c, g, j, n) == cached(m, c, g, j, n));
        assert(cached(m2, c, g, j, n) == cached(m1, c, g, j, n));
        assert(cached(m3, c, g, j, n) == cached(m2, c, g, j, n));
        assert(cached(m4, c, g, j, n) == cached(m3, c, g, j, n));
        assert(cached(m5, c, g, j, n) == cached(m4, c, g, j, n));
        assert(cached(m6, c, g, j, n) == cached(m5, c, g, j, n));
        assert(cached(m7, c, g, j, n) == cached(m6, c, g, j, n));
    }
    lemma_attended(a, d.kv_f16, m9, m14, q, kc, vc, pos as int, n);
    let seen = attended(a, d.kv_f16, m14, q, kc, vc, pos as int, n);
    assert(numbers(m10, b.attn_out, 0, qn) == seen);
    assert(numbers(m11, b.proj_out, 0, hid) == times(a, w.o, seen));
    assert(numbers(m11, lane.h, 0, hid) == before);
    let after = sum(a, before, times(a, w.o, seen));
    assert(numbers(m12, lane.h, 0, hid) == after);
    let y = normed(a, after, w.post_ln, n.rms_eps);
    assert(numbers(m13, lane.hn, 0, hid) == y);
    assert(numbers(m14, lane.hn, 0, hid) == y);
    assert(numbers(m14, lane.h, 0, hid) == after);
    assert forall|o: u64, at: int, c: int| o != lane.hn
        && !all.contains(o) implies #[trigger] numbers(
        m14,
        o,
        at,
        c,
    ) == numbers(m, o, at, c) by {
        assert(forall|i: int| 0 <= i < all.len() ==> o != #[trigger] all[i]);
        assert(numbers(m1, o, at, c) == numbers(m, o, at, c));
        assert(numbers(m2, o, at, c) == numbers(m1, o, at, c));
        assert(numbers(m3, o, at, c) == numbers(m2, o, at, c));
        assert(numbers(m4, o, at, c) == numbers(m3, o, at, c));
        assert(numbers(m5, o, at, c) == numbers(m4, o, at, c));
        assert(numbers(m6, o, at, c) == numbers(m5, o, at, c));
        assert(numbers(m7, o, at, c) == numbers(m6, o, at, c));
        assert(numbers(m8, o, at, c) == numbers(m7, o, at, c));
        assert(numbers(m9, o, at, c) == numbers(m8, o, at, c));
        assert(numbers(m10, o, at, c) == numbers(m9, o, at, c));
        assert(numbers(m11, o, at, c) == numbers(m10, o, at, c));
        assert(numbers(m12, o, at, c) == numbers(m11, o, at, c));
        assert(numbers(m13, o, at, c) == numbers(m12, o, at, c));
    }
}

/// What is attended to depends on the caches alone.
proof fn lemma_attended<T>(
    a: Arith<T>,
    half: bool,
    m: Numbers<T>,
    m2: Numbers<T>,
    q: Seq<T>,
    kc: u64,
    vc: u64,
    pos: int,
    d: Dims,
)
    requires
        forall|c: u64, g: int, j: int|
            #![trigger cached(m2, c, g, j, d)]
            c == kc || c == vc ==> cached(m2, c, g, j, d) == cached(m, c, g, j, d),
    ensures
        attended(a, half, m, q, kc, vc, pos, d) == attended(a, half, m2, q, kc, vc, pos, d),
{
    let dim = d.head_dim as int;
    let x = attended(a, half, m, q, kc, vc, pos, d);
    let y = attended(a, half, m2, q, kc, vc, pos, d);
    assert forall|k: int| 0 <= k < x.len() implies x[k] == y[k] by {
        let g = kv_head(k / dim, d.heads as int, d.kv_heads as int);
        assert(Seq::new((pos + 1) as nat, |j: int| cached(m, kc, g, j, d)) =~= Seq::new(
            (pos + 1) as nat,
            |j: int| cached(m2, kc, g, j, d),
        ));
        assert(Seq::new((pos + 1) as nat, |j: int| cached(m, vc, g, j, d)) =~= Seq::new(
            (pos + 1) as nat,
            |j: int| cached(m2, vc, g, j, d),
        ));
    }
    assert(x =~= y);
}

/// The logits of a lane are the head's product with its normed hidden state.
pub proof fn law_logits_mean<T>(a: Arith<T>, d: Decoder, lane: Lane, m: Numbers<T>)
    requires
        d.wf(),
        d.core.lm_head.cols == d.dims.hidden,
        d.core.lm_head.rows == d.dims.vocab,
        d.bufs.h_norm != d.bufs.logits,
    ensures
        ({
            let plan = d.logits_launches(lane);
            numbers(ran_all(a, m, plan, plan.len()), d.bufs.logits, 0, d.dims.vocab as int)
                == times(
                a,
                d.core.lm_head,
                normed(
                    a,
                    numbers(m, lane.h, 0, d.dims.hidden as int),
                    d.core.final_norm,
                    d.dims.rms_eps,
                ),
            )
        }),
{
    let plan = d.logits_launches(lane);
    let n = d.dims;
    let m1 = ran(a, m, plan[0]);
    assert(ran_all(a, m, plan, 2) == ran(a, m1, plan[1])) by {
        reveal_with_fuel(ran_all, 3);
    }
    lemma_norm(a, m, lane.h, d.core.final_norm, d.bufs.h_norm, n.hidden, n.rms_eps);
    lemma_product(a, m1, d.core.lm_head, d.bufs.h_norm, d.bufs.logits);
}

} // verus!
