//! What a layer of the Kimi engine computes: latent attention over the
//! compressed cache, the dense block, the shared expert, the router and the
//! logits.

use crate::decode::Lane;
use crate::device::{lemma_place, numbers, ran, ran_all, Arith, Encoding, Numbers};
use crate::kimi::{row_stride, KimiDecoder, KimiDims, KimiLayer};
use crate::launch::Kernels;
use crate::vectors::{
    lemma_head, lemma_norm, lemma_only, lemma_only_two, lemma_product, lemma_sum, normed, only,
    only_two, sum, times,
};
use vstd::prelude::*;

verus! {

/// A vector of vectors of `stride` numbers, with the slice of `len` numbers at
/// `off` of each rotated to a position.
pub open spec fn rotated<T>(
    a: Arith<T>,
    x: Seq<T>,
    stride: int,
    off: int,
    len: int,
    pos: int,
    freq: u64,
    scale: u32,
) -> Seq<T> {
    Seq::new(
        x.len(),
        |k: int|
            if off <= k % stride < off + len {
                (a.rotate)(
                    Seq::new(len as nat, |i: int| x[(k / stride) * stride + off + i]),
                    pos,
                    freq,
                    scale,
                    k % stride - off,
                )
            } else {
                x[k]
            },
    )
}

/// A bf16 matrix at `at`, times a vector.
pub open spec fn plain_times<T>(a: Arith<T>, at: int, rows: int, cols: int, x: Seq<T>) -> Seq<T> {
    Seq::new(rows as nat, |r: int| (a.dot)(Encoding::Bf16, at, rows, cols, x, r))
}

/// The numbers at `off` of vector `h` of vectors of `stride` numbers.
pub open spec fn part<T>(x: Seq<T>, h: int, stride: int, off: int, len: int) -> Seq<T> {
    Seq::new(len as nat, |i: int| x[h * stride + off + i])
}

/// The row of the compressed cache at position `j`.
pub open spec fn latent<T>(m: Numbers<T>, cache: u64, j: int, d: KimiDims) -> Seq<T> {
    numbers(m, cache, j * d.row(), d.row())
}

/// The compressed keys and values of a token, rotated to its position.
pub open spec fn compressed<T>(
    a: Arith<T>,
    w: KimiLayer,
    d: KimiDims,
    freq: u64,
    x: Seq<T>,
    pos: int,
) -> Seq<T> {
    rotated(
        a,
        times(a, w.kv_a, x),
        d.row(),
        d.kv_lora as int,
        2 * (d.rope / 2) as int,
        pos,
        freq,
        d.one,
    )
}

/// What the cache keeps of a token: its latent vector, normed, and its rotated
/// keys.
pub open spec fn latent_of<T>(
    a: Arith<T>,
    w: KimiLayer,
    d: KimiDims,
    freq: u64,
    x: Seq<T>,
    pos: int,
) -> Seq<T> {
    normed(a, times(a, w.kv_a, x).take(d.kv_lora as int), w.kv_a_ln, d.rms_eps) + compressed(
        a,
        w,
        d,
        freq,
        x,
        pos,
    ).skip(d.kv_lora as int)
}

/// The queries of a token, by head, with their last part rotated to its
/// position.
pub open spec fn latent_queries<T>(
    a: Arith<T>,
    w: KimiLayer,
    d: KimiDims,
    freq: u64,
    x: Seq<T>,
    pos: int,
) -> Seq<T> {
    rotated(
        a,
        times(a, w.q_b, normed(a, times(a, w.q_a, x), w.q_a_ln, d.rms_eps)),
        d.q_dim(),
        d.nope as int,
        2 * (d.rope / 2) as int,
        pos,
        freq,
        d.one,
    )
}

/// The query of head `h` against the compressed cache: its first part through
/// the keys' weights of the head, then its rotated part.
pub open spec fn absorbed<T>(a: Arith<T>, w: KimiLayer, d: KimiDims, q: Seq<T>, h: int) -> Seq<T> {
    plain_times(
        a,
        w.kt + 2 * (h * (d.kv_lora * d.nope)),
        d.kv_lora as int,
        d.nope as int,
        part(q, h, d.q_dim(), 0, d.nope as int),
    ) + part(q, h, d.q_dim(), d.nope as int, d.rope as int)
}

/// What head `h` attends to: the rows of the positions up to `pos`, that one
/// included, whose latent parts are the values.
pub open spec fn context_of<T>(
    a: Arith<T>,
    m: Numbers<T>,
    w: KimiLayer,
    d: KimiDims,
    q: Seq<T>,
    cache: u64,
    pos: int,
    h: int,
) -> Seq<T> {
    Seq::new(
        d.kv_lora as nat,
        |i: int|
            (a.attend)(
                false,
                absorbed(a, w, d, q, h),
                Seq::new((pos + 1) as nat, |j: int| latent(m, cache, j, d)),
                Seq::new(
                    (pos + 1) as nat,
                    |j: int| latent(m, cache, j, d).take(d.kv_lora as int),
                ),
                d.softmax_scale,
                i,
            ),
    )
}

/// What all heads attend to, each through the values' weights of the head.
pub open spec fn latent_attended<T>(
    a: Arith<T>,
    m: Numbers<T>,
    w: KimiLayer,
    d: KimiDims,
    q: Seq<T>,
    cache: u64,
    pos: int,
) -> Seq<T> {
    let dim = d.v_head as int;
    Seq::new(
        (d.heads * d.v_head) as nat,
        |k: int|
            plain_times(
                a,
                w.vw + 2 * ((k / dim) * (d.v_head * d.kv_lora)),
                dim,
                d.kv_lora as int,
                context_of(a, m, w, d, q, cache, pos, k / dim),
            )[k % dim],
    )
}

/// The matrices of a layer have the shapes that the model's dimensions give
/// them.
pub open spec fn latent_shapes(w: KimiLayer, d: KimiDims) -> bool {
    &&& w.q_a.rows == d.q_lora
    &&& w.q_a.cols == d.hidden
    &&& w.q_b.rows == d.heads * d.q_dim()
    &&& w.q_b.cols == d.q_lora
    &&& w.kv_a.rows == d.row()
    &&& w.kv_a.cols == d.hidden
    &&& w.o.rows == d.hidden
    &&& w.o.cols == d.heads * d.v_head
}

/// The buffers that latent attention works on, but for the normed copy of the
/// lane.
pub open spec fn latent_buffers(d: KimiDecoder, lane: Lane, cache: u64) -> Seq<u64> {
    let b = d.bufs;
    seq![
        lane.h,
        b.h_norm,
        b.qa,
        b.q,
        b.kva,
        b.ckv_norm,
        cache,
        b.q_full,
        b.ctx,
        b.attn_pre,
        b.proj_out,
        b.attn_scratch,
    ]
}

/// The buffers that attention works on are different ones. The normed copy of
/// a lane may be the one that attention starts from.
pub open spec fn latent_apart(d: KimiDecoder, lane: Lane, cache: u64) -> bool {
    let all = latent_buffers(d, lane, cache);
    &&& all.no_duplicates()
    &&& forall|i: int| 0 <= i < all.len() && i != 1 ==> lane.hn != #[trigger] all[i]
}

/// What latent attention means. With the token's hidden state normed: its
/// latent vector and rotated keys are the row of its sequence slot's cache at
/// its position, and no other row changes. Its queries attend to the rows of the
/// positions up to its own. The projection of that is added to the hidden state;
/// normed again, it is the input of what follows. No other buffer changes.
pub open spec fn attends_latent<T>(
    a: Arith<T>,
    d: KimiDecoder,
    l: int,
    pos: i32,
    seq: nat,
    lane: Lane,
    m: Numbers<T>,
    m2: Numbers<T>,
) -> bool {
    let w = d.layers@[l];
    let n = d.dims;
    let cache = (d.cache@[l] + seq * row_stride(n)) as u64;
    let before = numbers(m, lane.h, 0, n.hidden as int);
    let x = normed(a, before, w.input_ln, n.rms_eps);
    let q = latent_queries(a, w, n, d.bufs.inv_freq, x, pos as int);
    let after = sum(
        a,
        before,
        times(a, w.o, latent_attended(a, m2, w, n, q, cache, pos as int)),
    );
    &&& latent(m2, cache, pos as int, n) == latent_of(a, w, n, d.bufs.inv_freq, x, pos as int)
    &&& forall|j: int|
        #![trigger latent(m2, cache, j, n)]
        0 <= j && j != pos ==> latent(m2, cache, j, n) == latent(m, cache, j, n)
    &&& numbers(m2, lane.h, 0, n.hidden as int) == after
    &&& numbers(m2, lane.hn, 0, n.hidden as int) == normed(a, after, w.post_ln, n.rms_eps)
    &&& forall|o: u64, at: int, c: int|
        o != lane.hn && !latent_buffers(d, lane, cache).contains(o) ==> #[trigger] numbers(
            m2,
            o,
            at,
            c,
        ) == numbers(m, o, at, c)
}

proof fn lemma_slice(v: int, i: int, off: int, len: int, stride: int)
    requires
        0 <= v,
        0 <= i < stride,
        0 <= off,
        0 <= len,
        off + len <= stride,
    ensures
        ({
            let k = v * stride + i;
            &&& off <= i < off + len ==> k >= off && (k - off) / stride == v && (k - off) % stride
                == i - off
            &&& !(off <= i < off + len) ==> k < off || (k - off) % stride >= len
        }),
{
    let k = v * stride + i;
    if i >= off {
        lemma_place(v, i - off, stride);
    } else if v == 0 {
        assert(0 * stride == 0) by (nonlinear_arith);
    } else {
        lemma_place(v - 1, stride - off + i, stride);
        assert((v - 1) * stride + stride == v * stride) by (nonlinear_arith);
    }
}

/// A rotation of a slice of each of some vectors.
proof fn lemma_rotate<T>(
    a: Arith<T>,
    m: Numbers<T>,
    x: u64,
    n: i32,
    stride: i32,
    off: i32,
    half: i32,
    pos: i32,
    freq: u64,
    scale: u32,
)
    requires
        0 <= n,
        0 <= half,
        0 <= off,
        off + 2 * half <= stride,
    ensures
        ({
            let m2 = ran(a, m, Kernels::mla_rope_launch(x, n, stride, off, half, pos, freq, scale));
            let len = n * stride;
            &&& numbers(m2, x, 0, len) == rotated(
                a,
                numbers(m, x, 0, len),
                stride as int,
                off as int,
                2 * half,
                pos as int,
                freq,
                scale,
            )
            &&& only(m, m2, x)
        }),
{
    let m2 = ran(a, m, Kernels::mla_rope_launch(x, n, stride, off, half, pos, freq, scale));
    let len = n * stride;
    let s = stride as int;
    let v = numbers(m, x, 0, len);
    let want = rotated(a, v, s, off as int, 2 * half, pos as int, freq, scale);
    assert forall|k: int| 0 <= k < len implies #[trigger] m2(x, k) == want[k] by {
        lemma_head(k, n as int, s);
        lemma_slice(k / s, k % s, off as int, 2 * half, s);
        if off <= k % s < off + 2 * half {
            let t = k / s;
            assert(numbers(m, x, off + t * s, 2 * half) =~= Seq::new(
                (2 * half) as nat,
                |i: int| v[t * s + off + i],
            )) by {
                assert forall|i: int| 0 <= i < 2 * half implies 0 <= #[trigger] (t * s + off + i)
                    < len by {
                    assert(t * s + s <= len);
                }
            }
        }
    }
    assert(numbers(m2, x, 0, len) =~= want);
    lemma_only(m, m2, x);
}

/// A product of each of some vectors with a matrix of its own.
proof fn lemma_products<T>(
    a: Arith<T>,
    m: Numbers<T>,
    w: u64,
    w_stride: u64,
    x: u64,
    x_stride: i32,
    y: u64,
    y_stride: i32,
    rows: i32,
    cols: i32,
    n: i32,
)
    requires
        0 <= rows <= y_stride,
        0 <= n,
    ensures
        ({
            let m2 = ran(
                a,
                m,
                Kernels::bf16_gemv_batch_launch(
                    w,
                    w_stride,
                    x,
                    x_stride,
                    y,
                    y_stride,
                    rows,
                    cols,
                    n,
                ),
            );
            &&& forall|h: int|
                #![trigger numbers(m2, y, h * y_stride, rows as int)]
                0 <= h < n ==> numbers(m2, y, h * y_stride, rows as int) == plain_times(
                    a,
                    w + 2 * (h * w_stride),
                    rows as int,
                    cols as int,
                    numbers(m, x, h * x_stride, cols as int),
                )
            &&& only(m, m2, y)
        }),
{
    let l = Kernels::bf16_gemv_batch_launch(
        w,
        w_stride,
        x,
        x_stride,
        y,
        y_stride,
        rows,
        cols,
        n,
    );
    let m2 = ran(a, m, l);
    crate::device::lemma_rows_run(l, rows as int);
    assert forall|h: int|
        #![trigger numbers(m2, y, h * y_stride, rows as int)]
        0 <= h < n implies numbers(m2, y, h * y_stride, rows as int) == plain_times(
        a,
        w + 2 * (h * w_stride),
        rows as int,
        cols as int,
        numbers(m, x, h * x_stride, cols as int),
    ) by {
        let want = plain_times(
            a,
            w + 2 * (h * w_stride),
            rows as int,
            cols as int,
            numbers(m, x, h * x_stride, cols as int),
        );
        assert forall|r: int| 0 <= r < rows implies #[trigger] m2(y, h * y_stride + r)
            == want[r] by {
            lemma_place(h, r, y_stride as int);
        }
        assert(numbers(m2, y, h * y_stride, rows as int) =~= want);
    }
    lemma_only(m, m2, y);
}

/// A copy into the slice at `off` of each of some vectors leaves the rest of
/// them.
proof fn lemma_copies<T>(
    a: Arith<T>,
    m: Numbers<T>,
    src: u64,
    src_stride: i32,
    src_off: i32,
    dst: u64,
    stride: i32,
    off: i32,
    n: i32,
    len: i32,
)
    requires
        0 <= n,
        0 <= len,
        0 <= off,
        off + len <= stride,
    ensures
        ({
            let m2 = ran(
                a,
                m,
                Kernels::strided_copy_launch(
                    src,
                    src_stride,
                    src_off,
                    dst,
                    stride,
                    off,
                    n,
                    len,
                ),
            );
            &&& forall|h: int, i: int|
                #![trigger m2(dst, h * stride + i)]
                0 <= h < n && 0 <= i < stride ==> m2(dst, h * stride + i) == (if off <= i < off
                    + len {
                    m(src, h * src_stride + src_off + (i - off))
                } else {
                    m(dst, h * stride + i)
                })
            &&& only(m, m2, dst)
        }),
{
    let m2 = ran(
        a,
        m,
        Kernels::strided_copy_launch(src, src_stride, src_off, dst, stride, off, n, len),
    );
    assert forall|h: int, i: int|
        #![trigger m2(dst, h * stride + i)]
        0 <= h < n && 0 <= i < stride implies m2(dst, h * stride + i) == (if off <= i < off + len {
        m(src, h * src_stride + src_off + (i - off))
    } else {
        m(dst, h * stride + i)
    }) by {
        lemma_slice(h, i, off as int, len as int, stride as int);
    }
    lemma_only(m, m2, dst);
}

/// A copy into one row leaves the others.
proof fn lemma_copy_row<T>(
    a: Arith<T>,
    m: Numbers<T>,
    src: u64,
    src_stride: i32,
    src_off: i32,
    dst: u64,
    row: i32,
    pos: int,
    off: int,
    at: i32,
    len: i32,
)
    requires
        0 <= len,
        0 <= off,
        off + len <= row,
        0 <= pos,
        at == pos * row + off,
    ensures
        ({
            let m2 = ran(
                a,
                m,
                Kernels::strided_copy_launch(src, src_stride, src_off, dst, row, at, 1, len),
            );
            &&& forall|j: int, i: int|
                #![trigger m2(dst, j * row + i)]
                0 <= j && 0 <= i < row ==> m2(dst, j * row + i) == (if j == pos && off <= i < off
                    + len {
                    m(src, src_off + (i - off))
                } else {
                    m(dst, j * row + i)
                })
            &&& only(m, m2, dst)
        }),
{
    let m2 = ran(
        a,
        m,
        Kernels::strided_copy_launch(src, src_stride, src_off, dst, row, at, 1, len),
    );
    let r = row as int;
    assert forall|j: int, i: int|
        #![trigger m2(dst, j * row + i)]
        0 <= j && 0 <= i < row implies m2(dst, j * row + i) == (if j == pos
            && off <= i < off + len {
        m(src, src_off + (i - off))
    } else {
        m(dst, j * row + i)
    }) by {
        let k = j * r + i;
        if j < pos {
            assert(k < pos * r) by (nonlinear_arith)
                requires
                    j + 1 <= pos,
                    0 <= i < r,
                    k == j * r + i,
            ;
        } else if j == pos {
            if i >= off {
                lemma_place(0, i - off, r);
                assert(0 * r == 0) by (nonlinear_arith);
                assert(0 * src_stride == 0) by (nonlinear_arith);
            }
        } else {
            // Behind the row: a later vector, or behind the slice.
            let t = j - pos;
            assert(j * r - pos * r == t * r) by (nonlinear_arith)
                requires
                    t == j - pos,
            ;
            if i >= off {
                lemma_place(t, i - off, r);
            } else {
                lemma_place(t - 1, r - off + i, r);
                assert((t - 1) * r + r == t * r) by (nonlinear_arith);
            }
        }
    }
    lemma_only(m, m2, dst);
}

proof fn lemma_contexts<T>(
    a: Arith<T>,
    m: Numbers<T>,
    q: u64,
    cache: u64,
    ctx: u64,
    scratch: u64,
    d: KimiDims,
    pos: i32,
)
    requires
        d.wf(),
        0 <= pos < d.max_seq,
    ensures
        ({
            let m2 = ran(
                a,
                m,
                Kernels::mla_attn_decode_launch(
                    q,
                    cache,
                    ctx,
                    scratch,
                    d.heads,
                    d.row() as i32,
                    d.kv_lora,
                    (pos + 1) as i32,
                    d.max_seq,
                    d.softmax_scale,
                ),
            );
            &&& forall|h: int|
                #![trigger numbers(m2, ctx, h * d.kv_lora, d.kv_lora as int)]
                0 <= h < d.heads ==> numbers(m2, ctx, h * d.kv_lora, d.kv_lora as int) == Seq::new(
                    d.kv_lora as nat,
                    |i: int|
                        (a.attend)(
                            false,
                            numbers(m, q, h * d.row(), d.row()),
                            Seq::new((pos + 1) as nat, |j: int| latent(m, cache, j, d)),
                            Seq::new(
                                (pos + 1) as nat,
                                |j: int| latent(m, cache, j, d).take(d.kv_lora as int),
                            ),
                            d.softmax_scale,
                            i,
                        ),
                )
            &&& only_two(m, m2, ctx, scratch)
        }),
{
    let m2 = ran(
        a,
        m,
        Kernels::mla_attn_decode_launch(
            q,
            cache,
            ctx,
            scratch,
            d.heads,
            d.row() as i32,
            d.kv_lora,
            (pos + 1) as i32,
            d.max_seq,
            d.softmax_scale,
        ),
    );
    let n = (pos + 1) as nat;
    let lora = d.kv_lora as int;
    let keys = Seq::new(n, |j: int| latent(m, cache, j, d));
    let values = Seq::new(n, |j: int| latent(m, cache, j, d).take(lora));
    assert(Seq::new(n, |j: int| numbers(m, cache, j * d.row(), d.row())) =~= keys);
    assert forall|j: int| numbers(m, cache, j * d.row(), lora) == #[trigger] latent(
        m,
        cache,
        j,
        d,
    ).take(lora) by {
        assert(numbers(m, cache, j * d.row(), lora) =~= latent(m, cache, j, d).take(lora));
    }
    assert(Seq::new(n, |j: int| numbers(m, cache, j * d.row(), lora)) =~= values);
    assert forall|h: int|
        #![trigger numbers(m2, ctx, h * d.kv_lora, d.kv_lora as int)]
        0 <= h < d.heads implies numbers(m2, ctx, h * d.kv_lora, d.kv_lora as int) == Seq::new(
        d.kv_lora as nat,
        |i: int|
            (a.attend)(
                false,
                numbers(m, q, h * d.row(), d.row()),
                Seq::new((pos + 1) as nat, |j: int| latent(m, cache, j, d)),
                Seq::new(
                    (pos + 1) as nat,
                    |j: int| latent(m, cache, j, d).take(d.kv_lora as int),
                ),
                d.softmax_scale,
                i,
            ),
    ) by {
        let want = Seq::new(
            d.kv_lora as nat,
            |i: int|
                (a.attend)(
                    false,
                    numbers(m, q, h * d.row(), d.row()),
                    keys,
                    values,
                    d.softmax_scale,
                    i,
                ),
        );
        assert forall|i: int| 0 <= i < lora implies #[trigger] m2(ctx, h * lora + i) == want[i] by {
            lemma_place(h, i, lora);
        }
        assert(numbers(m2, ctx, h * d.kv_lora, lora) =~= want);
    }
    lemma_only_two(m, m2, ctx, scratch);
}

proof fn lemma_weights_apart(x: i32, y: i32)
    requires
        0 <= x,
        0 <= y,
    ensures
        0 <= x * y <= u64::MAX,
{
    assert(0 <= x * y <= 0x7fff_ffff * 0x7fff_ffff) by (nonlinear_arith)
        requires
            0 <= x <= 0x7fff_ffff,
            0 <= y <= 0x7fff_ffff,
    ;
}

/// The attention plan of a layer means that.
#[verifier::rlimit(60)]
pub proof fn law_latent_attention_means<T>(
    a: Arith<T>,
    d: KimiDecoder,
    l: int,
    pos: i32,
    seq: nat,
    lane: Lane,
    m: Numbers<T>,
)
    requires
        d.wf(),
        0 <= l < d.layers@.len(),
        0 <= pos < d.dims.max_seq,
        seq < d.batch_cap,
        latent_shapes(d.layers@[l], d.dims),
        latent_apart(d, lane, (d.cache@[l] + seq * row_stride(d.dims)) as u64),
    ensures
        ({
            let plan = d.attention_launches(l, pos, seq, lane);
            attends_latent(a, d, l, pos, seq, lane, m, ran_all(a, m, plan, plan.len()))
        }),
{
    let plan = d.attention_launches(l, pos, seq, lane);
    let w = d.layers@[l];
    let n = d.dims;
    let b = d.bufs;
    let hid = n.hidden as int;
    let row = n.row();
    let qd = n.q_dim();
    let lora = n.kv_lora as int;
    let half = (n.rope / 2) as i32;
    let p = pos as int;
    let freq = b.inv_freq;
    let cache = (d.cache@[l] + seq * row_stride(n)) as u64;
    let all = latent_buffers(d, lane, cache);
    assert(all[0] == lane.h && all[1] == b.h_norm && all[2] == b.qa && all[3] == b.q && all[4]
        == b.kva && all[5] == b.ckv_norm && all[6] == cache && all[7] == b.q_full && all[8] == b.ctx
        && all[9] == b.attn_pre && all[10] == b.proj_out && all[11] == b.attn_scratch);
    assert(w.wf());
    assert(0 <= p * row && p * row + row <= n.max_seq * row) by (nonlinear_arith)
        requires
            0 <= p < n.max_seq,
            0 <= row,
    ;
    let m1 = ran(a, m, plan[0]);
    let m2 = ran(a, m1, plan[1]);
    let m3 = ran(a, m2, plan[2]);
    let m4 = ran(a, m3, plan[3]);
    let m5 = ran(a, m4, plan[4]);
    let m6 = ran(a, m5, plan[5]);
    let m7 = ran(a, m6, plan[6]);
    let m8 = ran(a, m7, plan[7]);
    let m9 = ran(a, m8, plan[8]);
    let m10 = ran(a, m9, plan[9]);
    let m11 = ran(a, m10, plan[10]);
    let m12 = ran(a, m11, plan[11]);
    let m13 = ran(a, m12, plan[12]);
    let m14 = ran(a, m13, plan[13]);
    let m15 = ran(a, m14, plan[14]);
    let m16 = ran(a, m15, plan[15]);
    let m17 = ran(a, m16, plan[16]);
    assert(ran_all(a, m, plan, 17) == m17) by {
        reveal_with_fuel(ran_all, 18);
    }
    let before = numbers(m, lane.h, 0, hid);
    let x = normed(a, before, w.input_ln, n.rms_eps);
    lemma_norm(a, m, lane.h, w.input_ln, b.h_norm, n.hidden, n.rms_eps);
    assert(numbers(m1, b.h_norm, 0, hid) == x);
    lemma_product(a, m1, w.q_a, b.h_norm, b.qa);
    lemma_norm(a, m2, b.qa, w.q_a_ln, b.qa, n.q_lora, n.rms_eps);
    lemma_product(a, m3, w.q_b, b.qa, b.q);
    lemma_product(a, m4, w.kv_a, b.h_norm, b.kva);
    let kva = times(a, w.kv_a, x);
    assert(numbers(m5, b.kva, 0, row) == kva);
    lemma_norm(a, m5, b.kva, w.kv_a_ln, b.ckv_norm, n.kv_lora, n.rms_eps);
    assert(numbers(m5, b.kva, 0, lora) =~= kva.take(lora)) by {
        assert forall|i: int| 0 <= i < lora implies m5(b.kva, i) == #[trigger] kva[i] by {
            assert(numbers(m5, b.kva, 0, row)[i] == m5(b.kva, 0 + i));
        }
    }
    let ckv = normed(a, kva.take(lora), w.kv_a_ln, n.rms_eps);
    assert(numbers(m6, b.ckv_norm, 0, lora) == ckv);
    lemma_rotate(a, m6, b.q, n.heads, qd as i32, n.nope, half, pos, freq, n.one);
    let q = latent_queries(a, w, n, freq, x, p);
    assert(numbers(m7, b.q, 0, n.heads * qd) == q);
    lemma_rotate(a, m7, b.kva, 1, row as i32, n.kv_lora, half, pos, freq, n.one);
    let comp = compressed(a, w, n, freq, x, p);
    assert(1 * row == row);
    assert(numbers(m8, b.kva, 0, row) == comp);
    lemma_copy_row(
        a,
        m8,
        b.ckv_norm,
        n.kv_lora,
        0,
        cache,
        row as i32,
        p,
        0,
        (p * row) as i32,
        n.kv_lora,
    );
    lemma_copy_row(
        a,
        m9,
        b.kva,
        row as i32,
        n.kv_lora,
        cache,
        row as i32,
        p,
        lora,
        (p * row + lora) as i32,
        n.rope,
    );
    let mine = latent_of(a, w, n, freq, x, p);
    assert(latent(m10, cache, p, n) =~= mine) by {
        assert(numbers(m8, b.ckv_norm, 0, lora) == ckv);
        assert(numbers(m9, b.kva, 0, row) == comp);
        assert forall|i: int| 0 <= i < row implies #[trigger] m10(cache, p * row + i)
            == mine[i] by {
            assert(m9(cache, p * row + i) == (if 0 <= i < lora {
                m8(b.ckv_norm, 0 + (i - 0))
            } else {
                m8(cache, p * row + i)
            }));
            if i < lora {
                assert(numbers(m8, b.ckv_norm, 0, lora)[i] == m8(b.ckv_norm, 0 + i));
            } else {
                assert(numbers(m9, b.kva, 0, row)[i] == m9(b.kva, 0 + i));
            }
        }
    }
    assert forall|j: int| 0 <= j && j != p implies #[trigger] latent(m10, cache, j, n) == latent(
        m,
        cache,
        j,
        n,
    ) by {
        assert(latent(m8, cache, j, n) == latent(m, cache, j, n)) by {
            assert(latent(m1, cache, j, n) == latent(m, cache, j, n));
            assert(latent(m2, cache, j, n) == latent(m1, cache, j, n));
            assert(latent(m3, cache, j, n) == latent(m2, cache, j, n));
            assert(latent(m4, cache, j, n) == latent(m3, cache, j, n));
            assert(latent(m5, cache, j, n) == latent(m4, cache, j, n));
            assert(latent(m6, cache, j, n) == latent(m5, cache, j, n));
            assert(latent(m7, cache, j, n) == latent(m6, cache, j, n));
        }
        assert forall|i: int| 0 <= i < row implies #[trigger] m10(cache, j * row + i) == m8(
            cache,
            j * row + i,
        ) by {
            assert(m9(cache, j * row + i) == m8(cache, j * row + i));
        }
        assert(latent(m10, cache, j, n) =~= latent(m8, cache, j, n));
    }
    lemma_weights_apart(n.kv_lora, n.nope);
    lemma_products(
        a,
        m10,
        w.kt,
        (n.kv_lora * n.nope) as u64,
        b.q,
        qd as i32,
        b.q_full,
        row as i32,
        n.kv_lora,
        n.nope,
        n.heads,
    );
    lemma_copies(
        a,
        m11,
        b.q,
        qd as i32,
        n.nope,
        b.q_full,
        row as i32,
        n.kv_lora,
        n.heads,
        n.rope,
    );
    assert(numbers(m10, b.q, 0, n.heads * qd) == q);
    assert(numbers(m11, b.q, 0, n.heads * qd) == q);
    assert forall|h: int| 0 <= h < n.heads implies #[trigger] numbers(m12, b.q_full, h * row, row)
        == absorbed(a, w, n, q, h) by {
        lemma_absorbed(a, d, w, m10, m11, m12, q, h);
    }
    lemma_contexts(a, m12, b.q_full, cache, b.ctx, b.attn_scratch, n, pos);
    lemma_weights_apart(n.v_head, n.kv_lora);
    lemma_products(
        a,
        m13,
        w.vw,
        (n.v_head * n.kv_lora) as u64,
        b.ctx,
        n.kv_lora,
        b.attn_pre,
        n.v_head,
        n.v_head,
        n.kv_lora,
        n.heads,
    );
    lemma_product(a, m14, w.o, b.attn_pre, b.proj_out);
    lemma_sum(a, m15, lane.h, b.proj_out, n.hidden);
    lemma_norm(a, m16, lane.h, w.post_ln, lane.hn, n.hidden, n.rms_eps);
    assert forall|j: int| #[trigger] latent(m17, cache, j, n) == latent(m10, cache, j, n) by {
        assert(latent(m11, cache, j, n) == latent(m10, cache, j, n));
        assert(latent(m12, cache, j, n) == latent(m11, cache, j, n));
        assert(latent(m13, cache, j, n) == latent(m12, cache, j, n));
        assert(latent(m14, cache, j, n) == latent(m13, cache, j, n));
        assert(latent(m15, cache, j, n) == latent(m14, cache, j, n));
        assert(latent(m16, cache, j, n) == latent(m15, cache, j, n));
    }
    let seen = latent_attended(a, m17, w, n, q, cache, p);
    let dim = n.v_head as int;
    let vn = n.heads * dim;
    assert(numbers(m14, b.attn_pre, 0, vn) =~= seen) by {
        assert forall|j: int| #[trigger] latent(m17, cache, j, n) == latent(m12, cache, j, n) by {
            assert(latent(m11, cache, j, n) == latent(m10, cache, j, n));
            assert(latent(m12, cache, j, n) == latent(m11, cache, j, n));
        }
        assert(Seq::new((pos + 1) as nat, |j: int| latent(m12, cache, j, n)) =~= Seq::new(
            (pos + 1) as nat,
            |j: int| latent(m17, cache, j, n),
        ));
        assert(Seq::new((pos + 1) as nat, |j: int| latent(m12, cache, j, n).take(lora))
            =~= Seq::new((pos + 1) as nat, |j: int| latent(m17, cache, j, n).take(lora)));
        assert forall|k: int| 0 <= k < vn implies #[trigger] m14(b.attn_pre, k) == seen[k] by {
            lemma_head(k, n.heads as int, dim);
            let h = k / dim;
            assert(numbers(m12, b.q_full, h * row, row) == absorbed(a, w, n, q, h));
            let ctx = numbers(m13, b.ctx, h * n.kv_lora, lora);
            assert(ctx =~= context_of(a, m17, w, n, q, cache, p, h));
            let out = numbers(m14, b.attn_pre, h * n.v_head, dim);
            assert(out[k % dim] == m14(b.attn_pre, h * n.v_head + k % dim));
        }
    }
    assert(numbers(m15, b.proj_out, 0, hid) == times(a, w.o, seen));
    let after = sum(a, before, times(a, w.o, seen));
    assert(numbers(m15, lane.h, 0, hid) == before) by {
        assert(numbers(m1, lane.h, 0, hid) == before);
        assert(numbers(m2, lane.h, 0, hid) == before);
        assert(numbers(m3, lane.h, 0, hid) == before);
        assert(numbers(m4, lane.h, 0, hid) == before);
        assert(numbers(m5, lane.h, 0, hid) == before);
        assert(numbers(m6, lane.h, 0, hid) == before);
        assert(numbers(m7, lane.h, 0, hid) == before);
        assert(numbers(m8, lane.h, 0, hid) == before);
        assert(numbers(m9, lane.h, 0, hid) == before);
        assert(numbers(m10, lane.h, 0, hid) == before);
        assert(numbers(m11, lane.h, 0, hid) == before);
        assert(numbers(m12, lane.h, 0, hid) == before);
        assert(numbers(m13, lane.h, 0, hid) == before);
        assert(numbers(m14, lane.h, 0, hid) == before);
    }
    assert(numbers(m16, lane.h, 0, hid) == after);
    assert(numbers(m17, lane.h, 0, hid) == after);
    assert forall|o: u64, at: int, c: int| o != lane.hn
        && !all.contains(o) implies #[trigger] numbers(
        m17,
        o,
        at,
        c,
    ) == numbers(m, o, at, c) by {
        assert(forall|i: int| 0 <= i < all.len() ==> o != #[trigger] all[i]);
        assert(numbers(m1, o, at, c) == numbers(m, o, at, c));
        assert(numbers(m2, o, at, c) == numbers(m1, o, at, c));
        assert(numbers(m3, o, at, c) == numbers(m2, o, at, c));
        assert(numbers(m4, o, at, c) == numbers(m3, o, at, c));
        assert(numbers(m5, o, at, c) == numbers(m4, o, at, c));
        assert(numbers(m6, o, at, c) == numbers(m5, o, at, c));
        assert(numbers(m7, o, at, c) == numbers(m6, o, at, c));
        assert(numbers(m8, o, at, c) == numbers(m7, o, at, c));
        assert(numbers(m9, o, at, c) == numbers(m8, o, at, c));
        assert(numbers(m10, o, at, c) == numbers(m9, o, at, c));
        assert(numbers(m11, o, at, c) == numbers(m10, o, at, c));
        assert(numbers(m12, o, at, c) == numbers(m11, o, at, c));
        assert(numbers(m13, o, at, c) == numbers(m12, o, at, c));
        assert(numbers(m14, o, at, c) == numbers(m13, o, at, c));
        assert(numbers(m15, o, at, c) == numbers(m14, o, at, c));
        assert(numbers(m16, o, at, c) == numbers(m15, o, at, c));
    }
}

proof fn lemma_absorbed<T>(
    a: Arith<T>,
    d: KimiDecoder,
    w: KimiLayer,
    m10: Numbers<T>,
    m11: Numbers<T>,
    m12: Numbers<T>,
    q: Seq<T>,
    h: int,
)
    requires
        d.wf(),
        0 <= h < d.dims.heads,
        numbers(m10, d.bufs.q, 0, d.dims.heads * d.dims.q_dim()) == q,
        numbers(m11, d.bufs.q, 0, d.dims.heads * d.dims.q_dim()) == q,
        numbers(m11, d.bufs.q_full, h * (d.dims.row() as i32), d.dims.kv_lora as int)
            == plain_times(
            a,
            w.kt + 2 * (h * ((d.dims.kv_lora * d.dims.nope) as u64)),
            d.dims.kv_lora as int,
            d.dims.nope as int,
            numbers(m10, d.bufs.q, h * (d.dims.q_dim() as i32), d.dims.nope as int),
        ),
        forall|i: int|
            #![trigger m12(d.bufs.q_full, h * (d.dims.row() as i32) + i)]
            0 <= i < d.dims.row() ==> m12(d.bufs.q_full, h * (d.dims.row() as i32) + i) == (
            if d.dims.kv_lora <= i < d.dims.kv_lora + d.dims.rope {
                m11(
                    d.bufs.q,
                    h * (d.dims.q_dim() as i32) + d.dims.nope + (i - d.dims.kv_lora),
                )
            } else {
                m11(d.bufs.q_full, h * (d.dims.row() as i32) + i)
            }),
    ensures
        numbers(m12, d.bufs.q_full, h * d.dims.row(), d.dims.row()) == absorbed(
            a,
            w,
            d.dims,
            q,
            h,
        ),
{
    let n = d.dims;
    let (row, qd, lora) = (n.row(), n.q_dim(), n.kv_lora as int);
    lemma_weights_apart(n.kv_lora, n.nope);
    assert(0 <= h * qd && h * qd + qd <= n.heads * qd) by (nonlinear_arith)
        requires
            0 <= h < n.heads,
            0 <= qd,
    ;
    assert(numbers(m10, d.bufs.q, h * qd, n.nope as int) =~= part(q, h, qd, 0, n.nope as int)) by {
        assert forall|i: int| 0 <= i < n.nope implies m10(d.bufs.q, h * qd + i)
            == #[trigger] q[h * qd + 0 + i] by {
            assert(numbers(m10, d.bufs.q, 0, n.heads * qd)[h * qd + i] == m10(
                d.bufs.q,
                0 + (h * qd + i),
            ));
        }
    }
    let want = absorbed(a, w, n, q, h);
    let first = plain_times(
        a,
        w.kt + 2 * (h * (n.kv_lora * n.nope)),
        lora,
        n.nope as int,
        part(q, h, qd, 0, n.nope as int),
    );
    let got = numbers(m12, d.bufs.q_full, h * row, row);
    assert forall|i: int| 0 <= i < row implies #[trigger] got[i] == want[i] by {
        assert(got[i] == m12(d.bufs.q_full, h * row + i));
        if i < lora {
            assert(numbers(m11, d.bufs.q_full, h * row, lora)[i] == m11(
                d.bufs.q_full,
                h * row + i,
            ));
            assert(want[i] == first[i]);
        } else {
            let t = i - lora;
            assert(numbers(m11, d.bufs.q, 0, n.heads * qd)[h * qd + n.nope + t] == m11(
                d.bufs.q,
                0 + (h * qd + n.nope + t),
            ));
            assert(want[i] == part(q, h, qd, n.nope as int, n.rope as int)[t]);
        }
    }
    assert(got =~= want);
}

} // verus!
