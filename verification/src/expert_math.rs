//! What the routed experts compute: each its feed-forward block on the normed
//! hidden state, and their weighted sum on top of the hidden state.

use crate::decode::{BlobOffsets, Decoder, Lane};
use crate::device::{lemma_place, numbers, ran, ran_all, Arith, Encoding, Numbers};
use crate::kimi::KimiDecoder;
use crate::launch::{Kernels, LaunchView};
use crate::vectors::{gate, lemma_gate, lemma_only, only};
use vstd::prelude::*;

verus! {

/// A region of the blob of the expert in place `e` of the table, times a
/// vector.
pub open spec fn region<T>(
    a: Arith<T>,
    table: u64,
    e: int,
    off: int,
    rows: int,
    cols: int,
    group: int,
    x: Seq<T>,
) -> Seq<T> {
    Seq::new(
        rows as nat,
        |r: int| (a.dot)(Encoding::Q4 { group }, (a.address)(table, e) + off, rows, cols, x, r),
    )
}

/// What the expert in place `e` of the table makes of a vector: the gated
/// product of its gate and up regions, through its down region.
pub open spec fn expert<T>(
    a: Arith<T>,
    table: u64,
    e: int,
    o: BlobOffsets,
    inter: int,
    hidden: int,
    x: Seq<T>,
) -> Seq<T> {
    let g = o.group as int;
    let inner = gate(
        a,
        region(a, table, e, o.gate as int, inter, hidden, g, x),
        region(a, table, e, o.up as int, inter, hidden, g, x),
    );
    region(a, table, e, o.down as int, hidden, inter, g, inner)
}

/// A hidden state with the first `n` experts of the table added, each with its
/// weight.
pub open spec fn with_experts<T>(
    a: Arith<T>,
    h: Seq<T>,
    table: u64,
    weights: Seq<T>,
    o: BlobOffsets,
    inter: int,
    x: Seq<T>,
) -> Seq<T> {
    Seq::new(
        h.len(),
        |k: int|
            (a.weigh)(
                h[k],
                weights,
                Seq::new(
                    weights.len(),
                    |e: int| expert(a, table, e, o, inter, h.len() as int, x)[k],
                ),
            ),
    )
}

proof fn lemma_batch<T>(
    a: Arith<T>,
    m: Numbers<T>,
    table: u64,
    off: u64,
    x: u64,
    stride: i32,
    y: u64,
    rows: i32,
    cols: i32,
    group: i32,
    n: i32,
)
    requires
        0 <= rows,
        0 <= n,
    ensures
        ({
            let m2 = ran(
                a,
                m,
                Kernels::q4g64_gemv_batch_launch(table, off, x, stride, y, rows, cols, group, n),
            );
            &&& forall|e: int|
                #![trigger numbers(m2, y, e * rows, rows as int)]
                0 <= e < n ==> numbers(m2, y, e * rows, rows as int) == region(
                    a,
                    table,
                    e,
                    off as int,
                    rows as int,
                    cols as int,
                    group as int,
                    numbers(m, x, e * stride, cols as int),
                )
            &&& only(m, m2, y)
        }),
{
    let l = Kernels::q4g64_gemv_batch_launch(table, off, x, stride, y, rows, cols, group, n);
    let m2 = ran(a, m, l);
    crate::device::lemma_rows_run(l, rows as int);
    assert forall|e: int|
        #![trigger numbers(m2, y, e * rows, rows as int)]
        0 <= e < n implies numbers(m2, y, e * rows, rows as int) == region(
        a,
        table,
        e,
        off as int,
        rows as int,
        cols as int,
        group as int,
        numbers(m, x, e * stride, cols as int),
    ) by {
        let want = region(
            a,
            table,
            e,
            off as int,
            rows as int,
            cols as int,
            group as int,
            numbers(m, x, e * stride, cols as int),
        );
        assert forall|r: int| 0 <= r < rows implies #[trigger] m2(y, e * rows + r) == want[r] by {
            lemma_place(e, r, rows as int);
        }
        assert(numbers(m2, y, e * rows, rows as int) =~= want);
    }
    lemma_only(m, m2, y);
}

proof fn lemma_reduce<T>(a: Arith<T>, m: Numbers<T>, outs: u64, wts: u64, h: u64, n: i32, len: i32)
    requires
        0 <= len,
        0 <= n,
    ensures
        ({
            let m2 = ran(a, m, Kernels::moe_reduce_launch(outs, wts, h, n, len));
            &&& numbers(m2, h, 0, len as int) == Seq::new(
                len as nat,
                |k: int|
                    (a.weigh)(
                        m(h, k),
                        numbers(m, wts, 0, n as int),
                        Seq::new(n as nat, |e: int| numbers(m, outs, e * len, len as int)[k]),
                    ),
            )
            &&& only(m, m2, h)
        }),
{
    let m2 = ran(a, m, Kernels::moe_reduce_launch(outs, wts, h, n, len));
    let want = Seq::new(
        len as nat,
        |k: int|
            (a.weigh)(
                m(h, k),
                numbers(m, wts, 0, n as int),
                Seq::new(n as nat, |e: int| numbers(m, outs, e * len, len as int)[k]),
            ),
    );
    assert forall|k: int| 0 <= k < len implies #[trigger] m2(h, k) == want[k] by {
        lemma_place(k, 0, 1);
        assert(Seq::new(n as nat, |x: int| m(outs, x * len + k)) =~= Seq::new(
            n as nat,
            |e: int| numbers(m, outs, e * len, len as int)[k],
        ));
    }
    assert(numbers(m2, h, 0, len as int) =~= want);
    lemma_only(m, m2, h);
}

/// The buffers that experts work on, and those that they start from.
pub struct Bench {
    pub table: u64,
    pub weights: u64,
    pub gate: u64,
    pub up: u64,
    pub act: u64,
    pub out: u64,
}

/// Those of the Qwen engine.
pub open spec fn qwen_bench(d: Decoder) -> Bench {
    Bench {
        table: d.bufs.expert_ptrs,
        weights: d.bufs.expert_wts,
        gate: d.bufs.gate_out,
        up: d.bufs.up_out,
        act: d.bufs.act_out,
        out: d.bufs.expert_out,
    }
}

/// Those of the Kimi engine.
pub open spec fn kimi_bench(d: KimiDecoder) -> Bench {
    Bench {
        table: d.bufs.expert_ptrs,
        weights: d.bufs.expert_wts,
        gate: d.bufs.gate_out,
        up: d.bufs.up_out,
        act: d.bufs.act_out,
        out: d.bufs.expert_out,
    }
}

/// They are different ones.
pub open spec fn bench_apart(b: Bench, lane: Lane) -> bool {
    seq![lane.h, lane.hn, b.weights, b.gate, b.up, b.act, b.out].no_duplicates()
}

/// A plan leaves the hidden state with the experts added.
pub open spec fn adds_experts<T>(
    a: Arith<T>,
    m: Numbers<T>,
    plan: Seq<LaunchView>,
    b: Bench,
    o: BlobOffsets,
    lane: Lane,
    n: int,
    inter: int,
    hidden: int,
) -> bool {
    let m2 = ran_all(a, m, plan, plan.len());
    numbers(m2, lane.h, 0, hidden) == with_experts(
        a,
        numbers(m, lane.h, 0, hidden),
        b.table,
        numbers(m, b.weights, 0, n),
        o,
        inter,
        numbers(m, lane.hn, 0, hidden),
    )
}

proof fn lemma_experts<T>(
    a: Arith<T>,
    m: Numbers<T>,
    plan: Seq<LaunchView>,
    b: Bench,
    o: BlobOffsets,
    lane: Lane,
    n: i32,
    inter: i32,
    hidden: i32,
)
    requires
        0 <= n,
        0 <= inter,
        0 <= hidden,
        0 <= n * inter <= i32::MAX,
        bench_apart(b, lane),
        plan.len() == 5,
        plan[0] == Kernels::q4g64_gemv_batch_launch(
            b.table,
            o.gate,
            lane.hn,
            0,
            b.gate,
            inter,
            hidden,
            o.group,
            n,
        ),
        plan[1] == Kernels::q4g64_gemv_batch_launch(
            b.table,
            o.up,
            lane.hn,
            0,
            b.up,
            inter,
            hidden,
            o.group,
            n,
        ),
        plan[2] == Kernels::silu_mul_launch(b.gate, b.up, b.act, (n * inter) as i32),
        plan[3] == Kernels::q4g64_gemv_batch_launch(
            b.table,
            o.down,
            b.act,
            inter,
            b.out,
            hidden,
            inter,
            o.group,
            n,
        ),
        plan[4] == Kernels::moe_reduce_launch(b.out, b.weights, lane.h, n, hidden),
    ensures
        adds_experts(a, m, plan, b, o, lane, n as int, inter as int, hidden as int),
{
    let s = seq![lane.h, lane.hn, b.weights, b.gate, b.up, b.act, b.out];
    assert(s[0] == lane.h && s[1] == lane.hn && s[2] == b.weights && s[3] == b.gate && s[4] == b.up
        && s[5] == b.act && s[6] == b.out);
    let m1 = ran(a, m, plan[0]);
    let m2 = ran(a, m1, plan[1]);
    let m3 = ran(a, m2, plan[2]);
    let m4 = ran(a, m3, plan[3]);
    let m5 = ran(a, m4, plan[4]);
    assert(ran_all(a, m, plan, 5) == m5) by {
        reveal_with_fuel(ran_all, 6);
    }
    let (i, hid, g) = (inter as int, hidden as int, o.group as int);
    let x = numbers(m, lane.hn, 0, hid);
    lemma_batch(a, m, b.table, o.gate, lane.hn, 0, b.gate, inter, hidden, o.group, n);
    lemma_batch(a, m1, b.table, o.up, lane.hn, 0, b.up, inter, hidden, o.group, n);
    lemma_gate(a, m2, b.gate, b.up, b.act, (n * inter) as i32);
    lemma_batch(a, m3, b.table, o.down, b.act, inter, b.out, hidden, inter, o.group, n);
    lemma_reduce(a, m4, b.out, b.weights, lane.h, n, hidden);
    let h = numbers(m, lane.h, 0, hid);
    let wts = numbers(m, b.weights, 0, n as int);
    assert(numbers(m4, b.weights, 0, n as int) == wts);
    assert forall|e: int| 0 <= e < n implies #[trigger] numbers(m4, b.out, e * hid, hid) == expert(
        a,
        b.table,
        e,
        o,
        i,
        hid,
        x,
    ) by {
        let gates = region(a, b.table, e, o.gate as int, i, hid, g, x);
        let ups = region(a, b.table, e, o.up as int, i, hid, g, x);
        assert(e * 0 == 0);
        assert(numbers(m1, b.gate, e * inter, i) == gates);
        assert(numbers(m2, b.gate, e * inter, i) == gates);
        assert(numbers(m1, lane.hn, e * 0, hid) == x);
        assert(numbers(m2, b.up, e * inter, i) == ups);
        let act = numbers(m3, b.act, e * inter, i);
        assert forall|k: int| 0 <= k < i implies #[trigger] act[k] == (a.gated)(
            gates[k],
            ups[k],
        ) by {
            let at = e * inter + k;
            assert(0 <= at < n * inter) by (nonlinear_arith)
                requires
                    0 <= e < n,
                    0 <= k < inter,
                    at == e * inter + k,
            ;
            let all = numbers(m3, b.act, 0, n * inter);
            assert(all[at] == m3(b.act, at));
            assert(numbers(m2, b.gate, e * inter, i)[k] == m2(b.gate, at));
            assert(numbers(m2, b.up, e * inter, i)[k] == m2(b.up, at));
        }
        assert(act =~= gate(a, gates, ups));
    }
    let want = with_experts(a, h, b.table, wts, o, i, x);
    let got = numbers(m5, lane.h, 0, hid);
    assert forall|k: int| 0 <= k < hid implies got[k] == want[k] by {
        assert(m4(lane.h, k) == h[k]) by {
            assert(m1(lane.h, k) == m(lane.h, k));
            assert(m2(lane.h, k) == m1(lane.h, k));
            assert(m3(lane.h, k) == m2(lane.h, k));
            assert(m4(lane.h, k) == m3(lane.h, k));
        }
        assert(Seq::new(n as nat, |e: int| numbers(m4, b.out, e * hid, hid)[k]) =~= Seq::new(
            wts.len(),
            |e: int| expert(a, b.table, e, o, i, h.len() as int, x)[k],
        ));
    }
    assert(got =~= want);
}

/// The routed experts of the Qwen engine: the hidden state of the lane gets the
/// weighted sum of what the experts in the table make of its normed copy.
pub proof fn law_experts_mean<T>(a: Arith<T>, d: Decoder, lane: Lane, n: i32, m: Numbers<T>)
    requires
        d.wf(),
        0 <= n <= d.dims.top_k,
        bench_apart(qwen_bench(d), lane),
    ensures
        adds_experts(
            a,
            m,
            d.expert_launches(lane, n),
            qwen_bench(d),
            d.blob,
            lane,
            n as int,
            d.dims.moe_inter as int,
            d.dims.hidden as int,
        ),
{
    assert(0 <= n * d.dims.moe_inter <= d.dims.top_k * d.dims.moe_inter) by (nonlinear_arith)
        requires
            0 <= n <= d.dims.top_k,
            0 <= d.dims.moe_inter,
    ;
    lemma_experts(
        a,
        m,
        d.expert_launches(lane, n),
        qwen_bench(d),
        d.blob,
        lane,
        n,
        d.dims.moe_inter,
        d.dims.hidden,
    );
}

/// The same of the Kimi engine.
pub proof fn law_kimi_experts_mean<T>(
    a: Arith<T>,
    d: KimiDecoder,
    lane: Lane,
    n: i32,
    m: Numbers<T>,
)
    requires
        d.wf(),
        0 <= n <= d.dims.top_k,
        bench_apart(kimi_bench(d), lane),
    ensures
        adds_experts(
            a,
            m,
            d.expert_launches(lane, n),
            kimi_bench(d),
            d.blob,
            lane,
            n as int,
            d.dims.moe_inter as int,
            d.dims.hidden as int,
        ),
{
    assert(0 <= n * d.dims.moe_inter <= d.dims.top_k * d.dims.moe_inter) by (nonlinear_arith)
        requires
            0 <= n <= d.dims.top_k,
            0 <= d.dims.moe_inter,
    ;
    lemma_experts(
        a,
        m,
        d.expert_launches(lane, n),
        kimi_bench(d),
        d.blob,
        lane,
        n,
        d.dims.moe_inter,
        d.dims.hidden,
    );
}

} // verus!
