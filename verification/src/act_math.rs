//! What the acts of a step compute, each for its own entry: its token, its
//! position, its sequence slot and its lane.

use crate::acts::ActView;
use crate::any::{AnyDecoder, Plan};
use crate::decode::{slot_stride, Decoder, Lane};
use crate::device::{lemma_place, numbers, ran, ran_all, Arith, Numbers};
use crate::expert_math::{
    adds_experts, bench_apart, kimi_bench, law_experts_mean, law_kimi_experts_mean, qwen_bench,
};
use crate::kimi::{row_stride, FeedForward, KimiDecoder, Mlp};
use crate::kimi_layer::{attends_latent, latent_apart, latent_shapes, law_latent_attention_means};
use crate::launch::LaunchView;
use crate::qwen_layer::{attends, buffers_apart, has_shapes, law_attention_means, law_logits_mean};
use crate::steps::Entry;
use crate::vectors::{gate, lemma_gate, lemma_norm, lemma_product, lemma_sum, normed, sum, times};
use vstd::prelude::*;

verus! {

/// What a feed-forward block makes of a vector.
pub open spec fn feed_forward<T>(a: Arith<T>, mlp: Mlp, x: Seq<T>) -> Seq<T> {
    times(a, mlp.down, gate(a, times(a, mlp.gate, x), times(a, mlp.up, x)))
}

/// Its matrices have the shapes that go with a hidden state and an inner
/// vector of these lengths.
pub open spec fn mlp_shapes(mlp: Mlp, hidden: i32, inner: i32) -> bool {
    &&& mlp.gate.rows == inner
    &&& mlp.gate.cols == hidden
    &&& mlp.up.rows == inner
    &&& mlp.up.cols == hidden
    &&& mlp.down.rows == hidden
    &&& mlp.down.cols == inner
}

proof fn lemma_feed_forward<T>(
    a: Arith<T>,
    m: Numbers<T>,
    mlp: Mlp,
    x: u64,
    g: u64,
    u: u64,
    y: u64,
    hidden: i32,
    inner: i32,
)
    requires
        0 <= hidden,
        0 <= inner,
        mlp_shapes(mlp, hidden, inner),
        x != g,
        g != u,
        x != y,
    ensures
        ({
            let m1 = ran(a, m, mlp.gate.gemv_launch(x, g));
            let m2 = ran(a, m1, mlp.up.gemv_launch(x, u));
            let m3 = ran(a, m2, crate::launch::Kernels::silu_mul_launch(g, u, g, inner));
            let m4 = ran(a, m3, mlp.down.gemv_launch(g, y));
            &&& numbers(m4, y, 0, hidden as int) == feed_forward(
                a,
                mlp,
                numbers(m, x, 0, hidden as int),
            )
            &&& forall|b: u64, at: int, n: int|
                b != g && b != u && b != y ==> #[trigger] numbers(m4, b, at, n) == numbers(
                    m,
                    b,
                    at,
                    n,
                )
        }),
{
    let m1 = ran(a, m, mlp.gate.gemv_launch(x, g));
    let m2 = ran(a, m1, mlp.up.gemv_launch(x, u));
    let m3 = ran(a, m2, crate::launch::Kernels::silu_mul_launch(g, u, g, inner));
    let m4 = ran(a, m3, mlp.down.gemv_launch(g, y));
    lemma_product(a, m, mlp.gate, x, g);
    lemma_product(a, m1, mlp.up, x, u);
    lemma_gate(a, m2, g, u, g, inner);
    lemma_product(a, m3, mlp.down, g, y);
    assert(numbers(m1, x, 0, hidden as int) == numbers(m, x, 0, hidden as int));
    assert forall|b: u64, at: int, n: int| b != g && b != u && b != y implies #[trigger] numbers(
        m4,
        b,
        at,
        n,
    ) == numbers(m, b, at, n) by {
        assert(numbers(m1, b, at, n) == numbers(m, b, at, n));
        assert(numbers(m2, b, at, n) == numbers(m1, b, at, n));
        assert(numbers(m3, b, at, n) == numbers(m2, b, at, n));
    }
}

/// The dense block of a layer is added to the hidden state.
pub proof fn law_dense_means<T>(
    a: Arith<T>,
    d: KimiDecoder,
    mlp: Mlp,
    lane: Lane,
    m: Numbers<T>,
)
    requires
        d.wf(),
        mlp_shapes(mlp, d.dims.hidden, d.dims.dense_inter),
        seq![lane.h, lane.hn, d.bufs.dn_gate, d.bufs.dn_up, d.bufs.proj_out].no_duplicates(),
    ensures
        ({
            let plan = d.dense_launches(mlp, lane);
            let n = d.dims.hidden as int;
            numbers(ran_all(a, m, plan, plan.len()), lane.h, 0, n) == sum(
                a,
                numbers(m, lane.h, 0, n),
                feed_forward(a, mlp, numbers(m, lane.hn, 0, n)),
            )
        }),
{
    let plan = d.dense_launches(mlp, lane);
    let s = seq![lane.h, lane.hn, d.bufs.dn_gate, d.bufs.dn_up, d.bufs.proj_out];
    assert(s[0] == lane.h && s[1] == lane.hn && s[2] == d.bufs.dn_gate && s[3] == d.bufs.dn_up
        && s[4] == d.bufs.proj_out);
    let m1 = ran(a, m, plan[0]);
    let m2 = ran(a, m1, plan[1]);
    let m3 = ran(a, m2, plan[2]);
    let m4 = ran(a, m3, plan[3]);
    assert(ran_all(a, m, plan, 5) == ran(a, m4, plan[4])) by {
        reveal_with_fuel(ran_all, 6);
    }
    lemma_feed_forward(
        a,
        m,
        mlp,
        lane.hn,
        d.bufs.dn_gate,
        d.bufs.dn_up,
        d.bufs.proj_out,
        d.dims.hidden,
        d.dims.dense_inter,
    );
    lemma_sum(a, m4, lane.h, d.bufs.proj_out, d.dims.hidden);
}

/// The shared expert leaves its output, and it is added to the hidden state.
pub proof fn law_shared_expert_means<T>(
    a: Arith<T>,
    d: KimiDecoder,
    mlp: Mlp,
    lane: Lane,
    m: Numbers<T>,
)
    requires
        d.wf(),
        mlp_shapes(mlp, d.dims.hidden, d.dims.moe_inter),
        seq![lane.h, lane.hn, d.bufs.sh_gate, d.bufs.sh_up, d.bufs.sh_out].no_duplicates(),
    ensures
        ({
            let plan = d.shared_launches(mlp, lane);
            let n = d.dims.hidden as int;
            let m2 = ran_all(a, m, plan, plan.len());
            &&& numbers(m2, d.bufs.sh_out, 0, n) == feed_forward(a, mlp, numbers(m, lane.hn, 0, n))
            &&& numbers(m2, lane.h, 0, n) == numbers(m, lane.h, 0, n)
            &&& numbers(m2, lane.hn, 0, n) == numbers(m, lane.hn, 0, n)
        }),
        ({
            let n = d.dims.hidden as int;
            numbers(ran(a, m, d.shared_add_launch(lane)), lane.h, 0, n) == sum(
                a,
                numbers(m, lane.h, 0, n),
                numbers(m, d.bufs.sh_out, 0, n),
            )
        }),
{
    let plan = d.shared_launches(mlp, lane);
    let s = seq![lane.h, lane.hn, d.bufs.sh_gate, d.bufs.sh_up, d.bufs.sh_out];
    assert(s[0] == lane.h && s[1] == lane.hn && s[2] == d.bufs.sh_gate && s[3] == d.bufs.sh_up
        && s[4] == d.bufs.sh_out);
    let m1 = ran(a, m, plan[0]);
    let m2 = ran(a, m1, plan[1]);
    let m3 = ran(a, m2, plan[2]);
    assert(ran_all(a, m, plan, 4) == ran(a, m3, plan[3])) by {
        reveal_with_fuel(ran_all, 5);
    }
    lemma_feed_forward(
        a,
        m,
        mlp,
        lane.hn,
        d.bufs.sh_gate,
        d.bufs.sh_up,
        d.bufs.sh_out,
        d.dims.hidden,
        d.dims.moe_inter,
    );
    lemma_sum(a, m, lane.h, d.bufs.sh_out, d.dims.hidden);
}

/// The logits of a lane of the Kimi engine.
pub proof fn law_kimi_logits_mean<T>(a: Arith<T>, d: KimiDecoder, lane: Lane, m: Numbers<T>)
    requires
        d.wf(),
        d.lm_head.cols == d.dims.hidden,
        d.lm_head.rows == d.dims.vocab,
        d.bufs.h_norm != d.bufs.logits,
    ensures
        ({
            let plan = d.logits_launches(lane);
            numbers(ran_all(a, m, plan, plan.len()), d.bufs.logits, 0, d.dims.vocab as int)
                == times(
                a,
                d.lm_head,
                normed(
                    a,
                    numbers(m, lane.h, 0, d.dims.hidden as int),
                    d.final_norm,
                    d.dims.rms_eps,
                ),
            )
        }),
{
    let plan = d.logits_launches(lane);
    let n = d.dims;
    let m1 = ran(a, m, plan[0]);
    assert(ran_all(a, m, plan, 2) == ran(a, m1, plan[1])) by {
        reveal_with_fuel(ran_all, 3);
    }
    lemma_norm(a, m, lane.h, d.final_norm, d.bufs.h_norm, n.hidden, n.rms_eps);
    lemma_product(a, m1, d.lm_head, d.bufs.h_norm, d.bufs.logits);
}

/// What memory holds once the launches of an act have run.
pub open spec fn acted<T>(
    a: Arith<T>,
    d: AnyDecoder,
    act: ActView,
    entries: Seq<Entry>,
    single: bool,
    m: Numbers<T>,
) -> Numbers<T> {
    let plan = d.launched(act, entries, single);
    ran_all(a, m, plan, plan.len())
}

proof fn lemma_one<T>(a: Arith<T>, m: Numbers<T>, l: LaunchView)
    ensures
        ran_all(a, m, seq![l], seq![l].len()) == ran(a, m, l),
{
    reveal_with_fuel(ran_all, 2);
    assert(seq![l][0] == l);
}

/// An entry of the Qwen engine starts from the row of its token in the
/// embedding table.
pub proof fn law_embedding_is_the_tokens_row<T>(
    a: Arith<T>,
    d: AnyDecoder,
    q: Decoder,
    entries: Seq<Entry>,
    t: int,
    single: bool,
    m: Numbers<T>,
)
    requires
        d.wf(),
        d.plan == Plan::Qwen(q),
        d.can(ActView::Embed { entry: t }, entries, single),
    ensures
        numbers(
            acted(a, d, ActView::Embed { entry: t }, entries, single, m),
            d.lane_at(single, t).h,
            0,
            q.dims.hidden as int,
        ) == Seq::new(
            q.dims.hidden as nat,
            |i: int| (a.row)(q.core.embed, entries[t].token as int, i),
        ),
{
    let n = q.dims.hidden as int;
    let h = d.lane_at(single, t).h;
    let plan = d.launched(ActView::Embed { entry: t }, entries, single);
    lemma_one(a, m, plan[0]);
    assert(plan =~= seq![plan[0]]);
    let m2 = ran(a, m, plan[0]);
    let want = Seq::new(n as nat, |i: int| (a.row)(q.core.embed, entries[t].token as int, i));
    assert forall|k: int| 0 <= k < n implies #[trigger] m2(h, k) == want[k] by {
        lemma_place(k, 0, 1);
    }
    assert(numbers(m2, h, 0, n) =~= want);
}

/// Attention of an entry is that of its own position and sequence slot, on its
/// own lane.
pub proof fn law_attention_is_the_entrys<T>(
    a: Arith<T>,
    d: AnyDecoder,
    entries: Seq<Entry>,
    layer: int,
    t: int,
    single: bool,
    m: Numbers<T>,
)
    requires
        d.wf(),
        d.can(ActView::Attend { layer, entry: t }, entries, single),
        match d.plan {
            Plan::Qwen(q) => has_shapes(q.core.layers@[layer], q.dims) && buffers_apart(
                q,
                d.lane_at(single, t),
                (q.kcache@[layer] + entries[t].seq * slot_stride(q.dims, q.kv_f16)) as u64,
                (q.vcache@[layer] + entries[t].seq * slot_stride(q.dims, q.kv_f16)) as u64,
            ),
            Plan::Kimi(k) => latent_shapes(k.layers@[layer], k.dims) && latent_apart(
                k,
                d.lane_at(single, t),
                (k.cache@[layer] + entries[t].seq * row_stride(k.dims)) as u64,
            ),
        },
    ensures
        ({
            let m2 = acted(a, d, ActView::Attend { layer, entry: t }, entries, single, m);
            let lane = d.lane_at(single, t);
            let (pos, seq) = (entries[t].pos as i32, entries[t].seq as nat);
            &&& pos == entries[t].pos
            &&& match d.plan {
                Plan::Qwen(q) => attends(a, q, layer, pos, seq, lane, m, m2),
                Plan::Kimi(k) => attends_latent(a, k, layer, pos, seq, lane, m, m2),
            }
        }),
{
    let lane = d.lane_at(single, t);
    let (pos, seq) = (entries[t].pos as i32, entries[t].seq as nat);
    match d.plan {
        Plan::Qwen(q) => law_attention_means(a, q, layer, pos, seq, lane, m),
        Plan::Kimi(k) => law_latent_attention_means(a, k, layer, pos, seq, lane, m),
    }
}

/// The experts that run for an entry are as many as it has picks, and are added
/// to the hidden state of its own lane.
pub proof fn law_experts_are_the_entrys<T>(
    a: Arith<T>,
    d: AnyDecoder,
    entries: Seq<Entry>,
    t: int,
    picks: Seq<crate::steps::Pick>,
    single: bool,
    m: Numbers<T>,
)
    requires
        d.wf(),
        d.can(ActView::Run { entry: t, picks }, entries, single),
        match d.plan {
            Plan::Qwen(q) => bench_apart(qwen_bench(q), d.lane_at(single, t)),
            Plan::Kimi(k) => bench_apart(kimi_bench(k), d.lane_at(single, t)),
        },
    ensures
        ({
            let plan = d.launched(ActView::Run { entry: t, picks }, entries, single);
            let lane = d.lane_at(single, t);
            let n = picks.len() as int;
            match d.plan {
                Plan::Qwen(q) => adds_experts(
                    a,
                    m,
                    plan,
                    qwen_bench(q),
                    q.blob,
                    lane,
                    n,
                    q.dims.moe_inter as int,
                    q.dims.hidden as int,
                ),
                Plan::Kimi(k) => adds_experts(
                    a,
                    m,
                    plan,
                    kimi_bench(k),
                    k.blob,
                    lane,
                    n,
                    k.dims.moe_inter as int,
                    k.dims.hidden as int,
                ),
            }
        }),
{
    let lane = d.lane_at(single, t);
    match d.plan {
        Plan::Qwen(q) => law_experts_mean(a, q, lane, picks.len() as i32, m),
        Plan::Kimi(k) => law_kimi_experts_mean(a, k, lane, picks.len() as i32, m),
    }
}

/// The logits of an entry are those of its own lane.
pub proof fn law_logits_are_the_entrys<T>(
    a: Arith<T>,
    d: AnyDecoder,
    entries: Seq<Entry>,
    t: int,
    single: bool,
    m: Numbers<T>,
)
    requires
        d.wf(),
        d.can(ActView::Logits { entry: t }, entries, single),
        match d.plan {
            Plan::Qwen(q) => {
                &&& q.core.lm_head.cols == q.dims.hidden
                &&& q.core.lm_head.rows == q.dims.vocab
                &&& q.bufs.h_norm != q.bufs.logits
            },
            Plan::Kimi(k) => {
                &&& k.lm_head.cols == k.dims.hidden
                &&& k.lm_head.rows == k.dims.vocab
                &&& k.bufs.h_norm != k.bufs.logits
            },
        },
    ensures
        ({
            let m2 = acted(a, d, ActView::Logits { entry: t }, entries, single, m);
            let h = d.lane_at(single, t).h;
            match d.plan {
                Plan::Qwen(q) => numbers(m2, q.bufs.logits, 0, q.dims.vocab as int) == times(
                    a,
                    q.core.lm_head,
                    normed(
                        a,
                        numbers(m, h, 0, q.dims.hidden as int),
                        q.core.final_norm,
                        q.dims.rms_eps,
                    ),
                ),
                Plan::Kimi(k) => numbers(m2, k.bufs.logits, 0, k.dims.vocab as int) == times(
                    a,
                    k.lm_head,
                    normed(
                        a,
                        numbers(m, h, 0, k.dims.hidden as int),
                        k.final_norm,
                        k.dims.rms_eps,
                    ),
                ),
            }
        }),
{
    let lane = d.lane_at(single, t);
    match d.plan {
        Plan::Qwen(q) => law_logits_mean(a, q, lane, m),
        Plan::Kimi(k) => law_kimi_logits_mean(a, k, lane, m),
    }
}

/// What follows attention in a layer of the Kimi engine works on the entry's own
/// lane with the layer's own weights: a dense block is added to the hidden
/// state, or the router's product and the shared expert's output are left.
pub proof fn law_blocks_are_the_entrys<T>(
    a: Arith<T>,
    d: AnyDecoder,
    k: KimiDecoder,
    entries: Seq<Entry>,
    layer: int,
    t: int,
    single: bool,
    m: Numbers<T>,
)
    requires
        d.wf(),
        d.plan == Plan::Kimi(k),
        0 <= layer < k.layers@.len(),
        0 <= t < entries.len(),
        match k.layers@[layer].ffn {
            FeedForward::Dense(mlp) => {
                let lane = d.lane_at(single, t);
                &&& mlp_shapes(mlp, k.dims.hidden, k.dims.dense_inter)
                &&& seq![
                    lane.h,
                    lane.hn,
                    k.bufs.dn_gate,
                    k.bufs.dn_up,
                    k.bufs.proj_out,
                ].no_duplicates()
            },
            FeedForward::Experts { router, shared } => {
                let lane = d.lane_at(single, t);
                &&& mlp_shapes(shared, k.dims.hidden, k.dims.moe_inter)
                &&& router.cols == k.dims.hidden
                &&& router.rows == k.dims.experts
                &&& seq![
                    lane.h,
                    lane.hn,
                    k.bufs.sh_gate,
                    k.bufs.sh_up,
                    k.bufs.sh_out,
                ].no_duplicates()
            },
        },
    ensures
        ({
            let lane = d.lane_at(single, t);
            let n = k.dims.hidden as int;
            let x = numbers(m, lane.hn, 0, n);
            let h = numbers(m, lane.h, 0, n);
            match k.layers@[layer].ffn {
                FeedForward::Dense(mlp) => numbers(
                    acted(a, d, ActView::Dense { layer, entry: t }, entries, single, m),
                    lane.h,
                    0,
                    n,
                ) == sum(a, h, feed_forward(a, mlp, x)),
                FeedForward::Experts { router, shared } => {
                    &&& numbers(
                        acted(a, d, ActView::Shared { layer, entry: t }, entries, single, m),
                        k.bufs.sh_out,
                        0,
                        n,
                    ) == feed_forward(a, shared, x)
                    &&& numbers(
                        acted(a, d, ActView::Router { layer, entry: t }, entries, single, m),
                        lane.router,
                        0,
                        k.dims.experts as int,
                    ) == times(a, router, x)
                    &&& numbers(
                        acted(a, d, ActView::SharedAdd { entry: t }, entries, single, m),
                        lane.h,
                        0,
                        n,
                    ) == sum(a, h, numbers(m, k.bufs.sh_out, 0, n))
                },
            }
        }),
{
    let lane = d.lane_at(single, t);
    assert(k.layers@[layer].wf());
    match k.layers@[layer].ffn {
        FeedForward::Dense(mlp) => law_dense_means(a, k, mlp, lane, m),
        FeedForward::Experts { router, shared } => {
            law_shared_expert_means(a, k, shared, lane, m);
            lemma_product(a, m, router, lane.hn, lane.router);
            lemma_one(a, m, router.gemv_launch(lane.hn, lane.router));
            lemma_one(a, m, k.shared_add_launch(lane));
        },
    }
}

} // verus!
