//! No kernel writes past its buffer: whatever a step launches writes no more
//! bytes to a buffer than the buffer was made with.

use crate::act_math::mlp_shapes;
use crate::decode::{slot_stride, Decoder, Dims, Lane};
use crate::device::{num, ptr};
use crate::kimi::{row_stride, KimiDecoder, Mlp};
use crate::kimi_layer::{latent_apart, latent_buffers, latent_shapes};
use crate::launch::{Kernel, LaunchView};
use crate::qwen_layer::{attention_buffers, buffers_apart, has_shapes};
use vstd::prelude::*;

verus! {

/// `bytes` where `x` is the buffer, else none.
pub open spec fn if_there(x: u64, y: u64, bytes: int) -> int {
    if x == y {
        bytes
    } else {
        0
    }
}

/// How far into buffer `y` a launch writes, in bytes; the caches of keys and
/// values aside.
pub open spec fn written_to(l: LaunchView, y: u64) -> int {
    match l.kernel {
        Kernel::RmsNorm => if_there(ptr(l, 2), y, 4 * (l.grid.0 * num(l, 3))),
        Kernel::Bf16Gemv => if_there(ptr(l, 2), y, 4 * num(l, 3)),
        Kernel::Q4g64Gemv => if_there(ptr(l, 2), y, 4 * num(l, 3)),
        Kernel::Q4g64GemvBatch => if_there(ptr(l, 4), y, 4 * (l.grid.1 * num(l, 5))),
        Kernel::Bf16GemvBatch => if_there(ptr(l, 4), y, 4 * (num(l, 8) * num(l, 5))),
        Kernel::MoeReduce => if_there(ptr(l, 2), y, 4 * num(l, 4)),
        Kernel::ScaleAdd => if_there(ptr(l, 0), y, 4 * num(l, 3)),
        Kernel::SiluMul => if_there(ptr(l, 2), y, 4 * num(l, 3)),
        Kernel::Add => if_there(ptr(l, 0), y, 4 * num(l, 2)),
        Kernel::Rope => if_there(ptr(l, 0), y, 4 * (num(l, 1) * num(l, 2))),
        Kernel::AttnDecode => if_there(ptr(l, 3), y, 4 * (l.grid.0 * num(l, 7))) + if_there(
            ptr(l, 4),
            y,
            4 * (num(l, 5) * num(l, 9)),
        ),
        Kernel::Bf16Row => if_there(ptr(l, 3), y, 4 * num(l, 2)),
        Kernel::MlaRope => if_there(ptr(l, 0), y, 4 * (num(l, 1) * num(l, 2))),
        Kernel::MlaAttnDecode => if_there(ptr(l, 2), y, 4 * (num(l, 4) * num(l, 6))) + if_there(
            ptr(l, 3),
            y,
            4 * (num(l, 4) * num(l, 8)),
        ),
        Kernel::StridedCopy => if_there(ptr(l, 3), y, 4 * (num(l, 6) * num(l, 4))),
        Kernel::KvAppend => 0,
    }
}

proof fn lemma_area(a: int, b: int)
    requires
        0 <= a <= i32::MAX,
        0 <= b <= i32::MAX,
    ensures
        0 <= 4 * (a * b) <= u64::MAX,
{
    assert(0 <= a * b <= 0x7fff_ffff * 0x7fff_ffff) by (nonlinear_arith)
        requires
            0 <= a <= 0x7fff_ffff,
            0 <= b <= 0x7fff_ffff,
    ;
}

/// Attention of the Qwen engine stays in its buffers: every launch of it writes
/// to each no more than it holds, and to a lane no more than one hidden state,
/// one normed copy and one set of router logits.
pub proof fn law_attention_stays_in_its_buffers(
    d: Decoder,
    l: int,
    pos: i32,
    seq: nat,
    lane: Lane,
    i: int,
)
    requires
        d.wf(),
        0 <= l < d.core.layers@.len(),
        has_shapes(d.core.layers@[l], d.dims),
        buffers_apart(
            d,
            lane,
            (d.kcache@[l] + seq * slot_stride(d.dims, d.kv_f16)) as u64,
            (d.vcache@[l] + seq * slot_stride(d.dims, d.kv_f16)) as u64,
        ),
        0 <= i < d.attention_launches(l, pos, seq, lane).len(),
    ensures
        ({
            let x = d.attention_launches(l, pos, seq, lane)[i];
            let b = d.bufs;
            let z = d.dims.sizes();
            &&& written_to(x, b.h_norm) <= z.h_norm
            &&& written_to(x, b.q) <= z.q
            &&& written_to(x, b.k) <= z.k
            &&& written_to(x, b.v) <= z.v
            &&& written_to(x, b.attn_out) <= z.attn_out
            &&& written_to(x, b.attn_scratch) <= z.attn_scratch
            &&& written_to(x, b.proj_out) <= z.proj_out
            &&& written_to(x, lane.h) <= 4 * d.dims.hidden
            &&& written_to(x, lane.hn) <= 4 * d.dims.hidden
            &&& written_to(x, lane.router) <= 4 * d.dims.experts
        }),
{
    let n = d.dims;
    let b = d.bufs;
    let kc = (d.kcache@[l] + seq * slot_stride(n, d.kv_f16)) as u64;
    let vc = (d.vcache@[l] + seq * slot_stride(n, d.kv_f16)) as u64;
    let all = attention_buffers(d, lane, kc, vc);
    assert(all[0] == lane.h && all[1] == b.h_norm && all[2] == b.q && all[3] == b.k && all[4]
        == b.v && all[5] == kc && all[6] == vc && all[7] == b.attn_out && all[8] == b.proj_out
        && all[9] == lane.router && all[10] == b.attn_scratch);
    lemma_area(n.heads as int, n.head_dim as int);
    lemma_area(n.kv_heads as int, n.head_dim as int);
    lemma_area(n.heads as int, n.max_seq as int);
    assert(1 * n.hidden == n.hidden);
}

/// The experts of the Qwen engine stay in their buffers: as many as a token
/// picks write to each no more than it holds.
pub proof fn law_experts_stay_in_their_buffers(d: Decoder, lane: Lane, e: i32, i: int)
    requires
        d.wf(),
        0 <= e <= d.dims.top_k,
        ({
            let b = d.bufs;
            seq![b.gate_out, b.up_out, b.act_out, b.expert_out, lane.h].no_duplicates()
        }),
        0 <= i < d.expert_launches(lane, e).len(),
    ensures
        ({
            let x = d.expert_launches(lane, e)[i];
            let b = d.bufs;
            let z = d.dims.sizes();
            &&& written_to(x, b.gate_out) <= z.gate_out
            &&& written_to(x, b.up_out) <= z.up_out
            &&& written_to(x, b.act_out) <= z.act_out
            &&& written_to(x, b.expert_out) <= z.expert_out
            &&& written_to(x, lane.h) <= 4 * d.dims.hidden
        }),
{
    let n = d.dims;
    let b = d.bufs;
    let all = seq![b.gate_out, b.up_out, b.act_out, b.expert_out, lane.h];
    assert(all[0] == b.gate_out && all[1] == b.up_out && all[2] == b.act_out && all[3]
        == b.expert_out && all[4] == lane.h);
    lemma_area(n.top_k as int, n.moe_inter as int);
    lemma_area(n.top_k as int, n.hidden as int);
    lemma_fewer(e as int, n.top_k as int, n.moe_inter as int);
    lemma_fewer(e as int, n.top_k as int, n.hidden as int);
}

proof fn lemma_fewer(e: int, k: int, n: int)
    requires
        0 <= e <= k,
        0 <= n,
    ensures
        0 <= e * n <= k * n,
{
    assert(0 <= e * n <= k * n) by (nonlinear_arith)
        requires
            0 <= e <= k,
            0 <= n,
    ;
}

/// Latent attention stays in its buffers.
pub proof fn law_latent_attention_stays_in_its_buffers(
    d: KimiDecoder,
    l: int,
    pos: i32,
    seq: nat,
    lane: Lane,
    i: int,
)
    requires
        d.wf(),
        0 <= l < d.layers@.len(),
        latent_shapes(d.layers@[l], d.dims),
        latent_apart(d, lane, (d.cache@[l] + seq * row_stride(d.dims)) as u64),
        0 <= i < d.attention_launches(l, pos, seq, lane).len(),
    ensures
        ({
            let x = d.attention_launches(l, pos, seq, lane)[i];
            let b = d.bufs;
            let z = d.dims.sizes();
            &&& written_to(x, b.h_norm) <= z.h_norm
            &&& written_to(x, b.qa) <= z.qa
            &&& written_to(x, b.q) <= z.q
            &&& written_to(x, b.kva) <= z.kva
            &&& written_to(x, b.ckv_norm) <= z.ckv_norm
            &&& written_to(x, b.q_full) <= z.q_full
            &&& written_to(x, b.ctx) <= z.ctx
            &&& written_to(x, b.attn_pre) <= z.attn_pre
            &&& written_to(x, b.attn_scratch) <= z.attn_scratch
            &&& written_to(x, b.proj_out) <= z.proj_out
            &&& written_to(x, lane.h) <= 4 * d.dims.hidden
            &&& written_to(x, lane.hn) <= 4 * d.dims.hidden
        }),
{
    let n = d.dims;
    let b = d.bufs;
    let cache = (d.cache@[l] + seq * row_stride(n)) as u64;
    let all = latent_buffers(d, lane, cache);
    assert(all[0] == lane.h && all[1] == b.h_norm && all[2] == b.qa && all[3] == b.q && all[4]
        == b.kva && all[5] == b.ckv_norm && all[6] == cache && all[7] == b.q_full && all[8]
        == b.ctx && all[9] == b.attn_pre && all[10] == b.proj_out && all[11] == b.attn_scratch);
    lemma_area(n.heads as int, n.q_dim());
    lemma_area(n.heads as int, n.row());
    lemma_area(n.heads as int, n.kv_lora as int);
    lemma_area(n.heads as int, n.v_head as int);
    lemma_area(n.heads as int, n.max_seq as int);
    assert(1 * n.hidden == n.hidden && 1 * n.q_lora == n.q_lora && 1 * n.kv_lora == n.kv_lora && 1
        * n.row() == n.row());
}

/// The experts of the Kimi engine stay in their buffers.
pub proof fn law_kimi_experts_stay_in_their_buffers(d: KimiDecoder, lane: Lane, e: i32, i: int)
    requires
        d.wf(),
        0 <= e <= d.dims.top_k,
        ({
            let b = d.bufs;
            seq![b.gate_out, b.up_out, b.act_out, b.expert_out, lane.h].no_duplicates()
        }),
        0 <= i < d.expert_launches(lane, e).len(),
    ensures
        ({
            let x = d.expert_launches(lane, e)[i];
            let b = d.bufs;
            let z = d.dims.sizes();
            &&& written_to(x, b.gate_out) <= z.gate_out
            &&& written_to(x, b.up_out) <= z.up_out
            &&& written_to(x, b.act_out) <= z.act_out
            &&& written_to(x, b.expert_out) <= z.expert_out
            &&& written_to(x, lane.h) <= 4 * d.dims.hidden
        }),
{
    let n = d.dims;
    let b = d.bufs;
    let all = seq![b.gate_out, b.up_out, b.act_out, b.expert_out, lane.h];
    assert(all[0] == b.gate_out && all[1] == b.up_out && all[2] == b.act_out && all[3]
        == b.expert_out && all[4] == lane.h);
    lemma_area(n.top_k as int, n.moe_inter as int);
    lemma_area(n.top_k as int, n.hidden as int);
    lemma_fewer(e as int, n.top_k as int, n.moe_inter as int);
    lemma_fewer(e as int, n.top_k as int, n.hidden as int);
}

/// The dense block and the shared expert stay in their buffers.
pub proof fn law_feed_forward_stays_in_its_buffers(
    d: KimiDecoder,
    dense: Mlp,
    shared: Mlp,
    lane: Lane,
    i: int,
)
    requires
        d.wf(),
        mlp_shapes(dense, d.dims.hidden, d.dims.dense_inter),
        mlp_shapes(shared, d.dims.hidden, d.dims.moe_inter),
        ({
            let b = d.bufs;
            seq![b.dn_gate, b.dn_up, b.proj_out, b.sh_gate, b.sh_up, b.sh_out, lane.h].no_duplicates()
        }),
    ensures
        ({
            let b = d.bufs;
            let z = d.dims.sizes();
            let plan = d.dense_launches(dense, lane);
            &&& 0 <= i < plan.len() ==> {
                &&& written_to(plan[i], b.dn_gate) <= z.dn_gate
                &&& written_to(plan[i], b.dn_up) <= z.dn_up
                &&& written_to(plan[i], b.proj_out) <= z.proj_out
                &&& written_to(plan[i], lane.h) <= 4 * d.dims.hidden
            }
        }),
        ({
            let b = d.bufs;
            let z = d.dims.sizes();
            let plan = d.shared_launches(shared, lane);
            &&& 0 <= i < plan.len() ==> {
                &&& written_to(plan[i], b.sh_gate) <= z.sh_gate
                &&& written_to(plan[i], b.sh_up) <= z.sh_up
                &&& written_to(plan[i], b.sh_out) <= z.sh_out
            }
            &&& written_to(d.shared_add_launch(lane), lane.h) <= 4 * d.dims.hidden
        }),
{
    let b = d.bufs;
    let all = seq![b.dn_gate, b.dn_up, b.proj_out, b.sh_gate, b.sh_up, b.sh_out, lane.h];
    assert(all[0] == b.dn_gate && all[1] == b.dn_up && all[2] == b.proj_out && all[3] == b.sh_gate
        && all[4] == b.sh_up && all[5] == b.sh_out && all[6] == lane.h);
}

/// Logits have a place for every token, and the expert table one for every
/// expert that a token picks: an address of eight bytes and a weight of four.
pub proof fn law_results_have_room(d: Dims)
    requires
        d.wf(),
    ensures
        d.sizes().logits == 4 * d.vocab,
        d.sizes().expert_ptrs == 8 * d.top_k,
        d.sizes().expert_wts == 4 * d.top_k,
        d.sizes().router_logits == 4 * d.experts,
        d.sizes().h == 4 * d.hidden,
        d.sizes().h_buf == 64 * d.sizes().h,
        d.sizes().hn_buf == 64 * d.sizes().h_norm,
        d.sizes().router_buf == 64 * d.sizes().router_logits,
{
}

} // verus!
