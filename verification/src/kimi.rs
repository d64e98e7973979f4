//! Kimi K2.x / DeepSeek-V3 decode path: MLA attention (absorbed decode over
//! the compressed KV cache), sigmoid router with bias-corrected top-k,
//! shared expert, dense first layer(s), YaRN RoPE.
//!
//! Differences from the Qwen path (`decode.rs`):
//! - Attention caches one row per token (c_kv and k_rope), shared by all heads
//!   (MQA form). Per-head K/V never materialize: queries are absorbed through
//!   W_kvb_k^T and outputs through W_kvb_v.
//! - The core is far larger (MLA projections), so every core matrix is
//!   requantized to q4g64 at load; the embedding table stays in host RAM
//!   (row gather per token), only lm_head lives in VRAM.
//! - MoE: a shared expert always runs beside the routed ones.

use crate::decode::{product_fits, BlobOffsets, KvError, KvRun, Lane, CHUNK_CAP};
use crate::launch::{launch_views, Kernels, Launch, LaunchView};
use crate::model::Mat;
use vstd::prelude::*;

verus! {

/// The dimensions of a model as the kernels take them, and the bits of its
/// floating-point settings.
#[derive(Debug, Clone, Copy)]
pub struct KimiDims {
    pub hidden: i32,
    pub heads: i32,
    pub q_lora: i32,
    pub kv_lora: i32,
    pub nope: i32,
    pub rope: i32,
    pub v_head: i32,
    pub moe_inter: i32,
    pub dense_inter: i32,
    pub experts: i32,
    pub top_k: i32,
    pub vocab: i32,
    pub max_seq: i32,
    /// Bits of the RMSNorm epsilon.
    pub rms_eps: u32,
    /// Bits of the softmax scale.
    pub softmax_scale: u32,
    /// Bits of 1, the RoPE magnitude scale.
    pub one: u32,
}

impl KimiDims {
    /// Floats in a cache row.
    pub open spec fn row(self) -> int {
        self.kv_lora + self.rope
    }

    /// Floats of one head's query.
    pub open spec fn q_dim(self) -> int {
        self.nope + self.rope
    }

    pub open spec fn wf(self) -> bool {
        &&& 0 <= self.hidden
        &&& 0 <= self.heads
        &&& 0 <= self.q_lora
        &&& 0 <= self.kv_lora
        &&& 0 <= self.nope
        &&& 0 <= self.rope
        &&& 0 <= self.v_head
        &&& 0 <= self.moe_inter
        &&& 0 <= self.dense_inter
        &&& 0 <= self.experts
        &&& 0 <= self.top_k
        &&& 0 <= self.vocab
        &&& 0 < self.max_seq
        &&& self.row() <= i32::MAX
        &&& self.q_dim() <= i32::MAX
        &&& self.heads * self.rope <= i32::MAX
        &&& self.max_seq * self.row() <= i32::MAX
        &&& self.top_k * self.moe_inter <= i32::MAX
    }

    pub fn fit(&self) -> (yes: bool)
        ensures
            yes == self.wf(),
    {
        if !(0 <= self.hidden && 0 <= self.heads && 0 <= self.q_lora && 0 <= self.kv_lora && 0
            <= self.nope && 0 <= self.rope && 0 <= self.v_head && 0 <= self.moe_inter && 0
            <= self.dense_inter && 0 <= self.experts && 0 <= self.top_k && 0 <= self.vocab && 0
            < self.max_seq) {
            return false;
        }
        if self.rope > i32::MAX - self.kv_lora || self.rope > i32::MAX - self.nope {
            return false;
        }
        product_fits(self.heads, self.rope) && product_fits(self.max_seq, self.kv_lora + self.rope)
            && product_fits(self.top_k, self.moe_inter)
    }
}

/// The three projections of a feed-forward block.
#[derive(Debug, Clone, Copy)]
pub struct Mlp {
    pub gate: Mat,
    pub up: Mat,
    pub down: Mat,
}

impl Mlp {
    pub open spec fn wf(self) -> bool {
        0 <= self.gate.rows && 0 <= self.up.rows && 0 <= self.down.rows
    }
}

/// What follows attention in a layer.
#[derive(Debug, Clone, Copy)]
pub enum FeedForward {
    Dense(Mlp),
    /// A router, and a shared expert that always runs.
    Experts { router: Mat, shared: Mlp },
}

impl FeedForward {
    pub open spec fn wf(self) -> bool {
        match self {
            FeedForward::Dense(mlp) => mlp.wf(),
            FeedForward::Experts { router, shared } => 0 <= router.rows && shared.wf(),
        }
    }
}

#[derive(Debug, Clone, Copy)]
pub struct KimiLayer {
    pub input_ln: u64,
    pub post_ln: u64,
    pub q_a: Mat,
    pub q_a_ln: u64,
    pub q_b: Mat,
    pub kv_a: Mat,
    pub kv_a_ln: u64,
    /// Absorbed W_kvb_k^T, bf16 [heads][kv_lora, nope] contiguous.
    pub kt: u64,
    /// W_kvb_v, bf16 [heads][v_head, kv_lora] contiguous.
    pub vw: u64,
    pub o: Mat,
    pub ffn: FeedForward,
}

impl KimiLayer {
    pub open spec fn wf(self) -> bool {
        &&& 0 <= self.q_a.rows
        &&& 0 <= self.q_b.rows
        &&& 0 <= self.kv_a.rows
        &&& 0 <= self.o.rows
        &&& self.ffn.wf()
    }

    fn fit(&self) -> (yes: bool)
        ensures
            yes == self.wf(),
    {
        let ffn: bool = match self.ffn {
            FeedForward::Dense(m) => 0 <= m.gate.rows && 0 <= m.up.rows && 0 <= m.down.rows,
            FeedForward::Experts { router, shared } => 0 <= router.rows && 0 <= shared.gate.rows
                && 0 <= shared.up.rows && 0 <= shared.down.rows,
        };
        ffn && 0 <= self.q_a.rows && 0 <= self.q_b.rows && 0 <= self.kv_a.rows && 0 <= self.o.rows
    }
}

/// How many layers from `i` on are dense before the first that has experts.
pub open spec fn leading_dense(layers: Seq<KimiLayer>, i: nat) -> nat
    decreases layers.len() - i,
{
    if i < layers.len() && layers[i as int].ffn is Dense {
        1 + leading_dense(layers, i + 1)
    } else {
        0
    }
}

/// Device buffers.
#[derive(Debug, Clone, Copy)]
pub struct KimiBuffers {
    pub h: u64,
    pub h_norm: u64,
    pub qa: u64,
    pub q: u64,
    pub kva: u64,
    pub ckv_norm: u64,
    pub q_full: u64,
    pub ctx: u64,
    pub attn_pre: u64,
    pub proj_out: u64,
    pub attn_scratch: u64,
    pub inv_freq: u64,
    pub router_logits: u64,
    pub gate_out: u64,
    pub up_out: u64,
    pub act_out: u64,
    pub expert_out: u64,
    pub expert_ptrs: u64,
    pub expert_wts: u64,
    pub sh_gate: u64,
    pub sh_up: u64,
    pub sh_out: u64,
    pub dn_gate: u64,
    pub dn_up: u64,
    pub logits: u64,
    /// [chunk_cap, hidden]
    pub h_buf: u64,
    /// [chunk_cap, hidden]
    pub hn_buf: u64,
    /// [chunk_cap, experts]
    pub router_buf: u64,
}

/// A planned decoder: the model's dimensions, where its weights and buffers
/// are, and how its compressed cache is laid out.
#[derive(Debug)]
pub struct KimiDecoder {
    pub dims: KimiDims,
    pub layers: Vec<KimiLayer>,
    pub final_norm: u64,
    pub lm_head: Mat,
    pub bufs: KimiBuffers,
    pub blob: BlobOffsets,
    /// Per layer, `batch_cap` regions of [max_seq, kv_lora + rope] f32.
    pub cache: Vec<u64>,
    pub batch_cap: usize,
}

/// Bytes from one sequence slot to the next.
pub open spec fn row_stride(d: KimiDims) -> nat {
    (d.max_seq * d.row() * 4) as nat
}

impl KimiDecoder {
    /// Everything fits into addresses and kernel parameters.
    pub open spec fn wf(self) -> bool {
        &&& self.dims.wf()
        &&& 0 <= self.lm_head.rows
        &&& self.batch_cap > 0
        &&& self.layers@.len() == self.cache@.len()
        &&& forall|l: int|
            #![trigger self.layers@[l]]
            0 <= l < self.layers@.len() ==> self.layers@[l].wf()
        &&& self.bufs.h_buf + CHUNK_CAP * (self.dims.hidden * 4) <= u64::MAX
        &&& self.bufs.hn_buf + CHUNK_CAP * (self.dims.hidden * 4) <= u64::MAX
        &&& self.bufs.router_buf + CHUNK_CAP * (self.dims.experts * 4) <= u64::MAX
        &&& forall|l: int|
            #![trigger self.cache@[l]]
            0 <= l < self.cache@.len() ==> self.cache@[l] + self.batch_cap * row_stride(self.dims)
                <= u64::MAX
    }

    /// Whether everything fits into addresses and kernel parameters.
    pub fn fits(&self) -> (yes: bool)
        ensures
            yes == self.wf(),
    {
        let d: KimiDims = self.dims;
        if !d.fit() || self.lm_head.rows < 0 || self.batch_cap == 0 {
            return false;
        }
        let n: usize = self.layers.len();
        if self.cache.len() != n {
            return false;
        }
        let row: u128 = CHUNK_CAP as u128 * (d.hidden as u128 * 4);
        let logits: u128 = CHUNK_CAP as u128 * (d.experts as u128 * 4);
        let top: u128 = u64::MAX as u128;
        if self.bufs.h_buf as u128 + row > top || self.bufs.hn_buf as u128 + row > top
            || self.bufs.router_buf as u128 + logits > top {
            return false;
        }
        proof {
            lemma_row_stride(d);
        }
        let stride: u128 = d.max_seq as u128 * (d.kv_lora + d.rope) as u128 * 4;
        assert(0 <= self.batch_cap * stride <= 0xffff_ffff_ffff_ffff * 0x1_ffff_fffc)
            by (nonlinear_arith)
            requires
                0 <= self.batch_cap <= 0xffff_ffff_ffff_ffff,
                0 <= stride <= 0x1_ffff_fffc,
        ;
        let region: u128 = self.batch_cap as u128 * stride;
        let mut l: usize = 0;
        while l < n
            invariant
                l <= n,
                n == self.layers@.len() == self.cache@.len(),
                top == u64::MAX,
                region == self.batch_cap * row_stride(self.dims),
                region <= 0xffff_ffff_ffff_ffff * 0x1_ffff_fffc,
                forall|k: int| #![trigger self.layers@[k]] 0 <= k < l ==> self.layers@[k].wf(),
                forall|k: int|
                    #![trigger self.cache@[k]]
                    0 <= k < l ==> self.cache@[k] + self.batch_cap * row_stride(self.dims)
                        <= u64::MAX,
            decreases n - l,
        {
            if !self.layers[l].fit() {
                return false;
            }
            if self.cache[l] as u128 + region > top {
                return false;
            }
            l += 1;
        }
        true
    }

    /// The lane of a single-token step.
    pub open spec fn single_lane(self) -> Lane {
        Lane { h: self.bufs.h, hn: self.bufs.h_norm, router: self.bufs.router_logits }
    }

    /// The lane of entry `t` of a multi-entry step.
    pub open spec fn lane_of(self, t: nat) -> Lane {
        Lane {
            h: (self.bufs.h_buf + t * (self.dims.hidden * 4)) as u64,
            hn: (self.bufs.hn_buf + t * (self.dims.hidden * 4)) as u64,
            router: (self.bufs.router_buf + t * (self.dims.experts * 4)) as u64,
        }
    }

    /// What MLA attention of layer `l` runs for a token at `pos` of sequence
    /// slot `seq`, up to the normed hidden state.
    pub open spec fn attention_launches(self, l: int, pos: i32, seq: nat, lane: Lane) -> Seq<LaunchView> {
        let w = self.layers@[l];
        let d = self.dims;
        let b = self.bufs;
        let row = d.row() as i32;
        let q_dim = d.q_dim() as i32;
        let half = (d.rope / 2) as i32;
        let cache = (self.cache@[l] + seq * row_stride(d)) as u64;
        seq![
            Kernels::rmsnorm_launch(lane.h, w.input_ln, b.h_norm, d.hidden, d.rms_eps, 1),
            w.q_a.gemv_launch(b.h_norm, b.qa),
            Kernels::rmsnorm_launch(b.qa, w.q_a_ln, b.qa, d.q_lora, d.rms_eps, 1),
            w.q_b.gemv_launch(b.qa, b.q),
            w.kv_a.gemv_launch(b.h_norm, b.kva),
            Kernels::rmsnorm_launch(b.kva, w.kv_a_ln, b.ckv_norm, d.kv_lora, d.rms_eps, 1),
            Kernels::mla_rope_launch(b.q, d.heads, q_dim, d.nope, half, pos, b.inv_freq, d.one),
            Kernels::mla_rope_launch(b.kva, 1, row, d.kv_lora, half, pos, b.inv_freq, d.one),
            Kernels::strided_copy_launch(
                b.ckv_norm,
                d.kv_lora,
                0,
                cache,
                row,
                (pos * row) as i32,
                1,
                d.kv_lora,
            ),
            Kernels::strided_copy_launch(
                b.kva,
                row,
                d.kv_lora,
                cache,
                row,
                (pos * row + d.kv_lora) as i32,
                1,
                d.rope,
            ),
            Kernels::bf16_gemv_batch_launch(
                w.kt,
                (d.kv_lora * d.nope) as u64,
                b.q,
                q_dim,
                b.q_full,
                row,
                d.kv_lora,
                d.nope,
                d.heads,
            ),
            Kernels::strided_copy_launch(
                b.q,
                q_dim,
                d.nope,
                b.q_full,
                row,
                d.kv_lora,
                d.heads,
                d.rope,
            ),
            Kernels::mla_attn_decode_launch(
                b.q_full,
                cache,
                b.ctx,
                b.attn_scratch,
                d.heads,
                row,
                d.kv_lora,
                (pos + 1) as i32,
                d.max_seq,
                d.softmax_scale,
            ),
            Kernels::bf16_gemv_batch_launch(
                w.vw,
                (d.v_head * d.kv_lora) as u64,
                b.ctx,
                d.kv_lora,
                b.attn_pre,
                d.v_head,
                d.v_head,
                d.kv_lora,
                d.heads,
            ),
            w.o.gemv_launch(b.attn_pre, b.proj_out),
            Kernels::add_to_launch(lane.h, b.proj_out, d.hidden),
            Kernels::rmsnorm_launch(lane.h, w.post_ln, lane.hn, d.hidden, d.rms_eps, 1),
        ]
    }

    /// What a dense feed-forward block runs on a lane.
    pub open spec fn dense_launches(self, mlp: Mlp, lane: Lane) -> Seq<LaunchView> {
        let d = self.dims;
        let b = self.bufs;
        seq![
            mlp.gate.gemv_launch(lane.hn, b.dn_gate),
            mlp.up.gemv_launch(lane.hn, b.dn_up),
            Kernels::silu_mul_launch(b.dn_gate, b.dn_up, b.dn_gate, d.dense_inter),
            mlp.down.gemv_launch(b.dn_gate, b.proj_out),
            Kernels::add_to_launch(lane.h, b.proj_out, d.hidden),
        ]
    }

    /// What the shared expert runs on a lane, up to its output.
    pub open spec fn shared_launches(self, mlp: Mlp, lane: Lane) -> Seq<LaunchView> {
        let d = self.dims;
        let b = self.bufs;
        seq![
            mlp.gate.gemv_launch(lane.hn, b.sh_gate),
            mlp.up.gemv_launch(lane.hn, b.sh_up),
            Kernels::silu_mul_launch(b.sh_gate, b.sh_up, b.sh_gate, d.moe_inter),
            mlp.down.gemv_launch(b.sh_gate, b.sh_out),
        ]
    }

    /// What adds the shared expert's output to a lane's hidden state.
    pub open spec fn shared_add_launch(self, lane: Lane) -> LaunchView {
        Kernels::add_to_launch(lane.h, self.bufs.sh_out, self.dims.hidden)
    }

    /// What runs the `e` experts in the expert table on a lane.
    pub open spec fn expert_launches(self, lane: Lane, e: i32) -> Seq<LaunchView> {
        let d = self.dims;
        let b = self.bufs;
        let o = self.blob;
        seq![
            Kernels::q4g64_gemv_batch_launch(
                b.expert_ptrs,
                o.gate,
                lane.hn,
                0,
                b.gate_out,
                d.moe_inter,
                d.hidden,
                o.group,
                e,
            ),
            Kernels::q4g64_gemv_batch_launch(
                b.expert_ptrs,
                o.up,
                lane.hn,
                0,
                b.up_out,
                d.moe_inter,
                d.hidden,
                o.group,
                e,
            ),
            Kernels::silu_mul_launch(b.gate_out, b.up_out, b.act_out, (e * d.moe_inter) as i32),
            Kernels::q4g64_gemv_batch_launch(
                b.expert_ptrs,
                o.down,
                b.act_out,
                d.moe_inter,
                b.expert_out,
                d.hidden,
                d.moe_inter,
                o.group,
                e,
            ),
            Kernels::moe_reduce_launch(b.expert_out, b.expert_wts, lane.h, e, d.hidden),
        ]
    }

    /// What turns a lane's hidden state into logits.
    pub open spec fn logits_launches(self, lane: Lane) -> Seq<LaunchView> {
        let d = self.dims;
        let b = self.bufs;
        seq![
            Kernels::rmsnorm_launch(lane.h, self.final_norm, b.h_norm, d.hidden, d.rms_eps, 1),
            self.lm_head.gemv_launch(b.h_norm, b.logits),
        ]
    }

    /// The lane of a single-token step.
    pub fn lane(&self) -> (lane: Lane)
        ensures
            lane == self.single_lane(),
    {
        Lane { h: self.bufs.h, hn: self.bufs.h_norm, router: self.bufs.router_logits }
    }

    /// The lane of entry `t` of a multi-entry step.
    pub fn entry_lane(&self, t: usize) -> (lane: Lane)
        requires
            self.wf(),
            t < CHUNK_CAP,
        ensures
            lane == self.lane_of(t as nat),
    {
        let row: u64 = self.dims.hidden as u64 * 4;
        let logits: u64 = self.dims.experts as u64 * 4;
        assert(0 <= t * row <= CHUNK_CAP * row) by (nonlinear_arith)
            requires
                0 <= t <= CHUNK_CAP,
                0 <= row,
        ;
        assert(0 <= t * logits <= CHUNK_CAP * logits) by (nonlinear_arith)
            requires
                0 <= t <= CHUNK_CAP,
                0 <= logits,
        ;
        Lane {
            h: self.bufs.h_buf + t as u64 * row,
            hn: self.bufs.hn_buf + t as u64 * row,
            router: self.bufs.router_buf + t as u64 * logits,
        }
    }

    /// Plans attention of layer `l` for a token at `pos` of sequence slot
    /// `seq`.
    pub fn attention(&self, l: usize, pos: usize, seq: usize, lane: &Lane) -> (plan: Vec<Launch>)
        requires
            self.wf(),
            l < self.layers@.len(),
            pos < self.dims.max_seq,
            seq < self.batch_cap,
        ensures
            launch_views(plan@) == self.attention_launches(l as int, pos as i32, seq as nat, *lane),
    {
        let w: KimiLayer = self.layers[l];
        let d: KimiDims = self.dims;
        let b: KimiBuffers = self.bufs;
        let row: i32 = d.kv_lora + d.rope;
        let q_dim: i32 = d.nope + d.rope;
        let half: i32 = d.rope / 2;
        let p: i32 = pos as i32;
        proof {
            assert(self.layers@[l as int].wf());
            assert(self.cache@[l as int] + self.batch_cap * row_stride(d) <= u64::MAX);
            lemma_row_stride(d);
            assert(0 <= seq * row_stride(d) <= self.batch_cap * row_stride(d)) by (nonlinear_arith)
                requires
                    0 <= seq <= self.batch_cap,
                    0 <= row_stride(d),
            ;
            assert(0 <= p * row && p * row + row <= d.max_seq * row) by (nonlinear_arith)
                requires
                    0 <= p,
                    p + 1 <= d.max_seq,
                    0 <= row,
            ;
            assert(0 <= d.heads * half <= d.heads * d.rope) by (nonlinear_arith)
                requires
                    0 <= d.heads,
                    0 <= half <= d.rope,
            ;
            assert(0 <= d.kv_lora * d.nope <= 0x7fff_ffff * 0x7fff_ffff) by (nonlinear_arith)
                requires
                    0 <= d.kv_lora <= 0x7fff_ffff,
                    0 <= d.nope <= 0x7fff_ffff,
            ;
            assert(0 <= d.v_head * d.kv_lora <= 0x7fff_ffff * 0x7fff_ffff) by (nonlinear_arith)
                requires
                    0 <= d.v_head <= 0x7fff_ffff,
                    0 <= d.kv_lora <= 0x7fff_ffff,
            ;
        }
        let stride: u64 = d.max_seq as u64 * row as u64 * 4;
        let cache: u64 = self.cache[l] + seq as u64 * stride;
        let mut plan: Vec<Launch> = Vec::new();
        plan.push(Kernels::rmsnorm(lane.h, w.input_ln, b.h_norm, d.hidden, d.rms_eps, 1));
        plan.push(w.q_a.gemv(b.h_norm, b.qa));
        plan.push(Kernels::rmsnorm(b.qa, w.q_a_ln, b.qa, d.q_lora, d.rms_eps, 1));
        plan.push(w.q_b.gemv(b.qa, b.q));
        plan.push(w.kv_a.gemv(b.h_norm, b.kva));
        plan.push(Kernels::rmsnorm(b.kva, w.kv_a_ln, b.ckv_norm, d.kv_lora, d.rms_eps, 1));
        plan.push(Kernels::mla_rope(b.q, d.heads, q_dim, d.nope, half, p, b.inv_freq, d.one));
        plan.push(Kernels::mla_rope(b.kva, 1, row, d.kv_lora, half, p, b.inv_freq, d.one));
        plan.push(
            Kernels::strided_copy(b.ckv_norm, d.kv_lora, 0, cache, row, p * row, 1, d.kv_lora),
        );
        plan.push(
            Kernels::strided_copy(
                b.kva,
                row,
                d.kv_lora,
                cache,
                row,
                p * row + d.kv_lora,
                1,
                d.rope,
            ),
        );
        plan.push(
            Kernels::bf16_gemv_batch(
                w.kt,
                d.kv_lora as u64 * d.nope as u64,
                b.q,
                q_dim,
                b.q_full,
                row,
                d.kv_lora,
                d.nope,
                d.heads,
            ),
        );
        plan.push(
            Kernels::strided_copy(b.q, q_dim, d.nope, b.q_full, row, d.kv_lora, d.heads, d.rope),
        );
        plan.push(
            Kernels::mla_attn_decode(
                b.q_full,
                cache,
                b.ctx,
                b.attn_scratch,
                d.heads,
                row,
                d.kv_lora,
                p + 1,
                d.max_seq,
                d.softmax_scale,
            ),
        );
        plan.push(
            Kernels::bf16_gemv_batch(
                w.vw,
                d.v_head as u64 * d.kv_lora as u64,
                b.ctx,
                d.kv_lora,
                b.attn_pre,
                d.v_head,
                d.v_head,
                d.kv_lora,
                d.heads,
            ),
        );
        plan.push(w.o.gemv(b.attn_pre, b.proj_out));
        plan.push(Kernels::add_to(lane.h, b.proj_out, d.hidden));
        plan.push(Kernels::rmsnorm(lane.h, w.post_ln, lane.hn, d.hidden, d.rms_eps, 1));
        assert(launch_views(plan@) =~= self.attention_launches(l as int, p, seq as nat, *lane));
        plan
    }

    /// Plans a dense feed-forward block on a lane.
    pub fn dense(&self, mlp: &Mlp, lane: &Lane) -> (plan: Vec<Launch>)
        requires
            self.wf(),
            mlp.wf(),
        ensures
            launch_views(plan@) == self.dense_launches(*mlp, *lane),
    {
        let d: KimiDims = self.dims;
        let b: KimiBuffers = self.bufs;
        let mut plan: Vec<Launch> = Vec::new();
        plan.push(mlp.gate.gemv(lane.hn, b.dn_gate));
        plan.push(mlp.up.gemv(lane.hn, b.dn_up));
        plan.push(Kernels::silu_mul(b.dn_gate, b.dn_up, b.dn_gate, d.dense_inter));
        plan.push(mlp.down.gemv(b.dn_gate, b.proj_out));
        plan.push(Kernels::add_to(lane.h, b.proj_out, d.hidden));
        assert(launch_views(plan@) =~= self.dense_launches(*mlp, *lane));
        plan
    }

    /// Plans the shared expert on a lane, up to its output.
    pub fn shared(&self, mlp: &Mlp, lane: &Lane) -> (plan: Vec<Launch>)
        requires
            self.wf(),
            mlp.wf(),
        ensures
            launch_views(plan@) == self.shared_launches(*mlp, *lane),
    {
        let d: KimiDims = self.dims;
        let b: KimiBuffers = self.bufs;
        let mut plan: Vec<Launch> = Vec::new();
        plan.push(mlp.gate.gemv(lane.hn, b.sh_gate));
        plan.push(mlp.up.gemv(lane.hn, b.sh_up));
        plan.push(Kernels::silu_mul(b.sh_gate, b.sh_up, b.sh_gate, d.moe_inter));
        plan.push(mlp.down.gemv(b.sh_gate, b.sh_out));
        assert(launch_views(plan@) =~= self.shared_launches(*mlp, *lane));
        plan
    }

    /// How many layers are dense before the first that has experts.
    pub fn dense_layers(&self) -> (n: usize)
        ensures
            n == leading_dense(self.layers@, 0),
            n <= self.layers@.len(),
    {
        let mut i: usize = 0;
        while i < self.layers.len()
            invariant
                i <= self.layers@.len(),
                leading_dense(self.layers@, 0) == i + leading_dense(self.layers@, i as nat),
            decreases self.layers@.len() - i,
        {
            match self.layers[i].ffn {
                FeedForward::Dense(_) => {},
                FeedForward::Experts { router: _, shared: _ } => {
                    return i;
                },
            }
            i += 1;
        }
        i
    }

    /// Plans the router's logits of a lane.
    pub fn router(&self, router: &Mat, lane: &Lane) -> (l: Launch)
        requires
            0 <= router.rows,
        ensures
            l@ == router.gemv_launch(lane.hn, lane.router),
    {
        router.gemv(lane.hn, lane.router)
    }

    /// Plans the addition of the shared expert's output to a lane.
    pub fn shared_add(&self, lane: &Lane) -> (l: Launch)
        requires
            self.wf(),
        ensures
            l@ == self.shared_add_launch(*lane),
    {
        Kernels::add_to(lane.h, self.bufs.sh_out, self.dims.hidden)
    }

    /// Plans the run of the `e` experts in the expert table on a lane.
    pub fn experts(&self, lane: &Lane, e: usize) -> (plan: Vec<Launch>)
        requires
            self.wf(),
            e <= self.dims.top_k,
        ensures
            launch_views(plan@) == self.expert_launches(*lane, e as i32),
    {
        let d: KimiDims = self.dims;
        let b: KimiBuffers = self.bufs;
        let o: BlobOffsets = self.blob;
        let e: i32 = e as i32;
        assert(0 <= e * d.moe_inter <= d.top_k * d.moe_inter) by (nonlinear_arith)
            requires
                0 <= e <= d.top_k,
                0 <= d.moe_inter,
        ;
        let mut plan: Vec<Launch> = Vec::new();
        plan.push(
            Kernels::q4g64_gemv_batch(
                b.expert_ptrs,
                o.gate,
                lane.hn,
                0,
                b.gate_out,
                d.moe_inter,
                d.hidden,
                o.group,
                e,
            ),
        );
        plan.push(
            Kernels::q4g64_gemv_batch(
                b.expert_ptrs,
                o.up,
                lane.hn,
                0,
                b.up_out,
                d.moe_inter,
                d.hidden,
                o.group,
                e,
            ),
        );
        plan.push(Kernels::silu_mul(b.gate_out, b.up_out, b.act_out, e * d.moe_inter));
        plan.push(
            Kernels::q4g64_gemv_batch(
                b.expert_ptrs,
                o.down,
                b.act_out,
                d.moe_inter,
                b.expert_out,
                d.hidden,
                d.moe_inter,
                o.group,
                e,
            ),
        );
        plan.push(Kernels::moe_reduce(b.expert_out, b.expert_wts, lane.h, e, d.hidden));
        assert(launch_views(plan@) =~= self.expert_launches(*lane, e));
        plan
    }

    /// Plans the logits of a lane's hidden state.
    pub fn logits(&self, lane: &Lane) -> (plan: Vec<Launch>)
        requires
            self.wf(),
        ensures
            launch_views(plan@) == self.logits_launches(*lane),
    {
        let d: KimiDims = self.dims;
        let b: KimiBuffers = self.bufs;
        let mut plan: Vec<Launch> = Vec::new();
        plan.push(Kernels::rmsnorm(lane.h, self.final_norm, b.h_norm, d.hidden, d.rms_eps, 1));
        plan.push(self.lm_head.gemv(b.h_norm, b.logits));
        assert(launch_views(plan@) =~= self.logits_launches(*lane));
        plan
    }

    /// Bytes of the compressed cache that `len` tokens occupy in one layer.
    pub open spec fn run_bytes(self, len: nat) -> nat {
        (len * self.dims.row() * 4) as nat
    }

    /// Bytes of the compressed cache that `len` tokens occupy across all
    /// layers.
    pub open spec fn kv_bytes(self, len: nat) -> nat {
        self.cache@.len() * self.run_bytes(len)
    }

    /// The run of layer `l` of a prefix.
    pub open spec fn kv_run(self, seq: nat, len: nat, l: int) -> KvRun {
        KvRun {
            dev: (self.cache@[l] + seq * row_stride(self.dims)) as u64,
            host: (l * self.run_bytes(len)) as usize,
            len: self.run_bytes(len) as usize,
        }
    }

    /// Bytes of the compressed cache that one token occupies across all layers.
    pub fn kv_bytes_per_token(&self) -> (n: Option<usize>)
        requires
            self.wf(),
        ensures
            match n {
                Some(n) => n == self.kv_bytes(1),
                None => self.kv_bytes(1) > usize::MAX,
            },
    {
        self.kv_size(1)
    }

    /// Bytes of the compressed cache that `len` tokens occupy across all
    /// layers. `None` where host memory cannot hold them.
    pub fn kv_size(&self, len: usize) -> (n: Option<usize>)
        requires
            self.wf(),
            len <= self.dims.max_seq,
        ensures
            match n {
                Some(n) => n == self.kv_bytes(len as nat),
                None => self.kv_bytes(len as nat) > usize::MAX,
            },
    {
        let d: KimiDims = self.dims;
        proof {
            lemma_row_run(d, len as int);
        }
        let run: u128 = len as u128 * (d.kv_lora + d.rope) as u128 * 4;
        let layers: u128 = self.cache.len() as u128;
        assert(0 <= layers * run <= 0xffff_ffff_ffff_ffff * 0x1_ffff_fffc) by (nonlinear_arith)
            requires
                0 <= layers <= 0xffff_ffff_ffff_ffff,
                0 <= run <= 0x1_ffff_fffc,
        ;
        let total: u128 = layers * run;
        if total <= usize::MAX as u128 {
            Some(total as usize)
        } else {
            None
        }
    }

    /// The copies that take sequence slot `seq`'s compressed cache for
    /// positions [0, len) to the host, or back: a prefix is one contiguous run
    /// per layer.
    pub fn kv_runs(&self, seq: usize, len: usize) -> (runs: Result<Vec<KvRun>, KvError>)
        requires
            self.wf(),
        ensures
            match runs {
                Ok(runs) => {
                    &&& seq < self.batch_cap
                    &&& len <= self.dims.max_seq
                    &&& self.kv_bytes(len as nat) <= usize::MAX
                    &&& runs@.len() == self.cache@.len()
                    &&& forall|l: int|
                        0 <= l < runs@.len() ==> #[trigger] runs@[l] == self.kv_run(
                            seq as nat,
                            len as nat,
                            l,
                        )
                },
                Err(KvError::SequenceSlot { seq: s }) => s == seq && seq >= self.batch_cap,
                Err(KvError::Length { len: n }) => {
                    &&& n == len
                    &&& seq < self.batch_cap
                    &&& len > self.dims.max_seq
                },
                Err(e) => {
                    &&& e == KvError::TooLarge
                    &&& seq < self.batch_cap
                    &&& len <= self.dims.max_seq
                    &&& self.kv_bytes(len as nat) > usize::MAX
                },
            },
    {
        if seq >= self.batch_cap {
            return Err(KvError::SequenceSlot { seq });
        }
        if len as u64 > self.dims.max_seq as u64 {
            return Err(KvError::Length { len });
        }
        let total: usize = match self.kv_size(len) {
            Some(n) => n,
            None => {
                return Err(KvError::TooLarge);
            },
        };
        let d: KimiDims = self.dims;
        proof {
            lemma_row_stride(d);
            lemma_row_run(d, len as int);
        }
        let stride: u64 = d.max_seq as u64 * (d.kv_lora + d.rope) as u64 * 4;
        let bytes: u64 = len as u64 * (d.kv_lora + d.rope) as u64 * 4;
        let mut runs: Vec<KvRun> = Vec::new();
        let mut l: usize = 0;
        while l < self.cache.len()
            invariant
                self.wf(),
                l <= self.cache@.len(),
                d == self.dims,
                seq < self.batch_cap,
                stride == row_stride(d),
                bytes == self.run_bytes(len as nat),
                total == self.kv_bytes(len as nat),
                runs@.len() == l,
                forall|k: int|
                    0 <= k < l ==> #[trigger] runs@[k] == self.kv_run(seq as nat, len as nat, k),
            decreases self.cache@.len() - l,
        {
            proof {
                assert(self.cache@[l as int] + self.batch_cap * stride <= u64::MAX);
                assert(0 <= seq * stride <= self.batch_cap * stride) by (nonlinear_arith)
                    requires
                        0 <= seq <= self.batch_cap,
                        0 <= stride,
                ;
                let n = self.cache@.len() as int;
                assert(0 <= l * bytes && l * bytes + bytes <= n * bytes) by (nonlinear_arith)
                    requires
                        0 <= l,
                        l + 1 <= n,
                        0 <= bytes,
                ;
            }
            runs.push(
                KvRun {
                    dev: self.cache[l] + seq as u64 * stride,
                    host: l * bytes as usize,
                    len: bytes as usize,
                },
            );
            l += 1;
        }
        Ok(runs)
    }

    /// The copies that restore a parked context of `len` tokens into slot
    /// `seq`: those that took it out, for a copy of the right size.
    pub fn kv_import_runs(&self, seq: usize, len: usize, blob: usize) -> (runs: Result<
        Vec<KvRun>,
        KvError,
    >)
        requires
            self.wf(),
        ensures
            match runs {
                Ok(runs) => {
                    &&& seq < self.batch_cap
                    &&& len <= self.dims.max_seq
                    &&& blob == self.kv_bytes(len as nat)
                    &&& runs@.len() == self.cache@.len()
                    &&& forall|l: int|
                        0 <= l < runs@.len() ==> #[trigger] runs@[l] == self.kv_run(
                            seq as nat,
                            len as nat,
                            l,
                        )
                },
                Err(KvError::SequenceSlot { seq: s }) => s == seq && seq >= self.batch_cap,
                Err(KvError::Length { len: n }) => {
                    &&& n == len
                    &&& seq < self.batch_cap
                    &&& len > self.dims.max_seq
                },
                Err(KvError::TooLarge) => {
                    &&& seq < self.batch_cap
                    &&& len <= self.dims.max_seq
                    &&& self.kv_bytes(len as nat) > usize::MAX
                },
                Err(KvError::BlobSize { len: n, want }) => {
                    &&& seq < self.batch_cap
                    &&& len <= self.dims.max_seq
                    &&& n == blob
                    &&& want == self.kv_bytes(len as nat)
                    &&& blob != want
                },
            },
    {
        let runs: Vec<KvRun> = match self.kv_runs(seq, len) {
            Ok(runs) => runs,
            Err(e) => {
                return Err(e);
            },
        };
        match self.kv_size(len) {
            Some(want) => if blob != want {
                Err(KvError::BlobSize { len: blob, want })
            } else {
                Ok(runs)
            },
            None => Err(KvError::TooLarge),
        }
    }
}

pub proof fn lemma_row_stride(d: KimiDims)
    requires
        d.wf(),
    ensures
        0 <= d.max_seq * d.row(),
        0 <= row_stride(d) <= 0x1_ffff_fffc,
{
    assert(0 <= d.max_seq * d.row()) by (nonlinear_arith)
        requires
            0 <= d.max_seq,
            0 <= d.row(),
    ;
}

pub proof fn lemma_row_run(d: KimiDims, len: int)
    requires
        d.wf(),
        0 <= len <= d.max_seq,
    ensures
        0 <= len * d.row() <= d.max_seq * d.row(),
        0 <= len * d.row() * 4 <= 0x1_ffff_fffc,
{
    assert(0 <= len * d.row() <= d.max_seq * d.row()) by (nonlinear_arith)
        requires
            0 <= len <= d.max_seq,
            0 <= d.row(),
    ;
}

/// Sequence slots never share cache rows: what a lower slot holds ends before
/// what a higher slot holds begins.
pub proof fn law_kimi_slots_disjoint(d: KimiDecoder, base: u64, len: nat, s1: nat, s2: nat)
    requires
        d.wf(),
        len <= d.dims.max_seq,
        s1 < s2 < d.batch_cap,
    ensures
        base + s1 * row_stride(d.dims) + d.run_bytes(len) <= base + s2 * row_stride(d.dims),
{
    lemma_row_run(d.dims, len as int);
    lemma_row_stride(d.dims);
    let stride = row_stride(d.dims) as int;
    assert(s1 * stride + stride <= s2 * stride) by (nonlinear_arith)
        requires
            s1 + 1 <= s2,
            0 <= stride,
    ;
}

} // verus!
