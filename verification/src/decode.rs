//! The decode loop: one token through the resident core with expert FFNs
//! pulled through the pager.
//!
//! Per layer: rmsnorm -> q/k/v projections -> per-head q/k norm -> RoPE ->
//! KV append -> GQA attention -> o projection (+residual) -> rmsnorm ->
//! router logits (top-k on host) -> paged expert FFNs, weighted-accumulated
//! (+residual). Then final norm -> lm_head -> greedy argmax on host.
//!
//! What runs on the device is planned here, launch by launch.

use crate::launch::{launch_views, Kernels, Launch, LaunchView};
use crate::model::{CoreWeights, LayerWeights};
use vstd::prelude::*;

verus! {

/// The dimensions of a model as the kernels take them, and the bits of its
/// floating-point settings.
#[derive(Debug, Clone, Copy)]
pub struct Dims {
    pub hidden: i32,
    pub heads: i32,
    pub kv_heads: i32,
    pub head_dim: i32,
    pub moe_inter: i32,
    pub experts: i32,
    pub top_k: i32,
    pub vocab: i32,
    pub max_seq: i32,
    /// Bits of the RMSNorm epsilon.
    pub rms_eps: u32,
    /// Bits of the RoPE base.
    pub rope_theta: u32,
    /// Bits of 1/sqrt(head_dim).
    pub attn_scale: u32,
}

impl Dims {
    pub open spec fn wf(self) -> bool {
        &&& 0 <= self.hidden
        &&& 0 <= self.heads
        &&& 0 <= self.kv_heads
        &&& 0 <= self.head_dim
        &&& 0 <= self.moe_inter
        &&& 0 <= self.experts
        &&& 0 <= self.top_k
        &&& 0 <= self.vocab
        &&& 0 < self.max_seq
        &&& self.heads * self.head_dim <= i32::MAX
        &&& self.kv_heads * self.head_dim <= i32::MAX
        &&& self.top_k * self.moe_inter <= i32::MAX
    }
}

/// Device buffers.
#[derive(Debug, Clone, Copy)]
pub struct Buffers {
    pub h: u64,
    pub h_norm: u64,
    pub q: u64,
    pub k: u64,
    pub v: u64,
    pub attn_out: u64,
    pub proj_out: u64,
    pub router_logits: u64,
    /// Batched MoE buffers: [top_k, inter] / [top_k, hidden] contiguous.
    pub gate_out: u64,
    pub up_out: u64,
    pub act_out: u64,
    pub expert_out: u64,
    /// [top_k] u64 blob base addresses
    pub expert_ptrs: u64,
    /// [top_k] f32 routing weights
    pub expert_wts: u64,
    pub logits: u64,
    pub attn_scratch: u64,
    /// [chunk_cap, hidden]
    pub h_buf: u64,
    /// [chunk_cap, hidden]
    pub hn_buf: u64,
    /// [chunk_cap, experts]
    pub router_buf: u64,
}

/// How an expert blob is laid out: where its regions start, and values per
/// scale.
#[derive(Debug, Clone, Copy)]
pub struct BlobOffsets {
    pub gate: u64,
    pub up: u64,
    pub down: u64,
    pub group: i32,
}

/// Where an entry's hidden state, its normed copy and its router logits are.
#[derive(Debug, Clone, Copy)]
pub struct Lane {
    pub h: u64,
    pub hn: u64,
    pub router: u64,
}

/// Entries that one step can hold.
pub const CHUNK_CAP: usize = 64;

/// A planned decoder: the model's dimensions, where its weights and buffers
/// are, and how its KV cache is laid out.
#[derive(Debug)]
pub struct Decoder {
    pub dims: Dims,
    pub core: CoreWeights,
    pub bufs: Buffers,
    pub blob: BlobOffsets,
    /// Per layer, `batch_cap` regions of [kv_heads, max_seq, head_dim].
    pub kcache: Vec<u64>,
    pub vcache: Vec<u64>,
    /// KV cache stored f16 (halves KV VRAM) or f32.
    pub kv_f16: bool,
    /// Concurrent sequence slots (lockstep batch decode).
    pub batch_cap: usize,
}

/// Bytes of one KV element.
pub open spec fn kv_elem(kv_f16: bool) -> nat {
    if kv_f16 {
        2
    } else {
        4
    }
}

/// Bytes from one head of a sequence slot to the next.
pub open spec fn head_stride(d: Dims, kv_f16: bool) -> nat {
    (d.max_seq * d.head_dim) as nat * kv_elem(kv_f16)
}

/// Bytes from one sequence slot to the next.
pub open spec fn slot_stride(d: Dims, kv_f16: bool) -> nat {
    d.kv_heads as nat * head_stride(d, kv_f16)
}

impl Decoder {
    /// Everything fits into addresses and kernel parameters.
    pub open spec fn wf(self) -> bool {
        &&& self.dims.wf()
        &&& self.core.wf()
        &&& self.batch_cap > 0
        &&& self.core.layers@.len() == self.kcache@.len() == self.vcache@.len()
        &&& self.bufs.h_buf + CHUNK_CAP * (self.dims.hidden * 4) <= u64::MAX
        &&& self.bufs.hn_buf + CHUNK_CAP * (self.dims.hidden * 4) <= u64::MAX
        &&& self.bufs.router_buf + CHUNK_CAP * (self.dims.experts * 4) <= u64::MAX
        &&& forall|l: int|
            #![trigger self.kcache@[l]]
            0 <= l < self.kcache@.len() ==> self.kcache@[l] + self.batch_cap * slot_stride(
                self.dims,
                self.kv_f16,
            ) <= u64::MAX
        &&& forall|l: int|
            #![trigger self.vcache@[l]]
            0 <= l < self.vcache@.len() ==> self.vcache@[l] + self.batch_cap * slot_stride(
                self.dims,
                self.kv_f16,
            ) <= u64::MAX
    }

    /// The lane of a single-token step.
    pub open spec fn single_lane(self) -> Lane {
        Lane { h: self.bufs.h, hn: self.bufs.h_norm, router: self.bufs.router_logits }
    }

    /// The lane of entry `t` of a multi-entry step.
    pub open spec fn lane_of(self, t: nat) -> Lane {
        Lane {
            h: (self.bufs.h_buf + t * (self.dims.hidden * 4)) as u64,
            hn: (self.bufs.hn_buf + t * (self.dims.hidden * 4)) as u64,
            router: (self.bufs.router_buf + t * (self.dims.experts * 4)) as u64,
        }
    }

    /// What attention of layer `l` runs for a token at `pos` of sequence slot
    /// `seq`, up to the router's logits.
    pub open spec fn attention_launches(self, l: int, pos: i32, seq: nat, lane: Lane) -> Seq<LaunchView> {
        let w = self.core.layers@[l];
        let d = self.dims;
        let b = self.bufs;
        let kc = (self.kcache@[l] + seq * slot_stride(d, self.kv_f16)) as u64;
        let vc = (self.vcache@[l] + seq * slot_stride(d, self.kv_f16)) as u64;
        let half: i32 = if self.kv_f16 {
            1
        } else {
            0
        };
        seq![
            Kernels::rmsnorm_launch(lane.h, w.input_ln, b.h_norm, d.hidden, d.rms_eps, 1),
            w.q.gemv_launch(b.h_norm, b.q),
            w.k.gemv_launch(b.h_norm, b.k),
            w.v.gemv_launch(b.h_norm, b.v),
            Kernels::rmsnorm_launch(b.q, w.q_norm, b.q, d.head_dim, d.rms_eps, d.heads),
            Kernels::rmsnorm_launch(b.k, w.k_norm, b.k, d.head_dim, d.rms_eps, d.kv_heads),
            Kernels::rope_launch(b.q, d.heads, d.head_dim, pos, d.rope_theta),
            Kernels::rope_launch(b.k, d.kv_heads, d.head_dim, pos, d.rope_theta),
            Kernels::kv_append_launch(
                b.k,
                b.v,
                kc,
                vc,
                d.kv_heads,
                d.head_dim,
                pos,
                d.max_seq,
                half,
            ),
            Kernels::attn_decode_launch(
                b.q,
                kc,
                vc,
                b.attn_out,
                b.attn_scratch,
                d.heads,
                d.kv_heads,
                d.head_dim,
                (pos + 1) as i32,
                d.max_seq,
                d.attn_scale,
                half,
            ),
            w.o.gemv_launch(b.attn_out, b.proj_out),
            Kernels::add_to_launch(lane.h, b.proj_out, d.hidden),
            Kernels::rmsnorm_launch(lane.h, w.post_ln, lane.hn, d.hidden, d.rms_eps, 1),
            w.router.gemv_launch(lane.hn, lane.router),
        ]
    }

    /// What runs the `e` experts in the expert table on a lane: gate and up,
    /// the activation, down, and the weighted sum into the hidden state.
    pub open spec fn expert_launches(self, lane: Lane, e: i32) -> Seq<LaunchView> {
        let d = self.dims;
        let b = self.bufs;
        let o = self.blob;
        seq![
            Kernels::q4g64_gemv_batch_launch(
                b.expert_ptrs,
                o.gate,
                lane.hn,
                0,
                b.gate_out,
                d.moe_inter,
                d.hidden,
                o.group,
                e,
            ),
            Kernels::q4g64_gemv_batch_launch(
                b.expert_ptrs,
                o.up,
                lane.hn,
                0,
                b.up_out,
                d.moe_inter,
                d.hidden,
                o.group,
                e,
            ),
            Kernels::silu_mul_launch(b.gate_out, b.up_out, b.act_out, (e * d.moe_inter) as i32),
            Kernels::q4g64_gemv_batch_launch(
                b.expert_ptrs,
                o.down,
                b.act_out,
                d.moe_inter,
                b.expert_out,
                d.hidden,
                d.moe_inter,
                o.group,
                e,
            ),
            Kernels::moe_reduce_launch(b.expert_out, b.expert_wts, lane.h, e, d.hidden),
        ]
    }

    /// What turns a lane's hidden state into logits.
    pub open spec fn logits_launches(self, lane: Lane) -> Seq<LaunchView> {
        let d = self.dims;
        let b = self.bufs;
        seq![
            Kernels::rmsnorm_launch(lane.h, self.core.final_norm, b.h_norm, d.hidden, d.rms_eps, 1),
            self.core.lm_head.gemv_launch(b.h_norm, b.logits),
        ]
    }

    /// The lane of a single-token step.
    pub fn lane(&self) -> (lane: Lane)
        ensures
            lane == self.single_lane(),
    {
        Lane { h: self.bufs.h, hn: self.bufs.h_norm, router: self.bufs.router_logits }
    }

    /// The lane of entry `t` of a multi-entry step.
    pub fn entry_lane(&self, t: usize) -> (lane: Lane)
        requires
            self.wf(),
            t < CHUNK_CAP,
        ensures
            lane == self.lane_of(t as nat),
    {
        let row: u64 = self.dims.hidden as u64 * 4;
        let logits: u64 = self.dims.experts as u64 * 4;
        assert(0 <= t * row <= CHUNK_CAP * row) by (nonlinear_arith)
            requires
                0 <= t <= CHUNK_CAP,
                0 <= row,
        ;
        assert(0 <= t * logits <= CHUNK_CAP * logits) by (nonlinear_arith)
            requires
                0 <= t <= CHUNK_CAP,
                0 <= logits,
        ;
        Lane {
            h: self.bufs.h_buf + t as u64 * row,
            hn: self.bufs.hn_buf + t as u64 * row,
            router: self.bufs.router_buf + t as u64 * logits,
        }
    }

    /// Looks up a token's embedding.
    #[verifier::truncate]
    pub fn embed(&self, token: u32, lane: &Lane) -> (l: Launch)
        requires
            self.wf(),
        ensures
            l@ == Kernels::bf16_row_launch(self.core.embed, token as i32, self.dims.hidden, lane.h),
    {
        Kernels::bf16_row(self.core.embed, token as i32, self.dims.hidden, lane.h)
    }

    pub(crate) fn slot_bytes(&self) -> (n: u64)
        requires
            self.wf(),
            self.kcache@.len() > 0,
        ensures
            n == slot_stride(self.dims, self.kv_f16),
    {
        let d: Dims = self.dims;
        let elem: u64 = if self.kv_f16 {
            2
        } else {
            4
        };
        proof {
            assert(self.kcache@[0] + self.batch_cap * slot_stride(d, self.kv_f16) <= u64::MAX);
            lemma_strides(d, self.kv_f16, self.batch_cap as nat);
        }
        let head: u64 = d.max_seq as u64 * d.head_dim as u64 * elem;
        d.kv_heads as u64 * head
    }

    /// Plans attention of layer `l` for a token at `pos` of sequence slot
    /// `seq`.
    pub fn attention(&self, l: usize, pos: usize, seq: usize, lane: &Lane) -> (plan: Vec<Launch>)
        requires
            self.wf(),
            l < self.core.layers@.len(),
            pos < self.dims.max_seq,
            seq < self.batch_cap,
        ensures
            launch_views(plan@) == self.attention_launches(l as int, pos as i32, seq as nat, *lane),
    {
        let w: LayerWeights = self.core.layers[l];
        let d: Dims = self.dims;
        let b: Buffers = self.bufs;
        let stride: u64 = self.slot_bytes();
        proof {
            assert(self.core.layers@[l as int].wf());
            assert(self.kcache@[l as int] + self.batch_cap * stride <= u64::MAX);
            assert(self.vcache@[l as int] + self.batch_cap * stride <= u64::MAX);
            assert(0 <= seq * stride <= self.batch_cap * stride) by (nonlinear_arith)
                requires
                    0 <= seq <= self.batch_cap,
                    0 <= stride,
            ;
        }
        let kc: u64 = self.kcache[l] + seq as u64 * stride;
        let vc: u64 = self.vcache[l] + seq as u64 * stride;
        let p: i32 = pos as i32;
        let half: i32 = if self.kv_f16 {
            1
        } else {
            0
        };
        let mut plan: Vec<Launch> = Vec::new();
        plan.push(Kernels::rmsnorm(lane.h, w.input_ln, b.h_norm, d.hidden, d.rms_eps, 1));
        plan.push(w.q.gemv(b.h_norm, b.q));
        plan.push(w.k.gemv(b.h_norm, b.k));
        plan.push(w.v.gemv(b.h_norm, b.v));
        plan.push(Kernels::rmsnorm(b.q, w.q_norm, b.q, d.head_dim, d.rms_eps, d.heads));
        plan.push(Kernels::rmsnorm(b.k, w.k_norm, b.k, d.head_dim, d.rms_eps, d.kv_heads));
        plan.push(Kernels::rope(b.q, d.heads, d.head_dim, p, d.rope_theta));
        plan.push(Kernels::rope(b.k, d.kv_heads, d.head_dim, p, d.rope_theta));
        plan.push(
            Kernels::kv_append(b.k, b.v, kc, vc, d.kv_heads, d.head_dim, p, d.max_seq, half),
        );
        plan.push(
            Kernels::attn_decode(
                b.q,
                kc,
                vc,
                b.attn_out,
                b.attn_scratch,
                d.heads,
                d.kv_heads,
                d.head_dim,
                p + 1,
                d.max_seq,
                d.attn_scale,
                half,
            ),
        );
        plan.push(w.o.gemv(b.attn_out, b.proj_out));
        plan.push(Kernels::add_to(lane.h, b.proj_out, d.hidden));
        plan.push(Kernels::rmsnorm(lane.h, w.post_ln, lane.hn, d.hidden, d.rms_eps, 1));
        plan.push(w.router.gemv(lane.hn, lane.router));
        assert(launch_views(plan@) =~= self.attention_launches(l as int, p, seq as nat, *lane));
        plan
    }

    /// Plans the run of the `e` experts in the expert table on a lane.
    pub fn experts(&self, lane: &Lane, e: usize) -> (plan: Vec<Launch>)
        requires
            self.wf(),
            e <= self.dims.top_k,
        ensures
            launch_views(plan@) == self.expert_launches(*lane, e as i32),
    {
        let d: Dims = self.dims;
        let b: Buffers = self.bufs;
        let o: BlobOffsets = self.blob;
        let e: i32 = e as i32;
        assert(0 <= e * d.moe_inter <= d.top_k * d.moe_inter) by (nonlinear_arith)
            requires
                0 <= e <= d.top_k,
                0 <= d.moe_inter,
        ;
        let mut plan: Vec<Launch> = Vec::new();
        plan.push(
            Kernels::q4g64_gemv_batch(
                b.expert_ptrs,
                o.gate,
                lane.hn,
                0,
                b.gate_out,
                d.moe_inter,
                d.hidden,
                o.group,
                e,
            ),
        );
        plan.push(
            Kernels::q4g64_gemv_batch(
                b.expert_ptrs,
                o.up,
                lane.hn,
                0,
                b.up_out,
                d.moe_inter,
                d.hidden,
                o.group,
                e,
            ),
        );
        plan.push(Kernels::silu_mul(b.gate_out, b.up_out, b.act_out, e * d.moe_inter));
        plan.push(
            Kernels::q4g64_gemv_batch(
                b.expert_ptrs,
                o.down,
                b.act_out,
                d.moe_inter,
                b.expert_out,
                d.hidden,
                d.moe_inter,
                o.group,
                e,
            ),
        );
        plan.push(Kernels::moe_reduce(b.expert_out, b.expert_wts, lane.h, e, d.hidden));
        assert(launch_views(plan@) =~= self.expert_launches(*lane, e));
        plan
    }

    /// Plans the logits of a lane's hidden state.
    pub fn logits(&self, lane: &Lane) -> (plan: Vec<Launch>)
        requires
            self.wf(),
        ensures
            launch_views(plan@) == self.logits_launches(*lane),
    {
        let d: Dims = self.dims;
        let b: Buffers = self.bufs;
        let mut plan: Vec<Launch> = Vec::new();
        plan.push(
            Kernels::rmsnorm(lane.h, self.core.final_norm, b.h_norm, d.hidden, d.rms_eps, 1),
        );
        plan.push(self.core.lm_head.gemv(b.h_norm, b.logits));
        assert(launch_views(plan@) =~= self.logits_launches(*lane));
        plan
    }
}

proof fn lemma_strides(d: Dims, kv_f16: bool, batch: nat)
    requires
        d.wf(),
        batch > 0,
        batch * slot_stride(d, kv_f16) <= u64::MAX,
    ensures
        slot_stride(d, kv_f16) <= u64::MAX,
        0 <= d.max_seq * d.head_dim,
        d.max_seq * d.head_dim * kv_elem(kv_f16) <= u64::MAX,
{
    let s = slot_stride(d, kv_f16) as int;
    assert(s <= batch * s) by (nonlinear_arith)
        requires
            batch >= 1,
            s >= 0,
    ;
    assert(0 <= d.max_seq * d.head_dim <= 0x7fff_ffff * 0x7fff_ffff) by (nonlinear_arith)
        requires
            0 <= d.max_seq <= 0x7fff_ffff,
            0 <= d.head_dim <= 0x7fff_ffff,
    ;
}

impl Decoder {
    /// Whether everything fits into addresses and kernel parameters.
    pub fn fits(&self) -> (yes: bool)
        ensures
            yes == self.wf(),
    {
        let d: Dims = self.dims;
        if !d.fit() || !self.core.fit() || self.batch_cap == 0 {
            return false;
        }
        let layers: usize = self.core.layers.len();
        if self.kcache.len() != layers || self.vcache.len() != layers {
            return false;
        }
        let row: u128 = CHUNK_CAP as u128 * (d.hidden as u128 * 4);
        let logits: u128 = CHUNK_CAP as u128 * (d.experts as u128 * 4);
        let top: u128 = u64::MAX as u128;
        if self.bufs.h_buf as u128 + row > top || self.bufs.hn_buf as u128 + row > top
            || self.bufs.router_buf as u128 + logits > top {
            return false;
        }
        if layers == 0 {
            return true;
        }
        let elem: u128 = if self.kv_f16 {
            2
        } else {
            4
        };
        proof {
            lemma_slot_bound(d, self.kv_f16);
        }
        let stride: u128 = d.kv_heads as u128 * (d.max_seq as u128 * d.head_dim as u128 * elem);
        if stride > top {
            assert(self.batch_cap * slot_stride(d, self.kv_f16) >= slot_stride(d, self.kv_f16))
                by (nonlinear_arith)
                requires
                    self.batch_cap >= 1,
                    slot_stride(d, self.kv_f16) >= 0,
            ;
            assert(self.kcache@[0] + self.batch_cap * slot_stride(d, self.kv_f16) > u64::MAX);
            return false;
        }
        assert(0 <= self.batch_cap * stride <= 0xffff_ffff_ffff_ffff * 0xffff_ffff_ffff_ffff)
            by (nonlinear_arith)
            requires
                0 <= self.batch_cap <= 0xffff_ffff_ffff_ffff,
                0 <= stride <= 0xffff_ffff_ffff_ffff,
        ;
        let region: u128 = self.batch_cap as u128 * stride;
        let mut l: usize = 0;
        while l < layers
            invariant
                l <= layers,
                layers == self.kcache@.len() == self.vcache@.len(),
                top == u64::MAX,
                region == self.batch_cap * slot_stride(self.dims, self.kv_f16),
                region <= 0xffff_ffff_ffff_ffff * 0xffff_ffff_ffff_ffff,
                forall|k: int|
                    #![trigger self.kcache@[k]]
                    0 <= k < l ==> self.kcache@[k] + self.batch_cap * slot_stride(
                        self.dims,
                        self.kv_f16,
                    ) <= u64::MAX,
                forall|k: int|
                    #![trigger self.vcache@[k]]
                    0 <= k < l ==> self.vcache@[k] + self.batch_cap * slot_stride(
                        self.dims,
                        self.kv_f16,
                    ) <= u64::MAX,
            decreases layers - l,
        {
            if region > top || self.kcache[l] as u128 + region > top || self.vcache[l] as u128
                + region > top {
                return false;
            }
            l += 1;
        }
        true
    }

    /// Bytes of KV state that `len` tokens occupy across all layers.
    pub open spec fn kv_bytes(self, len: nat) -> nat {
        2 * self.kcache@.len() * self.dims.kv_heads as nat * self.run_bytes(len)
    }

    /// Bytes of one head's KV for `len` tokens.
    pub open spec fn run_bytes(self, len: nat) -> nat {
        len * self.dims.head_dim as nat * kv_elem(self.kv_f16)
    }

    /// The runs of a prefix: for each layer its K and then its V cache, head by
    /// head.
    pub open spec fn kv_run(self, seq: nat, len: nat, i: int) -> KvRun {
        let heads = self.dims.kv_heads as int;
        let l = i / heads / 2;
        let base = if i / heads % 2 == 0 {
            self.kcache@[l]
        } else {
            self.vcache@[l]
        };
        KvRun {
            dev: (base + seq * slot_stride(self.dims, self.kv_f16) + (i % heads) * head_stride(
                self.dims,
                self.kv_f16,
            )) as u64,
            host: (i * self.run_bytes(len)) as usize,
            len: self.run_bytes(len) as usize,
        }
    }
}

/// A copy between a device address and a host buffer.
#[derive(Debug, Clone, Copy, PartialEq, Eq, Structural)]
pub struct KvRun {
    pub dev: u64,
    pub host: usize,
    pub len: usize,
}

impl Dims {
    pub fn fit(&self) -> (yes: bool)
        ensures
            yes == self.wf(),
    {
        0 <= self.hidden && 0 <= self.heads && 0 <= self.kv_heads && 0 <= self.head_dim && 0
            <= self.moe_inter && 0 <= self.experts && 0 <= self.top_k && 0 <= self.vocab && 0
            < self.max_seq && product_fits(self.heads, self.head_dim) && product_fits(self.kv_heads, self.head_dim)
            && product_fits(self.top_k, self.moe_inter)
    }
}

/// Whether the product of two dimensions is one.
pub fn product_fits(a: i32, b: i32) -> (yes: bool)
    requires
        0 <= a,
        0 <= b,
    ensures
        yes == (a * b <= i32::MAX),
{
    assert(0 <= a * b <= 0x7fff_ffff * 0x7fff_ffff) by (nonlinear_arith)
        requires
            0 <= a <= 0x7fff_ffff,
            0 <= b <= 0x7fff_ffff,
    ;
    a as u64 * b as u64 <= i32::MAX as u64
}

pub proof fn lemma_slot_bound(d: Dims, kv_f16: bool)
    requires
        d.wf(),
    ensures
        0 <= d.max_seq * d.head_dim <= 0x7fff_ffff * 0x7fff_ffff,
        0 <= head_stride(d, kv_f16) <= 0x7fff_ffff * 0x7fff_ffff * 4,
        0 <= slot_stride(d, kv_f16) <= 0x7fff_ffff * (0x7fff_ffff * 0x7fff_ffff * 4),
{
    assert(0 <= d.max_seq * d.head_dim <= 0x7fff_ffff * 0x7fff_ffff) by (nonlinear_arith)
        requires
            0 <= d.max_seq <= 0x7fff_ffff,
            0 <= d.head_dim <= 0x7fff_ffff,
    ;
    let h = head_stride(d, kv_f16) as int;
    assert(0 <= d.kv_heads * h <= 0x7fff_ffff * (0x7fff_ffff * 0x7fff_ffff * 4))
        by (nonlinear_arith)
        requires
            0 <= d.kv_heads <= 0x7fff_ffff,
            0 <= h <= 0x7fff_ffff * 0x7fff_ffff * 4,
    ;
}

/// Why a slot's KV cannot be copied.
#[derive(Debug, Clone, Copy, PartialEq, Eq, Structural)]
pub enum KvError {
    /// A sequence slot that there is not.
    SequenceSlot { seq: usize },
    /// More tokens than the context holds.
    Length { len: usize },
    /// The copy does not fit into host memory.
    TooLarge,
    /// A parked copy that is not as long as the context it is for.
    BlobSize { len: usize, want: usize },
}

impl Decoder {
    /// Bytes of KV state that `len` tokens occupy across all layers — the host
    /// cost of parking a session's context. `None` where host memory cannot
    /// hold them.
    pub fn kv_size(&self, len: usize) -> (n: Option<usize>)
        requires
            self.wf(),
        ensures
            match n {
                Some(n) => n == self.kv_bytes(len as nat),
                None => self.kv_bytes(len as nat) > usize::MAX,
            },
    {
        let d: Dims = self.dims;
        let elem: u128 = if self.kv_f16 {
            2
        } else {
            4
        };
        assert(0 <= len * d.head_dim <= 0xffff_ffff_ffff_ffff * 0x7fff_ffff) by (nonlinear_arith)
            requires
                0 <= len <= 0xffff_ffff_ffff_ffff,
                0 <= d.head_dim <= 0x7fff_ffff,
        ;
        let run: u128 = len as u128 * d.head_dim as u128 * elem;
        let layers: u128 = self.kcache.len() as u128;
        assert(0 <= 2 * layers * d.kv_heads <= 2 * 0xffff_ffff_ffff_ffff * 0x7fff_ffff)
            by (nonlinear_arith)
            requires
                0 <= layers <= 0xffff_ffff_ffff_ffff,
                0 <= d.kv_heads <= 0x7fff_ffff,
        ;
        let count: u128 = 2 * layers * d.kv_heads as u128;
        match count.checked_mul(run) {
            Some(total) => if total <= usize::MAX as u128 {
                Some(total as usize)
            } else {
                None
            },
            None => None,
        }
    }

    /// Bytes of KV state that one token occupies across all layers.
    pub fn kv_bytes_per_token(&self) -> (n: Option<usize>)
        requires
            self.wf(),
        ensures
            match n {
                Some(n) => n == self.kv_bytes(1),
                None => self.kv_bytes(1) > usize::MAX,
            },
    {
        self.kv_size(1)
    }

    /// The copies that take sequence slot `seq`'s KV for positions [0, len)
    /// to the host, or back. A slot is [kv_heads, max_seq, head_dim] per
    /// layer, so a prefix is `kv_heads` separate runs rather than one
    /// contiguous block.
    pub fn kv_runs(&self, seq: usize, len: usize) -> (runs: Result<Vec<KvRun>, KvError>)
        requires
            self.wf(),
        ensures
            match runs {
                Ok(runs) => {
                    &&& seq < self.batch_cap
                    &&& len <= self.dims.max_seq
                    &&& self.kv_bytes(len as nat) <= usize::MAX
                    &&& runs@.len() == 2 * self.kcache@.len() * self.dims.kv_heads
                    &&& forall|i: int|
                        0 <= i < runs@.len() ==> #[trigger] runs@[i] == self.kv_run(
                            seq as nat,
                            len as nat,
                            i,
                        )
                },
                Err(KvError::SequenceSlot { seq: s }) => s == seq && seq >= self.batch_cap,
                Err(KvError::Length { len: n }) => {
                    &&& n == len
                    &&& seq < self.batch_cap
                    &&& len > self.dims.max_seq
                },
                Err(e) => {
                    &&& e == KvError::TooLarge
                    &&& seq < self.batch_cap
                    &&& len <= self.dims.max_seq
                    &&& self.kv_bytes(len as nat) > usize::MAX
                },
            },
    {
        if seq >= self.batch_cap {
            return Err(KvError::SequenceSlot { seq });
        }
        if len as u64 > self.dims.max_seq as u64 {
            return Err(KvError::Length { len });
        }
        let total: usize = match self.kv_size(len) {
            Some(n) => n,
            None => {
                return Err(KvError::TooLarge);
            },
        };
        let d: Dims = self.dims;
        let layers: usize = self.kcache.len();
        let heads: usize = d.kv_heads as usize;
        let mut runs: Vec<KvRun> = Vec::new();
        if layers == 0 || heads == 0 {
            assert(2 * layers * heads == 0) by (nonlinear_arith)
                requires
                    layers == 0 || heads == 0,
            ;
            return Ok(runs);
        }
        let elem: u64 = if self.kv_f16 {
            2
        } else {
            4
        };
        let slot: u64 = self.slot_bytes();
        proof {
            assert(self.kcache@[0] + self.batch_cap * slot <= u64::MAX);
            lemma_strides(d, self.kv_f16, self.batch_cap as nat);
            lemma_slot_bound(d, self.kv_f16);
            lemma_run_fits(d, self.kv_f16, len as int);
            assert(2 * 0 * heads == 0) by (nonlinear_arith);
        }
        let head: u64 = d.max_seq as u64 * d.head_dim as u64 * elem;
        let bytes: u64 = len as u64 * d.head_dim as u64 * elem;
        let mut l: usize = 0;
        while l < layers
            invariant
                self.wf(),
                l <= layers,
                layers == self.kcache@.len() == self.vcache@.len(),
                layers > 0,
                heads == d.kv_heads,
                heads > 0,
                d == self.dims,
                seq < self.batch_cap,
                slot == slot_stride(d, self.kv_f16),
                head == head_stride(d, self.kv_f16),
                bytes == self.run_bytes(len as nat),
                total == self.kv_bytes(len as nat),
                runs@.len() == 2 * l * heads,
                forall|i: int|
                    0 <= i < runs@.len() ==> #[trigger] runs@[i] == self.kv_run(
                        seq as nat,
                        len as nat,
                        i,
                    ),
            decreases layers - l,
        {
            let mut side: usize = 0;
            while side < 2
                invariant
                    self.wf(),
                    l < layers,
                    side <= 2,
                    layers == self.kcache@.len() == self.vcache@.len(),
                    heads == d.kv_heads,
                    heads > 0,
                    d == self.dims,
                    seq < self.batch_cap,
                    slot == slot_stride(d, self.kv_f16),
                    head == head_stride(d, self.kv_f16),
                    bytes == self.run_bytes(len as nat),
                    total == self.kv_bytes(len as nat),
                    runs@.len() == (2 * l + side) * heads,
                    forall|i: int|
                        0 <= i < runs@.len() ==> #[trigger] runs@[i] == self.kv_run(
                            seq as nat,
                            len as nat,
                            i,
                        ),
                decreases 2 - side,
            {
                let base: u64 = if side == 0 {
                    self.kcache[l]
                } else {
                    self.vcache[l]
                };
                let mut h: usize = 0;
                while h < heads
                    invariant
                        self.wf(),
                        l < layers,
                        side < 2,
                        h <= heads,
                        layers == self.kcache@.len() == self.vcache@.len(),
                        heads == d.kv_heads,
                        heads > 0,
                        d == self.dims,
                        seq < self.batch_cap,
                        slot == slot_stride(d, self.kv_f16),
                        head == head_stride(d, self.kv_f16),
                        bytes == self.run_bytes(len as nat),
                        total == self.kv_bytes(len as nat),
                        base == (if side == 0 {
                            self.kcache@[l as int]
                        } else {
                            self.vcache@[l as int]
                        }),
                        runs@.len() == (2 * l + side) * heads + h,
                        forall|i: int|
                            0 <= i < runs@.len() ==> #[trigger] runs@[i] == self.kv_run(
                                seq as nat,
                                len as nat,
                                i,
                            ),
                    decreases heads - h,
                {
                    let ghost i = runs@.len() as int;
                    proof {
                        assert(self.kcache@[l as int] + self.batch_cap * slot <= u64::MAX);
                        assert(self.vcache@[l as int] + self.batch_cap * slot <= u64::MAX);
                        lemma_kv_index(
                            layers as int,
                            heads as int,
                            l as int,
                            side as int,
                            h as int,
                        );
                        lemma_kv_address(
                            self.batch_cap as int,
                            heads as int,
                            head as int,
                            seq as int,
                            h as int,
                        );
                        assert(slot == heads * head);
                        lemma_host_bound(
                            (2 * layers * heads) as int,
                            bytes as int,
                            i,
                        );
                        assert(2 * layers * heads * bytes == total);
                    }
                    let at: usize = i_times(runs.len(), bytes, Ghost(total));
                    runs.push(
                        KvRun {
                            dev: base + seq as u64 * slot + h as u64 * head,
                            host: at,
                            len: bytes as usize,
                        },
                    );
                    h += 1;
                }
                proof {
                    assert((2 * l + side + 1) * heads == (2 * l + side) * heads + heads)
                        by (nonlinear_arith);
                }
                side += 1;
            }
            l += 1;
        }
        Ok(runs)
    }

    /// The copies that restore a parked context of `len` tokens into slot
    /// `seq`: those that took it out, for a copy of the right size.
    pub fn kv_import_runs(&self, seq: usize, len: usize, blob: usize) -> (runs: Result<
        Vec<KvRun>,
        KvError,
    >)
        requires
            self.wf(),
        ensures
            match runs {
                Ok(runs) => {
                    &&& seq < self.batch_cap
                    &&& len <= self.dims.max_seq
                    &&& blob == self.kv_bytes(len as nat)
                    &&& runs@.len() == 2 * self.kcache@.len() * self.dims.kv_heads
                    &&& forall|i: int|
                        0 <= i < runs@.len() ==> #[trigger] runs@[i] == self.kv_run(
                            seq as nat,
                            len as nat,
                            i,
                        )
                },
                Err(KvError::SequenceSlot { seq: s }) => s == seq && seq >= self.batch_cap,
                Err(KvError::Length { len: n }) => {
                    &&& n == len
                    &&& seq < self.batch_cap
                    &&& len > self.dims.max_seq
                },
                Err(KvError::TooLarge) => {
                    &&& seq < self.batch_cap
                    &&& len <= self.dims.max_seq
                    &&& self.kv_bytes(len as nat) > usize::MAX
                },
                Err(KvError::BlobSize { len: n, want }) => {
                    &&& seq < self.batch_cap
                    &&& len <= self.dims.max_seq
                    &&& n == blob
                    &&& want == self.kv_bytes(len as nat)
                    &&& blob != want
                },
            },
    {
        let runs: Vec<KvRun> = match self.kv_runs(seq, len) {
            Ok(runs) => runs,
            Err(e) => {
                return Err(e);
            },
        };
        match self.kv_size(len) {
            Some(want) => if blob != want {
                Err(KvError::BlobSize { len: blob, want })
            } else {
                Ok(runs)
            },
            None => Err(KvError::TooLarge),
        }
    }
}

fn i_times(i: usize, bytes: u64, Ghost(total): Ghost<usize>) -> (at: usize)
    requires
        i * bytes + bytes <= total,
    ensures
        at == i * bytes,
{
    assert(0 <= i * bytes) by (nonlinear_arith)
        requires
            0 <= i,
            0 <= bytes,
    ;
    i * bytes as usize
}

pub proof fn lemma_run_fits(d: Dims, kv_f16: bool, len: int)
    requires
        d.wf(),
        0 <= len <= d.max_seq,
    ensures
        0 <= len * d.head_dim <= d.max_seq * d.head_dim,
        0 <= len * d.head_dim * kv_elem(kv_f16) <= head_stride(d, kv_f16),
{
    assert(0 <= len * d.head_dim <= d.max_seq * d.head_dim) by (nonlinear_arith)
        requires
            0 <= len <= d.max_seq,
            0 <= d.head_dim,
    ;
    let a = len * d.head_dim;
    let b = d.max_seq * d.head_dim;
    let e = kv_elem(kv_f16) as int;
    assert(0 <= a * e <= b * e) by (nonlinear_arith)
        requires
            0 <= a <= b,
            0 <= e,
    ;
}

proof fn lemma_kv_index(layers: int, heads: int, l: int, side: int, h: int)
    requires
        0 < heads,
        0 <= l < layers,
        0 <= side < 2,
        0 <= h < heads,
    ensures
        ({
            let i = (2 * l + side) * heads + h;
            &&& 0 <= i < 2 * layers * heads
            &&& i % heads == h
            &&& i / heads == 2 * l + side
            &&& i / heads / 2 == l
            &&& i / heads % 2 == side
        }),
{
    let q = 2 * l + side;
    let i = q * heads + h;
    vstd::arithmetic::div_mod::lemma_fundamental_div_mod_converse(i, heads, q, h);
    assert(q * heads + heads <= 2 * layers * heads) by (nonlinear_arith)
        requires
            q + 1 <= 2 * layers,
            0 < heads,
    ;
    assert(0 <= q * heads) by (nonlinear_arith)
        requires
            0 <= q,
            0 < heads,
    ;
}

pub proof fn lemma_kv_address(batch: int, heads: int, head: int, seq: int, h: int)
    requires
        0 <= seq < batch,
        0 <= h < heads,
        0 <= head,
    ensures
        0 <= seq * (heads * head),
        0 <= h * head,
        seq * (heads * head) + h * head + head <= batch * (heads * head),
{
    assert(h * head + head <= heads * head) by (nonlinear_arith)
        requires
            h + 1 <= heads,
            0 <= head,
    ;
    assert(0 <= h * head) by (nonlinear_arith)
        requires
            0 <= h,
            0 <= head,
    ;
    let slot = heads * head;
    assert(seq * slot + slot <= batch * slot) by (nonlinear_arith)
        requires
            seq + 1 <= batch,
            0 <= slot,
    ;
    assert(0 <= seq * slot) by (nonlinear_arith)
        requires
            0 <= seq,
            0 <= slot,
    ;
}

proof fn lemma_host_bound(count: int, bytes: int, i: int)
    requires
        0 <= i < count,
        0 <= bytes,
    ensures
        0 <= i * bytes,
        i * bytes + bytes <= count * bytes,
{
    assert(i * bytes + bytes <= count * bytes) by (nonlinear_arith)
        requires
            i + 1 <= count,
            0 <= bytes,
    ;
    assert(0 <= i * bytes) by (nonlinear_arith)
        requires
            0 <= i,
            0 <= bytes,
    ;
}

/// The runs of a context fill the host copy from front to end, without gap or
/// overlap; so restoring the same runs puts every byte back where it came
/// from.
pub proof fn law_kv_runs_tile(d: Decoder, seq: nat, len: nat, i: int)
    requires
        d.wf(),
        len <= d.dims.max_seq,
        d.kv_bytes(len) <= usize::MAX,
        0 <= i < 2 * d.kcache@.len() * d.dims.kv_heads,
    ensures
        d.kv_run(seq, len, 0).host == 0,
        d.kv_run(seq, len, i).host + d.kv_run(seq, len, i).len <= d.kv_bytes(len),
        i + 1 < 2 * d.kcache@.len() * d.dims.kv_heads ==> d.kv_run(seq, len, i + 1).host
            == d.kv_run(seq, len, i).host + d.kv_run(seq, len, i).len,
        i + 1 == 2 * d.kcache@.len() * d.dims.kv_heads ==> d.kv_run(seq, len, i).host + d.kv_run(
            seq,
            len,
            i,
        ).len == d.kv_bytes(len),
{
    let count = (2 * d.kcache@.len() * d.dims.kv_heads) as int;
    let run = d.run_bytes(len) as int;
    lemma_host_bound(count, run, i);
    lemma_host_bound(count, run, 0);
    assert(0 * run == 0);
    assert((i + 1) * run == i * run + run) by (nonlinear_arith);
    assert(run <= count * run) by (nonlinear_arith)
        requires
            count >= 1,
            run >= 0,
    ;
    if i + 1 < count {
        lemma_host_bound(count, run, i + 1);
    }
}

/// Sequence slots never share KV: in one cache, what a lower slot holds ends
/// before what a higher slot holds begins, whatever the heads.
pub proof fn law_kv_slots_disjoint(
    d: Decoder,
    base: u64,
    len: nat,
    s1: nat,
    h1: nat,
    s2: nat,
    h2: nat,
)
    requires
        d.wf(),
        len <= d.dims.max_seq,
        s1 < s2 < d.batch_cap,
        h1 < d.dims.kv_heads,
        h2 < d.dims.kv_heads,
    ensures
        ({
            let slot = slot_stride(d.dims, d.kv_f16);
            let head = head_stride(d.dims, d.kv_f16);
            base + s1 * slot + h1 * head + d.run_bytes(len) <= base + s2 * slot + h2 * head
        }),
{
    let slot = slot_stride(d.dims, d.kv_f16) as int;
    let head = head_stride(d.dims, d.kv_f16) as int;
    lemma_run_fits(d.dims, d.kv_f16, len as int);
    lemma_kv_address(s2 as int, d.dims.kv_heads as int, head, s1 as int, h1 as int);
    lemma_kv_address(s2 as int + 1, d.dims.kv_heads as int, head, s2 as int, h2 as int);
}

} // verus!
