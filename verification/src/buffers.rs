//! How large the device buffers of a decoder are, and how a model's config
//! becomes the dimensions that the kernels take.

use crate::config::{Config, KimiConfig};
use crate::decode::{slot_stride, BlobOffsets, Decoder, Dims, Lane, CHUNK_CAP};
use crate::kimi::{row_stride, KimiDecoder, KimiDims};
use crate::quant::{q4_bytes, q4_fits, q4_size};
use vstd::prelude::*;

verus! {

/// Bytes of the device buffers of a Qwen decoder. Step buffers hold 64 entries.
#[derive(Debug, Clone, Copy, PartialEq, Eq, Structural)]
pub struct BufferSizes {
    pub h: u64,
    pub h_norm: u64,
    pub q: u64,
    pub k: u64,
    pub v: u64,
    pub attn_out: u64,
    pub proj_out: u64,
    pub router_logits: u64,
    pub gate_out: u64,
    pub up_out: u64,
    pub act_out: u64,
    pub expert_out: u64,
    pub expert_ptrs: u64,
    pub expert_wts: u64,
    pub logits: u64,
    pub attn_scratch: u64,
    pub h_buf: u64,
    pub hn_buf: u64,
    pub router_buf: u64,
}

impl Dims {
    /// How many bytes each device buffer takes.
    pub open spec fn sizes(self) -> BufferSizes {
        let d = self;
        BufferSizes {
            h: (4 * d.hidden) as u64,
            h_norm: (4 * d.hidden) as u64,
            q: (4 * (d.heads * d.head_dim)) as u64,
            k: (4 * (d.kv_heads * d.head_dim)) as u64,
            v: (4 * (d.kv_heads * d.head_dim)) as u64,
            attn_out: (4 * (d.heads * d.head_dim)) as u64,
            proj_out: (4 * d.hidden) as u64,
            router_logits: (4 * d.experts) as u64,
            gate_out: (4 * (d.top_k * d.moe_inter)) as u64,
            up_out: (4 * (d.top_k * d.moe_inter)) as u64,
            act_out: (4 * (d.top_k * d.moe_inter)) as u64,
            expert_out: (4 * (d.top_k * d.hidden)) as u64,
            expert_ptrs: (8 * d.top_k) as u64,
            expert_wts: (4 * d.top_k) as u64,
            logits: (4 * d.vocab) as u64,
            attn_scratch: (4 * (d.heads * d.max_seq)) as u64,
            h_buf: (256 * d.hidden) as u64,
            hn_buf: (256 * d.hidden) as u64,
            router_buf: (256 * d.experts) as u64,
        }
    }

    /// How many bytes each device buffer takes.
    pub fn buffer_sizes(&self) -> (sizes: BufferSizes)
        requires
            self.wf(),
        ensures
            sizes == self.sizes(),
    {
        let d = self;
        BufferSizes {
            h: bytes(4, d.hidden, 1),
            h_norm: bytes(4, d.hidden, 1),
            q: bytes(4, d.heads, d.head_dim),
            k: bytes(4, d.kv_heads, d.head_dim),
            v: bytes(4, d.kv_heads, d.head_dim),
            attn_out: bytes(4, d.heads, d.head_dim),
            proj_out: bytes(4, d.hidden, 1),
            router_logits: bytes(4, d.experts, 1),
            gate_out: bytes(4, d.top_k, d.moe_inter),
            up_out: bytes(4, d.top_k, d.moe_inter),
            act_out: bytes(4, d.top_k, d.moe_inter),
            expert_out: bytes(4, d.top_k, d.hidden),
            expert_ptrs: bytes(8, d.top_k, 1),
            expert_wts: bytes(4, d.top_k, 1),
            logits: bytes(4, d.vocab, 1),
            attn_scratch: bytes(4, d.heads, d.max_seq),
            h_buf: bytes(256, d.hidden, 1),
            hn_buf: bytes(256, d.hidden, 1),
            router_buf: bytes(256, d.experts, 1),
        }
    }
}

/// Bytes of the device buffers of a Kimi decoder. Step buffers hold 64 entries.
#[derive(Debug, Clone, Copy, PartialEq, Eq, Structural)]
pub struct KimiBufferSizes {
    pub h: u64,
    pub h_norm: u64,
    pub qa: u64,
    pub q: u64,
    pub kva: u64,
    pub ckv_norm: u64,
    pub q_full: u64,
    pub ctx: u64,
    pub attn_pre: u64,
    pub proj_out: u64,
    pub attn_scratch: u64,
    pub inv_freq: u64,
    pub router_logits: u64,
    pub gate_out: u64,
    pub up_out: u64,
    pub act_out: u64,
    pub expert_out: u64,
    pub expert_ptrs: u64,
    pub expert_wts: u64,
    pub sh_gate: u64,
    pub sh_up: u64,
    pub sh_out: u64,
    pub dn_gate: u64,
    pub dn_up: u64,
    pub logits: u64,
    pub h_buf: u64,
    pub hn_buf: u64,
    pub router_buf: u64,
}

impl KimiDims {
    /// How many bytes each device buffer takes.
    pub open spec fn sizes(self) -> KimiBufferSizes {
        let d = self;
        KimiBufferSizes {
            h: (4 * d.hidden) as u64,
            h_norm: (4 * d.hidden) as u64,
            qa: (4 * d.q_lora) as u64,
            q: (4 * (d.heads * (d.nope + d.rope))) as u64,
            kva: (4 * (d.kv_lora + d.rope)) as u64,
            ckv_norm: (4 * d.kv_lora) as u64,
            q_full: (4 * (d.heads * (d.kv_lora + d.rope))) as u64,
            ctx: (4 * (d.heads * d.kv_lora)) as u64,
            attn_pre: (4 * (d.heads * d.v_head)) as u64,
            proj_out: (4 * d.hidden) as u64,
            attn_scratch: (4 * (d.heads * d.max_seq)) as u64,
            inv_freq: (4 * (d.rope / 2)) as u64,
            router_logits: (4 * d.experts) as u64,
            gate_out: (4 * (d.top_k * d.moe_inter)) as u64,
            up_out: (4 * (d.top_k * d.moe_inter)) as u64,
            act_out: (4 * (d.top_k * d.moe_inter)) as u64,
            expert_out: (4 * (d.top_k * d.hidden)) as u64,
            expert_ptrs: (8 * d.top_k) as u64,
            expert_wts: (4 * d.top_k) as u64,
            sh_gate: (4 * d.moe_inter) as u64,
            sh_up: (4 * d.moe_inter) as u64,
            sh_out: (4 * d.hidden) as u64,
            dn_gate: (4 * d.dense_inter) as u64,
            dn_up: (4 * d.dense_inter) as u64,
            logits: (4 * d.vocab) as u64,
            h_buf: (256 * d.hidden) as u64,
            hn_buf: (256 * d.hidden) as u64,
            router_buf: (256 * d.experts) as u64,
        }
    }

    /// How many bytes each device buffer takes.
    pub fn buffer_sizes(&self) -> (sizes: KimiBufferSizes)
        requires
            self.wf(),
        ensures
            sizes == self.sizes(),
    {
        let d = self;
        KimiBufferSizes {
            h: bytes(4, d.hidden, 1),
            h_norm: bytes(4, d.hidden, 1),
            qa: bytes(4, d.q_lora, 1),
            q: bytes(4, d.heads, (d.nope + d.rope)),
            kva: bytes(4, (d.kv_lora + d.rope), 1),
            ckv_norm: bytes(4, d.kv_lora, 1),
            q_full: bytes(4, d.heads, (d.kv_lora + d.rope)),
            ctx: bytes(4, d.heads, d.kv_lora),
            attn_pre: bytes(4, d.heads, d.v_head),
            proj_out: bytes(4, d.hidden, 1),
            attn_scratch: bytes(4, d.heads, d.max_seq),
            inv_freq: bytes(4, d.rope / 2, 1),
            router_logits: bytes(4, d.experts, 1),
            gate_out: bytes(4, d.top_k, d.moe_inter),
            up_out: bytes(4, d.top_k, d.moe_inter),
            act_out: bytes(4, d.top_k, d.moe_inter),
            expert_out: bytes(4, d.top_k, d.hidden),
            expert_ptrs: bytes(8, d.top_k, 1),
            expert_wts: bytes(4, d.top_k, 1),
            sh_gate: bytes(4, d.moe_inter, 1),
            sh_up: bytes(4, d.moe_inter, 1),
            sh_out: bytes(4, d.hidden, 1),
            dn_gate: bytes(4, d.dense_inter, 1),
            dn_up: bytes(4, d.dense_inter, 1),
            logits: bytes(4, d.vocab, 1),
            h_buf: bytes(256, d.hidden, 1),
            hn_buf: bytes(256, d.hidden, 1),
            router_buf: bytes(256, d.experts, 1),
        }
    }
}

/// `k * a * b` bytes.
fn bytes(k: u64, a: i32, b: i32) -> (n: u64)
    requires
        0 <= a,
        0 <= b,
        k <= 256,
        k <= 4 || b == 1,
    ensures
        n == k * (a * b),
{
    assert(0 <= a * b <= 0x7fff_ffff * 0x7fff_ffff) by (nonlinear_arith)
        requires
            0 <= a <= 0x7fff_ffff,
            0 <= b <= 0x7fff_ffff,
    ;
    assert(0 <= k * (a * b) <= 4 * (0x7fff_ffff * 0x7fff_ffff)) by (nonlinear_arith)
        requires
            0 <= a * b <= 0x7fff_ffff * 0x7fff_ffff,
            0 <= k,
            k <= 4 || (k <= 256 && a * b <= 0x7fff_ffff),
    ;
    k * (a as u64 * b as u64)
}

/// `n` as a kernel takes it.
fn dim(n: usize) -> (d: Option<i32>)
    ensures
        match d {
            Some(d) => d == n,
            None => n > i32::MAX,
        },
{
    if n <= 0x7fff_ffff {
        Some(n as i32)
    } else {
        None
    }
}

/// The floating-point settings of a model, as bits.
#[derive(Debug, Clone, Copy)]
pub struct FloatBits {
    pub rms_eps: u32,
    pub rope_theta: u32,
    pub attn_scale: u32,
}

impl Dims {
    /// These are the dimensions of `cfg` with a context of `max_seq`.
    pub open spec fn are(self, cfg: Config, max_seq: usize, bits: FloatBits) -> bool {
        &&& self.hidden == cfg.hidden
        &&& self.heads == cfg.heads
        &&& self.kv_heads == cfg.kv_heads
        &&& self.head_dim == cfg.head_dim
        &&& self.moe_inter == cfg.moe_inter
        &&& self.experts == cfg.experts
        &&& self.top_k == cfg.top_k
        &&& self.vocab == cfg.vocab
        &&& self.max_seq == max_seq
        &&& self.rms_eps == bits.rms_eps
        &&& self.rope_theta == bits.rope_theta
        &&& self.attn_scale == bits.attn_scale
    }

    /// The dimensions of a model; `None` where they are too large for the
    /// kernels or the context has no room.
    pub fn of(cfg: &Config, max_seq: usize, bits: &FloatBits) -> (dims: Option<Self>)
        ensures
            match dims {
                Some(d) => d.wf() && d.are(*cfg, max_seq, *bits),
                None => forall|d: Dims| #[trigger] d.are(*cfg, max_seq, *bits) ==> !d.wf(),
            },
    {
        match (
            dim(cfg.hidden),
            dim(cfg.heads),
            dim(cfg.kv_heads),
            dim(cfg.head_dim),
            dim(cfg.moe_inter),
            dim(cfg.experts),
            dim(cfg.top_k),
            dim(cfg.vocab),
            dim(max_seq),
        ) {
            (
                Some(hidden),
                Some(heads),
                Some(kv_heads),
                Some(head_dim),
                Some(moe_inter),
                Some(experts),
                Some(top_k),
                Some(vocab),
                Some(max_seq),
            ) => {
                let d = Dims {
                    hidden,
                    heads,
                    kv_heads,
                    head_dim,
                    moe_inter,
                    experts,
                    top_k,
                    vocab,
                    max_seq,
                    rms_eps: bits.rms_eps,
                    rope_theta: bits.rope_theta,
                    attn_scale: bits.attn_scale,
                };
                if d.fit() {
                    Some(d)
                } else {
                    None
                }
            },
            _ => None,
        }
    }

    /// Bytes of one layer's K or V cache for `batch` sequence slots; `None`
    /// where no address space holds them.
    pub fn kv_cache_bytes(&self, kv_f16: bool, batch: usize) -> (n: Option<u64>)
        requires
            self.wf(),
        ensures
            match n {
                Some(n) => n == batch * slot_stride(*self, kv_f16),
                None => batch * slot_stride(*self, kv_f16) > u64::MAX,
            },
    {
        proof {
            crate::decode::lemma_slot_bound(*self, kv_f16);
        }
        let elem: u128 = if kv_f16 {
            2
        } else {
            4
        };
        let stride: u128 = self.kv_heads as u128 * (self.max_seq as u128 * self.head_dim as u128
            * elem);
        match (batch as u128).checked_mul(stride) {
            Some(total) => if total <= u64::MAX as u128 {
                Some(total as u64)
            } else {
                None
            },
            None => None,
        }
    }
}

impl KimiDims {
    /// These are the dimensions of `cfg` with a context of `max_seq`.
    pub open spec fn are(
        self,
        cfg: KimiConfig,
        max_seq: usize,
        rms_eps: u32,
        softmax_scale: u32,
        one: u32,
    ) -> bool {
        &&& self.hidden == cfg.hidden
        &&& self.heads == cfg.heads
        &&& self.q_lora == cfg.q_lora
        &&& self.kv_lora == cfg.kv_lora
        &&& self.nope == cfg.nope
        &&& self.rope == cfg.rope
        &&& self.v_head == cfg.v_head
        &&& self.moe_inter == cfg.moe_inter
        &&& self.dense_inter == cfg.dense_inter
        &&& self.experts == cfg.experts
        &&& self.top_k == cfg.top_k
        &&& self.vocab == cfg.vocab
        &&& self.max_seq == max_seq
        &&& self.rms_eps == rms_eps
        &&& self.softmax_scale == softmax_scale
        &&& self.one == one
    }

    /// The dimensions of a model; `None` where they are too large for the
    /// kernels or the context has no room.
    pub fn of(
        cfg: &KimiConfig,
        max_seq: usize,
        rms_eps: u32,
        softmax_scale: u32,
        one: u32,
    ) -> (dims: Option<Self>)
        ensures
            match dims {
                Some(d) => d.wf() && d.are(*cfg, max_seq, rms_eps, softmax_scale, one),
                None => forall|d: KimiDims| #[trigger]
                    d.are(*cfg, max_seq, rms_eps, softmax_scale, one) ==> !d.wf(),
            },
    {
        match (
            (dim(cfg.hidden), dim(cfg.heads), dim(cfg.q_lora), dim(cfg.kv_lora), dim(cfg.nope)),
            (dim(cfg.rope), dim(cfg.v_head), dim(cfg.moe_inter), dim(cfg.dense_inter)),
            (dim(cfg.experts), dim(cfg.top_k), dim(cfg.vocab), dim(max_seq)),
        ) {
            (
                (Some(hidden), Some(heads), Some(q_lora), Some(kv_lora), Some(nope)),
                (Some(rope), Some(v_head), Some(moe_inter), Some(dense_inter)),
                (Some(experts), Some(top_k), Some(vocab), Some(max_seq)),
            ) => {
                let d = KimiDims {
                    hidden,
                    heads,
                    q_lora,
                    kv_lora,
                    nope,
                    rope,
                    v_head,
                    moe_inter,
                    dense_inter,
                    experts,
                    top_k,
                    vocab,
                    max_seq,
                    rms_eps,
                    softmax_scale,
                    one,
                };
                if d.fit() {
                    Some(d)
                } else {
                    None
                }
            },
            _ => None,
        }
    }

    /// Bytes of one layer's cache for `batch` sequence slots; `None` where no
    /// address space holds them.
    pub fn kv_cache_bytes(&self, batch: usize) -> (n: Option<u64>)
        requires
            self.wf(),
        ensures
            match n {
                Some(n) => n == batch * row_stride(*self),
                None => batch * row_stride(*self) > u64::MAX,
            },
    {
        proof {
            crate::kimi::lemma_row_stride(*self);
        }
        let stride: u128 = self.max_seq as u128 * (self.kv_lora + self.rope) as u128 * 4;
        match (batch as u128).checked_mul(stride) {
            Some(total) => if total <= u64::MAX as u128 {
                Some(total as u64)
            } else {
                None
            },
            None => None,
        }
    }
}

/// Where the regions of an expert blob start, for gate and up projections of
/// `inter` rows and `hidden` columns: behind the header, each as long as such
/// a tensor is.
pub open spec fn blob_layout(inter: nat, hidden: nat, group: i32) -> BlobOffsets {
    let region = q4_size(inter, hidden, group as nat);
    BlobOffsets {
        gate: 32,
        up: (32 + region) as u64,
        down: (32 + 2 * region) as u64,
        group,
    }
}

/// Where the regions of an expert blob start.
pub fn blob_offsets(inter: usize, hidden: usize, group: i32) -> (offsets: BlobOffsets)
    requires
        group > 0,
        q4_fits(inter as nat, hidden as nat, group as nat),
        32 + 2 * q4_size(inter as nat, hidden as nat, group as nat) <= u64::MAX,
    ensures
        offsets == blob_layout(inter as nat, hidden as nat, group),
{
    let region: u64 = q4_bytes(inter, hidden, group as usize) as u64;
    BlobOffsets { gate: 32, up: 32 + region, down: 32 + 2 * region, group }
}

/// The offsets that a decoder reads an expert's regions at are those at which
/// the converter put them.
pub proof fn law_offsets_match_blob(
    projs: Seq<crate::blob::Projection>,
    inter: nat,
    hidden: nat,
    group: i32,
)
    requires
        projs.len() == 3,
        group > 0,
        projs[0].region@.len() == q4_size(inter, hidden, group as nat),
        projs[1].region@.len() == q4_size(inter, hidden, group as nat),
        32 + 2 * q4_size(inter, hidden, group as nat) <= u64::MAX,
    ensures
        blob_layout(inter, hidden, group).gate == crate::blob::region_start(projs, 0),
        blob_layout(inter, hidden, group).up == crate::blob::region_start(projs, 1),
        blob_layout(inter, hidden, group).down == crate::blob::region_start(projs, 2),
{
    reveal_with_fuel(crate::blob::region_start, 3);
}

/// Lane `s` of step buffers ends before lane `t` begins, and lane `t` within
/// the buffers.
pub open spec fn lanes_apart(
    s: Lane,
    t: Lane,
    h_end: int,
    hn_end: int,
    router_end: int,
    hidden: i32,
    experts: i32,
) -> bool {
    &&& s.h + 4 * hidden <= t.h
    &&& s.hn + 4 * hidden <= t.hn
    &&& s.router + 4 * experts <= t.router
    &&& t.h + 4 * hidden <= h_end
    &&& t.hn + 4 * hidden <= hn_end
    &&& t.router + 4 * experts <= router_end
}

proof fn lemma_rows_apart(row: int, s: int, t: int)
    requires
        0 <= row,
        0 <= s < t < CHUNK_CAP,
    ensures
        0 <= s * row,
        s * row + row <= t * row,
        t * row + row <= CHUNK_CAP * row,
{
    assert(0 <= s * row) by (nonlinear_arith)
        requires
            0 <= s,
            0 <= row,
    ;
    assert(s * row + row <= t * row) by (nonlinear_arith)
        requires
            s + 1 <= t,
            0 <= row,
    ;
    assert(t * row + row <= CHUNK_CAP * row) by (nonlinear_arith)
        requires
            t + 1 <= CHUNK_CAP,
            0 <= row,
    ;
}

/// The entries of a step never share a lane, and all lanes are in the step
/// buffers.
pub proof fn law_lanes_are_apart(d: Decoder, s: nat, t: nat)
    requires
        d.wf(),
        s < t < CHUNK_CAP,
    ensures
        lanes_apart(
            d.lane_of(s),
            d.lane_of(t),
            d.bufs.h_buf + d.dims.sizes().h_buf,
            d.bufs.hn_buf + d.dims.sizes().hn_buf,
            d.bufs.router_buf + d.dims.sizes().router_buf,
            d.dims.hidden,
            d.dims.experts,
        ),
{
    lemma_rows_apart(d.dims.hidden * 4, s as int, t as int);
    lemma_rows_apart(d.dims.experts * 4, s as int, t as int);
}

/// The entries of a step of the Kimi engine never share a lane either.
pub proof fn law_kimi_lanes_are_apart(d: KimiDecoder, s: nat, t: nat)
    requires
        d.wf(),
        s < t < CHUNK_CAP,
    ensures
        lanes_apart(
            d.lane_of(s),
            d.lane_of(t),
            d.bufs.h_buf + d.dims.sizes().h_buf,
            d.bufs.hn_buf + d.dims.sizes().hn_buf,
            d.bufs.router_buf + d.dims.sizes().router_buf,
            d.dims.hidden,
            d.dims.experts,
        ),
{
    lemma_rows_apart(d.dims.hidden * 4, s as int, t as int);
    lemma_rows_apart(d.dims.experts * 4, s as int, t as int);
}

} // verus!
