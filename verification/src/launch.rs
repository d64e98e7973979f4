//! Kernel launches as data: which function runs, over which grid, with which
//! parameters. Addresses are device addresses, and floats travel as their
//! bits.

use vstd::prelude::*;

verus! {

/// The device functions.
#[derive(Debug, Clone, Copy, PartialEq, Eq, Structural)]
pub enum Kernel {
    Q4g64Gemv,
    Q4g64GemvBatch,
    MoeReduce,
    RmsNorm,
    ScaleAdd,
    KvAppend,
    Bf16Gemv,
    SiluMul,
    Add,
    Rope,
    AttnDecode,
    Bf16Row,
    MlaRope,
    MlaAttnDecode,
    Bf16GemvBatch,
    StridedCopy,
}

impl Kernel {
    /// The name of the function in its module.
    pub open spec fn symbol(self) -> Seq<char> {
        match self {
            Kernel::Q4g64Gemv => "q4g64_gemv"@,
            Kernel::Q4g64GemvBatch => "q4g64_gemv_batch"@,
            Kernel::MoeReduce => "moe_reduce_f32"@,
            Kernel::RmsNorm => "rmsnorm_f32"@,
            Kernel::ScaleAdd => "scale_add_f32"@,
            Kernel::KvAppend => "kv_append_f32"@,
            Kernel::Bf16Gemv => "bf16_gemv"@,
            Kernel::SiluMul => "silu_mul_f32"@,
            Kernel::Add => "add_f32"@,
            Kernel::Rope => "rope_f32"@,
            Kernel::AttnDecode => "attn_decode_f32"@,
            Kernel::Bf16Row => "bf16_row_to_f32"@,
            Kernel::MlaRope => "mla_rope_f32"@,
            Kernel::MlaAttnDecode => "mla_attn_decode_f32"@,
            Kernel::Bf16GemvBatch => "bf16_gemv_batch"@,
            Kernel::StridedCopy => "strided_copy_f32"@,
        }
    }

    /// The name of the function in its module.
    pub fn name(&self) -> (name: &'static str)
        ensures
            name@ == self.symbol(),
    {
        match self {
            Kernel::Q4g64Gemv => "q4g64_gemv",
            Kernel::Q4g64GemvBatch => "q4g64_gemv_batch",
            Kernel::MoeReduce => "moe_reduce_f32",
            Kernel::RmsNorm => "rmsnorm_f32",
            Kernel::ScaleAdd => "scale_add_f32",
            Kernel::KvAppend => "kv_append_f32",
            Kernel::Bf16Gemv => "bf16_gemv",
            Kernel::SiluMul => "silu_mul_f32",
            Kernel::Add => "add_f32",
            Kernel::Rope => "rope_f32",
            Kernel::AttnDecode => "attn_decode_f32",
            Kernel::Bf16Row => "bf16_row_to_f32",
            Kernel::MlaRope => "mla_rope_f32",
            Kernel::MlaAttnDecode => "mla_attn_decode_f32",
            Kernel::Bf16GemvBatch => "bf16_gemv_batch",
            Kernel::StridedCopy => "strided_copy_f32",
        }
    }
}

/// A kernel parameter.
#[derive(Debug, Clone, Copy, PartialEq, Eq, Structural)]
pub enum Param {
    /// A device address.
    Ptr(u64),
    I32(i32),
    U64(u64),
    /// The bits of an f32.
    F32(u32),
}

/// One kernel launch.
#[derive(Debug)]
pub struct Launch {
    pub kernel: Kernel,
    pub grid: (u32, u32, u32),
    pub block: (u32, u32, u32),
    pub params: Vec<Param>,
}

/// One kernel launch, mathematically.
pub struct LaunchView {
    pub kernel: Kernel,
    pub grid: (u32, u32, u32),
    pub block: (u32, u32, u32),
    pub params: Seq<Param>,
}

impl Launch {
    pub open spec fn view(self) -> LaunchView {
        LaunchView {
            kernel: self.kernel,
            grid: self.grid,
            block: self.block,
            params: self.params@,
        }
    }
}

pub open spec fn launch_views(launches: Seq<Launch>) -> Seq<LaunchView> {
    Seq::new(launches.len(), |i: int| launches[i]@)
}

/// Warps that share a block in a matrix-vector product, one row each.
pub const WARPS: u32 = 4;

/// Blocks of `WARPS` rows that cover `rows` rows.
pub open spec fn row_blocks(rows: int) -> u32 {
    ((rows + WARPS - 1) / WARPS as int) as u32
}

/// Blocks of 256 threads over `n` elements: at least one, at most 1024.
pub open spec fn blocks_1d(n: int) -> u32 {
    let blocks = (n + 255) / 256;
    if blocks < 1 {
        1
    } else if blocks > 1024 {
        1024
    } else {
        blocks as u32
    }
}

fn rows_grid(rows: i32) -> (g: u32)
    requires
        rows >= 0,
    ensures
        g == row_blocks(rows as int),
{
    (rows as u32 + (WARPS - 1)) / WARPS
}

fn grid_1d(n: i32) -> (g: u32)
    requires
        n >= 0,
    ensures
        g == blocks_1d(n as int),
{
    let blocks: u32 = (n as u32 + 255) / 256;
    if blocks < 1 {
        1
    } else if blocks > 1024 {
        1024
    } else {
        blocks
    }
}

/// The kernels, each as the launch that runs it.
#[derive(Debug)]
pub struct Kernels;

impl Kernels {
    /// y[rows] = W x, W a q4 blob region (scales then nibbles), `group`
    /// values per scale (64 for our packs, 32 for repacked QAT int4).
    pub open spec fn q4g64_gemv_launch(
        blob: u64,
        x: u64,
        y: u64,
        rows: i32,
        cols: i32,
        group: i32,
    ) -> LaunchView {
        LaunchView {
            kernel: Kernel::Q4g64Gemv,
            grid: (row_blocks(rows as int), 1, 1),
            block: ((WARPS * 32) as u32, 1, 1),
            params: seq![
                Param::Ptr(blob),
                Param::Ptr(x),
                Param::Ptr(y),
                Param::I32(rows),
                Param::I32(cols),
                Param::I32(group),
            ],
        }
    }

    /// y[rows] = W x, W a q4 blob region (scales then nibbles), `group`
    /// values per scale (64 for our packs, 32 for repacked QAT int4).
    pub fn q4g64_gemv(blob: u64, x: u64, y: u64, rows: i32, cols: i32, group: i32) -> (l: Launch)
        requires
            0 <= rows,
        ensures
            l@ == Self::q4g64_gemv_launch(blob, x, y, rows, cols, group),
    {
        let params: Vec<Param> = vec![
            Param::Ptr(blob),
            Param::Ptr(x),
            Param::Ptr(y),
            Param::I32(rows),
            Param::I32(cols),
            Param::I32(group),
        ];
        assert(params@ =~= seq![
            Param::Ptr(blob),
            Param::Ptr(x),
            Param::Ptr(y),
            Param::I32(rows),
            Param::I32(cols),
            Param::I32(group),
        ]);
        Launch {
            kernel: Kernel::Q4g64Gemv,
            grid: (rows_grid(rows), 1, 1),
            block: (WARPS * 32, 1, 1),
            params,
        }
    }

    /// Batched q4g64 GEMV over `experts` blobs (device array of base
    /// addresses) at a shared byte offset; x_stride 0 shares the input.
    pub open spec fn q4g64_gemv_batch_launch(
        blobs: u64,
        region_off: u64,
        x: u64,
        x_stride: i32,
        y: u64,
        rows: i32,
        cols: i32,
        group: i32,
        experts: i32,
    ) -> LaunchView {
        LaunchView {
            kernel: Kernel::Q4g64GemvBatch,
            grid: (row_blocks(rows as int), experts as u32, 1),
            block: ((WARPS * 32) as u32, 1, 1),
            params: seq![
                Param::Ptr(blobs),
                Param::U64(region_off),
                Param::Ptr(x),
                Param::I32(x_stride),
                Param::Ptr(y),
                Param::I32(rows),
                Param::I32(cols),
                Param::I32(group),
            ],
        }
    }

    /// Batched q4g64 GEMV over `experts` blobs (device array of base
    /// addresses) at a shared byte offset; x_stride 0 shares the input.
    pub fn q4g64_gemv_batch(
        blobs: u64,
        region_off: u64,
        x: u64,
        x_stride: i32,
        y: u64,
        rows: i32,
        cols: i32,
        group: i32,
        experts: i32,
    ) -> (l: Launch)
        requires
            0 <= rows,
            0 <= experts,
        ensures
            l@ == Self::q4g64_gemv_batch_launch(
                blobs,
                region_off,
                x,
                x_stride,
                y,
                rows,
                cols,
                group,
                experts,
            ),
    {
        let params: Vec<Param> = vec![
            Param::Ptr(blobs),
            Param::U64(region_off),
            Param::Ptr(x),
            Param::I32(x_stride),
            Param::Ptr(y),
            Param::I32(rows),
            Param::I32(cols),
            Param::I32(group),
        ];
        assert(params@ =~= seq![
            Param::Ptr(blobs),
            Param::U64(region_off),
            Param::Ptr(x),
            Param::I32(x_stride),
            Param::Ptr(y),
            Param::I32(rows),
            Param::I32(cols),
            Param::I32(group),
        ]);
        Launch {
            kernel: Kernel::Q4g64GemvBatch,
            grid: (rows_grid(rows), experts as u32, 1),
            block: (WARPS * 32, 1, 1),
            params,
        }
    }

    /// out[n] += Σ_e wts[e] * eouts[e, n]
    pub open spec fn moe_reduce_launch(
        eouts: u64,
        wts: u64,
        out: u64,
        experts: i32,
        n: i32,
    ) -> LaunchView {
        LaunchView {
            kernel: Kernel::MoeReduce,
            grid: (blocks_1d(n as int), 1, 1),
            block: (256, 1, 1),
            params: seq![
                Param::Ptr(eouts),
                Param::Ptr(wts),
                Param::Ptr(out),
                Param::I32(experts),
                Param::I32(n),
            ],
        }
    }

    /// out[n] += Σ_e wts[e] * eouts[e, n]
    pub fn moe_reduce(eouts: u64, wts: u64, out: u64, experts: i32, n: i32) -> (l: Launch)
        requires
            0 <= n,
        ensures
            l@ == Self::moe_reduce_launch(eouts, wts, out, experts, n),
    {
        let params: Vec<Param> = vec![
            Param::Ptr(eouts),
            Param::Ptr(wts),
            Param::Ptr(out),
            Param::I32(experts),
            Param::I32(n),
        ];
        assert(params@ =~= seq![
            Param::Ptr(eouts),
            Param::Ptr(wts),
            Param::Ptr(out),
            Param::I32(experts),
            Param::I32(n),
        ]);
        Launch { kernel: Kernel::MoeReduce, grid: (grid_1d(n), 1, 1), block: (256, 1, 1), params }
    }

    /// Row-wise RMSNorm over `rows` rows of length `n`; `w` shared per row.
    pub open spec fn rmsnorm_launch(
        x: u64,
        w: u64,
        y: u64,
        n: i32,
        eps: u32,
        rows: i32,
    ) -> LaunchView {
        LaunchView {
            kernel: Kernel::RmsNorm,
            grid: (rows as u32, 1, 1),
            block: (256, 1, 1),
            params: seq![
                Param::Ptr(x),
                Param::Ptr(w),
                Param::Ptr(y),
                Param::I32(n),
                Param::F32(eps),
            ],
        }
    }

    /// Row-wise RMSNorm over `rows` rows of length `n`; `w` shared per row.
    pub fn rmsnorm(x: u64, w: u64, y: u64, n: i32, eps: u32, rows: i32) -> (l: Launch)
        requires
            0 <= rows,
        ensures
            l@ == Self::rmsnorm_launch(x, w, y, n, eps, rows),
    {
        let params: Vec<Param> = vec![
            Param::Ptr(x),
            Param::Ptr(w),
            Param::Ptr(y),
            Param::I32(n),
            Param::F32(eps),
        ];
        assert(params@ =~= seq![
            Param::Ptr(x),
            Param::Ptr(w),
            Param::Ptr(y),
            Param::I32(n),
            Param::F32(eps),
        ]);
        Launch { kernel: Kernel::RmsNorm, grid: (rows as u32, 1, 1), block: (256, 1, 1), params }
    }

    /// a += s * b
    pub open spec fn scale_add_launch(a: u64, b: u64, s: u32, n: i32) -> LaunchView {
        LaunchView {
            kernel: Kernel::ScaleAdd,
            grid: (blocks_1d(n as int), 1, 1),
            block: (256, 1, 1),
            params: seq![Param::Ptr(a), Param::Ptr(b), Param::F32(s), Param::I32(n)],
        }
    }

    /// a += s * b
    pub fn scale_add(a: u64, b: u64, s: u32, n: i32) -> (l: Launch)
        requires
            0 <= n,
        ensures
            l@ == Self::scale_add_launch(a, b, s, n),
    {
        let params: Vec<Param> = vec![Param::Ptr(a), Param::Ptr(b), Param::F32(s), Param::I32(n)];
        assert(params@ =~= seq![Param::Ptr(a), Param::Ptr(b), Param::F32(s), Param::I32(n)]);
        Launch { kernel: Kernel::ScaleAdd, grid: (grid_1d(n), 1, 1), block: (256, 1, 1), params }
    }

    /// Append this token's k/v ([kv_heads, head_dim]) to the caches at `pos`;
    /// `half` is 1 where the caches hold f16.
    pub open spec fn kv_append_launch(
        k: u64,
        v: u64,
        kcache: u64,
        vcache: u64,
        kv_heads: i32,
        head_dim: i32,
        pos: i32,
        max_seq: i32,
        half: i32,
    ) -> LaunchView {
        LaunchView {
            kernel: Kernel::KvAppend,
            grid: (blocks_1d(kv_heads * head_dim), 1, 1),
            block: (256, 1, 1),
            params: seq![
                Param::Ptr(k),
                Param::Ptr(v),
                Param::Ptr(kcache),
                Param::Ptr(vcache),
                Param::I32(kv_heads),
                Param::I32(head_dim),
                Param::I32(pos),
                Param::I32(max_seq),
                Param::I32(half),
            ],
        }
    }

    /// Append this token's k/v ([kv_heads, head_dim]) to the caches at `pos`;
    /// `half` is 1 where the caches hold f16.
    pub fn kv_append(
        k: u64,
        v: u64,
        kcache: u64,
        vcache: u64,
        kv_heads: i32,
        head_dim: i32,
        pos: i32,
        max_seq: i32,
        half: i32,
    ) -> (l: Launch)
        requires
            0 <= kv_heads,
            0 <= head_dim,
            kv_heads * head_dim <= i32::MAX,
        ensures
            l@ == Self::kv_append_launch(
                k,
                v,
                kcache,
                vcache,
                kv_heads,
                head_dim,
                pos,
                max_seq,
                half,
            ),
    {
        assert(0 <= kv_heads * head_dim) by (nonlinear_arith)
            requires
                0 <= kv_heads,
                0 <= head_dim,
        ;
        let params: Vec<Param> = vec![
            Param::Ptr(k),
            Param::Ptr(v),
            Param::Ptr(kcache),
            Param::Ptr(vcache),
            Param::I32(kv_heads),
            Param::I32(head_dim),
            Param::I32(pos),
            Param::I32(max_seq),
            Param::I32(half),
        ];
        assert(params@ =~= seq![
            Param::Ptr(k),
            Param::Ptr(v),
            Param::Ptr(kcache),
            Param::Ptr(vcache),
            Param::I32(kv_heads),
            Param::I32(head_dim),
            Param::I32(pos),
            Param::I32(max_seq),
            Param::I32(half),
        ]);
        Launch {
            kernel: Kernel::KvAppend,
            grid: (grid_1d(kv_heads * head_dim), 1, 1),
            block: (256, 1, 1),
            params,
        }
    }

    /// y[rows] = W x, W bf16 [rows, cols].
    pub open spec fn bf16_gemv_launch(
        w: u64,
        x: u64,
        y: u64,
        rows: i32,
        cols: i32,
    ) -> LaunchView {
        LaunchView {
            kernel: Kernel::Bf16Gemv,
            grid: (row_blocks(rows as int), 1, 1),
            block: ((WARPS * 32) as u32, 1, 1),
            params: seq![
                Param::Ptr(w),
                Param::Ptr(x),
                Param::Ptr(y),
                Param::I32(rows),
                Param::I32(cols),
            ],
        }
    }

    /// y[rows] = W x, W bf16 [rows, cols].
    pub fn bf16_gemv(w: u64, x: u64, y: u64, rows: i32, cols: i32) -> (l: Launch)
        requires
            0 <= rows,
        ensures
            l@ == Self::bf16_gemv_launch(w, x, y, rows, cols),
    {
        let params: Vec<Param> = vec![
            Param::Ptr(w),
            Param::Ptr(x),
            Param::Ptr(y),
            Param::I32(rows),
            Param::I32(cols),
        ];
        assert(params@ =~= seq![
            Param::Ptr(w),
            Param::Ptr(x),
            Param::Ptr(y),
            Param::I32(rows),
            Param::I32(cols),
        ]);
        Launch {
            kernel: Kernel::Bf16Gemv,
            grid: (rows_grid(rows), 1, 1),
            block: (WARPS * 32, 1, 1),
            params,
        }
    }

    /// out[n] = silu(gate[n]) * up[n]
    pub open spec fn silu_mul_launch(gate: u64, up: u64, out: u64, n: i32) -> LaunchView {
        LaunchView {
            kernel: Kernel::SiluMul,
            grid: (blocks_1d(n as int), 1, 1),
            block: (256, 1, 1),
            params: seq![Param::Ptr(gate), Param::Ptr(up), Param::Ptr(out), Param::I32(n)],
        }
    }

    /// out[n] = silu(gate[n]) * up[n]
    pub fn silu_mul(gate: u64, up: u64, out: u64, n: i32) -> (l: Launch)
        requires
            0 <= n,
        ensures
            l@ == Self::silu_mul_launch(gate, up, out, n),
    {
        let params: Vec<Param> = vec![
            Param::Ptr(gate),
            Param::Ptr(up),
            Param::Ptr(out),
            Param::I32(n),
        ];
        assert(params@ =~= seq![
            Param::Ptr(gate),
            Param::Ptr(up),
            Param::Ptr(out),
            Param::I32(n),
        ]);
        Launch { kernel: Kernel::SiluMul, grid: (grid_1d(n), 1, 1), block: (256, 1, 1), params }
    }

    /// a += b
    pub open spec fn add_to_launch(a: u64, b: u64, n: i32) -> LaunchView {
        LaunchView {
            kernel: Kernel::Add,
            grid: (blocks_1d(n as int), 1, 1),
            block: (256, 1, 1),
            params: seq![Param::Ptr(a), Param::Ptr(b), Param::I32(n)],
        }
    }

    /// a += b
    pub fn add_to(a: u64, b: u64, n: i32) -> (l: Launch)
        requires
            0 <= n,
        ensures
            l@ == Self::add_to_launch(a, b, n),
    {
        let params: Vec<Param> = vec![Param::Ptr(a), Param::Ptr(b), Param::I32(n)];
        assert(params@ =~= seq![Param::Ptr(a), Param::Ptr(b), Param::I32(n)]);
        Launch { kernel: Kernel::Add, grid: (grid_1d(n), 1, 1), block: (256, 1, 1), params }
    }

    /// In-place NeoX RoPE over [heads, head_dim] at position `pos`.
    pub open spec fn rope_launch(
        x: u64,
        heads: i32,
        head_dim: i32,
        pos: i32,
        base: u32,
    ) -> LaunchView {
        LaunchView {
            kernel: Kernel::Rope,
            grid: (blocks_1d(heads * head_dim / 2), 1, 1),
            block: (256, 1, 1),
            params: seq![
                Param::Ptr(x),
                Param::I32(heads),
                Param::I32(head_dim),
                Param::I32(pos),
                Param::F32(base),
            ],
        }
    }

    /// In-place NeoX RoPE over [heads, head_dim] at position `pos`.
    pub fn rope(x: u64, heads: i32, head_dim: i32, pos: i32, base: u32) -> (l: Launch)
        requires
            0 <= heads,
            0 <= head_dim,
            heads * head_dim <= i32::MAX,
        ensures
            l@ == Self::rope_launch(x, heads, head_dim, pos, base),
    {
        assert(0 <= heads * head_dim) by (nonlinear_arith)
            requires
                0 <= heads,
                0 <= head_dim,
        ;
        let params: Vec<Param> = vec![
            Param::Ptr(x),
            Param::I32(heads),
            Param::I32(head_dim),
            Param::I32(pos),
            Param::F32(base),
        ];
        assert(params@ =~= seq![
            Param::Ptr(x),
            Param::I32(heads),
            Param::I32(head_dim),
            Param::I32(pos),
            Param::F32(base),
        ]);
        Launch {
            kernel: Kernel::Rope,
            grid: (grid_1d(heads * head_dim / 2), 1, 1),
            block: (256, 1, 1),
            params,
        }
    }

    /// Decode attention over the KV caches; `scratch` is [heads, max_seq].
    pub open spec fn attn_decode_launch(
        q: u64,
        kcache: u64,
        vcache: u64,
        out: u64,
        scratch: u64,
        heads: i32,
        kv_heads: i32,
        head_dim: i32,
        seq_len: i32,
        max_seq: i32,
        scale: u32,
        half: i32,
    ) -> LaunchView {
        LaunchView {
            kernel: Kernel::AttnDecode,
            grid: (heads as u32, 1, 1),
            block: (256, 1, 1),
            params: seq![
                Param::Ptr(q),
                Param::Ptr(kcache),
                Param::Ptr(vcache),
                Param::Ptr(out),
                Param::Ptr(scratch),
                Param::I32(heads),
                Param::I32(kv_heads),
                Param::I32(head_dim),
                Param::I32(seq_len),
                Param::I32(max_seq),
                Param::F32(scale),
                Param::I32(half),
            ],
        }
    }

    /// Decode attention over the KV caches; `scratch` is [heads, max_seq].
    pub fn attn_decode(
        q: u64,
        kcache: u64,
        vcache: u64,
        out: u64,
        scratch: u64,
        heads: i32,
        kv_heads: i32,
        head_dim: i32,
        seq_len: i32,
        max_seq: i32,
        scale: u32,
        half: i32,
    ) -> (l: Launch)
        requires
            0 <= heads,
        ensures
            l@ == Self::attn_decode_launch(
                q,
                kcache,
                vcache,
                out,
                scratch,
                heads,
                kv_heads,
                head_dim,
                seq_len,
                max_seq,
                scale,
                half,
            ),
    {
        let params: Vec<Param> = vec![
            Param::Ptr(q),
            Param::Ptr(kcache),
            Param::Ptr(vcache),
            Param::Ptr(out),
            Param::Ptr(scratch),
            Param::I32(heads),
            Param::I32(kv_heads),
            Param::I32(head_dim),
            Param::I32(seq_len),
            Param::I32(max_seq),
            Param::F32(scale),
            Param::I32(half),
        ];
        assert(params@ =~= seq![
            Param::Ptr(q),
            Param::Ptr(kcache),
            Param::Ptr(vcache),
            Param::Ptr(out),
            Param::Ptr(scratch),
            Param::I32(heads),
            Param::I32(kv_heads),
            Param::I32(head_dim),
            Param::I32(seq_len),
            Param::I32(max_seq),
            Param::F32(scale),
            Param::I32(half),
        ]);
        Launch {
            kernel: Kernel::AttnDecode,
            grid: (heads as u32, 1, 1),
            block: (256, 1, 1),
            params,
        }
    }

    /// out[n] = f32(table[row, :n]) — embedding row gather.
    pub open spec fn bf16_row_launch(table: u64, row: i32, n: i32, out: u64) -> LaunchView {
        LaunchView {
            kernel: Kernel::Bf16Row,
            grid: (blocks_1d(n as int), 1, 1),
            block: (256, 1, 1),
            params: seq![Param::Ptr(table), Param::I32(row), Param::I32(n), Param::Ptr(out)],
        }
    }

    /// out[n] = f32(table[row, :n]) — embedding row gather.
    pub fn bf16_row(table: u64, row: i32, n: i32, out: u64) -> (l: Launch)
        requires
            0 <= n,
        ensures
            l@ == Self::bf16_row_launch(table, row, n, out),
    {
        let params: Vec<Param> = vec![
            Param::Ptr(table),
            Param::I32(row),
            Param::I32(n),
            Param::Ptr(out),
        ];
        assert(params@ =~= seq![
            Param::Ptr(table),
            Param::I32(row),
            Param::I32(n),
            Param::Ptr(out),
        ]);
        Launch { kernel: Kernel::Bf16Row, grid: (grid_1d(n), 1, 1), block: (256, 1, 1), params }
    }

    /// Interleaved RoPE with a precomputed inv_freq table (device array of
    /// `half` f32): rotates pairs (2i, 2i+1) of the slice at `offset` in
    /// each of `n_vecs` vectors of stride `stride`.
    pub open spec fn mla_rope_launch(
        x: u64,
        n_vecs: i32,
        stride: i32,
        offset: i32,
        half: i32,
        pos: i32,
        inv_freq: u64,
        mscale: u32,
    ) -> LaunchView {
        LaunchView {
            kernel: Kernel::MlaRope,
            grid: (blocks_1d(n_vecs * half), 1, 1),
            block: (256, 1, 1),
            params: seq![
                Param::Ptr(x),
                Param::I32(n_vecs),
                Param::I32(stride),
                Param::I32(offset),
                Param::I32(half),
                Param::I32(pos),
                Param::Ptr(inv_freq),
                Param::F32(mscale),
            ],
        }
    }

    /// Interleaved RoPE with a precomputed inv_freq table (device array of
    /// `half` f32): rotates pairs (2i, 2i+1) of the slice at `offset` in
    /// each of `n_vecs` vectors of stride `stride`.
    pub fn mla_rope(
        x: u64,
        n_vecs: i32,
        stride: i32,
        offset: i32,
        half: i32,
        pos: i32,
        inv_freq: u64,
        mscale: u32,
    ) -> (l: Launch)
        requires
            0 <= n_vecs,
            0 <= half,
            n_vecs * half <= i32::MAX,
        ensures
            l@ == Self::mla_rope_launch(x, n_vecs, stride, offset, half, pos, inv_freq, mscale),
    {
        assert(0 <= n_vecs * half) by (nonlinear_arith)
            requires
                0 <= n_vecs,
                0 <= half,
        ;
        let params: Vec<Param> = vec![
            Param::Ptr(x),
            Param::I32(n_vecs),
            Param::I32(stride),
            Param::I32(offset),
            Param::I32(half),
            Param::I32(pos),
            Param::Ptr(inv_freq),
            Param::F32(mscale),
        ];
        assert(params@ =~= seq![
            Param::Ptr(x),
            Param::I32(n_vecs),
            Param::I32(stride),
            Param::I32(offset),
            Param::I32(half),
            Param::I32(pos),
            Param::Ptr(inv_freq),
            Param::F32(mscale),
        ]);
        Launch {
            kernel: Kernel::MlaRope,
            grid: (grid_1d(n_vecs * half), 1, 1),
            block: (256, 1, 1),
            params,
        }
    }

    /// MLA/MQA decode attention over a shared compressed cache
    /// [max_seq, qk_dim]; ctx gets the softmax-weighted sum of the first
    /// c_dim dims. scratch is [heads, max_seq].
    pub open spec fn mla_attn_decode_launch(
        q: u64,
        cache: u64,
        ctx: u64,
        scratch: u64,
        heads: i32,
        qk_dim: i32,
        c_dim: i32,
        seq_len: i32,
        max_seq: i32,
        scale: u32,
    ) -> LaunchView {
        LaunchView {
            kernel: Kernel::MlaAttnDecode,
            grid: (heads as u32, 1, 1),
            block: (256, 1, 1),
            params: seq![
                Param::Ptr(q),
                Param::Ptr(cache),
                Param::Ptr(ctx),
                Param::Ptr(scratch),
                Param::I32(heads),
                Param::I32(qk_dim),
                Param::I32(c_dim),
                Param::I32(seq_len),
                Param::I32(max_seq),
                Param::F32(scale),
            ],
        }
    }

    /// MLA/MQA decode attention over a shared compressed cache
    /// [max_seq, qk_dim]; ctx gets the softmax-weighted sum of the first
    /// c_dim dims. scratch is [heads, max_seq].
    pub fn mla_attn_decode(
        q: u64,
        cache: u64,
        ctx: u64,
        scratch: u64,
        heads: i32,
        qk_dim: i32,
        c_dim: i32,
        seq_len: i32,
        max_seq: i32,
        scale: u32,
    ) -> (l: Launch)
        requires
            0 <= heads,
        ensures
            l@ == Self::mla_attn_decode_launch(
                q,
                cache,
                ctx,
                scratch,
                heads,
                qk_dim,
                c_dim,
                seq_len,
                max_seq,
                scale,
            ),
    {
        let params: Vec<Param> = vec![
            Param::Ptr(q),
            Param::Ptr(cache),
            Param::Ptr(ctx),
            Param::Ptr(scratch),
            Param::I32(heads),
            Param::I32(qk_dim),
            Param::I32(c_dim),
            Param::I32(seq_len),
            Param::I32(max_seq),
            Param::F32(scale),
        ];
        assert(params@ =~= seq![
            Param::Ptr(q),
            Param::Ptr(cache),
            Param::Ptr(ctx),
            Param::Ptr(scratch),
            Param::I32(heads),
            Param::I32(qk_dim),
            Param::I32(c_dim),
            Param::I32(seq_len),
            Param::I32(max_seq),
            Param::F32(scale),
        ]);
        Launch {
            kernel: Kernel::MlaAttnDecode,
            grid: (heads as u32, 1, 1),
            block: (256, 1, 1),
            params,
        }
    }

    /// Batched bf16 GEMV: batch b does y+b*y_stride = (w + b*w_stride) ·
    /// (x + b*x_stride). Strides in elements; x_stride 0 shares the input.
    pub open spec fn bf16_gemv_batch_launch(
        w: u64,
        w_stride: u64,
        x: u64,
        x_stride: i32,
        y: u64,
        y_stride: i32,
        rows: i32,
        cols: i32,
        batch: i32,
    ) -> LaunchView {
        LaunchView {
            kernel: Kernel::Bf16GemvBatch,
            grid: (row_blocks(rows as int), batch as u32, 1),
            block: ((WARPS * 32) as u32, 1, 1),
            params: seq![
                Param::Ptr(w),
                Param::U64(w_stride),
                Param::Ptr(x),
                Param::I32(x_stride),
                Param::Ptr(y),
                Param::I32(y_stride),
                Param::I32(rows),
                Param::I32(cols),
                Param::I32(batch),
            ],
        }
    }

    /// Batched bf16 GEMV: batch b does y+b*y_stride = (w + b*w_stride) ·
    /// (x + b*x_stride). Strides in elements; x_stride 0 shares the input.
    pub fn bf16_gemv_batch(
        w: u64,
        w_stride: u64,
        x: u64,
        x_stride: i32,
        y: u64,
        y_stride: i32,
        rows: i32,
        cols: i32,
        batch: i32,
    ) -> (l: Launch)
        requires
            0 <= rows,
            0 <= batch,
        ensures
            l@ == Self::bf16_gemv_batch_launch(
                w,
                w_stride,
                x,
                x_stride,
                y,
                y_stride,
                rows,
                cols,
                batch,
            ),
    {
        let params: Vec<Param> = vec![
            Param::Ptr(w),
            Param::U64(w_stride),
            Param::Ptr(x),
            Param::I32(x_stride),
            Param::Ptr(y),
            Param::I32(y_stride),
            Param::I32(rows),
            Param::I32(cols),
            Param::I32(batch),
        ];
        assert(params@ =~= seq![
            Param::Ptr(w),
            Param::U64(w_stride),
            Param::Ptr(x),
            Param::I32(x_stride),
            Param::Ptr(y),
            Param::I32(y_stride),
            Param::I32(rows),
            Param::I32(cols),
            Param::I32(batch),
        ]);
        Launch {
            kernel: Kernel::Bf16GemvBatch,
            grid: (rows_grid(rows), batch as u32, 1),
            block: (WARPS * 32, 1, 1),
            params,
        }
    }

    /// Strided gather/scatter: for v in 0..n_vecs,
    /// dst[v*dst_stride+dst_off..][..n] = src[v*src_stride+src_off..][..n].
    pub open spec fn strided_copy_launch(
        src: u64,
        src_stride: i32,
        src_off: i32,
        dst: u64,
        dst_stride: i32,
        dst_off: i32,
        n_vecs: i32,
        n: i32,
    ) -> LaunchView {
        LaunchView {
            kernel: Kernel::StridedCopy,
            grid: (blocks_1d(n_vecs * n), 1, 1),
            block: (256, 1, 1),
            params: seq![
                Param::Ptr(src),
                Param::I32(src_stride),
                Param::I32(src_off),
                Param::Ptr(dst),
                Param::I32(dst_stride),
                Param::I32(dst_off),
                Param::I32(n_vecs),
                Param::I32(n),
            ],
        }
    }

    /// Strided gather/scatter: for v in 0..n_vecs,
    /// dst[v*dst_stride+dst_off..][..n] = src[v*src_stride+src_off..][..n].
    pub fn strided_copy(
        src: u64,
        src_stride: i32,
        src_off: i32,
        dst: u64,
        dst_stride: i32,
        dst_off: i32,
        n_vecs: i32,
        n: i32,
    ) -> (l: Launch)
        requires
            0 <= n_vecs,
            0 <= n,
            n_vecs * n <= i32::MAX,
        ensures
            l@ == Self::strided_copy_launch(
                src,
                src_stride,
                src_off,
                dst,
                dst_stride,
                dst_off,
                n_vecs,
                n,
            ),
    {
        assert(0 <= n_vecs * n) by (nonlinear_arith)
            requires
                0 <= n_vecs,
                0 <= n,
        ;
        let params: Vec<Param> = vec![
            Param::Ptr(src),
            Param::I32(src_stride),
            Param::I32(src_off),
            Param::Ptr(dst),
            Param::I32(dst_stride),
            Param::I32(dst_off),
            Param::I32(n_vecs),
            Param::I32(n),
        ];
        assert(params@ =~= seq![
            Param::Ptr(src),
            Param::I32(src_stride),
            Param::I32(src_off),
            Param::Ptr(dst),
            Param::I32(dst_stride),
            Param::I32(dst_off),
            Param::I32(n_vecs),
            Param::I32(n),
        ]);
        Launch {
            kernel: Kernel::StridedCopy,
            grid: (grid_1d(n_vecs * n), 1, 1),
            block: (256, 1, 1),
            params,
        }
    }
}

} // verus!
