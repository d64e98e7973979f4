//! What a model is loaded from: every tensor that its layers compute with, in
//! the shape that the model's dimensions give it.

use crate::config::{Config, KimiConfig};
use crate::launch::Kernel;
use crate::load::{
    bf16_of_f32, keys_absorbed, layer_tensor, load_form, values_absorbed, Encoding, Load, LoadError,
};
use vstd::prelude::*;
use vstd::string::*;

verus! {

proof fn lemma_layers(cfg: Config, n: nat, l: nat, k: int)
    requires
        l < n,
        0 <= k < cfg.layer_load(l).len(),
    ensures
        cfg.layers_load(n).len() == 9 * n,
        cfg.layers_load(n)[9 * l + k] == cfg.layer_load(l)[k],
    decreases n,
{
    let m = (n - 1) as nat;
    lemma_layers_len(cfg, m);
    if l < m {
        lemma_layers(cfg, m, l, k);
    }
}

proof fn lemma_layers_len(cfg: Config, n: nat)
    ensures
        cfg.layers_load(n).len() == 9 * n,
    decreases n,
{
    if n > 0 {
        lemma_layers_len(cfg, (n - 1) as nat);
    }
}

proof fn lemma_item(cfg: Config, tied: bool, l: nat, k: int)
    requires
        l < cfg.layers,
        0 <= k < cfg.layer_load(l).len(),
    ensures
        cfg.core_load(tied).contains(cfg.layer_load(l)[k]),
{
    lemma_layers(cfg, cfg.layers as nat, l, k);
    let all = cfg.core_load(tied);
    assert(all[9 * l + k] == cfg.layers_load(cfg.layers as nat)[9 * l + k]);
}

/// Every layer of a Qwen3-MoE model is loaded with its norms, its four
/// projections and its router, in the shapes that attention and the router have;
/// and nothing else is loaded but the embedding, the last norm and, unless it is
/// the embedding's own, the output projection.
pub proof fn law_every_layer_is_loaded(cfg: Config, tied: bool, l: nat, q: usize, kv: usize)
    requires
        l < cfg.layers,
        q == cfg.heads * cfg.head_dim,
        kv == cfg.kv_heads * cfg.head_dim,
    ensures
        ({
            let all = cfg.core_load(tied);
            &&& all.contains(
                (layer_tensor(l, "input_layernorm.weight"@), Load::Norm { n: cfg.hidden }),
            )
            &&& all.contains(
                (
                    layer_tensor(l, "self_attn.q_proj.weight"@),
                    Load::Matrix { rows: q, cols: cfg.hidden },
                ),
            )
            &&& all.contains(
                (
                    layer_tensor(l, "self_attn.k_proj.weight"@),
                    Load::Matrix { rows: kv, cols: cfg.hidden },
                ),
            )
            &&& all.contains(
                (
                    layer_tensor(l, "self_attn.v_proj.weight"@),
                    Load::Matrix { rows: kv, cols: cfg.hidden },
                ),
            )
            &&& all.contains(
                (
                    layer_tensor(l, "self_attn.o_proj.weight"@),
                    Load::Matrix { rows: cfg.hidden, cols: q },
                ),
            )
            &&& all.contains(
                (layer_tensor(l, "self_attn.q_norm.weight"@), Load::Norm { n: cfg.head_dim }),
            )
            &&& all.contains(
                (layer_tensor(l, "self_attn.k_norm.weight"@), Load::Norm { n: cfg.head_dim }),
            )
            &&& all.contains(
                (layer_tensor(l, "post_attention_layernorm.weight"@), Load::Norm { n: cfg.hidden }),
            )
            &&& all.contains(
                (
                    layer_tensor(l, "mlp.gate.weight"@),
                    Load::Matrix { rows: cfg.experts, cols: cfg.hidden },
                ),
            )
            &&& all.len() == 9 * cfg.layers + (if tied {
                2int
            } else {
                3
            })
        }),
{
    lemma_layers_len(cfg, cfg.layers as nat);
    lemma_item(cfg, tied, l, 0);
    lemma_item(cfg, tied, l, 1);
    lemma_item(cfg, tied, l, 2);
    lemma_item(cfg, tied, l, 3);
    lemma_item(cfg, tied, l, 4);
    lemma_item(cfg, tied, l, 5);
    lemma_item(cfg, tied, l, 6);
    lemma_item(cfg, tied, l, 7);
    lemma_item(cfg, tied, l, 8);
}

/// The embedding and the last norm are loaded, and the output projection unless
/// it is tied to the embedding.
pub proof fn law_ends_are_loaded(cfg: Config, tied: bool)
    ensures
        ({
            let all = cfg.core_load(tied);
            &&& all.contains(
                ("model.embed_tokens.weight"@, Load::Bf16 { rows: cfg.vocab, cols: cfg.hidden }),
            )
            &&& all.contains(("model.norm.weight"@, Load::Norm { n: cfg.hidden }))
            &&& !tied ==> all.contains(
                ("lm_head.weight"@, Load::Matrix { rows: cfg.vocab, cols: cfg.hidden }),
            )
        }),
{
    let all = cfg.core_load(tied);
    let n = cfg.layers_load(cfg.layers as nat).len() as int;
    if tied {
        assert(all[n]
            == ("model.embed_tokens.weight"@, Load::Bf16 { rows: cfg.vocab, cols: cfg.hidden }));
        assert(all[n + 1] == ("model.norm.weight"@, Load::Norm { n: cfg.hidden }));
    } else {
        let a = all[n];
        let b = all[n + 1];
        let c = all[n + 2];
    }
}

proof fn lemma_kimi_layers(cfg: KimiConfig, n: nat, l: nat, k: int)
    requires
        l < n,
        0 <= k < cfg.layer_load(l).len(),
    ensures
        cfg.layers_load(n).contains(cfg.layer_load(l)[k]),
    decreases n,
{
    let m = (n - 1) as nat;
    let before = cfg.layers_load(m);
    let all = cfg.layers_load(n);
    if l < m {
        lemma_kimi_layers(cfg, m, l, k);
        let i = choose|i: int| 0 <= i < before.len() && before[i] == cfg.layer_load(l)[k];
        assert(all[i] == before[i]);
    } else {
        assert(all[before.len() + k] == cfg.layer_load(l)[k]);
    }
}

proof fn lemma_kimi_item(cfg: KimiConfig, l: nat, k: int)
    requires
        l < cfg.layers,
        0 <= k < cfg.layer_load(l).len(),
    ensures
        cfg.core_load().contains(cfg.layer_load(l)[k]),
{
    lemma_kimi_layers(cfg, cfg.layers as nat, l, k);
    let layers = cfg.layers_load(cfg.layers as nat);
    let i = choose|i: int| 0 <= i < layers.len() && layers[i] == cfg.layer_load(l)[k];
    assert(cfg.core_load()[i] == layers[i]);
}

/// Every layer of a Kimi model is loaded with the norms and projections of its
/// latent attention, in the shapes that it has; a dense layer with its block,
/// every other with its router, the router's bias and its shared expert.
pub proof fn law_every_kimi_layer_is_loaded(
    cfg: KimiConfig,
    l: nat,
    qb: usize,
    kva: usize,
    kvb: usize,
    ov: usize,
)
    requires
        l < cfg.layers,
        qb == cfg.heads * (cfg.nope + cfg.rope),
        kva == cfg.kv_lora + cfg.rope,
        kvb == cfg.heads * (cfg.nope + cfg.v_head),
        ov == cfg.heads * cfg.v_head,
    ensures
        ({
            let all = cfg.core_load();
            &&& all.contains(
                (
                    layer_tensor(l, "self_attn.kv_b_proj.weight"@),
                    Load::Absorbed { rows: kvb, cols: cfg.kv_lora },
                ),
            )
            &&& all.contains(
                (layer_tensor(l, "input_layernorm.weight"@), Load::Norm { n: cfg.hidden }),
            )
            &&& all.contains(
                (layer_tensor(l, "post_attention_layernorm.weight"@), Load::Norm { n: cfg.hidden }),
            )
            &&& all.contains(
                (
                    layer_tensor(l, "self_attn.q_a_proj.weight"@),
                    Load::Quantized { rows: cfg.q_lora, cols: cfg.hidden },
                ),
            )
            &&& all.contains(
                (layer_tensor(l, "self_attn.q_a_layernorm.weight"@), Load::Norm { n: cfg.q_lora }),
            )
            &&& all.contains(
                (
                    layer_tensor(l, "self_attn.q_b_proj.weight"@),
                    Load::Quantized { rows: qb, cols: cfg.q_lora },
                ),
            )
            &&& all.contains(
                (
                    layer_tensor(l, "self_attn.kv_a_proj_with_mqa.weight"@),
                    Load::Quantized { rows: kva, cols: cfg.hidden },
                ),
            )
            &&& all.contains(
                (
                    layer_tensor(l, "self_attn.kv_a_layernorm.weight"@),
                    Load::Norm { n: cfg.kv_lora },
                ),
            )
            &&& all.contains(
                (
                    layer_tensor(l, "self_attn.o_proj.weight"@),
                    Load::Quantized { rows: cfg.hidden, cols: ov },
                ),
            )
            &&& l < cfg.dense_layers ==> {
                &&& all.contains(
                    (
                        layer_tensor(l, "mlp.gate_proj.weight"@),
                        Load::Quantized { rows: cfg.dense_inter, cols: cfg.hidden },
                    ),
                )
                &&& all.contains(
                    (
                        layer_tensor(l, "mlp.up_proj.weight"@),
                        Load::Quantized { rows: cfg.dense_inter, cols: cfg.hidden },
                    ),
                )
                &&& all.contains(
                    (
                        layer_tensor(l, "mlp.down_proj.weight"@),
                        Load::Quantized { rows: cfg.hidden, cols: cfg.dense_inter },
                    ),
                )
            }
            &&& l >= cfg.dense_layers ==> {
                &&& all.contains(
                    (
                        layer_tensor(l, "mlp.gate.weight"@),
                        Load::Bf16 { rows: cfg.experts, cols: cfg.hidden },
                    ),
                )
                &&& all.contains((layer_tensor(l, "mlp.gate.e_score_correction_bias"@), Load::Bias))
                &&& all.contains(
                    (
                        layer_tensor(l, "mlp.shared_experts.gate_proj.weight"@),
                        Load::Quantized { rows: cfg.moe_inter, cols: cfg.hidden },
                    ),
                )
                &&& all.contains(
                    (
                        layer_tensor(l, "mlp.shared_experts.up_proj.weight"@),
                        Load::Quantized { rows: cfg.moe_inter, cols: cfg.hidden },
                    ),
                )
                &&& all.contains(
                    (
                        layer_tensor(l, "mlp.shared_experts.down_proj.weight"@),
                        Load::Quantized { rows: cfg.hidden, cols: cfg.moe_inter },
                    ),
                )
            }
        }),
{
    let load = cfg.layer_load(l);
    let n = cfg.ffn_load(l).len() as int;
    assert(cfg.attention_load(l).len() == 8);
    assert(load.len() == 1 + n + 8);
    assert forall|k: int| 0 <= k < load.len() implies #[trigger] cfg.core_load().contains(
        load[k],
    ) by {
        lemma_kimi_item(cfg, l, k);
    }
    assert(cfg.core_load().contains(load[0]));
    assert forall|k: int| 0 <= k < n implies #[trigger] cfg.core_load().contains(
        cfg.ffn_load(l)[k],
    ) by {
        assert(load[1 + k] == cfg.ffn_load(l)[k]);
    }
    assert forall|k: int| 0 <= k < 8 implies #[trigger] cfg.core_load().contains(
        cfg.attention_load(l)[k],
    ) by {
        assert(load[1 + n + k] == cfg.attention_load(l)[k]);
    }
    assert(cfg.core_load().contains(cfg.attention_load(l)[0]));
    assert(cfg.core_load().contains(cfg.attention_load(l)[1]));
    assert(cfg.core_load().contains(cfg.attention_load(l)[2]));
    assert(cfg.core_load().contains(cfg.attention_load(l)[3]));
    assert(cfg.core_load().contains(cfg.attention_load(l)[4]));
    assert(cfg.core_load().contains(cfg.attention_load(l)[5]));
    assert(cfg.core_load().contains(cfg.attention_load(l)[6]));
    assert(cfg.core_load().contains(cfg.attention_load(l)[7]));
    if l < cfg.dense_layers {
        assert(cfg.core_load().contains(cfg.ffn_load(l)[0]));
        assert(cfg.core_load().contains(cfg.ffn_load(l)[1]));
        assert(cfg.core_load().contains(cfg.ffn_load(l)[2]));
    } else {
        assert(cfg.core_load().contains(cfg.ffn_load(l)[0]));
        assert(cfg.core_load().contains(cfg.ffn_load(l)[1]));
        assert(cfg.core_load().contains(cfg.ffn_load(l)[2]));
        assert(cfg.core_load().contains(cfg.ffn_load(l)[3]));
        assert(cfg.core_load().contains(cfg.ffn_load(l)[4]));
    }
}

/// The embedding, the last norm and the output projection of a Kimi model are
/// loaded.
pub proof fn law_kimi_ends_are_loaded(cfg: KimiConfig)
    ensures
        ({
            let all = cfg.core_load();
            &&& all.contains(
                ("model.embed_tokens.weight"@, Load::Bf16 { rows: cfg.vocab, cols: cfg.hidden }),
            )
            &&& all.contains(("model.norm.weight"@, Load::Norm { n: cfg.hidden }))
            &&& all.contains(
                ("lm_head.weight"@, Load::Quantized { rows: cfg.vocab, cols: cfg.hidden }),
            )
        }),
{
    let all = cfg.core_load();
    let n = cfg.layers_load(cfg.layers as nat).len() as int;
    let a = all[n];
    let b = all[n + 1];
    let c = all[n + 2];
}

/// Bytes of a number of the types that can be loaded.
pub open spec fn number_bytes(dtype: Seq<char>) -> Option<nat> {
    if dtype == "F32"@ {
        Some(4)
    } else if dtype == "BF16"@ {
        Some(2)
    } else {
        None
    }
}

/// What is loaded has the size that the model asks for, and goes to the device
/// in the form that the kernels read: norms and biases as full numbers, matrices
/// as they are unless the core is quantized, and quantized only in whole groups
/// of 64 columns. A tensor of another type is never loaded.
pub proof fn law_loaded_tensors_have_their_size(
    what: Load,
    dtype: Seq<char>,
    shape: Seq<usize>,
    len: nat,
    core_q4: bool,
)
    ensures
        number_bytes(dtype) is None ==> load_form(what, dtype, shape, len, core_q4) == Err::<
            Encoding,
            LoadError,
        >(LoadError::Dtype),
        load_form(what, dtype, shape, len, core_q4) matches Ok(form) ==> {
            let w = number_bytes(dtype)->0;
            match what {
                Load::Norm { n } => form == Encoding::F32 && len / w == n,
                Load::Bias => form == Encoding::F32,
                Load::Bf16 { rows, cols } => form == Encoding::Bf16 && w == 2 && len == 2 * (rows
                    * cols),
                Load::Matrix { rows, cols } => {
                    &&& form == (if core_q4 && cols % 64 == 0 {
                        Encoding::Q4
                    } else {
                        Encoding::Bf16
                    })
                    &&& form == Encoding::Bf16 ==> w == 2 && len == 2 * (rows * cols)
                    &&& form == Encoding::Q4 ==> len / w == rows * cols && shape == seq![rows, cols]
                },
                Load::Quantized { rows, cols } => form == Encoding::Q4 && cols % 64 == 0 && len / w
                    == rows * cols && shape == seq![rows, cols],
                Load::Absorbed { rows, cols } => form == Encoding::Absorbed && len / w == rows * cols
                    && shape == seq![rows, cols],
            }
        },
{
    reveal_strlit("F32");
    reveal_strlit("BF16");
    assert("F32"@.len() == 3 && "BF16"@.len() == 4);
    match what {
        Load::Bf16 { rows, cols } | Load::Matrix { rows, cols } | Load::Quantized {
            rows,
            cols,
        } | Load::Absorbed { rows, cols } => {
            assert(rows * cols * 2 == 2 * (rows * cols));
            if shape.len() == 2 && shape[0] == rows && shape[1] == cols {
                assert(shape =~= seq![rows, cols]);
            }
        },
        _ => {},
    }
}

/// A tensor that is what the model asks for is loaded.
pub proof fn law_right_tensors_are_loaded(rows: usize, cols: usize, core_q4: bool)
    ensures
        ({
            let shape = seq![rows, cols];
            let len = (2 * (rows * cols)) as nat;
            let loads = |what: Load| load_form(what, "BF16"@, shape, len, core_q4) is Ok;
            &&& loads(Load::Bf16 { rows, cols })
            &&& loads(Load::Matrix { rows, cols })
            &&& loads(Load::Absorbed { rows, cols })
            &&& cols % 64 == 0 ==> loads(Load::Quantized { rows, cols })
            &&& load_form(Load::Norm { n: rows }, "BF16"@, seq![rows], (2 * rows) as nat, core_q4)
                is Ok
            &&& load_form(Load::Norm { n: rows }, "F32"@, seq![rows], (4 * rows) as nat, core_q4)
                is Ok
        }),
{
    reveal_strlit("F32");
    reveal_strlit("BF16");
    assert("F32"@.len() == 3 && "BF16"@.len() == 4);
    let n = rows * cols;
    assert(n >= 0) by (nonlinear_arith)
        requires
            n == rows * cols,
            rows >= 0,
            cols >= 0,
    ;
    assert((2 * n) / 2 == n);
    assert(rows * cols * 2 == 2 * (rows * cols));
}

/// Absorbing kv_b loses nothing of it: each of its rows belongs to a head, the
/// first of them to the head's keys and the rest to its values, and every number
/// of the row is where the products with the compressed cache look for it.
pub proof fn law_absorption_loses_nothing(
    kvb: Seq<u32>,
    kt: Seq<u16>,
    vw: Seq<u16>,
    heads: int,
    nope: int,
    v_head: int,
    kv_lora: int,
    row: int,
    c: int,
)
    requires
        keys_absorbed(kvb, kt, heads, nope, v_head, kv_lora),
        values_absorbed(kvb, vw, heads, nope, v_head, kv_lora),
        0 <= nope,
        0 <= v_head,
        0 < nope + v_head,
        0 <= row < heads * (nope + v_head),
        0 <= c < kv_lora,
    ensures
        ({
            let h = row / (nope + v_head);
            let r = row % (nope + v_head);
            let x = bf16_of_f32(kvb[row * kv_lora + c]);
            &&& r < nope ==> kt[h * (kv_lora * nope) + (c * nope + r)] == x
            &&& r >= nope ==> vw[h * (v_head * kv_lora) + ((r - nope) * kv_lora + c)] == x
        }),
{
    let n = nope + v_head;
    let h = row / n;
    let r = row % n;
    vstd::arithmetic::div_mod::lemma_fundamental_div_mod(row, n);
    assert(n * h == h * n) by (nonlinear_arith);
    assert(0 <= h < heads) by (nonlinear_arith)
        requires
            0 <= row < heads * n,
            row == h * n + r,
            0 <= r < n,
    ;
    if r < nope {
        assert((h * kv_lora + c) * nope + r == h * (kv_lora * nope) + (c * nope + r))
            by (nonlinear_arith);
        assert(kt[(h * kv_lora + c) * nope + r] == bf16_of_f32(
            crate::load::kvb_at(kvb, kv_lora, h * n + r, c),
        ));
    } else {
        let z = r - nope;
        assert((h * v_head + z) * kv_lora + c == h * (v_head * kv_lora) + (z * kv_lora + c))
            by (nonlinear_arith);
        assert(vw[(h * v_head + z) * kv_lora + c] == bf16_of_f32(
            crate::load::kvb_at(kvb, kv_lora, h * n + nope + z, c),
        ));
    }
}

/// A tensor of a layer is named by the layer's number in decimal, between
/// `model.layers.` and a dot, and by what it is.
pub proof fn law_layer_tensors_are_named_by_layer(l: nat, rest: Seq<char>)
    ensures
        layer_tensor(l, rest) == "model.layers."@ + (crate::text::decimal(l) + (seq!['.'] + rest)),
{
    reveal_strlit(".");
    assert(layer_tensor(l, rest) =~= "model.layers."@ + (crate::text::decimal(l) + (seq!['.'] + rest)));
}

/// Every kernel has its own name in the module, and no two the same.
pub proof fn law_kernels_have_their_names(a: Kernel, b: Kernel)
    ensures
        a == Kernel::Q4g64Gemv ==> a.symbol() == "q4g64_gemv"@,
        a == Kernel::Q4g64GemvBatch ==> a.symbol() == "q4g64_gemv_batch"@,
        a == Kernel::MoeReduce ==> a.symbol() == "moe_reduce_f32"@,
        a == Kernel::RmsNorm ==> a.symbol() == "rmsnorm_f32"@,
        a == Kernel::ScaleAdd ==> a.symbol() == "scale_add_f32"@,
        a == Kernel::KvAppend ==> a.symbol() == "kv_append_f32"@,
        a == Kernel::Bf16Gemv ==> a.symbol() == "bf16_gemv"@,
        a == Kernel::SiluMul ==> a.symbol() == "silu_mul_f32"@,
        a == Kernel::Add ==> a.symbol() == "add_f32"@,
        a == Kernel::Rope ==> a.symbol() == "rope_f32"@,
        a == Kernel::AttnDecode ==> a.symbol() == "attn_decode_f32"@,
        a == Kernel::Bf16Row ==> a.symbol() == "bf16_row_to_f32"@,
        a == Kernel::MlaRope ==> a.symbol() == "mla_rope_f32"@,
        a == Kernel::MlaAttnDecode ==> a.symbol() == "mla_attn_decode_f32"@,
        a == Kernel::Bf16GemvBatch ==> a.symbol() == "bf16_gemv_batch"@,
        a == Kernel::StridedCopy ==> a.symbol() == "strided_copy_f32"@,
        a.symbol() == b.symbol() ==> a == b,
{
    reveal_strlit("q4g64_gemv");
    reveal_strlit("q4g64_gemv_batch");
    reveal_strlit("moe_reduce_f32");
    reveal_strlit("rmsnorm_f32");
    reveal_strlit("scale_add_f32");
    reveal_strlit("kv_append_f32");
    reveal_strlit("bf16_gemv");
    reveal_strlit("silu_mul_f32");
    reveal_strlit("add_f32");
    reveal_strlit("rope_f32");
    reveal_strlit("attn_decode_f32");
    reveal_strlit("bf16_row_to_f32");
    reveal_strlit("mla_rope_f32");
    reveal_strlit("mla_attn_decode_f32");
    reveal_strlit("bf16_gemv_batch");
    reveal_strlit("strided_copy_f32");
    assert("q4g64_gemv"@.len() == 10);
    assert("q4g64_gemv_batch"@.len() == 16);
    assert("moe_reduce_f32"@.len() == 14);
    assert("rmsnorm_f32"@.len() == 11);
    assert("scale_add_f32"@.len() == 13);
    assert("kv_append_f32"@.len() == 13);
    assert("bf16_gemv"@.len() == 9);
    assert("silu_mul_f32"@.len() == 12);
    assert("add_f32"@.len() == 7);
    assert("rope_f32"@.len() == 8);
    assert("attn_decode_f32"@.len() == 15);
    assert("bf16_row_to_f32"@.len() == 15);
    assert("mla_rope_f32"@.len() == 12);
    assert("mla_attn_decode_f32"@.len() == 19);
    assert("bf16_gemv_batch"@.len() == 15);
    assert("strided_copy_f32"@.len() == 16);
    assert("q4g64_gemv_batch"@[0] == 'q');
    assert("strided_copy_f32"@[0] == 's');
    assert("scale_add_f32"@[0] == 's');
    assert("kv_append_f32"@[0] == 'k');
    assert("silu_mul_f32"@[0] == 's');
    assert("mla_rope_f32"@[0] == 'm');
    assert("attn_decode_f32"@[0] == 'a');
    assert("bf16_row_to_f32"@[0] == 'b');
    assert("bf16_row_to_f32"@[5] == 'r');
    assert("bf16_gemv_batch"@[0] == 'b');
    assert("bf16_gemv_batch"@[5] == 'g');
}

} // verus!
