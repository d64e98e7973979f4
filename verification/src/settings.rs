//! Configs, member by member: each setting is read from the member of its own
//! name, and says what that member says.

use crate::api::given_number;
use crate::config::{
    config_keys, eos_ids, first_missing, given, ids_in, kimi_keys, yarn_of, Config, KimiConfig,
};
use crate::convert::{packed_layout, plain_layout, ConvertError, ExpertLayout, Format};
use crate::json::JsonTree;
use crate::registry::{
    model_fault, models_fault, server_fault, ModelSpec, ServerConfig, ServerFault,
};
use vstd::prelude::*;
use vstd::string::*;

verus! {

proof fn lemma_missing(v: JsonTree, keys: Seq<Seq<char>>)
    ensures
        first_missing(v, keys) is None <==> forall|i: int|
            0 <= i < keys.len() ==> given(v, #[trigger] keys[i]),
        first_missing(v, keys) matches Some(key) ==> keys.contains(key) && !given(v, key),
    decreases keys.len(),
{
    if keys.len() > 0 {
        let rest = keys.skip(1);
        lemma_missing(v, rest);
        if given(v, keys[0]) {
            if first_missing(v, rest) is None {
                assert forall|i: int| 0 <= i < keys.len() implies given(v, #[trigger] keys[i]) by {
                    if i > 0 {
                        assert(rest[i - 1] == keys[i]);
                    }
                }
            } else {
                let key = first_missing(v, rest)->0;
                let j = choose|j: int| 0 <= j < rest.len() && rest[j] == key;
                assert(keys[j + 1] == key);
            }
        } else {
            assert(keys[0] == keys[0]);
        }
    }
}

/// The setting that a config is refused for is one it does not give.
pub proof fn law_missing_setting_is_missing(v: JsonTree, keys: Seq<Seq<char>>)
    requires
        first_missing(v, keys) is Some,
    ensures
        ({
            let key = first_missing(v, keys)->0;
            &&& keys.contains(key)
            &&& !(v.member(key) matches Some(JsonTree::Uint(_)))
        }),
{
    lemma_missing(v, keys);
}

/// A Qwen3-MoE config is refused for a missing setting exactly where one of these
/// is no non-negative integer.
pub proof fn law_config_needs_its_settings(v: JsonTree)
    ensures
        first_missing(v, config_keys()) is None <==> (v.member("hidden_size"@) is Some
            && v.member("hidden_size"@)->0 is Uint
            && v.member("num_hidden_layers"@) is Some && v.member("num_hidden_layers"@)->0 is Uint
            && v.member("num_attention_heads"@) is Some
                && v.member("num_attention_heads"@)->0 is Uint
            && v.member("num_key_value_heads"@) is Some
                && v.member("num_key_value_heads"@)->0 is Uint
            && v.member("moe_intermediate_size"@) is Some
                && v.member("moe_intermediate_size"@)->0 is Uint
            && v.member("num_experts"@) is Some && v.member("num_experts"@)->0 is Uint
            && v.member("num_experts_per_tok"@) is Some
                && v.member("num_experts_per_tok"@)->0 is Uint
            && v.member("vocab_size"@) is Some && v.member("vocab_size"@)->0 is Uint),
{
    lemma_missing(v, config_keys());
    assert(config_keys()[0] == "num_attention_heads"@);
    assert(config_keys()[1] == "hidden_size"@);
    assert(config_keys()[2] == "num_hidden_layers"@);
    assert(config_keys()[3] == "num_key_value_heads"@);
    assert(config_keys()[4] == "moe_intermediate_size"@);
    assert(config_keys()[5] == "num_experts"@);
    assert(config_keys()[6] == "num_experts_per_tok"@);
    assert(config_keys()[7] == "vocab_size"@);
}

/// A Kimi config is refused for a missing setting exactly where one of these
/// is no non-negative integer.
pub proof fn law_kimi_config_needs_its_settings(v: JsonTree)
    ensures
        first_missing(v, kimi_keys()) is None <==> (v.member("hidden_size"@) is Some
            && v.member("hidden_size"@)->0 is Uint
            && v.member("num_hidden_layers"@) is Some && v.member("num_hidden_layers"@)->0 is Uint
            && v.member("num_attention_heads"@) is Some
                && v.member("num_attention_heads"@)->0 is Uint
            && v.member("q_lora_rank"@) is Some && v.member("q_lora_rank"@)->0 is Uint
            && v.member("kv_lora_rank"@) is Some && v.member("kv_lora_rank"@)->0 is Uint
            && v.member("qk_nope_head_dim"@) is Some && v.member("qk_nope_head_dim"@)->0 is Uint
            && v.member("qk_rope_head_dim"@) is Some && v.member("qk_rope_head_dim"@)->0 is Uint
            && v.member("v_head_dim"@) is Some && v.member("v_head_dim"@)->0 is Uint
            && v.member("moe_intermediate_size"@) is Some
                && v.member("moe_intermediate_size"@)->0 is Uint
            && v.member("intermediate_size"@) is Some && v.member("intermediate_size"@)->0 is Uint
            && v.member("n_routed_experts"@) is Some && v.member("n_routed_experts"@)->0 is Uint
            && v.member("num_experts_per_tok"@) is Some
                && v.member("num_experts_per_tok"@)->0 is Uint
            && v.member("vocab_size"@) is Some && v.member("vocab_size"@)->0 is Uint),
{
    lemma_missing(v, kimi_keys());
    assert(kimi_keys()[0] == "qk_nope_head_dim"@);
    assert(kimi_keys()[1] == "qk_rope_head_dim"@);
    assert(kimi_keys()[2] == "hidden_size"@);
    assert(kimi_keys()[3] == "num_hidden_layers"@);
    assert(kimi_keys()[4] == "num_attention_heads"@);
    assert(kimi_keys()[5] == "q_lora_rank"@);
    assert(kimi_keys()[6] == "kv_lora_rank"@);
    assert(kimi_keys()[7] == "v_head_dim"@);
    assert(kimi_keys()[8] == "moe_intermediate_size"@);
    assert(kimi_keys()[9] == "intermediate_size"@);
    assert(kimi_keys()[10] == "n_routed_experts"@);
    assert(kimi_keys()[11] == "num_experts_per_tok"@);
    assert(kimi_keys()[12] == "vocab_size"@);
}

/// What a Qwen3-MoE config says of a dimension, the model has. A head has the
/// dimension given, or its share of the hidden one. The weights of the experts
/// picked are made to sum up to one only where the config says so.
pub proof fn law_config_says_what_is_given(v: JsonTree, c: Config)
    requires
        c.reads(v),
        first_missing(v, config_keys()) is None,
    ensures
        v.member("hidden_size"@) matches Some(JsonTree::Uint(n)) ==> n <= usize::MAX
            ==> c.hidden == n,
        v.member("num_hidden_layers"@) matches Some(JsonTree::Uint(n)) ==> n <= usize::MAX
            ==> c.layers == n,
        v.member("num_attention_heads"@) matches Some(JsonTree::Uint(n)) ==> n <= usize::MAX
            ==> c.heads == n,
        v.member("num_key_value_heads"@) matches Some(JsonTree::Uint(n)) ==> n <= usize::MAX
            ==> c.kv_heads == n,
        v.member("moe_intermediate_size"@) matches Some(JsonTree::Uint(n))
            ==> n <= usize::MAX ==> c.moe_inter == n,
        v.member("num_experts"@) matches Some(JsonTree::Uint(n)) ==> n <= usize::MAX
            ==> c.experts == n,
        v.member("num_experts_per_tok"@) matches Some(JsonTree::Uint(n)) ==> n <= usize::MAX
            ==> c.top_k == n,
        v.member("vocab_size"@) matches Some(JsonTree::Uint(n)) ==> n <= usize::MAX
            ==> c.vocab == n,
        v.member("head_dim"@) matches Some(JsonTree::Uint(n)) ==> n <= usize::MAX
            ==> c.head_dim == n,
        v.member("head_dim"@) is None ==> c.heads > 0 && c.head_dim == c.hidden / c.heads,
        c.norm_topk_prob <==> v.member("norm_topk_prob"@) == Some(JsonTree::Bool(true)),
        c.rms_eps == given_number(v.member("rms_norm_eps"@)),
        c.rope_theta == given_number(v.member("rope_theta"@)),
{
}

/// Each setting of a Qwen3-MoE config depends on its own member alone.
pub proof fn law_config_settings_are_apart(a: JsonTree, b: JsonTree, ca: Config, cb: Config)
    requires
        ca.reads(a),
        cb.reads(b),
    ensures
        a.member("hidden_size"@) == b.member("hidden_size"@) ==> ca.hidden == cb.hidden,
        a.member("num_hidden_layers"@) == b.member("num_hidden_layers"@) ==> ca.layers == cb.layers,
        a.member("num_attention_heads"@) == b.member("num_attention_heads"@)
            ==> ca.heads == cb.heads,
        a.member("num_key_value_heads"@) == b.member("num_key_value_heads"@)
            ==> ca.kv_heads == cb.kv_heads,
        a.member("moe_intermediate_size"@) == b.member("moe_intermediate_size"@)
            ==> ca.moe_inter == cb.moe_inter,
        a.member("num_experts"@) == b.member("num_experts"@) ==> ca.experts == cb.experts,
        a.member("num_experts_per_tok"@) == b.member("num_experts_per_tok"@)
            ==> ca.top_k == cb.top_k,
        a.member("vocab_size"@) == b.member("vocab_size"@) ==> ca.vocab == cb.vocab,
        a.member("rms_norm_eps"@) == b.member("rms_norm_eps"@) ==> ca.rms_eps == cb.rms_eps,
        a.member("rope_theta"@) == b.member("rope_theta"@) ==> ca.rope_theta == cb.rope_theta,
        a.member("norm_topk_prob"@) == b.member("norm_topk_prob"@)
            ==> ca.norm_topk_prob == cb.norm_topk_prob,
        a.member("eos_token_id"@) == b.member("eos_token_id"@) ==> ca.eos@ == cb.eos@,
        a.member("head_dim"@) == b.member("head_dim"@) && ca.hidden == cb.hidden
            && ca.heads == cb.heads
            ==> ca.head_dim == cb.head_dim,
{
}

/// What a Kimi config says of a dimension, the model has. The dense layers are
/// those a pack's offset counts, else those the checkpoint's config counts.
/// The weights of the experts picked are made to sum up to one unless the
/// config says not to.
pub proof fn law_kimi_config_says_what_is_given(v: JsonTree, c: KimiConfig)
    requires
        c.reads(v),
        first_missing(v, kimi_keys()) is None,
    ensures
        v.member("hidden_size"@) matches Some(JsonTree::Uint(n)) ==> n <= usize::MAX
            ==> c.hidden == n,
        v.member("num_hidden_layers"@) matches Some(JsonTree::Uint(n)) ==> n <= usize::MAX
            ==> c.layers == n,
        v.member("num_attention_heads"@) matches Some(JsonTree::Uint(n)) ==> n <= usize::MAX
            ==> c.heads == n,
        v.member("q_lora_rank"@) matches Some(JsonTree::Uint(n)) ==> n <= usize::MAX
            ==> c.q_lora == n,
        v.member("kv_lora_rank"@) matches Some(JsonTree::Uint(n)) ==> n <= usize::MAX
            ==> c.kv_lora == n,
        v.member("qk_nope_head_dim"@) matches Some(JsonTree::Uint(n)) ==> n <= usize::MAX
            ==> c.nope == n,
        v.member("qk_rope_head_dim"@) matches Some(JsonTree::Uint(n)) ==> n <= usize::MAX
            ==> c.rope == n,
        v.member("v_head_dim"@) matches Some(JsonTree::Uint(n)) ==> n <= usize::MAX
            ==> c.v_head == n,
        v.member("moe_intermediate_size"@) matches Some(JsonTree::Uint(n))
            ==> n <= usize::MAX ==> c.moe_inter == n,
        v.member("intermediate_size"@) matches Some(JsonTree::Uint(n)) ==> n <= usize::MAX
            ==> c.dense_inter == n,
        v.member("n_routed_experts"@) matches Some(JsonTree::Uint(n)) ==> n <= usize::MAX
            ==> c.experts == n,
        v.member("num_experts_per_tok"@) matches Some(JsonTree::Uint(n)) ==> n <= usize::MAX
            ==> c.top_k == n,
        v.member("vocab_size"@) matches Some(JsonTree::Uint(n)) ==> n <= usize::MAX
            ==> c.vocab == n,
        match (v.member("moe_layer_offset"@), v.member("first_k_dense_replace"@)) {
            (Some(JsonTree::Uint(n)), _) => n <= usize::MAX ==> c.dense_layers == n,
            (None, Some(JsonTree::Uint(n))) => n <= usize::MAX ==> c.dense_layers == n,
            (None, None) => c.dense_layers == 0,
            _ => true,
        },
        c.norm_topk_prob <==> v.member("norm_topk_prob"@) != Some(JsonTree::Bool(false)),
        c.routed_scaling == given_number(v.member("routed_scaling_factor"@)),
        c.rms_eps == given_number(v.member("rms_norm_eps"@)),
        c.rope_theta == given_number(v.member("rope_theta"@)),
{
}

/// Each setting of a Kimi config depends on its own member alone.
pub proof fn law_kimi_config_settings_are_apart(
    a: JsonTree,
    b: JsonTree,
    ca: KimiConfig,
    cb: KimiConfig,
)
    requires
        ca.reads(a),
        cb.reads(b),
    ensures
        a.member("hidden_size"@) == b.member("hidden_size"@) ==> ca.hidden == cb.hidden,
        a.member("num_hidden_layers"@) == b.member("num_hidden_layers"@) ==> ca.layers == cb.layers,
        a.member("num_attention_heads"@) == b.member("num_attention_heads"@)
            ==> ca.heads == cb.heads,
        a.member("q_lora_rank"@) == b.member("q_lora_rank"@) ==> ca.q_lora == cb.q_lora,
        a.member("kv_lora_rank"@) == b.member("kv_lora_rank"@) ==> ca.kv_lora == cb.kv_lora,
        a.member("qk_nope_head_dim"@) == b.member("qk_nope_head_dim"@) ==> ca.nope == cb.nope,
        a.member("qk_rope_head_dim"@) == b.member("qk_rope_head_dim"@) ==> ca.rope == cb.rope,
        a.member("v_head_dim"@) == b.member("v_head_dim"@) ==> ca.v_head == cb.v_head,
        a.member("moe_intermediate_size"@) == b.member("moe_intermediate_size"@)
            ==> ca.moe_inter == cb.moe_inter,
        a.member("intermediate_size"@) == b.member("intermediate_size"@)
            ==> ca.dense_inter == cb.dense_inter,
        a.member("n_routed_experts"@) == b.member("n_routed_experts"@) ==> ca.experts == cb.experts,
        a.member("num_experts_per_tok"@) == b.member("num_experts_per_tok"@)
            ==> ca.top_k == cb.top_k,
        a.member("vocab_size"@) == b.member("vocab_size"@) ==> ca.vocab == cb.vocab,
        a.member("routed_scaling_factor"@) == b.member("routed_scaling_factor"@)
            ==> ca.routed_scaling == cb.routed_scaling,
        a.member("rms_norm_eps"@) == b.member("rms_norm_eps"@) ==> ca.rms_eps == cb.rms_eps,
        a.member("rope_theta"@) == b.member("rope_theta"@) ==> ca.rope_theta == cb.rope_theta,
        a.member("norm_topk_prob"@) == b.member("norm_topk_prob"@)
            ==> ca.norm_topk_prob == cb.norm_topk_prob,
        a.member("eos_token_id"@) == b.member("eos_token_id"@) ==> ca.eos@ == cb.eos@,
        a.member("rope_scaling"@) == b.member("rope_scaling"@) ==> ca.yarn == cb.yarn,
        a.member("moe_layer_offset"@) == b.member("moe_layer_offset"@) && a.member(
            "first_k_dense_replace"@,
        ) == b.member("first_k_dense_replace"@) ==> ca.dense_layers == cb.dense_layers,
{
}

/// Rotary frequencies are blended only where `rope_scaling` is of the type
/// `yarn`, and then by the five numbers that its own members give.
pub proof fn law_yarn_says_what_is_given(v: JsonTree)
    ensures
        yarn_of(v) is Some <==> (v.member("rope_scaling"@) is Some && v.member(
            "rope_scaling"@,
        )->0.member("type"@) == Some(JsonTree::Str("yarn"@))),
        yarn_of(v) matches Some(y) ==> {
            let rs = v.member("rope_scaling"@)->0;
            &&& y.factor == given_number(rs.member("factor"@))
            &&& y.beta_fast == given_number(rs.member("beta_fast"@))
            &&& y.beta_slow == given_number(rs.member("beta_slow"@))
            &&& y.original_max_position_embeddings == given_number(
                rs.member("original_max_position_embeddings"@),
            )
            &&& y.mscale_all_dim == given_number(rs.member("mscale_all_dim"@))
        },
{
}

proof fn lemma_ids(items: Seq<JsonTree>)
    requires
        forall|i: int|
            0 <= i < items.len() ==> #[trigger] items[i] is Uint && items[i]->Uint_0 <= u32::MAX,
    ensures
        ids_in(items).len() == items.len(),
        forall|i: int| 0 <= i < items.len() ==> #[trigger] ids_in(items)[i] == items[i]->Uint_0,
    decreases items.len(),
{
    if items.len() > 0 {
        assert(items.last() is Uint);
        lemma_ids(items.drop_last());
    }
}

/// The end-of-sequence tokens are the one id given, or all those listed, in
/// order; none where there is neither.
pub proof fn law_eos_says_what_is_given(v: JsonTree)
    ensures
        match v.member("eos_token_id"@) {
            Some(JsonTree::Uint(n)) => n <= u32::MAX ==> eos_ids(v).len() == 1
                && eos_ids(v)[0] == n,
            Some(JsonTree::Array(items)) => (forall|i: int|
                0 <= i < items.len() ==> #[trigger] items[i] is Uint
                    && items[i]->Uint_0 <= u32::MAX)
                ==> eos_ids(v).len() == items.len() && forall|i: int|
                0 <= i < items.len() ==> #[trigger] eos_ids(v)[i] == items[i]->Uint_0,
            _ => eos_ids(v).len() == 0,
        },
{
    match v.member("eos_token_id"@) {
        Some(JsonTree::Array(items)) => {
            if forall|i: int|
                0 <= i < items.len() ==> #[trigger] items[i] is Uint
                    && items[i]->Uint_0 <= u32::MAX {
                lemma_ids(items);
            }
        },
        _ => {},
    }
}

/// A plain checkpoint has as many layers and experts as its config says, and
/// experts in every layer.
pub proof fn law_plain_layout_says_what_is_given(v: JsonTree)
    ensures
        match (v.member("num_hidden_layers"@), v.member("num_experts"@)) {
            (Some(JsonTree::Uint(l)), Some(JsonTree::Uint(e))) => l <= u16::MAX
                && e <= u16::MAX ==> (
            plain_layout(v) matches Ok(x) && x.format == Format::Plain && x.layers == l && x.dense
                == 0 && x.experts == e),
            (Some(JsonTree::Uint(_)), _) => plain_layout(v) == Err::<ExpertLayout, ConvertError>(
                ConvertError::NoExpertCount,
            ),
            _ => plain_layout(v) == Err::<ExpertLayout, ConvertError>(ConvertError::NoLayerCount),
        },
{
}

/// A packed checkpoint has as many layers and experts as its `text_config`
/// says, and experts behind the dense layers that it counts.
pub proof fn law_packed_layout_says_what_is_given(
    v: JsonTree,
    text: JsonTree,
    l: u16,
    e: u16,
    d: u16,
)
    requires
        v.member("text_config"@) == Some(text),
        text.member("num_hidden_layers"@) == Some(JsonTree::Uint(l as u64)),
        text.member("n_routed_experts"@) == Some(JsonTree::Uint(e as u64)),
        text.member("first_k_dense_replace"@) == Some(JsonTree::Uint(d as u64)) || (d == 0
            && text.member("first_k_dense_replace"@) is None),
    ensures
        d <= l ==> (packed_layout(v) matches Ok(x) && x.format == Format::Packed && x.layers == l
            && x.dense == d && x.experts == e),
        d > l ==> packed_layout(v)
            == Err::<ExpertLayout, ConvertError>(ConvertError::TooManyDenseLayers),
{
}

/// What a server's config says of a model, the model gets; what it leaves out
/// has its default. A model alone gets twice its slots unless the config says
/// how many. The memory to leave free is the model's own, else the one that
/// all models share.
pub proof fn law_model_says_what_is_given(m: JsonTree, shared: Option<u64>, x: ModelSpec)
    requires
        x.reads(m, shared),
        model_fault(m, 0) is None,
    ensures
        m.member("name"@) == Some(JsonTree::Str(x.name@)),
        m.member("pack"@) == Some(JsonTree::Str(x.pack@)),
        m.member("core"@) == Some(JsonTree::Str(x.core@)),
        m.member("tokenizer"@) == Some(JsonTree::Str(x.tokenizer@)),
        m.member("io_threads"@) matches Some(JsonTree::Uint(n)) ==> n <= usize::MAX
            ==> x.io_threads == n,
        m.member("io_threads"@) is None ==> x.io_threads == 4,
        m.member("max_seq"@) matches Some(JsonTree::Uint(n)) ==> n <= usize::MAX ==> x.max_seq == n,
        m.member("max_seq"@) is None ==> x.max_seq == 4096,
        m.member("batch"@) matches Some(JsonTree::Uint(n)) ==> n <= usize::MAX ==> x.batch == n,
        m.member("batch"@) is None ==> x.batch == 1,
        m.member("slots"@) matches Some(JsonTree::Uint(n)) ==> n <= u32::MAX ==> x.slots == n,
        m.member("slots"@) is None ==> x.slots == 32,
        m.member("slots_solo"@) matches Some(JsonTree::Uint(n)) ==> n <= u32::MAX
            ==> x.slots_solo == n,
        m.member("slots_solo"@) is None ==> x.slots_solo == x.slots + x.slots,
        x.direct <==> m.member("direct"@) == Some(JsonTree::Bool(true)),
        x.core_q4 <==> m.member("core_q4"@) == Some(JsonTree::Bool(true)),
        x.ram_gb == given_number(m.member("ram_gb"@)),
        x.min_expert_weight == given_number(m.member("min_expert_weight"@)),
        x.session_ram_gb == given_number(m.member("session_ram_gb"@)),
        m.member("prewarm"@) matches Some(JsonTree::Str(p)) ==> x.prewarm is Some
            && x.prewarm->0@ == p,
        m.member("prewarm"@) is None ==> x.prewarm is None,
        m.member("reserve_mb"@) matches Some(JsonTree::Uint(n)) ==> x.reserve_mb == n,
        m.member("reserve_mb"@) is None ==> x.reserve_mb == (match shared {
            Some(n) => n,
            None => 0,
        }),
{
}

/// Each setting of a model depends on its own member alone.
pub proof fn law_model_settings_are_apart(
    a: JsonTree,
    b: JsonTree,
    shared: Option<u64>,
    xa: ModelSpec,
    xb: ModelSpec,
)
    requires
        xa.reads(a, shared),
        xb.reads(b, shared),
    ensures
        a.member("name"@) == b.member("name"@) ==> xa.name@ == xb.name@,
        a.member("pack"@) == b.member("pack"@) ==> xa.pack@ == xb.pack@,
        a.member("core"@) == b.member("core"@) ==> xa.core@ == xb.core@,
        a.member("tokenizer"@) == b.member("tokenizer"@) ==> xa.tokenizer@ == xb.tokenizer@,
        a.member("io_threads"@) == b.member("io_threads"@) ==> xa.io_threads == xb.io_threads,
        a.member("max_seq"@) == b.member("max_seq"@) ==> xa.max_seq == xb.max_seq,
        a.member("batch"@) == b.member("batch"@) ==> xa.batch == xb.batch,
        a.member("slots"@) == b.member("slots"@) ==> xa.slots == xb.slots,
        a.member("direct"@) == b.member("direct"@) ==> xa.direct == xb.direct,
        a.member("core_q4"@) == b.member("core_q4"@) ==> xa.core_q4 == xb.core_q4,
        a.member("ram_gb"@) == b.member("ram_gb"@) ==> xa.ram_gb == xb.ram_gb,
        a.member("min_expert_weight"@) == b.member("min_expert_weight"@)
            ==> xa.min_expert_weight == xb.min_expert_weight,
        a.member("session_ram_gb"@) == b.member("session_ram_gb"@)
            ==> xa.session_ram_gb == xb.session_ram_gb,
        a.member("reserve_mb"@) == b.member("reserve_mb"@) ==> xa.reserve_mb == xb.reserve_mb,
        a.member("slots_solo"@) == b.member("slots_solo"@)
            && a.member("slots"@) == b.member("slots"@)
            ==> xa.slots_solo == xb.slots_solo,
        a.member("prewarm"@) == b.member("prewarm"@) ==> (xa.prewarm is Some
            <==> xb.prewarm is Some)
            && (xa.prewarm is Some ==> xa.prewarm->0@ == xb.prewarm->0@),
{
}

/// A model needs a name, a pack, a core and a tokenizer, and is refused for the
/// first of them that is no text.
pub proof fn law_model_needs_its_files(m: JsonTree, i: usize)
    ensures
        ({
            let lacks = |key: Seq<char>| !(m.member(key) matches Some(JsonTree::Str(_)));
            &&& model_fault(m, i) == Some(ServerFault::NoName { model: i }) <==> lacks("name"@)
            &&& model_fault(m, i) == Some(ServerFault::NoPack { model: i }) <==> !lacks("name"@)
                && lacks("pack"@)
            &&& model_fault(m, i) == Some(ServerFault::NoCore { model: i }) <==> !lacks("name"@)
                && !lacks("pack"@) && lacks("core"@)
            &&& model_fault(m, i) == Some(ServerFault::NoTokenizer { model: i }) <==> !lacks(
                "name"@,
            ) && !lacks("pack"@) && !lacks("core"@) && lacks("tokenizer"@)
            &&& !lacks("name"@) && !lacks("pack"@) && !lacks("core"@) && !lacks("tokenizer"@)
                && m.member("slots"@) is None ==> model_fault(m, i) is None
        }),
{
}

proof fn lemma_models_fault(models: Seq<JsonTree>, i: nat)
    requires
        i <= models.len(),
    ensures
        models_fault(models, i) is None <==> forall|k: int|
            i <= k < models.len() ==> #[trigger] model_fault(models[k], k as usize) is None,
    decreases models.len() - i,
{
    if i < models.len() {
        lemma_models_fault(models, i + 1);
        if models_fault(models, i) is None {
            assert forall|k: int| i <= k < models.len() implies #[trigger] model_fault(
                models[k],
                k as usize,
            ) is None by {
                if k > i {
                    assert(models_fault(models, i + 1) is None);
                }
            }
        }
    }
}

/// A server's config is in order exactly where it lists models, at least one,
/// and nothing is wrong with any of them.
pub proof fn law_server_needs_sound_models(cfg: JsonTree)
    ensures
        match cfg.member("models"@) {
            Some(JsonTree::Array(models)) => server_fault(cfg) is None <==> models.len() > 0
                && forall|k: int|
                0 <= k < models.len() ==> #[trigger] model_fault(models[k], k as usize) is None,
            _ => server_fault(cfg) == Some(ServerFault::NoModelList),
        },
{
    match cfg.member("models"@) {
        Some(JsonTree::Array(models)) => {
            lemma_models_fault(models, 0);
        },
        _ => {},
    }
}

/// What a server's config says, the server does: its port, how many models may
/// be warm, and every model listed, in order and with the memory to leave free
/// that all models share.
pub proof fn law_server_says_what_is_given(cfg: JsonTree, c: ServerConfig, models: Seq<JsonTree>)
    requires
        c.reads(cfg),
        cfg.member("models"@) == Some(JsonTree::Array(models)),
    ensures
        cfg.member("port"@) matches Some(JsonTree::Uint(n)) ==> n <= u16::MAX ==> c.port == n,
        cfg.member("port"@) is None ==> c.port == 8090,
        cfg.member("max_warm"@) matches Some(JsonTree::Uint(n)) ==> n <= usize::MAX
            ==> c.max_warm == n,
        cfg.member("max_warm"@) is None ==> c.max_warm == 2,
        c.models@.len() == models.len(),
        forall|i: int|
            #![trigger c.models@[i]]
            0 <= i < models.len() ==> {
                &&& models[i].member("name"@) == Some(JsonTree::Str(c.models@[i].name@))
                &&& models[i].member("reserve_mb"@) is None ==> c.models@[i].reserve_mb == (
                match cfg.member("reserve_mb"@) {
                    Some(JsonTree::Uint(n)) => n,
                    _ => 0,
                })
            },
{
    assert forall|i: int| #![trigger c.models@[i]] 0 <= i < models.len() implies {
        &&& models[i].member("name"@) == Some(JsonTree::Str(c.models@[i].name@))
        &&& models[i].member("reserve_mb"@) is None ==> c.models@[i].reserve_mb == (match cfg.member(
            "reserve_mb"@,
        ) {
            Some(JsonTree::Uint(n)) => n,
            _ => 0,
        })
    } by {
        assert(c.models@[i].reads(models[i], cfg.uint_at("reserve_mb"@)));
        assert(models[i].text_at("name"@) == Some(c.models@[i].name@));
    }
}

} // verus!
