//! Model configs, from the Hugging Face config.json that a pack embeds.
//! Integer settings are read here; numbers that end up in floating point are
//! handed on as they were written.

use crate::json::{trees, Json, JsonNumber, JsonTree};
use vstd::prelude::*;

verus! {

/// The config does not give `key`, or not as a non-negative integer.
#[derive(Debug)]
pub enum ConfigError {
    Missing { key: String },
    /// The model has no attention heads.
    NoHeads,
}

/// `key` is a non-negative integer in the config.
pub open spec fn given(v: JsonTree, key: Seq<char>) -> bool {
    v.uint_at(key) is Some
}

/// The setting `key`.
pub open spec fn setting(v: JsonTree, key: Seq<char>) -> usize {
    v.uint_at(key)->0 as usize
}

/// The first of `keys` that the config does not give.
pub open spec fn first_missing(v: JsonTree, keys: Seq<Seq<char>>) -> Option<Seq<char>>
    decreases keys.len(),
{
    if keys.len() == 0 {
        None
    } else if !given(v, keys[0]) {
        Some(keys[0])
    } else {
        first_missing(v, keys.skip(1))
    }
}

/// Reads settings one after the other; after the first that is missing, all
/// read as 0.
struct Settings<'a> {
    v: &'a Json,
    missing: Option<String>,
    keys: Ghost<Seq<Seq<char>>>,
}

impl<'a> Settings<'a> {
    spec fn wf(self) -> bool {
        match self.missing {
            Some(key) => first_missing(self.v@, self.keys@) == Some(key@),
            None => first_missing(self.v@, self.keys@) is None,
        }
    }

    #[verifier::truncate]
    fn need(&mut self, key: &str) -> (n: usize)
        requires
            old(self).wf(),
        ensures
            final(self).wf(),
            final(self).v == old(self).v,
            final(self).keys@ == old(self).keys@.push(key@),
            final(self).missing is None ==> old(self).missing is None && given(
                old(self).v@,
                key@,
            ) && n == setting(old(self).v@, key@),
    {
        let found: Option<u64> = self.v.get_u64(key);
        proof {
            lemma_missing_push(self.v@, self.keys@, key@);
            self.keys@ = self.keys@.push(key@);
        }
        if self.missing.is_some() {
            return 0;
        }
        match found {
            Some(n) => n as usize,
            None => {
                self.missing = Some(key.to_owned());
                0
            },
        }
    }
}

proof fn lemma_missing_push(v: JsonTree, keys: Seq<Seq<char>>, key: Seq<char>)
    ensures
        first_missing(v, keys.push(key)) == (match first_missing(v, keys) {
            Some(k) => Some(k),
            None => if given(v, key) {
                None
            } else {
                Some(key)
            },
        }),
    decreases keys.len(),
{
    if keys.len() == 0 {
        assert(keys.push(key).skip(1) =~= Seq::<Seq<char>>::empty());
        assert(first_missing(v, keys.push(key).skip(1)) is None);
    } else {
        lemma_missing_push(v, keys.skip(1), key);
        assert(keys.push(key).skip(1) =~= keys.skip(1).push(key));
    }
}

/// The token ids in a list.
pub open spec fn ids_in(items: Seq<JsonTree>) -> Seq<u32>
    decreases items.len(),
{
    if items.len() == 0 {
        Seq::empty()
    } else {
        match items.last().as_uint() {
            Some(n) => ids_in(items.drop_last()).push(n as u32),
            None => ids_in(items.drop_last()),
        }
    }
}

/// The end-of-sequence tokens: one id, or a list of ids.
pub open spec fn eos_ids(v: JsonTree) -> Seq<u32> {
    match v.member("eos_token_id"@) {
        Some(JsonTree::Uint(n)) => seq![n as u32],
        Some(JsonTree::Array(items)) => ids_in(items),
        _ => Seq::empty(),
    }
}

#[verifier::truncate]
fn read_eos(v: &Json) -> (eos: Vec<u32>)
    ensures
        eos@ == eos_ids(v@),
{
    let mut eos: Vec<u32> = Vec::new();
    match v.get("eos_token_id") {
        Some(Json::Uint(n)) => {
            eos.push(*n as u32);
            assert(eos@ =~= eos_ids(v@));
        },
        Some(Json::Array(items)) => {
            let ghost all = trees(items@);
            let mut i: usize = 0;
            assert(all.take(0) =~= Seq::<JsonTree>::empty());
            while i < items.len()
                invariant
                    i <= items@.len(),
                    all == trees(items@),
                    eos@ == ids_in(all.take(i as int)),
                decreases items@.len() - i,
            {
                assert(all[i as int] == items@[i as int]@);
                assert(all.take(i + 1).drop_last() =~= all.take(i as int));
                assert(all.take(i + 1).last() == all[i as int]);
                if let Some(n) = items[i].as_u64() {
                    eos.push(n as u32);
                }
                i += 1;
            }
            assert(all.take(i as int) =~= all);
        },
        _ => {},
    }
    eos
}

#[derive(Debug)]
pub struct Config {
    pub hidden: usize,
    pub layers: usize,
    pub heads: usize,
    pub kv_heads: usize,
    pub head_dim: usize,
    pub moe_inter: usize,
    pub experts: usize,
    pub top_k: usize,
    pub norm_topk_prob: bool,
    /// `rms_norm_eps`, as given.
    pub rms_eps: Option<JsonNumber>,
    /// `rope_theta`, as given.
    pub rope_theta: Option<JsonNumber>,
    pub vocab: usize,
    pub eos: Vec<u32>,
}

/// The settings that a Qwen3-MoE config must give.
pub open spec fn config_keys() -> Seq<Seq<char>> {
    Seq::<Seq<char>>::empty().push("num_attention_heads"@).push("hidden_size"@).push(
        "num_hidden_layers"@,
    ).push("num_key_value_heads"@).push("moe_intermediate_size"@).push("num_experts"@).push(
        "num_experts_per_tok"@,
    ).push("vocab_size"@)
}

impl Config {
    pub open spec fn reads(self, v: JsonTree) -> bool {
        &&& self.hidden == setting(v, "hidden_size"@)
        &&& self.layers == setting(v, "num_hidden_layers"@)
        &&& self.heads == setting(v, "num_attention_heads"@)
        &&& self.heads > 0
        &&& self.kv_heads == setting(v, "num_key_value_heads"@)
        &&& self.head_dim == (match v.uint_at("head_dim"@) {
            Some(n) => n as usize,
            None => self.hidden / self.heads,
        })
        &&& self.moe_inter == setting(v, "moe_intermediate_size"@)
        &&& self.experts == setting(v, "num_experts"@)
        &&& self.top_k == setting(v, "num_experts_per_tok"@)
        &&& self.norm_topk_prob == (v.flag_at("norm_topk_prob"@) == Some(true))
        &&& self.rms_eps == v.number_at("rms_norm_eps"@)
        &&& self.rope_theta == v.number_at("rope_theta"@)
        &&& self.vocab == setting(v, "vocab_size"@)
        &&& self.eos@ == eos_ids(v)
    }

    #[verifier::truncate]
    pub fn from_json(v: &Json) -> (cfg: Result<Self, ConfigError>)
        ensures
            match cfg {
                Ok(cfg) => first_missing(v@, config_keys()) is None && cfg.reads(v@),
                Err(ConfigError::Missing { key }) => first_missing(v@, config_keys()) == Some(key@),
                Err(ConfigError::NoHeads) => {
                    &&& first_missing(v@, config_keys()) is None
                    &&& setting(v@, "num_attention_heads"@) == 0
                },
            },
    {
        let mut s = Settings { v, missing: None, keys: Ghost(Seq::empty()) };
        let heads: usize = s.need("num_attention_heads");
        let hidden: usize = s.need("hidden_size");
        let layers: usize = s.need("num_hidden_layers");
        let kv_heads: usize = s.need("num_key_value_heads");
        let moe_inter: usize = s.need("moe_intermediate_size");
        let experts: usize = s.need("num_experts");
        let top_k: usize = s.need("num_experts_per_tok");
        let vocab: usize = s.need("vocab_size");
        assert(s.keys@ == config_keys());
        if let Some(key) = s.missing {
            return Err(ConfigError::Missing { key });
        }
        if heads == 0 {
            return Err(ConfigError::NoHeads);
        }
        let head_dim: usize = match v.get_u64("head_dim") {
            Some(n) => n as usize,
            None => hidden / heads,
        };
        let norm_topk_prob: bool = match v.get_bool("norm_topk_prob") {
            Some(b) => b,
            None => false,
        };
        Ok(
            Config {
                hidden,
                layers,
                heads,
                kv_heads,
                head_dim,
                moe_inter,
                experts,
                top_k,
                norm_topk_prob,
                rms_eps: v.get_number("rms_norm_eps"),
                rope_theta: v.get_number("rope_theta"),
                vocab,
                eos: read_eos(v),
            },
        )
    }
}

/// The YaRN settings of a config, as given.
#[derive(Debug, Clone, Copy, PartialEq, Eq, Structural)]
pub struct Yarn {
    pub factor: Option<JsonNumber>,
    pub beta_fast: Option<JsonNumber>,
    pub beta_slow: Option<JsonNumber>,
    pub original_max_position_embeddings: Option<JsonNumber>,
    pub mscale_all_dim: Option<JsonNumber>,
}

/// The YaRN settings of a config whose `rope_scaling` is of that type.
pub open spec fn yarn_of(v: JsonTree) -> Option<Yarn> {
    match v.member("rope_scaling"@) {
        Some(rs) => if rs.text_at("type"@) == Some("yarn"@) {
            Some(
                Yarn {
                    factor: rs.number_at("factor"@),
                    beta_fast: rs.number_at("beta_fast"@),
                    beta_slow: rs.number_at("beta_slow"@),
                    original_max_position_embeddings: rs.number_at(
                        "original_max_position_embeddings"@,
                    ),
                    mscale_all_dim: rs.number_at("mscale_all_dim"@),
                },
            )
        } else {
            None
        },
        None => None,
    }
}

fn read_yarn(v: &Json) -> (yarn: Option<Yarn>)
    ensures
        yarn == yarn_of(v@),
{
    match v.get("rope_scaling") {
        Some(rs) => match rs.get_str("type") {
            Some(t) => if crate::text::same_text(t, "yarn") {
                Some(
                    Yarn {
                        factor: rs.get_number("factor"),
                        beta_fast: rs.get_number("beta_fast"),
                        beta_slow: rs.get_number("beta_slow"),
                        original_max_position_embeddings: rs.get_number(
                            "original_max_position_embeddings",
                        ),
                        mscale_all_dim: rs.get_number("mscale_all_dim"),
                    },
                )
            } else {
                None
            },
            None => None,
        },
        None => None,
    }
}

#[derive(Debug)]
pub struct KimiConfig {
    pub hidden: usize,
    pub layers: usize,
    pub dense_layers: usize,
    pub heads: usize,
    pub q_lora: usize,
    pub kv_lora: usize,
    pub nope: usize,
    pub rope: usize,
    pub v_head: usize,
    pub moe_inter: usize,
    pub dense_inter: usize,
    pub experts: usize,
    pub top_k: usize,
    /// `routed_scaling_factor`, as given.
    pub routed_scaling: Option<JsonNumber>,
    pub norm_topk_prob: bool,
    /// `rms_norm_eps`, as given.
    pub rms_eps: Option<JsonNumber>,
    /// `rope_theta`, as given.
    pub rope_theta: Option<JsonNumber>,
    /// How rotary frequencies are blended for long contexts.
    pub yarn: Option<Yarn>,
    pub vocab: usize,
    pub eos: Vec<u32>,
}

/// The settings that a Kimi config must give.
pub open spec fn kimi_keys() -> Seq<Seq<char>> {
    Seq::<Seq<char>>::empty().push("qk_nope_head_dim"@).push("qk_rope_head_dim"@).push(
        "hidden_size"@,
    ).push("num_hidden_layers"@).push("num_attention_heads"@).push("q_lora_rank"@).push(
        "kv_lora_rank"@,
    ).push("v_head_dim"@).push("moe_intermediate_size"@).push("intermediate_size"@).push(
        "n_routed_experts"@,
    ).push("num_experts_per_tok"@).push("vocab_size"@)
}

/// How many layers at the front are dense.
pub open spec fn dense_layers_of(v: JsonTree) -> usize {
    match (v.uint_at("moe_layer_offset"@), v.uint_at("first_k_dense_replace"@)) {
        (Some(n), _) => n as usize,
        (None, Some(n)) => n as usize,
        _ => 0,
    }
}

impl KimiConfig {
    /// Whether a config is of this family.
    pub fn is_kimi(cfg: &Json) -> (yes: bool)
        ensures
            yes == kimi_family(cfg@),
    {
        match cfg.get("kv_lora_rank") {
            None => false,
            Some(Json::Null) => false,
            Some(_) => true,
        }
    }

    pub open spec fn reads(self, v: JsonTree) -> bool {
        &&& self.hidden == setting(v, "hidden_size"@)
        &&& self.layers == setting(v, "num_hidden_layers"@)
        &&& self.dense_layers == dense_layers_of(v)
        &&& self.heads == setting(v, "num_attention_heads"@)
        &&& self.q_lora == setting(v, "q_lora_rank"@)
        &&& self.kv_lora == setting(v, "kv_lora_rank"@)
        &&& self.nope == setting(v, "qk_nope_head_dim"@)
        &&& self.rope == setting(v, "qk_rope_head_dim"@)
        &&& self.v_head == setting(v, "v_head_dim"@)
        &&& self.moe_inter == setting(v, "moe_intermediate_size"@)
        &&& self.dense_inter == setting(v, "intermediate_size"@)
        &&& self.experts == setting(v, "n_routed_experts"@)
        &&& self.top_k == setting(v, "num_experts_per_tok"@)
        &&& self.routed_scaling == v.number_at("routed_scaling_factor"@)
        &&& self.norm_topk_prob == (v.flag_at("norm_topk_prob"@) != Some(false))
        &&& self.rms_eps == v.number_at("rms_norm_eps"@)
        &&& self.rope_theta == v.number_at("rope_theta"@)
        &&& self.yarn == yarn_of(v)
        &&& self.vocab == setting(v, "vocab_size"@)
        &&& self.eos@ == eos_ids(v)
    }

    #[verifier::truncate]
    pub fn from_json(v: &Json) -> (cfg: Result<Self, ConfigError>)
        ensures
            match cfg {
                Ok(cfg) => first_missing(v@, kimi_keys()) is None && cfg.reads(v@),
                Err(ConfigError::Missing { key }) => first_missing(v@, kimi_keys()) == Some(key@),
                Err(ConfigError::NoHeads) => false,
            },
    {
        let mut s = Settings { v, missing: None, keys: Ghost(Seq::empty()) };
        let nope: usize = s.need("qk_nope_head_dim");
        let rope: usize = s.need("qk_rope_head_dim");
        let hidden: usize = s.need("hidden_size");
        let layers: usize = s.need("num_hidden_layers");
        let heads: usize = s.need("num_attention_heads");
        let q_lora: usize = s.need("q_lora_rank");
        let kv_lora: usize = s.need("kv_lora_rank");
        let v_head: usize = s.need("v_head_dim");
        let moe_inter: usize = s.need("moe_intermediate_size");
        let dense_inter: usize = s.need("intermediate_size");
        let experts: usize = s.need("n_routed_experts");
        let top_k: usize = s.need("num_experts_per_tok");
        let vocab: usize = s.need("vocab_size");
        assert(s.keys@ == kimi_keys());
        if let Some(key) = s.missing {
            return Err(ConfigError::Missing { key });
        }
        let dense_layers: usize = match v.get_u64("moe_layer_offset") {
            Some(n) => n as usize,
            None => match v.get_u64("first_k_dense_replace") {
                Some(n) => n as usize,
                None => 0,
            },
        };
        let norm_topk_prob: bool = match v.get_bool("norm_topk_prob") {
            Some(b) => b,
            None => true,
        };
        Ok(
            KimiConfig {
                hidden,
                layers,
                dense_layers,
                heads,
                q_lora,
                kv_lora,
                nope,
                rope,
                v_head,
                moe_inter,
                dense_inter,
                experts,
                top_k,
                routed_scaling: v.get_number("routed_scaling_factor"),
                norm_topk_prob,
                rms_eps: v.get_number("rms_norm_eps"),
                rope_theta: v.get_number("rope_theta"),
                yarn: read_yarn(v),
                vocab,
                eos: read_eos(v),
            },
        )
    }

    /// Whether a pack with `pack_layers` layers holds this model's experts:
    /// those of every layer that is not dense.
    pub fn fits_pack(&self, pack_layers: u16) -> (yes: bool)
        ensures
            yes == (self.layers - self.dense_layers == pack_layers),
    {
        self.dense_layers <= self.layers && self.layers - self.dense_layers == pack_layers as usize
    }
}

/// Whether a config is of the Kimi family: it has a `kv_lora_rank`.
pub open spec fn kimi_family(v: JsonTree) -> bool {
    match v.member("kv_lora_rank"@) {
        None => false,
        Some(JsonTree::Null) => false,
        Some(_) => true,
    }
}

/// Values per scale that a pack's dtype stands for.
pub open spec fn group_of(dtype: Seq<char>) -> Option<i32> {
    if dtype == "q4g64-gud"@ {
        Some(64)
    } else if dtype == "q4g32-gud"@ {
        Some(32)
    } else {
        None
    }
}

/// Values per scale of a pack's experts; `None` for a dtype that cannot be
/// decoded.
pub fn expert_group(dtype: &str) -> (group: Option<i32>)
    ensures
        group == group_of(dtype@),
{
    if crate::text::same_text(dtype, "q4g64-gud") {
        Some(64)
    } else if crate::text::same_text(dtype, "q4g32-gud") {
        Some(32)
    } else {
        None
    }
}

} // verus!
