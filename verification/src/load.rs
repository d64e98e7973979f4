//! What the resident core is loaded from: which tensors, of which shapes, and
//! how each goes to the device.

use crate::bytes::{
    law_le_bytes_of_value, le_bytes, le_value, lemma_span_values, push_le, read_le,
};
use crate::config::{Config, KimiConfig};
use crate::quant::GROUP;
use crate::st::{float_type, float_width, TensorInfo};
use crate::text::{decimal, push_decimal, same_text};
use vstd::prelude::*;
use vstd::string::*;

verus! {

/// How a tensor goes to the device.
#[derive(Debug, Clone, Copy, PartialEq, Eq, Structural)]
pub enum Load {
    /// A vector of `n` numbers, as f32.
    Norm { n: usize },
    /// A matrix: bf16 verbatim, or requantized to q4g64 where that is asked
    /// for and its rows are whole groups.
    Matrix { rows: usize, cols: usize },
    /// A matrix that is always bf16 verbatim.
    Bf16 { rows: usize, cols: usize },
    /// A matrix that is always requantized to q4g64.
    Quantized { rows: usize, cols: usize },
    /// The kv_b projection, split and reordered into its absorbed forms.
    Absorbed { rows: usize, cols: usize },
    /// The router's selection bias, which stays on the host.
    Bias,
}

/// One tensor to load.
#[derive(Debug)]
pub struct LoadItem {
    pub name: String,
    pub what: Load,
}

pub open spec fn item_views(items: Seq<LoadItem>) -> Seq<(Seq<char>, Load)> {
    Seq::new(items.len(), |i: int| (items[i].name@, items[i].what))
}

/// The name of a tensor of layer `l`.
pub open spec fn layer_tensor(l: nat, rest: Seq<char>) -> Seq<char> {
    "model.layers."@ + decimal(l) + "."@ + rest
}

fn layer_item(l: u64, rest: &str, what: Load) -> (item: LoadItem)
    ensures
        item.name@ == layer_tensor(l as nat, rest@),
        item.what == what,
{
    let mut name: String = String::from_str("model.layers.");
    push_decimal(&mut name, l);
    name.append(".");
    name.append(rest);
    LoadItem { name, what }
}

fn item(name: &str, what: Load) -> (item: LoadItem)
    ensures
        item.name@ == name@,
        item.what == what,
{
    LoadItem { name: name.to_owned(), what }
}

impl Config {
    /// The products of dimensions that tensors have as rows and columns fit
    /// the machine.
    pub open spec fn sized(self) -> bool {
        self.heads * self.head_dim <= usize::MAX && self.kv_heads * self.head_dim <= usize::MAX
    }

    /// The tensors of layer `l`.
    pub open spec fn layer_load(self, l: nat) -> Seq<(Seq<char>, Load)> {
        let cfg = self;
        let qkv = (cfg.heads * cfg.head_dim) as usize;
        let kv = (cfg.kv_heads * cfg.head_dim) as usize;
        seq![
            (layer_tensor(l, "input_layernorm.weight"@), Load::Norm { n: cfg.hidden }),
            (
                layer_tensor(l, "self_attn.q_proj.weight"@),
                Load::Matrix { rows: qkv, cols: cfg.hidden },
            ),
            (
                layer_tensor(l, "self_attn.k_proj.weight"@),
                Load::Matrix { rows: kv, cols: cfg.hidden },
            ),
            (
                layer_tensor(l, "self_attn.v_proj.weight"@),
                Load::Matrix { rows: kv, cols: cfg.hidden },
            ),
            (
                layer_tensor(l, "self_attn.o_proj.weight"@),
                Load::Matrix { rows: cfg.hidden, cols: qkv },
            ),
            (layer_tensor(l, "self_attn.q_norm.weight"@), Load::Norm { n: cfg.head_dim }),
            (layer_tensor(l, "self_attn.k_norm.weight"@), Load::Norm { n: cfg.head_dim }),
            (layer_tensor(l, "post_attention_layernorm.weight"@), Load::Norm { n: cfg.hidden }),
            (
                layer_tensor(l, "mlp.gate.weight"@),
                Load::Matrix { rows: cfg.experts, cols: cfg.hidden },
            ),
        ]
    }

    /// The tensors of the first `n` layers.
    pub open spec fn layers_load(self, n: nat) -> Seq<(Seq<char>, Load)>
        decreases n,
    {
        if n == 0 {
            Seq::empty()
        } else {
            self.layers_load((n - 1) as nat) + self.layer_load((n - 1) as nat)
        }
    }

    /// Every tensor of the core; an output projection only where the embedding
    /// is not tied to it.
    pub open spec fn core_load(self, tied: bool) -> Seq<(Seq<char>, Load)> {
        let embed = seq![
            (
                "model.embed_tokens.weight"@,
                Load::Bf16 { rows: self.vocab, cols: self.hidden },
            ),
        ];
        let head = seq![
            ("lm_head.weight"@, Load::Matrix { rows: self.vocab, cols: self.hidden }),
        ];
        let norm = seq![("model.norm.weight"@, Load::Norm { n: self.hidden })];
        if tied {
            self.layers_load(self.layers as nat) + embed + norm
        } else {
            self.layers_load(self.layers as nat) + embed + head + norm
        }
    }

    /// Whether the products of dimensions fit the machine.
    pub fn fits_machine(&self) -> (yes: bool)
        ensures
            yes == self.sized(),
    {
        self.heads.checked_mul(self.head_dim).is_some() && self.kv_heads.checked_mul(
            self.head_dim,
        ).is_some()
    }

    /// Every tensor of the core, in loading order.
    pub fn load_items(&self, tied: bool) -> (items: Vec<LoadItem>)
        requires
            self.sized(),
        ensures
            item_views(items@) == self.core_load(tied),
    {
        let cfg = self;
        assert(0 <= cfg.heads * cfg.head_dim && 0 <= cfg.kv_heads * cfg.head_dim)
            by (nonlinear_arith)
            requires
                0 <= cfg.heads,
                0 <= cfg.kv_heads,
                0 <= cfg.head_dim,
        ;
        let qkv: usize = cfg.heads * cfg.head_dim;
        let kv: usize = cfg.kv_heads * cfg.head_dim;
        let mut items: Vec<LoadItem> = Vec::new();
        let mut l: usize = 0;
        assert(item_views(items@) =~= self.layers_load(0));
        while l < cfg.layers
            invariant
                cfg == self,
                l <= cfg.layers,
                qkv == cfg.heads * cfg.head_dim,
                kv == cfg.kv_heads * cfg.head_dim,
                item_views(items@) == self.layers_load(l as nat),
            decreases cfg.layers - l,
        {
            let ghost before = items@;
            qwen_layer(&mut items, cfg, l as u64, qkv, kv);
            l += 1;
        }
        items.push(
            item("model.embed_tokens.weight", Load::Bf16 { rows: cfg.vocab, cols: cfg.hidden }),
        );
        if !tied {
            items.push(
                item("lm_head.weight", Load::Matrix { rows: cfg.vocab, cols: cfg.hidden }),
            );
        }
        items.push(item("model.norm.weight", Load::Norm { n: cfg.hidden }));
        assert(item_views(items@) =~= self.core_load(tied));
        items
    }
}

fn qwen_layer(items: &mut Vec<LoadItem>, cfg: &Config, l: u64, qkv: usize, kv: usize)
    requires
        qkv == cfg.heads * cfg.head_dim,
        kv == cfg.kv_heads * cfg.head_dim,
    ensures
        item_views(final(items)@) == item_views(old(items)@) + cfg.layer_load(l as nat),
{
    items.push(layer_item(l, "input_layernorm.weight", Load::Norm { n: cfg.hidden }));
    items.push(
        layer_item(l, "self_attn.q_proj.weight", Load::Matrix { rows: qkv, cols: cfg.hidden }),
    );
    items.push(
        layer_item(l, "self_attn.k_proj.weight", Load::Matrix { rows: kv, cols: cfg.hidden }),
    );
    items.push(
        layer_item(l, "self_attn.v_proj.weight", Load::Matrix { rows: kv, cols: cfg.hidden }),
    );
    items.push(
        layer_item(l, "self_attn.o_proj.weight", Load::Matrix { rows: cfg.hidden, cols: qkv }),
    );
    items.push(layer_item(l, "self_attn.q_norm.weight", Load::Norm { n: cfg.head_dim }));
    items.push(layer_item(l, "self_attn.k_norm.weight", Load::Norm { n: cfg.head_dim }));
    items.push(layer_item(l, "post_attention_layernorm.weight", Load::Norm { n: cfg.hidden }));
    items.push(
        layer_item(l, "mlp.gate.weight", Load::Matrix { rows: cfg.experts, cols: cfg.hidden }),
    );
    assert(item_views(items@) =~= item_views(old(items)@) + cfg.layer_load(l as nat));
}

impl KimiConfig {
    /// The products and sums of dimensions that tensors have as rows and
    /// columns fit the machine.
    pub open spec fn sized(self) -> bool {
        &&& self.heads * (self.nope + self.v_head) <= usize::MAX
        &&& self.heads * (self.nope + self.rope) <= usize::MAX
        &&& self.nope + self.v_head <= usize::MAX
        &&& self.nope + self.rope <= usize::MAX
        &&& self.kv_lora + self.rope <= usize::MAX
        &&& self.heads * self.v_head <= usize::MAX
    }

    /// The feed-forward tensors of layer `l`.
    pub open spec fn ffn_load(self, l: nat) -> Seq<(Seq<char>, Load)> {
        let cfg = self;
        if l < cfg.dense_layers {
            seq![
                (
                    layer_tensor(l, "mlp.gate_proj.weight"@),
                    Load::Quantized { rows: cfg.dense_inter, cols: cfg.hidden },
                ),
                (
                    layer_tensor(l, "mlp.up_proj.weight"@),
                    Load::Quantized { rows: cfg.dense_inter, cols: cfg.hidden },
                ),
                (
                    layer_tensor(l, "mlp.down_proj.weight"@),
                    Load::Quantized { rows: cfg.hidden, cols: cfg.dense_inter },
                ),
            ]
        } else {
            seq![
                (
                    layer_tensor(l, "mlp.gate.weight"@),
                    Load::Bf16 { rows: cfg.experts, cols: cfg.hidden },
                ),
                (layer_tensor(l, "mlp.gate.e_score_correction_bias"@), Load::Bias),
                (
                    layer_tensor(l, "mlp.shared_experts.gate_proj.weight"@),
                    Load::Quantized { rows: cfg.moe_inter, cols: cfg.hidden },
                ),
                (
                    layer_tensor(l, "mlp.shared_experts.up_proj.weight"@),
                    Load::Quantized { rows: cfg.moe_inter, cols: cfg.hidden },
                ),
                (
                    layer_tensor(l, "mlp.shared_experts.down_proj.weight"@),
                    Load::Quantized { rows: cfg.hidden, cols: cfg.moe_inter },
                ),
            ]
        }
    }

    /// The attention tensors and norms of layer `l`, but for kv_b.
    pub open spec fn attention_load(self, l: nat) -> Seq<(Seq<char>, Load)> {
        let cfg = self;
        let qb = (cfg.heads * (cfg.nope + cfg.rope)) as usize;
        let kva = (cfg.kv_lora + cfg.rope) as usize;
        let ov = (cfg.heads * cfg.v_head) as usize;
        seq![
            (layer_tensor(l, "input_layernorm.weight"@), Load::Norm { n: cfg.hidden }),
            (layer_tensor(l, "post_attention_layernorm.weight"@), Load::Norm { n: cfg.hidden }),
            (
                layer_tensor(l, "self_attn.q_a_proj.weight"@),
                Load::Quantized { rows: cfg.q_lora, cols: cfg.hidden },
            ),
            (layer_tensor(l, "self_attn.q_a_layernorm.weight"@), Load::Norm { n: cfg.q_lora }),
            (
                layer_tensor(l, "self_attn.q_b_proj.weight"@),
                Load::Quantized { rows: qb, cols: cfg.q_lora },
            ),
            (
                layer_tensor(l, "self_attn.kv_a_proj_with_mqa.weight"@),
                Load::Quantized { rows: kva, cols: cfg.hidden },
            ),
            (layer_tensor(l, "self_attn.kv_a_layernorm.weight"@), Load::Norm { n: cfg.kv_lora }),
            (
                layer_tensor(l, "self_attn.o_proj.weight"@),
                Load::Quantized { rows: cfg.hidden, cols: ov },
            ),
        ]
    }

    /// The tensors of layer `l`.
    pub open spec fn layer_load(self, l: nat) -> Seq<(Seq<char>, Load)> {
        let rows = (self.heads * (self.nope + self.v_head)) as usize;
        seq![
            (
                layer_tensor(l, "self_attn.kv_b_proj.weight"@),
                Load::Absorbed { rows, cols: self.kv_lora },
            ),
        ] + self.ffn_load(l) + self.attention_load(l)
    }

    /// The tensors of the first `n` layers.
    pub open spec fn layers_load(self, n: nat) -> Seq<(Seq<char>, Load)>
        decreases n,
    {
        if n == 0 {
            Seq::empty()
        } else {
            self.layers_load((n - 1) as nat) + self.layer_load((n - 1) as nat)
        }
    }

    /// Every tensor of the core. The embedding table stays on the host.
    pub open spec fn core_load(self) -> Seq<(Seq<char>, Load)> {
        self.layers_load(self.layers as nat) + seq![
            (
                "model.embed_tokens.weight"@,
                Load::Bf16 { rows: self.vocab, cols: self.hidden },
            ),
            ("model.norm.weight"@, Load::Norm { n: self.hidden }),
            ("lm_head.weight"@, Load::Quantized { rows: self.vocab, cols: self.hidden }),
        ]
    }

    /// Whether the products and sums of dimensions fit the machine.
    pub fn fits_machine(&self) -> (yes: bool)
        ensures
            yes == self.sized(),
    {
        let kvb: Option<usize> = match self.nope.checked_add(self.v_head) {
            Some(n) => self.heads.checked_mul(n),
            None => None,
        };
        let qb: Option<usize> = match self.nope.checked_add(self.rope) {
            Some(n) => self.heads.checked_mul(n),
            None => None,
        };
        kvb.is_some() && qb.is_some() && self.kv_lora.checked_add(self.rope).is_some()
            && self.heads.checked_mul(self.v_head).is_some()
    }

    /// Every tensor of the core, in loading order.
    pub fn load_items(&self) -> (items: Vec<LoadItem>)
        requires
            self.sized(),
        ensures
            item_views(items@) == self.core_load(),
    {
        let mut items: Vec<LoadItem> = Vec::new();
        let mut l: usize = 0;
        assert(item_views(items@) =~= self.layers_load(0));
        while l < self.layers
            invariant
                self.sized(),
                l <= self.layers,
                item_views(items@) == self.layers_load(l as nat),
            decreases self.layers - l,
        {
            kimi_layer(&mut items, self, l);
            l += 1;
        }
        items.push(
            item("model.embed_tokens.weight", Load::Bf16 { rows: self.vocab, cols: self.hidden }),
        );
        items.push(item("model.norm.weight", Load::Norm { n: self.hidden }));
        items.push(
            item("lm_head.weight", Load::Quantized { rows: self.vocab, cols: self.hidden }),
        );
        assert(item_views(items@) =~= self.core_load());
        items
    }
}

fn kimi_layer(items: &mut Vec<LoadItem>, cfg: &KimiConfig, layer: usize)
    requires
        cfg.sized(),
    ensures
        item_views(final(items)@) == item_views(old(items)@) + cfg.layer_load(layer as nat),
{
    assert(0 <= cfg.heads * (cfg.nope + cfg.v_head) && 0 <= cfg.heads * (cfg.nope + cfg.rope) && 0
        <= cfg.heads * cfg.v_head) by (nonlinear_arith)
        requires
            0 <= cfg.heads,
            0 <= cfg.nope,
            0 <= cfg.rope,
            0 <= cfg.v_head,
    ;
    let l: u64 = layer as u64;
    let kvb: usize = cfg.heads * (cfg.nope + cfg.v_head);
    let qb: usize = cfg.heads * (cfg.nope + cfg.rope);
    let kva: usize = cfg.kv_lora + cfg.rope;
    let ov: usize = cfg.heads * cfg.v_head;
    let ghost start = item_views(items@);
    items.push(
        layer_item(
            l,
            "self_attn.kv_b_proj.weight",
            Load::Absorbed { rows: kvb, cols: cfg.kv_lora },
        ),
    );
    let ghost first = item_views(items@);
    if layer < cfg.dense_layers {
        items.push(
            layer_item(
                l,
                "mlp.gate_proj.weight",
                Load::Quantized { rows: cfg.dense_inter, cols: cfg.hidden },
            ),
        );
        items.push(
            layer_item(
                l,
                "mlp.up_proj.weight",
                Load::Quantized { rows: cfg.dense_inter, cols: cfg.hidden },
            ),
        );
        items.push(
            layer_item(
                l,
                "mlp.down_proj.weight",
                Load::Quantized { rows: cfg.hidden, cols: cfg.dense_inter },
            ),
        );
    } else {
        items.push(
            layer_item(l, "mlp.gate.weight", Load::Bf16 { rows: cfg.experts, cols: cfg.hidden }),
        );
        items.push(layer_item(l, "mlp.gate.e_score_correction_bias", Load::Bias));
        items.push(
            layer_item(
                l,
                "mlp.shared_experts.gate_proj.weight",
                Load::Quantized { rows: cfg.moe_inter, cols: cfg.hidden },
            ),
        );
        items.push(
            layer_item(
                l,
                "mlp.shared_experts.up_proj.weight",
                Load::Quantized { rows: cfg.moe_inter, cols: cfg.hidden },
            ),
        );
        items.push(
            layer_item(
                l,
                "mlp.shared_experts.down_proj.weight",
                Load::Quantized { rows: cfg.hidden, cols: cfg.moe_inter },
            ),
        );
    }
    let ghost second = item_views(items@);
    assert(second =~= first + cfg.ffn_load(l as nat));
    items.push(layer_item(l, "input_layernorm.weight", Load::Norm { n: cfg.hidden }));
    items.push(layer_item(l, "post_attention_layernorm.weight", Load::Norm { n: cfg.hidden }));
    items.push(
        layer_item(
            l,
            "self_attn.q_a_proj.weight",
            Load::Quantized { rows: cfg.q_lora, cols: cfg.hidden },
        ),
    );
    items.push(layer_item(l, "self_attn.q_a_layernorm.weight", Load::Norm { n: cfg.q_lora }));
    items.push(
        layer_item(l, "self_attn.q_b_proj.weight", Load::Quantized { rows: qb, cols: cfg.q_lora }),
    );
    items.push(
        layer_item(
            l,
            "self_attn.kv_a_proj_with_mqa.weight",
            Load::Quantized { rows: kva, cols: cfg.hidden },
        ),
    );
    items.push(layer_item(l, "self_attn.kv_a_layernorm.weight", Load::Norm { n: cfg.kv_lora }));
    items.push(
        layer_item(l, "self_attn.o_proj.weight", Load::Quantized { rows: cfg.hidden, cols: ov }),
    );
    assert(item_views(items@) =~= second + cfg.attention_load(l as nat));
    assert(item_views(items@) =~= start + cfg.layer_load(l as nat));
}

/// In which form a tensor goes to the device.
#[derive(Debug, Clone, Copy, PartialEq, Eq, Structural)]
pub enum Encoding {
    F32,
    Bf16,
    Q4,
    Absorbed,
}

/// Why a tensor cannot be loaded.
#[derive(Debug, Clone, Copy, PartialEq, Eq, Structural)]
pub enum LoadError {
    /// Not of a number format that can be loaded this way.
    Dtype,
    /// Not of the expected shape.
    Shape,
    /// Not as long as expected.
    Size,
    /// Rows that are not whole groups.
    PartialGroup,
}

/// How many whole numbers `len` bytes of a dtype hold.
pub open spec fn numbers_in(dtype: Seq<char>, len: nat) -> Option<nat> {
    match float_type(dtype) {
        Some(t) => Some(len / float_width(t)),
        None => None,
    }
}

/// The checks on a matrix that is converted on the host.
pub open spec fn converted(
    dtype: Seq<char>,
    shape: Seq<usize>,
    len: nat,
    rows: usize,
    cols: usize,
    to: Encoding,
) -> Result<Encoding, LoadError> {
    match numbers_in(dtype, len) {
        None => Err(LoadError::Dtype),
        Some(n) => if !(shape.len() == 2 && shape[0] == rows && shape[1] == cols) {
            Err(LoadError::Shape)
        } else if to == Encoding::Q4 && cols % GROUP != 0 {
            Err(LoadError::PartialGroup)
        } else if n != rows * cols {
            Err(LoadError::Size)
        } else {
            Ok(to)
        },
    }
}

/// The checks on a matrix that goes to the device as it is.
pub open spec fn verbatim(dtype: Seq<char>, len: nat, rows: usize, cols: usize) -> Result<
    Encoding,
    LoadError,
> {
    if dtype != "BF16"@ {
        Err(LoadError::Dtype)
    } else if len != rows * cols * 2 {
        Err(LoadError::Size)
    } else {
        Ok(Encoding::Bf16)
    }
}

/// In which form a tensor of `len` bytes goes to the device, or why it cannot.
pub open spec fn load_form(
    what: Load,
    dtype: Seq<char>,
    shape: Seq<usize>,
    len: nat,
    core_q4: bool,
) -> Result<Encoding, LoadError> {
    match what {
        Load::Norm { n } => match numbers_in(dtype, len) {
            None => Err(LoadError::Dtype),
            Some(k) => if k != n {
                Err(LoadError::Size)
            } else {
                Ok(Encoding::F32)
            },
        },
        Load::Matrix { rows, cols } => if core_q4 && cols % GROUP == 0 {
            converted(dtype, shape, len, rows, cols, Encoding::Q4)
        } else {
            verbatim(dtype, len, rows, cols)
        },
        Load::Bf16 { rows, cols } => verbatim(dtype, len, rows, cols),
        Load::Quantized { rows, cols } => converted(dtype, shape, len, rows, cols, Encoding::Q4),
        Load::Absorbed { rows, cols } => converted(
            dtype,
            shape,
            len,
            rows,
            cols,
            Encoding::Absorbed,
        ),
        Load::Bias => match numbers_in(dtype, len) {
            None => Err(LoadError::Dtype),
            Some(_) => Ok(Encoding::F32),
        },
    }
}

fn count_numbers(dtype: &str, len: usize) -> (n: Option<usize>)
    ensures
        match n {
            Some(n) => numbers_in(dtype@, len as nat) == Some(n as nat),
            None => numbers_in(dtype@, len as nat) is None,
        },
{
    if same_text(dtype, "BF16") {
        Some(len / 2)
    } else if same_text(dtype, "F32") {
        Some(len / 4)
    } else {
        None
    }
}

fn area(rows: usize, cols: usize) -> (n: u128)
    ensures
        n == rows * cols,
        n <= 0xffff_ffff_ffff_ffff * 0xffff_ffff_ffff_ffff,
{
    assert(0 <= rows * cols <= 0xffff_ffff_ffff_ffff * 0xffff_ffff_ffff_ffff) by (nonlinear_arith)
        requires
            0 <= rows <= 0xffff_ffff_ffff_ffff,
            0 <= cols <= 0xffff_ffff_ffff_ffff,
    ;
    rows as u128 * cols as u128
}

fn check_converted(info: &TensorInfo, len: usize, rows: usize, cols: usize, to: Encoding) -> (r:
    Result<Encoding, LoadError>)
    ensures
        r == converted(info.dtype@, info.shape@, len as nat, rows, cols, to),
{
    let n: usize = match count_numbers(info.dtype.as_str(), len) {
        Some(n) => n,
        None => {
            return Err(LoadError::Dtype);
        },
    };
    if info.shape.len() != 2 || info.shape[0] != rows || info.shape[1] != cols {
        return Err(LoadError::Shape);
    }
    if to == Encoding::Q4 && cols % GROUP != 0 {
        return Err(LoadError::PartialGroup);
    }
    if n as u128 != area(rows, cols) {
        return Err(LoadError::Size);
    }
    Ok(to)
}

fn check_verbatim(info: &TensorInfo, len: usize, rows: usize, cols: usize) -> (r: Result<
    Encoding,
    LoadError,
>)
    ensures
        r == verbatim(info.dtype@, len as nat, rows, cols),
{
    if !same_text(info.dtype.as_str(), "BF16") {
        return Err(LoadError::Dtype);
    }
    if len % 2 != 0 || (len / 2) as u128 != area(rows, cols) {
        return Err(LoadError::Size);
    }
    Ok(Encoding::Bf16)
}

/// In which form a tensor of `len` bytes goes to the device, or why it cannot.
pub fn check_load(what: &Load, info: &TensorInfo, len: usize, core_q4: bool) -> (r: Result<
    Encoding,
    LoadError,
>)
    ensures
        r == load_form(*what, info.dtype@, info.shape@, len as nat, core_q4),
{
    match *what {
        Load::Norm { n } => match count_numbers(info.dtype.as_str(), len) {
            None => Err(LoadError::Dtype),
            Some(k) => if k != n {
                Err(LoadError::Size)
            } else {
                Ok(Encoding::F32)
            },
        },
        Load::Matrix { rows, cols } => if core_q4 && cols % GROUP == 0 {
            check_converted(info, len, rows, cols, Encoding::Q4)
        } else {
            check_verbatim(info, len, rows, cols)
        },
        Load::Bf16 { rows, cols } => check_verbatim(info, len, rows, cols),
        Load::Quantized { rows, cols } => check_converted(info, len, rows, cols, Encoding::Q4),
        Load::Absorbed { rows, cols } => check_converted(
            info,
            len,
            rows,
            cols,
            Encoding::Absorbed,
        ),
        Load::Bias => match count_numbers(info.dtype.as_str(), len) {
            None => Err(LoadError::Dtype),
            Some(_) => Ok(Encoding::F32),
        },
    }
}

/// The bf16 bits of an f32 with bits `b`, rounded halves up.
pub open spec fn bf16_of_f32(b: u32) -> u16 {
    ((b + 0x8000) / 0x1_0000) as u16
}

/// The bf16 bits of an f32 with bits `b`.
pub fn f32_to_bf16(b: u32) -> (h: u16)
    requires
        b < 0xffff_8000,
    ensures
        h == bf16_of_f32(b),
{
    ((b + 0x8000) / 0x1_0000) as u16
}

/// Element [row][col] of the kv_b projection, [heads*(nope+v_head), kv_lora].
pub open spec fn kvb_at(kvb: Seq<u32>, kv_lora: int, row: int, col: int) -> u32 {
    kvb[row * kv_lora + col]
}

/// `kt` holds the rows of kv_b that are for keys, transposed per head:
/// [heads][kv_lora, nope].
pub open spec fn keys_absorbed(
    kvb: Seq<u32>,
    kt: Seq<u16>,
    heads: int,
    nope: int,
    v_head: int,
    kv_lora: int,
) -> bool {
    &&& kt.len() == heads * kv_lora * nope
    &&& forall|h: int, c: int, r: int|
        0 <= h < heads && 0 <= c < kv_lora && 0 <= r < nope ==> #[trigger] kt[(h * kv_lora + c)
            * nope + r] == bf16_of_f32(kvb_at(kvb, kv_lora, h * (nope + v_head) + r, c))
}

/// `vw` holds the rows of kv_b that are for values: [heads][v_head, kv_lora].
pub open spec fn values_absorbed(
    kvb: Seq<u32>,
    vw: Seq<u16>,
    heads: int,
    nope: int,
    v_head: int,
    kv_lora: int,
) -> bool {
    &&& vw.len() == heads * v_head * kv_lora
    &&& forall|h: int, r: int, c: int|
        0 <= h < heads && 0 <= r < v_head && 0 <= c < kv_lora ==> #[trigger] vw[(h * v_head + r)
            * kv_lora + c] == bf16_of_f32(kvb_at(kvb, kv_lora, h * (nope + v_head) + nope + r, c))
}

/// Whether every number of a projection can be rounded to bf16: the last of the
/// negative NaNs have nothing to be rounded up to.
pub fn can_round(bits: &[u32]) -> (yes: bool)
    ensures
        yes == (forall|i: int| 0 <= i < bits@.len() ==> #[trigger] bits@[i] < 0xffff_8000),
{
    let mut i: usize = 0;
    while i < bits.len()
        invariant
            i <= bits@.len(),
            forall|k: int| 0 <= k < i ==> #[trigger] bits@[k] < 0xffff_8000,
        decreases bits@.len() - i,
    {
        if bits[i] >= 0xffff_8000 {
            return false;
        }
        i += 1;
    }
    true
}

proof fn lemma_flat(a: int, n: int, b: int, i: int, j: int)
    requires
        0 <= i < a,
        0 <= j < n,
        b == a * n,
    ensures
        0 <= i * n,
        i * n + j < b,
        (i + 1) * n == i * n + n,
{
    assert((i + 1) * n == i * n + n) by (nonlinear_arith);
    assert((i + 1) * n <= a * n) by (nonlinear_arith)
        requires
            i + 1 <= a,
            0 <= n,
    ;
    assert(0 <= i * n) by (nonlinear_arith)
        requires
            0 <= i,
            0 <= n,
    ;
}

/// The part of kv_b that takes queries to the compressed cache, transposed per
/// head: [heads][kv_lora, nope], as bf16.
pub fn absorb_keys(kvb: &[u32], heads: usize, nope: usize, v_head: usize, kv_lora: usize) -> (kt:
    Vec<u16>)
    requires
        nope + v_head <= usize::MAX,
        heads * (nope + v_head) <= usize::MAX,
        kvb@.len() == heads * (nope + v_head) * kv_lora,
        forall|i: int| 0 <= i < kvb@.len() ==> #[trigger] kvb@[i] < 0xffff_8000,
    ensures
        keys_absorbed(
            kvb@,
            kt@,
            heads as int,
            nope as int,
            v_head as int,
            kv_lora as int,
        ),
{
    let len: usize = kvb.len();
    let per: usize = nope + v_head;
    let mut kt: Vec<u16> = Vec::new();
    let mut h: usize = 0;
    assert(0 * kv_lora == 0 && 0 * nope == 0) by (nonlinear_arith);
    while h < heads
        invariant
            h <= heads,
            per == nope + v_head,
            heads * per <= usize::MAX,
            len == kvb@.len(),
            len == heads * per * kv_lora,
            forall|i: int| 0 <= i < kvb@.len() ==> #[trigger] kvb@[i] < 0xffff_8000,
            kt@.len() == h * kv_lora * nope,
            forall|x: int, c: int, r: int|
                0 <= x < h && 0 <= c < kv_lora && 0 <= r < nope ==> #[trigger] kt@[(x * kv_lora + c)
                    * nope + r] == bf16_of_f32(kvb_at(kvb@, kv_lora as int, x * per + r, c)),
        decreases heads - h,
    {
        let mut c: usize = 0;
        assert(0 * nope == 0) by (nonlinear_arith);
        assert(h * kv_lora * nope == (h * kv_lora + 0) * nope);
        while c < kv_lora
            invariant
                h < heads,
                c <= kv_lora,
                per == nope + v_head,
                heads * per <= usize::MAX,
                len == kvb@.len(),
                len == heads * per * kv_lora,
                forall|i: int| 0 <= i < kvb@.len() ==> #[trigger] kvb@[i] < 0xffff_8000,
                kt@.len() == (h * kv_lora + c) * nope,
                forall|x: int, y: int, r: int|
                    0 <= x < heads && 0 <= y < kv_lora && 0 <= r < nope && (x < h || (x == h && y
                        < c)) ==> #[trigger] kt@[(x * kv_lora + y) * nope + r] == bf16_of_f32(
                        kvb_at(kvb@, kv_lora as int, x * per + r, y),
                    ),
            decreases kv_lora - c,
        {
            let mut r: usize = 0;
            while r < nope
                invariant
                    h < heads,
                    c < kv_lora,
                    r <= nope,
                    per == nope + v_head,
                    heads * per <= usize::MAX,
                    len == kvb@.len(),
                    len == heads * per * kv_lora,
                    forall|i: int| 0 <= i < kvb@.len() ==> #[trigger] kvb@[i] < 0xffff_8000,
                    kt@.len() == (h * kv_lora + c) * nope + r,
                    forall|x: int, y: int, z: int|
                        0 <= x < heads && 0 <= y < kv_lora && 0 <= z < nope && (x < h || (x == h
                            && y < c) || (x == h && y == c && z < r)) ==> #[trigger] kt@[(x
                            * kv_lora + y) * nope + z] == bf16_of_f32(
                            kvb_at(kvb@, kv_lora as int, x * per + z, y),
                        ),
                decreases nope - r,
            {
                proof {
                    lemma_flat(heads as int, per as int, (heads * per) as int, h as int, r as int);
                    lemma_flat(
                        (heads * per) as int,
                        kv_lora as int,
                        len as int,
                        (h * per + r) as int,
                        c as int,
                    );
                }
                let ghost before = kt@;
                let ghost at = ((h * kv_lora + c) * nope + r) as int;
                kt.push(f32_to_bf16(kvb[(h * per + r) * kv_lora + c]));
                proof {
                    assert forall|x: int, y: int, z: int|
                        0 <= x < heads && 0 <= y < kv_lora && 0 <= z < nope && (x < h || (x == h
                            && y < c) || (x == h && y == c && z < r + 1)) implies #[trigger] kt@[(x
                        * kv_lora + y) * nope + z] == bf16_of_f32(
                        kvb_at(kvb@, kv_lora as int, x * per + z, y),
                    ) by {
                        lemma_before(
                            kv_lora as int,
                            nope as int,
                            x,
                            y,
                            z,
                            h as int,
                            c as int,
                            r as int,
                        );
                        let i = (x * kv_lora + y) * nope + z;
                        if i < at {
                            assert(kt@[i] == before[i]);
                        }
                    }
                }
                r += 1;
            }
            assert((h * kv_lora + c + 1) * nope == (h * kv_lora + c) * nope + nope)
                by (nonlinear_arith);
            c += 1;
        }
        assert((h + 1) * kv_lora * nope == (h * kv_lora + kv_lora) * nope) by (nonlinear_arith);
        h += 1;
    }
    kt
}

/// Positions of a three-dimensional array come in order.
proof fn lemma_before(b: int, c: int, x: int, y: int, z: int, h: int, k: int, r: int)
    requires
        0 <= x <= h,
        0 <= y < b,
        0 <= z < c,
        0 <= k < b,
        0 <= r < c,
        x < h || (x == h && y < k) || (x == h && y == k && z <= r),
    ensures
        0 <= (x * b + y) * c + z <= (h * b + k) * c + r,
        (x * b + y) * c + z == (h * b + k) * c + r ==> x == h && y == k && z == r,
{
    let i = x * b + y;
    let j = h * b + k;
    assert(0 <= x * b) by (nonlinear_arith)
        requires
            0 <= x,
            0 <= b,
    ;
    if x < h {
        assert(x * b + b <= h * b) by (nonlinear_arith)
            requires
                x + 1 <= h,
                0 <= b,
        ;
    }
    assert(0 <= i * c) by (nonlinear_arith)
        requires
            0 <= i,
            0 <= c,
    ;
    if i < j {
        assert(i * c + c <= j * c) by (nonlinear_arith)
            requires
                i + 1 <= j,
                0 <= c,
        ;
    }
}

/// The part of kv_b that takes the compressed context to values, per head:
/// [heads][v_head, kv_lora], as bf16.
pub fn absorb_values(kvb: &[u32], heads: usize, nope: usize, v_head: usize, kv_lora: usize) -> (vw:
    Vec<u16>)
    requires
        nope + v_head <= usize::MAX,
        heads * (nope + v_head) <= usize::MAX,
        kvb@.len() == heads * (nope + v_head) * kv_lora,
        forall|i: int| 0 <= i < kvb@.len() ==> #[trigger] kvb@[i] < 0xffff_8000,
    ensures
        values_absorbed(
            kvb@,
            vw@,
            heads as int,
            nope as int,
            v_head as int,
            kv_lora as int,
        ),
{
    let len: usize = kvb.len();
    let per: usize = nope + v_head;
    let mut vw: Vec<u16> = Vec::new();
    let mut h: usize = 0;
    assert(0 * v_head == 0 && 0 * kv_lora == 0) by (nonlinear_arith);
    while h < heads
        invariant
            h <= heads,
            per == nope + v_head,
            heads * per <= usize::MAX,
            len == kvb@.len(),
            len == heads * per * kv_lora,
            forall|i: int| 0 <= i < kvb@.len() ==> #[trigger] kvb@[i] < 0xffff_8000,
            vw@.len() == h * v_head * kv_lora,
            forall|x: int, r: int, c: int|
                0 <= x < h && 0 <= r < v_head && 0 <= c < kv_lora ==> #[trigger] vw@[(x * v_head
                    + r) * kv_lora + c] == bf16_of_f32(
                    kvb_at(kvb@, kv_lora as int, x * per + nope + r, c),
                ),
        decreases heads - h,
    {
        let mut r: usize = 0;
        assert(h * v_head * kv_lora == (h * v_head + 0) * kv_lora);
        while r < v_head
            invariant
                h < heads,
                r <= v_head,
                per == nope + v_head,
                heads * per <= usize::MAX,
                len == kvb@.len(),
                len == heads * per * kv_lora,
                forall|i: int| 0 <= i < kvb@.len() ==> #[trigger] kvb@[i] < 0xffff_8000,
                vw@.len() == (h * v_head + r) * kv_lora,
                forall|x: int, y: int, z: int|
                    0 <= x < heads && 0 <= y < v_head && 0 <= z < kv_lora && (x < h || (x == h && y
                        < r)) ==> #[trigger] vw@[(x * v_head + y) * kv_lora + z] == bf16_of_f32(
                        kvb_at(kvb@, kv_lora as int, x * per + nope + y, z),
                    ),
            decreases v_head - r,
        {
            let mut c: usize = 0;
            while c < kv_lora
                invariant
                    h < heads,
                    r < v_head,
                    c <= kv_lora,
                    per == nope + v_head,
                    heads * per <= usize::MAX,
                    len == kvb@.len(),
                    len == heads * per * kv_lora,
                    forall|i: int| 0 <= i < kvb@.len() ==> #[trigger] kvb@[i] < 0xffff_8000,
                    vw@.len() == (h * v_head + r) * kv_lora + c,
                    forall|x: int, y: int, z: int|
                        0 <= x < heads && 0 <= y < v_head && 0 <= z < kv_lora && (x < h || (x == h
                            && y < r) || (x == h && y == r && z < c)) ==> #[trigger] vw@[(x
                            * v_head + y) * kv_lora + z] == bf16_of_f32(
                            kvb_at(kvb@, kv_lora as int, x * per + nope + y, z),
                        ),
                decreases kv_lora - c,
            {
                proof {
                    lemma_flat(
                        heads as int,
                        per as int,
                        (heads * per) as int,
                        h as int,
                        (nope + r) as int,
                    );
                    lemma_flat(
                        (heads * per) as int,
                        kv_lora as int,
                        len as int,
                        (h * per + nope + r) as int,
                        c as int,
                    );
                }
                let ghost before = vw@;
                let ghost at = ((h * v_head + r) * kv_lora + c) as int;
                vw.push(f32_to_bf16(kvb[(h * per + nope + r) * kv_lora + c]));
                proof {
                    assert forall|x: int, y: int, z: int|
                        0 <= x < heads && 0 <= y < v_head && 0 <= z < kv_lora && (x < h || (x == h
                            && y < r) || (x == h && y == r && z < c + 1)) implies #[trigger] vw@[(x
                        * v_head + y) * kv_lora + z] == bf16_of_f32(
                        kvb_at(kvb@, kv_lora as int, x * per + nope + y, z),
                    ) by {
                        lemma_before(
                            v_head as int,
                            kv_lora as int,
                            x,
                            y,
                            z,
                            h as int,
                            r as int,
                            c as int,
                        );
                        let i = (x * v_head + y) * kv_lora + z;
                        if i < at {
                            assert(vw@[i] == before[i]);
                        }
                    }
                }
                c += 1;
            }
            assert((h * v_head + r + 1) * kv_lora == (h * v_head + r) * kv_lora + kv_lora)
                by (nonlinear_arith);
            r += 1;
        }
        assert((h + 1) * v_head * kv_lora == (h * v_head + v_head) * kv_lora) by (nonlinear_arith);
        h += 1;
    }
    vw
}

/// Row `token` of a bf16 table with rows of `hidden` numbers, as f32 bytes.
pub open spec fn embedding_row(table: Seq<u8>, hidden: nat, token: nat, n: nat) -> Seq<u8>
    decreases n,
{
    if n == 0 {
        Seq::empty()
    } else {
        let at = (token * hidden + n - 1) * 2;
        embedding_row(table, hidden, token, (n - 1) as nat) + le_bytes(
            le_value(table.subrange(at as int, at + 2)) * 0x1_0000,
            4,
        )
    }
}

/// The embedding of a token, gathered from the bf16 table on the host; `None`
/// for a token that has no row.
pub fn gather_embedding(table: &[u8], hidden: usize, token: u32) -> (row: Option<Vec<u8>>)
    ensures
        match row {
            Some(row) => {
                &&& (token + 1) * hidden * 2 <= table@.len()
                &&& row@ == embedding_row(table@, hidden as nat, token as nat, hidden as nat)
            },
            None => (token + 1) * hidden * 2 > table@.len(),
        },
{
    let len: usize = table.len();
    assert(0 <= (token + 1) * hidden <= 0x1_0000_0000 * 0xffff_ffff_ffff_ffff) by (nonlinear_arith)
        requires
            0 <= token <= 0xffff_ffff,
            0 <= hidden <= 0xffff_ffff_ffff_ffff,
    ;
    let end: u128 = (token as u128 + 1) * hidden as u128 * 2;
    if end > len as u128 {
        return None;
    }
    assert((token + 1) * hidden == token * hidden + hidden) by (nonlinear_arith);
    assert(0 <= token * hidden) by (nonlinear_arith)
        requires
            0 <= token,
            0 <= hidden,
    ;
    let start: usize = token as usize * hidden;
    let mut row: Vec<u8> = Vec::new();
    let mut i: usize = 0;
    while i < hidden
        invariant
            i <= hidden,
            start == token * hidden,
            (start + hidden) * 2 <= len,
            len == table@.len(),
            row@ == embedding_row(table@, hidden as nat, token as nat, i as nat),
        decreases hidden - i,
    {
        let at: usize = (start + i) * 2;
        let half: u64 = read_le(table, at, 2);
        proof {
            law_le_bytes_of_value(table@.subrange(at as int, at + 2));
            lemma_span_values();
        }
        push_le(&mut row, half * 0x1_0000, 4);
        i += 1;
    }
    Some(row)
}

} // verus!
