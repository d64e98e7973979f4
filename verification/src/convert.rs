//! Conversion of a Hugging Face mixture-of-experts checkpoint into the two
//! artifacts:
//!
//! - an `.llmpk` expert pack: every routed expert weight, one blob per
//!   (layer, expert) holding gate/up/down;
//! - a resident-core safetensors file: everything else (embeddings,
//!   attention, norms, router gates, lm_head), original dtype, pageable as
//!   one artifact (multi-model support loads/unloads whole cores).
//!
//! Checkpoints come in two forms. Plain ones hold expert weights that are
//! quantized q4g64 on the way. Packed ones (Kimi K2.6) ship routed experts as
//! int4 group-32: `weight_packed` I32 `[rows, cols/8]` (8 signed nibbles per
//! word, value k of a word at bits 4k), `weight_scale` BF16 `[rows, cols/32]`,
//! `weight_shape` I32 `[2]`; these are repacked bit-exactly (nibble = signed
//! value + 8; scales converted bf16 -> f16). Everything else under
//! `language_model.` goes into the core file with that prefix stripped, and
//! the rest (vision tower, projector) is dropped. Their first layers are
//! dense, so the pack holds only the layers behind those.

use crate::checkpoint::{names_it, Checkpoint, LocView};
use crate::json::{ascending, find_member, member_trees, Json, JsonTree};
use crate::names::{
    lemma_three_projections, packed_expert, parse_expert, parse_expert_packed, plain_expert,
    ExpertTensor,
};
use crate::order::text_less;
use crate::pack::PackMeta;
use crate::st::{keyed, sorted_names};
use crate::table::{lemma_table_entry, put, table_map};
use crate::text::{chars_of, has_prefix, same_text, starts_with};
use vstd::prelude::*;

verus! {

/// Why a checkpoint cannot be converted.
#[derive(Debug, Clone, Copy, PartialEq, Eq, Structural)]
pub enum ConvertError {
    /// The config has no `text_config`.
    NoTextConfig,
    /// The config does not give the number of layers.
    NoLayerCount,
    /// The config does not give the number of experts.
    NoExpertCount,
    /// More dense layers than layers.
    TooManyDenseLayers,
    /// Tensor `tensor` is an expert's, but of no layer or expert there is.
    OutOfRange { tensor: usize },
    /// An expert lacks projection `proj`.
    MissingProjection { proj: usize },
    /// An expert weight is not a matrix.
    NotAMatrix,
    /// An expert weight's columns are not whole groups.
    PartialGroup { cols: usize },
    /// A packed expert has no `weight_packed`.
    NoPackedWeights,
    /// A packed expert has no `weight_scale`.
    NoScales,
    /// A packed expert is not I32 weights with BF16 scales.
    Dtypes,
    /// `weight_shape` is shorter than two numbers.
    ShortShape,
    /// The packed weights do not have the shape of the expert.
    PackedShape,
    /// The scales do not have the shape of the expert.
    ScaleShape,
    /// A packed expert holds more than its shape says, or more than memory.
    PackedSize,
    /// Tensor `tensor` ends before it starts.
    InvertedRange { tensor: usize },
    /// The core is longer than any file.
    CoreTooLarge,
}

/// The two forms of checkpoints.
#[derive(Debug, Clone, Copy, PartialEq, Eq, Structural)]
pub enum Format {
    Plain,
    Packed,
}

/// What the config says of the experts: those of layers `dense..layers`.
#[derive(Debug, Clone, Copy, PartialEq, Eq, Structural)]
pub struct ExpertLayout {
    pub format: Format,
    pub layers: u16,
    pub dense: u16,
    pub experts: u16,
}

/// The expert layout that the config of a plain checkpoint gives.
pub open spec fn plain_layout(config: JsonTree) -> Result<ExpertLayout, ConvertError> {
    match (config.uint_at("num_hidden_layers"@), config.uint_at("num_experts"@)) {
        (None, _) => Err(ConvertError::NoLayerCount),
        (_, None) => Err(ConvertError::NoExpertCount),
        (Some(layers), Some(experts)) => Ok(
            ExpertLayout {
                format: Format::Plain,
                layers: layers as u16,
                dense: 0,
                experts: experts as u16,
            },
        ),
    }
}

/// Reads the layout from the config of a plain checkpoint.
#[verifier::truncate]
pub fn layout_plain(config: &Json) -> (layout: Result<ExpertLayout, ConvertError>)
    ensures
        layout == plain_layout(config@),
{
    let layers: u64 = match config.get_u64("num_hidden_layers") {
        Some(n) => n,
        None => {
            return Err(ConvertError::NoLayerCount);
        },
    };
    let experts: u64 = match config.get_u64("num_experts") {
        Some(n) => n,
        None => {
            return Err(ConvertError::NoExpertCount);
        },
    };
    Ok(
        ExpertLayout {
            format: Format::Plain,
            layers: layers as u16,
            dense: 0,
            experts: experts as u16,
        },
    )
}

/// The model name that the config of a plain checkpoint gives.
pub fn model_name(config: &Json) -> (name: String)
    ensures
        name@ == (match config@.text_at("model_type"@) {
            Some(s) => s,
            None => "unknown"@,
        }),
{
    match config.get_str("model_type") {
        Some(s) => s.to_owned(),
        None => "unknown".to_owned(),
    }
}

/// The expert layout that the config of a packed checkpoint gives.
pub open spec fn packed_layout(config: JsonTree) -> Result<ExpertLayout, ConvertError> {
    match config.member("text_config"@) {
        None => Err(ConvertError::NoTextConfig),
        Some(JsonTree::Null) => Err(ConvertError::NoTextConfig),
        Some(text) => match (text.uint_at("num_hidden_layers"@), text.uint_at("n_routed_experts"@)) {
            (None, _) => Err(ConvertError::NoLayerCount),
            (_, None) => Err(ConvertError::NoExpertCount),
            (Some(layers), Some(experts)) => {
                let dense = match text.uint_at("first_k_dense_replace"@) {
                    Some(n) => n as u16,
                    None => 0,
                };
                if dense > layers as u16 {
                    Err(ConvertError::TooManyDenseLayers)
                } else {
                    Ok(
                        ExpertLayout {
                            format: Format::Packed,
                            layers: layers as u16,
                            dense,
                            experts: experts as u16,
                        },
                    )
                }
            },
        },
    }
}

/// Reads the layout from the config of a packed checkpoint.
#[verifier::truncate]
pub fn layout_packed(config: &Json) -> (layout: Result<ExpertLayout, ConvertError>)
    ensures
        layout == packed_layout(config@),
{
    let text: &Json = match config.get("text_config") {
        None => {
            return Err(ConvertError::NoTextConfig);
        },
        Some(Json::Null) => {
            return Err(ConvertError::NoTextConfig);
        },
        Some(text) => text,
    };
    let layers: u64 = match text.get_u64("num_hidden_layers") {
        Some(n) => n,
        None => {
            return Err(ConvertError::NoLayerCount);
        },
    };
    let experts: u64 = match text.get_u64("n_routed_experts") {
        Some(n) => n,
        None => {
            return Err(ConvertError::NoExpertCount);
        },
    };
    let dense: u16 = match text.get_u64("first_k_dense_replace") {
        Some(n) => n as u16,
        None => 0,
    };
    if dense > layers as u16 {
        return Err(ConvertError::TooManyDenseLayers);
    }
    Ok(
        ExpertLayout {
            format: Format::Packed,
            layers: layers as u16,
            dense,
            experts: experts as u16,
        },
    )
}

/// The form of the checkpoint that a config is of: the packed ones have the
/// model type `kimi_k25`.
pub open spec fn format_of(config: JsonTree) -> Format {
    if config.text_at("model_type"@) == Some("kimi_k25"@) {
        Format::Packed
    } else {
        Format::Plain
    }
}

/// Reads the expert layout from a checkpoint's config, whichever its form.
pub fn expert_layout(config: &Json) -> (layout: Result<ExpertLayout, ConvertError>)
    ensures
        layout == (match format_of(config@) {
            Format::Packed => packed_layout(config@),
            Format::Plain => plain_layout(config@),
        }),
{
    let packed: bool = match config.get_str("model_type") {
        Some(t) => same_text(t, "kimi_k25"),
        None => false,
    };
    if packed {
        layout_packed(config)
    } else {
        layout_plain(config)
    }
}

/// What the metadata of a pack says of the checkpoint.
pub open spec fn describes_pack(meta: PackMeta, config: JsonTree, layout: ExpertLayout) -> bool {
    &&& meta.num_layers == layout.rows()
    &&& meta.experts_per_layer == layout.experts
    &&& match layout.format {
        Format::Plain => {
            &&& meta.model@ == (match config.text_at("model_type"@) {
                Some(s) => s,
                None => "unknown"@,
            })
            &&& meta.dtype@ == "q4g64-gud"@
        },
        Format::Packed => meta.model@ == "kimi_k2.6"@ && meta.dtype@ == "q4g32-gud"@,
    }
}

/// The metadata of the pack that a checkpoint becomes.
pub fn pack_meta(config: &Json, layout: &ExpertLayout) -> (meta: PackMeta)
    requires
        layout.wf(),
    ensures
        describes_pack(meta, config@, *layout),
{
    let (model, dtype): (String, String) = match layout.format {
        Format::Plain => (model_name(config), "q4g64-gud".to_owned()),
        Format::Packed => ("kimi_k2.6".to_owned(), "q4g32-gud".to_owned()),
    };
    PackMeta {
        model,
        num_layers: layout.layers - layout.dense,
        experts_per_layer: layout.experts,
        dtype,
    }
}

/// `pattern` occurs in `s`.
pub open spec fn occurs(s: Seq<char>, pattern: Seq<char>) -> bool {
    exists|i: int| 0 <= i <= s.len() && starts_with(#[trigger] s.skip(i), pattern)
}

pub fn contains_text(s: &[char], pattern: &[char]) -> (yes: bool)
    ensures
        yes == occurs(s@, pattern@),
{
    let len: usize = s.len();
    let mut i: usize = 0;
    while i < len
        invariant
            i <= len,
            len == s@.len(),
            forall|k: int| 0 <= k < i ==> !starts_with(#[trigger] s@.skip(k), pattern@),
        decreases len - i,
    {
        let (_, rest) = s.split_at(i);
        assert(rest@ =~= s@.skip(i as int));
        if has_prefix(rest, pattern) {
            return true;
        }
        i += 1;
    }
    let (_, rest) = s.split_at(len);
    assert(rest@ =~= s@.skip(len as int));
    if has_prefix(rest, pattern) {
        return true;
    }
    assert forall|k: int| 0 <= k <= s@.len() implies !starts_with(
        #[trigger] s@.skip(k),
        pattern@,
    ) by {
        if k == len {
            assert(s@.skip(k) =~= rest@);
        }
    }
    false
}

impl ExpertLayout {
    /// Layers with routed experts.
    pub open spec fn rows(self) -> nat {
        (self.layers - self.dense) as nat
    }

    pub open spec fn wf(self) -> bool {
        self.dense <= self.layers && self.rows() * self.experts * 3 <= usize::MAX
    }

    /// Whether the experts can be counted.
    pub fn fits(&self) -> (yes: bool)
        ensures
            yes == self.wf(),
    {
        if self.dense > self.layers {
            return false;
        }
        let rows: u64 = (self.layers - self.dense) as u64;
        assert(0 <= rows * self.experts <= 0xffff * 0xffff) by (nonlinear_arith)
            requires
                0 <= rows <= 0xffff,
                0 <= self.experts <= 0xffff,
        ;
        rows * self.experts as u64 * 3 <= usize::MAX as u64
    }

    /// The expert tensor that `name` names.
    pub open spec fn expert_in(self, name: Seq<char>) -> Option<ExpertTensor> {
        match self.format {
            Format::Plain => plain_expert(name),
            Format::Packed => packed_expert(name),
        }
    }

    /// There is such an expert.
    pub open spec fn has(self, t: ExpertTensor) -> bool {
        self.dense <= t.layer < self.layers && t.expert < self.experts
    }

    /// A tensor that is no expert's goes into the core.
    pub open spec fn in_core(self, name: Seq<char>) -> bool {
        match self.format {
            Format::Plain => true,
            Format::Packed => starts_with(name, "language_model."@) && !occurs(
                name,
                ".mlp.experts."@,
            ),
        }
    }

    /// Position of an expert tensor in a plan.
    pub open spec fn place_of(self, t: ExpertTensor) -> int {
        ((t.layer - self.dense) * self.experts + t.expert) * 3 + t.proj
    }

    proof fn lemma_projections(self, name: Seq<char>)
        ensures
            self.expert_in(name) matches Some(t) ==> t.proj < 3,
    {
        lemma_three_projections(name, "model.layers."@, "weight"@);
        lemma_three_projections(name, "language_model.model.layers."@, "weight_packed"@);
    }

    fn classify(&self, name: &str) -> (t: Option<ExpertTensor>)
        ensures
            t == self.expert_in(name@),
    {
        match self.format {
            Format::Plain => parse_expert(name),
            Format::Packed => parse_expert_packed(name),
        }
    }

    fn is_core(&self, name: &str) -> (yes: bool)
        ensures
            yes == self.in_core(name@),
    {
        match self.format {
            Format::Plain => true,
            Format::Packed => {
                let chars: Vec<char> = chars_of(name);
                let prefix: Vec<char> = chars_of("language_model.");
                let inner: Vec<char> = chars_of(".mlp.experts.");
                has_prefix(chars.as_slice(), prefix.as_slice()) && !contains_text(
                    chars.as_slice(),
                    inner.as_slice(),
                )
            },
        }
    }
}

pub proof fn lemma_place_bounds(rows: int, experts: int, r: int, e: int, p: int)
    requires
        0 <= r < rows,
        0 <= e < experts,
        0 <= p < 3,
    ensures
        0 <= r * experts,
        r * experts + e < rows * experts,
        0 <= (r * experts + e) * 3 + p < rows * experts * 3,
{
    assert(0 <= r * experts) by (nonlinear_arith)
        requires
            0 <= r,
            0 <= e < experts,
    ;
    assert(r * experts + experts <= rows * experts) by (nonlinear_arith)
        requires
            r + 1 <= rows,
            0 <= e < experts,
    ;
}

proof fn lemma_place_injective(experts: int, r1: int, e1: int, p1: int, r2: int, e2: int, p2: int)
    requires
        0 <= e1 < experts,
        0 <= e2 < experts,
        0 <= p1 < 3,
        0 <= p2 < 3,
        (r1 * experts + e1) * 3 + p1 == (r2 * experts + e2) * 3 + p2,
    ensures
        r1 == r2,
        e1 == e2,
        p1 == p2,
{
    let a = r1 * experts + e1;
    vstd::arithmetic::div_mod::lemma_fundamental_div_mod_converse(a, experts, r1, e1);
    vstd::arithmetic::div_mod::lemma_fundamental_div_mod_converse(a, experts, r2, e2);
}

/// The last of the first `n` names that names expert tensor `t`.
pub open spec fn last_named(
    layout: ExpertLayout,
    table: Seq<(Seq<char>, LocView)>,
    t: ExpertTensor,
    n: nat,
) -> Option<int>
    decreases n,
{
    if n == 0 {
        None
    } else if layout.expert_in(table[n - 1].0) == Some(t) {
        Some(n - 1)
    } else {
        last_named(layout, table, t, (n - 1) as nat)
    }
}

/// Those of the first `n` tensors that go into the core, in order.
pub open spec fn core_tensors(
    layout: ExpertLayout,
    table: Seq<(Seq<char>, LocView)>,
    n: nat,
) -> Seq<int>
    decreases n,
{
    if n == 0 {
        Seq::empty()
    } else if layout.expert_in(table[n - 1].0) is None && layout.in_core(table[n - 1].0) {
        core_tensors(layout, table, (n - 1) as nat).push(n - 1)
    } else {
        core_tensors(layout, table, (n - 1) as nat)
    }
}

/// Tensor `i` is an expert's, but of no layer or expert there is.
pub open spec fn misplaced(layout: ExpertLayout, table: Seq<(Seq<char>, LocView)>, i: int) -> bool {
    match layout.expert_in(table[i].0) {
        Some(t) => !layout.has(t),
        None => false,
    }
}

/// Which tensor is which: for each expert and projection the tensor that
/// holds it, and the tensors of the core.
#[derive(Debug)]
pub struct Plan {
    pub experts: Vec<Option<usize>>,
    pub core: Vec<usize>,
}

/// For every expert and projection, `experts` has the last of the first `n`
/// tensors that is it.
pub open spec fn experts_described(
    experts: Seq<Option<usize>>,
    layout: ExpertLayout,
    table: Seq<(Seq<char>, LocView)>,
    n: nat,
) -> bool {
    &&& experts.len() == layout.rows() * layout.experts * 3
    &&& forall|t: ExpertTensor|
        #![trigger layout.place_of(t)]
        layout.has(t) && t.proj < 3 ==> {
            let found = last_named(layout, table, t, n);
            match experts[layout.place_of(t)] {
                Some(i) => found == Some(i as int),
                None => found is None,
            }
        }
}

/// `core` lists those of the first `n` tensors that go into the core.
pub open spec fn core_described(
    core: Seq<usize>,
    layout: ExpertLayout,
    table: Seq<(Seq<char>, LocView)>,
    n: nat,
) -> bool {
    &&& core.len() == core_tensors(layout, table, n).len()
    &&& forall|k: int|
        #![trigger core[k]]
        0 <= k < core.len() ==> core[k] == core_tensors(layout, table, n)[k]
}

impl Plan {
    /// The plan says of every expert which tensors hold it, and of the core
    /// which tensors it takes.
    pub open spec fn describes(
        self,
        layout: ExpertLayout,
        table: Seq<(Seq<char>, LocView)>,
        n: nat,
    ) -> bool {
        &&& experts_described(self.experts@, layout, table, n)
        &&& core_described(self.core@, layout, table, n)
    }
}

proof fn lemma_none_described(
    experts: Seq<Option<usize>>,
    layout: ExpertLayout,
    table: Seq<(Seq<char>, LocView)>,
)
    requires
        layout.wf(),
        experts.len() == layout.rows() * layout.experts * 3,
        forall|j: int| 0 <= j < experts.len() ==> #[trigger] experts[j] is None,
    ensures
        experts_described(experts, layout, table, 0),
{
    assert forall|t: ExpertTensor|
        #![trigger layout.place_of(t)]
        layout.has(t) && t.proj < 3 implies experts[layout.place_of(t)] is None by {
        lemma_place_bounds(
            layout.rows() as int,
            layout.experts as int,
            t.layer - layout.dense,
            t.expert as int,
            t.proj as int,
        );
    }
}

proof fn lemma_expert_described(
    experts: Seq<Option<usize>>,
    layout: ExpertLayout,
    table: Seq<(Seq<char>, LocView)>,
    i: usize,
    t: ExpertTensor,
)
    requires
        layout.wf(),
        i < table.len(),
        experts_described(experts, layout, table, i as nat),
        layout.expert_in(table[i as int].0) == Some(t),
        layout.has(t),
        t.proj < 3,
    ensures
        experts_described(
            experts.update(layout.place_of(t), Some(i)),
            layout,
            table,
            (i + 1) as nat,
        ),
{
    let after = experts.update(layout.place_of(t), Some(i));
    lemma_place_bounds(
        layout.rows() as int,
        layout.experts as int,
        t.layer - layout.dense,
        t.expert as int,
        t.proj as int,
    );
    assert forall|u: ExpertTensor|
        #![trigger layout.place_of(u)]
        layout.has(u) && u.proj < 3 implies {
        let found = last_named(layout, table, u, (i + 1) as nat);
        match after[layout.place_of(u)] {
            Some(x) => found == Some(x as int),
            None => found is None,
        }
    } by {
        lemma_place_bounds(
            layout.rows() as int,
            layout.experts as int,
            u.layer - layout.dense,
            u.expert as int,
            u.proj as int,
        );
        if layout.place_of(u) == layout.place_of(t) {
            lemma_place_injective(
                layout.experts as int,
                u.layer - layout.dense,
                u.expert as int,
                u.proj as int,
                t.layer - layout.dense,
                t.expert as int,
                t.proj as int,
            );
            assert(u == t);
        }
    }
}

proof fn lemma_other_described(
    experts: Seq<Option<usize>>,
    layout: ExpertLayout,
    table: Seq<(Seq<char>, LocView)>,
    i: usize,
)
    requires
        i < table.len(),
        experts_described(experts, layout, table, i as nat),
        layout.expert_in(table[i as int].0) is None,
    ensures
        experts_described(experts, layout, table, (i + 1) as nat),
{
    assert forall|u: ExpertTensor|
        #![trigger layout.place_of(u)]
        layout.has(u) && u.proj < 3 implies last_named(layout, table, u, (i + 1) as nat)
        == last_named(layout, table, u, i as nat) by {}
}

/// Tells experts and core apart. Fails on the first expert tensor that is out
/// of range.
pub fn plan(ckpt: &Checkpoint, layout: &ExpertLayout) -> (plan: Result<Plan, ConvertError>)
    requires
        layout.wf(),
    ensures
        match plan {
            Ok(plan) => {
                &&& plan.describes(*layout, ckpt@, ckpt@.len())
                &&& forall|i: int| 0 <= i < ckpt@.len() ==> !#[trigger] misplaced(*layout, ckpt@, i)
            },
            Err(e) => exists|i: int|
                #![trigger misplaced(*layout, ckpt@, i)]
                {
                    &&& 0 <= i < ckpt@.len()
                    &&& e == (ConvertError::OutOfRange { tensor: i as usize })
                    &&& misplaced(*layout, ckpt@, i)
                    &&& forall|j: int| 0 <= j < i ==> !#[trigger] misplaced(*layout, ckpt@, j)
                },
        },
{
    let ghost table = ckpt@;
    let rows: usize = (layout.layers - layout.dense) as usize;
    assert(0 <= rows * layout.experts) by (nonlinear_arith)
        requires
            0 <= rows,
            0 <= layout.experts,
    ;
    let total: usize = rows * layout.experts as usize * 3;
    let mut experts: Vec<Option<usize>> = Vec::new();
    let mut core: Vec<usize> = Vec::new();
    let mut k: usize = 0;
    while k < total
        invariant
            k <= total,
            experts@.len() == k,
            forall|j: int| 0 <= j < k ==> #[trigger] experts@[j] is None,
        decreases total - k,
    {
        experts.push(None);
        k += 1;
    }
    let n: usize = ckpt.len();
    let mut i: usize = 0;
    proof {
        lemma_none_described(experts@, *layout, table);
    }
    while i < n
        invariant
            i <= n,
            n == table.len(),
            table == ckpt@,
            layout.wf(),
            rows == layout.rows(),
            experts_described(experts@, *layout, table, i as nat),
            core_described(core@, *layout, table, i as nat),
            forall|j: int| 0 <= j < i ==> !#[trigger] misplaced(*layout, table, j),
        decreases n - i,
    {
        let (name, _) = ckpt.at(i);
        match layout.classify(name) {
            Some(t) => {
                if t.layer < layout.dense || t.layer >= layout.layers || t.expert >= layout.experts {
                    assert(misplaced(*layout, table, i as int));
                    return Err(ConvertError::OutOfRange { tensor: i });
                }
                let r: usize = (t.layer - layout.dense) as usize;
                proof {
                    layout.lemma_projections(name@);
                    lemma_place_bounds(
                        rows as int,
                        layout.experts as int,
                        r as int,
                        t.expert as int,
                        t.proj as int,
                    );
                    lemma_expert_described(experts@, *layout, table, i, t);
                }
                let at: usize = (r * layout.experts as usize + t.expert as usize) * 3 + t.proj;
                experts.set(at, Some(i));
            },
            None => {
                if layout.is_core(name) {
                    core.push(i);
                }
                proof {
                    lemma_other_described(experts@, *layout, table, i);
                }
            },
        }
        i += 1;
    }
    Ok(Plan { experts, core })
}

/// A config for the runtime: the text model's own, and the layer from which on
/// there are experts.
pub open spec fn embeds(config: JsonTree, text: JsonTree, layout: ExpertLayout) -> bool {
    &&& config.uint_at("moe_layer_offset"@) == Some(layout.dense as u64)
    &&& forall|key: Seq<char>|
        key != "moe_layer_offset"@ ==> #[trigger] config.member(key) == text.member(key)
}

/// The config that a pack embeds. That of a plain checkpoint is the
/// checkpoint's own. That of a packed one is its `text_config`, with the layer
/// mapping that the runtime needs: pack layer i is model layer
/// i + `moe_layer_offset`. `None` where there is no `text_config` object.
pub fn pack_config(config: Json, layout: &ExpertLayout) -> (packed: Option<Json>)
    requires
        config@.orderly(),
    ensures
        match (config@.member("text_config"@), packed) {
            _ if layout.format == Format::Plain => packed == Some(config),
            (Some(JsonTree::Object(text)), Some(json)) => embeds(
                json@,
                JsonTree::Object(text),
                *layout,
            ),
            (Some(JsonTree::Object(_)), None) => false,
            (_, Some(_)) => false,
            (_, None) => true,
        },
{
    if layout.format == Format::Plain {
        return Some(config);
    }
    let mut members: Vec<(String, Json)> = match config {
        Json::Object(members) => members,
        _ => {
            return None;
        },
    };
    let ghost all = member_trees(members@);
    let mut i: usize = 0;
    while i < members.len() && !same_text(members[i].0.as_str(), "text_config")
        invariant
            i <= members@.len(),
            all == member_trees(members@),
            find_member(all, "text_config"@, 0) == find_member(all, "text_config"@, i as nat),
        decreases members@.len() - i,
    {
        assert(all[i as int] == (members@[i as int].0@, members@[i as int].1@));
        i += 1;
    }
    if i == members.len() {
        return None;
    }
    assert(all[i as int] == (members@[i as int].0@, members@[i as int].1@));
    let (_, text) = members.remove(i);
    let mut text: Vec<(String, Json)> = match text {
        Json::Object(text) => text,
        _ => {
            return None;
        },
    };
    let ghost before = text@;
    proof {
        assert(all[i as int].1.orderly());
        let t = member_trees(before);
        assert(ascending(t));
        let k = keyed(before);
        assert forall|x: int, y: int| #![trigger k[x], k[y]] 0 <= x < y < k.len() implies text_less(
            k[x].0,
            k[y].0,
        ) by {
            assert(text_less(t[x].0, t[y].0));
        }
    }
    put(&mut text, "moe_layer_offset".to_owned(), Json::Uint(layout.dense as u64));
    proof {
        let after = text@;
        assert forall|key: Seq<char>|
            #![trigger JsonTree::Object(member_trees(after)).member(key)]
            JsonTree::Object(member_trees(after)).member(key) == (if table_map(after).contains_key(
                key,
            ) {
                Some(table_map(after)[key]@)
            } else {
                None
            }) by {
            lemma_member_is_entry(after, key, 0);
        }
        assert forall|key: Seq<char>|
            #![trigger JsonTree::Object(member_trees(before)).member(key)]
            JsonTree::Object(member_trees(before)).member(key) == (if table_map(
                before,
            ).contains_key(key) {
                Some(table_map(before)[key]@)
            } else {
                None
            }) by {
            lemma_member_is_entry(before, key, 0);
        }
    }
    Some(Json::Object(text))
}

/// Looking a name up in an object finds the entry of its sorted table.
proof fn lemma_member_is_entry(table: Seq<(String, Json)>, key: Seq<char>, i: nat)
    requires
        sorted_names(keyed(table)),
        forall|k: int| 0 <= k < i && k < table.len() ==> (#[trigger] table[k]).0@ != key,
    ensures
        find_member(member_trees(table), key, i) == (if table_map(table).contains_key(key) {
            Some(table_map(table)[key]@)
        } else {
            None
        }),
    decreases table.len() - i,
{
    let k = keyed(table);
    if i < table.len() {
        assert(member_trees(table)[i as int] == (table[i as int].0@, table[i as int].1@));
        if table[i as int].0@ == key {
            lemma_table_entry(table, i as int);
        } else {
            lemma_member_is_entry(table, key, i + 1);
        }
    } else if names_it(k, key) {
        let x = choose|x: int| 0 <= x < k.len() && (#[trigger] k[x]).0 == key;
        assert(table[x].0@ == key);
    }
}

} // verus!
