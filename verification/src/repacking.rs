//! A packed expert keeps its weights when it is repacked: read as a quantized
//! tensor, the region has every value of the packed words in its place, and
//! every scale.

use crate::blob::{packed_matrix, repacked_nibbles, repacked_scales};
use crate::bytes::{law_le_round_trip, le_bytes, le_value, lemma_le_bytes_len, lemma_span_values};
use crate::config::{dense_layers_of, group_of, Config, KimiConfig};
use crate::convert::{
    describes_pack, embeds, packed_layout, plain_layout, ConvertError, ExpertLayout, Format,
};
use crate::json::JsonTree;
use crate::pack::PackMeta;
use crate::quant::{f16_of_f32, nibble_at, scale_at};
use vstd::prelude::*;
use vstd::string::*;

verus! {

proof fn lemma_scales(raw: Seq<u8>, n: nat, g: int)
    requires
        0 <= g < n,
        2 * n <= raw.len(),
    ensures
        repacked_scales(raw, n).len() == 2 * n,
        ({
            let bits = le_value(raw.subrange(2 * g, 2 * g + 2)) * 0x1_0000;
            scale_at(repacked_scales(raw, n), g) == f16_of_f32(bits as u32)
        }),
    decreases n,
{
    let m = (n - 1) as nat;
    lemma_scales_len(raw, m);
    let bits = le_value(raw.subrange(2 * n - 2, 2 * n as int)) * 0x1_0000;
    let half = f16_of_f32(bits as u32) as nat;
    lemma_span_values();
    law_le_round_trip(half, 2);
    let all = repacked_scales(raw, n);
    if g == m {
        assert(all.subrange(2 * g, 2 * g + 2) =~= le_bytes(half, 2));
    } else {
        lemma_scales(raw, m, g);
        assert(all.subrange(2 * g, 2 * g + 2) =~= repacked_scales(raw, m).subrange(2 * g, 2 * g + 2));
    }
}

proof fn lemma_scales_len(raw: Seq<u8>, n: nat)
    requires
        2 * n <= raw.len(),
    ensures
        repacked_scales(raw, n).len() == 2 * n,
    decreases n,
{
    if n > 0 {
        lemma_scales_len(raw, (n - 1) as nat);
        let h = le_value(raw.subrange(2 * n - 2, 2 * n as int));
        lemma_le_bytes_len(crate::blob::f16_of_bf16(h) as nat, 2);
    }
}

/// What four bits stand for as a signed number.
pub open spec fn signed(nibble: int) -> int {
    if nibble >= 8 {
        nibble - 16
    } else {
        nibble
    }
}

/// Value `i` of a packed tensor: eight to a word, the lowest bits first.
pub open spec fn packed_value(packed: Seq<u8>, i: int) -> int {
    let word = packed.subrange(4 * (i / 8), 4 * (i / 8) + 4);
    let byte = word[(i % 8) / 2] as int;
    if i % 2 == 0 {
        signed(byte % 16)
    } else {
        signed(byte / 16)
    }
}

/// Repacking keeps every value and every scale in its place: where there are as
/// many words and scales as the tensor has, value `i` of the region is value `i`
/// of the packed words, stored as it plus eight, and scale `g` is scale `g` as
/// a half.
pub proof fn law_repacked_region_reads_back(
    packed: Seq<u8>,
    scales: Seq<u8>,
    groups: nat,
    bytes: nat,
    i: int,
    g: int,
)
    requires
        scales.len() == 2 * groups,
        packed.len() == bytes,
        bytes % 4 == 0,
        0 <= i < 2 * bytes,
        0 <= g < groups,
    ensures
        ({
            let region = repacked_scales(scales, groups) + repacked_nibbles(packed, bytes);
            &&& region.len() == 2 * groups + bytes
            &&& nibble_at(region, groups, i) == packed_value(packed, i) + 8
            &&& scale_at(region, g) == f16_of_f32(
                (le_value(scales.subrange(2 * g, 2 * g + 2)) * 0x1_0000) as u32,
            )
        }),
{
    let front = repacked_scales(scales, groups);
    let data = repacked_nibbles(packed, bytes);
    let region = front + data;
    lemma_scales(scales, groups, g);
    assert(region.subrange(2 * g, 2 * g + 2) =~= front.subrange(2 * g, 2 * g + 2));
    let k = i / 2;
    assert(region[2 * groups + k] == data[k]);
    let word = packed.subrange(4 * (i / 8), 4 * (i / 8) + 4);
    assert(4 * (i / 8) + (i % 8) / 2 == k);
    assert(word[(i % 8) / 2] == packed[k]);
}

/// A packed projection is accepted for exactly the dimensions that all of its
/// tensors agree on: as many rows in each, a word for every eight columns, and
/// a scale for every thirty-two. Its `weight_shape`, where it has one, gives
/// rows and then columns.
pub proof fn law_packed_tensors_agree(
    packed_shape: Seq<usize>,
    scale_shape: Seq<usize>,
    raw: Seq<u8>,
)
    ensures
        match packed_matrix(packed_shape, scale_shape, Some(raw)) {
            Ok((rows, cols)) => {
                &&& raw.len() >= 8
                &&& rows == le_value(raw.subrange(0, 4))
                &&& cols == le_value(raw.subrange(4, 8))
                &&& packed_shape.len() == 2 && packed_shape[0] == rows
                    && packed_shape[1] == cols / 8
                &&& scale_shape.len() == 2 && scale_shape[0] == rows && scale_shape[1] == cols / 32
            },
            Err(e) => {
                let rows = le_value(raw.subrange(0, 4));
                let cols = le_value(raw.subrange(4, 8));
                ||| raw.len() < 8 && e == ConvertError::ShortShape
                ||| rows >= 0x8000_0000 || cols >= 0x8000_0000
                ||| !(packed_shape.len() == 2 && packed_shape[0] == rows && packed_shape[1] == cols
                    / 8)
                ||| !(scale_shape.len() == 2 && scale_shape[0] == rows && scale_shape[1] == cols
                    / 32)
            },
        },
        match packed_matrix(packed_shape, scale_shape, None) {
            Ok((rows, cols)) => {
                &&& packed_shape.len() == 2 && packed_shape[0] == rows
                    && packed_shape[1] * 8 == cols
                &&& scale_shape.len() == 2 && scale_shape[0] == rows && scale_shape[1] == cols / 32
            },
            Err(_) => {
                ||| packed_shape.len() != 2
                ||| packed_shape[1] * 8 > usize::MAX
                ||| !(scale_shape.len() == 2 && scale_shape[0] == packed_shape[0] && scale_shape[1]
                    == packed_shape[1] / 4)
            },
        },
{
    if packed_shape.len() == 2 {
        assert((packed_shape[1] * 8) / 32 == packed_shape[1] as int / 4);
        assert((packed_shape[1] * 8) / 8 == packed_shape[1]);
    }
}

/// A pack says how many values share a scale: 64 where plain weights were
/// quantized, 32 where packed ones were kept; any other dtype is none.
pub proof fn law_dtypes_say_their_group(dtype: Seq<char>)
    ensures
        group_of("q4g64-gud"@) == Some(64i32),
        group_of("q4g32-gud"@) == Some(32i32),
        group_of(dtype) is Some ==> dtype == "q4g64-gud"@ || dtype == "q4g32-gud"@,
{
    reveal_strlit("q4g64-gud");
    reveal_strlit("q4g32-gud");
    assert("q4g64-gud"@[3] == '6');
    assert("q4g32-gud"@[3] == '3');
}

/// A pack says what its checkpoint is: a layer for each that has experts, as
/// many experts to each, the model's name, and by its dtype with what group its
/// experts were quantized.
pub proof fn law_pack_says_what_it_holds(meta: PackMeta, config: JsonTree, layout: ExpertLayout)
    requires
        describes_pack(meta, config, layout),
        layout.dense <= layout.layers,
    ensures
        meta.num_layers + layout.dense == layout.layers,
        meta.experts_per_layer == layout.experts,
        group_of(meta.dtype@) == Some(
            if layout.format == Format::Packed {
                32i32
            } else {
                64
            },
        ),
        layout.format == Format::Plain ==> (config.member("model_type"@) matches Some(
            JsonTree::Str(s),
        ) ==> meta.model@ == s),
{
    law_dtypes_say_their_group(meta.dtype@);
}

/// The runtime reads from a pack's config what the checkpoint's said: its
/// experts start behind the dense layers that the converter counted, and every
/// other setting is the text model's own.
pub proof fn law_runtime_counts_the_same_dense_layers(
    config: JsonTree,
    text: JsonTree,
    layout: ExpertLayout,
    c: KimiConfig,
)
    requires
        embeds(config, text, layout),
        c.reads(config),
        text.member("hidden_size"@) matches Some(JsonTree::Uint(n)) && n <= usize::MAX,
    ensures
        c.dense_layers == layout.dense,
        dense_layers_of(config) == layout.dense,
        text.member("hidden_size"@) matches Some(JsonTree::Uint(n)) && c.hidden == n,
        forall|key: Seq<char>|
            key != "moe_layer_offset"@ ==> #[trigger] config.member(key) == text.member(key),
{
    reveal_strlit("hidden_size");
    reveal_strlit("moe_layer_offset");
    assert("hidden_size"@.len() == 11 && "moe_layer_offset"@.len() == 16);
    assert(config.member("hidden_size"@) == text.member("hidden_size"@));
}

/// A converted pack fits its own model: the model that is read from the pack's
/// config has, behind its dense layers, as many layers as the pack has, and as
/// many experts in each.
pub proof fn law_converted_pack_fits_its_model(
    checkpoint: JsonTree,
    text: JsonTree,
    layout: ExpertLayout,
    config: JsonTree,
    meta: PackMeta,
    c: KimiConfig,
    layers: u16,
    experts: u16,
)
    requires
        checkpoint.member("text_config"@) == Some(text),
        text.member("num_hidden_layers"@) == Some(JsonTree::Uint(layers as u64)),
        text.member("n_routed_experts"@) == Some(JsonTree::Uint(experts as u64)),
        packed_layout(checkpoint) == Ok::<ExpertLayout, ConvertError>(layout),
        embeds(config, text, layout),
        describes_pack(meta, checkpoint, layout),
        c.reads(config),
    ensures
        c.layers == layers,
        c.layers - c.dense_layers == meta.num_layers,
        c.experts == experts,
        c.experts == meta.experts_per_layer,
{
    reveal_strlit("num_hidden_layers");
    reveal_strlit("n_routed_experts");
    reveal_strlit("moe_layer_offset");
    assert("num_hidden_layers"@.len() == 17);
    assert("n_routed_experts"@[0] == 'n' && "moe_layer_offset"@[0] == 'm');
    assert("moe_layer_offset"@.len() == 16);
    assert(config.member("num_hidden_layers"@) == text.member("num_hidden_layers"@));
    assert(config.member("n_routed_experts"@) == text.member("n_routed_experts"@));
}

/// A pack of plain weights fits its own model: it has a layer for each of the
/// model's, and as many experts.
pub proof fn law_plain_pack_fits_its_model(
    config: JsonTree,
    layout: ExpertLayout,
    meta: PackMeta,
    c: Config,
    layers: u16,
    experts: u16,
)
    requires
        config.member("num_hidden_layers"@) == Some(JsonTree::Uint(layers as u64)),
        config.member("num_experts"@) == Some(JsonTree::Uint(experts as u64)),
        plain_layout(config) == Ok::<ExpertLayout, ConvertError>(layout),
        describes_pack(meta, config, layout),
        c.reads(config),
    ensures
        c.layers == layers,
        c.layers == meta.num_layers,
        c.experts == experts,
        c.experts == meta.experts_per_layer,
{
}

} // verus!
