//! Reading a tensor file's header loses nothing: every member but the metadata
//! is a tensor, with the type, the shape and the bytes that it says.

use crate::bytes::{law_le_bytes_of_value, le_bytes};
use crate::json::JsonTree;
use crate::st::{
    float_bits, float_type, float_width, offset_at, shape_of, tensor_fault, tensor_table,
    tensor_view, FloatType, HeaderFault,
};
use crate::transfers::lemma_widened;
use vstd::prelude::*;
use vstd::string::*;

verus! {

proof fn lemma_front_is_sound(members: Seq<(Seq<char>, JsonTree)>, base: nat, m: nat, n: nat)
    requires
        m <= n <= members.len(),
        tensor_table(members, base, n) is Ok,
    ensures
        tensor_table(members, base, m) is Ok,
        tensor_table(members, base, m)->Ok_0.len() <= tensor_table(members, base, n)->Ok_0.len(),
        forall|k: int|
            0 <= k < tensor_table(members, base, m)->Ok_0.len() ==> #[trigger] tensor_table(
                members,
                base,
                m,
            )->Ok_0[k] == tensor_table(members, base, n)->Ok_0[k],
    decreases n,
{
    if m < n {
        lemma_front_is_sound(members, base, m, (n - 1) as nat);
    }
}

/// Every member of a header but the metadata is in the table of tensors, under
/// its name and as it describes itself.
pub proof fn law_header_loses_nothing(members: Seq<(Seq<char>, JsonTree)>, base: nat, i: int)
    requires
        tensor_table(members, base, members.len()) is Ok,
        0 <= i < members.len(),
        members[i].0 != "__metadata__"@,
    ensures
        ({
            let table = tensor_table(members, base, members.len())->Ok_0;
            exists|k: int|
                0 <= k < table.len() && #[trigger] table[k] == (
                    members[i].0,
                    tensor_view(members[i].1, base),
                )
        }),
{
    lemma_front_is_sound(members, base, (i + 1) as nat, members.len());
    lemma_front_is_sound(members, base, i as nat, members.len());
    let front = tensor_table(members, base, (i + 1) as nat)->Ok_0;
    let table = tensor_table(members, base, members.len())->Ok_0;
    let k = front.len() - 1;
    assert(front[k] == (members[i].0, tensor_view(members[i].1, base)));
    assert(table[k] == front[k]);
}

proof fn lemma_only_members(members: Seq<(Seq<char>, JsonTree)>, base: nat, n: nat, k: int)
    requires
        n <= members.len(),
        tensor_table(members, base, n) is Ok,
        0 <= k < tensor_table(members, base, n)->Ok_0.len(),
    ensures
        exists|i: int|
            0 <= i < n && (#[trigger] members[i]).0 != "__metadata__"@ && tensor_table(
                members,
                base,
                n,
            )->Ok_0[k] == (members[i].0, tensor_view(members[i].1, base)),
    decreases n,
{
    if n > 0 {
        let before = tensor_table(members, base, (n - 1) as nat)->Ok_0;
        if k < before.len() {
            lemma_only_members(members, base, (n - 1) as nat, k);
        } else {
            assert(members[n - 1].0 != "__metadata__"@);
        }
    }
}

/// The table of tensors has nothing but members of the header.
pub proof fn law_header_adds_nothing(members: Seq<(Seq<char>, JsonTree)>, base: nat, k: int)
    requires
        tensor_table(members, base, members.len()) is Ok,
        0 <= k < tensor_table(members, base, members.len())->Ok_0.len(),
    ensures
        exists|i: int|
            0 <= i < members.len() && (#[trigger] members[i]).0 != "__metadata__"@ && tensor_table(
                members,
                base,
                members.len(),
            )->Ok_0[k] == (members[i].0, tensor_view(members[i].1, base)),
{
    lemma_only_members(members, base, members.len(), k);
}

proof fn lemma_shape(items: Seq<JsonTree>)
    requires
        forall|i: int|
            0 <= i < items.len() ==> #[trigger] items[i] is Uint && items[i]->Uint_0 <= usize::MAX,
    ensures
        shape_of(items).len() == items.len(),
        forall|i: int| 0 <= i < items.len() ==> #[trigger] shape_of(items)[i] == items[i]->Uint_0,
    decreases items.len(),
{
    if items.len() > 0 {
        assert(items.last() is Uint);
        lemma_shape(items.drop_last());
    }
}

/// A tensor is what its own members say: its type, its dimensions in order, and
/// the bytes from the first of its offsets to the second, counted from where
/// the data starts.
pub proof fn law_tensor_says_what_it_is(
    info: JsonTree,
    base: nat,
    dtype: Seq<char>,
    shape: Seq<JsonTree>,
    start: u64,
    end: u64,
)
    requires
        info.member("dtype"@) == Some(JsonTree::Str(dtype)),
        info.member("shape"@) == Some(JsonTree::Array(shape)),
        info.member("data_offsets"@) == Some(
            JsonTree::Array(seq![JsonTree::Uint(start), JsonTree::Uint(end)]),
        ),
        forall|i: int|
            0 <= i < shape.len() ==> #[trigger] shape[i] is Uint && shape[i]->Uint_0 <= usize::MAX,
    ensures
        ({
            let t = tensor_view(info, base);
            &&& t.dtype == dtype
            &&& t.shape.len() == shape.len()
            &&& forall|i: int| 0 <= i < shape.len() ==> #[trigger] t.shape[i] == shape[i]->Uint_0
            &&& t.start == base + start
            &&& t.end == base + end
        }),
{
    lemma_shape(shape);
    let offsets = seq![JsonTree::Uint(start), JsonTree::Uint(end)];
    assert(offset_at(offsets, 0) == start);
    assert(offset_at(offsets, 1) == end);
}

/// A tensor is refused exactly where it lacks its two offsets, or where its
/// bytes lie behind any file.
pub proof fn law_tensor_needs_its_offsets(name: Seq<char>, info: JsonTree, base: nat)
    ensures
        match info.member("data_offsets"@) {
            Some(JsonTree::Array(o)) => {
                &&& o.len() < 2 ==> tensor_fault(name, info, base) == Some(
                    HeaderFault::BadOffsets { name },
                )
                &&& o.len() >= 2 && o[0] is Uint && o[1] is Uint ==> (tensor_fault(name, info, base)
                    is None <==> base + o[0]->Uint_0 <= u64::MAX && base + o[1]->Uint_0 <= u64::MAX)
            },
            _ => tensor_fault(name, info, base) == Some(HeaderFault::MissingOffsets { name }),
        },
{
}

/// A tensor's numbers are read as they stand: four bytes each, or two that are
/// the upper half of four.
pub proof fn law_numbers_are_read_as_they_stand(raw: Seq<u8>, i: int)
    requires
        0 <= i,
    ensures
        4 * i + 4 <= raw.len() ==> le_bytes(float_bits(FloatType::F32, raw, i), 4) == raw.subrange(
            4 * i,
            4 * i + 4,
        ),
        2 * i + 2 <= raw.len() ==> le_bytes(float_bits(FloatType::Bf16, raw, i), 4) == seq![
            0u8,
            0u8,
        ] + raw.subrange(2 * i, 2 * i + 2),
        float_width(FloatType::F32) == 4 && float_width(FloatType::Bf16) == 2,
        float_type("F32"@) == Some(FloatType::F32),
        float_type("BF16"@) == Some(FloatType::Bf16),
{
    reveal_strlit("F32");
    reveal_strlit("BF16");
    assert("F32"@.len() == 3 && "BF16"@.len() == 4);
    if 4 * i + 4 <= raw.len() {
        law_le_bytes_of_value(raw.subrange(4 * i, 4 * i + 4));
    }
    if 2 * i + 2 <= raw.len() {
        lemma_widened(raw.subrange(2 * i, 2 * i + 2));
    }
}

} // verus!
