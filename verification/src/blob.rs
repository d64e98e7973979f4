//! Expert blobs: a small header with the dimensions of the three projections
//! and the group size, then gate, up and down as q4 regions.

use crate::bytes::{
    law_le_bytes_of_value, law_le_round_trip, le_bytes, le_value, lemma_le_bytes_len,
    lemma_span_values, push_bytes, push_le, read_le,
};
use crate::checkpoint::{names_it, Checkpoint, TensorLoc};
use crate::convert::{ConvertError, ExpertLayout, Plan};
use crate::quant::{f16_of_f32, f32_to_f16_bits, q4_fits, q4_size};
use crate::text::{chars_of, same_text, string_of};
use vstd::prelude::*;
use vstd::string::*;

verus! {

/// Blob layout: this fixed header, then gate, up, down as q4 regions.
pub const BLOB_HEADER_BYTES: usize = 32;

/// Values per scale in a packed checkpoint.
pub const KIMI_GROUP: usize = 32;

/// One projection of an expert, quantized.
#[derive(Debug)]
pub struct Projection {
    pub rows: u32,
    pub cols: u32,
    pub region: Vec<u8>,
}

/// The dimensions in a blob's header.
pub open spec fn dims_bytes(projs: Seq<Projection>) -> Seq<u8>
    decreases projs.len(),
{
    if projs.len() == 0 {
        Seq::empty()
    } else {
        dims_bytes(projs.drop_last()) + le_bytes(projs.last().rows as nat, 4) + le_bytes(
            projs.last().cols as nat,
            4,
        )
    }
}

/// The regions, one after the other.
pub open spec fn region_bytes(projs: Seq<Projection>) -> Seq<u8>
    decreases projs.len(),
{
    if projs.len() == 0 {
        Seq::empty()
    } else {
        region_bytes(projs.drop_last()) + projs.last().region@
    }
}

/// A blob: rows and columns of each projection, the group size, a zero word,
/// and the regions.
pub open spec fn blob_bytes(projs: Seq<Projection>, group: u32) -> Seq<u8> {
    dims_bytes(projs) + le_bytes(group as nat, 4) + le_bytes(0, 4) + region_bytes(projs)
}

/// Where the region of projection `p` starts in a blob.
pub open spec fn region_start(projs: Seq<Projection>, p: nat) -> nat
    decreases p,
{
    if p == 0 {
        BLOB_HEADER_BYTES as nat
    } else {
        region_start(projs, (p - 1) as nat) + projs[p - 1].region@.len()
    }
}

/// Lays out the blob of one expert from its three projections.
pub fn assemble_blob(projs: &Vec<Projection>, group: u32) -> (blob: Vec<u8>)
    ensures
        blob@ == blob_bytes(projs@, group),
{
    let mut blob: Vec<u8> = Vec::new();
    let mut i: usize = 0;
    assert(projs@.take(0) =~= Seq::<Projection>::empty());
    while i < projs.len()
        invariant
            i <= projs@.len(),
            blob@ == dims_bytes(projs@.take(i as int)),
        decreases projs@.len() - i,
    {
        push_le(&mut blob, projs[i].rows as u64, 4);
        push_le(&mut blob, projs[i].cols as u64, 4);
        i += 1;
        assert(projs@.take(i as int).drop_last() =~= projs@.take(i - 1));
    }
    assert(projs@.take(i as int) =~= projs@);
    push_le(&mut blob, group as u64, 4);
    push_le(&mut blob, 0, 4);
    let ghost head = blob@;
    let mut j: usize = 0;
    assert(blob@ =~= head + region_bytes(projs@.take(0)));
    while j < projs.len()
        invariant
            j <= projs@.len(),
            blob@ == head + region_bytes(projs@.take(j as int)),
        decreases projs@.len() - j,
    {
        push_bytes(&mut blob, projs[j].region.as_slice());
        j += 1;
        assert(projs@.take(j as int).drop_last() =~= projs@.take(j - 1));
        assert(blob@ =~= head + region_bytes(projs@.take(j as int)));
    }
    assert(projs@.take(j as int) =~= projs@);
    blob
}

/// Rows and columns of projection `p` in a blob's header.
pub open spec fn dims_at(blob: Seq<u8>, p: int) -> (nat, nat) {
    (le_value(blob.subrange(8 * p, 8 * p + 4)), le_value(blob.subrange(8 * p + 4, 8 * p + 8)))
}

/// The group size in a blob's header.
pub open spec fn group_at(blob: Seq<u8>) -> nat {
    le_value(blob.subrange(24, 28))
}

proof fn lemma_dims(projs: Seq<Projection>, p: int)
    requires
        0 <= p < projs.len(),
    ensures
        dims_bytes(projs).len() == 8 * projs.len(),
        dims_at(dims_bytes(projs), p) == (projs[p].rows as nat, projs[p].cols as nat),
    decreases projs.len(),
{
    let front = projs.drop_last();
    let s = dims_bytes(projs);
    let t = dims_bytes(front);
    let a = le_bytes(projs.last().rows as nat, 4);
    let b = le_bytes(projs.last().cols as nat, 4);
    lemma_span_values();
    law_le_round_trip(projs.last().rows as nat, 4);
    law_le_round_trip(projs.last().cols as nat, 4);
    lemma_dims_len(front);
    if p < front.len() {
        lemma_dims(front, p);
        assert(s.subrange(8 * p, 8 * p + 4) =~= t.subrange(8 * p, 8 * p + 4));
        assert(s.subrange(8 * p + 4, 8 * p + 8) =~= t.subrange(8 * p + 4, 8 * p + 8));
    } else {
        assert(s.subrange(8 * p, 8 * p + 4) =~= a);
        assert(s.subrange(8 * p + 4, 8 * p + 8) =~= b);
    }
}

proof fn lemma_dims_len(projs: Seq<Projection>)
    ensures
        dims_bytes(projs).len() == 8 * projs.len(),
    decreases projs.len(),
{
    if projs.len() > 0 {
        lemma_dims_len(projs.drop_last());
        lemma_le_bytes_len(projs.last().rows as nat, 4);
        lemma_le_bytes_len(projs.last().cols as nat, 4);
    }
}

proof fn lemma_region_start(a: Seq<Projection>, b: Seq<Projection>, p: nat)
    requires
        p <= a.len(),
        p <= b.len(),
        forall|i: int| 0 <= i < p ==> a[i] == b[i],
    ensures
        region_start(a, p) == region_start(b, p),
    decreases p,
{
    if p > 0 {
        lemma_region_start(a, b, (p - 1) as nat);
    }
}

proof fn lemma_regions(projs: Seq<Projection>, p: int)
    requires
        0 <= p < projs.len(),
    ensures
        ({
            let at = region_start(projs, p as nat) - BLOB_HEADER_BYTES;
            let n = projs[p].region@.len();
            &&& 0 <= at
            &&& at + n <= region_bytes(projs).len()
            &&& region_bytes(projs).subrange(at, at + n) == projs[p].region@
            &&& region_bytes(projs).len() + BLOB_HEADER_BYTES == region_start(projs, projs.len())
        }),
    decreases projs.len(),
{
    let front = projs.drop_last();
    let s = region_bytes(projs);
    let t = region_bytes(front);
    let at = region_start(projs, p as nat) - BLOB_HEADER_BYTES;
    let n = projs[p].region@.len();
    lemma_regions_len(front);
    lemma_regions_len(projs);
    lemma_region_start(projs, front, front.len());
    if p < front.len() {
        lemma_region_start(projs, front, p as nat);
        lemma_regions(front, p);
        assert(s.subrange(at, at + n) =~= t.subrange(at, at + n));
    } else {
        assert(s.subrange(at, at + n) =~= projs[p].region@);
    }
}

proof fn lemma_regions_len(projs: Seq<Projection>)
    ensures
        region_bytes(projs).len() + BLOB_HEADER_BYTES == region_start(projs, projs.len()),
    decreases projs.len(),
{
    if projs.len() > 0 {
        let front = projs.drop_last();
        lemma_regions_len(front);
        lemma_region_start(projs, front, front.len());
    }
}

/// What a read gives back of a write: the header of a blob with three
/// projections says their dimensions and the group size, and each region is
/// where the lengths of those before it put it.
pub proof fn law_blob_reads_back(projs: Seq<Projection>, group: u32, p: int)
    requires
        projs.len() == 3,
        0 <= p < 3,
    ensures
        ({
            let blob = blob_bytes(projs, group);
            let at = region_start(projs, p as nat);
            &&& dims_at(blob, p) == (projs[p].rows as nat, projs[p].cols as nat)
            &&& group_at(blob) == group
            &&& blob.len() == region_start(projs, 3)
            &&& at + projs[p].region@.len() <= blob.len()
            &&& blob.subrange(at as int, (at + projs[p].region@.len()) as int) == projs[p].region@
        }),
{
    let blob = blob_bytes(projs, group);
    let d = dims_bytes(projs);
    let g = le_bytes(group as nat, 4);
    let z = le_bytes(0, 4);
    let r = region_bytes(projs);
    let at = region_start(projs, p as nat);
    let n = projs[p].region@.len();
    lemma_dims(projs, p);
    lemma_regions(projs, p);
    lemma_span_values();
    law_le_round_trip(group as nat, 4);
    lemma_le_bytes_len(0, 4);
    assert(blob == d + g + z + r);
    assert(blob.subrange(8 * p, 8 * p + 4) =~= d.subrange(8 * p, 8 * p + 4));
    assert(blob.subrange(8 * p + 4, 8 * p + 8) =~= d.subrange(8 * p + 4, 8 * p + 8));
    assert(blob.subrange(24, 28) =~= g);
    assert(blob.subrange(at as int, (at + n) as int) =~= r.subrange(at - 32, at - 32 + n));
}

/// Rows and columns of an expert weight: a matrix whose columns are whole
/// groups.
pub fn matrix_dims(shape: &Vec<usize>, group: usize) -> (dims: Result<(usize, usize), ConvertError>)
    requires
        group > 0,
    ensures
        dims == (if shape@.len() != 2 {
            Err(ConvertError::NotAMatrix)
        } else if shape@[1] % group != 0 {
            Err(ConvertError::PartialGroup { cols: shape@[1] })
        } else {
            Ok((shape@[0], shape@[1]))
        }),
{
    if shape.len() != 2 {
        return Err(ConvertError::NotAMatrix);
    }
    let rows: usize = shape[0];
    let cols: usize = shape[1];
    if cols % group != 0 {
        return Err(ConvertError::PartialGroup { cols });
    }
    Ok((rows, cols))
}

/// The tensors that hold gate, up and down of an expert in a plan.
pub open spec fn tensors_of(layout: ExpertLayout, plan: Plan, row: int, expert: int) -> Result<
    (usize, usize, usize),
    ConvertError,
> {
    let at = (row * layout.experts + expert) * 3;
    match (plan.experts@[at], plan.experts@[at + 1], plan.experts@[at + 2]) {
        (None, _, _) => Err(ConvertError::MissingProjection { proj: 0 }),
        (_, None, _) => Err(ConvertError::MissingProjection { proj: 1 }),
        (_, _, None) => Err(ConvertError::MissingProjection { proj: 2 }),
        (Some(gate), Some(up), Some(down)) => Ok((gate, up, down)),
    }
}

/// The tensors that hold the three projections of an expert; fails on the
/// first projection that is missing.
pub fn expert_tensors(layout: &ExpertLayout, plan: &Plan, row: u16, expert: u16) -> (tensors: Result<
    (usize, usize, usize),
    ConvertError,
>)
    requires
        layout.wf(),
        plan.experts@.len() == layout.rows() * layout.experts * 3,
        row < layout.rows(),
        expert < layout.experts,
    ensures
        tensors == tensors_of(*layout, *plan, row as int, expert as int),
{
    proof {
        crate::convert::lemma_place_bounds(
            layout.rows() as int,
            layout.experts as int,
            row as int,
            expert as int,
            2,
        );
    }
    let at: usize = (row as usize * layout.experts as usize + expert as usize) * 3;
    let gate: usize = match plan.experts[at] {
        Some(i) => i,
        None => {
            return Err(ConvertError::MissingProjection { proj: 0 });
        },
    };
    let up: usize = match plan.experts[at + 1] {
        Some(i) => i,
        None => {
            return Err(ConvertError::MissingProjection { proj: 1 });
        },
    };
    let down: usize = match plan.experts[at + 2] {
        Some(i) => i,
        None => {
            return Err(ConvertError::MissingProjection { proj: 2 });
        },
    };
    Ok((gate, up, down))
}

/// The value that a two's-complement nibble stands for.
pub open spec fn signed_nibble(v: u8) -> int {
    if v < 8 {
        v as int
    } else {
        v - 16
    }
}

/// A byte of two signed nibbles with both stored as `value + 8`.
pub open spec fn shifted_byte(b: u8) -> u8 {
    ((signed_nibble(b % 16) + 8) + 16 * (signed_nibble(b / 16) + 8)) as u8
}

/// The f16 bits of a bf16 scale.
pub open spec fn f16_of_bf16(h: nat) -> u16 {
    f16_of_f32((h * 0x1_0000) as u32)
}

/// The scales of a packed expert as f16, `n` of them: those there are, then
/// zeros.
pub open spec fn repacked_scales(raw: Seq<u8>, n: nat) -> Seq<u8>
    decreases n,
{
    if n == 0 {
        Seq::empty()
    } else {
        repacked_scales(raw, (n - 1) as nat) + le_bytes(
            if 2 * n <= raw.len() {
                f16_of_bf16(le_value(raw.subrange(2 * n - 2, 2 * n as int))) as nat
            } else {
                0
            },
            2,
        )
    }
}

/// The nibbles of a packed expert, `n` bytes of them: those of the whole words
/// there are, then zeros.
pub open spec fn repacked_nibbles(packed: Seq<u8>, n: nat) -> Seq<u8> {
    Seq::new(
        n,
        |i: int|
            if i < packed.len() / 4 * 4 {
                shifted_byte(packed[i])
            } else {
                0
            },
    )
}

/// A projection of a packed expert, `[rows, cols]`, as a q4 region with
/// groups of 32. `packed` holds its words and `scales` its bf16 scales.
pub fn repack(packed: &[u8], scales: &[u8], rows: usize, cols: usize) -> (region: Vec<u8>)
    requires
        q4_fits(rows as nat, cols as nat, KIMI_GROUP as nat),
        scales@.len() / 2 <= rows * (cols as nat / KIMI_GROUP as nat),
        packed@.len() / 4 * 4 <= rows * cols / 2,
    ensures
        region@ == repacked_scales(scales@, (rows * (cols as nat / KIMI_GROUP as nat)) as nat)
            + repacked_nibbles(packed@, (rows * cols / 2) as nat),
        region@.len() == q4_size(rows as nat, cols as nat, KIMI_GROUP as nat),
{
    proof {
        crate::quant::lemma_q4_size_parts(rows as nat, cols as nat, KIMI_GROUP as nat);
    }
    let groups: usize = rows * (cols / KIMI_GROUP);
    let have: usize = scales.len() / 2;
    let mut region: Vec<u8> = Vec::new();
    let mut i: usize = 0;
    while i < groups
        invariant
            i <= groups,
            have == scales@.len() / 2,
            scales@.len() <= usize::MAX,
            region@ == repacked_scales(scales@, i as nat),
            region@.len() == 2 * i,
        decreases groups - i,
    {
        let half: u16 = if i < have {
            let h: u64 = read_le(scales, 2 * i, 2);
            proof {
                law_le_bytes_of_value(scales@.subrange(2 * i, 2 * i + 2));
                lemma_span_values();
            }
            f32_to_f16_bits(h as u32 * 0x1_0000)
        } else {
            0
        };
        push_le(&mut region, half as u64, 2);
        proof {
            lemma_le_bytes_len(half as nat, 2);
        }
        i += 1;
    }
    let ghost front = region@;
    let total: usize = rows * cols / 2;
    let words: usize = packed.len() / 4 * 4;
    let mut k: usize = 0;
    assert(region@ =~= front + repacked_nibbles(packed@, total as nat).take(0));
    while k < total
        invariant
            k <= total,
            words == packed@.len() / 4 * 4,
            region@ == front + repacked_nibbles(packed@, total as nat).take(k as int),
        decreases total - k,
    {
        let out: u8 = if k < words {
            let b: u8 = packed[k];
            (b % 16 + 8) % 16 + 16 * ((b / 16 + 8) % 16)
        } else {
            0
        };
        region.push(out);
        k += 1;
        assert(region@ =~= front + repacked_nibbles(packed@, total as nat).take(k as int));
    }
    assert(repacked_nibbles(packed@, total as nat).take(total as int) =~= repacked_nibbles(
        packed@,
        total as nat,
    ));
    region
}

/// Repacking is bit-exact: nibble `k` of the region's data is the signed value
/// `k` of the packed words, plus eight.
pub proof fn law_repack_keeps_values(packed: Seq<u8>, n: nat, k: int)
    requires
        n == packed.len(),
        n % 4 == 0,
        0 <= k < 2 * n,
    ensures
        ({
            let from = if k % 2 == 0 {
                packed[k / 2] % 16
            } else {
                packed[k / 2] / 16
            };
            let b = repacked_nibbles(packed, n)[k / 2];
            let to = if k % 2 == 0 {
                b % 16
            } else {
                b / 16
            };
            to == signed_nibble(from) + 8
        }),
{
}

/// What the dimensions of a packed projection are, and that its tensors have
/// the shapes that go with them. `raw_shape` is the data of its
/// `weight_shape`, if it has one; without it the packed weights' own shape
/// counts.
pub open spec fn packed_matrix(
    packed_shape: Seq<usize>,
    scale_shape: Seq<usize>,
    raw_shape: Option<Seq<u8>>,
) -> Result<(nat, nat), ConvertError> {
    let dims = match raw_shape {
        Some(raw) => if raw.len() < 8 {
            Err(ConvertError::ShortShape)
        } else {
            let rows = le_value(raw.subrange(0, 4));
            let cols = le_value(raw.subrange(4, 8));
            if rows >= 0x8000_0000 || cols >= 0x8000_0000 {
                Err(ConvertError::PackedShape)
            } else {
                Ok((rows, cols))
            }
        },
        None => if packed_shape.len() < 2 || packed_shape[1] * 8 > usize::MAX {
            Err(ConvertError::PackedShape)
        } else {
            Ok((packed_shape[0] as nat, (packed_shape[1] * 8) as nat))
        },
    };
    match dims {
        Err(e) => Err(e),
        Ok((rows, cols)) => if !(packed_shape.len() == 2 && packed_shape[0] == rows
            && packed_shape[1] == cols / 8) {
            Err(ConvertError::PackedShape)
        } else if !(scale_shape.len() == 2 && scale_shape[0] == rows && scale_shape[1] == cols / 32) {
            Err(ConvertError::ScaleShape)
        } else {
            Ok((rows, cols))
        },
    }
}

/// The dimensions of a packed projection.
pub fn packed_dims(
    packed_shape: &Vec<usize>,
    scale_shape: &Vec<usize>,
    raw_shape: Option<&[u8]>,
) -> (dims: Result<(usize, usize), ConvertError>)
    ensures
        match raw_shape {
            Some(raw) => match dims {
                Ok((r, c)) => packed_matrix(packed_shape@, scale_shape@, Some(raw@)) == Ok::<
                    (nat, nat),
                    ConvertError,
                >((r as nat, c as nat)),
                Err(e) => packed_matrix(packed_shape@, scale_shape@, Some(raw@)) == Err::<
                    (nat, nat),
                    ConvertError,
                >(e),
            },
            None => match dims {
                Ok((r, c)) => packed_matrix(packed_shape@, scale_shape@, None) == Ok::<
                    (nat, nat),
                    ConvertError,
                >((r as nat, c as nat)),
                Err(e) => packed_matrix(packed_shape@, scale_shape@, None) == Err::<
                    (nat, nat),
                    ConvertError,
                >(e),
            },
        },
{
    let rows: usize;
    let cols: usize;
    match raw_shape {
        Some(raw) => {
            if raw.len() < 8 {
                return Err(ConvertError::ShortShape);
            }
            let r: u64 = read_le(raw, 0, 4);
            let c: u64 = read_le(raw, 4, 4);
            if r >= 0x8000_0000 || c >= 0x8000_0000 {
                return Err(ConvertError::PackedShape);
            }
            rows = r as usize;
            cols = c as usize;
        },
        None => {
            if packed_shape.len() < 2 {
                return Err(ConvertError::PackedShape);
            }
            rows = packed_shape[0];
            cols = match packed_shape[1].checked_mul(8) {
                Some(c) => c,
                None => {
                    return Err(ConvertError::PackedShape);
                },
            };
        },
    }
    if packed_shape.len() != 2 || packed_shape[0] != rows || packed_shape[1] != cols / 8 {
        return Err(ConvertError::PackedShape);
    }
    if scale_shape.len() != 2 || scale_shape[0] != rows || scale_shape[1] != cols / KIMI_GROUP {
        return Err(ConvertError::ScaleShape);
    }
    Ok((rows, cols))
}

/// A packed projection has what its dimensions say: no more words and scales
/// than fit, and a region that memory can hold.
pub open spec fn packed_sizes_fit(packed: Seq<u8>, scales: Seq<u8>, rows: nat, cols: nat) -> bool {
    &&& q4_fits(rows, cols, KIMI_GROUP as nat)
    &&& scales.len() / 2 <= rows * (cols / KIMI_GROUP as nat)
    &&& packed.len() / 4 * 4 <= rows * cols / 2
}

/// One projection of a packed expert, ready for its blob. The header keeps the
/// low 32 bits of the dimensions.
pub fn packed_projection(packed: &[u8], scales: &[u8], rows: usize, cols: usize) -> (proj: Result<
    Projection,
    ConvertError,
>)
    ensures
        match proj {
            Ok(p) => {
                &&& packed_sizes_fit(packed@, scales@, rows as nat, cols as nat)
                &&& p.rows == rows as u32
                &&& p.cols == cols as u32
                &&& p.region@ == repacked_scales(
                    scales@,
                    (rows * (cols as nat / KIMI_GROUP as nat)) as nat,
                ) + repacked_nibbles(packed@, (rows * cols / 2) as nat)
            },
            Err(e) => {
                &&& e == ConvertError::PackedSize
                &&& !packed_sizes_fit(packed@, scales@, rows as nat, cols as nat)
            },
        },
{
    let n: usize = match rows.checked_mul(cols) {
        Some(n) => n,
        None => {
            return Err(ConvertError::PackedSize);
        },
    };
    proof {
        assert(0 <= rows * (cols / 32) <= rows * cols) by (nonlinear_arith)
            requires
                0 <= rows,
                0 <= cols,
        ;
    }
    let groups: usize = rows * (cols / KIMI_GROUP);
    let total: u128 = groups as u128 * 2 + (n / 2) as u128;
    if total > usize::MAX as u128 || scales.len() / 2 > groups || packed.len() / 4 * 4 > n / 2 {
        return Err(ConvertError::PackedSize);
    }
    let region: Vec<u8> = repack(packed, scales, rows, cols);
    Ok(
        Projection {
            rows: #[verifier::truncate] (rows as u32),
            cols: #[verifier::truncate] (cols as u32),
            region,
        },
    )
}

/// The name of a packed projection's tensors without their ending.
pub fn packed_base(name: &str) -> (base: String)
    requires
        crate::names::packed_expert(name@) is Some,
    ensures
        base@ + "_packed"@ == name@,
{
    proof {
        crate::names::lemma_packed_ending(name@);
        reveal_strlit("_packed");
    }
    let chars: Vec<char> = chars_of(name);
    let (base, ending) = chars.as_slice().split_at(chars.len() - 7);
    assert(base@ + ending@ =~= name@);
    assert(ending@ =~= "_packed"@);
    string_of(base)
}

/// The tensors of a packed projection: weights, scales and, if there is one,
/// shape.
pub fn packed_tensors<'a>(ckpt: &'a Checkpoint, base: &str) -> (found: Result<
    (&'a TensorLoc, &'a TensorLoc, Option<&'a TensorLoc>),
    ConvertError,
>)
    requires
        ckpt.wf(),
    ensures
        match found {
            Ok((packed, scale, shape)) => {
                &&& ckpt@.contains((base@ + "_packed"@, packed@))
                &&& ckpt@.contains((base@ + "_scale"@, scale@))
                &&& packed@.info.dtype == "I32"@
                &&& scale@.info.dtype == "BF16"@
                &&& match shape {
                    Some(shape) => ckpt@.contains((base@ + "_shape"@, shape@)),
                    None => !names_it(ckpt@, base@ + "_shape"@),
                }
            },
            Err(ConvertError::NoPackedWeights) => !names_it(ckpt@, base@ + "_packed"@),
            Err(ConvertError::NoScales) => {
                &&& names_it(ckpt@, base@ + "_packed"@)
                &&& !names_it(ckpt@, base@ + "_scale"@)
            },
            Err(e) => {
                &&& e == ConvertError::Dtypes
                &&& exists|i: int, j: int|
                    #![trigger ckpt@[i], ckpt@[j]]
                    {
                        &&& 0 <= i < ckpt@.len()
                        &&& 0 <= j < ckpt@.len()
                        &&& ckpt@[i].0 == base@ + "_packed"@
                        &&& ckpt@[j].0 == base@ + "_scale"@
                        &&& (ckpt@[i].1.info.dtype != "I32"@ || ckpt@[j].1.info.dtype != "BF16"@)
                    }
            },
        },
{
    let packed: &TensorLoc = match ckpt.find(
        String::from_str(base).concat("_packed").as_str(),
    ) {
        Some(loc) => loc,
        None => {
            return Err(ConvertError::NoPackedWeights);
        },
    };
    let ghost i = choose|i: int|
        0 <= i < ckpt@.len() && ckpt@[i] == (base@ + "_packed"@, packed@);
    assert(ckpt@[i] == (base@ + "_packed"@, packed@));
    let scale: &TensorLoc = match ckpt.find(String::from_str(base).concat("_scale").as_str()) {
        Some(loc) => loc,
        None => {
            return Err(ConvertError::NoScales);
        },
    };
    let ghost j = choose|j: int| 0 <= j < ckpt@.len() && ckpt@[j] == (base@ + "_scale"@, scale@);
    assert(ckpt@[j] == (base@ + "_scale"@, scale@));
    if !same_text(packed.info.dtype.as_str(), "I32") || !same_text(
        scale.info.dtype.as_str(),
        "BF16",
    ) {
        return Err(ConvertError::Dtypes);
    }
    let shape: Option<&TensorLoc> = ckpt.find(String::from_str(base).concat("_shape").as_str());
    Ok((packed, scale, shape))
}

} // verus!
