//! What a GGUF header is read to: tensor infos and key-value pairs as they are
//! laid out, one after the other.

use crate::bytes::{law_le_round_trip, le_bytes, lemma_le_bytes_len, lemma_span_values};
use crate::gguf::{
    after_kv, dims_from, info_from, infos_from, kept_key, lossy_text, number_at, rounded_up,
    text_at, value_at, GgmlType, GgufError, InfoView, KvState,
};
use crate::text::{decimal, law_decimal_round_trip, starts_with};
use vstd::prelude::*;
use vstd::string::*;

verus! {

/// `image` stands at `pos`.
pub open spec fn stands_at(buf: Seq<u8>, pos: nat, image: Seq<u8>) -> bool {
    pos + image.len() <= buf.len() && buf.subrange(pos as int, (pos + image.len()) as int) == image
}

proof fn lemma_parts(buf: Seq<u8>, pos: nat, a: Seq<u8>, b: Seq<u8>)
    requires
        stands_at(buf, pos, a + b),
    ensures
        stands_at(buf, pos, a),
        stands_at(buf, pos + a.len(), b),
{
    let all = buf.subrange(pos as int, (pos + (a + b).len()) as int);
    assert(buf.subrange(pos as int, (pos + a.len()) as int) =~= all.subrange(0, a.len() as int));
    assert((a + b).subrange(0, a.len() as int) =~= a);
    assert(buf.subrange((pos + a.len()) as int, (pos + a.len() + b.len()) as int) =~= all.subrange(
        a.len() as int,
        (a.len() + b.len()) as int,
    ));
    assert((a + b).subrange(a.len() as int, (a.len() + b.len()) as int) =~= b);
}

proof fn lemma_number(buf: Seq<u8>, pos: nat, n: nat, k: nat)
    requires
        stands_at(buf, pos, le_bytes(n, k)),
        n < crate::bytes::span_of(k),
    ensures
        number_at(buf, pos, k) == Ok::<(nat, nat), GgufError>((n, pos + k)),
        le_bytes(n, k).len() == k,
{
    law_le_round_trip(n, k);
}

/// A text: its length, then its bytes.
pub open spec fn text_image(raw: Seq<u8>) -> Seq<u8> {
    le_bytes(raw.len(), 8) + raw
}

proof fn lemma_text(buf: Seq<u8>, pos: nat, raw: Seq<u8>)
    requires
        stands_at(buf, pos, text_image(raw)),
        raw.len() <= u64::MAX,
    ensures
        text_at(buf, pos) == Ok::<(Seq<char>, nat), GgufError>(
            (lossy_text(raw), pos + 8 + raw.len()),
        ),
        text_image(raw).len() == 8 + raw.len(),
{
    lemma_span_values();
    lemma_le_bytes_len(raw.len(), 8);
    lemma_parts(buf, pos, le_bytes(raw.len(), 8), raw);
    lemma_number(buf, pos, raw.len(), 8);
}

/// Dimensions, eight bytes each.
pub open spec fn dims_image(dims: Seq<u64>) -> Seq<u8>
    decreases dims.len(),
{
    if dims.len() == 0 {
        Seq::empty()
    } else {
        dims_image(dims.drop_last()) + le_bytes(dims.last() as nat, 8)
    }
}

proof fn lemma_dims(buf: Seq<u8>, pos: nat, dims: Seq<u64>)
    requires
        stands_at(buf, pos, dims_image(dims)),
    ensures
        dims_from(buf, pos, dims.len()) == Ok::<(Seq<u64>, nat), GgufError>(
            (dims, pos + 8 * dims.len()),
        ),
        dims_image(dims).len() == 8 * dims.len(),
    decreases dims.len(),
{
    if dims.len() > 0 {
        let front = dims.drop_last();
        let last = dims.last();
        lemma_parts(buf, pos, dims_image(front), le_bytes(last as nat, 8));
        lemma_dims(buf, pos, front);
        lemma_span_values();
        lemma_number(buf, pos + 8 * front.len(), last as nat, 8);
        assert(front.push(last) =~= dims);
    } else {
        assert(dims =~= Seq::<u64>::empty());
    }
}

/// A tensor info: the name, how many dimensions there are, the dimensions, the
/// number of the type, and the offset.
pub open spec fn info_image(raw: Seq<u8>, dims: Seq<u64>, ty: u32, offset: u64) -> Seq<u8> {
    text_image(raw) + (le_bytes(dims.len(), 4) + (dims_image(dims) + (le_bytes(ty as nat, 4)
        + le_bytes(offset as nat, 8))))
}

/// A tensor info is read as it was laid out: name, dimensions in order, type
/// and offset each from its own place, and what follows starts right behind it.
pub proof fn law_tensor_info_is_read(
    buf: Seq<u8>,
    pos: nat,
    raw: Seq<u8>,
    dims: Seq<u64>,
    ty: u32,
    offset: u64,
)
    requires
        stands_at(buf, pos, info_image(raw, dims, ty, offset)),
        raw.len() <= u64::MAX,
        dims.len() <= u32::MAX,
    ensures
        info_from(buf, pos) == Ok::<(InfoView, nat), GgufError>(
            (
                InfoView {
                    name: lossy_text(raw),
                    dims,
                    ty: GgmlType::numbered(ty),
                    offset: offset as nat,
                },
                pos + info_image(raw, dims, ty, offset).len(),
            ),
        ),
{
    let o = le_bytes(offset as nat, 8);
    let t = le_bytes(ty as nat, 4) + o;
    let d = dims_image(dims) + t;
    let n = le_bytes(dims.len(), 4) + d;
    lemma_span_values();
    lemma_parts(buf, pos, text_image(raw), n);
    lemma_text(buf, pos, raw);
    let p1 = pos + 8 + raw.len();
    lemma_parts(buf, p1, le_bytes(dims.len(), 4), d);
    lemma_number(buf, p1, dims.len(), 4);
    let p2 = p1 + 4;
    lemma_parts(buf, p2, dims_image(dims), t);
    lemma_dims(buf, p2, dims);
    let p3 = p2 + 8 * dims.len();
    lemma_parts(buf, p3, le_bytes(ty as nat, 4), o);
    lemma_number(buf, p3, ty as nat, 4);
    lemma_number(buf, p3 + 4, offset as nat, 8);
}

/// Infos are read one after the other: where `n` of them were read and one
/// more stands behind them, it is the next.
pub proof fn law_tensor_infos_follow_each_other(
    buf: Seq<u8>,
    pos: nat,
    n: nat,
    raw: Seq<u8>,
    dims: Seq<u64>,
    ty: u32,
    offset: u64,
)
    requires
        infos_from(buf, pos, n) is Ok,
        stands_at(buf, infos_from(buf, pos, n)->Ok_0.1, info_image(raw, dims, ty, offset)),
        raw.len() <= u64::MAX,
        dims.len() <= u32::MAX,
    ensures
        infos_from(buf, pos, n + 1) is Ok,
        ({
            let before = infos_from(buf, pos, n)->Ok_0.0;
            let after = infos_from(buf, pos, n + 1)->Ok_0.0;
            &&& after.len() == before.len() + 1
            &&& after.last().name == lossy_text(raw)
            &&& after.last().dims == dims
            &&& after.last().offset == offset
            &&& forall|i: int| 0 <= i < before.len() ==> #[trigger] after[i] == before[i]
        }),
{
    law_tensor_info_is_read(buf, infos_from(buf, pos, n)->Ok_0.1, raw, dims, ty, offset);
}

/// A key-value pair whose value is a 32-bit number: the key, the number of the
/// type, the value.
pub open spec fn number_pair_image(raw: Seq<u8>, n: u32) -> Seq<u8> {
    text_image(raw) + (le_bytes(4, 4) + le_bytes(n as nat, 4))
}

/// A number under `general.alignment` is the alignment from then on; under any
/// other key it is not. Where the key is kept, a first shard notes the number
/// under it, and no other shard does.
pub proof fn law_alignment_is_the_one_given(
    buf: Seq<u8>,
    st: KvState,
    first: bool,
    raw: Seq<u8>,
    n: u32,
)
    requires
        stands_at(buf, st.pos, number_pair_image(raw, n)),
        raw.len() <= u64::MAX,
    ensures
        after_kv(buf, st, first) is Ok,
        ({
            let after = after_kv(buf, st, first)->Ok_0;
            let key = lossy_text(raw);
            &&& after.pos == st.pos + number_pair_image(raw, n).len()
            &&& key == "general.alignment"@ ==> after.alignment == n
            &&& key != "general.alignment"@ ==> after.alignment == st.alignment
            &&& first && kept_key(key) ==> after.meta == st.meta.insert(key, decimal(n as nat))
            &&& !first ==> after.meta == st.meta
            &&& !kept_key(key) ==> after.meta == st.meta
        }),
{
    let v = le_bytes(n as nat, 4);
    lemma_span_values();
    lemma_parts(buf, st.pos, text_image(raw), le_bytes(4, 4) + v);
    lemma_text(buf, st.pos, raw);
    let p1 = st.pos + 8 + raw.len();
    lemma_parts(buf, p1, le_bytes(4, 4), v);
    lemma_number(buf, p1, 4, 4);
    lemma_number(buf, p1 + 4, n as nat, 4);
    assert(value_at(buf, p1 + 4, 4) == Ok::<(Option<Seq<char>>, nat), GgufError>(
        (Some(decimal(n as nat)), p1 + 8),
    ));
    law_decimal_round_trip(n as nat, u64::MAX as nat);
}

/// Bytes of a value of a type that is one number or truth value.
pub open spec fn value_bytes(ty: nat) -> Option<nat> {
    if ty == 0 || ty == 1 || ty == 7 {
        Some(1)
    } else if ty == 2 || ty == 3 {
        Some(2)
    } else if ty == 4 || ty == 5 || ty == 6 {
        Some(4)
    } else if ty == 10 || ty == 11 || ty == 12 {
        Some(8)
    } else {
        None
    }
}

/// A value takes the bytes of its type, no more and no less, so that what
/// follows it is found; it is cut short exactly where the header ends before it
/// does. Whole numbers of four and eight bytes are noted in decimal.
pub proof fn law_values_take_their_bytes(buf: Seq<u8>, pos: nat, ty: nat)
    requires
        value_bytes(ty) is Some,
    ensures
        pos + value_bytes(ty)->0 > buf.len() <==> value_at(buf, pos, ty) is Err,
        value_at(buf, pos, ty) matches Err(e) ==> e == GgufError::Truncated,
        value_at(buf, pos, ty) matches Ok((text, at)) ==> {
            &&& at == pos + value_bytes(ty)->0
            &&& (ty == 4 || ty == 5 || ty == 10 || ty == 11) ==> text == Some(
                decimal(crate::bytes::le_value(buf.subrange(pos as int, at as int))),
            )
            &&& ty == 7 ==> text == Some(
                if buf[pos as int] == 0 {
                    "false"@
                } else {
                    "true"@
                },
            )
        },
{
    if ty == 7 && pos < buf.len() {
        let one = buf.subrange(pos as int, pos as int + 1);
        assert(one.skip(1).len() == 0);
        reveal_with_fuel(crate::bytes::le_value, 2);
        assert(crate::bytes::le_value(one) == one[0]);
    }
}

/// What is kept of the metadata: every key behind `general.`, and every one that
/// speaks of experts anywhere in it.
pub proof fn law_general_and_expert_keys_are_kept(rest: Seq<char>, a: Seq<char>, b: Seq<char>)
    ensures
        kept_key("general."@ + rest),
        kept_key(a + "expert"@ + b),
{
    let g = "general."@ + rest;
    assert(g.take("general."@.len() as int) =~= "general."@);
    let e = a + "expert"@ + b;
    assert(e.skip(a.len() as int).take("expert"@.len() as int) =~= "expert"@);
    assert(starts_with(e.skip(a.len() as int), "expert"@));
}

/// The data starts at the first multiple of the alignment behind the header.
pub proof fn law_data_is_aligned(end: nat, alignment: nat)
    requires
        alignment > 0,
    ensures
        rounded_up(end, alignment) % alignment == 0,
        end <= rounded_up(end, alignment) < end + alignment,
{
    let a = alignment as int;
    let q = (end + alignment - 1) as int / a;
    vstd::arithmetic::div_mod::lemma_fundamental_div_mod((end + alignment - 1) as int, a);
    assert(q * a == a * q) by (nonlinear_arith);
    vstd::arithmetic::div_mod::lemma_mod_multiples_basic(q, a);
}

/// A row of whole blocks takes as many bytes as its blocks do.
pub proof fn law_rows_are_whole_blocks(t: GgmlType, blocks: nat)
    requires
        t.block() is Some,
    ensures
        ({
            let (vals, bytes) = t.block()->0;
            &&& vals > 0
            &&& t.row_size(blocks * vals as nat) == Some(blocks * bytes as nat)
        }),
{
    let (vals, bytes) = t.block()->0;
    let v = vals as int;
    vstd::arithmetic::div_mod::lemma_fundamental_div_mod_converse(blocks * v, v, blocks as int, 0);
}

} // verus!
